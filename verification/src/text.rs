//! Character-level helpers: splitting on spaces, joining, suffix and
//! character tests, and decimal formatting of integers.
use vstd::prelude::*;
use vstd::string::*;

verus! {

/// `s` ends with `suffix`.
pub open spec fn ends_with_spec(s: Seq<char>, suffix: Seq<char>) -> bool {
    suffix.len() <= s.len() && s.subrange(s.len() - suffix.len(), s.len() as int) == suffix
}

/// The pieces of `s` between single spaces, as `str::split(' ')` gives them:
/// there is always at least one piece, and two adjacent spaces give an
/// empty piece.
pub open spec fn split_spaces_spec(s: Seq<char>) -> Seq<Seq<char>>
    decreases s.len(),
{
    if s.len() == 0 {
        seq![Seq::<char>::empty()]
    } else {
        let r = split_spaces_spec(s.drop_last());
        if s.last() == ' ' {
            r.push(Seq::<char>::empty())
        } else {
            r.update(r.len() - 1, r.last().push(s.last()))
        }
    }
}

/// The pieces joined with `sep` between each two neighbours.
pub open spec fn join_spec(parts: Seq<Seq<char>>, sep: Seq<char>) -> Seq<char>
    decreases parts.len(),
{
    if parts.len() == 0 {
        Seq::<char>::empty()
    } else if parts.len() == 1 {
        parts[0]
    } else {
        join_spec(parts.drop_last(), sep) + sep + parts.last()
    }
}

/// The decimal digit character for `d` (for `0 <= d < 10`).
pub open spec fn digit_char(d: int) -> char {
    if d == 0 {
        '0'
    } else if d == 1 {
        '1'
    } else if d == 2 {
        '2'
    } else if d == 3 {
        '3'
    } else if d == 4 {
        '4'
    } else if d == 5 {
        '5'
    } else if d == 6 {
        '6'
    } else if d == 7 {
        '7'
    } else if d == 8 {
        '8'
    } else {
        '9'
    }
}

/// The decimal notation of `n`, without leading zeros.
pub open spec fn decimal_spec(n: nat) -> Seq<char>
    decreases n,
{
    if n < 10 {
        seq![digit_char(n as int)]
    } else {
        decimal_spec(n / 10) + seq![digit_char((n % 10) as int)]
    }
}

/// The views of a sequence of strings.
pub open spec fn views(v: Seq<String>) -> Seq<Seq<char>> {
    v.map_values(|s: String| s@)
}

proof fn lemma_split_nonempty(s: Seq<char>)
    ensures
        split_spaces_spec(s).len() >= 1,
    decreases s.len(),
{
    if s.len() > 0 {
        lemma_split_nonempty(s.drop_last());
    }
}

/// The characters of `s`, in order.
pub fn char_vec(s: &str) -> (v: Vec<char>)
    ensures
        v@ == s@,
{
    let mut v: Vec<char> = Vec::new();
    for c in it: s.chars()
        invariant
            v@ == it.seq().take(it.index() as int),
    {
        v.push(c);
    }
    assert(v@ =~= s@);
    v
}

/// An owned copy of `s`.
pub fn owned(s: &str) -> (r: String)
    ensures
        r@ == s@,
{
    String::from_str(s)
}

/// Whether `s` holds the character `c`.
pub fn contains_char(s: &str, c: char) -> (b: bool)
    ensures
        b == s@.contains(c),
{
    let v = char_vec(s);
    let mut i: usize = 0;
    while i < v.len()
        invariant
            v@ == s@,
            i <= v.len(),
            forall|j: int| 0 <= j < i ==> v@[j] != c,
        decreases v.len() - i,
    {
        if v[i] == c {
            return true;
        }
        i = i + 1;
    }
    false
}

/// Whether `s` ends with `suffix`.
pub fn ends_with(s: &str, suffix: &str) -> (b: bool)
    ensures
        b == ends_with_spec(s@, suffix@),
{
    let a = char_vec(s);
    let b = char_vec(suffix);
    if b.len() > a.len() {
        return false;
    }
    let off = a.len() - b.len();
    let mut i: usize = 0;
    while i < b.len()
        invariant
            a@ == s@,
            b@ == suffix@,
            off == a.len() - b.len(),
            i <= b.len(),
            forall|j: int| 0 <= j < i ==> a@[off + j] == b@[j],
        decreases b.len() - i,
    {
        if a[off + i] != b[i] {
            assert(s@.subrange(s@.len() - suffix@.len(), s@.len() as int)[i as int] != suffix@[i as int]);
            return false;
        }
        i = i + 1;
    }
    assert(s@.subrange(s@.len() - suffix@.len(), s@.len() as int) =~= suffix@);
    true
}

/// The pieces of `s` between single spaces (see [`split_spaces_spec`]).
pub fn split_spaces(s: &str) -> (parts: Vec<String>)
    ensures
        views(parts@) == split_spaces_spec(s@),
{
    let v = char_vec(s);
    let mut parts: Vec<String> = Vec::new();
    let mut start: usize = 0;
    let mut i: usize = 0;
    assert(s@.take(0) =~= Seq::<char>::empty());
    assert(views(parts@) =~= Seq::<Seq<char>>::empty());
    assert(s@.subrange(0, 0) =~= Seq::<char>::empty());
    assert(views(parts@).push(s@.subrange(0, 0)) =~= split_spaces_spec(s@.take(0)));
    while i < v.len()
        invariant
            v@ == s@,
            start <= i <= v.len(),
            views(parts@).push(s@.subrange(start as int, i as int)) == split_spaces_spec(
                s@.take(i as int),
            ),
        decreases v.len() - i,
    {
        let ghost before = s@.take(i as int);
        assert(s@.take(i + 1).drop_last() =~= before);
        proof { lemma_split_nonempty(before); }
        let ghost old_views = views(parts@);
        assert(s@.take(i + 1).last() == v@[i as int]);
        if v[i] == ' ' {
            let piece = s.substring_char(start, i);
            parts.push(String::from_str(piece));
            assert(views(parts@) =~= old_views.push(s@.subrange(start as int, i as int)));
            start = i + 1;
            assert(s@.subrange(start as int, (i + 1) as int) =~= Seq::<char>::empty());
            assert(views(parts@).push(s@.subrange(start as int, (i + 1) as int))
                =~= split_spaces_spec(s@.take(i + 1)));
        } else {
            assert(s@.subrange(start as int, i as int).push(v@[i as int]) =~= s@.subrange(
                start as int,
                (i + 1) as int,
            ));
            assert(views(parts@).push(s@.subrange(start as int, (i + 1) as int))
                =~= split_spaces_spec(s@.take(i + 1)));
        }
        i = i + 1;
    }
    let piece = s.substring_char(start, v.len());
    parts.push(String::from_str(piece));
    assert(s@.take(v.len() as int) =~= s@);
    assert(views(parts@) =~= split_spaces_spec(s@));
    parts
}

/// `parts[from..to]` joined with `sep`.
pub fn join(parts: &Vec<String>, from: usize, to: usize, sep: &str) -> (r: String)
    requires
        from <= to <= parts.len(),
    ensures
        r@ == join_spec(views(parts@).subrange(from as int, to as int), sep@),
{
    let mut r = String::new();
    let mut i = from;
    while i < to
        invariant
            from <= i <= to <= parts.len(),
            r@ == join_spec(views(parts@).subrange(from as int, i as int), sep@),
        decreases to - i,
    {
        let ghost prev = views(parts@).subrange(from as int, i as int);
        let ghost next = views(parts@).subrange(from as int, i + 1);
        assert(next.drop_last() =~= prev);
        if i > from {
            r.append(sep);
        } else {
            assert(prev.len() == 0);
        }
        r.append(parts[i].as_str());
        i = i + 1;
    }
    r
}

/// The decimal digit for `d`, as a one-character string.
fn digit_str(d: u64) -> (s: &'static str)
    requires
        d < 10,
    ensures
        s@ == seq![digit_char(d as int)],
{
    proof {
        reveal_strlit("0");
        reveal_strlit("1");
        reveal_strlit("2");
        reveal_strlit("3");
        reveal_strlit("4");
        reveal_strlit("5");
        reveal_strlit("6");
        reveal_strlit("7");
        reveal_strlit("8");
        reveal_strlit("9");
    }
    let s = if d == 0 {
        "0"
    } else if d == 1 {
        "1"
    } else if d == 2 {
        "2"
    } else if d == 3 {
        "3"
    } else if d == 4 {
        "4"
    } else if d == 5 {
        "5"
    } else if d == 6 {
        "6"
    } else if d == 7 {
        "7"
    } else if d == 8 {
        "8"
    } else {
        "9"
    };
    assert(s@ =~= seq![digit_char(d as int)]);
    s
}

/// The digits of `m` that are still to be written in front of the
/// ones already produced.
spec fn leading_digits(m: nat) -> Seq<char> {
    if m == 0 {
        Seq::<char>::empty()
    } else {
        decimal_spec(m)
    }
}

/// The decimal notation of `n`.
pub fn decimal(n: u64) -> (r: String)
    ensures
        r@ == decimal_spec(n as nat),
{
    let mut r = String::from_str(digit_str(n % 10));
    let mut m = n / 10;
    assert(decimal_spec(n as nat) =~= leading_digits(m as nat) + r@);
    while m > 0
        invariant
            decimal_spec(n as nat) == leading_digits(m as nat) + r@,
        decreases m,
    {
        let mut t = String::from_str(digit_str(m % 10));
        t.append(r.as_str());
        let ghost old_r = r@;
        r = t;
        assert(leading_digits(m as nat) =~= leading_digits((m / 10) as nat) + seq![digit_char((m % 10) as int)]);
        assert(leading_digits(m as nat) + old_r =~= leading_digits((m / 10) as nat) + r@);
        m = m / 10;
    }
    assert(leading_digits(0) + r@ =~= r@);
    r
}

/// Joining the pieces of `s` between spaces with spaces gives `s` back.
proof fn lemma_join_split(s: Seq<char>)
    ensures
        join_spec(split_spaces_spec(s), " "@) == s,
    decreases s.len(),
{
    if s.len() == 0 {
        assert(join_spec(split_spaces_spec(s), " "@) =~= s);
    } else {
        let t = s.drop_last();
        lemma_join_split(t);
        lemma_split_nonempty(t);
        let r = split_spaces_spec(t);
        let sp = " "@;
        reveal_strlit(" ");
        assert(sp =~= seq![' ']);
        assert(t.push(s.last()) =~= s);
        if s.last() == ' ' {
            let q = r.push(Seq::<char>::empty());
            assert(q.drop_last() =~= r);
            assert(join_spec(q, sp) == join_spec(r, sp) + sp + Seq::<char>::empty());
            assert(join_spec(q, sp) =~= s);
        } else {
            let q = r.update(r.len() - 1, r.last().push(s.last()));
            if r.len() == 1 {
                assert(join_spec(r, sp) == r[0]);
                assert(join_spec(q, sp) == q[0]);
                assert(join_spec(q, sp) =~= s);
            } else {
                assert(q.drop_last() =~= r.drop_last());
                assert(join_spec(r, sp) == join_spec(r.drop_last(), sp) + sp + r.last());
                assert(join_spec(q, sp) == join_spec(q.drop_last(), sp) + sp + q.last());
                assert(join_spec(q, sp) =~= s);
            }
        }
    }
}

/// Joining all pieces is joining the first `k`, the separator, and joining
/// the rest.
proof fn lemma_join_parts(p: Seq<Seq<char>>, sep: Seq<char>, k: int)
    requires
        0 < k < p.len(),
    ensures
        join_spec(p, sep) == join_spec(p.subrange(0, k), sep) + sep + join_spec(
            p.subrange(k, p.len() as int),
            sep,
        ),
    decreases p.len(),
{
    let n = p.len() as int;
    if n == k + 1 {
        assert(p.drop_last() =~= p.subrange(0, k));
        assert(p.subrange(k, n).len() == 1);
        assert(p.subrange(k, n)[0] == p.last());
    } else {
        lemma_join_parts(p.drop_last(), sep, k);
        assert(p.drop_last().subrange(0, k) =~= p.subrange(0, k));
        assert(p.drop_last().subrange(k, n - 1) =~= p.subrange(k, n - 1));
        assert(p.subrange(k, n).drop_last() =~= p.subrange(k, n - 1));
        assert(p.subrange(k, n).last() == p.last());
        assert(join_spec(p, sep) =~= join_spec(p.subrange(0, k), sep) + sep + join_spec(
            p.subrange(k, n),
            sep,
        ));
    }
}

/// The words of `s` from the `k`-th on, joined with spaces, are the text of
/// `s` after its first `k` words and the space that follows each of them.
pub proof fn lemma_rest_of_input(s: Seq<char>, k: int)
    requires
        1 <= k < split_spaces_spec(s).len(),
    ensures
        join_spec(
            split_spaces_spec(s).subrange(k, split_spaces_spec(s).len() as int),
            " "@,
        ) == s.subrange(
            join_spec(split_spaces_spec(s).subrange(0, k), " "@).len() + 1int,
            s.len() as int,
        ),
{
    let p = split_spaces_spec(s);
    lemma_join_split(s);
    lemma_join_parts(p, " "@, k);
    let a = join_spec(p.subrange(0, k), " "@);
    let b = join_spec(p.subrange(k, p.len() as int), " "@);
    assert(s == a + " "@ + b);
    assert(" "@.len() == 1) by {
        reveal_strlit(" ");
    }
    assert(s.subrange(a.len() + 1int, s.len() as int) =~= b);
}

} // verus!
