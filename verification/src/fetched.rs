//! The server's answers to user and group fetches, and their text for the
//! command line.
use vstd::prelude::*;
use vstd::string::*;

use crate::network_command::{GroupInfo, NetworkCommandID, QueryOrNotify};
use crate::order::lemma_increasing_ids;
use crate::text::{decimal, decimal_spec, join_spec};
use vstd::std_specs::btree::spec_btree_map_iter;
use vstd::std_specs::iter::IteratorSpec;

verus! {

/// A user as a fetch describes it.
#[derive(Debug, Clone)]
pub struct UserInfo {
    pub user_id: u64,
    pub username: String,
    pub open_to_echo: bool,
    /// The id and name of the user's group.
    pub group_info: Option<(u32, String)>,
}

/// The users that answer a user fetch, each once.
#[derive(Debug, Clone)]
pub struct FetchedUsers {
    pub users: Vec<UserInfo>,
}

/// The groups that answer a group fetch, each once.
#[derive(Debug, Clone)]
pub struct FetchedGroups {
    pub groups: Vec<GroupInfo>,
}

impl NetworkCommandID for FetchedUsers {
    const ID: u8 = 3;
}

impl NetworkCommandID for FetchedGroups {
    const ID: u8 = 13;
}

/// "is" or "isn't".
pub open spec fn is_word(b: bool) -> Seq<char> {
    if b {
        "is"@
    } else {
        "isn't"@
    }
}

/// The line that describes a user: name, id, whether it is open to echo,
/// and its group.
pub open spec fn user_line(u: UserInfo) -> Seq<char> {
    u.username@ + " ("@ + decimal_spec(u.user_id as nat) + ") "@ + is_word(u.open_to_echo)
        + " open to echo "@ + match u.group_info {
        Some((id, name)) => "in group "@ + name@ + " ("@ + decimal_spec(id as nat) + ")"@,
        None => "and not in a group"@,
    }
}

/// The lines of the members `ks` of a group, in that order: two spaces, the
/// name, a mark on the host, and a line break.
pub open spec fn member_lines(ks: Seq<u64>, users: Map<u64, String>, host: u64) -> Seq<char>
    decreases ks.len(),
{
    if ks.len() == 0 {
        Seq::<char>::empty()
    } else {
        member_lines(ks.drop_last(), users, host) + "  "@ + users[ks.last()]@ + (if ks.last()
            == host {
            " (host)"@
        } else {
            Seq::<char>::empty()
        }) + "\n"@
    }
}

/// `ks` lists the ids of `ids` in increasing order.
pub open spec fn in_order(ks: Seq<u64>, ids: Set<u64>) -> bool {
    &&& ks.to_set() == ids
    &&& forall|i: int, j: int| 0 <= i < j < ks.len() ==> ks[i] < ks[j]
}

/// The text that describes a group: its name, id, whether it is open, and
/// its members in the order `ks`.
pub open spec fn group_block(g: GroupInfo, ks: Seq<u64>) -> Seq<char> {
    g.name@ + " ("@ + decimal_spec(g.id as nat) + ") "@ + is_word(g.open)
        + " open to echo, users:\n"@ + member_lines(ks, g.users@, g.host)
}

impl UserInfo {
    /// The line that describes the user.
    pub fn describe(&self) -> (s: String)
        ensures
            s@ == user_line(*self),
    {
        let mut s = self.username.clone();
        s.append(" (");
        s.append(decimal(self.user_id).as_str());
        s.append(") ");
        if self.open_to_echo {
            s.append("is");
        } else {
            s.append("isn't");
        }
        s.append(" open to echo ");
        match &self.group_info {
            Some((id, name)) => {
                s.append("in group ");
                s.append(name.as_str());
                s.append(" (");
                s.append(decimal(*id as u64).as_str());
                s.append(")");
            },
            None => {
                s.append("and not in a group");
            },
        }
        s
    }
}

impl FetchedUsers {
    /// No user is listed twice.
    pub open spec fn wf(&self) -> bool {
        self.users@.no_duplicates()
    }

    pub fn number(&self) -> (n: u8)
        ensures
            n == 3,
    {
        Self::ID
    }

    pub fn query_or_notify(&self) -> (q: QueryOrNotify)
        ensures
            q == QueryOrNotify::Notify,
    {
        QueryOrNotify::Notify
    }
}

/// The text that describes a group, with its members in increasing order of
/// id.
fn describe_group(g: &GroupInfo) -> (s: String)
    ensures
        exists|ks: Seq<u64>| in_order(ks, g.users@.dom()) && s@ == group_block(*g, ks),
{
    let mut s = g.name.clone();
    s.append(" (");
    s.append(decimal(g.id as u64).as_str());
    s.append(") ");
    if g.open {
        s.append("is");
    } else {
        s.append("isn't");
    }
    s.append(" open to echo, users:\n");
    let ghost head = s@;
    let ghost pairs = spec_btree_map_iter(&g.users).remaining();
    let ghost ks = pairs.map_values(|kv: (&u64, &String)| *kv.0);
    for kv in it: g.users.iter()
        invariant
            it.seq() == pairs,
            ks == pairs.map_values(|kv: (&u64, &String)| *kv.0),
            s@ == head + member_lines(ks.take(it.index() as int), g.users@, g.host),
    {
        let (k, v) = kv;
        assert(ks.take(it.index() + 1).drop_last() =~= ks.take(it.index() as int));
        s.append("  ");
        s.append(v.as_str());
        if *k == g.host {
            s.append(" (host)");
        }
        s.append("\n");
    }
    assert(ks.take(ks.len() as int) =~= ks);
    proof {
        assert forall|k: u64| ks.to_set().contains(k) <==> g.users@.dom().contains(k) by {
            if g.users@.contains_key(k) {
                assert(pairs.contains((&k, &g.users@[k])));
                let w = choose|w: int| 0 <= w < pairs.len() && pairs[w] == (&k, &g.users@[k]);
                assert(ks[w] == k);
            }
            if ks.to_set().contains(k) {
                let w = choose|w: int| 0 <= w < ks.len() && ks[w] == k;
                assert(g.users@.contains_key(*pairs[w].0));
            }
        }
        assert(ks.to_set() =~= g.users@.dom());
        lemma_increasing_ids(ks);
        assert(s@ == group_block(*g, ks));
    }
    s
}

impl FetchedGroups {
    /// No group is listed twice.
    pub open spec fn wf(&self) -> bool {
        self.groups@.no_duplicates()
    }

    pub fn number(&self) -> (n: u8)
        ensures
            n == 13,
    {
        Self::ID
    }

    pub fn query_or_notify(&self) -> (q: QueryOrNotify)
        ensures
            q == QueryOrNotify::Notify,
    {
        QueryOrNotify::Notify
    }

    /// The texts of the groups, in the order of the list, with a blank line
    /// between each two; each group's members come in increasing order of
    /// id.
    pub fn describe(&self) -> (s: String)
        ensures
            exists|kss: Seq<Seq<u64>>|
                {
                    &&& kss.len() == self.groups.len()
                    &&& forall|i: int|
                        0 <= i < kss.len() ==> in_order(
                            #[trigger] kss[i],
                            self.groups@[i].users@.dom(),
                        )
                    &&& s@ == join_spec(
                        Seq::new(
                            self.groups.len() as nat,
                            |i: int| group_block(self.groups@[i], kss[i]),
                        ),
                        "\n"@,
                    )
                },
    {
        let mut s = String::new();
        let ghost mut kss: Seq<Seq<u64>> = Seq::empty();
        let mut i: usize = 0;
        while i < self.groups.len()
            invariant
                i <= self.groups.len(),
                kss.len() == i,
                forall|j: int|
                    0 <= j < i ==> in_order(#[trigger] kss[j], self.groups@[j].users@.dom()),
                s@ == join_spec(
                    Seq::new(i as nat, |j: int| group_block(self.groups@[j], kss[j])),
                    "\n"@,
                ),
            decreases self.groups.len() - i,
        {
            let block = describe_group(&self.groups[i]);
            let ghost ks = choose|ks: Seq<u64>|
                in_order(ks, self.groups@[i as int].users@.dom()) && block@ == group_block(
                    self.groups@[i as int],
                    ks,
                );
            let ghost prev = Seq::new(i as nat, |j: int| group_block(self.groups@[j], kss[j]));
            proof {
                kss = kss.push(ks);
            }
            let ghost next = Seq::new((i + 1) as nat, |j: int| group_block(self.groups@[j], kss[j]));
            assert(next.drop_last() =~= prev);
            if i > 0 {
                s.append("\n");
            }
            s.append(block.as_str());
            i = i + 1;
        }
        s
    }
}

} // verus!
