//! Packets: the header of version, sender name and group, followed by one
//! command, and their byte format.
use vstd::prelude::*;
use vstd::string::*;
use vstd::utf8::{decode_utf8, encode_utf8, valid_utf8};
use compact_str::CompactString;

use crate::failure::{Failure, FailureType};
use crate::text::char_vec;
use crate::network_command::{FetchGroups, FetchUsers, NetworkCommand, UserData};

verus! {

/// The protocol version written into every packet: major, minor, patch.
pub const NETWORK_VERSION: [u8; 3] = [0, 1, 0];

/// The number of bytes the sender name occupies in a packet.
pub const USERNAME_BYTES: usize = 32;

/// A command as it travels: its number and its body bytes.
#[derive(Debug, Clone)]
pub struct Payload {
    pub number: u8,
    pub body: Vec<u8>,
}

/// A packet: protocol version, sender name, group of the sender, and the
/// command it carries.
#[derive(Debug, Clone)]
pub struct Packet {
    pub version: [u8; 3],
    pub username: String,
    pub group_id: u32,
    pub payload: Payload,
}

/// The result of decoding bytes as UTF-8 with every malformed sequence
/// replaced, as `CompactString::from_utf8_lossy` computes it.
pub uninterp spec fn utf8_lossy(bytes: Seq<u8>) -> Seq<char>;

/// Calls `compact_str::CompactString::from_utf8_lossy`. The result is named
/// by `utf8_lossy`; for valid UTF-8 the crate documents that it is the plain
/// decoding of the bytes.
#[verifier::external_body]
fn from_utf8_lossy(bytes: &[u8]) -> (s: String)
    ensures
        s@ == utf8_lossy(bytes@),
        valid_utf8(bytes@) ==> s@ == decode_utf8(bytes@),
{
    CompactString::from_utf8_lossy(bytes).into_string()
}

/// The characters of a name field: the plain decoding when the bytes are
/// valid UTF-8, the lossy decoding otherwise.
pub open spec fn decode_name(bytes: Seq<u8>) -> Seq<char> {
    if valid_utf8(bytes) {
        decode_utf8(bytes)
    } else {
        utf8_lossy(bytes)
    }
}

/// The little-endian bytes of `g`.
pub open spec fn le_bytes(g: u32) -> Seq<u8> {
    seq![
        (g % 256) as u8,
        ((g / 256) % 256) as u8,
        ((g / 65536) % 256) as u8,
        ((g / 16777216) % 256) as u8,
    ]
}

/// The number whose little-endian bytes are the first four of `b`.
pub open spec fn le_value(b: Seq<u8>) -> u32 {
    (b[0] + 256 * b[1] + 65536 * b[2] + 16777216 * b[3]) as u32
}

/// `n` zero bytes.
pub open spec fn zeros(n: nat) -> Seq<u8> {
    Seq::new(n, |i: int| 0u8)
}

/// `n` NUL characters.
pub open spec fn nuls(n: nat) -> Seq<char> {
    Seq::new(n, |i: int| '\0')
}

/// The UTF-8 bytes of a sender name, padded with zero bytes to the width
/// of the name field.
pub open spec fn padded_name(u: Seq<char>) -> Seq<u8> {
    encode_utf8(u) + zeros((32 - encode_utf8(u).len()) as nat)
}

/// `s` without its leading NUL characters.
pub open spec fn strip_front_nuls(s: Seq<char>) -> Seq<char>
    decreases s.len(),
{
    if s.len() > 0 && s[0] == '\0' {
        strip_front_nuls(s.drop_first())
    } else {
        s
    }
}

/// `s` without its trailing NUL characters.
pub open spec fn strip_back_nuls(s: Seq<char>) -> Seq<char>
    decreases s.len(),
{
    if s.len() > 0 && s.last() == '\0' {
        strip_back_nuls(s.drop_last())
    } else {
        s
    }
}

/// `s` without NUL characters at either end.
pub open spec fn trim_nuls(s: Seq<char>) -> Seq<char> {
    strip_back_nuls(strip_front_nuls(s))
}

/// The bytes of a packet with the given header and command.
pub open spec fn packet_bytes(
    version: Seq<u8>,
    username: Seq<char>,
    group_id: u32,
    number: u8,
    body: Seq<u8>,
) -> Seq<u8> {
    version + padded_name(username) + le_bytes(group_id) + seq![number, number] + body
}

/// The sender name is short enough for the name field.
pub open spec fn username_fits(username: Seq<char>) -> bool {
    encode_utf8(username).len() <= 32
}

/// Command numbers that name a known command.
pub open spec fn known_command(id: u8) -> bool {
    id <= 13
}

/// Reading the body of a command of this number stays in range.
pub open spec fn body_in_range(id: u8, body: Seq<u8>) -> bool {
    &&& id == 4 ==> UserData::parse_requires(body)
    &&& id == 5 ==> FetchUsers::parse_requires(body)
    &&& id == 12 ==> FetchGroups::parse_requires(body)
}

/// The body is well formed for the command number, as far as the format is
/// defined here.
pub open spec fn body_well_formed(id: u8, body: Seq<u8>) -> bool {
    &&& id == 4 ==> UserData::decoding(body) is Some
    &&& id == 5 ==> FetchUsers::decoding(body) is Some
    &&& id == 12 ==> FetchGroups::decoding(body) is Some
}

/// The text of the warning for a malformed body of the command `id`.
pub open spec fn body_error(id: u8) -> Seq<char> {
    if id == 4 {
        UserData::parse_error()
    } else if id == 5 {
        FetchUsers::parse_error()
    } else {
        FetchGroups::parse_error()
    }
}

/// The commands whose body is data encoded with postcard, which this crate
/// does not decode: whoever receives the body decodes it and hands the
/// verdict to [`parse_command`].
pub open spec fn decoded_outside(id: u8) -> bool {
    id == 3 || id == 6 || id == 7 || id == 8 || id == 9 || id == 10 || id == 11 || id == 13
}

/// The name of such a command, as its decoding warning gives it.
pub open spec fn command_name(id: u8) -> Seq<char> {
    if id == 3 {
        "FetchedUsers"@
    } else if id == 6 {
        "SetEchoAvailability"@
    } else if id == 7 {
        "SetOnlineStatus"@
    } else if id == 8 {
        "CreateNewGroup"@
    } else if id == 9 {
        "GroupInfo"@
    } else if id == 10 {
        "JoinGroup"@
    } else if id == 11 {
        "NetworkFailure"@
    } else {
        "FetchedGroups"@
    }
}

/// The warning for a body of the command `id` that did not decode, with
/// the decoder's description `e` of what went wrong.
pub open spec fn decode_error(id: u8, e: Seq<char>) -> Seq<char> {
    "failed to deserialize "@ + command_name(id) + ": "@ + e
}

fn command_name_str(id: u8) -> (s: &'static str)
    requires
        decoded_outside(id),
    ensures
        s@ == command_name(id),
{
    if id == 3 {
        "FetchedUsers"
    } else if id == 6 {
        "SetEchoAvailability"
    } else if id == 7 {
        "SetOnlineStatus"
    } else if id == 8 {
        "CreateNewGroup"
    } else if id == 9 {
        "GroupInfo"
    } else if id == 10 {
        "JoinGroup"
    } else if id == 11 {
        "NetworkFailure"
    } else {
        "FetchedGroups"
    }
}

/// The verdict on the body of the command `id`, given the outcome
/// `decoded` of decoding it: a warning when the command's body is decoded
/// outside this crate and did not decode; accepted otherwise.
pub fn check_decoded(id: u8, decoded: &Result<(), String>) -> (r: Result<(), Failure>)
    ensures
        match decoded {
            Err(e) => if decoded_outside(id) {
                r matches Err(f) && f.is(FailureType::Warning, decode_error(id, e@))
            } else {
                r is Ok
            },
            Ok(()) => r is Ok,
        },
{
    match decoded {
        Err(e) => {
            if id == 3 || id == 6 || id == 7 || id == 8 || id == 9 || id == 10 || id == 11 || id
                == 13 {
                let mut m = String::from_str("failed to deserialize ");
                m.append(command_name_str(id));
                m.append(": ");
                m.append(e.as_str());
                Err(Failure::new(m, FailureType::Warning))
            } else {
                Ok(())
            }
        },
        Ok(()) => Ok(()),
    }
}

/// Reading a packet from `data` stays in range.
pub open spec fn packet_in_range(data: Seq<u8>) -> bool {
    data.len() >= 41 ==> body_in_range(data[40], data.subrange(41, data.len() as int))
}

/// Whether reading a packet from `data` stays in range: the body must be
/// long enough for the commands whose format is read here.
pub fn packet_fits(data: &[u8]) -> (b: bool)
    ensures
        b == packet_in_range(data@),
{
    if data.len() < 41 {
        return true;
    }
    let id = data[40];
    let n = data.len() - 41;
    assert(data@.subrange(41, data@.len() as int).len() == n);
    if id == 4 {
        n >= 2
    } else if id == 5 || id == 12 {
        n >= 1
    } else {
        true
    }
}

impl Payload {
    /// The payload of a command whose format is defined here.
    pub fn of<C: NetworkCommand>(cmd: &C) -> (p: Payload)
        ensures
            p.number == C::id_spec(),
            p.body@ == cmd.encoding(),
    {
        let body = match cmd.serialize() {
            Ok(b) => b,
            Err(_) => Vec::new(),
        };
        Payload { number: cmd.number(), body }
    }
}

/// A sender name is accepted when its UTF-8 form fits the name field.
pub fn check_parameters(username: &str) -> (r: Result<(), Failure>)
    ensures
        username_fits(username@) ==> r is Ok,
        !username_fits(username@) ==> (r matches Err(f) && f.is(
            FailureType::Warning,
            "username too long"@,
        )),
{
    if username.as_bytes().len() > 32 {
        return Err(Failure::new(String::from_str("username too long"), FailureType::Warning));
    }
    Ok(())
}

/// Split a command into its number and body, checking that the number is
/// known and that the body is well formed: this crate reads the bodies of
/// the commands whose format it defines, and `decoded` is the outcome of
/// decoding the body of the others (it is not looked at for commands whose
/// body is not decoded outside this crate).
pub fn parse_command(full_data: Vec<u8>, decoded: &Result<(), String>) -> (r: Result<Payload, Failure>)
    requires
        full_data.len() >= 1,
        body_in_range(full_data[0], full_data@.subrange(1, full_data.len() as int)),
    ensures
        ({
            let id = full_data@[0];
            let body = full_data@.subrange(1, full_data.len() as int);
            if !known_command(id) {
                r matches Err(f) && f.is(FailureType::Warning, "invalid command"@)
            } else if !body_well_formed(id, body) {
                r matches Err(f) && f.is(FailureType::Warning, body_error(id))
            } else if decoded_outside(id) && decoded is Err {
                r matches Err(f) && f.is(FailureType::Warning, decode_error(id, decoded->Err_0@))
            } else {
                r matches Ok(p) && p.number == id && p.body@ == body
            }
        }),
{
    let cmd_number = full_data[0];
    let mut data: Vec<u8> = Vec::new();
    let mut i: usize = 1;
    while i < full_data.len()
        invariant
            1 <= i <= full_data.len(),
            data@ == full_data@.subrange(1, i as int),
        decreases full_data.len() - i,
    {
        data.push(full_data[i]);
        assert(data@ =~= full_data@.subrange(1, i + 1));
        i = i + 1;
    }
    if cmd_number > 13 {
        return Err(Failure::new(String::from_str("invalid command"), FailureType::Warning));
    }
    if cmd_number == 4 {
        match UserData::parse(data.clone()) {
            Ok(_) => {},
            Err(f) => {
                return Err(f);
            },
        }
    } else if cmd_number == 5 {
        match FetchUsers::parse(data.clone()) {
            Ok(_) => {},
            Err(f) => {
                return Err(f);
            },
        }
    } else if cmd_number == 12 {
        match FetchGroups::parse(data.clone()) {
            Ok(_) => {},
            Err(f) => {
                return Err(f);
            },
        }
    }
    match check_decoded(cmd_number, decoded) {
        Ok(()) => {},
        Err(f) => {
            return Err(f);
        },
    }
    Ok(Payload { number: cmd_number, body: data })
}


proof fn lemma_strip_front(s: Seq<char>, a: int)
    requires
        0 <= a <= s.len(),
        forall|i: int| 0 <= i < a ==> s[i] == '\0',
        a == s.len() || s[a] != '\0',
    ensures
        strip_front_nuls(s) == s.subrange(a, s.len() as int),
    decreases a,
{
    if a == 0 {
        assert(s.subrange(0, s.len() as int) =~= s);
    } else {
        let t = s.drop_first();
        lemma_strip_front(t, a - 1);
        assert(t.subrange(a - 1, t.len() as int) =~= s.subrange(a, s.len() as int));
    }
}

proof fn lemma_strip_back(s: Seq<char>, b: int)
    requires
        0 <= b <= s.len(),
        forall|i: int| b <= i < s.len() ==> s[i] == '\0',
        b == 0 || s[b - 1] != '\0',
    ensures
        strip_back_nuls(s) == s.subrange(0, b),
    decreases s.len() - b,
{
    if b == s.len() {
        assert(s.subrange(0, b) =~= s);
    } else {
        let t = s.drop_last();
        lemma_strip_back(t, b);
        assert(t.subrange(0, b) =~= s.subrange(0, b));
    }
}

/// `s` without NUL characters at either end.
fn trim_nuls_exec(s: &str) -> (r: String)
    ensures
        r@ == trim_nuls(s@),
{
    let c = char_vec(s);
    let mut a: usize = 0;
    while a < c.len() && c[a] == '\0'
        invariant
            c@ == s@,
            a <= c.len(),
            forall|i: int| 0 <= i < a ==> c@[i] == '\0',
        decreases c.len() - a,
    {
        a = a + 1;
    }
    let mut b: usize = c.len();
    while b > a && c[b - 1] == '\0'
        invariant
            c@ == s@,
            a <= b <= c.len(),
            forall|i: int| b <= i < c.len() ==> c@[i] == '\0',
        decreases b,
    {
        b = b - 1;
    }
    proof {
        lemma_strip_front(s@, a as int);
        let t = s@.subrange(a as int, s@.len() as int);
        assert forall|i: int| b - a <= i < t.len() implies t[i] == '\0' by {
            assert(t[i] == s@[a + i]);
        }
        if b > a {
            assert(t[b - a - 1] == s@[b - 1]);
        }
        lemma_strip_back(t, b - a);
        assert(t.subrange(0, b - a) =~= s@.subrange(a as int, b as int));
    }
    String::from_str(s.substring_char(a, b))
}

/// The little-endian bytes of `g`.
fn le_bytes_exec(g: u32) -> (b: [u8; 4])
    ensures
        b@ == le_bytes(g),
{
    let b = [
        (g % 256) as u8,
        ((g / 256) % 256) as u8,
        ((g / 65536) % 256) as u8,
        ((g / 16777216) % 256) as u8,
    ];
    assert(b@ =~= le_bytes(g));
    b
}

/// The number whose little-endian bytes are `b0..b3`.
fn le_value_exec(b0: u8, b1: u8, b2: u8, b3: u8) -> (g: u32)
    ensures
        g == le_value(seq![b0, b1, b2, b3]),
{
    (b0 as u32) + 256 * (b1 as u32) + 65536 * (b2 as u32) + 16777216 * (b3 as u32)
}

/// Reading back the little-endian bytes of a number gives the number.
pub proof fn lemma_le_roundtrip(g: u32)
    ensures
        le_value(le_bytes(g)) == g,
{
    let b = le_bytes(g);
    assert(b[0] + 256 * b[1] + 65536 * b[2] + 16777216 * b[3] == g) by (nonlinear_arith)
        requires
            b[0] == g % 256,
            b[1] == (g / 256) % 256,
            b[2] == (g / 65536) % 256,
            b[3] == (g / 16777216) % 256,
            0 <= g < 0x1_0000_0000,
    ;
}

/// The fields of a packet as values.
pub open spec fn packet_view(p: Packet) -> (Seq<u8>, Seq<char>, u32, u8, Seq<u8>) {
    (p.version@, p.username@, p.group_id, p.payload.number, p.payload.body@)
}

/// What reading a packet from `data` gives: too short data is refused, the
/// name field is decoded and stripped of NUL padding, the group id is read
/// little-endian, and the byte after the group id is skipped; the command
/// starts at the byte after that. `decoded_ok` tells whether the body
/// decoded, for a command whose body is decoded outside this crate.
pub open spec fn parse_spec(data: Seq<u8>, decoded_ok: bool) -> Option<
    (Seq<u8>, Seq<char>, u32, u8, Seq<u8>),
> {
    if data.len() < 41 {
        None
    } else {
        let id = data[40];
        let body = data.subrange(41, data.len() as int);
        if known_command(id) && body_well_formed(id, body) && (decoded_outside(id) ==> decoded_ok) {
            Some(
                (
                    data.subrange(0, 3),
                    trim_nuls(decode_name(data.subrange(3, 35))),
                    le_value(data.subrange(35, 39)),
                    id,
                    body,
                ),
            )
        } else {
            None
        }
    }
}

impl Packet {
    /// A packet of the current protocol version, refused when the sender
    /// name does not fit.
    pub fn new(username: &str, group_id: u32, payload: Payload) -> (r: Result<Packet, Failure>)
        ensures
            username_fits(username@) ==> (r matches Ok(p) && p.version@ == NETWORK_VERSION@
                && p.username@ == username@ && p.group_id == group_id && p.payload == payload),
            !username_fits(username@) ==> (r matches Err(f) && f.is(
                FailureType::Warning,
                "username too long"@,
            )),
    {
        match check_parameters(username) {
            Ok(()) => {},
            Err(f) => {
                return Err(f);
            },
        }
        Ok(Packet { version: NETWORK_VERSION, username: String::from_str(username), group_id, payload })
    }

    /// The bytes of the packet, under the current protocol version whatever
    /// the packet's own version field holds; refused when the sender name
    /// does not fit.
    pub fn serialize(&self) -> (r: Result<Vec<u8>, Failure>)
        ensures
            username_fits(self.username@) ==> (r matches Ok(v) && v@ == packet_bytes(
                NETWORK_VERSION@,
                self.username@,
                self.group_id,
                self.payload.number,
                self.payload.body@,
            )),
            !username_fits(self.username@) ==> (r matches Err(f) && f.is(
                FailureType::Warning,
                "username too long"@,
            )),
    {
        match check_parameters(self.username.as_str()) {
            Ok(()) => {},
            Err(f) => {
                return Err(f);
            },
        }
        let mut data: Vec<u8> = Vec::new();
        data.push(NETWORK_VERSION[0]);
        data.push(NETWORK_VERSION[1]);
        data.push(NETWORK_VERSION[2]);
        assert(data@ =~= NETWORK_VERSION@);
        let name = self.username.as_str().as_bytes();
        let ghost head = data@;
        let mut i: usize = 0;
        while i < 32
            invariant
                name@ == encode_utf8(self.username@),
                name@.len() <= 32,
                i <= 32,
                data@ == head + padded_name(self.username@).subrange(0, i as int),
            decreases 32 - i,
        {
            if i < name.len() {
                data.push(name[i]);
            } else {
                data.push(0);
            }
            assert(data@ =~= head + padded_name(self.username@).subrange(0, i + 1));
            i = i + 1;
        }
        assert(padded_name(self.username@).subrange(0, 32) =~= padded_name(self.username@));
        let g = le_bytes_exec(self.group_id);
        data.push(g[0]);
        data.push(g[1]);
        data.push(g[2]);
        data.push(g[3]);
        data.push(self.payload.number);
        data.push(self.payload.number);
        let ghost before_body = data@;
        let mut k: usize = 0;
        while k < self.payload.body.len()
            invariant
                k <= self.payload.body.len(),
                data@ == before_body + self.payload.body@.subrange(0, k as int),
            decreases self.payload.body.len() - k,
        {
            data.push(self.payload.body[k]);
            assert(data@ =~= before_body + self.payload.body@.subrange(0, k + 1));
            k = k + 1;
        }
        assert(data@ =~= packet_bytes(
            NETWORK_VERSION@,
            self.username@,
            self.group_id,
            self.payload.number,
            self.payload.body@,
        ));
        Ok(data)
    }

    /// Read a packet from bytes; see [`parse_spec`]. Data that is too
    /// short, names an unknown command or holds a malformed body is refused
    /// with a warning; `decoded` is the outcome of decoding the body, as
    /// [`parse_command`] takes it.
    pub fn parse(data: &[u8], decoded: &Result<(), String>) -> (r: Result<Packet, Failure>)
        requires
            packet_in_range(data@),
        ensures
            match parse_spec(data@, decoded is Ok) {
                Some(v) => r matches Ok(p) && packet_view(p) == v,
                None => r matches Err(f) && f.kind() == FailureType::Warning,
            },
            data@.len() < 41 ==> (r matches Err(f) && f.is(
                FailureType::Warning,
                "Data too short to be a valid packet"@,
            )),
            data@.len() >= 41 && !known_command(data@[40]) ==> (r matches Err(f) && f.is(
                FailureType::Warning,
                "invalid command"@,
            )),
            data@.len() >= 41 && known_command(data@[40]) && !body_well_formed(
                data@[40],
                data@.subrange(41, data@.len() as int),
            ) ==> (r matches Err(f) && f.is(FailureType::Warning, body_error(data@[40]))),
            data@.len() >= 41 && known_command(data@[40]) && body_well_formed(
                data@[40],
                data@.subrange(41, data@.len() as int),
            ) && decoded_outside(data@[40]) && decoded is Err ==> (r matches Err(f) && f.is(
                FailureType::Warning,
                decode_error(data@[40], decoded->Err_0@),
            )),
    {
        if data.len() < 41 {
            return Err(
                Failure::new(
                    String::from_str("Data too short to be a valid packet"),
                    FailureType::Warning,
                ),
            );
        }
        let version = [data[0], data[1], data[2]];
        let mut name_field: Vec<u8> = Vec::new();
        let mut i: usize = 3;
        while i < 35
            invariant
                3 <= i <= 35,
                data@.len() >= 41,
                name_field@ == data@.subrange(3, i as int),
            decreases 35 - i,
        {
            name_field.push(data[i]);
            assert(name_field@ =~= data@.subrange(3, i + 1));
            i = i + 1;
        }
        let name_text = from_utf8_lossy(name_field.as_slice());
        assert(name_text@ == decode_name(data@.subrange(3, 35)));
        let username = trim_nuls_exec(name_text.as_str());
        let group_id = le_value_exec(data[35], data[36], data[37], data[38]);
        assert(seq![data[35], data[36], data[37], data[38]] =~= data@.subrange(35, 39));
        let mut rest: Vec<u8> = Vec::new();
        let mut k: usize = 40;
        while k < data.len()
            invariant
                40 <= k <= data@.len(),
                rest@ == data@.subrange(40, k as int),
            decreases data@.len() - k,
        {
            rest.push(data[k]);
            assert(rest@ =~= data@.subrange(40, k + 1));
            k = k + 1;
        }
        assert(rest@.subrange(1, rest@.len() as int) =~= data@.subrange(41, data@.len() as int));
        let payload = match parse_command(rest, decoded) {
            Ok(p) => p,
            Err(f) => {
                return Err(f);
            },
        };
        assert(version@ =~= data@.subrange(0, 3));
        Ok(Packet { version, username, group_id, payload })
    }

    pub fn version(&self) -> (v: &[u8; 3])
        ensures
            v@ == self.version@,
    {
        &self.version
    }

    pub fn username(&self) -> (u: &str)
        ensures
            u@ == self.username@,
    {
        self.username.as_str()
    }

    pub fn group_id(&self) -> (g: &u32)
        ensures
            *g == self.group_id,
    {
        &self.group_id
    }

    pub fn payload(&self) -> (p: &Payload)
        ensures
            *p == self.payload,
    {
        &self.payload
    }
}


/// The UTF-8 form of a concatenation is the concatenation of the forms.
proof fn lemma_encode_concat(a: Seq<char>, b: Seq<char>)
    ensures
        encode_utf8(a + b) == encode_utf8(a) + encode_utf8(b),
    decreases a.len(),
{
    if a.len() == 0 {
        assert(a + b =~= b);
        assert(encode_utf8(a) =~= Seq::<u8>::empty());
        assert(encode_utf8(a) + encode_utf8(b) =~= encode_utf8(b));
    } else {
        lemma_encode_concat(a.drop_first(), b);
        assert((a + b).drop_first() =~= a.drop_first() + b);
        assert((a + b)[0] == a[0]);
        assert(encode_utf8(a + b) =~= encode_utf8(a) + encode_utf8(b));
    }
}

/// NUL characters are encoded as zero bytes.
proof fn lemma_encode_nuls(k: nat)
    ensures
        encode_utf8(nuls(k)) == zeros(k),
    decreases k,
{
    if k == 0 {
        assert(nuls(k) =~= Seq::<char>::empty());
        assert(zeros(k) =~= Seq::<u8>::empty());
    } else {
        lemma_encode_nuls((k - 1) as nat);
        assert(nuls(k).drop_first() =~= nuls((k - 1) as nat));
        let z: u32 = '\0' as u32;
        assert(z == 0);
        assert((z & 0x7F) as u8 == 0) by (bit_vector)
            requires
                z == 0,
        ;
        assert(vstd::utf8::encode_scalar(z) =~= seq![0u8]);
        assert(zeros(k) =~= seq![0u8] + zeros((k - 1) as nat));
    }
}

/// A packet whose sender name fits the name field and has no NUL at either
/// end, and whose command is known and well formed, reads back from its
/// bytes as the same packet.
pub proof fn lemma_packet_roundtrip(
    version: Seq<u8>,
    username: Seq<char>,
    group_id: u32,
    number: u8,
    body: Seq<u8>,
)
    requires
        version.len() == 3,
        username_fits(username),
        username.len() == 0 || (username[0] != '\0' && username.last() != '\0'),
        known_command(number),
        body_in_range(number, body),
        body_well_formed(number, body),
    ensures
        packet_in_range(packet_bytes(version, username, group_id, number, body)),
        parse_spec(packet_bytes(version, username, group_id, number, body), true) == Some(
            (version, username, group_id, number, body),
        ),
{
    let bytes = packet_bytes(version, username, group_id, number, body);
    let enc = encode_utf8(username);
    let k = (32 - enc.len()) as nat;
    let name = padded_name(username);
    assert(name.len() == 32);
    assert(bytes.len() == 41 + body.len());
    assert(bytes.subrange(0, 3) =~= version);
    assert(bytes.subrange(3, 35) =~= name);
    assert(bytes.subrange(35, 39) =~= le_bytes(group_id));
    assert(bytes[40] == number);
    assert(bytes.subrange(41, bytes.len() as int) =~= body);
    lemma_le_roundtrip(group_id);
    lemma_encode_nuls(k);
    lemma_encode_concat(username, nuls(k));
    let full = username + nuls(k);
    assert(name == encode_utf8(full));
    vstd::utf8::encode_utf8_valid_utf8(full);
    vstd::utf8::encode_utf8_decode_utf8(full);
    assert(decode_name(name) == full);
    if username.len() == 0 {
        assert(full =~= nuls(k));
        lemma_strip_front(full, full.len() as int);
        assert(full.subrange(full.len() as int, full.len() as int) =~= Seq::<char>::empty());
        assert(strip_back_nuls(Seq::<char>::empty()) == Seq::<char>::empty());
        assert(trim_nuls(full) =~= username);
    } else {
        lemma_strip_front(full, 0);
        assert(full.subrange(0, full.len() as int) =~= full);
        lemma_strip_back(full, username.len() as int);
        assert(full.subrange(0, username.len() as int) =~= username);
    }
}

/// Every command number the protocol defines, 0 to 13, is read back: the
/// bytes written for a packet of the current version whose sender name fits
/// and has no NUL at either end, and whose body is well formed (and decodes,
/// for a body decoded outside this crate), read back as that packet. A
/// number above 13 is refused.
pub proof fn lemma_every_command_reads_back(
    username: Seq<char>,
    group_id: u32,
    number: u8,
    body: Seq<u8>,
)
    requires
        username_fits(username),
        username.len() == 0 || (username[0] != '\0' && username.last() != '\0'),
        body_in_range(number, body),
        body_well_formed(number, body),
    ensures
        number <= 13 ==> parse_spec(
            packet_bytes(NETWORK_VERSION@, username, group_id, number, body),
            true,
        ) == Some((NETWORK_VERSION@, username, group_id, number, body)),
        number > 13 ==> parse_spec(
            packet_bytes(NETWORK_VERSION@, username, group_id, number, body),
            true,
        ) is None,
{
    assert(NETWORK_VERSION@.len() == 3);
    if number <= 13 {
        lemma_packet_roundtrip(NETWORK_VERSION@, username, group_id, number, body);
    } else {
        let bytes = packet_bytes(NETWORK_VERSION@, username, group_id, number, body);
        let enc = encode_utf8(username);
        assert(padded_name(username).len() == 32);
        assert(bytes[40] == number);
    }
}

} // verus!
