//! The commands that travel in packets: their numbers, the byte formats of
//! those whose format this crate defines, and the data of the others.
use vstd::prelude::*;
use vstd::string::*;

use std::collections::BTreeMap;

use crate::failure::{Failure, FailureType};
use crate::text::{decimal, decimal_spec};

verus! {

/// The number that identifies a kind of command on the wire.
pub trait NetworkCommandID {
    const ID: u8;
}

/// Whether a command asks for an answer or only informs.
#[derive(Debug, Clone, Copy, PartialEq, Eq, Structural)]
pub enum QueryOrNotify {
    Query,
    Notify,
}

/// A command whose byte format is defined here.
pub trait NetworkCommand: Sized {
    /// The command number.
    spec fn id_spec() -> u8;

    /// The bytes of the command's body.
    spec fn encoding(&self) -> Seq<u8>;

    /// Parsing `data` does not index out of range.
    spec fn parse_requires(data: Seq<u8>) -> bool;

    /// The command that `data` holds, or `None` when `data` is malformed.
    spec fn decoding(data: Seq<u8>) -> Option<Self>;

    /// The text of the warning for a malformed body.
    spec fn parse_error() -> Seq<char>;

    /// Whether the command asks for an answer.
    spec fn kind_spec(&self) -> QueryOrNotify;

    fn number(&self) -> (n: u8)
        ensures
            n == Self::id_spec(),
    ;

    fn serialize(&self) -> (r: Result<Vec<u8>, Failure>)
        ensures
            r matches Ok(v) && v@ == self.encoding(),
    ;

    fn parse(data: Vec<u8>) -> (r: Result<Self, Failure>)
        requires
            Self::parse_requires(data@),
        ensures
            match Self::decoding(data@) {
                Some(c) => r == Ok::<Self, Failure>(c),
                None => r matches Err(f) && f.is(FailureType::Warning, Self::parse_error()),
            },
    ;

    fn query_or_notify(&self) -> (q: QueryOrNotify)
        ensures
            q == self.kind_spec(),
    ;
}

/// The body of a command that carries nothing.
#[derive(Debug, Clone, Copy, PartialEq, Eq, Structural)]
pub struct DefaultCommand {}

/// Sent by a client to say whether it is open to echo.
#[derive(Debug, Clone, Copy, PartialEq, Eq, Structural)]
pub struct SetEchoAvailability(pub bool);

/// Sent by a client to say whether it shows as online.
#[derive(Debug, Clone, Copy, PartialEq, Eq, Structural)]
pub struct SetOnlineStatus(pub bool);

/// Data a client sends in its first packet.
#[derive(Debug, Clone, Copy, PartialEq, Eq, Structural)]
pub struct UserData {
    pub echo_avaliable: bool,
}

/// Asks the server for the users, optionally only those (not) open to echo.
#[derive(Debug, Clone, Copy, PartialEq, Eq, Structural)]
pub struct FetchUsers {
    pub open_to_echo: Option<bool>,
}

/// Asks the server for the groups, optionally only those (not) open.
#[derive(Debug, Clone, Copy, PartialEq, Eq, Structural)]
pub struct FetchGroups {
    pub open: Option<bool>,
}

/// Asks the server for the groups that are visible.
#[derive(Debug, Clone, Copy, PartialEq, Eq, Structural)]
pub struct GetVisibleGroups {}

/// Asks the server to put the sender into a group.
#[derive(Debug, Clone, Copy, PartialEq, Eq, Structural)]
pub struct JoinGroup {
    pub group_id: u32,
}

/// Asks the server to create a group hosted by the sender.
#[derive(Debug, Clone)]
pub struct CreateNewGroup {
    pub group_name: String,
    pub open: bool,
    pub visible: bool,
    pub invited_users: Vec<u64>,
}

/// A group as the server describes it; `users` maps member ids to their
/// usernames.
#[derive(Debug, Clone)]
pub struct GroupInfo {
    pub id: u32,
    pub name: String,
    pub visible: bool,
    pub open: bool,
    pub users: BTreeMap<u64, String>,
    pub host: u64,
}

/// A refusal sent by the server.
#[derive(Debug, Clone)]
pub enum NetworkFailure {
    InvalidCommandId(u8),
    JoinGroup(String),
}

/// A filter on users.
#[derive(Debug, Clone, Copy, PartialEq, Eq, Structural)]
pub struct UserFilter {
    pub open_to_echo: bool,
}

/// A filter on groups.
#[derive(Debug, Clone, Copy, PartialEq, Eq, Structural)]
pub struct GroupFilter {
    pub open: bool,
}

/// A request for users or groups that pass a filter.
#[derive(Debug, Clone, Copy, PartialEq, Eq, Structural)]
pub enum Fetch {
    Users(UserFilter),
    Groups(GroupFilter),
}

impl NetworkCommandID for DefaultCommand {
    const ID: u8 = 0;
}

impl NetworkCommandID for UserData {
    const ID: u8 = 4;
}

impl NetworkCommandID for FetchUsers {
    const ID: u8 = 5;
}

impl NetworkCommandID for SetEchoAvailability {
    const ID: u8 = 6;
}

impl NetworkCommandID for SetOnlineStatus {
    const ID: u8 = 7;
}

impl NetworkCommandID for CreateNewGroup {
    const ID: u8 = 8;
}

impl NetworkCommandID for GroupInfo {
    const ID: u8 = 9;
}

impl NetworkCommandID for JoinGroup {
    const ID: u8 = 10;
}

impl NetworkCommandID for NetworkFailure {
    const ID: u8 = 11;
}

impl NetworkCommandID for FetchGroups {
    const ID: u8 = 12;
}


/// The byte that stands for an optional flag: 0 for none, 1 for false,
/// 2 for true.
pub open spec fn option_flag(o: Option<bool>) -> u8 {
    match o {
        Some(b) => if b {
            2
        } else {
            1
        },
        None => 0,
    }
}

/// The optional flag a byte stands for, or `None` for a byte above 2.
pub open spec fn flag_option(b: u8) -> Option<Option<bool>> {
    if b == 0 {
        Some(None)
    } else if b == 1 {
        Some(Some(false))
    } else if b == 2 {
        Some(Some(true))
    } else {
        None
    }
}

fn encode_option_flag(o: Option<bool>) -> (b: u8)
    ensures
        b == option_flag(o),
{
    match o {
        Some(open) => if open {
            2
        } else {
            1
        },
        None => 0,
    }
}

fn decode_option_flag(b: u8) -> (r: Result<Option<bool>, Failure>)
    ensures
        match flag_option(b) {
            Some(o) => r == Ok::<Option<bool>, Failure>(o),
            None => r matches Err(f) && f.is(
                FailureType::Warning,
                "Failed to parse FetchUsers: Invalid open_to_echo value"@,
            ),
        },
{
    if b == 0 {
        Ok(None)
    } else if b == 1 {
        Ok(Some(false))
    } else if b == 2 {
        Ok(Some(true))
    } else {
        Err(
            Failure::new(
                String::from_str("Failed to parse FetchUsers: Invalid open_to_echo value"),
                FailureType::Warning,
            ),
        )
    }
}

impl NetworkCommand for FetchUsers {
    open spec fn id_spec() -> u8 {
        5
    }

    open spec fn encoding(&self) -> Seq<u8> {
        seq![option_flag(self.open_to_echo)]
    }

    open spec fn parse_requires(data: Seq<u8>) -> bool {
        data.len() >= 1
    }

    open spec fn decoding(data: Seq<u8>) -> Option<Self> {
        match flag_option(data[0]) {
            Some(o) => Some(FetchUsers { open_to_echo: o }),
            None => None,
        }
    }

    open spec fn parse_error() -> Seq<char> {
        "Failed to parse FetchUsers: Invalid open_to_echo value"@
    }

    open spec fn kind_spec(&self) -> QueryOrNotify {
        QueryOrNotify::Query
    }

    fn number(&self) -> (n: u8) {
        Self::ID
    }

    fn serialize(&self) -> (r: Result<Vec<u8>, Failure>) {
        let v = vec![encode_option_flag(self.open_to_echo)];
        assert(v@ =~= self.encoding());
        Ok(v)
    }

    fn parse(data: Vec<u8>) -> (r: Result<Self, Failure>) {
        match decode_option_flag(data[0]) {
            Ok(o) => Ok(FetchUsers { open_to_echo: o }),
            Err(f) => Err(f),
        }
    }

    fn query_or_notify(&self) -> (q: QueryOrNotify) {
        QueryOrNotify::Query
    }
}

impl NetworkCommand for FetchGroups {
    open spec fn id_spec() -> u8 {
        12
    }

    open spec fn encoding(&self) -> Seq<u8> {
        seq![option_flag(self.open)]
    }

    open spec fn parse_requires(data: Seq<u8>) -> bool {
        data.len() >= 1
    }

    open spec fn decoding(data: Seq<u8>) -> Option<Self> {
        match flag_option(data[0]) {
            Some(o) => Some(FetchGroups { open: o }),
            None => None,
        }
    }

    /// The group fetch reports a malformed body in the words of the user
    /// fetch.
    open spec fn parse_error() -> Seq<char> {
        "Failed to parse FetchUsers: Invalid open_to_echo value"@
    }

    open spec fn kind_spec(&self) -> QueryOrNotify {
        QueryOrNotify::Query
    }

    fn number(&self) -> (n: u8) {
        Self::ID
    }

    fn serialize(&self) -> (r: Result<Vec<u8>, Failure>) {
        let v = vec![encode_option_flag(self.open)];
        assert(v@ =~= self.encoding());
        Ok(v)
    }

    fn parse(data: Vec<u8>) -> (r: Result<Self, Failure>) {
        match decode_option_flag(data[0]) {
            Ok(o) => Ok(FetchGroups { open: o }),
            Err(f) => Err(f),
        }
    }

    fn query_or_notify(&self) -> (q: QueryOrNotify) {
        QueryOrNotify::Query
    }
}

impl NetworkCommand for UserData {
    open spec fn id_spec() -> u8 {
        4
    }

    open spec fn encoding(&self) -> Seq<u8> {
        seq![
            if self.echo_avaliable {
                1u8
            } else {
                0u8
            },
        ]
    }

    /// The flag is read from the second byte.
    open spec fn parse_requires(data: Seq<u8>) -> bool {
        data.len() >= 2
    }

    open spec fn decoding(data: Seq<u8>) -> Option<Self> {
        if data[1] == 0 {
            Some(UserData { echo_avaliable: false })
        } else if data[1] == 1 {
            Some(UserData { echo_avaliable: true })
        } else {
            None
        }
    }

    open spec fn parse_error() -> Seq<char> {
        "invalid value for UserData"@
    }

    open spec fn kind_spec(&self) -> QueryOrNotify {
        QueryOrNotify::Notify
    }

    fn number(&self) -> (n: u8) {
        Self::ID
    }

    fn serialize(&self) -> (r: Result<Vec<u8>, Failure>) {
        let b: u8 = if self.echo_avaliable {
            1
        } else {
            0
        };
        let v = vec![b];
        assert(v@ =~= self.encoding());
        Ok(v)
    }

    fn parse(data: Vec<u8>) -> (r: Result<Self, Failure>) {
        let echo_avaliable = if data[1] == 0 {
            false
        } else if data[1] == 1 {
            true
        } else {
            return Err(
                Failure::new(String::from_str("invalid value for UserData"), FailureType::Warning),
            );
        };
        Ok(UserData { echo_avaliable })
    }

    fn query_or_notify(&self) -> (q: QueryOrNotify) {
        QueryOrNotify::Notify
    }
}

impl GetVisibleGroups {
    /// The body is empty.
    pub fn serialize(&self) -> (r: Result<Vec<u8>, Failure>)
        ensures
            r matches Ok(v) && v@.len() == 0,
    {
        Ok(Vec::new())
    }

    /// Any body stands for the request.
    pub fn parse(_data: Vec<u8>) -> (r: Result<GetVisibleGroups, Failure>)
        ensures
            r == Ok::<GetVisibleGroups, Failure>(GetVisibleGroups {}),
    {
        Ok(GetVisibleGroups {})
    }

    pub fn query_or_notify(&self) -> (q: QueryOrNotify)
        ensures
            q == QueryOrNotify::Query,
    {
        QueryOrNotify::Query
    }
}

impl JoinGroup {
    pub fn number(&self) -> (n: u8)
        ensures
            n == 10,
    {
        Self::ID
    }

    pub fn query_or_notify(&self) -> (q: QueryOrNotify)
        ensures
            q == QueryOrNotify::Query,
    {
        QueryOrNotify::Query
    }
}

impl CreateNewGroup {
    pub fn number(&self) -> (n: u8)
        ensures
            n == 8,
    {
        Self::ID
    }

    pub fn query_or_notify(&self) -> (q: QueryOrNotify)
        ensures
            q == QueryOrNotify::Query,
    {
        QueryOrNotify::Query
    }
}

impl GroupInfo {
    pub fn number(&self) -> (n: u8)
        ensures
            n == 9,
    {
        Self::ID
    }

    pub fn query_or_notify(&self) -> (q: QueryOrNotify)
        ensures
            q == QueryOrNotify::Notify,
    {
        QueryOrNotify::Notify
    }
}

/// The text that `{:?}` gives for a string: the string in double quotes,
/// with the characters that need it escaped.
pub uninterp spec fn debug_quoted(s: Seq<char>) -> Seq<char>;

/// Formats `s` with `{:?}`; what comes out is named by `debug_quoted`.
#[verifier::external_body]
fn debug_str(s: &str) -> (r: String)
    ensures
        r@ == debug_quoted(s@),
{
    format!("{:?}", s)
}

/// The text that reports a refusal: its name and its content as pretty
/// debug output prints them.
pub open spec fn failure_text(f: NetworkFailure) -> Seq<char> {
    "NetworkFailure: "@ + match f {
        NetworkFailure::InvalidCommandId(n) => "InvalidCommandId(\n    "@ + decimal_spec(n as nat)
            + ",\n)"@,
        NetworkFailure::JoinGroup(s) => "JoinGroup(\n    "@ + debug_quoted(s@) + ",\n)"@,
    }
}

impl NetworkFailure {
    /// The text that reports the refusal.
    pub fn describe(&self) -> (s: String)
        ensures
            s@ == failure_text(*self),
    {
        let mut s = String::from_str("NetworkFailure: ");
        match self {
            NetworkFailure::InvalidCommandId(n) => {
                s.append("InvalidCommandId(\n    ");
                s.append(decimal(*n as u64).as_str());
                s.append(",\n)");
            },
            NetworkFailure::JoinGroup(t) => {
                s.append("JoinGroup(\n    ");
                s.append(debug_str(t.as_str()).as_str());
                s.append(",\n)");
            },
        }
        s
    }

    pub fn number(&self) -> (n: u8)
        ensures
            n == 11,
    {
        Self::ID
    }

    pub fn query_or_notify(&self) -> (q: QueryOrNotify)
        ensures
            q == QueryOrNotify::Notify,
    {
        QueryOrNotify::Notify
    }
}

impl Fetch {
    pub fn query_or_notify(&self) -> (q: QueryOrNotify)
        ensures
            q == QueryOrNotify::Notify,
    {
        QueryOrNotify::Notify
    }
}

/// A command's number followed by its body, as it is sent over the network.
pub fn serialize<C: NetworkCommand>(boxed_cmd: &C) -> (r: Result<Vec<u8>, Failure>)
    ensures
        r matches Ok(v) && v@ == seq![C::id_spec()] + boxed_cmd.encoding(),
{
    let mut data = vec![boxed_cmd.number()];
    let mut body = match boxed_cmd.serialize() {
        Ok(b) => b,
        Err(f) => {
            return Err(f);
        },
    };
    data.append(&mut body);
    Ok(data)
}

/// A command of a format defined here reads back as itself.
pub proof fn lemma_fetch_users_roundtrip(c: FetchUsers)
    ensures
        FetchUsers::parse_requires(c.encoding()),
        FetchUsers::decoding(c.encoding()) == Some(c),
{
}

/// A group fetch reads back as itself.
pub proof fn lemma_fetch_groups_roundtrip(c: FetchGroups)
    ensures
        FetchGroups::parse_requires(c.encoding()),
        FetchGroups::decoding(c.encoding()) == Some(c),
{
}


/// What the server tells about an online user.
#[derive(Debug, Clone)]
pub struct UserInfo {
    pub user_id: u64,
    pub open_to_echo: bool,
    pub group_info: Option<(u32, String)>,
}

/// An optional group id and name, with the name as characters.
pub open spec fn group_info_view(o: Option<(u32, String)>) -> Option<(u32, Seq<char>)> {
    match o {
        Some((id, name)) => Some((id, name@)),
        None => None,
    }
}

/// The users shown as online, each with its name.
#[derive(Debug, Clone)]
pub struct OnlineUsers {
    pub users: Vec<(String, UserInfo)>,
}

/// The groups that are visible, each with its name.
#[derive(Debug, Clone)]
pub struct VisibleGroups {
    pub groups: Vec<(String, GroupInfo)>,
}

/// An invitation to a group, from the user named `invite_from`.
#[derive(Debug, Clone)]
pub struct GroupInvitation {
    pub group_id: u32,
    pub group_name: String,
    pub invite_from: String,
}

/// The answer to a fetch: users or groups by name.
#[derive(Debug, Clone)]
pub enum FetchResponse {
    Users(Vec<(String, UserInfo)>),
    Groups(Vec<(String, GroupInfo)>),
}

/// The bytes after the first of a listing's body; a warning with `text`
/// when the body has fewer than two bytes.
fn listing_bytes(data: &Vec<u8>, text: &str) -> (r: Result<Vec<u8>, Failure>)
    ensures
        data.len() < 2 ==> (r matches Err(f) && f.is(FailureType::Warning, text@)),
        data.len() >= 2 ==> (r matches Ok(v) && v@ == data@.subrange(1, data.len() as int)),
{
    if data.len() < 2 {
        return Err(Failure::new(String::from_str(text), FailureType::Warning));
    }
    let mut v: Vec<u8> = Vec::new();
    let mut i: usize = 1;
    while i < data.len()
        invariant
            1 <= i <= data.len(),
            v@ == data@.subrange(1, i as int),
        decreases data.len() - i,
    {
        v.push(data[i]);
        assert(v@ =~= data@.subrange(1, i + 1));
        i = i + 1;
    }
    Ok(v)
}

/// No name occurs twice among the entries.
pub open spec fn distinct_names<T>(v: Seq<(String, T)>) -> bool {
    forall|a: int, b: int| 0 <= a < b < v.len() ==> v[a].0@ != v[b].0@
}

impl OnlineUsers {
    /// Each user is listed under its name once.
    pub open spec fn wf(&self) -> bool {
        distinct_names(self.users@)
    }

    /// The bytes that encode the users: all after the first; a warning
    /// when there are fewer than two.
    pub fn listing(data: &Vec<u8>) -> (r: Result<Vec<u8>, Failure>)
        ensures
            data.len() < 2 ==> (r matches Err(f) && f.is(
                FailureType::Warning,
                "OnlineUsers Parsing Error: No Online Users"@,
            )),
            data.len() >= 2 ==> (r matches Ok(v) && v@ == data@.subrange(1, data.len() as int)),
    {
        listing_bytes(data, "OnlineUsers Parsing Error: No Online Users")
    }

    pub fn query_or_notify(&self) -> (q: QueryOrNotify)
        ensures
            q == QueryOrNotify::Query,
    {
        QueryOrNotify::Query
    }
}

impl VisibleGroups {
    /// Each group is listed under its name once.
    pub open spec fn wf(&self) -> bool {
        distinct_names(self.groups@)
    }

    /// Sent under the number of a group description.
    pub fn number(&self) -> (n: u8)
        ensures
            n == 9,
    {
        GroupInfo::ID
    }

    /// The bytes that encode the groups: all after the first; a warning
    /// when there are fewer than two.
    pub fn listing(data: &Vec<u8>) -> (r: Result<Vec<u8>, Failure>)
        ensures
            data.len() < 2 ==> (r matches Err(f) && f.is(
                FailureType::Warning,
                "VisibleGroups Parsing Error: No Visible Groups"@,
            )),
            data.len() >= 2 ==> (r matches Ok(v) && v@ == data@.subrange(1, data.len() as int)),
    {
        listing_bytes(data, "VisibleGroups Parsing Error: No Visible Groups")
    }

    pub fn query_or_notify(&self) -> (q: QueryOrNotify)
        ensures
            q == QueryOrNotify::Query,
    {
        QueryOrNotify::Query
    }
}

impl GroupInvitation {
    pub fn query_or_notify(&self) -> (q: QueryOrNotify)
        ensures
            q == QueryOrNotify::Query,
    {
        QueryOrNotify::Query
    }
}

impl FetchResponse {
    /// Each user or group is listed under its name once.
    pub open spec fn wf(&self) -> bool {
        match self {
            FetchResponse::Users(v) => distinct_names(v@),
            FetchResponse::Groups(v) => distinct_names(v@),
        }
    }

    pub fn query_or_notify(&self) -> (q: QueryOrNotify)
        ensures
            q == QueryOrNotify::Notify,
    {
        QueryOrNotify::Notify
    }
}

} // verus!
