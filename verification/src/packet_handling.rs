//! The server's dispatch of a received command to its handler, and the
//! packet that carries an answer back.
use vstd::prelude::*;
use vstd::string::*;

use crate::command_handling::{
    create_outcome, echo_outcome, handle_create_new_group, handle_join_group,
    handle_set_echo_availability, handle_set_online_status, join_outcome, lemma_created_group,
    lemma_echo_flag_follows_request, lemma_join_result, lemma_online_flag_follows_request,
    online_outcome, Request, ServerResponse,
};
use crate::failure::{Failure, FailureType};
use crate::network::{Packet, Payload, NETWORK_VERSION};
use crate::network_command::{
    CreateNewGroup, DefaultCommand, JoinGroup, NetworkFailure, SetEchoAvailability, SetOnlineStatus,
};
use crate::server::{same_registry, Server};

verus! {

/// The name the server signs its packets with.
pub const SERVER_NAME: &'static str = "server";

/// The group the server's packets carry.
pub const SERVER_GROUP: u32 = 0;

impl ServerResponse {
    /// The command number of the answer; the list of online users has none.
    pub open spec fn number_spec(&self) -> Option<u8> {
        match self {
            ServerResponse::Default(_) => Some(0),
            ServerResponse::OnlineUsers(_) => None,
            ServerResponse::GroupInfo(_) => Some(9),
            ServerResponse::Failure(_) => Some(11),
        }
    }

    pub fn number(&self) -> (n: Option<u8>)
        ensures
            n == self.number_spec(),
    {
        match self {
            ServerResponse::Default(_) => Some(0),
            ServerResponse::OnlineUsers(_) => None,
            ServerResponse::GroupInfo(_) => Some(9),
            ServerResponse::Failure(_) => Some(11),
        }
    }
}

/// Wrap an answer into a packet signed by the server; no answer gives no
/// packet, and a failure is passed on.
pub fn create_response_packet(command: Result<Option<Payload>, Failure>) -> (r: Result<
    Option<Packet>,
    Failure,
>)
    ensures
        match command {
            Err(f) => r == Err::<Option<Packet>, Failure>(f),
            Ok(None) => r == Ok::<Option<Packet>, Failure>(None),
            Ok(Some(p)) => r matches Ok(Some(pk)) && pk.version@ == NETWORK_VERSION@
                && pk.username@ == SERVER_NAME@ && pk.group_id == SERVER_GROUP && pk.payload == p,
        },
{
    match command {
        Err(f) => Err(f),
        Ok(None) => Ok(None),
        Ok(Some(payload)) => Ok(
            Some(
                Packet {
                    version: NETWORK_VERSION,
                    username: String::from_str(SERVER_NAME),
                    group_id: SERVER_GROUP,
                    payload,
                },
            ),
        ),
    }
}

/// What handling a command of the given number gives: the default command
/// is answered in kind; setting the echo or online flag, creating a group
/// and joining one go to their handlers; any other number is refused.
pub open spec fn packet_outcome(
    before: Server,
    after: Server,
    request: &Request,
    uid: u64,
    r: Result<Option<ServerResponse>, Failure>,
) -> bool {
    let n = request.number_spec();
    if n == 0 {
        &&& r matches Ok(Some(ServerResponse::Default(_)))
        &&& same_registry(before, after)
    } else if n == 6 {
        echo_outcome(before, after, request, uid, r)
    } else if n == 7 {
        online_outcome(before, after, request, uid, r)
    } else if n == 8 {
        create_outcome(before, after, request, uid, r)
    } else if n == 10 {
        join_outcome(before, after, request, uid, r)
    } else {
        &&& r matches Err(f) && f.is(
            FailureType::Warning,
            "packet handling error: command not found"@,
        )
        &&& same_registry(before, after)
    }
}

/// Hand a command from the user `user_id` to the handler for its number.
/// A consistent registry stays consistent, unless a new group takes an id
/// that is already in use.
pub fn handle_packet(server: &mut Server, request: &Request, user_id: &u64) -> (r: Result<
    Option<ServerResponse>,
    Failure,
>)
    requires
        request is CreateNewGroup ==> old(server).user_map().contains_key(*user_id),
    ensures
        packet_outcome(*old(server), *final(server), request, *user_id, r),
        old(server).wf() && !(request.number_spec() == 8 && old(server).group_map().contains_key(
            old(server).next_group_id,
        )) ==> final(server).wf(),
{
    let n = request.number();
    if n == 0 {
        Ok(Some(ServerResponse::Default(DefaultCommand {})))
    } else if n == 6 {
        handle_set_echo_availability(server, request, user_id)
    } else if n == 7 {
        handle_set_online_status(server, request, user_id)
    } else if n == 8 {
        handle_create_new_group(server, request, user_id)
    } else if n == 10 {
        handle_join_group(server, request, user_id)
    } else {
        Err(
            Failure::new(
                String::from_str("packet handling error: command not found"),
                FailureType::Warning,
            ),
        )
    }
}

/// The default command is answered with the default command, and nothing
/// changes.
pub proof fn lemma_dispatch_default(
    before: Server,
    after: Server,
    uid: u64,
    r: Result<Option<ServerResponse>, Failure>,
)
    requires
        packet_outcome(before, after, &Request::Default(DefaultCommand {}), uid, r),
    ensures
        r matches Ok(Some(ServerResponse::Default(_))),
        same_registry(before, after),
{
}

/// A join handed to the dispatcher, for an existing open group and a
/// registered sender, makes the sender a member under its name, keeps the
/// host, records the group as the sender's, and is answered with the
/// group's description; a join for a missing or closed group is refused,
/// never answered as an unknown command.
pub proof fn lemma_dispatch_join(
    before: Server,
    after: Server,
    c: JoinGroup,
    uid: u64,
    r: Result<Option<ServerResponse>, Failure>,
)
    requires
        packet_outcome(before, after, &Request::JoinGroup(c), uid, r),
    ensures
        !before.group_map().contains_key(c.group_id) || !before.group_map()[c.group_id].open
            ==> r matches Ok(Some(ServerResponse::Failure(NetworkFailure::JoinGroup(_)))),
        before.group_map().contains_key(c.group_id) && before.group_map()[c.group_id].open
            && before.user_map().contains_key(uid) ==> ({
            let g = before.group_map()[c.group_id];
            &&& r matches Ok(Some(ServerResponse::GroupInfo(info))) && info.users@.contains_key(uid)
                && info.host == g.host && info.id == g.id
            &&& after.group_map()[c.group_id].users@.contains_key(uid)
            &&& after.group_map()[c.group_id].host == g.host
            &&& after.user_map()[uid]@.group_info == Some((g.id, g.group_name@))
        }),
{
    assert(Request::JoinGroup(c).number_spec() == 10);
    lemma_join_result(before, after, c, uid, r);
}

/// Asking the dispatcher to show a registered user as online or not sets
/// its flag and listing to exactly what was asked.
pub proof fn lemma_dispatch_online(
    before: Server,
    after: Server,
    b: bool,
    uid: u64,
    r: Result<Option<ServerResponse>, Failure>,
)
    requires
        packet_outcome(before, after, &Request::SetOnlineStatus(SetOnlineStatus(b)), uid, r),
        before.user_map().contains_key(uid),
    ensures
        r matches Ok(None),
        after.user_map()[uid]@.show_online == b,
        after.online_set().contains(uid) == b,
{
    lemma_online_flag_follows_request(before, after, b, uid, r);
}

/// Telling the dispatcher whether a registered user is open to echo sets
/// its flag and listing to exactly what was told.
pub proof fn lemma_dispatch_echo(
    before: Server,
    after: Server,
    b: bool,
    uid: u64,
    r: Result<Option<ServerResponse>, Failure>,
)
    requires
        packet_outcome(before, after, &Request::SetEchoAvailability(SetEchoAvailability(b)), uid, r),
        before.user_map().contains_key(uid),
    ensures
        r matches Ok(None),
        after.user_map()[uid]@.open_to_echo == b,
        after.open_user_set().contains(uid) == b,
{
    lemma_echo_flag_follows_request(before, after, b, uid, r);
}

/// A group creation handed to the dispatcher by a registered user creates
/// the group under the next id, hosted by the sender as its only member,
/// and answers with its description.
pub proof fn lemma_dispatch_create(
    before: Server,
    after: Server,
    c: CreateNewGroup,
    uid: u64,
    r: Result<Option<ServerResponse>, Failure>,
)
    requires
        packet_outcome(before, after, &Request::CreateNewGroup(c), uid, r),
        before.user_map().contains_key(uid),
    ensures
        r matches Ok(Some(ServerResponse::GroupInfo(info))) && info.id == before.next_group_id
            && info.host == uid && info.users@.dom() == set![uid],
        after.group_map().contains_key(before.next_group_id),
        after.group_map()[before.next_group_id].host == uid,
        after.group_map()[before.next_group_id].users@.dom() == set![uid],
{
    lemma_created_group(before, after, c, uid, r);
}

} // verus!
