//! What the server does with each command a client sends.
use vstd::prelude::*;
use vstd::string::*;
use std::collections::BTreeMap;

use crate::failure::{Failure, FailureType};
use crate::group::Group;
use crate::network_command::{
    distinct_names, group_info_view, CreateNewGroup, DefaultCommand, FetchGroups, FetchUsers, GroupInfo,
    JoinGroup, NetworkFailure, SetEchoAvailability, SetOnlineStatus, UserInfo,
};
use crate::network_group::add_group;
use crate::registry::{
    group_table_get, group_table_insert, user_id_set_insert, user_id_set_members,
    user_id_set_remove, user_table_get, user_table_insert,
};
use crate::server::{same_registry, user_updated, Server};
use crate::text::{decimal, decimal_spec};

verus! {

/// A command received by the server, decoded.
#[derive(Debug, Clone)]
pub enum Request {
    Default(DefaultCommand),
    FetchUsers(FetchUsers),
    FetchGroups(FetchGroups),
    SetEchoAvailability(SetEchoAvailability),
    SetOnlineStatus(SetOnlineStatus),
    CreateNewGroup(CreateNewGroup),
    JoinGroup(JoinGroup),
    /// A command of another number.
    Other(u8),
}

/// An answer of the server.
#[derive(Debug, Clone)]
pub enum ServerResponse {
    Default(DefaultCommand),
    /// The users shown as online: each name with what is told of the user.
    OnlineUsers(Vec<(String, UserInfo)>),
    GroupInfo(GroupInfo),
    Failure(NetworkFailure),
}

impl Request {
    /// The command number of the request.
    pub open spec fn number_spec(&self) -> u8 {
        match self {
            Request::Default(_) => 0,
            Request::FetchUsers(_) => 5,
            Request::FetchGroups(_) => 12,
            Request::SetEchoAvailability(_) => 6,
            Request::SetOnlineStatus(_) => 7,
            Request::CreateNewGroup(_) => 8,
            Request::JoinGroup(_) => 10,
            Request::Other(n) => *n,
        }
    }

    pub fn number(&self) -> (n: u8)
        ensures
            n == self.number_spec(),
    {
        match self {
            Request::Default(_) => 0,
            Request::FetchUsers(_) => 5,
            Request::FetchGroups(_) => 12,
            Request::SetEchoAvailability(_) => 6,
            Request::SetOnlineStatus(_) => 7,
            Request::CreateNewGroup(_) => 8,
            Request::JoinGroup(_) => 10,
            Request::Other(n) => *n,
        }
    }
}

/// The echo flag request, or a warning when the request is another one.
pub fn try_get_set_echo_availability(item: &Request) -> (r: Result<SetEchoAvailability, Failure>)
    ensures
        match item {
            Request::SetEchoAvailability(c) => r == Ok::<SetEchoAvailability, Failure>(*c),
            _ => r matches Err(f) && f.is(
                FailureType::Warning,
                "failed to read SetEchoAvailability from Box"@,
            ),
        },
{
    match item {
        Request::SetEchoAvailability(c) => Ok(*c),
        _ => Err(
            Failure::new(
                String::from_str("failed to read SetEchoAvailability from Box"),
                FailureType::Warning,
            ),
        ),
    }
}

/// The online flag request, or a warning when the request is another one.
pub fn try_get_set_online_status(item: &Request) -> (r: Result<SetOnlineStatus, Failure>)
    ensures
        match item {
            Request::SetOnlineStatus(c) => r == Ok::<SetOnlineStatus, Failure>(*c),
            _ => r matches Err(f) && f.is(
                FailureType::Warning,
                "failed to read SetOnlineStatus from Box"@,
            ),
        },
{
    match item {
        Request::SetOnlineStatus(c) => Ok(*c),
        _ => Err(
            Failure::new(
                String::from_str("failed to read SetOnlineStatus from Box"),
                FailureType::Warning,
            ),
        ),
    }
}

/// The group creation request, or a warning when the request is another
/// one.
pub fn try_get_create_new_group(item: &Request) -> (r: Result<CreateNewGroup, Failure>)
    ensures
        match item {
            Request::CreateNewGroup(c) => r matches Ok(d) && d.group_name@ == c.group_name@
                && d.open == c.open && d.visible == c.visible && d.invited_users@
                == c.invited_users@,
            _ => r matches Err(f) && f.is(
                FailureType::Warning,
                "failed to read CreateNewGroup from Box"@,
            ),
        },
{
    match item {
        Request::CreateNewGroup(c) => Ok(
            CreateNewGroup {
                group_name: c.group_name.clone(),
                open: c.open,
                visible: c.visible,
                invited_users: c.invited_users.clone(),
            },
        ),
        _ => Err(
            Failure::new(
                String::from_str("failed to read CreateNewGroup from Box"),
                FailureType::Warning,
            ),
        ),
    }
}

/// The join request, or a warning when the request is another one.
pub fn try_get_join_group(item: &Request) -> (r: Result<JoinGroup, Failure>)
    ensures
        match item {
            Request::JoinGroup(c) => r == Ok::<JoinGroup, Failure>(*c),
            _ => r matches Err(f) && f.is(
                FailureType::Warning,
                "failed to read JoinGroup from Box"@,
            ),
        },
{
    match item {
        Request::JoinGroup(c) => Ok(*c),
        _ => Err(
            Failure::new(String::from_str("failed to read JoinGroup from Box"), FailureType::Warning),
        ),
    }
}

/// Entry `e` describes the registered user stored under `id`.
pub open spec fn describes(server: Server, id: u64, e: (String, UserInfo)) -> bool {
    &&& server.user_map().contains_key(id)
    &&& e.0@ == server.user_map()[id]@.username
    &&& e.1.user_id == server.user_map()[id]@.id
    &&& e.1.open_to_echo == server.user_map()[id]@.open_to_echo
    &&& group_info_view(e.1.group_info) == server.user_map()[id]@.visible_group()
}

/// Each entry describes a registered user on the online list: the `k`-th
/// one the user `ids[k]`, for some sequence of ids.
pub open spec fn all_described(server: Server, v: Seq<(String, UserInfo)>) -> bool {
    exists|ids: Seq<u64>|
        #![trigger ids.len()]
        ids.len() == v.len() && forall|k: int|
            0 <= k < v.len() ==> server.online_set().contains(#[trigger] ids[k]) && describes(
                server,
                ids[k],
                v[k],
            )
}

/// Put `e` into `out`: in place of the entry of the same name when there is
/// one, else at the end; the position it took is returned.
fn put_entry(out: &mut Vec<(String, UserInfo)>, e: (String, UserInfo)) -> (k: usize)
    requires
        distinct_names(old(out)@),
    ensures
        distinct_names(final(out)@),
        k < final(out)@.len(),
        final(out)@[k as int] == e,
        k < old(out)@.len() ==> final(out)@.len() == old(out)@.len() && old(out)@[k as int].0@
            == e.0@,
        k >= old(out)@.len() ==> k == old(out)@.len() && final(out)@.len() == old(out)@.len() + 1,
        forall|t: int|
            0 <= t < old(out)@.len() && t != k ==> #[trigger] final(out)@[t] == old(out)@[t],
{
    let ghost before = out@;
    let mut k: usize = 0;
    while k < out.len()
        invariant_except_break
            k <= out@.len(),
            forall|t: int| 0 <= t < k ==> out@[t].0@ != e.0@,
        invariant
            out@ == before,
        ensures
            k < out@.len() ==> out@[k as int].0@ == e.0@,
            k >= out@.len() ==> k == out@.len() && forall|t: int|
                0 <= t < out@.len() ==> out@[t].0@ != e.0@,
        decreases out@.len() - k,
    {
        if out[k].0 == e.0 {
            break;
        }
        k = k + 1;
    }
    if k < out.len() {
        out.set(k, e);
        assert forall|a: int, b: int| 0 <= a < b < out@.len() implies out@[a].0@ != out@[b].0@ by {
            assert(before[a].0@ != before[b].0@);
        }
    } else {
        out.push(e);
        assert forall|a: int, b: int| 0 <= a < b < out@.len() implies out@[a].0@ != out@[b].0@ by {
            if b < before.len() {
                assert(before[a].0@ != before[b].0@);
            }
        }
    }
    k
}

/// The users shown as online, by name: every registered user on the online
/// list has its name in the answer, and each entry describes a registered
/// user on the online list with that name. Where two such users share a
/// name, the answer describes one of them, which one depending on the order
/// in which the online list is walked.
pub fn handle_get_online_users(server: &Server) -> (r: Result<Option<ServerResponse>, Failure>)
    ensures
        r matches Ok(Some(ServerResponse::OnlineUsers(v))) && {
            &&& distinct_names(v@)
            &&& all_described(*server, v@)
            &&& forall|id: u64|
                server.online_set().contains(id) && server.user_map().contains_key(id)
                    ==> exists|k: int|
                    0 <= k < v.len() && #[trigger] v@[k].0@ == server.user_map()[id]@.username
        },
{
    let members = user_id_set_members(&server.online_users);
    let mut out: Vec<(String, UserInfo)> = Vec::new();
    let ghost mut ids: Seq<u64> = Seq::empty();
    let mut i: usize = 0;
    while i < members.len()
        invariant
            i <= members.len(),
            members@.to_set() == server.online_set(),
            distinct_names(out@),
            ids.len() == out@.len(),
            forall|k: int|
                0 <= k < out@.len() ==> server.online_set().contains(#[trigger] ids[k]) && describes(
                    *server,
                    ids[k],
                    out@[k],
                ),
            forall|j: int|
                0 <= j < i && server.user_map().contains_key(#[trigger] members@[j]) ==> exists|k: int|
                    #![trigger out@[k]]
                    0 <= k < out@.len() && out@[k].0@ == server.user_map()[members@[j]]@.username,
        decreases members.len() - i,
    {
        let id = members[i];
        assert(members@.to_set().contains(id));
        match user_table_get(&server.users, id) {
            Some(user) => {
                let e = (user.username().clone(), user.user_info());
                assert(describes(*server, id, e));
                let ghost old_out = out@;
                let ghost old_ids = ids;
                let k = put_entry(&mut out, e);
                proof {
                    if k < old_out.len() {
                        ids = ids.update(k as int, id);
                    } else {
                        ids = ids.push(id);
                    }
                    assert forall|t: int| 0 <= t < out@.len() implies server.online_set().contains(
                        #[trigger] ids[t],
                    ) && describes(*server, ids[t], out@[t]) by {
                        if t != k {
                            assert(out@[t] == old_out[t]);
                            assert(ids[t] == old_ids[t]);
                        }
                    }
                    assert forall|j: int|
                        0 <= j < i + 1 && server.user_map().contains_key(
                            #[trigger] members@[j],
                        ) implies exists|t: int|
                        #![trigger out@[t]]
                        0 <= t < out@.len() && out@[t].0@
                            == server.user_map()[members@[j]]@.username by {
                        if j < i {
                            let t = choose|t: int|
                                0 <= t < old_out.len() && old_out[t].0@
                                    == server.user_map()[members@[j]]@.username;
                            if t != k {
                                assert(out@[t] == old_out[t]);
                            } else {
                                assert(out@[t].0@ == old_out[t].0@);
                            }
                        } else {
                            assert(out@[k as int].0@ == server.user_map()[members@[j]]@.username);
                        }
                    }
                }
            },
            None => {},
        }
        i = i + 1;
    }
    proof {
        assert(ids.len() == out@.len());
        assert forall|id: u64|
            server.online_set().contains(id) && server.user_map().contains_key(id) implies exists|k: int|
            0 <= k < out@.len() && #[trigger] out@[k].0@ == server.user_map()[id]@.username by {
            assert(members@.to_set().contains(id));
            let j = choose|j: int| 0 <= j < members.len() && members@[j] == id;
            assert(server.user_map().contains_key(members@[j]));
        }
    }
    Ok(Some(ServerResponse::OnlineUsers(out)))
}


/// What setting the echo flag gives: the sender's flag and the echo list follow
/// the request; a warning for an unregistered sender or another request.
pub open spec fn echo_outcome(
    before: Server,
    after: Server,
    request: &Request,
    uid: u64,
    r: Result<Option<ServerResponse>, Failure>,
) -> bool {
    match request {
        Request::SetEchoAvailability(c) => if before.user_map().contains_key(uid) {
            &&& r matches Ok(None)
            &&& user_updated(
                before,
                after,
                uid,
                before.user_map()[uid]@.with_echo(c.0),
            )
            &&& after.open_user_set() == (if c.0 {
                before.open_user_set().insert(uid)
            } else {
                before.open_user_set().remove(uid)
            })
            &&& after.online_set() == before.online_set()
            &&& after.group_map() == before.group_map()
            &&& after.visible_set() == before.visible_set()
            &&& after.open_group_set() == before.open_group_set()
            &&& after.next_user_id == before.next_user_id
            &&& after.next_group_id == before.next_group_id
        } else {
            &&& r matches Err(f) && f.is(
                FailureType::Warning,
                "failed to set echo availability for user_id: "@ + decimal_spec(
                    uid as nat,
                ),
            )
            &&& same_registry(before, after)
        },
        _ => {
            &&& r matches Err(f) && f.is(
                FailureType::Warning,
                "failed to read SetEchoAvailability from Box"@,
            )
            &&& same_registry(before, after)
        },
    }
}

/// Set whether the sender is open to echo, and list or unlist it; a
/// warning when the sender is not registered.
pub fn handle_set_echo_availability(server: &mut Server, request: &Request, user_id: &u64) -> (r:
    Result<Option<ServerResponse>, Failure>)
    ensures
        echo_outcome(*old(server), *final(server), request, *user_id, r),
        old(server).wf() ==> final(server).wf(),
{
    let command = match try_get_set_echo_availability(request) {
        Ok(c) => c,
        Err(f) => {
            return Err(f);
        },
    };
    let new_status = command.0;
    match user_table_get(&server.users, *user_id) {
        Some(mut user) => {
            let ghost start = *server;
            user.set_echo_status(new_status);
            user_table_insert(&mut server.users, *user_id, user);
            if new_status {
                user_id_set_insert(&mut server.open_users, *user_id);
            } else {
                user_id_set_remove(&mut server.open_users, *user_id);
            }
            proof {
                assert(server.user_map().dom() =~= start.user_map().dom());
                if start.wf() {
                    assert forall|u: u64| #![trigger server.online_set().contains(u)] server.online_set().contains(u) <==> server.user_map().contains_key(u) && server.user_map()[u]@.show_online by {
                        assert(start.online_set().contains(u) <==> start.user_map().contains_key(u) && start.user_map()[u]@.show_online);
                    }
                    assert forall|u: u64| #![trigger server.open_user_set().contains(u)] server.open_user_set().contains(u) <==> server.user_map().contains_key(u) && server.user_map()[u]@.open_to_echo by {
                        assert(start.open_user_set().contains(u) <==> start.user_map().contains_key(u) && start.user_map()[u]@.open_to_echo);
                    }
                    assert forall|u: u64| #![trigger server.user_map()[u]] server.user_map().contains_key(u) implies match server.user_map()[u]@.group_info {
                        Some((g, _)) => server.group_map().contains_key(g) && server.group_map()[g].users@.contains_key(u),
                        None => true,
                    } by {
                        assert(start.user_map().contains_key(u));
                        assert(start.user_map()[u]@.group_info == server.user_map()[u]@.group_info);
                    }
                    assert(server.group_map() == start.group_map());
                    assert(server.visible_set() == start.visible_set());
                    assert(server.open_group_set() == start.open_group_set());
                    lemma_wf_groups_same(start, *server);
                }
            }
            Ok(None)
        },
        None => {
            let mut m = String::from_str("failed to set echo availability for user_id: ");
            m.append(decimal(*user_id).as_str());
            Err(Failure::new(m, FailureType::Warning))
        },
    }
}

/// What setting the online flag gives: the sender's flag and the online list
/// follow the request; a warning for an unregistered sender or another request.
pub open spec fn online_outcome(
    before: Server,
    after: Server,
    request: &Request,
    uid: u64,
    r: Result<Option<ServerResponse>, Failure>,
) -> bool {
    match request {
        Request::SetOnlineStatus(c) => if before.user_map().contains_key(uid) {
            &&& r matches Ok(None)
            &&& user_updated(
                before,
                after,
                uid,
                before.user_map()[uid]@.with_online(c.0),
            )
            &&& after.online_set() == (if c.0 {
                before.online_set().insert(uid)
            } else {
                before.online_set().remove(uid)
            })
            &&& after.open_user_set() == before.open_user_set()
            &&& after.group_map() == before.group_map()
            &&& after.visible_set() == before.visible_set()
            &&& after.open_group_set() == before.open_group_set()
            &&& after.next_user_id == before.next_user_id
            &&& after.next_group_id == before.next_group_id
        } else {
            &&& r matches Err(f) && f.is(
                FailureType::Warning,
                "failed to set online status for user_id: "@ + decimal_spec(uid as nat),
            )
            &&& same_registry(before, after)
        },
        _ => {
            &&& r matches Err(f) && f.is(
                FailureType::Warning,
                "failed to read SetOnlineStatus from Box"@,
            )
            &&& same_registry(before, after)
        },
    }
}

/// Set whether the sender shows as online, and list or unlist it; a
/// warning when the sender is not registered.
pub fn handle_set_online_status(server: &mut Server, request: &Request, user_id: &u64) -> (r:
    Result<Option<ServerResponse>, Failure>)
    ensures
        online_outcome(*old(server), *final(server), request, *user_id, r),
        old(server).wf() ==> final(server).wf(),
{
    let command = match try_get_set_online_status(request) {
        Ok(c) => c,
        Err(f) => {
            return Err(f);
        },
    };
    let new_status = command.0;
    match user_table_get(&server.users, *user_id) {
        Some(mut user) => {
            let ghost start = *server;
            user.set_online_status(new_status);
            user_table_insert(&mut server.users, *user_id, user);
            if new_status {
                user_id_set_insert(&mut server.online_users, *user_id);
            } else {
                user_id_set_remove(&mut server.online_users, *user_id);
            }
            proof {
                assert(server.user_map().dom() =~= start.user_map().dom());
                if start.wf() {
                    assert forall|u: u64| #![trigger server.online_set().contains(u)] server.online_set().contains(u) <==> server.user_map().contains_key(u) && server.user_map()[u]@.show_online by {
                        assert(start.online_set().contains(u) <==> start.user_map().contains_key(u) && start.user_map()[u]@.show_online);
                    }
                    assert forall|u: u64| #![trigger server.open_user_set().contains(u)] server.open_user_set().contains(u) <==> server.user_map().contains_key(u) && server.user_map()[u]@.open_to_echo by {
                        assert(start.open_user_set().contains(u) <==> start.user_map().contains_key(u) && start.user_map()[u]@.open_to_echo);
                    }
                    assert forall|u: u64| #![trigger server.user_map()[u]] server.user_map().contains_key(u) implies match server.user_map()[u]@.group_info {
                        Some((g, _)) => server.group_map().contains_key(g) && server.group_map()[g].users@.contains_key(u),
                        None => true,
                    } by {
                        assert(start.user_map().contains_key(u));
                        assert(start.user_map()[u]@.group_info == server.user_map()[u]@.group_info);
                    }
                    assert(server.group_map() == start.group_map());
                    assert(server.visible_set() == start.visible_set());
                    assert(server.open_group_set() == start.open_group_set());
                    lemma_wf_groups_same(start, *server);
                }
            }
            Ok(None)
        },
        None => {
            let mut m = String::from_str("failed to set online status for user_id: ");
            m.append(decimal(*user_id).as_str());
            Err(Failure::new(m, FailureType::Warning))
        },
    }
}


/// `info` describes the group `grp` field for field.
pub open spec fn info_of(info: GroupInfo, grp: Group) -> bool {
    &&& info.id == grp.id
    &&& info.name@ == grp.group_name@
    &&& info.visible == grp.visible
    &&& info.open == grp.open
    &&& info.users@ == grp.users@
    &&& info.host == grp.host
}

/// `grp` is the group that the request `c` of the user `uid`, named `name`,
/// creates under the id `g`: the user is its host and only member.
pub open spec fn created_group(grp: Group, g: u32, c: CreateNewGroup, uid: u64, name: Seq<char>) -> bool {
    &&& grp.id == g
    &&& grp.group_name@ == c.group_name@
    &&& grp.visible == c.visible
    &&& grp.open == c.open
    &&& grp.host == uid
    &&& grp.users@.dom() == set![uid]
    &&& grp.users@[uid]@ == name
}

/// The id counter after handing out `g`; it wraps.
pub open spec fn next_id(g: u32) -> u32 {
    if g == u32::MAX {
        0
    } else {
        (g + 1) as u32
    }
}

/// What a group creation gives: the group hosted by the sender under the next
/// id, and its description; a warning for another request.
pub open spec fn create_outcome(
    before: Server,
    after: Server,
    request: &Request,
    uid: u64,
    r: Result<Option<ServerResponse>, Failure>,
) -> bool {
    match request {
        Request::CreateNewGroup(c) => {
            let g = before.next_group_id;
            let grp = after.group_map()[g];
            &&& created_group(
                grp,
                g,
                *c,
                uid,
                before.user_map()[uid]@.username,
            )
            &&& r matches Ok(Some(ServerResponse::GroupInfo(info))) && info_of(info, grp)
            &&& after.group_map() == before.group_map().insert(g, grp)
            &&& after.visible_set() == (if c.visible {
                before.visible_set().insert(g)
            } else {
                before.visible_set()
            })
            &&& after.open_group_set() == (if c.open {
                before.open_group_set().insert(g)
            } else {
                before.open_group_set()
            })
            &&& after.user_map() == before.user_map()
            &&& after.online_set() == before.online_set()
            &&& after.open_user_set() == before.open_user_set()
            &&& after.next_user_id == before.next_user_id
            &&& after.next_group_id == next_id(g)
            &&& before.wf() && !before.group_map().contains_key(g)
                ==> after.wf()
        },
        _ => {
            &&& r matches Err(f) && f.is(
                FailureType::Warning,
                "failed to read CreateNewGroup from Box"@,
            )
            &&& same_registry(before, after)
        },
    }
}

/// Create a group hosted by the sender under the next group id (the
/// counter wraps, and a group of that id is replaced), and answer with its
/// description. The host's own record is left as it is.
pub fn handle_create_new_group(server: &mut Server, request: &Request, user_id: &u64) -> (r:
    Result<Option<ServerResponse>, Failure>)
    requires
        request is CreateNewGroup ==> old(server).user_map().contains_key(*user_id),
    ensures
        create_outcome(*old(server), *final(server), request, *user_id, r),
{
    let command = match try_get_create_new_group(request) {
        Ok(c) => c,
        Err(f) => {
            return Err(f);
        },
    };
    let host_name = match user_table_get(&server.users, *user_id) {
        Some(user) => user.username().clone(),
        None => {
            proof {
                assert(false);
            }
            return Err(
                Failure::new(
                    String::from_str("failed to read CreateNewGroup from Box"),
                    FailureType::Warning,
                ),
            );
        },
    };
    let group_id = server.next_group_id;
    let ghost start = *server;
    server.next_group_id = group_id.wrapping_add(1);
    proof {
        // only the counter changed, so consistency carries over
        assert(server.user_map() == start.user_map() && server.group_map() == start.group_map());
        assert(server.online_set() == start.online_set() && server.open_user_set()
            == start.open_user_set());
        assert(server.visible_set() == start.visible_set() && server.open_group_set()
            == start.open_group_set());
        assert(start.wf() ==> server.wf());
    }
    let mut users: BTreeMap<u64, String> = BTreeMap::new();
    users.insert(*user_id, host_name);
    assert(users@.dom() =~= set![*user_id]);
    let group = Group {
        id: group_id,
        group_name: command.group_name,
        users,
        host: *user_id,
        open: command.open,
        visible: command.visible,
    };
    let info = group.get_info();
    add_group(server, group_id, group);
    Ok(Some(ServerResponse::GroupInfo(info)))
}

/// What a join request gives: the sender joins an open group and gets its
/// description, or is refused; a warning for another request.
pub open spec fn join_outcome(
    before: Server,
    after: Server,
    request: &Request,
    uid: u64,
    r: Result<Option<ServerResponse>, Failure>,
) -> bool {
    match request {
        Request::JoinGroup(c) => {
            let gid = c.group_id;
            let before = before;
            let after = after;
            if !before.group_map().contains_key(gid) {
                &&& r matches Ok(Some(ServerResponse::Failure(NetworkFailure::JoinGroup(s))))
                    && s@ == "no groups with ID "@ + decimal_spec(gid as nat)
                &&& same_registry(before, after)
            } else if !before.group_map()[gid].open {
                &&& r matches Ok(Some(ServerResponse::Failure(NetworkFailure::JoinGroup(s))))
                    && s@ == "group not open to join"@
                &&& same_registry(before, after)
            } else if before.user_map().contains_key(uid) {
                let grp = before.group_map()[gid];
                let joined = after.group_map()[gid];
                &&& r matches Ok(Some(ServerResponse::GroupInfo(info))) && info_of(info, joined)
                &&& after.group_map() == before.group_map().insert(gid, joined)
                &&& joined.users@.dom() == grp.users@.dom().insert(uid)
                &&& joined.users@[uid]@ == before.user_map()[uid]@.username
                &&& forall|u: u64|
                    #![trigger joined.users@[u]]
                    u != uid && grp.users@.contains_key(u) ==> joined.users@[u]
                        == grp.users@[u]
                &&& joined.group_name == grp.group_name
                &&& joined.id == grp.id
                &&& joined.visible == grp.visible
                &&& joined.open == grp.open
                &&& joined.host == grp.host
                &&& user_updated(
                    before,
                    after,
                    uid,
                    before.user_map()[uid]@.with_group(grp.id, grp.group_name@),
                )
                &&& after.online_set() == before.online_set()
                &&& after.open_user_set() == before.open_user_set()
                &&& after.visible_set() == before.visible_set()
                &&& after.open_group_set() == before.open_group_set()
                &&& after.next_user_id == before.next_user_id
                &&& after.next_group_id == before.next_group_id
            } else {
                &&& r matches Ok(Some(ServerResponse::GroupInfo(info))) && info_of(
                    info,
                    before.group_map()[gid],
                )
                &&& same_registry(before, after)
            }
        },
        _ => {
            &&& r matches Err(f) && f.is(FailureType::Warning, "failed to read JoinGroup from Box"@)
            &&& same_registry(before, after)
        },
    }
}

/// Put the sender into the group it asks for and answer with the group's
/// description; a refusal when there is no such group or it is not open.
/// An unregistered sender gets the description and joins nothing.
pub fn handle_join_group(server: &mut Server, request: &Request, user_id: &u64) -> (r: Result<
    Option<ServerResponse>,
    Failure,
>)
    ensures
        join_outcome(*old(server), *final(server), request, *user_id, r),
        old(server).wf() ==> final(server).wf(),
{
    let command = match try_get_join_group(request) {
        Ok(c) => c,
        Err(f) => {
            return Err(f);
        },
    };
    let gid = command.group_id;
    let mut target_group = match group_table_get(&server.groups, gid) {
        Some(grp) => grp,
        None => {
            let mut m = String::from_str("no groups with ID ");
            m.append(decimal(gid as u64).as_str());
            return Ok(Some(ServerResponse::Failure(NetworkFailure::JoinGroup(m))));
        },
    };
    if !target_group.open {
        return Ok(
            Some(
                ServerResponse::Failure(
                    NetworkFailure::JoinGroup(String::from_str("group not open to join")),
                ),
            ),
        );
    }
    match user_table_get(&server.users, *user_id) {
        Some(mut user) => {
            let ghost start = *server;
            let ghost grp = target_group;
            let name = user.username().clone();
            target_group.users.insert(*user_id, name);
            user.update_group_info(target_group.id, target_group.group_name.clone());
            let info = target_group.get_info();
            group_table_insert(&mut server.groups, gid, target_group);
            user_table_insert(&mut server.users, *user_id, user);
            proof {
                assert(server.user_map().dom() =~= start.user_map().dom());
                if start.wf() {
                    lemma_wf_after_join(start, *server, gid, *user_id);
                }
            }
            Ok(Some(ServerResponse::GroupInfo(info)))
        },
        None => Ok(Some(ServerResponse::GroupInfo(target_group.get_info()))),
    }
}

/// A registered user joining a registered group, recorded in both, keeps a
/// consistent registry consistent.
proof fn lemma_wf_after_join(before: Server, after: Server, g0: u32, u0: u64)
    requires
        before.wf(),
        before.group_map().contains_key(g0),
        before.user_map().contains_key(u0),
        after.group_map() == before.group_map().insert(g0, after.group_map()[g0]),
        after.group_map()[g0].users@.dom() == before.group_map()[g0].users@.dom().insert(u0),
        after.group_map()[g0].id == before.group_map()[g0].id,
        after.group_map()[g0].visible == before.group_map()[g0].visible,
        after.group_map()[g0].open == before.group_map()[g0].open,
        user_updated(
            before,
            after,
            u0,
            before.user_map()[u0]@.with_group(before.group_map()[g0].id, before.group_map()[g0].group_name@),
        ),
        after.online_set() == before.online_set(),
        after.open_user_set() == before.open_user_set(),
        after.visible_set() == before.visible_set(),
        after.open_group_set() == before.open_group_set(),
    ensures
        after.wf(),
{
    assert forall|u: u64| #![trigger after.user_map()[u]] after.user_map().contains_key(u) implies match after.user_map()[u]@.group_info {
        Some((g, _)) => after.group_map().contains_key(g) && after.group_map()[g].users@.contains_key(u),
        None => true,
    } by {
        if u == u0 {
            assert(before.group_map()[g0].id == g0);
            assert(after.group_map()[g0].users@.dom().contains(u0));
        } else {
            assert(before.user_map()[u] == after.user_map()[u]);
            match before.user_map()[u]@.group_info {
                Some((g, _)) => {
                    assert(before.group_map()[g].users@.contains_key(u));
                    if g == g0 {
                        assert(after.group_map()[g0].users@.dom().contains(u));
                    }
                },
                None => {},
            }
        }
    }
    assert forall|u: u64| #![trigger after.online_set().contains(u)] after.online_set().contains(u) <==> after.user_map().contains_key(u) && after.user_map()[u]@.show_online by {
        assert(before.online_set().contains(u) <==> before.user_map().contains_key(u) && before.user_map()[u]@.show_online);
        if u != u0 && after.user_map().contains_key(u) {
            assert(before.user_map()[u] == after.user_map()[u]);
        }
    }
    assert forall|u: u64| #![trigger after.open_user_set().contains(u)] after.open_user_set().contains(u) <==> after.user_map().contains_key(u) && after.user_map()[u]@.open_to_echo by {
        assert(before.open_user_set().contains(u) <==> before.user_map().contains_key(u) && before.user_map()[u]@.open_to_echo);
        if u != u0 && after.user_map().contains_key(u) {
            assert(before.user_map()[u] == after.user_map()[u]);
        }
    }
    assert forall|g: u32| #![trigger after.visible_set().contains(g)] after.visible_set().contains(g) <==> after.group_map().contains_key(g) && after.group_map()[g].visible by {
        assert(before.visible_set().contains(g) <==> before.group_map().contains_key(g) && before.group_map()[g].visible);
    }
    assert forall|g: u32| #![trigger after.open_group_set().contains(g)] after.open_group_set().contains(g) <==> after.group_map().contains_key(g) && after.group_map()[g].open by {
        assert(before.open_group_set().contains(g) <==> before.group_map().contains_key(g) && before.group_map()[g].open);
    }
    assert forall|g: u32| #![trigger after.group_map()[g]] after.group_map().contains_key(g) implies after.group_map()[g].id == g by {
        assert(before.group_map()[g].id == g);
    }
}

/// The group part of consistency carries over to a registry with the same
/// group table and group lists.
proof fn lemma_wf_groups_same(a: Server, b: Server)
    requires
        a.wf(),
        b.group_map() == a.group_map(),
        b.visible_set() == a.visible_set(),
        b.open_group_set() == a.open_group_set(),
    ensures
        forall|g: u32| #![trigger b.group_map()[g]] b.group_map().contains_key(g) ==> b.group_map()[g].id == g,
        forall|g: u32|
            #![trigger b.visible_set().contains(g)]
            b.visible_set().contains(g) <==> b.group_map().contains_key(g) && b.group_map()[g].visible,
        forall|g: u32|
            #![trigger b.open_group_set().contains(g)]
            b.open_group_set().contains(g) <==> b.group_map().contains_key(g) && b.group_map()[g].open,
{
    assert forall|g: u32| #![trigger b.group_map()[g]] b.group_map().contains_key(g) implies b.group_map()[g].id == g by {
        assert(a.group_map()[g].id == g);
    }
    assert forall|g: u32|
        #![trigger b.visible_set().contains(g)]
        b.visible_set().contains(g) <==> b.group_map().contains_key(g) && b.group_map()[g].visible by {
        assert(a.visible_set().contains(g) <==> a.group_map().contains_key(g) && a.group_map()[g].visible);
    }
    assert forall|g: u32|
        #![trigger b.open_group_set().contains(g)]
        b.open_group_set().contains(g) <==> b.group_map().contains_key(g) && b.group_map()[g].open by {
        assert(a.open_group_set().contains(g) <==> a.group_map().contains_key(g) && a.group_map()[g].open);
    }
}

/// After a registered user asks to be shown as online or not (`b`), its
/// online flag is `b` and it is on the online list exactly when `b` holds,
/// whatever the flag was before; no other user's entry or listing changes.
pub proof fn lemma_online_flag_follows_request(
    before: Server,
    after: Server,
    b: bool,
    uid: u64,
    r: Result<Option<ServerResponse>, Failure>,
)
    requires
        online_outcome(before, after, &Request::SetOnlineStatus(SetOnlineStatus(b)), uid, r),
        before.user_map().contains_key(uid),
    ensures
        r matches Ok(None),
        after.user_map().contains_key(uid),
        after.user_map()[uid]@.show_online == b,
        after.user_map()[uid]@.open_to_echo == before.user_map()[uid]@.open_to_echo,
        after.online_set().contains(uid) == b,
        forall|u: u64| u != uid ==> (after.online_set().contains(u) == before.online_set().contains(u)),
        forall|u: u64|
            u != uid && before.user_map().contains_key(u) ==> after.user_map().contains_key(u)
                && after.user_map()[u] == before.user_map()[u],
{
}

/// After a registered user says whether it is open to echo (`b`), its echo
/// flag is `b` and it is on the echo list exactly when `b` holds, whatever
/// the flag was before; no other user's entry or listing changes.
pub proof fn lemma_echo_flag_follows_request(
    before: Server,
    after: Server,
    b: bool,
    uid: u64,
    r: Result<Option<ServerResponse>, Failure>,
)
    requires
        echo_outcome(before, after, &Request::SetEchoAvailability(SetEchoAvailability(b)), uid, r),
        before.user_map().contains_key(uid),
    ensures
        r matches Ok(None),
        after.user_map().contains_key(uid),
        after.user_map()[uid]@.open_to_echo == b,
        after.user_map()[uid]@.show_online == before.user_map()[uid]@.show_online,
        after.open_user_set().contains(uid) == b,
        forall|u: u64|
            u != uid ==> (after.open_user_set().contains(u) == before.open_user_set().contains(u)),
        forall|u: u64|
            u != uid && before.user_map().contains_key(u) ==> after.user_map().contains_key(u)
                && after.user_map()[u] == before.user_map()[u],
{
}

/// A group created by a registered user gets the next group id; the user
/// is its host and only member, under the user's name; it has the
/// requested name and flags; its id is listed as visible or open when it
/// is (and a listing of the id from before stays); the
/// counter moves on by one, wrapping; and no other group changes.
pub proof fn lemma_created_group(
    before: Server,
    after: Server,
    c: CreateNewGroup,
    uid: u64,
    r: Result<Option<ServerResponse>, Failure>,
)
    requires
        create_outcome(before, after, &Request::CreateNewGroup(c), uid, r),
        before.user_map().contains_key(uid),
    ensures
        ({
            let g = before.next_group_id;
            &&& r matches Ok(Some(ServerResponse::GroupInfo(info))) && info.id == g && info.host
                == uid && info.users@.dom() == set![uid] && info.users@[uid]@ == before.user_map()[uid]@.username
                && info.name@ == c.group_name@ && info.open == c.open && info.visible == c.visible
            &&& after.group_map().contains_key(g)
            &&& after.group_map()[g].host == uid
            &&& after.group_map()[g].id == g
            &&& after.group_map()[g].users@.dom() == set![uid]
            &&& after.visible_set().contains(g) == (c.visible || before.visible_set().contains(g))
            &&& after.open_group_set().contains(g) == (c.open || before.open_group_set().contains(g))
            &&& after.next_group_id as int == (g as int + 1) % 0x1_0000_0000
            &&& forall|h: u32| h != g ==> (after.group_map().contains_key(h) == before.group_map().contains_key(h))
            &&& forall|h: u32|
                h != g && before.group_map().contains_key(h) ==> after.group_map()[h]
                    == before.group_map()[h]
            &&& after.user_map() == before.user_map()
        }),
{
    let g = before.next_group_id;
    if g == u32::MAX {
        assert((g as int + 1) % 0x1_0000_0000 == 0);
    } else {
        assert((g as int + 1) % 0x1_0000_0000 == g as int + 1);
    }
}

/// A join request: for a missing or closed group it is refused and nothing
/// changes; for an open group and a registered sender, the sender becomes a
/// member under its own name, every earlier member stays with the same
/// name, the host and the group's other fields stay, the sender records
/// the group as its own, and the answer describes the group as it now is.
pub proof fn lemma_join_result(
    before: Server,
    after: Server,
    c: JoinGroup,
    uid: u64,
    r: Result<Option<ServerResponse>, Failure>,
)
    requires
        join_outcome(before, after, &Request::JoinGroup(c), uid, r),
    ensures
        !before.group_map().contains_key(c.group_id) || !before.group_map()[c.group_id].open ==> {
            &&& r matches Ok(Some(ServerResponse::Failure(NetworkFailure::JoinGroup(_))))
            &&& after.user_map() == before.user_map()
            &&& after.group_map() == before.group_map()
        },
        before.group_map().contains_key(c.group_id) && before.group_map()[c.group_id].open
            && before.user_map().contains_key(uid) ==> ({
            let g = before.group_map()[c.group_id];
            let j = after.group_map()[c.group_id];
            &&& r matches Ok(Some(ServerResponse::GroupInfo(info))) && info.users@ == j.users@
                && info.host == g.host && info.id == g.id && info.name@ == g.group_name@
            &&& after.group_map().contains_key(c.group_id)
            &&& j.users@.contains_key(uid)
            &&& j.users@[uid]@ == before.user_map()[uid]@.username
            &&& forall|u: u64|
                g.users@.contains_key(u) && u != uid ==> j.users@.contains_key(u) && j.users@[u]
                    == g.users@[u]
            &&& j.users@.dom() == g.users@.dom().insert(uid)
            &&& j.host == g.host
            &&& j.id == g.id
            &&& j.open == g.open
            &&& j.visible == g.visible
            &&& j.group_name == g.group_name
            &&& after.user_map().contains_key(uid)
            &&& after.user_map()[uid]@.group_info == Some((g.id, g.group_name@))
            &&& after.user_map()[uid]@.username == before.user_map()[uid]@.username
            &&& after.online_set() == before.online_set()
        }),
{
    if before.group_map().contains_key(c.group_id) && before.group_map()[c.group_id].open
        && before.user_map().contains_key(uid) {
        let g = before.group_map()[c.group_id];
        let j = after.group_map()[c.group_id];
        assert(j.users@.dom().contains(uid));
        assert forall|u: u64| g.users@.contains_key(u) && u != uid implies j.users@.contains_key(u)
            && j.users@[u] == g.users@[u] by {
            assert(j.users@.dom().contains(u));
        }
    }
}

} // verus!
