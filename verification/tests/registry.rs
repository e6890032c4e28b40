use reverb::command_handling::{
    handle_create_new_group, handle_get_online_users, handle_join_group,
    handle_set_echo_availability, handle_set_online_status, try_get_join_group, Request,
    ServerResponse,
};
use reverb::failure::{Failure, FailureType};
use reverb::group::{remove_group, Group};
use reverb::network::{Packet, Payload, NETWORK_VERSION};
use reverb::network_command::{
    CreateNewGroup, DefaultCommand, FetchUsers, GroupInfo, JoinGroup, NetworkFailure,
    SetEchoAvailability, SetOnlineStatus,
};
use reverb::packet_handling::{create_response_packet, handle_packet, SERVER_GROUP, SERVER_NAME};
use reverb::server::{register_new_user, remove_user, Server};
use std::collections::BTreeMap;

fn parts(f: &Failure) -> (FailureType, String, String) {
    match f {
        Failure::Fatal(e, m) => (FailureType::Fatal, e.clone(), m.clone()),
        Failure::Warning(e, m) => (FailureType::Warning, e.clone(), m.clone()),
    }
}

fn warning(text: &str) -> (FailureType, String, String) {
    (FailureType::Warning, text.to_string(), String::new())
}

fn hello(name: &str) -> Packet {
    Packet::new(name, 0, Payload { number: 4, body: vec![0, 1] }).unwrap()
}

fn create(name: &str, open: bool, visible: bool) -> Request {
    Request::CreateNewGroup(CreateNewGroup {
        group_name: name.to_string(),
        open,
        visible,
        invited_users: vec![],
    })
}

fn group_info(r: Result<Option<ServerResponse>, Failure>) -> GroupInfo {
    match r {
        Ok(Some(ServerResponse::GroupInfo(info))) => info,
        _ => panic!("expected a group description"),
    }
}

fn refusal(r: Result<Option<ServerResponse>, Failure>) -> String {
    match r {
        Ok(Some(ServerResponse::Failure(NetworkFailure::JoinGroup(s)))) => s,
        _ => panic!("expected a refusal"),
    }
}

fn names(m: &BTreeMap<u64, String>) -> Vec<(u64, String)> {
    m.iter().map(|(k, v)| (*k, v.clone())).collect()
}

#[test]
fn registration_hands_out_ids_from_one() {
    let mut s = Server::new();
    assert_eq!(register_new_user(&mut s, hello("alice")), 1);
    assert_eq!(register_new_user(&mut s, hello("bob")), 2);
    assert_eq!(s.next_user_id, 3);
    let alice = s.users.get(&1).unwrap().clone();
    assert_eq!(alice.username(), "alice");
    assert!(*alice.online_status());
    assert!(*alice.open_to_echo());
    assert_eq!(alice.group(), None);
    assert!(s.online_users.contains(&1) && s.open_users.contains(&2));
}

#[test]
fn registration_counter_wraps() {
    let mut s = Server::new();
    s.next_user_id = u64::MAX;
    assert_eq!(register_new_user(&mut s, hello("last")), u64::MAX);
    assert_eq!(s.next_user_id, 0);
}

#[test]
fn echo_flag_follows_the_request() {
    let mut s = Server::new();
    register_new_user(&mut s, hello("alice"));
    let off = Request::SetEchoAvailability(SetEchoAvailability(false));
    assert!(matches!(handle_set_echo_availability(&mut s, &off, &1), Ok(None)));
    assert!(!s.open_users.contains(&1));
    assert!(!*s.users.get(&1).unwrap().open_to_echo());
    let on = Request::SetEchoAvailability(SetEchoAvailability(true));
    assert!(matches!(handle_set_echo_availability(&mut s, &on, &1), Ok(None)));
    assert!(s.open_users.contains(&1));
    let r = handle_set_echo_availability(&mut s, &on, &99);
    assert_eq!(parts(&r.unwrap_err()), warning("failed to set echo availability for user_id: 99"));
    let r = handle_set_echo_availability(&mut s, &Request::Other(6), &1);
    assert_eq!(parts(&r.unwrap_err()), warning("failed to read SetEchoAvailability from Box"));
}

#[test]
fn online_flag_follows_the_request() {
    let mut s = Server::new();
    register_new_user(&mut s, hello("alice"));
    let off = Request::SetOnlineStatus(SetOnlineStatus(false));
    assert!(matches!(handle_set_online_status(&mut s, &off, &1), Ok(None)));
    assert!(!s.online_users.contains(&1));
    match handle_get_online_users(&s) {
        Ok(Some(ServerResponse::OnlineUsers(v))) => assert!(v.is_empty()),
        _ => panic!("expected the online users"),
    }
    let r = handle_set_online_status(&mut s, &off, &7);
    assert_eq!(parts(&r.unwrap_err()), warning("failed to set online status for user_id: 7"));
    let r = handle_set_online_status(&mut s, &Request::Other(0), &1);
    assert_eq!(parts(&r.unwrap_err()), warning("failed to read SetOnlineStatus from Box"));
}

#[test]
fn online_users_lists_each_online_user() {
    let mut s = Server::new();
    register_new_user(&mut s, hello("alice"));
    register_new_user(&mut s, hello("bob"));
    match handle_get_online_users(&s) {
        Ok(Some(ServerResponse::OnlineUsers(v))) => {
            let mut got: Vec<(String, u64, bool)> =
                v.iter().map(|(n, i)| (n.clone(), i.user_id, i.open_to_echo)).collect();
            got.sort();
            assert_eq!(got, vec![("alice".to_string(), 1, true), ("bob".to_string(), 2, true)]);
        },
        _ => panic!("expected the online users"),
    }
}

#[test]
fn creating_a_group_makes_the_sender_host() {
    let mut s = Server::new();
    register_new_user(&mut s, hello("alice"));
    let info = group_info(handle_create_new_group(&mut s, &create("band", true, false), &1));
    assert_eq!(info.id, 1);
    assert_eq!(info.name, "band");
    assert!(info.open && !info.visible);
    assert_eq!(info.host, 1);
    assert_eq!(names(&info.users), vec![(1, "alice".to_string())]);
    assert_eq!(s.next_group_id, 2);
    assert!(s.groups.contains_key(&1));
    assert!(s.open_groups.contains(&1) && !s.visible_groups.contains(&1));
    // the host's own record is not changed
    assert_eq!(s.users.get(&1).unwrap().group(), None);
    let r = handle_create_new_group(&mut s, &Request::Other(8), &1);
    assert_eq!(parts(&r.unwrap_err()), warning("failed to read CreateNewGroup from Box"));
}

#[test]
fn joining_an_open_group_records_both_sides() {
    let mut s = Server::new();
    register_new_user(&mut s, hello("alice"));
    register_new_user(&mut s, hello("bob"));
    handle_create_new_group(&mut s, &create("band", true, true), &1).unwrap();
    let join = Request::JoinGroup(JoinGroup { group_id: 1 });
    let info = group_info(handle_join_group(&mut s, &join, &2));
    assert_eq!(names(&info.users), vec![(1, "alice".to_string()), (2, "bob".to_string())]);
    assert_eq!(s.users.get(&2).unwrap().group(), Some((1, "band".to_string())));
    assert_eq!(s.groups.get(&1).unwrap().users.len(), 2);
}

#[test]
fn joining_is_refused_for_missing_or_closed_groups() {
    let mut s = Server::new();
    register_new_user(&mut s, hello("alice"));
    handle_create_new_group(&mut s, &create("quiet", false, true), &1).unwrap();
    let r = handle_join_group(&mut s, &Request::JoinGroup(JoinGroup { group_id: 5 }), &1);
    assert_eq!(refusal(r), "no groups with ID 5");
    let r = handle_join_group(&mut s, &Request::JoinGroup(JoinGroup { group_id: 1 }), &1);
    assert_eq!(refusal(r), "group not open to join");
    let r = handle_join_group(&mut s, &Request::Default(DefaultCommand {}), &1);
    assert_eq!(parts(&r.unwrap_err()), warning("failed to read JoinGroup from Box"));
    assert_eq!(
        parts(&try_get_join_group(&Request::Other(10)).unwrap_err()),
        warning("failed to read JoinGroup from Box")
    );
}

#[test]
fn unregistered_sender_gets_the_group_without_joining() {
    let mut s = Server::new();
    register_new_user(&mut s, hello("alice"));
    handle_create_new_group(&mut s, &create("band", true, true), &1).unwrap();
    let info = group_info(handle_join_group(&mut s, &Request::JoinGroup(JoinGroup { group_id: 1 }), &42));
    assert_eq!(names(&info.users), vec![(1, "alice".to_string())]);
    assert!(!s.users.contains_key(&42));
}

#[test]
fn removing_members_drops_an_empty_group() {
    let mut s = Server::new();
    register_new_user(&mut s, hello("alice"));
    register_new_user(&mut s, hello("bob"));
    handle_create_new_group(&mut s, &create("band", true, true), &1).unwrap();
    let join = Request::JoinGroup(JoinGroup { group_id: 1 });
    handle_join_group(&mut s, &join, &1).unwrap();
    handle_join_group(&mut s, &join, &2).unwrap();
    remove_user(&mut s, &2);
    assert!(!s.users.contains_key(&2));
    assert!(!s.online_users.contains(&2) && !s.open_users.contains(&2));
    assert_eq!(names(&s.groups.get(&1).unwrap().users), vec![(1, "alice".to_string())]);
    remove_user(&mut s, &1);
    assert!(!s.groups.contains_key(&1));
    assert!(!s.visible_groups.contains(&1) && !s.open_groups.contains(&1));
}

#[test]
fn removing_a_group_clears_its_members() {
    let mut s = Server::new();
    register_new_user(&mut s, hello("alice"));
    handle_create_new_group(&mut s, &create("band", true, true), &1).unwrap();
    handle_join_group(&mut s, &Request::JoinGroup(JoinGroup { group_id: 1 }), &1).unwrap();
    assert_eq!(s.users.get(&1).unwrap().group(), Some((1, "band".to_string())));
    remove_group(&mut s, &1);
    assert_eq!(s.users.get(&1).unwrap().group(), None);
    assert!(!s.groups.contains_key(&1) && !s.visible_groups.contains(&1));
}

#[test]
fn register_then_remove_restores_the_registry() {
    let mut s = Server::new();
    register_new_user(&mut s, hello("alice"));
    let id = register_new_user(&mut s, hello("bob"));
    remove_user(&mut s, &id);
    assert_eq!(s.users.len(), 1);
    assert!(s.users.contains_key(&1));
    assert_eq!(s.online_users.len(), 1);
    assert_eq!(s.open_users.len(), 1);
    assert_eq!(s.next_user_id, 3);
}

#[test]
fn packets_go_to_the_handler_for_their_number() {
    let mut s = Server::new();
    register_new_user(&mut s, hello("alice"));
    assert!(matches!(
        handle_packet(&mut s, &Request::Default(DefaultCommand {}), &1),
        Ok(Some(ServerResponse::Default(_)))
    ));
    assert!(matches!(
        handle_packet(&mut s, &Request::SetOnlineStatus(SetOnlineStatus(false)), &1),
        Ok(None)
    ));
    assert!(!s.online_users.contains(&1));
    let info = group_info(handle_packet(&mut s, &create("band", true, true), &1));
    assert_eq!(info.id, 1);
    let r = handle_packet(&mut s, &Request::FetchUsers(FetchUsers { open_to_echo: None }), &1);
    assert_eq!(parts(&r.unwrap_err()), warning("packet handling error: command not found"));
    let r = handle_packet(&mut s, &Request::Other(42), &1);
    assert_eq!(parts(&r.unwrap_err()), warning("packet handling error: command not found"));
    assert_eq!(ServerResponse::GroupInfo(info).number(), Some(9));
}

#[test]
fn answers_are_signed_by_the_server() {
    let payload = Payload { number: 9, body: vec![1, 2] };
    let p = create_response_packet(Ok(Some(payload))).unwrap().unwrap();
    assert_eq!(p.version, NETWORK_VERSION);
    assert_eq!(p.username, SERVER_NAME);
    assert_eq!(p.group_id, SERVER_GROUP);
    assert_eq!(p.payload.number, 9);
    assert_eq!(p.payload.body, vec![1u8, 2]);
    assert!(create_response_packet(Ok(None)).unwrap().is_none());
    let f = Failure::new("boom".to_string(), FailureType::Fatal);
    assert_eq!(parts(&create_response_packet(Err(f)).unwrap_err()), (FailureType::Fatal, "boom".to_string(), String::new()));
}

#[test]
fn group_description_copies_the_group() {
    let mut users = BTreeMap::new();
    users.insert(3u64, "carol".to_string());
    let g = Group { group_name: "g".to_string(), id: 4, visible: true, open: false, users, host: 3 };
    let info = g.get_info();
    assert_eq!((info.id, info.name.as_str(), info.visible, info.open, info.host), (4, "g", true, false, 3));
    assert_eq!(names(&info.users), vec![(3, "carol".to_string())]);
}

#[test]
fn online_users_are_listed_by_name_once() {
    let mut s = Server::new();
    register_new_user(&mut s, hello("twin"));
    register_new_user(&mut s, hello("twin"));
    register_new_user(&mut s, hello("solo"));
    match handle_get_online_users(&s) {
        Ok(Some(ServerResponse::OnlineUsers(v))) => {
            let mut got: Vec<String> = v.iter().map(|(n, _)| n.clone()).collect();
            got.sort();
            assert_eq!(got, vec!["solo".to_string(), "twin".to_string()]);
            let twin = v.iter().find(|(n, _)| n == "twin").unwrap();
            assert!(twin.1.user_id == 1 || twin.1.user_id == 2);
        },
        _ => panic!("expected the online users"),
    }
}
