use reverb::failure::{Failure, FailureType};
use reverb::fetched::{FetchedGroups, FetchedUsers, UserInfo};
use reverb::network_command::{
    GroupInfo, NetworkFailure, OnlineUsers, QueryOrNotify, VisibleGroups,
};
use std::collections::BTreeMap;

#[test]
fn user_line_tells_echo_and_group() {
    let u = UserInfo {
        user_id: 12,
        username: "alice".to_string(),
        open_to_echo: true,
        group_info: Some((3, "band".to_string())),
    };
    assert_eq!(u.describe(), "alice (12) is open to echo in group band (3)");
    let v = UserInfo { user_id: 0, username: "bob".to_string(), open_to_echo: false, group_info: None };
    assert_eq!(v.describe(), "bob (0) isn't open to echo and not in a group");
}

#[test]
fn group_text_lists_members_by_id_and_marks_the_host() {
    let mut users = BTreeMap::new();
    users.insert(9u64, "zed".to_string());
    users.insert(2u64, "amy".to_string());
    let g = GroupInfo { id: 7, name: "band".to_string(), visible: true, open: true, users, host: 9 };
    let mut others = BTreeMap::new();
    others.insert(1u64, "solo".to_string());
    let h = GroupInfo { id: 8, name: "quiet".to_string(), visible: false, open: false, users: others, host: 5 };
    let fg = FetchedGroups { groups: vec![g, h] };
    assert_eq!(
        fg.describe(),
        "band (7) is open to echo, users:\n  amy\n  zed (host)\n\nquiet (8) isn't open to echo, users:\n  solo\n"
    );
    assert_eq!(FetchedGroups { groups: vec![] }.describe(), "");
    assert_eq!(fg.number(), 13);
    assert_eq!(fg.query_or_notify(), QueryOrNotify::Notify);
    assert_eq!(FetchedUsers { users: vec![] }.number(), 3);
}

#[test]
fn failure_report_puts_the_message_first() {
    let f = Failure::with_message("disk full".to_string(), "saving", FailureType::Fatal);
    assert_eq!(f.describe(), "saving: disk full \n");
    let g = Failure::new("boom".to_string(), FailureType::Warning);
    assert_eq!(g.describe(), "boom \n");
    assert_eq!(f.failure_type(), FailureType::Fatal);
    assert_eq!(g.failure_type(), FailureType::Warning);
}

#[test]
fn network_failure_text_is_pretty_debug() {
    let f = NetworkFailure::InvalidCommandId(14);
    assert_eq!(f.describe(), format!("NetworkFailure: {:#?}", f));
    let g = NetworkFailure::JoinGroup("no \"such\" group".to_string());
    assert_eq!(g.describe(), format!("NetworkFailure: {:#?}", g));
    assert_eq!(f.describe(), "NetworkFailure: InvalidCommandId(\n    14,\n)");
    assert_eq!(f.number(), 11);
}

#[test]
fn listings_drop_their_first_byte() {
    assert_eq!(OnlineUsers::listing(&vec![0, 1, 2]).unwrap(), vec![1u8, 2]);
    match OnlineUsers::listing(&vec![0]) {
        Err(Failure::Warning(e, _)) => assert_eq!(e, "OnlineUsers Parsing Error: No Online Users"),
        _ => panic!("expected a warning"),
    }
    match VisibleGroups::listing(&vec![]) {
        Err(Failure::Warning(e, _)) => assert_eq!(e, "VisibleGroups Parsing Error: No Visible Groups"),
        _ => panic!("expected a warning"),
    }
    assert_eq!(VisibleGroups { groups: vec![] }.number(), 9);
}
