use reverb::failure::{Failure, FailureType};
use reverb::network::{check_decoded, check_parameters, parse_command, Packet, Payload, NETWORK_VERSION};
use reverb::network_command::{
    serialize, FetchGroups, FetchUsers, GetVisibleGroups, NetworkCommand, QueryOrNotify, UserData,
};

fn parts(f: &Failure) -> (FailureType, String, String) {
    match f {
        Failure::Fatal(e, m) => (FailureType::Fatal, e.clone(), m.clone()),
        Failure::Warning(e, m) => (FailureType::Warning, e.clone(), m.clone()),
    }
}

fn warning(text: &str) -> (FailureType, String, String) {
    (FailureType::Warning, text.to_string(), String::new())
}

#[test]
fn packet_bytes_follow_the_layout() {
    let payload = Payload::of(&FetchUsers { open_to_echo: Some(true) });
    let p = Packet::new("alice", 7, payload).unwrap();
    let bytes = p.serialize().unwrap();
    let mut expected = vec![0u8, 1, 0];
    expected.extend_from_slice(b"alice");
    expected.extend(std::iter::repeat(0u8).take(27));
    expected.extend_from_slice(&[7, 0, 0, 0, 5, 5, 2]);
    assert_eq!(bytes, expected);
}

#[test]
fn packet_reads_back_as_written() {
    let payload = Payload::of(&FetchGroups { open: Some(false) });
    let p = Packet::new("bob", 0x01020304, payload).unwrap();
    let bytes = p.serialize().unwrap();
    let q = Packet::parse(&bytes, &Ok(())).unwrap();
    assert_eq!(*q.version(), NETWORK_VERSION);
    assert_eq!(q.username(), "bob");
    assert_eq!(*q.group_id(), 0x01020304);
    assert_eq!(q.payload().number, 12);
    assert_eq!(q.payload().body, vec![1u8]);
}

#[test]
fn group_id_is_little_endian() {
    let p = Packet::new("x", 0xAABBCCDD, Payload { number: 0, body: vec![] }).unwrap();
    let bytes = p.serialize().unwrap();
    assert_eq!(&bytes[35..39], &[0xDD, 0xCC, 0xBB, 0xAA]);
}

#[test]
fn long_username_is_refused() {
    let name = "a".repeat(33);
    assert_eq!(parts(&check_parameters(&name).unwrap_err()), warning("username too long"));
    assert!(check_parameters(&"a".repeat(32)).is_ok());
    let r = Packet::new(&name, 0, Payload { number: 0, body: vec![] });
    assert_eq!(parts(&r.unwrap_err()), warning("username too long"));
    // the limit is on bytes: 11 three-byte characters take 33 bytes
    assert!(check_parameters(&"\u{20AC}".repeat(11)).is_err());
}

#[test]
fn short_data_is_refused() {
    let r = Packet::parse(&[0u8; 40], &Ok(()));
    assert_eq!(parts(&r.unwrap_err()), warning("Data too short to be a valid packet"));
}

#[test]
fn unknown_command_is_refused() {
    let mut data = vec![0u8; 40];
    data.push(14);
    assert_eq!(parts(&Packet::parse(&data, &Ok(())).unwrap_err()), warning("invalid command"));
    assert_eq!(parts(&parse_command(vec![200], &Ok(())).unwrap_err()), warning("invalid command"));
}

#[test]
fn malformed_fetch_body_is_refused() {
    assert_eq!(
        parts(&parse_command(vec![5, 3], &Ok(())).unwrap_err()),
        warning("Failed to parse FetchUsers: Invalid open_to_echo value")
    );
    assert_eq!(
        parts(&FetchGroups::parse(vec![9]).unwrap_err()),
        warning("Failed to parse FetchUsers: Invalid open_to_echo value")
    );
}

#[test]
fn parse_command_splits_number_and_body() {
    let p = parse_command(vec![8, 1, 2, 3], &Ok(())).unwrap();
    assert_eq!(p.number, 8);
    assert_eq!(p.body, vec![1u8, 2, 3]);
}

#[test]
fn username_field_is_trimmed_of_nuls_and_decoded_lossily() {
    let mut data = vec![0u8, 1, 0];
    let mut name = vec![0u8, 0xFF, b'a', 0, b'b'];
    name.resize(32, 0);
    data.extend_from_slice(&name);
    data.extend_from_slice(&[1, 0, 0, 0, 0, 0]);
    let p = Packet::parse(&data, &Ok(())).unwrap();
    assert_eq!(p.username(), "\u{FFFD}a\u{0}b");
    assert_eq!(*p.group_id(), 1);
    assert_eq!(p.payload().number, 0);
    assert!(p.payload().body.is_empty());
}

#[test]
fn fetch_commands_encode_their_filter() {
    assert_eq!(FetchUsers { open_to_echo: None }.serialize().unwrap(), vec![0u8]);
    assert_eq!(FetchUsers { open_to_echo: Some(false) }.serialize().unwrap(), vec![1u8]);
    assert_eq!(FetchUsers { open_to_echo: Some(true) }.serialize().unwrap(), vec![2u8]);
    for o in [None, Some(false), Some(true)] {
        let c = FetchUsers { open_to_echo: o };
        assert_eq!(FetchUsers::parse(c.serialize().unwrap()).unwrap(), c);
        let g = FetchGroups { open: o };
        assert_eq!(FetchGroups::parse(g.serialize().unwrap()).unwrap(), g);
    }
    assert_eq!(serialize(&FetchGroups { open: None }).unwrap(), vec![12u8, 0]);
    assert_eq!(serialize(&FetchUsers { open_to_echo: Some(true) }).unwrap(), vec![5u8, 2]);
}

#[test]
fn user_data_reads_its_flag_from_the_second_byte() {
    assert_eq!(UserData { echo_avaliable: true }.serialize().unwrap(), vec![1u8]);
    assert_eq!(UserData::parse(vec![9, 1]).unwrap(), UserData { echo_avaliable: true });
    assert_eq!(UserData::parse(vec![9, 0]).unwrap(), UserData { echo_avaliable: false });
    assert_eq!(parts(&UserData::parse(vec![0, 7]).unwrap_err()), warning("invalid value for UserData"));
}

#[test]
fn command_numbers_and_kinds() {
    assert_eq!(FetchUsers { open_to_echo: None }.number(), 5);
    assert_eq!(FetchGroups { open: None }.number(), 12);
    assert_eq!(UserData { echo_avaliable: false }.number(), 4);
    assert_eq!(FetchUsers { open_to_echo: None }.query_or_notify(), QueryOrNotify::Query);
    assert_eq!(UserData { echo_avaliable: false }.query_or_notify(), QueryOrNotify::Notify);
    assert_eq!(GetVisibleGroups {}.serialize().unwrap(), Vec::<u8>::new());
    assert_eq!(GetVisibleGroups::parse(vec![1, 2]).unwrap(), GetVisibleGroups {});
}

#[test]
fn malformed_body_inside_a_packet_is_refused() {
    let mut data = vec![0u8, 1, 0];
    data.extend(std::iter::repeat(0u8).take(32));
    data.extend_from_slice(&[0, 0, 0, 0, 4, 4, 0, 9]);
    assert_eq!(parts(&Packet::parse(&data, &Ok(())).unwrap_err()), warning("invalid value for UserData"));
    assert!(reverb::network::packet_fits(&data));
    // a user data body of one byte is too short to be read
    let short = &data[..data.len() - 1];
    assert!(!reverb::network::packet_fits(short));
}

#[test]
fn bodies_decoded_outside_follow_the_verdict() {
    let r = parse_command(vec![8, 255], &Err("unexpected end".to_string()));
    assert_eq!(parts(&r.unwrap_err()), warning("failed to deserialize CreateNewGroup: unexpected end"));
    let r = parse_command(vec![10], &Err("bad".to_string()));
    assert_eq!(parts(&r.unwrap_err()), warning("failed to deserialize JoinGroup: bad"));
    // a verdict on a body this crate reads itself is not looked at
    assert!(parse_command(vec![5, 0], &Err("ignored".to_string())).is_ok());
    assert!(check_decoded(0, &Err("x".to_string())).is_ok());
    assert_eq!(
        parts(&check_decoded(13, &Err("x".to_string())).unwrap_err()),
        warning("failed to deserialize FetchedGroups: x")
    );
    let mut data = vec![0u8, 1, 0];
    data.extend(std::iter::repeat(0u8).take(32));
    data.extend_from_slice(&[0, 0, 0, 0, 9, 9, 1]);
    let r = Packet::parse(&data, &Err("eof".to_string()));
    assert_eq!(parts(&r.unwrap_err()), warning("failed to deserialize GroupInfo: eof"));
    assert_eq!(Packet::parse(&data, &Ok(())).unwrap().payload().body, vec![1u8]);
}

#[test]
fn packets_are_written_under_the_current_version() {
    let mut p = Packet::new("x", 0, Payload { number: 0, body: vec![] }).unwrap();
    p.version = [9, 9, 9];
    let bytes = p.serialize().unwrap();
    assert_eq!(&bytes[0..3], &NETWORK_VERSION);
}
