use reverb::client::{ConnectionStatus, InternetClient};
use reverb::config::{update_config, update_server_config, Config, ServerConfig};
use reverb::failure::{Failure, FailureType};
use reverb::network::Payload;
use std::sync::mpsc::channel;

fn parts(f: &Failure) -> (FailureType, String, String) {
    match f {
        Failure::Fatal(e, m) => (FailureType::Fatal, e.clone(), m.clone()),
        Failure::Warning(e, m) => (FailureType::Warning, e.clone(), m.clone()),
    }
}

fn warning(text: &str) -> (FailureType, String, String) {
    (FailureType::Warning, text.to_string(), String::new())
}

fn config(name: &str) -> Config {
    Config {
        data_folder: "d/".to_string(),
        local_song_folder_path: "s/".to_string(),
        username: name.to_string(),
    }
}

#[test]
fn default_config_uses_a_numeric_name() {
    let c = Config::default_for(4321);
    assert_eq!(c.data_folder, "data/");
    assert_eq!(c.local_song_folder_path, "sample/");
    assert_eq!(c.username, "4321");
    assert_eq!(Config::default_for(0).username, "0");
    for _ in 0..20 {
        let c = Config::new_default();
        let n: u32 = c.username.parse().unwrap();
        assert!(n <= 65535);
        assert_eq!(n.to_string(), c.username);
    }
}

#[test]
fn update_config_replaces_given_fields() {
    let c = config("old");
    let n = update_config(Some(&c), None, Some("music/"), Some("new")).unwrap();
    assert_eq!(n.data_folder, "d/");
    assert_eq!(n.local_song_folder_path, "music/");
    assert_eq!(n.username, "new");
    let same = update_config(Some(&c), None, None, None).unwrap();
    assert_eq!((same.data_folder, same.local_song_folder_path, same.username), ("d/".to_string(), "s/".to_string(), "old".to_string()));
}

#[test]
fn update_config_needs_a_config() {
    let r = update_config(None, Some("x"), None, None);
    assert_eq!(parts(&r.unwrap_err()), (FailureType::Fatal, "Config not created".to_string(), String::new()));
}

#[test]
fn server_config_updates() {
    let c = ServerConfig::new("127.0.0.1:4433", "server", "cert.der", true);
    assert_eq!(c.server_address, "127.0.0.1:4433");
    let n = update_server_config(Ok(&c), Some("10.0.0.1:1"), None, None, Some(false)).unwrap();
    assert_eq!(n.server_address, "10.0.0.1:1");
    assert_eq!(n.server_name, "server");
    assert_eq!(n.server_cert_path, "cert.der");
    assert!(!n.echo_avaliable);
}

#[test]
fn missing_server_config_is_created_only_from_every_field() {
    let fail = || Failure::with_message("no file".to_string(), "Failed to read server config", FailureType::Warning);
    let r = update_server_config(Err(fail()), Some("a"), Some("b"), None, Some(true));
    assert_eq!(
        parts(&r.unwrap_err()),
        (FailureType::Warning, "no file".to_string(), "Failed to read server config".to_string())
    );
    let n = update_server_config(Err(fail()), Some("a"), Some("b"), Some("c"), Some(true)).unwrap();
    assert_eq!((n.server_address.as_str(), n.server_name.as_str(), n.server_cert_path.as_str(), n.echo_avaliable), ("a", "b", "c", true));
}

#[test]
fn connecting_twice_is_refused() {
    let mut client = InternetClient::new();
    assert!(client.connect().is_ok());
    assert_eq!(parts(&client.connect().unwrap_err()), warning("Already connecting to server"));
    let (tx, _rx) = channel();
    client.update_connection(ConnectionStatus::Connected(tx));
    assert_eq!(parts(&client.connect().unwrap_err()), warning("Already connected to server"));
}

#[test]
fn messages_need_a_connection() {
    let mut client = InternetClient::new();
    let c = config("alice");
    let r = client.send_message(Some(&c), Payload { number: 0, body: vec![] });
    assert_eq!(parts(&r.unwrap_err()), warning("Not connected to server, cannot send message"));
    client.connect().unwrap();
    let r = client.send_message(Some(&c), Payload { number: 0, body: vec![] });
    assert_eq!(parts(&r.unwrap_err()), warning("Currently connecting to server, cannot send message"));
    let r = client.send_message(None, Payload { number: 0, body: vec![] });
    assert_eq!(parts(&r.unwrap_err()), (FailureType::Fatal, "Config not created".to_string(), String::new()));
    let long = config(&"x".repeat(40));
    let r = client.send_message(Some(&long), Payload { number: 0, body: vec![] });
    assert_eq!(parts(&r.unwrap_err()), warning("username too long"));
}

#[test]
fn connected_client_hands_packets_to_the_channel() {
    let mut client = InternetClient::new();
    let (tx, rx) = channel();
    client.update_connection(ConnectionStatus::Connected(tx));
    client.send_message(Some(&config("alice")), Payload { number: 6, body: vec![1] }).unwrap();
    let p = rx.recv().unwrap();
    assert_eq!(p.username, "alice");
    assert_eq!(p.group_id, 0);
    assert_eq!(p.payload.number, 6);
    assert_eq!(p.payload.body, vec![1u8]);
    drop(rx);
    let r = client.send_message(Some(&config("alice")), Payload { number: 6, body: vec![1] });
    assert_eq!(r.unwrap_err().failure_type(), FailureType::Warning);
}

#[test]
fn outgoing_packet_carries_name_group_and_payload() {
    let client = InternetClient::new();
    let p = client.outgoing_packet(Some(&config("alice")), Payload { number: 7, body: vec![1] }).unwrap();
    assert_eq!(p.version, reverb::network::NETWORK_VERSION);
    assert_eq!(p.username, "alice");
    assert_eq!(p.group_id, 0);
    assert_eq!((p.payload.number, p.payload.body), (7, vec![1u8]));
    let r = client.outgoing_packet(None, Payload { number: 7, body: vec![] });
    assert_eq!(parts(&r.unwrap_err()), (FailureType::Fatal, "Config not created".to_string(), String::new()));
}
