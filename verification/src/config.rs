//! The client's configuration and the configuration of the server it talks
//! to, and the rules by which they are created and updated.
use vstd::prelude::*;
use vstd::string::*;

use crate::failure::{Failure, FailureType};
use crate::text::{decimal, decimal_spec};

verus! {

/// The folder that holds the configuration files.
pub const CONFIG_FOLDER: &'static str = "configs/";

/// The client's configuration file.
#[derive(Debug, Clone)]
pub struct Config {
    pub data_folder: String,
    pub local_song_folder_path: String,
    pub username: String,
}

/// The configuration of the server the client connects to.
#[derive(Debug, Clone)]
pub struct ServerConfig {
    pub server_address: String,
    pub server_name: String,
    pub server_cert_path: String,
    pub echo_avaliable: bool,
}

/// Calls `rand::random_range` on the inclusive range from `low` to `high`:
/// a number drawn from it, which two calls need not agree on.
#[verifier::external_body]
fn random_in(low: u32, high: u32) -> (n: u32)
    requires
        low <= high,
    ensures
        low <= n <= high,
{
    rand::random_range(low..=high)
}

/// The value `o` holds, or `d` when it holds none.
pub open spec fn or_else(o: Option<&str>, d: Seq<char>) -> Seq<char> {
    match o {
        Some(s) => s@,
        None => d,
    }
}

impl Config {
    /// The default configuration for the user whose name is the number `n`.
    pub fn default_for(n: u32) -> (c: Config)
        ensures
            c.data_folder@ == "data/"@,
            c.local_song_folder_path@ == "sample/"@,
            c.username@ == decimal_spec(n as nat),
    {
        Config {
            data_folder: String::from_str("data/"),
            local_song_folder_path: String::from_str("sample/"),
            username: decimal(n as u64),
        }
    }

    /// The default configuration, with a user name drawn at random from the
    /// numbers up to 65535.
    pub fn new_default() -> (c: Config)
        ensures
            c.data_folder@ == "data/"@,
            c.local_song_folder_path@ == "sample/"@,
            exists|n: nat| n <= 65535 && c.username@ == decimal_spec(n),
    {
        let n = random_in(0, 65535);
        let c = Config::default_for(n);
        assert(c.username@ == decimal_spec(n as nat));
        c
    }
}

/// The configuration `current` with the fields that are given replaced;
/// a fatal failure when no configuration was created.
pub fn update_config(
    current: Option<&Config>,
    data_folder: Option<&str>,
    local_song_folder_path: Option<&str>,
    username: Option<&str>,
) -> (r: Result<Config, Failure>)
    ensures
        match current {
            None => r matches Err(f) && f.is(FailureType::Fatal, "Config not created"@),
            Some(c) => r matches Ok(n) && n.data_folder@ == or_else(data_folder, c.data_folder@)
                && n.local_song_folder_path@ == or_else(
                local_song_folder_path,
                c.local_song_folder_path@,
            ) && n.username@ == or_else(username, c.username@),
        },
{
    let cfg = match current {
        Some(c) => c,
        None => {
            return Err(Failure::new(String::from_str("Config not created"), FailureType::Fatal));
        },
    };
    Ok(
        Config {
            data_folder: match data_folder {
                Some(df) => String::from_str(df),
                None => cfg.data_folder.clone(),
            },
            local_song_folder_path: match local_song_folder_path {
                Some(lsf) => String::from_str(lsf),
                None => cfg.local_song_folder_path.clone(),
            },
            username: match username {
                Some(u) => String::from_str(u),
                None => cfg.username.clone(),
            },
        },
    )
}

impl ServerConfig {
    pub fn new(
        server_address: &str,
        server_name: &str,
        server_cert_path: &str,
        echo_avaliable: bool,
    ) -> (c: ServerConfig)
        ensures
            c.server_address@ == server_address@,
            c.server_name@ == server_name@,
            c.server_cert_path@ == server_cert_path@,
            c.echo_avaliable == echo_avaliable,
    {
        ServerConfig {
            server_address: String::from_str(server_address),
            server_name: String::from_str(server_name),
            server_cert_path: String::from_str(server_cert_path),
            echo_avaliable,
        }
    }
}

/// The server configuration after an update: with a configuration at hand
/// (`current` is `Ok`), the fields that are given replace its own; without
/// one, a new configuration when every field is given, else the failure of
/// reading it.
pub fn update_server_config(
    current: Result<&ServerConfig, Failure>,
    server_address: Option<&str>,
    server_name: Option<&str>,
    server_cert_path: Option<&str>,
    echo_avaliable: Option<bool>,
) -> (r: Result<ServerConfig, Failure>)
    ensures
        match current {
            Ok(c) => r matches Ok(n) && n.server_address@ == or_else(
                server_address,
                c.server_address@,
            ) && n.server_name@ == or_else(server_name, c.server_name@) && n.server_cert_path@
                == or_else(server_cert_path, c.server_cert_path@) && n.echo_avaliable == (
            match echo_avaliable {
                Some(b) => b,
                None => c.echo_avaliable,
            }),
            Err(e) => if server_address is Some && server_name is Some && server_cert_path is Some
                && echo_avaliable is Some {
                r matches Ok(n) && n.server_address@ == server_address->0@ && n.server_name@
                    == server_name->0@ && n.server_cert_path@ == server_cert_path->0@
                    && n.echo_avaliable == echo_avaliable->0
            } else {
                r == Err::<ServerConfig, Failure>(e)
            },
        },
{
    match current {
        Err(e) => {
            match (server_address, server_name, server_cert_path, echo_avaliable) {
                (Some(a), Some(n), Some(p), Some(b)) => Ok(ServerConfig::new(a, n, p, b)),
                _ => Err(e),
            }
        },
        Ok(cfg) => Ok(
            ServerConfig {
                server_address: match server_address {
                    Some(a) => String::from_str(a),
                    None => cfg.server_address.clone(),
                },
                server_name: match server_name {
                    Some(n) => String::from_str(n),
                    None => cfg.server_name.clone(),
                },
                server_cert_path: match server_cert_path {
                    Some(p) => String::from_str(p),
                    None => cfg.server_cert_path.clone(),
                },
                echo_avaliable: match echo_avaliable {
                    Some(b) => b,
                    None => cfg.echo_avaliable,
                },
            },
        ),
    }
}

/// A field that is given replaces the old value, and a field that is not
/// given keeps it.
pub proof fn lemma_given_fields_replace(o: Option<&str>, d: Seq<char>)
    ensures
        o matches Some(x) ==> or_else(o, d) == x@,
        o is None ==> or_else(o, d) == d,
{
}

} // verus!
