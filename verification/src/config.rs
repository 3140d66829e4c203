//! Identity and network parameters for one logical client connection, and
//! the listen configuration of the embedded broker.

use crate::text::{chars_to_string, dec_rep, push_decimal_u64, string_to_chars};
use crate::json::{sp_u64, tail, x_u64};
use vstd::prelude::*;

verus! {

/// Identity and network parameters for one logical connection to a broker.
/// Immutable once a connection is established.
pub struct ClientConfig {
    pub client_id: String,
    pub broker_host: String,
    pub broker_port: u16,
    pub username: Option<String>,
    pub password: Option<String>,
    pub keep_alive: u16,
    pub clean_session: bool,
}

impl ClientConfig {
    /// A configuration without credentials and with a clean session.
    pub fn new(client_id: String, broker_host: String, broker_port: u16, keep_alive: u16) -> (c:
        ClientConfig)
        ensures
            c.client_id@ == client_id@,
            c.broker_host@ == broker_host@,
            c.broker_port == broker_port,
            c.username is None,
            c.password is None,
            c.keep_alive == keep_alive,
            c.clean_session,
    {
        ClientConfig {
            client_id,
            broker_host,
            broker_port,
            username: None,
            password: None,
            keep_alive,
            clean_session: true,
        }
    }
}

/// Listen parameters for the embedded broker.
pub struct MqttConfig {
    pub host: String,
    pub port: u16,
    pub max_connections: usize,
    pub session_timeout: u64,
    pub keep_alive: u16,
    pub persistence: bool,
    pub log_level: String,
}

impl MqttConfig {
    /// The listen address and port, with the remaining fields at their
    /// default values.
    pub fn new(host: String, port: u16) -> (c: MqttConfig)
        ensures
            c.host@ == host@,
            c.port == port,
            c.max_connections == 1000,
            c.session_timeout == 300,
            c.keep_alive == 60,
            c.persistence,
            c.log_level@ == "info"@,
    {
        MqttConfig {
            host,
            port,
            max_connections: 1000,
            session_timeout: 300,
            keep_alive: 60,
            persistence: true,
            log_level: String::from_str("info"),
        }
    }

    /// The listen address as `host:port`.
    pub fn listen_addr(&self) -> (r: String)
        ensures
            r@ == self.host@ + seq![':'] + dec_rep(self.port as nat),
    {
        let mut chars = string_to_chars(self.host.as_str());
        chars.push(':');
        push_decimal_u64(self.port as u64, &mut chars);
        let r = chars_to_string(&chars);
        proof {
            assert(r@ =~= self.host@ + seq![':'] + dec_rep(self.port as nat));
        }
        r
    }
}

impl Default for MqttConfig {
    /// Listens on every interface at the standard port.
    fn default() -> (c: MqttConfig)
        ensures
            c.host@ == "0.0.0.0"@,
            c.port == 1883,
            c.max_connections == 1000,
            c.session_timeout == 300,
            c.keep_alive == 60,
            c.persistence,
            c.log_level@ == "info"@,
    {
        MqttConfig::new(String::from_str("0.0.0.0"), 1883)
    }
}

/// The value a configuration text names, where the whole text is one
/// decimal number in range; nothing otherwise.
pub open spec fn parsed_u16(t: Seq<char>) -> Option<u16> {
    match sp_u64(t) {
        Some((v, rest)) => if rest.len() == 0 && v <= u16::MAX {
            Some(v as u16)
        } else {
            None
        },
        None => None,
    }
}

/// Reads a configuration value as a number, substituting the default on
/// anything malformed or out of range; malformed input is never fatal.
pub fn parse_u16_or(text: &str, default: u16) -> (r: u16)
    ensures
        parsed_u16(text@) matches Some(v) ==> r == v,
        parsed_u16(text@) is None ==> r == default,
{
    let s = string_to_chars(text);
    proof {
        assert(tail(s@, 0) =~= text@);
    }
    match x_u64(&s, 0) {
        None => default,
        Some((v, j)) => {
            if j == s.len() && v <= 65535 {
                proof {
                    assert(tail(s@, j as int).len() == 0);
                }
                v as u16
            } else {
                proof {
                    if j != s.len() {
                        assert(tail(s@, j as int).len() > 0);
                    }
                }
                default
            }
        },
    }
}

} // verus!
