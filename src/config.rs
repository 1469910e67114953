//! Process settings: where the hub listens and where an agent finds it.

use vstd::prelude::*;
use crate::text::{is_numeral, numeral_value, parse_decimal};

verus! {

pub struct ConnectOptions {
    pub port: u16,
}

pub struct HubProps {
    /// Where an agent posts its answers; the correlation id is appended.
    pub proxy_response_uri: String,
    /// Where an agent opens its tunnel.
    pub ws_uri: String,
}

pub struct Options {
    pub host: String,
    pub hub: HubProps,
    pub http_server: ConnectOptions,
}

pub const DEFAULT_PORT: u16 = 8890;

/// The port that a setting names: its value if it is a decimal numeral that
/// fits a port, else the default.
pub open spec fn port_setting(p: Option<String>) -> u16 {
    match p {
        Some(s) => if is_numeral(s@) && numeral_value(s@) <= u16::MAX {
            numeral_value(s@) as u16
        } else {
            DEFAULT_PORT
        },
        None => DEFAULT_PORT,
    }
}

/// A text setting, or `default` where it is absent.
pub open spec fn text_setting(s: Option<String>, default: Seq<char>) -> Seq<char> {
    match s {
        Some(v) => v@,
        None => default,
    }
}

fn text_or(s: Option<String>, default: &str) -> (r: String)
    ensures
        r@ == text_setting(s, default@),
{
    match s {
        Some(v) => v,
        None => String::from_str(default),
    }
}

impl Options {
    /// Settings from the values given, each absent one taking its default.
    pub fn from_settings(
        port: Option<String>,
        host: Option<String>,
        ws_uri: Option<String>,
        proxy_response_uri: Option<String>,
    ) -> (r: Options)
        ensures
            r.http_server.port == port_setting(port),
            r.host@ == text_setting(host, "127.0.0.1"@),
            r.hub.ws_uri@ == text_setting(ws_uri, "ws://127.0.0.1:8890/ws"@),
            r.hub.proxy_response_uri@ == text_setting(
                proxy_response_uri,
                "http://127.0.0.1:8890/api/proxy/response"@,
            ),
    {
        let port_value: u16 = match &port {
            Some(p) => match parse_decimal(p.as_str(), 65535) {
                Some(n) => n as u16,
                None => DEFAULT_PORT,
            },
            None => DEFAULT_PORT,
        };
        Options {
            host: text_or(host, "127.0.0.1"),
            hub: HubProps {
                proxy_response_uri: text_or(
                    proxy_response_uri,
                    "http://127.0.0.1:8890/api/proxy/response",
                ),
                ws_uri: text_or(ws_uri, "ws://127.0.0.1:8890/ws"),
            },
            http_server: ConnectOptions { port: port_value },
        }
    }
}

} // verus!
