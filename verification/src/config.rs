//! The configuration of a deployment: where the host listens, which upstream
//! server the sessions are about, and how long a session may take.

use crate::bytes::{number_of, parse_number, str_eq};
use std::str::FromStr;
use vstd::prelude::*;
use vstd::string::StringSliceAdditionalSpecFns;

verus! {

/// The port of an `https` URI that names none.
pub const HTTPS_PORT: u16 = 443;

/// Port on which the host accepts sessions, unless the environment names one.
pub const DEFAULT_WS_PORT: u16 = 9816;

/// Port of the local proxy, unless the environment names one.
pub const DEFAULT_PROXY_PORT: u16 = 55688;

/// Longest time that a session may take, unless the environment names one.
pub const DEFAULT_SESSION_TIMEOUT_SECS: u64 = 120;

/// What `http::Uri` makes of `text`: nothing if `text` is no URI, else the
/// scheme, the host and the port, as far as the URI has them.
pub uninterp spec fn uri_parts(text: Seq<char>) -> Option<
    (Option<Seq<char>>, Option<Seq<char>>, Option<u16>),
>;

pub open spec fn text_view(text: Option<String>) -> Option<Seq<char>> {
    match text {
        Some(t) => Some(t@),
        None => None,
    }
}

/// Parses `text` with `http::Uri::from_str` and reads the result with
/// `scheme_str`, `host` and `port_u16`. The parts are a function of the text.
#[verifier::external_body]
fn parse_uri(text: &str) -> (r: Option<(Option<String>, Option<String>, Option<u16>)>)
    ensures
        match r {
            Some((scheme, host, port)) => uri_parts(text@) == Some(
                (text_view(scheme), text_view(host), port),
            ),
            None => uri_parts(text@) is None,
        },
{
    match http::Uri::from_str(text) {
        Ok(uri) => Some(
            (uri.scheme_str().map(str::to_owned), uri.host().map(str::to_owned), uri.port_u16()),
        ),
        Err(_) => None,
    }
}

/// The URI of the upstream server, with the parts that a session reads.
#[derive(Debug)]
pub struct ServerUri {
    pub text: String,
    pub scheme: Option<String>,
    pub host: Option<String>,
    pub port: Option<u16>,
}

impl ServerUri {
    /// The parts are those of the text.
    pub open spec fn wf(&self) -> bool {
        uri_parts(self.text@) == Some((text_view(self.scheme), text_view(self.host), self.port))
    }

    /// Parses `text` as a URI; `None` if it is none.
    pub fn parse(text: &str) -> (r: Option<ServerUri>)
        ensures
            match r {
                Some(uri) => uri.wf() && uri.text@ == text@,
                None => uri_parts(text@) is None,
            },
    {
        match parse_uri(text) {
            Some((scheme, host, port)) => Some(
                ServerUri { text: text.to_owned(), scheme, host, port },
            ),
            None => None,
        }
    }

    /// The scheme is `https`.
    pub open spec fn is_https(&self) -> bool {
        self.scheme matches Some(scheme) && scheme@ == "https"@
    }

    pub fn uses_https(&self) -> (r: bool)
        ensures
            r == self.is_https(),
    {
        match &self.scheme {
            Some(scheme) => str_eq(scheme.as_str(), "https"),
            None => false,
        }
    }

    /// The port that the URI names, or that of `https`.
    pub fn port_or_default(&self) -> (port: u16)
        ensures
            port == match self.port {
                Some(p) => p,
                None => HTTPS_PORT,
            },
    {
        match self.port {
            Some(p) => p,
            None => HTTPS_PORT,
        }
    }

    /// The name that a verifier expects the proof to be about: the host, or
    /// `unknown` for a URI without one.
    pub fn expected_domain(&self) -> (domain: String)
        ensures
            domain@ == match self.host {
                Some(host) => host@,
                None => "unknown"@,
            },
    {
        match &self.host {
            Some(host) => host.clone(),
            None => "unknown".to_owned(),
        }
    }
}

/// The configuration of a deployment. It is read once, when the process
/// starts, and copied into each session.
#[derive(Debug)]
pub struct Config {
    /// Address on which the host accepts sessions.
    pub ws_host: String,
    /// Port on which the host accepts sessions.
    pub ws_port: u16,
    /// The upstream server whose responses are proved.
    pub server_uri: ServerUri,
    /// Port of the local proxy to the upstream server.
    pub wstcp_proxy_port: u16,
    /// Longest time that a session may take, in seconds.
    pub session_timeout_secs: u64,
}

/// The value of a setting: the number that `text` spells if there is a text
/// and it spells one of at most `limit`, else `default`.
pub open spec fn setting(text: Option<&str>, limit: u64, default: u64) -> u64 {
    match text {
        Some(t) => match number_of(t.spec_bytes(), limit) {
            Some(n) => n,
            None => default,
        },
        None => default,
    }
}

fn read_setting(text: Option<&str>, limit: u64, default: u64) -> (value: u64)
    requires
        default <= limit,
    ensures
        value == setting(text, limit, default),
        value <= limit,
{
    match text {
        Some(t) => match parse_number(t, limit) {
            Some(n) => n,
            None => default,
        },
        None => default,
    }
}

/// The upstream server of a deployment that names none.
pub open spec fn default_upstream() -> Seq<char> {
    "https://mock-bank:3002/api/account"@
}

impl Config {
    /// The configuration from the settings of the environment, each of which
    /// may be missing. A port or a timeout that is missing or is no number in
    /// range takes its default; a missing upstream URI takes the default
    /// one. There is no configuration if the upstream URI is none.
    pub fn from_env(
        ws_port: Option<&str>,
        proxy_port: Option<&str>,
        session_timeout: Option<&str>,
        upstream: Option<&str>,
    ) -> (r: Option<Config>)
        ensures
            match r {
                Some(config) => {
                    &&& config.ws_host@ == "0.0.0.0"@
                    &&& config.ws_port == setting(ws_port, 65535, DEFAULT_WS_PORT as u64)
                    &&& config.wstcp_proxy_port == setting(
                        proxy_port,
                        65535,
                        DEFAULT_PROXY_PORT as u64,
                    )
                    &&& config.session_timeout_secs == setting(
                        session_timeout,
                        u64::MAX,
                        DEFAULT_SESSION_TIMEOUT_SECS,
                    )
                    &&& config.server_uri.wf()
                    &&& config.server_uri.text@ == match upstream {
                        Some(u) => u@,
                        None => default_upstream(),
                    }
                },
                None => uri_parts(
                    match upstream {
                        Some(u) => u@,
                        None => default_upstream(),
                    },
                ) is None,
            },
    {
        let url: &str = match upstream {
            Some(u) => u,
            None => "https://mock-bank:3002/api/account",
        };
        let server_uri = match ServerUri::parse(url) {
            Some(uri) => uri,
            None => {
                return None;
            },
        };
        Some(
            Config {
                ws_host: "0.0.0.0".to_owned(),
                ws_port: read_setting(ws_port, 65535, DEFAULT_WS_PORT as u64) as u16,
                server_uri,
                wstcp_proxy_port: read_setting(proxy_port, 65535, DEFAULT_PROXY_PORT as u64) as u16,
                session_timeout_secs: read_setting(
                    session_timeout,
                    u64::MAX,
                    DEFAULT_SESSION_TIMEOUT_SECS,
                ),
            },
        )
    }

    /// The host of the upstream server.
    pub fn server_domain(&self) -> (domain: String)
        requires
            self.server_uri.host is Some,
        ensures
            Some(domain@) == text_view(self.server_uri.host),
    {
        match &self.server_uri.host {
            Some(host) => host.clone(),
            None => String::new(),
        }
    }

    /// The port of the upstream server: 443 unless the URI names one.
    pub fn server_port(&self) -> (port: u16)
        ensures
            port == match self.server_uri.port {
                Some(p) => p,
                None => HTTPS_PORT,
            },
    {
        self.server_uri.port_or_default()
    }
}

} // verus!
