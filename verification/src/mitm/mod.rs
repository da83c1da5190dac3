//! The local proxy through which a page loads on macOS.
//!
//! A page loads through a proxy on the local machine that opens its tunnels with
//! certificates of its own making. [`handler`] decides what happens to a request,
//! [`learned`] which hosts are left alone, [`ca`] where the root certificate
//! lies, and [`trust`] how it comes to be trusted.
use vstd::prelude::*;
use crate::text;

pub mod ca;
pub mod handler;
pub mod learned;
pub mod trust;

verus! {

/// Why the proxy could not be set up.
#[derive(Debug)]
pub enum MitmError {
    Ca(String),
    Bind(String),
    Build(String),
    Trust(String),
}

impl MitmError {
    /// What the error says.
    pub fn message(&self) -> (r: String)
        ensures
            r@ == match *self {
                MitmError::Ca(words) => "CA error: "@ + words@,
                MitmError::Bind(words) => "proxy bind failed: "@ + words@,
                MitmError::Build(words) => "proxy build failed: "@ + words@,
                MitmError::Trust(words) => "CA trust error: "@ + words@,
            },
    {
        match self {
            MitmError::Ca(words) => {
                let mut out: String = "CA error: ".to_owned();
                out.append(words.as_str());
                out
            },
            MitmError::Bind(words) => {
                let mut out: String = "proxy bind failed: ".to_owned();
                out.append(words.as_str());
                out
            },
            MitmError::Build(words) => {
                let mut out: String = "proxy build failed: ".to_owned();
                out.append(words.as_str());
                out
            },
            MitmError::Trust(words) => {
                let mut out: String = "CA trust error: ".to_owned();
                out.append(words.as_str());
                out
            },
        }
    }
}

/// The proxy of the process: the port it listens on, once it does.
pub struct ProxyState {
    pub port: Option<u16>,
}

impl ProxyState {
    /// No proxy yet.
    pub fn new() -> (r: Self)
        ensures
            r.port is None,
    {
        ProxyState { port: None }
    }
}

/// Note the outcome of launching the proxy. The first port stays: a launch after
/// it changes nothing and is answered with it.
pub fn start(state: &mut ProxyState, launched: Result<u16, MitmError>) -> (r: Result<u16, MitmError>)
    ensures
        match old(state).port {
            Some(port) => r == Ok::<u16, MitmError>(port) && *final(state) == *old(state),
            None => r == launched && final(state).port == match launched {
                Ok(port) => Some(port),
                Err(_) => None,
            },
        },
{
    if let Some(port) = state.port {
        return Ok(port);
    }
    match launched {
        Ok(port) => {
            state.port = Some(port);
            Ok(port)
        },
        Err(e) => Err(e),
    }
}

/// The port that the proxy listens on, once it does.
pub fn proxy_port(state: &ProxyState) -> (r: Option<u16>)
    ensures
        r == state.port,
{
    state.port
}

/// The URL of the proxy that a page is told to use, once there is one.
pub fn proxy_url(state: &ProxyState) -> (r: Option<String>)
    ensures
        text::opt(r) == match state.port {
            Some(port) => Some("http://127.0.0.1:"@ + text::decimal(port as nat)),
            None => None,
        },
{
    match proxy_port(state) {
        Some(port) => {
            let mut out: String = "http://127.0.0.1:".to_owned();
            let digits = text::number(port as usize);
            out.append(digits.as_str());
            Some(out)
        },
        None => None,
    }
}

/// Go on towards a trusted root certificate; see [`trust`] for the way.
pub fn ensure_ca_trusted(flow: trust::TrustFlow, event: trust::TrustEvent) -> (r: trust::TrustFlow)
    ensures
        trust::follows(flow, event, r),
{
    trust::step(flow, event)
}

/// What the user is told when the program ends because its certificate is not
/// trusted.
pub fn show_trust_quit_alert(reason: &str) -> (r: String)
    ensures
        r@ == "Pouch requires a trusted root certificate to intercept HTTPS traffic. It will now exit. Relaunch Pouch to try again.\n\nDetail: "@
            + reason@,
{
    trust::show_quit_explanation(reason)
}

} // verus!
