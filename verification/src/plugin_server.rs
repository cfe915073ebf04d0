//! The in-process MCP server's control: where it binds, whether it falls
//! back to a free port, its endpoint URL, and the record of whether it runs.
//! Spawning the server thread and stopping it are left to the host; this
//! module decides what to do and records the outcome.
use vstd::prelude::*;

use crate::text::{
    contains, contains_chars, chars_of, decimal, nonblank_trim, opt_str_view, push_decimal_str,
    push_str, trimmed_nonblank,
};

verus! {

/// The address the server binds when none is given.
pub const DEFAULT_BIND_ADDRESS: &'static str = "127.0.0.1:50051";

/// The address the auto-started server binds when the default is taken:
/// any free port on the loopback interface.
pub const FALLBACK_BIND_ADDRESS: &'static str = "127.0.0.1:0";

/// Names what `str::to_lowercase` returns: the Unicode lower-case mapping
/// of the text, which depends on the text alone.
pub uninterp spec fn unicode_lowercase(s: Seq<char>) -> Seq<char>;

/// `str::to_lowercase`: the Unicode lower-case form of the text. The
/// mapping itself (Unicode's tables) is not stated here, only that the
/// result is a function of the text.
#[verifier::external_body]
fn to_lowercase(s: &str) -> (res: String)
    ensures
        res@ == unicode_lowercase(s@),
{
    s.to_lowercase()
}

/// A lower-cased error text says that the address is already taken.
pub open spec fn mentions_addr_in_use(lower: Seq<char>) -> bool {
    ||| contains(lower, "address already in use"@)
    ||| contains(lower, "address in use"@)
    ||| contains(lower, "eaddrinuse"@)
    ||| contains(lower, "10048"@)
}

/// Whether a lower-cased error text says that the address is taken.
pub fn lowered_mentions_addr_in_use(lower: &str) -> (r: bool)
    ensures
        r == mentions_addr_in_use(lower@),
{
    let l = chars_of(lower);
    contains_chars(&l, &chars_of("address already in use")) || contains_chars(
        &l,
        &chars_of("address in use"),
    ) || contains_chars(&l, &chars_of("eaddrinuse")) || contains_chars(&l, &chars_of("10048"))
}

/// Whether a bind error says that the address is already in use, in any
/// letter case.
pub fn is_addr_in_use(error: &str) -> (r: bool)
    ensures
        r == mentions_addr_in_use(unicode_lowercase(error@)),
{
    let lower = to_lowercase(error);
    lowered_mentions_addr_in_use(lower.as_str())
}

/// Whether a failed bind is retried on a free port: only for a server that
/// may fall back, and only when the address was taken.
pub fn should_fall_back(fallback_on_busy: bool, error: &str) -> (r: bool)
    ensures
        r == (fallback_on_busy && mentions_addr_in_use(unicode_lowercase(error@))),
{
    fallback_on_busy && is_addr_in_use(error)
}

/// The address to bind: the given one, trimmed, unless it is missing or
/// blank, else the default.
pub open spec fn spec_bind_address(bind: Option<Seq<char>>) -> Seq<char> {
    match nonblank_trim(bind) {
        Some(b) => b,
        None => DEFAULT_BIND_ADDRESS@,
    }
}

/// The address to bind.
pub fn resolve_bind_address(bind: Option<&str>) -> (res: String)
    ensures
        res@ == spec_bind_address(opt_str_view(bind)),
{
    match trimmed_nonblank(bind) {
        Some(b) => b,
        None => DEFAULT_BIND_ADDRESS.to_owned(),
    }
}

/// The endpoint of a server listening on `host` and `port`.
pub open spec fn spec_mcp_url(host: Seq<char>, port: u16) -> Seq<char> {
    "http://"@ + host + ":"@ + decimal(port as nat) + "/mcp"@
}

/// `http://{host}:{port}/mcp`.
pub fn mcp_url(host: &str, port: u16) -> (res: String)
    ensures
        res@ == spec_mcp_url(host@, port),
{
    let mut s = String::new();
    push_str(&mut s, "http://");
    push_str(&mut s, host);
    push_str(&mut s, ":");
    push_decimal_str(&mut s, port as usize);
    push_str(&mut s, "/mcp");
    s
}

/// What a running server reports.
#[derive(Debug, Clone)]
pub struct PluginServerStatus {
    pub mcp_url: String,
}

impl PluginServerStatus {
    /// A copy of the status.
    pub fn snapshot(&self) -> (res: Self)
        ensures
            res == *self,
    {
        PluginServerStatus { mcp_url: self.mcp_url.clone() }
    }
}

/// What a start request asks of the host.
pub enum StartAction {
    /// The server already runs; this is its status.
    AlreadyRunning(PluginServerStatus),
    /// Spawn the server on this address, retrying on a free port when the
    /// address is taken and `fallback_on_busy` holds.
    Spawn { bind_address: String, fallback_on_busy: bool },
}

/// The record of the in-process server: its status while it runs.
pub struct PluginServerControl {
    running: Option<PluginServerStatus>,
}

impl View for PluginServerControl {
    type V = Option<PluginServerStatus>;

    closed spec fn view(&self) -> Option<PluginServerStatus> {
        self.running
    }
}

impl PluginServerControl {
    /// No server runs.
    pub fn new() -> (res: Self)
        ensures
            res@ is None,
    {
        PluginServerControl { running: None }
    }

    /// A start on request (`!mcp serve`): the running server's status when
    /// there is one, else a spawn on the given address or the default,
    /// without falling back.
    pub fn start(&self, bind_address: Option<&str>) -> (res: StartAction)
        ensures
            match self@ {
                Some(st) => res matches StartAction::AlreadyRunning(s) && s == st,
                None => {
                    &&& res matches StartAction::Spawn { bind_address: b, fallback_on_busy: f }
                    &&& b@ == spec_bind_address(opt_str_view(bind_address))
                    &&& !f
                },
            },
    {
        let bind = resolve_bind_address(bind_address);
        match &self.running {
            Some(status) => StartAction::AlreadyRunning(status.snapshot()),
            None => StartAction::Spawn { bind_address: bind, fallback_on_busy: false },
        }
    }

    /// The start when the extension loads: the running server's status when
    /// there is one, else a spawn on the default address that falls back
    /// to a free port when the default is taken.
    pub fn auto_start(&self) -> (res: StartAction)
        ensures
            match self@ {
                Some(st) => res matches StartAction::AlreadyRunning(s) && s == st,
                None => {
                    &&& res matches StartAction::Spawn { bind_address: b, fallback_on_busy: f }
                    &&& b@ == DEFAULT_BIND_ADDRESS@
                    &&& f
                },
            },
    {
        match &self.running {
            Some(status) => StartAction::AlreadyRunning(status.snapshot()),
            None => StartAction::Spawn {
                bind_address: DEFAULT_BIND_ADDRESS.to_owned(),
                fallback_on_busy: true,
            },
        }
    }

    /// Records a server that the host has started.
    pub fn started(&mut self, status: PluginServerStatus)
        requires
            old(self)@ is None,
        ensures
            final(self)@ == Some(status),
    {
        self.running = Some(status);
    }

    /// The running server's status, if one runs.
    pub fn status(&self) -> (res: Option<PluginServerStatus>)
        ensures
            res == self@,
    {
        match &self.running {
            Some(status) => Some(status.snapshot()),
            None => None,
        }
    }

    /// Records that the server stops; returns the status it had, if it ran.
    pub fn stop(&mut self) -> (res: Option<PluginServerStatus>)
        ensures
            res == old(self)@,
            final(self)@ is None,
    {
        let prev = match &self.running {
            Some(status) => Some(status.snapshot()),
            None => None,
        };
        self.running = None;
        prev
    }
}

} // verus!
