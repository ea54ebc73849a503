//! The desktop shell's decisions: what its in-process servers report,
//! when to start or stop the LAN viewer server, which embedded
//! presentation file a request asks for, and where a presentation window
//! points.

use vstd::prelude::*;
use vstd::utf8::encode_utf8;

use crate::text::{chars_of, extend_from_str, has_str_at, string_from_chars, string_from_range};
use crate::urls::{decimal, form_encode, form_encoded, push_decimal};

verus! {

/// What the desktop app's in-process servers look like right now.
#[derive(Debug, PartialEq)]
pub struct ServerInfo {
    /// hexend's full API, reachable from this machine only.
    pub server_url: String,
    /// The read-only viewer server, while LAN sharing is on.
    pub lan_url: Option<String>,
    pub version: String,
}

pub open spec fn http_url(host_and_port: Seq<char>) -> Seq<char> {
    "http://"@ + host_and_port
}

/// The LAN viewer's URL: this machine's LAN address (`localhost` when it
/// has none) and the viewer's port.
pub open spec fn lan_url_of(lan_ip: Option<Seq<char>>, port: u16) -> Seq<char> {
    "http://"@ + match lan_ip {
        Some(ip) => ip,
        None => "localhost"@,
    } + ":"@ + decimal(port as nat)
}

/// The servers' details: the local server at `local_addr` (`host:port`),
/// the LAN viewer on `lan_port` while it runs.
pub fn server_info(local_addr: &str, lan_port: Option<u16>, lan_ip: Option<String>, version: &str) -> (res:
    ServerInfo)
    ensures
        res.server_url@ == http_url(local_addr@),
        match lan_port {
            Some(port) => res.lan_url matches Some(u) && u@ == lan_url_of(
                match lan_ip {
                    Some(ip) => Some(ip@),
                    None => None,
                },
                port,
            ),
            None => res.lan_url is None,
        },
        res.version@ == version@,
{
    let mut url: Vec<char> = Vec::new();
    extend_from_str(&mut url, "http://");
    extend_from_str(&mut url, local_addr);
    let lan_url = match lan_port {
        Some(port) => {
            let mut u: Vec<char> = Vec::new();
            extend_from_str(&mut u, "http://");
            match &lan_ip {
                Some(ip) => extend_from_str(&mut u, ip.as_str()),
                None => extend_from_str(&mut u, "localhost"),
            }
            extend_from_str(&mut u, ":");
            push_decimal(&mut u, port as u64);
            Some(string_from_chars(u.as_slice()))
        },
        None => None,
    };
    ServerInfo {
        server_url: string_from_chars(url.as_slice()),
        lan_url,
        version: string_from_chars(chars_of(version).as_slice()),
    }
}

/// What turning LAN sharing on or off does to the viewer server.
#[derive(Debug, PartialEq, Eq, Clone, Copy, Structural)]
pub enum LanChange {
    /// Already as asked: leave it running.
    Keep,
    /// Running and asked off: stop it.
    Stop,
    /// Not running and asked on: start it.
    Start,
    /// Not running and asked off: nothing to do.
    Nothing,
}

/// Turning LAN sharing to `enabled` while the viewer server is `running`
/// or not: idempotent both ways.
pub fn lan_change(enabled: bool, running: bool) -> (res: LanChange)
    ensures
        res == (if enabled && running {
            LanChange::Keep
        } else if !enabled && running {
            LanChange::Stop
        } else if enabled {
            LanChange::Start
        } else {
            LanChange::Nothing
        }),
{
    match (enabled, running) {
        (true, true) => LanChange::Keep,
        (false, true) => LanChange::Stop,
        (true, false) => LanChange::Start,
        (false, false) => LanChange::Nothing,
    }
}

pub open spec fn presentation_prefix() -> Seq<char> {
    "/presentation"@
}

/// `s` with every leading `/` dropped.
pub open spec fn without_leading_slashes(s: Seq<char>) -> Seq<char>
    decreases s.len(),
{
    if s.len() > 0 && s[0] == '/' {
        without_leading_slashes(s.drop_first())
    } else {
        s
    }
}

/// The embedded presentation file a request path asks for: what follows
/// `/presentation` (nothing when the path does not start with it), without
/// leading slashes; `index.html` when that is empty.
pub open spec fn presentation_asset_of(uri_path: Seq<char>) -> Seq<char> {
    let p = presentation_prefix();
    let rest = if uri_path.len() >= p.len() && uri_path.take(p.len() as int) == p {
        uri_path.skip(p.len() as int)
    } else {
        Seq::empty()
    };
    let trimmed = without_leading_slashes(rest);
    if trimmed.len() == 0 {
        "index.html"@
    } else {
        trimmed
    }
}

/// The embedded presentation file that `uri_path` asks for.
pub fn presentation_asset(uri_path: &str) -> (res: String)
    ensures
        res@ == presentation_asset_of(uri_path@),
{
    let v = chars_of(uri_path);
    let n = v.len();
    let prefixed = has_str_at(v.as_slice(), 0, "/presentation");
    proof {
        reveal_strlit("/presentation");
        assert(presentation_prefix().len() == 13);
        if n >= 13 {
            assert(v@.subrange(0, 13) =~= v@.take(13));
        }
    }
    let mut start: usize = if prefixed {
        13
    } else {
        n
    };
    proof {
        if prefixed {
            assert(v@.subrange(0, 13) == presentation_prefix());
            assert(v@.take(13) == presentation_prefix());
        }
        let rest = if n >= 13 && v@.take(13) == presentation_prefix() {
            v@.skip(13)
        } else {
            Seq::<char>::empty()
        };
        assert(rest =~= v@.subrange(start as int, n as int));
    }
    let ghost rest = v@.subrange(start as int, n as int);
    while start < n && v[start] == '/'
        invariant
            start <= n == v@.len(),
            without_leading_slashes(rest) == without_leading_slashes(v@.subrange(start as int, n as int)),
        decreases n - start,
    {
        proof {
            assert(v@.subrange(start as int, n as int).drop_first() =~= v@.subrange(start + 1, n as int));
        }
        start = start + 1;
    }
    proof {
        assert(without_leading_slashes(v@.subrange(start as int, n as int)) == v@.subrange(start as int, n as int));
    }
    if start == n {
        let mut out: Vec<char> = Vec::new();
        extend_from_str(&mut out, "index.html");
        string_from_chars(out.as_slice())
    } else {
        string_from_range(v.as_slice(), start, n)
    }
}

pub open spec fn presentation_window_url_of(server: Seq<char>, path: Seq<char>) -> Seq<char> {
    server + "/presentation/?server="@ + form_encoded(encode_utf8(server)) + "&path="@
        + form_encoded(encode_utf8(path))
}

/// The page a presentation window shows for project `path`, served by
/// `server`: its query pairs form-encoded.
pub fn presentation_window_url(server: &str, path: &str) -> (res: String)
    ensures
        res@ == presentation_window_url_of(server@, path@),
{
    let mut out: Vec<char> = Vec::new();
    extend_from_str(&mut out, server);
    extend_from_str(&mut out, "/presentation/?server=");
    extend_from_str(&mut out, form_encode(server).as_str());
    extend_from_str(&mut out, "&path=");
    extend_from_str(&mut out, form_encode(path).as_str());
    string_from_chars(out.as_slice())
}

/// The label of the `n`th presentation window.
pub fn presentation_window_label(n: u32) -> (res: String)
    ensures
        res@ == "presentation-"@ + decimal(n as nat),
{
    let mut out: Vec<char> = Vec::new();
    extend_from_str(&mut out, "presentation-");
    push_decimal(&mut out, n as u64);
    string_from_chars(out.as_slice())
}

} // verus!
