//! URLs the apps hand each other: percent-encoded query values, the
//! presentation and editor links for a project, the live-session socket
//! and the image endpoints of a server.

use vstd::prelude::*;
use vstd::utf8::encode_utf8;

use crate::text::{chars_of, extend_from_range, extend_from_str, string_from_chars};

verus! {

/// The upper-case hex digit for `n` (< 16).
pub open spec fn hex_digit(n: u8) -> char {
    if n < 10 {
        ('0' as u8 + n) as char
    } else {
        ('A' as u8 + (n - 10)) as char
    }
}

/// `b` as `%XX`.
pub open spec fn percent_escape(b: u8) -> Seq<char> {
    seq!['%', hex_digit(b / 16), hex_digit(b % 16)]
}

pub open spec fn is_ascii_alphanumeric(b: u8) -> bool {
    (0x30 <= b <= 0x39) || (0x41 <= b <= 0x5a) || (0x61 <= b <= 0x7a)
}

/// Bytes `encodeURIComponent` leaves alone: letters, digits and `-_.!~*'()`.
pub open spec fn is_uri_component_safe(b: u8) -> bool {
    is_ascii_alphanumeric(b) || b == 0x2d || b == 0x5f || b == 0x2e || b == 0x21 || b == 0x7e || b
        == 0x2a || b == 0x27 || b == 0x28 || b == 0x29
}

/// Bytes the unreserved set of RFC 3986 leaves alone: letters, digits and `-_.~`.
pub open spec fn is_unreserved(b: u8) -> bool {
    is_ascii_alphanumeric(b) || b == 0x2d || b == 0x5f || b == 0x2e || b == 0x7e
}

/// Each byte kept as its character when `keep` says so, else as `%XX`.
pub open spec fn percent_encoded(bytes: Seq<u8>, keep: spec_fn(u8) -> bool) -> Seq<char>
    decreases bytes.len(),
{
    if bytes.len() == 0 {
        Seq::empty()
    } else {
        percent_encoded(bytes.drop_last(), keep) + if keep(bytes.last()) {
            seq![bytes.last() as char]
        } else {
            percent_escape(bytes.last())
        }
    }
}

fn hex_digit_exec(n: u8) -> (c: char)
    requires
        n < 16,
    ensures
        c == hex_digit(n),
{
    if n < 10 {
        (('0' as u8) + n) as char
    } else {
        (('A' as u8) + (n - 10)) as char
    }
}

fn is_uri_component_safe_exec(b: u8) -> (res: bool)
    ensures
        res == is_uri_component_safe(b),
{
    (0x30 <= b && b <= 0x39) || (0x41 <= b && b <= 0x5a) || (0x61 <= b && b <= 0x7a) || b == 0x2d
        || b == 0x5f || b == 0x2e || b == 0x21 || b == 0x7e || b == 0x2a || b == 0x27 || b == 0x28
        || b == 0x29
}

fn is_unreserved_exec(b: u8) -> (res: bool)
    ensures
        res == is_unreserved(b),
{
    (0x30 <= b && b <= 0x39) || (0x41 <= b && b <= 0x5a) || (0x61 <= b && b <= 0x7a) || b == 0x2d
        || b == 0x5f || b == 0x2e || b == 0x7e
}

/// Percent-encodes the UTF-8 bytes of `s`, keeping the safe ones (all of
/// `-_.!~*'()` too when `uri_component`, else only `-_.~`).
fn percent_encode(s: &str, uri_component: bool) -> (res: String)
    ensures
        res@ == percent_encoded(
            encode_utf8(s@),
            if uri_component {
                |b: u8| is_uri_component_safe(b)
            } else {
                |b: u8| is_unreserved(b)
            },
        ),
{
    let ghost keep = if uri_component {
        |b: u8| is_uri_component_safe(b)
    } else {
        |b: u8| is_unreserved(b)
    };
    let bytes = s.as_bytes();
    let mut out: Vec<char> = Vec::new();
    let mut i: usize = 0;
    while i < bytes.len()
        invariant
            i <= bytes@.len(),
            bytes@ == encode_utf8(s@),
            keep == (if uri_component {
                |b: u8| is_uri_component_safe(b)
            } else {
                |b: u8| is_unreserved(b)
            }),
            out@ == percent_encoded(bytes@.take(i as int), keep),
        decreases bytes@.len() - i,
    {
        let b = bytes[i];
        proof {
            assert(bytes@.take(i + 1).drop_last() =~= bytes@.take(i as int));
            assert(bytes@.take(i + 1).last() == b);
        }
        let safe = if uri_component {
            is_uri_component_safe_exec(b)
        } else {
            is_unreserved_exec(b)
        };
        if safe {
            out.push(b as char);
        } else {
            out.push('%');
            out.push(hex_digit_exec(b / 16));
            out.push(hex_digit_exec(b % 16));
        }
        proof {
            assert(out@ =~= percent_encoded(bytes@.take(i + 1), keep));
        }
        i = i + 1;
    }
    proof {
        assert(bytes@.take(bytes@.len() as int) =~= bytes@);
    }
    string_from_chars(out.as_slice())
}

/// JavaScript's `encodeURIComponent`: every UTF-8 byte of `s` as `%XX`
/// except ASCII letters, digits and `-_.!~*'()`.
pub fn encode(s: &str) -> (res: String)
    ensures
        res@ == percent_encoded(encode_utf8(s@), |b: u8| is_uri_component_safe(b)),
{
    percent_encode(s, true)
}

/// Percent-encodes every UTF-8 byte of `s` except ASCII letters, digits
/// and `-_.~`.
pub fn encode_unreserved(s: &str) -> (res: String)
    ensures
        res@ == percent_encoded(encode_utf8(s@), |b: u8| is_unreserved(b)),
{
    percent_encode(s, false)
}

/// The presentation page for `path`, as served by `server`.
pub fn presentation_url(server: &str, path: &str) -> (res: String)
    ensures
        res@ == server@ + "/presentation/?server="@ + percent_encoded(
            encode_utf8(server@),
            |b: u8| is_uri_component_safe(b),
        ) + "&path="@ + percent_encoded(encode_utf8(path@), |b: u8| is_uri_component_safe(b)),
{
    let mut out: Vec<char> = Vec::new();
    extend_from_str(&mut out, server);
    extend_from_str(&mut out, "/presentation/?server=");
    extend_from_str(&mut out, encode(server).as_str());
    extend_from_str(&mut out, "&path=");
    extend_from_str(&mut out, encode(path).as_str());
    string_from_chars(out.as_slice())
}

/// Bytes `application/x-www-form-urlencoded` leaves alone: letters,
/// digits and `*-._`.
pub open spec fn is_form_safe(b: u8) -> bool {
    is_ascii_alphanumeric(b) || b == 0x2a || b == 0x2d || b == 0x2e || b == 0x5f
}

/// A query value as `application/x-www-form-urlencoded` writes it: space
/// as `+`, safe bytes as themselves, any other byte as `%XX`.
pub open spec fn form_encoded(bytes: Seq<u8>) -> Seq<char>
    decreases bytes.len(),
{
    if bytes.len() == 0 {
        Seq::empty()
    } else {
        form_encoded(bytes.drop_last()) + if bytes.last() == 0x20 {
            seq!['+']
        } else if is_form_safe(bytes.last()) {
            seq![bytes.last() as char]
        } else {
            percent_escape(bytes.last())
        }
    }
}

/// Form-encodes the UTF-8 bytes of `s`.
pub fn form_encode(s: &str) -> (res: String)
    ensures
        res@ == form_encoded(encode_utf8(s@)),
{
    let bytes = s.as_bytes();
    let mut out: Vec<char> = Vec::new();
    let mut i: usize = 0;
    while i < bytes.len()
        invariant
            i <= bytes@.len(),
            bytes@ == encode_utf8(s@),
            out@ == form_encoded(bytes@.take(i as int)),
        decreases bytes@.len() - i,
    {
        let b = bytes[i];
        proof {
            assert(bytes@.take(i + 1).drop_last() =~= bytes@.take(i as int));
            assert(bytes@.take(i + 1).last() == b);
        }
        if b == 0x20 {
            out.push('+');
        } else if (0x30 <= b && b <= 0x39) || (0x41 <= b && b <= 0x5a) || (0x61 <= b && b <= 0x7a)
            || b == 0x2a || b == 0x2d || b == 0x2e || b == 0x5f {
            out.push(b as char);
        } else {
            out.push('%');
            out.push(hex_digit_exec(b / 16));
            out.push(hex_digit_exec(b % 16));
        }
        proof {
            assert(out@ =~= form_encoded(bytes@.take(i + 1)));
        }
        i = i + 1;
    }
    proof {
        assert(bytes@.take(bytes@.len() as int) =~= bytes@);
    }
    string_from_chars(out.as_slice())
}

/// The decimal digits of `n`.
pub open spec fn decimal(n: nat) -> Seq<char>
    decreases n,
{
    if n < 10 {
        seq![('0' as u8 + n as u8) as char]
    } else {
        decimal(n / 10).push(('0' as u8 + (n % 10) as u8) as char)
    }
}

/// Appends the decimal digits of `n`.
pub fn push_decimal(out: &mut Vec<char>, n: u64)
    ensures
        final(out)@ == old(out)@ + decimal(n as nat),
    decreases n,
{
    if n >= 10 {
        push_decimal(out, n / 10);
    }
    let d = (n % 10) as u8;
    out.push((('0' as u8) + d) as char);
    proof {
        assert(final(out)@ =~= old(out)@ + decimal(n as nat)) by {
            if n >= 10 {
                assert(decimal(n as nat) == decimal((n / 10) as nat).push(
                    ('0' as u8 + (n % 10) as u8) as char,
                ));
            }
        }
    }
}

/// The ports the local services listen on.
#[derive(Debug, PartialEq)]
pub struct Ports {
    pub hexend: u16,
    pub editor: u16,
    pub presentation: u16,
}

/// `http://localhost:<port>`.
pub open spec fn localhost(port: u16) -> Seq<char> {
    "http://localhost:"@ + decimal(port as nat)
}

/// The query both apps read a project from: its server and its path.
pub open spec fn project_query(hexend: u16, project: Seq<char>) -> Seq<char> {
    "?server="@ + percent_encoded(encode_utf8(localhost(hexend)), |b: u8| is_unreserved(b))
        + "&path="@ + percent_encoded(encode_utf8(project), |b: u8| is_unreserved(b))
}

fn localhost_string(port: u16) -> (res: String)
    ensures
        res@ == localhost(port),
{
    let mut out: Vec<char> = Vec::new();
    extend_from_str(&mut out, "http://localhost:");
    push_decimal(&mut out, port as u64);
    string_from_chars(out.as_slice())
}

/// The editor and presentation URLs for `project` (an absolute path) on
/// the hexend at `ports.hexend`.
pub fn app_urls(project: &str, ports: &Ports) -> (res: (String, String))
    ensures
        res.0@ == localhost(ports.editor) + "/"@ + project_query(ports.hexend, project@),
        res.1@ == localhost(ports.presentation) + "/"@ + project_query(ports.hexend, project@),
{
    let server = localhost_string(ports.hexend);
    let mut query: Vec<char> = Vec::new();
    extend_from_str(&mut query, "?server=");
    extend_from_str(&mut query, encode_unreserved(server.as_str()).as_str());
    extend_from_str(&mut query, "&path=");
    extend_from_str(&mut query, encode_unreserved(project).as_str());
    let mut editor: Vec<char> = Vec::new();
    extend_from_str(&mut editor, localhost_string(ports.editor).as_str());
    extend_from_str(&mut editor, "/");
    extend_from_range(&mut editor, query.as_slice(), 0, query.len());
    let mut presentation: Vec<char> = Vec::new();
    extend_from_str(&mut presentation, localhost_string(ports.presentation).as_str());
    extend_from_str(&mut presentation, "/");
    extend_from_range(&mut presentation, query.as_slice(), 0, query.len());
    proof {
        assert(query@.subrange(0, query@.len() as int) =~= query@);
    }
    (string_from_chars(editor.as_slice()), string_from_chars(presentation.as_slice()))
}

/// The live-session socket of `path` on the server at `server_url`: an
/// `http` scheme prefix becomes `ws`.
pub fn ws_url(server_url: &str, path: &str) -> (res: String)
    ensures
        res@ == (if server_url@.len() >= 4 && server_url@.take(4) == "http"@ {
            "ws"@ + server_url@.skip(4)
        } else {
            server_url@
        }) + "/ws?path="@ + percent_encoded(encode_utf8(path@), |b: u8| is_uri_component_safe(b)),
{
    let v = chars_of(server_url);
    let mut out: Vec<char> = Vec::new();
    proof {
        reveal_strlit("http");
    }
    if crate::text::has_str_at(v.as_slice(), 0, "http") {
        extend_from_str(&mut out, "ws");
        extend_from_range(&mut out, v.as_slice(), 4, v.len());
        proof {
            reveal_strlit("http");
            assert(v@.subrange(0, 4) =~= v@.take(4));
            assert(v@.subrange(4, v@.len() as int) =~= v@.skip(4));
        }
    } else {
        extend_from_range(&mut out, v.as_slice(), 0, v.len());
        proof {
            reveal_strlit("http");
            assert(v@.subrange(0, v@.len() as int) =~= v@);
            if v@.len() >= 4 && v@.take(4) == "http"@ {
                assert(v@.subrange(0, 4) =~= v@.take(4));
            }
        }
    }
    extend_from_str(&mut out, "/ws?path=");
    extend_from_str(&mut out, encode(path).as_str());
    string_from_chars(out.as_slice())
}

/// The directory part of a `/`-separated path: everything before its
/// last `/`, or `.` when it has none.
pub open spec fn dirname_of(path: Seq<char>) -> Seq<char> {
    match crate::content::last_index_of(path, '/') {
        Some(i) => path.take(i),
        None => seq!['.'],
    }
}

pub fn dirname(path: &str) -> (res: String)
    ensures
        res@ == dirname_of(path@),
{
    let v = chars_of(path);
    let n = v.len();
    let mut e = n;
    proof {
        assert(v@.take(n as int) =~= v@);
    }
    while e > 0 && v[e - 1] != '/'
        invariant
            e <= n == v@.len(),
            crate::content::last_index_of(v@, '/') == crate::content::last_index_of(v@.take(e as int), '/'),
        decreases e,
    {
        proof {
            assert(v@.take(e as int).drop_last() =~= v@.take(e - 1));
        }
        e = e - 1;
    }
    proof {
        if e == 0 {
            assert(v@.take(0) =~= Seq::<char>::empty());
        }
    }
    if e == 0 {
        let mut out: Vec<char> = Vec::new();
        out.push('.');
        proof {
            assert(out@ =~= seq!['.']);
        }
        string_from_chars(out.as_slice())
    } else {
        crate::text::string_from_range(v.as_slice(), 0, e - 1)
    }
}

/// `name` inside the directory `dir`.
pub fn join_path(dir: &str, name: &str) -> (res: String)
    ensures
        res@ == if dir@.len() > 0 && dir@.last() == '/' {
            dir@ + name@
        } else {
            dir@ + seq!['/'] + name@
        },
{
    let v = chars_of(dir);
    let mut out: Vec<char> = Vec::new();
    extend_from_range(&mut out, v.as_slice(), 0, v.len());
    if !(v.len() > 0 && v[v.len() - 1] == '/') {
        out.push('/');
    }
    extend_from_str(&mut out, name);
    proof {
        assert(v@.subrange(0, v@.len() as int) =~= v@);
    }
    string_from_chars(out.as_slice())
}

/// Where a server serves `file` of the project at `project_path`.
pub fn image_url(server: &str, project_path: &str, file: &str) -> (res: String)
    ensures
        res@ == server@ + "/image?dir="@ + percent_encoded(
            encode_utf8(dirname_of(project_path@)),
            |b: u8| is_uri_component_safe(b),
        ) + "&file="@ + percent_encoded(encode_utf8(file@), |b: u8| is_uri_component_safe(b)),
{
    let dir = dirname(project_path);
    let mut out: Vec<char> = Vec::new();
    extend_from_str(&mut out, server);
    extend_from_str(&mut out, "/image?dir=");
    extend_from_str(&mut out, encode(dir.as_str()).as_str());
    extend_from_str(&mut out, "&file=");
    extend_from_str(&mut out, encode(file).as_str());
    string_from_chars(out.as_slice())
}

/// Where a map image for Location `location_id` of the project at
/// `project_path` is uploaded, with the file type `ext`.
pub fn image_upload_url(server: &str, project_path: &str, location_id: &str, ext: &str) -> (res:
    String)
    ensures
        res@ == server@ + "/image?dir="@ + percent_encoded(
            encode_utf8(dirname_of(project_path@)),
            |b: u8| is_uri_component_safe(b),
        ) + "&locationId="@ + percent_encoded(
            encode_utf8(location_id@),
            |b: u8| is_uri_component_safe(b),
        ) + "&ext="@ + ext@,
{
    let dir = dirname(project_path);
    let mut out: Vec<char> = Vec::new();
    extend_from_str(&mut out, server);
    extend_from_str(&mut out, "/image?dir=");
    extend_from_str(&mut out, encode(dir.as_str()).as_str());
    extend_from_str(&mut out, "&locationId=");
    extend_from_str(&mut out, encode(location_id).as_str());
    extend_from_str(&mut out, "&ext=");
    extend_from_str(&mut out, ext);
    string_from_chars(out.as_slice())
}

} // verus!
