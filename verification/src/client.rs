//! What the HTTP layer decides: which backend a path belongs to, how a path
//! segment is encoded, and when a response is believed. A 200 carrying the
//! dashboard's HTML shell is an authentication failure, never an empty
//! result.

use vstd::prelude::*;
use vstd::string::*;

use crate::text::{
    chars_contains, chars_of, chars_replace, chars_starts_with, chars_trim, chars_trim_start,
    contains_seq, replace_all, starts_with, string_of, trim_start_ws, trim_ws, sub_chars,
};

verus! {

broadcast use vstd::string::group_string_axioms;

/// Which backend a path belongs to: two processes with different
/// credentials, kept visible rather than pretending there is one API.
#[derive(Debug, Clone, Copy, PartialEq, Eq, Structural)]
pub enum Api {
    /// The bot: git-shaped state (projects, apps, releases, promote, rollback).
    Bot,
    /// The reconciler: what is actually running (events, logs, metrics, exec).
    Recon,
}

/// The base URL of `api` in `ctx`.
pub fn base(ctx: &crate::config::Context, api: Api) -> (r: String)
    ensures
        r@ == match api {
            Api::Bot => crate::config::bot_base_spec(ctx@),
            Api::Recon => crate::config::recon_base_spec(ctx@),
        },
{
    match api {
        Api::Bot => ctx.bot_base(),
        Api::Recon => ctx.recon_base(),
    }
}

/// The URL of `path` on `api`.
pub fn url(ctx: &crate::config::Context, api: Api, path: &str) -> (r: String)
    ensures
        r@ == match api {
            Api::Bot => crate::config::bot_base_spec(ctx@),
            Api::Recon => crate::config::recon_base_spec(ctx@),
        } + path@,
{
    let mut r = base(ctx, api);
    r.append(path);
    r
}

// ── path segments ────────────────────────────────────────────────────────────

/// Bytes that stand for themselves in a path segment.
pub open spec fn unreserved(b: u8) -> bool {
    (0x41 <= b <= 0x5A) || (0x61 <= b <= 0x7A) || (0x30 <= b <= 0x39) || b == 0x2D || b == 0x5F
        || b == 0x2E || b == 0x7E
}

/// An upper-case hexadecimal digit.
pub open spec fn hex_upper(d: u8) -> char {
    if d < 10 {
        ((48 + d) as u8) as char
    } else {
        ((55 + d) as u8) as char
    }
}

/// How one byte appears in an encoded segment.
pub open spec fn seg_byte(b: u8) -> Seq<char> {
    if unreserved(b) {
        seq![b as char]
    } else {
        seq!['%', hex_upper(b / 16), hex_upper(b % 16)]
    }
}

/// A path segment percent-encoded byte by byte.
pub open spec fn seg_spec(bytes: Seq<u8>) -> Seq<char>
    decreases bytes.len(),
{
    if bytes.len() == 0 {
        Seq::<char>::empty()
    } else {
        seg_spec(bytes.drop_last()) + seg_byte(bytes.last())
    }
}

fn hex_digit_exec(d: u8) -> (c: char)
    requires
        d < 16,
    ensures
        c == hex_upper(d),
{
    if d < 10 {
        (48 + d) as char
    } else {
        (55 + d) as char
    }
}

/// Percent-encode one path segment of the UTF-8 text `value`.
pub fn seg(value: &str) -> (r: String)
    ensures
        r@ == seg_spec(value.spec_bytes()),
{
    let bytes = value.as_bytes();
    let mut out: Vec<char> = Vec::new();
    let mut i: usize = 0;
    while i < bytes.len()
        invariant
            i <= bytes.len(),
            out@ == seg_spec(bytes@.take(i as int)),
        decreases bytes.len() - i,
    {
        let b = bytes[i];
        let ghost before = out@;
        if (0x41 <= b && b <= 0x5A) || (0x61 <= b && b <= 0x7A) || (0x30 <= b && b <= 0x39) || b == 0x2D
            || b == 0x5F || b == 0x2E || b == 0x7E {
            out.push(b as char);
        } else {
            out.push('%');
            out.push(hex_digit_exec(b / 16));
            out.push(hex_digit_exec(b % 16));
        }
        assert(bytes@.take(i + 1).drop_last() =~= bytes@.take(i as int));
        assert(out@ =~= before + seg_byte(b));
        i = i + 1;
    }
    assert(bytes@.take(bytes.len() as int) =~= bytes@);
    string_of(&out)
}

/// The characters an encoded segment is made of.
pub open spec fn seg_char(c: char) -> bool {
    ('A' <= c <= 'Z') || ('a' <= c <= 'z') || ('0' <= c <= '9') || c == '-' || c == '_' || c == '.'
        || c == '~' || c == '%'
}

/// An encoded segment is a single segment: whatever the value held, the
/// result is made only of unreserved characters and `%` escapes, so it holds
/// no `/`, `?` or `#` that would address a different route.
pub proof fn law_an_encoded_segment_stays_one_segment(bytes: Seq<u8>)
    ensures
        forall|i: int| 0 <= i < seg_spec(bytes).len() ==> seg_char(#[trigger] seg_spec(bytes)[i]),
    decreases bytes.len(),
{
    if bytes.len() > 0 {
        law_an_encoded_segment_stays_one_segment(bytes.drop_last());
        let b = bytes.last();
        let prev = seg_spec(bytes.drop_last());
        assert forall|i: int| 0 <= i < seg_spec(bytes).len() implies seg_char(#[trigger] seg_spec(bytes)[i]) by {
            if i >= prev.len() {
                if unreserved(b) {
                    assert(seg_spec(bytes)[i] == b as char);
                } else {
                    let d = seg_byte(b)[i - prev.len()];
                    assert(d == '%' || d == hex_upper(b / 16) || d == hex_upper(b % 16));
                    assert(b / 16 < 16 && b % 16 < 16);
                }
            } else {
                assert(seg_spec(bytes)[i] == prev[i]);
            }
        }
    }
}

/// The value of an upper-case hexadecimal digit.
pub open spec fn hex_value(c: char) -> Option<u8> {
    if '0' <= c <= '9' {
        Some((c as u32 - 48) as u8)
    } else if 'A' <= c <= 'F' {
        Some((c as u32 - 55) as u8)
    } else {
        None
    }
}

/// Percent-decoding, left to right: an unreserved character stands for its
/// byte, `%` and two upper-case hex digits for the byte they spell; anything
/// else is not an encoded segment.
pub open spec fn seg_decode(s: Seq<char>) -> Option<Seq<u8>>
    decreases s.len(),
{
    if s.len() == 0 {
        Some(Seq::empty())
    } else if s[0] == '%' {
        if s.len() >= 3 && hex_value(s[1]) is Some && hex_value(s[2]) is Some {
            match seg_decode(s.skip(3)) {
                Some(r) => Some(seq![(hex_value(s[1])->0 * 16 + hex_value(s[2])->0) as u8] + r),
                None => None,
            }
        } else {
            None
        }
    } else if (s[0] as u32) < 256 && unreserved(s[0] as u32 as u8) {
        match seg_decode(s.skip(1)) {
            Some(r) => Some(seq![s[0] as u32 as u8] + r),
            None => None,
        }
    } else {
        None
    }
}

proof fn lemma_seg_front(bytes: Seq<u8>)
    requires
        bytes.len() > 0,
    ensures
        seg_spec(bytes) == seg_byte(bytes[0]) + seg_spec(bytes.skip(1)),
    decreases bytes.len(),
{
    if bytes.len() == 1 {
        assert(bytes.drop_last() =~= Seq::<u8>::empty());
        assert(bytes.skip(1) =~= Seq::<u8>::empty());
        assert(seg_spec(bytes) =~= seg_byte(bytes[0]) + seg_spec(bytes.skip(1)));
    } else {
        lemma_seg_front(bytes.drop_last());
        assert(bytes.drop_last().skip(1) =~= bytes.skip(1).drop_last());
        assert(bytes.skip(1).last() == bytes.last());
        assert(bytes.drop_last()[0] == bytes[0]);
        assert(seg_spec(bytes) =~= seg_byte(bytes[0]) + seg_spec(bytes.skip(1)));
    }
}

proof fn lemma_hex_round_trip(d: u8)
    requires
        d < 16,
    ensures
        hex_value(hex_upper(d)) == Some(d),
{
}

/// Encoding a segment loses nothing: percent-decoding it gives back exactly
/// the bytes of the value, each `%` followed by two upper-case hex digits.
pub proof fn law_an_encoded_segment_decodes_to_its_value(bytes: Seq<u8>)
    ensures
        seg_decode(seg_spec(bytes)) == Some(bytes),
    decreases bytes.len(),
{
    if bytes.len() > 0 {
        lemma_seg_front(bytes);
        law_an_encoded_segment_decodes_to_its_value(bytes.skip(1));
        let b = bytes[0];
        let rest = seg_spec(bytes.skip(1));
        let s = seg_spec(bytes);
        if unreserved(b) {
            assert(s[0] == b as char);
            assert(s.skip(1) =~= rest);
        } else {
            lemma_hex_round_trip(b / 16);
            lemma_hex_round_trip(b % 16);
            assert(s[0] == '%');
            assert(s[1] == hex_upper(b / 16));
            assert(s[2] == hex_upper(b % 16));
            assert(s.skip(3) =~= rest);
            assert((b / 16) * 16 + b % 16 == b);
        }
        assert(seq![b] + bytes.skip(1) =~= bytes);
    }
}

// ── believing a response ─────────────────────────────────────────────────────

/// The response is the dashboard's HTML shell rather than the API: by its
/// type, or by a body that opens like an HTML document.
pub open spec fn is_html_spec(content_type: Seq<char>, body: Seq<char>) -> bool {
    contains_seq(content_type, "text/html"@) || starts_with(trim_start_ws(body), "<!"@)
}

pub fn is_html(content_type: &str, body: &str) -> (b: bool)
    ensures
        b == is_html_spec(content_type@, body@),
{
    chars_contains(&chars_of(content_type), &chars_of("text/html"))
        || chars_starts_with(&chars_trim_start(&chars_of(body)), &chars_of("<!"))
}

/// At most the first 400 characters of `body`, with `…` when more followed.
pub open spec fn snippet_spec(body: Seq<char>) -> Seq<char> {
    if body.len() > 400 {
        body.take(400) + "…"@
    } else {
        body
    }
}

pub fn snippet(body: &str) -> (r: String)
    ensures
        r@ == snippet_spec(body@),
{
    let v = chars_of(body);
    if v.len() > 400 {
        let mut s = sub_chars(&v, 0, 400);
        assert(v@.subrange(0, 400) =~= v@.take(400));
        crate::text::push_str_chars(&mut s, "…");
        string_of(&s)
    } else {
        string_of(&v)
    }
}

/// A body set off by two spaces on every line, cut to a snippet, or a note
/// that it was empty.
pub open spec fn indent_spec(body: Seq<char>) -> Seq<char> {
    let s = snippet_spec(trim_ws(body));
    if s.len() == 0 {
        "  (empty body)"@
    } else {
        "  "@ + replace_all(s, seq!['\n'], seq!['\n', ' ', ' '])
    }
}

pub fn indent(body: &str) -> (r: String)
    ensures
        r@ == indent_spec(body@),
{
    let t = string_of(&chars_trim(&chars_of(body)));
    let s = chars_of(snippet(t.as_str()).as_str());
    if s.len() == 0 {
        return "  (empty body)".to_string();
    }
    let nl: Vec<char> = vec!['\n'];
    let to: Vec<char> = vec!['\n', ' ', ' '];
    assert(nl@ =~= seq!['\n'] && to@ =~= seq!['\n', ' ', ' ']);
    let mut out = chars_of("  ");
    crate::text::push_chars(&mut out, &chars_replace(&s, &nl, &to));
    string_of(&out)
}

pub open spec fn spa_shell_message(url: Seq<char>, status: Seq<char>, content_type: Seq<char>) -> Seq<char> {
    url + " → "@ + status + " "@ + content_type
        + ", which is the dashboard's SPA shell, not the API.\n\
         An /api request whose Tailscale identity cannot be resolved falls through to the \
         web app instead of returning 401 — so this is an authentication failure wearing a \
         200. You are not talking to the API.\n\
         Check that the URL is the dashboard origin (`majnet login` sets it), that this \
         machine is on the tailnet (`tailscale status`), and that the front door is the one \
         that injects identity."@
}

/// A hint for a 404 in proxy mode, where the URL is likely a backend rather
/// than the dashboard.
pub open spec fn misroute_hint_spec(status_code: u16, direct: bool) -> Seq<char> {
    if status_code == 404 && !direct {
        "\n  Is that URL the dashboard origin? The WireGuard listeners are reached with              --direct (or MAJNET_BOT_URL / MAJNET_RECON_URL) instead."@
    } else {
        ""@
    }
}

pub fn misroute_hint(status_code: u16, direct: bool) -> (r: &'static str)
    ensures
        r@ == misroute_hint_spec(status_code, direct),
{
    if status_code == 404 && !direct {
        "\n  Is that URL the dashboard origin? The WireGuard listeners are reached with              --direct (or MAJNET_BOT_URL / MAJNET_RECON_URL) instead."
    } else {
        ""
    }
}

/// What to add when the control plane cannot be reached at all.
pub open spec fn reach_hint_spec(direct: bool) -> Seq<char> {
    if direct {
        "\nThat is a WireGuard-internal listener: it is only routable from a node or an \
         enrolled WG peer. Drop --direct to go through the dashboard instead."@
    } else {
        "\nCheck `tailscale status` — the control plane is reachable over the tailnet only."@
    }
}

/// Why `url` could not be reached, with the hint for the mode in use.
pub fn unreachable_message(url: &str, direct: bool) -> (r: String)
    ensures
        r@ == "cannot reach "@ + url@ + reach_hint_spec(direct),
{
    let mut r = "cannot reach ".to_string();
    r.append(url);
    if direct {
        r.append("\nThat is a WireGuard-internal listener: it is only routable from a node or an \
         enrolled WG peer. Drop --direct to go through the dashboard instead.");
    } else {
        r.append("\nCheck `tailscale status` — the control plane is reachable over the tailnet only.");
    }
    r
}

/// Whether a response is believed: a non-2xx status is an error carrying the
/// control plane's own words; the SPA shell is an error naming the likely
/// cause; anything else is the body. `status` is the status as printed
/// (code and reason).
pub open spec fn check_response_spec(
    url: Seq<char>,
    status_code: u16,
    status: Seq<char>,
    content_type: Seq<char>,
    body: Seq<char>,
    direct: bool,
) -> Result<Seq<char>, Seq<char>> {
    if !(200 <= status_code < 300) {
        Err(url + " → "@ + status + "\n"@ + indent_spec(body) + misroute_hint_spec(status_code, direct))
    } else if is_html_spec(content_type, body) {
        Err(spa_shell_message(url, status, content_type))
    } else {
        Ok(body)
    }
}

pub fn check_response(
    url: &str,
    status_code: u16,
    status: &str,
    content_type: &str,
    body: String,
    direct: bool,
) -> (r: Result<String, String>)
    ensures
        match (r, check_response_spec(url@, status_code, status@, content_type@, body@, direct)) {
            (Ok(b), Ok(s)) => b@ == s,
            (Err(m), Err(s)) => m@ == s,
            _ => false,
        },
{
    if !(200 <= status_code && status_code < 300) {
        let mut m = url.to_string();
        m.append(" → ");
        m.append(status);
        m.append("\n");
        m.append(indent(body.as_str()).as_str());
        m.append(misroute_hint(status_code, direct));
        return Err(m);
    }
    if is_html(content_type, body.as_str()) {
        let mut m = url.to_string();
        m.append(" → ");
        m.append(status);
        m.append(" ");
        m.append(content_type);
        m.append(", which is the dashboard's SPA shell, not the API.\n\
         An /api request whose Tailscale identity cannot be resolved falls through to the \
         web app instead of returning 401 — so this is an authentication failure wearing a \
         200. You are not talking to the API.\n\
         Check that the URL is the dashboard origin (`majnet login` sets it), that this \
         machine is on the tailnet (`tailscale status`), and that the front door is the one \
         that injects identity.");
        return Err(m);
    }
    Ok(body)
}

/// A successful response whose body is HTML is never believed: the SPA
/// shell can only ever come back as an error.
pub proof fn law_the_spa_shell_is_never_a_result(
    url: Seq<char>,
    status_code: u16,
    status: Seq<char>,
    content_type: Seq<char>,
    body: Seq<char>,
    direct: bool,
)
    ensures
        is_html_spec(content_type, body) ==> check_response_spec(url, status_code, status, content_type, body, direct) is Err,
        check_response_spec(url, status_code, status, content_type, body, direct) matches Ok(b) ==> b == body
            && 200 <= status_code < 300,
{
}

/// An empty (or blank) body reads as JSON `null`; anything else must parse.
pub fn is_blank(body: &str) -> (b: bool)
    ensures
        b == (trim_ws(body@).len() == 0),
{
    chars_trim(&chars_of(body)).len() == 0
}

} // verus!
