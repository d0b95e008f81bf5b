//! An interactive shell over the reconciler's terminal WebSocket: a container
//! shell in an app, or a root shell on a node's host. Every session must be
//! attributable to a named platform admin, so `--direct`, which sends no
//! identity, cannot open one. This module decides; the caller moves the
//! bytes.

use vstd::prelude::*;
use vstd::string::*;

use crate::client::{seg, seg_spec};
use crate::text::{decimal, decimal_chars, string_of};

verus! {

broadcast use vstd::string::group_string_axioms;

/// What `majnet shell` was asked.
#[derive(Debug, Clone)]
pub struct ShellArgs {
    /// Project name or GitHub org (container mode).
    pub project: Option<String>,
    /// App name (container mode).
    pub app: Option<String>,
    /// Environment class for the container.
    pub class: Option<String>,
    /// Open a root shell on this node's host instead of in a container.
    pub node: Option<String>,
}

/// The message the terminal's far end parses as a window resize.
pub open spec fn resize_spec(cols: u16, rows: u16) -> Seq<char> {
    "{\"resize\":{\"cols\":"@ + decimal(cols as nat) + ",\"rows\":"@ + decimal(rows as nat) + "}}"@
}

pub fn resize(cols: u16, rows: u16) -> (r: String)
    ensures
        r@ == resize_spec(cols, rows),
{
    let mut r = "{\"resize\":{\"cols\":".to_string();
    r.append(string_of(&decimal_chars(cols as u64)).as_str());
    r.append(",\"rows\":");
    r.append(string_of(&decimal_chars(rows as u64)).as_str());
    r.append("}}");
    r
}

pub open spec fn direct_refusal() -> Seq<char> {
    "a terminal session must be attributable to a named platform admin, and --direct \
     sends no identity (the WG listeners are trusted by bind address, §12.1).\n\
     Connect through the dashboard URL instead: `majnet login`."@
}

pub open spec fn needs_terminal() -> Seq<char> {
    "`majnet shell` needs a terminal. For a scripted command use \
     `majnet exec … -- <cmd>`, which returns output and an exit code."@
}

/// A session may start only with an identity to attribute it to, and only at
/// a terminal.
pub fn may_open(direct: bool, interactive: bool) -> (r: Result<(), String>)
    ensures
        r is Ok <==> !direct && interactive,
        r matches Err(m) ==> m@ == if direct { direct_refusal() } else { needs_terminal() },
{
    if direct {
        return Err("a terminal session must be attributable to a named platform admin, and --direct \
             sends no identity (the WG listeners are trusted by bind address, §12.1).\n\
             Connect through the dashboard URL instead: `majnet login`.".to_string());
    }
    if !interactive {
        return Err("`majnet shell` needs a terminal. For a scripted command use \
             `majnet exec … -- <cmd>`, which returns output and an exit code.".to_string());
    }
    Ok(())
}

/// The terminal query and the session's description for a host shell.
pub fn host_target(node: &str) -> (r: (String, String))
    ensures
        r.0@ == "mode=host&node="@ + seg_spec(node.spec_bytes()),
        r.1@ == "host shell on "@ + node@,
{
    let mut q = "mode=host&node=".to_string();
    q.append(seg(node).as_str());
    let mut w = "host shell on ".to_string();
    w.append(node);
    (q, w)
}

/// The terminal query and the session's description for a container shell.
pub fn container_target(org: &str, name: &str, class: &str) -> (r: (String, String))
    ensures
        r.0@ == "mode=container&project="@ + seg_spec(org.spec_bytes()) + "&app="@ + seg_spec(
            name.spec_bytes(),
        ) + "&class="@ + seg_spec(class.spec_bytes()),
        r.1@ == org@ + "/"@ + name@ + " ("@ + class@ + ")"@,
{
    let mut q = "mode=container&project=".to_string();
    q.append(seg(org).as_str());
    q.append("&app=");
    q.append(seg(name).as_str());
    q.append("&class=");
    q.append(seg(class).as_str());
    let mut w = org.to_string();
    w.append("/");
    w.append(name);
    w.append(" (");
    w.append(class);
    w.append(")");
    (q, w)
}

/// Why the terminal refused the connection: the status, the far end's own
/// words, and, for a 403, what the refusal means.
pub open spec fn refusal_spec(status_code: u16, status: Seq<char>, body: Seq<char>) -> Seq<char> {
    let base = "terminal refused ("@ + status + "): "@ + crate::text::trim_ws(body);
    if status_code == 403 {
        base + "\nThe terminal is platform-admin only, and refuses an unidentified caller outright \
         — every session has to be attributable. `majnet whoami` shows what the control \
         plane thinks you are."@
    } else {
        base
    }
}

pub fn refusal(status_code: u16, status: &str, body: &str) -> (r: String)
    ensures
        r@ == refusal_spec(status_code, status@, body@),
{
    let mut r = "terminal refused (".to_string();
    r.append(status);
    r.append("): ");
    r.append(string_of(&crate::text::chars_trim(&crate::text::chars_of(body))).as_str());
    if status_code == 403 {
        r.append("\nThe terminal is platform-admin only, and refuses an unidentified caller outright \
             — every session has to be attributable. `majnet whoami` shows what the control \
             plane thinks you are.");
    }
    r
}

/// Something that happened while a session is open.
#[derive(Debug, Clone)]
pub enum ShellEvent {
    /// The far end sent bytes.
    Binary(Vec<u8>),
    /// The far end sent text.
    Text(String),
    /// The far end closed the session (or the stream ended).
    Closed,
    /// The far end sent a control frame (ping, pong).
    Control,
    /// The connection failed.
    Lost(String),
    /// The keyboard gave bytes; none means end of input.
    Typed(Vec<u8>),
    /// Reading the keyboard failed.
    StdinFailed(String),
    /// The window changed; its size when the terminal reports one.
    Resized(Option<(u16, u16)>),
}

/// What to do about it.
#[derive(Debug, Clone, PartialEq, Eq)]
pub enum ShellAction {
    /// Write these bytes to the local terminal.
    Show(Vec<u8>),
    /// Send these bytes to the far end.
    Send(Vec<u8>),
    /// Send this text frame to the far end.
    SendText(String),
    /// Nothing to do.
    Wait,
    /// The session is over; close it.
    End,
    /// The session failed with this message (after restoring the terminal).
    Fail(String),
}

/// One step of an open session: output is shown as it came, keystrokes go
/// out as they were typed, a resize is forwarded, and the session ends when
/// either side does.
pub fn shell_step(event: ShellEvent) -> (a: ShellAction)
    ensures
        match event {
            ShellEvent::Binary(b) => a == ShellAction::Show(b),
            ShellEvent::Text(t) => a matches ShellAction::Show(b) && b@ == vstd::utf8::encode_utf8(t@),
            ShellEvent::Closed => a == ShellAction::End,
            ShellEvent::Control => a == ShellAction::Wait,
            ShellEvent::Lost(e) => a matches ShellAction::Fail(m) && m@ == "terminal connection lost: "@ + e@,
            ShellEvent::Typed(b) => if b.len() == 0 {
                a == ShellAction::End
            } else {
                a == ShellAction::Send(b)
            },
            ShellEvent::StdinFailed(e) => a matches ShellAction::Fail(m) && m@ == "reading stdin: "@ + e@,
            ShellEvent::Resized(size) => match size {
                Some((cols, rows)) => a matches ShellAction::SendText(t) && t@ == resize_spec(cols, rows),
                None => a == ShellAction::Wait,
            },
        },
{
    match event {
        ShellEvent::Binary(b) => ShellAction::Show(b),
        ShellEvent::Text(t) => ShellAction::Show(crate::text::str_bytes(t.as_str())),
        ShellEvent::Closed => ShellAction::End,
        ShellEvent::Control => ShellAction::Wait,
        ShellEvent::Lost(e) => {
            let mut m = "terminal connection lost: ".to_string();
            m.append(e.as_str());
            ShellAction::Fail(m)
        },
        ShellEvent::Typed(b) => {
            if b.len() == 0 {
                ShellAction::End
            } else {
                ShellAction::Send(b)
            }
        },
        ShellEvent::StdinFailed(e) => {
            let mut m = "reading stdin: ".to_string();
            m.append(e.as_str());
            ShellAction::Fail(m)
        },
        ShellEvent::Resized(size) => match size {
            Some((cols, rows)) => ShellAction::SendText(resize(cols, rows)),
            None => ShellAction::Wait,
        },
    }
}

} // verus!
