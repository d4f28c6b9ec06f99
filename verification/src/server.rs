//! The live-reload side of the preview server: the script injected into
//! served pages, the broadcast event that tells browsers to reload, and the
//! decision each connection loop takes on every turn.
//!
//! Sockets, threads and the HTTP server itself are outside concerns; what is
//! decided — what to send, when to wait, when a page is amended — is owned
//! and verified here.

use vstd::prelude::*;

verus! {

use crate::config::Config;

/// The instruction broadcast to connected browsers.
#[derive(Debug)]
pub enum BrowserAction {
    Reload,
}

/// What a rebuild reports to the connections: a reload on success, or the
/// error messages of a failed run.
pub type BrowserResult = Result<BrowserAction, Option<Vec<String>>>;

/// The event a finished rebuild broadcasts: a reload when nothing failed,
/// else the collected error messages.
pub fn reload_outcome(errors: Vec<String>) -> (r: BrowserResult)
    ensures
        errors@.len() == 0 ==> (r matches Ok(a) && a is Reload),
        errors@.len() > 0 ==> (r matches Err(Some(msgs)) && msgs@ == errors@),
{
    if errors.len() == 0 {
        Ok(BrowserAction::Reload)
    } else {
        Err(Some(errors))
    }
}

/// The opening of the script a served page is amended with.
pub open spec fn reload_script_prefix() -> Seq<char> {
    "\n<script language=\"Javascript\">\n    var wsUri = (window.location.protocol=='https:'&&'wss://'||'ws://')+window.location.host + '"@
}

/// The remainder of the script, after the socket path.
pub open spec fn reload_script_suffix() -> Seq<char> {
    "';\n    let exampleSocket = new WebSocket(wsUri);\n    exampleSocket.onopen = function (event) {\n      exampleSocket.send(\"Connect\");\n    };\n    exampleSocket.onmessage = function (event) {\n      if (event.data == \"reload\") {\n        document.location.reload();\n      }\n    }\n</script>\n"@
}

/// The script that makes a served page listen for reload instructions on the
/// configured socket path.
pub fn auto_reload_code(config: &Config) -> (r: String)
    ensures
        r@ == reload_script_prefix() + config.server.auto_reload_websocket_path@
            + reload_script_suffix(),
{
    let mut out = String::from_str(
        "\n<script language=\"Javascript\">\n    var wsUri = (window.location.protocol=='https:'&&'wss://'||'ws://')+window.location.host + '",
    );
    out.append(config.server.auto_reload_websocket_path.as_str());
    out.append(
        "';\n    let exampleSocket = new WebSocket(wsUri);\n    exampleSocket.onopen = function (event) {\n      exampleSocket.send(\"Connect\");\n    };\n    exampleSocket.onmessage = function (event) {\n      if (event.data == \"reload\") {\n        document.location.reload();\n      }\n    }\n</script>\n",
    );
    assert(out@ =~= reload_script_prefix() + config.server.auto_reload_websocket_path@
        + reload_script_suffix());
    out
}

/// A served HTML page with the reload script appended.
pub fn amend_page(contents: String, payload: &str) -> (r: String)
    ensures
        r@ == contents@ + payload@,
{
    let mut out = contents;
    out.append(payload);
    out
}

/// What a connection loop does on one turn.
#[derive(Debug, PartialEq, Eq, Structural)]
pub enum WsCommand {
    /// Send the reload instruction; the browser will reconnect afresh.
    SendReload,
    /// Tell the browser the rebuild failed.
    SendErrors,
    /// Send an idle heartbeat to confirm the transport is alive.
    Heartbeat,
    /// Nothing arrived; sleep briefly and ask again.
    Wait,
    /// A malformed event; ignore it and go on.
    Skip,
}

/// How many quiet turns pass between heartbeats.
pub open spec fn heartbeat_turns() -> int {
    10
}

/// One turn of a connection loop: given what the broadcast channel offered
/// (nothing, a reload, or a failure) and the count of quiet turns so far,
/// the command to run and the new count. Quiet turns accumulate until a
/// heartbeat is due; any other outcome leaves the count as it stands.
pub fn websocket_step(msg: Option<&BrowserResult>, counter: u32) -> (r: (WsCommand, u32))
    ensures
        match msg {
            None => {
                if counter > heartbeat_turns() {
                    r == (WsCommand::Heartbeat, 0u32)
                } else {
                    r.0 == WsCommand::Wait && r.1 as int == (if counter < u32::MAX {
                        counter + 1
                    } else {
                        counter as int
                    })
                }
            },
            Some(m) => r.1 == counter && (match m {
                Ok(BrowserAction::Reload) => r.0 == WsCommand::SendReload,
                Err(Some(_)) => r.0 == WsCommand::SendErrors,
                Err(None) => r.0 == WsCommand::Skip,
            }),
        },
{
    match msg {
        None => {
            if counter > 10 {
                (WsCommand::Heartbeat, 0)
            } else {
                let next: u32 = if counter < u32::MAX {
                    counter + 1
                } else {
                    counter
                };
                (WsCommand::Wait, next)
            }
        },
        Some(m) => {
            match m {
                Ok(BrowserAction::Reload) => (WsCommand::SendReload, counter),
                Err(Some(_)) => (WsCommand::SendErrors, counter),
                Err(None) => (WsCommand::Skip, counter),
            }
        },
    }
}

} // verus!
