//! Hides the system cursor while the laser is up.
//!
//! A Wayland client cannot hide the cursor itself, so Hyprland is asked to, by
//! its `cursor:invisible` keyword, and asked to show it again at the end.

use vstd::prelude::*;

use crate::hypr_ipc::SocketError;

verus! {

/// The request that hides the cursor.
pub const HIDE: &'static str = "keyword cursor:invisible 1";

/// The request that shows the cursor again.
pub const RESTORE: &'static str = "keyword cursor:invisible 0";

/// What the user is told where there is no socket to ask on.
pub fn socket_message(error: SocketError) -> (r: &'static str)
    ensures
        error is NoRuntimeDir ==> r@ == "XDG_RUNTIME_DIR is not set"@,
        error is NoSignature ==> r@ == "HYPRLAND_INSTANCE_SIGNATURE is not set"@,
{
    match error {
        SocketError::NoRuntimeDir => "XDG_RUNTIME_DIR is not set",
        SocketError::NoSignature => "HYPRLAND_INSTANCE_SIGNATURE is not set",
    }
}

/// Why a request could not be sent.
#[derive(Debug, Clone)]
pub enum SendError {
    /// There is no connection to the socket, for the reason given.
    Connect(String),
    /// The socket does not take the request, for the reason given.
    Write(String),
}

impl SendError {
    /// What the user is told where `request` could not be sent.
    pub open spec fn text(self, request: Seq<char>) -> Seq<char> {
        match self {
            SendError::Connect(reason) => "failed to connect to Hyprland socket: "@ + reason@,
            SendError::Write(reason) => "failed to write '"@ + request + "' to Hyprland socket: "@
                + reason@,
        }
    }

    /// What the user is told where `request` could not be sent.
    pub fn message(&self, request: &str) -> (r: String)
        ensures
            r@ == self.text(request@),
    {
        match self {
            SendError::Connect(reason) => "failed to connect to Hyprland socket: ".to_owned().concat(
                reason.as_str(),
            ),
            SendError::Write(reason) => "failed to write '".to_owned().concat(request).concat(
                "' to Hyprland socket: ",
            ).concat(reason.as_str()),
        }
    }
}

/// Handle on the cursor.
#[derive(Debug)]
pub struct CursorHider {
    socket: String,
    hidden: bool,
}

impl CursorHider {
    /// Path of the socket that takes the requests.
    pub closed spec fn socket(&self) -> Seq<char> {
        self.socket@
    }

    /// Whether the cursor is hidden.
    pub closed spec fn hidden(&self) -> bool {
        self.hidden
    }

    /// Path of the socket that takes the requests.
    pub fn socket_path(&self) -> (r: &str)
        ensures
            r@ == self.socket(),
    {
        self.socket.as_str()
    }

    /// Makes the handle, given what came of sending [`HIDE`] to `socket`: the
    /// cursor is hidden if it was sent, and the user is told why if not.
    pub fn hide_cursor(socket: String, sent: Result<(), SendError>) -> (r: Result<Self, String>)
        ensures
            match sent {
                Ok(_) => r is Ok && r->Ok_0.hidden() && r->Ok_0.socket() == socket@,
                Err(error) => r is Err && r->Err_0@ == error.text(HIDE@),
            },
    {
        let mut hider: CursorHider = CursorHider { socket, hidden: false };
        match sent {
            Ok(_) => {
                hider.hidden = true;
                Ok(hider)
            },
            Err(error) => Err(error.message(HIDE)),
        }
    }

    /// The request to send when the handle goes away: [`RESTORE`] if the cursor
    /// is hidden.
    pub fn restore_request(&self) -> (r: Option<&'static str>)
        ensures
            r is Some <==> self.hidden(),
            r matches Some(request) ==> request@ == RESTORE@ && request@
                == "keyword cursor:invisible 0"@,
    {
        if self.hidden {
            Some(RESTORE)
        } else {
            None
        }
    }
}

/// What the user is told where a request could not be sent holds the reason, and
/// the request where the socket is to blame for it.
pub proof fn failures_say_what_was_not_sent(reason: String, request: Seq<char>)
    ensures
        SendError::Connect(reason).text(request) == "failed to connect to Hyprland socket: "@
            + reason@,
        SendError::Write(reason).text(request) == "failed to write '"@ + request
            + "' to Hyprland socket: "@ + reason@,
{
}

} // verus!
