use hyprlaser::cursor_hide::{socket_message, CursorHider, SendError, HIDE, RESTORE};
use hyprlaser::hypr_ipc::SocketError;

#[test]
fn requests_are_those_of_hyprctl() {
    assert_eq!(HIDE, "keyword cursor:invisible 1");
    assert_eq!(RESTORE, "keyword cursor:invisible 0");
}

#[test]
fn hidden_cursor_is_owed_a_restore() {
    let hider = CursorHider::hide_cursor("/tmp/sock".to_string(), Ok(())).unwrap();
    assert_eq!(hider.socket_path(), "/tmp/sock");
    assert_eq!(hider.restore_request(), Some(RESTORE));
}

#[test]
fn failed_request_is_explained() {
    let sent = Err(SendError::Connect("no such file".to_string()));
    let r = CursorHider::hide_cursor("/tmp/sock".to_string(), sent);
    assert_eq!(
        r.err(),
        Some("failed to connect to Hyprland socket: no such file".to_string())
    );
    let sent = Err(SendError::Write("broken pipe".to_string()));
    let r = CursorHider::hide_cursor("/tmp/sock".to_string(), sent);
    assert_eq!(
        r.err(),
        Some(
            "failed to write 'keyword cursor:invisible 1' to Hyprland socket: broken pipe"
                .to_string()
        )
    );
}

#[test]
fn missing_socket_is_explained_briefly() {
    assert_eq!(socket_message(SocketError::NoRuntimeDir), "XDG_RUNTIME_DIR is not set");
    assert_eq!(
        socket_message(SocketError::NoSignature),
        "HYPRLAND_INSTANCE_SIGNATURE is not set"
    );
}
