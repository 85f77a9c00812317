use simulboot::compositor::{
    ends_writer, expect_announce, frame_event, link_event, strip_summary, HandshakeError,
    HeadlessRenderer, LinkEvent, VisibleName,
};
use simulboot::host::{
    default_os, frame_header_for, host_action, parse_os, surface_announce, EncodedFrame, HostAction,
    NullCapture, UnknownOs,
};
use simulboot::wire::{surface_id_from_seed, Codec, FrameHeader, InputEvent, OsKind, StructureMessage};

#[test]
fn os_names() {
    assert_eq!(parse_os("macOS"), Ok(OsKind::MacOS));
    assert_eq!(parse_os("OSX"), Ok(OsKind::MacOS));
    assert_eq!(parse_os("mac"), Ok(OsKind::MacOS));
    assert_eq!(parse_os("Win"), Ok(OsKind::Windows));
    assert_eq!(parse_os("windows"), Ok(OsKind::Windows));
    assert_eq!(parse_os("LINUX"), Ok(OsKind::Linux));
    let err = parse_os("BeOS").unwrap_err();
    assert_eq!(err, UnknownOs("beos".into()));
    assert_eq!(err.message(), "unknown os: beos (expected macos|windows|linux)");
    assert_eq!(default_os("macos"), OsKind::MacOS);
    assert_eq!(default_os("windows"), OsKind::Windows);
    assert_eq!(default_os("freebsd"), OsKind::Linux);
}

#[test]
fn announce_is_seeded_by_machine_capture_and_name() {
    let a = surface_announce("macOS", OsKind::MacOS, "Aleth", "window:Safari", "100.0.0.1", 960, 540);
    assert_eq!(a.id, surface_id_from_seed("Aleth|window:Safari|macOS"));
    assert_eq!(a.name, "macOS");
    assert_eq!((a.width, a.height), (960, 540));
    assert_eq!(a.codec, Codec::H265);
    assert_eq!(a.provenance.machine_name, "Aleth");
    assert_eq!(a.provenance.tailscale_addr, "100.0.0.1");
    assert_eq!(a.provenance.capture_description, "window:Safari");
    let null = NullCapture::new(a.clone());
    assert_eq!(null.announce(), a);
}

#[test]
fn host_answers_control_messages() {
    let a = surface_announce("s", OsKind::Linux, "m", "display:0", "", 1, 1);
    let ev = InputEvent::KeyDown { keycode: 4 };
    assert_eq!(
        host_action(StructureMessage::InputEvent { surface_id: a.id, event: ev }, &a),
        HostAction::Forward(ev)
    );
    assert_eq!(
        host_action(StructureMessage::InputEvent { surface_id: [0; 32], event: ev }, &a),
        HostAction::Ignore
    );
    assert_eq!(
        host_action(StructureMessage::Resize { surface_id: a.id, width: 5, height: 6 }, &a),
        HostAction::Resize { width: 5, height: 6 }
    );
    assert_eq!(host_action(StructureMessage::Suspend, &a), HostAction::Reply(StructureMessage::SuspendAck));
    assert_eq!(
        host_action(StructureMessage::Reconnect { session_id: "x".into() }, &a),
        HostAction::Reply(StructureMessage::ReconnectOk(a.clone()))
    );
    assert_eq!(host_action(StructureMessage::Disconnect, &a), HostAction::Stop);
    assert_eq!(host_action(StructureMessage::SuspendAck, &a), HostAction::Ignore);
}

#[test]
fn frame_headers() {
    let f = EncodedFrame { pts: 77, bytes: vec![1, 2, 3] };
    assert_eq!(frame_header_for([3; 32], &f), FrameHeader { surface_id: [3; 32], pts: 77, len: 3 });
    let ev = frame_event(&FrameHeader { surface_id: [3; 32], pts: 123456, len: 4096 });
    assert_eq!((ev.surface_id, ev.pts), ([3; 32], 123456));
}

#[test]
fn compositor_handshake_and_reader() {
    let a = surface_announce("s", OsKind::Linux, "m", "display:0", "", 1, 1);
    assert_eq!(expect_announce(Some(StructureMessage::Announce(a.clone()))), Ok(a.clone()));
    assert_eq!(expect_announce(Some(StructureMessage::ReconnectOk(a.clone()))), Ok(a.clone()));
    assert_eq!(
        expect_announce(Some(StructureMessage::Suspend)),
        Err(HandshakeError::Unexpected(StructureMessage::Suspend))
    );
    assert_eq!(expect_announce(None), Err(HandshakeError::Closed));
    assert_eq!(link_event(StructureMessage::SuspendAck), LinkEvent::SuspendAcked);
    assert_eq!(link_event(StructureMessage::ReconnectOk(a)), LinkEvent::Reconnected("s".into()));
    assert_eq!(
        link_event(StructureMessage::ReconnectFail { reason: "gone".into() }),
        LinkEvent::ReconnectFailed("gone".into())
    );
    assert_eq!(link_event(StructureMessage::Disconnect), LinkEvent::Ignore);
    assert!(ends_writer(&StructureMessage::Disconnect));
    assert!(!ends_writer(&StructureMessage::Suspend));
}

#[test]
fn headless_renderer_logs_changes_only() {
    let names = vec![
        VisibleName { name: "a".into(), focused: false },
        VisibleName { name: "b".into(), focused: true },
    ];
    assert_eq!(strip_summary(&names), "a | b*");
    assert_eq!(strip_summary(&vec![]), "");
    let mut r = HeadlessRenderer::new();
    assert!(r.should_log("x".into()));
    assert!(!r.should_log("x".into()));
    assert!(r.should_log("y".into()));
    assert!(r.should_log("x".into()));
}
