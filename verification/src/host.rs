//! The host's decisions: its configuration values, the surface it
//! announces, what it does with each control message from the compositor,
//! and the header it puts in front of each encoded frame. The host program
//! owns the QUIC connection and the capture backend and acts on these.
use vstd::prelude::*;
use crate::text::{ascii_lowercase, chars_eq, push_str, str_eq, to_ascii_lowercase};
use crate::wire::{surface_id_from_seed, AnnounceModel, Codec, FrameHeader, HostProvenance, InputEvent,
    OsKind, ProvenanceModel, StructureMessage, SurfaceAnnounce, SurfaceId};

verus! {

// ---------------------------------------------------------------------------
// Configuration values

/// An OS name that the host does not know; the text is the name lower-cased.
#[derive(Debug, Clone, PartialEq, Eq)]
pub struct UnknownOs(pub String);

impl UnknownOs {
    /// The error message.
    pub fn message(&self) -> (out: String)
        ensures
            out@ == "unknown os: "@ + self.0@ + " (expected macos|windows|linux)"@,
    {
        let mut out = String::from_str("unknown os: ");
        push_str(&mut out, self.0.as_str());
        push_str(&mut out, " (expected macos|windows|linux)");
        out
    }
}

/// The OS that a `--os` value names, ignoring ASCII case.
pub open spec fn os_named(s: Seq<char>) -> Option<OsKind> {
    let l = ascii_lowercase(s);
    if l == "macos"@ || l == "mac"@ || l == "osx"@ {
        Some(OsKind::MacOS)
    } else if l == "windows"@ || l == "win"@ {
        Some(OsKind::Windows)
    } else if l == "linux"@ {
        Some(OsKind::Linux)
    } else {
        None
    }
}

/// Parse a `--os` value: `macos`, `mac` or `osx`; `windows` or `win`;
/// `linux`; in any ASCII case.
pub fn parse_os(s: &str) -> (r: Result<OsKind, UnknownOs>)
    ensures
        match r {
            Ok(os) => os_named(s@) == Some(os),
            Err(UnknownOs(l)) => os_named(s@) is None && l@ == ascii_lowercase(s@),
        },
{
    let l = to_ascii_lowercase(s);
    let t = crate::text::string_from_chars(l.as_slice());
    if str_eq(t.as_str(), "macos") || str_eq(t.as_str(), "mac") || str_eq(t.as_str(), "osx") {
        Ok(OsKind::MacOS)
    } else if str_eq(t.as_str(), "windows") || str_eq(t.as_str(), "win") {
        Ok(OsKind::Windows)
    } else if str_eq(t.as_str(), "linux") {
        Ok(OsKind::Linux)
    } else {
        Err(UnknownOs(t))
    }
}

/// The OS a host reports by default, from the target it was built for
/// (`std::env::consts::OS`): macOS and Windows by name, Linux otherwise.
pub fn default_os(target_os: &str) -> (os: OsKind)
    ensures
        os == if target_os@ == "macos"@ {
            OsKind::MacOS
        } else if target_os@ == "windows"@ {
            OsKind::Windows
        } else {
            OsKind::Linux
        },
{
    if str_eq(target_os, "macos") {
        OsKind::MacOS
    } else if str_eq(target_os, "windows") {
        OsKind::Windows
    } else {
        OsKind::Linux
    }
}

/// The seed a host's surface id is minted from: `machine|capture|name`.
pub open spec fn announce_seed(machine: Seq<char>, capture: Seq<char>, name: Seq<char>) -> Seq<char> {
    machine + "|"@ + capture + "|"@ + name
}

/// The surface a host announces: its id minted from
/// `machine|capture|name`, so the same surface keeps its id across
/// reconnects; H.265; and the host's provenance.
pub fn surface_announce(
    name: &str,
    os: OsKind,
    machine: &str,
    capture: &str,
    tailscale_addr: &str,
    width: u32,
    height: u32,
) -> (out: SurfaceAnnounce)
    ensures
        out@ == (AnnounceModel {
            id: crate::digest::sha256_spec(
                vstd::utf8::encode_utf8(announce_seed(machine@, capture@, name@)),
            ),
            name: name@,
            width,
            height,
            codec: Codec::H265,
            provenance: ProvenanceModel {
                os,
                machine_name: machine@,
                tailscale_addr: tailscale_addr@,
                capture_description: capture@,
            },
        }),
{
    let mut seed = String::from_str(machine);
    push_str(&mut seed, "|");
    push_str(&mut seed, capture);
    push_str(&mut seed, "|");
    push_str(&mut seed, name);
    let id = surface_id_from_seed(seed.as_str());
    SurfaceAnnounce {
        id,
        name: String::from_str(name),
        width,
        height,
        codec: Codec::H265,
        provenance: HostProvenance {
            os,
            machine_name: String::from_str(machine),
            tailscale_addr: String::from_str(tailscale_addr),
            capture_description: String::from_str(capture),
        },
    }
}

// ---------------------------------------------------------------------------
// Control messages

/// What the host does with a control message.
#[derive(Debug, Clone, PartialEq, Eq)]
pub enum HostAction {
    /// Route an input event to the capture backend.
    Forward(InputEvent),
    /// A resize request: noted (capture is fixed-size).
    Resize { width: u32, height: u32 },
    /// Send a reply on the structure stream.
    Reply(StructureMessage),
    /// The compositor asked to disconnect: stop serving.
    Stop,
    /// Nothing to do.
    Ignore,
}

/// What the host does with `msg` while serving `announce`: input for its
/// own surface is forwarded; `Suspend` is acknowledged (the host stays
/// alive); `Reconnect` is answered by re-announcing; `Disconnect` stops;
/// everything else is passed over.
pub fn host_action(msg: StructureMessage, announce: &SurfaceAnnounce) -> (r: HostAction)
    ensures
        match msg {
            StructureMessage::InputEvent { surface_id, event } => if surface_id@ == announce.id@ {
                r == HostAction::Forward(event)
            } else {
                r is Ignore
            },
            StructureMessage::Resize { width, height, .. } => r == HostAction::Resize { width, height },
            StructureMessage::Suspend => r == HostAction::Reply(StructureMessage::SuspendAck),
            StructureMessage::Reconnect { .. } => (r matches HostAction::Reply(
                StructureMessage::ReconnectOk(a),
            ) && a@ == announce@),
            StructureMessage::Disconnect => r is Stop,
            _ => r is Ignore,
        },
{
    match msg {
        StructureMessage::InputEvent { surface_id, event } => {
            if crate::wire::surface_id_eq(&surface_id, &announce.id) {
                HostAction::Forward(event)
            } else {
                HostAction::Ignore
            }
        },
        StructureMessage::Resize { width, height, .. } => HostAction::Resize { width, height },
        StructureMessage::Suspend => HostAction::Reply(StructureMessage::SuspendAck),
        StructureMessage::Reconnect { .. } => HostAction::Reply(
            StructureMessage::ReconnectOk(announce.duplicate()),
        ),
        StructureMessage::Disconnect => HostAction::Stop,
        _ => HostAction::Ignore,
    }
}

// ---------------------------------------------------------------------------
// Frames

/// One encoded frame ready for the content channel.
#[derive(Debug, Clone)]
pub struct EncodedFrame {
    /// Presentation timestamp, in the source's own clock units.
    pub pts: u64,
    /// The encoded bitstream (H.265).
    pub bytes: Vec<u8>,
}

/// The header sent in front of a frame of `surface_id`: its timestamp and
/// its length (as a `u32`, taken modulo 2^32).
pub fn frame_header_for(surface_id: SurfaceId, frame: &EncodedFrame) -> (h: FrameHeader)
    ensures
        h.surface_id == surface_id,
        h.pts == frame.pts,
        h.len == frame.bytes@.len() as u32,
{
    FrameHeader { surface_id, pts: frame.pts, len: frame.bytes.len() as u32 }
}

/// A capture source that announces a surface but produces no frames: the
/// stand-in before a platform backend exists, and the fallback where none
/// does.
pub struct NullCapture {
    announce: SurfaceAnnounce,
}

impl NullCapture {
    /// A null source announcing `announce`.
    pub fn new(announce: SurfaceAnnounce) -> (out: NullCapture)
        ensures
            out.announce_model() == announce@,
    {
        NullCapture { announce }
    }

    /// The model of the surface this source announces.
    pub closed spec fn announce_model(&self) -> AnnounceModel {
        self.announce@
    }

    /// The surface this source produces.
    pub fn announce(&self) -> (out: SurfaceAnnounce)
        ensures
            out@ == self.announce_model(),
    {
        self.announce.duplicate()
    }
}

} // verus!
