//! The wire protocol: the control messages exchanged on the structure stream,
//! the header that prefixes each frame on the content channel, and the framing
//! of a message body behind a 4-byte big-endian length prefix.
//!
//! Message bodies are encoded with bincode by the program around this library
//! (the encoding needs serde derives, which stay outside the verified code);
//! the library frames a body and finds where one frame ends in a buffer.
use vstd::prelude::*;
use crate::digest::{sha256, sha256_spec};
use vstd::string::StringSliceAdditionalSpecFns;

verus! {

/// The QUIC ALPN protocol identifier negotiated between hosts and the
/// compositor: the ASCII text `simulboot/0`.
pub open spec fn alpn_spec() -> Seq<u8> {
    seq![115, 105, 109, 117, 108, 98, 111, 111, 116, 47, 48]
}

/// The ALPN protocol identifier, `simulboot/0`, as bytes.
pub fn alpn() -> (out: Vec<u8>)
    ensures
        out@ == alpn_spec(),
{
    let out: Vec<u8> = vec![115, 105, 109, 117, 108, 98, 111, 111, 116, 47, 48];
    proof {
        assert(out@ =~= alpn_spec());
    }
    out
}

/// Stable identifier for a surface: the SHA-256 of the content that defines it.
pub type SurfaceId = [u8; 32];

/// Mint a [`SurfaceId`] from a stable seed (machine name + capture target):
/// the SHA-256 of the seed's UTF-8 bytes.
pub fn surface_id_from_seed(seed: &str) -> (id: SurfaceId)
    ensures
        id@ == sha256_spec(seed.spec_bytes()),
{
    sha256(seed.as_bytes())
}

/// Whether two surface ids are equal, byte for byte.
pub fn surface_id_eq(a: &SurfaceId, b: &SurfaceId) -> (r: bool)
    ensures
        r == (a@ == b@),
{
    let mut i: usize = 0;
    while i < 32
        invariant
            i <= 32,
            a@.len() == 32,
            b@.len() == 32,
            forall|j: int| 0 <= j < i ==> a@[j] == b@[j],
        decreases 32 - i,
    {
        if a[i] != b[i] {
            return false;
        }
        i = i + 1;
    }
    proof {
        assert(a@ =~= b@);
    }
    true
}

/// Video codec carried on the content channel.
#[derive(Debug, Clone, Copy, PartialEq, Eq, Structural)]
pub enum Codec {
    H265,
    AV1,
}

/// Which operating system produced a surface (provenance only).
#[derive(Debug, Clone, Copy, PartialEq, Eq, Structural)]
pub enum OsKind {
    MacOS,
    Windows,
    Linux,
}

impl View for Codec {
    type V = Codec;

    open spec fn view(&self) -> Codec {
        *self
    }
}

impl View for OsKind {
    type V = OsKind;

    open spec fn view(&self) -> OsKind {
        *self
    }
}

/// Where a surface came from: which OS, which machine, and how it was captured.
#[derive(Debug, Clone, PartialEq, Eq)]
pub struct HostProvenance {
    pub os: OsKind,
    pub machine_name: String,
    pub tailscale_addr: String,
    /// e.g. "window:Safari", "display:0", "vm:PhysicalDrive1".
    pub capture_description: String,
}

/// A host's declaration that a surface exists.
#[derive(Debug, Clone, PartialEq, Eq)]
pub struct SurfaceAnnounce {
    pub id: SurfaceId,
    pub name: String,
    pub width: u32,
    pub height: u32,
    pub codec: Codec,
    pub provenance: HostProvenance,
}

/// The model of a [`HostProvenance`].
pub struct ProvenanceModel {
    pub os: OsKind,
    pub machine_name: Seq<char>,
    pub tailscale_addr: Seq<char>,
    pub capture_description: Seq<char>,
}

/// The model of a [`SurfaceAnnounce`].
pub struct AnnounceModel {
    pub id: Seq<u8>,
    pub name: Seq<char>,
    pub width: u32,
    pub height: u32,
    pub codec: Codec,
    pub provenance: ProvenanceModel,
}

impl View for HostProvenance {
    type V = ProvenanceModel;

    open spec fn view(&self) -> ProvenanceModel {
        ProvenanceModel {
            os: self.os,
            machine_name: self.machine_name@,
            tailscale_addr: self.tailscale_addr@,
            capture_description: self.capture_description@,
        }
    }
}

impl View for SurfaceAnnounce {
    type V = AnnounceModel;

    open spec fn view(&self) -> AnnounceModel {
        AnnounceModel {
            id: self.id@,
            name: self.name@,
            width: self.width,
            height: self.height,
            codec: self.codec,
            provenance: self.provenance@,
        }
    }
}

impl HostProvenance {
    /// A copy of this provenance.
    pub fn duplicate(&self) -> (out: HostProvenance)
        ensures
            out@ == self@,
    {
        HostProvenance {
            os: self.os,
            machine_name: self.machine_name.clone(),
            tailscale_addr: self.tailscale_addr.clone(),
            capture_description: self.capture_description.clone(),
        }
    }
}

impl SurfaceAnnounce {
    /// A copy of this announce.
    pub fn duplicate(&self) -> (out: SurfaceAnnounce)
        ensures
            out@ == self@,
    {
        SurfaceAnnounce {
            id: self.id,
            name: self.name.clone(),
            width: self.width,
            height: self.height,
            codec: self.codec,
            provenance: self.provenance.duplicate(),
        }
    }
}

/// Prepended to every encoded frame on the content channel.
#[derive(Debug, Clone, Copy, PartialEq, Eq)]
pub struct FrameHeader {
    pub surface_id: SurfaceId,
    pub pts: u64,
    /// Byte length of the encoded frame immediately following this header.
    pub len: u32,
}

/// A normalised input event. Pointer coordinates and scroll deltas are 32-bit
/// floating-point values in surface-local 0.0–1.0 space; the library carries
/// them as their IEEE-754 bit patterns and never computes with them.
#[derive(Debug, Clone, Copy, PartialEq, Eq)]
pub enum InputEvent {
    KeyDown { keycode: u32 },
    KeyUp { keycode: u32 },
    MouseMove { x: u32, y: u32 },
    MouseDown { button: u8 },
    MouseUp { button: u8 },
    Scroll { dx: u32, dy: u32 },
}

/// Every control message on the structure channel.
#[derive(Debug, Clone, PartialEq, Eq)]
pub enum StructureMessage {
    // ---- Host → Compositor ----
    Announce(SurfaceAnnounce),
    SuspendAck,
    ReconnectOk(SurfaceAnnounce),
    ReconnectFail { reason: String },
    // ---- Compositor → Host ----
    InputEvent { surface_id: SurfaceId, event: InputEvent },
    Resize { surface_id: SurfaceId, width: u32, height: u32 },
    Suspend,
    Reconnect { session_id: String },
    Disconnect,
}

/// Errors from framing and (de)serialising wire messages.
#[derive(Debug, Clone, PartialEq, Eq)]
pub enum WireError {
    /// The body did not (de)serialise; the text is the codec's message.
    Bincode(String),
    /// The buffer does not hold a whole frame yet.
    Incomplete { needed: usize, have: usize },
    /// A frame claimed a body larger than the limit.
    TooLarge { len: usize, limit: usize },
}

/// Upper bound on a single structure-channel frame body.
pub const MAX_FRAME_LEN: usize = 16777216;

/// The 4-byte big-endian encoding of `n`.
pub open spec fn be_bytes(n: u32) -> Seq<u8> {
    seq![(n >> 24u32) as u8, (n >> 16u32) as u8, (n >> 8u32) as u8, n as u8]
}

/// The value of the 4-byte big-endian number at the front of `b`.
pub open spec fn be_value(b: Seq<u8>) -> u32 {
    ((b[0] as u32) << 24u32) | ((b[1] as u32) << 16u32) | ((b[2] as u32) << 8u32) | (b[3] as u32)
}

/// A frame: the body's length as a 4-byte big-endian number (the length is
/// taken modulo 2^32), followed by the body.
pub open spec fn frame_of(body: Seq<u8>) -> Seq<u8> {
    be_bytes(body.len() as u32) + body
}

/// Wrap a message body in a frame: its 4-byte big-endian length, then the body.
pub fn frame_body(body: &[u8]) -> (out: Vec<u8>)
    ensures
        out@ == frame_of(body@),
{
    let n: u32 = body.len() as u32;
    let mut out: Vec<u8> = Vec::with_capacity(body.len());
    out.push((n >> 24u32) as u8);
    out.push((n >> 16u32) as u8);
    out.push((n >> 8u32) as u8);
    out.push(n as u8);
    let m = body.len();
    let mut i: usize = 0;
    while i < m
        invariant
            m == body@.len(),
            i <= m,
            out@ == be_bytes(n) + body@.take(i as int),
            n == body@.len() as u32,
        decreases m - i,
    {
        out.push(body[i]);
        i = i + 1;
        proof {
            assert(body@.take(i as int) == body@.take((i - 1) as int).push(body@[i - 1]));
        }
    }
    proof {
        assert(body@.take(m as int) =~= body@);
    }
    out
}

/// Where the first frame of `buf` ends, or why it cannot be read yet:
/// fewer than 4 bytes is `Incomplete` needing 4; a declared body longer than
/// `MAX_FRAME_LEN` is `TooLarge`; a buffer shorter than the whole frame is
/// `Incomplete` needing the whole frame.
pub open spec fn frame_extent_spec(buf: Seq<u8>) -> Result<usize, WireError> {
    if buf.len() < 4 {
        Err(WireError::Incomplete { needed: 4, have: buf.len() as usize })
    } else {
        let len = be_value(buf) as usize;
        if len > MAX_FRAME_LEN {
            Err(WireError::TooLarge { len, limit: MAX_FRAME_LEN })
        } else if buf.len() < 4 + len {
            Err(WireError::Incomplete { needed: (4 + len) as usize, have: buf.len() as usize })
        } else {
            Ok((4 + len) as usize)
        }
    }
}

/// Find the end of the first frame at the front of `buf`: on success the
/// frame's total size (prefix included); the body is `buf[4..total]`.
pub fn frame_extent(buf: &[u8]) -> (r: Result<usize, WireError>)
    ensures
        r == frame_extent_spec(buf@),
{
    if buf.len() < 4 {
        return Err(WireError::Incomplete { needed: 4, have: buf.len() });
    }
    let v: u32 = ((buf[0] as u32) << 24u32) | ((buf[1] as u32) << 16u32) | ((buf[2] as u32) << 8u32)
        | (buf[3] as u32);
    let len = v as usize;
    if len > MAX_FRAME_LEN {
        return Err(WireError::TooLarge { len, limit: MAX_FRAME_LEN });
    }
    let total = 4 + len;
    if buf.len() < total {
        return Err(WireError::Incomplete { needed: total, have: buf.len() });
    }
    Ok(total)
}

/// What a reader of the structure stream does next with what it has
/// buffered.
#[derive(Debug, PartialEq, Eq)]
pub enum MessageStep {
    /// A whole frame of this many bytes (prefix included) is buffered.
    Frame(usize),
    /// The frame is not whole yet: read more.
    ReadMore,
    /// The stream has ended between frames: there are no more messages.
    Ended,
    /// The stream has ended inside a frame.
    EndedMidFrame,
    /// The buffered frame is refused.
    Refused(WireError),
}

/// The next step of a reader of the structure stream, from its buffer and
/// whether the stream has ended: take a whole frame when there is one;
/// otherwise read more, unless the stream has ended, which is the end of
/// the messages for an empty buffer and an error inside a frame.
pub fn message_step(buf: &[u8], ended: bool) -> (r: MessageStep)
    ensures
        match frame_extent_spec(buf@) {
            Ok(n) => r == MessageStep::Frame(n),
            Err(WireError::Incomplete { .. }) => r == if !ended {
                MessageStep::ReadMore
            } else if buf@.len() == 0 {
                MessageStep::Ended
            } else {
                MessageStep::EndedMidFrame
            },
            Err(e) => r == MessageStep::Refused(e),
        },
{
    match frame_extent(buf) {
        Ok(n) => MessageStep::Frame(n),
        Err(WireError::Incomplete { needed: _, have: _ }) => {
            if !ended {
                MessageStep::ReadMore
            } else if buf.len() == 0 {
                MessageStep::Ended
            } else {
                MessageStep::EndedMidFrame
            }
        },
        Err(e) => MessageStep::Refused(e),
    }
}

/// Reading back a written frame: the first frame of `frame_of(body) + rest`
/// ends exactly after `body`, whatever follows it, for every body no longer
/// than `MAX_FRAME_LEN`.
pub proof fn law_frame_roundtrip(body: Seq<u8>, rest: Seq<u8>)
    requires
        body.len() <= MAX_FRAME_LEN,
    ensures
        frame_extent_spec(frame_of(body) + rest) == Ok::<usize, WireError>((4 + body.len()) as usize),
        (frame_of(body) + rest).subrange(4, 4 + body.len() as int) == body,
        (frame_of(body) + rest).subrange(4 + body.len() as int, (frame_of(body) + rest).len() as int)
            == rest,
{
    let n = body.len() as u32;
    let buf = frame_of(body) + rest;
    assert(buf[0] == (n >> 24u32) as u8);
    assert(buf[1] == (n >> 16u32) as u8);
    assert(buf[2] == (n >> 8u32) as u8);
    assert(buf[3] == n as u8);
    assert(((((n >> 24u32) as u8) as u32) << 24u32) | ((((n >> 16u32) as u8) as u32) << 16u32)
        | ((((n >> 8u32) as u8) as u32) << 8u32) | ((n as u8) as u32) == n) by (bit_vector);
    assert(be_value(buf) == n);
    assert(buf.subrange(4, 4 + body.len() as int) =~= body);
    assert(buf.subrange(4 + body.len() as int, buf.len() as int) =~= rest);
}

/// Whether a datagram of `len` bytes may be sent on a path whose largest
/// datagram is `max` (no limit known: it may).
pub fn datagram_fits(len: usize, max: Option<usize>) -> (r: bool)
    ensures
        r == match max {
            Some(m) => len <= m,
            None => true,
        },
{
    match max {
        Some(m) => len <= m,
        None => true,
    }
}

} // verus!
