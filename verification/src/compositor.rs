//! The compositor's decisions on each host link: the announce handshake,
//! what the reader does with each message from a host, when the writer stops,
//! what a content datagram reports, and when the headless renderer logs.
use vstd::prelude::*;
use crate::text::{push_str, str_eq};
use crate::wire::{AnnounceModel, FrameHeader, StructureMessage, SurfaceAnnounce, SurfaceId};

verus! {

/// A frame arrival, surfaced to the compositor for diagnostics and repaint.
#[derive(Debug, Clone, Copy)]
pub struct FrameEvent {
    pub surface_id: SurfaceId,
    pub pts: u64,
}

/// What a content datagram with header `h` reports: its surface and
/// timestamp.
pub fn frame_event(h: &FrameHeader) -> (ev: FrameEvent)
    ensures
        ev.surface_id == h.surface_id,
        ev.pts == h.pts,
{
    FrameEvent { surface_id: h.surface_id, pts: h.pts }
}

/// Why the announce handshake failed.
#[derive(Debug, Clone, PartialEq, Eq)]
pub enum HandshakeError {
    /// The host sent something other than an announce first.
    Unexpected(StructureMessage),
    /// The host closed the structure stream before announcing.
    Closed,
}

/// The first message from a host must announce its surface (`Announce`, or
/// `ReconnectOk` from a host that is re-joining).
pub fn expect_announce(first: Option<StructureMessage>) -> (r: Result<SurfaceAnnounce, HandshakeError>)
    ensures
        match first {
            Some(StructureMessage::Announce(a)) => r == Ok::<SurfaceAnnounce, HandshakeError>(a),
            Some(StructureMessage::ReconnectOk(a)) => r == Ok::<SurfaceAnnounce, HandshakeError>(a),
            Some(m) => r == Err::<SurfaceAnnounce, HandshakeError>(HandshakeError::Unexpected(m)),
            None => r == Err::<SurfaceAnnounce, HandshakeError>(HandshakeError::Closed),
        },
{
    match first {
        Some(StructureMessage::Announce(a)) => Ok(a),
        Some(StructureMessage::ReconnectOk(a)) => Ok(a),
        Some(m) => Err(HandshakeError::Unexpected(m)),
        None => Err(HandshakeError::Closed),
    }
}

/// What the link's reader does with a message from the host.
#[derive(Debug, Clone, PartialEq, Eq)]
pub enum LinkEvent {
    /// The host acknowledged a suspend: signal whoever waits for it.
    SuspendAcked,
    /// The host re-joined; the text is its surface's name.
    Reconnected(String),
    /// The host could not re-join; the text is its reason.
    ReconnectFailed(String),
    /// Nothing to do.
    Ignore,
}

/// What the link's reader does with a message from the host.
pub fn link_event(msg: StructureMessage) -> (r: LinkEvent)
    ensures
        match msg {
            StructureMessage::SuspendAck => r is SuspendAcked,
            StructureMessage::ReconnectOk(a) => (r matches LinkEvent::Reconnected(n) && n@ == a.name@),
            StructureMessage::ReconnectFail { reason } => (r matches LinkEvent::ReconnectFailed(t)
                && t@ == reason@),
            _ => r is Ignore,
        },
{
    match msg {
        StructureMessage::SuspendAck => LinkEvent::SuspendAcked,
        StructureMessage::ReconnectOk(a) => LinkEvent::Reconnected(a.name),
        StructureMessage::ReconnectFail { reason } => LinkEvent::ReconnectFailed(reason),
        _ => LinkEvent::Ignore,
    }
}

/// The link's writer stops after sending a `Disconnect`.
pub fn ends_writer(msg: &StructureMessage) -> (r: bool)
    ensures
        r == (*msg is Disconnect),
{
    match msg {
        StructureMessage::Disconnect => true,
        _ => false,
    }
}

// ---------------------------------------------------------------------------
// The headless renderer

/// One visible surface in a strip summary: its name and whether it has
/// focus.
#[derive(Debug, Clone, PartialEq, Eq)]
pub struct VisibleName {
    pub name: String,
    pub focused: bool,
}

/// A surface's entry in a summary: its name, with `*` when focused.
pub open spec fn summary_entry(v: VisibleName) -> Seq<char> {
    v.name@ + if v.focused {
        seq!['*']
    } else {
        Seq::empty()
    }
}

/// The summary of the visible surfaces, left to right, joined by ` | `.
pub open spec fn summary_spec(vs: Seq<VisibleName>) -> Seq<char>
    decreases vs.len(),
{
    if vs.len() == 0 {
        Seq::empty()
    } else if vs.len() == 1 {
        summary_entry(vs[0])
    } else {
        summary_spec(vs.drop_last()) + " | "@ + summary_entry(vs.last())
    }
}

/// The summary of the visible surfaces, left to right, joined by ` | `.
pub fn strip_summary(vs: &Vec<VisibleName>) -> (out: String)
    ensures
        out@ == summary_spec(vs@),
{
    let mut out = String::new();
    let n = vs.len();
    let mut i: usize = 0;
    while i < n
        invariant
            n == vs@.len(),
            i <= n,
            out@ == summary_spec(vs@.take(i as int)),
        decreases n - i,
    {
        proof {
            assert(vs@.take(i + 1).drop_last() =~= vs@.take(i as int));
            assert(vs@.take(i + 1).last() == vs@[i as int]);
        }
        if i > 0 {
            push_str(&mut out, " | ");
        }
        push_str(&mut out, vs[i].name.as_str());
        if vs[i].focused {
            crate::text::push_char(&mut out, '*');
        }
        proof {
            if i == 0 {
                assert(vs@.take(1) =~= seq![vs@[0]]);
            }
            assert(out@ =~= summary_spec(vs@.take(i + 1)));
        }
        i = i + 1;
    }
    proof {
        assert(vs@.take(n as int) =~= vs@);
    }
    out
}

/// A renderer that draws nothing and only logs the strip's state, when the
/// visible composition changes.
pub struct HeadlessRenderer {
    last_log: Option<String>,
}

impl HeadlessRenderer {
    /// A renderer that has logged nothing yet.
    pub fn new() -> (out: HeadlessRenderer)
        ensures
            out.last_line() is None,
    {
        HeadlessRenderer { last_log: None }
    }

    /// The last line logged, if any.
    pub closed spec fn last_line(&self) -> Option<Seq<char>> {
        match self.last_log {
            Some(s) => Some(s@),
            None => None,
        }
    }

    /// Whether `line` is to be logged: it is when it differs from the last
    /// line logged, which it then becomes.
    pub fn should_log(&mut self, line: String) -> (r: bool)
        ensures
            r == (old(self).last_line() != Some(line@)),
            final(self).last_line() == Some(line@),
    {
        let same = match &self.last_log {
            Some(prev) => str_eq(prev.as_str(), line.as_str()),
            None => false,
        };
        if !same {
            self.last_log = Some(line);
        }
        !same
    }
}

} // verus!
