//! The dispositions that an inspection engine may apply to a packet.

use vstd::prelude::*;

verus! {

/// What is done with a delivered packet and, for two of the five, with the
/// rest of its stream.
#[derive(Debug, Clone, Copy, PartialEq, Eq, Structural)]
pub enum Verdict {
    /// Let the packet pass; the stream stays under inspection.
    Accept,
    /// Let a replacement packet pass in place of this one; the stream stays
    /// under inspection.
    AcceptModify,
    /// Let this packet and every later packet of its stream pass without
    /// further inspection.
    AcceptStream,
    /// Discard this packet only; the stream stays under inspection.
    Drop,
    /// Discard this packet and every later packet of its stream.
    DropStream,
}

impl Verdict {
    /// Whether the verdict lets a packet through.
    pub open spec fn passes(self) -> bool {
        self is Accept || self is AcceptModify || self is AcceptStream
    }

    /// Whether the verdict decides the rest of the stream as well.
    pub open spec fn settles_stream(self) -> bool {
        self is AcceptStream || self is DropStream
    }

    /// Whether the verdict comes with a replacement payload.
    pub open spec fn replaces_payload(self) -> bool {
        self is AcceptModify
    }

    /// Whether the verdict lets a packet through.
    pub fn is_pass(&self) -> (r: bool)
        ensures
            r == self.passes(),
    {
        match self {
            Verdict::Accept => true,
            Verdict::AcceptModify => true,
            Verdict::AcceptStream => true,
            Verdict::Drop => false,
            Verdict::DropStream => false,
        }
    }

    /// Whether the verdict decides the rest of the stream as well.
    pub fn is_stream_level(&self) -> (r: bool)
        ensures
            r == self.settles_stream(),
    {
        match self {
            Verdict::AcceptStream => true,
            Verdict::DropStream => true,
            _ => false,
        }
    }

    /// Whether the verdict comes with a replacement payload.
    pub fn is_modify(&self) -> (r: bool)
        ensures
            r == self.replaces_payload(),
    {
        match self {
            Verdict::AcceptModify => true,
            _ => false,
        }
    }

    /// The verdict that settles a stream one way or the other.
    pub fn for_stream(pass: bool) -> (r: Verdict)
        ensures
            r.settles_stream(),
            r.passes() == pass,
    {
        if pass {
            Verdict::AcceptStream
        } else {
            Verdict::DropStream
        }
    }
}

} // verus!
