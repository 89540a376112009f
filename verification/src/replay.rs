//! The pacing of a replay backend: how long it waits before each packet of a
//! capture file.

use crate::config::CliConfigReplay;
use crate::packet::Timestamp;
use vstd::prelude::*;

verus! {

/// The nanoseconds to wait before a packet captured at `current`, where the
/// packet before it, if any, was captured at `previous`. Out of real-time mode
/// there is no wait. In real-time mode the wait is the time that lay between
/// the two captures; a packet stamped earlier than the one before it goes out
/// at once.
pub open spec fn pause(realtime: bool, previous: Option<Timestamp>, current: Timestamp) -> nat {
    match previous {
        Some(p) => if realtime && current.nanos > p.nanos {
            (current.nanos - p.nanos) as nat
        } else {
            0
        },
        None => 0,
    }
}

/// The nanoseconds that a replay waits in all while it delivers the packets
/// captured at `stamps`, the first of them at once.
pub open spec fn total_pause(realtime: bool, stamps: Seq<Timestamp>) -> nat
    decreases stamps.len(),
{
    if stamps.len() <= 1 {
        0
    } else {
        total_pause(realtime, stamps.drop_last()) + pause(
            realtime,
            Some(stamps[stamps.len() - 2]),
            stamps.last(),
        )
    }
}

/// Whether no capture time lies before the one in front of it.
pub open spec fn in_time_order(stamps: Seq<Timestamp>) -> bool {
    forall|i: int, j: int| 0 <= i <= j < stamps.len() ==> stamps[i].nanos <= stamps[j].nanos
}

/// Out of real-time mode a replay never waits, whatever the capture times
/// are.
pub proof fn lemma_fast_replay_never_waits(stamps: Seq<Timestamp>)
    ensures
        total_pause(false, stamps) == 0,
    decreases stamps.len(),
{
    if stamps.len() > 1 {
        lemma_fast_replay_never_waits(stamps.drop_last());
    }
}

/// In real-time mode a replay of packets in time order takes as long as the
/// capture took: the last packet goes out as long after the first as it was
/// captured after it.
pub proof fn lemma_realtime_replay_keeps_time(stamps: Seq<Timestamp>)
    requires
        stamps.len() >= 1,
        in_time_order(stamps),
    ensures
        total_pause(true, stamps) == stamps.last().nanos - stamps[0].nanos,
    decreases stamps.len(),
{
    if stamps.len() > 1 {
        let shorter = stamps.drop_last();
        assert(in_time_order(shorter)) by {
            assert forall|i: int, j: int| 0 <= i <= j < shorter.len() implies shorter[i].nanos
                <= shorter[j].nanos by {
                assert(stamps[i].nanos <= stamps[j].nanos);
            }
        }
        lemma_realtime_replay_keeps_time(shorter);
        assert(shorter.last() == stamps[stamps.len() - 2]);
        assert(stamps[stamps.len() - 2].nanos <= stamps[stamps.len() - 1].nanos);
    }
}

/// What a replay backend remembers between two packets.
#[derive(Debug, Clone, Copy)]
pub struct Pacer {
    /// Whether delivery keeps the pace of the capture.
    pub realtime: bool,
    /// The capture time of the packet delivered last.
    pub previous: Option<Timestamp>,
}

impl Pacer {
    /// A pacer for a replay that has delivered nothing yet.
    pub fn new(config: &CliConfigReplay) -> (p: Pacer)
        ensures
            p.realtime == config.realtime,
            p.previous is None,
    {
        Pacer { realtime: config.realtime, previous: None }
    }

    /// The nanoseconds to wait before the packet captured at `current` is
    /// delivered. The packet counts as delivered from now on.
    pub fn delay_for(&mut self, current: Timestamp) -> (nanos: u128)
        ensures
            nanos == pause(old(self).realtime, old(self).previous, current),
            final(self).realtime == old(self).realtime,
            final(self).previous == Some(current),
    {
        let nanos = replay_delay(self.realtime, self.previous, current);
        self.previous = Some(current);
        nanos
    }
}

/// The nanoseconds to wait before a packet captured at `current`, where the
/// packet before it, if any, was captured at `previous`.
pub fn replay_delay(realtime: bool, previous: Option<Timestamp>, current: Timestamp) -> (nanos:
    u128)
    ensures
        nanos == pause(realtime, previous, current),
{
    match previous {
        Some(p) => if realtime && current.nanos > p.nanos {
            current.nanos - p.nanos
        } else {
            0
        },
        None => 0,
    }
}

} // verus!
