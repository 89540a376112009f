//! What holds of a source over any course of events.

use crate::packet::{CapturedPacket, Packet};
use crate::source::{
    lemma_capture_wf, lemma_close_wf, lemma_poll_wf, lemma_wf_frame, CaptureOutcome, Delivery,
    Dispatch, SourceView,
};
use crate::verdict::Verdict;
use vstd::prelude::*;

verus! {

/// One request to a source.
pub enum Event {
    /// `register` with the liveness signal as it stands.
    Register { alive: bool },
    /// `capture` of a packet.
    Capture { packet: CapturedPacket },
    /// `poll` by a worker with the liveness signal as it stands.
    Poll { worker: int, alive: bool },
    /// `complete`: the callback invocation of a worker has returned `keep`.
    Complete { worker: int, keep: bool },
    /// `report_failure` by a worker.
    Failure { worker: int },
    /// `set_verdict` on a packet.
    SetVerdict { delivery: Delivery, verdict: Verdict },
    /// `set_cancel_func`.
    SetCancelFunc,
    /// `cancel`.
    Cancel,
    /// `close`.
    Close,
}

/// The state after one request.
pub open spec fn step(s: SourceView, e: Event) -> SourceView {
    match e {
        Event::Register { alive } => s.after_register(alive),
        Event::Capture { packet } => s.after_capture(packet),
        Event::Poll { worker, alive } => s.after_poll(worker, alive),
        Event::Complete { worker, keep } => s.after_complete(worker, keep),
        Event::Failure { worker } => s.after_failure(worker),
        Event::SetVerdict { delivery, verdict } => s.after_verdict(delivery, verdict),
        Event::SetCancelFunc => s.after_hook(),
        Event::Cancel => s.after_cancel(),
        Event::Close => s.after_close(),
    }
}

/// The state after a course of requests.
pub open spec fn run(s: SourceView, events: Seq<Event>) -> SourceView
    decreases events.len(),
{
    if events.len() == 0 {
        s
    } else {
        step(run(s, events.drop_last()), events.last())
    }
}

/// The packet that a request hands to the callback, if it hands one.
pub open spec fn delivered(s: SourceView, e: Event) -> Option<Delivery> {
    match e {
        Event::Poll { worker, alive } => match s.poll_result(worker, alive) {
            Dispatch::Deliver(d) => Some(d),
            _ => None,
        },
        _ => None,
    }
}

/// Whether a request makes the callback be invoked, with a packet or with an
/// error.
pub open spec fn invokes(s: SourceView, e: Event) -> bool {
    match e {
        Event::Poll { worker, alive } => s.poll_result(worker, alive) is Deliver,
        Event::Failure { worker } => s.failure_result(worker),
        _ => false,
    }
}

/// The capture number that a request gives out, if it queues a packet.
pub open spec fn queued(s: SourceView, e: Event) -> Option<u64> {
    match e {
        Event::Capture { packet } => match s.capture_outcome(packet) {
            CaptureOutcome::Queued(seq) => Some(seq),
            _ => None,
        },
        _ => None,
    }
}

/// How many of the flags are up.
pub open spec fn count_up(flags: Seq<bool>) -> nat
    decreases flags.len(),
{
    if flags.len() == 0 {
        0
    } else {
        count_up(flags.drop_last()) + if flags.last() {
            1nat
        } else {
            0nat
        }
    }
}

/// How many callback invocations are under way.
pub open spec fn in_flight(s: SourceView) -> nat {
    count_up(s.busy)
}

/// A new source is in a well-formed state.
pub proof fn lemma_fresh_wf(workers: nat, capacity: nat, mark: u32)
    requires
        workers >= 1,
    ensures
        SourceView::fresh(workers, capacity, mark).wf(),
{
    let s = SourceView::fresh(workers, capacity, mark);
    assert forall|w: int, k: int| #[trigger] s.placed(w, k) implies false by {}
}

/// Every request keeps the state well-formed.
pub proof fn lemma_step_wf(s: SourceView, e: Event)
    requires
        s.wf(),
    ensures
        step(s, e).wf(),
{
    match e {
        Event::Capture { packet } => lemma_capture_wf(s, packet),
        Event::Poll { worker, alive } => lemma_poll_wf(s, worker, alive),
        Event::Close => lemma_close_wf(s),
        _ => lemma_wf_frame(s, step(s, e)),
    }
}

/// Every course of requests keeps the state well-formed.
pub proof fn lemma_run_wf(s: SourceView, events: Seq<Event>)
    requires
        s.wf(),
    ensures
        run(s, events).wf(),
    decreases events.len(),
{
    if events.len() > 0 {
        lemma_run_wf(s, events.drop_last());
        lemma_step_wf(run(s, events.drop_last()), events.last());
    }
}

/// Delivery that has ended never starts again, and the service flag, once
/// down, stays down.
pub proof fn lemma_halted_forever(s: SourceView, events: Seq<Event>)
    requires
        s.halted(),
    ensures
        run(s, events).halted(),
        !s.running ==> !run(s, events).running,
    decreases events.len(),
{
    if events.len() > 0 {
        lemma_halted_forever(s, events.drop_last());
    }
}

/// After the callback has returned `false`, no request makes it be invoked
/// again.
pub proof fn lemma_no_invocation_after_decline(
    s: SourceView,
    worker: int,
    later: Seq<Event>,
    e: Event,
)
    requires
        s.in_callback(worker),
    ensures
        !invokes(run(s.after_complete(worker, false), later), e),
{
    lemma_halted_forever(s.after_complete(worker, false), later);
}

/// After a worker has seen the liveness signal down, no request makes the
/// callback be invoked.
pub proof fn lemma_no_invocation_after_liveness_cleared(
    s: SourceView,
    worker: int,
    later: Seq<Event>,
    e: Event,
)
    ensures
        !invokes(run(s.after_poll(worker, false), later), e),
{
    lemma_halted_forever(s.after_poll(worker, false), later);
}

/// After a registration with the liveness signal down, no request makes the
/// callback be invoked.
pub proof fn lemma_no_invocation_when_registered_dead(s: SourceView, later: Seq<Event>, e: Event)
    requires
        s.register_result() is Ok,
    ensures
        !invokes(run(s.after_register(false), later), e),
{
    lemma_halted_forever(s.after_register(false), later);
}

/// After a request to cancel, no request makes the callback be invoked.
pub proof fn lemma_no_invocation_after_cancel(s: SourceView, later: Seq<Event>, e: Event)
    ensures
        !invokes(run(s.after_cancel(), later), e),
{
    lemma_halted_forever(s.after_cancel(), later);
}

/// After `close`, no request makes the callback be invoked, and closing again
/// changes nothing.
pub proof fn lemma_closed_is_final(s: SourceView, later: Seq<Event>, e: Event)
    ensures
        !invokes(run(s.after_close(), later), e),
        s.after_close().after_close() == s.after_close(),
        s.after_close().close_result() == Seq::<Seq<Delivery>>::empty(),
{
    lemma_halted_forever(s.after_close(), later);
}

proof fn lemma_count_up_bounds(flags: Seq<bool>)
    ensures
        count_up(flags) <= flags.len(),
    decreases flags.len(),
{
    if flags.len() > 0 {
        lemma_count_up_bounds(flags.drop_last());
    }
}

proof fn lemma_count_up_lowered(flags: Seq<bool>, i: int)
    requires
        0 <= i < flags.len(),
    ensures
        count_up(flags.update(i, false)) <= count_up(flags),
    decreases flags.len(),
{
    let lowered = flags.update(i, false);
    if i == flags.len() - 1 {
        assert(lowered.drop_last() =~= flags.drop_last());
    } else {
        assert(lowered.drop_last() =~= flags.drop_last().update(i, false));
        lemma_count_up_lowered(flags.drop_last(), i);
    }
}

proof fn lemma_count_up_none(n: nat)
    ensures
        count_up(Seq::new(n, |w: int| false)) == 0,
    decreases n,
{
    if n > 0 {
        assert(Seq::new(n, |w: int| false).drop_last() =~= Seq::new((n - 1) as nat, |w: int| false));
        lemma_count_up_none((n - 1) as nat);
    }
}

/// Once delivery has ended, only the callback invocations that were under way
/// are left to return: there is one per worker at most, and their number
/// never grows again.
pub proof fn lemma_drain_is_bounded(s: SourceView, later: Seq<Event>)
    requires
        s.wf(),
        s.halted(),
    ensures
        in_flight(run(s, later)) <= in_flight(s) <= s.workers(),
    decreases later.len(),
{
    lemma_count_up_bounds(s.busy);
    if later.len() > 0 {
        let before = run(s, later.drop_last());
        lemma_drain_is_bounded(s, later.drop_last());
        lemma_halted_forever(s, later.drop_last());
        lemma_run_wf(s, later.drop_last());
        match later.last() {
            Event::Complete { worker, keep } => {
                if before.in_callback(worker) {
                    lemma_count_up_lowered(before.busy, worker);
                }
            },
            Event::Close => {
                lemma_count_up_none(before.queues.len());
            },
            _ => {},
        }
    }
}

/// A stream that is settled stays settled.
pub proof fn lemma_settled_forever(s: SourceView, stream: u32, events: Seq<Event>)
    requires
        s.settled.contains_key(stream),
    ensures
        run(s, events).settled.contains_key(stream),
    decreases events.len(),
{
    if events.len() > 0 {
        lemma_settled_forever(s, stream, events.drop_last());
    }
}

/// After a verdict on a whole stream, no packet of that stream reaches the
/// callback, and none is queued: what is captured of the stream is handed
/// back at once.
pub proof fn lemma_settled_stream_is_not_delivered(
    s: SourceView,
    delivery: Delivery,
    verdict: Verdict,
    later: Seq<Event>,
    e: Event,
)
    requires
        s.verdict_error(delivery) is None,
        verdict.settles_stream(),
    ensures
        match delivered(run(s.after_verdict(delivery, verdict), later), e) {
            Some(d) => d.packet.stream() != delivery.packet.stream(),
            None => true,
        },
        match e {
            Event::Capture { packet } => packet.stream() == delivery.packet.stream() ==> queued(
                run(s.after_verdict(delivery, verdict), later),
                e,
            ) is None,
            _ => true,
        },
{
    lemma_settled_forever(s.after_verdict(delivery, verdict), delivery.packet.stream(), later);
}

/// The kernel mark of protected connections never changes.
pub proof fn lemma_mark_is_fixed(s: SourceView, events: Seq<Event>)
    ensures
        run(s, events).mark == s.mark,
    decreases events.len(),
{
    if events.len() > 0 {
        lemma_mark_is_fixed(s, events.drop_last());
    }
}

/// A packet that flows over a protected connection never reaches the
/// callback: what carries the source's kernel mark is neither queued nor
/// delivered.
pub proof fn lemma_protected_traffic_is_not_delivered(s: SourceView, events: Seq<Event>, e: Event)
    requires
        s.wf(),
    ensures
        match delivered(run(s, events), e) {
            Some(d) => d.packet.kernel_mark() != Some(s.mark),
            None => true,
        },
        match e {
            Event::Capture { packet } => packet.kernel_mark() == Some(s.mark) ==> queued(
                run(s, events),
                e,
            ) is None,
            _ => true,
        },
{
    let now = run(s, events);
    lemma_run_wf(s, events);
    lemma_mark_is_fixed(s, events);
    match e {
        Event::Poll { worker, alive } => {
            if now.poll_result(worker, alive) is Deliver {
                assert(now.placed(worker, 0));
            }
        },
        _ => {},
    }
}

/// Whether every capture number in use, or still to be given out, for a
/// packet of `stream` lies above `floor`.
pub open spec fn above(s: SourceView, stream: u32, floor: u64) -> bool {
    &&& s.next_seq > floor
    &&& forall|w: int, k: int| #[trigger]
        s.placed(w, k) && s.item(w, k).packet.stream() == stream ==> s.item(w, k).seq > floor
}

proof fn lemma_above_frame(s: SourceView, t: SourceView, stream: u32, floor: u64)
    requires
        above(s, stream, floor),
        t.queues == s.queues,
        t.next_seq >= s.next_seq,
    ensures
        above(t, stream, floor),
{
    assert forall|w: int, k: int| #[trigger]
        t.placed(w, k) && t.item(w, k).packet.stream() == stream implies t.item(w, k).seq
        > floor by {
        assert(s.placed(w, k));
    }
}

proof fn lemma_step_above(s: SourceView, e: Event, stream: u32, floor: u64)
    requires
        s.wf(),
        above(s, stream, floor),
    ensures
        above(step(s, e), stream, floor),
{
    let t = step(s, e);
    if t.queues == s.queues {
        lemma_above_frame(s, t, stream, floor);
    } else {
        match e {
            Event::Capture { packet } => {
                let v = s.worker_of(packet.stream());
                let last = s.queues[v].len() as int;
                assert(0 <= v < s.workers()) by (nonlinear_arith)
                    requires
                        v == packet.stream() as int % s.workers(),
                        s.workers() >= 1,
                ;
                assert forall|w: int, k: int| #[trigger]
                    t.placed(w, k) && t.item(w, k).packet.stream() == stream implies t.item(
                    w,
                    k,
                ).seq > floor by {
                    if w == v && k == last {
                    } else {
                        assert(s.placed(w, k));
                        assert(t.item(w, k) == s.item(w, k));
                    }
                }
            },
            Event::Poll { worker, alive } => {
                assert forall|w: int, k: int| #[trigger]
                    t.placed(w, k) && t.item(w, k).packet.stream() == stream implies t.item(
                    w,
                    k,
                ).seq > floor by {
                    let a = if w == worker {
                        k + 1
                    } else {
                        k
                    };
                    assert(s.placed(w, a));
                    assert(t.item(w, k) == s.item(w, a));
                }
            },
            Event::Close => {
                assert forall|w: int, k: int| #[trigger] t.placed(w, k) implies false by {}
            },
            _ => {},
        }
    }
}

proof fn lemma_run_above(s: SourceView, events: Seq<Event>, stream: u32, floor: u64)
    requires
        s.wf(),
        above(s, stream, floor),
    ensures
        above(run(s, events), stream, floor),
    decreases events.len(),
{
    if events.len() > 0 {
        lemma_run_above(s, events.drop_last(), stream, floor);
        lemma_run_wf(s, events.drop_last());
        lemma_step_above(run(s, events.drop_last()), events.last(), stream, floor);
    }
}

/// Capture numbers are given out in the order of capture: of two queued
/// packets the one captured later has the greater number.
pub proof fn lemma_capture_numbers_grow(
    s: SourceView,
    first: Event,
    between: Seq<Event>,
    second: Event,
)
    requires
        s.wf(),
        queued(s, first) is Some,
        queued(run(step(s, first), between), second) is Some,
    ensures
        queued(s, first)->Some_0 < queued(run(step(s, first), between), second)->Some_0,
{
    lemma_step_wf(s, first);
    lemma_next_number_grows(step(s, first), between);
}

proof fn lemma_next_number_grows(s: SourceView, events: Seq<Event>)
    ensures
        run(s, events).next_seq >= s.next_seq,
    decreases events.len(),
{
    if events.len() > 0 {
        lemma_next_number_grows(s, events.drop_last());
    }
}

/// The packets of one stream reach the callback in the order of their
/// capture: of two deliveries of the same stream the later one has the
/// greater capture number.
pub proof fn lemma_stream_order(s: SourceView, first: Event, between: Seq<Event>, second: Event)
    requires
        s.wf(),
        delivered(s, first) is Some,
        delivered(run(step(s, first), between), second) is Some,
        delivered(s, first)->Some_0.packet.stream() == delivered(
            run(step(s, first), between),
            second,
        )->Some_0.packet.stream(),
    ensures
        delivered(s, first)->Some_0.seq < delivered(run(step(s, first), between), second)->Some_0.seq,
{
    let a = delivered(s, first)->Some_0;
    let stream = a.packet.stream();
    let t = step(s, first);
    let worker = first->Poll_worker;
    assert(s.placed(worker, 0));
    assert(s.item(worker, 0) == a);
    lemma_step_wf(s, first);
    assert forall|w: int, k: int| #[trigger]
        t.placed(w, k) && t.item(w, k).packet.stream() == stream implies t.item(w, k).seq
        > a.seq by {
        assert(t.worker_of(stream) == w);
        assert(w == worker);
        assert(s.placed(w, k + 1));
        assert(t.item(w, k) == s.item(w, k + 1));
        assert(s.item(w, 0).seq < s.item(w, k + 1).seq);
    }
    lemma_run_above(t, between, stream, a.seq);
    let now = run(t, between);
    let later_worker = second->Poll_worker;
    assert(now.placed(later_worker, 0));
}

/// Whether the capture number `seq` stands for `packet` wherever it is in
/// use.
pub open spec fn stands_for(s: SourceView, seq: u64, packet: CapturedPacket) -> bool {
    &&& s.next_seq > seq
    &&& forall|w: int, k: int| #[trigger]
        s.placed(w, k) && s.item(w, k).seq == seq ==> s.item(w, k).packet == packet
}

proof fn lemma_step_stands_for(s: SourceView, e: Event, seq: u64, packet: CapturedPacket)
    requires
        s.wf(),
        stands_for(s, seq, packet),
    ensures
        stands_for(step(s, e), seq, packet),
{
    let t = step(s, e);
    if t.queues == s.queues {
        assert forall|w: int, k: int| #[trigger]
            t.placed(w, k) && t.item(w, k).seq == seq implies t.item(w, k).packet == packet by {
            assert(s.placed(w, k));
        }
    } else {
        match e {
            Event::Capture { packet: other } => {
                let v = s.worker_of(other.stream());
                let last = s.queues[v].len() as int;
                assert(0 <= v < s.workers()) by (nonlinear_arith)
                    requires
                        v == other.stream() as int % s.workers(),
                        s.workers() >= 1,
                ;
                assert forall|w: int, k: int| #[trigger]
                    t.placed(w, k) && t.item(w, k).seq == seq implies t.item(w, k).packet
                    == packet by {
                    if w == v && k == last {
                    } else {
                        assert(s.placed(w, k));
                        assert(t.item(w, k) == s.item(w, k));
                    }
                }
            },
            Event::Poll { worker, alive } => {
                assert forall|w: int, k: int| #[trigger]
                    t.placed(w, k) && t.item(w, k).seq == seq implies t.item(w, k).packet
                    == packet by {
                    let a = if w == worker {
                        k + 1
                    } else {
                        k
                    };
                    assert(s.placed(w, a));
                    assert(t.item(w, k) == s.item(w, a));
                }
            },
            Event::Close => {
                assert forall|w: int, k: int| #[trigger] t.placed(w, k) implies false by {}
            },
            _ => {},
        }
    }
}

proof fn lemma_run_stands_for(s: SourceView, events: Seq<Event>, seq: u64, packet: CapturedPacket)
    requires
        s.wf(),
        stands_for(s, seq, packet),
    ensures
        stands_for(run(s, events), seq, packet),
    decreases events.len(),
{
    if events.len() > 0 {
        lemma_run_stands_for(s, events.drop_last(), seq, packet);
        lemma_run_wf(s, events.drop_last());
        lemma_step_stands_for(run(s, events.drop_last()), events.last(), seq, packet);
    }
}

/// What reaches the callback under a capture number is the packet that was
/// captured under it.
pub proof fn lemma_delivery_is_capture(
    s: SourceView,
    packet: CapturedPacket,
    between: Seq<Event>,
    e: Event,
)
    requires
        s.wf(),
        s.capture_outcome(packet) is Queued,
        delivered(run(s.after_capture(packet), between), e) is Some,
        delivered(run(s.after_capture(packet), between), e)->Some_0.seq == s.next_seq,
    ensures
        delivered(run(s.after_capture(packet), between), e)->Some_0.packet == packet,
{
    let t = s.after_capture(packet);
    let seq = s.next_seq;
    lemma_capture_wf(s, packet);
    let v = s.worker_of(packet.stream());
    let last = s.queues[v].len() as int;
    assert(0 <= v < s.workers()) by (nonlinear_arith)
        requires
            v == packet.stream() as int % s.workers(),
            s.workers() >= 1,
    ;
    assert forall|w: int, k: int| #[trigger]
        t.placed(w, k) && t.item(w, k).seq == seq implies t.item(w, k).packet == packet by {
        if w == v && k == last {
        } else {
            assert(s.placed(w, k));
            assert(t.item(w, k) == s.item(w, k));
        }
    }
    lemma_run_stands_for(t, between, seq, packet);
    let now = run(t, between);
    let worker = e->Poll_worker;
    assert(now.placed(worker, 0));
}

/// Whether the capture number `seq` is used up: no packet waits under it and
/// no verdict is out for it, now or ever again.
pub open spec fn retired(s: SourceView, seq: u64) -> bool {
    &&& s.next_seq > seq
    &&& !s.awaiting.contains_key(seq)
    &&& forall|w: int, k: int| #[trigger] s.placed(w, k) ==> s.item(w, k).seq != seq
}

proof fn lemma_step_retired(s: SourceView, e: Event, seq: u64)
    requires
        s.wf(),
        retired(s, seq),
    ensures
        retired(step(s, e), seq),
{
    let t = step(s, e);
    if t.queues == s.queues {
        assert forall|w: int, k: int| #[trigger] t.placed(w, k) implies t.item(w, k).seq
            != seq by {
            assert(s.placed(w, k));
        }
    } else {
        match e {
            Event::Capture { packet: other } => {
                let v = s.worker_of(other.stream());
                let last = s.queues[v].len() as int;
                assert(0 <= v < s.workers()) by (nonlinear_arith)
                    requires
                        v == other.stream() as int % s.workers(),
                        s.workers() >= 1,
                ;
                assert forall|w: int, k: int| #[trigger] t.placed(w, k) implies t.item(w, k).seq
                    != seq by {
                    if w == v && k == last {
                    } else {
                        assert(s.placed(w, k));
                        assert(t.item(w, k) == s.item(w, k));
                    }
                }
            },
            Event::Poll { worker, alive } => {
                assert(s.placed(worker, 0));
                assert forall|w: int, k: int| #[trigger] t.placed(w, k) implies t.item(w, k).seq
                    != seq by {
                    let a = if w == worker {
                        k + 1
                    } else {
                        k
                    };
                    assert(s.placed(w, a));
                    assert(t.item(w, k) == s.item(w, a));
                }
            },
            Event::Close => {
                assert forall|w: int, k: int| #[trigger] t.placed(w, k) implies false by {}
            },
            _ => {},
        }
    }
}

proof fn lemma_run_retired(s: SourceView, events: Seq<Event>, seq: u64)
    requires
        s.wf(),
        retired(s, seq),
    ensures
        retired(run(s, events), seq),
    decreases events.len(),
{
    if events.len() > 0 {
        lemma_run_retired(s, events.drop_last(), seq);
        lemma_run_wf(s, events.drop_last());
        lemma_step_retired(run(s, events.drop_last()), events.last(), seq);
    }
}

/// No packet has two verdicts applied: once `set_verdict` has succeeded for a
/// capture number, it fails for that number ever after.
pub proof fn lemma_one_verdict_per_packet(
    s: SourceView,
    delivery: Delivery,
    verdict: Verdict,
    between: Seq<Event>,
    again: Delivery,
)
    requires
        s.wf(),
        s.verdict_error(delivery) is None,
        again.seq == delivery.seq,
    ensures
        run(s.after_verdict(delivery, verdict), between).verdict_error(again) is Some,
{
    let t = s.after_verdict(delivery, verdict);
    lemma_wf_frame(s, t);
    assert forall|w: int, k: int| #[trigger] t.placed(w, k) implies t.item(w, k).seq
        != delivery.seq by {
        assert(s.placed(w, k));
    }
    lemma_run_retired(t, between, delivery.seq);
}

} // verus!
