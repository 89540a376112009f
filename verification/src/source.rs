//! The decisions of a packet source: which captured packet goes to the
//! consumer's callback and when, which is passed or discarded without asking,
//! and when delivery ends. A backend performs the reads, the callback
//! invocations and the verdict writes; before and after each it asks the
//! `Source` held here.

use crate::config::CliConfig;
use crate::packet::{CapturedPacket, Packet};
use crate::verdict::Verdict;
use std::collections::HashMap;
use vstd::prelude::*;

verus! {

broadcast use vstd::std_specs::hash::group_hash_axioms;

/// Why a source refuses a request.
#[derive(Debug, Clone, Copy, PartialEq, Eq, Structural)]
pub enum SourceError {
    /// A callback was registered before.
    AlreadyRegistered,
    /// The source was closed.
    Closed,
    /// A source needs one worker at least.
    NoWorkers,
    /// The packet is not awaiting a verdict of this source: it came from
    /// elsewhere, or its verdict was applied before.
    UnknownPacket,
}

/// A queued or delivered packet, with the number it got at capture.
#[derive(Debug)]
pub struct Delivery {
    /// The position of the packet in the order of capture.
    pub seq: u64,
    /// The packet.
    pub packet: CapturedPacket,
}

/// What became of a captured packet.
#[derive(Debug)]
pub enum CaptureOutcome {
    /// The source is not delivering: the packet is handed back.
    Halted(CapturedPacket),
    /// The packet flows over a protected connection: it is handed back to be
    /// passed on untouched, and is never shown to the callback.
    Bypass(CapturedPacket),
    /// The packet's stream was settled before: the packet is handed back to be
    /// passed (`true`) or discarded (`false`) without asking the callback.
    Settled(CapturedPacket, bool),
    /// The queue of the packet's worker is full, or the capture numbers have
    /// run out: the packet is handed back for the backend's overflow policy.
    Overflow(CapturedPacket),
    /// The packet waits in its worker's queue under this capture number.
    Queued(u64),
}

/// What a worker does next.
#[derive(Debug)]
pub enum Dispatch {
    /// Delivery is over: no callback is invoked any more.
    Halt,
    /// Nothing to do for this worker now: its callback is still under way, it
    /// has no packet waiting, or there is no such worker.
    Wait,
    /// The packet's stream was settled while the packet waited: the packet is
    /// to be passed (`true`) or discarded (`false`) without asking the
    /// callback.
    Finalize(CapturedPacket, bool),
    /// The packet goes to the callback.
    Deliver(Delivery),
}

/// What the backend does with a packet on the consumer's verdict.
#[derive(Debug)]
pub struct Ruling {
    /// The packet that the verdict is about.
    pub packet: CapturedPacket,
    /// Whether the packet passes.
    pub pass: bool,
    /// The payload that passes in place of the packet's own.
    pub replacement: Option<Vec<u8>>,
}

/// What the backend needs to open a connection that it will not intercept.
#[derive(Debug)]
pub struct ProtectedDial {
    /// Where to connect to.
    pub address: String,
    /// The kernel mark to put on the connection.
    pub mark: u32,
}

/// The queues of all workers as mathematical data.
pub open spec fn rows(queues: Vec<Vec<Delivery>>) -> Seq<Seq<Delivery>> {
    Seq::new(queues@.len(), |w: int| queues@[w]@)
}

/// The state of a source as mathematical data.
pub struct SourceView {
    /// Whether a callback was registered.
    pub registered: bool,
    /// Whether the service should keep running. Once false, it stays false.
    pub running: bool,
    /// Whether the source was closed.
    pub closed: bool,
    /// Whether a cancellation hook is installed and was not yet invoked.
    pub hook: bool,
    /// The kernel mark of protected connections.
    pub mark: u32,
    /// How many packets a worker's queue holds at most.
    pub capacity: nat,
    /// For each worker the packets that wait for it, the oldest first.
    pub queues: Seq<Seq<Delivery>>,
    /// For each worker whether a callback invocation of it is under way.
    pub busy: Seq<bool>,
    /// The delivered packets whose verdict is still out: capture number to
    /// stream.
    pub awaiting: Map<u64, u32>,
    /// The settled streams: stream to whether its packets pass.
    pub settled: Map<u32, bool>,
    /// The capture number of the next queued packet.
    pub next_seq: u64,
}

impl SourceView {
    /// The number of workers.
    pub open spec fn workers(self) -> int {
        self.queues.len() as int
    }

    /// The worker that serves a stream. One stream has one worker, so that its
    /// packets stay in order.
    pub open spec fn worker_of(self, stream: u32) -> int {
        stream as int % self.workers()
    }

    /// The packet at place `k` of the queue of worker `w`.
    pub open spec fn item(self, w: int, k: int) -> Delivery {
        self.queues[w][k]
    }

    /// Whether `w` and `k` name a place in a queue.
    pub open spec fn placed(self, w: int, k: int) -> bool {
        0 <= w < self.queues.len() && 0 <= k < self.queues[w].len()
    }

    /// Whether packets are being delivered.
    pub open spec fn delivering(self) -> bool {
        self.registered && self.running && !self.closed
    }

    /// Whether delivery has ended for good.
    pub open spec fn halted(self) -> bool {
        !self.running || self.closed
    }

    /// What holds of every state that a source goes through.
    pub open spec fn wf(self) -> bool {
        &&& self.queues.len() >= 1
        &&& self.busy.len() == self.queues.len()
        &&& self.closed ==> !self.running
        &&& forall|w: int| 0 <= w < self.queues.len() ==> (#[trigger] self.queues[w]).len() <= self.capacity
        &&& forall|w: int, k: int| #[trigger]
            self.placed(w, k) ==> {
                &&& self.item(w, k).seq < self.next_seq
                &&& self.worker_of(self.item(w, k).packet.stream()) == w
                &&& self.item(w, k).packet.kernel_mark() != Some(self.mark)
                &&& !self.awaiting.contains_key(self.item(w, k).seq)
            }
        &&& forall|w: int, j: int, k: int|
            self.placed(w, j) && self.placed(w, k) && j < k ==> (#[trigger] self.item(w, j)).seq < (
            #[trigger] self.item(w, k)).seq
        &&& forall|w: int, j: int, v: int, k: int|
            self.placed(w, j) && self.placed(v, k) && w != v ==> (#[trigger] self.item(w, j)).seq != (
            #[trigger] self.item(v, k)).seq
        &&& forall|seq: u64| #[trigger] self.awaiting.contains_key(seq) ==> seq < self.next_seq
    }

    /// The state of a new source.
    pub open spec fn fresh(workers: nat, capacity: nat, mark: u32) -> SourceView {
        SourceView {
            registered: false,
            running: true,
            closed: false,
            hook: false,
            mark,
            capacity,
            queues: Seq::new(workers, |w: int| Seq::<Delivery>::empty()),
            busy: Seq::new(workers, |w: int| false),
            awaiting: Map::empty(),
            settled: Map::empty(),
            next_seq: 0,
        }
    }

    /// What `register` answers.
    pub open spec fn register_result(self) -> Result<(), SourceError> {
        if self.closed {
            Err(SourceError::Closed)
        } else if self.registered {
            Err(SourceError::AlreadyRegistered)
        } else {
            Ok(())
        }
    }

    /// The state after `register`.
    pub open spec fn after_register(self, alive: bool) -> SourceView {
        if self.register_result() is Ok {
            SourceView { registered: true, running: self.running && alive, ..self }
        } else {
            self
        }
    }

    /// What `capture` answers.
    pub open spec fn capture_outcome(self, packet: CapturedPacket) -> CaptureOutcome {
        if !self.delivering() {
            CaptureOutcome::Halted(packet)
        } else if packet.kernel_mark() == Some(self.mark) {
            CaptureOutcome::Bypass(packet)
        } else if self.settled.contains_key(packet.stream()) {
            CaptureOutcome::Settled(packet, self.settled[packet.stream()])
        } else if self.queues[self.worker_of(packet.stream())].len() >= self.capacity
            || self.next_seq == u64::MAX {
            CaptureOutcome::Overflow(packet)
        } else {
            CaptureOutcome::Queued(self.next_seq)
        }
    }

    /// The state after `capture`.
    pub open spec fn after_capture(self, packet: CapturedPacket) -> SourceView {
        if self.capture_outcome(packet) is Queued {
            let w = self.worker_of(packet.stream());
            SourceView {
                queues: self.queues.update(
                    w,
                    self.queues[w].push(Delivery { seq: self.next_seq, packet }),
                ),
                next_seq: (self.next_seq + 1) as u64,
                ..self
            }
        } else {
            self
        }
    }

    /// What `poll` answers.
    pub open spec fn poll_result(self, worker: int, alive: bool) -> Dispatch {
        if !self.delivering() || !alive {
            Dispatch::Halt
        } else if !(0 <= worker < self.workers()) || self.busy[worker] || self.queues[worker].len()
            == 0 {
            Dispatch::Wait
        } else {
            let first = self.queues[worker][0];
            if self.settled.contains_key(first.packet.stream()) {
                Dispatch::Finalize(first.packet, self.settled[first.packet.stream()])
            } else {
                Dispatch::Deliver(first)
            }
        }
    }

    /// The state after `poll`.
    pub open spec fn after_poll(self, worker: int, alive: bool) -> SourceView {
        match self.poll_result(worker, alive) {
            Dispatch::Halt => if self.closed {
                self
            } else {
                SourceView { running: self.running && alive, ..self }
            },
            Dispatch::Wait => self,
            Dispatch::Finalize(_, _) => SourceView {
                queues: self.queues.update(worker, self.queues[worker].drop_first()),
                ..self
            },
            Dispatch::Deliver(first) => SourceView {
                queues: self.queues.update(worker, self.queues[worker].drop_first()),
                busy: self.busy.update(worker, true),
                awaiting: self.awaiting.insert(first.seq, first.packet.stream()),
                ..self
            },
        }
    }

    /// Whether worker `worker` has a callback invocation under way.
    pub open spec fn in_callback(self, worker: int) -> bool {
        0 <= worker < self.workers() && self.busy[worker]
    }

    /// The state after `complete`.
    pub open spec fn after_complete(self, worker: int, keep: bool) -> SourceView {
        if self.in_callback(worker) {
            SourceView {
                busy: self.busy.update(worker, false),
                running: self.running && keep,
                ..self
            }
        } else {
            self
        }
    }

    /// What `report_failure` answers: whether the callback is invoked with the
    /// error.
    pub open spec fn failure_result(self, worker: int) -> bool {
        self.delivering() && 0 <= worker < self.workers() && !self.busy[worker]
    }

    /// The state after `report_failure`.
    pub open spec fn after_failure(self, worker: int) -> SourceView {
        if self.failure_result(worker) {
            SourceView { busy: self.busy.update(worker, true), ..self }
        } else {
            self
        }
    }

    /// Whether a packet is one that this source delivered and whose verdict is
    /// still out.
    pub open spec fn awaits(self, delivery: Delivery) -> bool {
        self.awaiting.contains_key(delivery.seq) && self.awaiting[delivery.seq]
            == delivery.packet.stream()
    }

    /// Why `set_verdict` fails, if it does.
    pub open spec fn verdict_error(self, delivery: Delivery) -> Option<SourceError> {
        if self.closed {
            Some(SourceError::Closed)
        } else if !self.awaits(delivery) {
            Some(SourceError::UnknownPacket)
        } else {
            None
        }
    }

    /// The state after `set_verdict`.
    pub open spec fn after_verdict(self, delivery: Delivery, verdict: Verdict) -> SourceView {
        if self.verdict_error(delivery) is None {
            SourceView {
                awaiting: self.awaiting.remove(delivery.seq),
                settled: if verdict.settles_stream() {
                    self.settled.insert(delivery.packet.stream(), verdict.passes())
                } else {
                    self.settled
                },
                ..self
            }
        } else {
            self
        }
    }

    /// The state after `set_cancel_func`.
    pub open spec fn after_hook(self) -> SourceView {
        if self.closed {
            self
        } else {
            SourceView { hook: true, ..self }
        }
    }

    /// What `cancel` answers: whether the cancellation hook is to be invoked.
    pub open spec fn cancel_result(self) -> bool {
        self.hook && !self.closed
    }

    /// The state after `cancel`.
    pub open spec fn after_cancel(self) -> SourceView {
        if self.closed {
            self
        } else {
            SourceView { running: false, hook: false, ..self }
        }
    }

    /// What `close` answers: for each worker the packets that still waited.
    pub open spec fn close_result(self) -> Seq<Seq<Delivery>> {
        if self.closed {
            Seq::empty()
        } else {
            self.queues
        }
    }

    /// The state after `close`.
    pub open spec fn after_close(self) -> SourceView {
        if self.closed {
            self
        } else {
            SourceView {
                running: false,
                closed: true,
                hook: false,
                queues: Seq::new(self.queues.len(), |w: int| Seq::<Delivery>::empty()),
                busy: Seq::new(self.queues.len(), |w: int| false),
                awaiting: Map::empty(),
                ..self
            }
        }
    }
}

/// Queueing a captured packet keeps the state well-formed.
pub proof fn lemma_capture_wf(s: SourceView, packet: CapturedPacket)
    requires
        s.wf(),
    ensures
        s.after_capture(packet).wf(),
{
    let t = s.after_capture(packet);
    if s.capture_outcome(packet) is Queued {
        let v = s.worker_of(packet.stream());
        assert(0 <= v < s.workers()) by (nonlinear_arith)
            requires
                v == packet.stream() as int % s.workers(),
                s.workers() >= 1,
        ;
        let last = s.queues[v].len() as int;
        assert forall|w: int| 0 <= w < t.queues.len() implies (#[trigger] t.queues[w]).len()
            <= t.capacity by {
            assert(s.queues[w].len() <= s.capacity);
        }
        assert forall|w: int, k: int| #[trigger] t.placed(w, k) implies {
            &&& t.item(w, k).seq < t.next_seq
            &&& t.worker_of(t.item(w, k).packet.stream()) == w
            &&& t.item(w, k).packet.kernel_mark() != Some(t.mark)
            &&& !t.awaiting.contains_key(t.item(w, k).seq)
        } by {
            if w == v && k == last {
                assert(!s.awaiting.contains_key(s.next_seq));
            } else {
                assert(s.placed(w, k));
                assert(t.item(w, k) == s.item(w, k));
            }
        }
        assert forall|w: int, j: int, k: int|
            t.placed(w, j) && t.placed(w, k) && j < k implies (#[trigger] t.item(w, j)).seq < (
        #[trigger] t.item(w, k)).seq by {
            assert(s.placed(w, j));
            assert(t.item(w, j) == s.item(w, j));
            if w == v && k == last {
            } else {
                assert(s.placed(w, k));
                assert(t.item(w, k) == s.item(w, k));
                assert(s.item(w, j).seq < s.item(w, k).seq);
            }
        }
        assert forall|w: int, j: int, u: int, k: int|
            t.placed(w, j) && t.placed(u, k) && w != u implies (#[trigger] t.item(w, j)).seq != (
        #[trigger] t.item(u, k)).seq by {
            if w == v && j == last {
                assert(s.placed(u, k));
                assert(t.item(u, k) == s.item(u, k));
            } else if u == v && k == last {
                assert(s.placed(w, j));
                assert(t.item(w, j) == s.item(w, j));
            } else {
                assert(s.placed(w, j) && s.placed(u, k));
                assert(t.item(w, j) == s.item(w, j));
                assert(t.item(u, k) == s.item(u, k));
                assert(s.item(w, j).seq != s.item(u, k).seq);
            }
        }
    }
}

/// Taking the oldest packet off a worker's queue keeps the state well-formed.
pub proof fn lemma_poll_wf(s: SourceView, worker: int, alive: bool)
    requires
        s.wf(),
    ensures
        s.after_poll(worker, alive).wf(),
{
    let t = s.after_poll(worker, alive);
    match s.poll_result(worker, alive) {
        Dispatch::Halt => {
            lemma_wf_frame(s, t);
        },
        Dispatch::Wait => {},
        _ => {
            let first = s.queues[worker][0];
            assert(s.placed(worker, 0));
            assert(s.item(worker, 0) == first);
            assert forall|w: int| 0 <= w < t.queues.len() implies (#[trigger] t.queues[w]).len()
                <= t.capacity by {
                assert(s.queues[w].len() <= s.capacity);
            }
            assert forall|w: int, k: int| #[trigger] t.placed(w, k) implies {
                &&& t.item(w, k).seq < t.next_seq
                &&& t.worker_of(t.item(w, k).packet.stream()) == w
                &&& t.item(w, k).packet.kernel_mark() != Some(t.mark)
                &&& !t.awaiting.contains_key(t.item(w, k).seq)
            } by {
                if w == worker {
                    assert(s.placed(w, k + 1));
                    assert(t.item(w, k) == s.item(w, k + 1));
                    assert(s.item(w, 0).seq < s.item(w, k + 1).seq);
                } else {
                    assert(s.placed(w, k));
                    assert(t.item(w, k) == s.item(w, k));
                    assert(s.item(w, k).seq != s.item(worker, 0).seq);
                }
            }
            assert forall|w: int, j: int, v: int, k: int|
                t.placed(w, j) && t.placed(v, k) && w != v implies (#[trigger] t.item(w, j)).seq != (
            #[trigger] t.item(v, k)).seq by {
                let a = if w == worker { j + 1 } else { j };
                let b = if v == worker { k + 1 } else { k };
                assert(s.placed(w, a) && s.placed(v, b));
                assert(t.item(w, j) == s.item(w, a));
                assert(t.item(v, k) == s.item(v, b));
                assert(s.item(w, a).seq != s.item(v, b).seq);
            }
            assert forall|w: int, j: int, k: int|
                t.placed(w, j) && t.placed(w, k) && j < k implies (#[trigger] t.item(w, j)).seq < (
            #[trigger] t.item(w, k)).seq by {
                if w == worker {
                    assert(s.placed(w, j + 1) && s.placed(w, k + 1));
                    assert(t.item(w, j) == s.item(w, j + 1));
                    assert(t.item(w, k) == s.item(w, k + 1));
                    assert(s.item(w, j + 1).seq < s.item(w, k + 1).seq);
                } else {
                    assert(s.placed(w, j) && s.placed(w, k));
                    assert(t.item(w, j) == s.item(w, j));
                    assert(t.item(w, k) == s.item(w, k));
                    assert(s.item(w, j).seq < s.item(w, k).seq);
                }
            }
            assert forall|seq: u64| #[trigger] t.awaiting.contains_key(seq) implies seq
                < t.next_seq by {
                if seq != first.seq {
                    assert(s.awaiting.contains_key(seq));
                }
            }
        },
    }
}

/// Closing keeps the state well-formed.
pub proof fn lemma_close_wf(s: SourceView)
    requires
        s.wf(),
    ensures
        s.after_close().wf(),
{
    let t = s.after_close();
    if !s.closed {
        assert forall|w: int, k: int| #[trigger] t.placed(w, k) implies false by {}
    }
}

/// A state that differs from a well-formed one in no queue, and in the rest
/// only as far as the conditions allow, is well-formed.
pub proof fn lemma_wf_frame(s: SourceView, t: SourceView)
    requires
        s.wf(),
        t.queues == s.queues,
        t.busy.len() == s.busy.len(),
        t.capacity == s.capacity,
        t.mark == s.mark,
        t.next_seq >= s.next_seq,
        t.closed ==> !t.running,
        forall|seq: u64| #[trigger] t.awaiting.contains_key(seq) ==> s.awaiting.contains_key(seq),
    ensures
        t.wf(),
{
    assert forall|w: int, k: int| #[trigger] t.placed(w, k) implies {
        &&& t.item(w, k).seq < t.next_seq
        &&& t.worker_of(t.item(w, k).packet.stream()) == w
        &&& t.item(w, k).packet.kernel_mark() != Some(t.mark)
        &&& !t.awaiting.contains_key(t.item(w, k).seq)
    } by {
        assert(s.placed(w, k));
    }
    assert forall|w: int, j: int, k: int| t.placed(w, j) && t.placed(w, k) && j < k implies (
    #[trigger] t.item(w, j)).seq < (#[trigger] t.item(w, k)).seq by {
        assert(s.placed(w, j) && s.placed(w, k));
        assert(s.item(w, j).seq < s.item(w, k).seq);
    }
    assert forall|w: int, j: int, v: int, k: int|
        t.placed(w, j) && t.placed(v, k) && w != v implies (#[trigger] t.item(w, j)).seq != (
    #[trigger] t.item(v, k)).seq by {
        assert(s.placed(w, j) && s.placed(v, k));
        assert(s.item(w, j).seq != s.item(v, k).seq);
    }
}

/// A packet source's book-keeping.
pub struct Source {
    registered: bool,
    running: bool,
    closed: bool,
    hook: bool,
    mark: u32,
    capacity: u32,
    queues: Vec<Vec<Delivery>>,
    busy: Vec<bool>,
    awaiting: HashMap<u64, u32>,
    settled: HashMap<u32, bool>,
    next_seq: u64,
}

impl View for Source {
    type V = SourceView;

    closed spec fn view(&self) -> SourceView {
        SourceView {
            registered: self.registered,
            running: self.running,
            closed: self.closed,
            hook: self.hook,
            mark: self.mark,
            capacity: self.capacity as nat,
            queues: rows(self.queues),
            busy: self.busy@,
            awaiting: self.awaiting@,
            settled: self.settled@,
            next_seq: self.next_seq,
        }
    }
}

impl Source {
    /// Whether the source is in a state that it can be in.
    pub open spec fn inv(&self) -> bool {
        self@.wf()
    }

    /// A source with `workers` workers, each with a queue of `capacity`
    /// packets, whose protected connections carry the kernel mark `mark`.
    pub fn new(workers: usize, capacity: u32, mark: u32) -> (r: Result<Source, SourceError>)
        ensures
            match r {
                Ok(s) => workers > 0 && s.inv() && s@ == SourceView::fresh(
                    workers as nat,
                    capacity as nat,
                    mark,
                ),
                Err(e) => workers == 0 && e == SourceError::NoWorkers,
            },
    {
        if workers == 0 {
            return Err(SourceError::NoWorkers);
        }
        let mut queues: Vec<Vec<Delivery>> = Vec::new();
        let mut busy: Vec<bool> = Vec::new();
        let mut w: usize = 0;
        while w < workers
            invariant
                w <= workers,
                queues@.len() == w,
                busy@.len() == w,
                forall|i: int| 0 <= i < w ==> (#[trigger] queues@[i])@.len() == 0,
                forall|i: int| 0 <= i < w ==> !(#[trigger] busy@[i]),
            decreases workers - w,
        {
            queues.push(Vec::new());
            busy.push(false);
            w += 1;
        }
        let s = Source {
            registered: false,
            running: true,
            closed: false,
            hook: false,
            mark,
            capacity,
            queues,
            busy,
            awaiting: HashMap::new(),
            settled: HashMap::new(),
            next_seq: 0,
        };
        proof {
            let fresh = SourceView::fresh(workers as nat, capacity as nat, mark);
            assert(s@.queues =~= fresh.queues) by {
                assert forall|i: int| 0 <= i < workers implies #[trigger] s@.queues[i]
                    =~= fresh.queues[i] by {}
            }
            assert(s@.busy =~= fresh.busy);
            assert(s@.awaiting =~= fresh.awaiting);
            assert(s@.settled =~= fresh.settled);
        }
        Ok(s)
    }

    /// A source sized by the tuning values: as many workers as
    /// `workers.count` says, each with a queue of `workers.queue_size`
    /// packets.
    pub fn with_config(config: &CliConfig, mark: u32) -> (r: Result<Source, SourceError>)
        ensures
            match r {
                Ok(s) => config.workers.count > 0 && s.inv() && s@ == SourceView::fresh(
                    config.workers.count as nat,
                    config.workers.queue_size as nat,
                    mark,
                ),
                Err(e) => config.workers.count == 0 && e == SourceError::NoWorkers,
            },
    {
        Source::new(config.workers.count, config.workers.queue_size, mark)
    }

    /// Registers the callback: delivery begins, unless the liveness signal
    /// `alive` is down already. A source takes one registration in its life.
    pub fn register(&mut self, alive: bool) -> (r: Result<(), SourceError>)
        requires
            old(self).inv(),
        ensures
            final(self).inv(),
            r == old(self)@.register_result(),
            final(self)@ == old(self)@.after_register(alive),
    {
        if self.closed {
            return Err(SourceError::Closed);
        }
        if self.registered {
            return Err(SourceError::AlreadyRegistered);
        }
        self.registered = true;
        self.running = self.running && alive;
        proof {
            lemma_wf_frame(old(self)@, self@);
        }
        Ok(())
    }

    /// Takes a packet that the backend has captured. A packet that is to wait
    /// for the callback gets the next capture number and joins the queue of
    /// its stream's worker; any other packet is handed back with the reason.
    pub fn capture(&mut self, packet: CapturedPacket) -> (r: CaptureOutcome)
        requires
            old(self).inv(),
        ensures
            final(self).inv(),
            r == old(self)@.capture_outcome(packet),
            final(self)@ == old(self)@.after_capture(packet),
    {
        if !(self.registered && self.running && !self.closed) {
            return CaptureOutcome::Halted(packet);
        }
        match packet.mark() {
            Some(m) => {
                if m == self.mark {
                    return CaptureOutcome::Bypass(packet);
                }
            },
            None => {},
        }
        let stream = packet.stream_id();
        match self.settled.get(&stream) {
            Some(pass) => {
                return CaptureOutcome::Settled(packet, *pass);
            },
            None => {},
        }
        let w = (stream as usize) % self.queues.len();
        if self.queues[w].len() >= self.capacity as usize || self.next_seq == u64::MAX {
            return CaptureOutcome::Overflow(packet);
        }
        let seq = self.next_seq;
        self.queues[w].push(Delivery { seq, packet });
        self.next_seq = seq + 1;
        proof {
            let t = old(self)@.after_capture(packet);
            assert(self@.queues =~= t.queues) by {
                assert forall|i: int| 0 <= i < t.queues.len() implies #[trigger] self@.queues[i]
                    =~= t.queues[i] by {}
            }
            lemma_capture_wf(old(self)@, packet);
        }
        CaptureOutcome::Queued(seq)
    }

    /// Decides what worker `worker` does next, at a delivery point. `alive` is
    /// the liveness signal as the worker sees it now: once it is down, delivery
    /// is over, whatever waits. While the source delivers, the oldest packet
    /// that waits for the worker leaves its queue: for the callback, or, where its stream was
    /// settled meanwhile, to be passed or discarded at once.
    pub fn poll(&mut self, worker: usize, alive: bool) -> (r: Dispatch)
        requires
            old(self).inv(),
        ensures
            final(self).inv(),
            r == old(self)@.poll_result(worker as int, alive),
            final(self)@ == old(self)@.after_poll(worker as int, alive),
    {
        proof {
            lemma_poll_wf(old(self)@, worker as int, alive);
        }
        if self.closed {
            return Dispatch::Halt;
        }
        if !alive {
            self.running = false;
            return Dispatch::Halt;
        }
        if !(self.registered && self.running) {
            return Dispatch::Halt;
        }
        if worker >= self.queues.len() || self.busy[worker] || self.queues[worker].len() == 0 {
            return Dispatch::Wait;
        }
        let first = self.queues[worker].remove(0);
        let stream = first.packet.stream_id();
        let ghost t = old(self)@.after_poll(worker as int, alive);
        proof {
            assert(old(self)@.queues[worker as int].remove(0) =~= old(self)@.queues[worker as int].drop_first());
            assert(self@.queues =~= t.queues) by {
                assert forall|i: int| 0 <= i < t.queues.len() implies #[trigger] self@.queues[i]
                    =~= t.queues[i] by {}
            }
        }
        match self.settled.get(&stream) {
            Some(pass) => {
                let pass = *pass;
                Dispatch::Finalize(first.packet, pass)
            },
            None => {
                self.busy.set(worker, true);
                self.awaiting.insert(first.seq, stream);
                proof {
                    assert(self@.busy =~= t.busy);
                    assert(self@.awaiting =~= t.awaiting);
                }
                Dispatch::Deliver(first)
            },
        }
    }

    /// Takes note that the callback invocation of worker `worker` has
    /// returned. `keep` is what it returned: `false` ends delivery. The answer
    /// says whether delivery goes on.
    pub fn complete(&mut self, worker: usize, keep: bool) -> (resume: bool)
        requires
            old(self).inv(),
        ensures
            final(self).inv(),
            final(self)@ == old(self)@.after_complete(worker as int, keep),
            resume == final(self)@.delivering(),
    {
        if worker < self.busy.len() && self.busy[worker] {
            self.busy.set(worker, false);
            self.running = self.running && keep;
            proof {
                assert(self@.busy =~= old(self)@.after_complete(worker as int, keep).busy);
                lemma_wf_frame(old(self)@, self@);
            }
        }
        self.registered && self.running && !self.closed
    }

    /// Asks whether worker `worker` may invoke the callback with an error of
    /// the backend. It may while the source delivers and the worker has no
    /// invocation under way; the invocation then counts as one of the
    /// worker's, to be ended by `complete`.
    pub fn report_failure(&mut self, worker: usize) -> (invoke: bool)
        requires
            old(self).inv(),
        ensures
            final(self).inv(),
            invoke == old(self)@.failure_result(worker as int),
            final(self)@ == old(self)@.after_failure(worker as int),
    {
        if self.registered && self.running && !self.closed && worker < self.busy.len()
            && !self.busy[worker] {
            self.busy.set(worker, true);
            proof {
                assert(self@.busy =~= old(self)@.after_failure(worker as int).busy);
                lemma_wf_frame(old(self)@, self@);
            }
            true
        } else {
            false
        }
    }

    /// Applies the consumer's verdict to a delivered packet. The packet must
    /// be one that this source delivered and that has no verdict yet; a
    /// verdict on a whole stream settles the stream from now on. The
    /// replacement payload counts only with `AcceptModify`.
    pub fn set_verdict(&mut self, delivery: Delivery, verdict: Verdict, replacement: Vec<u8>) -> (r:
        Result<Ruling, SourceError>)
        requires
            old(self).inv(),
        ensures
            final(self).inv(),
            final(self)@ == old(self)@.after_verdict(delivery, verdict),
            match r {
                Ok(ruling) => {
                    &&& old(self)@.verdict_error(delivery) is None
                    &&& ruling.packet == delivery.packet
                    &&& ruling.pass == verdict.passes()
                    &&& ruling.replacement == if verdict.replaces_payload() {
                        Some(replacement)
                    } else {
                        None
                    }
                },
                Err(e) => old(self)@.verdict_error(delivery) == Some(e),
            },
    {
        if self.closed {
            return Err(SourceError::Closed);
        }
        let stream = delivery.packet.stream_id();
        let known = match self.awaiting.get(&delivery.seq) {
            Some(s) => *s == stream,
            None => false,
        };
        if !known {
            return Err(SourceError::UnknownPacket);
        }
        self.awaiting.remove(&delivery.seq);
        if verdict.is_stream_level() {
            self.settled.insert(stream, verdict.is_pass());
        }
        proof {
            let t = old(self)@.after_verdict(delivery, verdict);
            assert(self@.awaiting =~= t.awaiting);
            assert(self@.settled =~= t.settled);
            lemma_wf_frame(old(self)@, self@);
        }
        let replacement = if verdict.is_modify() {
            Some(replacement)
        } else {
            None
        };
        Ok(Ruling { packet: delivery.packet, pass: verdict.is_pass(), replacement })
    }

    /// Prepares a connection that this source will not intercept: the backend
    /// connects to `address` and puts the kernel mark of the answer on the
    /// connection. `capture` hands back every packet with that mark.
    pub fn protected_conn(&self, address: &str) -> (r: Result<ProtectedDial, SourceError>)
        requires
            self.inv(),
        ensures
            match r {
                Ok(dial) => !self@.closed && dial.address@ == address@ && dial.mark == self@.mark,
                Err(e) => self@.closed && e == SourceError::Closed,
            },
    {
        if self.closed {
            Err(SourceError::Closed)
        } else {
            Ok(ProtectedDial { address: address.to_owned(), mark: self.mark })
        }
    }

    /// Takes note that a cancellation hook is installed.
    pub fn set_cancel_func(&mut self) -> (r: Result<(), SourceError>)
        requires
            old(self).inv(),
        ensures
            final(self).inv(),
            final(self)@ == old(self)@.after_hook(),
            match r {
                Ok(_) => !old(self)@.closed,
                Err(e) => old(self)@.closed && e == SourceError::Closed,
            },
    {
        if self.closed {
            return Err(SourceError::Closed);
        }
        self.hook = true;
        proof {
            lemma_wf_frame(old(self)@, self@);
        }
        Ok(())
    }

    /// Takes a request from outside to stop. Delivery is over; the answer says
    /// whether the cancellation hook is to be invoked now. A hook is invoked
    /// once.
    pub fn cancel(&mut self) -> (invoke_hook: bool)
        requires
            old(self).inv(),
        ensures
            final(self).inv(),
            invoke_hook == old(self)@.cancel_result(),
            final(self)@ == old(self)@.after_cancel(),
    {
        if self.closed {
            return false;
        }
        let invoke_hook = self.hook;
        self.running = false;
        self.hook = false;
        proof {
            lemma_wf_frame(old(self)@, self@);
        }
        invoke_hook
    }

    /// Ends the source. For each worker the answer holds the packets that
    /// still waited for it: they never reached the callback and are to be
    /// discarded. Packets whose verdict is still out are given up. Closing a
    /// closed source does nothing.
    pub fn close(&mut self) -> (r: Vec<Vec<Delivery>>)
        requires
            old(self).inv(),
        ensures
            final(self).inv(),
            rows(r) == old(self)@.close_result(),
            final(self)@ == old(self)@.after_close(),
    {
        let mut left: Vec<Vec<Delivery>> = Vec::new();
        if self.closed {
            assert(rows(left) =~= old(self)@.close_result());
            return left;
        }
        let workers = self.queues.len();
        let mut w: usize = 0;
        while w < workers
            invariant
                w <= workers,
                workers == self.busy@.len(),
                left@.len() == w,
                forall|i: int| 0 <= i < w ==> (#[trigger] left@[i])@.len() == 0,
                forall|i: int| 0 <= i < w ==> !(#[trigger] self.busy@[i]),
                self.queues == old(self).queues,
                self.registered == old(self).registered,
                self.mark == old(self).mark,
                self.capacity == old(self).capacity,
                self.settled == old(self).settled,
                self.next_seq == old(self).next_seq,
            decreases workers - w,
        {
            left.push(Vec::new());
            self.busy.set(w, false);
            w += 1;
        }
        std::mem::swap(&mut self.queues, &mut left);
        self.awaiting.clear();
        self.running = false;
        self.closed = true;
        self.hook = false;
        proof {
            let t = old(self)@.after_close();
            assert(self@.queues =~= t.queues) by {
                assert forall|i: int| 0 <= i < t.queues.len() implies #[trigger] self@.queues[i]
                    =~= t.queues[i] by {}
            }
            assert(self@.busy =~= t.busy);
            assert(self@.awaiting =~= t.awaiting);
            assert(rows(left) =~= old(self)@.close_result());
            lemma_close_wf(old(self)@);
        }
        left
    }
}

} // verus!
