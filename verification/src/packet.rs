//! The packet model: one captured network-layer frame, the stream it belongs
//! to and the time it was captured.

use crate::number::{decimal_text, render};
use vstd::prelude::*;

verus! {

/// The numbers of some bytes, written in decimal and set apart by a comma and
/// a space.
pub open spec fn items_text(bytes: Seq<u8>) -> Seq<char>
    decreases bytes.len(),
{
    if bytes.len() == 0 {
        Seq::empty()
    } else if bytes.len() == 1 {
        decimal_text(bytes[0] as nat)
    } else {
        items_text(bytes.drop_last()) + ", "@ + decimal_text(bytes.last() as nat)
    }
}

/// The line that describes a packet of stream `stream`, captured `nanos`
/// nanoseconds after the Unix epoch, with the bytes `data`.
pub open spec fn description(stream: u32, nanos: u128, data: Seq<u8>) -> Seq<char> {
    "Packet: stream_id = "@ + decimal_text(stream as nat) + ", timestamp = "@ + decimal_text(
        nanos as nat,
    ) + ", data = ["@ + items_text(data) + "],"@
}

/// Describes a packet in one line, for a log.
pub fn describe<P: Packet>(packet: &P) -> (line: String)
    ensures
        line@ == description(packet.stream(), packet.captured_at().nanos, packet.payload()),
{
    let data = packet.data();
    let mut line = String::from_str("Packet: stream_id = ");
    line.append(render(packet.stream_id() as u128).as_str());
    line.append(", timestamp = ");
    line.append(render(packet.timestamp().as_nanos()).as_str());
    line.append(", data = [");
    let ghost head = line@;
    let mut i: usize = 0;
    assert(data@.take(0) =~= Seq::<u8>::empty());
    while i < data.len()
        invariant
            i <= data.len(),
            line@ == head + items_text(data@.take(i as int)),
        decreases data.len() - i,
    {
        let ghost before = data@.take(i as int);
        let ghost after = data@.take(i as int + 1);
        proof {
            assert(after.drop_last() =~= before);
            assert(after.last() == data@[i as int]);
        }
        if i > 0 {
            line.append(", ");
        }
        line.append(render(data[i] as u128).as_str());
        proof {
            if i > 0 {
                assert(line@ =~= head + (items_text(before) + ", "@ + decimal_text(
                    data@[i as int] as nat,
                )));
            } else {
                assert(items_text(before) =~= Seq::<char>::empty());
                assert(line@ =~= head + decimal_text(data@[i as int] as nat));
            }
        }
        i += 1;
    }
    assert(data@.take(i as int) =~= data@);
    line.append("],");
    line
}

/// A point in time, as nanoseconds since the Unix epoch.
#[derive(Debug, Clone, Copy, PartialEq, Eq, Structural)]
pub struct Timestamp {
    pub nanos: u128,
}

impl Timestamp {
    /// The point in time that lies `nanos` nanoseconds after the Unix epoch.
    pub fn from_nanos(nanos: u128) -> (t: Timestamp)
        ensures
            t.nanos == nanos,
    {
        Timestamp { nanos }
    }

    /// Nanoseconds since the Unix epoch.
    pub fn as_nanos(&self) -> (n: u128)
        ensures
            n == self.nanos,
    {
        self.nanos
    }
}

/// What every packet offers, whatever backend produced it.
pub trait Packet {
    /// The stream that the packet belongs to.
    spec fn stream(&self) -> u32;

    /// The time at which the packet was captured or replayed.
    spec fn captured_at(&self) -> Timestamp;

    /// The bytes of the packet, from the network-layer header on.
    spec fn payload(&self) -> Seq<u8>;

    /// The stream that the packet belongs to.
    fn stream_id(&self) -> (id: u32)
        ensures
            id == self.stream(),
    ;

    /// The time at which the packet was captured or replayed.
    fn timestamp(&self) -> (t: Timestamp)
        ensures
            t == self.captured_at(),
    ;

    /// The bytes of the packet, from the network-layer header on.
    fn data(&self) -> (d: &[u8])
        ensures
            d@ == self.payload(),
    ;
}

/// A packet taken from a live kernel queue.
#[derive(Debug)]
pub struct QueuePacket {
    id: u32,
    mark: u32,
    stream_id: u32,
    timestamp: Timestamp,
    data: Vec<u8>,
}

/// A packet read from a capture file.
#[derive(Debug)]
pub struct ReplayPacket {
    offset: u64,
    stream_id: u32,
    timestamp: Timestamp,
    data: Vec<u8>,
}

/// A packet of either backend.
#[derive(Debug)]
pub enum CapturedPacket {
    Queue(QueuePacket),
    Replay(ReplayPacket),
}

impl QueuePacket {
    /// The handle under which the queue knows the packet.
    pub closed spec fn handle(&self) -> u32 {
        self.id
    }

    /// The mark that the kernel has on the packet.
    pub closed spec fn kernel_mark(&self) -> u32 {
        self.mark
    }

    /// A packet as the queue handed it over.
    pub fn new(id: u32, mark: u32, stream_id: u32, timestamp: Timestamp, data: Vec<u8>) -> (p: Self)
        ensures
            p.handle() == id,
            p.kernel_mark() == mark,
            p.stream() == stream_id,
            p.captured_at() == timestamp,
            p.payload() == data@,
    {
        QueuePacket { id, mark, stream_id, timestamp, data }
    }

    /// The handle under which the queue knows the packet.
    pub fn id(&self) -> (id: u32)
        ensures
            id == self.handle(),
    {
        self.id
    }

    /// The mark that the kernel has on the packet.
    pub fn mark(&self) -> (mark: u32)
        ensures
            mark == self.kernel_mark(),
    {
        self.mark
    }
}

impl Packet for QueuePacket {
    closed spec fn stream(&self) -> u32 {
        self.stream_id
    }

    closed spec fn captured_at(&self) -> Timestamp {
        self.timestamp
    }

    closed spec fn payload(&self) -> Seq<u8> {
        self.data@
    }

    fn stream_id(&self) -> (id: u32) {
        self.stream_id
    }

    fn timestamp(&self) -> (t: Timestamp) {
        self.timestamp
    }

    fn data(&self) -> (d: &[u8]) {
        self.data.as_slice()
    }
}

impl ReplayPacket {
    /// Where in the capture file the packet's record starts.
    pub closed spec fn file_offset(&self) -> u64 {
        self.offset
    }

    /// A packet as the capture file holds it.
    pub fn new(offset: u64, stream_id: u32, timestamp: Timestamp, data: Vec<u8>) -> (p: Self)
        ensures
            p.file_offset() == offset,
            p.stream() == stream_id,
            p.captured_at() == timestamp,
            p.payload() == data@,
    {
        ReplayPacket { offset, stream_id, timestamp, data }
    }

    /// Where in the capture file the packet's record starts.
    pub fn offset(&self) -> (offset: u64)
        ensures
            offset == self.file_offset(),
    {
        self.offset
    }
}

impl Packet for ReplayPacket {
    closed spec fn stream(&self) -> u32 {
        self.stream_id
    }

    closed spec fn captured_at(&self) -> Timestamp {
        self.timestamp
    }

    closed spec fn payload(&self) -> Seq<u8> {
        self.data@
    }

    fn stream_id(&self) -> (id: u32) {
        self.stream_id
    }

    fn timestamp(&self) -> (t: Timestamp) {
        self.timestamp
    }

    fn data(&self) -> (d: &[u8]) {
        self.data.as_slice()
    }
}

impl CapturedPacket {
    /// The kernel mark of the packet. A replayed packet has none: it was never
    /// on this machine's network.
    pub open spec fn kernel_mark(&self) -> Option<u32> {
        match self {
            CapturedPacket::Queue(p) => Some(p.kernel_mark()),
            CapturedPacket::Replay(_) => None,
        }
    }

    /// The kernel mark of the packet, if it has one.
    pub fn mark(&self) -> (mark: Option<u32>)
        ensures
            mark == self.kernel_mark(),
    {
        match self {
            CapturedPacket::Queue(p) => Some(p.mark()),
            CapturedPacket::Replay(_) => None,
        }
    }

    /// The packet as a queue packet, where it is one.
    pub fn as_queue(&self) -> (r: Option<&QueuePacket>)
        ensures
            match r {
                Some(p) => *self == CapturedPacket::Queue(*p),
                None => self is Replay,
            },
    {
        match self {
            CapturedPacket::Queue(p) => Some(p),
            CapturedPacket::Replay(_) => None,
        }
    }

    /// The packet as a replay packet, where it is one.
    pub fn as_replay(&self) -> (r: Option<&ReplayPacket>)
        ensures
            match r {
                Some(p) => *self == CapturedPacket::Replay(*p),
                None => self is Queue,
            },
    {
        match self {
            CapturedPacket::Queue(_) => None,
            CapturedPacket::Replay(p) => Some(p),
        }
    }
}

impl Packet for CapturedPacket {
    open spec fn stream(&self) -> u32 {
        match self {
            CapturedPacket::Queue(p) => p.stream(),
            CapturedPacket::Replay(p) => p.stream(),
        }
    }

    open spec fn captured_at(&self) -> Timestamp {
        match self {
            CapturedPacket::Queue(p) => p.captured_at(),
            CapturedPacket::Replay(p) => p.captured_at(),
        }
    }

    open spec fn payload(&self) -> Seq<u8> {
        match self {
            CapturedPacket::Queue(p) => p.payload(),
            CapturedPacket::Replay(p) => p.payload(),
        }
    }

    fn stream_id(&self) -> (id: u32) {
        match self {
            CapturedPacket::Queue(p) => p.stream_id(),
            CapturedPacket::Replay(p) => p.stream_id(),
        }
    }

    fn timestamp(&self) -> (t: Timestamp) {
        match self {
            CapturedPacket::Queue(p) => p.timestamp(),
            CapturedPacket::Replay(p) => p.timestamp(),
        }
    }

    fn data(&self) -> (d: &[u8]) {
        match self {
            CapturedPacket::Queue(p) => p.data(),
            CapturedPacket::Replay(p) => p.data(),
        }
    }
}

} // verus!
