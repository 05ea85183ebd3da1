//! The wire protocol of a connection: one frame, made of a three-byte header
//! and, for work, a payload.
//!
//! Byte 0 of the header is the signal: 0 is a ping, 1 is work, 2 is a
//! shutdown. Bytes 1 and 2 are the payload length, big-endian. Only work has
//! a payload: the encoding of a workload.
//!
//! [`FrameReader`] holds what a connection has sent so far. The caller reads
//! from the socket and feeds each chunk in; the reader answers with the next
//! thing to do. It tolerates reads of any size: what it answers depends only
//! on the bytes received in all, not on how they were cut into chunks.

use crate::codec::{
    decode_workload, encode_workload, lemma_workload_round_trip, workload_encodable,
};
use crate::err::{ErrKind, WorkerError};
use crate::text::{decimal, decimal_string};
use crate::workload::{Workload, WorkloadView};
use vstd::prelude::*;
use vstd::slice::slice_subrange;
use vstd::string::StringExecFns;

verus! {

/// The signal of a ping.
pub const PING: u8 = 0;

/// The signal of work.
pub const WORK: u8 = 1;

/// The signal of a shutdown.
pub const SHUTDOWN: u8 = 2;

/// The length of a header.
pub const HEADER_LEN: usize = 3;

/// The largest payload a header can announce.
pub const MAX_PAYLOAD: usize = 65535;

/// What the bytes received so far amount to.
pub enum Status {
    /// The frame is not complete: this many bytes are missing.
    Incomplete(nat),
    /// The peer closed the connection before the frame was complete.
    Closed,
    /// A ping.
    Ping,
    /// A shutdown.
    Shutdown,
    /// Work, with the workload that the payload encodes.
    Work(WorkloadView),
    /// Work whose payload encodes no workload.
    Undecodable,
    /// A header with a signal that is none of the three.
    UnknownSignal(u8),
}

/// The payload length that a header announces.
pub open spec fn announced_length(header: Seq<u8>) -> nat {
    (header[1] as nat) * 256 + header[2] as nat
}

/// What `received`, the bytes of a connection so far, amount to. Bytes after
/// the end of the frame are ignored.
pub open spec fn frame_status(received: Seq<u8>) -> Status {
    if received.len() < HEADER_LEN {
        Status::Incomplete((HEADER_LEN - received.len()) as nat)
    } else if received[0] == PING {
        Status::Ping
    } else if received[0] == SHUTDOWN {
        Status::Shutdown
    } else if received[0] == WORK {
        let end = HEADER_LEN + announced_length(received);
        if received.len() < end {
            Status::Incomplete((end - received.len()) as nat)
        } else {
            match decode_workload(received.subrange(HEADER_LEN as int, end as int)) {
                Some(workload) => Status::Work(workload),
                None => Status::Undecodable,
            }
        }
    } else {
        Status::UnknownSignal(received[0])
    }
}

/// What a connection amounts to after a read that returned `chunk`, when
/// `before` had been received. A read that returns nothing while the frame
/// is incomplete means that the peer closed the connection. Once the frame
/// is complete, later reads change nothing.
pub open spec fn status_after(before: Seq<u8>, chunk: Seq<u8>) -> Status {
    if !(frame_status(before) is Incomplete) {
        frame_status(before)
    } else if chunk.len() == 0 {
        Status::Closed
    } else {
        frame_status(before + chunk)
    }
}

/// The frame that carries `payload` as work. The length bytes hold the low
/// sixteen bits of the payload's length.
pub open spec fn work_frame(payload: Seq<u8>) -> Seq<u8> {
    seq![WORK, ((payload.len() / 256) % 256) as u8, (payload.len() % 256) as u8] + payload
}

/// The message for a payload that encodes no workload.
pub open spec fn undecodable_message() -> Seq<char> {
    "Received a work payload that is not a workload."@
}

/// The message for a header with the unknown signal `signal`.
pub open spec fn signal_message(signal: u8) -> Seq<char> {
    "Received invalid signal (first byte "@ + decimal(signal as int) + ")."@
}

/// A work frame whose payload encodes a workload and fits the length bytes
/// is read as that workload.
pub proof fn lemma_work_frame_status(workload: WorkloadView)
    requires
        workload_encodable(workload),
        encode_workload(workload).len() <= MAX_PAYLOAD,
    ensures
        frame_status(work_frame(encode_workload(workload))) == Status::Work(workload),
{
    let payload = encode_workload(workload);
    let frame = work_frame(payload);
    let n = payload.len();
    assert((n / 256) % 256 == n / 256);
    assert(announced_length(frame) == n);
    assert(frame.subrange(HEADER_LEN as int, HEADER_LEN + n) =~= payload);
    lemma_workload_round_trip(workload);
}

/// A work frame cut short is incomplete, so a peer that sends it and closes
/// the connection is reported as a clean end, never as an error.
pub proof fn lemma_truncated_frame_is_clean(payload: Seq<u8>, cut: int)
    requires
        payload.len() <= MAX_PAYLOAD,
        0 <= cut < work_frame(payload).len(),
    ensures
        frame_status(work_frame(payload).take(cut)) is Incomplete,
        status_after(work_frame(payload).take(cut), Seq::empty()) == Status::Closed,
{
    let frame = work_frame(payload);
    let part = frame.take(cut);
    let n = payload.len();
    assert((n / 256) % 256 == n / 256);
    if cut >= HEADER_LEN {
        assert(part[0] == frame[0] && part[1] == frame[1] && part[2] == frame[2]);
        assert(announced_length(part) == n);
    }
}

/// Once a frame is complete, what follows it on the connection changes
/// nothing: the bytes after the end of the frame are ignored.
pub proof fn lemma_complete_frame_is_final(received: Seq<u8>, more: Seq<u8>)
    requires
        !(frame_status(received) is Incomplete),
    ensures
        frame_status(received + more) == frame_status(received),
{
    let longer = received + more;
    assert(longer[0] == received[0]);
    assert(longer[1] == received[1]);
    assert(longer[2] == received[2]);
    if received[0] == WORK {
        let end = HEADER_LEN + announced_length(received);
        assert(longer.subrange(HEADER_LEN as int, end as int) =~= received.subrange(
            HEADER_LEN as int,
            end as int,
        ));
    }
}

/// What to do next on a connection.
#[derive(Debug, PartialEq, Eq)]
pub enum Step {
    /// Read again: this many bytes are still missing.
    More(usize),
    /// The peer closed the connection early. Handling ends successfully.
    Closed,
    /// A ping arrived. Handling ends successfully.
    Ping,
    /// A shutdown arrived. Handling ends successfully.
    Shutdown,
    /// Work arrived: build and run this workload.
    Work(Workload),
    /// The frame is not acceptable. Handling ends with this error.
    Failed(WorkerError),
}

impl Step {
    /// True when this step is the one to take in `status`.
    pub open spec fn reports(&self, status: Status) -> bool {
        match status {
            Status::Incomplete(n) => *self == Step::More(n as usize) && n <= usize::MAX,
            Status::Closed => *self is Closed,
            Status::Ping => *self is Ping,
            Status::Shutdown => *self is Shutdown,
            Status::Work(workload) => *self matches Step::Work(w) && w@ == workload,
            Status::Undecodable => *self matches Step::Failed(e) && e.has(
                ErrKind::ProtocolError,
                undecodable_message(),
            ),
            Status::UnknownSignal(signal) => *self matches Step::Failed(e) && e.has(
                ErrKind::ProtocolError,
                signal_message(signal),
            ),
        }
    }
}

/// The bytes a connection has sent so far.
#[derive(Debug, PartialEq, Eq)]
pub struct FrameReader {
    received: Vec<u8>,
}

impl View for FrameReader {
    type V = Seq<u8>;

    closed spec fn view(&self) -> Seq<u8> {
        self.received@
    }
}

impl FrameReader {
    /// A reader that has received nothing.
    pub fn new() -> (reader: FrameReader)
        ensures
            reader@ == Seq::<u8>::empty(),
    {
        FrameReader { received: Vec::new() }
    }

    /// The step for what has been received so far.
    pub fn step(&self) -> (step: Step)
        ensures
            step.reports(frame_status(self@)),
    {
        let have = self.received.len();
        if have < HEADER_LEN {
            return Step::More(HEADER_LEN - have);
        }
        let signal = self.received[0];
        if signal == PING {
            Step::Ping
        } else if signal == SHUTDOWN {
            Step::Shutdown
        } else if signal == WORK {
            let length: usize = 256 * (self.received[1] as usize) + (self.received[2] as usize);
            let end = HEADER_LEN + length;
            if have < end {
                Step::More(end - have)
            } else {
                let payload = slice_subrange(self.received.as_slice(), HEADER_LEN, end);
                match Workload::parse_from_bytes(payload) {
                    Some(workload) => Step::Work(workload),
                    None => Step::Failed(
                        WorkerError::new(
                            ErrKind::ProtocolError,
                            "Received a work payload that is not a workload.",
                        ),
                    ),
                }
            }
        } else {
            let mut message = String::from_str("Received invalid signal (first byte ");
            message.append(decimal_string(signal as i64).as_str());
            message.append(").");
            Step::Failed(WorkerError::new(ErrKind::ProtocolError, message.as_str()))
        }
    }

    /// The number of bytes still missing, zero once the frame is complete.
    pub fn wanted(&self) -> (n: usize)
        ensures
            match frame_status(self@) {
                Status::Incomplete(missing) => n == missing,
                _ => n == 0,
            },
    {
        let have = self.received.len();
        if have < HEADER_LEN {
            HEADER_LEN - have
        } else if self.received[0] == WORK {
            let length: usize = 256 * (self.received[1] as usize) + (self.received[2] as usize);
            let end = HEADER_LEN + length;
            if have < end {
                end - have
            } else {
                0
            }
        } else {
            0
        }
    }

    /// Takes in what a read returned and answers with the next step.
    ///
    /// While the frame is incomplete, an empty `chunk` means that the peer
    /// closed the connection, which is a clean end; any other chunk is added
    /// to what was received. Once the frame is complete, `chunk` is ignored.
    pub fn feed(&mut self, chunk: &[u8]) -> (step: Step)
        ensures
            step.reports(status_after(old(self)@, chunk@)),
            final(self)@ == if frame_status(old(self)@) is Incomplete {
                old(self)@ + chunk@
            } else {
                old(self)@
            },
    {
        if self.wanted() == 0 {
            return self.step();
        }
        if chunk.len() == 0 {
            assert(self@ =~= old(self)@ + chunk@);
            return Step::Closed;
        }
        self.received.extend_from_slice(chunk);
        assert(self@ == old(self)@ + chunk@);
        assert(chunk@.len() > 0);
        self.step()
    }
}

} // verus!
