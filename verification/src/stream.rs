//! The transport abstraction under the protocol client: a read side that
//! can peek without consuming and read exactly what a peek has shown, and
//! a write side that can write whole commands and shut the connection
//! down.
//!
//! Each side carries a mathematical model: the read side the sequence of
//! bytes that have arrived, how many of them were consumed, and the log
//! of operations that failed; the write side everything written so far
//! and its own count of failures.  [`FakeStream`] is the in-memory
//! implementation, verified against those models and used by proofs and
//! tests; [`FaultyStream`] adds a script of injected failures for tests
//! of the error paths; a TCP implementation belongs to the application
//! around the library.

use vstd::prelude::*;

verus! {

use vstd::string::StringExecFns;

/// Why a transport operation failed, reduced to the distinctions the
/// protocol layer acts on.
#[derive(Debug, Clone, Copy, PartialEq, Eq, Structural)]
pub enum TransportError {
    /// Nothing arrived within the transport's own time limit; the sync
    /// loop ignores this and keeps reading.
    TimedOut,
    /// The operation would have had to block; treated like a timeout.
    WouldBlock,
    /// The near end has shut the connection down: the expected, clean
    /// way for the sync loop to end.
    ClosedLocally,
    /// Any other transport failure; fatal to the sync loop.
    Other,
}

/// Whether an error is transient: the sync loop continues on it.
pub open spec fn is_transient_error(e: TransportError) -> bool {
    e == TransportError::TimedOut || e == TransportError::WouldBlock
}

impl TransportError {
    /// Whether this error is transient: the sync loop continues on it.
    pub fn is_transient(&self) -> (r: bool)
        ensures
            r == is_transient_error(*self),
    {
        match *self {
            TransportError::TimedOut => true,
            TransportError::WouldBlock => true,
            _ => false,
        }
    }
}

/// The read side of a connection.
///
/// The model: `bytes()` is every byte that has arrived so far, in order;
/// `pos()` counts how many of them have been consumed; `fault_log()`
/// records every operation that has failed, in order.  Arrived bytes are
/// never reordered or dropped, so `bytes()` only ever grows at its end.
/// `is_settled()` says, once and for all, that no bytes arrive during
/// operations on this stream — true of an in-memory stream whose input
/// is fed explicitly, false of a live socket.
pub trait ReadStream: Sized {
    /// Every byte that has arrived on this stream so far.
    spec fn bytes(&self) -> Seq<u8>;

    /// How many of the arrived bytes have been consumed.
    spec fn pos(&self) -> nat;

    /// The errors this stream's operations have returned so far.
    spec fn fault_log(&self) -> Seq<TransportError>;

    /// Whether operations on this stream never observe new arrivals:
    /// `bytes()` can change only between operations, never during one.
    spec fn is_settled(&self) -> bool;

    /// Look at the unconsumed bytes without consuming them: up to `cap`
    /// of them, and as many as are available below that.  An empty
    /// result means nothing is left to deliver: the stream has ended.
    fn peekly(&mut self, cap: usize) -> (r: Result<Vec<u8>, TransportError>)
        requires
            old(self).pos() <= old(self).bytes().len(),
        ensures
            final(self).pos() == old(self).pos(),
            old(self).bytes().is_prefix_of(final(self).bytes()),
            final(self).pos() <= final(self).bytes().len(),
            final(self).is_settled() == old(self).is_settled(),
            old(self).is_settled() ==> final(self).bytes() == old(self).bytes(),
            match r {
                Ok(v) => {
                    &&& final(self).fault_log() == old(self).fault_log()
                    &&& v@.len() == (if cap as int <= final(self).bytes().len() - final(self).pos() {
                        cap as int
                    } else {
                        final(self).bytes().len() - final(self).pos()
                    })
                    &&& v@ == final(self).bytes().subrange(
                        final(self).pos() as int,
                        final(self).pos() + v@.len() as int,
                    )
                },
                Err(e) => {
                    &&& final(self).fault_log() == old(self).fault_log().push(e)
                    &&& final(self).bytes() == old(self).bytes()
                },
            },
    ;

    /// Read and consume exactly `n` bytes: no more than a peek has
    /// shown.  Implementations consume all `n` bytes or none.
    fn read_exactly(&mut self, n: usize) -> (r: Result<Vec<u8>, TransportError>)
        requires
            old(self).pos() <= old(self).bytes().len(),
            old(self).pos() + n <= old(self).bytes().len(),
        ensures
            old(self).bytes().is_prefix_of(final(self).bytes()),
            final(self).pos() <= final(self).bytes().len(),
            final(self).is_settled() == old(self).is_settled(),
            old(self).is_settled() ==> final(self).bytes() == old(self).bytes(),
            match r {
                Ok(v) => {
                    &&& final(self).fault_log() == old(self).fault_log()
                    &&& final(self).pos() == old(self).pos() + n
                    &&& v@ == old(self).bytes().subrange(
                        old(self).pos() as int,
                        old(self).pos() + n as int,
                    )
                },
                Err(e) => {
                    &&& final(self).fault_log() == old(self).fault_log().push(e)
                    &&& final(self).pos() == old(self).pos()
                    &&& final(self).bytes() == old(self).bytes()
                },
            },
    ;
}

/// The write side of a connection.
///
/// The model: `written()` is everything written so far, as text,
/// `is_shut_down()` records whether shutdown was requested, and
/// `write_faults()` counts the operations that have failed.
pub trait ConnectionStream: Sized {
    /// Everything written to the connection so far.
    spec fn written(&self) -> Seq<char>;

    /// Whether the connection has been shut down from this side.
    spec fn is_shut_down(&self) -> bool;

    /// How many operations on this side have failed so far.
    spec fn write_faults(&self) -> nat;

    /// Write the whole string, or fail having written some prefix of it.
    fn write_str_all(&mut self, data: &str) -> (r: Result<(), TransportError>)
        ensures
            final(self).is_shut_down() == old(self).is_shut_down(),
            match r {
                Ok(()) => {
                    &&& final(self).written() == old(self).written() + data@
                    &&& final(self).write_faults() == old(self).write_faults()
                },
                Err(_) => {
                    &&& old(self).written().is_prefix_of(final(self).written())
                    &&& final(self).write_faults() == old(self).write_faults() + 1
                },
            },
    ;

    /// Shut the connection down in both directions; the peer, and any
    /// reader of the same connection, sees it end.
    fn shutdownly(&mut self) -> (r: Result<(), TransportError>)
        ensures
            final(self).written() == old(self).written(),
            match r {
                Ok(()) => {
                    &&& final(self).is_shut_down()
                    &&& final(self).write_faults() == old(self).write_faults()
                },
                Err(_) => {
                    &&& final(self).is_shut_down() == old(self).is_shut_down()
                    &&& final(self).write_faults() == old(self).write_faults() + 1
                },
            },
    ;
}

/// An in-memory connection: reads come from a script of inbound bytes,
/// writes accumulate in a log.  It never fails, never times out, and
/// ends when the script runs out — its fault log is empty and its fault
/// count zero by definition, so callers can conclude that no operation
/// on it ever fails.
pub struct FakeStream {
    inbound: Vec<u8>,
    cursor: usize,
    outbound: String,
    shut: bool,
}

impl FakeStream {
    /// A connection with nothing to read yet.
    pub fn new() -> (r: FakeStream)
        ensures
            r.bytes() == Seq::<u8>::empty(),
            r.pos() == 0,
            r.written() == Seq::<char>::empty(),
            !r.is_shut_down(),
    {
        let r = FakeStream { inbound: Vec::new(), cursor: 0, outbound: String::new(), shut: false };
        proof {
            assert(r.bytes() =~= Seq::<u8>::empty());
        }
        r
    }

    /// Let `data` arrive on the read side, after whatever arrived before.
    pub fn feed(&mut self, data: &[u8])
        ensures
            final(self).bytes() == old(self).bytes() + data@,
            final(self).pos() == old(self).pos(),
            final(self).written() == old(self).written(),
            final(self).is_shut_down() == old(self).is_shut_down(),
    {
        let mut i: usize = 0;
        proof {
            assert(self.inbound@ =~= old(self).inbound@ + data@.subrange(0, 0));
        }
        while i < data.len()
            invariant
                0 <= i <= data@.len(),
                self.inbound@ == old(self).inbound@ + data@.subrange(0, i as int),
                self.cursor == old(self).cursor,
                self.outbound == old(self).outbound,
                self.shut == old(self).shut,
            decreases data@.len() - i,
        {
            let b = data[i];
            self.inbound.push(b);
            proof {
                assert(self.inbound@ =~= old(self).inbound@ + data@.subrange(0, i + 1));
            }
            i = i + 1;
        }
        proof {
            assert(data@.subrange(0, data@.len() as int) =~= data@);
        }
    }

    /// What has been written to this connection, as text.
    pub fn written_text(&self) -> (r: String)
        ensures
            r@ == self.written(),
    {
        self.outbound.clone()
    }

    /// Whether `shutdownly` has been called.
    pub fn was_shut_down(&self) -> (r: bool)
        ensures
            r == self.is_shut_down(),
    {
        self.shut
    }
}

impl ReadStream for FakeStream {
    closed spec fn bytes(&self) -> Seq<u8> {
        self.inbound@
    }

    closed spec fn pos(&self) -> nat {
        self.cursor as nat
    }

    open spec fn fault_log(&self) -> Seq<TransportError> {
        Seq::empty()
    }

    open spec fn is_settled(&self) -> bool {
        true
    }

    fn peekly(&mut self, cap: usize) -> (r: Result<Vec<u8>, TransportError>)
    {
        let total: usize = self.inbound.len();
        let avail: usize = total - self.cursor;
        let take: usize = if cap <= avail { cap } else { avail };
        let mut v: Vec<u8> = Vec::new();
        let mut i: usize = 0;
        proof {
            assert(v@ =~= self.inbound@.subrange(self.cursor as int, self.cursor as int));
        }
        while i < take
            invariant
                0 <= i <= take,
                total == self.inbound@.len(),
                self.cursor + take <= total,
                v@ == self.inbound@.subrange(self.cursor as int, self.cursor + i),
                self == old(self),
            decreases take - i,
        {
            let b = self.inbound[self.cursor + i];
            v.push(b);
            proof {
                assert(v@ =~= self.inbound@.subrange(self.cursor as int, self.cursor + i + 1));
            }
            i = i + 1;
        }
        Ok(v)
    }

    fn read_exactly(&mut self, n: usize) -> (r: Result<Vec<u8>, TransportError>)
    {
        let total: usize = self.inbound.len();
        let mut v: Vec<u8> = Vec::new();
        let mut i: usize = 0;
        proof {
            assert(v@ =~= self.inbound@.subrange(self.cursor as int, self.cursor as int));
        }
        while i < n
            invariant
                0 <= i <= n,
                total == self.inbound@.len(),
                self.cursor + n <= total,
                v@ == self.inbound@.subrange(self.cursor as int, self.cursor + i),
                self == old(self),
            decreases n - i,
        {
            let b = self.inbound[self.cursor + i];
            v.push(b);
            proof {
                assert(v@ =~= self.inbound@.subrange(self.cursor as int, self.cursor + i + 1));
            }
            i = i + 1;
        }
        self.cursor = self.cursor + n;
        Ok(v)
    }
}

impl ConnectionStream for FakeStream {
    closed spec fn written(&self) -> Seq<char> {
        self.outbound@
    }

    closed spec fn is_shut_down(&self) -> bool {
        self.shut
    }

    open spec fn write_faults(&self) -> nat {
        0
    }

    fn write_str_all(&mut self, data: &str) -> (r: Result<(), TransportError>)
    {
        self.outbound.append(data);
        Ok(())
    }

    fn shutdownly(&mut self) -> (r: Result<(), TransportError>)
    {
        self.shut = true;
        Ok(())
    }
}

/// An in-memory read stream that injects failures: each operation takes
/// the next step of a plan — fail with a given error, or serve from the
/// inbound bytes as [`FakeStream`] does.  Once the plan is exhausted,
/// every operation serves.  It exists so the error paths of the framer
/// and the sync loop can be exercised.
pub struct FaultyStream {
    inbound: Vec<u8>,
    cursor: usize,
    plan: Vec<Option<TransportError>>,
    next_step: usize,
    log: Ghost<Seq<TransportError>>,
}

impl FaultyStream {
    /// A stream that delivers `data`, with each operation taking the
    /// next step of `plan`: `Some(e)` makes it fail with `e`, `None`
    /// lets it serve.
    pub fn with_plan(data: Vec<u8>, plan: Vec<Option<TransportError>>) -> (r: FaultyStream)
        ensures
            r.bytes() == data@,
            r.pos() == 0,
            r.fault_log() == Seq::<TransportError>::empty(),
    {
        FaultyStream { inbound: data, cursor: 0, plan, next_step: 0, log: Ghost(Seq::empty()) }
    }

    /// Fail the current operation if the plan says so.
    fn planned_fault(&mut self) -> (r: Option<TransportError>)
        ensures
            final(self).inbound == old(self).inbound,
            final(self).cursor == old(self).cursor,
            match r {
                Some(e) => final(self).log@ == old(self).log@.push(e),
                None => final(self).log@ == old(self).log@,
            },
    {
        if self.next_step < self.plan.len() {
            let step = self.plan[self.next_step];
            self.next_step = self.next_step + 1;
            if let Some(e) = step {
                self.log = Ghost(self.log@.push(e));
                return Some(e);
            }
            None
        } else {
            None
        }
    }
}

impl ReadStream for FaultyStream {
    closed spec fn bytes(&self) -> Seq<u8> {
        self.inbound@
    }

    closed spec fn pos(&self) -> nat {
        self.cursor as nat
    }

    closed spec fn fault_log(&self) -> Seq<TransportError> {
        self.log@
    }

    open spec fn is_settled(&self) -> bool {
        true
    }

    fn peekly(&mut self, cap: usize) -> (r: Result<Vec<u8>, TransportError>)
    {
        if let Some(e) = self.planned_fault() {
            return Err(e);
        }
        let total: usize = self.inbound.len();
        let avail: usize = total - self.cursor;
        let take: usize = if cap <= avail { cap } else { avail };
        let mut v: Vec<u8> = Vec::new();
        let mut i: usize = 0;
        proof {
            assert(v@ =~= self.inbound@.subrange(self.cursor as int, self.cursor as int));
        }
        while i < take
            invariant
                0 <= i <= take,
                total == self.inbound@.len(),
                self.cursor + take <= total,
                v@ == self.inbound@.subrange(self.cursor as int, self.cursor + i),
                self.inbound == old(self).inbound,
                self.cursor == old(self).cursor,
                self.log@ == old(self).log@,
            decreases take - i,
        {
            let b = self.inbound[self.cursor + i];
            v.push(b);
            proof {
                assert(v@ =~= self.inbound@.subrange(self.cursor as int, self.cursor + i + 1));
            }
            i = i + 1;
        }
        Ok(v)
    }

    fn read_exactly(&mut self, n: usize) -> (r: Result<Vec<u8>, TransportError>)
    {
        if let Some(e) = self.planned_fault() {
            return Err(e);
        }
        let total: usize = self.inbound.len();
        let mut v: Vec<u8> = Vec::new();
        let mut i: usize = 0;
        proof {
            assert(v@ =~= self.inbound@.subrange(self.cursor as int, self.cursor as int));
        }
        while i < n
            invariant
                0 <= i <= n,
                total == self.inbound@.len(),
                self.cursor + n <= total,
                v@ == self.inbound@.subrange(self.cursor as int, self.cursor + i),
                self.inbound == old(self).inbound,
                self.cursor == old(self).cursor,
                self.log@ == old(self).log@,
            decreases n - i,
        {
            let b = self.inbound[self.cursor + i];
            v.push(b);
            proof {
                assert(v@ =~= self.inbound@.subrange(self.cursor as int, self.cursor + i + 1));
            }
            i = i + 1;
        }
        self.cursor = self.cursor + n;
        Ok(v)
    }
}

} // verus!
