//! What the loops between a TLS session and its socket decide.
//!
//! A read alternates between taking TLS records off the socket and taking
//! plaintext out of the session; a write alternates between handing plaintext
//! to the session and draining its records to the socket. The machines here say
//! which of these comes next, and are told how it went.
use vstd::prelude::*;

use crate::socket::{IoErrorKind, SocketResult, MAX_LOOP_ITERATIONS};

verus! {

/// What a TLS read does next.
#[derive(Debug, PartialEq, Eq, Structural, Copy, Clone)]
pub enum TlsReadStage {
    /// Read TLS records from the socket.
    ReadTls,
    /// Have the session process them.
    Process,
    /// Ask whether the session wants more records.
    AskWantsRead,
    /// Read plaintext into the buffer, from `size` on.
    ReadPlain,
    /// Nothing: the read is over.
    Done,
}

/// How a step of a TLS read went.
#[derive(Debug, Copy, Clone)]
pub enum TlsReadEvent {
    /// Records were read from the socket, or not.
    TlsRead(Result<usize, IoErrorKind>),
    /// The records were processed; `false` if the session refused them.
    Processed(bool),
    /// Whether the session wants more records.
    WantsRead(bool),
    /// Plaintext was read, or not.
    PlainRead(Result<usize, IoErrorKind>),
}

/// A read of plaintext from a TLS session.
#[derive(Debug, PartialEq, Eq, Structural, Copy, Clone)]
pub struct TlsRead {
    /// The length of the buffer.
    pub len: usize,
    /// How much plaintext the buffer holds.
    pub size: usize,
    pub can_read: bool,
    pub is_error: bool,
    pub is_closed: bool,
    /// How many rounds have begun.
    pub rounds: usize,
    /// The peer closed its side: no more plaintext will come, but what the
    /// session holds for the peer can still be sent.
    pub peer_disconnected: bool,
    /// The peer reset the connection: nothing can be sent.
    pub peer_reset: bool,
    pub stage: TlsReadStage,
}

impl TlsRead {
    /// What every read meets.
    pub open spec fn wf(self) -> bool {
        &&& self.size <= self.len
        &&& self.rounds <= MAX_LOOP_ITERATIONS + 1
        &&& !(self.is_error && self.is_closed)
        &&& !(self.stage is Done) ==> !self.is_error && self.rounds <= MAX_LOOP_ITERATIONS
        &&& self.stage is ReadTls ==> self.can_read && !self.is_closed && self.size < self.len
    }

    /// Begins a round. The read is over when it has taken too many, when the
    /// buffer is full, or when nothing more can come.
    pub open spec fn round(self) -> TlsRead {
        let rounds = (self.rounds + 1) as usize;
        let exhausted = rounds > MAX_LOOP_ITERATIONS;
        let over = exhausted || self.size == self.len || !self.can_read || self.is_error
            || self.is_closed;
        TlsRead {
            rounds,
            is_error: self.is_error || exhausted,
            is_closed: self.is_closed && !exhausted,
            stage: if over {
                TlsReadStage::Done
            } else {
                TlsReadStage::ReadTls
            },
            ..self
        }
    }

    /// Whether `event` is how the current step can go.
    pub open spec fn expects(self, event: TlsReadEvent) -> bool {
        match event {
            TlsReadEvent::TlsRead(_) => self.stage is ReadTls,
            TlsReadEvent::Processed(_) => self.stage is Process,
            TlsReadEvent::WantsRead(_) => self.stage is AskWantsRead,
            TlsReadEvent::PlainRead(outcome) => {
                &&& self.stage is ReadPlain
                &&& outcome matches Ok(n) ==> n <= self.len - self.size
            },
        }
    }

    /// The read after `event`.
    pub open spec fn after(self, event: TlsReadEvent) -> TlsRead {
        let failed = TlsRead {
            is_error: true,
            is_closed: false,
            stage: TlsReadStage::Done,
            ..self
        };
        match event {
            TlsReadEvent::TlsRead(Ok(n)) => if n == 0 {
                TlsRead {
                    can_read: false,
                    is_closed: true,
                    peer_disconnected: true,
                    stage: TlsReadStage::Process,
                    ..self
                }
            } else {
                TlsRead { stage: TlsReadStage::Process, ..self }
            },
            TlsReadEvent::TlsRead(Err(kind)) => if kind is WouldBlock {
                TlsRead { can_read: false, stage: TlsReadStage::Process, ..self }
            } else if kind.is_reset() {
                TlsRead {
                    is_closed: true,
                    peer_disconnected: true,
                    peer_reset: true,
                    stage: TlsReadStage::Process,
                    ..self
                }
            } else if kind is Other {
                // The session's plaintext buffer is full; it is drained next.
                TlsRead { stage: TlsReadStage::Process, ..self }
            } else {
                failed
            },
            TlsReadEvent::Processed(ok) => if ok {
                TlsRead { stage: TlsReadStage::AskWantsRead, ..self }
            } else {
                failed
            },
            TlsReadEvent::WantsRead(wants) => if wants {
                self.round()
            } else {
                TlsRead { stage: TlsReadStage::ReadPlain, ..self }
            },
            TlsReadEvent::PlainRead(Ok(n)) => if n == 0 {
                self.round()
            } else {
                TlsRead {
                    size: (self.size + n) as usize,
                    stage: TlsReadStage::AskWantsRead,
                    ..self
                }
            },
            TlsReadEvent::PlainRead(Err(kind)) => if kind is WouldBlock {
                self.round()
            } else if kind.is_reset() {
                (TlsRead { is_closed: true, ..self }).round()
            } else {
                (TlsRead { is_error: true, is_closed: false, ..self }).round()
            },
        }
    }

    fn begin_round(&mut self)
        requires
            old(self).size <= old(self).len,
            old(self).rounds <= MAX_LOOP_ITERATIONS,
            !(old(self).is_error && old(self).is_closed),
        ensures
            *final(self) == old(self).round(),
            final(self).wf(),
    {
        self.rounds = self.rounds + 1;
        if self.rounds > MAX_LOOP_ITERATIONS {
            self.is_error = true;
            self.is_closed = false;
            self.stage = TlsReadStage::Done;
        } else if self.size == self.len {
            self.stage = TlsReadStage::Done;
        } else if !self.can_read || self.is_error || self.is_closed {
            self.stage = TlsReadStage::Done;
        } else {
            self.stage = TlsReadStage::ReadTls;
        }
    }

    /// A read into a buffer of `len` bytes.
    pub fn new(len: usize, peer_disconnected: bool, peer_reset: bool) -> (r: TlsRead)
        ensures
            r.wf(),
            r == tls_read_start(len, peer_disconnected, peer_reset),
    {
        let mut r = TlsRead {
            len,
            size: 0,
            can_read: true,
            is_error: false,
            is_closed: false,
            rounds: 0,
            peer_disconnected,
            peer_reset,
            stage: TlsReadStage::ReadTls,
        };
        r.begin_round();
        r
    }

    /// Takes in how the current step went.
    pub fn handle(&mut self, event: TlsReadEvent)
        requires
            old(self).wf(),
            old(self).expects(event),
        ensures
            *final(self) == old(self).after(event),
            final(self).wf(),
    {
        match event {
            TlsReadEvent::TlsRead(outcome) => {
                match outcome {
                    Ok(n) => {
                        if n == 0 {
                            self.can_read = false;
                            self.is_closed = true;
                            self.peer_disconnected = true;
                        }
                        self.stage = TlsReadStage::Process;
                    },
                    Err(IoErrorKind::WouldBlock) => {
                        self.can_read = false;
                        self.stage = TlsReadStage::Process;
                    },
                    Err(kind) => {
                        if kind.reset() {
                            self.is_closed = true;
                            self.peer_disconnected = true;
                            self.peer_reset = true;
                            self.stage = TlsReadStage::Process;
                        } else if kind == IoErrorKind::Other {
                            self.stage = TlsReadStage::Process;
                        } else {
                            self.is_error = true;
                            self.is_closed = false;
                            self.stage = TlsReadStage::Done;
                        }
                    },
                }
            },
            TlsReadEvent::Processed(ok) => {
                if ok {
                    self.stage = TlsReadStage::AskWantsRead;
                } else {
                    self.is_error = true;
                    self.is_closed = false;
                    self.stage = TlsReadStage::Done;
                }
            },
            TlsReadEvent::WantsRead(wants) => {
                if wants {
                    self.begin_round();
                } else {
                    self.stage = TlsReadStage::ReadPlain;
                }
            },
            TlsReadEvent::PlainRead(outcome) => {
                match outcome {
                    Ok(n) => {
                        if n == 0 {
                            self.begin_round();
                        } else {
                            self.size = self.size + n;
                            self.stage = TlsReadStage::AskWantsRead;
                        }
                    },
                    Err(IoErrorKind::WouldBlock) => {
                        self.begin_round();
                    },
                    Err(kind) => {
                        if kind.reset() {
                            self.is_closed = true;
                        } else {
                            self.is_error = true;
                            self.is_closed = false;
                        }
                        self.begin_round();
                    },
                }
            },
        }
    }

    /// How a read that is over ended: an error comes before a closed peer, a
    /// closed peer before a full buffer, and a full buffer before a socket that
    /// has no more.
    pub open spec fn outcome(self) -> SocketResult {
        if self.is_error {
            SocketResult::Error
        } else if self.is_closed {
            SocketResult::Closed
        } else if self.size == self.len || self.can_read {
            SocketResult::Continue
        } else {
            SocketResult::WouldBlock
        }
    }

    /// What a read that is over reports.
    pub fn result(&self) -> (r: (usize, SocketResult))
        requires
            self.wf(),
            self.stage is Done,
        ensures
            r == (self.size, self.outcome()),
    {
        if self.is_error {
            (self.size, SocketResult::Error)
        } else if self.is_closed {
            (self.size, SocketResult::Closed)
        } else if self.size == self.len {
            // The session may hold more plaintext: keep reading without
            // waiting for the socket.
            (self.size, SocketResult::Continue)
        } else if !self.can_read {
            (self.size, SocketResult::WouldBlock)
        } else {
            (self.size, SocketResult::Continue)
        }
    }
}

/// A read of `len` bytes that has just begun.
pub open spec fn tls_read_start(len: usize, peer_disconnected: bool, peer_reset: bool) -> TlsRead {
    (TlsRead {
        len,
        size: 0,
        can_read: true,
        is_error: false,
        is_closed: false,
        rounds: 0,
        peer_disconnected,
        peer_reset,
        stage: TlsReadStage::ReadTls,
    }).round()
}

/// The read after a number of events.
pub open spec fn tls_read_run(r: TlsRead, events: Seq<TlsReadEvent>) -> TlsRead
    decreases events.len(),
{
    if events.len() == 0 {
        r
    } else {
        tls_read_run(r, events.drop_last()).after(events.last())
    }
}

/// Every event belongs to the step that the read was at.
pub open spec fn tls_read_run_ok(r: TlsRead, events: Seq<TlsReadEvent>) -> bool
    decreases events.len(),
{
    events.len() > 0 ==> {
        &&& tls_read_run_ok(r, events.drop_last())
        &&& tls_read_run(r, events.drop_last()).expects(events.last())
    }
}

/// The plaintext that a number of events put into the buffer.
pub open spec fn plaintext_read(events: Seq<TlsReadEvent>) -> int
    decreases events.len(),
{
    if events.len() == 0 {
        0
    } else {
        plaintext_read(events.drop_last()) + match events.last() {
            TlsReadEvent::PlainRead(Ok(n)) => n as int,
            _ => 0,
        }
    }
}

/// A TLS read reports exactly the plaintext that was read, never more than its
/// buffer holds. It marks the peer as reset only along with disconnected, and
/// forgets neither.
pub proof fn law_tls_read_counts_plaintext(
    len: usize,
    peer_disconnected: bool,
    peer_reset: bool,
    events: Seq<TlsReadEvent>,
)
    requires
        tls_read_run_ok(tls_read_start(len, peer_disconnected, peer_reset), events),
    ensures
        ({
            let r = tls_read_run(tls_read_start(len, peer_disconnected, peer_reset), events);
            &&& r.wf()
            &&& r.len == len
            &&& r.size == plaintext_read(events)
            &&& peer_disconnected ==> r.peer_disconnected
            &&& peer_reset ==> r.peer_reset
            &&& r.peer_reset ==> peer_reset || r.peer_disconnected
        }),
    decreases events.len(),
{
    if events.len() > 0 {
        law_tls_read_counts_plaintext(len, peer_disconnected, peer_reset, events.drop_last());
    }
}

/// What a TLS write does next.
#[derive(Debug, PartialEq, Eq, Structural, Copy, Clone)]
pub enum TlsWriteStage {
    /// Hand the session the plaintext from `buffered` on.
    Absorb,
    /// Write the session's records to the socket.
    Drain,
    /// Ask whether the session still has records to write.
    AskWantsWrite,
    /// Write the last of the session's records to the socket.
    Flush,
    /// Nothing: the write is over.
    Done,
}

/// How a step of a TLS write went.
#[derive(Debug, Copy, Clone)]
pub enum TlsWriteEvent {
    /// The session took plaintext, or not.
    Absorbed(Result<usize, IoErrorKind>),
    /// Records were written to the socket, or not.
    TlsWritten(Result<usize, IoErrorKind>),
    /// Whether the session still has records to write.
    WantsWrite(bool),
}

/// A write of plaintext to a TLS session, from one buffer or from several.
///
/// The two differ in one thing: the slices of a vectored write are not
/// advanced, so a session that took a part of them ends the write, and the
/// caller comes back with the rest.
#[derive(Debug, PartialEq, Eq, Structural, Copy, Clone)]
pub struct TlsWrite {
    pub vectored: bool,
    /// The length of the plaintext.
    pub len: usize,
    /// How much of it the session has taken.
    pub buffered: usize,
    pub can_write: bool,
    pub is_error: bool,
    pub is_closed: bool,
    /// How many rounds have begun.
    pub rounds: usize,
    /// The peer reset the connection: nothing can be sent.
    pub peer_reset: bool,
    pub stage: TlsWriteStage,
}

impl TlsWrite {
    /// What every write meets.
    pub open spec fn wf(self) -> bool {
        &&& self.buffered <= self.len
        &&& self.rounds <= MAX_LOOP_ITERATIONS + 1
        &&& !(self.is_error && self.is_closed)
        &&& self.stage is Absorb || self.stage is Drain ==> self.can_write && !self.is_error
            && !self.is_closed && self.rounds <= MAX_LOOP_ITERATIONS
        &&& self.stage is Absorb ==> self.buffered < self.len
        &&& self.stage is Absorb && self.vectored ==> self.buffered == 0
        &&& self.stage is AskWantsWrite || self.stage is Flush ==> self.can_write
            && !self.is_error && !self.is_closed
        &&& self.is_closed ==> self.peer_reset
    }

    /// Leaves the main loop: what the session still holds is flushed, unless
    /// nothing can be sent.
    pub open spec fn leave(self) -> TlsWrite {
        TlsWrite {
            stage: if !self.is_error && !self.is_closed && self.can_write {
                TlsWriteStage::AskWantsWrite
            } else {
                TlsWriteStage::Done
            },
            ..self
        }
    }

    /// Begins a round. The main loop is over when it has taken too many rounds,
    /// when the session has taken all plaintext, or when nothing can be sent.
    pub open spec fn round(self) -> TlsWrite {
        let rounds = (self.rounds + 1) as usize;
        if rounds > MAX_LOOP_ITERATIONS {
            (TlsWrite { rounds, is_error: true, is_closed: false, ..self }).leave()
        } else if self.buffered == self.len || !self.can_write || self.is_error || self.is_closed {
            (TlsWrite { rounds, ..self }).leave()
        } else {
            TlsWrite { rounds, stage: TlsWriteStage::Absorb, ..self }
        }
    }

    /// Whether `event` is how the current step can go.
    pub open spec fn expects(self, event: TlsWriteEvent) -> bool {
        match event {
            TlsWriteEvent::Absorbed(outcome) => {
                &&& self.stage is Absorb
                &&& outcome matches Ok(n) ==> n <= self.len - self.buffered
            },
            TlsWriteEvent::TlsWritten(_) => self.stage is Drain || self.stage is Flush,
            TlsWriteEvent::WantsWrite(_) => self.stage is AskWantsWrite,
        }
    }

    /// Where a drain leads when it is over: a vectored write that was taken in
    /// part ends, any other begins the next round.
    pub open spec fn drained(self) -> TlsWrite {
        if self.vectored && 0 < self.buffered < self.len {
            self.leave()
        } else {
            self.round()
        }
    }

    /// The write with the connection found reset, or failed otherwise.
    pub open spec fn failed(self, kind: IoErrorKind) -> TlsWrite {
        if kind.is_reset() {
            TlsWrite { is_closed: true, peer_reset: true, ..self }
        } else {
            TlsWrite { is_error: true, ..self }
        }
    }

    /// The write after `event`.
    pub open spec fn after(self, event: TlsWriteEvent) -> TlsWrite {
        match event {
            TlsWriteEvent::Absorbed(Ok(n)) => TlsWrite {
                buffered: (self.buffered + n) as usize,
                stage: TlsWriteStage::Drain,
                ..self
            },
            TlsWriteEvent::Absorbed(Err(kind)) => if kind is WouldBlock {
                TlsWrite { stage: TlsWriteStage::Drain, ..self }
            } else {
                self.failed(kind).leave()
            },
            TlsWriteEvent::TlsWritten(Ok(n)) => if n > 0 {
                self
            } else if self.stage is Drain {
                self.drained()
            } else {
                TlsWrite { stage: TlsWriteStage::Done, ..self }
            },
            TlsWriteEvent::TlsWritten(Err(kind)) => {
                let hit = if kind is WouldBlock {
                    TlsWrite { can_write: false, ..self }
                } else {
                    self.failed(kind)
                };
                if self.stage is Drain {
                    hit.drained()
                } else {
                    TlsWrite { stage: TlsWriteStage::Done, ..hit }
                }
            },
            TlsWriteEvent::WantsWrite(wants) => TlsWrite {
                stage: if wants {
                    TlsWriteStage::Flush
                } else {
                    TlsWriteStage::Done
                },
                ..self
            },
        }
    }

    fn leave_loop(&mut self)
        ensures
            *final(self) == old(self).leave(),
    {
        self.stage = if !self.is_error && !self.is_closed && self.can_write {
            TlsWriteStage::AskWantsWrite
        } else {
            TlsWriteStage::Done
        };
    }

    fn begin_round(&mut self)
        requires
            old(self).rounds <= MAX_LOOP_ITERATIONS,
        ensures
            *final(self) == old(self).round(),
    {
        self.rounds = self.rounds + 1;
        if self.rounds > MAX_LOOP_ITERATIONS {
            self.is_error = true;
            self.is_closed = false;
            self.leave_loop();
        } else if self.buffered == self.len || !self.can_write || self.is_error || self.is_closed {
            self.leave_loop();
        } else {
            self.stage = TlsWriteStage::Absorb;
        }
    }

    fn finish_drain(&mut self)
        requires
            old(self).rounds <= MAX_LOOP_ITERATIONS,
        ensures
            *final(self) == old(self).drained(),
    {
        if self.vectored && 0 < self.buffered && self.buffered < self.len {
            self.leave_loop();
        } else {
            self.begin_round();
        }
    }

    fn fail(&mut self, kind: IoErrorKind)
        ensures
            *final(self) == old(self).failed(kind),
    {
        if kind.reset() {
            self.is_closed = true;
            self.peer_reset = true;
        } else {
            self.is_error = true;
        }
    }

    /// A write of `len` bytes of plaintext. On a connection that the peer reset
    /// it is over at once.
    pub fn new(vectored: bool, len: usize, peer_reset: bool) -> (w: TlsWrite)
        ensures
            w.wf(),
            w == tls_write_start(vectored, len, peer_reset),
            peer_reset ==> w.stage is Done && w.buffered == 0 && w.outcome() is Closed,
            !peer_reset && len == 0 ==> w.stage is AskWantsWrite,
            !peer_reset && len > 0 ==> w.stage is Absorb,
    {
        let mut w = TlsWrite {
            vectored,
            len,
            buffered: 0,
            can_write: true,
            is_error: false,
            is_closed: peer_reset,
            rounds: 0,
            peer_reset,
            stage: TlsWriteStage::Done,
        };
        if !peer_reset {
            w.begin_round();
        }
        w
    }

    /// Takes in how the current step went.
    pub fn handle(&mut self, event: TlsWriteEvent)
        requires
            old(self).wf(),
            old(self).expects(event),
        ensures
            *final(self) == old(self).after(event),
            final(self).wf(),
    {
        match event {
            TlsWriteEvent::Absorbed(outcome) => {
                match outcome {
                    Ok(n) => {
                        self.buffered = self.buffered + n;
                        self.stage = TlsWriteStage::Drain;
                    },
                    Err(IoErrorKind::WouldBlock) => {
                        self.stage = TlsWriteStage::Drain;
                    },
                    Err(kind) => {
                        self.fail(kind);
                        self.leave_loop();
                    },
                }
            },
            TlsWriteEvent::TlsWritten(outcome) => {
                let draining = self.stage == TlsWriteStage::Drain;
                match outcome {
                    Ok(n) => {
                        if n > 0 {
                            return ;
                        }
                    },
                    Err(IoErrorKind::WouldBlock) => {
                        self.can_write = false;
                    },
                    Err(kind) => {
                        self.fail(kind);
                    },
                }
                if draining {
                    self.finish_drain();
                } else {
                    self.stage = TlsWriteStage::Done;
                }
            },
            TlsWriteEvent::WantsWrite(wants) => {
                self.stage = if wants {
                    TlsWriteStage::Flush
                } else {
                    TlsWriteStage::Done
                };
            },
        }
    }

    /// How a write that is over ended.
    pub open spec fn outcome(self) -> SocketResult {
        if self.is_error {
            SocketResult::Error
        } else if self.is_closed {
            SocketResult::Closed
        } else if self.can_write {
            SocketResult::Continue
        } else {
            SocketResult::WouldBlock
        }
    }

    /// What a write that is over reports.
    pub fn result(&self) -> (r: (usize, SocketResult))
        requires
            self.wf(),
            self.stage is Done,
        ensures
            r == (self.buffered, self.outcome()),
    {
        if self.is_error {
            (self.buffered, SocketResult::Error)
        } else if self.is_closed {
            (self.buffered, SocketResult::Closed)
        } else if !self.can_write {
            (self.buffered, SocketResult::WouldBlock)
        } else {
            (self.buffered, SocketResult::Continue)
        }
    }
}

/// A write of `len` bytes that has just begun.
pub open spec fn tls_write_start(vectored: bool, len: usize, peer_reset: bool) -> TlsWrite {
    let w = TlsWrite {
        vectored,
        len,
        buffered: 0,
        can_write: true,
        is_error: false,
        is_closed: peer_reset,
        rounds: 0,
        peer_reset,
        stage: TlsWriteStage::Done,
    };
    if peer_reset {
        w
    } else {
        w.round()
    }
}

/// The write after a number of events.
pub open spec fn tls_write_run(w: TlsWrite, events: Seq<TlsWriteEvent>) -> TlsWrite
    decreases events.len(),
{
    if events.len() == 0 {
        w
    } else {
        tls_write_run(w, events.drop_last()).after(events.last())
    }
}

/// Every event belongs to the step that the write was at.
pub open spec fn tls_write_run_ok(w: TlsWrite, events: Seq<TlsWriteEvent>) -> bool
    decreases events.len(),
{
    events.len() > 0 ==> {
        &&& tls_write_run_ok(w, events.drop_last())
        &&& tls_write_run(w, events.drop_last()).expects(events.last())
    }
}

/// The plaintext that a number of events handed to the session.
pub open spec fn plaintext_written(events: Seq<TlsWriteEvent>) -> int
    decreases events.len(),
{
    if events.len() == 0 {
        0
    } else {
        plaintext_written(events.drop_last()) + match events.last() {
            TlsWriteEvent::Absorbed(Ok(n)) => n as int,
            _ => 0,
        }
    }
}

/// A TLS write reports exactly the plaintext that the session took, never more
/// than it was given. It is over at once on a reset connection, and never both
/// failed and closed.
pub proof fn law_tls_write_counts_plaintext(
    vectored: bool,
    len: usize,
    peer_reset: bool,
    events: Seq<TlsWriteEvent>,
)
    requires
        tls_write_run_ok(tls_write_start(vectored, len, peer_reset), events),
    ensures
        ({
            let w = tls_write_run(tls_write_start(vectored, len, peer_reset), events);
            &&& w.wf()
            &&& w.len == len
            &&& w.vectored == vectored
            &&& w.buffered == plaintext_written(events)
            &&& peer_reset ==> events.len() == 0 && w.outcome() is Closed
        }),
    decreases events.len(),
{
    if events.len() > 0 {
        law_tls_write_counts_plaintext(vectored, len, peer_reset, events.drop_last());
    }
}

/// A plain TLS write that ends well, with the socket still ready, has handed all
/// of its plaintext to the session; a vectored one has handed over some of it,
/// unless there was none.
pub proof fn law_tls_write_that_ends_well_hands_over_its_plaintext(
    vectored: bool,
    len: usize,
    peer_reset: bool,
    events: Seq<TlsWriteEvent>,
)
    requires
        tls_write_run_ok(tls_write_start(vectored, len, peer_reset), events),
    ensures
        ({
            let w = tls_write_run(tls_write_start(vectored, len, peer_reset), events);
            w.stage is Done && w.outcome() is Continue ==> {
                &&& !vectored ==> plaintext_written(events) == len
                &&& vectored && len > 0 ==> plaintext_written(events) > 0
            }
        }),
{
    law_tls_write_counts_plaintext(vectored, len, peer_reset, events);
    lemma_left_with_plaintext(vectored, len, peer_reset, events);
}

/// A write leaves its main loop for good with its plaintext handed over.
proof fn lemma_left_with_plaintext(
    vectored: bool,
    len: usize,
    peer_reset: bool,
    events: Seq<TlsWriteEvent>,
)
    requires
        tls_write_run_ok(tls_write_start(vectored, len, peer_reset), events),
    ensures
        ({
            let w = tls_write_run(tls_write_start(vectored, len, peer_reset), events);
            w.stage is AskWantsWrite || w.stage is Flush || (w.stage is Done
                && w.outcome() is Continue) ==> w.buffered == len || (vectored && w.buffered > 0)
        }),
    decreases events.len(),
{
    if events.len() > 0 {
        law_tls_write_counts_plaintext(vectored, len, peer_reset, events.drop_last());
        lemma_left_with_plaintext(vectored, len, peer_reset, events.drop_last());
    }
}

/// One step of a vectored write, and of a plain one, when the session takes
/// nothing or all.
proof fn lemma_symmetric_step(w: TlsWrite, event: TlsWriteEvent)
    requires
        w.buffered == 0 || w.buffered == w.len,
        !w.vectored,
        w.expects(event),
        match event {
            TlsWriteEvent::Absorbed(Ok(n)) => n == 0 || n == w.len,
            _ => true,
        },
    ensures
        (TlsWrite { vectored: true, ..w }).expects(event),
        (TlsWrite { vectored: true, ..w }).after(event) == (TlsWrite {
            vectored: true,
            ..w.after(event)
        }),
        w.after(event).buffered == 0 || w.after(event).buffered == w.len,
        w.after(event).len == w.len,
        !w.after(event).vectored,
{
}

/// As long as the session takes either nothing or all of the plaintext, a
/// vectored write goes as a plain one does.
pub proof fn law_vectored_write_is_symmetric(
    len: usize,
    peer_reset: bool,
    events: Seq<TlsWriteEvent>,
)
    requires
        tls_write_run_ok(tls_write_start(false, len, peer_reset), events),
        forall|i: int|
            0 <= i < events.len() ==> match #[trigger] events[i] {
                TlsWriteEvent::Absorbed(Ok(n)) => n == 0 || n == len,
                _ => true,
            },
    ensures
        tls_write_run_ok(tls_write_start(true, len, peer_reset), events),
        tls_write_run(tls_write_start(true, len, peer_reset), events) == (TlsWrite {
            vectored: true,
            ..tls_write_run(tls_write_start(false, len, peer_reset), events)
        }),
        ({
            let w = tls_write_run(tls_write_start(false, len, peer_reset), events);
            w.buffered == 0 || w.buffered == len
        }),
        tls_write_run(tls_write_start(false, len, peer_reset), events).len == len,
        !tls_write_run(tls_write_start(false, len, peer_reset), events).vectored,
    decreases events.len(),
{
    if events.len() > 0 {
        let front = events.drop_last();
        assert forall|i: int| 0 <= i < front.len() implies match #[trigger] front[i] {
            TlsWriteEvent::Absorbed(Ok(n)) => n == 0 || n == len,
            _ => true,
        } by {
            assert(front[i] == events[i]);
        }
        assert(events[events.len() - 1] == events.last());
        law_vectored_write_is_symmetric(len, peer_reset, front);
        let w = tls_write_run(tls_write_start(false, len, peer_reset), front);
        assert(match events.last() {
            TlsWriteEvent::Absorbed(Ok(n)) => n == 0 || n == w.len,
            _ => true,
        });
        lemma_symmetric_step(w, events.last());
    }
}

/// Whether an event says that the peer is gone: it closed its side, or reset the
/// connection.
pub open spec fn tells_of_the_end(event: TlsReadEvent) -> bool {
    match event {
        TlsReadEvent::TlsRead(Ok(n)) => n == 0,
        TlsReadEvent::TlsRead(Err(k)) | TlsReadEvent::PlainRead(Err(k)) => k is ConnectionReset
            || k is ConnectionAborted || k is BrokenPipe,
        _ => false,
    }
}

/// Whether an event is a failure: records that the session refuses, or an error
/// that neither asks to wait nor tells of the end. A session that can take no
/// more records for now is none.
pub open spec fn is_read_failure(event: TlsReadEvent) -> bool {
    match event {
        TlsReadEvent::Processed(ok) => !ok,
        TlsReadEvent::TlsRead(Err(k)) => !(k is WouldBlock) && !(k is Other) && !tells_of_the_end(
            event,
        ),
        TlsReadEvent::PlainRead(Err(k)) => !(k is WouldBlock) && !tells_of_the_end(event),
        _ => false,
    }
}

/// Whether one of some events tells of the end.
pub open spec fn read_ended(events: Seq<TlsReadEvent>) -> bool
    decreases events.len(),
{
    events.len() > 0 && (read_ended(events.drop_last()) || tells_of_the_end(events.last()))
}

/// Whether one of some events is a failure.
pub open spec fn read_failed(events: Seq<TlsReadEvent>) -> bool
    decreases events.len(),
{
    events.len() > 0 && (read_failed(events.drop_last()) || is_read_failure(events.last()))
}

/// Whether one of some events says that the socket has no more records for now.
pub open spec fn read_dried_up(events: Seq<TlsReadEvent>) -> bool
    decreases events.len(),
{
    events.len() > 0 && (read_dried_up(events.drop_last()) || events.last()
        == TlsReadEvent::TlsRead(Err(IoErrorKind::WouldBlock)))
}

/// How many times records were read from the socket.
pub open spec fn tls_reads(events: Seq<TlsReadEvent>) -> int
    decreases events.len(),
{
    if events.len() == 0 {
        0
    } else {
        tls_reads(events.drop_last()) + if events.last() is TlsRead {
            1int
        } else {
            0
        }
    }
}

proof fn lemma_tls_read_history(
    len: usize,
    peer_disconnected: bool,
    peer_reset: bool,
    events: Seq<TlsReadEvent>,
)
    requires
        tls_read_run_ok(tls_read_start(len, peer_disconnected, peer_reset), events),
    ensures
        ({
            let r = tls_read_run(tls_read_start(len, peer_disconnected, peer_reset), events);
            &&& r.wf()
            &&& r.len == len
            &&& r.is_error <==> read_failed(events) || r.rounds > MAX_LOOP_ITERATIONS
            &&& r.is_closed <==> read_ended(events) && !r.is_error
            &&& !read_ended(events) ==> r.can_read == !read_dried_up(events)
            &&& r.stage is ReadTls ==> tls_reads(events) == r.rounds - 1
            &&& r.stage is Done ==> r.rounds - 1 <= tls_reads(events) <= r.rounds
            &&& !(r.stage is ReadTls) && !(r.stage is Done) ==> tls_reads(events) == r.rounds
        }),
    decreases events.len(),
{
    if events.len() > 0 {
        lemma_tls_read_history(len, peer_disconnected, peer_reset, events.drop_last());
    }
}

/// What a read that is over reports is told by its events. It is an error if and
/// only if one of them is a failure, or it took too many rounds, of which each
/// reads records once. Otherwise the peer is reported as gone if and only if an
/// event told of that, and the caller is to wait if and only if the socket had
/// no more records and there is room left in the buffer.
pub proof fn law_tls_read_reports_what_happened(
    len: usize,
    peer_disconnected: bool,
    peer_reset: bool,
    events: Seq<TlsReadEvent>,
)
    requires
        tls_read_run_ok(tls_read_start(len, peer_disconnected, peer_reset), events),
        tls_read_run(
            tls_read_start(len, peer_disconnected, peer_reset),
            events,
        ).stage is Done,
    ensures
        ({
            let r = tls_read_run(tls_read_start(len, peer_disconnected, peer_reset), events);
            let error = read_failed(events) || r.rounds > MAX_LOOP_ITERATIONS;
            &&& r.rounds <= tls_reads(events) + 1
            &&& r.outcome() is Error <==> error
            &&& r.outcome() is Closed <==> !error && read_ended(events)
            &&& r.outcome() is WouldBlock <==> !error && !read_ended(events) && read_dried_up(
                events,
            ) && plaintext_read(events) < len
            &&& r.outcome() is Continue <==> !error && !read_ended(events) && (!read_dried_up(
                events,
            ) || plaintext_read(events) == len)
        }),
{
    lemma_tls_read_history(len, peer_disconnected, peer_reset, events);
    law_tls_read_counts_plaintext(len, peer_disconnected, peer_reset, events);
}

/// The peer is known to be disconnected once the socket ended or was reset, and
/// known to have reset the connection once it was reset.
pub proof fn law_tls_read_learns_of_the_peer(r: TlsRead, event: TlsReadEvent)
    requires
        r.wf(),
        r.expects(event),
    ensures
        r.after(event).peer_disconnected <==> r.peer_disconnected || (event is TlsRead
            && tells_of_the_end(event)),
        r.after(event).peer_reset <==> r.peer_reset || (event matches TlsReadEvent::TlsRead(
            Err(k),
        ) && (k is ConnectionReset || k is ConnectionAborted || k is BrokenPipe)),
{
}

/// The steps of a read: records are read and processed; then plaintext is read
/// for as long as there is some and the session wants no more records. The next
/// round begins while more can come and there is room, and the read is over
/// otherwise, as it is at a failure.
pub proof fn law_tls_read_goes_step_by_step(r: TlsRead, event: TlsReadEvent)
    requires
        r.wf(),
        r.expects(event),
    ensures
        ({
            let after = r.after(event);
            let more = r.can_read && !r.is_closed && r.size < r.len && r.rounds
                < MAX_LOOP_ITERATIONS;
            &&& is_read_failure(event) ==> after.stage is Done
            &&& event is TlsRead && !is_read_failure(event) ==> after.stage is Process
            &&& event == TlsReadEvent::Processed(true) ==> after.stage is AskWantsRead
            &&& event == TlsReadEvent::WantsRead(false) ==> after.stage is ReadPlain
            &&& event matches TlsReadEvent::PlainRead(Ok(n)) ==> (n > 0
                ==> after.stage is AskWantsRead)
            &&& event == TlsReadEvent::WantsRead(true) || event == TlsReadEvent::PlainRead(
                Ok(0usize),
            ) || event == TlsReadEvent::PlainRead(Err(IoErrorKind::WouldBlock)) ==> (
            after.stage is ReadTls <==> more) && (after.stage is Done <==> !more)
            &&& event is PlainRead && tells_of_the_end(event) ==> after.stage is Done
            &&& after.size == r.size + match event {
                TlsReadEvent::PlainRead(Ok(n)) => n as int,
                _ => 0,
            }
        }),
{
}

/// Whether an event of a write says that the peer reset the connection.
pub open spec fn tells_of_a_reset(event: TlsWriteEvent) -> bool {
    match event {
        TlsWriteEvent::Absorbed(Err(k)) | TlsWriteEvent::TlsWritten(Err(k)) => {
            k is ConnectionReset || k is ConnectionAborted || k is BrokenPipe
        },
        _ => false,
    }
}

/// Whether an event of a write is a failure: an error that neither asks to wait
/// nor tells of a reset.
pub open spec fn is_write_failure(event: TlsWriteEvent) -> bool {
    match event {
        TlsWriteEvent::Absorbed(Err(k)) | TlsWriteEvent::TlsWritten(Err(k)) => !(k is WouldBlock)
            && !tells_of_a_reset(event),
        _ => false,
    }
}

/// Whether one of some events tells of a reset.
pub open spec fn write_reset(events: Seq<TlsWriteEvent>) -> bool
    decreases events.len(),
{
    events.len() > 0 && (write_reset(events.drop_last()) || tells_of_a_reset(events.last()))
}

/// Whether one of some events is a failure.
pub open spec fn write_failed(events: Seq<TlsWriteEvent>) -> bool
    decreases events.len(),
{
    events.len() > 0 && (write_failed(events.drop_last()) || is_write_failure(events.last()))
}

/// Whether one of some events says that the socket takes no more for now.
pub open spec fn write_blocked(events: Seq<TlsWriteEvent>) -> bool
    decreases events.len(),
{
    events.len() > 0 && (write_blocked(events.drop_last()) || events.last()
        == TlsWriteEvent::TlsWritten(Err(IoErrorKind::WouldBlock)))
}

/// How many times plaintext was handed to the session.
pub open spec fn absorptions(events: Seq<TlsWriteEvent>) -> int
    decreases events.len(),
{
    if events.len() == 0 {
        0
    } else {
        absorptions(events.drop_last()) + if events.last() is Absorbed {
            1int
        } else {
            0
        }
    }
}

proof fn lemma_tls_write_history(
    vectored: bool,
    len: usize,
    peer_reset: bool,
    events: Seq<TlsWriteEvent>,
)
    requires
        tls_write_run_ok(tls_write_start(vectored, len, peer_reset), events),
    ensures
        ({
            let w = tls_write_run(tls_write_start(vectored, len, peer_reset), events);
            &&& w.wf()
            &&& w.is_error <==> write_failed(events) || w.rounds > MAX_LOOP_ITERATIONS
            &&& w.is_closed <==> (peer_reset || write_reset(events)) && !w.is_error
            &&& w.can_write == !write_blocked(events)
            &&& w.peer_reset <==> peer_reset || write_reset(events)
            &&& w.stage is Absorb ==> absorptions(events) == w.rounds - 1
            &&& w.stage is Drain ==> absorptions(events) == w.rounds
            &&& w.rounds - 1 <= absorptions(events)
        }),
    decreases events.len(),
{
    if events.len() > 0 {
        lemma_tls_write_history(vectored, len, peer_reset, events.drop_last());
    }
}

/// What a write that is over reports is told by its events. It is an error if
/// and only if one of them is a failure, or it took too many rounds, of which
/// each hands plaintext over once. Otherwise the peer is reported as gone if and
/// only if it reset the connection, and the caller is to wait if and only if the
/// socket took no more.
pub proof fn law_tls_write_reports_what_happened(
    vectored: bool,
    len: usize,
    peer_reset: bool,
    events: Seq<TlsWriteEvent>,
)
    requires
        tls_write_run_ok(tls_write_start(vectored, len, peer_reset), events),
        tls_write_run(tls_write_start(vectored, len, peer_reset), events).stage is Done,
    ensures
        ({
            let w = tls_write_run(tls_write_start(vectored, len, peer_reset), events);
            let error = write_failed(events) || w.rounds > MAX_LOOP_ITERATIONS;
            let gone = peer_reset || write_reset(events);
            &&& w.rounds <= absorptions(events) + 1
            &&& w.peer_reset <==> gone
            &&& w.outcome() is Error <==> error
            &&& w.outcome() is Closed <==> !error && gone
            &&& w.outcome() is WouldBlock <==> !error && !gone && write_blocked(events)
            &&& w.outcome() is Continue <==> !error && !gone && !write_blocked(events)
        }),
{
    lemma_tls_write_history(vectored, len, peer_reset, events);
}

/// The steps of a write: plaintext is handed to the session, and its records are
/// written until there are none. That is repeated while plaintext is left, but
/// for a vectored write of which a part was taken. At last what the session
/// still holds is written too. The write is over when the socket takes no more,
/// and at a failure.
pub proof fn law_tls_write_goes_step_by_step(w: TlsWrite, event: TlsWriteEvent)
    requires
        w.wf(),
        w.expects(event),
    ensures
        ({
            let after = w.after(event);
            let taken = TlsWriteEvent::TlsWritten(Ok(0usize));
            let partly = w.vectored && 0 < w.buffered < w.len;
            &&& event matches TlsWriteEvent::Absorbed(Ok(n)) ==> after.stage is Drain
                && after.buffered == w.buffered + n
            &&& !(event matches TlsWriteEvent::Absorbed(Ok(_))) ==> after.buffered == w.buffered
            &&& event == TlsWriteEvent::Absorbed(Err(IoErrorKind::WouldBlock))
                ==> after.stage is Drain
            &&& event matches TlsWriteEvent::TlsWritten(Ok(n)) ==> (n > 0 ==> after == w)
            &&& event == taken && w.stage is Drain && (w.buffered == w.len || partly) && w.rounds
                < MAX_LOOP_ITERATIONS ==> after.stage is AskWantsWrite
            &&& event == taken && w.stage is Drain && w.buffered < w.len && !partly && w.rounds
                < MAX_LOOP_ITERATIONS ==> after.stage is Absorb
            &&& event == taken && w.stage is Flush ==> after.stage is Done
            &&& event == TlsWriteEvent::WantsWrite(true) ==> after.stage is Flush
            &&& event == TlsWriteEvent::WantsWrite(false) ==> after.stage is Done
            &&& is_write_failure(event) || tells_of_a_reset(event) || event
                == TlsWriteEvent::TlsWritten(Err(IoErrorKind::WouldBlock)) ==> after.stage is Done
        }),
{
}

} // verus!
