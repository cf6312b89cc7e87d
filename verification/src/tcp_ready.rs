//! What a TCP session does when its sockets are ready: one call at a time, with
//! the sockets, the backend and the stage in other hands.
use vstd::prelude::*;

use crate::server::Ready;
use crate::socket::MAX_LOOP_ITERATIONS;
use crate::tcp_session;
use crate::tcp_session::{
    BackendConnectionStatus, Readiness, SessionResult, TcpSession, TcpStateMachine,
};

verus! {

/// What is to be done next.
#[derive(Copy, Clone, Debug, PartialEq, Eq, Structural)]
pub enum ReadyCall {
    /// Look whether the backend's socket is alive.
    TestBackSocket,
    /// Count the failure, let go of the backend and connect to another one.
    Reconnect,
    /// Take in that the backend is connected.
    MarkConnected,
    /// Connect to a backend.
    Connect,
    /// Hand on that the client is gone.
    FrontHup,
    /// Hand on that the client sent something.
    Readable,
    /// Hand on that the backend can be written to.
    BackWritable,
    /// Hand on that the backend sent something.
    BackReadable,
    /// Hand on that the client can be written to.
    Writable,
    /// Hand on that the backend is gone.
    BackHup,
    /// Nothing more: this is what comes of it.
    Finish(SessionResult),
}

/// What came of a call.
#[derive(Copy, Clone, Debug, PartialEq, Eq, Structural)]
pub enum CallResult {
    /// Nothing that matters: there was no call, or it took in something.
    Done,
    /// Whether the backend's socket is alive.
    Alive(bool),
    /// What an attempt to connect leads to, if the session does not just go on.
    Connection(Option<SessionResult>),
    /// What a handler wants.
    Handled(SessionResult),
}

/// How far a session has got.
#[derive(Copy, Clone, Debug, PartialEq, Eq, Structural)]
pub enum ReadyPhase {
    Start,
    Testing,
    /// An attempt to connect is made before anything else.
    Connecting,
    Marked,
    FrontHup,
    /// A pass over the sockets: what the client's and the backend's were ready
    /// for when it began, and the place in it.
    Pass { front: Ready, back: Ready, place: PassPlace },
    Finished,
}

/// The places in a pass over the sockets.
#[derive(Copy, Clone, Debug, PartialEq, Eq, Structural)]
pub enum PassPlace {
    Readable,
    /// The route may just have been found.
    Connect,
    BackWritable,
    BackReadable,
    Writable,
    BackHup,
    FrontError,
    BackError,
}

/// The run of a session over its sockets.
#[derive(Copy, Clone, Debug, PartialEq, Eq, Structural)]
pub struct ReadyLoop {
    pub phase: ReadyPhase,
    /// How many passes were made.
    pub counter: usize,
}

/// What changes in the session on the way.
pub ghost struct Clearing {
    /// It was taken in that the client is gone.
    pub front_hup: bool,
    /// Nothing is waited for anymore.
    pub interests: bool,
}

/// Nothing changes.
pub open spec fn no_clearing() -> Clearing {
    Clearing { front_hup: false, interests: false }
}

/// Nothing is waited for anymore.
pub open spec fn clearing_interests() -> Clearing {
    Clearing { front_hup: false, interests: true }
}

/// Where a call leads to.
pub ghost struct ReadyStep {
    pub next: ReadyLoop,
    pub call: ReadyCall,
    pub clearing: Clearing,
}

/// What a socket is ready for, of what is waited for.
pub open spec fn filtered(r: Readiness) -> Ready {
    Ready {
        readable: r.interest.readable && r.event.readable,
        writable: r.interest.writable && r.event.writable,
        error: r.interest.error && r.event.error,
        hup: r.interest.hup && r.event.hup,
    }
}

fn filter(r: Readiness) -> (f: Ready)
    ensures
        f == filtered(r),
{
    Ready {
        readable: r.interest.readable && r.event.readable,
        writable: r.interest.writable && r.event.writable,
        error: r.interest.error && r.event.error,
        hup: r.interest.hup && r.event.hup,
    }
}

fn is_empty(r: Ready) -> (e: bool)
    ensures
        e == (r == tcp_session::no_events()),
{
    !r.readable && !r.writable && !r.error && !r.hup
}

/// What the backend's socket is ready for; nothing where there is none.
pub open spec fn back_filtered(session: TcpSession) -> Ready {
    match session.state.back() {
        Some(back) => filtered(back),
        None => tcp_session::no_events(),
    }
}

/// Whether the session may connect: it has no backend, and its route is known.
pub open spec fn may_connect(session: TcpSession) -> bool {
    session.backend_connected is NotConnected && !session.state.undecided()
}

/// Whether the backend is gone and what it left waits to be written to a client
/// that is not ready for it.
pub open spec fn is_stuck(session: TcpSession) -> bool {
    let front = session.state.front()->0;
    &&& session.state.back() matches Some(back) && back.event.hup
    &&& front.interest.writable
    &&& !front.event.writable
}

/// The session finishes.
pub open spec fn finish(counter: usize, result: SessionResult, clearing: Clearing) -> ReadyStep {
    ReadyStep {
        next: ReadyLoop { phase: ReadyPhase::Finished, counter },
        call: ReadyCall::Finish(result),
        clearing,
    }
}

/// The session makes a call in a pass.
pub open spec fn in_pass(
    counter: usize,
    front: Ready,
    back: Ready,
    place: PassPlace,
    call: ReadyCall,
) -> ReadyStep {
    ReadyStep {
        next: ReadyLoop { phase: ReadyPhase::Pass { front, back, place }, counter },
        call,
        clearing: no_clearing(),
    }
}

/// The first place of a pass, from the `from`th on, where something is to be
/// done.
pub open spec fn next_place(from: int, front: Ready, back: Ready) -> Option<PassPlace> {
    if from <= 0 && front.readable {
        Some(PassPlace::Readable)
    } else if from <= 1 && back.writable {
        Some(PassPlace::BackWritable)
    } else if from <= 2 && back.readable {
        Some(PassPlace::BackReadable)
    } else if from <= 3 && front.writable {
        Some(PassPlace::Writable)
    } else if from <= 4 && back.hup {
        Some(PassPlace::BackHup)
    } else if from <= 5 && front.error {
        Some(PassPlace::FrontError)
    } else if from <= 6 && back.error {
        Some(PassPlace::BackError)
    } else {
        None
    }
}

fn find_place(from: u8, front: Ready, back: Ready) -> (place: Option<PassPlace>)
    ensures
        place == next_place(from as int, front, back),
{
    if from == 0 && front.readable {
        Some(PassPlace::Readable)
    } else if from <= 1 && back.writable {
        Some(PassPlace::BackWritable)
    } else if from <= 2 && back.readable {
        Some(PassPlace::BackReadable)
    } else if from <= 3 && front.writable {
        Some(PassPlace::Writable)
    } else if from <= 4 && back.hup {
        Some(PassPlace::BackHup)
    } else if from <= 5 && front.error {
        Some(PassPlace::FrontError)
    } else if from <= 6 && back.error {
        Some(PassPlace::BackError)
    } else {
        None
    }
}

/// How many places of a pass come before the one behind `place`.
pub open spec fn behind(place: PassPlace) -> int {
    match place {
        PassPlace::Readable => 1,
        PassPlace::Connect => 1,
        PassPlace::BackWritable => 2,
        PassPlace::BackReadable => 3,
        PassPlace::Writable => 4,
        PassPlace::BackHup => 5,
        PassPlace::FrontError => 6,
        PassPlace::BackError => 7,
    }
}

fn place_behind(place: PassPlace) -> (n: u8)
    ensures
        n == behind(place),
{
    match place {
        PassPlace::Readable => 1,
        PassPlace::Connect => 1,
        PassPlace::BackWritable => 2,
        PassPlace::BackReadable => 3,
        PassPlace::Writable => 4,
        PassPlace::BackHup => 5,
        PassPlace::FrontError => 6,
        PassPlace::BackError => 7,
    }
}

/// What is done at a place. An error of the client's socket closes the session;
/// of one of the backend's, the stage is told that the backend is gone.
pub open spec fn at_place(
    counter: usize,
    front: Ready,
    back: Ready,
    place: PassPlace,
) -> ReadyStep {
    match place {
        PassPlace::Readable => in_pass(counter, front, back, place, ReadyCall::Readable),
        PassPlace::Connect => in_pass(counter, front, back, place, ReadyCall::Connect),
        PassPlace::BackWritable => in_pass(counter, front, back, place, ReadyCall::BackWritable),
        PassPlace::BackReadable => in_pass(counter, front, back, place, ReadyCall::BackReadable),
        PassPlace::Writable => in_pass(counter, front, back, place, ReadyCall::Writable),
        PassPlace::BackHup => in_pass(counter, front, back, place, ReadyCall::BackHup),
        PassPlace::FrontError => finish(counter, SessionResult::Close, clearing_interests()),
        PassPlace::BackError => in_pass(counter, front, back, place, ReadyCall::BackHup),
    }
}

/// A pass begins, unless too many were made, nothing is ready, or nothing can be
/// done before the client is ready. Where a pass would do nothing, neither would
/// any after it.
pub open spec fn begin_pass(counter: usize, session: TcpSession) -> ReadyStep {
    let front = filtered(session.state.front()->0);
    let back = back_filtered(session);
    if counter >= MAX_LOOP_ITERATIONS {
        finish(counter, SessionResult::Close, no_clearing())
    } else if front == tcp_session::no_events() && back == tcp_session::no_events() {
        finish(counter, SessionResult::Continue, no_clearing())
    } else if is_stuck(session) {
        finish(counter, SessionResult::Continue, no_clearing())
    } else {
        match next_place(0, front, back) {
            Some(place) => at_place(counter, front, back, place),
            None => finish(MAX_LOOP_ITERATIONS, SessionResult::Close, no_clearing()),
        }
    }
}

/// A pass goes on behind a place, or gives way to the next one.
pub open spec fn resume(
    counter: usize,
    front: Ready,
    back: Ready,
    place: PassPlace,
    session: TcpSession,
) -> ReadyStep {
    match next_place(behind(place), front, back) {
        Some(next) => at_place(counter, front, back, next),
        None => begin_pass((counter + 1) as usize, session),
    }
}

/// What comes before the first pass: whether the client is gone.
pub open spec fn before_passes(session: TcpSession) -> ReadyStep {
    if session.state.front()->0.event.hup {
        ReadyStep {
            next: ReadyLoop { phase: ReadyPhase::FrontHup, counter: 0 },
            call: ReadyCall::FrontHup,
            clearing: no_clearing(),
        }
    } else {
        begin_pass(0, session)
    }
}

/// What comes first: seeing to the backend.
pub open spec fn at_start(session: TcpSession) -> ReadyStep {
    let event = session.state.back()->0.event;
    if session.backend_connected is Connecting {
        if event.hup {
            ReadyStep {
                next: ReadyLoop { phase: ReadyPhase::Testing, counter: 0 },
                call: ReadyCall::TestBackSocket,
                clearing: no_clearing(),
            }
        } else if event != tcp_session::no_events() {
            marking()
        } else {
            before_passes(session)
        }
    } else if may_connect(session) {
        ReadyStep {
            next: ReadyLoop { phase: ReadyPhase::Connecting, counter: 0 },
            call: ReadyCall::Connect,
            clearing: no_clearing(),
        }
    } else {
        before_passes(session)
    }
}

/// The backend is connected.
pub open spec fn marking() -> ReadyStep {
    ReadyStep {
        next: ReadyLoop { phase: ReadyPhase::Marked, counter: 0 },
        call: ReadyCall::MarkConnected,
        clearing: no_clearing(),
    }
}

/// What a session waits for once nothing is waited for anymore.
pub open spec fn without_interests(state: TcpStateMachine) -> TcpStateMachine {
    let front = Readiness { interest: tcp_session::no_events(), ..state.front()->0 };
    match state.back() {
        Some(back) => state.with_readiness(
            front,
            Readiness { interest: tcp_session::no_events(), ..back },
        ),
        None => state.with_readiness(front, front),
    }
}

/// A session once it was taken in that the client is gone.
pub open spec fn without_front_hup(state: TcpStateMachine) -> TcpStateMachine {
    let front = state.front()->0;
    let heard = Readiness { event: Ready { hup: false, ..front.event }, ..front };
    match state.back() {
        Some(back) => state.with_readiness(heard, back),
        None => state.with_readiness(heard, heard),
    }
}

/// What changed in the session.
pub open spec fn cleared(session: TcpSession, clearing: Clearing) -> TcpSession {
    let heard = if clearing.front_hup {
        TcpSession { state: without_front_hup(session.state), ..session }
    } else {
        session
    };
    if clearing.interests {
        TcpSession { state: without_interests(heard.state), ..heard }
    } else {
        heard
    }
}

impl ReadyLoop {
    /// Whether `result` is what the call that was made last gives.
    pub open spec fn expects(self, result: CallResult) -> bool {
        match self.phase {
            ReadyPhase::Start => result is Done,
            ReadyPhase::Testing => result is Alive,
            ReadyPhase::Connecting => result is Connection,
            ReadyPhase::Marked => result is Done,
            ReadyPhase::FrontHup => result is Handled,
            ReadyPhase::Pass { place, .. } => if place is Connect {
                result is Connection
            } else {
                result is Handled && !(place is FrontError)
            },
            ReadyPhase::Finished => false,
        }
    }

    /// What every run meets: there are not too many passes.
    pub open spec fn wf(self) -> bool {
        &&& self.counter <= MAX_LOOP_ITERATIONS
        &&& self.phase is Pass ==> self.counter < MAX_LOOP_ITERATIONS
    }

    /// Where the result of a call leads to. `session` is as the call left it.
    pub open spec fn step(self, session: TcpSession, result: CallResult) -> ReadyStep {
        match self.phase {
            ReadyPhase::Start => at_start(session),
            ReadyPhase::Testing => if result == CallResult::Alive(true) {
                marking()
            } else {
                ReadyStep {
                    next: ReadyLoop { phase: ReadyPhase::Connecting, counter: 0 },
                    call: ReadyCall::Reconnect,
                    clearing: no_clearing(),
                }
            },
            ReadyPhase::Connecting => match result {
                CallResult::Connection(Some(r)) => finish(0, r, no_clearing()),
                _ => before_passes(session),
            },
            ReadyPhase::Marked => before_passes(session),
            ReadyPhase::FrontHup => if result == CallResult::Handled(SessionResult::Continue) {
                let heard = TcpSession { state: without_front_hup(session.state), ..session };
                let pass = begin_pass(0, heard);
                ReadyStep { clearing: Clearing { front_hup: true, ..pass.clearing }, ..pass }
            } else {
                finish(0, result->Handled_0, no_clearing())
            },
            ReadyPhase::Pass { front, back, place } => match result {
                CallResult::Connection(Some(r)) => finish(self.counter, r, no_clearing()),
                CallResult::Handled(r) if place is BackError => if r is Close {
                    finish(self.counter, SessionResult::Close, clearing_interests())
                } else {
                    resume(self.counter, front, back, place, session)
                },
                CallResult::Handled(r) if !(r is Continue) => finish(
                    self.counter,
                    r,
                    no_clearing(),
                ),
                CallResult::Handled(_) if place is Readable && may_connect(session) => at_place(
                    self.counter,
                    front,
                    back,
                    PassPlace::Connect,
                ),
                _ => resume(self.counter, front, back, place, session),
            },
            ReadyPhase::Finished => finish(
                self.counter,
                SessionResult::Continue,
                no_clearing(),
            ),
        }
    }

    /// A run that has not begun.
    pub fn new() -> (run: ReadyLoop)
        ensures
            run == (ReadyLoop { phase: ReadyPhase::Start, counter: 0 }),
            run.wf(),
    {
        ReadyLoop { phase: ReadyPhase::Start, counter: 0 }
    }

    fn finish_with(&mut self, result: SessionResult) -> (call: ReadyCall)
        ensures
            final(self).counter == old(self).counter,
            final(self).phase is Finished,
            call == ReadyCall::Finish(result),
    {
        self.phase = ReadyPhase::Finished;
        ReadyCall::Finish(result)
    }

    fn go_to(&mut self, session: &mut TcpSession, front: Ready, back: Ready, place: PassPlace) -> (call:
        ReadyCall)
        requires
            !(old(session).state is FailedUpgrade),
        ensures
            ({
                let step = at_place(old(self).counter, front, back, place);
                &&& *final(self) == step.next
                &&& call == step.call
                &&& *final(session) == cleared(*old(session), step.clearing)
            }),
    {
        self.phase = ReadyPhase::Pass { front, back, place };
        match place {
            PassPlace::Readable => ReadyCall::Readable,
            PassPlace::Connect => ReadyCall::Connect,
            PassPlace::BackWritable => ReadyCall::BackWritable,
            PassPlace::BackReadable => ReadyCall::BackReadable,
            PassPlace::Writable => ReadyCall::Writable,
            PassPlace::BackHup => ReadyCall::BackHup,
            PassPlace::FrontError => {
                clear_interests(session);
                self.finish_with(SessionResult::Close)
            },
            PassPlace::BackError => ReadyCall::BackHup,
        }
    }

    fn begin_pass(&mut self, session: &mut TcpSession) -> (call: ReadyCall)
        requires
            !(old(session).state is FailedUpgrade),
        ensures
            ({
                let step = begin_pass(old(self).counter, *old(session));
                &&& *final(self) == step.next
                &&& call == step.call
                &&& *final(session) == cleared(*old(session), step.clearing)
            }),
    {
        if self.counter >= MAX_LOOP_ITERATIONS {
            return self.finish_with(SessionResult::Close);
        }
        let front_readiness = match session.state.front_readiness() {
            Some(r) => r,
            None => {
                return self.finish_with(SessionResult::Close);
            },
        };
        let front = filter(front_readiness);
        let mut back = Ready { readable: false, writable: false, error: false, hup: false };
        let mut back_gone = false;
        if let Some(r) = session.state.back_readiness() {
            back = filter(r);
            back_gone = r.event.hup;
        }
        if is_empty(front) && is_empty(back) {
            return self.finish_with(SessionResult::Continue);
        }
        if back_gone && front_readiness.interest.writable && !front_readiness.event.writable {
            return self.finish_with(SessionResult::Continue);
        }
        match find_place(0, front, back) {
            Some(place) => self.go_to(session, front, back, place),
            None => {
                self.counter = MAX_LOOP_ITERATIONS;
                self.finish_with(SessionResult::Close)
            },
        }
    }

    fn resume(&mut self, session: &mut TcpSession, front: Ready, back: Ready, place: PassPlace) -> (call:
        ReadyCall)
        requires
            !(old(session).state is FailedUpgrade),
            old(self).counter < MAX_LOOP_ITERATIONS,
        ensures
            ({
                let step = resume(old(self).counter, front, back, place, *old(session));
                &&& *final(self) == step.next
                &&& call == step.call
                &&& *final(session) == cleared(*old(session), step.clearing)
            }),
    {
        match find_place(place_behind(place), front, back) {
            Some(next) => self.go_to(session, front, back, next),
            None => {
                self.counter = self.counter + 1;
                self.begin_pass(session)
            },
        }
    }

    fn before_passes(&mut self, session: &mut TcpSession) -> (call: ReadyCall)
        requires
            !(old(session).state is FailedUpgrade),
            old(self).counter == 0,
        ensures
            ({
                let step = before_passes(*old(session));
                &&& *final(self) == step.next
                &&& call == step.call
                &&& *final(session) == cleared(*old(session), step.clearing)
            }),
    {
        if let Some(front) = session.state.front_readiness() {
            if front.event.hup {
                self.phase = ReadyPhase::FrontHup;
                return ReadyCall::FrontHup;
            }
        }
        self.begin_pass(session)
    }

    fn start(&mut self, session: &mut TcpSession) -> (call: ReadyCall)
        requires
            old(self).phase is Start,
            old(self).counter == 0,
            !(old(session).state is FailedUpgrade),
            old(session).backend_connected is Connecting ==> old(session).state.back() is Some,
        ensures
            ({
                let step = old(self).step(*old(session), CallResult::Done);
                &&& *final(self) == step.next
                &&& call == step.call
                &&& *final(session) == cleared(*old(session), step.clearing)
            }),
    {
        match session.backend_connected {
            BackendConnectionStatus::Connecting(_) => {
                if let Some(back) = session.state.back_readiness() {
                    if back.event.hup {
                        self.phase = ReadyPhase::Testing;
                        return ReadyCall::TestBackSocket;
                    }
                    if !is_empty(back.event) {
                        self.phase = ReadyPhase::Marked;
                        return ReadyCall::MarkConnected;
                    }
                }
                self.before_passes(session)
            },
            BackendConnectionStatus::NotConnected => {
                if tcp_session::frontend_timeout_resets_on_readable(&session.state) {
                    self.phase = ReadyPhase::Connecting;
                    return ReadyCall::Connect;
                }
                self.before_passes(session)
            },
            BackendConnectionStatus::Connected => self.before_passes(session),
        }
    }

    fn go_on(
        &mut self,
        session: &mut TcpSession,
        front: Ready,
        back: Ready,
        place: PassPlace,
        result: CallResult,
    ) -> (call: ReadyCall)
        requires
            old(self).wf(),
            old(self).phase == (ReadyPhase::Pass { front, back, place }),
            old(self).expects(result),
            !(old(session).state is FailedUpgrade),
        ensures
            ({
                let step = old(self).step(*old(session), result);
                &&& *final(self) == step.next
                &&& call == step.call
                &&& *final(session) == cleared(*old(session), step.clearing)
            }),
    {
        match result {
            CallResult::Connection(Some(r)) => {
                return self.finish_with(r);
            },
            CallResult::Handled(r) => {
                if place == PassPlace::BackError {
                    if r == SessionResult::Close {
                        clear_interests(session);
                        return self.finish_with(SessionResult::Close);
                    }
                } else {
                    if r != SessionResult::Continue {
                        return self.finish_with(r);
                    }
                    let unconnected = session.backend_connected
                        == BackendConnectionStatus::NotConnected;
                    if place == PassPlace::Readable && unconnected
                        && tcp_session::frontend_timeout_resets_on_readable(
                        &session.state,
                    ) {
                        return self.go_to(session, front, back, PassPlace::Connect);
                    }
                }
            },
            _ => {},
        }
        self.resume(session, front, back, place)
    }

    fn after_front_hup(&mut self, session: &mut TcpSession, result: CallResult) -> (call: ReadyCall)
        requires
            old(self).phase is FrontHup,
            old(self).counter == 0,
            old(self).expects(result),
            !(old(session).state is FailedUpgrade),
        ensures
            ({
                let step = old(self).step(*old(session), result);
                &&& *final(self) == step.next
                &&& call == step.call
                &&& *final(session) == cleared(*old(session), step.clearing)
            }),
    {
        if let CallResult::Handled(r) = result {
            if r != SessionResult::Continue {
                return self.finish_with(r);
            }
        }
        clear_front_hup(session);
        self.begin_pass(session)
    }

    /// A step keeps what every run meets, and a run is finished when it says so.
    #[verifier::rlimit(50)]
    #[verifier::spinoff_prover]
    proof fn lemma_step(self, session: TcpSession, result: CallResult)
        requires
            self.wf(),
            self.expects(result),
            !(self.phase is Pass) ==> self.counter == 0,
        ensures
            ({
                let step = self.step(session, result);
                &&& step.next.wf()
                &&& !(step.next.phase is Pass) && !(step.next.phase is Finished)
                    ==> step.next.counter == 0
                &&& step.call is Finish <==> step.next.phase is Finished
            }),
    {
    }

    /// Takes in the result of a call, and says which one is next.
    pub fn next(&mut self, session: &mut TcpSession, result: CallResult) -> (call: ReadyCall)
        requires
            old(self).wf(),
            old(self).expects(result),
            !(old(self).phase is Pass) ==> old(self).counter == 0,
            !(old(session).state is FailedUpgrade),
            old(session).backend_connected is Connecting ==> old(session).state.back() is Some,
        ensures
            final(self).wf(),
            !(final(self).phase is Pass) && !(final(self).phase is Finished) ==> final(
                self).counter == 0,
            ({
                let step = old(self).step(*old(session), result);
                &&& *final(self) == step.next
                &&& call == step.call
                &&& *final(session) == cleared(*old(session), step.clearing)
            }),
            call is Finish <==> final(self).phase is Finished,
    {
        proof {
            self.lemma_step(*session, result);
        }
        match self.phase {
            ReadyPhase::Start => self.start(session),
            ReadyPhase::Testing => {
                if result == CallResult::Alive(true) {
                    self.phase = ReadyPhase::Marked;
                    ReadyCall::MarkConnected
                } else {
                    self.phase = ReadyPhase::Connecting;
                    ReadyCall::Reconnect
                }
            },
            ReadyPhase::Connecting => {
                if let CallResult::Connection(Some(r)) = result {
                    return self.finish_with(r);
                }
                self.before_passes(session)
            },
            ReadyPhase::Marked => self.before_passes(session),
            ReadyPhase::FrontHup => self.after_front_hup(session, result),
            ReadyPhase::Pass { front, back, place } => self.go_on(
                session,
                front,
                back,
                place,
                result,
            ),
            ReadyPhase::Finished => ReadyCall::Finish(SessionResult::Continue),
        }
    }
}

fn clear_interests(session: &mut TcpSession)
    requires
        !(old(session).state is FailedUpgrade),
    ensures
        *final(session) == cleared(*old(session), clearing_interests()),
{
    let none = Ready { readable: false, writable: false, error: false, hup: false };
    if let Some(front) = session.state.front_readiness() {
        let front = Readiness { event: front.event, interest: none };
        match session.state.back_readiness() {
            Some(back) => {
                session.state.set_readiness(
                    front,
                    Readiness { event: back.event, interest: none },
                );
            },
            None => {
                session.state.set_readiness(front, front);
            },
        }
    }
}

fn clear_front_hup(session: &mut TcpSession)
    requires
        !(old(session).state is FailedUpgrade),
    ensures
        *final(session) == (TcpSession {
            state: without_front_hup(old(session).state),
            ..*old(session)
        }),
{
    if let Some(front) = session.state.front_readiness() {
        let heard = Readiness {
            event: Ready {
                readable: front.event.readable,
                writable: front.event.writable,
                error: front.event.error,
                hup: false,
            },
            interest: front.interest,
        };
        match session.state.back_readiness() {
            Some(back) => {
                session.state.set_readiness(heard, back);
            },
            None => {
                session.state.set_readiness(heard, heard);
            },
        }
    }
}

/// A handler that wants anything but to go on ends the run at once with what it
/// wants. Only from a handler that is told of an error of the backend nothing
/// but a close is taken.
#[verifier::rlimit(50)]
#[verifier::spinoff_prover]
pub proof fn law_handlers_decide(run: ReadyLoop, session: TcpSession, result: SessionResult)
    requires
        run.expects(CallResult::Handled(result)),
        !(result is Continue),
        run.phase matches ReadyPhase::Pass { place, .. } ==> !(place is BackError) || result is Close,
    ensures
        run.step(session, CallResult::Handled(result)).call == ReadyCall::Finish(result),
{
}

/// A session connects only when it has no backend and its route is known, and it
/// takes up again with a backend only when that cannot be reached.
#[verifier::rlimit(50)]
#[verifier::spinoff_prover]
pub proof fn law_connects_only_when_routed(
    run: ReadyLoop,
    session: TcpSession,
    result: CallResult,
)
    requires
        run.wf(),
        run.expects(result),
    ensures
        run.step(session, result).call is Connect ==> may_connect(session),
        run.step(session, result).call is Reconnect ==> run.phase is Testing && result
            == CallResult::Alive(false),
{
    assert(result is Alive ==> result == CallResult::Alive(true) || result == CallResult::Alive(
        false,
    ));
}

/// How far a run is from its end at most.
pub open spec fn distance(run: ReadyLoop) -> int {
    match run.phase {
        ReadyPhase::Start => 8 * MAX_LOOP_ITERATIONS + 20,
        ReadyPhase::Testing => 8 * MAX_LOOP_ITERATIONS + 19,
        ReadyPhase::Connecting => 8 * MAX_LOOP_ITERATIONS + 18,
        ReadyPhase::Marked => 8 * MAX_LOOP_ITERATIONS + 18,
        ReadyPhase::FrontHup => 8 * MAX_LOOP_ITERATIONS + 17,
        ReadyPhase::Pass { place, .. } => 8 * (MAX_LOOP_ITERATIONS - run.counter) + 9 - (
        if place is Readable {
            0
        } else {
            behind(place)
        }),
        ReadyPhase::Finished => 0,
    }
}

/// Every run ends: each call brings it nearer to its end, and after too many
/// passes the session is closed.
#[verifier::rlimit(50)]
#[verifier::spinoff_prover]
pub proof fn law_runs_end(run: ReadyLoop, session: TcpSession, result: CallResult)
    requires
        run.wf(),
        run.expects(result),
    ensures
        0 <= distance(run.step(session, result).next) < distance(run),
        run.step(session, result).next.wf(),
{
}

/// A backend whose socket was tested is taken to be connected if the socket is
/// alive. If it is dead, the backend is let go of and another one is connected
/// to.
pub proof fn law_only_live_backends_are_marked(run: ReadyLoop, session: TcpSession, alive: bool)
    requires
        run.phase is Testing,
    ensures
        ({
            let step = run.step(session, CallResult::Alive(alive));
            &&& alive <==> step.call is MarkConnected
            &&& alive <==> step.next.phase is Marked
            &&& !alive <==> step.call is Reconnect
            &&& !alive <==> step.next.phase is Connecting
            &&& step.next.counter == 0
            &&& cleared(session, step.clearing) == session
        }),
{
}

/// A session that begins to run sees to its backend first. One that is
/// connecting is tested if its socket hung up, taken to be connected if its
/// socket said anything else, and waited for if it said nothing. A session that
/// has none, and needs not find its route first, connects.
#[verifier::rlimit(50)]
#[verifier::spinoff_prover]
pub proof fn law_backend_is_seen_to_first(run: ReadyLoop, session: TcpSession)
    requires
        run.phase is Start,
        session.backend_connected is Connecting ==> session.state.back() is Some,
    ensures
        ({
            let step = run.step(session, CallResult::Done);
            let heard = session.state.back()->0.event;
            let connecting = session.backend_connected is Connecting;
            let searching = session.state matches TcpStateMachine::SniPreread(p)
                && p.outcome is None;
            &&& connecting && heard.hup ==> step.call is TestBackSocket
                && step.next.phase is Testing
            &&& connecting && !heard.hup && (heard.readable || heard.writable || heard.error)
                ==> step.call is MarkConnected && step.next.phase is Marked
            &&& connecting && !heard.hup && !heard.readable && !heard.writable && !heard.error
                ==> step == before_passes(session)
            &&& session.backend_connected is NotConnected && !searching ==> step.call is Connect
                && step.next.phase is Connecting
            &&& session.backend_connected is NotConnected && searching ==> step == before_passes(
                session,
            )
            &&& session.backend_connected is Connected ==> step == before_passes(session)
            &&& step.next.phase is Testing || step.next.phase is Marked
                || step.next.phase is Connecting ==> step.next.counter == 0
                && !step.clearing.interests && !step.clearing.front_hup
        }),
{
    assert(run.step(session, CallResult::Done) == at_start(session));
    lemma_phases_before_passes(session);
}

proof fn lemma_phases_before_passes(session: TcpSession)
    ensures
        ({
            let phase = before_passes(session).next.phase;
            phase is FrontHup || phase is Pass || phase is Finished
        }),
{
}

/// What an attempt to connect leads to is what comes of the run, unless the
/// session goes on at once; then, as once the backend is taken to be connected,
/// the sockets are looked after.
pub proof fn law_connecting_decides(
    run: ReadyLoop,
    session: TcpSession,
    outcome: Option<SessionResult>,
)
    ensures
        run.phase is Connecting ==> {
            let step = run.step(session, CallResult::Connection(outcome));
            &&& outcome matches Some(r) ==> step.call == ReadyCall::Finish(r)
                && step.next.phase is Finished && cleared(session, step.clearing) == session
            &&& outcome is None ==> step == before_passes(session)
        },
        run.phase is Marked ==> run.step(session, CallResult::Done) == before_passes(session),
        run.phase matches ReadyPhase::Pass { place, .. } && place is Connect ==> (
        outcome matches Some(r) ==> {
            let step = run.step(session, CallResult::Connection(outcome));
            &&& step.call == ReadyCall::Finish(r)
            &&& step.next.phase is Finished
            &&& cleared(session, step.clearing) == session
        }),
{
}

/// Before the sockets are looked after, a client that is gone is told of.
#[verifier::rlimit(50)]
#[verifier::spinoff_prover]
pub proof fn law_a_client_that_is_gone_comes_first(session: TcpSession)
    requires
        !(session.state is FailedUpgrade),
    ensures
        ({
            let step = before_passes(session);
            &&& session.state.front()->0.event.hup ==> step.call is FrontHup
                && step.next.phase is FrontHup && step.next.counter == 0
                && !step.clearing.interests && !step.clearing.front_hup
            &&& !session.state.front()->0.event.hup ==> step == begin_pass(0, session)
        }),
{
}

/// A session that is to go on though its client is gone forgets that, and
/// nothing else of what its sockets said; the first pass follows.
#[verifier::rlimit(50)]
#[verifier::spinoff_prover]
pub proof fn law_a_client_that_is_gone_is_heard_once(run: ReadyLoop, session: TcpSession)
    requires
        run.phase is FrontHup,
        !(session.state is FailedUpgrade),
    ensures
        ({
            let step = run.step(session, CallResult::Handled(SessionResult::Continue));
            let was = session.state.front()->0;
            let front = Readiness {
                event: Ready {
                    readable: was.event.readable,
                    writable: was.event.writable,
                    error: was.event.error,
                    hup: false,
                },
                interest: was.interest,
            };
            let back = match session.state.back() {
                Some(r) => r,
                None => front,
            };
            let heard = TcpSession {
                state: session.state.with_readiness(front, back),
                ..session
            };
            &&& step.call == begin_pass(0, heard).call
            &&& step.next == begin_pass(0, heard).next
            &&& cleared(session, step.clearing) == cleared(heard, begin_pass(0, heard).clearing)
        }),
{
    let was = session.state.front()->0;
    let front = Readiness { event: Ready { hup: false, ..was.event }, ..was };
    let back = match session.state.back() {
        Some(r) => r,
        None => front,
    };
    assert(without_front_hup(session.state) == session.state.with_readiness(front, back));
    let heard = TcpSession { state: session.state.with_readiness(front, back), ..session };
    lemma_begin_pass_clears_no_hup(0, heard);
}

proof fn lemma_begin_pass_clears_no_hup(counter: usize, session: TcpSession)
    ensures
        !begin_pass(counter, session).clearing.front_hup,
{
}

/// The place of a call in the order of a pass.
pub open spec fn place_rank(place: PassPlace) -> int {
    match place {
        PassPlace::Readable => 0,
        PassPlace::Connect => 0,
        PassPlace::BackWritable => 1,
        PassPlace::BackReadable => 2,
        PassPlace::Writable => 3,
        PassPlace::BackHup => 4,
        PassPlace::FrontError => 5,
        PassPlace::BackError => 6,
    }
}

/// Whether a socket is ready for what is done at a place.
pub open spec fn is_ready_at(place: PassPlace, front: Ready, back: Ready) -> bool {
    match place {
        PassPlace::Readable => front.readable,
        PassPlace::Connect => false,
        PassPlace::BackWritable => back.writable,
        PassPlace::BackReadable => back.readable,
        PassPlace::Writable => front.writable,
        PassPlace::BackHup => back.hup,
        PassPlace::FrontError => front.error,
        PassPlace::BackError => back.error,
    }
}

/// Whether `place` is the first one behind those of a rank that is ready.
pub open spec fn is_first_ready(rank: int, place: PassPlace, front: Ready, back: Ready) -> bool {
    &&& rank < place_rank(place)
    &&& is_ready_at(place, front, back)
    &&& forall|p: PassPlace| #[trigger]
        is_ready_at(p, front, back) && rank < place_rank(p) ==> place_rank(place) <= place_rank(p)
}

/// Whether a step hands on what is ready at a place. An error of the client's
/// socket is not handed on: it closes the session, which waits for nothing
/// anymore.
pub open spec fn hands_on(
    step: ReadyStep,
    counter: usize,
    place: PassPlace,
    front: Ready,
    back: Ready,
) -> bool {
    if place is FrontError {
        &&& step.call == ReadyCall::Finish(SessionResult::Close)
        &&& step.next.phase is Finished
        &&& step.clearing.interests
        &&& !step.clearing.front_hup
    } else {
        &&& step.next == (ReadyLoop { phase: ReadyPhase::Pass { front, back, place }, counter })
        &&& !step.clearing.interests
        &&& !step.clearing.front_hup
        &&& place is Readable ==> step.call is Readable
        &&& place is BackWritable ==> step.call is BackWritable
        &&& place is BackReadable ==> step.call is BackReadable
        &&& place is Writable ==> step.call is Writable
        &&& place is BackHup ==> step.call is BackHup
        &&& place is BackError ==> step.call is BackHup
    }
}

proof fn lemma_next_place(from: int, front: Ready, back: Ready)
    requires
        0 <= from <= 7,
    ensures
        match next_place(from, front, back) {
            Some(place) => is_first_ready(from - 1, place, front, back),
            None => forall|p: PassPlace| #[trigger]
                is_ready_at(p, front, back) ==> place_rank(p) < from,
        },
{
}

proof fn lemma_first_ready_is_next(
    from: int,
    place: PassPlace,
    front: Ready,
    back: Ready,
)
    requires
        0 <= from <= 7,
        is_first_ready(from - 1, place, front, back),
    ensures
        next_place(from, front, back) == Some(place),
{
    lemma_next_place(from, front, back);
    assert(is_ready_at(place, front, back));
    match next_place(from, front, back) {
        Some(p) => {
            assert(is_ready_at(p, front, back));
            assert(place_rank(p) == place_rank(place));
        },
        None => {},
    }
}

/// A pass begins with what is ready first, of what is waited for: the client to
/// be read, the backend to be written, to be read, the client to be written, a
/// backend that is gone, an error of the client, an error of the backend. There
/// is no pass when nothing is ready, nor when the backend is gone and what it
/// left waits for a client that is not ready for it, and too many passes close
/// the session.
#[verifier::rlimit(50)]
#[verifier::spinoff_prover]
pub proof fn law_passes_begin_with_what_is_ready(
    counter: usize,
    session: TcpSession,
    front: Ready,
    back: Ready,
    place: PassPlace,
)
    requires
        !(session.state is FailedUpgrade),
        is_awaited(session.state.front(), front),
        is_awaited(session.state.back(), back),
    ensures
        ({
            let step = begin_pass(counter, session);
            let f = session.state.front()->0;
            let none = Ready { readable: false, writable: false, error: false, hup: false };
            let waits_for_client = session.state.back() matches Some(b) && b.event.hup
                && f.interest.writable && !f.event.writable;
            let over = counter >= MAX_LOOP_ITERATIONS;
            let quiet = front == none && back == none;
            &&& over ==> step.call == ReadyCall::Finish(SessionResult::Close)
            &&& !over && (quiet || waits_for_client) ==> step.call == ReadyCall::Finish(
                SessionResult::Continue,
            )
            &&& !over && !quiet && !waits_for_client && is_first_ready(-1, place, front, back)
                ==> hands_on(step, counter, place, front, back)
            &&& !over && !quiet && !waits_for_client && nothing_ready(front, back) ==> step.call
                == ReadyCall::Finish(SessionResult::Close)
            &&& step.call is Finish <==> step.next.phase is Finished
            &&& !step.clearing.front_hup
        }),
{
    assert(front == filtered(session.state.front()->0));
    assert(back == back_filtered(session));
    lemma_next_place(0, front, back);
    lemma_begin_pass_clears_no_hup(counter, session);
    if is_first_ready(-1, place, front, back) {
        lemma_first_ready_is_next(0, place, front, back);
        lemma_at_place(counter, front, back, place);
    }
    match next_place(0, front, back) {
        Some(p) => {
            assert(is_ready_at(p, front, back));
            lemma_at_place(counter, front, back, p);
        },
        None => {},
    }
}

/// Whether `ready` is what a socket said of what is waited for; nothing where
/// there is no socket.
pub open spec fn is_awaited(socket: Option<Readiness>, ready: Ready) -> bool {
    match socket {
        Some(r) => {
            &&& ready.readable == (r.interest.readable && r.event.readable)
            &&& ready.writable == (r.interest.writable && r.event.writable)
            &&& ready.error == (r.interest.error && r.event.error)
            &&& ready.hup == (r.interest.hup && r.event.hup)
        },
        None => !ready.readable && !ready.writable && !ready.error && !ready.hup,
    }
}

/// Whether there is nothing to hand on.
pub open spec fn nothing_ready(front: Ready, back: Ready) -> bool {
    forall|p: PassPlace| !#[trigger] is_ready_at(p, front, back)
}

proof fn lemma_at_place(counter: usize, front: Ready, back: Ready, place: PassPlace)
    requires
        !(place is Connect),
    ensures
        hands_on(at_place(counter, front, back, place), counter, place, front, back),
{
}

/// Whether a session that has just been read connects before its pass goes on:
/// it has no backend, and needs not find its route first.
pub open spec fn connects_now(place: PassPlace, session: TcpSession) -> bool {
    &&& place is Readable
    &&& session.backend_connected is NotConnected
    &&& !(session.state matches TcpStateMachine::SniPreread(p) && p.outcome is None)
}

/// A pass leaves nothing out: behind each place comes the next one at which a
/// socket was ready when the pass began, and behind the last one the next pass.
/// Once the client was read, a session that may connect does so first.
#[verifier::rlimit(50)]
#[verifier::spinoff_prover]
pub proof fn law_passes_leave_nothing_out(
    run: ReadyLoop,
    session: TcpSession,
    result: CallResult,
    front: Ready,
    back: Ready,
    place: PassPlace,
    next: PassPlace,
)
    requires
        run.wf(),
        run.phase == (ReadyPhase::Pass { front, back, place }),
        run.expects(result),
        match result {
            CallResult::Handled(r) => r is Continue || (place is BackError && !(r is Close)),
            CallResult::Connection(r) => r is None,
            _ => false,
        },
    ensures
        ({
            let step = run.step(session, result);
            &&& connects_now(place, session) ==> step.call is Connect && step.next == (ReadyLoop {
                phase: ReadyPhase::Pass { front, back, place: PassPlace::Connect },
                counter: run.counter,
            }) && cleared(session, step.clearing) == session
            &&& !connects_now(place, session) && is_first_ready(
                place_rank(place),
                next,
                front,
                back,
            ) ==> hands_on(step, run.counter, next, front, back)
            &&& !connects_now(place, session) && (forall|p: PassPlace| #[trigger]
                is_ready_at(p, front, back) ==> place_rank(p) <= place_rank(place)) ==> step
                == begin_pass((run.counter + 1) as usize, session)
        }),
{
    let from = place_rank(place) + 1;
    assert(behind(place) == from);
    lemma_next_place(from, front, back);
    if is_first_ready(place_rank(place), next, front, back) {
        lemma_first_ready_is_next(from, next, front, back);
    }
    match next_place(from, front, back) {
        Some(p) => {
            assert(is_ready_at(p, front, back));
            assert(place_rank(place) < place_rank(p));
        },
        None => {},
    }
}

/// A handler that wants anything but to go on is obeyed: the run ends with what
/// it wants, and only where the backend's socket had an error the session waits
/// for nothing anymore.
pub proof fn law_handlers_are_obeyed(
    run: ReadyLoop,
    session: TcpSession,
    result: SessionResult,
)
    requires
        run.phase is FrontHup || (run.phase matches ReadyPhase::Pass { place, .. } && !(
        place is Connect) && !(place is FrontError)),
        !(result is Continue),
    ensures
        ({
            let step = run.step(session, CallResult::Handled(result));
            let backend_error = run.phase matches ReadyPhase::Pass { place, .. }
                && place is BackError;
            &&& !backend_error ==> step.call == ReadyCall::Finish(result)
                && step.next.phase is Finished && cleared(session, step.clearing) == session
            &&& backend_error && result is Close ==> step.call == ReadyCall::Finish(
                SessionResult::Close,
            ) && step.next.phase is Finished && step.clearing.interests
                && !step.clearing.front_hup
        }),
{
}

/// A session that waits for nothing anymore has no interest left on either
/// socket; what the sockets said stays, and so does everything else.
pub proof fn law_nothing_is_waited_for_anymore(session: TcpSession, clearing: Clearing)
    requires
        !(session.state is FailedUpgrade),
        !clearing.front_hup,
    ensures
        ({
            let after = cleared(session, clearing);
            let none = Ready { readable: false, writable: false, error: false, hup: false };
            let front = Readiness { event: session.state.front()->0.event, interest: none };
            let back = match session.state.back() {
                Some(b) => Readiness { event: b.event, interest: none },
                None => front,
            };
            &&& !clearing.interests ==> after == session
            &&& clearing.interests ==> after == (TcpSession {
                state: session.state.with_readiness(front, back),
                ..session
            })
        }),
{
}

} // verus!
