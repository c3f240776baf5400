//! The decisions of a producer connection, as a state machine.
//!
//! The transport performs the reads and the broadcasts; each read result is
//! handed to `step`, which says what to do next. A session goes
//! `AwaitingFrame -> AwaitingPayload -> AwaitingFrame ...` until it stops.
use crate::frame::{
    check_frame, check_header, frame_accepted, parse_spec, payload_len, FrameError, Parsed, MAGIC,
};
use crate::HEADER_LEN;
use vstd::prelude::*;

verus! {

/// Where a producer session stands, as a value.
pub enum SessionState {
    AwaitingFrame,
    AwaitingPayload(Seq<u8>),
    Terminal,
}

/// The result of one exact-length read, as a value.
pub enum ReadModel {
    Filled(Seq<u8>),
    Ended(nat),
    Failed,
}

/// What the session asks for next, as a value.
pub enum ActionModel {
    ReadPayload(nat),
    Broadcast(Seq<u8>),
    Finish,
    Abort(FrameError),
}

/// The result of one exact-length read from the producer's stream.
pub enum ReadEvent {
    /// Every requested byte arrived.
    Filled(Vec<u8>),
    /// The stream ended after this many of the requested bytes.
    Ended(usize),
    /// The read failed.
    Failed,
}

/// What the transport must do next for a producer session.
#[derive(Debug, PartialEq, Eq)]
pub enum ProducerAction {
    /// Read exactly this many payload bytes.
    ReadPayload(usize),
    /// Send this frame to every consumer, then read the next header.
    Broadcast(Vec<u8>),
    /// The producer closed the stream between frames: stop, no error.
    Finish,
    /// Drop the producer's connection for this reason.
    Abort(FrameError),
}

impl View for ReadEvent {
    type V = ReadModel;

    open spec fn view(&self) -> ReadModel {
        match self {
            ReadEvent::Filled(b) => ReadModel::Filled(b@),
            ReadEvent::Ended(n) => ReadModel::Ended(*n as nat),
            ReadEvent::Failed => ReadModel::Failed,
        }
    }
}

impl View for ProducerAction {
    type V = ActionModel;

    open spec fn view(&self) -> ActionModel {
        match self {
            ProducerAction::ReadPayload(n) => ActionModel::ReadPayload(*n as nat),
            ProducerAction::Broadcast(m) => ActionModel::Broadcast(m@),
            ProducerAction::Finish => ActionModel::Finish,
            ProducerAction::Abort(e) => ActionModel::Abort(*e),
        }
    }
}

/// How many bytes the next read must deliver in a live state.
pub open spec fn expected_read(s: SessionState) -> nat {
    match s {
        SessionState::AwaitingPayload(h) => payload_len(h),
        _ => HEADER_LEN as nat,
    }
}

/// The transition of a live session on one read result: the next state and
/// the action to take.
pub open spec fn producer_step(s: SessionState, e: ReadModel) -> (SessionState, ActionModel) {
    match s {
        SessionState::AwaitingPayload(h) => match e {
            ReadModel::Filled(p) => if frame_accepted(h + p) {
                (SessionState::AwaitingFrame, ActionModel::Broadcast(h + p))
            } else {
                (SessionState::Terminal, ActionModel::Abort(FrameError::ChecksumViolation))
            },
            _ => (SessionState::Terminal, ActionModel::Abort(FrameError::IoFailure)),
        },
        _ => match e {
            ReadModel::Filled(h) => if h[0] == MAGIC {
                (SessionState::AwaitingPayload(h), ActionModel::ReadPayload(payload_len(h)))
            } else {
                (SessionState::Terminal, ActionModel::Abort(FrameError::ProtocolViolation))
            },
            ReadModel::Ended(n) => if n == 0 {
                (SessionState::Terminal, ActionModel::Finish)
            } else {
                (SessionState::Terminal, ActionModel::Abort(FrameError::IoFailure))
            },
            ReadModel::Failed => (
                SessionState::Terminal,
                ActionModel::Abort(FrameError::IoFailure),
            ),
        },
    }
}

/// The frames a session broadcasts, in order, when it is handed `events`
/// one after another from state `s`.
pub open spec fn broadcasts_of(s: SessionState, events: Seq<ReadModel>) -> Seq<Seq<u8>>
    decreases events.len(),
{
    if events.len() == 0 || s == SessionState::Terminal {
        Seq::empty()
    } else {
        let (next, action) = producer_step(s, events[0]);
        let rest = broadcasts_of(next, events.subrange(1, events.len() as int));
        match action {
            ActionModel::Broadcast(m) => seq![m] + rest,
            _ => rest,
        }
    }
}

/// The two reads that deliver a frame: its header, then its payload.
pub open spec fn reads_of_frame(f: Seq<u8>) -> Seq<ReadModel> {
    seq![
        ReadModel::Filled(f.subrange(0, HEADER_LEN as int)),
        ReadModel::Filled(f.subrange(HEADER_LEN as int, f.len() as int)),
    ]
}

proof fn lemma_frame_reads_broadcast(f: Seq<u8>)
    requires
        parse_spec(f) == Parsed::Frame(f),
    ensures
        ({
            let h = f.subrange(0, HEADER_LEN as int);
            let p = f.subrange(HEADER_LEN as int, f.len() as int);
            &&& producer_step(SessionState::AwaitingFrame, ReadModel::Filled(h)) == (
            SessionState::AwaitingPayload(h),
            ActionModel::ReadPayload(payload_len(h)),
            )
            &&& producer_step(SessionState::AwaitingPayload(h), ReadModel::Filled(p)) == (
            SessionState::AwaitingFrame,
            ActionModel::Broadcast(f),
            )
        }),
{
    let h = f.subrange(0, HEADER_LEN as int);
    let p = f.subrange(HEADER_LEN as int, f.len() as int);
    assert(f.subrange(0, f.len() as int) =~= f);
    assert(h + p =~= f);
}

/// Two frames that one producer sends back to back are broadcast in the
/// order they were sent.
pub proof fn lemma_session_keeps_order(f1: Seq<u8>, f2: Seq<u8>)
    requires
        parse_spec(f1) == Parsed::Frame(f1),
        parse_spec(f2) == Parsed::Frame(f2),
    ensures
        broadcasts_of(SessionState::AwaitingFrame, reads_of_frame(f1) + reads_of_frame(f2))
            == seq![f1, f2],
{
    lemma_frame_reads_broadcast(f1);
    lemma_frame_reads_broadcast(f2);
    let ev = reads_of_frame(f1) + reads_of_frame(f2);
    let e1 = ev.subrange(1, 4);
    let e2 = e1.subrange(1, 3);
    let e3 = e2.subrange(1, 2);
    let e4 = e3.subrange(1, 1);
    assert(e4.len() == 0);
    assert(ev[0] == reads_of_frame(f1)[0]);
    assert(e1[0] == reads_of_frame(f1)[1]);
    assert(e2[0] == reads_of_frame(f2)[0]);
    assert(e3[0] == reads_of_frame(f2)[1]);
    let h2 = f2.subrange(0, HEADER_LEN as int);
    assert(broadcasts_of(SessionState::AwaitingFrame, e4) == Seq::<Seq<u8>>::empty());
    assert(broadcasts_of(SessionState::AwaitingPayload(h2), e3) == seq![f2]);
    assert(broadcasts_of(SessionState::AwaitingFrame, e2) == seq![f2]);
    assert(broadcasts_of(SessionState::AwaitingPayload(f1.subrange(0, 8)), e1) =~= seq![f1, f2]);
}

enum Phase {
    AwaitingFrame,
    AwaitingPayload(Vec<u8>),
    Terminal,
}

/// One producer connection's session.
pub struct ProducerSession {
    phase: Phase,
}

impl View for ProducerSession {
    type V = SessionState;

    closed spec fn view(&self) -> SessionState {
        match self.phase {
            Phase::AwaitingFrame => SessionState::AwaitingFrame,
            Phase::AwaitingPayload(h) => SessionState::AwaitingPayload(h@),
            Phase::Terminal => SessionState::Terminal,
        }
    }
}

impl ProducerSession {
    /// A header waiting for its payload has been checked.
    pub open spec fn wf(&self) -> bool {
        match self@ {
            SessionState::AwaitingPayload(h) => h.len() == HEADER_LEN && h[0] == MAGIC,
            _ => true,
        }
    }

    /// A session that waits for its first frame.
    pub fn new() -> (r: Self)
        ensures
            r.wf(),
            r@ == SessionState::AwaitingFrame,
    {
        ProducerSession { phase: Phase::AwaitingFrame }
    }

    /// Whether the session has stopped.
    pub fn is_terminal(&self) -> (r: bool)
        ensures
            r == (self@ == SessionState::Terminal),
    {
        match self.phase {
            Phase::Terminal => true,
            _ => false,
        }
    }

    /// How many bytes the next read must deliver.
    pub fn pending_read(&self) -> (r: usize)
        requires
            self.wf(),
        ensures
            r == expected_read(self@),
    {
        match &self.phase {
            Phase::AwaitingPayload(h) => (h[2] as usize) * 256 + (h[3] as usize),
            _ => HEADER_LEN,
        }
    }

    /// Takes the result of the pending read and decides what comes next.
    pub fn step(&mut self, event: ReadEvent) -> (r: ProducerAction)
        requires
            old(self).wf(),
            old(self)@ != SessionState::Terminal,
            event@ matches ReadModel::Filled(b) ==> b.len() == expected_read(old(self)@),
        ensures
            final(self).wf(),
            (final(self)@, r@) == producer_step(old(self)@, event@),
    {
        let waiting: Option<Vec<u8>> = match &self.phase {
            Phase::AwaitingPayload(h) => Some(h.clone()),
            _ => None,
        };
        self.phase = Phase::Terminal;
        match waiting {
            Some(header) => match event {
                ReadEvent::Filled(payload) => match check_frame(
                    header.as_slice(),
                    payload.as_slice(),
                ) {
                    Ok(message) => {
                        self.phase = Phase::AwaitingFrame;
                        ProducerAction::Broadcast(message)
                    },
                    Err(e) => ProducerAction::Abort(e),
                },
                _ => ProducerAction::Abort(FrameError::IoFailure),
            },
            None => match event {
                ReadEvent::Filled(header) => match check_header(header.as_slice()) {
                    Ok(len) => {
                        self.phase = Phase::AwaitingPayload(header);
                        ProducerAction::ReadPayload(len)
                    },
                    Err(e) => ProducerAction::Abort(e),
                },
                ReadEvent::Ended(n) => if n == 0 {
                    ProducerAction::Finish
                } else {
                    ProducerAction::Abort(FrameError::IoFailure)
                },
                ReadEvent::Failed => ProducerAction::Abort(FrameError::IoFailure),
            },
        }
    }
}

} // verus!
