use crate::envelope::{
    envelope_of, envelope_segments, lemma_pong_reads_back, pong_of, pong_text, split_envelopes, texts,
    wrap_envelope,
};
use crate::protocol::{determine_incoming_message_type, incoming_kind, ErrorView, MessageType, TradingviewError};
use vstd::prelude::*;
use vstd::string::*;

verus! {

/// Where the session stands.
#[derive(Debug, Clone, Copy, PartialEq, Eq, Structural)]
pub enum SessionState {
    /// No server hello yet.
    AwaitingHello,
    /// The bootstrap batch has just been sent.
    Bootstrapped,
    /// The steady state.
    Streaming,
    /// Stopped on a failure; nothing more is sent.
    Terminated,
}

/// The commands, or the failure, that the engine answers with.
pub type Answer = Result<Seq<Seq<char>>, ErrorView>;

/// The state after a message that neither bootstraps nor fails.
pub open spec fn after_message(s: SessionState) -> SessionState {
    match s {
        SessionState::AwaitingHello => SessionState::AwaitingHello,
        SessionState::Terminated => SessionState::Terminated,
        _ => SessionState::Streaming,
    }
}

/// Each command wrapped in its envelope.
pub open spec fn enveloped(cmds: Seq<Seq<char>>) -> Seq<Seq<char>> {
    cmds.map_values(|c: Seq<char>| envelope_of(c))
}

/// The next state and the answer for one message `msg`, in state `s`, with
/// `boot` as the bootstrap commands.
pub open spec fn step(s: SessionState, boot: Seq<Seq<char>>, msg: Seq<char>) -> (SessionState, Answer) {
    match incoming_kind(msg) {
        Err(e) => (SessionState::Terminated, Err(e)),
        Ok(k) => match k {
            MessageType::ConnectedToServer => if s == SessionState::AwaitingHello {
                (SessionState::Bootstrapped, Ok(enveloped(boot)))
            } else {
                (after_message(s), Ok(Seq::empty()))
            },
            MessageType::Ping(id) => (
                after_message(s),
                Ok(seq![envelope_of(pong_of(id as nat))]),
            ),
            MessageType::Empty => (s, Ok(Seq::empty())),
            MessageType::ProtocolError => (SessionState::Terminated, Err(ErrorView::Protocol(msg))),
            MessageType::StudyError => (SessionState::Terminated, Err(ErrorView::Study(msg))),
            MessageType::CriticalError => (SessionState::Terminated, Err(ErrorView::Critical(msg))),
            _ => (after_message(s), Ok(Seq::empty())),
        },
    }
}

/// `r` with the commands `acc` put in front of its commands.
pub open spec fn prepend(acc: Seq<Seq<char>>, r: (SessionState, Answer)) -> (SessionState, Answer) {
    (
        r.0,
        match r.1 {
            Ok(c) => Ok(acc + c),
            Err(e) => Err(e),
        },
    )
}

/// The messages `msgs` taken in order from state `s`: the commands of all of
/// them, or the first failure.
pub open spec fn run(s: SessionState, boot: Seq<Seq<char>>, msgs: Seq<Seq<char>>) -> (
    SessionState,
    Answer,
)
    decreases msgs.len(),
{
    if msgs.len() == 0 {
        (s, Ok(Seq::empty()))
    } else {
        let first = step(s, boot, msgs[0]);
        match first.1 {
            Err(e) => (first.0, Err(e)),
            Ok(c) => prepend(c, run(first.0, boot, msgs.drop_first())),
        }
    }
}

/// The engine's turn for one decoded payload.
pub open spec fn payload_turn(s: SessionState, boot: Seq<Seq<char>>, payload: Seq<char>) -> (
    SessionState,
    Answer,
) {
    if s == SessionState::Terminated {
        (SessionState::Terminated, Err(ErrorView::Terminated))
    } else {
        run(s, boot, envelope_segments(payload))
    }
}

/// The answer that `r` stands for.
pub open spec fn answer_of(r: Result<Vec<String>, TradingviewError>) -> Answer {
    match r {
        Ok(v) => Ok(texts(v@)),
        Err(e) => Err(e@),
    }
}

proof fn lemma_texts_concat(a: Seq<String>, b: Seq<String>)
    ensures
        texts(a + b) == texts(a) + texts(b),
{
    assert(texts(a + b) =~= texts(a) + texts(b));
}

/// Wraps each message in its envelope.
pub fn envelope_batch(messages: &Vec<String>) -> (r: Vec<String>)
    ensures
        texts(r@) == enveloped(texts(messages@)),
{
    let mut out: Vec<String> = Vec::new();
    let mut i: usize = 0;
    while i < messages.len()
        invariant
            i <= messages@.len(),
            texts(out@) == enveloped(texts(messages@.subrange(0, i as int))),
        decreases messages@.len() - i,
    {
        let e = wrap_envelope(messages[i].as_str());
        proof {
            assert(texts(out@.push(e)) =~= texts(out@).push(e@));
            assert(enveloped(texts(messages@.subrange(0, i + 1))) =~= enveloped(
                texts(messages@.subrange(0, i as int)),
            ).push(envelope_of(messages@[i as int]@)));
        }
        out.push(e);
        i = i + 1;
    }
    assert(messages@.subrange(0, i as int) =~= messages@);
    out
}

/// The state after a message that neither bootstraps nor fails.
fn next_state(s: SessionState) -> (r: SessionState)
    ensures
        r == after_message(s),
{
    match s {
        SessionState::AwaitingHello => SessionState::AwaitingHello,
        SessionState::Terminated => SessionState::Terminated,
        _ => SessionState::Streaming,
    }
}

/// The protocol engine of one connection: its session state, and the commands
/// it sends once, on the first server hello.
pub struct TradingviewApi {
    state: SessionState,
    bootstrap: Vec<String>,
}

impl TradingviewApi {
    /// Where the session stands.
    pub closed spec fn session(&self) -> SessionState {
        self.state
    }

    /// The bootstrap commands, before their envelopes.
    pub closed spec fn bootstrap_commands(&self) -> Seq<Seq<char>> {
        texts(self.bootstrap@)
    }

    /// An engine that waits for the server hello, and then sends `bootstrap`
    /// (serialized commands, in order).
    pub fn new(bootstrap: Vec<String>) -> (r: TradingviewApi)
        ensures
            r.session() == SessionState::AwaitingHello,
            r.bootstrap_commands() == texts(bootstrap@),
    {
        TradingviewApi { state: SessionState::AwaitingHello, bootstrap }
    }

    /// Where the session stands.
    pub fn state(&self) -> (r: SessionState)
        ensures
            r == self.session(),
    {
        self.state
    }

    /// Answers one message.
    fn respond(&mut self, message: &str) -> (r: Result<Vec<String>, TradingviewError>)
        ensures
            step(old(self).session(), old(self).bootstrap_commands(), message@) == (
                final(self).session(),
                answer_of(r),
            ),
            final(self).bootstrap@ == old(self).bootstrap@,
    {
        let kind = match determine_incoming_message_type(message) {
            Ok(k) => k,
            Err(e) => {
                self.state = SessionState::Terminated;
                return Err(e);
            },
        };
        match kind {
            MessageType::ConnectedToServer => {
                if self.state == SessionState::AwaitingHello {
                    self.state = SessionState::Bootstrapped;
                    Ok(envelope_batch(&self.bootstrap))
                } else {
                    self.state = next_state(self.state);
                    let out: Vec<String> = Vec::new();
                    assert(texts(out@) =~= Seq::<Seq<char>>::empty());
                    Ok(out)
                }
            },
            MessageType::Ping(id) => {
                self.state = next_state(self.state);
                let pong = pong_text(id);
                let mut out: Vec<String> = Vec::new();
                out.push(wrap_envelope(pong.as_str()));
                assert(texts(out@) =~= seq![envelope_of(pong_of(id as nat))]);
                Ok(out)
            },
            MessageType::Empty => {
                let out: Vec<String> = Vec::new();
                assert(texts(out@) =~= Seq::<Seq<char>>::empty());
                Ok(out)
            },
            MessageType::ProtocolError => {
                self.state = SessionState::Terminated;
                Err(TradingviewError::ProtocolError(String::from_str(message)))
            },
            MessageType::StudyError => {
                self.state = SessionState::Terminated;
                Err(TradingviewError::StudyError(String::from_str(message)))
            },
            MessageType::CriticalError => {
                self.state = SessionState::Terminated;
                Err(TradingviewError::CriticalError(String::from_str(message)))
            },
            _ => {
                self.state = next_state(self.state);
                let out: Vec<String> = Vec::new();
                assert(texts(out@) =~= Seq::<Seq<char>>::empty());
                Ok(out)
            },
        }
    }

    /// The engine's turn for one decoded payload: the commands to send, in
    /// order, for all the messages it carries, or the failure that stops the
    /// engine.
    pub fn handle_payload(&mut self, payload: &str) -> (r: Result<Vec<String>, TradingviewError>)
        ensures
            payload_turn(old(self).session(), old(self).bootstrap_commands(), payload@) == (
                final(self).session(),
                answer_of(r),
            ),
            final(self).bootstrap_commands() == old(self).bootstrap_commands(),
    {
        if self.state == SessionState::Terminated {
            return Err(TradingviewError::Terminated);
        }
        let segments = split_envelopes(payload);
        let ghost msgs = texts(segments@);
        let ghost boot = texts(self.bootstrap@);
        let ghost s0 = self.state;
        let mut out: Vec<String> = Vec::new();
        let mut i: usize = 0;
        proof {
            assert(msgs.subrange(0, msgs.len() as int) =~= msgs);
            assert(texts(out@) =~= Seq::<Seq<char>>::empty());
            let r0 = run(s0, boot, msgs);
            match r0.1 {
                Ok(c) => assert(Seq::<Seq<char>>::empty() + c =~= c),
                Err(_) => {},
            }
        }
        while i < segments.len()
            invariant
                i <= segments@.len(),
                msgs == texts(segments@),
                msgs == envelope_segments(payload@),
                s0 == old(self).session(),
                s0 != SessionState::Terminated,
                boot == texts(self.bootstrap@),
                boot == old(self).bootstrap_commands(),
                run(s0, boot, msgs) == prepend(
                    texts(out@),
                    run(self.state, boot, msgs.subrange(i as int, msgs.len() as int)),
                ),
            decreases segments@.len() - i,
        {
            let ghost before = self.state;
            let ghost rest = msgs.subrange(i as int, msgs.len() as int);
            assert(rest[0] == segments@[i as int]@);
            assert(rest.drop_first() =~= msgs.subrange(i + 1, msgs.len() as int));
            match self.respond(segments[i].as_str()) {
                Ok(cmds) => {
                    proof {
                        lemma_texts_concat(out@, cmds@);
                        let tail = run(self.state, boot, rest.drop_first());
                        assert((texts(out@) + texts(cmds@)) + (match tail.1 { Ok(c) => c, Err(_) => Seq::empty() })
                            =~= texts(out@) + (texts(cmds@) + (match tail.1 { Ok(c) => c, Err(_) => Seq::empty() })));
                    }
                    let mut cmds = cmds;
                    out.append(&mut cmds);
                },
                Err(e) => {
                    assert(run(before, boot, rest) == (self.state, Err::<Seq<Seq<char>>, ErrorView>(e@)));
                    return Err(e);
                },
            }
            i = i + 1;
        }
        proof {
            assert(msgs.subrange(i as int, msgs.len() as int) =~= Seq::<Seq<char>>::empty());
            assert(texts(out@) + Seq::<Seq<char>>::empty() =~= texts(out@));
        }
        Ok(out)
    }
}

/// The bootstrap batch goes out once. A server hello in the waiting state
/// answers with every bootstrap command, in order, each in its envelope; no
/// message ever brings the session back to the waiting state; and a hello in
/// any other state answers with nothing. So two hellos in a row send the batch
/// once.
pub proof fn lemma_bootstrap_once(
    boot: Seq<Seq<char>>,
    hello: Seq<char>,
    s: SessionState,
    msg: Seq<char>,
)
    requires
        incoming_kind(hello) == Ok::<MessageType, ErrorView>(MessageType::ConnectedToServer),
    ensures
        step(SessionState::AwaitingHello, boot, hello) == (
            SessionState::Bootstrapped,
            Ok::<Seq<Seq<char>>, ErrorView>(enveloped(boot)),
        ),
        enveloped(boot).len() == boot.len(),
        s != SessionState::AwaitingHello ==> step(s, boot, msg).0 != SessionState::AwaitingHello,
        s != SessionState::AwaitingHello ==> step(s, boot, hello).1 == Ok::<
            Seq<Seq<char>>,
            ErrorView,
        >(Seq::empty()),
        run(SessionState::AwaitingHello, boot, seq![hello, hello]) == (
            SessionState::Streaming,
            Ok::<Seq<Seq<char>>, ErrorView>(enveloped(boot)),
        ),
{
    let msgs = seq![hello, hello];
    let none = Seq::<Seq<char>>::empty();
    assert(msgs.drop_first() =~= seq![hello]);
    assert(seq![hello].drop_first() =~= none);
    assert(run(SessionState::Streaming, boot, none) == (SessionState::Streaming, Ok::<Seq<Seq<char>>, ErrorView>(none)));
    assert(none + none =~= none);
    assert(run(SessionState::Bootstrapped, boot, seq![hello]) == (SessionState::Streaming, Ok::<Seq<Seq<char>>, ErrorView>(none)));
    assert(enveloped(boot) + none =~= enveloped(boot));
}

/// A critical error from the server stops the engine with that message as its
/// body, a payload whose first message is one fails as a whole, and a stopped
/// engine answers every later payload with a failure and no commands.
pub proof fn lemma_fatal_termination(
    boot: Seq<Seq<char>>,
    s: SessionState,
    msg: Seq<char>,
    later: Seq<Seq<char>>,
    payload: Seq<char>,
)
    requires
        s != SessionState::Terminated,
        incoming_kind(msg) == Ok::<MessageType, ErrorView>(MessageType::CriticalError),
    ensures
        step(s, boot, msg) == (
            SessionState::Terminated,
            Err::<Seq<Seq<char>>, ErrorView>(ErrorView::Critical(msg)),
        ),
        run(s, boot, seq![msg] + later) == (
            SessionState::Terminated,
            Err::<Seq<Seq<char>>, ErrorView>(ErrorView::Critical(msg)),
        ),
        payload_turn(SessionState::Terminated, boot, payload) == (
            SessionState::Terminated,
            Err::<Seq<Seq<char>>, ErrorView>(ErrorView::Terminated),
        ),
{
    assert((seq![msg] + later)[0] == msg);
}

/// A ping is answered at once with one command, and that command, taken out of
/// its envelope, is the ping's own literal: the ping of number `id` written as
/// `~h~<id>` reads as that ping, and its answer carries `~h~<id>` back.
pub proof fn lemma_ping_echo(s: SessionState, boot: Seq<Seq<char>>, id: usize)
    ensures
        incoming_kind(pong_of(id as nat)) == Ok::<MessageType, ErrorView>(MessageType::Ping(id)),
        step(s, boot, pong_of(id as nat)) == (
            after_message(s),
            Ok::<Seq<Seq<char>>, ErrorView>(seq![envelope_of(pong_of(id as nat))]),
        ),
        envelope_segments(envelope_of(pong_of(id as nat))) == seq![pong_of(id as nat)],
{
    lemma_pong_reads_back(id as nat);
}

} // verus!
