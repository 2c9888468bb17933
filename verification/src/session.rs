use vstd::prelude::*;
use crate::config::{first_match, lemma_first_match_least, Config};
use crate::error::{ProxyError, ProxyErrorView};
use crate::proxy::{is_loop_target, DialPlan, DialPlanView};
use crate::tls::{
    joined, lemma_short_stream_is_incomplete, sniffed, Sniffed, Sniffer, SniffStep,
    RECORD_HEADER_LEN,
};

verus! {

/// The stages that a connection passes through, in their order.
#[derive(Clone, Copy, Debug, PartialEq, Eq, Structural)]
pub enum Stage {
    /// Reading the client's first bytes to find the host name.
    Sniffing,
    /// Choosing the rule for the host name.
    Routing,
    /// Reaching the upstream.
    Dialing,
    /// Writing upstream what sniffing read.
    Replaying,
    /// Copying bytes both ways.
    Relaying,
}

/// Where one accepted connection stands. A connection is sniffed for the
/// host it asks for, routed, dialed upstream, sent the bytes that sniffing
/// read, and then relayed until it ends. Routing takes no waiting and so is
/// passed within the step that ends the sniffing.
#[derive(Debug, PartialEq, Eq)]
pub enum Session {
    /// Accepted; nothing read yet.
    Accepted,
    /// Reading the client's first bytes, which are kept.
    Sniffing(Sniffer),
    /// The host is known and routed; the upstream is being dialed.
    Dialing { prefix: Vec<u8> },
    /// The bytes read while sniffing are being written upstream.
    Replaying,
    /// Bytes are copied both ways.
    Relaying,
    /// Over, after a relay that ended cleanly.
    Closed,
    /// Over, for this reason, which arose at this stage.
    Failed(Stage, ProxyError),
}

/// What happened on a connection's sockets or timer.
#[derive(Debug, PartialEq, Eq)]
pub enum Event {
    /// The connection was accepted.
    Start,
    /// A read from the client returned these bytes.
    Read(Vec<u8>),
    /// A read from the client failed.
    ReadFailed(String),
    /// The client closed its side.
    EndOfStream,
    /// The deadline for sniffing passed.
    Deadline,
    /// The upstream connection stands.
    Dialed,
    /// The upstream could not be reached.
    DialFailed(ProxyError),
    /// The bytes read while sniffing were written upstream, all of them.
    Replayed,
    /// They could not be written, or not all of them.
    ReplayFailed(String),
    /// The copying ended, cleanly where `error` is `None`.
    RelayEnded { error: Option<String> },
}

/// What is to be done next on a connection's sockets.
#[derive(Debug, PartialEq, Eq)]
pub enum Action {
    /// Read from the client, and give up sniffing after this many
    /// milliseconds in all.
    Sniff { deadline_ms: u64 },
    /// Read more from the client, under the deadline already set.
    ReadMore,
    /// Open the upstream connection in this way.
    Dial(DialPlan),
    /// Write these bytes upstream, all of them, before anything else.
    Replay(Vec<u8>),
    /// Copy bytes both ways until either side ends.
    Relay,
    /// Close both legs: the connection is over.
    Close,
    /// Nothing: the event does not concern the connection as it stands.
    Nothing,
}

/// A `Session` with its bytes and texts as sequences.
pub enum SessionView {
    Accepted,
    Sniffing(Seq<u8>),
    Dialing { prefix: Seq<u8> },
    Replaying,
    Relaying,
    Closed,
    Failed(Stage, ProxyErrorView),
}

/// An `Action` with its bytes and texts as sequences.
pub enum ActionView {
    Sniff { deadline_ms: u64 },
    ReadMore,
    Dial(DialPlanView),
    Replay(Seq<u8>),
    Relay,
    Close,
    Nothing,
}

impl View for Session {
    type V = SessionView;

    open spec fn view(&self) -> SessionView {
        match *self {
            Session::Accepted => SessionView::Accepted,
            Session::Sniffing(sniffer) => SessionView::Sniffing(sniffer@),
            Session::Dialing { prefix } => SessionView::Dialing { prefix: prefix@ },
            Session::Replaying => SessionView::Replaying,
            Session::Relaying => SessionView::Relaying,
            Session::Closed => SessionView::Closed,
            Session::Failed(stage, e) => SessionView::Failed(stage, e@),
        }
    }
}

impl View for Action {
    type V = ActionView;

    open spec fn view(&self) -> ActionView {
        match *self {
            Action::Sniff { deadline_ms } => ActionView::Sniff { deadline_ms },
            Action::ReadMore => ActionView::ReadMore,
            Action::Dial(plan) => ActionView::Dial(plan@),
            Action::Replay(bytes) => ActionView::Replay(bytes@),
            Action::Relay => ActionView::Relay,
            Action::Close => ActionView::Close,
            Action::Nothing => ActionView::Nothing,
        }
    }
}

impl SessionView {
    /// Whether the connection is over.
    pub open spec fn is_terminal(self) -> bool {
        self is Closed || self is Failed
    }
}

/// The step that follows once the host name is known, `stream` being all
/// that was read to find it: the first rule that applies to the host decides,
/// and its first transport is dialed. Without such a rule the connection
/// fails with `NoMatch`; a host that would lead back to the proxy fails with
/// `InfiniteLoop`. In both cases nothing is dialed.
pub open spec fn routed(config: &Config, host: Seq<char>, stream: Seq<u8>) -> (
    SessionView,
    ActionView,
) {
    match first_match(config.forwards@, host) {
        None => (
            SessionView::Failed(Stage::Routing, ProxyErrorView::NoMatch(host)),
            ActionView::Close,
        ),
        Some(i) => if is_loop_target(host) {
            (SessionView::Failed(Stage::Dialing, ProxyErrorView::InfiniteLoop), ActionView::Close)
        } else {
            (
                SessionView::Dialing { prefix: stream },
                ActionView::Dial(config.forwards@[i].dst@[0].plan_for(host)),
            )
        },
    }
}

/// The step that a read of `chunk` leads to while sniffing, `seen` being what
/// was read before.
pub open spec fn after_read(config: &Config, seen: Seq<u8>, chunk: Seq<u8>) -> (
    SessionView,
    ActionView,
) {
    let stream = seen + chunk;
    match sniffed(stream) {
        Sniffed::Incomplete => (SessionView::Sniffing(stream), ActionView::ReadMore),
        Sniffed::Failed(e) => (SessionView::Failed(Stage::Sniffing, e), ActionView::Close),
        Sniffed::Hostname(host) => routed(config, host, stream),
    }
}

/// The state that follows `state` on `event`, and what is to be done then.
/// An event that does not concern the state changes nothing.
#[verifier::opaque]
pub open spec fn step_of(config: &Config, state: SessionView, event: Event) -> (
    SessionView,
    ActionView,
) {
    match (state, event) {
        (SessionView::Accepted, Event::Start) => (
            SessionView::Sniffing(Seq::empty()),
            ActionView::Sniff { deadline_ms: config.timeout_ms },
        ),
        (SessionView::Sniffing(seen), Event::Read(chunk)) => after_read(config, seen, chunk@),
        (SessionView::Sniffing(_), Event::ReadFailed(m)) => (
            SessionView::Failed(Stage::Sniffing, ProxyErrorView::IO(m@)),
            ActionView::Close,
        ),
        (SessionView::Sniffing(_), Event::EndOfStream) => (
            SessionView::Failed(Stage::Sniffing, ProxyErrorView::IncompleteHandshake),
            ActionView::Close,
        ),
        (SessionView::Sniffing(_), Event::Deadline) => (
            SessionView::Failed(Stage::Sniffing, ProxyErrorView::Timeout),
            ActionView::Close,
        ),
        (SessionView::Dialing { prefix }, Event::Dialed) => (
            SessionView::Replaying,
            ActionView::Replay(prefix),
        ),
        (SessionView::Dialing { .. }, Event::DialFailed(e)) => (
            SessionView::Failed(Stage::Dialing, e@),
            ActionView::Close,
        ),
        (SessionView::Replaying, Event::Replayed) => (SessionView::Relaying, ActionView::Relay),
        (SessionView::Replaying, Event::ReplayFailed(m)) => (
            SessionView::Failed(Stage::Replaying, ProxyErrorView::IO(m@)),
            ActionView::Close,
        ),
        (SessionView::Relaying, Event::RelayEnded { error: None }) => (
            SessionView::Closed,
            ActionView::Close,
        ),
        (SessionView::Relaying, Event::RelayEnded { error: Some(m) }) => (
            SessionView::Failed(Stage::Relaying, ProxyErrorView::IO(m@)),
            ActionView::Close,
        ),
        (unchanged, _) => (unchanged, ActionView::Nothing),
    }
}

impl Session {
    /// A connection that was just accepted.
    pub fn new() -> (fresh: Session)
        ensures
            fresh@ == SessionView::Accepted,
    {
        Session::Accepted
    }

    /// Tells whether the connection is over.
    pub fn is_over(&self) -> (over: bool)
        ensures
            over == self@.is_terminal(),
    {
        match self {
            Session::Closed => true,
            Session::Failed(_, _) => true,
            _ => false,
        }
    }

    /// Why the connection failed, and at which stage, if it did.
    pub fn failure(&self) -> (reason: Option<(Stage, &ProxyError)>)
        ensures
            match reason {
                Some((stage, e)) => self@ == SessionView::Failed(stage, e@),
                None => !(self@ is Failed),
            },
    {
        match self {
            Session::Failed(stage, e) => Some((*stage, e)),
            _ => None,
        }
    }

    fn route(config: &Config, hostname: String, prefix: Vec<u8>) -> (next: (Session, Action))
        requires
            config.well_formed(),
        ensures
            (next.0@, next.1@) == routed(config, hostname@, prefix@),
    {
        match config.resolve(hostname.as_str()) {
            None => (
                Session::Failed(Stage::Routing, ProxyError::NoMatch(hostname)),
                Action::Close,
            ),
            Some(rule) => {
                proof {
                    lemma_first_match_least(config.forwards@, hostname@);
                }
                match rule.dst[0].connect(hostname.as_str()) {
                    Err(e) => (Session::Failed(Stage::Dialing, e), Action::Close),
                    Ok(plan) => (Session::Dialing { prefix }, Action::Dial(plan)),
                }
            },
        }
    }

    /// Moves the connection on by one event and says what to do next.
    pub fn step(self, config: &Config, event: Event) -> (next: (Session, Action))
        requires
            config.well_formed(),
        ensures
            (next.0@, next.1@) == step_of(config, self@, event),
    {
        reveal(step_of);
        match self {
            Session::Accepted => match event {
                Event::Start => (
                    Session::Sniffing(Sniffer::new()),
                    Action::Sniff { deadline_ms: config.timeout_ms },
                ),
                _ => (Session::Accepted, Action::Nothing),
            },
            Session::Sniffing(mut sniffer) => match event {
                Event::Read(chunk) => match sniffer.feed(chunk.as_slice()) {
                    SniffStep::NeedMore => (Session::Sniffing(sniffer), Action::ReadMore),
                    SniffStep::Failed(e) => (
                        Session::Failed(Stage::Sniffing, e),
                        Action::Close,
                    ),
                    SniffStep::Done(hostname) => Session::route(
                        config,
                        hostname,
                        sniffer.into_prefix(),
                    ),
                },
                Event::ReadFailed(m) => (
                    Session::Failed(Stage::Sniffing, ProxyError::IO(m)),
                    Action::Close,
                ),
                Event::EndOfStream => (
                    Session::Failed(Stage::Sniffing, ProxyError::IncompleteHandshake),
                    Action::Close,
                ),
                Event::Deadline => (
                    Session::Failed(Stage::Sniffing, ProxyError::Timeout),
                    Action::Close,
                ),
                _ => (Session::Sniffing(sniffer), Action::Nothing),
            },
            Session::Dialing { prefix } => match event {
                Event::Dialed => (Session::Replaying, Action::Replay(prefix)),
                Event::DialFailed(e) => (Session::Failed(Stage::Dialing, e), Action::Close),
                _ => (Session::Dialing { prefix }, Action::Nothing),
            },
            Session::Replaying => match event {
                Event::Replayed => (Session::Relaying, Action::Relay),
                Event::ReplayFailed(m) => (
                    Session::Failed(Stage::Replaying, ProxyError::IO(m)),
                    Action::Close,
                ),
                _ => (Session::Replaying, Action::Nothing),
            },
            Session::Relaying => match event {
                Event::RelayEnded { error: None } => (Session::Closed, Action::Close),
                Event::RelayEnded { error: Some(m) } => (
                    Session::Failed(Stage::Relaying, ProxyError::IO(m)),
                    Action::Close,
                ),
                _ => (Session::Relaying, Action::Nothing),
            },
            Session::Closed => (Session::Closed, Action::Nothing),
            Session::Failed(stage, e) => (Session::Failed(stage, e), Action::Nothing),
        }
    }
}

/// The state that a connection is in after `events`, from its acceptance
/// on, with what was to be done at each of them.
pub open spec fn run(config: &Config, events: Seq<Event>) -> (SessionView, Seq<ActionView>)
    decreases events.len(),
{
    if events.len() == 0 {
        (SessionView::Accepted, Seq::empty())
    } else {
        let before = run(config, events.drop_last());
        let next = step_of(config, before.0, events.last());
        (next.0, before.1.push(next.1))
    }
}

/// A connection that is over stays as it is, and nothing more is done on it.
pub proof fn lemma_over_is_over(config: &Config, state: SessionView, event: Event)
    requires
        state.is_terminal(),
    ensures
        step_of(config, state, event) == (state, ActionView::Nothing),
{
    reveal(step_of);
}

/// The upstream is dialed only for a host name that was found in the bytes
/// read and that a rule applies to: the plan is that of the first transport
/// of the first such rule, for that very name, and all that was read is kept
/// for replaying.
pub proof fn lemma_dial_only_when_routed(config: &Config, state: SessionView, event: Event)
    requires
        step_of(config, state, event).1 is Dial,
    ensures
        state is Sniffing,
        event is Read,
        ({
            let stream = state->Sniffing_0 + event->Read_0@;
            &&& sniffed(stream) is Hostname
            &&& first_match(config.forwards@, sniffed(stream)->Hostname_0) is Some
            &&& !is_loop_target(sniffed(stream)->Hostname_0)
            &&& step_of(config, state, event) == (
                SessionView::Dialing { prefix: stream },
                ActionView::Dial(
                    config.forwards@[first_match(
                        config.forwards@,
                        sniffed(stream)->Hostname_0,
                    ).unwrap()].dst@[0].plan_for(sniffed(stream)->Hostname_0),
                ),
            )
        }),
{
    reveal(step_of);
}

/// A host name that no rule applies to ends the connection with `NoMatch`,
/// which carries the name, and nothing is dialed.
pub proof fn lemma_unmatched_is_dropped(config: &Config, seen: Seq<u8>, chunk: Vec<u8>)
    requires
        sniffed(seen + chunk@) is Hostname,
        first_match(config.forwards@, sniffed(seen + chunk@)->Hostname_0) is None,
    ensures
        step_of(config, SessionView::Sniffing(seen), Event::Read(chunk)) == (
            SessionView::Failed(
                Stage::Routing,
                ProxyErrorView::NoMatch(sniffed(seen + chunk@)->Hostname_0),
            ),
            ActionView::Close,
        ),
{
    reveal(step_of);
}

/// How one step changes the stage of a connection, and what it orders.
proof fn lemma_step_shape(config: &Config, state: SessionView, event: Event)
    ensures
        ({
            let next = step_of(config, state, event);
            &&& next.1 is Dial ==> state is Sniffing && next.0 is Dialing
            &&& next.1 is Replay ==> state is Dialing && next.0 is Replaying
            &&& next.1 is Relay ==> state is Replaying && next.0 is Relaying
            &&& next.1 is Close ==> next.0.is_terminal()
            &&& state.is_terminal() ==> next.0 == state && next.1 is Nothing
            &&& next.0 is Dialing ==> state is Dialing || next.1 is Dial
            &&& next.0 is Replaying ==> state is Replaying || next.1 is Replay
            &&& next.0 is Accepted || next.0 is Sniffing ==> state is Accepted || state is Sniffing
        }),
{
    reveal(step_of);
}

/// A client that has sent less than a record header and then stalls is
/// waited for, whatever it sent, and is dropped with `Timeout` when the
/// deadline passes: nothing is judged, and nothing dialed, before.
pub proof fn lemma_stalled_client_times_out(config: &Config, seen: Seq<u8>, chunk: Vec<u8>)
    requires
        seen.len() + chunk@.len() < RECORD_HEADER_LEN,
    ensures
        step_of(config, SessionView::Sniffing(seen), Event::Read(chunk)) == (
            SessionView::Sniffing(seen + chunk@),
            ActionView::ReadMore,
        ),
        step_of(config, SessionView::Sniffing(seen + chunk@), Event::Deadline) == (
            SessionView::Failed(Stage::Sniffing, ProxyErrorView::Timeout),
            ActionView::Close,
        ),
{
    reveal(step_of);
    lemma_short_stream_is_incomplete(seen + chunk@);
}

/// Whether the upstream was ordered to be dialed among `acts`.
pub open spec fn dial_ordered(acts: Seq<ActionView>) -> bool
    decreases acts.len(),
{
    acts.len() > 0 && (acts.last() is Dial || dial_ordered(acts.drop_last()))
}

/// Whether the replay was ordered among `acts`.
pub open spec fn replay_ordered(acts: Seq<ActionView>) -> bool
    decreases acts.len(),
{
    acts.len() > 0 && (acts.last() is Replay || replay_ordered(acts.drop_last()))
}

/// Whether the connection was ordered to be closed among `acts`.
pub open spec fn close_ordered(acts: Seq<ActionView>) -> bool
    decreases acts.len(),
{
    acts.len() > 0 && (acts.last() is Close || close_ordered(acts.drop_last()))
}

/// Whether `acts` keeps the order that a connection needs: at each point,
/// relaying is ordered only after the replay was, the replay only after the
/// dialing, the dialing only once, and nothing at all after the closing.
pub open spec fn in_order(acts: Seq<ActionView>) -> bool
    decreases acts.len(),
{
    acts.len() == 0 || {
        let earlier = acts.drop_last();
        &&& in_order(earlier)
        &&& acts.last() is Relay ==> replay_ordered(earlier)
        &&& acts.last() is Replay ==> dial_ordered(earlier)
        &&& acts.last() is Dial ==> !dial_ordered(earlier)
        &&& close_ordered(earlier) ==> acts.last() is Nothing
    }
}

/// Whatever happens on a connection, in whatever order the events come: what
/// is ordered keeps the order that `in_order` describes. So no byte is
/// relayed before the bytes read while sniffing were handed over for the
/// replay, and nothing is dialed for a connection that was closed.
pub proof fn lemma_actions_in_order(config: &Config, events: Seq<Event>)
    ensures
        in_order(run(config, events).1),
        run(config, events).0 is Dialing ==> dial_ordered(run(config, events).1),
        run(config, events).0 is Replaying ==> replay_ordered(run(config, events).1),
        close_ordered(run(config, events).1) ==> run(config, events).0.is_terminal(),
        dial_ordered(run(config, events).1) ==> !(run(config, events).0 is Accepted) && !(run(
            config,
            events,
        ).0 is Sniffing),
    decreases events.len(),
{
    if events.len() > 0 {
        let earlier = events.drop_last();
        lemma_actions_in_order(config, earlier);
        let before = run(config, earlier);
        let next = step_of(config, before.0, events.last());
        lemma_step_shape(config, before.0, events.last());
        let acts = run(config, events).1;
        assert(acts == before.1.push(next.1));
        assert(acts.drop_last() =~= before.1);
        assert(acts.last() == next.1);
    }
}

/// What `in_order` means for the action at one position: a `Relay` there has
/// a `Replay` before it, and a `Replay` a `Dial`.
pub proof fn lemma_in_order_at(acts: Seq<ActionView>, j: int)
    requires
        in_order(acts),
        0 <= j < acts.len(),
    ensures
        acts[j] is Relay ==> exists|i: int| 0 <= i < j && acts[i] is Replay,
        acts[j] is Replay ==> exists|i: int| 0 <= i < j && acts[i] is Dial,
    decreases acts.len(),
{
    let earlier = acts.drop_last();
    if j < acts.len() - 1 {
        lemma_in_order_at(earlier, j);
        if acts[j] is Relay {
            let i = choose|i: int| 0 <= i < j && earlier[i] is Replay;
            assert(acts[i] is Replay);
        }
        if acts[j] is Replay {
            let i = choose|i: int| 0 <= i < j && earlier[i] is Dial;
            assert(acts[i] is Dial);
        }
    } else {
        if acts[j] is Relay {
            let i = lemma_replay_ordered_at(earlier);
            assert(acts[i] is Replay);
        }
        if acts[j] is Replay {
            let i = lemma_dial_ordered_at(earlier);
            assert(acts[i] is Dial);
        }
    }
}

/// A position at which the replay was ordered.
pub proof fn lemma_replay_ordered_at(acts: Seq<ActionView>) -> (i: int)
    requires
        replay_ordered(acts),
    ensures
        0 <= i < acts.len(),
        acts[i] is Replay,
    decreases acts.len(),
{
    if acts.last() is Replay {
        acts.len() - 1
    } else {
        lemma_replay_ordered_at(acts.drop_last())
    }
}

/// A position at which the dialing was ordered.
pub proof fn lemma_dial_ordered_at(acts: Seq<ActionView>) -> (i: int)
    requires
        dial_ordered(acts),
    ensures
        0 <= i < acts.len(),
        acts[i] is Dial,
    decreases acts.len(),
{
    if acts.last() is Dial {
        acts.len() - 1
    } else {
        lemma_dial_ordered_at(acts.drop_last())
    }
}

/// The events of a connection that is accepted and then read from `n` times,
/// `reads` holding what the reads returned.
pub open spec fn sniffing_events(reads: Seq<Vec<u8>>, n: int) -> Seq<Event>
    decreases n,
{
    if n <= 0 {
        seq![Event::Start]
    } else {
        sniffing_events(reads, n - 1).push(Event::Read(reads[n - 1]))
    }
}

/// As long as no earlier read settled the answer, the connection stands after
/// `n` reads where the bytes of those reads, taken together, put it: still
/// sniffing and holding all of them, failed, or routed with all of them kept
/// for the replay. Where the reads ended does not matter otherwise.
pub proof fn lemma_session_follows_stream(config: &Config, reads: Seq<Vec<u8>>, n: int)
    requires
        0 <= n <= reads.len(),
        forall|k: int| 0 <= k < n ==> sniffed(#[trigger] joined(reads, k)) is Incomplete,
    ensures
        run(config, sniffing_events(reads, n)).0 == (match sniffed(joined(reads, n)) {
            Sniffed::Incomplete => SessionView::Sniffing(joined(reads, n)),
            Sniffed::Failed(e) => SessionView::Failed(Stage::Sniffing, e),
            Sniffed::Hostname(host) => routed(config, host, joined(reads, n)).0,
        }),
    decreases n,
{
    reveal(step_of);
    let events = sniffing_events(reads, n);
    if n == 0 {
        assert(events.drop_last() =~= Seq::<Event>::empty());
        assert(run(config, events.drop_last()).0 == SessionView::Accepted);
        assert(events.last() == Event::Start);
    } else {
        lemma_session_follows_stream(config, reads, n - 1);
        assert(events.drop_last() =~= sniffing_events(reads, n - 1));
        assert(events.last() == Event::Read(reads[n - 1]));
        assert(sniffed(joined(reads, n - 1)) is Incomplete);
    }
}

} // verus!
