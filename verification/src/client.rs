use vstd::prelude::*;

use crate::json::{Field, FieldModel};
use crate::protocol::{text_is, Envelope, EnvelopeModel, FieldFault};

verus! {

/// The state of a client node: whether a shutdown was ordered.
pub struct ClientNode {
    shutdown: bool,
}

impl View for ClientNode {
    type V = bool;

    closed spec fn view(&self) -> bool {
        self.shutdown
    }
}

/// A message to a client, as it reads it.
pub enum ClientCommand {
    Shutdown,
    /// The manager points the client at a server; both entries are present,
    /// of whatever kind.
    Redirect { host: Field, port: Field },
    Unrecognized { message_type: String },
    MissingType,
    TypeNotText,
    /// A redirection without a host or without a port; the client stops on it.
    Malformed(FieldFault),
}

/// The mathematical value of a [`ClientCommand`].
pub enum ClientCommandModel {
    Shutdown,
    Redirect { host: FieldModel, port: FieldModel },
    Unrecognized { message_type: Seq<char> },
    MissingType,
    TypeNotText,
    Malformed(FieldFault),
}

impl View for ClientCommand {
    type V = ClientCommandModel;

    open spec fn view(&self) -> ClientCommandModel {
        match self {
            ClientCommand::Shutdown => ClientCommandModel::Shutdown,
            ClientCommand::Redirect { host, port } => ClientCommandModel::Redirect {
                host: host@,
                port: port@,
            },
            ClientCommand::Unrecognized { message_type } => ClientCommandModel::Unrecognized {
                message_type: message_type@,
            },
            ClientCommand::MissingType => ClientCommandModel::MissingType,
            ClientCommand::TypeNotText => ClientCommandModel::TypeNotText,
            ClientCommand::Malformed(f) => ClientCommandModel::Malformed(*f),
        }
    }
}

/// What a client answers to a message.
#[derive(PartialEq, Eq, Structural, Clone, Copy, Debug)]
pub enum ClientReply {
    ShutdownRequested,
    Redirected,
    Ignored,
}

/// How a client reads a received message.
pub open spec fn client_command_of(e: EnvelopeModel) -> ClientCommandModel {
    match e.message_type {
        FieldModel::Absent => ClientCommandModel::MissingType,
        FieldModel::Text(t) => if t == "shutdown"@ {
            ClientCommandModel::Shutdown
        } else if t == "redirect"@ {
            if e.host is Absent {
                ClientCommandModel::Malformed(FieldFault::HostMissing)
            } else if e.port is Absent {
                ClientCommandModel::Malformed(FieldFault::PortMissing)
            } else {
                ClientCommandModel::Redirect { host: e.host, port: e.port }
            }
        } else {
            ClientCommandModel::Unrecognized { message_type: t }
        },
        _ => ClientCommandModel::TypeNotText,
    }
}

/// Reads a received message as a message to a client.
pub fn client_command(e: Envelope) -> (res: ClientCommand)
    ensures
        res@ == client_command_of(e@),
{
    let Envelope { message_type, host, port, max_clients: _ } = e;
    match message_type {
        Field::Absent => ClientCommand::MissingType,
        Field::Text(t) => {
            if text_is(&t, "shutdown") {
                ClientCommand::Shutdown
            } else if text_is(&t, "redirect") {
                if let Field::Absent = host {
                    ClientCommand::Malformed(FieldFault::HostMissing)
                } else if let Field::Absent = port {
                    ClientCommand::Malformed(FieldFault::PortMissing)
                } else {
                    ClientCommand::Redirect { host, port }
                }
            } else {
                ClientCommand::Unrecognized { message_type: t }
            }
        },
        _ => ClientCommand::TypeNotText,
    }
}

/// How a client's shutdown flag changes on a message, and what it answers.
pub open spec fn client_step(shutdown: bool, c: ClientCommandModel) -> (bool, ClientReply) {
    match c {
        ClientCommandModel::Shutdown => (true, ClientReply::ShutdownRequested),
        ClientCommandModel::Redirect { .. } => (shutdown, ClientReply::Redirected),
        _ => (shutdown, ClientReply::Ignored),
    }
}

impl ClientNode {
    /// A running client.
    pub fn new() -> (res: ClientNode)
        ensures
            res@ == false,
    {
        ClientNode { shutdown: false }
    }

    /// Whether a shutdown was ordered.
    pub fn is_shutdown(&self) -> (res: bool)
        ensures
            res == self@,
    {
        self.shutdown
    }

    /// Acts on a message to the client.
    pub fn handle(&mut self, command: &ClientCommand) -> (reply: ClientReply)
        requires
            !(command is Malformed),
        ensures
            (final(self)@, reply) == client_step(old(self)@, command@),
    {
        match command {
            ClientCommand::Shutdown => {
                self.shutdown = true;
                ClientReply::ShutdownRequested
            },
            ClientCommand::Redirect { .. } => ClientReply::Redirected,
            _ => ClientReply::Ignored,
        }
    }
}

/// Once a client is told to shut down it stays so, whatever it receives.
pub proof fn law_client_shutdown_stays(shutdown: bool, c: ClientCommandModel)
    ensures
        shutdown ==> client_step(shutdown, c).0,
        client_step(shutdown, c).0 != shutdown ==> c is Shutdown,
{
}

/// The seconds a client waits before asking for a server, drawn from `r`.
pub open spec fn connect_delay_of(r: u64) -> u64 {
    (r % 2 + 1) as u64
}

/// The seconds a client stays before leaving its server, drawn from `r`.
pub open spec fn disconnect_delay_of(r: u64) -> u64 {
    (r % 9 + 1) as u64
}

/// Draws a number with `rand::random::<u64>()`. Nothing is claimed of it:
/// it comes from the thread's random generator.
#[verifier::external_body]
fn random_u64() -> u64 {
    rand::random::<u64>()
}

/// Where a client stands in its cycle of connecting to and leaving the
/// manager.
#[derive(PartialEq, Eq, Structural, Clone, Copy, Debug)]
pub enum CyclePhase {
    /// About to look at the shutdown flag.
    Ready,
    SleepingBeforeConnect,
    Connecting,
    NotifyingAfterConnect,
    SleepingBeforeDisconnect,
    Disconnecting,
    NotifyingAfterDisconnect,
    Stopped,
}

/// What the program reports back after doing the last action.
#[derive(PartialEq, Eq, Structural, Clone, Copy, Debug)]
pub enum CycleEvent {
    /// The shutdown flag was read.
    Checked { shutdown: bool },
    /// The sleep is over.
    Slept,
    /// The message was sent, or could not be.
    Sent { delivered: bool },
    /// The shutdown order to the client itself was sent (or not).
    Notified,
}

/// What the program is to do next.
#[derive(PartialEq, Eq, Structural, Clone, Copy, Debug)]
pub enum CycleAction {
    /// Read the shutdown flag.
    CheckShutdown,
    Sleep { secs: u64 },
    /// Send the connect request to the manager.
    SendConnect,
    /// Send the disconnect notice to the manager.
    SendDisconnect,
    /// The manager could not be reached: send a shutdown order to the
    /// client's own listener.
    NotifyShutdown,
    /// The cycle is over.
    Stop,
}

/// Whether the event is the report that the phase waits for.
pub open spec fn cycle_accepts(p: CyclePhase, e: CycleEvent) -> bool {
    match p {
        CyclePhase::Ready => e is Checked,
        CyclePhase::SleepingBeforeConnect => e is Slept,
        CyclePhase::Connecting => e is Sent,
        CyclePhase::NotifyingAfterConnect => e is Notified,
        CyclePhase::SleepingBeforeDisconnect => e is Slept,
        CyclePhase::Disconnecting => e is Sent,
        CyclePhase::NotifyingAfterDisconnect => e is Notified,
        CyclePhase::Stopped => false,
    }
}

/// One step of the cycle: the next phase and action after event `e`, where
/// a sleep's length is drawn from the random number `r`.
pub open spec fn cycle_next(p: CyclePhase, e: CycleEvent, r: u64) -> (CyclePhase, CycleAction) {
    match (p, e) {
        (CyclePhase::Ready, CycleEvent::Checked { shutdown }) => if shutdown {
            (CyclePhase::Stopped, CycleAction::Stop)
        } else {
            (CyclePhase::SleepingBeforeConnect, CycleAction::Sleep { secs: connect_delay_of(r) })
        },
        (CyclePhase::SleepingBeforeConnect, CycleEvent::Slept) => (
            CyclePhase::Connecting,
            CycleAction::SendConnect,
        ),
        (CyclePhase::Connecting, CycleEvent::Sent { delivered }) => if delivered {
            (
                CyclePhase::SleepingBeforeDisconnect,
                CycleAction::Sleep { secs: disconnect_delay_of(r) },
            )
        } else {
            (CyclePhase::NotifyingAfterConnect, CycleAction::NotifyShutdown)
        },
        (CyclePhase::NotifyingAfterConnect, CycleEvent::Notified) => (
            CyclePhase::SleepingBeforeDisconnect,
            CycleAction::Sleep { secs: disconnect_delay_of(r) },
        ),
        (CyclePhase::SleepingBeforeDisconnect, CycleEvent::Slept) => (
            CyclePhase::Disconnecting,
            CycleAction::SendDisconnect,
        ),
        (CyclePhase::Disconnecting, CycleEvent::Sent { delivered }) => if delivered {
            (CyclePhase::Ready, CycleAction::CheckShutdown)
        } else {
            (CyclePhase::NotifyingAfterDisconnect, CycleAction::NotifyShutdown)
        },
        (CyclePhase::NotifyingAfterDisconnect, CycleEvent::Notified) => (
            CyclePhase::Ready,
            CycleAction::CheckShutdown,
        ),
        _ => (p, CycleAction::Stop),
    }
}

/// A client's cycle: look at the shutdown flag, sleep one or two seconds,
/// ask the manager for a server, sleep one to nine seconds, leave, and
/// again; when the manager cannot be reached the client orders its own
/// shutdown.
pub struct MessagingCycle {
    phase: CyclePhase,
}

impl View for MessagingCycle {
    type V = CyclePhase;

    closed spec fn view(&self) -> CyclePhase {
        self.phase
    }
}

impl MessagingCycle {
    /// A cycle that starts by looking at the shutdown flag.
    pub fn new() -> (res: MessagingCycle)
        ensures
            res@ == CyclePhase::Ready,
    {
        MessagingCycle { phase: CyclePhase::Ready }
    }

    /// The action that starts the cycle.
    pub fn first_action(&self) -> (res: CycleAction)
        ensures
            res == CycleAction::CheckShutdown,
    {
        CycleAction::CheckShutdown
    }

    /// Whether `event` is the report that the cycle waits for.
    pub fn accepts(&self, event: CycleEvent) -> (res: bool)
        ensures
            res == cycle_accepts(self@, event),
    {
        match self.phase {
            CyclePhase::Ready => matches!(event, CycleEvent::Checked { .. }),
            CyclePhase::SleepingBeforeConnect => matches!(event, CycleEvent::Slept),
            CyclePhase::Connecting => matches!(event, CycleEvent::Sent { .. }),
            CyclePhase::NotifyingAfterConnect => matches!(event, CycleEvent::Notified),
            CyclePhase::SleepingBeforeDisconnect => matches!(event, CycleEvent::Slept),
            CyclePhase::Disconnecting => matches!(event, CycleEvent::Sent { .. }),
            CyclePhase::NotifyingAfterDisconnect => matches!(event, CycleEvent::Notified),
            CyclePhase::Stopped => false,
        }
    }

    /// One step of the cycle with the random number `r` given.
    pub fn step_with(&mut self, event: CycleEvent, r: u64) -> (action: CycleAction)
        requires
            cycle_accepts(old(self)@, event),
        ensures
            (final(self)@, action) == cycle_next(old(self)@, event, r),
    {
        let (phase, action) = match (self.phase, event) {
            (CyclePhase::Ready, CycleEvent::Checked { shutdown }) => if shutdown {
                (CyclePhase::Stopped, CycleAction::Stop)
            } else {
                (CyclePhase::SleepingBeforeConnect, CycleAction::Sleep { secs: r % 2 + 1 })
            },
            (CyclePhase::SleepingBeforeConnect, CycleEvent::Slept) => (
                CyclePhase::Connecting,
                CycleAction::SendConnect,
            ),
            (CyclePhase::Connecting, CycleEvent::Sent { delivered }) => if delivered {
                (CyclePhase::SleepingBeforeDisconnect, CycleAction::Sleep { secs: r % 9 + 1 })
            } else {
                (CyclePhase::NotifyingAfterConnect, CycleAction::NotifyShutdown)
            },
            (CyclePhase::NotifyingAfterConnect, CycleEvent::Notified) => (
                CyclePhase::SleepingBeforeDisconnect,
                CycleAction::Sleep { secs: r % 9 + 1 },
            ),
            (CyclePhase::SleepingBeforeDisconnect, CycleEvent::Slept) => (
                CyclePhase::Disconnecting,
                CycleAction::SendDisconnect,
            ),
            (CyclePhase::Disconnecting, CycleEvent::Sent { delivered }) => if delivered {
                (CyclePhase::Ready, CycleAction::CheckShutdown)
            } else {
                (CyclePhase::NotifyingAfterDisconnect, CycleAction::NotifyShutdown)
            },
            (CyclePhase::NotifyingAfterDisconnect, CycleEvent::Notified) => (
                CyclePhase::Ready,
                CycleAction::CheckShutdown,
            ),
            _ => (self.phase, CycleAction::Stop),
        };
        self.phase = phase;
        action
    }

    /// One step of the cycle; a sleep's length is drawn from the thread's
    /// random generator.
    pub fn step(&mut self, event: CycleEvent) -> (action: CycleAction)
        requires
            cycle_accepts(old(self)@, event),
        ensures
            exists|r: u64| (final(self)@, action) == cycle_next(old(self)@, event, r),
    {
        let r = random_u64();
        self.step_with(event, r)
    }
}

/// Whether a connect request has been sent and its disconnect notice not yet.
pub open spec fn connect_pending(p: CyclePhase) -> bool {
    p == CyclePhase::Connecting || p == CyclePhase::NotifyingAfterConnect || p
        == CyclePhase::SleepingBeforeDisconnect
}

/// Connect requests and disconnect notices alternate: a connect request is
/// only sent when none is pending, a disconnect notice only when one is,
/// and no other action changes that.
pub proof fn law_connect_and_disconnect_alternate(p: CyclePhase, e: CycleEvent, r: u64)
    requires
        cycle_accepts(p, e),
    ensures
        ({
            let (q, a) = cycle_next(p, e, r);
            &&& a == CycleAction::SendConnect ==> !connect_pending(p) && connect_pending(q)
            &&& a == CycleAction::SendDisconnect ==> connect_pending(p) && !connect_pending(q)
            &&& (a != CycleAction::SendConnect && a != CycleAction::SendDisconnect)
                ==> connect_pending(q) == connect_pending(p)
        }),
{
}

/// A client waits one or two seconds before it asks for a server, and one
/// to nine seconds before it leaves.
pub proof fn law_sleep_lengths(p: CyclePhase, e: CycleEvent, r: u64)
    requires
        cycle_accepts(p, e),
    ensures
        ({
            let (q, a) = cycle_next(p, e, r);
            &&& a is Sleep ==> (q == CyclePhase::SleepingBeforeConnect || q
                == CyclePhase::SleepingBeforeDisconnect)
            &&& a matches CycleAction::Sleep { secs } ==> (q == CyclePhase::SleepingBeforeConnect
                ==> 1 <= secs <= 2)
            &&& a matches CycleAction::Sleep { secs } ==> (q
                == CyclePhase::SleepingBeforeDisconnect ==> 1 <= secs <= 9)
        }),
{
}

/// The cycle stops only when the shutdown flag is found set, and a stopped
/// cycle waits for nothing more.
pub proof fn law_cycle_stops_only_on_shutdown(p: CyclePhase, e: CycleEvent, r: u64)
    requires
        cycle_accepts(p, e),
    ensures
        cycle_next(p, e, r).1 == CycleAction::Stop <==> (p == CyclePhase::Ready
            && e == (CycleEvent::Checked { shutdown: true })),
        cycle_next(p, e, r).1 == CycleAction::Stop ==> forall|e2: CycleEvent|
            !cycle_accepts(cycle_next(p, e, r).0, e2),
{
}

/// The phase reached and the actions issued when the cycle, started in
/// phase `p`, is given the reports `events`, the sleeps being drawn from
/// `draws` in turn; `None` when some report is not the one awaited.
pub open spec fn run_cycle(p: CyclePhase, events: Seq<CycleEvent>, draws: Seq<u64>) -> Option<
    (CyclePhase, Seq<CycleAction>),
>
    decreases events.len(),
{
    if events.len() != draws.len() {
        None
    } else if events.len() == 0 {
        Some((p, Seq::empty()))
    } else {
        match run_cycle(p, events.drop_last(), draws.drop_last()) {
            None => None,
            Some((q, acts)) => if cycle_accepts(q, events.last()) {
                let (q2, a) = cycle_next(q, events.last(), draws.last());
                Some((q2, acts.push(a)))
            } else {
                None
            },
        }
    }
}

/// Whether the action is a sleep of `lo` to `hi` seconds.
pub open spec fn sleep_within(a: CycleAction, lo: u64, hi: u64) -> bool {
    match a {
        CycleAction::Sleep { secs } => lo <= secs <= hi,
        _ => false,
    }
}

/// Whether an action sends a message to the manager.
pub open spec fn is_send(a: CycleAction) -> bool {
    a == CycleAction::SendConnect || a == CycleAction::SendDisconnect
}

/// How many messages to the manager the actions send.
pub open spec fn send_count(acts: Seq<CycleAction>) -> nat
    decreases acts.len(),
{
    if acts.len() == 0 {
        0
    } else {
        send_count(acts.drop_last()) + if is_send(acts.last()) {
            1nat
        } else {
            0nat
        }
    }
}

/// What holds of a run: the messages to the manager alternate, a connect
/// request first (a connect request has an even number of sends before it,
/// a disconnect notice an odd number); every connect request comes right
/// after a sleep of one or two seconds and every disconnect notice right
/// after one of one to nine seconds; and a connect request is pending
/// exactly when an odd number of messages was sent.
pub open spec fn run_well_formed(q: CyclePhase, acts: Seq<CycleAction>) -> bool {
    &&& forall|i: int|
        0 <= i < acts.len() ==> (#[trigger] acts[i] == CycleAction::SendConnect ==> send_count(
            acts.take(i),
        ) % 2 == 0)
    &&& forall|i: int|
        0 <= i < acts.len() ==> (#[trigger] acts[i] == CycleAction::SendDisconnect ==> send_count(
            acts.take(i),
        ) % 2 == 1)
    &&& forall|i: int|
        0 <= i < acts.len() ==> (#[trigger] acts[i] == CycleAction::SendConnect ==> (i >= 1
            && sleep_within(acts[i - 1], 1, 2)))
    &&& forall|i: int|
        0 <= i < acts.len() ==> (#[trigger] acts[i] == CycleAction::SendDisconnect ==> (i >= 1
            && sleep_within(acts[i - 1], 1, 9)))
    &&& connect_pending(q) <==> send_count(acts) % 2 == 1
    &&& q == CyclePhase::SleepingBeforeConnect ==> (acts.len() >= 1
        && sleep_within(acts.last(), 1, 2))
    &&& q == CyclePhase::SleepingBeforeDisconnect ==> (acts.len() >= 1
        && sleep_within(acts.last(), 1, 9))
}

/// Over a whole run from the start, connect requests and disconnect
/// notices strictly alternate beginning with a connect request, each
/// connect request follows a sleep of one or two seconds and each
/// disconnect notice a sleep of one to nine seconds.
pub proof fn law_run_alternates_with_bounded_sleeps(events: Seq<CycleEvent>, draws: Seq<u64>)
    ensures
        run_cycle(CyclePhase::Ready, events, draws) matches Some((q, acts)) ==> run_well_formed(
            q,
            acts,
        ),
    decreases events.len(),
{
    if events.len() == draws.len() && events.len() > 0 {
        let prev = run_cycle(CyclePhase::Ready, events.drop_last(), draws.drop_last());
        law_run_alternates_with_bounded_sleeps(events.drop_last(), draws.drop_last());
        if let Some((q, acts)) = prev {
            let e = events.last();
            if cycle_accepts(q, e) {
                let (q2, a) = cycle_next(q, e, draws.last());
                let acts2 = acts.push(a);
                assert(acts2.drop_last() =~= acts);
                assert(acts2.take(acts.len() as int) =~= acts);
                assert forall|i: int| 0 <= i < acts.len() implies #[trigger] acts2.take(i)
                    == acts.take(i) by {
                    assert(acts2.take(i) =~= acts.take(i));
                }
                assert forall|i: int|
                    0 <= i < acts2.len() && #[trigger] acts2[i] == CycleAction::SendConnect implies send_count(acts2.take(i)) % 2 == 0 by {
                    if i < acts.len() {
                        assert(acts2[i] == acts[i]);
                        assert(acts2.take(i) == acts.take(i));
                    }
                }
                assert forall|i: int|
                    0 <= i < acts2.len() && #[trigger] acts2[i] == CycleAction::SendDisconnect implies send_count(acts2.take(i)) % 2 == 1 by {
                    if i < acts.len() {
                        assert(acts2[i] == acts[i]);
                        assert(acts2.take(i) == acts.take(i));
                    }
                }
                assert forall|i: int|
                    0 <= i < acts2.len() && #[trigger] acts2[i] == CycleAction::SendConnect implies (i >= 1 && sleep_within(acts2[i - 1], 1, 2)) by {
                    if i < acts.len() {
                        assert(acts2[i] == acts[i]);
                        if i >= 1 {
                            assert(acts2[i - 1] == acts[i - 1]);
                        }
                    }
                }
                assert forall|i: int|
                    0 <= i < acts2.len() && #[trigger] acts2[i] == CycleAction::SendDisconnect implies (i >= 1 && sleep_within(acts2[i - 1], 1, 9)) by {
                    if i < acts.len() {
                        assert(acts2[i] == acts[i]);
                        if i >= 1 {
                            assert(acts2[i - 1] == acts[i - 1]);
                        }
                    }
                }
            }
        }
    }
}

} // verus!
