//! The commands of the transport and the step of the read loop: what each
//! does to the registry, what it publishes and what it hands to the socket.
//!
//! Nothing here touches a socket. The caller dials, reads and writes, and
//! asks these functions what follows from each result.

use vstd::prelude::*;
use crate::address::{authority, dial_target};
use crate::error::{SocketError, SocketErrorView};
use crate::event::{payload, payload_views, Event, EventView, ReceivedPayload, ReceivedPayloadView};
use crate::framing::{wire_bytes, wire_line};
use crate::registry::SocketState;

verus! {

/// A result with its error taken by its view.
pub open spec fn outcome_view<T>(r: Result<T, SocketError>) -> Result<T, SocketErrorView> {
    match r {
        Ok(t) => Ok(t),
        Err(e) => Err(e@),
    }
}

/// What `disconnect` returns on the registry `m`.
pub open spec fn disconnect_outcome<H>(m: Map<Seq<char>, H>, id: Seq<char>) -> Result<
    H,
    SocketErrorView,
> {
    if m.contains_key(id) {
        Ok(m[id])
    } else {
        Err(SocketErrorView::NotFound { client_id: id })
    }
}

/// What `send` returns on the registry `m`: the entry to write to and the
/// bytes to write.
pub open spec fn send_outcome<H>(m: Map<Seq<char>, H>, id: Seq<char>, data: Seq<char>) -> Result<
    (H, Seq<u8>),
    SocketErrorView,
> {
    if m.contains_key(id) {
        Ok((m[id], wire_bytes(data)))
    } else {
        Err(SocketErrorView::NotFound { client_id: id })
    }
}

/// The size of the buffer that one read of the loop fills.
pub const READ_BUFFER_SIZE: usize = 4096;

/// What is to be done to establish the connection that an address names.
#[derive(Clone, Debug, PartialEq, Eq)]
pub struct ConnectPlan {
    /// The host of the address.
    pub host: String,
    /// The port of the address.
    pub port: u16,
    /// The text `host:port`, to which the TCP connection is made.
    pub target: String,
    /// The name to verify the server against where TLS is layered over
    /// the TCP connection; nothing where the connection stays plaintext.
    pub tls_domain: Option<String>,
}

/// The mathematical value of a [`ConnectPlan`].
pub struct ConnectPlanView {
    pub host: Seq<char>,
    pub port: u16,
    pub target: Seq<char>,
    pub tls_domain: Option<Seq<char>>,
}

impl View for ConnectPlan {
    type V = ConnectPlanView;

    open spec fn view(&self) -> ConnectPlanView {
        ConnectPlanView {
            host: self.host@,
            port: self.port,
            target: self.target@,
            tls_domain: match self.tls_domain {
                Some(domain) => Some(domain@),
                None => None,
            },
        }
    }
}

/// The plan for an address that was read as `use_tls`, `host` and `port`:
/// host and port are dialled, and TLS is layered on, for the host's name,
/// exactly where the address asks for it.
pub open spec fn connect_plan(use_tls: bool, host: Seq<char>, port: u16) -> ConnectPlanView {
    ConnectPlanView {
        host,
        port,
        target: authority(host, port),
        tls_domain: if use_tls {
            Some(host)
        } else {
            None
        },
    }
}

/// Says what is to be dialled, and whether TLS follows, for an address
/// that was read as `use_tls`, `host` and `port`.
pub fn plan_connect(use_tls: bool, host: String, port: u16) -> (plan: ConnectPlan)
    ensures
        plan@ == connect_plan(use_tls, host@, port),
{
    let target = dial_target(host.as_str(), port);
    let tls_domain = if use_tls {
        Some(host.clone())
    } else {
        None
    };
    ConnectPlan { host, port, target, tls_domain }
}

impl ConnectPlan {
    /// The failure to report where the TCP connection could not be made.
    pub fn dial_failed(&self, cause: String) -> (e: SocketError)
        ensures
            e@ == (SocketErrorView::DialFailed { host: self.host@, port: self.port, cause: cause@ }),
    {
        SocketError::DialFailed { host: self.host.clone(), port: self.port, cause }
    }
}

/// Registers an established connection and announces it.
///
/// The connection is put under `client_id`, in place of one that was
/// there before, and the returned payload reports it as connected.
pub fn connect<H>(client_id: String, handle: H, state: &mut SocketState<H>) -> (announcement:
    ReceivedPayload)
    ensures
        final(state)@ == old(state)@.insert(client_id@, handle),
        announcement@ == payload(client_id@, EventView::ConnectionStateChanged(true)),
{
    let id = client_id.clone();
    state.register(client_id, handle);
    ReceivedPayload::new(id, Event::ConnectionStateChanged(true))
}

/// Takes the connection under `client_id` out of the registry and hands it
/// over. The caller then takes `SocketStep::Shutdown` on it.
pub fn disconnect<H>(client_id: &str, state: &mut SocketState<H>) -> (r: Result<H, SocketError>)
    ensures
        final(state)@ == old(state)@.remove(client_id@),
        outcome_view(r) == disconnect_outcome(old(state)@, client_id@),
{
    match state.remove(client_id) {
        Some(handle) => Ok(handle),
        None => Err(SocketError::NotFound { client_id: client_id.to_owned() }),
    }
}

/// Starts listening, for which nothing is to be done: each connection is
/// read from the moment it is registered.
pub fn listen() -> (r: Result<(), SocketError>)
    ensures
        r is Ok,
{
    Ok(())
}

/// What `send` returned, with the entry by its value and the rest by its
/// view.
pub open spec fn send_view<H>(r: Result<(&H, Vec<u8>), SocketError>) -> Result<
    (H, Seq<u8>),
    SocketErrorView,
> {
    match r {
        Ok((handle, bytes)) => Ok((*handle, bytes@)),
        Err(e) => Err(e@),
    }
}

/// Finds the connection under `client_id` and frames `data` for it.
///
/// The caller takes the steps on the entry, from `SocketStep::Write` with
/// the bytes on. Without such a connection there is nothing to write.
pub fn send<'a, H>(client_id: &str, data: &str, state: &'a SocketState<H>) -> (r: Result<
    (&'a H, Vec<u8>),
    SocketError,
>)
    ensures
        send_view(r) == send_outcome(state@, client_id@, data@),
{
    match state.lookup(client_id) {
        Some(handle) => Ok((handle, wire_line(data))),
        None => Err(SocketError::NotFound { client_id: client_id.to_owned() }),
    }
}

/// A step on the transport of a connection, which the caller carries out.
///
/// A line that `send` framed is written, then flushed. A connection that
/// `disconnect` detached is shut down.
#[derive(Clone, Copy, Debug, PartialEq, Eq)]
pub enum SocketStep {
    /// All bytes of the line are written.
    Write,
    /// What was written is flushed.
    Flush,
    /// The transport is shut down.
    Shutdown,
}

/// What follows from the result of a step: the step to take next, or
/// nothing more where the command has succeeded, or the failure that the
/// command reports.
///
/// A written line is flushed, and only a flushed line is sent. A failed
/// write or flush ends the command with that failure. How a shutdown went
/// does not matter: the connection has left the registry.
pub open spec fn step_outcome(step: SocketStep, result: Result<(), Seq<char>>) -> Result<
    Option<SocketStep>,
    SocketErrorView,
> {
    match step {
        SocketStep::Write => match result {
            Ok(_) => Ok(Some(SocketStep::Flush)),
            Err(cause) => Err(SocketErrorView::WriteFailed { cause }),
        },
        SocketStep::Flush => match result {
            Ok(_) => Ok(None),
            Err(cause) => Err(SocketErrorView::FlushFailed { cause }),
        },
        SocketStep::Shutdown => Ok(None),
    }
}

/// How many steps a command takes at most from `step` on, `step` included.
pub open spec fn steps_left(step: SocketStep) -> nat {
    match step {
        SocketStep::Write => 2,
        SocketStep::Flush => 1,
        SocketStep::Shutdown => 1,
    }
}

/// The result of a step with its error taken by its view.
pub open spec fn step_result_view(result: Result<(), String>) -> Result<(), Seq<char>> {
    match result {
        Ok(_) => Ok(()),
        Err(cause) => Err(cause@),
    }
}

/// Decides what follows from the result of a step on the transport.
pub fn after_step(step: SocketStep, result: Result<(), String>) -> (next: Result<
    Option<SocketStep>,
    SocketError,
>)
    ensures
        outcome_view(next) == step_outcome(step, step_result_view(result)),
{
    match step {
        SocketStep::Write => match result {
            Ok(_) => Ok(Some(SocketStep::Flush)),
            Err(cause) => Err(SocketError::WriteFailed { cause }),
        },
        SocketStep::Flush => match result {
            Ok(_) => Ok(None),
            Err(cause) => Err(SocketError::FlushFailed { cause }),
        },
        SocketStep::Shutdown => Ok(None),
    }
}

/// What one read of the loop leads to.
#[derive(Clone, Debug, PartialEq, Eq)]
pub struct ReadStep {
    /// The payloads to publish, in this order.
    pub events: Vec<ReceivedPayload>,
    /// Whether the connection is over: its entry is then removed from the
    /// registry and nothing more is read.
    pub closed: bool,
}

/// The mathematical value of a [`ReadStep`].
pub struct ReadStepView {
    pub events: Seq<ReceivedPayloadView>,
    pub closed: bool,
}

impl View for ReadStep {
    type V = ReadStepView;

    open spec fn view(&self) -> ReadStepView {
        ReadStepView { events: payload_views(self.events@), closed: self.closed }
    }
}

/// What follows from one read into `buf` on the connection `id`: `Ok(n)`
/// where `n` bytes arrived, `Err(cause)` where the read failed.
pub open spec fn read_outcome(id: Seq<char>, buf: Seq<u8>, result: Result<usize, Seq<char>>)
    -> ReadStepView {
    match result {
        Ok(n) => if n == 0 {
            ReadStepView {
                events: seq![payload(id, EventView::ConnectionStateChanged(false))],
                closed: true,
            }
        } else {
            ReadStepView {
                events: seq![payload(id, EventView::Data(buf.take(n as int)))],
                closed: false,
            }
        },
        Err(cause) => ReadStepView {
            events: seq![
                payload(id, EventView::Error(SocketErrorView::ReadFailed { cause }.message())),
                payload(id, EventView::ConnectionStateChanged(false)),
            ],
            closed: true,
        },
    }
}

/// What the loop publishes for `reads`, the buffer and the result of each
/// read that would be made: it reads until a step ends the connection.
pub open spec fn loop_events(id: Seq<char>, reads: Seq<(Seq<u8>, Result<usize, Seq<char>>)>) -> Seq<
    ReceivedPayloadView,
>
    decreases reads.len(),
{
    if reads.len() == 0 {
        Seq::empty()
    } else {
        let step = read_outcome(id, reads[0].0, reads[0].1);
        if step.closed {
            step.events
        } else {
            step.events + loop_events(id, reads.drop_first())
        }
    }
}

/// A read result with its error taken by its view.
pub open spec fn read_result_view(result: Result<usize, String>) -> Result<usize, Seq<char>> {
    match result {
        Ok(n) => Ok(n),
        Err(cause) => Err(cause@),
    }
}

/// Decides what follows from one read of the loop.
///
/// No bytes: the server closed; the disconnection is reported and the
/// connection is over. Some bytes: they are published as they are and the
/// loop goes on. A failure: it is reported, then the disconnection, and
/// the connection is over.
pub fn read_step(client_id: &str, buf: &[u8], result: Result<usize, String>) -> (step: ReadStep)
    requires
        result matches Ok(n) ==> n <= buf@.len(),
    ensures
        step@ == read_outcome(client_id@, buf@, read_result_view(result)),
{
    let mut events: Vec<ReceivedPayload> = Vec::new();
    let closed = match result {
        Ok(n) => {
            if n == 0 {
                events.push(
                    ReceivedPayload::new(client_id.to_owned(), Event::ConnectionStateChanged(false)),
                );
                true
            } else {
                let data = bytes_up_to(buf, n);
                events.push(ReceivedPayload::new(client_id.to_owned(), Event::Data(data)));
                false
            }
        },
        Err(cause) => {
            let text = SocketError::ReadFailed { cause }.message();
            events.push(ReceivedPayload::new(client_id.to_owned(), Event::Error(text)));
            events.push(
                ReceivedPayload::new(client_id.to_owned(), Event::ConnectionStateChanged(false)),
            );
            true
        },
    };
    let step = ReadStep { events, closed };
    assert(step@.events =~= read_outcome(client_id@, buf@, read_result_view(result)).events);
    step
}

/// The first `n` bytes of `buf`.
fn bytes_up_to(buf: &[u8], n: usize) -> (data: Vec<u8>)
    requires
        n <= buf@.len(),
    ensures
        data@ == buf@.take(n as int),
{
    let mut data: Vec<u8> = Vec::with_capacity(n);
    let mut i: usize = 0;
    while i < n
        invariant
            i <= n <= buf@.len(),
            data@ == buf@.take(i as int),
        decreases n - i,
    {
        data.push(buf[i]);
        i = i + 1;
    }
    data
}

/// Disconnecting a registered connection succeeds, and disconnecting it
/// once more finds nothing.
pub proof fn lemma_disconnect_twice<H>(m: Map<Seq<char>, H>, id: Seq<char>)
    requires
        m.contains_key(id),
    ensures
        disconnect_outcome(m, id) == Ok::<H, SocketErrorView>(m[id]),
        disconnect_outcome(m.remove(id), id) == Err::<H, SocketErrorView>(
            SocketErrorView::NotFound { client_id: id },
        ),
{
}

/// Sending to an identifier that was never connected, or that has been
/// disconnected, finds nothing and yields no bytes.
pub proof fn lemma_send_needs_connection<H>(m: Map<Seq<char>, H>, id: Seq<char>, data: Seq<char>)
    ensures
        send_outcome(Map::<Seq<char>, H>::empty(), id, data) is Err,
        send_outcome(m.remove(id), id, data) == Err::<(H, Seq<u8>), SocketErrorView>(
            SocketErrorView::NotFound { client_id: id },
        ),
        !m.contains_key(id) ==> send_outcome(m, id, data) is Err,
{
}

/// Every step brings a command nearer to its end, and no step but a
/// successful write is followed by another.
pub proof fn lemma_steps_end(step: SocketStep, result: Result<(), Seq<char>>)
    ensures
        match step_outcome(step, result) {
            Ok(Some(next)) => steps_left(next) < steps_left(step) && step == SocketStep::Write
                && result is Ok,
            Ok(None) => step != SocketStep::Write,
            Err(_) => result is Err && step != SocketStep::Shutdown,
        },
{
}

/// A read step ends the connection exactly when it reports the
/// disconnection, which it then reports last; a step that goes on
/// publishes the bytes that arrived and nothing else.
pub proof fn lemma_read_step_shape(id: Seq<char>, buf: Seq<u8>, result: Result<usize, Seq<char>>)
    ensures
        ({
            let step = read_outcome(id, buf, result);
            &&& step.events.len() >= 1
            &&& step.closed <==> step.events.last() == payload(
                id,
                EventView::ConnectionStateChanged(false),
            )
            &&& step.closed <==> !(result matches Ok(n) && n > 0)
            &&& !step.closed ==> step.events.len() == 1
            &&& forall|i: int|
                0 <= i < step.events.len() ==> (#[trigger] step.events[i]).id == id
                    && step.events[i].event.populated() == 1
        }),
{
}

/// Whatever is read and however often, the loop reports a change of the
/// connection's state at most once, as the last thing it publishes, and
/// that change is the disconnection.
pub proof fn lemma_loop_reports_one_disconnection(
    id: Seq<char>,
    reads: Seq<(Seq<u8>, Result<usize, Seq<char>>)>,
)
    ensures
        ({
            let events = loop_events(id, reads);
            forall|i: int|
                0 <= i < events.len() && (#[trigger] events[i]).event.connected is Some ==> i
                    == events.len() - 1 && events[i] == payload(
                    id,
                    EventView::ConnectionStateChanged(false),
                )
        }),
    decreases reads.len(),
{
    if reads.len() > 0 && !read_outcome(id, reads[0].0, reads[0].1).closed {
        lemma_loop_reports_one_disconnection(id, reads.drop_first());
        let events = loop_events(id, reads);
        let rest = loop_events(id, reads.drop_first());
        assert forall|i: int|
            0 <= i < events.len() && (#[trigger] events[i]).event.connected is Some implies i
            == events.len() - 1 && events[i] == payload(
            id,
            EventView::ConnectionStateChanged(false),
        ) by {
            assert(i >= 1 && events[i] == rest[i - 1]);
        }
    }
}

} // verus!
