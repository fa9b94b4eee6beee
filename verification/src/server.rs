//! The server side: identifiers of connected clients, the registry of
//! connections, and what the server decides on each network event.
use crate::addr::SocketAddress;
use crate::protocol::{Message, MessageError};
use bytes::Bytes;
use rand::Rng;
use std::collections::HashMap;
use vstd::std_specs::iter::IteratorSpec;
use vstd::arithmetic::power::pow;
use vstd::prelude::*;

verus! {

/// The lower-case hexadecimal digit of value `d` (for `d < 16`).
pub open spec fn hex_digit(d: nat) -> char {
    if d == 0 { '0' }
    else if d == 1 { '1' }
    else if d == 2 { '2' }
    else if d == 3 { '3' }
    else if d == 4 { '4' }
    else if d == 5 { '5' }
    else if d == 6 { '6' }
    else if d == 7 { '7' }
    else if d == 8 { '8' }
    else if d == 9 { '9' }
    else if d == 10 { 'a' }
    else if d == 11 { 'b' }
    else if d == 12 { 'c' }
    else if d == 13 { 'd' }
    else if d == 14 { 'e' }
    else { 'f' }
}

/// The hexadecimal digits of `n`, most significant first, without leading zeros
/// (`0` is written as a single digit).
pub open spec fn hex_digits(n: nat) -> Seq<char>
    decreases n,
{
    if n < 16 {
        seq![hex_digit(n)]
    } else {
        hex_digits(n / 16).push(hex_digit(n % 16))
    }
}

/// The identifier of a client connected to a server.
#[derive(Debug, Clone, Copy, PartialEq, Eq, Hash, Structural)]
pub struct ClientId(pub u64);

/// The one-character string that holds hexadecimal digit `d`.
fn digit_str(d: u64) -> (s: &'static str)
    requires
        d < 16,
    ensures
        s@ == seq![hex_digit(d as nat)],
{
    if d == 0 { proof { reveal_strlit("0"); } "0" }
    else if d == 1 { proof { reveal_strlit("1"); } "1" }
    else if d == 2 { proof { reveal_strlit("2"); } "2" }
    else if d == 3 { proof { reveal_strlit("3"); } "3" }
    else if d == 4 { proof { reveal_strlit("4"); } "4" }
    else if d == 5 { proof { reveal_strlit("5"); } "5" }
    else if d == 6 { proof { reveal_strlit("6"); } "6" }
    else if d == 7 { proof { reveal_strlit("7"); } "7" }
    else if d == 8 { proof { reveal_strlit("8"); } "8" }
    else if d == 9 { proof { reveal_strlit("9"); } "9" }
    else if d == 10 { proof { reveal_strlit("a"); } "a" }
    else if d == 11 { proof { reveal_strlit("b"); } "b" }
    else if d == 12 { proof { reveal_strlit("c"); } "c" }
    else if d == 13 { proof { reveal_strlit("d"); } "d" }
    else if d == 14 { proof { reveal_strlit("e"); } "e" }
    else { proof { reveal_strlit("f"); } "f" }
}

/// Appends the hexadecimal digits of `n` to `s`.
fn append_hex(s: &mut String, n: u64)
    ensures
        final(s)@ == old(s)@ + hex_digits(n as nat),
    decreases n,
{
    if n >= 16 {
        append_hex(s, n / 16);
    }
    s.append(digit_str(n % 16));
    proof {
        if n >= 16 {
            assert(old(s)@ + hex_digits(n as nat) =~= old(s)@ + hex_digits((n / 16) as nat)
                + seq![hex_digit((n % 16) as nat)]);
        } else {
            assert(hex_digits(n as nat) == seq![hex_digit((n % 16) as nat)]);
        }
    }
}

impl ClientId {
    /// Draws an identifier from the thread-local random number generator.
    ///
    /// Calls `rand::thread_rng()` and `Rng::gen::<u64>()`. Nothing is stated of
    /// the value: it is whatever the generator produced.
    #[verifier::external_body]
    fn gen() -> ClientId {
        ClientId(rand::thread_rng().gen())
    }

    /// The identifier written as in `{:#x}`: `0x` followed by its lower-case
    /// hexadecimal digits, without leading zeros.
    pub fn to_string(&self) -> (s: String)
        ensures
            s@ == seq!['0', 'x'] + hex_digits(self.0 as nat),
    {
        let mut s = String::new();
        proof { reveal_strlit("0x"); }
        s.append("0x");
        append_hex(&mut s, self.0);
        s
    }
}


/// What went wrong on the server side.
#[derive(Debug)]
pub enum ServerError {
    /// Reading a frame from a client failed.
    ReadFrame(std::io::Error),
    /// Sending a frame to a client failed.
    SendFrame(std::io::Error),
    /// Accepting a new connection failed.
    Accept(std::io::Error),
    /// Binding the listening socket to this address failed.
    Bind(SocketAddress, std::io::Error),
    /// The operation named a client that is not connected.
    ClientDoesNotExist(ClientId),
    /// A message could not be converted to or from a frame.
    Message(MessageError),
}

impl From<MessageError> for ServerError {
    fn from(e: MessageError) -> (err: ServerError) {
        ServerError::Message(e)
    }
}

impl vstd::std_specs::convert::FromSpecImpl<MessageError> for ServerError {
    open spec fn obeys_from_spec() -> bool {
        true
    }

    open spec fn from_spec(e: MessageError) -> ServerError {
        ServerError::Message(e)
    }
}

/// An inbound network event, as the server reports it.
#[derive(Debug)]
pub enum Event<T> where T: Message {
    /// A client connected and was given this identifier.
    NewConnection(ClientId),
    /// A client is gone: it closed the connection (`None`) or reading from it
    /// failed.
    Disconnect(ClientId, Option<ServerError>),
    /// A client sent a message.
    Message(ClientId, T),
}

/// The errors that a broadcast reports, given the outcome of each send: one
/// `SendFrame` for each client whose send failed, in the order of `results`.
pub open spec fn send_failures(results: Seq<(ClientId, Result<(), std::io::Error>)>) -> Seq<
    (ClientId, ServerError),
>
    decreases results.len(),
{
    if results.len() == 0 {
        Seq::empty()
    } else {
        let rest = send_failures(results.drop_last());
        match results.last().1 {
            Ok(_) => rest,
            Err(e) => rest.push((results.last().0, ServerError::SendFrame(e))),
        }
    }
}

/// The identifiers of the clients whose send failed.
pub open spec fn failed_ids(results: Seq<(ClientId, Result<(), std::io::Error>)>) -> Set<u64> {
    Set::new(
        |k: u64|
            exists|i: int| 0 <= i < results.len() && results[i].0.0 == k && #[trigger] results[i].1 is Err,
    )
}

/// The set of `u64` values up to and including `c`.
spec fn values_up_to(c: u64) -> Set<u64> {
    Set::new(|x: u64| x <= c)
}

/// There are `c + 1` values up to and including `c`.
proof fn lemma_values_up_to_len(c: u64)
    ensures
        values_up_to(c).finite(),
        values_up_to(c).len() == c + 1,
    decreases c,
{
    if c == 0 {
        assert(values_up_to(c) =~= Set::<u64>::empty().insert(0u64));
    } else {
        let p = (c - 1) as u64;
        lemma_values_up_to_len(p);
        assert(values_up_to(c) =~= values_up_to(p).insert(c));
    }
}

/// The state a server keeps: its connected clients, each under its own
/// identifier, with the connection `C` through which it is reached.
pub struct Server<C> {
    clients: HashMap<u64, C>,
}

impl<C> View for Server<C> {
    type V = Map<u64, C>;

    /// The connected clients, by the value of their identifier.
    closed spec fn view(&self) -> Map<u64, C> {
        self.clients@
    }
}

impl<C> Server<C> {
    /// A server with no client connected.
    pub fn new() -> (server: Self)
        ensures
            server@ == Map::<u64, C>::empty(),
    {
        Server { clients: HashMap::new() }
    }

    /// The smallest identifier that no connected client holds.
    fn smallest_free_id(&self) -> (id: ClientId)
        ensures
            !self@.contains_key(id.0),
            forall|j: u64| j < id.0 ==> self@.contains_key(j),
    {
        broadcast use vstd::std_specs::hash::group_hash_axioms;
        let mut c: u64 = 0;
        while self.clients.contains_key(&c)
            invariant
                forall|j: u64| j < c ==> self.clients@.contains_key(j),
            decreases u64::MAX - c,
        {
            proof {
                lemma_values_up_to_len(c);
                assert(values_up_to(c).subset_of(self.clients@.dom()));
                vstd::set_lib::lemma_len_subset(values_up_to(c), self.clients@.dom());
                assert(self.clients@.len() == self.clients.len());
            }
            c = c + 1;
        }
        ClientId(c)
    }

    /// An identifier that no connected client holds.
    ///
    /// Identifiers are drawn at random until a free one comes up; should the
    /// draws ever be more than a `u64` can count, the smallest free identifier
    /// is taken, so that the search always ends.
    fn fresh_id(&self) -> (id: ClientId)
        ensures
            !self@.contains_key(id.0),
    {
        broadcast use vstd::std_specs::hash::group_hash_axioms;
        let mut id = ClientId::gen();
        let mut draws: u64 = 1;
        while self.clients.contains_key(&id.0) && draws < u64::MAX
            decreases u64::MAX - draws,
        {
            id = ClientId::gen();
            draws = draws + 1;
        }
        if self.clients.contains_key(&id.0) {
            self.smallest_free_id()
        } else {
            id
        }
    }

    /// Registers a newly accepted connection under a fresh identifier, or
    /// reports why accepting failed.
    pub fn on_connection<T: Message>(&mut self, accepted: Result<C, std::io::Error>) -> (res: Result<
        Event<T>,
        ServerError,
    >)
        ensures
            match accepted {
                Ok(conn) => res matches Ok(Event::NewConnection(id)) && !old(self)@.contains_key(id.0)
                    && final(self)@ == old(self)@.insert(id.0, conn),
                Err(e) => res == Err::<Event<T>, ServerError>(ServerError::Accept(e)) && final(self)@
                    == old(self)@,
            },
            res matches Ok(Event::NewConnection(id)) ==> final(self)@.dom() == old(self)@.dom().insert(
                id.0,
            ),
            res is Err ==> final(self)@.dom() == old(self)@.dom(),
    {
        broadcast use vstd::std_specs::hash::group_hash_axioms;
        match accepted {
            Ok(conn) => {
                let id = self.fresh_id();
                self.clients.insert(id.0, conn);
                Ok(Event::NewConnection(id))
            },
            Err(e) => Err(ServerError::Accept(e)),
        }
    }

    /// What the read of the next frame from connected client `id` comes to: a
    /// message, or the client's departure, in which case it is no longer
    /// connected.
    ///
    /// A frame's payload is handed to `T::deserialize`, and the event is what
    /// `message_event` makes of its outcome.
    pub fn on_frame<T: Message>(&mut self, id: ClientId, frame: Option<Result<Bytes, std::io::Error>>) -> (res:
        Result<Event<T>, ServerError>)
        requires
            old(self)@.contains_key(id.0),
        ensures
            match frame {
                Some(Ok(b)) => final(self)@ == old(self)@ && exists|p: Result<T, MessageError>|
                    #[trigger] call_ensures(T::deserialize, (b,), p) && res == message_event_result(
                        id,
                        p,
                    ),
                Some(Err(e)) => final(self)@ == old(self)@.remove(id.0) && res == Ok::<
                    Event<T>,
                    ServerError,
                >(Event::Disconnect(id, Some(ServerError::ReadFrame(e)))),
                None => final(self)@ == old(self)@.remove(id.0) && res == Ok::<
                    Event<T>,
                    ServerError,
                >(Event::Disconnect(id, None)),
            },
            final(self)@.dom().subset_of(old(self)@.dom()),
    {
        broadcast use vstd::std_specs::hash::group_hash_axioms;
        match frame {
            Some(Ok(bytes)) => {
                let parsed = T::deserialize(bytes);
                message_event(id, parsed)
            },
            Some(Err(e)) => {
                self.clients.remove(&id.0);
                Ok(Event::Disconnect(id, Some(ServerError::ReadFrame(e))))
            },
            None => {
                self.clients.remove(&id.0);
                Ok(Event::Disconnect(id, None))
            },
        }
    }

    /// The frame that sending `message` to client `id` puts on the wire: the
    /// message is handed to `T::serialize`. If that fails, the error is
    /// reported and, as every error of a send means, client `id` is no longer
    /// connected; otherwise nothing changes.
    pub fn outgoing_frame<T: Message>(&mut self, id: ClientId, message: &T) -> (res: Result<
        Bytes,
        ServerError,
    >)
        ensures
            exists|r: Result<Bytes, MessageError>|
                #[trigger] call_ensures(T::serialize, (message,), r) && res == serialized_frame_result(r),
            res is Ok ==> final(self)@ == old(self)@,
            res is Err ==> final(self)@ == old(self)@.remove(id.0),
            final(self)@.dom().subset_of(old(self)@.dom()),
    {
        broadcast use vstd::std_specs::hash::group_hash_axioms;
        let frame = message_frame(message);
        if frame.is_err() {
            self.clients.remove(&id.0);
        }
        frame
    }

    /// The connection of client `id`, through which a frame is to be sent.
    pub fn connection(&self, id: ClientId) -> (res: Result<&C, ServerError>)
        ensures
            res is Ok <==> self@.contains_key(id.0),
            res matches Ok(conn) ==> *conn == self@[id.0],
            res matches Err(e) ==> e == ServerError::ClientDoesNotExist(id),
    {
        broadcast use vstd::std_specs::hash::group_hash_axioms;
        match self.clients.get(&id.0) {
            Some(conn) => Ok(conn),
            None => Err(ServerError::ClientDoesNotExist(id)),
        }
    }

    /// Takes note of how sending a frame to client `id` went: a client that
    /// could not be sent to is no longer connected.
    pub fn on_sent(&mut self, id: ClientId, sent: Result<(), std::io::Error>) -> (res: Result<
        (),
        ServerError,
    >)
        ensures
            match sent {
                Ok(_) => res is Ok && final(self)@ == old(self)@,
                Err(e) => res == Err::<(), ServerError>(ServerError::SendFrame(e)) && final(self)@
                    == old(self)@.remove(id.0),
            },
            final(self)@.dom().subset_of(old(self)@.dom()),
    {
        broadcast use vstd::std_specs::hash::group_hash_axioms;
        match sent {
            Ok(()) => Ok(()),
            Err(e) => {
                self.clients.remove(&id.0);
                Err(ServerError::SendFrame(e))
            },
        }
    }

    /// Takes note of how sending one frame to each of several clients went:
    /// `results` pairs each client with the outcome of its send. The clients
    /// that could not be sent to are no longer connected, and the error, if
    /// any, lists one `SendFrame` for each of them.
    pub fn on_broadcast(&mut self, results: Vec<(ClientId, Result<(), std::io::Error>)>) -> (res:
        Result<(), Vec<(ClientId, ServerError)>>)
        ensures
            final(self)@ == old(self)@.remove_keys(failed_ids(results@)),
            res is Ok <==> send_failures(results@).len() == 0,
            res matches Err(errs) ==> errs@ == send_failures(results@),
            final(self)@.dom().subset_of(old(self)@.dom()),
    {
        broadcast use vstd::std_specs::hash::group_hash_axioms;
        let ghost all = results@;
        let ghost before = self.clients@;
        let mut errs: Vec<(ClientId, ServerError)> = Vec::new();
        for item in it: results
            invariant
                it.seq() == all,
                errs@ == send_failures(all.take(it.index() as int)),
                self.clients@ == before.remove_keys(failed_ids(all.take(it.index() as int))),
        {
            let ghost idx = it.index() as int;
            proof {
                assert(all.take(idx + 1).drop_last() =~= all.take(idx));
                assert(all.take(idx + 1).last() == all[idx]);
            }
            let (id, sent) = item;
            match sent {
                Ok(()) => {
                    proof {
                        assert(failed_ids(all.take(idx + 1)) =~= failed_ids(all.take(idx)));
                    }
                },
                Err(e) => {
                    self.clients.remove(&id.0);
                    errs.push((id, ServerError::SendFrame(e)));
                    proof {
                        assert(failed_ids(all.take(idx + 1)) =~= failed_ids(all.take(idx)).insert(id.0));
                        assert(self.clients@ =~= before.remove_keys(failed_ids(all.take(idx + 1))));
                    }
                },
            }
        }
        proof {
            assert(all.take(all.len() as int) =~= all);
        }
        if errs.len() == 0 {
            Ok(())
        } else {
            Err(errs)
        }
    }

    /// Disconnects client `id`, or reports that no such client is connected.
    pub fn disconnect(&mut self, id: ClientId) -> (res: Result<(), ServerError>)
        ensures
            res is Ok <==> old(self)@.contains_key(id.0),
            res matches Err(e) ==> e == ServerError::ClientDoesNotExist(id),
            final(self)@ == old(self)@.remove(id.0),
            final(self)@.dom().subset_of(old(self)@.dom()),
    {
        broadcast use vstd::std_specs::hash::group_hash_axioms;
        if !self.clients.contains_key(&id.0) {
            return Err(ServerError::ClientDoesNotExist(id));
        }
        self.clients.remove(&id.0);
        Ok(())
    }

    /// The identifiers of all connected clients, each once, in no particular
    /// order.
    pub fn clients(&self) -> (ids: Vec<ClientId>)
        ensures
            ids.len() == self@.len(),
            forall|i: int, j: int| 0 <= i < j < ids.len() ==> ids[i] != ids[j],
            forall|i: int| 0 <= i < ids.len() ==> self@.contains_key(#[trigger] ids[i].0),
            forall|k: u64| #[trigger] self@.contains_key(k) ==> exists|i: int|
                0 <= i < ids.len() && ids[i].0 == k,
    {
        broadcast use vstd::std_specs::hash::group_hash_axioms;
        let mut ids: Vec<ClientId> = Vec::new();
        let ghost keys = self.clients.keys().remaining();
        for k in it: self.clients.keys()
            invariant
                it.seq() == keys,
                keys.no_duplicates(),
                keys.len() == self.clients@.len(),
                keys.unref().to_set() == self.clients@.dom(),
                ids.len() == it.index(),
                forall|i: int| 0 <= i < ids.len() ==> ids[i].0 == *keys[i],
        {
            ids.push(ClientId(*k));
        }
        proof {
            assert forall|i: int, j: int| 0 <= i < j < ids.len() implies ids[i] != ids[j] by {
                assert(keys[i] != keys[j]);
            }
            assert forall|i: int| 0 <= i < ids.len() implies self@.contains_key(#[trigger] ids[i].0) by {
                assert(keys.unref()[i] == *keys[i]);
                assert(keys.unref().contains(*keys[i]));
            }
            assert forall|k: u64| #[trigger] self@.contains_key(k) implies exists|i: int|
                0 <= i < ids.len() && ids[i].0 == k by {
                assert(keys.unref().to_set().contains(k));
                let i = choose|i: int| 0 <= i < keys.unref().len() && keys.unref()[i] == k;
                assert(ids[i].0 == k);
            }
        }
        ids
    }

    /// Disconnects every client.
    pub fn disconnect_all(&mut self)
        ensures
            final(self)@ == Map::<u64, C>::empty(),
            final(self)@.dom().subset_of(old(self)@.dom()),
    {
        self.clients.clear();
    }
}

/// The event that a frame's payload gives once `T::deserialize` has read it:
/// the message from client `id`, or the reason it could not be read.
pub fn message_event<T: Message>(id: ClientId, parsed: Result<T, MessageError>) -> (res: Result<
    Event<T>,
    ServerError,
>)
    ensures
        res == message_event_result(id, parsed),
{
    match parsed {
        Ok(m) => Ok(Event::Message(id, m)),
        Err(e) => Err(ServerError::from(e)),
    }
}

/// Turns a message into the payload of a frame to send: the message is handed
/// to `T::serialize`, and the result is what `serialized_frame` makes of its
/// outcome.
pub fn message_frame<T: Message>(message: &T) -> (res: Result<Bytes, ServerError>)
    ensures
        exists|r: Result<Bytes, MessageError>|
            #[trigger] call_ensures(T::serialize, (message,), r) && res == serialized_frame_result(r),
{
    let serialized = message.serialize();
    serialized_frame(serialized)
}

/// What a serialization outcome gives: the frame's payload, or a `Message`
/// error.
pub open spec fn serialized_frame_result(serialized: Result<Bytes, MessageError>) -> Result<
    Bytes,
    ServerError,
> {
    match serialized {
        Ok(b) => Ok(b),
        Err(e) => Err(ServerError::Message(e)),
    }
}

/// What a deserialization outcome of a frame from client `id` gives: the
/// message event, or a `Message` error.
pub open spec fn message_event_result<T: Message>(id: ClientId, parsed: Result<T, MessageError>) -> Result<
    Event<T>,
    ServerError,
> {
    match parsed {
        Ok(m) => Ok(Event::Message(id, m)),
        Err(e) => Err(ServerError::Message(e)),
    }
}

/// The frame to send once `T::serialize` has run: its payload, or the reason
/// the message could not be serialized.
pub fn serialized_frame(serialized: Result<Bytes, MessageError>) -> (res: Result<Bytes, ServerError>)
    ensures
        res == serialized_frame_result(serialized),
{
    match serialized {
        Ok(b) => Ok(b),
        Err(e) => Err(ServerError::from(e)),
    }
}

/// A future that never completes: what the server waits on for frames while
/// no client is connected.
pub struct ForeverPending;

impl ForeverPending {
    /// Whether awaiting this value has completed: it never has.
    pub open spec fn completed(&self) -> bool {
        false
    }

    /// Polls the value: it is never ready.
    pub fn poll_ready(&self) -> (ready: bool)
        ensures
            ready == self.completed(),
    {
        false
    }

    /// To be called only once awaiting this value has completed, which never
    /// happens: no call can meet its precondition.
    pub fn forever(&self)
        requires
            self.completed(),
    {
    }
}

/// A client that a broadcast could not reach is no longer connected, every
/// error of the broadcast names such a client, and every other client stays
/// connected through the same connection.
pub proof fn law_broadcast_errors_disconnect<C>(
    before: Map<u64, C>,
    results: Seq<(ClientId, Result<(), std::io::Error>)>,
)
    ensures
        forall|i: int|
            0 <= i < send_failures(results).len() ==> !before.remove_keys(
                failed_ids(results),
            ).contains_key(#[trigger] send_failures(results)[i].0.0),
        forall|k: u64|
            #[trigger] before.contains_key(k) && !failed_ids(results).contains(k) ==> before.remove_keys(
                failed_ids(results),
            ).contains_key(k) && before.remove_keys(failed_ids(results))[k] == before[k],
        send_failures(results).len() == 0 <==> failed_ids(results).is_empty(),
{
    lemma_send_failures_name_failed(results);
}

/// Each error of a broadcast names a client whose send failed, and a broadcast
/// reports no error exactly when no send failed.
proof fn lemma_send_failures_name_failed(results: Seq<(ClientId, Result<(), std::io::Error>)>)
    ensures
        forall|i: int|
            0 <= i < send_failures(results).len() ==> failed_ids(results).contains(
                #[trigger] send_failures(results)[i].0.0,
            ),
        send_failures(results).len() == 0 <==> failed_ids(results).is_empty(),
    decreases results.len(),
{
    if results.len() > 0 {
        let prefix = results.drop_last();
        lemma_send_failures_name_failed(prefix);
        assert forall|i: int|
            0 <= i < send_failures(results).len() implies failed_ids(results).contains(
                #[trigger] send_failures(results)[i].0.0,
            ) by {
            if i < send_failures(prefix).len() {
                let k = send_failures(prefix)[i].0.0;
                assert(failed_ids(prefix).contains(k));
                let j = choose|j: int|
                    0 <= j < prefix.len() && prefix[j].0.0 == k && #[trigger] prefix[j].1 is Err;
                assert(results[j] == prefix[j]);
            } else {
                assert(results[results.len() - 1].1 is Err);
            }
        }
        if results.last().1 is Err {
            assert(failed_ids(results).contains(results.last().0.0));
        } else if send_failures(results).len() == 0 {
            assert forall|k: u64| !failed_ids(results).contains(k) by {
                if failed_ids(results).contains(k) {
                    let j = choose|j: int|
                        0 <= j < results.len() && results[j].0.0 == k && #[trigger] results[j].1 is Err;
                    assert(prefix[j] == results[j]);
                    assert(failed_ids(prefix).contains(k));
                }
            }
            assert(failed_ids(results) =~= Set::<u64>::empty());
        } else {
            let k = send_failures(prefix)[0].0.0;
            assert(failed_ids(prefix).contains(k));
            let j = choose|j: int|
                0 <= j < prefix.len() && prefix[j].0.0 == k && #[trigger] prefix[j].1 is Err;
            assert(results[j] == prefix[j]);
            assert(failed_ids(results).contains(k));
        }
    } else {
        assert(failed_ids(results) =~= Set::<u64>::empty());
    }
}

/// Disconnecting a client that has just connected gives back the registry as
/// it stood before the connection.
pub proof fn law_disconnect_undoes_connection<C>(before: Map<u64, C>, id: ClientId, conn: C)
    requires
        !before.contains_key(id.0),
    ensures
        before.insert(id.0, conn).remove(id.0) == before,
{
    assert(before.insert(id.0, conn).remove(id.0) =~= before);
}

/// A client that has been disconnected, whether by request or because reading
/// from it, serializing a message for it, or sending to it failed, is not connected: a second disconnection of it
/// is refused, and sending to it finds no connection.
pub proof fn law_disconnected_client_is_gone<C>(before: Map<u64, C>, id: ClientId)
    ensures
        !before.remove(id.0).contains_key(id.0),
        forall|k: u64| k != id.0 ==> (#[trigger] before.remove(id.0).contains_key(k) <==> before.contains_key(k)),
{
}

/// Over any run of a server, a client is connected at the end only if it was
/// connected at the start or came in through a new connection along the way.
///
/// `clients[i]` are the identifiers connected before step `i`, and `joined[i]`
/// the identifier that step `i` reported as a new connection, if it did. Each
/// operation's contract gives one step: `on_connection` with a `NewConnection`
/// inserts its identifier; every other operation (a failed accept, a frame,
/// a send, a broadcast, a disconnection) keeps a subset.
pub proof fn law_clients_only_join_by_connection(clients: Seq<Set<u64>>, joined: Seq<Option<u64>>)
    requires
        clients.len() == joined.len() + 1,
        forall|i: int|
            0 <= i < joined.len() ==> match #[trigger] joined[i] {
                Some(k) => clients[i + 1] == clients[i].insert(k),
                None => clients[i + 1].subset_of(clients[i]),
            },
    ensures
        forall|k: u64|
            #[trigger] clients.last().contains(k) ==> clients[0].contains(k) || exists|i: int|
                0 <= i < joined.len() && joined[i] == Some(k),
    decreases joined.len(),
{
    if joined.len() > 0 {
        let n = joined.len() - 1;
        law_clients_only_join_by_connection(clients.drop_last(), joined.drop_last());
        assert forall|k: u64| #[trigger] clients.last().contains(k) implies clients[0].contains(k)
            || exists|i: int| 0 <= i < joined.len() && joined[i] == Some(k) by {
            let prev = clients.drop_last();
            assert(prev.last() == clients[n]);
            assert(clients.last() == clients[n + 1]);
            let j = joined[n];
            if j == Some(k) {
            } else {
                assert(clients[n].contains(k));
                if !clients[0].contains(k) {
                    assert(prev[0] == clients[0]);
                    let i = choose|i: int| 0 <= i < joined.drop_last().len() && joined.drop_last()[i] == Some(k);
                    assert(joined[i] == Some(k));
                }
            }
        }
    }
}

/// Whether `c` is a lower-case hexadecimal digit: `'0'`..`'9'` or `'a'`..`'f'`.
pub open spec fn is_lower_hex_digit(c: char) -> bool {
    ('0' as int <= c as int <= '9' as int) || ('a' as int <= c as int <= 'f' as int)
}

/// The value of a lower-case hexadecimal digit character, by its code point:
/// `'0'`..`'9'` count from 0, `'a'`..`'f'` from 10.
pub open spec fn hex_digit_value(c: char) -> int {
    if c as int <= '9' as int {
        c as int - '0' as int
    } else {
        c as int - 'a' as int + 10
    }
}

/// The number that a string of hexadecimal digits denotes, read base 16.
pub open spec fn hex_value(s: Seq<char>) -> int
    decreases s.len(),
{
    if s.len() == 0 {
        0
    } else {
        hex_value(s.drop_last()) * 16 + hex_digit_value(s.last())
    }
}

/// The digits of `n` read back give `n`, and the first of them is not `0`
/// unless `n` is.
proof fn lemma_hex_digits_read_back(n: nat)
    ensures
        hex_value(hex_digits(n)) == n,
        hex_digits(n).len() > 0,
        n > 0 ==> hex_digits(n)[0] != '0',
    decreases n,
{
    assert(hex_digit_value(hex_digit(n % 16)) == n % 16);
    if n >= 16 {
        lemma_hex_digits_read_back(n / 16);
        assert(hex_digits(n).drop_last() =~= hex_digits(n / 16));
        assert(hex_digits(n).last() == hex_digit(n % 16));
        assert(n == (n / 16) * 16 + n % 16);
        assert(hex_value(hex_digits(n)) == hex_value(hex_digits(n / 16)) * 16 + hex_digit_value(
            hex_digit(n % 16),
        ));
        assert(hex_digits(n)[0] == hex_digits(n / 16)[0]);
    } else {
        assert(hex_digits(n).drop_last() =~= Seq::<char>::empty());
        assert(hex_value(Seq::<char>::empty()) == 0);
        assert(hex_digits(n).last() == hex_digit(n % 16));
    }
}

/// Each digit of `n` is a lower-case hexadecimal digit, and the one at
/// position `k` (counting from the most significant) is the base-16 digit of
/// `n` of weight `16^(len - 1 - k)`; all of `n` fits in that many digits.
proof fn lemma_hex_digits_positions(n: nat)
    ensures
        forall|k: int|
            0 <= k < hex_digits(n).len() ==> is_lower_hex_digit(#[trigger] hex_digits(n)[k])
                && hex_digit_value(hex_digits(n)[k]) == (n as int / pow(
                16,
                (hex_digits(n).len() - 1 - k) as nat,
            )) % 16,
        n < pow(16, hex_digits(n).len()),
    decreases n,
{
    reveal(pow);
    let t = hex_digits(n);
    assert(is_lower_hex_digit(hex_digit(n % 16)) && hex_digit_value(hex_digit(n % 16)) == n % 16);
    if n >= 16 {
        let q = n / 16;
        lemma_hex_digits_positions(q);
        let u = hex_digits(q);
        assert(t =~= u.push(hex_digit(n % 16)));
        assert forall|k: int| 0 <= k < t.len() implies is_lower_hex_digit(#[trigger] t[k])
            && hex_digit_value(t[k]) == (n as int / pow(16, (t.len() - 1 - k) as nat)) % 16 by {
            if k < u.len() {
                assert(t[k] == u[k]);
                let e = (u.len() - 1 - k) as nat;
                assert((t.len() - 1 - k) as nat == e + 1);
                assert(pow(16, e + 1) == 16 * pow(16, e));
                vstd::arithmetic::power::lemma_pow_positive(16, e);
                vstd::arithmetic::div_mod::lemma_div_denominator(n as int, 16, pow(16, e));
                assert(q as int / pow(16, e) == n as int / pow(16, e + 1));
            } else {
                assert(k == u.len());
                assert(pow(16, 0) == 1);
                assert(t[k] == hex_digit(n % 16));
            }
        }
        assert(pow(16, t.len()) == 16 * pow(16, u.len()));
        assert(n == 16 * q + n % 16);
    } else {
        assert(t.len() == 1);
        assert(t[0] == hex_digit(n % 16));
        assert(pow(16, 0) == 1);
        assert(pow(16, 1) == 16 * pow(16, 0));
    }
}

/// The text of a client identifier is `0x` followed by digits, each one of
/// `'0'`..`'9'` or `'a'`..`'f'`, where the digit at each position is the
/// identifier's base-16 digit of that position's weight, with no leading zero
/// unless the identifier is `0`; the digits read back, base 16, as the
/// identifier, so two identifiers are written alike exactly when they are
/// equal.
pub proof fn law_client_id_text(a: ClientId, b: ClientId)
    ensures
        ({
            let t = seq!['0', 'x'] + hex_digits(a.0 as nat);
            &&& t.len() > 2
            &&& t[0] == '0' && t[1] == 'x'
            &&& forall|k: int|
                2 <= k < t.len() ==> is_lower_hex_digit(#[trigger] t[k]) && hex_digit_value(t[k]) == (
                a.0 as int / pow(16, (t.len() - 1 - k) as nat)) % 16
            &&& a.0 < pow(16, (t.len() - 2) as nat)
            &&& a.0 > 0 ==> t[2] != '0'
        }),
        hex_value(hex_digits(a.0 as nat)) == a.0,
        (seq!['0', 'x'] + hex_digits(a.0 as nat) == seq!['0', 'x'] + hex_digits(b.0 as nat)) <==> a == b,
{
    lemma_hex_digits_read_back(a.0 as nat);
    lemma_hex_digits_read_back(b.0 as nat);
    lemma_hex_digits_positions(a.0 as nat);
    let d = hex_digits(a.0 as nat);
    let t = seq!['0', 'x'] + d;
    assert forall|k: int| 2 <= k < t.len() implies is_lower_hex_digit(#[trigger] t[k]) && hex_digit_value(
        t[k],
    ) == (a.0 as int / pow(16, (t.len() - 1 - k) as nat)) % 16 by {
        assert(t[k] == d[k - 2]);
        assert((t.len() - 1 - k) as nat == (d.len() - 1 - (k - 2)) as nat);
    }
    assert(t[2] == d[0]);
    let tb = seq!['0', 'x'] + hex_digits(b.0 as nat);
    if t == tb {
        assert(t.skip(2) =~= hex_digits(a.0 as nat));
        assert(tb.skip(2) =~= hex_digits(b.0 as nat));
    }
}

/// The positions in `results` of the sends that failed, in increasing order.
spec fn failed_positions(results: Seq<(ClientId, Result<(), std::io::Error>)>) -> Seq<int>
    decreases results.len(),
{
    if results.len() == 0 {
        Seq::empty()
    } else {
        let rest = failed_positions(results.drop_last());
        if results.last().1 is Err {
            rest.push(results.len() - 1)
        } else {
            rest
        }
    }
}

/// The errors of a broadcast line up, one for one and in order, with the
/// positions of the failed sends.
proof fn lemma_failed_positions(results: Seq<(ClientId, Result<(), std::io::Error>)>)
    ensures
        failed_positions(results).len() == send_failures(results).len(),
        forall|j: int|
            0 <= j < failed_positions(results).len() ==> {
                &&& 0 <= #[trigger] failed_positions(results)[j] < results.len()
                &&& results[failed_positions(results)[j]].1 is Err
                &&& send_failures(results)[j] == (results[failed_positions(results)[j]].0, ServerError::SendFrame(results[failed_positions(results)[j]].1->Err_0))
            },
        forall|j: int, k: int|
            0 <= j < k < failed_positions(results).len() ==> failed_positions(results)[j]
                < failed_positions(results)[k],
        forall|i: int|
            0 <= i < results.len() && #[trigger] results[i].1 is Err ==> exists|j: int|
                0 <= j < failed_positions(results).len() && failed_positions(results)[j] == i,
    decreases results.len(),
{
    if results.len() > 0 {
        let prefix = results.drop_last();
        lemma_failed_positions(prefix);
        let fp = failed_positions(results);
        let pp = failed_positions(prefix);
        assert forall|j: int| 0 <= j < fp.len() implies {
            &&& 0 <= #[trigger] fp[j] < results.len()
            &&& results[fp[j]].1 is Err
            &&& send_failures(results)[j] == (results[fp[j]].0, ServerError::SendFrame(results[fp[j]].1->Err_0))
        } by {
            if j < pp.len() {
                let i = pp[j];
                assert(prefix[i] == results[i]);
            }
        }
        assert forall|i: int| 0 <= i < results.len() && #[trigger] results[i].1 is Err implies exists|j: int|
            0 <= j < fp.len() && fp[j] == i by {
            if i < results.len() - 1 {
                assert(prefix[i] == results[i]);
                assert(prefix[i].1 is Err);
                let j = choose|j: int| 0 <= j < pp.len() && pp[j] == i;
                assert(fp[j] == i);
            } else {
                assert(fp[fp.len() - 1] == i);
            }
        }
    }
}

/// `errors` are, one for one and in order, the failed sends of `results` at
/// the increasing `positions`: each entry carries the identifier of the client
/// whose send failed and that send's error, and every failed send has its
/// entry.
pub open spec fn reports_failures_at(
    results: Seq<(ClientId, Result<(), std::io::Error>)>,
    errors: Seq<(ClientId, ServerError)>,
    positions: Seq<int>,
) -> bool {
    &&& positions.len() == errors.len()
    &&& forall|j: int|
        0 <= j < positions.len() ==> {
            &&& 0 <= #[trigger] positions[j] < results.len()
            &&& results[positions[j]].1 is Err
            &&& errors[j] == (results[positions[j]].0, ServerError::SendFrame(results[positions[j]].1->Err_0))
        }
    &&& forall|j: int, k: int| 0 <= j < k < positions.len() ==> positions[j] < positions[k]
    &&& forall|i: int|
        0 <= i < results.len() && #[trigger] results[i].1 is Err ==> exists|j: int|
            0 <= j < positions.len() && positions[j] == i
}

/// A broadcast reports every failed send and nothing else: its errors are, in
/// the order of `results`, exactly one `SendFrame` entry for each client whose
/// send failed, carrying that client's identifier and its error.
pub proof fn law_broadcast_reports_every_failure(results: Seq<(ClientId, Result<(), std::io::Error>)>)
    ensures
        exists|positions: Seq<int>| #[trigger] reports_failures_at(results, send_failures(results), positions),
{
    lemma_failed_positions(results);
    assert(reports_failures_at(results, send_failures(results), failed_positions(results)));
}

} // verus!
