//! The signalling server: a registry of open rooms, each room's host with the queue of
//! joiners waiting for an answer, and the response to a join request.

use vstd::prelude::*;
use std::collections::VecDeque;
use crate::keyed_map::KeyedMap;

verus! {

/// Whether a character is one of nanoid's URL-safe symbols: `A-Z`, `a-z`, `0-9`, `_`, `~`.
pub open spec fn is_safe_symbol(c: char) -> bool {
    ('A' <= c <= 'Z') || ('a' <= c <= 'z') || ('0' <= c <= '9') || c == '_' || c == '~'
}

/// A fresh room id from nanoid's `simple`, which draws 21 random bytes from the operating
/// system and maps each, modulo 64, to one of its 64 URL-safe symbols. Which symbols come
/// out is chance; `simple` panics only when the operating system's random source cannot be
/// opened.
#[verifier::external_body]
fn new_room_id() -> (id: String)
    ensures
        id@.len() == 21,
        forall|i: int| 0 <= i < 21 ==> #[trigger] is_safe_symbol(id@[i]),
{
    nanoid::simple()
}

/// The open rooms by id, each with the address of its host.
pub struct RoomRegistry<H> {
    rooms: KeyedMap<String, H>,
}

impl<H> View for RoomRegistry<H> {
    type V = Map<Seq<char>, H>;

    closed spec fn view(&self) -> Map<Seq<char>, H> {
        self.rooms@
    }
}

impl<H> RoomRegistry<H> {
    pub closed spec fn wf(&self) -> bool {
        self.rooms.wf()
    }

    /// A registry with no rooms.
    pub fn new() -> (registry: Self)
        ensures
            registry.wf(),
            registry@ == Map::<Seq<char>, H>::empty(),
    {
        RoomRegistry { rooms: KeyedMap::new() }
    }

    /// A host opened a room: the room's id now leads to the host.
    pub fn host_connect(&mut self, id: String, host: H)
        requires
            old(self).wf(),
        ensures
            final(self).wf(),
            final(self)@ == old(self)@.insert(id@, host),
    {
        let _replaced = self.rooms.insert(id, host);
    }

    /// A host closed its room: the room's id leads nowhere.
    pub fn host_disconnect(&mut self, id: &String)
        requires
            old(self).wf(),
        ensures
            final(self).wf(),
            final(self)@ == old(self)@.remove(id@),
    {
        let _removed = self.rooms.remove(id);
    }

    /// The host of a room, if the room is open.
    pub fn get_host(&self, id: &String) -> (host: Option<&H>)
        requires
            self.wf(),
        ensures
            match host {
                Some(h) => self@.contains_key(id@) && *h == self@[id@],
                None => !self@.contains_key(id@),
            },
    {
        self.rooms.get(id)
    }
}

/// Law: a joiner looking up a room finds the host that opened it last, and finds nothing
/// once that host has closed it; rooms under other ids are not affected.
pub proof fn lemma_registry_lookup<H>(rooms: Map<Seq<char>, H>, id: Seq<char>, other: Seq<char>, host: H)
    requires
        other != id,
    ensures
        rooms.insert(id, host).contains_key(id) && rooms.insert(id, host)[id] == host,
        !rooms.insert(id, host).remove(id).contains_key(id),
        rooms.insert(id, host).contains_key(other) == rooms.contains_key(other),
        rooms.remove(id).contains_key(other) == rooms.contains_key(other),
        rooms.contains_key(other) ==> rooms.insert(id, host)[other] == rooms[other] && rooms.remove(id)[other] == rooms[other],
{
}

/// A message on a host's web socket.
#[derive(Debug)]
pub enum HostSocketMessage {
    Ping(Vec<u8>),
    Text(String),
    Other,
}

/// What a room host does with a socket message.
#[derive(Debug)]
pub enum HostSocketAction<T> {
    /// Answer a ping with a pong carrying the same bytes.
    Pong(Vec<u8>),
    /// Hand the host's answer to the joiner that has waited longest.
    Answer(T, String),
    /// Nothing.
    Ignore,
}

/// A room's host: the room's id, the registry it is listed in, and the joiners that have sent
/// an offer and wait for the host's answer, oldest first.
pub struct RoomHost<T, R> {
    answer_queue: VecDeque<T>,
    id: String,
    registry_address: R,
}

impl<T, R> RoomHost<T, R> {
    /// The joiners waiting for an answer, oldest first.
    pub closed spec fn spec_waiting(&self) -> Seq<T> {
        self.answer_queue@
    }

    /// The room's id.
    pub closed spec fn spec_id(&self) -> Seq<char> {
        self.id@
    }

    /// The registry the room is listed in.
    pub closed spec fn spec_registry(&self) -> R {
        self.registry_address
    }

    /// A host for a new room under a fresh random id, with nobody waiting.
    pub fn new(registry_address: R) -> (host: Self)
        ensures
            host.spec_waiting() == Seq::<T>::empty(),
            host.spec_id().len() == 21,
            forall|i: int| 0 <= i < 21 ==> #[trigger] is_safe_symbol(host.spec_id()[i]),
            host.spec_registry() == registry_address,
    {
        RoomHost { answer_queue: VecDeque::new(), id: new_room_id(), registry_address }
    }

    /// The room's id.
    pub fn id(&self) -> (id: &String)
        ensures
            id@ == self.spec_id(),
    {
        &self.id
    }

    /// The registry the room is listed in.
    pub fn registry_address(&self) -> (registry: &R)
        ensures
            *registry == self.spec_registry(),
    {
        &self.registry_address
    }

    /// How many joiners wait for an answer.
    pub fn waiting_len(&self) -> (count: usize)
        ensures
            count == self.spec_waiting().len(),
    {
        self.answer_queue.len()
    }

    /// A joiner sent an offer: the offer is passed to the host and the joiner waits behind
    /// the others.
    pub fn on_offer(&mut self, offer: String, waiter: T) -> (to_host: String)
        ensures
            to_host == offer,
            final(self).spec_waiting() == old(self).spec_waiting().push(waiter),
            final(self).spec_id() == old(self).spec_id(),
            final(self).spec_registry() == old(self).spec_registry(),
    {
        self.answer_queue.push_back(waiter);
        offer
    }

    /// Handles a message from the host's socket: a ping is answered with a pong, a text is
    /// the answer for the joiner that has waited longest (there must be one), and anything
    /// else is ignored.
    pub fn on_socket_message(&mut self, message: HostSocketMessage) -> (action: HostSocketAction<T>)
        requires
            message is Text ==> old(self).spec_waiting().len() > 0,
        ensures
            final(self).spec_id() == old(self).spec_id(),
            final(self).spec_registry() == old(self).spec_registry(),
            match message {
                HostSocketMessage::Ping(bytes) => action matches HostSocketAction::Pong(b) && b@ == bytes@
                    && final(self).spec_waiting() == old(self).spec_waiting(),
                HostSocketMessage::Text(answer) => action matches HostSocketAction::Answer(w, a)
                    && w == old(self).spec_waiting()[0] && a == answer
                    && final(self).spec_waiting() == old(self).spec_waiting().drop_first(),
                HostSocketMessage::Other => action is Ignore
                    && final(self).spec_waiting() == old(self).spec_waiting(),
            },
    {
        match message {
            HostSocketMessage::Ping(bytes) => HostSocketAction::Pong(bytes),
            HostSocketMessage::Text(answer) => {
                let waiter = self.answer_queue.pop_front();
                match waiter {
                    Some(w) => HostSocketAction::Answer(w, answer),
                    None => HostSocketAction::Ignore,
                }
            },
            HostSocketMessage::Other => HostSocketAction::Ignore,
        }
    }
}

/// What happens at a room host, as far as its waiting line is concerned.
pub enum HostEvent<T> {
    /// A joiner sent an offer and waits.
    Offer(T),
    /// The host answered.
    Answer,
}

/// The joiners of the offers among the events, in order.
pub open spec fn offered<T>(events: Seq<HostEvent<T>>) -> Seq<T>
    decreases events.len(),
{
    if events.len() == 0 {
        seq![]
    } else {
        match events.last() {
            HostEvent::Offer(t) => offered(events.drop_last()).push(t),
            HostEvent::Answer => offered(events.drop_last()),
        }
    }
}

/// The waiting line and the joiners answered so far, after the events happen in order, each
/// as `on_offer` and `on_socket_message` carry it out: an offer joins the back of the line,
/// and an answer goes to the joiner at its front, who leaves it.
pub open spec fn replay<T>(events: Seq<HostEvent<T>>) -> (Seq<T>, Seq<T>)
    decreases events.len(),
{
    if events.len() == 0 {
        (seq![], seq![])
    } else {
        let (waiting, answered) = replay(events.drop_last());
        match events.last() {
            HostEvent::Offer(t) => (waiting.push(t), answered),
            HostEvent::Answer => (waiting.drop_first(), answered.push(waiting[0])),
        }
    }
}

/// Every answer comes while somebody waits, as `on_socket_message` requires.
pub open spec fn answers_awaited<T>(events: Seq<HostEvent<T>>) -> bool
    decreases events.len(),
{
    events.len() == 0 || (answers_awaited(events.drop_last())
        && (events.last() is Answer ==> replay(events.drop_last()).0.len() > 0))
}

/// Law: answers reach joiners in the order their offers arrived. Starting with nobody
/// waiting, the joiners answered so far followed by those still waiting are exactly the
/// joiners of the offers, in order.
pub proof fn lemma_answers_in_offer_order<T>(events: Seq<HostEvent<T>>)
    requires
        answers_awaited(events),
    ensures
        replay(events).1 + replay(events).0 == offered(events),
    decreases events.len(),
{
    if events.len() > 0 {
        let prefix = events.drop_last();
        lemma_answers_in_offer_order(prefix);
        let (waiting, answered) = replay(prefix);
        match events.last() {
            HostEvent::Offer(t) => {
                assert(answered + waiting.push(t) =~= (answered + waiting).push(t));
            },
            HostEvent::Answer => {
                assert(answered.push(waiting[0]) + waiting.drop_first() =~= answered + waiting);
            },
        }
    }
}

/// How a join request went.
#[derive(Debug, PartialEq, Eq)]
pub enum JoinOutcome {
    /// The room registry could not be asked.
    RegistryUnavailable,
    /// No open room has the requested id.
    RoomNotFound,
    /// The room's host could not be reached.
    HostUnavailable,
    /// The host went away without answering.
    NoAnswer,
    /// The host answered the offer.
    Answer(String),
}

/// The body of the response to a join request for a room that is not open.
pub open spec fn room_not_found_text() -> Seq<char> {
    "Room with given id not found"@
}

/// The HTTP status and body of the response to a join request: the host's answer with 200,
/// 404 with an explanation when the room is not open, and an empty 500 otherwise.
pub fn join_response(outcome: JoinOutcome) -> (response: (u16, String))
    ensures
        match outcome {
            JoinOutcome::Answer(text) => response.0 == 200 && response.1 == text,
            JoinOutcome::RoomNotFound => response.0 == 404 && response.1@ == room_not_found_text(),
            _ => response.0 == 500 && response.1@ == Seq::<char>::empty(),
        },
{
    match outcome {
        JoinOutcome::Answer(text) => (200, text),
        JoinOutcome::RoomNotFound => {
            let body = "Room with given id not found".to_string();
            proof {
                vstd::string::to_string_from_display_ensures_for_str("Room with given id not found", body);
            }
            (404, body)
        },
        _ => (500, String::new()),
    }
}

} // verus!
