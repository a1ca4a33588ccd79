//! Signaling rooms: for each transfer at most one sender and one receiver,
//! who pass each other the messages that set up a direct connection.
//!
//! A peer is known by the number of its connection and by the sink that
//! takes what is sent to it. The sink's type is the caller's: the registry
//! keeps it and hands it out, and never looks inside.

use crate::db::{MetaInfo, MetaView, SlotState};
use crate::handler::{after_claim, meta_put, MetaMap};
use crate::keyed::{
    distinct, index_of, lemma_model_absent, lemma_model_at, lemma_model_push,
    lemma_model_remove, model_of, position, Slot,
};
use crate::memdb::MemDB;
use crate::text::same_text;
use vstd::prelude::*;

verus! {

/// The side of a transfer that a peer is on.
#[derive(Clone, Copy, Debug, PartialEq, Eq, Structural)]
pub enum Role {
    Sender,
    Receiver,
}

impl Role {
    /// The role that `input` names: `sender` or `receiver`, and nothing else.
    pub open spec fn named(input: Seq<char>) -> Option<Role> {
        if input == "sender"@ {
            Some(Role::Sender)
        } else if input == "receiver"@ {
            Some(Role::Receiver)
        } else {
            None
        }
    }

    /// The other side.
    pub open spec fn opposite(self) -> Role {
        match self {
            Role::Sender => Role::Receiver,
            Role::Receiver => Role::Sender,
        }
    }

    /// Reads a role's name.
    pub fn parse(input: &str) -> (role: Option<Self>)
        ensures
            role == Self::named(input@),
    {
        if same_text(input, "sender") {
            Some(Role::Sender)
        } else if same_text(input, "receiver") {
            Some(Role::Receiver)
        } else {
            None
        }
    }

    /// Computes `opposite`.
    pub fn other(self) -> (role: Self)
        ensures
            role == self.opposite(),
    {
        match self {
            Role::Sender => Role::Receiver,
            Role::Receiver => Role::Sender,
        }
    }
}

/// A connected peer: the number of its connection, and the sink that takes
/// what is sent to it.
pub struct Peer<S> {
    pub id: u64,
    pub tx: S,
}

/// The two places of a room.
pub struct Room<S> {
    pub sender: Option<Peer<S>>,
    pub receiver: Option<Peer<S>>,
}

impl<S> Room<S> {
    /// A room with nobody in it.
    pub open spec fn vacant() -> Room<S> {
        Room { sender: None, receiver: None }
    }

    /// Whether nobody is in the room.
    pub open spec fn is_vacant(self) -> bool {
        self.sender is None && self.receiver is None
    }

    /// Who has the place of `role`.
    pub open spec fn occupant(self, role: Role) -> Option<Peer<S>> {
        match role {
            Role::Sender => self.sender,
            Role::Receiver => self.receiver,
        }
    }

    /// The room with `peer` in the place of `role`.
    pub open spec fn with_peer(self, role: Role, peer: Option<Peer<S>>) -> Room<S> {
        match role {
            Role::Sender => Room { sender: peer, receiver: self.receiver },
            Role::Receiver => Room { sender: self.sender, receiver: peer },
        }
    }

    /// Whether nobody is in the room.
    pub fn is_empty(&self) -> (empty: bool)
        ensures
            empty == self.is_vacant(),
    {
        self.sender.is_none() && self.receiver.is_none()
    }

    fn place(self, role: Role, peer: Option<Peer<S>>) -> (room: Self)
        ensures
            room == self.with_peer(role, peer),
    {
        match role {
            Role::Sender => Room { sender: peer, receiver: self.receiver },
            Role::Receiver => Room { sender: self.sender, receiver: peer },
        }
    }

    fn occupant_id(&self, role: Role) -> (id: Option<u64>)
        ensures
            id == match self.occupant(role) {
                Some(peer) => Some(peer.id),
                None => None,
            },
    {
        let place = match role {
            Role::Sender => &self.sender,
            Role::Receiver => &self.receiver,
        };
        match place {
            Some(peer) => Some(peer.id),
            None => None,
        }
    }
}

/// The rooms as a mathematical value: from a room's name to its two places.
pub type RoomMap<S> = Map<Seq<char>, Room<S>>;

/// Who has the place of `role` in the room `room_id`: nobody where there is
/// no such room.
pub open spec fn occupant_of<S>(rooms: RoomMap<S>, room_id: Seq<char>, role: Role) -> Option<
    Peer<S>,
> {
    if rooms.contains_key(room_id) {
        rooms[room_id].occupant(role)
    } else {
        None
    }
}

/// The room `room_id` as it stands: vacant where there is no such room.
pub open spec fn room_of<S>(rooms: RoomMap<S>, room_id: Seq<char>) -> Room<S> {
    if rooms.contains_key(room_id) {
        rooms[room_id]
    } else {
        Room::vacant()
    }
}

/// The rooms with `room` under `room_id`; a vacant room is not kept.
pub open spec fn with_room<S>(rooms: RoomMap<S>, room_id: Seq<char>, room: Room<S>) -> RoomMap<S> {
    if room.is_vacant() {
        rooms.remove(room_id)
    } else {
        rooms.insert(room_id, room)
    }
}

/// Whether no room is kept with nobody in it.
pub open spec fn no_vacant_room<S>(rooms: RoomMap<S>) -> bool {
    forall|k: Seq<char>| rooms.contains_key(k) ==> !(#[trigger] rooms[k]).is_vacant()
}

/// The rooms after the connection `peer_id` has left the place of `role` in
/// `room_id`: the place is cleared if that connection has it, and only then.
pub open spec fn after_leave<S>(rooms: RoomMap<S>, room_id: Seq<char>, role: Role, peer_id: u64)
    -> RoomMap<S> {
    match occupant_of(rooms, room_id, role) {
        Some(peer) => if peer.id == peer_id {
            with_room(rooms, room_id, rooms[room_id].with_peer(role, None))
        } else {
            rooms
        },
        None => rooms,
    }
}

/// Whether somebody is in the room of every slot.
spec fn all_occupied<S>(slots: Seq<Slot<Room<S>>>) -> bool {
    forall|i: int| 0 <= i < slots.len() ==> !(#[trigger] slots[i]).value.is_vacant()
}

/// Where somebody is in the room of every slot, the map holds no vacant room.
proof fn lemma_occupied_model<S>(slots: Seq<Slot<Room<S>>>)
    requires
        distinct(slots),
        all_occupied(slots),
    ensures
        no_vacant_room(model_of(slots)),
{
    assert forall|k: Seq<char>| model_of(slots).contains_key(k) implies !(#[trigger] model_of(
        slots,
    )[k]).is_vacant() by {
        let i = index_of(slots, k);
        lemma_model_at(slots, i);
    }
}

/// The registry of rooms.
pub struct Rooms<S> {
    slots: Vec<Slot<Room<S>>>,
}

impl<S> View for Rooms<S> {
    type V = Map<Seq<char>, Room<S>>;

    closed spec fn view(&self) -> Map<Seq<char>, Room<S>> {
        model_of(self.slots@)
    }
}

impl<S> Rooms<S> {
    /// No room is held twice, and none with nobody in it.
    #[verifier::type_invariant]
    spec fn well_formed(self) -> bool {
        distinct(self.slots@) && all_occupied(self.slots@)
    }

    /// No rooms.
    pub fn new() -> (rooms: Self)
        ensures
            rooms@ == Map::<Seq<char>, Room<S>>::empty(),
    {
        let rooms = Rooms { slots: Vec::new() };
        assert(rooms@ =~= Map::<Seq<char>, Room<S>>::empty());
        rooms
    }

    /// Moves the slots out, leaving no rooms, so that they can be changed
    /// and put back in one assignment.
    fn take_slots(&mut self) -> (slots: Vec<Slot<Room<S>>>)
        ensures
            slots == old(self).slots,
            final(self).slots@.len() == 0,
    {
        let mut slots = Vec::new();
        core::mem::swap(&mut self.slots, &mut slots);
        slots
    }

    /// Puts the peer into the place of `role` in the room `room_id`, unless
    /// the place is taken. A room that is not there yet is opened. Returns
    /// whether the peer has the place now; where it has not, nothing is
    /// changed.
    pub fn register_peer(&mut self, room_id: &str, role: Role, peer_id: u64, tx: S) -> (joined:
        bool)
        ensures
            joined == (occupant_of(old(self)@, room_id@, role) is None),
            joined ==> final(self)@ == old(self)@.insert(
                room_id@,
                room_of(old(self)@, room_id@).with_peer(role, Some(Peer { id: peer_id, tx })),
            ),
            !joined ==> final(self)@ == old(self)@,
            no_vacant_room(final(self)@),
    {
        proof {
            use_type_invariant(&*self);
            lemma_occupied_model(self.slots@);
        }
        let peer = Peer { id: peer_id, tx };
        match position(&self.slots, room_id) {
            Some(i) => {
                proof {
                    lemma_model_at(self.slots@, i as int);
                    lemma_model_remove(self.slots@, i as int);
                }
                if self.slots[i].value.occupant_id(role).is_some() {
                    return false;
                }
                let mut slots = self.take_slots();
                let slot = slots.remove(i);
                let changed = Slot { key: slot.key, value: slot.value.place(role, Some(peer)) };
                proof {
                    lemma_model_push(slots@, changed);
                    assert(model_of(slots@.push(changed)) =~= model_of(old(self).slots@).insert(
                        room_id@,
                        changed.value,
                    ));
                    lemma_all_occupied_push(old(self).slots@, i as int, changed);
                }
                slots.push(changed);
                self.slots = slots;
            },
            None => {
                let opened = Slot {
                    key: room_id.to_owned(),
                    value: Room { sender: None, receiver: None }.place(role, Some(peer)),
                };
                proof {
                    lemma_model_absent(self.slots@, room_id@);
                    lemma_model_push(self.slots@, opened);
                    assert(all_occupied(self.slots@.push(opened))) by {
                        let grown = self.slots@.push(opened);
                        assert forall|j: int| 0 <= j < grown.len() implies !(#[trigger] grown[j]).value.is_vacant() by {
                            if j < self.slots@.len() {
                                assert(grown[j] == self.slots@[j]);
                            }
                        }
                    }
                }
                let mut slots = self.take_slots();
                slots.push(opened);
                self.slots = slots;
            },
        }
        proof {
            lemma_occupied_model(self.slots@);
        }
        true
    }

    /// Clears the place of `role` in the room `room_id`, if the connection
    /// `peer_id` has it: a peer that has joined since in the same role stays.
    /// A room that is left with nobody in it is closed.
    pub fn unregister_peer(&mut self, room_id: &str, role: Role, peer_id: u64)
        ensures
            final(self)@ == after_leave(old(self)@, room_id@, role, peer_id),
            no_vacant_room(final(self)@),
    {
        proof {
            use_type_invariant(&*self);
            lemma_occupied_model(self.slots@);
        }
        match position(&self.slots, room_id) {
            Some(i) => {
                proof {
                    lemma_model_at(self.slots@, i as int);
                    lemma_model_remove(self.slots@, i as int);
                }
                let holds = match self.slots[i].value.occupant_id(role) {
                    Some(id) => id == peer_id,
                    None => false,
                };
                if holds {
                    let mut slots = self.take_slots();
                    let slot = slots.remove(i);
                    let room = slot.value.place(role, None);
                    proof {
                        lemma_all_occupied_remove(old(self).slots@, i as int);
                    }
                    if !room.is_empty() {
                        let changed = Slot { key: slot.key, value: room };
                        proof {
                            lemma_model_push(slots@, changed);
                            assert(model_of(slots@.push(changed)) =~= model_of(
                                old(self).slots@,
                            ).insert(room_id@, changed.value));
                            lemma_all_occupied_push(old(self).slots@, i as int, changed);
                        }
                        slots.push(changed);
                    }
                    self.slots = slots;
                }
            },
            None => {
                proof {
                    lemma_model_absent(self.slots@, room_id@);
                }
            },
        }
        proof {
            use_type_invariant(&*self);
            lemma_occupied_model(self.slots@);
        }
    }

    /// The sink of the peer on the other side of `role` in the room
    /// `room_id`: where a message from `role` goes. `None` where nobody is
    /// on the other side.
    pub fn forward_message(&self, room_id: &str, role: Role) -> (target: Option<&S>)
        ensures
            match target {
                Some(tx) => occupant_of(self@, room_id@, role.opposite()) matches Some(peer)
                    && peer.tx == *tx,
                None => occupant_of(self@, room_id@, role.opposite()) is None,
            },
    {
        proof {
            use_type_invariant(self);
        }
        match position(&self.slots, room_id) {
            Some(i) => {
                proof {
                    lemma_model_at(self.slots@, i as int);
                }
                let place = match role {
                    Role::Sender => &self.slots[i].value.receiver,
                    Role::Receiver => &self.slots[i].value.sender,
                };
                match place {
                    Some(peer) => Some(&peer.tx),
                    None => None,
                }
            },
            None => {
                proof {
                    lemma_model_absent(self.slots@, room_id@);
                }
                None
            },
        }
    }

    /// The number of the connection that has the place of `role` in the room
    /// `room_id`, if any has.
    pub fn occupant(&self, room_id: &str, role: Role) -> (id: Option<u64>)
        ensures
            id == match occupant_of(self@, room_id@, role) {
                Some(peer) => Some(peer.id),
                None => None,
            },
    {
        proof {
            use_type_invariant(self);
        }
        match position(&self.slots, room_id) {
            Some(i) => {
                proof {
                    lemma_model_at(self.slots@, i as int);
                }
                self.slots[i].value.occupant_id(role)
            },
            None => {
                proof {
                    lemma_model_absent(self.slots@, room_id@);
                }
                None
            },
        }
    }

    /// The number of rooms. None of them is vacant.
    pub fn len(&self) -> (count: usize)
        ensures
            count == self@.dom().len(),
            self@.dom().finite(),
            no_vacant_room(self@),
    {
        proof {
            use_type_invariant(self);
            crate::keyed::lemma_model_dom(self.slots@);
            lemma_occupied_model(self.slots@);
        }
        self.slots.len()
    }
}

/// Taking a slot out leaves somebody in the room of every slot.
proof fn lemma_all_occupied_remove<S>(slots: Seq<Slot<Room<S>>>, at: int)
    requires
        all_occupied(slots),
        0 <= at < slots.len(),
    ensures
        all_occupied(slots.remove(at)),
{
    let rest = slots.remove(at);
    assert forall|j: int| 0 <= j < rest.len() implies !(#[trigger] rest[j]).value.is_vacant() by {
        if j < at {
            assert(rest[j] == slots[j]);
        } else {
            assert(rest[j] == slots[j + 1]);
        }
    }
}

/// Putting a slot back with somebody in its room leaves somebody in the
/// room of every slot.
proof fn lemma_all_occupied_push<S>(slots: Seq<Slot<Room<S>>>, at: int, changed: Slot<Room<S>>)
    requires
        all_occupied(slots),
        0 <= at < slots.len(),
        !changed.value.is_vacant(),
    ensures
        all_occupied(slots.remove(at).push(changed)),
{
    lemma_all_occupied_remove(slots, at);
    let rest = slots.remove(at);
    let grown = rest.push(changed);
    assert forall|j: int| 0 <= j < grown.len() implies !(#[trigger] grown[j]).value.is_vacant() by {
        if j < rest.len() {
            assert(grown[j] == rest[j]);
        }
    }
}

/// The record of a transfer once its receiver's state is marked: the claim
/// flag as given; the holder as given, or nobody where the claim is dropped
/// and no holder is given, or as it was.
pub open spec fn marked(record: MetaView, is_using: bool, rid: Option<Seq<char>>) -> MetaView {
    MetaView {
        is_using,
        used_by: match rid {
            Some(rid) => rid,
            None => if is_using {
                record.used_by
            } else {
                Seq::empty()
            },
        },
        ..record
    }
}

/// Whether marking the receiver's state changes the transfer `room_id`: the
/// transfer must be known, and a claim is not dropped from a transfer that is
/// done.
pub open spec fn marks(meta: MetaMap, room_id: Seq<char>, is_using: bool) -> bool {
    meta.contains_key(room_id) && (is_using || !meta[room_id].value@.done)
}

/// Marks in the registry of transfers that the receiver of the transfer
/// `room_id` has joined (`is_using`, with its identity) or left. The
/// record's expiry stays as it was. Nothing is changed where the transfer is
/// unknown, or where the receiver leaves a transfer that is done.
pub fn mark_receiver_state(
    meta: &mut MemDB<MetaInfo>,
    room_id: &str,
    is_using: bool,
    rid: Option<&str>,
)
    ensures
        marks(old(meta)@, room_id@, is_using) ==> meta_put(
            old(meta)@,
            final(meta)@,
            room_id@,
            marked(
                old(meta)@[room_id@].value@,
                is_using,
                match rid {
                    Some(rid) => Some(rid@),
                    None => None,
                },
            ),
            old(meta)@[room_id@].exp,
        ),
        !marks(old(meta)@, room_id@, is_using) ==> final(meta)@ == old(meta)@,
{
    let (record, exp) = match meta.get(room_id) {
        None => {
            return ;
        },
        Some(entry) => {
            if !is_using && entry.value.done {
                return ;
            }
            let mut record = entry.value.clone();
            record.is_using = is_using;
            match rid {
                Some(rid) => {
                    record.used_by = rid.to_owned();
                },
                None => {
                    if !is_using {
                        record.used_by = String::new();
                    }
                },
            }
            (record, entry.exp)
        },
    };
    let _ = meta.update(room_id, record, exp);
}

/// The numbers given to connections: one after the other, from 1.
pub struct ConnIds {
    next: u64,
}

impl View for ConnIds {
    type V = u64;

    closed spec fn view(&self) -> u64 {
        self.next
    }
}

impl ConnIds {
    /// A counter whose first number is 1.
    pub fn new() -> (ids: Self)
        ensures
            ids@ == 1,
    {
        ConnIds { next: 1 }
    }

    /// The next number. After the last 64-bit number the count begins again
    /// at zero.
    pub fn next_conn_id(&mut self) -> (id: u64)
        ensures
            id == old(self)@,
            final(self)@ == if old(self)@ == u64::MAX {
                0
            } else {
                (old(self)@ + 1) as u64
            },
    {
        let id = self.next;
        self.next = if id == u64::MAX {
            0
        } else {
            id + 1
        };
        id
    }
}

/// The role that a signaling request asks for, or `None` where the request
/// is to be refused: the role must be named, and a receiver must give an
/// identity that is not empty.
pub open spec fn admitted_role(role: Seq<char>, rid: Option<Seq<char>>) -> Option<Role> {
    match Role::named(role) {
        Some(Role::Receiver) => match rid {
            Some(rid) => if rid.len() > 0 {
                Some(Role::Receiver)
            } else {
                None
            },
            None => None,
        },
        other => other,
    }
}

/// Checks the parameters of a signaling request before the connection is
/// taken over.
pub fn signal_ws(role: &str, rid: Option<&str>) -> (admitted: Option<Role>)
    ensures
        admitted == admitted_role(
            role@,
            match rid {
                Some(rid) => Some(rid@),
                None => None,
            },
        ),
{
    match Role::parse(role) {
        Some(Role::Receiver) => match rid {
            Some(rid) => if rid.unicode_len() > 0 {
                Some(Role::Receiver)
            } else {
                None
            },
            None => None,
        },
        other => other,
    }
}

/// The one message that the relay itself sends on a signaling connection: to
/// a peer whose place is taken.
pub const ROOM_TAKEN_FRAME: &'static str = "{\"type\":\"error\",\"message\":\"room_taken\"}";

/// A signaling connection: the room it is for, the side it is on, the
/// receiver's identity where it gave one, and the connection's number.
pub struct Connection {
    pub room_id: String,
    pub role: Role,
    pub rid: Option<String>,
    pub peer_id: u64,
}

/// What arrives from a peer.
#[derive(Clone, Copy, Debug, PartialEq, Eq, Structural)]
pub enum Frame {
    /// A text message.
    Text,
    /// The peer closes.
    Close,
    /// Anything else: binary data, a ping, a pong.
    Other,
}

/// What happens on a signaling connection.
pub enum SocketEvent<S> {
    /// The connection stands; `S` is the sink that takes what is sent to the
    /// peer.
    Open(S),
    /// A frame arrived from the peer.
    Frame(Frame),
    /// The connection has ended: reading failed or came to its end, or
    /// nothing more can be sent.
    Gone,
}

/// What is to be done on a signaling connection.
#[derive(Clone, Copy, Debug, PartialEq, Eq, Structural)]
pub enum SocketAction {
    /// Pass messages in both directions until the connection ends.
    Serve,
    /// Send `ROOM_TAKEN_FRAME` and close: the place is taken.
    Refuse,
    /// Pass the text that arrived to the peer on the other side, unchanged.
    Forward,
    /// Nothing.
    Ignore,
    /// Stop reading; the connection has ended.
    Leave,
    /// The connection is done with.
    Done,
}

/// What is to be done on `event`: a peer that finds its place free is served,
/// one that finds it taken is refused; text is passed on, a close ends the
/// connection, any other frame is passed over; a connection that has ended is
/// done with.
pub open spec fn socket_action<S>(rooms: RoomMap<S>, conn: Connection, event: SocketEvent<S>)
    -> SocketAction {
    match event {
        SocketEvent::Open(_) => if occupant_of(rooms, conn.room_id@, conn.role) is None {
            SocketAction::Serve
        } else {
            SocketAction::Refuse
        },
        SocketEvent::Frame(Frame::Text) => SocketAction::Forward,
        SocketEvent::Frame(Frame::Close) => SocketAction::Leave,
        SocketEvent::Frame(Frame::Other) => SocketAction::Ignore,
        SocketEvent::Gone => SocketAction::Done,
    }
}

/// The rooms after `event`: a peer that finds its place free has it; a
/// connection that has ended has left; nothing else changes the rooms.
pub open spec fn socket_rooms<S>(rooms: RoomMap<S>, conn: Connection, event: SocketEvent<S>)
    -> RoomMap<S> {
    match event {
        SocketEvent::Open(tx) => if occupant_of(rooms, conn.room_id@, conn.role) is None {
            rooms.insert(
                conn.room_id@,
                room_of(rooms, conn.room_id@).with_peer(
                    conn.role,
                    Some(Peer { id: conn.peer_id, tx }),
                ),
            )
        } else {
            rooms
        },
        SocketEvent::Frame(_) => rooms,
        SocketEvent::Gone => after_leave(rooms, conn.room_id@, conn.role, conn.peer_id),
    }
}

/// How `event` marks the receiver's state, if it does: a receiver that has
/// taken its place and gave an identity is marked as joined, with the
/// identity; a receiver whose connection has ended is marked as gone.
pub open spec fn socket_mark<S>(rooms: RoomMap<S>, conn: Connection, event: SocketEvent<S>)
    -> Option<(bool, Option<Seq<char>>)> {
    if conn.role is Receiver {
        match event {
            SocketEvent::Open(_) => if occupant_of(rooms, conn.room_id@, conn.role) is None {
                match conn.rid {
                    Some(rid) => Some((true, Some(rid@))),
                    None => None,
                }
            } else {
                None
            },
            SocketEvent::Frame(_) => None,
            SocketEvent::Gone => Some((false, None)),
        }
    } else {
        None
    }
}

/// One step of a signaling connection: what is to be done on `event`, with
/// the rooms and the registry of transfers changed as `socket_rooms` and
/// `socket_mark` say.
pub fn handle_socket<S>(
    rooms: &mut Rooms<S>,
    meta: &mut MemDB<MetaInfo>,
    conn: &Connection,
    event: SocketEvent<S>,
) -> (action: SocketAction)
    ensures
        action == socket_action(old(rooms)@, *conn, event),
        final(rooms)@ == socket_rooms(old(rooms)@, *conn, event),
        match socket_mark(old(rooms)@, *conn, event) {
            Some((is_using, rid)) => {
                &&& marks(old(meta)@, conn.room_id@, is_using) ==> meta_put(
                    old(meta)@,
                    final(meta)@,
                    conn.room_id@,
                    marked(old(meta)@[conn.room_id@].value@, is_using, rid),
                    old(meta)@[conn.room_id@].exp,
                )
                &&& !marks(old(meta)@, conn.room_id@, is_using) ==> final(meta)@ == old(meta)@
            },
            None => final(meta)@ == old(meta)@,
        },
{
    match event {
        SocketEvent::Open(tx) => {
            if !rooms.register_peer(conn.room_id.as_str(), conn.role, conn.peer_id, tx) {
                return SocketAction::Refuse;
            }
            match conn.role {
                Role::Receiver => match &conn.rid {
                    Some(rid) => {
                        mark_receiver_state(meta, conn.room_id.as_str(), true, Some(rid.as_str()));
                    },
                    None => {},
                },
                Role::Sender => {},
            }
            SocketAction::Serve
        },
        SocketEvent::Frame(frame) => match frame {
            Frame::Text => SocketAction::Forward,
            Frame::Close => SocketAction::Leave,
            Frame::Other => SocketAction::Ignore,
        },
        SocketEvent::Gone => {
            rooms.unregister_peer(conn.room_id.as_str(), conn.role, conn.peer_id);
            match conn.role {
                Role::Receiver => {
                    mark_receiver_state(meta, conn.room_id.as_str(), false, None);
                },
                Role::Sender => {},
            }
            SocketAction::Done
        },
    }
}

/// A server that helps two peers find a direct path to each other.
pub struct IceServer {
    pub urls: Vec<String>,
    pub username: Option<String>,
    pub credential: Option<String>,
}

/// What peers are told for setting up a direct connection.
pub struct WebRtcConfig {
    pub ice_servers: Vec<IceServer>,
}

/// The configuration in absence of any setting: no servers.
pub fn default_webrtc_config() -> (config: WebRtcConfig)
    ensures
        config.ice_servers@.len() == 0,
{
    WebRtcConfig { ice_servers: Vec::new() }
}

/// What a peer that asks for the configuration is told: no servers.
pub fn webrtc_config() -> (config: WebRtcConfig)
    ensures
        config.ice_servers@.len() == 0,
{
    default_webrtc_config()
}

/// A place holds one peer at a time: of two peers that come for the same
/// place, the first has it, the second is refused, and the first stays as it
/// was.
pub proof fn lemma_second_peer_refused<S>(
    rooms: RoomMap<S>,
    first: Connection,
    second: Connection,
    first_tx: S,
    second_tx: S,
)
    requires
        first.room_id@ == second.room_id@,
        first.role == second.role,
        occupant_of(rooms, first.room_id@, first.role) is None,
    ensures
        ({
            let joined = socket_rooms(rooms, first, SocketEvent::Open(first_tx));
            &&& socket_action(rooms, first, SocketEvent::Open(first_tx)) == SocketAction::Serve
            &&& occupant_of(joined, first.room_id@, first.role) == Some(
                Peer { id: first.peer_id, tx: first_tx },
            )
            &&& socket_action(joined, second, SocketEvent::Open(second_tx)) == SocketAction::Refuse
            &&& socket_rooms(joined, second, SocketEvent::Open(second_tx)) == joined
        }),
{
}

/// The two places of a room do not touch each other: a peer that takes or
/// leaves one leaves the other as it was.
pub proof fn lemma_places_apart<S>(rooms: RoomMap<S>, conn: Connection, event: SocketEvent<S>)
    ensures
        occupant_of(socket_rooms(rooms, conn, event), conn.room_id@, conn.role.opposite())
            == occupant_of(rooms, conn.room_id@, conn.role.opposite()),
{
}

/// A connection that ends after another has taken its place does not take
/// the place from the other.
pub proof fn lemma_late_leave<S>(rooms: RoomMap<S>, room_id: Seq<char>, role: Role, peer_id: u64)
    requires
        occupant_of(rooms, room_id, role) matches Some(peer) && peer.id != peer_id,
    ensures
        after_leave(rooms, room_id, role, peer_id) == rooms,
{
}

/// A peer that leaves the place it has leaves it free, and a room with
/// nobody left in it is closed.
pub proof fn lemma_leave_frees<S>(rooms: RoomMap<S>, room_id: Seq<char>, role: Role, peer_id: u64)
    requires
        occupant_of(rooms, room_id, role) matches Some(peer) && peer.id == peer_id,
    ensures
        occupant_of(after_leave(rooms, room_id, role, peer_id), room_id, role) is None,
        occupant_of(rooms, room_id, role.opposite()) is None ==> !after_leave(
            rooms,
            room_id,
            role,
            peer_id,
        ).contains_key(room_id),
        no_vacant_room(rooms) ==> no_vacant_room(after_leave(rooms, room_id, role, peer_id)),
{
}

/// What marking does to a record: a receiver that joins with an identity
/// that is not empty holds the transfer; one that leaves releases it; holder
/// and claim flag agree after either; a report of completion is not taken
/// back, nor are name and size changed.
pub proof fn lemma_marked(record: MetaView, rid: Seq<char>)
    requires
        rid.len() > 0,
    ensures
        marked(record, true, Some(rid)) == record.claimed_by(rid),
        marked(record, false, None) == record.released(),
        marked(record, true, Some(rid)).consistent(),
        marked(record, false, None).consistent(),
        marked(marked(record, true, Some(rid)), false, None) == record.released(),
        record.done ==> marked(record, true, Some(rid)).done && marked(record, false, None).done,
        forall|is_using: bool, holder: Option<Seq<char>>|
            {
                let after = #[trigger] marked(record, is_using, holder);
                &&& after.file_name == record.file_name
                &&& after.file_size == record.file_size
                &&& after.block_size == record.block_size
                &&& after.done == record.done
            },
{
}

/// The course of a transfer. It is open when issued. The first claim of an
/// open transfer, by a download or by a receiver that joins its room, makes
/// it that receiver's; the same receiver's claim again changes nothing; the
/// claim of another is refused. A receiver that leaves before completion
/// opens the transfer again. The report of completion ends the course from
/// wherever it stands, and a receiver that leaves afterwards changes nothing.
pub proof fn lemma_transfer_course(
    meta: MetaMap,
    id: Seq<char>,
    record: MetaView,
    rid: Seq<char>,
    other: Seq<char>,
    file_name: Seq<char>,
    file_size: u64,
)
    requires
        rid.len() > 0,
        other.len() > 0,
        other != rid,
        meta.contains_key(id),
        meta[id].value@ == record,
    ensures
        MetaView::issued(file_name, file_size).state() == SlotState::Open,
        record.state() is Open ==> after_claim(record, rid) == Some(record.claimed_by(rid))
            && record.claimed_by(rid).state() == SlotState::Claimed(rid),
        record.state() is Open ==> marked(record, true, Some(rid)).state() == SlotState::Claimed(
            rid,
        ),
        record.state() == SlotState::Claimed(rid) ==> after_claim(record, rid) == Some(record),
        record.state() == SlotState::Claimed(other) ==> after_claim(record, rid) is None,
        record.state() == SlotState::Claimed(rid) ==> marks(meta, id, false) && marked(
            record,
            false,
            None,
        ).state() == SlotState::Open,
        record.state() is Done ==> !marks(meta, id, false),
        record.completed().state() == SlotState::Done,
{
}

} // verus!
