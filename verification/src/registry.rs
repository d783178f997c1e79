//! The room registry: which rooms exist and who takes part in each.

use vstd::prelude::*;
use crate::error::ChatError;
use crate::room::{deduplicate, distinct, join, joined, lemma_distinct, lemma_joined, names, Room, RoomView};
use crate::store::MessageStore;

verus! {

/// The values of a list of rooms, in order.
pub open spec fn room_views(list: Seq<Room>) -> Seq<RoomView> {
    Seq::new(list.len(), |i: int| list[i]@)
}

/// The mathematical model of the registry.
pub struct Registry {
    /// The rooms, in the order of creation.
    pub rooms: Seq<RoomView>,
    /// The id that the next room gets.
    pub next_id: int,
}

impl Registry {
    /// A registry without rooms; ids start at 1.
    pub open spec fn empty() -> Registry {
        Registry { rooms: Seq::empty(), next_id: 1 }
    }

    /// Whether the ids have run out.
    pub open spec fn is_full(self) -> bool {
        self.next_id >= i32::MAX
    }

    /// Whether a room with this id exists.
    pub open spec fn has_room(self, id: int) -> bool {
        exists|i: int| 0 <= i < self.rooms.len() && (#[trigger] self.rooms[i]).id == id
    }

    /// Where the room with this id stands.
    pub open spec fn index_of(self, id: int) -> int
        recommends
            self.has_room(id),
    {
        choose|i: int| 0 <= i < self.rooms.len() && (#[trigger] self.rooms[i]).id == id
    }

    /// The room with this id.
    pub open spec fn room(self, id: int) -> RoomView
        recommends
            self.has_room(id),
    {
        self.rooms[self.index_of(id)]
    }

    /// The room that a creation makes of a list of identities.
    pub open spec fn founded(self, initial: Seq<Seq<char>>) -> RoomView {
        RoomView { id: self.next_id, participants: distinct(initial) }
    }

    /// The registry after a room was created for `initial`.
    pub open spec fn created(self, initial: Seq<Seq<char>>) -> Registry {
        Registry { rooms: self.rooms.push(self.founded(initial)), next_id: self.next_id + 1 }
    }

    /// Whether a room that was made elsewhere can be taken over under `id`:
    /// the id is neither used nor passed over yet.
    pub open spec fn admits(self, id: int) -> bool {
        self.next_id <= id < i32::MAX
    }

    /// The registry after a room made elsewhere was taken over under `id`.
    pub open spec fn adopted(self, id: int, listed: Seq<Seq<char>>) -> Registry {
        Registry {
            rooms: self.rooms.push(RoomView { id, participants: distinct(listed) }),
            next_id: id + 1,
        }
    }

    /// The registry after `name` joined the room `id`; other rooms are as
    /// before.
    pub open spec fn with_participant(self, id: int, name: Seq<char>) -> Registry {
        Registry {
            rooms: Seq::new(
                self.rooms.len(),
                |i: int|
                    if self.rooms[i].id == id {
                        RoomView { participants: joined(self.rooms[i].participants, name), ..self.rooms[i] }
                    } else {
                        self.rooms[i]
                    },
            ),
            ..self
        }
    }

    /// The registry after the room `id` was deleted.
    pub open spec fn without(self, id: int) -> Registry {
        if self.has_room(id) {
            Registry { rooms: self.rooms.remove(self.index_of(id)), ..self }
        } else {
            self
        }
    }

    /// What holds of the registry in every reachable state: ids are positive,
    /// below the next id to assign, and grow strictly along the list; in no
    /// room does a participant occur twice.
    pub open spec fn inv(self) -> bool {
        &&& 1 <= self.next_id <= i32::MAX
        &&& forall|i: int| 0 <= i < self.rooms.len() ==> 1 <= (#[trigger] self.rooms[i]).id < self.next_id
        &&& forall|i: int, j: int|
            0 <= i < j < self.rooms.len() ==> (#[trigger] self.rooms[i]).id < (#[trigger] self.rooms[j]).id
        &&& forall|i: int| 0 <= i < self.rooms.len() ==> (#[trigger] self.rooms[i]).participants.no_duplicates()
    }

    /// A room is found where it stands: ids are unique.
    pub proof fn lemma_index(self, i: int)
        requires
            self.inv(),
            0 <= i < self.rooms.len(),
        ensures
            self.has_room(self.rooms[i].id),
            self.index_of(self.rooms[i].id) == i,
            self.room(self.rooms[i].id) == self.rooms[i],
    {
        let id = self.rooms[i].id;
        let j = self.index_of(id);
        assert(self.rooms[j].id == id);
        if j < i {
            assert(self.rooms[j].id < self.rooms[i].id);
        }
        if i < j {
            assert(self.rooms[i].id < self.rooms[j].id);
        }
    }

    /// Creating a room keeps the registry consistent, keeps every room that
    /// existed, and adds the new one.
    pub proof fn lemma_created(self, initial: Seq<Seq<char>>)
        requires
            self.inv(),
            !self.is_full(),
        ensures
            self.created(initial).inv(),
            !self.has_room(self.next_id),
            self.created(initial).has_room(self.next_id),
            self.created(initial).room(self.next_id) == self.founded(initial),
            forall|id: int| self.has_room(id) ==> self.created(initial).has_room(id),
    {
        let after = self.created(initial);
        lemma_distinct(initial);
        assert(after.rooms[self.rooms.len() as int] == self.founded(initial));
        assert forall|i: int, j: int| 0 <= i < j < after.rooms.len() implies (#[trigger] after.rooms[i]).id
            < (#[trigger] after.rooms[j]).id by {
            assert(after.rooms[i] == self.rooms[i]);
            if j < self.rooms.len() {
                assert(after.rooms[j] == self.rooms[j]);
            }
        }
        assert forall|i: int| 0 <= i < after.rooms.len() implies (#[trigger] after.rooms[i]).participants.no_duplicates() by {
            if i < self.rooms.len() {
                assert(after.rooms[i] == self.rooms[i]);
            }
        }
        assert forall|i: int| 0 <= i < after.rooms.len() implies 1 <= (#[trigger] after.rooms[i]).id
            < after.next_id by {
            if i < self.rooms.len() {
                assert(after.rooms[i] == self.rooms[i]);
            }
        }
        after.lemma_index(self.rooms.len() as int);
        assert forall|id: int| self.has_room(id) implies after.has_room(id) by {
            let i = self.index_of(id);
            assert(after.rooms[i] == self.rooms[i]);
        }
    }

    /// Taking a room over keeps the registry consistent, keeps every room
    /// that existed, and adds the new one.
    pub proof fn lemma_adopted(self, id: int, listed: Seq<Seq<char>>)
        requires
            self.inv(),
            self.admits(id),
        ensures
            self.adopted(id, listed).inv(),
            self.adopted(id, listed).has_room(id),
            forall|other: int| self.has_room(other) ==> self.adopted(id, listed).has_room(other),
    {
        let after = self.adopted(id, listed);
        lemma_distinct(listed);
        assert(after.rooms[self.rooms.len() as int].id == id);
        assert forall|i: int, j: int| 0 <= i < j < after.rooms.len() implies (
        #[trigger] after.rooms[i]).id < (#[trigger] after.rooms[j]).id by {
            assert(after.rooms[i] == self.rooms[i]);
            if j < self.rooms.len() {
                assert(after.rooms[j] == self.rooms[j]);
            }
        }
        assert forall|i: int| 0 <= i < after.rooms.len() implies 1 <= (#[trigger] after.rooms[i]).id
            < after.next_id && after.rooms[i].participants.no_duplicates() by {
            if i < self.rooms.len() {
                assert(after.rooms[i] == self.rooms[i]);
            }
        }
        assert forall|other: int| self.has_room(other) implies after.has_room(other) by {
            let i = self.index_of(other);
            assert(after.rooms[i] == self.rooms[i]);
        }
    }

    /// Joining a room keeps the registry consistent and keeps the same rooms;
    /// afterwards the room holds what it held, with the name joined.
    pub proof fn lemma_with_participant(self, id: int, name: Seq<char>)
        requires
            self.inv(),
        ensures
            self.with_participant(id, name).inv(),
            forall|other: int| self.with_participant(id, name).has_room(other) <==> self.has_room(other),
            self.has_room(id) ==> self.with_participant(id, name).room(id).participants == joined(
                self.room(id).participants,
                name,
            ),
            forall|other: int|
                other != id && self.has_room(other) ==> self.with_participant(id, name).room(other)
                    == self.room(other),
    {
        let after = self.with_participant(id, name);
        assert forall|i: int| 0 <= i < after.rooms.len() implies (#[trigger] after.rooms[i]).id
            == self.rooms[i].id by {}
        assert forall|i: int| 0 <= i < after.rooms.len() implies (#[trigger] after.rooms[i]).participants.no_duplicates() by {
            lemma_joined(self.rooms[i].participants, name);
        }
        assert forall|i: int, j: int| 0 <= i < j < after.rooms.len() implies (#[trigger] after.rooms[i]).id
            < (#[trigger] after.rooms[j]).id by {
            assert(self.rooms[i].id < self.rooms[j].id);
        }
        assert forall|i: int| 0 <= i < after.rooms.len() implies 1 <= (#[trigger] after.rooms[i]).id
            < after.next_id by {
            assert(1 <= self.rooms[i].id < self.next_id);
        }
        assert forall|other: int| after.has_room(other) <==> self.has_room(other) by {
            if after.has_room(other) {
                let i = after.index_of(other);
                assert(self.rooms[i].id == other);
            }
            if self.has_room(other) {
                let i = self.index_of(other);
                assert(after.rooms[i].id == other);
            }
        }
        assert forall|other: int| self.has_room(other) implies after.room(other) == (if other
            == id {
            RoomView { participants: joined(self.room(other).participants, name), ..self.room(other) }
        } else {
            self.room(other)
        }) by {
            let i = self.index_of(other);
            self.lemma_index(i);
            assert(after.rooms[i].id == other);
            after.lemma_index(i);
        }
    }

    /// Deleting a room keeps the registry consistent; the room is gone and
    /// every other room is as before.
    pub proof fn lemma_without(self, id: int)
        requires
            self.inv(),
        ensures
            self.without(id).inv(),
            !self.without(id).has_room(id),
            forall|other: int| other != id ==> (self.without(id).has_room(other) <==> self.has_room(other)),
            forall|other: int|
                other != id && self.has_room(other) ==> self.without(id).room(other) == self.room(
                    other,
                ),
    {
        let after = self.without(id);
        if self.has_room(id) {
            let at = self.index_of(id);
            assert(self.rooms[at].id == id);
            assert forall|i: int| 0 <= i < after.rooms.len() implies #[trigger] after.rooms[i]
                == self.rooms[if i < at {
                i
            } else {
                i + 1
            }] by {}
            assert forall|i: int, j: int| 0 <= i < j < after.rooms.len() implies (#[trigger] after.rooms[i]).id
                < (#[trigger] after.rooms[j]).id by {
                let a = if i < at { i } else { i + 1 };
                let b = if j < at { j } else { j + 1 };
                assert(self.rooms[a].id < self.rooms[b].id);
            }
            assert forall|i: int| 0 <= i < after.rooms.len() implies 1 <= (#[trigger] after.rooms[i]).id
                < after.next_id && after.rooms[i].participants.no_duplicates() && after.rooms[i].id
                != id by {
                let a = if i < at { i } else { i + 1 };
                assert(1 <= self.rooms[a].id < self.next_id);
                self.lemma_index(a);
            }
            assert forall|other: int| other != id && self.has_room(other) implies after.has_room(
                other,
            ) && after.room(other) == self.room(other) by {
                let a = self.index_of(other);
                self.lemma_index(a);
                let i = if a < at { a } else { a - 1 };
                assert(after.rooms[i] == self.rooms[a]);
                after.lemma_index(i);
            }
            assert forall|other: int| after.has_room(other) implies self.has_room(other) by {
                let i = after.index_of(other);
                let a = if i < at { i } else { i + 1 };
                assert(self.rooms[a].id == other);
            }
            if after.has_room(id) {
                let i = after.index_of(id);
                assert(after.rooms[i].id != id);
            }
        }
    }
}

/// The registry of rooms.
pub struct RoomRegistry {
    rooms: Vec<Room>,
    next_id: i32,
}

impl RoomRegistry {
    /// What the registry holds.
    pub closed spec fn view(&self) -> Registry {
        Registry { rooms: room_views(self.rooms@), next_id: self.next_id as int }
    }

    /// The registry is consistent.
    pub closed spec fn wf(&self) -> bool {
        self@.inv()
    }

    /// A consistent registry is in a reachable state.
    pub proof fn lemma_consistent(&self)
        requires
            self.wf(),
        ensures
            self@.inv(),
    {
    }

    /// Makes an empty registry.
    pub fn new() -> (registry: RoomRegistry)
        ensures
            registry.wf(),
            registry@ == Registry::empty(),
    {
        let registry = RoomRegistry { rooms: Vec::new(), next_id: 1 };
        assert(registry@.rooms =~= Seq::<RoomView>::empty());
        registry
    }

    /// Where the room `id` stands in the list, if it exists.
    fn find(&self, id: i32) -> (found: Option<usize>)
        requires
            self.wf(),
        ensures
            match found {
                Some(i) => i < self.rooms.len() && self@.has_room(id as int) && self@.index_of(
                    id as int,
                ) == i,
                None => !self@.has_room(id as int),
            },
    {
        let mut i: usize = 0;
        while i < self.rooms.len()
            invariant
                self.wf(),
                i <= self.rooms.len(),
                forall|k: int| 0 <= k < i ==> (#[trigger] self@.rooms[k]).id != id,
            decreases self.rooms.len() - i,
        {
            if self.rooms[i].id == id {
                proof {
                    assert(self@.rooms[i as int].id == id);
                    self@.lemma_index(i as int);
                }
                return Some(i);
            }
            i += 1;
        }
        None
    }

    /// The id that the next room gets, or `None` where the ids have run out.
    pub fn next_id(&self) -> (id: Option<i32>)
        requires
            self.wf(),
        ensures
            match id {
                Some(next) => !self@.is_full() && next == self@.next_id,
                None => self@.is_full(),
            },
    {
        if self.next_id == i32::MAX {
            None
        } else {
            Some(self.next_id)
        }
    }

    /// Whether a room with this id exists.
    pub fn contains(&self, id: i32) -> (found: bool)
        requires
            self.wf(),
        ensures
            found == self@.has_room(id as int),
    {
        self.find(id).is_some()
    }

    /// How many rooms exist.
    pub fn len(&self) -> (count: usize)
        ensures
            count == self@.rooms.len(),
    {
        self.rooms.len()
    }

    /// Creates a room for the given identities and returns it with the id it
    /// was given. Of an identity that occurs more than once only the first
    /// occurrence is kept.
    ///
    /// Fails with `StoreError`, and creates nothing, if the ids have run out.
    pub fn create(&mut self, initial: &Vec<String>) -> (made: Result<Room, ChatError>)
        requires
            old(self).wf(),
        ensures
            final(self).wf(),
            !old(self)@.is_full() ==> made is Ok && made.unwrap()@ == old(self)@.founded(
                names(initial@),
            ) && final(self)@ == old(self)@.created(names(initial@)),
            old(self)@.is_full() ==> made == Err::<Room, ChatError>(ChatError::StoreError)
                && final(self)@ == old(self)@,
    {
        if self.next_id == i32::MAX {
            return Err(ChatError::StoreError);
        }
        let room = Room { id: self.next_id, participants: deduplicate(initial) };
        let copy = room.duplicate();
        proof {
            self@.lemma_created(names(initial@));
            assert(room_views(self.rooms@.push(room)) =~= room_views(self.rooms@).push(room@));
        }
        self.rooms.push(room);
        self.next_id = self.next_id + 1;
        Ok(copy)
    }

    /// Takes over a room that was made elsewhere, such as one read back from
    /// a durable store, under the id that it has. Of an identity listed more
    /// than once only the first occurrence is kept. Ids assigned afterwards
    /// lie above `id`.
    ///
    /// Fails with `Conflict`, and takes nothing, if `id` is below the next
    /// id to assign, or is the largest there is.
    pub fn adopt(&mut self, id: i32, listed: &Vec<String>) -> (done: Result<(), ChatError>)
        requires
            old(self).wf(),
        ensures
            final(self).wf(),
            old(self)@.admits(id as int) ==> done is Ok && final(self)@ == old(self)@.adopted(
                id as int,
                names(listed@),
            ),
            !old(self)@.admits(id as int) ==> done == Err::<(), ChatError>(ChatError::Conflict)
                && final(self)@ == old(self)@,
    {
        if id < self.next_id || id == i32::MAX {
            return Err(ChatError::Conflict);
        }
        let room = Room { id, participants: deduplicate(listed) };
        proof {
            self@.lemma_adopted(id as int, names(listed@));
            assert(room_views(self.rooms@.push(room)) =~= room_views(self.rooms@).push(room@));
        }
        self.rooms.push(room);
        self.next_id = id + 1;
        Ok(())
    }

    /// Looks a room up by its id. Fails with `NotFound` if there is none.
    pub fn get(&self, id: i32) -> (found: Result<Room, ChatError>)
        requires
            self.wf(),
        ensures
            self@.has_room(id as int) ==> found is Ok && found.unwrap()@ == self@.room(id as int),
            !self@.has_room(id as int) ==> found == Err::<Room, ChatError>(ChatError::NotFound),
    {
        match self.find(id) {
            Some(i) => Ok(self.rooms[i].duplicate()),
            None => Err(ChatError::NotFound),
        }
    }

    /// Every room, in the order of creation.
    pub fn list(&self) -> (all: Vec<Room>)
        ensures
            room_views(all@) == self@.rooms,
    {
        let mut all: Vec<Room> = Vec::new();
        let mut i: usize = 0;
        while i < self.rooms.len()
            invariant
                i <= self.rooms.len(),
                all.len() == i,
                forall|k: int| 0 <= k < i ==> all[k]@ == self.rooms[k]@,
            decreases self.rooms.len() - i,
        {
            all.push(self.rooms[i].duplicate());
            i += 1;
        }
        assert(room_views(all@) =~= self@.rooms);
        all
    }

    /// Makes `identity` a participant of room `room_id`. Where it is one
    /// already nothing changes; otherwise it is added behind those who came
    /// before. Fails with `NotFound` if the room does not exist.
    pub fn add_participant(&mut self, room_id: i32, identity: &String) -> (done: Result<
        (),
        ChatError,
    >)
        requires
            old(self).wf(),
        ensures
            final(self).wf(),
            old(self)@.has_room(room_id as int) ==> done is Ok && final(self)@
                == old(self)@.with_participant(room_id as int, identity@),
            !old(self)@.has_room(room_id as int) ==> done == Err::<(), ChatError>(
                ChatError::NotFound,
            ) && final(self)@ == old(self)@,
    {
        match self.find(room_id) {
            Some(i) => {
                let ghost before = self@;
                let mut room = self.rooms[i].duplicate();
                join(&mut room.participants, identity);
                proof {
                    before.lemma_with_participant(room_id as int, identity@);
                    before.lemma_index(i as int);
                }
                self.rooms.set(i, room);
                proof {
                    let after = before.with_participant(room_id as int, identity@);
                    assert forall|k: int| 0 <= k < self@.rooms.len() implies self@.rooms[k]
                        == after.rooms[k] by {
                        if k != i {
                            assert(self@.rooms[k] == before.rooms[k]);
                            before.lemma_index(k);
                        }
                    }
                    assert(self@.rooms =~= after.rooms);
                }
                Ok(())
            },
            None => Err(ChatError::NotFound),
        }
    }

    /// Deletes room `id`.
    ///
    /// Fails with `NotFound` if the room does not exist, and with `Conflict`
    /// if `store` still holds messages of it: those go first.
    pub fn delete(&mut self, store: &MessageStore, id: i32) -> (done: Result<(), ChatError>)
        requires
            old(self).wf(),
        ensures
            final(self).wf(),
            !old(self)@.has_room(id as int) ==> done == Err::<(), ChatError>(ChatError::NotFound)
                && final(self)@ == old(self)@,
            old(self)@.has_room(id as int) && store@.history(id as int).len() > 0 ==> done == Err::<
                (),
                ChatError,
            >(ChatError::Conflict) && final(self)@ == old(self)@,
            old(self)@.has_room(id as int) && store@.history(id as int).len() == 0 ==> done is Ok
                && final(self)@ == old(self)@.without(id as int),
    {
        match self.find(id) {
            Some(i) => {
                if store.has_messages(id) {
                    return Err(ChatError::Conflict);
                }
                proof {
                    self@.lemma_without(id as int);
                    assert(room_views(self.rooms@.remove(i as int)) =~= room_views(
                        self.rooms@,
                    ).remove(i as int));
                }
                self.rooms.remove(i);
                Ok(())
            },
            None => Err(ChatError::NotFound),
        }
    }
}

} // verus!
