//! Rooms and their membership lists.
//!
//! A membership list is an ordered sequence of identities in which nobody
//! occurs twice; whoever was seen first stays first.

use vstd::prelude::*;

verus! {

/// The identities that a list of strings holds, in order.
pub open spec fn names(list: Seq<String>) -> Seq<Seq<char>> {
    Seq::new(list.len(), |i: int| list[i]@)
}

/// The membership list after `name` has joined: unchanged if the name is a
/// member already, with the name at the end otherwise.
pub open spec fn joined(members: Seq<Seq<char>>, name: Seq<char>) -> Seq<Seq<char>> {
    if members.contains(name) {
        members
    } else {
        members.push(name)
    }
}

/// The list without repetitions: of each identity only the first occurrence
/// stays, in its place.
pub open spec fn distinct(list: Seq<Seq<char>>) -> Seq<Seq<char>>
    decreases list.len(),
{
    if list.len() == 0 {
        Seq::empty()
    } else {
        joined(distinct(list.drop_last()), list.last())
    }
}

/// Joining keeps a list free of repetitions, makes the name a member, and
/// keeps every earlier member in its place.
pub proof fn lemma_joined(members: Seq<Seq<char>>, name: Seq<char>)
    requires
        members.no_duplicates(),
    ensures
        joined(members, name).no_duplicates(),
        joined(members, name).contains(name),
        members.len() <= joined(members, name).len() <= members.len() + 1,
        forall|i: int| 0 <= i < members.len() ==> joined(members, name)[i] == members[i],
        forall|other: Seq<char>|
            joined(members, name).contains(other) <==> (other == name || members.contains(other)),
{
    let after = joined(members, name);
    if members.contains(name) {
    } else {
        assert(after[members.len() as int] == name);
        assert forall|other: Seq<char>| after.contains(other) implies (other == name
            || members.contains(other)) by {
            let i = choose|i: int| 0 <= i < after.len() && after[i] == other;
            if i < members.len() {
                assert(members[i] == other);
            }
        }
        assert forall|other: Seq<char>| members.contains(other) implies after.contains(other) by {
            let i = choose|i: int| 0 <= i < members.len() && members[i] == other;
            assert(after[i] == other);
        }
    }
}

/// Joining twice is joining once.
pub proof fn lemma_joined_idempotent(members: Seq<Seq<char>>, name: Seq<char>)
    ensures
        joined(joined(members, name), name) == joined(members, name),
{
    if !members.contains(name) {
        assert(members.push(name)[members.len() as int] == name);
    }
}

/// A list without repetitions has none, and holds exactly the identities of
/// the list it was made from.
pub proof fn lemma_distinct(list: Seq<Seq<char>>)
    ensures
        distinct(list).no_duplicates(),
        distinct(list).len() <= list.len(),
        forall|name: Seq<char>| distinct(list).contains(name) <==> list.contains(name),
    decreases list.len(),
{
    if list.len() > 0 {
        let front = list.drop_last();
        lemma_distinct(front);
        lemma_joined(distinct(front), list.last());
        assert forall|name: Seq<char>| distinct(list).contains(name) <==> list.contains(
            name,
        ) by {
            if list.contains(name) {
                let i = choose|i: int| 0 <= i < list.len() && list[i] == name;
                if i < front.len() {
                    assert(front[i] == name);
                }
            }
            if front.contains(name) {
                let i = choose|i: int| 0 <= i < front.len() && front[i] == name;
                assert(list[i] == name);
            }
            assert(list[list.len() - 1] == list.last());
        }
    }
}

/// Whether `name` is in the list.
pub fn is_member(members: &Vec<String>, name: &String) -> (found: bool)
    ensures
        found == names(members@).contains(name@),
{
    let mut i: usize = 0;
    while i < members.len()
        invariant
            i <= members.len(),
            forall|k: int| 0 <= k < i ==> names(members@)[k] != name@,
        decreases members.len() - i,
    {
        if members[i] == *name {
            assert(names(members@)[i as int] == name@);
            return true;
        }
        i += 1;
    }
    false
}

/// Adds `name` to the list unless it is a member already, and says whether
/// the list grew.
pub fn join(members: &mut Vec<String>, name: &String) -> (added: bool)
    ensures
        names(final(members)@) == joined(names(old(members)@), name@),
        added == !names(old(members)@).contains(name@),
{
    if is_member(members, name) {
        false
    } else {
        members.push(name.clone());
        assert(names(members@) =~= names(old(members)@).push(name@));
        true
    }
}

/// Copies the list without repetitions, keeping first occurrences in place.
pub fn deduplicate(list: &Vec<String>) -> (members: Vec<String>)
    ensures
        names(members@) == distinct(names(list@)),
        names(members@).no_duplicates(),
{
    let mut members: Vec<String> = Vec::new();
    let mut i: usize = 0;
    assert(names(list@).take(0) =~= Seq::<Seq<char>>::empty());
    assert(names(members@) =~= Seq::<Seq<char>>::empty());
    while i < list.len()
        invariant
            i <= list.len(),
            names(members@) == distinct(names(list@).take(i as int)),
        decreases list.len() - i,
    {
        proof {
            let upto = names(list@).take(i + 1);
            assert(upto.drop_last() =~= names(list@).take(i as int));
            assert(upto.last() == list@[i as int]@);
        }
        join(&mut members, &list[i]);
        i += 1;
    }
    proof {
        assert(names(list@).take(i as int) =~= names(list@));
        lemma_distinct(names(list@));
    }
    members
}

/// Copies a list of identities.
pub fn copy_names(list: &Vec<String>) -> (copy: Vec<String>)
    ensures
        names(copy@) == names(list@),
{
    let mut copy: Vec<String> = Vec::new();
    let mut i: usize = 0;
    while i < list.len()
        invariant
            i <= list.len(),
            copy.len() == i,
            forall|k: int| 0 <= k < i ==> copy[k]@ == list[k]@,
        decreases list.len() - i,
    {
        copy.push(list[i].clone());
        i += 1;
    }
    assert(names(copy@) =~= names(list@));
    copy
}

/// A chat room: an identity and the ordered list of its participants.
#[derive(Clone, Debug, PartialEq, Eq)]
pub struct Room {
    /// Assigned by the registry when the room is created.
    pub id: i32,
    /// Who takes part, in the order of first appearance, nobody twice.
    pub participants: Vec<String>,
}

/// The mathematical value of a [`Room`].
pub struct RoomView {
    pub id: int,
    pub participants: Seq<Seq<char>>,
}

impl View for Room {
    type V = RoomView;

    open spec fn view(&self) -> RoomView {
        RoomView { id: self.id as int, participants: names(self.participants@) }
    }
}

impl Room {
    /// Copies the room.
    pub fn duplicate(&self) -> (copy: Room)
        ensures
            copy@ == self@,
    {
        Room { id: self.id, participants: copy_names(&self.participants) }
    }
}

/// A room as a client writes it: the id is absent where the registry is to
/// assign one.
#[derive(Clone, Debug, PartialEq, Eq)]
pub struct NewRoom {
    pub id: Option<i32>,
    pub participants: Vec<String>,
}

/// The mathematical value of a [`NewRoom`].
pub struct NewRoomView {
    pub id: Option<int>,
    pub participants: Seq<Seq<char>>,
}

impl View for NewRoom {
    type V = NewRoomView;

    open spec fn view(&self) -> NewRoomView {
        NewRoomView {
            id: match self.id {
                Some(id) => Some(id as int),
                None => None,
            },
            participants: names(self.participants@),
        }
    }
}

impl Room {
    /// The room as a client reads it.
    pub fn describe(&self) -> (shown: NewRoom)
        ensures
            shown@ == (NewRoomView { id: Some(self@.id), participants: self@.participants }),
    {
        NewRoom { id: Some(self.id), participants: copy_names(&self.participants) }
    }
}

} // verus!
