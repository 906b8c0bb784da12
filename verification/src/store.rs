use vstd::prelude::*;

use crate::model::{
    Assignment, FamilyMember, Fee, Notification, Recurrence, Room, StoreModel, Transaction, User,
    has_assignment, has_fee, has_forward_link, has_recurrence_of, has_room, has_room_fee,
    has_tenant_room, has_transaction_for, has_user, has_username, ids_headroom, is_forward_link,
    wf,
};

verus! {

/// The relational store held in memory: one vector per table, in insertion
/// order, plus the next value of each auto-assigned key.
#[derive(Debug)]
pub struct Store {
    pub fees: Vec<Fee>,
    pub recurrences: Vec<Recurrence>,
    pub assignments: Vec<Assignment>,
    pub transactions: Vec<Transaction>,
    pub users: Vec<User>,
    pub rooms: Vec<Room>,
    pub notifications: Vec<Notification>,
    pub family: Vec<FamilyMember>,
    pub next_fee_id: i32,
    pub next_recurrence_id: i32,
    pub next_assignment_id: i32,
    pub next_transaction_id: i32,
    pub next_user_id: i32,
    pub next_notification_id: i32,
    pub next_family_id: i32,
}

impl View for Store {
    type V = StoreModel;

    open spec fn view(&self) -> StoreModel {
        StoreModel {
            fees: self.fees.deep_view(),
            recurrences: self.recurrences@,
            assignments: self.assignments@,
            transactions: self.transactions@,
            users: self.users.deep_view(),
            rooms: self.rooms@,
            notifications: self.notifications.deep_view(),
            family: self.family.deep_view(),
            next_fee_id: self.next_fee_id as int,
            next_recurrence_id: self.next_recurrence_id as int,
            next_assignment_id: self.next_assignment_id as int,
            next_transaction_id: self.next_transaction_id as int,
            next_user_id: self.next_user_id as int,
            next_notification_id: self.next_notification_id as int,
            next_family_id: self.next_family_id as int,
        }
    }
}

impl Store {
    /// An empty store; every table starts empty and every key at 1.
    pub fn new() -> (s: Store)
        ensures
            wf(s@),
            ids_headroom(s@),
            s@.fees.len() == 0,
            s@.recurrences.len() == 0,
            s@.assignments.len() == 0,
            s@.transactions.len() == 0,
            s@.users.len() == 0,
            s@.rooms.len() == 0,
            s@.notifications.len() == 0,
            s@.family.len() == 0,
            s@.next_fee_id == 1,
            s@.next_recurrence_id == 1,
            s@.next_assignment_id == 1,
            s@.next_transaction_id == 1,
            s@.next_user_id == 1,
            s@.next_notification_id == 1,
            s@.next_family_id == 1,
    {
        Store {
            fees: Vec::new(),
            recurrences: Vec::new(),
            assignments: Vec::new(),
            transactions: Vec::new(),
            users: Vec::new(),
            rooms: Vec::new(),
            notifications: Vec::new(),
            family: Vec::new(),
            next_fee_id: 1,
            next_recurrence_id: 1,
            next_assignment_id: 1,
            next_transaction_id: 1,
            next_user_id: 1,
            next_notification_id: 1,
            next_family_id: 1,
        }
    }

    /// Position of the fee row with the given id.
    pub fn fee_pos(&self, fee_id: i32) -> (r: Option<usize>)
        ensures
            r is Some <==> has_fee(self@, fee_id as int),
            r matches Some(k) ==> k < self@.fees.len() && self@.fees[k as int].id == fee_id,
    {
        let n = self.fees.len();
        let mut i: usize = 0;
        while i < n
            invariant
                i <= n,
                n == self@.fees.len(),
                forall|j: int| 0 <= j < i ==> self@.fees[j].id != fee_id,
            decreases n - i,
        {
            if self.fees[i].id == fee_id {
                return Some(i);
            }
            i += 1;
        }
        None
    }

    /// Position of the assignment row with the given assignment id.
    pub fn assignment_pos(&self, aid: i32) -> (r: Option<usize>)
        ensures
            r is Some <==> has_assignment(self@, aid as int),
            r matches Some(k) ==> k < self@.assignments.len()
                && self@.assignments[k as int].assignment_id == aid,
    {
        let n = self.assignments.len();
        let mut i: usize = 0;
        while i < n
            invariant
                i <= n,
                n == self@.assignments.len(),
                forall|j: int| 0 <= j < i ==> self@.assignments[j].assignment_id != aid,
            decreases n - i,
        {
            if self.assignments[i].assignment_id == aid {
                return Some(i);
            }
            i += 1;
        }
        None
    }

    /// Position of the assignment binding the given room to the given fee.
    pub fn room_fee_pos(&self, room: i32, fee_id: i32) -> (r: Option<usize>)
        ensures
            r is Some <==> has_room_fee(self@, room as int, fee_id as int),
            r matches Some(k) ==> k < self@.assignments.len()
                && self@.assignments[k as int].room_number == room
                && self@.assignments[k as int].fee_id == fee_id,
    {
        let n = self.assignments.len();
        let mut i: usize = 0;
        while i < n
            invariant
                i <= n,
                n == self@.assignments.len(),
                forall|j: int|
                    0 <= j < i ==> !(self@.assignments[j].room_number == room
                        && self@.assignments[j].fee_id == fee_id),
            decreases n - i,
        {
            if self.assignments[i].room_number == room && self.assignments[i].fee_id == fee_id {
                return Some(i);
            }
            i += 1;
        }
        None
    }

    /// Position of the forward link continuing from the given fee, if any.
    pub fn forward_link_pos(&self, fee_id: i32) -> (r: Option<usize>)
        ensures
            r is Some <==> has_forward_link(self@, fee_id as int),
            r matches Some(k) ==> k < self@.recurrences.len()
                && is_forward_link(self@.recurrences[k as int], fee_id as int),
    {
        let n = self.recurrences.len();
        let mut i: usize = 0;
        while i < n
            invariant
                i <= n,
                n == self@.recurrences.len(),
                forall|j: int|
                    0 <= j < i ==> !is_forward_link(self@.recurrences[j], fee_id as int),
            decreases n - i,
        {
            if self.recurrences[i].previous_fee_id == fee_id && self.recurrences[i].fee_id != fee_id
            {
                return Some(i);
            }
            i += 1;
        }
        None
    }

    /// Position of the recurrence row owned by the given fee, if any.
    pub fn recurrence_of_pos(&self, fee_id: i32) -> (r: Option<usize>)
        ensures
            r is Some <==> has_recurrence_of(self@, fee_id as int),
            r matches Some(k) ==> k < self@.recurrences.len()
                && self@.recurrences[k as int].fee_id == fee_id,
    {
        let n = self.recurrences.len();
        let mut i: usize = 0;
        while i < n
            invariant
                i <= n,
                n == self@.recurrences.len(),
                forall|j: int| 0 <= j < i ==> self@.recurrences[j].fee_id != fee_id,
            decreases n - i,
        {
            if self.recurrences[i].fee_id == fee_id {
                return Some(i);
            }
            i += 1;
        }
        None
    }

    /// Position of the user row with the given id.
    pub fn user_pos(&self, uid: i32) -> (r: Option<usize>)
        ensures
            r is Some <==> has_user(self@, uid as int),
            r matches Some(k) ==> k < self@.users.len() && self@.users[k as int].id == uid,
    {
        let n = self.users.len();
        let mut i: usize = 0;
        while i < n
            invariant
                i <= n,
                n == self@.users.len(),
                forall|j: int| 0 <= j < i ==> self@.users[j].id != uid,
            decreases n - i,
        {
            if self.users[i].id == uid {
                return Some(i);
            }
            i += 1;
        }
        None
    }

    /// Position of the user row with the given username.
    pub fn username_pos(&self, name: &String) -> (r: Option<usize>)
        ensures
            r is Some <==> has_username(self@, name@),
            r matches Some(k) ==> k < self@.users.len() && self@.users[k as int].username
                == name@,
    {
        let n = self.users.len();
        let mut i: usize = 0;
        while i < n
            invariant
                i <= n,
                n == self@.users.len(),
                forall|j: int| 0 <= j < i ==> self@.users[j].username != name@,
            decreases n - i,
        {
            if self.users[i].username == *name {
                return Some(i);
            }
            i += 1;
        }
        None
    }

    /// Position of the room row with the given room number.
    pub fn room_pos(&self, room: i32) -> (r: Option<usize>)
        ensures
            r is Some <==> has_room(self@, room as int),
            r matches Some(k) ==> k < self@.rooms.len()
                && self@.rooms[k as int].room_number == room,
    {
        let n = self.rooms.len();
        let mut i: usize = 0;
        while i < n
            invariant
                i <= n,
                n == self@.rooms.len(),
                forall|j: int| 0 <= j < i ==> self@.rooms[j].room_number != room,
            decreases n - i,
        {
            if self.rooms[i].room_number == room {
                return Some(i);
            }
            i += 1;
        }
        None
    }

    /// Position of the room rented by the given user, if any.
    pub fn tenant_room_pos(&self, uid: i32) -> (r: Option<usize>)
        ensures
            r is Some <==> has_tenant_room(self@, uid as int),
            r matches Some(k) ==> k < self@.rooms.len() && self@.rooms[k as int].tenant_id == uid,
    {
        let n = self.rooms.len();
        let mut i: usize = 0;
        while i < n
            invariant
                i <= n,
                n == self@.rooms.len(),
                forall|j: int| 0 <= j < i ==> self@.rooms[j].tenant_id != uid,
            decreases n - i,
        {
            if self.rooms[i].tenant_id == uid {
                return Some(i);
            }
            i += 1;
        }
        None
    }

    /// Position of the transaction recorded for the given assignment, if any.
    pub fn transaction_for_pos(&self, aid: i32) -> (r: Option<usize>)
        ensures
            r is Some <==> has_transaction_for(self@, aid as int),
            r matches Some(k) ==> k < self@.transactions.len()
                && self@.transactions[k as int].assignment_id == aid,
    {
        let n = self.transactions.len();
        let mut i: usize = 0;
        while i < n
            invariant
                i <= n,
                n == self@.transactions.len(),
                forall|j: int| 0 <= j < i ==> self@.transactions[j].assignment_id != aid,
            decreases n - i,
        {
            if self.transactions[i].assignment_id == aid {
                return Some(i);
            }
            i += 1;
        }
        None
    }
}

} // verus!
