use vstd::prelude::*;

use crate::ApiError;
use crate::model::{
    Assignment, FeeModel, NotificationModel, StoreModel, fee_ix, has_assignment, has_fee,
    has_room, has_room_fee, has_user, wf, wf_accounts, wf_fees, wf_payments,
};
use crate::store::Store;

verus! {

/// The title of the notification sent when a fee is assigned to a room: a
/// fixed template around the fee's name.
pub uninterp spec fn note_title_of(fee_name: Seq<char>) -> Seq<char>;

/// The body of that notification: a fixed template around the room number,
/// fee name, amount, and the due date rendered as a calendar day.
pub uninterp spec fn note_message_of(room: i32, fee_name: Seq<char>, amount: i64, due: i64) -> Seq<
    char,
>;

/// Relies on std::fmt (the format macro) to render the notification title:
/// the text is a function of the fee name alone.
#[verifier::external_body]
fn compose_note_title(fee_name: &str) -> (r: String)
    ensures
        r@ == note_title_of(fee_name@),
{
    format!("Thông báo về phí {}", fee_name)
}

/// Relies on std::fmt and on chrono::DateTime::from_timestamp (to render the
/// due date as day/month/year) for the notification body: the text is a
/// function of the four arguments alone.
#[verifier::external_body]
fn compose_note_message(room: i32, fee_name: &str, amount: i64, due_secs: i64) -> (r: String)
    ensures
        r@ == note_message_of(room, fee_name@, amount, due_secs),
{
    let day = chrono::DateTime::from_timestamp(due_secs, 0)
        .map(|d| d.naive_utc().format("%d/%m/%Y").to_string())
        .unwrap_or_default();
    format!(
        "Phòng {} có khoản phí {} với số tiền cần thanh toán là {} VND. Vui lòng thanh toán trước ngày {}",
        room, fee_name, amount, day,
    )
}

/// The store after the assignment loop has processed the first `k` rooms of
/// the rooms table: a room named in `list` that does not yet hold the fee
/// gains an unpaid assignment at the fee's due date and its tenant is sent a
/// notification from the manager; rooms already holding the fee are skipped.
pub open spec fn assign_loop_spec(
    m: StoreModel,
    fee: FeeModel,
    manager_id: i32,
    list: Seq<i32>,
    k: int,
) -> StoreModel
    decreases k,
{
    if k <= 0 {
        m
    } else {
        let prev = assign_loop_spec(m, fee, manager_id, list, k - 1);
        let room = m.rooms[k - 1];
        if !list.contains(room.room_number) {
            prev
        } else if has_room_fee(prev, room.room_number as int, fee.id as int) {
            prev
        } else {
            StoreModel {
                assignments: prev.assignments.push(
                    Assignment {
                        assignment_id: prev.next_assignment_id as i32,
                        room_number: room.room_number,
                        fee_id: fee.id,
                        due_date: fee.due_date,
                        payment_date: None,
                        is_paid: false,
                    },
                ),
                notifications: prev.notifications.push(
                    NotificationModel {
                        id: prev.next_notification_id as i32,
                        title: note_title_of(fee.name),
                        message: note_message_of(
                            room.room_number,
                            fee.name,
                            fee.amount,
                            fee.due_date,
                        ),
                        from_user: manager_id,
                        to_user: room.tenant_id,
                    },
                ),
                next_assignment_id: prev.next_assignment_id + 1,
                next_notification_id: prev.next_notification_id + 1,
                ..prev
            }
        }
    }
}

/// Every room number in `list` names an existing room, and no room number
/// repeats. The handler rejects a request outright when this fails: partial
/// room lists are not assigned best-effort.
pub open spec fn rooms_listed_ok(m: StoreModel, list: Seq<i32>) -> bool {
    &&& forall|i: int| 0 <= i < list.len() ==> has_room(m, #[trigger] list[i] as int)
    &&& forall|i: int, j: int| 0 <= i < j < list.len() ==> list[i] != list[j]
}

/// The manager action of assigning a fee to a set of rooms.
pub open spec fn assign_fee_spec(m: StoreModel, manager_id: i32, fee_id: i32, list: Seq<i32>) -> (
    StoreModel,
    Result<(), ApiError>,
) {
    if !has_user(m, manager_id as int) {
        (m, Err(ApiError::NotFound))
    } else if !has_fee(m, fee_id as int) {
        (m, Err(ApiError::NotFound))
    } else if !rooms_listed_ok(m, list) {
        (m, Err(ApiError::NotFound))
    } else {
        (
            assign_loop_spec(
                m,
                m.fees[fee_ix(m, fee_id as int)],
                manager_id,
                list,
                m.rooms.len() as int,
            ),
            Ok(()),
        )
    }
}

/// One loop step only appends assignment and notification rows and never
/// touches the other tables; well-formedness is preserved throughout.
pub proof fn lemma_assign_loop_wf(m: StoreModel, fee: FeeModel, manager_id: i32, list: Seq<i32>, k: int)
    requires
        wf(m),
        0 <= k <= m.rooms.len(),
        has_fee(m, fee.id as int),
        m.fees[fee_ix(m, fee.id as int)] == fee,
        m.next_assignment_id + k <= i32::MAX,
        m.next_notification_id + k <= i32::MAX,
    ensures
        wf(assign_loop_spec(m, fee, manager_id, list, k)),
        assign_loop_spec(m, fee, manager_id, list, k).fees == m.fees,
        assign_loop_spec(m, fee, manager_id, list, k).recurrences == m.recurrences,
        assign_loop_spec(m, fee, manager_id, list, k).transactions == m.transactions,
        assign_loop_spec(m, fee, manager_id, list, k).users == m.users,
        assign_loop_spec(m, fee, manager_id, list, k).rooms == m.rooms,
        assign_loop_spec(m, fee, manager_id, list, k).family == m.family,
        assign_loop_spec(m, fee, manager_id, list, k).next_fee_id == m.next_fee_id,
        assign_loop_spec(m, fee, manager_id, list, k).next_recurrence_id == m.next_recurrence_id,
        assign_loop_spec(m, fee, manager_id, list, k).next_transaction_id
            == m.next_transaction_id,
        assign_loop_spec(m, fee, manager_id, list, k).next_user_id == m.next_user_id,
        assign_loop_spec(m, fee, manager_id, list, k).next_family_id == m.next_family_id,
        m.next_assignment_id <= assign_loop_spec(m, fee, manager_id, list, k).next_assignment_id
            <= m.next_assignment_id + k,
        m.next_notification_id <= assign_loop_spec(
            m,
            fee,
            manager_id,
            list,
            k,
        ).next_notification_id <= m.next_notification_id + k,
        forall|i: int|
            0 <= i < m.assignments.len() ==> assign_loop_spec(m, fee, manager_id, list, k)
                .assignments[i] == m.assignments[i],
        m.assignments.len() <= assign_loop_spec(m, fee, manager_id, list, k).assignments.len(),
        forall|i: int|
            m.assignments.len() <= i < assign_loop_spec(m, fee, manager_id, list, k)
                .assignments.len() ==> assign_loop_spec(m, fee, manager_id, list, k)
                .assignments[i].fee_id == fee.id && !assign_loop_spec(m, fee, manager_id, list, k)
                .assignments[i].is_paid,
    decreases k,
{
    if k > 0 {
        lemma_assign_loop_wf(m, fee, manager_id, list, k - 1);
        let prev = assign_loop_spec(m, fee, manager_id, list, k - 1);
        let cur = assign_loop_spec(m, fee, manager_id, list, k);
        let room = m.rooms[k - 1];
        if list.contains(room.room_number) && !has_room_fee(
            prev,
            room.room_number as int,
            fee.id as int,
        ) {
            assert(wf_fees(cur));
            assert forall|i: int| 0 <= i < cur.assignments.len() implies has_fee(
                cur,
                cur.assignments[i].fee_id as int,
            ) by {
                if i < prev.assignments.len() {
                    assert(has_fee(prev, prev.assignments[i].fee_id as int));
                } else {
                    assert(cur.assignments[i].fee_id == fee.id);
                }
            }
            assert forall|i: int| 0 <= i < cur.transactions.len() implies has_assignment(
                cur,
                cur.transactions[i].assignment_id as int,
            ) by {
                assert(has_assignment(prev, prev.transactions[i].assignment_id as int));
                let w = choose|j: int|
                    0 <= j < prev.assignments.len() && prev.assignments[j].assignment_id
                        == prev.transactions[i].assignment_id;
                assert(cur.assignments[w].assignment_id == cur.transactions[i].assignment_id);
            }
            assert forall|i: int, j: int|
                0 <= i < cur.transactions.len() && 0 <= j < cur.assignments.len()
                    && cur.assignments[j].assignment_id == cur.transactions[i].assignment_id
                implies cur.assignments[j].is_paid by {
                if j < prev.assignments.len() {
                    assert(prev.assignments[j].is_paid);
                } else {
                    let w = choose|q: int|
                        0 <= q < prev.assignments.len() && prev.assignments[q].assignment_id
                            == prev.transactions[i].assignment_id;
                    assert(prev.assignments[w].assignment_id < prev.next_assignment_id);
                    assert(false);
                }
            }
            assert(wf_payments(cur));
            assert(wf_accounts(cur));
        }
    }
}

impl Store {
    /// Membership of a room number in the requested list.
    fn list_contains(list: &Vec<i32>, x: i32) -> (r: bool)
        ensures
            r == list@.contains(x),
    {
        let n = list.len();
        let mut i: usize = 0;
        while i < n
            invariant
                i <= n,
                n == list@.len(),
                forall|j: int| 0 <= j < i ==> list@[j] != x,
            decreases n - i,
        {
            if list[i] == x {
                assert(list@[i as int] == x);
                return true;
            }
            i += 1;
        }
        false
    }

    /// Manager action: assign the fee to every listed room. A room already
    /// holding the fee is skipped silently; each newly assigned room's
    /// tenant is notified. The whole request is rejected with `NotFound`
    /// when the manager, the fee, or any listed room does not exist, or a
    /// room is listed twice.
    pub fn assign_fee(&mut self, manager_id: i32, fee_id: i32, room_numbers: &Vec<i32>) -> (r:
        Result<(), ApiError>)
        requires
            wf(old(self)@),
            old(self)@.next_assignment_id + old(self)@.rooms.len() <= i32::MAX,
            old(self)@.next_notification_id + old(self)@.rooms.len() <= i32::MAX,
        ensures
            wf(final(self)@),
            final(self)@ == assign_fee_spec(old(self)@, manager_id, fee_id, room_numbers@).0,
            r == assign_fee_spec(old(self)@, manager_id, fee_id, room_numbers@).1,
    {
        if self.user_pos(manager_id).is_none() {
            return Err(ApiError::NotFound);
        }
        let fp = match self.fee_pos(fee_id) {
            Some(fp) => fp,
            None => {
                return Err(ApiError::NotFound);
            },
        };
        proof {
            assert(fp as int == fee_ix(self@, fee_id as int));
        }
        // every listed room must exist, each exactly once
        let nl = room_numbers.len();
        let mut li: usize = 0;
        while li < nl
            invariant
                li <= nl,
                nl == room_numbers@.len(),
                wf(self@),
                self@ == old(self)@,
                forall|i: int| 0 <= i < li ==> has_room(self@, #[trigger] room_numbers@[i] as int),
                forall|i: int, j: int|
                    0 <= i < j < li ==> room_numbers@[i] != room_numbers@[j],
            decreases nl - li,
        {
            if self.room_pos(room_numbers[li]).is_none() {
                return Err(ApiError::NotFound);
            }
            let mut lj: usize = 0;
            while lj < li
                invariant
                    lj <= li < nl,
                    nl == room_numbers@.len(),
                    wf(self@),
                    self@ == old(self)@,
                    forall|j: int| 0 <= j < lj ==> room_numbers@[j] != room_numbers@[li as int],
                decreases li - lj,
            {
                if room_numbers[lj] == room_numbers[li] {
                    return Err(ApiError::NotFound);
                }
                lj += 1;
            }
            li += 1;
        }
        proof {
            assert(rooms_listed_ok(self@, room_numbers@));
        }
        let ghost fee_model = self@.fees[fp as int];
        let fee_due = self.fees[fp].due_date;
        let fee_amount = self.fees[fp].amount;
        // walk the rooms table in order, assigning where the fee is missing
        let nr = self.rooms.len();
        let mut k: usize = 0;
        while k < nr
            invariant
                k <= nr,
                nr == old(self)@.rooms.len(),
                wf(self@),
                wf(old(self)@),
                has_fee(old(self)@, fee_id as int),
                fee_model == old(self)@.fees[fee_ix(old(self)@, fee_id as int)],
                fee_model.id == fee_id,
                fee_model.due_date == fee_due,
                fee_model.amount == fee_amount,
                fp < old(self)@.fees.len(),
                old(self)@.fees[fp as int] == fee_model,
                old(self)@.next_assignment_id + nr <= i32::MAX,
                old(self)@.next_notification_id + nr <= i32::MAX,
                self@ == assign_loop_spec(
                    old(self)@,
                    fee_model,
                    manager_id,
                    room_numbers@,
                    k as int,
                ),
            decreases nr - k,
        {
            proof {
                lemma_assign_loop_wf(
                    old(self)@,
                    fee_model,
                    manager_id,
                    room_numbers@,
                    k as int,
                );
                lemma_assign_loop_wf(
                    old(self)@,
                    fee_model,
                    manager_id,
                    room_numbers@,
                    k as int + 1,
                );
            }
            let room = self.rooms[k];
            if Self::list_contains(room_numbers, room.room_number) {
                if self.room_fee_pos(room.room_number, fee_id).is_none() {
                    let a = Assignment {
                        assignment_id: self.next_assignment_id,
                        room_number: room.room_number,
                        fee_id: fee_id,
                        due_date: fee_due,
                        payment_date: None,
                        is_paid: false,
                    };
                    self.assignments.push(a);
                    let title = compose_note_title(self.fees[fp].name.as_str());
                    let message = compose_note_message(
                        room.room_number,
                        self.fees[fp].name.as_str(),
                        fee_amount,
                        fee_due,
                    );
                    let note = crate::model::Notification {
                        id: self.next_notification_id,
                        title,
                        message,
                        from_user: manager_id,
                        to_user: room.tenant_id,
                    };
                    self.notifications.push(note);
                    self.next_assignment_id = self.next_assignment_id + 1;
                    self.next_notification_id = self.next_notification_id + 1;
                    proof {
                        assert(self@.notifications =~= assign_loop_spec(
                            old(self)@,
                            fee_model,
                            manager_id,
                            room_numbers@,
                            k as int + 1,
                        ).notifications);
                        assert(self@ =~= assign_loop_spec(
                            old(self)@,
                            fee_model,
                            manager_id,
                            room_numbers@,
                            k as int + 1,
                        ));
                    }
                } else {
                    proof {
                        assert(self@ =~= assign_loop_spec(
                            old(self)@,
                            fee_model,
                            manager_id,
                            room_numbers@,
                            k as int + 1,
                        ));
                    }
                }
            } else {
                proof {
                    assert(self@ =~= assign_loop_spec(
                        old(self)@,
                        fee_model,
                        manager_id,
                        room_numbers@,
                        k as int + 1,
                    ));
                }
            }
            k += 1;
        }
        Ok(())
    }
}

} // verus!
