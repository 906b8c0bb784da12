use vstd::prelude::*;

use crate::ApiError;
use crate::api::WebhookPayload;
use crate::codes::extract_spec;
use crate::codes::extract_code;
use crate::datetime::{datetime_secs_of, parse_datetime_secs};
use crate::model::{
    Assignment, Fee, FeeModel, Recurrence, StoreModel, Transaction, assignment_ix, fee_ix,
    forward_link_ix,
    has_assignment, has_fee, has_forward_link, has_recurrence_of, has_room_fee, has_tenant_room,
    has_user, ids_headroom, interval_spec, is_forward_link, mint_due_ok, recurrence_of_ix,
    room_fee_ix, tenant_room_ix, wf, wf_accounts, wf_fees, wf_payments, DUE_DATE_MAX,
    DUE_DATE_MIN, RecurrenceType, SECS_PER_MONTH, SECS_PER_WEEK, SECS_PER_YEAR,
};
use crate::store::Store;
use vstd::string::StrSliceExecFns;

verus! {

/// The given assignment marked settled at `when`.
pub open spec fn mark_paid(a: Assignment, when: i64) -> Assignment {
    Assignment { is_paid: true, payment_date: Some(when), ..a }
}

/// Settlement step: mark the assignment at index `ai` paid and append the
/// matching transaction row.
pub open spec fn settle_spec(m: StoreModel, ai: int, amount: i64, when: i64) -> StoreModel {
    StoreModel {
        assignments: m.assignments.update(ai, mark_paid(m.assignments[ai], when)),
        transactions: m.transactions.push(
            Transaction {
                id: m.next_transaction_id as i32,
                amount: amount,
                created_at: when,
                assignment_id: m.assignments[ai].assignment_id,
            },
        ),
        next_transaction_id: m.next_transaction_id + 1,
        ..m
    }
}

/// Recurrence-advance step, after the fee `fee_id` was settled for `room`:
/// reuse an existing forward link, mint the next period for a chain end, or
/// do nothing for a non-recurring fee. The flag is false when the advance
/// fails because the room already holds the next fee (the uniqueness
/// constraint on room and fee rejects the write).
pub open spec fn advance_spec(m: StoreModel, room: i32, fee_id: i32, now: i64) -> (StoreModel,
    bool) {
    if has_forward_link(m, fee_id as int) {
        let link = m.recurrences[forward_link_ix(m, fee_id as int)];
        if has_room_fee(m, room as int, link.fee_id as int) {
            (m, false)
        } else {
            (
                StoreModel {
                    assignments: m.assignments.push(
                        Assignment {
                            assignment_id: m.next_assignment_id as i32,
                            room_number: room,
                            fee_id: link.fee_id,
                            due_date: link.due_date,
                            payment_date: None,
                            is_paid: false,
                        },
                    ),
                    next_assignment_id: m.next_assignment_id + 1,
                    ..m
                },
                true,
            )
        }
    } else if has_recurrence_of(m, fee_id as int) {
        let old_fee = m.fees[fee_ix(m, fee_id as int)];
        let new_due = (old_fee.due_date + interval_spec(old_fee.recurrence_type->0)) as i64;
        (
            StoreModel {
                fees: m.fees.push(
                    FeeModel {
                        id: m.next_fee_id as i32,
                        name: old_fee.name,
                        amount: old_fee.amount,
                        is_required: old_fee.is_required,
                        created_at: now,
                        due_date: new_due,
                        is_recurring: true,
                        recurrence_type: old_fee.recurrence_type,
                    },
                ),
                assignments: m.assignments.push(
                    Assignment {
                        assignment_id: m.next_assignment_id as i32,
                        room_number: room,
                        fee_id: m.next_fee_id as i32,
                        due_date: new_due,
                        payment_date: None,
                        is_paid: false,
                    },
                ),
                recurrences: m.recurrences.push(
                    Recurrence {
                        recurrence_id: m.next_recurrence_id as i32,
                        fee_id: m.next_fee_id as i32,
                        previous_fee_id: fee_id,
                        due_date: new_due,
                    },
                ),
                next_fee_id: m.next_fee_id + 1,
                next_assignment_id: m.next_assignment_id + 1,
                next_recurrence_id: m.next_recurrence_id + 1,
                ..m
            },
            true,
        )
    } else {
        (m, true)
    }
}

/// The manual settlement path: resolve the caller to a room, find the room's
/// assignment of the fee, settle it unless it is already paid (an idempotent
/// no-op), then advance the recurrence chain.
pub open spec fn pay_fee_spec(m: StoreModel, user_id: i32, fee_id: i32, now: i64) -> (StoreModel,
    Result<(), ApiError>) {
    if !has_user(m, user_id as int) {
        (m, Err(ApiError::NotFound))
    } else if !has_tenant_room(m, user_id as int) {
        (m, Err(ApiError::NotFound))
    } else {
        let room = m.rooms[tenant_room_ix(m, user_id as int)].room_number;
        if !has_room_fee(m, room as int, fee_id as int) {
            (m, Err(ApiError::NotFound))
        } else {
            let ai = room_fee_ix(m, room as int, fee_id as int);
            if m.assignments[ai].is_paid {
                (m, Ok(()))
            } else {
                let amount = m.fees[fee_ix(m, fee_id as int)].amount;
                let step = advance_spec(settle_spec(m, ai, amount, now), room, fee_id, now);
                (
                    step.0,
                    if step.1 {
                        Ok(())
                    } else {
                        Err(ApiError::Internal)
                    },
                )
            }
        }
    }
}

/// The webhook settlement path: read the assignment id out of the transfer's
/// content, reject an already-paid assignment or a transfer whose amount is
/// not exactly the fee's amount, then settle at the transfer's reported date
/// and advance the chain.
pub open spec fn webhook_spec(
    m: StoreModel,
    content: Seq<char>,
    date_text: Seq<char>,
    transfer_amount: i64,
    now: i64,
) -> (StoreModel, Result<(), ApiError>) {
    let when = match datetime_secs_of(date_text) {
        Some(t) => t,
        None => now,
    };
    match extract_spec(content) {
        None => (m, Err(ApiError::Internal)),
        Some(code) => {
            if !has_assignment(m, code) {
                (m, Err(ApiError::Internal))
            } else {
                let a = m.assignments[assignment_ix(m, code)];
                if a.is_paid {
                    (m, Err(ApiError::BadRequest))
                } else if m.fees[fee_ix(m, a.fee_id as int)].amount != transfer_amount {
                    (m, Err(ApiError::BadRequest))
                } else {
                    let m1 = settle_spec(m, assignment_ix(m, code), transfer_amount, when);
                    let step = advance_spec(m1, a.room_number, a.fee_id, now);
                    (
                        step.0,
                        if step.1 {
                            Ok(())
                        } else {
                            Err(ApiError::Internal)
                        },
                    )
                }
            }
        },
    }
}

/// The chain of the fee a webhook on this content would settle can still be
/// advanced without leaving the representable due-date window.
pub open spec fn webhook_mint_ok(m: StoreModel, content: Seq<char>) -> bool {
    match extract_spec(content) {
        None => true,
        Some(code) => if has_assignment(m, code) {
            mint_due_ok(m, m.assignments[assignment_ix(m, code)].fee_id as int)
        } else {
            true
        },
    }
}

/// The interval a recurrence advance adds to a due date: exactly 7 days for
/// weekly, 30 for monthly, and 365 for yearly recurrence.
pub fn interval_secs(rt: RecurrenceType) -> (s: i64)
    ensures
        s == interval_spec(rt),
        rt is Weekly ==> s == 7 * 86400,
        rt is Monthly ==> s == 30 * 86400,
        rt is Yearly ==> s == 365 * 86400,
{
    match rt {
        RecurrenceType::Weekly => SECS_PER_WEEK,
        RecurrenceType::Monthly => SECS_PER_MONTH,
        RecurrenceType::Yearly => SECS_PER_YEAR,
    }
}


pub proof fn lemma_settle_wf(m: StoreModel, ai: int, amount: i64, when: i64)
    requires
        wf(m),
        m.next_transaction_id < i32::MAX,
        0 <= ai < m.assignments.len(),
        !m.assignments[ai].is_paid,
    ensures
        wf(settle_spec(m, ai, amount, when)),
{
    let mn = settle_spec(m, ai, amount, when);
    let aid = m.assignments[ai].assignment_id;
    assert(forall|i: int|
        0 <= i < m.assignments.len() && i != ai ==> mn.assignments[i] == m.assignments[i]);
    assert(mn.assignments[ai] == mark_paid(m.assignments[ai], when));
    assert(forall|i: int| 0 <= i < m.transactions.len() ==> mn.transactions[i] == m.transactions[i]);
    // no transaction references the settled assignment yet: one that did would
    // force the assignment to be paid already
    assert forall|i: int| 0 <= i < m.transactions.len() implies m.transactions[i].assignment_id
        != aid by {
        if m.transactions[i].assignment_id == aid {
            assert(m.assignments[ai].is_paid);
        }
    }
    assert(wf_fees(mn));
    assert forall|i: int| 0 <= i < mn.assignments.len() implies has_fee(
        mn,
        mn.assignments[i].fee_id as int,
    ) by {
        assert(mn.assignments[i].fee_id == m.assignments[i].fee_id);
        assert(has_fee(m, m.assignments[i].fee_id as int));
    }
    assert forall|i: int| 0 <= i < mn.transactions.len() implies has_assignment(
        mn,
        mn.transactions[i].assignment_id as int,
    ) by {
        if i < m.transactions.len() {
            assert(has_assignment(m, m.transactions[i].assignment_id as int));
            let w = choose|j: int|
                0 <= j < m.assignments.len() && m.assignments[j].assignment_id
                    == m.transactions[i].assignment_id;
            assert(mn.assignments[w].assignment_id == m.transactions[i].assignment_id);
        } else {
            assert(mn.assignments[ai].assignment_id == aid);
        }
    }
    assert(wf_payments(mn));
    assert(wf_accounts(mn));
}

pub proof fn lemma_advance_wf(m: StoreModel, room: i32, fee_id: i32, now: i64)
    requires
        wf(m),
        m.next_fee_id < i32::MAX,
        m.next_assignment_id < i32::MAX,
        m.next_recurrence_id < i32::MAX,
        mint_due_ok(m, fee_id as int),
    ensures
        wf(advance_spec(m, room, fee_id, now).0),
{
    let mn = advance_spec(m, room, fee_id, now).0;
    if has_forward_link(m, fee_id as int) {
        let link = m.recurrences[forward_link_ix(m, fee_id as int)];
        if has_room_fee(m, room as int, link.fee_id as int) {
        } else {
            assert(forall|i: int|
                0 <= i < m.assignments.len() ==> mn.assignments[i] == m.assignments[i]);
            assert(wf_fees(mn));
            assert forall|i: int| 0 <= i < mn.assignments.len() implies has_fee(
                mn,
                mn.assignments[i].fee_id as int,
            ) by {
                if i < m.assignments.len() {
                    assert(has_fee(m, m.assignments[i].fee_id as int));
                } else {
                    assert(0 <= forward_link_ix(m, fee_id as int) < m.recurrences.len());
                    assert(has_fee(m, link.fee_id as int));
                }
            }
            assert forall|i: int| 0 <= i < mn.transactions.len() implies has_assignment(
                mn,
                mn.transactions[i].assignment_id as int,
            ) by {
                assert(has_assignment(m, m.transactions[i].assignment_id as int));
                let w = choose|j: int|
                    0 <= j < m.assignments.len() && m.assignments[j].assignment_id
                        == m.transactions[i].assignment_id;
                assert(mn.assignments[w].assignment_id == m.transactions[i].assignment_id);
            }
            // the fresh assignment key is referenced by no transaction
            assert forall|i: int, j: int|
                0 <= i < mn.transactions.len() && 0 <= j < mn.assignments.len()
                    && mn.assignments[j].assignment_id == mn.transactions[i].assignment_id
                implies mn.assignments[j].is_paid by {
                if j < m.assignments.len() {
                    assert(m.assignments[j].is_paid);
                } else {
                    assert(mn.assignments[j].assignment_id == m.next_assignment_id as i32);
                    assert(has_assignment(m, m.transactions[i].assignment_id as int));
                    let w = choose|q: int|
                        0 <= q < m.assignments.len() && m.assignments[q].assignment_id
                            == m.transactions[i].assignment_id;
                    assert(m.assignments[w].assignment_id < m.next_assignment_id);
                    assert(false);
                }
            }
            assert(wf_payments(mn));
            assert(wf_accounts(mn));
        }
    } else if has_recurrence_of(m, fee_id as int) {
        let fi = fee_ix(m, fee_id as int);
        let ri = recurrence_of_ix(m, fee_id as int);
        assert(0 <= ri < m.recurrences.len() && m.recurrences[ri].fee_id == fee_id);
        assert(has_fee(m, fee_id as int));
        assert(0 <= fi < m.fees.len() && m.fees[fi].id == fee_id);
        assert(m.fees[fi].recurrence_type is Some);
        let old_fee = m.fees[fi];
        let new_due = (old_fee.due_date + interval_spec(old_fee.recurrence_type->0)) as i64;
        assert(DUE_DATE_MIN <= old_fee.due_date);
        assert(old_fee.due_date + interval_spec(old_fee.recurrence_type->0) <= DUE_DATE_MAX);
        assert(DUE_DATE_MIN <= new_due <= DUE_DATE_MAX);
        // every id referenced by a recurrence row belongs to an existing fee,
        // so it is smaller than the fresh fee id
        assert forall|i: int| 0 <= i < m.recurrences.len() implies m.recurrences[i].fee_id
            < m.next_fee_id by {
            assert(has_fee(m, m.recurrences[i].fee_id as int));
            let w = choose|j: int|
                0 <= j < m.fees.len() && m.fees[j].id == m.recurrences[i].fee_id;
            assert(m.fees[w].id < m.next_fee_id);
        }
        assert forall|i: int| 0 <= i < m.assignments.len() implies m.assignments[i].fee_id
            < m.next_fee_id by {
            assert(has_fee(m, m.assignments[i].fee_id as int));
            let w = choose|j: int|
                0 <= j < m.fees.len() && m.fees[j].id == m.assignments[i].fee_id;
            assert(m.fees[w].id < m.next_fee_id);
        }
        assert(forall|i: int| 0 <= i < m.fees.len() ==> mn.fees[i] == m.fees[i]);
        assert(forall|i: int|
            0 <= i < m.recurrences.len() ==> mn.recurrences[i] == m.recurrences[i]);
        assert(forall|i: int|
            0 <= i < m.assignments.len() ==> mn.assignments[i] == m.assignments[i]);
        assert forall|x: int| has_fee(m, x) implies has_fee(mn, x) by {
            let w = choose|j: int| 0 <= j < m.fees.len() && m.fees[j].id == x;
            assert(mn.fees[w].id == x);
        }
        assert(mn.fees[m.fees.len() as int].id == m.next_fee_id as i32);
        assert(has_fee(mn, m.next_fee_id));
        assert(wf_fees(mn));
        assert forall|i: int| 0 <= i < mn.assignments.len() implies has_fee(
            mn,
            mn.assignments[i].fee_id as int,
        ) by {
            if i < m.assignments.len() {
                assert(has_fee(m, m.assignments[i].fee_id as int));
            } else {
                assert(mn.assignments[i].fee_id == m.next_fee_id as i32);
            }
        }
        assert forall|i: int| 0 <= i < mn.transactions.len() implies has_assignment(
            mn,
            mn.transactions[i].assignment_id as int,
        ) by {
            assert(has_assignment(m, m.transactions[i].assignment_id as int));
            let w = choose|j: int|
                0 <= j < m.assignments.len() && m.assignments[j].assignment_id
                    == m.transactions[i].assignment_id;
            assert(mn.assignments[w].assignment_id == m.transactions[i].assignment_id);
        }
        assert forall|i: int, j: int|
            0 <= i < mn.transactions.len() && 0 <= j < mn.assignments.len()
                && mn.assignments[j].assignment_id == mn.transactions[i].assignment_id
            implies mn.assignments[j].is_paid by {
            if j < m.assignments.len() {
                assert(m.assignments[j].is_paid);
            } else {
                assert(has_assignment(m, m.transactions[i].assignment_id as int));
                let w = choose|q: int|
                    0 <= q < m.assignments.len() && m.assignments[q].assignment_id
                        == m.transactions[i].assignment_id;
                assert(m.assignments[w].assignment_id < m.next_assignment_id);
                assert(false);
            }
        }
        assert(wf_payments(mn));
        assert(wf_accounts(mn));
    } else {
    }
}

impl Store {
    /// Marks the assignment at position `k` paid at `when` and records the
    /// settled amount as a transaction.
    fn settle_at(&mut self, k: usize, amount: i64, when: i64)
        requires
            wf(old(self)@),
            old(self)@.next_transaction_id < i32::MAX,
            k < old(self)@.assignments.len(),
            !old(self)@.assignments[k as int].is_paid,
        ensures
            final(self)@ == settle_spec(old(self)@, k as int, amount, when),
            wf(final(self)@),
    {
        let aid = self.assignments[k].assignment_id;
        let t = Transaction {
            id: self.next_transaction_id,
            amount,
            created_at: when,
            assignment_id: aid,
        };
        self.transactions.push(t);
        self.next_transaction_id = self.next_transaction_id + 1;
        let mut a = self.assignments[k];
        a.is_paid = true;
        a.payment_date = Some(when);
        self.assignments[k] = a;
        proof {
            lemma_settle_wf(old(self)@, k as int, amount, when);
            assert(self@ =~= settle_spec(old(self)@, k as int, amount, when));
        }
    }

    /// Advance step after settling `fee_id` for `room`; false means the room
    /// already held the chain's next fee, so the new assignment was refused.
    fn advance(&mut self, room: i32, fee_id: i32, now: i64) -> (ok: bool)
        requires
            wf(old(self)@),
            old(self)@.next_fee_id < i32::MAX,
            old(self)@.next_assignment_id < i32::MAX,
            old(self)@.next_recurrence_id < i32::MAX,
            mint_due_ok(old(self)@, fee_id as int),
        ensures
            final(self)@ == advance_spec(old(self)@, room, fee_id, now).0,
            ok == advance_spec(old(self)@, room, fee_id, now).1,
            wf(final(self)@),
    {
        proof {
            lemma_advance_wf(old(self)@, room, fee_id, now);
        }
        let fl = self.forward_link_pos(fee_id);
        match fl {
            Some(ri) => {
                proof {
                    let ix = forward_link_ix(self@, fee_id as int);
                    assert(0 <= ix < self@.recurrences.len() && is_forward_link(
                        self@.recurrences[ix],
                        fee_id as int,
                    ));
                    assert(ix == ri as int) by {
                        if ix != ri as int {
                            assert(is_forward_link(
                                self@.recurrences[ix],
                                self@.recurrences[ix].previous_fee_id as int,
                            ));
                            assert(is_forward_link(
                                self@.recurrences[ri as int],
                                self@.recurrences[ix].previous_fee_id as int,
                            ));
                        }
                    };
                }
                let link = self.recurrences[ri];
                if self.room_fee_pos(room, link.fee_id).is_some() {
                    proof {
                        assert(self@ =~= advance_spec(old(self)@, room, fee_id, now).0);
                    }
                    false
                } else {
                    let a = Assignment {
                        assignment_id: self.next_assignment_id,
                        room_number: room,
                        fee_id: link.fee_id,
                        due_date: link.due_date,
                        payment_date: None,
                        is_paid: false,
                    };
                    self.assignments.push(a);
                    self.next_assignment_id = self.next_assignment_id + 1;
                    proof {
                        assert(self@ =~= advance_spec(old(self)@, room, fee_id, now).0);
                    }
                    true
                }
            },
            None => {
                let re = self.recurrence_of_pos(fee_id);
                if re.is_none() {
                    return true;
                }
                proof {
                    let ri = recurrence_of_ix(self@, fee_id as int);
                    assert(self@.recurrences[ri].fee_id == fee_id);
                    assert(has_fee(self@, fee_id as int));
                }
                let fp = match self.fee_pos(fee_id) {
                    Some(fp) => fp,
                    None => {
                        proof {
                            assert(false);
                        }
                        return true;
                    },
                };
                proof {
                    assert(fp as int == fee_ix(self@, fee_id as int));
                }
                let old_fee = &self.fees[fp];
                proof {
                    let ri = recurrence_of_ix(self@, fee_id as int);
                    assert(0 <= ri < self@.recurrences.len() && self@.recurrences[ri].fee_id
                        == fee_id);
                    assert(self@.fees[fp as int].recurrence_type is Some);
                }
                let rt = old_fee.recurrence_type.unwrap();
                let step = interval_secs(rt);
                let new_due = old_fee.due_date + step;
                let new_fee_id = self.next_fee_id;
                let nf = Fee {
                    id: new_fee_id,
                    name: clone_string(&self.fees[fp].name),
                    amount: old_fee.amount,
                    is_required: old_fee.is_required,
                    created_at: now,
                    due_date: new_due,
                    is_recurring: true,
                    recurrence_type: old_fee.recurrence_type,
                };
                self.fees.push(nf);
                let a = Assignment {
                    assignment_id: self.next_assignment_id,
                    room_number: room,
                    fee_id: new_fee_id,
                    due_date: new_due,
                    payment_date: None,
                    is_paid: false,
                };
                self.assignments.push(a);
                let r = Recurrence {
                    recurrence_id: self.next_recurrence_id,
                    fee_id: new_fee_id,
                    previous_fee_id: fee_id,
                    due_date: new_due,
                };
                self.recurrences.push(r);
                self.next_fee_id = self.next_fee_id + 1;
                self.next_assignment_id = self.next_assignment_id + 1;
                self.next_recurrence_id = self.next_recurrence_id + 1;
                proof {
                    assert(self@.fees =~= advance_spec(old(self)@, room, fee_id, now).0.fees);
                    assert(self@ =~= advance_spec(old(self)@, room, fee_id, now).0);
                }
                true
            },
        }
    }

    /// Manual settlement of `fee_id` by the tenant `user_id` at `now`:
    /// settles the caller's room's assignment, records one transaction, and
    /// advances the recurrence chain; paying an already-paid assignment is an
    /// idempotent no-op that still reports success.
    pub fn pay_fee(&mut self, user_id: i32, fee_id: i32, now: i64) -> (r: Result<(), ApiError>)
        requires
            wf(old(self)@),
            ids_headroom(old(self)@),
            mint_due_ok(old(self)@, fee_id as int),
        ensures
            wf(final(self)@),
            final(self)@ == pay_fee_spec(old(self)@, user_id, fee_id, now).0,
            r == pay_fee_spec(old(self)@, user_id, fee_id, now).1,
    {
        if self.user_pos(user_id).is_none() {
            return Err(ApiError::NotFound);
        }
        let rp = match self.tenant_room_pos(user_id) {
            Some(rp) => rp,
            None => {
                return Err(ApiError::NotFound);
            },
        };
        proof {
            let ix = tenant_room_ix(self@, user_id as int);
            assert(0 <= ix < self@.rooms.len() && self@.rooms[ix].tenant_id == user_id);
            assert(ix == rp as int);
        }
        let room = self.rooms[rp].room_number;
        let ap = match self.room_fee_pos(room, fee_id) {
            Some(ap) => ap,
            None => {
                return Err(ApiError::NotFound);
            },
        };
        proof {
            let ix = room_fee_ix(self@, room as int, fee_id as int);
            assert(0 <= ix < self@.assignments.len() && self@.assignments[ix].room_number == room
                && self@.assignments[ix].fee_id == fee_id);
            assert(ix == ap as int);
        }
        if self.assignments[ap].is_paid {
            return Ok(());
        }
        proof {
            assert(has_fee(self@, fee_id as int));
        }
        let fp = match self.fee_pos(fee_id) {
            Some(fp) => fp,
            None => {
                proof {
                    assert(false);
                }
                return Err(ApiError::Internal);
            },
        };
        proof {
            assert(fp as int == fee_ix(self@, fee_id as int));
        }
        let amount = self.fees[fp].amount;
        self.settle_at(ap, amount, now);
        let ok = self.advance(room, fee_id, now);
        if ok {
            Ok(())
        } else {
            Err(ApiError::Internal)
        }
    }

    /// Webhook settlement: the transfer's content names the assignment; an
    /// already-paid assignment and an amount differing from the fee's amount
    /// are rejected without touching the store. The settlement is dated at
    /// the transfer's reported time when it parses, else at `now`.
    pub fn webhook_payment(&mut self, payload: &WebhookPayload, now: i64) -> (r: Result<(),
        ApiError>)
        requires
            wf(old(self)@),
            ids_headroom(old(self)@),
            webhook_mint_ok(old(self)@, payload.content@),
        ensures
            wf(final(self)@),
            final(self)@ == webhook_spec(
                old(self)@,
                payload.content@,
                payload.transaction_date@,
                payload.transfer_amount,
                now,
            ).0,
            r == webhook_spec(
                old(self)@,
                payload.content@,
                payload.transaction_date@,
                payload.transfer_amount,
                now,
            ).1,
    {
        let when = match parse_datetime_secs(payload.transaction_date.as_str()) {
            Some(t) => t,
            None => now,
        };
        let code = match extract_code(payload.content.as_str()) {
            Some(c) => c,
            None => {
                return Err(ApiError::Internal);
            },
        };
        let ap = match self.assignment_pos(code) {
            Some(ap) => ap,
            None => {
                return Err(ApiError::Internal);
            },
        };
        proof {
            let ix = assignment_ix(self@, code as int);
            assert(0 <= ix < self@.assignments.len() && self@.assignments[ix].assignment_id
                == code);
            assert(ix == ap as int);
        }
        let a = self.assignments[ap];
        if a.is_paid {
            return Err(ApiError::BadRequest);
        }
        proof {
            assert(has_fee(self@, a.fee_id as int));
        }
        let fp = match self.fee_pos(a.fee_id) {
            Some(fp) => fp,
            None => {
                proof {
                    assert(false);
                }
                return Err(ApiError::Internal);
            },
        };
        proof {
            assert(fp as int == fee_ix(self@, a.fee_id as int));
        }
        if self.fees[fp].amount != payload.transfer_amount {
            return Err(ApiError::BadRequest);
        }
        self.settle_at(ap, payload.transfer_amount, when);
        let ok = self.advance(a.room_number, a.fee_id, now);
        if ok {
            Ok(())
        } else {
            Err(ApiError::Internal)
        }
    }

    /// The whole webhook endpoint: reject a request whose authorization
    /// header does not carry the expected API key, then run the webhook
    /// settlement.
    pub fn webhook_request(
        &mut self,
        auth_header: &str,
        api_key: &str,
        payload: &WebhookPayload,
        now: i64,
    ) -> (r: Result<(), ApiError>)
        requires
            wf(old(self)@),
            ids_headroom(old(self)@),
            webhook_mint_ok(old(self)@, payload.content@),
        ensures
            wf(final(self)@),
            !webhook_auth_spec(auth_header@, api_key@) ==> final(self)@ == old(self)@ && r
                == Err::<(), ApiError>(ApiError::Unauthorized),
            webhook_auth_spec(auth_header@, api_key@) ==> final(self)@ == webhook_spec(
                old(self)@,
                payload.content@,
                payload.transaction_date@,
                payload.transfer_amount,
                now,
            ).0 && r == webhook_spec(
                old(self)@,
                payload.content@,
                payload.transaction_date@,
                payload.transfer_amount,
                now,
            ).1,
    {
        if !webhook_authorized(auth_header, api_key) {
            return Err(ApiError::Unauthorized);
        }
        self.webhook_payment(payload, now)
    }

    /// Settlement status of an assignment: success exactly when it exists
    /// and is paid; a missing or unpaid assignment reports `NotFound`.
    pub fn check_payment(&self, id: i32) -> (r: Result<(), ApiError>)
        requires
            wf(self@),
        ensures
            r is Ok <==> has_assignment(self@, id as int) && self@.assignments[assignment_ix(
                self@,
                id as int,
            )].is_paid,
            r is Err ==> r == Err::<(), ApiError>(ApiError::NotFound),
    {
        match self.assignment_pos(id) {
            Some(k) => {
                proof {
                    let ix = assignment_ix(self@, id as int);
                    assert(0 <= ix < self@.assignments.len() && self@.assignments[ix].assignment_id
                        == id);
                    assert(ix == k as int);
                }
                if self.assignments[k].is_paid {
                    Ok(())
                } else {
                    Err(ApiError::NotFound)
                }
            },
            None => Err(ApiError::NotFound),
        }
    }
}

/// The authorization header of the webhook: the text `Apikey ` followed by
/// exactly the expected key.
pub open spec fn webhook_auth_spec(header: Seq<char>, key: Seq<char>) -> bool {
    &&& header.len() == key.len() + 7
    &&& header[0] == 'A'
    &&& header[1] == 'p'
    &&& header[2] == 'i'
    &&& header[3] == 'k'
    &&& header[4] == 'e'
    &&& header[5] == 'y'
    &&& header[6] == ' '
    &&& forall|i: int| 0 <= i < key.len() ==> header[7 + i] == key[i]
}

/// Whether the webhook request carries the expected API key: the header
/// must read `Apikey ` followed by the key, letter for letter.
pub fn webhook_authorized(header: &str, key: &str) -> (r: bool)
    ensures
        r == webhook_auth_spec(header@, key@),
{
    let hn = header.unicode_len();
    let kn = key.unicode_len();
    if hn < 7 || hn - 7 != kn {
        return false;
    }
    let p0 = header.get_char(0);
    let p1 = header.get_char(1);
    let p2 = header.get_char(2);
    let p3 = header.get_char(3);
    let p4 = header.get_char(4);
    let p5 = header.get_char(5);
    let p6 = header.get_char(6);
    if !(p0 == 'A' && p1 == 'p' && p2 == 'i' && p3 == 'k' && p4 == 'e' && p5 == 'y' && p6 == ' ')
    {
        return false;
    }
    let mut i: usize = 0;
    while i < kn
        invariant
            i <= kn,
            kn == key@.len(),
            hn == header@.len(),
            hn == kn + 7,
            forall|j: int| 0 <= j < i ==> header@[7 + j] == key@[j],
        decreases kn - i,
    {
        if header.get_char(7 + i) != key.get_char(i) {
            proof {
                assert(header@[7 + i as int] != key@[i as int]);
            }
            return false;
        }
        i += 1;
    }
    true
}

/// A copy of a string; view-preserving.
pub fn clone_string(s: &String) -> (r: String)
    ensures
        r@ == s@,
{
    s.clone()
}

} // verus!
