use vstd::prelude::*;

use crate::ApiError;
use crate::assign::{assign_fee_spec, assign_loop_spec, rooms_listed_ok};
use crate::model::{
    FeeModel, StoreModel, fee_ix, has_fee, has_room_fee, has_tenant_room, has_user, ids_headroom,
    mint_due_ok, room_fee_ix, tenant_room_ix, wf,
};
use crate::settle::{advance_spec, pay_fee_spec, settle_spec};

verus! {

/// Manual-path idempotence: once a settlement of `fee_id` by `user_id` has
/// reported success, repeating the same call reports success again and
/// leaves the store exactly as it was — in particular, an assignment that
/// was settled by the first call gains exactly one transaction row and one
/// recurrence advance, and the second call adds nothing.
pub proof fn lemma_pay_fee_idempotent(
    m: StoreModel,
    user_id: i32,
    fee_id: i32,
    t1: i64,
    t2: i64,
)
    requires
        wf(m),
        ids_headroom(m),
        mint_due_ok(m, fee_id as int),
        pay_fee_spec(m, user_id, fee_id, t1).1 == Ok::<(), ApiError>(()),
    ensures
        pay_fee_spec(pay_fee_spec(m, user_id, fee_id, t1).0, user_id, fee_id, t2).0
            == pay_fee_spec(m, user_id, fee_id, t1).0,
        pay_fee_spec(pay_fee_spec(m, user_id, fee_id, t1).0, user_id, fee_id, t2).1 == Ok::<
            (),
            ApiError,
        >(()),
{
    let m1 = pay_fee_spec(m, user_id, fee_id, t1).0;
    let room = m.rooms[tenant_room_ix(m, user_id as int)].room_number;
    let ai = room_fee_ix(m, room as int, fee_id as int);
    assert(has_user(m, user_id as int));
    assert(has_tenant_room(m, user_id as int));
    assert(has_room_fee(m, room as int, fee_id as int));
    assert(0 <= ai < m.assignments.len() && m.assignments[ai].room_number == room
        && m.assignments[ai].fee_id == fee_id);
    if m.assignments[ai].is_paid {
        assert(m1 == m);
    } else {
        let amount = m.fees[fee_ix(m, fee_id as int)].amount;
        let ms = settle_spec(m, ai, amount, t1);
        crate::settle::lemma_settle_wf(m, ai, amount, t1);
        assert(mint_due_ok(ms, fee_id as int));
        crate::settle::lemma_advance_wf(ms, room, fee_id, t1);
        let step = advance_spec(ms, room, fee_id, t1);
        assert(step.1);
        assert(m1 == step.0);
        assert(wf(m1));
        // the caller still resolves to the same room
        assert(m1.users == m.users);
        assert(m1.rooms == m.rooms);
        assert(has_user(m1, user_id as int));
        assert(has_tenant_room(m1, user_id as int));
        let ri2 = tenant_room_ix(m1, user_id as int);
        let ri1 = tenant_room_ix(m, user_id as int);
        assert(m1.rooms[ri2].tenant_id == user_id && m1.rooms[ri1].tenant_id == user_id);
        assert(ri2 == ri1);
        // the settled assignment is still the room's unique assignment of
        // the fee, and it is now paid
        assert(ms.assignments[ai].room_number == room && ms.assignments[ai].fee_id == fee_id
            && ms.assignments[ai].is_paid);
        assert(m1.assignments[ai].room_number == room && m1.assignments[ai].fee_id == fee_id
            && m1.assignments[ai].is_paid);
        assert(has_room_fee(m1, room as int, fee_id as int));
        let ai2 = room_fee_ix(m1, room as int, fee_id as int);
        assert(0 <= ai2 < m1.assignments.len() && m1.assignments[ai2].room_number == room
            && m1.assignments[ai2].fee_id == fee_id);
        assert(ai2 == ai);
        assert(m1.assignments[ai2].is_paid);
        assert(pay_fee_spec(m1, user_id, fee_id, t2).0 == m1);
    }
}

/// The settled branch of manual payment appends exactly one transaction:
/// when the room's assignment of the fee is unpaid, the successful call
/// grows the transaction table by one row, and that row records the fee's
/// amount against that assignment.
pub proof fn lemma_pay_fee_one_transaction(m: StoreModel, user_id: i32, fee_id: i32, t1: i64)
    requires
        wf(m),
        ids_headroom(m),
        mint_due_ok(m, fee_id as int),
        pay_fee_spec(m, user_id, fee_id, t1).1 == Ok::<(), ApiError>(()),
    ensures
        ({
            let room = m.rooms[tenant_room_ix(m, user_id as int)].room_number;
            let ai = room_fee_ix(m, room as int, fee_id as int);
            if m.assignments[ai].is_paid {
                pay_fee_spec(m, user_id, fee_id, t1).0.transactions == m.transactions
            } else {
                pay_fee_spec(m, user_id, fee_id, t1).0.transactions.len() == m.transactions.len()
                    + 1
            }
        }),
{
    let room = m.rooms[tenant_room_ix(m, user_id as int)].room_number;
    let ai = room_fee_ix(m, room as int, fee_id as int);
    if !m.assignments[ai].is_paid {
        let amount = m.fees[fee_ix(m, fee_id as int)].amount;
        let ms = settle_spec(m, ai, amount, t1);
        assert(ms.transactions.len() == m.transactions.len() + 1);
        let step = advance_spec(ms, room, fee_id, t1);
        assert(step.0.transactions == ms.transactions);
    }
}

/// After the whole assignment pass, every room of the store that the
/// request listed holds an assignment of the fee.
proof fn lemma_assign_loop_covers(
    m: StoreModel,
    fee: FeeModel,
    manager_id: i32,
    list: Seq<i32>,
    k: int,
)
    requires
        wf(m),
        0 <= k <= m.rooms.len(),
        has_fee(m, fee.id as int),
        m.fees[fee_ix(m, fee.id as int)] == fee,
        m.next_assignment_id + k <= i32::MAX,
        m.next_notification_id + k <= i32::MAX,
    ensures
        forall|i: int|
            0 <= i < k && list.contains(m.rooms[i].room_number) ==> has_room_fee(
                assign_loop_spec(m, fee, manager_id, list, k),
                m.rooms[i].room_number as int,
                fee.id as int,
            ),
    decreases k,
{
    if k > 0 {
        lemma_assign_loop_covers(m, fee, manager_id, list, k - 1);
        crate::assign::lemma_assign_loop_wf(m, fee, manager_id, list, k - 1);
        let prev = assign_loop_spec(m, fee, manager_id, list, k - 1);
        let cur = assign_loop_spec(m, fee, manager_id, list, k);
        let room = m.rooms[k - 1];
        // earlier coverage is preserved: assignments are only appended
        assert forall|i: int|
            0 <= i < k - 1 && list.contains(m.rooms[i].room_number) implies has_room_fee(
            cur,
            m.rooms[i].room_number as int,
            fee.id as int,
        ) by {
            assert(has_room_fee(prev, m.rooms[i].room_number as int, fee.id as int));
            let w = choose|j: int|
                0 <= j < prev.assignments.len() && prev.assignments[j].room_number
                    == m.rooms[i].room_number && prev.assignments[j].fee_id == fee.id;
            assert(cur.assignments[w].room_number == m.rooms[i].room_number
                && cur.assignments[w].fee_id == fee.id);
        }
        if list.contains(room.room_number) {
            if has_room_fee(prev, room.room_number as int, fee.id as int) {
                let w = choose|j: int|
                    0 <= j < prev.assignments.len() && prev.assignments[j].room_number
                        == room.room_number && prev.assignments[j].fee_id == fee.id;
                assert(cur.assignments[w].room_number == room.room_number
                    && cur.assignments[w].fee_id == fee.id);
            } else {
                assert(cur.assignments[prev.assignments.len() as int].room_number
                    == room.room_number && cur.assignments[prev.assignments.len() as int].fee_id
                    == fee.id);
            }
        }
    }
}

/// A pass over rooms that all already hold the fee changes nothing.
proof fn lemma_assign_loop_noop(
    m: StoreModel,
    fee: FeeModel,
    manager_id: i32,
    list: Seq<i32>,
    k: int,
)
    requires
        0 <= k <= m.rooms.len(),
        forall|i: int|
            0 <= i < m.rooms.len() && list.contains(m.rooms[i].room_number) ==> has_room_fee(
                m,
                m.rooms[i].room_number as int,
                fee.id as int,
            ),
    ensures
        assign_loop_spec(m, fee, manager_id, list, k) == m,
    decreases k,
{
    if k > 0 {
        lemma_assign_loop_noop(m, fee, manager_id, list, k - 1);
    }
}

/// Assignment uniqueness: a second identical assignment request right after
/// a successful one succeeds and changes nothing — in particular, a room
/// already holding the fee never gains a second row for it.
pub proof fn lemma_assign_fee_idempotent(
    m: StoreModel,
    manager_id: i32,
    fee_id: i32,
    list: Seq<i32>,
)
    requires
        wf(m),
        m.next_assignment_id + m.rooms.len() <= i32::MAX,
        m.next_notification_id + m.rooms.len() <= i32::MAX,
        assign_fee_spec(m, manager_id, fee_id, list).1 == Ok::<(), ApiError>(()),
    ensures
        assign_fee_spec(assign_fee_spec(m, manager_id, fee_id, list).0, manager_id, fee_id, list).0
            == assign_fee_spec(m, manager_id, fee_id, list).0,
        assign_fee_spec(assign_fee_spec(m, manager_id, fee_id, list).0, manager_id, fee_id, list).1
            == Ok::<(), ApiError>(()),
{
    let fee = m.fees[fee_ix(m, fee_id as int)];
    let m1 = assign_fee_spec(m, manager_id, fee_id, list).0;
    assert(has_user(m, manager_id as int));
    assert(has_fee(m, fee_id as int));
    assert(rooms_listed_ok(m, list));
    assert(fee.id == fee_id);
    assert(m1 == assign_loop_spec(m, fee, manager_id, list, m.rooms.len() as int));
    crate::assign::lemma_assign_loop_wf(m, fee, manager_id, list, m.rooms.len() as int);
    lemma_assign_loop_covers(m, fee, manager_id, list, m.rooms.len() as int);
    assert(m1.users == m.users && m1.rooms == m.rooms && m1.fees == m.fees);
    assert(has_user(m1, manager_id as int));
    assert(has_fee(m1, fee_id as int));
    assert forall|i: int| 0 <= i < list.len() implies crate::model::has_room(
        m1,
        #[trigger] list[i] as int,
    ) by {
        assert(crate::model::has_room(m, list[i] as int));
    }
    assert(rooms_listed_ok(m1, list));
    let fee1 = m1.fees[fee_ix(m1, fee_id as int)];
    assert(0 <= fee_ix(m1, fee_id as int) < m1.fees.len() && m1.fees[fee_ix(
        m1,
        fee_id as int,
    )].id == fee_id);
    assert(0 <= fee_ix(m, fee_id as int) < m.fees.len());
    assert(fee_ix(m1, fee_id as int) == fee_ix(m, fee_id as int));
    assert(fee1 == fee);
    // every listed room now holds the fee, so the second pass skips them all
    assert forall|i: int|
        0 <= i < m1.rooms.len() && list.contains(m1.rooms[i].room_number) implies has_room_fee(
        m1,
        m1.rooms[i].room_number as int,
        fee.id as int,
    ) by {
        assert(has_room_fee(m1, m.rooms[i].room_number as int, fee.id as int));
    }
    lemma_assign_loop_noop(m1, fee, manager_id, list, m1.rooms.len() as int);
    assert(assign_fee_spec(m1, manager_id, fee_id, list).0 == m1);
}

} // verus!
