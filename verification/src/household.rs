use vstd::prelude::*;

use crate::ApiError;
use crate::api::{DetailedFeeInfo, FeesRoomInfo, PersonalHouseholdInfo};
use crate::model::{
    Assignment, StoreModel, fee_ix, has_fee, has_tenant_room, has_transaction_for, has_user,
    tenant_room_ix, transaction_for_ix, user_ix, wf,
};
use crate::settle::clone_string;
use crate::store::Store;

verus! {

/// Mathematical image of one reported obligation row.
#[verifier::ext_equal]
pub ghost struct FeesRoomInfoModel {
    pub assignment_id: i32,
    pub room_number: i32,
    pub fee_id: i32,
    pub fee_name: Seq<char>,
    pub fee_amount: Option<i64>,
    pub due_date: i64,
    pub payment_date: Option<i64>,
    pub is_paid: bool,
}

impl View for FeesRoomInfo {
    type V = FeesRoomInfoModel;

    open spec fn view(&self) -> FeesRoomInfoModel {
        FeesRoomInfoModel {
            assignment_id: self.assignment_id,
            room_number: self.room_number,
            fee_id: self.fee_id,
            fee_name: self.fee_name@,
            fee_amount: self.fee_amount,
            due_date: self.due_date,
            payment_date: self.payment_date,
            is_paid: self.is_paid,
        }
    }
}

impl DeepView for FeesRoomInfo {
    type V = FeesRoomInfoModel;

    open spec fn deep_view(&self) -> FeesRoomInfoModel {
        self.view()
    }
}

/// The amount recorded against an assignment, when a transaction exists.
pub open spec fn tx_amount_of(m: StoreModel, aid: i32) -> Option<i64> {
    if has_transaction_for(m, aid as int) {
        Some(m.transactions[transaction_for_ix(m, aid as int)].amount)
    } else {
        None
    }
}

/// One obligation row as the household endpoint reports it: for a paid
/// assignment the reported amount is the transaction's recorded amount (if
/// any); for an unpaid one it is the fee's own amount.
pub open spec fn household_row_of(m: StoreModel, a: Assignment) -> FeesRoomInfoModel {
    let fee = m.fees[fee_ix(m, a.fee_id as int)];
    FeesRoomInfoModel {
        assignment_id: a.assignment_id,
        room_number: a.room_number,
        fee_id: a.fee_id,
        fee_name: fee.name,
        fee_amount: if a.is_paid {
            tx_amount_of(m, a.assignment_id)
        } else {
            Some(fee.amount)
        },
        due_date: a.due_date,
        payment_date: a.payment_date,
        is_paid: a.is_paid,
    }
}

/// The rows of the given room among the first `k` assignment rows, in table
/// order.
pub open spec fn household_rows(m: StoreModel, room: i32, k: int) -> Seq<FeesRoomInfoModel>
    decreases k,
{
    if k <= 0 {
        Seq::empty()
    } else {
        let pre = household_rows(m, room, k - 1);
        let a = m.assignments[k - 1];
        if a.room_number == room {
            pre.push(household_row_of(m, a))
        } else {
            pre
        }
    }
}

/// One row of a fee's assignment list as the fee-detail endpoint reports
/// it: always the fee's own amount.
pub open spec fn fee_row_of(m: StoreModel, a: Assignment) -> FeesRoomInfoModel {
    let fee = m.fees[fee_ix(m, a.fee_id as int)];
    FeesRoomInfoModel {
        assignment_id: a.assignment_id,
        room_number: a.room_number,
        fee_id: a.fee_id,
        fee_name: fee.name,
        fee_amount: Some(fee.amount),
        due_date: a.due_date,
        payment_date: a.payment_date,
        is_paid: a.is_paid,
    }
}

/// The rows of the given fee among the first `k` assignment rows.
pub open spec fn fee_rows(m: StoreModel, fee_id: i32, k: int) -> Seq<FeesRoomInfoModel>
    decreases k,
{
    if k <= 0 {
        Seq::empty()
    } else {
        let pre = fee_rows(m, fee_id, k - 1);
        let a = m.assignments[k - 1];
        if a.fee_id == fee_id {
            pre.push(fee_row_of(m, a))
        } else {
            pre
        }
    }
}

impl Store {
    /// The tenant's household: contact data and every obligation of the
    /// room the tenant rents, with paid rows reporting their transaction's
    /// amount. Fails with `NotFound` when the user does not exist or rents
    /// no room.
    pub fn get_household_info(&self, user_id: i32) -> (r: Result<PersonalHouseholdInfo, ApiError>)
        requires
            wf(self@),
        ensures
            r is Ok <==> has_user(self@, user_id as int) && has_tenant_room(
                self@,
                user_id as int,
            ),
            r matches Ok(h) ==> {
                let u = self@.users[user_ix(self@, user_id as int)];
                let room = self@.rooms[tenant_room_ix(self@, user_id as int)].room_number;
                &&& h.room_number == room
                &&& h.tenant_id == u.id
                &&& h.tenant_name@ == u.name
                &&& h.tenant_email@ == u.email
                &&& h.tenant_phone@ == u.phone
                &&& h.fees.deep_view() == household_rows(
                    self@,
                    room,
                    self@.assignments.len() as int,
                )
            },
            r matches Err(e) ==> e == ApiError::NotFound,
    {
        let ui = match self.user_pos(user_id) {
            Some(ui) => ui,
            None => {
                return Err(ApiError::NotFound);
            },
        };
        proof {
            assert(ui as int == user_ix(self@, user_id as int));
        }
        let rp = match self.tenant_room_pos(user_id) {
            Some(rp) => rp,
            None => {
                return Err(ApiError::NotFound);
            },
        };
        proof {
            assert(rp as int == tenant_room_ix(self@, user_id as int));
        }
        let room = self.rooms[rp].room_number;
        let n = self.assignments.len();
        let mut rows: Vec<FeesRoomInfo> = Vec::new();
        let mut i: usize = 0;
        while i < n
            invariant
                i <= n,
                n == self@.assignments.len(),
                wf(self@),
                rows.deep_view() == household_rows(self@, room, i as int),
            decreases n - i,
        {
            let a = self.assignments[i];
            if a.room_number == room {
                proof {
                    assert(has_fee(self@, a.fee_id as int));
                }
                let fp = match self.fee_pos(a.fee_id) {
                    Some(fp) => fp,
                    None => {
                        proof {
                            assert(false);
                        }
                        return Err(ApiError::NotFound);
                    },
                };
                proof {
                    assert(fp as int == fee_ix(self@, a.fee_id as int));
                }
                let amount: Option<i64> = if a.is_paid {
                    match self.transaction_for_pos(a.assignment_id) {
                        Some(tp) => {
                            proof {
                                assert(tp as int == transaction_for_ix(
                                    self@,
                                    a.assignment_id as int,
                                ));
                            }
                            Some(self.transactions[tp].amount)
                        },
                        None => None,
                    }
                } else {
                    Some(self.fees[fp].amount)
                };
                let row = FeesRoomInfo {
                    assignment_id: a.assignment_id,
                    room_number: a.room_number,
                    fee_id: a.fee_id,
                    fee_name: clone_string(&self.fees[fp].name),
                    fee_amount: amount,
                    due_date: a.due_date,
                    payment_date: a.payment_date,
                    is_paid: a.is_paid,
                };
                rows.push(row);
                proof {
                    assert(rows.deep_view() =~= household_rows(self@, room, i as int + 1));
                }
            } else {
                proof {
                    assert(rows.deep_view() =~= household_rows(self@, room, i as int + 1));
                }
            }
            i += 1;
        }
        let u = &self.users[ui];
        Ok(
            PersonalHouseholdInfo {
                room_number: room,
                tenant_id: u.id,
                tenant_name: clone_string(&self.users[ui].name),
                tenant_email: clone_string(&self.users[ui].email),
                tenant_phone: clone_string(&self.users[ui].phone),
                fees: rows,
            },
        )
    }

    /// One fee with all its room assignments; `NotFound` when no fee has
    /// the given id.
    pub fn get_one_fee(&self, id: i32) -> (r: Result<DetailedFeeInfo, ApiError>)
        requires
            wf(self@),
        ensures
            r is Ok <==> has_fee(self@, id as int),
            r matches Ok(d) ==> {
                let fee = self@.fees[fee_ix(self@, id as int)];
                &&& d.id == fee.id
                &&& d.name@ == fee.name
                &&& d.amount == fee.amount
                &&& d.is_required == fee.is_required
                &&& d.created_at == fee.created_at
                &&& d.due_date == fee.due_date
                &&& d.recurrence_type == fee.recurrence_type
                &&& d.fee_assignments.deep_view() == fee_rows(
                    self@,
                    id,
                    self@.assignments.len() as int,
                )
            },
            r matches Err(e) ==> e == ApiError::NotFound,
    {
        let fp = match self.fee_pos(id) {
            Some(fp) => fp,
            None => {
                return Err(ApiError::NotFound);
            },
        };
        proof {
            assert(fp as int == fee_ix(self@, id as int));
        }
        let n = self.assignments.len();
        let mut rows: Vec<FeesRoomInfo> = Vec::new();
        let mut i: usize = 0;
        while i < n
            invariant
                i <= n,
                n == self@.assignments.len(),
                wf(self@),
                fp < self@.fees.len(),
                fp as int == fee_ix(self@, id as int),
                self@.fees[fp as int].id == id,
                rows.deep_view() == fee_rows(self@, id, i as int),
            decreases n - i,
        {
            let a = self.assignments[i];
            if a.fee_id == id {
                proof {
                    assert(fee_ix(self@, a.fee_id as int) == fee_ix(self@, id as int));
                }
                let row = FeesRoomInfo {
                    assignment_id: a.assignment_id,
                    room_number: a.room_number,
                    fee_id: a.fee_id,
                    fee_name: clone_string(&self.fees[fp].name),
                    fee_amount: Some(self.fees[fp].amount),
                    due_date: a.due_date,
                    payment_date: a.payment_date,
                    is_paid: a.is_paid,
                };
                rows.push(row);
                proof {
                    assert(rows.deep_view() =~= fee_rows(self@, id, i as int + 1));
                }
            } else {
                proof {
                    assert(rows.deep_view() =~= fee_rows(self@, id, i as int + 1));
                }
            }
            i += 1;
        }
        let fee = &self.fees[fp];
        Ok(
            DetailedFeeInfo {
                id: fee.id,
                name: clone_string(&self.fees[fp].name),
                amount: fee.amount,
                is_required: fee.is_required,
                created_at: fee.created_at,
                due_date: fee.due_date,
                recurrence_type: fee.recurrence_type,
                fee_assignments: rows,
            },
        )
    }
}

} // verus!
