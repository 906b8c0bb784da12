use vstd::prelude::*;

use crate::ApiError;
use crate::api::{AddFeeInfo, FeesInfo};
use crate::model::{
    Assignment, FeeModel, Recurrence, RecurrenceType, StoreModel, Transaction, assignment_ix,
    fee_ix, has_assignment, has_fee, has_recurrence_of, is_forward_link, recurrence_of_ix, wf,
    wf_accounts, wf_fees, wf_payments, DUE_DATE_MAX, DUE_DATE_MIN,
};
use crate::settle::clone_string;
use crate::store::Store;

verus! {

/// Adding a fee: append the fee row; a recurring fee also gets its seed
/// recurrence row, pointing at itself, so that the settlement workflow can
/// recognise the chain's end.
pub open spec fn add_fee_spec(
    m: StoreModel,
    name: Seq<char>,
    amount: i64,
    is_required: bool,
    due_date: i64,
    rt: Option<RecurrenceType>,
    now: i64,
) -> (StoreModel, i32) {
    let nf = FeeModel {
        id: m.next_fee_id as i32,
        name: name,
        amount: amount,
        is_required: is_required,
        created_at: now,
        due_date: due_date,
        is_recurring: rt is Some,
        recurrence_type: rt,
    };
    let m1 = StoreModel { fees: m.fees.push(nf), next_fee_id: m.next_fee_id + 1, ..m };
    if rt is Some {
        (
            StoreModel {
                recurrences: m1.recurrences.push(
                    Recurrence {
                        recurrence_id: m.next_recurrence_id as i32,
                        fee_id: nf.id,
                        previous_fee_id: nf.id,
                        due_date: due_date,
                    },
                ),
                next_recurrence_id: m.next_recurrence_id + 1,
                ..m1
            },
            nf.id,
        )
    } else {
        (m1, nf.id)
    }
}

/// The recurrence rows that survive deleting every row that names the fee
/// `id`, either as its own fee or as the fee it continues from.
pub open spec fn keep_recs(recs: Seq<Recurrence>, id: i32) -> Seq<Recurrence>
    decreases recs.len(),
{
    if recs.len() == 0 {
        Seq::empty()
    } else {
        let init = keep_recs(recs.drop_last(), id);
        let last = recs.last();
        if last.fee_id == id || last.previous_fee_id == id {
            init
        } else {
            init.push(last)
        }
    }
}

/// Deletion keeps a subset: every surviving row is a row of the input, no
/// survivor names the deleted fee, and the input's pairwise uniqueness and
/// no-branching properties carry over.
proof fn lemma_keep_recs(recs: Seq<Recurrence>, id: i32)
    requires
        forall|i: int, j: int|
            0 <= i < j < recs.len() ==> recs[i].recurrence_id != recs[j].recurrence_id,
        forall|i: int, j: int| 0 <= i < j < recs.len() ==> recs[i].fee_id != recs[j].fee_id,
        forall|i: int, j: int|
            0 <= i < recs.len() && 0 <= j < recs.len() && i != j
                ==> !(is_forward_link(recs[i], recs[i].previous_fee_id as int)
                && is_forward_link(recs[j], recs[i].previous_fee_id as int)),
    ensures
        keep_recs(recs, id).len() <= recs.len(),
        forall|i: int|
            0 <= i < keep_recs(recs, id).len() ==> exists|j: int|
                0 <= j < recs.len() && recs[j] == #[trigger] keep_recs(recs, id)[i],
        forall|i: int|
            0 <= i < keep_recs(recs, id).len() ==> #[trigger] keep_recs(recs, id)[i].fee_id != id
                && keep_recs(recs, id)[i].previous_fee_id != id,
        forall|i: int, j: int|
            0 <= i < j < keep_recs(recs, id).len() ==> keep_recs(recs, id)[i].recurrence_id
                != keep_recs(recs, id)[j].recurrence_id,
        forall|i: int, j: int|
            0 <= i < j < keep_recs(recs, id).len() ==> keep_recs(recs, id)[i].fee_id != keep_recs(
                recs,
                id,
            )[j].fee_id,
        forall|i: int, j: int|
            0 <= i < keep_recs(recs, id).len() && 0 <= j < keep_recs(recs, id).len() && i != j
                ==> !(is_forward_link(
                keep_recs(recs, id)[i],
                keep_recs(recs, id)[i].previous_fee_id as int,
            ) && is_forward_link(
                keep_recs(recs, id)[j],
                keep_recs(recs, id)[i].previous_fee_id as int,
            )),
    decreases recs.len(),
{
    if recs.len() > 0 {
        let pre = recs.drop_last();
        assert(forall|i: int| 0 <= i < pre.len() ==> pre[i] == recs[i]);
        lemma_keep_recs(pre, id);
        let kpre = keep_recs(pre, id);
        let k = keep_recs(recs, id);
        let last = recs.last();
        assert(last == recs[recs.len() - 1]);
        // lift the membership of the initial part from the shortened input
        assert forall|i: int| 0 <= i < kpre.len() implies exists|j: int|
            0 <= j < recs.len() && recs[j] == #[trigger] kpre[i] by {
            let w = choose|j: int| 0 <= j < pre.len() && pre[j] == kpre[i];
            assert(recs[w] == kpre[i]);
        }
        if last.fee_id == id || last.previous_fee_id == id {
        } else {
            // pairwise facts between the kept last row and earlier survivors
            assert forall|i: int| 0 <= i < kpre.len() implies kpre[i].recurrence_id
                != last.recurrence_id && kpre[i].fee_id != last.fee_id && !(is_forward_link(
                kpre[i],
                kpre[i].previous_fee_id as int,
            ) && is_forward_link(last, kpre[i].previous_fee_id as int)) && !(is_forward_link(
                last,
                last.previous_fee_id as int,
            ) && is_forward_link(kpre[i], last.previous_fee_id as int)) by {
                let w = choose|j: int| 0 <= j < recs.len() && recs[j] == kpre[i];
                assert(recs[w].fee_id != id);
                assert(w != recs.len() - 1);
            }
        }
    }
}

/// Editing a fee: replace its mutable columns, then reconcile the
/// recurrence table with the new recurrence setting: seed a row when the
/// fee becomes recurring, delete every row naming it when it stops being
/// recurring, and move the row's due date otherwise.
pub open spec fn edit_fee_spec(
    m: StoreModel,
    id: i32,
    name: Seq<char>,
    amount: i64,
    is_required: bool,
    due_date: i64,
    rt: Option<RecurrenceType>,
) -> (StoreModel, Result<(), ApiError>) {
    if !has_fee(m, id as int) {
        (m, Err(ApiError::NotFound))
    } else {
        let fi = fee_ix(m, id as int);
        let uf = FeeModel {
            id: m.fees[fi].id,
            name: name,
            amount: amount,
            is_required: is_required,
            created_at: m.fees[fi].created_at,
            due_date: due_date,
            is_recurring: rt is Some,
            recurrence_type: rt,
        };
        let m1 = StoreModel { fees: m.fees.update(fi, uf), ..m };
        if rt is Some && !has_recurrence_of(m, id as int) {
            (
                StoreModel {
                    recurrences: m1.recurrences.push(
                        Recurrence {
                            recurrence_id: m.next_recurrence_id as i32,
                            fee_id: id,
                            previous_fee_id: id,
                            due_date: due_date,
                        },
                    ),
                    next_recurrence_id: m.next_recurrence_id + 1,
                    ..m1
                },
                Ok(()),
            )
        } else if rt is None && has_recurrence_of(m, id as int) {
            (StoreModel { recurrences: keep_recs(m.recurrences, id), ..m1 }, Ok(()))
        } else if rt is Some && has_recurrence_of(m, id as int) {
            let ri = recurrence_of_ix(m, id as int);
            (
                StoreModel {
                    recurrences: m.recurrences.update(
                        ri,
                        Recurrence { due_date: due_date, ..m.recurrences[ri] },
                    ),
                    ..m1
                },
                Ok(()),
            )
        } else {
            (m1, Ok(()))
        }
    }
}

/// Mathematical image of one fee-list row.
#[verifier::ext_equal]
pub ghost struct FeesInfoModel {
    pub id: i32,
    pub name: Seq<char>,
    pub amount: i64,
    pub due_date: i64,
}

impl View for FeesInfo {
    type V = FeesInfoModel;

    open spec fn view(&self) -> FeesInfoModel {
        FeesInfoModel {
            id: self.id,
            name: self.name@,
            amount: self.amount,
            due_date: self.due_date,
        }
    }
}

impl DeepView for FeesInfo {
    type V = FeesInfoModel;

    open spec fn deep_view(&self) -> FeesInfoModel {
        self.view()
    }
}

/// The fee-list projection of one fee row.
pub open spec fn fees_info_of(f: FeeModel) -> FeesInfoModel {
    FeesInfoModel { id: f.id, name: f.name, amount: f.amount, due_date: f.due_date }
}

/// The fee list before ordering: every fee row projected, in table order.
pub open spec fn fees_listing(m: StoreModel) -> Seq<FeesInfoModel> {
    Seq::new(m.fees.len(), |i: int| fees_info_of(m.fees[i]))
}

/// Rows in ascending due-date order.
pub open spec fn due_sorted(s: Seq<FeesInfoModel>) -> bool {
    forall|i: int, j: int| 0 <= i < j < s.len() ==> s[i].due_date <= s[j].due_date
}

impl Store {
    /// The fee list: every fee's id, name, amount and due date, in
    /// ascending due-date order (rows with equal due dates in no promised
    /// order).
    pub fn get_fees(&self) -> (r: Vec<FeesInfo>)
        ensures
            due_sorted(r.deep_view()),
            r.deep_view().to_multiset() == fees_listing(self@).to_multiset(),
    {
        broadcast use vstd::seq_lib::group_to_multiset_ensures;

        let n = self.fees.len();
        let mut work: Vec<FeesInfo> = Vec::new();
        let mut i: usize = 0;
        while i < n
            invariant
                i <= n,
                n == self@.fees.len(),
                work@.len() == i,
                forall|j: int|
                    0 <= j < i ==> (#[trigger] work@[j])@ == fees_info_of(self@.fees[j]),
            decreases n - i,
        {
            let row = FeesInfo {
                id: self.fees[i].id,
                name: clone_string(&self.fees[i].name),
                amount: self.fees[i].amount,
                due_date: self.fees[i].due_date,
            };
            work.push(row);
            i += 1;
        }
        proof {
            assert(work.deep_view() =~= fees_listing(self@));
        }
        // selection sort: repeatedly move the earliest-due row over
        let mut out: Vec<FeesInfo> = Vec::new();
        while work.len() > 0
            invariant
                out.deep_view().to_multiset().add(work.deep_view().to_multiset())
                    == fees_listing(self@).to_multiset(),
                due_sorted(out.deep_view()),
                forall|a: int, b: int|
                    0 <= a < out@.len() && 0 <= b < work@.len() ==> out.deep_view()[a].due_date
                        <= work.deep_view()[b].due_date,
            decreases work@.len(),
        {
            let wn = work.len();
            let mut mi: usize = 0;
            let mut k: usize = 1;
            while k < wn
                invariant
                    mi < k <= wn,
                    wn == work@.len(),
                    forall|j: int|
                        0 <= j < k ==> work.deep_view()[mi as int].due_date
                            <= work.deep_view()[j].due_date,
                decreases wn - k,
            {
                if work[k].due_date < work[mi].due_date {
                    mi = k;
                }
                k += 1;
            }
            let ghost old_work = work.deep_view();
            let ghost old_out = out.deep_view();
            let x = work.remove(mi);
            out.push(x);
            proof {
                old_work.to_multiset_ensures();
                old_out.to_multiset_ensures();
                assert(x@ == old_work[mi as int]);
                assert(work.deep_view() =~= old_work.remove(mi as int));
                assert(out.deep_view() =~= old_out.push(x@));
                assert((old_out.push(x@)).to_multiset() =~= old_out.to_multiset().insert(x@));
                assert((old_work.remove(mi as int)).to_multiset() =~= old_work.to_multiset()
                    .remove(x@));
                assert(old_work.contains(x@)) by {
                    assert(old_work[mi as int] == x@);
                }
                assert(old_work.to_multiset().count(x@) > 0);
                assert(out.deep_view().to_multiset() =~= old_out.to_multiset().insert(x@));
                assert(work.deep_view().to_multiset() =~= old_work.to_multiset().remove(x@));
                assert(out.deep_view().to_multiset().add(work.deep_view().to_multiset())
                    =~= old_out.to_multiset().add(old_work.to_multiset()));
                // the moved row is due no later than any survivor
                assert forall|b: int| 0 <= b < work@.len() implies x@.due_date
                    <= work.deep_view()[b].due_date by {
                    if b < mi {
                        assert(work.deep_view()[b] == old_work[b]);
                    } else {
                        assert(work.deep_view()[b] == old_work[b + 1]);
                    }
                }
            }
        }
        out
    }

    /// Manager action: add a fee definition. A recurring fee is seeded with
    /// the recurrence row that marks it as the current end of its chain.
    /// Returns the new fee's id.
    pub fn add_fee(&mut self, info: &AddFeeInfo, now: i64) -> (r: i32)
        requires
            wf(old(self)@),
            old(self)@.next_fee_id < i32::MAX,
            old(self)@.next_recurrence_id < i32::MAX,
            DUE_DATE_MIN <= info.due_date <= DUE_DATE_MAX,
        ensures
            wf(final(self)@),
            final(self)@ == add_fee_spec(
                old(self)@,
                info.name@,
                info.amount,
                info.is_required,
                info.due_date,
                info.recurrence_type,
                now,
            ).0,
            r == add_fee_spec(
                old(self)@,
                info.name@,
                info.amount,
                info.is_required,
                info.due_date,
                info.recurrence_type,
                now,
            ).1,
    {
        let new_id = self.next_fee_id;
        let nf = crate::model::Fee {
            id: new_id,
            name: clone_string(&info.name),
            amount: info.amount,
            is_required: info.is_required,
            created_at: now,
            due_date: info.due_date,
            is_recurring: info.recurrence_type.is_some(),
            recurrence_type: info.recurrence_type,
        };
        self.fees.push(nf);
        self.next_fee_id = self.next_fee_id + 1;
        if info.recurrence_type.is_some() {
            let seed = Recurrence {
                recurrence_id: self.next_recurrence_id,
                fee_id: new_id,
                previous_fee_id: new_id,
                due_date: info.due_date,
            };
            self.recurrences.push(seed);
            self.next_recurrence_id = self.next_recurrence_id + 1;
        }
        proof {
            let mn = add_fee_spec(
                old(self)@,
                info.name@,
                info.amount,
                info.is_required,
                info.due_date,
                info.recurrence_type,
                now,
            ).0;
            assert(self@.fees =~= mn.fees);
            assert(self@ =~= mn);
            let m = old(self)@;
            assert forall|i: int| 0 <= i < m.recurrences.len() implies m.recurrences[i].fee_id
                != new_id && m.recurrences[i].previous_fee_id != new_id by {
                assert(has_fee(m, m.recurrences[i].fee_id as int));
                let w = choose|j: int|
                    0 <= j < m.fees.len() && m.fees[j].id == m.recurrences[i].fee_id;
                assert(m.fees[w].id < m.next_fee_id);
                assert(has_fee(m, m.recurrences[i].previous_fee_id as int));
                let w2 = choose|j: int|
                    0 <= j < m.fees.len() && m.fees[j].id == m.recurrences[i].previous_fee_id;
                assert(m.fees[w2].id < m.next_fee_id);
            }
            assert forall|x: int| has_fee(m, x) implies has_fee(self@, x) by {
                let w = choose|j: int| 0 <= j < m.fees.len() && m.fees[j].id == x;
                assert(self@.fees[w].id == x);
            }
            assert(self@.fees[m.fees.len() as int].id == new_id);
            assert(has_fee(self@, new_id as int));
            assert(wf_fees(self@));
            assert forall|i: int| 0 <= i < self@.assignments.len() implies has_fee(
                self@,
                self@.assignments[i].fee_id as int,
            ) by {
                assert(has_fee(m, m.assignments[i].fee_id as int));
            }
            assert(wf_payments(self@));
            assert(wf_accounts(self@));
        }
        new_id
    }

    /// Manager action: edit a fee's definition, reconciling its recurrence
    /// row with the new setting; `NotFound` when no fee has the given id.
    pub fn edit_fee_info(&mut self, id: i32, info: &AddFeeInfo) -> (r: Result<(), ApiError>)
        requires
            wf(old(self)@),
            old(self)@.next_recurrence_id < i32::MAX,
            DUE_DATE_MIN <= info.due_date <= DUE_DATE_MAX,
        ensures
            wf(final(self)@),
            final(self)@ == edit_fee_spec(
                old(self)@,
                id,
                info.name@,
                info.amount,
                info.is_required,
                info.due_date,
                info.recurrence_type,
            ).0,
            r == edit_fee_spec(
                old(self)@,
                id,
                info.name@,
                info.amount,
                info.is_required,
                info.due_date,
                info.recurrence_type,
            ).1,
    {
        let fi = match self.fee_pos(id) {
            Some(fi) => fi,
            None => {
                return Err(ApiError::NotFound);
            },
        };
        proof {
            assert(fi as int == fee_ix(self@, id as int));
        }
        let created_at = self.fees[fi].created_at;
        let kept_id = self.fees[fi].id;
        let uf = crate::model::Fee {
            id: kept_id,
            name: clone_string(&info.name),
            amount: info.amount,
            is_required: info.is_required,
            created_at: created_at,
            due_date: info.due_date,
            is_recurring: info.recurrence_type.is_some(),
            recurrence_type: info.recurrence_type,
        };
        self.fees[fi] = uf;
        let ghost m = old(self)@;
        let ghost m1 = StoreModel {
            fees: m.fees.update(
                fi as int,
                FeeModel {
                    id: m.fees[fee_ix(m, id as int)].id,
                    name: info.name@,
                    amount: info.amount,
                    is_required: info.is_required,
                    created_at: m.fees[fee_ix(m, id as int)].created_at,
                    due_date: info.due_date,
                    is_recurring: info.recurrence_type is Some,
                    recurrence_type: info.recurrence_type,
                },
            ),
            ..m
        };
        proof {
            assert(self@.fees =~= m1.fees);
            assert(self@ =~= m1);
            // the id column is untouched, so fee lookups are unchanged
            assert(forall|i: int| 0 <= i < m.fees.len() ==> self@.fees[i].id == m.fees[i].id);
            assert forall|x: int| has_fee(m, x) implies has_fee(self@, x) by {
                let w = choose|j: int| 0 <= j < m.fees.len() && m.fees[j].id == x;
                assert(self@.fees[w].id == x);
            }
            assert forall|x: int| has_fee(self@, x) implies has_fee(m, x) by {
                let w = choose|j: int| 0 <= j < self@.fees.len() && self@.fees[j].id == x;
                assert(m.fees[w].id == x);
            }
        }
        let rp = self.recurrence_of_pos(id);
        match rp {
            None => {
                if info.recurrence_type.is_some() {
                    let seed = Recurrence {
                        recurrence_id: self.next_recurrence_id,
                        fee_id: id,
                        previous_fee_id: id,
                        due_date: info.due_date,
                    };
                    self.recurrences.push(seed);
                    self.next_recurrence_id = self.next_recurrence_id + 1;
                    proof {
                        lemma_edit_seed_wf(m, m1, self@, id, info.due_date);
                    }
                } else {
                    proof {
                        assert(wf_fees(self@));
                        assert(wf_payments(self@));
                        assert(wf_accounts(self@));
                    }
                }
            },
            Some(ri) => {
                proof {
                    assert(ri as int == recurrence_of_ix(m, id as int));
                }
                if info.recurrence_type.is_none() {
                    // the fee stops recurring: delete every row naming it
                    let n = self.recurrences.len();
                    let mut kept: Vec<Recurrence> = Vec::new();
                    let mut i: usize = 0;
                    while i < n
                        invariant
                            i <= n,
                            n == m.recurrences.len(),
                            self@.recurrences == m.recurrences,
                            kept@ == keep_recs(m.recurrences.subrange(0, i as int), id),
                        decreases n - i,
                    {
                        let r = self.recurrences[i];
                        proof {
                            assert(m.recurrences.subrange(0, i as int + 1).drop_last()
                                =~= m.recurrences.subrange(0, i as int));
                            assert(m.recurrences.subrange(0, i as int + 1).last()
                                == m.recurrences[i as int]);
                        }
                        if !(r.fee_id == id || r.previous_fee_id == id) {
                            kept.push(r);
                        }
                        i += 1;
                    }
                    proof {
                        assert(m.recurrences.subrange(0, n as int) =~= m.recurrences);
                    }
                    self.recurrences = kept;
                    proof {
                        lemma_edit_delete_wf(m, m1, self@, id);
                    }
                } else {
                    let old_rec = self.recurrences[ri];
                    self.recurrences[ri] = Recurrence { due_date: info.due_date, ..old_rec };
                    proof {
                        lemma_edit_update_wf(m, m1, self@, id, ri as int, info.due_date);
                    }
                }
            },
        }
        Ok(())
    }
}

/// Editing a fee into a recurring one seeds its chain; the store stays
/// well-formed.
proof fn lemma_edit_seed_wf(m: StoreModel, m1: StoreModel, mn: StoreModel, id: i32, due: i64)
    requires
        wf(m),
        m.next_recurrence_id < i32::MAX,
        DUE_DATE_MIN <= due <= DUE_DATE_MAX,
        has_fee(m, id as int),
        !has_recurrence_of(m, id as int),
        m1 == (StoreModel {
            fees: m.fees.update(
                fee_ix(m, id as int),
                FeeModel {
                    id: m.fees[fee_ix(m, id as int)].id,
                    name: m1.fees[fee_ix(m, id as int)].name,
                    amount: m1.fees[fee_ix(m, id as int)].amount,
                    is_required: m1.fees[fee_ix(m, id as int)].is_required,
                    created_at: m.fees[fee_ix(m, id as int)].created_at,
                    due_date: m1.fees[fee_ix(m, id as int)].due_date,
                    is_recurring: true,
                    recurrence_type: m1.fees[fee_ix(m, id as int)].recurrence_type,
                },
            ),
            ..m
        }),
        m1.fees[fee_ix(m, id as int)].recurrence_type is Some,
        DUE_DATE_MIN <= m1.fees[fee_ix(m, id as int)].due_date <= DUE_DATE_MAX,
        mn == (StoreModel {
            recurrences: m1.recurrences.push(
                Recurrence {
                    recurrence_id: m.next_recurrence_id as i32,
                    fee_id: id,
                    previous_fee_id: id,
                    due_date: due,
                },
            ),
            next_recurrence_id: m.next_recurrence_id + 1,
            ..m1
        }),
    ensures
        wf(mn),
{
    assert(forall|i: int| 0 <= i < m.fees.len() ==> mn.fees[i].id == m.fees[i].id);
    assert forall|x: int| has_fee(m, x) implies has_fee(mn, x) by {
        let w = choose|j: int| 0 <= j < m.fees.len() && m.fees[j].id == x;
        assert(mn.fees[w].id == x);
    }
    assert(forall|i: int|
        0 <= i < m.recurrences.len() ==> mn.recurrences[i] == m.recurrences[i]);
    // the seed is no forward link, and no old row names this fee
    assert(forall|i: int| 0 <= i < m.recurrences.len() ==> m.recurrences[i].fee_id != id);
    assert(!is_forward_link(mn.recurrences[m.recurrences.len() as int], id as int));
    assert forall|i: int, j: int|
        0 <= i < mn.recurrences.len() && 0 <= j < mn.fees.len() && mn.fees[j].id
            == mn.recurrences[i].fee_id implies mn.fees[j].recurrence_type is Some by {
        if i < m.recurrences.len() {
            if j == fee_ix(m, id as int) {
                assert(m.recurrences[i].fee_id != id);
                assert(mn.fees[j].id == id);
                assert(false);
            } else {
                assert(m.fees[j].recurrence_type is Some);
            }
        } else {
            assert(mn.recurrences[i].fee_id == id);
            if j != fee_ix(m, id as int) {
                assert(m.fees[j].id == id);
                assert(m.fees[fee_ix(m, id as int)].id == id);
            }
        }
    }
    assert(wf_fees(mn));
    assert forall|i: int| 0 <= i < mn.assignments.len() implies has_fee(
        mn,
        mn.assignments[i].fee_id as int,
    ) by {
        assert(has_fee(m, m.assignments[i].fee_id as int));
    }
    assert(wf_payments(mn));
    assert(wf_accounts(mn));
}

/// Editing a fee out of recurrence deletes its rows; the store stays
/// well-formed.
proof fn lemma_edit_delete_wf(m: StoreModel, m1: StoreModel, mn: StoreModel, id: i32)
    requires
        wf(m),
        has_fee(m, id as int),
        m1.fees == m.fees.update(
            fee_ix(m, id as int),
            FeeModel {
                id: m.fees[fee_ix(m, id as int)].id,
                name: m1.fees[fee_ix(m, id as int)].name,
                amount: m1.fees[fee_ix(m, id as int)].amount,
                is_required: m1.fees[fee_ix(m, id as int)].is_required,
                created_at: m.fees[fee_ix(m, id as int)].created_at,
                due_date: m1.fees[fee_ix(m, id as int)].due_date,
                is_recurring: m1.fees[fee_ix(m, id as int)].is_recurring,
                recurrence_type: m1.fees[fee_ix(m, id as int)].recurrence_type,
            },
        ),
        DUE_DATE_MIN <= m1.fees[fee_ix(m, id as int)].due_date <= DUE_DATE_MAX,
        mn == (StoreModel { fees: m1.fees, recurrences: keep_recs(m.recurrences, id), ..m }),
    ensures
        wf(mn),
{
    lemma_keep_recs(m.recurrences, id);
    let k = keep_recs(m.recurrences, id);
    assert(forall|i: int| 0 <= i < m.fees.len() ==> mn.fees[i].id == m.fees[i].id);
    assert forall|x: int| has_fee(m, x) implies has_fee(mn, x) by {
        let w = choose|j: int| 0 <= j < m.fees.len() && m.fees[j].id == x;
        assert(mn.fees[w].id == x);
    }
    assert forall|i: int| 0 <= i < k.len() implies 1 <= #[trigger] k[i].recurrence_id
        && k[i].recurrence_id < mn.next_recurrence_id && DUE_DATE_MIN <= k[i].due_date
        && k[i].due_date <= DUE_DATE_MAX && has_fee(mn, k[i].fee_id as int) && has_fee(
        mn,
        k[i].previous_fee_id as int,
    ) by {
        let w = choose|j: int| 0 <= j < m.recurrences.len() && m.recurrences[j] == k[i];
        assert(1 <= m.recurrences[w].recurrence_id < m.next_recurrence_id);
        assert(has_fee(m, m.recurrences[w].fee_id as int));
        assert(has_fee(m, m.recurrences[w].previous_fee_id as int));
    }
    assert forall|i: int, j: int|
        0 <= i < k.len() && 0 <= j < mn.fees.len() && mn.fees[j].id == k[i].fee_id implies
        mn.fees[j].recurrence_type is Some by {
        assert(k[i].fee_id != id);
        if j == fee_ix(m, id as int) {
            assert(mn.fees[j].id == id);
            assert(false);
        } else {
            let w = choose|q: int| 0 <= q < m.recurrences.len() && m.recurrences[q] == k[i];
            assert(m.fees[j].id == m.recurrences[w].fee_id);
            assert(m.fees[j].recurrence_type is Some);
        }
    }
    assert(wf_fees(mn));
    assert forall|i: int| 0 <= i < mn.assignments.len() implies has_fee(
        mn,
        mn.assignments[i].fee_id as int,
    ) by {
        assert(has_fee(m, m.assignments[i].fee_id as int));
    }
    assert(wf_payments(mn));
    assert(wf_accounts(mn));
}

/// Moving a recurring fee's due date updates its row in place; the store
/// stays well-formed.
proof fn lemma_edit_update_wf(
    m: StoreModel,
    m1: StoreModel,
    mn: StoreModel,
    id: i32,
    ri: int,
    due: i64,
)
    requires
        wf(m),
        DUE_DATE_MIN <= due <= DUE_DATE_MAX,
        has_fee(m, id as int),
        has_recurrence_of(m, id as int),
        ri == recurrence_of_ix(m, id as int),
        m1.fees == m.fees.update(
            fee_ix(m, id as int),
            FeeModel {
                id: m.fees[fee_ix(m, id as int)].id,
                name: m1.fees[fee_ix(m, id as int)].name,
                amount: m1.fees[fee_ix(m, id as int)].amount,
                is_required: m1.fees[fee_ix(m, id as int)].is_required,
                created_at: m.fees[fee_ix(m, id as int)].created_at,
                due_date: m1.fees[fee_ix(m, id as int)].due_date,
                is_recurring: m1.fees[fee_ix(m, id as int)].is_recurring,
                recurrence_type: m1.fees[fee_ix(m, id as int)].recurrence_type,
            },
        ),
        m1.fees[fee_ix(m, id as int)].recurrence_type is Some,
        DUE_DATE_MIN <= m1.fees[fee_ix(m, id as int)].due_date <= DUE_DATE_MAX,
        mn == (StoreModel {
            fees: m1.fees,
            recurrences: m.recurrences.update(
                ri,
                Recurrence { due_date: due, ..m.recurrences[ri] },
            ),
            ..m
        }),
    ensures
        wf(mn),
{
    assert(0 <= ri < m.recurrences.len() && m.recurrences[ri].fee_id == id);
    assert(forall|i: int| 0 <= i < m.fees.len() ==> mn.fees[i].id == m.fees[i].id);
    assert forall|x: int| has_fee(m, x) implies has_fee(mn, x) by {
        let w = choose|j: int| 0 <= j < m.fees.len() && m.fees[j].id == x;
        assert(mn.fees[w].id == x);
    }
    assert(forall|i: int|
        0 <= i < m.recurrences.len() && i != ri ==> mn.recurrences[i] == m.recurrences[i]);
    assert(mn.recurrences[ri].fee_id == m.recurrences[ri].fee_id);
    assert(mn.recurrences[ri].previous_fee_id == m.recurrences[ri].previous_fee_id);
    assert(mn.recurrences[ri].recurrence_id == m.recurrences[ri].recurrence_id);
    assert forall|i: int| 0 <= i < mn.recurrences.len() implies has_fee(
        mn,
        mn.recurrences[i].fee_id as int,
    ) && has_fee(mn, mn.recurrences[i].previous_fee_id as int) by {
        assert(mn.recurrences[i].fee_id == m.recurrences[i].fee_id);
        assert(mn.recurrences[i].previous_fee_id == m.recurrences[i].previous_fee_id);
        assert(has_fee(m, m.recurrences[i].fee_id as int));
        assert(has_fee(m, m.recurrences[i].previous_fee_id as int));
    }
    assert forall|i: int, j: int|
        0 <= i < mn.recurrences.len() && 0 <= j < mn.fees.len() && mn.fees[j].id
            == mn.recurrences[i].fee_id implies mn.fees[j].recurrence_type is Some by {
        assert(mn.recurrences[i].fee_id == m.recurrences[i].fee_id);
        if j == fee_ix(m, id as int) {
        } else {
            assert(m.fees[j].recurrence_type is Some);
        }
    }
    assert(wf_fees(mn));
    assert forall|i: int| 0 <= i < mn.assignments.len() implies has_fee(
        mn,
        mn.assignments[i].fee_id as int,
    ) by {
        assert(has_fee(m, m.assignments[i].fee_id as int));
    }
    assert(wf_payments(mn));
    assert(wf_accounts(mn));
}


/// The fee rows that survive deleting the fee `id`.
pub open spec fn keep_fees(fees: Seq<FeeModel>, id: i32) -> Seq<FeeModel>
    decreases fees.len(),
{
    if fees.len() == 0 {
        Seq::empty()
    } else {
        let init = keep_fees(fees.drop_last(), id);
        let last = fees.last();
        if last.id == id {
            init
        } else {
            init.push(last)
        }
    }
}

/// The assignment rows that survive the cascade of deleting the fee `id`.
pub open spec fn keep_asgs(asgs: Seq<Assignment>, id: i32) -> Seq<Assignment>
    decreases asgs.len(),
{
    if asgs.len() == 0 {
        Seq::empty()
    } else {
        let init = keep_asgs(asgs.drop_last(), id);
        let last = asgs.last();
        if last.fee_id == id {
            init
        } else {
            init.push(last)
        }
    }
}

/// A transaction falls with the cascade when its assignment binds the
/// deleted fee.
pub open spec fn tx_dropped(asgs: Seq<Assignment>, tx: Transaction, id: i32) -> bool {
    exists|j: int|
        0 <= j < asgs.len() && asgs[j].assignment_id == tx.assignment_id && asgs[j].fee_id == id
}

/// The transaction rows that survive the cascade of deleting the fee `id`.
pub open spec fn keep_txs(txs: Seq<Transaction>, asgs: Seq<Assignment>, id: i32) -> Seq<
    Transaction,
>
    decreases txs.len(),
{
    if txs.len() == 0 {
        Seq::empty()
    } else {
        let init = keep_txs(txs.drop_last(), asgs, id);
        let last = txs.last();
        if tx_dropped(asgs, last, id) {
            init
        } else {
            init.push(last)
        }
    }
}

/// Deleting a fee cascades: the fee row goes, every assignment of the fee
/// goes, every transaction of such an assignment goes, and every recurrence
/// row naming the fee goes.
pub open spec fn remove_fee_spec(m: StoreModel, id: i32) -> (StoreModel, Result<(), ApiError>) {
    if !has_fee(m, id as int) {
        (m, Err(ApiError::NotFound))
    } else {
        (
            StoreModel {
                fees: keep_fees(m.fees, id),
                recurrences: keep_recs(m.recurrences, id),
                assignments: keep_asgs(m.assignments, id),
                transactions: keep_txs(m.transactions, m.assignments, id),
                ..m
            },
            Ok(()),
        )
    }
}

/// Surviving fee rows: a subset with the deleted id gone, uniqueness kept,
/// and every other row kept.
#[verifier::rlimit(100)]
proof fn lemma_keep_fees(fees: Seq<FeeModel>, id: i32, k: Seq<FeeModel>)
    requires
        k == keep_fees(fees, id),
        forall|i: int, j: int| 0 <= i < j < fees.len() ==> fees[i].id != fees[j].id,
    ensures
        k.len() <= fees.len(),
        forall|i: int|
            0 <= i < k.len() ==> exists|j: int| 0 <= j < fees.len() && fees[j] == #[trigger] k[i],
        forall|i: int| 0 <= i < k.len() ==> (#[trigger] k[i]).id != id,
        forall|i: int, j: int| 0 <= i < j < k.len() ==> k[i].id != k[j].id,
        forall|j: int|
            0 <= j < fees.len() && (#[trigger] fees[j]).id != id ==> exists|i: int|
                0 <= i < k.len() && k[i] == fees[j],
    decreases fees.len(),
{
    if fees.len() > 0 {
        let pre = fees.drop_last();
        let kpre = keep_fees(pre, id);
        assert(forall|i: int| 0 <= i < pre.len() ==> pre[i] == fees[i]);
        lemma_keep_fees(pre, id, kpre);
        let last = fees.last();
        assert(last == fees[fees.len() - 1]);
        assert forall|i: int| 0 <= i < kpre.len() implies exists|j: int|
            0 <= j < fees.len() && fees[j] == #[trigger] kpre[i] by {
            let w = choose|j: int| 0 <= j < pre.len() && pre[j] == kpre[i];
            assert(fees[w] == kpre[i]);
        }
        if last.id != id {
            assert(k == kpre.push(last));
            assert forall|i: int| 0 <= i < kpre.len() implies kpre[i].id != last.id by {
                let w = choose|j: int| 0 <= j < pre.len() && pre[j] == kpre[i];
                assert(w < fees.len() - 1);
            }
            assert(k[k.len() - 1] == last);
        } else {
            assert(k == kpre);
        }
        assert forall|j: int|
            0 <= j < fees.len() && (#[trigger] fees[j]).id != id implies exists|i: int|
            0 <= i < k.len() && k[i] == fees[j] by {
            if j < fees.len() - 1 {
                assert(pre[j] == fees[j]);
                let w = choose|i: int| 0 <= i < kpre.len() && kpre[i] == pre[j];
                assert(k[w] == fees[j]);
            } else {
                assert(k[k.len() - 1] == last);
            }
        }
    }
}

/// Surviving assignment rows: a subset with the fee's assignments gone,
/// uniqueness kept, and every other row kept.
proof fn lemma_keep_asgs(asgs: Seq<Assignment>, id: i32, k: Seq<Assignment>)
    requires
        k == keep_asgs(asgs, id),
        forall|i: int, j: int|
            0 <= i < j < asgs.len() ==> asgs[i].assignment_id != asgs[j].assignment_id,
        forall|i: int, j: int|
            0 <= i < j < asgs.len() ==> !(asgs[i].room_number == asgs[j].room_number
                && asgs[i].fee_id == asgs[j].fee_id),
    ensures
        k.len() <= asgs.len(),
        forall|i: int|
            0 <= i < k.len() ==> exists|j: int| 0 <= j < asgs.len() && asgs[j] == #[trigger] k[i],
        forall|i: int| 0 <= i < k.len() ==> (#[trigger] k[i]).fee_id != id,
        forall|i: int, j: int| 0 <= i < j < k.len() ==> k[i].assignment_id != k[j].assignment_id,
        forall|i: int, j: int|
            0 <= i < j < k.len() ==> !(k[i].room_number == k[j].room_number && k[i].fee_id
                == k[j].fee_id),
        forall|j: int|
            0 <= j < asgs.len() && (#[trigger] asgs[j]).fee_id != id ==> exists|i: int|
                0 <= i < k.len() && k[i] == asgs[j],
    decreases asgs.len(),
{
    if asgs.len() > 0 {
        let pre = asgs.drop_last();
        let kpre = keep_asgs(pre, id);
        assert(forall|i: int| 0 <= i < pre.len() ==> pre[i] == asgs[i]);
        lemma_keep_asgs(pre, id, kpre);
        let last = asgs.last();
        assert(last == asgs[asgs.len() - 1]);
        assert forall|i: int| 0 <= i < kpre.len() implies exists|j: int|
            0 <= j < asgs.len() && asgs[j] == #[trigger] kpre[i] by {
            let w = choose|j: int| 0 <= j < pre.len() && pre[j] == kpre[i];
            assert(asgs[w] == kpre[i]);
        }
        if last.fee_id != id {
            assert(k == kpre.push(last));
            assert forall|i: int| 0 <= i < kpre.len() implies kpre[i].assignment_id
                != last.assignment_id && !(kpre[i].room_number == last.room_number
                && kpre[i].fee_id == last.fee_id) by {
                let w = choose|j: int| 0 <= j < pre.len() && pre[j] == kpre[i];
                assert(w < asgs.len() - 1);
            }
            assert(k[k.len() - 1] == last);
        } else {
            assert(k == kpre);
        }
        assert forall|j: int|
            0 <= j < asgs.len() && (#[trigger] asgs[j]).fee_id != id implies exists|i: int|
            0 <= i < k.len() && k[i] == asgs[j] by {
            if j < asgs.len() - 1 {
                assert(pre[j] == asgs[j]);
                let w = choose|i: int| 0 <= i < kpre.len() && kpre[i] == pre[j];
                assert(k[w] == asgs[j]);
            } else {
                assert(k[k.len() - 1] == last);
            }
        }
    }
}

/// Surviving transaction rows: a subset whose assignments survive, with
/// uniqueness kept.
proof fn lemma_keep_txs(txs: Seq<Transaction>, asgs: Seq<Assignment>, id: i32, k: Seq<Transaction>)
    requires
        k == keep_txs(txs, asgs, id),
        forall|i: int, j: int| 0 <= i < j < txs.len() ==> txs[i].id != txs[j].id,
        forall|i: int, j: int|
            0 <= i < j < txs.len() ==> txs[i].assignment_id != txs[j].assignment_id,
    ensures
        k.len() <= txs.len(),
        forall|i: int|
            0 <= i < k.len() ==> exists|j: int| 0 <= j < txs.len() && txs[j] == #[trigger] k[i],
        forall|i: int| 0 <= i < k.len() ==> !tx_dropped(asgs, #[trigger] k[i], id),
        forall|i: int, j: int| 0 <= i < j < k.len() ==> k[i].id != k[j].id,
        forall|i: int, j: int| 0 <= i < j < k.len() ==> k[i].assignment_id != k[j].assignment_id,
    decreases txs.len(),
{
    if txs.len() > 0 {
        let pre = txs.drop_last();
        let kpre = keep_txs(pre, asgs, id);
        assert(forall|i: int| 0 <= i < pre.len() ==> pre[i] == txs[i]);
        lemma_keep_txs(pre, asgs, id, kpre);
        let last = txs.last();
        assert(last == txs[txs.len() - 1]);
        assert forall|i: int| 0 <= i < kpre.len() implies exists|j: int|
            0 <= j < txs.len() && txs[j] == #[trigger] kpre[i] by {
            let w = choose|j: int| 0 <= j < pre.len() && pre[j] == kpre[i];
            assert(txs[w] == kpre[i]);
        }
        if !tx_dropped(asgs, last, id) {
            assert(k == kpre.push(last));
            assert forall|i: int| 0 <= i < kpre.len() implies kpre[i].id != last.id
                && kpre[i].assignment_id != last.assignment_id by {
                let w = choose|j: int| 0 <= j < pre.len() && pre[j] == kpre[i];
                assert(w < txs.len() - 1);
            }
            assert(k[k.len() - 1] == last);
        } else {
            assert(k == kpre);
        }
    }
}

/// The fee and recurrence tables stay well-formed under the cascade.
#[verifier::rlimit(100)]
proof fn lemma_remove_fee_wf_fees(m: StoreModel, id: i32)
    requires
        wf(m),
        has_fee(m, id as int),
    ensures
        wf_fees(remove_fee_spec(m, id).0),
        forall|x: int| has_fee(m, x) && x != id ==> has_fee(remove_fee_spec(m, id).0, x),
{
    let mn = remove_fee_spec(m, id).0;
    let kf = keep_fees(m.fees, id);
    let kr = keep_recs(m.recurrences, id);
    lemma_keep_fees(m.fees, id, kf);
    lemma_keep_recs(m.recurrences, id);
    assert forall|x: int| has_fee(m, x) && x != id implies has_fee(mn, x) by {
        let w = choose|j: int| 0 <= j < m.fees.len() && m.fees[j].id == x;
        assert(m.fees[w].id != id);
        let v = choose|i: int| 0 <= i < kf.len() && kf[i] == m.fees[w];
        assert(kf[v].id == x);
    }
    assert forall|i: int| 0 <= i < kf.len() implies 1 <= (#[trigger] kf[i]).id && kf[i].id
        < mn.next_fee_id && DUE_DATE_MIN <= kf[i].due_date && kf[i].due_date <= DUE_DATE_MAX by {
        let w = choose|j: int| 0 <= j < m.fees.len() && m.fees[j] == kf[i];
        assert(1 <= m.fees[w].id < m.next_fee_id);
        assert(DUE_DATE_MIN <= m.fees[w].due_date <= DUE_DATE_MAX);
    }
    assert forall|i: int| 0 <= i < kr.len() implies 1 <= (#[trigger] kr[i]).recurrence_id
        && kr[i].recurrence_id < mn.next_recurrence_id && DUE_DATE_MIN <= kr[i].due_date
        && kr[i].due_date <= DUE_DATE_MAX && has_fee(mn, kr[i].fee_id as int) && has_fee(
        mn,
        kr[i].previous_fee_id as int,
    ) by {
        let w = choose|j: int| 0 <= j < m.recurrences.len() && m.recurrences[j] == kr[i];
        assert(1 <= m.recurrences[w].recurrence_id < m.next_recurrence_id);
        assert(DUE_DATE_MIN <= m.recurrences[w].due_date <= DUE_DATE_MAX);
        assert(has_fee(m, m.recurrences[w].fee_id as int));
        assert(has_fee(m, m.recurrences[w].previous_fee_id as int));
        assert(kr[i].fee_id != id && kr[i].previous_fee_id != id);
    }
    assert forall|i: int, j: int|
        0 <= i < kr.len() && 0 <= j < kf.len() && (#[trigger] kf[j]).id == (
        #[trigger] kr[i]).fee_id implies kf[j].recurrence_type is Some by {
        let w = choose|q: int| 0 <= q < m.recurrences.len() && m.recurrences[q] == kr[i];
        let v = choose|q: int| 0 <= q < m.fees.len() && m.fees[q] == kf[j];
        assert(m.fees[v].id == m.recurrences[w].fee_id);
    }
    assert(wf_fees(mn));
}

/// The assignment and transaction tables stay well-formed under the
/// cascade.
#[verifier::rlimit(100)]
proof fn lemma_remove_fee_wf_payments(m: StoreModel, id: i32)
    requires
        wf(m),
        has_fee(m, id as int),
        forall|x: int| has_fee(m, x) && x != id ==> has_fee(remove_fee_spec(m, id).0, x),
    ensures
        wf_payments(remove_fee_spec(m, id).0),
{
    let mn = remove_fee_spec(m, id).0;
    let ka = keep_asgs(m.assignments, id);
    let kt = keep_txs(m.transactions, m.assignments, id);
    lemma_keep_asgs(m.assignments, id, ka);
    lemma_keep_txs(m.transactions, m.assignments, id, kt);
    assert forall|i: int| 0 <= i < ka.len() implies 1 <= (#[trigger] ka[i]).assignment_id
        && ka[i].assignment_id < mn.next_assignment_id && has_fee(mn, ka[i].fee_id as int) by {
        let w = choose|j: int| 0 <= j < m.assignments.len() && m.assignments[j] == ka[i];
        assert(1 <= m.assignments[w].assignment_id < m.next_assignment_id);
        assert(has_fee(m, m.assignments[w].fee_id as int));
        assert(ka[i].fee_id != id);
    }
    assert forall|i: int| 0 <= i < kt.len() implies 1 <= (#[trigger] kt[i]).id && kt[i].id
        < mn.next_transaction_id && has_assignment(mn, kt[i].assignment_id as int) by {
        let w = choose|j: int| 0 <= j < m.transactions.len() && m.transactions[j] == kt[i];
        assert(1 <= m.transactions[w].id < m.next_transaction_id);
        assert(has_assignment(m, m.transactions[w].assignment_id as int));
        let a = choose|q: int|
            0 <= q < m.assignments.len() && m.assignments[q].assignment_id
                == m.transactions[w].assignment_id;
        assert(!tx_dropped(m.assignments, kt[i], id));
        assert(m.assignments[a].fee_id != id);
        let v = choose|q: int| 0 <= q < ka.len() && ka[q] == m.assignments[a];
        assert(ka[v].assignment_id == kt[i].assignment_id);
    }
    assert forall|i: int, j: int|
        0 <= i < kt.len() && 0 <= j < ka.len() && (#[trigger] ka[j]).assignment_id == (
        #[trigger] kt[i]).assignment_id implies ka[j].is_paid by {
        let w = choose|q: int| 0 <= q < m.transactions.len() && m.transactions[q] == kt[i];
        let v = choose|q: int| 0 <= q < m.assignments.len() && m.assignments[q] == ka[j];
        assert(m.assignments[v].assignment_id == m.transactions[w].assignment_id);
        assert(m.assignments[v].is_paid);
    }
    assert(wf_payments(mn));
}

/// The cascade of deleting a fee leaves the store well-formed.
proof fn lemma_remove_fee_wf(m: StoreModel, id: i32)
    requires
        wf(m),
        has_fee(m, id as int),
    ensures
        wf(remove_fee_spec(m, id).0),
{
    lemma_remove_fee_wf_fees(m, id);
    lemma_remove_fee_wf_payments(m, id);
    assert(wf_accounts(remove_fee_spec(m, id).0));
}

impl Store {
    /// Manager action: delete a fee. The store's foreign keys cascade: the
    /// fee's room assignments fall with it, the transactions recorded for
    /// those assignments fall with them, and so does every recurrence row
    /// naming the fee. `NotFound` when no fee has the given id.
    pub fn remove_fee(&mut self, id: i32) -> (r: Result<(), ApiError>)
        requires
            wf(old(self)@),
        ensures
            wf(final(self)@),
            final(self)@ == remove_fee_spec(old(self)@, id).0,
            r == remove_fee_spec(old(self)@, id).1,
    {
        if self.fee_pos(id).is_none() {
            return Err(ApiError::NotFound);
        }
        let ghost m = old(self)@;
        // transactions first: the cascade test reads the assignment table
        let tn = self.transactions.len();
        let mut kept_txs_v: Vec<Transaction> = Vec::new();
        let mut i: usize = 0;
        while i < tn
            invariant
                i <= tn,
                tn == m.transactions.len(),
                self@ == m,
                wf(self@),
                kept_txs_v@ == keep_txs(m.transactions.subrange(0, i as int), m.assignments, id),
            decreases tn - i,
        {
            let tx = self.transactions[i];
            proof {
                assert(m.transactions.subrange(0, i as int + 1).drop_last() =~= m.transactions
                    .subrange(0, i as int));
                assert(m.transactions.subrange(0, i as int + 1).last() == m.transactions[i as int]);
            }
            let dropped = match self.assignment_pos(tx.assignment_id) {
                Some(ap) => {
                    proof {
                        assert(ap as int == assignment_ix(m, tx.assignment_id as int));
                    }
                    let d = self.assignments[ap].fee_id == id;
                    proof {
                        if d {
                            assert(tx_dropped(m.assignments, tx, id));
                        } else {
                            assert forall|j: int|
                                0 <= j < m.assignments.len() && m.assignments[j].assignment_id
                                    == tx.assignment_id implies m.assignments[j].fee_id != id by {
                                assert(j == ap as int);
                            }
                            assert(!tx_dropped(m.assignments, tx, id));
                        }
                    }
                    d
                },
                None => {
                    proof {
                        assert(!tx_dropped(m.assignments, tx, id));
                    }
                    false
                },
            };
            if !dropped {
                kept_txs_v.push(tx);
            }
            i += 1;
        }
        proof {
            assert(m.transactions.subrange(0, tn as int) =~= m.transactions);
        }
        // assignments of the fee fall with it
        let an = self.assignments.len();
        let mut kept_asgs_v: Vec<Assignment> = Vec::new();
        let mut i2: usize = 0;
        while i2 < an
            invariant
                i2 <= an,
                an == m.assignments.len(),
                self@ == m,
                kept_asgs_v@ == keep_asgs(m.assignments.subrange(0, i2 as int), id),
            decreases an - i2,
        {
            proof {
                assert(m.assignments.subrange(0, i2 as int + 1).drop_last() =~= m.assignments
                    .subrange(0, i2 as int));
                assert(m.assignments.subrange(0, i2 as int + 1).last() == m.assignments[i2 as int]);
            }
            if self.assignments[i2].fee_id != id {
                kept_asgs_v.push(self.assignments[i2]);
            }
            i2 += 1;
        }
        proof {
            assert(m.assignments.subrange(0, an as int) =~= m.assignments);
        }
        // recurrence rows naming the fee fall with it
        let rn = self.recurrences.len();
        let mut kept_recs_v: Vec<Recurrence> = Vec::new();
        let mut i3: usize = 0;
        while i3 < rn
            invariant
                i3 <= rn,
                rn == m.recurrences.len(),
                self@ == m,
                kept_recs_v@ == keep_recs(m.recurrences.subrange(0, i3 as int), id),
            decreases rn - i3,
        {
            proof {
                assert(m.recurrences.subrange(0, i3 as int + 1).drop_last() =~= m.recurrences
                    .subrange(0, i3 as int));
                assert(m.recurrences.subrange(0, i3 as int + 1).last() == m.recurrences[i3 as int]);
            }
            let r = self.recurrences[i3];
            if !(r.fee_id == id || r.previous_fee_id == id) {
                kept_recs_v.push(r);
            }
            i3 += 1;
        }
        proof {
            assert(m.recurrences.subrange(0, rn as int) =~= m.recurrences);
        }
        // finally the fee row itself
        let fn_ = self.fees.len();
        let mut kept_fees_v: Vec<crate::model::Fee> = Vec::new();
        let mut i4: usize = 0;
        while i4 < fn_
            invariant
                i4 <= fn_,
                fn_ == m.fees.len(),
                self@ == m,
                kept_fees_v.deep_view() == keep_fees(m.fees.subrange(0, i4 as int), id),
            decreases fn_ - i4,
        {
            proof {
                assert(m.fees.subrange(0, i4 as int + 1).drop_last() =~= m.fees.subrange(
                    0,
                    i4 as int,
                ));
                assert(m.fees.subrange(0, i4 as int + 1).last() == m.fees[i4 as int]);
            }
            if self.fees[i4].id != id {
                let f = &self.fees[i4];
                let row = crate::model::Fee {
                    id: f.id,
                    name: clone_string(&self.fees[i4].name),
                    amount: f.amount,
                    is_required: f.is_required,
                    created_at: f.created_at,
                    due_date: f.due_date,
                    is_recurring: f.is_recurring,
                    recurrence_type: f.recurrence_type,
                };
                kept_fees_v.push(row);
                proof {
                    assert(kept_fees_v.deep_view() =~= keep_fees(
                        m.fees.subrange(0, i4 as int + 1),
                        id,
                    ));
                }
            } else {
                proof {
                    assert(kept_fees_v.deep_view() =~= keep_fees(
                        m.fees.subrange(0, i4 as int + 1),
                        id,
                    ));
                }
            }
            i4 += 1;
        }
        proof {
            assert(m.fees.subrange(0, fn_ as int) =~= m.fees);
        }
        self.transactions = kept_txs_v;
        self.assignments = kept_asgs_v;
        self.recurrences = kept_recs_v;
        self.fees = kept_fees_v;
        proof {
            assert(self@ =~= remove_fee_spec(m, id).0);
            lemma_remove_fee_wf(m, id);
        }
        Ok(())
    }
}

} // verus!
