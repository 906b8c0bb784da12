use vstd::prelude::*;

verus! {

/// How often a recurring fee comes due again.
#[derive(Clone, Copy, Debug, PartialEq, Eq, Structural)]
pub enum RecurrenceType {
    Weekly,
    Monthly,
    Yearly,
}

/// Role attached to an account, checked by the handlers before an operation.
#[derive(Clone, Copy, Debug, PartialEq, Eq, Structural)]
pub enum UserRole {
    Admin,
    Manager,
    Tenant,
}

/// Whether an account may log in.
#[derive(Clone, Copy, Debug, PartialEq, Eq, Structural)]
pub enum UserStatus {
    Active,
    Inactive,
}

/// A billable obligation definition. A paid fee's record is never mutated by
/// the payment workflow; a new row is created for the next period instead.
/// Timestamps are seconds since the Unix epoch.
#[derive(Clone, Debug)]
pub struct Fee {
    pub id: i32,
    pub name: String,
    pub amount: i64,
    pub is_required: bool,
    pub created_at: i64,
    pub due_date: i64,
    pub is_recurring: bool,
    pub recurrence_type: Option<RecurrenceType>,
}

/// One link of a recurrence chain: `previous_fee_id` points backward to the
/// fee this one continues from. A seed row points at itself.
#[derive(Clone, Copy, Debug)]
pub struct Recurrence {
    pub recurrence_id: i32,
    pub fee_id: i32,
    pub previous_fee_id: i32,
    pub due_date: i64,
}

/// The binding of one fee instance to one room, with its own paid state.
#[derive(Clone, Copy, Debug)]
pub struct Assignment {
    pub assignment_id: i32,
    pub room_number: i32,
    pub fee_id: i32,
    pub due_date: i64,
    pub payment_date: Option<i64>,
    pub is_paid: bool,
}

/// Append-only audit record created alongside each settlement.
#[derive(Clone, Copy, Debug)]
pub struct Transaction {
    pub id: i32,
    pub amount: i64,
    pub created_at: i64,
    pub assignment_id: i32,
}

/// An account. `salt` and `password` hold the password salt and hash.
#[derive(Clone, Debug)]
pub struct User {
    pub id: i32,
    pub name: String,
    pub username: String,
    pub email: String,
    pub phone: String,
    pub salt: Vec<u8>,
    pub password: Vec<u8>,
    pub role: UserRole,
    pub status: UserStatus,
    pub refresh_token_version: i32,
}

/// A room and the tenant renting it.
#[derive(Clone, Copy, Debug)]
pub struct Room {
    pub room_number: i32,
    pub tenant_id: i32,
}

/// A message from a manager to a tenant.
#[derive(Clone, Debug)]
pub struct Notification {
    pub id: i32,
    pub title: String,
    pub message: String,
    pub from_user: i32,
    pub to_user: i32,
}

/// A family member registered under an account; `birthday` is a day number
/// (days since the Unix epoch).
#[derive(Clone, Debug)]
pub struct FamilyMember {
    pub id: i32,
    pub name: String,
    pub birthday: i64,
    pub account_id: i32,
}

/// Mathematical image of a `Fee` row: text fields as character sequences.
#[verifier::ext_equal]
pub ghost struct FeeModel {
    pub id: i32,
    pub name: Seq<char>,
    pub amount: i64,
    pub is_required: bool,
    pub created_at: i64,
    pub due_date: i64,
    pub is_recurring: bool,
    pub recurrence_type: Option<RecurrenceType>,
}

impl View for Fee {
    type V = FeeModel;

    open spec fn view(&self) -> FeeModel {
        FeeModel {
            id: self.id,
            name: self.name@,
            amount: self.amount,
            is_required: self.is_required,
            created_at: self.created_at,
            due_date: self.due_date,
            is_recurring: self.is_recurring,
            recurrence_type: self.recurrence_type,
        }
    }
}

impl DeepView for Fee {
    type V = FeeModel;

    open spec fn deep_view(&self) -> FeeModel {
        self.view()
    }
}

/// Mathematical image of a `User` row.
#[verifier::ext_equal]
pub ghost struct UserModel {
    pub id: i32,
    pub name: Seq<char>,
    pub username: Seq<char>,
    pub email: Seq<char>,
    pub phone: Seq<char>,
    pub salt: Seq<u8>,
    pub password: Seq<u8>,
    pub role: UserRole,
    pub status: UserStatus,
    pub refresh_token_version: i32,
}

impl View for User {
    type V = UserModel;

    open spec fn view(&self) -> UserModel {
        UserModel {
            id: self.id,
            name: self.name@,
            username: self.username@,
            email: self.email@,
            phone: self.phone@,
            salt: self.salt@,
            password: self.password@,
            role: self.role,
            status: self.status,
            refresh_token_version: self.refresh_token_version,
        }
    }
}

impl DeepView for User {
    type V = UserModel;

    open spec fn deep_view(&self) -> UserModel {
        self.view()
    }
}

/// Mathematical image of a `Notification` row.
#[verifier::ext_equal]
pub ghost struct NotificationModel {
    pub id: i32,
    pub title: Seq<char>,
    pub message: Seq<char>,
    pub from_user: i32,
    pub to_user: i32,
}

impl View for Notification {
    type V = NotificationModel;

    open spec fn view(&self) -> NotificationModel {
        NotificationModel {
            id: self.id,
            title: self.title@,
            message: self.message@,
            from_user: self.from_user,
            to_user: self.to_user,
        }
    }
}

impl DeepView for Notification {
    type V = NotificationModel;

    open spec fn deep_view(&self) -> NotificationModel {
        self.view()
    }
}

/// Mathematical image of a `FamilyMember` row.
#[verifier::ext_equal]
pub ghost struct FamilyMemberModel {
    pub id: i32,
    pub name: Seq<char>,
    pub birthday: i64,
    pub account_id: i32,
}

impl View for FamilyMember {
    type V = FamilyMemberModel;

    open spec fn view(&self) -> FamilyMemberModel {
        FamilyMemberModel {
            id: self.id,
            name: self.name@,
            birthday: self.birthday,
            account_id: self.account_id,
        }
    }
}

impl DeepView for FamilyMember {
    type V = FamilyMemberModel;

    open spec fn deep_view(&self) -> FamilyMemberModel {
        self.view()
    }
}

/// Earliest due date the store accepts: 0000-01-01T00:00:00, in seconds.
pub const DUE_DATE_MIN: i64 = -62_167_219_200;

/// Latest due date the store accepts: 9999-12-31T23:59:59, in seconds.
pub const DUE_DATE_MAX: i64 = 253_402_300_799;

/// Seconds added by a weekly recurrence: exactly 7 days.
pub const SECS_PER_WEEK: i64 = 604_800;

/// Seconds added by a monthly recurrence: exactly 30 days.
pub const SECS_PER_MONTH: i64 = 2_592_000;

/// Seconds added by a yearly recurrence: exactly 365 days, not calendar-aware.
pub const SECS_PER_YEAR: i64 = 31_536_000;

/// The interval, in seconds, that a recurrence advance adds to a due date.
pub open spec fn interval_spec(rt: RecurrenceType) -> int {
    match rt {
        RecurrenceType::Weekly => SECS_PER_WEEK as int,
        RecurrenceType::Monthly => SECS_PER_MONTH as int,
        RecurrenceType::Yearly => SECS_PER_YEAR as int,
    }
}

/// Mathematical model of the relational store: each table as a sequence of
/// rows, in insertion order, plus the next value of each auto-assigned key.
#[verifier::ext_equal]
pub ghost struct StoreModel {
    pub fees: Seq<FeeModel>,
    pub recurrences: Seq<Recurrence>,
    pub assignments: Seq<Assignment>,
    pub transactions: Seq<Transaction>,
    pub users: Seq<UserModel>,
    pub rooms: Seq<Room>,
    pub notifications: Seq<NotificationModel>,
    pub family: Seq<FamilyMemberModel>,
    pub next_fee_id: int,
    pub next_recurrence_id: int,
    pub next_assignment_id: int,
    pub next_transaction_id: int,
    pub next_user_id: int,
    pub next_notification_id: int,
    pub next_family_id: int,
}

pub open spec fn has_fee(m: StoreModel, fee_id: int) -> bool {
    exists|i: int| 0 <= i < m.fees.len() && m.fees[i].id == fee_id
}

/// Index of the fee row with the given id; under `wf` it is unique.
pub open spec fn fee_ix(m: StoreModel, fee_id: int) -> int {
    choose|i: int| 0 <= i < m.fees.len() && m.fees[i].id == fee_id
}

pub open spec fn has_assignment(m: StoreModel, aid: int) -> bool {
    exists|i: int| 0 <= i < m.assignments.len() && m.assignments[i].assignment_id == aid
}

pub open spec fn assignment_ix(m: StoreModel, aid: int) -> int {
    choose|i: int| 0 <= i < m.assignments.len() && m.assignments[i].assignment_id == aid
}

pub open spec fn has_room_fee(m: StoreModel, room: int, fee_id: int) -> bool {
    exists|i: int|
        0 <= i < m.assignments.len() && m.assignments[i].room_number == room
            && m.assignments[i].fee_id == fee_id
}

pub open spec fn room_fee_ix(m: StoreModel, room: int, fee_id: int) -> int {
    choose|i: int|
        0 <= i < m.assignments.len() && m.assignments[i].room_number == room
            && m.assignments[i].fee_id == fee_id
}

/// A forward link of the chain: a recurrence row continuing from `fee_id`
/// toward a different fee.
pub open spec fn is_forward_link(r: Recurrence, fee_id: int) -> bool {
    r.previous_fee_id == fee_id && r.fee_id != fee_id
}

pub open spec fn has_forward_link(m: StoreModel, fee_id: int) -> bool {
    exists|i: int| 0 <= i < m.recurrences.len() && is_forward_link(m.recurrences[i], fee_id)
}

pub open spec fn forward_link_ix(m: StoreModel, fee_id: int) -> int {
    choose|i: int| 0 <= i < m.recurrences.len() && is_forward_link(m.recurrences[i], fee_id)
}

pub open spec fn has_recurrence_of(m: StoreModel, fee_id: int) -> bool {
    exists|i: int| 0 <= i < m.recurrences.len() && m.recurrences[i].fee_id == fee_id
}

pub open spec fn recurrence_of_ix(m: StoreModel, fee_id: int) -> int {
    choose|i: int| 0 <= i < m.recurrences.len() && m.recurrences[i].fee_id == fee_id
}

pub open spec fn has_user(m: StoreModel, uid: int) -> bool {
    exists|i: int| 0 <= i < m.users.len() && m.users[i].id == uid
}

pub open spec fn user_ix(m: StoreModel, uid: int) -> int {
    choose|i: int| 0 <= i < m.users.len() && m.users[i].id == uid
}

pub open spec fn has_username(m: StoreModel, name: Seq<char>) -> bool {
    exists|i: int| 0 <= i < m.users.len() && m.users[i].username == name
}

pub open spec fn username_ix(m: StoreModel, name: Seq<char>) -> int {
    choose|i: int| 0 <= i < m.users.len() && m.users[i].username == name
}

pub open spec fn has_room(m: StoreModel, room: int) -> bool {
    exists|i: int| 0 <= i < m.rooms.len() && m.rooms[i].room_number == room
}

pub open spec fn room_ix(m: StoreModel, room: int) -> int {
    choose|i: int| 0 <= i < m.rooms.len() && m.rooms[i].room_number == room
}

pub open spec fn has_tenant_room(m: StoreModel, uid: int) -> bool {
    exists|i: int| 0 <= i < m.rooms.len() && m.rooms[i].tenant_id == uid
}

pub open spec fn tenant_room_ix(m: StoreModel, uid: int) -> int {
    choose|i: int| 0 <= i < m.rooms.len() && m.rooms[i].tenant_id == uid
}

pub open spec fn has_transaction_for(m: StoreModel, aid: int) -> bool {
    exists|i: int| 0 <= i < m.transactions.len() && m.transactions[i].assignment_id == aid
}

pub open spec fn transaction_for_ix(m: StoreModel, aid: int) -> int {
    choose|i: int| 0 <= i < m.transactions.len() && m.transactions[i].assignment_id == aid
}

/// Relational integrity of the fee tables: key uniqueness, foreign keys, the
/// no-branching shape of recurrence chains, and due dates inside the
/// representable window.
pub open spec fn wf_fees(m: StoreModel) -> bool {
    &&& forall|i: int, j: int|
        0 <= i < j < m.fees.len() ==> m.fees[i].id != m.fees[j].id
    &&& forall|i: int|
        0 <= i < m.fees.len() ==> 1 <= #[trigger] m.fees[i].id && m.fees[i].id < m.next_fee_id
    &&& forall|i: int|
        0 <= i < m.fees.len() ==> DUE_DATE_MIN <= #[trigger] m.fees[i].due_date && m.fees[i].due_date <= DUE_DATE_MAX
    &&& forall|i: int, j: int|
        0 <= i < j < m.recurrences.len()
            ==> m.recurrences[i].recurrence_id != m.recurrences[j].recurrence_id
    &&& forall|i: int|
        0 <= i < m.recurrences.len()
            ==> 1 <= #[trigger] m.recurrences[i].recurrence_id && m.recurrences[i].recurrence_id < m.next_recurrence_id
    &&& forall|i: int, j: int|
        0 <= i < j < m.recurrences.len() ==> m.recurrences[i].fee_id != m.recurrences[j].fee_id
    &&& forall|i: int, j: int|
        0 <= i < m.recurrences.len() && 0 <= j < m.recurrences.len() && i != j
            ==> !(is_forward_link(m.recurrences[i], m.recurrences[i].previous_fee_id as int)
                && is_forward_link(
                m.recurrences[j],
                m.recurrences[i].previous_fee_id as int,
            ))
    &&& forall|i: int|
        0 <= i < m.recurrences.len() ==> has_fee(m, m.recurrences[i].fee_id as int)
    &&& forall|i: int|
        0 <= i < m.recurrences.len() ==> has_fee(m, m.recurrences[i].previous_fee_id as int)
    &&& forall|i: int|
        0 <= i < m.recurrences.len()
            ==> DUE_DATE_MIN <= #[trigger] m.recurrences[i].due_date && m.recurrences[i].due_date <= DUE_DATE_MAX
    &&& forall|i: int, j: int|
        0 <= i < m.recurrences.len() && 0 <= j < m.fees.len()
            && m.fees[j].id == m.recurrences[i].fee_id ==> m.fees[j].recurrence_type is Some
}

/// Relational integrity of assignments and transactions.
pub open spec fn wf_payments(m: StoreModel) -> bool {
    &&& forall|i: int, j: int|
        0 <= i < j < m.assignments.len()
            ==> m.assignments[i].assignment_id != m.assignments[j].assignment_id
    &&& forall|i: int|
        0 <= i < m.assignments.len()
            ==> 1 <= #[trigger] m.assignments[i].assignment_id && m.assignments[i].assignment_id < m.next_assignment_id
    &&& forall|i: int, j: int|
        0 <= i < j < m.assignments.len()
            ==> !(m.assignments[i].room_number == m.assignments[j].room_number
                && m.assignments[i].fee_id == m.assignments[j].fee_id)
    &&& forall|i: int|
        0 <= i < m.assignments.len() ==> has_fee(m, m.assignments[i].fee_id as int)
    &&& forall|i: int, j: int|
        0 <= i < j < m.transactions.len() ==> m.transactions[i].id != m.transactions[j].id
    &&& forall|i: int|
        0 <= i < m.transactions.len() ==> 1 <= #[trigger] m.transactions[i].id && m.transactions[i].id < m.next_transaction_id
    &&& forall|i: int, j: int|
        0 <= i < j < m.transactions.len()
            ==> m.transactions[i].assignment_id != m.transactions[j].assignment_id
    &&& forall|i: int|
        0 <= i < m.transactions.len() ==> has_assignment(m, m.transactions[i].assignment_id as int)
    &&& forall|i: int, j: int|
        0 <= i < m.transactions.len() && 0 <= j < m.assignments.len()
            && m.assignments[j].assignment_id == m.transactions[i].assignment_id
            ==> m.assignments[j].is_paid
}

/// Integrity of accounts, rooms, notifications and family members. User rows
/// are kept in strictly increasing id order, which also makes ids unique.
pub open spec fn wf_accounts(m: StoreModel) -> bool {
    &&& forall|i: int, j: int|
        0 <= i < j < m.users.len() ==> m.users[i].id < m.users[j].id
    &&& forall|i: int|
        0 <= i < m.users.len() ==> 1 <= #[trigger] m.users[i].id && m.users[i].id < m.next_user_id
    &&& forall|i: int, j: int|
        0 <= i < j < m.users.len() ==> m.users[i].username != m.users[j].username
    &&& forall|i: int|
        0 <= i < m.users.len() ==> 8 <= #[trigger] m.users[i].salt.len() && m.users[i].salt.len() <= u32::MAX
    &&& forall|i: int|
        0 <= i < m.users.len() ==> m.users[i].password.len() == 32
    &&& forall|i: int, j: int|
        0 <= i < j < m.rooms.len() ==> m.rooms[i].room_number != m.rooms[j].room_number
    &&& forall|i: int, j: int|
        0 <= i < j < m.rooms.len() ==> m.rooms[i].tenant_id != m.rooms[j].tenant_id
    &&& forall|i: int|
        0 <= i < m.rooms.len() ==> has_user(m, m.rooms[i].tenant_id as int)
    &&& forall|i: int, j: int|
        0 <= i < j < m.notifications.len() ==> m.notifications[i].id != m.notifications[j].id
    &&& forall|i: int|
        0 <= i < m.notifications.len() ==> 1 <= #[trigger] m.notifications[i].id && m.notifications[i].id < m.next_notification_id
    &&& forall|i: int, j: int|
        0 <= i < j < m.family.len() ==> m.family[i].id != m.family[j].id
    &&& forall|i: int|
        0 <= i < m.family.len() ==> 1 <= #[trigger] m.family[i].id && m.family[i].id < m.next_family_id
}

/// Well-formedness of the whole store: every operation of the library
/// requires it and preserves it.
pub open spec fn wf(m: StoreModel) -> bool {
    &&& wf_fees(m)
    &&& wf_payments(m)
    &&& wf_accounts(m)
    &&& 1 <= m.next_fee_id
    &&& 1 <= m.next_recurrence_id
    &&& 1 <= m.next_assignment_id
    &&& 1 <= m.next_transaction_id
    &&& 1 <= m.next_user_id
    &&& 1 <= m.next_notification_id
    &&& 1 <= m.next_family_id
}

/// Room for one more auto-assigned key in each table; mutating operations
/// require it so that key increments cannot overflow.
pub open spec fn ids_headroom(m: StoreModel) -> bool {
    &&& m.next_fee_id < i32::MAX
    &&& m.next_recurrence_id < i32::MAX
    &&& m.next_assignment_id < i32::MAX
    &&& m.next_transaction_id < i32::MAX
    &&& m.next_user_id < i32::MAX
    &&& m.next_notification_id < i32::MAX
    &&& m.next_family_id < i32::MAX
}

/// True when settling an assignment of this fee could not push a freshly
/// minted due date beyond the representable window: if the fee would mint a
/// next period (recurring, at the end of its chain), the advanced due date
/// still fits.
pub open spec fn mint_due_ok(m: StoreModel, fee_id: int) -> bool {
    has_fee(m, fee_id) && !has_forward_link(m, fee_id) && has_recurrence_of(m, fee_id)
        && m.fees[fee_ix(m, fee_id)].recurrence_type is Some
        ==> m.fees[fee_ix(m, fee_id)].due_date
            + interval_spec(m.fees[fee_ix(m, fee_id)].recurrence_type->0) <= DUE_DATE_MAX
}

} // verus!
