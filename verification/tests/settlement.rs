use flatapp::ApiError;
use flatapp::api::WebhookPayload;
use flatapp::model::{Assignment, Fee, Recurrence, RecurrenceType, Room, User, UserRole, UserStatus};
use flatapp::store::Store;

const JAN_1_2024: i64 = 1_704_067_200;

fn tenant(id: i32, username: &str) -> User {
    User {
        id,
        name: format!("user {}", id),
        username: username.to_string(),
        email: format!("{}@example.com", username),
        phone: format!("000{}", id),
        salt: vec![7u8; 16],
        password: vec![0u8; 32],
        role: UserRole::Tenant,
        status: UserStatus::Active,
        refresh_token_version: 1,
    }
}

fn monthly_fee(id: i32, amount: i64, due: i64) -> Fee {
    Fee {
        id,
        name: format!("fee {}", id),
        amount,
        is_required: true,
        created_at: due - 86_400,
        due_date: due,
        is_recurring: true,
        recurrence_type: Some(RecurrenceType::Monthly),
    }
}

/// A store with one tenant in room 101 owing the monthly fee 1 (seeded with
/// its self-referential recurrence row), unpaid.
fn store_with_room_101() -> Store {
    let mut s = Store::new();
    s.users = vec![tenant(1, "alice")];
    s.next_user_id = 2;
    s.rooms = vec![Room { room_number: 101, tenant_id: 1 }];
    s.fees = vec![monthly_fee(1, 5000, JAN_1_2024)];
    s.next_fee_id = 2;
    s.recurrences = vec![Recurrence {
        recurrence_id: 1,
        fee_id: 1,
        previous_fee_id: 1,
        due_date: JAN_1_2024,
    }];
    s.next_recurrence_id = 2;
    s.assignments = vec![Assignment {
        assignment_id: 1,
        room_number: 101,
        fee_id: 1,
        due_date: JAN_1_2024,
        payment_date: None,
        is_paid: false,
    }];
    s.next_assignment_id = 2;
    s
}

fn payload(content: &str, amount: i64, date: &str) -> WebhookPayload {
    WebhookPayload {
        id: 3,
        gateway: "Vietcombank".to_string(),
        transaction_date: date.to_string(),
        account_number: "0123499999".to_string(),
        sub_account: None,
        transfer_amount: amount,
        accumulated: amount,
        code: None,
        content: content.to_string(),
        reference_code: None,
        description: None,
    }
}

#[test]
fn pay_fee_mint_case_creates_next_period() {
    // a monthly fee due 2024-01-01 with no forward link mints the next
    // period on settlement: a new fee 30 days later, a new assignment, and
    // a new recurrence link
    let mut s = store_with_room_101();
    let now = JAN_1_2024 + 3600;
    let r = s.pay_fee(1, 1, now);
    assert_eq!(r, Ok(()));
    // the assignment is settled and one transaction recorded
    assert!(s.assignments[0].is_paid);
    assert_eq!(s.assignments[0].payment_date, Some(now));
    assert_eq!(s.transactions.len(), 1);
    assert_eq!(s.transactions[0].amount, 5000);
    assert_eq!(s.transactions[0].assignment_id, 1);
    // the next period: fee 2 due exactly 30 days later
    assert_eq!(s.fees.len(), 2);
    let f2 = &s.fees[1];
    assert_eq!(f2.id, 2);
    assert_eq!(f2.due_date, JAN_1_2024 + 30 * 86_400);
    assert_eq!(f2.amount, 5000);
    assert_eq!(f2.name, "fee 1");
    // room 101 owes the new fee
    assert_eq!(s.assignments.len(), 2);
    assert_eq!(s.assignments[1].room_number, 101);
    assert_eq!(s.assignments[1].fee_id, 2);
    assert!(!s.assignments[1].is_paid);
    // the chain gained the forward link
    assert_eq!(s.recurrences.len(), 2);
    assert_eq!(s.recurrences[1].fee_id, 2);
    assert_eq!(s.recurrences[1].previous_fee_id, 1);
    assert_eq!(s.recurrences[1].due_date, JAN_1_2024 + 30 * 86_400);
}

#[test]
fn pay_fee_reuse_case_only_assigns() {
    // fee 1 already linked forward to fee 2; room 102 also owes fee 1:
    // settling room 102's assignment only creates an assignment of fee 2
    let mut s = store_with_room_101();
    s.users.push(tenant(2, "bob"));
    s.next_user_id = 3;
    s.rooms.push(Room { room_number: 102, tenant_id: 2 });
    s.fees.push(monthly_fee(2, 5000, JAN_1_2024 + 30 * 86_400));
    s.next_fee_id = 3;
    s.recurrences.push(Recurrence {
        recurrence_id: 2,
        fee_id: 2,
        previous_fee_id: 1,
        due_date: JAN_1_2024 + 30 * 86_400,
    });
    s.next_recurrence_id = 3;
    s.assignments.push(Assignment {
        assignment_id: 2,
        room_number: 102,
        fee_id: 1,
        due_date: JAN_1_2024,
        payment_date: None,
        is_paid: false,
    });
    s.next_assignment_id = 3;
    let fees_before = s.fees.len();
    let recs_before = s.recurrences.len();
    let r = s.pay_fee(2, 1, JAN_1_2024 + 7200);
    assert_eq!(r, Ok(()));
    // no new fee, no new recurrence row
    assert_eq!(s.fees.len(), fees_before);
    assert_eq!(s.recurrences.len(), recs_before);
    // exactly one new assignment: room 102 now owes fee 2
    assert_eq!(s.assignments.len(), 3);
    assert_eq!(s.assignments[2].room_number, 102);
    assert_eq!(s.assignments[2].fee_id, 2);
    assert_eq!(s.assignments[2].due_date, JAN_1_2024 + 30 * 86_400);
    assert!(!s.assignments[2].is_paid);
}

#[test]
fn pay_fee_idempotent_manual_path() {
    // paying the same assignment twice reports OK both times and leaves
    // exactly one transaction and one recurrence advance
    let mut s = store_with_room_101();
    let r1 = s.pay_fee(1, 1, JAN_1_2024 + 3600);
    assert_eq!(r1, Ok(()));
    let fees_after_first = s.fees.len();
    let assignments_after_first = s.assignments.len();
    let r2 = s.pay_fee(1, 1, JAN_1_2024 + 9000);
    assert_eq!(r2, Ok(()));
    assert_eq!(s.transactions.len(), 1);
    assert_eq!(s.fees.len(), fees_after_first);
    assert_eq!(s.assignments.len(), assignments_after_first);
    assert_eq!(s.recurrences.len(), 2);
}

#[test]
fn pay_fee_unknown_user_and_missing_assignment() {
    let mut s = store_with_room_101();
    assert_eq!(s.pay_fee(9, 1, JAN_1_2024), Err(ApiError::NotFound));
    assert_eq!(s.pay_fee(1, 99, JAN_1_2024), Err(ApiError::NotFound));
    assert!(s.transactions.is_empty());
}

#[test]
fn pay_fee_non_recurring_settles_without_advance() {
    let mut s = store_with_room_101();
    s.fees[0].is_recurring = false;
    s.fees[0].recurrence_type = None;
    s.recurrences.clear();
    let r = s.pay_fee(1, 1, JAN_1_2024 + 3600);
    assert_eq!(r, Ok(()));
    assert!(s.assignments[0].is_paid);
    assert_eq!(s.fees.len(), 1);
    assert_eq!(s.assignments.len(), 1);
    assert!(s.recurrences.is_empty());
}

#[test]
fn webhook_settles_at_reported_date() {
    // the transfer date parses, so the settlement is dated at it:
    // 2024-05-05 00:00:00 is 1714867200
    let mut s = store_with_room_101();
    let r = s.webhook_payment(&payload("FLATAPP1", 5000, "2024-05-05 00:00:00"), JAN_1_2024);
    assert_eq!(r, Ok(()));
    assert!(s.assignments[0].is_paid);
    assert_eq!(s.assignments[0].payment_date, Some(1_714_867_200));
    assert_eq!(s.transactions[0].created_at, 1_714_867_200);
}

#[test]
fn webhook_falls_back_to_now_on_bad_date() {
    let mut s = store_with_room_101();
    let now = JAN_1_2024 + 42;
    let r = s.webhook_payment(&payload("FLATAPP1", 5000, "not a date"), now);
    assert_eq!(r, Ok(()));
    assert_eq!(s.assignments[0].payment_date, Some(now));
}

#[test]
fn webhook_amount_gate_rejects_mismatch() {
    // a transfer whose amount differs from the fee's amount is rejected
    // with no state mutation
    let mut s = store_with_room_101();
    let r = s.webhook_payment(&payload("FLATAPP1", 4999, "2024-05-05 00:00:00"), JAN_1_2024);
    assert_eq!(r, Err(ApiError::BadRequest));
    assert!(!s.assignments[0].is_paid);
    assert!(s.transactions.is_empty());
    assert_eq!(s.fees.len(), 1);
    assert_eq!(s.recurrences.len(), 1);
}

#[test]
fn webhook_rejects_already_paid() {
    // unlike the manual path, the webhook path reports an already-settled
    // assignment as a client error
    let mut s = store_with_room_101();
    assert_eq!(s.pay_fee(1, 1, JAN_1_2024), Ok(()));
    let r = s.webhook_payment(&payload("FLATAPP1", 5000, "2024-05-05 00:00:00"), JAN_1_2024);
    assert_eq!(r, Err(ApiError::BadRequest));
    assert_eq!(s.transactions.len(), 1);
}

#[test]
fn webhook_unparseable_content_is_server_error() {
    let mut s = store_with_room_101();
    let r = s.webhook_payment(&payload("no reference here", 5000, "2024-05-05 00:00:00"), 0);
    assert_eq!(r, Err(ApiError::Internal));
    assert!(!s.assignments[0].is_paid);
}

#[test]
fn webhook_unknown_assignment_is_server_error() {
    let mut s = store_with_room_101();
    let r = s.webhook_payment(&payload("FLATAPP77", 5000, "2024-05-05 00:00:00"), 0);
    assert_eq!(r, Err(ApiError::Internal));
}

#[test]
fn webhook_advance_takes_mint_then_reuse() {
    // two rooms share fee 1; the first webhook settlement mints fee 2, the
    // second finds the link and only assigns
    let mut s = store_with_room_101();
    s.users.push(tenant(2, "bob"));
    s.next_user_id = 3;
    s.rooms.push(Room { room_number: 102, tenant_id: 2 });
    s.assignments.push(Assignment {
        assignment_id: 2,
        room_number: 102,
        fee_id: 1,
        due_date: JAN_1_2024,
        payment_date: None,
        is_paid: false,
    });
    s.next_assignment_id = 3;
    assert_eq!(
        s.webhook_payment(&payload("FLATAPP1", 5000, "2024-01-02 00:00:00"), 0),
        Ok(())
    );
    assert_eq!(s.fees.len(), 2);
    assert_eq!(
        s.webhook_payment(&payload("FLATAPP2", 5000, "2024-01-03 00:00:00"), 0),
        Ok(())
    );
    // still only one minted fee; both rooms now owe fee 2
    assert_eq!(s.fees.len(), 2);
    assert_eq!(s.recurrences.len(), 2);
    let owed: Vec<(i32, i32)> = s
        .assignments
        .iter()
        .filter(|a| a.fee_id == 2)
        .map(|a| (a.room_number, a.fee_id))
        .collect();
    assert_eq!(owed, vec![(101, 2), (102, 2)]);
}

#[test]
fn check_payment_reports_settlement() {
    let mut s = store_with_room_101();
    assert_eq!(s.check_payment(1), Err(ApiError::NotFound));
    assert_eq!(s.check_payment(99), Err(ApiError::NotFound));
    assert_eq!(s.pay_fee(1, 1, JAN_1_2024), Ok(()));
    assert_eq!(s.check_payment(1), Ok(()));
}

#[test]
fn interval_arithmetic_is_fixed_days() {
    // weekly adds exactly 7 days, yearly exactly 365; not calendar-aware
    assert_eq!(flatapp::settle::interval_secs(RecurrenceType::Weekly), 7 * 86_400);
    assert_eq!(flatapp::settle::interval_secs(RecurrenceType::Monthly), 30 * 86_400);
    assert_eq!(flatapp::settle::interval_secs(RecurrenceType::Yearly), 365 * 86_400);
}

#[test]
fn weekly_and_yearly_advance() {
    let mut s = store_with_room_101();
    s.fees[0].recurrence_type = Some(RecurrenceType::Weekly);
    assert_eq!(s.pay_fee(1, 1, JAN_1_2024), Ok(()));
    assert_eq!(s.fees[1].due_date, JAN_1_2024 + 7 * 86_400);

    let mut s = store_with_room_101();
    s.fees[0].recurrence_type = Some(RecurrenceType::Yearly);
    assert_eq!(s.pay_fee(1, 1, JAN_1_2024), Ok(()));
    assert_eq!(s.fees[1].due_date, JAN_1_2024 + 365 * 86_400);
}

#[test]
fn webhook_authorization_requires_exact_key() {
    assert!(flatapp::settle::webhook_authorized("Apikey SECRET-REDACTED", "SECRET-REDACTED"));
    assert!(!flatapp::settle::webhook_authorized("Apikey wrong", "SECRET-REDACTED"));
    assert!(!flatapp::settle::webhook_authorized("Bearer SECRET-REDACTED", "SECRET-REDACTED"));
    assert!(!flatapp::settle::webhook_authorized("Apikey", "SECRET-REDACTED"));
    assert!(!flatapp::settle::webhook_authorized("", ""));
    assert!(flatapp::settle::webhook_authorized("Apikey ", ""));
}

#[test]
fn webhook_request_requires_api_key() {
    let mut s = store_with_room_101();
    let p = payload("FLATAPP1", 5000, "2024-05-05 00:00:00");
    let r = s.webhook_request("Apikey wrong", "right", &p, 0);
    assert_eq!(r, Err(ApiError::Unauthorized));
    assert!(!s.assignments[0].is_paid);
    let r = s.webhook_request("Apikey right", "right", &p, 0);
    assert_eq!(r, Ok(()));
    assert!(s.assignments[0].is_paid);
}
