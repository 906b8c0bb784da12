use flatapp::ApiError;
use flatapp::api::{AddFeeInfo, SendNotificationInfo};
use flatapp::model::{Assignment, Fee, RecurrenceType, Room, User, UserRole, UserStatus};
use flatapp::store::Store;

const JAN_1_2024: i64 = 1_704_067_200;

fn tenant(id: i32, username: &str) -> User {
    User {
        id,
        name: format!("user {}", id),
        username: username.to_string(),
        email: format!("{}@example.com", username),
        phone: format!("000{}", id),
        salt: vec![7u8; 16],
        password: vec![0u8; 32],
        role: UserRole::Tenant,
        status: UserStatus::Active,
        refresh_token_version: 1,
    }
}

/// A manager (id 1) and two tenants (ids 2 and 3) renting rooms 101 and 102.
fn store_with_two_rooms() -> Store {
    let mut s = Store::new();
    let mut manager = tenant(1, "manager");
    manager.role = UserRole::Manager;
    s.users = vec![manager, tenant(2, "alice"), tenant(3, "bob")];
    s.next_user_id = 4;
    s.rooms = vec![
        Room { room_number: 101, tenant_id: 2 },
        Room { room_number: 102, tenant_id: 3 },
    ];
    s
}

fn fee_info(name: &str, amount: i64, rt: Option<RecurrenceType>) -> AddFeeInfo {
    AddFeeInfo {
        name: name.to_string(),
        amount,
        is_required: true,
        due_date: JAN_1_2024,
        recurrence_type: rt,
    }
}

#[test]
fn add_fee_seeds_recurrence() {
    let mut s = store_with_two_rooms();
    let id = s.add_fee(&fee_info("water", 100, Some(RecurrenceType::Monthly)), JAN_1_2024 - 5);
    assert_eq!(id, 1);
    assert_eq!(s.fees.len(), 1);
    assert!(s.fees[0].is_recurring);
    assert_eq!(s.recurrences.len(), 1);
    assert_eq!(s.recurrences[0].fee_id, 1);
    assert_eq!(s.recurrences[0].previous_fee_id, 1);
    let plain = s.add_fee(&fee_info("repair", 70, None), JAN_1_2024 - 5);
    assert_eq!(plain, 2);
    assert_eq!(s.recurrences.len(), 1);
    assert!(!s.fees[1].is_recurring);
}

#[test]
fn assign_fee_to_rooms_with_notifications() {
    let mut s = store_with_two_rooms();
    let fee = s.add_fee(&fee_info("water", 100, None), 0);
    let r = s.assign_fee(1, fee, &vec![101, 102]);
    assert_eq!(r, Ok(()));
    assert_eq!(s.assignments.len(), 2);
    assert_eq!(s.assignments[0].room_number, 101);
    assert_eq!(s.assignments[1].room_number, 102);
    assert!(s.assignments.iter().all(|a| a.fee_id == fee && !a.is_paid));
    // each newly assigned room's tenant was notified
    assert_eq!(s.notifications.len(), 2);
    assert_eq!(s.notifications[0].to_user, 2);
    assert_eq!(s.notifications[1].to_user, 3);
    assert_eq!(s.notifications[0].from_user, 1);
    assert_eq!(s.notifications[0].title, "Thông báo về phí water");
    assert!(s.notifications[0].message.contains("100 VND"));
    assert!(s.notifications[0].message.contains("Phòng 101"));
    // the due date is rendered as a calendar day
    assert!(s.notifications[0].message.contains("01/01/2024"));
}

#[test]
fn assign_fee_twice_keeps_one_row_per_room() {
    // assigning the same fee to the same room twice must not create a
    // second assignment row
    let mut s = store_with_two_rooms();
    let fee = s.add_fee(&fee_info("water", 100, None), 0);
    assert_eq!(s.assign_fee(1, fee, &vec![101]), Ok(()));
    assert_eq!(s.assignments.len(), 1);
    assert_eq!(s.assign_fee(1, fee, &vec![101]), Ok(()));
    assert_eq!(s.assignments.len(), 1);
    assert_eq!(s.notifications.len(), 1);
}

#[test]
fn assign_fee_strict_about_rooms() {
    let mut s = store_with_two_rooms();
    let fee = s.add_fee(&fee_info("water", 100, None), 0);
    // a missing room rejects the whole request
    assert_eq!(s.assign_fee(1, fee, &vec![101, 999]), Err(ApiError::NotFound));
    assert!(s.assignments.is_empty());
    // a repeated room too
    assert_eq!(s.assign_fee(1, fee, &vec![101, 101]), Err(ApiError::NotFound));
    assert!(s.assignments.is_empty());
    // unknown fee or manager
    assert_eq!(s.assign_fee(1, 99, &vec![101]), Err(ApiError::NotFound));
    assert_eq!(s.assign_fee(42, fee, &vec![101]), Err(ApiError::NotFound));
}

#[test]
fn edit_fee_reconciles_recurrence() {
    let mut s = store_with_two_rooms();
    let id = s.add_fee(&fee_info("water", 100, None), 0);
    // becoming recurring seeds the chain
    let mut info = fee_info("water", 120, Some(RecurrenceType::Weekly));
    assert_eq!(s.edit_fee_info(id, &info), Ok(()));
    assert_eq!(s.fees[0].amount, 120);
    assert_eq!(s.recurrences.len(), 1);
    assert_eq!(s.recurrences[0].fee_id, id);
    // moving the due date moves the row
    info.due_date = JAN_1_2024 + 86_400;
    assert_eq!(s.edit_fee_info(id, &info), Ok(()));
    assert_eq!(s.recurrences[0].due_date, JAN_1_2024 + 86_400);
    // stopping recurrence deletes every row naming the fee
    info.recurrence_type = None;
    assert_eq!(s.edit_fee_info(id, &info), Ok(()));
    assert!(s.recurrences.is_empty());
    assert!(!s.fees[0].is_recurring);
    assert_eq!(s.edit_fee_info(77, &info), Err(ApiError::NotFound));
}

#[test]
fn remove_fee_cascades() {
    let mut s = store_with_two_rooms();
    let keep = s.add_fee(&fee_info("keep", 10, None), 0);
    let gone = s.add_fee(&fee_info("gone", 20, Some(RecurrenceType::Monthly)), 0);
    assert_eq!(s.assign_fee(1, keep, &vec![101]), Ok(()));
    assert_eq!(s.assign_fee(1, gone, &vec![101, 102]), Ok(()));
    // settle one assignment of the doomed fee so a transaction exists
    assert_eq!(s.pay_fee(2, gone, JAN_1_2024), Ok(()));
    assert_eq!(s.transactions.len(), 1);
    let fees_before = s.fees.len();
    assert_eq!(s.remove_fee(gone), Ok(()));
    assert_eq!(s.fees.len(), fees_before - 1);
    assert!(s.fees.iter().all(|f| f.id != gone));
    assert!(s.assignments.iter().all(|a| a.fee_id != gone));
    assert!(s.recurrences.iter().all(|r| r.fee_id != gone && r.previous_fee_id != gone));
    // the settled assignment's transaction fell with it
    assert!(s.transactions.is_empty());
    // the other fee's assignment survived
    assert!(s.assignments.iter().any(|a| a.fee_id == keep));
    assert_eq!(s.remove_fee(gone), Err(ApiError::NotFound));
}

#[test]
fn fee_listings() {
    let mut s = store_with_two_rooms();
    let a = s.add_fee(&fee_info("water", 100, None), 0);
    let b = s.add_fee(&fee_info("power", 150, None), 0);
    let list = s.get_fees();
    assert_eq!(list.len(), 2);
    assert_eq!(list[0].id, a);
    assert_eq!(list[0].name, "water");
    assert_eq!(list[1].id, b);
    assert_eq!(list[1].amount, 150);

    assert_eq!(s.assign_fee(1, a, &vec![101]), Ok(()));
    let one = s.get_one_fee(a).unwrap();
    assert_eq!(one.id, a);
    assert_eq!(one.fee_assignments.len(), 1);
    assert_eq!(one.fee_assignments[0].room_number, 101);
    assert_eq!(one.fee_assignments[0].fee_amount, Some(100));
    assert_eq!(s.get_one_fee(9).unwrap_err(), ApiError::NotFound);
}

#[test]
fn household_info_reports_paid_amounts() {
    let mut s = store_with_two_rooms();
    let fee = s.add_fee(&fee_info("water", 100, None), 0);
    assert_eq!(s.assign_fee(1, fee, &vec![101]), Ok(()));
    let h = s.get_household_info(2).unwrap();
    assert_eq!(h.room_number, 101);
    assert_eq!(h.tenant_id, 2);
    assert_eq!(h.fees.len(), 1);
    // unpaid rows report the fee's own amount
    assert_eq!(h.fees[0].fee_amount, Some(100));
    assert!(!h.fees[0].is_paid);
    assert_eq!(s.pay_fee(2, fee, JAN_1_2024), Ok(()));
    let h = s.get_household_info(2).unwrap();
    // paid rows report the transaction's recorded amount
    assert!(h.fees[0].is_paid);
    assert_eq!(h.fees[0].fee_amount, Some(100));
    assert_eq!(h.fees[0].payment_date, Some(JAN_1_2024));
    // a manager without a room has no household
    assert_eq!(s.get_household_info(1).unwrap_err(), ApiError::NotFound);
    assert_eq!(s.get_household_info(9).unwrap_err(), ApiError::NotFound);
}

#[test]
fn rooms_listings() {
    let s = store_with_two_rooms();
    assert_eq!(s.get_rooms(), vec![101, 102]);
    let detailed = s.get_rooms_detailed();
    assert_eq!(detailed.len(), 2);
    assert_eq!(detailed[0].room_number, 101);
    assert_eq!(detailed[0].tenant_id, 2);
    assert_eq!(detailed[1].tenant_name, "user 3");
}

#[test]
fn notifications_broadcast_and_targeted() {
    let mut s = store_with_two_rooms();
    let all = SendNotificationInfo {
        title: "hello".to_string(),
        message: "to everyone".to_string(),
        to_user: None,
        send_all: true,
    };
    assert_eq!(s.send_notification(1, &all), Ok(()));
    assert_eq!(s.notifications.len(), 3);
    let one = SendNotificationInfo {
        title: "psst".to_string(),
        message: "just you".to_string(),
        to_user: Some("alice".to_string()),
        send_all: false,
    };
    assert_eq!(s.send_notification(1, &one), Ok(()));
    assert_eq!(s.notifications.len(), 4);
    assert_eq!(s.notifications[3].to_user, 2);
    // by email and by phone too
    let by_email = SendNotificationInfo {
        to_user: Some("bob@example.com".to_string()),
        ..one.clone()
    };
    assert_eq!(s.send_notification(1, &by_email), Ok(()));
    assert_eq!(s.notifications[4].to_user, 3);
    let missing = SendNotificationInfo {
        to_user: Some("nobody".to_string()),
        ..one.clone()
    };
    assert_eq!(s.send_notification(1, &missing), Err(ApiError::NotFound));
    let none = SendNotificationInfo { to_user: None, ..one.clone() };
    assert_eq!(s.send_notification(1, &none), Err(ApiError::NotFound));

    // the recipient sees rows with names resolved
    let inbox = s.get_notifications(2);
    assert_eq!(inbox.len(), 2);
    assert_eq!(inbox[0].title, "hello");
    assert_eq!(inbox[0].from_name, "user 1");
    assert_eq!(inbox[0].to_name, "user 2");
    assert_eq!(inbox[1].title, "psst");
}

#[test]
fn family_members_per_account() {
    let mut s = store_with_two_rooms();
    assert_eq!(s.add_family_member(2, "kid", 19_000), Ok(()));
    assert_eq!(s.add_family_member(2, "grandma", -3_000), Ok(()));
    assert_eq!(s.add_family_member(3, "kid", 19_500), Ok(()));
    let fam = s.get_family_members(2);
    assert_eq!(fam.len(), 2);
    assert_eq!(fam[0].name, "kid");
    assert_eq!(fam[0].birthday, 19_000);
    assert_eq!(fam[1].name, "grandma");
    assert_eq!(s.get_family_members(9).len(), 0);
}
