use vstd::prelude::*;

use crate::ApiError;
use crate::api::{AccessTokenClaims, ActivateUserParams, BasicUserInfo, DetailedRoomInfo,
    NotificationInfo, SendNotificationInfo, UpdateUserInfo};
use crate::auth::clone_vec_u8;
use crate::model::{
    FamilyMember, FamilyMemberModel, NotificationModel, StoreModel, User, UserModel, UserRole,
    UserStatus, has_user, user_ix, wf, wf_accounts, wf_fees, wf_payments,
};
use crate::settle::clone_string;
use crate::store::Store;

verus! {

/// Mathematical image of one reported account row.
#[verifier::ext_equal]
pub ghost struct BasicUserInfoModel {
    pub id: i32,
    pub name: Seq<char>,
    pub username: Seq<char>,
    pub email: Seq<char>,
    pub phone: Seq<char>,
    pub role: UserRole,
}

impl View for BasicUserInfo {
    type V = BasicUserInfoModel;

    open spec fn view(&self) -> BasicUserInfoModel {
        BasicUserInfoModel {
            id: self.id,
            name: self.name@,
            username: self.username@,
            email: self.email@,
            phone: self.phone@,
            role: self.role,
        }
    }
}

impl DeepView for BasicUserInfo {
    type V = BasicUserInfoModel;

    open spec fn deep_view(&self) -> BasicUserInfoModel {
        self.view()
    }
}

/// The public face of an account row.
pub open spec fn basic_of(u: UserModel) -> BasicUserInfoModel {
    BasicUserInfoModel {
        id: u.id,
        name: u.name,
        username: u.username,
        email: u.email,
        phone: u.phone,
        role: u.role,
    }
}

/// Mathematical image of one reported notification row.
#[verifier::ext_equal]
pub ghost struct NotificationInfoModel {
    pub id: i32,
    pub title: Seq<char>,
    pub message: Seq<char>,
    pub from_name: Seq<char>,
    pub to_name: Seq<char>,
}

impl View for NotificationInfo {
    type V = NotificationInfoModel;

    open spec fn view(&self) -> NotificationInfoModel {
        NotificationInfoModel {
            id: self.id,
            title: self.title@,
            message: self.message@,
            from_name: self.from_name@,
            to_name: self.to_name@,
        }
    }
}

impl DeepView for NotificationInfo {
    type V = NotificationInfoModel;

    open spec fn deep_view(&self) -> NotificationInfoModel {
        self.view()
    }
}

/// The notifications addressed to `uid` among the first `k` rows, with the
/// sender's and recipient's names resolved; a row whose sender or recipient
/// no longer exists is dropped, as the join drops it.
pub open spec fn notes_for(m: StoreModel, uid: i32, k: int) -> Seq<NotificationInfoModel>
    decreases k,
{
    if k <= 0 {
        Seq::empty()
    } else {
        let pre = notes_for(m, uid, k - 1);
        let note = m.notifications[k - 1];
        if note.to_user == uid && has_user(m, note.from_user as int) && has_user(m, uid as int) {
            pre.push(
                NotificationInfoModel {
                    id: note.id,
                    title: note.title,
                    message: note.message,
                    from_name: m.users[user_ix(m, note.from_user as int)].name,
                    to_name: m.users[user_ix(m, uid as int)].name,
                },
            )
        } else {
            pre
        }
    }
}

/// The store after notifying the first `k` users of the table, as the
/// broadcast branch of notification sending does.
pub open spec fn notify_all_spec(
    m: StoreModel,
    manager_id: i32,
    title: Seq<char>,
    message: Seq<char>,
    k: int,
) -> StoreModel
    decreases k,
{
    if k <= 0 {
        m
    } else {
        let prev = notify_all_spec(m, manager_id, title, message, k - 1);
        StoreModel {
            notifications: prev.notifications.push(
                NotificationModel {
                    id: prev.next_notification_id as i32,
                    title: title,
                    message: message,
                    from_user: manager_id,
                    to_user: m.users[k - 1].id,
                },
            ),
            next_notification_id: prev.next_notification_id + 1,
            ..prev
        }
    }
}

/// The first user matched by the recipient designator: username, email or
/// phone equal to the given text, in table order.
pub open spec fn has_recipient(m: StoreModel, to: Seq<char>) -> bool {
    exists|i: int|
        0 <= i < m.users.len() && (m.users[i].username == to || m.users[i].email == to
            || m.users[i].phone == to)
}

/// One notification appended for the given recipient.
pub open spec fn notify_one_spec(
    m: StoreModel,
    manager_id: i32,
    title: Seq<char>,
    message: Seq<char>,
    to_user: i32,
) -> StoreModel {
    StoreModel {
        notifications: m.notifications.push(
            NotificationModel {
                id: m.next_notification_id as i32,
                title: title,
                message: message,
                from_user: manager_id,
                to_user: to_user,
            },
        ),
        next_notification_id: m.next_notification_id + 1,
        ..m
    }
}

/// Appending notification rows preserves well-formedness.
proof fn lemma_notify_all_wf(
    m: StoreModel,
    manager_id: i32,
    title: Seq<char>,
    message: Seq<char>,
    k: int,
)
    requires
        wf(m),
        0 <= k <= m.users.len(),
        m.next_notification_id + k <= i32::MAX,
    ensures
        wf(notify_all_spec(m, manager_id, title, message, k)),
        notify_all_spec(m, manager_id, title, message, k).fees == m.fees,
        notify_all_spec(m, manager_id, title, message, k).recurrences == m.recurrences,
        notify_all_spec(m, manager_id, title, message, k).assignments == m.assignments,
        notify_all_spec(m, manager_id, title, message, k).transactions == m.transactions,
        notify_all_spec(m, manager_id, title, message, k).users == m.users,
        notify_all_spec(m, manager_id, title, message, k).rooms == m.rooms,
        notify_all_spec(m, manager_id, title, message, k).family == m.family,
        notify_all_spec(m, manager_id, title, message, k).next_notification_id
            == m.next_notification_id + k,
        notify_all_spec(m, manager_id, title, message, k).next_fee_id == m.next_fee_id,
        notify_all_spec(m, manager_id, title, message, k).next_recurrence_id
            == m.next_recurrence_id,
        notify_all_spec(m, manager_id, title, message, k).next_assignment_id
            == m.next_assignment_id,
        notify_all_spec(m, manager_id, title, message, k).next_transaction_id
            == m.next_transaction_id,
        notify_all_spec(m, manager_id, title, message, k).next_user_id == m.next_user_id,
        notify_all_spec(m, manager_id, title, message, k).next_family_id == m.next_family_id,
    decreases k,
{
    if k > 0 {
        lemma_notify_all_wf(m, manager_id, title, message, k - 1);
        let prev = notify_all_spec(m, manager_id, title, message, k - 1);
        let cur = notify_all_spec(m, manager_id, title, message, k);
        assert(forall|i: int|
            0 <= i < prev.notifications.len() ==> cur.notifications[i] == prev.notifications[i]);
        assert(wf_fees(cur));
        assert(wf_payments(cur));
        assert(wf_accounts(cur));
    }
}

impl Store {
    /// The public face of one account; `NotFound` when it does not exist.
    pub fn get_user_info(&self, user_id: i32) -> (r: Result<BasicUserInfo, ApiError>)
        requires
            wf(self@),
        ensures
            r is Ok <==> has_user(self@, user_id as int),
            r matches Ok(b) ==> b@ == basic_of(self@.users[user_ix(self@, user_id as int)]),
            r matches Err(e) ==> e == ApiError::NotFound,
    {
        let ui = match self.user_pos(user_id) {
            Some(ui) => ui,
            None => {
                return Err(ApiError::NotFound);
            },
        };
        proof {
            assert(ui as int == user_ix(self@, user_id as int));
        }
        Ok(
            BasicUserInfo {
                id: self.users[ui].id,
                name: clone_string(&self.users[ui].name),
                username: clone_string(&self.users[ui].username),
                email: clone_string(&self.users[ui].email),
                phone: clone_string(&self.users[ui].phone),
                role: self.users[ui].role,
            },
        )
    }

    /// Every account, in increasing id order, for an admin caller;
    /// `Forbidden` for anyone else.
    pub fn get_all_users(&self, claims: &AccessTokenClaims) -> (r: Result<
        Vec<BasicUserInfo>,
        ApiError,
    >)
        requires
            wf(self@),
        ensures
            r is Ok <==> claims.role is Admin,
            r matches Ok(v) ==> v@.len() == self@.users.len() && (forall|i: int|
                0 <= i < self@.users.len() ==> (#[trigger] v@[i])@ == basic_of(self@.users[i])),
            r matches Err(e) ==> e == ApiError::Forbidden,
    {
        if !matches!(claims.role, UserRole::Admin) {
            return Err(ApiError::Forbidden);
        }
        let n = self.users.len();
        let mut out: Vec<BasicUserInfo> = Vec::new();
        let mut i: usize = 0;
        while i < n
            invariant
                i <= n,
                n == self@.users.len(),
                out@.len() == i,
                forall|j: int| 0 <= j < i ==> (#[trigger] out@[j])@ == basic_of(self@.users[j]),
            decreases n - i,
        {
            let b = BasicUserInfo {
                id: self.users[i].id,
                name: clone_string(&self.users[i].name),
                username: clone_string(&self.users[i].username),
                email: clone_string(&self.users[i].email),
                phone: clone_string(&self.users[i].phone),
                role: self.users[i].role,
            };
            out.push(b);
            i += 1;
        }
        Ok(out)
    }

    /// Update an account's contact data. A username already belonging to
    /// another account makes the store's uniqueness constraint reject the
    /// write.
    pub fn update_user_info(&mut self, user_id: i32, info: &UpdateUserInfo) -> (r: Result<
        (),
        ApiError,
    >)
        requires
            wf(old(self)@),
        ensures
            wf(final(self)@),
            !has_user(old(self)@, user_id as int) ==> final(self)@ == old(self)@ && r == Err::<
                (),
                ApiError,
            >(ApiError::NotFound),
            has_user(old(self)@, user_id as int) ==> {
                let ui = user_ix(old(self)@, user_id as int);
                if exists|j: int|
                    0 <= j < old(self)@.users.len() && j != ui && old(self)@.users[j].username
                        == info.username@ {
                    &&& final(self)@ == old(self)@
                    &&& r == Err::<(), ApiError>(ApiError::Internal)
                } else {
                    &&& r == Ok::<(), ApiError>(())
                    &&& final(self)@ == (StoreModel {
                        users: old(self)@.users.update(
                            ui,
                            UserModel {
                                name: info.name@,
                                username: info.username@,
                                email: info.email@,
                                phone: info.phone@,
                                ..old(self)@.users[ui]
                            },
                        ),
                        ..old(self)@
                    })
                }
            },
    {
        let ui = match self.user_pos(user_id) {
            Some(ui) => ui,
            None => {
                return Err(ApiError::NotFound);
            },
        };
        proof {
            assert(ui as int == user_ix(self@, user_id as int));
        }
        // the uniqueness constraint on usernames rejects a clash
        let n = self.users.len();
        let mut j: usize = 0;
        while j < n
            invariant
                j <= n,
                n == self@.users.len(),
                self@ == old(self)@,
                wf(self@),
                ui < n,
                has_user(old(self)@, user_id as int),
                ui as int == user_ix(old(self)@, user_id as int),
                forall|q: int|
                    0 <= q < j && q != ui ==> self@.users[q].username != info.username@,
            decreases n - j,
        {
            if j != ui {
                let clash = {
                    let u = &self.users[j];
                    u.username.eq(&info.username)
                };
                if clash {
                    proof {
                        assert(self@.users[j as int].username == info.username@);
                        assert(j as int != user_ix(old(self)@, user_id as int));
                        assert(exists|q: int|
                            0 <= q < old(self)@.users.len() && q != user_ix(
                                old(self)@,
                                user_id as int,
                            ) && old(self)@.users[q].username == info.username@);
                    }
                    return Err(ApiError::Internal);
                }
            }
            j += 1;
        }
        let updated = User {
            id: self.users[ui].id,
            name: clone_string(&info.name),
            username: clone_string(&info.username),
            email: clone_string(&info.email),
            phone: clone_string(&info.phone),
            salt: clone_vec_u8(&self.users[ui].salt),
            password: clone_vec_u8(&self.users[ui].password),
            role: self.users[ui].role,
            status: self.users[ui].status,
            refresh_token_version: self.users[ui].refresh_token_version,
        };
        self.users[ui] = updated;
        proof {
            let m = old(self)@;
            let mui = user_ix(m, user_id as int);
            let mn = StoreModel {
                users: m.users.update(
                    mui,
                    UserModel {
                        name: info.name@,
                        username: info.username@,
                        email: info.email@,
                        phone: info.phone@,
                        ..m.users[mui]
                    },
                ),
                ..m
            };
            assert(self@.users =~= mn.users);
            assert(self@ =~= mn);
            assert(forall|q: int| 0 <= q < m.users.len() ==> self@.users[q].id == m.users[q].id);
            assert forall|x: int| has_user(m, x) implies has_user(self@, x) by {
                let w = choose|q: int| 0 <= q < m.users.len() && m.users[q].id == x;
                assert(self@.users[w].id == x);
            }
            assert(wf_fees(self@));
            assert(wf_payments(self@));
            assert(wf_accounts(self@));
        }
        Ok(())
    }

    /// Admin action: set an account's status from its plain-text name. An
    /// unknown account, an unknown status name, and an admin target are all
    /// rejected as bad requests.
    pub fn activate_user(&mut self, params: &ActivateUserParams) -> (r: Result<(), ApiError>)
        requires
            wf(old(self)@),
        ensures
            wf(final(self)@),
            r is Err ==> final(self)@ == old(self)@ && r == Err::<(), ApiError>(
                ApiError::BadRequest,
            ),
            r is Ok <==> has_user(old(self)@, params.user_id as int) && (params.status@
                == "active"@ || params.status@ == "inactive"@) && !(old(self)@.users[user_ix(
                old(self)@,
                params.user_id as int,
            )].role is Admin),
            r is Ok ==> final(self)@ == (StoreModel {
                users: old(self)@.users.update(
                    user_ix(old(self)@, params.user_id as int),
                    UserModel {
                        status: if params.status@ == "active"@ {
                            UserStatus::Active
                        } else {
                            UserStatus::Inactive
                        },
                        ..old(self)@.users[user_ix(old(self)@, params.user_id as int)]
                    },
                ),
                ..old(self)@
            }),
    {
        let ui = match self.user_pos(params.user_id) {
            Some(ui) => ui,
            None => {
                return Err(ApiError::BadRequest);
            },
        };
        proof {
            assert(ui as int == user_ix(self@, params.user_id as int));
        }
        let active_text = "active".to_owned();
        let inactive_text = "inactive".to_owned();
        let status = if params.status.eq(&active_text) {
            UserStatus::Active
        } else if params.status.eq(&inactive_text) {
            UserStatus::Inactive
        } else {
            return Err(ApiError::BadRequest);
        };
        if matches!(self.users[ui].role, UserRole::Admin) {
            return Err(ApiError::BadRequest);
        }
        let updated = User {
            id: self.users[ui].id,
            name: clone_string(&self.users[ui].name),
            username: clone_string(&self.users[ui].username),
            email: clone_string(&self.users[ui].email),
            phone: clone_string(&self.users[ui].phone),
            salt: clone_vec_u8(&self.users[ui].salt),
            password: clone_vec_u8(&self.users[ui].password),
            role: self.users[ui].role,
            status: status,
            refresh_token_version: self.users[ui].refresh_token_version,
        };
        self.users[ui] = updated;
        proof {
            let m = old(self)@;
            let mui = user_ix(m, params.user_id as int);
            let mn = StoreModel {
                users: m.users.update(
                    mui,
                    UserModel {
                        status: if params.status@ == "active"@ {
                            UserStatus::Active
                        } else {
                            UserStatus::Inactive
                        },
                        ..m.users[mui]
                    },
                ),
                ..m
            };
            assert(self@.users =~= mn.users);
            assert(self@ =~= mn);
            assert(forall|q: int| 0 <= q < m.users.len() ==> self@.users[q].id == m.users[q].id);
            assert forall|x: int| has_user(m, x) implies has_user(self@, x) by {
                let w = choose|q: int| 0 <= q < m.users.len() && m.users[q].id == x;
                assert(self@.users[w].id == x);
            }
            assert(wf_fees(self@));
            assert(wf_payments(self@));
            assert(wf_accounts(self@));
        }
        Ok(())
    }

    /// Every room number, in table order.
    pub fn get_rooms(&self) -> (r: Vec<i32>)
        ensures
            r@.len() == self@.rooms.len(),
            forall|i: int| 0 <= i < r@.len() ==> r@[i] == self@.rooms[i].room_number,
    {
        let n = self.rooms.len();
        let mut out: Vec<i32> = Vec::new();
        let mut i: usize = 0;
        while i < n
            invariant
                i <= n,
                n == self@.rooms.len(),
                out@.len() == i,
                forall|j: int| 0 <= j < i ==> out@[j] == self@.rooms[j].room_number,
            decreases n - i,
        {
            out.push(self.rooms[i].room_number);
            i += 1;
        }
        out
    }

    /// Every room with its tenant's contact data, in table order.
    pub fn get_rooms_detailed(&self) -> (r: Vec<DetailedRoomInfo>)
        requires
            wf(self@),
        ensures
            r@.len() == self@.rooms.len(),
            forall|i: int|
                0 <= i < r@.len() ==> {
                    let row = #[trigger] r@[i];
                    let room = self@.rooms[i];
                    let u = self@.users[user_ix(self@, room.tenant_id as int)];
                    &&& row.room_number == room.room_number
                    &&& row.tenant_id == u.id
                    &&& row.tenant_name@ == u.name
                    &&& row.tenant_email@ == u.email
                    &&& row.tenant_phone@ == u.phone
                },
    {
        let n = self.rooms.len();
        let mut out: Vec<DetailedRoomInfo> = Vec::new();
        let mut i: usize = 0;
        while i < n
            invariant
                i <= n,
                n == self@.rooms.len(),
                wf(self@),
                out@.len() == i,
                forall|j: int|
                    0 <= j < i ==> {
                        let row = #[trigger] out@[j];
                        let room = self@.rooms[j];
                        let u = self@.users[user_ix(self@, room.tenant_id as int)];
                        &&& row.room_number == room.room_number
                        &&& row.tenant_id == u.id
                        &&& row.tenant_name@ == u.name
                        &&& row.tenant_email@ == u.email
                        &&& row.tenant_phone@ == u.phone
                    },
            decreases n - i,
        {
            let room = self.rooms[i];
            proof {
                assert(has_user(self@, room.tenant_id as int));
            }
            let ui = match self.user_pos(room.tenant_id) {
                Some(ui) => ui,
                None => {
                    proof {
                        assert(false);
                    }
                    return out;
                },
            };
            proof {
                assert(ui as int == user_ix(self@, room.tenant_id as int));
            }
            let d = DetailedRoomInfo {
                room_number: room.room_number,
                tenant_id: self.users[ui].id,
                tenant_name: clone_string(&self.users[ui].name),
                tenant_email: clone_string(&self.users[ui].email),
                tenant_phone: clone_string(&self.users[ui].phone),
            };
            out.push(d);
            proof {
                assert(out@[i as int].room_number == self@.rooms[i as int].room_number);
                assert(out@[i as int].tenant_name@ == self@.users[user_ix(
                    self@,
                    self@.rooms[i as int].tenant_id as int,
                )].name);
            }
            i += 1;
        }
        out
    }

    /// Record a family member under the given account.
    pub fn add_family_member(&mut self, account_id: i32, name: &str, birthday: i64) -> (r: Result<
        (),
        ApiError,
    >)
        requires
            wf(old(self)@),
            old(self)@.next_family_id < i32::MAX,
        ensures
            wf(final(self)@),
            r == Ok::<(), ApiError>(()),
            final(self)@ == (StoreModel {
                family: old(self)@.family.push(
                    FamilyMemberModel {
                        id: old(self)@.next_family_id as i32,
                        name: name@,
                        birthday: birthday,
                        account_id: account_id,
                    },
                ),
                next_family_id: old(self)@.next_family_id + 1,
                ..old(self)@
            }),
    {
        let member = FamilyMember {
            id: self.next_family_id,
            name: name.to_owned(),
            birthday: birthday,
            account_id: account_id,
        };
        self.family.push(member);
        self.next_family_id = self.next_family_id + 1;
        proof {
            let m = old(self)@;
            let mn = StoreModel {
                family: m.family.push(
                    FamilyMemberModel {
                        id: m.next_family_id as i32,
                        name: name@,
                        birthday: birthday,
                        account_id: account_id,
                    },
                ),
                next_family_id: m.next_family_id + 1,
                ..m
            };
            assert(self@.family =~= mn.family);
            assert(self@ =~= mn);
            assert(forall|i: int| 0 <= i < m.family.len() ==> self@.family[i] == m.family[i]);
            assert(wf_fees(self@));
            assert(wf_payments(self@));
            assert(wf_accounts(self@));
        }
        Ok(())
    }

    /// The family members recorded under the given account, in table order.
    pub fn get_family_members(&self, account_id: i32) -> (r: Vec<FamilyMember>)
        ensures
            r.deep_view() == family_rows(self@, account_id, self@.family.len() as int),
    {
        let n = self.family.len();
        let mut out: Vec<FamilyMember> = Vec::new();
        let mut i: usize = 0;
        while i < n
            invariant
                i <= n,
                n == self@.family.len(),
                out.deep_view() == family_rows(self@, account_id, i as int),
            decreases n - i,
        {
            if self.family[i].account_id == account_id {
                let member = FamilyMember {
                    id: self.family[i].id,
                    name: clone_string(&self.family[i].name),
                    birthday: self.family[i].birthday,
                    account_id: self.family[i].account_id,
                };
                out.push(member);
                proof {
                    assert(out.deep_view() =~= family_rows(self@, account_id, i as int + 1));
                }
            } else {
                proof {
                    assert(out.deep_view() =~= family_rows(self@, account_id, i as int + 1));
                }
            }
            i += 1;
        }
        out
    }

    /// The notifications addressed to the given user, with sender and
    /// recipient names resolved, in table order.
    pub fn get_notifications(&self, user_id: i32) -> (r: Vec<NotificationInfo>)
        requires
            wf(self@),
        ensures
            r.deep_view() == notes_for(self@, user_id, self@.notifications.len() as int),
    {
        let n = self.notifications.len();
        let mut out: Vec<NotificationInfo> = Vec::new();
        let mut i: usize = 0;
        while i < n
            invariant
                i <= n,
                n == self@.notifications.len(),
                wf(self@),
                out.deep_view() == notes_for(self@, user_id, i as int),
            decreases n - i,
        {
            let keep = self.notifications[i].to_user == user_id;
            if keep {
                let fp = self.user_pos(self.notifications[i].from_user);
                let tp = self.user_pos(user_id);
                match (fp, tp) {
                    (Some(fu), Some(tu)) => {
                        proof {
                            assert(fu as int == user_ix(
                                self@,
                                self@.notifications[i as int].from_user as int,
                            ));
                            assert(tu as int == user_ix(self@, user_id as int));
                        }
                        let row = NotificationInfo {
                            id: self.notifications[i].id,
                            title: clone_string(&self.notifications[i].title),
                            message: clone_string(&self.notifications[i].message),
                            from_name: clone_string(&self.users[fu].name),
                            to_name: clone_string(&self.users[tu].name),
                        };
                        out.push(row);
                        proof {
                            assert(out.deep_view() =~= notes_for(self@, user_id, i as int + 1));
                        }
                    },
                    _ => {
                        proof {
                            assert(out.deep_view() =~= notes_for(self@, user_id, i as int + 1));
                        }
                    },
                }
            } else {
                proof {
                    assert(out.deep_view() =~= notes_for(self@, user_id, i as int + 1));
                }
            }
            i += 1;
        }
        out
    }

    /// Manager action: send a notification to every account, or to the one
    /// account whose username, email or phone equals the designator; an
    /// unmatched designator (or none) is `NotFound`.
    pub fn send_notification(&mut self, manager_id: i32, info: &SendNotificationInfo) -> (r:
        Result<(), ApiError>)
        requires
            wf(old(self)@),
            old(self)@.next_notification_id + old(self)@.users.len() + 1 <= i32::MAX,
        ensures
            wf(final(self)@),
            info.send_all ==> final(self)@ == notify_all_spec(
                old(self)@,
                manager_id,
                info.title@,
                info.message@,
                old(self)@.users.len() as int,
            ) && r == Ok::<(), ApiError>(()),
            !info.send_all && info.to_user is None ==> final(self)@ == old(self)@ && r == Err::<
                (),
                ApiError,
            >(ApiError::NotFound),
            !info.send_all && info.to_user is Some && !has_recipient(
                old(self)@,
                info.to_user->0@,
            ) ==> final(self)@ == old(self)@ && r == Err::<(), ApiError>(ApiError::NotFound),
            !info.send_all && info.to_user is Some && has_recipient(
                old(self)@,
                info.to_user->0@,
            ) ==> {
                let w = recipient_first(old(self)@, info.to_user->0@);
                &&& r == Ok::<(), ApiError>(())
                &&& final(self)@ == notify_one_spec(
                    old(self)@,
                    manager_id,
                    info.title@,
                    info.message@,
                    old(self)@.users[w].id,
                )
            },
    {
        if info.send_all {
            let n = self.users.len();
            let mut i: usize = 0;
            while i < n
                invariant
                    i <= n,
                    n == old(self)@.users.len(),
                    wf(self@),
                    wf(old(self)@),
                    old(self)@.next_notification_id + n + 1 <= i32::MAX,
                    self@ == notify_all_spec(
                        old(self)@,
                        manager_id,
                        info.title@,
                        info.message@,
                        i as int,
                    ),
                decreases n - i,
            {
                proof {
                    lemma_notify_all_wf(
                        old(self)@,
                        manager_id,
                        info.title@,
                        info.message@,
                        i as int,
                    );
                    lemma_notify_all_wf(
                        old(self)@,
                        manager_id,
                        info.title@,
                        info.message@,
                        i as int + 1,
                    );
                }
                let to_user = self.users[i].id;
                let note = crate::model::Notification {
                    id: self.next_notification_id,
                    title: clone_string(&info.title),
                    message: clone_string(&info.message),
                    from_user: manager_id,
                    to_user: to_user,
                };
                self.notifications.push(note);
                self.next_notification_id = self.next_notification_id + 1;
                proof {
                    assert(self@.notifications =~= notify_all_spec(
                        old(self)@,
                        manager_id,
                        info.title@,
                        info.message@,
                        i as int + 1,
                    ).notifications);
                    assert(self@ =~= notify_all_spec(
                        old(self)@,
                        manager_id,
                        info.title@,
                        info.message@,
                        i as int + 1,
                    ));
                }
                i += 1;
            }
            proof {
                lemma_notify_all_wf(
                    old(self)@,
                    manager_id,
                    info.title@,
                    info.message@,
                    n as int,
                );
            }
            return Ok(());
        }
        let target = match &info.to_user {
            Some(t) => t,
            None => {
                return Err(ApiError::NotFound);
            },
        };
        let n = self.users.len();
        let mut i: usize = 0;
        while i < n
            invariant
                i <= n,
                n == self@.users.len(),
                self@ == old(self)@,
                wf(self@),
                !info.send_all,
                old(self)@.next_notification_id + 1 <= i32::MAX,
                info.to_user is Some && info.to_user->0@ == target@,
                recipient_first(old(self)@, target@) == recipient_from(
                    old(self)@,
                    target@,
                    i as int,
                ),
                forall|j: int|
                    0 <= j < i ==> !(self@.users[j].username == target@ || self@.users[j].email
                        == target@ || self@.users[j].phone == target@),
            decreases n - i,
        {
            let matched = {
                let u = &self.users[i];
                u.username.eq(target) || u.email.eq(target) || u.phone.eq(target)
            };
            if matched {
                proof {
                    assert(self@.users[i as int].username == target@ || self@.users[i as int].email
                        == target@ || self@.users[i as int].phone == target@);
                    assert(has_recipient(self@, target@));
                    assert(recipient_match(old(self)@, target@, i as int));
                    assert(recipient_from(old(self)@, target@, i as int) == i as int);
                    assert(recipient_first(old(self)@, target@) == i as int);
                }
                let to_user = self.users[i].id;
                let note = crate::model::Notification {
                    id: self.next_notification_id,
                    title: clone_string(&info.title),
                    message: clone_string(&info.message),
                    from_user: manager_id,
                    to_user: to_user,
                };
                self.notifications.push(note);
                self.next_notification_id = self.next_notification_id + 1;
                proof {
                    let m = old(self)@;
                    let w = recipient_first(m, target@);
                    assert(w == i as int);
                    assert(self@.notifications =~= notify_one_spec(
                        m,
                        manager_id,
                        info.title@,
                        info.message@,
                        m.users[w].id,
                    ).notifications);
                    assert(self@ =~= notify_one_spec(
                        m,
                        manager_id,
                        info.title@,
                        info.message@,
                        m.users[w].id,
                    ));
                    assert(forall|q: int|
                        0 <= q < m.notifications.len() ==> self@.notifications[q]
                            == m.notifications[q]);
                    assert(wf_fees(self@));
                    assert(wf_payments(self@));
                    assert(wf_accounts(self@));
                }
                return Ok(());
            }
            proof {
                assert(!recipient_match(old(self)@, target@, i as int));
                assert(recipient_from(old(self)@, target@, i as int) == recipient_from(
                    old(self)@,
                    target@,
                    i as int + 1,
                ));
            }
            i += 1;
        }
        Err(ApiError::NotFound)
    }
}

/// The family members recorded under the given account among the first `k`
/// rows.
pub open spec fn family_rows(m: StoreModel, account_id: i32, k: int) -> Seq<FamilyMemberModel>
    decreases k,
{
    if k <= 0 {
        Seq::empty()
    } else {
        let pre = family_rows(m, account_id, k - 1);
        let f = m.family[k - 1];
        if f.account_id == account_id {
            pre.push(f)
        } else {
            pre
        }
    }
}

/// Whether the account row at `i` is matched by the recipient designator.
pub open spec fn recipient_match(m: StoreModel, to: Seq<char>, i: int) -> bool {
    m.users[i].username == to || m.users[i].email == to || m.users[i].phone == to
}

/// The first account index at or after `i` matched by the designator.
pub open spec fn recipient_from(m: StoreModel, to: Seq<char>, i: int) -> int
    decreases m.users.len() - i,
{
    if i < 0 || i >= m.users.len() {
        -1
    } else if recipient_match(m, to, i) {
        i
    } else {
        recipient_from(m, to, i + 1)
    }
}

/// The first account matched by the designator: the search walks the table
/// in order.
pub open spec fn recipient_first(m: StoreModel, to: Seq<char>) -> int {
    recipient_from(m, to, 0)
}

} // verus!
