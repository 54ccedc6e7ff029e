//! App lifecycle registry: submission, admin review, developer mutation,
//! deactivation, and discovery queries.
//!
//! Every operation receives the authenticated caller identity as its
//! first argument; account identifier 0 is reserved for "no account", so
//! a record exists exactly when its developer field is non-zero.
//! Operations check authorization and validity strictly before any state
//! change: on an error the registry is returned untouched, and an event
//! is appended if and only if the corresponding transition committed.

use vstd::prelude::*;

use crate::roster::{nodup, roster_add, roster_contains, roster_remove};
use crate::validate::{
    is_recognized_category, is_valid_description, is_valid_name, is_valid_screenshots,
    is_valid_url, recognized_category, valid_description, valid_name, valid_screenshots,
    valid_url,
};

verus! {

/// Lifecycle state of an app, one tag per reachable combination of the
/// visibility flags. `Pending` and `Approved` are the two active states;
/// `Unlisted` keeps its approval (the developer withdrew the app after
/// approval), `Retired` does not (an admin rejected it, or the developer
/// withdrew it before approval).
#[derive(Clone, Copy, PartialEq, Eq, Structural, Debug)]
pub enum AppStatus {
    Pending,
    Approved,
    Unlisted,
    Retired,
}

impl AppStatus {
    /// No developer deactivation and no admin rejection has hit the
    /// app; together with approval this makes it publicly visible.
    pub open spec fn spec_active(self) -> bool {
        self == AppStatus::Pending || self == AppStatus::Approved
    }

    /// An admin has approved the app and no admin has since rejected it.
    pub open spec fn spec_approved(self) -> bool {
        self == AppStatus::Approved || self == AppStatus::Unlisted
    }

    /// State after an admin approval: approval is granted, activity kept.
    pub open spec fn after_approval(self) -> AppStatus {
        if self.spec_active() {
            AppStatus::Approved
        } else {
            AppStatus::Unlisted
        }
    }

    /// State after an admin rejection: activity and approval both revoked.
    pub open spec fn after_rejection(self) -> AppStatus {
        AppStatus::Retired
    }

    /// State after a developer deactivation: activity revoked, approval kept.
    pub open spec fn after_deactivation(self) -> AppStatus {
        if self.spec_approved() {
            AppStatus::Unlisted
        } else {
            AppStatus::Retired
        }
    }

    #[verifier::when_used_as_spec(spec_active)]
    pub fn is_active(self) -> (r: bool)
        ensures
            r == self.spec_active(),
    {
        matches!(self, AppStatus::Pending | AppStatus::Approved)
    }

    #[verifier::when_used_as_spec(spec_approved)]
    pub fn is_approved(self) -> (r: bool)
        ensures
            r == self.spec_approved(),
    {
        matches!(self, AppStatus::Approved | AppStatus::Unlisted)
    }

    pub fn approve(self) -> (r: AppStatus)
        ensures
            r == self.after_approval(),
    {
        if self.is_active() {
            AppStatus::Approved
        } else {
            AppStatus::Unlisted
        }
    }

    pub fn reject(self) -> (r: AppStatus)
        ensures
            r == self.after_rejection(),
    {
        AppStatus::Retired
    }

    pub fn deactivate(self) -> (r: AppStatus)
        ensures
            r == self.after_deactivation(),
    {
        if self.is_approved() {
            AppStatus::Unlisted
        } else {
            AppStatus::Retired
        }
    }
}

/// Law: approval survives every lifecycle step except an admin
/// rejection, and a rejection always revokes activity and approval
/// together. Developer deactivation never touches approval.
pub proof fn lemma_approval_irreversible(s: AppStatus)
    ensures
        s.after_approval().spec_approved(),
        s.after_deactivation().spec_approved() == s.spec_approved(),
        !s.after_rejection().spec_approved(),
        !s.after_rejection().spec_active(),
{
}

/// Law: deactivation is idempotent; a second deactivation changes
/// nothing, and the result is inactive with the approval flag kept.
pub proof fn lemma_deactivation_idempotent(s: AppStatus)
    ensures
        s.after_deactivation().after_deactivation() == s.after_deactivation(),
        !s.after_deactivation().spec_active(),
        s.after_deactivation().spec_approved() == s.spec_approved(),
{
}

/// One registered app. The developer and all fields except
/// `description`, `app_url`, `screenshots` and `status` are immutable
/// after creation.
#[derive(Debug, Clone, PartialEq)]
pub struct AppRecord {
    pub id: u64,
    pub developer: u64,
    pub name: String,
    pub description: String,
    pub category: String,
    pub chain_id: u64,
    pub logo_url: String,
    pub repo_url: String,
    pub app_url: String,
    pub screenshots: Vec<String>,
    pub built_with_platform: bool,
    pub created_at: u64,
    pub status: AppStatus,
}

/// Every stored record satisfies the field validation rules and names a
/// real developer account.
pub open spec fn record_valid(a: AppRecord) -> bool {
    &&& a.developer != 0
    &&& valid_name(a.name@)
    &&& valid_description(a.description@)
    &&& recognized_category(a.category@)
    &&& valid_url(a.logo_url@)
    &&& valid_url(a.repo_url@)
    &&& valid_url(a.app_url@)
    &&& valid_screenshots(a.screenshots@)
}

/// `a` with only its status replaced.
pub open spec fn with_status(a: AppRecord, status: AppStatus) -> AppRecord {
    AppRecord {
        id: a.id,
        developer: a.developer,
        name: a.name,
        description: a.description,
        category: a.category,
        chain_id: a.chain_id,
        logo_url: a.logo_url,
        repo_url: a.repo_url,
        app_url: a.app_url,
        screenshots: a.screenshots,
        built_with_platform: a.built_with_platform,
        created_at: a.created_at,
        status,
    }
}

/// `a` with only its developer-mutable fields replaced.
pub open spec fn with_update(
    a: AppRecord,
    description: String,
    app_url: String,
    screenshots: Vec<String>,
) -> AppRecord {
    AppRecord {
        id: a.id,
        developer: a.developer,
        name: a.name,
        description,
        category: a.category,
        chain_id: a.chain_id,
        logo_url: a.logo_url,
        repo_url: a.repo_url,
        app_url,
        screenshots,
        built_with_platform: a.built_with_platform,
        created_at: a.created_at,
        status: a.status,
    }
}

/// An app is visible to the public discovery queries: still active and
/// already approved.
pub open spec fn listed(a: AppRecord) -> bool {
    a.status.spec_active() && a.status.spec_approved()
}

/// An app awaits an admin decision: still active, not yet approved.
pub open spec fn awaiting_review(a: AppRecord) -> bool {
    a.status.spec_active() && !a.status.spec_approved()
}

/// Filter for the public listing of all apps.
pub open spec fn listed_pred() -> spec_fn(AppRecord) -> bool {
    |a: AppRecord| listed(a)
}

/// Filter for the public listing of one category.
pub open spec fn category_pred(category: Seq<char>) -> spec_fn(AppRecord) -> bool {
    |a: AppRecord| listed(a) && a.category@ == category
}

/// Filter for the public listing of one chain.
pub open spec fn chain_pred(chain_id: u64) -> spec_fn(AppRecord) -> bool {
    |a: AppRecord| listed(a) && a.chain_id == chain_id
}

/// Filter for a developer's own listing: every app they ever
/// registered, whatever its state.
pub open spec fn developer_pred(developer: u64) -> spec_fn(AppRecord) -> bool {
    |a: AppRecord| a.developer == developer
}

/// Filter for the pending listing.
pub open spec fn awaiting_pred() -> spec_fn(AppRecord) -> bool {
    |a: AppRecord| awaiting_review(a)
}

/// The identifiers of the records satisfying `p`, in storage order.
pub open spec fn ids_where(s: Seq<AppRecord>, p: spec_fn(AppRecord) -> bool) -> Seq<u64>
    decreases s.len(),
{
    if s.len() == 0 {
        Seq::<u64>::empty()
    } else {
        ids_where(s.drop_last(), p) + (if p(s.last()) {
            seq![s.last().id]
        } else {
            Seq::<u64>::empty()
        })
    }
}

/// Unfolds `ids_where` by one slot, for the scan loops.
proof fn lemma_ids_where_step(s: Seq<AppRecord>, p: spec_fn(AppRecord) -> bool, i: int)
    requires
        0 <= i < s.len(),
    ensures
        ids_where(s.take(i + 1), p) == ids_where(s.take(i), p) + (if p(s[i]) {
            seq![s[i].id]
        } else {
            Seq::<u64>::empty()
        }),
{
    let t = s.take(i + 1);
    assert(t.drop_last() =~= s.take(i));
    assert(t.last() == s[i]);
}

/// An identifier appears in `ids_where(s, p)` exactly when some record
/// of `s` carries it and satisfies `p`.
pub proof fn lemma_ids_where_membership(s: Seq<AppRecord>, p: spec_fn(AppRecord) -> bool, id: u64)
    ensures
        ids_where(s, p).contains(id) <==> exists|i: int|
            0 <= i < s.len() && p(#[trigger] s[i]) && s[i].id == id,
    decreases s.len(),
{
    if s.len() > 0 {
        lemma_ids_where_membership(s.drop_last(), p, id);
        let pre = ids_where(s.drop_last(), p);
        let tail: Seq<u64> = if p(s.last()) {
            seq![s.last().id]
        } else {
            Seq::<u64>::empty()
        };
        let whole = ids_where(s, p);
        assert(whole == pre + tail);
        if whole.contains(id) {
            let k = choose|k: int| 0 <= k < whole.len() && whole[k] == id;
            if k < pre.len() {
                assert(pre[k] == id);
                assert(pre.contains(id));
                let j = choose|j: int|
                    0 <= j < s.drop_last().len() && p(s.drop_last()[j]) && s.drop_last()[j].id
                        == id;
                assert(s[j] == s.drop_last()[j]);
            } else {
                assert(tail[k - pre.len()] == id);
                assert(p(s.last()) && s.last().id == id);
                assert(s[s.len() - 1] == s.last());
            }
        }
        if exists|i: int| 0 <= i < s.len() && p(#[trigger] s[i]) && s[i].id == id {
            let i = choose|i: int| 0 <= i < s.len() && p(#[trigger] s[i]) && s[i].id == id;
            if i < s.len() - 1 {
                assert(s.drop_last()[i] == s[i]);
                assert(pre.contains(id));
                let k = choose|k: int| 0 <= k < pre.len() && pre[k] == id;
                assert(whole[k] == id);
            } else {
                assert(s.last() == s[i]);
                assert(whole[pre.len() as int] == id);
            }
            assert(whole.contains(id));
        }
    }
}

/// When record `i` carries identifier `i + 1`, as the registry
/// invariant guarantees, every listing is strictly increasing and stays
/// within the identifier range.
pub proof fn lemma_ids_where_sorted(s: Seq<AppRecord>, p: spec_fn(AppRecord) -> bool)
    requires
        forall|i: int| 0 <= i < s.len() ==> (#[trigger] s[i]).id == i + 1,
    ensures
        forall|k: int|
            0 <= k < ids_where(s, p).len() ==> 1 <= #[trigger] ids_where(s, p)[k] <= s.len(),
        forall|k1: int, k2: int|
            0 <= k1 < k2 < ids_where(s, p).len() ==> ids_where(s, p)[k1] < ids_where(s, p)[k2],
    decreases s.len(),
{
    if s.len() > 0 {
        assert forall|i: int| 0 <= i < s.drop_last().len() implies (#[trigger] s.drop_last()[i]).id
            == i + 1 by {
            assert(s.drop_last()[i] == s[i]);
        }
        lemma_ids_where_sorted(s.drop_last(), p);
        let pre = ids_where(s.drop_last(), p);
        let whole = ids_where(s, p);
        assert(s.last().id == s.len());
        assert forall|k: int| 0 <= k < whole.len() implies 1 <= #[trigger] whole[k] <= s.len() by {
            if k < pre.len() {
                assert(whole[k] == pre[k]);
                assert(1 <= pre[k] <= s.drop_last().len());
            } else {
                assert(whole[k] == s.last().id);
            }
        }
        assert forall|k1: int, k2: int| 0 <= k1 < k2 < whole.len() implies whole[k1]
            < whole[k2] by {
            if k2 < pre.len() {
                assert(whole[k1] == pre[k1] && whole[k2] == pre[k2]);
            } else {
                assert(whole[k2] == s.last().id);
                assert(whole[k1] == pre[k1]);
                assert(pre[k1] <= s.drop_last().len());
            }
        }
    }
}

/// Why a registry operation was refused.
#[derive(Clone, Copy, PartialEq, Eq, Structural, Debug)]
pub enum RegistryError {
    Unauthorized,
    InvalidInput,
    InvalidCategory,
    AppNotFound,
    AppAlreadyApproved,
    AppNotApproved,
    IndexOutOfBounds,
}

/// Immutable record of a committed registry transition. An event is
/// appended if and only if the operation succeeded.
#[derive(Debug, Clone, PartialEq)]
pub enum RegistryEvent {
    AppRegistered { app_id: u64, developer: u64, name: String },
    AppApproved { app_id: u64, approver: u64 },
    AppRejected { app_id: u64, approver: u64, reason: String },
    AppUpdated { app_id: u64 },
    AppDeactivated { app_id: u64 },
    AppFeatured { app_id: u64 },
    AppUnfeatured { app_id: u64 },
    AdminAdded { admin: u64 },
    AdminRemoved { admin: u64 },
}

/// The app lifecycle registry. Identifiers are assigned sequentially
/// from 1, so the record for app `id` sits at index `id - 1` and the
/// identifier space never has gaps or reuse.
pub struct AppRegistry {
    pub apps: Vec<AppRecord>,
    pub admins: Vec<u64>,
    pub pending: Vec<u64>,
    pub featured: Vec<u64>,
    pub events: Vec<RegistryEvent>,
}

impl AppRegistry {
    /// An app with this identifier has been registered.
    pub open spec fn has_app(self, app_id: u64) -> bool {
        1 <= app_id <= self.apps@.len()
    }

    /// The record stored for `app_id`.
    pub open spec fn app(self, app_id: u64) -> AppRecord
        recommends
            self.has_app(app_id),
    {
        self.apps@[app_id - 1]
    }

    /// `account` is currently a member of the admin set.
    pub open spec fn spec_is_admin(self, account: u64) -> bool {
        self.admins@.contains(account)
    }

    /// Structural invariant: records sit at their identifier's slot and
    /// pass validation; the three identifier sets hold no duplicates; the
    /// pending queue names only existing, unapproved apps and covers
    /// every app still in the `Pending` state; the featured list names
    /// only existing apps.
    pub open spec fn wf(self) -> bool {
        &&& self.apps@.len() < u64::MAX
        &&& forall|i: int| 0 <= i < self.apps@.len() ==> (#[trigger] self.apps@[i]).id == i + 1
        &&& forall|i: int| 0 <= i < self.apps@.len() ==> record_valid(#[trigger] self.apps@[i])
        &&& nodup(self.admins@)
        &&& nodup(self.pending@)
        &&& nodup(self.featured@)
        &&& forall|k: int|
            0 <= k < self.pending@.len() ==> self.has_app(#[trigger] self.pending@[k])
        &&& forall|k: int|
            0 <= k < self.pending@.len() ==> !self.app(
                #[trigger] self.pending@[k],
            ).status.spec_approved()
        &&& forall|i: int|
            0 <= i < self.apps@.len() && (#[trigger] self.apps@[i]).status == AppStatus::Pending
                ==> self.pending@.contains(self.apps@[i].id)
        &&& forall|k: int|
            0 <= k < self.featured@.len() ==> self.has_app(#[trigger] self.featured@[k])
    }

    /// Creates the registry with the deploying account as sole admin.
    pub fn init(deployer: u64) -> (r: AppRegistry)
        requires
            deployer != 0,
        ensures
            r.wf(),
            r.apps@.len() == 0,
            r.admins@ == seq![deployer],
            r.pending@.len() == 0,
            r.featured@.len() == 0,
            r.events@ == seq![(RegistryEvent::AdminAdded { admin: deployer })],
            r.spec_is_admin(deployer),
    {
        let mut admins: Vec<u64> = Vec::new();
        admins.push(deployer);
        let mut events: Vec<RegistryEvent> = Vec::new();
        events.push(RegistryEvent::AdminAdded { admin: deployer });
        let r = AppRegistry {
            apps: Vec::new(),
            admins,
            pending: Vec::new(),
            featured: Vec::new(),
            events,
        };
        proof {
            assert(r.admins@ =~= seq![deployer]);
            assert(r.events@ =~= seq![(RegistryEvent::AdminAdded { admin: deployer })]);
            assert(r.admins@[0] == deployer);
        }
        r
    }

    /// `account` currently has admin rights.
    pub fn is_admin(&self, account: u64) -> (r: bool)
        ensures
            r == self.spec_is_admin(account),
    {
        roster_contains(&self.admins, account)
    }

    /// Registers a new app. Open to any caller; fails only on
    /// validation, never on authorization. The new app gets the next
    /// sequential identifier, starts unapproved but active, and joins
    /// the pending-review queue.
    pub fn register_app(
        &mut self,
        caller: u64,
        name: String,
        description: String,
        category: String,
        chain_id: u64,
        logo_url: String,
        repo_url: String,
        app_url: String,
        screenshots: Vec<String>,
        built_with_platform: bool,
        now: u64,
    ) -> (r: Result<u64, RegistryError>)
        requires
            old(self).wf(),
            caller != 0,
            old(self).apps@.len() + 1 < u64::MAX,
        ensures
            final(self).wf(),
            (r is Ok) <==> (valid_name(name@) && valid_description(description@) && valid_url(
                logo_url@,
            ) && valid_url(repo_url@) && valid_url(app_url@) && valid_screenshots(screenshots@)
                && recognized_category(category@)),
            r == Err::<u64, RegistryError>(RegistryError::InvalidInput) <==> !(valid_name(name@)
                && valid_description(description@) && valid_url(logo_url@) && valid_url(repo_url@)
                && valid_url(app_url@) && valid_screenshots(screenshots@)),
            r == Err::<u64, RegistryError>(RegistryError::InvalidCategory) <==> (valid_name(name@)
                && valid_description(description@) && valid_url(logo_url@) && valid_url(repo_url@)
                && valid_url(app_url@) && valid_screenshots(screenshots@)
                && !recognized_category(category@)),
            r is Err ==> *final(self) == *old(self),
            r matches Ok(id) ==> {
                &&& id == old(self).apps@.len() + 1
                &&& final(self).apps@ == old(self).apps@.push(
                    (AppRecord {
                        id,
                        developer: caller,
                        name,
                        description,
                        category,
                        chain_id,
                        logo_url,
                        repo_url,
                        app_url,
                        screenshots,
                        built_with_platform,
                        created_at: now,
                        status: AppStatus::Pending,
                    }),
                )
                &&& final(self).pending@ == old(self).pending@.push(id)
                &&& final(self).featured@ == old(self).featured@
                &&& final(self).admins@ == old(self).admins@
                &&& final(self).events@ == old(self).events@.push(
                    (RegistryEvent::AppRegistered { app_id: id, developer: caller, name }),
                )
            },
    {
        if !(is_valid_name(&name) && is_valid_description(&description) && is_valid_url(&logo_url)
            && is_valid_url(&repo_url) && is_valid_url(&app_url) && is_valid_screenshots(
            &screenshots,
        )) {
            return Err(RegistryError::InvalidInput);
        }
        if !is_recognized_category(&category) {
            return Err(RegistryError::InvalidCategory);
        }
        let id: u64 = (self.apps.len() as u64) + 1;
        let event_name = name.clone();
        let record = AppRecord {
            id,
            developer: caller,
            name,
            description,
            category,
            chain_id,
            logo_url,
            repo_url,
            app_url,
            screenshots,
            built_with_platform,
            created_at: now,
            status: AppStatus::Pending,
        };
        self.apps.push(record);
        self.pending.push(id);
        self.events.push(RegistryEvent::AppRegistered { app_id: id, developer: caller, name: event_name });
        proof {
            let prev = *old(self);
            let cur = *self;
            assert(cur.apps@.len() == prev.apps@.len() + 1);
            assert forall|k: int| 0 <= k < cur.pending@.len() implies cur.has_app(
                #[trigger] cur.pending@[k],
            ) && !cur.app(cur.pending@[k]).status.spec_approved() by {
                if k < prev.pending@.len() {
                    assert(cur.pending@[k] == prev.pending@[k]);
                    assert(prev.has_app(prev.pending@[k]));
                    assert(cur.app(cur.pending@[k]) == prev.app(prev.pending@[k]));
                } else {
                    assert(cur.pending@[k] == id);
                    assert(cur.app(id).status == AppStatus::Pending);
                }
            }
            assert(nodup(cur.pending@)) by {
                assert forall|p: int, q: int| 0 <= p < q < cur.pending@.len() implies cur.pending@[p]
                    != cur.pending@[q] by {
                    if q == cur.pending@.len() - 1 {
                        assert(prev.has_app(prev.pending@[p]));
                        assert(cur.pending@[q] == id);
                    } else {
                        assert(cur.pending@[p] == prev.pending@[p]);
                        assert(cur.pending@[q] == prev.pending@[q]);
                    }
                }
            }
            assert forall|i: int|
                0 <= i < cur.apps@.len() && (#[trigger] cur.apps@[i]).status == AppStatus::Pending
                implies cur.pending@.contains(cur.apps@[i].id) by {
                if i < prev.apps@.len() {
                    assert(cur.apps@[i] == prev.apps@[i]);
                    assert(prev.pending@.contains(prev.apps@[i].id));
                    let k = choose|k: int|
                        0 <= k < prev.pending@.len() && prev.pending@[k] == prev.apps@[i].id;
                    assert(cur.pending@[k] == prev.apps@[i].id);
                } else {
                    assert(cur.pending@[cur.pending@.len() - 1] == id);
                }
            }
            assert forall|k: int| 0 <= k < cur.featured@.len() implies cur.has_app(
                #[trigger] cur.featured@[k],
            ) by {
                assert(prev.has_app(prev.featured@[k]));
            }
        }
        Ok(id)
    }

    /// Approves an app: admin only. The app gains approval, keeps its
    /// activity, and leaves the pending queue.
    pub fn approve_app(&mut self, caller: u64, app_id: u64) -> (r: Result<(), RegistryError>)
        requires
            old(self).wf(),
        ensures
            final(self).wf(),
            (r is Ok) <==> (old(self).spec_is_admin(caller) && old(self).has_app(app_id) && !old(
                self,
            ).app(app_id).status.spec_approved()),
            r == Err::<(), RegistryError>(RegistryError::Unauthorized) <==> !old(
                self,
            ).spec_is_admin(caller),
            r == Err::<(), RegistryError>(RegistryError::AppNotFound) <==> (old(self).spec_is_admin(
                caller,
            ) && !old(self).has_app(app_id)),
            r == Err::<(), RegistryError>(RegistryError::AppAlreadyApproved) <==> (old(
                self,
            ).spec_is_admin(caller) && old(self).has_app(app_id) && old(self).app(
                app_id,
            ).status.spec_approved()),
            r is Err ==> *final(self) == *old(self),
            r is Ok ==> {
                &&& final(self).apps@ == old(self).apps@.update(
                    app_id - 1,
                    with_status(old(self).app(app_id), old(self).app(app_id).status.after_approval()),
                )
                &&& final(self).app(app_id).status.spec_approved()
                &&& final(self).app(app_id).status.spec_active() == old(self).app(
                    app_id,
                ).status.spec_active()
                &&& !final(self).pending@.contains(app_id)
                &&& forall|y: u64|
                    y != app_id ==> final(self).pending@.contains(y) == old(
                        self,
                    ).pending@.contains(y)
                &&& final(self).pending@.len() == (if old(self).pending@.contains(app_id) {
                    old(self).pending@.len() - 1
                } else {
                    old(self).pending@.len() as int
                })
                &&& final(self).admins@ == old(self).admins@
                &&& final(self).featured@ == old(self).featured@
                &&& final(self).events@ == old(self).events@.push(
                    (RegistryEvent::AppApproved { app_id, approver: caller }),
                )
            },
    {
        if !self.is_admin(caller) {
            return Err(RegistryError::Unauthorized);
        }
        if !(app_id >= 1 && app_id <= self.apps.len() as u64) {
            return Err(RegistryError::AppNotFound);
        }
        let idx: usize = (app_id - 1) as usize;
        if self.apps[idx].status.is_approved() {
            return Err(RegistryError::AppAlreadyApproved);
        }
        let new_status = self.apps[idx].status.approve();
        self.set_status(idx, new_status);
        roster_remove(&mut self.pending, app_id);
        self.events.push(RegistryEvent::AppApproved { app_id, approver: caller });
        proof {
            self.lemma_wf_after_status_change(*old(self), app_id);
        }
        Ok(())
    }

    /// Rejects an app: admin only. Activity and approval are both
    /// revoked and the app leaves the pending queue. Rejecting an
    /// already-rejected app succeeds again and re-emits the event.
    pub fn reject_app(&mut self, caller: u64, app_id: u64, reason: String) -> (r: Result<
        (),
        RegistryError,
    >)
        requires
            old(self).wf(),
        ensures
            final(self).wf(),
            (r is Ok) <==> (old(self).spec_is_admin(caller) && old(self).has_app(app_id)),
            r == Err::<(), RegistryError>(RegistryError::Unauthorized) <==> !old(
                self,
            ).spec_is_admin(caller),
            r == Err::<(), RegistryError>(RegistryError::AppNotFound) <==> (old(self).spec_is_admin(
                caller,
            ) && !old(self).has_app(app_id)),
            r is Err ==> *final(self) == *old(self),
            r is Ok ==> {
                &&& final(self).apps@ == old(self).apps@.update(
                    app_id - 1,
                    with_status(old(self).app(app_id), AppStatus::Retired),
                )
                &&& !final(self).app(app_id).status.spec_approved()
                &&& !final(self).app(app_id).status.spec_active()
                &&& !final(self).pending@.contains(app_id)
                &&& forall|y: u64|
                    y != app_id ==> final(self).pending@.contains(y) == old(
                        self,
                    ).pending@.contains(y)
                &&& final(self).pending@.len() == (if old(self).pending@.contains(app_id) {
                    old(self).pending@.len() - 1
                } else {
                    old(self).pending@.len() as int
                })
                &&& final(self).admins@ == old(self).admins@
                &&& final(self).featured@ == old(self).featured@
                &&& final(self).events@ == old(self).events@.push(
                    (RegistryEvent::AppRejected { app_id, approver: caller, reason }),
                )
            },
    {
        if !self.is_admin(caller) {
            return Err(RegistryError::Unauthorized);
        }
        if !(app_id >= 1 && app_id <= self.apps.len() as u64) {
            return Err(RegistryError::AppNotFound);
        }
        let idx: usize = (app_id - 1) as usize;
        let new_status = self.apps[idx].status.reject();
        self.set_status(idx, new_status);
        roster_remove(&mut self.pending, app_id);
        self.events.push(RegistryEvent::AppRejected { app_id, approver: caller, reason });
        proof {
            self.lemma_wf_after_status_change(*old(self), app_id);
        }
        Ok(())
    }

    /// Replaces the status of the record at `idx`, leaving every other
    /// field and every other record untouched.
    fn set_status(&mut self, idx: usize, status: AppStatus)
        requires
            idx < old(self).apps@.len(),
        ensures
            final(self).apps@ == old(self).apps@.update(
                idx as int,
                with_status(old(self).apps@[idx as int], status),
            ),
            final(self).admins@ == old(self).admins@,
            final(self).pending@ == old(self).pending@,
            final(self).featured@ == old(self).featured@,
            final(self).events@ == old(self).events@,
    {
        let a = &mut self.apps[idx];
        a.status = status;
        proof {
            assert(self.apps@ =~= old(self).apps@.update(
                idx as int,
                with_status(old(self).apps@[idx as int], status),
            ));
        }
    }

    /// After a status-only change of one app that removed that app from
    /// the pending queue (or left the queue untouched for a non-`Pending`
    /// result), the invariant still holds.
    proof fn lemma_wf_after_status_change(self, prev: AppRegistry, app_id: u64)
        requires
            prev.wf(),
            prev.has_app(app_id),
            self.apps@.len() == prev.apps@.len(),
            forall|i: int|
                0 <= i < prev.apps@.len() && i != app_id - 1 ==> self.apps@[i] == prev.apps@[i],
            self.apps@[app_id - 1] == with_status(
                prev.apps@[app_id - 1],
                self.apps@[app_id - 1].status,
            ),
            self.apps@[app_id - 1].status != AppStatus::Pending,
            nodup(self.pending@),
            !self.pending@.contains(app_id),
            forall|y: u64| y != app_id ==> self.pending@.contains(y) == prev.pending@.contains(y),
            self.admins@ == prev.admins@,
            self.featured@ == prev.featured@,
        ensures
            self.wf(),
    {
        assert forall|i: int| 0 <= i < self.apps@.len() implies (#[trigger] self.apps@[i]).id == i
            + 1 && record_valid(self.apps@[i]) by {
            if i != app_id - 1 {
                assert(self.apps@[i] == prev.apps@[i]);
            } else {
                assert(prev.apps@[i].id == i + 1);
                assert(record_valid(prev.apps@[i]));
            }
        }
        assert forall|k: int| 0 <= k < self.pending@.len() implies self.has_app(
            #[trigger] self.pending@[k],
        ) && !self.app(self.pending@[k]).status.spec_approved() by {
            let y = self.pending@[k];
            assert(self.pending@.contains(y));
            assert(y != app_id);
            assert(prev.pending@.contains(y));
            let j = choose|j: int| 0 <= j < prev.pending@.len() && prev.pending@[j] == y;
            assert(prev.has_app(y));
            assert(self.apps@[y - 1] == prev.apps@[y - 1]);
            assert(!prev.app(y).status.spec_approved());
        }
        assert forall|i: int|
            0 <= i < self.apps@.len() && (#[trigger] self.apps@[i]).status == AppStatus::Pending
            implies self.pending@.contains(self.apps@[i].id) by {
            assert(i != app_id - 1);
            assert(self.apps@[i] == prev.apps@[i]);
            assert(prev.pending@.contains(prev.apps@[i].id));
            assert(prev.apps@[i].id == i + 1);
            assert(self.apps@[i].id != app_id);
        }
        assert forall|k: int| 0 <= k < self.featured@.len() implies self.has_app(
            #[trigger] self.featured@[k],
        ) by {
            assert(prev.has_app(prev.featured@[k]));
        }
    }

    /// Grants admin rights: admin only. Adding an existing admin is a
    /// no-op that still emits the event.
    pub fn add_admin(&mut self, caller: u64, new_admin: u64) -> (r: Result<(), RegistryError>)
        requires
            old(self).wf(),
        ensures
            final(self).wf(),
            (r is Ok) <==> old(self).spec_is_admin(caller),
            r == Err::<(), RegistryError>(RegistryError::Unauthorized) <==> !old(
                self,
            ).spec_is_admin(caller),
            r is Err ==> *final(self) == *old(self),
            r is Ok ==> {
                &&& final(self).spec_is_admin(new_admin)
                &&& forall|y: u64|
                    y != new_admin ==> final(self).spec_is_admin(y) == old(self).spec_is_admin(y)
                &&& final(self).apps@ == old(self).apps@
                &&& final(self).pending@ == old(self).pending@
                &&& final(self).featured@ == old(self).featured@
                &&& final(self).events@ == old(self).events@.push(
                    (RegistryEvent::AdminAdded { admin: new_admin }),
                )
            },
    {
        if !self.is_admin(caller) {
            return Err(RegistryError::Unauthorized);
        }
        roster_add(&mut self.admins, new_admin);
        self.events.push(RegistryEvent::AdminAdded { admin: new_admin });
        Ok(())
    }

    /// After a record change that keeps the status, the identifier and
    /// the developer, and keeps the field validation rules, the
    /// invariant still holds.
    proof fn lemma_wf_after_record_change(self, prev: AppRegistry, app_id: u64)
        requires
            prev.wf(),
            prev.has_app(app_id),
            self.apps@.len() == prev.apps@.len(),
            forall|i: int|
                0 <= i < prev.apps@.len() && i != app_id - 1 ==> self.apps@[i] == prev.apps@[i],
            self.apps@[app_id - 1].id == prev.apps@[app_id - 1].id,
            self.apps@[app_id - 1].status == prev.apps@[app_id - 1].status,
            record_valid(self.apps@[app_id - 1]),
            self.pending@ == prev.pending@,
            self.admins@ == prev.admins@,
            self.featured@ == prev.featured@,
        ensures
            self.wf(),
    {
        assert forall|i: int| 0 <= i < self.apps@.len() implies (#[trigger] self.apps@[i]).id == i
            + 1 && record_valid(self.apps@[i]) by {
            if i != app_id - 1 {
                assert(self.apps@[i] == prev.apps@[i]);
            } else {
                assert(prev.apps@[i].id == i + 1);
            }
        }
        assert forall|k: int| 0 <= k < self.pending@.len() implies self.has_app(
            #[trigger] self.pending@[k],
        ) && !self.app(self.pending@[k]).status.spec_approved() by {
            let y = self.pending@[k];
            assert(prev.has_app(y));
            assert(!prev.app(y).status.spec_approved());
            assert(self.apps@[y - 1].status == prev.apps@[y - 1].status);
        }
        assert forall|i: int|
            0 <= i < self.apps@.len() && (#[trigger] self.apps@[i]).status == AppStatus::Pending
            implies self.pending@.contains(self.apps@[i].id) by {
            assert(prev.apps@[i].status == self.apps@[i].status);
            assert(prev.apps@[i].id == self.apps@[i].id);
            assert(prev.pending@.contains(prev.apps@[i].id));
        }
        assert forall|k: int| 0 <= k < self.featured@.len() implies self.has_app(
            #[trigger] self.featured@[k],
        ) by {
            assert(prev.has_app(prev.featured@[k]));
        }
    }

    /// Updates the developer-mutable fields of an app: developer only;
    /// admins are explicitly forbidden from updating another party's
    /// app. Only description, app URL and screenshot list change; the
    /// old screenshot list is overwritten, not merged.
    pub fn update_app(
        &mut self,
        caller: u64,
        app_id: u64,
        description: String,
        app_url: String,
        screenshots: Vec<String>,
    ) -> (r: Result<(), RegistryError>)
        requires
            old(self).wf(),
        ensures
            final(self).wf(),
            r == Err::<(), RegistryError>(RegistryError::AppNotFound) <==> !old(self).has_app(
                app_id,
            ),
            r == Err::<(), RegistryError>(RegistryError::Unauthorized) <==> (old(self).has_app(
                app_id,
            ) && caller != old(self).app(app_id).developer),
            r == Err::<(), RegistryError>(RegistryError::InvalidInput) <==> (old(self).has_app(
                app_id,
            ) && caller == old(self).app(app_id).developer && !(valid_description(description@)
                && valid_url(app_url@) && valid_screenshots(screenshots@))),
            (r is Ok) <==> (old(self).has_app(app_id) && caller == old(self).app(
                app_id,
            ).developer && valid_description(description@) && valid_url(app_url@)
                && valid_screenshots(screenshots@)),
            r is Err ==> *final(self) == *old(self),
            r is Ok ==> {
                &&& final(self).apps@ == old(self).apps@.update(
                    app_id - 1,
                    with_update(old(self).app(app_id), description, app_url, screenshots),
                )
                &&& final(self).pending@ == old(self).pending@
                &&& final(self).admins@ == old(self).admins@
                &&& final(self).featured@ == old(self).featured@
                &&& final(self).events@ == old(self).events@.push(
                    (RegistryEvent::AppUpdated { app_id }),
                )
            },
    {
        if !(app_id >= 1 && app_id <= self.apps.len() as u64) {
            return Err(RegistryError::AppNotFound);
        }
        let idx: usize = (app_id - 1) as usize;
        if caller != self.apps[idx].developer {
            return Err(RegistryError::Unauthorized);
        }
        if !(is_valid_description(&description) && is_valid_url(&app_url) && is_valid_screenshots(
            &screenshots,
        )) {
            return Err(RegistryError::InvalidInput);
        }
        let a = &mut self.apps[idx];
        a.description = description;
        a.app_url = app_url;
        a.screenshots = screenshots;
        self.events.push(RegistryEvent::AppUpdated { app_id });
        proof {
            assert(self.apps@ =~= old(self).apps@.update(
                app_id - 1,
                with_update(old(self).app(app_id), description, app_url, screenshots),
            ));
            self.lemma_wf_after_record_change(*old(self), app_id);
        }
        Ok(())
    }

    /// Deactivates an app: developer only, same ownership rule as
    /// `update_app`. Only activity is revoked; approval and all data are
    /// kept. Idempotent: deactivating an inactive app succeeds again and
    /// re-emits the event.
    pub fn deactivate_app(&mut self, caller: u64, app_id: u64) -> (r: Result<(), RegistryError>)
        requires
            old(self).wf(),
        ensures
            final(self).wf(),
            r == Err::<(), RegistryError>(RegistryError::AppNotFound) <==> !old(self).has_app(
                app_id,
            ),
            r == Err::<(), RegistryError>(RegistryError::Unauthorized) <==> (old(self).has_app(
                app_id,
            ) && caller != old(self).app(app_id).developer),
            (r is Ok) <==> (old(self).has_app(app_id) && caller == old(self).app(
                app_id,
            ).developer),
            r is Err ==> *final(self) == *old(self),
            r is Ok ==> {
                &&& final(self).apps@ == old(self).apps@.update(
                    app_id - 1,
                    with_status(
                        old(self).app(app_id),
                        old(self).app(app_id).status.after_deactivation(),
                    ),
                )
                &&& !final(self).app(app_id).status.spec_active()
                &&& final(self).app(app_id).status.spec_approved() == old(self).app(
                    app_id,
                ).status.spec_approved()
                &&& final(self).pending@ == old(self).pending@
                &&& final(self).admins@ == old(self).admins@
                &&& final(self).featured@ == old(self).featured@
                &&& final(self).events@ == old(self).events@.push(
                    (RegistryEvent::AppDeactivated { app_id }),
                )
            },
    {
        if !(app_id >= 1 && app_id <= self.apps.len() as u64) {
            return Err(RegistryError::AppNotFound);
        }
        let idx: usize = (app_id - 1) as usize;
        if caller != self.apps[idx].developer {
            return Err(RegistryError::Unauthorized);
        }
        let new_status = self.apps[idx].status.deactivate();
        self.set_status(idx, new_status);
        self.events.push(RegistryEvent::AppDeactivated { app_id });
        proof {
            let prev = *old(self);
            let cur = *self;
            assert forall|i: int| 0 <= i < cur.apps@.len() implies (#[trigger] cur.apps@[i]).id == i
                + 1 && record_valid(cur.apps@[i]) by {
                if i != app_id - 1 {
                    assert(cur.apps@[i] == prev.apps@[i]);
                } else {
                    assert(prev.apps@[i].id == i + 1);
                    assert(record_valid(prev.apps@[i]));
                }
            }
            assert forall|k: int| 0 <= k < cur.pending@.len() implies cur.has_app(
                #[trigger] cur.pending@[k],
            ) && !cur.app(cur.pending@[k]).status.spec_approved() by {
                let y = cur.pending@[k];
                assert(prev.has_app(y));
                assert(!prev.app(y).status.spec_approved());
                if y == app_id {
                    assert(cur.app(y).status == prev.app(y).status.after_deactivation());
                } else {
                    assert(cur.apps@[y - 1] == prev.apps@[y - 1]);
                }
            }
            assert forall|i: int|
                0 <= i < cur.apps@.len() && (#[trigger] cur.apps@[i]).status == AppStatus::Pending
                implies cur.pending@.contains(cur.apps@[i].id) by {
                assert(i != app_id - 1);
                assert(cur.apps@[i] == prev.apps@[i]);
                assert(prev.pending@.contains(prev.apps@[i].id));
            }
            assert forall|k: int| 0 <= k < cur.featured@.len() implies cur.has_app(
                #[trigger] cur.featured@[k],
            ) by {
                assert(prev.has_app(prev.featured@[k]));
            }
        }
        Ok(())
    }

    /// Adds an approved app to the featured list: admin only. Featuring
    /// an already-featured app is a no-op that still emits the event.
    pub fn feature_app(&mut self, caller: u64, app_id: u64) -> (r: Result<(), RegistryError>)
        requires
            old(self).wf(),
        ensures
            final(self).wf(),
            r == Err::<(), RegistryError>(RegistryError::Unauthorized) <==> !old(
                self,
            ).spec_is_admin(caller),
            r == Err::<(), RegistryError>(RegistryError::AppNotFound) <==> (old(self).spec_is_admin(
                caller,
            ) && !old(self).has_app(app_id)),
            r == Err::<(), RegistryError>(RegistryError::AppNotApproved) <==> (old(
                self,
            ).spec_is_admin(caller) && old(self).has_app(app_id) && !old(self).app(
                app_id,
            ).status.spec_approved()),
            (r is Ok) <==> (old(self).spec_is_admin(caller) && old(self).has_app(app_id) && old(
                self,
            ).app(app_id).status.spec_approved()),
            r is Err ==> *final(self) == *old(self),
            r is Ok ==> {
                &&& final(self).featured@ == (if old(self).featured@.contains(app_id) {
                    old(self).featured@
                } else {
                    old(self).featured@.push(app_id)
                })
                &&& final(self).featured@.contains(app_id)
                &&& final(self).apps@ == old(self).apps@
                &&& final(self).pending@ == old(self).pending@
                &&& final(self).admins@ == old(self).admins@
                &&& final(self).events@ == old(self).events@.push(
                    (RegistryEvent::AppFeatured { app_id }),
                )
            },
    {
        if !self.is_admin(caller) {
            return Err(RegistryError::Unauthorized);
        }
        if !(app_id >= 1 && app_id <= self.apps.len() as u64) {
            return Err(RegistryError::AppNotFound);
        }
        let idx: usize = (app_id - 1) as usize;
        if !self.apps[idx].status.is_approved() {
            return Err(RegistryError::AppNotApproved);
        }
        roster_add(&mut self.featured, app_id);
        self.events.push(RegistryEvent::AppFeatured { app_id });
        proof {
            assert forall|k: int| 0 <= k < self.featured@.len() implies self.has_app(
                #[trigger] self.featured@[k],
            ) by {
                if k < old(self).featured@.len() {
                    assert(self.featured@[k] == old(self).featured@[k]);
                    assert(old(self).has_app(old(self).featured@[k]));
                }
            }
        }
        Ok(())
    }

    /// Removes an app from the featured list: admin only. Removing an
    /// app that is not featured is a no-op that still emits the event.
    pub fn unfeature_app(&mut self, caller: u64, app_id: u64) -> (r: Result<(), RegistryError>)
        requires
            old(self).wf(),
        ensures
            final(self).wf(),
            r == Err::<(), RegistryError>(RegistryError::Unauthorized) <==> !old(
                self,
            ).spec_is_admin(caller),
            (r is Ok) <==> old(self).spec_is_admin(caller),
            r is Err ==> *final(self) == *old(self),
            r is Ok ==> {
                &&& !final(self).featured@.contains(app_id)
                &&& forall|y: u64|
                    y != app_id ==> final(self).featured@.contains(y) == old(
                        self,
                    ).featured@.contains(y)
                &&& final(self).apps@ == old(self).apps@
                &&& final(self).pending@ == old(self).pending@
                &&& final(self).admins@ == old(self).admins@
                &&& final(self).events@ == old(self).events@.push(
                    (RegistryEvent::AppUnfeatured { app_id }),
                )
            },
    {
        if !self.is_admin(caller) {
            return Err(RegistryError::Unauthorized);
        }
        roster_remove(&mut self.featured, app_id);
        self.events.push(RegistryEvent::AppUnfeatured { app_id });
        proof {
            assert forall|k: int| 0 <= k < self.featured@.len() implies self.has_app(
                #[trigger] self.featured@[k],
            ) by {
                let y = self.featured@[k];
                assert(self.featured@.contains(y));
                assert(old(self).featured@.contains(y));
                let j = choose|j: int|
                    0 <= j < old(self).featured@.len() && old(self).featured@[j] == y;
                assert(old(self).has_app(y));
            }
        }
        Ok(())
    }

    /// Revokes admin rights: admin only. An admin may remove any member,
    /// itself included; nothing stops the set from becoming empty.
    pub fn remove_admin(&mut self, caller: u64, admin: u64) -> (r: Result<(), RegistryError>)
        requires
            old(self).wf(),
        ensures
            final(self).wf(),
            (r is Ok) <==> old(self).spec_is_admin(caller),
            r == Err::<(), RegistryError>(RegistryError::Unauthorized) <==> !old(
                self,
            ).spec_is_admin(caller),
            r is Err ==> *final(self) == *old(self),
            r is Ok ==> {
                &&& !final(self).spec_is_admin(admin)
                &&& forall|y: u64|
                    y != admin ==> final(self).spec_is_admin(y) == old(self).spec_is_admin(y)
                &&& final(self).apps@ == old(self).apps@
                &&& final(self).pending@ == old(self).pending@
                &&& final(self).featured@ == old(self).featured@
                &&& final(self).events@ == old(self).events@.push(
                    (RegistryEvent::AdminRemoved { admin }),
                )
            },
    {
        if !self.is_admin(caller) {
            return Err(RegistryError::Unauthorized);
        }
        roster_remove(&mut self.admins, admin);
        self.events.push(RegistryEvent::AdminRemoved { admin });
        Ok(())
    }

    /// Connects a finished scan to the membership and ordering facts the
    /// listing contracts state.
    proof fn lemma_listing_posts(self, p: spec_fn(AppRecord) -> bool, out: Seq<u64>)
        requires
            self.wf(),
            out == ids_where(self.apps@, p),
        ensures
            forall|id: u64| #[trigger] out.contains(id) <==> (self.has_app(id) && p(self.app(id))),
            forall|k1: int, k2: int| 0 <= k1 < k2 < out.len() ==> out[k1] < out[k2],
    {
        lemma_ids_where_sorted(self.apps@, p);
        assert forall|id: u64| #[trigger] out.contains(id) <==> (self.has_app(id) && p(
            self.app(id),
        )) by {
            lemma_ids_where_membership(self.apps@, p, id);
            if self.has_app(id) && p(self.app(id)) {
                assert(self.apps@[id - 1].id == id);
                assert(exists|i: int|
                    0 <= i < self.apps@.len() && p(#[trigger] self.apps@[i]) && self.apps@[i].id
                        == id);
            }
            if exists|i: int|
                0 <= i < self.apps@.len() && p(#[trigger] self.apps@[i]) && self.apps@[i].id
                    == id {
                let i = choose|i: int|
                    0 <= i < self.apps@.len() && p(#[trigger] self.apps@[i]) && self.apps@[i].id
                        == id;
                assert(self.apps@[i].id == i + 1);
            }
        }
    }

    /// Lists the identifiers of every publicly visible app, in ascending
    /// identifier order. Inactive or unapproved apps are excluded.
    pub fn get_all_apps(&self) -> (r: Vec<u64>)
        requires
            self.wf(),
        ensures
            r@ == ids_where(self.apps@, listed_pred()),
            forall|id: u64| #[trigger] r@.contains(id) <==> (self.has_app(id) && listed(
                self.app(id),
            )),
            forall|k1: int, k2: int| 0 <= k1 < k2 < r@.len() ==> r@[k1] < r@[k2],
    {
        let mut out: Vec<u64> = Vec::new();
        let mut i: usize = 0;
        while i < self.apps.len()
            invariant
                self.wf(),
                i <= self.apps@.len(),
                out@ == ids_where(self.apps@.take(i as int), listed_pred()),
            decreases self.apps@.len() - i,
        {
            proof {
                lemma_ids_where_step(self.apps@, listed_pred(), i as int);
            }
            let a = &self.apps[i];
            if a.status.is_active() && a.status.is_approved() {
                out.push(a.id);
            }
            proof {
                assert(out@ =~= ids_where(self.apps@.take(i + 1), listed_pred()));
            }
            i += 1;
        }
        proof {
            assert(self.apps@.take(self.apps@.len() as int) =~= self.apps@);
            self.lemma_listing_posts(listed_pred(), out@);
        }
        out
    }

    /// Lists the visible apps of one category, ascending. The category
    /// is compared exactly and case-sensitively.
    pub fn get_apps_by_category(&self, category: &String) -> (r: Vec<u64>)
        requires
            self.wf(),
        ensures
            r@ == ids_where(self.apps@, category_pred(category@)),
            forall|id: u64| #[trigger] r@.contains(id) <==> (self.has_app(id) && listed(
                self.app(id),
            ) && self.app(id).category@ == category@),
            forall|k1: int, k2: int| 0 <= k1 < k2 < r@.len() ==> r@[k1] < r@[k2],
    {
        let mut out: Vec<u64> = Vec::new();
        let mut i: usize = 0;
        while i < self.apps.len()
            invariant
                self.wf(),
                i <= self.apps@.len(),
                out@ == ids_where(self.apps@.take(i as int), category_pred(category@)),
            decreases self.apps@.len() - i,
        {
            proof {
                lemma_ids_where_step(self.apps@, category_pred(category@), i as int);
            }
            let a = &self.apps[i];
            if a.status.is_active() && a.status.is_approved() && a.category.eq(category) {
                out.push(a.id);
            }
            proof {
                assert(out@ =~= ids_where(self.apps@.take(i + 1), category_pred(category@)));
            }
            i += 1;
        }
        proof {
            assert(self.apps@.take(self.apps@.len() as int) =~= self.apps@);
            self.lemma_listing_posts(category_pred(category@), out@);
        }
        out
    }

    /// Lists the visible apps of one chain, ascending.
    pub fn get_apps_by_chain(&self, chain_id: u64) -> (r: Vec<u64>)
        requires
            self.wf(),
        ensures
            r@ == ids_where(self.apps@, chain_pred(chain_id)),
            forall|id: u64| #[trigger] r@.contains(id) <==> (self.has_app(id) && listed(
                self.app(id),
            ) && self.app(id).chain_id == chain_id),
            forall|k1: int, k2: int| 0 <= k1 < k2 < r@.len() ==> r@[k1] < r@[k2],
    {
        let mut out: Vec<u64> = Vec::new();
        let mut i: usize = 0;
        while i < self.apps.len()
            invariant
                self.wf(),
                i <= self.apps@.len(),
                out@ == ids_where(self.apps@.take(i as int), chain_pred(chain_id)),
            decreases self.apps@.len() - i,
        {
            proof {
                lemma_ids_where_step(self.apps@, chain_pred(chain_id), i as int);
            }
            let a = &self.apps[i];
            if a.status.is_active() && a.status.is_approved() && a.chain_id == chain_id {
                out.push(a.id);
            }
            proof {
                assert(out@ =~= ids_where(self.apps@.take(i + 1), chain_pred(chain_id)));
            }
            i += 1;
        }
        proof {
            assert(self.apps@.take(self.apps@.len() as int) =~= self.apps@);
            self.lemma_listing_posts(chain_pred(chain_id), out@);
        }
        out
    }

    /// Lists every app a developer ever registered, ascending, with no
    /// activity or approval filter: deactivated and rejected apps stay
    /// visible to their developer.
    pub fn get_apps_by_developer(&self, developer: u64) -> (r: Vec<u64>)
        requires
            self.wf(),
        ensures
            r@ == ids_where(self.apps@, developer_pred(developer)),
            forall|id: u64| #[trigger] r@.contains(id) <==> (self.has_app(id) && self.app(
                id,
            ).developer == developer),
            forall|k1: int, k2: int| 0 <= k1 < k2 < r@.len() ==> r@[k1] < r@[k2],
    {
        let mut out: Vec<u64> = Vec::new();
        let mut i: usize = 0;
        while i < self.apps.len()
            invariant
                self.wf(),
                i <= self.apps@.len(),
                out@ == ids_where(self.apps@.take(i as int), developer_pred(developer)),
            decreases self.apps@.len() - i,
        {
            proof {
                lemma_ids_where_step(self.apps@, developer_pred(developer), i as int);
            }
            let a = &self.apps[i];
            if a.developer == developer {
                out.push(a.id);
            }
            proof {
                assert(out@ =~= ids_where(self.apps@.take(i + 1), developer_pred(developer)));
            }
            i += 1;
        }
        proof {
            assert(self.apps@.take(self.apps@.len() as int) =~= self.apps@);
            self.lemma_listing_posts(developer_pred(developer), out@);
        }
        out
    }

    /// Lists the apps still awaiting an admin decision: active and not
    /// yet approved, ascending.
    pub fn get_pending_apps(&self) -> (r: Vec<u64>)
        requires
            self.wf(),
        ensures
            r@ == ids_where(self.apps@, awaiting_pred()),
            forall|id: u64| #[trigger] r@.contains(id) <==> (self.has_app(id) && awaiting_review(
                self.app(id),
            )),
            forall|k1: int, k2: int| 0 <= k1 < k2 < r@.len() ==> r@[k1] < r@[k2],
    {
        let mut out: Vec<u64> = Vec::new();
        let mut i: usize = 0;
        while i < self.apps.len()
            invariant
                self.wf(),
                i <= self.apps@.len(),
                out@ == ids_where(self.apps@.take(i as int), awaiting_pred()),
            decreases self.apps@.len() - i,
        {
            proof {
                lemma_ids_where_step(self.apps@, awaiting_pred(), i as int);
            }
            let a = &self.apps[i];
            if a.status.is_active() && !a.status.is_approved() {
                out.push(a.id);
            }
            proof {
                assert(out@ =~= ids_where(self.apps@.take(i + 1), awaiting_pred()));
            }
            i += 1;
        }
        proof {
            assert(self.apps@.take(self.apps@.len() as int) =~= self.apps@);
            self.lemma_listing_posts(awaiting_pred(), out@);
        }
        out
    }

    /// How many apps were ever registered.
    pub fn get_app_count(&self) -> (r: u64)
        ensures
            r == self.apps@.len(),
    {
        self.apps.len() as u64
    }

    /// The full record of one app, whatever its state, so developers and
    /// admins can always audit it. `None` when no such app exists.
    pub fn get_app(&self, app_id: u64) -> (r: Option<&AppRecord>)
        ensures
            (r is Some) <==> self.has_app(app_id),
            r matches Some(a) ==> *a == self.app(app_id),
    {
        if app_id >= 1 && app_id <= self.apps.len() as u64 {
            Some(&self.apps[(app_id - 1) as usize])
        } else {
            None
        }
    }

    /// The developer of an app, or 0 when no such app exists.
    pub fn get_app_developer(&self, app_id: u64) -> (r: u64)
        ensures
            r == (if self.has_app(app_id) {
                self.app(app_id).developer
            } else {
                0u64
            }),
    {
        if app_id >= 1 && app_id <= self.apps.len() as u64 {
            self.apps[(app_id - 1) as usize].developer
        } else {
            0
        }
    }

    /// The name of an app, or the empty string when no such app exists.
    pub fn get_app_name(&self, app_id: u64) -> (r: String)
        ensures
            self.has_app(app_id) ==> r == self.app(app_id).name,
            !self.has_app(app_id) ==> r@ == Seq::<char>::empty(),
    {
        if app_id >= 1 && app_id <= self.apps.len() as u64 {
            self.apps[(app_id - 1) as usize].name.clone()
        } else {
            String::new()
        }
    }

    /// Whether an app has been approved; false when no such app exists.
    pub fn is_app_approved(&self, app_id: u64) -> (r: bool)
        ensures
            r == (self.has_app(app_id) && self.app(app_id).status.spec_approved()),
    {
        if app_id >= 1 && app_id <= self.apps.len() as u64 {
            self.apps[(app_id - 1) as usize].status.is_approved()
        } else {
            false
        }
    }

    /// How many screenshots an app stores; 0 when no such app exists.
    pub fn get_screenshot_count(&self, app_id: u64) -> (r: usize)
        ensures
            r == (if self.has_app(app_id) {
                self.app(app_id).screenshots@.len()
            } else {
                0
            }),
    {
        if app_id >= 1 && app_id <= self.apps.len() as u64 {
            self.apps[(app_id - 1) as usize].screenshots.len()
        } else {
            0
        }
    }

    /// One stored screenshot URL, by position. Fails out-of-bounds
    /// exactly when the index is not below the stored count.
    pub fn get_app_screenshot(&self, app_id: u64, index: usize) -> (r: Result<
        String,
        RegistryError,
    >)
        ensures
            r == Err::<String, RegistryError>(RegistryError::AppNotFound) <==> !self.has_app(
                app_id,
            ),
            (r is Ok) <==> (self.has_app(app_id) && index < self.app(app_id).screenshots@.len()),
            r matches Err(e) ==> (e == RegistryError::AppNotFound || e
                == RegistryError::IndexOutOfBounds),
            r matches Ok(s) ==> s == self.app(app_id).screenshots@[index as int],
    {
        if !(app_id >= 1 && app_id <= self.apps.len() as u64) {
            return Err(RegistryError::AppNotFound);
        }
        let a = &self.apps[(app_id - 1) as usize];
        if index >= a.screenshots.len() {
            return Err(RegistryError::IndexOutOfBounds);
        }
        Ok(a.screenshots[index].clone())
    }

    /// How many apps sit in the pending-review queue.
    pub fn get_pending_count(&self) -> (r: usize)
        ensures
            r == self.pending@.len(),
    {
        self.pending.len()
    }

    /// The queue entry at `index`. The queue's order is unspecified:
    /// removal swaps the last entry into the vacated slot.
    pub fn get_pending_app(&self, index: usize) -> (r: Result<u64, RegistryError>)
        ensures
            (r is Ok) <==> index < self.pending@.len(),
            r matches Ok(id) ==> id == self.pending@[index as int],
            r matches Err(e) ==> e == RegistryError::AppNotFound,
    {
        if index >= self.pending.len() {
            return Err(RegistryError::AppNotFound);
        }
        Ok(self.pending[index])
    }

    /// How many apps are currently featured.
    pub fn get_featured_count(&self) -> (r: usize)
        ensures
            r == self.featured@.len(),
    {
        self.featured.len()
    }

    /// The featured entry at `index`; the list's order is unspecified.
    pub fn get_featured_app(&self, index: usize) -> (r: Result<u64, RegistryError>)
        ensures
            (r is Ok) <==> index < self.featured@.len(),
            r matches Ok(id) ==> id == self.featured@[index as int],
            r matches Err(e) ==> e == RegistryError::AppNotFound,
    {
        if index >= self.featured.len() {
            return Err(RegistryError::AppNotFound);
        }
        Ok(self.featured[index])
    }

    /// The log of committed transitions, oldest first.
    pub fn get_events(&self) -> (r: &Vec<RegistryEvent>)
        ensures
            r@ == self.events@,
    {
        &self.events
    }
}

/// Law: the pending queue never names an approved app — approval and
/// rejection both take an app out of it — and every app still in the
/// `Pending` state sits in the queue.
pub proof fn lemma_pending_queue_unapproved(r: AppRegistry)
    requires
        r.wf(),
    ensures
        forall|k: int|
            0 <= k < r.pending@.len() ==> !r.app(#[trigger] r.pending@[k]).status.spec_approved(),
        forall|i: int|
            0 <= i < r.apps@.len() && (#[trigger] r.apps@[i]).status == AppStatus::Pending
                ==> r.pending@.contains(r.apps@[i].id),
{
}

/// Law: identifiers are dense and strictly increasing, with no gaps and
/// no reuse, whatever mix of registrations, rejections and deactivations
/// produced the registry: exactly the identifiers 1 through the
/// registration count name an app, and the record stored under an
/// identifier carries that identifier.
pub proof fn lemma_app_ids_dense(r: AppRegistry)
    requires
        r.wf(),
    ensures
        forall|id: u64| r.has_app(id) <==> 1 <= id <= r.apps@.len(),
        forall|id: u64| r.has_app(id) ==> #[trigger] r.app(id).id == id,
        forall|i: int, j: int|
            0 <= i < j < r.apps@.len() ==> #[trigger] r.apps@[i].id < #[trigger] r.apps@[j].id,
{
    assert forall|id: u64| r.has_app(id) implies #[trigger] r.app(id).id == id by {
        assert(r.apps@[id - 1].id == id);
    }
}

} // verus!
