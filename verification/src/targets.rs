//! The requests about targets: the public and the agents' listings, and the
//! administrator's reads and writes.

use vstd::prelude::*;

use crate::clock::now;
use crate::entity::{Target, TargetView};
use crate::error::{ApiError, AuthReason, StoreError};
use crate::extractors::{bearer_text, holds_secret, AdminUser, ApiUser, AppState};
use crate::forms::{TargetCreateAdmin, TargetFields};
use crate::models::{public_targets, to_public_targets, TargetPublic};
use crate::mutation::Mutation;
use crate::query::Query;
use crate::store::{Store, StoreView};
use crate::views::{result_view, rows};

verus! {

impl StoreView {
    /// An administrator creating a target at `now`: a name that is taken is
    /// a conflict and changes nothing.
    pub open spec fn admin_create_target(
        self,
        admin_password: Seq<char>,
        bearer: Option<Seq<char>>,
        form: TargetFields,
        now: i64,
    ) -> (Result<TargetView, ApiError>, StoreView) {
        if !holds_secret(bearer, admin_password) {
            (Err(ApiError::Unauthorized(AuthReason::LoginRequired)), self)
        } else {
            match self.create_target(form, now).0 {
                Ok(t) => (Ok(t), self.create_target(form, now).1),
                Err(StoreError::NameTaken) => (Err(ApiError::Conflict), self),
                Err(_) => (Err(ApiError::InternalFailure), self),
            }
        }
    }

    /// An administrator replacing the fields of target `tid`: an unknown id
    /// is not found, and a write that the store refuses, as it does where
    /// another target has the name, is an internal failure; neither changes
    /// anything.
    pub open spec fn admin_edit_target(
        self,
        admin_password: Seq<char>,
        bearer: Option<Seq<char>>,
        tid: i32,
        form: TargetFields,
    ) -> (Result<TargetView, ApiError>, StoreView) {
        if !holds_secret(bearer, admin_password) {
            (Err(ApiError::Unauthorized(AuthReason::LoginRequired)), self)
        } else if !self.has_target(tid) {
            (Err(ApiError::NotFound), self)
        } else {
            match self.edit_target(tid, form).0 {
                Ok(t) => (Ok(t), self.edit_target(tid, form).1),
                Err(_) => (Err(ApiError::InternalFailure), self),
            }
        }
    }

    /// An administrator reading target `tid`.
    pub open spec fn admin_target(
        self,
        admin_password: Seq<char>,
        bearer: Option<Seq<char>>,
        tid: i32,
    ) -> Result<TargetView, ApiError> {
        if !holds_secret(bearer, admin_password) {
            Err(ApiError::Unauthorized(AuthReason::LoginRequired))
        } else {
            match self.target_by_id(tid) {
                Some(t) => Ok(t),
                None => Err(ApiError::NotFound),
            }
        }
    }

    /// An administrator deleting target `tid`: the target goes and all the
    /// pings against it with it.
    pub open spec fn admin_delete_target(
        self,
        admin_password: Seq<char>,
        bearer: Option<Seq<char>>,
        tid: i32,
    ) -> (Result<(), ApiError>, StoreView) {
        if !holds_secret(bearer, admin_password) {
            (Err(ApiError::Unauthorized(AuthReason::LoginRequired)), self)
        } else if !self.has_target(tid) {
            (Err(ApiError::NotFound), self)
        } else {
            (Ok(()), self.drop_target(tid))
        }
    }
}

/// The public view of every target, by ascending id.
pub fn list_targets(db: &Store) -> (out: Vec<TargetPublic>)
    requires
        db.wf(),
    ensures
        rows(out@) == public_targets(db@.targets),
{
    let targets = Query::find_targets(db);
    to_public_targets(&targets)
}

/// Every target in full, by ascending id, for an agent that holds the
/// shared API capability.
pub fn list_targets_client(state: &AppState, db: &Store, bearer: Option<&str>) -> (out: Result<
    Vec<Target>,
    ApiError,
>)
    requires
        db.wf(),
    ensures
        match out {
            Ok(all) => holds_secret(bearer_text(bearer), state.api_token@) && rows(all@)
                == db@.targets,
            Err(e) => !holds_secret(bearer_text(bearer), state.api_token@) && e
                == ApiError::Unauthorized(AuthReason::TokenRequired),
        },
{
    match ApiUser::from_request_parts(bearer, state) {
        Ok(_) => {},
        Err(e) => {
            return Err(e);
        },
    }
    Ok(Query::find_targets(db))
}

/// Creates a target for an administrator at the time `now`; see
/// `StoreView::admin_create_target`.
pub fn create_target_admin_at(
    state: &AppState,
    db: &mut Store,
    bearer: Option<&str>,
    target_create: &TargetCreateAdmin,
    now: i64,
) -> (out: Result<Target, ApiError>)
    requires
        old(db).wf(),
    ensures
        final(db).wf(),
        (result_view(out), final(db)@) == old(db)@.admin_create_target(
            state.admin_password@,
            bearer_text(bearer),
            target_create@,
            now,
        ),
{
    match AdminUser::from_request_parts(bearer, state) {
        Ok(_) => {},
        Err(e) => {
            return Err(e);
        },
    }
    match Mutation::create_target_at(db, target_create, now) {
        Ok(t) => Ok(t),
        Err(StoreError::NameTaken) => Err(ApiError::Conflict),
        Err(_) => Err(ApiError::InternalFailure),
    }
}

/// Creates a target for an administrator now.
pub fn create_target_admin(
    state: &AppState,
    db: &mut Store,
    bearer: Option<&str>,
    target_create: &TargetCreateAdmin,
) -> (out: Result<Target, ApiError>)
    requires
        old(db).wf(),
    ensures
        final(db).wf(),
        exists|now: i64|
            (result_view(out), final(db)@) == #[trigger] old(db)@.admin_create_target(
                state.admin_password@,
                bearer_text(bearer),
                target_create@,
                now,
            ),
{
    let now = now();
    create_target_admin_at(state, db, bearer, target_create, now)
}

/// Replaces the fields of target `tid` for an administrator; see
/// `StoreView::admin_edit_target`.
pub fn edit_target_admin(
    state: &AppState,
    db: &mut Store,
    bearer: Option<&str>,
    tid: i32,
    target_create: &TargetCreateAdmin,
) -> (out: Result<Target, ApiError>)
    requires
        old(db).wf(),
    ensures
        final(db).wf(),
        (result_view(out), final(db)@) == old(db)@.admin_edit_target(
            state.admin_password@,
            bearer_text(bearer),
            tid,
            target_create@,
        ),
{
    match AdminUser::from_request_parts(bearer, state) {
        Ok(_) => {},
        Err(e) => {
            return Err(e);
        },
    }
    if Query::find_target_by_id(db, tid).is_none() {
        return Err(ApiError::NotFound);
    }
    match Mutation::edit_target(db, tid, target_create) {
        Ok(t) => Ok(t),
        Err(_) => Err(ApiError::InternalFailure),
    }
}

/// Every target in full, by ascending id, for an administrator.
pub fn list_targets_admin(state: &AppState, db: &Store, bearer: Option<&str>) -> (out: Result<
    Vec<Target>,
    ApiError,
>)
    requires
        db.wf(),
    ensures
        match out {
            Ok(all) => holds_secret(bearer_text(bearer), state.admin_password@) && rows(all@)
                == db@.targets,
            Err(e) => !holds_secret(bearer_text(bearer), state.admin_password@) && e
                == ApiError::Unauthorized(AuthReason::LoginRequired),
        },
{
    match AdminUser::from_request_parts(bearer, state) {
        Ok(_) => {},
        Err(e) => {
            return Err(e);
        },
    }
    Ok(Query::find_targets(db))
}

/// Target `tid` in full, for an administrator.
pub fn get_target_by_tid_admin(state: &AppState, db: &Store, bearer: Option<&str>, tid: i32) -> (out:
    Result<Target, ApiError>)
    requires
        db.wf(),
    ensures
        result_view(out) == db@.admin_target(state.admin_password@, bearer_text(bearer), tid),
{
    match AdminUser::from_request_parts(bearer, state) {
        Ok(_) => {},
        Err(e) => {
            return Err(e);
        },
    }
    match Query::find_target_by_id(db, tid) {
        Some(target) => Ok(target),
        None => Err(ApiError::NotFound),
    }
}

/// Deletes target `tid`, and every ping against it, for an administrator;
/// see `StoreView::admin_delete_target`.
pub fn delete_target_admin(state: &AppState, db: &mut Store, bearer: Option<&str>, tid: i32) -> (out:
    Result<(), ApiError>)
    requires
        old(db).wf(),
    ensures
        final(db).wf(),
        (out, final(db)@) == old(db)@.admin_delete_target(
            state.admin_password@,
            bearer_text(bearer),
            tid,
        ),
{
    match AdminUser::from_request_parts(bearer, state) {
        Ok(_) => {},
        Err(e) => {
            return Err(e);
        },
    }
    if Query::find_target_by_id(db, tid).is_none() {
        return Err(ApiError::NotFound);
    }
    Mutation::delete_target(db, tid);
    Ok(())
}

} // verus!
