//! The requests about machines: self-registration, the public views, and
//! the administrator's reads and writes.

use vstd::prelude::*;
use vstd::string::StringExecFns;

use crate::clock::now;
use crate::entity::{Machine, MachineView};
use crate::error::{ApiError, AuthReason, StoreError};
use crate::extractors::{bearer_text, holds_secret, AdminUser, ApiUser, AppState};
use crate::forms::{MachineCreate, MachineCreateAdmin, MachineFields};
use crate::models::{
    public_machine, public_machines, public_targets, to_public_machines, to_public_targets,
    without_targets, MachinePublic, MachinePublicView, MachineTargetsPublic,
    MachineTargetsPublicView,
};
use crate::mutation::Mutation;
use crate::query::Query;
use crate::store::{Store, StoreView};
use crate::views::{result_view, rows};

verus! {

/// The key that a self-registered machine carries until an administrator
/// sets one.
pub open spec fn placeholder_key() -> Seq<char> {
    "default_key"@
}

impl StoreView {
    /// Self-registration at `now` of an agent that calls itself `name` and
    /// was seen at the address `ip`: what comes back, and the store
    /// afterwards.
    ///
    /// A machine of that name gets the address and keeps everything else. A
    /// name that is not known yet gets a new machine with the placeholder
    /// key. Either way the answer is the public view, which holds no key.
    pub open spec fn register_machine(
        self,
        api_token: Seq<char>,
        bearer: Option<Seq<char>>,
        ip: Seq<char>,
        name: Seq<char>,
        now: i64,
    ) -> (Result<MachinePublicView, ApiError>, StoreView) {
        if !holds_secret(bearer, api_token) {
            (Err(ApiError::Unauthorized(AuthReason::TokenRequired)), self)
        } else if !MachineCreate::valid_name(name) {
            (Err(ApiError::ValidationFailed), self)
        } else {
            match self.machine_by_name(name) {
                Some(known) => {
                    let seen = MachineView { ip, ..known };
                    (Ok(public_machine(seen)), self.set_machine(seen))
                },
                None => {
                    let form = MachineFields { name, ip, key: placeholder_key() };
                    match self.create_machine(form, now).0 {
                        Ok(m) => (Ok(public_machine(m)), self.create_machine(form, now).1),
                        Err(_) => (Err(ApiError::InternalFailure), self),
                    }
                },
            }
        }
    }

    /// What a request for the public view of machine `mid` gets.
    pub open spec fn machine_with_targets(self, mid: i32) -> Result<
        MachineTargetsPublicView,
        ApiError,
    > {
        match self.machine_by_id(mid) {
            Some(m) => Ok(
                MachineTargetsPublicView {
                    targets: public_targets(self.targets),
                    ..without_targets(public_machine(m))
                },
            ),
            None => Err(ApiError::NotFound),
        }
    }

    /// An administrator creating a machine at `now`: a name of the wrong
    /// length fails validation, a name that is taken is a conflict, and
    /// neither changes anything.
    pub open spec fn admin_create_machine(
        self,
        admin_password: Seq<char>,
        bearer: Option<Seq<char>>,
        form: MachineFields,
        now: i64,
    ) -> (Result<MachineView, ApiError>, StoreView) {
        if !holds_secret(bearer, admin_password) {
            (Err(ApiError::Unauthorized(AuthReason::LoginRequired)), self)
        } else if !MachineCreate::valid_name(form.name) {
            (Err(ApiError::ValidationFailed), self)
        } else {
            match self.create_machine(form, now).0 {
                Ok(m) => (Ok(m), self.create_machine(form, now).1),
                Err(StoreError::NameTaken) => (Err(ApiError::Conflict), self),
                Err(_) => (Err(ApiError::InternalFailure), self),
            }
        }
    }

    /// An administrator replacing the fields of machine `mid`: a name of the
    /// wrong length fails validation, an unknown id is not found, and a
    /// write that the store refuses, as it does where another machine has
    /// the name, is an internal failure; none of them changes anything.
    pub open spec fn admin_edit_machine(
        self,
        admin_password: Seq<char>,
        bearer: Option<Seq<char>>,
        mid: i32,
        form: MachineFields,
    ) -> (Result<MachineView, ApiError>, StoreView) {
        if !holds_secret(bearer, admin_password) {
            (Err(ApiError::Unauthorized(AuthReason::LoginRequired)), self)
        } else if !MachineCreate::valid_name(form.name) {
            (Err(ApiError::ValidationFailed), self)
        } else if !self.has_machine(mid) {
            (Err(ApiError::NotFound), self)
        } else {
            match self.edit_machine(mid, form).0 {
                Ok(m) => (Ok(m), self.edit_machine(mid, form).1),
                Err(_) => (Err(ApiError::InternalFailure), self),
            }
        }
    }

    /// An administrator reading machine `mid`.
    pub open spec fn admin_machine(
        self,
        admin_password: Seq<char>,
        bearer: Option<Seq<char>>,
        mid: i32,
    ) -> Result<MachineView, ApiError> {
        if !holds_secret(bearer, admin_password) {
            Err(ApiError::Unauthorized(AuthReason::LoginRequired))
        } else {
            match self.machine_by_id(mid) {
                Some(m) => Ok(m),
                None => Err(ApiError::NotFound),
            }
        }
    }

    /// An administrator deleting machine `mid`: the machine goes and all its
    /// pings with it.
    pub open spec fn admin_delete_machine(
        self,
        admin_password: Seq<char>,
        bearer: Option<Seq<char>>,
        mid: i32,
    ) -> (Result<(), ApiError>, StoreView) {
        if !holds_secret(bearer, admin_password) {
            (Err(ApiError::Unauthorized(AuthReason::LoginRequired)), self)
        } else if !self.has_machine(mid) {
            (Err(ApiError::NotFound), self)
        } else {
            (Ok(()), self.drop_machine(mid))
        }
    }
}

/// Registers the agent that calls at the time `now`; see
/// `StoreView::register_machine`.
pub fn create_machine_client_at(
    state: &AppState,
    db: &mut Store,
    bearer: Option<&str>,
    ip: &str,
    machine_create: &MachineCreate,
    now: i64,
) -> (out: Result<MachinePublic, ApiError>)
    requires
        old(db).wf(),
    ensures
        final(db).wf(),
        (result_view(out), final(db)@) == old(db)@.register_machine(
            state.api_token@,
            bearer_text(bearer),
            ip@,
            machine_create.name@,
            now,
        ),
{
    match ApiUser::from_request_parts(bearer, state) {
        Ok(_) => {},
        Err(e) => {
            return Err(e);
        },
    }
    match machine_create.validate() {
        Ok(_) => {},
        Err(e) => {
            return Err(e);
        },
    }
    let ghost before = db@;
    match Query::find_machine_by_name(db, machine_create.name.as_str()) {
        Some(machine) => {
            proof {
                before.lemma_machine_by_name(machine_create.name@);
                before.lemma_machine_by_id(machine.id);
            }
            let id = machine.id;
            let form = MachineCreateAdmin {
                name: machine.name,
                ip: String::from_str(ip),
                key: machine.key,
            };
            match Mutation::edit_machine(db, id, &form) {
                Ok(m) => Ok(MachinePublic::from(m)),
                Err(_) => Err(ApiError::InternalFailure),
            }
        },
        None => {
            proof {
                reveal_strlit("default_key");
            }
            let form = MachineCreateAdmin {
                name: machine_create.name.clone(),
                ip: String::from_str(ip),
                key: String::from_str("default_key"),
            };
            match Mutation::create_machine_at(db, &form, now) {
                Ok(m) => Ok(MachinePublic::from(m)),
                Err(_) => Err(ApiError::InternalFailure),
            }
        },
    }
}

/// Registers the agent that calls now.
pub fn create_machine_client(
    state: &AppState,
    db: &mut Store,
    bearer: Option<&str>,
    ip: &str,
    machine_create: &MachineCreate,
) -> (out: Result<MachinePublic, ApiError>)
    requires
        old(db).wf(),
    ensures
        final(db).wf(),
        exists|now: i64|
            (result_view(out), final(db)@) == #[trigger] old(db)@.register_machine(
                state.api_token@,
                bearer_text(bearer),
                ip@,
                machine_create.name@,
                now,
            ),
{
    let now = now();
    create_machine_client_at(state, db, bearer, ip, machine_create, now)
}

/// The public view of every machine, by ascending id.
pub fn list_machines(db: &Store) -> (out: Vec<MachinePublic>)
    requires
        db.wf(),
    ensures
        rows(out@) == public_machines(db@.machines),
{
    let machines = Query::find_machines(db);
    to_public_machines(&machines)
}

/// The public view of machine `mid` with every target it may probe. A
/// machine that does not exist is `NotFound`, not an empty answer.
pub fn get_machine_by_mid(db: &Store, mid: i32) -> (out: Result<MachineTargetsPublic, ApiError>)
    requires
        db.wf(),
    ensures
        result_view(out) == db@.machine_with_targets(mid),
{
    match Query::find_machine_by_id(db, mid) {
        Some(machine) => {
            let public = MachinePublic::from(machine);
            let mut with_targets = MachineTargetsPublic::from(public);
            let targets = Query::find_targets(db);
            with_targets.targets = to_public_targets(&targets);
            Ok(with_targets)
        },
        None => Err(ApiError::NotFound),
    }
}

/// Creates a machine for an administrator at the time `now`; see
/// `StoreView::admin_create_machine`.
pub fn create_machine_admin_at(
    state: &AppState,
    db: &mut Store,
    bearer: Option<&str>,
    machine_create: &MachineCreateAdmin,
    now: i64,
) -> (out: Result<Machine, ApiError>)
    requires
        old(db).wf(),
    ensures
        final(db).wf(),
        (result_view(out), final(db)@) == old(db)@.admin_create_machine(
            state.admin_password@,
            bearer_text(bearer),
            machine_create@,
            now,
        ),
{
    match AdminUser::from_request_parts(bearer, state) {
        Ok(_) => {},
        Err(e) => {
            return Err(e);
        },
    }
    match machine_create.validate() {
        Ok(_) => {},
        Err(e) => {
            return Err(e);
        },
    }
    match Mutation::create_machine_at(db, machine_create, now) {
        Ok(m) => Ok(m),
        Err(StoreError::NameTaken) => Err(ApiError::Conflict),
        Err(_) => Err(ApiError::InternalFailure),
    }
}

/// Creates a machine for an administrator now.
pub fn create_machine_admin(
    state: &AppState,
    db: &mut Store,
    bearer: Option<&str>,
    machine_create: &MachineCreateAdmin,
) -> (out: Result<Machine, ApiError>)
    requires
        old(db).wf(),
    ensures
        final(db).wf(),
        exists|now: i64|
            (result_view(out), final(db)@) == #[trigger] old(db)@.admin_create_machine(
                state.admin_password@,
                bearer_text(bearer),
                machine_create@,
                now,
            ),
{
    let now = now();
    create_machine_admin_at(state, db, bearer, machine_create, now)
}

/// Replaces the fields of machine `mid` for an administrator; see
/// `StoreView::admin_edit_machine`.
pub fn edit_machine_admin(
    state: &AppState,
    db: &mut Store,
    bearer: Option<&str>,
    mid: i32,
    machine_create: &MachineCreateAdmin,
) -> (out: Result<Machine, ApiError>)
    requires
        old(db).wf(),
    ensures
        final(db).wf(),
        (result_view(out), final(db)@) == old(db)@.admin_edit_machine(
            state.admin_password@,
            bearer_text(bearer),
            mid,
            machine_create@,
        ),
{
    match AdminUser::from_request_parts(bearer, state) {
        Ok(_) => {},
        Err(e) => {
            return Err(e);
        },
    }
    match machine_create.validate() {
        Ok(_) => {},
        Err(e) => {
            return Err(e);
        },
    }
    if Query::find_machine_by_id(db, mid).is_none() {
        return Err(ApiError::NotFound);
    }
    match Mutation::edit_machine(db, mid, machine_create) {
        Ok(m) => Ok(m),
        Err(_) => Err(ApiError::InternalFailure),
    }
}

/// Every machine in full, by ascending id, for an administrator.
pub fn list_machines_admin(state: &AppState, db: &Store, bearer: Option<&str>) -> (out: Result<
    Vec<Machine>,
    ApiError,
>)
    requires
        db.wf(),
    ensures
        match out {
            Ok(all) => holds_secret(bearer_text(bearer), state.admin_password@) && rows(all@)
                == db@.machines,
            Err(e) => !holds_secret(bearer_text(bearer), state.admin_password@) && e
                == ApiError::Unauthorized(AuthReason::LoginRequired),
        },
{
    match AdminUser::from_request_parts(bearer, state) {
        Ok(_) => {},
        Err(e) => {
            return Err(e);
        },
    }
    Ok(Query::find_machines(db))
}

/// Machine `mid` in full, for an administrator.
pub fn get_machine_by_mid_admin(state: &AppState, db: &Store, bearer: Option<&str>, mid: i32) -> (out:
    Result<Machine, ApiError>)
    requires
        db.wf(),
    ensures
        result_view(out) == db@.admin_machine(state.admin_password@, bearer_text(bearer), mid),
{
    match AdminUser::from_request_parts(bearer, state) {
        Ok(_) => {},
        Err(e) => {
            return Err(e);
        },
    }
    match Query::find_machine_by_id(db, mid) {
        Some(machine) => Ok(machine),
        None => Err(ApiError::NotFound),
    }
}

/// Deletes machine `mid`, and every ping of it, for an administrator; see
/// `StoreView::admin_delete_machine`.
pub fn delete_machine_by_mid_admin(
    state: &AppState,
    db: &mut Store,
    bearer: Option<&str>,
    mid: i32,
) -> (out: Result<(), ApiError>)
    requires
        old(db).wf(),
    ensures
        final(db).wf(),
        (out, final(db)@) == old(db)@.admin_delete_machine(
            state.admin_password@,
            bearer_text(bearer),
            mid,
        ),
{
    match AdminUser::from_request_parts(bearer, state) {
        Ok(_) => {},
        Err(e) => {
            return Err(e);
        },
    }
    if Query::find_machine_by_id(db, mid).is_none() {
        return Err(ApiError::NotFound);
    }
    Mutation::delete_machine(db, mid);
    Ok(())
}

} // verus!
