//! Writes to the identity store. Those that stamp a row with the time read
//! the clock themselves; each has a twin that takes the time as an argument.

use vstd::prelude::*;

use crate::clock::now;
use crate::entity::{clone_opt_text, Machine, MachineView, Ping, Target, TargetView};
use crate::error::StoreError;
use crate::forms::{MachineCreateAdmin, MachineFields, PingCreate, TargetCreateAdmin, TargetFields};
use crate::store::{not_older_than, Store, StoreView};
use crate::views::result_view;

verus! {

/// How long a ping is kept, in seconds: seven days.
pub const RETENTION_SECONDS: i64 = 604_800;

/// How many rows a delete removed.
#[derive(Clone, Copy, Debug, PartialEq, Eq, Structural)]
pub struct DeleteResult {
    pub rows_affected: u64,
}

/// The first moment that is still kept when the sweep runs at `now`.
pub open spec fn retention_cutoff(now: i64) -> int {
    now - RETENTION_SECONDS
}

impl StoreView {
    /// Creating a machine at `now`: what comes back, and the store afterwards.
    pub open spec fn create_machine(self, form: MachineFields, now: i64) -> (
        Result<MachineView, StoreError>,
        StoreView,
    ) {
        if self.has_machine_named(form.name) {
            (Err(StoreError::NameTaken), self)
        } else if self.next_machine_id == i32::MAX {
            (Err(StoreError::IdsExhausted), self)
        } else {
            let m = MachineView {
                id: self.next_machine_id,
                name: form.name,
                ip: form.ip,
                key: form.key,
                created: now,
                updated: None,
            };
            (Ok(m), self.add_machine(m))
        }
    }

    /// Editing machine `id`: what comes back, and the store afterwards. The
    /// id and both timestamps of the machine stay as they were.
    pub open spec fn edit_machine(self, id: i32, form: MachineFields) -> (
        Result<MachineView, StoreError>,
        StoreView,
    ) {
        if !self.has_machine(id) {
            (Err(StoreError::RowMissing), self)
        } else if self.machine_name_taken(id, form.name) {
            (Err(StoreError::NameTaken), self)
        } else {
            let m = MachineView {
                name: form.name,
                ip: form.ip,
                key: form.key,
                ..self.machine(id)
            };
            (Ok(m), self.set_machine(m))
        }
    }

    /// Marking machine `id` as seen at `now`.
    pub open spec fn touch_machine(self, id: i32, now: i64) -> (Result<(), StoreError>, StoreView) {
        if !self.has_machine(id) {
            (Err(StoreError::RowMissing), self)
        } else {
            (Ok(()), self.set_machine(MachineView { updated: Some(now), ..self.machine(id) }))
        }
    }

    /// Creating a target at `now`: what comes back, and the store afterwards.
    pub open spec fn create_target(self, form: TargetFields, now: i64) -> (
        Result<TargetView, StoreError>,
        StoreView,
    ) {
        if self.has_target_named(form.name) {
            (Err(StoreError::NameTaken), self)
        } else if self.next_target_id == i32::MAX {
            (Err(StoreError::IdsExhausted), self)
        } else {
            let t = TargetView {
                id: self.next_target_id,
                name: form.name,
                domain: form.domain,
                ipv4: form.ipv4,
                ipv6: form.ipv6,
                created: now,
                updated: None,
            };
            (Ok(t), self.add_target(t))
        }
    }

    /// Editing target `id`: what comes back, and the store afterwards. The
    /// id and both timestamps of the target stay as they were.
    pub open spec fn edit_target(self, id: i32, form: TargetFields) -> (
        Result<TargetView, StoreError>,
        StoreView,
    ) {
        if !self.has_target(id) {
            (Err(StoreError::RowMissing), self)
        } else if self.target_name_taken(id, form.name) {
            (Err(StoreError::NameTaken), self)
        } else {
            let t = TargetView {
                name: form.name,
                domain: form.domain,
                ipv4: form.ipv4,
                ipv6: form.ipv6,
                ..self.target(id)
            };
            (Ok(t), self.set_target(t))
        }
    }

    /// Marking target `id` as seen at `now`.
    pub open spec fn touch_target(self, id: i32, now: i64) -> (Result<(), StoreError>, StoreView) {
        if !self.has_target(id) {
            (Err(StoreError::RowMissing), self)
        } else {
            (Ok(()), self.set_target(TargetView { updated: Some(now), ..self.target(id) }))
        }
    }

    /// Recording a sample of machine `mid` against target `tid` at `now`:
    /// what comes back, and the store afterwards.
    pub open spec fn create_ping(self, sample: PingCreate, mid: i32, tid: i32, now: i64) -> (
        Result<Ping, StoreError>,
        StoreView,
    ) {
        if !self.has_machine(mid) || !self.has_target(tid) {
            (Err(StoreError::ParentMissing), self)
        } else if self.next_ping_id == i32::MAX {
            (Err(StoreError::IdsExhausted), self)
        } else {
            let p = Ping {
                id: self.next_ping_id,
                machine_id: mid,
                target_id: tid,
                ipv6: sample.ipv6,
                created: now,
                min: sample.min as i32,
                avg: sample.avg as i32,
                fail: sample.fail as i32,
            };
            (Ok(p), self.add_ping(p))
        }
    }

    /// The store after the sweep that runs at `now`: every ping older than
    /// the retention horizon is gone, every other row is as it was.
    pub open spec fn expire_pings(self, now: i64) -> StoreView {
        self.drop_pings_before(retention_cutoff(now))
    }
}

/// The writes of the service.
pub struct Mutation;

impl Mutation {
    /// Creates a machine from `form`, stamped with the time `now`.
    pub fn create_machine_at(db: &mut Store, form: &MachineCreateAdmin, now: i64) -> (out: Result<
        Machine,
        StoreError,
    >)
        requires
            old(db).wf(),
        ensures
            final(db).wf(),
            (result_view(out), final(db)@) == old(db)@.create_machine(form@, now),
    {
        db.insert_machine(form.name.clone(), form.ip.clone(), form.key.clone(), now)
    }

    /// Creates a machine from `form`, stamped with the current time.
    pub fn create_machine(db: &mut Store, form: &MachineCreateAdmin) -> (out: Result<
        Machine,
        StoreError,
    >)
        requires
            old(db).wf(),
        ensures
            final(db).wf(),
            exists|now: i64|
                (result_view(out), final(db)@) == #[trigger] old(db)@.create_machine(form@, now),
    {
        let now = now();
        Self::create_machine_at(db, form, now)
    }

    /// Replaces the name, address and key of machine `id` by those of `form`.
    pub fn edit_machine(db: &mut Store, id: i32, form: &MachineCreateAdmin) -> (out: Result<
        Machine,
        StoreError,
    >)
        requires
            old(db).wf(),
        ensures
            final(db).wf(),
            (result_view(out), final(db)@) == old(db)@.edit_machine(id, form@),
    {
        db.update_machine(id, form.name.clone(), form.ip.clone(), form.key.clone())
    }

    /// Marks machine `id` as seen at `now`.
    pub fn update_machine_at(db: &mut Store, id: i32, now: i64) -> (out: Result<(), StoreError>)
        requires
            old(db).wf(),
        ensures
            final(db).wf(),
            (out, final(db)@) == old(db)@.touch_machine(id, now),
    {
        db.touch_machine(id, now)
    }

    /// Marks machine `id` as seen at the current time.
    pub fn update_machine(db: &mut Store, id: i32) -> (out: Result<(), StoreError>)
        requires
            old(db).wf(),
        ensures
            final(db).wf(),
            exists|now: i64| (out, final(db)@) == #[trigger] old(db)@.touch_machine(id, now),
    {
        let now = now();
        Self::update_machine_at(db, id, now)
    }

    /// Deletes machine `id` and, with it, every ping of that machine.
    pub fn delete_machine(db: &mut Store, id: i32) -> (out: DeleteResult)
        requires
            old(db).wf(),
        ensures
            final(db).wf(),
            final(db)@ == old(db)@.drop_machine(id),
            out.rows_affected == if old(db)@.has_machine(id) {
                1u64
            } else {
                0u64
            },
    {
        DeleteResult { rows_affected: db.delete_machine(id) }
    }

    /// Creates a target from `form`, stamped with the time `now`.
    pub fn create_target_at(db: &mut Store, form: &TargetCreateAdmin, now: i64) -> (out: Result<
        Target,
        StoreError,
    >)
        requires
            old(db).wf(),
        ensures
            final(db).wf(),
            (result_view(out), final(db)@) == old(db)@.create_target(form@, now),
    {
        db.insert_target(
            form.name.clone(),
            clone_opt_text(&form.domain),
            clone_opt_text(&form.ipv4),
            clone_opt_text(&form.ipv6),
            now,
        )
    }

    /// Creates a target from `form`, stamped with the current time.
    pub fn create_target(db: &mut Store, form: &TargetCreateAdmin) -> (out: Result<
        Target,
        StoreError,
    >)
        requires
            old(db).wf(),
        ensures
            final(db).wf(),
            exists|now: i64|
                (result_view(out), final(db)@) == #[trigger] old(db)@.create_target(form@, now),
    {
        let now = now();
        Self::create_target_at(db, form, now)
    }

    /// Replaces the name and the addresses of target `id` by those of `form`.
    pub fn edit_target(db: &mut Store, id: i32, form: &TargetCreateAdmin) -> (out: Result<
        Target,
        StoreError,
    >)
        requires
            old(db).wf(),
        ensures
            final(db).wf(),
            (result_view(out), final(db)@) == old(db)@.edit_target(id, form@),
    {
        db.update_target(
            id,
            form.name.clone(),
            clone_opt_text(&form.domain),
            clone_opt_text(&form.ipv4),
            clone_opt_text(&form.ipv6),
        )
    }

    /// Marks target `id` as seen at `now`.
    pub fn update_target_at(db: &mut Store, id: i32, now: i64) -> (out: Result<(), StoreError>)
        requires
            old(db).wf(),
        ensures
            final(db).wf(),
            (out, final(db)@) == old(db)@.touch_target(id, now),
    {
        db.touch_target(id, now)
    }

    /// Marks target `id` as seen at the current time.
    pub fn update_target(db: &mut Store, id: i32) -> (out: Result<(), StoreError>)
        requires
            old(db).wf(),
        ensures
            final(db).wf(),
            exists|now: i64| (out, final(db)@) == #[trigger] old(db)@.touch_target(id, now),
    {
        let now = now();
        Self::update_target_at(db, id, now)
    }

    /// Deletes target `id` and, with it, every ping against that target.
    pub fn delete_target(db: &mut Store, id: i32) -> (out: DeleteResult)
        requires
            old(db).wf(),
        ensures
            final(db).wf(),
            final(db)@ == old(db)@.drop_target(id),
            out.rows_affected == if old(db)@.has_target(id) {
                1u64
            } else {
                0u64
            },
    {
        DeleteResult { rows_affected: db.delete_target(id) }
    }

    /// Records a sample of machine `mid` against target `tid`, stamped with
    /// the time `now`. Whatever time the agent may claim plays no part.
    pub fn create_ping_at(db: &mut Store, ping_create: PingCreate, mid: i32, tid: i32, now: i64) -> (out:
        Result<Ping, StoreError>)
        requires
            old(db).wf(),
        ensures
            final(db).wf(),
            (out, final(db)@) == old(db)@.create_ping(ping_create, mid, tid, now),
    {
        db.insert_ping(
            mid,
            tid,
            ping_create.ipv6,
            now,
            ping_create.min as i32,
            ping_create.avg as i32,
            ping_create.fail as i32,
        )
    }

    /// Records a sample of machine `mid` against target `tid`, stamped with
    /// the current time.
    pub fn create_ping(db: &mut Store, ping_create: PingCreate, mid: i32, tid: i32) -> (out: Result<
        Ping,
        StoreError,
    >)
        requires
            old(db).wf(),
        ensures
            final(db).wf(),
            exists|now: i64|
                (out, final(db)@) == #[trigger] old(db)@.create_ping(ping_create, mid, tid, now),
    {
        let now = now();
        Self::create_ping_at(db, ping_create, mid, tid, now)
    }

    /// The moment before which the sweep at `now` deletes: `now` less the
    /// retention horizon, or the earliest moment there is where that lies
    /// before it. A ping is older than the one exactly if it is older than
    /// the other.
    pub fn expiry_cutoff(now: i64) -> (cutoff: i64)
        ensures
            cutoff == if retention_cutoff(now) < i64::MIN {
                i64::MIN as int
            } else {
                retention_cutoff(now)
            },
    {
        if now >= i64::MIN + RETENTION_SECONDS {
            now - RETENTION_SECONDS
        } else {
            i64::MIN
        }
    }

    /// The sweep as it runs at `now`: deletes every ping that is more than
    /// `RETENTION_SECONDS` older than `now` and leaves all else alone.
    pub fn delete_expire_pings_at(db: &mut Store, now: i64) -> (out: DeleteResult)
        requires
            old(db).wf(),
        ensures
            final(db).wf(),
            final(db)@ == old(db)@.expire_pings(now),
            out.rows_affected == old(db)@.pings.len() - final(db)@.pings.len(),
    {
        let cutoff = Self::expiry_cutoff(now);
        let gone = db.delete_pings_older_than(cutoff);
        proof {
            assert(not_older_than(cutoff as int) =~= not_older_than(retention_cutoff(now)));
        }
        DeleteResult { rows_affected: gone }
    }

    /// The sweep as it runs now.
    pub fn delete_expire_pings(db: &mut Store) -> (out: DeleteResult)
        requires
            old(db).wf(),
        ensures
            final(db).wf(),
            exists|now: i64|
                final(db)@ == #[trigger] old(db)@.expire_pings(now) && out.rows_affected == old(
                    db,
                )@.pings.len() - final(db)@.pings.len(),
    {
        let now = now();
        Self::delete_expire_pings_at(db, now)
    }
}

} // verus!
