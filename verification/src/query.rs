//! Reads from the identity store, among them the time-windowed ping series.

use vstd::prelude::*;

use crate::clock::now;
use crate::entity::{Machine, Ping, Target};
use crate::store::{in_series, oldest_first, Store, StoreView};
use crate::text::str_eq;
use crate::views::{opt_view, rows};

verus! {

/// The lookback horizon of a query that names no other: one day, in seconds.
pub const DAY_SECONDS: i64 = 86_400;

/// The lookback horizon that the window token `7d` selects: seven days, in
/// seconds.
pub const WEEK_SECONDS: i64 = 604_800;

/// The lookback horizon that a window token selects. `7d` is the one token
/// that is recognised; every other text selects the default of one day.
pub open spec fn window_seconds(delta: Seq<char>) -> int {
    if delta == seq!['7', 'd'] {
        WEEK_SECONDS as int
    } else {
        DAY_SECONDS as int
    }
}

impl StoreView {
    /// The pings of one machine against one target over one address family
    /// that are strictly newer than `now` less the horizon of `delta`,
    /// oldest first.
    pub open spec fn window_series(
        self,
        mid: i32,
        tid: i32,
        delta: Seq<char>,
        ipv6: bool,
        now: i64,
    ) -> Seq<Ping> {
        self.series(mid, tid, ipv6, now - window_seconds(delta) + 1)
    }
}

/// The reads of the service.
pub struct Query;

impl Query {
    /// The machine named `name`, if any.
    pub fn find_machine_by_name(db: &Store, name: &str) -> (found: Option<Machine>)
        requires
            db.wf(),
        ensures
            opt_view(found) == db@.machine_by_name(name@),
    {
        db.find_machine_by_name(name)
    }

    /// Every machine, by ascending id.
    pub fn find_machines(db: &Store) -> (all: Vec<Machine>)
        requires
            db.wf(),
        ensures
            rows(all@) == db@.machines,
            forall|i: int, j: int| 0 <= i < j < all.len() ==> all[i].id < all[j].id,
    {
        db.find_machines()
    }

    /// The machine with the given id, if any.
    pub fn find_machine_by_id(db: &Store, id: i32) -> (found: Option<Machine>)
        requires
            db.wf(),
        ensures
            opt_view(found) == db@.machine_by_id(id),
    {
        db.find_machine_by_id(id)
    }

    /// Every target, by ascending id.
    pub fn find_targets(db: &Store) -> (all: Vec<Target>)
        requires
            db.wf(),
        ensures
            rows(all@) == db@.targets,
            forall|i: int, j: int| 0 <= i < j < all.len() ==> all[i].id < all[j].id,
    {
        db.find_targets()
    }

    /// The target with the given id, if any.
    pub fn find_target_by_id(db: &Store, id: i32) -> (found: Option<Target>)
        requires
            db.wf(),
        ensures
            opt_view(found) == db@.target_by_id(id),
    {
        db.find_target_by_id(id)
    }

    /// The target named `name`, if any.
    pub fn find_target_by_name(db: &Store, name: &str) -> (found: Option<Target>)
        requires
            db.wf(),
        ensures
            opt_view(found) == db@.target_by_name(name@),
    {
        db.find_target_by_name(name)
    }

    /// The lookback horizon, in seconds, that a window token selects.
    pub fn window(delta: &str) -> (seconds: i64)
        ensures
            seconds == window_seconds(delta@),
    {
        proof {
            reveal_strlit("7d");
            assert("7d"@ =~= seq!['7', 'd']);
        }
        if str_eq(delta, "7d") {
            WEEK_SECONDS
        } else {
            DAY_SECONDS
        }
    }

    /// The ping series of machine `mid` against target `tid` as a query at
    /// the time `now` sees it: the pings of the given address family that
    /// are strictly newer than `now` less the horizon of `delta`, oldest
    /// first.
    pub fn find_pings_by_machine_id_and_target_id_at(
        db: &Store,
        mid: i32,
        tid: i32,
        delta: &str,
        ipv6: bool,
        now: i64,
    ) -> (found: Vec<Ping>)
        requires
            db.wf(),
        ensures
            found@ == db@.window_series(mid, tid, delta@, ipv6, now),
            oldest_first(found@),
    {
        let back = Self::window(delta) - 1;
        let from = if now >= i64::MIN + back {
            now - back
        } else {
            i64::MIN
        };
        proof {
            assert(in_series(mid, tid, ipv6, from as int) =~= in_series(
                mid,
                tid,
                ipv6,
                now - window_seconds(delta@) + 1,
            ));
        }
        db.find_pings(mid, tid, ipv6, from)
    }

    /// The ping series of machine `mid` against target `tid` as a query sees
    /// it now.
    pub fn find_pings_by_machine_id_and_target_id(
        db: &Store,
        mid: i32,
        tid: i32,
        delta: &str,
        ipv6: bool,
    ) -> (found: Vec<Ping>)
        requires
            db.wf(),
        ensures
            exists|now: i64| found@ == #[trigger] db@.window_series(mid, tid, delta@, ipv6, now),
            oldest_first(found@),
    {
        let now = now();
        Self::find_pings_by_machine_id_and_target_id_at(db, mid, tid, delta, ipv6, now)
    }
}

} // verus!
