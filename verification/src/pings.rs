//! The requests about pings: an agent submitting a sample, and anyone
//! reading a series.

use vstd::prelude::*;

use crate::clock::now;
use crate::entity::Ping;
use crate::error::{ApiError, AuthReason};
use crate::extractors::{bearer_text, machine_check, ApiClient};
use crate::forms::{PingCreate, PingFilter};
use crate::mutation::Mutation;
use crate::query::Query;
use crate::store::{Store, StoreView};

verus! {

/// One point of a series: the moment of the sample, its lowest and its
/// average latency, and its count of failed probes.
pub open spec fn series_point(p: Ping) -> (i64, i32, i32, i32) {
    (p.created, p.min, p.avg, p.fail)
}

/// The points of a list of pings, in order.
pub open spec fn series_points(pings: Seq<Ping>) -> Seq<(i64, i32, i32, i32)> {
    pings.map_values(|p: Ping| series_point(p))
}

impl StoreView {
    /// An agent submitting, at `now`, a sample of machine `mid` against
    /// target `tid`: what comes back, and the store afterwards.
    ///
    /// The token must be that of machine `mid` itself, the target must
    /// exist, and the sample must lie within its bounds; a request that
    /// fails any of these changes nothing. An accepted sample becomes one
    /// new ping stamped `now`, and the machine and the target are marked as
    /// seen at `now`.
    pub open spec fn record_ping(
        self,
        bearer: Option<Seq<char>>,
        mid: i32,
        tid: i32,
        sample: PingCreate,
        now: i64,
    ) -> (Result<Ping, ApiError>, StoreView) {
        match machine_check(self, bearer) {
            Err(e) => (Err(e), self),
            Ok(machine) => if machine.id != mid {
                (Err(ApiError::Unauthorized(AuthReason::TokenRequired)), self)
            } else if !self.has_target(tid) {
                (Err(ApiError::NotFound), self)
            } else if !sample.valid() {
                (Err(ApiError::ValidationFailed), self)
            } else {
                match self.create_ping(sample, mid, tid, now).0 {
                    Ok(p) => (
                        Ok(p),
                        self.create_ping(sample, mid, tid, now).1.touch_machine(
                            mid,
                            now,
                        ).1.touch_target(tid, now).1,
                    ),
                    Err(_) => (Err(ApiError::InternalFailure), self),
                }
            },
        }
    }

    /// What a query at `now` for the series of machine `mid` against target
    /// `tid` gets: the points of the window, oldest first. A machine or a
    /// target that does not exist is `NotFound`, not an empty series.
    pub open spec fn ping_series(
        self,
        mid: i32,
        tid: i32,
        delta: Seq<char>,
        filter: PingFilter,
        now: i64,
    ) -> Result<Seq<(i64, i32, i32, i32)>, ApiError> {
        if !self.has_machine(mid) || !self.has_target(tid) {
            Err(ApiError::NotFound)
        } else {
            Ok(series_points(self.window_series(mid, tid, delta, filter.family(), now)))
        }
    }
}

/// Takes in a sample at the time `now`; see `StoreView::record_ping`.
pub fn create_ping_client_at(
    db: &mut Store,
    bearer: Option<&str>,
    mid: i32,
    tid: i32,
    ping_create: PingCreate,
    now: i64,
) -> (out: Result<Ping, ApiError>)
    requires
        old(db).wf(),
    ensures
        final(db).wf(),
        (out, final(db)@) == old(db)@.record_ping(bearer_text(bearer), mid, tid, ping_create, now),
{
    let client = match ApiClient::from_request_parts(bearer, db) {
        Ok(client) => client,
        Err(e) => {
            return Err(e);
        },
    };
    if client.0.id != mid {
        return Err(ApiError::Unauthorized(AuthReason::TokenRequired));
    }
    if Query::find_target_by_id(db, tid).is_none() {
        return Err(ApiError::NotFound);
    }
    match ping_create.validate() {
        Ok(_) => {},
        Err(e) => {
            return Err(e);
        },
    }
    match Mutation::create_ping_at(db, ping_create, mid, tid, now) {
        Ok(ping) => {
            // The ping stands; marking the parents as seen is best effort.
            let _ = Mutation::update_machine_at(db, mid, now);
            let _ = Mutation::update_target_at(db, tid, now);
            Ok(ping)
        },
        Err(_) => Err(ApiError::InternalFailure),
    }
}

/// Takes in a sample now.
pub fn create_ping_client(
    db: &mut Store,
    bearer: Option<&str>,
    mid: i32,
    tid: i32,
    ping_create: PingCreate,
) -> (out: Result<Ping, ApiError>)
    requires
        old(db).wf(),
    ensures
        final(db).wf(),
        exists|now: i64|
            (out, final(db)@) == #[trigger] old(db)@.record_ping(
                bearer_text(bearer),
                mid,
                tid,
                ping_create,
                now,
            ),
{
    let now = now();
    create_ping_client_at(db, bearer, mid, tid, ping_create, now)
}

/// The series that a query at the time `now` gets; see
/// `StoreView::ping_series`.
pub fn list_pings_at(db: &Store, mid: i32, tid: i32, delta: &str, form: PingFilter, now: i64) -> (out:
    Result<Vec<(i64, i32, i32, i32)>, ApiError>)
    requires
        db.wf(),
    ensures
        match out {
            Ok(points) => db@.ping_series(mid, tid, delta@, form, now) == Ok::<
                Seq<(i64, i32, i32, i32)>,
                ApiError,
            >(points@),
            Err(e) => db@.ping_series(mid, tid, delta@, form, now) == Err::<
                Seq<(i64, i32, i32, i32)>,
                ApiError,
            >(e),
        },
        out matches Ok(points) ==> forall|i: int, j: int|
            0 <= i < j < points.len() ==> points[i].0 <= points[j].0,
{
    let ipv6 = form.wants_ipv6();
    if Query::find_machine_by_id(db, mid).is_none() {
        return Err(ApiError::NotFound);
    }
    if Query::find_target_by_id(db, tid).is_none() {
        return Err(ApiError::NotFound);
    }
    let pings = Query::find_pings_by_machine_id_and_target_id_at(db, mid, tid, delta, ipv6, now);
    let mut points: Vec<(i64, i32, i32, i32)> = Vec::new();
    let mut k: usize = 0;
    assert(points@ =~= series_points(pings@).take(0));
    while k < pings.len()
        invariant
            k <= pings.len(),
            points@ == series_points(pings@).take(k as int),
        decreases pings.len() - k,
    {
        let p = pings[k];
        points.push((p.created, p.min, p.avg, p.fail));
        assert(points@ =~= series_points(pings@).take(k + 1));
        k += 1;
    }
    assert(series_points(pings@).take(k as int) =~= series_points(pings@));
    assert forall|i: int, j: int| 0 <= i < j < points.len() implies points[i].0
        <= points[j].0 by {
        assert(pings[i].created <= pings[j].created);
    }
    Ok(points)
}

/// The series that a query gets now.
pub fn list_pings(db: &Store, mid: i32, tid: i32, delta: &str, form: PingFilter) -> (out: Result<
    Vec<(i64, i32, i32, i32)>,
    ApiError,
>)
    requires
        db.wf(),
    ensures
        exists|now: i64|
            match out {
                Ok(points) => #[trigger] db@.ping_series(mid, tid, delta@, form, now) == Ok::<
                    Seq<(i64, i32, i32, i32)>,
                    ApiError,
                >(points@),
                Err(e) => db@.ping_series(mid, tid, delta@, form, now) == Err::<
                    Seq<(i64, i32, i32, i32)>,
                    ApiError,
                >(e),
            },
        out matches Ok(points) ==> forall|i: int, j: int|
            0 <= i < j < points.len() ==> points[i].0 <= points[j].0,
{
    let now = now();
    list_pings_at(db, mid, tid, delta, form, now)
}

} // verus!
