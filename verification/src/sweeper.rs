//! The retention sweeper: the one control on the growth of the ping table.
//! Whoever runs the service calls `clean_database` once per interval.

use vstd::prelude::*;

use crate::clock::now;
use crate::mutation::Mutation;
use crate::store::Store;

verus! {

/// The pause between two sweeps, in seconds.
pub const SWEEP_INTERVAL_SECONDS: u64 = 300;

/// One sweep as it runs at the time `now`: every ping older than the
/// retention horizon goes, and nothing else changes.
pub fn clean_database_at(db: &mut Store, now: i64)
    requires
        old(db).wf(),
    ensures
        final(db).wf(),
        final(db)@ == old(db)@.expire_pings(now),
{
    let _ = Mutation::delete_expire_pings_at(db, now);
}

/// One sweep as it runs now.
pub fn clean_database(db: &mut Store)
    requires
        old(db).wf(),
    ensures
        final(db).wf(),
        exists|now: i64| final(db)@ == #[trigger] old(db)@.expire_pings(now),
{
    let now = now();
    clean_database_at(db, now)
}

} // verus!
