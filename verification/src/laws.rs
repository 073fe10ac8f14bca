//! What holds of the service as a whole, proved from the contracts of its
//! parts.

use vstd::prelude::*;

use crate::entity::{MachineView, Ping, TargetView};
use crate::error::ApiError;
use crate::extractors::{
    all_digits, digits_value, first_colon_at, holds_secret, is_digit, machine_check, parse_i32,
    parse_machine_token,
};
use crate::forms::{MachineCreate, MachineFields, PingCreate};
use crate::models::public_machine;
use crate::mutation::{retention_cutoff, RETENTION_SECONDS};
use crate::query::window_seconds;
use crate::seqs::{lemma_filter_members, lemma_filter_pairwise, lemma_filter_split, pairwise};
use crate::store::{
    in_series, newer_than, not_newer_than, not_of_machine, not_of_target, not_older_than,
    oldest_first, other_machine, other_target, put_ping, replay_pings, restorable, restored,
    StoreView,
};

verus! {

/// The character that writes the digit `d`.
pub open spec fn digit_char(d: int) -> char {
    (d + 48) as char
}

/// The decimal digits of `n`, without leading zeros.
pub open spec fn digits_of(n: nat) -> Seq<char>
    decreases n,
{
    if n < 10 {
        seq![digit_char(n as int)]
    } else {
        digits_of(n / 10).push(digit_char(n as int % 10))
    }
}

/// A machine id written in decimal, with a minus sign where it is negative.
pub open spec fn decimal(id: i32) -> Seq<char> {
    if id < 0 {
        seq!['-'] + digits_of((-id) as nat)
    } else {
        digits_of(id as nat)
    }
}

/// The decimal digits of a number are digits, and they write that number.
pub proof fn lemma_digits_of(n: nat)
    ensures
        digits_of(n).len() > 0,
        all_digits(digits_of(n)),
        digits_value(digits_of(n)) == n,
    decreases n,
{
    if n < 10 {
        let one = digits_of(n);
        assert(one.len() == 1);
        assert(one.drop_last() =~= Seq::<char>::empty());
        assert(digits_value(one.drop_last()) == 0);
        assert(is_digit(one[0]));
    } else {
        let head = digits_of(n / 10);
        let all = digits_of(n);
        lemma_digits_of(n / 10);
        assert(all.drop_last() =~= head);
        assert(all.last() == digit_char(n as int % 10));
        assert forall|i: int| 0 <= i < all.len() implies is_digit(#[trigger] all[i]) by {
            if i < head.len() {
                assert(is_digit(head[i]));
            }
        }
    }
}

/// Every machine id reads back from its decimal writing, which holds no
/// colon.
pub proof fn lemma_decimal_parses(id: i32)
    ensures
        parse_i32(decimal(id)) == Some(id),
        !decimal(id).contains(':'),
{
    let text = decimal(id);
    let magnitude: nat = if id < 0 {
        (-id) as nat
    } else {
        id as nat
    };
    let digits = digits_of(magnitude);
    lemma_digits_of(magnitude);
    if id < 0 {
        assert(text[0] == '-');
        assert(text.skip(1) =~= digits);
    } else {
        assert(is_digit(digits[0]));
        assert(text =~= digits);
    }
    assert(!text.contains(':')) by {
        if text.contains(':') {
            let i = choose|i: int| 0 <= i < text.len() && text[i] == ':';
            if id < 0 {
                assert(i > 0);
                assert(is_digit(digits[i - 1]));
            } else {
                assert(is_digit(digits[i]));
            }
        }
    }
}

/// The gateway yields machine `id` for the token made of the id in decimal,
/// a colon, and the stored key of that machine.
pub proof fn lemma_own_token_accepted(store: StoreView, id: i32)
    requires
        store.wf(),
        store.has_machine(id),
    ensures
        machine_check(store, Some(decimal(id).push(':') + store.machine(id).key)) == Ok::<
            MachineView,
            ApiError,
        >(store.machine(id)),
{
    lemma_decimal_parses(id);
    lemma_token_parts(decimal(id), store.machine(id).key);
}

/// A token written as a number, a colon and a secret is taken apart into
/// exactly that number and that secret.
pub proof fn lemma_token_parts(id_text: Seq<char>, secret: Seq<char>)
    requires
        !id_text.contains(':'),
    ensures
        parse_machine_token(id_text.push(':') + secret) == match parse_i32(id_text) {
            Some(id) => Some((id, secret)),
            None => None,
        },
{
    let token = id_text.push(':') + secret;
    let k = id_text.len() as int;
    assert(token[k] == ':');
    assert forall|j: int| 0 <= j < k implies token[j] != ':' by {
        assert(token[j] == id_text[j]);
    }
    assert(first_colon_at(token, k));
    let c = choose|i: int| first_colon_at(token, i);
    if c < k {
        assert(token[c] != ':');
    } else if c > k {
        assert(token[k] != ':');
    }
    assert(token.take(k) =~= id_text);
    assert(token.skip(k + 1) =~= secret);
}

/// The gateway yields machine `id` for every token `<id>:<secret>` whose
/// secret is the stored key of that machine.
pub proof fn lemma_machine_token_accepted(store: StoreView, id_text: Seq<char>, secret: Seq<char>)
    requires
        store.wf(),
        !id_text.contains(':'),
        parse_i32(id_text) matches Some(id) && store.machine_by_id(id) matches Some(m) && m.key
            == secret,
    ensures
        machine_check(store, Some(id_text.push(':') + secret)) == Ok::<MachineView, ApiError>(
            store.machine(parse_i32(id_text)->0),
        ),
{
    lemma_token_parts(id_text, secret);
}

/// The gateway yields a machine for no other request: whenever it yields
/// one, the token is that machine's id, a colon, and that machine's key.
/// Everything else is turned down as unauthorized.
pub proof fn lemma_machine_token_refused(store: StoreView, bearer: Option<Seq<char>>)
    requires
        store.wf(),
    ensures
        match machine_check(store, bearer) {
            Ok(m) => exists|id_text: Seq<char>|
                {
                    &&& bearer == Some(#[trigger] id_text.push(':') + m.key)
                    &&& !id_text.contains(':')
                    &&& parse_i32(id_text) == Some(m.id)
                    &&& store.machine_by_id(m.id) == Some(m)
                },
            Err(e) => e is Unauthorized,
        },
{
    if let Ok(m) = machine_check(store, bearer) {
        let token = bearer->0;
        let k = choose|i: int| first_colon_at(token, i);
        let id_text = token.take(k);
        assert(first_colon_at(token, k));
        assert(!id_text.contains(':')) by {
            if id_text.contains(':') {
                let j = choose|j: int| 0 <= j < id_text.len() && id_text[j] == ':';
                assert(token[j] == ':');
            }
        }
        let id = parse_i32(id_text)->0;
        store.lemma_machine_by_id(id);
        assert(token =~= id_text.push(':') + token.skip(k + 1));
    }
}

/// A sample outside its bounds is rejected, whoever sends it, and leaves no
/// trace in the store.
pub proof fn lemma_invalid_sample_rejected(
    store: StoreView,
    bearer: Option<Seq<char>>,
    mid: i32,
    tid: i32,
    sample: PingCreate,
    now: i64,
)
    requires
        !sample.valid(),
    ensures
        store.record_ping(bearer, mid, tid, sample, now).0 is Err,
        store.record_ping(bearer, mid, tid, sample, now).1 == store,
        machine_check(store, bearer) matches Ok(m) && m.id == mid && store.has_target(tid)
            ==> store.record_ping(bearer, mid, tid, sample, now).0 == Err::<Ping, ApiError>(
            ApiError::ValidationFailed,
        ),
{
}

/// Putting a ping among pings that stand oldest first adds exactly that one
/// ping, keeps every other, and keeps them oldest first.
pub proof fn lemma_put_ping(pings: Seq<Ping>, p: Ping)
    requires
        oldest_first(pings),
    ensures
        put_ping(pings, p).len() == pings.len() + 1,
        forall|q: Ping| #[trigger] put_ping(pings, p).contains(q) <==> q == p || pings.contains(q),
        oldest_first(put_ping(pings, p)),
{
    let at = p.created as int;
    let front = pings.filter(not_newer_than(at));
    let back = pings.filter(newer_than(at));
    let all = put_ping(pings, p);
    lemma_filter_split(pings, not_newer_than(at), newer_than(at));
    lemma_filter_members(pings, not_newer_than(at));
    lemma_filter_members(pings, newer_than(at));
    assert forall|i: int| 0 <= i < all.len() implies #[trigger] all[i] == if i < front.len() {
        front[i]
    } else if i == front.len() {
        p
    } else {
        back[i - front.len() - 1]
    } by {}
    assert forall|q: Ping| #[trigger] all.contains(q) <==> q == p || pings.contains(q) by {
        if all.contains(q) {
            let i = choose|i: int| 0 <= i < all.len() && all[i] == q;
            if i < front.len() {
                assert(front.contains(front[i]));
            } else if i > front.len() {
                assert(back.contains(back[i - front.len() - 1]));
            }
        }
        if q == p {
            assert(all[front.len() as int] == p);
        } else if pings.contains(q) {
            if not_newer_than(at)(q) {
                assert(front.contains(q));
                let i = choose|i: int| 0 <= i < front.len() && front[i] == q;
                assert(all[i] == q);
            } else {
                assert(newer_than(at)(q));
                assert(back.contains(q));
                let i = choose|i: int| 0 <= i < back.len() && back[i] == q;
                assert(all[front.len() + 1 + i] == q);
            }
        }
    }
    let in_order = |a: Ping, b: Ping| a.created <= b.created;
    assert(pairwise(pings, in_order)) by {
        assert forall|i: int, j: int| 0 <= i < j < pings.len() implies #[trigger] in_order(
            pings[i],
            pings[j],
        ) by {}
    }
    lemma_filter_pairwise(pings, not_newer_than(at), in_order);
    lemma_filter_pairwise(pings, newer_than(at), in_order);
    assert forall|i: int, j: int| 0 <= i < j < all.len() implies all[i].created
        <= all[j].created by {
        if j < front.len() {
            assert(in_order(front[i], front[j]));
        } else if i > front.len() {
            assert(in_order(back[i - front.len() - 1], back[j - front.len() - 1]));
        } else {
            if i < front.len() {
                assert(front.contains(front[i]));
            }
            if j > front.len() {
                assert(back.contains(back[j - front.len() - 1]));
            }
        }
    }
}

/// Every accepted submission creates exactly one ping, which is stamped
/// with the time of acceptance and belongs to the machine and the target
/// that the request names; no other ping comes or goes; and afterwards both
/// that machine and that target are marked as seen at a moment that is not
/// before the ping's.
pub proof fn lemma_accepted_ping(
    store: StoreView,
    bearer: Option<Seq<char>>,
    mid: i32,
    tid: i32,
    sample: PingCreate,
    now: i64,
)
    requires
        store.wf(),
        store.record_ping(bearer, mid, tid, sample, now).0 is Ok,
    ensures
        ({
            let (out, after) = store.record_ping(bearer, mid, tid, sample, now);
            let p = out->Ok_0;
            &&& sample.valid()
            &&& p.machine_id == mid && p.target_id == tid && p.created == now
            &&& !store.pings.contains(p)
            &&& after.pings.len() == store.pings.len() + 1
            &&& forall|q: Ping| #[trigger] after.pings.contains(q) <==> q == p || store.pings.contains(q)
            &&& after.machine_by_id(mid) matches Some(m) && m.updated matches Some(seen) && seen
                >= p.created
            &&& after.target_by_id(tid) matches Some(t) && t.updated matches Some(seen) && seen
                >= p.created
        }),
{
    let (out, after) = store.record_ping(bearer, mid, tid, sample, now);
    let p = out->Ok_0;
    lemma_put_ping(store.pings, p);
    assert(!store.pings.contains(p)) by {
        if store.pings.contains(p) {
            let i = choose|i: int| 0 <= i < store.pings.len() && store.pings[i] == p;
            assert(store.pings[i].id < store.next_ping_id);
        }
    }
    let recorded = store.create_ping(sample, mid, tid, now).1;
    assert(recorded.has_machine(mid));
    store.lemma_machine_by_id(mid);
    let m = MachineView { updated: Some(now), ..store.machine(mid) };
    let touched = recorded.touch_machine(mid, now).1;
    assert(touched == recorded.set_machine(m));
    lemma_set_machine(recorded, m);
    assert(touched.has_target(tid));
    store.lemma_target_by_id(tid);
    let t = TargetView { updated: Some(now), ..store.target(tid) };
    assert(after == touched.set_target(t));
    lemma_set_target(touched, t);
}

/// After a machine has been replaced by one of the same id, that one is
/// found under the id.
pub proof fn lemma_set_machine(store: StoreView, m: MachineView)
    requires
        forall|i: int, j: int|
            0 <= i < j < store.machines.len() ==> store.machines[i].id < store.machines[j].id,
        store.has_machine(m.id),
    ensures
        store.set_machine(m).machine_by_id(m.id) == Some(m),
{
    let rows = store.machines;
    let put = store.set_machine(m).machines;
    let k = choose|i: int| 0 <= i < rows.len() && (#[trigger] rows[i]).id == m.id;
    assert(put[k] == m);
    let c = choose|i: int| 0 <= i < put.len() && (#[trigger] put[i]).id == m.id;
    if c < k {
        assert(rows[c].id < rows[k].id);
    } else if c > k {
        assert(rows[k].id < rows[c].id);
    }
}

/// After a target has been replaced by one of the same id, that one is
/// found under the id.
pub proof fn lemma_set_target(store: StoreView, t: TargetView)
    requires
        forall|i: int, j: int|
            0 <= i < j < store.targets.len() ==> store.targets[i].id < store.targets[j].id,
        store.has_target(t.id),
    ensures
        store.set_target(t).target_by_id(t.id) == Some(t),
{
    let rows = store.targets;
    let put = store.set_target(t).targets;
    let k = choose|i: int| 0 <= i < rows.len() && (#[trigger] rows[i]).id == t.id;
    assert(put[k] == t);
    let c = choose|i: int| 0 <= i < put.len() && (#[trigger] put[i]).id == t.id;
    if c < k {
        assert(rows[c].id < rows[k].id);
    } else if c > k {
        assert(rows[k].id < rows[c].id);
    }
}

/// After the sweep at `now` no ping that is older than the retention
/// horizon remains, every ping that is not older is still there, the pings
/// still stand oldest first, and machines and targets are as they were.
pub proof fn lemma_sweep(store: StoreView, now: i64)
    requires
        store.wf(),
    ensures
        ({
            let after = store.expire_pings(now);
            &&& forall|p: Ping| #[trigger]
                after.pings.contains(p) <==> store.pings.contains(p) && p.created >= now
                    - RETENTION_SECONDS
            &&& oldest_first(after.pings)
            &&& after.machines == store.machines
            &&& after.targets == store.targets
        }),
{
    let keep = not_older_than(retention_cutoff(now));
    lemma_filter_members(store.pings, keep);
    lemma_kept_oldest_first(store.pings, keep);
}

/// Pings that are picked from pings standing oldest first still stand
/// oldest first.
pub proof fn lemma_kept_oldest_first(pings: Seq<Ping>, keep: spec_fn(Ping) -> bool)
    requires
        oldest_first(pings),
    ensures
        oldest_first(pings.filter(keep)),
{
    let in_order = |a: Ping, b: Ping| a.created <= b.created;
    assert(pairwise(pings, in_order)) by {
        assert forall|i: int, j: int| 0 <= i < j < pings.len() implies #[trigger] in_order(
            pings[i],
            pings[j],
        ) by {}
    }
    lemma_filter_pairwise(pings, keep, in_order);
    let kept = pings.filter(keep);
    assert forall|i: int, j: int| 0 <= i < j < kept.len() implies kept[i].created
        <= kept[j].created by {
        assert(in_order(kept[i], kept[j]));
    }
}

/// A window query returns exactly the pings of the machine, the target and
/// the address family asked for that are strictly newer than the time of
/// the query less the horizon of the window, and returns them oldest first.
pub proof fn lemma_window_series(
    store: StoreView,
    mid: i32,
    tid: i32,
    delta: Seq<char>,
    ipv6: bool,
    now: i64,
)
    requires
        store.wf(),
    ensures
        ({
            let found = store.window_series(mid, tid, delta, ipv6, now);
            &&& forall|p: Ping| #[trigger]
                found.contains(p) <==> {
                    &&& store.pings.contains(p)
                    &&& p.machine_id == mid
                    &&& p.target_id == tid
                    &&& p.ipv6 == ipv6
                    &&& p.created > now - window_seconds(delta)
                }
            &&& oldest_first(found)
        }),
{
    let keep = in_series(mid, tid, ipv6, now - window_seconds(delta) + 1);
    lemma_filter_members(store.pings, keep);
    lemma_kept_oldest_first(store.pings, keep);
}

/// The seven-day window holds whatever the one-day window holds.
pub proof fn lemma_week_holds_day(
    store: StoreView,
    mid: i32,
    tid: i32,
    other: Seq<char>,
    ipv6: bool,
    now: i64,
)
    requires
        store.wf(),
    ensures
        forall|p: Ping| #[trigger]
            store.window_series(mid, tid, other, ipv6, now).contains(p)
                ==> store.window_series(mid, tid, seq!['7', 'd'], ipv6, now).contains(p),
{
    lemma_window_series(store, mid, tid, other, ipv6, now);
    lemma_window_series(store, mid, tid, seq!['7', 'd'], ipv6, now);
}

/// An administrator who creates a machine under a name that is taken gets a
/// conflict, and the store stays as it was. Only a name of acceptable length
/// gets as far as that.
pub proof fn lemma_create_machine_conflict(
    store: StoreView,
    admin_password: Seq<char>,
    bearer: Option<Seq<char>>,
    form: MachineFields,
    now: i64,
)
    requires
        holds_secret(bearer, admin_password),
        MachineCreate::valid_name(form.name),
        store.has_machine_named(form.name),
    ensures
        store.admin_create_machine(admin_password, bearer, form, now) == (
            Err::<MachineView, ApiError>(ApiError::Conflict),
            store,
        ),
{
}

/// An administrator who creates a machine under a name of acceptable length
/// that is free gets the new machine, which is from then on found under its name and under
/// its id, while every machine that was there before is still there. This
/// holds as long as the store has an id left to give.
pub proof fn lemma_create_machine_visible(
    store: StoreView,
    admin_password: Seq<char>,
    bearer: Option<Seq<char>>,
    form: MachineFields,
    now: i64,
)
    requires
        store.wf(),
        holds_secret(bearer, admin_password),
        MachineCreate::valid_name(form.name),
        !store.has_machine_named(form.name),
        store.next_machine_id < i32::MAX,
    ensures
        ({
            let (out, after) = store.admin_create_machine(admin_password, bearer, form, now);
            &&& out matches Ok(m)
            &&& m.name == form.name && m.ip == form.ip && m.key == form.key
            &&& after.machine_by_name(form.name) == Some(m)
            &&& after.machine_by_id(m.id) == Some(m)
            &&& forall|id: i32| #[trigger]
                store.has_machine(id) ==> after.machine_by_id(id) == store.machine_by_id(id)
        }),
{
    let (out, after) = store.admin_create_machine(admin_password, bearer, form, now);
    let m = out->Ok_0;
    let n = store.machines.len() as int;
    assert(after.machines[n] == m);
    assert forall|i: int| 0 <= i < n implies (#[trigger] after.machines[i]) == store.machines[i]
        && after.machines[i].id != m.id && after.machines[i].name != m.name by {
        assert(store.machines[i].id < store.next_machine_id);
    }
    assert forall|id: i32| #[trigger]
        store.has_machine(id) implies after.machine_by_id(id) == store.machine_by_id(id) by {
        let k = choose|i: int| 0 <= i < n && (#[trigger] store.machines[i]).id == id;
        assert(after.machines[k].id == id);
        let c = choose|i: int| 0 <= i < after.machines.len() && (#[trigger] after.machines[i]).id
            == id;
        assert(c < n);
        if c < k {
            assert(store.machines[c].id < store.machines[k].id);
        } else if c > k {
            assert(store.machines[k].id < store.machines[c].id);
        }
    }
}

/// Deleting a machine removes it and every ping of it: afterwards no lookup
/// finds the machine, no ping of it is left in the store or in any series,
/// and every ping of another machine is still there.
pub proof fn lemma_delete_machine_cascades(store: StoreView, id: i32)
    requires
        store.wf(),
    ensures
        ({
            let after = store.drop_machine(id);
            &&& !after.has_machine(id)
            &&& forall|p: Ping| #[trigger]
                after.pings.contains(p) <==> store.pings.contains(p) && p.machine_id != id
            &&& forall|tid: i32, ipv6: bool, from: int| #[trigger]
                after.series(id, tid, ipv6, from).len() == 0
            &&& after.targets == store.targets
        }),
{
    let after = store.drop_machine(id);
    lemma_filter_members(store.machines, other_machine(id));
    lemma_filter_members(store.pings, not_of_machine(id));
    assert(!after.has_machine(id)) by {
        if after.has_machine(id) {
            let i = choose|i: int|
                0 <= i < after.machines.len() && (#[trigger] after.machines[i]).id == id;
            assert(after.machines.contains(after.machines[i]));
        }
    }
    assert forall|tid: i32, ipv6: bool, from: int| #[trigger]
        after.series(id, tid, ipv6, from).len() == 0 by {
        let found = after.series(id, tid, ipv6, from);
        lemma_filter_members(after.pings, in_series(id, tid, ipv6, from));
        if found.len() > 0 {
            assert(found.contains(found[0]));
        }
    }
}

/// Deleting a target removes it and every ping against it: afterwards no
/// lookup finds the target, no ping against it is left in the store or in
/// any series, and every ping against another target is still there.
pub proof fn lemma_delete_target_cascades(store: StoreView, id: i32)
    requires
        store.wf(),
    ensures
        ({
            let after = store.drop_target(id);
            &&& !after.has_target(id)
            &&& forall|p: Ping| #[trigger]
                after.pings.contains(p) <==> store.pings.contains(p) && p.target_id != id
            &&& forall|mid: i32, ipv6: bool, from: int| #[trigger]
                after.series(mid, id, ipv6, from).len() == 0
            &&& after.machines == store.machines
        }),
{
    let after = store.drop_target(id);
    lemma_filter_members(store.targets, other_target(id));
    lemma_filter_members(store.pings, not_of_target(id));
    assert(!after.has_target(id)) by {
        if after.has_target(id) {
            let i = choose|i: int|
                0 <= i < after.targets.len() && (#[trigger] after.targets[i]).id == id;
            assert(after.targets.contains(after.targets[i]));
        }
    }
    assert forall|mid: i32, ipv6: bool, from: int| #[trigger]
        after.series(mid, id, ipv6, from).len() == 0 by {
        let found = after.series(mid, id, ipv6, from);
        lemma_filter_members(after.pings, in_series(mid, id, ipv6, from));
        if found.len() > 0 {
            assert(found.contains(found[0]));
        }
    }
}

/// The public view of a machine does not depend on its key.
pub proof fn lemma_public_view_hides_key(m: MachineView, other_key: Seq<char>)
    ensures
        public_machine(m) == public_machine(
            MachineView { key: other_key, ..m },
        ),
{
}

/// Replaying saved pings loses none and adds none, and leaves them oldest
/// first.
pub proof fn lemma_replay_pings(pings: Seq<Ping>)
    ensures
        replay_pings(pings).len() == pings.len(),
        forall|p: Ping| #[trigger] replay_pings(pings).contains(p) <==> pings.contains(p),
        oldest_first(replay_pings(pings)),
    decreases pings.len(),
{
    if pings.len() > 0 {
        let head = pings.drop_last();
        let last = pings.last();
        lemma_replay_pings(head);
        lemma_put_ping(replay_pings(head), last);
        assert forall|p: Ping| #[trigger] replay_pings(pings).contains(p) <==> pings.contains(
            p,
        ) by {
            if pings.contains(p) {
                let i = choose|i: int| 0 <= i < pings.len() && pings[i] == p;
                if i < head.len() {
                    assert(head[i] == p);
                    assert(head.contains(p));
                }
            }
            if head.contains(p) {
                let i = choose|i: int| 0 <= i < head.len() && head[i] == p;
                assert(pings[i] == p);
            }
            if p == last {
                assert(pings[pings.len() - 1] == p);
            }
        }
    }
}

/// Saved rows that can make up a store make up one that keeps its invariant.
pub proof fn lemma_restored_store(
    machines: Seq<MachineView>,
    targets: Seq<TargetView>,
    pings: Seq<Ping>,
)
    requires
        restorable(machines, targets, pings),
    ensures
        restored(machines, targets, pings).wf(),
{
    let whole = restored(machines, targets, pings);
    lemma_replay_pings(pings);
    assert forall|i: int| 0 <= i < machines.len() implies (#[trigger] whole.machines[i]).id
        < whole.next_machine_id by {
        if i < machines.len() - 1 {
            assert(machines[i].id < machines[machines.len() - 1].id);
        }
    }
    assert forall|i: int| 0 <= i < targets.len() implies (#[trigger] whole.targets[i]).id
        < whole.next_target_id by {
        if i < targets.len() - 1 {
            assert(targets[i].id < targets[targets.len() - 1].id);
        }
    }
    assert forall|k: int| 0 <= k < whole.pings.len() implies 0 < (#[trigger] whole.pings[k]).id
        < whole.next_ping_id && whole.has_machine(whole.pings[k].machine_id) && whole.has_target(
        whole.pings[k].target_id,
    ) by {
        let p = whole.pings[k];
        assert(whole.pings.contains(p));
        assert(pings.contains(p));
        let i = choose|i: int| 0 <= i < pings.len() && pings[i] == p;
        if i < pings.len() - 1 {
            assert(pings[i].id < pings[pings.len() - 1].id);
        }
    }
    lemma_replay_distinct(pings);
}

/// Replayed pings of distinct ids have distinct ids.
pub proof fn lemma_replay_distinct(pings: Seq<Ping>)
    requires
        forall|i: int, j: int| 0 <= i < j < pings.len() ==> pings[i].id < pings[j].id,
    ensures
        forall|i: int, j: int|
            0 <= i < j < replay_pings(pings).len() ==> replay_pings(pings)[i].id != replay_pings(
                pings,
            )[j].id,
    decreases pings.len(),
{
    if pings.len() > 0 {
        let head = pings.drop_last();
        let last = pings.last();
        assert forall|i: int, j: int| 0 <= i < j < head.len() implies head[i].id < head[j].id by {
            assert(pings[i].id < pings[j].id);
        }
        lemma_replay_distinct(head);
        lemma_replay_pings(head);
        let before = replay_pings(head);
        let at = last.created as int;
        let front = before.filter(not_newer_than(at));
        let back = before.filter(newer_than(at));
        let all = replay_pings(pings);
        let apart = |a: Ping, b: Ping| a.id != b.id;
        assert(pairwise(before, apart)) by {
            assert forall|i: int, j: int| 0 <= i < j < before.len() implies #[trigger] apart(
                before[i],
                before[j],
            ) by {}
        }
        lemma_filter_pairwise(before, not_newer_than(at), apart);
        lemma_filter_pairwise(before, newer_than(at), apart);
        lemma_filter_members(before, not_newer_than(at));
        lemma_filter_members(before, newer_than(at));
        assert forall|q: Ping| before.contains(q) implies q.id != last.id by {
            assert(head.contains(q));
            let i = choose|i: int| 0 <= i < head.len() && head[i] == q;
            assert(pings[i].id < pings[pings.len() - 1].id);
        }
        assert forall|i: int, j: int| 0 <= i < j < all.len() implies all[i].id != all[j].id by {
            let a = all[i];
            let b = all[j];
            if j < front.len() {
                assert(apart(front[i], front[j]));
            } else if i > front.len() {
                assert(apart(back[i - front.len() - 1], back[j - front.len() - 1]));
            } else if i == front.len() {
                assert(back.contains(back[j - front.len() - 1]));
            } else if j == front.len() {
                assert(front.contains(front[i]));
            } else {
                // One from the front, one from the back: the first is not
                // newer than `at`, the second is.
                assert(front.contains(front[i]));
                assert(back.contains(back[j - front.len() - 1]));
                assert(before.contains(a));
                assert(before.contains(b));
                assert(a != b);
                let x = choose|x: int| 0 <= x < before.len() && before[x] == a;
                let y = choose|y: int| 0 <= y < before.len() && before[y] == b;
                if x < y {
                    assert(before[x].id != before[y].id);
                } else if y < x {
                    assert(before[y].id != before[x].id);
                }
            }
        }
    }
}

/// Whatever way a machine comes into being or is renamed through a
/// request, its name has an acceptable length.
pub proof fn lemma_request_names_bounded(
    store: StoreView,
    secret: Seq<char>,
    bearer: Option<Seq<char>>,
    mid: i32,
    form: MachineFields,
    now: i64,
)
    requires
        store.wf(),
    ensures
        store.register_machine(secret, bearer, form.ip, form.name, now).0 matches Ok(m)
            ==> MachineCreate::valid_name(m.name),
        store.admin_create_machine(secret, bearer, form, now).0 matches Ok(m)
            ==> MachineCreate::valid_name(m.name),
        store.admin_edit_machine(secret, bearer, mid, form).0 matches Ok(m)
            ==> MachineCreate::valid_name(m.name),
{
    if store.register_machine(secret, bearer, form.ip, form.name, now).0 is Ok {
        if store.has_machine_named(form.name) {
            store.lemma_machine_by_name(form.name);
        }
    }
}

} // verus!
