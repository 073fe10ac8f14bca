//! The identity store: the one owner of every machine, target and ping.
//!
//! Rows get their ids from per-table counters that only grow. Names are
//! unique per table, a ping always points at an existing machine and target,
//! and deleting a parent deletes its pings with it.

use vstd::prelude::*;

use crate::entity::{Machine, MachineView, Ping, Target, TargetView};
use crate::error::StoreError;
use crate::seqs::{
    lemma_filter_all, lemma_filter_members, lemma_filter_next, lemma_filter_pairwise,
    lemma_filter_prefix, lemma_filter_removes, lemma_filter_suffix, pairwise,
};
use crate::text::str_eq;
use crate::views::{opt_view, rows};

verus! {

/// What the store holds, as mathematical values.
pub struct StoreView {
    /// The machines, by ascending id.
    pub machines: Seq<MachineView>,
    /// The targets, by ascending id.
    pub targets: Seq<TargetView>,
    /// The pings, oldest first.
    pub pings: Seq<Ping>,
    /// The id that the next machine gets.
    pub next_machine_id: i32,
    /// The id that the next target gets.
    pub next_target_id: i32,
    /// The id that the next ping gets.
    pub next_ping_id: i32,
}

/// The pings that do not belong to machine `id`.
pub open spec fn not_of_machine(id: i32) -> spec_fn(Ping) -> bool {
    |p: Ping| p.machine_id != id
}

/// The pings that do not belong to target `id`.
pub open spec fn not_of_target(id: i32) -> spec_fn(Ping) -> bool {
    |p: Ping| p.target_id != id
}

/// The machines other than machine `id`.
pub open spec fn other_machine(id: i32) -> spec_fn(MachineView) -> bool {
    |m: MachineView| m.id != id
}

/// The targets other than target `id`.
pub open spec fn other_target(id: i32) -> spec_fn(TargetView) -> bool {
    |t: TargetView| t.id != id
}

/// The pings taken in at `cutoff` or later.
pub open spec fn not_older_than(cutoff: int) -> spec_fn(Ping) -> bool {
    |p: Ping| p.created >= cutoff
}

/// The pings taken in at `moment` or earlier.
pub open spec fn not_newer_than(moment: int) -> spec_fn(Ping) -> bool {
    |p: Ping| p.created <= moment
}

/// The pings taken in after `moment`.
pub open spec fn newer_than(moment: int) -> spec_fn(Ping) -> bool {
    |p: Ping| p.created > moment
}

/// The pings of one machine against one target over one address family,
/// taken in at `from` or later.
pub open spec fn in_series(machine_id: i32, target_id: i32, ipv6: bool, from: int) -> spec_fn(
    Ping,
) -> bool {
    |p: Ping|
        p.machine_id == machine_id && p.target_id == target_id && p.ipv6 == ipv6 && p.created
            >= from
}

/// Whether the pings stand oldest first.
pub open spec fn oldest_first(pings: Seq<Ping>) -> bool {
    forall|i: int, j: int| 0 <= i < j < pings.len() ==> pings[i].created <= pings[j].created
}

/// `m` in place of the machine that has its id.
pub open spec fn put_machine(rows: Seq<MachineView>, m: MachineView) -> Seq<MachineView> {
    rows.map_values(
        |row: MachineView|
            if row.id == m.id {
                m
            } else {
                row
            },
    )
}

/// `t` in place of the target that has its id.
pub open spec fn put_target(rows: Seq<TargetView>, t: TargetView) -> Seq<TargetView> {
    rows.map_values(
        |row: TargetView|
            if row.id == t.id {
                t
            } else {
                row
            },
    )
}

/// `p` put among pings that stand oldest first: behind every ping that is
/// not newer, before every ping that is.
pub open spec fn put_ping(pings: Seq<Ping>, p: Ping) -> Seq<Ping> {
    pings.filter(not_newer_than(p.created as int)).push(p) + pings.filter(
        newer_than(p.created as int),
    )
}

impl StoreView {
    /// The store with no rows, whose counters stand at 1.
    pub open spec fn empty() -> StoreView {
        StoreView {
            machines: Seq::empty(),
            targets: Seq::empty(),
            pings: Seq::empty(),
            next_machine_id: 1,
            next_target_id: 1,
            next_ping_id: 1,
        }
    }

    /// Whether a machine has this id.
    pub open spec fn has_machine(self, id: i32) -> bool {
        exists|i: int| 0 <= i < self.machines.len() && (#[trigger] self.machines[i]).id == id
    }

    /// The machine with this id, where there is one.
    pub open spec fn machine(self, id: i32) -> MachineView {
        self.machines[choose|i: int|
            0 <= i < self.machines.len() && (#[trigger] self.machines[i]).id == id]
    }

    /// The machine with this id, if any.
    pub open spec fn machine_by_id(self, id: i32) -> Option<MachineView> {
        if self.has_machine(id) {
            Some(self.machine(id))
        } else {
            None
        }
    }

    /// Whether a machine has this name.
    pub open spec fn has_machine_named(self, name: Seq<char>) -> bool {
        exists|i: int| 0 <= i < self.machines.len() && (#[trigger] self.machines[i]).name == name
    }

    /// The machine with this name, if any.
    pub open spec fn machine_by_name(self, name: Seq<char>) -> Option<MachineView> {
        if self.has_machine_named(name) {
            Some(
                self.machines[choose|i: int|
                    0 <= i < self.machines.len() && (#[trigger] self.machines[i]).name == name],
            )
        } else {
            None
        }
    }

    /// Whether a machine other than machine `id` has this name.
    pub open spec fn machine_name_taken(self, id: i32, name: Seq<char>) -> bool {
        exists|i: int|
            0 <= i < self.machines.len() && (#[trigger] self.machines[i]).name == name
                && self.machines[i].id != id
    }

    /// Whether a target has this id.
    pub open spec fn has_target(self, id: i32) -> bool {
        exists|i: int| 0 <= i < self.targets.len() && (#[trigger] self.targets[i]).id == id
    }

    /// The target with this id, where there is one.
    pub open spec fn target(self, id: i32) -> TargetView {
        self.targets[choose|i: int|
            0 <= i < self.targets.len() && (#[trigger] self.targets[i]).id == id]
    }

    /// The target with this id, if any.
    pub open spec fn target_by_id(self, id: i32) -> Option<TargetView> {
        if self.has_target(id) {
            Some(self.target(id))
        } else {
            None
        }
    }

    /// Whether a target has this name.
    pub open spec fn has_target_named(self, name: Seq<char>) -> bool {
        exists|i: int| 0 <= i < self.targets.len() && (#[trigger] self.targets[i]).name == name
    }

    /// The target with this name, if any.
    pub open spec fn target_by_name(self, name: Seq<char>) -> Option<TargetView> {
        if self.has_target_named(name) {
            Some(
                self.targets[choose|i: int|
                    0 <= i < self.targets.len() && (#[trigger] self.targets[i]).name == name],
            )
        } else {
            None
        }
    }

    /// Whether a target other than target `id` has this name.
    pub open spec fn target_name_taken(self, id: i32, name: Seq<char>) -> bool {
        exists|i: int|
            0 <= i < self.targets.len() && (#[trigger] self.targets[i]).name == name
                && self.targets[i].id != id
    }

    /// The invariant of the store.
    pub open spec fn wf(self) -> bool {
        &&& 1 <= self.next_machine_id
        &&& 1 <= self.next_target_id
        &&& 1 <= self.next_ping_id
        &&& forall|i: int|
            0 <= i < self.machines.len() ==> 0 < (#[trigger] self.machines[i]).id
                < self.next_machine_id
        &&& forall|i: int, j: int|
            0 <= i < j < self.machines.len() ==> self.machines[i].id < self.machines[j].id
        &&& forall|i: int, j: int|
            0 <= i < j < self.machines.len() ==> self.machines[i].name != self.machines[j].name
        &&& forall|i: int|
            0 <= i < self.targets.len() ==> 0 < (#[trigger] self.targets[i]).id
                < self.next_target_id
        &&& forall|i: int, j: int|
            0 <= i < j < self.targets.len() ==> self.targets[i].id < self.targets[j].id
        &&& forall|i: int, j: int|
            0 <= i < j < self.targets.len() ==> self.targets[i].name != self.targets[j].name
        &&& forall|k: int|
            0 <= k < self.pings.len() ==> 0 < (#[trigger] self.pings[k]).id < self.next_ping_id
        &&& forall|i: int, j: int|
            0 <= i < j < self.pings.len() ==> self.pings[i].id != self.pings[j].id
        &&& oldest_first(self.pings)
        &&& forall|k: int|
            0 <= k < self.pings.len() ==> self.has_machine((#[trigger] self.pings[k]).machine_id)
                && self.has_target(self.pings[k].target_id)
    }

    /// The store after a new machine has been appended.
    pub open spec fn add_machine(self, m: MachineView) -> StoreView {
        StoreView {
            machines: self.machines.push(m),
            next_machine_id: (m.id + 1) as i32,
            ..self
        }
    }

    /// The store after a new target has been appended.
    pub open spec fn add_target(self, t: TargetView) -> StoreView {
        StoreView { targets: self.targets.push(t), next_target_id: (t.id + 1) as i32, ..self }
    }

    /// The store after a new ping has been put in its place.
    pub open spec fn add_ping(self, p: Ping) -> StoreView {
        StoreView { pings: put_ping(self.pings, p), next_ping_id: (p.id + 1) as i32, ..self }
    }

    /// The store after `m` has taken the place of the machine with its id.
    pub open spec fn set_machine(self, m: MachineView) -> StoreView {
        StoreView { machines: put_machine(self.machines, m), ..self }
    }

    /// The store after `t` has taken the place of the target with its id.
    pub open spec fn set_target(self, t: TargetView) -> StoreView {
        StoreView { targets: put_target(self.targets, t), ..self }
    }

    /// The store without machine `id` and without the pings of that machine.
    pub open spec fn drop_machine(self, id: i32) -> StoreView {
        StoreView {
            machines: self.machines.filter(other_machine(id)),
            pings: self.pings.filter(not_of_machine(id)),
            ..self
        }
    }

    /// The store without target `id` and without the pings against that target.
    pub open spec fn drop_target(self, id: i32) -> StoreView {
        StoreView {
            targets: self.targets.filter(other_target(id)),
            pings: self.pings.filter(not_of_target(id)),
            ..self
        }
    }

    /// The store without the pings taken in before `cutoff`.
    pub open spec fn drop_pings_before(self, cutoff: int) -> StoreView {
        StoreView { pings: self.pings.filter(not_older_than(cutoff)), ..self }
    }

    /// The pings of one machine against one target over one address family,
    /// taken in at `from` or later, oldest first.
    pub open spec fn series(self, machine_id: i32, target_id: i32, ipv6: bool, from: int) -> Seq<
        Ping,
    > {
        self.pings.filter(in_series(machine_id, target_id, ipv6, from))
    }
}

impl StoreView {
    /// In a store that keeps its invariant the machine found under an id has
    /// that id, and no other machine has its name.
    pub proof fn lemma_machine_by_id(self, id: i32)
        requires
            self.wf(),
            self.has_machine(id),
        ensures
            self.machine(id).id == id,
            self.machines.contains(self.machine(id)),
            !self.machine_name_taken(id, self.machine(id).name),
    {
        let k = choose|i: int| 0 <= i < self.machines.len() && (#[trigger] self.machines[i]).id == id;
        assert(self.machines[k] == self.machine(id));
        assert forall|i: int|
            0 <= i < self.machines.len() && (#[trigger] self.machines[i]).name == self.machine(
                id,
            ).name implies self.machines[i].id == id by {
            if i < k {
                assert(self.machines[i].name != self.machines[k].name);
            } else if i > k {
                assert(self.machines[k].name != self.machines[i].name);
            }
        }
    }

    /// In a store that keeps its invariant the machine found under a name has
    /// that name and is the one found under its own id.
    pub proof fn lemma_machine_by_name(self, name: Seq<char>)
        requires
            self.wf(),
            self.has_machine_named(name),
        ensures
            self.machine_by_name(name) matches Some(m) && m.name == name && self.machine_by_id(m.id)
                == Some(m),
    {
        let k = choose|i: int|
            0 <= i < self.machines.len() && (#[trigger] self.machines[i]).name == name;
        let id = self.machines[k].id;
        let c = choose|i: int| 0 <= i < self.machines.len() && (#[trigger] self.machines[i]).id == id;
        if c < k {
            assert(self.machines[c].id < self.machines[k].id);
        } else if c > k {
            assert(self.machines[k].id < self.machines[c].id);
        }
    }

    /// In a store that keeps its invariant the target found under an id has
    /// that id, and no other target has its name.
    pub proof fn lemma_target_by_id(self, id: i32)
        requires
            self.wf(),
            self.has_target(id),
        ensures
            self.target(id).id == id,
            self.targets.contains(self.target(id)),
            !self.target_name_taken(id, self.target(id).name),
    {
        let k = choose|i: int| 0 <= i < self.targets.len() && (#[trigger] self.targets[i]).id == id;
        assert(self.targets[k] == self.target(id));
        assert forall|i: int|
            0 <= i < self.targets.len() && (#[trigger] self.targets[i]).name == self.target(
                id,
            ).name implies self.targets[i].id == id by {
            if i < k {
                assert(self.targets[i].name != self.targets[k].name);
            } else if i > k {
                assert(self.targets[k].name != self.targets[i].name);
            }
        }
    }

    /// In a store that keeps its invariant the target found under a name has
    /// that name and is the one found under its own id.
    pub proof fn lemma_target_by_name(self, name: Seq<char>)
        requires
            self.wf(),
            self.has_target_named(name),
        ensures
            self.target_by_name(name) matches Some(t) && t.name == name && self.target_by_id(t.id)
                == Some(t),
    {
        let k = choose|i: int|
            0 <= i < self.targets.len() && (#[trigger] self.targets[i]).name == name;
        let id = self.targets[k].id;
        let c = choose|i: int| 0 <= i < self.targets.len() && (#[trigger] self.targets[i]).id == id;
        if c < k {
            assert(self.targets[c].id < self.targets[k].id);
        } else if c > k {
            assert(self.targets[k].id < self.targets[c].id);
        }
    }
}

/// The id that follows those of machines standing by ascending id.
pub open spec fn next_after_machines(rows: Seq<MachineView>) -> int {
    if rows.len() == 0 {
        1
    } else {
        rows.last().id + 1
    }
}

/// The id that follows those of targets standing by ascending id.
pub open spec fn next_after_targets(rows: Seq<TargetView>) -> int {
    if rows.len() == 0 {
        1
    } else {
        rows.last().id + 1
    }
}

/// The id that follows those of pings standing by ascending id.
pub open spec fn next_after_pings(pings: Seq<Ping>) -> int {
    if pings.len() == 0 {
        1
    } else {
        pings.last().id + 1
    }
}

/// Pings put into an empty table one after the other, each behind every
/// ping that is not newer: the same pings, oldest first, with pings of
/// the same moment in the order in which they came.
pub open spec fn replay_pings(pings: Seq<Ping>) -> Seq<Ping>
    decreases pings.len(),
{
    if pings.len() == 0 {
        Seq::empty()
    } else {
        put_ping(replay_pings(pings.drop_last()), pings.last())
    }
}

/// The store that saved rows make up.
pub open spec fn restored(
    machines: Seq<MachineView>,
    targets: Seq<TargetView>,
    pings: Seq<Ping>,
) -> StoreView {
    StoreView {
        machines,
        targets,
        pings: replay_pings(pings),
        next_machine_id: next_after_machines(machines) as i32,
        next_target_id: next_after_targets(targets) as i32,
        next_ping_id: next_after_pings(pings) as i32,
    }
}

/// Whether saved machines can stand in a store: they stand by ascending id,
/// every id is positive and leaves room for a next one, and no two share a
/// name.
pub open spec fn machines_restorable(machines: Seq<MachineView>) -> bool {
    &&& forall|i: int| 0 <= i < machines.len() ==> 0 < (#[trigger] machines[i]).id < i32::MAX
    &&& forall|i: int, j: int| 0 <= i < j < machines.len() ==> machines[i].id < machines[j].id
    &&& forall|i: int, j: int| 0 <= i < j < machines.len() ==> machines[i].name != machines[j].name
}

/// Whether saved targets can stand in a store: they stand by ascending id,
/// every id is positive and leaves room for a next one, and no two share a
/// name.
pub open spec fn targets_restorable(targets: Seq<TargetView>) -> bool {
    &&& forall|i: int| 0 <= i < targets.len() ==> 0 < (#[trigger] targets[i]).id < i32::MAX
    &&& forall|i: int, j: int| 0 <= i < j < targets.len() ==> targets[i].id < targets[j].id
    &&& forall|i: int, j: int| 0 <= i < j < targets.len() ==> targets[i].name != targets[j].name
}

/// Whether saved pings can stand in a store beside the given machines and
/// targets: they stand by ascending id, every id is positive and leaves
/// room for a next one, and every ping points at a machine and a target
/// that are there.
pub open spec fn pings_restorable(
    machines: Seq<MachineView>,
    targets: Seq<TargetView>,
    pings: Seq<Ping>,
) -> bool {
    &&& forall|k: int| 0 <= k < pings.len() ==> 0 < (#[trigger] pings[k]).id < i32::MAX
    &&& forall|i: int, j: int| 0 <= i < j < pings.len() ==> pings[i].id < pings[j].id
    &&& forall|k: int|
        0 <= k < pings.len() ==> restored(machines, targets, pings).has_machine(
            (#[trigger] pings[k]).machine_id,
        ) && restored(machines, targets, pings).has_target(pings[k].target_id)
}

/// Whether saved rows can make up a store.
pub open spec fn restorable(
    machines: Seq<MachineView>,
    targets: Seq<TargetView>,
    pings: Seq<Ping>,
) -> bool {
    &&& machines_restorable(machines)
    &&& targets_restorable(targets)
    &&& pings_restorable(machines, targets, pings)
}

/// A choice of pings.
enum PingChoice {
    /// Every ping but those of one machine.
    NotOfMachine(i32),
    /// Every ping but those against one target.
    NotOfTarget(i32),
    /// The pings taken in at a moment or later.
    NotOlderThan(i64),
    /// The pings of one machine against one target over one address family
    /// that were taken in at a moment or later.
    Series(i32, i32, bool, i64),
}

impl PingChoice {
    /// The pings that the choice picks.
    spec fn picks(self) -> spec_fn(Ping) -> bool {
        match self {
            PingChoice::NotOfMachine(id) => not_of_machine(id),
            PingChoice::NotOfTarget(id) => not_of_target(id),
            PingChoice::NotOlderThan(cutoff) => not_older_than(cutoff as int),
            PingChoice::Series(machine_id, target_id, ipv6, from) => in_series(
                machine_id,
                target_id,
                ipv6,
                from as int,
            ),
        }
    }

    /// Whether the choice picks `p`.
    fn picked(&self, p: &Ping) -> (yes: bool)
        ensures
            yes == (self.picks())(*p),
    {
        match self {
            PingChoice::NotOfMachine(id) => p.machine_id != *id,
            PingChoice::NotOfTarget(id) => p.target_id != *id,
            PingChoice::NotOlderThan(cutoff) => p.created >= *cutoff,
            PingChoice::Series(machine_id, target_id, ipv6, from) => p.machine_id == *machine_id
                && p.target_id == *target_id && p.ipv6 == *ipv6 && p.created >= *from,
        }
    }
}

/// The pings of `pings` that `choice` picks, in their order.
fn pick_pings(pings: &Vec<Ping>, choice: &PingChoice) -> (kept: Vec<Ping>)
    ensures
        kept@ == pings@.filter(choice.picks()),
{
    let mut kept: Vec<Ping> = Vec::new();
    let mut k: usize = 0;
    proof {
        assert(pings@.take(0) =~= Seq::<Ping>::empty());
        lemma_filter_all(pings@.take(0), choice.picks());
    }
    while k < pings.len()
        invariant
            k <= pings.len(),
            kept@ == pings@.take(k as int).filter(choice.picks()),
        decreases pings.len() - k,
    {
        proof {
            lemma_filter_next(pings@, k as int, choice.picks());
        }
        if choice.picked(&pings[k]) {
            kept.push(pings[k]);
        }
        k += 1;
    }
    assert(pings@.take(k as int) =~= pings@);
    kept
}

/// Pings that are picked out of a well-kept table are themselves well kept:
/// their ids stay in range and distinct, they stay oldest first, and each of
/// them was in the table and passes the filter.
proof fn lemma_picked_pings(pings: Seq<Ping>, pred: spec_fn(Ping) -> bool, next: i32)
    requires
        forall|k: int| 0 <= k < pings.len() ==> 0 < (#[trigger] pings[k]).id < next,
        forall|i: int, j: int| 0 <= i < j < pings.len() ==> pings[i].id != pings[j].id,
        oldest_first(pings),
    ensures
        forall|k: int|
            0 <= k < pings.filter(pred).len() ==> 0 < (#[trigger] pings.filter(pred)[k]).id
                < next,
        forall|i: int, j: int|
            0 <= i < j < pings.filter(pred).len() ==> pings.filter(pred)[i].id != pings.filter(
                pred,
            )[j].id,
        oldest_first(pings.filter(pred)),
        forall|k: int|
            0 <= k < pings.filter(pred).len() ==> pings.contains(
                #[trigger] pings.filter(pred)[k],
            ) && pred(pings.filter(pred)[k]),
{
    let kept = pings.filter(pred);
    lemma_filter_members(pings, pred);
    assert forall|k: int| 0 <= k < kept.len() implies pings.contains(#[trigger] kept[k])
        && pred(kept[k]) && 0 < kept[k].id < next by {
        assert(kept.contains(kept[k]));
        let i = choose|i: int| 0 <= i < pings.len() && pings[i] == kept[k];
        assert(0 < pings[i].id < next);
    }
    let apart = |a: Ping, b: Ping| a.id != b.id;
    let in_order = |a: Ping, b: Ping| a.created <= b.created;
    assert(pairwise(pings, apart)) by {
        assert forall|i: int, j: int| 0 <= i < j < pings.len() implies #[trigger] apart(
            pings[i],
            pings[j],
        ) by {}
    }
    assert(pairwise(pings, in_order)) by {
        assert forall|i: int, j: int| 0 <= i < j < pings.len() implies #[trigger] in_order(
            pings[i],
            pings[j],
        ) by {}
    }
    lemma_filter_pairwise(pings, pred, apart);
    lemma_filter_pairwise(pings, pred, in_order);
    assert forall|i: int, j: int| 0 <= i < j < kept.len() implies kept[i].id != kept[j].id
        && kept[i].created <= kept[j].created by {
        assert(apart(kept[i], kept[j]));
        assert(in_order(kept[i], kept[j]));
    }
}

/// The identity store.
pub struct Store {
    machines: Vec<Machine>,
    targets: Vec<Target>,
    pings: Vec<Ping>,
    next_machine_id: i32,
    next_target_id: i32,
    next_ping_id: i32,
}

impl View for Store {
    type V = StoreView;

    closed spec fn view(&self) -> StoreView {
        StoreView {
            machines: rows(self.machines@),
            targets: rows(self.targets@),
            pings: self.pings@,
            next_machine_id: self.next_machine_id,
            next_target_id: self.next_target_id,
            next_ping_id: self.next_ping_id,
        }
    }
}

impl Store {
    /// Whether the store keeps its invariant.
    pub open spec fn wf(&self) -> bool {
        self@.wf()
    }

    /// A store without rows.
    pub fn new() -> (store: Store)
        ensures
            store.wf(),
            store@ == StoreView::empty(),
    {
        let store = Store {
            machines: Vec::new(),
            targets: Vec::new(),
            pings: Vec::new(),
            next_machine_id: 1,
            next_target_id: 1,
            next_ping_id: 1,
        };
        assert(rows(store.machines@) =~= Seq::empty());
        assert(rows(store.targets@) =~= Seq::empty());
        assert(store.pings@ =~= Seq::empty());
        store
    }

    /// Makes a store out of saved rows, where they can make up one; see
    /// `restorable`. The counters stand behind the highest id of each table,
    /// so that no id is handed out twice.
    pub fn restore(machines: &Vec<Machine>, targets: &Vec<Target>, pings: &Vec<Ping>) -> (out:
        Option<Store>)
        ensures
            match out {
                Some(store) => {
                    &&& restorable(rows(machines@), rows(targets@), pings@)
                    &&& store.wf()
                    &&& store@ == restored(rows(machines@), rows(targets@), pings@)
                },
                None => !restorable(rows(machines@), rows(targets@), pings@),
            },
    {
        let mut store = Store::new();
        if !store.load_machines(machines) {
            return None;
        }
        if !store.load_targets(targets) {
            return None;
        }
        if !store.load_pings(pings) {
            return None;
        }
        Some(store)
    }

    /// Takes saved machines into a store that holds nothing yet; says whether
    /// they could stand there.
    fn load_machines(&mut self, machines: &Vec<Machine>) -> (ok: bool)
        requires
            old(self)@ == StoreView::empty(),
        ensures
            ok == machines_restorable(rows(machines@)),
            ok ==> final(self).wf() && final(self)@ == restored(
                rows(machines@),
                Seq::empty(),
                Seq::empty(),
            ),
    {
        let ghost all = rows(machines@);
        let mut k: usize = 0;
        assert(all.take(0) =~= Seq::empty());
        while k < machines.len()
            invariant
                k <= machines.len(),
                all == rows(machines@),
                self.wf(),
                self@ == restored(all.take(k as int), Seq::empty(), Seq::empty()),
            decreases machines.len() - k,
        {
            let row = machines[k].clone();
            let ghost seen = all.take(k as int);
            assert(row@ == all[k as int]);
            if row.id < self.next_machine_id || row.id == i32::MAX {
                proof {
                    if k > 0 && row.id != i32::MAX {
                        assert(seen.last() == all[k - 1]);
                        assert(!(all[k - 1].id < all[k as int].id));
                    }
                }
                return false;
            }
            match self.machine_index_by_name(row.name.as_str()) {
                Some(j) => {
                    proof {
                        assert(seen[j as int] == all[j as int]);
                        assert(all[j as int].name == all[k as int].name);
                    }
                    return false;
                },
                None => {},
            }
            self.append_machine(row);
            assert(all.take(k + 1) =~= seen.push(all[k as int]));
            k += 1;
        }
        proof {
            assert(all.take(k as int) =~= all);
            assert forall|i: int| 0 <= i < all.len() implies 0 < (#[trigger] all[i]).id
                < i32::MAX by {
                assert(self@.machines[i].id < self@.next_machine_id);
            }
        }
        true
    }

    /// Takes saved targets into a store that holds no targets and no pings
    /// yet; says whether they could stand there.
    fn load_targets(&mut self, targets: &Vec<Target>) -> (ok: bool)
        requires
            old(self).wf(),
            old(self)@ == restored(old(self)@.machines, Seq::empty(), Seq::empty()),
        ensures
            ok == targets_restorable(rows(targets@)),
            ok ==> final(self).wf() && final(self)@ == restored(
                old(self)@.machines,
                rows(targets@),
                Seq::empty(),
            ),
    {
        let ghost all = rows(targets@);
        let ghost machines = self@.machines;
        let mut k: usize = 0;
        assert(all.take(0) =~= Seq::empty());
        while k < targets.len()
            invariant
                k <= targets.len(),
                all == rows(targets@),
                self.wf(),
                machines == old(self)@.machines,
                self@ == restored(machines, all.take(k as int), Seq::empty()),
            decreases targets.len() - k,
        {
            let row = targets[k].clone();
            let ghost seen = all.take(k as int);
            assert(row@ == all[k as int]);
            if row.id < self.next_target_id || row.id == i32::MAX {
                proof {
                    if k > 0 && row.id != i32::MAX {
                        assert(seen.last() == all[k - 1]);
                        assert(!(all[k - 1].id < all[k as int].id));
                    }
                }
                return false;
            }
            match self.target_index_by_name(row.name.as_str()) {
                Some(j) => {
                    proof {
                        assert(seen[j as int] == all[j as int]);
                        assert(all[j as int].name == all[k as int].name);
                    }
                    return false;
                },
                None => {},
            }
            self.append_target(row);
            assert(all.take(k + 1) =~= seen.push(all[k as int]));
            k += 1;
        }
        proof {
            assert(all.take(k as int) =~= all);
            assert forall|i: int| 0 <= i < all.len() implies 0 < (#[trigger] all[i]).id
                < i32::MAX by {
                assert(self@.targets[i].id < self@.next_target_id);
            }
        }
        true
    }

    /// Takes saved pings into a store that holds no pings yet; says whether
    /// they could stand there.
    fn load_pings(&mut self, pings: &Vec<Ping>) -> (ok: bool)
        requires
            old(self).wf(),
            old(self)@ == restored(old(self)@.machines, old(self)@.targets, Seq::empty()),
        ensures
            ok == pings_restorable(old(self)@.machines, old(self)@.targets, pings@),
            ok ==> final(self).wf() && final(self)@ == restored(
                old(self)@.machines,
                old(self)@.targets,
                pings@,
            ),
    {
        let ghost machines = self@.machines;
        let ghost targets = self@.targets;
        let ghost whole = restored(machines, targets, pings@);
        let mut k: usize = 0;
        assert(pings@.take(0) =~= Seq::empty());
        while k < pings.len()
            invariant
                k <= pings.len(),
                self.wf(),
                machines == old(self)@.machines,
                targets == old(self)@.targets,
                self@ == restored(machines, targets, pings@.take(k as int)),
                whole == restored(machines, targets, pings@),
                forall|i: int| 0 <= i < k ==> 0 < (#[trigger] pings@[i]).id < self@.next_ping_id,
                forall|i: int, j: int| 0 <= i < j < k ==> pings@[i].id < pings@[j].id,
                forall|i: int|
                    0 <= i < k ==> whole.has_machine((#[trigger] pings@[i]).machine_id)
                        && whole.has_target(pings@[i].target_id),
            decreases pings.len() - k,
        {
            let ping = pings[k];
            let ghost seen = pings@.take(k as int);
            if ping.id < self.next_ping_id || ping.id == i32::MAX {
                proof {
                    if k > 0 && ping.id != i32::MAX {
                        assert(seen.last() == pings@[k - 1]);
                        assert(!(pings@[k - 1].id < pings@[k as int].id));
                    }
                }
                return false;
            }
            if self.machine_index(ping.machine_id).is_none() || self.target_index(
                ping.target_id,
            ).is_none() {
                assert(!(whole.has_machine(pings@[k as int].machine_id) && whole.has_target(
                    pings@[k as int].target_id,
                )));
                return false;
            }
            self.place_ping(ping);
            proof {
                let next = pings@.take(k + 1);
                assert(next.drop_last() =~= seen);
                assert(next.last() == ping);
            }
            k += 1;
        }
        assert(pings@.take(k as int) =~= pings@);
        true
    }

    /// The place of machine `id` among the machines, if it is there.
    fn machine_index(&self, id: i32) -> (place: Option<usize>)
        requires
            self.wf(),
        ensures
            match place {
                Some(k) => k < self.machines.len() && self.machines[k as int].id == id
                    && self@.has_machine(id) && self@.machine(id) == self.machines[k as int]@,
                None => !self@.has_machine(id),
            },
    {
        let mut k: usize = 0;
        while k < self.machines.len()
            invariant
                self.wf(),
                k <= self.machines.len(),
                forall|j: int| 0 <= j < k ==> self.machines[j].id != id,
            decreases self.machines.len() - k,
        {
            if self.machines[k].id == id {
                proof {
                    let rows = self@.machines;
                    assert(rows[k as int].id == id);
                    let c = choose|i: int| 0 <= i < rows.len() && (#[trigger] rows[i]).id == id;
                    if c < k {
                        assert(rows[c].id < rows[k as int].id);
                    } else if c > k {
                        assert(rows[k as int].id < rows[c].id);
                    }
                }
                return Some(k);
            }
            k += 1;
        }
        proof {
            let rows = self@.machines;
            assert forall|i: int| 0 <= i < rows.len() implies (#[trigger] rows[i]).id != id by {
                assert(rows[i].id == self.machines[i].id);
            }
        }
        None
    }

    /// The place of the machine named `name` among the machines, if it is
    /// there.
    fn machine_index_by_name(&self, name: &str) -> (place: Option<usize>)
        requires
            self.wf(),
        ensures
            match place {
                Some(k) => k < self.machines.len() && self.machines[k as int].name@ == name@
                    && self@.machine_by_name(name@) == Some(self.machines[k as int]@),
                None => !self@.has_machine_named(name@),
            },
    {
        let mut k: usize = 0;
        while k < self.machines.len()
            invariant
                self.wf(),
                k <= self.machines.len(),
                forall|j: int| 0 <= j < k ==> self.machines[j].name@ != name@,
            decreases self.machines.len() - k,
        {
            if str_eq(self.machines[k].name.as_str(), name) {
                proof {
                    let rows = self@.machines;
                    assert(rows[k as int].name == name@);
                    let c = choose|i: int|
                        0 <= i < rows.len() && (#[trigger] rows[i]).name == name@;
                    if c < k {
                        assert(rows[c].name != rows[k as int].name);
                    } else if c > k {
                        assert(rows[k as int].name != rows[c].name);
                    }
                }
                return Some(k);
            }
            k += 1;
        }
        proof {
            let rows = self@.machines;
            assert forall|i: int| 0 <= i < rows.len() implies (#[trigger] rows[i]).name
                != name@ by {
                assert(rows[i].name == self.machines[i].name@);
            }
        }
        None
    }

    /// The machine with the given id, if any.
    pub fn find_machine_by_id(&self, id: i32) -> (found: Option<Machine>)
        requires
            self.wf(),
        ensures
            opt_view(found) == self@.machine_by_id(id),
    {
        match self.machine_index(id) {
            Some(k) => Some(self.machines[k].clone()),
            None => None,
        }
    }

    /// The machine with the given name, if any.
    pub fn find_machine_by_name(&self, name: &str) -> (found: Option<Machine>)
        requires
            self.wf(),
        ensures
            opt_view(found) == self@.machine_by_name(name@),
    {
        match self.machine_index_by_name(name) {
            Some(k) => Some(self.machines[k].clone()),
            None => None,
        }
    }

    /// Every machine, by ascending id.
    pub fn find_machines(&self) -> (all: Vec<Machine>)
        requires
            self.wf(),
        ensures
            rows(all@) == self@.machines,
            forall|i: int, j: int| 0 <= i < j < all.len() ==> all[i].id < all[j].id,
    {
        let mut all: Vec<Machine> = Vec::new();
        let mut k: usize = 0;
        while k < self.machines.len()
            invariant
                k <= self.machines.len(),
                rows(all@) == rows(self.machines@).take(k as int),
            decreases self.machines.len() - k,
        {
            let ghost before = rows(all@);
            let row = self.machines[k].clone();
            all.push(row);
            assert(rows(all@) =~= before.push(row@));
            assert(rows(all@) =~= rows(self.machines@).take(k + 1));
            k += 1;
        }
        assert(rows(self.machines@).take(k as int) =~= rows(self.machines@));
        assert forall|i: int, j: int| 0 <= i < j < all.len() implies all[i].id < all[j].id by {
            assert(rows(all@)[i].id < rows(all@)[j].id);
        }
        all
    }

    /// Whether a machine other than machine `id` is named `name`.
    fn machine_name_in_use(&self, id: i32, name: &str) -> (taken: bool)
        requires
            self.wf(),
        ensures
            taken == self@.machine_name_taken(id, name@),
    {
        match self.machine_index_by_name(name) {
            Some(k) => {
                proof {
                    let rows = self@.machines;
                    assert(rows[k as int].name == name@);
                    if rows[k as int].id == id {
                        assert forall|i: int| 0 <= i < rows.len() && (#[trigger] rows[i]).name
                            == name@ implies rows[i].id == id by {
                            if i < k {
                                assert(rows[i].name != rows[k as int].name);
                            } else if i > k {
                                assert(rows[k as int].name != rows[i].name);
                            }
                        }
                    }
                }
                self.machines[k].id != id
            },
            None => false,
        }
    }

    /// Adds a machine under the next free id. Fails with `NameTaken` where a
    /// machine of that name exists, else with `IdsExhausted` where no id is
    /// left; a failed insert changes nothing.
    pub fn insert_machine(&mut self, name: String, ip: String, key: String, created: i64) -> (out:
        Result<Machine, StoreError>)
        requires
            old(self).wf(),
        ensures
            final(self).wf(),
            match out {
                Ok(m) => {
                    &&& !old(self)@.has_machine_named(name@)
                    &&& old(self)@.next_machine_id < i32::MAX
                    &&& m@ == (MachineView {
                        id: old(self)@.next_machine_id,
                        name: name@,
                        ip: ip@,
                        key: key@,
                        created,
                        updated: None,
                    })
                    &&& final(self)@ == old(self)@.add_machine(m@)
                },
                Err(e) => {
                    &&& final(self)@ == old(self)@
                    &&& if old(self)@.has_machine_named(name@) {
                        e == StoreError::NameTaken
                    } else {
                        e == StoreError::IdsExhausted && old(self)@.next_machine_id == i32::MAX
                    }
                },
            },
    {
        if self.machine_index_by_name(name.as_str()).is_some() {
            return Err(StoreError::NameTaken);
        }
        if self.next_machine_id == i32::MAX {
            return Err(StoreError::IdsExhausted);
        }
        let id = self.next_machine_id;
        let row = Machine { id, name, ip, key, created, updated: None };
        let copy = row.clone();
        self.append_machine(row);
        Ok(copy)
    }

    /// Appends a machine whose id no machine has had yet and whose name is
    /// free.
    fn append_machine(&mut self, row: Machine)
        requires
            old(self).wf(),
            old(self)@.next_machine_id <= row.id < i32::MAX,
            !old(self)@.has_machine_named(row.name@),
        ensures
            final(self).wf(),
            final(self)@ == old(self)@.add_machine(row@),
    {
        let ghost before = self@;
        let ghost new_row = row@;
        let id = row.id;
        self.machines.push(row);
        self.next_machine_id = id + 1;
        proof {
            let after = self@;
            assert(after.machines =~= before.machines.push(new_row));
            assert(after == before.add_machine(new_row));
            assert forall|k: int| 0 <= k < after.pings.len() implies after.has_machine(
                (#[trigger] after.pings[k]).machine_id,
            ) && after.has_target(after.pings[k].target_id) by {
                let mid = before.pings[k].machine_id;
                assert(before.has_machine(mid));
                let i = choose|i: int|
                    0 <= i < before.machines.len() && (#[trigger] before.machines[i]).id == mid;
                assert(after.machines[i].id == mid);
            }
        }
    }

    /// Replaces the name, address and key of machine `id`. Fails with
    /// `RowMissing` where there is no such machine, else with `NameTaken`
    /// where another machine has the name; a failed update changes nothing.
    pub fn update_machine(&mut self, id: i32, name: String, ip: String, key: String) -> (out:
        Result<Machine, StoreError>)
        requires
            old(self).wf(),
        ensures
            final(self).wf(),
            match out {
                Ok(m) => {
                    &&& old(self)@.has_machine(id)
                    &&& !old(self)@.machine_name_taken(id, name@)
                    &&& m@ == (MachineView {
                        name: name@,
                        ip: ip@,
                        key: key@,
                        ..old(self)@.machine(id)
                    })
                    &&& final(self)@ == old(self)@.set_machine(m@)
                },
                Err(e) => {
                    &&& final(self)@ == old(self)@
                    &&& if !old(self)@.has_machine(id) {
                        e == StoreError::RowMissing
                    } else {
                        e == StoreError::NameTaken && old(self)@.machine_name_taken(id, name@)
                    }
                },
            },
    {
        let k = match self.machine_index(id) {
            Some(k) => k,
            None => {
                return Err(StoreError::RowMissing);
            },
        };
        if self.machine_name_in_use(id, name.as_str()) {
            return Err(StoreError::NameTaken);
        }
        let row = Machine {
            id,
            name,
            ip,
            key,
            created: self.machines[k].created,
            updated: self.machines[k].updated,
        };
        let copy = row.clone();
        self.put_machine_at(k, row);
        Ok(copy)
    }

    /// Marks machine `id` as seen at `now`. Fails with `RowMissing`, and
    /// changes nothing, where there is no such machine.
    pub fn touch_machine(&mut self, id: i32, now: i64) -> (out: Result<(), StoreError>)
        requires
            old(self).wf(),
        ensures
            final(self).wf(),
            match out {
                Ok(_) => {
                    &&& out == Ok::<(), StoreError>(())
                    &&& old(self)@.has_machine(id)
                    &&& final(self)@ == old(self)@.set_machine(
                        MachineView { updated: Some(now), ..old(self)@.machine(id) },
                    )
                },
                Err(e) => {
                    &&& final(self)@ == old(self)@
                    &&& !old(self)@.has_machine(id)
                    &&& e == StoreError::RowMissing
                },
            },
    {
        let k = match self.machine_index(id) {
            Some(k) => k,
            None => {
                return Err(StoreError::RowMissing);
            },
        };
        let mut row = self.machines[k].clone();
        row.updated = Some(now);
        self.put_machine_at(k, row);
        Ok(())
    }

    /// Puts `row` in the place `k`, which holds the machine of the same id.
    fn put_machine_at(&mut self, k: usize, row: Machine)
        requires
            old(self).wf(),
            k < old(self).machines.len(),
            old(self).machines[k as int].id == row.id,
            !old(self)@.machine_name_taken(row.id, row.name@),
        ensures
            final(self).wf(),
            final(self)@ == old(self)@.set_machine(row@),
    {
        let ghost before = self@;
        let ghost new_row = row@;
        self.machines.set(k, row);
        proof {
            let after = self@;
            assert forall|i: int| 0 <= i < before.machines.len() implies (
            #[trigger] after.machines[i]) == if i == k {
                new_row
            } else {
                before.machines[i]
            } by {}
            assert forall|i: int| 0 <= i < before.machines.len() implies (
            #[trigger] before.machines[i]).id == new_row.id <==> i == k by {
                if i < k {
                    assert(before.machines[i].id < before.machines[k as int].id);
                } else if i > k {
                    assert(before.machines[k as int].id < before.machines[i].id);
                }
            }
            assert(after.machines =~= put_machine(before.machines, new_row));
            assert forall|i: int, j: int| 0 <= i < j < after.machines.len() implies
                after.machines[i].name != after.machines[j].name by {
                assert(before.machines[i].name != before.machines[j].name);
                if i == k {
                    assert(before.machines[j].id != new_row.id);
                } else if j == k {
                    assert(before.machines[i].id != new_row.id);
                }
            }
            assert forall|i: int, j: int| 0 <= i < j < after.machines.len() implies
                after.machines[i].id < after.machines[j].id by {
                assert(before.machines[i].id < before.machines[j].id);
            }
            assert forall|p: int| 0 <= p < after.pings.len() implies after.has_machine(
                (#[trigger] after.pings[p]).machine_id,
            ) && after.has_target(after.pings[p].target_id) by {
                let mid = before.pings[p].machine_id;
                assert(before.has_machine(mid));
                let i = choose|i: int|
                    0 <= i < before.machines.len() && (#[trigger] before.machines[i]).id == mid;
                assert(after.machines[i].id == mid);
            }
        }
    }

    /// Deletes machine `id` together with every ping of that machine, and
    /// says how many machines went: one, or none where there was no such
    /// machine.
    pub fn delete_machine(&mut self, id: i32) -> (gone: u64)
        requires
            old(self).wf(),
        ensures
            final(self).wf(),
            final(self)@ == old(self)@.drop_machine(id),
            gone == if old(self)@.has_machine(id) {
                1u64
            } else {
                0u64
            },
    {
        let ghost before = self@;
        match self.machine_index(id) {
            None => {
                proof {
                    assert forall|i: int| 0 <= i < before.machines.len() implies other_machine(
                        id,
                    )(#[trigger] before.machines[i]) by {}
                    lemma_filter_all(before.machines, other_machine(id));
                    assert forall|k: int| 0 <= k < before.pings.len() implies not_of_machine(id)(
                        #[trigger] before.pings[k],
                    ) by {
                        assert(before.has_machine(before.pings[k].machine_id));
                    }
                    lemma_filter_all(before.pings, not_of_machine(id));
                }
                0
            },
            Some(k) => {
                let kept = pick_pings(&self.pings, &PingChoice::NotOfMachine(id));
                self.machines.remove(k);
                self.pings = kept;
                proof {
                    let after = self@;
                    assert(after.machines =~= before.machines.remove(k as int));
                    assert forall|i: int|
                        0 <= i < before.machines.len() && i != k implies other_machine(id)(
                        #[trigger] before.machines[i],
                    ) by {
                        if i < k {
                            assert(before.machines[i].id < before.machines[k as int].id);
                        } else {
                            assert(before.machines[k as int].id < before.machines[i].id);
                        }
                    }
                    lemma_filter_removes(before.machines, k as int, other_machine(id));
                    assert(after == before.drop_machine(id));
                    lemma_picked_pings(before.pings, not_of_machine(id), before.next_ping_id);
                    assert forall|i: int, j: int| 0 <= i < j < after.machines.len() implies
                        after.machines[i].id < after.machines[j].id && after.machines[i].name
                            != after.machines[j].name by {
                        let a = if i < k {
                            i
                        } else {
                            i + 1
                        };
                        let b = if j < k {
                            j
                        } else {
                            j + 1
                        };
                        assert(before.machines[a].id < before.machines[b].id);
                        assert(before.machines[a].name != before.machines[b].name);
                    }
                    assert forall|p: int| 0 <= p < after.pings.len() implies after.has_machine(
                        (#[trigger] after.pings[p]).machine_id,
                    ) && after.has_target(after.pings[p].target_id) by {
                        let ping = after.pings[p];
                        assert(before.pings.contains(ping));
                        let q = choose|q: int| 0 <= q < before.pings.len() && before.pings[q] == ping;
                        assert(before.has_machine(before.pings[q].machine_id));
                        assert(before.has_target(before.pings[q].target_id));
                        let i = choose|i: int|
                            0 <= i < before.machines.len() && (#[trigger] before.machines[i]).id
                                == ping.machine_id;
                        assert(not_of_machine(id)(ping));
                        assert(i != k);
                        let shifted = if i < k {
                            i
                        } else {
                            i - 1
                        };
                        assert(after.machines[shifted].id == ping.machine_id);
                    }
                }
                1
            },
        }
    }

    /// The place of target `id` among the targets, if it is there.
    fn target_index(&self, id: i32) -> (place: Option<usize>)
        requires
            self.wf(),
        ensures
            match place {
                Some(k) => k < self.targets.len() && self.targets[k as int].id == id
                    && self@.has_target(id) && self@.target(id) == self.targets[k as int]@,
                None => !self@.has_target(id),
            },
    {
        let mut k: usize = 0;
        while k < self.targets.len()
            invariant
                self.wf(),
                k <= self.targets.len(),
                forall|j: int| 0 <= j < k ==> self.targets[j].id != id,
            decreases self.targets.len() - k,
        {
            if self.targets[k].id == id {
                proof {
                    let rows = self@.targets;
                    assert(rows[k as int].id == id);
                    let c = choose|i: int| 0 <= i < rows.len() && (#[trigger] rows[i]).id == id;
                    if c < k {
                        assert(rows[c].id < rows[k as int].id);
                    } else if c > k {
                        assert(rows[k as int].id < rows[c].id);
                    }
                }
                return Some(k);
            }
            k += 1;
        }
        proof {
            let rows = self@.targets;
            assert forall|i: int| 0 <= i < rows.len() implies (#[trigger] rows[i]).id != id by {
                assert(rows[i].id == self.targets[i].id);
            }
        }
        None
    }

    /// The place of the target named `name` among the targets, if it is
    /// there.
    fn target_index_by_name(&self, name: &str) -> (place: Option<usize>)
        requires
            self.wf(),
        ensures
            match place {
                Some(k) => k < self.targets.len() && self.targets[k as int].name@ == name@
                    && self@.target_by_name(name@) == Some(self.targets[k as int]@),
                None => !self@.has_target_named(name@),
            },
    {
        let mut k: usize = 0;
        while k < self.targets.len()
            invariant
                self.wf(),
                k <= self.targets.len(),
                forall|j: int| 0 <= j < k ==> self.targets[j].name@ != name@,
            decreases self.targets.len() - k,
        {
            if str_eq(self.targets[k].name.as_str(), name) {
                proof {
                    let rows = self@.targets;
                    assert(rows[k as int].name == name@);
                    let c = choose|i: int|
                        0 <= i < rows.len() && (#[trigger] rows[i]).name == name@;
                    if c < k {
                        assert(rows[c].name != rows[k as int].name);
                    } else if c > k {
                        assert(rows[k as int].name != rows[c].name);
                    }
                }
                return Some(k);
            }
            k += 1;
        }
        proof {
            let rows = self@.targets;
            assert forall|i: int| 0 <= i < rows.len() implies (#[trigger] rows[i]).name
                != name@ by {
                assert(rows[i].name == self.targets[i].name@);
            }
        }
        None
    }

    /// The target with the given id, if any.
    pub fn find_target_by_id(&self, id: i32) -> (found: Option<Target>)
        requires
            self.wf(),
        ensures
            opt_view(found) == self@.target_by_id(id),
    {
        match self.target_index(id) {
            Some(k) => Some(self.targets[k].clone()),
            None => None,
        }
    }

    /// The target with the given name, if any.
    pub fn find_target_by_name(&self, name: &str) -> (found: Option<Target>)
        requires
            self.wf(),
        ensures
            opt_view(found) == self@.target_by_name(name@),
    {
        match self.target_index_by_name(name) {
            Some(k) => Some(self.targets[k].clone()),
            None => None,
        }
    }

    /// Every target, by ascending id.
    pub fn find_targets(&self) -> (all: Vec<Target>)
        requires
            self.wf(),
        ensures
            rows(all@) == self@.targets,
            forall|i: int, j: int| 0 <= i < j < all.len() ==> all[i].id < all[j].id,
    {
        let mut all: Vec<Target> = Vec::new();
        let mut k: usize = 0;
        while k < self.targets.len()
            invariant
                k <= self.targets.len(),
                rows(all@) == rows(self.targets@).take(k as int),
            decreases self.targets.len() - k,
        {
            let ghost before = rows(all@);
            let row = self.targets[k].clone();
            all.push(row);
            assert(rows(all@) =~= before.push(row@));
            assert(rows(all@) =~= rows(self.targets@).take(k + 1));
            k += 1;
        }
        assert(rows(self.targets@).take(k as int) =~= rows(self.targets@));
        assert forall|i: int, j: int| 0 <= i < j < all.len() implies all[i].id < all[j].id by {
            assert(rows(all@)[i].id < rows(all@)[j].id);
        }
        all
    }

    /// Whether a target other than target `id` is named `name`.
    fn target_name_in_use(&self, id: i32, name: &str) -> (taken: bool)
        requires
            self.wf(),
        ensures
            taken == self@.target_name_taken(id, name@),
    {
        match self.target_index_by_name(name) {
            Some(k) => {
                proof {
                    let rows = self@.targets;
                    assert(rows[k as int].name == name@);
                    if rows[k as int].id == id {
                        assert forall|i: int| 0 <= i < rows.len() && (#[trigger] rows[i]).name
                            == name@ implies rows[i].id == id by {
                            if i < k {
                                assert(rows[i].name != rows[k as int].name);
                            } else if i > k {
                                assert(rows[k as int].name != rows[i].name);
                            }
                        }
                    }
                }
                self.targets[k].id != id
            },
            None => false,
        }
    }

    /// Adds a target under the next free id. Fails with `NameTaken` where a
    /// target of that name exists, else with `IdsExhausted` where no id is
    /// left; a failed insert changes nothing.
    pub fn insert_target(
        &mut self,
        name: String,
        domain: Option<String>,
        ipv4: Option<String>,
        ipv6: Option<String>,
        created: i64,
    ) -> (out: Result<Target, StoreError>)
        requires
            old(self).wf(),
        ensures
            final(self).wf(),
            match out {
                Ok(t) => {
                    &&& !old(self)@.has_target_named(name@)
                    &&& old(self)@.next_target_id < i32::MAX
                    &&& t@ == (TargetView {
                        id: old(self)@.next_target_id,
                        name: name@,
                        domain: opt_view(domain),
                        ipv4: opt_view(ipv4),
                        ipv6: opt_view(ipv6),
                        created,
                        updated: None,
                    })
                    &&& final(self)@ == old(self)@.add_target(t@)
                },
                Err(e) => {
                    &&& final(self)@ == old(self)@
                    &&& if old(self)@.has_target_named(name@) {
                        e == StoreError::NameTaken
                    } else {
                        e == StoreError::IdsExhausted && old(self)@.next_target_id == i32::MAX
                    }
                },
            },
    {
        if self.target_index_by_name(name.as_str()).is_some() {
            return Err(StoreError::NameTaken);
        }
        if self.next_target_id == i32::MAX {
            return Err(StoreError::IdsExhausted);
        }
        let id = self.next_target_id;
        let row = Target { id, name, domain, ipv4, ipv6, created, updated: None };
        let copy = row.clone();
        self.append_target(row);
        Ok(copy)
    }

    /// Appends a target whose id no target has had yet and whose name is
    /// free.
    fn append_target(&mut self, row: Target)
        requires
            old(self).wf(),
            old(self)@.next_target_id <= row.id < i32::MAX,
            !old(self)@.has_target_named(row.name@),
        ensures
            final(self).wf(),
            final(self)@ == old(self)@.add_target(row@),
    {
        let ghost before = self@;
        let ghost new_row = row@;
        let id = row.id;
        self.targets.push(row);
        self.next_target_id = id + 1;
        proof {
            let after = self@;
            assert(after.targets =~= before.targets.push(new_row));
            assert(after == before.add_target(new_row));
            assert forall|k: int| 0 <= k < after.pings.len() implies after.has_target(
                (#[trigger] after.pings[k]).target_id,
            ) && after.has_machine(after.pings[k].machine_id) by {
                let mid = before.pings[k].target_id;
                assert(before.has_target(mid));
                let i = choose|i: int|
                    0 <= i < before.targets.len() && (#[trigger] before.targets[i]).id == mid;
                assert(after.targets[i].id == mid);
            }
        }
    }

    /// Replaces the name and the addresses of target `id`. Fails with
    /// `RowMissing` where there is no such target, else with `NameTaken`
    /// where another target has the name; a failed update changes nothing.
    pub fn update_target(
        &mut self,
        id: i32,
        name: String,
        domain: Option<String>,
        ipv4: Option<String>,
        ipv6: Option<String>,
    ) -> (out: Result<Target, StoreError>)
        requires
            old(self).wf(),
        ensures
            final(self).wf(),
            match out {
                Ok(t) => {
                    &&& old(self)@.has_target(id)
                    &&& !old(self)@.target_name_taken(id, name@)
                    &&& t@ == (TargetView {
                        name: name@,
                        domain: opt_view(domain),
                        ipv4: opt_view(ipv4),
                        ipv6: opt_view(ipv6),
                        ..old(self)@.target(id)
                    })
                    &&& final(self)@ == old(self)@.set_target(t@)
                },
                Err(e) => {
                    &&& final(self)@ == old(self)@
                    &&& if !old(self)@.has_target(id) {
                        e == StoreError::RowMissing
                    } else {
                        e == StoreError::NameTaken && old(self)@.target_name_taken(id, name@)
                    }
                },
            },
    {
        let k = match self.target_index(id) {
            Some(k) => k,
            None => {
                return Err(StoreError::RowMissing);
            },
        };
        if self.target_name_in_use(id, name.as_str()) {
            return Err(StoreError::NameTaken);
        }
        let row = Target {
            id,
            name,
            domain,
            ipv4,
            ipv6,
            created: self.targets[k].created,
            updated: self.targets[k].updated,
        };
        let copy = row.clone();
        self.put_target_at(k, row);
        Ok(copy)
    }

    /// Marks target `id` as seen at `now`. Fails with `RowMissing`, and
    /// changes nothing, where there is no such target.
    pub fn touch_target(&mut self, id: i32, now: i64) -> (out: Result<(), StoreError>)
        requires
            old(self).wf(),
        ensures
            final(self).wf(),
            match out {
                Ok(_) => {
                    &&& out == Ok::<(), StoreError>(())
                    &&& old(self)@.has_target(id)
                    &&& final(self)@ == old(self)@.set_target(
                        TargetView { updated: Some(now), ..old(self)@.target(id) },
                    )
                },
                Err(e) => {
                    &&& final(self)@ == old(self)@
                    &&& !old(self)@.has_target(id)
                    &&& e == StoreError::RowMissing
                },
            },
    {
        let k = match self.target_index(id) {
            Some(k) => k,
            None => {
                return Err(StoreError::RowMissing);
            },
        };
        let mut row = self.targets[k].clone();
        row.updated = Some(now);
        self.put_target_at(k, row);
        Ok(())
    }

    /// Puts `row` in the place `k`, which holds the target of the same id.
    fn put_target_at(&mut self, k: usize, row: Target)
        requires
            old(self).wf(),
            k < old(self).targets.len(),
            old(self).targets[k as int].id == row.id,
            !old(self)@.target_name_taken(row.id, row.name@),
        ensures
            final(self).wf(),
            final(self)@ == old(self)@.set_target(row@),
    {
        let ghost before = self@;
        let ghost new_row = row@;
        self.targets.set(k, row);
        proof {
            let after = self@;
            assert forall|i: int| 0 <= i < before.targets.len() implies (
            #[trigger] after.targets[i]) == if i == k {
                new_row
            } else {
                before.targets[i]
            } by {}
            assert forall|i: int| 0 <= i < before.targets.len() implies (
            #[trigger] before.targets[i]).id == new_row.id <==> i == k by {
                if i < k {
                    assert(before.targets[i].id < before.targets[k as int].id);
                } else if i > k {
                    assert(before.targets[k as int].id < before.targets[i].id);
                }
            }
            assert(after.targets =~= put_target(before.targets, new_row));
            assert forall|i: int, j: int| 0 <= i < j < after.targets.len() implies
                after.targets[i].name != after.targets[j].name by {
                assert(before.targets[i].name != before.targets[j].name);
                if i == k {
                    assert(before.targets[j].id != new_row.id);
                } else if j == k {
                    assert(before.targets[i].id != new_row.id);
                }
            }
            assert forall|i: int, j: int| 0 <= i < j < after.targets.len() implies
                after.targets[i].id < after.targets[j].id by {
                assert(before.targets[i].id < before.targets[j].id);
            }
            assert forall|p: int| 0 <= p < after.pings.len() implies after.has_target(
                (#[trigger] after.pings[p]).target_id,
            ) && after.has_machine(after.pings[p].machine_id) by {
                let mid = before.pings[p].target_id;
                assert(before.has_target(mid));
                let i = choose|i: int|
                    0 <= i < before.targets.len() && (#[trigger] before.targets[i]).id == mid;
                assert(after.targets[i].id == mid);
            }
        }
    }

    /// Deletes target `id` together with every ping against that target,
    /// and says how many targets went: one, or none where there was no such
    /// target.
    pub fn delete_target(&mut self, id: i32) -> (gone: u64)
        requires
            old(self).wf(),
        ensures
            final(self).wf(),
            final(self)@ == old(self)@.drop_target(id),
            gone == if old(self)@.has_target(id) {
                1u64
            } else {
                0u64
            },
    {
        let ghost before = self@;
        match self.target_index(id) {
            None => {
                proof {
                    assert forall|i: int| 0 <= i < before.targets.len() implies other_target(
                        id,
                    )(#[trigger] before.targets[i]) by {}
                    lemma_filter_all(before.targets, other_target(id));
                    assert forall|k: int| 0 <= k < before.pings.len() implies not_of_target(id)(
                        #[trigger] before.pings[k],
                    ) by {
                        assert(before.has_target(before.pings[k].target_id));
                    }
                    lemma_filter_all(before.pings, not_of_target(id));
                }
                0
            },
            Some(k) => {
                let kept = pick_pings(&self.pings, &PingChoice::NotOfTarget(id));
                self.targets.remove(k);
                self.pings = kept;
                proof {
                    let after = self@;
                    assert(after.targets =~= before.targets.remove(k as int));
                    assert forall|i: int|
                        0 <= i < before.targets.len() && i != k implies other_target(id)(
                        #[trigger] before.targets[i],
                    ) by {
                        if i < k {
                            assert(before.targets[i].id < before.targets[k as int].id);
                        } else {
                            assert(before.targets[k as int].id < before.targets[i].id);
                        }
                    }
                    lemma_filter_removes(before.targets, k as int, other_target(id));
                    assert(after == before.drop_target(id));
                    lemma_picked_pings(before.pings, not_of_target(id), before.next_ping_id);
                    assert forall|i: int, j: int| 0 <= i < j < after.targets.len() implies
                        after.targets[i].id < after.targets[j].id && after.targets[i].name
                            != after.targets[j].name by {
                        let a = if i < k {
                            i
                        } else {
                            i + 1
                        };
                        let b = if j < k {
                            j
                        } else {
                            j + 1
                        };
                        assert(before.targets[a].id < before.targets[b].id);
                        assert(before.targets[a].name != before.targets[b].name);
                    }
                    assert forall|p: int| 0 <= p < after.pings.len() implies after.has_target(
                        (#[trigger] after.pings[p]).target_id,
                    ) && after.has_machine(after.pings[p].machine_id) by {
                        let ping = after.pings[p];
                        assert(before.pings.contains(ping));
                        let q = choose|q: int| 0 <= q < before.pings.len() && before.pings[q] == ping;
                        assert(before.has_target(before.pings[q].target_id));
                        assert(before.has_machine(before.pings[q].machine_id));
                        let i = choose|i: int|
                            0 <= i < before.targets.len() && (#[trigger] before.targets[i]).id
                                == ping.target_id;
                        assert(not_of_target(id)(ping));
                        assert(i != k);
                        let shifted = if i < k {
                            i
                        } else {
                            i - 1
                        };
                        assert(after.targets[shifted].id == ping.target_id);
                    }
                }
                1
            },
        }
    }

    /// Adds a ping under the next free id, behind every ping that is not
    /// newer. Fails with `ParentMissing` where the machine or the target
    /// does not exist, else with `IdsExhausted` where no id is left; a failed
    /// insert changes nothing.
    pub fn insert_ping(
        &mut self,
        machine_id: i32,
        target_id: i32,
        ipv6: bool,
        created: i64,
        min: i32,
        avg: i32,
        fail: i32,
    ) -> (out: Result<Ping, StoreError>)
        requires
            old(self).wf(),
        ensures
            final(self).wf(),
            match out {
                Ok(p) => {
                    &&& old(self)@.has_machine(machine_id)
                    &&& old(self)@.has_target(target_id)
                    &&& old(self)@.next_ping_id < i32::MAX
                    &&& p == (Ping {
                        id: old(self)@.next_ping_id,
                        machine_id,
                        target_id,
                        ipv6,
                        created,
                        min,
                        avg,
                        fail,
                    })
                    &&& final(self)@ == old(self)@.add_ping(p)
                },
                Err(e) => {
                    &&& final(self)@ == old(self)@
                    &&& if !old(self)@.has_machine(machine_id) || !old(self)@.has_target(
                        target_id,
                    ) {
                        e == StoreError::ParentMissing
                    } else {
                        e == StoreError::IdsExhausted && old(self)@.next_ping_id == i32::MAX
                    }
                },
            },
    {
        if self.machine_index(machine_id).is_none() || self.target_index(target_id).is_none() {
            return Err(StoreError::ParentMissing);
        }
        if self.next_ping_id == i32::MAX {
            return Err(StoreError::IdsExhausted);
        }
        let id = self.next_ping_id;
        let ping = Ping { id, machine_id, target_id, ipv6, created, min, avg, fail };
        self.place_ping(ping);
        Ok(ping)
    }

    /// Puts a ping whose id no ping has had yet, and whose machine and target
    /// exist, behind every ping that is not newer.
    fn place_ping(&mut self, ping: Ping)
        requires
            old(self).wf(),
            old(self)@.next_ping_id <= ping.id < i32::MAX,
            old(self)@.has_machine(ping.machine_id),
            old(self)@.has_target(ping.target_id),
        ensures
            final(self).wf(),
            final(self)@ == old(self)@.add_ping(ping),
    {
        let ghost before = self@;
        let mut k: usize = self.pings.len();
        while k > 0 && self.pings[k - 1].created > ping.created
            invariant
                k <= self.pings.len(),
                self@ == before,
                before.wf(),
                forall|j: int| k <= j < self.pings.len() ==> self.pings[j].created > ping.created,
            decreases k,
        {
            k -= 1;
        }
        self.pings.insert(k, ping);
        self.next_ping_id = ping.id + 1;
        proof {
            let after = self@;
            let old_pings = before.pings;
            assert forall|j: int| 0 <= j < k implies not_newer_than(ping.created as int)(
                #[trigger] old_pings[j],
            ) by {
                assert(old_pings[j].created <= old_pings[k - 1].created);
            }
            assert forall|j: int| k <= j < old_pings.len() implies !not_newer_than(ping.created as int)(
                #[trigger] old_pings[j],
            ) by {}
            lemma_filter_prefix(old_pings, k as int, not_newer_than(ping.created as int));
            assert forall|j: int| 0 <= j < k implies !newer_than(ping.created as int)(
                #[trigger] old_pings[j],
            ) by {
                assert(old_pings[j].created <= old_pings[k - 1].created);
            }
            assert forall|j: int| k <= j < old_pings.len() implies newer_than(ping.created as int)(
                #[trigger] old_pings[j],
            ) by {}
            lemma_filter_suffix(old_pings, k as int, newer_than(ping.created as int));
            assert(after.pings =~= put_ping(old_pings, ping));
            assert(after == before.add_ping(ping));
            assert forall|i: int| 0 <= i < after.pings.len() implies (#[trigger] after.pings[i])
                == if i < k {
                old_pings[i]
            } else if i == k {
                ping
            } else {
                old_pings[i - 1]
            } by {}
            assert forall|i: int, j: int| 0 <= i < j < after.pings.len() implies after.pings[i].id
                != after.pings[j].id && after.pings[i].created <= after.pings[j].created by {
                let a = if i < k {
                    i
                } else {
                    i - 1
                };
                let b = if j < k {
                    j
                } else {
                    j - 1
                };
                if i != k && j != k {
                    assert(old_pings[a].id != old_pings[b].id);
                    assert(old_pings[a].created <= old_pings[b].created);
                } else if i == k {
                    assert(0 < old_pings[b].id < before.next_ping_id);
                } else {
                    assert(0 < old_pings[a].id < before.next_ping_id);
                }
            }
            assert forall|i: int| 0 <= i < after.pings.len() implies after.has_machine(
                (#[trigger] after.pings[i]).machine_id,
            ) && after.has_target(after.pings[i].target_id) && 0 < after.pings[i].id
                < after.next_ping_id by {
                if i < k {
                    assert(before.has_machine(old_pings[i].machine_id));
                } else if i > k {
                    assert(before.has_machine(old_pings[i - 1].machine_id));
                }
            }
        }
    }

    /// The pings of one machine against one target over one address family
    /// that were taken in at `from` or later, oldest first.
    pub fn find_pings(&self, machine_id: i32, target_id: i32, ipv6: bool, from: i64) -> (found:
        Vec<Ping>)
        requires
            self.wf(),
        ensures
            found@ == self@.series(machine_id, target_id, ipv6, from as int),
            oldest_first(found@),
    {
        proof {
            lemma_picked_pings(
                self@.pings,
                in_series(machine_id, target_id, ipv6, from as int),
                self@.next_ping_id,
            );
        }
        pick_pings(&self.pings, &PingChoice::Series(machine_id, target_id, ipv6, from))
    }

    /// Deletes every ping taken in before `cutoff` and says how many went.
    pub fn delete_pings_older_than(&mut self, cutoff: i64) -> (gone: u64)
        requires
            old(self).wf(),
        ensures
            final(self).wf(),
            final(self)@ == old(self)@.drop_pings_before(cutoff as int),
            gone == old(self)@.pings.len() - final(self)@.pings.len(),
    {
        let ghost before = self@;
        let kept = pick_pings(&self.pings, &PingChoice::NotOlderThan(cutoff));
        proof {
            before.pings.lemma_filter_len(not_older_than(cutoff as int));
        }
        let gone = self.pings.len() - kept.len();
        self.pings = kept;
        proof {
            let after = self@;
            lemma_picked_pings(before.pings, not_older_than(cutoff as int), before.next_ping_id);
            assert forall|p: int| 0 <= p < after.pings.len() implies after.has_machine(
                (#[trigger] after.pings[p]).machine_id,
            ) && after.has_target(after.pings[p].target_id) by {
                let ping = after.pings[p];
                assert(before.pings.contains(ping));
                let q = choose|q: int| 0 <= q < before.pings.len() && before.pings[q] == ping;
                assert(before.has_machine(before.pings[q].machine_id));
            }
        }
        gone as u64
    }
}

} // verus!
