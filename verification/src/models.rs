//! The views of machines and targets that anyone may see. A machine's
//! address is masked in them and its key is left out.

use vstd::prelude::*;

use crate::entity::{Machine, MachineView, Target, TargetView};
use crate::text::{
    contains_char, from_chars, join, join_prefix, lemma_split_concat, lemma_split_count,
    lemma_split_nonempty, push_all, split, split_chars, to_chars,
};
use crate::views::rows;

verus! {

/// A timestamp in seconds as an unsigned number: moments before the epoch
/// wrap around the top of the range.
pub open spec fn unix_ts(t: i64) -> u64 {
    if t >= 0 {
        t as u64
    } else {
        (t + 0x1_0000_0000_0000_0000) as u64
    }
}

/// `unix_ts` of an optional timestamp.
pub open spec fn opt_unix_ts(t: Option<i64>) -> Option<u64> {
    match t {
        Some(s) => Some(unix_ts(s)),
        None => None,
    }
}

/// The masked form of a stored address.
///
/// An address that holds a `.` keeps its first two dot-separated pieces,
/// followed by `.*.*`. Any other address is cut at its colons: of more than
/// four groups all but the last four stay, of two to four groups all but
/// the last, and a single group stays whole; `::*` follows.
pub open spec fn mask_ip(ip: Seq<char>) -> Seq<char> {
    if ip.contains('.') {
        let parts = split(ip, '.');
        parts[0].push('.') + parts[1] + seq!['.', '*', '.', '*']
    } else {
        let parts = split(ip, ':');
        let n = parts.len() as int;
        let prefix = if n > 4 {
            join(parts.take(n - 4), ':')
        } else if n > 1 {
            join(parts.take(n - 1), ':')
        } else {
            ip
        };
        prefix + seq![':', ':', '*']
    }
}

/// Masks an address for public view; see `mask_ip`.
pub fn mask_address(ip: &str) -> (masked: String)
    ensures
        masked@ == mask_ip(ip@),
{
    let chars = to_chars(ip);
    let mut out: Vec<char>;
    if contains_char(&chars, '.') {
        let parts = split_chars(&chars, '.');
        proof {
            lemma_split_count(chars@, '.');
        }
        assert(rows(parts@)[0] == parts@[0]@);
        assert(rows(parts@)[1] == parts@[1]@);
        out = Vec::new();
        push_all(&mut out, &parts[0]);
        out.push('.');
        push_all(&mut out, &parts[1]);
        out.push('.');
        out.push('*');
        out.push('.');
        out.push('*');
        assert(out@ =~= mask_ip(ip@));
    } else {
        let parts = split_chars(&chars, ':');
        proof {
            lemma_split_nonempty(chars@, ':');
        }
        let n = parts.len();
        if n > 4 {
            out = join_prefix(&parts, n - 4, ':');
        } else if n > 1 {
            out = join_prefix(&parts, n - 1, ':');
        } else {
            out = Vec::new();
            push_all(&mut out, &chars);
            assert(out@ =~= chars@);
        }
        out.push(':');
        out.push(':');
        out.push('*');
        assert(out@ =~= mask_ip(ip@));
    }
    from_chars(&out)
}

/// Masking forgets the end of a dotted address: two addresses that agree up
/// to and including a dot, after at least one earlier dot, have the same
/// masked form. The pieces after the second dot cannot be won back.
pub proof fn lemma_mask_forgets_tail(head: Seq<char>, tail_a: Seq<char>, tail_b: Seq<char>)
    requires
        head.contains('.'),
    ensures
        mask_ip(head.push('.') + tail_a) == mask_ip(head.push('.') + tail_b),
{
    let a = head.push('.') + tail_a;
    let b = head.push('.') + tail_b;
    assert(a[head.len() as int] == '.');
    assert(b[head.len() as int] == '.');
    lemma_split_concat(head, tail_a, '.');
    lemma_split_concat(head, tail_b, '.');
    lemma_split_count(head, '.');
}

/// Masking forgets the last group of an address written with colons: two
/// such addresses with the same number of groups that differ only in the
/// last have the same masked form.
pub proof fn lemma_mask_forgets_last_group(
    head: Seq<char>,
    last_a: Seq<char>,
    last_b: Seq<char>,
)
    requires
        !head.contains('.'),
        !last_a.contains('.'),
        !last_b.contains('.'),
        !last_a.contains(':'),
        !last_b.contains(':'),
    ensures
        mask_ip(head.push(':') + last_a) == mask_ip(head.push(':') + last_b),
{
    let a = head.push(':') + last_a;
    let b = head.push(':') + last_b;
    assert forall|i: int| 0 <= i < a.len() implies a[i] != '.' by {
        if i < head.len() {
            assert(a[i] == head[i]);
        } else if i > head.len() {
            assert(a[i] == last_a[i - head.len() - 1]);
        }
    }
    assert forall|i: int| 0 <= i < b.len() implies b[i] != '.' by {
        if i < head.len() {
            assert(b[i] == head[i]);
        } else if i > head.len() {
            assert(b[i] == last_b[i - head.len() - 1]);
        }
    }
    lemma_split_concat(head, last_a, ':');
    lemma_split_concat(head, last_b, ':');
    lemma_split_count(last_a, ':');
    lemma_split_count(last_b, ':');
    lemma_split_nonempty(head, ':');
    let pa = split(a, ':');
    let pb = split(b, ':');
    let n = pa.len() as int;
    assert(pb.len() == n);
    assert(pa.take(n - 1) =~= pb.take(n - 1));
    if n > 4 {
        assert(pa.take(n - 4) =~= pb.take(n - 4));
    }
}

/// The public view of a machine.
#[derive(Debug, PartialEq, Eq)]
pub struct MachinePublic {
    pub id: i32,
    pub name: String,
    /// The machine's address, masked.
    pub ip: String,
    pub created: u64,
    pub updated: Option<u64>,
}

/// What a `MachinePublic` holds, as mathematical values.
pub struct MachinePublicView {
    pub id: i32,
    pub name: Seq<char>,
    pub ip: Seq<char>,
    pub created: u64,
    pub updated: Option<u64>,
}

impl View for MachinePublic {
    type V = MachinePublicView;

    open spec fn view(&self) -> MachinePublicView {
        MachinePublicView {
            id: self.id,
            name: self.name@,
            ip: self.ip@,
            created: self.created,
            updated: self.updated,
        }
    }
}

impl Clone for MachinePublic {
    fn clone(&self) -> (copy: Self)
        ensures
            copy@ == self@,
    {
        MachinePublic {
            id: self.id,
            name: self.name.clone(),
            ip: self.ip.clone(),
            created: self.created,
            updated: self.updated,
        }
    }
}

/// The public view that belongs to a machine: its address masked, its key
/// left out.
pub open spec fn public_machine(m: MachineView) -> MachinePublicView {
    MachinePublicView {
        id: m.id,
        name: m.name,
        ip: mask_ip(m.ip),
        created: unix_ts(m.created),
        updated: opt_unix_ts(m.updated),
    }
}

/// A timestamp as an unsigned number of seconds; see `unix_ts`.
pub fn to_unix_ts(t: i64) -> (ts: u64)
    ensures
        ts == unix_ts(t),
{
    if t >= 0 {
        t as u64
    } else {
        let below: u64 = (-(t + 1)) as u64;
        u64::MAX - below
    }
}

/// An optional timestamp as an unsigned number of seconds.
pub fn to_opt_unix_ts(t: Option<i64>) -> (ts: Option<u64>)
    ensures
        ts == opt_unix_ts(t),
{
    match t {
        Some(s) => Some(to_unix_ts(s)),
        None => None,
    }
}

impl vstd::std_specs::convert::FromSpecImpl<Machine> for MachinePublic {
    open spec fn obeys_from_spec() -> bool {
        false
    }

    open spec fn from_spec(m: Machine) -> Self {
        arbitrary()
    }
}

impl From<Machine> for MachinePublic {
    fn from(m: Machine) -> (public: Self)
        ensures
            public@ == public_machine(m@),
    {
        let ip = mask_address(m.ip.as_str());
        MachinePublic {
            id: m.id,
            name: m.name,
            ip,
            created: to_unix_ts(m.created),
            updated: to_opt_unix_ts(m.updated),
        }
    }
}

/// The public view of a target.
#[derive(Debug, PartialEq, Eq)]
pub struct TargetPublic {
    pub id: i32,
    pub name: String,
    pub created: u64,
    pub updated: Option<u64>,
}

/// What a `TargetPublic` holds, as mathematical values.
pub struct TargetPublicView {
    pub id: i32,
    pub name: Seq<char>,
    pub created: u64,
    pub updated: Option<u64>,
}

impl View for TargetPublic {
    type V = TargetPublicView;

    open spec fn view(&self) -> TargetPublicView {
        TargetPublicView {
            id: self.id,
            name: self.name@,
            created: self.created,
            updated: self.updated,
        }
    }
}

impl Clone for TargetPublic {
    fn clone(&self) -> (copy: Self)
        ensures
            copy@ == self@,
    {
        TargetPublic {
            id: self.id,
            name: self.name.clone(),
            created: self.created,
            updated: self.updated,
        }
    }
}

/// The public view that belongs to a target: its id, name and timestamps.
pub open spec fn public_target(t: TargetView) -> TargetPublicView {
    TargetPublicView {
        id: t.id,
        name: t.name,
        created: unix_ts(t.created),
        updated: opt_unix_ts(t.updated),
    }
}

impl vstd::std_specs::convert::FromSpecImpl<Target> for TargetPublic {
    open spec fn obeys_from_spec() -> bool {
        false
    }

    open spec fn from_spec(t: Target) -> Self {
        arbitrary()
    }
}

impl From<Target> for TargetPublic {
    fn from(t: Target) -> (public: Self)
        ensures
            public@ == public_target(t@),
    {
        TargetPublic {
            id: t.id,
            name: t.name,
            created: to_unix_ts(t.created),
            updated: to_opt_unix_ts(t.updated),
        }
    }
}

/// The public view of a machine together with the targets it may probe.
#[derive(Debug, PartialEq, Eq)]
pub struct MachineTargetsPublic {
    pub id: i32,
    pub name: String,
    /// The machine's address, masked.
    pub ip: String,
    pub created: u64,
    pub targets: Vec<TargetPublic>,
}

/// What a `MachineTargetsPublic` holds, as mathematical values.
pub struct MachineTargetsPublicView {
    pub id: i32,
    pub name: Seq<char>,
    pub ip: Seq<char>,
    pub created: u64,
    pub targets: Seq<TargetPublicView>,
}

impl View for MachineTargetsPublic {
    type V = MachineTargetsPublicView;

    open spec fn view(&self) -> MachineTargetsPublicView {
        MachineTargetsPublicView {
            id: self.id,
            name: self.name@,
            ip: self.ip@,
            created: self.created,
            targets: rows(self.targets@),
        }
    }
}

impl Clone for MachineTargetsPublic {
    fn clone(&self) -> (copy: Self)
        ensures
            copy@ == self@,
    {
        let mut targets: Vec<TargetPublic> = Vec::new();
        let mut k: usize = 0;
        assert(rows(targets@) =~= rows(self.targets@).take(0));
        while k < self.targets.len()
            invariant
                k <= self.targets.len(),
                rows(targets@) == rows(self.targets@).take(k as int),
            decreases self.targets.len() - k,
        {
            let ghost copied = rows(targets@);
            let target = self.targets[k].clone();
            targets.push(target);
            assert(rows(targets@) =~= copied.push(target@));
            assert(rows(targets@) =~= rows(self.targets@).take(k + 1));
            k += 1;
        }
        assert(rows(self.targets@).take(k as int) =~= rows(self.targets@));
        MachineTargetsPublic {
            id: self.id,
            name: self.name.clone(),
            ip: self.ip.clone(),
            created: self.created,
            targets,
        }
    }
}

/// A machine's public view widened to hold targets, with none listed yet.
pub open spec fn without_targets(m: MachinePublicView) -> MachineTargetsPublicView {
    MachineTargetsPublicView {
        id: m.id,
        name: m.name,
        ip: m.ip,
        created: m.created,
        targets: Seq::empty(),
    }
}

impl vstd::std_specs::convert::FromSpecImpl<MachinePublic> for MachineTargetsPublic {
    open spec fn obeys_from_spec() -> bool {
        false
    }

    open spec fn from_spec(m: MachinePublic) -> Self {
        arbitrary()
    }
}

impl From<MachinePublic> for MachineTargetsPublic {
    fn from(m: MachinePublic) -> (public: Self)
        ensures
            public@ == without_targets(m@),
    {
        let public = MachineTargetsPublic {
            id: m.id,
            name: m.name,
            ip: m.ip,
            created: m.created,
            targets: Vec::new(),
        };
        assert(rows(public.targets@) =~= Seq::empty());
        public
    }
}

/// The public views of a list of machines, in order.
pub open spec fn public_machines(machines: Seq<MachineView>) -> Seq<MachinePublicView> {
    machines.map_values(|m: MachineView| public_machine(m))
}

/// The public views of a list of targets, in order.
pub open spec fn public_targets(targets: Seq<TargetView>) -> Seq<TargetPublicView> {
    targets.map_values(|t: TargetView| public_target(t))
}

/// The public views of a list of machines.
pub fn to_public_machines(machines: &Vec<Machine>) -> (out: Vec<MachinePublic>)
    ensures
        rows(out@) == public_machines(rows(machines@)),
{
    let ghost all = rows(machines@);
    let mut out: Vec<MachinePublic> = Vec::new();
    let mut k: usize = 0;
    assert(rows(out@) =~= public_machines(all).take(0));
    while k < machines.len()
        invariant
            k <= machines.len(),
            all == rows(machines@),
            rows(out@) == public_machines(all).take(k as int),
        decreases machines.len() - k,
    {
        let ghost shown = rows(out@);
        let public = MachinePublic::from(machines[k].clone());
        out.push(public);
        assert(rows(out@) =~= shown.push(public@));
        assert(rows(out@) =~= public_machines(all).take(k + 1));
        k += 1;
    }
    assert(public_machines(all).take(k as int) =~= public_machines(all));
    out
}

/// The public views of a list of targets.
pub fn to_public_targets(targets: &Vec<Target>) -> (out: Vec<TargetPublic>)
    ensures
        rows(out@) == public_targets(rows(targets@)),
{
    let ghost all = rows(targets@);
    let mut out: Vec<TargetPublic> = Vec::new();
    let mut k: usize = 0;
    assert(rows(out@) =~= public_targets(all).take(0));
    while k < targets.len()
        invariant
            k <= targets.len(),
            all == rows(targets@),
            rows(out@) == public_targets(all).take(k as int),
        decreases targets.len() - k,
    {
        let ghost shown = rows(out@);
        let public = TargetPublic::from(targets[k].clone());
        out.push(public);
        assert(rows(out@) =~= shown.push(public@));
        assert(rows(out@) =~= public_targets(all).take(k + 1));
        k += 1;
    }
    assert(public_targets(all).take(k as int) =~= public_targets(all));
    out
}

} // verus!
