//! A per-body ledger of force and torque contributions.
//!
//! Each contributing subsystem owns one slot of the ledger, named by a
//! [`ContributorKey`]. Once per tick the ledger is folded into the single
//! combined force that the physics integrator applies.
//!
//! Vectors are held in fixed-point units (the scale is chosen by the caller),
//! so that the combination is exact and independent of the order of entries.
use vstd::prelude::*;

verus! {

/// Names one force-contributing subsystem of a body.
#[derive(Clone, Copy, Debug, PartialEq, Eq, Structural)]
pub enum ContributorKey {
    Thrusters,
    PrimaryGravity,
    /// One of several gravity sources, by an identifier of the caller's choice.
    Gravity(u32),
    /// A subsystem added by configuration.
    Custom(u32),
}

/// A vector in fixed-point units.
#[derive(Clone, Copy, Debug, PartialEq, Eq, Structural)]
pub struct Vector3 {
    pub x: i64,
    pub y: i64,
    pub z: i64,
}

/// What one contributor proposes for a body: a force and a torque.
#[derive(Clone, Copy, Debug, PartialEq, Eq, Structural)]
pub struct ForceContribution {
    pub force: Vector3,
    pub torque: Vector3,
}

/// The zero contribution: no force and no torque.
pub open spec fn zero_contribution() -> ForceContribution {
    ForceContribution { force: Vector3 { x: 0, y: 0, z: 0 }, torque: Vector3 { x: 0, y: 0, z: 0 } }
}

impl ForceContribution {
    /// No force and no torque.
    pub fn zero() -> (r: ForceContribution)
        ensures
            r == zero_contribution(),
    {
        ForceContribution { force: Vector3 { x: 0, y: 0, z: 0 }, torque: Vector3 { x: 0, y: 0, z: 0 } }
    }
}

/// Component `axis` of a contribution: 0 to 2 are the force's x, y, z and
/// 3 to 5 the torque's x, y, z.
pub open spec fn component(c: ForceContribution, axis: int) -> int {
    if axis == 0 {
        c.force.x as int
    } else if axis == 1 {
        c.force.y as int
    } else if axis == 2 {
        c.force.z as int
    } else if axis == 3 {
        c.torque.x as int
    } else if axis == 4 {
        c.torque.y as int
    } else {
        c.torque.z as int
    }
}

/// The sum of component `axis` over all entries of a finite ledger.
pub open spec fn total(m: Map<ContributorKey, ForceContribution>, axis: int) -> int
    decreases m.dom().len(),
    when m.dom().finite()
{
    if m.dom().len() == 0 {
        0
    } else {
        let k = m.dom().choose();
        component(m[k], axis) + total(m.remove(k), axis)
    }
}

/// What a ledger yields for `key`: its entry, or the zero contribution.
pub open spec fn lookup(m: Map<ContributorKey, ForceContribution>, key: ContributorKey) -> ForceContribution {
    if m.contains_key(key) {
        m[key]
    } else {
        zero_contribution()
    }
}

/// The ledger that results from writing `writes` in order into an empty one.
pub open spec fn after_writes(writes: Seq<(ContributorKey, ForceContribution)>) -> Map<ContributorKey, ForceContribution>
    decreases writes.len(),
{
    if writes.len() == 0 {
        Map::empty()
    } else {
        after_writes(writes.drop_last()).insert(writes.last().0, writes.last().1)
    }
}

/// No key occurs twice in `writes`.
pub open spec fn distinct_keys(writes: Seq<(ContributorKey, ForceContribution)>) -> bool {
    forall|i: int, j: int| 0 <= i < j < writes.len() ==> writes[i].0 != writes[j].0
}

/// The sum of component `axis` over a sequence of entries, first to last.
pub open spec fn seq_total(s: Seq<(ContributorKey, ForceContribution)>, axis: int) -> int
    decreases s.len(),
{
    if s.len() == 0 {
        0
    } else {
        seq_total(s.drop_last(), axis) + component(s.last().1, axis)
    }
}

/// Taking out any one entry of a finite ledger leaves its component out of the total.
pub proof fn lemma_total_remove(m: Map<ContributorKey, ForceContribution>, k: ContributorKey, axis: int)
    requires
        m.dom().finite(),
        m.contains_key(k),
    ensures
        total(m, axis) == component(m[k], axis) + total(m.remove(k), axis),
    decreases m.dom().len(),
{
    let c = m.dom().choose();
    if c != k {
        lemma_total_remove(m.remove(c), k, axis);
        lemma_total_remove(m.remove(k), c, axis);
        assert(m.remove(c).remove(k) =~= m.remove(k).remove(c));
    }
}

/// Every key written has its last written value; no other key is present.
proof fn lemma_after_writes_entries(writes: Seq<(ContributorKey, ForceContribution)>)
    requires
        distinct_keys(writes),
    ensures
        after_writes(writes).dom().finite(),
        after_writes(writes).dom().len() == writes.len(),
        forall|i: int| 0 <= i < writes.len() ==> #[trigger] after_writes(writes).contains_key(writes[i].0)
            && after_writes(writes)[writes[i].0] == writes[i].1,
        forall|k: ContributorKey| #[trigger] after_writes(writes).contains_key(k) ==> exists|i: int|
            0 <= i < writes.len() && writes[i].0 == k,
    decreases writes.len(),
{
    if writes.len() > 0 {
        let p = writes.drop_last();
        lemma_after_writes_entries(p);
        let last = writes.last();
        assert(!after_writes(p).contains_key(last.0)) by {
            if after_writes(p).contains_key(last.0) {
                let i = choose|i: int| 0 <= i < p.len() && p[i].0 == last.0;
                assert(writes[i].0 == writes[writes.len() - 1].0);
            }
        }
        assert forall|i: int| 0 <= i < writes.len() implies #[trigger] after_writes(writes).contains_key(writes[i].0)
            && after_writes(writes)[writes[i].0] == writes[i].1 by {
            if i < writes.len() - 1 {
                assert(p[i] == writes[i]);
                assert(after_writes(p).contains_key(p[i].0));
            }
        }
        assert forall|k: ContributorKey| #[trigger] after_writes(writes).contains_key(k) implies exists|i: int|
            0 <= i < writes.len() && writes[i].0 == k by {
            if k != last.0 {
                let i = choose|i: int| 0 <= i < p.len() && p[i].0 == k;
                assert(writes[i].0 == k);
            } else {
                assert(writes[writes.len() - 1].0 == k);
            }
        }
    }
}

/// Over entries with distinct keys, the ledger total is the running sum.
proof fn lemma_total_of_writes(writes: Seq<(ContributorKey, ForceContribution)>, axis: int)
    requires
        distinct_keys(writes),
    ensures
        total(after_writes(writes), axis) == seq_total(writes, axis),
    decreases writes.len(),
{
    if writes.len() > 0 {
        let p = writes.drop_last();
        lemma_total_of_writes(p, axis);
        lemma_after_writes_entries(writes);
        lemma_after_writes_entries(p);
        let last = writes.last();
        assert(!after_writes(p).contains_key(last.0)) by {
            if after_writes(p).contains_key(last.0) {
                let i = choose|i: int| 0 <= i < p.len() && p[i].0 == last.0;
                assert(writes[i].0 == writes[writes.len() - 1].0);
            }
        }
        assert(after_writes(writes)[last.0] == last.1);
        lemma_total_remove(after_writes(writes), last.0, axis);
        assert(after_writes(writes).remove(last.0) =~= after_writes(p));
    }
}

/// Overwriting the value of a present key is inserting it anew.
proof fn lemma_after_writes_update(
    writes: Seq<(ContributorKey, ForceContribution)>,
    i: int,
    c: ForceContribution,
)
    requires
        distinct_keys(writes),
        0 <= i < writes.len(),
    ensures
        after_writes(writes.update(i, (writes[i].0, c))) =~= after_writes(writes).insert(writes[i].0, c),
    decreases writes.len(),
{
    let u = writes.update(i, (writes[i].0, c));
    let p = writes.drop_last();
    if i == writes.len() - 1 {
        assert(u.drop_last() =~= p);
    } else {
        lemma_after_writes_update(p, i, c);
        assert(u.drop_last() =~= p.update(i, (writes[i].0, c)));
        assert(writes[i].0 != writes[writes.len() - 1].0);
    }
}

/// A wider vector, able to hold the sum of any number of [`Vector3`] values.
#[derive(Clone, Copy, Debug, PartialEq, Eq, Structural)]
pub struct WideVector3 {
    pub x: i128,
    pub y: i128,
    pub z: i128,
}

/// The force and torque that the physics integrator applies to a body for one tick.
#[derive(Clone, Copy, Debug, PartialEq, Eq, Structural)]
pub struct CombinedForce {
    pub force: WideVector3,
    pub torque: WideVector3,
}

impl CombinedForce {
    /// Component `axis`, numbered as for [`component`].
    pub open spec fn axis(self, axis: int) -> int {
        if axis == 0 {
            self.force.x as int
        } else if axis == 1 {
            self.force.y as int
        } else if axis == 2 {
            self.force.z as int
        } else if axis == 3 {
            self.torque.x as int
        } else if axis == 4 {
            self.torque.y as int
        } else {
            self.torque.z as int
        }
    }

    /// `self` is the componentwise sum of the entries of `m`.
    pub open spec fn is_total_of(self, m: Map<ContributorKey, ForceContribution>) -> bool {
        forall|axis: int| 0 <= axis < 6 ==> #[trigger] self.axis(axis) == total(m, axis)
    }
}

/// The most that `n` values of type `i64` can add up to.
spec fn sum_bound_hi(n: int) -> int {
    n * 0x7fff_ffff_ffff_ffff
}

/// The least that `n` values of type `i64` can add up to.
spec fn sum_bound_lo(n: int) -> int {
    n * -0x8000_0000_0000_0000
}

/// Each component of `v` lies within the range of a sum of `n` values of type `i64`.
spec fn wide_within(v: WideVector3, n: int) -> bool {
    &&& sum_bound_lo(n) <= v.x <= sum_bound_hi(n)
    &&& sum_bound_lo(n) <= v.y <= sum_bound_hi(n)
    &&& sum_bound_lo(n) <= v.z <= sum_bound_hi(n)
}

/// Adds `v` to the running sum `acc` of `n` values.
fn add_wide(acc: WideVector3, v: Vector3, n: Ghost<int>) -> (r: WideVector3)
    requires
        0 <= n@ < 0x1_0000_0000_0000_0000,
        wide_within(acc, n@),
    ensures
        r.x == acc.x + v.x,
        r.y == acc.y + v.y,
        r.z == acc.z + v.z,
        wide_within(r, n@ + 1),
{
    WideVector3 { x: acc.x + v.x as i128, y: acc.y + v.y as i128, z: acc.z + v.z as i128 }
}

/// The force ledger of one body: for each contributor, its current contribution.
pub struct ExternalForceSet {
    entries: Vec<(ContributorKey, ForceContribution)>,
}

impl View for ExternalForceSet {
    type V = Map<ContributorKey, ForceContribution>;

    closed spec fn view(&self) -> Map<ContributorKey, ForceContribution> {
        after_writes(self.entries@)
    }
}

impl ExternalForceSet {
    #[verifier::type_invariant]
    spec fn keys_unique(self) -> bool {
        distinct_keys(self.entries@)
    }

    /// An empty ledger.
    pub fn new() -> (r: ExternalForceSet)
        ensures
            r@ == Map::<ContributorKey, ForceContribution>::empty(),
    {
        ExternalForceSet { entries: Vec::new() }
    }

    /// The position of `key` among the entries, if it has one.
    fn find(&self, key: ContributorKey) -> (r: Option<usize>)
        ensures
            match r {
                Some(i) => i < self.entries@.len() && self.entries@[i as int].0 == key,
                None => forall|i: int| 0 <= i < self.entries@.len() ==> self.entries@[i].0 != key,
            },
    {
        let mut i: usize = 0;
        while i < self.entries.len()
            invariant
                i <= self.entries@.len(),
                forall|j: int| 0 <= j < i ==> self.entries@[j].0 != key,
            decreases self.entries@.len() - i,
        {
            if self.entries[i].0 == key {
                return Some(i);
            }
            i = i + 1;
        }
        None
    }

    /// The contribution stored under `key`, or the zero contribution if there is none.
    pub fn get(&self, key: ContributorKey) -> (r: ForceContribution)
        ensures
            r == lookup(self@, key),
            !self@.contains_key(key) ==> r == zero_contribution(),
    {
        proof {
            use_type_invariant(self);
            lemma_after_writes_entries(self.entries@);
        }
        match self.find(key) {
            Some(i) => self.entries[i].1,
            None => {
                assert(!self@.contains_key(key));
                ForceContribution::zero()
            },
        }
    }

    /// Stores `contribution` under `key`, replacing what was there.
    pub fn set(&mut self, key: ContributorKey, contribution: ForceContribution)
        ensures
            final(self)@ == old(self)@.insert(key, contribution),
    {
        proof {
            use_type_invariant(&*self);
        }
        let found = self.find(key);
        let mut entries = Vec::new();
        std::mem::swap(&mut entries, &mut self.entries);
        match found {
            Some(i) => {
                proof {
                    lemma_after_writes_update(entries@, i as int, contribution);
                }
                entries.set(i, (key, contribution));
            },
            None => {
                entries.push((key, contribution));
                assert(entries@.drop_last() == old(self).entries@);
            },
        }
        self.entries = entries;
    }

    /// The componentwise sum of all entries.
    pub fn combine(&self) -> (r: CombinedForce)
        ensures
            self@.dom().finite(),
            r.is_total_of(self@),
    {
        proof {
            use_type_invariant(self);
        }
        let mut force = WideVector3 { x: 0, y: 0, z: 0 };
        let mut torque = WideVector3 { x: 0, y: 0, z: 0 };
        let mut i: usize = 0;
        while i < self.entries.len()
            invariant
                i <= self.entries@.len(),
                wide_within(force, i as int),
                wide_within(torque, i as int),
                forall|axis: int| 0 <= axis < 6 ==> #[trigger] (CombinedForce { force, torque }).axis(axis)
                    == seq_total(self.entries@.take(i as int), axis),
            decreases self.entries@.len() - i,
        {
            let c = self.entries[i].1;
            let ghost before = CombinedForce { force, torque };
            force = add_wide(force, c.force, Ghost(i as int));
            torque = add_wide(torque, c.torque, Ghost(i as int));
            i = i + 1;
            proof {
                let s = self.entries@.take(i as int);
                assert(s.drop_last() =~= self.entries@.take(i - 1));
                assert(s.last() == self.entries@[i - 1]);
                assert forall|axis: int| 0 <= axis < 6 implies #[trigger] (CombinedForce {
                    force,
                    torque,
                }).axis(axis) == seq_total(s, axis) by {
                    assert(before.axis(axis) == seq_total(s.drop_last(), axis));
                    assert(seq_total(s, axis) == seq_total(s.drop_last(), axis) + component(c, axis));
                }
            }
        }
        proof {
            assert(self.entries@.take(i as int) =~= self.entries@);
            lemma_after_writes_entries(self.entries@);
            assert forall|axis: int| 0 <= axis < 6 implies #[trigger] total(self@, axis)
                == seq_total(self.entries@, axis) by {
                lemma_total_of_writes(self.entries@, axis);
            }
        }
        CombinedForce { force, torque }
    }
}

impl Default for ExternalForceSet {
    fn default() -> (r: ExternalForceSet)
        ensures
            r@ == Map::<ContributorKey, ForceContribution>::empty(),
    {
        ExternalForceSet::new()
    }
}

/// Publishes the combined force of each body: `applied[i]` becomes the sum of
/// the entries of `ledgers[i]`.
pub fn update_external_forces(ledgers: &Vec<ExternalForceSet>, applied: &mut Vec<CombinedForce>)
    requires
        old(applied)@.len() == ledgers@.len(),
    ensures
        final(applied)@.len() == ledgers@.len(),
        forall|i: int| 0 <= i < ledgers@.len() ==> #[trigger] final(applied)@[i].is_total_of(ledgers@[i]@),
{
    let mut i: usize = 0;
    while i < ledgers.len()
        invariant
            i <= ledgers@.len(),
            applied@.len() == ledgers@.len(),
            forall|j: int| 0 <= j < i ==> #[trigger] applied@[j].is_total_of(ledgers@[j]@),
        decreases ledgers@.len() - i,
    {
        let combined = ledgers[i].combine();
        applied.set(i, combined);
        i = i + 1;
    }
}

/// Writing a set of entries with distinct keys gives the same ledger, and so
/// the same combined force, whatever the order of the writes.
pub proof fn lemma_combine_order_independent(
    first: Seq<(ContributorKey, ForceContribution)>,
    second: Seq<(ContributorKey, ForceContribution)>,
)
    requires
        distinct_keys(first),
        distinct_keys(second),
        first.to_multiset() == second.to_multiset(),
    ensures
        after_writes(first) == after_writes(second),
        forall|axis: int| #[trigger] total(after_writes(first), axis) == total(after_writes(second), axis),
{
    lemma_after_writes_entries(first);
    lemma_after_writes_entries(second);
    first.to_multiset_ensures();
    second.to_multiset_ensures();
    let m1 = after_writes(first);
    let m2 = after_writes(second);
    assert forall|k: ContributorKey| #[trigger] m1.contains_key(k) implies m2.contains_key(k) && m2[k] == m1[k] by {
        let i = choose|i: int| 0 <= i < first.len() && first[i].0 == k;
        assert(first.contains(first[i]));
        assert(first.to_multiset().count(first[i]) > 0);
        assert(second.to_multiset().count(first[i]) > 0);
        let j = choose|j: int| 0 <= j < second.len() && second[j] == first[i];
        assert(m2.contains_key(second[j].0));
    }
    assert forall|k: ContributorKey| #[trigger] m2.contains_key(k) implies m1.contains_key(k) by {
        let j = choose|j: int| 0 <= j < second.len() && second[j].0 == k;
        assert(second.contains(second[j]));
        assert(second.to_multiset().count(second[j]) > 0);
        assert(first.to_multiset().count(second[j]) > 0);
        let i = choose|i: int| 0 <= i < first.len() && first[i] == second[j];
        assert(m1.contains_key(first[i].0));
    }
    assert(m1 =~= m2);
}

/// Two writes to different keys give the same ledger in either order.
pub proof fn lemma_writes_to_distinct_keys_commute(
    m: Map<ContributorKey, ForceContribution>,
    first: (ContributorKey, ForceContribution),
    second: (ContributorKey, ForceContribution),
)
    requires
        first.0 != second.0,
    ensures
        m.insert(first.0, first.1).insert(second.0, second.1) == m.insert(second.0, second.1).insert(
            first.0,
            first.1,
        ),
{
    assert(m.insert(first.0, first.1).insert(second.0, second.1) =~= m.insert(second.0, second.1).insert(
        first.0,
        first.1,
    ));
}

/// Reading a key right after writing it yields exactly what was written.
pub proof fn lemma_set_then_get(
    m: Map<ContributorKey, ForceContribution>,
    key: ContributorKey,
    contribution: ForceContribution,
)
    ensures
        lookup(m.insert(key, contribution), key) == contribution,
{
}

/// Reading a key that was never written yields no force and no torque.
pub proof fn lemma_unset_key_is_zero(m: Map<ContributorKey, ForceContribution>, key: ContributorKey)
    requires
        !m.contains_key(key),
    ensures
        lookup(m, key) == zero_contribution(),
        forall|axis: int| 0 <= axis < 6 ==> #[trigger] component(lookup(m, key), axis) == 0,
{
}

/// An empty ledger combines to the zero force and torque.
pub proof fn lemma_empty_combines_to_zero()
    ensures
        forall|axis: int| #[trigger] total(Map::<ContributorKey, ForceContribution>::empty(), axis) == 0,
{
    assert(Map::<ContributorKey, ForceContribution>::empty().dom() =~= Set::empty());
}

} // verus!
