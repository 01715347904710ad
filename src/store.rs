use vstd::prelude::*;

verus! {

/// What a derived computation does with the sum of its dependencies' values.
#[derive(Clone, Copy, Debug, PartialEq, Eq, Structural)]
pub enum Formula {
    /// The sum itself.
    Sum,
    /// The sum times a factor.
    Scale(i32),
    /// 1 when the sum is greater than the threshold, else 0.
    Above(i32),
}

/// Sum of a sequence of cell values.
pub open spec fn sum_of(s: Seq<i32>) -> int
    decreases s.len(),
{
    if s.len() == 0 {
        0
    } else {
        sum_of(s.drop_last()) + s.last()
    }
}

/// The value a formula gives for the given dependency values.
pub open spec fn eval_on(f: Formula, dv: Seq<i32>) -> int {
    match f {
        Formula::Sum => sum_of(dv),
        Formula::Scale(k) => k * sum_of(dv),
        Formula::Above(t) => if sum_of(dv) > t {
            1
        } else {
            0
        },
    }
}

/// The values of the cells `deps`, in that order.
pub open spec fn values_at(vals: Seq<i32>, deps: Seq<usize>) -> Seq<i32> {
    Seq::new(deps.len(), |k: int| vals[deps[k] as int])
}

/// Largest number of dependencies a derived computation may have.
pub const MAX_DEPS: usize = 0xffff_ffff;

proof fn lemma_sum_bound(s: Seq<i32>)
    ensures
        -0x8000_0000 * s.len() <= sum_of(s) <= 0x7fff_ffff * s.len(),
    decreases s.len(),
{
    if s.len() > 0 {
        lemma_sum_bound(s.drop_last());
    }
}

/// A store of integer cells and of computations derived from them.
///
/// Every write stamps the cell with a fresh revision taken from a clock that
/// only moves forward. A derived computation remembers the revisions of its
/// dependencies at its last evaluation and runs again only when one moved.
pub struct Store {
    values: Vec<i32>,
    revisions: Vec<u64>,
    clock: u64,
    /// The value written under each revision stamp handed out so far.
    log: Ghost<Map<u64, i32>>,
    formulas: Vec<Formula>,
    deps: Vec<Vec<usize>>,
    seen: Vec<Option<Vec<u64>>>,
    cached: Vec<i128>,
    /// The dependency values at each derived computation's last evaluation.
    seen_values: Ghost<Seq<Seq<i32>>>,
}

/// Value of cell `id` after the writes `ws` (cell, value), applied in order
/// to the values `vals`.
pub open spec fn apply_writes(vals: Seq<i32>, ws: Seq<(int, i32)>) -> Seq<i32>
    decreases ws.len(),
{
    if ws.len() == 0 {
        vals
    } else {
        apply_writes(vals, ws.drop_last()).update(ws.last().0, ws.last().1)
    }
}

/// The last value that `ws` writes to cell `id`, if any.
pub open spec fn last_write(ws: Seq<(int, i32)>, id: int) -> Option<i32>
    decreases ws.len(),
{
    if ws.len() == 0 {
        None
    } else if ws.last().0 == id {
        Some(ws.last().1)
    } else {
        last_write(ws.drop_last(), id)
    }
}

/// After any sequence of writes, a cell reads the value last written to it;
/// a cell that was not written keeps its value. A single write, as `set`
/// performs it, is the case of a one-element sequence.
pub proof fn law_read_last_write(vals: Seq<i32>, ws: Seq<(int, i32)>, id: int)
    requires
        0 <= id < vals.len(),
        forall|j: int| 0 <= j < ws.len() ==> 0 <= #[trigger] ws[j].0 < vals.len(),
    ensures
        apply_writes(vals, ws).len() == vals.len(),
        apply_writes(vals, ws)[id] == match last_write(ws, id) {
            Some(v) => v,
            None => vals[id],
        },
    decreases ws.len(),
{
    if ws.len() > 0 {
        let init = ws.drop_last();
        assert forall|j: int| 0 <= j < init.len() implies 0 <= #[trigger] init[j].0 < vals.len() by {
            assert(init[j] == ws[j]);
        }
        law_read_last_write(vals, init, id);
        assert(0 <= ws[ws.len() - 1].0 < vals.len());
    }
}

/// A derived computation that has seen the current revisions goes stale
/// after a write exactly when the written cell is one of its dependencies:
/// a write to an unrelated cell never makes it run again.
pub proof fn law_rerun_iff_dependency_written(before: Store, after: Store, id: usize, v: i32, m: int)
    requires
        before.wf(),
        id < before.vals().len(),
        before.is_write(&after, id as int, v),
        0 <= m < before.memo_count(),
        !before.stale(m),
    ensures
        after.stale(m) <==> before.deps_of(m).contains(id),
{
    lemma_write_staleness(before, after, id, v, m);
}

/// Once a write returns, every derived computation already stands for its
/// formula over the written values; one that scales a single cell, as a
/// doubled count does, stands for the factor times the value written.
pub proof fn law_write_seen_by_derived(before: Store, after: Store, id: usize, v: i32, m: int)
    requires
        before.wf(),
        id < before.vals().len(),
        before.is_write(&after, id as int, v),
        0 <= m < before.memo_count(),
    ensures
        after.formula(m) == before.formula(m),
        after.deps_of(m) == before.deps_of(m),
        after.current(m) == eval_on(
            before.formula(m),
            values_at(before.vals().update(id as int, v), before.deps_of(m)),
        ),
        before.deps_of(m) == seq![id] ==> after.current(m) == eval_on(before.formula(m), seq![v]),
        before.deps_of(m) == seq![id] && before.formula(m) is Scale ==> after.current(m)
            == before.formula(m)->Scale_0 * v,
{
    if before.deps_of(m) == seq![id] {
        let dv = values_at(after.vals(), after.deps_of(m));
        assert(dv =~= seq![v]);
        let one = seq![v];
        assert(one.drop_last() =~= Seq::<i32>::empty());
        assert(one.last() == v);
        assert(sum_of(one.drop_last()) == 0);
        assert(sum_of(one) == v);
    }
}

proof fn lemma_write_staleness(before: Store, after: Store, id: usize, v: i32, m: int)
    requires
        before.wf(),
        id < before.vals().len(),
        before.is_write(&after, id as int, v),
        0 <= m < before.memo_count(),
    ensures
        after.stale(m) == (before.stale(m) || before.deps_of(m).contains(id)),
{
    let d = before.deps@[m]@;
    if before.seen@[m] is Some {
        let r = before.seen@[m].unwrap()@;
        if d.contains(id) {
            let k = choose|k: int| 0 <= k < d.len() && d[k] == id;
            assert(before.log@.contains_key(r[k]));
            assert(r[k] <= before.clock);
                        assert(after.revisions@[id as int] == after.clock);
            assert(r[k] != after.revisions@[d[k] as int]);
        } else {
            assert forall|k: int| 0 <= k < d.len() implies after.revisions@[d[k] as int]
                == before.revisions@[d[k] as int] by {
                assert(d[k] != id);
            }
        }
    }
}

impl Store {
    /// Current values of the cells, by id.
    pub closed spec fn vals(&self) -> Seq<i32> {
        self.values@
    }

    /// Current revisions of the cells, by id.
    pub closed spec fn revs(&self) -> Seq<u64> {
        self.revisions@
    }

    /// The revision clock: the last stamp handed out.
    pub closed spec fn now(&self) -> u64 {
        self.clock
    }

    /// Number of derived computations.
    pub closed spec fn memo_count(&self) -> nat {
        self.formulas@.len()
    }

    pub closed spec fn formula(&self, m: int) -> Formula {
        self.formulas@[m]
    }

    /// The cells a derived computation reads.
    pub closed spec fn deps_of(&self, m: int) -> Seq<usize> {
        self.deps@[m]@
    }

    /// Whether a derived computation must run on its next read: it never ran,
    /// or a dependency's revision differs from the one it saw.
    pub closed spec fn stale(&self, m: int) -> bool {
        match self.seen@[m] {
            None => true,
            Some(r) => exists|k: int|
                0 <= k < self.deps@[m]@.len() && #[trigger] r@[k] != self.revisions@[
                    self.deps@[m]@[k] as int
                ],
        }
    }

    /// `after` is this store with cell `id` written to `v` and nothing else
    /// changed but the clock.
    pub closed spec fn is_write(&self, after: &Store, id: int, v: i32) -> bool {
        &&& after.values@ == self.values@.update(id, v)
        &&& after.clock == self.clock + 1
        &&& after.revisions@ == self.revisions@.update(id, after.clock)
        &&& after.log@ == self.log@.insert(after.clock, v)
        &&& after.formulas == self.formulas
        &&& after.deps == self.deps
        &&& after.seen == self.seen
        &&& after.cached == self.cached
        &&& after.seen_values == self.seen_values
    }

    /// The value a derived computation stands for right now.
    pub open spec fn current(&self, m: int) -> int {
        eval_on(self.formula(m), values_at(self.vals(), self.deps_of(m)))
    }

    pub closed spec fn wf(&self) -> bool {
        &&& self.values@.len() == self.revisions@.len()
        &&& forall|i: int|
            0 <= i < self.revisions@.len() ==> {
                &&& 1 <= #[trigger] self.revisions@[i] <= self.clock
                &&& self.log@.contains_key(self.revisions@[i])
                &&& self.log@[self.revisions@[i]] == self.values@[i]
            }
        &&& forall|s: u64| #[trigger] self.log@.contains_key(s) ==> s <= self.clock
        &&& self.deps@.len() == self.formulas@.len()
        &&& self.seen@.len() == self.formulas@.len()
        &&& self.cached@.len() == self.formulas@.len()
        &&& self.seen_values@.len() == self.formulas@.len()
        &&& forall|m: int|
            0 <= m < self.formulas@.len() ==> {
                &&& #[trigger] self.deps@[m]@.len() <= MAX_DEPS
                &&& forall|k: int|
                    0 <= k < self.deps@[m]@.len() ==> #[trigger] self.deps@[m]@[k]
                        < self.values@.len()
            }
        &&& forall|m: int|
            0 <= m < self.formulas@.len() && (#[trigger] self.seen@[m]) is Some ==> {
                let r = self.seen@[m].unwrap()@;
                let sv = self.seen_values@[m];
                &&& r.len() == self.deps@[m]@.len()
                &&& sv.len() == self.deps@[m]@.len()
                &&& forall|k: int|
                    0 <= k < r.len() ==> {
                        &&& self.log@.contains_key(#[trigger] r[k])
                        &&& self.log@[r[k]] == sv[k]
                    }
                &&& self.cached@[m] == eval_on(self.formulas@[m], sv)
            }
    }

    /// An empty store.
    pub fn new() -> (r: Store)
        ensures
            r.wf(),
            r.vals().len() == 0,
            r.memo_count() == 0,
            r.now() == 0,
    {
        Store {
            values: Vec::new(),
            revisions: Vec::new(),
            clock: 0,
            log: Ghost(Map::empty()),
            formulas: Vec::new(),
            deps: Vec::new(),
            seen: Vec::new(),
            cached: Vec::new(),
            seen_values: Ghost(Seq::empty()),
        }
    }

    /// Number of cells.
    pub fn len(&self) -> (r: usize)
        ensures
            r == self.vals().len(),
    {
        self.values.len()
    }

    /// Current value of a cell.
    pub fn get(&self, id: usize) -> (r: i32)
        requires
            self.wf(),
            id < self.vals().len(),
        ensures
            r == self.vals()[id as int],
    {
        self.values[id]
    }

    /// The last revision stamp handed out.
    pub fn clock(&self) -> (r: u64)
        ensures
            r == self.now(),
    {
        self.clock
    }

    /// Number of derived computations.
    pub fn memos(&self) -> (r: usize)
        requires
            self.wf(),
        ensures
            r == self.memo_count(),
    {
        self.formulas.len()
    }

    /// Current revision of a cell.
    pub fn revision(&self, id: usize) -> (r: u64)
        requires
            self.wf(),
            id < self.vals().len(),
        ensures
            r == self.revs()[id as int],
    {
        self.revisions[id]
    }

    /// Allocates a cell holding `initial`; its id is the number of cells
    /// before the call.
    pub fn create_cell(&mut self, initial: i32) -> (id: usize)
        requires
            old(self).wf(),
            old(self).now() < u64::MAX,
        ensures
            final(self).wf(),
            id == old(self).vals().len(),
            final(self).vals() == old(self).vals().push(initial),
            final(self).revs() == old(self).revs().push((old(self).now() + 1) as u64),
            final(self).now() == old(self).now() + 1,
            final(self).memo_count() == old(self).memo_count(),
            forall|m: int|
                0 <= m < old(self).memo_count() ==> {
                    &&& #[trigger] final(self).formula(m) == old(self).formula(m)
                    &&& final(self).deps_of(m) == old(self).deps_of(m)
                    &&& final(self).stale(m) == old(self).stale(m)
                },
    {
        let id = self.values.len();
        self.clock = self.clock + 1;
        self.values.push(initial);
        self.revisions.push(self.clock);
        self.log = Ghost(self.log@.insert(self.clock, initial));
        assert forall|m: int| 0 <= m < self.formulas@.len() implies #[trigger] self.stale(m)
            == old(self).stale(m) by {
            if self.seen@[m] is Some {
                let r = self.seen@[m].unwrap()@;
                assert forall|k: int| 0 <= k < self.deps@[m]@.len() implies self.revisions@[
                    self.deps@[m]@[k] as int] == old(self).revisions@[self.deps@[m]@[k] as int] by {
                    assert(self.deps@[m]@[k] < old(self).values@.len());
                }
            }
        }
        id
    }

    /// Registers a derived computation over the cells `deps`; it first runs
    /// on its first read.
    pub fn derive(&mut self, formula: Formula, deps: Vec<usize>) -> (m: usize)
        requires
            old(self).wf(),
            deps@.len() <= MAX_DEPS,
            forall|k: int| 0 <= k < deps@.len() ==> #[trigger] deps@[k] < old(self).vals().len(),
        ensures
            final(self).wf(),
            m == old(self).memo_count(),
            final(self).memo_count() == old(self).memo_count() + 1,
            final(self).formula(m as int) == formula,
            final(self).deps_of(m as int) == deps@,
            final(self).stale(m as int),
            final(self).vals() == old(self).vals(),
            final(self).revs() == old(self).revs(),
            final(self).now() == old(self).now(),
            forall|q: int|
                0 <= q < old(self).memo_count() ==> {
                    &&& #[trigger] final(self).formula(q) == old(self).formula(q)
                    &&& final(self).deps_of(q) == old(self).deps_of(q)
                    &&& final(self).stale(q) == old(self).stale(q)
                },
    {
        let m = self.formulas.len();
        self.formulas.push(formula);
        self.deps.push(deps);
        self.seen.push(None);
        self.cached.push(0);
        self.seen_values = Ghost(self.seen_values@.push(Seq::empty()));
        assert forall|q: int| 0 <= q < old(self).memo_count() implies #[trigger] self.stale(q)
            == old(self).stale(q) by {
            assert(self.seen@[q] == old(self).seen@[q]);
            assert(self.deps@[q] == old(self).deps@[q]);
        }
        m
    }

    /// Reads a derived computation. It runs again exactly when it is stale;
    /// otherwise the value of its last run is returned. Either way the value
    /// is the formula over the current values of its dependencies. The flag
    /// tells whether it ran.
    pub fn read(&mut self, m: usize) -> (r: (i128, bool))
        requires
            old(self).wf(),
            m < old(self).memo_count(),
        ensures
            final(self).wf(),
            r.0 == old(self).current(m as int),
            r.1 == old(self).stale(m as int),
            !final(self).stale(m as int),
            final(self).vals() == old(self).vals(),
            final(self).revs() == old(self).revs(),
            final(self).now() == old(self).now(),
            final(self).memo_count() == old(self).memo_count(),
            forall|q: int|
                0 <= q < old(self).memo_count() ==> {
                    &&& #[trigger] final(self).formula(q) == old(self).formula(q)
                    &&& final(self).deps_of(q) == old(self).deps_of(q)
                },
            forall|q: int|
                0 <= q < old(self).memo_count() && q != m ==> #[trigger] final(self).stale(q)
                    == old(self).stale(q),
    {
        let ghost dv = values_at(self.values@, self.deps@[m as int]@);
        let d = &self.deps[m];
        let stale = match &self.seen[m] {
            None => true,
            Some(r) => {
                let mut k: usize = 0;
                let mut differs = false;
                while k < d.len()
                    invariant
                        self.wf(),
                        m < self.formulas@.len(),
                        d == self.deps@[m as int],
                        self.seen@[m as int] == Some(*r),
                        k <= d@.len(),
                        differs <==> exists|t: int|
                            0 <= t < k && #[trigger] r@[t] != self.revisions@[d@[t] as int],
                    decreases d@.len() - k,
                {
                    if r[k] != self.revisions[d[k]] {
                        differs = true;
                    }
                    k = k + 1;
                }
                differs
            },
        };
        if !stale {
            proof {
                let r = self.seen@[m as int].unwrap()@;
                let sv = self.seen_values@[m as int];
                assert forall|k: int| 0 <= k < d@.len() implies dv[k] == sv[k] by {
                    assert(!(r[k] != self.revisions@[d@[k] as int]));
                    assert(self.log@.contains_key(r[k]));
                }
                assert(dv =~= sv);
            }
            return (self.cached[m], false);
        }
        let mut sum: i64 = 0;
        let mut revs: Vec<u64> = Vec::new();
        let mut k: usize = 0;
        while k < d.len()
            invariant
                self.wf(),
                m < self.formulas@.len(),
                d == self.deps@[m as int],
                dv == values_at(self.values@, d@),
                k <= d@.len(),
                d@.len() <= MAX_DEPS,
                sum == sum_of(dv.subrange(0, k as int)),
                revs@.len() == k,
                forall|t: int| 0 <= t < k ==> #[trigger] revs@[t] == self.revisions@[d@[t] as int],
            decreases d@.len() - k,
        {
            proof {
                let p = dv.subrange(0, k as int + 1);
                assert(p.drop_last() =~= dv.subrange(0, k as int));
                lemma_sum_bound(p);
            }
            sum = sum + self.values[d[k]] as i64;
            revs.push(self.revisions[d[k]]);
            k = k + 1;
        }
        assert(dv.subrange(0, k as int) =~= dv);
        proof {
            lemma_sum_bound(dv);
        }
        let s = sum as i128;
        let v: i128 = match self.formulas[m] {
            Formula::Sum => s,
            Formula::Scale(f) => {
                assert(-0x8000_0000 * 0x8000_0000 * 0x1_0000_0000 <= f * s <= 0x8000_0000 * 0x8000_0000 * 0x1_0000_0000) by (nonlinear_arith)
                    requires
                        -0x8000_0000 <= f <= 0x7fff_ffff,
                        -0x8000_0000 * 0x1_0000_0000 <= s <= 0x8000_0000 * 0x1_0000_0000;
                f as i128 * s
            },
            Formula::Above(t) => if s > t as i128 {
                1
            } else {
                0
            },
        };
        self.cached.set(m, v);
        self.seen.set(m, Some(revs));
        self.seen_values = Ghost(self.seen_values@.update(m as int, dv));
        proof {
            assert forall|q: int|
                0 <= q < self.formulas@.len() && q != m implies #[trigger] self.stale(q) == old(self).stale(q) by {
                assert(self.seen@[q] == old(self).seen@[q]);
            }
            assert forall|t: int| 0 <= t < dv.len() implies self.log@.contains_key(#[trigger] revs@[t]) && self.log@[revs@[t]] == dv[t] by {
                assert(d@[t] < self.values@.len());
            }
            assert(!self.stale(m as int));
        }
        (v, true)
    }

    /// Writes a cell: the value becomes `v` and the cell gets a fresh revision,
    /// greater than any handed out before. Returns the derived computations
    /// that read the cell, in the order they were created.
    pub fn set(&mut self, id: usize, v: i32) -> (subs: Vec<usize>)
        requires
            old(self).wf(),
            id < old(self).vals().len(),
            old(self).now() < u64::MAX,
        ensures
            final(self).wf(),
            final(self).vals() == old(self).vals().update(id as int, v),
            final(self).revs() == old(self).revs().update(id as int, final(self).now()),
            final(self).now() == old(self).now() + 1,
            old(self).is_write(final(self), id as int, v),
            old(self).revs()[id as int] < final(self).revs()[id as int],
            final(self).memo_count() == old(self).memo_count(),
            forall|m: int|
                0 <= m < old(self).memo_count() ==> {
                    &&& #[trigger] final(self).formula(m) == old(self).formula(m)
                    &&& final(self).deps_of(m) == old(self).deps_of(m)
                },
            forall|m: int|
                0 <= m < old(self).memo_count() && !old(self).deps_of(m).contains(id) ==> (
                #[trigger] final(self).stale(m) == old(self).stale(m)),
            forall|m: int|
                0 <= m < old(self).memo_count() && old(self).deps_of(m).contains(id) ==> #[trigger] final(self).stale(m),
            forall|j: int|
                0 <= j < subs@.len() ==> #[trigger] subs@[j] < old(self).memo_count()
                    && old(self).deps_of(subs@[j] as int).contains(id),
            forall|m: int|
                0 <= m < old(self).memo_count() && old(self).deps_of(m).contains(id) ==> #[trigger] subs@.contains(m as usize),
            forall|a: int, b: int| 0 <= a < b < subs@.len() ==> subs@[a] < subs@[b],
    {
        self.clock = self.clock + 1;
        self.values.set(id, v);
        self.revisions.set(id, self.clock);
        self.log = Ghost(self.log@.insert(self.clock, v));
        assert forall|m: int| 0 <= m < self.formulas@.len() implies (#[trigger] self.stale(m)
            == (old(self).stale(m) || old(self).deps_of(m).contains(id))) by {
            lemma_write_staleness(*old(self), *self, id, v, m);
        }
        let mut subs: Vec<usize> = Vec::new();
        let mut m: usize = 0;
        while m < self.deps.len()
            invariant
                self.wf(),
                m <= self.deps@.len(),
                self.deps@.len() == old(self).memo_count(),
                self.deps == old(self).deps,
                forall|j: int|
                    0 <= j < subs@.len() ==> #[trigger] subs@[j] < m && old(self).deps_of(
                        subs@[j] as int,
                    ).contains(id),
                forall|q: int|
                    0 <= q < m && old(self).deps_of(q).contains(id) ==> #[trigger] subs@.contains(q as usize),
                forall|a: int, b: int| 0 <= a < b < subs@.len() ==> subs@[a] < subs@[b],
            decreases self.deps@.len() - m,
        {
            let d = &self.deps[m];
            let mut k: usize = 0;
            let mut found = false;
            while k < d.len()
                invariant
                    k <= d@.len(),
                    found <==> exists|t: int| 0 <= t < k && d@[t] == id,
                decreases d@.len() - k,
            {
                if d[k] == id {
                    found = true;
                }
                k = k + 1;
            }
            let ghost before = subs@;
            if found {
                proof {
                    let t = choose|t: int| 0 <= t < k && d@[t] == id;
                    assert(old(self).deps_of(m as int)[t] == id);
                }
                subs.push(m);
            } else {
                assert(!old(self).deps_of(m as int).contains(id));
            }
            proof {
                assert forall|q: int|
                    0 <= q < m + 1 && old(self).deps_of(q).contains(id) implies #[trigger] subs@.contains(q as usize) by {
                    if q == m {
                        assert(subs@[subs@.len() - 1] == m);
                    } else {
                        assert(before.contains(q as usize));
                        let j = choose|j: int| 0 <= j < before.len() && before[j] == q as usize;
                        assert(subs@[j] == q);
                    }
                }
            }
            m = m + 1;
        }
        subs
    }
}

/// Collects the cells read while derived computations evaluate. Each
/// evaluation opens a frame; a read is recorded in the innermost open frame
/// only, so nested evaluations keep their dependencies apart.
pub struct Tracker {
    frames: Vec<Vec<usize>>,
}

impl Tracker {
    /// The reads recorded in each open frame, innermost last.
    pub closed spec fn view(&self) -> Seq<Seq<usize>> {
        Seq::new(self.frames@.len(), |i: int| self.frames@[i]@)
    }

    /// A tracker with no open frame.
    pub fn new() -> (r: Tracker)
        ensures
            r.view().len() == 0,
    {
        Tracker { frames: Vec::new() }
    }

    /// Opens a frame for an evaluation.
    pub fn begin(&mut self)
        ensures
            final(self).view() == old(self).view().push(Seq::empty()),
    {
        self.frames.push(Vec::new());
        assert(self.view() =~= old(self).view().push(Seq::empty()));
    }

    /// Reads a cell, and records the read in the innermost open frame, if any.
    pub fn read(&mut self, store: &Store, id: usize) -> (r: i32)
        requires
            store.wf(),
            id < store.vals().len(),
        ensures
            r == store.vals()[id as int],
            old(self).view().len() == 0 ==> final(self).view() == old(self).view(),
            old(self).view().len() > 0 ==> final(self).view() == old(self).view().update(
                old(self).view().len() - 1,
                old(self).view().last().push(id),
            ),
    {
        match self.frames.pop() {
            Some(mut top) => {
                top.push(id);
                self.frames.push(top);
                assert(self.view() =~= old(self).view().update(
                    old(self).view().len() - 1,
                    old(self).view().last().push(id),
                ));
            },
            None => {},
        }
        store.get(id)
    }

    /// Closes the innermost frame and returns the cells read in it, in the
    /// order read.
    pub fn end(&mut self) -> (deps: Vec<usize>)
        requires
            old(self).view().len() > 0,
        ensures
            deps@ == old(self).view().last(),
            final(self).view() == old(self).view().drop_last(),
    {
        let top = self.frames.pop().unwrap();
        assert(self.view() =~= old(self).view().drop_last());
        top
    }
}

} // verus!
