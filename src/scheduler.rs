//! The system schedule: systems registered with their dependencies, put in
//! an order where each runs after everything it depends on, and otherwise
//! in registration order.
use vstd::prelude::*;

verus! {

broadcast use vstd::seq_lib::lemma_seq_contains_after_push;

/// The systems of a frame.
#[derive(Clone, Copy, PartialEq, Eq, Structural, Debug, Hash)]
pub enum SystemKind {
    Gun,
    Collision,
    DamageOnCollision,
    CollisionReactions,
    Health,
    Motion,
    PositionBounds,
    Timeout,
    DespawnBounds,
    DespawnOnCollision,
    Score,
    PointsOnLastHit,
    AttractMode,
    PlayingMode,
    GameOverMode,
}

#[derive(Clone, Copy, PartialEq, Eq, Structural, Debug)]
pub enum ScheduleError {
    /// A system was registered twice.
    DuplicateSystem(SystemKind),
    /// A system depends on one that was never registered.
    UnknownDependency { system: SystemKind, dependency: SystemKind },
    /// The dependencies form a cycle.
    Cycle,
}

pub struct Scheduler {
    names: Vec<SystemKind>,
    deps: Vec<Vec<SystemKind>>,
}

/// Whether the index sequence `s` holds `x`.
pub open spec fn placed(s: Seq<usize>, x: int) -> bool {
    exists|k: int| 0 <= k < s.len() && s[k] as int == x
}

/// The number of `false` entries in `s`.
pub open spec fn count_false(s: Seq<bool>) -> nat
    decreases s.len(),
{
    if s.len() == 0 {
        0
    } else {
        count_false(s.drop_last()) + if s.last() {
            0nat
        } else {
            1nat
        }
    }
}

proof fn lemma_count_false_update(s: Seq<bool>, j: int)
    requires
        0 <= j < s.len(),
        !s[j],
    ensures
        count_false(s.update(j, true)) + 1 == count_false(s),
    decreases s.len(),
{
    let t = s.update(j, true);
    if j == s.len() - 1 {
        assert(t.drop_last() =~= s.drop_last());
    } else {
        assert(t.drop_last() =~= s.drop_last().update(j, true));
        lemma_count_false_update(s.drop_last(), j);
    }
}

proof fn lemma_count_false_some(s: Seq<bool>)
    requires
        count_false(s) > 0,
    ensures
        exists|j: int| 0 <= j < s.len() && !s[j],
    decreases s.len(),
{
    if !s.last() {
        assert(!s[s.len() - 1]);
    } else {
        lemma_count_false_some(s.drop_last());
        let j = choose|j: int| 0 <= j < s.drop_last().len() && !s.drop_last()[j];
        assert(!s[j]);
    }
}

proof fn lemma_count_false_none(s: Seq<bool>)
    requires
        count_false(s) == 0,
    ensures
        forall|j: int| 0 <= j < s.len() ==> s[j],
    decreases s.len(),
{
    if s.len() > 0 {
        lemma_count_false_none(s.drop_last());
        assert forall|j: int| 0 <= j < s.len() implies s[j] by {
            if j < s.len() - 1 {
                assert(s.drop_last()[j] == s[j]);
            }
        }
    }
}

proof fn lemma_count_false_all(n: nat)
    ensures
        count_false(Seq::new(n, |i: int| false)) == n,
    decreases n,
{
    if n > 0 {
        assert(Seq::new(n, |i: int| false).drop_last() =~= Seq::new((n - 1) as nat, |i: int| false));
        lemma_count_false_all((n - 1) as nat);
    }
}

impl Scheduler {
    /// The registered systems, in registration order.
    pub closed spec fn names_spec(&self) -> Seq<SystemKind> {
        self.names@
    }

    /// The dependencies that system `i` was registered with.
    pub closed spec fn deps_spec(&self, i: int) -> Seq<SystemKind> {
        self.deps@[i]@
    }

    pub closed spec fn wf(&self) -> bool {
        &&& self.names@.len() == self.deps@.len()
        &&& self.names@.no_duplicates()
    }

    /// Whether system `i` depends on system `j`.
    pub open spec fn depends(&self, i: int, j: int) -> bool {
        0 <= j < self.names_spec().len() && self.deps_spec(i).contains(self.names_spec()[j])
    }

    /// Whether every dependency of every system is registered.
    pub open spec fn deps_known(&self) -> bool {
        forall|i: int, d: SystemKind|
            0 <= i < self.names_spec().len() && #[trigger] self.deps_spec(i).contains(d)
                ==> self.names_spec().contains(d)
    }

    /// Whether system `i` may run once the systems of `done` have run.
    pub open spec fn ready(&self, done: Seq<usize>, i: int) -> bool {
        forall|j: int| #[trigger] self.depends(i, j) ==> placed(done, j)
    }

    /// Whether `order` runs every system once, each after its dependencies.
    pub open spec fn valid_order(&self, order: Seq<usize>) -> bool {
        &&& order.no_duplicates()
        &&& forall|k: int| 0 <= k < order.len() ==> #[trigger] order[k] < self.names_spec().len()
        &&& forall|i: int| 0 <= i < self.names_spec().len() ==> placed(order, i)
        &&& forall|k: int| 0 <= k < order.len() ==> self.ready(#[trigger] order.take(k), order[k] as int)
    }

    /// Whether `order` picks, at every step, the earliest registered system
    /// that is ready.
    pub open spec fn stable(&self, order: Seq<usize>) -> bool {
        forall|k: int, j: int|
            0 <= k < order.len() && 0 <= j < order[k] && !placed(order.take(k), j) ==> !(
            #[trigger] self.ready(order.take(k), j))
    }

    /// Whether `s` is a non-empty set of systems each of which depends on a
    /// member of `s`: a witness that the dependencies have a cycle.
    pub open spec fn closed_set(&self, s: Set<int>) -> bool {
        &&& exists|i: int| s.contains(i)
        &&& forall|i: int| #[trigger] s.contains(i) ==> 0 <= i < self.names_spec().len()
        &&& forall|i: int| #[trigger] s.contains(i) ==> exists|j: int| self.depends(i, j) && s.contains(j)
    }

    /// Whether each system's dependencies were all registered before it.
    pub open spec fn deps_registered_before(&self) -> bool {
        forall|i: int, d: SystemKind|
            0 <= i < self.names_spec().len() && #[trigger] self.deps_spec(i).contains(d) ==> exists|j: int|
                0 <= j < i && self.names_spec()[j] == d
    }

    /// When dependencies were registered before their dependents,
    /// registration order is a valid order, so there is no cycle.
    pub proof fn lemma_registration_order_valid(&self)
        requires
            self.wf(),
            self.deps_registered_before(),
            self.names_spec().len() <= usize::MAX,
        ensures
            self.deps_known(),
            self.valid_order(Seq::new(self.names_spec().len(), |i: int| i as usize)),
    {
        let n = self.names_spec().len();
        let o = Seq::new(n, |i: int| i as usize);
        assert forall|i: int, d: SystemKind|
            0 <= i < n && #[trigger] self.deps_spec(i).contains(d) implies self.names_spec().contains(d) by {
            let j = choose|j: int| 0 <= j < i && self.names_spec()[j] == d;
        }
        assert forall|i: int| 0 <= i < n implies placed(o, i) by {
            assert(o[i] as int == i);
        }
        assert forall|k: int| 0 <= k < o.len() implies self.ready(#[trigger] o.take(k), o[k] as int) by {
            assert forall|j: int| #[trigger] self.depends(k, j) implies placed(o.take(k), j) by {
                let d = self.names_spec()[j];
                let j2 = choose|j2: int| 0 <= j2 < k && self.names_spec()[j2] == d;
                assert(self.names@[j2] == self.names@[j]);
                assert(o.take(k)[j2] as int == j2);
            }
        }
    }

    pub fn new() -> (s: Scheduler)
        ensures
            s.wf(),
            s.names_spec() == Seq::<SystemKind>::empty(),
    {
        Scheduler { names: Vec::new(), deps: Vec::new() }
    }

    pub fn len(&self) -> (n: usize)
        requires
            self.wf(),
        ensures
            n == self.names_spec().len(),
    {
        self.names.len()
    }

    /// The system registered `i`-th.
    pub fn kind_at(&self, i: usize) -> (k: SystemKind)
        requires
            self.wf(),
            i < self.names_spec().len(),
        ensures
            k == self.names_spec()[i as int],
    {
        self.names[i]
    }

    /// Where `kind` was registered, if it was.
    pub fn index_of(&self, kind: SystemKind) -> (r: Option<usize>)
        requires
            self.wf(),
        ensures
            r matches Some(i) ==> i < self.names_spec().len() && self.names_spec()[i as int] == kind,
            r is None ==> !self.names_spec().contains(kind),
    {
        let mut i: usize = 0;
        while i < self.names.len()
            invariant
                i <= self.names@.len(),
                forall|k: int| 0 <= k < i ==> self.names@[k] != kind,
            decreases self.names@.len() - i,
        {
            if self.names[i] == kind {
                return Some(i);
            }
            i = i + 1;
        }
        None
    }

    /// Registers `kind`, to run after every system of `deps`.
    pub fn add(&mut self, kind: SystemKind, deps: Vec<SystemKind>) -> (r: Result<(), ScheduleError>)
        requires
            old(self).wf(),
        ensures
            final(self).wf(),
            r is Err <==> old(self).names_spec().contains(kind),
            r is Err ==> r == Err::<(), ScheduleError>(ScheduleError::DuplicateSystem(kind)),
            r is Err ==> final(self).names_spec() == old(self).names_spec(),
            r is Ok ==> final(self).names_spec() == old(self).names_spec().push(kind),
            r is Ok ==> final(self).deps_spec(old(self).names_spec().len() as int) == deps@,
            forall|i: int|
                0 <= i < old(self).names_spec().len() ==> final(self).deps_spec(i)
                    == old(self).deps_spec(i),
    {
        if self.index_of(kind).is_some() {
            return Err(ScheduleError::DuplicateSystem(kind));
        }
        proof {
            crate::seq_facts::lemma_push_no_duplicates(self.names@, kind);
        }
        self.names.push(kind);
        self.deps.push(deps);
        Ok(())
    }

    /// `list` names, by registration index, exactly the dependencies of system `i`.
    pub open spec fn dep_list(&self, i: int, list: Seq<usize>) -> bool {
        &&& forall|t: int| 0 <= t < list.len() ==> self.depends(i, #[trigger] list[t] as int)
        &&& forall|j: int| #[trigger] self.depends(i, j) ==> exists|t: int|
            0 <= t < list.len() && list[t] as int == j
    }

    /// `v` holds the dependency list of every system.
    pub open spec fn dep_lists(&self, v: Seq<Vec<usize>>) -> bool {
        &&& v.len() == self.names_spec().len()
        &&& forall|i: int| 0 <= i < v.len() ==> self.dep_list(i, #[trigger] v[i]@)
    }

    /// `done` marks exactly the systems placed in `order`.
    pub open spec fn marks(&self, done: Seq<bool>, order: Seq<usize>) -> bool {
        &&& done.len() == self.names_spec().len()
        &&& forall|x: int| 0 <= x < done.len() ==> (#[trigger] done[x] <==> placed(order, x))
    }

    /// For each system, the registration indices of its dependencies.
    fn resolve_deps(&self) -> (r: Result<Vec<Vec<usize>>, ScheduleError>)
        requires
            self.wf(),
        ensures
            r is Ok <==> self.deps_known(),
            r matches Err(e) ==> e matches ScheduleError::UnknownDependency { system, dependency }
                && exists|i: int|
                0 <= i < self.names_spec().len() && self.names_spec()[i] == system
                    && self.deps_spec(i).contains(dependency) && !self.names_spec().contains(
                    dependency,
                ),
            r matches Ok(v) ==> self.dep_lists(v@),
    {
        let n = self.names.len();
        let mut out: Vec<Vec<usize>> = Vec::new();
        let mut i: usize = 0;
        while i < n
            invariant
                self.wf(),
                n == self.names@.len(),
                i <= n,
                out@.len() == i,
                forall|a: int, d: SystemKind|
                    0 <= a < i && #[trigger] self.deps_spec(a).contains(d) ==> self.names_spec().contains(d),
                forall|a: int| 0 <= a < i ==> self.dep_list(a, #[trigger] out@[a]@),
            decreases n - i,
        {
            let ds = &self.deps[i];
            let mut idx: Vec<usize> = Vec::new();
            let mut k: usize = 0;
            while k < ds.len()
                invariant
                    self.wf(),
                    n == self.names@.len(),
                    i < n,
                    ds@ == self.deps_spec(i as int),
                    k <= ds@.len(),
                    forall|m: int| 0 <= m < k ==> self.names_spec().contains(#[trigger] ds@[m]),
                    forall|t: int| 0 <= t < idx@.len() ==> self.depends(i as int, #[trigger] idx@[t] as int),
                    forall|j: int|
                        0 <= j < n && #[trigger] ds@.subrange(0, k as int).contains(self.names@[j])
                            ==> exists|t: int| 0 <= t < idx@.len() && idx@[t] as int == j,
                decreases ds@.len() - k,
            {
                let d = ds[k];
                proof {
                    assert(ds@.subrange(0, k + 1) == ds@.subrange(0, k as int).push(d));
                }
                match self.index_of(d) {
                    Some(j) => {
                        let ghost before = idx@;
                        idx.push(j);
                        proof {
                            assert(ds@.contains(d));
                            assert(self.depends(i as int, j as int));
                            assert forall|x: int|
                                0 <= x < n && #[trigger] ds@.subrange(0, k + 1).contains(self.names@[x])
                                    implies exists|t: int| 0 <= t < idx@.len() && idx@[t] as int == x by {
                                if self.names@[x] == d {
                                    assert(self.names@[x] == self.names@[j as int]);
                                    assert(idx@[before.len() as int] as int == x);
                                } else {
                                    assert(ds@.subrange(0, k as int).contains(self.names@[x]));
                                    let t = choose|t: int| 0 <= t < before.len() && before[t] as int == x;
                                    assert(idx@[t] == before[t]);
                                }
                            }
                            assert forall|t: int| 0 <= t < idx@.len() implies self.depends(i as int, #[trigger] idx@[t] as int) by {
                                if t < before.len() {
                                    assert(idx@[t] == before[t]);
                                }
                            }
                        }
                    },
                    None => {
                        proof {
                            assert(self.deps_spec(i as int).contains(d));
                        }
                        return Err(
                            ScheduleError::UnknownDependency {
                                system: self.names[i],
                                dependency: d,
                            },
                        );
                    },
                }
                k = k + 1;
            }
            proof {
                assert(ds@.subrange(0, ds@.len() as int) == ds@);
                assert forall|d: SystemKind| #[trigger] self.deps_spec(i as int).contains(d) implies self.names_spec().contains(d) by {
                    let m = choose|m: int| 0 <= m < ds@.len() && ds@[m] == d;
                }
                assert forall|j: int| #[trigger] self.depends(i as int, j) implies exists|t: int|
                    0 <= t < idx@.len() && idx@[t] as int == j by {
                    assert(ds@.subrange(0, ds@.len() as int).contains(self.names@[j]));
                }
            }
            let ghost out_before = out@;
            out.push(idx);
            proof {
                assert forall|a: int| 0 <= a < i + 1 implies self.dep_list(a, #[trigger] out@[a]@) by {
                    if a < i {
                        assert(out@[a] == out_before[a]);
                    }
                }
            }
            i = i + 1;
        }
        Ok(out)
    }

    /// The earliest system that has not run and whose dependencies all have.
    fn first_ready(&self, dep_idx: &Vec<Vec<usize>>, done: &Vec<bool>, order: Ghost<Seq<usize>>) -> (r: Option<usize>)
        requires
            self.wf(),
            self.dep_lists(dep_idx@),
            self.marks(done@, order@),
        ensures
            r matches Some(p) ==> p < self.names_spec().len() && !done@[p as int] && self.ready(order@, p as int),
            forall|x: int|
                0 <= x < self.names_spec().len() && (r matches Some(p) ==> x < p) ==> done@[x] || !self.ready(order@, x),
    {
        let n = done.len();
        let mut j: usize = 0;
        while j < n
            invariant
                n == self.names_spec().len(),
                self.dep_lists(dep_idx@),
                self.marks(done@, order@),
                j <= n,
                forall|x: int| 0 <= x < j ==> done@[x] || !self.ready(order@, x),
            decreases n - j,
        {
            if !done[j] {
                let ds = &dep_idx[j];
                proof {
                    assert(self.dep_list(j as int, ds@));
                }
                let mut all = true;
                let mut m: usize = 0;
                while m < ds.len()
                    invariant
                        n == self.names_spec().len(),
                        j < n,
                        self.dep_list(j as int, ds@),
                        self.marks(done@, order@),
                        m <= ds@.len(),
                        all <==> forall|t: int| 0 <= t < m ==> done@[#[trigger] ds@[t] as int],
                    decreases ds@.len() - m,
                {
                    proof {
                        assert(self.depends(j as int, ds@[m as int] as int));
                    }
                    if !done[ds[m]] {
                        all = false;
                    }
                    m = m + 1;
                }
                proof {
                    if all {
                        assert forall|x: int| #[trigger] self.depends(j as int, x) implies placed(order@, x) by {
                            let t = choose|t: int| 0 <= t < ds@.len() && ds@[t] as int == x;
                            assert(done@[ds@[t] as int]);
                        }
                    } else {
                        let t = choose|t: int| 0 <= t < ds@.len() && !done@[#[trigger] ds@[t] as int];
                        assert(self.depends(j as int, ds@[t] as int));
                        assert(!placed(order@, ds@[t] as int));
                    }
                }
                if all {
                    return Some(j);
                }
            }
            j = j + 1;
        }
        None
    }

    /// Placing `p`, the earliest ready system, keeps the order valid so far
    /// and stable.
    proof fn lemma_place(&self, done: Seq<bool>, order: Seq<usize>, p: usize)
        requires
            self.marks(done, order),
            order.no_duplicates(),
            forall|k: int| 0 <= k < order.len() ==> #[trigger] order[k] < self.names_spec().len(),
            forall|k: int| 0 <= k < order.len() ==> self.ready(#[trigger] order.take(k), order[k] as int),
            self.stable(order),
            p < self.names_spec().len(),
            !done[p as int],
            self.ready(order, p as int),
            forall|x: int| 0 <= x < p ==> done[x] || !self.ready(order, x),
        ensures
            self.marks(done.update(p as int, true), order.push(p)),
            order.push(p).no_duplicates(),
            forall|k: int|
                0 <= k < order.len() + 1 ==> #[trigger] order.push(p)[k] < self.names_spec().len(),
            forall|k: int|
                0 <= k < order.len() + 1 ==> self.ready(
                    #[trigger] order.push(p).take(k),
                    order.push(p)[k] as int,
                ),
            self.stable(order.push(p)),
    {
        let o2 = order.push(p);
        let d2 = done.update(p as int, true);
        assert(!placed(order, p as int));
        if order.contains(p) {
            let k = choose|k: int| 0 <= k < order.len() && order[k] == p;
            assert(order[k] as int == p as int);
            assert(placed(order, p as int));
        }
        crate::seq_facts::lemma_push_no_duplicates(order, p);
        assert(o2.take(order.len() as int) =~= order);
        assert forall|x: int| 0 <= x < d2.len() implies (#[trigger] d2[x] <==> placed(o2, x)) by {
            if placed(order, x) {
                let k = choose|k: int| 0 <= k < order.len() && order[k] as int == x;
                assert(o2[k] == order[k]);
            }
            if placed(o2, x) && x != p as int {
                let k = choose|k: int| 0 <= k < o2.len() && o2[k] as int == x;
                assert(k < order.len());
                assert(o2[k] == order[k]);
            }
            if x == p as int {
                assert(o2[order.len() as int] as int == x);
            }
        }
        assert forall|k: int| 0 <= k < order.len() + 1 implies self.ready(
            #[trigger] o2.take(k),
            o2[k] as int,
        ) by {
            if k < order.len() {
                assert(o2.take(k) =~= order.take(k));
                assert(self.ready(order.take(k), order[k] as int));
            }
        }
        assert forall|k: int, x: int|
            0 <= k < o2.len() && 0 <= x < o2[k] && !placed(o2.take(k), x) implies !(
            #[trigger] self.ready(o2.take(k), x)) by {
            if k < order.len() {
                assert(o2.take(k) =~= order.take(k));
            } else {
                assert(!done[x] || !self.ready(order, x));
                if done[x] {
                    assert(placed(order, x));
                }
            }
        }
    }

    /// When no system that has not run is ready, those systems form a closed set.
    proof fn lemma_stuck(&self, done: Seq<bool>, order: Seq<usize>) -> (s: Set<int>)
        requires
            self.marks(done, order),
            count_false(done) > 0,
            forall|x: int| 0 <= x < self.names_spec().len() ==> done[x] || !self.ready(order, x),
        ensures
            self.closed_set(s),
    {
        let n = self.names_spec().len();
        let s = Set::new(|x: int| 0 <= x < n && !done[x]);
        lemma_count_false_some(done);
        let x = choose|x: int| 0 <= x < done.len() && !done[x];
        assert(s.contains(x));
        assert forall|i: int| #[trigger] s.contains(i) implies exists|jj: int|
            self.depends(i, jj) && s.contains(jj) by {
            assert(!self.ready(order, i));
            let jj = choose|jj: int| #[trigger] self.depends(i, jj) && !placed(order, jj);
            assert(!done[jj]);
            assert(s.contains(jj));
        }
        s
    }

    /// Orders the systems so that each runs after its dependencies, picking
    /// at every step the earliest registered system that is ready.  The
    /// result lists registration indices.
    pub fn build(&self) -> (r: Result<Vec<usize>, ScheduleError>)
        requires
            self.wf(),
        ensures
            r is Err && r->Err_0 is UnknownDependency <==> !self.deps_known(),
            r matches Err(e) ==> e matches ScheduleError::UnknownDependency { system, dependency }
                ==> exists|i: int|
                0 <= i < self.names_spec().len() && self.names_spec()[i] == system
                    && self.deps_spec(i).contains(dependency) && !self.names_spec().contains(
                    dependency,
                ),
            r is Err ==> !(r->Err_0 is DuplicateSystem),
            r matches Ok(order) ==> self.valid_order(order@) && self.stable(order@),
            r matches Err(e) ==> e is Cycle ==> exists|s: Set<int>| self.closed_set(s),
            r matches Err(e) ==> e is Cycle ==> forall|o: Seq<usize>| !self.valid_order(o),
    {
        let dep_idx = match self.resolve_deps() {
            Ok(v) => v,
            Err(e) => return Err(e),
        };
        let n = self.names.len();
        let mut done: Vec<bool> = Vec::new();
        let mut z: usize = 0;
        while z < n
            invariant
                z <= n,
                done@ == Seq::new(z as nat, |i: int| false),
            decreases n - z,
        {
            done.push(false);
            z = z + 1;
            proof {
                assert(done@ =~= Seq::new(z as nat, |i: int| false));
            }
        }
        proof {
            lemma_count_false_all(n as nat);
        }
        let mut order: Vec<usize> = Vec::new();
        let mut remaining: usize = n;
        proof {
            assert(order@.len() == 0);
            assert forall|x: int| 0 <= x < done@.len() implies (#[trigger] done@[x] <==> placed(order@, x)) by {}
        }
        while remaining > 0
            invariant
                self.wf(),
                self.deps_known(),
                n == self.names_spec().len(),
                self.dep_lists(dep_idx@),
                self.marks(done@, order@),
                remaining as nat == count_false(done@),
                order@.no_duplicates(),
                forall|k: int| 0 <= k < order@.len() ==> #[trigger] order@[k] < n,
                forall|k: int| 0 <= k < order@.len() ==> self.ready(#[trigger] order@.take(k), order@[k] as int),
                self.stable(order@),
            decreases remaining,
        {
            match self.first_ready(&dep_idx, &done, Ghost(order@)) {
                None => {
                    proof {
                        let s = self.lemma_stuck(done@, order@);
                        assert forall|o: Seq<usize>| !self.valid_order(o) by {
                            self.lemma_closed_set_blocks(s, o);
                        }
                    }
                    return Err(ScheduleError::Cycle);
                },
                Some(p) => {
                    proof {
                        lemma_count_false_update(done@, p as int);
                        self.lemma_place(done@, order@, p);
                    }
                    done[p] = true;
                    order.push(p);
                    remaining = remaining - 1;
                },
            }
        }
        proof {
            lemma_count_false_none(done@);
            assert forall|i: int| 0 <= i < n implies placed(order@, i) by {
                assert(done@[i]);
            }
        }
        Ok(order)
    }

    /// No order runs every system after its dependencies when a closed set
    /// of systems exists.
    pub proof fn lemma_closed_set_blocks(&self, s: Set<int>, order: Seq<usize>)
        requires
            self.closed_set(s),
        ensures
            !self.valid_order(order),
    {
        if self.valid_order(order) {
            let x = choose|i: int| s.contains(i);
            assert(0 <= x < self.names_spec().len());
            assert(placed(order, x));
            let k = choose|k: int| 0 <= k < order.len() && order[k] as int == x;
            self.lemma_no_member_before(s, order, k + 1);
            assert(!s.contains(order[k] as int));
        }
    }

    proof fn lemma_no_member_before(&self, s: Set<int>, order: Seq<usize>, m: int)
        requires
            self.closed_set(s),
            self.valid_order(order),
            0 <= m <= order.len(),
        ensures
            forall|k: int| 0 <= k < m ==> !s.contains(#[trigger] order[k] as int),
        decreases m,
    {
        if m > 0 {
            self.lemma_no_member_before(s, order, m - 1);
            let k = m - 1;
            if s.contains(order[k] as int) {
                let j = choose|j: int| self.depends(order[k] as int, j) && s.contains(j);
                assert(self.ready(order.take(k), order[k] as int));
                assert(placed(order.take(k), j));
                let t = choose|t: int| 0 <= t < order.take(k).len() && order.take(k)[t] as int == j;
                assert(order[t] as int == j);
            }
        }
    }
}

/// The shared state a system reads or writes.
#[derive(Clone, Copy, PartialEq, Eq, Structural, Debug, Hash)]
pub enum Resource {
    World,
    DeltaTime,
    Inputs,
    Collisions,
    DamageEvents,
    DespawnEvents,
    SoundRequests,
    Score,
    GameMode,
    ModeTimers,
    ViewShake,
    Commands,
}

/// A declared use of `resource`, exclusive when `write`.
#[derive(Clone, Copy, PartialEq, Eq, Structural, Debug)]
pub struct Access {
    pub resource: Resource,
    pub write: bool,
}

/// Whether two sets of declared accesses conflict: both touch one resource
/// and at least one of them writes it.
pub open spec fn conflicting(a: Seq<Access>, b: Seq<Access>) -> bool {
    exists|i: int, j: int|
        0 <= i < a.len() && 0 <= j < b.len() && #[trigger] a[i].resource == #[trigger] b[j].resource
            && (a[i].write || b[j].write)
}

/// Whether systems declaring `a` and `b` may not run at the same time.
pub fn conflicts(a: &Vec<Access>, b: &Vec<Access>) -> (r: bool)
    ensures
        r == conflicting(a@, b@),
{
    let mut i: usize = 0;
    while i < a.len()
        invariant
            i <= a@.len(),
            forall|x: int, y: int|
                0 <= x < i && 0 <= y < b@.len() ==> !(a@[x].resource == b@[y].resource && (a@[x].write
                    || b@[y].write)),
        decreases a@.len() - i,
    {
        let mut j: usize = 0;
        while j < b.len()
            invariant
                i < a@.len(),
                j <= b@.len(),
                forall|x: int, y: int|
                    0 <= x < i && 0 <= y < b@.len() ==> !(a@[x].resource == b@[y].resource && (a@[x].write
                        || b@[y].write)),
                forall|y: int|
                    0 <= y < j ==> !(a@[i as int].resource == b@[y].resource && (a@[i as int].write
                        || b@[y].write)),
            decreases b@.len() - j,
        {
            if a[i].resource == b[j].resource && (a[i].write || b[j].write) {
                return true;
            }
            j = j + 1;
        }
        i = i + 1;
    }
    false
}

fn reads(resource: Resource) -> (a: Access)
    ensures
        a == (Access { resource, write: false }),
{
    Access { resource, write: false }
}

fn writes(resource: Resource) -> (a: Access)
    ensures
        a == (Access { resource, write: true }),
{
    Access { resource, write: true }
}

/// What each system reads and writes.
pub open spec fn access_spec(kind: SystemKind) -> Seq<Access> {
    match kind {
        SystemKind::Gun => seq![
            Access { resource: Resource::DeltaTime, write: false },
            Access { resource: Resource::World, write: true },
            Access { resource: Resource::Commands, write: true },
            Access { resource: Resource::SoundRequests, write: true },
        ],
        SystemKind::Collision => seq![
            Access { resource: Resource::World, write: false },
            Access { resource: Resource::Collisions, write: true },
        ],
        SystemKind::DamageOnCollision => seq![
            Access { resource: Resource::World, write: false },
            Access { resource: Resource::Collisions, write: false },
            Access { resource: Resource::DamageEvents, write: true },
            Access { resource: Resource::DespawnEvents, write: true },
        ],
        SystemKind::CollisionReactions => seq![
            Access { resource: Resource::World, write: false },
            Access { resource: Resource::Collisions, write: false },
            Access { resource: Resource::GameMode, write: false },
            Access { resource: Resource::DamageEvents, write: true },
            Access { resource: Resource::SoundRequests, write: true },
            Access { resource: Resource::ViewShake, write: true },
        ],
        SystemKind::Health => seq![
            Access { resource: Resource::World, write: true },
            Access { resource: Resource::DamageEvents, write: true },
            Access { resource: Resource::DespawnEvents, write: true },
        ],
        SystemKind::Motion => seq![
            Access { resource: Resource::DeltaTime, write: false },
            Access { resource: Resource::World, write: true },
        ],
        SystemKind::PositionBounds => seq![
            Access { resource: Resource::World, write: true },
        ],
        SystemKind::Timeout => seq![
            Access { resource: Resource::DeltaTime, write: false },
            Access { resource: Resource::World, write: true },
            Access { resource: Resource::DespawnEvents, write: true },
        ],
        SystemKind::DespawnBounds => seq![
            Access { resource: Resource::World, write: false },
            Access { resource: Resource::DespawnEvents, write: true },
        ],
        SystemKind::DespawnOnCollision => seq![
            Access { resource: Resource::World, write: false },
            Access { resource: Resource::Collisions, write: false },
            Access { resource: Resource::DespawnEvents, write: true },
        ],
        SystemKind::Score => seq![
            Access { resource: Resource::Score, write: true },
        ],
        SystemKind::PointsOnLastHit => seq![
            Access { resource: Resource::World, write: false },
            Access { resource: Resource::DespawnEvents, write: false },
            Access { resource: Resource::Score, write: true },
        ],
        SystemKind::AttractMode => seq![
            Access { resource: Resource::World, write: false },
            Access { resource: Resource::GameMode, write: true },
            Access { resource: Resource::Inputs, write: true },
            Access { resource: Resource::Commands, write: true },
        ],
        SystemKind::PlayingMode => seq![
            Access { resource: Resource::DeltaTime, write: false },
            Access { resource: Resource::World, write: true },
            Access { resource: Resource::DespawnEvents, write: false },
            Access { resource: Resource::GameMode, write: true },
            Access { resource: Resource::Inputs, write: true },
            Access { resource: Resource::Commands, write: true },
            Access { resource: Resource::SoundRequests, write: true },
            Access { resource: Resource::Score, write: true },
            Access { resource: Resource::ModeTimers, write: true },
        ],
        SystemKind::GameOverMode => seq![
            Access { resource: Resource::DeltaTime, write: false },
            Access { resource: Resource::World, write: false },
            Access { resource: Resource::GameMode, write: true },
            Access { resource: Resource::Inputs, write: true },
            Access { resource: Resource::Commands, write: true },
            Access { resource: Resource::Score, write: true },
            Access { resource: Resource::ModeTimers, write: true },
        ],
    }
}

/// What each system reads and writes.
pub fn declared_access(kind: SystemKind) -> (r: Vec<Access>)
    ensures
        r@ == access_spec(kind),
{
    let mut v: Vec<Access> = Vec::new();
    match kind {
        SystemKind::Gun => {
            v.push(reads(Resource::DeltaTime));
            v.push(writes(Resource::World));
            v.push(writes(Resource::Commands));
            v.push(writes(Resource::SoundRequests));
        },
        SystemKind::Collision => {
            v.push(reads(Resource::World));
            v.push(writes(Resource::Collisions));
        },
        SystemKind::DamageOnCollision => {
            v.push(reads(Resource::World));
            v.push(reads(Resource::Collisions));
            v.push(writes(Resource::DamageEvents));
            v.push(writes(Resource::DespawnEvents));
        },
        SystemKind::CollisionReactions => {
            v.push(reads(Resource::World));
            v.push(reads(Resource::Collisions));
            v.push(reads(Resource::GameMode));
            v.push(writes(Resource::DamageEvents));
            v.push(writes(Resource::SoundRequests));
            v.push(writes(Resource::ViewShake));
        },
        SystemKind::Health => {
            v.push(writes(Resource::World));
            v.push(writes(Resource::DamageEvents));
            v.push(writes(Resource::DespawnEvents));
        },
        SystemKind::Motion => {
            v.push(reads(Resource::DeltaTime));
            v.push(writes(Resource::World));
        },
        SystemKind::PositionBounds => {
            v.push(writes(Resource::World));
        },
        SystemKind::Timeout => {
            v.push(reads(Resource::DeltaTime));
            v.push(writes(Resource::World));
            v.push(writes(Resource::DespawnEvents));
        },
        SystemKind::DespawnBounds => {
            v.push(reads(Resource::World));
            v.push(writes(Resource::DespawnEvents));
        },
        SystemKind::DespawnOnCollision => {
            v.push(reads(Resource::World));
            v.push(reads(Resource::Collisions));
            v.push(writes(Resource::DespawnEvents));
        },
        SystemKind::Score => {
            v.push(writes(Resource::Score));
        },
        SystemKind::PointsOnLastHit => {
            v.push(reads(Resource::World));
            v.push(reads(Resource::DespawnEvents));
            v.push(writes(Resource::Score));
        },
        SystemKind::AttractMode => {
            v.push(reads(Resource::World));
            v.push(writes(Resource::GameMode));
            v.push(writes(Resource::Inputs));
            v.push(writes(Resource::Commands));
        },
        SystemKind::PlayingMode => {
            v.push(reads(Resource::DeltaTime));
            v.push(writes(Resource::World));
            v.push(reads(Resource::DespawnEvents));
            v.push(writes(Resource::GameMode));
            v.push(writes(Resource::Inputs));
            v.push(writes(Resource::Commands));
            v.push(writes(Resource::SoundRequests));
            v.push(writes(Resource::Score));
            v.push(writes(Resource::ModeTimers));
        },
        SystemKind::GameOverMode => {
            v.push(reads(Resource::DeltaTime));
            v.push(reads(Resource::World));
            v.push(writes(Resource::GameMode));
            v.push(writes(Resource::Inputs));
            v.push(writes(Resource::Commands));
            v.push(writes(Resource::Score));
            v.push(writes(Resource::ModeTimers));
        },
    }
    assert(v@ =~= access_spec(kind));
    v
}

impl Scheduler {
    /// Whether systems `i` and `j` could run at the same time: neither
    /// depends on the other and their declared accesses do not conflict.
    pub fn may_run_together(&self, i: usize, j: usize) -> (r: bool)
        requires
            self.wf(),
            i < self.names_spec().len(),
            j < self.names_spec().len(),
        ensures
            r == (i != j && !self.depends(i as int, j as int) && !self.depends(j as int, i as int)
                && !conflicting(access_spec(self.names_spec()[i as int]), access_spec(self.names_spec()[j as int]))),
    {
        if i == j {
            return false;
        }
        let ki = self.names[i];
        let kj = self.names[j];
        let mut k: usize = 0;
        let di = &self.deps[i];
        while k < di.len()
            invariant
                self.wf(),
                i < self.names@.len(),
                j < self.names@.len(),
                di@ == self.deps_spec(i as int),
                kj == self.names@[j as int],
                k <= di@.len(),
                forall|m: int| 0 <= m < k ==> di@[m] != kj,
            decreases di@.len() - k,
        {
            if di[k] == kj {
                return false;
            }
            k = k + 1;
        }
        let dj = &self.deps[j];
        let mut k: usize = 0;
        while k < dj.len()
            invariant
                self.wf(),
                i < self.names@.len(),
                j < self.names@.len(),
                dj@ == self.deps_spec(j as int),
                ki == self.names@[i as int],
                k <= dj@.len(),
                forall|m: int| 0 <= m < k ==> dj@[m] != ki,
            decreases dj@.len() - k,
        {
            if dj[k] == ki {
                proof {
                    assert(dj@[k as int] == self.names_spec()[i as int]);
                    assert(self.depends(j as int, i as int));
                }
                return false;
            }
            k = k + 1;
        }
        !conflicts(&declared_access(ki), &declared_access(kj))
    }
}

} // verus!
