use vstd::prelude::*;

verus! {

/// The value of the last entry for `tag` among `es`, if any.
pub open spec fn find_in<V>(es: Seq<(u64, V)>, tag: u64) -> Option<V>
    decreases es.len(),
{
    if es.len() == 0 {
        None
    } else if es.last().0 == tag {
        Some(es.last().1)
    } else {
        find_in(es.drop_last(), tag)
    }
}

/// A lookup finds the value of the nearest scope on the way to the root that
/// provides the tag, hiding what farther scopes provide, and finds nothing
/// exactly when no scope on that way provides it.
pub proof fn law_nearest_provider<V: Copy>(sc: Scopes<V>, s: int, tag: u64)
    requires
        sc.wf(),
        0 <= s < sc.len(),
    ensures
        sc.chain(s).len() >= 1,
        sc.chain(s)[0] == s,
        forall|i: int| 0 <= i < sc.chain(s).len() ==> 0 <= #[trigger] sc.chain(s)[i] < sc.len(),
        sc.resolve(s, tag) is None <==> forall|i: int|
            0 <= i < sc.chain(s).len() ==> find_in(sc.own(#[trigger] sc.chain(s)[i]), tag) is None,
        sc.resolve(s, tag) is Some ==> exists|i: int|
            0 <= i < sc.chain(s).len() && find_in(sc.own(#[trigger] sc.chain(s)[i]), tag)
                == sc.resolve(s, tag) && forall|j: int|
                0 <= j < i ==> find_in(sc.own(#[trigger] sc.chain(s)[j]), tag) is None,
    decreases s,
{
    let c = sc.chain(s);
    match sc.parent_of(s) {
        Some(p) => {
            assert(sc.parents@[s] is Some);
            assert((p as int) < s);
            law_nearest_provider(sc, p as int, tag);
            let cp = sc.chain(p as int);
            assert(c == seq![s].add(cp));
            assert forall|i: int| 0 < i < c.len() implies c[i] == cp[i - 1] by {}
            if find_in(sc.own(s), tag) is None {
                if sc.resolve(s, tag) is Some {
                    let i = choose|i: int|
                        0 <= i < cp.len() && find_in(sc.own(#[trigger] cp[i]), tag)
                            == sc.resolve(p as int, tag) && forall|j: int|
                            0 <= j < i ==> find_in(sc.own(#[trigger] cp[j]), tag) is None;
                    assert(c[i + 1] == cp[i]);
                    assert forall|j: int| 0 <= j < i + 1 implies find_in(sc.own(#[trigger] c[j]), tag) is None by {
                        if j > 0 {
                            assert(c[j] == cp[j - 1]);
                        }
                    }
                } else {
                    assert forall|i: int| 0 <= i < c.len() implies find_in(sc.own(#[trigger] c[i]), tag) is None by {
                        if i > 0 {
                            assert(c[i] == cp[i - 1]);
                        }
                    }
                }
            } else {
                assert(find_in(sc.own(c[0]), tag) is Some);
            }
        },
        None => {
            assert(c == seq![s]);
        },
    }
}

/// A tree of scopes. Each scope may provide values under type tags; a
/// lookup from a scope finds the value that the nearest scope on the way
/// to the root provides. A parent always has a smaller id than its child.
pub struct Scopes<V> {
    parents: Vec<Option<usize>>,
    entries: Vec<Vec<(u64, V)>>,
}

impl<V: Copy> Scopes<V> {
    pub closed spec fn len(&self) -> nat {
        self.parents@.len()
    }

    pub closed spec fn parent_of(&self, s: int) -> Option<usize> {
        self.parents@[s]
    }

    /// The entries scope `s` provides, in the order provided.
    pub closed spec fn own(&self, s: int) -> Seq<(u64, V)> {
        self.entries@[s]@
    }

    pub closed spec fn wf(&self) -> bool {
        &&& self.parents@.len() == self.entries@.len()
        &&& self.parents@.len() >= 1
        &&& forall|i: int|
            0 <= i < self.parents@.len() && (#[trigger] self.parents@[i]) is Some ==> (
            self.parents@[i].unwrap() as int) < i
    }

    /// What a lookup of `tag` from scope `s` finds.
    pub open spec fn resolve(&self, s: int, tag: u64) -> Option<V>
        decreases s,
        when 0 <= s
    {
        match find_in(self.own(s), tag) {
            Some(v) => Some(v),
            None => match self.parent_of(s) {
                Some(p) => if (p as int) < s {
                    self.resolve(p as int, tag)
                } else {
                    None
                },
                None => None,
            },
        }
    }

    /// The scopes from `s` up to the root, nearest first.
    pub open spec fn chain(&self, s: int) -> Seq<int>
        decreases s,
        when 0 <= s
    {
        match self.parent_of(s) {
            Some(p) => if (p as int) < s {
                seq![s].add(self.chain(p as int))
            } else {
                seq![s]
            },
            None => seq![s],
        }
    }

    /// A tree holding only the root scope, with id 0.
    pub fn new() -> (r: Self)
        ensures
            r.wf(),
            r.len() == 1,
            r.parent_of(0) is None,
            r.own(0).len() == 0,
    {
        let mut parents: Vec<Option<usize>> = Vec::new();
        parents.push(None);
        let mut entries: Vec<Vec<(u64, V)>> = Vec::new();
        entries.push(Vec::new());
        Scopes { parents, entries }
    }

    /// Opens a scope under `parent`; its id is the number of scopes before.
    pub fn child(&mut self, parent: usize) -> (s: usize)
        requires
            old(self).wf(),
            parent < old(self).len(),
        ensures
            final(self).wf(),
            s == old(self).len(),
            final(self).len() == old(self).len() + 1,
            final(self).parent_of(s as int) == Some(parent),
            final(self).own(s as int).len() == 0,
            forall|i: int|
                0 <= i < old(self).len() ==> #[trigger] final(self).parent_of(i) == old(
                    self,
                ).parent_of(i) && final(self).own(i) == old(self).own(i),
    {
        let s = self.parents.len();
        self.parents.push(Some(parent));
        self.entries.push(Vec::new());
        s
    }

    /// Scope `s` provides `value` under `tag`, hiding what it provided under
    /// that tag before.
    pub fn provide(&mut self, s: usize, tag: u64, value: V)
        requires
            old(self).wf(),
            s < old(self).len(),
        ensures
            final(self).wf(),
            final(self).len() == old(self).len(),
            final(self).own(s as int) == old(self).own(s as int).push((tag, value)),
            forall|i: int|
                0 <= i < old(self).len() ==> #[trigger] final(self).parent_of(i) == old(
                    self,
                ).parent_of(i),
            forall|i: int|
                0 <= i < old(self).len() && i != s ==> #[trigger] final(self).own(i) == old(
                    self,
                ).own(i),
    {
        let mut es: Vec<(u64, V)> = Vec::new();
        std::mem::swap(&mut es, &mut self.entries[s]);
        es.push((tag, value));
        self.entries.set(s, es);
    }

    /// The value scope `s` itself provides under `tag`, if any.
    fn find_own(&self, s: usize, tag: u64) -> (r: Option<V>)
        requires
            self.wf(),
            s < self.len(),
        ensures
            r == find_in(self.own(s as int), tag),
    {
        let es = &self.entries[s];
        let mut i: usize = es.len();
        assert(es@.subrange(0, i as int) =~= es@);
        while i > 0
            invariant
                i <= es@.len(),
                es@ == self.own(s as int),
                find_in(es@, tag) == find_in(es@.subrange(0, i as int), tag),
            decreases i,
        {
            proof {
                let p = es@.subrange(0, i as int);
                assert(p.drop_last() =~= es@.subrange(0, i as int - 1));
            }
            if es[i - 1].0 == tag {
                return Some(es[i - 1].1);
            }
            i = i - 1;
        }
        assert(es@.subrange(0, 0).len() == 0);
        None
    }

    /// Looks `tag` up from scope `s`, walking towards the root.
    pub fn lookup(&self, s: usize, tag: u64) -> (r: Option<V>)
        requires
            self.wf(),
            s < self.len(),
        ensures
            r == self.resolve(s as int, tag),
    {
        let mut cur: usize = s;
        while true
            invariant
                self.wf(),
                cur < self.len(),
                self.resolve(s as int, tag) == self.resolve(cur as int, tag),
            decreases cur,
        {
            match self.find_own(cur, tag) {
                Some(v) => {
                    return Some(v);
                },
                None => {},
            }
            match self.parents[cur] {
                None => {
                    return None;
                },
                Some(p) => {
                    cur = p;
                },
            }
        }
        None
    }
}

} // verus!
