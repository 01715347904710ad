use vstd::prelude::*;

verus! {

/// The keys of a list of strings, as character sequences.
pub open spec fn keys_of(v: Seq<String>) -> Seq<Seq<char>> {
    Seq::new(v.len(), |i: int| v[i]@)
}

/// Whether no key occurs twice.
pub open spec fn unique(ks: Seq<Seq<char>>) -> bool {
    forall|i: int, j: int| 0 <= i < j < ks.len() ==> ks[i] != ks[j]
}

/// Positions in `old` whose key no longer occurs in `new`, in increasing
/// order: the items that are torn down.
pub open spec fn dropped(old: Seq<Seq<char>>, new: Seq<Seq<char>>) -> Seq<usize>
    decreases old.len(),
{
    if old.len() == 0 {
        Seq::empty()
    } else if new.contains(old.last()) {
        dropped(old.drop_last(), new)
    } else {
        dropped(old.drop_last(), new).push((old.len() - 1) as usize)
    }
}

/// Why a keyed list refused an update.
#[derive(Clone, Copy, Debug, PartialEq, Eq, Structural)]
pub enum KeyError {
    /// Two items of the new list share a key.
    DuplicateKey,
}

/// Position of the first key equal to `k`, if any.
pub fn index_of(keys: &Vec<String>, k: &String) -> (r: Option<usize>)
    ensures
        r is Some ==> r.unwrap() < keys@.len() && keys@[r.unwrap() as int]@ == k@,
        r is None <==> !keys_of(keys@).contains(k@),
{
    let mut i: usize = 0;
    while i < keys.len()
        invariant
            i <= keys@.len(),
            forall|t: int| 0 <= t < i ==> keys@[t]@ != k@,
        decreases keys@.len() - i,
    {
        if keys[i] == *k {
            assert(keys_of(keys@)[i as int] == k@);
            return Some(i);
        }
        i = i + 1;
    }
    proof {
        if keys_of(keys@).contains(k@) {
            let t = choose|t: int| 0 <= t < keys_of(keys@).len() && keys_of(keys@)[t] == k@;
            assert(keys@[t]@ == k@);
        }
    }
    None
}

/// Whether some key occurs twice.
pub fn has_duplicates(keys: &Vec<String>) -> (r: bool)
    ensures
        r == !unique(keys_of(keys@)),
{
    let mut j: usize = 0;
    while j < keys.len()
        invariant
            j <= keys@.len(),
            forall|a: int, b: int| 0 <= a < b < j ==> keys@[a]@ != keys@[b]@,
        decreases keys@.len() - j,
    {
        let mut i: usize = 0;
        while i < j
            invariant
                i <= j < keys@.len(),
                forall|a: int| 0 <= a < i ==> keys@[a]@ != keys@[j as int]@,
            decreases j - i,
        {
            if keys[i] == keys[j] {
                assert(keys_of(keys@)[i as int] == keys_of(keys@)[j as int]);
                return true;
            }
            i = i + 1;
        }
        j = j + 1;
    }
    assert(unique(keys_of(keys@)));
    false
}

/// A rendered keyed list: one item per key, each holding its own state.
/// Reconciling it with a new list of keys keeps the item of every key that
/// stays, creates items for new keys, and tears down the rest.
pub struct KeyedList<T> {
    keys: Vec<String>,
    items: Vec<T>,
}

impl<T: Copy> KeyedList<T> {
    pub closed spec fn keys(&self) -> Seq<Seq<char>> {
        keys_of(self.keys@)
    }

    pub closed spec fn items(&self) -> Seq<T> {
        self.items@
    }

    pub closed spec fn wf(&self) -> bool {
        &&& self.keys@.len() == self.items@.len()
        &&& unique(keys_of(self.keys@))
    }

    /// An empty list.
    pub fn new() -> (r: Self)
        ensures
            r.wf(),
            r.keys().len() == 0,
            r.items().len() == 0,
    {
        KeyedList { keys: Vec::new(), items: Vec::new() }
    }

    /// The state of the item at `i`.
    pub fn item(&self, i: usize) -> (r: T)
        requires
            self.wf(),
            i < self.items().len(),
        ensures
            r == self.items()[i as int],
    {
        self.items[i]
    }

    /// Number of items.
    pub fn len(&self) -> (r: usize)
        requires
            self.wf(),
        ensures
            r == self.items().len(),
    {
        self.items.len()
    }

    /// Brings the list in line with `new_keys`. An item whose key stays is
    /// moved to its new place with its state; a new key gets an item in the
    /// state `fresh`. Returns the old positions of the items torn down.
    /// Refuses a key list with a duplicate and then changes nothing.
    pub fn reconcile(&mut self, new_keys: &Vec<String>, fresh: T) -> (r: Result<Vec<usize>, KeyError>)
        requires
            old(self).wf(),
        ensures
            final(self).wf(),
            r is Err <==> !unique(keys_of(new_keys@)),
            r is Err ==> r->Err_0 == KeyError::DuplicateKey && final(self).keys() == old(self).keys()
                && final(self).items() == old(self).items(),
            r is Ok ==> {
                &&& final(self).keys() == keys_of(new_keys@)
                &&& final(self).items().len() == new_keys@.len()
                &&& forall|i: int, j: int|
                    0 <= i < old(self).keys().len() && 0 <= j < new_keys@.len() && old(self).keys()[i]
                        == new_keys@[j]@ ==> #[trigger] final(self).items()[j] == #[trigger] old(self).items()[i]
                &&& forall|j: int|
                    0 <= j < new_keys@.len() && !old(self).keys().contains(new_keys@[j]@) ==> #[trigger] final(self).items()[j] == fresh
                &&& r->Ok_0@ == dropped(old(self).keys(), keys_of(new_keys@))
            },
    {
        if has_duplicates(new_keys) {
            return Err(KeyError::DuplicateKey);
        }
        let mut items: Vec<T> = Vec::new();
        let mut keys: Vec<String> = Vec::new();
        let mut j: usize = 0;
        while j < new_keys.len()
            invariant
                self.wf(),
                self == old(self),
                unique(keys_of(new_keys@)),
                j <= new_keys@.len(),
                items@.len() == j,
                keys@.len() == j,
                forall|t: int| 0 <= t < j ==> #[trigger] keys@[t]@ == new_keys@[t]@,
                forall|i: int, t: int|
                    0 <= i < self.keys@.len() && 0 <= t < j && self.keys@[i]@ == new_keys@[t]@ ==> #[trigger] items@[t] == #[trigger] self.items@[i],
                forall|t: int|
                    0 <= t < j && !keys_of(self.keys@).contains(new_keys@[t]@) ==> #[trigger] items@[t] == fresh,
            decreases new_keys@.len() - j,
        {
            match index_of(&self.keys, &new_keys[j]) {
                Some(i) => {
                    proof {
                        assert forall|i2: int| 0 <= i2 < self.keys@.len() && self.keys@[i2]@ == new_keys@[j as int]@ implies i2 == i by {
                            if i2 != i {
                                assert(keys_of(self.keys@)[i2] == keys_of(self.keys@)[i as int]);
                            }
                        }
                    }
                    items.push(self.items[i]);
                },
                None => {
                    proof {
                        assert forall|i2: int| 0 <= i2 < self.keys@.len() implies self.keys@[i2]@ != new_keys@[j as int]@ by {
                            if self.keys@[i2]@ == new_keys@[j as int]@ {
                                assert(keys_of(self.keys@)[i2] == new_keys@[j as int]@);
                            }
                        }
                    }
                    items.push(fresh);
                },
            }
            keys.push(new_keys[j].clone());
            j = j + 1;
        }
        let ghost nk = keys_of(new_keys@);
        let mut torn: Vec<usize> = Vec::new();
        let mut i: usize = 0;
        while i < self.keys.len()
            invariant
                self == old(self),
                self.wf(),
                i <= self.keys@.len(),
                nk == keys_of(new_keys@),
                torn@ == dropped(keys_of(self.keys@).subrange(0, i as int), nk),
            decreases self.keys@.len() - i,
        {
            proof {
                let p = keys_of(self.keys@).subrange(0, i as int + 1);
                assert(p.drop_last() =~= keys_of(self.keys@).subrange(0, i as int));
            }
            match index_of(new_keys, &self.keys[i]) {
                Some(_) => {},
                None => {
                    torn.push(i);
                },
            }
            i = i + 1;
        }
        assert(keys_of(self.keys@).subrange(0, i as int) =~= keys_of(self.keys@));
        assert(keys_of(keys@) =~= keys_of(new_keys@));
        self.keys = keys;
        self.items = items;
        Ok(torn)
    }
}

} // verus!
