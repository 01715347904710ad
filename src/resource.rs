use vstd::prelude::*;

verus! {

/// What a resource shows: nothing requested yet, a request in flight, or the
/// outcome of the latest request.
#[derive(Clone, Copy, Debug, PartialEq, Eq, Structural)]
pub enum LoadState {
    Idle,
    Loading,
    Ready,
}

/// A request handed out by a resource: the loader is to be run on `key`, and
/// its outcome handed back with `seq`.
pub struct Request<K> {
    pub seq: u64,
    pub key: K,
}

/// The abstract state of a resource: the sequence number of the latest
/// request (0 before the first), that of the request whose outcome is
/// stored (0 for none), the stored outcome, and the revision of the key
/// that the latest followed request was made for (0 for none).
pub struct ResourceModel<V, E> {
    pub latest: nat,
    pub loaded: nat,
    pub value: Option<Result<V, E>>,
    pub key_rev: nat,
}

/// Issuing a request makes it the latest one.
pub open spec fn issue<V, E>(r: ResourceModel<V, E>) -> ResourceModel<V, E> {
    ResourceModel { latest: r.latest + 1, ..r }
}

/// An outcome is stored only when it answers the latest request and that
/// request has not been answered yet; any other outcome is dropped.
pub open spec fn deliver<V, E>(r: ResourceModel<V, E>, seq: nat, o: Result<V, E>) -> ResourceModel<
    V,
    E,
> {
    if seq == r.latest && r.loaded != r.latest {
        ResourceModel { loaded: seq, value: Some(o), ..r }
    } else {
        r
    }
}

/// Deliveries applied in order.
pub open spec fn deliver_all<V, E>(r: ResourceModel<V, E>, ds: Seq<(nat, Result<V, E>)>) -> ResourceModel<V, E>
    decreases ds.len(),
{
    if ds.len() == 0 {
        r
    } else {
        deliver(deliver_all(r, ds.drop_last()), ds.last().0, ds.last().1)
    }
}

/// An outcome from a request that is no longer the latest is dropped
/// without a trace.
pub proof fn law_stale_outcome_dropped<V, E>(r: ResourceModel<V, E>, seq: nat, o: Result<V, E>)
    requires
        seq != r.latest,
    ensures
        deliver(r, seq, o) == r,
{
}

/// Whatever outcomes arrive, in whatever order, while no new request is
/// issued, the stored outcome either stays as it was or is one that was
/// delivered for the latest request.
pub proof fn law_only_latest_surfaces<V, E>(r: ResourceModel<V, E>, ds: Seq<(nat, Result<V, E>)>)
    ensures
        deliver_all(r, ds).latest == r.latest,
        deliver_all(r, ds).value == r.value || exists|j: int|
            0 <= j < ds.len() && ds[j].0 == r.latest && deliver_all(r, ds).value == Some(
                #[trigger] ds[j].1,
            ),
    decreases ds.len(),
{
    if ds.len() > 0 {
        let init = ds.drop_last();
        law_only_latest_surfaces(r, init);
        let mid = deliver_all(r, init);
        if !(mid.value == r.value) {
            let j = choose|j: int|
                0 <= j < init.len() && init[j].0 == r.latest && mid.value == Some(
                    #[trigger] init[j].1,
                );
            assert(ds[j] == init[j]);
        }
        if deliver_all(r, ds) != mid {
            assert(ds[ds.len() - 1].0 == r.latest);
        }
    }
}

/// An asynchronous value keyed by an input. Each new key starts a request
/// with a fresh sequence number; only the outcome of the latest request is
/// ever stored.
pub struct Resource<V, E> {
    latest: u64,
    loaded: u64,
    value: Option<Result<V, E>>,
    key_rev: u64,
}

impl<V, E> Resource<V, E> {
    pub closed spec fn view(&self) -> ResourceModel<V, E> {
        ResourceModel {
            latest: self.latest as nat,
            loaded: self.loaded as nat,
            value: self.value,
            key_rev: self.key_rev as nat,
        }
    }

    pub closed spec fn wf(&self) -> bool {
        &&& self.loaded <= self.latest
        &&& (self.value is Some <==> self.loaded > 0)
    }

    /// A resource that has issued no request.
    pub fn new() -> (r: Self)
        ensures
            r.wf(),
            r.view() == (ResourceModel::<V, E> { latest: 0, loaded: 0, value: None, key_rev: 0 }),
    {
        Resource { latest: 0, loaded: 0, value: None, key_rev: 0 }
    }

    /// Starts a request for `key`; it supersedes any request still in flight.
    pub fn request<K>(&mut self, key: K) -> (q: Request<K>)
        requires
            old(self).wf(),
            old(self).view().latest < u64::MAX,
        ensures
            final(self).wf(),
            final(self).view() == issue(old(self).view()),
            q.seq == final(self).view().latest,
            q.key == key,
    {
        self.latest = self.latest + 1;
        Request { seq: self.latest, key }
    }

    /// Follows a key held in a cell: starts a request when the key's
    /// revision differs from the one the last followed request was made for,
    /// and does nothing otherwise.
    pub fn follow<K>(&mut self, revision: u64, key: K) -> (q: Option<Request<K>>)
        requires
            old(self).wf(),
            old(self).view().latest < u64::MAX,
        ensures
            final(self).wf(),
            revision as nat == old(self).view().key_rev ==> q is None && final(self).view()
                == old(self).view(),
            revision as nat != old(self).view().key_rev ==> q is Some && final(self).view() == (
            ResourceModel { key_rev: revision as nat, ..issue(old(self).view()) })
                && q.unwrap().seq == final(self).view().latest && q.unwrap().key == key,
    {
        if revision == self.key_rev {
            None
        } else {
            self.key_rev = revision;
            Some(self.request(key))
        }
    }

    /// Hands back the outcome of request `seq`. Returns whether it was stored.
    pub fn complete(&mut self, seq: u64, outcome: Result<V, E>) -> (stored: bool)
        requires
            old(self).wf(),
        ensures
            final(self).wf(),
            final(self).view() == deliver(old(self).view(), seq as nat, outcome),
            stored == (seq == old(self).view().latest && old(self).view().loaded
                != old(self).view().latest),
    {
        if seq == self.latest && self.loaded != self.latest {
            self.loaded = seq;
            self.value = Some(outcome);
            true
        } else {
            false
        }
    }

    /// Sequence number of the latest request, 0 before the first.
    pub fn latest(&self) -> (r: u64)
        ensures
            r == self.view().latest,
    {
        self.latest
    }

    /// Whether a request is in flight.
    pub fn loading(&self) -> (r: bool)
        ensures
            r == (self.view().loaded != self.view().latest),
    {
        self.loaded != self.latest
    }

    /// The stored outcome of the latest answered request, if any.
    pub fn get(&self) -> (r: &Option<Result<V, E>>)
        ensures
            *r == self.view().value,
    {
        &self.value
    }

    /// Which of the three observable states the resource is in.
    pub fn state(&self) -> (r: LoadState)
        requires
            self.wf(),
        ensures
            r == (if self.view().latest == 0 {
                LoadState::Idle
            } else if self.view().loaded != self.view().latest {
                LoadState::Loading
            } else {
                LoadState::Ready
            }),
    {
        if self.latest == 0 {
            LoadState::Idle
        } else if self.loaded != self.latest {
            LoadState::Loading
        } else {
            LoadState::Ready
        }
    }
}

/// The quick mock service: ten times the input.
pub fn load_data_10(value: i32) -> (r: i32)
    requires
        -214748364 <= value <= 214748364,
    ensures
        r == value * 10,
{
    value * 10
}

/// The slow mock service: twenty times the input.
pub fn load_data_20(value: i32) -> (r: i32)
    requires
        -107374182 <= value <= 107374182,
    ensures
        r == value * 20,
{
    value * 20
}

} // verus!
