//! Closest-hit selection for a linear scan over the surfaces of a scene.
//!
//! Hits are compared by an unsigned key that grows with the distance along
//! the ray. The scan starts with the far end of the legal range as its bound;
//! a surface's hit is taken only when it is strictly closer than the closest
//! one so far, which then becomes the bound offered to the next surface. On
//! equal distances the surface registered first therefore wins.
use vstd::prelude::*;

verus! {

/// The closest distance and the index of the hit that holds it, after
/// scanning `keys` in order against the far bound `bound`; `None` while no
/// surface has been hit.
pub open spec fn nearest(bound: u64, keys: Seq<Option<u64>>) -> (u64, Option<int>)
    decreases keys.len(),
{
    if keys.len() == 0 {
        (bound, None)
    } else {
        let prev = nearest(bound, keys.drop_last());
        match keys.last() {
            Some(k) => if k < prev.0 {
                (k, Some(keys.len() - 1))
            } else {
                prev
            },
            None => prev,
        }
    }
}

/// The running state of a closest-hit scan.
pub struct NearestHit {
    bound: u64,
    closest: u64,
    best: Option<usize>,
    count: usize,
    keys: Ghost<Seq<Option<u64>>>,
}

impl NearestHit {
    /// The far bound the scan started with.
    pub closed spec fn spec_bound(&self) -> u64 {
        self.bound
    }

    /// The keys offered so far, in order: `None` for a surface that was
    /// missed.
    pub closed spec fn offered(&self) -> Seq<Option<u64>> {
        self.keys@
    }

    pub closed spec fn wf(&self) -> bool {
        &&& self.count == self.keys@.len()
        &&& self.closest == nearest(self.bound, self.keys@).0
        &&& match self.best {
            Some(i) => nearest(self.bound, self.keys@).1 == Some(i as int),
            None => nearest(self.bound, self.keys@).1.is_none(),
        }
    }

    /// A scan that has seen no surface yet, bounded by `bound`.
    pub fn new(bound: u64) -> (s: NearestHit)
        ensures
            s.wf(),
            s.spec_bound() == bound,
            s.offered() == Seq::<Option<u64>>::empty(),
    {
        NearestHit { bound, closest: bound, best: None, count: 0, keys: Ghost(Seq::empty()) }
    }

    /// The closest key so far, or the bound while nothing was hit: the upper
    /// end of the range in which the next surface is searched.
    pub fn limit(&self) -> (k: u64)
        requires
            self.wf(),
        ensures
            k == nearest(self.spec_bound(), self.offered()).0,
    {
        self.closest
    }

    /// The index of the closest hit so far, if any surface was hit.
    pub fn best(&self) -> (b: Option<usize>)
        requires
            self.wf(),
        ensures
            match b {
                Some(i) => nearest(self.spec_bound(), self.offered()).1 == Some(i as int),
                None => nearest(self.spec_bound(), self.offered()).1.is_none(),
            },
    {
        self.best
    }

    /// Records the outcome for the next surface: the key of its hit, or
    /// `None` for a miss. Returns whether the hit was taken as the new
    /// closest one.
    pub fn offer(&mut self, key: Option<u64>) -> (taken: bool)
        requires
            old(self).wf(),
            old(self).offered().len() < usize::MAX,
        ensures
            final(self).wf(),
            final(self).spec_bound() == old(self).spec_bound(),
            final(self).offered() == old(self).offered().push(key),
            taken == match key {
                Some(k) => k < nearest(old(self).spec_bound(), old(self).offered()).0,
                None => false,
            },
    {
        let ghost keys = self.keys@.push(key);
        assert(keys.drop_last() =~= self.keys@);
        let taken = match key {
            Some(k) => k < self.closest,
            None => false,
        };
        if taken {
            self.closest = key.unwrap();
            self.best = Some(self.count);
        }
        self.count = self.count + 1;
        self.keys = Ghost(keys);
        taken
    }
}

/// The scan picks the first of the closest hits: nothing when no key lies
/// below the bound, and otherwise the earliest key that no other key lies
/// below.
pub proof fn lemma_nearest_is_first_minimum(bound: u64, keys: Seq<Option<u64>>)
    ensures
        nearest(bound, keys).1.is_none() <==> (forall|k: int|
            0 <= k < keys.len() && (#[trigger] keys[k]).is_some() ==> keys[k].unwrap() >= bound),
        nearest(bound, keys).1.is_none() ==> nearest(bound, keys).0 == bound,
        nearest(bound, keys).1.is_some() ==> {
            let (closest, best) = nearest(bound, keys);
            let i = best.unwrap();
            &&& 0 <= i < keys.len()
            &&& keys[i] == Some(closest)
            &&& closest < bound
            &&& forall|k: int|
                0 <= k < keys.len() && (#[trigger] keys[k]).is_some() ==> closest
                    <= keys[k].unwrap()
            &&& forall|k: int|
                0 <= k < i && (#[trigger] keys[k]).is_some() ==> closest < keys[k].unwrap()
        },
    decreases keys.len(),
{
    if keys.len() > 0 {
        let front = keys.drop_last();
        lemma_nearest_is_first_minimum(bound, front);
        assert forall|k: int| 0 <= k < front.len() implies front[k] == keys[k] by {}
    }
}

} // verus!
