//! An append-only registry of landmarks and of their known placements.

use crate::landmark::Landmark;
use crate::util::Coordinate;
use crate::util::Rect;
use vstd::prelude::*;

verus! {

/// Id for a particular landmark (so the pattern): an index into the owning
/// map's landmark list. Valid only against the map that produced it.
#[derive(Debug, Copy, Clone, Eq, PartialEq, Structural)]
pub struct LandmarkId(pub usize);

impl LandmarkId {
    /// The underlying index.
    pub fn to_index(&self) -> (r: usize)
        ensures
            r == self.0,
    {
        self.0
    }
}

/// Id for a particular location on the map: an index into the owning map's
/// placement list. Valid only against the map that produced it.
#[derive(Debug, Copy, Clone, Eq, PartialEq, Structural)]
pub struct LocationId(pub usize);

/// A placement: the landmark with this id occurs at this map coordinate.
#[derive(Debug, Copy, Clone, Eq, PartialEq, Structural)]
pub struct LandmarkLocation {
    /// The location of this landmark.
    pub location: Coordinate,
    /// The landmark found at this location.
    pub id: LandmarkId,
}

/// The placements among `locs` whose coordinate the rectangle contains
/// (inclusive on both bounds of each axis), as location ids in insertion
/// order.
pub open spec fn landmarks_in_spec(locs: Seq<LandmarkLocation>, rect: Rect) -> Seq<LocationId>
    decreases locs.len(),
{
    if locs.len() == 0 {
        Seq::empty()
    } else {
        landmarks_in_spec(locs.drop_last(), rect) + (if rect.contains_spec(
            locs.last().location.x as int,
            locs.last().location.y as int,
        ) {
            seq![LocationId((locs.len() - 1) as usize)]
        } else {
            Seq::empty()
        })
    }
}

/// The placements among `locs` that use the given landmark, in insertion
/// order.
pub open spec fn locations_of_spec(locs: Seq<LandmarkLocation>, id: LandmarkId) -> Seq<
    LandmarkLocation,
>
    decreases locs.len(),
{
    if locs.len() == 0 {
        Seq::empty()
    } else {
        locations_of_spec(locs.drop_last(), id) + (if locs.last().id == id {
            seq![locs.last()]
        } else {
            Seq::empty()
        })
    }
}

/// A map of landmarks: a landmark list and a placement list, both
/// append-only, with an optional name. Ids are stable vector indices, since
/// nothing is ever removed.
#[derive(Debug, Clone, PartialEq, Eq)]
pub struct LandmarkMap {
    name: Option<String>,
    landmarks: Vec<Landmark>,
    locations: Vec<LandmarkLocation>,
}

impl LandmarkMap {
    /// The landmark list, in insertion order.
    pub closed spec fn landmarks_spec(self) -> Seq<Landmark> {
        self.landmarks@
    }

    /// The placement list, in insertion order.
    pub closed spec fn locations_spec(self) -> Seq<LandmarkLocation> {
        self.locations@
    }

    /// The optional name.
    pub closed spec fn name_spec(self) -> Option<String> {
        self.name
    }

    /// Every placement names a landmark of this map, and every stored
    /// landmark is well-formed.
    pub open spec fn wf(self) -> bool {
        &&& forall|i: int|
            0 <= i < self.locations_spec().len() ==> (#[trigger] self.locations_spec()[i]).id.0
                < self.landmarks_spec().len()
        &&& forall|i: int|
            0 <= i < self.landmarks_spec().len() ==> (#[trigger] self.landmarks_spec()[i]).wf()
    }

    /// Add a landmark to this map; this just adds the pattern. The returned
    /// id is the new index.
    pub fn add_landmark(&mut self, lm: Landmark) -> (id: LandmarkId)
        requires
            old(self).wf(),
            lm.wf(),
        ensures
            final(self).wf(),
            id.0 == old(self).landmarks_spec().len(),
            final(self).landmarks_spec() == old(self).landmarks_spec().push(lm),
            final(self).locations_spec() == old(self).locations_spec(),
            final(self).name_spec() == old(self).name_spec(),
    {
        let id = LandmarkId(self.landmarks.len());
        self.landmarks.push(lm);
        proof {
            assert forall|i: int| 0 <= i < self.landmarks_spec().len() implies (
            #[trigger] self.landmarks_spec()[i]).wf() by {
                if i < old(self).landmarks_spec().len() {
                    assert(old(self).landmarks_spec()[i].wf());
                    assert(self.landmarks_spec()[i] == old(self).landmarks_spec()[i]);
                } else {
                    assert(self.landmarks_spec()[i] == lm);
                }
            }
            assert forall|i: int| 0 <= i < self.locations_spec().len() implies (
            #[trigger] self.locations_spec()[i]).id.0 < self.landmarks_spec().len() by {
                assert(old(self).locations_spec()[i].id.0 < old(self).landmarks_spec().len());
            }
        }
        id
    }

    /// Add a fixed location to the map, stating that the landmark with the
    /// provided id is present at this map coordinate. The id must have been
    /// produced by this map.
    pub fn add_fixed(&mut self, id: LandmarkId, location: Coordinate) -> (r: LandmarkLocation)
        requires
            old(self).wf(),
            id.0 < old(self).landmarks_spec().len(),
        ensures
            final(self).wf(),
            r == (LandmarkLocation { location, id }),
            final(self).locations_spec() == old(self).locations_spec().push(r),
            final(self).landmarks_spec() == old(self).landmarks_spec(),
            final(self).name_spec() == old(self).name_spec(),
    {
        let r = LandmarkLocation { location, id };
        self.locations.push(r);
        proof {
            assert forall|i: int| 0 <= i < self.locations_spec().len() implies (
            #[trigger] self.locations_spec()[i]).id.0 < self.landmarks_spec().len() by {
                if i < old(self).locations_spec().len() {
                    assert(old(self).locations_spec()[i].id.0 < old(self).landmarks_spec().len());
                    assert(self.locations_spec()[i] == old(self).locations_spec()[i]);
                } else {
                    assert(self.locations_spec()[i] == r);
                }
            }
        }
        r
    }

    /// The ids of the placements that fall within a rectangle of map
    /// coordinates, inclusive on both bounds of each axis.
    pub fn landmarks_in(&self, rect: &Rect) -> (r: Vec<LocationId>)
        requires
            rect.extent_ok(),
        ensures
            r@ == landmarks_in_spec(self.locations_spec(), *rect),
    {
        let mut r: Vec<LocationId> = Vec::new();
        let n = self.locations.len();
        let mut i: usize = 0;
        while i < n
            invariant
                n == self.locations@.len(),
                i <= n,
                rect.extent_ok(),
                r@ == landmarks_in_spec(self.locations@.take(i as int), *rect),
            decreases n - i,
        {
            let loc = self.locations[i];
            if rect.contains(loc.location.x, loc.location.y) {
                r.push(LocationId(i));
            }
            proof {
                let pre = self.locations@.take(i as int);
                let cur = self.locations@.take(i as int + 1);
                assert(cur.drop_last() =~= pre);
                assert(cur.last() == loc);
                assert(r@ =~= landmarks_in_spec(cur, *rect));
            }
            i = i + 1;
        }
        proof {
            assert(self.locations@.take(n as int) =~= self.locations@);
        }
        r
    }

    /// A specific placement, by id. The id must have been produced by this
    /// map.
    pub fn location(&self, id: LocationId) -> (r: &LandmarkLocation)
        requires
            id.0 < self.locations_spec().len(),
        ensures
            *r == self.locations_spec()[id.0 as int],
    {
        &self.locations[id.0]
    }

    /// All placements, in insertion order.
    pub fn locations(&self) -> (r: &[LandmarkLocation])
        ensures
            r@ == self.locations_spec(),
    {
        self.locations.as_slice()
    }

    /// All placements that use the provided landmark, in insertion order.
    pub fn locations_by_landmark(&self, id: LandmarkId) -> (r: Vec<LandmarkLocation>)
        ensures
            r@ == locations_of_spec(self.locations_spec(), id),
    {
        let mut r: Vec<LandmarkLocation> = Vec::new();
        let n = self.locations.len();
        let mut i: usize = 0;
        while i < n
            invariant
                n == self.locations@.len(),
                i <= n,
                r@ == locations_of_spec(self.locations@.take(i as int), id),
            decreases n - i,
        {
            let loc = self.locations[i];
            if loc.id.0 == id.0 {
                r.push(loc);
            }
            proof {
                let pre = self.locations@.take(i as int);
                let cur = self.locations@.take(i as int + 1);
                assert(cur.drop_last() =~= pre);
                assert(cur.last() == loc);
                assert(r@ =~= locations_of_spec(cur, id));
            }
            i = i + 1;
        }
        proof {
            assert(self.locations@.take(n as int) =~= self.locations@);
        }
        r
    }

    /// A landmark, by id. The id must have been produced by this map.
    pub fn landmark(&self, id: &LandmarkId) -> (r: &Landmark)
        requires
            id.0 < self.landmarks_spec().len(),
        ensures
            *r == self.landmarks_spec()[id.0 as int],
    {
        &self.landmarks[id.0]
    }

    /// All landmark ids, in insertion order.
    pub fn landmark_ids(&self) -> (r: Vec<LandmarkId>)
        ensures
            r@.len() == self.landmarks_spec().len(),
            forall|i: int| 0 <= i < r@.len() ==> (#[trigger] r@[i]) == LandmarkId(i as usize),
    {
        let mut r: Vec<LandmarkId> = Vec::new();
        let n = self.landmarks.len();
        let mut i: usize = 0;
        while i < n
            invariant
                i <= n,
                r@.len() == i,
                forall|j: int| 0 <= j < i ==> (#[trigger] r@[j]) == LandmarkId(j as usize),
            decreases n - i,
        {
            r.push(LandmarkId(i));
            i = i + 1;
        }
        r
    }

    /// Set the map's name.
    pub fn set_name(&mut self, name: Option<String>)
        ensures
            final(self).name_spec() == name,
            final(self).landmarks_spec() == old(self).landmarks_spec(),
            final(self).locations_spec() == old(self).locations_spec(),
            final(self).wf() == old(self).wf(),
    {
        self.name = name;
        proof {
            assert forall|i: int| 0 <= i < self.locations_spec().len() implies (
            #[trigger] self.locations_spec()[i]) == old(self).locations_spec()[i] by {}
            assert forall|i: int| 0 <= i < self.landmarks_spec().len() implies (
            #[trigger] self.landmarks_spec()[i]) == old(self).landmarks_spec()[i] by {}
        }
    }

    /// The map's name, if any.
    pub fn name(&self) -> (r: Option<String>)
        ensures
            r is Some <==> self.name_spec() is Some,
            r is Some ==> r.unwrap()@ == self.name_spec().unwrap()@,
    {
        match &self.name {
            Some(s) => Some(s.clone()),
            None => None,
        }
    }
}

impl Default for LandmarkMap {
    /// The empty, unnamed map.
    fn default() -> (r: LandmarkMap)
        ensures
            r.wf(),
            r.name_spec() is None,
            r.landmarks_spec() == Seq::<Landmark>::empty(),
            r.locations_spec() == Seq::<LandmarkLocation>::empty(),
    {
        LandmarkMap { name: None, landmarks: Vec::new(), locations: Vec::new() }
    }
}

impl LandmarkMap {
    /// The placement list lives in a vector, so its length fits the machine.
    pub proof fn lemma_locations_len_bound(self)
        ensures
            self.locations_spec().len() <= usize::MAX,
    {
        broadcast use vstd::std_specs::vec::axiom_spec_len;

        assert(vstd::std_specs::vec::spec_vec_len(&self.locations) == self.locations@.len());
    }
}

/// The placements selected by `landmarks_in` are exactly those whose
/// coordinate the rectangle contains, inclusive on both bounds.
pub proof fn lemma_landmarks_in_membership(locs: Seq<LandmarkLocation>, rect: Rect)
    requires
        locs.len() <= usize::MAX,
    ensures
        forall|i: int|
            0 <= i < locs.len() ==> (landmarks_in_spec(locs, rect).contains(
                LocationId(i as usize),
            ) <==> rect.contains_spec(
                (#[trigger] locs[i]).location.x as int,
                locs[i].location.y as int,
            )),
        forall|id: LocationId|
            #[trigger] landmarks_in_spec(locs, rect).contains(id) ==> id.0 < locs.len(),
    decreases locs.len(),
{
    if locs.len() > 0 {
        lemma_landmarks_in_membership(locs.drop_last(), rect);
        let prev = landmarks_in_spec(locs.drop_last(), rect);
        let whole = landmarks_in_spec(locs, rect);
        let lastid = LocationId((locs.len() - 1) as usize);
        let keep = rect.contains_spec(locs.last().location.x as int, locs.last().location.y as int);
        if keep {
            assert(whole =~= prev.push(lastid));
        } else {
            assert(whole =~= prev);
        }
        assert forall|id: LocationId| #[trigger] whole.contains(id) implies id.0 < locs.len() by {
            let j = choose|j: int| 0 <= j < whole.len() && whole[j] == id;
            if j < prev.len() {
                assert(prev.contains(id));
            } else {
                assert(id == lastid);
            }
        }
        assert forall|i: int| 0 <= i < locs.len() implies (whole.contains(LocationId(i as usize))
            <==> rect.contains_spec(
            (#[trigger] locs[i]).location.x as int,
            locs[i].location.y as int,
        )) by {
            if i < locs.len() - 1 {
                assert(locs.drop_last()[i] == locs[i]);
                if prev.contains(LocationId(i as usize)) {
                    let j = choose|j: int| 0 <= j < prev.len() && prev[j] == LocationId(i as usize);
                    assert(whole[j] == prev[j]);
                }
                if whole.contains(LocationId(i as usize)) {
                    let j = choose|j: int|
                        0 <= j < whole.len() && whole[j] == LocationId(i as usize);
                    assert(j < prev.len());
                    assert(prev[j] == whole[j]);
                }
            } else {
                assert(locs[i] == locs.last());
                if keep {
                    assert(whole[whole.len() - 1] == lastid);
                    assert(whole.contains(lastid));
                } else {
                    if whole.contains(lastid) {
                        assert(prev.contains(lastid));
                        assert(lastid.0 < locs.drop_last().len());
                        assert(false);
                    }
                }
            }
        }
    }
}

} // verus!
