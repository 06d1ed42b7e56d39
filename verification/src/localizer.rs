//! Position tracking against a landmark map: bounded incremental search,
//! full reacquisition, majority-vote resolution, and opportunistic map
//! growth.

use crate::landmark::Image;
use crate::landmark::Landmark;
use crate::map::LandmarkId;
use crate::map::LandmarkLocation;
use crate::map::LandmarkMap;
use crate::map::LocationId;
use crate::map::landmarks_in_spec;
use crate::map::locations_of_spec;
use crate::util::Coordinate;
use crate::util::Rect;
use crate::util::coord_add;
use crate::util::coord_sub;
use vstd::prelude::*;

verus! {

/// Largest image dimension and region-of-interest extent the localizer
/// works with; keeps screen-frame arithmetic inside `i32`.
pub const MAX_DIM: i32 = 10_000_000;

/// Largest allowed search-box half-width.
pub const MAX_SEARCH_BOX: u32 = 1_000_000;

/// Largest magnitude of a map placement coordinate the localizer searches
/// against; keeps map-frame arithmetic inside `i32`.
pub const MAX_PLACEMENT: i32 = 820_000_000;

/// Largest magnitude the position estimate can take: a placement offset by
/// a screen coordinate.
pub const MAX_POSITION: i32 = 830_000_000;

/// Both components of a coordinate lie within `[-b, b]`.
pub open spec fn coord_within(c: Coordinate, b: int) -> bool {
    -b <= c.x <= b && -b <= c.y <= b
}

/// The region of interest stays within the working range.
pub open spec fn roi_ok(r: Rect) -> bool {
    &&& -MAX_DIM <= r.x
    &&& r.x + r.w <= MAX_DIM
    &&& -MAX_DIM <= r.y
    &&& r.y + r.h <= MAX_DIM
}

/// The image dimensions stay within the working range.
pub open spec fn image_ok(img: Image) -> bool {
    img.width <= MAX_DIM && img.height <= MAX_DIM
}

/// Every placement of the map stays within the working range.
pub open spec fn map_ok(m: LandmarkMap) -> bool {
    forall|i: int|
        0 <= i < m.locations_spec().len() ==> coord_within(
            (#[trigger] m.locations_spec()[i]).location,
            MAX_PLACEMENT as int,
        )
}

/// The landmark is present in the image at this screen coordinate.
pub open spec fn present_at(lm: Landmark, img: Image, c: Coordinate) -> bool {
    lm.present_spec(img, c.x as int, c.y as int)
}

/// The coordinates among `s`, in order, at which the landmark is present in
/// the image.
pub open spec fn matches_of(lm: Landmark, img: Image, s: Seq<Coordinate>) -> Seq<Coordinate>
    decreases s.len(),
{
    if s.len() == 0 {
        Seq::empty()
    } else {
        matches_of(lm, img, s.drop_last()) + (if present_at(lm, img, s.last()) {
            seq![s.last()]
        } else {
            Seq::empty()
        })
    }
}

/// What a bounded search returns: the coordinates of `search` in spiral
/// order at which the landmark is present, truncated to the first `limit`.
pub open spec fn search_spec(lm: Landmark, img: Image, search: Rect, limit: usize) -> Seq<
    Coordinate,
> {
    let all = matches_of(lm, img, search.spiral_seq());
    if all.len() > limit {
        all.take(limit as int)
    } else {
        all
    }
}

/// A prefix of the walk yields a prefix of the matches.
proof fn lemma_matches_of_prefix(lm: Landmark, img: Image, s1: Seq<Coordinate>, s2: Seq<Coordinate>)
    requires
        s1.is_prefix_of(s2),
    ensures
        matches_of(lm, img, s1).is_prefix_of(matches_of(lm, img, s2)),
    decreases s2.len(),
{
    if s1.len() == s2.len() {
        assert(s1 =~= s2);
    } else {
        lemma_matches_of_prefix(lm, img, s1, s2.drop_last());
        let m1 = matches_of(lm, img, s1);
        let mp = matches_of(lm, img, s2.drop_last());
        let m2 = matches_of(lm, img, s2);
        assert(s1.is_prefix_of(s2.drop_last())) by {
            assert(s1 =~= s2.drop_last().take(s1.len() as int));
        }
        assert(m1.is_prefix_of(m2)) by {
            assert(forall|i: int| 0 <= i < m1.len() ==> m1[i] == mp[i] && mp[i] == m2[i]);
            assert(m1 =~= m2.take(m1.len() as int));
        }
    }
}

/// Every reported match is one of the walked coordinates, and the landmark
/// is present there.
pub proof fn lemma_matches_of_elements(lm: Landmark, img: Image, s: Seq<Coordinate>)
    ensures
        forall|j: int|
            0 <= j < matches_of(lm, img, s).len() ==> present_at(
                lm,
                img,
                #[trigger] matches_of(lm, img, s)[j],
            ) && s.contains(matches_of(lm, img, s)[j]),
    decreases s.len(),
{
    if s.len() > 0 {
        lemma_matches_of_elements(lm, img, s.drop_last());
        let prev = matches_of(lm, img, s.drop_last());
        let whole = matches_of(lm, img, s);
        assert forall|j: int| 0 <= j < whole.len() implies present_at(
            lm,
            img,
            #[trigger] whole[j],
        ) && s.contains(whole[j]) by {
            if j < prev.len() {
                assert(whole[j] == prev[j]);
                let w = choose|w: int| 0 <= w < s.drop_last().len() && s.drop_last()[w] == prev[j];
                assert(s[w] == prev[j]);
            } else {
                assert(whole[j] == s.last());
                assert(s[s.len() - 1] == s.last());
            }
        }
    }
}

/// A first-match search agrees with the head of any wider search over the
/// same inputs: for every `n >= 1`, the single result of a limit-1 search,
/// when present, equals the first element of the limit-`n` search.
pub proof fn lemma_search_first_match(lm: Landmark, img: Image, search: Rect, n: usize)
    requires
        n >= 1,
        search_spec(lm, img, search, 1).len() == 1,
    ensures
        search_spec(lm, img, search, n).len() >= 1,
        search_spec(lm, img, search, n)[0] == search_spec(lm, img, search, 1)[0],
{
    let all = matches_of(lm, img, search.spiral_seq());
    assert(all.len() >= 1);
    assert(search_spec(lm, img, search, 1)[0] == all[0]);
    assert(search_spec(lm, img, search, n)[0] == all[0]);
}

/// How many of the matches imply the given position.
pub open spec fn count_pos(ms: Seq<LandmarkMatch>, p: Coordinate) -> int
    decreases ms.len(),
{
    if ms.len() == 0 {
        0int
    } else {
        count_pos(ms.drop_last(), p) + (if ms.last().best_position == p {
            1int
        } else {
            0int
        })
    }
}

/// The index, among the first `n` matches, of the elected match: the one
/// whose implied position gathers the most agreeing matches, the earliest
/// such match winning ties.
pub open spec fn elected_index_upto(ms: Seq<LandmarkMatch>, n: int) -> int
    decreases n,
{
    if n <= 1 {
        0int
    } else {
        let prev = elected_index_upto(ms, n - 1);
        if count_pos(ms, ms[n - 1].best_position) > count_pos(ms, ms[prev].best_position) {
            n - 1
        } else {
            prev
        }
    }
}

/// The index of the elected match; meaningful when there is at least one.
pub open spec fn elected_index(ms: Seq<LandmarkMatch>) -> int {
    elected_index_upto(ms, ms.len() as int)
}

/// The elected index stays in range.
proof fn lemma_elected_index_bound(ms: Seq<LandmarkMatch>, n: int)
    requires
        n >= 1,
    ensures
        0 <= elected_index_upto(ms, n) < n,
    decreases n,
{
    if n > 1 {
        lemma_elected_index_bound(ms, n - 1);
    }
}

/// The detections of the `i`-th landmark over the region: every screen
/// coordinate at which it is present, paired as (implied placement, screen
/// coordinate) under the given position estimate.
pub open spec fn detections_of(
    m: LandmarkMap,
    img: Image,
    roi: Rect,
    position: Coordinate,
    i: int,
) -> Seq<(LandmarkLocation, ScreenCoordinate)> {
    search_spec(m.landmarks_spec()[i], img, roi, usize::MAX).map_values(
        |c: Coordinate|
            (
                LandmarkLocation { location: coord_add(c, position), id: LandmarkId(i as usize) },
                ScreenCoordinate(c),
            ),
    )
}

/// The detections of the first `n` landmarks over the region, in landmark
/// order.
pub open spec fn search_all_spec(
    m: LandmarkMap,
    img: Image,
    roi: Rect,
    position: Coordinate,
    n: int,
) -> Seq<(LandmarkLocation, ScreenCoordinate)>
    decreases n,
{
    if n <= 0 {
        Seq::empty()
    } else {
        search_all_spec(m, img, roi, position, n - 1) + detections_of(m, img, roi, position, n - 1)
    }
}

/// Shape of every detection: the screen coordinate lies within the image,
/// the implied placement is the screen coordinate translated by the position
/// estimate, and the id names one of the first `n` landmarks.
pub proof fn lemma_search_all_elements(
    m: LandmarkMap,
    img: Image,
    roi: Rect,
    position: Coordinate,
    n: int,
)
    ensures
        forall|j: int|
            0 <= j < search_all_spec(m, img, roi, position, n).len() ==> {
                let e = #[trigger] search_all_spec(m, img, roi, position, n)[j];
                &&& e.0.id.0 < n
                &&& e.0.location == coord_add(e.1.0, position)
                &&& 0 <= e.1.0.x <= img.width
                &&& 0 <= e.1.0.y <= img.height
            },
    decreases n,
{
    if n > 0 {
        lemma_search_all_elements(m, img, roi, position, n - 1);
        let prev = search_all_spec(m, img, roi, position, n - 1);
        let dets = detections_of(m, img, roi, position, n - 1);
        let whole = search_all_spec(m, img, roi, position, n);
        let lm = m.landmarks_spec()[n - 1];
        let all = matches_of(lm, img, roi.spiral_seq());
        lemma_matches_of_elements(lm, img, roi.spiral_seq());
        assert forall|j: int| 0 <= j < whole.len() implies {
            let e = #[trigger] whole[j];
            &&& e.0.id.0 < n
            &&& e.0.location == coord_add(e.1.0, position)
            &&& 0 <= e.1.0.x <= img.width
            &&& 0 <= e.1.0.y <= img.height
        } by {
            if j < prev.len() {
                assert(whole[j] == prev[j]);
            } else {
                let k = j - prev.len();
                assert(whole[j] == dets[k]);
                let c = search_spec(lm, img, roi, usize::MAX)[k];
                if all.len() > usize::MAX {
                    assert(c == all[k]);
                } else {
                    assert(c == all[k]);
                }
                assert(present_at(lm, img, c));
            }
        }
    }
}

/// Every placement selected by landmark is one of the map's placements and
/// carries the requested id.
pub proof fn lemma_locations_of_elements(locs: Seq<LandmarkLocation>, id: LandmarkId)
    ensures
        forall|j: int|
            0 <= j < locations_of_spec(locs, id).len() ==> (#[trigger] locations_of_spec(
                locs,
                id,
            )[j]).id == id && locs.contains(locations_of_spec(locs, id)[j]),
    decreases locs.len(),
{
    if locs.len() > 0 {
        lemma_locations_of_elements(locs.drop_last(), id);
        let prev = locations_of_spec(locs.drop_last(), id);
        let whole = locations_of_spec(locs, id);
        assert forall|j: int| 0 <= j < whole.len() implies (#[trigger] whole[j]).id == id
            && locs.contains(whole[j]) by {
            if j < prev.len() {
                assert(whole[j] == prev[j]);
                let w = choose|w: int|
                    0 <= w < locs.drop_last().len() && locs.drop_last()[w] == prev[j];
                assert(locs[w] == prev[j]);
            } else {
                assert(whole[j] == locs.last());
                assert(locs[locs.len() - 1] == locs.last());
            }
        }
    }
}

/// The matches a single detection yields: one per placement of the detected
/// pattern, each implying the position that would align that placement with
/// the detection.
pub open spec fn fanout_one(
    position: Coordinate,
    det: (LandmarkLocation, ScreenCoordinate),
    m: LandmarkMap,
) -> Seq<LandmarkMatch> {
    locations_of_spec(m.locations_spec(), det.0.id).map_values(
        |cand: LandmarkLocation|
            LandmarkMatch {
                screen_position: det.1,
                location: det.0,
                best_position: coord_sub(position, coord_sub(det.0.location, cand.location)),
            },
    )
}

/// The matches the first `n` detections yield, in order.
pub open spec fn fanout_upto(
    position: Coordinate,
    dets: Seq<(LandmarkLocation, ScreenCoordinate)>,
    m: LandmarkMap,
    n: int,
) -> Seq<LandmarkMatch>
    decreases n,
{
    if n <= 0 {
        Seq::empty()
    } else {
        fanout_upto(position, dets, m, n - 1) + fanout_one(position, dets[n - 1], m)
    }
}

/// All matches a full reacquisition considers: every detection anywhere in
/// the region, fanned out over every placement of its pattern.
pub open spec fn relocalize_matches(
    m: LandmarkMap,
    img: Image,
    roi: Rect,
    position: Coordinate,
) -> Seq<LandmarkMatch> {
    let dets = search_all_spec(m, img, roi, position, m.landmarks_spec().len() as int);
    fanout_upto(position, dets, m, dets.len() as int)
}

/// A rectangle translated by a coordinate.
pub open spec fn rect_plus(r: Rect, c: Coordinate) -> Rect {
    Rect { x: (r.x + c.x) as i32, y: (r.y + c.y) as i32, w: r.w, h: r.h }
}

/// The screen-frame search box around an expected screen position: a square
/// of half-width `sb` centered there, its origin clamped to non-negative.
pub open spec fn search_box_spec(se: Coordinate, sb: u32) -> Rect {
    Rect {
        x: (if se.x - sb > 0 {
            se.x - sb
        } else {
            0int
        }) as i32,
        y: (if se.y - sb > 0 {
            se.y - sb
        } else {
            0int
        }) as i32,
        w: (2 * sb) as u32,
        h: (2 * sb) as u32,
    }
}

/// How incremental tracking handles one expected placement, given the
/// matches found so far. First the zero-search shortcut: if an earlier match
/// exists, test presence exactly where that match's implied position
/// predicts this placement (the scene is assumed to have translated
/// rigidly). Otherwise fall back to a bounded spiral search in a box around
/// the position predicted by the current global estimate, taking the first
/// hit.
pub open spec fn localize_step(
    m: LandmarkMap,
    img: Image,
    sb: u32,
    position: Coordinate,
    acc: Seq<LandmarkMatch>,
    loc: LandmarkLocation,
) -> Seq<LandmarkMatch> {
    let lm = m.landmarks_spec()[loc.id.0 as int];
    if acc.len() > 0 && present_at(lm, img, coord_sub(loc.location, acc[0].best_position)) {
        let sp = coord_sub(loc.location, acc[0].best_position);
        acc.push(
            LandmarkMatch {
                screen_position: ScreenCoordinate(sp),
                location: loc,
                best_position: acc[0].best_position,
            },
        )
    } else {
        let se = coord_sub(loc.location, position);
        let found = search_spec(lm, img, search_box_spec(se, sb), 1);
        if found.len() > 0 {
            acc.push(
                LandmarkMatch {
                    screen_position: ScreenCoordinate(found[0]),
                    location: loc,
                    best_position: coord_sub(loc.location, found[0]),
                },
            )
        } else {
            acc
        }
    }
}

/// The matches incremental tracking gathers from the first `n` expected
/// placements, in order.
pub open spec fn localize_fold(
    m: LandmarkMap,
    img: Image,
    sb: u32,
    position: Coordinate,
    lids: Seq<LocationId>,
    n: int,
) -> Seq<LandmarkMatch>
    decreases n,
{
    if n <= 0 {
        Seq::empty()
    } else {
        localize_step(
            m,
            img,
            sb,
            position,
            localize_fold(m, img, sb, position, lids, n - 1),
            m.locations_spec()[lids[n - 1].0 as int],
        )
    }
}

/// All matches incremental tracking considers: the region is translated into
/// the map frame by the current estimate, and every placement expected there
/// is looked for.
pub open spec fn localize_matches_spec(
    m: LandmarkMap,
    img: Image,
    roi: Rect,
    position: Coordinate,
    sb: u32,
) -> Seq<LandmarkMatch> {
    let lids = landmarks_in_spec(m.locations_spec(), rect_plus(roi, position));
    localize_fold(m, img, sb, position, lids, lids.len() as int)
}

/// The placements implied by the first `n` detections whose (landmark id,
/// map coordinate) pair is not already among `existing`, in detection order.
/// The check is against `existing` as it was before any insertion.
pub open spec fn novel_placements(
    dets: Seq<(LandmarkLocation, ScreenCoordinate)>,
    existing: Seq<LandmarkLocation>,
    n: int,
) -> Seq<LandmarkLocation>
    decreases n,
{
    if n <= 0 {
        Seq::empty()
    } else {
        novel_placements(dets, existing, n - 1) + (if existing.contains(dets[n - 1].0) {
            Seq::empty()
        } else {
            seq![dets[n - 1].0]
        })
    }
}

/// Nothing `novel_placements` selects is already present among the existing
/// placements, and each selected placement comes from a detection.
pub proof fn lemma_novel_placements_fresh(
    dets: Seq<(LandmarkLocation, ScreenCoordinate)>,
    existing: Seq<LandmarkLocation>,
    n: int,
)
    ensures
        forall|j: int|
            0 <= j < novel_placements(dets, existing, n).len() ==> !existing.contains(
                #[trigger] novel_placements(dets, existing, n)[j],
            ) && exists|t: int|
                0 <= t < n && (#[trigger] dets[t]).0 == novel_placements(dets, existing, n)[j],
    decreases n,
{
    if n > 0 {
        lemma_novel_placements_fresh(dets, existing, n - 1);
        let prev = novel_placements(dets, existing, n - 1);
        let whole = novel_placements(dets, existing, n);
        assert forall|j: int| 0 <= j < whole.len() implies !existing.contains(#[trigger] whole[j])
            && exists|t: int| 0 <= t < n && (#[trigger] dets[t]).0 == whole[j] by {
            if j < prev.len() {
                assert(whole[j] == prev[j]);
                let t = choose|t: int| 0 <= t < n - 1 && (#[trigger] dets[t]).0 == prev[j];
                assert(dets[t].0 == whole[j]);
            } else {
                assert(whole[j] == dets[n - 1].0);
            }
        }
    }
}

/// Helper to make screen coordinates a distinct type.
#[derive(Debug, Copy, Clone, Eq, PartialEq, Structural, Default)]
pub struct ScreenCoordinate(pub Coordinate);

/// Configuration for the localizer.
#[derive(Debug, Copy, Clone, Eq, PartialEq, Structural)]
pub struct LocalizerConfig {
    /// Amount to search around the expected value. Width of the box searched
    /// is 2 * search_box.
    pub search_box: u32,
}

impl Default for LocalizerConfig {
    /// The default search-box half-width.
    fn default() -> (r: LocalizerConfig)
        ensures
            r.search_box == 55,
    {
        LocalizerConfig { search_box: 55 }
    }
}

/// One detection evaluated against one placement: where it was seen on the
/// screen, the placement it was held against, and the position estimate this
/// pair alone implies.
#[derive(Debug, Copy, Clone, Eq, PartialEq, Structural)]
pub struct LandmarkMatch {
    pub screen_position: ScreenCoordinate,
    pub location: LandmarkLocation,
    pub best_position: Coordinate,
}

/// The outcome of one localisation call: the matches considered, the elected
/// position, and the size of the largest group of matches agreeing on it.
#[derive(Debug, Clone, Eq, PartialEq, Default)]
pub struct LocalisationResult {
    pub matches: Vec<LandmarkMatch>,
    pub position: Coordinate,
    pub consistent_count: usize,
}

/// A struct to keep track of a location against a map.
#[derive(Debug, Clone, PartialEq, Eq)]
pub struct Localizer {
    /// Position is the location of the top left corner of the screen.
    position: Coordinate,
    map: LandmarkMap,
    config: LocalizerConfig,
}

impl Localizer {
    /// The current position estimate.
    pub closed spec fn position_spec(self) -> Coordinate {
        self.position
    }

    /// The owned map.
    pub closed spec fn map_spec(self) -> LandmarkMap {
        self.map
    }

    /// The configuration.
    pub closed spec fn config_spec(self) -> LocalizerConfig {
        self.config
    }

    /// The localizer's state stays within the working ranges.
    pub open spec fn wf(self) -> bool {
        &&& self.map_spec().wf()
        &&& coord_within(self.position_spec(), MAX_POSITION as int)
        &&& self.config_spec().search_box <= MAX_SEARCH_BOX
    }

    /// Create a new localizer using the provided map, initial position and
    /// configuration.
    pub fn new(map: LandmarkMap, position: Coordinate, config: LocalizerConfig) -> (r: Localizer)
        ensures
            r.map_spec() == map,
            r.position_spec() == position,
            r.config_spec() == config,
    {
        Localizer { position, map, config }
    }

    /// Set the current position of the localizer.
    pub fn set_position(&mut self, position: Coordinate)
        ensures
            final(self).position_spec() == position,
            final(self).map_spec() == old(self).map_spec(),
            final(self).config_spec() == old(self).config_spec(),
    {
        self.position = position;
    }

    /// The current map.
    pub fn map(&self) -> (r: &LandmarkMap)
        ensures
            *r == self.map_spec(),
    {
        &self.map
    }

    /// How many of the matches imply the given position.
    fn count_matching(matches: &[LandmarkMatch], p: Coordinate) -> (c: usize)
        ensures
            c == count_pos(matches@, p),
    {
        let mut c: usize = 0;
        let n = matches.len();
        let mut i: usize = 0;
        while i < n
            invariant
                i <= n,
                n == matches@.len(),
                c == count_pos(matches@.take(i as int), p),
                c <= i,
            decreases n - i,
        {
            let ghost pre = matches@.take(i as int);
            let m = matches[i];
            if m.best_position.x == p.x && m.best_position.y == p.y {
                c = c + 1;
            }
            proof {
                let cur = matches@.take(i as int + 1);
                assert(cur.drop_last() =~= pre);
                assert(cur.last() == matches@[i as int]);
            }
            i = i + 1;
        }
        proof {
            assert(matches@.take(n as int) =~= matches@);
        }
        c
    }

    /// Resolve a set of matches by majority vote: group them by exact
    /// equality of their implied position and elect the position of the
    /// largest group. Ties are resolved deterministically in favor of the
    /// earliest match whose position reaches the maximal count. Returns
    /// nothing when there are no matches at all.
    fn matches_to_localisation_result(matches: &[LandmarkMatch]) -> (r: Option<LocalisationResult>)
        ensures
            matches@.len() == 0 <==> r is None,
            matches@.len() > 0 ==> match r {
                Some(res) => {
                    &&& res.matches@ == matches@
                    &&& res.position == matches@[elected_index(matches@)].best_position
                    &&& res.consistent_count == count_pos(matches@, res.position)
                },
                None => false,
            },
    {
        let n = matches.len();
        if n == 0 {
            return None;
        }
        let mut best: usize = 0;
        let mut i: usize = 1;
        while i < n
            invariant
                1 <= i <= n,
                n == matches@.len(),
                best < i,
                best == elected_index_upto(matches@, i as int),
            decreases n - i,
        {
            let ci = Self::count_matching(matches, matches[i].best_position);
            let cb = Self::count_matching(matches, matches[best].best_position);
            if ci > cb {
                best = i;
            }
            i = i + 1;
        }
        let position = matches[best].best_position;
        let consistent_count = Self::count_matching(matches, position);
        Some(
            LocalisationResult {
                matches: vstd::slice::slice_to_vec(matches),
                position,
                consistent_count,
            },
        )
    }

    /// Search a landmark in the image over a search box in spiral order,
    /// collecting matches until `limit` is reached.
    pub fn search_landmarks(image: &Image, search: &Rect, landmark: &Landmark, limit: usize) -> (r:
        Vec<ScreenCoordinate>)
        requires
            landmark.wf(),
            image.wf(),
            search.extent_ok(),
            search.spiral_in_range(),
        ensures
            r@.map_values(|sc: ScreenCoordinate| sc.0) == search_spec(
                *landmark,
                *image,
                *search,
                limit,
            ),
    {
        let mut res: Vec<ScreenCoordinate> = Vec::new();
        if limit == 0 {
            proof {
                let all = matches_of(*landmark, *image, search.spiral_seq());
                if all.len() > 0 {
                    assert(all.take(0) =~= Seq::<Coordinate>::empty());
                }
                assert(res@.map_values(|sc: ScreenCoordinate| sc.0) =~= Seq::<
                    Coordinate,
                >::empty());
            }
            return res;
        }
        let mut it = search.spiral();
        loop
            invariant
                landmark.wf(),
                image.wf(),
                it.wf(),
                it.rect() == *search,
                limit > 0,
                res@.len() < limit,
                res@.map_values(|sc: ScreenCoordinate| sc.0) == matches_of(
                    *landmark,
                    *image,
                    it.emitted(),
                ),
            decreases search.spiral_seq().len() - it.emitted().len(),
        {
            let ghost processed = it.emitted();
            match it.next() {
                None => {
                    proof {
                        let all = matches_of(*landmark, *image, search.spiral_seq());
                        assert(res@.map_values(|sc: ScreenCoordinate| sc.0) == all);
                        assert(all.len() <= limit);
                    }
                    return res;
                },
                Some(c) => {
                    let ghost before = res@;
                    if c.x >= 0 && c.y >= 0 {
                        if landmark.present(image, (c.x as u32, c.y as u32)) {
                            res.push(ScreenCoordinate(c));
                        }
                    }
                    proof {
                        let f = |sc: ScreenCoordinate| sc.0;
                        let stepped = processed.push(c);
                        assert(stepped.drop_last() =~= processed);
                        assert(stepped.last() == c);
                        if c.x >= 0 && c.y >= 0 && present_at(*landmark, *image, c) {
                            assert(res@ =~= before.push(ScreenCoordinate(c)));
                            assert(res@.map_values(f) =~= before.map_values(f).push(c));
                        } else {
                            assert(!present_at(*landmark, *image, c));
                        }
                        assert(res@.map_values(f) =~= matches_of(*landmark, *image, stepped));
                    }
                    if res.len() >= limit {
                        proof {
                            let f = |sc: ScreenCoordinate| sc.0;
                            let all = matches_of(*landmark, *image, search.spiral_seq());
                            lemma_matches_of_prefix(
                                *landmark,
                                *image,
                                it.emitted(),
                                search.spiral_seq(),
                            );
                            let part = matches_of(*landmark, *image, it.emitted());
                            assert(part.is_prefix_of(all));
                            assert(res@.map_values(f) =~= all.take(limit as int));
                        }
                        return res;
                    }
                },
            }
        }
    }

    /// Search every known landmark exhaustively over the region and record
    /// every occurrence found, independent of any map placement: raw pattern
    /// detections, paired with the map coordinate each implies under the
    /// current position estimate.
    #[verifier::loop_isolation(false)]
    pub fn search_all(&self, image: &Image, roi: &Rect) -> (r: Vec<
        (LandmarkLocation, ScreenCoordinate),
    >)
        requires
            self.wf(),
            image.wf(),
            image_ok(*image),
            roi.extent_ok(),
            roi.spiral_in_range(),
        ensures
            r@ == search_all_spec(
                self.map_spec(),
                *image,
                *roi,
                self.position_spec(),
                self.map_spec().landmarks_spec().len() as int,
            ),
    {
        let ghost m = self.map_spec();
        let ghost pos = self.position_spec();
        let mut res: Vec<(LandmarkLocation, ScreenCoordinate)> = Vec::new();
        let ids = self.map.landmark_ids();
        let n = ids.len();
        let mut i: usize = 0;
        while i < n
            invariant
                i <= n,
                res@ == search_all_spec(m, *image, *roi, pos, i as int),
            decreases n - i,
        {
            let id = ids[i];
            let landmark = self.map.landmark(&id);
            let found = Self::search_landmarks(image, roi, landmark, usize::MAX);
            let ghost lm = m.landmarks_spec()[i as int];
            let ghost fseq = search_spec(lm, *image, *roi, usize::MAX);
            let ghost all = matches_of(lm, *image, roi.spiral_seq());
            proof {
                lemma_matches_of_elements(lm, *image, roi.spiral_seq());
            }
            let k = found.len();
            let mut j: usize = 0;
            while j < k
                invariant
                    j <= k,
                    k == found@.len(),
                    found@.map_values(|sc: ScreenCoordinate| sc.0) == fseq,
                    res@ == search_all_spec(m, *image, *roi, pos, i as int) + detections_of(
                        m,
                        *image,
                        *roi,
                        pos,
                        i as int,
                    ).take(j as int),
                decreases k - j,
            {
                let sc = found[j];
                proof {
                    assert(found@.map_values(|sc: ScreenCoordinate| sc.0)[j as int] == sc.0);
                    assert(fseq[j as int] == sc.0);
                    if all.len() > usize::MAX {
                        assert(fseq[j as int] == all[j as int]);
                    }
                    assert(present_at(lm, *image, sc.0));
                    assert(0 <= sc.0.x <= image.width && 0 <= sc.0.y <= image.height);
                }
                let ll = LandmarkLocation { location: sc.0.add(self.position), id };
                res.push((ll, sc));
                proof {
                    let dets = detections_of(m, *image, *roi, pos, i as int);
                    assert(dets[j as int] == (ll, sc));
                    assert(dets.take(j as int + 1) =~= dets.take(j as int).push((ll, sc)));
                }
                j = j + 1;
            }
            proof {
                let dets = detections_of(m, *image, *roi, pos, i as int);
                assert(dets.take(k as int) =~= dets);
                assert(res@ =~= search_all_spec(m, *image, *roi, pos, i as int + 1));
            }
            i = i + 1;
        }
        res
    }

    /// Do a fresh relocalisation: search the whole region for every known
    /// pattern, fan each detection out over every placement of that pattern,
    /// and resolve by majority vote. On success the elected position becomes
    /// the new estimate. Usually performed when localisation is lost.
    #[verifier::loop_isolation(false)]
    pub fn relocalize(&mut self, image: &Image, roi: &Rect) -> (r: Option<LocalisationResult>)
        requires
            old(self).wf(),
            map_ok(old(self).map_spec()),
            image.wf(),
            image_ok(*image),
            roi.extent_ok(),
            roi.spiral_in_range(),
        ensures
            final(self).wf(),
            final(self).map_spec() == old(self).map_spec(),
            final(self).config_spec() == old(self).config_spec(),
            ({
                let ms = relocalize_matches(
                    old(self).map_spec(),
                    *image,
                    *roi,
                    old(self).position_spec(),
                );
                &&& (ms.len() == 0 <==> r is None)
                &&& (r is None ==> final(self).position_spec() == old(self).position_spec())
                &&& (ms.len() > 0 ==> match r {
                    Some(res) => {
                        &&& res.matches@ == ms
                        &&& res.position == ms[elected_index(ms)].best_position
                        &&& res.consistent_count == count_pos(ms, res.position)
                        &&& final(self).position_spec() == res.position
                    },
                    None => false,
                })
            }),
    {
        let ghost m = self.map_spec();
        let ghost pos = self.position_spec();
        let detections = self.search_all(image, roi);
        let ghost dets = detections@;
        proof {
            lemma_search_all_elements(m, *image, *roi, pos, m.landmarks_spec().len() as int);
        }
        let mut matches: Vec<LandmarkMatch> = Vec::new();
        let n = detections.len();
        let mut i: usize = 0;
        while i < n
            invariant
                i <= n,
                n == dets.len(),
                matches@ == fanout_upto(pos, dets, m, i as int),
                forall|t: int|
                    0 <= t < matches@.len() ==> coord_within(
                        (#[trigger] matches@[t]).best_position,
                        MAX_POSITION as int,
                    ),
            decreases n - i,
        {
            let (location, screen_position) = detections[i];
            proof {
                assert(dets[i as int] == (location, screen_position));
            }
            let candidates = self.map.locations_by_landmark(location.id);
            let ghost cands = locations_of_spec(m.locations_spec(), location.id);
            proof {
                lemma_locations_of_elements(m.locations_spec(), location.id);
            }
            let k = candidates.len();
            let mut j: usize = 0;
            while j < k
                invariant
                    j <= k,
                    k == cands.len(),
                    candidates@ == cands,
                    i < n,
                    dets[i as int] == (location, screen_position),
                    matches@ == fanout_upto(pos, dets, m, i as int) + fanout_one(
                        pos,
                        (location, screen_position),
                        m,
                    ).take(j as int),
                    forall|t: int|
                        0 <= t < matches@.len() ==> coord_within(
                            (#[trigger] matches@[t]).best_position,
                            MAX_POSITION as int,
                        ),
                decreases k - j,
            {
                let candidate = candidates[j];
                proof {
                    assert(cands[j as int] == candidate);
                    assert(m.locations_spec().contains(candidate));
                    let w = choose|w: int|
                        0 <= w < m.locations_spec().len() && m.locations_spec()[w] == candidate;
                    assert(coord_within(m.locations_spec()[w].location, MAX_PLACEMENT as int));
                }
                let estimated_correction = location.location.sub(candidate.location);
                proof {
                    assert(self.position.x - estimated_correction.x == candidate.location.x
                        - screen_position.0.x);
                    assert(self.position.y - estimated_correction.y == candidate.location.y
                        - screen_position.0.y);
                }
                let best_position = self.position.sub(estimated_correction);
                matches.push(LandmarkMatch { screen_position, location, best_position });
                proof {
                    let fo = fanout_one(pos, (location, screen_position), m);
                    assert(fo[j as int] == (LandmarkMatch {
                        screen_position,
                        location,
                        best_position,
                    }));
                    assert(fo.take(j as int + 1) =~= fo.take(j as int).push(fo[j as int]));
                    assert(matches@ =~= fanout_upto(pos, dets, m, i as int) + fo.take(j as int + 1));
                }
                j = j + 1;
            }
            proof {
                let fo = fanout_one(pos, (location, screen_position), m);
                assert(fo.take(k as int) =~= fo);
                assert(matches@ =~= fanout_upto(pos, dets, m, i as int + 1));
            }
            i = i + 1;
        }
        let res = Self::matches_to_localisation_result(matches.as_slice());
        proof {
            if matches@.len() > 0 {
                lemma_elected_index_bound(matches@, matches@.len() as int);
            }
        }
        match &res {
            Some(loc_res) => {
                self.position = loc_res.position;
            },
            None => {},
        }
        res
    }

    /// Localize relative to the previous position: look for the placements
    /// expected inside the region, each through the zero-search shortcut or a
    /// bounded spiral search (see `localize_step`), and resolve by majority
    /// vote. On success the elected position becomes the new estimate; on
    /// failure the caller is expected to fall back to `relocalize`.
    #[verifier::loop_isolation(false)]
    pub fn localize(&mut self, image: &Image, roi: &Rect) -> (r: Option<LocalisationResult>)
        requires
            old(self).wf(),
            map_ok(old(self).map_spec()),
            image.wf(),
            image_ok(*image),
            roi.extent_ok(),
            roi_ok(*roi),
        ensures
            final(self).wf(),
            final(self).map_spec() == old(self).map_spec(),
            final(self).config_spec() == old(self).config_spec(),
            ({
                let ms = localize_matches_spec(
                    old(self).map_spec(),
                    *image,
                    *roi,
                    old(self).position_spec(),
                    old(self).config_spec().search_box,
                );
                &&& (ms.len() == 0 <==> r is None)
                &&& (r is None ==> final(self).position_spec() == old(self).position_spec())
                &&& (ms.len() > 0 ==> match r {
                    Some(res) => {
                        &&& res.matches@ == ms
                        &&& res.position == ms[elected_index(ms)].best_position
                        &&& res.consistent_count == count_pos(ms, res.position)
                        &&& final(self).position_spec() == res.position
                    },
                    None => false,
                })
            }),
    {
        let ghost m = self.map_spec();
        let ghost pos = self.position_spec();
        let ghost sb = self.config_spec().search_box;
        let map_roi = roi.add(self.position);
        proof {
            assert(map_roi == rect_plus(*roi, pos));
        }
        let expected = self.map.landmarks_in(&map_roi);
        let ghost lids = landmarks_in_spec(m.locations_spec(), map_roi);
        proof {
            m.lemma_locations_len_bound();
            crate::map::lemma_landmarks_in_membership(m.locations_spec(), map_roi);
        }
        let mut matches: Vec<LandmarkMatch> = Vec::new();
        let n = expected.len();
        let mut i: usize = 0;
        while i < n
            invariant
                i <= n,
                n == lids.len(),
                expected@ == lids,
                matches@ == localize_fold(m, *image, sb, pos, lids, i as int),
                forall|t: int|
                    0 <= t < matches@.len() ==> coord_within(
                        (#[trigger] matches@[t]).best_position,
                        MAX_POSITION as int,
                    ),
            decreases n - i,
        {
            let lid = expected[i];
            proof {
                assert(lids[i as int] == lid);
                assert(lids.contains(lid));
            }
            let loc = *self.map.location(lid);
            let ghost lm_spec = m.landmarks_spec()[loc.id.0 as int];
            proof {
                assert(m.locations_spec().contains(loc)) by {
                    assert(m.locations_spec()[lid.0 as int] == loc);
                }
                let w = choose|w: int|
                    0 <= w < m.locations_spec().len() && m.locations_spec()[w] == loc;
                assert(coord_within(m.locations_spec()[w].location, MAX_PLACEMENT as int));
            }
            let landmark = self.map.landmark(&loc.id);
            let ghost acc0 = matches@;
            let mut handled = false;
            if matches.len() > 0 {
                let prior = matches[0].best_position;
                let sp = loc.location.sub(prior);
                if sp.x >= 0 && sp.y >= 0 {
                    if landmark.present(image, (sp.x as u32, sp.y as u32)) {
                        matches.push(
                            LandmarkMatch {
                                screen_position: ScreenCoordinate(sp),
                                location: loc,
                                best_position: prior,
                            },
                        );
                        handled = true;
                    }
                }
                proof {
                    if !handled {
                        assert(!present_at(lm_spec, *image, coord_sub(loc.location, acc0[0].best_position)));
                    }
                }
            }
            if !handled {
                let sbi = self.config.search_box as i32;
                let se = loc.location.sub(self.position);
                let vx = se.x - sbi;
                let bx: i32 = if vx > 0 {
                    vx
                } else {
                    0
                };
                let vy = se.y - sbi;
                let by: i32 = if vy > 0 {
                    vy
                } else {
                    0
                };
                let sbox = Rect {
                    x: bx,
                    y: by,
                    w: 2 * self.config.search_box,
                    h: 2 * self.config.search_box,
                };
                proof {
                    assert(sbox == search_box_spec(coord_sub(loc.location, pos), sb));
                    assert(sbox.extent_ok());
                    assert(sbox.spiral_in_range());
                }
                if let Some(found_pos) = Self::search_landmark(image, &sbox, landmark) {
                    proof {
                        let all = matches_of(lm_spec, *image, sbox.spiral_seq());
                        lemma_matches_of_elements(lm_spec, *image, sbox.spiral_seq());
                        assert(found_pos.0 == all[0]);
                        assert(present_at(lm_spec, *image, found_pos.0));
                    }
                    let best_pos = loc.location.sub(found_pos.0);
                    matches.push(
                        LandmarkMatch {
                            screen_position: found_pos,
                            location: loc,
                            best_position: best_pos,
                        },
                    );
                }
            }
            proof {
                assert(matches@ == localize_step(m, *image, sb, pos, acc0, loc));
                assert(matches@ == localize_fold(m, *image, sb, pos, lids, i as int + 1));
            }
            i = i + 1;
        }
        let res = Self::matches_to_localisation_result(matches.as_slice());
        proof {
            if matches@.len() > 0 {
                lemma_elected_index_bound(matches@, matches@.len() as int);
            }
        }
        match &res {
            Some(loc_res) => {
                self.position = loc_res.position;
            },
            None => {},
        }
        res
    }

    /// Whether the exact placement appears in the list.
    fn contains_location(locs: &[LandmarkLocation], needle: &LandmarkLocation) -> (r: bool)
        ensures
            r == locs@.contains(*needle),
    {
        let n = locs.len();
        let mut i: usize = 0;
        while i < n
            invariant
                i <= n,
                n == locs@.len(),
                forall|j: int| 0 <= j < i ==> locs@[j] != *needle,
            decreases n - i,
        {
            let c = locs[i];
            if c.location.x == needle.location.x && c.location.y == needle.location.y && c.id.0
                == needle.id.0 {
                proof {
                    assert(locs@[i as int] == *needle);
                }
                return true;
            }
            i = i + 1;
        }
        false
    }

    /// Perform a mapping procedure: search the whole region for every known
    /// pattern and record every detection whose (landmark id, map coordinate)
    /// pair is not yet among the map's placements. Every novel detection is
    /// trusted and persisted; no corroboration or voting is applied.
    #[verifier::loop_isolation(false)]
    pub fn mapping(&mut self, image: &Image, roi: &Rect)
        requires
            old(self).wf(),
            map_ok(old(self).map_spec()),
            image.wf(),
            image_ok(*image),
            roi.extent_ok(),
            roi.spiral_in_range(),
        ensures
            final(self).wf(),
            final(self).position_spec() == old(self).position_spec(),
            final(self).config_spec() == old(self).config_spec(),
            final(self).map_spec().landmarks_spec() == old(self).map_spec().landmarks_spec(),
            final(self).map_spec().name_spec() == old(self).map_spec().name_spec(),
            ({
                let dets = search_all_spec(
                    old(self).map_spec(),
                    *image,
                    *roi,
                    old(self).position_spec(),
                    old(self).map_spec().landmarks_spec().len() as int,
                );
                let novel = novel_placements(
                    dets,
                    old(self).map_spec().locations_spec(),
                    dets.len() as int,
                );
                &&& final(self).map_spec().locations_spec() == old(
                    self,
                ).map_spec().locations_spec() + novel
                &&& forall|j: int|
                    0 <= j < novel.len() ==> !old(self).map_spec().locations_spec().contains(
                        #[trigger] novel[j],
                    )
            }),
    {
        let ghost m = self.map_spec();
        let ghost pos = self.position_spec();
        let ghost old_locs = m.locations_spec();
        let all_matches = self.search_all(image, roi);
        let ghost dets = all_matches@;
        proof {
            lemma_search_all_elements(m, *image, *roi, pos, m.landmarks_spec().len() as int);
            lemma_novel_placements_fresh(dets, old_locs, dets.len() as int);
        }
        let mut to_insert: Vec<LandmarkLocation> = Vec::new();
        let n = all_matches.len();
        let mut i: usize = 0;
        while i < n
            invariant
                i <= n,
                n == dets.len(),
                to_insert@ == novel_placements(dets, old_locs, i as int),
            decreases n - i,
        {
            let cand = all_matches[i].0;
            proof {
                assert(dets[i as int].0 == cand);
            }
            if !Self::contains_location(self.map.locations(), &cand) {
                to_insert.push(cand);
            }
            i = i + 1;
        }
        let ghost novel = novel_placements(dets, old_locs, dets.len() as int);
        let k = to_insert.len();
        let mut j: usize = 0;
        while j < k
            invariant
                j <= k,
                k == novel.len(),
                to_insert@ == novel,
                self.position == old(self).position,
                self.config == old(self).config,
                self.map.landmarks_spec() == m.landmarks_spec(),
                self.map.name_spec() == m.name_spec(),
                self.map.wf(),
                self.map.locations_spec() == old_locs + novel.take(j as int),
            decreases k - j,
        {
            let t = to_insert[j];
            proof {
                assert(novel[j as int] == t);
                let w = choose|w: int| 0 <= w < dets.len() && (#[trigger] dets[w]).0 == t;
                assert(t.id.0 < m.landmarks_spec().len());
            }
            self.map.add_fixed(t.id, t.location);
            proof {
                assert((LandmarkLocation { location: t.location, id: t.id }) == t);
                assert(novel.take(j as int + 1) =~= novel.take(j as int).push(t));
                assert(self.map.locations_spec() =~= old_locs + novel.take(j as int + 1));
            }
            j = j + 1;
        }
        proof {
            assert(novel.take(k as int) =~= novel);
        }
    }

    /// Search a landmark in the image, terminating as soon as one match is
    /// found.
    pub fn search_landmark(image: &Image, search: &Rect, landmark: &Landmark) -> (r: Option<
        ScreenCoordinate,
    >)
        requires
            landmark.wf(),
            image.wf(),
            search.extent_ok(),
            search.spiral_in_range(),
        ensures
            ({
                let found = search_spec(*landmark, *image, *search, 1);
                match r {
                    Some(sc) => found.len() == 1 && sc.0 == found[0],
                    None => found.len() == 0,
                }
            }),
    {
        let r = Self::search_landmarks(image, search, landmark, 1);
        proof {
            let f = |sc: ScreenCoordinate| sc.0;
            assert(r@.map_values(f).len() == r@.len());
            if r@.len() > 0 {
                assert(r@.map_values(f)[0] == r@[0].0);
            }
        }
        if r.len() > 0 {
            Some(r[0])
        } else {
            None
        }
    }
}

} // verus!
