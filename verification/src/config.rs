//! Configuration documents: capture setup selection and the structural form
//! of a persisted map (an optional name, landmark names in order, and
//! (landmark name, coordinate) placements).

use crate::landmark::Landmark;
use crate::map::LandmarkLocation;
use crate::map::LandmarkMap;
use crate::util::Coordinate;
use vstd::prelude::*;

verus! {

use vstd::string::StringExecFns;

/// Capture specification: if a `match_*` field is populated and matches the
/// resolution's value, the specification is considered to match and the
/// capture is set up according to the other fields.
#[derive(Debug, PartialEq, Eq, Copy, Clone)]
pub struct CaptureSpecification {
    /// The resolution's width to match to.
    pub match_width: Option<u32>,
    /// The resolution's height to match to.
    pub match_height: Option<u32>,
    /// The x offset to apply for this specification.
    pub x: u32,
    /// The y offset to apply for this specification.
    pub y: u32,
    /// The width to apply for this specification, set to the resolution's
    /// width minus x if zero.
    pub width: u32,
    /// The height to apply for this specification, set to the resolution's
    /// height minus y if zero.
    pub height: u32,
    /// The display to set the capture setup to.
    pub display: u32,
}

impl Default for CaptureSpecification {
    /// A specification that matches any resolution and captures from origin.
    fn default() -> (r: CaptureSpecification)
        ensures
            r == (CaptureSpecification {
                match_width: None,
                match_height: None,
                x: 0,
                y: 0,
                width: 0,
                height: 0,
                display: 0,
            }),
    {
        CaptureSpecification {
            match_width: None,
            match_height: None,
            x: 0,
            y: 0,
            width: 0,
            height: 0,
            display: 0,
        }
    }
}

/// Whether a specification matches the resolution.
pub open spec fn spec_matches(s: CaptureSpecification, width: u32, height: u32) -> bool {
    &&& (s.match_width is Some ==> s.match_width.unwrap() == width)
    &&& (s.match_height is Some ==> s.match_height.unwrap() == height)
}

/// A matching specification with its zero extents filled in from the
/// resolution.
pub open spec fn populated(s: CaptureSpecification, width: u32, height: u32)
    -> CaptureSpecification {
    CaptureSpecification {
        match_width: s.match_width,
        match_height: s.match_height,
        x: s.x,
        y: s.y,
        width: if s.width == 0 {
            (width - s.x) as u32
        } else {
            s.width
        },
        height: if s.height == 0 {
            (height - s.y) as u32
        } else {
            s.height
        },
        display: s.display,
    }
}

/// The capture setup for a resolution: the first matching specification,
/// populated; a full-screen default when none matches.
pub open spec fn get_config_spec(width: u32, height: u32, specs: Seq<CaptureSpecification>)
    -> CaptureSpecification
    decreases specs.len(),
{
    if specs.len() == 0 {
        CaptureSpecification {
            match_width: None,
            match_height: None,
            x: 0,
            y: 0,
            width,
            height,
            display: 0,
        }
    } else if spec_matches(specs[0], width, height) {
        populated(specs[0], width, height)
    } else {
        get_config_spec(width, height, specs.drop_first())
    }
}

/// Iterate through the specifications to find the first one matching the
/// resolution, fill in its missing or zero extents, and return it. See
/// [`CaptureSpecification`] for the matching rules.
pub fn get_config(width: u32, height: u32, specs: &[CaptureSpecification]) -> (r:
    CaptureSpecification)
    requires
        forall|i: int|
            0 <= i < specs@.len() && spec_matches(#[trigger] specs@[i], width, height) ==> specs@[i].x
                <= width && specs@[i].y <= height,
    ensures
        r == get_config_spec(width, height, specs@),
{
    let n = specs.len();
    let mut i: usize = 0;
    proof {
        assert(specs@.skip(0) =~= specs@);
    }
    while i < n
        invariant
            i <= n,
            n == specs@.len(),
            forall|j: int|
                0 <= j < specs@.len() && spec_matches(#[trigger] specs@[j], width, height)
                    ==> specs@[j].x <= width && specs@[j].y <= height,
            get_config_spec(width, height, specs@) == get_config_spec(
                width,
                height,
                specs@.skip(i as int),
            ),
        decreases n - i,
    {
        let spec = specs[i];
        proof {
            assert(specs@.skip(i as int)[0] == spec);
        }
        let mut matches = true;
        if let Some(match_width) = spec.match_width {
            matches = matches && match_width == width;
        }
        if let Some(match_height) = spec.match_height {
            matches = matches && match_height == height;
        }
        if matches {
            let populated_width = if spec.width == 0 {
                width - spec.x
            } else {
                spec.width
            };
            let populated_height = if spec.height == 0 {
                height - spec.y
            } else {
                spec.height
            };
            return CaptureSpecification {
                width: populated_width,
                height: populated_height,
                ..spec
            };
        }
        proof {
            assert(specs@.skip(i as int).drop_first() =~= specs@.skip(i as int + 1));
        }
        i = i + 1;
    }
    proof {
        assert(specs@.skip(n as int).len() == 0);
    }
    CaptureSpecification { width, height, ..Default::default() }
}

/// Configuration of the capture layer: a list of capture specifications, the
/// first one to match is used.
#[derive(Debug, PartialEq, Eq)]
pub struct Config {
    /// A list of capture specifications, the first one to match will be used.
    pub capture: Vec<CaptureSpecification>,
}

impl Default for Config {
    /// The empty configuration.
    fn default() -> (r: Config)
        ensures
            r.capture@ == Seq::<CaptureSpecification>::empty(),
    {
        Config { capture: Vec::new() }
    }
}

/// Per-landmark metadata in a persisted map: a difference threshold and an
/// optional override of the template image filename.
#[derive(Debug, Clone, PartialEq, Eq)]
pub struct LandmarkSpecification {
    pub pixel_difference_threshold: u16,
    pub filename: Option<String>,
}

impl Default for LandmarkSpecification {
    /// Zero threshold, no filename override.
    fn default() -> (r: LandmarkSpecification)
        ensures
            r.pixel_difference_threshold == 0,
            r.filename is None,
    {
        LandmarkSpecification { pixel_difference_threshold: 0, filename: None }
    }
}

/// The digits of `n` in decimal, most significant first.
pub open spec fn decimal_chars(n: int) -> Seq<char>
    decreases n,
{
    if n < 10 {
        seq![digit_char(n)]
    } else {
        decimal_chars(n / 10).push(digit_char(n % 10))
    }
}

/// The character for one decimal digit.
pub open spec fn digit_char(d: int) -> char {
    if d == 0 {
        '0'
    } else if d == 1 {
        '1'
    } else if d == 2 {
        '2'
    } else if d == 3 {
        '3'
    } else if d == 4 {
        '4'
    } else if d == 5 {
        '5'
    } else if d == 6 {
        '6'
    } else if d == 7 {
        '7'
    } else if d == 8 {
        '8'
    } else {
        '9'
    }
}

/// Append the decimal form of `n` to the string.
fn push_decimal(out: &mut String, n: usize)
    ensures
        final(out)@ == old(out)@ + decimal_chars(n as int),
    decreases n,
{
    let d = n % 10;
    if n >= 10 {
        push_decimal(out, n / 10);
    }
    let digit: &str = match d {
        0 => "0",
        1 => "1",
        2 => "2",
        3 => "3",
        4 => "4",
        5 => "5",
        6 => "6",
        7 => "7",
        8 => "8",
        _ => "9",
    };
    proof {
        reveal_strlit("0");
        reveal_strlit("1");
        reveal_strlit("2");
        reveal_strlit("3");
        reveal_strlit("4");
        reveal_strlit("5");
        reveal_strlit("6");
        reveal_strlit("7");
        reveal_strlit("8");
        reveal_strlit("9");
        assert(digit@ =~= seq![digit_char(d as int)]);
    }
    out.append(digit);
    proof {
        if n >= 10 {
            assert(out@ =~= old(out)@ + decimal_chars(n as int));
        } else {
            assert(out@ =~= old(out)@ + decimal_chars(n as int));
        }
    }
}

/// The name under which the `i`-th landmark of a map is persisted: its own
/// name when it has one, a stable index-derived name otherwise.
pub open spec fn landmark_name_spec(m: LandmarkMap, i: int) -> Seq<char> {
    if m.landmarks_spec()[i].name_spec() is Some {
        m.landmarks_spec()[i].name_spec().unwrap()@
    } else {
        "landmark_"@ + decimal_chars(i)
    }
}

/// The name under which a landmark of the map is persisted.
fn landmark_name(map: &LandmarkMap, index: usize) -> (r: String)
    requires
        index < map.landmarks_spec().len(),
    ensures
        r@ == landmark_name_spec(*map, index as int),
{
    let lm = map.landmark(&crate::map::LandmarkId(index));
    match lm.name() {
        Some(s) => s,
        None => {
            let mut out: String = "landmark_".to_owned();
            push_decimal(&mut out, index);
            out
        },
    }
}

/// Why a map document cannot be assembled into a map.
#[derive(Debug, Clone, PartialEq, Eq)]
pub enum MapBuildError {
    /// A placement names a landmark that the document does not declare.
    UnknownLandmark(String),
}

/// The index of the last name in the list equal to `target`, or -1 when the
/// list holds no such name. The last declaration wins when a name is
/// declared twice.
pub open spec fn last_index_of_name(names: Seq<String>, target: Seq<char>) -> int
    decreases names.len(),
{
    if names.len() == 0 {
        -1int
    } else if names.last()@ == target {
        names.len() - 1
    } else {
        last_index_of_name(names.drop_last(), target)
    }
}

/// A stored landmark is the given template, renamed.
pub open spec fn named_like(stored: Landmark, given: Landmark, nm: Seq<char>) -> bool {
    &&& stored.pixels_spec() == given.pixels_spec()
    &&& stored.threshold_spec() == given.threshold_spec()
    &&& stored.width_spec() == given.width_spec()
    &&& stored.height_spec() == given.height_spec()
    &&& stored.name_spec() is Some
    &&& stored.name_spec().unwrap()@ == nm
}

/// The index of the last landmark declared under this name, if any.
fn find_name(names: &Vec<String>, target: &String) -> (r: Option<usize>)
    ensures
        match r {
            Some(j) => j as int == last_index_of_name(names@, target@) && j < names@.len(),
            None => last_index_of_name(names@, target@) == -1,
        },
{
    let mut i = names.len();
    proof {
        assert(names@.take(i as int) =~= names@);
    }
    while i > 0
        invariant
            i <= names@.len(),
            last_index_of_name(names@, target@) == last_index_of_name(
                names@.take(i as int),
                target@,
            ),
        decreases i,
    {
        proof {
            let cur = names@.take(i as int);
            assert(cur.last() == names@[i - 1]);
            assert(cur.drop_last() =~= names@.take(i as int - 1));
        }
        if names[i - 1] == *target {
            return Some(i - 1);
        }
        i = i - 1;
    }
    None
}

/// Assemble a map from its structural document and the landmark templates
/// loaded for its declared names, in declaration order. Each template is
/// stored under its declared name; each placement resolves its name to the
/// last landmark declared under it. Fails on the first placement whose name
/// is not declared.
#[verifier::loop_isolation(false)]
pub fn build_map(doc: &MapSpecification, landmarks: Vec<Landmark>) -> (r: Result<
    LandmarkMap,
    MapBuildError,
>)
    requires
        landmarks@.len() == doc.landmarks@.len(),
        forall|i: int| 0 <= i < landmarks@.len() ==> (#[trigger] landmarks@[i]).wf(),
    ensures
        match r {
            Ok(map) => {
                &&& forall|i: int|
                    0 <= i < doc.locations@.len() ==> last_index_of_name(
                        doc.landmarks@,
                        (#[trigger] doc.locations@[i]).0@,
                    ) >= 0
                &&& map.wf()
                &&& (map.name_spec() is Some <==> doc.name is Some)
                &&& (map.name_spec() is Some ==> map.name_spec().unwrap()@
                    == doc.name.unwrap()@)
                &&& map.landmarks_spec().len() == landmarks@.len()
                &&& forall|i: int|
                    0 <= i < landmarks@.len() ==> named_like(
                        #[trigger] map.landmarks_spec()[i],
                        landmarks@[i],
                        doc.landmarks@[i]@,
                    )
                &&& map.locations_spec().len() == doc.locations@.len()
                &&& forall|i: int|
                    0 <= i < doc.locations@.len() ==> {
                        let e = #[trigger] doc.locations@[i];
                        map.locations_spec()[i] == (LandmarkLocation {
                            location: Coordinate { x: e.1@[0], y: e.1@[1] },
                            id: crate::map::LandmarkId(
                                last_index_of_name(doc.landmarks@, e.0@) as usize,
                            ),
                        })
                    }
            },
            Err(e) => exists|i: int|
                0 <= i < doc.locations@.len() && last_index_of_name(
                    doc.landmarks@,
                    (#[trigger] doc.locations@[i]).0@,
                ) == -1 && (forall|j: int|
                    0 <= j < i ==> last_index_of_name(doc.landmarks@, (#[trigger] doc.locations@[j]).0@)
                        >= 0) && (e matches MapBuildError::UnknownLandmark(nm) && nm@
                == doc.locations@[i].0@),
        },
{
    let ghost given = landmarks@;
    let mut map = LandmarkMap::default();
    map.set_name(
        match &doc.name {
            Some(s) => Some(s.clone()),
            None => None,
        },
    );
    let mut rest = landmarks;
    let total = rest.len();
    let mut i: usize = 0;
    while rest.len() > 0
        invariant
            total == given.len(),
            i + rest@.len() == given.len(),
            rest@ == given.skip(i as int),
            map.wf(),
            (map.name_spec() is Some <==> doc.name is Some),
            (map.name_spec() is Some ==> map.name_spec().unwrap()@ == doc.name.unwrap()@),
            map.locations_spec().len() == 0,
            map.landmarks_spec().len() == i,
            forall|j: int|
                0 <= j < i ==> named_like(
                    #[trigger] map.landmarks_spec()[j],
                    given[j],
                    doc.landmarks@[j]@,
                ),
        decreases rest@.len(),
    {
        let mut lm = rest.remove(0);
        proof {
            assert(rest@ =~= given.skip(i as int + 1));
            assert(given.skip(i as int)[0] == given[i as int]);
        }
        lm.set_name(Some(doc.landmarks[i].clone()));
        map.add_landmark(lm);
        i = i + 1;
    }
    let n = doc.locations.len();
    let mut t: usize = 0;
    while t < n
        invariant
            t <= n,
            n == doc.locations@.len(),
            map.wf(),
            (map.name_spec() is Some <==> doc.name is Some),
            (map.name_spec() is Some ==> map.name_spec().unwrap()@ == doc.name.unwrap()@),
            map.landmarks_spec().len() == given.len(),
            forall|j: int|
                0 <= j < given.len() ==> named_like(
                    #[trigger] map.landmarks_spec()[j],
                    given[j],
                    doc.landmarks@[j]@,
                ),
            map.locations_spec().len() == t,
            forall|j: int|
                0 <= j < t ==> last_index_of_name(
                    doc.landmarks@,
                    (#[trigger] doc.locations@[j]).0@,
                ) >= 0,
            forall|j: int|
                0 <= j < t ==> {
                    let e = #[trigger] doc.locations@[j];
                    map.locations_spec()[j] == (LandmarkLocation {
                        location: Coordinate { x: e.1@[0], y: e.1@[1] },
                        id: crate::map::LandmarkId(
                            last_index_of_name(doc.landmarks@, e.0@) as usize,
                        ),
                    })
                },
        decreases n - t,
    {
        let entry = &doc.locations[t];
        match find_name(&doc.landmarks, &entry.0) {
            Some(j) => {
                let coordinate = Coordinate { x: entry.1[0], y: entry.1[1] };
                map.add_fixed(crate::map::LandmarkId(j), coordinate);
            },
            None => {
                return Err(MapBuildError::UnknownLandmark(entry.0.clone()));
            },
        }
        t = t + 1;
    }
    Ok(map)
}

/// The structural form of a persisted map: an optional name, the landmark
/// names in order, and (landmark name, [x, y]) placements in order.
#[derive(Debug, Clone, PartialEq, Eq)]
pub struct MapSpecification {
    pub name: Option<String>,
    pub landmarks: Vec<String>,
    pub locations: Vec<(String, [i32; 2])>,
}

impl MapSpecification {
    /// The structural form of a map, ready to persist: landmark names in
    /// landmark order (unnamed landmarks get index-derived names) and one
    /// (name, [x, y]) entry per placement.
    pub fn from_map(map: &LandmarkMap) -> (r: MapSpecification)
        requires
            map.wf(),
        ensures
            r.name is Some <==> map.name_spec() is Some,
            r.name is Some ==> r.name.unwrap()@ == map.name_spec().unwrap()@,
            r.landmarks@.len() == map.landmarks_spec().len(),
            forall|i: int|
                0 <= i < r.landmarks@.len() ==> (#[trigger] r.landmarks@[i])@ == landmark_name_spec(
                    *map,
                    i,
                ),
            r.locations@.len() == map.locations_spec().len(),
            forall|i: int|
                0 <= i < r.locations@.len() ==> {
                    let loc = #[trigger] map.locations_spec()[i];
                    &&& r.locations@[i].0@ == landmark_name_spec(*map, loc.id.0 as int)
                    &&& r.locations@[i].1@ == seq![loc.location.x, loc.location.y]
                },
    {
        let name = map.name();
        let ids = map.landmark_ids();
        let mut landmarks: Vec<String> = Vec::new();
        let n = ids.len();
        let mut i: usize = 0;
        while i < n
            invariant
                map.wf(),
                i <= n,
                n == map.landmarks_spec().len(),
                landmarks@.len() == i,
                forall|j: int|
                    0 <= j < i ==> (#[trigger] landmarks@[j])@ == landmark_name_spec(*map, j),
            decreases n - i,
        {
            landmarks.push(landmark_name(map, i));
            i = i + 1;
        }
        let all = map.locations();
        let mut locations: Vec<(String, [i32; 2])> = Vec::new();
        let k = all.len();
        let mut j: usize = 0;
        while j < k
            invariant
                map.wf(),
                j <= k,
                k == map.locations_spec().len(),
                all@ == map.locations_spec(),
                locations@.len() == j,
                forall|t: int|
                    0 <= t < j ==> {
                        let loc = #[trigger] map.locations_spec()[t];
                        &&& locations@[t].0@ == landmark_name_spec(*map, loc.id.0 as int)
                        &&& locations@[t].1@ == seq![loc.location.x, loc.location.y]
                    },
            decreases k - j,
        {
            let loc = all[j];
            proof {
                assert(map.locations_spec()[j as int] == loc);
            }
            let nm = landmark_name(map, loc.id.to_index());
            let arr: [i32; 2] = [loc.location.x, loc.location.y];
            proof {
                assert(arr@ =~= seq![loc.location.x, loc.location.y]);
            }
            locations.push((nm, arr));
            j = j + 1;
        }
        MapSpecification { name, landmarks, locations }
    }
}

} // verus!
