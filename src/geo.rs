use vstd::prelude::*;
use vstd::hash_map::{HashMapWithView, StringHashMap};
use crate::scrape;

verus! {

/// A geographic coordinate in nanodegrees (10^-9 degree).
#[derive(Clone, Copy, Debug, PartialEq, Eq, Structural)]
pub struct Point {
    pub lat: i64,
    pub lon: i64,
}

/// An entry of the point table: where a point lies, and whether it lies within
/// the plausibility radius around the reference coordinate of the target region.
#[derive(Clone, Copy, Debug, PartialEq, Eq, Structural)]
pub struct Node {
    pub point: Point,
    pub in_region: bool,
}

/// Failures of the materialization step.
#[derive(Clone, Copy, Debug, PartialEq, Eq, Structural)]
pub enum ResolveError {
    /// A way referenced this point identifier, but no point element defined it.
    MissingPoint(i64),
}

/// The geometry of one street: its name, its date, and the ordered point
/// segments that survived the plausibility filter.
pub struct Pickup {
    pub street: String,
    pub date: String,
    pub segments: Vec<Vec<Point>>,
}

/// The point table: identifier to node.
pub type PointTable = HashMapWithView<i64, Node>;

/// Every identifier of `ids` is defined in `table`.
pub open spec fn all_known(ids: Seq<i64>, table: Map<i64, Node>) -> bool {
    forall|j: int| 0 <= j < ids.len() ==> table.contains_key(#[trigger] ids[j])
}

/// The points that `ids` name, in the order of `ids`.
pub open spec fn resolved(ids: Seq<i64>, table: Map<i64, Node>) -> Seq<Point> {
    ids.map_values(|id: i64| table[id].point)
}

/// Resolves each identifier of `ids` through `table`, keeping the order of `ids`.
pub fn convert_segment_ids(ids: &Vec<i64>, table: &PointTable) -> (r: Result<Vec<Point>, ResolveError>)
    ensures
        match r {
            Ok(points) => all_known(ids@, table@) && points@ == resolved(ids@, table@),
            Err(ResolveError::MissingPoint(id)) => !all_known(ids@, table@) && ids@.contains(id)
                && !table@.contains_key(id),
        },
{
    let mut points: Vec<Point> = Vec::new();
    let mut i: usize = 0;
    while i < ids.len()
        invariant
            i <= ids.len(),
            all_known(ids@.take(i as int), table@),
            points@ == resolved(ids@.take(i as int), table@),
        decreases ids.len() - i,
    {
        let id = ids[i];
        match table.get(&id) {
            Some(node) => {
                points.push(node.point);
                proof {
                    assert(ids@.take(i + 1) =~= ids@.take(i as int).push(id));
                    assert(resolved(ids@.take(i + 1), table@) =~= resolved(ids@.take(i as int), table@).push(node.point));
                }
            },
            None => {
                assert(ids@[i as int] == id);
                return Err(ResolveError::MissingPoint(id));
            },
        }
        i = i + 1;
    }
    assert(ids@.take(ids.len() as int) =~= ids@);
    Ok(points)
}

/// A segment passes the plausibility filter when it has a first point and that
/// point lies within the region.
pub open spec fn plausible(ids: Seq<i64>, table: Map<i64, Node>) -> bool {
    ids.len() > 0 && table.contains_key(ids[0]) && table[ids[0]].in_region
}

/// Whether the segment `ids` passes the plausibility filter. Only its first point
/// is tested.
pub fn valid_segment(ids: &Vec<i64>, table: &PointTable) -> (r: bool)
    ensures
        r == plausible(ids@, table@),
{
    if ids.len() == 0 {
        return false;
    }
    match table.get(&ids[0]) {
        Some(node) => node.in_region,
        None => false,
    }
}

/// Every segment of `segments` has all its identifiers in `table`.
pub open spec fn all_segments_known(segments: Seq<Seq<i64>>, table: Map<i64, Node>) -> bool {
    forall|k: int| 0 <= k < segments.len() ==> all_known(#[trigger] segments[k], table)
}

/// Some segment of `segments` references `id`.
pub open spec fn referenced(segments: Seq<Seq<i64>>, id: i64) -> bool {
    exists|k: int| 0 <= k < segments.len() && (#[trigger] segments[k]).contains(id)
}

/// The plausible segments of `segments`, each resolved through `table`, in their
/// original order.
pub open spec fn kept_segments(segments: Seq<Seq<i64>>, table: Map<i64, Node>) -> Seq<Seq<Point>>
    decreases segments.len(),
{
    if segments.len() == 0 {
        Seq::empty()
    } else {
        let rest = kept_segments(segments.drop_last(), table);
        if plausible(segments.last(), table) {
            rest.push(resolved(segments.last(), table))
        } else {
            rest
        }
    }
}

/// The view of a list of point segments.
pub open spec fn segments_view(segments: Seq<Vec<Point>>) -> Seq<Seq<Point>> {
    segments.map_values(|s: Vec<Point>| s@)
}

/// The view of a list of identifier segments.
pub open spec fn id_segments_view(segments: Seq<Vec<i64>>) -> Seq<Seq<i64>> {
    segments.map_values(|s: Vec<i64>| s@)
}

/// Resolves every segment through `table` and keeps, in order, those whose first
/// point lies within the region. Any identifier missing from `table` aborts the
/// whole conversion, whether or not its segment would have been kept.
pub fn convert_segments(segments: &Vec<Vec<i64>>, table: &PointTable) -> (r: Result<
    Vec<Vec<Point>>,
    ResolveError,
>)
    ensures
        match r {
            Ok(kept) => all_segments_known(id_segments_view(segments@), table@)
                && segments_view(kept@) == kept_segments(id_segments_view(segments@), table@),
            Err(ResolveError::MissingPoint(id)) => !all_segments_known(
                id_segments_view(segments@),
                table@,
            ) && referenced(id_segments_view(segments@), id) && !table@.contains_key(id),
        },
{
    let ghost all = id_segments_view(segments@);
    let mut kept: Vec<Vec<Point>> = Vec::new();
    let mut k: usize = 0;
    while k < segments.len()
        invariant
            k <= segments.len(),
            all == id_segments_view(segments@),
            all_segments_known(all.take(k as int), table@),
            segments_view(kept@) == kept_segments(all.take(k as int), table@),
        decreases segments.len() - k,
    {
        let ids = &segments[k];
        assert(all[k as int] == ids@);
        let points = match convert_segment_ids(ids, table) {
            Ok(points) => points,
            Err(ResolveError::MissingPoint(id)) => {
                assert(!all_segments_known(all, table@));
                assert(referenced(all, id));
                return Err(ResolveError::MissingPoint(id));
            },
        };
        let keep = valid_segment(ids, table);
        proof {
            assert(all.take(k + 1).drop_last() =~= all.take(k as int));
            assert(all.take(k + 1).last() == ids@);
        }
        let ghost before = kept@;
        if keep {
            kept.push(points);
            assert(segments_view(kept@) =~= segments_view(before).push(points@));
        }
        k = k + 1;
    }
    assert(all.take(segments.len() as int) =~= all);
    Ok(kept)
}


/// The view of a tag list: (key, value) pairs of character sequences.
pub open spec fn tags_view(tags: Seq<(String, String)>) -> Seq<(Seq<char>, Seq<char>)> {
    tags.map_values(|t: (String, String)| (t.0@, t.1@))
}

/// The value of the first tag whose key is `key`.
pub open spec fn tag_value(tags: Seq<(Seq<char>, Seq<char>)>, key: Seq<char>) -> Option<Seq<char>>
    decreases tags.len(),
{
    if tags.len() == 0 {
        None
    } else if tags[0].0 == key {
        Some(tags[0].1)
    } else {
        tag_value(tags.drop_first(), key)
    }
}

/// Looks up the value of the first tag whose key is `key`.
pub fn get_value(tags: &Vec<(String, String)>, key: &String) -> (r: Option<String>)
    ensures
        match r {
            Some(v) => tag_value(tags_view(tags@), key@) == Some(v@),
            None => tag_value(tags_view(tags@), key@) is None,
        },
{
    let ghost all = tags_view(tags@);
    let mut i: usize = 0;
    assert(all.skip(0) =~= all);
    while i < tags.len()
        invariant
            i <= tags.len(),
            all == tags_view(tags@),
            tag_value(all, key@) == tag_value(all.skip(i as int), key@),
        decreases tags.len() - i,
    {
        let ghost rest = all.skip(i as int);
        assert(rest[0] == (tags@[i as int].0@, tags@[i as int].1@));
        if tags[i].0 == *key {
            return Some(tags[i].1.clone());
        }
        assert(rest.drop_first() =~= all.skip(i + 1));
        i = i + 1;
    }
    assert(all.skip(i as int).len() == 0);
    None
}

/// What `str::to_uppercase` gives for a character sequence.
pub uninterp spec fn upper_of(s: Seq<char>) -> Seq<char>;

/// Relies on `str::to_uppercase`: the Unicode upper-case mapping of `s`, which
/// depends on the characters of `s` alone.
#[verifier::external_body]
fn to_upper(s: &str) -> (r: String)
    ensures
        r@ == upper_of(s@),
{
    s.to_uppercase()
}

/// Two names denote the same street when their upper-case forms are equal.
pub open spec fn same_name(a: Seq<char>, b: Seq<char>) -> bool {
    upper_of(a) == upper_of(b)
}

/// The street index built from `pickups`: one entry per distinct upper-cased
/// name, in the order in which each name first occurs, each holding the last
/// pickup given under that name.
pub open spec fn registry(pickups: Seq<scrape::Pickup>) -> Seq<scrape::Pickup>
    decreases pickups.len(),
{
    if pickups.len() == 0 {
        Seq::empty()
    } else {
        let prev = registry(pickups.drop_last());
        let p = pickups.last();
        if exists|j: int| 0 <= j < prev.len() && same_name(#[trigger] prev[j].street@, p.street@) {
            let j = choose|j: int| 0 <= j < prev.len() && same_name(#[trigger] prev[j].street@, p.street@);
            prev.update(j, p)
        } else {
            prev.push(p)
        }
    }
}

/// A way with tags `tags` contributes to the street `street` when its `name`
/// tag denotes the same street.
pub open spec fn way_matches(tags: Seq<(Seq<char>, Seq<char>)>, street: Seq<char>) -> bool {
    match tag_value(tags, "name"@) {
        Some(name) => same_name(name, street),
        None => false,
    }
}

/// The accumulator of one street: the street and the identifier lists of the
/// ways that matched it, in the order in which they were seen.
pub struct StreetIds {
    pub pickup: scrape::Pickup,
    pub segments: Vec<Vec<i64>>,
}

/// The state of one resolution: the street index with its accumulators, and the
/// point table.
pub struct Resolver {
    index: StringHashMap<usize>,
    streets: Vec<StreetIds>,
    points: PointTable,
}

impl Resolver {
    /// The registered pickups, in index order.
    pub closed spec fn pickups(&self) -> Seq<scrape::Pickup> {
        self.streets@.map_values(|a: StreetIds| a.pickup)
    }

    /// The identifier segments collected so far for each registered street.
    pub closed spec fn segments(&self) -> Seq<Seq<Seq<i64>>> {
        self.streets@.map_values(|a: StreetIds| id_segments_view(a.segments@))
    }

    /// The point table.
    pub closed spec fn points(&self) -> Map<i64, Node> {
        self.points@
    }

    /// The index maps each upper-cased name to the position of its street, and
    /// each street's upper-cased name to its own position.
    pub closed spec fn wf(&self) -> bool {
        &&& forall|k: Seq<char>| #[trigger]
            self.index@.contains_key(k) ==> self.index@[k] < self.streets.len()
                && upper_of(self.streets@[self.index@[k] as int].pickup.street@) == k
        &&& forall|j: int|
            0 <= j < self.streets.len() ==> self.index@.contains_key(
                upper_of((#[trigger] self.streets@[j]).pickup.street@),
            ) && self.index@[upper_of(self.streets@[j].pickup.street@)] == j
    }
}

impl Resolver {
    /// Builds the street index from `pickups`, with no segments and an empty point
    /// table. A later pickup whose upper-cased name equals an earlier one's takes
    /// that earlier one's place.
    pub fn new(pickups: Vec<scrape::Pickup>) -> (r: Self)
        ensures
            r.wf(),
            r.pickups() == registry(pickups@),
            r.segments().len() == r.pickups().len(),
            forall|i: int| 0 <= i < r.segments().len() ==> (#[trigger] r.segments()[i]).len() == 0,
            r.points() == Map::<i64, Node>::empty(),
    {
        broadcast use vstd::std_specs::hash::group_hash_axioms;
        let mut r = Resolver {
            index: StringHashMap::new(),
            streets: Vec::new(),
            points: HashMapWithView::new(),
        };
        let mut i: usize = 0;
        while i < pickups.len()
            invariant
                i <= pickups.len(),
                r.wf(),
                r.pickups() == registry(pickups@.take(i as int)),
                r.segments().len() == r.pickups().len(),
                forall|j: int| 0 <= j < r.segments().len() ==> (#[trigger] r.segments()[j]).len() == 0,
                r.points() == Map::<i64, Node>::empty(),
            decreases pickups.len() - i,
        {
            let p = scrape::Pickup { street: pickups[i].street.clone(), date: pickups[i].date.clone() };
            assert(p == pickups@[i as int]);
            let key = to_upper(p.street.as_str());
            let ghost prev = r.pickups();
            let ghost segs = r.segments();
            proof {
                assert(pickups@.take(i + 1).drop_last() =~= pickups@.take(i as int));
                assert(pickups@.take(i + 1).last() == p);
            }
            let fresh = StreetIds { pickup: p, segments: Vec::new() };
            assert(id_segments_view(fresh.segments@) =~= Seq::<Seq<i64>>::empty());
            match r.index.get(key.as_str()) {
                Some(j) => {
                    let j = *j;
                    proof {
                        assert(same_name(prev[j as int].street@, p.street@));
                        let c = choose|c: int| 0 <= c < prev.len() && same_name(#[trigger] prev[c].street@, p.street@);
                        assert(r.index@[upper_of(r.streets@[c].pickup.street@)] == c);
                    }
                    r.streets.set(j, fresh);
                    proof {
                        assert(r.pickups() =~= prev.update(j as int, p));
                        assert(r.segments() =~= segs.update(j as int, Seq::empty()));
                    }
                },
                None => {
                    proof {
                        assert forall|c: int| 0 <= c < prev.len() implies !same_name(#[trigger] prev[c].street@, p.street@) by {
                            assert(r.streets@[c].pickup == prev[c]);
                        }
                    }
                    let n = r.streets.len();
                    r.index.insert(key, n);
                    r.streets.push(fresh);
                    proof {
                        assert(r.pickups() =~= prev.push(p));
                        assert(r.segments() =~= segs.push(Seq::empty()));
                    }
                },
            }
            i = i + 1;
        }
        assert(pickups@.take(pickups.len() as int) =~= pickups@);
        r
    }
}

impl Resolver {
    /// Feeds one way of the extract: when its `name` tag denotes a registered
    /// street, `refs` is appended to that street's segments as one new segment.
    /// A way without a `name` tag, or whose name is not registered, changes
    /// nothing.
    pub fn add_way(&mut self, tags: &Vec<(String, String)>, refs: Vec<i64>)
        requires
            old(self).wf(),
        ensures
            final(self).wf(),
            final(self).pickups() == old(self).pickups(),
            final(self).points() == old(self).points(),
            final(self).segments().len() == old(self).segments().len(),
            forall|i: int|
                0 <= i < old(self).segments().len() ==> (#[trigger] final(self).segments()[i]) == (
                if way_matches(tags_view(tags@), old(self).pickups()[i].street@) {
                    old(self).segments()[i].push(refs@)
                } else {
                    old(self).segments()[i]
                }),
    {
        let key = "name".to_owned();
        let name = match get_value(tags, &key) {
            Some(name) => name,
            None => {
                return;
            },
        };
        let upper = to_upper(name.as_str());
        let ghost pickups = self.pickups();
        let ghost segs = self.segments();
        match self.index.get(upper.as_str()) {
            Some(j) => {
                let j = *j;
                let ghost before = self.streets@[j as int];
                self.streets[j].segments.push(refs);
                proof {
                    assert(self.pickups() =~= pickups);
                    assert(id_segments_view(self.streets@[j as int].segments@) =~= id_segments_view(
                        before.segments@,
                    ).push(refs@));
                    assert forall|c: int| 0 <= c < segs.len() implies (#[trigger] self.segments()[c]) == (
                    if way_matches(tags_view(tags@), pickups[c].street@) {
                        segs[c].push(refs@)
                    } else {
                        segs[c]
                    }) by {
                        if c != j {
                            assert(self.index@[upper_of(self.streets@[c].pickup.street@)] == c);
                        }
                    }
                }
            },
            None => {
                proof {
                    assert forall|c: int| 0 <= c < segs.len() implies !way_matches(
                        tags_view(tags@),
                        #[trigger] pickups[c].street@,
                    ) by {
                        assert(self.streets@[c].pickup == pickups[c]);
                    }
                }
            },
        }
    }

    /// Feeds one point of the extract: records `node` under `id`, replacing any
    /// earlier point with that identifier.
    pub fn add_point(&mut self, id: i64, node: Node)
        requires
            old(self).wf(),
        ensures
            final(self).wf(),
            final(self).pickups() == old(self).pickups(),
            final(self).segments() == old(self).segments(),
            final(self).points() == old(self).points().insert(id, node),
    {
        self.points.insert(id, node);
    }
}

/// Every segment collected for every street has all its identifiers in `table`.
pub open spec fn materializable(segments: Seq<Seq<Seq<i64>>>, table: Map<i64, Node>) -> bool {
    forall|i: int| 0 <= i < segments.len() ==> all_segments_known(#[trigger] segments[i], table)
}

/// `out` holds, for each registered pickup in order, its name, its date and its
/// plausible segments resolved through `table`.
pub open spec fn geometries(
    out: Seq<Pickup>,
    pickups: Seq<scrape::Pickup>,
    segments: Seq<Seq<Seq<i64>>>,
    table: Map<i64, Node>,
) -> bool {
    &&& out.len() == pickups.len()
    &&& forall|i: int|
        0 <= i < out.len() ==> (#[trigger] out[i]).street@ == pickups[i].street@ && out[i].date@
            == pickups[i].date@ && segments_view(out[i].segments@) == kept_segments(
            segments[i],
            table,
        )
}

/// Some street's segments reference `id`, and `table` does not define it.
pub open spec fn missing(segments: Seq<Seq<Seq<i64>>>, table: Map<i64, Node>, id: i64) -> bool {
    &&& exists|i: int| 0 <= i < segments.len() && referenced(#[trigger] segments[i], id)
    &&& !table.contains_key(id)
}

impl Resolver {
    /// Materializes the collected segments: one record per registered street, in
    /// index order, including streets left with no segment. An identifier that no
    /// point defined aborts the whole resolution with `MissingPoint`.
    pub fn finish(self) -> (r: Result<Vec<Pickup>, ResolveError>)
        requires
            self.wf(),
        ensures
            match r {
                Ok(out) => materializable(self.segments(), self.points()) && geometries(
                    out@,
                    self.pickups(),
                    self.segments(),
                    self.points(),
                ),
                Err(ResolveError::MissingPoint(id)) => !materializable(self.segments(), self.points())
                    && missing(self.segments(), self.points(), id),
            },
    {
        let mut out: Vec<Pickup> = Vec::new();
        let mut i: usize = 0;
        while i < self.streets.len()
            invariant
                i <= self.streets.len(),
                materializable(self.segments().take(i as int), self.points()),
                geometries(
                    out@,
                    self.pickups().take(i as int),
                    self.segments().take(i as int),
                    self.points(),
                ),
            decreases self.streets.len() - i,
        {
            let acc = &self.streets[i];
            assert(self.segments()[i as int] == id_segments_view(acc.segments@));
            let segments = match convert_segments(&acc.segments, &self.points) {
                Ok(segments) => segments,
                Err(ResolveError::MissingPoint(id)) => {
                    assert(referenced(self.segments()[i as int], id));
                    return Err(ResolveError::MissingPoint(id));
                },
            };
            out.push(
                Pickup {
                    street: acc.pickup.street.clone(),
                    date: acc.pickup.date.clone(),
                    segments: segments,
                },
            );
            proof {
                assert(self.segments().take(i + 1) =~= self.segments().take(i as int).push(
                    self.segments()[i as int],
                ));
                assert(self.pickups().take(i + 1) =~= self.pickups().take(i as int).push(
                    self.pickups()[i as int],
                ));
            }
            i = i + 1;
        }
        assert(self.segments().take(i as int) =~= self.segments());
        assert(self.pickups().take(i as int) =~= self.pickups());
        Ok(out)
    }
}

/// One element of a map extract, as the resolver reads it.
pub enum Element {
    /// A way: its tags, and the identifiers of its points in drawing order.
    Way { tags: Vec<(String, String)>, refs: Vec<i64> },
    /// A point: its identifier and its table entry.
    Node { id: i64, node: Node },
}

/// The segments that the elements give the street `street`: the identifier
/// lists of the ways that match it, in stream order.
pub open spec fn street_segments(elements: Seq<Element>, street: Seq<char>) -> Seq<Seq<i64>>
    decreases elements.len(),
{
    if elements.len() == 0 {
        Seq::empty()
    } else {
        let prev = street_segments(elements.drop_last(), street);
        match elements.last() {
            Element::Way { tags, refs } => if way_matches(tags_view(tags@), street) {
                prev.push(refs@)
            } else {
                prev
            },
            Element::Node { .. } => prev,
        }
    }
}

/// The point table that the elements build; a later point replaces an earlier
/// one with the same identifier.
pub open spec fn point_table(elements: Seq<Element>) -> Map<i64, Node>
    decreases elements.len(),
{
    if elements.len() == 0 {
        Map::empty()
    } else {
        let prev = point_table(elements.drop_last());
        match elements.last() {
            Element::Way { .. } => prev,
            Element::Node { id, node } => prev.insert(id, node),
        }
    }
}

/// The identifier segments collected for each entry of the street index.
pub open spec fn collected(pickups: Seq<scrape::Pickup>, elements: Seq<Element>) -> Seq<Seq<Seq<i64>>> {
    registry(pickups).map_values(|p: scrape::Pickup| street_segments(elements, p.street@))
}

/// Resolves `pickups` against the elements of an extract, read once in order:
/// builds the street index, feeds every element, then materializes. The result
/// holds one record per distinct upper-cased street name; a way that references
/// a point that no element defines aborts with `MissingPoint`. A caller that
/// streams an extract too large to hold feeds a `Resolver` directly instead.
pub fn convert(pickups: Vec<scrape::Pickup>, elements: &Vec<Element>) -> (r: Result<
    Vec<Pickup>,
    ResolveError,
>)
    ensures
        match r {
            Ok(out) => materializable(collected(pickups@, elements@), point_table(elements@))
                && geometries(
                out@,
                registry(pickups@),
                collected(pickups@, elements@),
                point_table(elements@),
            ),
            Err(ResolveError::MissingPoint(id)) => !materializable(
                collected(pickups@, elements@),
                point_table(elements@),
            ) && missing(collected(pickups@, elements@), point_table(elements@), id),
        },
{
    let ghost ps = pickups@;
    let mut resolver = Resolver::new(pickups);
    let mut i: usize = 0;
    proof {
        let none = elements@.take(0);
        assert forall|k: int| 0 <= k < resolver.segments().len() implies #[trigger] resolver.segments()[k]
            == collected(ps, none)[k] by {
            assert(resolver.segments()[k].len() == 0);
            assert(resolver.segments()[k] =~= Seq::<Seq<i64>>::empty());
        }
        assert(resolver.segments() =~= collected(ps, none));
        assert(resolver.points() =~= point_table(none));
    }
    while i < elements.len()
        invariant
            i <= elements.len(),
            resolver.wf(),
            resolver.pickups() == registry(ps),
            resolver.segments() == collected(ps, elements@.take(i as int)),
            resolver.points() == point_table(elements@.take(i as int)),
        decreases elements.len() - i,
    {
        let ghost prev = elements@.take(i as int);
        let ghost next = elements@.take(i + 1);
        assert(next.drop_last() =~= prev);
        assert(next.last() == elements@[i as int]);
        match &elements[i] {
            Element::Way { tags, refs } => {
                let ids = refs.clone();
                assert(ids@ =~= refs@);
                resolver.add_way(tags, ids);
                assert(resolver.segments() =~= collected(ps, next));
            },
            Element::Node { id, node } => {
                resolver.add_point(*id, *node);
                assert(collected(ps, next) =~= collected(ps, prev));
            },
        }
        i = i + 1;
    }
    assert(elements@.take(i as int) =~= elements@);
    resolver.finish()
}

/// No way among the elements matches the street `street`.
pub open spec fn never_named(elements: Seq<Element>, street: Seq<char>) -> bool {
    forall|k: int|
        0 <= k < elements.len() ==> match #[trigger] elements[k] {
            Element::Way { tags, .. } => !way_matches(tags_view(tags@), street),
            Element::Node { .. } => true,
        }
}

/// The segments of a street over two consecutive parts of a stream are those of
/// the first part followed by those of the second: segments keep stream order.
pub proof fn lemma_segments_in_stream_order(e1: Seq<Element>, e2: Seq<Element>, street: Seq<char>)
    ensures
        street_segments(e1 + e2, street) == street_segments(e1, street) + street_segments(e2, street),
    decreases e2.len(),
{
    if e2.len() == 0 {
        assert(e1 + e2 =~= e1);
        assert(street_segments(e1, street) + street_segments(e2, street) =~= street_segments(e1, street));
    } else {
        assert((e1 + e2).drop_last() =~= e1 + e2.drop_last());
        assert((e1 + e2).last() == e2.last());
        lemma_segments_in_stream_order(e1, e2.drop_last(), street);
        let a = street_segments(e1, street);
        let b = street_segments(e2.drop_last(), street);
        match e2.last() {
            Element::Way { tags, refs } => {
                if way_matches(tags_view(tags@), street) {
                    assert(a + b.push(refs@) =~= (a + b).push(refs@));
                }
            },
            Element::Node { .. } => {},
        }
    }
}

/// A street that no way of the stream names collects no segment.
pub proof fn lemma_unnamed_street_has_no_segments(elements: Seq<Element>, street: Seq<char>)
    requires
        never_named(elements, street),
    ensures
        street_segments(elements, street) == Seq::<Seq<i64>>::empty(),
    decreases elements.len(),
{
    if elements.len() > 0 {
        let rest = elements.drop_last();
        assert(never_named(rest, street)) by {
            assert forall|k: int| 0 <= k < rest.len() implies match #[trigger] rest[k] {
                Element::Way { tags, .. } => !way_matches(tags_view(tags@), street),
                Element::Node { .. } => true,
            } by {
                assert(rest[k] == elements[k]);
            }
        }
        lemma_unnamed_street_has_no_segments(rest, street);
        assert(elements.last() == elements[elements.len() - 1]);
    }
}

/// A street that no way of the stream names gets a record with no segment: the
/// record is still there, in index order.
pub proof fn lemma_unnamed_street_record(
    pickups: Seq<scrape::Pickup>,
    elements: Seq<Element>,
    i: int,
    out: Seq<Pickup>,
)
    requires
        0 <= i < registry(pickups).len(),
        never_named(elements, registry(pickups)[i].street@),
        geometries(out, registry(pickups), collected(pickups, elements), point_table(elements)),
    ensures
        i < out.len(),
        out[i].street@ == registry(pickups)[i].street@,
        out[i].segments@.len() == 0,
{
    lemma_unnamed_street_has_no_segments(elements, registry(pickups)[i].street@);
    assert(collected(pickups, elements)[i] == Seq::<Seq<i64>>::empty());
    assert(segments_view(out[i].segments@).len() == out[i].segments@.len());
}

/// Two ways that name the same street, with nothing else in the stream naming
/// it, give that street exactly their two identifier lists, in stream order and
/// each in its own point order.
pub proof fn lemma_two_ways_two_segments(
    pre: Seq<Element>,
    first: Element,
    mid: Seq<Element>,
    second: Element,
    post: Seq<Element>,
    street: Seq<char>,
)
    requires
        never_named(pre, street),
        never_named(mid, street),
        never_named(post, street),
        first matches Element::Way { tags, .. } && way_matches(tags_view(tags@), street),
        second matches Element::Way { tags, .. } && way_matches(tags_view(tags@), street),
    ensures
        street_segments(pre + seq![first] + mid + seq![second] + post, street) == seq![
            first->Way_refs@,
            second->Way_refs@,
        ],
{
    lemma_unnamed_street_has_no_segments(pre, street);
    lemma_unnamed_street_has_no_segments(mid, street);
    lemma_unnamed_street_has_no_segments(post, street);
    let one = seq![first];
    let two = seq![second];
    assert(one.drop_last() =~= Seq::<Element>::empty());
    assert(two.drop_last() =~= Seq::<Element>::empty());
    assert(one.last() == first);
    assert(two.last() == second);
    assert(street_segments(Seq::<Element>::empty(), street) == Seq::<Seq<i64>>::empty());
    assert(street_segments(one, street) =~= seq![first->Way_refs@]);
    assert(street_segments(two, street) =~= seq![second->Way_refs@]);
    lemma_segments_in_stream_order(pre, one, street);
    lemma_segments_in_stream_order(pre + one, mid, street);
    lemma_segments_in_stream_order(pre + one + mid, two, street);
    lemma_segments_in_stream_order(pre + one + mid + two, post, street);
    assert(street_segments(pre + one + mid + two + post, street) =~= seq![
        first->Way_refs@,
        second->Way_refs@,
    ]);
}

/// The plausibility filter tests the first point of each segment only: the kept
/// segments are exactly the plausible ones, in order, each with all its points.
pub proof fn lemma_filter_tests_first_point(segments: Seq<Seq<i64>>, table: Map<i64, Node>)
    ensures
        kept_segments(segments, table) == segments.filter(|s: Seq<i64>| plausible(s, table)).map_values(
            |s: Seq<i64>| resolved(s, table),
        ),
        forall|k: int|
            0 <= k < kept_segments(segments, table).len() ==> (#[trigger] kept_segments(
                segments,
                table,
            )[k]).len() > 0,
    decreases segments.len(),
{
    let pred = |s: Seq<i64>| plausible(s, table);
    let f = |s: Seq<i64>| resolved(s, table);
    reveal_with_fuel(Seq::filter, 1);
    if segments.len() > 0 {
        lemma_filter_tests_first_point(segments.drop_last(), table);
        let rest = segments.drop_last().filter(pred);
        if plausible(segments.last(), table) {
            assert(rest.push(segments.last()).map_values(f) =~= rest.map_values(f).push(
                resolved(segments.last(), table),
            ));
        }
    }
}

/// Whether a way matches a street depends on the street's upper-case form only:
/// names that differ in case alone are matched by the same ways.
pub proof fn lemma_matching_ignores_case(tags: Seq<(Seq<char>, Seq<char>)>, a: Seq<char>, b: Seq<char>)
    requires
        upper_of(a) == upper_of(b),
    ensures
        way_matches(tags, a) == way_matches(tags, b),
{
}

/// The identifiers 0, 1, ..., n - 1.
pub open spec fn positions(n: nat) -> Seq<i64> {
    Seq::new(n, |i: int| i as i64)
}

/// A table that gives each position of `points` the point found there.
pub open spec fn table_of(points: Seq<Point>) -> Map<i64, Node> {
    Map::new(
        |id: i64| 0 <= id < points.len(),
        |id: i64| Node { point: points[id as int], in_region: true },
    )
}

/// Resolving a resolved segment again, through the table that maps each of its
/// positions to the point found there, gives the same points back.
pub proof fn lemma_resolution_round_trip(points: Seq<Point>)
    requires
        points.len() <= i64::MAX,
    ensures
        all_known(positions(points.len()), table_of(points)),
        resolved(positions(points.len()), table_of(points)) == points,
{
    let ids = positions(points.len());
    let table = table_of(points);
    assert forall|j: int| 0 <= j < ids.len() implies table.contains_key(#[trigger] ids[j]) by {
        assert(ids[j] == j as i64);
    }
    assert(resolved(ids, table) =~= points);
}

/// A stream in which a way of a registered street references a point that no
/// element defines cannot be materialized, so the resolution fails.
pub proof fn lemma_missing_point_fails(
    pickups: Seq<scrape::Pickup>,
    elements: Seq<Element>,
    i: int,
    k: int,
    id: i64,
)
    requires
        0 <= i < registry(pickups).len(),
        0 <= k < street_segments(elements, registry(pickups)[i].street@).len(),
        street_segments(elements, registry(pickups)[i].street@)[k].contains(id),
        !point_table(elements).contains_key(id),
    ensures
        !materializable(collected(pickups, elements), point_table(elements)),
        missing(collected(pickups, elements), point_table(elements), id),
{
    let segs = collected(pickups, elements);
    assert(segs[i] == street_segments(elements, registry(pickups)[i].street@));
    let j = choose|j: int| 0 <= j < segs[i][k].len() && segs[i][k][j] == id;
    assert(!all_known(segs[i][k], point_table(elements)));
    assert(!all_segments_known(segs[i], point_table(elements)));
    assert(referenced(segs[i], id));
}

} // verus!
