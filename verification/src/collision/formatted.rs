//! The collision data of a stage as one structure: points by index,
//! collision sets of planes (each plane a list of point indices) and spawn
//! points.
use vstd::prelude::*;
use std::collections::BTreeMap;
use vstd::std_specs::cmp::OrdSpec;
use crate::collision::parts::{ColDetection, PlaneInfo};
use crate::collision::point::CollisionPoint;
use crate::collision::spawn::Spawn;

verus! {

broadcast use {vstd::std_specs::btree::group_btree_axioms, vstd::laws_cmp::group_laws_cmp};

/// A plane: the indices of the collision points that define it.
#[derive(Debug, Clone)]
pub struct Plane(pub Vec<u16>);

/// One set of collision planes, by the direction they collide from.
#[derive(Debug, Clone)]
pub struct CollisionSet {
    pub id: u16,
    pub top: Vec<Plane>,
    pub bottom: Vec<Plane>,
    pub right: Vec<Plane>,
    pub left: Vec<Plane>,
}

/// The collision data of a stage.
#[derive(Debug, Clone)]
pub struct FormattedCollision {
    pub points: BTreeMap<usize, CollisionPoint>,
    pub collision: Vec<CollisionSet>,
    pub spawns: Vec<Spawn>,
}

pub open spec fn planes_view(v: Seq<Plane>) -> Seq<Seq<u16>> {
    v.map_values(|p: Plane| p.0@)
}

/// A collision set as plain values.
pub struct SetView {
    pub id: u16,
    pub top: Seq<Seq<u16>>,
    pub bottom: Seq<Seq<u16>>,
    pub right: Seq<Seq<u16>>,
    pub left: Seq<Seq<u16>>,
}

pub open spec fn set_view(s: CollisionSet) -> SetView {
    SetView {
        id: s.id,
        top: planes_view(s.top@),
        bottom: planes_view(s.bottom@),
        right: planes_view(s.right@),
        left: planes_view(s.left@),
    }
}

pub open spec fn sets_view(v: Seq<CollisionSet>) -> Seq<SetView> {
    v.map_values(|s: CollisionSet| set_view(s))
}

/// The points of the plane that `p` describes.
pub open spec fn plane_of(p: PlaneInfo, con: Seq<u16>) -> Seq<u16> {
    con.subrange(p.start as int, p.start + p.length)
}

/// A plane info whose run lies inside the connections.
pub open spec fn plane_info_ok(p: PlaneInfo, con: Seq<u16>) -> bool {
    &&& p.start + p.length <= 0xFFFF
    &&& p.start + p.length <= con.len()
}

/// The planes of the `size` plane infos from `start` on.
pub open spec fn planes_from(pi: Seq<PlaneInfo>, con: Seq<u16>, start: int, size: int) -> Seq<
    Seq<u16>,
> {
    Seq::new(size as nat, |k: int| plane_of(pi[start + k], con))
}

/// A run of plane infos that lies inside the plane array and whose planes
/// lie inside the connections.
pub open spec fn run_ok(pi: Seq<PlaneInfo>, con: Seq<u16>, start: int, size: int) -> bool {
    &&& start + size <= 0xFFFF
    &&& start + size <= pi.len()
    &&& forall|k: int| start <= k < start + size ==> plane_info_ok(#[trigger] pi[k], con)
}

/// The collision set that detection `d` describes.
pub open spec fn set_from(d: ColDetection, pi: Seq<PlaneInfo>, con: Seq<u16>) -> SetView {
    SetView {
        id: d.id,
        top: planes_from(pi, con, d.top_start as int, d.top_size as int),
        bottom: planes_from(pi, con, d.bottom_start as int, d.bottom_size as int),
        right: planes_from(pi, con, d.right_start as int, d.right_size as int),
        left: planes_from(pi, con, d.left_start as int, d.left_size as int),
    }
}

/// A detection all of whose runs are in range.
pub open spec fn detection_ok(d: ColDetection, pi: Seq<PlaneInfo>, con: Seq<u16>) -> bool {
    &&& run_ok(pi, con, d.top_start as int, d.top_size as int)
    &&& run_ok(pi, con, d.bottom_start as int, d.bottom_size as int)
    &&& run_ok(pi, con, d.right_start as int, d.right_size as int)
    &&& run_ok(pi, con, d.left_start as int, d.left_size as int)
}

/// The points of a list, keyed by their position.
pub open spec fn points_by_index(p: Seq<CollisionPoint>) -> Map<usize, CollisionPoint> {
    Map::new(|i: usize| i < p.len(), |i: usize| p[i as int])
}

fn copy_u16s(s: &[u16]) -> (r: Vec<u16>)
    ensures
        r@ == s@,
{
    let mut v: Vec<u16> = Vec::new();
    let mut i: usize = 0;
    while i < s.len()
        invariant
            i <= s@.len(),
            v@ == s@.subrange(0, i as int),
        decreases s@.len() - i,
    {
        v.push(s[i]);
        i = i + 1;
        assert(v@ =~= s@.subrange(0, i as int));
    }
    assert(s@.subrange(0, i as int) =~= s@);
    v
}

/// The planes that the plane infos describe.
fn condense_to_planes(pi: &[PlaneInfo], con: &[u16]) -> (r: Vec<Plane>)
    requires
        forall|k: int| 0 <= k < pi@.len() ==> plane_info_ok(#[trigger] pi@[k], con@),
    ensures
        planes_view(r@) == planes_from(pi@, con@, 0, pi@.len() as int),
{
    let mut out: Vec<Plane> = Vec::new();
    let mut i: usize = 0;
    while i < pi.len()
        invariant
            i <= pi@.len(),
            forall|k: int| 0 <= k < pi@.len() ==> plane_info_ok(#[trigger] pi@[k], con@),
            planes_view(out@) == planes_from(pi@, con@, 0, i as int),
        decreases pi@.len() - i,
    {
        let p = pi[i];
        let start = p.start;
        let length = p.length;
        let end = (start + length) as usize;
        let plane = copy_u16s(&con[start as usize..end]);
        assert(plane@ == plane_of(pi@[i as int], con@));
        let ghost prev = out@;
        out.push(Plane(plane));
        assert(planes_view(out@) =~= planes_view(prev).push(plane_of(pi@[i as int], con@)));
        i = i + 1;
        assert(planes_view(out@) =~= planes_from(pi@, con@, 0, i as int));
    }
    out
}

fn condense_run(pi: &[PlaneInfo], con: &[u16], start: u16, size: u16) -> (r: Vec<Plane>)
    requires
        run_ok(pi@, con@, start as int, size as int),
    ensures
        planes_view(r@) == planes_from(pi@, con@, start as int, size as int),
{
    let end = (start + size) as usize;
    let run = &pi[start as usize..end];
    assert forall|k: int| 0 <= k < run@.len() implies plane_info_ok(#[trigger] run@[k], con@) by {
        assert(run@[k] == pi@[start + k]);
    }
    let r = condense_to_planes(run, con);
    assert(planes_from(run@, con@, 0, run@.len() as int) =~= planes_from(
        pi@,
        con@,
        start as int,
        size as int,
    ));
    r
}

impl FormattedCollision {
    /// Puts the parts read from a file together: points are keyed by their
    /// position, and each detection becomes a collision set of the planes
    /// that its runs of plane infos describe.
    pub fn from_parts(
        p: Vec<CollisionPoint>,
        s: Vec<Spawn>,
        pi: &[PlaneInfo],
        connections: &[u16],
        dirs: &[ColDetection],
    ) -> (r: Self)
        requires
            forall|j: int| 0 <= j < dirs@.len() ==> detection_ok(#[trigger] dirs@[j], pi@, connections@),
        ensures
            r.points@ == points_by_index(p@),
            r.spawns@ == s@,
            sets_view(r.collision@) == dirs@.map_values(|d: ColDetection| set_from(d, pi@, connections@)),
    {
        let mut col_sets: Vec<CollisionSet> = Vec::new();
        let mut j: usize = 0;
        while j < dirs.len()
            invariant
                j <= dirs@.len(),
                forall|j: int| 0 <= j < dirs@.len() ==> detection_ok(#[trigger] dirs@[j], pi@, connections@),
                sets_view(col_sets@) == dirs@.subrange(0, j as int).map_values(|d: ColDetection| set_from(d, pi@, connections@)),
            decreases dirs@.len() - j,
        {
            let dir = &dirs[j];
            let id = dir.get_id();
            let (t_s, t_l) = dir.get_top();
            let top = condense_run(pi, connections, t_s, t_l);
            let (b_s, b_l) = dir.get_bottom();
            let bottom = condense_run(pi, connections, b_s, b_l);
            let (r_s, r_l) = dir.get_right();
            let right = condense_run(pi, connections, r_s, r_l);
            let (l_s, l_l) = dir.get_left();
            let left = condense_run(pi, connections, l_s, l_l);
            let set = CollisionSet { id, top, bottom, right, left };
            assert(set_view(set) == set_from(dirs@[j as int], pi@, connections@));
            let ghost prev = col_sets@;
            col_sets.push(set);
            assert(sets_view(col_sets@) =~= sets_view(prev).push(set_view(set)));
            j = j + 1;
            assert(sets_view(col_sets@) =~= dirs@.subrange(0, j as int).map_values(|d: ColDetection| set_from(d, pi@, connections@)));
        }
        assert(dirs@.subrange(0, j as int) =~= dirs@);
        let mut points: BTreeMap<usize, CollisionPoint> = BTreeMap::new();
        let mut i: usize = 0;
        while i < p.len()
            invariant
                i <= p@.len(),
                points@ == points_by_index(p@.subrange(0, i as int)),
            decreases p@.len() - i,
        {
            points.insert(i, p[i]);
            i = i + 1;
            assert(points@ =~= points_by_index(p@.subrange(0, i as int)));
        }
        assert(p@.subrange(0, i as int) =~= p@);
        FormattedCollision { points, spawns: s, collision: col_sets }
    }
}

/// `points` are the values of `m` in increasing order of their keys.
pub open spec fn in_key_order(points: Seq<CollisionPoint>, m: Map<usize, CollisionPoint>) -> bool {
    exists|ks: Seq<usize>|
        {
            &&& forall|i: int, j: int| 0 <= i < j < ks.len() ==> ks[i] < ks[j]
            &&& ks.to_set() == m.dom()
            &&& points == ks.map_values(|k: usize| m[k])
        }
}

/// The plane infos and connections after appending `planes` to `pi` and
/// `con`: each plane's points go to the end of the connections, and its info
/// records where (both as `u16`s).
pub open spec fn push_planes(pi: Seq<PlaneInfo>, con: Seq<u16>, planes: Seq<Seq<u16>>) -> (
    Seq<PlaneInfo>,
    Seq<u16>,
)
    decreases planes.len(),
{
    if planes.len() == 0 {
        (pi, con)
    } else {
        let prev = push_planes(pi, con, planes.drop_last());
        (
            prev.0.push(
                PlaneInfo { start: prev.1.len() as u16, length: planes.last().len() as u16 },
            ),
            prev.1 + planes.last(),
        )
    }
}

/// The file's plane infos, connections and collision detections.
pub struct PartsView {
    pub planes: Seq<PlaneInfo>,
    pub connections: Seq<u16>,
    pub detections: Seq<ColDetection>,
}

/// The parts after appending one collision set: its top, bottom, right and
/// left planes in turn, then its detection with the start and count of each
/// run.
pub open spec fn push_set(acc: PartsView, s: SetView) -> PartsView {
    let a = push_planes(acc.planes, acc.connections, s.top);
    let b = push_planes(a.0, a.1, s.bottom);
    let c = push_planes(b.0, b.1, s.right);
    let d = push_planes(c.0, c.1, s.left);
    PartsView {
        planes: d.0,
        connections: d.1,
        detections: acc.detections.push(
            ColDetection {
                id: s.id,
                top_start: acc.planes.len() as u16,
                top_size: s.top.len() as u16,
                bottom_start: a.0.len() as u16,
                bottom_size: s.bottom.len() as u16,
                right_start: b.0.len() as u16,
                right_size: s.right.len() as u16,
                left_start: c.0.len() as u16,
                left_size: s.left.len() as u16,
            },
        ),
    }
}

/// The file parts of the collision sets, appended in order.
pub open spec fn parts_of(sets: Seq<SetView>) -> PartsView
    decreases sets.len(),
{
    if sets.len() == 0 {
        PartsView { planes: Seq::empty(), connections: Seq::empty(), detections: Seq::empty() }
    } else {
        push_set(parts_of(sets.drop_last()), sets.last())
    }
}

pub open spec fn set_plane_count(s: SetView) -> int {
    (s.top.len() + s.bottom.len() + s.right.len() + s.left.len()) as int
}

/// The number of planes of all the sets.
pub open spec fn total_planes(sets: Seq<SetView>) -> int
    decreases sets.len(),
{
    if sets.len() == 0 {
        0
    } else {
        total_planes(sets.drop_last()) + set_plane_count(sets.last())
    }
}

pub proof fn lemma_push_planes_len(pi: Seq<PlaneInfo>, con: Seq<u16>, planes: Seq<Seq<u16>>)
    ensures
        push_planes(pi, con, planes).0.len() == pi.len() + planes.len(),
    decreases planes.len(),
{
    if planes.len() > 0 {
        lemma_push_planes_len(pi, con, planes.drop_last());
    }
}

pub proof fn lemma_parts_len(sets: Seq<SetView>)
    ensures
        parts_of(sets).planes.len() == total_planes(sets),
        parts_of(sets).detections.len() == sets.len(),
    decreases sets.len(),
{
    if sets.len() > 0 {
        let acc = parts_of(sets.drop_last());
        let s = sets.last();
        lemma_parts_len(sets.drop_last());
        let a = push_planes(acc.planes, acc.connections, s.top);
        let b = push_planes(a.0, a.1, s.bottom);
        let c = push_planes(b.0, b.1, s.right);
        lemma_push_planes_len(acc.planes, acc.connections, s.top);
        lemma_push_planes_len(a.0, a.1, s.bottom);
        lemma_push_planes_len(b.0, b.1, s.right);
        lemma_push_planes_len(c.0, c.1, s.left);
    }
}

pub proof fn lemma_total_planes_prefix(sets: Seq<SetView>, j: int)
    requires
        0 <= j <= sets.len(),
    ensures
        0 <= total_planes(sets.subrange(0, j)) <= total_planes(sets),
    decreases sets.len() - j,
{
    if j < sets.len() {
        lemma_total_planes_prefix(sets, j + 1);
        assert(sets.subrange(0, j + 1).drop_last() =~= sets.subrange(0, j));
    } else {
        assert(sets.subrange(0, j) =~= sets);
    }
    lemma_total_planes_nonneg(sets.subrange(0, j));
}

pub proof fn lemma_total_planes_nonneg(sets: Seq<SetView>)
    ensures
        total_planes(sets) >= 0,
    decreases sets.len(),
{
    if sets.len() > 0 {
        lemma_total_planes_nonneg(sets.drop_last());
    }
}

/// Appends the planes to the plane infos and connections.
fn push_plane_run(
    plane_info: &mut Vec<PlaneInfo>,
    point_connections: &mut Vec<u16>,
    planes: &Vec<Plane>,
)
    ensures
        (final(plane_info)@, final(point_connections)@) == push_planes(
            old(plane_info)@,
            old(point_connections)@,
            planes_view(planes@),
        ),
{
    let ghost pi0 = plane_info@;
    let ghost con0 = point_connections@;
    let mut k: usize = 0;
    while k < planes.len()
        invariant
            k <= planes@.len(),
            (plane_info@, point_connections@) == push_planes(
                pi0,
                con0,
                planes_view(planes@).subrange(0, k as int),
            ),
        decreases planes@.len() - k,
    {
        let plane_vec = &planes[k].0;
        let start = point_connections.len() as u16;
        let len = plane_vec.len() as u16;
        plane_info.push(PlaneInfo::new(start, len));
        let mut m: usize = 0;
        let ghost before = point_connections@;
        while m < plane_vec.len()
            invariant
                m <= plane_vec@.len(),
                point_connections@ == before + plane_vec@.subrange(0, m as int),
            decreases plane_vec@.len() - m,
        {
            point_connections.push(plane_vec[m]);
            m = m + 1;
            assert(point_connections@ =~= before + plane_vec@.subrange(0, m as int));
        }
        assert(plane_vec@.subrange(0, m as int) =~= plane_vec@);
        k = k + 1;
        assert(planes_view(planes@).subrange(0, k as int).drop_last() =~= planes_view(
            planes@,
        ).subrange(0, k - 1));
    }
    assert(planes_view(planes@).subrange(0, k as int) =~= planes_view(planes@));
}

/// The values of the map in increasing order of their keys.
fn values_in_key_order(points: &BTreeMap<usize, CollisionPoint>) -> (r: Vec<CollisionPoint>)
    ensures
        in_key_order(r@, points@),
{
        let mut col_points: Vec<CollisionPoint> = Vec::new();
        proof {
            assert(vstd::laws_cmp::obeys_cmp::<usize>());
            assert(vstd::std_specs::btree::key_obeys_cmp_spec::<usize>());
        }
        let vals = points.values();
        let ghost vals0 = vals;
        for v in it: vals
            invariant
                col_points@ == it.seq().subrange(0, it.index()).map_values(|r: &CollisionPoint| *r),
        {
            col_points.push(*v);
            assert(col_points@ =~= it.seq().subrange(0, it.index() + 1).map_values(
                |r: &CollisionPoint| *r,
            ));
        }
        proof {
            let ks = choose|key_seq: Seq<usize>|
                {
                    &&& vstd::std_specs::btree::increasing_seq(key_seq)
                    &&& key_seq.to_set() == (*points)@.dom()
                    &&& key_seq.no_duplicates()
                    &&& vstd::std_specs::iter::IteratorSpec::remaining(&vals0) == key_seq.map(
                        |i: int, k: usize| &(*points)@[k],
                    )
                };
            assert(col_points@ =~= ks.map_values(|k: usize| (*points)@[k]));
            assert forall|i: int, j: int| 0 <= i < j < ks.len() implies ks[i] < ks[j] by {
                assert(ks[i].cmp_spec(&ks[j]) is Less);
            }
        }
        col_points
}

impl FormattedCollision {
    /// Breaks the collision data into the parts of its file layout: the
    /// points in key order, the spawns, the plane infos, the connections and
    /// one detection per collision set.
    pub fn to_parts(&self) -> (r: (Vec<CollisionPoint>, &[Spawn], Vec<PlaneInfo>, Vec<u16>, Vec<
        ColDetection,
    >))
        requires
            total_planes(sets_view(self.collision@)) <= 0xFFFF,
        ensures
            in_key_order(r.0@, self.points@),
            r.1@ == self.spawns@,
            r.2@ == parts_of(sets_view(self.collision@)).planes,
            r.3@ == parts_of(sets_view(self.collision@)).connections,
            r.4@ == parts_of(sets_view(self.collision@)).detections,
    {
        let col_points = values_in_key_order(&self.points);
        let spawn_points = self.spawns.as_slice();
        let ghost sets = sets_view(self.collision@);
        let mut col_dects: Vec<ColDetection> = Vec::new();
        let mut point_connections: Vec<u16> = Vec::new();
        let mut plane_info: Vec<PlaneInfo> = Vec::new();
        let mut j: usize = 0;
        while j < self.collision.len()
            invariant
                j <= self.collision@.len(),
                sets == sets_view(self.collision@),
                total_planes(sets) <= 0xFFFF,
                plane_info@ == parts_of(sets.subrange(0, j as int)).planes,
                point_connections@ == parts_of(sets.subrange(0, j as int)).connections,
                col_dects@ == parts_of(sets.subrange(0, j as int)).detections,
            decreases self.collision@.len() - j,
        {
            let set = &self.collision[j];
            proof {
                lemma_parts_len(sets.subrange(0, j + 1));
                lemma_total_planes_prefix(sets, j + 1);
                assert(sets.subrange(0, j + 1).drop_last() =~= sets.subrange(0, j as int));
                assert(sets.subrange(0, j + 1).last() == set_view(*set));
                lemma_push_planes_len(plane_info@, point_connections@, set_view(*set).top);
            }
            let ghost acc = parts_of(sets.subrange(0, j as int));
            let ghost sv = set_view(*set);
            let ghost a = push_planes(acc.planes, acc.connections, sv.top);
            let ghost b = push_planes(a.0, a.1, sv.bottom);
            let ghost c = push_planes(b.0, b.1, sv.right);
            let ghost d = push_planes(c.0, c.1, sv.left);
            proof {
                lemma_push_planes_len(acc.planes, acc.connections, sv.top);
                lemma_push_planes_len(a.0, a.1, sv.bottom);
                lemma_push_planes_len(b.0, b.1, sv.right);
                lemma_push_planes_len(c.0, c.1, sv.left);
                assert(parts_of(sets.subrange(0, j + 1)) == push_set(acc, sv));
            }
            let mut detect = [0u16; 9];
            detect[0] = set.id;
            // the top collision planes
            detect[1] = plane_info.len() as u16;
            push_plane_run(&mut plane_info, &mut point_connections, &set.top);
            detect[2] = plane_info.len() as u16 - detect[1];
            // the bottom collision planes
            detect[3] = plane_info.len() as u16;
            push_plane_run(&mut plane_info, &mut point_connections, &set.bottom);
            detect[4] = plane_info.len() as u16 - detect[3];
            // the right collision planes
            detect[5] = plane_info.len() as u16;
            push_plane_run(&mut plane_info, &mut point_connections, &set.right);
            detect[6] = plane_info.len() as u16 - detect[5];
            // the left collision planes
            detect[7] = plane_info.len() as u16;
            push_plane_run(&mut plane_info, &mut point_connections, &set.left);
            detect[8] = plane_info.len() as u16 - detect[7];
            let output = ColDetection::from_raw(&detect);
            col_dects.push(output);
            j = j + 1;
            assert(col_dects@ =~= parts_of(sets.subrange(0, j as int)).detections);
        }
        assert(sets.subrange(0, j as int) =~= sets);
        (col_points, spawn_points, plane_info, point_connections, col_dects)
    }
}

} // verus!
