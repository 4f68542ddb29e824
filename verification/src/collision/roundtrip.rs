//! Laws relating collision data to its file parts.
use vstd::prelude::*;
use crate::collision::formatted::{
    detection_ok, in_key_order, lemma_push_planes_len, parts_of, planes_from, plane_info_ok,
    plane_of, points_by_index, push_planes, push_set, run_ok, set_from, total_planes, PartsView,
    SetView,
};
use crate::collision::parts::{ColDetection, PlaneInfo};
use crate::collision::point::CollisionPoint;

verus! {

/// The number of point indices of all the planes.
pub open spec fn conn_count(planes: Seq<Seq<u16>>) -> int
    decreases planes.len(),
{
    if planes.len() == 0 {
        0
    } else {
        conn_count(planes.drop_last()) + planes.last().len()
    }
}

pub open spec fn set_conn_count(s: SetView) -> int {
    conn_count(s.top) + conn_count(s.bottom) + conn_count(s.right) + conn_count(s.left)
}

/// The number of point indices of all the planes of all the sets.
pub open spec fn total_connections(sets: Seq<SetView>) -> int
    decreases sets.len(),
{
    if sets.len() == 0 {
        0
    } else {
        total_connections(sets.drop_last()) + set_conn_count(sets.last())
    }
}

proof fn lemma_conn_count_prefix(planes: Seq<Seq<u16>>, a: int, b: int)
    requires
        0 <= a <= b <= planes.len(),
    ensures
        0 <= conn_count(planes.subrange(0, a)) <= conn_count(planes.subrange(0, b)),
    decreases b - a,
{
    if a < b {
        lemma_conn_count_prefix(planes, a, b - 1);
        assert(planes.subrange(0, b).drop_last() =~= planes.subrange(0, b - 1));
    } else {
        lemma_conn_count_nonneg(planes.subrange(0, a));
    }
}

pub(crate) proof fn lemma_conn_count_nonneg(planes: Seq<Seq<u16>>)
    ensures
        conn_count(planes) >= 0,
    decreases planes.len(),
{
    if planes.len() > 0 {
        lemma_conn_count_nonneg(planes.drop_last());
    }
}

pub(crate) proof fn lemma_push_planes_step(pi: Seq<PlaneInfo>, con: Seq<u16>, planes: Seq<Seq<u16>>)
    requires
        planes.len() > 0,
    ensures
        push_planes(pi, con, planes) == ({
            let prev = push_planes(pi, con, planes.drop_last());
            (
                prev.0.push(
                    PlaneInfo { start: prev.1.len() as u16, length: planes.last().len() as u16 },
                ),
                prev.1 + planes.last(),
            )
        }),
{
}

/// `push_planes` keeps what was there and adds one info per plane and the
/// planes' points.
pub(crate) proof fn lemma_push_planes_prefix(pi: Seq<PlaneInfo>, con: Seq<u16>, planes: Seq<Seq<u16>>)
    ensures
        push_planes(pi, con, planes).0.len() == pi.len() + planes.len(),
        push_planes(pi, con, planes).1.len() == con.len() + conn_count(planes),
        push_planes(pi, con, planes).0.subrange(0, pi.len() as int) == pi,
        push_planes(pi, con, planes).1.subrange(0, con.len() as int) == con,
    decreases planes.len(),
{
    lemma_conn_count_nonneg(planes);
    if planes.len() > 0 {
        let dl = planes.drop_last();
        lemma_push_planes_prefix(pi, con, dl);
        lemma_push_planes_step(pi, con, planes);
        let prev = push_planes(pi, con, dl);
        let r = push_planes(pi, con, planes);
        lemma_conn_count_nonneg(dl);
        assert(r.0.subrange(0, pi.len() as int) =~= prev.0.subrange(0, pi.len() as int));
        assert(r.1.subrange(0, con.len() as int) =~= prev.1.subrange(0, con.len() as int));
    } else {
        assert(pi.subrange(0, pi.len() as int) =~= pi);
        assert(con.subrange(0, con.len() as int) =~= con);
    }
}

/// The info that `push_planes` records for each plane.
proof fn lemma_push_planes_info(pi: Seq<PlaneInfo>, con: Seq<u16>, planes: Seq<Seq<u16>>, k: int)
    requires
        0 <= k < planes.len(),
    ensures
        push_planes(pi, con, planes).0[pi.len() + k] == (PlaneInfo {
            start: (con.len() + conn_count(planes.subrange(0, k))) as u16,
            length: planes[k].len() as u16,
        }),
    decreases planes.len(),
{
    let n = planes.len() - 1;
    let dl = planes.drop_last();
    lemma_push_planes_step(pi, con, planes);
    lemma_push_planes_prefix(pi, con, dl);
    if k < n {
        lemma_push_planes_info(pi, con, dl, k);
        assert(dl.subrange(0, k) =~= planes.subrange(0, k));
    } else {
        assert(planes.subrange(0, k) =~= dl);
    }
}

/// Where `push_planes` puts each plane's points.
proof fn lemma_push_planes_points(
    pi: Seq<PlaneInfo>,
    con: Seq<u16>,
    planes: Seq<Seq<u16>>,
    k: int,
)
    requires
        0 <= k < planes.len(),
    ensures
        ({
            let s = con.len() + conn_count(planes.subrange(0, k));
            &&& s + planes[k].len() <= con.len() + conn_count(planes)
            &&& push_planes(pi, con, planes).1.subrange(s, s + planes[k].len()) == planes[k]
        }),
    decreases planes.len(),
{
    let n = planes.len() - 1;
    let dl = planes.drop_last();
    lemma_push_planes_step(pi, con, planes);
    lemma_push_planes_prefix(pi, con, dl);
    let prev = push_planes(pi, con, dl);
    let s = con.len() + conn_count(planes.subrange(0, k));
    lemma_conn_count_nonneg(planes.subrange(0, k));
    if k < n {
        lemma_push_planes_points(pi, con, dl, k);
        assert(dl.subrange(0, k) =~= planes.subrange(0, k));
        assert(push_planes(pi, con, planes).1.subrange(s, s + planes[k].len()) =~= prev.1.subrange(
            s,
            s + planes[k].len(),
        ));
    } else {
        assert(planes.subrange(0, k) =~= dl);
        assert(push_planes(pi, con, planes).1.subrange(s, s + planes[k].len()) =~= planes[k]);
    }
}

/// `a` is `b` followed by more.
pub open spec fn extends<T>(a: Seq<T>, b: Seq<T>) -> bool {
    b.len() <= a.len() && a.subrange(0, b.len() as int) == b
}

proof fn lemma_extends_trans<T>(a: Seq<T>, b: Seq<T>, c: Seq<T>)
    requires
        extends(a, b),
        extends(b, c),
    ensures
        extends(a, c),
{
    assert(a.subrange(0, c.len() as int) =~= b.subrange(0, c.len() as int));
}

proof fn lemma_extends_index<T>(a: Seq<T>, b: Seq<T>, i: int)
    requires
        extends(a, b),
        0 <= i < b.len(),
    ensures
        a[i] == b[i],
{
    assert(a.subrange(0, b.len() as int)[i] == a[i]);
}

proof fn lemma_extends_subrange<T>(a: Seq<T>, b: Seq<T>, i: int, j: int)
    requires
        extends(a, b),
        0 <= i <= j <= b.len(),
    ensures
        a.subrange(i, j) == b.subrange(i, j),
{
    assert forall|k: int| 0 <= k < j - i implies a.subrange(i, j)[k] == b.subrange(i, j)[k] by {
        lemma_extends_index(a, b, i + k);
    }
    assert(a.subrange(i, j) =~= b.subrange(i, j));
}

/// A run of infos recorded by `push_planes` describes the planes it pushed,
/// in any longer plane array and connections.
proof fn lemma_run_roundtrip(
    pi: Seq<PlaneInfo>,
    con: Seq<u16>,
    planes: Seq<Seq<u16>>,
    all_pi: Seq<PlaneInfo>,
    all_con: Seq<u16>,
)
    requires
        extends(all_pi, push_planes(pi, con, planes).0),
        extends(all_con, push_planes(pi, con, planes).1),
        pi.len() + planes.len() <= 0xFFFF,
        con.len() + conn_count(planes) <= 0xFFFF,
    ensures
        run_ok(all_pi, all_con, pi.len() as int, planes.len() as int),
        planes_from(all_pi, all_con, pi.len() as int, planes.len() as int) == planes,
{
    let r = push_planes(pi, con, planes);
    lemma_push_planes_prefix(pi, con, planes);
    assert forall|k: int|
        pi.len() <= k < pi.len() + planes.len() implies plane_info_ok(
        #[trigger] all_pi[k],
        all_con,
    ) && all_pi[k] == r.0[k] && plane_of(all_pi[k], all_con) == planes[k - pi.len()] by {
        let i = k - pi.len();
        lemma_extends_index(all_pi, r.0, k);
        lemma_push_planes_info(pi, con, planes, i);
        lemma_push_planes_points(pi, con, planes, i);
        lemma_conn_count_nonneg(planes.subrange(0, i));
        let s = con.len() + conn_count(planes.subrange(0, i));
        lemma_extends_subrange(all_con, r.1, s, s + planes[i].len());
    }
    assert forall|k: int| 0 <= k < planes.len() implies #[trigger] planes_from(
        all_pi,
        all_con,
        pi.len() as int,
        planes.len() as int,
    )[k] == planes[k] by {
        assert(pi.len() <= pi.len() + k < pi.len() + planes.len());
        assert(plane_info_ok(all_pi[pi.len() + k], all_con));
    }
    assert(planes_from(all_pi, all_con, pi.len() as int, planes.len() as int) =~= planes);
}

/// A detection whose runs and planes lie in the given plane infos and
/// connections describes the same set in any longer ones.
proof fn lemma_set_from_extends(
    d: ColDetection,
    pi: Seq<PlaneInfo>,
    con: Seq<u16>,
    all_pi: Seq<PlaneInfo>,
    all_con: Seq<u16>,
)
    requires
        detection_ok(d, pi, con),
        extends(all_pi, pi),
        extends(all_con, con),
    ensures
        detection_ok(d, all_pi, all_con),
        set_from(d, all_pi, all_con) == set_from(d, pi, con),
{
    assert forall|start: int, size: int|
        0 <= start && 0 <= size && run_ok(pi, con, start, size) implies run_ok(
        all_pi,
        all_con,
        start,
        size,
    ) && planes_from(
        all_pi,
        all_con,
        start,
        size,
    ) == planes_from(pi, con, start, size) by {
        assert forall|k: int| start <= k < start + size implies plane_info_ok(
            #[trigger] all_pi[k],
            all_con,
        ) && all_pi[k] == pi[k] && plane_of(all_pi[k], all_con) == plane_of(pi[k], con) by {
            assert(plane_info_ok(pi[k], con));
            lemma_extends_index(all_pi, pi, k);
            lemma_extends_subrange(
                all_con,
                con,
                pi[k].start as int,
                pi[k].start + pi[k].length,
            );
        }
        assert forall|k: int| 0 <= k < size implies #[trigger] planes_from(
            all_pi,
            all_con,
            start,
            size,
        )[k] == planes_from(pi, con, start, size)[k] by {
            assert(start <= start + k < start + size);
            assert(plane_info_ok(all_pi[start + k], all_con));
        }
        assert(planes_from(all_pi, all_con, start, size) =~= planes_from(pi, con, start, size));
    }
}

pub(crate) proof fn lemma_totals(sets: Seq<SetView>)
    ensures
        parts_of(sets).planes.len() == total_planes(sets),
        parts_of(sets).connections.len() == total_connections(sets),
        parts_of(sets).detections.len() == sets.len(),
        total_planes(sets) >= 0,
        total_connections(sets) >= 0,
    decreases sets.len(),
{
    if sets.len() > 0 {
        let dl = sets.drop_last();
        let s = sets.last();
        lemma_totals(dl);
        let acc = parts_of(dl);
        let a = push_planes(acc.planes, acc.connections, s.top);
        let b = push_planes(a.0, a.1, s.bottom);
        let c = push_planes(b.0, b.1, s.right);
        lemma_push_planes_prefix(acc.planes, acc.connections, s.top);
        lemma_push_planes_prefix(a.0, a.1, s.bottom);
        lemma_push_planes_prefix(b.0, b.1, s.right);
        lemma_push_planes_prefix(c.0, c.1, s.left);
        lemma_conn_count_nonneg(s.top);
        lemma_conn_count_nonneg(s.bottom);
        lemma_conn_count_nonneg(s.right);
        lemma_conn_count_nonneg(s.left);
    }
}

/// The detection that `push_set` records describes the set it pushed, in
/// any longer plane array and connections.
proof fn lemma_push_set_roundtrip(
    acc: PartsView,
    s: SetView,
    all_pi: Seq<PlaneInfo>,
    all_con: Seq<u16>,
)
    requires
        extends(all_pi, push_set(acc, s).planes),
        extends(all_con, push_set(acc, s).connections),
        acc.planes.len() + s.top.len() + s.bottom.len() + s.right.len() + s.left.len() <= 0xFFFF,
        acc.connections.len() + conn_count(s.top) + conn_count(s.bottom) + conn_count(s.right)
            + conn_count(s.left) <= 0xFFFF,
    ensures
        detection_ok(push_set(acc, s).detections.last(), all_pi, all_con),
        set_from(push_set(acc, s).detections.last(), all_pi, all_con) == s,
{
    let a = push_planes(acc.planes, acc.connections, s.top);
    let b = push_planes(a.0, a.1, s.bottom);
    let c = push_planes(b.0, b.1, s.right);
    let d = push_planes(c.0, c.1, s.left);
    lemma_push_planes_prefix(acc.planes, acc.connections, s.top);
    lemma_push_planes_prefix(a.0, a.1, s.bottom);
    lemma_push_planes_prefix(b.0, b.1, s.right);
    lemma_push_planes_prefix(c.0, c.1, s.left);
    lemma_conn_count_nonneg(s.top);
    lemma_conn_count_nonneg(s.bottom);
    lemma_conn_count_nonneg(s.right);
    lemma_conn_count_nonneg(s.left);
    lemma_extends_trans(all_pi, d.0, c.0);
    lemma_extends_trans(all_pi, c.0, b.0);
    lemma_extends_trans(all_pi, b.0, a.0);
    lemma_extends_trans(all_con, d.1, c.1);
    lemma_extends_trans(all_con, c.1, b.1);
    lemma_extends_trans(all_con, b.1, a.1);
    lemma_run_roundtrip(acc.planes, acc.connections, s.top, all_pi, all_con);
    lemma_run_roundtrip(a.0, a.1, s.bottom, all_pi, all_con);
    lemma_run_roundtrip(b.0, b.1, s.right, all_pi, all_con);
    lemma_run_roundtrip(c.0, c.1, s.left, all_pi, all_con);
}

/// Laying collision sets out as file parts and reading the sets back from
/// the parts gives back the sets, where the planes and their points fit the
/// file's `u16` counts.
pub proof fn lemma_parts_roundtrip(sets: Seq<SetView>)
    requires
        total_planes(sets) <= 0xFFFF,
        total_connections(sets) <= 0xFFFF,
    ensures
        parts_of(sets).detections.len() == sets.len(),
        forall|j: int|
            0 <= j < sets.len() ==> detection_ok(
                #[trigger] parts_of(sets).detections[j],
                parts_of(sets).planes,
                parts_of(sets).connections,
            ),
        parts_of(sets).detections.map_values(
            |d: ColDetection| set_from(d, parts_of(sets).planes, parts_of(sets).connections),
        ) == sets,
    decreases sets.len(),
{
    lemma_totals(sets);
    if sets.len() > 0 {
        let dl = sets.drop_last();
        let s = sets.last();
        lemma_totals(dl);
        lemma_conn_count_nonneg(s.top);
        lemma_conn_count_nonneg(s.bottom);
        lemma_conn_count_nonneg(s.right);
        lemma_conn_count_nonneg(s.left);
        lemma_parts_roundtrip(dl);
        let q = parts_of(dl);
        let p = parts_of(sets);
        assert(p == push_set(q, s));
        let a = push_planes(q.planes, q.connections, s.top);
        let b = push_planes(a.0, a.1, s.bottom);
        let c = push_planes(b.0, b.1, s.right);
        lemma_push_planes_prefix(q.planes, q.connections, s.top);
        lemma_push_planes_prefix(a.0, a.1, s.bottom);
        lemma_push_planes_prefix(b.0, b.1, s.right);
        lemma_push_planes_prefix(c.0, c.1, s.left);
        assert(p.planes.subrange(0, p.planes.len() as int) =~= p.planes);
        assert(p.connections.subrange(0, p.connections.len() as int) =~= p.connections);
        lemma_push_set_roundtrip(q, s, p.planes, p.connections);
        lemma_extends_trans(p.planes, c.0, b.0);
        lemma_extends_trans(p.planes, b.0, a.0);
        lemma_extends_trans(p.planes, a.0, q.planes);
        lemma_extends_trans(p.connections, c.1, b.1);
        lemma_extends_trans(p.connections, b.1, a.1);
        lemma_extends_trans(p.connections, a.1, q.connections);
        assert forall|j: int| 0 <= j < sets.len() implies detection_ok(
            #[trigger] p.detections[j],
            p.planes,
            p.connections,
        ) && set_from(p.detections[j], p.planes, p.connections) == sets[j] by {
            if j < dl.len() {
                assert(p.detections[j] == q.detections[j]);
                assert(detection_ok(q.detections[j], q.planes, q.connections));
                assert(q.detections.map_values(
                    |d: ColDetection| set_from(d, q.planes, q.connections),
                )[j] == dl[j]);
                lemma_set_from_extends(
                    q.detections[j],
                    q.planes,
                    q.connections,
                    p.planes,
                    p.connections,
                );
            }
        }
        assert(p.detections.map_values(
            |d: ColDetection| set_from(d, p.planes, p.connections),
        ) =~= sets);
    } else {
        assert(parts_of(sets).detections.map_values(
            |d: ColDetection| set_from(d, parts_of(sets).planes, parts_of(sets).connections),
        ) =~= sets);
    }
}

/// Points listed in key order and keyed again by their position are the
/// same points, where the keys were `0, 1, 2, ...`.
pub proof fn lemma_points_roundtrip(pts: Seq<CollisionPoint>, m: Map<usize, CollisionPoint>)
    requires
        in_key_order(pts, m),
        m.dom() == Set::new(|k: usize| k < pts.len()),
    ensures
        points_by_index(pts) == m,
{
    let ks = choose|ks: Seq<usize>|
        {
            &&& forall|i: int, j: int| 0 <= i < j < ks.len() ==> ks[i] < ks[j]
            &&& ks.to_set() == m.dom()
            &&& pts == ks.map_values(|k: usize| m[k])
        };
    let n = ks.len() as int;
    assert forall|i: int| 0 <= i < n implies ks[i] < n by {
        assert(ks.to_set().contains(ks[i]));
    }
    assert forall|i: int| 0 <= i < n implies ks[i] >= i by {
        lemma_increasing_lower(ks, i);
    }
    assert forall|i: int| 0 <= i < n implies ks[i] <= i by {
        lemma_increasing_upper(ks, i, n);
    }
    assert forall|k: usize| #[trigger] points_by_index(pts).dom().contains(k) implies points_by_index(
        pts,
    )[k] == m[k] by {
        assert(ks[k as int] == k);
    }
    assert(points_by_index(pts) =~= m);
}

proof fn lemma_increasing_lower(ks: Seq<usize>, i: int)
    requires
        forall|a: int, b: int| 0 <= a < b < ks.len() ==> ks[a] < ks[b],
        0 <= i < ks.len(),
    ensures
        ks[i] >= i,
    decreases i,
{
    if i > 0 {
        lemma_increasing_lower(ks, i - 1);
    }
}

proof fn lemma_increasing_upper(ks: Seq<usize>, i: int, n: int)
    requires
        forall|a: int, b: int| 0 <= a < b < ks.len() ==> ks[a] < ks[b],
        forall|a: int| 0 <= a < ks.len() ==> ks[a] < n,
        n == ks.len(),
        0 <= i < ks.len(),
    ensures
        ks[i] <= i,
    decreases ks.len() - i,
{
    if i < ks.len() - 1 {
        lemma_increasing_upper(ks, i + 1, n);
    }
}

/// Collision data broken into its file parts (`to_parts`) is put back
/// together (`from_parts`) as the same data: the parts meet what
/// `from_parts` needs, the collision sets come back the same, and so do the
/// points where their keys are `0, 1, 2, ...`. This holds where the planes
/// and their points fit the file's `u16` counts.
pub proof fn lemma_collision_roundtrip(
    sets: Seq<SetView>,
    points: Map<usize, CollisionPoint>,
    pts: Seq<CollisionPoint>,
)
    requires
        total_planes(sets) <= 0xFFFF,
        total_connections(sets) <= 0xFFFF,
        in_key_order(pts, points),
        points.dom() == Set::new(|k: usize| k < pts.len()),
    ensures
        forall|j: int|
            0 <= j < parts_of(sets).detections.len() ==> detection_ok(
                #[trigger] parts_of(sets).detections[j],
                parts_of(sets).planes,
                parts_of(sets).connections,
            ),
        parts_of(sets).detections.map_values(
            |d: ColDetection| set_from(d, parts_of(sets).planes, parts_of(sets).connections),
        ) == sets,
        points_by_index(pts) == points,
{
    lemma_parts_roundtrip(sets);
    lemma_points_roundtrip(pts, points);
}

} // verus!
