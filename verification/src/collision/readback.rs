//! Reading back what an import writes: the collision data that an export
//! reads from the buffer and pointers that an import put into a file.
use vstd::prelude::*;
use crate::bytes::{be_u16, be_u32, lemma_u16_bytes_read, lemma_u32_bytes_read, u16_bytes, u32_bytes};
use crate::collision::buffer::{
    collision_buffer, collision_layout, collision_ptrs, flat_bytes, lemma_buffer_pads_to_layout,
    lemma_write_aligned, pad_to4, u16s_bytes,
};
use crate::collision::cursor::{round_up, write_at, zero_bytes};
use crate::collision::import::{
    chain_end, import_result, linked_ptrs, output_start, ptrs_offset, CHAIN_STEPS,
};
use crate::collision::export::{max_of, max_plane_end, max_total_planes, u16s_at, u32s_at};
use crate::collision::{ColError, N64Bytes};
use crate::collision::export::{
    col_ptrs_of, export_error, exported, ExportedCollision, export_connection_count, export_connections, export_detection,
    export_plane_count, export_planes, export_point_count, export_points_raw, export_ptrs,
    export_spawns_raw, readable,
};
use crate::collision::pointers::{col_ptrs_bytes, spec_cnvrt_res_ptr, spec_make_res_ptr, ColPtrs};
use crate::collision::export::{
    detection_of, plane_of_word, points_error, spawn_from_raw, spawns_error, triple,
};
use crate::collision::kinds::{
    lemma_floor_bits_injective, lemma_spawn_bits_injective, spec_floor_bits,
    spec_floor_bits_known, spec_spawn_bits, spec_spawn_bits_known,
};
use crate::collision::parts::detection_bytes;
use crate::collision::point::{
    col_prop_valid, lemma_col_prop_bits_eq, point_bytes, point_error, point_from_raw,
    CollisionPoint,
};
use crate::collision::spawn::{spawn_bytes, spawn_error, Spawn};
use crate::collision::formatted::{parts_of, push_planes, total_planes, PartsView, SetView};
use crate::collision::parts::{detection_ends_fit, spec_total_planes, ColDetection, PlaneInfo};
use crate::collision::roundtrip::{
    conn_count, lemma_conn_count_nonneg, lemma_push_planes_prefix, lemma_push_planes_step,
    lemma_totals, total_connections,
};

verus! {

/// Every plane ends within the connections, and the furthest end is the end
/// of the connections (0 with no planes).
pub open spec fn planes_tight(pi: Seq<PlaneInfo>, con: Seq<u16>) -> bool {
    &&& forall|k: int| 0 <= k < pi.len() ==> #[trigger] pi[k].start + pi[k].length <= con.len()
    &&& max_plane_end(pi) == if pi.len() > 0 {
        con.len() as int
    } else {
        0
    }
}

proof fn lemma_push_planes_tight(pi: Seq<PlaneInfo>, con: Seq<u16>, planes: Seq<Seq<u16>>)
    requires
        planes_tight(pi, con),
        con.len() + conn_count(planes) <= 0xFFFF,
    ensures
        planes_tight(push_planes(pi, con, planes).0, push_planes(pi, con, planes).1),
    decreases planes.len(),
{
    lemma_conn_count_nonneg(planes);
    if planes.len() > 0 {
        let dl = planes.drop_last();
        lemma_conn_count_nonneg(dl);
        lemma_push_planes_tight(pi, con, dl);
        lemma_push_planes_step(pi, con, planes);
        lemma_push_planes_prefix(pi, con, dl);
        let prev = push_planes(pi, con, dl);
        let x = PlaneInfo { start: prev.1.len() as u16, length: planes.last().len() as u16 };
        assert(prev.0.push(x).drop_last() =~= prev.0);
        assert(x.start + x.length == prev.1.len() + planes.last().len());
        let r = push_planes(pi, con, planes);
        assert forall|k: int| 0 <= k < r.0.len() implies #[trigger] r.0[k].start + r.0[k].length
            <= r.1.len() by {
            if k < prev.0.len() {
                assert(r.0[k] == prev.0[k]);
            }
        }
    }
}

/// The plane infos of the parts of collision sets are tight against their
/// connections.
pub proof fn lemma_parts_planes_tight(sets: Seq<SetView>)
    requires
        total_connections(sets) <= 0xFFFF,
    ensures
        planes_tight(parts_of(sets).planes, parts_of(sets).connections),
    decreases sets.len(),
{
    lemma_totals(sets);
    if sets.len() == 0 {
    } else {
        let dl = sets.drop_last();
        let s = sets.last();
        lemma_totals(dl);
        lemma_conn_count_nonneg(s.top);
        lemma_conn_count_nonneg(s.bottom);
        lemma_conn_count_nonneg(s.right);
        lemma_conn_count_nonneg(s.left);
        lemma_parts_planes_tight(dl);
        let acc = parts_of(dl);
        let a = push_planes(acc.planes, acc.connections, s.top);
        let b = push_planes(a.0, a.1, s.bottom);
        let c = push_planes(b.0, b.1, s.right);
        lemma_push_planes_prefix(acc.planes, acc.connections, s.top);
        lemma_push_planes_prefix(a.0, a.1, s.bottom);
        lemma_push_planes_prefix(b.0, b.1, s.right);
        lemma_push_planes_prefix(c.0, c.1, s.left);
        lemma_conn_count_nonneg(s.top);
        lemma_conn_count_nonneg(s.bottom);
        lemma_conn_count_nonneg(s.right);
        lemma_conn_count_nonneg(s.left);
        lemma_push_planes_tight(acc.planes, acc.connections, s.top);
        lemma_push_planes_tight(a.0, a.1, s.bottom);
        lemma_push_planes_tight(b.0, b.1, s.right);
        lemma_push_planes_tight(c.0, c.1, s.left);
    }
}

/// Every detection's runs fit and end within the planes, and the furthest
/// end is the number of planes (0 with no detections).
pub open spec fn detections_tight(ds: Seq<ColDetection>, n: int) -> bool {
    &&& forall|k: int|
        0 <= k < ds.len() ==> detection_ends_fit(#[trigger] ds[k]) && spec_total_planes(ds[k]) <= n
    &&& max_total_planes(ds) == if ds.len() > 0 {
        n
    } else {
        0
    }
}

/// The detections of the parts of collision sets are tight against their
/// planes.
pub proof fn lemma_parts_detections_tight(sets: Seq<SetView>)
    requires
        total_planes(sets) <= 0xFFFF,
    ensures
        detections_tight(parts_of(sets).detections, parts_of(sets).planes.len() as int),
    decreases sets.len(),
{
    lemma_totals(sets);
    if sets.len() > 0 {
        let dl = sets.drop_last();
        let s = sets.last();
        lemma_totals(dl);
        lemma_parts_detections_tight(dl);
        let acc = parts_of(dl);
        let a = push_planes(acc.planes, acc.connections, s.top);
        let b = push_planes(a.0, a.1, s.bottom);
        let c = push_planes(b.0, b.1, s.right);
        let d = push_planes(c.0, c.1, s.left);
        lemma_push_planes_prefix(acc.planes, acc.connections, s.top);
        lemma_push_planes_prefix(a.0, a.1, s.bottom);
        lemma_push_planes_prefix(b.0, b.1, s.right);
        lemma_push_planes_prefix(c.0, c.1, s.left);
        let det = parts_of(sets).detections.last();
        assert(parts_of(sets).detections =~= acc.detections.push(det));
        assert(parts_of(sets).detections.drop_last() =~= acc.detections);
        assert(det.top_start + det.top_size == a.0.len());
        assert(det.bottom_start + det.bottom_size == b.0.len());
        assert(det.right_start + det.right_size == c.0.len());
        assert(det.left_start + det.left_size == d.0.len());
        assert(spec_total_planes(det) == d.0.len());
        let ds = parts_of(sets).detections;
        assert forall|k: int| 0 <= k < ds.len() implies detection_ends_fit(#[trigger] ds[k])
            && spec_total_planes(ds[k]) <= d.0.len() by {
            if k < acc.detections.len() {
                assert(ds[k] == acc.detections[k]);
            }
        }
    }
}

/// A window of `f` that holds `w` at `base`: the `u16`s read in it are
/// those read in `w`.
proof fn lemma_u16s_window(f: Seq<u8>, base: int, w: Seq<u8>, off: int, n: int)
    requires
        0 <= base,
        0 <= off,
        0 <= n,
        off + 2 * n <= w.len(),
        base + w.len() <= f.len(),
        f.subrange(base, base + w.len()) == w,
    ensures
        u16s_at(f, base + off, n) == u16s_at(w, off, n),
{
    assert forall|k: int| 0 <= k < n implies #[trigger] u16s_at(f, base + off, n)[k] == u16s_at(
        w,
        off,
        n,
    )[k] by {
        assert(f.subrange(base, base + w.len())[off + 2 * k] == f[base + off + 2 * k]);
        assert(f.subrange(base, base + w.len())[off + 2 * k + 1] == f[base + off + 2 * k + 1]);
    }
    assert(u16s_at(f, base + off, n) =~= u16s_at(w, off, n));
}

/// The same for `u32`s.
proof fn lemma_u32s_window(f: Seq<u8>, base: int, w: Seq<u8>, off: int, n: int)
    requires
        0 <= base,
        0 <= off,
        0 <= n,
        off + 4 * n <= w.len(),
        base + w.len() <= f.len(),
        f.subrange(base, base + w.len()) == w,
    ensures
        u32s_at(f, base + off, n) == u32s_at(w, off, n),
{
    assert forall|k: int| 0 <= k < n implies #[trigger] u32s_at(f, base + off, n)[k] == u32s_at(
        w,
        off,
        n,
    )[k] by {
        let g = f.subrange(base, base + w.len());
        assert(g[off + 4 * k] == f[base + off + 4 * k]);
        assert(g[off + 4 * k + 1] == f[base + off + 4 * k + 1]);
        assert(g[off + 4 * k + 2] == f[base + off + 4 * k + 2]);
        assert(g[off + 4 * k + 3] == f[base + off + 4 * k + 3]);
    }
    assert(u32s_at(f, base + off, n) =~= u32s_at(w, off, n));
}

/// A part of a window is a window.
proof fn lemma_sub_window(f: Seq<u8>, base: int, w: Seq<u8>, off: int, z: Seq<u8>)
    requires
        0 <= base,
        0 <= off,
        off + z.len() <= w.len(),
        base + w.len() <= f.len(),
        f.subrange(base, base + w.len()) == w,
        w.subrange(off, off + z.len()) == z,
    ensures
        f.subrange(base + off, base + off + z.len()) == z,
{
    assert forall|i: int| 0 <= i < z.len() implies f[base + off + i] == z[i] by {
        assert(f.subrange(base, base + w.len())[off + i] == f[base + off + i]);
        assert(w.subrange(off, off + z.len())[i] == w[off + i]);
    }
    assert(f.subrange(base + off, base + off + z.len()) =~= z);
}

/// The big-endian `u16` of two bytes that are the bytes of `n` is `n`.
proof fn lemma_read_u16_bytes(b: Seq<u8>, pos: int, n: u16)
    requires
        0 <= pos,
        pos + 2 <= b.len(),
        b.subrange(pos, pos + 2) == u16_bytes(n),
    ensures
        be_u16(b, pos) == n,
{
    assert(b[pos] == b.subrange(pos, pos + 2)[0]);
    assert(b[pos + 1] == b.subrange(pos, pos + 2)[1]);
    lemma_u16_bytes_read(n);
}

/// The `u16`s of the bytes of `u16`s are those `u16`s.
proof fn lemma_u16s_of_bytes(s: Seq<u16>)
    ensures
        u16s_bytes(s).len() == 2 * s.len(),
        u16s_at(u16s_bytes(s), 0, s.len() as int) == s,
    decreases s.len(),
{
    if s.len() > 0 {
        let dl = s.drop_last();
        lemma_u16s_of_bytes(dl);
        let x = u16s_bytes(dl);
        let b = u16s_bytes(s);
        assert(b == x + u16_bytes(s.last()));
        assert forall|k: int| 0 <= k < s.len() implies #[trigger] u16s_at(b, 0, s.len() as int)[k]
            == s[k] by {
            if k < dl.len() {
                assert(b[2 * k] == x[2 * k]);
                assert(b[2 * k + 1] == x[2 * k + 1]);
                assert(be_u16(x, 0 + 2 * k) == u16s_at(x, 0, dl.len() as int)[k]);
            } else {
                assert(b.subrange(2 * k, 2 * k + 2) =~= u16_bytes(s.last()));
                lemma_read_u16_bytes(b, 2 * k, s.last());
            }
        }
        assert(u16s_at(b, 0, s.len() as int) =~= s);
    }
}

/// The bytes of values that each take `sz` bytes: the `k`-th value's bytes
/// are at `sz * k`.
proof fn lemma_flat_bytes_at<T: N64Bytes>(s: Seq<T>, sz: int, k: int)
    requires
        sz >= 0,
        forall|i: int| 0 <= i < s.len() ==> (#[trigger] s[i]).n64_bytes().len() == sz,
        0 <= k < s.len(),
    ensures
        flat_bytes(s).len() == sz * s.len(),
        sz * k + sz <= flat_bytes(s).len(),
        flat_bytes(s).subrange(sz * k, sz * k + sz) == s[k].n64_bytes(),
    decreases s.len(),
{
    let dl = s.drop_last();
    let n = s.len() as int;
    assert(s.last().n64_bytes().len() == sz);
    assert(sz * n == sz * (n - 1) + sz) by (nonlinear_arith);
    assert(sz * k + sz <= sz * n) by (nonlinear_arith)
        requires
            0 <= k < n,
            sz >= 0,
    ;
    if k < n - 1 {
        lemma_flat_bytes_at(dl, sz, k);
        assert(flat_bytes(s).subrange(sz * k, sz * k + sz) =~= flat_bytes(dl).subrange(
            sz * k,
            sz * k + sz,
        ));
    } else {
        if n > 1 {
            lemma_flat_bytes_at(dl, sz, 0);
        } else {
            assert(dl.len() == 0);
        }
        assert(flat_bytes(dl).len() == sz * (n - 1));
        assert(flat_bytes(s).subrange(sz * k, sz * k + sz) =~= s.last().n64_bytes());
    }
}

/// A collision detection read from its bytes is itself.
proof fn lemma_read_detection(d: ColDetection)
    ensures
        detection_bytes(d).len() == 18,
        detection_of(u16s_at(detection_bytes(d), 0, 9)) == d,
{
    let b = detection_bytes(d);
    assert(b.subrange(0, 2) =~= u16_bytes(d.id));
    assert(b.subrange(2, 4) =~= u16_bytes(d.top_start));
    assert(b.subrange(4, 6) =~= u16_bytes(d.top_size));
    assert(b.subrange(6, 8) =~= u16_bytes(d.bottom_start));
    assert(b.subrange(8, 10) =~= u16_bytes(d.bottom_size));
    assert(b.subrange(10, 12) =~= u16_bytes(d.right_start));
    assert(b.subrange(12, 14) =~= u16_bytes(d.right_size));
    assert(b.subrange(14, 16) =~= u16_bytes(d.left_start));
    assert(b.subrange(16, 18) =~= u16_bytes(d.left_size));
    lemma_read_u16_bytes(b, 0, d.id);
    lemma_read_u16_bytes(b, 2, d.top_start);
    lemma_read_u16_bytes(b, 4, d.top_size);
    lemma_read_u16_bytes(b, 6, d.bottom_start);
    lemma_read_u16_bytes(b, 8, d.bottom_size);
    lemma_read_u16_bytes(b, 10, d.right_start);
    lemma_read_u16_bytes(b, 12, d.right_size);
    lemma_read_u16_bytes(b, 14, d.left_start);
    lemma_read_u16_bytes(b, 16, d.left_size);
    let t = u16s_at(b, 0, 9);
    assert(t[0] == d.id && t[1] == d.top_start && t[2] == d.top_size && t[3] == d.bottom_start
        && t[4] == d.bottom_size && t[5] == d.right_start && t[6] == d.right_size && t[7]
        == d.left_start && t[8] == d.left_size);
}

/// A plane info read from its word is itself.
proof fn lemma_read_plane(p: PlaneInfo)
    ensures
        p.n64_bytes().len() == 4,
        plane_of_word(be_u32(p.n64_bytes(), 0)) == p,
{
    let b = p.n64_bytes();
    let s = p.start;
    let l = p.length;
    assert(b =~= seq![(s >> 8u16) as u8, s as u8, (l >> 8u16) as u8, l as u8]);
    assert({
        let v = (((((s >> 8u16) as u8) as u32) << 24u32) | ((((s as u8) as u32)) << 16u32) | ((((
        l >> 8u16) as u8) as u32) << 8u32) | ((l as u8) as u32));
        &&& (v / 0x10000) as u16 == s
        &&& (v % 0x10000) as u16 == l
    }) by (bit_vector);
}

/// A collision point read from its bytes has no error and is itself.
proof fn lemma_read_point(p: CollisionPoint)
    requires
        col_prop_valid(p.prop_flag.spec_bits()),
    ensures
        point_bytes(p).len() == 6,
        point_error(u16s_at(point_bytes(p), 0, 3)) is None,
        forall|q: CollisionPoint|
            point_from_raw(q, u16s_at(point_bytes(p), 0, 3)) ==> q == p,
{
    let b = point_bytes(p);
    let bits = p.prop_flag.spec_bits();
    let fl = spec_floor_bits(p.floor_type);
    let w = (((bits as u16) << 8u16) | (fl as u16)) as u16;
    assert(((w >> 8u16) as u8 == bits) && (w as u8 == fl)) by (bit_vector)
        requires
            w == (((bits as u16) << 8u16) | (fl as u16)) as u16,
    ;
    assert(u16_bytes(w) =~= seq![bits, fl]) by {
        assert(((w >> 8u16) as u8 == bits) && (w as u8 == fl));
    }
    assert(b.subrange(0, 2) =~= u16_bytes(p.x as u16));
    assert(b.subrange(2, 4) =~= u16_bytes(p.y as u16));
    assert(b.subrange(4, 6) =~= u16_bytes(w));
    lemma_read_u16_bytes(b, 0, p.x as u16);
    lemma_read_u16_bytes(b, 2, p.y as u16);
    lemma_read_u16_bytes(b, 4, w);
    let t = u16s_at(b, 0, 3);
    assert(t[0] == p.x as u16 && t[1] == p.y as u16 && t[2] == w);
    let x = p.x;
    let y = p.y;
    assert(((x as u16) as i16) == x && ((y as u16) as i16) == y) by (bit_vector);
    assert(spec_floor_bits_known(fl));
    assert forall|q: CollisionPoint| point_from_raw(q, t) implies q == p by {
        lemma_col_prop_bits_eq(q.prop_flag, p.prop_flag);
        lemma_floor_bits_injective(q.floor_type, p.floor_type);
    }
}

/// A spawn point read from its bytes has no error and is itself.
proof fn lemma_read_spawn(p: Spawn)
    ensures
        spawn_bytes(p).len() == 6,
        spawn_error(u16s_at(spawn_bytes(p), 0, 3)) is None,
        forall|q: Spawn| spawn_from_raw(q, u16s_at(spawn_bytes(p), 0, 3)) ==> q == p,
{
    let b = spawn_bytes(p);
    let bits = spec_spawn_bits(p.stype);
    assert(b.subrange(0, 2) =~= u16_bytes(bits));
    assert(b.subrange(2, 4) =~= u16_bytes(p.x as u16));
    assert(b.subrange(4, 6) =~= u16_bytes(p.y as u16));
    lemma_read_u16_bytes(b, 0, bits);
    lemma_read_u16_bytes(b, 2, p.x as u16);
    lemma_read_u16_bytes(b, 4, p.y as u16);
    let t = u16s_at(b, 0, 3);
    assert(t[0] == bits && t[1] == p.x as u16 && t[2] == p.y as u16);
    let x = p.x;
    let y = p.y;
    assert(((x as u16) as i16) == x && ((y as u16) as i16) == y) by (bit_vector);
    assert(spec_spawn_bits_known(bits));
    assert forall|q: Spawn| spawn_from_raw(q, t) implies q == p by {
        lemma_spawn_bits_injective(q.stype, p.stype);
    }
}

/// A resource link to `x` (with or without a next link below `0x20000`)
/// read back as a byte offset is `x`, for a word-aligned `x` below
/// `0x40000`.
proof fn lemma_link_read(next: Option<u32>, x: u32)
    requires
        x % 4 == 0,
        x < 0x40000,
        next matches Some(n) ==> n < 0x20000,
    ensures
        spec_cnvrt_res_ptr(spec_make_res_ptr(next, x)) == x,
{
    let lo = (x / 4) % 0x10000;
    assert(lo == x / 4);
    match next {
        Some(n) => {
            let hi = (n / 4) % 0x10000;
            assert(hi < 0x8000);
            let v = (hi * 0x10000 + lo) as u32;
            assert(v == hi * 0x10000 + lo);
            assert(v / 0x1000000 == hi / 0x100);
            assert(v % 0x10000 == lo);
        },
        None => {
            let v = (0xFFFF * 0x10000 + lo) as u32;
            assert(v == 0xFFFF * 0x10000 + lo);
            assert(v / 0x1000000 == 0xFF);
            assert(v % 0x10000 == lo);
        },
    }
}

/// The collision pointers read back from their 28 bytes.
proof fn lemma_read_ptrs(p: ColPtrs)
    ensures
        col_ptrs_bytes(p).len() == 28,
        u32s_at(col_ptrs_bytes(p), 0, 7)[0] / 0x10000 == p.col_count,
        col_ptrs_of(u32s_at(col_ptrs_bytes(p), 0, 7)) == (ColPtrs {
            points: spec_cnvrt_res_ptr(p.points),
            connections: spec_cnvrt_res_ptr(p.connections),
            planes: spec_cnvrt_res_ptr(p.planes),
            col_direct: spec_cnvrt_res_ptr(p.col_direct),
            spawns: spec_cnvrt_res_ptr(p.spawns),
            ..p
        }),
{
    let b = col_ptrs_bytes(p);
    let c = p.col_count;
    let sc = p.spawn_count;
    let cw = ((c as u32) << 16u32) as u32;
    let sw = ((sc as u32) << 16u32) as u32;
    assert((cw >> 24u32) as u8 == (c >> 8u16) as u8 && (cw >> 16u32) as u8 == c as u8 && (cw
        >> 8u32) as u8 == 0 && cw as u8 == 0 && cw / 0x10000 == c) by (bit_vector)
        requires
            cw == ((c as u32) << 16u32) as u32,
    ;
    assert((sw >> 24u32) as u8 == (sc >> 8u16) as u8 && (sw >> 16u32) as u8 == sc as u8 && (sw
        >> 8u32) as u8 == 0 && sw as u8 == 0 && sw / 0x10000 == sc) by (bit_vector)
        requires
            sw == ((sc as u32) << 16u32) as u32,
    ;
    assert(b.subrange(0, 4) =~= u32_bytes(cw));
    assert(b.subrange(20, 24) =~= u32_bytes(sw));
    assert(b.subrange(4, 8) =~= u32_bytes(p.points));
    assert(b.subrange(8, 12) =~= u32_bytes(p.connections));
    assert(b.subrange(12, 16) =~= u32_bytes(p.planes));
    assert(b.subrange(16, 20) =~= u32_bytes(p.col_direct));
    assert(b.subrange(24, 28) =~= u32_bytes(p.spawns));
    lemma_read_u32_bytes(b, 0, cw);
    lemma_read_u32_bytes(b, 4, p.points);
    lemma_read_u32_bytes(b, 8, p.connections);
    lemma_read_u32_bytes(b, 12, p.planes);
    lemma_read_u32_bytes(b, 16, p.col_direct);
    lemma_read_u32_bytes(b, 20, sw);
    lemma_read_u32_bytes(b, 24, p.spawns);
    let w = u32s_at(b, 0, 7);
    assert(w[0] == cw && w[1] == p.points && w[2] == p.connections && w[3] == p.planes && w[4]
        == p.col_direct && w[5] == sw && w[6] == p.spawns);
}

/// The big-endian `u32` of four bytes that are the bytes of `n` is `n`.
proof fn lemma_read_u32_bytes(b: Seq<u8>, pos: int, n: u32)
    requires
        0 <= pos,
        pos + 4 <= b.len(),
        b.subrange(pos, pos + 4) == u32_bytes(n),
    ensures
        be_u32(b, pos) == n,
{
    assert(b[pos] == b.subrange(pos, pos + 4)[0]);
    assert(b[pos + 1] == b.subrange(pos, pos + 4)[1]);
    assert(b[pos + 2] == b.subrange(pos, pos + 4)[2]);
    assert(b[pos + 3] == b.subrange(pos, pos + 4)[3]);
    lemma_u32_bytes_read(n);
}

/// `s` padded to four bytes starts with `s`, has a length that is a
/// multiple of four, and adds fewer than four bytes.
proof fn lemma_pad(s: Seq<u8>)
    ensures
        pad_to4(s).len() == round_up(s.len() as int, 4),
        pad_to4(s).len() % 4 == 0,
        s.len() <= pad_to4(s).len() < s.len() + 4,
        pad_to4(s).subrange(0, s.len() as int) == s,
{
    lemma_write_aligned(s, Seq::empty());
    assert(pad_to4(s).subrange(0, s.len() as int) =~= s);
}

/// A window that holds `x + y` holds `x` at its start and `y` after it.
proof fn lemma_split_window(f: Seq<u8>, base: int, x: Seq<u8>, y: Seq<u8>)
    requires
        0 <= base,
        base + x.len() + y.len() <= f.len(),
        f.subrange(base, base + x.len() + y.len()) == x + y,
    ensures
        f.subrange(base, base + x.len()) == x,
        f.subrange(base + x.len(), base + x.len() + y.len()) == y,
{
    assert((x + y).subrange(0, x.len() as int) =~= x);
    assert((x + y).subrange(x.len() as int, (x.len() + y.len()) as int) =~= y);
    lemma_sub_window(f, base, x + y, 0, x);
    lemma_sub_window(f, base, x + y, x.len() as int, y);
}

/// A window that holds `pad_to4(x)` holds `x`.
proof fn lemma_unpad_window(f: Seq<u8>, base: int, x: Seq<u8>)
    requires
        0 <= base,
        base + pad_to4(x).len() <= f.len(),
        f.subrange(base, base + pad_to4(x).len()) == pad_to4(x),
    ensures
        f.subrange(base, base + x.len()) == x,
{
    lemma_pad(x);
    lemma_sub_window(f, base, pad_to4(x), 0, x);
}

/// The collision sets, points and spawns that an export gives back as they
/// were imported: there is a set, the sets have planes and the planes have
/// points, all within the file's 16 bit counts; the highest point that a
/// plane names is the last point; the points' flags are known ones.
pub open spec fn readback_ok(sets: Seq<SetView>, pts: Seq<CollisionPoint>, spawns: Seq<Spawn>) -> bool {
    &&& 0 < sets.len() <= 0xFFFF
    &&& 0 < total_planes(sets) <= 0xFFFF
    &&& 0 < total_connections(sets) <= 0xFFFF
    &&& max_of(parts_of(sets).connections) + 1 == pts.len()
    &&& forall|k: int| 0 <= k < pts.len() ==> col_prop_valid(#[trigger] pts[k].prop_flag.spec_bits())
    &&& 3 * spawns.len() <= 0xFFFF
}

/// What an import writes at `start`: the collision buffer, padded to four
/// bytes, then the collision pointers as links of a resource chain.
pub open spec fn import_window(
    pts: Seq<CollisionPoint>,
    spawns: Seq<Spawn>,
    p: PartsView,
    start: int,
    at: u32,
) -> Seq<u8> {
    pad_to4(collision_layout(pts, spawns, p)) + col_ptrs_bytes(
        linked_ptrs(collision_ptrs(pts, spawns, p, start as u64), at),
    )
}

/// The points of the buffer, padded to four bytes.
pub open spec fn part_a(pts: Seq<CollisionPoint>) -> Seq<u8> {
    pad_to4(flat_bytes(pts))
}

/// The buffer up to the plane infos.
pub open spec fn part_b(pts: Seq<CollisionPoint>, p: PartsView) -> Seq<u8> {
    pad_to4(part_a(pts) + u16s_bytes(p.connections))
}

/// The buffer up to the detections.
pub open spec fn part_c(pts: Seq<CollisionPoint>, p: PartsView) -> Seq<u8> {
    pad_to4(part_b(pts, p) + flat_bytes(p.planes))
}

/// The buffer up to the spawn points.
pub open spec fn part_d(pts: Seq<CollisionPoint>, p: PartsView) -> Seq<u8> {
    pad_to4(part_c(pts, p) + flat_bytes(p.detections))
}

/// The buffer and its pointers by parts.
proof fn lemma_layout(pts: Seq<CollisionPoint>, spawns: Seq<Spawn>, p: PartsView, start: int)
    ensures
        collision_layout(pts, spawns, p) == part_d(pts, p) + flat_bytes(spawns),
        collision_ptrs(pts, spawns, p, start as u64) == (ColPtrs {
            col_count: p.detections.len() as u16,
            points: start as u64 as u32,
            connections: (start as u64 + part_a(pts).len()) as u32,
            planes: (start as u64 + part_b(pts, p).len()) as u32,
            col_direct: (start as u64 + part_c(pts, p).len()) as u32,
            spawn_count: spawns.len() as u16,
            spawns: (start as u64 + part_d(pts, p).len()) as u32,
        }),
{
    reveal(collision_layout);
    reveal(collision_ptrs);
}

/// The lengths of the parts: each starts at a multiple of four, after the
/// one before.
proof fn lemma_part_lens(pts: Seq<CollisionPoint>, p: PartsView)
    ensures
        part_a(pts).len() % 4 == 0,
        part_b(pts, p).len() % 4 == 0,
        part_c(pts, p).len() % 4 == 0,
        part_d(pts, p).len() % 4 == 0,
        flat_bytes(pts).len() <= part_a(pts).len(),
        part_a(pts).len() + u16s_bytes(p.connections).len() <= part_b(pts, p).len(),
        part_b(pts, p).len() + flat_bytes(p.planes).len() <= part_c(pts, p).len(),
        part_c(pts, p).len() + flat_bytes(p.detections).len() <= part_d(pts, p).len(),
{
    lemma_pad(flat_bytes(pts));
    lemma_pad(part_a(pts) + u16s_bytes(p.connections));
    lemma_pad(part_b(pts, p) + flat_bytes(p.planes));
    lemma_pad(part_c(pts, p) + flat_bytes(p.detections));
}

/// The window of an import: the buffer at its start and the pointers that
/// an export reads back at `at`.
#[verifier::spinoff_prover]
proof fn lemma_window_ptrs(
    f: Seq<u8>,
    start: int,
    p: PartsView,
    pts: Seq<CollisionPoint>,
    spawns: Seq<Spawn>,
    at: u32,
)
    requires
        0 <= start,
        start % 4 == 0,
        at == start + round_up(collision_layout(pts, spawns, p).len() as int, 4),
        at + 0x1C <= 0x20000,
        at + 28 <= f.len(),
        f.subrange(start, at + 28) == import_window(pts, spawns, p, start, at),
        0 < p.detections.len() <= 0xFFFF,
    ensures
        f.subrange(start, start + collision_layout(pts, spawns, p).len()) == collision_layout(
            pts,
            spawns,
            p,
        ),
        start + collision_layout(pts, spawns, p).len() <= at,
        readable(f, at as int, 28),
        u32s_at(f, at as int, 7)[0] / 0x10000 != 0,
        col_ptrs_of(u32s_at(f, at as int, 7)) == (ColPtrs {
            points: spec_cnvrt_res_ptr(linked_ptrs(collision_ptrs(pts, spawns, p, start as u64), at).points),
            connections: spec_cnvrt_res_ptr(linked_ptrs(collision_ptrs(pts, spawns, p, start as u64), at).connections),
            planes: spec_cnvrt_res_ptr(linked_ptrs(collision_ptrs(pts, spawns, p, start as u64), at).planes),
            col_direct: spec_cnvrt_res_ptr(linked_ptrs(collision_ptrs(pts, spawns, p, start as u64), at).col_direct),
            spawns: spec_cnvrt_res_ptr(linked_ptrs(collision_ptrs(pts, spawns, p, start as u64), at).spawns),
            ..linked_ptrs(collision_ptrs(pts, spawns, p, start as u64), at)
        }),
{
    let buf = collision_layout(pts, spawns, p);
    let ptrs = collision_ptrs(pts, spawns, p, start as u64);
    let linked = linked_ptrs(ptrs, at);
    let cpb = col_ptrs_bytes(linked);
    lemma_pad(buf);
    lemma_read_ptrs(linked);
    assert(at + 28 == start + (pad_to4(buf) + cpb).len());
    lemma_split_window(f, start, pad_to4(buf), cpb);
    lemma_unpad_window(f, start, buf);
    lemma_u32s_window(f, at as int, cpb, 0, 7);
    lemma_layout(pts, spawns, p, start);
}

/// The pointers of the buffer, made links of a chain at `at`, read back as
/// the pointers.
#[verifier::spinoff_prover]
proof fn lemma_linked_read(
    pts: Seq<CollisionPoint>,
    spawns: Seq<Spawn>,
    p: PartsView,
    start: int,
    at: u32,
)
    requires
        0 <= start,
        start % 4 == 0,
        start + collision_layout(pts, spawns, p).len() <= at,
        at + 0x1C <= 0x20000,
    ensures
        ({
            let ptrs = collision_ptrs(pts, spawns, p, start as u64);
            let linked = linked_ptrs(ptrs, at);
            (ColPtrs {
                points: spec_cnvrt_res_ptr(linked.points),
                connections: spec_cnvrt_res_ptr(linked.connections),
                planes: spec_cnvrt_res_ptr(linked.planes),
                col_direct: spec_cnvrt_res_ptr(linked.col_direct),
                spawns: spec_cnvrt_res_ptr(linked.spawns),
                ..linked
            }) == ptrs
        }),
{
    let ptrs = collision_ptrs(pts, spawns, p, start as u64);
    lemma_layout(pts, spawns, p, start);
    lemma_part_lens(pts, p);
    let buf = collision_layout(pts, spawns, p);
    let la = part_a(pts).len() as int;
    let lb = part_b(pts, p).len() as int;
    let lc = part_c(pts, p).len() as int;
    let ld = part_d(pts, p).len() as int;
    assert(la <= lb <= lc <= ld <= buf.len());
    assert(ptrs.points == start);
    assert(ptrs.connections == start + la);
    assert(ptrs.planes == start + lb);
    assert(ptrs.col_direct == start + lc);
    assert(ptrs.spawns == start + ld);
    assert((start + la) % 4 == 0 && (start + lb) % 4 == 0 && (start + lc) % 4 == 0 && (start
        + ld) % 4 == 0);
    lemma_link_read(Some((at + 0x8) as u32), ptrs.points);
    lemma_link_read(Some((at + 0xC) as u32), ptrs.connections);
    lemma_link_read(Some((at + 0x10) as u32), ptrs.planes);
    lemma_link_read(Some((at + 0x18) as u32), ptrs.col_direct);
    lemma_link_read(None, ptrs.spawns);
}

/// A window that holds the buffer holds each of its parts.
proof fn lemma_window_parts(
    f: Seq<u8>,
    start: int,
    pts: Seq<CollisionPoint>,
    spawns: Seq<Spawn>,
    p: PartsView,
)
    requires
        0 <= start,
        start + collision_layout(pts, spawns, p).len() <= f.len(),
        f.subrange(start, start + collision_layout(pts, spawns, p).len()) == collision_layout(
            pts,
            spawns,
            p,
        ),
    ensures
        f.subrange(start, start + flat_bytes(pts).len()) == flat_bytes(pts),
        f.subrange(
            start + part_a(pts).len(),
            start + part_a(pts).len() + u16s_bytes(p.connections).len(),
        ) == u16s_bytes(p.connections),
        f.subrange(
            start + part_b(pts, p).len(),
            start + part_b(pts, p).len() + flat_bytes(p.planes).len(),
        ) == flat_bytes(p.planes),
        f.subrange(
            start + part_c(pts, p).len(),
            start + part_c(pts, p).len() + flat_bytes(p.detections).len(),
        ) == flat_bytes(p.detections),
        f.subrange(
            start + part_d(pts, p).len(),
            start + part_d(pts, p).len() + flat_bytes(spawns).len(),
        ) == flat_bytes(spawns),
        start + part_d(pts, p).len() + flat_bytes(spawns).len() <= f.len(),
{
    lemma_layout(pts, spawns, p, start);
    lemma_part_lens(pts, p);
    let a = part_a(pts);
    let u = u16s_bytes(p.connections);
    let b = part_b(pts, p);
    let pl = flat_bytes(p.planes);
    let c = part_c(pts, p);
    let db = flat_bytes(p.detections);
    let d = part_d(pts, p);
    let sb = flat_bytes(spawns);
    lemma_pad(flat_bytes(pts));
    lemma_pad(a + u);
    lemma_pad(b + pl);
    lemma_pad(c + db);
    lemma_split_window(f, start, d, sb);
    lemma_unpad_window(f, start, c + db);
    lemma_split_window(f, start, c, db);
    lemma_unpad_window(f, start, b + pl);
    lemma_split_window(f, start, b, pl);
    lemma_unpad_window(f, start, a + u);
    lemma_split_window(f, start, a, u);
    lemma_unpad_window(f, start, flat_bytes(pts));
}

/// The detections read from a window that holds their bytes.
proof fn lemma_window_detections(f: Seq<u8>, base: int, ds: Seq<ColDetection>)
    requires
        0 <= base,
        base + flat_bytes(ds).len() <= f.len(),
        f.subrange(base, base + flat_bytes(ds).len()) == flat_bytes(ds),
    ensures
        flat_bytes(ds).len() == 18 * ds.len(),
        forall|k: int|
            0 <= k < ds.len() ==> detection_of(u16s_at(f, base + 18 * k, 9)) == #[trigger] ds[k],
{
    assert forall|i: int| 0 <= i < ds.len() implies (#[trigger] ds[i]).n64_bytes().len() == 18 by {
        lemma_read_detection(ds[i]);
    }
    if ds.len() > 0 {
        lemma_flat_bytes_at(ds, 18, 0);
    } else {
        assert(flat_bytes(ds).len() == 0);
    }
    assert forall|k: int| 0 <= k < ds.len() implies detection_of(u16s_at(f, base + 18 * k, 9))
        == #[trigger] ds[k] by {
        lemma_flat_bytes_at(ds, 18, k);
        lemma_read_detection(ds[k]);
        lemma_sub_window(f, base, flat_bytes(ds), 18 * k, detection_bytes(ds[k]));
        lemma_u16s_window(f, base + 18 * k, detection_bytes(ds[k]), 0, 9);
    }
}

/// The plane infos read from a window that holds their bytes.
proof fn lemma_window_planes(f: Seq<u8>, base: int, ps: Seq<PlaneInfo>)
    requires
        0 <= base,
        base + flat_bytes(ps).len() <= f.len(),
        f.subrange(base, base + flat_bytes(ps).len()) == flat_bytes(ps),
    ensures
        flat_bytes(ps).len() == 4 * ps.len(),
        u32s_at(f, base, ps.len() as int).map_values(|w: u32| plane_of_word(w)) == ps,
{
    assert forall|i: int| 0 <= i < ps.len() implies (#[trigger] ps[i]).n64_bytes().len() == 4 by {
        lemma_read_plane(ps[i]);
    }
    if ps.len() > 0 {
        lemma_flat_bytes_at(ps, 4, 0);
    } else {
        assert(flat_bytes(ps).len() == 0);
    }
    let r = u32s_at(f, base, ps.len() as int).map_values(|w: u32| plane_of_word(w));
    assert forall|k: int| 0 <= k < ps.len() implies #[trigger] r[k] == ps[k] by {
        lemma_flat_bytes_at(ps, 4, k);
        lemma_read_plane(ps[k]);
        lemma_sub_window(f, base, flat_bytes(ps), 4 * k, ps[k].n64_bytes());
        lemma_u32s_window(f, base + 4 * k, ps[k].n64_bytes(), 0, 1);
        assert(u32s_at(f, base + 4 * k, 1)[0] == be_u32(f, base + 4 * k));
        assert(u32s_at(ps[k].n64_bytes(), 0, 1)[0] == be_u32(ps[k].n64_bytes(), 0));
    }
    assert(r =~= ps);
}

proof fn lemma_points_error_none(raw: Seq<u16>, n: nat)
    requires
        forall|k: int| 0 <= k < n ==> point_error(#[trigger] triple(raw, k)) is None,
    ensures
        points_error(raw, n) is None,
    decreases n,
{
    if n > 0 {
        lemma_points_error_none(raw, (n - 1) as nat);
        assert(point_error(triple(raw, n - 1)) is None);
    }
}

proof fn lemma_spawns_error_none(raw: Seq<u16>, n: nat)
    requires
        forall|k: int| 0 <= k < n ==> spawn_error(#[trigger] triple(raw, k)) is None,
    ensures
        spawns_error(raw, n) is None,
    decreases n,
{
    if n > 0 {
        lemma_spawns_error_none(raw, (n - 1) as nat);
        assert(spawn_error(triple(raw, n - 1)) is None);
    }
}

/// The `k`-th three of the `u16`s at `base` are the three at `base + 6k`.
proof fn lemma_triple_at(f: Seq<u8>, base: int, n: int, k: int)
    requires
        0 <= k < n,
    ensures
        triple(u16s_at(f, base, 3 * n), k) == u16s_at(f, base + 6 * k, 3),
{
    assert(triple(u16s_at(f, base, 3 * n), k) =~= u16s_at(f, base + 6 * k, 3));
}

/// The collision points read from a window that holds their bytes.
proof fn lemma_window_points(f: Seq<u8>, base: int, pts: Seq<CollisionPoint>)
    requires
        0 <= base,
        base + flat_bytes(pts).len() <= f.len(),
        f.subrange(base, base + flat_bytes(pts).len()) == flat_bytes(pts),
        forall|k: int| 0 <= k < pts.len() ==> col_prop_valid(#[trigger] pts[k].prop_flag.spec_bits()),
    ensures
        flat_bytes(pts).len() == 6 * pts.len(),
        points_error(u16s_at(f, base, (3 * pts.len()) as int), pts.len()) is None,
        forall|k: int, q: CollisionPoint|
            0 <= k < pts.len() && #[trigger] point_from_raw(q, triple(u16s_at(f, base, (3 * pts.len()) as int), k))
                ==> q == pts[k],
{
    let n = pts.len() as int;
    let raw = u16s_at(f, base, 3 * n);
    assert forall|i: int| 0 <= i < pts.len() implies (#[trigger] pts[i]).n64_bytes().len() == 6 by {
        lemma_read_point(pts[i]);
    }
    if pts.len() > 0 {
        lemma_flat_bytes_at(pts, 6, 0);
    } else {
        assert(flat_bytes(pts).len() == 0);
    }
    assert forall|k: int| 0 <= k < n implies triple(raw, k) == u16s_at(point_bytes(pts[k]), 0, 3)
        by {
        lemma_flat_bytes_at(pts, 6, k);
        lemma_read_point(pts[k]);
        lemma_sub_window(f, base, flat_bytes(pts), 6 * k, point_bytes(pts[k]));
        lemma_u16s_window(f, base + 6 * k, point_bytes(pts[k]), 0, 3);
        lemma_triple_at(f, base, n, k);
    }
    assert forall|k: int| 0 <= k < n implies point_error(#[trigger] triple(raw, k)) is None by {
        lemma_read_point(pts[k]);
    }
    lemma_points_error_none(raw, pts.len());
    assert forall|k: int, q: CollisionPoint|
        0 <= k < n && #[trigger] point_from_raw(q, triple(raw, k)) implies q == pts[k] by {
        lemma_read_point(pts[k]);
    }
}

/// The spawn points read from a window that holds their bytes.
proof fn lemma_window_spawns(f: Seq<u8>, base: int, sps: Seq<Spawn>)
    requires
        0 <= base,
        base + flat_bytes(sps).len() <= f.len(),
        f.subrange(base, base + flat_bytes(sps).len()) == flat_bytes(sps),
    ensures
        flat_bytes(sps).len() == 6 * sps.len(),
        spawns_error(u16s_at(f, base, (3 * sps.len()) as int), sps.len()) is None,
        forall|k: int, q: Spawn|
            0 <= k < sps.len() && #[trigger] spawn_from_raw(q, triple(u16s_at(f, base, (3 * sps.len()) as int), k))
                ==> q == sps[k],
{
    let n = sps.len() as int;
    let raw = u16s_at(f, base, 3 * n);
    assert forall|i: int| 0 <= i < sps.len() implies (#[trigger] sps[i]).n64_bytes().len() == 6 by {
        lemma_read_spawn(sps[i]);
    }
    if sps.len() > 0 {
        lemma_flat_bytes_at(sps, 6, 0);
    } else {
        assert(flat_bytes(sps).len() == 0);
    }
    assert forall|k: int| 0 <= k < n implies triple(raw, k) == u16s_at(spawn_bytes(sps[k]), 0, 3)
        by {
        lemma_flat_bytes_at(sps, 6, k);
        lemma_read_spawn(sps[k]);
        lemma_sub_window(f, base, flat_bytes(sps), 6 * k, spawn_bytes(sps[k]));
        lemma_u16s_window(f, base + 6 * k, spawn_bytes(sps[k]), 0, 3);
        lemma_triple_at(f, base, n, k);
    }
    assert forall|k: int| 0 <= k < n implies spawn_error(#[trigger] triple(raw, k)) is None by {
        lemma_read_spawn(sps[k]);
    }
    lemma_spawns_error_none(raw, sps.len());
    assert forall|k: int, q: Spawn|
        0 <= k < n && #[trigger] spawn_from_raw(q, triple(raw, k)) implies q == sps[k] by {
        lemma_read_spawn(sps[k]);
    }
}

/// What an export reads from the window of an import, part by part.
#[verifier::spinoff_prover]
proof fn lemma_window_reads(
    f: Seq<u8>,
    start: int,
    sets: Seq<SetView>,
    pts: Seq<CollisionPoint>,
    spawns: Seq<Spawn>,
    at: u32,
)
    requires
        readback_ok(sets, pts, spawns),
        0 <= start,
        start % 4 == 0,
        at == start + round_up(collision_layout(pts, spawns, parts_of(sets)).len() as int, 4),
        at + 0x1C <= 0x20000,
        at + 28 <= f.len(),
        f.subrange(start, at + 28) == import_window(pts, spawns, parts_of(sets), start, at),
    ensures
        readable(f, at as int, 28),
        u32s_at(f, at as int, 7)[0] / 0x10000 != 0,
        export_ptrs(f, at) == collision_ptrs(pts, spawns, parts_of(sets), start as u64),
        export_ptrs(f, at).col_count == sets.len(),
        export_ptrs(f, at).spawn_count == spawns.len(),
        readable(f, export_ptrs(f, at).col_direct as int, 18 * export_ptrs(f, at).col_count),
        export_detection(f, at) == parts_of(sets).detections,
        export_plane_count(f, at) == parts_of(sets).planes.len(),
        readable(f, export_ptrs(f, at).planes as int, 4 * export_plane_count(f, at)),
        export_planes(f, at) == parts_of(sets).planes,
        export_connection_count(f, at) == parts_of(sets).connections.len(),
        readable(f, export_ptrs(f, at).connections as int, 2 * export_connection_count(f, at)),
        export_connections(f, at) == parts_of(sets).connections,
        export_point_count(f, at) == pts.len(),
        readable(f, export_ptrs(f, at).points as int, 6 * export_point_count(f, at)),
        export_points_raw(f, at) == u16s_at(f, start, (3 * pts.len()) as int),
        readable(f, export_ptrs(f, at).spawns as int, 6 * export_ptrs(f, at).spawn_count),
        export_spawns_raw(f, at) == u16s_at(
            f,
            start + part_d(pts, parts_of(sets)).len(),
            (3 * spawns.len()) as int,
        ),
        f.subrange(start, start + flat_bytes(pts).len()) == flat_bytes(pts),
        start + flat_bytes(pts).len() <= f.len(),
        f.subrange(
            start + part_d(pts, parts_of(sets)).len(),
            start + part_d(pts, parts_of(sets)).len() + flat_bytes(spawns).len(),
        ) == flat_bytes(spawns),
        start + part_d(pts, parts_of(sets)).len() + flat_bytes(spawns).len() <= f.len(),
{
    let p = parts_of(sets);
    let ptrs = collision_ptrs(pts, spawns, p, start as u64);
    lemma_totals(sets);
    lemma_window_ptrs(f, start, p, pts, spawns, at);
    lemma_linked_read(pts, spawns, p, start, at);
    lemma_layout(pts, spawns, p, start);
    lemma_part_lens(pts, p);
    lemma_window_parts(f, start, pts, spawns, p);
    let la = part_a(pts).len() as int;
    let lb = part_b(pts, p).len() as int;
    let lc = part_c(pts, p).len() as int;
    let ld = part_d(pts, p).len() as int;
    assert(export_ptrs(f, at) == ptrs);
    assert(ptrs.col_count == sets.len());
    assert(ptrs.spawn_count == spawns.len());
    assert(ptrs.col_direct == start + lc);
    assert(ptrs.planes == start + lb);
    assert(ptrs.connections == start + la);
    assert(ptrs.points == start);
    assert(ptrs.spawns == start + ld);
    // the detections
    lemma_window_detections(f, start + lc, p.detections);
    assert(export_detection(f, at) =~= p.detections);
    lemma_parts_detections_tight(sets);
    // the planes
    lemma_window_planes(f, start + lb, p.planes);
    lemma_parts_planes_tight(sets);
    // the connections
    lemma_u16s_of_bytes(p.connections);
    lemma_u16s_window(f, start + la, u16s_bytes(p.connections), 0, p.connections.len() as int);
    // the points and spawns
    lemma_window_points(f, start, pts);
    lemma_window_spawns(f, start + ld, spawns);
}

/// Collision data written by an import is read back by an export: where
/// the buffer of collision sets, points and spawns is at `start` of a file
/// and its pointers follow it at `at` as links of a resource chain, an
/// export from `at` succeeds and gives back the pointers, the detections,
/// plane infos and connections of the sets, the points and the spawns. This
/// holds where the sets, planes, connections and spawns fit the file's 16
/// bit counts and are not empty, where the highest point a plane names is
/// the last point, where the points' flags are known ones and where the
/// pointers end below `0x20000` (the links are 16 bit word offsets).
#[verifier::spinoff_prover]
pub proof fn lemma_export_reads_import_window(
    f: Seq<u8>,
    start: int,
    sets: Seq<SetView>,
    pts: Seq<CollisionPoint>,
    spawns: Seq<Spawn>,
    at: u32,
)
    requires
        readback_ok(sets, pts, spawns),
        0 <= start,
        start % 4 == 0,
        at == start + round_up(collision_layout(pts, spawns, parts_of(sets)).len() as int, 4),
        at + 0x1C <= 0x20000,
        at + 28 <= f.len(),
        f.subrange(start, at + 28) == import_window(pts, spawns, parts_of(sets), start, at),
    ensures
        export_error(f, at) is None,
        forall|x: ExportedCollision|
            exported(f, at, x) ==> {
                &&& x.ptrs == collision_ptrs(pts, spawns, parts_of(sets), start as u64)
                &&& x.detection@ == parts_of(sets).detections
                &&& x.planes@ == parts_of(sets).planes
                &&& x.connections@ == parts_of(sets).connections
                &&& x.points@ == pts
                &&& x.spawns@ == spawns
            },
{
    let p = parts_of(sets);
    lemma_window_reads(f, start, sets, pts, spawns, at);
    lemma_totals(sets);
    lemma_parts_detections_tight(sets);
    lemma_parts_planes_tight(sets);
    let ld = part_d(pts, p).len() as int;
    lemma_window_points(f, start, pts);
    lemma_window_spawns(f, start + ld, spawns);
    let ds = export_detection(f, at);
    let ps = export_planes(f, at);
    assert(!(exists|k: int| 0 <= k < ds.len() && !detection_ends_fit(#[trigger] ds[k])));
    assert(!(exists|k: int| 0 <= k < ps.len() && #[trigger] ps[k].start + ps[k].length > 0xFFFF));
    assert(export_error(f, at) is None);
    assert forall|x: ExportedCollision| exported(f, at, x) implies {
        &&& x.ptrs == collision_ptrs(pts, spawns, p, start as u64)
        &&& x.detection@ == p.detections
        &&& x.planes@ == p.planes
        &&& x.connections@ == p.connections
        &&& x.points@ == pts
        &&& x.spawns@ == spawns
    } by {
        assert(x.points@ =~= pts);
        assert(x.spawns@ =~= spawns);
    }
}

/// Data written at `pos` is what the buffer then holds at `pos`.
proof fn lemma_write_at_holds(buf: Seq<u8>, pos: int, data: Seq<u8>)
    requires
        0 <= pos,
    ensures
        pos + data.len() <= write_at(buf, pos, data).len(),
        write_at(buf, pos, data).subrange(pos, pos + data.len()) == data,
{
    let w = write_at(buf, pos, data);
    let padded = if pos > buf.len() {
        buf + zero_bytes(pos - buf.len())
    } else {
        buf
    };
    assert(padded.len() >= pos);
    assert(padded.subrange(0, pos).len() == pos);
    assert(w.subrange(pos, pos + data.len()) =~= data);
}

/// What an import with a resource chain writes: the buffer and the linked
/// pointers at the end of the file, after patching the chain's last link.
proof fn lemma_import_shape(file: Seq<u8>, buffer: Seq<u8>, ptrs: ColPtrs, chain: u32)
    ensures
        import_result(file, buffer, ptrs, Some(chain)) matches Ok((f2, w, _, at)) ==> {
            &&& at == ptrs_offset(file, buffer)
            &&& w == pad_to4(buffer) + col_ptrs_bytes(linked_ptrs(ptrs, at))
            &&& exists|patched: Seq<u8>| f2 == write_at(patched, output_start(file), w)
        },
{
    let at = ptrs_offset(file, buffer);
    match chain_end(file, (chain >> 2u32) as u16, 0, CHAIN_STEPS as nat) {
        Ok(ptr) => {
            let patched = write_at(
                file,
                ptr as int,
                u16_bytes((((at + 4) as u32 >> 2u32) & 0xFFFFu32) as u16),
            );
            let w = pad_to4(buffer) + col_ptrs_bytes(linked_ptrs(ptrs, at));
            assert(import_result(file, buffer, ptrs, Some(chain)) == Ok::<
                (Seq<u8>, Seq<u8>, ColPtrs, u32),
                ColError,
            >((write_at(patched, output_start(file), w), w, linked_ptrs(ptrs, at), at)));
        },
        Err(_) => {
            assert(import_result(file, buffer, ptrs, Some(chain)) is Err);
        },
    }
}

/// An import with a resource chain holds its window at the end of the file.
#[verifier::spinoff_prover]
#[verifier::rlimit(40)]
proof fn lemma_import_writes_window(
    file: Seq<u8>,
    chain: u32,
    sets: Seq<SetView>,
    pts: Seq<CollisionPoint>,
    spawns: Seq<Spawn>,
)
    requires
        output_start(file) + round_up(collision_layout(pts, spawns, parts_of(sets)).len() as int, 4)
            + 0x1C <= 0x20000,
    ensures
        ({
            let p = parts_of(sets);
            let buffer = collision_layout(pts, spawns, p);
            let start = output_start(file);
            let ptrs = collision_ptrs(pts, spawns, p, start as u64);
            import_result(file, buffer, ptrs, Some(chain)) matches Ok((f2, _, _, at)) ==> {
                &&& start >= 0
                &&& start % 4 == 0
                &&& at == start + round_up(buffer.len() as int, 4)
                &&& at + 28 <= f2.len()
                &&& f2.subrange(start, at + 28) == import_window(pts, spawns, p, start, at)
            }
        }),
{
    let p = parts_of(sets);
    let buffer = collision_layout(pts, spawns, p);
    let start = output_start(file);
    let ptrs = collision_ptrs(pts, spawns, p, start as u64);
    lemma_import_shape(file, buffer, ptrs, chain);
    if let Ok((f2, w, _, at)) = import_result(file, buffer, ptrs, Some(chain)) {
        let patched = choose|patched: Seq<u8>| f2 == write_at(patched, start, w);
        lemma_pad(buffer);
        assert(start % 8 == 0);
        assert(at == start + round_up(buffer.len() as int, 4));
        lemma_read_ptrs(linked_ptrs(ptrs, at));
        lemma_write_at_holds(patched, start, w);
        assert(at + 28 == start + w.len());
    }
}

/// Collision data imported into a file with a resource pointer chain is read
/// back by an export from the offset of the pointers that the import gives
/// (see `lemma_export_reads_import_window`): the export succeeds and gives
/// back the pointers, the detections, plane infos and connections of the
/// sets, the points and the spawns.
#[verifier::spinoff_prover]
pub proof fn lemma_export_reads_import(
    file: Seq<u8>,
    chain: u32,
    sets: Seq<SetView>,
    pts: Seq<CollisionPoint>,
    spawns: Seq<Spawn>,
    imported: Seq<u8>,
    written: Seq<u8>,
    linked: ColPtrs,
    at: u32,
)
    requires
        readback_ok(sets, pts, spawns),
        output_start(file) + round_up(collision_buffer(pts, spawns, parts_of(sets)).len() as int, 4)
            + 0x1C <= 0x20000,
        import_result(
            file,
            collision_buffer(pts, spawns, parts_of(sets)),
            collision_ptrs(pts, spawns, parts_of(sets), output_start(file) as u64),
            Some(chain),
        ) == Ok::<(Seq<u8>, Seq<u8>, ColPtrs, u32), ColError>((imported, written, linked, at)),
    ensures
        export_error(imported, at) is None,
        forall|x: ExportedCollision|
            exported(imported, at, x) ==> {
                &&& x.ptrs == collision_ptrs(pts, spawns, parts_of(sets), output_start(file) as u64)
                &&& x.detection@ == parts_of(sets).detections
                &&& x.planes@ == parts_of(sets).planes
                &&& x.connections@ == parts_of(sets).connections
                &&& x.points@ == pts
                &&& x.spawns@ == spawns
            },
{
    let p = parts_of(sets);
    let buffer = collision_buffer(pts, spawns, p);
    let layout = collision_layout(pts, spawns, p);
    let ptrs = collision_ptrs(pts, spawns, p, output_start(file) as u64);
    lemma_buffer_pads_to_layout(pts, spawns, p);
    lemma_pad(buffer);
    lemma_pad(layout);
    assert(ptrs_offset(file, buffer) == ptrs_offset(file, layout));
    assert(import_result(file, buffer, ptrs, Some(chain)) == import_result(
        file,
        layout,
        ptrs,
        Some(chain),
    ));
    lemma_import_writes_window(file, chain, sets, pts, spawns);
    lemma_export_reads_import_window(imported, output_start(file), sets, pts, spawns, at);
}

} // verus!
