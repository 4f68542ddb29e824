//! The big-endian collision buffer written into a stage resource file.
use vstd::prelude::*;
use crate::bytes::{push_u16, u16_bytes};
use crate::collision::cursor::{
    align_cursor, round_up, write_at, write_part, zero_bytes, ByteCursor,
};
use crate::collision::formatted::{
    in_key_order, parts_of, sets_view, total_planes, FormattedCollision, PartsView,
};
use crate::collision::point::CollisionPoint;
use crate::collision::pointers::ColPtrs;
use crate::collision::spawn::Spawn;
use crate::collision::N64Bytes;

verus! {

/// The bytes of the values, one after the other.
pub open spec fn flat_bytes<T: N64Bytes>(s: Seq<T>) -> Seq<u8>
    decreases s.len(),
{
    if s.len() == 0 {
        Seq::empty()
    } else {
        flat_bytes(s.drop_last()) + s.last().n64_bytes()
    }
}

/// The big-endian bytes of the `u16`s, one after the other.
pub open spec fn u16s_bytes(s: Seq<u16>) -> Seq<u8>
    decreases s.len(),
{
    if s.len() == 0 {
        Seq::empty()
    } else {
        u16s_bytes(s.drop_last()) + u16_bytes(s.last())
    }
}

/// `s` followed by zeros up to a multiple of four bytes.
pub open spec fn pad_to4(s: Seq<u8>) -> Seq<u8> {
    s + zero_bytes(round_up(s.len() as int, 4) - s.len())
}

/// The layout of the collision data: points, then connections, plane infos,
/// detections and spawns, each part starting at a multiple of four bytes.
#[verifier::opaque]
pub open spec fn collision_layout(pts: Seq<CollisionPoint>, spawns: Seq<Spawn>, p: PartsView) -> Seq<
    u8,
> {
    let a = pad_to4(flat_bytes(pts));
    let b = pad_to4(a + u16s_bytes(p.connections));
    let c = pad_to4(b + flat_bytes(p.planes));
    let d = pad_to4(c + flat_bytes(p.detections));
    d + flat_bytes(spawns)
}

/// The collision buffer as written: each part of the layout written at its
/// offset in turn, where a part with no bytes writes nothing, so that the
/// buffer ends with the last part that has bytes.
#[verifier::opaque]
pub open spec fn collision_buffer(pts: Seq<CollisionPoint>, spawns: Seq<Spawn>, p: PartsView) -> Seq<
    u8,
> {
    let a = pad_to4(flat_bytes(pts));
    let b = pad_to4(a + u16s_bytes(p.connections));
    let c = pad_to4(b + flat_bytes(p.planes));
    let d = pad_to4(c + flat_bytes(p.detections));
    write_part(
        write_part(
            write_part(
                write_part(flat_bytes(pts), a.len() as int, u16s_bytes(p.connections)),
                b.len() as int,
                flat_bytes(p.planes),
            ),
            c.len() as int,
            flat_bytes(p.detections),
        ),
        d.len() as int,
        flat_bytes(spawns),
    )
}

/// A part written after a buffer that pads like the layout so far pads like
/// the layout with the part.
proof fn lemma_part_step(c: Seq<u8>, l: Seq<u8>, x: Seq<u8>)
    requires
        pad_to4(c) == pad_to4(l),
        c.len() <= l.len(),
    ensures
        pad_to4(write_part(c, pad_to4(l).len() as int, x)) == pad_to4(pad_to4(l) + x),
        write_part(c, pad_to4(l).len() as int, x).len() <= (pad_to4(l) + x).len(),
{
    lemma_write_aligned(c, x);
    lemma_write_aligned(l, Seq::empty());
    lemma_write_aligned(pad_to4(l), Seq::empty());
    assert(pad_to4(l).len() % 4 == 0) by {
        let n = l.len() as int;
        assert(round_up(n, 4) % 4 == 0);
    }
    assert(zero_bytes(0) =~= Seq::<u8>::empty());
    assert(pad_to4(pad_to4(l)) =~= pad_to4(l));
    if x.len() == 0 {
        assert(pad_to4(l) + x =~= pad_to4(l));
    }
}

/// The buffer as written pads to the padded layout, and is no longer than
/// the layout.
pub proof fn lemma_buffer_pads_to_layout(pts: Seq<CollisionPoint>, spawns: Seq<Spawn>, p: PartsView)
    ensures
        pad_to4(collision_buffer(pts, spawns, p)) == pad_to4(collision_layout(pts, spawns, p)),
        collision_buffer(pts, spawns, p).len() <= collision_layout(pts, spawns, p).len(),
{
    reveal(collision_buffer);
    reveal(collision_layout);
    let l0 = flat_bytes(pts);
    let a = pad_to4(l0);
    let l1 = a + u16s_bytes(p.connections);
    let b = pad_to4(l1);
    let l2 = b + flat_bytes(p.planes);
    let c = pad_to4(l2);
    let l3 = c + flat_bytes(p.detections);
    let d = pad_to4(l3);
    let c1 = write_part(l0, a.len() as int, u16s_bytes(p.connections));
    let c2 = write_part(c1, b.len() as int, flat_bytes(p.planes));
    let c3 = write_part(c2, c.len() as int, flat_bytes(p.detections));
    lemma_part_step(l0, l0, u16s_bytes(p.connections));
    lemma_part_step(c1, l1, flat_bytes(p.planes));
    lemma_part_step(c2, l2, flat_bytes(p.detections));
    lemma_part_step(c3, l3, flat_bytes(spawns));
}

/// The collision pointers to the parts of the buffer, the buffer being at
/// `offset` in the file (offsets as `u32`s).
#[verifier::opaque]
pub open spec fn collision_ptrs(
    pts: Seq<CollisionPoint>,
    spawns: Seq<Spawn>,
    p: PartsView,
    offset: u64,
) -> ColPtrs {
    let a = pad_to4(flat_bytes(pts));
    let b = pad_to4(a + u16s_bytes(p.connections));
    let c = pad_to4(b + flat_bytes(p.planes));
    let d = pad_to4(c + flat_bytes(p.detections));
    ColPtrs {
        col_count: p.detections.len() as u16,
        points: offset as u32,
        connections: (offset + a.len()) as u32,
        planes: (offset + b.len()) as u32,
        col_direct: (offset + c.len()) as u32,
        spawn_count: spawns.len() as u16,
        spawns: (offset + d.len()) as u32,
    }
}

/// The bytes of the values, one after the other.
pub fn flatten_collision_slice<T: N64Bytes>(input: &[T]) -> (r: Vec<u8>)
    ensures
        r@ == flat_bytes(input@),
{
    let mut output: Vec<u8> = Vec::new();
    let mut i: usize = 0;
    while i < input.len()
        invariant
            i <= input@.len(),
            output@ == flat_bytes(input@.subrange(0, i as int)),
        decreases input@.len() - i,
    {
        let bytes = input[i].to_bytes();
        let mut k: usize = 0;
        let ghost before = output@;
        while k < bytes.len()
            invariant
                k <= bytes@.len(),
                output@ == before + bytes@.subrange(0, k as int),
            decreases bytes@.len() - k,
        {
            output.push(bytes[k]);
            k = k + 1;
            assert(output@ =~= before + bytes@.subrange(0, k as int));
        }
        assert(bytes@.subrange(0, k as int) =~= bytes@);
        i = i + 1;
        assert(input@.subrange(0, i as int).drop_last() =~= input@.subrange(0, i - 1));
    }
    assert(input@.subrange(0, i as int) =~= input@);
    output
}

fn connection_bytes(input: &[u16]) -> (r: Vec<u8>)
    ensures
        r@ == u16s_bytes(input@),
{
    let mut output: Vec<u8> = Vec::new();
    let mut i: usize = 0;
    while i < input.len()
        invariant
            i <= input@.len(),
            output@ == u16s_bytes(input@.subrange(0, i as int)),
        decreases input@.len() - i,
    {
        push_u16(&mut output, input[i]);
        i = i + 1;
        assert(input@.subrange(0, i as int).drop_last() =~= input@.subrange(0, i - 1));
    }
    assert(input@.subrange(0, i as int) =~= input@);
    output
}

/// Writing at the end of the buffer rounded up to four bytes is padding the
/// buffer and appending.
pub(crate) proof fn lemma_write_aligned(buf: Seq<u8>, data: Seq<u8>)
    ensures
        round_up(buf.len() as int, 4) >= buf.len(),
        write_at(buf, round_up(buf.len() as int, 4), data) == pad_to4(buf) + data,
        pad_to4(buf).len() == round_up(buf.len() as int, 4),
{
    let n = buf.len() as int;
    let p = round_up(n, 4);
    assert(n <= p < n + 4) by (nonlinear_arith)
        requires
            n >= 0,
            p == (if n % 4 == 0 {
                n
            } else {
                n + (4 - n % 4)
            }),
    ;
    assert(write_at(buf, p, data) =~= pad_to4(buf) + data);
}

/// Lays the collision data out as a buffer to be written at `offset` of a
/// file; returns the buffer, the collision pointers to its parts and the
/// offset of its end.
pub fn generate_buffer(collision: &FormattedCollision, offset: u64) -> (r: (Vec<u8>, ColPtrs, u64))
    requires
        total_planes(sets_view(collision.collision@)) <= 0xFFFF,
        forall|pts: Seq<CollisionPoint>|
            in_key_order(pts, collision.points@) ==> {
                let len = collision_layout(
                    pts,
                    collision.spawns@,
                    parts_of(sets_view(collision.collision@)),
                ).len();
                &&& offset + len <= u64::MAX
                &&& len + 4 <= usize::MAX
            },
    ensures
        exists|pts: Seq<CollisionPoint>|
            {
                &&& in_key_order(pts, collision.points@)
                &&& r.0@ == collision_buffer(
                    pts,
                    collision.spawns@,
                    parts_of(sets_view(collision.collision@)),
                )
                &&& r.1 == collision_ptrs(
                    pts,
                    collision.spawns@,
                    parts_of(sets_view(collision.collision@)),
                    offset,
                )
            },
        exists|pts: Seq<CollisionPoint>|
            {
                &&& in_key_order(pts, collision.points@)
                &&& r.2 == (offset + collision_layout(
                    pts,
                    collision.spawns@,
                    parts_of(sets_view(collision.collision@)),
                ).len()) as u64
            },
{
    // break the collision data into its file parts
    let (col_points, spawn_points, plane_info, point_connections, col_directions) =
        collision.to_parts();
    let ghost p = parts_of(sets_view(collision.collision@));
    let ghost pts = col_points@;
    let points_bytes = flatten_collision_slice(col_points.as_slice());
    let connect_bytes = connection_bytes(point_connections.as_slice());
    let pi_bytes = flatten_collision_slice(plane_info.as_slice());
    let detect_bytes = flatten_collision_slice(col_directions.as_slice());
    let spawn_bytes = flatten_collision_slice(spawn_points);
    let ghost a = pad_to4(points_bytes@);
    let ghost b = pad_to4(a + connect_bytes@);
    let ghost c = pad_to4(b + pi_bytes@);
    let ghost d = pad_to4(c + detect_bytes@);
    proof {
        lemma_write_aligned(points_bytes@, connect_bytes@);
        lemma_write_aligned(a + connect_bytes@, pi_bytes@);
        lemma_write_aligned(b + pi_bytes@, detect_bytes@);
        lemma_write_aligned(c + detect_bytes@, spawn_bytes@);
        reveal(collision_buffer);
        reveal(collision_layout);
        reveal(collision_ptrs);
        assert(collision_layout(pts, collision.spawns@, p) == d + spawn_bytes@);
    }
    // put the parts in one buffer, each part word aligned
    let mut cbuf = ByteCursor::new(Vec::new());
    let mut ptrs = ColPtrs::new_null();
    ptrs.col_count = col_directions.len() as u16;
    ptrs.spawn_count = spawn_points.len() as u16;
    // the buffer starts at 0, so it is aligned
    ptrs.points = offset as u32;
    cbuf.write_all(points_bytes.as_slice());
    assert(cbuf.buf@ =~= points_bytes@);
    // word align, add to the offset, and write the connections
    ptrs.connections = (offset + align_cursor(&mut cbuf, 4) as u64) as u32;
    cbuf.write_all(connect_bytes.as_slice());
    // word align and write the plane infos
    ptrs.planes = (offset + align_cursor(&mut cbuf, 4) as u64) as u32;
    cbuf.write_all(pi_bytes.as_slice());
    // word align and write the collision detections
    ptrs.col_direct = (offset + align_cursor(&mut cbuf, 4) as u64) as u32;
    cbuf.write_all(detect_bytes.as_slice());
    // word align and write the spawn points
    ptrs.spawns = (offset + align_cursor(&mut cbuf, 4) as u64) as u32;
    cbuf.write_all(spawn_bytes.as_slice());
    let final_position = offset + cbuf.pos as u64;
    (cbuf.buf, ptrs, final_position)
}

} // verus!
