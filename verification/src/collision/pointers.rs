//! The collision pointers structure of a stage resource file.
use vstd::prelude::*;
use crate::bytes::{push_u16, push_u32, u16_bytes, u32_bytes};
use crate::collision::ColError;

verus! {

/// The seven words at the collision pointer offset of a stage file: the
/// number of collision sets, the offsets of the points, connections, planes
/// and collision detection arrays, the number of spawn points and the offset
/// of the spawn array.
#[derive(Debug, Copy, Clone, PartialEq, Eq, Structural)]
pub struct ColPtrs {
    pub col_count: u16,
    pub points: u32,
    pub connections: u32,
    pub planes: u32,
    pub col_direct: u32,
    pub spawn_count: u16,
    pub spawns: u32,
}

/// A pointer word read as a byte offset: a word with top byte `0x80` is a
/// RAM pointer and kept; otherwise the lower half is a word offset into the
/// resource file.
pub open spec fn spec_cnvrt_res_ptr(input: u32) -> u32 {
    if input / 0x1000000 == 0x80 {
        input
    } else {
        ((input % 0x10000) * 4) as u32
    }
}

/// A resource chain link: the word offset of the next link (or `0xFFFF`) in
/// the upper half, the word offset of `ptr` in the lower half.
pub open spec fn spec_make_res_ptr(next: Option<u32>, ptr: u32) -> u32 {
    let lo = (ptr / 4) % 0x10000;
    match next {
        Some(n) => (((n / 4) % 0x10000) * 0x10000 + lo) as u32,
        None => (0xFFFF * 0x10000 + lo) as u32,
    }
}

fn cnvrt_res_ptr(input: u32) -> (r: u32)
    ensures
        r == spec_cnvrt_res_ptr(input),
{
    // top byte 0x80: probably a pointer from a RAM dump
    if (input >> 24) == 0x80 {
        assert(input >> 24u32 == input / 0x1000000) by (bit_vector);
        input
    } else {
        assert(input >> 24u32 == input / 0x1000000) by (bit_vector);
        assert((input & 0xFFFFu32) << 2u32 == (input % 0x10000) * 4) by (bit_vector);
        // assume a resource file; take the lower half and convert from words to bytes
        (input & 0xFFFF) << 2
    }
}

fn make_res_ptr(next: Option<u32>, ptr: u32) -> (r: u32)
    ensures
        r == spec_make_res_ptr(next, ptr),
{
    // resource pointers are word offsets: u16 next, u16 pointer
    let u16_word_ptr = (ptr >> 2) & 0xFFFF;
    assert((ptr >> 2u32) & 0xFFFFu32 == (ptr / 4) % 0x10000) by (bit_vector);
    match next {
        Some(next_ptr) => {
            let r = (((next_ptr >> 2) & 0xFFFF) << 16) | u16_word_ptr;
            assert((((next_ptr >> 2u32) & 0xFFFFu32) << 16u32) | ((ptr >> 2u32) & 0xFFFFu32) == ((
            (next_ptr / 4) % 0x10000) * 0x10000 + (ptr / 4) % 0x10000) as u32) by (bit_vector);
            r
        },
        None => {
            assert((0xFFFFu32 << 16u32) | ((ptr >> 2u32) & 0xFFFFu32) == (0xFFFF * 0x10000 + (ptr
                / 4) % 0x10000) as u32) by (bit_vector);
            (0xFFFF << 16) | u16_word_ptr
        },
    }
}

pub open spec fn col_ptrs_bytes(p: ColPtrs) -> Seq<u8> {
    u16_bytes(p.col_count) + seq![0u8, 0u8] + u32_bytes(p.points) + u32_bytes(p.connections)
        + u32_bytes(p.planes) + u32_bytes(p.col_direct) + u16_bytes(p.spawn_count) + seq![0u8, 0u8]
        + u32_bytes(p.spawns)
}

impl ColPtrs {
    pub fn from_raw(i: &[u32; 7]) -> (r: Result<Self, ColError>)
        ensures
            i@[0] / 0x10000 == 0 ==> r == Err::<ColPtrs, ColError>(ColError::ZeroCollisionCount),
            i@[0] / 0x10000 != 0 ==> r == Ok::<ColPtrs, ColError>(
                ColPtrs {
                    col_count: (i@[0] / 0x10000) as u16,
                    points: spec_cnvrt_res_ptr(i@[1]),
                    connections: spec_cnvrt_res_ptr(i@[2]),
                    planes: spec_cnvrt_res_ptr(i@[3]),
                    col_direct: spec_cnvrt_res_ptr(i@[4]),
                    spawn_count: (i@[5] / 0x10000) as u16,
                    spawns: spec_cnvrt_res_ptr(i@[6]),
                },
            ),
    {
        let w0 = i[0];
        let w5 = i[5];
        assert(((w0 & 0xFFFF0000u32) >> 16u32) as u16 == w0 / 0x10000) by (bit_vector);
        assert(((w5 & 0xFFFF0000u32) >> 16u32) as u16 == w5 / 0x10000) by (bit_vector);
        let col_count = ((w0 & 0xFFFF0000) >> 16) as u16;
        if col_count == 0 {
            return Err(ColError::ZeroCollisionCount);
        }
        let points = cnvrt_res_ptr(i[1]);
        let connections = cnvrt_res_ptr(i[2]);
        let planes = cnvrt_res_ptr(i[3]);
        let col_direct = cnvrt_res_ptr(i[4]);
        let spawn_count = ((w5 & 0xFFFF0000) >> 16) as u16;
        let spawns = cnvrt_res_ptr(i[6]);
        Ok(ColPtrs { col_count, points, connections, planes, col_direct, spawn_count, spawns })
    }

    pub fn new_null() -> (r: Self)
        ensures
            r == (ColPtrs {
                col_count: 0,
                points: 0,
                connections: 0,
                planes: 0,
                col_direct: 0,
                spawn_count: 0,
                spawns: 0,
            }),
    {
        ColPtrs {
            col_count: 0,
            points: 0,
            connections: 0,
            planes: 0,
            col_direct: 0,
            spawn_count: 0,
            spawns: 0,
        }
    }

    /// The 28 bytes of the structure: each count is followed by two zero bytes.
    pub fn to_bytes(&self) -> (r: Vec<u8>)
        ensures
            r@ == col_ptrs_bytes(*self),
    {
        let mut o: Vec<u8> = Vec::new();
        push_u16(&mut o, self.col_count);
        o.push(0u8);
        o.push(0u8);
        push_u32(&mut o, self.points);
        push_u32(&mut o, self.connections);
        push_u32(&mut o, self.planes);
        push_u32(&mut o, self.col_direct);
        push_u16(&mut o, self.spawn_count);
        o.push(0u8);
        o.push(0u8);
        push_u32(&mut o, self.spawns);
        assert(o@ =~= col_ptrs_bytes(*self));
        o
    }

    /// Turns the pointers into links of a resource pointer chain, the
    /// structure being at `offset`: each pointer links to the next pointer
    /// word of the structure, the last to `next_chain` (or ends the chain).
    pub fn to_resource_pointers(&mut self, offset: u32, next_chain: Option<u32>)
        requires
            offset + 0x18 <= u32::MAX,
        ensures
            final(self).col_count == old(self).col_count,
            final(self).spawn_count == old(self).spawn_count,
            final(self).points == spec_make_res_ptr(Some((offset + 0x8) as u32), old(self).points),
            final(self).connections == spec_make_res_ptr(
                Some((offset + 0xC) as u32),
                old(self).connections,
            ),
            final(self).planes == spec_make_res_ptr(Some((offset + 0x10) as u32), old(self).planes),
            final(self).col_direct == spec_make_res_ptr(
                Some((offset + 0x18) as u32),
                old(self).col_direct,
            ),
            final(self).spawns == spec_make_res_ptr(next_chain, old(self).spawns),
    {
        // the points pointer links to the connections pointer
        let mut next_ptr = offset + 0x8;
        self.points = make_res_ptr(Some(next_ptr), self.points);
        // link to the planes pointer
        next_ptr += 0x4;
        self.connections = make_res_ptr(Some(next_ptr), self.connections);
        // link to the collision detection pointer
        next_ptr += 0x4;
        self.planes = make_res_ptr(Some(next_ptr), self.planes);
        // link to the spawns pointer
        next_ptr += 0x8;
        self.col_direct = make_res_ptr(Some(next_ptr), self.col_direct);
        // the last pointer links to the next chain, if there is one
        self.spawns = make_res_ptr(next_chain, self.spawns);
    }
}

} // verus!
