//! Which planes have collision from which direction, and where a plane's
//! points are.
use vstd::prelude::*;
use crate::bytes::{push_u16, u16_bytes};
use crate::collision::N64Bytes;

verus! {

/// For one collision set, the runs of the plane array that have collision
/// from the top, bottom, right and left: a start index and a count each.
#[derive(Debug, Copy, Clone, PartialEq, Eq, Structural)]
pub struct ColDetection {
    pub id: u16,
    pub top_start: u16,
    pub top_size: u16,
    pub bottom_start: u16,
    pub bottom_size: u16,
    pub right_start: u16,
    pub right_size: u16,
    pub left_start: u16,
    pub left_size: u16,
}

enum Side {
    Top,
    Bottom,
    Right,
    Left,
}

pub open spec fn max_u16(a: int, b: int) -> int {
    if a >= b {
        a
    } else {
        b
    }
}

/// The detection's four runs end inside the range of a `u16`.
pub open spec fn detection_ends_fit(d: ColDetection) -> bool {
    &&& d.top_start + d.top_size <= 0xFFFF
    &&& d.bottom_start + d.bottom_size <= 0xFFFF
    &&& d.right_start + d.right_size <= 0xFFFF
    &&& d.left_start + d.left_size <= 0xFFFF
}

/// The end of the detection's furthest run: the number of planes it needs.
pub open spec fn spec_total_planes(d: ColDetection) -> int {
    max_u16(
        max_u16(d.top_start + d.top_size, d.bottom_start + d.bottom_size),
        max_u16(d.right_start + d.right_size, d.left_start + d.left_size),
    )
}

pub open spec fn detection_bytes(d: ColDetection) -> Seq<u8> {
    u16_bytes(d.id) + u16_bytes(d.top_start) + u16_bytes(d.top_size) + u16_bytes(d.bottom_start)
        + u16_bytes(d.bottom_size) + u16_bytes(d.right_start) + u16_bytes(d.right_size)
        + u16_bytes(d.left_start) + u16_bytes(d.left_size)
}

impl ColDetection {
    pub fn from_raw(raw: &[u16; 9]) -> (r: Self)
        ensures
            r == (ColDetection {
                id: raw@[0],
                top_start: raw@[1],
                top_size: raw@[2],
                bottom_start: raw@[3],
                bottom_size: raw@[4],
                right_start: raw@[5],
                right_size: raw@[6],
                left_start: raw@[7],
                left_size: raw@[8],
            }),
    {
        ColDetection {
            id: raw[0],
            top_start: raw[1],
            top_size: raw[2],
            bottom_start: raw[3],
            bottom_size: raw[4],
            right_start: raw[5],
            right_size: raw[6],
            left_start: raw[7],
            left_size: raw[8],
        }
    }

    /// The number of planes that the detection's runs reach.
    pub fn calc_total_planes(&self) -> (r: u16)
        requires
            detection_ends_fit(*self),
        ensures
            r == spec_total_planes(*self),
    {
        let s = self;
        let a = s.top_start + s.top_size;
        let b = s.bottom_start + s.bottom_size;
        let c = s.right_start + s.right_size;
        let d = s.left_start + s.left_size;
        let ab = if a >= b {
            a
        } else {
            b
        };
        let cd = if c >= d {
            c
        } else {
            d
        };
        if ab >= cd {
            ab
        } else {
            cd
        }
    }

    fn get_directon(&self, direction: Side) -> (r: (u16, u16))
        ensures
            match direction {
                Side::Top => r == (self.top_start, self.top_size),
                Side::Bottom => r == (self.bottom_start, self.bottom_size),
                Side::Right => r == (self.right_start, self.right_size),
                Side::Left => r == (self.left_start, self.left_size),
            },
    {
        let s = self;
        match direction {
            Side::Top => (s.top_start, s.top_size),
            Side::Bottom => (s.bottom_start, s.bottom_size),
            Side::Right => (s.right_start, s.right_size),
            Side::Left => (s.left_start, s.left_size),
        }
    }

    pub fn get_top(&self) -> (r: (u16, u16))
        ensures
            r == (self.top_start, self.top_size),
    {
        self.get_directon(Side::Top)
    }

    pub fn get_bottom(&self) -> (r: (u16, u16))
        ensures
            r == (self.bottom_start, self.bottom_size),
    {
        self.get_directon(Side::Bottom)
    }

    pub fn get_right(&self) -> (r: (u16, u16))
        ensures
            r == (self.right_start, self.right_size),
    {
        self.get_directon(Side::Right)
    }

    pub fn get_left(&self) -> (r: (u16, u16))
        ensures
            r == (self.left_start, self.left_size),
    {
        self.get_directon(Side::Left)
    }

    pub fn get_id(&self) -> (r: u16)
        ensures
            r == self.id,
    {
        self.id
    }
}

impl N64Bytes for ColDetection {
    open spec fn spec_size() -> nat {
        18
    }

    open spec fn n64_bytes(&self) -> Seq<u8> {
        detection_bytes(*self)
    }

    fn size() -> (r: usize) {
        18
    }

    fn to_bytes(&self) -> (r: Vec<u8>) {
        let mut o: Vec<u8> = Vec::new();
        push_u16(&mut o, self.id);
        push_u16(&mut o, self.top_start);
        push_u16(&mut o, self.top_size);
        push_u16(&mut o, self.bottom_start);
        push_u16(&mut o, self.bottom_size);
        push_u16(&mut o, self.right_start);
        push_u16(&mut o, self.right_size);
        push_u16(&mut o, self.left_start);
        push_u16(&mut o, self.left_size);
        assert(o@ =~= detection_bytes(*self));
        o
    }
}

/// An offset and a length into the connections array (itself an array of
/// indices into the collision points array) that define one plane.
#[derive(Debug, Copy, Clone, PartialEq, Eq, Structural)]
pub struct PlaneInfo {
    pub start: u16,
    pub length: u16,
}

impl PlaneInfo {
    pub fn sizeof_struct() -> (r: usize)
        ensures
            r == 4,
    {
        4
    }

    pub fn new(s: u16, l: u16) -> (r: Self)
        ensures
            r == (PlaneInfo { start: s, length: l }),
    {
        PlaneInfo { start: s, length: l }
    }
}

impl N64Bytes for PlaneInfo {
    open spec fn spec_size() -> nat {
        4
    }

    open spec fn n64_bytes(&self) -> Seq<u8> {
        u16_bytes(self.start) + u16_bytes(self.length)
    }

    fn size() -> (r: usize) {
        4
    }

    fn to_bytes(&self) -> (r: Vec<u8>) {
        let mut o: Vec<u8> = Vec::new();
        push_u16(&mut o, self.start);
        push_u16(&mut o, self.length);
        o
    }
}

} // verus!
