//! The SSB64 "stage main" file: the file that points to all other parts of a
//! stage (geometry, collision, background, ...) and holds some general
//! information about the stage. All values are big-endian (N64).
//!
//! The three floating point values of the file (two lighting values and the
//! camera tilt) are held as their raw IEEE-754 bit patterns, so that they are
//! read and written back bit for bit.
use vstd::prelude::*;
use crate::bytes::{
    append_bytes, be_i16, be_u32, i16_bytes, push_i16, push_u32, read_i16_at, read_u32_at,
    u32_bytes,
};
use crate::pointers::{spec_ssb_ptr, spec_ssb_ptr_u32, SSBPtr};

verus! {

/// Size of the part of the stage main file common to all stage files.
pub const MAIN_SIZE: usize = 0xa8;
/// Size of the optional item bytes at the start of a stage file.
pub const ITEM_SIZE: usize = 0x14;

/// Whether a stage file begins with the `0x14` item bytes.
#[derive(Debug, Copy, Clone, PartialEq, Eq, Structural)]
pub enum StageFileKind {
    NoItem,
    Item,
}

/// Why a stage file could not be read.
#[derive(Debug, Clone, PartialEq, Eq, Structural)]
pub enum StageError {
    /// The common stage data was shorter than `0xa8` bytes.
    MainTooShort,
    /// The item data was not `0x14` bytes.
    ItemBytesWrongSize,
    /// The background music word names no known track.
    UnknownMusic(u32),
    /// The kind of the file could not be told from its size and pointers.
    IndeterminateKind { size: usize, ptr_84: u32, ptr_9c: u32 },
}

/// A 32 bit color, held and written as RGBA8888.
#[derive(Debug, Copy, Clone, PartialEq, Eq, Structural)]
pub struct Color {
    pub r: u8,
    pub g: u8,
    pub b: u8,
    pub a: u8,
}

pub open spec fn spec_color(val: u32) -> Color {
    Color { r: (val >> 24u32) as u8, g: (val >> 16u32) as u8, b: (val >> 8u32) as u8, a: val as u8 }
}

pub open spec fn color_bytes(c: Color) -> Seq<u8> {
    seq![c.r, c.g, c.b, c.a]
}

/// A color read from four big-endian bytes has those bytes as its red,
/// green, blue and alpha, in that order.
pub proof fn lemma_color_from_bytes(bs: Seq<u8>, pos: int)
    requires
        0 <= pos,
        pos + 4 <= bs.len(),
    ensures
        spec_color(be_u32(bs, pos)) == (Color { r: bs[pos], g: bs[pos + 1], b: bs[pos + 2], a: bs[pos + 3] }),
{
    let b0 = bs[pos];
    let b1 = bs[pos + 1];
    let b2 = bs[pos + 2];
    let b3 = bs[pos + 3];
    let v = be_u32(bs, pos);
    assert(v == ((b0 as u32) << 24u32) | ((b1 as u32) << 16u32) | ((b2 as u32) << 8u32) | (b3 as u32));
    assert(((((b0 as u32) << 24u32) | ((b1 as u32) << 16u32) | ((b2 as u32) << 8u32) | (b3 as u32))
        >> 24u32) as u8 == b0) by (bit_vector);
    assert(((((b0 as u32) << 24u32) | ((b1 as u32) << 16u32) | ((b2 as u32) << 8u32) | (b3 as u32))
        >> 16u32) as u8 == b1) by (bit_vector);
    assert(((((b0 as u32) << 24u32) | ((b1 as u32) << 16u32) | ((b2 as u32) << 8u32) | (b3 as u32))
        >> 8u32) as u8 == b2) by (bit_vector);
    assert((((b0 as u32) << 24u32) | ((b1 as u32) << 16u32) | ((b2 as u32) << 8u32) | (b3 as u32))
        as u8 == b3) by (bit_vector);
}

/// A color read from a word has the word's big-endian bytes as its red,
/// green, blue and alpha, in that order.
pub proof fn lemma_color_of_word(v: u32)
    ensures
        spec_color(v) == (Color {
            r: u32_bytes(v)[0],
            g: u32_bytes(v)[1],
            b: u32_bytes(v)[2],
            a: u32_bytes(v)[3],
        }),
{
}

/// A color is written as four bytes that read back as the same color (so,
/// by `lemma_color_from_bytes`, its red, green, blue and alpha in order).
pub proof fn lemma_color_bytes_read_back(c: Color)
    ensures
        color_bytes(c).len() == 4,
        spec_color(be_u32(color_bytes(c), 0)) == c,
{
    lemma_color_from_bytes(color_bytes(c), 0);
    assert(color_bytes(c) =~= seq![c.r, c.g, c.b, c.a]);
}

impl Color {
    pub fn as_bytes(&self) -> (r: [u8; 4])
        ensures
            r@ == color_bytes(*self),
    {
        let r = [self.r, self.g, self.b, self.a];
        assert(r@ =~= color_bytes(*self));
        r
    }

    pub fn from_u32(val: u32) -> (c: Self)
        ensures
            c == spec_color(val),
    {
        let r = (val >> 24) as u8;
        let g = ((val & 0x00FF0000) >> 16) as u8;
        let b = ((val & 0x0000FF00) >> 8) as u8;
        let a = (val & 0x000000FF) as u8;
        assert(((val & 0x00FF0000u32) >> 16u32) as u8 == (val >> 16u32) as u8) by (bit_vector);
        assert(((val & 0x0000FF00u32) >> 8u32) as u8 == (val >> 8u32) as u8) by (bit_vector);
        assert((val & 0x000000FFu32) as u8 == val as u8) by (bit_vector);
        Color { r, g, b, a }
    }
}

/// The +Y, -Y, +X, -X limits of a box.
#[derive(Debug, Copy, Clone, PartialEq, Eq, Structural)]
pub struct Bounds {
    pub top: i16,
    pub bottom: i16,
    pub right: i16,
    pub left: i16,
}

pub open spec fn bounds_bytes(b: Bounds) -> Seq<u8> {
    i16_bytes(b.top) + i16_bytes(b.bottom) + i16_bytes(b.right) + i16_bytes(b.left)
}

/// The bounds held in the four big-endian `i16`s at `pos`.
pub open spec fn spec_bounds(b: Seq<u8>, pos: int) -> Bounds {
    Bounds {
        top: be_i16(b, pos),
        bottom: be_i16(b, pos + 2),
        right: be_i16(b, pos + 4),
        left: be_i16(b, pos + 6),
    }
}

impl Bounds {
    pub fn from_i16_arr(input: &[i16; 4]) -> (r: Self)
        ensures
            r == (Bounds { top: input@[0], bottom: input@[1], right: input@[2], left: input@[3] }),
    {
        Bounds { top: input[0], bottom: input[1], right: input[2], left: input[3] }
    }

    pub fn as_bytes(&self) -> (r: Vec<u8>)
        ensures
            r@ == bounds_bytes(*self),
    {
        let mut o: Vec<u8> = Vec::new();
        push_i16(&mut o, self.top);
        push_i16(&mut o, self.bottom);
        push_i16(&mut o, self.right);
        push_i16(&mut o, self.left);
        assert(o@ =~= bounds_bytes(*self));
        o
    }
}

/// The normal blastzones (used for human players at all times) and the 1P
/// mode CPU blastzones.
#[derive(Debug, Copy, Clone, PartialEq, Eq, Structural)]
pub struct BlastZones {
    pub regular: Bounds,
    pub cpu_1p: Bounds,
}

impl BlastZones {
    pub fn from_bounds(regular: Bounds, cpu_1p: Bounds) -> (r: Self)
        ensures
            r == (BlastZones { regular, cpu_1p }),
    {
        BlastZones { regular, cpu_1p }
    }

    pub fn as_bytes(&self) -> (r: (Vec<u8>, Vec<u8>))
        ensures
            r.0@ == bounds_bytes(self.regular),
            r.1@ == bounds_bytes(self.cpu_1p),
    {
        (self.regular.as_bytes(), self.cpu_1p.as_bytes())
    }
}

/// The camera frame bounding boxes for VS and 1P game modes.
#[derive(Debug, Copy, Clone, PartialEq, Eq, Structural)]
pub struct CameraBox {
    pub versus: Bounds,
    pub one_player: Bounds,
}

impl CameraBox {
    pub fn from_bounds(versus: Bounds, one_player: Bounds) -> (r: Self)
        ensures
            r == (CameraBox { versus, one_player }),
    {
        CameraBox { versus, one_player }
    }

    pub fn as_bytes(&self) -> (r: (Vec<u8>, Vec<u8>))
        ensures
            r.0@ == bounds_bytes(self.versus),
            r.1@ == bounds_bytes(self.one_player),
    {
        (self.versus.as_bytes(), self.one_player.as_bytes())
    }
}

/// The "zoomed-out" camera of the 1P bonus games. The pan values come in two;
/// where the second equals the first it is held as `None`.
#[derive(Debug, Copy, Clone, PartialEq, Eq, Structural)]
pub struct BonusPauseCamera {
    pub x_pan1: i16,
    pub x_pan2: Option<i16>,
    pub y_pan1: i16,
    pub y_pan2: Option<i16>,
    pub bg_zoom: i16,
    pub zoom: i16,
}

pub open spec fn spec_bonus_camera(a: Seq<i16>) -> BonusPauseCamera {
    BonusPauseCamera {
        x_pan1: a[0],
        x_pan2: if a[3] == a[0] { None } else { Some(a[3]) },
        y_pan1: a[1],
        y_pan2: if a[4] == a[1] { None } else { Some(a[4]) },
        bg_zoom: a[2],
        zoom: a[5],
    }
}

pub open spec fn bonus_camera_bytes(c: BonusPauseCamera) -> Seq<u8> {
    let x2 = match c.x_pan2 { Some(p) => p, None => c.x_pan1 };
    let y2 = match c.y_pan2 { Some(p) => p, None => c.y_pan1 };
    i16_bytes(c.x_pan1) + i16_bytes(c.y_pan1) + i16_bytes(c.bg_zoom) + i16_bytes(x2)
        + i16_bytes(y2) + i16_bytes(c.zoom)
}

impl BonusPauseCamera {
    /// From the six `i16`s in the order of the file.
    pub fn from_i16_arr(input: &[i16; 6]) -> (r: Self)
        ensures
            r == spec_bonus_camera(input@),
    {
        let x_pan1 = input[0];
        let x_pan2 = input[3];
        let x_pan2 = if x_pan1 == x_pan2 { None } else { Some(x_pan2) };
        let y_pan1 = input[1];
        let y_pan2 = input[4];
        let y_pan2 = if y_pan1 == y_pan2 { None } else { Some(y_pan2) };
        BonusPauseCamera { x_pan1, y_pan1, bg_zoom: input[2], x_pan2, y_pan2, zoom: input[5] }
    }

    pub fn as_bytes(&self) -> (r: Vec<u8>)
        ensures
            r@ == bonus_camera_bytes(*self),
    {
        let x_pan2 = if let Some(pan) = self.x_pan2 { pan } else { self.x_pan1 };
        let y_pan2 = if let Some(pan) = self.y_pan2 { pan } else { self.y_pan1 };
        let mut o: Vec<u8> = Vec::new();
        push_i16(&mut o, self.x_pan1);
        push_i16(&mut o, self.y_pan1);
        push_i16(&mut o, self.bg_zoom);
        push_i16(&mut o, x_pan2);
        push_i16(&mut o, y_pan2);
        push_i16(&mut o, self.zoom);
        assert(o@ =~= bonus_camera_bytes(*self));
        o
    }
}

/// The four pointers of one stage geometry set.
#[derive(Debug, Copy, Clone, PartialEq, Eq, Structural)]
pub struct StageGeo {
    pub geometry_ptr: SSBPtr,
    pub move_script_ptr: SSBPtr,
    pub colored_ptr: SSBPtr,
    pub colored_script_ptr: SSBPtr,
}

pub open spec fn spec_stage_geo(a: Seq<u32>) -> StageGeo {
    StageGeo {
        geometry_ptr: spec_ssb_ptr(a[0]),
        move_script_ptr: spec_ssb_ptr(a[1]),
        colored_ptr: spec_ssb_ptr(a[2]),
        colored_script_ptr: spec_ssb_ptr(a[3]),
    }
}

pub open spec fn stage_geo_bytes(g: StageGeo) -> Seq<u8> {
    u32_bytes(spec_ssb_ptr_u32(g.geometry_ptr)) + u32_bytes(spec_ssb_ptr_u32(g.move_script_ptr))
        + u32_bytes(spec_ssb_ptr_u32(g.colored_ptr)) + u32_bytes(
        spec_ssb_ptr_u32(g.colored_script_ptr),
    )
}

impl StageGeo {
    pub fn from_u32s(input: &[u32; 4]) -> (r: Self)
        ensures
            r == spec_stage_geo(input@),
    {
        StageGeo {
            geometry_ptr: SSBPtr::from_u32(input[0]),
            move_script_ptr: SSBPtr::from_u32(input[1]),
            colored_ptr: SSBPtr::from_u32(input[2]),
            colored_script_ptr: SSBPtr::from_u32(input[3]),
        }
    }

    pub fn as_bytes(&self) -> (r: Vec<u8>)
        ensures
            r@ == stage_geo_bytes(*self),
    {
        let mut o: Vec<u8> = Vec::new();
        push_u32(&mut o, self.geometry_ptr.as_u32());
        push_u32(&mut o, self.move_script_ptr.as_u32());
        push_u32(&mut o, self.colored_ptr.as_u32());
        push_u32(&mut o, self.colored_script_ptr.as_u32());
        assert(o@ =~= stage_geo_bytes(*self));
        o
    }
}

} // verus!
