//! Collision points: an (x, y) point of a collision plane with its property
//! flags and floor type.
use vstd::prelude::*;
use crate::bytes::{i16_bytes, push_i16};
use crate::collision::kinds::{spec_floor_bits, spec_floor_bits_known, Floor};
use crate::collision::{ColError, N64Bytes};
use crate::text::{append_chars, chars_to_string, contains_chars, has_sub, occurs_at, str_chars};

verus! {

/// The property flags of a collision point: `LEDGE_GRAB` (`0x80`) and
/// `FALL_THRU` (`0x40`); no other bit may be set.
#[derive(Debug, Copy, Clone, PartialEq, Eq, Structural)]
pub struct ColProp {
    bits: u8,
}

pub const LEDGE_GRAB: u8 = 0x80;
pub const FALL_THRU: u8 = 0x40;

/// Whether `bits` holds only known flags.
pub open spec fn col_prop_valid(bits: u8) -> bool {
    bits & !0xC0u8 == 0
}

impl ColProp {
    pub closed spec fn spec_bits(&self) -> u8 {
        self.bits
    }

    #[verifier::type_invariant]
    closed spec fn inv(&self) -> bool {
        col_prop_valid(self.bits)
    }

    /// The flags in `bits`, unless `bits` holds an unknown flag.
    pub fn from_bits(bits: u8) -> (r: Option<Self>)
        ensures
            r is Some <==> col_prop_valid(bits),
            r matches Some(p) ==> p.spec_bits() == bits,
    {
        if bits & !0xC0u8 == 0 {
            Some(ColProp { bits })
        } else {
            None
        }
    }

    /// No flags set.
    pub fn empty() -> (r: Self)
        ensures
            r.spec_bits() == 0,
    {
        assert(0u8 & !0xC0u8 == 0) by (bit_vector);
        ColProp { bits: 0 }
    }

    pub fn bits(&self) -> (r: u8)
        ensures
            r == self.spec_bits(),
            col_prop_valid(r),
    {
        proof {
            use_type_invariant(self);
        }
        self.bits
    }
}

/// `ledge-grab`, the name of the flag in the collision JSON format.
pub open spec fn ledge_grab_name() -> Seq<char> {
    seq!['l', 'e', 'd', 'g', 'e', '-', 'g', 'r', 'a', 'b']
}

/// `fall-thru`, the name of the flag in the collision JSON format.
pub open spec fn fall_thru_name() -> Seq<char> {
    seq!['f', 'a', 'l', 'l', '-', 't', 'h', 'r', 'u']
}

/// `normal`, the name of no flag in the collision JSON format.
pub open spec fn normal_name() -> Seq<char> {
    seq!['n', 'o', 'r', 'm', 'a', 'l']
}

/// The spellings that name the ledge-grab flag: `ledge-grab`, `ledge_grab`
/// and `LEDGE_GRAB`.
pub open spec fn names_ledge_grab(v: Seq<char>) -> bool {
    ||| has_sub(v, ledge_grab_name())
    ||| has_sub(v, seq!['l', 'e', 'd', 'g', 'e', '_', 'g', 'r', 'a', 'b'])
    ||| has_sub(v, seq!['L', 'E', 'D', 'G', 'E', '_', 'G', 'R', 'A', 'B'])
}

/// The spellings that name the fall-through flag: `fall-thru`, `fall_thru`
/// and `FALL_THRU`.
pub open spec fn names_fall_thru(v: Seq<char>) -> bool {
    ||| has_sub(v, fall_thru_name())
    ||| has_sub(v, seq!['f', 'a', 'l', 'l', '_', 't', 'h', 'r', 'u'])
    ||| has_sub(v, seq!['F', 'A', 'L', 'L', '_', 'T', 'H', 'R', 'U'])
}

/// The spellings of no flag: `normal` and `NORMAL`.
pub open spec fn names_normal(v: Seq<char>) -> bool {
    ||| has_sub(v, normal_name())
    ||| has_sub(v, seq!['N', 'O', 'R', 'M', 'A', 'L'])
}

/// The name of the flags in a collision JSON file: the names of the flags
/// set, joined by ` | `, or `normal` where none is.
pub open spec fn col_prop_name(bits: u8) -> Seq<char> {
    if bits == 0x40 {
        fall_thru_name()
    } else if bits == 0x80 {
        ledge_grab_name()
    } else if bits == 0xC0 {
        ledge_grab_name() + seq![' ', '|', ' '] + fall_thru_name()
    } else {
        normal_name()
    }
}

/// The flags that a collision JSON string names: those whose names it
/// holds, or none where it holds neither name but holds `normal`.
pub open spec fn col_prop_from_name(v: Seq<char>) -> Option<u8> {
    let ledge = names_ledge_grab(v);
    let fall = names_fall_thru(v);
    if ledge && fall {
        Some(0xC0u8)
    } else if ledge {
        Some(0x80u8)
    } else if fall {
        Some(0x40u8)
    } else if names_normal(v) {
        Some(0u8)
    } else {
        None
    }
}

/// Whether the characters hold one of the words.
fn holds_any(chars: &[char], a: &[char], b: &[char], c: &[char]) -> (r: bool)
    ensures
        r == (has_sub(chars@, a@) || has_sub(chars@, b@) || has_sub(chars@, c@)),
{
    contains_chars(chars, a) || contains_chars(chars, b) || contains_chars(chars, c)
}

impl ColProp {
    /// The name of the flags in a collision JSON file.
    pub fn name(&self) -> (r: String)
        ensures
            r@ == col_prop_name(self.spec_bits()),
    {
        let b = self.bits();
        let ledge = ['l', 'e', 'd', 'g', 'e', '-', 'g', 'r', 'a', 'b'];
        let fall = ['f', 'a', 'l', 'l', '-', 't', 'h', 'r', 'u'];
        assert(ledge@ =~= ledge_grab_name());
        assert(fall@ =~= fall_thru_name());
        if b == 0x40 {
            chars_to_string(&fall)
        } else if b == 0x80 {
            chars_to_string(&ledge)
        } else if b == 0xC0 {
            let mut both: Vec<char> = Vec::new();
            append_chars(&mut both, &ledge);
            let bar = [' ', '|', ' '];
            append_chars(&mut both, &bar);
            append_chars(&mut both, &fall);
            assert(both@ =~= col_prop_name(b));
            chars_to_string(both.as_slice())
        } else {
            let normal = ['n', 'o', 'r', 'm', 'a', 'l'];
            assert(normal@ =~= normal_name());
            chars_to_string(&normal)
        }
    }

    /// The flags that a collision JSON string names, if it names any (see
    /// `col_prop_from_name`).
    pub fn from_name(v: &str) -> (r: Option<ColProp>)
        ensures
            match col_prop_from_name(v@) {
                Some(b) => r matches Some(p) && p.spec_bits() == b,
                None => r is None,
            },
    {
        let chars = str_chars(v);
        let ledge_1 = ['l', 'e', 'd', 'g', 'e', '-', 'g', 'r', 'a', 'b'];
        let ledge_2 = ['l', 'e', 'd', 'g', 'e', '_', 'g', 'r', 'a', 'b'];
        let ledge_3 = ['L', 'E', 'D', 'G', 'E', '_', 'G', 'R', 'A', 'B'];
        let fall_1 = ['f', 'a', 'l', 'l', '-', 't', 'h', 'r', 'u'];
        let fall_2 = ['f', 'a', 'l', 'l', '_', 't', 'h', 'r', 'u'];
        let fall_3 = ['F', 'A', 'L', 'L', '_', 'T', 'H', 'R', 'U'];
        let normal_1 = ['n', 'o', 'r', 'm', 'a', 'l'];
        let normal_2 = ['N', 'O', 'R', 'M', 'A', 'L'];
        assert(ledge_1@ =~= ledge_grab_name());
        assert(ledge_2@ =~= seq!['l', 'e', 'd', 'g', 'e', '_', 'g', 'r', 'a', 'b']);
        assert(ledge_3@ =~= seq!['L', 'E', 'D', 'G', 'E', '_', 'G', 'R', 'A', 'B']);
        assert(fall_1@ =~= fall_thru_name());
        assert(fall_2@ =~= seq!['f', 'a', 'l', 'l', '_', 't', 'h', 'r', 'u']);
        assert(fall_3@ =~= seq!['F', 'A', 'L', 'L', '_', 'T', 'H', 'R', 'U']);
        assert(normal_1@ =~= normal_name());
        assert(normal_2@ =~= seq!['N', 'O', 'R', 'M', 'A', 'L']);
        let ledge = holds_any(chars.as_slice(), &ledge_1, &ledge_2, &ledge_3);
        let fall = holds_any(chars.as_slice(), &fall_1, &fall_2, &fall_3);
        let norm = contains_chars(chars.as_slice(), &normal_1) || contains_chars(
            chars.as_slice(),
            &normal_2,
        );
        assert(0xC0u8 & !0xC0u8 == 0 && 0x80u8 & !0xC0u8 == 0 && 0x40u8 & !0xC0u8 == 0)
            by (bit_vector);
        if ledge && fall {
            let both: u8 = LEDGE_GRAB | FALL_THRU;
            assert(both == 0xC0u8) by (bit_vector)
                requires
                    both == 0x80u8 | 0x40u8,
            ;
            Some(ColProp { bits: both })
        } else if ledge && !fall {
            Some(ColProp { bits: LEDGE_GRAB })
        } else if fall && !ledge {
            Some(ColProp { bits: FALL_THRU })
        } else if norm {
            Some(ColProp::empty())
        } else {
            None
        }
    }
}

/// Flags are their bits: two with the same bits are the same.
pub proof fn lemma_col_prop_bits_eq(a: ColProp, b: ColProp)
    ensures
        a.spec_bits() == b.spec_bits() ==> a == b,
{
}

proof fn lemma_has_self(x: Seq<char>)
    ensures
        has_sub(x, x),
{
    assert(x.subrange(0, x.len() as int) =~= x);
    assert(occurs_at(x, x, 0));
}

/// A needle whose first character is at no place of the haystack where it
/// could start does not occur in it.
proof fn lemma_not_sub(hay: Seq<char>, needle: Seq<char>)
    requires
        needle.len() > 0,
        forall|i: int| 0 <= i <= hay.len() - needle.len() ==> hay[i] != needle[0],
    ensures
        !has_sub(hay, needle),
{
    assert forall|i: int| 0 <= i <= hay.len() - needle.len() implies !occurs_at(hay, needle, i) by {
        assert(hay.subrange(i, i + needle.len())[0] == hay[i]);
    }
}

/// Flags written under their name in a collision JSON file read back as the
/// same flags.
pub proof fn lemma_col_prop_name_roundtrip(bits: u8)
    requires
        col_prop_valid(bits),
    ensures
        col_prop_from_name(col_prop_name(bits)) == Some(bits),
{
    assert(bits & !0xC0u8 == 0 ==> bits == 0 || bits == 0x40 || bits == 0x80 || bits == 0xC0)
        by (bit_vector);
    let ledge = ledge_grab_name();
    let fall = fall_thru_name();
    let norm = normal_name();
    let f2 = seq!['f', 'a', 'l', 'l', '_', 't', 'h', 'r', 'u'];
    let f3 = seq!['F', 'A', 'L', 'L', '_', 'T', 'H', 'R', 'U'];
    lemma_has_self(ledge);
    lemma_has_self(fall);
    lemma_has_self(norm);
    lemma_not_sub(ledge, fall);
    lemma_not_sub(ledge, f2);
    lemma_not_sub(ledge, f3);
    if bits == 0xC0 {
        let both = ledge + seq![' ', '|', ' '] + fall;
        assert(occurs_at(both, ledge, 0)) by {
            assert(both.subrange(0, ledge.len() as int) =~= ledge);
        }
        assert(occurs_at(both, fall, 13)) by {
            assert(both.subrange(13, 22) =~= fall);
        }
    }
}

/// An (x, y) point of a collision plane.
#[derive(Debug, Copy, Clone, PartialEq, Eq, Structural)]
pub struct CollisionPoint {
    pub x: i16,
    pub y: i16,
    pub prop_flag: ColProp,
    pub floor_type: Floor,
}

/// Why a collision point cannot be read from `i`, if it cannot.
pub open spec fn point_error(i: Seq<u16>) -> Option<ColError> {
    if i.len() < 3 {
        Some(ColError::PointSliceTooSmall)
    } else if !col_prop_valid((i[2] >> 8u16) as u8) {
        Some(ColError::UnknownProperty((i[2] >> 8u16) as u8))
    } else if !spec_floor_bits_known(i[2] as u8) {
        Some(ColError::UnknownFloor(i[2] as u8))
    } else {
        None
    }
}

/// `p` is the collision point held in the three `u16`s at the start of `i`.
pub open spec fn point_from_raw(p: CollisionPoint, i: Seq<u16>) -> bool {
    &&& p.x == i[0] as i16
    &&& p.y == i[1] as i16
    &&& p.prop_flag.spec_bits() == (i[2] >> 8u16) as u8
    &&& spec_floor_bits(p.floor_type) == i[2] as u8
}

pub open spec fn point_bytes(p: CollisionPoint) -> Seq<u8> {
    i16_bytes(p.x) + i16_bytes(p.y) + seq![p.prop_flag.spec_bits(), spec_floor_bits(p.floor_type)]
}

impl CollisionPoint {
    pub fn from_raw(i: &[u16]) -> (r: Result<Self, ColError>)
        ensures
            match point_error(i@) {
                Some(e) => r == Err::<CollisionPoint, ColError>(e),
                None => r is Ok && point_from_raw(r->Ok_0, i@),
            },
    {
        if i.len() < 3 {
            return Err(ColError::PointSliceTooSmall);
        }
        let x = i[0] as i16;
        let y = i[1] as i16;
        let raw = i[2];
        let flag = ((raw & 0xFF00) >> 8) as u8;
        let floor = (raw & 0xFF) as u8;
        assert(((raw & 0xFF00u16) >> 8u16) as u8 == (raw >> 8u16) as u8) by (bit_vector);
        assert((raw & 0xFFu16) as u8 == raw as u8) by (bit_vector);
        let prop_flag = match ColProp::from_bits(flag) {
            Some(p) => p,
            None => {
                return Err(ColError::UnknownProperty(flag));
            },
        };
        let floor_type = match Floor::from_bits(floor) {
            Ok(f) => f,
            Err(v) => {
                return Err(ColError::UnknownFloor(v));
            },
        };
        Ok(CollisionPoint { x, y, prop_flag, floor_type })
    }
}

impl N64Bytes for CollisionPoint {
    open spec fn spec_size() -> nat {
        6
    }

    open spec fn n64_bytes(&self) -> Seq<u8> {
        point_bytes(*self)
    }

    fn size() -> (r: usize) {
        6
    }

    fn to_bytes(&self) -> (r: Vec<u8>) {
        let mut o: Vec<u8> = Vec::new();
        push_i16(&mut o, self.x);
        push_i16(&mut o, self.y);
        o.push(self.prop_flag.bits());
        o.push(self.floor_type.bits());
        assert(o@ =~= point_bytes(*self));
        o
    }
}

} // verus!
