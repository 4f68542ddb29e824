//! SSB64 "resource file" pointers.
//!
//! Internal SSB64 resource files hold chains of packed `(u16, u16)` values
//! that are turned into pointers when the file is moved from ROM to RAM.
//! The first `u16` is the word offset of the next link, the second the word
//! offset (from the start of the file) that the link points at. A next value
//! of `0xFFFF` ends the chain.
use vstd::prelude::*;

verus! {

/// Marker in the upper half of a packed pointer that ends a chain.
pub const END_CHAIN: u32 = 0xFFFF;

/// A decoded link of a resource pointer chain; both fields are byte offsets.
#[derive(Debug, Clone, Copy, PartialEq, Eq, Structural)]
pub struct ResPtr {
    pub next: Option<u32>,
    pub offset: u32,
}

/// The link that a packed `u32` decodes to.
pub open spec fn spec_res_ptr(val: u32) -> ResPtr {
    let hi = val / 0x10000;
    ResPtr {
        next: if hi == 0xFFFF { None } else { Some((hi * 4) as u32) },
        offset: ((val % 0x10000) * 4) as u32,
    }
}

/// The packed `u32` that a link encodes to: word offsets, upper half the
/// next link (or `0xFFFF`), lower half the pointer, as the shifts compute them.
pub open spec fn spec_packed(p: ResPtr) -> u32 {
    let next: u32 = match p.next {
        Some(n) => n >> 2u32,
        None => 0xFFFFu32,
    };
    (next << 16u32) | (p.offset >> 2u32)
}

/// A link whose fields a packed `u32` can carry exactly.
pub open spec fn res_ptr_packable(p: ResPtr) -> bool {
    &&& p.offset % 4 == 0
    &&& p.offset < 0x40000
    &&& match p.next {
        Some(n) => n % 4 == 0 && n < 0x3FFFC,
        None => true,
    }
}

impl ResPtr {
    pub fn from_u32(val: u32) -> (r: Self)
        ensures
            r == spec_res_ptr(val),
    {
        let next = (val & 0xFFFF0000) >> 16;
        let offset = (val & 0xFFFF) << 2;
        assert(next == val / 0x10000 && next <= 0xFFFF) by (bit_vector)
            requires next == (val & 0xFFFF0000) >> 16;
        assert(offset == (val % 0x10000) * 4) by (bit_vector)
            requires offset == (val & 0xFFFF) << 2;
        // check next value to see if it has the "end chain" value, and parse accordingly
        let next = if next == END_CHAIN {
            None
        } else {
            assert(next << 2 == next * 4) by (bit_vector)
                requires next <= 0xFFFF;
            Some(next << 2)
        };
        ResPtr { next, offset }
    }

    /// The 32 bit packed version of the resource pointer.
    pub fn as_packed_u32(&self) -> (r: u32)
        ensures
            r == spec_packed(*self),
    {
        let next = if let Some(val) = self.next {
            val >> 2
        } else {
            0xFFFF
        };
        (next << 16) | (self.offset >> 2)
    }
}

/// Either a "fixed" standard `u32` pointer, a resource pointer, or the null pointer.
#[derive(Debug, Clone, Copy, PartialEq, Eq, Structural)]
pub enum SSBPtr {
    Fixed(u32),
    Resource(ResPtr),
    Null,
}

/// The pointer that a `u32` from a stage file is read as.
pub open spec fn spec_ssb_ptr(input: u32) -> SSBPtr {
    let possible = spec_res_ptr(input);
    if input == 0 {
        SSBPtr::Null
    } else if possible.next is Some && (possible.next->0 == 0 || input >= 0x80000000) {
        SSBPtr::Fixed(input)
    } else {
        SSBPtr::Resource(possible)
    }
}

/// The `u32` that a pointer is written as.
pub open spec fn spec_ssb_ptr_u32(p: SSBPtr) -> u32 {
    match p {
        SSBPtr::Fixed(v) => v,
        SSBPtr::Resource(r) => spec_packed(r),
        SSBPtr::Null => 0,
    }
}

impl SSBPtr {
    pub fn from_u32(input: u32) -> (r: Self)
        ensures
            r == spec_ssb_ptr(input),
    {
        // First, check for null pointer
        if input == 0x00000000 {
            return SSBPtr::Null;
        }
        // Parse the value as a packed pointer to check the offset and next values
        let possible = ResPtr::from_u32(input);
        // a 'next' offset of 0 probably won't happen with Nintendo, but it is a valid case
        if let Some(next) = possible.next {
            if next == 0 {
                return SSBPtr::Fixed(input);
            }
            // an obvious pointer has the top bit set (0x8-------), as the value
            // didn't contain the "end" magic number (0xFFFF----)
            if input & 0x80000000 != 0 {
                assert(input >= 0x80000000) by (bit_vector)
                    requires input & 0x80000000 != 0;
                return SSBPtr::Fixed(input);
            }
            assert(input < 0x80000000) by (bit_vector)
                requires input & 0x80000000 == 0;
        }
        SSBPtr::Resource(possible)
    }

    pub fn as_u32(&self) -> (r: u32)
        ensures
            r == spec_ssb_ptr_u32(*self),
    {
        match self {
            SSBPtr::Fixed(value) => *value,
            SSBPtr::Resource(ptr) => ptr.as_packed_u32(),
            SSBPtr::Null => 0x00000000,
        }
    }
}

/// Packing a decoded link gives back the `u32` it was decoded from.
pub proof fn lemma_res_ptr_roundtrip(val: u32)
    ensures
        spec_packed(spec_res_ptr(val)) == val,
{
    let hi = val / 0x10000;
    let lo = val % 0x10000;
    if hi == 0xFFFF {
        assert(val / 0x10000 == 0xFFFF ==> (0xFFFFu32 << 16u32) | ((((val % 0x10000) * 4) as u32)
            >> 2u32) == val) by (bit_vector);
    } else {
        assert(val / 0x10000 != 0xFFFF ==> ((((val / 0x10000) * 4) as u32 >> 2u32) << 16u32) | (
        (((val % 0x10000) * 4) as u32) >> 2u32) == val) by (bit_vector);
    }
}

/// Decoding a packed link whose fields fit gives back the link.
pub proof fn lemma_packed_roundtrip(p: ResPtr)
    requires
        res_ptr_packable(p),
    ensures
        spec_res_ptr(spec_packed(p)) == p,
{
    let o = p.offset;
    assert(o % 4 == 0 && o < 0x40000 ==> ((0u32 | (o >> 2u32)) % 0x10000) * 4 == o) by (bit_vector);
    match p.next {
        Some(n) => {
            assert(n % 4 == 0 && n < 0x3FFFC && o % 4 == 0 && o < 0x40000 ==> {
                let v = ((n >> 2u32) << 16u32) | (o >> 2u32);
                &&& v / 0x10000 == n / 4
                &&& v / 0x10000 != 0xFFFF
                &&& (v % 0x10000) * 4 == o
            }) by (bit_vector);
        },
        None => {
            assert(o % 4 == 0 && o < 0x40000 ==> {
                let v = (0xFFFFu32 << 16u32) | (o >> 2u32);
                &&& v / 0x10000 == 0xFFFF
                &&& (v % 0x10000) * 4 == o
            }) by (bit_vector);
        },
    }
}

/// Writing a pointer read from a `u32` gives back that `u32`: a stage file's
/// pointers survive a parse and rebuild unchanged.
pub proof fn lemma_ssb_ptr_roundtrip(input: u32)
    ensures
        spec_ssb_ptr_u32(spec_ssb_ptr(input)) == input,
{
    lemma_res_ptr_roundtrip(input);
}

} // verus!
