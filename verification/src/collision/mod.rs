//! SSB64 stage collision data: points, planes, collision directions and
//! spawn points, and their big-endian layout in a stage resource file.
use vstd::prelude::*;

pub mod kinds;
pub mod parts;
pub mod point;
pub mod spawn;
pub mod pointers;
pub mod formatted;
pub mod roundtrip;
pub mod cursor;
pub mod buffer;
pub mod import;
pub mod export;
pub mod args;
pub mod readback;

verus! {

/// Why collision data could not be read or written.
#[derive(Debug, Clone, PartialEq, Eq, Structural)]
pub enum ColError {
    /// Fewer than three `u16`s were given for a collision point.
    PointSliceTooSmall,
    /// A collision point's property byte holds an unknown flag.
    UnknownProperty(u8),
    /// A collision point's floor byte names no floor type.
    UnknownFloor(u8),
    /// Fewer than three `u16`s were given for a spawn point.
    SpawnSliceTooSmall,
    /// A spawn point's type names no spawn type.
    UnknownSpawnType(u16),
    /// The collision count of the collision pointers was zero: the offset of
    /// the pointers is likely wrong.
    ZeroCollisionCount,
    /// A read from the file at this offset would end past the end of the file.
    OutOfRange(u64),
    /// The resource pointer chain of the file never ends.
    EndlessChain,
    /// The collision detections of the file name no plane.
    NoPlanes,
    /// The planes of the file name no connection.
    NoConnections,
    /// A length computed from the file does not fit in 16 bits.
    LengthOverflow,
    /// The collision data has more planes than the 16 bit plane indices
    /// hold, or the file with it would outgrow the machine's integers.
    TooLarge,
}

/// A value with a fixed-size big-endian form in an N64 file.
pub trait N64Bytes: Sized {
    /// The number of bytes of the form.
    spec fn spec_size() -> nat;

    /// The bytes of the form.
    spec fn n64_bytes(&self) -> Seq<u8>;

    fn size() -> (r: usize)
        ensures
            r == Self::spec_size(),
    ;

    fn to_bytes(&self) -> (r: Vec<u8>)
        ensures
            r@ == self.n64_bytes(),
            r@.len() == Self::spec_size(),
    ;
}

} // verus!
