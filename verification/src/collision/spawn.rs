//! Spawn points.
use vstd::prelude::*;
use crate::bytes::{i16_bytes, push_i16, push_u16, u16_bytes};
use crate::collision::kinds::{spec_spawn_bits, spec_spawn_bits_known, SpawnType};
use crate::collision::{ColError, N64Bytes};

verus! {

/// A spawn point of a stage.
#[derive(Debug, Copy, Clone, PartialEq, Eq, Structural)]
pub struct Spawn {
    pub stype: SpawnType,
    pub x: i16,
    pub y: i16,
}

/// Why a spawn point cannot be read from `points`, if it cannot.
pub open spec fn spawn_error(points: Seq<u16>) -> Option<ColError> {
    if points.len() < 3 {
        Some(ColError::SpawnSliceTooSmall)
    } else if !spec_spawn_bits_known(points[0]) {
        Some(ColError::UnknownSpawnType(points[0]))
    } else {
        None
    }
}

pub open spec fn spawn_bytes(s: Spawn) -> Seq<u8> {
    u16_bytes(spec_spawn_bits(s.stype)) + i16_bytes(s.x) + i16_bytes(s.y)
}

impl Spawn {
    pub fn from_raw(points: &[u16]) -> (r: Result<Self, ColError>)
        ensures
            match spawn_error(points@) {
                Some(e) => r == Err::<Spawn, ColError>(e),
                None => r is Ok && spec_spawn_bits(r->Ok_0.stype) == points@[0] && r->Ok_0.x
                    == points@[1] as i16 && r->Ok_0.y == points@[2] as i16,
            },
    {
        if points.len() < 3 {
            return Err(ColError::SpawnSliceTooSmall);
        }
        let stype = match SpawnType::from_bits(points[0]) {
            Ok(t) => t,
            Err(v) => {
                return Err(ColError::UnknownSpawnType(v));
            },
        };
        Ok(Spawn { stype, x: points[1] as i16, y: points[2] as i16 })
    }
}

impl N64Bytes for Spawn {
    open spec fn spec_size() -> nat {
        6
    }

    open spec fn n64_bytes(&self) -> Seq<u8> {
        spawn_bytes(*self)
    }

    fn size() -> (r: usize) {
        6
    }

    fn to_bytes(&self) -> (r: Vec<u8>) {
        let mut o: Vec<u8> = Vec::new();
        push_u16(&mut o, self.stype.bits());
        push_i16(&mut o, self.x);
        push_i16(&mut o, self.y);
        assert(o@ =~= spawn_bytes(*self));
        o
    }
}

} // verus!
