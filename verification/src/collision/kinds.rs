//! The numbered kinds of collision files: floor types and spawn point types.
use vstd::prelude::*;

verus! {

/// The floor type of a collision point: mostly friction, but also the special floors (lava, spikes, ...) of some stages.
#[derive(Debug, Copy, Clone, PartialEq, Eq, Structural)]
#[allow(non_camel_case_types)]
pub enum Floor {
    Normal,
    Friction0x1,
    Friction0x2,
    Friction0x3,
    Friction0x4,
    Friction0x5,
    Friction0x6,
    LavaSideways,
    Acid,
    LavaUp10,
    Spikes,
    LavaUp1_0xb,
    Unk0x0c,
    Unk0x0d,
    BtPPlatform,
    LavaUp1_0xf,
}

/// The number of a `Floor` in a collision file.
pub open spec fn spec_floor_bits(v: Floor) -> u8 {
    match v {
        Floor::Normal => 0x00,
        Floor::Friction0x1 => 0x01,
        Floor::Friction0x2 => 0x02,
        Floor::Friction0x3 => 0x03,
        Floor::Friction0x4 => 0x04,
        Floor::Friction0x5 => 0x05,
        Floor::Friction0x6 => 0x06,
        Floor::LavaSideways => 0x07,
        Floor::Acid => 0x08,
        Floor::LavaUp10 => 0x09,
        Floor::Spikes => 0x0a,
        Floor::LavaUp1_0xb => 0x0b,
        Floor::Unk0x0c => 0x0c,
        Floor::Unk0x0d => 0x0d,
        Floor::BtPPlatform => 0x0e,
        Floor::LavaUp1_0xf => 0x0f,
    }
}

/// Whether some `Floor` has the number `input`.
pub open spec fn spec_floor_bits_known(input: u8) -> bool {
    input == 0x00 || input == 0x01 || input == 0x02 || input == 0x03 || input == 0x04 ||
        input == 0x05 || input == 0x06 || input == 0x07 || input == 0x08 || input == 0x09 ||
        input == 0x0a || input == 0x0b || input == 0x0c || input == 0x0d || input == 0x0e ||
        input == 0x0f
}

impl Floor {
    /// The variant numbered `input`, or `Err(input)` where there is none.
    pub fn from_bits(input: u8) -> (r: Result<Self, u8>)
        ensures
            match r {
                Ok(v) => spec_floor_bits(v) == input,
                Err(e) => e == input && !spec_floor_bits_known(input),
            },
    {
        match input {
            0x00 => Ok(Floor::Normal),
            0x01 => Ok(Floor::Friction0x1),
            0x02 => Ok(Floor::Friction0x2),
            0x03 => Ok(Floor::Friction0x3),
            0x04 => Ok(Floor::Friction0x4),
            0x05 => Ok(Floor::Friction0x5),
            0x06 => Ok(Floor::Friction0x6),
            0x07 => Ok(Floor::LavaSideways),
            0x08 => Ok(Floor::Acid),
            0x09 => Ok(Floor::LavaUp10),
            0x0a => Ok(Floor::Spikes),
            0x0b => Ok(Floor::LavaUp1_0xb),
            0x0c => Ok(Floor::Unk0x0c),
            0x0d => Ok(Floor::Unk0x0d),
            0x0e => Ok(Floor::BtPPlatform),
            0x0f => Ok(Floor::LavaUp1_0xf),
            _ => Err(input),
        }
    }

    /// The number of the variant.
    pub fn bits(&self) -> (r: u8)
        ensures
            r == spec_floor_bits(*self),
    {
        match self {
            Floor::Normal => 0x00,
            Floor::Friction0x1 => 0x01,
            Floor::Friction0x2 => 0x02,
            Floor::Friction0x3 => 0x03,
            Floor::Friction0x4 => 0x04,
            Floor::Friction0x5 => 0x05,
            Floor::Friction0x6 => 0x06,
            Floor::LavaSideways => 0x07,
            Floor::Acid => 0x08,
            Floor::LavaUp10 => 0x09,
            Floor::Spikes => 0x0a,
            Floor::LavaUp1_0xb => 0x0b,
            Floor::Unk0x0c => 0x0c,
            Floor::Unk0x0d => 0x0d,
            Floor::BtPPlatform => 0x0e,
            Floor::LavaUp1_0xf => 0x0f,
        }
    }
}

/// The kind of a spawn point.
#[derive(Debug, Copy, Clone, PartialEq, Eq, Structural)]
pub enum SpawnType {
    P1SpawnVs,
    P2SpawnVs,
    P3SpawnVs,
    P4SpawnVs,
    ItemSpawn,
    TornadoSpawn,
    BumperSpawn,
    Unk0x15,
    Unk0x18,
    Unk0x19,
    Unk0x1a,
    Unk0x1b,
    Unk0x1c,
    Unk0x1d,
    Unk0x1e,
    Unk0x1f,
    VsRespawn,
    PlayerSpawn1p,
    Ally1Spawn1p,
    Ally2Spawn1p,
    Ally3Spawn1p,
    Cpu1Spawn1p,
    Cpu2Spawn1p,
    Cpu3Spawn1p,
    CpuRespawn1p,
    Unk0x23,
    Unk0x2d,
}

/// The number of a `SpawnType` in a collision file.
pub open spec fn spec_spawn_bits(v: SpawnType) -> u16 {
    match v {
        SpawnType::P1SpawnVs => 0x00,
        SpawnType::P2SpawnVs => 0x01,
        SpawnType::P3SpawnVs => 0x02,
        SpawnType::P4SpawnVs => 0x03,
        SpawnType::ItemSpawn => 0x04,
        SpawnType::TornadoSpawn => 0x0d,
        SpawnType::BumperSpawn => 0x13,
        SpawnType::Unk0x15 => 0x15,
        SpawnType::Unk0x18 => 0x18,
        SpawnType::Unk0x19 => 0x19,
        SpawnType::Unk0x1a => 0x1a,
        SpawnType::Unk0x1b => 0x1b,
        SpawnType::Unk0x1c => 0x1c,
        SpawnType::Unk0x1d => 0x1d,
        SpawnType::Unk0x1e => 0x1e,
        SpawnType::Unk0x1f => 0x1f,
        SpawnType::VsRespawn => 0x20,
        SpawnType::PlayerSpawn1p => 0x21,
        SpawnType::Ally1Spawn1p => 0x22,
        SpawnType::Ally2Spawn1p => 0x23,
        SpawnType::Ally3Spawn1p => 0x24,
        SpawnType::Cpu1Spawn1p => 0x25,
        SpawnType::Cpu2Spawn1p => 0x26,
        SpawnType::Cpu3Spawn1p => 0x27,
        SpawnType::CpuRespawn1p => 0x2b,
        SpawnType::Unk0x23 => 0x2c,
        SpawnType::Unk0x2d => 0x2d,
    }
}

/// Whether some `SpawnType` has the number `input`.
pub open spec fn spec_spawn_bits_known(input: u16) -> bool {
    input == 0x00 || input == 0x01 || input == 0x02 || input == 0x03 || input == 0x04 ||
        input == 0x0d || input == 0x13 || input == 0x15 || input == 0x18 || input == 0x19 ||
        input == 0x1a || input == 0x1b || input == 0x1c || input == 0x1d || input == 0x1e ||
        input == 0x1f || input == 0x20 || input == 0x21 || input == 0x22 || input == 0x23 ||
        input == 0x24 || input == 0x25 || input == 0x26 || input == 0x27 || input == 0x2b ||
        input == 0x2c || input == 0x2d
}

impl SpawnType {
    /// The variant numbered `input`, or `Err(input)` where there is none.
    pub fn from_bits(input: u16) -> (r: Result<Self, u16>)
        ensures
            match r {
                Ok(v) => spec_spawn_bits(v) == input,
                Err(e) => e == input && !spec_spawn_bits_known(input),
            },
    {
        match input {
            0x00 => Ok(SpawnType::P1SpawnVs),
            0x01 => Ok(SpawnType::P2SpawnVs),
            0x02 => Ok(SpawnType::P3SpawnVs),
            0x03 => Ok(SpawnType::P4SpawnVs),
            0x04 => Ok(SpawnType::ItemSpawn),
            0x0d => Ok(SpawnType::TornadoSpawn),
            0x13 => Ok(SpawnType::BumperSpawn),
            0x15 => Ok(SpawnType::Unk0x15),
            0x18 => Ok(SpawnType::Unk0x18),
            0x19 => Ok(SpawnType::Unk0x19),
            0x1a => Ok(SpawnType::Unk0x1a),
            0x1b => Ok(SpawnType::Unk0x1b),
            0x1c => Ok(SpawnType::Unk0x1c),
            0x1d => Ok(SpawnType::Unk0x1d),
            0x1e => Ok(SpawnType::Unk0x1e),
            0x1f => Ok(SpawnType::Unk0x1f),
            0x20 => Ok(SpawnType::VsRespawn),
            0x21 => Ok(SpawnType::PlayerSpawn1p),
            0x22 => Ok(SpawnType::Ally1Spawn1p),
            0x23 => Ok(SpawnType::Ally2Spawn1p),
            0x24 => Ok(SpawnType::Ally3Spawn1p),
            0x25 => Ok(SpawnType::Cpu1Spawn1p),
            0x26 => Ok(SpawnType::Cpu2Spawn1p),
            0x27 => Ok(SpawnType::Cpu3Spawn1p),
            0x2b => Ok(SpawnType::CpuRespawn1p),
            0x2c => Ok(SpawnType::Unk0x23),
            0x2d => Ok(SpawnType::Unk0x2d),
            _ => Err(input),
        }
    }

    /// The number of the variant.
    pub fn bits(&self) -> (r: u16)
        ensures
            r == spec_spawn_bits(*self),
    {
        match self {
            SpawnType::P1SpawnVs => 0x00,
            SpawnType::P2SpawnVs => 0x01,
            SpawnType::P3SpawnVs => 0x02,
            SpawnType::P4SpawnVs => 0x03,
            SpawnType::ItemSpawn => 0x04,
            SpawnType::TornadoSpawn => 0x0d,
            SpawnType::BumperSpawn => 0x13,
            SpawnType::Unk0x15 => 0x15,
            SpawnType::Unk0x18 => 0x18,
            SpawnType::Unk0x19 => 0x19,
            SpawnType::Unk0x1a => 0x1a,
            SpawnType::Unk0x1b => 0x1b,
            SpawnType::Unk0x1c => 0x1c,
            SpawnType::Unk0x1d => 0x1d,
            SpawnType::Unk0x1e => 0x1e,
            SpawnType::Unk0x1f => 0x1f,
            SpawnType::VsRespawn => 0x20,
            SpawnType::PlayerSpawn1p => 0x21,
            SpawnType::Ally1Spawn1p => 0x22,
            SpawnType::Ally2Spawn1p => 0x23,
            SpawnType::Ally3Spawn1p => 0x24,
            SpawnType::Cpu1Spawn1p => 0x25,
            SpawnType::Cpu2Spawn1p => 0x26,
            SpawnType::Cpu3Spawn1p => 0x27,
            SpawnType::CpuRespawn1p => 0x2b,
            SpawnType::Unk0x23 => 0x2c,
            SpawnType::Unk0x2d => 0x2d,
        }
    }
}

/// A floor type's number names that floor type alone, so reading back the
/// number of a floor type gives the same floor type.
pub proof fn lemma_floor_bits_injective(a: Floor, b: Floor)
    ensures
        spec_floor_bits(a) == spec_floor_bits(b) ==> a == b,
{
}

/// A spawn type's number names that spawn type alone, so reading back the
/// number of a spawn type gives the same spawn type.
pub proof fn lemma_spawn_bits_injective(a: SpawnType, b: SpawnType)
    ensures
        spec_spawn_bits(a) == spec_spawn_bits(b) ==> a == b,
{
}

/// The floor types are numbered as in the collision file format, in order
/// from `0x00` to `0x0f`: friction floors `0x01` to `0x06`, sideways lava
/// `0x07`, acid `0x08`, upward lava `0x09`, spikes `0x0a`, and so on; every
/// number up to `0x0f` names a floor type and no other number does.
pub proof fn lemma_floor_numbers()
    ensures
        spec_floor_bits(Floor::Normal) == 0x00,
        spec_floor_bits(Floor::Friction0x1) == 0x01,
        spec_floor_bits(Floor::Friction0x2) == 0x02,
        spec_floor_bits(Floor::Friction0x3) == 0x03,
        spec_floor_bits(Floor::Friction0x4) == 0x04,
        spec_floor_bits(Floor::Friction0x5) == 0x05,
        spec_floor_bits(Floor::Friction0x6) == 0x06,
        spec_floor_bits(Floor::LavaSideways) == 0x07,
        spec_floor_bits(Floor::Acid) == 0x08,
        spec_floor_bits(Floor::LavaUp10) == 0x09,
        spec_floor_bits(Floor::Spikes) == 0x0a,
        spec_floor_bits(Floor::LavaUp1_0xb) == 0x0b,
        spec_floor_bits(Floor::Unk0x0c) == 0x0c,
        spec_floor_bits(Floor::Unk0x0d) == 0x0d,
        spec_floor_bits(Floor::BtPPlatform) == 0x0e,
        spec_floor_bits(Floor::LavaUp1_0xf) == 0x0f,
        forall|n: u8| #[trigger] spec_floor_bits_known(n) <==> n <= 0x0f,
{
}

/// The spawn types are numbered as in the collision file format: the versus
/// spawns of players 1 to 4 are `0x00` to `0x03`, items `0x04`, tornados
/// `0x0d`, bumpers `0x13`, the versus respawn `0x20`, the 1P mode spawns
/// `0x21` to `0x27` and the 1P mode CPU respawn `0x2b`; exactly the numbers
/// of spawn types are known.
pub proof fn lemma_spawn_numbers()
    ensures
        spec_spawn_bits(SpawnType::P1SpawnVs) == 0x00,
        spec_spawn_bits(SpawnType::P2SpawnVs) == 0x01,
        spec_spawn_bits(SpawnType::P3SpawnVs) == 0x02,
        spec_spawn_bits(SpawnType::P4SpawnVs) == 0x03,
        spec_spawn_bits(SpawnType::ItemSpawn) == 0x04,
        spec_spawn_bits(SpawnType::TornadoSpawn) == 0x0d,
        spec_spawn_bits(SpawnType::BumperSpawn) == 0x13,
        spec_spawn_bits(SpawnType::Unk0x15) == 0x15,
        spec_spawn_bits(SpawnType::Unk0x18) == 0x18,
        spec_spawn_bits(SpawnType::Unk0x19) == 0x19,
        spec_spawn_bits(SpawnType::Unk0x1a) == 0x1a,
        spec_spawn_bits(SpawnType::Unk0x1b) == 0x1b,
        spec_spawn_bits(SpawnType::Unk0x1c) == 0x1c,
        spec_spawn_bits(SpawnType::Unk0x1d) == 0x1d,
        spec_spawn_bits(SpawnType::Unk0x1e) == 0x1e,
        spec_spawn_bits(SpawnType::Unk0x1f) == 0x1f,
        spec_spawn_bits(SpawnType::VsRespawn) == 0x20,
        spec_spawn_bits(SpawnType::PlayerSpawn1p) == 0x21,
        spec_spawn_bits(SpawnType::Ally1Spawn1p) == 0x22,
        spec_spawn_bits(SpawnType::Ally2Spawn1p) == 0x23,
        spec_spawn_bits(SpawnType::Ally3Spawn1p) == 0x24,
        spec_spawn_bits(SpawnType::Cpu1Spawn1p) == 0x25,
        spec_spawn_bits(SpawnType::Cpu2Spawn1p) == 0x26,
        spec_spawn_bits(SpawnType::Cpu3Spawn1p) == 0x27,
        spec_spawn_bits(SpawnType::CpuRespawn1p) == 0x2b,
        spec_spawn_bits(SpawnType::Unk0x23) == 0x2c,
        spec_spawn_bits(SpawnType::Unk0x2d) == 0x2d,
        forall|n: u16| #[trigger] spec_spawn_bits_known(n) <==> exists|t: SpawnType| spec_spawn_bits(t) == n,
{
    assert forall|n: u16| #[trigger] spec_spawn_bits_known(n) implies exists|t: SpawnType| spec_spawn_bits(t) == n by {
        if n == 0x00 { assert(spec_spawn_bits(SpawnType::P1SpawnVs) == n); }
        else if n == 0x01 { assert(spec_spawn_bits(SpawnType::P2SpawnVs) == n); }
        else if n == 0x02 { assert(spec_spawn_bits(SpawnType::P3SpawnVs) == n); }
        else if n == 0x03 { assert(spec_spawn_bits(SpawnType::P4SpawnVs) == n); }
        else if n == 0x04 { assert(spec_spawn_bits(SpawnType::ItemSpawn) == n); }
        else if n == 0x0d { assert(spec_spawn_bits(SpawnType::TornadoSpawn) == n); }
        else if n == 0x13 { assert(spec_spawn_bits(SpawnType::BumperSpawn) == n); }
        else if n == 0x15 { assert(spec_spawn_bits(SpawnType::Unk0x15) == n); }
        else if n == 0x18 { assert(spec_spawn_bits(SpawnType::Unk0x18) == n); }
        else if n == 0x19 { assert(spec_spawn_bits(SpawnType::Unk0x19) == n); }
        else if n == 0x1a { assert(spec_spawn_bits(SpawnType::Unk0x1a) == n); }
        else if n == 0x1b { assert(spec_spawn_bits(SpawnType::Unk0x1b) == n); }
        else if n == 0x1c { assert(spec_spawn_bits(SpawnType::Unk0x1c) == n); }
        else if n == 0x1d { assert(spec_spawn_bits(SpawnType::Unk0x1d) == n); }
        else if n == 0x1e { assert(spec_spawn_bits(SpawnType::Unk0x1e) == n); }
        else if n == 0x1f { assert(spec_spawn_bits(SpawnType::Unk0x1f) == n); }
        else if n == 0x20 { assert(spec_spawn_bits(SpawnType::VsRespawn) == n); }
        else if n == 0x21 { assert(spec_spawn_bits(SpawnType::PlayerSpawn1p) == n); }
        else if n == 0x22 { assert(spec_spawn_bits(SpawnType::Ally1Spawn1p) == n); }
        else if n == 0x23 { assert(spec_spawn_bits(SpawnType::Ally2Spawn1p) == n); }
        else if n == 0x24 { assert(spec_spawn_bits(SpawnType::Ally3Spawn1p) == n); }
        else if n == 0x25 { assert(spec_spawn_bits(SpawnType::Cpu1Spawn1p) == n); }
        else if n == 0x26 { assert(spec_spawn_bits(SpawnType::Cpu2Spawn1p) == n); }
        else if n == 0x27 { assert(spec_spawn_bits(SpawnType::Cpu3Spawn1p) == n); }
        else if n == 0x2b { assert(spec_spawn_bits(SpawnType::CpuRespawn1p) == n); }
        else if n == 0x2c { assert(spec_spawn_bits(SpawnType::Unk0x23) == n); }
        else { assert(spec_spawn_bits(SpawnType::Unk0x2d) == n); }
    }
}

} // verus!
