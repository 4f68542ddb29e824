//! The background music (BGM) tracks of SSB64, as numbered in stage files.
use vstd::prelude::*;

verus! {

/// A background music track; its number in a stage file is `spec_bgm_bits`.
#[derive(Debug, Copy, Clone, PartialEq, Eq, Structural)]
pub enum BGM {
    Dreamland,
    PlanetZebes,
    MushroomKingdom,
    MushroomKingdomFast,
    SectorZ,
    CongoJungle,
    PeachsCastle,
    SaffronCity,
    YoshisIsland,
    HyruleCastle,
    CharacterSelect,
    BetaFanfare,
    MarioWins,
    SamusWins,
    DKWins,
    KirbyWins,
    FoxWins,
    NessWins,
    YoshiWins,
    CFalconWins,
    PokemonWins,
    LinkWins,
    ResultsScreen,
    PreMasterHand1,
    PreMasterHand2,
    FinalDestination,
    BonusStage,
    StageClear,
    BonusStageClear,
    MasterHandClear,
    BonusStageFailure,
    Continue,
    GameOver,
    Intro,
    HowtoPlay,
    Pre1PBattle,
    Battlefield,
    MetalCavern,
    GameComplete,
    Credits,
    Secret,
    HiddenCharacter,
    TrainingMode,
    VSRecord,
    MainMenu,
    Hammer,
    Invincibility,
}

/// The number of a track in a stage file.
pub open spec fn spec_bgm_bits(m: BGM) -> u32 {
    match m {
        BGM::Dreamland => 0x00,
        BGM::PlanetZebes => 0x01,
        BGM::MushroomKingdom => 0x02,
        BGM::MushroomKingdomFast => 0x03,
        BGM::SectorZ => 0x04,
        BGM::CongoJungle => 0x05,
        BGM::PeachsCastle => 0x06,
        BGM::SaffronCity => 0x07,
        BGM::YoshisIsland => 0x08,
        BGM::HyruleCastle => 0x09,
        BGM::CharacterSelect => 0x0a,
        BGM::BetaFanfare => 0x0b,
        BGM::MarioWins => 0x0c,
        BGM::SamusWins => 0x0d,
        BGM::DKWins => 0x0e,
        BGM::KirbyWins => 0x0f,
        BGM::FoxWins => 0x10,
        BGM::NessWins => 0x11,
        BGM::YoshiWins => 0x12,
        BGM::CFalconWins => 0x13,
        BGM::PokemonWins => 0x14,
        BGM::LinkWins => 0x15,
        BGM::ResultsScreen => 0x16,
        BGM::PreMasterHand1 => 0x17,
        BGM::PreMasterHand2 => 0x18,
        BGM::FinalDestination => 0x19,
        BGM::BonusStage => 0x1a,
        BGM::StageClear => 0x1b,
        BGM::BonusStageClear => 0x1c,
        BGM::MasterHandClear => 0x1d,
        BGM::BonusStageFailure => 0x1e,
        BGM::Continue => 0x1f,
        BGM::GameOver => 0x20,
        BGM::Intro => 0x21,
        BGM::HowtoPlay => 0x22,
        BGM::Pre1PBattle => 0x23,
        BGM::Battlefield => 0x24,
        BGM::MetalCavern => 0x25,
        BGM::GameComplete => 0x26,
        BGM::Credits => 0x27,
        BGM::Secret => 0x28,
        BGM::HiddenCharacter => 0x29,
        BGM::TrainingMode => 0x2a,
        BGM::VSRecord => 0x2b,
        BGM::MainMenu => 0x2c,
        BGM::Hammer => 0x2d,
        BGM::Invincibility => 0x2e,
    }
}

/// The number of known tracks: every number below it names one.
pub const BGM_COUNT: u32 = 0x2f;

impl BGM {
    /// The track with number `input`, or `Err(input)` where none has it.
    pub fn from_bits(input: u32) -> (r: Result<Self, u32>)
        ensures
            match r {
                Ok(m) => spec_bgm_bits(m) == input,
                Err(v) => v == input && input >= BGM_COUNT,
            },
    {
        match input {
            0x00 => Ok(BGM::Dreamland),
            0x01 => Ok(BGM::PlanetZebes),
            0x02 => Ok(BGM::MushroomKingdom),
            0x03 => Ok(BGM::MushroomKingdomFast),
            0x04 => Ok(BGM::SectorZ),
            0x05 => Ok(BGM::CongoJungle),
            0x06 => Ok(BGM::PeachsCastle),
            0x07 => Ok(BGM::SaffronCity),
            0x08 => Ok(BGM::YoshisIsland),
            0x09 => Ok(BGM::HyruleCastle),
            0x0a => Ok(BGM::CharacterSelect),
            0x0b => Ok(BGM::BetaFanfare),
            0x0c => Ok(BGM::MarioWins),
            0x0d => Ok(BGM::SamusWins),
            0x0e => Ok(BGM::DKWins),
            0x0f => Ok(BGM::KirbyWins),
            0x10 => Ok(BGM::FoxWins),
            0x11 => Ok(BGM::NessWins),
            0x12 => Ok(BGM::YoshiWins),
            0x13 => Ok(BGM::CFalconWins),
            0x14 => Ok(BGM::PokemonWins),
            0x15 => Ok(BGM::LinkWins),
            0x16 => Ok(BGM::ResultsScreen),
            0x17 => Ok(BGM::PreMasterHand1),
            0x18 => Ok(BGM::PreMasterHand2),
            0x19 => Ok(BGM::FinalDestination),
            0x1a => Ok(BGM::BonusStage),
            0x1b => Ok(BGM::StageClear),
            0x1c => Ok(BGM::BonusStageClear),
            0x1d => Ok(BGM::MasterHandClear),
            0x1e => Ok(BGM::BonusStageFailure),
            0x1f => Ok(BGM::Continue),
            0x20 => Ok(BGM::GameOver),
            0x21 => Ok(BGM::Intro),
            0x22 => Ok(BGM::HowtoPlay),
            0x23 => Ok(BGM::Pre1PBattle),
            0x24 => Ok(BGM::Battlefield),
            0x25 => Ok(BGM::MetalCavern),
            0x26 => Ok(BGM::GameComplete),
            0x27 => Ok(BGM::Credits),
            0x28 => Ok(BGM::Secret),
            0x29 => Ok(BGM::HiddenCharacter),
            0x2a => Ok(BGM::TrainingMode),
            0x2b => Ok(BGM::VSRecord),
            0x2c => Ok(BGM::MainMenu),
            0x2d => Ok(BGM::Hammer),
            0x2e => Ok(BGM::Invincibility),
            _ => Err(input),
        }
    }

    /// The number of the track.
    pub fn bits(&self) -> (r: u32)
        ensures
            r == spec_bgm_bits(*self),
            r < BGM_COUNT,
    {
        match self {
            BGM::Dreamland => 0x00,
            BGM::PlanetZebes => 0x01,
            BGM::MushroomKingdom => 0x02,
            BGM::MushroomKingdomFast => 0x03,
            BGM::SectorZ => 0x04,
            BGM::CongoJungle => 0x05,
            BGM::PeachsCastle => 0x06,
            BGM::SaffronCity => 0x07,
            BGM::YoshisIsland => 0x08,
            BGM::HyruleCastle => 0x09,
            BGM::CharacterSelect => 0x0a,
            BGM::BetaFanfare => 0x0b,
            BGM::MarioWins => 0x0c,
            BGM::SamusWins => 0x0d,
            BGM::DKWins => 0x0e,
            BGM::KirbyWins => 0x0f,
            BGM::FoxWins => 0x10,
            BGM::NessWins => 0x11,
            BGM::YoshiWins => 0x12,
            BGM::CFalconWins => 0x13,
            BGM::PokemonWins => 0x14,
            BGM::LinkWins => 0x15,
            BGM::ResultsScreen => 0x16,
            BGM::PreMasterHand1 => 0x17,
            BGM::PreMasterHand2 => 0x18,
            BGM::FinalDestination => 0x19,
            BGM::BonusStage => 0x1a,
            BGM::StageClear => 0x1b,
            BGM::BonusStageClear => 0x1c,
            BGM::MasterHandClear => 0x1d,
            BGM::BonusStageFailure => 0x1e,
            BGM::Continue => 0x1f,
            BGM::GameOver => 0x20,
            BGM::Intro => 0x21,
            BGM::HowtoPlay => 0x22,
            BGM::Pre1PBattle => 0x23,
            BGM::Battlefield => 0x24,
            BGM::MetalCavern => 0x25,
            BGM::GameComplete => 0x26,
            BGM::Credits => 0x27,
            BGM::Secret => 0x28,
            BGM::HiddenCharacter => 0x29,
            BGM::TrainingMode => 0x2a,
            BGM::VSRecord => 0x2b,
            BGM::MainMenu => 0x2c,
            BGM::Hammer => 0x2d,
            BGM::Invincibility => 0x2e,
        }
    }
}

/// A track's number names that track alone, so reading back the number of a
/// track gives the same track.
pub proof fn lemma_bgm_bits_injective(a: BGM, b: BGM)
    ensures
        spec_bgm_bits(a) == spec_bgm_bits(b) ==> a == b,
{
}

} // verus!
