//! Reading and writing whole stage main files.
use vstd::prelude::*;
use crate::bytes::{
    append_bytes, be_i16, be_u32, i16_bytes, lemma_i16_roundtrip, lemma_u32_roundtrip, push_i16,
    push_u32, read_i16_at, read_u32_at, u32_bytes,
};
use crate::music::{spec_bgm_bits, BGM, BGM_COUNT};
use crate::pointers::{lemma_ssb_ptr_roundtrip, spec_ssb_ptr, spec_ssb_ptr_u32, SSBPtr};
use crate::stage::{
    bonus_camera_bytes, bounds_bytes, color_bytes, spec_bonus_camera, spec_bounds, spec_color,
    spec_stage_geo, stage_geo_bytes, BlastZones, BonusPauseCamera, Bounds, CameraBox, Color,
    StageError, StageFileKind, StageGeo,
};

verus! {

/// The stage main file. `lighting1`, `lighting2` and `camera_tilt` are the
/// bit patterns of the file's three `f32` values.
#[derive(Debug, Clone)]
pub struct StageMain {
    pub item_bytes: Option<[u8; 20]>,
    pub item_bytes_ptr: SSBPtr,
    pub geometries: [StageGeo; 4],
    pub collision_ptr: SSBPtr,
    pub unknown_0x44: u32,
    pub background_ptr: SSBPtr,
    pub magnifier_color: Color,
    pub player_logo_color: [Color; 4],
    pub lighting1: u32,
    pub lighting2: u32,
    pub camera_tilt: u32,
    pub camera_bounds: CameraBox,
    pub blastzones: BlastZones,
    pub background_music: BGM,
    pub other_movescript_ptr: SSBPtr,
    pub falling_whistle: i16,
    pub bonus_pause_camera: BonusPauseCamera,
    pub extra_info: Option<Vec<u8>>,
}

pub open spec fn opt_bytes(o: Option<&[u8]>) -> Option<Seq<u8>> {
    match o {
        Some(b) => Some(b@),
        None => None,
    }
}

/// The geometry set held in the four big-endian `u32`s at `pos`.
pub open spec fn geo_at(b: Seq<u8>, pos: int) -> StageGeo {
    spec_stage_geo(seq![be_u32(b, pos), be_u32(b, pos + 4), be_u32(b, pos + 8), be_u32(b, pos + 12)])
}

/// Why reading a stage from these parts fails, if it does.
pub open spec fn stage_read_error(main: Seq<u8>, items: Option<Seq<u8>>) -> Option<StageError> {
    if main.len() < 0xa8 {
        Some(StageError::MainTooShort)
    } else if items is Some && items->0.len() != 0x14 {
        Some(StageError::ItemBytesWrongSize)
    } else if be_u32(main, 0x7c) >= BGM_COUNT {
        Some(StageError::UnknownMusic(be_u32(main, 0x7c)))
    } else {
        None
    }
}

/// What reading a stage from the common data `main`, the item bytes and the
/// extra data gives: the error of the parts where there is one, else a stage
/// read from them.
pub open spec fn stage_read_result(
    main: Seq<u8>,
    items: Option<Seq<u8>>,
    extra: Option<Seq<u8>>,
    r: Result<StageMain, StageError>,
) -> bool {
    match stage_read_error(main, items) {
        Some(e) => r == Err::<StageMain, StageError>(e),
        None => r is Ok && stage_read_from(r->Ok_0, main, items, extra),
    }
}

/// `s` is the stage read from the common data `main`, the item bytes and the
/// extra data after the common data.
#[verifier::opaque]
pub open spec fn stage_read_from(
    s: StageMain,
    main: Seq<u8>,
    items: Option<Seq<u8>>,
    extra: Option<Seq<u8>>,
) -> bool {
    &&& s.geometries@ == seq![
        geo_at(main, 0x00),
        geo_at(main, 0x10),
        geo_at(main, 0x20),
        geo_at(main, 0x30),
    ]
    &&& s.collision_ptr == spec_ssb_ptr(be_u32(main, 0x40))
    &&& s.unknown_0x44 == be_u32(main, 0x44)
    &&& s.background_ptr == spec_ssb_ptr(be_u32(main, 0x48))
    &&& s.magnifier_color == spec_color(be_u32(main, 0x4c))
    &&& s.player_logo_color@ == seq![
        spec_color(be_u32(main, 0x50)),
        spec_color(be_u32(main, 0x54)),
        spec_color(be_u32(main, 0x58)),
        spec_color(be_u32(main, 0x5c)),
    ]
    &&& s.lighting1 == be_u32(main, 0x60)
    &&& s.lighting2 == be_u32(main, 0x64)
    &&& s.camera_tilt == be_u32(main, 0x68)
    &&& s.camera_bounds == (CameraBox {
        versus: spec_bounds(main, 0x6c),
        one_player: spec_bounds(main, 0x8a),
    })
    &&& s.blastzones == (BlastZones {
        regular: spec_bounds(main, 0x74),
        cpu_1p: spec_bounds(main, 0x92),
    })
    &&& spec_bgm_bits(s.background_music) == be_u32(main, 0x7c)
    &&& s.other_movescript_ptr == spec_ssb_ptr(be_u32(main, 0x80))
    &&& s.item_bytes_ptr == spec_ssb_ptr(be_u32(main, 0x84))
    &&& s.falling_whistle == be_i16(main, 0x88)
    &&& s.bonus_pause_camera == spec_bonus_camera(
        seq![
            be_i16(main, 0x9a),
            be_i16(main, 0x9c),
            be_i16(main, 0x9e),
            be_i16(main, 0xa0),
            be_i16(main, 0xa2),
            be_i16(main, 0xa4),
        ],
    )
    &&& match items {
        Some(i) => s.item_bytes is Some && s.item_bytes->0@ == i,
        None => s.item_bytes is None,
    }
    &&& match extra {
        Some(e) => s.extra_info is Some && s.extra_info->0@ == e,
        None => s.extra_info is None,
    }
}

/// The geometry pointer sets of `s` as written, `0x40` bytes.
#[verifier::opaque]
pub open spec fn geo_block_of(s: StageMain) -> Seq<u8> {
    stage_geo_bytes(s.geometries@[0]) + stage_geo_bytes(s.geometries@[1]) + stage_geo_bytes(
        s.geometries@[2],
    ) + stage_geo_bytes(s.geometries@[3])
}

/// The pointers, colors and float values of `s` as written, `0x2c` bytes.
#[verifier::opaque]
pub open spec fn word_block_of(s: StageMain) -> Seq<u8> {
    u32_bytes(spec_ssb_ptr_u32(s.collision_ptr)) + u32_bytes(s.unknown_0x44) + u32_bytes(
        spec_ssb_ptr_u32(s.background_ptr),
    ) + color_bytes(s.magnifier_color) + color_bytes(s.player_logo_color@[0]) + color_bytes(
        s.player_logo_color@[1],
    ) + color_bytes(s.player_logo_color@[2]) + color_bytes(s.player_logo_color@[3]) + u32_bytes(
        s.lighting1,
    ) + u32_bytes(s.lighting2) + u32_bytes(s.camera_tilt)
}

/// The camera, blastzone, music and remaining values of `s` as written,
/// `0x3a` bytes.
#[verifier::opaque]
pub open spec fn tail_block_of(s: StageMain) -> Seq<u8> {
    bounds_bytes(s.camera_bounds.versus) + bounds_bytes(s.blastzones.regular) + u32_bytes(
        spec_bgm_bits(s.background_music),
    ) + u32_bytes(spec_ssb_ptr_u32(s.other_movescript_ptr)) + u32_bytes(
        spec_ssb_ptr_u32(s.item_bytes_ptr),
    ) + i16_bytes(s.falling_whistle) + bounds_bytes(s.camera_bounds.one_player) + bounds_bytes(
        s.blastzones.cpu_1p,
    ) + bonus_camera_bytes(s.bonus_pause_camera)
}

/// The `0xa8` bytes of the common stage data that `s` is written as.
#[verifier::opaque]
pub open spec fn base_stage_bytes_of(s: StageMain) -> Seq<u8> {
    geo_block_of(s) + word_block_of(s) + tail_block_of(s) + seq![0u8, 0u8]
}

/// `val` rounded up to a multiple of `align`.
pub open spec fn align_up(val: int, align: int) -> int {
    if val % align == 0 {
        val
    } else {
        val + (align - val % align)
    }
}

pub open spec fn zeros(n: int) -> Seq<u8> {
    Seq::new(n as nat, |i: int| 0u8)
}

/// The whole file that `s` is written as: item bytes, common data, extra
/// data, then zeros up to a multiple of 16 bytes.
pub open spec fn stage_bytes_of(s: StageMain) -> Seq<u8> {
    let items = match s.item_bytes {
        Some(i) => i@,
        None => Seq::empty(),
    };
    let extra = match s.extra_info {
        Some(e) => e@,
        None => Seq::empty(),
    };
    let body = items + base_stage_bytes_of(s) + extra;
    body + zeros(align_up(body.len() as int, 16) - body.len())
}

fn read_geo(main: &[u8], pos: usize) -> (g: StageGeo)
    requires
        pos + 16 <= main.len(),
    ensures
        g == geo_at(main@, pos as int),
{
    let bytes = [
        read_u32_at(main, pos),
        read_u32_at(main, pos + 4),
        read_u32_at(main, pos + 8),
        read_u32_at(main, pos + 12),
    ];
    assert(bytes@ =~= seq![
        be_u32(main@, pos as int),
        be_u32(main@, pos + 4),
        be_u32(main@, pos + 8),
        be_u32(main@, pos + 12),
    ]);
    StageGeo::from_u32s(&bytes)
}

fn read_bounds(main: &[u8], pos: usize) -> (b: Bounds)
    requires
        pos + 8 <= main.len(),
    ensures
        b == spec_bounds(main@, pos as int),
{
    let vals = [
        read_i16_at(main, pos),
        read_i16_at(main, pos + 2),
        read_i16_at(main, pos + 4),
        read_i16_at(main, pos + 6),
    ];
    Bounds::from_i16_arr(&vals)
}

impl StageMain {
    /// Reads a stage from its big-endian parts: the common data `main`, the
    /// optional item bytes and the optional extra data after the common data.
    pub fn from_bytes(main: &[u8], item_bytes: Option<&[u8]>, extra_info: Option<&[u8]>) -> (r:
        Result<Self, StageError>)
        ensures
            stage_read_result(main@, opt_bytes(item_bytes), opt_bytes(extra_info), r),
    {
        // sanity checks to ensure minimum sized slices
        if main.len() < 0xa8 {
            return Err(StageError::MainTooShort);
        } else if let Some(b) = item_bytes {
            if b.len() != 0x14 {
                return Err(StageError::ItemBytesWrongSize);
            }
        }
        // four geometry sets in a row [0x00..0x40]
        let geometries = [
            read_geo(main, 0x00),
            read_geo(main, 0x10),
            read_geo(main, 0x20),
            read_geo(main, 0x30),
        ];
        // two pointers around an unknown word [0x40..0x4c]
        let collision_ptr = SSBPtr::from_u32(read_u32_at(main, 0x40));
        let unknown_0x44 = read_u32_at(main, 0x44);
        let background_ptr = SSBPtr::from_u32(read_u32_at(main, 0x48));
        // five colors in a row [0x4c..0x60]
        let magnifier_color = Color::from_u32(read_u32_at(main, 0x4c));
        let player_logo_color = [
            Color::from_u32(read_u32_at(main, 0x50)),
            Color::from_u32(read_u32_at(main, 0x54)),
            Color::from_u32(read_u32_at(main, 0x58)),
            Color::from_u32(read_u32_at(main, 0x5c)),
        ];
        // three float values for lighting and camera [0x60..0x6c]
        let lighting1 = read_u32_at(main, 0x60);
        let lighting2 = read_u32_at(main, 0x64);
        let camera_tilt = read_u32_at(main, 0x68);
        // camera boundaries [0x6c..0x74] and [0x8a..0x92]
        let camera_bounds = CameraBox::from_bounds(read_bounds(main, 0x6c), read_bounds(main, 0x8a));
        // blastzones [0x74..0x7c] and [0x92..0x9a]
        let blastzones = BlastZones::from_bounds(read_bounds(main, 0x74), read_bounds(main, 0x92));
        // music, two pointers and the falling whistle threshold [0x7c..0x8a]
        let background_music = match BGM::from_bits(read_u32_at(main, 0x7c)) {
            Ok(m) => m,
            Err(v) => {
                return Err(StageError::UnknownMusic(v));
            },
        };
        let other_movescript_ptr = SSBPtr::from_u32(read_u32_at(main, 0x80));
        let item_bytes_ptr = SSBPtr::from_u32(read_u32_at(main, 0x84));
        let falling_whistle = read_i16_at(main, 0x88);
        // the 1P bonus game pause camera [0x9a..0xa6]
        let cam = [
            read_i16_at(main, 0x9a),
            read_i16_at(main, 0x9c),
            read_i16_at(main, 0x9e),
            read_i16_at(main, 0xa0),
            read_i16_at(main, 0xa2),
            read_i16_at(main, 0xa4),
        ];
        assert(cam@ =~= seq![
            be_i16(main@, 0x9a),
            be_i16(main@, 0x9c),
            be_i16(main@, 0x9e),
            be_i16(main@, 0xa0),
            be_i16(main@, 0xa2),
            be_i16(main@, 0xa4),
        ]);
        let bonus_pause_camera = BonusPauseCamera::from_i16_arr(&cam);
        proof {
            reveal(stage_read_from);
        }
        // the optional parts of the file
        let item_bytes = match item_bytes {
            Some(vals) => {
                let mut arr = [0u8; 20];
                let mut i: usize = 0;
                while i < 20
                    invariant
                        vals@.len() == 20,
                        i <= 20,
                        forall|j: int| 0 <= j < i ==> arr@[j] == vals@[j],
                    decreases 20 - i,
                {
                    arr[i] = vals[i];
                    i = i + 1;
                }
                assert(arr@ =~= vals@);
                Some(arr)
            },
            None => None,
        };
        let extra_info = match extra_info {
            Some(slice) => {
                let mut v: Vec<u8> = Vec::new();
                append_bytes(&mut v, slice);
                Some(v)
            },
            None => None,
        };
        assert(geometries@ =~= seq![
            geo_at(main@, 0x00),
            geo_at(main@, 0x10),
            geo_at(main@, 0x20),
            geo_at(main@, 0x30),
        ]);
        assert(player_logo_color@ =~= seq![
            spec_color(be_u32(main@, 0x50)),
            spec_color(be_u32(main@, 0x54)),
            spec_color(be_u32(main@, 0x58)),
            spec_color(be_u32(main@, 0x5c)),
        ]);
        Ok(StageMain {
            item_bytes,
            item_bytes_ptr,
            geometries,
            collision_ptr,
            unknown_0x44,
            background_ptr,
            magnifier_color,
            player_logo_color,
            lighting1,
            lighting2,
            camera_tilt,
            camera_bounds,
            blastzones,
            background_music,
            other_movescript_ptr,
            falling_whistle,
            bonus_pause_camera,
            extra_info,
        })
    }
}


/// The common stage data is always `0xa8` bytes long.
pub proof fn lemma_base_stage_len(s: StageMain)
    ensures
        base_stage_bytes_of(s).len() == 0xa8,
{
    reveal(base_stage_bytes_of);
    reveal(geo_block_of);
    reveal(word_block_of);
    reveal(tail_block_of);
}

/// `val` rounded up to a multiple of `align`.
fn align_usize(val: usize, align: usize) -> (r: usize)
    requires
        align > 0,
        val + align <= usize::MAX,
    ensures
        r == align_up(val as int, align as int),
{
    let off = val % align;
    if off != 0 {
        val + (align - off)
    } else {
        val
    }
}

impl StageMain {
    /// The file that the stage is written as: item bytes, the common data,
    /// the extra data, then zeros up to a multiple of 16 bytes.
    pub fn as_bytes(&self) -> (r: Vec<u8>)
        requires
            self.extra_info matches Some(e) ==> e@.len() + 0xbc + 16 <= usize::MAX,
        ensures
            r@ == stage_bytes_of(*self),
    {
        let sizeof_item_bytes: usize = if self.item_bytes.is_some() {
            0x14
        } else {
            0
        };
        let sizeof_extra_bytes: usize = if let Some(ex) = &self.extra_info {
            ex.len()
        } else {
            0
        };
        // the stage information common to all files is fixed at 0xa8 bytes
        let unaligned = sizeof_item_bytes + sizeof_extra_bytes + 0xa8;
        let size = align_usize(unaligned, 16);
        let mut output: Vec<u8> = Vec::with_capacity(size);
        let main_info = self.base_stage_bytes();
        proof {
            lemma_base_stage_len(*self);
        }
        if let Some(bytes) = &self.item_bytes {
            append_bytes(&mut output, bytes);
        }
        append_bytes(&mut output, main_info.as_slice());
        if let Some(ex_bytes) = &self.extra_info {
            append_bytes(&mut output, ex_bytes.as_slice());
        }
        let ghost body = output@;
        // fill with zeros up to the alignment
        let fill = size - output.len();
        let mut i: usize = 0;
        while i < fill
            invariant
                i <= fill,
                output@ == body + zeros(i as int),
            decreases fill - i,
        {
            output.push(0u8);
            i = i + 1;
            assert(output@ =~= body + zeros(i as int));
        }
        output
    }

    fn geo_block(&self) -> (r: Vec<u8>)
        ensures
            r@ == geo_block_of(*self),
    {
        // the four sets of geometry pointers [0..0x40]
        let mut geo: Vec<u8> = Vec::new();
        let g = self.geometries[0].as_bytes();
        append_bytes(&mut geo, g.as_slice());
        let g = self.geometries[1].as_bytes();
        append_bytes(&mut geo, g.as_slice());
        let g = self.geometries[2].as_bytes();
        append_bytes(&mut geo, g.as_slice());
        let g = self.geometries[3].as_bytes();
        append_bytes(&mut geo, g.as_slice());
        assert(geo@ =~= geo_block_of(*self)) by {
            reveal(geo_block_of);
        }
        geo
    }

    fn word_block(&self) -> (r: Vec<u8>)
        ensures
            r@ == word_block_of(*self),
    {
        // some single u32 values [0x40..0x4c]
        let mut words: Vec<u8> = Vec::new();
        push_u32(&mut words, self.collision_ptr.as_u32());
        push_u32(&mut words, self.unknown_0x44);
        push_u32(&mut words, self.background_ptr.as_u32());
        // the five rgba32 colors [0x4c..0x60]
        let c = self.magnifier_color.as_bytes();
        append_bytes(&mut words, &c);
        let c = self.player_logo_color[0].as_bytes();
        append_bytes(&mut words, &c);
        let c = self.player_logo_color[1].as_bytes();
        append_bytes(&mut words, &c);
        let c = self.player_logo_color[2].as_bytes();
        append_bytes(&mut words, &c);
        let c = self.player_logo_color[3].as_bytes();
        append_bytes(&mut words, &c);
        // the three camera float values [0x60..0x6c]
        push_u32(&mut words, self.lighting1);
        push_u32(&mut words, self.lighting2);
        push_u32(&mut words, self.camera_tilt);
        assert(words@ =~= word_block_of(*self)) by {
            reveal(word_block_of);
        }
        words
    }

    fn tail_block(&self) -> (r: Vec<u8>)
        ensures
            r@ == tail_block_of(*self),
    {
        // the camera and blastzone bounds are not stored next to each other
        let (cam_vs, cam_1p) = self.camera_bounds.as_bytes();
        let (bz_norm, bz_1p_cpu) = self.blastzones.as_bytes();
        let mut tail: Vec<u8> = Vec::new();
        // VS mode camera and normal blastzones [0x6c..0x7c]
        append_bytes(&mut tail, cam_vs.as_slice());
        append_bytes(&mut tail, bz_norm.as_slice());
        // music and the other movescript pointer [0x7c..0x84]
        push_u32(&mut tail, self.background_music.bits());
        push_u32(&mut tail, self.other_movescript_ptr.as_u32());
        // item bytes pointer [0x84..0x88]
        push_u32(&mut tail, self.item_bytes_ptr.as_u32());
        // the falling whistle threshold breaks word alignment [0x88..0x8a]
        push_i16(&mut tail, self.falling_whistle);
        // 1P mode camera and 1P CPU blastzones [0x8a..0x9a]
        append_bytes(&mut tail, cam_1p.as_slice());
        append_bytes(&mut tail, bz_1p_cpu.as_slice());
        // the pause camera of the 1P bonus games [0x9a..0xa6]
        let b = self.bonus_pause_camera.as_bytes();
        append_bytes(&mut tail, b.as_slice());
        assert(tail@ =~= tail_block_of(*self)) by {
            reveal(tail_block_of);
        }
        tail
    }

    fn base_stage_bytes(&self) -> (r: Vec<u8>)
        ensures
            r@ == base_stage_bytes_of(*self),
    {
        let geo = self.geo_block();
        let words = self.word_block();
        let tail = self.tail_block();
        let mut o = geo;
        append_bytes(&mut o, words.as_slice());
        append_bytes(&mut o, tail.as_slice());
        // the final two bytes are zero [0xa6..0xa8]
        o.push(0u8);
        o.push(0u8);
        assert(o@ =~= base_stage_bytes_of(*self)) by {
            reveal(base_stage_bytes_of);
        }
        o
    }
}


proof fn lemma_geo_roundtrip(b: Seq<u8>, pos: int)
    requires
        0 <= pos,
        pos + 16 <= b.len(),
    ensures
        stage_geo_bytes(geo_at(b, pos)) == b.subrange(pos, pos + 16),
{
    lemma_u32_roundtrip(b, pos);
    lemma_u32_roundtrip(b, pos + 4);
    lemma_u32_roundtrip(b, pos + 8);
    lemma_u32_roundtrip(b, pos + 12);
    lemma_ssb_ptr_roundtrip(be_u32(b, pos));
    lemma_ssb_ptr_roundtrip(be_u32(b, pos + 4));
    lemma_ssb_ptr_roundtrip(be_u32(b, pos + 8));
    lemma_ssb_ptr_roundtrip(be_u32(b, pos + 12));
    assert(stage_geo_bytes(geo_at(b, pos)) =~= b.subrange(pos, pos + 16));
}

proof fn lemma_bounds_roundtrip(b: Seq<u8>, pos: int)
    requires
        0 <= pos,
        pos + 8 <= b.len(),
    ensures
        bounds_bytes(spec_bounds(b, pos)) == b.subrange(pos, pos + 8),
{
    lemma_i16_roundtrip(b, pos);
    lemma_i16_roundtrip(b, pos + 2);
    lemma_i16_roundtrip(b, pos + 4);
    lemma_i16_roundtrip(b, pos + 6);
    assert(bounds_bytes(spec_bounds(b, pos)) =~= b.subrange(pos, pos + 8));
}

proof fn lemma_color_roundtrip(b: Seq<u8>, pos: int)
    requires
        0 <= pos,
        pos + 4 <= b.len(),
    ensures
        color_bytes(spec_color(be_u32(b, pos))) == b.subrange(pos, pos + 4),
{
    lemma_u32_roundtrip(b, pos);
    assert(color_bytes(spec_color(be_u32(b, pos))) =~= u32_bytes(be_u32(b, pos)));
}

proof fn lemma_ptr_word_roundtrip(b: Seq<u8>, pos: int)
    requires
        0 <= pos,
        pos + 4 <= b.len(),
    ensures
        u32_bytes(spec_ssb_ptr_u32(spec_ssb_ptr(be_u32(b, pos)))) == b.subrange(pos, pos + 4),
{
    lemma_u32_roundtrip(b, pos);
    lemma_ssb_ptr_roundtrip(be_u32(b, pos));
}

proof fn lemma_bonus_roundtrip(b: Seq<u8>)
    requires
        0xa6 <= b.len(),
    ensures
        bonus_camera_bytes(
            spec_bonus_camera(
                seq![
                    be_i16(b, 0x9a),
                    be_i16(b, 0x9c),
                    be_i16(b, 0x9e),
                    be_i16(b, 0xa0),
                    be_i16(b, 0xa2),
                    be_i16(b, 0xa4),
                ],
            ),
        ) == b.subrange(0x9a, 0xa6),
{
    lemma_i16_roundtrip(b, 0x9a);
    lemma_i16_roundtrip(b, 0x9c);
    lemma_i16_roundtrip(b, 0x9e);
    lemma_i16_roundtrip(b, 0xa0);
    lemma_i16_roundtrip(b, 0xa2);
    lemma_i16_roundtrip(b, 0xa4);
    let c = spec_bonus_camera(
        seq![
            be_i16(b, 0x9a),
            be_i16(b, 0x9c),
            be_i16(b, 0x9e),
            be_i16(b, 0xa0),
            be_i16(b, 0xa2),
            be_i16(b, 0xa4),
        ],
    );
    assert(bonus_camera_bytes(c) =~= b.subrange(0x9a, 0xa6));
}

proof fn lemma_geo_block_roundtrip(s: StageMain, main: Seq<u8>)
    requires
        main.len() >= 0xa8,
        s.geometries@ == seq![
            geo_at(main, 0x00),
            geo_at(main, 0x10),
            geo_at(main, 0x20),
            geo_at(main, 0x30),
        ],
    ensures
        geo_block_of(s) == main.subrange(0, 0x40),
{
    reveal(geo_block_of);
    assert(s.geometries@[0] == geo_at(main, 0x00));
    assert(s.geometries@[1] == geo_at(main, 0x10));
    assert(s.geometries@[2] == geo_at(main, 0x20));
    assert(s.geometries@[3] == geo_at(main, 0x30));
    lemma_geo_roundtrip(main, 0x00);
    lemma_geo_roundtrip(main, 0x10);
    lemma_geo_roundtrip(main, 0x20);
    lemma_geo_roundtrip(main, 0x30);
    let m = main;
    assert(m.subrange(0, 0x40) =~= m.subrange(0, 0x10) + m.subrange(0x10, 0x20) + m.subrange(
        0x20,
        0x30,
    ) + m.subrange(0x30, 0x40));
}

proof fn lemma_word_block_roundtrip(s: StageMain, main: Seq<u8>)
    requires
        main.len() >= 0xa8,
        s.collision_ptr == spec_ssb_ptr(be_u32(main, 0x40)),
        s.unknown_0x44 == be_u32(main, 0x44),
        s.background_ptr == spec_ssb_ptr(be_u32(main, 0x48)),
        s.magnifier_color == spec_color(be_u32(main, 0x4c)),
        s.player_logo_color@ == seq![
            spec_color(be_u32(main, 0x50)),
            spec_color(be_u32(main, 0x54)),
            spec_color(be_u32(main, 0x58)),
            spec_color(be_u32(main, 0x5c)),
        ],
        s.lighting1 == be_u32(main, 0x60),
        s.lighting2 == be_u32(main, 0x64),
        s.camera_tilt == be_u32(main, 0x68),
    ensures
        word_block_of(s) == main.subrange(0x40, 0x6c),
{
    reveal(word_block_of);
    assert(s.player_logo_color@[0] == spec_color(be_u32(main, 0x50)));
    assert(s.player_logo_color@[1] == spec_color(be_u32(main, 0x54)));
    assert(s.player_logo_color@[2] == spec_color(be_u32(main, 0x58)));
    assert(s.player_logo_color@[3] == spec_color(be_u32(main, 0x5c)));
    lemma_ptr_word_roundtrip(main, 0x40);
    lemma_u32_roundtrip(main, 0x44);
    lemma_ptr_word_roundtrip(main, 0x48);
    lemma_color_roundtrip(main, 0x4c);
    lemma_color_roundtrip(main, 0x50);
    lemma_color_roundtrip(main, 0x54);
    lemma_color_roundtrip(main, 0x58);
    lemma_color_roundtrip(main, 0x5c);
    lemma_u32_roundtrip(main, 0x60);
    lemma_u32_roundtrip(main, 0x64);
    lemma_u32_roundtrip(main, 0x68);
    let m = main;
    assert(m.subrange(0x40, 0x6c) =~= m.subrange(0x40, 0x44) + m.subrange(0x44, 0x48)
        + m.subrange(0x48, 0x4c) + m.subrange(0x4c, 0x50) + m.subrange(0x50, 0x54) + m.subrange(
        0x54,
        0x58,
    ) + m.subrange(0x58, 0x5c) + m.subrange(0x5c, 0x60) + m.subrange(0x60, 0x64) + m.subrange(
        0x64,
        0x68,
    ) + m.subrange(0x68, 0x6c));
}

proof fn lemma_tail_block_roundtrip(s: StageMain, main: Seq<u8>)
    requires
        main.len() >= 0xa8,
        s.camera_bounds == (CameraBox {
            versus: spec_bounds(main, 0x6c),
            one_player: spec_bounds(main, 0x8a),
        }),
        s.blastzones == (BlastZones {
            regular: spec_bounds(main, 0x74),
            cpu_1p: spec_bounds(main, 0x92),
        }),
        spec_bgm_bits(s.background_music) == be_u32(main, 0x7c),
        s.other_movescript_ptr == spec_ssb_ptr(be_u32(main, 0x80)),
        s.item_bytes_ptr == spec_ssb_ptr(be_u32(main, 0x84)),
        s.falling_whistle == be_i16(main, 0x88),
        s.bonus_pause_camera == spec_bonus_camera(
            seq![
                be_i16(main, 0x9a),
                be_i16(main, 0x9c),
                be_i16(main, 0x9e),
                be_i16(main, 0xa0),
                be_i16(main, 0xa2),
                be_i16(main, 0xa4),
            ],
        ),
    ensures
        tail_block_of(s) == main.subrange(0x6c, 0xa6),
{
    reveal(tail_block_of);
    lemma_bounds_roundtrip(main, 0x6c);
    lemma_bounds_roundtrip(main, 0x74);
    lemma_u32_roundtrip(main, 0x7c);
    lemma_ptr_word_roundtrip(main, 0x80);
    lemma_ptr_word_roundtrip(main, 0x84);
    lemma_i16_roundtrip(main, 0x88);
    lemma_bounds_roundtrip(main, 0x8a);
    lemma_bounds_roundtrip(main, 0x92);
    lemma_bonus_roundtrip(main);
    let m = main;
    assert(m.subrange(0x6c, 0xa6) =~= m.subrange(0x6c, 0x74) + m.subrange(0x74, 0x7c)
        + m.subrange(0x7c, 0x80) + m.subrange(0x80, 0x84) + m.subrange(0x84, 0x88) + m.subrange(
        0x88,
        0x8a,
    ) + m.subrange(0x8a, 0x92) + m.subrange(0x92, 0x9a) + m.subrange(0x9a, 0xa6));
}

/// Writing a stage read from a file's parts gives back the common data as it
/// was read (its first `0xa6` bytes; the last two are written as zeros).
#[verifier::spinoff_prover]
pub proof fn lemma_base_stage_roundtrip(
    s: StageMain,
    main: Seq<u8>,
    items: Option<Seq<u8>>,
    extra: Option<Seq<u8>>,
)
    requires
        stage_read_error(main, items) is None,
        stage_read_from(s, main, items, extra),
    ensures
        base_stage_bytes_of(s) == main.subrange(0, 0xa6) + seq![0u8, 0u8],
{
    reveal(base_stage_bytes_of);
    reveal(stage_read_from);
    lemma_geo_block_roundtrip(s, main);
    lemma_word_block_roundtrip(s, main);
    lemma_tail_block_roundtrip(s, main);
    lemma_common_parts(main);
}

proof fn lemma_common_parts(m: Seq<u8>)
    requires
        0xa6 <= m.len(),
    ensures
        m.subrange(0, 0xa6) == m.subrange(0, 0x40) + m.subrange(0x40, 0x6c) + m.subrange(
            0x6c,
            0xa6,
        ),
{
    assert(m.subrange(0, 0xa6) =~= m.subrange(0, 0x40) + m.subrange(0x40, 0x6c) + m.subrange(
        0x6c,
        0xa6,
    ));
}

/// A stage read from a file's parts is written back as those parts: the item
/// bytes, the common data (with its last two bytes as zeros), the extra data,
/// and zeros up to a multiple of 16 bytes.
pub proof fn lemma_stage_roundtrip(
    s: StageMain,
    main: Seq<u8>,
    items: Option<Seq<u8>>,
    extra: Option<Seq<u8>>,
)
    requires
        stage_read_error(main, items) is None,
        stage_read_from(s, main, items, extra),
    ensures
        ({
            let body = match items {
                Some(i) => i,
                None => Seq::empty(),
            } + main.subrange(0, 0xa6) + seq![0u8, 0u8] + match extra {
                Some(e) => e,
                None => Seq::empty(),
            };
            stage_bytes_of(s) == body + zeros(align_up(body.len() as int, 16) - body.len())
        }),
{
    reveal(stage_read_from);
    lemma_base_stage_roundtrip(s, main, items, extra);
}


/// Whether every byte of `b` is zero.
pub open spec fn all_zero(b: Seq<u8>) -> bool {
    forall|i: int| 0 <= i < b.len() ==> b[i] == 0
}

/// Extra data after the common data is kept only where it is not padding:
/// empty or all zeros counts as padding.
pub open spec fn padding_spec(b: Seq<u8>) -> Option<Seq<u8>> {
    if b.len() == 0 || all_zero(b) {
        None
    } else {
        Some(b)
    }
}

/// `None` where `input` is empty or all zeros, else `Some(input)`.
pub fn check_padding(input: &[u8]) -> (r: Option<&[u8]>)
    ensures
        opt_bytes(r) == padding_spec(input@),
{
    if input.len() == 0 {
        return None;
    }
    let mut i: usize = 0;
    while i < input.len()
        invariant
            i <= input@.len(),
            forall|j: int| 0 <= j < i ==> input@[j] == 0,
        decreases input@.len() - i,
    {
        if input[i] != 0 {
            return Some(input);
        }
        i = i + 1;
    }
    None
}

/// The kind of a stage file: the one given, or else told from the file's size
/// and the words at `0x84` and `0x98`.
pub open spec fn detected_kind(b: Seq<u8>, kind: Option<StageFileKind>) -> Option<StageFileKind> {
    match kind {
        Some(k) => Some(k),
        None => if b.len() < 0xbc && be_u32(b, 0x84) == 0 {
            Some(StageFileKind::NoItem)
        } else if be_u32(b, 0x98) % 0x10000 == 0 {
            Some(StageFileKind::Item)
        } else {
            None
        },
    }
}

/// The inputs that reading a whole stage file accepts: the words used to
/// tell its kind are there, and so are the parts that its kind has.
pub open spec fn stage_file_readable(b: Seq<u8>, kind: Option<StageFileKind>) -> bool {
    &&& kind is None ==> b.len() >= 0x9c
    &&& match detected_kind(b, kind) {
        Some(StageFileKind::Item) => b.len() >= 0xbc,
        Some(StageFileKind::NoItem) => b.len() >= 0xa8,
        None => true,
    }
}

/// The parts of a stage file of kind `k`: the common data, the item bytes
/// and the extra data.
pub open spec fn stage_parts(b: Seq<u8>, k: StageFileKind) -> (Seq<u8>, Option<Seq<u8>>, Option<
    Seq<u8>,
>) {
    match k {
        StageFileKind::Item => (
            b.subrange(0x14, 0xbc),
            Some(b.subrange(0, 0x14)),
            padding_spec(b.subrange(0xbc, b.len() as int)),
        ),
        StageFileKind::NoItem => (
            b.subrange(0, 0xa8),
            None,
            padding_spec(b.subrange(0xa8, b.len() as int)),
        ),
    }
}

/// What reading the stage file `b` gives: where its kind cannot be told,
/// the error that says so; else what reading a stage from its parts gives.
pub open spec fn stage_file_result(
    b: Seq<u8>,
    kind: Option<StageFileKind>,
    r: Result<StageMain, StageError>,
) -> bool {
    match detected_kind(b, kind) {
        None => r == Err::<StageMain, StageError>(
            StageError::IndeterminateKind {
                size: b.len() as usize,
                ptr_84: be_u32(b, 0x84),
                ptr_9c: be_u32(b, 0x98),
            },
        ),
        Some(k) => {
            let (main, items, extra) = stage_parts(b, k);
            stage_read_result(main, items, extra, r)
        },
    }
}

/// Two stages hold the same values: the same fields, arrays and byte
/// vectors holding the same elements.
pub open spec fn same_stage(a: StageMain, b: StageMain) -> bool {
    &&& a.item_bytes.is_some() == b.item_bytes.is_some()
    &&& a.item_bytes.is_some() ==> a.item_bytes->0@ == b.item_bytes->0@
    &&& a.item_bytes_ptr == b.item_bytes_ptr
    &&& a.geometries@ == b.geometries@
    &&& a.collision_ptr == b.collision_ptr
    &&& a.unknown_0x44 == b.unknown_0x44
    &&& a.background_ptr == b.background_ptr
    &&& a.magnifier_color == b.magnifier_color
    &&& a.player_logo_color@ == b.player_logo_color@
    &&& a.lighting1 == b.lighting1
    &&& a.lighting2 == b.lighting2
    &&& a.camera_tilt == b.camera_tilt
    &&& a.camera_bounds == b.camera_bounds
    &&& a.blastzones == b.blastzones
    &&& a.background_music == b.background_music
    &&& a.other_movescript_ptr == b.other_movescript_ptr
    &&& a.falling_whistle == b.falling_whistle
    &&& a.bonus_pause_camera == b.bonus_pause_camera
    &&& a.extra_info.is_some() == b.extra_info.is_some()
    &&& a.extra_info.is_some() ==> a.extra_info->0@ == b.extra_info->0@
}

/// Results that hold the same error, or stages that hold the same values.
pub open spec fn same_read(a: Result<StageMain, StageError>, b: Result<StageMain, StageError>) -> bool {
    match (a, b) {
        (Ok(x), Ok(y)) => same_stage(x, y),
        (Err(x), Err(y)) => x == y,
        _ => false,
    }
}

/// A stage is read from its parts in one way only.
pub proof fn lemma_stage_read_unique(
    main: Seq<u8>,
    items: Option<Seq<u8>>,
    extra: Option<Seq<u8>>,
    r1: Result<StageMain, StageError>,
    r2: Result<StageMain, StageError>,
)
    requires
        stage_read_result(main, items, extra, r1),
        stage_read_result(main, items, extra, r2),
    ensures
        same_read(r1, r2),
{
    if stage_read_error(main, items) is None {
        let a = r1->Ok_0;
        let b = r2->Ok_0;
        reveal(stage_read_from);
        crate::music::lemma_bgm_bits_injective(a.background_music, b.background_music);
    }
}

/// Reading a stage file gives its result in one way only: two results of
/// reading one file with one kind hold the same error or the same stage.
pub proof fn lemma_stage_file_unique(
    b: Seq<u8>,
    kind: Option<StageFileKind>,
    r1: Result<StageMain, StageError>,
    r2: Result<StageMain, StageError>,
)
    requires
        stage_file_result(b, kind, r1),
        stage_file_result(b, kind, r2),
    ensures
        same_read(r1, r2),
{
    if let Some(k) = detected_kind(b, kind) {
        let (main, items, extra) = stage_parts(b, k);
        lemma_stage_read_unique(main, items, extra, r1, r2);
    }
}

/// Reading a stage file without naming its kind is reading it as the kind
/// told from the file: where that kind can be told, the file is readable as
/// that kind and the results are those of the call that names it.
pub proof fn lemma_stage_binary_detected(
    b: Seq<u8>,
    k: StageFileKind,
    r: Result<StageMain, StageError>,
)
    requires
        detected_kind(b, None) == Some(k),
    ensures
        stage_file_readable(b, None) ==> stage_file_readable(b, Some(k)),
        stage_file_result(b, None, r) == stage_file_result(b, Some(k), r),
{
}

/// Reading a stage file of a given kind is reading a stage from its parts:
/// for a stage with items the common data at `0x14..0xbc`, the first `0x14`
/// bytes as item bytes and the rest after `0xbc`, where it is not all zeros,
/// as extra data; for a stage without items the common data at `0..0xa8`
/// and, where it is not all zeros, the rest as extra data.
pub proof fn lemma_stage_binary_parts(b: Seq<u8>, k: StageFileKind, r: Result<StageMain, StageError>)
    requires
        stage_file_readable(b, Some(k)),
    ensures
        stage_file_result(b, Some(k), r) == match k {
            StageFileKind::Item => stage_read_result(
                b.subrange(0x14, 0xbc),
                Some(b.subrange(0, 0x14)),
                padding_spec(b.subrange(0xbc, b.len() as int)),
                r,
            ),
            StageFileKind::NoItem => stage_read_result(
                b.subrange(0, 0xa8),
                None,
                padding_spec(b.subrange(0xa8, b.len() as int)),
                r,
            ),
        },
{
}

/// Reading a stage file without naming its kind and reading it as the kind
/// told from the file give the same error or the same stage.
pub proof fn lemma_stage_binary_detected_same(
    b: Seq<u8>,
    k: StageFileKind,
    r1: Result<StageMain, StageError>,
    r2: Result<StageMain, StageError>,
)
    requires
        detected_kind(b, None) == Some(k),
        stage_file_result(b, None, r1),
        stage_file_result(b, Some(k), r2),
    ensures
        same_read(r1, r2),
{
    lemma_stage_binary_detected(b, k, r1);
    lemma_stage_file_unique(b, Some(k), r1, r2);
}

/// Reading a stage file of a given kind and reading a stage from its parts
/// (see `lemma_stage_binary_parts`) give the same error or the same stage.
pub proof fn lemma_stage_binary_parts_same(
    b: Seq<u8>,
    k: StageFileKind,
    r1: Result<StageMain, StageError>,
    r2: Result<StageMain, StageError>,
)
    requires
        stage_file_readable(b, Some(k)),
        stage_file_result(b, Some(k), r1),
        match k {
            StageFileKind::Item => stage_read_result(
                b.subrange(0x14, 0xbc),
                Some(b.subrange(0, 0x14)),
                padding_spec(b.subrange(0xbc, b.len() as int)),
                r2,
            ),
            StageFileKind::NoItem => stage_read_result(
                b.subrange(0, 0xa8),
                None,
                padding_spec(b.subrange(0xa8, b.len() as int)),
                r2,
            ),
        },
    ensures
        same_read(r1, r2),
{
    lemma_stage_binary_parts(b, k, r2);
    lemma_stage_file_unique(b, Some(k), r1, r2);
}

/// The kind of the stage file `stage_bin`, or why it cannot be told.
pub fn stage_file_kind(stage_bin: &[u8], kind: Option<StageFileKind>) -> (r: Result<
    StageFileKind,
    StageError,
>)
    requires
        kind is None ==> stage_bin@.len() >= 0x9c,
    ensures
        match detected_kind(stage_bin@, kind) {
            Some(k) => r == Ok::<StageFileKind, StageError>(k),
            None => r == Err::<StageFileKind, StageError>(
                StageError::IndeterminateKind {
                    size: stage_bin@.len() as usize,
                    ptr_84: be_u32(stage_bin@, 0x84),
                    ptr_9c: be_u32(stage_bin@, 0x98),
                },
            ),
        },
{
    match kind {
        Some(k) => Ok(k),
        None => {
            let input_size = stage_bin.len();
            let item_ptr_84 = read_u32_at(stage_bin, 0x84);
            let item_ptr_9c = read_u32_at(stage_bin, 0x98);
            if input_size < 0xbc && item_ptr_84 == 0 {
                Ok(StageFileKind::NoItem)
            } else if item_ptr_9c & 0xFFFF == 0 {
                assert(item_ptr_9c & 0xFFFF == item_ptr_9c % 0x10000) by (bit_vector);
                Ok(StageFileKind::Item)
            } else {
                assert(item_ptr_9c & 0xFFFF == item_ptr_9c % 0x10000) by (bit_vector);
                Err(
                    StageError::IndeterminateKind {
                        size: input_size,
                        ptr_84: item_ptr_84,
                        ptr_9c: item_ptr_9c,
                    },
                )
            }
        },
    }
}

/// Reads a whole stage main file: its kind (given, or told from the file),
/// then its item bytes, common data and extra data.
pub fn stage_binary(stage_bin: &[u8], kind: Option<StageFileKind>) -> (r: Result<
    StageMain,
    StageError,
>)
    requires
        stage_file_readable(stage_bin@, kind),
    ensures
        stage_file_result(stage_bin@, kind, r),
{
    let kind = match stage_file_kind(stage_bin, kind) {
        Ok(k) => k,
        Err(e) => {
            return Err(e);
        },
    };
    match kind {
        StageFileKind::Item => {
            let i = &stage_bin[0..0x14];
            let m = &stage_bin[0x14..0xbc];
            let x = &stage_bin[0xbc..stage_bin.len()];
            let e = check_padding(x);
            StageMain::from_bytes(m, Some(i), e)
        },
        StageFileKind::NoItem => {
            let (m, x) = stage_bin.split_at(0xa8);
            let e = check_padding(x);
            StageMain::from_bytes(m, None, e)
        },
    }
}

/// The N64 binary of a stage main file (see `StageMain::as_bytes`).
pub fn build_binary(input: &StageMain) -> (r: Vec<u8>)
    requires
        input.extra_info matches Some(e) ==> e@.len() + 0xbc + 16 <= usize::MAX,
    ensures
        r@ == stage_bytes_of(*input),
{
    input.as_bytes()
}

} // verus!
