//! Reading the collision data of a stage resource file, starting from the
//! offset of its collision pointers.
use vstd::prelude::*;
use crate::bytes::{be_u16, be_u32, read_u16_at, read_u32_at};
use crate::collision::parts::{detection_ends_fit, spec_total_planes, ColDetection, PlaneInfo};
use crate::collision::point::{point_error, point_from_raw, CollisionPoint};
use crate::collision::pointers::{spec_cnvrt_res_ptr, ColPtrs};
use crate::collision::spawn::{spawn_error, Spawn};
use crate::collision::kinds::spec_spawn_bits;
use crate::collision::ColError;

verus! {

/// What an export reads: the file and the offset of its collision pointers.
pub struct ExportConfig {
    pub input: Vec<u8>,
    pub col_ptr: u32,
    pub verbose: bool,
}

impl ExportConfig {
    pub fn new(i: Vec<u8>, ptr: u32, verbose: bool) -> (r: Self)
        ensures
            r.input@ == i@,
            r.col_ptr == ptr,
            r.verbose == verbose,
    {
        ExportConfig { input: i, col_ptr: ptr, verbose }
    }
}

/// The collision data read from a stage file.
#[derive(Debug)]
pub struct ExportedCollision {
    pub ptrs: ColPtrs,
    pub detection: Vec<ColDetection>,
    pub planes: Vec<PlaneInfo>,
    pub connections: Vec<u16>,
    pub points: Vec<CollisionPoint>,
    pub spawns: Vec<Spawn>,
}

/// `len` bytes can be read at `pos`: none are asked for, or they all lie in
/// the file.
pub open spec fn readable(file: Seq<u8>, pos: int, len: int) -> bool {
    len == 0 || pos + len <= file.len()
}

/// The `n` big-endian `u16`s at `pos`.
pub open spec fn u16s_at(file: Seq<u8>, pos: int, n: int) -> Seq<u16> {
    Seq::new(n as nat, |k: int| be_u16(file, pos + 2 * k))
}

/// The `n` big-endian `u32`s at `pos`.
pub open spec fn u32s_at(file: Seq<u8>, pos: int, n: int) -> Seq<u32> {
    Seq::new(n as nat, |k: int| be_u32(file, pos + 4 * k))
}

/// The collision pointers held in seven words (see `ColPtrs::from_raw`).
pub open spec fn col_ptrs_of(raw: Seq<u32>) -> ColPtrs {
    ColPtrs {
        col_count: (raw[0] / 0x10000) as u16,
        points: spec_cnvrt_res_ptr(raw[1]),
        connections: spec_cnvrt_res_ptr(raw[2]),
        planes: spec_cnvrt_res_ptr(raw[3]),
        col_direct: spec_cnvrt_res_ptr(raw[4]),
        spawn_count: (raw[5] / 0x10000) as u16,
        spawns: spec_cnvrt_res_ptr(raw[6]),
    }
}

/// The collision detection held in nine `u16`s.
pub open spec fn detection_of(raw: Seq<u16>) -> ColDetection {
    ColDetection {
        id: raw[0],
        top_start: raw[1],
        top_size: raw[2],
        bottom_start: raw[3],
        bottom_size: raw[4],
        right_start: raw[5],
        right_size: raw[6],
        left_start: raw[7],
        left_size: raw[8],
    }
}

/// The plane held in a word: its start in the upper half, its length in the
/// lower half.
pub open spec fn plane_of_word(w: u32) -> PlaneInfo {
    PlaneInfo { start: (w / 0x10000) as u16, length: (w % 0x10000) as u16 }
}

/// The largest number of planes that a detection needs (0 for none).
pub open spec fn max_total_planes(ds: Seq<ColDetection>) -> int
    decreases ds.len(),
{
    if ds.len() == 0 {
        0
    } else {
        let m = max_total_planes(ds.drop_last());
        let t = spec_total_planes(ds.last());
        if m >= t {
            m
        } else {
            t
        }
    }
}

/// The largest end (start plus length) of a plane (0 for none).
pub open spec fn max_plane_end(ps: Seq<PlaneInfo>) -> int
    decreases ps.len(),
{
    if ps.len() == 0 {
        0
    } else {
        let m = max_plane_end(ps.drop_last());
        let t = ps.last().start + ps.last().length;
        if m >= t {
            m
        } else {
            t
        }
    }
}

/// The largest of the values (0 for none).
pub open spec fn max_of(s: Seq<u16>) -> int
    decreases s.len(),
{
    if s.len() == 0 {
        0
    } else {
        let m = max_of(s.drop_last());
        if m >= s.last() {
            m
        } else {
            s.last() as int
        }
    }
}

/// The `k`-th group of three `u16`s.
pub open spec fn triple(raw: Seq<u16>, k: int) -> Seq<u16> {
    raw.subrange(3 * k, 3 * k + 3)
}

/// The first error among the first `n` collision points of `raw`.
pub open spec fn points_error(raw: Seq<u16>, n: nat) -> Option<ColError>
    decreases n,
{
    if n == 0 {
        None
    } else {
        match points_error(raw, (n - 1) as nat) {
            Some(e) => Some(e),
            None => point_error(triple(raw, n - 1)),
        }
    }
}

/// The first error among the first `n` spawn points of `raw`.
pub open spec fn spawns_error(raw: Seq<u16>, n: nat) -> Option<ColError>
    decreases n,
{
    if n == 0 {
        None
    } else {
        match spawns_error(raw, (n - 1) as nat) {
            Some(e) => Some(e),
            None => spawn_error(triple(raw, n - 1)),
        }
    }
}

/// The spawn point held in three `u16`s.
pub open spec fn spawn_from_raw(s: Spawn, raw: Seq<u16>) -> bool {
    spec_spawn_bits(s.stype) == raw[0] && s.x == raw[1] as i16 && s.y == raw[2] as i16
}

/// The collision pointers of the file.
pub open spec fn export_ptrs(file: Seq<u8>, ptr: u32) -> ColPtrs {
    col_ptrs_of(u32s_at(file, ptr as int, 7))
}

/// The collision detections of the file.
pub open spec fn export_detection(file: Seq<u8>, ptr: u32) -> Seq<ColDetection> {
    let p = export_ptrs(file, ptr);
    Seq::new(
        p.col_count as nat,
        |k: int| detection_of(u16s_at(file, p.col_direct + 18 * k, 9)),
    )
}

/// The number of planes: the most that a collision detection needs.
pub open spec fn export_plane_count(file: Seq<u8>, ptr: u32) -> int {
    max_total_planes(export_detection(file, ptr))
}

/// The planes of the file.
pub open spec fn export_planes(file: Seq<u8>, ptr: u32) -> Seq<PlaneInfo> {
    u32s_at(file, export_ptrs(file, ptr).planes as int, export_plane_count(file, ptr)).map_values(
        |w: u32| plane_of_word(w),
    )
}

/// The number of connections: the furthest end of a plane.
pub open spec fn export_connection_count(file: Seq<u8>, ptr: u32) -> int {
    max_plane_end(export_planes(file, ptr))
}

/// The connections of the file.
pub open spec fn export_connections(file: Seq<u8>, ptr: u32) -> Seq<u16> {
    u16s_at(file, export_ptrs(file, ptr).connections as int, export_connection_count(file, ptr))
}

/// The number of points: one more than the highest connection.
pub open spec fn export_point_count(file: Seq<u8>, ptr: u32) -> int {
    max_of(export_connections(file, ptr)) + 1
}

/// The `u16`s of the points of the file, three per point.
pub open spec fn export_points_raw(file: Seq<u8>, ptr: u32) -> Seq<u16> {
    u16s_at(file, export_ptrs(file, ptr).points as int, 3 * export_point_count(file, ptr))
}

/// The `u16`s of the spawn points of the file, three per spawn point.
pub open spec fn export_spawns_raw(file: Seq<u8>, ptr: u32) -> Seq<u16> {
    let p = export_ptrs(file, ptr);
    u16s_at(file, p.spawns as int, 3 * p.spawn_count)
}

/// Why the collision data at `ptr` cannot be read, checked in the order in
/// which it is read, if it cannot.
pub open spec fn export_error(file: Seq<u8>, ptr: u32) -> Option<ColError> {
    let p = export_ptrs(file, ptr);
    let ds = export_detection(file, ptr);
    let ps = export_planes(file, ptr);
    if !readable(file, ptr as int, 28) {
        Some(ColError::OutOfRange(ptr as u64))
    } else if u32s_at(file, ptr as int, 7)[0] / 0x10000 == 0 {
        Some(ColError::ZeroCollisionCount)
    } else if !readable(file, p.col_direct as int, 18 * p.col_count) {
        Some(ColError::OutOfRange(p.col_direct as u64))
    } else if exists|k: int| 0 <= k < ds.len() && !detection_ends_fit(#[trigger] ds[k]) {
        Some(ColError::LengthOverflow)
    } else if !readable(file, p.planes as int, 4 * export_plane_count(file, ptr)) {
        Some(ColError::OutOfRange(p.planes as u64))
    } else if export_plane_count(file, ptr) == 0 {
        Some(ColError::NoPlanes)
    } else if exists|k: int| 0 <= k < ps.len() && #[trigger] ps[k].start + ps[k].length > 0xFFFF {
        Some(ColError::LengthOverflow)
    } else if !readable(file, p.connections as int, 2 * export_connection_count(file, ptr)) {
        Some(ColError::OutOfRange(p.connections as u64))
    } else if export_connection_count(file, ptr) == 0 {
        Some(ColError::NoConnections)
    } else if !readable(file, p.points as int, 6 * export_point_count(file, ptr)) {
        Some(ColError::OutOfRange(p.points as u64))
    } else if points_error(export_points_raw(file, ptr), export_point_count(file, ptr) as nat)
        is Some {
        points_error(export_points_raw(file, ptr), export_point_count(file, ptr) as nat)
    } else if 3 * p.spawn_count > 0xFFFF {
        Some(ColError::LengthOverflow)
    } else if !readable(file, p.spawns as int, 6 * p.spawn_count) {
        Some(ColError::OutOfRange(p.spawns as u64))
    } else {
        spawns_error(export_spawns_raw(file, ptr), p.spawn_count as nat)
    }
}

/// `x` holds the collision data read from the file at `ptr`.
pub open spec fn exported(file: Seq<u8>, ptr: u32, x: ExportedCollision) -> bool {
    let pts = export_points_raw(file, ptr);
    let sps = export_spawns_raw(file, ptr);
    &&& x.ptrs == export_ptrs(file, ptr)
    &&& x.detection@ == export_detection(file, ptr)
    &&& x.planes@ == export_planes(file, ptr)
    &&& x.connections@ == export_connections(file, ptr)
    &&& x.points@.len() == export_point_count(file, ptr)
    &&& forall|k: int|
        0 <= k < x.points@.len() ==> point_from_raw(#[trigger] x.points@[k], triple(pts, k))
    &&& x.spawns@.len() == x.ptrs.spawn_count
    &&& forall|k: int|
        0 <= k < x.spawns@.len() ==> spawn_from_raw(#[trigger] x.spawns@[k], triple(sps, k))
}

/// The `n` big-endian `u16`s at `pos` of the file.
fn read_u16s(file: &[u8], pos: u64, n: usize) -> (r: Vec<u16>)
    requires
        n > 0 ==> pos + 2 * n <= file@.len(),
    ensures
        r@ == u16s_at(file@, pos as int, n as int),
{
    let mut out: Vec<u16> = Vec::new();
    let mut k: usize = 0;
    let flen = file.len();
    while k < n
        invariant
            k <= n,
            flen == file@.len(),
            n > 0 ==> pos + 2 * n <= file@.len(),
            out@ == u16s_at(file@, pos as int, k as int),
        decreases n - k,
    {
        let at = (pos as usize) + 2 * k;
        let v = read_u16_at(file, at);
        out.push(v);
        k = k + 1;
        assert(out@ =~= u16s_at(file@, pos as int, k as int));
    }
    out
}

/// The `n` big-endian `u32`s at `pos` of the file.
fn read_u32s(file: &[u8], pos: u64, n: usize) -> (r: Vec<u32>)
    requires
        n > 0 ==> pos + 4 * n <= file@.len(),
    ensures
        r@ == u32s_at(file@, pos as int, n as int),
{
    let mut out: Vec<u32> = Vec::new();
    let mut k: usize = 0;
    let flen = file.len();
    while k < n
        invariant
            k <= n,
            flen == file@.len(),
            n > 0 ==> pos + 4 * n <= file@.len(),
            out@ == u32s_at(file@, pos as int, k as int),
        decreases n - k,
    {
        let at = (pos as usize) + 4 * k;
        let v = read_u32_at(file, at);
        out.push(v);
        k = k + 1;
        assert(out@ =~= u32s_at(file@, pos as int, k as int));
    }
    out
}

/// The plane held in a word.
fn to_plane_info(i: u32) -> (r: PlaneInfo)
    ensures
        r == plane_of_word(i),
{
    assert(((i & 0xFFFF0000u32) >> 16u32) as u16 == (i / 0x10000) as u16) by (bit_vector);
    assert((i & 0x0000FFFFu32) as u16 == (i % 0x10000) as u16) by (bit_vector);
    let s = ((i & 0xFFFF0000) >> 16) as u16;
    let l = (i & 0x0000FFFF) as u16;
    PlaneInfo::new(s, l)
}

fn ends_fit(d: &ColDetection) -> (r: bool)
    ensures
        r == detection_ends_fit(*d),
{
    (d.top_start as u32) + (d.top_size as u32) <= 0xFFFF && (d.bottom_start as u32) + (
    d.bottom_size as u32) <= 0xFFFF && (d.right_start as u32) + (d.right_size as u32) <= 0xFFFF
        && (d.left_start as u32) + (d.left_size as u32) <= 0xFFFF
}

/// The collision detection in the 18 bytes at `pos`.
fn read_detection(file: &[u8], pos: u64) -> (r: ColDetection)
    requires
        pos + 18 <= file@.len(),
    ensures
        r == detection_of(u16s_at(file@, pos as int, 9)),
{
    let v = read_u16s(file, pos, 9);
    let raw: [u16; 9] = [v[0], v[1], v[2], v[3], v[4], v[5], v[6], v[7], v[8]];
    ColDetection::from_raw(&raw)
}

/// The `k`-th group of three of `raw`.
fn triple_at(raw: &Vec<u16>, k: usize) -> (r: Vec<u16>)
    requires
        3 * k + 3 <= raw@.len(),
    ensures
        r@ == triple(raw@, k as int),
{
    let mut t: Vec<u16> = Vec::new();
    let rlen = raw.len();
    t.push(raw[3 * k]);
    t.push(raw[3 * k + 1]);
    t.push(raw[3 * k + 2]);
    assert(t@ =~= triple(raw@, k as int));
    t
}

/// The `count` collision detections at `direct`.
fn read_detections(file: &[u8], direct: u64, count: u64) -> (r: Vec<ColDetection>)
    requires
        direct + 18 * count <= file@.len(),
    ensures
        r@ == Seq::new(
            count as nat,
            |k: int| detection_of(u16s_at(file@, direct + 18 * k, 9)),
        ),
{
    let ghost ds = Seq::new(
        count as nat,
        |k: int| detection_of(u16s_at(file@, direct + 18 * k, 9)),
    );
    let mut out: Vec<ColDetection> = Vec::new();
    let mut k: u64 = 0;
    let flen = file.len();
    while k < count
        invariant
            k <= count,
            flen == file@.len(),
            direct + 18 * count <= file@.len(),
            ds == Seq::new(
                count as nat,
                |k: int| detection_of(u16s_at(file@, direct + 18 * k, 9)),
            ),
            out@ == ds.subrange(0, k as int),
        decreases count - k,
    {
        let d = read_detection(file, direct + 18 * k);
        out.push(d);
        k = k + 1;
        assert(out@ =~= ds.subrange(0, k as int));
    }
    assert(out@ =~= ds);
    out
}

/// The most planes a detection needs; `None` where a detection's run ends
/// past the range of a `u16`.
fn plane_total(ds: &Vec<ColDetection>) -> (r: Option<u16>)
    ensures
        match r {
            None => exists|k: int| 0 <= k < ds@.len() && !detection_ends_fit(#[trigger] ds@[k]),
            Some(t) => (forall|k: int| 0 <= k < ds@.len() ==> detection_ends_fit(#[trigger] ds@[k]))
                && t == max_total_planes(ds@),
        },
{
    let mut total: u16 = 0;
    let mut k: usize = 0;
    while k < ds.len()
        invariant
            k <= ds@.len(),
            forall|j: int| 0 <= j < k ==> detection_ends_fit(#[trigger] ds@[j]),
            total == max_total_planes(ds@.subrange(0, k as int)),
        decreases ds@.len() - k,
    {
        let d = &ds[k];
        assert(ds@.subrange(0, k + 1).drop_last() =~= ds@.subrange(0, k as int));
        if !ends_fit(d) {
            return None;
        }
        let t = d.calc_total_planes();
        if t > total {
            total = t;
        }
        k = k + 1;
    }
    assert(ds@.subrange(0, k as int) =~= ds@);
    Some(total)
}

/// The `n` planes at `at`.
fn read_planes(file: &[u8], at: u64, n: usize) -> (r: Vec<PlaneInfo>)
    requires
        n > 0 ==> at + 4 * n <= file@.len(),
    ensures
        r@ == u32s_at(file@, at as int, n as int).map_values(|w: u32| plane_of_word(w)),
{
    let raw = read_u32s(file, at, n);
    let ghost ps = raw@.map_values(|w: u32| plane_of_word(w));
    let mut out: Vec<PlaneInfo> = Vec::new();
    let mut k: usize = 0;
    while k < raw.len()
        invariant
            k <= raw@.len(),
            ps == raw@.map_values(|w: u32| plane_of_word(w)),
            out@ == ps.subrange(0, k as int),
        decreases raw@.len() - k,
    {
        let pi = to_plane_info(raw[k]);
        out.push(pi);
        k = k + 1;
        assert(out@ =~= ps.subrange(0, k as int));
    }
    assert(out@ =~= ps);
    out
}

/// The furthest end of a plane; `None` where a plane ends past the range of
/// a `u16`.
fn connection_total(ps: &Vec<PlaneInfo>) -> (r: Option<u16>)
    ensures
        match r {
            None => exists|k: int|
                0 <= k < ps@.len() && #[trigger] ps@[k].start + ps@[k].length > 0xFFFF,
            Some(t) => (forall|k: int|
                0 <= k < ps@.len() ==> #[trigger] ps@[k].start + ps@[k].length <= 0xFFFF) && t
                == max_plane_end(ps@),
        },
{
    let mut total: u16 = 0;
    let mut k: usize = 0;
    while k < ps.len()
        invariant
            k <= ps@.len(),
            forall|j: int| 0 <= j < k ==> #[trigger] ps@[j].start + ps@[j].length <= 0xFFFF,
            total == max_plane_end(ps@.subrange(0, k as int)),
        decreases ps@.len() - k,
    {
        let pl = ps[k];
        assert(ps@.subrange(0, k + 1).drop_last() =~= ps@.subrange(0, k as int));
        if (pl.start as u32) + (pl.length as u32) > 0xFFFF {
            return None;
        }
        let end = pl.start + pl.length;
        if end > total {
            total = end;
        }
        k = k + 1;
    }
    assert(ps@.subrange(0, k as int) =~= ps@);
    Some(total)
}

/// The highest value.
fn highest(cs: &Vec<u16>) -> (r: u16)
    ensures
        r == max_of(cs@),
{
    let mut h: u16 = 0;
    let mut k: usize = 0;
    while k < cs.len()
        invariant
            k <= cs@.len(),
            h == max_of(cs@.subrange(0, k as int)),
        decreases cs@.len() - k,
    {
        assert(cs@.subrange(0, k + 1).drop_last() =~= cs@.subrange(0, k as int));
        if cs[k] > h {
            h = cs[k];
        }
        k = k + 1;
    }
    assert(cs@.subrange(0, k as int) =~= cs@);
    h
}

/// The `n` collision points held in `raw`, three `u16`s each.
fn points_from(raw: &Vec<u16>, n: usize) -> (r: Result<Vec<CollisionPoint>, ColError>)
    requires
        raw@.len() == 3 * n,
    ensures
        match points_error(raw@, n as nat) {
            Some(e) => r == Err::<Vec<CollisionPoint>, ColError>(e),
            None => r is Ok && r->Ok_0@.len() == n && forall|j: int|
                0 <= j < n ==> point_from_raw(#[trigger] r->Ok_0@[j], triple(raw@, j)),
        },
{
    let mut points: Vec<CollisionPoint> = Vec::new();
    let mut k: usize = 0;
    while k < n
        invariant
            k <= n,
            raw@.len() == 3 * n,
            points_error(raw@, k as nat) is None,
            points@.len() == k,
            forall|j: int| 0 <= j < k ==> point_from_raw(#[trigger] points@[j], triple(raw@, j)),
        decreases n - k,
    {
        let t = triple_at(raw, k);
        match CollisionPoint::from_raw(t.as_slice()) {
            Ok(p) => {
                points.push(p);
            },
            Err(e) => {
                assert(points_error(raw@, (k + 1) as nat) == Some(e));
                proof {
                    lemma_points_error_stays(raw@, (k + 1) as nat, n as nat);
                }
                return Err(e);
            },
        }
        k = k + 1;
    }
    Ok(points)
}

proof fn lemma_points_error_stays(raw: Seq<u16>, k: nat, n: nat)
    requires
        k <= n,
        points_error(raw, k) is Some,
    ensures
        points_error(raw, n) == points_error(raw, k),
    decreases n - k,
{
    if k < n {
        lemma_points_error_stays(raw, k, (n - 1) as nat);
    }
}

proof fn lemma_spawns_error_stays(raw: Seq<u16>, k: nat, n: nat)
    requires
        k <= n,
        spawns_error(raw, k) is Some,
    ensures
        spawns_error(raw, n) == spawns_error(raw, k),
    decreases n - k,
{
    if k < n {
        lemma_spawns_error_stays(raw, k, (n - 1) as nat);
    }
}

/// The `n` spawn points held in `raw`, three `u16`s each.
fn spawns_from(raw: &Vec<u16>, n: usize) -> (r: Result<Vec<Spawn>, ColError>)
    requires
        raw@.len() == 3 * n,
    ensures
        match spawns_error(raw@, n as nat) {
            Some(e) => r == Err::<Vec<Spawn>, ColError>(e),
            None => r is Ok && r->Ok_0@.len() == n && forall|j: int|
                0 <= j < n ==> spawn_from_raw(#[trigger] r->Ok_0@[j], triple(raw@, j)),
        },
{
    let mut spawns: Vec<Spawn> = Vec::new();
    let mut k: usize = 0;
    while k < n
        invariant
            k <= n,
            raw@.len() == 3 * n,
            spawns_error(raw@, k as nat) is None,
            spawns@.len() == k,
            forall|j: int| 0 <= j < k ==> spawn_from_raw(#[trigger] spawns@[j], triple(raw@, j)),
        decreases n - k,
    {
        let t = triple_at(raw, k);
        match Spawn::from_raw(t.as_slice()) {
            Ok(sp) => {
                spawns.push(sp);
            },
            Err(e) => {
                assert(spawns_error(raw@, (k + 1) as nat) == Some(e));
                proof {
                    lemma_spawns_error_stays(raw@, (k + 1) as nat, n as nat);
                }
                return Err(e);
            },
        }
        k = k + 1;
    }
    Ok(spawns)
}

/// The collision data of a stage file, read from the collision pointers at
/// `col_ptr`: the collision detections, the planes they need, the
/// connections those planes need, the points the connections name and the
/// spawn points. An error where a read would end past the end of the file,
/// where a value is unknown, or where a length read from the file is zero
/// or does not fit in 16 bits.
pub fn export_collision(config: ExportConfig) -> (r: Result<ExportedCollision, ColError>)
    ensures
        match export_error(config.input@, config.col_ptr) {
            Some(e) => r == Err::<ExportedCollision, ColError>(e),
            None => r is Ok && exported(config.input@, config.col_ptr, r->Ok_0),
        },
{
    let file = config.input.as_slice();
    let ptr = config.col_ptr;
    let ghost fv = file@;
    let len = file.len() as u64;
    // the collision pointers
    if ptr as u64 + 28 > len {
        return Err(ColError::OutOfRange(ptr as u64));
    }
    let w = read_u32s(file, ptr as u64, 7);
    let raw: [u32; 7] = [w[0], w[1], w[2], w[3], w[4], w[5], w[6]];
    assert(raw@ =~= u32s_at(fv, ptr as int, 7));
    let main_ptrs = match ColPtrs::from_raw(&raw) {
        Ok(p) => p,
        Err(e) => {
            return Err(e);
        },
    };
    assert(main_ptrs == export_ptrs(fv, ptr));
    // the collision detection structs
    let count = main_ptrs.col_count as u64;
    let direct = main_ptrs.col_direct as u64;
    if direct + 18 * count > len {
        return Err(ColError::OutOfRange(direct));
    }
    let col_detect = read_detections(file, direct, count);
    assert(col_detect@ == export_detection(fv, ptr));
    // the number of planes: the most any detection needs
    let total = match plane_total(&col_detect) {
        Some(t) => t,
        None => {
            return Err(ColError::LengthOverflow);
        },
    };
    // the planes
    let n_planes = total as u64;
    let planes_at = main_ptrs.planes as u64;
    if n_planes > 0 && planes_at + 4 * n_planes > len {
        return Err(ColError::OutOfRange(planes_at));
    }
    if n_planes == 0 {
        return Err(ColError::NoPlanes);
    }
    let plane_info = read_planes(file, planes_at, total as usize);
    assert(plane_info@ == export_planes(fv, ptr));
    // the number of connections: the furthest end of a plane
    let n_conn = match connection_total(&plane_info) {
        Some(t) => t,
        None => {
            return Err(ColError::LengthOverflow);
        },
    };
    // the connections
    let conn_at = main_ptrs.connections as u64;
    if n_conn > 0 && conn_at + 2 * (n_conn as u64) > len {
        return Err(ColError::OutOfRange(conn_at));
    }
    if n_conn == 0 {
        return Err(ColError::NoConnections);
    }
    let connect_raw = read_u16s(file, conn_at, n_conn as usize);
    assert(connect_raw@ == export_connections(fv, ptr));
    // the number of points: one more than the highest connection
    let n_points = (highest(&connect_raw) as u64) + 1;
    // the points
    let points_at = main_ptrs.points as u64;
    if points_at + 6 * n_points > len {
        return Err(ColError::OutOfRange(points_at));
    }
    let points_raw = read_u16s(file, points_at, (3 * n_points) as usize);
    assert(points_raw@ == export_points_raw(fv, ptr));
    let points = match points_from(&points_raw, n_points as usize) {
        Ok(p) => p,
        Err(e) => {
            return Err(e);
        },
    };
    // the spawn points
    let spawn_count = main_ptrs.spawn_count as u64;
    if 3 * spawn_count > 0xFFFF {
        return Err(ColError::LengthOverflow);
    }
    let spawns_at = main_ptrs.spawns as u64;
    if spawn_count > 0 && spawns_at + 6 * spawn_count > len {
        return Err(ColError::OutOfRange(spawns_at));
    }
    let spawns_raw = read_u16s(file, spawns_at, (3 * spawn_count) as usize);
    assert(spawns_raw@ == export_spawns_raw(fv, ptr));
    let spawns = match spawns_from(&spawns_raw, spawn_count as usize) {
        Ok(s) => s,
        Err(e) => {
            return Err(e);
        },
    };
    Ok(
        ExportedCollision {
            ptrs: main_ptrs,
            detection: col_detect,
            planes: plane_info,
            connections: connect_raw,
            points,
            spawns,
        },
    )
}

} // verus!
