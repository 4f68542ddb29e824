//! Importing collision data into a stage resource file.
use vstd::prelude::*;
use crate::bytes::{be_u16, push_u16, read_u16_at, u16_bytes};
use crate::collision::buffer::{
    collision_buffer, collision_layout, collision_ptrs, generate_buffer, lemma_buffer_pads_to_layout,
    lemma_write_aligned, pad_to4,
};
use crate::collision::cursor::{align_cursor, round_up, write_at, ByteCursor};
use crate::collision::formatted::{
    in_key_order, parts_of, set_plane_count, sets_view, total_planes, CollisionSet,
    FormattedCollision,
};
use crate::collision::buffer::{flat_bytes, u16s_bytes};
use crate::collision::parts::{ColDetection, PlaneInfo};
use crate::collision::spawn::Spawn;
use crate::collision::N64Bytes;
use crate::collision::point::CollisionPoint;
use crate::collision::pointers::{col_ptrs_bytes, spec_make_res_ptr, ColPtrs};
use crate::collision::ColError;

verus! {

/// What an import takes: the collision data, the contents of the stage
/// resource file it goes into, and the start of the file's resource pointer
/// chain, if the new pointers are to join it.
pub struct ImportConfig {
    pub input: FormattedCollision,
    pub output: Vec<u8>,
    pub verbose: bool,
    pub res_ptr: Option<u32>,
    pub req_start: Option<u32>,
}

impl ImportConfig {
    pub fn new(
        i: FormattedCollision,
        o: Vec<u8>,
        v: bool,
        res: Option<u32>,
        req: Option<u32>,
    ) -> (r: Self)
        ensures
            r.input == i,
            r.output == o,
            r.verbose == v,
            r.res_ptr == res,
            r.req_start == req,
    {
        ImportConfig { input: i, output: o, verbose: v, res_ptr: res, req_start: req }
    }
}

/// What an import gives: the message that a successful import reports (see
/// `import_message`), the new file contents, the collision buffer written
/// into it (ending with the collision pointers), the pointers, and the offset
/// of the pointers in the file.
pub struct ImportedCollision {
    pub message: String,
    pub file: Vec<u8>,
    pub buffer: Vec<u8>,
    pub ptrs: ColPtrs,
    pub ptrs_ptr: u32,
}

/// The message that a successful import reports: the import writes the
/// collision data and its pointers, but does not yet replace collision
/// pointers in place or update a file's list of required files.
pub open spec fn import_message() -> Seq<char> {
    "Import not fully implemented yet"@
}

/// The resource pointer chain of `file` followed from the link at word
/// offset `chain`: the byte offset of the last link read (`ptr` where there
/// is none), or why it cannot be followed within `steps` links.
pub open spec fn chain_end(file: Seq<u8>, chain: u16, ptr: u64, steps: nat) -> Result<
    u64,
    ColError,
>
    decreases steps,
{
    if chain == 0xFFFF {
        Ok(ptr)
    } else if steps == 0 {
        Err(ColError::EndlessChain)
    } else {
        let p = (chain << 2u16) as u64;
        if p + 2 > file.len() {
            Err(ColError::OutOfRange(p))
        } else {
            chain_end(file, be_u16(file, p as int), p, (steps - 1) as nat)
        }
    }
}

/// The number of links followed before a chain is taken not to end. A chain
/// that has not ended after this many links has met one of its `0xFFFF`
/// possible link values twice, and so goes round forever.
pub const CHAIN_STEPS: u32 = 0x10000;

/// The collision pointers turned into resource chain links, the structure
/// being at `at`.
pub open spec fn linked_ptrs(p: ColPtrs, at: u32) -> ColPtrs {
    ColPtrs {
        points: spec_make_res_ptr(Some((at + 0x8) as u32), p.points),
        connections: spec_make_res_ptr(Some((at + 0xC) as u32), p.connections),
        planes: spec_make_res_ptr(Some((at + 0x10) as u32), p.planes),
        col_direct: spec_make_res_ptr(Some((at + 0x18) as u32), p.col_direct),
        spawns: spec_make_res_ptr(None, p.spawns),
        ..p
    }
}

/// Where in the file the collision buffer goes: the end of the file rounded
/// up to eight bytes.
pub open spec fn output_start(file: Seq<u8>) -> int {
    round_up(file.len() as int, 8)
}

/// The offset of the collision pointers, which follow the buffer at a
/// multiple of four bytes.
pub open spec fn ptrs_offset(file: Seq<u8>, buffer: Seq<u8>) -> u32 {
    (round_up(buffer.len() as int, 4) + output_start(file)) as u32
}

/// The outcome of importing a collision buffer with pointers `ptrs` into
/// `file`: the new file, the buffer as written, the pointers and their offset.
pub open spec fn import_result(
    file: Seq<u8>,
    buffer: Seq<u8>,
    ptrs: ColPtrs,
    res_ptr: Option<u32>,
) -> Result<(Seq<u8>, Seq<u8>, ColPtrs, u32), ColError> {
    let at = ptrs_offset(file, buffer);
    match res_ptr {
        None => {
            let written = pad_to4(buffer) + col_ptrs_bytes(ptrs);
            Ok((write_at(file, output_start(file), written), written, ptrs, at))
        },
        Some(chain) => {
            let linked = linked_ptrs(ptrs, at);
            match chain_end(file, (chain >> 2u32) as u16, 0, CHAIN_STEPS as nat) {
                Err(e) => Err(e),
                Ok(ptr) => {
                    let patched = write_at(
                        file,
                        ptr as int,
                        u16_bytes((((at + 4) as u32 >> 2u32) & 0xFFFFu32) as u16),
                    );
                    let written = pad_to4(buffer) + col_ptrs_bytes(linked);
                    Ok((write_at(patched, output_start(file), written), written, linked, at))
                },
            }
        },
    }
}

/// The sizes for which an import of the buffer stays inside the machine's
/// integers.
pub open spec fn import_fits(file: Seq<u8>, buffer: Seq<u8>, res_ptr: Option<u32>) -> bool {
    &&& file.len() + 8 <= usize::MAX
    &&& output_start(file) + round_up(buffer.len() as int, 4) + 28 <= usize::MAX
    &&& output_start(file) + round_up(buffer.len() as int, 4) <= u64::MAX
    &&& res_ptr is Some ==> ptrs_offset(file, buffer) + 0x18 <= u32::MAX
}

/// Follows the resource pointer chain from `chain` (a word offset) to its end.
fn find_chain_end(file: &[u8], start: u16) -> (r: Result<u64, ColError>)
    ensures
        r == chain_end(file@, start, 0, CHAIN_STEPS as nat),
{
    let mut chain = start;
    let mut ptr: u64 = 0;
    let mut steps: u32 = CHAIN_STEPS;
    while chain != 0xFFFF
        invariant
            chain_end(file@, chain, ptr, steps as nat) == chain_end(
                file@,
                start,
                0,
                CHAIN_STEPS as nat,
            ),
        decreases steps,
    {
        if steps == 0 {
            return Err(ColError::EndlessChain);
        }
        ptr = (chain << 2) as u64;
        if ptr + 2 > file.len() as u64 {
            return Err(ColError::OutOfRange(ptr));
        }
        chain = read_u16_at(file, ptr as usize);
        steps = steps - 1;
    }
    Ok(ptr)
}

/// Makes the end of the file's resource pointer chain (from word offset
/// `chain`) point at the first pointer of the structure at `at`.
fn link_chain_end(file: Vec<u8>, chain: u16, at: u32) -> (r: Result<Vec<u8>, ColError>)
    requires
        at + 4 <= u32::MAX,
    ensures
        match chain_end(file@, chain, 0, CHAIN_STEPS as nat) {
            Err(e) => r == Err::<Vec<u8>, ColError>(e),
            Ok(ptr) => r is Ok && r->Ok_0@ == write_at(
                file@,
                ptr as int,
                u16_bytes((((at + 4) as u32 >> 2u32) & 0xFFFFu32) as u16),
            ),
        },
{
    let ptr = match find_chain_end(file.as_slice(), chain) {
        Ok(p) => p,
        Err(e) => {
            return Err(e);
        },
    };
    proof {
        lemma_chain_end_bound(file@, chain, 0, CHAIN_STEPS as nat);
    }
    // the chain's end now links to the first pointer of the structure
    let ptrs_word_offset = (((at + 4) >> 2) & 0xFFFF) as u16;
    let mut link: Vec<u8> = Vec::new();
    push_u16(&mut link, ptrs_word_offset);
    let mut lcsr = ByteCursor::new(file);
    lcsr.pos = ptr as usize;
    lcsr.write_all(link.as_slice());
    Ok(lcsr.buf)
}

/// A chain's end is at a small offset.
proof fn lemma_chain_end_bound(file: Seq<u8>, chain: u16, ptr: u64, steps: nat)
    requires
        ptr <= 0xFFFF,
    ensures
        chain_end(file, chain, ptr, steps) matches Ok(p) ==> p <= 0xFFFF,
    decreases steps,
{
    if chain != 0xFFFF && steps > 0 {
        let p = (chain << 2u16) as u64;
        assert((chain << 2u16) as u64 <= 0xFFFF) by (bit_vector);
        lemma_chain_end_bound(file, be_u16(file, p as int), p, (steps - 1) as nat);
    }
}

/// Writes the collision buffer and its pointers into the file.
fn place_buffer(file: Vec<u8>, buffer: Vec<u8>, ptrs: ColPtrs, res_ptr: Option<u32>) -> (r: Result<
    ImportedCollision,
    ColError,
>)
    requires
        import_fits(file@, buffer@, res_ptr),
    ensures
        match import_result(file@, buffer@, ptrs, res_ptr) {
            Ok((f, written, p, at)) => r is Ok && r->Ok_0.file@ == f && r->Ok_0.buffer@ == written
                && r->Ok_0.ptrs == p && r->Ok_0.ptrs_ptr == at && r->Ok_0.message@
                == import_message(),
            Err(e) => r == Err::<ImportedCollision, ColError>(e),
        },
{
    let ghost file0 = file@;
    // the end of the output file, aligned to eight bytes
    let mut fcsr = ByteCursor::new(file);
    fcsr.pos = fcsr.buf.len();
    let output_start = align_cursor(&mut fcsr, 8);
    let mut file = fcsr.buf;
    let mut ptrs = ptrs;
    // the collision pointers follow the buffer, word aligned
    let mut bufcsr = ByteCursor::new(buffer);
    bufcsr.pos = bufcsr.buf.len();
    let ptrs_ptr = (align_cursor(&mut bufcsr, 4) as u64 + output_start as u64) as u32;
    // where the file has a resource pointer chain, the pointers join it
    if let Some(chain) = res_ptr {
        ptrs.to_resource_pointers(ptrs_ptr, None);
        file = match link_chain_end(file, (chain >> 2) as u16, ptrs_ptr) {
            Ok(f) => f,
            Err(e) => {
                return Err(e);
            },
        };
    }
    // the pointers go into the buffer, big-endian
    let ptr_bytes = ptrs.to_bytes();
    bufcsr.write_all(ptr_bytes.as_slice());
    proof {
        lemma_write_end(buffer@, bufcsr.buf@, ptr_bytes@);
    }
    // the buffer goes into the file at its aligned end
    let mut ocsr = ByteCursor::new(file);
    ocsr.pos = output_start;
    ocsr.write_all(bufcsr.buf.as_slice());
    let message = "Import not fully implemented yet".to_owned();
    Ok(ImportedCollision { message, file: ocsr.buf, buffer: bufcsr.buf, ptrs, ptrs_ptr })
}

proof fn lemma_write_end(buffer: Seq<u8>, after: Seq<u8>, data: Seq<u8>)
    requires
        after == write_at(buffer, round_up(buffer.len() as int, 4), data),
    ensures
        after == pad_to4(buffer) + data,
{
    crate::collision::buffer::lemma_write_aligned(buffer, data);
}

/// The collision data of `config` can be imported: its planes fit the file's
/// 16 bit plane indices, and the file with the collision data and its
/// pointers stays within the machine's integers.
pub open spec fn import_in_bounds(config: ImportConfig) -> bool {
    &&& total_planes(sets_view(config.input.collision@)) <= 0xFFFF
    &&& config.output@.len() + 8 <= usize::MAX
    &&& forall|pts: Seq<CollisionPoint>|
        in_key_order(pts, config.input.points@) ==> {
            let layout = collision_layout(
                pts,
                config.input.spawns@,
                parts_of(sets_view(config.input.collision@)),
            );
            &&& output_start(config.output@) + layout.len() <= u64::MAX
            &&& layout.len() + 4 <= usize::MAX
            &&& import_fits(config.output@, layout, config.res_ptr)
        }
}

/// What an import of the collision data of `config` gives: the outcome of
/// importing its collision buffer, with the points in key order, and its
/// pointers (see `import_result`).
pub open spec fn import_outcome(config: ImportConfig, r: Result<ImportedCollision, ColError>) -> bool {
    exists|pts: Seq<CollisionPoint>|
        {
            &&& in_key_order(pts, config.input.points@)
            &&& match import_result(
                config.output@,
                collision_buffer(
                    pts,
                    config.input.spawns@,
                    parts_of(sets_view(config.input.collision@)),
                ),
                collision_ptrs(
                    pts,
                    config.input.spawns@,
                    parts_of(sets_view(config.input.collision@)),
                    output_start(config.output@) as u64,
                ),
                config.res_ptr,
            ) {
                Ok((file, written, ptrs, at)) => r is Ok && r->Ok_0.message@ == import_message()
                    && r->Ok_0.file@ == file && r->Ok_0.buffer@ == written && r->Ok_0.ptrs
                    == ptrs && r->Ok_0.ptrs_ptr == at,
                Err(e) => r == Err::<ImportedCollision, ColError>(e),
            }
        }
}

/// Imports collision data into the contents of a stage resource file: the
/// collision buffer goes at the end of the file (rounded up to eight bytes),
/// followed by the collision pointers; where a resource pointer chain is
/// given, the pointers become links of it and the chain's last link is made
/// to point at them. On success it gives the import's message (see
/// `import_message`) with the new file, the buffer and the pointers.
pub fn import_collision(config: ImportConfig) -> (r: Result<ImportedCollision, ColError>)
    requires
        import_in_bounds(config),
    ensures
        import_outcome(config, r),
{
    let ImportConfig { input: collision, output, verbose: _, res_ptr, req_start: _ } = config;
    let len = output.len();
    let output_start: usize = if len % 8 == 0 {
        len
    } else {
        len + (8 - len % 8)
    };
    let (buffer, ptrs, _) = generate_buffer(&collision, output_start as u64);
    proof {
        let p = parts_of(sets_view(collision.collision@));
        let pts = choose|pts: Seq<CollisionPoint>|
            {
                &&& in_key_order(pts, collision.points@)
                &&& buffer@ == collision_buffer(pts, collision.spawns@, p)
                &&& ptrs == collision_ptrs(pts, collision.spawns@, p, output_start as u64)
            };
        let layout = collision_layout(pts, collision.spawns@, p);
        lemma_buffer_pads_to_layout(pts, collision.spawns@, p);
        lemma_write_aligned(buffer@, Seq::empty());
        lemma_write_aligned(layout, Seq::empty());
        assert(round_up(buffer@.len() as int, 4) == round_up(layout.len() as int, 4));
        assert(import_fits(output@, buffer@, res_ptr));
    }
    let r = place_buffer(output, buffer, ptrs, res_ptr);
    r
}

/// The planes of the first sets are no more than those of all of them.
proof fn lemma_total_planes_prefix(sets: Seq<crate::collision::formatted::SetView>, k: int)
    requires
        0 <= k <= sets.len(),
    ensures
        total_planes(sets.subrange(0, k)) <= total_planes(sets),
    decreases sets.len(),
{
    if k == sets.len() {
        assert(sets.subrange(0, k) =~= sets);
    } else {
        lemma_total_planes_prefix(sets.drop_last(), k);
        assert(sets.drop_last().subrange(0, k) =~= sets.subrange(0, k));
    }
}

/// The number of planes of the sets, where it is at most `0xFFFF`.
fn plane_count(sets: &Vec<CollisionSet>) -> (r: Option<u64>)
    ensures
        match r {
            Some(n) => n == total_planes(sets_view(sets@)) && n <= 0xFFFF,
            None => total_planes(sets_view(sets@)) > 0xFFFF,
        },
{
    let ghost sv = sets_view(sets@);
    let mut total: u64 = 0;
    let mut j: usize = 0;
    assert(sv.subrange(0, 0) =~= Seq::<crate::collision::formatted::SetView>::empty());
    while j < sets.len()
        invariant
            j <= sets@.len(),
            sv == sets_view(sets@),
            total == total_planes(sv.subrange(0, j as int)),
            total <= 0xFFFF,
        decreases sets@.len() - j,
    {
        let s = &sets[j];
        let n: u128 = s.top.len() as u128 + s.bottom.len() as u128 + s.right.len() as u128
            + s.left.len() as u128;
        assert(sv.subrange(0, j + 1).drop_last() =~= sv.subrange(0, j as int));
        assert(n == set_plane_count(sv[j as int]));
        if total as u128 + n > 0xFFFF {
            proof {
                lemma_total_planes_prefix(sv, j + 1);
            }
            return None;
        }
        total = (total as u128 + n) as u64;
        j = j + 1;
    }
    assert(sv.subrange(0, j as int) =~= sv);
    Some(total)
}

/// The bytes of values of one size are that size times their number.
proof fn lemma_flat_len<T: N64Bytes>(s: Seq<T>)
    requires
        forall|x: T| #[trigger] x.n64_bytes().len() == T::spec_size(),
    ensures
        flat_bytes(s).len() == T::spec_size() * s.len(),
    decreases s.len(),
{
    if s.len() > 0 {
        lemma_flat_len(s.drop_last());
        let k = T::spec_size() as int;
        let n = s.len() as int;
        assert(k * n == k * (n - 1) + k) by (nonlinear_arith);
    }
}

/// The bytes of `u16`s are two for each.
proof fn lemma_u16s_len(s: Seq<u16>)
    ensures
        u16s_bytes(s).len() == 2 * s.len(),
    decreases s.len(),
{
    if s.len() > 0 {
        lemma_u16s_len(s.drop_last());
    }
}

/// Sequences of the points in key order have one length.
proof fn lemma_key_order_len(
    p1: Seq<CollisionPoint>,
    p2: Seq<CollisionPoint>,
    m: Map<usize, CollisionPoint>,
)
    requires
        in_key_order(p1, m),
        in_key_order(p2, m),
    ensures
        p1.len() == p2.len(),
{
    let k1 = choose|ks: Seq<usize>|
        {
            &&& forall|i: int, j: int| 0 <= i < j < ks.len() ==> ks[i] < ks[j]
            &&& ks.to_set() == m.dom()
            &&& p1 == ks.map_values(|k: usize| m[k])
        };
    let k2 = choose|ks: Seq<usize>|
        {
            &&& forall|i: int, j: int| 0 <= i < j < ks.len() ==> ks[i] < ks[j]
            &&& ks.to_set() == m.dom()
            &&& p2 == ks.map_values(|k: usize| m[k])
        };
    assert(k1.no_duplicates()) by {
        assert forall|i: int, j: int| 0 <= i < k1.len() && 0 <= j < k1.len() && i != j implies k1[i]
            != k1[j] by {
            if i < j {
                assert(k1[i] < k1[j]);
            } else {
                assert(k1[j] < k1[i]);
            }
        }
    }
    assert(k2.no_duplicates()) by {
        assert forall|i: int, j: int| 0 <= i < k2.len() && 0 <= j < k2.len() && i != j implies k2[i]
            != k2[j] by {
            if i < j {
                assert(k2[i] < k2[j]);
            } else {
                assert(k2[j] < k2[i]);
            }
        }
    }
    k1.unique_seq_to_set();
    k2.unique_seq_to_set();
}

/// `x` rounded up to a multiple of four.
fn round4(x: u128) -> (r: u128)
    requires
        x + 4 <= u128::MAX,
    ensures
        r == round_up(x as int, 4),
{
    if x % 4 == 0 {
        x
    } else {
        x + (4 - x % 4)
    }
}

/// Whether the collision data of `config` can be imported (see
/// `import_in_bounds`).
pub fn import_in_bounds_check(config: &ImportConfig) -> (r: bool)
    ensures
        r == import_in_bounds(*config),
{
    let file_len = config.output.len();
    if file_len as u128 + 8 > usize::MAX as u128 {
        return false;
    }
    if plane_count(&config.input.collision).is_none() {
        return false;
    }
    let (pts, spawns, pi, con, det) = config.input.to_parts();
    let ghost p = parts_of(sets_view(config.input.collision@));
    let a = round4(6 * pts.len() as u128);
    let b = round4(a + 2 * con.len() as u128);
    let c = round4(b + 4 * pi.len() as u128);
    let d = round4(c + 18 * det.len() as u128);
    let len = d + 6 * spawns.len() as u128;
    let start: u128 = if file_len % 8 == 0 {
        file_len as u128
    } else {
        file_len as u128 + (8 - file_len % 8) as u128
    };
    let padded = round4(len);
    proof {
        assert forall|x: CollisionPoint| #[trigger] x.n64_bytes().len() == CollisionPoint::spec_size() by {}
        assert forall|x: PlaneInfo| #[trigger] x.n64_bytes().len() == PlaneInfo::spec_size() by {}
        assert forall|x: ColDetection| #[trigger] x.n64_bytes().len() == ColDetection::spec_size() by {}
        assert forall|x: Spawn| #[trigger] x.n64_bytes().len() == Spawn::spec_size() by {}
        lemma_flat_len(pi@);
        lemma_flat_len(det@);
        lemma_flat_len(spawns@);
        lemma_u16s_len(con@);
        assert forall|q: Seq<CollisionPoint>| in_key_order(q, config.input.points@) implies collision_layout(
            q,
            config.input.spawns@,
            p,
        ).len() == len by {
            lemma_key_order_len(q, pts@, config.input.points@);
            lemma_flat_len(q);
            reveal(collision_layout);
            lemma_write_aligned(flat_bytes(q), Seq::empty());
            let la = pad_to4(flat_bytes(q));
            lemma_write_aligned(la + u16s_bytes(p.connections), Seq::empty());
            let lb = pad_to4(la + u16s_bytes(p.connections));
            lemma_write_aligned(lb + flat_bytes(p.planes), Seq::empty());
            let lc = pad_to4(lb + flat_bytes(p.planes));
            lemma_write_aligned(lc + flat_bytes(p.detections), Seq::empty());
        }
    }
    let fits = start + len <= u64::MAX as u128 && len + 4 <= usize::MAX as u128 && start + padded
        + 28 <= usize::MAX as u128 && start + padded <= u64::MAX as u128;
    if !fits {
        proof {
            assert(in_key_order(pts@, config.input.points@));
        }
        return false;
    }
    match config.res_ptr {
        Some(_) => {
            let at = (start + padded) as u32;
            if at as u128 + 0x18 > u32::MAX as u128 {
                proof {
                    assert(in_key_order(pts@, config.input.points@));
                }
                return false;
            }
        },
        None => {},
    }
    true
}

/// Imports collision data where `import_collision` can (see
/// `import_in_bounds`), and says where it cannot.
pub fn import_collision_checked(config: ImportConfig) -> (r: Result<ImportedCollision, ColError>)
    ensures
        import_in_bounds(config) ==> import_outcome(config, r),
        !import_in_bounds(config) ==> r == Err::<ImportedCollision, ColError>(ColError::TooLarge),
{
    if !import_in_bounds_check(&config) {
        return Err(ColError::TooLarge);
    }
    import_collision(config)
}

} // verus!
