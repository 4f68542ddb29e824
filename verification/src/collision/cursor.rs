//! An in-memory byte buffer with a position, written the way a file is:
//! writing past the end first fills the gap with zeros.
use vstd::prelude::*;

verus! {

/// A byte buffer and a position in it (the position may lie past the end).
pub struct ByteCursor {
    pub buf: Vec<u8>,
    pub pos: usize,
}

pub open spec fn zero_bytes(n: int) -> Seq<u8> {
    Seq::new(n as nat, |i: int| 0u8)
}

/// The buffer after writing `data` at `pos`: a gap before `pos` is filled
/// with zeros, bytes under `data` are replaced, bytes after it are kept.
pub open spec fn write_at(buf: Seq<u8>, pos: int, data: Seq<u8>) -> Seq<u8> {
    let padded = if pos > buf.len() {
        buf + zero_bytes(pos - buf.len())
    } else {
        buf
    };
    padded.subrange(0, pos) + data + if pos + data.len() < padded.len() {
        padded.subrange(pos + data.len(), padded.len() as int)
    } else {
        Seq::empty()
    }
}

/// `data` written at `pos` of `buf`, where writing no bytes leaves the
/// buffer as it is.
pub open spec fn write_part(buf: Seq<u8>, pos: int, data: Seq<u8>) -> Seq<u8> {
    if data.len() == 0 {
        buf
    } else {
        write_at(buf, pos, data)
    }
}

/// `val` rounded up to a multiple of `align`.
pub open spec fn round_up(val: int, align: int) -> int {
    if val % align == 0 {
        val
    } else {
        val + (align - val % align)
    }
}

impl ByteCursor {
    pub fn new(buf: Vec<u8>) -> (r: Self)
        ensures
            r.buf@ == buf@,
            r.pos == 0,
    {
        ByteCursor { buf, pos: 0 }
    }

    /// Writes `data` at the position and moves the position past it; where
    /// there is no data, nothing is written.
    pub fn write_all(&mut self, data: &[u8])
        requires
            old(self).pos + data@.len() <= usize::MAX,
        ensures
            final(self).buf@ == write_part(old(self).buf@, old(self).pos as int, data@),
            final(self).pos == old(self).pos + data@.len(),
    {
        if data.len() == 0 {
            return;
        }
        let ghost old_buf = self.buf@;
        let start = self.pos;
        while self.buf.len() < start
            invariant
                self.pos == start,
                old_buf.len() <= self.buf@.len(),
                self.buf@.len() <= start || self.buf@.len() == old_buf.len(),
                self.buf@ == old_buf + zero_bytes(self.buf@.len() - old_buf.len()),
            decreases start - self.buf@.len(),
        {
            self.buf.push(0u8);
            assert(self.buf@ =~= old_buf + zero_bytes(self.buf@.len() - old_buf.len()));
        }
        let ghost padded = self.buf@;
        assert(old_buf + zero_bytes(0) =~= old_buf);
        assert(padded == if start > old_buf.len() {
            old_buf + zero_bytes(start - old_buf.len())
        } else {
            old_buf
        }) by {
            if start <= old_buf.len() {
                assert(old_buf + zero_bytes(0) =~= old_buf);
            }
        }
        let mut i: usize = 0;
        while i < data.len()
            invariant
                i <= data@.len(),
                start + data@.len() <= usize::MAX,
                start <= padded.len(),
                self.buf@ == write_at(padded, start as int, data@.subrange(0, i as int)),
            decreases data@.len() - i,
        {
            let at = start + i;
            if at < self.buf.len() {
                self.buf.set(at, data[i]);
            } else {
                self.buf.push(data[i]);
            }
            i = i + 1;
            assert(self.buf@ =~= write_at(padded, start as int, data@.subrange(0, i as int)));
        }
        assert(data@.subrange(0, i as int) =~= data@);
        assert(write_at(padded, start as int, data@) =~= write_at(old_buf, start as int, data@));
        self.pos = start + data.len();
    }
}

/// Moves the position forward until it is a multiple of `align`; returns
/// the new position.
pub fn align_cursor(csr: &mut ByteCursor, align: usize) -> (r: usize)
    requires
        align > 0,
        old(csr).pos + align <= usize::MAX,
    ensures
        r == round_up(old(csr).pos as int, align as int),
        final(csr).pos == r,
        final(csr).buf@ == old(csr).buf@,
{
    let pos = csr.pos;
    let r = pos % align;
    let aligned = if r == 0 {
        pos
    } else {
        pos + (align - r)
    };
    csr.pos = aligned;
    aligned
}

/// Writes `fill` bytes until the position is a multiple of `align`; returns
/// the new position.
pub fn fill_cursor(csr: &mut ByteCursor, align: usize, fill: u8) -> (r: usize)
    requires
        align > 0,
        old(csr).pos + align <= usize::MAX,
    ensures
        r == round_up(old(csr).pos as int, align as int),
        final(csr).pos == r,
        r == old(csr).pos ==> final(csr).buf@ == old(csr).buf@,
        r != old(csr).pos ==> final(csr).buf@ == write_at(
            old(csr).buf@,
            old(csr).pos as int,
            Seq::new((r - old(csr).pos) as nat, |i: int| fill),
        ),
{
    let ghost p0 = csr.pos as int;
    let ghost b0 = csr.buf@;
    let ghost target = round_up(p0, align as int);
    assert(p0 <= target < p0 + align) by (nonlinear_arith)
        requires
            align > 0,
            p0 >= 0,
            target == (if p0 % (align as int) == 0 {
                p0
            } else {
                p0 + (align - p0 % (align as int))
            }),
    ;
    while csr.pos % align != 0
        invariant
            align > 0,
            p0 <= csr.pos <= target,
            target == round_up(p0, align as int),
            target < p0 + align,
            p0 + align <= usize::MAX,
            0 <= p0,
            csr.pos == p0 ==> csr.buf@ == b0,
            csr.pos != p0 ==> csr.buf@ == write_at(
                b0,
                p0,
                Seq::new((csr.pos - p0) as nat, |i: int| fill),
            ),
        decreases target - csr.pos,
    {
        let ghost before = csr.buf@;
        let ghost k = csr.pos - p0;
        let one = [fill];
        csr.write_all(&one);
        assert(csr.pos <= target) by (nonlinear_arith)
            requires
                csr.pos == p0 + k + 1,
                (p0 + k) % (align as int) != 0,
                p0 <= p0 + k <= target,
                target == round_up(p0, align as int),
                target < p0 + align,
                align > 0,
        ;
        proof {
            if k == 0 {
                assert(Seq::<u8>::empty().push(fill) =~= seq![fill]);
                assert(one@ =~= seq![fill]);
            } else {
                assert(one@ =~= seq![fill]);
            }
            lemma_write_at_append(b0, p0, Seq::new(k as nat, |i: int| fill), fill);
            assert(Seq::new(k as nat, |i: int| fill).push(fill) =~= Seq::new((k + 1) as nat, |i: int| fill));
        }
    }
    assert(csr.pos == target) by (nonlinear_arith)
        requires
            (csr.pos as int) % (align as int) == 0,
            p0 <= csr.pos <= target,
            target == round_up(p0, align as int),
            target < p0 + align,
            align > 0,
    ;
    csr.pos
}

/// Writing data and then one byte right after it is writing both at once.
proof fn lemma_write_at_append(buf: Seq<u8>, pos: int, data: Seq<u8>, b: u8)
    requires
        0 <= pos,
    ensures
        write_at(write_at(buf, pos, data), pos + data.len(), seq![b]) == write_at(
            buf,
            pos,
            data.push(b),
        ),
{
    let w = write_at(buf, pos, data);
    assert(write_at(w, pos + data.len(), seq![b]) =~= write_at(buf, pos, data.push(b)));
}

} // verus!
