use vstd::prelude::*;

verus! {

/// Number of bytes needed to move `offset` up to the next multiple of
/// `alignment`.
pub open spec fn padding_for(offset: nat, alignment: nat) -> nat {
    ((alignment - offset % alignment) % (alignment as int)) as nat
}

/// Padding brings an offset to the next multiple of the alignment, and adds
/// nothing to an offset that is one already.
pub proof fn lemma_padding_aligns(offset: nat, alignment: nat)
    requires
        alignment > 0,
    ensures
        padding_for(offset, alignment) < alignment,
        (offset + padding_for(offset, alignment)) % alignment == 0,
        offset % alignment == 0 ==> padding_for(offset, alignment) == 0,
{
    let r = offset % alignment;
    let p = padding_for(offset, alignment);
    if r == 0 {
        assert(p == 0) by (nonlinear_arith)
            requires
                p == (alignment - r) % (alignment as int),
                r == 0,
                alignment > 0,
        ;
    } else {
        assert(p == alignment - r) by (nonlinear_arith)
            requires
                p == (alignment - r) % (alignment as int),
                0 < r < alignment,
        ;
        assert((offset + p) % alignment == 0) by (nonlinear_arith)
            requires
                r == offset % alignment,
                p == alignment - r,
                alignment > 0,
        ;
    }
}

/// One call on a cursor over a byte buffer, as far as what it changes.
pub enum CursorOp {
    /// `write` with these bytes.
    Write(Seq<u8>),
    /// `read` with this limit.
    Read(nat),
    /// `reset`.
    Reset,
    /// `reset_write`.
    ResetWrite,
    /// `reset_read`.
    ResetRead,
    /// A call that only looks: `flush`, `get_ref`, the positions and the
    /// paddings.
    Query,
}

/// Positions count modulo this number: they wrap around past `usize::MAX`.
pub open spec fn position_modulus() -> nat {
    usize::MAX as nat + 1
}

/// The contents, write position and read position of a cursor over a byte
/// buffer after one call.
pub open spec fn cursor_step(s: (Seq<u8>, usize, usize), op: CursorOp) -> (Seq<u8>, usize, usize) {
    match op {
        CursorOp::Write(b) => (s.0 + b, (((s.1 + b.len()) as nat) % position_modulus()) as usize, s.2),
        CursorOp::Read(max) => {
            let k = if max <= s.0.len() {
                max
            } else {
                s.0.len()
            };
            (s.0.skip(k as int), s.1, (((s.2 + k) as nat) % position_modulus()) as usize)
        },
        CursorOp::Reset => (s.0, 0usize, 0usize),
        CursorOp::ResetWrite => (s.0, 0usize, s.2),
        CursorOp::ResetRead => (s.0, s.1, 0usize),
        CursorOp::Query => s,
    }
}

/// The state after the calls `ops`, in order.
pub open spec fn cursor_run(s: (Seq<u8>, usize, usize), ops: Seq<CursorOp>) -> (
    Seq<u8>,
    usize,
    usize,
)
    decreases ops.len(),
{
    if ops.len() == 0 {
        s
    } else {
        cursor_step(cursor_run(s, ops.drop_last()), ops.last())
    }
}

/// The number of bytes written by `ops` since the last reset of the write
/// position.
pub open spec fn written_since_reset(ops: Seq<CursorOp>) -> nat
    decreases ops.len(),
{
    if ops.len() == 0 {
        0
    } else {
        match ops.last() {
            CursorOp::Write(b) => written_since_reset(ops.drop_last()) + b.len(),
            CursorOp::Reset => 0,
            CursorOp::ResetWrite => 0,
            _ => written_since_reset(ops.drop_last()),
        }
    }
}

/// All the bytes written by `ops`, in order.
pub open spec fn all_written(ops: Seq<CursorOp>) -> Seq<u8>
    decreases ops.len(),
{
    if ops.len() == 0 {
        Seq::empty()
    } else {
        match ops.last() {
            CursorOp::Write(b) => all_written(ops.drop_last()) + b,
            _ => all_written(ops.drop_last()),
        }
    }
}

/// Whether `ops` holds no read.
pub open spec fn reads_nothing(ops: Seq<CursorOp>) -> bool {
    forall|i: int| 0 <= i < ops.len() ==> !(#[trigger] ops[i] is Read)
}

/// Starting from `Cursor::new`, the write position is the number of bytes
/// written since the cursor was made or its write position last reset,
/// wrapped around at `usize::MAX`; reads and the calls that only look leave it
/// alone.
pub proof fn lemma_write_position(x: Seq<u8>, ops: Seq<CursorOp>)
    ensures
        cursor_run((x, 0usize, 0usize), ops).1 == written_since_reset(ops) % position_modulus(),
        forall|s: (Seq<u8>, usize, usize), op: CursorOp|
            (op is Read || op is ResetRead || op is Query) ==> (#[trigger] cursor_step(s, op)).1
                == s.1,
    decreases ops.len(),
{
    let m = position_modulus();
    if ops.len() == 0 {
        assert(0nat % m == 0) by (nonlinear_arith)
            requires
                m > 0,
        ;
    } else {
        let prev = ops.drop_last();
        lemma_write_position(x, prev);
        let w = written_since_reset(prev);
        match ops.last() {
            CursorOp::Write(b) => {
                vstd::arithmetic::div_mod::lemma_add_mod_noop_right(b.len() as int, w as int, m as int);
            },
            CursorOp::Reset => {
                assert(0nat % m == 0) by (nonlinear_arith)
                    requires
                        m > 0,
                ;
            },
            CursorOp::ResetWrite => {
                assert(0nat % m == 0) by (nonlinear_arith)
                    requires
                        m > 0,
                ;
            },
            _ => {},
        }
    }
}

/// Starting from `Cursor::new(x)`, the contents are always what is left of
/// `x` followed by every byte written, once the bytes read are taken from the
/// front: nothing is held back or lost. Without reads, they are `x` followed
/// by every byte written.
pub proof fn lemma_contents(x: Seq<u8>, ops: Seq<CursorOp>)
    ensures
        ({
            let all = x + all_written(ops);
            let c = cursor_run((x, 0usize, 0usize), ops).0;
            &&& c.len() <= all.len()
            &&& c == all.skip(all.len() - c.len())
        }),
        reads_nothing(ops) ==> cursor_run((x, 0usize, 0usize), ops).0 == x + all_written(ops),
    decreases ops.len(),
{
    if ops.len() == 0 {
        assert((x + all_written(ops)).skip(0) =~= x + all_written(ops));
    } else {
        let prev = ops.drop_last();
        lemma_contents(x, prev);
        let all0 = x + all_written(prev);
        let c0 = cursor_run((x, 0usize, 0usize), prev).0;
        let all = x + all_written(ops);
        let c = cursor_run((x, 0usize, 0usize), ops).0;
        if reads_nothing(ops) {
            assert forall|i: int| 0 <= i < prev.len() implies !(#[trigger] prev[i] is Read) by {
                assert(prev[i] == ops[i]);
            }
            assert(!(ops[ops.len() - 1] is Read));
        }
        match ops.last() {
            CursorOp::Write(b) => {
                assert(all =~= all0 + b);
                assert(c =~= all.skip(all.len() - c.len()));
            },
            CursorOp::Read(max) => {
                assert(all == all0);
                assert(c =~= all.skip(all.len() - c.len()));
            },
            _ => {
                assert(all == all0);
            },
        }
    }
}

/// Adding with wraparound is adding modulo `position_modulus()`.
proof fn lemma_wrapping_add(a: usize, b: usize)
    ensures
        a.wrapping_add(b) == (((a + b) as nat) % position_modulus()) as usize,
{
    let m = position_modulus() as int;
    if a + b > usize::MAX {
        vstd::arithmetic::div_mod::lemma_mod_sub_multiples_vanish((a + b) as int, m);
        vstd::arithmetic::div_mod::lemma_small_mod((a + b - m) as nat, m as nat);
    } else {
        vstd::arithmetic::div_mod::lemma_small_mod((a + b) as nat, m as nat);
    }
}

/// A byte stream together with the number of bytes written to it and read
/// from it so far.
pub struct Cursor<T> {
    inner: T,
    write_pos: usize,
    read_pos: usize,
}

impl<T> Cursor<T> {
    pub closed spec fn spec_inner(&self) -> T {
        self.inner
    }

    pub closed spec fn spec_write_pos(&self) -> usize {
        self.write_pos
    }

    pub closed spec fn spec_read_pos(&self) -> usize {
        self.read_pos
    }

    pub fn new(inner: T) -> (c: Cursor<T>)
        ensures
            c.spec_inner() == inner,
            c.spec_write_pos() == 0,
            c.spec_read_pos() == 0,
    {
        Cursor { inner, write_pos: 0, read_pos: 0 }
    }

    fn padding(offset: usize, alignment: usize) -> (p: usize)
        requires
            alignment > 0,
        ensures
            p == padding_for(offset as nat, alignment as nat),
    {
        (alignment - (offset % alignment)) % alignment
    }

    pub fn write_position(&self) -> (p: usize)
        ensures
            p == self.spec_write_pos(),
    {
        self.write_pos
    }

    pub fn write_padding(&self, alignment: usize) -> (p: usize)
        requires
            alignment > 0,
        ensures
            p == padding_for(self.spec_write_pos() as nat, alignment as nat),
    {
        Self::padding(self.write_pos, alignment)
    }

    pub fn read_position(&self) -> (p: usize)
        ensures
            p == self.spec_read_pos(),
    {
        self.read_pos
    }

    pub fn read_padding(&self, alignment: usize) -> (p: usize)
        requires
            alignment > 0,
        ensures
            p == padding_for(self.spec_read_pos() as nat, alignment as nat),
    {
        Self::padding(self.read_pos, alignment)
    }

    pub fn into_inner(self) -> (inner: T)
        ensures
            inner == self.spec_inner(),
    {
        self.inner
    }

    pub fn reset(&mut self)
        ensures
            final(self).spec_inner() == old(self).spec_inner(),
            final(self).spec_write_pos() == 0,
            final(self).spec_read_pos() == 0,
    {
        self.reset_write();
        self.reset_read();
    }

    pub fn reset_write(&mut self)
        ensures
            final(self).spec_inner() == old(self).spec_inner(),
            final(self).spec_write_pos() == 0,
            final(self).spec_read_pos() == old(self).spec_read_pos(),
    {
        self.write_pos = 0;
    }

    pub fn reset_read(&mut self)
        ensures
            final(self).spec_inner() == old(self).spec_inner(),
            final(self).spec_write_pos() == old(self).spec_write_pos(),
            final(self).spec_read_pos() == 0,
    {
        self.read_pos = 0;
    }

    pub fn get_ref(&self) -> (r: &T)
        ensures
            *r == self.spec_inner(),
    {
        &self.inner
    }
}

impl Cursor<Vec<u8>> {
    /// The contents, write position and read position.
    pub open spec fn spec_state(&self) -> (Seq<u8>, usize, usize) {
        (self.spec_inner()@, self.spec_write_pos(), self.spec_read_pos())
    }

    /// Appends `buf` to the stream and advances the write position by its
    /// length, wrapping around at `usize::MAX`.
    pub fn write(&mut self, buf: &[u8]) -> (n: usize)
        ensures
            n == buf@.len(),
            final(self).spec_inner()@ == old(self).spec_inner()@ + buf@,
            final(self).spec_write_pos() == old(self).spec_write_pos().wrapping_add(n),
            final(self).spec_read_pos() == old(self).spec_read_pos(),
            final(self).spec_state() == cursor_step(old(self).spec_state(), CursorOp::Write(buf@)),
    {
        let n = buf.len();
        let mut i: usize = 0;
        while i < n
            invariant
                n == buf@.len(),
                i <= n,
                self.inner@ == old(self).inner@ + buf@.subrange(0, i as int),
                self.write_pos == old(self).write_pos,
                self.read_pos == old(self).read_pos,
            decreases n - i,
        {
            self.inner.push(buf[i]);
            i = i + 1;
            assert(buf@.subrange(0, i as int) == buf@.subrange(0, i - 1 as int).push(buf@[i - 1]));
        }
        assert(buf@.subrange(0, n as int) == buf@);
        proof {
            lemma_wrapping_add(self.write_pos, n);
        }
        self.write_pos = self.write_pos.wrapping_add(n);
        n
    }

    /// Flushing a buffer in memory does nothing.
    pub fn flush(&mut self)
        ensures
            *final(self) == *old(self),
            final(self).spec_state() == cursor_step(old(self).spec_state(), CursorOp::Query),
    {
    }

    /// Takes up to `max` bytes from the front of the stream and advances the
    /// read position by the number taken, wrapping around at `usize::MAX`.
    pub fn read(&mut self, max: usize) -> (out: Vec<u8>)
        ensures
            out@.len() == if max <= old(self).spec_inner()@.len() {
                max as nat
            } else {
                old(self).spec_inner()@.len()
            },
            out@ == old(self).spec_inner()@.take(out@.len() as int),
            final(self).spec_inner()@ == old(self).spec_inner()@.skip(out@.len() as int),
            final(self).spec_read_pos() == old(self).spec_read_pos().wrapping_add(
                out@.len() as usize,
            ),
            final(self).spec_write_pos() == old(self).spec_write_pos(),
            final(self).spec_state() == cursor_step(
                old(self).spec_state(),
                CursorOp::Read(max as nat),
            ),
    {
        let k = if max <= self.inner.len() {
            max
        } else {
            self.inner.len()
        };
        let mut rest = self.inner.split_off(k);
        core::mem::swap(&mut self.inner, &mut rest);
        proof {
            lemma_wrapping_add(self.read_pos, k);
        }
        self.read_pos = self.read_pos.wrapping_add(k);
        rest
    }
}

} // verus!
