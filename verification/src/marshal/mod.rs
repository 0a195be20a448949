use crate::error::{Error, IoErrorKind};
use crate::message::Endianness;
use crate::types::DBusType;
use crate::marshal::cursor::{padding_for, Cursor};
use crate::marshal::endian::{
    lemma_u16_roundtrip, lemma_u32_roundtrip, lemma_u64_roundtrip, native_endianness, read_i16_bytes,
    read_i32_bytes, read_i64_bytes, read_u16_bytes, read_u32_bytes, read_u64_bytes, u16_bytes, u16_of,
    u32_bytes, u32_of, u64_bytes, u64_of, write_i16_bytes, write_i32_bytes, write_i64_bytes,
    write_u16_bytes, write_u32_bytes, write_u64_bytes,
};
use vstd::prelude::*;

pub mod cursor;
pub mod endian;

verus! {

/// `n` zero bytes, the content of alignment padding.
pub open spec fn zeros(n: nat) -> Seq<u8> {
    Seq::new(n, |i: int| 0u8)
}

/// Writes D-Bus values into a byte buffer, or reads them from one, in a
/// chosen byte order, keeping count of the stream positions that alignment
/// padding is computed from.
pub struct Marshaller {
    inner: Cursor<Vec<u8>>,
    pub endianness: Endianness,
}

impl Marshaller {
    /// The bytes written so far, or the bytes left to read.
    pub closed spec fn spec_bytes(&self) -> Seq<u8> {
        self.inner.spec_inner()@
    }

    pub closed spec fn spec_write_pos(&self) -> nat {
        self.inner.spec_write_pos() as nat
    }

    pub closed spec fn spec_read_pos(&self) -> nat {
        self.inner.spec_read_pos() as nat
    }

    pub closed spec fn spec_endianness(&self) -> Endianness {
        self.endianness
    }

    /// The read position can advance over every byte left without passing
    /// `usize::MAX`.
    pub open spec fn read_room(&self) -> bool {
        self.spec_read_pos() + self.spec_bytes().len() <= usize::MAX
    }

    /// `self` is `old` after `bytes` were written to it.
    pub open spec fn wrote(self, old: Marshaller, bytes: Seq<u8>) -> bool {
        &&& self.spec_bytes() == old.spec_bytes() + bytes
        &&& self.spec_write_pos() == old.spec_write_pos() + bytes.len()
        &&& self.spec_read_pos() == old.spec_read_pos()
        &&& self.spec_endianness() == old.spec_endianness()
    }

    /// `self` is `old` after its first `n` bytes were read.
    pub open spec fn consumed(self, old: Marshaller, n: nat) -> bool {
        &&& n <= old.spec_bytes().len()
        &&& self.spec_bytes() == old.spec_bytes().skip(n as int)
        &&& self.spec_read_pos() == old.spec_read_pos() + n
        &&& self.spec_write_pos() == old.spec_write_pos()
        &&& self.spec_endianness() == old.spec_endianness()
    }

    /// `self` is `old` after its first `n` bytes were read, whatever the byte
    /// order became.
    pub open spec fn consumed_as(self, old: Marshaller, n: nat) -> bool {
        &&& n <= old.spec_bytes().len()
        &&& self.spec_bytes() == old.spec_bytes().skip(n as int)
        &&& self.spec_read_pos() == old.spec_read_pos() + n
        &&& self.spec_write_pos() == old.spec_write_pos()
    }

    pub fn new(inner: Vec<u8>, endianness: Endianness) -> (m: Marshaller)
        ensures
            m.spec_bytes() == inner@,
            m.spec_write_pos() == 0,
            m.spec_read_pos() == 0,
            m.spec_endianness() == endianness,
    {
        Marshaller { inner: Cursor::new(inner), endianness }
    }

    /// A marshaller in the machine's own byte order.
    pub fn new_native(inner: Vec<u8>) -> (m: Marshaller)
        ensures
            m.spec_bytes() == inner@,
            m.spec_write_pos() == 0,
            m.spec_read_pos() == 0,
    {
        Marshaller::new(inner, native_endianness())
    }

    pub fn into_inner(self) -> (v: Vec<u8>)
        ensures
            v@ == self.spec_bytes(),
    {
        self.inner.into_inner()
    }

    /// The bytes written, for a marshaller that wrote into a `Vec`.
    pub fn into_vec(self) -> (v: Vec<u8>)
        ensures
            v@ == self.spec_bytes(),
    {
        self.inner.into_inner()
    }

    pub fn get_ref(&self) -> (v: &Vec<u8>)
        ensures
            v@ == self.spec_bytes(),
    {
        self.inner.get_ref()
    }

    pub fn endianness(&self) -> (e: Endianness)
        ensures
            e == self.spec_endianness(),
    {
        self.endianness
    }

    pub fn set_endianness(&mut self, e: Endianness)
        ensures
            final(self).spec_bytes() == old(self).spec_bytes(),
            final(self).spec_write_pos() == old(self).spec_write_pos(),
            final(self).spec_read_pos() == old(self).spec_read_pos(),
            final(self).spec_endianness() == e,
    {
        self.endianness = e;
    }

    pub fn len(&self) -> (n: usize)
        ensures
            n == self.spec_bytes().len(),
    {
        self.inner.get_ref().len()
    }

    pub fn is_empty(&self) -> (b: bool)
        ensures
            b == (self.spec_bytes().len() == 0),
    {
        self.inner.get_ref().len() == 0
    }

    pub fn write_position(&self) -> (p: usize)
        ensures
            p == self.spec_write_pos(),
    {
        self.inner.write_position()
    }

    pub fn read_position(&self) -> (p: usize)
        ensures
            p == self.spec_read_pos(),
    {
        self.inner.read_position()
    }

    /// Writes all of `buf`.
    pub fn write_all(&mut self, buf: &[u8])
        requires
            old(self).spec_write_pos() + buf@.len() <= usize::MAX,
        ensures
            final(self).wrote(*old(self), buf@),
    {
        self.inner.write(buf);
    }

    pub fn write_u8(&mut self, v: u8)
        requires
            old(self).spec_write_pos() + 1 <= usize::MAX,
        ensures
            final(self).wrote(*old(self), seq![v]),
    {
        let buf = [v];
        assert(buf@ == seq![v]);
        self.write_all(&buf);
    }

    pub fn write_u16(&mut self, v: u16)
        requires
            old(self).spec_write_pos() + 2 <= usize::MAX,
        ensures
            final(self).wrote(*old(self), u16_bytes(v, old(self).spec_endianness())),
    {
        let bytes = write_u16_bytes(v, self.endianness);
        proof {
            lemma_u16_roundtrip(v, self.endianness);
        }
        self.write_all(bytes.as_slice());
    }

    pub fn write_i16(&mut self, v: i16)
        requires
            old(self).spec_write_pos() + 2 <= usize::MAX,
        ensures
            final(self).wrote(*old(self), u16_bytes(v as u16, old(self).spec_endianness())),
    {
        let bytes = write_i16_bytes(v, self.endianness);
        proof {
            lemma_u16_roundtrip(v as u16, self.endianness);
        }
        self.write_all(bytes.as_slice());
    }

    pub fn write_u32(&mut self, v: u32)
        requires
            old(self).spec_write_pos() + 4 <= usize::MAX,
        ensures
            final(self).wrote(*old(self), u32_bytes(v, old(self).spec_endianness())),
    {
        let bytes = write_u32_bytes(v, self.endianness);
        proof {
            lemma_u32_roundtrip(v, self.endianness);
        }
        self.write_all(bytes.as_slice());
    }

    pub fn write_i32(&mut self, v: i32)
        requires
            old(self).spec_write_pos() + 4 <= usize::MAX,
        ensures
            final(self).wrote(*old(self), u32_bytes(v as u32, old(self).spec_endianness())),
    {
        let bytes = write_i32_bytes(v, self.endianness);
        proof {
            lemma_u32_roundtrip(v as u32, self.endianness);
        }
        self.write_all(bytes.as_slice());
    }

    pub fn write_u64(&mut self, v: u64)
        requires
            old(self).spec_write_pos() + 8 <= usize::MAX,
        ensures
            final(self).wrote(*old(self), u64_bytes(v, old(self).spec_endianness())),
    {
        let bytes = write_u64_bytes(v, self.endianness);
        proof {
            lemma_u64_roundtrip(v, self.endianness);
        }
        self.write_all(bytes.as_slice());
    }

    pub fn write_i64(&mut self, v: i64)
        requires
            old(self).spec_write_pos() + 8 <= usize::MAX,
        ensures
            final(self).wrote(*old(self), u64_bytes(v as u64, old(self).spec_endianness())),
    {
        let bytes = write_i64_bytes(v, self.endianness);
        proof {
            lemma_u64_roundtrip(v as u64, self.endianness);
        }
        self.write_all(bytes.as_slice());
    }

    /// Writes the zero bytes that move the write position up to a multiple of
    /// `alignment`. The padding goes by the write position alone, not by the
    /// read position, so bytes that are only written are laid out as a reader
    /// that starts at their beginning expects them.
    pub fn write_padding(&mut self, alignment: u8) -> (r: Result<(), Error>)
        requires
            alignment > 0,
            old(self).spec_write_pos() + padding_for(old(self).spec_write_pos(), alignment as nat)
                <= usize::MAX,
        ensures
            r is Ok,
            final(self).wrote(
                *old(self),
                zeros(padding_for(old(self).spec_write_pos(), alignment as nat)),
            ),
    {
        let n = self.inner.write_padding(alignment as usize);
        let mut padding: Vec<u8> = Vec::new();
        let mut i: usize = 0;
        while i < n
            invariant
                i <= n,
                padding@ == zeros(i as nat),
            decreases n - i,
        {
            padding.push(0u8);
            i = i + 1;
            assert(padding@ =~= zeros(i as nat));
        }
        self.write_all(padding.as_slice());
        Ok(())
    }

    /// Writes `value` where the stream stands.
    pub fn write_value<U: DBusType>(&mut self, value: &U) -> (r: Result<(), Error>)
        requires
            old(self).spec_write_pos() + U::spec_encode(
                value.deep_view(),
                old(self).spec_endianness(),
                old(self).spec_write_pos(),
            ).len() <= usize::MAX,
        ensures
            r is Ok,
            final(self).spec_bytes() == old(self).spec_bytes() + U::spec_encode(
                value.deep_view(),
                old(self).spec_endianness(),
                old(self).spec_write_pos(),
            ),
            final(self).spec_write_pos() == old(self).spec_write_pos() + U::spec_encode(
                value.deep_view(),
                old(self).spec_endianness(),
                old(self).spec_write_pos(),
            ).len(),
            final(self).spec_read_pos() == old(self).spec_read_pos(),
            final(self).spec_endianness() == U::spec_endianness_after(
                value.deep_view(),
                old(self).spec_endianness(),
            ),
    {
        value.encode(self)
    }

    /// Reads a value of type `U` from the front of what is left.
    pub fn read_value<U: DBusType>(&mut self) -> (r: Result<U, Error>)
        requires
            old(self).read_room(),
        ensures
            final(self).read_room(),
            ({
                let e = old(self).spec_endianness();
                let input = old(self).spec_bytes();
                let res = U::spec_decode(input, e, old(self).spec_read_pos());
                match r {
                    Ok(v) => res matches Ok((w, n)) && {
                        &&& w == v.deep_view()
                        &&& final(self).consumed_as(*old(self), n)
                        &&& final(self).spec_endianness() == U::spec_endianness_after(w, e)
                    },
                    Err(err) => res matches Err(f) && err.reports(f),
                }
            }),
    {
        U::decode(self)
    }

    /// Reads exactly `n` bytes. When fewer are left, every byte left is
    /// consumed and the read fails.
    pub fn read_exact(&mut self, n: usize) -> (r: Result<Vec<u8>, Error>)
        requires
            old(self).read_room(),
        ensures
            final(self).read_room(),
            match r {
                Ok(b) => {
                    &&& n <= old(self).spec_bytes().len()
                    &&& b@ == old(self).spec_bytes().take(n as int)
                    &&& final(self).consumed(*old(self), n as nat)
                },
                Err(e) => {
                    &&& n > old(self).spec_bytes().len()
                    &&& e == Error::Io { kind: IoErrorKind::UnexpectedEof }
                    &&& final(self).consumed(*old(self), old(self).spec_bytes().len())
                },
            },
    {
        let out = self.inner.read(n);
        if out.len() < n {
            Err(Error::Io { kind: IoErrorKind::UnexpectedEof })
        } else {
            Ok(out)
        }
    }

    pub fn read_u8(&mut self) -> (r: Result<u8, Error>)
        requires
            old(self).read_room(),
        ensures
            final(self).read_room(),
            match r {
                Ok(v) => {
                    &&& 1 <= old(self).spec_bytes().len()
                    &&& v == old(self).spec_bytes()[0]
                    &&& final(self).consumed(*old(self), 1)
                },
                Err(e) => {
                    &&& 1 > old(self).spec_bytes().len()
                    &&& e == Error::Io { kind: IoErrorKind::UnexpectedEof }
                },
            },
    {
        let b = self.read_exact(1)?;
        Ok(b[0])
    }

    pub fn read_u16(&mut self) -> (r: Result<u16, Error>)
        requires
            old(self).read_room(),
        ensures
            final(self).read_room(),
            match r {
                Ok(v) => {
                    &&& 2 <= old(self).spec_bytes().len()
                    &&& v == u16_of(old(self).spec_bytes().take(2), old(self).spec_endianness())
                    &&& final(self).consumed(*old(self), 2)
                },
                Err(e) => {
                    &&& 2 > old(self).spec_bytes().len()
                    &&& e == Error::Io { kind: IoErrorKind::UnexpectedEof }
                },
            },
    {
        let b = self.read_exact(2)?;
        Ok(read_u16_bytes(b.as_slice(), self.endianness))
    }

    pub fn read_i16(&mut self) -> (r: Result<i16, Error>)
        requires
            old(self).read_room(),
        ensures
            final(self).read_room(),
            match r {
                Ok(v) => {
                    &&& 2 <= old(self).spec_bytes().len()
                    &&& v as u16 == u16_of(old(self).spec_bytes().take(2), old(self).spec_endianness())
                    &&& final(self).consumed(*old(self), 2)
                },
                Err(e) => {
                    &&& 2 > old(self).spec_bytes().len()
                    &&& e == Error::Io { kind: IoErrorKind::UnexpectedEof }
                },
            },
    {
        let b = self.read_exact(2)?;
        Ok(read_i16_bytes(b.as_slice(), self.endianness))
    }

    pub fn read_u32(&mut self) -> (r: Result<u32, Error>)
        requires
            old(self).read_room(),
        ensures
            final(self).read_room(),
            match r {
                Ok(v) => {
                    &&& 4 <= old(self).spec_bytes().len()
                    &&& v == u32_of(old(self).spec_bytes().take(4), old(self).spec_endianness())
                    &&& final(self).consumed(*old(self), 4)
                },
                Err(e) => {
                    &&& 4 > old(self).spec_bytes().len()
                    &&& e == Error::Io { kind: IoErrorKind::UnexpectedEof }
                },
            },
    {
        let b = self.read_exact(4)?;
        Ok(read_u32_bytes(b.as_slice(), self.endianness))
    }

    pub fn read_i32(&mut self) -> (r: Result<i32, Error>)
        requires
            old(self).read_room(),
        ensures
            final(self).read_room(),
            match r {
                Ok(v) => {
                    &&& 4 <= old(self).spec_bytes().len()
                    &&& v as u32 == u32_of(old(self).spec_bytes().take(4), old(self).spec_endianness())
                    &&& final(self).consumed(*old(self), 4)
                },
                Err(e) => {
                    &&& 4 > old(self).spec_bytes().len()
                    &&& e == Error::Io { kind: IoErrorKind::UnexpectedEof }
                },
            },
    {
        let b = self.read_exact(4)?;
        Ok(read_i32_bytes(b.as_slice(), self.endianness))
    }

    pub fn read_u64(&mut self) -> (r: Result<u64, Error>)
        requires
            old(self).read_room(),
        ensures
            final(self).read_room(),
            match r {
                Ok(v) => {
                    &&& 8 <= old(self).spec_bytes().len()
                    &&& v == u64_of(old(self).spec_bytes().take(8), old(self).spec_endianness())
                    &&& final(self).consumed(*old(self), 8)
                },
                Err(e) => {
                    &&& 8 > old(self).spec_bytes().len()
                    &&& e == Error::Io { kind: IoErrorKind::UnexpectedEof }
                },
            },
    {
        let b = self.read_exact(8)?;
        Ok(read_u64_bytes(b.as_slice(), self.endianness))
    }

    pub fn read_i64(&mut self) -> (r: Result<i64, Error>)
        requires
            old(self).read_room(),
        ensures
            final(self).read_room(),
            match r {
                Ok(v) => {
                    &&& 8 <= old(self).spec_bytes().len()
                    &&& v as u64 == u64_of(old(self).spec_bytes().take(8), old(self).spec_endianness())
                    &&& final(self).consumed(*old(self), 8)
                },
                Err(e) => {
                    &&& 8 > old(self).spec_bytes().len()
                    &&& e == Error::Io { kind: IoErrorKind::UnexpectedEof }
                },
            },
    {
        let b = self.read_exact(8)?;
        Ok(read_i64_bytes(b.as_slice(), self.endianness))
    }

    /// Reads and drops the bytes that move the read position up to a multiple
    /// of `alignment`.
    pub fn read_padding(&mut self, alignment: u8) -> (r: Result<(), Error>)
        requires
            alignment > 0,
            old(self).read_room(),
        ensures
            final(self).read_room(),
            ({
                let p = padding_for(old(self).spec_read_pos(), alignment as nat);
                match r {
                    Ok(()) => p <= old(self).spec_bytes().len() && final(self).consumed(*old(self), p),
                    Err(e) => p > old(self).spec_bytes().len() && e == Error::Io {
                        kind: IoErrorKind::UnexpectedEof,
                    },
                }
            }),
    {
        let n = self.inner.read_padding(alignment as usize);
        self.read_exact(n)?;
        Ok(())
    }
}

} // verus!
