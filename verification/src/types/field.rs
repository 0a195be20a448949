//! A value written after the padding that aligns it: the building block of
//! structures and dictionary entries.
use crate::error::Error;
use crate::marshal::cursor::padding_for;
use crate::marshal::{zeros, Marshaller};
use crate::message::Endianness;
use crate::types::{DBusType, Failure};
use vstd::prelude::*;

verus! {

/// `v` written from stream position `pos` after the zero bytes that bring
/// `pos` to a multiple of `align`.
#[verifier::opaque]
pub open spec fn padded_encode<T: DBusType>(align: u8, v: T::V, e: Endianness, pos: nat) -> Seq<u8> {
    let p = padding_for(pos, align as nat);
    zeros(p) + T::spec_encode(v, e, pos + p)
}

/// Skips the padding that brings `pos` to a multiple of `align`, then reads a
/// value; the count includes the padding.
#[verifier::opaque]
pub open spec fn padded_decode<T: DBusType>(align: u8, input: Seq<u8>, e: Endianness, pos: nat) -> Result<
    (T::V, nat),
    Failure,
> {
    let p = padding_for(pos, align as nat);
    if input.len() < p {
        Err(Failure::Eof)
    } else {
        match T::spec_decode(input.skip(p as int), e, pos + p) {
            Ok((v, n)) => Ok((v, p + n)),
            Err(f) => Err(f),
        }
    }
}

/// Once the bytes at `c` are `b` followed by `t`, skipping `b` as well
/// leaves `t`.
pub proof fn lemma_skip_past(all: Seq<u8>, c: int, b: Seq<u8>, t: Seq<u8>)
    requires
        0 <= c <= all.len(),
        all.skip(c) == b + t,
    ensures
        all.skip(c + b.len()) == t,
{
    let s = all.skip(c);
    assert(s.len() == b.len() + t.len());
    assert forall|j: int| 0 <= j < t.len() implies all.skip(c + b.len())[j] == t[j] by {
        assert(s[b.len() + j] == (b + t)[b.len() + j]);
    }
    assert(all.skip(c + b.len()) =~= t);
}

pub proof fn lemma_padded_roundtrip<T: DBusType>(
    align: u8,
    v: T::V,
    e: Endianness,
    pos: nat,
    rest: Seq<u8>,
)
    requires
        T::spec_well_formed(v),
    ensures
        padded_decode::<T>(align, padded_encode::<T>(align, v, e, pos) + rest, e, pos) == Ok::<
            (T::V, nat),
            Failure,
        >((v, padded_encode::<T>(align, v, e, pos).len())),
{
    reveal(padded_encode);
    reveal(padded_decode);
    let p = padding_for(pos, align as nat);
    let body = T::spec_encode(v, e, pos + p);
    let all = padded_encode::<T>(align, v, e, pos) + rest;
    assert(all.skip(p as int) =~= body + rest);
    T::lemma_roundtrip(v, e, pos + p, rest);
}

pub proof fn lemma_padded_within<T: DBusType>(align: u8, input: Seq<u8>, e: Endianness, pos: nat)
    ensures
        padded_decode::<T>(align, input, e, pos) matches Ok((_, n)) ==> n <= input.len(),
{
    reveal(padded_decode);
    let p = padding_for(pos, align as nat);
    if input.len() >= p {
        T::lemma_decode_within(input.skip(p as int), e, pos + p);
    }
}

/// Writes the padding for `align`, then `v`.
pub fn write_padded<T: DBusType>(marshaller: &mut Marshaller, align: u8, v: &T)
    requires
        align > 0,
        old(marshaller).spec_write_pos() + padded_encode::<T>(
            align,
            v.deep_view(),
            old(marshaller).spec_endianness(),
            old(marshaller).spec_write_pos(),
        ).len() <= usize::MAX,
    ensures
        ({
            let e = old(marshaller).spec_endianness();
            let bytes = padded_encode::<T>(align, v.deep_view(), e, old(marshaller).spec_write_pos());
            &&& final(marshaller).spec_bytes() == old(marshaller).spec_bytes() + bytes
            &&& final(marshaller).spec_write_pos() == old(marshaller).spec_write_pos() + bytes.len()
            &&& final(marshaller).spec_read_pos() == old(marshaller).spec_read_pos()
            &&& final(marshaller).spec_endianness() == T::spec_endianness_after(v.deep_view(), e)
        }),
{
    let ghost m0 = *marshaller;
    proof {
        reveal(padded_encode);
    }
    let r = marshaller.write_padding(align);
    v.encode(marshaller);
    assert(marshaller.spec_bytes() =~= m0.spec_bytes() + padded_encode::<T>(
        align,
        v.deep_view(),
        m0.spec_endianness(),
        m0.spec_write_pos(),
    ));
}

/// Reads the padding for `align`, then a value.
pub fn read_padded<T: DBusType>(marshaller: &mut Marshaller, align: u8) -> (r: Result<T, Error>)
    requires
        align > 0,
        old(marshaller).read_room(),
    ensures
        final(marshaller).read_room(),
        ({
            let e = old(marshaller).spec_endianness();
            let input = old(marshaller).spec_bytes();
            let res = padded_decode::<T>(align, input, e, old(marshaller).spec_read_pos());
            match r {
                Ok(v) => res matches Ok((w, n)) && {
                    &&& w == v.deep_view()
                    &&& n <= input.len()
                    &&& final(marshaller).spec_bytes() == input.skip(n as int)
                    &&& final(marshaller).spec_read_pos() == old(marshaller).spec_read_pos() + n
                    &&& final(marshaller).spec_write_pos() == old(marshaller).spec_write_pos()
                    &&& final(marshaller).spec_endianness() == T::spec_endianness_after(w, e)
                },
                Err(err) => res matches Err(f) && err.reports(f),
            }
        }),
{
    let ghost m0 = *marshaller;
    proof {
        reveal(padded_decode);
    }
    marshaller.read_padding(align)?;
    let ghost p = padding_for(m0.spec_read_pos(), align as nat);
    let v = T::decode(marshaller)?;
    proof {
        let input = m0.spec_bytes();
        let n = (input.len() - marshaller.spec_bytes().len()) as nat;
        assert(input.skip(p as int).skip((n - p) as int) =~= input.skip(n as int));
    }
    Ok(v)
}

} // verus!
