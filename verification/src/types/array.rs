use crate::error::Error;
use crate::marshal::cursor::padding_for;
use crate::marshal::endian::{lemma_u32_roundtrip, u32_bytes, u32_of};
use crate::marshal::{zeros, Marshaller};
use crate::message::Endianness;
use crate::types::string::push_str;
use crate::types::{DBusType, Failure};
use vstd::prelude::*;

verus! {

/// The byte order left after writing the values of `s` one after another
/// from byte order `e`.
pub open spec fn seq_endianness<T: DBusType>(s: Seq<T::V>, e: Endianness) -> Endianness
    decreases s.len(),
{
    if s.len() == 0 {
        e
    } else {
        seq_endianness::<T>(s.drop_first(), T::spec_endianness_after(s[0], e))
    }
}

/// The values of `s` written one after another from stream position `pos`.
pub open spec fn encode_seq<T: DBusType>(s: Seq<T::V>, e: Endianness, pos: nat) -> Seq<u8>
    decreases s.len(),
{
    if s.len() == 0 {
        Seq::empty()
    } else {
        let head = T::spec_encode(s[0], e, pos);
        head + encode_seq::<T>(s.drop_first(), T::spec_endianness_after(s[0], e), pos + head.len())
    }
}

/// Puts `vals` in front of the values a read gave, or passes its failure on.
pub open spec fn prepend<V>(vals: Seq<V>, r: Result<Seq<V>, Failure>) -> Result<Seq<V>, Failure> {
    match r {
        Ok(vs) => Ok(vals + vs),
        Err(f) => Err(f),
    }
}

/// Reads values one after another until `data` is used up. An element that
/// takes up no bytes would leave `data` as it is for ever, so it fails with
/// `Failure::Stalled`.
pub open spec fn decode_seq<T: DBusType>(data: Seq<u8>, e: Endianness, pos: nat) -> Result<
    Seq<T::V>,
    Failure,
>
    decreases data.len(),
{
    if data.len() == 0 {
        Ok(Seq::empty())
    } else {
        match T::spec_decode(data, e, pos) {
            Ok((v, n)) => if n == 0 || n > data.len() {
                Err(Failure::Stalled)
            } else {
                prepend(
                    seq![v],
                    decode_seq::<T>(data.skip(n as int), T::spec_endianness_after(v, e), pos + n),
                )
            },
            Err(f) => Err(f),
        }
    }
}

pub proof fn lemma_encode_seq_push<T: DBusType>(s: Seq<T::V>, x: T::V, e: Endianness, pos: nat)
    ensures
        encode_seq::<T>(s.push(x), e, pos) == encode_seq::<T>(s, e, pos) + T::spec_encode(
            x,
            seq_endianness::<T>(s, e),
            pos + encode_seq::<T>(s, e, pos).len(),
        ),
        seq_endianness::<T>(s.push(x), e) == T::spec_endianness_after(
            x,
            seq_endianness::<T>(s, e),
        ),
    decreases s.len(),
{
    if s.len() == 0 {
        let one = s.push(x);
        assert(one[0] == x);
        assert(one.drop_first() =~= Seq::<T::V>::empty());
        let e1 = T::spec_endianness_after(x, e);
        assert(seq_endianness::<T>(one.drop_first(), e1) == e1);
        assert(encode_seq::<T>(one.drop_first(), e1, pos + T::spec_encode(x, e, pos).len())
            =~= Seq::<u8>::empty());
        assert(encode_seq::<T>(one, e, pos) =~= T::spec_encode(x, e, pos));
    } else {
        let head = T::spec_encode(s[0], e, pos);
        let e1 = T::spec_endianness_after(s[0], e);
        assert(s.push(x).drop_first() =~= s.drop_first().push(x));
        lemma_encode_seq_push::<T>(s.drop_first(), x, e1, pos + head.len());
        assert(encode_seq::<T>(s.push(x), e, pos) =~= head + encode_seq::<T>(
            s.drop_first().push(x),
            e1,
            pos + head.len(),
        ));
    }
}

pub proof fn lemma_prepend_assoc<V>(a: Seq<V>, b: Seq<V>, r: Result<Seq<V>, Failure>)
    ensures
        prepend(a, prepend(b, r)) == prepend(a + b, r),
{
    if let Ok(vs) = r {
        assert(a + (b + vs) =~= (a + b) + vs);
    }
}

/// Reading back values written one after another gives them back, when each
/// takes up at least one byte.
pub proof fn lemma_seq_roundtrip<T: DBusType>(s: Seq<T::V>, e: Endianness, pos: nat)
    requires
        forall|i: int| 0 <= i < s.len() ==> T::spec_well_formed(#[trigger] s[i]),
        forall|i: int, e1: Endianness, p: nat|
            0 <= i < s.len() ==> (#[trigger] T::spec_encode(s[i], e1, p)).len() > 0,
    ensures
        decode_seq::<T>(encode_seq::<T>(s, e, pos), e, pos) == Ok::<Seq<T::V>, Failure>(s),
    decreases s.len(),
{
    if s.len() == 0 {
        assert(s =~= Seq::<T::V>::empty());
    } else {
        let head = T::spec_encode(s[0], e, pos);
        let e1 = T::spec_endianness_after(s[0], e);
        let tail = encode_seq::<T>(s.drop_first(), e1, pos + head.len());
        let all = head + tail;
        assert(encode_seq::<T>(s, e, pos) == all);
        assert(T::spec_encode(s[0], e, pos).len() > 0);
        T::lemma_roundtrip(s[0], e, pos, tail);
        assert(T::spec_decode(all, e, pos) == Ok::<(T::V, nat), Failure>((s[0], head.len())));
        assert(all.skip(head.len() as int) =~= tail);
        assert forall|i: int| 0 <= i < s.drop_first().len() implies T::spec_well_formed(
            #[trigger] s.drop_first()[i],
        ) by {
            assert(s.drop_first()[i] == s[i + 1]);
        }
        assert forall|i: int, e2: Endianness, p: nat| 0 <= i < s.drop_first().len() implies (#[trigger] T::spec_encode(
            s.drop_first()[i],
            e2,
            p,
        )).len() > 0 by {
            assert(s.drop_first()[i] == s[i + 1]);
        }
        lemma_seq_roundtrip::<T>(s.drop_first(), e1, pos + head.len());
        assert(seq![s[0]] + s.drop_first() =~= s);
    }
}

impl<T: DBusType> DBusType for Vec<T> {
    open spec fn spec_code() -> u8 {
        97u8
    }

    open spec fn spec_signature() -> Seq<char> {
        seq!['a'] + T::spec_signature()
    }

    open spec fn spec_alignment() -> u8 {
        4u8
    }

    open spec fn spec_well_formed(v: Seq<T::V>) -> bool {
        &&& forall|i: int| 0 <= i < v.len() ==> T::spec_well_formed(#[trigger] v[i])
        &&& forall|i: int, e: Endianness, p: nat|
            0 <= i < v.len() ==> (#[trigger] T::spec_encode(v[i], e, p)).len() > 0
        &&& forall|e: Endianness| #[trigger] encode_seq::<T>(v, e, 0).len() <= u32::MAX
    }

    open spec fn spec_encode(v: Seq<T::V>, e: Endianness, pos: nat) -> Seq<u8> {
        let data = encode_seq::<T>(v, e, 0);
        u32_bytes(data.len() as u32, e) + zeros(padding_for(pos + 4, T::spec_alignment() as nat))
            + data
    }

    open spec fn spec_endianness_after(v: Seq<T::V>, e: Endianness) -> Endianness {
        e
    }

    open spec fn spec_decode(input: Seq<u8>, e: Endianness, pos: nat) -> Result<(Seq<T::V>, nat), Failure> {
        if input.len() < 4 {
            Err(Failure::Eof)
        } else {
            let len = u32_of(input.take(4), e) as nat;
            let p = padding_for(pos + 4, T::spec_alignment() as nat);
            if input.len() < 4 + p + len {
                Err(Failure::Eof)
            } else {
                match decode_seq::<T>(input.subrange((4 + p) as int, (4 + p + len) as int), e, 0) {
                    Ok(vs) => Ok((vs, 4 + p + len)),
                    Err(f) => Err(f),
                }
            }
        }
    }

    fn code() -> (c: u8) {
        97
    }

    fn signature() -> (s: String) {
        proof {
            reveal_strlit("a");
        }
        let mut s = "a".to_owned();
        let inner = T::signature();
        push_str(&mut s, inner.as_str());
        s
    }

    fn alignment() -> (a: u8) {
        4
    }

    fn encode(&self, marshaller: &mut Marshaller) -> (r: Result<(), Error>) {
        let ghost m0 = *marshaller;
        let ghost e = marshaller.spec_endianness();
        let ghost v = self.deep_view();
        let ghost full = encode_seq::<T>(v, e, 0);
        let mut inner = Marshaller::new(Vec::new(), marshaller.endianness());
        let mut i: usize = 0;
        while i < self.len()
            invariant
                i <= self.len(),
                v == self.deep_view(),
                full == encode_seq::<T>(v, e, 0),
                m0.spec_write_pos() + Self::spec_encode(v, e, m0.spec_write_pos()).len() <= usize::MAX,
                inner.spec_bytes() == encode_seq::<T>(v.take(i as int), e, 0),
                inner.spec_write_pos() == inner.spec_bytes().len(),
                inner.spec_read_pos() == 0,
                inner.spec_endianness() == seq_endianness::<T>(v.take(i as int), e),
            decreases self.len() - i,
        {
            proof {
                assert(v.take(i + 1) =~= v.take(i as int).push(v[i as int]));
                lemma_encode_seq_push::<T>(v.take(i as int), v[i as int], e, 0);
                assert(v.take(i as int) + v.skip(i as int) =~= v);
                lemma_encode_seq_split::<T>(v.take(i as int), v.skip(i as int), e, 0);
                assert(v.skip(i as int)[0] == v[i as int]);
                assert(v.skip(i as int).drop_first() =~= v.skip(i + 1));
                assert(self[i as int].deep_view() == v[i as int]);
            }
            self[i].encode(&mut inner);
            i = i + 1;
        }
        proof {
            assert(v.take(self.len() as int) =~= v);
        }
        let data = inner.into_inner();
        proof {
            lemma_u32_roundtrip(data.len() as u32, e);
        }
        marshaller.write_u32(data.len() as u32);
        marshaller.write_padding(T::alignment())?;
        marshaller.write_all(data.as_slice());
        assert(marshaller.spec_bytes() =~= m0.spec_bytes() + Self::spec_encode(v, e, m0.spec_write_pos()));
        Ok(())
    }

    /// Reads the length, the padding and then elements until the array's
    /// bytes are used up. An element that takes up no bytes could never use
    /// them up, so it ends the read with the error "Array element takes up no
    /// bytes" rather than being read again without end.
    fn decode(marshaller: &mut Marshaller) -> (r: Result<Self, Error>) {
        let ghost m0 = *marshaller;
        let ghost e = marshaller.spec_endianness();
        let ghost input = m0.spec_bytes();
        let length = marshaller.read_u32()?;
        let align = T::alignment();
        marshaller.read_padding(align)?;
        let ghost p = padding_for(m0.spec_read_pos() + 4, T::spec_alignment() as nat);
        let data = marshaller.read_exact(length as usize)?;
        proof {
            assert(input.skip(4).skip(p as int) =~= input.skip((4 + p) as int));
            assert(data@ =~= input.subrange((4 + p) as int, (4 + p + length) as int));
            assert(marshaller.spec_bytes() =~= input.skip((4 + p + length) as int));
        }
        let ghost d = data@;
        let ghost total = (4 + p + length) as nat;
        let ghost m_after = *marshaller;
        assert(Self::spec_decode(input, e, m0.spec_read_pos()) == match decode_seq::<T>(d, e, 0) {
            Ok(vs) => Ok((vs, total)),
            Err(f) => Err(f),
        });
        let mut values: Vec<T> = Vec::new();
        let mut inner = Marshaller::new(data, marshaller.endianness());
        while !inner.is_empty()
            invariant
                m0 == *old(marshaller),
                e == m0.spec_endianness(),
                input == m0.spec_bytes(),
                *marshaller == m_after,
                m_after.read_room(),
                Self::spec_decode(input, e, m0.spec_read_pos()) == match decode_seq::<T>(d, e, 0) {
                    Ok(vs) => Ok((vs, total)),
                    Err(f) => Err(f),
                },
                inner.read_room(),
                inner.spec_bytes() == d.skip(inner.spec_read_pos() as int),
                inner.spec_read_pos() <= d.len(),
                decode_seq::<T>(d, e, 0) == prepend(
                    values.deep_view(),
                    decode_seq::<T>(inner.spec_bytes(), inner.spec_endianness(), inner.spec_read_pos()),
                ),
            decreases inner.spec_bytes().len(),
        {
            let ghost before = inner;
            let before_len = inner.len();
            let value = match T::decode(&mut inner) {
                Ok(value) => value,
                Err(err) => {
                    proof {
                        let r = decode_seq::<T>(before.spec_bytes(), before.spec_endianness(), before.spec_read_pos());
                        assert(r is Err);
                    }
                    return Err(err);
                },
            };
            let ghost n = before_len - inner.spec_bytes().len();
            if inner.len() == before_len {
                proof {
                    let r = decode_seq::<T>(before.spec_bytes(), before.spec_endianness(), before.spec_read_pos());
                    assert(r == Err::<Seq<T::V>, Failure>(Failure::Stalled));
                }
                return Err(Error::Custom { message: "Array element takes up no bytes".to_owned() });
            }
            proof {
                let rest = before.spec_bytes();
                assert(inner.spec_bytes() =~= d.skip(inner.spec_read_pos() as int));
                lemma_prepend_assoc(values.deep_view(), seq![value.deep_view()], decode_seq::<T>(
                    inner.spec_bytes(),
                    inner.spec_endianness(),
                    inner.spec_read_pos(),
                ));
            }
            let ghost old_values = values.deep_view();
            values.push(value);
            proof {
                assert(values.deep_view() =~= old_values + seq![value.deep_view()]);
            }
        }
        proof {
            assert(values.deep_view() + Seq::<T::V>::empty() =~= values.deep_view());
        }
        Ok(values)
    }

    proof fn lemma_decode_within(input: Seq<u8>, e: Endianness, pos: nat) {
    }

    proof fn lemma_roundtrip(v: Seq<T::V>, e: Endianness, pos: nat, rest: Seq<u8>) {
        let data = encode_seq::<T>(v, e, 0);
        let len = data.len();
        let p = padding_for(pos + 4, T::spec_alignment() as nat);
        lemma_u32_roundtrip(len as u32, e);
        let all = Self::spec_encode(v, e, pos) + rest;
        assert(all.take(4) =~= u32_bytes(len as u32, e));
        assert(all.subrange((4 + p) as int, (4 + p + len) as int) =~= data);
        lemma_seq_roundtrip::<T>(v, e, 0);
    }
}

/// Writing two runs of values one after the other is writing the first, then
/// the second from where the first left off.
pub proof fn lemma_encode_seq_split<T: DBusType>(a: Seq<T::V>, b: Seq<T::V>, e: Endianness, pos: nat)
    ensures
        encode_seq::<T>(a + b, e, pos) == encode_seq::<T>(a, e, pos) + encode_seq::<T>(
            b,
            seq_endianness::<T>(a, e),
            pos + encode_seq::<T>(a, e, pos).len(),
        ),
    decreases a.len(),
{
    if a.len() == 0 {
        assert(a + b =~= b);
    } else {
        let head = T::spec_encode(a[0], e, pos);
        let e1 = T::spec_endianness_after(a[0], e);
        assert((a + b).drop_first() =~= a.drop_first() + b);
        assert((a + b)[0] == a[0]);
        lemma_encode_seq_split::<T>(a.drop_first(), b, e1, pos + head.len());
    }
}

} // verus!
