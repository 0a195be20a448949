use crate::error::Error;
use crate::marshal::Marshaller;
use crate::message::Endianness;
use crate::types::array::encode_seq;
use crate::types::field::{
    lemma_padded_roundtrip, lemma_padded_within, padded_decode, padded_encode, read_padded,
    write_padded,
};
use crate::types::string::push_str;
use crate::types::{DBusBasicType, DBusType, Failure};
use std::collections::HashMap;
use std::hash::Hash;
use vstd::prelude::*;
use vstd::std_specs::hash::obeys_key_model;
use vstd::std_specs::iter::IteratorSpec;

verus! {

/// One key and value of a dictionary.
#[derive(Debug, Clone, PartialEq)]
pub struct DictEntry<K, V>(K, V);

impl<K: DeepView, V: DeepView> DeepView for DictEntry<K, V> {
    type V = (K::V, V::V);

    closed spec fn deep_view(&self) -> (K::V, V::V) {
        (self.0.deep_view(), self.1.deep_view())
    }
}

impl<K, V> DictEntry<K, V> {
    pub closed spec fn spec_key(&self) -> K {
        self.0
    }

    pub closed spec fn spec_value(&self) -> V {
        self.1
    }

    pub fn new(key: K, value: V) -> (d: Self)
        ensures
            d.spec_key() == key,
            d.spec_value() == value,
    {
        DictEntry(key, value)
    }

    pub fn key(&self) -> (k: &K)
        ensures
            *k == self.spec_key(),
    {
        &self.0
    }

    pub fn value(&self) -> (v: &V)
        ensures
            *v == self.spec_value(),
    {
        &self.1
    }

    /// The entry made of a key and value pair.
    pub fn from(pair: (K, V)) -> (d: Self)
        ensures
            d.spec_key() == pair.0,
            d.spec_value() == pair.1,
    {
        DictEntry(pair.0, pair.1)
    }
}

impl<K: DeepView, V: DeepView> DictEntry<K, V> {
    pub proof fn lemma_deep_view(&self)
        ensures
            self.deep_view() == (self.spec_key().deep_view(), self.spec_value().deep_view()),
    {
    }
}

impl<K: DBusBasicType, V: DBusType> DBusType for DictEntry<K, V> {
    open spec fn spec_code() -> u8 {
        101u8
    }

    open spec fn spec_signature() -> Seq<char> {
        seq!['{'] + K::spec_signature() + V::spec_signature() + seq!['}']
    }

    open spec fn spec_alignment() -> u8 {
        8u8
    }

    open spec fn spec_well_formed(v: (K::V, V::V)) -> bool {
        K::spec_well_formed(v.0) && V::spec_well_formed(v.1)
    }

    open spec fn spec_encode(v: (K::V, V::V), e: Endianness, pos: nat) -> Seq<u8> {
        let e0 = e;
        let p0 = pos;
        let b0 = padded_encode::<K>(8u8, v.0, e0, p0);
        let e1 = K::spec_endianness_after(v.0, e0);
        let p1 = p0 + b0.len();
        let b1 = padded_encode::<V>(8u8, v.1, e1, p1);
        let e2 = V::spec_endianness_after(v.1, e1);
        let p2 = p1 + b1.len();
        b0 + b1
    }

    open spec fn spec_endianness_after(v: (K::V, V::V), e: Endianness) -> Endianness {
        V::spec_endianness_after(v.1, K::spec_endianness_after(v.0, e))
    }

    open spec fn spec_decode(input: Seq<u8>, e: Endianness, pos: nat) -> Result<((K::V, V::V), nat), Failure> {
        let e0 = e;
        let c0 = (0) as nat;
        match padded_decode::<K>(8u8, input.skip(c0 as int), e0, pos + c0) {
            Err(f) => Err(f),
            Ok((x0, n0)) => {
                let e1 = K::spec_endianness_after(x0, e0);
                let c1 = (n0) as nat;
                match padded_decode::<V>(8u8, input.skip(c1 as int), e1, pos + c1) {
                    Err(f) => Err(f),
                    Ok((x1, n1)) => {
                        Ok(((x0, x1, ), (n0 + n1) as nat))
                    },
                }
            },
        }
    }

    fn code() -> (c: u8) {
        101
    }

    fn signature() -> (s: String) {
        proof {
            reveal_strlit("{");
            reveal_strlit("}");
        }
        let mut s = "{".to_owned();
        let k = K::signature();
        push_str(&mut s, k.as_str());
        let v = V::signature();
        push_str(&mut s, v.as_str());
        push_str(&mut s, "}");
        s
    }

    fn alignment() -> (a: u8) {
        8
    }

    fn encode(&self, marshaller: &mut Marshaller) -> (r: Result<(), Error>) {
        let ghost m0 = *marshaller;
        let ghost v = self.deep_view();
        let ghost e = m0.spec_endianness();
        let ghost pos = m0.spec_write_pos();
        assert(self.0.deep_view() == v.0);
        let align0: u8 = 8;
        write_padded(marshaller, align0, &self.0);
        assert(self.1.deep_view() == v.1);
        let align1: u8 = 8;
        write_padded(marshaller, align1, &self.1);
        assert(marshaller.spec_bytes() =~= m0.spec_bytes() + Self::spec_encode(v, e, pos));
        Ok(())
    }

    fn decode(marshaller: &mut Marshaller) -> (r: Result<Self, Error>) {
        let ghost m0 = *marshaller;
        let ghost input = m0.spec_bytes();
        let ghost e = m0.spec_endianness();
        let ghost pos = m0.spec_read_pos();
        let ghost s0 = *marshaller;
        proof {
            assert(s0.spec_bytes() =~= input.skip((s0.spec_read_pos() - pos) as int));
        }
        let align0: u8 = 8;
        let x0 = read_padded::<K>(marshaller, align0)?;
        let ghost s1 = *marshaller;
        proof {
            assert(s1.spec_bytes() =~= input.skip((s1.spec_read_pos() - pos) as int));
        }
        let align1: u8 = 8;
        let x1 = read_padded::<V>(marshaller, align1)?;
        let ghost mk = *marshaller;
        proof {
            assert(mk.spec_bytes() =~= input.skip((mk.spec_read_pos() - pos) as int));
        }
        Ok(DictEntry(x0, x1))
    }

    proof fn lemma_decode_within(input: Seq<u8>, e: Endianness, pos: nat) {
        let e0 = e;
        let c0 = (0) as nat;
        lemma_padded_within::<K>(8u8, input.skip(c0 as int), e0, pos + c0);
        if let Ok((x0, n0)) = padded_decode::<K>(8u8, input.skip(c0 as int), e0, pos + c0) {
            if c0 + n0 <= input.len() {
                let e1 = K::spec_endianness_after(x0, e0);
                let c1 = (n0) as nat;
                lemma_padded_within::<V>(8u8, input.skip(c1 as int), e1, pos + c1);
                if let Ok((x1, n1)) = padded_decode::<V>(8u8, input.skip(c1 as int), e1, pos + c1) {
                    if c1 + n1 <= input.len() {
                    }
                }
            }
        }
    }

    proof fn lemma_roundtrip(v: (K::V, V::V), e: Endianness, pos: nat, rest: Seq<u8>) {
        let e0 = e;
        let p0 = pos;
        let b0 = padded_encode::<K>(8u8, v.0, e0, p0);
        let e1 = K::spec_endianness_after(v.0, e0);
        let p1 = p0 + b0.len();
        let b1 = padded_encode::<V>(8u8, v.1, e1, p1);
        let e2 = V::spec_endianness_after(v.1, e1);
        let p2 = p1 + b1.len();
        let t1 = rest;
        let t0 = b1 + t1;
        let all = Self::spec_encode(v, e, pos) + rest;
        vstd::seq_lib::lemma_concat_associative(b0, b1, t1);
        assert(all.skip(0) =~= b0 + t0);
        lemma_padded_roundtrip::<K>(8u8, v.0, e0, p0, t0);
        crate::types::field::lemma_skip_past(all, (0) as int, b0, t0);
        lemma_padded_roundtrip::<V>(8u8, v.1, e1, p1, t1);
    }
}

/// A D-Bus dictionary: a list of entries, kept in the order given.
#[derive(Debug, Clone, PartialEq)]
pub struct Dict<K, V>(Vec<DictEntry<K, V>>);

impl<K: DeepView, V: DeepView> DeepView for Dict<K, V> {
    type V = Seq<(K::V, V::V)>;

    closed spec fn deep_view(&self) -> Seq<(K::V, V::V)> {
        self.0.deep_view()
    }
}

/// The map made by inserting the entries in order, so that a later entry
/// replaces an earlier one with the same key.
pub open spec fn entries_map<K, V>(s: Seq<DictEntry<K, V>>) -> Map<K, V>
    decreases s.len(),
{
    if s.len() == 0 {
        Map::empty()
    } else {
        entries_map(s.drop_last()).insert(s.last().spec_key(), s.last().spec_value())
    }
}

impl<K, V> Dict<K, V> {
    pub closed spec fn spec_entries(&self) -> Seq<DictEntry<K, V>> {
        self.0@
    }

    pub fn from_entries(entries: Vec<DictEntry<K, V>>) -> (d: Self)
        ensures
            d.spec_entries() == entries@,
    {
        Dict(entries)
    }

    /// The dictionary of the given pairs, in order.
    pub fn from_pairs(pairs: Vec<(K, V)>) -> (d: Self)
        ensures
            d.spec_entries().len() == pairs@.len(),
            forall|i: int|
                0 <= i < pairs@.len() ==> (#[trigger] d.spec_entries()[i]).spec_key() == pairs@[i].0
                    && d.spec_entries()[i].spec_value() == pairs@[i].1,
    {
        let mut pairs = pairs;
        let ghost s = pairs@;
        let mut rev: Vec<(K, V)> = Vec::new();
        while pairs.len() > 0
            invariant
                pairs@ + rev@.reverse() == s,
            decreases pairs@.len(),
        {
            let ghost before = pairs@;
            let p = pairs.pop().unwrap();
            proof {
                assert(before == pairs@.push(p));
            }
            rev.push(p);
            assert(pairs@ + rev@.reverse() =~= s);
        }
        assert(rev@.reverse() =~= s);
        let mut entries: Vec<DictEntry<K, V>> = Vec::new();
        while rev.len() > 0
            invariant
                entries@.len() + rev@.len() == s.len(),
                rev@.reverse() == s.skip(entries@.len() as int),
                forall|i: int|
                    0 <= i < entries@.len() ==> (#[trigger] entries@[i]).spec_key() == s[i].0
                        && entries@[i].spec_value() == s[i].1,
            decreases rev@.len(),
        {
            let ghost before = rev@;
            let ghost k = entries@.len();
            let p = rev.pop().unwrap();
            proof {
                assert(before.reverse()[0] == p);
                assert(rev@.reverse() =~= before.reverse().drop_first());
            }
            entries.push(DictEntry(p.0, p.1));
        }
        Dict(entries)
    }

    /// The entries, in order.
    pub fn entries(&self) -> (s: &[DictEntry<K, V>])
        ensures
            s@ == self.spec_entries(),
    {
        self.0.as_slice()
    }

    /// The entries collected into a `HashMap`; where two entries share a key
    /// the later one wins.
    pub fn into_hashmap(self) -> (m: HashMap<K, V>)
        where
            K: Eq + Hash,
        ensures
            obeys_key_model::<K>() ==> m@ == entries_map(self.spec_entries()),
    {
        broadcast use vstd::std_specs::hash::group_hash_axioms;

        let mut entries = self.0;
        let ghost s = entries@;
        let mut rev: Vec<DictEntry<K, V>> = Vec::new();
        while entries.len() > 0
            invariant
                entries@ + rev@.reverse() == s,
            decreases entries@.len(),
        {
            let ghost before = entries@;
            let x = entries.pop().unwrap();
            proof {
                assert(before == entries@.push(x));
            }
            rev.push(x);
            assert(entries@ + rev@.reverse() =~= s);
        }
        assert(rev@.reverse() =~= s);
        let mut m: HashMap<K, V> = HashMap::new();
        let ghost mut i: int = 0;
        while rev.len() > 0
            invariant
                0 <= i <= s.len(),
                i + rev@.len() == s.len(),
                rev@.reverse() == s.skip(i),
                obeys_key_model::<K>() ==> m@ == entries_map(s.take(i)),
            decreases rev@.len(),
        {
            let ghost before = rev@;
            let x = rev.pop().unwrap();
            proof {
                assert(before.reverse()[0] == x);
                assert(x == s[i]);
                assert(rev@.reverse() =~= before.reverse().drop_first());
                assert(s.take(i + 1).drop_last() =~= s.take(i));
            }
            m.insert(x.0, x.1);
            proof {
                i = i + 1;
                assert(rev@.reverse() =~= s.skip(i));
            }
        }
        assert(s.take(i) =~= s);
        m
    }
}

impl<K: DBusBasicType, V: DBusType> DBusType for Dict<K, V> {
    open spec fn spec_code() -> u8 {
        101u8
    }

    open spec fn spec_signature() -> Seq<char> {
        <Vec<DictEntry<K, V>> as DBusType>::spec_signature()
    }

    open spec fn spec_alignment() -> u8 {
        8u8
    }

    open spec fn spec_well_formed(v: Seq<(K::V, V::V)>) -> bool {
        <Vec<DictEntry<K, V>> as DBusType>::spec_well_formed(v)
    }

    open spec fn spec_encode(v: Seq<(K::V, V::V)>, e: Endianness, pos: nat) -> Seq<u8> {
        <Vec<DictEntry<K, V>> as DBusType>::spec_encode(v, e, pos)
    }

    open spec fn spec_endianness_after(v: Seq<(K::V, V::V)>, e: Endianness) -> Endianness {
        e
    }

    open spec fn spec_decode(input: Seq<u8>, e: Endianness, pos: nat) -> Result<(Seq<(K::V, V::V)>, nat), Failure> {
        <Vec<DictEntry<K, V>> as DBusType>::spec_decode(input, e, pos)
    }

    fn code() -> (c: u8) {
        101
    }

    fn signature() -> (s: String) {
        <Vec<DictEntry<K, V>>>::signature()
    }

    fn alignment() -> (a: u8) {
        8
    }

    fn encode(&self, marshaller: &mut Marshaller) -> (r: Result<(), Error>) {
        self.0.encode(marshaller)
    }

    fn decode(marshaller: &mut Marshaller) -> (r: Result<Self, Error>) {
        let values = <Vec<DictEntry<K, V>>>::decode(marshaller)?;
        Ok(Dict(values))
    }

    proof fn lemma_decode_within(input: Seq<u8>, e: Endianness, pos: nat) {
        <Vec<DictEntry<K, V>> as DBusType>::lemma_decode_within(input, e, pos);
    }

    proof fn lemma_roundtrip(v: Seq<(K::V, V::V)>, e: Endianness, pos: nat, rest: Seq<u8>) {
        <Vec<DictEntry<K, V>> as DBusType>::lemma_roundtrip(v, e, pos, rest);
    }
}

/// `s` lists the pairs of `m`, each key once, in some order.
pub open spec fn lists_map<'a, K, V>(s: Seq<DictEntry<&'a K, &'a V>>, m: Map<K, V>) -> bool {
    &&& s.len() == m.len()
    &&& forall|i: int|
        0 <= i < s.len() ==> m.contains_key(*(#[trigger] s[i]).spec_key()) && m[*s[i].spec_key()]
            == *s[i].spec_value()
    &&& forall|i: int, j: int|
        0 <= i < j < s.len() ==> *(#[trigger] s[i]).spec_key() != *(#[trigger] s[j]).spec_key()
    &&& forall|k: K| #[trigger]
        m.contains_key(k) ==> exists|i: int| 0 <= i < s.len() && *(#[trigger] s[i]).spec_key() == k
}

impl<'a, K: Eq + Hash, V> Dict<&'a K, &'a V> {
    /// The entries of `map`, in the order in which `HashMap::iter` walks them.
    /// That order depends on the map's hasher, so nothing is stated of it: the
    /// entries list the map's pairs, each key once.
    pub fn from_hashmap(map: &'a HashMap<K, V>) -> (d: Self)
        requires
            obeys_key_model::<K>(),
        ensures
            lists_map(d.spec_entries(), map@),
    {
        broadcast use vstd::std_specs::hash::group_hash_axioms;

        let ghost all = vstd::std_specs::hash::spec_hash_map_iter(map).remaining();
        let mut entries: Vec<DictEntry<&'a K, &'a V>> = Vec::new();
        for kv in it: map.iter()
            invariant
                it.seq() == all,
                all.no_duplicates(),
                entries@.len() == it.index(),
                forall|j: int|
                    0 <= j < entries@.len() ==> (#[trigger] entries@[j]).spec_key() == it.seq()[j].0
                        && entries@[j].spec_value() == it.seq()[j].1,
        {
            entries.push(DictEntry(kv.0, kv.1));
        }
        proof {
            let s = entries@;
            let m = map@;
            assert(s.len() == all.len());
            assert forall|a: int, b: int| 0 <= a < b < s.len() implies *(
            #[trigger] s[a]).spec_key() != *(#[trigger] s[b]).spec_key() by {
                if *s[a].spec_key() == *s[b].spec_key() {
                    assert(m.contains_key(*all[a].0) && m[*all[a].0] == *all[a].1);
                    assert(m.contains_key(*all[b].0) && m[*all[b].0] == *all[b].1);
                    assert(all[a] == all[b]);
                }
            }
            assert forall|k: K| #[trigger] m.contains_key(k) implies exists|j: int|
                0 <= j < s.len() && *(#[trigger] s[j]).spec_key() == k by {
                assert(all.contains((&k, &m[k])));
                let j = choose|j: int| 0 <= j < all.len() && all[j] == (&k, &m[k]);
                assert(*s[j].spec_key() == k);
            }
        }
        Dict(entries)
    }
}

/// Writes `map` as a dictionary, its entries in the order in which
/// `HashMap::iter` walks them. The bytes are those of some listing of the
/// map's pairs; which listing depends on the map's hasher.
pub fn encode_hashmap<K: DBusBasicType + Eq + Hash, V: DBusType>(
    map: &HashMap<K, V>,
    marshaller: &mut Marshaller,
) -> (r: Result<(), Error>)
    requires
        obeys_key_model::<K>(),
        forall|d: Dict<&K, &V>|
            lists_map(d.spec_entries(), map@) ==> old(marshaller).spec_write_pos()
                + #[trigger] Dict::<&K, &V>::spec_encode(
                d.deep_view(),
                old(marshaller).spec_endianness(),
                old(marshaller).spec_write_pos(),
            ).len() <= usize::MAX,
    ensures
        r is Ok,
        exists|d: Dict<&K, &V>|
            #![trigger d.spec_entries()]
            lists_map(d.spec_entries(), map@) && final(marshaller).wrote(
                *old(marshaller),
                Dict::<&K, &V>::spec_encode(
                    d.deep_view(),
                    old(marshaller).spec_endianness(),
                    old(marshaller).spec_write_pos(),
                ),
            ),
{
    let data = Dict::from_hashmap(map);
    let ghost e = marshaller.spec_endianness();
    let ghost pos = marshaller.spec_write_pos();
    let r = data.encode(marshaller);
    assert(lists_map(data.spec_entries(), map@));
    r
}

/// Reads a dictionary and collects its entries into a `HashMap`, a later
/// entry replacing an earlier one with the same key.
pub fn decode_hashmap<K: DBusBasicType + Eq + Hash, V: DBusType>(marshaller: &mut Marshaller) -> (r:
    Result<HashMap<K, V>, Error>)
    requires
        old(marshaller).read_room(),
    ensures
        final(marshaller).read_room(),
        ({
            let e = old(marshaller).spec_endianness();
            let input = old(marshaller).spec_bytes();
            let res = Dict::<K, V>::spec_decode(input, e, old(marshaller).spec_read_pos());
            match r {
                Ok(m) => res matches Ok((w, n)) && {
                    &&& exists|d: Dict<K, V>|
                        #![trigger d.spec_entries()]
                        d.deep_view() == w && (obeys_key_model::<K>() ==> m@ == entries_map(
                            d.spec_entries(),
                        ))
                    &&& final(marshaller).consumed(*old(marshaller), n)
                },
                Err(err) => res matches Err(f) && err.reports(f),
            }
        }),
{
    let dict = Dict::<K, V>::decode(marshaller)?;
    let ghost d = dict;
    let m = dict.into_hashmap();
    assert(d.spec_entries() == d.spec_entries());
    Ok(m)
}

} // verus!
