//! The element grammar of object paths and of bus, interface and member
//! names: a name is split at a separator into elements, and each element must
//! be made of a given set of ASCII characters.
use vstd::prelude::*;

verus! {

pub open spec fn is_alpha(b: u8) -> bool {
    (65 <= b <= 90) || (97 <= b <= 122)
}

pub open spec fn is_digit(b: u8) -> bool {
    48 <= b <= 57
}

/// `[A-Z][a-z][0-9]_`
pub open spec fn is_word(b: u8) -> bool {
    is_alpha(b) || is_digit(b) || b == 95
}

/// `[A-Z][a-z][0-9]_-`
pub open spec fn is_bus_char(b: u8) -> bool {
    is_word(b) || b == 45
}

/// Whether `b` matches `^([[:alnum:]]|_)+$`.
pub open spec fn all_word(b: Seq<u8>) -> bool {
    b.len() > 0 && forall|i: int| 0 <= i < b.len() ==> is_word(#[trigger] b[i])
}

/// Whether `b` matches `^([[:alpha:]]|_)([[:alnum:]]|_)*$`.
pub open spec fn is_identifier(b: Seq<u8>) -> bool {
    all_word(b) && (is_alpha(b[0]) || b[0] == 95)
}

/// Whether `b` matches `^([[:alnum:]]|_|-)+$`.
pub open spec fn all_bus_chars(b: Seq<u8>) -> bool {
    b.len() > 0 && forall|i: int| 0 <= i < b.len() ==> is_bus_char(#[trigger] b[i])
}

/// Matches `b` against `^([[:alnum:]]|_)+$` with `regex::bytes::Regex`, whose
/// `[[:alnum:]]` class is the ASCII letters and digits.
#[verifier::external_body]
fn regex_all_word(b: &[u8]) -> (r: bool)
    ensures
        r == all_word(b@),
{
    match regex::bytes::Regex::new(r"^([[:alnum:]]|_)+$") {
        Ok(re) => re.is_match(b),
        Err(_) => false,
    }
}

/// Matches `b` against `^([[:alpha:]]|_)([[:alnum:]]|_)*$` with
/// `regex::bytes::Regex`, whose `[[:alpha:]]` and `[[:alnum:]]` classes are
/// ASCII only.
#[verifier::external_body]
fn regex_identifier(b: &[u8]) -> (r: bool)
    ensures
        r == is_identifier(b@),
{
    match regex::bytes::Regex::new(r"^([[:alpha:]]|_)([[:alnum:]]|_)*$") {
        Ok(re) => re.is_match(b),
        Err(_) => false,
    }
}

/// Matches `b` against `^([[:alnum:]]|_|-)+$` with `regex::bytes::Regex`,
/// whose `[[:alnum:]]` class is the ASCII letters and digits.
#[verifier::external_body]
fn regex_all_bus_chars(b: &[u8]) -> (r: bool)
    ensures
        r == all_bus_chars(b@),
{
    match regex::bytes::Regex::new(r"^([[:alnum:]]|_|-)+$") {
        Ok(re) => re.is_match(b),
        Err(_) => false,
    }
}

/// The pieces of `b` between occurrences of `sep`; there is always at least one.
pub open spec fn split(b: Seq<u8>, sep: u8) -> Seq<Seq<u8>>
    decreases b.len(),
{
    if b.len() == 0 {
        seq![Seq::<u8>::empty()]
    } else {
        let r = split(b.drop_last(), sep);
        if b.last() == sep {
            r.push(Seq::<u8>::empty())
        } else {
            r.update(r.len() - 1, r.last().push(b.last()))
        }
    }
}

/// What the elements of a name are checked against.
#[derive(Debug, Clone, Copy, PartialEq, Eq, Structural)]
pub enum ElementRule {
    /// Object path elements: `[A-Z][a-z][0-9]_`.
    Path,
    /// Interface and member name elements: `[A-Z][a-z][0-9]_`, not starting
    /// with a digit.
    Identifier,
    /// Bus name elements: `[A-Z][a-z][0-9]_-`; in a name that is not unique
    /// an element must not start with a digit.
    Bus { unique: bool },
}

/// The first thing wrong with an element.
#[derive(Debug, Clone, Copy, PartialEq, Eq, Structural)]
pub enum ElementFault {
    Empty,
    LeadingDigit,
    BadChar,
}

pub open spec fn element_fault(seg: Seq<u8>, rule: ElementRule) -> Option<ElementFault> {
    if seg.len() == 0 {
        Some(ElementFault::Empty)
    } else {
        match rule {
            ElementRule::Path => if all_word(seg) {
                None
            } else {
                Some(ElementFault::BadChar)
            },
            ElementRule::Identifier => if is_identifier(seg) {
                None
            } else {
                Some(ElementFault::BadChar)
            },
            ElementRule::Bus { unique } => if !unique && is_digit(seg[0]) {
                Some(ElementFault::LeadingDigit)
            } else if all_bus_chars(seg) {
                None
            } else {
                Some(ElementFault::BadChar)
            },
        }
    }
}

/// The fault of the first element that has one.
pub open spec fn first_fault(segs: Seq<Seq<u8>>, rule: ElementRule) -> Option<ElementFault>
    decreases segs.len(),
{
    if segs.len() == 0 {
        None
    } else {
        match element_fault(segs[0], rule) {
            Some(f) => Some(f),
            None => first_fault(segs.drop_first(), rule),
        }
    }
}

pub proof fn lemma_split_nonempty(b: Seq<u8>, sep: u8)
    ensures
        split(b, sep).len() >= 1,
    decreases b.len(),
{
    if b.len() > 0 {
        lemma_split_nonempty(b.drop_last(), sep);
    }
}

/// Splitting at a separator splits the two sides apart.
pub proof fn lemma_split_concat(a: Seq<u8>, sep: u8, c: Seq<u8>)
    ensures
        split(a.push(sep) + c, sep) == split(a, sep) + split(c, sep),
    decreases c.len(),
{
    lemma_split_nonempty(c, sep);
    if c.len() == 0 {
        assert(a.push(sep) + c =~= a.push(sep));
        assert(a.push(sep).drop_last() =~= a);
        assert(split(a, sep).push(Seq::<u8>::empty()) =~= split(a, sep) + seq![
            Seq::<u8>::empty(),
        ]);
    } else {
        let whole = a.push(sep) + c;
        assert(whole.drop_last() =~= a.push(sep) + c.drop_last());
        lemma_split_concat(a, sep, c.drop_last());
        lemma_split_nonempty(c.drop_last(), sep);
        lemma_split_nonempty(a, sep);
        let l = split(a, sep);
        let r = split(c.drop_last(), sep);
        if c.last() == sep {
            assert((l + r).push(Seq::<u8>::empty()) =~= l + r.push(Seq::<u8>::empty()));
        } else {
            assert((l + r).update((l + r).len() - 1, (l + r).last().push(c.last())) =~= l
                + r.update(r.len() - 1, r.last().push(c.last())));
        }
    }
}

/// A text that does not start with the separator has a first element that
/// starts with its first byte.
pub proof fn lemma_split_first(b: Seq<u8>, sep: u8)
    requires
        b.len() > 0,
        b[0] != sep,
    ensures
        split(b, sep)[0].len() > 0,
        split(b, sep)[0][0] == b[0],
    decreases b.len(),
{
    let p = b.drop_last();
    lemma_split_nonempty(p, sep);
    if b.len() == 1 {
        assert(p.len() == 0);
        assert(b.last() == b[0]);
    } else {
        lemma_split_first(p, sep);
    }
}

/// A text that starts with the separator has an empty first element.
pub proof fn lemma_split_first_empty(b: Seq<u8>, sep: u8)
    requires
        b.len() > 0,
        b[0] == sep,
    ensures
        split(b, sep)[0].len() == 0,
{
    let e = Seq::<u8>::empty();
    assert(b =~= e.push(sep) + b.skip(1));
    lemma_split_concat(e, sep, b.skip(1));
}

/// Every byte that is not a separator is in some element.
pub proof fn lemma_split_covers(b: Seq<u8>, sep: u8, i: int)
    requires
        0 <= i < b.len(),
        b[i] != sep,
    ensures
        exists|j: int, k: int|
            0 <= j < split(b, sep).len() && 0 <= k < split(b, sep)[j].len() && split(b, sep)[j][k]
                == b[i],
    decreases b.len(),
{
    let p = b.drop_last();
    lemma_split_nonempty(p, sep);
    let r = split(p, sep);
    if i == b.len() - 1 {
        let j = r.len() - 1;
        let k = r.last().len() as int;
        assert(split(b, sep)[j][k] == b[i]);
    } else {
        lemma_split_covers(p, sep, i);
        let (j, k) = choose|j: int, k: int|
            0 <= j < r.len() && 0 <= k < r[j].len() && r[j][k] == p[i];
        assert(split(b, sep)[j][k] == b[i]);
    }
}

/// A byte that follows a separator, and is not one, starts an element.
pub proof fn lemma_split_element_start(b: Seq<u8>, sep: u8, i: int)
    requires
        0 < i < b.len(),
        b[i - 1] == sep,
        b[i] != sep,
    ensures
        exists|j: int|
            0 <= j < split(b, sep).len() && split(b, sep)[j].len() > 0 && split(b, sep)[j][0]
                == b[i],
{
    let a = b.take(i - 1);
    let c = b.skip(i);
    assert(b =~= a.push(sep) + c);
    lemma_split_concat(a, sep, c);
    lemma_split_first(c, sep);
    lemma_split_nonempty(c, sep);
    let j = split(a, sep).len() as int;
    assert(split(b, sep)[j] == split(c, sep)[0]);
}

/// Two separators in a row leave an empty element between them.
pub proof fn lemma_split_adjacent(b: Seq<u8>, sep: u8, i: int)
    requires
        0 <= i,
        i + 1 < b.len(),
        b[i] == sep,
        b[i + 1] == sep,
    ensures
        exists|j: int| 0 <= j < split(b, sep).len() && split(b, sep)[j].len() == 0,
{
    let a = b.take(i);
    let c = b.skip(i + 1);
    assert(b =~= a.push(sep) + c);
    lemma_split_concat(a, sep, c);
    lemma_split_first_empty(c, sep);
    lemma_split_nonempty(c, sep);
    let j = split(a, sep).len() as int;
    assert(split(b, sep)[j] == split(c, sep)[0]);
}

/// When no element has a fault, none of them has one.
pub proof fn lemma_first_fault_none(segs: Seq<Seq<u8>>, rule: ElementRule)
    requires
        first_fault(segs, rule) is None,
    ensures
        forall|j: int| 0 <= j < segs.len() ==> element_fault(#[trigger] segs[j], rule) is None,
    decreases segs.len(),
{
    if segs.len() > 0 {
        lemma_first_fault_none(segs.drop_first(), rule);
        assert forall|j: int| 0 <= j < segs.len() implies element_fault(#[trigger] segs[j], rule) is None by {
            if j > 0 {
                assert(segs[j] == segs.drop_first()[j - 1]);
            }
        }
    }
}

/// The bytes of a name whose elements all pass `rule`: it is not empty, it
/// neither starts nor ends with a separator nor has two in a row, every other
/// byte is of the rule's characters, and where the rule forbids a leading
/// digit, no element starts with one.
pub proof fn lemma_elements_ok_bytes(b: Seq<u8>, sep: u8, rule: ElementRule)
    requires
        first_fault(split(b, sep), rule) is None,
        !is_bus_char(sep),
    ensures
        b.len() > 0,
        b[0] != sep,
        b[b.len() - 1] != sep,
        forall|i: int| 0 <= i < b.len() - 1 && #[trigger] b[i] == sep ==> b[i + 1] != sep,
        forall|i: int|
            0 <= i < b.len() && #[trigger] b[i] != sep ==> match rule {
                ElementRule::Bus { .. } => is_bus_char(b[i]),
                _ => is_word(b[i]),
            },
        rule == ElementRule::Identifier || rule == (ElementRule::Bus { unique: false }) ==> {
            &&& !is_digit(b[0])
            &&& forall|i: int| 0 <= i < b.len() - 1 && #[trigger] b[i] == sep ==> !is_digit(b[i + 1])
        },
{
    let segs = split(b, sep);
    lemma_split_nonempty(b, sep);
    lemma_first_fault_none(segs, rule);
    if b.len() == 0 {
        assert(segs[0].len() == 0);
        assert(element_fault(segs[0], rule) is Some);
    }
    if b[0] == sep {
        lemma_split_first_empty(b, sep);
        assert(element_fault(segs[0], rule) is Some);
    } else {
        lemma_split_first(b, sep);
        assert(element_fault(segs[0], rule) is None);
    }
    if b[b.len() - 1] == sep {
        assert(b.last() == sep);
        assert(segs.last().len() == 0);
        assert(element_fault(segs[segs.len() - 1], rule) is Some);
    }
    assert forall|i: int| 0 <= i < b.len() - 1 && #[trigger] b[i] == sep implies b[i + 1] != sep by {
        if b[i + 1] == sep {
            lemma_split_adjacent(b, sep, i);
            let j = choose|j: int| 0 <= j < segs.len() && segs[j].len() == 0;
            assert(element_fault(segs[j], rule) is Some);
        }
    }
    assert forall|i: int| 0 <= i < b.len() && #[trigger] b[i] != sep implies match rule {
        ElementRule::Bus { .. } => is_bus_char(b[i]),
        _ => is_word(b[i]),
    } by {
        lemma_split_covers(b, sep, i);
        let (j, k) = choose|j: int, k: int|
            0 <= j < segs.len() && 0 <= k < segs[j].len() && segs[j][k] == b[i];
        assert(element_fault(segs[j], rule) is None);
        assert(segs[j].len() > 0);
    }
    if rule == ElementRule::Identifier || rule == (ElementRule::Bus { unique: false }) {
        assert(element_fault(segs[0], rule) is None);
        assert forall|i: int| 0 <= i < b.len() - 1 && #[trigger] b[i] == sep implies !is_digit(b[i + 1]) by {
            lemma_split_element_start(b, sep, i + 1);
            let j = choose|j: int|
                0 <= j < segs.len() && segs[j].len() > 0 && segs[j][0] == b[i + 1];
            assert(element_fault(segs[j], rule) is None);
        }
    }
}

/// The first fault of two runs of elements.
pub proof fn lemma_first_fault_concat(x: Seq<Seq<u8>>, y: Seq<Seq<u8>>, rule: ElementRule)
    ensures
        first_fault(x + y, rule) == match first_fault(x, rule) {
            Some(f) => Some(f),
            None => first_fault(y, rule),
        },
    decreases x.len(),
{
    if x.len() == 0 {
        assert(x + y =~= y);
    } else {
        assert((x + y).drop_first() =~= x.drop_first() + y);
        lemma_first_fault_concat(x.drop_first(), y, rule);
    }
}

pub fn element_fault_exec(seg: &[u8], rule: ElementRule) -> (r: Option<ElementFault>)
    ensures
        r == element_fault(seg@, rule),
{
    if seg.len() == 0 {
        return Some(ElementFault::Empty);
    }
    let ok = match rule {
        ElementRule::Path => regex_all_word(seg),
        ElementRule::Identifier => regex_identifier(seg),
        ElementRule::Bus { unique } => {
            if !unique && 48 <= seg[0] && seg[0] <= 57 {
                return Some(ElementFault::LeadingDigit);
            }
            regex_all_bus_chars(seg)
        },
    };
    if ok {
        None
    } else {
        Some(ElementFault::BadChar)
    }
}

/// Whether `sep` occurs in `b[start..]`.
pub fn contains_byte(b: &[u8], start: usize, sep: u8) -> (r: bool)
    requires
        start <= b@.len(),
    ensures
        r == b@.skip(start as int).contains(sep),
{
    let mut i = start;
    while i < b.len()
        invariant
            start <= i <= b@.len(),
            forall|j: int| start <= j < i ==> b@[j] != sep,
        decreases b@.len() - i,
    {
        if b[i] == sep {
            assert(b@.skip(start as int)[i - start] == sep);
            return true;
        }
        i = i + 1;
    }
    proof {
        if b@.skip(start as int).contains(sep) {
            let k = choose|k: int| 0 <= k < b@.skip(start as int).len() && b@.skip(start as int)[k] == sep;
            assert(b@[start + k] == sep);
        }
    }
    false
}

/// The first fault among the elements of `b[start..]` split at `sep`.
pub fn first_fault_exec(b: &[u8], start: usize, sep: u8, rule: ElementRule) -> (r: Option<
    ElementFault,
>)
    requires
        start <= b@.len(),
    ensures
        r == first_fault(split(b@.skip(start as int), sep), rule),
{
    let ghost whole = b@.skip(start as int);
    let mut done: Ghost<Seq<Seq<u8>>> = Ghost(Seq::empty());
    let mut cur: Vec<u8> = Vec::new();
    let mut i: usize = start;
    while i < b.len()
        invariant
            start <= i <= b@.len(),
            whole == b@.skip(start as int),
            split(b@.subrange(start as int, i as int), sep) == done@.push(cur@),
            first_fault(done@, rule) is None,
        decreases b@.len() - i,
    {
        let ghost prefix = b@.subrange(start as int, i as int);
        let byte = b[i];
        if byte == sep {
            let fault = element_fault_exec(cur.as_slice(), rule);
            proof {
                let rest = b@.subrange(i + 1, b@.len() as int);
                assert(whole =~= prefix.push(sep) + rest);
                lemma_split_concat(prefix, sep, rest);
                lemma_first_fault_concat(done@.push(cur@), split(rest, sep), rule);
                lemma_first_fault_concat(done@, seq![cur@], rule);
                assert(seq![cur@].drop_first() =~= Seq::<Seq<u8>>::empty());
                assert(done@.push(cur@) =~= done@ + seq![cur@]);
            }
            if fault.is_some() {
                return fault;
            }
            proof {
                assert(b@.subrange(start as int, i + 1) =~= prefix.push(sep));
                assert(prefix.push(sep).drop_last() =~= prefix);
                assert(first_fault(seq![cur@].drop_first(), rule) is None);
                assert(first_fault(seq![cur@], rule) is None);
                assert(first_fault(done@.push(cur@), rule) is None);
                done@ = done@.push(cur@);
            }
            cur = Vec::new();
        } else {
            proof {
                assert(b@.subrange(start as int, i + 1) =~= prefix.push(byte));
                assert(prefix.push(byte).drop_last() =~= prefix);
            }
            cur.push(byte);
        }
        i = i + 1;
    }
    proof {
        assert(b@.subrange(start as int, b@.len() as int) =~= whole);
        lemma_first_fault_concat(done@, seq![cur@], rule);
        assert(seq![cur@].drop_first() =~= Seq::<Seq<u8>>::empty());
        assert(done@.push(cur@) =~= done@ + seq![cur@]);
    }
    element_fault_exec(cur.as_slice(), rule)
}

} // verus!
