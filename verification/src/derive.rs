//! The rules by which the D-Bus type of a structure or enumeration follows
//! from its declaration: what a derived implementation's type code,
//! signature and alignment are, and when a declaration cannot be derived.
//! Declarations are described here by plain values: each field by the
//! signature and alignment of its type.
use crate::types::string::{push_char, push_str};
use vstd::prelude::*;

verus! {

/// The type code, signature and alignment of a D-Bus type.
#[derive(Debug, Clone, PartialEq, Eq)]
pub struct TypeInfo {
    pub code: u8,
    pub signature: String,
    pub alignment: u8,
}

/// A field of a structure or of an enumeration variant.
#[derive(Debug, Clone)]
pub struct FieldDef {
    /// The field's name; none for a field of a tuple structure or variant.
    pub name: Option<String>,
    /// The signature of the field's type.
    pub signature: String,
    /// The alignment of the field's type.
    pub alignment: u8,
}

/// The fields of a structure or of an enumeration variant.
#[derive(Debug, Clone)]
pub enum Fields {
    Named(Vec<FieldDef>),
    Unnamed(Vec<FieldDef>),
    Unit,
}

/// The concatenation of the given texts.
pub open spec fn concat(parts: Seq<Seq<char>>) -> Seq<char>
    decreases parts.len(),
{
    if parts.len() == 0 {
        Seq::empty()
    } else {
        concat(parts.drop_last()) + parts.last()
    }
}

/// Concatenation keeps the texts in order: one text is itself, and the
/// concatenation of two runs of texts is the first run's followed by the
/// second's.
pub proof fn lemma_concat_in_order(x: Seq<char>, a: Seq<Seq<char>>, b: Seq<Seq<char>>)
    ensures
        concat(seq![x]) == x,
        concat(a + b) == concat(a) + concat(b),
    decreases b.len(),
{
    let one = seq![x];
    assert(one.drop_last() =~= Seq::<Seq<char>>::empty());
    assert(concat(one.drop_last()) == Seq::<char>::empty());
    assert(one.last() == x);
    assert(Seq::<char>::empty() + x =~= x);
    assert(concat(one) == concat(one.drop_last()) + one.last());
    if b.len() == 0 {
        assert(a + b =~= a);
        assert(concat(a) + Seq::<char>::empty() =~= concat(a));
    } else {
        lemma_concat_in_order(x, a, b.drop_last());
        assert((a + b).drop_last() =~= a + b.drop_last());
        assert(concat(a) + concat(b.drop_last()) + b.last() =~= concat(a) + (concat(b.drop_last())
            + b.last()));
    }
}

pub open spec fn field_signatures(fs: Seq<FieldDef>) -> Seq<Seq<char>> {
    Seq::new(fs.len(), |i: int| fs[i].signature@)
}

/// Joins the signatures of `fields`, in order.
fn join_signatures(fields: &Vec<FieldDef>) -> (s: String)
    ensures
        s@ == concat(field_signatures(fields@)),
{
    let mut s = String::new();
    let mut i: usize = 0;
    while i < fields.len()
        invariant
            i <= fields@.len(),
            s@ == concat(field_signatures(fields@.take(i as int))),
        decreases fields@.len() - i,
    {
        push_str(&mut s, fields[i].signature.as_str());
        proof {
            assert(field_signatures(fields@.take(i + 1)).drop_last() =~= field_signatures(
                fields@.take(i as int),
            ));
        }
        i = i + 1;
    }
    assert(fields@.take(fields@.len() as int) =~= fields@);
    s
}

impl Fields {
    pub open spec fn spec_fields(&self) -> Seq<FieldDef> {
        match self {
            Fields::Named(fs) => fs@,
            Fields::Unnamed(fs) => fs@,
            Fields::Unit => Seq::empty(),
        }
    }

    pub open spec fn spec_signature(&self) -> Seq<char> {
        let fs = self.spec_fields();
        if self is Named || fs.len() > 1 {
            seq!['('] + concat(field_signatures(fs)) + seq![')']
        } else if fs.len() == 1 {
            fs[0].signature@
        } else {
            Seq::empty()
        }
    }

    pub open spec fn spec_alignment(&self) -> u8 {
        let fs = self.spec_fields();
        if self is Named || fs.len() > 1 {
            8
        } else if fs.len() == 1 {
            fs[0].alignment
        } else {
            0
        }
    }

    pub fn is_named(&self) -> (b: bool)
        ensures
            b == self is Named,
    {
        match self {
            Fields::Named(_) => true,
            _ => false,
        }
    }

    pub fn is_unit(&self) -> (b: bool)
        ensures
            b == self is Unit,
    {
        match self {
            Fields::Unit => true,
            _ => false,
        }
    }

    pub fn len(&self) -> (n: usize)
        ensures
            n == self.spec_fields().len(),
    {
        match self {
            Fields::Named(fs) => fs.len(),
            Fields::Unnamed(fs) => fs.len(),
            Fields::Unit => 0,
        }
    }

    /// The signature of a variant with these fields: a structure when the
    /// fields are named or more than one, the field's own for one, empty for
    /// none.
    pub fn signature(&self) -> (s: String)
        ensures
            s@ == self.spec_signature(),
    {
        match self {
            Fields::Unit => {
                let s = String::new();
                assert(s@ =~= self.spec_signature());
                s
            },
            Fields::Unnamed(fs) if fs.len() == 1 => fs[0].signature.clone(),
            Fields::Unnamed(fs) if fs.len() == 0 => {
                let s = String::new();
                assert(s@ =~= self.spec_signature());
                s
            },
            Fields::Named(fs) | Fields::Unnamed(fs) => {
                proof {
                    reveal_strlit("(");
                    reveal_strlit(")");
                }
                let mut s = "(".to_owned();
                let inner = join_signatures(fs);
                push_str(&mut s, inner.as_str());
                push_str(&mut s, ")");
                s
            },
        }
    }

    /// The alignment the fields of a variant are written at.
    pub fn alignment(&self) -> (a: u8)
        ensures
            a == self.spec_alignment(),
    {
        match self {
            Fields::Unit => 0,
            Fields::Unnamed(fs) if fs.len() == 1 => fs[0].alignment,
            Fields::Unnamed(fs) if fs.len() == 0 => 0,
            _ => 8,
        }
    }
}

/// The signature of a derived structure with fields of the given signatures:
/// their concatenation, in parentheses unless the structure is packed.
pub fn struct_signature(field_signatures: &[String], packed: bool) -> (s: String)
    ensures
        s@ == if packed {
            concat(Seq::new(field_signatures@.len(), |i: int| field_signatures@[i]@))
        } else {
            seq!['('] + concat(Seq::new(field_signatures@.len(), |i: int| field_signatures@[i]@))
                + seq![')']
        },
{
    let ghost parts = Seq::new(field_signatures@.len(), |i: int| field_signatures@[i]@);
    proof {
        reveal_strlit("(");
        reveal_strlit(")");
    }
    let mut s = if packed {
        String::new()
    } else {
        "(".to_owned()
    };
    let ghost start = s@;
    let mut i: usize = 0;
    while i < field_signatures.len()
        invariant
            i <= field_signatures@.len(),
            parts == Seq::new(field_signatures@.len(), |i: int| field_signatures@[i]@),
            start == if packed {
                Seq::<char>::empty()
            } else {
                seq!['(']
            },
            s@ == start + concat(parts.take(i as int)),
        decreases field_signatures@.len() - i,
    {
        push_str(&mut s, field_signatures[i].as_str());
        proof {
            assert(parts.take(i + 1).drop_last() =~= parts.take(i as int));
            assert(start + concat(parts.take(i as int)) + parts[i as int] =~= start + (concat(
                parts.take(i as int),
            ) + parts[i as int]));
        }
        i = i + 1;
    }
    assert(parts.take(field_signatures@.len() as int) =~= parts);
    if !packed {
        push_str(&mut s, ")");
    }
    assert(s@ =~= if packed {
        concat(parts)
    } else {
        seq!['('] + concat(parts) + seq![')']
    });
    s
}

/// The type of a derived structure: packed structures are written as their
/// fields alone, others as a D-Bus structure.
pub fn derive_struct(field_signatures: &[String], packed: bool) -> (t: TypeInfo)
    ensures
        t.code == if packed {
            0u8
        } else {
            114u8
        },
        t.alignment == if packed {
            1u8
        } else {
            8u8
        },
        t.signature@ == if packed {
            concat(Seq::new(field_signatures@.len(), |i: int| field_signatures@[i]@))
        } else {
            seq!['('] + concat(Seq::new(field_signatures@.len(), |i: int| field_signatures@[i]@))
                + seq![')']
        },
{
    TypeInfo {
        code: if packed {
            0
        } else {
            114
        },
        signature: struct_signature(field_signatures, packed),
        alignment: if packed {
            1
        } else {
            8
        },
    }
}

/// A variant of an enumeration.
#[derive(Debug, Clone)]
pub struct Variant {
    pub name: String,
    pub fields: Fields,
    /// The variant's discriminant, where the declaration gives one as a
    /// number or byte literal.
    pub value: Option<u64>,
}

/// The variants of an enumeration.
#[derive(Debug, Clone)]
pub struct Variants(pub Vec<Variant>);

/// The values of the variants: a given discriminant, or one more than the
/// value before (the value before the first being 0).
pub open spec fn variant_values(vs: Seq<Variant>) -> Seq<int>
    decreases vs.len(),
{
    if vs.len() == 0 {
        Seq::empty()
    } else {
        let before = variant_values(vs.drop_last());
        let current = if before.len() == 0 {
            0
        } else {
            before.last()
        };
        before.push(
            match vs.last().value {
                Some(v) => v as int,
                None => current + 1,
            },
        )
    }
}

pub proof fn lemma_variant_values_len(vs: Seq<Variant>)
    ensures
        variant_values(vs).len() == vs.len(),
    decreases vs.len(),
{
    if vs.len() > 0 {
        lemma_variant_values_len(vs.drop_last());
    }
}

impl Variants {
    pub open spec fn spec_variants(&self) -> Seq<Variant> {
        self.0@
    }

    /// Every variant has fields.
    pub fn is_complete(&self) -> (b: bool)
        ensures
            b == forall|i: int|
                0 <= i < self.spec_variants().len() ==> (#[trigger] self.spec_variants()[i]).fields !is Unit,
    {
        let mut i: usize = 0;
        while i < self.0.len()
            invariant
                i <= self.0@.len(),
                forall|j: int| 0 <= j < i ==> (#[trigger] self.0@[j]).fields !is Unit,
            decreases self.0@.len() - i,
        {
            if self.0[i].fields.is_unit() {
                return false;
            }
            i = i + 1;
        }
        true
    }

    /// Every variant is without fields.
    pub fn is_unit(&self) -> (b: bool)
        ensures
            b == forall|i: int|
                0 <= i < self.spec_variants().len() ==> (#[trigger] self.spec_variants()[i]).fields is Unit,
    {
        let mut i: usize = 0;
        while i < self.0.len()
            invariant
                i <= self.0@.len(),
                forall|j: int| 0 <= j < i ==> (#[trigger] self.0@[j]).fields is Unit,
            decreases self.0@.len() - i,
        {
            if !self.0[i].fields.is_unit() {
                return false;
            }
            i = i + 1;
        }
        true
    }

    /// The value each variant is written as.
    pub fn values(&self) -> (r: Vec<u64>)
        requires
            forall|i: int|
                0 <= i < self.spec_variants().len() ==> #[trigger] variant_values(
                    self.spec_variants(),
                )[i] <= u64::MAX,
        ensures
            r@.len() == self.spec_variants().len(),
            forall|i: int| 0 <= i < r@.len() ==> r@[i] == #[trigger] variant_values(self.spec_variants())[i],
    {
        let ghost vs = self.0@;
        proof {
            lemma_variant_values_len(vs);
            assert forall|j: int| 0 <= j < vs.len() implies #[trigger] variant_values(vs)[j]
                <= u64::MAX by {
                assert(variant_values(self.spec_variants())[j] <= u64::MAX);
            }
        }
        let mut values: Vec<u64> = Vec::new();
        let mut current: u64 = 0;
        let mut i: usize = 0;
        while i < self.0.len()
            invariant
                i <= vs.len(),
                vs == self.0@,
                variant_values(vs).len() == vs.len(),
                forall|j: int| 0 <= j < vs.len() ==> #[trigger] variant_values(vs)[j] <= u64::MAX,
                values@.len() == i,
                forall|j: int| 0 <= j < i ==> values@[j] == #[trigger] variant_values(vs)[j],
                current == if i == 0 {
                    0
                } else {
                    variant_values(vs)[i - 1]
                },
            decreases vs.len() - i,
        {
            proof {
                lemma_variant_values_len(vs.take(i + 1));
                lemma_values_prefix(vs, i as int);
            }
            let value = match self.0[i].value {
                Some(v) => v,
                None => current + 1,
            };
            values.push(value);
            current = value;
            i = i + 1;
        }
        values
    }
}

/// The values of a prefix of the variants are a prefix of their values.
pub proof fn lemma_values_prefix(vs: Seq<Variant>, i: int)
    requires
        0 <= i < vs.len(),
    ensures
        variant_values(vs)[i] == match vs[i].value {
            Some(v) => v as int,
            None => (if i == 0 {
                0
            } else {
                variant_values(vs)[i - 1]
            }) + 1,
        },
    decreases vs.len(),
{
    lemma_variant_values_len(vs);
    lemma_variant_values_len(vs.drop_last());
    if i < vs.len() - 1 {
        lemma_values_prefix(vs.drop_last(), i);
        assert(vs.drop_last()[i] == vs[i]);
    }
}

/// What goes wrong when deriving the type of an enumeration.
#[derive(Debug, Clone, Copy, PartialEq, Eq, Structural)]
pub enum DeriveError {
    /// Some variants have fields and some do not, and no index type is given.
    MixedVariants,
    /// All variants are without fields, and no fixed representation is given.
    NoRepr,
    /// A proxy is asked for without a type.
    NoProxyType,
}

/// The type of a derived enumeration. When every variant has fields, the
/// enumeration is a variant (`v`); when none has, it is written as its
/// fixed representation `repr`; otherwise it is a structure of the index
/// type and a variant.
pub fn derive_enum(variants: &Variants, repr: Option<TypeInfo>, index: Option<TypeInfo>) -> (r: Result<
    TypeInfo,
    DeriveError,
>)
    ensures
        ({
            let vs = variants.spec_variants();
            let complete = forall|i: int| 0 <= i < vs.len() ==> (#[trigger] vs[i]).fields !is Unit;
            let unit = forall|i: int| 0 <= i < vs.len() ==> (#[trigger] vs[i]).fields is Unit;
            if complete {
                r matches Ok(t) && t.code == 118 && t.signature@ == seq!['v'] && t.alignment == 1
            } else if unit {
                match repr {
                    Some(t) => r == Ok::<TypeInfo, DeriveError>(t),
                    None => r == Err::<TypeInfo, DeriveError>(DeriveError::NoRepr),
                }
            } else {
                match index {
                    Some(t) => r matches Ok(u) && u.code == 114 && u.alignment == 8
                        && u.signature@ == seq!['('] + t.signature@ + seq!['v', ')'],
                    None => r == Err::<TypeInfo, DeriveError>(DeriveError::MixedVariants),
                }
            }
        }),
{
    if variants.is_complete() {
        proof {
            reveal_strlit("v");
        }
        Ok(TypeInfo { code: 118, signature: "v".to_owned(), alignment: 1 })
    } else if variants.is_unit() {
        match repr {
            Some(t) => Ok(t),
            None => Err(DeriveError::NoRepr),
        }
    } else {
        match index {
            Some(t) => {
                proof {
                    reveal_strlit("(");
                    reveal_strlit("v)");
                }
                let mut s = "(".to_owned();
                push_str(&mut s, t.signature.as_str());
                push_str(&mut s, "v)");
                Ok(TypeInfo { code: 114, signature: s, alignment: 8 })
            },
            None => Err(DeriveError::MixedVariants),
        }
    }
}

/// The type of a value written as another type: the other type's.
pub fn derive_proxy(proxy: Option<TypeInfo>) -> (r: Result<TypeInfo, DeriveError>)
    ensures
        match proxy {
            Some(t) => r == Ok::<TypeInfo, DeriveError>(t),
            None => r == Err::<TypeInfo, DeriveError>(DeriveError::NoProxyType),
        },
{
    match proxy {
        Some(t) => Ok(t),
        None => Err(DeriveError::NoProxyType),
    }
}


/// How a type definition's `align` attribute sets its alignment.
#[derive(Debug, Clone, Copy, PartialEq, Eq, Structural)]
pub enum Align {
    /// `align = n`.
    Int(u8),
    /// `align = "size"`: the size of the type, given here.
    Size(u8),
    /// No `align` attribute, or one of another form.
    Default,
}

/// The type that a type definition gives: its code is the code character
/// (the NUL character when none is given), its signature is the one given or
/// else the code character, and its alignment is as `align` sets it, 1 by
/// default.
pub fn type_def(code: Option<char>, signature: Option<String>, align: Align) -> (t: TypeInfo)
    ensures
        t.code == match code {
            Some(c) => (c as u32) as u8,
            None => 0u8,
        },
        t.signature@ == match signature {
            Some(s) => s@,
            None => seq![
                match code {
                    Some(c) => c,
                    None => '\0',
                },
            ],
        },
        t.alignment == match align {
            Align::Int(n) => n,
            Align::Size(n) => n,
            Align::Default => 1u8,
        },
{
    let c = match code {
        Some(c) => c,
        None => '\0',
    };
    let signature = match signature {
        Some(s) => s,
        None => {
            let mut s = String::new();
            push_char(&mut s, c);
            assert(s@ =~= seq![c]);
            s
        },
    };
    let alignment = match align {
        Align::Int(n) => n,
        Align::Size(n) => n,
        Align::Default => 1,
    };
    TypeInfo { code: (c as u32) as u8, signature, alignment }
}

/// Splits pairs into the list of their first and the list of their second
/// halves.
pub fn split_tuples<A, B>(tuples: &[(A, B)]) -> (r: (Vec<&A>, Vec<&B>))
    ensures
        r.0@.len() == tuples@.len(),
        r.1@.len() == tuples@.len(),
        forall|i: int| 0 <= i < tuples@.len() ==> *r.0@[i] == (#[trigger] tuples@[i]).0 && *r.1@[i]
            == tuples@[i].1,
{
    let mut first: Vec<&A> = Vec::with_capacity(tuples.len());
    let mut second: Vec<&B> = Vec::with_capacity(tuples.len());
    let mut i: usize = 0;
    while i < tuples.len()
        invariant
            i <= tuples@.len(),
            first@.len() == i,
            second@.len() == i,
            forall|j: int| 0 <= j < i ==> *first@[j] == (#[trigger] tuples@[j]).0 && *second@[j]
                == tuples@[j].1,
        decreases tuples@.len() - i,
    {
        let pair = &tuples[i];
        first.push(&pair.0);
        second.push(&pair.1);
        i = i + 1;
    }
    (first, second)
}

/// The options of a generator of `DBusType` implementations.
#[derive(Debug, Clone)]
pub struct ImplGeneratorOptions {
    /// The path of the crate that defines `DBusType`, where none is given.
    pub default_rbus_module: String,
}

impl ImplGeneratorOptions {
    pub fn default() -> (o: ImplGeneratorOptions)
        ensures
            o.default_rbus_module@ == "rbus"@,
    {
        ImplGeneratorOptions { default_rbus_module: "rbus".to_owned() }
    }
}

/// The names of the methods of `DBusType`, in the order an implementation
/// lists them.
pub open spec fn method_names() -> Seq<Seq<char>> {
    seq!["code"@, "signature"@, "alignment"@, "encode"@, "decode"@]
}

/// The first name of `names` that `present` lacks, if any.
pub open spec fn first_missing(names: Seq<Seq<char>>, present: Set<Seq<char>>) -> Option<Seq<char>>
    decreases names.len(),
{
    if names.len() == 0 {
        None
    } else if !present.contains(names[0]) {
        Some(names[0])
    } else {
        first_missing(names.drop_first(), present)
    }
}

/// Whether `s` is the text `lit`.
fn str_eq(s: &str, lit: &str) -> (b: bool)
    ensures
        b == (s@ == lit@),
{
    s.to_owned() == lit.to_owned()
}

/// Gathers the methods of a `DBusType` implementation and checks that none
/// is missing.
pub struct ImplGenerator {
    packed: bool,
    basic: bool,
    module: Option<String>,
    methods: Vec<String>,
    options: ImplGeneratorOptions,
}

impl ImplGenerator {
    /// The names of the methods added so far.
    pub closed spec fn spec_methods(&self) -> Set<Seq<char>> {
        Set::new(|n: Seq<char>| exists|i: int| 0 <= i < self.methods@.len() && #[trigger] self.methods@[i]@ == n)
    }

    pub closed spec fn spec_default_module(&self) -> Seq<char> {
        self.options.default_rbus_module@
    }

    /// Sets the module named where the type names none.
    pub fn set_default_rbus_module(&mut self, module: String)
        ensures
            final(self).spec_default_module() == module@,
            final(self).spec_methods() == old(self).spec_methods(),
            final(self).spec_packed() == old(self).spec_packed(),
            final(self).spec_basic() == old(self).spec_basic(),
            final(self).spec_module() == old(self).spec_module(),
    {
        self.options.default_rbus_module = module;
    }

    pub closed spec fn spec_packed(&self) -> bool {
        self.packed
    }

    pub closed spec fn spec_basic(&self) -> bool {
        self.basic
    }

    pub closed spec fn spec_module(&self) -> Option<String> {
        self.module
    }

    /// A generator for a type that is packed or not, basic or not, and whose
    /// `dbus(module = ..)` attribute names `module`, if it has one.
    pub fn new(packed: bool, basic: bool, module: Option<String>) -> (g: ImplGenerator)
        ensures
            g.spec_packed() == packed,
            g.spec_basic() == basic,
            g.spec_module() == module,
            g.spec_methods() == Set::<Seq<char>>::empty(),
            g.spec_default_module() == "rbus"@,
    {
        let g = ImplGenerator {
            packed,
            basic,
            module,
            methods: Vec::new(),
            options: ImplGeneratorOptions::default(),
        };
        assert(g.spec_methods() =~= Set::<Seq<char>>::empty());
        g
    }

    pub fn is_packed(&self) -> (b: bool)
        ensures
            b == self.spec_packed(),
    {
        self.packed
    }

    pub fn is_basic(&self) -> (b: bool)
        ensures
            b == self.spec_basic(),
    {
        self.basic
    }

    /// The path of the crate that defines `DBusType`: the one the type names,
    /// else the default of the options.
    pub fn rbus_module(&self) -> (m: String)
        ensures
            m@ == match self.spec_module() {
                Some(n) => n@,
                None => self.spec_default_module(),
            },
    {
        match &self.module {
            Some(n) => n.clone(),
            None => self.options.default_rbus_module.clone(),
        }
    }

    /// Adds a method; names that are not methods of `DBusType` are ignored.
    pub fn add_method(&mut self, name: &str)
        ensures
            final(self).spec_methods() == if method_names().contains(name@) {
                old(self).spec_methods().insert(name@)
            } else {
                old(self).spec_methods()
            },
            final(self).spec_packed() == old(self).spec_packed(),
            final(self).spec_basic() == old(self).spec_basic(),
            final(self).spec_module() == old(self).spec_module(),
            final(self).spec_default_module() == old(self).spec_default_module(),
    {
        proof {
            reveal_strlit("code");
            reveal_strlit("signature");
            reveal_strlit("alignment");
            reveal_strlit("encode");
            reveal_strlit("decode");
        }
        let accepted = str_eq(name, "code") || str_eq(name, "signature") || str_eq(name, "alignment")
            || str_eq(name, "encode") || str_eq(name, "decode");
        proof {
            if method_names().contains(name@) {
                let k = choose|k: int| 0 <= k < 5 && method_names()[k] == name@;
                assert(k == 0 || k == 1 || k == 2 || k == 3 || k == 4);
            }
            if accepted {
                assert(method_names()[0] == "code"@);
                assert(method_names()[1] == "signature"@);
                assert(method_names()[2] == "alignment"@);
                assert(method_names()[3] == "encode"@);
                assert(method_names()[4] == "decode"@);
            }
        }
        if !accepted {
            return;
        }
        let ghost old_methods = self.spec_methods();
        self.methods.push(name.to_owned());
        proof {
            assert forall|n: Seq<char>| #[trigger] self.spec_methods().contains(n) == old_methods.insert(name@).contains(n) by {
                if old_methods.contains(n) {
                    let i = choose|i: int| 0 <= i < old(self).methods@.len() && #[trigger] old(self).methods@[i]@ == n;
                    assert(self.methods@[i] == old(self).methods@[i]);
                }
                if self.spec_methods().contains(n) {
                    let i = choose|i: int| 0 <= i < self.methods@.len() && #[trigger] self.methods@[i]@ == n;
                    if i < old(self).methods@.len() {
                        assert(self.methods@[i] == old(self).methods@[i]);
                    }
                }
                if n == name@ {
                    assert(self.methods@[self.methods@.len() - 1]@ == n);
                }
            }
            assert(self.spec_methods() =~= old_methods.insert(name@));
        }
    }

    /// Whether a method of that name was added.
    fn has_method(&self, name: &str) -> (b: bool)
        ensures
            b == self.spec_methods().contains(name@),
    {
        let mut i: usize = 0;
        while i < self.methods.len()
            invariant
                i <= self.methods@.len(),
                forall|j: int| 0 <= j < i ==> (#[trigger] self.methods@[j])@ != name@,
            decreases self.methods@.len() - i,
        {
            if self.methods[i] == name.to_owned() {
                return true;
            }
            i = i + 1;
        }
        proof {
            if self.spec_methods().contains(name@) {
                let k = choose|k: int| 0 <= k < self.methods@.len() && #[trigger] self.methods@[k]@ == name@;
                assert(self.methods@[k]@ != name@);
            }
        }
        false
    }

    /// Checks that every method of `DBusType` was added, and tells whether a
    /// `DBusBasicType` implementation goes with the `DBusType` one: for basic
    /// types that are not packed. The error names the first method missing.
    pub fn gen_impl(&self) -> (r: Result<bool, String>)
        ensures
            match first_missing(method_names(), self.spec_methods()) {
                None => r == Ok::<bool, String>(self.spec_basic() && !self.spec_packed()),
                Some(n) => r matches Err(m) && m@ == "Missing method: "@ + n,
            },
    {
        proof {
            reveal_strlit("code");
            reveal_strlit("signature");
            reveal_strlit("alignment");
            reveal_strlit("encode");
            reveal_strlit("decode");
            let names = method_names();
            assert(names.drop_first() =~= seq!["signature"@, "alignment"@, "encode"@, "decode"@]);
            assert(names.drop_first().drop_first() =~= seq!["alignment"@, "encode"@, "decode"@]);
            assert(names.drop_first().drop_first().drop_first() =~= seq!["encode"@, "decode"@]);
            assert(names.drop_first().drop_first().drop_first().drop_first() =~= seq!["decode"@]);
            assert(names.drop_first().drop_first().drop_first().drop_first().drop_first()
                =~= Seq::<Seq<char>>::empty());
        }
        assert(method_names().skip(0) =~= method_names());
        let names: [&str; 5] = ["code", "signature", "alignment", "encode", "decode"];
        let mut i: usize = 0;
        while i < 5
            invariant
                i <= 5,
                names@.len() == 5,
                forall|j: int| 0 <= j < 5 ==> (#[trigger] names@[j])@ == method_names()[j],
                first_missing(method_names(), self.spec_methods()) == first_missing(
                    method_names().skip(i as int),
                    self.spec_methods(),
                ),
            decreases 5 - i,
        {
            let name = names[i];
            assert(method_names().skip(i as int)[0] == name@);
            assert(method_names().skip(i as int).drop_first() =~= method_names().skip(i + 1));
            if !self.has_method(name) {
                proof {
                    reveal_strlit("Missing method: ");
                }
                let mut m = "Missing method: ".to_owned();
                push_str(&mut m, name);
                return Err(m);
            }
            i = i + 1;
        }
        assert(method_names().skip(5) =~= Seq::<Seq<char>>::empty());
        Ok(self.basic && !self.packed)
    }
}

} // verus!
