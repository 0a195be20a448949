use rbus::derive::{
    type_def, Align, derive_enum, derive_proxy, derive_struct, split_tuples, DeriveError, FieldDef, Fields,
    ImplGenerator, ImplGeneratorOptions, TypeInfo, Variant, Variants,
};

fn field(name: Option<&str>, sig: &str, align: u8) -> FieldDef {
    FieldDef { name: name.map(|n| n.to_string()), signature: sig.to_string(), alignment: align }
}

fn info(code: u8, sig: &str, align: u8) -> TypeInfo {
    TypeInfo { code, signature: sig.to_string(), alignment: align }
}

#[test]
fn fields_signature_and_alignment() {
    let named = Fields::Named(vec![field(Some("a"), "y", 1)]);
    assert!(named.is_named());
    assert_eq!(named.len(), 1);
    assert_eq!(named.signature(), "(y)");
    assert_eq!(named.alignment(), 8);

    let one = Fields::Unnamed(vec![field(None, "u", 4)]);
    assert_eq!(one.signature(), "u");
    assert_eq!(one.alignment(), 4);

    let two = Fields::Unnamed(vec![field(None, "u", 4), field(None, "s", 4)]);
    assert_eq!(two.signature(), "(us)");
    assert_eq!(two.alignment(), 8);

    let unit = Fields::Unit;
    assert!(unit.is_unit());
    assert_eq!(unit.signature(), "");
    assert_eq!(unit.alignment(), 0);
    assert_eq!(Fields::Unnamed(vec![]).signature(), "");
}

#[test]
fn struct_types() {
    let sigs = vec!["y".to_string(), "as".to_string()];
    assert_eq!(derive_struct(&sigs, false), info(b'r', "(yas)", 8));
    assert_eq!(derive_struct(&sigs, true), info(0, "yas", 1));
}

fn variant(name: &str, fields: Fields, value: Option<u64>) -> Variant {
    Variant { name: name.to_string(), fields, value }
}

#[test]
fn variant_values_follow_discriminants() {
    let vs = Variants(vec![
        variant("A", Fields::Unit, None),
        variant("B", Fields::Unit, Some(66)),
        variant("C", Fields::Unit, None),
        variant("D", Fields::Unit, Some(3)),
    ]);
    assert!(vs.is_unit());
    assert!(!vs.is_complete());
    assert_eq!(vs.values(), vec![1, 66, 67, 3]);
}

#[test]
fn enum_types() {
    let complete = Variants(vec![variant("A", Fields::Unnamed(vec![field(None, "s", 4)]), None)]);
    assert_eq!(derive_enum(&complete, None, None), Ok(info(b'v', "v", 1)));

    let unit = Variants(vec![variant("A", Fields::Unit, None)]);
    assert_eq!(derive_enum(&unit, Some(info(b'y', "y", 1)), None), Ok(info(b'y', "y", 1)));
    assert_eq!(derive_enum(&unit, None, None), Err(DeriveError::NoRepr));

    let mixed = Variants(vec![
        variant("A", Fields::Unit, None),
        variant("B", Fields::Unnamed(vec![field(None, "u", 4)]), None),
    ]);
    assert_eq!(derive_enum(&mixed, None, Some(info(b'y', "y", 1))), Ok(info(b'r', "(yv)", 8)));
    assert_eq!(derive_enum(&mixed, None, None), Err(DeriveError::MixedVariants));
}

#[test]
fn proxy_types() {
    assert_eq!(derive_proxy(Some(info(b's', "s", 4))), Ok(info(b's', "s", 4)));
    assert_eq!(derive_proxy(None), Err(DeriveError::NoProxyType));
}

#[test]
fn split_pairs() {
    let pairs = vec![(1u8, "a"), (2, "b")];
    let (first, second) = split_tuples(&pairs);
    assert_eq!(first, vec![&1, &2]);
    assert_eq!(second, vec![&"a", &"b"]);
}

#[test]
fn generator_default_module() {
    assert_eq!(ImplGeneratorOptions::default().default_rbus_module, "rbus");
}

#[test]
fn generator_checks_methods() {
    let mut g = ImplGenerator::new(false, true, None);
    assert_eq!(g.rbus_module(), "rbus");
    g.add_method("code");
    g.add_method("signature");
    g.add_method("frobnicate");
    assert_eq!(g.gen_impl(), Err("Missing method: alignment".to_string()));
    g.add_method("alignment");
    g.add_method("encode");
    g.add_method("decode");
    assert_eq!(g.gen_impl(), Ok(true));
    let mut packed = ImplGenerator::new(true, true, Some("crate".to_string()));
    assert_eq!(packed.rbus_module(), "crate");
    for m in ["decode", "encode", "alignment", "signature", "code"] {
        packed.add_method(m);
    }
    assert_eq!(packed.gen_impl(), Ok(false));
    let mut g2 = ImplGenerator::new(false, false, None);
    g2.set_default_rbus_module("crate".to_string());
    assert_eq!(g2.rbus_module(), "crate");
}

#[test]
fn type_definitions() {
    assert_eq!(type_def(Some('y'), None, Align::Size(1)), info(b'y', "y", 1));
    assert_eq!(type_def(Some('b'), None, Align::Int(4)), info(b'b', "b", 4));
    assert_eq!(type_def(Some('a'), Some("au".to_string()), Align::Default), info(b'a', "au", 1));
    assert_eq!(type_def(None, None, Align::Default), info(0, "\0", 1));
}
