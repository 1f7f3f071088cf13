use yk_sections::debuginfo::VariableKind;
use yk_sections::lint_stability::{
    deprecated, stable, unstable, Enum, MethodTester, StableStruct, StableTupleStruct, Trait,
};

#[test]
fn stability_items_are_callable() {
    deprecated();
    unstable();
    stable();
    let m = MethodTester;
    m.method_stable();
    m.trait_stable();
    let s = StableStruct { i: -1 };
    let t = StableTupleStruct(2);
    assert_eq!(s.i + t.0, 1);
    assert!(matches!(Enum::StableVariant, Enum::StableVariant));
}

#[test]
fn variable_kinds() {
    assert_eq!(VariableKind::ArgumentVariable(2), VariableKind::ArgumentVariable(2));
    assert_ne!(VariableKind::ArgumentVariable(1), VariableKind::LocalVariable);
}

#[test]
fn bar_through_module_and_reexport() {
    let _ = yk_sections::a::c::Bar(yk_sections::a::b::Foo);
    let _ = yk_sections::a::Bar(yk_sections::a::b::Foo);
}
