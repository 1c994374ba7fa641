use neoclr::frontend::Ty;
use neoclr::lookup::ty_equal;
use neoclr::parser::Parser;

fn parsed(text: &str) -> neoclr::document::Source {
    Parser::new(text).unwrap().source().unwrap()
}

fn record(name: &str) -> Ty {
    Ty::Record(name.to_string())
}

const FAMILY: &str = "class A {\n var n: Int32 = 0\n func ping() -> unit { }\n static func make() -> unit { }\n}\nclass B : A {\n func pong() -> unit { }\n}\nclass C : B {\n}\n";

#[test]
fn a_base_chain_reaches_every_ancestor() {
    let s = parsed(FAMILY);
    assert!(s.base_reachable(&record("C"), &record("A")));
    assert!(s.base_reachable(&record("C"), &record("B")));
    assert!(s.base_reachable(&record("B"), &record("B")));
    assert!(!s.base_reachable(&record("A"), &record("C")));
    assert!(!s.base_reachable(&record("Z"), &record("A")));
    assert!(s.base_reachable(&Ty::Int, &Ty::Int));
}

#[test]
fn inherited_methods_are_found_on_the_declaring_record() {
    let s = parsed(FAMILY);
    let (owner, method) = s.record_method(&record("C"), "ping").unwrap();
    assert_eq!(owner, "A");
    assert_eq!(method.name.text, "ping");
    let (owner, _) = s.record_method(&record("C"), "pong").unwrap();
    assert_eq!(owner, "B");
    assert!(s.record_method(&record("C"), "make").is_none());
    assert!(s.record_method(&record("A"), "pong").is_none());
    assert!(s.record_method(&Ty::Int, "ping").is_none());
}

#[test]
fn source_types_compare_by_shape() {
    assert!(ty_equal(&Ty::Array(Box::new(record("A"))), &Ty::Array(Box::new(record("A")))));
    assert!(!ty_equal(&Ty::Ref(Box::new(record("A"))), &Ty::ReadOnlyRef(Box::new(record("A")))));
    assert!(!ty_equal(&record("A"), &record("B")));
}

const SHAPES: &str = "interface IShape { func Area() -> Int32 }\ninterface ISolid : IShape { func Volume() -> Int32 }\ninterface ILoop : ILoop, ISolid { }\nrecord Base(x: Int32)\nrecord Cube(y: Int32) : Base, ISolid\n";

#[test]
fn conformance_follows_interfaces_and_bases() {
    let s = parsed(SHAPES);
    assert!(s.interface_reachable(&record("Cube"), &record("IShape")));
    assert!(s.interface_reachable(&record("Cube"), &record("ISolid")));
    assert!(s.interface_reachable(&record("Cube"), &record("Base")));
    assert!(s.interface_reachable(&record("ISolid"), &record("IShape")));
    assert!(!s.interface_reachable(&record("IShape"), &record("ISolid")));
    assert!(!s.interface_reachable(&record("Base"), &record("IShape")));
}

#[test]
fn conformance_is_reflexive_and_survives_cycles() {
    let s = parsed(SHAPES);
    assert!(s.interface_reachable(&record("Base"), &record("Base")));
    assert!(s.interface_reachable(&Ty::Int, &Ty::Int));
    assert!(s.interface_reachable(&record("ILoop"), &record("IShape")));
    assert!(!s.interface_reachable(&record("ILoop"), &record("Cube")));
}
