use neoclr::frontend::Ty;
use neoclr::parser::Parser;

fn parser(source: &str) -> Parser {
    Parser::new(source).unwrap()
}

fn record_type(name: &str) -> Ty {
    Ty::Record(name.to_string())
}

#[test]
fn a_function_declaration_with_parameters_and_body() {
    let f = parser("func add(a: Int32, b: Int32) -> Int32 { return a + b }")
        .function(false, false)
        .unwrap();
    assert_eq!(f.name.text, "add");
    assert_eq!(f.parameters.len(), 2);
    assert_eq!(f.parameters[1].name.text, "b");
    assert_eq!(f.parameters[1].ty, Ty::Int);
    assert_eq!(f.returns, Ty::Int);
    assert_eq!(f.body.len(), 1);
    assert!(!f.is_abstract && !f.is_static && f.explicit_interface.is_none());
}

#[test]
fn generic_parameters_are_listed_once_each() {
    let f = parser("func pick<T, U>(x: T, y: U) -> T { return x }")
        .function(false, false)
        .unwrap();
    assert_eq!(f.generic_parameters, vec!["T".to_string(), "U".to_string()]);
    let e = parser("func f<T, T>() -> unit { }").function(false, false).unwrap_err();
    assert_eq!(e.message, "source 1:11: duplicate generic parameter");
}

#[test]
fn dots_join_a_free_function_name() {
    let f = parser("func Geometry.Shapes.area() -> unit { }")
        .function(false, false)
        .unwrap();
    assert_eq!(f.name.text, "Geometry.Shapes.area");
    assert_eq!(f.returns, Ty::Void);
}

#[test]
fn a_member_may_name_the_interface_it_implements() {
    let f = parser("func IShape.Area() -> Int32 { return 0 }")
        .function(false, true)
        .unwrap();
    assert_eq!(f.name.text, "IShape.Area");
    assert_eq!(f.explicit_interface, Some("IShape".to_string()));
}

#[test]
fn an_abstract_member_may_leave_out_its_body() {
    let mut p = parser("func Area() -> Int32\nfunc Next() -> Int32 { return 1 }");
    let f = p.function(true, true).unwrap();
    assert!(f.is_abstract);
    assert!(f.body.is_empty());
    let g = p.function(true, true).unwrap();
    assert!(!g.is_abstract);
    assert_eq!(g.body.len(), 1);
}

#[test]
fn a_class_body_holds_fields_initializers_and_methods() {
    let m = parser("{\n var x: Int32 = 1\n var y: Int32\n init(a: Int32) : base(a) { }\n static func make() -> unit { }\n}")
        .methods(false, true)
        .unwrap();
    assert_eq!(m.fields.len(), 2);
    assert_eq!(m.initializers.len(), 1);
    assert_eq!(m.initializers[0].0.text, "x");
    assert_eq!(m.methods.len(), 2);
    assert_eq!(m.methods[0].name.text, ".ctor");
    assert_eq!(m.methods[0].base_initializer.as_ref().map(|a| a.len()), Some(1));
    assert!(m.methods[1].is_static);
}

#[test]
fn method_modifiers_are_checked() {
    let e = parser("{\n func f() -> unit { }\n func f() -> unit { }\n}").methods(false, false).unwrap_err();
    assert_eq!(e.message, "source 3:7: duplicate method; source overload declarations are not supported");
    let e = parser("{\n func g<T>() -> unit { }\n}").methods(false, false).unwrap_err();
    assert_eq!(e.message, "source 2:7: generic methods currently require static");
    let e = parser("{\n abstract func h() -> unit { }\n}").methods(false, false).unwrap_err();
    assert_eq!(e.message, "source 2:16: abstract methods cannot have bodies");
    let e = parser("{\n virtual func v() -> unit\n}").methods(true, false).unwrap_err();
    assert_eq!(e.message, "source 2:10: interface virtual modifiers are not supported");
    let e = parser("{\n static readonly func s() -> unit { }\n}").methods(false, false).unwrap_err();
    assert_eq!(e.message, "source 2:23: static methods cannot have instance or interface modifiers");
}

#[test]
fn interface_members_are_abstract_without_bodies() {
    let m = parser("{\n func Area() -> Int32\n}").methods(true, false).unwrap();
    assert_eq!(m.methods.len(), 1);
    assert!(m.methods[0].is_abstract && !m.methods[0].is_virtual);
}

#[test]
fn a_document_lists_its_declarations_and_records_inherit_fields() {
    let s = parser(
        "import System.Console.*\nrecord Point(x: Int32, y: Int32)\nrecord Point3(z: Int32) : Point\ninterface IShape { func Area() -> Int32 }\ndelegate Op(a: Int32) -> Int32\nfunc main() -> unit { }\n",
    )
    .source()
    .unwrap();
    assert!(s.console_import);
    assert_eq!(s.records.len(), 2);
    assert_eq!(s.interfaces.len(), 1);
    assert_eq!(s.delegates.len(), 1);
    assert_eq!(s.functions.len(), 1);
    let p3 = &s.records[1];
    assert_eq!(p3.base, Some(record_type("Point")));
    assert!(p3.implements.is_empty());
    let names: Vec<&str> = p3.fields.iter().map(|f| f.name.text.as_str()).collect();
    assert_eq!(names, vec!["x", "y", "z"]);
    assert_eq!(p3.inherited_fields, 2);
    assert_eq!(s.records[0].inherited_fields, 0);
}

#[test]
fn a_record_base_must_come_before_interfaces() {
    let e = parser("record A(x: Int32)\nrecord B(y: Int32) : IShape, A\n").source().unwrap_err();
    assert_eq!(e.message, "source 2:8: a single record base must precede interfaces");
}

#[test]
fn cyclic_inheritance_is_refused() {
    let e = parser("record A(x: Int32) : B\nrecord B(y: Int32) : A\n").source().unwrap_err();
    assert_eq!(e.message, "source 1:8: cyclic or excessively deep base inheritance");
}

#[test]
fn inherited_fields_cannot_be_hidden() {
    let e = parser("record A(x: Int32)\nrecord B(x: Int32) : A\n").source().unwrap_err();
    assert_eq!(e.message, "source 2:10: inherited fields cannot be hidden");
}

#[test]
fn classes_get_a_constructor_and_call_their_base() {
    let s = parser("class A {\n var n: Int32 = 0\n}\nclass B : A {\n}\n").source().unwrap();
    let a = &s.records[0];
    assert!(a.is_class);
    assert_eq!(a.methods.len(), 1);
    assert_eq!(a.methods[0].name.text, ".ctor");
    assert!(a.methods[0].base_initializer.is_none());
    let b = &s.records[1];
    assert_eq!(b.base, Some(record_type("A")));
    assert_eq!(b.methods[0].base_initializer.as_ref().map(|v| v.len()), Some(0));
    assert_eq!(b.fields.len(), 1);
}

#[test]
fn a_class_needs_an_initializer_for_every_field() {
    let e = parser("class C {\n var n: Int32\n}\n").source().unwrap_err();
    assert_eq!(
        e.message,
        "source 1:7: class requires an explicit init or an initializer for every field; use default(T) only for defaultable types"
    );
    let e = parser("class D\n").source().unwrap_err();
    assert_eq!(e.message, "source 1:7: class requires a body");
}

#[test]
fn only_declarations_stand_at_the_top_level() {
    let e = parser("let x = 1\n").source().unwrap_err();
    assert_eq!(
        e.message,
        "source 1:1: expected interface, class, record, func, or import System.Console.*"
    );
}

