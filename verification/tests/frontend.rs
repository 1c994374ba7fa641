use neoclr::assembler::parse_type;
use neoclr::document::{Record, Source};
use neoclr::frontend::{from_metadata_exec, Ty, Union};
use neoclr::parser::Field;
use neoclr::lexer::Token;

fn token(text: &str) -> Token {
    Token { text: text.to_string(), line: 1, column: 1 }
}

fn declared(name: &str, fields: Vec<(&str, Ty)>) -> Record {
    Record {
        name: token(name),
        is_class: false,
        field_initializers: vec![],
        is_abstract: false,
        base: None,
        inherited_fields: 0,
        fields: fields
            .into_iter()
            .map(|(n, ty)| Field { name: token(n), ty, output: false, readonly: false })
            .collect(),
        implements: vec![],
        methods: vec![],
    }
}

fn source_of(records: Vec<Record>) -> Source {
    Source { delegates: vec![], interfaces: vec![], records, functions: vec![], console_import: false }
}

fn record(name: &str) -> Ty {
    Ty::Record(name.to_string())
}

#[test]
fn source_types_spell_as_il() {
    assert_eq!(Ty::Int.il(), "Int32");
    assert_eq!(Ty::Array(Box::new(Ty::Ref(Box::new(Ty::Bool)))).il(), "Boolean&[]");
    let readonly = Ty::ReadOnlyRef(Box::new(Ty::Int));
    assert_eq!(readonly.il(), "readonly Int32&");
    assert_eq!(Ty::Ref(Box::new(Ty::ReadOnlyRef(Box::new(Ty::Int)))).il(), "(readonly Int32&)&");
    assert_eq!(
        Ty::ReadOnlyRef(Box::new(Ty::ReadOnlyRef(Box::new(Ty::Int)))).il(),
        "readonly (readonly Int32&)&"
    );
    assert_eq!(Ty::ReadOnlyRef(Box::new(Ty::String)).parameter_il(), "String&");
    assert_eq!(Ty::Void.parameter_il(), "Void");
    assert_eq!(Ty::Ref(Box::new(Ty::Int)).restricted(), readonly);
    assert_eq!(Ty::Int.restricted(), Ty::Int);
}

#[test]
fn metadata_types_become_source_types() {
    let list = neoclr::types::Type::Constructed {
        definition: "List".into(),
        arguments: vec![
            neoclr::types::Type::Int32,
            neoclr::types::Type::Array(Box::new(neoclr::types::Type::String)),
        ],
    };
    assert_eq!(from_metadata_exec(&list).unwrap(), record("List<Int32,String[]>"));
    assert_eq!(from_metadata_exec(&parse_type("Point").unwrap()).unwrap(), record("Point"));
    assert_eq!(
        from_metadata_exec(&parse_type("Int32&").unwrap()).unwrap(),
        Ty::Ref(Box::new(Ty::Int))
    );
    assert_eq!(from_metadata_exec(&parse_type("Byte").unwrap()).unwrap_err().message, "unsupported source type");
    assert_eq!(
        from_metadata_exec(&parse_type("List<Byte>").unwrap()).unwrap_err().message,
        "unsupported source type"
    );
}

fn members(owner: &str, ty: &str, name: &str) -> String {
    format!(
        ".method instance .ctor({ty} value) -> Void\nldarg value\nvalue.pack {ty}\nnewobj {owner}\nstarg this\nldvoid\nret\n.end\n\
         .method instance get_Is{name}Case() -> Boolean\nldarg this\nldfld {owner}::Stored\nvalue.is {ty}\nret\n.end\n\
         .property instance Is{name}() -> Boolean\n.get instance {owner}::get_Is{name}Case()\n.end\n\
         .method instance Get{name}Case() -> {ty}\nldarg this\nldfld {owner}::Stored\nvalue.unpack {ty}\nret\n.end\n"
    )
}

const HEADER: &str = "\n.custom instance System.Runtime.CompilerServices.UnionAttribute::.ctor()\n.field private Stored System.Value\n";

#[test]
fn inline_unions_declare_their_cases() {
    let union = Union {
        name: token("Shape"),
        generic_parameters: vec![],
        variants: vec![record("Shape.Circle"), record("Shape.Square")],
        inline: true,
    };
    let records = vec![
        declared("Shape.Circle", vec![("radius", Ty::Int)]),
        declared("Shape.Square", vec![]),
    ];
    let expected = format!(
        ".type Shape{HEADER}.type Circle\n.field radius Int32\n.end\n.type Square\n.end\n{}{}.end\n",
        members("Shape", "Shape.Circle", "Circle"),
        members("Shape", "Shape.Square", "Square")
    );
    assert_eq!(union.emit(&source_of(records)), expected);
}

#[test]
fn generic_unions_name_their_parameters() {
    let union = Union {
        name: token("Either"),
        generic_parameters: vec!["T".into(), "U".into()],
        variants: vec![record("Left<T>"), record("Right<U>")],
        inline: false,
    };
    assert_eq!(union.owner(), "Either<T,U>");
    let expected = format!(
        ".type Either<T,U>{HEADER}{}{}.end\n",
        members("Either<T,U>", "Left<T>", "Left"),
        members("Either<T,U>", "Right<U>", "Right")
    );
    assert_eq!(union.emit(&source_of(vec![])), expected);
}
