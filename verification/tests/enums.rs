use neoclr::enums::{members, EnumInfo, EnumMember};
use neoclr::types::Type;

#[test]
fn names_values_and_formatting_share_unsigned_metadata_order() {
    let info = EnumInfo {
        underlying: Type::Int32,
        flags: true,
        members: [("Negative", -1), ("Two", 2), ("One", 1), ("Alias", 1)]
            .into_iter()
            .map(|(name, value)| EnumMember {
                name: name.into(),
                value,
            })
            .collect(),
    };
    assert_eq!(
        members(&info)
            .iter()
            .map(|m| m.name.as_str())
            .collect::<Vec<_>>(),
        ["One", "Alias", "Two", "Negative"]
    );
    assert_eq!(neoclr::enums::format(&info, 1), "One");
    assert_eq!(neoclr::enums::format(&info, 3), "One, Two");
    assert_eq!(neoclr::enums::format(&info, -1), "Negative");
    assert_eq!(neoclr::enums::format(&info, 0), "0");
    assert_eq!(neoclr::enums::format(&info, 5), "5");
    assert_eq!(
        neoclr::enums::format(
            &EnumInfo {
                flags: false,
                ..info
            },
            3
        ),
        "3"
    );
}

#[test]
fn enums_lower_to_one_int32_record_type() {
    let info = EnumInfo {
        underlying: Type::Int32,
        flags: true,
        members: vec![
            EnumMember { name: "Read".into(), value: 1 },
            EnumMember { name: "Low".into(), value: -2 },
        ],
    };
    let name = "Access";
    let mut expected = format!(".type {name}\n.enum Int32 flags\n.field private Bits Int32\n");
    expected.push_str(".literal Read 1\n.literal Low -2\n");
    expected.push_str(&format!(".method static FromValue(Int32 value) -> {name}\nldarg value\nnewobj {name}\nret\n.end\n.method instance get_Value() -> Int32\nldarg this\nldfld 0\nret\n.end\n"));
    for (method, opcode) in [("Or", "or"), ("And", "and"), ("Xor", "xor")] {
        expected.push_str(&format!(".method instance {method}({name} other) -> {name}\nldarg this\nldfld 0\nldarg other\nldfld 0\n{opcode}\nnewobj {name}\nret\n.end\n"));
    }
    expected.push_str(&format!(".method instance Not() -> {name}\nldarg this\nldfld 0\nnot\nnewobj {name}\nret\n.end\n.method instance HasFlag({name} other) -> Boolean\nldarg this\nldfld 0\nldarg other\nldfld 0\nand\nldarg other\nldfld 0\nceq\nret\n.end\n.method instance Equals({name} other) -> Boolean\nldarg this\nldfld 0\nldarg other\nldfld 0\nceq\nret\n.end\n"));
    expected.push_str(&format!(".method static Read() -> {name}\nldc.i4 1\nnewobj {name}\nret\n.end\n"));
    expected.push_str(&format!(".method static Low() -> {name}\nldc.i4 -2\nnewobj {name}\nret\n.end\n"));
    expected.push_str(".end\n");
    assert_eq!(neoclr::enums::emit(name, &info), expected);
    let plain = EnumInfo { underlying: Type::Int32, flags: false, members: vec![] };
    assert!(neoclr::enums::emit("E", &plain).starts_with(".type E\n.enum Int32\n.field"));
}
