use ton_tokens::error::TokensJsonError;
use ton_tokens::kinds::{parse_param_type, Param, ParamKind};
use ton_tokens::number::Number;
use ton_tokens::schema::{parse_param, parse_params_list, set_components};
use ton_tokens::values::GenericValue;

fn text(s: &str) -> GenericValue {
    GenericValue::String(s.to_string())
}

fn object(entries: Vec<(&str, GenericValue)>) -> GenericValue {
    GenericValue::Object(entries.into_iter().map(|(k, v)| (k.to_string(), v)).collect())
}

#[test]
fn canonical_descriptors() {
    assert_eq!(parse_param_type("uint128"), Ok(ParamKind::Uint(128)));
    assert_eq!(parse_param_type("int8[]"), Ok(ParamKind::Array(Box::new(ParamKind::Int(8)))));
    assert_eq!(
        parse_param_type("uint64[5]"),
        Ok(ParamKind::FixedArray(Box::new(ParamKind::Uint(64)), 5))
    );
    assert_eq!(
        parse_param_type("map(address,cell)"),
        Ok(ParamKind::Mapping(Box::new(ParamKind::Address), Box::new(ParamKind::Cell)))
    );
    assert_eq!(
        parse_param_type("optional(bytes)"),
        Ok(ParamKind::Optional(Box::new(ParamKind::Bytes)))
    );
}

#[test]
fn keywords() {
    assert_eq!(parse_param_type("bool"), Ok(ParamKind::Bool));
    assert_eq!(parse_param_type("tuple"), Ok(ParamKind::Tuple(vec![])));
    assert_eq!(parse_param_type("cell"), Ok(ParamKind::Cell));
    assert_eq!(parse_param_type("address"), Ok(ParamKind::Address));
    assert_eq!(parse_param_type("token"), Ok(ParamKind::Token));
    assert_eq!(parse_param_type("gram"), Ok(ParamKind::Token));
    assert_eq!(parse_param_type("bytes"), Ok(ParamKind::Bytes));
    assert_eq!(parse_param_type("fixedbytes32"), Ok(ParamKind::FixedBytes(32)));
    assert_eq!(parse_param_type("time"), Ok(ParamKind::Time));
    assert_eq!(parse_param_type("expire"), Ok(ParamKind::Expire));
    assert_eq!(parse_param_type("pubkey"), Ok(ParamKind::PublicKey));
    assert_eq!(parse_param_type("string"), Ok(ParamKind::String));
}

#[test]
fn var_widths_collapse() {
    assert_eq!(parse_param_type("varuint16"), Ok(ParamKind::Uint(16)));
    assert_eq!(parse_param_type("varint32"), Ok(ParamKind::Int(32)));
}

#[test]
fn nested_suffixes_and_maps() {
    assert_eq!(
        parse_param_type("uint8[2][]"),
        Ok(ParamKind::Array(Box::new(ParamKind::FixedArray(Box::new(ParamKind::Uint(8)), 2))))
    );
    assert_eq!(
        parse_param_type("map(uint32,map(int8,bool[]))"),
        Ok(ParamKind::Mapping(
            Box::new(ParamKind::Uint(32)),
            Box::new(ParamKind::Mapping(
                Box::new(ParamKind::Int(8)),
                Box::new(ParamKind::Array(Box::new(ParamKind::Bool)))
            ))
        ))
    );
    assert_eq!(
        parse_param_type("optional(cell)[3]"),
        Ok(ParamKind::FixedArray(Box::new(ParamKind::Optional(Box::new(ParamKind::Cell))), 3))
    );
}

#[test]
fn unknown_descriptors_are_refused() {
    for s in [
        "", "]", "5]", "uint", "int-8", "floaty", "map(bool,cell)", "map(uint8)", "map()",
        "optional()", "uint8[x]", "bool ", "uint8[99999999999999999999999]",
    ] {
        assert_eq!(parse_param_type(s), Err(TokensJsonError::ParamTypeExpected), "{}", s);
    }
}

#[test]
fn descriptor_with_components() {
    let descriptor = object(vec![
        ("name", text("pair")),
        ("type", text("tuple[]")),
        (
            "components",
            GenericValue::Array(vec![
                object(vec![("name", text("a")), ("type", text("uint8"))]),
                object(vec![("name", text("b")), ("type", text("bool"))]),
            ]),
        ),
    ]);
    let p = parse_param(&descriptor).unwrap();
    assert_eq!(
        p,
        Param {
            name: "pair".to_string(),
            kind: ParamKind::Array(Box::new(ParamKind::Tuple(vec![
                Param { name: "a".to_string(), kind: ParamKind::Uint(8) },
                Param { name: "b".to_string(), kind: ParamKind::Bool },
            ]))),
        }
    );
}

#[test]
fn descriptor_errors() {
    assert_eq!(parse_param(&text("x")), Err(TokensJsonError::ObjectExpected));
    assert_eq!(
        parse_param(&object(vec![("type", text("bool"))])),
        Err(TokensJsonError::StringExpected)
    );
    assert_eq!(
        parse_param(&object(vec![("name", text("a"))])),
        Err(TokensJsonError::StringExpected)
    );
    assert_eq!(
        parse_param(&object(vec![("name", text("a")), ("type", text("nope"))])),
        Err(TokensJsonError::ParamTypeExpected)
    );
    assert_eq!(
        parse_param(&object(vec![
            ("name", text("a")),
            ("type", text("tuple")),
            ("components", GenericValue::Null)
        ])),
        Err(TokensJsonError::ObjectExpected)
    );
}

#[test]
fn params_list() {
    let list = GenericValue::Array(vec![
        object(vec![("name", text("a")), ("type", text("uint32"))]),
        object(vec![("name", text("b")), ("type", text("map(address,uint8)"))]),
    ]);
    assert_eq!(
        parse_params_list(&list),
        Ok(vec![
            Param { name: "a".to_string(), kind: ParamKind::Uint(32) },
            Param {
                name: "b".to_string(),
                kind: ParamKind::Mapping(Box::new(ParamKind::Address), Box::new(ParamKind::Uint(8))),
            },
        ])
    );
    assert_eq!(parse_params_list(&object(vec![])), Err(TokensJsonError::ObjectExpected));
    let bad = GenericValue::Array(vec![GenericValue::Number(Number::NonFinite)]);
    assert_eq!(parse_params_list(&bad), Err(TokensJsonError::ObjectExpected));
}

#[test]
fn components_attach_through_containers() {
    let comps = || vec![Param { name: "x".to_string(), kind: ParamKind::Bool }];
    assert_eq!(set_components(ParamKind::Uint(8), comps()), ParamKind::Uint(8));
    assert_eq!(
        set_components(ParamKind::Optional(Box::new(ParamKind::Tuple(vec![]))), comps()),
        ParamKind::Optional(Box::new(ParamKind::Tuple(comps())))
    );
}
