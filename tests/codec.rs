use ton_tokens::decode::{make_token_value, make_tokens_object};
use ton_tokens::encode::{parse_token, parse_token_value, parse_tokens_object};
use ton_tokens::error::TokensJsonError;
use ton_tokens::kinds::{Param, ParamKind};
use ton_tokens::number::{BigInteger, BigNat, Number};
use ton_tokens::values::{GenericValue, Token, TokenValue};

fn text(s: &str) -> GenericValue {
    GenericValue::String(s.to_string())
}

fn num(v: i64) -> GenericValue {
    GenericValue::Number(Number::Finite { mantissa: v, exponent: 0 })
}

fn object(entries: Vec<(&str, GenericValue)>) -> GenericValue {
    GenericValue::Object(entries.into_iter().map(|(k, v)| (k.to_string(), v)).collect())
}

fn param(name: &str, kind: ParamKind) -> Param {
    Param { name: name.to_string(), kind }
}

fn big(v: u32) -> BigNat {
    if v == 0 {
        BigNat { limbs: vec![] }
    } else {
        BigNat { limbs: vec![v] }
    }
}

fn uint(size: usize, v: u32) -> TokenValue {
    TokenValue::Uint { size, number: big(v) }
}

fn encode_one(kind: ParamKind, value: GenericValue) -> Result<TokenValue, TokensJsonError> {
    parse_token_value(&kind, &value)
}

#[test]
fn scalar_tuple_encodes_and_decodes() {
    let schema = vec![param("a", ParamKind::Uint(32)), param("b", ParamKind::Bool)];
    let input = object(vec![("a", text("42")), ("b", GenericValue::Bool(true))]);
    let tokens = parse_tokens_object(&schema, &input).unwrap();
    assert_eq!(
        tokens,
        vec![
            Token { name: "a".to_string(), value: uint(32, 42) },
            Token { name: "b".to_string(), value: TokenValue::Bool(true) },
        ]
    );
    assert_eq!(make_tokens_object(&tokens), input);
}

#[test]
fn nested_array_encodes_and_decodes() {
    let schema = vec![param("xs", ParamKind::Array(Box::new(ParamKind::Uint(8))))];
    let input = object(vec![("xs", GenericValue::Array(vec![num(1), num(2), num(3)]))]);
    let tokens = parse_tokens_object(&schema, &input).unwrap();
    assert_eq!(
        tokens,
        vec![Token {
            name: "xs".to_string(),
            value: TokenValue::Array(vec![uint(8, 1), uint(8, 2), uint(8, 3)]),
        }]
    );
    let expected = object(vec![("xs", GenericValue::Array(vec![text("1"), text("2"), text("3")]))]);
    assert_eq!(make_tokens_object(&tokens), expected);
}

#[test]
fn map_with_equal_keys_keeps_last_value() {
    let kind = ParamKind::Mapping(Box::new(ParamKind::Uint(32)), Box::new(ParamKind::Bool));
    let pairs = GenericValue::Array(vec![
        GenericValue::Array(vec![num(1), GenericValue::Bool(true)]),
        GenericValue::Array(vec![num(1), GenericValue::Bool(false)]),
    ]);
    let token = encode_one(kind, pairs).unwrap();
    assert_eq!(token, TokenValue::Mapping(vec![("1".to_string(), TokenValue::Bool(false))]));
    assert_eq!(
        make_token_value(&token),
        GenericValue::Array(vec![GenericValue::Array(vec![text("1"), GenericValue::Bool(false)])])
    );
}

#[test]
fn map_keeps_order_in_which_keys_first_came() {
    let kind = ParamKind::Mapping(Box::new(ParamKind::Int(32)), Box::new(ParamKind::Uint(8)));
    let pairs = GenericValue::Array(vec![
        GenericValue::Array(vec![text("-5"), num(1)]),
        GenericValue::Array(vec![num(3), num(2)]),
        GenericValue::Array(vec![text("-0x5"), num(9)]),
        GenericValue::Array(vec![text("-5"), num(4)]),
    ]);
    let token = encode_one(kind, pairs);
    assert_eq!(token, Err(TokensJsonError::InvalidNumber("-0x5".to_string())));
    let kind = ParamKind::Mapping(Box::new(ParamKind::Int(32)), Box::new(ParamKind::Uint(8)));
    let pairs = GenericValue::Array(vec![
        GenericValue::Array(vec![text("-5"), num(1)]),
        GenericValue::Array(vec![num(3), num(2)]),
        GenericValue::Array(vec![text("-5"), num(4)]),
    ]);
    let token = encode_one(kind, pairs).unwrap();
    assert_eq!(
        token,
        TokenValue::Mapping(vec![("-5".to_string(), uint(8, 4)), ("3".to_string(), uint(8, 2))])
    );
}

#[test]
fn map_item_must_be_a_pair() {
    let kind = || ParamKind::Mapping(Box::new(ParamKind::Address), Box::new(ParamKind::Bool));
    let not_pair = GenericValue::Array(vec![GenericValue::Array(vec![text("0:00")])]);
    assert_eq!(encode_one(kind(), not_pair), Err(TokensJsonError::MapItemExpected));
    let not_array = GenericValue::Array(vec![text("0:00")]);
    assert_eq!(encode_one(kind(), not_array), Err(TokensJsonError::MapItemExpected));
    assert_eq!(encode_one(kind(), object(vec![])), Err(TokensJsonError::ArrayExpected));
}

#[test]
fn unsigned_refuses_negative_number() {
    let minus_one = Number::Finite { mantissa: -1, exponent: 0 };
    assert_eq!(
        encode_one(ParamKind::Uint(32), GenericValue::Number(minus_one)),
        Err(TokensJsonError::UnsignedValueExpected(minus_one))
    );
}

#[test]
fn unsigned_reads_hex_text() {
    assert_eq!(encode_one(ParamKind::Uint(32), text("0x2a")), Ok(uint(32, 42)));
    assert_eq!(encode_one(ParamKind::Uint(32), text("  0x2A ")), Ok(uint(32, 42)));
}

#[test]
fn integer_refuses_fraction() {
    let three_and_a_half = Number::Finite { mantissa: 7, exponent: -1 };
    assert_eq!(
        encode_one(ParamKind::Int(8), GenericValue::Number(three_and_a_half)),
        Err(TokensJsonError::IntegerValueExpected(three_and_a_half))
    );
}

#[test]
fn numbers_in_binary_form_are_read_exactly() {
    let six = Number::Finite { mantissa: 3, exponent: 1 };
    assert_eq!(encode_one(ParamKind::Uint(16), GenericValue::Number(six)), Ok(uint(16, 6)));
    let four = Number::Finite { mantissa: 16, exponent: -2 };
    assert_eq!(encode_one(ParamKind::Uint(16), GenericValue::Number(four)), Ok(uint(16, 4)));
    let too_big = Number::Finite { mantissa: 1, exponent: 64 };
    assert_eq!(
        encode_one(ParamKind::Uint(128), GenericValue::Number(too_big)),
        Err(TokensJsonError::IntegerValueExpected(too_big))
    );
    assert_eq!(
        encode_one(ParamKind::Int(64), GenericValue::Number(Number::NonFinite)),
        Err(TokensJsonError::IntegerValueExpected(Number::NonFinite))
    );
    let minus_seven = Number::Finite { mantissa: -7, exponent: 0 };
    assert_eq!(
        encode_one(ParamKind::Int(8), GenericValue::Number(minus_seven)),
        Ok(TokenValue::Int { size: 8, number: BigInteger { negative: true, magnitude: big(7) } })
    );
}

#[test]
fn big_text_numbers_keep_every_digit() {
    let token = encode_one(ParamKind::Uint(256), text("340282366920938463463374607431768211456"))
        .unwrap();
    assert_eq!(
        token,
        TokenValue::Uint { size: 256, number: BigNat { limbs: vec![0, 0, 0, 0, 1] } }
    );
    assert_eq!(make_token_value(&token), text("340282366920938463463374607431768211456"));
    let token = encode_one(ParamKind::Int(256), text("-0x10")).err();
    assert_eq!(token, Some(TokensJsonError::InvalidNumber("-0x10".to_string())));
    let token = encode_one(ParamKind::VarInt(16), text("-1_000")).unwrap();
    assert_eq!(make_token_value(&token), text("-1000"));
}

#[test]
fn number_errors() {
    assert_eq!(
        encode_one(ParamKind::Uint(8), text("12a")),
        Err(TokensJsonError::InvalidNumber("12a".to_string()))
    );
    assert_eq!(
        encode_one(ParamKind::Uint(8), GenericValue::Bool(true)),
        Err(TokensJsonError::NumberExpected)
    );
    assert_eq!(
        encode_one(ParamKind::Uint(8), text("-1")),
        Err(TokensJsonError::InvalidNumber("-1".to_string()))
    );
}

#[test]
fn fixed_array_takes_exact_length() {
    let kind = || ParamKind::FixedArray(Box::new(ParamKind::Uint(8)), 3);
    assert_eq!(
        encode_one(kind(), GenericValue::Array(vec![num(1), num(2)])),
        Err(TokensJsonError::InvalidArrayLength(2))
    );
    assert_eq!(
        encode_one(kind(), GenericValue::Array(vec![num(1), num(2), num(3), num(4)])),
        Err(TokensJsonError::InvalidArrayLength(4))
    );
    assert_eq!(
        encode_one(kind(), GenericValue::Array(vec![num(1), num(2), num(3)])),
        Ok(TokenValue::FixedArray(vec![uint(8, 1), uint(8, 2), uint(8, 3)]))
    );
    assert_eq!(encode_one(kind(), text("1")), Err(TokensJsonError::ArrayExpected));
}

#[test]
fn fixed_bytes_take_exact_length() {
    assert_eq!(
        encode_one(ParamKind::FixedBytes(4), text("AQID")),
        Err(TokensJsonError::InvalidBytesLength(3))
    );
    assert_eq!(
        encode_one(ParamKind::FixedBytes(3), text("AQID")),
        Ok(TokenValue::FixedBytes(vec![1, 2, 3]))
    );
}

#[test]
fn bytes_are_base64() {
    let token = encode_one(ParamKind::Bytes, text(" AQID ")).unwrap();
    assert_eq!(token, TokenValue::Bytes(vec![1, 2, 3]));
    assert_eq!(make_token_value(&token), text("AQID"));
    assert_eq!(encode_one(ParamKind::Bytes, text("")), Ok(TokenValue::Bytes(vec![])));
    assert_eq!(encode_one(ParamKind::Bytes, text("@@@")), Err(TokensJsonError::InvalidBytes));
    assert_eq!(encode_one(ParamKind::Bytes, num(1)), Err(TokensJsonError::StringExpected));
}

#[test]
fn cells_are_base64() {
    assert_eq!(encode_one(ParamKind::Cell, GenericValue::Null), Ok(TokenValue::Cell(vec![])));
    assert_eq!(encode_one(ParamKind::Cell, text("  ")), Ok(TokenValue::Cell(vec![])));
    let token = encode_one(ParamKind::Cell, text("te6c")).unwrap();
    assert_eq!(token, TokenValue::Cell(vec![0xb5, 0xee, 0x9c]));
    assert_eq!(make_token_value(&token), text("te6c"));
    assert_eq!(encode_one(ParamKind::Cell, text("!")), Err(TokensJsonError::InvalidCell));
    assert_eq!(encode_one(ParamKind::Cell, num(3)), Err(TokensJsonError::StringExpected));
}

#[test]
fn public_keys_are_hex_points() {
    let hex = "5866666666666666666666666666666666666666666666666666666666666666";
    let token = encode_one(ParamKind::PublicKey, text(&format!("0x{}", hex))).unwrap();
    let mut bytes = vec![0x66u8; 32];
    bytes[0] = 0x58;
    assert_eq!(token, TokenValue::PublicKey(Some(bytes)));
    assert_eq!(make_token_value(&token), text(hex));
    assert_eq!(encode_one(ParamKind::PublicKey, text("")), Ok(TokenValue::PublicKey(None)));
    assert_eq!(
        encode_one(ParamKind::PublicKey, GenericValue::Null),
        Ok(TokenValue::PublicKey(None))
    );
    assert_eq!(
        make_token_value(&TokenValue::PublicKey(None)),
        GenericValue::Null
    );
    assert_eq!(encode_one(ParamKind::PublicKey, text("abcd")), Err(TokensJsonError::InvalidPublicKey));
    assert_eq!(encode_one(ParamKind::PublicKey, text("xyz")), Err(TokensJsonError::InvalidPublicKey));
    assert_eq!(encode_one(ParamKind::PublicKey, num(5)), Err(TokensJsonError::StringExpected));
}

#[test]
fn token_time_and_expire() {
    let token = encode_one(ParamKind::Token, text("0x10")).unwrap();
    assert_eq!(token, TokenValue::Token(16));
    assert_eq!(make_token_value(&token), text("16"));
    assert_eq!(
        encode_one(ParamKind::Token, text("340282366920938463463374607431768211456")),
        Err(TokensJsonError::InvalidNumber("340282366920938463463374607431768211456".to_string()))
    );
    let token = encode_one(ParamKind::Time, num(1_700_000_000_000)).unwrap();
    assert_eq!(token, TokenValue::Time(1_700_000_000_000));
    assert_eq!(make_token_value(&token), text("1700000000000"));
    let token = encode_one(ParamKind::Expire, text("+100")).unwrap();
    assert_eq!(token, TokenValue::Expire(100));
    assert_eq!(make_token_value(&token), num(100));
    assert_eq!(
        encode_one(ParamKind::Expire, text("4294967296")),
        Err(TokensJsonError::InvalidNumber("4294967296".to_string()))
    );
    assert_eq!(
        encode_one(ParamKind::Expire, num(4294967296)),
        Err(TokensJsonError::IntegerValueExpected(Number::Finite {
            mantissa: 4294967296,
            exponent: 0
        }))
    );
}

#[test]
fn strings_bools_addresses_and_optionals() {
    assert_eq!(encode_one(ParamKind::String, text(" a b ")), Ok(TokenValue::String(" a b ".to_string())));
    assert_eq!(encode_one(ParamKind::String, num(1)), Err(TokensJsonError::StringExpected));
    assert_eq!(encode_one(ParamKind::Bool, text("true")), Err(TokensJsonError::BoolExpected));
    assert_eq!(
        encode_one(ParamKind::Address, text(" 0:ab ")),
        Ok(TokenValue::Address("0:ab".to_string()))
    );
    assert_eq!(encode_one(ParamKind::Address, GenericValue::Null), Err(TokensJsonError::StringExpected));
    let opt = || ParamKind::Optional(Box::new(ParamKind::Uint(8)));
    assert_eq!(encode_one(opt(), GenericValue::Null), Ok(TokenValue::Optional(None)));
    let token = encode_one(opt(), text("7")).unwrap();
    assert_eq!(token, TokenValue::Optional(Some(Box::new(uint(8, 7)))));
    assert_eq!(make_token_value(&token), text("7"));
    assert_eq!(make_token_value(&TokenValue::Optional(None)), GenericValue::Null);
}

#[test]
fn object_needs_exact_keys() {
    let schema = || vec![param("a", ParamKind::Uint(32)), param("b", ParamKind::Bool)];
    let fewer = object(vec![("a", text("1"))]);
    assert_eq!(parse_tokens_object(&schema(), &fewer), Err(TokensJsonError::ParameterCountMismatch));
    let more = object(vec![("a", text("1")), ("b", GenericValue::Bool(true)), ("c", num(1))]);
    assert_eq!(parse_tokens_object(&schema(), &more), Err(TokensJsonError::ParameterCountMismatch));
    let other = object(vec![("a", text("1")), ("c", GenericValue::Bool(true))]);
    assert_eq!(
        parse_tokens_object(&schema(), &other),
        Err(TokensJsonError::ParameterNotFound("b".to_string()))
    );
    assert_eq!(
        parse_tokens_object(&schema(), &GenericValue::Array(vec![])),
        Err(TokensJsonError::ObjectExpected)
    );
}

#[test]
fn first_error_wins() {
    let schema = vec![param("a", ParamKind::Bool), param("b", ParamKind::Uint(8))];
    let input = object(vec![("b", GenericValue::Null), ("a", num(1))]);
    assert_eq!(parse_tokens_object(&schema, &input), Err(TokensJsonError::BoolExpected));
}

#[test]
fn nested_tuple_round_trip() {
    let inner = vec![param("x", ParamKind::Int(16)), param("s", ParamKind::String)];
    let schema = vec![
        param("t", ParamKind::Tuple(inner)),
        param("when", ParamKind::Time),
        param("due", ParamKind::Expire),
        param("blob", ParamKind::Bytes),
        param("maybe", ParamKind::Optional(Box::new(ParamKind::Bool))),
    ];
    let input = object(vec![
        ("t", object(vec![("x", text("-12")), ("s", text("hi"))])),
        ("when", text("99")),
        ("due", num(5)),
        ("blob", text("AQID")),
        ("maybe", GenericValue::Null),
    ]);
    let tokens = parse_tokens_object(&schema, &input).unwrap();
    assert_eq!(make_tokens_object(&tokens), input);
}

#[test]
fn single_token_carries_name() {
    let p = param("flag", ParamKind::Bool);
    let token = parse_token(&p, &GenericValue::Bool(false)).unwrap();
    assert_eq!(token, Token { name: "flag".to_string(), value: TokenValue::Bool(false) });
}
