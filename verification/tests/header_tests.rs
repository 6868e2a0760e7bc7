use plugin_host::dtype::DType;
use plugin_host::error::ParseError;
use plugin_host::header::{parse_header, render_header, Meta};

fn meta(name: &str, args: &[DType], ret: DType) -> Meta {
    Meta { name: name.to_string(), arg_types: args.to_vec(), return_type: ret }
}

#[test]
fn round_trip_every_small_signature() {
    let types = [DType::Str, DType::U64];
    let mut cases: Vec<Vec<DType>> = vec![vec![]];
    for t1 in types {
        cases.push(vec![t1]);
        for t2 in types {
            cases.push(vec![t1, t2]);
        }
    }
    for args in cases {
        for ret in types {
            let m = meta("my_plugin7", &args, ret);
            let line = render_header(&m);
            let back = parse_header(&line).expect("canonical header form must parse");
            assert_eq!(back, m);
        }
    }
}

#[test]
fn renders_the_expected_header_text() {
    let m = meta("f", &[DType::U64, DType::Str], DType::U64);
    assert_eq!(render_header(&m), "#[plugin] f : U64, Str -> U64");
    let m0 = meta("hello", &[], DType::Str);
    assert_eq!(render_header(&m0), "#[plugin] hello : Str");
    let m1 = meta("inc", &[DType::U64], DType::U64);
    assert_eq!(render_header(&m1), "#[plugin] inc : U64 -> U64");
}

#[test]
fn parses_each_arity() {
    let m0 = parse_header("#[plugin] zero : U64").unwrap();
    assert_eq!(m0, meta("zero", &[], DType::U64));
    let m1 = parse_header("#[plugin] one : Str -> Str").unwrap();
    assert_eq!(m1, meta("one", &[DType::Str], DType::Str));
    let m2 = parse_header("#[plugin] two : U64, Str -> U64").unwrap();
    assert_eq!(m2, meta("two", &[DType::U64, DType::Str], DType::U64));
}

#[test]
fn unknown_type_is_rejected_and_named() {
    match parse_header("#[plugin] f : Bogus -> U64") {
        Err(ParseError::UnknownType(tok)) => assert_eq!(tok, "Bogus"),
        other => panic!("expected an unknown-type error, got {:?}", other),
    }
}

#[test]
fn unknown_return_type_is_rejected_and_named() {
    match parse_header("#[plugin] f : U64 -> Float") {
        Err(ParseError::UnknownType(tok)) => assert_eq!(tok, "Float"),
        other => panic!("expected an unknown-type error, got {:?}", other),
    }
}

#[test]
fn three_argument_header_parses() {
    let m = parse_header("#[plugin] wide : U64, U64, Str -> U64").unwrap();
    assert_eq!(m, meta("wide", &[DType::U64, DType::U64, DType::Str], DType::U64));
}

#[test]
fn malformed_headers_are_rejected() {
    let bad = [
        "",
        "f : U64",
        "#[plugin]f : U64",
        "#[plugin] : U64",
        "#[plugin] f U64",
        "#[plugin] f : ",
        "#[plugin] f : U64 ",
        " #[plugin] f : U64",
        "#[plugin] f : U64, Str",
        "#[plugin] f : U64 -> Str -> U64",
        "#[plugin] f : U64,Str -> U64",
        "#[plugin] f : U64, Str,  -> U64",
        "#[plugin] f : U64 -> U64 trailing",
        "#[plugin] f : U64 - > U64",
    ];
    for line in bad {
        match parse_header(line) {
            Err(ParseError::Malformed) => {}
            other => panic!("{:?} should be malformed, got {:?}", line, other),
        }
    }
}

#[test]
fn scalar_type_names() {
    assert_eq!(DType::Str.as_str(), "Str");
    assert_eq!(DType::U64.as_str(), "U64");
}

#[test]
fn token_resolution_is_the_inverse_of_naming() {
    assert_eq!(DType::from_token("Str"), Ok(DType::Str));
    assert_eq!(DType::from_token("U64"), Ok(DType::U64));
    assert_eq!(DType::from_token("Bogus"), Err("Bogus".to_string()));
    assert_eq!(DType::from_token("str"), Err("str".to_string()));
    assert_eq!(DType::from_token(""), Err("".to_string()));
}
