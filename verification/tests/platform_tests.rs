use plugin_host::dtype::DType;
use plugin_host::header::Meta;
use plugin_host::platform::{entry_symbol, gen_platform_code};
use plugin_host::source::{gen_app_source, split_first_line};

fn meta(name: &str, args: &[DType], ret: DType) -> Meta {
    Meta { name: name.to_string(), arg_types: args.to_vec(), return_type: ret }
}

#[test]
fn zero_argument_platform_module() {
    let m = meta("hello", &[], DType::Str);
    let expected = "\nplatform \"plugin\"\n    requires {} { hello : Str }\n    exposes []\n    packages {}\n    imports []\n    provides [entry]\n\nentry = hello";
    assert_eq!(gen_platform_code(&m), expected);
}

#[test]
fn two_argument_platform_module() {
    let m = meta("add", &[DType::U64, DType::U64], DType::U64);
    let expected = "\nplatform \"plugin\"\n    requires {} { add : U64, U64 -> U64 }\n    exposes []\n    packages {}\n    imports []\n    provides [entry]\n\nentry = \\a, b -> add a b";
    assert_eq!(gen_platform_code(&m), expected);
}

#[test]
fn one_argument_platform_module() {
    let m = meta("shout", &[DType::Str], DType::Str);
    let expected = "\nplatform \"plugin\"\n    requires {} { shout : Str -> Str }\n    exposes []\n    packages {}\n    imports []\n    provides [entry]\n\nentry = \\a -> shout a";
    assert_eq!(gen_platform_code(&m), expected);
}

#[test]
fn entry_symbol_is_fixed() {
    assert_eq!(entry_symbol(), "roc__entry_1_exposed_generic");
}

#[test]
fn generation_is_deterministic() {
    let m1 = meta("add", &[DType::U64, DType::U64], DType::U64);
    let m2 = meta("add", &[DType::U64, DType::U64], DType::U64);
    assert_eq!(gen_platform_code(&m1), gen_platform_code(&m2));
}

#[test]
fn application_module_references_platform_by_path() {
    let m = meta("add", &[DType::U64, DType::U64], DType::U64);
    let src = gen_app_source(&m, "/tmp/scratch/platform.roc", "add = \\a, b -> a + b\n");
    assert_eq!(
        src,
        "app [add] { pf: platform \"/tmp/scratch/platform.roc\" }\nadd = \\a, b -> a + b\n"
    );
}

#[test]
fn splits_header_from_body() {
    let (head, body) = split_first_line("#[plugin] f : U64\nf = 9\n").unwrap();
    assert_eq!(head, "#[plugin] f : U64");
    assert_eq!(body, "f = 9\n");

    let (head2, body2) = split_first_line("only a header\n").unwrap();
    assert_eq!(head2, "only a header");
    assert_eq!(body2, "");

    assert_eq!(split_first_line("no line break at all"), None);
}
