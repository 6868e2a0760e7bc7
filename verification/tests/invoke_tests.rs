use plugin_host::dtype::DType;
use plugin_host::error::{check_compile_status, PluginError};
use plugin_host::header::{parse_header, Meta};
use plugin_host::invoke::{
    generate_value, plan_invocation, render_result_line, select_shape, u64_to_decimal, CallShape,
    Value,
};

fn meta(name: &str, args: &[DType], ret: DType) -> Meta {
    Meta { name: name.to_string(), arg_types: args.to_vec(), return_type: ret }
}

#[test]
fn two_arg_u64_return_is_a_direct_return_shape() {
    let m = parse_header("#[plugin] f : U64, Str -> U64").unwrap();
    let shape = select_shape(&m).unwrap();
    assert_eq!(shape, CallShape::Args2RetU64);
    assert_eq!(shape.arity(), 2);
    assert_eq!(shape.ret_type(), DType::U64);
    assert!(!shape.uses_out_param());
    assert_eq!(shape.native_param_count(), 2);
}

#[test]
fn zero_arg_str_return_is_an_out_parameter_shape() {
    let m = parse_header("#[plugin] f : Str").unwrap();
    let shape = select_shape(&m).unwrap();
    assert_eq!(shape, CallShape::Args0RetStr);
    assert_eq!(shape.arity(), 0);
    assert_eq!(shape.ret_type(), DType::Str);
    assert!(shape.uses_out_param());
    assert_eq!(shape.native_param_count(), 1);
}

#[test]
fn every_supported_shape_is_selected() {
    let t = [DType::Str, DType::U64];
    let expect = [
        (0, DType::Str, CallShape::Args0RetStr),
        (0, DType::U64, CallShape::Args0RetU64),
        (1, DType::Str, CallShape::Args1RetStr),
        (1, DType::U64, CallShape::Args1RetU64),
        (2, DType::Str, CallShape::Args2RetStr),
        (2, DType::U64, CallShape::Args2RetU64),
    ];
    for (arity, ret, shape) in expect {
        for combo in 0..(t.len().pow(arity as u32)) {
            let mut args = Vec::new();
            let mut c = combo;
            for _ in 0..arity {
                args.push(t[c % 2]);
                c /= 2;
            }
            let m = meta("f", &args, ret);
            assert_eq!(select_shape(&m).unwrap(), shape);
        }
    }
}

#[test]
fn three_arguments_report_unsupported_arity_not_a_crash() {
    let m = parse_header("#[plugin] wide : U64, U64, Str -> U64").unwrap();
    assert_eq!(m.arg_types.len(), 3);
    match select_shape(&m) {
        Err(PluginError::UnsupportedArity(k)) => assert_eq!(k, 3),
        other => panic!("expected an unsupported-arity error, got {:?}", other),
    }
    match plan_invocation(&m) {
        Err(PluginError::UnsupportedArity(k)) => assert_eq!(k, 3),
        other => panic!("expected an unsupported-arity error, got {:?}", other),
    }
}

#[test]
fn placeholder_values_mirror_the_declared_types() {
    assert_eq!(generate_value(DType::Str), Value::Str("foo".to_string()));
    assert_eq!(generate_value(DType::U64), Value::U64(42));
}

#[test]
fn a_plan_synthesizes_one_value_per_position() {
    let m = parse_header("#[plugin] f : U64, Str -> U64").unwrap();
    let plan = plan_invocation(&m).unwrap();
    assert_eq!(plan.shape, CallShape::Args2RetU64);
    assert_eq!(plan.args, vec![Value::U64(42), Value::Str("foo".to_string())]);
}

#[test]
fn decimal_rendering_is_exact() {
    assert_eq!(u64_to_decimal(0), "0");
    assert_eq!(u64_to_decimal(7), "7");
    assert_eq!(u64_to_decimal(42), "42");
    assert_eq!(u64_to_decimal(1000), "1000");
    assert_eq!(u64_to_decimal(u64::MAX), "18446744073709551615");
}

#[test]
fn result_lines_carry_the_fixed_marker() {
    assert_eq!(render_result_line(&Value::U64(42)), ">>> 42");
    assert_eq!(render_result_line(&Value::Str("hello".to_string())), ">>> hello");
}

#[test]
fn compile_success_is_exit_code_zero_alone() {
    assert_eq!(check_compile_status(Some(0)), Ok(()));
    match check_compile_status(Some(1)) {
        Err(PluginError::Compile { exit_code }) => assert_eq!(exit_code, Some(1)),
        other => panic!("expected a compile error, got {:?}", other),
    }
    match check_compile_status(Some(101)) {
        Err(PluginError::Compile { exit_code }) => assert_eq!(exit_code, Some(101)),
        other => panic!("expected a compile error, got {:?}", other),
    }
    match check_compile_status(None) {
        Err(PluginError::Compile { exit_code }) => assert_eq!(exit_code, None),
        other => panic!("expected a compile error, got {:?}", other),
    }
}
