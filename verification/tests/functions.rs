use anita::function_manager::DefaultFunctionManager;
use anita::function_manager::FunctionManager;
use anita::jit::host_builder;
use anita::jit::types::F32;
use anita::jit::JITError;
use anita::jit::JIT;

fn bits(text: &String) -> u32 {
    text.parse::<f32>().expect("a literal is a decimal number").to_bits()
}

fn compiler() -> JIT<F32, DefaultFunctionManager> {
    JIT::new(host_builder().expect("host machine is not supported"))
}

/// Compiles `expression` with the default registry. The functions of the
/// registry themselves belong to the host and are not called here.
fn compiles(expression: &str, parameters: &[&str]) {
    compiler().compile(expression, parameters, bits).expect("Compilation failed");
}

/// The number of parameters that the default registry lists for `name`.
fn listed(name: &str) -> Option<usize> {
    DefaultFunctionManager::function_signatures()
        .into_iter()
        .find(|(listed, _)| listed == name)
        .map(|(_, arity)| arity)
}

fn test_function_2_params(expression: &str, name: &str) {
    compiles(expression, &["x", "y"]);
    assert_eq!(listed(name), Some(2));
    assert_eq!(compiler().arity_of(name), Some(2));
}

fn test_function(expression: &str, name: &str) {
    compiles(expression, &["x"]);
    assert_eq!(listed(name), Some(1));
    assert_eq!(compiler().arity_of(name), Some(1));
}

#[test]
fn min() {
    test_function_2_params("min(x, y)", "min");
}

#[test]
fn max() {
    test_function_2_params("max(x, y)", "max");
}

#[test]
fn floor() {
    test_function("floor(x)", "floor");
}

#[test]
fn round() {
    test_function("round(x)", "round");
}

#[test]
fn ceil() {
    test_function("ceil(x)", "ceil");
}

#[test]
fn if_function() {
    compiles("if(is_normal(x), x, 0.0)", &["x"]);
    assert_eq!(listed("if"), Some(3));
    assert_eq!(compiler().arity_of("if"), Some(3));
}

#[test]
fn is_nan() {
    test_function("is_nan(x)", "is_nan");
}

#[test]
fn is_finite() {
    test_function("is_finite(x)", "is_finite");
}

#[test]
fn is_infinite() {
    test_function("is_infinite(x)", "is_infinite");
}

#[test]
fn is_normal() {
    test_function("is_normal(x)", "is_normal");
}

#[test]
fn ln() {
    test_function("ln(x)", "ln");
}

#[test]
fn log2() {
    test_function("log2(x)", "log2");
}

#[test]
fn log10() {
    test_function("log10(x)", "log10");
}

#[test]
fn exp() {
    test_function("exp(x)", "exp");
}

#[test]
fn exp2() {
    test_function("exp2(x)", "exp2");
}

#[test]
fn pow() {
    test_function_2_params("pow(x, y)", "pow");
}

#[test]
fn hypot() {
    test_function_2_params("hypot(x, y)", "hypot");
}

#[test]
fn cos() {
    test_function("cos(x)", "cos");
}

#[test]
fn acos() {
    test_function("acos(x)", "acos");
}

#[test]
fn cosh() {
    test_function("cosh(x)", "cosh");
}

#[test]
fn acosh() {
    test_function("acosh(x)", "acosh");
}

#[test]
fn sin() {
    test_function("sin(x)", "sin");
}

#[test]
fn asin() {
    test_function("asin(x)", "asin");
}

#[test]
fn sinh() {
    test_function("sinh(x)", "sinh");
}

#[test]
fn asinh() {
    test_function("asinh(x)", "asinh");
}

#[test]
fn tan() {
    test_function("tan(x)", "tan");
}

#[test]
fn atan() {
    test_function("atan(x)", "atan");
}

#[test]
fn tanh() {
    test_function("tanh(x)", "tanh");
}

#[test]
fn atanh() {
    test_function("atanh(x)", "atanh");
}

#[test]
fn sqrt() {
    test_function("sqrt(x)", "sqrt");
}

#[test]
fn cbrt() {
    test_function("cbrt(x)", "cbrt");
}

#[test]
fn abs() {
    test_function("abs(x)", "abs");
}

#[test]
fn the_remaining_functions_of_the_default_registry() {
    test_function_2_params("mod(x, y)", "mod");
    test_function_2_params("atan2(x, y)", "atan2");
}

#[test]
fn a_call_with_too_few_arguments_is_refused_by_the_code_generator() {
    assert!(matches!(
        compiler().compile("min(x)", &["x"], bits),
        Err(JITError::ModuleError(_))
    ));
}

#[test]
fn the_default_registry_knows_no_other_name() {
    assert_eq!(DefaultFunctionManager::function_signatures().len(), 34);
    assert_eq!(compiler().arity_of("inbuilt_pow"), None);
    assert_eq!(compiler().arity_of("Min"), None);
    assert_eq!(compiler().arity_of(""), None);
    assert_eq!(listed("minimum"), None);
    let mut jit = compiler();
    match jit.compile("minimum(x)", &["x"], bits) {
        Err(JITError::TranslatorError(error)) => {
            assert_eq!(format!("{:?}", error), "FunctionNotFound(\"minimum\")")
        }
        other => panic!("the function is not found, but {:?}", other),
    }
}
