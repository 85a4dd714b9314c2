use anita::function_manager::DefaultFunctionManager;
use anita::function_manager::FunctionManager;
use anita::function_manager::NoFunctions;
use anita::jit::frontend::grammar::Token;
use anita::jit::frontend::parser::expression;
use anita::jit::host_builder;
use anita::jit::table::Table;
use anita::jit::types::F32;
use anita::jit::JITError;
use anita::jit::JIT;
use cranelift::codegen::data_value::DataValue;
use cranelift::prelude::Ieee32;
use cranelift_interpreter::environment::FunctionStore;
use cranelift_interpreter::interpreter::Interpreter;
use cranelift_interpreter::interpreter::InterpreterState;
use cranelift_interpreter::step::ControlFlow;

fn bits(text: &String) -> u32 {
    text.parse::<f32>().expect("a literal is a decimal number").to_bits()
}

/// The value of the function that the compiler builds for `text`, as the
/// interpreter of the code generator computes it.
fn value_of(text: &str, parameters: &[&str], arguments: &[f32]) -> f32 {
    let ast = expression(text).expect("Compilation failed");
    let mut constants = Table::new();
    for literal in ast.literals() {
        if constants.get(&literal).is_none() {
            let value = bits(&literal);
            constants.insert(literal, value);
        }
    }
    let mut jit = compiler::<NoFunctions>();
    jit.translate(&ast, parameters, constants).expect("Compilation failed");
    let function = jit.context().func.clone();
    let mut store = FunctionStore::default();
    store.add("expression".to_string(), &function);
    let state = InterpreterState::default().with_function_store(store);
    let arguments: Vec<DataValue> =
        arguments.iter().map(|value| DataValue::F32(Ieee32::with_float(*value))).collect();
    let flow = Interpreter::new(state)
        .call_by_name("expression", &arguments)
        .expect("the function runs");
    match flow {
        ControlFlow::Return(values) => match values.as_slice() {
            [DataValue::F32(value)] => value.as_f32(),
            other => panic!("one 32-bit float is returned, not {:?}", other),
        },
        other => panic!("the function returns, not {:?}", other),
    }
}

fn compiler<F: FunctionManager>() -> JIT<F32, F> {
    JIT::new(host_builder().expect("host machine is not supported"))
}

#[test]
fn owned_input() {
    let input = "x".to_owned();
    let mut jit = compiler::<DefaultFunctionManager>();
    let id = jit.compile(&input, &["x"], bits).expect("Compilation failed");
    let mut module = jit.dissolve();
    module.finalize_definitions().expect("the function has no call to resolve");
    assert!(!module.get_finalized_function(id).is_null());
    assert_eq!(value_of(&input, &["x"], &[1.0]), 1_f32);
}

#[test]
fn empty_input() {
    let expr = "";
    let mut jit = compiler::<DefaultFunctionManager>();
    let result = jit.compile(expr, &["x"], bits);
    match result {
        Err(JITError::ParseError(error)) => {
            assert_eq!((error.line, error.column, error.offset), (1, 1, 0));
            assert!(error.expected.contains(Token::Identifier));
            assert!(!error.expected.contains(Token::End));
        }
        Ok(_) => panic!("Test failed by succeeding"),
        Err(e) => panic!("Expected JITError::ParseError but got: {:?}", e),
    }
}

#[test]
fn use_of_uninitialized_variables() {
    let mut jit = compiler::<DefaultFunctionManager>();
    let result = jit.compile("a + b + c + x", &["x"], bits);
    let expected_unitialized = ["a", "b", "c"];
    match result {
        Err(JITError::UseOfUninitializedVariables(vars)) => {
            vars.iter()
                .for_each(|var| assert!(expected_unitialized.contains(&var.as_ref())));
            expected_unitialized
                .iter()
                .for_each(|var| assert!(vars.contains(&(*var).to_owned())));
        }
        Ok(_) => panic!("Test failed by succeeding"),
        Err(e) => panic!("Expected JITError::UseOfUninitializedVariables but got: {:?}", e),
    }
}

#[test]
fn complex_function() {
    let expression = "tanh(a * x^3) + b * sin(c * x)";
    let mut jit = compiler::<DefaultFunctionManager>();
    jit.compile(expression, &["x", "a", "b", "c"], bits).expect("Compilation failed");
}

struct TestFunctionManager;

impl FunctionManager for TestFunctionManager {
    fn function_signatures() -> Vec<(String, usize)> {
        vec![("tanh".to_string(), 1), ("tanh".to_string(), 2)]
    }
}

#[test]
fn custom_function_manager() {
    let mut jit = compiler::<TestFunctionManager>();
    assert_eq!(jit.arity_of("tanh"), Some(1));
    jit.compile("tanh(x)", &["x"], bits).expect("Compilation failed");
    let mut jit = compiler::<TestFunctionManager>();
    match jit.compile("sin(x)", &["x"], bits) {
        Err(JITError::TranslatorError(error)) => {
            assert_eq!(format!("{:?}", error), "FunctionNotFound(\"sin\")")
        }
        other => panic!("the function is not found, but {:?}", other),
    }
}

#[test]
fn the_registry_without_functions_knows_none() {
    let mut jit = compiler::<NoFunctions>();
    match jit.compile("tanh(x)", &["x"], bits) {
        Err(JITError::TranslatorError(error)) => {
            assert_eq!(format!("{:?}", error), "FunctionNotFound(\"tanh\")")
        }
        other => panic!("the function is not found, but {:?}", other),
    }
    assert!(NoFunctions::function_signatures().is_empty());
    assert_eq!(compiler::<NoFunctions>().arity_of("tanh"), None);
}

#[test]
fn the_errors_of_a_compilation() {
    let mut jit = compiler::<NoFunctions>();
    assert!(matches!(jit.compile("y = 1", &["x"], bits), Err(JITError::RootEvaluatesInNoValue)));
    let mut jit = compiler::<NoFunctions>();
    match jit.compile("x + (y = 1)", &["x"], bits) {
        Err(JITError::TranslatorError(error)) => assert_eq!(
            format!("{:?}", error),
            "ExpressionEvaluatesToNoValue(Assign { identifier: \"y\", value: Const { value: \"1\" } })"
        ),
        other => panic!("an operand has no value, but {:?}", other),
    }
    let mut jit = compiler::<NoFunctions>();
    match jit.compile("y = x == 1; y", &["x"], bits) {
        Err(JITError::TranslatorError(error)) => {
            assert_eq!(format!("{:?}", error), "TypeMismatch(\"y\")")
        }
        other => panic!("the value of a comparison is no number, but {:?}", other),
    }
    let mut jit = compiler::<NoFunctions>();
    assert!(matches!(jit.compile("x == 1", &["x"], bits), Err(JITError::ModuleError(_))));
}

#[test]
fn the_first_failure_is_reported() {
    let mut jit = compiler::<NoFunctions>();
    match jit.compile("f(x) + (y = 1)", &["x"], bits) {
        Err(JITError::TranslatorError(error)) => {
            assert_eq!(format!("{:?}", error), "FunctionNotFound(\"f\")")
        }
        other => panic!("the function is not found, but {:?}", other),
    }
    let mut jit = compiler::<NoFunctions>();
    match jit.compile("(y = 1) + f(x)", &["x"], bits) {
        Err(JITError::TranslatorError(error)) => assert_eq!(
            format!("{:?}", error),
            "ExpressionEvaluatesToNoValue(Assign { identifier: \"y\", value: Const { value: \"1\" } })"
        ),
        other => panic!("an operand has no value, but {:?}", other),
    }
    let mut jit = compiler::<NoFunctions>();
    assert!(matches!(
        jit.compile("f(q)", &["x"], bits),
        Err(JITError::UseOfUninitializedVariables(_))
    ));
}

#[test]
fn a_compiler_compiles_again_after_a_failure() {
    let mut jit = compiler::<NoFunctions>();
    assert!(jit.compile("f(x)", &["x"], bits).is_err());
    let id = jit.compile("x + 1", &["x"], bits).expect("Compilation failed");
    let mut module = jit.dissolve();
    module.finalize_definitions().expect("the function has no call to resolve");
    assert!(!module.get_finalized_function(id).is_null());
}

#[test]
fn the_first_entry_of_a_name_counts() {
    let builder = host_builder().expect("host machine is not supported");
    let functions = vec![("f".to_string(), 2), ("g".to_string(), 1), ("f".to_string(), 3)];
    let mut jit: JIT<F32, NoFunctions> = JIT::with_functions(builder, functions);
    assert_eq!(jit.arity_of("f"), Some(2));
    assert_eq!(jit.arity_of("g"), Some(1));
    assert_eq!(jit.arity_of("h"), None);
    jit.compile("f(x, g(x))", &["x"], bits).expect("Compilation failed");
}
