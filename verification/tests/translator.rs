use anita::function_manager::DefaultFunctionManager;
use anita::function_manager::FunctionManager;
use anita::function_manager::NoFunctions;
use anita::jit::frontend::parser::expression;
use anita::jit::host_builder;
use anita::jit::table::Table;
use anita::jit::translator::ExprTranslator;
use anita::jit::translator::TranslatorError;
use anita::jit::types::F32;
use anita::jit::types::F32X4;
use anita::jit::JITError;
use anita::jit::JIT;
use cranelift::codegen::data_value::DataValue;
use cranelift::codegen::ir::Function;
use cranelift::prelude::types;
use cranelift::prelude::AbiParam;
use cranelift::prelude::FunctionBuilder;
use cranelift::prelude::FunctionBuilderContext;
use cranelift::prelude::Ieee32;
use cranelift_interpreter::environment::FunctionStore;
use cranelift_jit::JITModule;
use cranelift_module::Module;
use cranelift_interpreter::interpreter::Interpreter;
use cranelift_interpreter::interpreter::InterpreterState;
use cranelift_interpreter::step::ControlFlow;

fn bits(text: &String) -> u32 {
    text.parse::<f32>().expect("a literal is a decimal number").to_bits()
}

fn build_with<F: FunctionManager>(text: &str, parameters: &[&str]) -> Function {
    let ast = expression(text).expect("Compilation failed");
    let mut constants = Table::new();
    for literal in ast.literals() {
        if constants.get(&literal).is_none() {
            let value = bits(&literal);
            constants.insert(literal, value);
        }
    }
    let mut jit: JIT<F32, F> = JIT::new(host_builder().expect("host machine is not supported"));
    jit.translate(&ast, parameters, constants).expect("Compilation failed");
    jit.context().func.clone()
}

fn build(text: &str, parameters: &[&str]) -> Function {
    build_with::<NoFunctions>(text, parameters)
}

fn text_of(text: &str, parameters: &[&str]) -> String {
    build(text, parameters).display().to_string()
}

fn run(function: &Function, arguments: &[f32]) -> f32 {
    let mut store = FunctionStore::default();
    store.add("expression".to_string(), function);
    let state = InterpreterState::default().with_function_store(store);
    let arguments: Vec<DataValue> =
        arguments.iter().map(|value| DataValue::F32(Ieee32::with_float(*value))).collect();
    let flow = Interpreter::new(state)
        .call_by_name("expression", &arguments)
        .expect("the function runs");
    match flow {
        ControlFlow::Return(values) => match values.as_slice() {
            [DataValue::F32(value)] => value.as_f32(),
            other => panic!("one 32-bit float is returned, not {:?}", other),
        },
        other => panic!("the function returns, not {:?}", other),
    }
}

fn value_of(text: &str, parameters: &[&str], arguments: &[f32]) -> f32 {
    run(&build(text, parameters), arguments)
}

#[test]
fn a_parameter_comes_back_bit_for_bit() {
    for value in [0.0f32, -0.0, 1.0, -2.5, f32::MAX, f32::MIN_POSITIVE, 1.0e-40, f32::EPSILON] {
        assert_eq!(value_of("x", &["x"], &[value]).to_bits(), value.to_bits());
    }
    assert_eq!(value_of("x", &["x"], &[f32::INFINITY]), f32::INFINITY);
    assert!(value_of("x", &["x"], &[f32::NAN]).is_nan());
}

#[test]
fn a_literal_is_the_nearest_float() {
    assert_eq!(value_of("0.1", &["x"], &[0.0]), 0.1);
    assert_eq!(value_of("-3.", &["x"], &[0.0]), -3.0);
    assert_eq!(value_of("16777217", &["x"], &[0.0]), 16777216.0);
}

#[test]
fn the_arithmetic_of_floats() {
    assert_eq!(value_of("1.0 / x", &["x"], &[0.0]), f32::INFINITY);
    assert_eq!(value_of("-1.0 / x", &["x"], &[0.0]), f32::NEG_INFINITY);
    assert!(value_of("x - x", &["x"], &[f32::INFINITY]).is_nan());
    assert!(value_of("x * 0", &["x"], &[f32::NAN]).is_nan());
    assert_eq!(value_of("x - y", &["x", "y"], &[5.0, 7.5]), -2.5);
    assert_eq!(value_of("x / y", &["x", "y"], &[1.0, 4.0]), 0.25);
    assert_eq!(value_of("-(x + y)", &["x", "y"], &[1.0, 4.0]), -5.0);
}

#[test]
fn the_remainder_has_the_sign_of_the_dividend() {
    assert_eq!(
        text_of("x % y", &["x", "y"]),
        "function u0:0(f32, f32) -> f32 system_v {
    sig0 = (f32, f32) -> f32 system_v
    fn0 = u0:0 sig0

block0(v0: f32, v1: f32):
    v2 = fdiv v0, v1
    v3 = trunc v2
    v4 = fmul v3, v1
    v5 = fsub v0, v4
    return v5
}
"
    );
    assert_eq!(value_of("x % y", &["x", "y"], &[7.5, 2.0]), 7.5 % 2.0);
    assert_eq!(value_of("x % y", &["x", "y"], &[-7.5, 2.0]), -7.5 % 2.0);
    assert_eq!(value_of("x % y", &["x", "y"], &[7.5, -2.0]), 7.5 % -2.0);
    assert!(value_of("x % y", &["x", "y"], &[1.0, 0.0]).is_nan());
}

#[test]
fn operands_are_evaluated_from_left_to_right() {
    assert_eq!(value_of("x - y * 2", &["x", "y"], &[10.0, 3.0]), 4.0);
    assert_eq!(value_of("(x - y) * 2", &["x", "y"], &[10.0, 3.0]), 14.0);
    assert_eq!(value_of("a = x; a = a + 1; a * y", &["x", "y"], &[1.0, 3.0]), 6.0);
}

#[test]
fn a_name_that_stands_twice_among_the_parameters_stands_for_the_later() {
    assert_eq!(
        text_of("x + x", &["x", "x"]),
        "function u0:0(f32, f32) -> f32 system_v {
    sig0 = (f32, f32) -> f32 system_v
    fn0 = u0:0 sig0

block0(v0: f32, v1: f32):
    v2 = fadd v1, v1
    return v2
}
"
    );
}

#[test]
fn a_variable_that_is_read_before_it_is_assigned_is_zero() {
    assert_eq!(value_of("z = y + x; y = 2; z", &["x"], &[5.0]), 5.0);
    assert_eq!(value_of("y * 3 + y; y = 2; y", &["x"], &[5.0]), 2.0);
}

#[test]
fn comparisons_are_one_instruction() {
    for (operator, condition) in
        [("==", "eq"), ("!=", "ne"), (">", "gt"), ("<", "lt"), (">=", "ge"), ("<=", "le")]
    {
        assert_eq!(
            text_of(&format!("x {} y", operator), &["x", "y"]),
            format!(
                "function u0:0(f32, f32) -> f32 system_v {{
    sig0 = (f32, f32) -> f32 system_v
    fn0 = u0:0 sig0

block0(v0: f32, v1: f32):
    v2 = fcmp {} v0, v1
    return v2
}}
",
                condition
            )
        );
    }
}

#[test]
fn logic_always_evaluates_both_sides() {
    assert_eq!(
        text_of("x && y", &["x", "y"]),
        "function u0:0(f32, f32) -> f32 system_v {
    sig0 = (f32, f32) -> f32 system_v
    fn0 = u0:0 sig0

block0(v0: f32, v1: f32):
    v2 = f32const 0.0
    v3 = f32const 0x1.000000p1
    v4 = fcmp ne v0, v2  ; v2 = 0.0
    v5 = fcmp ne v1, v2  ; v2 = 0.0
    v6 = fadd v4, v5
    v7 = fcmp eq v6, v3  ; v3 = 0x1.000000p1
    return v7
}
"
    );
    assert_eq!(
        text_of("x || y", &["x", "y"]),
        "function u0:0(f32, f32) -> f32 system_v {
    sig0 = (f32, f32) -> f32 system_v
    fn0 = u0:0 sig0

block0(v0: f32, v1: f32):
    v2 = f32const 0.0
    v3 = fcmp ne v0, v2  ; v2 = 0.0
    v4 = fcmp ne v1, v2  ; v2 = 0.0
    v5 = fadd v3, v4
    v6 = fcmp ne v5, v2  ; v2 = 0.0
    return v6
}
"
    );
    assert_eq!(
        text_of("!x", &["x"]),
        "function u0:0(f32) -> f32 system_v {
    sig0 = (f32, f32) -> f32 system_v
    fn0 = u0:0 sig0

block0(v0: f32):
    v1 = f32const 0.0
    v2 = fcmp eq v0, v1  ; v1 = 0.0
    return v2
}
"
    );
}

#[test]
fn a_function_is_imported_once() {
    assert_eq!(
        build_with::<DefaultFunctionManager>("min(x, y) + min(y, x) + max(x, y)", &["x", "y"])
            .display()
            .to_string(),
        "function u0:0(f32, f32) -> f32 system_v {
    sig0 = (f32, f32) -> f32 system_v
    sig1 = (f32, f32) -> f32 system_v
    sig2 = (f32, f32) -> f32 system_v
    fn0 = u0:0 sig0
    fn1 = u0:1 sig1
    fn2 = u0:2 sig2

block0(v0: f32, v1: f32):
    v2 = call fn1(v0, v1)
    v3 = call fn1(v1, v0)
    v4 = fadd v2, v3
    v5 = call fn2(v0, v1)
    v6 = fadd v4, v5
    return v6
}
"
    );
}

#[test]
fn a_function_takes_as_many_values_as_the_registry_lists() {
    assert_eq!(
        build_with::<DefaultFunctionManager>("if(x, floor(x), 3)", &["x"]).display().to_string(),
        "function u0:0(f32) -> f32 system_v {
    sig0 = (f32, f32) -> f32 system_v
    sig1 = (f32) -> f32 system_v
    sig2 = (f32, f32, f32) -> f32 system_v
    fn0 = u0:0 sig0
    fn1 = u0:1 sig1
    fn2 = u0:2 sig2

block0(v0: f32):
    v1 = call fn1(v0)
    v2 = f32const 0x1.800000p1
    v3 = call fn2(v0, v1, v2)  ; v2 = 0x1.800000p1
    return v3
}
"
    );
}

#[test]
fn the_signature_of_a_function_of_the_host() {
    let module = JITModule::new(host_builder().expect("host machine is not supported"));
    let scalar = ExprTranslator::<F32>::signature(&module, 3);
    assert_eq!(scalar.params, vec![AbiParam::new(types::F32); 3]);
    assert_eq!(scalar.returns, vec![AbiParam::new(types::F32)]);
    assert_eq!(scalar.call_conv, module.isa().default_call_conv());
    let vector = ExprTranslator::<F32X4>::signature(&module, 0);
    assert!(vector.params.is_empty());
    assert_eq!(vector.returns, vec![AbiParam::new(types::F32X4)]);
}

#[test]
fn the_host_builder_sets_the_flags_of_a_just_in_time_compiler() {
    let module = JITModule::new(host_builder().expect("host machine is not supported"));
    assert!(!module.isa().flags().is_pic());
    assert!(!module.isa().flags().use_colocated_libcalls());
}

fn failure_of(text: &str, parameters: &[&str]) -> Option<JITError> {
    let ast = expression(text).expect("Compilation failed");
    let mut constants = Table::new();
    for literal in ast.literals() {
        if constants.get(&literal).is_none() {
            let value = bits(&literal);
            constants.insert(literal, value);
        }
    }
    let mut jit: JIT<F32, NoFunctions> = JIT::new(host_builder().expect("host machine is not supported"));
    jit.translate(&ast, parameters, constants).err()
}

#[test]
fn a_truth_value_is_not_assigned_to_a_variable() {
    for text in ["y = a < b; y", "y = a && b; y", "y = !a; y", "y = -(a < b); y", "y = (a < b) * 2; y"] {
        match failure_of(text, &["a", "b"]) {
            Some(JITError::TranslatorError(TranslatorError::TypeMismatch(name))) => assert_eq!(name, "y"),
            other => panic!("{} does not stop at the assignment, but gives {:?}", text, other),
        }
    }
}

#[test]
fn arithmetic_has_the_type_of_its_left_operand() {
    for text in ["y = 2 * (a < b); y", "y = a % (a < b); y", "y = (a < b) ^ 2; y", "y = (x = a; x + 1); y"] {
        assert!(failure_of(text, &["a", "b"]).is_none(), "{}", text);
    }
    match failure_of("y = (x = a; x < 1); y", &["a", "b"]) {
        Some(JITError::TranslatorError(TranslatorError::TypeMismatch(name))) => assert_eq!(name, "y"),
        other => panic!("the sequence has the type of its last part, but gives {:?}", other),
    }
}

#[test]
fn a_truth_value_is_returned_and_computed_with() {
    for text in ["a < b", "(a < b) + (a > b)", "-(a < b)", "!(a < b)", "(a < b) && a"] {
        assert!(failure_of(text, &["a", "b"]).is_none(), "{}", text);
    }
}

#[test]
fn a_call_of_an_unknown_name_is_not_found() {
    match failure_of("a + nope(b)", &["a", "b"]) {
        Some(JITError::TranslatorError(TranslatorError::FunctionNotFound(name))) => assert_eq!(name, "nope"),
        other => panic!("the call is not reported, but {:?}", other),
    }
}

#[test]
fn the_first_failure_in_the_order_of_evaluation_is_reported() {
    match failure_of("nope(y = a) + other(b)", &["a", "b"]) {
        Some(JITError::TranslatorError(TranslatorError::ExpressionEvaluatesToNoValue(part))) => {
            assert_eq!(part.to_string(), "y = (a)")
        }
        other => panic!("the argument without a value is not reported, but {:?}", other),
    }
    match failure_of("first(a) + (y = a < b; second(y))", &["a", "b"]) {
        Some(JITError::TranslatorError(TranslatorError::FunctionNotFound(name))) => assert_eq!(name, "first"),
        other => panic!("the first call is not reported, but {:?}", other),
    }
    match failure_of("(y = a < b; second(y)) + first(a)", &["a", "b"]) {
        Some(JITError::TranslatorError(TranslatorError::TypeMismatch(name))) => assert_eq!(name, "y"),
        other => panic!("the assignment is not reported, but {:?}", other),
    }
    match failure_of("y = a", &["a"]) {
        Some(JITError::RootEvaluatesInNoValue) => {}
        other => panic!("the assignment has no value to return, but gives {:?}", other),
    }
}

#[test]
fn a_module_takes_one_definition_of_the_expression() {
    let mut jit: JIT<F32, NoFunctions> = JIT::new(host_builder().expect("host machine is not supported"));
    jit.compile("x + 1", &["x"], bits).expect("Compilation failed");
    match jit.compile("x + 2", &["x"], bits) {
        Err(JITError::ModuleError(cranelift_module::ModuleError::DuplicateDefinition(name))) => {
            assert_eq!(name, "expression")
        }
        other => panic!("the second definition is not refused, but gives {:?}", other),
    }
    match jit.compile("x + y", &["x", "y"], bits) {
        Err(JITError::ModuleError(cranelift_module::ModuleError::IncompatibleSignature(name, _, _))) => {
            assert_eq!(name, "expression")
        }
        other => panic!("the other signature is not refused, but gives {:?}", other),
    }
}

#[test]
fn the_function_has_a_parameter_for_each_name_and_one_block() {
    let function = build("y = a + b; y * a", &["a", "b", "a"]);
    let parameters: Vec<_> = function.signature.params.iter().map(|p| p.value_type).collect();
    assert_eq!(parameters, vec![types::F32, types::F32, types::F32]);
    let returns: Vec<_> = function.signature.returns.iter().map(|p| p.value_type).collect();
    assert_eq!(returns, vec![types::F32]);
    assert_eq!(function.layout.blocks().count(), 1);
    let entry = function.layout.entry_block().expect("the function has a block");
    assert_eq!(function.dfg.block_params(entry).len(), 3);
    let last = function.layout.last_inst(entry).expect("the block has instructions");
    assert!(function.dfg.insts[last].opcode().is_return());
}

#[test]
fn the_variables_are_numbered_as_the_names_are_first_seen() {
    let ast = expression("c = a + b; d = c * e; d").expect("Compilation failed");
    let parameters = ["e", "a", "b", "a"];
    let mut module = JITModule::new(host_builder().expect("host machine is not supported"));
    let mut context = module.make_context();
    for _ in parameters {
        context.func.signature.params.push(AbiParam::new(types::F32));
    }
    context.func.signature.returns.push(AbiParam::new(types::F32));
    let mut builder_context = FunctionBuilderContext::new();
    let mut builder = FunctionBuilder::new(&mut context.func, &mut builder_context);
    let registry: Table<usize> = Table::new();
    let body = JIT::<F32, NoFunctions>::lower(&mut builder, &mut module, &registry, &ast, &parameters, Table::new())
        .expect("Compilation failed");
    for (name, index) in [("e", 0), ("a", 1), ("b", 2), ("c", 3), ("d", 4)] {
        let variable = body.variables.get(&name.to_string()).expect("the name has a variable");
        assert_eq!(variable.as_u32(), index, "{}", name);
    }
    assert_eq!(body.variables.len(), 5);
    assert_eq!(body.functions.len(), 1);
    builder.finalize();
    assert_eq!(context.func.layout.blocks().count(), 1);
}

#[test]
fn an_undefined_name_leaves_the_builder_as_it_was() {
    let ast = expression("a + b").expect("Compilation failed");
    let mut module = JITModule::new(host_builder().expect("host machine is not supported"));
    let mut context = module.make_context();
    context.func.signature.params.push(AbiParam::new(types::F32));
    context.func.signature.returns.push(AbiParam::new(types::F32));
    let mut builder_context = FunctionBuilderContext::new();
    let mut builder = FunctionBuilder::new(&mut context.func, &mut builder_context);
    let registry: Table<usize> = Table::new();
    match JIT::<F32, NoFunctions>::lower(&mut builder, &mut module, &registry, &ast, &["a"], Table::new()) {
        Err(JITError::UseOfUninitializedVariables(names)) => assert_eq!(names, vec!["b".to_string()]),
        other => panic!("the undefined name is not reported, but {:?}", other.err()),
    }
    assert!(builder.current_block().is_none());
    assert_eq!(builder.func.layout.blocks().count(), 0);
}

#[test]
fn a_truth_value_is_built_and_refused_at_the_definition() {
    for text in ["a < b", "a && b", "a || b", "!a"] {
        assert!(failure_of(text, &["a", "b"]).is_none(), "{}", text);
        let mut jit: JIT<F32, NoFunctions> = JIT::new(host_builder().expect("host machine is not supported"));
        match jit.compile(text, &["a", "b"], bits) {
            Err(JITError::ModuleError(cranelift_module::ModuleError::Compilation(_))) => {}
            other => panic!("{} is not refused by the code generator, but gives {:?}", text, other),
        }
    }
}
