use anita::function_manager::NoFunctions;
use anita::jit::frontend::parser::expression;
use anita::jit::host_builder;
use anita::jit::table::Table;
use anita::jit::types::F32;
use anita::jit::JIT;
use cranelift::codegen::data_value::DataValue;
use cranelift::codegen::ir::Function;
use cranelift::codegen::ir::UserFuncName;
use cranelift::prelude::isa::CallConv;
use cranelift::prelude::types;
use cranelift::prelude::AbiParam;
use cranelift::prelude::FunctionBuilder;
use cranelift::prelude::FunctionBuilderContext;
use cranelift::prelude::Ieee32;
use cranelift::prelude::InstBuilder;
use cranelift::prelude::Signature;
use cranelift_interpreter::environment::FunctionStore;
use cranelift_interpreter::interpreter::Interpreter;
use cranelift_interpreter::interpreter::InterpreterState;
use cranelift_interpreter::step::ControlFlow;

fn bits(text: &String) -> u32 {
    text.parse::<f32>().expect("a literal is a decimal number").to_bits()
}

fn compiler() -> JIT<F32, NoFunctions> {
    JIT::new(host_builder().expect("host machine is not supported"))
}

/// The function that the compiler builds for `text` over `parameters`.
fn build(text: &str, parameters: &[&str]) -> Function {
    let ast = expression(text).expect("Compilation failed");
    let mut constants = Table::new();
    for literal in ast.literals() {
        if constants.get(&literal).is_none() {
            let value = bits(&literal);
            constants.insert(literal, value);
        }
    }
    let mut jit = compiler();
    jit.translate(&ast, parameters, constants).expect("Compilation failed");
    jit.context().func.clone()
}

/// The square of the first of two numbers. The interpreter knows no function
/// of the host: where the exponent is 2, this one stands in for the power
/// function, under the name by which the compiled function calls it.
fn square() -> Function {
    let mut signature = Signature::new(CallConv::SystemV);
    signature.params.push(AbiParam::new(types::F32));
    signature.params.push(AbiParam::new(types::F32));
    signature.returns.push(AbiParam::new(types::F32));
    let mut function = Function::with_name_signature(UserFuncName::user(0, 0), signature);
    let mut context = FunctionBuilderContext::new();
    let mut builder = FunctionBuilder::new(&mut function, &mut context);
    let block = builder.create_block();
    builder.append_block_params_for_function_params(block);
    builder.switch_to_block(block);
    builder.seal_block(block);
    let base = builder.block_params(block)[0];
    let product = builder.ins().fmul(base, base);
    builder.ins().return_(&[product]);
    builder.finalize();
    function
}

/// What the function gives for `arguments`, by interpretation of its
/// instructions.
fn run(function: &Function, arguments: &[f32]) -> f32 {
    let power = square();
    let mut store = FunctionStore::default();
    store.add("expression".to_string(), function);
    store.add("u0:0".to_string(), &power);
    let state = InterpreterState::default().with_function_store(store);
    let arguments: Vec<DataValue> =
        arguments.iter().map(|value| DataValue::F32(Ieee32::with_float(*value))).collect();
    let flow = Interpreter::new(state)
        .call_by_name("expression", &arguments)
        .expect("the function runs");
    match flow {
        ControlFlow::Return(values) => match values.as_slice() {
            [DataValue::F32(value)] => value.as_f32(),
            other => panic!("one 32-bit float is returned, not {:?}", other),
        },
        other => panic!("the function returns, not {:?}", other),
    }
}

/// Compiles `text` to machine code and defines it in the module.
fn compile(text: &str, parameters: &[&str]) {
    let mut jit = compiler();
    jit.compile(text, parameters, bits).expect("Compilation failed");
}

#[test]
fn exponentiation() {
    compile("x ^ 2", &["x"]);
    let function = build("x ^ 2", &["x"]);
    assert_eq!(
        function.display().to_string(),
        "function u0:0(f32) -> f32 system_v {
    sig0 = (f32, f32) -> f32 system_v
    fn0 = u0:0 sig0

block0(v0: f32):
    v1 = f32const 0x1.000000p1
    v2 = call fn0(v0, v1)  ; v1 = 0x1.000000p1
    return v2
}
"
    );
    let result = run(&function, &[2.0]);
    assert_eq!(result, 2.0_f32.powf(2.0));
}

#[test]
fn product() {
    compile("x * 2", &["x"]);
    let result = run(&build("x * 2", &["x"]), &[1.5]);
    assert_eq!(result, 1.5 * 2.0);
}

#[test]
fn division() {
    compile("x / 2", &["x"]);
    let result = run(&build("x / 2", &["x"]), &[2.0]);
    assert_eq!(result, 2.0 / 2.0);
}

#[test]
fn modulo() {
    compile("x % 2", &["x"]);
    let result = run(&build("x % 2", &["x"]), &[3.0]);
    assert_eq!(result, 3.0 % 2.0);
}

#[test]
fn sum() {
    compile("x + 2", &["x"]);
    let result = run(&build("x + 2", &["x"]), &[5.0]);
    assert_eq!(result, 5.0 + 2.0);
}

#[test]
fn difference() {
    compile("x - 2", &["x"]);
    let result = run(&build("x - 2", &["x"]), &[5.0]);
    assert_eq!(result, 3.0);
}

#[test]
fn assignment() {
    compile("y = 2; x + y", &["x"]);
    let result = run(&build("y = 2; x + y", &["x"]), &[2.0]);
    assert_eq!(result, 2.0 + 2.0);
}

#[test]
fn chain() {
    compile("y = 2; z = 2; x + y + z", &["x"]);
    let result = run(&build("y = 2; z = 2; x + y + z", &["x"]), &[2.0]);
    assert_eq!(result, 2.0 + 2.0 + 2.0);
}

#[test]
fn neg() {
    compile("-x", &["x"]);
    let result = run(&build("-x", &["x"]), &[2.0]);
    assert_eq!(result, -2.0);
}

#[test]
fn the_power_is_no_tighter_than_the_product() {
    compile("8 * x ^ 2", &["x"]);
    let result = run(&build("8 * x ^ 2", &["x"]), &[3.0]);
    assert_eq!(result, (8.0_f32 * 3.0).powf(2.0));
    let result = run(&build("8 * (x ^ 2)", &["x"]), &[3.0]);
    assert_eq!(result, 8.0 * 3_f32.powf(2.0));
}

#[test]
fn a_division_by_zero_is_infinite() {
    compile("1.0 / x", &["x"]);
    assert_eq!(run(&build("1.0 / x", &["x"]), &[0.0]), f32::INFINITY);
}

#[test]
fn a_compiled_function_has_an_address() {
    let mut jit = compiler();
    let id = jit.compile("y = 2; x * y", &["x"], bits).expect("Compilation failed");
    let mut module = jit.dissolve();
    module.finalize_definitions().expect("the function has no call to resolve");
    assert!(!module.get_finalized_function(id).is_null());
}
