use anita::function_manager::NoFunctions;
use anita::jit::frontend::parser::expression;
use anita::jit::host_builder;
use anita::jit::table::Table;
use anita::jit::types::F32X4;
use anita::jit::JIT;
use cranelift::codegen::data_value::DataValue;
use cranelift::codegen::ir::Function;
use cranelift_interpreter::environment::FunctionStore;
use cranelift_interpreter::interpreter::Interpreter;
use cranelift_interpreter::interpreter::InterpreterState;
use cranelift_interpreter::step::ControlFlow;

fn bits(text: &String) -> u32 {
    text.parse::<f32>().expect("a literal is a decimal number").to_bits()
}

fn compiler() -> JIT<F32X4, NoFunctions> {
    JIT::new(host_builder().expect("host machine is not supported"))
}

fn build(text: &str, parameters: &[&str]) -> Function {
    let ast = expression(text).expect("Compilation failed");
    let mut constants = Table::new();
    for literal in ast.literals() {
        if constants.get(&literal).is_none() {
            let value = bits(&literal);
            constants.insert(literal, value);
        }
    }
    let mut jit = compiler();
    jit.translate(&ast, parameters, constants).expect("Compilation failed");
    jit.context().func.clone()
}

fn pack(lanes: [f32; 4]) -> DataValue {
    let mut bytes = [0u8; 16];
    for (lane, value) in lanes.iter().enumerate() {
        bytes[4 * lane..4 * lane + 4].copy_from_slice(&value.to_le_bytes());
    }
    DataValue::V128(bytes)
}

fn unpack(value: &DataValue) -> [f32; 4] {
    match value {
        DataValue::V128(bytes) => {
            let mut lanes = [0.0f32; 4];
            for (lane, value) in lanes.iter_mut().enumerate() {
                let mut four = [0u8; 4];
                four.copy_from_slice(&bytes[4 * lane..4 * lane + 4]);
                *value = f32::from_le_bytes(four);
            }
            lanes
        }
        other => panic!("a vector is returned, not {:?}", other),
    }
}

fn run(function: &Function, arguments: &[[f32; 4]]) -> [f32; 4] {
    let mut store = FunctionStore::default();
    store.add("expression".to_string(), function);
    let state = InterpreterState::default().with_function_store(store);
    let arguments: Vec<DataValue> = arguments.iter().map(|lanes| pack(*lanes)).collect();
    let flow = Interpreter::new(state)
        .call_by_name("expression", &arguments)
        .expect("the function runs");
    match flow {
        ControlFlow::Return(values) => match values.as_slice() {
            [value] => unpack(value),
            other => panic!("one vector is returned, not {:?}", other),
        },
        other => panic!("the function returns, not {:?}", other),
    }
}

#[test]
fn it_works() {
    compiler().compile("x", &["x"], bits).expect("Compilation failed");
    let x = [5.0; 4];
    let result = run(&build("x", &["x"]), &[x]);
    assert_eq!(x, result);
}

#[test]
fn the_square_of_each_lane() {
    compiler().compile("x * x", &["x"], bits).expect("Compilation failed");
    let result = run(&build("x * x", &["x"]), &[[5.0; 4]]);
    assert_eq!(result, [25.0; 4]);
    let result = run(&build("x * x", &["x"]), &[[1.0, -2.0, 0.5, 0.0]]);
    assert_eq!(result, [1.0, 4.0, 0.25, 0.0]);
}

#[test]
fn a_constant_is_the_same_in_every_lane() {
    let function = build("x + 1.5", &["x"]);
    assert_eq!(
        function.display().to_string(),
        "function u0:0(f32x4) -> f32x4 system_v {
    sig0 = (f32x4, f32x4) -> f32x4 system_v
    fn0 = u0:0 sig0

block0(v0: f32x4):
    v1 = f32const 0x1.800000p0
    v2 = splat.f32x4 v1  ; v1 = 0x1.800000p0
    v3 = fadd v0, v2
    return v3
}
"
    );
    assert_eq!(run(&function, &[[1.0, 2.0, 3.0, 4.0]]), [2.5, 3.5, 4.5, 5.5]);
}

#[test]
fn the_remainder_of_each_lane() {
    let result = run(&build("x % 2", &["x"]), &[[3.0, -3.0, 4.5, 0.5]]);
    assert_eq!(result, [1.0, -1.0, 0.5, 0.5]);
}

#[test]
fn logic_on_vectors_compares_with_constants_in_every_lane() {
    let function = build("x && 1", &["x"]);
    assert_eq!(
        function.display().to_string(),
        "function u0:0(f32x4) -> f32x4 system_v {
    sig0 = (f32x4, f32x4) -> f32x4 system_v
    fn0 = u0:0 sig0

block0(v0: f32x4):
    v1 = f32const 0x1.000000p0
    v2 = splat.f32x4 v1  ; v1 = 0x1.000000p0
    v3 = f32const 0.0
    v4 = splat.f32x4 v3  ; v3 = 0.0
    v5 = f32const 0x1.000000p1
    v6 = splat.f32x4 v5  ; v5 = 0x1.000000p1
    v7 = fcmp ne v0, v4
    v8 = fcmp ne v2, v4
    v9 = fadd v7, v8
    v10 = fcmp eq v9, v6
    return v10
}
"
    );
}
