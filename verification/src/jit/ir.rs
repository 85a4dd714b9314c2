//! What this library takes for granted of the function builder of the code
//! generator: a model of its state, and the calls that change it.

use cranelift::codegen::ir::FuncRef;
use cranelift::prelude::Block;
use cranelift::prelude::FloatCC;
use cranelift::prelude::FunctionBuilder;
use cranelift::prelude::Ieee32;
use cranelift::prelude::InstBuilder;
use cranelift::prelude::Type;
use cranelift::prelude::types;
use cranelift::prelude::Value;
use cranelift::prelude::Variable;
use vstd::prelude::*;

verus! {

#[verifier::external_type_specification]
#[verifier::external_body]
pub struct ExFunctionBuilder<'a>(FunctionBuilder<'a>);

#[verifier::external_type_specification]
#[verifier::external_body]
pub struct ExValue(Value);

#[verifier::external_type_specification]
#[verifier::external_body]
pub struct ExVariable(Variable);

#[verifier::external_type_specification]
#[verifier::external_body]
pub struct ExBlock(Block);

#[verifier::external_type_specification]
#[verifier::external_body]
pub struct ExFuncRef(FuncRef);

#[verifier::external_type_specification]
#[verifier::external_body]
pub struct ExType(Type);

#[verifier::external_type_specification]
pub struct ExFloatCC(FloatCC);

/// cranelift's type of `lanes` 32-bit floats side by side: `types::F32` for
/// one lane, `types::F32X4` for four.
pub uninterp spec fn float_type(lanes: nat) -> Type;

/// The type of the result of a comparison of values of type `ty`:
/// `Type::as_truthy` of cranelift. It is a type of integers, whatever `ty`
/// is.
pub uninterp spec fn truthy(ty: Type) -> Type;

/// The index of a variable: `Variable::index` of cranelift, the number by
/// which the code generator knows the variable.
pub uninterp spec fn index_of(variable: Variable) -> nat;

/// Whether `ty` is one of the two float types of this library.
pub open spec fn is_float(ty: Type) -> bool {
    ty == float_type(1) || ty == float_type(4)
}

/// What an instruction does with its arguments.
pub ghost enum Operation {
    /// A 32-bit float constant, given by its IEEE bits.
    Constant { bits: u32 },
    /// Its argument in every lane of a vector of the type.
    Splat { ty: Type },
    Add,
    Sub,
    Mul,
    Div,
    Neg,
    /// Rounding towards zero to a whole number.
    Trunc,
    Compare { condition: FloatCC },
    Call { callee: FuncRef },
    Return,
}

/// One instruction as it was appended to a block: the operation, the values it
/// takes and the value it yields, if it yields one.
pub ghost struct Instruction {
    pub operation: Operation,
    pub arguments: Seq<Value>,
    pub result: Option<Value>,
}

/// What the contracts of this library say of a function builder.
pub ghost struct BuilderState {
    /// The types of the parameters in the signature of the function.
    pub signature: Seq<Type>,
    /// The blocks that the builder has created.
    pub blocks: Set<Block>,
    /// The block that has the parameters of the function as its own.
    pub entry: Option<Block>,
    /// The values of the parameters of the entry block, in order.
    pub parameters: Seq<Value>,
    /// The blocks that were sealed.
    pub sealed: Set<Block>,
    /// The block that new instructions go to.
    pub current: Option<Block>,
    /// Whether the current block ends in a terminator.
    pub filled: bool,
    /// The values that the builder has handed out.
    pub values: Set<Value>,
    /// The type of each value that the builder has handed out.
    pub types: Map<Value, Type>,
    /// The variables that were declared, each with its type.
    pub variables: Map<Variable, Type>,
    /// The variables that were declared, in the order in which they were.
    pub order: Seq<Variable>,
    /// The value that each variable was last defined with in the current
    /// block, or, for one that was read first, the value that the builder gave
    /// it at that moment.
    pub definitions: Map<Variable, Value>,
    /// The functions that were imported into the function under
    /// construction, each with the types of what it returns.
    pub functions: Map<FuncRef, Seq<Type>>,
    /// The instructions that were appended to the current block, oldest
    /// first. Those that the builder itself puts at the top of the block, to
    /// give a value to a variable that is read before it is defined, are not
    /// among them.
    pub appended: Seq<Instruction>,
}

impl BuilderState {
    /// Whether the builder takes another instruction.
    pub open spec fn open(self) -> bool {
        self.current is Some && !self.filled
    }

    /// The type of what `instruction` yields: a float for a constant, the
    /// vector type for a splat, the type of the first argument for
    /// arithmetic, the type of truth values for a comparison, and what the
    /// callee returns first for a call.
    pub open spec fn result_type(self, instruction: Instruction) -> Type {
        match instruction.operation {
            Operation::Constant { bits } => float_type(1),
            Operation::Splat { ty } => ty,
            Operation::Compare { condition } => truthy(self.types[instruction.arguments[0]]),
            Operation::Call { callee } => self.functions[callee][0],
            _ => self.types[instruction.arguments[0]],
        }
    }

    /// The state after `instruction` was appended.
    pub open spec fn append(self, instruction: Instruction) -> BuilderState {
        match instruction.result {
            Some(value) => BuilderState {
                appended: self.appended.push(instruction),
                values: self.values.insert(value),
                types: self.types.insert(value, self.result_type(instruction)),
                ..self
            },
            None => BuilderState { appended: self.appended.push(instruction), ..self },
        }
    }

    /// The state after an instruction with one result was appended.
    pub open spec fn emit(self, operation: Operation, arguments: Seq<Value>, result: Value) -> BuilderState {
        self.append(Instruction { operation, arguments, result: Some(result) })
    }

    /// The state after the instructions of `code` were appended, one after the
    /// other.
    pub open spec fn extended(self, code: Seq<Instruction>) -> BuilderState
        decreases code.len(),
    {
        if code.len() == 0 {
            self
        } else {
            self.extended(code.drop_last()).append(code.last())
        }
    }

    /// The instructions that were appended since the state `before`.
    pub open spec fn since(self, before: BuilderState) -> Seq<Instruction> {
        self.appended.skip(before.appended.len() as int)
    }

    /// Whether the builder has handed out each of `values`.
    pub open spec fn knows(self, values: Seq<Value>) -> bool {
        forall|i: int| 0 <= i < values.len() ==> self.values.contains(#[trigger] values[i])
    }

    /// Whether what each variable stands for is a value that the builder has
    /// handed out, of the type of the variable.
    pub open spec fn settled(self) -> bool {
        forall|variable: Variable| #[trigger]
            self.definitions.contains_key(variable) ==> self.values.contains(self.definitions[variable])
                && self.variables.contains_key(variable) && self.types[self.definitions[variable]]
                == self.variables[variable]
    }

    /// Whether the values that `self` has handed out have the same types in
    /// `after`.
    pub open spec fn keeps_types(self, after: BuilderState) -> bool {
        forall|value: Value| #[trigger]
            self.values.contains(value) ==> after.types[value] == self.types[value]
    }
}

/// The state of a builder that has created no block and appended nothing,
/// for a function whose parameters have the types `signature`.
pub open spec fn fresh(signature: Seq<Type>) -> BuilderState {
    BuilderState {
        signature,
        entry: None,
        parameters: Seq::empty(),
        blocks: Set::empty(),
        sealed: Set::empty(),
        current: None,
        filled: false,
        values: Set::empty(),
        types: Map::empty(),
        variables: Map::empty(),
        order: Seq::empty(),
        definitions: Map::empty(),
        functions: Map::empty(),
        appended: Seq::empty(),
    }
}

/// Appending to an extended state extends it by one instruction more.
pub proof fn lemma_extended_push(before: BuilderState, code: Seq<Instruction>, instruction: Instruction)
    ensures
        before.extended(code).append(instruction) == before.extended(code.push(instruction)),
{
    assert(code.push(instruction).drop_last() =~= code);
}

/// What an extension changes: the appended instructions, the values and
/// their types.
pub proof fn lemma_extended(before: BuilderState, code: Seq<Instruction>)
    ensures
        before.extended(code).appended == before.appended + code,
        before.extended(code).since(before) == code,
        before.extended(code) == (BuilderState {
            appended: before.extended(code).appended,
            values: before.extended(code).values,
            types: before.extended(code).types,
            ..before
        }),
        before.values.subset_of(before.extended(code).values),
        forall|i: int|
            0 <= i < code.len() && (#[trigger] code[i]).result is Some ==> before.extended(
                code,
            ).values.contains(code[i].result->0),
    decreases code.len(),
{
    if code.len() == 0 {
        assert(before.appended + code =~= before.appended);
        assert(before.appended.skip(before.appended.len() as int) =~= code);
    } else {
        lemma_extended(before, code.drop_last());
        let mid = before.extended(code.drop_last());
        assert(mid.appended.push(code.last()) =~= before.appended + code);
        assert((before.appended + code).skip(before.appended.len() as int) =~= code);
        assert forall|i: int| 0 <= i < code.len() && (#[trigger] code[i]).result is Some implies before.extended(
            code,
        ).values.contains(code[i].result->0) by {
            if i < code.len() - 1 {
                assert(code.drop_last()[i] == code[i]);
            }
        }
    }
}

/// Extending by one sequence and then by another extends by both.
pub proof fn lemma_extended_twice(before: BuilderState, first: Seq<Instruction>, second: Seq<Instruction>)
    ensures
        before.extended(first).extended(second) == before.extended(first + second),
    decreases second.len(),
{
    if second.len() == 0 {
        assert(first + second =~= first);
    } else {
        lemma_extended_twice(before, first, second.drop_last());
        assert((first + second).drop_last() =~= first + second.drop_last());
    }
}

/// The state of a function builder, as far as this library speaks of it.
pub uninterp spec fn state(builder: &FunctionBuilder) -> BuilderState;

/// The constant `types::F32` of cranelift: the type of one 32-bit float.
#[verifier::external_body]
pub(crate) fn scalar_type() -> (ty: Type)
    ensures
        ty == float_type(1),
{
    types::F32
}

/// The constant `types::F32X4` of cranelift: the type of four 32-bit floats.
#[verifier::external_body]
pub(crate) fn vector_type() -> (ty: Type)
    ensures
        ty == float_type(4),
{
    types::F32X4
}

/// `f32const` of cranelift's `InstBuilder`, on the builder's `ins()`: appends
/// the constant with the given IEEE bits and returns its value, which is a
/// new one.
#[verifier::external_body]
pub(crate) fn emit_constant(builder: &mut FunctionBuilder, bits: u32) -> (result: Value)
    requires
        state(old(builder)).open(),
    ensures
        !state(old(builder)).values.contains(result),
        state(final(builder)) == state(old(builder)).emit(Operation::Constant { bits }, seq![], result),
{
    builder.ins().f32const(Ieee32::with_bits(bits))
}

/// `splat` of cranelift's `InstBuilder`: appends an instruction that puts
/// `scalar` in every lane of a vector of type `ty`.
#[verifier::external_body]
pub(crate) fn emit_splat(builder: &mut FunctionBuilder, ty: Type, scalar: Value) -> (result: Value)
    requires
        state(old(builder)).open(),
        state(old(builder)).values.contains(scalar),
    ensures
        !state(old(builder)).values.contains(result),
        state(final(builder)) == state(old(builder)).emit(Operation::Splat { ty }, seq![scalar], result),
{
    builder.ins().splat(ty, scalar)
}

/// `fadd` of cranelift's `InstBuilder`: appends the float addition of `lhs`
/// and `rhs`. The result has the type of `lhs`.
#[verifier::external_body]
pub(crate) fn emit_add(builder: &mut FunctionBuilder, lhs: Value, rhs: Value) -> (result: Value)
    requires
        state(old(builder)).open(),
        state(old(builder)).values.contains(lhs),
        state(old(builder)).values.contains(rhs),
    ensures
        !state(old(builder)).values.contains(result),
        state(final(builder)) == state(old(builder)).emit(Operation::Add, seq![lhs, rhs], result),
{
    builder.ins().fadd(lhs, rhs)
}

/// `fcmp` of cranelift's `InstBuilder`: appends the float comparison of `lhs`
/// with `rhs` under `condition`. The result has the type of truth values
/// for the type of `lhs`, which is no float type.
#[verifier::external_body]
pub(crate) fn emit_compare(
    builder: &mut FunctionBuilder,
    condition: FloatCC,
    lhs: Value,
    rhs: Value,
) -> (result: Value)
    requires
        state(old(builder)).open(),
        state(old(builder)).values.contains(lhs),
        state(old(builder)).values.contains(rhs),
    ensures
        !state(old(builder)).values.contains(result),
        !is_float(truthy(state(old(builder)).types[lhs])),
        state(final(builder)) == state(old(builder)).emit(
            Operation::Compare { condition },
            seq![lhs, rhs],
            result,
        ),
{
    builder.ins().fcmp(condition, lhs, rhs)
}

/// `fsub` of cranelift's `InstBuilder`: appends the float difference of `lhs`
/// and `rhs`. The result has the type of `lhs`.
#[verifier::external_body]
pub(crate) fn emit_sub(builder: &mut FunctionBuilder, lhs: Value, rhs: Value) -> (result: Value)
    requires
        state(old(builder)).open(),
        state(old(builder)).values.contains(lhs),
        state(old(builder)).values.contains(rhs),
    ensures
        !state(old(builder)).values.contains(result),
        state(final(builder)) == state(old(builder)).emit(Operation::Sub, seq![lhs, rhs], result),
{
    builder.ins().fsub(lhs, rhs)
}

/// `fmul` of cranelift's `InstBuilder`: appends the float product of `lhs`
/// and `rhs`. The result has the type of `lhs`.
#[verifier::external_body]
pub(crate) fn emit_mul(builder: &mut FunctionBuilder, lhs: Value, rhs: Value) -> (result: Value)
    requires
        state(old(builder)).open(),
        state(old(builder)).values.contains(lhs),
        state(old(builder)).values.contains(rhs),
    ensures
        !state(old(builder)).values.contains(result),
        state(final(builder)) == state(old(builder)).emit(Operation::Mul, seq![lhs, rhs], result),
{
    builder.ins().fmul(lhs, rhs)
}

/// `fdiv` of cranelift's `InstBuilder`: appends the float quotient of `lhs`
/// by `rhs`. The result has the type of `lhs`.
#[verifier::external_body]
pub(crate) fn emit_div(builder: &mut FunctionBuilder, lhs: Value, rhs: Value) -> (result: Value)
    requires
        state(old(builder)).open(),
        state(old(builder)).values.contains(lhs),
        state(old(builder)).values.contains(rhs),
    ensures
        !state(old(builder)).values.contains(result),
        state(final(builder)) == state(old(builder)).emit(Operation::Div, seq![lhs, rhs], result),
{
    builder.ins().fdiv(lhs, rhs)
}

/// `fneg` of cranelift's `InstBuilder`: appends the float negation of
/// `value`. The result has the type of `value`.
#[verifier::external_body]
pub(crate) fn emit_neg(builder: &mut FunctionBuilder, value: Value) -> (result: Value)
    requires
        state(old(builder)).open(),
        state(old(builder)).values.contains(value),
    ensures
        !state(old(builder)).values.contains(result),
        state(final(builder)) == state(old(builder)).emit(Operation::Neg, seq![value], result),
{
    builder.ins().fneg(value)
}

/// `trunc` of cranelift's `InstBuilder`: appends the rounding of `value`
/// towards zero. The result has the type of `value`.
#[verifier::external_body]
pub(crate) fn emit_trunc(builder: &mut FunctionBuilder, value: Value) -> (result: Value)
    requires
        state(old(builder)).open(),
        state(old(builder)).values.contains(value),
    ensures
        !state(old(builder)).values.contains(result),
        state(final(builder)) == state(old(builder)).emit(Operation::Trunc, seq![value], result),
{
    builder.ins().trunc(value)
}

/// `call` of cranelift's `InstBuilder`, and `inst_results` of the builder on
/// the instruction it returns: appends a call of `callee` with `arguments` and
/// returns the first value that the call yields, which is a new one. There
/// is one exactly if the callee's signature has a return value.
#[verifier::external_body]
pub(crate) fn emit_call(builder: &mut FunctionBuilder, callee: FuncRef, arguments: &Vec<Value>) -> (result:
    Option<Value>)
    requires
        state(old(builder)).open(),
        state(old(builder)).functions.contains_key(callee),
        state(old(builder)).knows(arguments@),
    ensures
        result is Some <==> state(old(builder)).functions[callee].len() > 0,
        result matches Some(value) ==> !state(old(builder)).values.contains(value),
        state(final(builder)) == state(old(builder)).append(
            Instruction { operation: Operation::Call { callee }, arguments: arguments@, result },
        ),
{
    let call = builder.ins().call(callee, arguments);
    builder.inst_results(call).first().copied()
}

/// `return_` of cranelift's `InstBuilder`: appends the return of `value`,
/// which ends the current block.
#[verifier::external_body]
pub(crate) fn emit_return(builder: &mut FunctionBuilder, value: Value)
    requires
        state(old(builder)).open(),
        state(old(builder)).values.contains(value),
    ensures
        state(final(builder)) == (BuilderState {
            filled: true,
            ..state(old(builder)).append(
                Instruction { operation: Operation::Return, arguments: seq![value], result: None },
            )
        }),
{
    builder.ins().return_(&[value]);
}

/// `FunctionBuilder::create_block`: makes a new, empty block.
#[verifier::external_body]
pub(crate) fn create_block(builder: &mut FunctionBuilder) -> (block: Block)
    ensures
        !state(old(builder)).blocks.contains(block),
        state(final(builder)) == (BuilderState {
            blocks: state(old(builder)).blocks.insert(block),
            ..state(old(builder))
        }),
{
    builder.create_block()
}

/// `FunctionBuilder::append_block_params_for_function_params`: gives `block`
/// one parameter for each parameter of the function's signature.
#[verifier::external_body]
pub(crate) fn append_function_params(builder: &mut FunctionBuilder, block: Block)
    requires
        state(old(builder)).blocks.contains(block),
        state(old(builder)).current is None,
        state(old(builder)).entry is None,
    ensures
        state(final(builder)).parameters.len() == state(old(builder)).signature.len(),
        state(final(builder)) == (BuilderState {
            entry: Some(block),
            parameters: state(final(builder)).parameters,
            ..state(old(builder))
        }),
{
    builder.append_block_params_for_function_params(block);
}

/// `FunctionBuilder::switch_to_block`: new instructions go to `block`.
#[verifier::external_body]
pub(crate) fn switch_to_block(builder: &mut FunctionBuilder, block: Block)
    requires
        state(old(builder)).blocks.contains(block),
        state(old(builder)).current is None,
    ensures
        state(final(builder)) == (BuilderState {
            current: Some(block),
            filled: false,
            ..state(old(builder))
        }),
{
    builder.switch_to_block(block);
}

/// `FunctionBuilder::seal_block`: no further branch will lead to `block`.
#[verifier::external_body]
pub(crate) fn seal_block(builder: &mut FunctionBuilder, block: Block)
    requires
        state(old(builder)).blocks.contains(block),
        !state(old(builder)).sealed.contains(block),
    ensures
        state(final(builder)) == (BuilderState {
            sealed: state(old(builder)).sealed.insert(block),
            ..state(old(builder))
        }),
{
    builder.seal_block(block);
}

/// `FunctionBuilder::block_params`, at one index: the value of the
/// parameter of the entry block at `index`. It has the type of the
/// parameter of the signature at that index.
#[verifier::external_body]
pub(crate) fn block_param(builder: &mut FunctionBuilder, block: Block, index: usize) -> (value: Value)
    requires
        state(old(builder)).entry == Some(block),
        index < state(old(builder)).parameters.len(),
    ensures
        value == state(old(builder)).parameters[index as int],
        state(old(builder)).values.contains(value) ==> state(old(builder)).types[value] == state(
            old(builder),
        ).signature[index as int],
        state(final(builder)) == (BuilderState {
            values: state(old(builder)).values.insert(value),
            types: state(old(builder)).types.insert(value, state(old(builder)).signature[index as int]),
            ..state(old(builder))
        }),
{
    builder.block_params(block)[index]
}

/// `FunctionBuilder::declare_var`: declares a new variable of the float type
/// `ty`. Its index is the number of the variables that were declared before
/// it.
#[verifier::external_body]
pub(crate) fn declare_var(builder: &mut FunctionBuilder, ty: Type) -> (variable: Variable)
    requires
        is_float(ty),
    ensures
        !state(old(builder)).variables.contains_key(variable),
        index_of(variable) == state(old(builder)).order.len(),
        state(final(builder)) == (BuilderState {
            variables: state(old(builder)).variables.insert(variable, ty),
            order: state(old(builder)).order.push(variable),
            ..state(old(builder))
        }),
{
    builder.declare_var(ty)
}

/// `FunctionBuilder::use_var`: the value of `variable` at this point. Where
/// the variable has a definition in the current block, that value comes back
/// and nothing changes. Where it has none, the builder gives it one, which
/// need not be the value that comes back, and appends nothing; both are new
/// values of the type of the variable.
#[verifier::external_body]
pub(crate) fn use_var(builder: &mut FunctionBuilder, variable: Variable) -> (value: Value)
    requires
        state(old(builder)).open(),
        state(old(builder)).variables.contains_key(variable),
    ensures
        state(old(builder)).definitions.contains_key(variable) ==> {
            &&& value == state(old(builder)).definitions[variable]
            &&& state(final(builder)) == state(old(builder))
        },
        !state(old(builder)).definitions.contains_key(variable) ==> {
            let given = state(final(builder)).definitions[variable];
            let ty = state(old(builder)).variables[variable];
            &&& !state(old(builder)).values.contains(value)
            &&& !state(old(builder)).values.contains(given)
            &&& state(final(builder)).definitions.contains_key(variable)
            &&& state(final(builder)) == (BuilderState {
                definitions: state(old(builder)).definitions.insert(variable, given),
                values: state(old(builder)).values.insert(value).insert(given),
                types: state(old(builder)).types.insert(value, ty).insert(given, ty),
                ..state(old(builder))
            })
        },
{
    builder.use_var(variable)
}

/// `FunctionBuilder::try_def_var`: defines `variable` as `value` from here
/// on, and says whether the builder took the definition. It takes one
/// exactly if the variable was declared and the value has its type.
#[verifier::external_body]
pub(crate) fn define_var(builder: &mut FunctionBuilder, variable: Variable, value: Value) -> (taken:
    bool)
    requires
        state(old(builder)).open(),
        state(old(builder)).values.contains(value),
    ensures
        taken <==> state(old(builder)).variables.contains_key(variable) && state(
            old(builder),
        ).variables[variable] == state(old(builder)).types[value],
        taken ==> state(final(builder)) == (BuilderState {
            definitions: state(old(builder)).definitions.insert(variable, value),
            ..state(old(builder))
        }),
        !taken ==> state(final(builder)) == state(old(builder)),
{
    builder.try_def_var(variable, value).is_ok()
}

/// `FunctionBuilder::finalize`: ends the construction of the function.
#[verifier::external_body]
pub(crate) fn finalize(builder: FunctionBuilder)
    requires
        state(&builder).current is Some ==> state(&builder).filled && state(&builder).sealed.contains(
            state(&builder).current->0,
        ),
{
    builder.finalize();
}

} // verus!
