//! The element types of a compilation: how constants and operators become
//! instructions on one float and on a vector of floats.

use cranelift::prelude::FloatCC;
use cranelift::prelude::FunctionBuilder;
use cranelift::prelude::Type;
use cranelift::prelude::Value;
use super::frontend::ast::BinaryOp;
use super::frontend::ast::UnaryOp;
use super::ir::BuilderState;
use super::ir::emit_add;
use super::ir::emit_compare;
use super::ir::emit_constant;
use super::ir::emit_div;
use super::ir::emit_mul;
use super::ir::emit_neg;
use super::ir::emit_splat;
use super::ir::emit_sub;
use super::ir::emit_trunc;
use super::ir::float_type;
use super::ir::is_float;
use super::ir::Instruction;
use super::ir::lemma_extended;
use super::ir::lemma_extended_push;
use super::ir::lemma_extended_twice;
use super::ir::Operation;
use super::ir::scalar_type;
use super::ir::state;
use super::ir::vector_type;
use vstd::prelude::*;

verus! {

/// The IEEE bits of the 32-bit float 0.
pub const ZERO: u32 = 0;

/// The IEEE bits of the 32-bit float 2.
pub const TWO: u32 = 0x4000_0000;

/// Whether `instruction` is `operation` on `arguments` and yields `result`.
pub open spec fn is(
    instruction: Instruction,
    operation: Operation,
    arguments: Seq<Value>,
    result: Value,
) -> bool {
    instruction == (Instruction { operation, arguments, result: Some(result) })
}

/// The value that the last instruction of `code` yields.
pub open spec fn last_value(code: Seq<Instruction>) -> Value {
    code.last().result->0
}

/// The condition under which a comparison operator of the language compares.
pub open spec fn condition_of(op: BinaryOp) -> FloatCC {
    match op {
        BinaryOp::Eq => FloatCC::Equal,
        BinaryOp::Neq => FloatCC::NotEqual,
        BinaryOp::Gt => FloatCC::GreaterThan,
        BinaryOp::Lt => FloatCC::LessThan,
        BinaryOp::Geq => FloatCC::GreaterThanOrEqual,
        _ => FloatCC::LessThanOrEqual,
    }
}

/// Whether `code` is what the element type `T` appends for the operator `op`
/// on `lhs` and `rhs`, with `result` as its value. Exponentiation is a call
/// and has no code of this kind.
pub open spec fn binary_code<T: Element>(
    op: BinaryOp,
    code: Seq<Instruction>,
    lhs: Value,
    rhs: Value,
    result: Value,
) -> bool {
    let n = T::constant_len() as int;
    match op {
        BinaryOp::Add => code.len() == 1 && is(code[0], Operation::Add, seq![lhs, rhs], result),
        BinaryOp::Sub => code.len() == 1 && is(code[0], Operation::Sub, seq![lhs, rhs], result),
        BinaryOp::Mul => code.len() == 1 && is(code[0], Operation::Mul, seq![lhs, rhs], result),
        BinaryOp::Div => code.len() == 1 && is(code[0], Operation::Div, seq![lhs, rhs], result),
        BinaryOp::Mod => {
            // lhs - trunc(lhs / rhs) * rhs
            &&& code.len() == 4
            &&& code[1].result is Some
            &&& code[2].result is Some
            &&& code[0].result is Some
            &&& is(code[0], Operation::Div, seq![lhs, rhs], code[0].result->0)
            &&& is(code[1], Operation::Trunc, seq![code[0].result->0], code[1].result->0)
            &&& is(code[2], Operation::Mul, seq![code[1].result->0, rhs], code[2].result->0)
            &&& is(code[3], Operation::Sub, seq![lhs, code[2].result->0], result)
        },
        BinaryOp::Exp => false,
        BinaryOp::Eq | BinaryOp::Neq | BinaryOp::Gt | BinaryOp::Lt | BinaryOp::Geq | BinaryOp::Leq => {
            code.len() == 1 && is(
                code[0],
                Operation::Compare { condition: condition_of(op) },
                seq![lhs, rhs],
                result,
            )
        },
        BinaryOp::And => {
            // ((lhs != 0) + (rhs != 0)) == 2
            let zero = last_value(code.subrange(0, n));
            let two = last_value(code.subrange(n, 2 * n));
            let unequal = Operation::Compare { condition: FloatCC::NotEqual };
            &&& code.len() == 2 * n + 4
            &&& T::constant_code(code.subrange(0, n), ZERO, zero)
            &&& T::constant_code(code.subrange(n, 2 * n), TWO, two)
            &&& code[2 * n].result is Some
            &&& code[2 * n + 1].result is Some
            &&& code[2 * n + 2].result is Some
            &&& is(code[2 * n], unequal, seq![lhs, zero], code[2 * n].result->0)
            &&& is(code[2 * n + 1], unequal, seq![rhs, zero], code[2 * n + 1].result->0)
            &&& is(
                code[2 * n + 2],
                Operation::Add,
                seq![code[2 * n].result->0, code[2 * n + 1].result->0],
                code[2 * n + 2].result->0,
            )
            &&& is(
                code[2 * n + 3],
                Operation::Compare { condition: FloatCC::Equal },
                seq![code[2 * n + 2].result->0, two],
                result,
            )
        },
        BinaryOp::Or => {
            // ((lhs != 0) + (rhs != 0)) != 0
            let zero = last_value(code.subrange(0, n));
            let unequal = Operation::Compare { condition: FloatCC::NotEqual };
            &&& code.len() == n + 4
            &&& T::constant_code(code.subrange(0, n), ZERO, zero)
            &&& code[n].result is Some
            &&& code[n + 1].result is Some
            &&& code[n + 2].result is Some
            &&& is(code[n], unequal, seq![lhs, zero], code[n].result->0)
            &&& is(code[n + 1], unequal, seq![rhs, zero], code[n + 1].result->0)
            &&& is(
                code[n + 2],
                Operation::Add,
                seq![code[n].result->0, code[n + 1].result->0],
                code[n + 2].result->0,
            )
            &&& is(code[n + 3], unequal, seq![code[n + 2].result->0, zero], result)
        },
    }
}

/// Whether `code` is what the element type `T` appends for the operator `op`
/// on `value`, with `result` as its value.
pub open spec fn unary_code<T: Element>(
    op: UnaryOp,
    code: Seq<Instruction>,
    value: Value,
    result: Value,
) -> bool {
    let n = T::constant_len() as int;
    match op {
        UnaryOp::Neg => code.len() == 1 && is(code[0], Operation::Neg, seq![value], result),
        UnaryOp::Not => {
            // value == 0
            let zero = last_value(code.subrange(0, n));
            &&& code.len() == n + 1
            &&& T::constant_code(code.subrange(0, n), ZERO, zero)
            &&& is(
                code[n],
                Operation::Compare { condition: FloatCC::Equal },
                seq![value, zero],
                result,
            )
        },
    }
}

/// Whether each instruction of `code` computes a value and none ends the
/// block: the code runs from its first instruction to its last.
pub open spec fn computes(code: Seq<Instruction>) -> bool {
    forall|i: int|
        0 <= i < code.len() ==> (#[trigger] code[i]).result is Some && !(code[i].operation is Return)
}

/// Code of two parts that compute computes.
pub proof fn lemma_computes_both(first: Seq<Instruction>, second: Seq<Instruction>)
    requires
        computes(first),
        computes(second),
    ensures
        computes(first + second),
{
    assert forall|i: int| 0 <= i < (first + second).len() implies (#[trigger] (first + second)[i]).result is Some
        && !((first + second)[i].operation is Return) by {
        if i < first.len() {
            assert((first + second)[i] == first[i]);
        } else {
            assert((first + second)[i] == second[i - first.len()]);
        }
    }
}

/// What an element type appends for a two-operand operator computes.
pub proof fn lemma_binary_computes<T: Element>(
    op: BinaryOp,
    code: Seq<Instruction>,
    lhs: Value,
    rhs: Value,
    result: Value,
)
    requires
        binary_code::<T>(op, code, lhs, rhs, result),
    ensures
        computes(code),
{
    let n = T::constant_len() as int;
    match op {
        BinaryOp::And => {
            let zero = code.subrange(0, n);
            let two = code.subrange(n, 2 * n);
            T::lemma_constant_computes(zero, ZERO, last_value(zero));
            T::lemma_constant_computes(two, TWO, last_value(two));
            assert forall|i: int| 0 <= i < code.len() implies (#[trigger] code[i]).result is Some && !(
            code[i].operation is Return) by {
                if i < n {
                    assert(code[i] == zero[i]);
                } else if i < 2 * n {
                    assert(code[i] == two[i - n]);
                }
            }
        },
        BinaryOp::Or => {
            let zero = code.subrange(0, n);
            T::lemma_constant_computes(zero, ZERO, last_value(zero));
            assert forall|i: int| 0 <= i < code.len() implies (#[trigger] code[i]).result is Some && !(
            code[i].operation is Return) by {
                if i < n {
                    assert(code[i] == zero[i]);
                }
            }
        },
        _ => {},
    }
}

/// What an element type appends for a one-operand operator computes.
pub proof fn lemma_unary_computes<T: Element>(
    op: UnaryOp,
    code: Seq<Instruction>,
    value: Value,
    result: Value,
)
    requires
        unary_code::<T>(op, code, value, result),
    ensures
        computes(code),
{
    let n = T::constant_len() as int;
    if op == UnaryOp::Not {
        let zero = code.subrange(0, n);
        T::lemma_constant_computes(zero, ZERO, last_value(zero));
        assert forall|i: int| 0 <= i < code.len() implies (#[trigger] code[i]).result is Some && !(
        code[i].operation is Return) by {
            if i < n {
                assert(code[i] == zero[i]);
            }
        }
    }
}

/// Whether a builder went from `before` to `after` by appending instructions
/// only, with `result` among the values it has handed out. The values that
/// it had handed out before keep their types.
pub open spec fn appended_only(before: BuilderState, after: BuilderState, result: Value) -> bool {
    &&& after == before.extended(after.since(before))
    &&& after == (BuilderState {
        appended: after.appended,
        values: after.values,
        types: after.types,
        ..before
    })
    &&& after.appended == before.appended + after.since(before)
    &&& before.values.subset_of(after.values)
    &&& before.keeps_types(after)
    &&& after.values.contains(result)
}

/// One appended instruction more, in the terms of `appended_only`.
proof fn lemma_step(
    before: BuilderState,
    code: Seq<Instruction>,
    operation: Operation,
    arguments: Seq<Value>,
    result: Value,
)
    requires
        before.keeps_types(before.extended(code)),
        !before.extended(code).values.contains(result),
    ensures
        before.extended(code).emit(operation, arguments, result) == before.extended(
            code.push(Instruction { operation, arguments, result: Some(result) }),
        ),
        before.extended(code.push(Instruction { operation, arguments, result: Some(result) })).since(
            before,
        ) == code.push(Instruction { operation, arguments, result: Some(result) }),
        appended_only(
            before,
            before.extended(code.push(Instruction { operation, arguments, result: Some(result) })),
            result,
        ),
        before.extended(code).values.subset_of(
            before.extended(code.push(Instruction { operation, arguments, result: Some(result) })).values,
        ),
        before.extended(code).keeps_types(
            before.extended(code.push(Instruction { operation, arguments, result: Some(result) })),
        ),
        before.extended(code.push(Instruction { operation, arguments, result: Some(result) })).types[result]
            == before.extended(code).result_type(Instruction { operation, arguments, result: Some(result) }),
{
    let instruction = Instruction { operation, arguments, result: Some(result) };
    lemma_extended_push(before, code, instruction);
    lemma_extended(before, code.push(instruction));
    lemma_extended(before, code);
    assert(code.push(instruction)[code.len() as int] == instruction);
}

/// The representation of an element type: the type of its values and the
/// instructions that make one of its constants.
pub trait Element: Sized {
    /// The type of a value of the element type.
    spec fn repr() -> Type;

    /// The number of instructions that make a constant.
    spec fn constant_len() -> nat;

    /// Whether `code` makes the constant with the IEEE bits `bits` and leaves
    /// it in `result`.
    spec fn constant_code(code: Seq<Instruction>, bits: u32, result: Value) -> bool;

    /// The instructions that make a constant compute.
    proof fn lemma_constant_computes(code: Seq<Instruction>, bits: u32, result: Value)
        requires
            Self::constant_code(code, bits, result),
        ensures
            computes(code),
    ;

    /// The type of a value of the element type: one 32-bit float, or four
    /// of them side by side.
    fn cranelift_repr() -> (ty: Type)
        ensures
            ty == Self::repr(),
            ty == float_type(1) || ty == float_type(4),
    ;

    /// Appends the constant with the IEEE bits `bits`: in a vector, the same
    /// constant in every lane.
    fn constant(builder: &mut FunctionBuilder, bits: u32) -> (result: Value)
        requires
            state(old(builder)).open(),
        ensures
            appended_only(state(old(builder)), state(final(builder)), result),
            Self::constant_code(state(final(builder)).since(state(old(builder))), bits, result),
            state(final(builder)).since(state(old(builder))).len() == Self::constant_len(),
            Self::constant_len() > 0,
            last_value(state(final(builder)).since(state(old(builder)))) == result,
            state(final(builder)).types[result] == Self::repr(),
    ;
}

/// The numeric element type of a compilation: how its operators become
/// instructions. Every parameter, local, constant and result of a compiled
/// function has this one type.
pub trait AnitaType: Element {
    /// Appends `lhs + rhs`.
    fn add(builder: &mut FunctionBuilder, lhs: Value, rhs: Value) -> (result: Value)
        requires
            state(old(builder)).open(),
            state(old(builder)).values.contains(lhs),
            state(old(builder)).values.contains(rhs),
        ensures
            appended_only(state(old(builder)), state(final(builder)), result),
            binary_code::<Self>(
                BinaryOp::Add,
                state(final(builder)).since(state(old(builder))),
                lhs,
                rhs,
                result,
            ),
            state(final(builder)).types[result] == state(old(builder)).types[lhs],
    {
        let ghost before = state(builder);
        let result = emit_add(builder, lhs, rhs);
        proof {
            lemma_step(before, seq![], Operation::Add, seq![lhs, rhs], result);
        }
        result
    }

    /// Appends `lhs - rhs`.
    fn sub(builder: &mut FunctionBuilder, lhs: Value, rhs: Value) -> (result: Value)
        requires
            state(old(builder)).open(),
            state(old(builder)).values.contains(lhs),
            state(old(builder)).values.contains(rhs),
        ensures
            appended_only(state(old(builder)), state(final(builder)), result),
            binary_code::<Self>(
                BinaryOp::Sub,
                state(final(builder)).since(state(old(builder))),
                lhs,
                rhs,
                result,
            ),
            state(final(builder)).types[result] == state(old(builder)).types[lhs],
    {
        let ghost before = state(builder);
        let result = emit_sub(builder, lhs, rhs);
        proof {
            lemma_step(before, seq![], Operation::Sub, seq![lhs, rhs], result);
        }
        result
    }

    /// Appends `lhs * rhs`.
    fn mul(builder: &mut FunctionBuilder, lhs: Value, rhs: Value) -> (result: Value)
        requires
            state(old(builder)).open(),
            state(old(builder)).values.contains(lhs),
            state(old(builder)).values.contains(rhs),
        ensures
            appended_only(state(old(builder)), state(final(builder)), result),
            binary_code::<Self>(
                BinaryOp::Mul,
                state(final(builder)).since(state(old(builder))),
                lhs,
                rhs,
                result,
            ),
            state(final(builder)).types[result] == state(old(builder)).types[lhs],
    {
        let ghost before = state(builder);
        let result = emit_mul(builder, lhs, rhs);
        proof {
            lemma_step(before, seq![], Operation::Mul, seq![lhs, rhs], result);
        }
        result
    }

    /// Appends `lhs / rhs`.
    fn div(builder: &mut FunctionBuilder, lhs: Value, rhs: Value) -> (result: Value)
        requires
            state(old(builder)).open(),
            state(old(builder)).values.contains(lhs),
            state(old(builder)).values.contains(rhs),
        ensures
            appended_only(state(old(builder)), state(final(builder)), result),
            binary_code::<Self>(
                BinaryOp::Div,
                state(final(builder)).since(state(old(builder))),
                lhs,
                rhs,
                result,
            ),
            state(final(builder)).types[result] == state(old(builder)).types[lhs],
    {
        let ghost before = state(builder);
        let result = emit_div(builder, lhs, rhs);
        proof {
            lemma_step(before, seq![], Operation::Div, seq![lhs, rhs], result);
        }
        result
    }

    /// Appends the remainder of `value` by `modulus`, with the sign of
    /// `value`: `value - trunc(value / modulus) * modulus`.
    fn modulo(builder: &mut FunctionBuilder, value: Value, modulus: Value) -> (result: Value)
        requires
            state(old(builder)).open(),
            state(old(builder)).values.contains(value),
            state(old(builder)).values.contains(modulus),
        ensures
            appended_only(state(old(builder)), state(final(builder)), result),
            binary_code::<Self>(
                BinaryOp::Mod,
                state(final(builder)).since(state(old(builder))),
                value,
                modulus,
                result,
            ),
            state(final(builder)).types[result] == state(old(builder)).types[value],
    {
        let ghost before = state(builder);
        let ghost mut code = Seq::<Instruction>::empty();
        let div = emit_div(builder, value, modulus);
        proof {
            lemma_step(before, code, Operation::Div, seq![value, modulus], div);
            code = code.push(Instruction { operation: Operation::Div, arguments: seq![value, modulus], result: Some(div) });
        }
        let trunc = emit_trunc(builder, div);
        proof {
            lemma_step(before, code, Operation::Trunc, seq![div], trunc);
            code = code.push(Instruction { operation: Operation::Trunc, arguments: seq![div], result: Some(trunc) });
        }
        let full = emit_mul(builder, trunc, modulus);
        proof {
            lemma_step(before, code, Operation::Mul, seq![trunc, modulus], full);
            code = code.push(Instruction { operation: Operation::Mul, arguments: seq![trunc, modulus], result: Some(full) });
        }
        let result = emit_sub(builder, value, full);
        proof {
            lemma_step(before, code, Operation::Sub, seq![value, full], result);
        }
        result
    }

    /// Appends `-value`.
    fn neg(builder: &mut FunctionBuilder, value: Value) -> (result: Value)
        requires
            state(old(builder)).open(),
            state(old(builder)).values.contains(value),
        ensures
            appended_only(state(old(builder)), state(final(builder)), result),
            unary_code::<Self>(UnaryOp::Neg, state(final(builder)).since(state(old(builder))), value, result),
            state(final(builder)).types[result] == state(old(builder)).types[value],
    {
        let ghost before = state(builder);
        let result = emit_neg(builder, value);
        proof {
            lemma_step(before, seq![], Operation::Neg, seq![value], result);
        }
        result
    }
    /// Appends the comparison `lhs == rhs`.
    fn eq(builder: &mut FunctionBuilder, lhs: Value, rhs: Value) -> (result: Value)
        requires
            state(old(builder)).open(),
            state(old(builder)).values.contains(lhs),
            state(old(builder)).values.contains(rhs),
        ensures
            appended_only(state(old(builder)), state(final(builder)), result),
            binary_code::<Self>(
                BinaryOp::Eq,
                state(final(builder)).since(state(old(builder))),
                lhs,
                rhs,
                result,
            ),
            !is_float(state(final(builder)).types[result]),
    {
        let ghost before = state(builder);
        let result = emit_compare(builder, FloatCC::Equal, lhs, rhs);
        proof {
            lemma_step(before, seq![], Operation::Compare { condition: FloatCC::Equal }, seq![lhs, rhs], result);
        }
        result
    }

    /// Appends the comparison `lhs != rhs`.
    fn neq(builder: &mut FunctionBuilder, lhs: Value, rhs: Value) -> (result: Value)
        requires
            state(old(builder)).open(),
            state(old(builder)).values.contains(lhs),
            state(old(builder)).values.contains(rhs),
        ensures
            appended_only(state(old(builder)), state(final(builder)), result),
            binary_code::<Self>(
                BinaryOp::Neq,
                state(final(builder)).since(state(old(builder))),
                lhs,
                rhs,
                result,
            ),
            !is_float(state(final(builder)).types[result]),
    {
        let ghost before = state(builder);
        let result = emit_compare(builder, FloatCC::NotEqual, lhs, rhs);
        proof {
            lemma_step(before, seq![], Operation::Compare { condition: FloatCC::NotEqual }, seq![lhs, rhs], result);
        }
        result
    }

    /// Appends the comparison `lhs > rhs`.
    fn gt(builder: &mut FunctionBuilder, lhs: Value, rhs: Value) -> (result: Value)
        requires
            state(old(builder)).open(),
            state(old(builder)).values.contains(lhs),
            state(old(builder)).values.contains(rhs),
        ensures
            appended_only(state(old(builder)), state(final(builder)), result),
            binary_code::<Self>(
                BinaryOp::Gt,
                state(final(builder)).since(state(old(builder))),
                lhs,
                rhs,
                result,
            ),
            !is_float(state(final(builder)).types[result]),
    {
        let ghost before = state(builder);
        let result = emit_compare(builder, FloatCC::GreaterThan, lhs, rhs);
        proof {
            lemma_step(before, seq![], Operation::Compare { condition: FloatCC::GreaterThan }, seq![lhs, rhs], result);
        }
        result
    }

    /// Appends the comparison `lhs < rhs`.
    fn lt(builder: &mut FunctionBuilder, lhs: Value, rhs: Value) -> (result: Value)
        requires
            state(old(builder)).open(),
            state(old(builder)).values.contains(lhs),
            state(old(builder)).values.contains(rhs),
        ensures
            appended_only(state(old(builder)), state(final(builder)), result),
            binary_code::<Self>(
                BinaryOp::Lt,
                state(final(builder)).since(state(old(builder))),
                lhs,
                rhs,
                result,
            ),
            !is_float(state(final(builder)).types[result]),
    {
        let ghost before = state(builder);
        let result = emit_compare(builder, FloatCC::LessThan, lhs, rhs);
        proof {
            lemma_step(before, seq![], Operation::Compare { condition: FloatCC::LessThan }, seq![lhs, rhs], result);
        }
        result
    }

    /// Appends the comparison `lhs >= rhs`.
    fn geq(builder: &mut FunctionBuilder, lhs: Value, rhs: Value) -> (result: Value)
        requires
            state(old(builder)).open(),
            state(old(builder)).values.contains(lhs),
            state(old(builder)).values.contains(rhs),
        ensures
            appended_only(state(old(builder)), state(final(builder)), result),
            binary_code::<Self>(
                BinaryOp::Geq,
                state(final(builder)).since(state(old(builder))),
                lhs,
                rhs,
                result,
            ),
            !is_float(state(final(builder)).types[result]),
    {
        let ghost before = state(builder);
        let result = emit_compare(builder, FloatCC::GreaterThanOrEqual, lhs, rhs);
        proof {
            lemma_step(before, seq![], Operation::Compare { condition: FloatCC::GreaterThanOrEqual }, seq![lhs, rhs], result);
        }
        result
    }

    /// Appends the comparison `lhs <= rhs`.
    fn leq(builder: &mut FunctionBuilder, lhs: Value, rhs: Value) -> (result: Value)
        requires
            state(old(builder)).open(),
            state(old(builder)).values.contains(lhs),
            state(old(builder)).values.contains(rhs),
        ensures
            appended_only(state(old(builder)), state(final(builder)), result),
            binary_code::<Self>(
                BinaryOp::Leq,
                state(final(builder)).since(state(old(builder))),
                lhs,
                rhs,
                result,
            ),
            !is_float(state(final(builder)).types[result]),
    {
        let ghost before = state(builder);
        let result = emit_compare(builder, FloatCC::LessThanOrEqual, lhs, rhs);
        proof {
            lemma_step(before, seq![], Operation::Compare { condition: FloatCC::LessThanOrEqual }, seq![lhs, rhs], result);
        }
        result
    }

    /// Appends `lhs && rhs`, where a value is true if it is not 0. Both sides
    /// are always evaluated: `((lhs != 0) + (rhs != 0)) == 2`.
    #[verifier::rlimit(40)]
    fn and(builder: &mut FunctionBuilder, lhs: Value, rhs: Value) -> (result: Value)
        requires
            state(old(builder)).open(),
            state(old(builder)).values.contains(lhs),
            state(old(builder)).values.contains(rhs),
        ensures
            appended_only(state(old(builder)), state(final(builder)), result),
            binary_code::<Self>(
                BinaryOp::And,
                state(final(builder)).since(state(old(builder))),
                lhs,
                rhs,
                result,
            ),
            !is_float(state(final(builder)).types[result]),
    {
        let ghost before = state(builder);
        let ghost unequal = Operation::Compare { condition: FloatCC::NotEqual };
        let zero = Self::constant(builder, ZERO);
        let ghost with_zero = state(builder);
        let ghost zero_code = with_zero.since(before);
        let two = Self::constant(builder, TWO);
        let ghost two_code = state(builder).since(with_zero);
        let ghost mut code = zero_code + two_code;
        proof {
            lemma_extended_twice(before, zero_code, two_code);
            lemma_extended(before, code);
        }
        let left = emit_compare(builder, FloatCC::NotEqual, lhs, zero);
        proof {
            lemma_step(before, code, unequal, seq![lhs, zero], left);
            code = code.push(Instruction { operation: unequal, arguments: seq![lhs, zero], result: Some(left) });
        }
        let right = emit_compare(builder, FloatCC::NotEqual, rhs, zero);
        proof {
            lemma_step(before, code, unequal, seq![rhs, zero], right);
            code = code.push(Instruction { operation: unequal, arguments: seq![rhs, zero], result: Some(right) });
        }
        let sum = emit_add(builder, left, right);
        proof {
            lemma_step(before, code, Operation::Add, seq![left, right], sum);
            code = code.push(Instruction { operation: Operation::Add, arguments: seq![left, right], result: Some(sum) });
        }
        let result = emit_compare(builder, FloatCC::Equal, sum, two);
        proof {
            let equal = Operation::Compare { condition: FloatCC::Equal };
            lemma_step(before, code, equal, seq![sum, two], result);
            code = code.push(Instruction { operation: equal, arguments: seq![sum, two], result: Some(result) });
            let n = Self::constant_len() as int;
            assert(code.subrange(0, n) =~= zero_code);
            assert(code.subrange(n, 2 * n) =~= two_code);
        }
        result
    }

    /// Appends `lhs || rhs`, where a value is true if it is not 0. Both sides
    /// are always evaluated: `((lhs != 0) + (rhs != 0)) != 0`.
    fn or(builder: &mut FunctionBuilder, lhs: Value, rhs: Value) -> (result: Value)
        requires
            state(old(builder)).open(),
            state(old(builder)).values.contains(lhs),
            state(old(builder)).values.contains(rhs),
        ensures
            appended_only(state(old(builder)), state(final(builder)), result),
            binary_code::<Self>(
                BinaryOp::Or,
                state(final(builder)).since(state(old(builder))),
                lhs,
                rhs,
                result,
            ),
            !is_float(state(final(builder)).types[result]),
    {
        let ghost before = state(builder);
        let ghost unequal = Operation::Compare { condition: FloatCC::NotEqual };
        let zero = Self::constant(builder, ZERO);
        let ghost zero_code = state(builder).since(before);
        let ghost mut code = zero_code;
        let left = emit_compare(builder, FloatCC::NotEqual, lhs, zero);
        proof {
            lemma_step(before, code, unequal, seq![lhs, zero], left);
            code = code.push(Instruction { operation: unequal, arguments: seq![lhs, zero], result: Some(left) });
        }
        let right = emit_compare(builder, FloatCC::NotEqual, rhs, zero);
        proof {
            lemma_step(before, code, unequal, seq![rhs, zero], right);
            code = code.push(Instruction { operation: unequal, arguments: seq![rhs, zero], result: Some(right) });
        }
        let sum = emit_add(builder, left, right);
        proof {
            lemma_step(before, code, Operation::Add, seq![left, right], sum);
            code = code.push(Instruction { operation: Operation::Add, arguments: seq![left, right], result: Some(sum) });
        }
        let result = emit_compare(builder, FloatCC::NotEqual, sum, zero);
        proof {
            lemma_step(before, code, unequal, seq![sum, zero], result);
            code = code.push(Instruction { operation: unequal, arguments: seq![sum, zero], result: Some(result) });
            let n = Self::constant_len() as int;
            assert(code.subrange(0, n) =~= zero_code);
        }
        result
    }

    /// Appends `!value`, where a value is true if it is not 0: `value == 0`.
    fn not(builder: &mut FunctionBuilder, value: Value) -> (result: Value)
        requires
            state(old(builder)).open(),
            state(old(builder)).values.contains(value),
        ensures
            appended_only(state(old(builder)), state(final(builder)), result),
            unary_code::<Self>(UnaryOp::Not, state(final(builder)).since(state(old(builder))), value, result),
            !is_float(state(final(builder)).types[result]),
    {
        let ghost before = state(builder);
        let zero = Self::constant(builder, ZERO);
        let ghost zero_code = state(builder).since(before);
        let result = emit_compare(builder, FloatCC::Equal, value, zero);
        proof {
            let equal = Operation::Compare { condition: FloatCC::Equal };
            lemma_step(before, zero_code, equal, seq![value, zero], result);
            let code = zero_code.push(Instruction { operation: equal, arguments: seq![value, zero], result: Some(result) });
            let n = Self::constant_len() as int;
            assert(code.subrange(0, n) =~= zero_code);
        }
        result
    }
}

/// The element type of one 32-bit float.
pub struct F32;

/// The element type of four 32-bit floats side by side.
pub struct F32X4;

impl Element for F32 {
    open spec fn repr() -> Type {
        float_type(1)
    }

    open spec fn constant_len() -> nat {
        1
    }

    open spec fn constant_code(code: Seq<Instruction>, bits: u32, result: Value) -> bool {
        code.len() == 1 && is(code[0], Operation::Constant { bits }, seq![], result)
    }

    proof fn lemma_constant_computes(code: Seq<Instruction>, bits: u32, result: Value) {
    }

    fn cranelift_repr() -> (ty: Type) {
        scalar_type()
    }

    fn constant(builder: &mut FunctionBuilder, bits: u32) -> (result: Value) {
        let ghost before = state(builder);
        let result = emit_constant(builder, bits);
        proof {
            lemma_step(before, seq![], Operation::Constant { bits }, seq![], result);
        }
        result
    }
}

impl Element for F32X4 {
    open spec fn repr() -> Type {
        float_type(4)
    }

    open spec fn constant_len() -> nat {
        2
    }

    open spec fn constant_code(code: Seq<Instruction>, bits: u32, result: Value) -> bool {
        &&& code.len() == 2
        &&& code[0].result is Some
        &&& is(code[0], Operation::Constant { bits }, seq![], code[0].result->0)
        &&& is(code[1], Operation::Splat { ty: float_type(4) }, seq![code[0].result->0], result)
    }

    proof fn lemma_constant_computes(code: Seq<Instruction>, bits: u32, result: Value) {
    }

    fn cranelift_repr() -> (ty: Type) {
        vector_type()
    }

    fn constant(builder: &mut FunctionBuilder, bits: u32) -> (result: Value) {
        let ghost before = state(builder);
        let scalar = emit_constant(builder, bits);
        proof {
            lemma_step(before, seq![], Operation::Constant { bits }, seq![], scalar);
        }
        let ty = vector_type();
        let result = emit_splat(builder, ty, scalar);
        proof {
            lemma_step(
                before,
                seq![Instruction { operation: Operation::Constant { bits }, arguments: seq![], result: Some(scalar) }],
                Operation::Splat { ty },
                seq![scalar],
                result,
            );
        }
        result
    }
}

impl AnitaType for F32 {
}

impl AnitaType for F32X4 {
}

} // verus!
