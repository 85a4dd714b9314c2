//! What it means that a sequence of instructions is the lowering of an
//! expression, and at which failure a lowering stops.

use cranelift::codegen::ir::FuncRef;
use cranelift::prelude::Value;
use cranelift::prelude::Variable;
use cranelift_module::ModuleError;
use super::frontend::ast::BinaryOp;
use super::frontend::ast::Term;
use super::frontend::ast::UnaryOp;
use super::ir::Instruction;
use super::ir::Operation;
use super::types::AnitaType;
use super::types::binary_code;
use super::types::computes;
use super::types::lemma_binary_computes;
use super::types::lemma_computes_both;
use super::types::lemma_unary_computes;
use super::types::unary_code;
use vstd::prelude::*;

verus! {

/// What stays the same while an expression is lowered: the variable of each
/// name, the IEEE bits of each literal, and the functions of the registry,
/// each with its number of parameters.
pub ghost struct Scope {
    pub variables: Map<Seq<char>, Variable>,
    pub constants: Map<Seq<char>, u32>,
    pub registry: Map<Seq<char>, usize>,
}

/// What the lowering of an expression may change: the value that each
/// variable stands for, and the functions that were imported so far, each
/// with its number of parameters.
pub ghost struct Env {
    pub definitions: Map<Variable, Value>,
    pub functions: Map<Seq<char>, (FuncRef, usize)>,
}

/// The name under which the power function is imported.
pub open spec fn power() -> Seq<char> {
    "inbuilt_pow"@
}

/// Whether reading `variable` in `before` gives `value` and leaves `after`.
/// A variable that stands for a value gives that value. One that stands for
/// none yet is given a value by the code generator.
pub open spec fn reads_variable(
    before: Map<Variable, Value>,
    variable: Variable,
    value: Value,
    after: Map<Variable, Value>,
) -> bool {
    if before.contains_key(variable) {
        value == before[variable] && after == before
    } else {
        after.contains_key(variable) && after == before.insert(variable, after[variable])
    }
}

/// Whether `code` is one call of the function `name` with `arguments` that
/// yields `out`. A function that was not imported before is one of the
/// registry, and is imported now with the number of parameters that the
/// registry has for it.
pub open spec fn calls(
    registry: Map<Seq<char>, usize>,
    name: Seq<char>,
    before: Env,
    code: Seq<Instruction>,
    arguments: Seq<Value>,
    out: Option<Value>,
    after: Env,
) -> bool {
    &&& after.definitions == before.definitions
    &&& after.functions.contains_key(name)
    &&& if before.functions.contains_key(name) {
        after.functions == before.functions
    } else {
        &&& registry.contains_key(name)
        &&& after.functions[name].1 == registry[name]
        &&& after.functions == before.functions.insert(name, after.functions[name])
    }
    &&& code.len() == 1
    &&& code[0] == (Instruction {
        operation: Operation::Call { callee: after.functions[name].0 },
        arguments,
        result: out,
    })
}

/// The parts of the lowering of a sequence `side; ret`: the code of `side`
/// with the value it leaves and what holds after it, and the code of `ret`.
/// Every choice of parts is one; the lowering says which fit.
pub open spec fn chain_parts(
    first: Seq<Instruction>,
    dropped: Option<Value>,
    mid: Env,
    second: Seq<Instruction>,
) -> bool {
    true
}

/// The parts of the lowering of a call: the code of the arguments with
/// their values and what holds after them, and the code of the call.
pub open spec fn call_parts(
    first: Seq<Instruction>,
    values: Seq<Value>,
    mid: Env,
    last: Seq<Instruction>,
) -> bool {
    true
}

/// The parts of the lowering of a two-operand operator: the code and the
/// value of each operand with what holds after it, and the code of the
/// operator.
pub open spec fn binary_parts(
    first: Seq<Instruction>,
    left: Value,
    mid: Env,
    second: Seq<Instruction>,
    right: Value,
    end: Env,
    last: Seq<Instruction>,
) -> bool {
    true
}

/// The parts of the lowering of a one-operand operator: the code and the
/// value of the operand, and the code of the operator.
pub open spec fn unary_parts(first: Seq<Instruction>, operand: Value, last: Seq<Instruction>) -> bool {
    true
}

/// The parts of the lowering of an assignment: the value that is assigned
/// and what holds after it was computed.
pub open spec fn assign_parts(assigned: Value, mid: Env) -> bool {
    true
}

/// The parts of the lowering of a sequence of terms: the code of all but the
/// last with what holds after them, and the code of the last.
pub open spec fn each_parts(first: Seq<Instruction>, mid: Env, last: Seq<Instruction>) -> bool {
    true
}

/// Whether `code` applies the operator `op` to `left` and `right` and yields
/// `out`. Exponentiation is a call of the power function; every other
/// operator is made of instructions of the element type `T`.
pub open spec fn applies<T: AnitaType>(
    registry: Map<Seq<char>, usize>,
    op: BinaryOp,
    before: Env,
    code: Seq<Instruction>,
    left: Value,
    right: Value,
    out: Option<Value>,
    after: Env,
) -> bool {
    if op == BinaryOp::Exp {
        calls(registry, power(), before, code, seq![left, right], out, after)
    } else {
        after == before && out is Some && binary_code::<T>(op, code, left, right, out->0)
    }
}

/// Whether `code` is the lowering of the term `t` for the element type `T`:
/// the instructions of its parts in the order of evaluation, each taking the
/// values that its operands left. `out` is the value of the term, which an
/// assignment does not have.
pub open spec fn lowers<T: AnitaType>(
    t: Term,
    scope: Scope,
    before: Env,
    code: Seq<Instruction>,
    out: Option<Value>,
    after: Env,
) -> bool
    decreases t,
{
    match t {
        Term::Read { identifier } => {
            &&& code.len() == 0
            &&& out is Some
            &&& after.functions == before.functions
            &&& reads_variable(
                before.definitions,
                scope.variables[identifier],
                out->0,
                after.definitions,
            )
        },
        Term::Const { text } => {
            &&& out is Some
            &&& after == before
            &&& T::constant_code(code, scope.constants[text], out->0)
        },
        Term::Chain { side, ret } => {
            &&& out is Some
            &&& exists|first: Seq<Instruction>, dropped: Option<Value>, mid: Env, second: Seq<Instruction>|
                #![trigger chain_parts(first, dropped, mid, second)]
                {
                    &&& chain_parts(first, dropped, mid, second)
                    &&& lowers::<T>(*side, scope, before, first, dropped, mid)
                    &&& lowers::<T>(*ret, scope, mid, second, out, after)
                    &&& code == first + second
                }
        },
        Term::Call { identifier, args } => {
            &&& out is Some
            &&& exists|first: Seq<Instruction>, values: Seq<Value>, mid: Env, last: Seq<Instruction>|
                #![trigger call_parts(first, values, mid, last)]
                {
                    &&& call_parts(first, values, mid, last)
                    &&& lowers_each::<T>(args, scope, before, first, values, mid)
                    &&& calls(scope.registry, identifier, mid, last, values, out, after)
                    &&& code == first + last
                }
        },
        Term::Binary { op, lhs, rhs } => {
            &&& out is Some
            &&& exists|
                first: Seq<Instruction>,
                left: Value,
                mid: Env,
                second: Seq<Instruction>,
                right: Value,
                end: Env,
                last: Seq<Instruction>,
            |
                #![trigger binary_parts(first, left, mid, second, right, end, last)]
                {
                    &&& binary_parts(first, left, mid, second, right, end, last)
                    &&& lowers::<T>(*lhs, scope, before, first, Some(left), mid)
                    &&& lowers::<T>(*rhs, scope, mid, second, Some(right), end)
                    &&& applies::<T>(scope.registry, op, end, last, left, right, out, after)
                    &&& code == first + second + last
                }
        },
        Term::Unary { op, value } => {
            &&& out is Some
            &&& exists|first: Seq<Instruction>, operand: Value, last: Seq<Instruction>|
                #![trigger unary_parts(first, operand, last)]
                {
                    &&& unary_parts(first, operand, last)
                    &&& lowers::<T>(*value, scope, before, first, Some(operand), after)
                    &&& unary_code::<T>(op, last, operand, out->0)
                    &&& code == first + last
                }
        },
        Term::Assign { identifier, value } => {
            &&& out is None
            &&& exists|assigned: Value, mid: Env|
                #![trigger assign_parts(assigned, mid)]
                {
                    &&& assign_parts(assigned, mid)
                    &&& lowers::<T>(*value, scope, before, code, Some(assigned), mid)
                    &&& after == (Env {
                        definitions: mid.definitions.insert(scope.variables[identifier], assigned),
                        ..mid
                    })
                }
        },
    }
}

/// Whether `code` is the lowering of the terms `ts`, one after the other,
/// with `values` as their values.
pub open spec fn lowers_each<T: AnitaType>(
    ts: Seq<Term>,
    scope: Scope,
    before: Env,
    code: Seq<Instruction>,
    values: Seq<Value>,
    after: Env,
) -> bool
    decreases ts,
{
    if ts.len() == 0 {
        code.len() == 0 && values.len() == 0 && after == before
    } else {
        &&& values.len() == ts.len()
        &&& exists|first: Seq<Instruction>, mid: Env, last: Seq<Instruction>|
            #![trigger each_parts(first, mid, last)]
            {
                &&& each_parts(first, mid, last)
                &&& lowers_each::<T>(ts.drop_last(), scope, before, first, values.drop_last(), mid)
                &&& lowers::<T>(ts.last(), scope, mid, last, Some(values.last()), after)
                &&& code == first + last
            }
    }
}

/// The lowering of a term computes: each of its instructions is a constant,
/// a splat, float arithmetic, a rounding, a comparison or a call, yields a
/// value, and is followed by the next. No instruction of it branches, ends
/// the block, or reads or writes memory.
pub proof fn lemma_lowering_computes<T: AnitaType>(
    t: Term,
    scope: Scope,
    before: Env,
    code: Seq<Instruction>,
    out: Option<Value>,
    after: Env,
)
    requires
        lowers::<T>(t, scope, before, code, out, after),
    ensures
        computes(code),
    decreases t,
{
    match t {
        Term::Read { identifier } => {},
        Term::Const { text } => {
            T::lemma_constant_computes(code, scope.constants[text], out->0);
        },
        Term::Chain { side, ret } => {
            let (first, dropped, mid, second) = choose|
                first: Seq<Instruction>,
                dropped: Option<Value>,
                mid: Env,
                second: Seq<Instruction>,
            |
                #![trigger chain_parts(first, dropped, mid, second)]
                {
                    &&& chain_parts(first, dropped, mid, second)
                    &&& lowers::<T>(*side, scope, before, first, dropped, mid)
                    &&& lowers::<T>(*ret, scope, mid, second, out, after)
                    &&& code == first + second
                };
            lemma_lowering_computes::<T>(*side, scope, before, first, dropped, mid);
            lemma_lowering_computes::<T>(*ret, scope, mid, second, out, after);
            lemma_computes_both(first, second);
        },
        Term::Call { identifier, args } => {
            let (first, values, mid, last) = choose|
                first: Seq<Instruction>,
                values: Seq<Value>,
                mid: Env,
                last: Seq<Instruction>,
            |
                #![trigger call_parts(first, values, mid, last)]
                {
                    &&& call_parts(first, values, mid, last)
                    &&& lowers_each::<T>(args, scope, before, first, values, mid)
                    &&& calls(scope.registry, identifier, mid, last, values, out, after)
                    &&& code == first + last
                };
            lemma_each_computes::<T>(args, scope, before, first, values, mid);
            lemma_computes_both(first, last);
        },
        Term::Binary { op, lhs, rhs } => {
            let (first, left, mid, second, right, end, last) = choose|
                first: Seq<Instruction>,
                left: Value,
                mid: Env,
                second: Seq<Instruction>,
                right: Value,
                end: Env,
                last: Seq<Instruction>,
            |
                #![trigger binary_parts(first, left, mid, second, right, end, last)]
                {
                    &&& binary_parts(first, left, mid, second, right, end, last)
                    &&& lowers::<T>(*lhs, scope, before, first, Some(left), mid)
                    &&& lowers::<T>(*rhs, scope, mid, second, Some(right), end)
                    &&& applies::<T>(scope.registry, op, end, last, left, right, out, after)
                    &&& code == first + second + last
                };
            lemma_lowering_computes::<T>(*lhs, scope, before, first, Some(left), mid);
            lemma_lowering_computes::<T>(*rhs, scope, mid, second, Some(right), end);
            if op != BinaryOp::Exp {
                lemma_binary_computes::<T>(op, last, left, right, out->0);
            }
            lemma_computes_both(first, second);
            lemma_computes_both(first + second, last);
        },
        Term::Unary { op, value } => {
            let (first, operand, last) = choose|first: Seq<Instruction>, operand: Value, last: Seq<Instruction>|
                #![trigger unary_parts(first, operand, last)]
                {
                    &&& unary_parts(first, operand, last)
                    &&& lowers::<T>(*value, scope, before, first, Some(operand), after)
                    &&& unary_code::<T>(op, last, operand, out->0)
                    &&& code == first + last
                };
            lemma_lowering_computes::<T>(*value, scope, before, first, Some(operand), after);
            lemma_unary_computes::<T>(op, last, operand, out->0);
            lemma_computes_both(first, last);
        },
        Term::Assign { identifier, value } => {
            let (assigned, mid) = choose|assigned: Value, mid: Env|
                #![trigger assign_parts(assigned, mid)]
                {
                    &&& assign_parts(assigned, mid)
                    &&& lowers::<T>(*value, scope, before, code, Some(assigned), mid)
                    &&& after == (Env {
                        definitions: mid.definitions.insert(scope.variables[identifier], assigned),
                        ..mid
                    })
                };
            lemma_lowering_computes::<T>(*value, scope, before, code, Some(assigned), mid);
        },
    }
}

/// The lowering of a sequence of terms computes.
pub proof fn lemma_each_computes<T: AnitaType>(
    ts: Seq<Term>,
    scope: Scope,
    before: Env,
    code: Seq<Instruction>,
    values: Seq<Value>,
    after: Env,
)
    requires
        lowers_each::<T>(ts, scope, before, code, values, after),
    ensures
        computes(code),
    decreases ts,
{
    if ts.len() > 0 {
        let (first, mid, last) = choose|first: Seq<Instruction>, mid: Env, last: Seq<Instruction>|
            #![trigger each_parts(first, mid, last)]
            {
                &&& each_parts(first, mid, last)
                &&& lowers_each::<T>(ts.drop_last(), scope, before, first, values.drop_last(), mid)
                &&& lowers::<T>(ts.last(), scope, mid, last, Some(values.last()), after)
                &&& code == first + last
            };
        lemma_each_computes::<T>(ts.drop_last(), scope, before, first, values.drop_last(), mid);
        lemma_lowering_computes::<T>(ts.last(), scope, mid, last, Some(values.last()), after);
        lemma_computes_both(first, last);
    }
}

/// Whether the value of the term, if it has one, is of the element type:
/// a variable, a literal, a call, a power, and arithmetic on such a value.
/// A comparison and a logical operator give a truth value, which is of
/// another type, and so does arithmetic on one.
pub open spec fn element(t: Term) -> bool
    decreases t,
{
    match t {
        Term::Read { identifier } => true,
        Term::Const { text } => true,
        Term::Chain { side, ret } => element(*ret),
        Term::Call { identifier, args } => true,
        Term::Binary { op, lhs, rhs } => match op {
            BinaryOp::Exp => true,
            BinaryOp::Add | BinaryOp::Sub | BinaryOp::Mul | BinaryOp::Div | BinaryOp::Mod => element(*lhs),
            _ => false,
        },
        Term::Unary { op, value } => op == UnaryOp::Neg && element(*value),
        Term::Assign { identifier, value } => false,
    }
}

/// What stops a lowering.
pub ghost enum Failure {
    /// A place that needs a value holds a term that has none.
    NoValue { term: Term },
    /// A call names a function that was not imported and that the registry
    /// does not know.
    FunctionNotFound { identifier: Seq<char> },
    /// The module refused the declaration of a function that a call
    /// imports.
    Refused { error: ModuleError },
    /// The variable `identifier` is assigned a value that is not of the
    /// element type.
    TypeMismatch { identifier: Seq<char> },
}

/// The first failure that the lowering of `t` meets, in the order of
/// evaluation. `blocked` holds the names of the functions that cannot be
/// called, each with the failure that its call meets.
pub open spec fn failure(t: Term, blocked: Map<Seq<char>, Failure>) -> Option<Failure>
    decreases t, 0nat,
{
    match t {
        Term::Read { identifier } => None,
        Term::Const { text } => None,
        Term::Chain { side, ret } => match failure(*side, blocked) {
            Some(f) => Some(f),
            None => value_failure(*ret, blocked),
        },
        Term::Call { identifier, args } => match each_failure(args, blocked) {
            Some(f) => Some(f),
            None => if blocked.contains_key(identifier) {
                Some(blocked[identifier])
            } else {
                None
            },
        },
        Term::Binary { op, lhs, rhs } => match value_failure(*lhs, blocked) {
            Some(f) => Some(f),
            None => match value_failure(*rhs, blocked) {
                Some(f) => Some(f),
                None => if op == BinaryOp::Exp && blocked.contains_key(power()) {
                    Some(blocked[power()])
                } else {
                    None
                },
            },
        },
        Term::Unary { op, value } => value_failure(*value, blocked),
        Term::Assign { identifier, value } => match value_failure(*value, blocked) {
            Some(f) => Some(f),
            None => if element(*value) {
                None
            } else {
                Some(Failure::TypeMismatch { identifier })
            },
        },
    }
}

/// The first failure that the lowering of `t` meets where its value is needed.
pub open spec fn value_failure(t: Term, blocked: Map<Seq<char>, Failure>) -> Option<Failure>
    decreases t, 1nat,
{
    match failure(t, blocked) {
        Some(f) => Some(f),
        None => if t is Assign {
            Some(Failure::NoValue { term: t })
        } else {
            None
        },
    }
}

/// The first failure among the terms of a sequence, each of which must have a
/// value.
pub open spec fn each_failure(ts: Seq<Term>, blocked: Map<Seq<char>, Failure>) -> Option<Failure>
    decreases ts, 0nat,
{
    if ts.len() == 0 {
        None
    } else {
        match each_failure(ts.drop_last(), blocked) {
            Some(f) => Some(f),
            None => value_failure(ts.last(), blocked),
        }
    }
}

/// A term without a call, a power or an assignment has no failure: its
/// lowering succeeds.
pub proof fn lemma_plain_term_has_no_failure(t: Term, blocked: Map<Seq<char>, Failure>)
    requires
        plain(t),
    ensures
        failure(t, blocked) is None,
        value_failure(t, blocked) is None,
    decreases t,
{
    match t {
        Term::Read { identifier } => {},
        Term::Const { text } => {},
        Term::Chain { side, ret } => {
            lemma_plain_term_has_no_failure(*side, blocked);
            lemma_plain_term_has_no_failure(*ret, blocked);
        },
        Term::Call { identifier, args } => {},
        Term::Binary { op, lhs, rhs } => {
            lemma_plain_term_has_no_failure(*lhs, blocked);
            lemma_plain_term_has_no_failure(*rhs, blocked);
        },
        Term::Unary { op, value } => {
            lemma_plain_term_has_no_failure(*value, blocked);
        },
        Term::Assign { identifier, value } => {},
    }
}

/// Whether the term holds no call, no power and no assignment.
pub open spec fn plain(t: Term) -> bool
    decreases t,
{
    match t {
        Term::Read { identifier } => true,
        Term::Const { text } => true,
        Term::Chain { side, ret } => plain(*side) && plain(*ret),
        Term::Call { identifier, args } => false,
        Term::Binary { op, lhs, rhs } => op != BinaryOp::Exp && plain(*lhs) && plain(*rhs),
        Term::Unary { op, value } => plain(*value),
        Term::Assign { identifier, value } => false,
    }
}

} // verus!
