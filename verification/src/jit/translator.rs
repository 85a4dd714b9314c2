//! The lowering of expressions into the instructions of a function under
//! construction.

use cranelift::codegen::ir::FuncRef;
use cranelift::prelude::FunctionBuilder;
use cranelift::prelude::isa::CallConv;
use cranelift::prelude::Signature;
use cranelift::prelude::Type;
use cranelift::prelude::Value;
use cranelift::prelude::Variable;
use cranelift_jit::JITModule;
use cranelift_module::Linkage;
use cranelift_module::ModuleError;
use std::marker::PhantomData;
use super::backend::declare_func_in_func;
use super::backend::declare_function;
use super::backend::default_call_conv;
use super::backend::new_signature;
use super::backend::blank;
use super::backend::convention;
use super::backend::declared;
use super::backend::defined;
use super::backend::parameter_types;
use super::backend::refusal;
use super::backend::return_types;
use super::backend::with_parameter;
use super::backend::with_return;
use super::backend::push_signature_parameter;
use super::backend::push_signature_return;
use super::frontend::ast::binary;
use super::frontend::ast::BinaryOp;
use super::frontend::ast::Expr;
use super::frontend::ast::Term;
use super::frontend::ast::terms_of;
use super::frontend::ast::UnaryOp;
use super::frontend::scope::lemma_concat_contains;
use super::frontend::scope::literals;
use super::frontend::scope::literals_each;
use super::frontend::scope::mentions;
use super::frontend::scope::mentions_each;
use super::ir::BuilderState;
use super::ir::define_var;
use super::ir::emit_call;
use super::ir::Instruction;
use super::ir::is_float;
use super::ir::Operation;
use super::ir::state;
use super::ir::use_var;
use super::lowering::applies;
use super::lowering::assign_parts;
use super::lowering::binary_parts;
use super::lowering::call_parts;
use super::lowering::calls;
use super::lowering::chain_parts;
use super::lowering::each_failure;
use super::lowering::each_parts;
use super::lowering::element;
use super::lowering::Env;
use super::lowering::failure;
use super::lowering::Failure;
use super::lowering::lowers;
use super::lowering::lowers_each;
use super::lowering::reads_variable;
use super::lowering::Scope;
use super::lowering::unary_parts;
use super::lowering::value_failure;
use super::table::Table;
use super::types::AnitaType;
use super::types::appended_only;
use super::types::binary_code;
use super::types::unary_code;
use vstd::pervasive::unreached;
use vstd::prelude::*;
use vstd::string::StringExecFns;

verus! {

/// Why an expression could not be lowered.
#[derive(Debug)]
pub enum TranslatorError {
    /// A place that needs a value holds an expression that has none.
    ExpressionEvaluatesToNoValue(Expr),
    /// A call names a function that the registry does not know.
    FunctionNotFound(String),
    /// The code generator refused a declaration.
    ModuleError(ModuleError),
    /// The code generator refused the value of an assignment: it has another
    /// type than the variable of that name.
    TypeMismatch(String),
}

impl TranslatorError {
    /// The failure that the error reports.
    pub open spec fn view(&self) -> Failure {
        match self {
            TranslatorError::ExpressionEvaluatesToNoValue(expr) => Failure::NoValue { term: expr@ },
            TranslatorError::FunctionNotFound(identifier) => Failure::FunctionNotFound {
                identifier: identifier@,
            },
            TranslatorError::ModuleError(error) => Failure::Refused { error: *error },
            TranslatorError::TypeMismatch(identifier) => Failure::TypeMismatch {
                identifier: identifier@,
            },
        }
    }
}

/// The signature that takes `arity` values of type `ty` under a calling
/// convention and returns nothing.
pub open spec fn taking(ty: Type, arity: nat, convention: CallConv) -> Signature
    decreases arity,
{
    if arity == 0 {
        blank(convention)
    } else {
        with_parameter(taking(ty, (arity - 1) as nat, convention), ty)
    }
}

/// The signature of a function that takes `arity` values of type `ty` and
/// returns one.
pub open spec fn uniform(ty: Type, arity: nat, convention: CallConv) -> Signature {
    with_return(taking(ty, arity, convention), ty)
}

/// The failure that the import of the function `name` into a function under
/// construction meets: the registry does not know the name, or the module
/// refuses the declaration of an imported function of that name with the
/// signature that the registry gives it.
pub open spec fn import_failure(
    ty: Type,
    registry: Map<Seq<char>, usize>,
    module: &JITModule,
    name: Seq<char>,
) -> Option<Failure> {
    if !registry.contains_key(name) {
        Some(Failure::FunctionNotFound { identifier: name })
    } else {
        match refusal(
            module,
            name,
            Linkage::Import,
            uniform(ty, registry[name] as nat, convention(module)),
        ) {
            Some(error) => Some(Failure::Refused { error }),
            None => None,
        }
    }
}

/// Whether a module went from `before` to `after` by declarations of
/// functions of the registry only: it has defined nothing, and under a name
/// that is not in the registry it refuses and accepts what it did before.
pub open spec fn imported_only(
    registry: Map<Seq<char>, usize>,
    before: &JITModule,
    after: &JITModule,
) -> bool {
    &&& convention(after) == convention(before)
    &&& declared(before).subset_of(declared(after))
    &&& defined(after) == defined(before)
    &&& forall|name: Seq<char>, linkage: Linkage, signature: Signature|
        #![trigger refusal(after, name, linkage, signature)]
        !registry.contains_key(name) ==> refusal(after, name, linkage, signature) == refusal(
            before,
            name,
            linkage,
            signature,
        )
}

/// Whether the scope has a variable for each name and the bits of each
/// literal of the term.
pub open spec fn covers(scope: Scope, t: Term) -> bool
    decreases t,
{
    match t {
        Term::Read { identifier } => scope.variables.contains_key(identifier),
        Term::Const { text } => scope.constants.contains_key(text),
        Term::Chain { side, ret } => covers(scope, *side) && covers(scope, *ret),
        Term::Call { identifier, args } => forall|i: int|
            0 <= i < args.len() ==> covers(scope, #[trigger] args[i]),
        Term::Binary { op, lhs, rhs } => covers(scope, *lhs) && covers(scope, *rhs),
        Term::Unary { op, value } => covers(scope, *value),
        Term::Assign { identifier, value } => scope.variables.contains_key(identifier) && covers(
            scope,
            *value,
        ),
    }
}

/// Whether a builder went from `before` to `after` by appending instructions
/// and by changing what its variables stand for and what it has imported.
/// What it had handed out and imported before is as it was.
pub open spec fn advanced(before: BuilderState, after: BuilderState) -> bool {
    &&& after == (BuilderState {
        appended: before.appended + after.since(before),
        values: after.values,
        types: after.types,
        definitions: after.definitions,
        functions: after.functions,
        ..before
    })
    &&& before.values.subset_of(after.values)
    &&& before.keeps_types(after)
    &&& before.functions.submap_of(after.functions)
}

/// The lowering of expressions into a function under construction: the
/// variable of each name, the functions imported so far, and the bits of the
/// literals.
pub struct ExprTranslator<'a, T: AnitaType> {
    /// The variable of each name.
    pub variables: Table<Variable>,
    /// The functions imported so far, each with its number of parameters.
    pub functions: Table<(FuncRef, usize)>,
    /// The IEEE bits of each literal.
    pub constants: Table<u32>,
    /// The functions that a call may import, each with its number of
    /// parameters.
    pub registry: &'a Table<usize>,
    pub _type: PhantomData<T>,
}

/// The two operands of an expression with a two-operand operator.
fn operands(expr: &Expr) -> (parts: Option<(BinaryOp, &Expr, &Expr)>)
    ensures
        match parts {
            Some((op, lhs, rhs)) => {
                &&& expr@ == binary(op, lhs@, rhs@)
                &&& decreases_to!(*expr => *lhs)
                &&& decreases_to!(*expr => *rhs)
            },
            None => !(expr@ is Binary),
        },
{
    match expr {
        Expr::Add { lhs, rhs } => Some((BinaryOp::Add, lhs, rhs)),
        Expr::Sub { lhs, rhs } => Some((BinaryOp::Sub, lhs, rhs)),
        Expr::Mul { lhs, rhs } => Some((BinaryOp::Mul, lhs, rhs)),
        Expr::Div { lhs, rhs } => Some((BinaryOp::Div, lhs, rhs)),
        Expr::Mod { lhs, rhs } => Some((BinaryOp::Mod, lhs, rhs)),
        Expr::Exp { lhs, rhs } => Some((BinaryOp::Exp, lhs, rhs)),
        Expr::Eq { lhs, rhs } => Some((BinaryOp::Eq, lhs, rhs)),
        Expr::Neq { lhs, rhs } => Some((BinaryOp::Neq, lhs, rhs)),
        Expr::Gt { lhs, rhs } => Some((BinaryOp::Gt, lhs, rhs)),
        Expr::Lt { lhs, rhs } => Some((BinaryOp::Lt, lhs, rhs)),
        Expr::Geq { lhs, rhs } => Some((BinaryOp::Geq, lhs, rhs)),
        Expr::Leq { lhs, rhs } => Some((BinaryOp::Leq, lhs, rhs)),
        Expr::And { lhs, rhs } => Some((BinaryOp::And, lhs, rhs)),
        Expr::Or { lhs, rhs } => Some((BinaryOp::Or, lhs, rhs)),
        _ => None,
    }
}

impl<'a, T: AnitaType> ExprTranslator<'a, T> {
    /// What stays the same during a lowering.
    pub open spec fn scope(&self) -> Scope {
        Scope { variables: self.variables@, constants: self.constants@, registry: self.registry@ }
    }

    /// What a lowering may change, for a builder in the state `st`.
    pub open spec fn env(&self, st: BuilderState) -> Env {
        Env { definitions: st.definitions, functions: self.functions@ }
    }

    /// The names of the functions that a call cannot reach through the
    /// module, each with the failure that the call meets.
    pub open spec fn blocked(&self, module: &JITModule) -> Map<Seq<char>, Failure> {
        Map::new(
            |name: Seq<char>|
                !self.functions@.contains_key(name) && import_failure(
                    T::repr(),
                    self.registry@,
                    module,
                    name,
                ) is Some,
            |name: Seq<char>| import_failure(T::repr(), self.registry@, module, name)->0,
        )
    }

    /// Whether the translator fits a builder in the state `st`: the builder
    /// takes instructions, its variables are of the element type, its
    /// imported functions return one value of that type, and what a variable
    /// stands for is a value of that type.
    pub open spec fn wf(&self, st: BuilderState) -> bool {
        &&& self.variables.wf()
        &&& self.functions.wf()
        &&& self.constants.wf()
        &&& self.registry.wf()
        &&& st.open()
        &&& is_float(T::repr())
        &&& forall|name: Seq<char>| #[trigger]
            self.variables@.contains_key(name) ==> st.variables.contains_key(self.variables@[name])
                && st.variables[self.variables@[name]] == T::repr()
        &&& forall|name: Seq<char>| #[trigger]
            self.functions@.contains_key(name) ==> st.functions.contains_key(self.functions@[name].0)
                && st.functions[self.functions@[name].0] == seq![T::repr()]
        &&& st.settled()
    }

    /// Whether a lowering of `t` that began with the translator `self` and a
    /// builder in the state `st0` ended well with the translator `end`, a
    /// builder in the state `st1` and the value `out`. The value of a term
    /// is of the element type exactly if the term is an `element`.
    pub open spec fn lowered(&self, st0: BuilderState, t: Term, out: Option<Value>, end: &Self, st1: BuilderState) -> bool {
        &&& end.wf(st1)
        &&& advanced(st0, st1)
        &&& lowers::<T>(t, self.scope(), self.env(st0), st1.since(st0), out, end.env(st1))
        &&& out is Some ==> st1.values.contains(out->0)
        &&& out is Some ==> if element(t) {
            st1.types[out->0] == T::repr()
        } else {
            !is_float(st1.types[out->0])
        }
        &&& (out is None <==> t is Assign)
    }

    /// What a lowering of `t` owes, from the translator `self`, a builder in
    /// the state `st0` and the module `before` to the translator `end`, a
    /// builder in the state `st1` and the module `after`: it succeeds
    /// exactly if the term has no failure, and then the builder holds the
    /// lowering of the term; else it reports the first failure of the term.
    /// Either way the builder has only gone on from where it was, the
    /// translator fits it, and the module has only declared functions of
    /// the registry.
    pub open spec fn translated(
        &self,
        st0: BuilderState,
        before: &JITModule,
        t: Term,
        result: Result<Option<Value>, TranslatorError>,
        end: &Self,
        st1: BuilderState,
        after: &JITModule,
    ) -> bool {
        &&& end.scope() == self.scope()
        &&& end.variables == self.variables
        &&& end.wf(st1)
        &&& advanced(st0, st1)
        &&& imported_only(self.registry@, before, after)
        &&& match result {
            Ok(out) => {
                &&& self.lowered(st0, t, out, end, st1)
                &&& failure(t, self.blocked(before)) is None
                &&& end.blocked(after) == self.blocked(before)
            },
            Err(e) => failure(t, self.blocked(before)) == Some(e@),
        }
    }

    /// What a lowering of `t` owes where the value of `t` is needed.
    pub open spec fn evaluated(
        &self,
        st0: BuilderState,
        before: &JITModule,
        t: Term,
        result: Result<Value, TranslatorError>,
        end: &Self,
        st1: BuilderState,
        after: &JITModule,
    ) -> bool {
        &&& end.scope() == self.scope()
        &&& end.variables == self.variables
        &&& end.wf(st1)
        &&& advanced(st0, st1)
        &&& imported_only(self.registry@, before, after)
        &&& match result {
            Ok(value) => {
                &&& self.lowered(st0, t, Some(value), end, st1)
                &&& value_failure(t, self.blocked(before)) is None
                &&& end.blocked(after) == self.blocked(before)
            },
            Err(e) => value_failure(t, self.blocked(before)) == Some(e@),
        }
    }

    /// The signature of a function of the host that takes `arity` values of
    /// the element type and returns one, under the calling convention of the
    /// module's target.
    pub fn signature(module: &JITModule, arity: usize) -> (signature: Signature)
        ensures
            signature == uniform(T::repr(), arity as nat, convention(module)),
            parameter_types(signature) == Seq::new(arity as nat, |i: int| T::repr()),
            return_types(signature) == seq![T::repr()],
    {
        let mut signature = new_signature(default_call_conv(module));
        let mut i: usize = 0;
        while i < arity
            invariant
                i <= arity,
                signature == taking(T::repr(), i as nat, convention(module)),
                parameter_types(signature) == Seq::new(i as nat, |k: int| T::repr()),
                return_types(signature) == Seq::<Type>::empty(),
            decreases arity - i,
        {
            push_signature_parameter(&mut signature, T::cranelift_repr());
            i += 1;
            assert(parameter_types(signature) =~= Seq::new(i as nat, |k: int| T::repr()));
        }
        push_signature_return(&mut signature, T::cranelift_repr());
        assert(return_types(signature) =~= seq![T::repr()]);
        signature
    }

    /// The function of the name `identifier`: the one imported under that
    /// name, which is found again without a word to the module, or else the
    /// one that the registry has under it, which is declared in the module
    /// as an imported function and imported into the function under
    /// construction. A name that is neither imported nor in the registry is
    /// not found, and one that the module refuses is reported with the
    /// module's error; the translator and the builder are then as before.
    fn declare_function(
        &mut self,
        builder: &mut FunctionBuilder,
        module: &mut JITModule,
        identifier: &String,
    ) -> (result: Result<(FuncRef, usize), TranslatorError>)
        requires
            old(self).wf(state(old(builder))),
        ensures
            final(self).scope() == old(self).scope(),
            final(self).variables == old(self).variables,
            final(self).wf(state(final(builder))),
            imported_only(old(self).registry@, old(module), final(module)),
            match result {
                Ok(entry) => {
                    &&& !old(self).blocked(old(module)).contains_key(identifier@)
                    &&& final(self).blocked(final(module)) == old(self).blocked(old(module))
                    &&& final(self).functions@.contains_key(identifier@)
                    &&& final(self).functions@[identifier@] == entry
                    &&& if old(self).functions@.contains_key(identifier@) {
                        &&& entry == old(self).functions@[identifier@]
                        &&& final(self).functions@ == old(self).functions@
                        &&& state(final(builder)) == state(old(builder))
                        &&& *final(module) == *old(module)
                    } else {
                        &&& entry.1 == old(self).registry@[identifier@]
                        &&& final(self).functions@ == old(self).functions@.insert(identifier@, entry)
                        &&& !state(old(builder)).functions.contains_key(entry.0)
                        &&& state(final(builder)) == (BuilderState {
                            functions: state(old(builder)).functions.insert(entry.0, seq![T::repr()]),
                            ..state(old(builder))
                        })
                    }
                },
                Err(e) => {
                    &&& old(self).blocked(old(module)).contains_key(identifier@)
                    &&& e@ == old(self).blocked(old(module))[identifier@]
                    &&& final(self).functions@ == old(self).functions@
                    &&& state(final(builder)) == state(old(builder))
                    &&& declared(final(module)) == declared(old(module))
                    &&& !old(self).registry@.contains_key(identifier@) ==> *final(module) == *old(module)
                },
            },
    {
        match self.functions.get(identifier) {
            Some(entry) => Ok(entry),
            None => {
                match self.registry.get(identifier) {
                    None => Err(TranslatorError::FunctionNotFound(identifier.clone())),
                    Some(arity) => {
                        let signature = Self::signature(module, arity);
                        match declare_function(module, identifier.as_str(), Linkage::Import, &signature) {
                            Err(e) => Err(TranslatorError::ModuleError(e)),
                            Ok(id) => {
                                let callee = declare_func_in_func(module, id, builder);
                                let entry = (callee, arity);
                                self.functions.insert(identifier.clone(), entry);
                                assert(self.blocked(module) =~= old(self).blocked(old(module)));
                                Ok(entry)
                            },
                        }
                    },
                }
            },
        }
    }

    /// Appends a call of the function `identifier` with `arguments`. `whole`
    /// is the expression that the call stands for.
    fn function_call(
        &mut self,
        builder: &mut FunctionBuilder,
        module: &mut JITModule,
        identifier: &String,
        arguments: &Vec<Value>,
        whole: &Expr,
    ) -> (result: Result<Value, TranslatorError>)
        requires
            old(self).wf(state(old(builder))),
            state(old(builder)).knows(arguments@),
            !(whole@ is Assign),
        ensures
            final(self).scope() == old(self).scope(),
            final(self).variables == old(self).variables,
            final(self).wf(state(final(builder))),
            advanced(state(old(builder)), state(final(builder))),
            imported_only(old(self).registry@, old(module), final(module)),
            match result {
                Ok(value) => {
                    &&& state(final(builder)).values.contains(value)
                    &&& state(final(builder)).types[value] == T::repr()
                    &&& !old(self).blocked(old(module)).contains_key(identifier@)
                    &&& final(self).blocked(final(module)) == old(self).blocked(old(module))
                    &&& calls(
                        old(self).registry@,
                        identifier@,
                        old(self).env(state(old(builder))),
                        state(final(builder)).since(state(old(builder))),
                        arguments@,
                        Some(value),
                        final(self).env(state(final(builder))),
                    )
                },
                Err(e) => {
                    &&& old(self).blocked(old(module)).contains_key(identifier@)
                    &&& e@ == old(self).blocked(old(module))[identifier@]
                },
            },
    {
        let ghost st0 = state(builder);
        let (callee, _) = match self.declare_function(builder, module, identifier) {
            Ok(entry) => entry,
            Err(e) => {
                proof {
                    lemma_advanced_nowhere(st0);
                }
                return Err(e);
            },
        };
        let ghost st1 = state(builder);
        match emit_call(builder, callee, arguments) {
            Some(value) => {
                proof {
                    let st2 = state(builder);
                    let instruction = Instruction {
                        operation: Operation::Call { callee },
                        arguments: arguments@,
                        result: Some(value),
                    };
                    assert(st2.appended == st1.appended.push(instruction));
                    assert(st2.since(st0) =~= seq![instruction]);
                    assert(st0.appended + st2.since(st0) =~= st2.appended);
                }
                Ok(value)
            },
            None => {
                // An imported function returns a value.
                proof {
                    assert(st1.functions[callee] == seq![T::repr()]);
                    assert(false);
                }
                Err(TranslatorError::ExpressionEvaluatesToNoValue(whole.clone()))
            },
        }
    }

    /// Appends what the operator `op` of the element type does with `left`
    /// and `right`. Exponentiation is not among these operators.
    fn apply(op: BinaryOp, builder: &mut FunctionBuilder, left: Value, right: Value) -> (result: Value)
        requires
            op != BinaryOp::Exp,
            state(old(builder)).open(),
            state(old(builder)).values.contains(left),
            state(old(builder)).values.contains(right),
        ensures
            appended_only(state(old(builder)), state(final(builder)), result),
            binary_code::<T>(
                op,
                state(final(builder)).since(state(old(builder))),
                left,
                right,
                result,
            ),
            match op {
                BinaryOp::Add | BinaryOp::Sub | BinaryOp::Mul | BinaryOp::Div | BinaryOp::Mod => state(
                    final(builder),
                ).types[result] == state(old(builder)).types[left],
                _ => !is_float(state(final(builder)).types[result]),
            },
    {
        match op {
            BinaryOp::Add => T::add(builder, left, right),
            BinaryOp::Sub => T::sub(builder, left, right),
            BinaryOp::Mul => T::mul(builder, left, right),
            BinaryOp::Div => T::div(builder, left, right),
            BinaryOp::Mod => T::modulo(builder, left, right),
            BinaryOp::Eq => T::eq(builder, left, right),
            BinaryOp::Neq => T::neq(builder, left, right),
            BinaryOp::Gt => T::gt(builder, left, right),
            BinaryOp::Lt => T::lt(builder, left, right),
            BinaryOp::Geq => T::geq(builder, left, right),
            BinaryOp::Leq => T::leq(builder, left, right),
            BinaryOp::And => T::and(builder, left, right),
            _ => T::or(builder, left, right),
        }
    }

    /// Lowers `expr` into the builder and returns its value. An assignment
    /// has none.
    ///
    /// The instructions of the parts of the expression are appended in the
    /// order of evaluation, and each takes the values that its operands left.
    /// The lowering stops at the first failure of the expression, and
    /// succeeds where it has none.
    pub fn translate(&mut self, builder: &mut FunctionBuilder, module: &mut JITModule, expr: &Expr) -> (result:
        Result<Option<Value>, TranslatorError>)
        requires
            old(self).wf(state(old(builder))),
            covers(old(self).scope(), expr@),
        ensures
            old(self).translated(
                state(old(builder)),
                old(module),
                expr@,
                result,
                final(self),
                state(final(builder)),
                final(module),
            ),
        decreases expr, 1nat,
    {
        if let Some((op, lhs, rhs)) = operands(expr) {
            return self.translate_binary(builder, module, expr, op, lhs, rhs);
        }
        match expr {
            Expr::VariableRead { identifier } => {
                let ghost st0 = state(builder);
                let variable = match self.variables.get(identifier) {
                    Some(variable) => variable,
                    None => unreached(),
                };
                let value = use_var(builder, variable);
                proof {
                    let st1 = state(builder);
                    assert(st1.since(st0) =~= Seq::<Instruction>::empty());
                    assert(st0.appended + st1.since(st0) =~= st1.appended);
                    assert(reads_variable(st0.definitions, variable, value, st1.definitions));
                }
                Ok(Some(value))
            },
            Expr::Const { value } => {
                let ghost st0 = state(builder);
                let bits = match self.constants.get(value) {
                    Some(bits) => bits,
                    None => unreached(),
                };
                let constant = T::constant(builder, bits);
                Ok(Some(constant))
            },
            Expr::Chain { side, ret } => self.translate_chain(builder, module, expr, side, ret),
            Expr::Call { identifier, args } => self.translate_call(builder, module, expr, identifier, args),
            Expr::Neg { value } => self.translate_unary(builder, module, expr, UnaryOp::Neg, value),
            Expr::Not { value } => self.translate_unary(builder, module, expr, UnaryOp::Not, value),
            Expr::Assign { identifier, value } => self.translate_assign(builder, module, expr, identifier, value),
            _ => unreached(),
        }
    }

    /// Lowers `expr` where its value is needed.
    fn get_value(&mut self, builder: &mut FunctionBuilder, module: &mut JITModule, expr: &Expr) -> (result:
        Result<Value, TranslatorError>)
        requires
            old(self).wf(state(old(builder))),
            covers(old(self).scope(), expr@),
        ensures
            old(self).evaluated(
                state(old(builder)),
                old(module),
                expr@,
                result,
                final(self),
                state(final(builder)),
                final(module),
            ),
        decreases expr, 2nat,
    {
        match self.translate(builder, module, expr) {
            Ok(Some(value)) => Ok(value),
            Ok(None) => Err(TranslatorError::ExpressionEvaluatesToNoValue(expr.clone())),
            Err(e) => Err(e),
        }
    }

    /// Lowers the sequence `side; ret`: `side` for what it assigns, then
    /// `ret` for its value.
    fn translate_chain(
        &mut self,
        builder: &mut FunctionBuilder,
        module: &mut JITModule,
        expr: &Expr,
        side: &Expr,
        ret: &Expr,
    ) -> (result: Result<Option<Value>, TranslatorError>)
        requires
            old(self).wf(state(old(builder))),
            covers(old(self).scope(), expr@),
            expr@ == (Term::Chain { side: Box::new(side@), ret: Box::new(ret@) }),
            decreases_to!(*expr => *side),
            decreases_to!(*expr => *ret),
        ensures
            old(self).translated(
                state(old(builder)),
                old(module),
                expr@,
                result,
                final(self),
                state(final(builder)),
                final(module),
            ),
        decreases expr, 0nat,
    {
        let ghost st0 = state(builder);
        let ghost env0 = self.env(st0);
        let dropped = match self.translate(builder, module, side) {
            Ok(dropped) => dropped,
            Err(e) => {
                return Err(e);
            },
        };
        let ghost st1 = state(builder);
        let ghost env1 = self.env(st1);
        let value = match self.get_value(builder, module, ret) {
            Ok(value) => value,
            Err(e) => {
                proof {
                    lemma_advanced_twice(st0, st1, state(builder));
                }
                return Err(e);
            },
        };
        proof {
            let st2 = state(builder);
            let first = st1.since(st0);
            let second = st2.since(st1);
            lemma_imports_stay(st0, st1, st2);
            assert(st2.since(st0) =~= first + second);
            assert(st0.appended + st2.since(st0) =~= st2.appended);
            assert(lowers::<T>(side@, old(self).scope(), env0, first, dropped, env1));
            assert(lowers::<T>(ret@, old(self).scope(), env1, second, Some(value), self.env(st2)));
            assert(chain_parts(first, dropped, env1, second));
            assert(lowers::<T>(expr@, old(self).scope(), env0, st2.since(st0), Some(value), self.env(st2)));
        }
        Ok(Some(value))
    }

    /// Lowers the application of a two-operand operator: the left operand,
    /// the right operand, and then the operator on their values.
    fn translate_binary(
        &mut self,
        builder: &mut FunctionBuilder,
        module: &mut JITModule,
        expr: &Expr,
        op: BinaryOp,
        lhs: &Expr,
        rhs: &Expr,
    ) -> (result: Result<Option<Value>, TranslatorError>)
        requires
            old(self).wf(state(old(builder))),
            covers(old(self).scope(), expr@),
            expr@ == binary(op, lhs@, rhs@),
            decreases_to!(*expr => *lhs),
            decreases_to!(*expr => *rhs),
        ensures
            old(self).translated(
                state(old(builder)),
                old(module),
                expr@,
                result,
                final(self),
                state(final(builder)),
                final(module),
            ),
        decreases expr, 0nat,
    {
        let ghost st0 = state(builder);
        let ghost env0 = self.env(st0);
        let left = match self.get_value(builder, module, lhs) {
            Ok(value) => value,
            Err(e) => {
                return Err(e);
            },
        };
        let ghost st1 = state(builder);
        let ghost env1 = self.env(st1);
        let right = match self.get_value(builder, module, rhs) {
            Ok(value) => value,
            Err(e) => {
                proof {
                    lemma_advanced_twice(st0, st1, state(builder));
                }
                return Err(e);
            },
        };
        let ghost st2 = state(builder);
        let ghost env2 = self.env(st2);
        let value = match op {
            BinaryOp::Exp => {
                let name = String::from_str("inbuilt_pow");
                let mut arguments: Vec<Value> = Vec::new();
                arguments.push(left);
                arguments.push(right);
                assert(arguments@ =~= seq![left, right]);
                match self.function_call(builder, module, &name, &arguments, expr) {
                    Ok(value) => value,
                    Err(e) => {
                        proof {
                            lemma_advanced_twice(st0, st1, st2);
                            lemma_advanced_twice(st0, st2, state(builder));
                        }
                        return Err(e);
                    },
                }
            },
            _ => Self::apply(op, builder, left, right),
        };
        proof {
            let st3 = state(builder);
            let first = st1.since(st0);
            let second = st2.since(st1);
            let last = st3.since(st2);
            lemma_imports_stay(st0, st1, st2);
            lemma_imports_stay(st0, st2, st3);
            assert(st3.since(st0) =~= first + second + last);
            assert(st0.appended + st3.since(st0) =~= st3.appended);
            assert(lowers::<T>(lhs@, old(self).scope(), env0, first, Some(left), env1));
            assert(lowers::<T>(rhs@, old(self).scope(), env1, second, Some(right), env2));
            assert(applies::<T>(old(self).registry@, op, env2, last, left, right, Some(value), self.env(st3)));
            assert(binary_parts(first, left, env1, second, right, env2, last));
            assert(lowers::<T>(expr@, old(self).scope(), env0, st3.since(st0), Some(value), self.env(st3)));
        }
        Ok(Some(value))
    }

    /// Lowers the application of a one-operand operator.
    fn translate_unary(
        &mut self,
        builder: &mut FunctionBuilder,
        module: &mut JITModule,
        expr: &Expr,
        op: UnaryOp,
        operand: &Expr,
    ) -> (result: Result<Option<Value>, TranslatorError>)
        requires
            old(self).wf(state(old(builder))),
            covers(old(self).scope(), expr@),
            expr@ == (Term::Unary { op, value: Box::new(operand@) }),
            decreases_to!(*expr => *operand),
        ensures
            old(self).translated(
                state(old(builder)),
                old(module),
                expr@,
                result,
                final(self),
                state(final(builder)),
                final(module),
            ),
        decreases expr, 0nat,
    {
        let ghost st0 = state(builder);
        let ghost env0 = self.env(st0);
        let value = match self.get_value(builder, module, operand) {
            Ok(value) => value,
            Err(e) => {
                return Err(e);
            },
        };
        let ghost st1 = state(builder);
        let result = match op {
            UnaryOp::Neg => T::neg(builder, value),
            UnaryOp::Not => T::not(builder, value),
        };
        proof {
            let st2 = state(builder);
            let first = st1.since(st0);
            let last = st2.since(st1);
            assert(st2.since(st0) =~= first + last);
            assert(st0.appended + st2.since(st0) =~= st2.appended);
            assert(lowers::<T>(operand@, old(self).scope(), env0, first, Some(value), self.env(st1)));
            assert(unary_code::<T>(op, last, value, result));
            assert(self.env(st2) == self.env(st1));
            assert(unary_parts(first, value, last));
            assert(lowers::<T>(expr@, old(self).scope(), env0, st2.since(st0), Some(result), self.env(st2)));
        }
        Ok(Some(result))
    }

    /// Lowers the assignment of `value` to the variable `identifier`.
    fn translate_assign(
        &mut self,
        builder: &mut FunctionBuilder,
        module: &mut JITModule,
        expr: &Expr,
        identifier: &String,
        value: &Expr,
    ) -> (result: Result<Option<Value>, TranslatorError>)
        requires
            old(self).wf(state(old(builder))),
            covers(old(self).scope(), expr@),
            expr@ == (Term::Assign { identifier: identifier@, value: Box::new(value@) }),
            decreases_to!(*expr => *value),
        ensures
            old(self).translated(
                state(old(builder)),
                old(module),
                expr@,
                result,
                final(self),
                state(final(builder)),
                final(module),
            ),
        decreases expr, 0nat,
    {
        let ghost st0 = state(builder);
        let ghost env0 = self.env(st0);
        let variable = match self.variables.get(identifier) {
            Some(variable) => variable,
            None => unreached(),
        };
        let assigned = match self.get_value(builder, module, value) {
            Ok(assigned) => assigned,
            Err(e) => {
                return Err(e);
            },
        };
        let ghost st1 = state(builder);
        if !define_var(builder, variable, assigned) {
            return Err(TranslatorError::TypeMismatch(identifier.clone()));
        }
        proof {
            let st2 = state(builder);
            assert(st2.since(st0) =~= st1.since(st0));
            assert(st0.appended + st2.since(st0) =~= st2.appended);
            assert(lowers::<T>(value@, old(self).scope(), env0, st1.since(st0), Some(assigned), self.env(st1)));
            assert(self.env(st2) == (Env {
                definitions: self.env(st1).definitions.insert(self.scope().variables[identifier@], assigned),
                ..self.env(st1)
            }));
            assert(assign_parts(assigned, self.env(st1)));
            assert(lowers::<T>(expr@, old(self).scope(), env0, st2.since(st0), None, self.env(st2)));
        }
        Ok(None)
    }

    /// Lowers the call of the function `identifier`: the arguments from left
    /// to right, then the call with their values.
    fn translate_call(
        &mut self,
        builder: &mut FunctionBuilder,
        module: &mut JITModule,
        expr: &Expr,
        identifier: &String,
        args: &Vec<Expr>,
    ) -> (result: Result<Option<Value>, TranslatorError>)
        requires
            old(self).wf(state(old(builder))),
            covers(old(self).scope(), expr@),
            expr@ == (Term::Call { identifier: identifier@, args: terms_of(args@) }),
            forall|i: int| 0 <= i < args.len() ==> decreases_to!(*expr => #[trigger] args[i]),
        ensures
            old(self).translated(
                state(old(builder)),
                old(module),
                expr@,
                result,
                final(self),
                state(final(builder)),
                final(module),
            ),
        decreases expr, 0nat,
    {
        let ghost st0 = state(builder);
        let ghost env0 = self.env(st0);
        let ghost scope = self.scope();
        let ghost reach = self.blocked(module);
        let ghost ts = terms_of(args@);
        let mut values: Vec<Value> = Vec::new();
        let mut i: usize = 0;
        proof {
            assert(st0.since(st0) =~= Seq::<Instruction>::empty());
            assert(st0.appended + st0.since(st0) =~= st0.appended);
            assert(ts.take(0) =~= Seq::<Term>::empty());
            assert forall|k: int| 0 <= k < ts.len() implies covers(scope, #[trigger] ts[k]) by {
                let whole = Term::Call { identifier: identifier@, args: ts };
                assert(covers(scope, whole->args[k]));
            }
        }
        while i < args.len()
            invariant
                i <= args.len(),
                ts == terms_of(args@),
                expr@ == (Term::Call { identifier: identifier@, args: ts }),
                forall|k: int| 0 <= k < args.len() ==> decreases_to!(*expr => #[trigger] args[k]),
                forall|k: int| 0 <= k < ts.len() ==> covers(scope, #[trigger] ts[k]),
                self.scope() == scope,
                self.variables == old(self).variables,
                scope == old(self).scope(),
                self.blocked(module) == reach,
                reach == old(self).blocked(old(module)),
                imported_only(scope.registry, old(module), module),
                self.wf(state(builder)),
                st0 == state(old(builder)),
                advanced(st0, state(builder)),
                values@.len() == i,
                state(builder).knows(values@),
                lowers_each::<T>(
                    ts.take(i as int),
                    scope,
                    env0,
                    state(builder).since(st0),
                    values@,
                    self.env(state(builder)),
                ),
                each_failure(ts.take(i as int), reach) is None,
            decreases args.len() - i,
        {
            let ghost st1 = state(builder);
            let ghost env1 = self.env(st1);
            let ghost done = values@;
            assert(ts[i as int] == args[i as int]@);
            let value = match self.get_value(builder, module, &args[i]) {
                Ok(value) => value,
                Err(e) => {
                    proof {
                        lemma_each_failure_at(ts, reach, i as int);
                        lemma_advanced_twice(st0, st1, state(builder));
                    }
                    return Err(e);
                },
            };
            values.push(value);
            proof {
                let st2 = state(builder);
                let first = st1.since(st0);
                let last = st2.since(st1);
                lemma_imports_stay(st0, st1, st2);
                assert(st2.since(st0) =~= first + last);
                assert(st0.appended + st2.since(st0) =~= st2.appended);
                assert(ts.take(i + 1).drop_last() =~= ts.take(i as int));
                assert(ts.take(i + 1).last() == args[i as int]@);
                assert(values@.drop_last() =~= done);
                assert(lowers_each::<T>(ts.take(i + 1).drop_last(), scope, env0, first, values@.drop_last(), env1));
                assert(lowers::<T>(ts.take(i + 1).last(), scope, env1, last, Some(values@.last()), self.env(st2)));
                assert(each_parts(first, env1, last));
                assert(lowers_each::<T>(ts.take(i + 1), scope, env0, st2.since(st0), values@, self.env(st2)));
            }
            i += 1;
        }
        proof {
            assert(ts.take(i as int) =~= ts);
        }
        let ghost st1 = state(builder);
        let ghost env1 = self.env(st1);
        let value = match self.function_call(builder, module, identifier, &values, expr) {
            Ok(value) => value,
            Err(e) => {
                proof {
                    lemma_advanced_twice(st0, st1, state(builder));
                }
                return Err(e);
            },
        };
        proof {
            let st2 = state(builder);
            let first = st1.since(st0);
            let last = st2.since(st1);
            lemma_imports_stay(st0, st1, st2);
            assert(st2.since(st0) =~= first + last);
            assert(st0.appended + st2.since(st0) =~= st2.appended);
            assert(lowers_each::<T>(ts, scope, env0, first, values@, env1));
            assert(calls(scope.registry, identifier@, env1, last, values@, Some(value), self.env(st2)));
            assert(call_parts(first, values@, env1, last));
            assert(lowers::<T>(expr@, scope, env0, st2.since(st0), Some(value), self.env(st2)));
        }
        Ok(Some(value))
    }
}

/// A builder that is where it was has gone on from there.
proof fn lemma_advanced_nowhere(st: BuilderState)
    ensures
        advanced(st, st),
{
    assert(st.since(st) =~= Seq::<Instruction>::empty());
    assert(st.appended + st.since(st) =~= st.appended);
}

/// A builder that has gone on twice has gone on.
proof fn lemma_advanced_twice(first: BuilderState, second: BuilderState, third: BuilderState)
    requires
        advanced(first, second),
        advanced(second, third),
    ensures
        advanced(first, third),
        third.since(first) == second.since(first) + third.since(second),
{
    assert(third.since(first) =~= second.since(first) + third.since(second));
    assert(first.appended + third.since(first) =~= third.appended);
    vstd::map_lib::lemma_submap_of_trans(first.functions, second.functions, third.functions);
    assert forall|value: Value| #[trigger] first.values.contains(value) implies third.types[value]
        == first.types[value] by {
        assert(second.values.contains(value));
    }
}

/// What a builder imported stays imported over two steps.
proof fn lemma_imports_stay(first: BuilderState, second: BuilderState, third: BuilderState)
    requires
        first.functions.submap_of(second.functions),
        second.functions.submap_of(third.functions),
    ensures
        first.functions.submap_of(third.functions),
{
    vstd::map_lib::lemma_submap_of_trans(first.functions, second.functions, third.functions);
}

/// Where the terms before the one at `i` fail nowhere, the first failure of
/// the sequence is that of the term at `i`, if it has one.
proof fn lemma_each_failure_at(ts: Seq<Term>, blocked: Map<Seq<char>, Failure>, i: int)
    requires
        0 <= i < ts.len(),
        each_failure(ts.take(i), blocked) is None,
        value_failure(ts[i], blocked) is Some,
    ensures
        each_failure(ts, blocked) == value_failure(ts[i], blocked),
    decreases ts.len(),
{
    if i == ts.len() - 1 {
        assert(ts.take(i) =~= ts.drop_last());
    } else {
        assert(ts.drop_last().take(i) =~= ts.take(i));
        lemma_each_failure_at(ts.drop_last(), blocked, i);
    }
}

/// Where the scope has every name that a term mentions and every literal of
/// the term, it covers the term.
pub proof fn lemma_covers(scope: Scope, t: Term)
    requires
        forall|name: Seq<char>| mentions(t).contains(name) ==> scope.variables.contains_key(name),
        forall|text: Seq<char>| literals(t).contains(text) ==> scope.constants.contains_key(text),
    ensures
        covers(scope, t),
    decreases t,
{
    match t {
        Term::Read { identifier } => {
            assert(mentions(t)[0] == identifier);
            assert(mentions(t).contains(identifier));
        },
        Term::Const { text } => {
            assert(literals(t)[0] == text);
            assert(literals(t).contains(text));
        },
        Term::Chain { side, ret } => {
            assert(mentions(t) == mentions(*side) + mentions(*ret));
            assert(literals(t) == literals(*side) + literals(*ret));
            lemma_parts_covered(scope, mentions(*side), mentions(*ret), literals(*side), literals(*ret));
            lemma_covers(scope, *side);
            lemma_covers(scope, *ret);
        },
        Term::Call { identifier, args } => {
            assert(mentions(t) == mentions_each(args));
            assert(literals(t) == literals_each(args));
            assert forall|i: int| 0 <= i < args.len() implies covers(scope, #[trigger] args[i]) by {
                lemma_each_covered(scope, args, i);
                lemma_covers(scope, args[i]);
            }
        },
        Term::Binary { op, lhs, rhs } => {
            assert(mentions(t) == mentions(*lhs) + mentions(*rhs));
            assert(literals(t) == literals(*lhs) + literals(*rhs));
            lemma_parts_covered(scope, mentions(*lhs), mentions(*rhs), literals(*lhs), literals(*rhs));
            lemma_covers(scope, *lhs);
            lemma_covers(scope, *rhs);
        },
        Term::Unary { op, value } => {
            assert(mentions(t) == mentions(*value));
            assert(literals(t) == literals(*value));
            lemma_covers(scope, *value);
        },
        Term::Assign { identifier, value } => {
            assert(mentions(t) == seq![identifier] + mentions(*value));
            assert(literals(t) == literals(*value));
            assert(Seq::<Seq<char>>::empty() + literals(*value) =~= literals(*value));
            lemma_parts_covered(scope, seq![identifier], mentions(*value), Seq::empty(), literals(*value));
            assert(seq![identifier][0] == identifier);
            assert(seq![identifier].contains(identifier));
            lemma_covers(scope, *value);
        },
    }
}

/// What holds of the names and literals of a whole holds of those of its
/// two parts.
proof fn lemma_parts_covered(
    scope: Scope,
    names: Seq<Seq<char>>,
    more_names: Seq<Seq<char>>,
    texts: Seq<Seq<char>>,
    more_texts: Seq<Seq<char>>,
)
    requires
        forall|name: Seq<char>| (names + more_names).contains(name) ==> scope.variables.contains_key(name),
        forall|text: Seq<char>| (texts + more_texts).contains(text) ==> scope.constants.contains_key(text),
    ensures
        forall|name: Seq<char>| names.contains(name) ==> scope.variables.contains_key(name),
        forall|name: Seq<char>| more_names.contains(name) ==> scope.variables.contains_key(name),
        forall|text: Seq<char>| texts.contains(text) ==> scope.constants.contains_key(text),
        forall|text: Seq<char>| more_texts.contains(text) ==> scope.constants.contains_key(text),
{
    assert forall|name: Seq<char>| names.contains(name) implies scope.variables.contains_key(name) by {
        lemma_concat_contains(names, more_names, name);
    }
    assert forall|name: Seq<char>| more_names.contains(name) implies scope.variables.contains_key(name) by {
        lemma_concat_contains(names, more_names, name);
    }
    assert forall|text: Seq<char>| texts.contains(text) implies scope.constants.contains_key(text) by {
        lemma_concat_contains(texts, more_texts, text);
    }
    assert forall|text: Seq<char>| more_texts.contains(text) implies scope.constants.contains_key(text) by {
        lemma_concat_contains(texts, more_texts, text);
    }
}

/// What holds of the names and literals of a sequence of terms holds of
/// those of each term.
proof fn lemma_each_covered(scope: Scope, ts: Seq<Term>, i: int)
    requires
        0 <= i < ts.len(),
        forall|name: Seq<char>|
            mentions_each(ts).contains(name) ==> scope.variables.contains_key(name),
        forall|text: Seq<char>|
            literals_each(ts).contains(text) ==> scope.constants.contains_key(text),
    ensures
        forall|name: Seq<char>| mentions(ts[i]).contains(name) ==> scope.variables.contains_key(name),
        forall|text: Seq<char>| literals(ts[i]).contains(text) ==> scope.constants.contains_key(text),
    decreases ts.len(),
{
    assert(mentions_each(ts) == mentions_each(ts.drop_last()) + mentions(
        ts.last(),
    ));
    assert(literals_each(ts) == literals_each(ts.drop_last()) + literals(
        ts.last(),
    ));
    lemma_parts_covered(
        scope,
        mentions_each(ts.drop_last()),
        mentions(ts.last()),
        literals_each(ts.drop_last()),
        literals(ts.last()),
    );
    if i < ts.len() - 1 {
        lemma_each_covered(scope, ts.drop_last(), i);
    }
}

} // verus!
