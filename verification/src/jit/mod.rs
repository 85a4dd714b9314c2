//! The compiler: from the text of an expression to a function that is
//! defined in a module of the code generator.

pub mod backend;
pub mod frontend;
pub mod ir;
pub mod lowering;
pub mod table;
pub mod translator;
pub mod types;

use backend::clear_context;
use backend::convention;
use backend::declare_func_in_func;
use backend::declare_function;
use backend::declared;
use backend::defined;
use backend::default_flags;
use backend::define_function;
use backend::host_jit_builder;
use backend::make_context;
use backend::new_builder;
use backend::new_builder_context;
use backend::new_module;
use backend::parameter_types;
use backend::position_independent;
use backend::push_parameter;
use backend::push_return;
use backend::refusal;
use backend::return_types;
use backend::signature_in;
use backend::set_flag;
use backend::signature_of;
use backend::unused;
use cranelift::codegen::Context;
use cranelift::codegen::ir::FuncRef;
use cranelift::prelude::Block;
use cranelift::prelude::FunctionBuilder;
use cranelift::prelude::FunctionBuilderContext;
use cranelift::prelude::Type;
use cranelift::prelude::Value;
use cranelift::prelude::Variable;
use cranelift_jit::JITBuilder;
use cranelift_jit::JITModule;
use cranelift_module::FuncId;
use cranelift_module::Linkage;
use cranelift_module::ModuleError;
use crate::function_manager::described;
use crate::function_manager::FunctionManager;
use frontend::ast::Expr;
use frontend::ast::Term;
use frontend::grammar::Parsed;
use frontend::grammar;
use frontend::parser::ParseError;
use frontend::parser;
use frontend::scope::distinct;
use frontend::scope::lemma_concat_contains;
use frontend::scope::lemma_mentions;
use frontend::scope::lemma_without_twice;
use frontend::scope::literals;
use frontend::scope::mentions;
use frontend::scope::NonEmptyUninitializedVariables;
use frontend::scope::reads;
use frontend::scope::texts;
use frontend::scope::unassigned;
use frontend::scope::undefined;
use frontend::scope::without;
use frontend::scope::writes;
use ir::append_function_params;
use ir::block_param;
use ir::BuilderState;
use ir::create_block;
use ir::declare_var;
use ir::define_var;
use ir::emit_return;
use ir::finalize;
use ir::fresh;
use ir::index_of;
use ir::Instruction;
use ir::Operation;
use ir::seal_block;
use ir::state;
use ir::switch_to_block;
use lowering::Env;
use lowering::failure;
use lowering::Failure;
use lowering::lemma_lowering_computes;
use lowering::lemma_plain_term_has_no_failure;
use lowering::lowers;
use lowering::plain;
use lowering::power;
use lowering::Scope;
use std::marker::PhantomData;
use table::Table;
use translator::ExprTranslator;
use translator::import_failure;
use translator::imported_only;
use translator::taking;
use translator::TranslatorError;
use translator::uniform;
use types::AnitaType;
use types::computes;
use vstd::prelude::*;
use vstd::string::StringExecFns;

verus! {

/// The texts of a list of names.
pub open spec fn names_of(names: Seq<&str>) -> Seq<Seq<char>> {
    names.map_values(|name: &str| name@)
}

/// The names to declare as locals for `node` beside its parameters: those
/// that it reads and those that it assigns to, each once. Where the
/// expression uses a name that neither it nor a parameter defines, the
/// undefined names are the error.
pub fn locals(node: &Expr, parameters: &[&str]) -> (result: Result<
    Vec<String>,
    NonEmptyUninitializedVariables,
>)
    ensures
        match result {
            Ok(identifiers) => {
                &&& undefined(node@, names_of(parameters@)).len() == 0
                &&& texts(identifiers@) == distinct(reads(node@) + writes(node@))
            },
            Err(names) => {
                &&& undefined(node@, names_of(parameters@)).len() > 0
                &&& names@ == undefined(node@, names_of(parameters@))
            },
        },
{
    let mut variables = node.variables();
    let ghost all = names_of(parameters@);
    let ghost start = texts(variables.uninitialized@);
    let mut i: usize = 0;
    proof {
        assert(all.take(0) =~= Seq::<Seq<char>>::empty());
        lemma_without_none(start);
    }
    while i < parameters.len()
        invariant
            i <= parameters.len(),
            all == names_of(parameters@),
            start == unassigned(node@),
            texts(variables.read@) == reads(node@),
            texts(variables.write@) == writes(node@),
            texts(variables.uninitialized@) == without(start, all.take(i as int)),
        decreases parameters.len() - i,
    {
        let name = String::from_str(parameters[i]);
        variables.set_defined(&name);
        proof {
            lemma_without_twice(start, all.take(i as int), seq![name@]);
            assert(all.take(i as int) + seq![name@] =~= all.take(i + 1));
        }
        i += 1;
    }
    assert(all.take(i as int) =~= all);
    variables.initialized_identifiers()
}

/// Removing no name leaves every name.
proof fn lemma_without_none(names: Seq<Seq<char>>)
    ensures
        without(names, Seq::empty()) == names,
    decreases names.len(),
{
    reveal(Seq::filter);
    if names.len() > 0 {
        lemma_without_none(names.drop_last());
        assert(names.drop_last().push(names.last()) =~= names);
    }
}

/// The registry that the first `n` functions of a list make: each name with
/// its number of parameters, and with that of its first entry where it
/// stands in the list more than once.
pub open spec fn registered(functions: Seq<(Seq<char>, usize)>, n: nat) -> Map<Seq<char>, usize>
    decreases n,
{
    if n == 0 {
        Map::empty()
    } else {
        let before = registered(functions, (n - 1) as nat);
        let (name, arity) = functions[n - 1];
        if before.contains_key(name) {
            before
        } else {
            before.insert(name, arity)
        }
    }
}

/// Whether different names have different variables.
pub open spec fn apart(variables: Map<Seq<char>, Variable>) -> bool {
    forall|a: Seq<char>, b: Seq<char>|
        #![trigger variables[a], variables[b]]
        variables.contains_key(a) && variables.contains_key(b) && a != b ==> variables[a] != variables[b]
}

/// Whether a builder in the state `st` has each variable of the table as a
/// variable of the type `ty`.
pub open spec fn declared_as(variables: Map<Seq<char>, Variable>, ty: Type, st: BuilderState) -> bool {
    forall|name: Seq<char>| #[trigger]
        variables.contains_key(name) ==> st.variables.contains_key(variables[name])
            && st.variables[variables[name]] == ty
}

/// Whether the variables of a table came in the order of its names, one
/// after the other from the first on: the variable of the name at a place
/// is the variable that was declared at that place, and its index is the
/// number of the place.
pub open spec fn numbered(
    names: Seq<Seq<char>>,
    variables: Map<Seq<char>, Variable>,
    order: Seq<Variable>,
) -> bool {
    &&& order.len() == names.len()
    &&& forall|k: int|
        0 <= k < names.len() ==> variables[#[trigger] names[k]] == order[k] && index_of(order[k]) == k
}

/// The names of a list with one more name, without repetitions: the name
/// comes last where the list does not have it.
proof fn lemma_distinct_step(names: Seq<Seq<char>>, name: Seq<char>)
    ensures
        distinct(names + seq![name]) == if distinct(names).contains(name) {
            distinct(names)
        } else {
            distinct(names).push(name)
        },
        forall|other: Seq<char>| distinct(names).contains(other) <==> names.contains(other),
{
    let empty = Seq::<Seq<char>>::empty();
    names.lemma_remove_duplicates_append(name, empty);
    names.lemma_remove_duplicates_properties(empty);
    assert(names + empty =~= names);
    assert(distinct(names) + seq![name] =~= distinct(names).push(name));
}

/// What the variables of the first `n` parameters stand for when each was
/// defined, in order, as the value that the function receives for it: the
/// variable of the parameter at `i` stands for the value at `i`, and a name
/// that stands twice among the parameters stands for the later value.
pub open spec fn bound(
    variables: Map<Seq<char>, Variable>,
    names: Seq<Seq<char>>,
    values: Seq<Value>,
    n: nat,
) -> Map<Variable, Value>
    decreases n,
{
    if n == 0 {
        Map::empty()
    } else {
        bound(variables, names, values, (n - 1) as nat).insert(variables[names[n - 1]], values[n - 1])
    }
}

/// Two tables that have the same variables for the first `n` names bind
/// them alike.
proof fn lemma_bound_alike(
    first: Map<Seq<char>, Variable>,
    second: Map<Seq<char>, Variable>,
    names: Seq<Seq<char>>,
    values: Seq<Value>,
    n: nat,
)
    requires
        n <= names.len(),
        forall|k: int| 0 <= k < n ==> first[#[trigger] names[k]] == second[names[k]],
    ensures
        bound(first, names, values, n) == bound(second, names, values, n),
    decreases n,
{
    if n > 0 {
        lemma_bound_alike(first, second, names, values, (n - 1) as nat);
        assert(first[names[n - 1]] == second[names[n - 1]]);
    }
}

/// The variable of a parameter stands for the value that the function
/// receives at the place of the parameter, unless the name of the parameter
/// stands again at a later place.
pub proof fn lemma_bound_by_position(
    variables: Map<Seq<char>, Variable>,
    names: Seq<Seq<char>>,
    values: Seq<Value>,
    n: nat,
    i: int,
)
    requires
        apart(variables),
        n <= names.len(),
        0 <= i < n,
        forall|k: int| 0 <= k < n ==> variables.contains_key(#[trigger] names[k]),
        forall|k: int| i < k < n ==> #[trigger] names[k] != names[i],
    ensures
        bound(variables, names, values, n).contains_key(variables[names[i]]),
        bound(variables, names, values, n)[variables[names[i]]] == values[i],
    decreases n,
{
    if i < n - 1 {
        lemma_bound_by_position(variables, names, values, (n - 1) as nat, i);
        assert(names[n - 1] != names[i]);
        assert(variables.contains_key(names[n - 1]) && variables.contains_key(names[i]));
        assert(variables[names[n - 1]] != variables[names[i]]);
    }
}

/// The variable of `name`: the one that the table has for it, or a new one
/// of the element type, which is added to the table.
fn declare_variable<T: AnitaType>(
    builder: &mut FunctionBuilder,
    variables: &mut Table<Variable>,
    name: String,
) -> (variable: Variable)
    requires
        old(variables).wf(),
        apart(old(variables)@),
        declared_as(old(variables)@, T::repr(), state(old(builder))),
    ensures
        final(variables).wf(),
        apart(final(variables)@),
        declared_as(final(variables)@, T::repr(), state(final(builder))),
        final(variables)@.contains_key(name@),
        final(variables)@[name@] == variable,
        if old(variables)@.contains_key(name@) {
            &&& final(variables)@ == old(variables)@
            &&& final(variables).names() == old(variables).names()
            &&& state(final(builder)) == state(old(builder))
        } else {
            &&& final(variables)@ == old(variables)@.insert(name@, variable)
            &&& final(variables).names() == old(variables).names().push(name@)
            &&& !state(old(builder)).variables.contains_key(variable)
            &&& index_of(variable) == state(old(builder)).order.len()
            &&& state(final(builder)) == (BuilderState {
                variables: state(old(builder)).variables.insert(variable, T::repr()),
                order: state(old(builder)).order.push(variable),
                ..state(old(builder))
            })
        },
{
    match variables.get(&name) {
        Some(variable) => variable,
        None => {
            let variable = declare_var(builder, T::cranelift_repr());
            variables.insert(name, variable);
            variable
        },
    }
}

/// Declares a variable of the element type for each parameter and each of
/// `identifiers`, one for each name, and defines the variable of each
/// parameter as the value that the function receives for it. A name that
/// stands twice among the parameters stands for the later of the two.
fn declare_variables<T: AnitaType>(
    builder: &mut FunctionBuilder,
    parameters: &[&str],
    identifiers: Vec<String>,
    entry_block: Block,
) -> (result: Result<Table<Variable>, JITError>)
    requires
        state(old(builder)).open(),
        state(old(builder)).entry == Some(entry_block),
        state(old(builder)).parameters.len() == parameters@.len(),
        state(old(builder)).signature == Seq::new(parameters@.len(), |i: int| T::repr()),
        state(old(builder)).definitions == Map::<Variable, Value>::empty(),
        state(old(builder)).order == Seq::<Variable>::empty(),
    ensures
        result matches Ok(variables) && {
            let st = state(final(builder));
            &&& variables.wf()
            &&& variables.names() == distinct(names_of(parameters@) + texts(identifiers@))
            &&& numbered(variables.names(), variables@, st.order)
            &&& forall|name: Seq<char>| #[trigger]
                variables@.contains_key(name) <==> names_of(parameters@).contains(name) || texts(
                    identifiers@,
                ).contains(name)
            &&& apart(variables@)
            &&& declared_as(variables@, T::repr(), st)
            &&& st.settled()
            &&& st.definitions == bound(variables@, names_of(parameters@), st.parameters, parameters@.len())
            &&& st == (BuilderState {
                variables: st.variables,
                order: st.order,
                values: st.values,
                types: st.types,
                definitions: st.definitions,
                ..state(old(builder))
            })
        },
{
    let mut variables: Table<Variable> = Table::new();
    let ghost st0 = state(builder);
    let ghost names = names_of(parameters@);
    let mut i: usize = 0;
    proof {
        assert(names.take(0) =~= Seq::<Seq<char>>::empty());
        assert(distinct(Seq::<Seq<char>>::empty()) =~= Seq::<Seq<char>>::empty()) by {
            Seq::<Seq<char>>::empty().lemma_remove_duplicates_properties(Seq::empty());
        }
    }
    while i < parameters.len()
        invariant
            i <= parameters.len(),
            names == names_of(parameters@),
            st0.parameters.len() == parameters@.len(),
            st0.signature == Seq::new(parameters@.len(), |i: int| T::repr()),
            st0.entry == Some(entry_block),
            st0.open(),
            variables.wf(),
            apart(variables@),
            declared_as(variables@, T::repr(), state(builder)),
            state(builder).settled(),
            forall|name: Seq<char>| #[trigger]
                variables@.contains_key(name) <==> names.take(i as int).contains(name),
            variables.names() == distinct(names.take(i as int)),
            numbered(variables.names(), variables@, state(builder).order),
            state(builder).definitions == bound(variables@, names, st0.parameters, i as nat),
            state(builder) == (BuilderState {
                variables: state(builder).variables,
                order: state(builder).order,
                values: state(builder).values,
                types: state(builder).types,
                definitions: state(builder).definitions,
                ..st0
            }),
        decreases parameters.len() - i,
    {
        let ghost before = variables@;
        let name = String::from_str(parameters[i]);
        assert(name@ == names[i as int]);
        proof {
            variables.lemma_names();
            lemma_distinct_step(names.take(i as int), names[i as int]);
            assert(names.take(i + 1) =~= names.take(i as int) + seq![names[i as int]]);
        }
        let value = block_param(builder, entry_block, i);
        let variable = declare_variable::<T>(builder, &mut variables, name);
        proof {
            assert forall|k: int| 0 <= k < i implies before[#[trigger] names[k]] == variables@[names[k]] by {
                assert(names.take(i as int)[k] == names[k]);
                assert(names.take(i as int).contains(names[k]));
            }
            lemma_bound_alike(before, variables@, names, st0.parameters, i as nat);
        }
        if !define_var(builder, variable, value) {
            // The value of a parameter has the type of its variable.
            proof {
                assert(false);
            }
            return Err(
                JITError::TranslatorError(TranslatorError::TypeMismatch(String::from_str(parameters[i]))),
            );
        }
        proof {
            assert(names.take(i + 1) =~= names.take(i as int).push(names[i as int]));
            assert forall|name: Seq<char>| #[trigger]
                variables@.contains_key(name) <==> names.take(i + 1).contains(name) by {
                if names.take(i as int).contains(name) {
                    let k = choose|k: int| 0 <= k < i && names.take(i as int)[k] == name;
                    assert(names.take(i + 1)[k] == name);
                }
                if name == names[i as int] {
                    assert(names.take(i + 1)[i as int] == name);
                }
            }
        }
        i += 1;
    }
    let mut j: usize = 0;
    let ghost more = texts(identifiers@);
    proof {
        assert(names.take(i as int) =~= names);
        assert(more.take(0) =~= Seq::<Seq<char>>::empty());
        assert(names + more.take(0) =~= names);
    }
    while j < identifiers.len()
        invariant
            j <= identifiers.len(),
            names == names_of(parameters@),
            more == texts(identifiers@),
            variables.wf(),
            apart(variables@),
            declared_as(variables@, T::repr(), state(builder)),
            state(builder).settled(),
            forall|name: Seq<char>| #[trigger]
                variables@.contains_key(name) <==> names.contains(name) || more.take(j as int).contains(name),
            variables.names() == distinct(names + more.take(j as int)),
            numbered(variables.names(), variables@, state(builder).order),
            state(builder).definitions == bound(variables@, names, st0.parameters, parameters@.len() as nat),
            state(builder) == (BuilderState {
                variables: state(builder).variables,
                order: state(builder).order,
                values: state(builder).values,
                types: state(builder).types,
                definitions: state(builder).definitions,
                ..st0
            }),
        decreases identifiers.len() - j,
    {
        let ghost before = variables@;
        let name = identifiers[j].clone();
        assert(name@ == more[j as int]);
        proof {
            variables.lemma_names();
            lemma_distinct_step(names + more.take(j as int), more[j as int]);
            assert(names + more.take(j + 1) =~= names + more.take(j as int) + seq![more[j as int]]);
        }
        let _ = declare_variable::<T>(builder, &mut variables, name);
        proof {
            assert forall|k: int| 0 <= k < names.len() implies before[#[trigger] names[k]] == variables@[names[k]] by {
                assert(names.contains(names[k]));
            }
            lemma_bound_alike(before, variables@, names, st0.parameters, parameters@.len() as nat);
            assert(more.take(j + 1) =~= more.take(j as int).push(more[j as int]));
            assert forall|name: Seq<char>| #[trigger]
                variables@.contains_key(name) <==> names.contains(name) || more.take(j + 1).contains(
                    name,
                ) by {
                let shorter = more.take(j as int);
                let longer = more.take(j + 1);
                assert(before.contains_key(name) <==> names.contains(name) || shorter.contains(name));
                if shorter.contains(name) {
                    let k = choose|k: int| 0 <= k < shorter.len() && shorter[k] == name;
                    assert(longer[k] == name);
                }
                if name == more[j as int] {
                    assert(longer[j as int] == name);
                }
                if longer.contains(name) {
                    let k = choose|k: int| 0 <= k < longer.len() && longer[k] == name;
                    if k < j {
                        assert(shorter[k] == name);
                    }
                }
            }
        }
        j += 1;
    }
    proof {
        assert(more.take(j as int) =~= more);
    }
    Ok(variables)
}

/// The names of the functions that a call in a new function cannot reach,
/// each with the failure that the call meets: those that the registry does
/// not know and those whose declaration the module refuses. The power
/// function is imported before anything is lowered.
pub open spec fn out_of_reach(
    ty: Type,
    registry: Map<Seq<char>, usize>,
    module: &JITModule,
) -> Map<Seq<char>, Failure> {
    Map::new(
        |name: Seq<char>| name != power() && import_failure(ty, registry, module, name) is Some,
        |name: Seq<char>| import_failure(ty, registry, module, name)->0,
    )
}

/// Whether the construction of the function of the term `root` over
/// `parameters`, for the element type `ty` and in the module `module`, ends
/// with `error`, or without one.
///
/// A name that nothing defines is reported before anything else, with all
/// such names. Then the power function is imported, and an error of the
/// module at its declaration is the error. After that, the first failure of
/// the lowering is the error, and an assignment as the whole expression has
/// no value to return. Everything else succeeds.
pub open spec fn built(
    ty: Type,
    registry: Map<Seq<char>, usize>,
    module: &JITModule,
    root: Term,
    parameters: Seq<Seq<char>>,
    error: Option<JITError>,
) -> bool {
    if undefined(root, parameters).len() > 0 {
        &&& error matches Some(JITError::UseOfUninitializedVariables(names))
        &&& texts(names@) == undefined(root, parameters)
    } else {
        match refusal(module, power(), Linkage::Import, uniform(ty, 2, convention(module))) {
            Some(refused) => error matches Some(JITError::ModuleError(e)) && e == refused,
            None => match failure(root, out_of_reach(ty, registry, module)) {
                Some(stop) => error matches Some(JITError::TranslatorError(e)) && e@ == stop,
                None => if root is Assign {
                    error matches Some(JITError::RootEvaluatesInNoValue)
                } else {
                    error is None
                },
            },
        }
    }
}

/// The construction of the function of a term without a call, a power and
/// an assignment succeeds wherever the parameters define every name that
/// the term reads and the module takes the declaration of the power
/// function.
pub proof fn lemma_plain_expression_is_built(
    ty: Type,
    registry: Map<Seq<char>, usize>,
    module: &JITModule,
    root: Term,
    parameters: Seq<Seq<char>>,
)
    requires
        plain(root),
        undefined(root, parameters).len() == 0,
        refusal(module, power(), Linkage::Import, uniform(ty, 2, convention(module))) is None,
    ensures
        built(ty, registry, module, root, parameters, None),
{
    lemma_plain_term_has_no_failure(root, out_of_reach(ty, registry, module));
}

/// The names that a call cannot reach in a module that refuses nothing:
/// those that the registry does not know, but for the power function.
pub open spec fn unknown(registry: Map<Seq<char>, usize>) -> Map<Seq<char>, Failure> {
    Map::new(
        |name: Seq<char>| name != power() && !registry.contains_key(name),
        |name: Seq<char>| Failure::FunctionNotFound { identifier: name },
    )
}

/// In a module that refuses no declaration, as that of a new compiler, the
/// expression alone decides whether the construction of its function
/// succeeds: it does exactly if the parameters define every name that the
/// expression reads, every call names a function of the registry, every
/// operand and argument has a value, no variable is assigned a truth value,
/// and the expression as a whole is no assignment.
pub proof fn lemma_the_expression_decides(
    ty: Type,
    registry: Map<Seq<char>, usize>,
    module: &JITModule,
    root: Term,
    parameters: Seq<Seq<char>>,
)
    requires
        forall|name: Seq<char>, linkage: Linkage, signature: cranelift::prelude::Signature|
            (#[trigger] refusal(module, name, linkage, signature)) is None,
    ensures
        out_of_reach(ty, registry, module) == unknown(registry),
        built(ty, registry, module, root, parameters, None) <==> undefined(root, parameters).len() == 0
            && failure(root, unknown(registry)) is None && !(root is Assign),
{
    assert(out_of_reach(ty, registry, module) =~= unknown(registry));
}

/// The function of an expression that is one parameter returns what it
/// receives: its one block holds the return of the value of the parameter
/// and nothing else.
pub proof fn lemma_a_parameter_comes_back<T: AnitaType>(
    body: &Body,
    name: Seq<char>,
    constants: Map<Seq<char>, u32>,
    registry: Map<Seq<char>, usize>,
    st: BuilderState,
)
    requires
        body.holds::<T>(Term::Read { identifier: name }, seq![name], constants, registry, st),
    ensures
        st.appended == seq![
            Instruction {
                operation: Operation::Return,
                arguments: seq![st.parameters[0]],
                result: None,
            },
        ],
{
    let names = seq![name];
    let first = bound(body.variables@, names, st.parameters, 0);
    assert(bound(body.variables@, names, st.parameters, 1) == first.insert(
        body.variables@[names[0]],
        st.parameters[0],
    ));
    assert(st.appended.drop_last().len() == 0);
    assert(st.appended =~= seq![st.appended.last()]);
}

/// The function of an expression runs from its first instruction to its
/// return: every instruction before the return computes a value, and none
/// of them branches or ends the block.
pub proof fn lemma_the_body_runs_to_its_return<T: AnitaType>(
    body: &Body,
    root: Term,
    names: Seq<Seq<char>>,
    constants: Map<Seq<char>, u32>,
    registry: Map<Seq<char>, usize>,
    st: BuilderState,
)
    requires
        body.holds::<T>(root, names, constants, registry, st),
    ensures
        computes(st.appended.drop_last()),
        st.appended.last().operation is Return,
{
    lemma_lowering_computes::<T>(
        root,
        Scope { variables: body.variables@, constants, registry },
        Env {
            definitions: bound(body.variables@, names, st.parameters, names.len()),
            functions: Map::<Seq<char>, (FuncRef, usize)>::empty().insert(power(), (body.power, 2usize)),
        },
        st.appended.drop_last(),
        Some(body.value),
        Env { definitions: st.definitions, functions: body.functions@ },
    );
}

/// Whether a builder that had no block went from `before` to `after` by a
/// construction that has not come to its end: the function has its one
/// sealed block with the parameters of the signature, and the block has no
/// return yet.
pub open spec fn begun(before: BuilderState, after: BuilderState) -> bool {
    &&& after.signature == before.signature
    &&& after.entry is Some
    &&& after.blocks == set![after.entry->0]
    &&& after.sealed == after.blocks
    &&& after.current == after.entry
    &&& !after.filled
    &&& after.parameters.len() == after.signature.len()
}

/// What the construction of a function leaves for a look at the builder:
/// the one block of the function, the variable of each name, the reference
/// to the power function, the functions that were imported, and the value
/// that the function returns.
pub struct Body {
    pub entry: Block,
    pub variables: Table<Variable>,
    pub power: FuncRef,
    pub functions: Table<(FuncRef, usize)>,
    pub value: Value,
}

impl Body {
    /// Whether a builder in the state `st` holds the function of the term
    /// `root` over the parameters `names`, built for the element type `T`
    /// with `self` as what the construction left.
    ///
    /// The function is one sealed block that has one parameter for each
    /// parameter of the function. There is one variable for each
    /// parameter and each name that the term reads or assigns to, different
    /// names have different variables, and the variable of each parameter
    /// stands for the value that the function receives at its place. The
    /// variables are numbered from 0 on in the order in which the names are
    /// first seen: the parameters, then what the term reads, then what it
    /// assigns to. The
    /// instructions of the block are the lowering of the term, followed by
    /// the return of its value.
    pub open spec fn holds<T: AnitaType>(
        &self,
        root: Term,
        names: Seq<Seq<char>>,
        constants: Map<Seq<char>, u32>,
        registry: Map<Seq<char>, usize>,
        st: BuilderState,
    ) -> bool {
        &&& st.signature == Seq::new(names.len(), |i: int| T::repr())
        &&& st.blocks == set![self.entry]
        &&& st.entry == Some(self.entry)
        &&& st.sealed == set![self.entry]
        &&& st.current == Some(self.entry)
        &&& st.filled
        &&& st.parameters.len() == names.len()
        &&& forall|name: Seq<char>|
            self.variables@.contains_key(name) <==> names.contains(name) || reads(root).contains(name)
                || writes(root).contains(name)
        &&& apart(self.variables@)
        &&& declared_as(self.variables@, T::repr(), st)
        &&& self.variables.names() == distinct(names + distinct(reads(root) + writes(root)))
        &&& numbered(self.variables.names(), self.variables@, st.order)
        &&& st.appended.len() > 0
        &&& st.appended.last() == (Instruction {
            operation: Operation::Return,
            arguments: seq![self.value],
            result: None,
        })
        &&& lowers::<T>(
            root,
            Scope { variables: self.variables@, constants, registry },
            Env {
                definitions: bound(self.variables@, names, st.parameters, names.len()),
                functions: Map::<Seq<char>, (FuncRef, usize)>::empty().insert(power(), (self.power, 2usize)),
            },
            st.appended.drop_last(),
            Some(self.value),
            Env { definitions: st.definitions, functions: self.functions@ },
        )
    }
}

/// Why an expression could not be compiled.
#[derive(Debug)]
pub enum JITError {
    /// The expression could not be lowered.
    TranslatorError(TranslatorError),
    /// The code generator refused a declaration or a definition.
    ModuleError(ModuleError),
    /// The text is no expression.
    ParseError(ParseError),
    /// The expression uses names that neither it nor a parameter defines.
    UseOfUninitializedVariables(Vec<String>),
    /// The expression as a whole is an assignment, which has no value.
    RootEvaluatesInNoValue,
}

/// The builder of a code generator for the machine that the program runs
/// on, under the flags that a just-in-time compiler needs: calls of library
/// routines are not colocated, and the code is not position-independent.
/// There is none where the code generator does not support the machine.
///
/// The caller registers the address of the power function of the element
/// type, under the name `inbuilt_pow`, and those of the functions of the
/// registry, before the builder goes to `JIT::new`.
pub fn host_builder() -> (builder: Option<JITBuilder>)
    ensures
        builder is Some ==> !position_independent(&builder->0),
        builder is Some ==> !backend::colocated_libcalls(&builder->0),
{
    let mut flags = default_flags();
    if !set_flag(&mut flags, "use_colocated_libcalls", "false") {
        return None;
    }
    if !set_flag(&mut flags, "is_pic", "false") {
        return None;
    }
    proof {
        backend::lemma_settings_differ();
    }
    host_jit_builder(flags)
}

/// A just-in-time compiler of expressions over the element type `T`, whose
/// calls go to the functions of the registry `F`.
pub struct JIT<T: AnitaType, F: FunctionManager> {
    builder_context: FunctionBuilderContext,
    ctx: Context,
    module: Box<JITModule>,
    registry: Table<usize>,
    _function_manager: PhantomData<F>,
    _type: PhantomData<T>,
}

impl<T: AnitaType, F: FunctionManager> JIT<T, F> {
    /// The functions that a call may reach, each with its number of
    /// parameters: those that the registry `F` listed when the compiler was
    /// made.
    pub closed spec fn registry(&self) -> Map<Seq<char>, usize> {
        self.registry@
    }

    /// Whether the compiler is in order.
    pub closed spec fn wf(&self) -> bool {
        self.registry.wf()
    }

    /// Whether the compiler is new: its module has declared and defined
    /// nothing and refuses no declaration of a function, and the function
    /// of its compilation context has no parameter and returns nothing.
    pub open spec fn is_new(&self) -> bool {
        &&& declared(&self.module()) == Set::<FuncId>::empty()
        &&& defined(&self.module()) == Set::<FuncId>::empty()
        &&& forall|name: Seq<char>, linkage: Linkage, signature: cranelift::prelude::Signature|
            (#[trigger] refusal(&self.module(), name, linkage, signature)) is None
        &&& parameter_types(signature_in(&self.compilation())) == Seq::<Type>::empty()
        &&& return_types(signature_in(&self.compilation())) == Seq::<Type>::empty()
    }

    /// A compiler on the code generator that `builder` describes, with the
    /// functions that the registry `F` lists.
    pub fn new(builder: JITBuilder) -> (jit: Self)
        requires
            !position_independent(&builder),
        ensures
            jit.wf(),
            jit.is_new(),
            jit.registry() == registered(F::listed(), F::listed().len()),
    {
        Self::with_functions(builder, F::function_signatures())
    }

    /// A compiler on the code generator that `builder` describes, with the
    /// functions of the list `functions`.
    pub fn with_functions(builder: JITBuilder, functions: Vec<(String, usize)>) -> (jit: Self)
        requires
            !position_independent(&builder),
        ensures
            jit.wf(),
            jit.is_new(),
            jit.registry() == registered(described(functions@), functions@.len()),
    {
        let module = new_module(builder);
        let ctx = make_context(&module);
        let mut registry: Table<usize> = Table::new();
        let mut i: usize = 0;
        while i < functions.len()
            invariant
                i <= functions.len(),
                registry.wf(),
                registry@ == registered(described(functions@), i as nat),
            decreases functions.len() - i,
        {
            if registry.get(&functions[i].0).is_none() {
                registry.insert(functions[i].0.clone(), functions[i].1);
            }
            i += 1;
        }
        JIT {
            builder_context: new_builder_context(),
            ctx,
            module: Box::new(module),
            registry,
            _function_manager: PhantomData,
            _type: PhantomData,
        }
    }

    /// The number of parameters of the function `name` of the registry, if
    /// the registry has such a function.
    pub fn arity_of(&self, name: &str) -> (arity: Option<usize>)
        requires
            self.wf(),
        ensures
            arity == if self.registry().contains_key(name@) {
                Some(self.registry()[name@])
            } else {
                None
            },
    {
        self.registry.get(&String::from_str(name))
    }

    /// The module in which the compiler defines its functions.
    pub closed spec fn module(&self) -> JITModule {
        *self.module
    }

    /// The compilation context of the compiler.
    pub closed spec fn compilation(&self) -> Context {
        self.ctx
    }

    /// The compilation context. Between `translate` and the definition of
    /// the function it holds the function that was built.
    pub fn context(&self) -> (context: &Context)
        ensures
            *context == self.compilation(),
    {
        &self.ctx
    }

    /// Gives up the compiler and returns the module that owns the memory of
    /// the compiled code.
    pub fn dissolve(self) -> (module: Box<JITModule>)
        ensures
            *module == self.module(),
    {
        self.module
    }

    /// Imports the power function into the function under construction:
    /// declares it in the module under the name `inbuilt_pow`, as an
    /// imported function that takes two values of the element type and
    /// returns one, and enters it into the table under that name, with two
    /// parameters. The import succeeds exactly if the module does not refuse
    /// that declaration. Where it does, the error of the module comes back,
    /// and the table and the builder stay as they were.
    fn declare_inbuilt_functions(
        functions: &mut Table<(FuncRef, usize)>,
        builder: &mut FunctionBuilder,
        module: &mut JITModule,
    ) -> (result: Result<(), ModuleError>)
        requires
            old(functions).wf(),
        ensures
            final(functions).wf(),
            imported_only(
                Map::<Seq<char>, usize>::empty().insert(power(), 2usize),
                old(module),
                final(module),
            ),
            match refusal(
                old(module),
                power(),
                Linkage::Import,
                uniform(T::repr(), 2, convention(old(module))),
            ) {
                None => {
                    &&& result is Ok
                    &&& Self::installed(
                        old(functions)@,
                        state(old(builder)),
                        final(functions)@,
                        state(final(builder)),
                    )
                },
                Some(refused) => {
                    &&& result == Err::<(), ModuleError>(refused)
                    &&& final(functions)@ == old(functions)@
                    &&& state(final(builder)) == state(old(builder))
                    &&& declared(final(module)) == declared(old(module))
                },
            },
    {
        let signature = ExprTranslator::<T>::signature(module, 2);
        let declaration = declare_function(module, "inbuilt_pow", Linkage::Import, &signature);
        Self::install_power(functions, builder, module, declaration)
    }

    /// Whether the power function was installed: the table has it under the
    /// name `inbuilt_pow` with its two parameters, and the builder has
    /// imported it as a function that returns one value of the element
    /// type, and is otherwise as it was.
    pub open spec fn installed(
        before: Map<Seq<char>, (FuncRef, usize)>,
        builder_before: BuilderState,
        after: Map<Seq<char>, (FuncRef, usize)>,
        builder_after: BuilderState,
    ) -> bool {
        &&& after.contains_key(power())
        &&& after == before.insert(power(), (after[power()].0, 2usize))
        &&& !builder_before.functions.contains_key(after[power()].0)
        &&& builder_after == (BuilderState {
            functions: builder_before.functions.insert(after[power()].0, seq![T::repr()]),
            ..builder_before
        })
    }

    /// What follows the declaration of the power function in the module,
    /// which gave `declaration`. An identifier is imported into the function
    /// under construction and enters the table under the name `inbuilt_pow`,
    /// with two parameters. An error comes back as it is, and nothing
    /// changes.
    fn install_power(
        functions: &mut Table<(FuncRef, usize)>,
        builder: &mut FunctionBuilder,
        module: &mut JITModule,
        declaration: Result<FuncId, ModuleError>,
    ) -> (result: Result<(), ModuleError>)
        requires
            old(functions).wf(),
            declaration matches Ok(id) ==> declared(old(module)).contains(id) && backend::declared_returns(
                old(module),
                id,
            ) == seq![T::repr()],
        ensures
            final(functions).wf(),
            declared(final(module)) == declared(old(module)),
            defined(final(module)) == defined(old(module)),
            convention(final(module)) == convention(old(module)),
            forall|name: Seq<char>, linkage: Linkage, signature: cranelift::prelude::Signature| #[trigger]
                refusal(final(module), name, linkage, signature) == refusal(
                    old(module),
                    name,
                    linkage,
                    signature,
                ),
            match declaration {
                Ok(_) => {
                    &&& result is Ok
                    &&& Self::installed(
                        old(functions)@,
                        state(old(builder)),
                        final(functions)@,
                        state(final(builder)),
                    )
                },
                Err(e) => {
                    &&& result == Err::<(), ModuleError>(e)
                    &&& final(functions)@ == old(functions)@
                    &&& state(final(builder)) == state(old(builder))
                },
            },
    {
        match declaration {
            Ok(id) => {
                let callee = declare_func_in_func(module, id, builder);
                functions.put(String::from_str("inbuilt_pow"), (callee, 2));
                Ok(())
            },
            Err(e) => Err(e),
        }
    }

    /// Builds the function of the expression `root` over `parameters` in a
    /// builder that has nothing yet: one block, a variable for each name,
    /// the lowering of `root`, and the return of its value. The declarations
    /// of the functions that the expression calls go to `module`.
    /// `constants` has the IEEE bits of each literal of `root`.
    ///
    /// A name that nothing defines is reported before anything else, and
    /// nothing is touched. After that, the first failure of the lowering is
    /// the error, and the builder is left with the block as far as it got.
    pub fn lower(
        builder: &mut FunctionBuilder,
        module: &mut JITModule,
        registry: &Table<usize>,
        root: &Expr,
        parameters: &[&str],
        constants: Table<u32>,
    ) -> (result: Result<Body, JITError>)
        requires
            state(old(builder)) == fresh(Seq::new(parameters@.len(), |i: int| T::repr())),
            registry.wf(),
            constants.wf(),
            forall|text: Seq<char>| literals(root@).contains(text) ==> constants@.contains_key(text),
        ensures
            match result {
                Ok(body) => {
                    &&& built(T::repr(), registry@, old(module), root@, names_of(parameters@), None)
                    &&& imported_only(registry@.insert(power(), 2usize), old(module), final(module))
                    &&& body.holds::<T>(
                        root@,
                        names_of(parameters@),
                        constants@,
                        registry@,
                        state(final(builder)),
                    )
                },
                Err(e) => {
                    &&& built(T::repr(), registry@, old(module), root@, names_of(parameters@), Some(e))
                    &&& imported_only(registry@.insert(power(), 2usize), old(module), final(module))
                    &&& if undefined(root@, names_of(parameters@)).len() > 0 {
                        state(final(builder)) == state(old(builder)) && *final(module) == *old(module)
                    } else {
                        begun(state(old(builder)), state(final(builder)))
                    }
                },
            },
    {
        let identifiers = match locals(root, parameters) {
            Ok(identifiers) => identifiers,
            Err(names) => {
                return Err(JITError::UseOfUninitializedVariables(names.into_names()));
            },
        };
        let ghost names = names_of(parameters@);
        let repr = T::cranelift_repr();
        let entry_block = create_block(builder);
        append_function_params(builder, entry_block);
        switch_to_block(builder, entry_block);
        seal_block(builder, entry_block);
        proof {
            assert(state(builder).blocks =~= set![entry_block]);
            assert(state(builder).sealed =~= set![entry_block]);
        }

        let variables = match declare_variables::<T>(builder, parameters, identifiers, entry_block) {
            Ok(variables) => variables,
            Err(e) => {
                return Err(e);
            },
        };
        let mut functions: Table<(FuncRef, usize)> = Table::new();
        match Self::declare_inbuilt_functions(&mut functions, builder, module) {
            Ok(()) => {},
            Err(e) => {
                return Err(JITError::ModuleError(e));
            },
        }
        let callee = match functions.get(&String::from_str("inbuilt_pow")) {
            Some(entry) => entry.0,
            None => vstd::pervasive::unreached(),
        };
        let ghost st1 = state(builder);
        let ghost module1 = *module;
        let mut translator = ExprTranslator::<T> {
            variables,
            functions,
            constants,
            registry,
            _type: PhantomData,
        };
        let ghost before = translator;
        proof {
            assert(translator.functions@ =~= Map::<Seq<char>, (FuncRef, usize)>::empty().insert(
                power(),
                (callee, 2usize),
            ));
            assert(translator.blocked(module) =~= out_of_reach(T::repr(), registry@, old(module)));
            assert forall|name: Seq<char>| mentions(root@).contains(name) implies translator.scope().variables.contains_key(
                name,
            ) by {
                lemma_mentions(root@, name);
                (reads(root@) + writes(root@)).lemma_remove_duplicates_properties(Seq::empty());
                lemma_concat_contains(reads(root@), writes(root@), name);
                assert((reads(root@) + writes(root@) + Seq::<Seq<char>>::empty()) =~= reads(root@) + writes(
                    root@,
                ));
            }
            translator::lemma_covers(translator.scope(), root@);
        }
        let value = match translator.translate(builder, module, root) {
            Ok(Some(value)) => value,
            Ok(None) => {
                return Err(JITError::RootEvaluatesInNoValue);
            },
            Err(e) => {
                return Err(JITError::TranslatorError(e));
            },
        };
        let ghost st2 = state(builder);
        emit_return(builder, value);
        let body = Body {
            entry: entry_block,
            variables: translator.variables,
            power: callee,
            functions: translator.functions,
            value,
        };
        proof {
            let st3 = state(builder);
            assert(st1.appended =~= Seq::<Instruction>::empty());
            assert(st2.since(st1) =~= st2.appended);
            assert(st3.appended.drop_last() =~= st2.appended);
            assert forall|name: Seq<char>|
                body.variables@.contains_key(name) <==> names.contains(name) || reads(root@).contains(name)
                    || writes(root@).contains(name) by {
                (reads(root@) + writes(root@)).lemma_remove_duplicates_properties(Seq::empty());
                lemma_concat_contains(reads(root@), writes(root@), name);
                assert((reads(root@) + writes(root@) + Seq::<Seq<char>>::empty()) =~= reads(root@) + writes(
                    root@,
                ));
            }
        }
        Ok(body)
    }

    /// Builds the function of the expression `root` over `parameters` in the
    /// compilation context: one parameter of the element type for each name
    /// and one return value of that type, and the body that `lower` builds.
    /// `constants` has the IEEE bits of each literal of `root`.
    ///
    /// A name that nothing defines is reported before anything else. After
    /// that, the first failure of the lowering is the error.
    pub fn translate(&mut self, root: &Expr, parameters: &[&str], constants: Table<u32>) -> (result:
        Result<(), JITError>)
        requires
            old(self).wf(),
            constants.wf(),
            forall|text: Seq<char>| literals(root@).contains(text) ==> constants@.contains_key(text),
        ensures
            final(self).wf(),
            final(self).registry() == old(self).registry(),
            imported_only(
                old(self).registry().insert(power(), 2usize),
                &old(self).module(),
                &final(self).module(),
            ),
            match result {
                Ok(()) => {
                    &&& built(
                        T::repr(),
                        old(self).registry(),
                        &old(self).module(),
                        root@,
                        names_of(parameters@),
                        None,
                    )
                    &&& Self::signed(
                        &final(self).compilation(),
                        parameters@.len() as nat,
                        &old(self).module(),
                    )
                },
                Err(e) => built(
                    T::repr(),
                    old(self).registry(),
                    &old(self).module(),
                    root@,
                    names_of(parameters@),
                    Some(e),
                ),
            },
    {
        Self::build(
            &mut self.ctx,
            &mut self.builder_context,
            &mut self.module,
            &self.registry,
            root,
            parameters,
            constants,
        )
    }

    /// Whether the function of the context takes `arity` values of the
    /// element type and returns one, under the calling convention of the
    /// module.
    pub open spec fn signed(context: &Context, arity: nat, module: &JITModule) -> bool {
        &&& signature_in(context) == uniform(T::repr(), arity, convention(module))
        &&& parameter_types(signature_in(context)) == Seq::new(arity, |i: int| T::repr())
        &&& return_types(signature_in(context)) == seq![T::repr()]
    }

    /// `translate`, on the parts of a compiler.
    fn build(
        context: &mut Context,
        builder_context: &mut FunctionBuilderContext,
        module: &mut JITModule,
        registry: &Table<usize>,
        root: &Expr,
        parameters: &[&str],
        constants: Table<u32>,
    ) -> (result: Result<(), JITError>)
        requires
            registry.wf(),
            constants.wf(),
            forall|text: Seq<char>| literals(root@).contains(text) ==> constants@.contains_key(text),
        ensures
            imported_only(registry@.insert(power(), 2usize), old(module), final(module)),
            match result {
                Ok(()) => {
                    &&& built(T::repr(), registry@, old(module), root@, names_of(parameters@), None)
                    &&& Self::signed(final(context), parameters@.len() as nat, old(module))
                },
                Err(e) => built(T::repr(), registry@, old(module), root@, names_of(parameters@), Some(e)),
            },
    {
        clear_context(module, context);
        *builder_context = new_builder_context();
        let repr = T::cranelift_repr();
        let mut i: usize = 0;
        while i < parameters.len()
            invariant
                i <= parameters.len(),
                signature_in(context) == taking(T::repr(), i as nat, convention(module)),
                parameter_types(signature_in(context)) == Seq::new(i as nat, |k: int| T::repr()),
                return_types(signature_in(context)) == Seq::<Type>::empty(),
                unused(builder_context),
            decreases parameters.len() - i,
        {
            push_parameter(context, T::cranelift_repr());
            i += 1;
            assert(parameter_types(signature_in(context)) =~= Seq::new(i as nat, |k: int| T::repr()));
        }
        push_return(context, repr);
        assert(return_types(signature_in(context)) =~= seq![T::repr()]);

        let mut builder = new_builder(context, builder_context);
        match Self::lower(&mut builder, module, registry, root, parameters, constants) {
            Ok(_) => {},
            Err(e) => {
                return Err(e);
            },
        }
        finalize(builder);
        Ok(())
    }

    /// What the definition of the function `id` in the module, which gave
    /// `done`, makes of a compilation: the identifier of the function, or
    /// the error of the module.
    pub fn finish(id: FuncId, done: Result<(), ModuleError>) -> (result: Result<FuncId, JITError>)
        ensures
            match done {
                Ok(()) => result == Ok::<FuncId, JITError>(id),
                Err(refused) => result matches Err(JITError::ModuleError(e)) && e == refused,
            },
    {
        match done {
            Ok(()) => Ok(id),
            Err(e) => Err(JITError::ModuleError(e)),
        }
    }

    /// Compiles `expression` to a function of `parameters`, each of the
    /// element type, that returns the value of the expression, and defines it
    /// in the module under the name `expression`.
    ///
    /// `literal` gives the IEEE bits of the 32-bit float that a numeric
    /// literal of the expression stands for.
    ///
    /// The function can be called once the definitions of the module are
    /// finalized, at the address that the module then has for the identifier
    /// that comes back.
    ///
    /// The errors come in this order: a text that is no expression, what
    /// stops the construction of the function, the refusal of the module to
    /// declare an exported function `expression` with one parameter of the
    /// element type for each of `parameters` and one return value, and the
    /// error of the module at the definition.
    pub fn compile<C: Fn(&String) -> u32>(&mut self, expression: &str, parameters: &[&str], literal: C) -> (result:
        Result<FuncId, JITError>)
        requires
            old(self).wf(),
            forall|text: &String| literal.requires((text,)),
        ensures
            final(self).wf(),
            final(self).registry() == old(self).registry(),
            match grammar::parse(expression@) {
                Parsed::Failure { marks } => {
                    &&& result matches Err(JITError::ParseError(error))
                    &&& error.reports(expression@, marks)
                },
                Parsed::Expression(root) => Self::compiled(
                    old(self).registry(),
                    &old(self).module(),
                    root,
                    names_of(parameters@),
                    result,
                    &final(self).module(),
                ),
            },
    {
        let ast = match parser::expression(expression) {
            Ok(ast) => ast,
            Err(e) => {
                return Err(JITError::ParseError(e));
            },
        };
        let found = ast.literals();
        let mut constants: Table<u32> = Table::new();
        let mut i: usize = 0;
        while i < found.len()
            invariant
                i <= found.len(),
                constants.wf(),
                forall|text: &String| literal.requires((text,)),
                forall|k: int| 0 <= k < i ==> constants@.contains_key(#[trigger] texts(found@)[k]),
            decreases found.len() - i,
        {
            if constants.get(&found[i]).is_none() {
                let bits = literal(&found[i]);
                constants.insert(found[i].clone(), bits);
            }
            i += 1;
        }
        match self.translate(&ast, parameters, constants) {
            Ok(()) => {},
            Err(e) => {
                return Err(e);
            },
        }
        proof {
            reveal_strlit("expression");
            reveal_strlit("inbuilt_pow");
            assert("expression"@.len() != "inbuilt_pow"@.len());
        }
        let id = match declare_function(&mut self.module, "expression", Linkage::Export, signature_of(&self.ctx)) {
            Ok(id) => id,
            Err(e) => {
                return Err(JITError::ModuleError(e));
            },
        };
        let done = define_function(&mut self.module, id, &mut self.ctx);
        let result = Self::finish(id, done);
        if result.is_ok() {
            clear_context(&self.module, &mut self.ctx);
        }
        result
    }

    /// What a compilation of the term `root` over `parameters` owes, from
    /// the module `before` to the module `after`.
    ///
    /// Where the construction of the function stops, its error is the
    /// result, and the module has only declared functions of the registry
    /// and the power function. Else the module is asked to declare an exported function of
    /// the name `expression` that takes one value of the element type for
    /// each parameter and returns one; where the registry has no function of
    /// that name, the module refuses exactly what it would have refused
    /// before the compilation, and its error is the result. Else the module
    /// defines the function: an identifier comes back only for a function
    /// that the module has declared, had not defined before and has defined
    /// now, and an error of the module else.
    pub open spec fn compiled(
        registry: Map<Seq<char>, usize>,
        before: &JITModule,
        root: Term,
        parameters: Seq<Seq<char>>,
        result: Result<FuncId, JITError>,
        after: &JITModule,
    ) -> bool {
        let exported = refusal(
            before,
            "expression"@,
            Linkage::Export,
            uniform(T::repr(), parameters.len(), convention(before)),
        );
        &&& convention(after) == convention(before)
        &&& declared(before).subset_of(declared(after))
        &&& if !built(T::repr(), registry, before, root, parameters, None) {
            &&& result matches Err(e) && built(T::repr(), registry, before, root, parameters, Some(e))
            &&& imported_only(registry.insert(power(), 2usize), before, after)
        } else {
            match result {
                Ok(id) => {
                    &&& !registry.contains_key("expression"@) ==> exported is None
                    &&& declared(after).contains(id)
                    &&& !defined(before).contains(id)
                    &&& defined(after) == defined(before).insert(id)
                },
                Err(e) => {
                    &&& e is ModuleError
                    &&& !registry.contains_key("expression"@) && exported is Some ==> e->ModuleError_0
                        == exported->0
                },
            }
        }
    }
}

} // verus!
