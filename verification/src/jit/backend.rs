//! What this library takes for granted of the modules, the contexts and the
//! signatures of the code generator.

use cranelift::codegen::Context;
use cranelift::codegen::ir::FuncRef;
use cranelift::prelude::AbiParam;
use cranelift::prelude::Configurable;
use cranelift::prelude::FunctionBuilder;
use cranelift::prelude::FunctionBuilderContext;
use cranelift::prelude::isa::CallConv;
use cranelift::prelude::settings;
use cranelift::prelude::Signature;
use cranelift::prelude::Type;
use cranelift_jit::JITBuilder;
use cranelift_jit::JITModule;
use cranelift_module::FuncId;
use cranelift_module::Linkage;
use cranelift_module::Module;
use cranelift_module::ModuleError;
use super::ir::BuilderState;
use super::ir::fresh;
use super::ir::state;
use vstd::prelude::*;

verus! {

#[verifier::external_type_specification]
#[verifier::external_body]
pub struct ExContext(Context);

#[verifier::external_type_specification]
#[verifier::external_body]
pub struct ExFunctionBuilderContext(FunctionBuilderContext);

#[verifier::external_type_specification]
#[verifier::external_body]
pub struct ExSignature(Signature);

#[verifier::external_type_specification]
#[verifier::external_body]
pub struct ExCallConv(CallConv);

#[verifier::external_type_specification]
#[verifier::external_body]
pub struct ExJITBuilder(JITBuilder);

#[verifier::external_type_specification]
#[verifier::external_body]
pub struct ExJITModule(JITModule);

#[verifier::external_type_specification]
#[verifier::external_body]
pub struct ExFuncId(FuncId);

#[verifier::external_type_specification]
pub struct ExLinkage(Linkage);

#[verifier::external_type_specification]
#[verifier::external_body]
pub struct ExModuleError(ModuleError);

#[verifier::external_type_specification]
#[verifier::external_body]
pub struct ExSettingsBuilder(settings::Builder);

/// Whether the flags are those that every target shares, which
/// `settings::builder` makes, and not those of one target.
pub uninterp spec fn shared(flags: &settings::Builder) -> bool;

/// The value that the flags hold for the setting `name`, as a word: `true`
/// or `false` for a setting that is on or off, and the enumerator for a
/// setting with enumerators.
pub uninterp spec fn setting(flags: &settings::Builder, name: Seq<char>) -> Seq<char>;

/// Whether a module built from `builder` makes position-independent code.
pub uninterp spec fn position_independent(builder: &JITBuilder) -> bool;

/// Whether the code of a module built from `builder` takes the routines of
/// the code generator's own library to lie near it.
pub uninterp spec fn colocated_libcalls(builder: &JITBuilder) -> bool;

/// The functions that a module has declared.
pub uninterp spec fn declared(module: &JITModule) -> Set<FuncId>;

/// The functions that a module has defined: those that it holds compiled
/// code for.
pub uninterp spec fn defined(module: &JITModule) -> Set<FuncId>;

/// The types of what a function that a module has declared returns.
pub uninterp spec fn declared_returns(module: &JITModule, id: FuncId) -> Seq<Type>;

/// The calling convention of the target of a module.
pub uninterp spec fn convention(module: &JITModule) -> CallConv;

/// The error with which a module refuses the declaration of a function of
/// that name, linkage and signature, if it refuses it: the name stands for
/// something else in the module, or for a function of another signature.
pub uninterp spec fn refusal(
    module: &JITModule,
    name: Seq<char>,
    linkage: Linkage,
    signature: Signature,
) -> Option<ModuleError>;

/// Whether a builder context holds nothing of an earlier function.
pub uninterp spec fn unused(context: &FunctionBuilderContext) -> bool;

/// The signature of the function of a compilation context.
pub uninterp spec fn signature_in(context: &Context) -> Signature;

/// The signature without parameters and return values under a calling
/// convention: `Signature::new`.
pub uninterp spec fn blank(convention: CallConv) -> Signature;

/// A signature with one more parameter of type `ty`, made by
/// `AbiParam::new`.
pub uninterp spec fn with_parameter(signature: Signature, ty: Type) -> Signature;

/// A signature with one more return value of type `ty`, made by
/// `AbiParam::new`.
pub uninterp spec fn with_return(signature: Signature, ty: Type) -> Signature;

/// The types of the parameters of a signature.
pub uninterp spec fn parameter_types(signature: Signature) -> Seq<Type>;

/// The types of the return values of a signature.
pub uninterp spec fn return_types(signature: Signature) -> Seq<Type>;

/// The names of the two settings that a just-in-time compiler gives a value
/// are two names.
pub proof fn lemma_settings_differ()
    ensures
        "use_colocated_libcalls"@ != "is_pic"@,
{
    reveal_strlit("use_colocated_libcalls");
    reveal_strlit("is_pic");
    assert("use_colocated_libcalls"@.len() != "is_pic"@.len());
}

/// `settings::builder` of cranelift: the code generator flags with their
/// default values.
#[verifier::external_body]
pub(crate) fn default_flags() -> (flags: settings::Builder)
    ensures
        shared(&flags),
{
    settings::builder()
}

/// `Configurable::set` of cranelift, on a set of flags: gives the setting
/// `name` the value `value`, and says whether there is such a setting and it
/// takes that value. The value is one of the words `true` and `false`; the
/// code generator reads other words for on and off too, and keeps none of
/// them.
#[verifier::external_body]
pub(crate) fn set_flag(flags: &mut settings::Builder, name: &str, value: &str) -> (taken: bool)
    requires
        value@ == "true"@ || value@ == "false"@,
    ensures
        shared(final(flags)) == shared(old(flags)),
        taken ==> setting(final(flags), name@) == value@,
        forall|other: Seq<char>|
            other != name@ ==> setting(final(flags), other) == setting(old(flags), other),
        !taken ==> setting(final(flags), name@) == setting(old(flags), name@),
{
    flags.set(name, value).is_ok()
}

/// `cranelift_native::builder`, `IsaBuilder::finish` with
/// `settings::Flags::new`, and `JITBuilder::with_isa` with
/// `default_libcall_names` of cranelift-module, in one, as Verus cannot name
/// what passes between them: the builder of a module for the machine that
/// the program runs on, under those flags, which are flags that every target
/// shares. There is none where the code generator does not support the
/// machine or the machine does not take the flags. Flags whose setting
/// `is_pic` is `false` give a module whose code is not
/// position-independent, and flags whose setting `use_colocated_libcalls`
/// is `false` give one whose code does not take the library
/// routines to lie near it.
#[verifier::external_body]
pub(crate) fn host_jit_builder(flags: settings::Builder) -> (builder: Option<JITBuilder>)
    requires
        shared(&flags),
    ensures
        builder is Some && setting(&flags, "is_pic"@) == "false"@ ==> !position_independent(
            &builder->0,
        ),
        builder is Some && setting(&flags, "use_colocated_libcalls"@) == "false"@
            ==> !colocated_libcalls(&builder->0),
{
    let isa = cranelift_native::builder().ok()?.finish(settings::Flags::new(flags)).ok()?;
    Some(JITBuilder::with_isa(isa, cranelift_module::default_libcall_names()))
}

/// `JITModule::new` of cranelift-jit: the module that `builder` describes,
/// without any declaration and any definition, which refuses no
/// declaration of a function.
#[verifier::external_body]
pub(crate) fn new_module(builder: JITBuilder) -> (module: JITModule)
    requires
        !position_independent(&builder),
    ensures
        declared(&module) == Set::<FuncId>::empty(),
        defined(&module) == Set::<FuncId>::empty(),
        forall|name: Seq<char>, linkage: Linkage, signature: Signature|
            (#[trigger] refusal(&module, name, linkage, signature)) is None,
{
    JITModule::new(builder)
}

/// `FunctionBuilderContext::new`: a context that no builder has used.
#[verifier::external_body]
pub(crate) fn new_builder_context() -> (context: FunctionBuilderContext)
    ensures
        unused(&context),
{
    FunctionBuilderContext::new()
}

/// `FunctionBuilder::new`, on the function of a compilation context: a
/// builder that has created no block and appended nothing. It leaves the
/// signature of the function as it is.
#[verifier::external_body]
pub(crate) fn new_builder<'a>(
    context: &'a mut Context,
    builder_context: &'a mut FunctionBuilderContext,
) -> (builder: FunctionBuilder<'a>)
    requires
        unused(old(builder_context)),
    ensures
        signature_in(final(context)) == signature_in(old(context)),
        state(&builder) == fresh(parameter_types(signature_in(old(context)))),
{
    FunctionBuilder::new(&mut context.func, builder_context)
}

/// `Module::make_context` of cranelift-module: a compilation context whose
/// function has the module's default calling convention and an empty
/// signature.
#[verifier::external_body]
pub(crate) fn make_context(module: &JITModule) -> (context: Context)
    ensures
        signature_in(&context) == blank(convention(module)),
        parameter_types(signature_in(&context)) == Seq::<Type>::empty(),
        return_types(signature_in(&context)) == Seq::<Type>::empty(),
{
    module.make_context()
}

/// `Module::clear_context` of cranelift-module: empties the function of the
/// context and gives its signature the module's default calling convention.
#[verifier::external_body]
pub(crate) fn clear_context(module: &JITModule, context: &mut Context)
    ensures
        signature_in(final(context)) == blank(convention(module)),
        parameter_types(signature_in(final(context))) == Seq::<Type>::empty(),
        return_types(signature_in(final(context))) == Seq::<Type>::empty(),
{
    module.clear_context(context);
}

/// `AbiParam::new` and a push to the parameters of the signature of the
/// context's function: the function takes one more parameter of type `ty`.
#[verifier::external_body]
pub(crate) fn push_parameter(context: &mut Context, ty: Type)
    ensures
        signature_in(final(context)) == with_parameter(signature_in(old(context)), ty),
        parameter_types(signature_in(final(context))) == parameter_types(signature_in(old(context))).push(
            ty,
        ),
        return_types(signature_in(final(context))) == return_types(signature_in(old(context))),
{
    context.func.signature.params.push(AbiParam::new(ty));
}

/// `AbiParam::new` and a push to the return values of the signature of the
/// context's function: the function returns one more value of type `ty`.
#[verifier::external_body]
pub(crate) fn push_return(context: &mut Context, ty: Type)
    ensures
        signature_in(final(context)) == with_return(signature_in(old(context)), ty),
        parameter_types(signature_in(final(context))) == parameter_types(signature_in(old(context))),
        return_types(signature_in(final(context))) == return_types(signature_in(old(context))).push(ty),
{
    context.func.signature.returns.push(AbiParam::new(ty));
}

/// The signature of the function of a compilation context.
#[verifier::external_body]
pub(crate) fn signature_of(context: &Context) -> (signature: &Signature)
    ensures
        *signature == signature_in(context),
{
    &context.func.signature
}

/// `Signature::new` of cranelift: the signature without parameters and
/// return values, under the calling convention `call_conv`.
#[verifier::external_body]
pub(crate) fn new_signature(call_conv: CallConv) -> (signature: Signature)
    ensures
        signature == blank(call_conv),
        parameter_types(signature) == Seq::<Type>::empty(),
        return_types(signature) == Seq::<Type>::empty(),
{
    Signature::new(call_conv)
}

/// `AbiParam::new` and a push to the public field `params` of a signature:
/// one more parameter of type `ty`.
#[verifier::external_body]
pub(crate) fn push_signature_parameter(signature: &mut Signature, ty: Type)
    ensures
        *final(signature) == with_parameter(*old(signature), ty),
        parameter_types(*final(signature)) == parameter_types(*old(signature)).push(ty),
        return_types(*final(signature)) == return_types(*old(signature)),
{
    signature.params.push(AbiParam::new(ty));
}

/// `AbiParam::new` and a push to the public field `returns` of a signature:
/// one more return value of type `ty`.
#[verifier::external_body]
pub(crate) fn push_signature_return(signature: &mut Signature, ty: Type)
    ensures
        *final(signature) == with_return(*old(signature), ty),
        parameter_types(*final(signature)) == parameter_types(*old(signature)),
        return_types(*final(signature)) == return_types(*old(signature)).push(ty),
{
    signature.returns.push(AbiParam::new(ty));
}

/// `TargetIsa::default_call_conv`, on the `isa()` of the module: the calling
/// convention of the module's target.
#[verifier::external_body]
pub(crate) fn default_call_conv(module: &JITModule) -> (call_conv: CallConv)
    ensures
        call_conv == convention(module),
{
    module.isa().default_call_conv()
}

/// `Module::declare_function` of cranelift-module, as `JITModule` has it:
/// declares a function of that name, linkage and signature, or finds the
/// declaration that the module has for the name. The module refuses a name
/// that stands for something else, or for a function of another signature,
/// and is then as before. A declaration changes nothing for another name.
#[verifier::external_body]
pub(crate) fn declare_function(
    module: &mut JITModule,
    name: &str,
    linkage: Linkage,
    signature: &Signature,
) -> (id: Result<FuncId, ModuleError>)
    ensures
        match id {
            Ok(id) => {
                &&& refusal(old(module), name@, linkage, *signature) is None
                &&& declared(final(module)) == declared(old(module)).insert(id)
                &&& declared_returns(final(module), id) == return_types(*signature)
            },
            Err(e) => {
                &&& refusal(old(module), name@, linkage, *signature) == Some(e)
                &&& declared(final(module)) == declared(old(module))
            },
        },
        convention(final(module)) == convention(old(module)),
        defined(final(module)) == defined(old(module)),
        forall|other: Seq<char>, any: Linkage, signature: Signature|
            other != name@ ==> #[trigger] refusal(final(module), other, any, signature) == refusal(
                old(module),
                other,
                any,
                signature,
            ),
{
    module.declare_function(name, linkage, signature)
}

/// `Module::declare_func_in_func` of cranelift-module: imports a function
/// that the module has declared into the function under construction, and
/// returns the reference by which that function calls it. The module stays
/// as it is.
#[verifier::external_body]
pub(crate) fn declare_func_in_func(
    module: &mut JITModule,
    id: FuncId,
    builder: &mut FunctionBuilder,
) -> (callee: FuncRef)
    requires
        declared(old(module)).contains(id),
    ensures
        declared(final(module)) == declared(old(module)),
        defined(final(module)) == defined(old(module)),
        convention(final(module)) == convention(old(module)),
        forall|name: Seq<char>, linkage: Linkage, signature: Signature| #[trigger]
            refusal(final(module), name, linkage, signature) == refusal(
                old(module),
                name,
                linkage,
                signature,
            ),
        !state(old(builder)).functions.contains_key(callee),
        state(final(builder)) == (BuilderState {
            functions: state(old(builder)).functions.insert(
                callee,
                declared_returns(old(module), id),
            ),
            ..state(old(builder))
        }),
{
    module.declare_func_in_func(id, builder.func)
}

/// `Module::define_function` of cranelift-module, as `JITModule` has it:
/// compiles the function of the context as the body of `id`. Where it
/// succeeds, the module had no definition of `id` and has one now. What it
/// has declared, and what it refuses, is as before.
#[verifier::external_body]
pub(crate) fn define_function(module: &mut JITModule, id: FuncId, context: &mut Context) -> (done:
    Result<(), ModuleError>)
    requires
        declared(old(module)).contains(id),
    ensures
        done is Ok ==> !defined(old(module)).contains(id) && defined(final(module)) == defined(
            old(module),
        ).insert(id),
        declared(final(module)) == declared(old(module)),
        convention(final(module)) == convention(old(module)),
        forall|name: Seq<char>, linkage: Linkage, signature: Signature| #[trigger]
            refusal(final(module), name, linkage, signature) == refusal(
                old(module),
                name,
                linkage,
                signature,
            ),
{
    module.define_function(id, context)
}

} // verus!
