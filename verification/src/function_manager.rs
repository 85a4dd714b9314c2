//! The registries of the functions of the host that an expression may call.

use vstd::prelude::*;
use vstd::string::StringExecFns;

verus! {

/// The names and the numbers of parameters of a list of functions.
pub open spec fn described(functions: Seq<(String, usize)>) -> Seq<(Seq<char>, usize)> {
    functions.map_values(|function: (String, usize)| (function.0@, function.1))
}

/// The functions of the host that a compiled expression may call.
///
/// A compiler asks for them once, when it is made. Each function takes as
/// many values of the element type as the list says, and returns one. Where
/// a name stands twice in the list, the first entry counts. The addresses of
/// the functions are given to the code generator by whoever sets it up.
pub trait FunctionManager {
    /// The functions that the registry lists, each with its name and its
    /// number of parameters. A registry that does not say what it lists has
    /// a list of which nothing is known.
    open spec fn listed() -> Seq<(Seq<char>, usize)> {
        arbitrary()
    }

    /// The name and the number of parameters of each function.
    fn function_signatures() -> (functions: Vec<(String, usize)>)
        ensures
            described(functions@) == Self::listed(),
    ;
}

/// The registry without any function.
pub struct NoFunctions {}

impl FunctionManager for NoFunctions {
    open spec fn listed() -> Seq<(Seq<char>, usize)> {
        Seq::empty()
    }

    fn function_signatures() -> (functions: Vec<(String, usize)>) {
        let functions: Vec<(String, usize)> = Vec::new();
        assert(described(functions@) =~= Seq::<(Seq<char>, usize)>::empty());
        functions
    }
}

/// The functions of the default registry: rounding, classification, powers
/// and logarithms, trigonometry, and the choice `if`, which gives its second
/// argument where the first is true and its third where it is not.
pub open spec fn default_functions() -> Seq<(Seq<char>, usize)> {
    seq![
        ("min"@, 2usize),
        ("max"@, 2usize),
        ("floor"@, 1usize),
        ("round"@, 1usize),
        ("ceil"@, 1usize),
        ("is_nan"@, 1usize),
        ("is_finite"@, 1usize),
        ("is_infinite"@, 1usize),
        ("is_normal"@, 1usize),
        ("pow"@, 2usize),
        ("mod"@, 2usize),
        ("ln"@, 1usize),
        ("log2"@, 1usize),
        ("log10"@, 1usize),
        ("exp"@, 1usize),
        ("exp2"@, 1usize),
        ("cos"@, 1usize),
        ("acos"@, 1usize),
        ("cosh"@, 1usize),
        ("acosh"@, 1usize),
        ("sin"@, 1usize),
        ("asin"@, 1usize),
        ("sinh"@, 1usize),
        ("asinh"@, 1usize),
        ("tan"@, 1usize),
        ("atan"@, 1usize),
        ("atan2"@, 2usize),
        ("tanh"@, 1usize),
        ("atanh"@, 1usize),
        ("sqrt"@, 1usize),
        ("cbrt"@, 1usize),
        ("abs"@, 1usize),
        ("hypot"@, 2usize),
        ("if"@, 3usize),
    ]
}

/// Adds the function `name` with `arity` parameters to the list.
fn register(functions: &mut Vec<(String, usize)>, name: &str, arity: usize)
    ensures
        described(final(functions)@) == described(old(functions)@).push((name@, arity)),
{
    functions.push((String::from_str(name), arity));
    assert(described(functions@) =~= described(old(functions)@).push((name@, arity)));
}

/// The registry of the usual functions on one 32-bit float.
pub struct DefaultFunctionManager;

impl FunctionManager for DefaultFunctionManager {
    open spec fn listed() -> Seq<(Seq<char>, usize)> {
        default_functions()
    }

    fn function_signatures() -> (functions: Vec<(String, usize)>) {
        let mut functions: Vec<(String, usize)> = Vec::new();
        assert(described(functions@) =~= Seq::<(Seq<char>, usize)>::empty());
        register(&mut functions, "min", 2);
        register(&mut functions, "max", 2);
        register(&mut functions, "floor", 1);
        register(&mut functions, "round", 1);
        register(&mut functions, "ceil", 1);
        register(&mut functions, "is_nan", 1);
        register(&mut functions, "is_finite", 1);
        register(&mut functions, "is_infinite", 1);
        register(&mut functions, "is_normal", 1);
        register(&mut functions, "pow", 2);
        register(&mut functions, "mod", 2);
        register(&mut functions, "ln", 1);
        register(&mut functions, "log2", 1);
        register(&mut functions, "log10", 1);
        register(&mut functions, "exp", 1);
        register(&mut functions, "exp2", 1);
        register(&mut functions, "cos", 1);
        register(&mut functions, "acos", 1);
        register(&mut functions, "cosh", 1);
        register(&mut functions, "acosh", 1);
        register(&mut functions, "sin", 1);
        register(&mut functions, "asin", 1);
        register(&mut functions, "sinh", 1);
        register(&mut functions, "asinh", 1);
        register(&mut functions, "tan", 1);
        register(&mut functions, "atan", 1);
        register(&mut functions, "atan2", 2);
        register(&mut functions, "tanh", 1);
        register(&mut functions, "atanh", 1);
        register(&mut functions, "sqrt", 1);
        register(&mut functions, "cbrt", 1);
        register(&mut functions, "abs", 1);
        register(&mut functions, "hypot", 2);
        register(&mut functions, "if", 3);
        assert(described(functions@) =~= default_functions());
        functions
    }
}

} // verus!
