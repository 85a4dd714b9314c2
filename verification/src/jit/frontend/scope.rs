//! The names of an expression: those it reads, those it assigns to, and
//! those that nothing defines.

use super::ast::Expr;
use super::ast::Term;
use super::ast::terms_of;
use vstd::prelude::*;

verus! {

/// The character sequences of a list of strings, in order.
pub open spec fn texts(names: Seq<String>) -> Seq<Seq<char>> {
    names.map_values(|name: String| name@)
}

/// The names that a term reads, in the order in which they occur. The target
/// of an assignment is not read.
pub open spec fn reads(t: Term) -> Seq<Seq<char>>
    decreases t,
{
    match t {
        Term::Read { identifier } => seq![identifier],
        Term::Const { text } => Seq::empty(),
        Term::Chain { side, ret } => reads(*side) + reads(*ret),
        Term::Call { identifier, args } => reads_each(args),
        Term::Binary { op, lhs, rhs } => reads(*lhs) + reads(*rhs),
        Term::Unary { op, value } => reads(*value),
        Term::Assign { identifier, value } => reads(*value),
    }
}

/// The names that the terms of a sequence read, one term after the other.
pub open spec fn reads_each(ts: Seq<Term>) -> Seq<Seq<char>>
    decreases ts,
{
    if ts.len() == 0 {
        Seq::empty()
    } else {
        reads_each(ts.drop_last()) + reads(ts.last())
    }
}

/// The names that a term assigns to, in the order in which they occur. The
/// target of an assignment comes before the targets inside its value.
pub open spec fn writes(t: Term) -> Seq<Seq<char>>
    decreases t,
{
    match t {
        Term::Read { identifier } => Seq::empty(),
        Term::Const { text } => Seq::empty(),
        Term::Chain { side, ret } => writes(*side) + writes(*ret),
        Term::Call { identifier, args } => writes_each(args),
        Term::Binary { op, lhs, rhs } => writes(*lhs) + writes(*rhs),
        Term::Unary { op, value } => writes(*value),
        Term::Assign { identifier, value } => seq![identifier] + writes(*value),
    }
}

/// The names that the terms of a sequence assign to, one term after the other.
pub open spec fn writes_each(ts: Seq<Term>) -> Seq<Seq<char>>
    decreases ts,
{
    if ts.len() == 0 {
        Seq::empty()
    } else {
        writes_each(ts.drop_last()) + writes(ts.last())
    }
}

/// Every variable name that occurs in a term, read or assigned, in order. The
/// name of a called function is no variable.
pub open spec fn mentions(t: Term) -> Seq<Seq<char>>
    decreases t,
{
    match t {
        Term::Read { identifier } => seq![identifier],
        Term::Const { text } => Seq::empty(),
        Term::Chain { side, ret } => mentions(*side) + mentions(*ret),
        Term::Call { identifier, args } => mentions_each(args),
        Term::Binary { op, lhs, rhs } => mentions(*lhs) + mentions(*rhs),
        Term::Unary { op, value } => mentions(*value),
        Term::Assign { identifier, value } => seq![identifier] + mentions(*value),
    }
}

/// Every variable name that occurs in the terms of a sequence.
pub open spec fn mentions_each(ts: Seq<Term>) -> Seq<Seq<char>>
    decreases ts,
{
    if ts.len() == 0 {
        Seq::empty()
    } else {
        mentions_each(ts.drop_last()) + mentions(ts.last())
    }
}

/// The names of `names` that are not among `known`, in order and with their
/// repetitions.
pub open spec fn without(names: Seq<Seq<char>>, known: Seq<Seq<char>>) -> Seq<Seq<char>> {
    names.filter(|name: Seq<char>| !known.contains(name))
}

/// The names that occur in a term and that the term assigns nowhere.
pub open spec fn unassigned(t: Term) -> Seq<Seq<char>> {
    without(mentions(t), writes(t))
}

/// The names of a list without its repetitions: each name stands where it
/// first occurs.
pub open spec fn distinct(names: Seq<Seq<char>>) -> Seq<Seq<char>> {
    names.remove_duplicates(Seq::empty())
}

/// Whether `name` is the text of one of `names`.
pub fn holds(names: &Vec<String>, name: &String) -> (found: bool)
    ensures
        found == texts(names@).contains(name@),
{
    let mut i: usize = 0;
    while i < names.len()
        invariant
            i <= names.len(),
            forall|k: int| 0 <= k < i ==> names[k]@ != name@,
        decreases names.len() - i,
    {
        if names[i] == *name {
            assert(texts(names@)[i as int] == name@);
            return true;
        }
        i += 1;
    }
    false
}

/// Moves the strings of `from` to the end of `into`.
fn extend(into: &mut Vec<String>, from: Vec<String>)
    ensures
        texts(final(into)@) == texts(old(into)@) + texts(from@),
{
    let mut from = from;
    let ghost moved = from@;
    into.append(&mut from);
    assert(texts(into@) =~= texts(old(into)@) + texts(moved));
}

/// The strings of `names` whose text is not among `known`.
fn remove_known(names: &Vec<String>, known: &Vec<String>) -> (kept: Vec<String>)
    ensures
        texts(kept@) == without(texts(names@), texts(known@)),
{
    let ghost keep = |name: Seq<char>| !texts(known@).contains(name);
    let mut kept: Vec<String> = Vec::new();
    let mut i: usize = 0;
    assert(texts(names@).take(0) =~= Seq::<Seq<char>>::empty());
    assert(texts(kept@) =~= Seq::<Seq<char>>::empty());
    proof {
        reveal(Seq::filter);
    }
    while i < names.len()
        invariant
            i <= names.len(),
            keep == |name: Seq<char>| !texts(known@).contains(name),
            texts(kept@) == texts(names@).take(i as int).filter(keep),
        decreases names.len() - i,
    {
        proof {
            let all = texts(names@);
            assert(all.take(i + 1) =~= all.take(i as int).push(all[i as int]));
            all.take(i as int).lemma_filter_push(all[i as int], keep);
        }
        if !holds(known, &names[i]) {
            let ghost before = texts(kept@);
            kept.push(names[i].clone());
            assert(texts(kept@) =~= before.push(names[i as int]@));
        }
        i += 1;
    }
    assert(texts(names@).take(i as int) =~= texts(names@));
    kept
}

/// The variable names of an expression, by the way in which it uses them.
pub struct Variables {
    /// The names that the expression reads.
    pub read: Vec<String>,
    /// The names that the expression assigns to.
    pub write: Vec<String>,
    /// The names of the expression that nothing is known to define.
    pub uninitialized: Vec<String>,
}

/// The names that an expression uses and that neither an assignment nor the
/// caller defines. There is at least one.
pub struct NonEmptyUninitializedVariables(Vec<String>);

impl NonEmptyUninitializedVariables {
    /// The texts of the names.
    pub closed spec fn view(&self) -> Seq<Seq<char>> {
        texts(self.0@)
    }

    #[verifier::type_invariant]
    spec fn not_empty(&self) -> bool {
        self.0@.len() > 0
    }

    /// The names, in the order in which the expression uses them.
    pub fn into_names(self) -> (names: Vec<String>)
        ensures
            texts(names@) == self@,
            names@.len() > 0,
    {
        proof {
            use_type_invariant(&self);
        }
        self.0
    }
}

impl Variables {
    /// Records that something outside the expression defines `identifier`: the
    /// name leaves the list of the undefined names, wherever it stands there.
    pub fn set_defined(&mut self, identifier: &String)
        ensures
            final(self).read == old(self).read,
            final(self).write == old(self).write,
            texts(final(self).uninitialized@) == without(
                texts(old(self).uninitialized@),
                seq![identifier@],
            ),
    {
        let mut known: Vec<String> = Vec::new();
        known.push(identifier.clone());
        assert(texts(known@) =~= seq![identifier@]);
        let kept = remove_known(&self.uninitialized, &known);
        self.uninitialized = kept;
    }

    /// The names to declare as locals: those read and those assigned, each
    /// once, in the order of their first use. Where a name is left that
    /// nothing defines, the undefined names are the error instead.
    pub fn initialized_identifiers(self) -> (r: Result<
        Vec<String>,
        NonEmptyUninitializedVariables,
    >)
        ensures
            self.uninitialized@.len() > 0 ==> r is Err && r->Err_0@ == texts(self.uninitialized@),
            self.uninitialized@.len() == 0 ==> r is Ok && texts(r->Ok_0@) == distinct(
                texts(self.read@) + texts(self.write@),
            ),
    {
        if self.uninitialized.len() > 0 {
            return Err(NonEmptyUninitializedVariables(self.uninitialized));
        }
        let mut identifiers: Vec<String> = Vec::new();
        extend(&mut identifiers, self.read);
        extend(&mut identifiers, self.write);
        assert(texts(identifiers@) =~= texts(self.read@) + texts(self.write@));
        Ok(unique(&identifiers))
    }
}

/// The strings of `names` without repetitions, each where it first occurs.
fn unique(names: &Vec<String>) -> (kept: Vec<String>)
    ensures
        texts(kept@) == distinct(texts(names@)),
{
    let ghost all = texts(names@);
    let mut kept: Vec<String> = Vec::new();
    let mut i: usize = 0;
    assert(all.take(0) =~= Seq::<Seq<char>>::empty());
    assert(texts(kept@) =~= Seq::<Seq<char>>::empty());
    while i < names.len()
        invariant
            i <= names.len(),
            all == texts(names@),
            texts(kept@) == distinct(all.take(i as int)),
        decreases names.len() - i,
    {
        proof {
            let head = all.take(i as int);
            let empty = Seq::<Seq<char>>::empty();
            assert(all.take(i + 1) =~= head + seq![all[i as int]]);
            head.lemma_remove_duplicates_append(all[i as int], empty);
            head.lemma_remove_duplicates_properties(empty);
            assert(head + empty =~= head);
        }
        if !holds(&kept, &names[i]) {
            let ghost before = texts(kept@);
            kept.push(names[i].clone());
            assert(texts(kept@) =~= before + seq![names[i as int]@]);
        }
        i += 1;
    }
    assert(all.take(i as int) =~= all);
    kept
}

impl Expr {
    /// The names that the expression reads.
    pub fn variables_read(&self) -> (names: Vec<String>)
        ensures
            texts(names@) == reads(self@),
        decreases self,
    {
        match self {
            Expr::VariableRead { identifier } => {
                let mut names = Vec::new();
                names.push(identifier.clone());
                assert(texts(names@) =~= reads(self@));
                names
            },
            Expr::Const { value } => {
                let names: Vec<String> = Vec::new();
                assert(texts(names@) =~= reads(self@));
                names
            },
            Expr::Call { identifier, args } => {
                let ghost ts = terms_of(args@);
                let mut names: Vec<String> = Vec::new();
                let mut i: usize = 0;
                assert(texts(names@) =~= reads_each(ts.take(0)));
                while i < args.len()
                    invariant
                        i <= args.len(),
                        self is Call,
                        self->args == *args,
                        ts == terms_of(args@),
                        texts(names@) == reads_each(ts.take(i as int)),
                    decreases args.len() - i,
                {
                    let more = args[i].variables_read();
                    extend(&mut names, more);
                    assert(ts.take(i + 1).drop_last() =~= ts.take(i as int));
                    i += 1;
                }
                assert(ts.take(i as int) =~= ts);
                names
            },
            Expr::Chain { side: lhs, ret: rhs }
            | Expr::Add { lhs, rhs }
            | Expr::Sub { lhs, rhs }
            | Expr::Mul { lhs, rhs }
            | Expr::Div { lhs, rhs }
            | Expr::Mod { lhs, rhs }
            | Expr::Exp { lhs, rhs }
            | Expr::Eq { lhs, rhs }
            | Expr::Neq { lhs, rhs }
            | Expr::Gt { lhs, rhs }
            | Expr::Lt { lhs, rhs }
            | Expr::Geq { lhs, rhs }
            | Expr::Leq { lhs, rhs }
            | Expr::And { lhs, rhs }
            | Expr::Or { lhs, rhs } => {
                let mut names = lhs.variables_read();
                let more = rhs.variables_read();
                extend(&mut names, more);
                names
            },
            Expr::Neg { value } | Expr::Not { value } | Expr::Assign { value, .. } => {
                value.variables_read()
            },
        }
    }

    /// The names that the expression assigns to.
    pub fn variables_write(&self) -> (names: Vec<String>)
        ensures
            texts(names@) == writes(self@),
        decreases self,
    {
        match self {
            Expr::VariableRead { .. } | Expr::Const { .. } => {
                let names: Vec<String> = Vec::new();
                assert(texts(names@) =~= writes(self@));
                names
            },
            Expr::Call { identifier, args } => {
                let ghost ts = terms_of(args@);
                let mut names: Vec<String> = Vec::new();
                let mut i: usize = 0;
                assert(texts(names@) =~= writes_each(ts.take(0)));
                while i < args.len()
                    invariant
                        i <= args.len(),
                        self is Call,
                        self->args == *args,
                        ts == terms_of(args@),
                        texts(names@) == writes_each(ts.take(i as int)),
                    decreases args.len() - i,
                {
                    let more = args[i].variables_write();
                    extend(&mut names, more);
                    assert(ts.take(i + 1).drop_last() =~= ts.take(i as int));
                    i += 1;
                }
                assert(ts.take(i as int) =~= ts);
                names
            },
            Expr::Chain { side: lhs, ret: rhs }
            | Expr::Add { lhs, rhs }
            | Expr::Sub { lhs, rhs }
            | Expr::Mul { lhs, rhs }
            | Expr::Div { lhs, rhs }
            | Expr::Mod { lhs, rhs }
            | Expr::Exp { lhs, rhs }
            | Expr::Eq { lhs, rhs }
            | Expr::Neq { lhs, rhs }
            | Expr::Gt { lhs, rhs }
            | Expr::Lt { lhs, rhs }
            | Expr::Geq { lhs, rhs }
            | Expr::Leq { lhs, rhs }
            | Expr::And { lhs, rhs }
            | Expr::Or { lhs, rhs } => {
                let mut names = lhs.variables_write();
                let more = rhs.variables_write();
                extend(&mut names, more);
                names
            },
            Expr::Neg { value } | Expr::Not { value } => value.variables_write(),
            Expr::Assign { identifier, value } => {
                let mut names: Vec<String> = Vec::new();
                names.push(identifier.clone());
                assert(texts(names@) =~= seq![identifier@]);
                let more = value.variables_write();
                extend(&mut names, more);
                names
            },
        }
    }

    /// Every variable name that occurs in the expression.
    pub fn variables_all(&self) -> (names: Vec<String>)
        ensures
            texts(names@) == mentions(self@),
        decreases self,
    {
        match self {
            Expr::VariableRead { identifier } => {
                let mut names = Vec::new();
                names.push(identifier.clone());
                assert(texts(names@) =~= mentions(self@));
                names
            },
            Expr::Const { value } => {
                let names: Vec<String> = Vec::new();
                assert(texts(names@) =~= mentions(self@));
                names
            },
            Expr::Call { identifier, args } => {
                let ghost ts = terms_of(args@);
                let mut names: Vec<String> = Vec::new();
                let mut i: usize = 0;
                assert(texts(names@) =~= mentions_each(ts.take(0)));
                while i < args.len()
                    invariant
                        i <= args.len(),
                        self is Call,
                        self->args == *args,
                        ts == terms_of(args@),
                        texts(names@) == mentions_each(ts.take(i as int)),
                    decreases args.len() - i,
                {
                    let more = args[i].variables_all();
                    extend(&mut names, more);
                    assert(ts.take(i + 1).drop_last() =~= ts.take(i as int));
                    i += 1;
                }
                assert(ts.take(i as int) =~= ts);
                names
            },
            Expr::Chain { side: lhs, ret: rhs }
            | Expr::Add { lhs, rhs }
            | Expr::Sub { lhs, rhs }
            | Expr::Mul { lhs, rhs }
            | Expr::Div { lhs, rhs }
            | Expr::Mod { lhs, rhs }
            | Expr::Exp { lhs, rhs }
            | Expr::Eq { lhs, rhs }
            | Expr::Neq { lhs, rhs }
            | Expr::Gt { lhs, rhs }
            | Expr::Lt { lhs, rhs }
            | Expr::Geq { lhs, rhs }
            | Expr::Leq { lhs, rhs }
            | Expr::And { lhs, rhs }
            | Expr::Or { lhs, rhs } => {
                let mut names = lhs.variables_all();
                let more = rhs.variables_all();
                extend(&mut names, more);
                names
            },
            Expr::Neg { value } | Expr::Not { value } => value.variables_all(),
            Expr::Assign { identifier, value } => {
                let mut names: Vec<String> = Vec::new();
                names.push(identifier.clone());
                assert(texts(names@) =~= seq![identifier@]);
                let more = value.variables_all();
                extend(&mut names, more);
                names
            },
        }
    }

    /// The variable names of the expression: those it reads, those it assigns
    /// to, and those that occur in it without being assigned anywhere in it.
    pub fn variables(&self) -> (vars: Variables)
        ensures
            texts(vars.read@) == reads(self@),
            texts(vars.write@) == writes(self@),
            texts(vars.uninitialized@) == unassigned(self@),
    {
        let read = self.variables_read();
        let write = self.variables_write();
        let all = self.variables_all();
        let uninitialized = remove_known(&all, &write);
        Variables { read, write, uninitialized }
    }
}

/// The texts of the literals of a term, in the order in which they occur.
pub open spec fn literals(t: Term) -> Seq<Seq<char>>
    decreases t,
{
    match t {
        Term::Read { identifier } => Seq::empty(),
        Term::Const { text } => seq![text],
        Term::Chain { side, ret } => literals(*side) + literals(*ret),
        Term::Call { identifier, args } => literals_each(args),
        Term::Binary { op, lhs, rhs } => literals(*lhs) + literals(*rhs),
        Term::Unary { op, value } => literals(*value),
        Term::Assign { identifier, value } => literals(*value),
    }
}

/// The texts of the literals of the terms of a sequence.
pub open spec fn literals_each(ts: Seq<Term>) -> Seq<Seq<char>>
    decreases ts,
{
    if ts.len() == 0 {
        Seq::empty()
    } else {
        literals_each(ts.drop_last()) + literals(ts.last())
    }
}

impl Expr {
    /// The texts of the literals of the expression.
    pub fn literals(&self) -> (found: Vec<String>)
        ensures
            texts(found@) == literals(self@),
        decreases self,
    {
        match self {
            Expr::VariableRead { identifier } => {
                let found: Vec<String> = Vec::new();
                assert(texts(found@) =~= literals(self@));
                found
            },
            Expr::Const { value } => {
                let mut found = Vec::new();
                found.push(value.clone());
                assert(texts(found@) =~= literals(self@));
                found
            },
            Expr::Call { identifier, args } => {
                let ghost ts = terms_of(args@);
                let mut found: Vec<String> = Vec::new();
                let mut i: usize = 0;
                assert(texts(found@) =~= literals_each(ts.take(0)));
                while i < args.len()
                    invariant
                        i <= args.len(),
                        self is Call,
                        self->args == *args,
                        ts == terms_of(args@),
                        texts(found@) == literals_each(ts.take(i as int)),
                    decreases args.len() - i,
                {
                    let more = args[i].literals();
                    extend(&mut found, more);
                    assert(ts.take(i + 1).drop_last() =~= ts.take(i as int));
                    i += 1;
                }
                assert(ts.take(i as int) =~= ts);
                found
            },
            Expr::Chain { side: lhs, ret: rhs }
            | Expr::Add { lhs, rhs }
            | Expr::Sub { lhs, rhs }
            | Expr::Mul { lhs, rhs }
            | Expr::Div { lhs, rhs }
            | Expr::Mod { lhs, rhs }
            | Expr::Exp { lhs, rhs }
            | Expr::Eq { lhs, rhs }
            | Expr::Neq { lhs, rhs }
            | Expr::Gt { lhs, rhs }
            | Expr::Lt { lhs, rhs }
            | Expr::Geq { lhs, rhs }
            | Expr::Leq { lhs, rhs }
            | Expr::And { lhs, rhs }
            | Expr::Or { lhs, rhs } => {
                let mut found = lhs.literals();
                let more = rhs.literals();
                extend(&mut found, more);
                found
            },
            Expr::Neg { value } | Expr::Not { value } | Expr::Assign { value, .. } => value.literals(),
        }
    }
}

/// A name is left by `without` exactly if it is among `names` and not among
/// `known`.
pub proof fn lemma_without(names: Seq<Seq<char>>, known: Seq<Seq<char>>, name: Seq<char>)
    ensures
        without(names, known).contains(name) <==> names.contains(name) && !known.contains(name),
    decreases names.len(),
{
    reveal(Seq::filter);
    if names.len() > 0 {
        let rest = names.drop_last();
        lemma_without(rest, known, name);
        let keep = |n: Seq<char>| !known.contains(n);
        assert(without(rest, known) == rest.filter(keep));
        if names.contains(name) {
            let i = choose|i: int| 0 <= i < names.len() && names[i] == name;
            if i < names.len() - 1 {
                assert(rest[i] == name);
            }
        }
        if rest.contains(name) {
            let i = choose|i: int| 0 <= i < rest.len() && rest[i] == name;
            assert(names[i] == name);
        }
        if keep(names.last()) {
            let kept = rest.filter(keep);
            assert(names.filter(keep) == kept.push(names.last()));
            if kept.push(names.last()).contains(name) {
                let i = choose|i: int| 0 <= i < kept.len() + 1 && kept.push(names.last())[i] == name;
                if i < kept.len() {
                    assert(kept[i] == name);
                } else {
                    assert(names[names.len() - 1] == name);
                }
            }
            if kept.contains(name) {
                let i = choose|i: int| 0 <= i < kept.len() && kept[i] == name;
                assert(kept.push(names.last())[i] == name);
            }
            if name == names.last() {
                assert(kept.push(names.last())[kept.len() as int] == name);
                assert(names[names.len() - 1] == name);
            }
        } else {
            assert(names.filter(keep) == rest.filter(keep));
            if name == names.last() {
                assert(known.contains(name));
            }
        }
    }
}

/// Removing the names of one list and then those of another removes the
/// names of both.
pub proof fn lemma_without_twice(names: Seq<Seq<char>>, first: Seq<Seq<char>>, second: Seq<Seq<char>>)
    ensures
        without(without(names, first), second) == without(names, first + second),
    decreases names.len(),
{
    reveal(Seq::filter);
    let in_first = |n: Seq<char>| !first.contains(n);
    let in_second = |n: Seq<char>| !second.contains(n);
    let in_both = |n: Seq<char>| !(first + second).contains(n);
    if names.len() > 0 {
        let rest = names.drop_last();
        let last = names.last();
        lemma_without_twice(rest, first, second);
        assert((first + second).contains(last) <==> first.contains(last) || second.contains(last)) by {
            if (first + second).contains(last) {
                let i = choose|i: int| 0 <= i < (first + second).len() && (first + second)[i] == last;
                if i < first.len() {
                    assert(first[i] == last);
                } else {
                    assert(second[i - first.len()] == last);
                }
            }
            if first.contains(last) {
                let i = choose|i: int| 0 <= i < first.len() && first[i] == last;
                assert((first + second)[i] == last);
            }
            if second.contains(last) {
                let i = choose|i: int| 0 <= i < second.len() && second[i] == last;
                assert((first + second)[first.len() + i] == last);
            }
        }
        if in_first(last) {
            rest.filter(in_first).lemma_filter_push(last, in_second);
            assert(names.filter(in_first) == rest.filter(in_first).push(last));
        }
    } else {
        assert(names.filter(in_first) == names);
    }
}

/// The names that a term mentions are those that it reads and those that it
/// assigns to.
pub proof fn lemma_mentions(t: Term, name: Seq<char>)
    ensures
        mentions(t).contains(name) <==> reads(t).contains(name) || writes(t).contains(name),
    decreases t,
{
    match t {
        Term::Read { identifier } => {
            assert(seq![identifier][0] == identifier);
        },
        Term::Const { text } => {},
        Term::Chain { side, ret } => {
            lemma_mentions(*side, name);
            lemma_mentions(*ret, name);
            lemma_concat_contains(mentions(*side), mentions(*ret), name);
            lemma_concat_contains(reads(*side), reads(*ret), name);
            lemma_concat_contains(writes(*side), writes(*ret), name);
        },
        Term::Call { identifier, args } => {
            lemma_mentions_each(args, name);
        },
        Term::Binary { op, lhs, rhs } => {
            lemma_mentions(*lhs, name);
            lemma_mentions(*rhs, name);
            lemma_concat_contains(mentions(*lhs), mentions(*rhs), name);
            lemma_concat_contains(reads(*lhs), reads(*rhs), name);
            lemma_concat_contains(writes(*lhs), writes(*rhs), name);
        },
        Term::Unary { op, value } => {
            lemma_mentions(*value, name);
        },
        Term::Assign { identifier, value } => {
            lemma_mentions(*value, name);
            lemma_concat_contains(seq![identifier], mentions(*value), name);
            lemma_concat_contains(seq![identifier], writes(*value), name);
            assert(seq![identifier][0] == identifier);
        },
    }
}

/// `lemma_mentions`, for the terms of a sequence.
pub proof fn lemma_mentions_each(ts: Seq<Term>, name: Seq<char>)
    ensures
        mentions_each(ts).contains(name) <==> reads_each(ts).contains(name) || writes_each(ts).contains(
            name,
        ),
    decreases ts,
{
    if ts.len() > 0 {
        lemma_mentions_each(ts.drop_last(), name);
        lemma_mentions(ts.last(), name);
        lemma_concat_contains(mentions_each(ts.drop_last()), mentions(ts.last()), name);
        lemma_concat_contains(reads_each(ts.drop_last()), reads(ts.last()), name);
        lemma_concat_contains(writes_each(ts.drop_last()), writes(ts.last()), name);
    }
}

/// A name is in a concatenation exactly if it is in one of its parts.
pub proof fn lemma_concat_contains(a: Seq<Seq<char>>, b: Seq<Seq<char>>, name: Seq<char>)
    ensures
        (a + b).contains(name) <==> a.contains(name) || b.contains(name),
{
    if (a + b).contains(name) {
        let i = choose|i: int| 0 <= i < (a + b).len() && (a + b)[i] == name;
        if i < a.len() {
            assert(a[i] == name);
        } else {
            assert(b[i - a.len()] == name);
        }
    }
    if a.contains(name) {
        let i = choose|i: int| 0 <= i < a.len() && a[i] == name;
        assert((a + b)[i] == name);
    }
    if b.contains(name) {
        let i = choose|i: int| 0 <= i < b.len() && b[i] == name;
        assert((a + b)[a.len() + i] == name);
    }
}

/// The names of a term that are left undefined when `parameters` are
/// defined from outside: those that it mentions, does not assign to, and
/// that are no parameter.
pub open spec fn undefined(t: Term, parameters: Seq<Seq<char>>) -> Seq<Seq<char>> {
    without(unassigned(t), parameters)
}

/// The undefined names of a term are exactly those that it reads, that it
/// assigns nowhere, and that are not among the parameters.
pub proof fn lemma_undefined(t: Term, parameters: Seq<Seq<char>>, name: Seq<char>)
    ensures
        undefined(t, parameters).contains(name) <==> reads(t).contains(name) && !writes(t).contains(
            name,
        ) && !parameters.contains(name),
{
    lemma_without(unassigned(t), parameters, name);
    lemma_without(mentions(t), writes(t), name);
    lemma_mentions(t, name);
}

/// Where every name that a term reads is assigned somewhere in the term or
/// is a parameter, no name of the term is undefined.
pub proof fn lemma_defined_everywhere(t: Term, parameters: Seq<Seq<char>>)
    requires
        forall|name: Seq<char>|
            reads(t).contains(name) ==> writes(t).contains(name) || parameters.contains(name),
    ensures
        undefined(t, parameters).len() == 0,
{
    let left = undefined(t, parameters);
    if left.len() > 0 {
        assert(left.contains(left[0]));
        lemma_undefined(t, parameters, left[0]);
    }
}

} // verus!
