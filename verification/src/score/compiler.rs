//! The values of the expressions of a score, and the scores that the
//! definitions denote.

use vstd::prelude::*;
use vstd::string::*;
use crate::number::{answers, binary, serves_all, BinaryFunction, Operation, Real, ONE_BITS, ZERO_BITS};
use crate::pos::Pos;
use crate::score::parser::{
    definitions_view, functions_view, mappings_view, part_view, Arithmetic, Expression, ExpressionView, Function,
    FunctionView, Mapping, MappingView, Notes, NotesView, Prefix, Term, TermView,
};

verus! {

#[derive(Debug, PartialEq)]
pub enum CompileError<'s> {
    /// A literal that denotes no number.
    IllegalLiteral(&'s str, Pos),
    UndefinedVariable(&'s str, Pos),
    NoMainScore,
}

pub enum CompileErrorView {
    IllegalLiteral(Seq<char>, Pos),
    UndefinedVariable(Seq<char>, Pos),
    NoMainScore,
}

impl<'s> CompileError<'s> {
    pub open spec fn view(&self) -> CompileErrorView {
        match self {
            CompileError::IllegalLiteral(text, pos) => CompileErrorView::IllegalLiteral(text@, *pos),
            CompileError::UndefinedVariable(name, pos) => CompileErrorView::UndefinedVariable(name@, *pos),
            CompileError::NoMainScore => CompileErrorView::NoMainScore,
        }
    }
}

/// The value bound to `name` by the first of the first `n` entries that
/// bears the name.
pub open spec fn bound_in(entries: Seq<(&str, Real)>, name: Seq<char>, n: nat) -> Option<Real>
    decreases n,
{
    if n == 0 || n > entries.len() {
        None
    } else {
        match bound_in(entries, name, (n - 1) as nat) {
            Some(value) => Some(value),
            None => if entries[n - 1].0@ == name {
                Some(entries[n - 1].1)
            } else {
                None
            },
        }
    }
}

/// Tells whether two texts have the same characters.
pub fn same_text(left: &str, right: &str) -> (result: bool)
    ensures
        result == (left@ == right@),
{
    left.to_owned() == right.to_owned()
}

/// The parameters of a note: numbers bound to names.
#[derive(Debug, PartialEq)]
pub struct Parameters<'s> {
    pub entries: Vec<(&'s str, Real)>,
}

impl<'s> Parameters<'s> {
    /// The bindings: what each bound name holds. Of several entries with one
    /// name the first counts.
    pub open spec fn view(&self) -> Map<Seq<char>, Real> {
        Map::new(
            |name: Seq<char>| bound_in(self.entries@, name, self.entries.len() as nat) is Some,
            |name: Seq<char>| bound_in(self.entries@, name, self.entries.len() as nat)->Some_0,
        )
    }

    /// No name has two entries.
    pub open spec fn well_formed(&self) -> bool {
        forall|i: int, j: int|
            0 <= i < j < self.entries.len() ==> (#[trigger] self.entries[i]).0@ != (#[trigger] self.entries[j]).0@
    }

    pub fn new() -> (result: Parameters<'s>)
        ensures
            result@ == Map::<Seq<char>, Real>::empty(),
            result.well_formed(),
    {
        let result = Parameters { entries: Vec::new() };
        assert(result@ =~= Map::<Seq<char>, Real>::empty());
        result
    }

    /// The place of the entry with this name.
    fn find(&self, name: &str) -> (result: Option<usize>)
        ensures
            match result {
                Some(i) => i < self.entries.len() && self.entries[i as int].0@ == name@ && bound_in(
                    self.entries@,
                    name@,
                    self.entries.len() as nat,
                ) == Some(self.entries[i as int].1) && forall|k: int|
                    0 <= k < i ==> (#[trigger] self.entries[k]).0@ != name@,
                None => bound_in(self.entries@, name@, self.entries.len() as nat) is None && forall|k: int|
                    0 <= k < self.entries.len() ==> (#[trigger] self.entries[k]).0@ != name@,
            },
    {
        let mut i: usize = 0;
        while i < self.entries.len()
            invariant
                i <= self.entries.len(),
                bound_in(self.entries@, name@, i as nat) is None,
                forall|k: int| 0 <= k < i ==> (#[trigger] self.entries[k]).0@ != name@,
            decreases self.entries.len() - i,
        {
            if same_text(self.entries[i].0, name) {
                proof {
                    lemma_bound_stays(self.entries@, name@, (i + 1) as nat, self.entries.len() as nat);
                }
                return Some(i);
            }
            i += 1;
        }
        None
    }

    /// The number bound to `name`, if there is one.
    pub fn get(&self, name: &str) -> (result: Option<Real>)
        ensures
            result == if self@.contains_key(name@) {
                Some(self@[name@])
            } else {
                None
            },
    {
        match self.find(name) {
            Some(i) => Some(self.entries[i].1),
            None => None,
        }
    }

    /// Binds `name` to `value`; an earlier binding of the name is replaced.
    pub fn insert(&mut self, name: &'s str, value: Real)
        requires
            old(self).well_formed(),
        ensures
            final(self).well_formed(),
            final(self)@ == old(self)@.insert(name@, value),
    {
        match self.find(name) {
            Some(i) => {
                self.entries[i] = (name, value);
                proof {
                    assert forall|key: Seq<char>|
                        bound_in(self.entries@, key, self.entries.len() as nat) == (if key == name@ {
                            Some(value)
                        } else {
                            bound_in(old(self).entries@, key, old(self).entries.len() as nat)
                        }) by {
                        lemma_bound_is_the_first(self.entries@, key);
                        lemma_bound_is_the_first(old(self).entries@, key);
                        if key == name@ {
                            assert(self.entries[i as int].0@ == key);
                        } else if bound_in(old(self).entries@, key, old(self).entries.len() as nat) is Some {
                            let k = choose|k: int|
                                0 <= k < old(self).entries.len() && (#[trigger] old(self).entries[k]).0@ == key;
                            assert(self.entries[k].0@ == key);
                        } else if bound_in(self.entries@, key, self.entries.len() as nat) is Some {
                            let k = choose|k: int|
                                0 <= k < self.entries.len() && (#[trigger] self.entries[k]).0@ == key;
                            assert(old(self).entries[k].0@ == key);
                        }
                    }
                    assert(self@ =~= old(self)@.insert(name@, value));
                }
            },
            None => {
                self.entries.push((name, value));
                proof {
                    assert forall|key: Seq<char>|
                        bound_in(self.entries@, key, self.entries.len() as nat) == (if key == name@ {
                            Some(value)
                        } else {
                            bound_in(old(self).entries@, key, old(self).entries.len() as nat)
                        }) by {
                        lemma_bound_of_prefix(
                            old(self).entries@,
                            self.entries@,
                            key,
                            old(self).entries.len() as nat,
                        );
                    }
                    assert(self@ =~= old(self)@.insert(name@, value));
                }
            },
        }
    }

    /// Takes the binding of `name` away, if there is one.
    pub fn remove(&mut self, name: &str)
        requires
            old(self).well_formed(),
        ensures
            final(self).well_formed(),
            final(self)@ == old(self)@.remove(name@),
    {
        match self.find(name) {
            Some(i) => {
                self.entries.remove(i);
                proof {
                    assert forall|key: Seq<char>|
                        bound_in(self.entries@, key, self.entries.len() as nat) == (if key == name@ {
                            None
                        } else {
                            bound_in(old(self).entries@, key, old(self).entries.len() as nat)
                        }) by {
                        lemma_bound_is_the_first(self.entries@, key);
                        lemma_bound_is_the_first(old(self).entries@, key);
                        if bound_in(self.entries@, key, self.entries.len() as nat) is Some {
                            let k = choose|k: int|
                                0 <= k < self.entries.len() && (#[trigger] self.entries[k]).0@ == key;
                            if k < i {
                                assert(old(self).entries[k].0@ == key);
                            } else {
                                assert(old(self).entries[k + 1].0@ == key);
                            }
                        }
                        if key != name@ && bound_in(old(self).entries@, key, old(self).entries.len() as nat)
                            is Some {
                            let k = choose|k: int|
                                0 <= k < old(self).entries.len() && (#[trigger] old(self).entries[k]).0@ == key;
                            if k < i {
                                assert(self.entries[k].0@ == key);
                            } else {
                                assert(self.entries[k - 1].0@ == key);
                            }
                        }
                    }
                    assert(self@ =~= old(self)@.remove(name@));
                }
            },
            None => {
                assert(self@ =~= old(self)@.remove(name@));
            },
        }
    }

    /// A copy with the same entries.
    pub fn duplicate(&self) -> (result: Parameters<'s>)
        ensures
            result.entries@ == self.entries@,
    {
        let mut entries: Vec<(&'s str, Real)> = Vec::new();
        let mut i: usize = 0;
        while i < self.entries.len()
            invariant
                i <= self.entries.len(),
                entries@ == self.entries@.take(i as int),
            decreases self.entries.len() - i,
        {
            entries.push(self.entries[i]);
            assert(self.entries@.take(i + 1) =~= self.entries@.take(i as int).push(self.entries[i as int]));
            i += 1;
        }
        assert(self.entries@.take(self.entries.len() as int) =~= self.entries@);
        Parameters { entries }
    }
}

/// What the first `n` entries bind to a name, all the entries bind to it
/// too, where the first ones bind anything.
pub proof fn lemma_bound_stays(entries: Seq<(&str, Real)>, name: Seq<char>, n: nat, m: nat)
    requires
        n <= m <= entries.len(),
        bound_in(entries, name, n) is Some,
    ensures
        bound_in(entries, name, m) == bound_in(entries, name, n),
    decreases m - n,
{
    if n < m {
        lemma_bound_stays(entries, name, n, (m - 1) as nat);
    }
}

/// A name is bound exactly where an entry bears it, and then to the number
/// of the first such entry.
pub proof fn lemma_bound_is_the_first(entries: Seq<(&str, Real)>, name: Seq<char>)
    ensures
        bound_in(entries, name, entries.len()) is Some <==> exists|k: int|
            0 <= k < entries.len() && (#[trigger] entries[k]).0@ == name,
        forall|k: int|
            0 <= k < entries.len() && (#[trigger] entries[k]).0@ == name && (forall|j: int|
                0 <= j < k ==> (#[trigger] entries[j]).0@ != name) ==> bound_in(entries, name, entries.len())
                == Some(entries[k].1),
{
    lemma_bound_of_first(entries, name, entries.len());
}

/// The statements of `lemma_bound_is_the_first` for the first `n` entries.
pub proof fn lemma_bound_of_first(entries: Seq<(&str, Real)>, name: Seq<char>, n: nat)
    requires
        n <= entries.len(),
    ensures
        bound_in(entries, name, n) is Some <==> exists|k: int| 0 <= k < n && (#[trigger] entries[k]).0@ == name,
        forall|k: int|
            0 <= k < n && (#[trigger] entries[k]).0@ == name && (forall|j: int|
                0 <= j < k ==> (#[trigger] entries[j]).0@ != name) ==> bound_in(entries, name, n) == Some(
                entries[k].1,
            ),
    decreases n,
{
    if n > 0 {
        lemma_bound_of_first(entries, name, (n - 1) as nat);
        if bound_in(entries, name, (n - 1) as nat) is Some {
            let k = choose|k: int| 0 <= k < n - 1 && (#[trigger] entries[k]).0@ == name;
            assert(entries[k].0@ == name);
        } else if entries[n - 1].0@ == name {
            assert(entries[n - 1].0@ == name);
        }
        assert forall|k: int|
            0 <= k < n && (#[trigger] entries[k]).0@ == name && (forall|j: int|
                0 <= j < k ==> (#[trigger] entries[j]).0@ != name) implies bound_in(entries, name, n) == Some(
            entries[k].1,
        ) by {
            if k < n - 1 {
            } else {
                if bound_in(entries, name, (n - 1) as nat) is Some {
                    let j = choose|j: int| 0 <= j < n - 1 && (#[trigger] entries[j]).0@ == name;
                    assert(entries[j].0@ != name);
                }
            }
        }
    }
}

/// Entries behind the first `n` do not change what the first `n` bind.
pub proof fn lemma_bound_of_prefix(shorter: Seq<(&str, Real)>, longer: Seq<(&str, Real)>, name: Seq<char>, n: nat)
    requires
        n <= shorter.len(),
        n <= longer.len(),
        forall|k: int| 0 <= k < n ==> shorter[k] == longer[k],
    ensures
        bound_in(shorter, name, n) == bound_in(longer, name, n),
    decreases n,
{
    if n > 0 {
        lemma_bound_of_prefix(shorter, longer, name, (n - 1) as nat);
    }
}

/// The reader of literals accepts every text.
pub open spec fn reads_all<L: Fn(&str) -> Option<Real>>(literal: &L) -> bool {
    forall|text: &str| call_requires(*literal, (text,))
}

/// `out` is a possible reply of the reader of literals to `text`: the
/// number that the text denotes, or nothing.
pub open spec fn replies<L: Fn(&str) -> Option<Real>>(literal: &L, text: &str, out: Option<Real>) -> bool {
    call_ensures(*literal, (text,), out)
}

/// The state of the evaluation of a sum of products: the sum of the
/// products that are complete, and the product that is being made; or
/// nothing, once a term has no value.
pub struct Fold {
    pub state: Result<Option<(Real, Real)>, CompileErrorView>,
}

/// The value of an expression whose evaluation has ended in this state.
pub open spec fn finished(fold: Fold) -> Result<Option<Real>, CompileErrorView> {
    match fold.state {
        Err(error) => Err(error),
        Ok(None) => Ok(None),
        Ok(Some((sum, _))) => Ok(Some(sum)),
    }
}

/// The state before a term and the value of the term, as a pair.
pub open spec fn turn(before: Fold, value: Result<Option<Real>, CompileErrorView>) -> (
    Fold,
    Result<Option<Real>, CompileErrorView>,
) {
    (before, value)
}

/// `out` is a possible state after a term of value `value`: the product is
/// multiplied by the value, and where the term ends its product, the product
/// is added to the sum and a new product begins with one. A term without
/// value ends the evaluation without value, an error ends it with the error.
pub open spec fn advanced<F: Fn(Operation) -> Real>(
    ops: &F,
    sum: Real,
    product: Real,
    value: Result<Option<Real>, CompileErrorView>,
    arithmetic: Arithmetic,
    out: Fold,
) -> bool {
    match value {
        Err(error) => out.state == Err::<Option<(Real, Real)>, CompileErrorView>(error),
        Ok(None) => out.state == Ok::<Option<(Real, Real)>, CompileErrorView>(None),
        Ok(Some(factor)) => exists|multiplied: Real|
            {
                &&& #[trigger] answers(ops, Operation::Binary(BinaryFunction::Mul, product, factor), multiplied)
                &&& match arithmetic {
                    Arithmetic::Mul => out.state == Ok::<Option<(Real, Real)>, CompileErrorView>(
                        Some((sum, multiplied)),
                    ),
                    Arithmetic::Add => out.state is Ok && out.state->Ok_0 is Some && out.state->Ok_0->Some_0.1
                        == Real::of_bits(ONE_BITS) && answers(
                        ops,
                        Operation::Binary(BinaryFunction::Add, sum, multiplied),
                        out.state->Ok_0->Some_0.0,
                    ),
                }
            },
    }
}

/// `out` is a possible value of the term: a name has the value bound to it,
/// and `null` has none; a literal has the number that it denotes; a prefix
/// negates or inverts the value of its term, or leaves it; a group has the
/// value of its expression.
pub open spec fn term_valued<F: Fn(Operation) -> Real, L: Fn(&str) -> Option<Real>>(
    term: TermView,
    variables: Map<Seq<char>, Real>,
    ops: &F,
    literal: &L,
    out: Result<Option<Real>, CompileErrorView>,
) -> bool
    decreases term,
{
    match term {
        TermView::Identifier(name, _) => out == Ok::<Option<Real>, CompileErrorView>(
            if name != "null"@ && variables.contains_key(name) {
                Some(variables[name])
            } else {
                None
            },
        ),
        TermView::Literal(text, pos) => literal_valued(literal, text, pos, out),
        TermView::Prefix(prefix, inner) => exists|under: Result<Option<Real>, CompileErrorView>|
            #![trigger prefixed(ops, prefix, under, out)]
            term_valued(*inner, variables, ops, literal, under) && prefixed(ops, prefix, under, out),
        TermView::Group(expression) => expression_valued(expression, variables, ops, literal, out),
    }
}

/// `out` is a possible value of a literal: the number that it denotes, or
/// an error where it denotes none.
pub open spec fn literal_valued<L: Fn(&str) -> Option<Real>>(
    literal: &L,
    text: Seq<char>,
    pos: Pos,
    out: Result<Option<Real>, CompileErrorView>,
) -> bool {
    exists|text_read: &str|
        #![trigger replies(literal, text_read, numbered(out))]
        text_read@ == text && replies(literal, text_read, numbered(out)) && out == match numbered(out) {
            Some(value) => Ok::<Option<Real>, CompileErrorView>(Some(value)),
            None => Err::<Option<Real>, CompileErrorView>(CompileErrorView::IllegalLiteral(text, pos)),
        }
}

/// The number in the value of a term, if it holds one.
pub open spec fn numbered(out: Result<Option<Real>, CompileErrorView>) -> Option<Real> {
    match out {
        Ok(Some(value)) => Some(value),
        _ => None,
    }
}

/// `out` is a possible value of a term with this prefix whose inner term
/// has the value `under`.
pub open spec fn prefixed<F: Fn(Operation) -> Real>(
    ops: &F,
    prefix: Prefix,
    under: Result<Option<Real>, CompileErrorView>,
    out: Result<Option<Real>, CompileErrorView>,
) -> bool {
    match under {
        Ok(Some(value)) => match prefix {
            Prefix::Add => out == under,
            Prefix::Mul => out == under,
            Prefix::Sub => out == Ok::<Option<Real>, CompileErrorView>(Some(value.negated())),
            Prefix::Div => out is Ok && out->Ok_0 is Some && answers(
                ops,
                Operation::Binary(BinaryFunction::Div, Real::of_bits(ONE_BITS), value),
                out->Ok_0->Some_0,
            ),
        },
        _ => out == under,
    }
}

/// `out` is a possible value of the expression: the sum of its products.
pub open spec fn expression_valued<F: Fn(Operation) -> Real, L: Fn(&str) -> Option<Real>>(
    expression: ExpressionView,
    variables: Map<Seq<char>, Real>,
    ops: &F,
    literal: &L,
    out: Result<Option<Real>, CompileErrorView>,
) -> bool
    decreases expression,
{
    exists|fold: Fold|
        folded(expression.terms, variables, ops, literal, expression.terms.len(), fold) && out == #[trigger] finished(
            fold,
        )
}

/// `out` is a possible state of the evaluation after the first `n` terms.
pub open spec fn folded<F: Fn(Operation) -> Real, L: Fn(&str) -> Option<Real>>(
    terms: Seq<(TermView, Arithmetic)>,
    variables: Map<Seq<char>, Real>,
    ops: &F,
    literal: &L,
    n: nat,
    out: Fold,
) -> bool
    decreases terms, n,
{
    if n == 0 || n > terms.len() {
        out.state == Ok::<Option<(Real, Real)>, CompileErrorView>(
            Some((Real::of_bits(ZERO_BITS), Real::of_bits(ONE_BITS))),
        )
    } else {
        exists|before: Fold, value: Result<Option<Real>, CompileErrorView>|
            #![trigger turn(before, value)]
            {
                &&& folded(terms, variables, ops, literal, (n - 1) as nat, before)
                &&& match before.state {
                    Ok(Some((sum, product))) => term_valued(terms[n - 1].0, variables, ops, literal, value)
                        && advanced(ops, sum, product, value, terms[n - 1].1, out),
                    _ => out == before,
                }
            }
    }
}

/// Once the evaluation has ended, further terms change nothing.
pub proof fn lemma_fold_ends<F: Fn(Operation) -> Real, L: Fn(&str) -> Option<Real>>(
    terms: Seq<(TermView, Arithmetic)>,
    variables: Map<Seq<char>, Real>,
    ops: &F,
    literal: &L,
    n: nat,
    m: nat,
    out: Fold,
)
    requires
        n <= m <= terms.len(),
        !(out.state is Ok && out.state->Ok_0 is Some),
        folded(terms, variables, ops, literal, n, out),
    ensures
        folded(terms, variables, ops, literal, m, out),
    decreases m - n,
{
    if n < m {
        lemma_fold_ends(terms, variables, ops, literal, n, (m - 1) as nat, out);
        let value = Ok::<Option<Real>, CompileErrorView>(None);
        assert(turn(out, value) == (out, value));
    }
}

impl<'s> Term<'s> {
    /// The value of the term, where the names have the values `variables`;
    /// `None` where the term has no value.
    pub fn value<F: Fn(Operation) -> Real, L: Fn(&str) -> Option<Real>>(
        &self,
        variables: &Parameters<'s>,
        ops: &F,
        literal: &L,
    ) -> (result: Result<Option<Real>, CompileError<'s>>)
        requires
            serves_all(ops),
            reads_all(literal),
        ensures
            term_valued(self.view(), variables@, ops, literal, value_view(result)),
        decreases self,
    {
        match self {
            Term::Identifier(name, _) => {
                if same_text(*name, "null") {
                    Ok(None)
                } else {
                    Ok(variables.get(*name))
                }
            },
            Term::Literal(text, pos) => {
                let read = literal(*text);
                assert(replies(literal, *text, read));
                let result = match read {
                    Some(value) => Ok(Some(value)),
                    None => Err(CompileError::IllegalLiteral(text, *pos)),
                };
                assert(numbered(value_view(result)) == read);
                result
            },
            Term::Prefix(prefix, term) => {
                let under = term.value(variables, ops, literal);
                let result = match under {
                    Ok(Some(value)) => match prefix {
                        Prefix::Add => Ok(Some(value)),
                        Prefix::Mul => Ok(Some(value)),
                        Prefix::Sub => Ok(Some(value.negate())),
                        Prefix::Div => Ok(Some(binary(ops, BinaryFunction::Div, Real::one(), value))),
                    },
                    Ok(None) => Ok(None),
                    Err(error) => Err(error),
                };
                assert(prefixed(ops, *prefix, value_view(under), value_view(result)));
                result
            },
            Term::Group(expression) => expression.value(variables, ops, literal),
        }
    }
}

/// The value of a term or of an expression, by what it holds.
pub open spec fn value_view<'s>(result: Result<Option<Real>, CompileError<'s>>) -> Result<
    Option<Real>,
    CompileErrorView,
> {
    match result {
        Ok(value) => Ok(value),
        Err(error) => Err(error.view()),
    }
}

impl<'s> Expression<'s> {
    /// The value of the expression, where the names have the values
    /// `variables`; `None` where a term has no value.
    pub fn value<F: Fn(Operation) -> Real, L: Fn(&str) -> Option<Real>>(
        &self,
        variables: &Parameters<'s>,
        ops: &F,
        literal: &L,
    ) -> (result: Result<Option<Real>, CompileError<'s>>)
        requires
            serves_all(ops),
            reads_all(literal),
        ensures
            expression_valued(self.view(), variables@, ops, literal, value_view(result)),
        decreases self,
    {
        let ghost terms = self.view().terms;
        let mut sum = Real::zero();
        let mut product = Real::one();
        let mut i: usize = 0;
        while i < self.terms.len()
            invariant
                serves_all(ops),
                reads_all(literal),
                i <= self.terms.len(),
                terms == self.view().terms,
                terms.len() == self.terms.len(),
                folded(terms, variables@, ops, literal, i as nat, Fold { state: Ok(Some((sum, product))) }),
            decreases self.terms.len() - i,
        {
            let ghost before = Fold { state: Ok(Some((sum, product))) };
            assert(terms[i as int] == (self.terms[i as int].0.view(), self.terms[i as int].1));
            let value = self.terms[i].0.value(variables, ops, literal);
            let arithmetic = self.terms[i].1;
            match value {
                Ok(Some(factor)) => {
                    product = binary(ops, BinaryFunction::Mul, product, factor);
                    match arithmetic {
                        Arithmetic::Add => {
                            sum = binary(ops, BinaryFunction::Add, sum, product);
                            product = Real::one();
                        },
                        Arithmetic::Mul => {},
                    }
                    proof {
                        let after = Fold { state: Ok(Some((sum, product))) };
                        assert(turn(before, value_view(value)) == (before, value_view(value)));
                        assert(advanced(
                            ops,
                            before.state->Ok_0->Some_0.0,
                            before.state->Ok_0->Some_0.1,
                            value_view(value),
                            arithmetic,
                            after,
                        ));
                    }
                },
                Ok(None) => {
                    proof {
                        let after = Fold { state: Ok(None) };
                        assert(turn(before, value_view(value)) == (before, value_view(value)));
                        assert(folded(terms, variables@, ops, literal, (i + 1) as nat, after));
                        lemma_fold_ends(terms, variables@, ops, literal, (i + 1) as nat, terms.len(), after);
                        assert(finished(after) == Ok::<Option<Real>, CompileErrorView>(None));
                    }
                    return Ok(None);
                },
                Err(error) => {
                    proof {
                        let after = Fold { state: Err(error.view()) };
                        assert(turn(before, value_view(value)) == (before, value_view(value)));
                        assert(folded(terms, variables@, ops, literal, (i + 1) as nat, after));
                        lemma_fold_ends(terms, variables@, ops, literal, (i + 1) as nat, terms.len(), after);
                        assert(finished(after) == Err::<Option<Real>, CompileErrorView>(error.view()));
                    }
                    return Err(error);
                },
            }
            i += 1;
        }
        proof {
            let after = Fold { state: Ok(Some((sum, product))) };
            assert(finished(after) == Ok::<Option<Real>, CompileErrorView>(Some(sum)));
        }
        Ok(Some(sum))
    }
}

/// The bits of `1e-5`, the tolerance of the conditions of a function.
pub const CONDITION_TOLERANCE_BITS: u64 = 0x3EE4_F8B5_88E3_68F1;

/// A score: a note with its parameters, notes in a row, or notes in a
/// column.
#[derive(Debug, PartialEq)]
pub enum Score<'s> {
    Note(Parameters<'s>),
    Row(Vec<Score<'s>>),
    Column(Vec<Score<'s>>),
}

/// What a [`Score`] holds, with maps and sequences in place of the lists.
pub enum ScoreView {
    Note(Map<Seq<char>, Real>),
    Row(Seq<ScoreView>),
    Column(Seq<ScoreView>),
}

/// The scores, each by what it holds.
pub open spec fn scores_view<'s>(scores: Seq<Score<'s>>) -> Seq<ScoreView> {
    Seq::new(scores.len(), |i: int| scores[i].view())
}

impl<'s> Score<'s> {
    pub open spec fn view(&self) -> ScoreView
        decreases self,
    {
        match self {
            Score::Note(parameters) => ScoreView::Note(parameters@),
            Score::Row(items) => ScoreView::Row(
                Seq::new(
                    items.len() as nat,
                    |i: int|
                        if 0 <= i < items.len() {
                            items[i].view()
                        } else {
                            arbitrary()
                        },
                ),
            ),
            Score::Column(items) => ScoreView::Column(
                Seq::new(
                    items.len() as nat,
                    |i: int|
                        if 0 <= i < items.len() {
                            items[i].view()
                        } else {
                            arbitrary()
                        },
                ),
            ),
        }
    }

    /// In every note no name has two entries.
    pub open spec fn well_formed(&self) -> bool
        decreases self,
    {
        match self {
            Score::Note(parameters) => parameters.well_formed(),
            Score::Row(items) => forall|i: int| 0 <= i < items.len() ==> (#[trigger] items[i]).well_formed(),
            Score::Column(items) => forall|i: int| 0 <= i < items.len() ==> (#[trigger] items[i]).well_formed(),
        }
    }

    /// A copy with the same contents.
    pub fn duplicate(&self) -> (result: Score<'s>)
        ensures
            result.view() == self.view(),
            self.well_formed() ==> result.well_formed(),
        decreases self,
    {
        match self {
            Score::Note(parameters) => {
                let copy = parameters.duplicate();
                assert(copy@ =~= parameters@);
                Score::Note(copy)
            },
            Score::Row(items) => {
                let copies = duplicate_all(items);
                let result = Score::Row(copies);
                assert(result.view()->Row_0 =~= self.view()->Row_0);
                result
            },
            Score::Column(items) => {
                let copies = duplicate_all(items);
                let result = Score::Column(copies);
                assert(result.view()->Column_0 =~= self.view()->Column_0);
                result
            },
        }
    }
}

/// Copies of the scores.
fn duplicate_all<'s>(items: &Vec<Score<'s>>) -> (result: Vec<Score<'s>>)
    ensures
        result.len() == items.len(),
        forall|i: int| 0 <= i < items.len() ==> (#[trigger] result[i]).view() == items[i].view(),
        forall|i: int| 0 <= i < items.len() && items[i].well_formed() ==> (#[trigger] result[i]).well_formed(),
    decreases items,
{
    let mut copies: Vec<Score<'s>> = Vec::new();
    let mut i: usize = 0;
    while i < items.len()
        invariant
            i <= items.len(),
            copies.len() == i,
            forall|k: int| 0 <= k < i ==> (#[trigger] copies[k]).view() == items[k].view(),
            forall|k: int| 0 <= k < i && items[k].well_formed() ==> (#[trigger] copies[k]).well_formed(),
        decreases items.len() - i,
    {
        copies.push(items[i].duplicate());
        i += 1;
    }
    copies
}

/// `out` is a possible outcome of one condition `name = right` on a note
/// that binds `left` to the name, `flag` telling whether the conditions
/// before it were met: the condition is met where neither side has a value,
/// or where both have one and these differ by less than the tolerance.
pub open spec fn weighed<F: Fn(Operation) -> Real>(
    ops: &F,
    flag: bool,
    left: Option<Real>,
    right: Result<Option<Real>, CompileErrorView>,
    out: Result<bool, CompileErrorView>,
) -> bool {
    match right {
        Err(error) => out == Err::<bool, CompileErrorView>(error),
        Ok(None) => out == Ok::<bool, CompileErrorView>(flag && left is None),
        Ok(Some(value)) => match left {
            None => out == Ok::<bool, CompileErrorView>(false),
            Some(bound) => exists|difference: Real|
                #![trigger answers(ops, Operation::Binary(BinaryFunction::Sub, bound, value), difference)]
                answers(ops, Operation::Binary(BinaryFunction::Sub, bound, value), difference) && out == Ok::<
                    bool,
                    CompileErrorView,
                >(flag && difference.absolute().less(Real::of_bits(CONDITION_TOLERANCE_BITS))),
        },
    }
}

/// The value bound to a name, if one is.
pub open spec fn lookup(parameters: Map<Seq<char>, Real>, name: Seq<char>) -> Option<Real> {
    if parameters.contains_key(name) {
        Some(parameters[name])
    } else {
        None
    }
}

/// The outcome of the conditions before a condition and the value of its
/// right side, as a pair.
pub open spec fn trial(before: Result<bool, CompileErrorView>, right: Result<Option<Real>, CompileErrorView>) -> (
    Result<bool, CompileErrorView>,
    Result<Option<Real>, CompileErrorView>,
) {
    (before, right)
}

/// `out` is a possible outcome of the first `n` conditions on a note with
/// these parameters: whether all of them are met, or the first error.
pub open spec fn tried<F: Fn(Operation) -> Real, L: Fn(&str) -> Option<Real>>(
    conditions: Seq<(Seq<char>, ExpressionView)>,
    parameters: Map<Seq<char>, Real>,
    ops: &F,
    literal: &L,
    n: nat,
    out: Result<bool, CompileErrorView>,
) -> bool
    decreases n,
{
    if n == 0 || n > conditions.len() {
        out == Ok::<bool, CompileErrorView>(true)
    } else {
        exists|before: Result<bool, CompileErrorView>, right: Result<Option<Real>, CompileErrorView>|
            #![trigger trial(before, right)]
            {
                &&& tried(conditions, parameters, ops, literal, (n - 1) as nat, before)
                &&& match before {
                    Err(_) => out == before,
                    Ok(flag) => expression_valued(conditions[n - 1].1, parameters, ops, literal, right) && weighed(
                        ops,
                        flag,
                        lookup(parameters, conditions[n - 1].0),
                        right,
                        out,
                    ),
                }
            }
    }
}

/// After an error the other conditions are not tried.
pub proof fn lemma_trial_ends<F: Fn(Operation) -> Real, L: Fn(&str) -> Option<Real>>(
    conditions: Seq<(Seq<char>, ExpressionView)>,
    parameters: Map<Seq<char>, Real>,
    ops: &F,
    literal: &L,
    n: nat,
    m: nat,
    out: Result<bool, CompileErrorView>,
)
    requires
        n <= m <= conditions.len(),
        out is Err,
        tried(conditions, parameters, ops, literal, n, out),
    ensures
        tried(conditions, parameters, ops, literal, m, out),
    decreases m - n,
{
    if n < m {
        lemma_trial_ends(conditions, parameters, ops, literal, n, (m - 1) as nat, out);
        let right = Ok::<Option<Real>, CompileErrorView>(None);
        assert(trial(out, right) == (out, right));
    }
}

/// The parameters of a note while assignments are made, and the error that
/// has ended them, if one has.
pub struct Assigned {
    pub parameters: Map<Seq<char>, Real>,
    pub error: Option<CompileErrorView>,
}

/// The state after an assignment `name = right`: nothing changes after an
/// error; a value is bound to the name; without a value the binding of the
/// name is taken away.
pub open spec fn assign(before: Assigned, name: Seq<char>, right: Result<Option<Real>, CompileErrorView>) -> Assigned {
    if before.error is Some {
        before
    } else {
        match right {
            Err(error) => Assigned { parameters: before.parameters, error: Some(error) },
            Ok(Some(value)) => Assigned { parameters: before.parameters.insert(name, value), error: None },
            Ok(None) => Assigned { parameters: before.parameters.remove(name), error: None },
        }
    }
}

/// `out` is a possible state after the first `n` assignments, each made
/// with the parameters as the assignments before it have left them.
pub open spec fn assigned<F: Fn(Operation) -> Real, L: Fn(&str) -> Option<Real>>(
    assignments: Seq<(Seq<char>, ExpressionView)>,
    parameters: Map<Seq<char>, Real>,
    ops: &F,
    literal: &L,
    n: nat,
    out: Assigned,
) -> bool
    decreases n,
{
    if n == 0 || n > assignments.len() {
        out == (Assigned { parameters, error: None })
    } else {
        exists|before: Assigned, right: Result<Option<Real>, CompileErrorView>|
            #![trigger assign(before, assignments[n - 1].0, right)]
            {
                &&& assigned(assignments, parameters, ops, literal, (n - 1) as nat, before)
                &&& before.error is None ==> expression_valued(
                    assignments[n - 1].1,
                    before.parameters,
                    ops,
                    literal,
                    right,
                )
                &&& out == assign(before, assignments[n - 1].0, right)
            }
    }
}

/// After an error no further assignment is made.
pub proof fn lemma_assignment_ends<F: Fn(Operation) -> Real, L: Fn(&str) -> Option<Real>>(
    assignments: Seq<(Seq<char>, ExpressionView)>,
    parameters: Map<Seq<char>, Real>,
    ops: &F,
    literal: &L,
    n: nat,
    m: nat,
    out: Assigned,
)
    requires
        n <= m <= assignments.len(),
        out.error is Some,
        assigned(assignments, parameters, ops, literal, n, out),
    ensures
        assigned(assignments, parameters, ops, literal, m, out),
    decreases m - n,
{
    if n < m {
        lemma_assignment_ends(assignments, parameters, ops, literal, n, (m - 1) as nat, out);
        let right = Ok::<Option<Real>, CompileErrorView>(None);
        assert(out == assign(out, assignments[m - 1].0, right));
    }
}

/// The outcome of a function on a note, from the outcome of its conditions
/// and, where they are met, of its assignments: the parameters of the note
/// afterwards, and the error, if there is one.
pub open spec fn settled(
    parameters: Map<Seq<char>, Real>,
    met: Result<bool, CompileErrorView>,
    made: Assigned,
) -> Assigned {
    match met {
        Err(error) => Assigned { parameters, error: Some(error) },
        Ok(false) => Assigned { parameters, error: None },
        Ok(true) => made,
    }
}

/// `out` is a possible outcome of a function on a note with these
/// parameters.
pub open spec fn note_mapped<F: Fn(Operation) -> Real, L: Fn(&str) -> Option<Real>>(
    parameters: Map<Seq<char>, Real>,
    function: FunctionView,
    ops: &F,
    literal: &L,
    out: Assigned,
) -> bool {
    exists|met: Result<bool, CompileErrorView>, made: Assigned|
        #![trigger settled(parameters, met, made)]
        {
            &&& tried(function.conditions, parameters, ops, literal, function.conditions.len(), met)
            &&& met == Ok::<bool, CompileErrorView>(true) ==> assigned(
                function.assignments,
                parameters,
                ops,
                literal,
                function.assignments.len(),
                made,
            )
            &&& out == settled(parameters, met, made)
        }
}

/// The scores of a row or a column while a function is applied to them one
/// after the other, and the error that has ended this, if one has.
pub struct Applied {
    pub scores: Seq<ScoreView>,
    pub error: Option<CompileErrorView>,
}

/// The outcome of a function on a score: the score afterwards, and the
/// error, if there is one.
pub struct Mapped {
    pub score: ScoreView,
    pub error: Option<CompileErrorView>,
}

/// The state after the function was applied to the score at place `i`
/// with the outcome `item`; nothing changes after an error.
pub open spec fn put(before: Applied, i: int, item: Mapped) -> Applied {
    if before.error is Some {
        before
    } else {
        Applied { scores: before.scores.update(i, item.score), error: item.error }
    }
}

/// `out` is a possible outcome of applying the function to the score: to a
/// note directly, and to the notes of a row or a column one after the other
/// up to the first error.
pub open spec fn mapped<F: Fn(Operation) -> Real, L: Fn(&str) -> Option<Real>>(
    score: ScoreView,
    function: FunctionView,
    ops: &F,
    literal: &L,
    out: Mapped,
) -> bool
    decreases score,
{
    match score {
        ScoreView::Note(parameters) => out.score is Note && note_mapped(
            parameters,
            function,
            ops,
            literal,
            Assigned { parameters: out.score->Note_0, error: out.error },
        ),
        ScoreView::Row(items) => out.score is Row && mapped_all(
            items,
            function,
            ops,
            literal,
            items.len(),
            Applied { scores: out.score->Row_0, error: out.error },
        ),
        ScoreView::Column(items) => out.score is Column && mapped_all(
            items,
            function,
            ops,
            literal,
            items.len(),
            Applied { scores: out.score->Column_0, error: out.error },
        ),
    }
}

/// `out` is a possible state after the function was applied to the first
/// `n` of the scores.
pub open spec fn mapped_all<F: Fn(Operation) -> Real, L: Fn(&str) -> Option<Real>>(
    items: Seq<ScoreView>,
    function: FunctionView,
    ops: &F,
    literal: &L,
    n: nat,
    out: Applied,
) -> bool
    decreases items, n,
{
    if n == 0 || n > items.len() {
        out == (Applied { scores: items, error: None })
    } else {
        exists|before: Applied, item: Mapped|
            #![trigger put(before, n - 1, item)]
            {
                &&& mapped_all(items, function, ops, literal, (n - 1) as nat, before)
                &&& before.error is None ==> mapped(items[n - 1], function, ops, literal, item)
                &&& out == put(before, n - 1, item)
            }
    }
}

/// After an error the function is applied to no further score.
pub proof fn lemma_application_ends<F: Fn(Operation) -> Real, L: Fn(&str) -> Option<Real>>(
    items: Seq<ScoreView>,
    function: FunctionView,
    ops: &F,
    literal: &L,
    n: nat,
    m: nat,
    out: Applied,
)
    requires
        n <= m <= items.len(),
        out.error is Some,
        mapped_all(items, function, ops, literal, n, out),
    ensures
        mapped_all(items, function, ops, literal, m, out),
    decreases m - n,
{
    if n < m {
        lemma_application_ends(items, function, ops, literal, n, (m - 1) as nat, out);
        let item = Mapped { score: items[m - 1], error: None };
        assert(out == put(out, m - 1, item));
    }
}

/// The error of an outcome, by what it holds.
pub open spec fn error_view<'s>(result: Result<(), CompileError<'s>>) -> Option<CompileErrorView> {
    match result {
        Ok(_) => None,
        Err(error) => Some(error.view()),
    }
}

/// Applies a function to a note with these parameters.
fn map_note<'s, F: Fn(Operation) -> Real, L: Fn(&str) -> Option<Real>>(
    parameters: &mut Parameters<'s>,
    function: &Function<'s>,
    ops: &F,
    literal: &L,
) -> (result: Result<(), CompileError<'s>>)
    requires
        serves_all(ops),
        reads_all(literal),
        old(parameters).well_formed(),
    ensures
        final(parameters).well_formed(),
        note_mapped(
            old(parameters)@,
            function.view(),
            ops,
            literal,
            Assigned { parameters: final(parameters)@, error: error_view(result) },
        ),
{
    let ghost conditions = function.view().conditions;
    let ghost assignments = function.view().assignments;
    let ghost start = parameters@;
    let mut flag = true;
    let mut i: usize = 0;
    while i < function.conditions.len()
        invariant
            serves_all(ops),
            reads_all(literal),
            i <= function.conditions.len(),
            conditions == function.view().conditions,
            conditions.len() == function.conditions.len(),
            parameters@ == start,
            start == old(parameters)@,
            parameters.well_formed(),
            tried(conditions, start, ops, literal, i as nat, Ok(flag)),
        decreases function.conditions.len() - i,
    {
        let ghost before = Ok::<bool, CompileErrorView>(flag);
        assert(conditions[i as int] == (function.conditions[i as int].0@, function.conditions[i as int].1.view()));
        let left = parameters.get(function.conditions[i].0);
        let right = function.conditions[i].1.value(parameters, ops, literal);
        assert(trial(before, value_view(right)) == (before, value_view(right)));
        match right {
            Err(error) => {
                proof {
                    let failed = Err::<bool, CompileErrorView>(error.view());
                    assert(tried(conditions, start, ops, literal, (i + 1) as nat, failed));
                    lemma_trial_ends(conditions, start, ops, literal, (i + 1) as nat, conditions.len(), failed);
                    let made = Assigned { parameters: start, error: None };
                    assert(settled(start, failed, made) == Assigned { parameters: start, error: Some(error.view()) });
                }
                return Err(error);
            },
            Ok(None) => {
                flag = flag && left.is_none();
            },
            Ok(Some(value)) => match left {
                None => {
                    flag = false;
                },
                Some(bound) => {
                    let difference = binary(ops, BinaryFunction::Sub, bound, value);
                    let near = difference.abs().less_than(Real::from_bits(CONDITION_TOLERANCE_BITS));
                    flag = flag && near;
                },
            },
        }
        i += 1;
    }
    if !flag {
        proof {
            let made = Assigned { parameters: start, error: None };
            assert(settled(start, Ok(false), made) == Assigned { parameters: start, error: None });
        }
        return Ok(());
    }
    let mut j: usize = 0;
    while j < function.assignments.len()
        invariant
            serves_all(ops),
            reads_all(literal),
            j <= function.assignments.len(),
            assignments == function.view().assignments,
            assignments.len() == function.assignments.len(),
            parameters.well_formed(),
            start == old(parameters)@,
            conditions == function.view().conditions,
            tried(conditions, start, ops, literal, conditions.len(), Ok(true)),
            assigned(assignments, start, ops, literal, j as nat, Assigned { parameters: parameters@, error: None }),
        decreases function.assignments.len() - j,
    {
        let ghost before = Assigned { parameters: parameters@, error: None };
        assert(assignments[j as int] == (
            function.assignments[j as int].0@,
            function.assignments[j as int].1.view(),
        ));
        let right = function.assignments[j].1.value(parameters, ops, literal);
        match right {
            Err(error) => {
                proof {
                    let failed = assign(before, assignments[j as int].0, value_view(right));
                    assert(assigned(assignments, start, ops, literal, (j + 1) as nat, failed));
                    lemma_assignment_ends(
                        assignments,
                        start,
                        ops,
                        literal,
                        (j + 1) as nat,
                        assignments.len(),
                        failed,
                    );
                    assert(settled(start, Ok(true), failed) == failed);
                }
                return Err(error);
            },
            Ok(Some(value)) => {
                parameters.insert(function.assignments[j].0, value);
                assert(Assigned { parameters: parameters@, error: None } == assign(
                    before,
                    assignments[j as int].0,
                    value_view(right),
                ));
            },
            Ok(None) => {
                parameters.remove(function.assignments[j].0);
                assert(Assigned { parameters: parameters@, error: None } == assign(
                    before,
                    assignments[j as int].0,
                    value_view(right),
                ));
            },
        }
        j += 1;
    }
    proof {
        let made = Assigned { parameters: parameters@, error: None };
        assert(settled(start, Ok(true), made) == made);
    }
    Ok(())
}

impl<'s> Score<'s> {
    /// Applies the function to every note of the score, in order, up to the
    /// first error.
    pub fn map<F: Fn(Operation) -> Real, L: Fn(&str) -> Option<Real>>(
        &mut self,
        function: &Function<'s>,
        ops: &F,
        literal: &L,
    ) -> (result: Result<(), CompileError<'s>>)
        requires
            serves_all(ops),
            reads_all(literal),
            old(self).well_formed(),
        ensures
            final(self).well_formed(),
            mapped(
                old(self).view(),
                function.view(),
                ops,
                literal,
                Mapped { score: final(self).view(), error: error_view(result) },
            ),
        decreases *old(self),
    {
        match self {
            Score::Note(parameters) => map_note(parameters, function, ops, literal),
            Score::Row(items) => {
                let result = map_all(items, function, ops, literal);
                assert(self.view()->Row_0 =~= scores_view(items@));
                assert(old(self).view()->Row_0 =~= scores_view(old(self)->Row_0@));
                result
            },
            Score::Column(items) => {
                let result = map_all(items, function, ops, literal);
                assert(self.view()->Column_0 =~= scores_view(items@));
                assert(old(self).view()->Column_0 =~= scores_view(old(self)->Column_0@));
                result
            },
        }
    }
}

/// Applies the function to the scores one after the other.
fn map_all<'s, F: Fn(Operation) -> Real, L: Fn(&str) -> Option<Real>>(
    items: &mut Vec<Score<'s>>,
    function: &Function<'s>,
    ops: &F,
    literal: &L,
) -> (result: Result<(), CompileError<'s>>)
    requires
        serves_all(ops),
        reads_all(literal),
        forall|i: int| 0 <= i < old(items).len() ==> (#[trigger] old(items)[i]).well_formed(),
    ensures
        final(items).len() == old(items).len(),
        forall|i: int| 0 <= i < final(items).len() ==> (#[trigger] final(items)[i]).well_formed(),
        mapped_all(
            scores_view(old(items)@),
            function.view(),
            ops,
            literal,
            old(items).len() as nat,
            Applied { scores: scores_view(final(items)@), error: error_view(result) },
        ),
    decreases *old(items),
{
    let ghost start = scores_view(items@);
    let mut i: usize = 0;
    while i < items.len()
        invariant
            serves_all(ops),
            reads_all(literal),
            i <= items.len(),
            items.len() == old(items).len(),
            start == scores_view(old(items)@),
            forall|k: int| 0 <= k < items.len() ==> (#[trigger] items[k]).well_formed(),
            forall|k: int| i <= k < items.len() ==> #[trigger] items[k] == old(items)[k],
            mapped_all(
                start,
                function.view(),
                ops,
                literal,
                i as nat,
                Applied { scores: scores_view(items@), error: None },
            ),
        decreases items.len() - i,
    {
        let ghost before = Applied { scores: scores_view(items@), error: None };
        let ghost untouched = items[i as int].view();
        assert(start[i as int] == untouched);
        let outcome = items[i].map(function, ops, literal);
        proof {
            let item = Mapped { score: items[i as int].view(), error: error_view(outcome) };
            assert(scores_view(items@) =~= before.scores.update(i as int, item.score));
            assert(put(before, i as int, item) == Applied { scores: scores_view(items@), error: item.error });
        }
        match outcome {
            Ok(()) => {},
            Err(error) => {
                proof {
                    let failed = Applied { scores: scores_view(items@), error: Some(error.view()) };
                    assert(mapped_all(start, function.view(), ops, literal, (i + 1) as nat, failed));
                    lemma_application_ends(
                        start,
                        function.view(),
                        ops,
                        literal,
                        (i + 1) as nat,
                        start.len(),
                        failed,
                    );
                }
                return Err(error);
            },
        }
        i += 1;
    }
    Ok(())
}

/// The score bound to `name` by the last of the first `n` definitions
/// that bears the name.
pub open spec fn defined_in(table: Seq<(Seq<char>, ScoreView)>, name: Seq<char>, n: nat) -> Option<ScoreView>
    decreases n,
{
    if n == 0 || n > table.len() {
        None
    } else if table[n - 1].0 == name {
        Some(table[n - 1].1)
    } else {
        defined_in(table, name, (n - 1) as nat)
    }
}

/// The definitions made so far, each by what it holds.
pub open spec fn table_view<'s>(table: Seq<(&'s str, Score<'s>)>) -> Seq<(Seq<char>, ScoreView)> {
    Seq::new(table.len(), |i: int| (table[i].0@, table[i].1.view()))
}

/// `out` is a possible value of one side of the ratio of a note: one where
/// the side is absent, else the number that its literal denotes.
pub open spec fn part_valued<L: Fn(&str) -> Option<Real>>(
    literal: &L,
    part: Option<(Seq<char>, Pos)>,
    out: Result<Real, CompileErrorView>,
) -> bool {
    match part {
        None => out == Ok::<Real, CompileErrorView>(Real::of_bits(ONE_BITS)),
        Some((text, pos)) => literal_valued(
            literal,
            text,
            pos,
            match out {
                Ok(value) => Ok(Some(value)),
                Err(error) => Err(error),
            },
        ),
    }
}

/// The parameters of a note of this frequency ratio.
pub open spec fn note_of(ratio: Real) -> ScoreView {
    ScoreView::Note(Map::<Seq<char>, Real>::empty().insert("f"@, ratio))
}

/// `out` is a possible score of a note given by its ratio: its parameter
/// `f` is the numerator divided by the denominator.
pub open spec fn noted<F: Fn(Operation) -> Real, L: Fn(&str) -> Option<Real>>(
    numerator: Option<(Seq<char>, Pos)>,
    denominator: Option<(Seq<char>, Pos)>,
    ops: &F,
    literal: &L,
    out: Result<ScoreView, CompileErrorView>,
) -> bool {
    exists|above: Result<Real, CompileErrorView>, below: Result<Real, CompileErrorView>|
        #![trigger part_valued(literal, numerator, above), part_valued(literal, denominator, below)]
        {
            &&& part_valued(literal, numerator, above)
            &&& match above {
                Err(error) => out == Err::<ScoreView, CompileErrorView>(error),
                Ok(over) => part_valued(literal, denominator, below) && match below {
                    Err(error) => out == Err::<ScoreView, CompileErrorView>(error),
                    Ok(under) => out is Ok && out->Ok_0 is Note && exists|ratio: Real|
                        #![trigger note_of(ratio)]
                        answers(ops, Operation::Binary(BinaryFunction::Div, over, under), ratio) && out->Ok_0
                            == note_of(ratio),
                },
            }
        }
}

/// The outcome of the functions applied so far, followed by the outcome of
/// the next function.
pub open spec fn followed(before: Result<ScoreView, CompileErrorView>, item: Mapped) -> Result<
    ScoreView,
    CompileErrorView,
> {
    match before {
        Err(_) => before,
        Ok(_) => match item.error {
            None => Ok(item.score),
            Some(error) => Err(error),
        },
    }
}

/// `out` is a possible outcome of applying the first `n` of the functions
/// to the score, one after the other, up to the first error.
pub open spec fn applied<F: Fn(Operation) -> Real, L: Fn(&str) -> Option<Real>>(
    functions: Seq<FunctionView>,
    score: ScoreView,
    ops: &F,
    literal: &L,
    n: nat,
    out: Result<ScoreView, CompileErrorView>,
) -> bool
    decreases n,
{
    if n == 0 || n > functions.len() {
        out == Ok::<ScoreView, CompileErrorView>(score)
    } else {
        exists|before: Result<ScoreView, CompileErrorView>, item: Mapped|
            #![trigger followed(before, item)]
            {
                &&& applied(functions, score, ops, literal, (n - 1) as nat, before)
                &&& before is Ok ==> mapped(before->Ok_0, functions[n - 1], ops, literal, item)
                &&& out == followed(before, item)
            }
    }
}

/// After an error no further function is applied.
pub proof fn lemma_functions_end<F: Fn(Operation) -> Real, L: Fn(&str) -> Option<Real>>(
    functions: Seq<FunctionView>,
    score: ScoreView,
    ops: &F,
    literal: &L,
    n: nat,
    m: nat,
    out: Result<ScoreView, CompileErrorView>,
)
    requires
        n <= m <= functions.len(),
        out is Err,
        applied(functions, score, ops, literal, n, out),
    ensures
        applied(functions, score, ops, literal, m, out),
    decreases m - n,
{
    if n < m {
        lemma_functions_end(functions, score, ops, literal, n, (m - 1) as nat, out);
        let item = Mapped { score, error: None };
        assert(out == followed(out, item));
    }
}

/// The scores compiled so far with the next one behind them.
pub open spec fn appended(before: Result<Seq<ScoreView>, CompileErrorView>, item: Result<ScoreView, CompileErrorView>) -> Result<
    Seq<ScoreView>,
    CompileErrorView,
> {
    match before {
        Err(_) => before,
        Ok(scores) => match item {
            Ok(score) => Ok(scores.push(score)),
            Err(error) => Err(error),
        },
    }
}

/// The score of a row or a column of these scores.
pub open spec fn gathered(row: bool, listed: Result<Seq<ScoreView>, CompileErrorView>) -> Result<
    ScoreView,
    CompileErrorView,
> {
    match listed {
        Err(error) => Err(error),
        Ok(scores) => if row {
            Ok(ScoreView::Row(scores))
        } else {
            Ok(ScoreView::Column(scores))
        },
    }
}

/// The outcome of the notes, followed by the functions of the mapping.
pub open spec fn based(base: Result<ScoreView, CompileErrorView>) -> Result<ScoreView, CompileErrorView> {
    base
}

/// `out` is a possible score of the notes with their functions, where the
/// names have the scores of `table`: the notes are compiled first, then the
/// functions are applied in order.
pub open spec fn compiled_map<F: Fn(Operation) -> Real, L: Fn(&str) -> Option<Real>>(
    map: MappingView,
    table: Seq<(Seq<char>, ScoreView)>,
    ops: &F,
    literal: &L,
    out: Result<ScoreView, CompileErrorView>,
) -> bool
    decreases map,
{
    exists|base: Result<ScoreView, CompileErrorView>|
        #![trigger based(base)]
        {
            &&& compiled_notes(map.notes, table, ops, literal, base)
            &&& match base {
                Err(error) => out == Err::<ScoreView, CompileErrorView>(error),
                Ok(score) => applied(map.functions, score, ops, literal, map.functions.len(), out),
            }
        }
}

/// `out` is a possible score of the notes: a note has its ratio as the
/// parameter `f`; a name has the score that the table binds to it; a row or
/// a column has the scores of its notes.
pub open spec fn compiled_notes<F: Fn(Operation) -> Real, L: Fn(&str) -> Option<Real>>(
    notes: NotesView,
    table: Seq<(Seq<char>, ScoreView)>,
    ops: &F,
    literal: &L,
    out: Result<ScoreView, CompileErrorView>,
) -> bool
    decreases notes,
{
    match notes {
        NotesView::Note(numerator, denominator) => noted(numerator, denominator, ops, literal, out),
        NotesView::Identifier(name, pos) => out == match defined_in(table, name, table.len()) {
            Some(score) => Ok::<ScoreView, CompileErrorView>(score),
            None => Err::<ScoreView, CompileErrorView>(CompileErrorView::UndefinedVariable(name, pos)),
        },
        NotesView::Row(items) => exists|listed: Result<Seq<ScoreView>, CompileErrorView>|
            #![trigger gathered(true, listed)]
            compiled_all(items, table, ops, literal, items.len(), listed) && out == gathered(true, listed),
        NotesView::Column(items) => exists|listed: Result<Seq<ScoreView>, CompileErrorView>|
            #![trigger gathered(false, listed)]
            compiled_all(items, table, ops, literal, items.len(), listed) && out == gathered(false, listed),
    }
}

/// `out` is a possible outcome of compiling the first `n` of the notes, up
/// to the first error.
pub open spec fn compiled_all<F: Fn(Operation) -> Real, L: Fn(&str) -> Option<Real>>(
    items: Seq<MappingView>,
    table: Seq<(Seq<char>, ScoreView)>,
    ops: &F,
    literal: &L,
    n: nat,
    out: Result<Seq<ScoreView>, CompileErrorView>,
) -> bool
    decreases items, n,
{
    if n == 0 || n > items.len() {
        out == Ok::<Seq<ScoreView>, CompileErrorView>(seq![])
    } else {
        exists|before: Result<Seq<ScoreView>, CompileErrorView>, item: Result<ScoreView, CompileErrorView>|
            #![trigger appended(before, item)]
            {
                &&& compiled_all(items, table, ops, literal, (n - 1) as nat, before)
                &&& before is Ok ==> compiled_map(items[n - 1], table, ops, literal, item)
                &&& out == appended(before, item)
            }
    }
}

/// After an error no further notes are compiled.
pub proof fn lemma_compilation_ends<F: Fn(Operation) -> Real, L: Fn(&str) -> Option<Real>>(
    items: Seq<MappingView>,
    table: Seq<(Seq<char>, ScoreView)>,
    ops: &F,
    literal: &L,
    n: nat,
    m: nat,
    out: Result<Seq<ScoreView>, CompileErrorView>,
)
    requires
        n <= m <= items.len(),
        out is Err,
        compiled_all(items, table, ops, literal, n, out),
    ensures
        compiled_all(items, table, ops, literal, m, out),
    decreases m - n,
{
    if n < m {
        lemma_compilation_ends(items, table, ops, literal, n, (m - 1) as nat, out);
        let item = Err::<ScoreView, CompileErrorView>(CompileErrorView::NoMainScore);
        assert(out == appended(out, item));
    }
}

/// The table after one more definition.
pub open spec fn bound(
    before: Result<Seq<(Seq<char>, ScoreView)>, CompileErrorView>,
    name: Seq<char>,
    item: Result<ScoreView, CompileErrorView>,
) -> Result<Seq<(Seq<char>, ScoreView)>, CompileErrorView> {
    match before {
        Err(_) => before,
        Ok(table) => match item {
            Ok(score) => Ok(table.push((name, score))),
            Err(error) => Err(error),
        },
    }
}

/// `out` is a possible table after the first `n` definitions: each is
/// compiled with the table of the definitions before it.
pub open spec fn defined<F: Fn(Operation) -> Real, L: Fn(&str) -> Option<Real>>(
    definitions: Seq<(Seq<char>, MappingView)>,
    ops: &F,
    literal: &L,
    n: nat,
    out: Result<Seq<(Seq<char>, ScoreView)>, CompileErrorView>,
) -> bool
    decreases n,
{
    if n == 0 || n > definitions.len() {
        out == Ok::<Seq<(Seq<char>, ScoreView)>, CompileErrorView>(seq![])
    } else {
        exists|before: Result<Seq<(Seq<char>, ScoreView)>, CompileErrorView>, item: Result<ScoreView, CompileErrorView>|
            #![trigger bound(before, definitions[n - 1].0, item)]
            {
                &&& defined(definitions, ops, literal, (n - 1) as nat, before)
                &&& before is Ok ==> compiled_map(definitions[n - 1].1, before->Ok_0, ops, literal, item)
                &&& out == bound(before, definitions[n - 1].0, item)
            }
    }
}

/// After an error no further definition is compiled.
pub proof fn lemma_definitions_end<F: Fn(Operation) -> Real, L: Fn(&str) -> Option<Real>>(
    definitions: Seq<(Seq<char>, MappingView)>,
    ops: &F,
    literal: &L,
    n: nat,
    m: nat,
    out: Result<Seq<(Seq<char>, ScoreView)>, CompileErrorView>,
)
    requires
        n <= m <= definitions.len(),
        out is Err,
        defined(definitions, ops, literal, n, out),
    ensures
        defined(definitions, ops, literal, m, out),
    decreases m - n,
{
    if n < m {
        lemma_definitions_end(definitions, ops, literal, n, (m - 1) as nat, out);
        let item = Err::<ScoreView, CompileErrorView>(CompileErrorView::NoMainScore);
        assert(out == bound(out, definitions[m - 1].0, item));
    }
}

/// The score of a table of definitions: the score that is bound to `main`.
pub open spec fn chosen(table: Result<Seq<(Seq<char>, ScoreView)>, CompileErrorView>) -> Result<
    ScoreView,
    CompileErrorView,
> {
    match table {
        Err(error) => Err(error),
        Ok(table) => match defined_in(table, "main"@, table.len()) {
            Some(score) => Ok(score),
            None => Err(CompileErrorView::NoMainScore),
        },
    }
}

/// `out` is a possible score of the definitions: they are compiled in
/// order, and the score is the one that the last definition of `main`
/// gives.
pub open spec fn compiled<F: Fn(Operation) -> Real, L: Fn(&str) -> Option<Real>>(
    definitions: Seq<(Seq<char>, MappingView)>,
    ops: &F,
    literal: &L,
    out: Result<ScoreView, CompileErrorView>,
) -> bool {
    exists|table: Result<Seq<(Seq<char>, ScoreView)>, CompileErrorView>|
        #![trigger chosen(table)]
        defined(definitions, ops, literal, definitions.len(), table) && out == chosen(table)
}

/// The outcome of compiling, by what it holds.
pub open spec fn score_view<'s>(result: Result<Score<'s>, CompileError<'s>>) -> Result<ScoreView, CompileErrorView> {
    match result {
        Ok(score) => Ok(score.view()),
        Err(error) => Err(error.view()),
    }
}

/// A number or an error, by what it holds.
pub open spec fn number_view<'s>(result: Result<Real, CompileError<'s>>) -> Result<Real, CompileErrorView> {
    match result {
        Ok(value) => Ok(value),
        Err(error) => Err(error.view()),
    }
}

/// The value of one side of the ratio of a note.
fn part_value<'s, L: Fn(&str) -> Option<Real>>(part: Option<(&'s str, Pos)>, literal: &L) -> (result: Result<
    Real,
    CompileError<'s>,
>)
    requires
        reads_all(literal),
    ensures
        part_valued(literal, part_view(part), number_view(result)),
{
    match part {
        None => Ok(Real::one()),
        Some((text, pos)) => {
            let read = literal(text);
            assert(replies(literal, text, read));
            match read {
                Some(value) => Ok(value),
                None => Err(CompileError::IllegalLiteral(text, pos)),
            }
        },
    }
}

/// The place of the last definition of `name` in the table.
fn find_score<'s>(table: &Vec<(&'s str, Score<'s>)>, name: &str) -> (result: Option<usize>)
    ensures
        match result {
            Some(i) => i < table.len() && defined_in(table_view(table@), name@, table.len() as nat) == Some(
                table[i as int].1.view(),
            ),
            None => defined_in(table_view(table@), name@, table.len() as nat) is None,
        },
{
    let mut i: usize = table.len();
    while i > 0
        invariant
            i <= table.len(),
            defined_in(table_view(table@), name@, table.len() as nat) == defined_in(
                table_view(table@),
                name@,
                i as nat,
            ),
        decreases i,
    {
        assert(table_view(table@)[i - 1] == (table[i - 1].0@, table[i - 1].1.view()));
        if same_text(table[i - 1].0, name) {
            return Some(i - 1);
        }
        i -= 1;
    }
    None
}

/// Every score of the table is well formed.
pub open spec fn table_well_formed<'s>(table: Seq<(&'s str, Score<'s>)>) -> bool {
    forall|i: int| 0 <= i < table.len() ==> (#[trigger] table[i]).1.well_formed()
}

/// Compiles notes with their functions.
fn compile_map<'s, F: Fn(Operation) -> Real, L: Fn(&str) -> Option<Real>>(
    map: &Mapping<'s>,
    table: &Vec<(&'s str, Score<'s>)>,
    ops: &F,
    literal: &L,
) -> (result: Result<Score<'s>, CompileError<'s>>)
    requires
        serves_all(ops),
        reads_all(literal),
        table_well_formed(table@),
    ensures
        compiled_map(map.view(), table_view(table@), ops, literal, score_view(result)),
        result is Ok ==> result->Ok_0.well_formed(),
    decreases map,
{
    let base = compile_notes(&map.notes, table, ops, literal);
    let ghost base_view = score_view(base);
    assert(based(base_view) == base_view);
    let mut score = match base {
        Ok(score) => score,
        Err(error) => {
            return Err(error);
        },
    };
    let ghost start = score.view();
    let ghost functions = map.view().functions;
    let mut i: usize = 0;
    while i < map.functions.len()
        invariant
            serves_all(ops),
            reads_all(literal),
            i <= map.functions.len(),
            functions == functions_view(map.functions@),
            functions.len() == map.functions.len(),
            score.well_formed(),
            compiled_notes(map.view().notes, table_view(table@), ops, literal, Ok(start)),
            applied(functions, start, ops, literal, i as nat, Ok(score.view())),
        decreases map.functions.len() - i,
    {
        let ghost before = Ok::<ScoreView, CompileErrorView>(score.view());
        assert(functions[i as int] == map.functions[i as int].view());
        let outcome = score.map(&map.functions[i], ops, literal);
        proof {
            let item = Mapped { score: score.view(), error: error_view(outcome) };
            assert(followed(before, item) == match outcome {
                Ok(_) => Ok::<ScoreView, CompileErrorView>(score.view()),
                Err(error) => Err::<ScoreView, CompileErrorView>(error.view()),
            });
        }
        match outcome {
            Ok(()) => {},
            Err(error) => {
                proof {
                    let failed = Err::<ScoreView, CompileErrorView>(error.view());
                    assert(applied(functions, start, ops, literal, (i + 1) as nat, failed));
                    lemma_functions_end(functions, start, ops, literal, (i + 1) as nat, functions.len(), failed);
                    assert(based(Ok(start)) == Ok::<ScoreView, CompileErrorView>(start));
                }
                return Err(error);
            },
        }
        i += 1;
    }
    assert(based(Ok(start)) == Ok::<ScoreView, CompileErrorView>(start));
    Ok(score)
}

/// Compiles notes.
fn compile_notes<'s, F: Fn(Operation) -> Real, L: Fn(&str) -> Option<Real>>(
    notes: &Notes<'s>,
    table: &Vec<(&'s str, Score<'s>)>,
    ops: &F,
    literal: &L,
) -> (result: Result<Score<'s>, CompileError<'s>>)
    requires
        serves_all(ops),
        reads_all(literal),
        table_well_formed(table@),
    ensures
        compiled_notes(notes.view(), table_view(table@), ops, literal, score_view(result)),
        result is Ok ==> result->Ok_0.well_formed(),
    decreases notes,
{
    match notes {
        Notes::Note(numerator, denominator) => {
            let above = part_value(*numerator, literal);
            let ghost above_view = number_view(above);
            let over = match above {
                Ok(over) => over,
                Err(error) => {
                    proof {
                        let below = Ok::<Real, CompileErrorView>(Real::of_bits(ONE_BITS));
                        let asked = part_valued(literal, part_view(*denominator), below);
                        assert(part_valued(literal, part_view(*numerator), above_view));
                    }
                    return Err(error);
                },
            };
            let below = part_value(*denominator, literal);
            let under = match below {
                Ok(under) => under,
                Err(error) => {
                    return Err(error);
                },
            };
            let ratio = binary(ops, BinaryFunction::Div, over, under);
            let mut parameters = Parameters::new();
            parameters.insert("f", ratio);
            let score = Score::Note(parameters);
            assert(score.view() == note_of(ratio));
            Ok(score)
        },
        Notes::Identifier(name, pos) => match find_score(table, *name) {
            Some(i) => Ok(table[i].1.duplicate()),
            None => Err(CompileError::UndefinedVariable(*name, *pos)),
        },
        Notes::Row(items) => {
            assert(notes.view()->Row_0 =~= mappings_view(items@));
            let listed = compile_all(items, table, ops, literal);
            let ghost listed_view = scores_result_view(listed);
            match listed {
                Ok(scores) => {
                    let score = Score::Row(scores);
                    assert(score.view()->Row_0 =~= scores_view(scores@));
                    assert(Ok::<ScoreView, CompileErrorView>(score.view()) == gathered(true, listed_view));
                    Ok(score)
                },
                Err(error) => {
                    assert(Err::<ScoreView, CompileErrorView>(error.view()) == gathered(true, listed_view));
                    Err(error)
                },
            }
        },
        Notes::Column(items) => {
            assert(notes.view()->Column_0 =~= mappings_view(items@));
            let listed = compile_all(items, table, ops, literal);
            let ghost listed_view = scores_result_view(listed);
            match listed {
                Ok(scores) => {
                    let score = Score::Column(scores);
                    assert(score.view()->Column_0 =~= scores_view(scores@));
                    assert(Ok::<ScoreView, CompileErrorView>(score.view()) == gathered(false, listed_view));
                    Ok(score)
                },
                Err(error) => {
                    assert(Err::<ScoreView, CompileErrorView>(error.view()) == gathered(false, listed_view));
                    Err(error)
                },
            }
        },
    }
}

/// The outcome of compiling a list of notes, by what it holds.
pub open spec fn scores_result_view<'s>(result: Result<Vec<Score<'s>>, CompileError<'s>>) -> Result<
    Seq<ScoreView>,
    CompileErrorView,
> {
    match result {
        Ok(scores) => Ok(scores_view(scores@)),
        Err(error) => Err(error.view()),
    }
}

/// Compiles the notes of a row or a column.
fn compile_all<'s, F: Fn(Operation) -> Real, L: Fn(&str) -> Option<Real>>(
    items: &Vec<Mapping<'s>>,
    table: &Vec<(&'s str, Score<'s>)>,
    ops: &F,
    literal: &L,
) -> (result: Result<Vec<Score<'s>>, CompileError<'s>>)
    requires
        serves_all(ops),
        reads_all(literal),
        table_well_formed(table@),
    ensures
        compiled_all(
            mappings_view(items@),
            table_view(table@),
            ops,
            literal,
            items.len() as nat,
            scores_result_view(result),
        ),
        result is Ok ==> forall|i: int| 0 <= i < result->Ok_0.len() ==> (#[trigger] result->Ok_0[i]).well_formed(),
    decreases items,
{
    let ghost views = mappings_view(items@);
    let mut scores: Vec<Score<'s>> = Vec::new();
    assert(scores_view(scores@) =~= Seq::<ScoreView>::empty());
    let mut i: usize = 0;
    while i < items.len()
        invariant
            serves_all(ops),
            reads_all(literal),
            table_well_formed(table@),
            i <= items.len(),
            views == mappings_view(items@),
            forall|k: int| 0 <= k < scores.len() ==> (#[trigger] scores[k]).well_formed(),
            compiled_all(views, table_view(table@), ops, literal, i as nat, Ok(scores_view(scores@))),
        decreases items.len() - i,
    {
        let ghost before = Ok::<Seq<ScoreView>, CompileErrorView>(scores_view(scores@));
        assert(views[i as int] == items[i as int].view());
        let item = compile_map(&items[i], table, ops, literal);
        match item {
            Ok(score) => {
                let ghost earlier = scores_view(scores@);
                scores.push(score);
                assert(scores_view(scores@) =~= earlier.push(score.view()));
                assert(appended(before, score_view(item)) == Ok::<Seq<ScoreView>, CompileErrorView>(
                    scores_view(scores@),
                ));
            },
            Err(error) => {
                proof {
                    let failed = Err::<Seq<ScoreView>, CompileErrorView>(error.view());
                    assert(appended(before, score_view(item)) == failed);
                    assert(compiled_all(views, table_view(table@), ops, literal, (i + 1) as nat, failed));
                    lemma_compilation_ends(
                        views,
                        table_view(table@),
                        ops,
                        literal,
                        (i + 1) as nat,
                        views.len(),
                        failed,
                    );
                }
                return Err(error);
            },
        }
        i += 1;
    }
    Ok(scores)
}

/// Compiles the definitions of a score: the score that `main` is defined
/// as.
pub fn compile<'s, F: Fn(Operation) -> Real, L: Fn(&str) -> Option<Real>>(
    definitions: &Vec<(&'s str, Mapping<'s>)>,
    ops: &F,
    literal: &L,
) -> (result: Result<Score<'s>, CompileError<'s>>)
    requires
        serves_all(ops),
        reads_all(literal),
    ensures
        compiled(definitions_view(definitions@), ops, literal, score_view(result)),
        result is Ok ==> result->Ok_0.well_formed(),
{
    let ghost views = definitions_view(definitions@);
    let mut table: Vec<(&'s str, Score<'s>)> = Vec::new();
    assert(table_view(table@) =~= Seq::<(Seq<char>, ScoreView)>::empty());
    let mut i: usize = 0;
    while i < definitions.len()
        invariant
            serves_all(ops),
            reads_all(literal),
            i <= definitions.len(),
            views == definitions_view(definitions@),
            table_well_formed(table@),
            defined(views, ops, literal, i as nat, Ok(table_view(table@))),
        decreases definitions.len() - i,
    {
        let ghost before = Ok::<Seq<(Seq<char>, ScoreView)>, CompileErrorView>(table_view(table@));
        assert(views[i as int] == (definitions[i as int].0@, definitions[i as int].1.view()));
        let item = compile_map(&definitions[i].1, &table, ops, literal);
        match item {
            Ok(score) => {
                let ghost earlier = table_view(table@);
                table.push((definitions[i].0, score));
                assert(table_view(table@) =~= earlier.push((definitions[i as int].0@, score.view())));
                assert(bound(before, views[i as int].0, score_view(item)) == Ok::<
                    Seq<(Seq<char>, ScoreView)>,
                    CompileErrorView,
                >(table_view(table@)));
            },
            Err(error) => {
                proof {
                    let failed = Err::<Seq<(Seq<char>, ScoreView)>, CompileErrorView>(error.view());
                    assert(bound(before, views[i as int].0, score_view(item)) == failed);
                    assert(defined(views, ops, literal, (i + 1) as nat, failed));
                    lemma_definitions_end(views, ops, literal, (i + 1) as nat, views.len(), failed);
                    assert(chosen(failed) == Err::<ScoreView, CompileErrorView>(error.view()));
                }
                return Err(error);
            },
        }
        i += 1;
    }
    let ghost whole = Ok::<Seq<(Seq<char>, ScoreView)>, CompileErrorView>(table_view(table@));
    match find_score(&table, "main") {
        Some(place) => {
            let score = table[place].1.duplicate();
            assert(chosen(whole) == Ok::<ScoreView, CompileErrorView>(score.view()));
            Ok(score)
        },
        None => {
            assert(chosen(whole) == Err::<ScoreView, CompileErrorView>(CompileErrorView::NoMainScore));
            Err(CompileError::NoMainScore)
        },
    }
}

} // verus!
