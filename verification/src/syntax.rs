//! The data of the language: quoted expressions, terms and values, each with
//! the mathematical value that contracts speak of.

use crate::environment::{Scope, ScopeView};
use vstd::prelude::*;
use vstd::std_specs::cmp::PartialEqSpecImpl;

verus! {

/// A symbolic expression: an atom or an ordered pair of symbolic expressions.
#[derive(Debug)]
pub enum SExpression {
    Symbol(String),
    Pair(Box<SExpression>, Box<SExpression>),
}

/// A term of the applicative language.
#[derive(Debug)]
pub enum Term {
    Cond(Vec<(Box<Term>, Box<Term>)>),
    Atom(Box<Term>),
    Eq(Box<Term>, Box<Term>),
    Car(Box<Term>),
    Cdr(Box<Term>),
    Cons(Box<Term>, Box<Term>),
    Variable(String),
    Lambda(Vec<String>, Box<Term>),
    Apply(Box<Term>, Vec<Box<Term>>),
    Label(String, Box<Term>),
    Quote(SExpression),
}

/// What a term evaluates to: an atom, a pair of values, or a closure, which
/// holds the parameter names and the body of a `lambda` together with the
/// scope that the `lambda` was evaluated in.
#[derive(Debug)]
pub enum Value {
    Symbol(String),
    Pair(Box<Value>, Box<Value>),
    Closure(Vec<String>, Box<Term>, Scope),
}

/// The mathematical value of a [`Value`].
pub enum ValueView {
    Symbol(Seq<char>),
    Pair(Box<ValueView>, Box<ValueView>),
    Closure(Seq<Seq<char>>, Box<TermView>, ScopeView),
}

/// The mathematical value of an [`SExpression`].
pub enum SExpressionView {
    Symbol(Seq<char>),
    Pair(Box<SExpressionView>, Box<SExpressionView>),
}

/// The mathematical value of a [`Term`].
pub enum TermView {
    Cond(Seq<(TermView, TermView)>),
    Atom(Box<TermView>),
    Eq(Box<TermView>, Box<TermView>),
    Car(Box<TermView>),
    Cdr(Box<TermView>),
    Cons(Box<TermView>, Box<TermView>),
    Variable(Seq<char>),
    Lambda(Seq<Seq<char>>, Box<TermView>),
    Apply(Box<TermView>, Seq<TermView>),
    Label(Seq<char>, Box<TermView>),
    Quote(SExpressionView),
}

impl SExpression {
    /// The mathematical value of this expression.
    pub open spec fn model(&self) -> SExpressionView
        decreases self,
    {
        match self {
            SExpression::Symbol(s) => SExpressionView::Symbol(s@),
            SExpression::Pair(a, b) => SExpressionView::Pair(
                Box::new(a.model()),
                Box::new(b.model()),
            ),
        }
    }
}

impl Clone for SExpression {
    fn clone(&self) -> (r: Self)
        ensures
            r@ == self@,
        decreases self,
    {
        match self {
            SExpression::Symbol(s) => SExpression::Symbol(s.clone()),
            SExpression::Pair(a, b) => SExpression::Pair(
                Box::new((**a).clone()),
                Box::new((**b).clone()),
            ),
        }
    }
}

impl View for SExpression {
    type V = SExpressionView;

    open spec fn view(&self) -> SExpressionView {
        self.model()
    }
}

/// The texts of a sequence of names.
pub open spec fn names_view(names: Seq<String>) -> Seq<Seq<char>> {
    Seq::new(names.len(), |i: int| names[i]@)
}

/// The mathematical values of the clauses of a conditional.
pub open spec fn clause_models(clauses: Seq<(Box<Term>, Box<Term>)>) -> Seq<(TermView, TermView)>
    decreases clauses,
{
    Seq::new(
        clauses.len(),
        |i: int|
            if 0 <= i < clauses.len() {
                (clauses[i].0.model(), clauses[i].1.model())
            } else {
                arbitrary()
            },
    )
}

/// The mathematical values of a sequence of terms.
pub open spec fn term_models(terms: Seq<Box<Term>>) -> Seq<TermView>
    decreases terms,
{
    Seq::new(
        terms.len(),
        |i: int|
            if 0 <= i < terms.len() {
                terms[i].model()
            } else {
                arbitrary()
            },
    )
}

impl Term {
    /// The mathematical value of this term.
    pub open spec fn model(&self) -> TermView
        decreases self,
    {
        match self {
            Term::Cond(clauses) => TermView::Cond(clause_models(clauses@)),
            Term::Atom(a) => TermView::Atom(Box::new(a.model())),
            Term::Eq(a, b) => TermView::Eq(Box::new(a.model()), Box::new(b.model())),
            Term::Car(a) => TermView::Car(Box::new(a.model())),
            Term::Cdr(a) => TermView::Cdr(Box::new(a.model())),
            Term::Cons(a, b) => TermView::Cons(Box::new(a.model()), Box::new(b.model())),
            Term::Variable(name) => TermView::Variable(name@),
            Term::Lambda(params, body) => TermView::Lambda(
                names_view(params@),
                Box::new(body.model()),
            ),
            Term::Apply(f, args) => TermView::Apply(Box::new(f.model()), term_models(args@)),
            Term::Label(name, body) => TermView::Label(name@, Box::new(body.model())),
            Term::Quote(s) => TermView::Quote(s@),
        }
    }
}

impl View for Term {
    type V = TermView;

    open spec fn view(&self) -> TermView {
        self.model()
    }
}

/// A copy of a sequence of names.
pub fn clone_names(names: &Vec<String>) -> (r: Vec<String>)
    ensures
        names_view(r@) == names_view(names@),
{
    let mut copy: Vec<String> = Vec::new();
    let mut i: usize = 0;
    while i < names.len()
        invariant
            i <= names@.len(),
            copy@.len() == i,
            forall|k: int| 0 <= k < i ==> copy@[k]@ == names@[k]@,
        decreases names@.len() - i,
    {
        copy.push(names[i].clone());
        i = i + 1;
    }
    assert(names_view(copy@) =~= names_view(names@));
    copy
}

impl Clone for Term {
    fn clone(&self) -> (r: Self)
        ensures
            r@ == self@,
        decreases self,
    {
        match self {
            Term::Cond(clauses) => {
                let mut copy: Vec<(Box<Term>, Box<Term>)> = Vec::new();
                let mut i: usize = 0;
                while i < clauses.len()
                    invariant
                        i <= clauses@.len(),
                        copy@.len() == i,
                        self is Cond,
                        clauses == self->Cond_0,
                        forall|k: int|
                            0 <= k < i ==> copy@[k].0@ == clauses@[k].0@ && copy@[k].1@
                                == clauses@[k].1@,
                    decreases clauses@.len() - i,
                {
                    assert(decreases_to!(self => self->Cond_0@[i as int].0));
                    assert(decreases_to!(self => self->Cond_0@[i as int].1));
                    let pred = (*clauses[i].0).clone();
                    let result = (*clauses[i].1).clone();
                    copy.push((Box::new(pred), Box::new(result)));
                    i = i + 1;
                }
                assert(clause_models(copy@) =~= clause_models(clauses@));
                Term::Cond(copy)
            },
            Term::Atom(a) => Term::Atom(Box::new((**a).clone())),
            Term::Eq(a, b) => Term::Eq(Box::new((**a).clone()), Box::new((**b).clone())),
            Term::Car(a) => Term::Car(Box::new((**a).clone())),
            Term::Cdr(a) => Term::Cdr(Box::new((**a).clone())),
            Term::Cons(a, b) => Term::Cons(Box::new((**a).clone()), Box::new((**b).clone())),
            Term::Variable(name) => Term::Variable(name.clone()),
            Term::Lambda(params, body) => Term::Lambda(
                clone_names(params),
                Box::new((**body).clone()),
            ),
            Term::Apply(f, args) => {
                let mut copy: Vec<Box<Term>> = Vec::new();
                let mut i: usize = 0;
                while i < args.len()
                    invariant
                        i <= args@.len(),
                        copy@.len() == i,
                        self is Apply,
                        args == self->Apply_1,
                        forall|k: int| 0 <= k < i ==> copy@[k]@ == args@[k]@,
                    decreases args@.len() - i,
                {
                    assert(decreases_to!(self => self->Apply_1@[i as int]));
                    let arg = (*args[i]).clone();
                    copy.push(Box::new(arg));
                    i = i + 1;
                }
                assert(term_models(copy@) =~= term_models(args@));
                Term::Apply(Box::new((**f).clone()), copy)
            },
            Term::Label(name, body) => Term::Label(name.clone(), Box::new((**body).clone())),
            Term::Quote(s) => Term::Quote(s.clone()),
        }
    }
}

impl Value {
    /// The mathematical value of this value.
    pub open spec fn model(&self) -> ValueView
        decreases self,
    {
        match self {
            Value::Symbol(s) => ValueView::Symbol(s@),
            Value::Pair(a, b) => ValueView::Pair(Box::new(a.model()), Box::new(b.model())),
            Value::Closure(params, body, scope) => ValueView::Closure(
                names_view(params@),
                Box::new(body.model()),
                scope.model(),
            ),
        }
    }
}

impl View for Value {
    type V = ValueView;

    open spec fn view(&self) -> ValueView {
        self.model()
    }
}

impl Clone for Value {
    fn clone(&self) -> (r: Self)
        ensures
            r@ == self@,
        decreases self,
    {
        match self {
            Value::Symbol(s) => Value::Symbol(s.clone()),
            Value::Pair(a, b) => Value::Pair(Box::new((**a).clone()), Box::new((**b).clone())),
            Value::Closure(params, body, scope) => Value::Closure(
                clone_names(params),
                Box::new((**body).clone()),
                scope.clone(),
            ),
        }
    }
}

/// Whether two sequences of names hold the same names in the same order.
pub fn same_names(a: &Vec<String>, b: &Vec<String>) -> (r: bool)
    ensures
        r == (names_view(a@) == names_view(b@)),
{
    if a.len() != b.len() {
        assert(names_view(a@).len() != names_view(b@).len());
        return false;
    }
    let mut i: usize = 0;
    while i < a.len()
        invariant
            i <= a@.len(),
            a@.len() == b@.len(),
            forall|k: int| 0 <= k < i ==> a@[k]@ == b@[k]@,
        decreases a@.len() - i,
    {
        if a[i] != b[i] {
            assert(names_view(a@)[i as int] != names_view(b@)[i as int]);
            return false;
        }
        i = i + 1;
    }
    assert(names_view(a@) =~= names_view(b@));
    true
}

impl PartialEq for SExpression {
    fn eq(&self, other: &Self) -> (r: bool)
        decreases self,
    {
        match (self, other) {
            (SExpression::Symbol(a), SExpression::Symbol(b)) => *a == *b,
            (SExpression::Pair(a1, b1), SExpression::Pair(a2, b2)) => (**a1).eq(&**a2) && (
            **b1).eq(&**b2),
            _ => false,
        }
    }
}

impl PartialEqSpecImpl for SExpression {
    open spec fn obeys_eq_spec() -> bool {
        true
    }

    open spec fn eq_spec(&self, other: &Self) -> bool {
        self@ == other@
    }
}

impl Eq for SExpression {

}

impl PartialEq for Term {
    fn eq(&self, other: &Self) -> (r: bool)
        decreases self,
    {
        match (self, other) {
            (Term::Cond(xs), Term::Cond(ys)) => {
                if xs.len() != ys.len() {
                    assert(clause_models(xs@).len() != clause_models(ys@).len());
                    return false;
                }
                let mut i: usize = 0;
                while i < xs.len()
                    invariant
                        i <= xs@.len(),
                        xs@.len() == ys@.len(),
                        self is Cond,
                        xs == self->Cond_0,
                        other is Cond,
                        ys == other->Cond_0,
                        forall|k: int|
                            0 <= k < i ==> xs@[k].0@ == ys@[k].0@ && xs@[k].1@ == ys@[k].1@,
                    decreases xs@.len() - i,
                {
                    assert(decreases_to!(self => self->Cond_0@[i as int].0));
                    assert(decreases_to!(self => self->Cond_0@[i as int].1));
                    if !(*xs[i].0).eq(&*ys[i].0) || !(*xs[i].1).eq(&*ys[i].1) {
                        assert(clause_models(xs@)[i as int] != clause_models(ys@)[i as int]);
                        return false;
                    }
                    i = i + 1;
                }
                assert(clause_models(xs@) =~= clause_models(ys@));
                true
            },
            (Term::Atom(a), Term::Atom(b)) => (**a).eq(&**b),
            (Term::Eq(a1, b1), Term::Eq(a2, b2)) => (**a1).eq(&**a2) && (**b1).eq(&**b2),
            (Term::Car(a), Term::Car(b)) => (**a).eq(&**b),
            (Term::Cdr(a), Term::Cdr(b)) => (**a).eq(&**b),
            (Term::Cons(a1, b1), Term::Cons(a2, b2)) => (**a1).eq(&**a2) && (**b1).eq(&**b2),
            (Term::Variable(a), Term::Variable(b)) => *a == *b,
            (Term::Lambda(p1, b1), Term::Lambda(p2, b2)) => same_names(p1, p2) && (**b1).eq(
                &**b2,
            ),
            (Term::Apply(f1, xs), Term::Apply(f2, ys)) => {
                if !(**f1).eq(&**f2) {
                    return false;
                }
                if xs.len() != ys.len() {
                    assert(term_models(xs@).len() != term_models(ys@).len());
                    return false;
                }
                let mut i: usize = 0;
                while i < xs.len()
                    invariant
                        i <= xs@.len(),
                        xs@.len() == ys@.len(),
                        self is Apply,
                        xs == self->Apply_1,
                        other is Apply,
                        ys == other->Apply_1,
                        f1@ == f2@,
                        f1 == self->Apply_0,
                        f2 == other->Apply_0,
                        forall|k: int| 0 <= k < i ==> xs@[k]@ == ys@[k]@,
                    decreases xs@.len() - i,
                {
                    assert(decreases_to!(self => self->Apply_1@[i as int]));
                    if !(*xs[i]).eq(&*ys[i]) {
                        assert(term_models(xs@)[i as int] != term_models(ys@)[i as int]);
                        return false;
                    }
                    i = i + 1;
                }
                assert(term_models(xs@) =~= term_models(ys@));
                true
            },
            (Term::Label(n1, b1), Term::Label(n2, b2)) => *n1 == *n2 && (**b1).eq(&**b2),
            (Term::Quote(a), Term::Quote(b)) => a.eq(b),
            _ => false,
        }
    }
}

impl PartialEqSpecImpl for Term {
    open spec fn obeys_eq_spec() -> bool {
        true
    }

    open spec fn eq_spec(&self, other: &Self) -> bool {
        self@ == other@
    }
}

impl Eq for Term {

}

impl PartialEq for Value {
    fn eq(&self, other: &Self) -> (r: bool)
        decreases self,
    {
        match (self, other) {
            (Value::Symbol(a), Value::Symbol(b)) => *a == *b,
            (Value::Pair(a1, b1), Value::Pair(a2, b2)) => (**a1).eq(&**a2) && (**b1).eq(
                &**b2,
            ),
            (Value::Closure(p1, b1, s1), Value::Closure(p2, b2, s2)) => same_names(p1, p2) && (
            **b1).eq(&**b2) && s1.eq(s2),
            _ => false,
        }
    }
}

impl PartialEqSpecImpl for Value {
    open spec fn obeys_eq_spec() -> bool {
        true
    }

    open spec fn eq_spec(&self, other: &Self) -> bool {
        self@ == other@
    }
}

impl Eq for Value {

}

} // verus!
