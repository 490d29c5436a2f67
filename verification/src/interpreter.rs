//! The evaluator: a term and an environment give a value, or nothing.
//!
//! Evaluation follows the structure of the term. The one step that leaves
//! the term is the application of a closure, which evaluates the body of the
//! closure; the depth of an evaluation is the number of such applications
//! that nest in it. Every evaluation runs within a bound on its depth, which
//! makes it finite: a term whose evaluation would nest deeper has no value
//! within the bound. The bound decides only whether a value is found, never
//! which one ([`lemma_value_holds_deeper`]).
//!
//! A closure made by `label` carries its own name in its scope. Whenever
//! it is applied, its body starts with that name bound to the closure itself
//! ([`lemma_label_binds_itself`]), so that the function can call itself.

use crate::environment::{Environment, Scope, ScopeView};
use crate::lexer::spells;
use crate::syntax::{
    clause_models, clone_names, names_view, term_models, SExpression, SExpressionView, Term,
    TermView, Value, ValueView,
};
use vstd::prelude::*;
use vstd::string::*;

verus! {

/// How deep applications of closures may nest in an evaluation by
/// [`Term::eval`].
pub const MAX_DEPTH: u64 = 0xffff_ffff_ffff_ffff;

/// The atom that stands for truth.
pub open spec fn truth() -> ValueView {
    ValueView::Symbol("T"@)
}

/// The atom that stands for falsity.
pub open spec fn falsity() -> ValueView {
    ValueView::Symbol("F"@)
}

/// The atom that stands for the truth or falsity of `b`.
pub open spec fn truth_value(b: bool) -> ValueView {
    if b {
        truth()
    } else {
        falsity()
    }
}

/// The value of a quoted expression: the same shape, atom for atom and pair
/// for pair.
pub open spec fn quote_value(s: SExpressionView) -> ValueView
    decreases s,
{
    match s {
        SExpressionView::Symbol(name) => ValueView::Symbol(name),
        SExpressionView::Pair(a, b) => ValueView::Pair(
            Box::new(quote_value(*a)),
            Box::new(quote_value(*b)),
        ),
    }
}

/// The bindings that the body of a closure starts from when the closure is
/// applied: those of its scope and, for a closure made by `label`, the
/// closure itself under its own name.
pub open spec fn closure_frame(params: Seq<Seq<char>>, body: TermView, scope: ScopeView) -> Map<
    Seq<char>,
    ValueView,
> {
    match scope.own_name {
        Some(name) => scope.bindings.insert(
            name,
            ValueView::Closure(params, Box::new(body), scope),
        ),
        None => scope.bindings,
    }
}

/// `env` with each of `names` bound to the value at the same place in
/// `values`, from first to last, so that a later name replaces an earlier
/// one that is the same.
pub open spec fn bind_all(
    env: Map<Seq<char>, ValueView>,
    names: Seq<Seq<char>>,
    values: Seq<ValueView>,
) -> Map<Seq<char>, ValueView>
    decreases names.len(),
{
    if names.len() == 0 || values.len() != names.len() {
        env
    } else {
        bind_all(env, names.drop_last(), values.drop_last()).insert(names.last(), values.last())
    }
}

/// The value of `term` in `env`, if it has one and no more than `depth`
/// applications of closures nest on the way to it.
pub open spec fn eval_spec(term: TermView, env: Map<Seq<char>, ValueView>, depth: nat) -> Option<
    ValueView,
>
    decreases depth, term,
{
    match term {
        TermView::Cond(clauses) => eval_cond_spec(clauses, env, depth),
        TermView::Atom(a) => match eval_spec(*a, env, depth) {
            Some(v) => Some(truth_value(v is Symbol)),
            None => None,
        },
        TermView::Eq(a, b) => match (eval_spec(*a, env, depth), eval_spec(*b, env, depth)) {
            (Some(ValueView::Symbol(x)), Some(ValueView::Symbol(y))) => Some(truth_value(x == y)),
            _ => None,
        },
        TermView::Car(a) => match eval_spec(*a, env, depth) {
            Some(ValueView::Pair(first, _)) => Some(*first),
            _ => None,
        },
        TermView::Cdr(a) => match eval_spec(*a, env, depth) {
            Some(ValueView::Pair(_, second)) => Some(*second),
            _ => None,
        },
        TermView::Cons(a, b) => match (eval_spec(*a, env, depth), eval_spec(*b, env, depth)) {
            (Some(x), Some(y)) => Some(ValueView::Pair(Box::new(x), Box::new(y))),
            _ => None,
        },
        TermView::Variable(name) => if env.contains_key(name) {
            Some(env[name])
        } else {
            None
        },
        TermView::Lambda(params, body) => Some(
            ValueView::Closure(params, body, ScopeView { bindings: env, own_name: None }),
        ),
        TermView::Apply(function, args) => match eval_spec(*function, env, depth) {
            Some(ValueView::Closure(params, body, scope)) => if params.len() == args.len() {
                match eval_args_spec(args, env, depth) {
                    Some(values) => if depth > 0 {
                        eval_spec(
                            *body,
                            bind_all(closure_frame(params, *body, scope), params, values),
                            (depth - 1) as nat,
                        )
                    } else {
                        None
                    },
                    None => None,
                }
            } else {
                None
            },
            _ => None,
        },
        TermView::Label(name, inner) => match *inner {
            TermView::Lambda(params, body) => Some(
                ValueView::Closure(params, body, ScopeView { bindings: env, own_name: Some(name) }),
            ),
            _ => None,
        },
        TermView::Quote(s) => Some(quote_value(s)),
    }
}

/// The value of a conditional with the given clauses: the value of the
/// result of the first clause whose predicate has the value truth, if every
/// predicate before it has a value.
pub open spec fn eval_cond_spec(
    clauses: Seq<(TermView, TermView)>,
    env: Map<Seq<char>, ValueView>,
    depth: nat,
) -> Option<ValueView>
    decreases depth, clauses,
{
    if clauses.len() == 0 {
        None
    } else {
        match eval_spec(clauses[0].0, env, depth) {
            Some(v) => if v == truth() {
                eval_spec(clauses[0].1, env, depth)
            } else {
                eval_cond_spec(clauses.drop_first(), env, depth)
            },
            None => None,
        }
    }
}

/// The values of the given terms, if each has one.
pub open spec fn eval_args_spec(
    args: Seq<TermView>,
    env: Map<Seq<char>, ValueView>,
    depth: nat,
) -> Option<Seq<ValueView>>
    decreases depth, args,
{
    if args.len() == 0 {
        Some(Seq::empty())
    } else {
        match (eval_args_spec(args.drop_last(), env, depth), eval_spec(args.last(), env, depth)) {
            (Some(values), Some(v)) => Some(values.push(v)),
            _ => None,
        }
    }
}

/// The mathematical value of an optional value.
pub open spec fn value_view(value: Option<Value>) -> Option<ValueView> {
    match value {
        Some(v) => Some(v@),
        None => None,
    }
}

impl SExpression {
    /// The value of this expression when it is quoted.
    pub fn eval(self) -> (r: Value)
        ensures
            r@ == quote_value(self@),
        decreases self,
    {
        match self {
            SExpression::Symbol(name) => Value::Symbol(name),
            SExpression::Pair(a, b) => Value::Pair(Box::new((*a).eval()), Box::new((*b).eval())),
        }
    }
}

/// The atom that stands for the truth or falsity of `b`.
pub fn truth_symbol(b: bool) -> (r: Value)
    ensures
        r@ == truth_value(b),
{
    if b {
        Value::Symbol(String::from_str("T"))
    } else {
        Value::Symbol(String::from_str("F"))
    }
}

/// Whether `value` is the atom that stands for truth.
pub fn is_truth(value: &Value) -> (r: bool)
    ensures
        r == (value@ == truth()),
{
    match value {
        Value::Symbol(name) => spells(name, "T"),
        _ => false,
    }
}

/// The bindings that the body of a closure starts from when the closure is
/// applied.
fn enter(params: &Vec<String>, body: &Term, scope: Scope) -> (r: Environment)
    ensures
        r@ == closure_frame(names_view(params@), body@, scope@),
{
    let this = match &scope.own_name {
        Some(name) => Some(
            (name.clone(), Value::Closure(clone_names(params), Box::new(body.clone()), scope.clone())),
        ),
        None => None,
    };
    let mut frame = scope.bindings;
    match this {
        Some((name, closure)) => {
            frame.extend(name, closure);
        },
        None => {},
    }
    frame
}

impl Term {
    /// The value of this term in `env`, which is left as it was. Nothing is
    /// returned where the term has no value, and where more than
    /// [`MAX_DEPTH`] applications of closures nest.
    pub fn eval(self, env: &mut Environment) -> (r: Option<Value>)
        ensures
            value_view(r) == eval_spec(self@, old(env)@, MAX_DEPTH as nat),
            *final(env) == *old(env),
    {
        self.eval_within(&*env, MAX_DEPTH)
    }

    /// The value of this term in `env`, if it has one and no more than
    /// `depth` applications of closures nest on the way to it.
    pub fn eval_within(&self, env: &Environment, depth: u64) -> (r: Option<Value>)
        ensures
            value_view(r) == eval_spec(self@, env@, depth as nat),
        decreases depth, self,
    {
        match self {
            Term::Cond(clauses) => {
                let ghost models = clause_models(clauses@);
                assert(self@ == TermView::Cond(models));
                assert(models.skip(0) =~= models);
                let mut i: usize = 0;
                while i < clauses.len()
                    invariant
                        i <= clauses@.len(),
                        self is Cond,
                        clauses == self->Cond_0,
                        models == clause_models(clauses@),
                        eval_spec(self@, env@, depth as nat) == eval_cond_spec(
                            models.skip(i as int),
                            env@,
                            depth as nat,
                        ),
                    decreases clauses@.len() - i,
                {
                    let ghost rest = models.skip(i as int);
                    assert(rest[0] == (clauses@[i as int].0@, clauses@[i as int].1@));
                    assert(rest.drop_first() =~= models.skip(i + 1));
                    assert(decreases_to!(self => self->Cond_0@[i as int].0));
                    assert(decreases_to!(self => self->Cond_0@[i as int].1));
                    let taken = match (*clauses[i].0).eval_within(env, depth) {
                        Some(v) => is_truth(&v),
                        None => return None,
                    };
                    if taken {
                        return (*clauses[i].1).eval_within(env, depth);
                    }
                    i = i + 1;
                }
                None
            },
            Term::Atom(a) => match (**a).eval_within(env, depth) {
                Some(Value::Symbol(_)) => Some(truth_symbol(true)),
                Some(_) => Some(truth_symbol(false)),
                None => None,
            },
            Term::Eq(a, b) => {
                let first = match (**a).eval_within(env, depth) {
                    Some(v) => v,
                    None => return None,
                };
                let second = match (**b).eval_within(env, depth) {
                    Some(v) => v,
                    None => return None,
                };
                match (first, second) {
                    (Value::Symbol(x), Value::Symbol(y)) => Some(truth_symbol(x == y)),
                    _ => None,
                }
            },
            Term::Car(a) => match (**a).eval_within(env, depth) {
                Some(Value::Pair(first, _)) => Some(*first),
                _ => None,
            },
            Term::Cdr(a) => match (**a).eval_within(env, depth) {
                Some(Value::Pair(_, second)) => Some(*second),
                _ => None,
            },
            Term::Cons(a, b) => {
                let first = match (**a).eval_within(env, depth) {
                    Some(v) => v,
                    None => return None,
                };
                let second = match (**b).eval_within(env, depth) {
                    Some(v) => v,
                    None => return None,
                };
                Some(Value::Pair(Box::new(first), Box::new(second)))
            },
            Term::Variable(name) => match env.lookup(name) {
                Some(value) => Some(value.clone()),
                None => None,
            },
            Term::Lambda(params, body) => {
                let scope = Scope { bindings: env.clone(), own_name: None };
                assert(scope@ == ScopeView { bindings: env@, own_name: None });
                Some(Value::Closure(clone_names(params), Box::new((**body).clone()), scope))
            },
            Term::Apply(function, args) => {
                let ghost models = term_models(args@);
                assert(self@ == TermView::Apply(Box::new(function@), models));
                let (params, body, scope) = match (**function).eval_within(env, depth) {
                    Some(Value::Closure(params, body, scope)) => (params, body, scope),
                    _ => return None,
                };
                if params.len() != args.len() {
                    return None;
                }
                assert(models.take(0) =~= Seq::empty());
                assert(names_view(params@).take(0) =~= Seq::empty());
                let ghost start = closure_frame(names_view(params@), body@, scope@);
                let ghost mut values: Seq<ValueView> = Seq::empty();
                let mut frame = enter(&params, &*body, scope);
                let mut i: usize = 0;
                while i < args.len()
                    invariant
                        i <= args@.len(),
                        params@.len() == args@.len(),
                        self is Apply,
                        args == self->Apply_1,
                        values.len() == i,
                        models == term_models(args@),
                        eval_args_spec(models.take(i as int), env@, depth as nat) == Some(values),
                        frame@ == bind_all(start, names_view(params@).take(i as int), values),
                    decreases args@.len() - i,
                {
                    let ghost given = models.take(i + 1);
                    let ghost names = names_view(params@).take(i + 1);
                    assert(given.drop_last() =~= models.take(i as int));
                    assert(given.last() == args@[i as int]@);
                    assert(names.drop_last() =~= names_view(params@).take(i as int));
                    assert(names.last() == params@[i as int]@);
                    assert(decreases_to!(self => self->Apply_1@[i as int]));
                    let value = match (*args[i]).eval_within(env, depth) {
                        Some(v) => v,
                        None => {
                            proof {
                                lemma_eval_args_fail(models, env@, depth as nat, i + 1);
                            }
                            return None;
                        },
                    };
                    proof {
                        assert(values.push(value@).drop_last() =~= values);
                        values = values.push(value@);
                    }
                    frame.extend(params[i].clone(), value);
                    i = i + 1;
                }
                assert(models.take(i as int) =~= models);
                assert(names_view(params@).take(i as int) =~= names_view(params@));
                if depth == 0 {
                    return None;
                }
                (*body).eval_within(&frame, depth - 1)
            },
            Term::Label(name, inner) => match &**inner {
                Term::Lambda(params, body) => {
                    assert(inner@ == TermView::Lambda(names_view(params@), Box::new(body@)));
                    let scope = Scope { bindings: env.clone(), own_name: Some(name.clone()) };
                    assert(scope@ == ScopeView { bindings: env@, own_name: Some(name@) });
                    Some(Value::Closure(clone_names(params), Box::new((**body).clone()), scope))
                },
                _ => {
                    assert(!(inner@ is Lambda));
                    None
                },
            },
            Term::Quote(s) => Some(s.clone().eval()),
        }
    }
}

/// If the first `n` of some terms do not all have a value, then the terms do
/// not all have a value.
pub proof fn lemma_eval_args_fail(
    args: Seq<TermView>,
    env: Map<Seq<char>, ValueView>,
    depth: nat,
    n: int,
)
    requires
        0 <= n <= args.len(),
        eval_args_spec(args.take(n), env, depth) is None,
    ensures
        eval_args_spec(args, env, depth) is None,
    decreases args.len(),
{
    if n < args.len() {
        assert(args.drop_last().take(n) =~= args.take(n));
        lemma_eval_args_fail(args.drop_last(), env, depth, n);
    } else {
        assert(args.take(n) =~= args);
    }
}

/// Quoted data always has a value, in every environment and at every
/// depth: the value of the same shape.
pub proof fn lemma_quote_has_value(s: SExpressionView, env: Map<Seq<char>, ValueView>, depth: nat)
    ensures
        eval_spec(TermView::Quote(s), env, depth) == Some(quote_value(s)),
{
}

/// Two evaluations of the same quoted data give the same value, whatever
/// the environments and depths they run in.
pub proof fn lemma_quote_is_deterministic(
    a: SExpression,
    b: SExpression,
    env_a: Map<Seq<char>, ValueView>,
    env_b: Map<Seq<char>, ValueView>,
    depth_a: nat,
    depth_b: nat,
)
    requires
        a@ == b@,
    ensures
        eval_spec(TermView::Quote(a@), env_a, depth_a) == eval_spec(
            TermView::Quote(b@),
            env_b,
            depth_b,
        ),
{
}

/// A conditional whose first predicate is the quoted atom of truth has the
/// value of its first result, whatever the clauses behind it hold.
pub proof fn lemma_cond_takes_true_clause(
    target: TermView,
    others: Seq<(TermView, TermView)>,
    env: Map<Seq<char>, ValueView>,
    depth: nat,
)
    ensures
        eval_spec(
            TermView::Cond(
                seq![(TermView::Quote(SExpressionView::Symbol("T"@)), target)] + others,
            ),
            env,
            depth,
        ) == eval_spec(target, env, depth),
{
    reveal_with_fuel(eval_spec, 2);
    let clauses = seq![(TermView::Quote(SExpressionView::Symbol("T"@)), target)] + others;
    assert(clauses[0] == (TermView::Quote(SExpressionView::Symbol("T"@)), target));
    assert(eval_spec(clauses[0].0, env, depth) == Some(truth()));
    assert(eval_cond_spec(clauses, env, depth) == eval_spec(target, env, depth));
}

/// A conditional has the value of the result of its first clause whose
/// predicate is true, when every predicate before that one has a value
/// other than truth. The clauses behind it play no part.
pub proof fn lemma_cond_first_true(
    clauses: Seq<(TermView, TermView)>,
    env: Map<Seq<char>, ValueView>,
    depth: nat,
    i: int,
)
    requires
        0 <= i < clauses.len(),
        forall|k: int|
            0 <= k < i ==> (#[trigger] eval_spec(clauses[k].0, env, depth)) is Some && eval_spec(
                clauses[k].0,
                env,
                depth,
            ) != Some(truth()),
        eval_spec(clauses[i].0, env, depth) == Some(truth()),
    ensures
        eval_spec(TermView::Cond(clauses), env, depth) == eval_spec(clauses[i].1, env, depth),
    decreases i,
{
    reveal_with_fuel(eval_spec, 2);
    if i > 0 {
        let rest = clauses.drop_first();
        assert forall|k: int| 0 <= k < i - 1 implies (#[trigger] eval_spec(
            rest[k].0,
            env,
            depth,
        )) is Some && eval_spec(rest[k].0, env, depth) != Some(truth()) by {
            assert(rest[k] == clauses[k + 1]);
        }
        assert(rest[i - 1] == clauses[i]);
        lemma_cond_first_true(rest, env, depth, i - 1);
        assert(eval_spec(clauses[0].0, env, depth) is Some);
    }
}

/// A conditional none of whose predicates is true has no value.
pub proof fn lemma_cond_none_true(
    clauses: Seq<(TermView, TermView)>,
    env: Map<Seq<char>, ValueView>,
    depth: nat,
)
    requires
        forall|k: int|
            0 <= k < clauses.len() ==> (#[trigger] eval_spec(clauses[k].0, env, depth)) != Some(
                truth(),
            ),
    ensures
        eval_spec(TermView::Cond(clauses), env, depth) is None,
    decreases clauses.len(),
{
    reveal_with_fuel(eval_spec, 2);
    if clauses.len() > 0 {
        let rest = clauses.drop_first();
        assert forall|k: int| 0 <= k < rest.len() implies (#[trigger] eval_spec(
            rest[k].0,
            env,
            depth,
        )) != Some(truth()) by {
            assert(rest[k] == clauses[k + 1]);
        }
        lemma_cond_none_true(rest, env, depth);
        assert(eval_spec(clauses[0].0, env, depth) != Some(truth()));
    }
}

/// `atom` of a quoted atom is true, and `atom` of a quoted pair is false.
pub proof fn lemma_atom_of_quote(s: SExpressionView, env: Map<Seq<char>, ValueView>, depth: nat)
    ensures
        eval_spec(TermView::Atom(Box::new(TermView::Quote(s))), env, depth) == Some(
            truth_value(s is Symbol),
        ),
{
    reveal_with_fuel(eval_spec, 2);
    reveal_with_fuel(quote_value, 2);
}

/// `eq` of two quoted atoms says whether they are the same atom, and `eq`
/// has no value as soon as one side is a quoted pair.
pub proof fn lemma_eq_of_quotes(
    a: SExpressionView,
    b: SExpressionView,
    env: Map<Seq<char>, ValueView>,
    depth: nat,
)
    ensures
        eval_spec(
            TermView::Eq(Box::new(TermView::Quote(a)), Box::new(TermView::Quote(b))),
            env,
            depth,
        ) == match (a, b) {
            (SExpressionView::Symbol(x), SExpressionView::Symbol(y)) => Some(truth_value(x == y)),
            _ => None,
        },
{
    reveal_with_fuel(eval_spec, 2);
    reveal_with_fuel(quote_value, 2);
}

/// `car` and `cdr` of a quoted pair are the values of its two sides, and
/// neither has a value on a quoted atom.
pub proof fn lemma_car_cdr_of_quote(
    s: SExpressionView,
    env: Map<Seq<char>, ValueView>,
    depth: nat,
)
    ensures
        eval_spec(TermView::Car(Box::new(TermView::Quote(s))), env, depth) == match s {
            SExpressionView::Pair(first, _) => Some(quote_value(*first)),
            SExpressionView::Symbol(_) => None,
        },
        eval_spec(TermView::Cdr(Box::new(TermView::Quote(s))), env, depth) == match s {
            SExpressionView::Pair(_, second) => Some(quote_value(*second)),
            SExpressionView::Symbol(_) => None,
        },
{
    reveal_with_fuel(eval_spec, 2);
    reveal_with_fuel(quote_value, 2);
}

/// `cons` of two terms that have values is the pair of the two values,
/// whatever kind of value each is.
pub proof fn lemma_cons_pairs(
    a: TermView,
    b: TermView,
    env: Map<Seq<char>, ValueView>,
    depth: nat,
)
    requires
        eval_spec(a, env, depth) is Some,
        eval_spec(b, env, depth) is Some,
    ensures
        eval_spec(TermView::Cons(Box::new(a), Box::new(b)), env, depth) == Some(
            ValueView::Pair(
                Box::new(eval_spec(a, env, depth)->0),
                Box::new(eval_spec(b, env, depth)->0),
            ),
        ),
{
}

/// A variable has the value that the environment binds it to, and none
/// where the environment does not bind it.
pub proof fn lemma_variable_lookup(name: Seq<char>, env: Map<Seq<char>, ValueView>, depth: nat)
    ensures
        env.contains_key(name) ==> eval_spec(TermView::Variable(name), env, depth) == Some(
            env[name],
        ),
        !env.contains_key(name) ==> eval_spec(TermView::Variable(name), env, depth) is None,
{
}

/// Applying the identity function to a term that has a value gives that
/// value, once one application is allowed.
pub proof fn lemma_apply_identity(
    x: Seq<char>,
    arg: TermView,
    env: Map<Seq<char>, ValueView>,
    depth: nat,
)
    requires
        depth > 0,
        eval_spec(arg, env, depth) is Some,
    ensures
        eval_spec(
            TermView::Apply(
                Box::new(TermView::Lambda(seq![x], Box::new(TermView::Variable(x)))),
                seq![arg],
            ),
            env,
            depth,
        ) == eval_spec(arg, env, depth),
{
    reveal_with_fuel(eval_spec, 2);
    let value = eval_spec(arg, env, depth)->0;
    let args = seq![arg];
    let names = seq![x];
    assert(args.drop_last() =~= Seq::<TermView>::empty());
    assert(eval_args_spec(args.drop_last(), env, depth) == Some(Seq::<ValueView>::empty()));
    assert(args.last() == arg);
    assert(Seq::<ValueView>::empty().push(value) =~= seq![value]);
    assert(eval_args_spec(args, env, depth) == Some(seq![value]));
    lemma_bind_all_last_wins(env, names, seq![value], 0);
}

/// After binding names to values, a name that was bound has the value of
/// its last occurrence among the names: an inner binding shadows an outer
/// one of the same name.
pub proof fn lemma_bind_all_last_wins(
    env: Map<Seq<char>, ValueView>,
    names: Seq<Seq<char>>,
    values: Seq<ValueView>,
    i: int,
)
    requires
        names.len() == values.len(),
        0 <= i < names.len(),
        forall|k: int| i < k < names.len() ==> names[k] != names[i],
    ensures
        bind_all(env, names, values).contains_key(names[i]),
        bind_all(env, names, values)[names[i]] == values[i],
    decreases names.len(),
{
    if i < names.len() - 1 {
        lemma_bind_all_last_wins(env, names.drop_last(), values.drop_last(), i);
    }
}

/// Binding names to values leaves every other name as it was.
pub proof fn lemma_bind_all_keeps_others(
    env: Map<Seq<char>, ValueView>,
    names: Seq<Seq<char>>,
    values: Seq<ValueView>,
    other: Seq<char>,
)
    requires
        names.len() == values.len(),
        !names.contains(other),
    ensures
        bind_all(env, names, values).contains_key(other) == env.contains_key(other),
        env.contains_key(other) ==> bind_all(env, names, values)[other] == env[other],
    decreases names.len(),
{
    if names.len() > 0 {
        assert forall|k: int| 0 <= k < names.len() - 1 implies names.drop_last()[k] != other by {
            assert(names[k] != other);
        }
        assert(names.last() != other);
        lemma_bind_all_keeps_others(env, names.drop_last(), values.drop_last(), other);
    }
}

/// Where a closure made by `label` is applied, its own name is bound to the
/// closure itself, unless a parameter has that name: the body can call the
/// function that it belongs to.
pub proof fn lemma_label_binds_itself(
    name: Seq<char>,
    params: Seq<Seq<char>>,
    body: TermView,
    env: Map<Seq<char>, ValueView>,
    values: Seq<ValueView>,
)
    requires
        params.len() == values.len(),
        !params.contains(name),
    ensures
        ({
            let scope = ScopeView { bindings: env, own_name: Some(name) };
            let frame = bind_all(closure_frame(params, body, scope), params, values);
            frame.contains_key(name) && frame[name] == ValueView::Closure(
                params,
                Box::new(body),
                scope,
            )
        }),
{
    let scope = ScopeView { bindings: env, own_name: Some(name) };
    lemma_bind_all_keeps_others(closure_frame(params, body, scope), params, values, name);
}

/// A value found within some depth is the value found within any greater
/// depth: the bound on the depth decides whether a value is found, never
/// which one.
pub proof fn lemma_value_holds_deeper(
    term: TermView,
    env: Map<Seq<char>, ValueView>,
    depth: nat,
    deeper: nat,
)
    requires
        depth <= deeper,
        eval_spec(term, env, depth) is Some,
    ensures
        eval_spec(term, env, deeper) == eval_spec(term, env, depth),
    decreases depth, term,
{
    match term {
        TermView::Cond(clauses) => {
            lemma_cond_holds_deeper(clauses, env, depth, deeper);
        },
        TermView::Atom(a) => {
            lemma_value_holds_deeper(*a, env, depth, deeper);
        },
        TermView::Eq(a, b) => {
            lemma_value_holds_deeper(*a, env, depth, deeper);
            lemma_value_holds_deeper(*b, env, depth, deeper);
        },
        TermView::Car(a) => {
            lemma_value_holds_deeper(*a, env, depth, deeper);
        },
        TermView::Cdr(a) => {
            lemma_value_holds_deeper(*a, env, depth, deeper);
        },
        TermView::Cons(a, b) => {
            lemma_value_holds_deeper(*a, env, depth, deeper);
            lemma_value_holds_deeper(*b, env, depth, deeper);
        },
        TermView::Apply(function, args) => {
            lemma_value_holds_deeper(*function, env, depth, deeper);
            match eval_spec(*function, env, depth) {
                Some(ValueView::Closure(params, body, scope)) => {
                    lemma_args_hold_deeper(args, env, depth, deeper);
                    let values = eval_args_spec(args, env, depth)->0;
                    lemma_value_holds_deeper(
                        *body,
                        bind_all(closure_frame(params, *body, scope), params, values),
                        (depth - 1) as nat,
                        (deeper - 1) as nat,
                    );
                },
                _ => {},
            }
        },
        _ => {},
    }
}

/// The clauses' part of [`lemma_value_holds_deeper`].
pub proof fn lemma_cond_holds_deeper(
    clauses: Seq<(TermView, TermView)>,
    env: Map<Seq<char>, ValueView>,
    depth: nat,
    deeper: nat,
)
    requires
        depth <= deeper,
        eval_cond_spec(clauses, env, depth) is Some,
    ensures
        eval_cond_spec(clauses, env, deeper) == eval_cond_spec(clauses, env, depth),
    decreases depth, clauses,
{
    if clauses.len() > 0 {
        lemma_value_holds_deeper(clauses[0].0, env, depth, deeper);
        if eval_spec(clauses[0].0, env, depth) == Some(truth()) {
            lemma_value_holds_deeper(clauses[0].1, env, depth, deeper);
        } else {
            lemma_cond_holds_deeper(clauses.drop_first(), env, depth, deeper);
        }
    }
}

/// The arguments' part of [`lemma_value_holds_deeper`].
pub proof fn lemma_args_hold_deeper(
    args: Seq<TermView>,
    env: Map<Seq<char>, ValueView>,
    depth: nat,
    deeper: nat,
)
    requires
        depth <= deeper,
        eval_args_spec(args, env, depth) is Some,
    ensures
        eval_args_spec(args, env, deeper) == eval_args_spec(args, env, depth),
    decreases depth, args,
{
    if args.len() > 0 {
        lemma_args_hold_deeper(args.drop_last(), env, depth, deeper);
        lemma_value_holds_deeper(args.last(), env, depth, deeper);
    }
}

} // verus!
