use pure_lisp::environment::{Environment, Scope};
use pure_lisp::interpreter::{is_truth, truth_symbol, MAX_DEPTH};
use pure_lisp::lexer::Lexer;
use pure_lisp::parser::Parser;
use pure_lisp::printer::to_string_value;
use pure_lisp::syntax::{SExpression, Term, Value};

fn sym(name: &str) -> Value {
    Value::Symbol(name.to_string())
}

fn pair(a: Value, b: Value) -> Value {
    Value::Pair(Box::new(a), Box::new(b))
}

fn qsym(name: &str) -> SExpression {
    SExpression::Symbol(name.to_string())
}

fn qpair(a: SExpression, b: SExpression) -> SExpression {
    SExpression::Pair(Box::new(a), Box::new(b))
}

fn quoted(name: &str) -> Box<Term> {
    Box::new(Term::Quote(qsym(name)))
}

fn variable(name: &str) -> Box<Term> {
    Box::new(Term::Variable(name.to_string()))
}

fn read(text: &str) -> Term {
    Parser::new(Lexer::new(&text.to_string())).parse().unwrap()
}

fn run(text: &str) -> Option<Value> {
    read(text).eval(&mut Environment::new())
}

fn show(text: &str) -> Option<String> {
    run(text).map(|v| to_string_value(&v))
}

fn forever() -> Term {
    read("(apply (label loop (lambda () (apply loop ()))) ())")
}

fn last_of(list: &str) -> Term {
    read(&format!(
        "(apply (label last (lambda (x) (cond ((atom x) x) ('T (apply last (,(cdr x))))))) (,'{}))",
        list
    ))
}

#[test]
fn quoted_data_always_has_a_value() {
    let deep = qpair(
        qpair(qsym("a"), qpair(qsym(""), qsym("b c"))),
        qpair(qsym("T"), qsym("F")),
    );
    assert_eq!(
        deep.clone().eval(),
        pair(
            pair(sym("a"), pair(sym(""), sym("b c"))),
            pair(sym("T"), sym("F"))
        )
    );
    assert_eq!(
        Term::Quote(deep.clone()).eval_within(&Environment::new(), 0),
        Some(deep.eval())
    );
    assert_eq!(qsym("x").eval(), sym("x"));
}

#[test]
fn quoted_data_evaluates_the_same_twice() {
    let data = qpair(qsym("1"), qpair(qsym("2"), qsym("3")));
    assert_eq!(data.clone().eval(), data.clone().eval());
    let mut env = Environment::new();
    env.extend("1".to_string(), sym("other"));
    assert_eq!(
        Term::Quote(data.clone()).eval(&mut env),
        Term::Quote(data).eval(&mut Environment::new())
    );
}

#[test]
fn truth_symbols() {
    assert_eq!(truth_symbol(true), sym("T"));
    assert_eq!(truth_symbol(false), sym("F"));
    assert!(is_truth(&sym("T")));
    assert!(!is_truth(&sym("F")));
    assert!(!is_truth(&sym("t")));
    assert!(!is_truth(&pair(sym("T"), sym("T"))));
}

#[test]
fn cond_skips_predicates_that_are_not_truth() {
    assert_eq!(show("(cond ('(T T) 'a) ('x 'b) ('T 'c))"), Some("c".to_string()));
    assert_eq!(show("(cond ((lambda () 'T) 'a) ('T 'b))"), Some("b".to_string()));
}

#[test]
fn cond_fails_when_a_predicate_fails() {
    assert_eq!(run("(cond ((car 'x) 'a) ('T 'b))"), None);
    assert_eq!(run("(cond (unbound 'a) ('T 'b))"), None);
}

#[test]
fn cond_never_evaluates_clauses_behind_the_first_true_one() {
    assert_eq!(show("(cond ('T 'a) ((car 'x) 'b))"), Some("a".to_string()));
    assert_eq!(show("(cond ('F 'a) ('T 'b) (unbound unbound))"), Some("b".to_string()));
    assert_eq!(run("(cond)"), None);
}

#[test]
fn atom_of_a_closure_is_false() {
    assert_eq!(show("(atom (lambda (x) x))"), Some("F".to_string()));
    assert_eq!(run("(atom (car 'x))"), None);
}

#[test]
fn eq_is_defined_on_atoms_only() {
    assert_eq!(show("(eq 'a 'a)"), Some("T".to_string()));
    assert_eq!(show("(eq 'a 'b)"), Some("F".to_string()));
    assert_eq!(run("(eq '(a b) 'a)"), None);
    assert_eq!(run("(eq 'a '(a b))"), None);
    assert_eq!(run("(eq '(a b) '(a b))"), None);
    assert_eq!(run("(eq (lambda () 'a) 'a)"), None);
    assert_eq!(run("(eq unbound 'a)"), None);
    assert_eq!(run("(eq 'a unbound)"), None);
}

#[test]
fn car_and_cdr_need_a_pair() {
    assert_eq!(show("(car '((a b) c))"), Some("(a b)".to_string()));
    assert_eq!(show("(cdr '((a b) c))"), Some("c".to_string()));
    assert_eq!(run("(cdr 'x)"), None);
    assert_eq!(run("(car (lambda () 'x))"), None);
    assert_eq!(run("(cdr (lambda () 'x))"), None);
    assert_eq!(run("(car unbound)"), None);
}

#[test]
fn cons_pairs_any_two_values() {
    assert_eq!(show("(cons 'a 'b)"), Some("(a b)".to_string()));
    assert_eq!(show("(cons '(a b) '(c d))"), Some("((a b) (c d))".to_string()));
    assert_eq!(
        show("(cons (lambda (x) x) 'b)"),
        Some("(<closure> b)".to_string())
    );
    assert_eq!(run("(cons unbound 'b)"), None);
    assert_eq!(run("(cons 'a unbound)"), None);
}

#[test]
fn lambda_captures_a_snapshot_of_the_environment() {
    let mut env = Environment::new();
    env.extend("x".to_string(), sym("before"));
    let closure = read("(lambda () x)").eval(&mut env).unwrap();
    env.extend("x".to_string(), sym("after"));
    env.extend("f".to_string(), closure);
    assert_eq!(read("(apply f ())").eval(&mut env), Some(sym("before")));
    assert_eq!(read("x").eval(&mut env), Some(sym("after")));
}

#[test]
fn lambda_value_holds_parameters_body_and_scope() {
    let mut env = Environment::new();
    env.extend("y".to_string(), sym("v"));
    assert_eq!(
        read("(lambda (a b) (cons a y))").eval(&mut env),
        Some(Value::Closure(
            vec!["a".to_string(), "b".to_string()],
            Box::new(Term::Cons(variable("a"), variable("y"))),
            Scope {
                bindings: env.clone(),
                own_name: None
            }
        ))
    );
}

#[test]
fn label_value_knows_its_own_name() {
    let mut env = Environment::new();
    env.extend("y".to_string(), sym("v"));
    assert_eq!(
        read("(label f (lambda (a) a))").eval(&mut env),
        Some(Value::Closure(
            vec!["a".to_string()],
            variable("a"),
            Scope {
                bindings: env.clone(),
                own_name: Some("f".to_string())
            }
        ))
    );
}

#[test]
fn eval_leaves_the_environment_as_it_was() {
    let mut env = Environment::new();
    env.extend("x".to_string(), sym("a"));
    let before = env.clone();
    assert_eq!(
        read("(apply (label f (lambda (x y) (cons x y))) (,'p ,'q))").eval(&mut env),
        Some(pair(sym("p"), sym("q")))
    );
    assert_eq!(env, before);
    assert_eq!(env.lookup(&"f".to_string()), None);
    assert_eq!(env.lookup(&"y".to_string()), None);
    assert_eq!(env.lookup(&"x".to_string()), Some(&sym("a")));
}

#[test]
fn apply_needs_a_closure() {
    assert_eq!(run("(apply 'f ())"), None);
    assert_eq!(run("(apply '(a b) (,'x))"), None);
    assert_eq!(run("(apply f ())"), None);
}

#[test]
fn apply_needs_as_many_arguments_as_parameters() {
    assert_eq!(run("(apply (lambda (x) x) ())"), None);
    assert_eq!(run("(apply (lambda (x) x) (,'a ,'b))"), None);
    assert_eq!(run("(apply (lambda () 'k) (,'a))"), None);
    assert_eq!(show("(apply (lambda () 'k) ())"), Some("k".to_string()));
    assert_eq!(
        show("(apply (lambda (x y) (cons y x)) (,'a ,'b))"),
        Some("(b a)".to_string())
    );
}

#[test]
fn apply_fails_when_an_argument_fails() {
    assert_eq!(run("(apply (lambda (x) 'k) (,unbound))"), None);
    assert_eq!(run("(apply (lambda (x y) 'k) (,'a ,(car 'b)))"), None);
}

#[test]
fn apply_evaluates_arguments_in_the_environment_of_the_caller() {
    let mut env = Environment::new();
    env.extend("x".to_string(), sym("outer"));
    assert_eq!(
        read("(apply (lambda (x y) (cons x y)) (,'inner ,x))").eval(&mut env),
        Some(pair(sym("inner"), sym("outer")))
    );
}

#[test]
fn a_later_parameter_shadows_an_earlier_one_of_the_same_name() {
    assert_eq!(
        show("(apply (lambda (x x) x) (,'first ,'second))"),
        Some("second".to_string())
    );
}

#[test]
fn a_parameter_shadows_a_captured_binding_and_the_name_of_a_label() {
    let mut env = Environment::new();
    env.extend("x".to_string(), sym("captured"));
    assert_eq!(
        read("(apply (lambda (x) x) (,'given))").eval(&mut env),
        Some(sym("given"))
    );
    assert_eq!(
        read("(apply (label f (lambda (f) f)) (,'given))").eval(&mut env),
        Some(sym("given"))
    );
}

#[test]
fn one_application_does_not_leak_into_the_next() {
    let mut env = Environment::new();
    let closure = read("(lambda (x) (lambda () x))").eval(&mut env).unwrap();
    env.extend("make".to_string(), closure);
    let first = read("(apply make (,'one))").eval(&mut env).unwrap();
    let second = read("(apply make (,'two))").eval(&mut env).unwrap();
    env.extend("first".to_string(), first);
    env.extend("second".to_string(), second);
    assert_eq!(read("(apply first ())").eval(&mut env), Some(sym("one")));
    assert_eq!(read("(apply second ())").eval(&mut env), Some(sym("two")));
    assert_eq!(read("(apply first ())").eval(&mut env), Some(sym("one")));
}

#[test]
fn label_must_wrap_a_lambda() {
    assert_eq!(run("(label f 'x)"), None);
    assert_eq!(run("(label f f)"), None);
    assert_eq!(run("(label f (label g (lambda () 'x)))"), None);
    assert_eq!(show("(label f (lambda () 'x))"), Some("<closure>".to_string()));
}

#[test]
fn label_lets_a_function_call_itself() {
    assert_eq!(last_of("(a (b (c (d e))))").eval(&mut Environment::new()), Some(sym("e")));
    assert_eq!(last_of("z").eval(&mut Environment::new()), Some(sym("z")));
}

#[test]
fn a_label_closure_sees_itself_when_stored_and_applied_later() {
    let mut env = Environment::new();
    let closure = read("(label last (lambda (x) (cond ((atom x) x) ('T (apply last (,(cdr x)))))))")
        .eval(&mut env)
        .unwrap();
    assert_eq!(env.lookup(&"last".to_string()), None);
    env.extend("final".to_string(), closure);
    assert_eq!(
        read("(apply final (,'(a (b c))))").eval(&mut env),
        Some(sym("c"))
    );
}

#[test]
fn depth_bounds_nested_applications() {
    let env = Environment::new();
    let call = read("(apply (lambda (x) x) (,'a))");
    assert_eq!(call.eval_within(&env, 0), None);
    assert_eq!(call.eval_within(&env, 1), Some(sym("a")));
    assert_eq!(call.eval_within(&env, 2), Some(sym("a")));

    let nested = read("(apply (lambda (x) (apply (lambda (y) y) (,x))) (,'a))");
    assert_eq!(nested.eval_within(&env, 1), None);
    assert_eq!(nested.eval_within(&env, 2), Some(sym("a")));

    let in_argument = read("(apply (lambda (x) x) (,(apply (lambda (y) y) (,'a))))");
    assert_eq!(in_argument.eval_within(&env, 0), None);
    assert_eq!(in_argument.eval_within(&env, 1), Some(sym("a")));
}

#[test]
fn depth_counts_the_calls_of_a_recursive_function() {
    let env = Environment::new();
    let term = last_of("(a (b c))");
    assert_eq!(term.eval_within(&env, 2), None);
    assert_eq!(term.eval_within(&env, 3), Some(sym("c")));
    assert_eq!(term.eval_within(&env, 4), Some(sym("c")));
    assert_eq!(term.eval_within(&env, MAX_DEPTH), Some(sym("c")));
}

#[test]
fn endless_recursion_has_no_value_within_any_depth_tried() {
    let env = Environment::new();
    assert_eq!(forever().eval_within(&env, 0), None);
    assert_eq!(forever().eval_within(&env, 1), None);
    assert_eq!(forever().eval_within(&env, 200), None);
}

#[test]
fn terms_that_need_no_application_have_their_value_at_depth_zero() {
    let mut env = Environment::new();
    env.extend("x".to_string(), sym("a"));
    assert_eq!(read("x").eval_within(&env, 0), Some(sym("a")));
    assert_eq!(read("(cons x 'b)").eval_within(&env, 0), Some(pair(sym("a"), sym("b"))));
    assert_eq!(read("(cond ((eq x 'a) 'yes))").eval_within(&env, 0), Some(sym("yes")));
    assert_eq!(
        Term::Atom(quoted("k")).eval_within(&env, 0),
        Some(sym("T"))
    );
}

#[test]
fn values_are_shown_as_text() {
    assert_eq!(to_string_value(&sym("abc")), "abc");
    assert_eq!(to_string_value(&sym("")), "");
    assert_eq!(to_string_value(&pair(sym("1"), sym("2"))), "(1 2)");
    assert_eq!(
        to_string_value(&pair(pair(sym("a"), sym("b")), pair(sym("c"), pair(sym("d"), sym("e"))))),
        "((a b) (c (d e)))"
    );
    let closure = run("(lambda (x) x)").unwrap();
    assert_eq!(to_string_value(&closure), "<closure>");
    assert_eq!(
        to_string_value(&pair(sym("a"), closure)),
        "(a <closure>)"
    );
}

#[test]
fn shown_data_reads_back_as_the_same_data() {
    for text in [
        "'x",
        "'(x y)",
        "'((a b) (c (d e)))",
        "'(T (F T))",
        "'condition",
        "'(labelx (car1 (eqeq atomic)))",
    ] {
        let term = read(text);
        let value = term.clone().eval(&mut Environment::new()).unwrap();
        let shown = format!("'{}", to_string_value(&value));
        assert_eq!(read(&shown), term);
        assert_eq!(run(&shown), Some(value));
    }
}

#[test]
fn programs_run_from_text() {
    assert_eq!(show("(car (cdr '(a (b c))))"), Some("b".to_string()));
    assert_eq!(
        show("(apply (lambda (h) (apply h (,'F))) (,(apply (lambda (x) (lambda (y) (cons x y))) (,'T))))"),
        Some("(T F)".to_string())
    );
    assert_eq!(
        show("(apply (label rev (lambda (x acc) (cond ((atom x) (cons x acc)) ('T (apply rev (,(cdr x) ,(cons (car x) acc))))))) (,'(a (b c)) ,'end))"),
        Some("(c (b (a end)))".to_string())
    );
}

#[test]
fn copies_of_terms_and_values_are_equal_to_them() {
    let term = last_of("(a (b c))");
    assert_eq!(term.clone(), term);
    let value = run("(cons (label f (lambda (x) (apply f (,x)))) '(a b))").unwrap();
    assert_eq!(value.clone(), value);
}

#[test]
fn values_are_compared_by_shape_and_atoms() {
    assert_eq!(sym("a"), sym("a"));
    assert_ne!(sym("a"), sym("b"));
    assert_ne!(sym("a"), pair(sym("a"), sym("a")));
    assert_eq!(pair(sym("a"), sym("b")), pair(sym("a"), sym("b")));
    assert_ne!(pair(sym("a"), sym("b")), pair(sym("b"), sym("a")));
    assert!(sym("a") == sym("a"));
    assert!(sym("a") != sym("A"));
}

#[test]
fn closures_are_compared_by_parameters_body_and_scope() {
    let mut env = Environment::new();
    env.extend("y".to_string(), sym("v"));
    let closure = read("(lambda (x) (cons x y))").eval(&mut env).unwrap();
    assert_eq!(read("(lambda (x) (cons x y))").eval(&mut env), Some(closure.clone()));
    assert_ne!(read("(lambda (z) (cons x y))").eval(&mut env), Some(closure.clone()));
    assert_ne!(read("(lambda (x) (cons y x))").eval(&mut env), Some(closure.clone()));
    assert_ne!(read("(lambda (x x) (cons x y))").eval(&mut env), Some(closure.clone()));
    assert_ne!(
        read("(label f (lambda (x) (cons x y)))").eval(&mut env),
        Some(closure.clone())
    );
    assert_ne!(
        read("(lambda (x) (cons x y))").eval(&mut Environment::new()),
        Some(closure.clone())
    );
    assert_ne!(closure, sym("closure"));
    assert_eq!(
        read("(label f (lambda (x) x))").eval(&mut env),
        read("(label f (lambda (x) x))").eval(&mut env)
    );
    assert_ne!(
        read("(label f (lambda (x) x))").eval(&mut env),
        read("(label g (lambda (x) x))").eval(&mut env)
    );
}

#[test]
fn terms_are_compared_by_structure() {
    assert_eq!(read("(cond ((atom x) x) ('T y))"), read("(cond((atom x)x)('T y))"));
    assert_ne!(read("(cond ((atom x) x) ('T y))"), read("(cond ((atom x) x))"));
    assert_ne!(read("(cond ((atom x) x))"), read("(cond ((atom x) y))"));
    assert_ne!(read("(cond ((atom x) x))"), read("(cond ((atom y) x))"));
    assert_ne!(read("(car x)"), read("(cdr x)"));
    assert_ne!(read("(eq x y)"), read("(cons x y)"));
    assert_ne!(read("(eq x y)"), read("(eq y x)"));
    assert_ne!(read("(apply f (,x ,y))"), read("(apply f (,x))"));
    assert_ne!(read("(apply f (,x ,y))"), read("(apply f (,x ,z))"));
    assert_ne!(read("(apply f (,x))"), read("(apply g (,x))"));
    assert_eq!(read("(apply f (,x ,y))"), read("(apply f (,x ,y))"));
    assert_ne!(read("(lambda (x y) x)"), read("(lambda (x) x)"));
    assert_ne!(read("(lambda (x y) x)"), read("(lambda (y x) x)"));
    assert_ne!(read("(label f x)"), read("(label g x)"));
    assert_ne!(read("'x"), read("x"));
    assert_ne!(read("'(x y)"), read("'(y x)"));
    assert_eq!(read("'(x (y z))"), read("'(x (y z))"));
    assert!(read("x") == read(" x "));
}

#[test]
fn a_symbol_that_starts_with_a_keyword_is_shown_and_read_back() {
    let data = qpair(qsym("condition"), qpair(qsym("consx"), qsym("applyf")));
    let shown = to_string_value(&data.clone().eval());
    assert_eq!(shown, "(condition (consx applyf))");
    assert_eq!(read(&format!("'{}", shown)), Term::Quote(data));
}

#[test]
fn a_variable_that_starts_with_a_keyword_is_looked_up() {
    let mut env = Environment::new();
    env.extend("condition".to_string(), sym("met"));
    assert_eq!(read("condition").eval(&mut env), Some(sym("met")));
    assert_eq!(
        read("(apply (lambda (carrier) (cons carrier condition)) (,'load))").eval(&mut env),
        Some(pair(sym("load"), sym("met")))
    );
}
