use pure_lisp::lexer::Lexer;
use pure_lisp::parser::Parser;
use pure_lisp::syntax::{SExpression, Term};

fn create_parser(s: &str) -> Parser {
    Parser::new(Lexer::new(&s.to_string()))
}

fn var(name: &str) -> Term {
    Term::Variable(name.to_string())
}

#[test]
fn parser_test_cond() {
    assert_eq!(
        create_parser("(cond ((atom x) x) (t y))").parse().unwrap(),
        Term::Cond(vec![
            (
                Box::new(Term::Atom(Box::new(Term::Variable("x".to_string())))),
                Box::new(Term::Variable("x".to_string()))
            ),
            (
                Box::new(Term::Variable("t".to_string())),
                Box::new(Term::Variable("y".to_string()))
            )
        ])
    );

    assert_eq!(create_parser("(cond)").parse().unwrap(), Term::Cond(vec![]));
}

#[test]
fn parser_test_atom() {
    assert_eq!(
        create_parser("(atom x)").parse().unwrap(),
        Term::Atom(Box::new(Term::Variable("x".to_string())))
    )
}

#[test]
fn parser_test_eq() {
    assert_eq!(
        create_parser("(eq x y)").parse().unwrap(),
        Term::Eq(
            Box::new(Term::Variable("x".to_string())),
            Box::new(Term::Variable("y".to_string()))
        )
    )
}

#[test]
fn parser_test_car() {
    assert_eq!(
        create_parser("(car x)").parse().unwrap(),
        Term::Car(Box::new(Term::Variable("x".to_string())))
    )
}

#[test]
fn parser_test_cdr() {
    assert_eq!(
        create_parser("(cdr x)").parse().unwrap(),
        Term::Cdr(Box::new(Term::Variable("x".to_string())))
    )
}

#[test]
fn parser_test_cons() {
    assert_eq!(
        create_parser("(cons x y)").parse().unwrap(),
        Term::Cons(
            Box::new(Term::Variable("x".to_string())),
            Box::new(Term::Variable("y".to_string()))
        )
    )
}

#[test]
fn parser_test_variable() {
    assert_eq!(
        create_parser("x").parse().unwrap(),
        Term::Variable("x".to_string())
    )
}

#[test]
fn lambda() {
    assert_eq!(
        create_parser("(lambda (x) x)").parse().unwrap(),
        Term::Lambda(
            vec!["x".to_string()],
            Box::new(Term::Variable("x".to_string()))
        )
    );

    assert_eq!(
        create_parser("(lambda () x)").parse().unwrap(),
        Term::Lambda(vec![], Box::new(Term::Variable("x".to_string())))
    );
}

#[test]
fn apply() {
    assert_eq!(
        create_parser("(apply f (,x ,y ,z))").parse().unwrap(),
        Term::Apply(
            Box::new(Term::Variable("f".to_string())),
            vec![
                Box::new(Term::Variable("x".to_string())),
                Box::new(Term::Variable("y".to_string())),
                Box::new(Term::Variable("z".to_string()))
            ]
        )
    );

    assert_eq!(
        create_parser("(apply f (,x))").parse().unwrap(),
        Term::Apply(
            Box::new(Term::Variable("f".to_string())),
            vec![Box::new(Term::Variable("x".to_string())),]
        )
    );

    assert_eq!(
        create_parser("(apply f ())").parse().unwrap(),
        Term::Apply(Box::new(Term::Variable("f".to_string())), vec![])
    );
}

#[test]
fn parser_test_label() {
    assert_eq!(
        create_parser("(label f x)").parse().unwrap(),
        Term::Label("f".to_string(), Box::new(Term::Variable("x".to_string())))
    )
}

#[test]
fn quote() {
    assert_eq!(
        create_parser("'x").parse().unwrap(),
        Term::Quote(SExpression::Symbol("x".to_string()))
    );

    assert_eq!(
        create_parser("'(x y)").parse().unwrap(),
        Term::Quote(SExpression::Pair(
            Box::new(SExpression::Symbol("x".to_string())),
            Box::new(SExpression::Symbol("y".to_string()),)
        ))
    );
}

#[test]
fn parse_nested_quote() {
    assert_eq!(
        create_parser("'((a b) (c d))").parse(),
        Some(Term::Quote(SExpression::Pair(
            Box::new(SExpression::Pair(
                Box::new(SExpression::Symbol("a".to_string())),
                Box::new(SExpression::Symbol("b".to_string()))
            )),
            Box::new(SExpression::Pair(
                Box::new(SExpression::Symbol("c".to_string())),
                Box::new(SExpression::Symbol("d".to_string()))
            ))
        )))
    );
}

#[test]
fn parse_rejects_empty_and_blank_input() {
    assert_eq!(create_parser("").parse(), None);
    assert_eq!(create_parser("   ").parse(), None);
    assert_eq!(create_parser("\n").parse(), None);
}

#[test]
fn parse_rejects_unknown_characters() {
    assert_eq!(create_parser("123").parse(), None);
    assert_eq!(create_parser("(atom 1)").parse(), None);
    assert_eq!(create_parser("$x").parse(), None);
    assert_eq!(create_parser("1a").parse(), None);
    assert_eq!(create_parser("(car %)").parse(), None);
}

#[test]
fn parse_rejects_missing_delimiters() {
    assert_eq!(create_parser("(atom x").parse(), None);
    assert_eq!(create_parser("(eq x").parse(), None);
    assert_eq!(create_parser("(eq x y").parse(), None);
    assert_eq!(create_parser("(cons x)").parse(), None);
    assert_eq!(create_parser("(cond (x y)").parse(), None);
    assert_eq!(create_parser("(cond (x))").parse(), None);
    assert_eq!(create_parser("(cond x)").parse(), None);
    assert_eq!(create_parser("(lambda x x)").parse(), None);
    assert_eq!(create_parser("(lambda (x x)").parse(), None);
    assert_eq!(create_parser("(lambda (x) x").parse(), None);
    assert_eq!(create_parser("(lambda ((x)) x)").parse(), None);
    assert_eq!(create_parser("(apply f x)").parse(), None);
    assert_eq!(create_parser("(apply f (x))").parse(), None);
    assert_eq!(create_parser("(apply f (,x)").parse(), None);
    assert_eq!(create_parser("(apply f (,x) y").parse(), None);
    assert_eq!(create_parser("(label (f) x)").parse(), None);
    assert_eq!(create_parser("(label f x y)").parse(), None);
    assert_eq!(create_parser("(label f)").parse(), None);
    assert_eq!(create_parser("'(x)").parse(), None);
    assert_eq!(create_parser("'(x y z)").parse(), None);
    assert_eq!(create_parser("'()").parse(), None);
    assert_eq!(create_parser("'").parse(), None);
}

#[test]
fn parse_rejects_misplaced_tokens() {
    assert_eq!(create_parser(")").parse(), None);
    assert_eq!(create_parser(",").parse(), None);
    assert_eq!(create_parser("cond").parse(), None);
    assert_eq!(create_parser("()").parse(), None);
    assert_eq!(create_parser("(x y)").parse(), None);
    assert_eq!(create_parser("((atom x))").parse(), None);
    assert_eq!(create_parser("(atom lambda)").parse(), None);
}

#[test]
fn parse_is_insensitive_to_white_space() {
    assert_eq!(
        create_parser("  (  eq\n x\t\ty )  ").parse(),
        Some(Term::Eq(Box::new(var("x")), Box::new(var("y"))))
    );
    assert_eq!(
        create_parser("(eq x y)").parse(),
        create_parser("(eq  x  y  )").parse()
    );
    assert_eq!(
        create_parser("(apply f(,x,y))").parse(),
        Some(Term::Apply(
            Box::new(var("f")),
            vec![Box::new(var("x")), Box::new(var("y"))]
        ))
    );
}

#[test]
fn parse_reads_one_term_at_a_time() {
    let mut parser = create_parser("x (atom y) 'z");
    assert_eq!(parser.parse(), Some(var("x")));
    assert_eq!(parser.parse(), Some(Term::Atom(Box::new(var("y")))));
    assert_eq!(
        parser.parse(),
        Some(Term::Quote(SExpression::Symbol("z".to_string())))
    );
    assert_eq!(parser.parse(), None);
    assert_eq!(parser.parse(), None);
}

#[test]
fn parse_identifiers_with_digits_and_capitals() {
    assert_eq!(create_parser("x1").parse(), Some(var("x1")));
    assert_eq!(create_parser("TARGET").parse(), Some(var("TARGET")));
    assert_eq!(create_parser("aB9z").parse(), Some(var("aB9z")));
}

#[test]
fn parse_nested_forms() {
    assert_eq!(
        create_parser("(apply (label last (lambda (x) (cond ((atom x) x) ('T (apply last (,(cdr x))))))) (,'(a (b c))))")
            .parse(),
        Some(Term::Apply(
            Box::new(Term::Label(
                "last".to_string(),
                Box::new(Term::Lambda(
                    vec!["x".to_string()],
                    Box::new(Term::Cond(vec![
                        (Box::new(Term::Atom(Box::new(var("x")))), Box::new(var("x"))),
                        (
                            Box::new(Term::Quote(SExpression::Symbol("T".to_string()))),
                            Box::new(Term::Apply(
                                Box::new(var("last")),
                                vec![Box::new(Term::Cdr(Box::new(var("x"))))]
                            ))
                        )
                    ]))
                ))
            )),
            vec![Box::new(Term::Quote(SExpression::Pair(
                Box::new(SExpression::Symbol("a".to_string())),
                Box::new(SExpression::Pair(
                    Box::new(SExpression::Symbol("b".to_string())),
                    Box::new(SExpression::Symbol("c".to_string()))
                ))
            )))]
        ))
    );
}

#[test]
fn parse_takes_a_word_that_starts_with_a_keyword_as_an_identifier() {
    assert_eq!(create_parser("condition").parse(), Some(var("condition")));
    assert_eq!(create_parser("labelx").parse(), Some(var("labelx")));
    assert_eq!(create_parser("car1").parse(), Some(var("car1")));
    assert_eq!(
        create_parser("'condition").parse(),
        Some(Term::Quote(SExpression::Symbol("condition".to_string())))
    );
    assert_eq!(
        create_parser("'(atomic eqs)").parse(),
        Some(Term::Quote(SExpression::Pair(
            Box::new(SExpression::Symbol("atomic".to_string())),
            Box::new(SExpression::Symbol("eqs".to_string()))
        )))
    );
}

#[test]
fn parse_reads_back_each_form_over_such_identifiers() {
    assert_eq!(
        create_parser("(cond ((atom condition) cars) (eqs consx))").parse(),
        Some(Term::Cond(vec![
            (
                Box::new(Term::Atom(Box::new(var("condition")))),
                Box::new(var("cars"))
            ),
            (Box::new(var("eqs")), Box::new(var("consx")))
        ]))
    );
    assert_eq!(
        create_parser("(eq cdrs applyf)").parse(),
        Some(Term::Eq(Box::new(var("cdrs")), Box::new(var("applyf"))))
    );
    assert_eq!(
        create_parser("(car cars)").parse(),
        Some(Term::Car(Box::new(var("cars"))))
    );
    assert_eq!(
        create_parser("(cdr cdrs)").parse(),
        Some(Term::Cdr(Box::new(var("cdrs"))))
    );
    assert_eq!(
        create_parser("(cons consx atoms)").parse(),
        Some(Term::Cons(Box::new(var("consx")), Box::new(var("atoms"))))
    );
    assert_eq!(
        create_parser("(lambda (lambdas labels) lambdas)").parse(),
        Some(Term::Lambda(
            vec!["lambdas".to_string(), "labels".to_string()],
            Box::new(var("lambdas"))
        ))
    );
    assert_eq!(
        create_parser("(apply applyf (,condition ,eqs))").parse(),
        Some(Term::Apply(
            Box::new(var("applyf")),
            vec![Box::new(var("condition")), Box::new(var("eqs"))]
        ))
    );
    assert_eq!(
        create_parser("(label labels (lambda (condition) condition))").parse(),
        Some(Term::Label(
            "labels".to_string(),
            Box::new(Term::Lambda(
                vec!["condition".to_string()],
                Box::new(var("condition"))
            ))
        ))
    );
}

#[test]
fn parse_rejects_a_keyword_in_the_place_of_an_identifier() {
    assert_eq!(create_parser("'cond").parse(), None);
    assert_eq!(create_parser("(lambda (car) x)").parse(), None);
    assert_eq!(create_parser("(label eq x)").parse(), None);
    assert_eq!(create_parser("(atom cond)").parse(), None);
}
