//! The grammar of the language, as the tokens that spell each term, and the
//! proofs that the parser reads exactly this grammar.

use crate::lexer::{head, tail};
use crate::parser::{
    binary_term, capped, closing, parse_apply_spec, parse_args_spec, parse_binary_spec,
    parse_clauses_spec, parse_form_spec, parse_label_spec, parse_lambda_spec, parse_params_spec,
    parse_quote_spec, parse_sexpression_spec, parse_term_spec, parse_two_spec, parse_unary_spec,
    parsed, unary_term, Step,
};
use crate::syntax::{SExpressionView, TermView};
use crate::token::TokenView;
use vstd::prelude::*;

verus! {

/// The stream that starts with `token` and goes on with `rest`.
pub open spec fn then(token: TokenView, rest: Seq<Option<TokenView>>) -> Seq<Option<TokenView>> {
    seq![Some(token)] + rest
}

/// The tokens that spell a quoted expression.
pub open spec fn spell_sexpression(s: SExpressionView) -> Seq<Option<TokenView>>
    decreases s,
{
    match s {
        SExpressionView::Symbol(id) => seq![Some(TokenView::Id(id))],
        SExpressionView::Pair(a, b) => seq![Some(TokenView::LParen)] + spell_sexpression(*a)
            + spell_sexpression(*b) + seq![Some(TokenView::RParen)],
    }
}

/// The tokens that spell a list of parameter names.
pub open spec fn spell_params(names: Seq<Seq<char>>) -> Seq<Option<TokenView>> {
    Seq::new(names.len(), |i: int| Some(TokenView::Id(names[i])))
}

/// The tokens that spell a term.
pub open spec fn spell_term(term: TermView) -> Seq<Option<TokenView>>
    decreases term,
{
    match term {
        TermView::Cond(clauses) => seq![Some(TokenView::LParen), Some(TokenView::Cond)]
            + spell_clauses(clauses) + seq![Some(TokenView::RParen)],
        TermView::Atom(a) => seq![Some(TokenView::LParen), Some(TokenView::Atom)] + spell_term(*a)
            + seq![Some(TokenView::RParen)],
        TermView::Eq(a, b) => seq![Some(TokenView::LParen), Some(TokenView::Eq)] + spell_term(*a)
            + spell_term(*b) + seq![Some(TokenView::RParen)],
        TermView::Car(a) => seq![Some(TokenView::LParen), Some(TokenView::Car)] + spell_term(*a)
            + seq![Some(TokenView::RParen)],
        TermView::Cdr(a) => seq![Some(TokenView::LParen), Some(TokenView::Cdr)] + spell_term(*a)
            + seq![Some(TokenView::RParen)],
        TermView::Cons(a, b) => seq![Some(TokenView::LParen), Some(TokenView::Cons)] + spell_term(
            *a,
        ) + spell_term(*b) + seq![Some(TokenView::RParen)],
        TermView::Variable(id) => seq![Some(TokenView::Id(id))],
        TermView::Lambda(params, body) => seq![
            Some(TokenView::LParen),
            Some(TokenView::Lambda),
            Some(TokenView::LParen),
        ] + spell_params(params) + seq![Some(TokenView::RParen)] + spell_term(*body)
            + seq![Some(TokenView::RParen)],
        TermView::Apply(function, args) => seq![Some(TokenView::LParen), Some(TokenView::Apply)]
            + spell_term(*function) + seq![Some(TokenView::LParen)] + spell_args(args)
            + seq![Some(TokenView::RParen), Some(TokenView::RParen)],
        TermView::Label(name, body) => seq![
            Some(TokenView::LParen),
            Some(TokenView::Label),
            Some(TokenView::Id(name)),
        ] + spell_term(*body) + seq![Some(TokenView::RParen)],
        TermView::Quote(s) => seq![Some(TokenView::Quote)] + spell_sexpression(s),
    }
}

/// The tokens that spell the clauses of a conditional: each clause is its
/// predicate and its result in parentheses.
pub open spec fn spell_clauses(clauses: Seq<(TermView, TermView)>) -> Seq<Option<TokenView>>
    decreases clauses,
{
    if clauses.len() == 0 {
        Seq::empty()
    } else {
        seq![Some(TokenView::LParen)] + spell_term(clauses[0].0) + spell_term(clauses[0].1)
            + seq![Some(TokenView::RParen)] + spell_clauses(clauses.drop_first())
    }
}

/// The tokens that spell the arguments of an application: each argument
/// stands behind a comma.
pub open spec fn spell_args(args: Seq<TermView>) -> Seq<Option<TokenView>>
    decreases args,
{
    if args.len() == 0 {
        Seq::empty()
    } else {
        seq![Some(TokenView::Comma)] + spell_term(args[0]) + spell_args(args.drop_first())
    }
}

/// The front and the rest of a stream that starts with a known token.
proof fn lemma_then(token: TokenView, rest: Seq<Option<TokenView>>)
    ensures
        head(then(token, rest)) == Some(token),
        tail(then(token, rest)) == rest,
        then(token, rest).len() == rest.len() + 1,
{
    assert(then(token, rest).skip(1) =~= rest);
}

/// The spelling of a pair of quoted expressions, token by token.
proof fn lemma_spell_pair(a: SExpressionView, b: SExpressionView, rest: Seq<Option<TokenView>>)
    ensures
        spell_sexpression(SExpressionView::Pair(Box::new(a), Box::new(b))) + rest == then(
            TokenView::LParen,
            spell_sexpression(a) + (spell_sexpression(b) + then(TokenView::RParen, rest)),
        ),
{
    assert(spell_sexpression(SExpressionView::Pair(Box::new(a), Box::new(b))) + rest =~= then(
        TokenView::LParen,
        spell_sexpression(a) + (spell_sexpression(b) + then(TokenView::RParen, rest)),
    ));
}

/// The spelling of parameter names, the first name apart.
proof fn lemma_spell_params(names: Seq<Seq<char>>, rest: Seq<Option<TokenView>>)
    requires
        names.len() > 0,
    ensures
        spell_params(names) + rest == then(
            TokenView::Id(names[0]),
            spell_params(names.drop_first()) + rest,
        ),
{
    assert(spell_params(names) + rest =~= then(
        TokenView::Id(names[0]),
        spell_params(names.drop_first()) + rest,
    ));
}

/// Whether `keyword` is `atom`, `car` or `cdr`.
pub open spec fn is_unary(keyword: TokenView) -> bool {
    keyword == TokenView::Atom || keyword == TokenView::Car || keyword == TokenView::Cdr
}

/// Whether `keyword` is `eq` or `cons`.
pub open spec fn is_binary(keyword: TokenView) -> bool {
    keyword == TokenView::Eq || keyword == TokenView::Cons
}

/// The spelling of a form of one keyword and one term, token by token.
proof fn lemma_spell_unary(keyword: TokenView, a: TermView, rest: Seq<Option<TokenView>>)
    requires
        is_unary(keyword),
    ensures
        spell_term(unary_term(keyword, a)) + rest == then(
            TokenView::LParen,
            then(keyword, spell_term(a) + then(TokenView::RParen, rest)),
        ),
{
    assert(spell_term(unary_term(keyword, a)) + rest =~= then(
        TokenView::LParen,
        then(keyword, spell_term(a) + then(TokenView::RParen, rest)),
    ));
}

/// The spelling of a form of one keyword and two terms, token by token.
proof fn lemma_spell_binary(
    keyword: TokenView,
    a: TermView,
    b: TermView,
    rest: Seq<Option<TokenView>>,
)
    requires
        is_binary(keyword),
    ensures
        spell_term(binary_term(keyword, a, b)) + rest == then(
            TokenView::LParen,
            then(keyword, spell_term(a) + (spell_term(b) + then(TokenView::RParen, rest))),
        ),
{
    assert(spell_term(binary_term(keyword, a, b)) + rest =~= then(
        TokenView::LParen,
        then(keyword, spell_term(a) + (spell_term(b) + then(TokenView::RParen, rest))),
    ));
}

/// The spelling of a `lambda`, token by token.
proof fn lemma_spell_lambda(params: Seq<Seq<char>>, body: TermView, rest: Seq<Option<TokenView>>)
    ensures
        spell_term(TermView::Lambda(params, Box::new(body))) + rest == then(
            TokenView::LParen,
            then(
                TokenView::Lambda,
                then(
                    TokenView::LParen,
                    spell_params(params) + then(
                        TokenView::RParen,
                        spell_term(body) + then(TokenView::RParen, rest),
                    ),
                ),
            ),
        ),
{
    assert(spell_term(TermView::Lambda(params, Box::new(body))) + rest =~= then(
        TokenView::LParen,
        then(
            TokenView::Lambda,
            then(
                TokenView::LParen,
                spell_params(params) + then(
                    TokenView::RParen,
                    spell_term(body) + then(TokenView::RParen, rest),
                ),
            ),
        ),
    ));
}

/// The spelling of an `apply`, token by token.
proof fn lemma_spell_apply(function: TermView, args: Seq<TermView>, rest: Seq<Option<TokenView>>)
    ensures
        spell_term(TermView::Apply(Box::new(function), args)) + rest == then(
            TokenView::LParen,
            then(
                TokenView::Apply,
                spell_term(function) + then(
                    TokenView::LParen,
                    spell_args(args) + then(TokenView::RParen, then(TokenView::RParen, rest)),
                ),
            ),
        ),
{
    assert(spell_term(TermView::Apply(Box::new(function), args)) + rest =~= then(
        TokenView::LParen,
        then(
            TokenView::Apply,
            spell_term(function) + then(
                TokenView::LParen,
                spell_args(args) + then(TokenView::RParen, then(TokenView::RParen, rest)),
            ),
        ),
    ));
}

/// The spelling of a `label`, token by token.
proof fn lemma_spell_label(name: Seq<char>, body: TermView, rest: Seq<Option<TokenView>>)
    ensures
        spell_term(TermView::Label(name, Box::new(body))) + rest == then(
            TokenView::LParen,
            then(
                TokenView::Label,
                then(TokenView::Id(name), spell_term(body) + then(TokenView::RParen, rest)),
            ),
        ),
{
    assert(spell_term(TermView::Label(name, Box::new(body))) + rest =~= then(
        TokenView::LParen,
        then(
            TokenView::Label,
            then(TokenView::Id(name), spell_term(body) + then(TokenView::RParen, rest)),
        ),
    ));
}

/// The spelling of a `cond`, token by token.
proof fn lemma_spell_cond(clauses: Seq<(TermView, TermView)>, rest: Seq<Option<TokenView>>)
    ensures
        spell_term(TermView::Cond(clauses)) + rest == then(
            TokenView::LParen,
            then(TokenView::Cond, spell_clauses(clauses) + then(TokenView::RParen, rest)),
        ),
{
    assert(spell_term(TermView::Cond(clauses)) + rest =~= then(
        TokenView::LParen,
        then(TokenView::Cond, spell_clauses(clauses) + then(TokenView::RParen, rest)),
    ));
}

/// The spelling of a variable and of quoted data, token by token.
proof fn lemma_spell_plain(term: TermView, rest: Seq<Option<TokenView>>)
    ensures
        match term {
            TermView::Variable(id) => spell_term(term) + rest == then(TokenView::Id(id), rest),
            TermView::Quote(s) => spell_term(term) + rest == then(
                TokenView::Quote,
                spell_sexpression(s) + rest,
            ),
            _ => true,
        },
{
    match term {
        TermView::Variable(id) => {
            assert(spell_term(term) + rest =~= then(TokenView::Id(id), rest));
        },
        TermView::Quote(s) => {
            assert(spell_term(term) + rest =~= then(
                TokenView::Quote,
                spell_sexpression(s) + rest,
            ));
        },
        _ => {},
    }
}

/// The spelling of clauses, the first clause apart.
proof fn lemma_spell_clauses(clauses: Seq<(TermView, TermView)>, rest: Seq<Option<TokenView>>)
    requires
        clauses.len() > 0,
    ensures
        spell_clauses(clauses) + rest == then(
            TokenView::LParen,
            spell_term(clauses[0].0) + (spell_term(clauses[0].1) + then(
                TokenView::RParen,
                spell_clauses(clauses.drop_first()) + rest,
            )),
        ),
{
    assert(spell_clauses(clauses) + rest =~= then(
        TokenView::LParen,
        spell_term(clauses[0].0) + (spell_term(clauses[0].1) + then(
            TokenView::RParen,
            spell_clauses(clauses.drop_first()) + rest,
        )),
    ));
}

/// The spelling of arguments, the first argument apart.
proof fn lemma_spell_args(args: Seq<TermView>, rest: Seq<Option<TokenView>>)
    requires
        args.len() > 0,
    ensures
        spell_args(args) + rest == then(
            TokenView::Comma,
            spell_term(args[0]) + (spell_args(args.drop_first()) + rest),
        ),
{
    assert(spell_args(args) + rest =~= then(
        TokenView::Comma,
        spell_term(args[0]) + (spell_args(args.drop_first()) + rest),
    ));
}

/// A stream that has a token at its front is that token and then its tail.
proof fn lemma_front(stream: Seq<Option<TokenView>>)
    requires
        head(stream) is Some,
    ensures
        stream == then(head(stream)->0, tail(stream)),
        tail(stream).len() < stream.len(),
{
    assert(stream =~= then(head(stream)->0, tail(stream)));
}

/// Reading the right parenthesis that ends a form, where it stands.
proof fn lemma_closing<T>(value: T, rest: Seq<Option<TokenView>>)
    ensures
        closing(value, then(TokenView::RParen, rest)) == parsed(value, rest),
{
    lemma_then(TokenView::RParen, rest);
}

/// Reading the right parenthesis that ends a form, where it was found.
proof fn lemma_closed<T>(value: T, stream: Seq<Option<TokenView>>)
    requires
        closing(value, stream).value is Some,
    ensures
        stream == then(TokenView::RParen, closing(value, stream).rest),
        closing(value, stream) == parsed(value, tail(stream)),
{
    lemma_front(stream);
}

/// A quoted expression is read back from the tokens that spell it, and what
/// follows them is left.
pub proof fn lemma_parse_spelled_sexpression(s: SExpressionView, rest: Seq<Option<TokenView>>)
    ensures
        parse_sexpression_spec(spell_sexpression(s) + rest) == parsed(s, rest),
    decreases s,
{
    let stream = spell_sexpression(s) + rest;
    match s {
        SExpressionView::Symbol(id) => {
            assert(stream =~= then(TokenView::Id(id), rest));
            lemma_then(TokenView::Id(id), rest);
        },
        SExpressionView::Pair(a, b) => {
            let end = then(TokenView::RParen, rest);
            let after_first = spell_sexpression(*b) + end;
            let after_open = spell_sexpression(*a) + after_first;
            lemma_spell_pair(*a, *b, rest);
            lemma_then(TokenView::LParen, after_open);
            lemma_parse_spelled_sexpression(*a, after_first);
            lemma_parse_spelled_sexpression(*b, end);
            lemma_closing(s, rest);
        },
    }
}

/// Parameter names are read back from the tokens that spell them and the
/// right parenthesis behind them.
pub proof fn lemma_parse_spelled_params(
    names: Seq<Seq<char>>,
    seen: Seq<Seq<char>>,
    rest: Seq<Option<TokenView>>,
)
    ensures
        parse_params_spec(spell_params(names) + then(TokenView::RParen, rest), seen) == parsed(
            seen + names,
            rest,
        ),
    decreases names.len(),
{
    let end = then(TokenView::RParen, rest);
    let stream = spell_params(names) + end;
    if names.len() == 0 {
        assert(stream =~= end);
        lemma_then(TokenView::RParen, rest);
        assert(seen + names =~= seen);
    } else {
        let others = names.drop_first();
        let after = spell_params(others) + end;
        lemma_spell_params(names, end);
        lemma_then(TokenView::Id(names[0]), after);
        lemma_parse_spelled_params(others, seen.push(names[0]), rest);
        assert(seen.push(names[0]) + others =~= seen + names);
    }
}

/// Whether `term` is read back from the tokens that spell it when `rest`
/// follows them.
pub open spec fn reads_back(term: TermView, rest: Seq<Option<TokenView>>) -> bool {
    parse_term_spec(spell_term(term) + rest) == parsed(term, rest)
}

/// A form is read back if what follows its left parenthesis is.
proof fn lemma_parse_spelled_form(
    term: TermView,
    form: Seq<Option<TokenView>>,
    rest: Seq<Option<TokenView>>,
)
    requires
        spell_term(term) + rest == then(TokenView::LParen, form),
        parse_form_spec(form) == parsed(term, rest),
    ensures
        reads_back(term, rest),
{
    lemma_then(TokenView::LParen, form);
}

/// Two terms are read back one after the other if each is.
proof fn lemma_parse_spelled_two(a: TermView, b: TermView, rest: Seq<Option<TokenView>>)
    requires
        reads_back(a, spell_term(b) + rest),
        reads_back(b, rest),
    ensures
        parse_two_spec(spell_term(a) + (spell_term(b) + rest)) == parsed((a, b), rest),
{
}

/// A form of one keyword and one term is read back if the term is.
proof fn lemma_parse_spelled_unary(keyword: TokenView, a: TermView, rest: Seq<Option<TokenView>>)
    requires
        is_unary(keyword),
        reads_back(a, then(TokenView::RParen, rest)),
    ensures
        reads_back(unary_term(keyword, a), rest),
{
    let term = unary_term(keyword, a);
    let inner = spell_term(a) + then(TokenView::RParen, rest);
    lemma_spell_unary(keyword, a, rest);
    lemma_then(keyword, inner);
    lemma_closing(term, rest);
    assert(parse_unary_spec(keyword, inner) == parsed(term, rest));
    assert(parse_form_spec(then(keyword, inner)) == parse_unary_spec(keyword, inner));
    lemma_parse_spelled_form(term, then(keyword, inner), rest);
}

/// A form of one keyword and two terms is read back if the terms are.
proof fn lemma_parse_spelled_binary(
    keyword: TokenView,
    a: TermView,
    b: TermView,
    rest: Seq<Option<TokenView>>,
)
    requires
        is_binary(keyword),
        reads_back(a, spell_term(b) + then(TokenView::RParen, rest)),
        reads_back(b, then(TokenView::RParen, rest)),
    ensures
        reads_back(binary_term(keyword, a, b), rest),
{
    let term = binary_term(keyword, a, b);
    let end = then(TokenView::RParen, rest);
    let inner = spell_term(a) + (spell_term(b) + end);
    lemma_spell_binary(keyword, a, b, rest);
    lemma_then(keyword, inner);
    lemma_parse_spelled_two(a, b, end);
    lemma_closing(term, rest);
    assert(parse_binary_spec(keyword, inner) == parsed(term, rest));
    assert(parse_form_spec(then(keyword, inner)) == parse_binary_spec(keyword, inner));
    lemma_parse_spelled_form(term, then(keyword, inner), rest);
}

/// A `lambda` is read back if its body is.
proof fn lemma_parse_spelled_lambda(
    params: Seq<Seq<char>>,
    body: TermView,
    rest: Seq<Option<TokenView>>,
)
    requires
        reads_back(body, then(TokenView::RParen, rest)),
    ensures
        reads_back(TermView::Lambda(params, Box::new(body)), rest),
{
    let term = TermView::Lambda(params, Box::new(body));
    let after_names = spell_term(body) + then(TokenView::RParen, rest);
    let names = spell_params(params) + then(TokenView::RParen, after_names);
    let opened = then(TokenView::LParen, names);
    lemma_spell_lambda(params, body, rest);
    lemma_then(TokenView::Lambda, opened);
    lemma_then(TokenView::LParen, names);
    lemma_parse_spelled_params(params, Seq::empty(), after_names);
    assert(Seq::<Seq<char>>::empty() + params =~= params);
    lemma_closing(term, rest);
    assert(parse_lambda_spec(opened) == parsed(term, rest));
    assert(parse_form_spec(then(TokenView::Lambda, opened)) == parse_lambda_spec(opened));
    lemma_parse_spelled_form(term, then(TokenView::Lambda, opened), rest);
}

/// An `apply` is read back if its function is and its arguments are.
proof fn lemma_parse_spelled_apply(
    function: TermView,
    args: Seq<TermView>,
    rest: Seq<Option<TokenView>>,
)
    requires
        reads_back(
            function,
            then(
                TokenView::LParen,
                spell_args(args) + then(TokenView::RParen, then(TokenView::RParen, rest)),
            ),
        ),
        parse_args_spec(
            spell_args(args) + then(TokenView::RParen, then(TokenView::RParen, rest)),
            Seq::empty(),
        ) == parsed(args, then(TokenView::RParen, rest)),
    ensures
        reads_back(TermView::Apply(Box::new(function), args), rest),
{
    let term = TermView::Apply(Box::new(function), args);
    let end = then(TokenView::RParen, rest);
    let given = spell_args(args) + then(TokenView::RParen, end);
    let opened = then(TokenView::LParen, given);
    let inner = spell_term(function) + opened;
    lemma_spell_apply(function, args, rest);
    lemma_then(TokenView::Apply, inner);
    lemma_then(TokenView::LParen, given);
    lemma_then(TokenView::RParen, end);
    lemma_closing(term, rest);
    assert(parse_apply_spec(inner) == parsed(term, rest));
    assert(parse_form_spec(then(TokenView::Apply, inner)) == parse_apply_spec(inner));
    lemma_parse_spelled_form(term, then(TokenView::Apply, inner), rest);
}

/// A `label` is read back if its body is.
proof fn lemma_parse_spelled_label(name: Seq<char>, body: TermView, rest: Seq<Option<TokenView>>)
    requires
        reads_back(body, then(TokenView::RParen, rest)),
    ensures
        reads_back(TermView::Label(name, Box::new(body)), rest),
{
    let term = TermView::Label(name, Box::new(body));
    let inner = spell_term(body) + then(TokenView::RParen, rest);
    let named = then(TokenView::Id(name), inner);
    lemma_spell_label(name, body, rest);
    lemma_then(TokenView::Label, named);
    lemma_then(TokenView::Id(name), inner);
    lemma_closing(term, rest);
    assert(parse_label_spec(named) == parsed(term, rest));
    assert(parse_form_spec(then(TokenView::Label, named)) == parse_label_spec(named));
    lemma_parse_spelled_form(term, then(TokenView::Label, named), rest);
}

/// A `cond` is read back if its clauses are.
proof fn lemma_parse_spelled_cond(clauses: Seq<(TermView, TermView)>, rest: Seq<Option<TokenView>>)
    requires
        parse_clauses_spec(
            spell_clauses(clauses) + then(TokenView::RParen, rest),
            Seq::empty(),
        ) == parsed(TermView::Cond(clauses), rest),
    ensures
        reads_back(TermView::Cond(clauses), rest),
{
    let term = TermView::Cond(clauses);
    let inner = spell_clauses(clauses) + then(TokenView::RParen, rest);
    lemma_spell_cond(clauses, rest);
    lemma_then(TokenView::Cond, inner);
    assert(parse_form_spec(then(TokenView::Cond, inner)) == parse_clauses_spec(
        inner,
        Seq::empty(),
    ));
    lemma_parse_spelled_form(term, then(TokenView::Cond, inner), rest);
}

/// A variable and quoted data are read back.
proof fn lemma_parse_spelled_plain(term: TermView, rest: Seq<Option<TokenView>>)
    requires
        term is Variable || term is Quote,
    ensures
        reads_back(term, rest),
{
    lemma_spell_plain(term, rest);
    match term {
        TermView::Variable(id) => {
            lemma_then(TokenView::Id(id), rest);
        },
        TermView::Quote(s) => {
            let inner = spell_sexpression(s) + rest;
            lemma_then(TokenView::Quote, inner);
            lemma_parse_spelled_sexpression(s, rest);
            assert(parse_quote_spec(inner) == parsed(term, rest));
        },
        _ => {},
    }
}

/// A term is read back from the tokens that spell it, and what follows them
/// is left.
pub proof fn lemma_parse_spelled_term(term: TermView, rest: Seq<Option<TokenView>>)
    ensures
        parse_term_spec(spell_term(term) + rest) == parsed(term, rest),
    decreases term,
{
    let end = then(TokenView::RParen, rest);
    match term {
        TermView::Cond(clauses) => {
            lemma_parse_spelled_clauses(clauses, Seq::empty(), rest);
            assert(Seq::<(TermView, TermView)>::empty() + clauses =~= clauses);
            lemma_parse_spelled_cond(clauses, rest);
        },
        TermView::Atom(a) => {
            lemma_parse_spelled_term(*a, end);
            lemma_parse_spelled_unary(TokenView::Atom, *a, rest);
        },
        TermView::Eq(a, b) => {
            lemma_parse_spelled_term(*a, spell_term(*b) + end);
            lemma_parse_spelled_term(*b, end);
            lemma_parse_spelled_binary(TokenView::Eq, *a, *b, rest);
        },
        TermView::Car(a) => {
            lemma_parse_spelled_term(*a, end);
            lemma_parse_spelled_unary(TokenView::Car, *a, rest);
        },
        TermView::Cdr(a) => {
            lemma_parse_spelled_term(*a, end);
            lemma_parse_spelled_unary(TokenView::Cdr, *a, rest);
        },
        TermView::Cons(a, b) => {
            lemma_parse_spelled_term(*a, spell_term(*b) + end);
            lemma_parse_spelled_term(*b, end);
            lemma_parse_spelled_binary(TokenView::Cons, *a, *b, rest);
        },
        TermView::Variable(_) => {
            lemma_parse_spelled_plain(term, rest);
        },
        TermView::Lambda(params, body) => {
            lemma_parse_spelled_term(*body, end);
            lemma_parse_spelled_lambda(params, *body, rest);
        },
        TermView::Apply(function, args) => {
            let given = spell_args(args) + then(TokenView::RParen, end);
            lemma_parse_spelled_term(*function, then(TokenView::LParen, given));
            lemma_parse_spelled_args(args, Seq::empty(), end);
            assert(Seq::<TermView>::empty() + args =~= args);
            lemma_parse_spelled_apply(*function, args, rest);
        },
        TermView::Label(name, body) => {
            lemma_parse_spelled_term(*body, end);
            lemma_parse_spelled_label(name, *body, rest);
        },
        TermView::Quote(_) => {
            lemma_parse_spelled_plain(term, rest);
        },
    }
}

/// Reading clauses passes over one spelled clause and goes on behind it.
proof fn lemma_parse_spelled_clause(
    clause: (TermView, TermView),
    after: Seq<Option<TokenView>>,
    seen: Seq<(TermView, TermView)>,
)
    requires
        reads_back(clause.0, spell_term(clause.1) + then(TokenView::RParen, after)),
        reads_back(clause.1, then(TokenView::RParen, after)),
    ensures
        parse_clauses_spec(
            then(
                TokenView::LParen,
                spell_term(clause.0) + (spell_term(clause.1) + then(TokenView::RParen, after)),
            ),
            seen,
        ) == parse_clauses_spec(after, seen.push(clause)),
{
    let closed = then(TokenView::RParen, after);
    let inner = spell_term(clause.0) + (spell_term(clause.1) + closed);
    lemma_then(TokenView::LParen, inner);
    lemma_parse_spelled_two(clause.0, clause.1, closed);
    lemma_then(TokenView::RParen, after);
}

/// The clauses of a conditional are read back from the tokens that spell
/// them and the right parenthesis behind them.
pub proof fn lemma_parse_spelled_clauses(
    clauses: Seq<(TermView, TermView)>,
    seen: Seq<(TermView, TermView)>,
    rest: Seq<Option<TokenView>>,
)
    ensures
        parse_clauses_spec(spell_clauses(clauses) + then(TokenView::RParen, rest), seen) == parsed(
            TermView::Cond(seen + clauses),
            rest,
        ),
    decreases clauses,
{
    let end = then(TokenView::RParen, rest);
    let stream = spell_clauses(clauses) + end;
    if clauses.len() == 0 {
        lemma_then(TokenView::RParen, rest);
        assert(stream =~= end);
        assert(seen + clauses =~= seen);
    } else {
        let others = clauses.drop_first();
        let after = spell_clauses(others) + end;
        let closed = then(TokenView::RParen, after);
        lemma_spell_clauses(clauses, end);
        lemma_parse_spelled_term(clauses[0].0, spell_term(clauses[0].1) + closed);
        lemma_parse_spelled_term(clauses[0].1, closed);
        lemma_parse_spelled_clause(clauses[0], after, seen);
        lemma_parse_spelled_clauses(others, seen.push(clauses[0]), rest);
        assert(seen.push(clauses[0]) + others =~= seen + clauses);
    }
}

/// Reading arguments passes over one spelled argument and goes on behind it.
proof fn lemma_parse_spelled_arg(
    arg: TermView,
    after: Seq<Option<TokenView>>,
    seen: Seq<TermView>,
)
    requires
        reads_back(arg, after),
    ensures
        parse_args_spec(then(TokenView::Comma, spell_term(arg) + after), seen) == parse_args_spec(
            after,
            seen.push(arg),
        ),
{
    lemma_then(TokenView::Comma, spell_term(arg) + after);
}

/// The arguments of an application are read back from the tokens that spell
/// them and the right parenthesis behind them.
pub proof fn lemma_parse_spelled_args(
    args: Seq<TermView>,
    seen: Seq<TermView>,
    rest: Seq<Option<TokenView>>,
)
    ensures
        parse_args_spec(spell_args(args) + then(TokenView::RParen, rest), seen) == parsed(
            seen + args,
            rest,
        ),
    decreases args,
{
    let end = then(TokenView::RParen, rest);
    let stream = spell_args(args) + end;
    if args.len() == 0 {
        lemma_then(TokenView::RParen, rest);
        assert(stream =~= end);
        assert(seen + args =~= seen);
    } else {
        let others = args.drop_first();
        let after = spell_args(others) + end;
        lemma_spell_args(args, end);
        lemma_parse_spelled_term(args[0], after);
        lemma_parse_spelled_arg(args[0], after, seen);
        lemma_parse_spelled_args(others, seen.push(args[0]), rest);
        assert(seen.push(args[0]) + others =~= seen + args);
    }
}

/// The spelling of a term cannot be read in two ways: where two spellings
/// with what follows them give the same tokens, the terms are the same and
/// so is what follows.
pub proof fn lemma_spelling_is_unambiguous(
    a: TermView,
    rest_a: Seq<Option<TokenView>>,
    b: TermView,
    rest_b: Seq<Option<TokenView>>,
)
    requires
        spell_term(a) + rest_a == spell_term(b) + rest_b,
    ensures
        a == b,
        rest_a == rest_b,
{
    lemma_parse_spelled_term(a, rest_a);
    lemma_parse_spelled_term(b, rest_b);
}

/// Reading a quoted expression leaves no more tokens than there were.
pub proof fn lemma_parse_sexpression_shrinks(stream: Seq<Option<TokenView>>)
    ensures
        parse_sexpression_spec(stream).rest.len() <= stream.len(),
    decreases stream.len(),
{
    match head(stream) {
        Some(TokenView::LParen) => {
            lemma_parse_sexpression_shrinks(tail(stream));
            let first = parse_sexpression_spec(tail(stream));
            if first.value is Some {
                lemma_parse_sexpression_shrinks(capped(first.rest, tail(stream)));
            }
        },
        _ => {},
    }
}

/// Reading parameter names leaves no more tokens than there were.
pub proof fn lemma_parse_params_shrinks(stream: Seq<Option<TokenView>>, seen: Seq<Seq<char>>)
    ensures
        parse_params_spec(stream, seen).rest.len() <= stream.len(),
    decreases stream.len(),
{
    match head(stream) {
        Some(TokenView::Id(id)) => {
            lemma_parse_params_shrinks(tail(stream), seen.push(id));
        },
        _ => {},
    }
}

/// Reading a term leaves no more tokens than there were.
pub proof fn lemma_parse_shrinks(stream: Seq<Option<TokenView>>)
    ensures
        parse_term_spec(stream).rest.len() <= stream.len(),
    decreases stream.len(), 0nat,
{
    match head(stream) {
        Some(TokenView::Quote) => {
            lemma_parse_sexpression_shrinks(tail(stream));
        },
        Some(TokenView::LParen) => {
            lemma_parse_form_shrinks(tail(stream));
        },
        _ => {},
    }
}

/// Reading two terms leaves no more tokens than there were.
pub proof fn lemma_parse_two_shrinks(stream: Seq<Option<TokenView>>)
    ensures
        parse_two_spec(stream).rest.len() <= stream.len(),
    decreases stream.len(), 1nat,
{
    lemma_parse_shrinks(stream);
    let first = parse_term_spec(stream);
    if first.value is Some {
        lemma_parse_shrinks(capped(first.rest, stream));
    }
}

/// Reading what follows `atom`, `car` or `cdr` leaves no more tokens than
/// there were.
pub proof fn lemma_parse_unary_shrinks(keyword: TokenView, stream: Seq<Option<TokenView>>)
    ensures
        parse_unary_spec(keyword, stream).rest.len() <= stream.len(),
    decreases stream.len(), 1nat,
{
    lemma_parse_shrinks(stream);
}

/// Reading what follows `eq` or `cons` leaves no more tokens than there
/// were.
pub proof fn lemma_parse_binary_shrinks(keyword: TokenView, stream: Seq<Option<TokenView>>)
    ensures
        parse_binary_spec(keyword, stream).rest.len() <= stream.len(),
    decreases stream.len(), 2nat,
{
    lemma_parse_two_shrinks(stream);
}

/// Reading what follows `lambda` leaves no more tokens than there were.
pub proof fn lemma_parse_lambda_shrinks(stream: Seq<Option<TokenView>>)
    ensures
        parse_lambda_spec(stream).rest.len() <= stream.len(),
    decreases stream.len(), 2nat,
{
    lemma_parse_params_shrinks(tail(stream), Seq::empty());
    let names = parse_params_spec(tail(stream), Seq::empty());
    lemma_parse_shrinks(capped(names.rest, stream));
}

/// Reading what follows `apply` leaves no more tokens than there were.
pub proof fn lemma_parse_apply_shrinks(stream: Seq<Option<TokenView>>)
    ensures
        parse_apply_spec(stream).rest.len() <= stream.len(),
    decreases stream.len(), 2nat,
{
    lemma_parse_shrinks(stream);
    let function = parse_term_spec(stream);
    lemma_parse_args_shrinks(capped(tail(function.rest), stream), Seq::empty());
}

/// Reading what follows `label` leaves no more tokens than there were.
pub proof fn lemma_parse_label_shrinks(stream: Seq<Option<TokenView>>)
    ensures
        parse_label_spec(stream).rest.len() <= stream.len(),
    decreases stream.len(), 2nat,
{
    if head(stream) is Some {
        lemma_parse_shrinks(tail(stream));
    }
}

/// Reading a form leaves no more tokens than there were.
pub proof fn lemma_parse_form_shrinks(stream: Seq<Option<TokenView>>)
    ensures
        parse_form_spec(stream).rest.len() <= stream.len(),
    decreases stream.len(), 3nat,
{
    let inner = tail(stream);
    match head(stream) {
        Some(TokenView::Cond) => {
            lemma_parse_clauses_shrinks(inner, Seq::empty());
        },
        Some(TokenView::Atom) => {
            lemma_parse_unary_shrinks(TokenView::Atom, inner);
        },
        Some(TokenView::Eq) => {
            lemma_parse_binary_shrinks(TokenView::Eq, inner);
        },
        Some(TokenView::Car) => {
            lemma_parse_unary_shrinks(TokenView::Car, inner);
        },
        Some(TokenView::Cdr) => {
            lemma_parse_unary_shrinks(TokenView::Cdr, inner);
        },
        Some(TokenView::Cons) => {
            lemma_parse_binary_shrinks(TokenView::Cons, inner);
        },
        Some(TokenView::Lambda) => {
            lemma_parse_lambda_shrinks(inner);
        },
        Some(TokenView::Apply) => {
            lemma_parse_apply_shrinks(inner);
        },
        Some(TokenView::Label) => {
            lemma_parse_label_shrinks(inner);
        },
        _ => {},
    }
}

/// Reading the clauses of a conditional leaves no more tokens than there
/// were.
pub proof fn lemma_parse_clauses_shrinks(
    stream: Seq<Option<TokenView>>,
    seen: Seq<(TermView, TermView)>,
)
    ensures
        parse_clauses_spec(stream, seen).rest.len() <= stream.len(),
    decreases stream.len(), 2nat,
{
    match head(stream) {
        Some(TokenView::LParen) => {
            lemma_parse_two_shrinks(tail(stream));
            let inner = parse_two_spec(tail(stream));
            match inner.value {
                Some(pair) => {
                    lemma_parse_clauses_shrinks(
                        capped(tail(inner.rest), tail(stream)),
                        seen.push(pair),
                    );
                },
                None => {},
            }
        },
        _ => {},
    }
}

/// Reading the arguments of an application leaves no more tokens than there
/// were.
pub proof fn lemma_parse_args_shrinks(stream: Seq<Option<TokenView>>, seen: Seq<TermView>)
    ensures
        parse_args_spec(stream, seen).rest.len() <= stream.len(),
    decreases stream.len(), 1nat,
{
    match head(stream) {
        Some(TokenView::Comma) => {
            lemma_parse_shrinks(tail(stream));
            let inner = parse_term_spec(tail(stream));
            match inner.value {
                Some(arg) => {
                    lemma_parse_args_shrinks(capped(inner.rest, tail(stream)), seen.push(arg));
                },
                None => {},
            }
        },
        _ => {},
    }
}

/// Whether what `step` read, if it read a term, is spelled by the tokens
/// that `stream` has before what the step left.
pub open spec fn spelled_in(step: Step<TermView>, stream: Seq<Option<TokenView>>) -> bool {
    match step.value {
        Some(term) => stream == spell_term(term) + step.rest,
        None => true,
    }
}

/// Whether the form that `step` read, if it read one, is spelled by a left
/// parenthesis, the tokens in `before`, and the tokens that `stream` has
/// before what the step left.
pub open spec fn form_spelled_in(
    step: Step<TermView>,
    before: Seq<Option<TokenView>>,
    stream: Seq<Option<TokenView>>,
) -> bool {
    match step.value {
        Some(term) => then(TokenView::LParen, before + stream) == spell_term(term) + step.rest,
        None => true,
    }
}

/// Whether the two terms that `step` read, if it read them, are spelled by
/// the tokens that `stream` has before what the step left.
pub open spec fn two_spelled_in(
    step: Step<(TermView, TermView)>,
    stream: Seq<Option<TokenView>>,
) -> bool {
    match step.value {
        Some(pair) => stream == spell_term(pair.0) + (spell_term(pair.1) + step.rest),
        None => true,
    }
}

/// Whether the conditional that `step` read, if it read one, holds the
/// clauses in `seen` and then the clauses that are spelled by the tokens
/// that `stream` has before the right parenthesis and what the step left.
pub open spec fn clauses_spelled_in(
    step: Step<TermView>,
    stream: Seq<Option<TokenView>>,
    seen: Seq<(TermView, TermView)>,
) -> bool {
    match step.value {
        Some(term) => {
            &&& term is Cond
            &&& seen.len() <= term->Cond_0.len()
            &&& term->Cond_0.take(seen.len() as int) == seen
            &&& stream == spell_clauses(term->Cond_0.skip(seen.len() as int)) + then(
                TokenView::RParen,
                step.rest,
            )
        },
        None => true,
    }
}

/// Whether the arguments that `step` read, if it read them, are those in
/// `seen` and then those that are spelled by the tokens that `stream` has
/// before the right parenthesis and what the step left.
pub open spec fn args_spelled_in(
    step: Step<Seq<TermView>>,
    stream: Seq<Option<TokenView>>,
    seen: Seq<TermView>,
) -> bool {
    match step.value {
        Some(args) => {
            &&& seen.len() <= args.len()
            &&& args.take(seen.len() as int) == seen
            &&& stream == spell_args(args.skip(seen.len() as int)) + then(
                TokenView::RParen,
                step.rest,
            )
        },
        None => true,
    }
}

/// A quoted expression that was read is spelled by the tokens that were
/// consumed.
pub proof fn lemma_parsed_sexpression_is_spelled(stream: Seq<Option<TokenView>>)
    ensures
        match parse_sexpression_spec(stream).value {
            Some(s) => stream == spell_sexpression(s) + parse_sexpression_spec(stream).rest,
            None => true,
        },
    decreases stream.len(),
{
    let step = parse_sexpression_spec(stream);
    match head(stream) {
        Some(TokenView::Id(id)) => {
            lemma_front(stream);
            assert(spell_sexpression(SExpressionView::Symbol(id)) + tail(stream) =~= then(
                TokenView::Id(id),
                tail(stream),
            ));
        },
        Some(TokenView::LParen) => {
            lemma_front(stream);
            let first = parse_sexpression_spec(tail(stream));
            lemma_parsed_sexpression_is_spelled(tail(stream));
            lemma_parse_sexpression_shrinks(tail(stream));
            match first.value {
                Some(a) => {
                    let second = parse_sexpression_spec(first.rest);
                    lemma_parsed_sexpression_is_spelled(first.rest);
                    match second.value {
                        Some(b) => {
                            let pair = SExpressionView::Pair(Box::new(a), Box::new(b));
                            if closing(pair, second.rest).value is Some {
                                lemma_closed(pair, second.rest);
                                lemma_spell_pair(a, b, step.rest);
                            }
                        },
                        None => {},
                    }
                },
                None => {},
            }
        },
        _ => {},
    }
}

/// Parameter names that were read are spelled by the tokens that were
/// consumed: they are the names in `seen` and then the names whose tokens
/// stood before the right parenthesis.
pub proof fn lemma_parsed_params_are_spelled(stream: Seq<Option<TokenView>>, seen: Seq<Seq<char>>)
    ensures
        match parse_params_spec(stream, seen).value {
            Some(names) => {
                &&& seen.len() <= names.len()
                &&& names.take(seen.len() as int) == seen
                &&& stream == spell_params(names.skip(seen.len() as int)) + then(
                    TokenView::RParen,
                    parse_params_spec(stream, seen).rest,
                )
            },
            None => true,
        },
    decreases stream.len(),
{
    let step = parse_params_spec(stream, seen);
    match head(stream) {
        Some(TokenView::Id(id)) => {
            lemma_front(stream);
            lemma_parsed_params_are_spelled(tail(stream), seen.push(id));
            match step.value {
                Some(names) => {
                    let n = seen.len() as int;
                    assert(names.take(n + 1) == seen.push(id));
                    assert(names.take(n) =~= names.take(n + 1).take(n));
                    assert(names.take(n) =~= seen);
                    assert(names[n] == names.take(n + 1)[n]);
                    assert(names.skip(n)[0] == id);
                    assert(names.skip(n).drop_first() =~= names.skip(n + 1));
                    lemma_spell_params(names.skip(n), then(TokenView::RParen, step.rest));
                },
                None => {},
            }
        },
        Some(TokenView::RParen) => {
            lemma_front(stream);
            assert(seen.take(seen.len() as int) =~= seen);
            assert(spell_params(seen.skip(seen.len() as int)) + then(
                TokenView::RParen,
                step.rest,
            ) =~= then(TokenView::RParen, step.rest));
        },
        _ => {},
    }
}

/// The step that reads two terms, from the two steps that read one each.
proof fn lemma_two_is_spelled(stream: Seq<Option<TokenView>>)
    requires
        spelled_in(parse_term_spec(stream), stream),
        spelled_in(parse_term_spec(parse_term_spec(stream).rest), parse_term_spec(stream).rest),
    ensures
        two_spelled_in(parse_two_spec(stream), stream),
{
    lemma_parse_shrinks(stream);
}

/// The step that reads what follows `atom`, `car` or `cdr`, from the step
/// that reads the term inside.
proof fn lemma_unary_is_spelled(keyword: TokenView, stream: Seq<Option<TokenView>>)
    requires
        is_unary(keyword),
        spelled_in(parse_term_spec(stream), stream),
    ensures
        form_spelled_in(parse_unary_spec(keyword, stream), seq![Some(keyword)], stream),
{
    let inner = parse_term_spec(stream);
    let step = parse_unary_spec(keyword, stream);
    match inner.value {
        Some(a) => {
            let term = unary_term(keyword, a);
            if closing(term, inner.rest).value is Some {
                lemma_closed(term, inner.rest);
                lemma_spell_unary(keyword, a, step.rest);
                assert(seq![Some(keyword)] + stream == then(keyword, stream));
            }
        },
        None => {},
    }
}

/// The step that reads what follows `eq` or `cons`, from the step that
/// reads the two terms inside.
proof fn lemma_binary_is_spelled(keyword: TokenView, stream: Seq<Option<TokenView>>)
    requires
        is_binary(keyword),
        two_spelled_in(parse_two_spec(stream), stream),
    ensures
        form_spelled_in(parse_binary_spec(keyword, stream), seq![Some(keyword)], stream),
{
    let inner = parse_two_spec(stream);
    let step = parse_binary_spec(keyword, stream);
    match inner.value {
        Some(pair) => {
            let term = binary_term(keyword, pair.0, pair.1);
            if closing(term, inner.rest).value is Some {
                lemma_closed(term, inner.rest);
                lemma_spell_binary(keyword, pair.0, pair.1, step.rest);
                assert(seq![Some(keyword)] + stream == then(keyword, stream));
            }
        },
        None => {},
    }
}

/// The step that reads what follows `lambda`, from the step that reads the
/// body.
proof fn lemma_lambda_is_spelled(stream: Seq<Option<TokenView>>)
    requires
        spelled_in(
            parse_term_spec(parse_params_spec(tail(stream), Seq::empty()).rest),
            parse_params_spec(tail(stream), Seq::empty()).rest,
        ),
    ensures
        form_spelled_in(parse_lambda_spec(stream), seq![Some(TokenView::Lambda)], stream),
{
    let step = parse_lambda_spec(stream);
    match step.value {
        Some(term) => {
            lemma_front(stream);
            let names = parse_params_spec(tail(stream), Seq::empty());
            lemma_parsed_params_are_spelled(tail(stream), Seq::empty());
            lemma_parse_params_shrinks(tail(stream), Seq::empty());
            let params = names.value->0;
            assert(params.skip(0) =~= params);
            let inner = parse_term_spec(names.rest);
            let body = inner.value->0;
            lemma_closed(term, inner.rest);
            lemma_spell_lambda(params, body, step.rest);
            assert(seq![Some(TokenView::Lambda)] + stream == then(TokenView::Lambda, stream));
        },
        None => {},
    }
}

/// The step that reads what follows `apply`, from the steps that read the
/// function and the arguments.
proof fn lemma_apply_is_spelled(stream: Seq<Option<TokenView>>)
    requires
        spelled_in(parse_term_spec(stream), stream),
        args_spelled_in(
            parse_args_spec(tail(parse_term_spec(stream).rest), Seq::empty()),
            tail(parse_term_spec(stream).rest),
            Seq::empty(),
        ),
    ensures
        form_spelled_in(parse_apply_spec(stream), seq![Some(TokenView::Apply)], stream),
{
    let step = parse_apply_spec(stream);
    match step.value {
        Some(term) => {
            let function = parse_term_spec(stream);
            lemma_parse_shrinks(stream);
            lemma_front(function.rest);
            let given = parse_args_spec(tail(function.rest), Seq::empty());
            let args = given.value->0;
            assert(args.skip(0) =~= args);
            lemma_closed(term, given.rest);
            lemma_spell_apply(function.value->0, args, step.rest);
            assert(seq![Some(TokenView::Apply)] + stream == then(TokenView::Apply, stream));
        },
        None => {},
    }
}

/// The step that reads what follows `label`, from the step that reads the
/// body.
proof fn lemma_label_is_spelled(stream: Seq<Option<TokenView>>)
    requires
        spelled_in(parse_term_spec(tail(stream)), tail(stream)),
    ensures
        form_spelled_in(parse_label_spec(stream), seq![Some(TokenView::Label)], stream),
{
    let step = parse_label_spec(stream);
    match step.value {
        Some(term) => {
            lemma_front(stream);
            let inner = parse_term_spec(tail(stream));
            lemma_closed(term, inner.rest);
            lemma_spell_label(term->Label_0, inner.value->0, step.rest);
            assert(seq![Some(TokenView::Label)] + stream == then(TokenView::Label, stream));
        },
        None => {},
    }
}

/// The step that reads what follows `cond`, from the step that reads the
/// clauses.
proof fn lemma_cond_is_spelled(stream: Seq<Option<TokenView>>)
    requires
        clauses_spelled_in(parse_clauses_spec(stream, Seq::empty()), stream, Seq::empty()),
    ensures
        form_spelled_in(
            parse_clauses_spec(stream, Seq::empty()),
            seq![Some(TokenView::Cond)],
            stream,
        ),
{
    let step = parse_clauses_spec(stream, Seq::empty());
    match step.value {
        Some(term) => {
            let clauses = term->Cond_0;
            assert(clauses.skip(0) =~= clauses);
            lemma_spell_cond(clauses, step.rest);
            assert(seq![Some(TokenView::Cond)] + stream == then(TokenView::Cond, stream));
        },
        None => {},
    }
}

/// The step that reads clauses from a left parenthesis on, from the step
/// that reads the two terms of the first clause and the step that reads the
/// clauses behind it.
proof fn lemma_clause_is_spelled(stream: Seq<Option<TokenView>>, seen: Seq<(TermView, TermView)>)
    requires
        head(stream) == Some(TokenView::LParen),
        two_spelled_in(parse_two_spec(tail(stream)), tail(stream)),
        parse_two_spec(tail(stream)).value is Some ==> clauses_spelled_in(
            parse_clauses_spec(
                tail(parse_two_spec(tail(stream)).rest),
                seen.push(parse_two_spec(tail(stream)).value->0),
            ),
            tail(parse_two_spec(tail(stream)).rest),
            seen.push(parse_two_spec(tail(stream)).value->0),
        ),
    ensures
        clauses_spelled_in(parse_clauses_spec(stream, seen), stream, seen),
{
    lemma_front(stream);
    let step = parse_clauses_spec(stream, seen);
    match step.value {
        Some(term) => {
            let inner = parse_two_spec(tail(stream));
            lemma_parse_two_shrinks(tail(stream));
            let pair = inner.value->0;
            lemma_front(inner.rest);
            let all = term->Cond_0;
            let n = seen.len() as int;
            assert(all.take(n + 1) == seen.push(pair));
            assert(all.take(n) =~= all.take(n + 1).take(n));
            assert(all.take(n) =~= seen);
            assert(all[n] == all.take(n + 1)[n]);
            assert(all.skip(n)[0] == pair);
            assert(all.skip(n).drop_first() =~= all.skip(n + 1));
            lemma_spell_clauses(all.skip(n), then(TokenView::RParen, step.rest));
        },
        None => {},
    }
}

/// The step that reads arguments from a comma on, from the step that reads
/// the first argument and the step that reads the arguments behind it.
proof fn lemma_arg_is_spelled(stream: Seq<Option<TokenView>>, seen: Seq<TermView>)
    requires
        head(stream) == Some(TokenView::Comma),
        spelled_in(parse_term_spec(tail(stream)), tail(stream)),
        parse_term_spec(tail(stream)).value is Some ==> args_spelled_in(
            parse_args_spec(
                parse_term_spec(tail(stream)).rest,
                seen.push(parse_term_spec(tail(stream)).value->0),
            ),
            parse_term_spec(tail(stream)).rest,
            seen.push(parse_term_spec(tail(stream)).value->0),
        ),
    ensures
        args_spelled_in(parse_args_spec(stream, seen), stream, seen),
{
    lemma_front(stream);
    let step = parse_args_spec(stream, seen);
    match step.value {
        Some(all) => {
            let inner = parse_term_spec(tail(stream));
            lemma_parse_shrinks(tail(stream));
            let arg = inner.value->0;
            let n = seen.len() as int;
            assert(all.take(n + 1) == seen.push(arg));
            assert(all.take(n) =~= all.take(n + 1).take(n));
            assert(all.take(n) =~= seen);
            assert(all[n] == all.take(n + 1)[n]);
            assert(all.skip(n)[0] == arg);
            assert(all.skip(n).drop_first() =~= all.skip(n + 1));
            lemma_spell_args(all.skip(n), then(TokenView::RParen, step.rest));
        },
        None => {},
    }
}

/// The step that reads a variable or quoted data.
proof fn lemma_plain_is_spelled(stream: Seq<Option<TokenView>>)
    requires
        head(stream) is Some,
        head(stream)->0 is Id || head(stream)->0 is Quote,
    ensures
        spelled_in(parse_term_spec(stream), stream),
{
    lemma_front(stream);
    let step = parse_term_spec(stream);
    match step.value {
        Some(term) => {
            lemma_spell_plain(term, step.rest);
            if head(stream)->0 is Quote {
                lemma_parsed_sexpression_is_spelled(tail(stream));
            }
        },
        None => {},
    }
}

/// The step that reads a form, from the step that reads what follows its
/// left parenthesis.
proof fn lemma_form_is_spelled(stream: Seq<Option<TokenView>>)
    requires
        head(stream) == Some(TokenView::LParen),
        form_spelled_in(parse_form_spec(tail(stream)), Seq::empty(), tail(stream)),
    ensures
        spelled_in(parse_term_spec(stream), stream),
{
    lemma_front(stream);
    assert(Seq::<Option<TokenView>>::empty() + tail(stream) =~= tail(stream));
}

/// A term that was read is spelled by the tokens that were consumed.
pub proof fn lemma_parsed_term_is_spelled(stream: Seq<Option<TokenView>>)
    ensures
        spelled_in(parse_term_spec(stream), stream),
    decreases stream.len(), 0nat,
{
    match head(stream) {
        Some(TokenView::Id(_)) => {
            lemma_plain_is_spelled(stream);
        },
        Some(TokenView::Quote) => {
            lemma_plain_is_spelled(stream);
        },
        Some(TokenView::LParen) => {
            lemma_front(stream);
            lemma_parsed_form_is_spelled(tail(stream));
            lemma_form_is_spelled(stream);
        },
        _ => {},
    }
}

/// Two terms that were read are spelled by the tokens that were consumed.
pub proof fn lemma_parsed_two_are_spelled(stream: Seq<Option<TokenView>>)
    ensures
        two_spelled_in(parse_two_spec(stream), stream),
    decreases stream.len(), 1nat,
{
    lemma_parsed_term_is_spelled(stream);
    lemma_parse_shrinks(stream);
    lemma_parsed_term_is_spelled(parse_term_spec(stream).rest);
    lemma_two_is_spelled(stream);
}

/// Where a form was read after a keyword, the keyword and what was read
/// after it make up what was read after the left parenthesis.
proof fn lemma_keyword_is_spelled(stream: Seq<Option<TokenView>>, step: Step<TermView>)
    requires
        head(stream) is Some,
        parse_form_spec(stream) == step,
        form_spelled_in(step, seq![head(stream)], tail(stream)),
    ensures
        form_spelled_in(parse_form_spec(stream), Seq::empty(), stream),
{
    lemma_front(stream);
    assert(Seq::<Option<TokenView>>::empty() + stream =~= stream);
    assert(seq![head(stream)] + tail(stream) =~= stream);
}

/// A form that was read is spelled by a left parenthesis and the tokens that
/// were consumed.
pub proof fn lemma_parsed_form_is_spelled(stream: Seq<Option<TokenView>>)
    ensures
        form_spelled_in(parse_form_spec(stream), Seq::empty(), stream),
    decreases stream.len(), 3nat,
{
    let inner = tail(stream);
    match head(stream) {
        Some(TokenView::Cond) => {
            lemma_front(stream);
            lemma_parsed_clauses_are_spelled(inner, Seq::empty());
            lemma_cond_is_spelled(inner);
            lemma_keyword_is_spelled(stream, parse_clauses_spec(inner, Seq::empty()));
        },
        Some(TokenView::Atom) => {
            lemma_front(stream);
            lemma_parsed_term_is_spelled(inner);
            lemma_unary_is_spelled(TokenView::Atom, inner);
            lemma_keyword_is_spelled(stream, parse_unary_spec(TokenView::Atom, inner));
        },
        Some(TokenView::Eq) => {
            lemma_front(stream);
            lemma_parsed_two_are_spelled(inner);
            lemma_binary_is_spelled(TokenView::Eq, inner);
            lemma_keyword_is_spelled(stream, parse_binary_spec(TokenView::Eq, inner));
        },
        Some(TokenView::Car) => {
            lemma_front(stream);
            lemma_parsed_term_is_spelled(inner);
            lemma_unary_is_spelled(TokenView::Car, inner);
            lemma_keyword_is_spelled(stream, parse_unary_spec(TokenView::Car, inner));
        },
        Some(TokenView::Cdr) => {
            lemma_front(stream);
            lemma_parsed_term_is_spelled(inner);
            lemma_unary_is_spelled(TokenView::Cdr, inner);
            lemma_keyword_is_spelled(stream, parse_unary_spec(TokenView::Cdr, inner));
        },
        Some(TokenView::Cons) => {
            lemma_front(stream);
            lemma_parsed_two_are_spelled(inner);
            lemma_binary_is_spelled(TokenView::Cons, inner);
            lemma_keyword_is_spelled(stream, parse_binary_spec(TokenView::Cons, inner));
        },
        Some(TokenView::Lambda) => {
            lemma_front(stream);
            lemma_parse_params_shrinks(tail(inner), Seq::empty());
            if head(inner) is Some {
                lemma_front(inner);
                lemma_parsed_term_is_spelled(parse_params_spec(tail(inner), Seq::empty()).rest);
            } else {
                lemma_parsed_term_is_spelled(parse_params_spec(tail(inner), Seq::empty()).rest);
            }
            lemma_lambda_is_spelled(inner);
            lemma_keyword_is_spelled(stream, parse_lambda_spec(inner));
        },
        Some(TokenView::Apply) => {
            lemma_front(stream);
            lemma_parsed_term_is_spelled(inner);
            lemma_parse_shrinks(inner);
            lemma_parsed_args_are_spelled(tail(parse_term_spec(inner).rest), Seq::empty());
            lemma_apply_is_spelled(inner);
            lemma_keyword_is_spelled(stream, parse_apply_spec(inner));
        },
        Some(TokenView::Label) => {
            lemma_front(stream);
            lemma_parsed_term_is_spelled(tail(inner));
            lemma_label_is_spelled(inner);
            lemma_keyword_is_spelled(stream, parse_label_spec(inner));
        },
        _ => {},
    }
}

/// A conditional that was read holds the clauses that the tokens spell.
pub proof fn lemma_parsed_clauses_are_spelled(
    stream: Seq<Option<TokenView>>,
    seen: Seq<(TermView, TermView)>,
)
    ensures
        clauses_spelled_in(parse_clauses_spec(stream, seen), stream, seen),
    decreases stream.len(), 2nat,
{
    match head(stream) {
        Some(TokenView::LParen) => {
            lemma_front(stream);
            lemma_parsed_two_are_spelled(tail(stream));
            lemma_parse_two_shrinks(tail(stream));
            let inner = parse_two_spec(tail(stream));
            match inner.value {
                Some(pair) => {
                    lemma_parsed_clauses_are_spelled(tail(inner.rest), seen.push(pair));
                },
                None => {},
            }
            lemma_clause_is_spelled(stream, seen);
        },
        Some(TokenView::RParen) => {
            lemma_front(stream);
            assert(seen.take(seen.len() as int) =~= seen);
            assert(seen.skip(seen.len() as int) =~= Seq::empty());
            assert(stream =~= spell_clauses(seen.skip(seen.len() as int)) + then(
                TokenView::RParen,
                tail(stream),
            ));
        },
        _ => {},
    }
}

/// Arguments that were read are those that the tokens spell.
pub proof fn lemma_parsed_args_are_spelled(stream: Seq<Option<TokenView>>, seen: Seq<TermView>)
    ensures
        args_spelled_in(parse_args_spec(stream, seen), stream, seen),
    decreases stream.len(), 1nat,
{
    match head(stream) {
        Some(TokenView::Comma) => {
            lemma_front(stream);
            lemma_parsed_term_is_spelled(tail(stream));
            lemma_parse_shrinks(tail(stream));
            let inner = parse_term_spec(tail(stream));
            match inner.value {
                Some(arg) => {
                    lemma_parsed_args_are_spelled(inner.rest, seen.push(arg));
                },
                None => {},
            }
            lemma_arg_is_spelled(stream, seen);
        },
        Some(TokenView::RParen) => {
            lemma_front(stream);
            assert(seen.take(seen.len() as int) =~= seen);
            assert(seen.skip(seen.len() as int) =~= Seq::empty());
            assert(stream =~= spell_args(seen.skip(seen.len() as int)) + then(
                TokenView::RParen,
                tail(stream),
            ));
        },
        _ => {},
    }
}

} // verus!
