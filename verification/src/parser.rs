//! The parser: a recursive descent over the stream of tokens.
//!
//! ```text
//! Term       := Id
//!             | "'" SExp
//!             | "(" "cond" CondClause* ")"
//!             | "(" "atom" Term ")"
//!             | "(" "eq" Term Term ")"
//!             | "(" "car" Term ")"
//!             | "(" "cdr" Term ")"
//!             | "(" "cons" Term Term ")"
//!             | "(" "lambda" "(" Id* ")" Term ")"
//!             | "(" "apply" Term "(" ("," Term)* ")" ")"
//!             | "(" "label" Id Term ")"
//! CondClause := "(" Term Term ")"
//! SExp       := Id | "(" SExp SExp ")"
//! ```

use crate::grammar::{lemma_parse_spelled_term, lemma_parsed_term_is_spelled, spell_term};
use crate::lexer::{head, tail, Lexer};
use crate::syntax::{
    clause_models, names_view, term_models, SExpression, SExpressionView, Term, TermView,
};
use crate::token::{Token, TokenView};
use vstd::prelude::*;

verus! {

/// The outcome of reading one piece of the grammar off a stream of tokens:
/// what was read, if the stream started with such a piece, and the tokens
/// that are left.
pub struct Step<T> {
    pub value: Option<T>,
    pub rest: Seq<Option<TokenView>>,
}

/// The step that read `value` and left `rest`.
pub open spec fn parsed<T>(value: T, rest: Seq<Option<TokenView>>) -> Step<T> {
    Step { value: Some(value), rest }
}

/// The step that read nothing it could use and left `rest`.
pub open spec fn failed<T>(rest: Seq<Option<TokenView>>) -> Step<T> {
    Step { value: None, rest }
}

/// Reads the closing parenthesis that ends a form: one token is consumed,
/// and `value` stands if that token is a right parenthesis.
pub open spec fn closing<T>(value: T, stream: Seq<Option<TokenView>>) -> Step<T> {
    match head(stream) {
        Some(TokenView::RParen) => parsed(value, tail(stream)),
        _ => failed(tail(stream)),
    }
}

/// `rest`, unless it is longer than `bound`. What a step leaves is never
/// longer than what it started from (see
/// [`crate::grammar::lemma_parse_shrinks`]), so this changes nothing; it
/// makes the descent visibly finite.
pub open spec fn capped(rest: Seq<Option<TokenView>>, bound: Seq<Option<TokenView>>) -> Seq<
    Option<TokenView>,
> {
    if rest.len() <= bound.len() {
        rest
    } else {
        bound
    }
}

/// Reads one quoted expression: an identifier, or two expressions in
/// parentheses.
pub open spec fn parse_sexpression_spec(stream: Seq<Option<TokenView>>) -> Step<SExpressionView>
    decreases stream.len(),
{
    match head(stream) {
        Some(TokenView::Id(id)) => parsed(SExpressionView::Symbol(id), tail(stream)),
        Some(TokenView::LParen) => {
            let first = parse_sexpression_spec(tail(stream));
            match first.value {
                Some(a) => {
                    let second = parse_sexpression_spec(capped(first.rest, tail(stream)));
                    match second.value {
                        Some(b) => closing(
                            SExpressionView::Pair(Box::new(a), Box::new(b)),
                            second.rest,
                        ),
                        None => failed(second.rest),
                    }
                },
                None => failed(first.rest),
            }
        },
        _ => failed(tail(stream)),
    }
}

/// Reads the parameter names of a `lambda` up to the right parenthesis that
/// ends them, after the names in `seen`.
pub open spec fn parse_params_spec(stream: Seq<Option<TokenView>>, seen: Seq<Seq<char>>) -> Step<
    Seq<Seq<char>>,
>
    decreases stream.len(),
{
    match head(stream) {
        Some(TokenView::Id(id)) => parse_params_spec(tail(stream), seen.push(id)),
        Some(TokenView::RParen) => parsed(seen, tail(stream)),
        _ => failed(tail(stream)),
    }
}

/// The term that a keyword makes of one term: `atom`, `car`, or else `cdr`.
pub open spec fn unary_term(keyword: TokenView, inner: TermView) -> TermView {
    match keyword {
        TokenView::Atom => TermView::Atom(Box::new(inner)),
        TokenView::Car => TermView::Car(Box::new(inner)),
        _ => TermView::Cdr(Box::new(inner)),
    }
}

/// The term that a keyword makes of two terms: `eq`, or else `cons`.
pub open spec fn binary_term(keyword: TokenView, first: TermView, second: TermView) -> TermView {
    match keyword {
        TokenView::Eq => TermView::Eq(Box::new(first), Box::new(second)),
        _ => TermView::Cons(Box::new(first), Box::new(second)),
    }
}

/// Reads one term.
pub open spec fn parse_term_spec(stream: Seq<Option<TokenView>>) -> Step<TermView>
    decreases stream.len(), 0nat,
{
    match head(stream) {
        Some(TokenView::Id(id)) => parsed(TermView::Variable(id), tail(stream)),
        Some(TokenView::Quote) => parse_quote_spec(tail(stream)),
        Some(TokenView::LParen) => parse_form_spec(tail(stream)),
        _ => failed(tail(stream)),
    }
}

/// Reads what follows a quote mark: one quoted expression.
pub open spec fn parse_quote_spec(stream: Seq<Option<TokenView>>) -> Step<TermView> {
    let quoted = parse_sexpression_spec(stream);
    match quoted.value {
        Some(s) => parsed(TermView::Quote(s), quoted.rest),
        None => failed(quoted.rest),
    }
}

/// Reads two terms, one after the other.
pub open spec fn parse_two_spec(stream: Seq<Option<TokenView>>) -> Step<(TermView, TermView)>
    decreases stream.len(), 1nat,
{
    let first = parse_term_spec(stream);
    match first.value {
        Some(a) => {
            let second = parse_term_spec(capped(first.rest, stream));
            match second.value {
                Some(b) => parsed((a, b), second.rest),
                None => failed(second.rest),
            }
        },
        None => failed(first.rest),
    }
}

/// Reads what follows the left parenthesis of a form: a keyword, and then
/// what the keyword asks for.
pub open spec fn parse_form_spec(stream: Seq<Option<TokenView>>) -> Step<TermView>
    decreases stream.len(), 3nat,
{
    match head(stream) {
        Some(TokenView::Cond) => parse_clauses_spec(tail(stream), Seq::empty()),
        Some(TokenView::Atom) => parse_unary_spec(TokenView::Atom, tail(stream)),
        Some(TokenView::Eq) => parse_binary_spec(TokenView::Eq, tail(stream)),
        Some(TokenView::Car) => parse_unary_spec(TokenView::Car, tail(stream)),
        Some(TokenView::Cdr) => parse_unary_spec(TokenView::Cdr, tail(stream)),
        Some(TokenView::Cons) => parse_binary_spec(TokenView::Cons, tail(stream)),
        Some(TokenView::Lambda) => parse_lambda_spec(tail(stream)),
        Some(TokenView::Apply) => parse_apply_spec(tail(stream)),
        Some(TokenView::Label) => parse_label_spec(tail(stream)),
        _ => failed(tail(stream)),
    }
}

/// Reads what follows `atom`, `car` or `cdr`: one term and the right
/// parenthesis.
pub open spec fn parse_unary_spec(keyword: TokenView, stream: Seq<Option<TokenView>>) -> Step<
    TermView,
>
    decreases stream.len(), 1nat,
{
    let inner = parse_term_spec(stream);
    match inner.value {
        Some(a) => closing(unary_term(keyword, a), inner.rest),
        None => failed(inner.rest),
    }
}

/// Reads what follows `eq` or `cons`: two terms and the right parenthesis.
pub open spec fn parse_binary_spec(keyword: TokenView, stream: Seq<Option<TokenView>>) -> Step<
    TermView,
>
    decreases stream.len(), 2nat,
{
    let inner = parse_two_spec(stream);
    match inner.value {
        Some(pair) => closing(binary_term(keyword, pair.0, pair.1), inner.rest),
        None => failed(inner.rest),
    }
}

/// Reads what follows `lambda`: the parameter names in parentheses, the
/// body and the right parenthesis.
pub open spec fn parse_lambda_spec(stream: Seq<Option<TokenView>>) -> Step<TermView>
    decreases stream.len(), 2nat,
{
    match head(stream) {
        Some(TokenView::LParen) => {
            let names = parse_params_spec(tail(stream), Seq::empty());
            match names.value {
                Some(params) => {
                    let inner = parse_term_spec(capped(names.rest, stream));
                    match inner.value {
                        Some(body) => closing(TermView::Lambda(params, Box::new(body)), inner.rest),
                        None => failed(inner.rest),
                    }
                },
                None => failed(names.rest),
            }
        },
        _ => failed(tail(stream)),
    }
}

/// Reads what follows `apply`: the function, the arguments in parentheses
/// and the right parenthesis.
pub open spec fn parse_apply_spec(stream: Seq<Option<TokenView>>) -> Step<TermView>
    decreases stream.len(), 2nat,
{
    let function = parse_term_spec(stream);
    match function.value {
        Some(f) => match head(function.rest) {
            Some(TokenView::LParen) => {
                let given = parse_args_spec(capped(tail(function.rest), stream), Seq::empty());
                match given.value {
                    Some(args) => closing(TermView::Apply(Box::new(f), args), given.rest),
                    None => failed(given.rest),
                }
            },
            _ => failed(tail(function.rest)),
        },
        None => failed(function.rest),
    }
}

/// Reads what follows `label`: a name, the body and the right parenthesis.
/// Whether the token in the place of the name is an identifier is asked
/// once the body has been read.
pub open spec fn parse_label_spec(stream: Seq<Option<TokenView>>) -> Step<TermView>
    decreases stream.len(), 2nat,
{
    match head(stream) {
        Some(name) => {
            let inner = parse_term_spec(tail(stream));
            match inner.value {
                Some(body) => match name {
                    TokenView::Id(id) => closing(TermView::Label(id, Box::new(body)), inner.rest),
                    _ => failed(inner.rest),
                },
                None => failed(inner.rest),
            }
        },
        None => failed(tail(stream)),
    }
}

/// Reads the clauses of a `cond` up to the right parenthesis that ends the
/// form, after the clauses in `seen`.
pub open spec fn parse_clauses_spec(
    stream: Seq<Option<TokenView>>,
    seen: Seq<(TermView, TermView)>,
) -> Step<TermView>
    decreases stream.len(), 2nat,
{
    match head(stream) {
        Some(TokenView::LParen) => {
            let inner = parse_two_spec(tail(stream));
            match inner.value {
                Some(pair) => match head(inner.rest) {
                    Some(TokenView::RParen) => parse_clauses_spec(
                        capped(tail(inner.rest), tail(stream)),
                        seen.push(pair),
                    ),
                    _ => failed(tail(inner.rest)),
                },
                None => failed(inner.rest),
            }
        },
        Some(TokenView::RParen) => parsed(TermView::Cond(seen), tail(stream)),
        _ => failed(tail(stream)),
    }
}

/// Reads the arguments of an `apply`, each behind a comma, up to the right
/// parenthesis that ends them, after the arguments in `seen`.
pub open spec fn parse_args_spec(stream: Seq<Option<TokenView>>, seen: Seq<TermView>) -> Step<
    Seq<TermView>,
>
    decreases stream.len(), 1nat,
{
    match head(stream) {
        Some(TokenView::Comma) => {
            let inner = parse_term_spec(tail(stream));
            match inner.value {
                Some(arg) => parse_args_spec(capped(inner.rest, tail(stream)), seen.push(arg)),
                None => failed(inner.rest),
            }
        },
        Some(TokenView::RParen) => parsed(seen, tail(stream)),
        _ => failed(tail(stream)),
    }
}

/// The mathematical value of an optional term.
pub open spec fn term_view(term: Option<Term>) -> Option<TermView> {
    match term {
        Some(t) => Some(t@),
        None => None,
    }
}

/// The mathematical value of an optional quoted expression.
pub open spec fn sexpression_view(expression: Option<SExpression>) -> Option<SExpressionView> {
    match expression {
        Some(s) => Some(s@),
        None => None,
    }
}

/// A parser over the tokens of a [`Lexer`].
pub struct Parser(Lexer);

impl View for Parser {
    type V = Seq<Option<TokenView>>;

    /// The tokens that are still to come.
    closed spec fn view(&self) -> Seq<Option<TokenView>> {
        self.0@
    }
}

impl Parser {
    /// A parser that reads from `lex`.
    pub fn new(lex: Lexer) -> (r: Self)
        ensures
            r@ == lex@,
    {
        Parser(lex)
    }

    /// Reads one term off the front of the tokens. A term is returned
    /// exactly if the tokens start with the spelling of a term; it is then
    /// that term, and the tokens behind its spelling are left. Otherwise
    /// nothing is returned, and the tokens up to the place where the
    /// spelling broke off are gone.
    pub fn parse(&mut self) -> (r: Option<Term>)
        ensures
            term_view(r) == parse_term_spec(old(self)@).value,
            final(self)@ == parse_term_spec(old(self)@).rest,
            final(self)@.len() <= old(self)@.len(),
            r matches Some(term) ==> old(self)@ == spell_term(term@) + final(self)@,
            forall|term: TermView, rest: Seq<Option<TokenView>>|
                old(self)@ == #[trigger] (spell_term(term) + rest) ==> term_view(r) == Some(term)
                    && final(self)@ == rest,
    {
        let ghost stream = self@;
        proof {
            lemma_parsed_term_is_spelled(stream);
            assert forall|term: TermView, rest: Seq<Option<TokenView>>|
                stream == #[trigger] (spell_term(term) + rest) implies parse_term_spec(stream)
                == parsed(term, rest) by {
                lemma_parse_spelled_term(term, rest);
            }
        }
        self.parse_term()
    }

    /// Consumes one token and says whether it is a right parenthesis.
    fn close(&mut self) -> (r: bool)
        ensures
            r == (head(old(self)@) == Some(TokenView::RParen)),
            final(self)@ == tail(old(self)@),
    {
        match self.0.next_token() {
            Some(Token::RParen) => true,
            _ => false,
        }
    }

    /// Reads one term.
    pub fn parse_term(&mut self) -> (r: Option<Term>)
        ensures
            term_view(r) == parse_term_spec(old(self)@).value,
            final(self)@ == parse_term_spec(old(self)@).rest,
            final(self)@.len() <= old(self)@.len(),
        decreases old(self)@.len(), 0nat,
    {
        match self.0.next_token() {
            Some(Token::Id(id)) => Some(Term::Variable(id)),
            Some(Token::Quote) => match self.parse_sexpression() {
                Some(s) => Some(Term::Quote(s)),
                None => None,
            },
            Some(Token::LParen) => self.parse_form(),
            _ => None,
        }
    }

    /// Reads two terms, one after the other.
    fn parse_two(&mut self) -> (r: Option<(Term, Term)>)
        ensures
            match r {
                Some(pair) => parse_two_spec(old(self)@).value == Some((pair.0@, pair.1@)),
                None => parse_two_spec(old(self)@).value is None,
            },
            final(self)@ == parse_two_spec(old(self)@).rest,
            final(self)@.len() <= old(self)@.len(),
        decreases old(self)@.len(), 1nat,
    {
        let first = match self.parse_term() {
            Some(t) => t,
            None => return None,
        };
        let second = match self.parse_term() {
            Some(t) => t,
            None => return None,
        };
        Some((first, second))
    }

    /// Reads what follows the left parenthesis of a form.
    fn parse_form(&mut self) -> (r: Option<Term>)
        ensures
            term_view(r) == parse_form_spec(old(self)@).value,
            final(self)@ == parse_form_spec(old(self)@).rest,
            final(self)@.len() <= old(self)@.len(),
        decreases old(self)@.len(), 3nat,
    {
        match self.0.next_token() {
            Some(Token::Cond) => self.parse_clauses(),
            Some(Token::Atom) => self.parse_unary(Token::Atom),
            Some(Token::Eq) => self.parse_binary(Token::Eq),
            Some(Token::Car) => self.parse_unary(Token::Car),
            Some(Token::Cdr) => self.parse_unary(Token::Cdr),
            Some(Token::Cons) => self.parse_binary(Token::Cons),
            Some(Token::Lambda) => self.parse_lambda(),
            Some(Token::Apply) => self.parse_apply(),
            Some(Token::Label) => self.parse_label(),
            _ => None,
        }
    }

    /// Reads what follows `atom`, `car` or `cdr`.
    fn parse_unary(&mut self, keyword: Token) -> (r: Option<Term>)
        ensures
            term_view(r) == parse_unary_spec(keyword@, old(self)@).value,
            final(self)@ == parse_unary_spec(keyword@, old(self)@).rest,
            final(self)@.len() <= old(self)@.len(),
        decreases old(self)@.len(), 1nat,
    {
        let inner = match self.parse_term() {
            Some(t) => t,
            None => return None,
        };
        if !self.close() {
            return None;
        }
        Some(
            match keyword {
                Token::Atom => Term::Atom(Box::new(inner)),
                Token::Car => Term::Car(Box::new(inner)),
                _ => Term::Cdr(Box::new(inner)),
            },
        )
    }

    /// Reads what follows `eq` or `cons`.
    fn parse_binary(&mut self, keyword: Token) -> (r: Option<Term>)
        ensures
            term_view(r) == parse_binary_spec(keyword@, old(self)@).value,
            final(self)@ == parse_binary_spec(keyword@, old(self)@).rest,
            final(self)@.len() <= old(self)@.len(),
        decreases old(self)@.len(), 2nat,
    {
        let (first, second) = match self.parse_two() {
            Some(pair) => pair,
            None => return None,
        };
        if !self.close() {
            return None;
        }
        Some(
            match keyword {
                Token::Eq => Term::Eq(Box::new(first), Box::new(second)),
                _ => Term::Cons(Box::new(first), Box::new(second)),
            },
        )
    }

    /// Reads what follows `lambda`.
    fn parse_lambda(&mut self) -> (r: Option<Term>)
        ensures
            term_view(r) == parse_lambda_spec(old(self)@).value,
            final(self)@ == parse_lambda_spec(old(self)@).rest,
            final(self)@.len() <= old(self)@.len(),
        decreases old(self)@.len(), 2nat,
    {
        match self.0.next_token() {
            Some(Token::LParen) => {},
            _ => return None,
        }
        let params = match self.parse_params() {
            Some(names) => names,
            None => return None,
        };
        let body = match self.parse_term() {
            Some(t) => t,
            None => return None,
        };
        if self.close() {
            Some(Term::Lambda(params, Box::new(body)))
        } else {
            None
        }
    }

    /// Reads what follows `apply`.
    fn parse_apply(&mut self) -> (r: Option<Term>)
        ensures
            term_view(r) == parse_apply_spec(old(self)@).value,
            final(self)@ == parse_apply_spec(old(self)@).rest,
            final(self)@.len() <= old(self)@.len(),
        decreases old(self)@.len(), 2nat,
    {
        let function = match self.parse_term() {
            Some(t) => t,
            None => return None,
        };
        match self.0.next_token() {
            Some(Token::LParen) => {},
            _ => return None,
        }
        let args = match self.parse_args() {
            Some(terms) => terms,
            None => return None,
        };
        if self.close() {
            Some(Term::Apply(Box::new(function), args))
        } else {
            None
        }
    }

    /// Reads what follows `label`.
    fn parse_label(&mut self) -> (r: Option<Term>)
        ensures
            term_view(r) == parse_label_spec(old(self)@).value,
            final(self)@ == parse_label_spec(old(self)@).rest,
            final(self)@.len() <= old(self)@.len(),
        decreases old(self)@.len(), 2nat,
    {
        let name = match self.0.next_token() {
            Some(token) => token,
            None => return None,
        };
        let body = match self.parse_term() {
            Some(t) => t,
            None => return None,
        };
        match name {
            Token::Id(id) => if self.close() {
                Some(Term::Label(id, Box::new(body)))
            } else {
                None
            },
            _ => None,
        }
    }

    /// Reads the clauses of a `cond` and the right parenthesis that ends it.
    fn parse_clauses(&mut self) -> (r: Option<Term>)
        ensures
            term_view(r) == parse_clauses_spec(old(self)@, Seq::empty()).value,
            final(self)@ == parse_clauses_spec(old(self)@, Seq::empty()).rest,
            final(self)@.len() <= old(self)@.len(),
        decreases old(self)@.len(), 2nat,
    {
        let mut clauses: Vec<(Box<Term>, Box<Term>)> = Vec::new();
        assert(clause_models(clauses@) =~= Seq::empty());
        loop
            invariant
                parse_clauses_spec(self@, clause_models(clauses@)) == parse_clauses_spec(
                    old(self)@,
                    Seq::empty(),
                ),
                self@.len() <= old(self)@.len(),
            decreases self@.len(),
        {
            match self.0.next_token() {
                Some(Token::LParen) => {
                    let (pred, result) = match self.parse_two() {
                        Some(pair) => pair,
                        None => return None,
                    };
                    if !self.close() {
                        return None;
                    }
                    let ghost seen = clause_models(clauses@);
                    clauses.push((Box::new(pred), Box::new(result)));
                    assert(clause_models(clauses@) =~= seen.push((pred@, result@)));
                },
                Some(Token::RParen) => {
                    return Some(Term::Cond(clauses));
                },
                _ => {
                    return None;
                },
            }
        }
    }

    /// Reads the parameter names of a `lambda` and the right parenthesis that
    /// ends them.
    fn parse_params(&mut self) -> (r: Option<Vec<String>>)
        ensures
            match r {
                Some(names) => parse_params_spec(old(self)@, Seq::empty()).value == Some(
                    names_view(names@),
                ),
                None => parse_params_spec(old(self)@, Seq::empty()).value is None,
            },
            final(self)@ == parse_params_spec(old(self)@, Seq::empty()).rest,
            final(self)@.len() <= old(self)@.len(),
    {
        let mut params: Vec<String> = Vec::new();
        assert(names_view(params@) =~= Seq::empty());
        loop
            invariant
                parse_params_spec(self@, names_view(params@)) == parse_params_spec(
                    old(self)@,
                    Seq::empty(),
                ),
                self@.len() <= old(self)@.len(),
            decreases self@.len(),
        {
            match self.0.next_token() {
                Some(Token::Id(id)) => {
                    let ghost seen = names_view(params@);
                    params.push(id);
                    assert(names_view(params@) =~= seen.push(id@));
                },
                Some(Token::RParen) => {
                    return Some(params);
                },
                _ => {
                    return None;
                },
            }
        }
    }

    /// Reads the arguments of an `apply` and the right parenthesis that ends
    /// them.
    fn parse_args(&mut self) -> (r: Option<Vec<Box<Term>>>)
        ensures
            match r {
                Some(terms) => parse_args_spec(old(self)@, Seq::empty()).value == Some(
                    term_models(terms@),
                ),
                None => parse_args_spec(old(self)@, Seq::empty()).value is None,
            },
            final(self)@ == parse_args_spec(old(self)@, Seq::empty()).rest,
            final(self)@.len() <= old(self)@.len(),
        decreases old(self)@.len(), 1nat,
    {
        let mut args: Vec<Box<Term>> = Vec::new();
        assert(term_models(args@) =~= Seq::empty());
        loop
            invariant
                parse_args_spec(self@, term_models(args@)) == parse_args_spec(
                    old(self)@,
                    Seq::empty(),
                ),
                self@.len() <= old(self)@.len(),
            decreases self@.len(),
        {
            match self.0.next_token() {
                Some(Token::Comma) => {
                    let arg = match self.parse_term() {
                        Some(t) => t,
                        None => return None,
                    };
                    let ghost seen = term_models(args@);
                    args.push(Box::new(arg));
                    assert(term_models(args@) =~= seen.push(arg@));
                },
                Some(Token::RParen) => {
                    return Some(args);
                },
                _ => {
                    return None;
                },
            }
        }
    }

    /// Reads one quoted expression.
    pub fn parse_sexpression(&mut self) -> (r: Option<SExpression>)
        ensures
            sexpression_view(r) == parse_sexpression_spec(old(self)@).value,
            final(self)@ == parse_sexpression_spec(old(self)@).rest,
            final(self)@.len() <= old(self)@.len(),
        decreases old(self)@.len(),
    {
        match self.0.next_token() {
            Some(Token::Id(id)) => Some(SExpression::Symbol(id)),
            Some(Token::LParen) => {
                let first = match self.parse_sexpression() {
                    Some(s) => s,
                    None => return None,
                };
                let second = match self.parse_sexpression() {
                    Some(s) => s,
                    None => return None,
                };
                if self.close() {
                    Some(SExpression::Pair(Box::new(first), Box::new(second)))
                } else {
                    None
                }
            },
            _ => None,
        }
    }
}

} // verus!
