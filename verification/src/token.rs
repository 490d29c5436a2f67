//! The tokens of the surface language.

use vstd::prelude::*;
use vstd::std_specs::cmp::PartialEqSpecImpl;

verus! {

/// A lexical token of the surface language.
#[derive(Debug)]
pub enum Token {
    Id(String),
    LParen,
    RParen,
    Comma,
    Cond,
    Atom,
    Eq,
    Car,
    Cdr,
    Cons,
    Lambda,
    Apply,
    Label,
    Quote,
}

/// The mathematical value of a [`Token`]: an identifier carries its text as a
/// sequence of characters.
pub enum TokenView {
    Id(Seq<char>),
    LParen,
    RParen,
    Comma,
    Cond,
    Atom,
    Eq,
    Car,
    Cdr,
    Cons,
    Lambda,
    Apply,
    Label,
    Quote,
}

impl View for Token {
    type V = TokenView;

    open spec fn view(&self) -> TokenView {
        match self {
            Token::Id(s) => TokenView::Id(s@),
            Token::LParen => TokenView::LParen,
            Token::RParen => TokenView::RParen,
            Token::Comma => TokenView::Comma,
            Token::Cond => TokenView::Cond,
            Token::Atom => TokenView::Atom,
            Token::Eq => TokenView::Eq,
            Token::Car => TokenView::Car,
            Token::Cdr => TokenView::Cdr,
            Token::Cons => TokenView::Cons,
            Token::Lambda => TokenView::Lambda,
            Token::Apply => TokenView::Apply,
            Token::Label => TokenView::Label,
            Token::Quote => TokenView::Quote,
        }
    }
}

impl Clone for Token {
    fn clone(&self) -> (r: Self)
        ensures
            r@ == self@,
    {
        match self {
            Token::Id(s) => Token::Id(s.clone()),
            Token::LParen => Token::LParen,
            Token::RParen => Token::RParen,
            Token::Comma => Token::Comma,
            Token::Cond => Token::Cond,
            Token::Atom => Token::Atom,
            Token::Eq => Token::Eq,
            Token::Car => Token::Car,
            Token::Cdr => Token::Cdr,
            Token::Cons => Token::Cons,
            Token::Lambda => Token::Lambda,
            Token::Apply => Token::Apply,
            Token::Label => Token::Label,
            Token::Quote => Token::Quote,
        }
    }
}

impl PartialEq for Token {
    fn eq(&self, other: &Self) -> (r: bool) {
        match (self, other) {
            (Token::Id(a), Token::Id(b)) => *a == *b,
            (Token::LParen, Token::LParen) => true,
            (Token::RParen, Token::RParen) => true,
            (Token::Comma, Token::Comma) => true,
            (Token::Cond, Token::Cond) => true,
            (Token::Atom, Token::Atom) => true,
            (Token::Eq, Token::Eq) => true,
            (Token::Car, Token::Car) => true,
            (Token::Cdr, Token::Cdr) => true,
            (Token::Cons, Token::Cons) => true,
            (Token::Lambda, Token::Lambda) => true,
            (Token::Apply, Token::Apply) => true,
            (Token::Label, Token::Label) => true,
            (Token::Quote, Token::Quote) => true,
            _ => false,
        }
    }
}

impl PartialEqSpecImpl for Token {
    open spec fn obeys_eq_spec() -> bool {
        true
    }

    open spec fn eq_spec(&self, other: &Self) -> bool {
        self@ == other@
    }
}

impl Eq for Token {

}

} // verus!
