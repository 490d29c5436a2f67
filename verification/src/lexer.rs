//! The tokenizer: source text is cut into segments by one regular expression,
//! and each segment is classified as a token, as blank space, or as unknown.
//!
//! Cutting knows nothing of keywords: a word of letters and digits is one
//! segment, and only a segment that is a keyword from its first letter to
//! its last is that keyword. A longer word that starts with a keyword is an
//! identifier.

use crate::pattern::{find_matches, is_match, regex_compiles, regex_is_match, regex_matches, texts};
use crate::token::{Token, TokenView};
use vstd::prelude::*;
use vstd::std_specs::cmp::PartialEqSpecImpl;
use vstd::string::*;

verus! {

/// What one scanned segment of the source text stands for.
#[derive(Debug)]
pub enum Lexeme {
    /// The segment is a token.
    Token(Token),
    /// The segment is a run of white space, which separates tokens.
    Blank,
    /// The segment is no part of the language.
    Unknown,
}

/// The mathematical value of a [`Lexeme`].
pub enum LexemeView {
    Token(TokenView),
    Blank,
    Unknown,
}

impl View for Lexeme {
    type V = LexemeView;

    open spec fn view(&self) -> LexemeView {
        match self {
            Lexeme::Token(t) => LexemeView::Token(t@),
            Lexeme::Blank => LexemeView::Blank,
            Lexeme::Unknown => LexemeView::Unknown,
        }
    }
}

impl PartialEq for Lexeme {
    fn eq(&self, other: &Self) -> (r: bool) {
        match (self, other) {
            (Lexeme::Token(a), Lexeme::Token(b)) => *a == *b,
            (Lexeme::Blank, Lexeme::Blank) => true,
            (Lexeme::Unknown, Lexeme::Unknown) => true,
            _ => false,
        }
    }
}

impl PartialEqSpecImpl for Lexeme {
    open spec fn obeys_eq_spec() -> bool {
        true
    }

    open spec fn eq_spec(&self, other: &Self) -> bool {
        self@ == other@
    }
}

impl Eq for Lexeme {

}

/// The pattern of an identifier: a letter, then letters and digits.
pub open spec fn ident_pattern() -> Seq<char> {
    "[a-zA-Z][a-zA-Z0-9]*"@
}

/// The pattern of a run of white space.
pub open spec fn space_pattern() -> Seq<char> {
    "\\s+"@
}

/// The pattern that cuts source text into segments. Its alternatives are tried
/// in the order written: the quote mark, the comma, the two parentheses, a
/// word of letters and digits that starts with a letter, a run of white
/// space, and at last anything up to the end of the line. A keyword is cut
/// as a word like any other; that it is a keyword shows only when the whole
/// segment is classified.
pub open spec fn scan_pattern() -> Seq<char> {
    "'|,|\\(|\\)|"@ + ident_pattern() + "|"@ + space_pattern() + "|.*"@
}

/// `pattern`, anchored so that it has to match a whole text.
pub open spec fn whole_pattern(pattern: Seq<char>) -> Seq<char> {
    "^(?:"@ + pattern + ")$"@
}

/// Whether `pattern` compiles when anchored and then matches all of `text`.
pub open spec fn matches_whole(pattern: Seq<char>, text: Seq<char>) -> bool {
    regex_compiles(whole_pattern(pattern)) && regex_is_match(whole_pattern(pattern), text)
}

/// The segments that the scan pattern cuts `text` into: none if the pattern
/// does not compile.
pub open spec fn scan(text: Seq<char>) -> Seq<Seq<char>> {
    if regex_compiles(scan_pattern()) {
        regex_matches(scan_pattern(), text)
    } else {
        Seq::empty()
    }
}

/// The token that a segment spells on its own: a punctuation mark or a keyword.
pub open spec fn fixed_token(segment: Seq<char>) -> Option<TokenView> {
    if segment == "'"@ {
        Some(TokenView::Quote)
    } else if segment == "label"@ {
        Some(TokenView::Label)
    } else if segment == "apply"@ {
        Some(TokenView::Apply)
    } else if segment == "lambda"@ {
        Some(TokenView::Lambda)
    } else if segment == "cons"@ {
        Some(TokenView::Cons)
    } else if segment == "cdr"@ {
        Some(TokenView::Cdr)
    } else if segment == "car"@ {
        Some(TokenView::Car)
    } else if segment == "eq"@ {
        Some(TokenView::Eq)
    } else if segment == "atom"@ {
        Some(TokenView::Atom)
    } else if segment == "cond"@ {
        Some(TokenView::Cond)
    } else if segment == ","@ {
        Some(TokenView::Comma)
    } else if segment == ")"@ {
        Some(TokenView::RParen)
    } else if segment == "("@ {
        Some(TokenView::LParen)
    } else {
        None
    }
}

/// Each punctuation mark and each keyword spells its own token.
pub proof fn lemma_fixed_tokens()
    ensures
        fixed_token("'"@) == Some(TokenView::Quote),
        fixed_token("label"@) == Some(TokenView::Label),
        fixed_token("apply"@) == Some(TokenView::Apply),
        fixed_token("lambda"@) == Some(TokenView::Lambda),
        fixed_token("cons"@) == Some(TokenView::Cons),
        fixed_token("cdr"@) == Some(TokenView::Cdr),
        fixed_token("car"@) == Some(TokenView::Car),
        fixed_token("eq"@) == Some(TokenView::Eq),
        fixed_token("atom"@) == Some(TokenView::Atom),
        fixed_token("cond"@) == Some(TokenView::Cond),
        fixed_token(","@) == Some(TokenView::Comma),
        fixed_token(")"@) == Some(TokenView::RParen),
        fixed_token("("@) == Some(TokenView::LParen),
{
    reveal_strlit("'");
    reveal_strlit("label");
    reveal_strlit("apply");
    reveal_strlit("lambda");
    reveal_strlit("cons");
    reveal_strlit("cdr");
    reveal_strlit("car");
    reveal_strlit("eq");
    reveal_strlit("atom");
    reveal_strlit("cond");
    reveal_strlit(",");
    reveal_strlit(")");
    reveal_strlit("(");
    assert("'"@[0] == '\'');
    assert(","@[0] == ',');
    assert(")"@[0] == ')');
    assert("("@[0] == '(');
    assert("label"@[0] == 'l' && "label"@.len() == 5);
    assert("apply"@[0] == 'a' && "apply"@.len() == 5);
    assert("lambda"@.len() == 6);
    assert("cons"@[2] == 'n' && "cons"@[3] == 's');
    assert("cond"@[2] == 'n' && "cond"@[3] == 'd');
    assert("cdr"@[1] == 'd');
    assert("car"@[1] == 'a');
    assert("eq"@.len() == 2);
    assert("atom"@[0] == 'a' && "atom"@.len() == 4);
}

/// A keyword or a punctuation mark is a token only as a whole segment: a
/// segment that goes on behind one is no keyword and no punctuation mark,
/// and where it is a word of letters and digits it is an identifier.
pub proof fn lemma_keyword_is_a_whole_word(word: Seq<char>, more: Seq<char>)
    requires
        fixed_token(word) is Some,
        more.len() > 0,
    ensures
        fixed_token(word + more) is None,
        forall|is_blank: bool| #[trigger]
            classify_spec(word + more, true, is_blank) == LexemeView::Token(
                TokenView::Id(word + more),
            ),
{
    reveal_strlit("'");
    reveal_strlit("label");
    reveal_strlit("apply");
    reveal_strlit("lambda");
    reveal_strlit("cons");
    reveal_strlit("cdr");
    reveal_strlit("car");
    reveal_strlit("eq");
    reveal_strlit("atom");
    reveal_strlit("cond");
    reveal_strlit(",");
    reveal_strlit(")");
    reveal_strlit("(");
    let longer = word + more;
    assert(longer.len() == word.len() + more.len());
    assert(forall|i: int| 0 <= i < word.len() ==> longer[i] == word[i]);
    assert("'"@.len() == 1 && "'"@[0] == '\'');
    assert(","@.len() == 1 && ","@[0] == ',');
    assert(")"@.len() == 1 && ")"@[0] == ')');
    assert("("@.len() == 1 && "("@[0] == '(');
    assert("eq"@.len() == 2 && "eq"@[0] == 'e');
    assert("cdr"@.len() == 3 && "cdr"@[0] == 'c' && "cdr"@[1] == 'd');
    assert("car"@.len() == 3 && "car"@[0] == 'c' && "car"@[1] == 'a');
    assert("cons"@.len() == 4 && "cons"@[0] == 'c' && "cons"@[1] == 'o');
    assert("cond"@.len() == 4 && "cond"@[0] == 'c' && "cond"@[1] == 'o');
    assert("atom"@.len() == 4 && "atom"@[0] == 'a' && "atom"@[1] == 't');
    assert("label"@.len() == 5 && "label"@[0] == 'l' && "label"@[2] == 'b');
    assert("apply"@.len() == 5 && "apply"@[0] == 'a' && "apply"@[1] == 'p');
    assert("lambda"@.len() == 6 && "lambda"@[0] == 'l' && "lambda"@[2] == 'm');
    assert(longer[0] == word[0]);
    if word.len() > 1 {
        assert(longer[1] == word[1]);
    }
    if word.len() > 2 {
        assert(longer[2] == word[2]);
    }
}

/// The lexeme of a segment, given whether the whole of it is an identifier
/// and whether the whole of it is white space. Punctuation and keywords come
/// first, then identifiers, then white space; anything else is unknown.
pub open spec fn classify_spec(segment: Seq<char>, is_ident: bool, is_blank: bool) -> LexemeView {
    match fixed_token(segment) {
        Some(token) => LexemeView::Token(token),
        None => if is_ident {
            LexemeView::Token(TokenView::Id(segment))
        } else if is_blank {
            LexemeView::Blank
        } else {
            LexemeView::Unknown
        },
    }
}

/// The lexeme of a segment.
pub open spec fn lexeme(segment: Seq<char>) -> LexemeView {
    classify_spec(
        segment,
        matches_whole(ident_pattern(), segment),
        matches_whole(space_pattern(), segment),
    )
}

/// What a reader of tokens sees of a sequence of segments: blank segments
/// vanish, a token segment shows as `Some` of its token, and an unknown
/// segment shows as `None`.
pub open spec fn token_stream(segments: Seq<Seq<char>>) -> Seq<Option<TokenView>>
    decreases segments.len(),
{
    if segments.len() == 0 {
        Seq::empty()
    } else {
        let rest = token_stream(segments.drop_first());
        match lexeme(segments[0]) {
            LexemeView::Token(token) => seq![Some(token)] + rest,
            LexemeView::Blank => rest,
            LexemeView::Unknown => seq![None] + rest,
        }
    }
}

/// A segment that is a word of letters and digits, and neither a keyword nor
/// a punctuation mark, is read as one identifier with the whole word as its
/// name.
pub proof fn lemma_word_is_one_identifier(segment: Seq<char>)
    requires
        fixed_token(segment) is None,
        matches_whole(ident_pattern(), segment),
    ensures
        token_stream(seq![segment]) == seq![Some(TokenView::Id(segment))],
{
    reveal_with_fuel(token_stream, 2);
    assert(seq![segment].drop_first() =~= Seq::<Seq<char>>::empty());
    assert(seq![Some(TokenView::Id(segment))] + Seq::<Option<TokenView>>::empty() =~= seq![
        Some(TokenView::Id(segment)),
    ]);
}

/// The tokens of segments put one after the other are the tokens of the
/// first segments and then those of the others.
pub proof fn lemma_token_stream_concat(a: Seq<Seq<char>>, b: Seq<Seq<char>>)
    ensures
        token_stream(a + b) == token_stream(a) + token_stream(b),
    decreases a.len(),
{
    if a.len() == 0 {
        assert(a + b =~= b);
        assert(token_stream(a) + token_stream(b) =~= token_stream(b));
    } else {
        lemma_token_stream_concat(a.drop_first(), b);
        assert((a + b).drop_first() =~= a.drop_first() + b);
        assert((a + b)[0] == a[0]);
        let rest = token_stream(a.drop_first());
        match lexeme(a[0]) {
            LexemeView::Token(token) => {
                assert((seq![Some(token)] + rest) + token_stream(b) =~= seq![Some(token)] + (
                rest + token_stream(b)));
            },
            LexemeView::Blank => {},
            LexemeView::Unknown => {
                assert((seq![None] + rest) + token_stream(b) =~= seq![None::<TokenView>] + (
                rest + token_stream(b)));
            },
        }
    }
}

/// White space between segments changes nothing in the tokens.
pub proof fn lemma_blank_is_skipped(a: Seq<Seq<char>>, blank: Seq<char>, b: Seq<Seq<char>>)
    requires
        lexeme(blank) == LexemeView::Blank,
    ensures
        token_stream(a + seq![blank] + b) == token_stream(a + b),
{
    lemma_token_stream_concat(a + seq![blank], b);
    lemma_token_stream_concat(a, seq![blank]);
    lemma_token_stream_concat(a, b);
    assert(seq![blank].drop_first() =~= Seq::<Seq<char>>::empty());
    assert(token_stream(seq![blank]) =~= Seq::<Option<TokenView>>::empty()) by {
        reveal_with_fuel(token_stream, 2);
    }
    assert(token_stream(a) + Seq::<Option<TokenView>>::empty() =~= token_stream(a));
}

/// The front of a stream of tokens: `None` if the stream is empty or starts
/// with an unknown segment.
pub open spec fn head(stream: Seq<Option<TokenView>>) -> Option<TokenView> {
    if stream.len() > 0 {
        stream[0]
    } else {
        None
    }
}

/// A stream of tokens without its front; an empty stream stays empty.
pub open spec fn tail(stream: Seq<Option<TokenView>>) -> Seq<Option<TokenView>> {
    if stream.len() > 0 {
        stream.skip(1)
    } else {
        stream
    }
}

/// The mathematical value of an optional token.
pub open spec fn token_view(token: Option<Token>) -> Option<TokenView> {
    match token {
        Some(t) => Some(t@),
        None => None,
    }
}

/// A reader of tokens over a source text. Tokens are handed out front to
/// back, and a token that was handed out is gone.
pub struct Lexer {
    segments: Vec<String>,
    next: usize,
}

impl View for Lexer {
    type V = Seq<Option<TokenView>>;

    /// The tokens that are still to come; `None` stands for an unknown segment.
    closed spec fn view(&self) -> Seq<Option<TokenView>> {
        token_stream(texts(self.segments@).skip(self.next as int))
    }
}

impl Lexer {
    /// The place of the next segment lies within the segments or just
    /// behind them.
    #[verifier::type_invariant]
    spec fn inv(&self) -> bool {
        self.next <= self.segments@.len()
    }

    /// A reader over the segments that the scan pattern cuts `s` into.
    pub fn new(s: &String) -> (r: Self)
        ensures
            r@ == token_stream(scan(s@)),
    {
        let pattern = Self::scan_regex();
        match find_matches(pattern.as_str(), s.as_str()) {
            Some(segments) => Self::from_segments(segments),
            None => Self::from_segments(Vec::new()),
        }
    }

    /// A reader over segments that were cut beforehand.
    pub fn from_segments(segments: Vec<String>) -> (r: Self)
        ensures
            r@ == token_stream(texts(segments@)),
    {
        assert(texts(segments@).skip(0) =~= texts(segments@));
        Lexer { segments, next: 0 }
    }

    /// Hands out the next token, passing over blank segments. The result is
    /// `None` when no segment is left or when the next segment that is not
    /// blank is unknown; an unknown segment is consumed like a token.
    pub fn next_token(&mut self) -> (r: Option<Token>)
        ensures
            token_view(r) == head(old(self)@),
            final(self)@ == tail(old(self)@),
    {
        proof {
            use_type_invariant(&*self);
        }
        while self.next < self.segments.len()
            invariant
                self.next <= self.segments@.len(),
                self@ == old(self)@,
            decreases self.segments@.len() - self.next,
        {
            let ghost before = texts(self.segments@).skip(self.next as int);
            let found = classify_segment(&self.segments[self.next]);
            self.next = self.next + 1;
            proof {
                let after = texts(self.segments@).skip(self.next as int);
                assert(before.drop_first() =~= after);
                assert(before[0] == self.segments@[self.next - 1]@);
            }
            match found {
                Lexeme::Token(token) => {
                    assert(self@ =~= old(self)@.skip(1));
                    return Some(token);
                },
                Lexeme::Blank => {},
                Lexeme::Unknown => {
                    assert(self@ =~= old(self)@.skip(1));
                    return None;
                },
            }
        }
        None
    }

    /// The text of the pattern of an identifier.
    pub fn ident_regex() -> (r: &'static str)
        ensures
            r@ == ident_pattern(),
    {
        "[a-zA-Z][a-zA-Z0-9]*"
    }

    /// The text of the pattern of a run of white space.
    pub fn space_regex() -> (r: &'static str)
        ensures
            r@ == space_pattern(),
    {
        "\\s+"
    }

    /// The text of the pattern that cuts source text into segments.
    pub fn scan_regex() -> (r: String)
        ensures
            r@ == scan_pattern(),
    {
        let head = String::from_str("'|,|\\(|\\)|");
        head.concat(Self::ident_regex()).concat("|").concat(Self::space_regex()).concat("|.*")
    }
}

/// The text of `pattern`, anchored so that it has to match a whole text.
pub fn anchored(pattern: &str) -> (r: String)
    ensures
        r@ == whole_pattern(pattern@),
{
    String::from_str("^(?:").concat(pattern).concat(")$")
}

/// Whether `pattern`, anchored, compiles and matches the whole of `text`.
pub fn is_whole(pattern: &str, text: &String) -> (r: bool)
    ensures
        r == matches_whole(pattern@, text@),
{
    match is_match(anchored(pattern).as_str(), text.as_str()) {
        Some(found) => found,
        None => false,
    }
}

/// Classifies one segment. A segment that is neither punctuation nor a
/// keyword is held against the identifier pattern, and one that is no
/// identifier against the white-space pattern.
pub fn classify_segment(segment: &String) -> (r: Lexeme)
    ensures
        r@ == lexeme(segment@),
{
    match classify(segment, false, false) {
        Lexeme::Unknown => {
            if is_whole(Lexer::ident_regex(), segment) {
                classify(segment, true, false)
            } else {
                classify(segment, false, is_whole(Lexer::space_regex(), segment))
            }
        },
        fixed => fixed,
    }
}

/// Classifies one segment, given whether the whole of it is an identifier and
/// whether the whole of it is white space.
pub fn classify(segment: &String, is_ident: bool, is_blank: bool) -> (r: Lexeme)
    ensures
        r@ == classify_spec(segment@, is_ident, is_blank),
{
    if spells(segment, "'") {
        Lexeme::Token(Token::Quote)
    } else if spells(segment, "label") {
        Lexeme::Token(Token::Label)
    } else if spells(segment, "apply") {
        Lexeme::Token(Token::Apply)
    } else if spells(segment, "lambda") {
        Lexeme::Token(Token::Lambda)
    } else if spells(segment, "cons") {
        Lexeme::Token(Token::Cons)
    } else if spells(segment, "cdr") {
        Lexeme::Token(Token::Cdr)
    } else if spells(segment, "car") {
        Lexeme::Token(Token::Car)
    } else if spells(segment, "eq") {
        Lexeme::Token(Token::Eq)
    } else if spells(segment, "atom") {
        Lexeme::Token(Token::Atom)
    } else if spells(segment, "cond") {
        Lexeme::Token(Token::Cond)
    } else if spells(segment, ",") {
        Lexeme::Token(Token::Comma)
    } else if spells(segment, ")") {
        Lexeme::Token(Token::RParen)
    } else if spells(segment, "(") {
        Lexeme::Token(Token::LParen)
    } else if is_ident {
        Lexeme::Token(Token::Id(segment.clone()))
    } else if is_blank {
        Lexeme::Blank
    } else {
        Lexeme::Unknown
    }
}

/// Whether `text` is exactly `word`.
pub fn spells(text: &String, word: &str) -> (r: bool)
    ensures
        r == (text@ == word@),
{
    let other = String::from_str(word);
    *text == other
}

} // verus!
