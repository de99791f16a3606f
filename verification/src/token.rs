//! A second lexer, with a span type of its own and tokens given with their
//! spans as pairs.
use crate::lexer::TokenKind;
use crate::lexer::kind_in_order;
use crate::lexer::kind_order;
use crate::lexer::lemma_boundary_of_tail;
use crate::pattern::find_match_end;
use crate::pattern::leftmost_match_end;
use crate::span::byte_slice;
use crate::span::lemma_tail_boundary;
use crate::span::slice_str;
use crate::span::sliceable;
use crate::pattern_language::all_digits;
use crate::pattern_language::comment_re;
use crate::pattern_language::identifier_re;
use crate::pattern_language::lemma_render_comment;
use crate::pattern_language::lemma_render_identifier;
use crate::pattern_language::lemma_render_operator;
use crate::pattern_language::lemma_render_separator;
use crate::pattern_language::operator_re;
use crate::pattern_language::separator_re;
use crate::pattern_language::is_space;
use crate::pattern_language::lemma_literal_language;
use crate::pattern_language::lemma_whitespace_language;
use crate::pattern_language::literal_re;
use crate::pattern_language::render;
use crate::pattern_language::takes_in;
use crate::pattern_language::whitespace_re;
use vstd::prelude::*;
use vstd::std_specs::convert::FromSpecImpl;
use vstd::string::StringSliceAdditionalSpecFns;
use vstd::utf8::*;

verus! {

broadcast use vstd::utf8::group_utf8_lib;

#[derive(Debug, PartialEq, Eq, Clone, Copy)]
pub struct Comment<'a>(pub &'a str);

#[derive(Debug, PartialEq, Eq, Clone, Copy)]
pub struct Literal<'a>(pub &'a str);

#[derive(Debug, PartialEq, Eq, Clone, Copy)]
pub struct Identifier<'a>(pub &'a str);

#[derive(Debug, PartialEq, Eq, Clone, Copy)]
pub struct Separator<'a>(pub &'a str);

#[derive(Debug, PartialEq, Eq, Clone, Copy)]
pub struct Whitespace<'a>(pub &'a str);

#[derive(Debug, PartialEq, Eq, Clone, Copy)]
pub struct Operator<'a>(pub &'a str);

#[derive(Debug, PartialEq, Eq, Clone, Copy)]
pub enum Token<'a> {
    Comment(Comment<'a>),
    Literal(Literal<'a>),
    Identifier(Identifier<'a>),
    Separator(Separator<'a>),
    Whitespace(Whitespace<'a>),
    Operator(Operator<'a>),
}

impl<'a> Token<'a> {
    pub open spec fn kind(self) -> TokenKind {
        match self {
            Token::Comment(_) => TokenKind::Comment,
            Token::Literal(_) => TokenKind::Literal,
            Token::Identifier(_) => TokenKind::Identifier,
            Token::Separator(_) => TokenKind::Separator,
            Token::Whitespace(_) => TokenKind::Whitespace,
            Token::Operator(_) => TokenKind::Operator,
        }
    }

    pub open spec fn text(self) -> &'a str {
        match self {
            Token::Comment(x) => x.0,
            Token::Literal(x) => x.0,
            Token::Identifier(x) => x.0,
            Token::Separator(x) => x.0,
            Token::Whitespace(x) => x.0,
            Token::Operator(x) => x.0,
        }
    }

    /// The text the token was read from.
    pub fn slice(&self) -> (r: &'a str)
        ensures
            r == self.text(),
    {
        match self {
            Token::Comment(x) => x.0,
            Token::Literal(x) => x.0,
            Token::Identifier(x) => x.0,
            Token::Separator(x) => x.0,
            Token::Whitespace(x) => x.0,
            Token::Operator(x) => x.0,
        }
    }

    fn make(kind: TokenKind, text: &'a str) -> (r: Token<'a>)
        ensures
            r.kind() == kind,
            r.text() == text,
    {
        match kind {
            TokenKind::Comment => Token::Comment(Comment(text)),
            TokenKind::Literal => Token::Literal(Literal(text)),
            TokenKind::Identifier => Token::Identifier(Identifier(text)),
            TokenKind::Separator => Token::Separator(Separator(text)),
            TokenKind::Whitespace => Token::Whitespace(Whitespace(text)),
            TokenKind::Operator => Token::Operator(Operator(text)),
        }
    }
}

/// A region of a source text, given by the byte offsets `from..to`.
#[derive(Debug, PartialEq, Eq, Clone, Copy)]
pub struct Span<'a> {
    pub src: &'a str,
    pub from: usize,
    pub to: usize,
}

impl<'a> Span<'a> {
    /// The offsets lie in order on character boundaries of the source.
    pub open spec fn valid(&self) -> bool {
        sliceable(self.src.spec_bytes(), self.from as int, self.to as int)
    }

    /// The bytes that the span covers.
    pub open spec fn covered(&self) -> Seq<u8> {
        byte_slice(self.src.spec_bytes(), self.from as int, self.to as int)
    }

    pub fn slice(&self) -> (r: &'a str)
        requires
            self.valid(),
        ensures
            r.spec_bytes() == self.covered(),
    {
        slice_str(self.src, self.from, self.to)
    }
}

/// The regular expression that recognises a token of the given kind at the
/// start of the remaining text.
pub open spec fn pattern(kind: TokenKind) -> Seq<char> {
    match kind {
        TokenKind::Comment => "^//.*(\\n|$)|^/\\*.*\\*/"@,
        TokenKind::Literal => "^\\d*\\.\\d+|^(0[xbo])?\\d+"@,
        TokenKind::Identifier => "^[A-Za-z]\\w*|^`[^`]+`"@,
        TokenKind::Separator => "^[\\[\\]\\(\\){};,]"@,
        TokenKind::Whitespace => "^\\s+"@,
        TokenKind::Operator => "^[^\\w\\s\\[\\]\\(\\){};,]+"@,
    }
}

fn pattern_str(kind: TokenKind) -> (r: &'static str)
    ensures
        r@ == pattern(kind),
{
    match kind {
        TokenKind::Comment => "^//.*(\\n|$)|^/\\*.*\\*/",
        TokenKind::Literal => "^\\d*\\.\\d+|^(0[xbo])?\\d+",
        TokenKind::Identifier => "^[A-Za-z]\\w*|^`[^`]+`",
        TokenKind::Separator => "^[\\[\\]\\(\\){};,]",
        TokenKind::Whitespace => "^\\s+",
        TokenKind::Operator => "^[^\\w\\s\\[\\]\\(\\){};,]+",
    }
}

/// Each pattern is the text of an expression whose language is stated in
/// [`crate::pattern_language`]: the whitespace pattern `^\s+` takes in every
/// non-empty run of white space (line breaks and tabs among them), the
/// literal pattern `^\d*\.\d+|^(0[xbo])?\d+` every decimal with any
/// number of digits before its point, every integer, and every integer
/// written after `0x`, `0b` or `0o`; the other patterns are those of
/// comments, identifiers, separators and operators.
pub proof fn lemma_pattern_languages(s: Seq<char>, a: Seq<char>, b: Seq<char>, p: char)
    ensures
        pattern(TokenKind::Comment) == render(comment_re()),
        pattern(TokenKind::Literal) == render(literal_re()),
        pattern(TokenKind::Identifier) == render(identifier_re()),
        pattern(TokenKind::Separator) == render(separator_re()),
        pattern(TokenKind::Whitespace) == render(whitespace_re()),
        pattern(TokenKind::Operator) == render(operator_re()),
        s.len() > 0 && (forall|i: int| 0 <= i < s.len() ==> is_space(#[trigger] s[i])) ==> takes_in(whitespace_re(), s),
        all_digits(a) && all_digits(b) && b.len() > 0 ==> takes_in(literal_re(), a + seq!['.'] + b),
        all_digits(b) && b.len() > 0 ==> takes_in(literal_re(), b),
        all_digits(b) && b.len() > 0 && (p == 'x' || p == 'b' || p == 'o') ==> takes_in(
            literal_re(),
            seq!['0', p] + b,
        ),
{
    lemma_whitespace_language(s);
    lemma_literal_language(a, b, p);
    lemma_render_comment();
    lemma_render_identifier();
    lemma_render_separator();
    lemma_render_operator();
}

/// The first kind, from the `i`-th on, whose pattern matches `rest`, with
/// the end of that match.
pub open spec fn first_match_from(rest: Seq<char>, i: int) -> Option<(TokenKind, usize)>
    decreases 6 - i,
{
    if i < 0 || i >= 6 {
        None
    } else {
        match leftmost_match_end(pattern(kind_order(i)), rest) {
            Some(end) => Some((kind_order(i), end)),
            None => first_match_from(rest, i + 1),
        }
    }
}

/// The kind and length of the token that the lexer reads from `rest`.
pub open spec fn first_match(rest: Seq<char>) -> Option<(TokenKind, usize)> {
    first_match_from(rest, 0)
}

/// Comments come first, then literals, identifiers, separators, white
/// space and operators: the token read is of the first of these kinds whose
/// pattern matches the rest of the text, up to the end of that match, and
/// nothing is read when none matches.
pub proof fn lemma_first_match_priority(rest: Seq<char>)
    ensures
        first_match(rest) == match leftmost_match_end(pattern(TokenKind::Comment), rest) {
            Some(e) => Some((TokenKind::Comment, e)),
            None => match leftmost_match_end(pattern(TokenKind::Literal), rest) {
                Some(e) => Some((TokenKind::Literal, e)),
                None => match leftmost_match_end(pattern(TokenKind::Identifier), rest) {
                    Some(e) => Some((TokenKind::Identifier, e)),
                    None => match leftmost_match_end(pattern(TokenKind::Separator), rest) {
                        Some(e) => Some((TokenKind::Separator, e)),
                        None => match leftmost_match_end(pattern(TokenKind::Whitespace), rest) {
                            Some(e) => Some((TokenKind::Whitespace, e)),
                            None => match leftmost_match_end(pattern(TokenKind::Operator), rest) {
                                Some(e) => Some((TokenKind::Operator, e)),
                                None => None,
                            },
                        },
                    },
                },
            },
        },
{
    reveal_with_fuel(first_match_from, 7);
}


/// Reads tokens from a source text, from left to right.
pub struct Lexer<'a> {
    contents: &'a str,
    index: usize,
}

/// `after` is `before` with `count` more bytes of the text read, handed
/// out as `span`.
pub open spec fn takes<'a>(before: Lexer<'a>, count: int, after: Lexer<'a>, span: Span<'a>) -> bool {
    &&& after.contents() == before.contents()
    &&& after.index() == before.index() + count
    &&& span.src == before.contents()
    &&& span.from == before.index()
    &&& span.to == after.index()
}

/// The spans that a lexer hands out one after the other lie side by side in
/// the same text: each starts where the one before it ended.
pub proof fn lemma_takes_adjacent<'a>(
    l0: Lexer<'a>,
    c1: int,
    l1: Lexer<'a>,
    s1: Span<'a>,
    c2: int,
    l2: Lexer<'a>,
    s2: Span<'a>,
)
    requires
        0 <= c1,
        0 <= c2,
        takes(l0, c1, l1, s1),
        takes(l1, c2, l2, s2),
    ensures
        s2.src == s1.src,
        s2.from == s1.to,
        s1.from <= s1.to <= s2.to,
        s2.to == s1.from + c1 + c2,
{
}

impl<'a> Lexer<'a> {
    /// The read offset stays within the text.
    #[verifier::type_invariant]
    spec fn offset_in_text(self) -> bool {
        &&& self.bytes().len() <= usize::MAX
        &&& self.index() <= self.bytes().len()
    }

    pub closed spec fn contents(&self) -> &'a str {
        self.contents
    }

    /// The byte offset up to which the text has been read.
    pub closed spec fn index(&self) -> usize {
        self.index
    }

    pub open spec fn bytes(&self) -> Seq<u8> {
        self.contents().spec_bytes()
    }

    /// The read offset is a character boundary within the text.
    pub open spec fn wf(&self) -> bool {
        &&& self.bytes().len() <= usize::MAX
        &&& sliceable(self.bytes(), self.index() as int, self.bytes().len() as int)
    }

    /// The characters that are still to be read.
    pub open spec fn rest(&self) -> Seq<char> {
        decode_utf8(byte_slice(self.bytes(), self.index() as int, self.bytes().len() as int))
    }

    pub fn new(contents: &'a str) -> (r: Self)
        ensures
            r.contents() == contents,
            r.index() == 0,
            r.wf(),
    {
        // Asking for the length brings in that it fits in a `usize`.
        let _len: usize = contents.as_bytes().len();
        Self { contents, index: 0 }
    }

    fn take(&mut self, count: usize) -> (r: Span<'a>)
        requires
            old(self).index() + count <= old(self).bytes().len(),
        ensures
            takes(*old(self), count as int, *final(self), r),
    {
        proof {
            use_type_invariant(&*self);
        }
        let span = Span { src: self.contents, from: self.index, to: self.index + count };
        self.index = self.index + count;
        span
    }

    /// Reads a token of kind `kind` that covers the next `len` bytes of the
    /// text.
    pub fn take_token(&mut self, kind: TokenKind, len: usize) -> (r: (Span<'a>, Token<'a>))
        requires
            sliceable(old(self).bytes(), old(self).index() as int, old(self).index() + len),
        ensures
            final(self).wf(),
            final(self).contents() == old(self).contents(),
            final(self).index() == old(self).index() + len,
            r.0.src == old(self).contents(),
            r.0.from == old(self).index(),
            r.0.to == final(self).index(),
            r.0.valid(),
            r.1.kind() == kind,
            r.1.text().spec_bytes() == r.0.covered(),
    {
        proof {
            use_type_invariant(&*self);
        }
        let span = self.take(len);
        let text = span.slice();
        (span, Token::make(kind, text))
    }

    /// Reads the next token: the first kind, in the order of `kind_order`,
    /// whose pattern matches the rest of the text gives the token, which
    /// covers the text up to the end of that match. Returns `None`, and reads
    /// nothing, when no pattern matches.
    pub fn next(&mut self) -> (r: Option<(Span<'a>, Token<'a>)>)
        requires
            old(self).wf(),
        ensures
            final(self).contents() == old(self).contents(),
            match first_match(old(self).rest()) {
                None => r is None && final(self).index() == old(self).index(),
                Some((kind, len)) => {
                    &&& final(self).index() == old(self).index() + len
                    &&& r matches Some((span, token)) && {
                        &&& span.src == old(self).contents()
                        &&& span.from == old(self).index()
                        &&& span.to == final(self).index()
                        &&& span.valid()
                        &&& token.kind() == kind
                        &&& token.text().spec_bytes() == span.covered()
                    }
                },
            },
    {
        proof {
            use_type_invariant(&*self);
        }
        let (_, rest) = self.contents.split_at(self.index);
        assert(rest.spec_bytes() =~= byte_slice(self.bytes(), self.index() as int, self.bytes().len() as int));
        let mut i: usize = 0;
        while i < 6
            invariant
                self.wf(),
                *self == *old(self),
                rest@ == self.rest(),
                rest.spec_bytes() == byte_slice(self.bytes(), self.index() as int, self.bytes().len() as int),
                i <= 6,
                first_match_from(self.rest(), i as int) == first_match(self.rest()),
            decreases 6 - i,
        {
            let kind = kind_in_order(i);
            if let Some(len) = find_match_end(pattern_str(kind), rest) {
                proof {
                    let b = self.bytes();
                    let from = self.index() as int;
                    lemma_tail_boundary(b, from, b.len() as int);
                    lemma_boundary_of_tail(b, from, len as int);
                }
                return Some(self.take_token(kind, len));
            }
            i = i + 1;
        }
        None
    }
}

impl<'a> From<Comment<'a>> for Token<'a> {
    fn from(v: Comment<'a>) -> (r: Self) {
        Token::Comment(v)
    }
}

impl<'a> FromSpecImpl<Comment<'a>> for Token<'a> {
    open spec fn obeys_from_spec() -> bool {
        true
    }

    open spec fn from_spec(v: Comment<'a>) -> Self {
        Token::Comment(v)
    }
}

impl<'a> From<Literal<'a>> for Token<'a> {
    fn from(v: Literal<'a>) -> (r: Self) {
        Token::Literal(v)
    }
}

impl<'a> FromSpecImpl<Literal<'a>> for Token<'a> {
    open spec fn obeys_from_spec() -> bool {
        true
    }

    open spec fn from_spec(v: Literal<'a>) -> Self {
        Token::Literal(v)
    }
}

impl<'a> From<Identifier<'a>> for Token<'a> {
    fn from(v: Identifier<'a>) -> (r: Self) {
        Token::Identifier(v)
    }
}

impl<'a> FromSpecImpl<Identifier<'a>> for Token<'a> {
    open spec fn obeys_from_spec() -> bool {
        true
    }

    open spec fn from_spec(v: Identifier<'a>) -> Self {
        Token::Identifier(v)
    }
}

impl<'a> From<Separator<'a>> for Token<'a> {
    fn from(v: Separator<'a>) -> (r: Self) {
        Token::Separator(v)
    }
}

impl<'a> FromSpecImpl<Separator<'a>> for Token<'a> {
    open spec fn obeys_from_spec() -> bool {
        true
    }

    open spec fn from_spec(v: Separator<'a>) -> Self {
        Token::Separator(v)
    }
}

impl<'a> From<Whitespace<'a>> for Token<'a> {
    fn from(v: Whitespace<'a>) -> (r: Self) {
        Token::Whitespace(v)
    }
}

impl<'a> FromSpecImpl<Whitespace<'a>> for Token<'a> {
    open spec fn obeys_from_spec() -> bool {
        true
    }

    open spec fn from_spec(v: Whitespace<'a>) -> Self {
        Token::Whitespace(v)
    }
}

impl<'a> From<Operator<'a>> for Token<'a> {
    fn from(v: Operator<'a>) -> (r: Self) {
        Token::Operator(v)
    }
}

impl<'a> FromSpecImpl<Operator<'a>> for Token<'a> {
    open spec fn obeys_from_spec() -> bool {
        true
    }

    open spec fn from_spec(v: Operator<'a>) -> Self {
        Token::Operator(v)
    }
}

} // verus!
