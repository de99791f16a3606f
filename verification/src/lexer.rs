use crate::pattern::find_match_end;
use crate::pattern::leftmost_match_end;
use crate::span::byte_slice;
use crate::span::sliceable;
use crate::span::Span;
use crate::span::Spanned;
use crate::span::lemma_tail_boundary;
use crate::pattern_language::all_digits;
use crate::pattern_language::comment_re;
use crate::pattern_language::identifier_re;
use crate::pattern_language::lemma_render_comment;
use crate::pattern_language::lemma_render_identifier;
use crate::pattern_language::lemma_render_operator;
use crate::pattern_language::lemma_render_separator;
use crate::pattern_language::operator_re;
use crate::pattern_language::separator_re;
use crate::pattern_language::is_space;
use crate::pattern_language::lemma_literal_language;
use crate::pattern_language::lemma_whitespace_language;
use crate::pattern_language::literal_re;
use crate::pattern_language::render;
use crate::pattern_language::takes_in;
use crate::pattern_language::whitespace_re;
use vstd::prelude::*;
use vstd::std_specs::convert::FromSpecImpl;
use vstd::string::StringSliceAdditionalSpecFns;
use vstd::utf8::*;

verus! {

broadcast use vstd::utf8::group_utf8_lib;

#[derive(Debug, PartialEq, Eq, Clone, Copy)]
pub struct Comment<'a>(pub &'a str);

#[derive(Debug, PartialEq, Eq, Clone, Copy)]
pub struct Literal<'a>(pub &'a str);

#[derive(Debug, PartialEq, Eq, Clone, Copy)]
pub struct Identifier<'a>(pub &'a str);

#[derive(Debug, PartialEq, Eq, Clone, Copy)]
pub struct Separator<'a>(pub &'a str);

#[derive(Debug, PartialEq, Eq, Clone, Copy)]
pub struct Whitespace<'a>(pub &'a str);

#[derive(Debug, PartialEq, Eq, Clone, Copy)]
pub struct Operator<'a>(pub &'a str);

/// A token of the language: its kind and the text it was read from.
#[derive(Debug, PartialEq, Eq, Clone, Copy)]
pub enum Token<'a> {
    Comment(Comment<'a>),
    Literal(Literal<'a>),
    Identifier(Identifier<'a>),
    Separator(Separator<'a>),
    Whitespace(Whitespace<'a>),
    Operator(Operator<'a>),
}

/// The kinds of token, in the order in which the lexer tries them.
#[derive(Debug, PartialEq, Eq, Structural, Clone, Copy)]
pub enum TokenKind {
    Comment,
    Literal,
    Identifier,
    Separator,
    Whitespace,
    Operator,
}

impl<'a> Token<'a> {
    pub open spec fn kind(self) -> TokenKind {
        match self {
            Token::Comment(_) => TokenKind::Comment,
            Token::Literal(_) => TokenKind::Literal,
            Token::Identifier(_) => TokenKind::Identifier,
            Token::Separator(_) => TokenKind::Separator,
            Token::Whitespace(_) => TokenKind::Whitespace,
            Token::Operator(_) => TokenKind::Operator,
        }
    }

    pub open spec fn text(self) -> &'a str {
        match self {
            Token::Comment(x) => x.0,
            Token::Literal(x) => x.0,
            Token::Identifier(x) => x.0,
            Token::Separator(x) => x.0,
            Token::Whitespace(x) => x.0,
            Token::Operator(x) => x.0,
        }
    }

    /// The token of kind `kind` with text `text`.
    pub open spec fn of(kind: TokenKind, text: &'a str) -> Token<'a> {
        match kind {
            TokenKind::Comment => Token::Comment(Comment(text)),
            TokenKind::Literal => Token::Literal(Literal(text)),
            TokenKind::Identifier => Token::Identifier(Identifier(text)),
            TokenKind::Separator => Token::Separator(Separator(text)),
            TokenKind::Whitespace => Token::Whitespace(Whitespace(text)),
            TokenKind::Operator => Token::Operator(Operator(text)),
        }
    }

    pub fn as_str(&self) -> (r: &'a str)
        ensures
            r == self.text(),
    {
        match self {
            Token::Comment(x) => x.0,
            Token::Literal(x) => x.0,
            Token::Identifier(x) => x.0,
            Token::Separator(x) => x.0,
            Token::Whitespace(x) => x.0,
            Token::Operator(x) => x.0,
        }
    }

    pub fn kind_of(&self) -> (r: TokenKind)
        ensures
            r == self.kind(),
    {
        match self {
            Token::Comment(_) => TokenKind::Comment,
            Token::Literal(_) => TokenKind::Literal,
            Token::Identifier(_) => TokenKind::Identifier,
            Token::Separator(_) => TokenKind::Separator,
            Token::Whitespace(_) => TokenKind::Whitespace,
            Token::Operator(_) => TokenKind::Operator,
        }
    }

    fn make(kind: TokenKind, text: &'a str) -> (r: Token<'a>)
        ensures
            r == Token::of(kind, text),
    {
        match kind {
            TokenKind::Comment => Token::Comment(Comment(text)),
            TokenKind::Literal => Token::Literal(Literal(text)),
            TokenKind::Identifier => Token::Identifier(Identifier(text)),
            TokenKind::Separator => Token::Separator(Separator(text)),
            TokenKind::Whitespace => Token::Whitespace(Whitespace(text)),
            TokenKind::Operator => Token::Operator(Operator(text)),
        }
    }
}

/// The regular expression that recognises a token of the given kind at the
/// start of the remaining text.
pub open spec fn pattern(kind: TokenKind) -> Seq<char> {
    match kind {
        TokenKind::Comment => "^//.*(\\n|$)|^/\\*.*\\*/"@,
        TokenKind::Literal => "^\\d*\\.\\d+|^(0[xbo])?\\d+"@,
        TokenKind::Identifier => "^[A-Za-z]\\w*|^`[^`]+`"@,
        TokenKind::Separator => "^[\\[\\]\\(\\){};,]"@,
        TokenKind::Whitespace => "^\\s+"@,
        TokenKind::Operator => "^[^\\w\\s\\[\\]\\(\\){};,]+"@,
    }
}

fn pattern_str(kind: TokenKind) -> (r: &'static str)
    ensures
        r@ == pattern(kind),
{
    match kind {
        TokenKind::Comment => "^//.*(\\n|$)|^/\\*.*\\*/",
        TokenKind::Literal => "^\\d*\\.\\d+|^(0[xbo])?\\d+",
        TokenKind::Identifier => "^[A-Za-z]\\w*|^`[^`]+`",
        TokenKind::Separator => "^[\\[\\]\\(\\){};,]",
        TokenKind::Whitespace => "^\\s+",
        TokenKind::Operator => "^[^\\w\\s\\[\\]\\(\\){};,]+",
    }
}

/// The `i`-th kind tried by the lexer.
pub open spec fn kind_order(i: int) -> TokenKind {
    if i <= 0 {
        TokenKind::Comment
    } else if i == 1 {
        TokenKind::Literal
    } else if i == 2 {
        TokenKind::Identifier
    } else if i == 3 {
        TokenKind::Separator
    } else if i == 4 {
        TokenKind::Whitespace
    } else {
        TokenKind::Operator
    }
}

/// The `i`-th kind tried by the lexer.
pub fn kind_in_order(i: usize) -> (r: TokenKind)
    ensures
        r == kind_order(i as int),
{
    if i == 0 {
        TokenKind::Comment
    } else if i == 1 {
        TokenKind::Literal
    } else if i == 2 {
        TokenKind::Identifier
    } else if i == 3 {
        TokenKind::Separator
    } else if i == 4 {
        TokenKind::Whitespace
    } else {
        TokenKind::Operator
    }
}

/// Each pattern is the text of an expression whose language is stated in
/// [`crate::pattern_language`]: the whitespace pattern `^\s+` takes in every
/// non-empty run of white space (line breaks and tabs among them), the
/// literal pattern `^\d*\.\d+|^(0[xbo])?\d+` every decimal with any
/// number of digits before its point, every integer, and every integer
/// written after `0x`, `0b` or `0o`; the other patterns are those of
/// comments, identifiers, separators and operators.
pub proof fn lemma_pattern_languages(s: Seq<char>, a: Seq<char>, b: Seq<char>, p: char)
    ensures
        pattern(TokenKind::Comment) == render(comment_re()),
        pattern(TokenKind::Literal) == render(literal_re()),
        pattern(TokenKind::Identifier) == render(identifier_re()),
        pattern(TokenKind::Separator) == render(separator_re()),
        pattern(TokenKind::Whitespace) == render(whitespace_re()),
        pattern(TokenKind::Operator) == render(operator_re()),
        s.len() > 0 && (forall|i: int| 0 <= i < s.len() ==> is_space(#[trigger] s[i])) ==> takes_in(whitespace_re(), s),
        all_digits(a) && all_digits(b) && b.len() > 0 ==> takes_in(literal_re(), a + seq!['.'] + b),
        all_digits(b) && b.len() > 0 ==> takes_in(literal_re(), b),
        all_digits(b) && b.len() > 0 && (p == 'x' || p == 'b' || p == 'o') ==> takes_in(
            literal_re(),
            seq!['0', p] + b,
        ),
{
    lemma_whitespace_language(s);
    lemma_literal_language(a, b, p);
    lemma_render_comment();
    lemma_render_identifier();
    lemma_render_separator();
    lemma_render_operator();
}

/// The first kind, from the `i`-th on, whose pattern matches `rest`, with
/// the end of that match.
pub open spec fn first_match_from(rest: Seq<char>, i: int) -> Option<(TokenKind, usize)>
    decreases 6 - i,
{
    if i < 0 || i >= 6 {
        None
    } else {
        match leftmost_match_end(pattern(kind_order(i)), rest) {
            Some(end) => Some((kind_order(i), end)),
            None => first_match_from(rest, i + 1),
        }
    }
}

/// The kind and length of the token that the lexer reads from `rest`.
pub open spec fn first_match(rest: Seq<char>) -> Option<(TokenKind, usize)> {
    first_match_from(rest, 0)
}

/// Comments come first, then literals, identifiers, separators, white
/// space and operators: the token read is of the first of these kinds whose
/// pattern matches the rest of the text, up to the end of that match, and
/// nothing is read when none matches.
pub proof fn lemma_first_match_priority(rest: Seq<char>)
    ensures
        first_match(rest) == match leftmost_match_end(pattern(TokenKind::Comment), rest) {
            Some(e) => Some((TokenKind::Comment, e)),
            None => match leftmost_match_end(pattern(TokenKind::Literal), rest) {
                Some(e) => Some((TokenKind::Literal, e)),
                None => match leftmost_match_end(pattern(TokenKind::Identifier), rest) {
                    Some(e) => Some((TokenKind::Identifier, e)),
                    None => match leftmost_match_end(pattern(TokenKind::Separator), rest) {
                        Some(e) => Some((TokenKind::Separator, e)),
                        None => match leftmost_match_end(pattern(TokenKind::Whitespace), rest) {
                            Some(e) => Some((TokenKind::Whitespace, e)),
                            None => match leftmost_match_end(pattern(TokenKind::Operator), rest) {
                                Some(e) => Some((TokenKind::Operator, e)),
                                None => None,
                            },
                        },
                    },
                },
            },
        },
{
    reveal_with_fuel(first_match_from, 7);
}


/// Reads tokens from a source text, from left to right.
pub struct Lexer<'a> {
    contents: &'a str,
    index: usize,
}

/// `after` is `before` with `count` more bytes of the text read, handed
/// out as `span`.
pub open spec fn takes<'a>(before: Lexer<'a>, count: int, after: Lexer<'a>, span: Span<'a>) -> bool {
    &&& after.contents() == before.contents()
    &&& after.index() == before.index() + count
    &&& span.source == before.contents()
    &&& span.from == before.index()
    &&& span.to == after.index()
}

/// The spans that a lexer hands out one after the other lie side by side in
/// the same text: each starts where the one before it ended.
pub proof fn lemma_takes_adjacent<'a>(
    l0: Lexer<'a>,
    c1: int,
    l1: Lexer<'a>,
    s1: Span<'a>,
    c2: int,
    l2: Lexer<'a>,
    s2: Span<'a>,
)
    requires
        0 <= c1,
        0 <= c2,
        takes(l0, c1, l1, s1),
        takes(l1, c2, l2, s2),
    ensures
        s2.source == s1.source,
        s2.from == s1.to,
        s1.from <= s1.to <= s2.to,
        s2.to == s1.from + c1 + c2,
{
}

impl<'a> Lexer<'a> {
    /// The read offset stays within the text.
    #[verifier::type_invariant]
    spec fn offset_in_text(self) -> bool {
        &&& self.bytes().len() <= usize::MAX
        &&& self.index() <= self.bytes().len()
    }

    pub closed spec fn contents(&self) -> &'a str {
        self.contents
    }

    /// The byte offset up to which the text has been read.
    pub closed spec fn index(&self) -> usize {
        self.index
    }

    pub open spec fn bytes(&self) -> Seq<u8> {
        self.contents().spec_bytes()
    }

    /// The read offset is a character boundary within the text.
    pub open spec fn wf(&self) -> bool {
        &&& self.bytes().len() <= usize::MAX
        &&& sliceable(self.bytes(), self.index() as int, self.bytes().len() as int)
    }

    /// The characters that are still to be read.
    pub open spec fn rest(&self) -> Seq<char> {
        decode_utf8(byte_slice(self.bytes(), self.index() as int, self.bytes().len() as int))
    }

    pub fn new(contents: &'a str) -> (r: Self)
        ensures
            r.contents() == contents,
            r.index() == 0,
            r.wf(),
    {
        // Asking for the length brings in that it fits in a `usize`.
        let _len: usize = contents.as_bytes().len();
        Self { contents, index: 0 }
    }

    fn take(&mut self, count: usize) -> (r: Span<'a>)
        requires
            old(self).index() + count <= old(self).bytes().len(),
        ensures
            takes(*old(self), count as int, *final(self), r),
    {
        proof {
            use_type_invariant(&*self);
        }
        let span = Span { source: self.contents, from: self.index, to: self.index + count };
        self.index = self.index + count;
        span
    }

    /// Reads a token of kind `kind` that covers the next `len` bytes of the
    /// text.
    pub fn take_token(&mut self, kind: TokenKind, len: usize) -> (r: Spanned<'a, Token<'a>>)
        requires
            sliceable(old(self).bytes(), old(self).index() as int, old(self).index() + len),
        ensures
            final(self).wf(),
            final(self).contents() == old(self).contents(),
            final(self).index() == old(self).index() + len,
            r.span.source == old(self).contents(),
            r.span.from == old(self).index(),
            r.span.to == final(self).index(),
            r.span.valid(),
            r.value == Token::of(kind, r.value.text()),
            r.value.text().spec_bytes() == r.span.covered(),
    {
        proof {
            use_type_invariant(&*self);
        }
        let span = self.take(len);
        let text = span.as_str();
        span.wrap(Token::make(kind, text))
    }

    /// The rest of the text, as a string slice.
    fn remaining(&self) -> (r: &'a str)
        requires
            self.wf(),
        ensures
            r.spec_bytes() == byte_slice(self.bytes(), self.index() as int, self.bytes().len() as int),
            r@ == self.rest(),
    {
        let (_, tail) = self.contents.split_at(self.index);
        assert(tail.spec_bytes() =~= byte_slice(self.bytes(), self.index() as int, self.bytes().len() as int));
        tail
    }

    /// Reads the next token: the first kind, in the order of `kind_order`,
    /// whose pattern matches the rest of the text gives the token, which
    /// covers the text up to the end of that match. Returns `None`, and reads
    /// nothing, when no pattern matches.
    pub fn next(&mut self) -> (r: Option<Spanned<'a, Token<'a>>>)
        requires
            old(self).wf(),
        ensures
            final(self).wf(),
            final(self).contents() == old(self).contents(),
            match first_match(old(self).rest()) {
                None => r is None && final(self).index() == old(self).index(),
                Some((kind, len)) => {
                    &&& final(self).index() == old(self).index() + len
                    &&& r matches Some(t) && {
                        &&& t.span.source == old(self).contents()
                        &&& t.span.from == old(self).index()
                        &&& t.span.to == final(self).index()
                        &&& t.span.valid()
                        &&& t.value.kind() == kind
                        &&& t.value.text().spec_bytes() == t.span.covered()
                    }
                },
            },
    {
        proof {
            use_type_invariant(&*self);
        }
        let rest = self.remaining();
        let mut i: usize = 0;
        while i < 6
            invariant
                self.wf(),
                *self == *old(self),
                rest@ == self.rest(),
                rest.spec_bytes() == byte_slice(self.bytes(), self.index() as int, self.bytes().len() as int),
                i <= 6,
                first_match_from(self.rest(), i as int) == first_match(self.rest()),
            decreases 6 - i,
        {
            let kind = kind_in_order(i);
            if let Some(len) = find_match_end(pattern_str(kind), rest) {
                proof {
                    let b = self.bytes();
                    let from = self.index() as int;
                    lemma_tail_boundary(b, from, b.len() as int);
                    lemma_boundary_of_tail(b, from, len as int);
                }
                return Some(self.take_token(kind, len));
            }
            i = i + 1;
        }
        None
    }

    /// Reads tokens until no pattern matches the rest of the text, or until
    /// the match is empty, and gives them in order.
    pub fn tokenize(self) -> (r: Vec<Spanned<'a, Token<'a>>>)
        requires
            self.wf(),
        ensures
            tokenizes(self.contents(), self.index() as int, r@),
    {
        let ghost start = self.index() as int;
        let mut lexer = self;
        let mut tokens: Vec<Spanned<'a, Token<'a>>> = Vec::new();
        loop
            invariant_except_break
                lexer.wf(),
                lexer.contents() == self.contents(),
                chain(self.contents(), start, tokens@),
                end_of(start, tokens@) == lexer.index(),
            ensures
                tokenizes(self.contents(), start, tokens@),
            decreases lexer.bytes().len() - lexer.index(),
        {
            proof {
                use_type_invariant(&lexer);
            }
            let ghost before = lexer;
            match lexer.next() {
                Some(t) => {
                    if t.span.to == t.span.from {
                        break;
                    }
                    let ghost prev = tokens@;
                    tokens.push(t);
                    assert forall|k: int| 0 <= k < tokens@.len() implies read_at(
                        self.contents(),
                        end_of(start, tokens@.take(k)),
                        #[trigger] tokens@[k],
                    ) by {
                        if k < prev.len() {
                            assert(tokens@.take(k) =~= prev.take(k));
                        } else {
                            assert(tokens@.take(k) =~= prev);
                        }
                    }
                },
                None => break,
            }
        }
        tokens
    }
}

/// A character boundary of the tail of a valid UTF-8 sequence, cut at a
/// character boundary, is a character boundary of the whole, shifted.
pub proof fn lemma_boundary_of_tail(bytes: Seq<u8>, from: int, k: int)
    requires
        valid_utf8(bytes),
        0 <= from <= bytes.len(),
        is_char_boundary(bytes, from),
        0 <= k <= bytes.len() - from,
        is_char_boundary(bytes.subrange(from, bytes.len() as int), k),
    ensures
        sliceable(bytes, from, from + k),
{
    let tail = bytes.subrange(from, bytes.len() as int);
    valid_utf8_split(bytes, from);
    if k == 0 {
    } else if from + k == bytes.len() {
        is_char_boundary_start_end_of_seq(bytes);
    } else {
        is_char_boundary_iff_not_is_continuation_byte(bytes, from + k);
        is_char_boundary_iff_not_is_continuation_byte(tail, k);
        assert(tail[k] == bytes[from + k]);
    }
}

/// Whether two strings hold the same characters, decided on their bytes.
pub fn same_text(a: &str, b: &str) -> (r: bool)
    ensures
        r == (a@ == b@),
{
    let x = a.as_bytes();
    let y = b.as_bytes();
    proof {
        vstd::utf8::encode_utf8_decode_utf8(a@);
        vstd::utf8::encode_utf8_decode_utf8(b@);
    }
    if x.len() != y.len() {
        assert(x@ != y@);
        return false;
    }
    let mut i: usize = 0;
    while i < x.len()
        invariant
            x@ == a.spec_bytes(),
            y@ == b.spec_bytes(),
            x@.len() == y@.len(),
            i <= x@.len(),
            forall|j: int| 0 <= j < i ==> x@[j] == y@[j],
        decreases x@.len() - i,
    {
        if x[i] != y[i] {
            assert(x@[i as int] != y@[i as int]);
            return false;
        }
        i = i + 1;
    }
    assert(x@ =~= y@);
    true
}

/// A sequence of tokens with a read position that can be moved back.
pub struct TokenStream<'a> {
    tokens: Vec<Spanned<'a, Token<'a>>>,
    index: usize,
}

impl<'a> TokenStream<'a> {
    /// The read position never passes the end of the tokens.
    #[verifier::type_invariant]
    spec fn index_in_bounds(self) -> bool {
        self.index <= self.tokens@.len()
    }

    pub closed spec fn tokens(&self) -> Seq<Spanned<'a, Token<'a>>> {
        self.tokens@
    }

    /// The index of the next token to be read.
    pub closed spec fn index(&self) -> nat {
        self.index as nat
    }

    pub fn new(tokens: Vec<Spanned<'a, Token<'a>>>) -> (r: Self)
        ensures
            r.tokens() == tokens@,
            r.index() == 0,
    {
        TokenStream { tokens, index: 0 }
    }

    /// The index of the next token to be read.
    pub fn position(&self) -> (r: usize)
        ensures
            r == self.index(),
            r <= self.tokens().len(),
    {
        proof {
            use_type_invariant(self);
        }
        self.index
    }

    /// Moves the read position back to `index`.
    pub fn seek(&mut self, index: usize)
        requires
            index <= old(self).index(),
        ensures
            final(self).tokens() == old(self).tokens(),
            final(self).index() == index,
    {
        proof {
            use_type_invariant(&*self);
        }
        self.index = index;
    }

    /// Reads the next token, if any is left.
    pub fn next(&mut self) -> (r: Option<Spanned<'a, Token<'a>>>)
        ensures
            final(self).tokens() == old(self).tokens(),
            old(self).index() < old(self).tokens().len() ==> {
                &&& r == Some(old(self).tokens()[old(self).index() as int])
                &&& final(self).index() == old(self).index() + 1
            },
            old(self).index() >= old(self).tokens().len() ==> {
                &&& r is None
                &&& final(self).index() == old(self).index()
            },
            final(self).index() <= final(self).tokens().len(),
    {
        proof {
            use_type_invariant(&*self);
        }
        if self.index < self.tokens.len() {
            let t = self.tokens[self.index];
            self.index = self.index + 1;
            Some(t)
        } else {
            None
        }
    }
}

/// Something that can be read from a token stream.
///
/// `spec_parse` gives, for the tokens and a read position, what is read
/// (as a model of the value) and the position after reading, also when
/// nothing could be read.
pub trait Parseable: Sized {
    type Target<'a>;

    type Model<'a>;

    spec fn model<'a>(target: Self::Target<'a>) -> Self::Model<'a>;

    spec fn spec_parse<'a>(tokens: Seq<Spanned<'a, Token<'a>>>, index: nat) -> (Option<Self::Model<'a>>, nat);

    fn parse<'a>(stream: &mut TokenStream<'a>) -> (r: Option<Self::Target<'a>>)
        ensures
            final(stream).tokens() == old(stream).tokens(),
            old(stream).index() <= final(stream).index() <= final(stream).tokens().len(),
            ({
                let (m, after) = Self::spec_parse(old(stream).tokens(), old(stream).index());
                &&& final(stream).index() == after
                &&& match r {
                    Some(t) => m == Some(Self::model(t)),
                    None => m is None,
                }
            }),
    ;
}

/// The token at `index`, if it is of kind `kind`, with its span.
pub open spec fn token_of_kind<'a>(tokens: Seq<Spanned<'a, Token<'a>>>, index: nat, kind: TokenKind) -> Option<Spanned<'a, Token<'a>>> {
    if index < tokens.len() && tokens[index as int].value.kind() == kind {
        Some(tokens[index as int])
    } else {
        None
    }
}

/// The token at `index` is of kind `kind` and has the text `text`.
pub open spec fn is_token<'a>(tokens: Seq<Spanned<'a, Token<'a>>>, index: nat, kind: TokenKind, text: Seq<char>) -> bool {
    &&& index < tokens.len()
    &&& tokens[index as int].value.kind() == kind
    &&& tokens[index as int].value.text()@ == text
}

/// Reads the next token and tells whether it is of kind `kind` with the
/// text `text`. The token is read either way.
pub fn next_is<'a>(stream: &mut TokenStream<'a>, kind: TokenKind, text: &str) -> (r: bool)
    ensures
        final(stream).tokens() == old(stream).tokens(),
        r == is_token(old(stream).tokens(), old(stream).index(), kind, text@),
        final(stream).index() <= final(stream).tokens().len(),
        final(stream).index() == if old(stream).index() < old(stream).tokens().len() {
            old(stream).index() + 1
        } else {
            old(stream).index()
        },
{
    match stream.next() {
        Some(t) => {
            let k = t.value.kind_of();
            k == kind && same_text(t.value.as_str(), text)
        },
        None => false,
    }
}

/// The comment token at `i`, with its span.
pub open spec fn comment_at<'a>(t: Seq<Spanned<'a, Token<'a>>>, i: nat) -> Option<Spanned<'a, Comment<'a>>> {
    if i < t.len() {
        match t[i as int].value {
            Token::Comment(x) => Some(Spanned { span: t[i as int].span, value: x }),
            _ => None,
        }
    } else {
        None
    }
}

/// Reads a comment token; reads nothing when the next token is not one.
pub fn read_comment<'a>(stream: &mut TokenStream<'a>) -> (r: Option<Spanned<'a, Comment<'a>>>)
    ensures
        final(stream).tokens() == old(stream).tokens(),
        r == comment_at(old(stream).tokens(), old(stream).index()),
        final(stream).index() == if r is Some {
            old(stream).index() + 1
        } else {
            old(stream).index()
        },
        final(stream).index() <= final(stream).tokens().len(),
{
    let start = stream.position();
    match stream.next() {
        Some(Spanned { span, value: Token::Comment(x) }) => Some(span.wrap(x)),
        _ => {
            stream.seek(start);
            None
        },
    }
}

impl<'x> Parseable for Comment<'x> {
    type Target<'a> = Spanned<'a, Comment<'a>>;

    type Model<'a> = Spanned<'a, Comment<'a>>;

    open spec fn model<'a>(target: Self::Target<'a>) -> Self::Model<'a> {
        target
    }

    open spec fn spec_parse<'a>(tokens: Seq<Spanned<'a, Token<'a>>>, index: nat) -> (Option<Self::Model<'a>>, nat) {
        match comment_at(tokens, index) {
            Some(x) => (Some(x), index + 1),
            None => (None, index),
        }
    }

    fn parse<'a>(stream: &mut TokenStream<'a>) -> (r: Option<Self::Target<'a>>) {
        read_comment(stream)
    }
}

/// The literal token at `i`, with its span.
pub open spec fn literal_at<'a>(t: Seq<Spanned<'a, Token<'a>>>, i: nat) -> Option<Spanned<'a, Literal<'a>>> {
    if i < t.len() {
        match t[i as int].value {
            Token::Literal(x) => Some(Spanned { span: t[i as int].span, value: x }),
            _ => None,
        }
    } else {
        None
    }
}

/// Reads a literal token; reads nothing when the next token is not one.
pub fn read_literal<'a>(stream: &mut TokenStream<'a>) -> (r: Option<Spanned<'a, Literal<'a>>>)
    ensures
        final(stream).tokens() == old(stream).tokens(),
        r == literal_at(old(stream).tokens(), old(stream).index()),
        final(stream).index() == if r is Some {
            old(stream).index() + 1
        } else {
            old(stream).index()
        },
        final(stream).index() <= final(stream).tokens().len(),
{
    let start = stream.position();
    match stream.next() {
        Some(Spanned { span, value: Token::Literal(x) }) => Some(span.wrap(x)),
        _ => {
            stream.seek(start);
            None
        },
    }
}

impl<'x> Parseable for Literal<'x> {
    type Target<'a> = Spanned<'a, Literal<'a>>;

    type Model<'a> = Spanned<'a, Literal<'a>>;

    open spec fn model<'a>(target: Self::Target<'a>) -> Self::Model<'a> {
        target
    }

    open spec fn spec_parse<'a>(tokens: Seq<Spanned<'a, Token<'a>>>, index: nat) -> (Option<Self::Model<'a>>, nat) {
        match literal_at(tokens, index) {
            Some(x) => (Some(x), index + 1),
            None => (None, index),
        }
    }

    fn parse<'a>(stream: &mut TokenStream<'a>) -> (r: Option<Self::Target<'a>>) {
        read_literal(stream)
    }
}

/// The identifier token at `i`, with its span.
pub open spec fn identifier_at<'a>(t: Seq<Spanned<'a, Token<'a>>>, i: nat) -> Option<Spanned<'a, Identifier<'a>>> {
    if i < t.len() {
        match t[i as int].value {
            Token::Identifier(x) => Some(Spanned { span: t[i as int].span, value: x }),
            _ => None,
        }
    } else {
        None
    }
}

/// Reads a identifier token; reads nothing when the next token is not one.
pub fn read_identifier<'a>(stream: &mut TokenStream<'a>) -> (r: Option<Spanned<'a, Identifier<'a>>>)
    ensures
        final(stream).tokens() == old(stream).tokens(),
        r == identifier_at(old(stream).tokens(), old(stream).index()),
        final(stream).index() == if r is Some {
            old(stream).index() + 1
        } else {
            old(stream).index()
        },
        final(stream).index() <= final(stream).tokens().len(),
{
    let start = stream.position();
    match stream.next() {
        Some(Spanned { span, value: Token::Identifier(x) }) => Some(span.wrap(x)),
        _ => {
            stream.seek(start);
            None
        },
    }
}

impl<'x> Parseable for Identifier<'x> {
    type Target<'a> = Spanned<'a, Identifier<'a>>;

    type Model<'a> = Spanned<'a, Identifier<'a>>;

    open spec fn model<'a>(target: Self::Target<'a>) -> Self::Model<'a> {
        target
    }

    open spec fn spec_parse<'a>(tokens: Seq<Spanned<'a, Token<'a>>>, index: nat) -> (Option<Self::Model<'a>>, nat) {
        match identifier_at(tokens, index) {
            Some(x) => (Some(x), index + 1),
            None => (None, index),
        }
    }

    fn parse<'a>(stream: &mut TokenStream<'a>) -> (r: Option<Self::Target<'a>>) {
        read_identifier(stream)
    }
}

/// The separator token at `i`, with its span.
pub open spec fn separator_at<'a>(t: Seq<Spanned<'a, Token<'a>>>, i: nat) -> Option<Spanned<'a, Separator<'a>>> {
    if i < t.len() {
        match t[i as int].value {
            Token::Separator(x) => Some(Spanned { span: t[i as int].span, value: x }),
            _ => None,
        }
    } else {
        None
    }
}

/// Reads a separator token; reads nothing when the next token is not one.
pub fn read_separator<'a>(stream: &mut TokenStream<'a>) -> (r: Option<Spanned<'a, Separator<'a>>>)
    ensures
        final(stream).tokens() == old(stream).tokens(),
        r == separator_at(old(stream).tokens(), old(stream).index()),
        final(stream).index() == if r is Some {
            old(stream).index() + 1
        } else {
            old(stream).index()
        },
        final(stream).index() <= final(stream).tokens().len(),
{
    let start = stream.position();
    match stream.next() {
        Some(Spanned { span, value: Token::Separator(x) }) => Some(span.wrap(x)),
        _ => {
            stream.seek(start);
            None
        },
    }
}

impl<'x> Parseable for Separator<'x> {
    type Target<'a> = Spanned<'a, Separator<'a>>;

    type Model<'a> = Spanned<'a, Separator<'a>>;

    open spec fn model<'a>(target: Self::Target<'a>) -> Self::Model<'a> {
        target
    }

    open spec fn spec_parse<'a>(tokens: Seq<Spanned<'a, Token<'a>>>, index: nat) -> (Option<Self::Model<'a>>, nat) {
        match separator_at(tokens, index) {
            Some(x) => (Some(x), index + 1),
            None => (None, index),
        }
    }

    fn parse<'a>(stream: &mut TokenStream<'a>) -> (r: Option<Self::Target<'a>>) {
        read_separator(stream)
    }
}

/// The whitespace token at `i`, with its span.
pub open spec fn whitespace_at<'a>(t: Seq<Spanned<'a, Token<'a>>>, i: nat) -> Option<Spanned<'a, Whitespace<'a>>> {
    if i < t.len() {
        match t[i as int].value {
            Token::Whitespace(x) => Some(Spanned { span: t[i as int].span, value: x }),
            _ => None,
        }
    } else {
        None
    }
}

/// Reads a whitespace token; reads nothing when the next token is not one.
pub fn read_whitespace<'a>(stream: &mut TokenStream<'a>) -> (r: Option<Spanned<'a, Whitespace<'a>>>)
    ensures
        final(stream).tokens() == old(stream).tokens(),
        r == whitespace_at(old(stream).tokens(), old(stream).index()),
        final(stream).index() == if r is Some {
            old(stream).index() + 1
        } else {
            old(stream).index()
        },
        final(stream).index() <= final(stream).tokens().len(),
{
    let start = stream.position();
    match stream.next() {
        Some(Spanned { span, value: Token::Whitespace(x) }) => Some(span.wrap(x)),
        _ => {
            stream.seek(start);
            None
        },
    }
}

impl<'x> Parseable for Whitespace<'x> {
    type Target<'a> = Spanned<'a, Whitespace<'a>>;

    type Model<'a> = Spanned<'a, Whitespace<'a>>;

    open spec fn model<'a>(target: Self::Target<'a>) -> Self::Model<'a> {
        target
    }

    open spec fn spec_parse<'a>(tokens: Seq<Spanned<'a, Token<'a>>>, index: nat) -> (Option<Self::Model<'a>>, nat) {
        match whitespace_at(tokens, index) {
            Some(x) => (Some(x), index + 1),
            None => (None, index),
        }
    }

    fn parse<'a>(stream: &mut TokenStream<'a>) -> (r: Option<Self::Target<'a>>) {
        read_whitespace(stream)
    }
}

/// The operator token at `i`, with its span.
pub open spec fn operator_at<'a>(t: Seq<Spanned<'a, Token<'a>>>, i: nat) -> Option<Spanned<'a, Operator<'a>>> {
    if i < t.len() {
        match t[i as int].value {
            Token::Operator(x) => Some(Spanned { span: t[i as int].span, value: x }),
            _ => None,
        }
    } else {
        None
    }
}

/// Reads a operator token; reads nothing when the next token is not one.
pub fn read_operator<'a>(stream: &mut TokenStream<'a>) -> (r: Option<Spanned<'a, Operator<'a>>>)
    ensures
        final(stream).tokens() == old(stream).tokens(),
        r == operator_at(old(stream).tokens(), old(stream).index()),
        final(stream).index() == if r is Some {
            old(stream).index() + 1
        } else {
            old(stream).index()
        },
        final(stream).index() <= final(stream).tokens().len(),
{
    let start = stream.position();
    match stream.next() {
        Some(Spanned { span, value: Token::Operator(x) }) => Some(span.wrap(x)),
        _ => {
            stream.seek(start);
            None
        },
    }
}

impl<'x> Parseable for Operator<'x> {
    type Target<'a> = Spanned<'a, Operator<'a>>;

    type Model<'a> = Spanned<'a, Operator<'a>>;

    open spec fn model<'a>(target: Self::Target<'a>) -> Self::Model<'a> {
        target
    }

    open spec fn spec_parse<'a>(tokens: Seq<Spanned<'a, Token<'a>>>, index: nat) -> (Option<Self::Model<'a>>, nat) {
        match operator_at(tokens, index) {
            Some(x) => (Some(x), index + 1),
            None => (None, index),
        }
    }

    fn parse<'a>(stream: &mut TokenStream<'a>) -> (r: Option<Self::Target<'a>>) {
        read_operator(stream)
    }
}

/// The characters of `contents` from the byte offset `from` on.
pub open spec fn rest_of(contents: &str, from: int) -> Seq<char> {
    decode_utf8(byte_slice(contents.spec_bytes(), from, contents.spec_bytes().len() as int))
}

/// `t` is the token that the lexer reads at the byte offset `from` of
/// `contents`, and it is not empty.
pub open spec fn read_at<'a>(contents: &'a str, from: int, t: Spanned<'a, Token<'a>>) -> bool {
    match first_match(rest_of(contents, from)) {
        Some((kind, len)) => {
            &&& len > 0
            &&& t.span.source == contents
            &&& t.span.from == from
            &&& t.span.to == from + len
            &&& t.span.valid()
            &&& t.value.kind() == kind
            &&& t.value.text().spec_bytes() == t.span.covered()
        },
        None => false,
    }
}

/// The lexer reads nothing more at the byte offset `at`: no pattern matches
/// there, or the match is empty.
pub open spec fn stops_at(contents: &str, at: int) -> bool {
    match first_match(rest_of(contents, at)) {
        Some((_, len)) => len == 0,
        None => true,
    }
}

/// The offset at which reading the tokens `toks` from `start` ends.
pub open spec fn end_of<'a>(start: int, toks: Seq<Spanned<'a, Token<'a>>>) -> int {
    if toks.len() == 0 {
        start
    } else {
        toks.last().span.to as int
    }
}

/// Each token of `toks` is what the lexer reads where the one before it
/// ended, the first at `start`.
pub open spec fn chain<'a>(contents: &'a str, start: int, toks: Seq<Spanned<'a, Token<'a>>>) -> bool {
    forall|k: int| 0 <= k < toks.len() ==> read_at(contents, end_of(start, toks.take(k)), #[trigger] toks[k])
}

/// `toks` are all the tokens that the lexer reads from the byte offset
/// `start` of `contents`, in order.
pub open spec fn tokenizes<'a>(contents: &'a str, start: int, toks: Seq<Spanned<'a, Token<'a>>>) -> bool {
    &&& chain(contents, start, toks)
    &&& stops_at(contents, end_of(start, toks))
}

/// The bytes of the texts of `toks`, one after another.
pub open spec fn texts<'a>(toks: Seq<Spanned<'a, Token<'a>>>) -> Seq<u8>
    decreases toks.len(),
{
    if toks.len() == 0 {
        Seq::empty()
    } else {
        texts(toks.drop_last()) + toks.last().value.text().spec_bytes()
    }
}

/// The tokens read from an offset lie one right after the other, and their
/// texts, put together, are the source text from that offset to where
/// reading ended: lexing loses and adds nothing.
#[verifier::spinoff_prover]
pub proof fn lemma_tokens_tile<'a>(contents: &'a str, start: int, toks: Seq<Spanned<'a, Token<'a>>>)
    requires
        0 <= start <= contents.spec_bytes().len(),
        chain(contents, start, toks),
    ensures
        start <= end_of(start, toks) <= contents.spec_bytes().len(),
        texts(toks) == byte_slice(contents.spec_bytes(), start, end_of(start, toks)),
    decreases toks.len(),
{
    let b = contents.spec_bytes();
    if toks.len() == 0 {
        assert(byte_slice(b, start, start) =~= Seq::<u8>::empty());
    } else {
        let prev = toks.drop_last();
        let n = toks.len() - 1;
        assert forall|k: int| 0 <= k < prev.len() implies read_at(
            contents,
            end_of(start, prev.take(k)),
            #[trigger] prev[k],
        ) by {
            assert(prev.take(k) =~= toks.take(k));
            assert(prev[k] == toks[k]);
        }
        lemma_tokens_tile(contents, start, prev);
        assert(toks.take(n) =~= prev);
        assert(read_at(contents, end_of(start, toks.take(n)), toks[n]));
        let t = toks[n];
        assert(byte_slice(b, start, end_of(start, prev)) + byte_slice(b, t.span.from as int, t.span.to as int)
            =~= byte_slice(b, start, t.span.to as int));
    }
}

/// The first `k` tokens of `a` and of `b` have the same spans, kinds and
/// texts.
pub open spec fn same_tokens<'a>(a: Seq<Spanned<'a, Token<'a>>>, b: Seq<Spanned<'a, Token<'a>>>, k: int) -> bool {
    forall|i: int|
        0 <= i < k ==> {
            &&& #[trigger] a[i].span == b[i].span
            &&& a[i].value.kind() == b[i].value.kind()
            &&& a[i].value.text()@ == b[i].value.text()@
        }
}

/// Two chains of tokens read from the same offset agree as far as both go.
#[verifier::spinoff_prover]
proof fn lemma_chains_agree<'a>(
    contents: &'a str,
    start: int,
    a: Seq<Spanned<'a, Token<'a>>>,
    b: Seq<Spanned<'a, Token<'a>>>,
    k: int,
)
    requires
        chain(contents, start, a),
        chain(contents, start, b),
        0 <= k <= a.len(),
        k <= b.len(),
    ensures
        same_tokens(a, b, k),
        end_of(start, a.take(k)) == end_of(start, b.take(k)),
    decreases k,
{
    if k > 0 {
        lemma_chains_agree(contents, start, a, b, k - 1);
        let e = end_of(start, a.take(k - 1));
        assert(read_at(contents, e, a[k - 1]));
        assert(read_at(contents, end_of(start, b.take(k - 1)), b[k - 1]));
        let (x, y) = (a[k - 1].value.text(), b[k - 1].value.text());
        vstd::utf8::encode_utf8_decode_utf8(x@);
        vstd::utf8::encode_utf8_decode_utf8(y@);
        assert(x@ == y@);
        assert(a.take(k).last() == a[k - 1]);
        assert(b.take(k).last() == b[k - 1]);
    }
}

/// What the lexer reads from a text is determined by the text: two
/// sequences that are both all the tokens read from the same offset have
/// the same number of tokens, with the same spans, kinds and texts.
pub proof fn lemma_tokenizes_unique<'a>(
    contents: &'a str,
    start: int,
    a: Seq<Spanned<'a, Token<'a>>>,
    b: Seq<Spanned<'a, Token<'a>>>,
)
    requires
        tokenizes(contents, start, a),
        tokenizes(contents, start, b),
    ensures
        a.len() == b.len(),
        same_tokens(a, b, a.len() as int),
{
    if a.len() < b.len() {
        let k = a.len() as int;
        lemma_chains_agree(contents, start, a, b, k);
        assert(a.take(k) =~= a);
        assert(read_at(contents, end_of(start, b.take(k)), b[k]));
    } else if b.len() < a.len() {
        let k = b.len() as int;
        lemma_chains_agree(contents, start, a, b, k);
        assert(b.take(k) =~= b);
        assert(read_at(contents, end_of(start, a.take(k)), a[k]));
    } else {
        lemma_chains_agree(contents, start, a, b, a.len() as int);
    }
}

/// Whitespace and comments carry no meaning for the parser.
pub open spec fn is_significant<'a>(t: Spanned<'a, Token<'a>>) -> bool {
    t.value.kind() != TokenKind::Whitespace && t.value.kind() != TokenKind::Comment
}

/// The tokens of `toks` that are neither whitespace nor comments, in order.
pub open spec fn significant<'a>(toks: Seq<Spanned<'a, Token<'a>>>) -> Seq<Spanned<'a, Token<'a>>>
    decreases toks.len(),
{
    if toks.len() == 0 {
        Seq::empty()
    } else if is_significant(toks.last()) {
        significant(toks.drop_last()).push(toks.last())
    } else {
        significant(toks.drop_last())
    }
}

/// The tokens kept for the parser are those of `toks` that are neither
/// whitespace nor comments, all of them, in their order; none of them is
/// whitespace or a comment.
pub proof fn lemma_significant_keeps_the_rest<'a>(toks: Seq<Spanned<'a, Token<'a>>>)
    ensures
        significant(toks) == toks.filter(
            |t: Spanned<'a, Token<'a>>| t.value.kind() != TokenKind::Whitespace && t.value.kind() != TokenKind::Comment,
        ),
        forall|i: int|
            0 <= i < significant(toks).len() ==> {
                &&& #[trigger] significant(toks)[i].value.kind() != TokenKind::Whitespace
                &&& significant(toks)[i].value.kind() != TokenKind::Comment
            },
    decreases toks.len(),
{
    let keep = |t: Spanned<'a, Token<'a>>| t.value.kind() != TokenKind::Whitespace && t.value.kind()
        != TokenKind::Comment;
    reveal(Seq::filter);
    if toks.len() > 0 {
        lemma_significant_keeps_the_rest(toks.drop_last());
        assert(toks.filter(keep) == if keep(toks.last()) {
            toks.drop_last().filter(keep).push(toks.last())
        } else {
            toks.drop_last().filter(keep)
        });
    }
    broadcast use vstd::seq_lib::group_filter_ensures;
    assert(significant(toks) == toks.filter(keep));
}

/// The tokens of `toks` that are neither whitespace nor comments.
pub fn significant_tokens<'a>(toks: &Vec<Spanned<'a, Token<'a>>>) -> (r: Vec<Spanned<'a, Token<'a>>>)
    ensures
        r@ == significant(toks@),
{
    let mut kept: Vec<Spanned<'a, Token<'a>>> = Vec::new();
    let mut i: usize = 0;
    assert(toks@.take(0) =~= Seq::<Spanned<'a, Token<'a>>>::empty());
    while i < toks.len()
        invariant
            i <= toks@.len(),
            kept@ == significant(toks@.take(i as int)),
        decreases toks@.len() - i,
    {
        let t = toks[i];
        let k = t.value.kind_of();
        assert(toks@.take(i + 1).drop_last() =~= toks@.take(i as int));
        if k != TokenKind::Whitespace && k != TokenKind::Comment {
            kept.push(t);
        }
        i = i + 1;
    }
    assert(toks@.take(toks@.len() as int) =~= toks@);
    kept
}

impl<'a> From<Comment<'a>> for Token<'a> {
    fn from(v: Comment<'a>) -> (r: Self) {
        Token::Comment(v)
    }
}

impl<'a> FromSpecImpl<Comment<'a>> for Token<'a> {
    open spec fn obeys_from_spec() -> bool {
        true
    }

    open spec fn from_spec(v: Comment<'a>) -> Self {
        Token::Comment(v)
    }
}

impl<'a> From<Literal<'a>> for Token<'a> {
    fn from(v: Literal<'a>) -> (r: Self) {
        Token::Literal(v)
    }
}

impl<'a> FromSpecImpl<Literal<'a>> for Token<'a> {
    open spec fn obeys_from_spec() -> bool {
        true
    }

    open spec fn from_spec(v: Literal<'a>) -> Self {
        Token::Literal(v)
    }
}

impl<'a> From<Identifier<'a>> for Token<'a> {
    fn from(v: Identifier<'a>) -> (r: Self) {
        Token::Identifier(v)
    }
}

impl<'a> FromSpecImpl<Identifier<'a>> for Token<'a> {
    open spec fn obeys_from_spec() -> bool {
        true
    }

    open spec fn from_spec(v: Identifier<'a>) -> Self {
        Token::Identifier(v)
    }
}

impl<'a> From<Separator<'a>> for Token<'a> {
    fn from(v: Separator<'a>) -> (r: Self) {
        Token::Separator(v)
    }
}

impl<'a> FromSpecImpl<Separator<'a>> for Token<'a> {
    open spec fn obeys_from_spec() -> bool {
        true
    }

    open spec fn from_spec(v: Separator<'a>) -> Self {
        Token::Separator(v)
    }
}

impl<'a> From<Whitespace<'a>> for Token<'a> {
    fn from(v: Whitespace<'a>) -> (r: Self) {
        Token::Whitespace(v)
    }
}

impl<'a> FromSpecImpl<Whitespace<'a>> for Token<'a> {
    open spec fn obeys_from_spec() -> bool {
        true
    }

    open spec fn from_spec(v: Whitespace<'a>) -> Self {
        Token::Whitespace(v)
    }
}

impl<'a> From<Operator<'a>> for Token<'a> {
    fn from(v: Operator<'a>) -> (r: Self) {
        Token::Operator(v)
    }
}

impl<'a> FromSpecImpl<Operator<'a>> for Token<'a> {
    open spec fn obeys_from_spec() -> bool {
        true
    }

    open spec fn from_spec(v: Operator<'a>) -> Self {
        Token::Operator(v)
    }
}

} // verus!
