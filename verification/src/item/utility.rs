use std::marker::PhantomData;
use crate::lexer::Parseable;
use crate::lexer::Token;
use crate::lexer::TokenKind;
use crate::lexer::TokenStream;
use crate::lexer::is_token;
use crate::lexer::next_is;
use crate::span::Spanned;
use vstd::prelude::*;

verus! {

/// A `,` separator token; the token is read whether or not it is one.
pub struct CommaDelimiter;

/// A `::` operator token; the token is read whether or not it is one.
pub struct SegmentDelimiter;

/// Reads the next token and tells whether it is of kind `kind` with text
/// `text`, as a delimiter.
pub open spec fn delimiter<'a>(t: Seq<Spanned<'a, Token<'a>>>, i: nat, kind: TokenKind, text: Seq<char>) -> (
    Option<()>,
    nat,
) {
    (
        if is_token(t, i, kind, text) {
            Some(())
        } else {
            None
        },
        if i < t.len() {
            i + 1
        } else {
            i
        },
    )
}

impl Parseable for CommaDelimiter {
    type Target<'a> = ();

    type Model<'a> = ();

    open spec fn model<'a>(target: Self::Target<'a>) -> Self::Model<'a> {
        target
    }

    open spec fn spec_parse<'a>(tokens: Seq<Spanned<'a, Token<'a>>>, index: nat) -> (Option<Self::Model<'a>>, nat) {
        delimiter(tokens, index, TokenKind::Separator, ","@)
    }

    fn parse<'a>(stream: &mut TokenStream<'a>) -> (r: Option<Self::Target<'a>>) {
        if next_is(stream, TokenKind::Separator, ",") {
            Some(())
        } else {
            None
        }
    }
}

impl Parseable for SegmentDelimiter {
    type Target<'a> = ();

    type Model<'a> = ();

    open spec fn model<'a>(target: Self::Target<'a>) -> Self::Model<'a> {
        target
    }

    open spec fn spec_parse<'a>(tokens: Seq<Spanned<'a, Token<'a>>>, index: nat) -> (Option<Self::Model<'a>>, nat) {
        delimiter(tokens, index, TokenKind::Operator, "::"@)
    }

    fn parse<'a>(stream: &mut TokenStream<'a>) -> (r: Option<Self::Target<'a>>) {
        if next_is(stream, TokenKind::Operator, "::") {
            Some(())
        } else {
            None
        }
    }
}

/// Items separated by `Delimiter`: after the first item, a delimiter and an
/// item, repeatedly, each pair read back when it cannot be completed. With
/// `TRAILING`, one more delimiter is read after the last item. Without
/// `REQUIRED`, no first item gives no items.
///
/// The first item and the trailing delimiter are read in place: when they
/// fail, what they read stays read.
pub struct List<Item, Delimiter, const TRAILING: bool, const REQUIRED: bool>(
    PhantomData<Item>,
    PhantomData<Delimiter>,
);

pub type OneOrMore<Item, Delimiter, const TRAILING: bool> = List<Item, Delimiter, TRAILING, true>;

pub type ZeroOrMore<Item, Delimiter, const TRAILING: bool> = List<Item, Delimiter, TRAILING, false>;

/// A delimiter followed by an item, read back when either fails.
pub open spec fn delimited<'a, I: Parseable, D: Parseable>(t: Seq<Spanned<'a, Token<'a>>>, i: nat) -> Option<
    (I::Model<'a>, nat),
> {
    match D::spec_parse(t, i) {
        (Some(_), p) => match I::spec_parse(t, p) {
            (Some(m), q) => Some((m, q)),
            (None, _) => None,
        },
        (None, _) => None,
    }
}

/// Delimiters each followed by an item, appended to `acc`, for as long as
/// both can be read; a pair that reads nothing ends them.
pub open spec fn delimited_items<'a, I: Parseable, D: Parseable>(
    t: Seq<Spanned<'a, Token<'a>>>,
    i: nat,
    acc: Seq<I::Model<'a>>,
) -> (Seq<I::Model<'a>>, nat)
    decreases t.len() - i,
{
    match delimited::<I, D>(t, i) {
        Some((m, p)) => if i < p <= t.len() {
            delimited_items::<I, D>(t, p, acc.push(m))
        } else {
            (acc, i)
        },
        None => (acc, i),
    }
}

impl<I: Parseable, D: Parseable, const TRAILING: bool, const REQUIRED: bool> Parseable for List<
    I,
    D,
    TRAILING,
    REQUIRED,
> {
    type Target<'a> = Vec<I::Target<'a>>;

    type Model<'a> = Seq<I::Model<'a>>;

    open spec fn model<'a>(target: Self::Target<'a>) -> Self::Model<'a> {
        target@.map_values(|x: I::Target<'a>| I::model(x))
    }

    open spec fn spec_parse<'a>(tokens: Seq<Spanned<'a, Token<'a>>>, index: nat) -> (Option<Self::Model<'a>>, nat) {
        match I::spec_parse(tokens, index) {
            (Some(m), p) => {
                let (items, q) = delimited_items::<I, D>(tokens, p, seq![m]);
                if TRAILING {
                    (Some(items), D::spec_parse(tokens, q).1)
                } else {
                    (Some(items), q)
                }
            },
            (None, p) => if REQUIRED {
                (None, p)
            } else {
                (Some(Seq::empty()), p)
            },
        }
    }

    fn parse<'a>(stream: &mut TokenStream<'a>) -> (r: Option<Self::Target<'a>>) {
        let mut items: Vec<I::Target<'a>> = Vec::new();
        match I::parse(stream) {
            Some(first) => {
                items.push(first);
                let ghost models = items@.map_values(|x: I::Target<'a>| I::model(x));
                assert(models =~= seq![I::model(first)]);
                let ghost p = stream.index();
                loop
                    invariant_except_break
                        stream.tokens() == old(stream).tokens(),
                        p <= stream.index() <= stream.tokens().len(),
                        delimited_items::<I, D>(stream.tokens(), p, seq![I::model(first)])
                            == delimited_items::<I, D>(
                            stream.tokens(),
                            stream.index(),
                            items@.map_values(|x: I::Target<'a>| I::model(x)),
                        ),
                    ensures
                        stream.tokens() == old(stream).tokens(),
                        p <= stream.index() <= stream.tokens().len(),
                        delimited_items::<I, D>(stream.tokens(), p, seq![I::model(first)]) == (
                            items@.map_values(|x: I::Target<'a>| I::model(x)),
                            stream.index(),
                        ),
                    decreases stream.tokens().len() - stream.index(),
                {
                    let save = stream.position();
                    let next = match D::parse(stream) {
                        Some(_) => I::parse(stream),
                        None => None,
                    };
                    match next {
                        Some(x) => {
                            if stream.position() == save {
                                break;
                            }
                            let ghost before = items@;
                            items.push(x);
                            assert(items@.map_values(|x: I::Target<'a>| I::model(x)) =~= before.map_values(
                                |x: I::Target<'a>| I::model(x),
                            ).push(I::model(x)));
                        },
                        None => {
                            stream.seek(save);
                            break;
                        },
                    }
                }
                if TRAILING {
                    D::parse(stream);
                }
                Some(items)
            },
            None => {
                if REQUIRED {
                    None
                } else {
                    Some(items)
                }
            },
        }
    }
}

/// An item of `T` if one can be read: always succeeds, and keeps what a
/// failed item read.
#[derive(Debug, PartialEq, Eq)]
pub struct Optional<T>(PhantomData<T>);

impl<T: Parseable> Parseable for Optional<T> {
    type Target<'a> = Option<T::Target<'a>>;

    type Model<'a> = Option<T::Model<'a>>;

    open spec fn model<'a>(target: Self::Target<'a>) -> Self::Model<'a> {
        match target {
            Some(x) => Some(T::model(x)),
            None => None,
        }
    }

    open spec fn spec_parse<'a>(tokens: Seq<Spanned<'a, Token<'a>>>, index: nat) -> (Option<Self::Model<'a>>, nat) {
        match T::spec_parse(tokens, index) {
            (Some(m), p) => (Some(Some(m)), p),
            (None, p) => (Some(None), p),
        }
    }

    fn parse<'a>(stream: &mut TokenStream<'a>) -> (r: Option<Self::Target<'a>>) {
        match T::parse(stream) {
            Some(x) => Some(Some(x)),
            None => Some(None),
        }
    }
}

/// An item of `T`, boxed; read back when it cannot be read.
impl<T: Parseable> Parseable for Box<T> {
    type Target<'a> = Box<T::Target<'a>>;

    type Model<'a> = T::Model<'a>;

    open spec fn model<'a>(target: Self::Target<'a>) -> Self::Model<'a> {
        T::model(*target)
    }

    open spec fn spec_parse<'a>(tokens: Seq<Spanned<'a, Token<'a>>>, index: nat) -> (Option<Self::Model<'a>>, nat) {
        match T::spec_parse(tokens, index) {
            (Some(m), p) => (Some(m), p),
            (None, _) => (None, index),
        }
    }

    fn parse<'a>(stream: &mut TokenStream<'a>) -> (r: Option<Self::Target<'a>>) {
        let start = stream.position();
        match T::parse(stream) {
            Some(x) => Some(Box::new(x)),
            None => {
                stream.seek(start);
                None
            },
        }
    }
}

} // verus!
