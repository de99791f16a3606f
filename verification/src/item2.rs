//! A group item that reads its brackets as literal tokens, with its parts
//! read in place.
use crate::item::Expression;
use crate::item::ExpressionModel;
use crate::item::utility::delimiter;
use crate::lexer::Parseable;
use crate::lexer::Token;
use crate::lexer::TokenKind;
use crate::lexer::TokenStream;
use crate::lexer::next_is;
use crate::span::Spanned;
use vstd::prelude::*;

verus! {

#[allow(dead_code)]
#[derive(Debug, PartialEq, Eq)]
struct Group<'a> {
    expr: Box<Expression<'a>>,
}

/// `group = "(", expression, ")"`, the brackets literal tokens.
pub open spec fn group<'a>(t: Seq<Spanned<'a, Token<'a>>>, i: nat) -> (Option<ExpressionModel<'a>>, nat) {
    match delimiter(t, i, TokenKind::Literal, "("@) {
        (Some(_), p) => match <Expression<'a> as Parseable>::spec_parse(t, p) {
            (Some(e), q) => match delimiter(t, q, TokenKind::Literal, ")"@) {
                (Some(_), k) => (Some(e), k),
                (None, k) => (None, k),
            },
            (None, q) => (None, q),
        },
        (None, p) => (None, p),
    }
}

impl<'x> Parseable for Group<'x> {
    type Target<'a> = Group<'a>;

    type Model<'a> = ExpressionModel<'a>;

    closed spec fn model<'a>(target: Self::Target<'a>) -> Self::Model<'a> {
        <Expression<'a> as Parseable>::model(*target.expr)
    }

    open spec fn spec_parse<'a>(tokens: Seq<Spanned<'a, Token<'a>>>, index: nat) -> (Option<Self::Model<'a>>, nat) {
        group(tokens, index)
    }

    fn parse<'a>(stream: &mut TokenStream<'a>) -> (r: Option<Self::Target<'a>>) {
        if !next_is(stream, TokenKind::Literal, "(") {
            return None;
        }
        let expr = match <Expression<'a> as Parseable>::parse(stream) {
            Some(e) => e,
            None => return None,
        };
        if !next_is(stream, TokenKind::Literal, ")") {
            return None;
        }
        Some(Group { expr: Box::new(expr) })
    }
}

} // verus!
