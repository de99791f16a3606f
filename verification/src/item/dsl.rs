//! Items written with the item notation: paths of identifiers with generic
//! arguments, and the expressions built on them.
//!
//! Unlike the items of [`crate::item`], these read their parts in place: a
//! part that fails leaves read what it read, unless it is one that reads
//! itself back (a single token of a kind, a boxed part, or a delimiter with
//! the item after it). An optional part always succeeds, and keeps what it
//! read when its part fails.
use crate::lexer::Identifier;
use crate::lexer::Literal;
use crate::lexer::Operator;
use crate::lexer::Parseable;
use crate::lexer::Token;
use crate::lexer::TokenKind;
use crate::lexer::TokenStream;
use crate::lexer::identifier_at;
use crate::lexer::literal_at;
use crate::lexer::operator_at;
use crate::lexer::is_token;
use crate::lexer::next_is;
use crate::lexer::read_identifier;
use crate::lexer::read_literal;
use crate::lexer::read_operator;
use crate::item::in_order;
use crate::item::utility::CommaDelimiter;
use crate::item::utility::delimiter;
use crate::item::utility::Optional;
use crate::item::utility::ZeroOrMore;
use crate::span::Spanned;
use vstd::prelude::*;

verus! {

#[derive(Debug, PartialEq, Eq)]
pub struct Generic<'a> {
    pub types: Vec<Box<Type<'a>>>,
    pub ty: Type<'a>,
}

#[derive(Debug, PartialEq, Eq)]
pub struct Segment<'a> {
    pub ident: Spanned<'a, Identifier<'a>>,
    pub generic: Box<Option<Generic<'a>>>,
}

#[derive(Debug, PartialEq, Eq)]
pub struct Type<'a> {
    pub segments: Vec<Segment<'a>>,
}

#[derive(Debug, PartialEq, Eq)]
pub struct Group<'a> {
    pub expr: Expression<'a>,
}

#[derive(Debug, PartialEq, Eq)]
pub enum UnaryExpression<'a> {
    Group(Group<'a>),
    Identifier(Spanned<'a, Identifier<'a>>),
    Literal(Spanned<'a, Literal<'a>>),
}

#[derive(Debug, PartialEq, Eq)]
pub struct UnaryOperation<'a> {
    pub op: Spanned<'a, Operator<'a>>,
    pub expr: UnaryExpression<'a>,
}

#[derive(Debug, PartialEq, Eq)]
pub struct Invocation<'a> {
    pub expr: UnaryExpression<'a>,
    pub generic: Option<Generic<'a>>,
    pub args: Vec<SingularExpression<'a>>,
}

#[derive(Debug, PartialEq, Eq)]
pub enum SingularExpression<'a> {
    Type(Type<'a>),
}

#[derive(Debug, PartialEq, Eq)]
pub enum Expression<'a> {
    Type(Type<'a>),
}

/// The model of a [`Type`].
pub struct TypeModel<'a> {
    pub segments: Seq<SegmentModel<'a>>,
}

/// The model of a [`Segment`].
pub struct SegmentModel<'a> {
    pub ident: Spanned<'a, Identifier<'a>>,
    pub generic: Option<GenericModel<'a>>,
}

/// The model of a [`Generic`].
pub struct GenericModel<'a> {
    pub types: Seq<TypeModel<'a>>,
    pub ty: Box<TypeModel<'a>>,
}

/// The model of a [`UnaryExpression`].
pub enum UnaryModel<'a> {
    Group(TypeModel<'a>),
    Identifier(Spanned<'a, Identifier<'a>>),
    Literal(Spanned<'a, Literal<'a>>),
}

pub open spec fn type_model<'a>(x: Type<'a>) -> TypeModel<'a>
    decreases x,
{
    TypeModel { segments: segments_model(x.segments@) }
}

pub open spec fn segments_model<'a>(s: Seq<Segment<'a>>) -> Seq<SegmentModel<'a>>
    decreases s,
{
    if s.len() == 0 {
        Seq::empty()
    } else {
        segments_model(s.drop_last()).push(segment_model(s.last()))
    }
}

pub open spec fn segment_model<'a>(x: Segment<'a>) -> SegmentModel<'a>
    decreases x,
{
    SegmentModel {
        ident: x.ident,
        generic: match *x.generic {
            Some(g) => Some(generic_model(g)),
            None => None,
        },
    }
}

pub open spec fn generic_model<'a>(g: Generic<'a>) -> GenericModel<'a>
    decreases g,
{
    GenericModel { types: types_model(g.types@), ty: Box::new(type_model(g.ty)) }
}

pub open spec fn types_model<'a>(s: Seq<Box<Type<'a>>>) -> Seq<TypeModel<'a>>
    decreases s,
{
    if s.len() == 0 {
        Seq::empty()
    } else {
        types_model(s.drop_last()).push(type_model(*s.last()))
    }
}

/// `type = segment, { "::", segment }`
pub open spec fn type_syntax<'a>(t: Seq<Spanned<'a, Token<'a>>>, i: nat) -> (Option<TypeModel<'a>>, nat)
    decreases t.len() - i, 10int,
{
    match segment(t, i) {
        (Some(s), p) => if i <= p <= t.len() {
            let (segments, q) = more_segments(t, p, seq![s]);
            (Some(TypeModel { segments }), q)
        } else {
            (None, i)
        },
        (None, p) => (None, p),
    }
}

/// `"::"` and a segment, repeatedly, appended to `acc`; a pair that cannot
/// be completed is read back and ends them.
pub open spec fn more_segments<'a>(t: Seq<Spanned<'a, Token<'a>>>, i: nat, acc: Seq<SegmentModel<'a>>) -> (
    Seq<SegmentModel<'a>>,
    nat,
)
    decreases t.len() - i, 9int,
{
    if is_token(t, i, TokenKind::Operator, "::"@) {
        match segment(t, i + 1) {
            (Some(s), p) => if i < p <= t.len() {
                more_segments(t, p, acc.push(s))
            } else {
                (acc, i)
            },
            (None, _) => (acc, i),
        }
    } else {
        (acc, i)
    }
}

/// `segment = identifier, [ generic ]`
pub open spec fn segment<'a>(t: Seq<Spanned<'a, Token<'a>>>, i: nat) -> (Option<SegmentModel<'a>>, nat)
    decreases t.len() - i, 8int,
{
    match identifier_at(t, i) {
        Some(ident) => {
            let (generic, p) = optional_generic(t, i + 1);
            (Some(SegmentModel { ident, generic }), p)
        },
        None => (None, i),
    }
}

/// A generic if one can be read; what a failed one read stays read.
pub open spec fn optional_generic<'a>(t: Seq<Spanned<'a, Token<'a>>>, i: nat) -> (Option<GenericModel<'a>>, nat)
    decreases t.len() - i, 7int,
{
    generic(t, i)
}

/// `generic = "<", types, type, ">"`, with `"<"` a separator token and the
/// types separated by commas.
pub open spec fn generic<'a>(t: Seq<Spanned<'a, Token<'a>>>, i: nat) -> (Option<GenericModel<'a>>, nat)
    decreases t.len() - i, 6int,
{
    match delimiter(t, i, TokenKind::Separator, "<"@) {
        (Some(_), p) => {
            let (types, q) = type_list(t, p);
            if i < q <= t.len() {
                match type_syntax(t, q) {
                    (Some(ty), k) => match delimiter(t, k, TokenKind::Separator, ">"@) {
                        (Some(_), e) => (Some(GenericModel { types, ty: Box::new(ty) }), e),
                        (None, e) => (None, e),
                    },
                    (None, k) => (None, k),
                }
            } else {
                (None, q)
            }
        },
        (None, p) => (None, p),
    }
}

/// Types separated by commas, each read back when it cannot be read; none
/// when the first cannot.
pub open spec fn type_list<'a>(t: Seq<Spanned<'a, Token<'a>>>, i: nat) -> (Seq<TypeModel<'a>>, nat)
    decreases t.len() - i, 12int,
{
    match type_syntax(t, i) {
        (Some(ty), p) => if i <= p <= t.len() {
            more_types(t, p, seq![ty])
        } else {
            (Seq::empty(), i)
        },
        (None, _) => (Seq::empty(), i),
    }
}

/// A comma and a type, repeatedly, appended to `acc`; a pair that cannot be
/// completed is read back and ends them.
pub open spec fn more_types<'a>(t: Seq<Spanned<'a, Token<'a>>>, i: nat, acc: Seq<TypeModel<'a>>) -> (
    Seq<TypeModel<'a>>,
    nat,
)
    decreases t.len() - i, 11int,
{
    if is_token(t, i, TokenKind::Separator, ","@) {
        match type_syntax(t, i + 1) {
            (Some(ty), p) => if i < p <= t.len() {
                more_types(t, p, acc.push(ty))
            } else {
                (acc, i)
            },
            (None, _) => (acc, i),
        }
    } else {
        (acc, i)
    }
}

fn parse_type<'a>(stream: &mut TokenStream<'a>) -> (r: Option<Type<'a>>)
    ensures
        final(stream).tokens() == old(stream).tokens(),
        old(stream).index() <= final(stream).index() <= final(stream).tokens().len(),
        type_syntax(old(stream).tokens(), old(stream).index()) == (
            match r {
                Some(x) => Some(type_model(x)),
                None => None,
            },
            final(stream).index(),
        ),
        r is Some ==> old(stream).index() < final(stream).index(),
    decreases old(stream).tokens().len() - old(stream).index(), 10int,
{
    let first = match parse_segment(stream) {
        Some(s) => s,
        None => return None,
    };
    let mut segments: Vec<Segment<'a>> = Vec::new();
    segments.push(first);
    assert(segments_model(segments@) =~= seq![segment_model(first)]) by {
        assert(segments@.drop_last() =~= Seq::<Segment<'a>>::empty());
        assert(segments_model(segments@.drop_last()) =~= Seq::empty());
    }
    let ghost p = stream.index();
    loop
        invariant_except_break
            stream.tokens() == old(stream).tokens(),
            p <= stream.index() <= stream.tokens().len(),
            old(stream).index() < p,
            more_segments(stream.tokens(), p, seq![segment_model(first)]) == more_segments(
                stream.tokens(),
                stream.index(),
                segments_model(segments@),
            ),
        ensures
            stream.tokens() == old(stream).tokens(),
            p <= stream.index() <= stream.tokens().len(),
            more_segments(stream.tokens(), p, seq![segment_model(first)]) == (
                segments_model(segments@),
                stream.index(),
            ),
        decreases stream.tokens().len() - stream.index(),
    {
        let save = stream.position();
        if !next_is(stream, TokenKind::Operator, "::") {
            stream.seek(save);
            break;
        }
        match parse_segment(stream) {
            Some(s) => {
                let ghost before = segments@;
                segments.push(s);
                assert(segments@.drop_last() =~= before);
            },
            None => {
                stream.seek(save);
                break;
            },
        }
    }
    Some(Type { segments })
}

fn parse_segment<'a>(stream: &mut TokenStream<'a>) -> (r: Option<Segment<'a>>)
    ensures
        final(stream).tokens() == old(stream).tokens(),
        old(stream).index() <= final(stream).index() <= final(stream).tokens().len(),
        segment(old(stream).tokens(), old(stream).index()) == (
            match r {
                Some(x) => Some(segment_model(x)),
                None => None,
            },
            final(stream).index(),
        ),
        r is Some ==> old(stream).index() < final(stream).index(),
    decreases old(stream).tokens().len() - old(stream).index(), 8int,
{
    let ident = match read_identifier(stream) {
        Some(x) => x,
        None => return None,
    };
    let generic = parse_optional_generic(stream);
    Some(Segment { ident, generic: Box::new(generic) })
}

fn parse_optional_generic<'a>(stream: &mut TokenStream<'a>) -> (r: Option<Generic<'a>>)
    ensures
        final(stream).tokens() == old(stream).tokens(),
        old(stream).index() <= final(stream).index() <= final(stream).tokens().len(),
        optional_generic(old(stream).tokens(), old(stream).index()) == (
            match r {
                Some(x) => Some(generic_model(x)),
                None => None,
            },
            final(stream).index(),
        ),
    decreases old(stream).tokens().len() - old(stream).index(), 7int,
{
    parse_generic(stream)
}

fn parse_generic<'a>(stream: &mut TokenStream<'a>) -> (r: Option<Generic<'a>>)
    ensures
        final(stream).tokens() == old(stream).tokens(),
        old(stream).index() <= final(stream).index() <= final(stream).tokens().len(),
        generic(old(stream).tokens(), old(stream).index()) == (
            match r {
                Some(x) => Some(generic_model(x)),
                None => None,
            },
            final(stream).index(),
        ),
    decreases old(stream).tokens().len() - old(stream).index(), 6int,
{
    if !next_is(stream, TokenKind::Separator, "<") {
        return None;
    }
    let types = parse_type_list(stream);
    let ty = match parse_type(stream) {
        Some(x) => x,
        None => return None,
    };
    if !next_is(stream, TokenKind::Separator, ">") {
        return None;
    }
    Some(Generic { types, ty })
}

fn parse_type_list<'a>(stream: &mut TokenStream<'a>) -> (r: Vec<Box<Type<'a>>>)
    ensures
        final(stream).tokens() == old(stream).tokens(),
        old(stream).index() <= final(stream).index() <= final(stream).tokens().len(),
        type_list(old(stream).tokens(), old(stream).index()) == (types_model(r@), final(stream).index()),
    decreases old(stream).tokens().len() - old(stream).index(), 12int,
{
    let start = stream.position();
    let first = match parse_type(stream) {
        Some(x) => x,
        None => {
            stream.seek(start);
            return Vec::new();
        },
    };
    let mut types: Vec<Box<Type<'a>>> = Vec::new();
    types.push(Box::new(first));
    assert(types_model(types@) =~= seq![type_model(first)]) by {
        assert(types@.drop_last() =~= Seq::<Box<Type<'a>>>::empty());
        assert(types_model(types@.drop_last()) =~= Seq::empty());
    }
    let ghost p = stream.index();
    loop
        invariant_except_break
            stream.tokens() == old(stream).tokens(),
            p <= stream.index() <= stream.tokens().len(),
            old(stream).index() < p,
            more_types(stream.tokens(), p, seq![type_model(first)]) == more_types(
                stream.tokens(),
                stream.index(),
                types_model(types@),
            ),
        ensures
            stream.tokens() == old(stream).tokens(),
            p <= stream.index() <= stream.tokens().len(),
            more_types(stream.tokens(), p, seq![type_model(first)]) == (types_model(types@), stream.index()),
        decreases stream.tokens().len() - stream.index(),
    {
        let save = stream.position();
        if !next_is(stream, TokenKind::Separator, ",") {
            stream.seek(save);
            break;
        }
        match parse_type(stream) {
            Some(x) => {
                let ghost before = types@;
                types.push(Box::new(x));
                assert(types@.drop_last() =~= before);
            },
            None => {
                stream.seek(save);
                break;
            },
        }
    }
    types
}

impl<'x> Parseable for Type<'x> {
    type Target<'a> = Type<'a>;

    type Model<'a> = TypeModel<'a>;

    open spec fn model<'a>(target: Self::Target<'a>) -> Self::Model<'a> {
        type_model(target)
    }

    open spec fn spec_parse<'a>(tokens: Seq<Spanned<'a, Token<'a>>>, index: nat) -> (Option<Self::Model<'a>>, nat) {
        type_syntax(tokens, index)
    }

    fn parse<'a>(stream: &mut TokenStream<'a>) -> (r: Option<Self::Target<'a>>) {
        parse_type(stream)
    }
}

impl<'x> Parseable for Segment<'x> {
    type Target<'a> = Segment<'a>;

    type Model<'a> = SegmentModel<'a>;

    open spec fn model<'a>(target: Self::Target<'a>) -> Self::Model<'a> {
        segment_model(target)
    }

    open spec fn spec_parse<'a>(tokens: Seq<Spanned<'a, Token<'a>>>, index: nat) -> (Option<Self::Model<'a>>, nat) {
        segment(tokens, index)
    }

    fn parse<'a>(stream: &mut TokenStream<'a>) -> (r: Option<Self::Target<'a>>) {
        parse_segment(stream)
    }
}

impl<'x> Parseable for Generic<'x> {
    type Target<'a> = Generic<'a>;

    type Model<'a> = GenericModel<'a>;

    open spec fn model<'a>(target: Self::Target<'a>) -> Self::Model<'a> {
        generic_model(target)
    }

    open spec fn spec_parse<'a>(tokens: Seq<Spanned<'a, Token<'a>>>, index: nat) -> (Option<Self::Model<'a>>, nat) {
        generic(tokens, index)
    }

    fn parse<'a>(stream: &mut TokenStream<'a>) -> (r: Option<Self::Target<'a>>) {
        parse_generic(stream)
    }
}

impl<'x> Parseable for Expression<'x> {
    type Target<'a> = Expression<'a>;

    type Model<'a> = TypeModel<'a>;

    open spec fn model<'a>(target: Self::Target<'a>) -> Self::Model<'a> {
        match target {
            Expression::Type(x) => type_model(x),
        }
    }

    /// `expression = type`
    open spec fn spec_parse<'a>(tokens: Seq<Spanned<'a, Token<'a>>>, index: nat) -> (Option<Self::Model<'a>>, nat) {
        type_syntax(tokens, index)
    }

    fn parse<'a>(stream: &mut TokenStream<'a>) -> (r: Option<Self::Target<'a>>) {
        match parse_type(stream) {
            Some(x) => Some(Expression::Type(x)),
            None => None,
        }
    }
}

impl<'x> Parseable for SingularExpression<'x> {
    type Target<'a> = SingularExpression<'a>;

    type Model<'a> = TypeModel<'a>;

    open spec fn model<'a>(target: Self::Target<'a>) -> Self::Model<'a> {
        match target {
            SingularExpression::Type(x) => type_model(x),
        }
    }

    /// `singular_expression = type`
    open spec fn spec_parse<'a>(tokens: Seq<Spanned<'a, Token<'a>>>, index: nat) -> (Option<Self::Model<'a>>, nat) {
        type_syntax(tokens, index)
    }

    fn parse<'a>(stream: &mut TokenStream<'a>) -> (r: Option<Self::Target<'a>>) {
        match parse_type(stream) {
            Some(x) => Some(SingularExpression::Type(x)),
            None => None,
        }
    }
}

/// `group = "(", expression, ")"`
pub open spec fn group_syntax<'a>(t: Seq<Spanned<'a, Token<'a>>>, i: nat) -> (Option<TypeModel<'a>>, nat) {
    match delimiter(t, i, TokenKind::Separator, "("@) {
        (Some(_), p) => match type_syntax(t, p) {
            (Some(e), q) => match delimiter(t, q, TokenKind::Separator, ")"@) {
                (Some(_), k) => (Some(e), k),
                (None, k) => (None, k),
            },
            (None, q) => (None, q),
        },
        (None, p) => (None, p),
    }
}

impl<'x> Parseable for Group<'x> {
    type Target<'a> = Group<'a>;

    type Model<'a> = TypeModel<'a>;

    open spec fn model<'a>(target: Self::Target<'a>) -> Self::Model<'a> {
        match target.expr {
            Expression::Type(x) => type_model(x),
        }
    }

    open spec fn spec_parse<'a>(tokens: Seq<Spanned<'a, Token<'a>>>, index: nat) -> (Option<Self::Model<'a>>, nat) {
        group_syntax(tokens, index)
    }

    fn parse<'a>(stream: &mut TokenStream<'a>) -> (r: Option<Self::Target<'a>>) {
        if !next_is(stream, TokenKind::Separator, "(") {
            return None;
        }
        let ty = match parse_type(stream) {
            Some(x) => x,
            None => return None,
        };
        if !next_is(stream, TokenKind::Separator, ")") {
            return None;
        }
        Some(Group { expr: Expression::Type(ty) })
    }
}

/// `unary_expression = group | identifier | literal`, each tried where the
/// one before it stopped reading.
pub open spec fn unary_syntax<'a>(t: Seq<Spanned<'a, Token<'a>>>, i: nat) -> (Option<UnaryModel<'a>>, nat) {
    match group_syntax(t, i) {
        (Some(e), p) => (Some(UnaryModel::Group(e)), p),
        (None, p) => match identifier_at(t, p) {
            Some(x) => (Some(UnaryModel::Identifier(x)), p + 1),
            None => match literal_at(t, p) {
                Some(x) => (Some(UnaryModel::Literal(x)), p + 1),
                None => (None, p),
            },
        },
    }
}

pub open spec fn unary_model<'a>(x: UnaryExpression<'a>) -> UnaryModel<'a> {
    match x {
        UnaryExpression::Group(g) => UnaryModel::Group(
            match g.expr {
                Expression::Type(y) => type_model(y),
            },
        ),
        UnaryExpression::Identifier(y) => UnaryModel::Identifier(y),
        UnaryExpression::Literal(y) => UnaryModel::Literal(y),
    }
}

impl<'x> Parseable for UnaryExpression<'x> {
    type Target<'a> = UnaryExpression<'a>;

    type Model<'a> = UnaryModel<'a>;

    open spec fn model<'a>(target: Self::Target<'a>) -> Self::Model<'a> {
        unary_model(target)
    }

    open spec fn spec_parse<'a>(tokens: Seq<Spanned<'a, Token<'a>>>, index: nat) -> (Option<Self::Model<'a>>, nat) {
        unary_syntax(tokens, index)
    }

    fn parse<'a>(stream: &mut TokenStream<'a>) -> (r: Option<Self::Target<'a>>) {
        if let Some(g) = <Group<'a> as Parseable>::parse(stream) {
            return Some(UnaryExpression::Group(g));
        }
        if let Some(x) = read_identifier(stream) {
            return Some(UnaryExpression::Identifier(x));
        }
        match read_literal(stream) {
            Some(x) => Some(UnaryExpression::Literal(x)),
            None => None,
        }
    }
}

/// `unary_operation = operator, unary_expression`
pub open spec fn unary_operation_syntax<'a>(t: Seq<Spanned<'a, Token<'a>>>, i: nat) -> (
    Option<(Spanned<'a, Operator<'a>>, UnaryModel<'a>)>,
    nat,
) {
    match operator_at(t, i) {
        Some(op) => match unary_syntax(t, i + 1) {
            (Some(e), p) => (Some((op, e)), p),
            (None, p) => (None, p),
        },
        None => (None, i),
    }
}

impl<'x> Parseable for UnaryOperation<'x> {
    type Target<'a> = UnaryOperation<'a>;

    type Model<'a> = (Spanned<'a, Operator<'a>>, UnaryModel<'a>);

    open spec fn model<'a>(target: Self::Target<'a>) -> Self::Model<'a> {
        (target.op, unary_model(target.expr))
    }

    open spec fn spec_parse<'a>(tokens: Seq<Spanned<'a, Token<'a>>>, index: nat) -> (Option<Self::Model<'a>>, nat) {
        unary_operation_syntax(tokens, index)
    }

    fn parse<'a>(stream: &mut TokenStream<'a>) -> (r: Option<Self::Target<'a>>) {
        let op = match read_operator(stream) {
            Some(x) => x,
            None => return None,
        };
        match <UnaryExpression<'a> as Parseable>::parse(stream) {
            Some(expr) => Some(UnaryOperation { op, expr }),
            None => None,
        }
    }
}

/// `invocation = unary_expression, [ generic ], "(", arguments, ")"`, the
/// arguments single expressions separated by commas.
pub open spec fn invocation_syntax<'a>(t: Seq<Spanned<'a, Token<'a>>>, i: nat) -> (
    Option<(UnaryModel<'a>, Option<GenericModel<'a>>, Seq<TypeModel<'a>>)>,
    nat,
) {
    match unary_syntax(t, i) {
        (Some(e), p) => match <Optional<Generic<'a>> as Parseable>::spec_parse(t, p) {
            (Some(g), q) => match delimiter(t, q, TokenKind::Separator, "("@) {
                (Some(_), k) => match <ZeroOrMore<SingularExpression<'a>, CommaDelimiter, false> as Parseable>::spec_parse(t, k) {
                    (Some(args), m) => match delimiter(t, m, TokenKind::Separator, ")"@) {
                        (Some(_), n) => (Some((e, g, args)), n),
                        (None, n) => (None, n),
                    },
                    (None, m) => (None, m),
                },
                (None, k) => (None, k),
            },
            (None, q) => (None, q),
        },
        (None, p) => (None, p),
    }
}

impl<'x> Parseable for Invocation<'x> {
    type Target<'a> = Invocation<'a>;

    type Model<'a> = (UnaryModel<'a>, Option<GenericModel<'a>>, Seq<TypeModel<'a>>);

    open spec fn model<'a>(target: Self::Target<'a>) -> Self::Model<'a> {
        (
            unary_model(target.expr),
            match target.generic {
                Some(g) => Some(generic_model(g)),
                None => None,
            },
            target.args@.map_values(|x: SingularExpression<'a>| <SingularExpression<'a> as Parseable>::model(x)),
        )
    }

    open spec fn spec_parse<'a>(tokens: Seq<Spanned<'a, Token<'a>>>, index: nat) -> (Option<Self::Model<'a>>, nat) {
        invocation_syntax(tokens, index)
    }

    fn parse<'a>(stream: &mut TokenStream<'a>) -> (r: Option<Self::Target<'a>>) {
        let expr = match <UnaryExpression<'a> as Parseable>::parse(stream) {
            Some(x) => x,
            None => return None,
        };
        let generic = match <Optional<Generic<'a>> as Parseable>::parse(stream) {
            Some(g) => g,
            None => return None,
        };
        if !next_is(stream, TokenKind::Separator, "(") {
            return None;
        }
        let args = match <ZeroOrMore<SingularExpression<'a>, CommaDelimiter, false> as Parseable>::parse(stream) {
            Some(a) => a,
            None => return None,
        };
        if !next_is(stream, TokenKind::Separator, ")") {
            return None;
        }
        Some(Invocation { expr, generic, args })
    }
}

/// The segments that `more_segments` adds after `acc` are read in order
/// after `i`, each after a `::`.
proof fn lemma_more_segments_in_order<'a>(t: Seq<Spanned<'a, Token<'a>>>, i: nat, acc: Seq<SegmentModel<'a>>) -> (idx:
    Seq<nat>)
    ensures
        ({
            let (all, q) = more_segments(t, i, acc);
            &&& i <= q
            &&& all == acc + all.skip(acc.len() as int)
            &&& in_order::<Segment<'a>>(t, all.skip(acc.len() as int), idx, i + 1, q)
            &&& forall|k: int| 0 <= k < idx.len() ==> is_token(t, (#[trigger] idx[k] - 1) as nat, TokenKind::Operator, "::"@)
        }),
    decreases t.len() - i,
{
    let (all, q) = more_segments(t, i, acc);
    if is_token(t, i, TokenKind::Operator, "::"@) {
        if let (Some(sg), p) = segment(t, i + 1) {
            if i < p <= t.len() {
                let rest = lemma_more_segments_in_order(t, p, acc.push(sg));
                let idx = seq![i + 1] + rest;
                let tail = all.skip((acc.len() + 1) as int);
                assert(all.skip(acc.len() as int) =~= seq![sg] + tail);
                assert(all =~= acc + all.skip(acc.len() as int));
                assert forall|k: int, j: int| 0 <= k < j < idx.len() implies #[trigger] idx[k] < #[trigger] idx[j]
                    && <Segment<'a> as Parseable>::spec_parse(t, idx[k]).1 <= idx[j] by {
                    assert(idx[j] == rest[j - 1]);
                    if k > 0 {
                        assert(idx[k] == rest[k - 1]);
                    }
                }
                assert forall|k: int| 0 <= k < idx.len() implies {
                    &&& i + 1 <= #[trigger] idx[k]
                    &&& <Segment<'a> as Parseable>::spec_parse(t, idx[k]).0 == Some(all.skip(acc.len() as int)[k])
                    &&& idx[k] <= <Segment<'a> as Parseable>::spec_parse(t, idx[k]).1 <= q
                } by {
                    if k > 0 {
                        assert(idx[k] == rest[k - 1]);
                        assert(all.skip(acc.len() as int)[k] == tail[k - 1]);
                    }
                }
                assert forall|k: int| 0 <= k < idx.len() implies is_token(
                    t,
                    (#[trigger] idx[k] - 1) as nat,
                    TokenKind::Operator,
                    "::"@,
                ) by {
                    if k > 0 {
                        assert(idx[k] == rest[k - 1]);
                    }
                }
                return idx;
            }
        }
    }
    assert(all.skip(acc.len() as int) =~= Seq::<SegmentModel<'a>>::empty());
    assert(all =~= acc + all.skip(acc.len() as int));
    Seq::empty()
}

/// The segments of a type come in the order of their tokens: the first is
/// read where the type starts, and each other one after a `::`, at a
/// rising run of token indices, each ending where the next starts or
/// before.
pub proof fn lemma_type_segments_in_order<'a>(t: Seq<Spanned<'a, Token<'a>>>, i: nat)
    ensures
        type_syntax(t, i) matches (Some(ty), q) ==> exists|idx: Seq<nat>|
            #[trigger] in_order::<Segment<'a>>(t, ty.segments, idx, i, q) && idx.len() > 0 && idx[0] == i,
{
    if let (Some(ty), q) = type_syntax(t, i) {
        let (s, p) = segment(t, i);
        let sg = s->0;
        let rest = lemma_more_segments_in_order(t, p, seq![sg]);
        let idx = seq![i] + rest;
        let all = more_segments(t, p, seq![sg]).0;
        let tail = all.skip(1);
        assert(all =~= seq![sg] + tail);
        assert forall|k: int, j: int| 0 <= k < j < idx.len() implies #[trigger] idx[k] < #[trigger] idx[j]
            && <Segment<'a> as Parseable>::spec_parse(t, idx[k]).1 <= idx[j] by {
            assert(idx[j] == rest[j - 1]);
            if k > 0 {
                assert(idx[k] == rest[k - 1]);
            }
        }
        assert forall|k: int| 0 <= k < idx.len() implies {
            &&& i <= #[trigger] idx[k]
            &&& <Segment<'a> as Parseable>::spec_parse(t, idx[k]).0 == Some(ty.segments[k])
            &&& idx[k] <= <Segment<'a> as Parseable>::spec_parse(t, idx[k]).1 <= q
        } by {
            if k > 0 {
                assert(idx[k] == rest[k - 1]);
                assert(ty.segments[k] == tail[k - 1]);
            }
        }
        assert(in_order::<Segment<'a>>(t, ty.segments, idx, i, q));
    }
}

} // verus!
