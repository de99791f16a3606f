pub mod dsl;
pub mod utility;

use std::marker::PhantomData;
use crate::lexer::Identifier;
use crate::lexer::Lexer;
use crate::lexer::identifier_at;
use crate::lexer::literal_at;
use crate::lexer::significant;
use crate::lexer::significant_tokens;
use crate::lexer::tokenizes;
use crate::lexer::Literal;
use crate::lexer::Operator;
use crate::lexer::Parseable;
use crate::lexer::Token;
use crate::lexer::TokenKind;
use crate::lexer::TokenStream;
use crate::lexer::is_token;
use crate::lexer::next_is;
use crate::lexer::read_identifier;
use crate::lexer::read_literal;
use crate::lexer::read_operator;
use crate::lexer::same_text;
use crate::grammar;
use crate::grammar::OperatorClass;
use crate::span::Spanned;
use vstd::prelude::*;
use vstd::std_specs::convert::FromSpecImpl;

verus! {

#[derive(Debug, Default, Clone, Copy, PartialEq, Eq)]
pub struct Empty<'a> {
    _marker: PhantomData<&'a ()>,
}

#[derive(Debug, PartialEq, Eq)]
pub struct Block<'a> {
    pub stmts: Vec<Statement<'a>>,
}

#[derive(Debug, Default, Clone, Copy, PartialEq, Eq)]
pub struct Break<'a> {
    _marker: PhantomData<&'a ()>,
}

#[derive(Debug, PartialEq, Eq)]
pub struct GeometricOperation<'a> {
    pub lhs: PrimaryExpression<'a>,
    pub op: Spanned<'a, Operator<'a>>,
    pub rhs: Box<Expression<'a>>,
}

#[derive(Debug, PartialEq, Eq)]
pub struct ArithmeticOperation<'a> {
    pub lhs: PrimaryExpression<'a>,
    pub op: Spanned<'a, Operator<'a>>,
    pub rhs: Box<Expression<'a>>,
}

#[derive(Debug, PartialEq, Eq)]
pub struct BinaryOperation<'a> {
    pub lhs: PrimaryExpression<'a>,
    pub op: Spanned<'a, Operator<'a>>,
    pub rhs: Box<Expression<'a>>,
}

#[derive(Debug, PartialEq, Eq)]
pub struct Group<'a> {
    pub expr: Box<Expression<'a>>,
}

#[derive(Debug, PartialEq, Eq)]
pub struct Invocation<'a> {
    pub expr: PrimaryExpression<'a>,
    pub args: Vec<Expression<'a>>,
}

#[derive(Debug, PartialEq, Eq)]
pub struct MonoOperation<'a> {
    pub op: Spanned<'a, Operator<'a>>,
    pub expr: Box<Expression<'a>>,
}

#[derive(Debug, PartialEq, Eq)]
pub struct Evaluate<'a> {
    pub expr: Expression<'a>,
}

#[derive(Debug, PartialEq, Eq)]
pub struct Let<'a> {
    pub ident: Spanned<'a, Identifier<'a>>,
    pub expr: Expression<'a>,
}

#[derive(Debug, PartialEq, Eq)]
pub struct If<'a> {
    pub cond: Expression<'a>,
    pub stmt: Box<Statement<'a>>,
}

#[derive(Debug, PartialEq, Eq)]
pub struct While<'a> {
    pub cond: Expression<'a>,
    pub stmt: Box<Statement<'a>>,
}

#[derive(Debug, PartialEq, Eq)]
pub struct Until<'a> {
    pub cond: Expression<'a>,
    pub stmt: Box<Statement<'a>>,
}

#[derive(Debug, PartialEq, Eq)]
pub struct Do<'a> {
    pub cond: Expression<'a>,
    pub stmt: Box<Statement<'a>>,
}

#[derive(Debug, PartialEq, Eq)]
pub struct Loop<'a> {
    pub stmt: Box<Statement<'a>>,
}

#[derive(Debug, PartialEq, Eq)]
pub struct Return<'a> {
    pub expr: Expression<'a>,
}

#[derive(Debug, PartialEq, Eq)]
pub struct For<'a> {
    pub init: Box<Statement<'a>>,
    pub cond: Expression<'a>,
    pub eval: Box<Statement<'a>>,
    pub stmt: Box<Statement<'a>>,
}

#[derive(Debug, Clone, PartialEq, Eq)]
pub struct Field<'a> {
    pub name: Spanned<'a, Identifier<'a>>,
    pub ty: Spanned<'a, Identifier<'a>>,
}

#[derive(Debug, PartialEq, Eq)]
pub struct Struct<'a> {
    pub name: Spanned<'a, Identifier<'a>>,
    pub fields: Vec<Field<'a>>,
}

#[derive(Debug, Clone, PartialEq, Eq)]
pub struct Parameter<'a> {
    pub name: Spanned<'a, Identifier<'a>>,
    pub ty: Spanned<'a, Identifier<'a>>,
}

#[derive(Debug, PartialEq, Eq)]
pub struct Function<'a> {
    pub name: Spanned<'a, Identifier<'a>>,
    pub params: Vec<Parameter<'a>>,
    pub stmt: Statement<'a>,
}

#[derive(Debug, PartialEq, Eq)]
pub struct File<'a> {
    pub items: Vec<Item<'a>>,
}

#[derive(Debug, PartialEq, Eq, Clone)]
pub struct IdentifierExpression<'a>(pub Spanned<'a, Identifier<'a>>);

#[derive(Debug, PartialEq, Eq, Clone)]
pub struct LiteralExpression<'a>(pub Spanned<'a, Literal<'a>>);

#[derive(Debug, Eq, PartialEq)]
pub enum PrimaryExpression<'a> {
    MonoOperation(MonoOperation<'a>),
    Group(Group<'a>),
    IdentifierExpression(IdentifierExpression<'a>),
    LiteralExpression(LiteralExpression<'a>),
}

#[derive(Debug, Eq, PartialEq)]
pub enum BinaryExpression<'a> {
    GeometricOperation(GeometricOperation<'a>),
    ArithmeticOperation(ArithmeticOperation<'a>),
    BinaryOperation(BinaryOperation<'a>),
}

#[derive(Debug, Eq, PartialEq)]
pub enum Expression<'a> {
    BinaryExpression(BinaryExpression<'a>),
    Invocation(Invocation<'a>),
    PrimaryExpression(PrimaryExpression<'a>),
}

#[derive(Debug, Eq, PartialEq)]
pub enum Statement<'a> {
    Block(Block<'a>),
    Break(Break<'a>),
    Do(Do<'a>),
    Empty(Empty<'a>),
    Evaluate(Evaluate<'a>),
    For(For<'a>),
    If(If<'a>),
    Let(Let<'a>),
    Loop(Loop<'a>),
    Return(Return<'a>),
    Until(Until<'a>),
    While(While<'a>),
}

#[derive(Debug, Eq, PartialEq)]
pub enum Item<'a> {
    Function(Function<'a>),
    Struct(Struct<'a>),
}

/// What an expression says, with its nesting made plain: the model of
/// [`Expression`] and [`PrimaryExpression`] values.
pub enum ExpressionModel<'a> {
    Geometric(Box<ExpressionModel<'a>>, Spanned<'a, Operator<'a>>, Box<ExpressionModel<'a>>),
    Arithmetic(Box<ExpressionModel<'a>>, Spanned<'a, Operator<'a>>, Box<ExpressionModel<'a>>),
    Binary(Box<ExpressionModel<'a>>, Spanned<'a, Operator<'a>>, Box<ExpressionModel<'a>>),
    Invocation(Box<ExpressionModel<'a>>, Seq<ExpressionModel<'a>>),
    Mono(Spanned<'a, Operator<'a>>, Box<ExpressionModel<'a>>),
    Group(Box<ExpressionModel<'a>>),
    Identifier(Spanned<'a, Identifier<'a>>),
    Literal(Spanned<'a, Literal<'a>>),
}

/// The model of [`Statement`] values.
pub enum StatementModel<'a> {
    Block(Seq<StatementModel<'a>>),
    Break,
    Do(ExpressionModel<'a>, Box<StatementModel<'a>>),
    Empty,
    Evaluate(ExpressionModel<'a>),
    For(Box<StatementModel<'a>>, ExpressionModel<'a>, Box<StatementModel<'a>>, Box<StatementModel<'a>>),
    If(ExpressionModel<'a>, Box<StatementModel<'a>>),
    Let(Spanned<'a, Identifier<'a>>, ExpressionModel<'a>),
    Loop(Box<StatementModel<'a>>),
    Return(ExpressionModel<'a>),
    Until(ExpressionModel<'a>, Box<StatementModel<'a>>),
    While(ExpressionModel<'a>, Box<StatementModel<'a>>),
}

/// The model of [`Item`] values.
pub enum ItemModel<'a> {
    Function(Spanned<'a, Identifier<'a>>, Seq<Parameter<'a>>, StatementModel<'a>),
    Struct(Spanned<'a, Identifier<'a>>, Seq<Field<'a>>),
}

pub open spec fn expression_model<'a>(e: Expression<'a>) -> ExpressionModel<'a>
    decreases e,
{
    match e {
        Expression::BinaryExpression(b) => match b {
            BinaryExpression::GeometricOperation(o) => ExpressionModel::Geometric(
                Box::new(primary_model(o.lhs)),
                o.op,
                Box::new(expression_model(*o.rhs)),
            ),
            BinaryExpression::ArithmeticOperation(o) => ExpressionModel::Arithmetic(
                Box::new(primary_model(o.lhs)),
                o.op,
                Box::new(expression_model(*o.rhs)),
            ),
            BinaryExpression::BinaryOperation(o) => ExpressionModel::Binary(
                Box::new(primary_model(o.lhs)),
                o.op,
                Box::new(expression_model(*o.rhs)),
            ),
        },
        Expression::Invocation(i) => ExpressionModel::Invocation(
            Box::new(primary_model(i.expr)),
            expressions_model(i.args@),
        ),
        Expression::PrimaryExpression(p) => primary_model(p),
    }
}

pub open spec fn primary_model<'a>(p: PrimaryExpression<'a>) -> ExpressionModel<'a>
    decreases p,
{
    match p {
        PrimaryExpression::MonoOperation(m) => ExpressionModel::Mono(m.op, Box::new(expression_model(*m.expr))),
        PrimaryExpression::Group(g) => ExpressionModel::Group(Box::new(expression_model(*g.expr))),
        PrimaryExpression::IdentifierExpression(x) => ExpressionModel::Identifier(x.0),
        PrimaryExpression::LiteralExpression(x) => ExpressionModel::Literal(x.0),
    }
}

pub open spec fn expressions_model<'a>(s: Seq<Expression<'a>>) -> Seq<ExpressionModel<'a>>
    decreases s,
{
    if s.len() == 0 {
        Seq::empty()
    } else {
        expressions_model(s.drop_last()).push(expression_model(s.last()))
    }
}


pub open spec fn statement_model<'a>(s: Statement<'a>) -> StatementModel<'a>
    decreases s,
{
    match s {
        Statement::Block(b) => StatementModel::Block(statements_model(b.stmts@)),
        Statement::Break(_) => StatementModel::Break,
        Statement::Do(d) => StatementModel::Do(expression_model(d.cond), Box::new(statement_model(*d.stmt))),
        Statement::Empty(_) => StatementModel::Empty,
        Statement::Evaluate(e) => StatementModel::Evaluate(expression_model(e.expr)),
        Statement::For(f) => StatementModel::For(
            Box::new(statement_model(*f.init)),
            expression_model(f.cond),
            Box::new(statement_model(*f.eval)),
            Box::new(statement_model(*f.stmt)),
        ),
        Statement::If(x) => StatementModel::If(expression_model(x.cond), Box::new(statement_model(*x.stmt))),
        Statement::Let(l) => StatementModel::Let(l.ident, expression_model(l.expr)),
        Statement::Loop(l) => StatementModel::Loop(Box::new(statement_model(*l.stmt))),
        Statement::Return(r) => StatementModel::Return(expression_model(r.expr)),
        Statement::Until(x) => StatementModel::Until(expression_model(x.cond), Box::new(statement_model(*x.stmt))),
        Statement::While(x) => StatementModel::While(expression_model(x.cond), Box::new(statement_model(*x.stmt))),
    }
}

pub open spec fn statements_model<'a>(s: Seq<Statement<'a>>) -> Seq<StatementModel<'a>>
    decreases s,
{
    if s.len() == 0 {
        Seq::empty()
    } else {
        statements_model(s.drop_last()).push(statement_model(s.last()))
    }
}

pub open spec fn item_model<'a>(x: Item<'a>) -> ItemModel<'a> {
    match x {
        Item::Function(f) => ItemModel::Function(f.name, f.params@, statement_model(f.stmt)),
        Item::Struct(s) => ItemModel::Struct(s.name, s.fields@),
    }
}

impl<'a> File<'a> {
    /// The models of the items of the file, in order.
    pub open spec fn model(self) -> Seq<ItemModel<'a>> {
        self.items@.map_values(|x: Item<'a>| item_model(x))
    }
}

/// `r` applied to `f`, when there is a value.
pub open spec fn map_model<T, M>(r: Option<T>, f: spec_fn(T) -> M) -> Option<M> {
    match r {
        Some(v) => Some(f(v)),
        None => None,
    }
}

/// What was read (`got`, as a model), with the read position moved from
/// `before` to `after`, is what `expected` says: a failed read reads
/// nothing, and a successful one reads at least one token.
pub open spec fn reads<M>(expected: Option<(M, nat)>, got: Option<M>, before: nat, after: nat) -> bool {
    match got {
        Some(m) => expected == Some((m, after)) && before < after,
        None => expected is None && after == before,
    }
}

fn class_accepts(class: OperatorClass, text: &str) -> (r: bool)
    ensures
        r == grammar::accepts(class, text@),
{
    match class {
        OperatorClass::Geometric => same_text(text, "*") || same_text(text, "/"),
        OperatorClass::Arithmetic => same_text(text, "+") || same_text(text, "-"),
        OperatorClass::Any => true,
    }
}

/// Reads an operator of `class`, or, for every operator, a `,` separator
/// taken as an operator; reads nothing when the next token is neither.
fn read_binary_operator<'a>(stream: &mut TokenStream<'a>, class: OperatorClass) -> (r: Option<
    Spanned<'a, Operator<'a>>,
>)
    ensures
        final(stream).tokens() == old(stream).tokens(),
        r == grammar::operator_of_class(old(stream).tokens(), old(stream).index(), class),
        final(stream).index() == if r is Some {
            old(stream).index() + 1
        } else {
            old(stream).index()
        },
        final(stream).index() <= final(stream).tokens().len(),
{
    let start = stream.position();
    match stream.next() {
        Some(Spanned { span, value: Token::Operator(x) }) => {
            if class_accepts(class, x.0) {
                Some(span.wrap(x))
            } else {
                stream.seek(start);
                None
            }
        },
        Some(Spanned { span, value: Token::Separator(x) }) => {
            if class == OperatorClass::Any && same_text(x.0, ",") {
                Some(span.wrap(Operator(x.0)))
            } else {
                stream.seek(start);
                None
            }
        },
        _ => {
            stream.seek(start);
            None
        },
    }
}

#[verifier::spinoff_prover]
fn parse_expression<'a>(stream: &mut TokenStream<'a>) -> (r: Option<Expression<'a>>)
    ensures
        final(stream).tokens() == old(stream).tokens(),
        final(stream).index() <= final(stream).tokens().len(),
        reads(
            grammar::expression(old(stream).tokens(), old(stream).index()),
            map_model(r, |e: Expression<'a>| expression_model(e)),
            old(stream).index(),
            final(stream).index(),
        ),
    decreases old(stream).tokens().len() - old(stream).index(), 20int,
{
    if let Some(b) = parse_binary_expression(stream) {
        return Some(Expression::BinaryExpression(b));
    }
    if let Some(i) = parse_invocation(stream) {
        return Some(Expression::Invocation(i));
    }
    match parse_primary(stream) {
        Some(p) => Some(Expression::PrimaryExpression(p)),
        None => None,
    }
}

#[verifier::spinoff_prover]
fn parse_binary_expression<'a>(stream: &mut TokenStream<'a>) -> (r: Option<BinaryExpression<'a>>)
    ensures
        final(stream).tokens() == old(stream).tokens(),
        final(stream).index() <= final(stream).tokens().len(),
        reads(
            grammar::binary_expression(old(stream).tokens(), old(stream).index()),
            map_model(r, |b: BinaryExpression<'a>| expression_model(Expression::BinaryExpression(b))),
            old(stream).index(),
            final(stream).index(),
        ),
    decreases old(stream).tokens().len() - old(stream).index(), 19int,
{
    if let Some((lhs, op, rhs)) = parse_operation(stream, OperatorClass::Geometric) {
        return Some(BinaryExpression::GeometricOperation(GeometricOperation { lhs, op, rhs: Box::new(rhs) }));
    }
    if let Some((lhs, op, rhs)) = parse_operation(stream, OperatorClass::Arithmetic) {
        return Some(BinaryExpression::ArithmeticOperation(ArithmeticOperation { lhs, op, rhs: Box::new(rhs) }));
    }
    if let Some((lhs, op, rhs)) = parse_operation(stream, OperatorClass::Any) {
        return Some(BinaryExpression::BinaryOperation(BinaryOperation { lhs, op, rhs: Box::new(rhs) }));
    }
    None
}

/// A primary expression, an operator of `class` and an expression.
#[verifier::spinoff_prover]
fn parse_operation<'a>(stream: &mut TokenStream<'a>, class: OperatorClass) -> (r: Option<
    (PrimaryExpression<'a>, Spanned<'a, Operator<'a>>, Expression<'a>),
>)
    ensures
        final(stream).tokens() == old(stream).tokens(),
        final(stream).index() <= final(stream).tokens().len(),
        reads(
            match grammar::operation(old(stream).tokens(), old(stream).index(), class) {
                Some((l, o, e, p)) => Some(((l, o, e), p)),
                None => None,
            },
            map_model(
                r,
                |x: (PrimaryExpression<'a>, Spanned<'a, Operator<'a>>, Expression<'a>)|
                    (primary_model(x.0), x.1, expression_model(x.2)),
            ),
            old(stream).index(),
            final(stream).index(),
        ),
    decreases old(stream).tokens().len() - old(stream).index(), 18int,
{
    let start = stream.position();
    let lhs = match parse_primary(stream) {
        Some(l) => l,
        None => return None,
    };
    let op = match read_binary_operator(stream, class) {
        Some(o) => o,
        None => {
            stream.seek(start);
            return None;
        },
    };
    match parse_expression(stream) {
        Some(rhs) => Some((lhs, op, rhs)),
        None => {
            stream.seek(start);
            None
        },
    }
}

#[verifier::spinoff_prover]
fn parse_invocation<'a>(stream: &mut TokenStream<'a>) -> (r: Option<Invocation<'a>>)
    ensures
        final(stream).tokens() == old(stream).tokens(),
        final(stream).index() <= final(stream).tokens().len(),
        reads(
            grammar::invocation(old(stream).tokens(), old(stream).index()),
            map_model(r, |x: Invocation<'a>| expression_model(Expression::Invocation(x))),
            old(stream).index(),
            final(stream).index(),
        ),
    decreases old(stream).tokens().len() - old(stream).index(), 18int,
{
    let start = stream.position();
    let callee = match parse_primary(stream) {
        Some(c) => c,
        None => return None,
    };
    if !next_is(stream, TokenKind::Separator, "(") {
        stream.seek(start);
        return None;
    }
    let args = parse_arguments(stream);
    if !next_is(stream, TokenKind::Separator, ")") {
        stream.seek(start);
        return None;
    }
    Some(Invocation { expr: callee, args })
}

/// Expressions separated by commas, with a comma allowed after the last;
/// none when no expression comes first.
#[verifier::spinoff_prover]
fn parse_arguments<'a>(stream: &mut TokenStream<'a>) -> (r: Vec<Expression<'a>>)
    ensures
        final(stream).tokens() == old(stream).tokens(),
        old(stream).index() <= final(stream).index() <= final(stream).tokens().len(),
        grammar::arguments(old(stream).tokens(), old(stream).index()) == (
            expressions_model(r@),
            final(stream).index(),
        ),
    decreases old(stream).tokens().len() - old(stream).index(), 22int,
{
    let first = match parse_expression(stream) {
        Some(e) => e,
        None => return Vec::new(),
    };
    let mut items: Vec<Expression<'a>> = Vec::new();
    items.push(first);
    assert(expressions_model(items@) =~= seq![expression_model(first)]) by {
        assert(items@.drop_last() =~= Seq::<Expression<'a>>::empty());
        assert(expressions_model(items@.drop_last()) =~= Seq::empty());
    }
    let ghost total = grammar::arguments(old(stream).tokens(), old(stream).index());
    loop
        invariant_except_break
            stream.tokens() == old(stream).tokens(),
            old(stream).index() < stream.index() <= stream.tokens().len(),
            total == grammar::more_arguments(stream.tokens(), stream.index(), expressions_model(items@)),
        ensures
            stream.tokens() == old(stream).tokens(),
            old(stream).index() < stream.index() <= stream.tokens().len(),
            total == (expressions_model(items@), stream.index()),
        decreases stream.tokens().len() - stream.index(),
    {
        let save = stream.position();
        if !next_is(stream, TokenKind::Separator, ",") {
            stream.seek(save);
            break;
        }
        match parse_expression(stream) {
            Some(e) => {
                let ghost before = items@;
                items.push(e);
                assert(items@.drop_last() =~= before);
            },
            None => break,
        }
    }
    items
}

#[verifier::spinoff_prover]
fn parse_primary<'a>(stream: &mut TokenStream<'a>) -> (r: Option<PrimaryExpression<'a>>)
    ensures
        final(stream).tokens() == old(stream).tokens(),
        final(stream).index() <= final(stream).tokens().len(),
        reads(
            grammar::primary_expression(old(stream).tokens(), old(stream).index()),
            map_model(r, |p: PrimaryExpression<'a>| primary_model(p)),
            old(stream).index(),
            final(stream).index(),
        ),
    decreases old(stream).tokens().len() - old(stream).index(), 10int,
{
    if let Some(m) = parse_mono(stream) {
        return Some(PrimaryExpression::MonoOperation(m));
    }
    if let Some(g) = parse_group(stream) {
        return Some(PrimaryExpression::Group(g));
    }
    if let Some(x) = read_identifier(stream) {
        return Some(PrimaryExpression::IdentifierExpression(IdentifierExpression(x)));
    }
    match read_literal(stream) {
        Some(x) => Some(PrimaryExpression::LiteralExpression(LiteralExpression(x))),
        None => None,
    }
}

#[verifier::spinoff_prover]
fn parse_mono<'a>(stream: &mut TokenStream<'a>) -> (r: Option<MonoOperation<'a>>)
    ensures
        final(stream).tokens() == old(stream).tokens(),
        final(stream).index() <= final(stream).tokens().len(),
        reads(
            grammar::mono_operation(old(stream).tokens(), old(stream).index()),
            map_model(r, |m: MonoOperation<'a>| primary_model(PrimaryExpression::MonoOperation(m))),
            old(stream).index(),
            final(stream).index(),
        ),
    decreases old(stream).tokens().len() - old(stream).index(), 8int,
{
    let start = stream.position();
    let op = match read_operator(stream) {
        Some(o) => o,
        None => return None,
    };
    match parse_expression(stream) {
        Some(e) => Some(MonoOperation { op, expr: Box::new(e) }),
        None => {
            stream.seek(start);
            None
        },
    }
}

#[verifier::spinoff_prover]
fn parse_group<'a>(stream: &mut TokenStream<'a>) -> (r: Option<Group<'a>>)
    ensures
        final(stream).tokens() == old(stream).tokens(),
        final(stream).index() <= final(stream).tokens().len(),
        reads(
            grammar::group(old(stream).tokens(), old(stream).index()),
            map_model(r, |g: Group<'a>| primary_model(PrimaryExpression::Group(g))),
            old(stream).index(),
            final(stream).index(),
        ),
    decreases old(stream).tokens().len() - old(stream).index(), 8int,
{
    let start = stream.position();
    if !next_is(stream, TokenKind::Separator, "(") {
        stream.seek(start);
        return None;
    }
    let e = match parse_expression(stream) {
        Some(e) => e,
        None => {
            stream.seek(start);
            return None;
        },
    };
    if !next_is(stream, TokenKind::Separator, ")") {
        stream.seek(start);
        return None;
    }
    Some(Group { expr: Box::new(e) })
}

#[verifier::spinoff_prover]
fn parse_statement<'a>(stream: &mut TokenStream<'a>) -> (r: Option<Statement<'a>>)
    ensures
        final(stream).tokens() == old(stream).tokens(),
        final(stream).index() <= final(stream).tokens().len(),
        reads(
            grammar::statement(old(stream).tokens(), old(stream).index()),
            map_model(r, |s: Statement<'a>| statement_model(s)),
            old(stream).index(),
            final(stream).index(),
        ),
    decreases old(stream).tokens().len() - old(stream).index(), 40int,
{
    if let Some(x) = parse_block(stream) {
        return Some(Statement::Block(x));
    }
    if let Some(x) = parse_break(stream) {
        return Some(Statement::Break(x));
    }
    if let Some(x) = parse_do(stream) {
        return Some(Statement::Do(x));
    }
    if let Some(x) = parse_empty(stream) {
        return Some(Statement::Empty(x));
    }
    if let Some(x) = parse_evaluate(stream) {
        return Some(Statement::Evaluate(x));
    }
    if let Some(x) = parse_for(stream) {
        return Some(Statement::For(x));
    }
    if let Some((cond, stmt)) = parse_conditional(stream, "if") {
        return Some(Statement::If(If { cond, stmt: Box::new(stmt) }));
    }
    if let Some(x) = parse_let(stream) {
        return Some(Statement::Let(x));
    }
    if let Some(x) = parse_loop(stream) {
        return Some(Statement::Loop(x));
    }
    if let Some(x) = parse_return(stream) {
        return Some(Statement::Return(x));
    }
    if let Some((cond, stmt)) = parse_conditional(stream, "until") {
        return Some(Statement::Until(Until { cond, stmt: Box::new(stmt) }));
    }
    if let Some((cond, stmt)) = parse_conditional(stream, "while") {
        return Some(Statement::While(While { cond, stmt: Box::new(stmt) }));
    }
    None
}

/// Statements, one after another, for as long as one can be read.
#[verifier::spinoff_prover]
fn parse_statements<'a>(stream: &mut TokenStream<'a>) -> (r: Vec<Statement<'a>>)
    ensures
        final(stream).tokens() == old(stream).tokens(),
        old(stream).index() <= final(stream).index() <= final(stream).tokens().len(),
        grammar::statements(old(stream).tokens(), old(stream).index(), Seq::empty()) == (
            statements_model(r@),
            final(stream).index(),
        ),
    decreases old(stream).tokens().len() - old(stream).index(), 41int,
{
    // The read position is known to lie within the tokens from here on.
    stream.position();
    let mut items: Vec<Statement<'a>> = Vec::new();
    let ghost total = grammar::statements(old(stream).tokens(), old(stream).index(), Seq::empty());
    assert(statements_model(items@) =~= Seq::empty());
    loop
        invariant_except_break
            stream.tokens() == old(stream).tokens(),
            old(stream).index() <= stream.index() <= stream.tokens().len(),
            total == grammar::statements(stream.tokens(), stream.index(), statements_model(items@)),
        ensures
            stream.tokens() == old(stream).tokens(),
            old(stream).index() <= stream.index() <= stream.tokens().len(),
            total == (statements_model(items@), stream.index()),
        decreases stream.tokens().len() - stream.index(),
    {
        match parse_statement(stream) {
            Some(s) => {
                let ghost before = items@;
                items.push(s);
                assert(items@.drop_last() =~= before);
            },
            None => break,
        }
    }
    items
}

#[verifier::spinoff_prover]
fn parse_block<'a>(stream: &mut TokenStream<'a>) -> (r: Option<Block<'a>>)
    ensures
        final(stream).tokens() == old(stream).tokens(),
        final(stream).index() <= final(stream).tokens().len(),
        reads(
            grammar::block(old(stream).tokens(), old(stream).index()),
            map_model(r, |x: Block<'a>| statement_model(Statement::Block(x))),
            old(stream).index(),
            final(stream).index(),
        ),
    decreases old(stream).tokens().len() - old(stream).index(), 30int,
{
    let start = stream.position();
    if !next_is(stream, TokenKind::Separator, "{") {
        stream.seek(start);
        return None;
    }
    let stmts = parse_statements(stream);
    if !next_is(stream, TokenKind::Separator, "}") {
        stream.seek(start);
        return None;
    }
    Some(Block { stmts })
}

#[verifier::spinoff_prover]
fn parse_break<'a>(stream: &mut TokenStream<'a>) -> (r: Option<Break<'a>>)
    ensures
        final(stream).tokens() == old(stream).tokens(),
        final(stream).index() <= final(stream).tokens().len(),
        reads(
            grammar::break_statement(old(stream).tokens(), old(stream).index()),
            map_model(r, |x: Break<'a>| statement_model(Statement::Break(x))),
            old(stream).index(),
            final(stream).index(),
        ),
{
    let start = stream.position();
    if next_is(stream, TokenKind::Identifier, "break") && next_is(stream, TokenKind::Separator, ";") {
        Some(Break { _marker: PhantomData })
    } else {
        stream.seek(start);
        None
    }
}

#[verifier::spinoff_prover]
fn parse_do<'a>(stream: &mut TokenStream<'a>) -> (r: Option<Do<'a>>)
    ensures
        final(stream).tokens() == old(stream).tokens(),
        final(stream).index() <= final(stream).tokens().len(),
        reads(
            grammar::do_statement(old(stream).tokens(), old(stream).index()),
            map_model(r, |x: Do<'a>| statement_model(Statement::Do(x))),
            old(stream).index(),
            final(stream).index(),
        ),
    decreases old(stream).tokens().len() - old(stream).index(), 30int,
{
    let start = stream.position();
    if !next_is(stream, TokenKind::Identifier, "do") {
        stream.seek(start);
        return None;
    }
    let stmt = match parse_statement(stream) {
        Some(s) => s,
        None => {
            stream.seek(start);
            return None;
        },
    };
    if !(next_is(stream, TokenKind::Identifier, "while") && next_is(stream, TokenKind::Separator, "(")) {
        stream.seek(start);
        return None;
    }
    let cond = match parse_expression(stream) {
        Some(e) => e,
        None => {
            stream.seek(start);
            return None;
        },
    };
    if !(next_is(stream, TokenKind::Separator, ")") && next_is(stream, TokenKind::Separator, ";")) {
        stream.seek(start);
        return None;
    }
    Some(Do { cond, stmt: Box::new(stmt) })
}

#[verifier::spinoff_prover]
fn parse_empty<'a>(stream: &mut TokenStream<'a>) -> (r: Option<Empty<'a>>)
    ensures
        final(stream).tokens() == old(stream).tokens(),
        final(stream).index() <= final(stream).tokens().len(),
        reads(
            grammar::empty(old(stream).tokens(), old(stream).index()),
            map_model(r, |x: Empty<'a>| statement_model(Statement::Empty(x))),
            old(stream).index(),
            final(stream).index(),
        ),
{
    let start = stream.position();
    if next_is(stream, TokenKind::Separator, ";") {
        Some(Empty { _marker: PhantomData })
    } else {
        stream.seek(start);
        None
    }
}

#[verifier::spinoff_prover]
fn parse_evaluate<'a>(stream: &mut TokenStream<'a>) -> (r: Option<Evaluate<'a>>)
    ensures
        final(stream).tokens() == old(stream).tokens(),
        final(stream).index() <= final(stream).tokens().len(),
        reads(
            grammar::evaluate(old(stream).tokens(), old(stream).index()),
            map_model(r, |x: Evaluate<'a>| statement_model(Statement::Evaluate(x))),
            old(stream).index(),
            final(stream).index(),
        ),
    decreases old(stream).tokens().len() - old(stream).index(), 30int,
{
    let start = stream.position();
    let expr = match parse_expression(stream) {
        Some(e) => e,
        None => return None,
    };
    if !next_is(stream, TokenKind::Separator, ";") {
        stream.seek(start);
        return None;
    }
    Some(Evaluate { expr })
}

#[verifier::spinoff_prover]
fn parse_for<'a>(stream: &mut TokenStream<'a>) -> (r: Option<For<'a>>)
    ensures
        final(stream).tokens() == old(stream).tokens(),
        final(stream).index() <= final(stream).tokens().len(),
        reads(
            grammar::for_statement(old(stream).tokens(), old(stream).index()),
            map_model(r, |x: For<'a>| statement_model(Statement::For(x))),
            old(stream).index(),
            final(stream).index(),
        ),
    decreases old(stream).tokens().len() - old(stream).index(), 30int,
{
    let start = stream.position();
    if !(next_is(stream, TokenKind::Identifier, "for") && next_is(stream, TokenKind::Separator, "(")) {
        stream.seek(start);
        return None;
    }
    let init = match parse_statement(stream) {
        Some(s) => s,
        None => {
            stream.seek(start);
            return None;
        },
    };
    let cond = match parse_expression(stream) {
        Some(e) => e,
        None => {
            stream.seek(start);
            return None;
        },
    };
    if !next_is(stream, TokenKind::Separator, ";") {
        stream.seek(start);
        return None;
    }
    let eval = match parse_statement(stream) {
        Some(e) => e,
        None => {
            stream.seek(start);
            return None;
        },
    };
    if !next_is(stream, TokenKind::Separator, ")") {
        stream.seek(start);
        return None;
    }
    let stmt = match parse_statement(stream) {
        Some(s) => s,
        None => {
            stream.seek(start);
            return None;
        },
    };
    Some(For { init: Box::new(init), cond, eval: Box::new(eval), stmt: Box::new(stmt) })
}

/// `keyword, "(", expression, ")", statement`, giving the expression and the
/// statement.
#[verifier::spinoff_prover]
fn parse_conditional<'a>(stream: &mut TokenStream<'a>, keyword: &str) -> (r: Option<(Expression<'a>, Statement<'a>)>)
    ensures
        final(stream).tokens() == old(stream).tokens(),
        final(stream).index() <= final(stream).tokens().len(),
        reads(
            match grammar::conditional(old(stream).tokens(), old(stream).index(), keyword@) {
                Some((c, s, p)) => Some(((c, s), p)),
                None => None,
            },
            map_model(r, |x: (Expression<'a>, Statement<'a>)| (expression_model(x.0), statement_model(x.1))),
            old(stream).index(),
            final(stream).index(),
        ),
    decreases old(stream).tokens().len() - old(stream).index(), 29int,
{
    let start = stream.position();
    if !(next_is(stream, TokenKind::Identifier, keyword) && next_is(stream, TokenKind::Separator, "(")) {
        stream.seek(start);
        return None;
    }
    let cond = match parse_expression(stream) {
        Some(e) => e,
        None => {
            stream.seek(start);
            return None;
        },
    };
    if !next_is(stream, TokenKind::Separator, ")") {
        stream.seek(start);
        return None;
    }
    match parse_statement(stream) {
        Some(s) => Some((cond, s)),
        None => {
            stream.seek(start);
            None
        },
    }
}

#[verifier::spinoff_prover]
fn parse_let<'a>(stream: &mut TokenStream<'a>) -> (r: Option<Let<'a>>)
    ensures
        final(stream).tokens() == old(stream).tokens(),
        final(stream).index() <= final(stream).tokens().len(),
        reads(
            grammar::let_statement(old(stream).tokens(), old(stream).index()),
            map_model(r, |x: Let<'a>| statement_model(Statement::Let(x))),
            old(stream).index(),
            final(stream).index(),
        ),
    decreases old(stream).tokens().len() - old(stream).index(), 30int,
{
    let start = stream.position();
    if !next_is(stream, TokenKind::Identifier, "let") {
        stream.seek(start);
        return None;
    }
    let ident = match read_identifier(stream) {
        Some(x) => x,
        None => {
            stream.seek(start);
            return None;
        },
    };
    if !next_is(stream, TokenKind::Operator, "=") {
        stream.seek(start);
        return None;
    }
    let expr = match parse_expression(stream) {
        Some(e) => e,
        None => {
            stream.seek(start);
            return None;
        },
    };
    if !next_is(stream, TokenKind::Separator, ";") {
        stream.seek(start);
        return None;
    }
    Some(Let { ident, expr })
}

#[verifier::spinoff_prover]
fn parse_loop<'a>(stream: &mut TokenStream<'a>) -> (r: Option<Loop<'a>>)
    ensures
        final(stream).tokens() == old(stream).tokens(),
        final(stream).index() <= final(stream).tokens().len(),
        reads(
            grammar::loop_statement(old(stream).tokens(), old(stream).index()),
            map_model(r, |x: Loop<'a>| statement_model(Statement::Loop(x))),
            old(stream).index(),
            final(stream).index(),
        ),
    decreases old(stream).tokens().len() - old(stream).index(), 30int,
{
    let start = stream.position();
    if !next_is(stream, TokenKind::Identifier, "loop") {
        stream.seek(start);
        return None;
    }
    match parse_statement(stream) {
        Some(s) => Some(Loop { stmt: Box::new(s) }),
        None => {
            stream.seek(start);
            None
        },
    }
}

#[verifier::spinoff_prover]
fn parse_return<'a>(stream: &mut TokenStream<'a>) -> (r: Option<Return<'a>>)
    ensures
        final(stream).tokens() == old(stream).tokens(),
        final(stream).index() <= final(stream).tokens().len(),
        reads(
            grammar::return_statement(old(stream).tokens(), old(stream).index()),
            map_model(r, |x: Return<'a>| statement_model(Statement::Return(x))),
            old(stream).index(),
            final(stream).index(),
        ),
    decreases old(stream).tokens().len() - old(stream).index(), 30int,
{
    let start = stream.position();
    if !next_is(stream, TokenKind::Identifier, "return") {
        stream.seek(start);
        return None;
    }
    let expr = match parse_expression(stream) {
        Some(e) => e,
        None => {
            stream.seek(start);
            return None;
        },
    };
    if !next_is(stream, TokenKind::Separator, ";") {
        stream.seek(start);
        return None;
    }
    Some(Return { expr })
}

/// Items of `T`, one after another, for as long as one can be read.
pub struct List<T>(PhantomData<T>);

/// Items of `T` separated by commas, with a comma allowed after the last;
/// none when no item comes first.
pub struct CommaList<T>(PhantomData<T>);

/// The models of `items`, in order.
pub open spec fn models<'a, T: Parseable>(items: Seq<T::Target<'a>>) -> Seq<T::Model<'a>> {
    items.map_values(|x: T::Target<'a>| T::model(x))
}

/// The items of `T` read from `i` on, appended to `acc`; a read that fails,
/// or that reads nothing, ends them.
pub open spec fn list_from<'a, T: Parseable>(t: Seq<Spanned<'a, Token<'a>>>, i: nat, acc: Seq<T::Model<'a>>) -> (
    Seq<T::Model<'a>>,
    nat,
)
    decreases t.len() - i,
{
    match T::spec_parse(t, i) {
        (Some(m), p) => if i < p <= t.len() {
            list_from::<T>(t, p, acc.push(m))
        } else {
            (acc, i)
        },
        (None, _) => (acc, i),
    }
}

/// The items after the first in a comma list, appended to `acc`: a comma
/// followed by an item, repeatedly; a comma with no item after it ends them.
pub open spec fn comma_list_rest<'a, T: Parseable>(t: Seq<Spanned<'a, Token<'a>>>, i: nat, acc: Seq<T::Model<'a>>) -> (
    Seq<T::Model<'a>>,
    nat,
)
    decreases t.len() - i,
{
    if is_token(t, i, TokenKind::Separator, ","@) {
        match T::spec_parse(t, i + 1) {
            (Some(m), p) => if i + 1 <= p <= t.len() {
                comma_list_rest::<T>(t, p, acc.push(m))
            } else {
                (acc, i + 1)
            },
            (None, _) => (acc, i + 1),
        }
    } else {
        (acc, i)
    }
}

/// `items` are read by `T` at the token indices `idx`, in order, all from
/// `from` on and ending by `to`: each item ends where the next one starts
/// or before.
pub open spec fn in_order<'a, T: Parseable>(
    t: Seq<Spanned<'a, Token<'a>>>,
    items: Seq<T::Model<'a>>,
    idx: Seq<nat>,
    from: nat,
    to: nat,
) -> bool {
    &&& idx.len() == items.len()
    &&& forall|k: int|
        0 <= k < idx.len() ==> {
            &&& from <= #[trigger] idx[k]
            &&& T::spec_parse(t, idx[k]).0 == Some(items[k])
            &&& idx[k] <= T::spec_parse(t, idx[k]).1 <= to
        }
    &&& forall|k: int, j: int|
        0 <= k < j < idx.len() ==> #[trigger] idx[k] < #[trigger] idx[j] && T::spec_parse(t, idx[k]).1 <= idx[j]
}

/// The items that the rest of a comma list adds after `acc` are read in
/// order after `i`, where the list goes on.
proof fn lemma_comma_rest_in_order<'a, T: Parseable>(
    t: Seq<Spanned<'a, Token<'a>>>,
    i: nat,
    acc: Seq<T::Model<'a>>,
) -> (idx: Seq<nat>)
    ensures
        ({
            let (items, q) = comma_list_rest::<T>(t, i, acc);
            &&& i <= q
            &&& items == acc + items.skip(acc.len() as int)
            &&& in_order::<T>(t, items.skip(acc.len() as int), idx, i + 1, q)
        }),
    decreases t.len() - i,
{
    let (items, q) = comma_list_rest::<T>(t, i, acc);
    if is_token(t, i, TokenKind::Separator, ","@) {
        match T::spec_parse(t, i + 1) {
            (Some(m), p) => if i + 1 <= p <= t.len() {
                let rest = lemma_comma_rest_in_order::<T>(t, p, acc.push(m));
                let idx = seq![i + 1] + rest;
                let tail = items.skip((acc.len() + 1) as int);
                assert(items.skip(acc.len() as int) =~= seq![m] + tail);
                assert(items =~= acc + items.skip(acc.len() as int));
                assert forall|k: int, j: int| 0 <= k < j < idx.len() implies #[trigger] idx[k] < #[trigger] idx[j]
                    && T::spec_parse(t, idx[k]).1 <= idx[j] by {
                    if k > 0 {
                        assert(idx[k] == rest[k - 1]);
                        assert(idx[j] == rest[j - 1]);
                    } else {
                        assert(idx[j] == rest[j - 1]);
                    }
                }
                assert forall|k: int| 0 <= k < idx.len() implies {
                    &&& i + 1 <= #[trigger] idx[k]
                    &&& T::spec_parse(t, idx[k]).0 == Some(items.skip(acc.len() as int)[k])
                    &&& idx[k] <= T::spec_parse(t, idx[k]).1 <= q
                } by {
                    if k > 0 {
                        assert(idx[k] == rest[k - 1]);
                        assert(items.skip(acc.len() as int)[k] == tail[k - 1]);
                    }
                }
                return idx;
            } else {
                assert(items.skip(acc.len() as int) =~= Seq::<T::Model<'a>>::empty());
                assert(items =~= acc + items.skip(acc.len() as int));
                return Seq::empty();
            },
            (None, _) => {
                assert(items.skip(acc.len() as int) =~= Seq::<T::Model<'a>>::empty());
                assert(items =~= acc + items.skip(acc.len() as int));
                return Seq::empty();
            },
        }
    }
    assert(items.skip(acc.len() as int) =~= Seq::<T::Model<'a>>::empty());
    assert(items =~= acc + items.skip(acc.len() as int));
    Seq::empty()
}

/// A comma list gives its items in the order of the tokens: the `k`-th item
/// is the one read at the `k`-th of a rising run of token indices, each
/// read ending before the next starts, all within what the list reads.
pub proof fn lemma_comma_list_in_order<'a, T: Parseable>(t: Seq<Spanned<'a, Token<'a>>>, i: nat) -> (idx: Seq<
    nat,
>)
    ensures
        <CommaList<T> as Parseable>::spec_parse(t, i) matches (Some(items), q) ==> in_order::<T>(
            t,
            items,
            idx,
            i,
            q,
        ),
{
    match T::spec_parse(t, i) {
        (Some(m), p) => if i <= p <= t.len() {
            let rest = lemma_comma_rest_in_order::<T>(t, p, seq![m]);
            let (items, q) = comma_list_rest::<T>(t, p, seq![m]);
            let idx = seq![i] + rest;
            let tail = items.skip(1);
            assert(items =~= seq![m] + tail);
            assert forall|k: int, j: int| 0 <= k < j < idx.len() implies #[trigger] idx[k] < #[trigger] idx[j]
                && T::spec_parse(t, idx[k]).1 <= idx[j] by {
                assert(idx[j] == rest[j - 1]);
                if k > 0 {
                    assert(idx[k] == rest[k - 1]);
                }
            }
            assert forall|k: int| 0 <= k < idx.len() implies {
                &&& i <= #[trigger] idx[k]
                &&& T::spec_parse(t, idx[k]).0 == Some(items[k])
                &&& idx[k] <= T::spec_parse(t, idx[k]).1 <= q
            } by {
                if k > 0 {
                    assert(idx[k] == rest[k - 1]);
                    assert(items[k] == tail[k - 1]);
                }
            }
            idx
        } else {
            Seq::empty()
        },
        (None, _) => Seq::empty(),
    }
}

impl<T: Parseable> Parseable for CommaList<T> {
    type Target<'a> = Vec<T::Target<'a>>;

    type Model<'a> = Seq<T::Model<'a>>;

    open spec fn model<'a>(target: Self::Target<'a>) -> Self::Model<'a> {
        models::<T>(target@)
    }

    open spec fn spec_parse<'a>(tokens: Seq<Spanned<'a, Token<'a>>>, index: nat) -> (Option<Self::Model<'a>>, nat) {
        match T::spec_parse(tokens, index) {
            (Some(m), p) => if index <= p <= tokens.len() {
                let (items, q) = comma_list_rest::<T>(tokens, p, seq![m]);
                (Some(items), q)
            } else {
                (Some(Seq::empty()), index)
            },
            (None, _) => (Some(Seq::empty()), index),
        }
    }

    fn parse<'a>(stream: &mut TokenStream<'a>) -> (r: Option<Self::Target<'a>>) {
        let start = stream.position();
        let first = match T::parse(stream) {
            Some(x) => x,
            None => {
                stream.seek(start);
                return Some(Vec::new());
            },
        };
        let mut items: Vec<T::Target<'a>> = Vec::new();
        items.push(first);
        assert(models::<T>(items@) =~= seq![T::model(first)]);
        let ghost total = Self::spec_parse(old(stream).tokens(), old(stream).index());
        loop
            invariant_except_break
                stream.tokens() == old(stream).tokens(),
                old(stream).index() <= stream.index() <= stream.tokens().len(),
                total == (Some(comma_list_rest::<T>(stream.tokens(), stream.index(), models::<T>(items@)).0),
                    comma_list_rest::<T>(stream.tokens(), stream.index(), models::<T>(items@)).1),
            ensures
                stream.tokens() == old(stream).tokens(),
                old(stream).index() <= stream.index() <= stream.tokens().len(),
                total == (Some(models::<T>(items@)), stream.index()),
            decreases stream.tokens().len() - stream.index(),
        {
            let save = stream.position();
            if !next_is(stream, TokenKind::Separator, ",") {
                stream.seek(save);
                break;
            }
            let after_comma = stream.position();
            match T::parse(stream) {
                Some(x) => {
                    let ghost before = items@;
                    items.push(x);
                    assert(models::<T>(items@) =~= models::<T>(before).push(T::model(x)));
                },
                None => {
                    stream.seek(after_comma);
                    break;
                },
            }
        }
        Some(items)
    }
}

impl<T: Parseable> Parseable for List<T> {
    type Target<'a> = Vec<T::Target<'a>>;

    type Model<'a> = Seq<T::Model<'a>>;

    open spec fn model<'a>(target: Self::Target<'a>) -> Self::Model<'a> {
        models::<T>(target@)
    }

    open spec fn spec_parse<'a>(tokens: Seq<Spanned<'a, Token<'a>>>, index: nat) -> (Option<Self::Model<'a>>, nat) {
        let (items, p) = list_from::<T>(tokens, index, Seq::empty());
        (Some(items), p)
    }

    fn parse<'a>(stream: &mut TokenStream<'a>) -> (r: Option<Self::Target<'a>>) {
        // The read position is known to lie within the tokens from here on.
        stream.position();
        let mut items: Vec<T::Target<'a>> = Vec::new();
        let ghost total = Self::spec_parse(old(stream).tokens(), old(stream).index());
        assert(models::<T>(items@) =~= Seq::empty());
        loop
            invariant_except_break
                stream.tokens() == old(stream).tokens(),
                old(stream).index() <= stream.index() <= stream.tokens().len(),
                total == (Some(list_from::<T>(stream.tokens(), stream.index(), models::<T>(items@)).0),
                    list_from::<T>(stream.tokens(), stream.index(), models::<T>(items@)).1),
            ensures
                stream.tokens() == old(stream).tokens(),
                old(stream).index() <= stream.index() <= stream.tokens().len(),
                total == (Some(models::<T>(items@)), stream.index()),
            decreases stream.tokens().len() - stream.index(),
        {
            let save = stream.position();
            match T::parse(stream) {
                Some(x) => {
                    if stream.position() == save {
                        break;
                    }
                    let ghost before = items@;
                    items.push(x);
                    assert(models::<T>(items@) =~= models::<T>(before).push(T::model(x)));
                },
                None => {
                    stream.seek(save);
                    break;
                },
            }
        }
        Some(items)
    }
}

#[verifier::spinoff_prover]
fn parse_field<'a>(stream: &mut TokenStream<'a>) -> (r: Option<Field<'a>>)
    ensures
        final(stream).tokens() == old(stream).tokens(),
        final(stream).index() <= final(stream).tokens().len(),
        reads(grammar::field(old(stream).tokens(), old(stream).index()), r, old(stream).index(), final(stream).index()),
{
    let start = stream.position();
    let name = match read_identifier(stream) {
        Some(x) => x,
        None => return None,
    };
    if !next_is(stream, TokenKind::Operator, ":") {
        stream.seek(start);
        return None;
    }
    match read_identifier(stream) {
        Some(ty) => Some(Field { name, ty }),
        None => {
            stream.seek(start);
            None
        },
    }
}

#[verifier::spinoff_prover]
fn parse_parameter<'a>(stream: &mut TokenStream<'a>) -> (r: Option<Parameter<'a>>)
    ensures
        final(stream).tokens() == old(stream).tokens(),
        final(stream).index() <= final(stream).tokens().len(),
        reads(grammar::parameter(old(stream).tokens(), old(stream).index()), r, old(stream).index(), final(stream).index()),
{
    let start = stream.position();
    let name = match read_identifier(stream) {
        Some(x) => x,
        None => return None,
    };
    if !next_is(stream, TokenKind::Operator, ":") {
        stream.seek(start);
        return None;
    }
    match read_identifier(stream) {
        Some(ty) => Some(Parameter { name, ty }),
        None => {
            stream.seek(start);
            None
        },
    }
}

impl<'x> Parseable for Field<'x> {
    type Target<'a> = Field<'a>;

    type Model<'a> = Field<'a>;

    open spec fn model<'a>(target: Self::Target<'a>) -> Self::Model<'a> {
        target
    }

    open spec fn spec_parse<'a>(tokens: Seq<Spanned<'a, Token<'a>>>, index: nat) -> (Option<Self::Model<'a>>, nat) {
        match grammar::field(tokens, index) {
            Some((x, p)) => (Some(x), p),
            None => (None, index),
        }
    }

    fn parse<'a>(stream: &mut TokenStream<'a>) -> (r: Option<Self::Target<'a>>) {
        parse_field(stream)
    }
}

impl<'x> Parseable for Parameter<'x> {
    type Target<'a> = Parameter<'a>;

    type Model<'a> = Parameter<'a>;

    open spec fn model<'a>(target: Self::Target<'a>) -> Self::Model<'a> {
        target
    }

    open spec fn spec_parse<'a>(tokens: Seq<Spanned<'a, Token<'a>>>, index: nat) -> (Option<Self::Model<'a>>, nat) {
        match grammar::parameter(tokens, index) {
            Some((x, p)) => (Some(x), p),
            None => (None, index),
        }
    }

    fn parse<'a>(stream: &mut TokenStream<'a>) -> (r: Option<Self::Target<'a>>) {
        parse_parameter(stream)
    }
}

#[verifier::spinoff_prover]
fn parse_function<'a>(stream: &mut TokenStream<'a>) -> (r: Option<Function<'a>>)
    ensures
        final(stream).tokens() == old(stream).tokens(),
        final(stream).index() <= final(stream).tokens().len(),
        reads(
            grammar::function(old(stream).tokens(), old(stream).index()),
            map_model(r, |x: Function<'a>| item_model(Item::Function(x))),
            old(stream).index(),
            final(stream).index(),
        ),
{
    let start = stream.position();
    if !next_is(stream, TokenKind::Identifier, "fn") {
        stream.seek(start);
        return None;
    }
    let name = match read_identifier(stream) {
        Some(x) => x,
        None => {
            stream.seek(start);
            return None;
        },
    };
    if !next_is(stream, TokenKind::Separator, "(") {
        stream.seek(start);
        return None;
    }
    let params = match <CommaList<Parameter<'a>> as Parseable>::parse(stream) {
        Some(ps) => ps,
        None => {
            stream.seek(start);
            return None;
        },
    };
    assert(models::<Parameter<'a>>(params@) =~= params@);
    if !next_is(stream, TokenKind::Separator, ")") {
        stream.seek(start);
        return None;
    }
    match parse_statement(stream) {
        Some(stmt) => Some(Function { name, params, stmt }),
        None => {
            stream.seek(start);
            None
        },
    }
}

#[verifier::spinoff_prover]
fn parse_struct<'a>(stream: &mut TokenStream<'a>) -> (r: Option<Struct<'a>>)
    ensures
        final(stream).tokens() == old(stream).tokens(),
        final(stream).index() <= final(stream).tokens().len(),
        reads(
            grammar::structure(old(stream).tokens(), old(stream).index()),
            map_model(r, |x: Struct<'a>| item_model(Item::Struct(x))),
            old(stream).index(),
            final(stream).index(),
        ),
{
    let start = stream.position();
    if !next_is(stream, TokenKind::Identifier, "struct") {
        stream.seek(start);
        return None;
    }
    let name = match read_identifier(stream) {
        Some(x) => x,
        None => {
            stream.seek(start);
            return None;
        },
    };
    if !next_is(stream, TokenKind::Separator, "{") {
        stream.seek(start);
        return None;
    }
    let fields = match <CommaList<Field<'a>> as Parseable>::parse(stream) {
        Some(fs) => fs,
        None => {
            stream.seek(start);
            return None;
        },
    };
    assert(models::<Field<'a>>(fields@) =~= fields@);
    if !next_is(stream, TokenKind::Separator, "}") {
        stream.seek(start);
        return None;
    }
    Some(Struct { name, fields })
}

#[verifier::spinoff_prover]
fn parse_item<'a>(stream: &mut TokenStream<'a>) -> (r: Option<Item<'a>>)
    ensures
        final(stream).tokens() == old(stream).tokens(),
        final(stream).index() <= final(stream).tokens().len(),
        reads(
            grammar::item(old(stream).tokens(), old(stream).index()),
            map_model(r, |x: Item<'a>| item_model(x)),
            old(stream).index(),
            final(stream).index(),
        ),
{
    if let Some(f) = parse_function(stream) {
        return Some(Item::Function(f));
    }
    match parse_struct(stream) {
        Some(s) => Some(Item::Struct(s)),
        None => None,
    }
}

/// The items read from the stream, up to the first token at which none can
/// be read.
#[verifier::spinoff_prover]
fn parse_items<'a>(stream: &mut TokenStream<'a>) -> (r: Vec<Item<'a>>)
    ensures
        grammar::items(old(stream).tokens(), old(stream).index(), Seq::empty()) == r@.map_values(
            |x: Item<'a>| item_model(x),
        ),
{
    // The read position is known to lie within the tokens from here on.
    stream.position();
    let mut items: Vec<Item<'a>> = Vec::new();
    let ghost total = grammar::items(old(stream).tokens(), old(stream).index(), Seq::empty());
    assert(items@.map_values(|x: Item<'a>| item_model(x)) =~= Seq::empty());
    loop
        invariant_except_break
            stream.tokens() == old(stream).tokens(),
            stream.index() <= stream.tokens().len(),
            total == grammar::items(stream.tokens(), stream.index(), items@.map_values(|x: Item<'a>| item_model(x))),
        ensures
            total == items@.map_values(|x: Item<'a>| item_model(x)),
        decreases stream.tokens().len() - stream.index(),
    {
        match parse_item(stream) {
            Some(x) => {
                let ghost before = items@;
                items.push(x);
                assert(items@.map_values(|x: Item<'a>| item_model(x)) =~= before.map_values(
                    |x: Item<'a>| item_model(x),
                ).push(item_model(x)));
            },
            None => break,
        }
    }
    items
}

impl<'a> File<'a> {
    /// Reads the items of a source text: its tokens, without whitespace and
    /// comments, read as items one after another, up to the first token at
    /// which no item can be read.
    pub fn parse(lexer: Lexer<'a>) -> (r: File<'a>)
        requires
            lexer.wf(),
        ensures
            exists|toks: Seq<Spanned<'a, Token<'a>>>|
                #[trigger] tokenizes(lexer.contents(), lexer.index() as int, toks) && r.model()
                    == grammar::file(significant(toks)),
    {
        let all = lexer.tokenize();
        let tokens = significant_tokens(&all);
        let mut stream = TokenStream::new(tokens);
        let items = parse_items(&mut stream);
        let r = File { items };
        assert(tokenizes(lexer.contents(), lexer.index() as int, all@));
        r
    }
}

impl<'a> From<MonoOperation<'a>> for PrimaryExpression<'a> {
    fn from(v: MonoOperation<'a>) -> (r: Self) {
        PrimaryExpression::MonoOperation(v)
    }
}

impl<'a> FromSpecImpl<MonoOperation<'a>> for PrimaryExpression<'a> {
    open spec fn obeys_from_spec() -> bool {
        true
    }

    open spec fn from_spec(v: MonoOperation<'a>) -> Self {
        PrimaryExpression::MonoOperation(v)
    }
}

impl<'a> From<Group<'a>> for PrimaryExpression<'a> {
    fn from(v: Group<'a>) -> (r: Self) {
        PrimaryExpression::Group(v)
    }
}

impl<'a> FromSpecImpl<Group<'a>> for PrimaryExpression<'a> {
    open spec fn obeys_from_spec() -> bool {
        true
    }

    open spec fn from_spec(v: Group<'a>) -> Self {
        PrimaryExpression::Group(v)
    }
}

impl<'a> From<IdentifierExpression<'a>> for PrimaryExpression<'a> {
    fn from(v: IdentifierExpression<'a>) -> (r: Self) {
        PrimaryExpression::IdentifierExpression(v)
    }
}

impl<'a> FromSpecImpl<IdentifierExpression<'a>> for PrimaryExpression<'a> {
    open spec fn obeys_from_spec() -> bool {
        true
    }

    open spec fn from_spec(v: IdentifierExpression<'a>) -> Self {
        PrimaryExpression::IdentifierExpression(v)
    }
}

impl<'a> From<LiteralExpression<'a>> for PrimaryExpression<'a> {
    fn from(v: LiteralExpression<'a>) -> (r: Self) {
        PrimaryExpression::LiteralExpression(v)
    }
}

impl<'a> FromSpecImpl<LiteralExpression<'a>> for PrimaryExpression<'a> {
    open spec fn obeys_from_spec() -> bool {
        true
    }

    open spec fn from_spec(v: LiteralExpression<'a>) -> Self {
        PrimaryExpression::LiteralExpression(v)
    }
}

impl<'a> From<GeometricOperation<'a>> for BinaryExpression<'a> {
    fn from(v: GeometricOperation<'a>) -> (r: Self) {
        BinaryExpression::GeometricOperation(v)
    }
}

impl<'a> FromSpecImpl<GeometricOperation<'a>> for BinaryExpression<'a> {
    open spec fn obeys_from_spec() -> bool {
        true
    }

    open spec fn from_spec(v: GeometricOperation<'a>) -> Self {
        BinaryExpression::GeometricOperation(v)
    }
}

impl<'a> From<ArithmeticOperation<'a>> for BinaryExpression<'a> {
    fn from(v: ArithmeticOperation<'a>) -> (r: Self) {
        BinaryExpression::ArithmeticOperation(v)
    }
}

impl<'a> FromSpecImpl<ArithmeticOperation<'a>> for BinaryExpression<'a> {
    open spec fn obeys_from_spec() -> bool {
        true
    }

    open spec fn from_spec(v: ArithmeticOperation<'a>) -> Self {
        BinaryExpression::ArithmeticOperation(v)
    }
}

impl<'a> From<BinaryOperation<'a>> for BinaryExpression<'a> {
    fn from(v: BinaryOperation<'a>) -> (r: Self) {
        BinaryExpression::BinaryOperation(v)
    }
}

impl<'a> FromSpecImpl<BinaryOperation<'a>> for BinaryExpression<'a> {
    open spec fn obeys_from_spec() -> bool {
        true
    }

    open spec fn from_spec(v: BinaryOperation<'a>) -> Self {
        BinaryExpression::BinaryOperation(v)
    }
}

impl<'a> From<BinaryExpression<'a>> for Expression<'a> {
    fn from(v: BinaryExpression<'a>) -> (r: Self) {
        Expression::BinaryExpression(v)
    }
}

impl<'a> FromSpecImpl<BinaryExpression<'a>> for Expression<'a> {
    open spec fn obeys_from_spec() -> bool {
        true
    }

    open spec fn from_spec(v: BinaryExpression<'a>) -> Self {
        Expression::BinaryExpression(v)
    }
}

impl<'a> From<Invocation<'a>> for Expression<'a> {
    fn from(v: Invocation<'a>) -> (r: Self) {
        Expression::Invocation(v)
    }
}

impl<'a> FromSpecImpl<Invocation<'a>> for Expression<'a> {
    open spec fn obeys_from_spec() -> bool {
        true
    }

    open spec fn from_spec(v: Invocation<'a>) -> Self {
        Expression::Invocation(v)
    }
}

impl<'a> From<PrimaryExpression<'a>> for Expression<'a> {
    fn from(v: PrimaryExpression<'a>) -> (r: Self) {
        Expression::PrimaryExpression(v)
    }
}

impl<'a> FromSpecImpl<PrimaryExpression<'a>> for Expression<'a> {
    open spec fn obeys_from_spec() -> bool {
        true
    }

    open spec fn from_spec(v: PrimaryExpression<'a>) -> Self {
        Expression::PrimaryExpression(v)
    }
}

impl<'a> From<Block<'a>> for Statement<'a> {
    fn from(v: Block<'a>) -> (r: Self) {
        Statement::Block(v)
    }
}

impl<'a> FromSpecImpl<Block<'a>> for Statement<'a> {
    open spec fn obeys_from_spec() -> bool {
        true
    }

    open spec fn from_spec(v: Block<'a>) -> Self {
        Statement::Block(v)
    }
}

impl<'a> From<Break<'a>> for Statement<'a> {
    fn from(v: Break<'a>) -> (r: Self) {
        Statement::Break(v)
    }
}

impl<'a> FromSpecImpl<Break<'a>> for Statement<'a> {
    open spec fn obeys_from_spec() -> bool {
        true
    }

    open spec fn from_spec(v: Break<'a>) -> Self {
        Statement::Break(v)
    }
}

impl<'a> From<Do<'a>> for Statement<'a> {
    fn from(v: Do<'a>) -> (r: Self) {
        Statement::Do(v)
    }
}

impl<'a> FromSpecImpl<Do<'a>> for Statement<'a> {
    open spec fn obeys_from_spec() -> bool {
        true
    }

    open spec fn from_spec(v: Do<'a>) -> Self {
        Statement::Do(v)
    }
}

impl<'a> From<Empty<'a>> for Statement<'a> {
    fn from(v: Empty<'a>) -> (r: Self) {
        Statement::Empty(v)
    }
}

impl<'a> FromSpecImpl<Empty<'a>> for Statement<'a> {
    open spec fn obeys_from_spec() -> bool {
        true
    }

    open spec fn from_spec(v: Empty<'a>) -> Self {
        Statement::Empty(v)
    }
}

impl<'a> From<Evaluate<'a>> for Statement<'a> {
    fn from(v: Evaluate<'a>) -> (r: Self) {
        Statement::Evaluate(v)
    }
}

impl<'a> FromSpecImpl<Evaluate<'a>> for Statement<'a> {
    open spec fn obeys_from_spec() -> bool {
        true
    }

    open spec fn from_spec(v: Evaluate<'a>) -> Self {
        Statement::Evaluate(v)
    }
}

impl<'a> From<For<'a>> for Statement<'a> {
    fn from(v: For<'a>) -> (r: Self) {
        Statement::For(v)
    }
}

impl<'a> FromSpecImpl<For<'a>> for Statement<'a> {
    open spec fn obeys_from_spec() -> bool {
        true
    }

    open spec fn from_spec(v: For<'a>) -> Self {
        Statement::For(v)
    }
}

impl<'a> From<If<'a>> for Statement<'a> {
    fn from(v: If<'a>) -> (r: Self) {
        Statement::If(v)
    }
}

impl<'a> FromSpecImpl<If<'a>> for Statement<'a> {
    open spec fn obeys_from_spec() -> bool {
        true
    }

    open spec fn from_spec(v: If<'a>) -> Self {
        Statement::If(v)
    }
}

impl<'a> From<Let<'a>> for Statement<'a> {
    fn from(v: Let<'a>) -> (r: Self) {
        Statement::Let(v)
    }
}

impl<'a> FromSpecImpl<Let<'a>> for Statement<'a> {
    open spec fn obeys_from_spec() -> bool {
        true
    }

    open spec fn from_spec(v: Let<'a>) -> Self {
        Statement::Let(v)
    }
}

impl<'a> From<Loop<'a>> for Statement<'a> {
    fn from(v: Loop<'a>) -> (r: Self) {
        Statement::Loop(v)
    }
}

impl<'a> FromSpecImpl<Loop<'a>> for Statement<'a> {
    open spec fn obeys_from_spec() -> bool {
        true
    }

    open spec fn from_spec(v: Loop<'a>) -> Self {
        Statement::Loop(v)
    }
}

impl<'a> From<Return<'a>> for Statement<'a> {
    fn from(v: Return<'a>) -> (r: Self) {
        Statement::Return(v)
    }
}

impl<'a> FromSpecImpl<Return<'a>> for Statement<'a> {
    open spec fn obeys_from_spec() -> bool {
        true
    }

    open spec fn from_spec(v: Return<'a>) -> Self {
        Statement::Return(v)
    }
}

impl<'a> From<Until<'a>> for Statement<'a> {
    fn from(v: Until<'a>) -> (r: Self) {
        Statement::Until(v)
    }
}

impl<'a> FromSpecImpl<Until<'a>> for Statement<'a> {
    open spec fn obeys_from_spec() -> bool {
        true
    }

    open spec fn from_spec(v: Until<'a>) -> Self {
        Statement::Until(v)
    }
}

impl<'a> From<While<'a>> for Statement<'a> {
    fn from(v: While<'a>) -> (r: Self) {
        Statement::While(v)
    }
}

impl<'a> FromSpecImpl<While<'a>> for Statement<'a> {
    open spec fn obeys_from_spec() -> bool {
        true
    }

    open spec fn from_spec(v: While<'a>) -> Self {
        Statement::While(v)
    }
}

impl<'a> From<Function<'a>> for Item<'a> {
    fn from(v: Function<'a>) -> (r: Self) {
        Item::Function(v)
    }
}

impl<'a> FromSpecImpl<Function<'a>> for Item<'a> {
    open spec fn obeys_from_spec() -> bool {
        true
    }

    open spec fn from_spec(v: Function<'a>) -> Self {
        Item::Function(v)
    }
}

impl<'a> From<Struct<'a>> for Item<'a> {
    fn from(v: Struct<'a>) -> (r: Self) {
        Item::Struct(v)
    }
}

impl<'a> FromSpecImpl<Struct<'a>> for Item<'a> {
    open spec fn obeys_from_spec() -> bool {
        true
    }

    open spec fn from_spec(v: Struct<'a>) -> Self {
        Item::Struct(v)
    }
}

impl<'a> From<Spanned<'a, Identifier<'a>>> for IdentifierExpression<'a> {
    fn from(v: Spanned<'a, Identifier<'a>>) -> (r: Self) {
        IdentifierExpression(v)
    }
}

impl<'a> FromSpecImpl<Spanned<'a, Identifier<'a>>> for IdentifierExpression<'a> {
    open spec fn obeys_from_spec() -> bool {
        true
    }

    open spec fn from_spec(v: Spanned<'a, Identifier<'a>>) -> Self {
        IdentifierExpression(v)
    }
}

impl<'a> From<Spanned<'a, Literal<'a>>> for LiteralExpression<'a> {
    fn from(v: Spanned<'a, Literal<'a>>) -> (r: Self) {
        LiteralExpression(v)
    }
}

impl<'a> FromSpecImpl<Spanned<'a, Literal<'a>>> for LiteralExpression<'a> {
    open spec fn obeys_from_spec() -> bool {
        true
    }

    open spec fn from_spec(v: Spanned<'a, Literal<'a>>) -> Self {
        LiteralExpression(v)
    }
}

impl<'x> Parseable for Expression<'x> {
    type Target<'a> = Expression<'a>;

    type Model<'a> = ExpressionModel<'a>;

    open spec fn model<'a>(target: Self::Target<'a>) -> Self::Model<'a> {
        expression_model(target)
    }

    open spec fn spec_parse<'a>(tokens: Seq<Spanned<'a, Token<'a>>>, index: nat) -> (Option<Self::Model<'a>>, nat) {
        match grammar::expression(tokens, index) {
            Some((m, p)) => (Some(m), p),
            None => (None, index),
        }
    }

    fn parse<'a>(stream: &mut TokenStream<'a>) -> (r: Option<Self::Target<'a>>) {
        parse_expression(stream)
    }
}

impl<'x> Parseable for BinaryExpression<'x> {
    type Target<'a> = BinaryExpression<'a>;

    type Model<'a> = ExpressionModel<'a>;

    open spec fn model<'a>(target: Self::Target<'a>) -> Self::Model<'a> {
        expression_model(Expression::BinaryExpression(target))
    }

    open spec fn spec_parse<'a>(tokens: Seq<Spanned<'a, Token<'a>>>, index: nat) -> (Option<Self::Model<'a>>, nat) {
        match grammar::binary_expression(tokens, index) {
            Some((m, p)) => (Some(m), p),
            None => (None, index),
        }
    }

    fn parse<'a>(stream: &mut TokenStream<'a>) -> (r: Option<Self::Target<'a>>) {
        parse_binary_expression(stream)
    }
}

impl<'x> Parseable for PrimaryExpression<'x> {
    type Target<'a> = PrimaryExpression<'a>;

    type Model<'a> = ExpressionModel<'a>;

    open spec fn model<'a>(target: Self::Target<'a>) -> Self::Model<'a> {
        primary_model(target)
    }

    open spec fn spec_parse<'a>(tokens: Seq<Spanned<'a, Token<'a>>>, index: nat) -> (Option<Self::Model<'a>>, nat) {
        match grammar::primary_expression(tokens, index) {
            Some((m, p)) => (Some(m), p),
            None => (None, index),
        }
    }

    fn parse<'a>(stream: &mut TokenStream<'a>) -> (r: Option<Self::Target<'a>>) {
        parse_primary(stream)
    }
}

impl<'x> Parseable for Invocation<'x> {
    type Target<'a> = Invocation<'a>;

    type Model<'a> = ExpressionModel<'a>;

    open spec fn model<'a>(target: Self::Target<'a>) -> Self::Model<'a> {
        expression_model(Expression::Invocation(target))
    }

    open spec fn spec_parse<'a>(tokens: Seq<Spanned<'a, Token<'a>>>, index: nat) -> (Option<Self::Model<'a>>, nat) {
        match grammar::invocation(tokens, index) {
            Some((m, p)) => (Some(m), p),
            None => (None, index),
        }
    }

    fn parse<'a>(stream: &mut TokenStream<'a>) -> (r: Option<Self::Target<'a>>) {
        parse_invocation(stream)
    }
}

impl<'x> Parseable for MonoOperation<'x> {
    type Target<'a> = MonoOperation<'a>;

    type Model<'a> = ExpressionModel<'a>;

    open spec fn model<'a>(target: Self::Target<'a>) -> Self::Model<'a> {
        primary_model(PrimaryExpression::MonoOperation(target))
    }

    open spec fn spec_parse<'a>(tokens: Seq<Spanned<'a, Token<'a>>>, index: nat) -> (Option<Self::Model<'a>>, nat) {
        match grammar::mono_operation(tokens, index) {
            Some((m, p)) => (Some(m), p),
            None => (None, index),
        }
    }

    fn parse<'a>(stream: &mut TokenStream<'a>) -> (r: Option<Self::Target<'a>>) {
        parse_mono(stream)
    }
}

impl<'x> Parseable for Group<'x> {
    type Target<'a> = Group<'a>;

    type Model<'a> = ExpressionModel<'a>;

    open spec fn model<'a>(target: Self::Target<'a>) -> Self::Model<'a> {
        primary_model(PrimaryExpression::Group(target))
    }

    open spec fn spec_parse<'a>(tokens: Seq<Spanned<'a, Token<'a>>>, index: nat) -> (Option<Self::Model<'a>>, nat) {
        match grammar::group(tokens, index) {
            Some((m, p)) => (Some(m), p),
            None => (None, index),
        }
    }

    fn parse<'a>(stream: &mut TokenStream<'a>) -> (r: Option<Self::Target<'a>>) {
        parse_group(stream)
    }
}

impl<'x> Parseable for GeometricOperation<'x> {
    type Target<'a> = GeometricOperation<'a>;

    type Model<'a> = ExpressionModel<'a>;

    open spec fn model<'a>(target: Self::Target<'a>) -> Self::Model<'a> {
        expression_model(Expression::BinaryExpression(BinaryExpression::GeometricOperation(target)))
    }

    open spec fn spec_parse<'a>(tokens: Seq<Spanned<'a, Token<'a>>>, index: nat) -> (Option<Self::Model<'a>>, nat) {
        match grammar::operation(tokens, index, OperatorClass::Geometric) {
            Some((l, o, r, p)) => (Some(ExpressionModel::Geometric(Box::new(l), o, Box::new(r))), p),
            None => (None, index),
        }
    }

    fn parse<'a>(stream: &mut TokenStream<'a>) -> (r: Option<Self::Target<'a>>) {
        match parse_operation(stream, OperatorClass::Geometric) {
            Some((lhs, op, rhs)) => Some(GeometricOperation { lhs, op, rhs: Box::new(rhs) }),
            None => None,
        }
    }
}

impl<'x> Parseable for ArithmeticOperation<'x> {
    type Target<'a> = ArithmeticOperation<'a>;

    type Model<'a> = ExpressionModel<'a>;

    open spec fn model<'a>(target: Self::Target<'a>) -> Self::Model<'a> {
        expression_model(Expression::BinaryExpression(BinaryExpression::ArithmeticOperation(target)))
    }

    open spec fn spec_parse<'a>(tokens: Seq<Spanned<'a, Token<'a>>>, index: nat) -> (Option<Self::Model<'a>>, nat) {
        match grammar::operation(tokens, index, OperatorClass::Arithmetic) {
            Some((l, o, r, p)) => (Some(ExpressionModel::Arithmetic(Box::new(l), o, Box::new(r))), p),
            None => (None, index),
        }
    }

    fn parse<'a>(stream: &mut TokenStream<'a>) -> (r: Option<Self::Target<'a>>) {
        match parse_operation(stream, OperatorClass::Arithmetic) {
            Some((lhs, op, rhs)) => Some(ArithmeticOperation { lhs, op, rhs: Box::new(rhs) }),
            None => None,
        }
    }
}

impl<'x> Parseable for BinaryOperation<'x> {
    type Target<'a> = BinaryOperation<'a>;

    type Model<'a> = ExpressionModel<'a>;

    open spec fn model<'a>(target: Self::Target<'a>) -> Self::Model<'a> {
        expression_model(Expression::BinaryExpression(BinaryExpression::BinaryOperation(target)))
    }

    open spec fn spec_parse<'a>(tokens: Seq<Spanned<'a, Token<'a>>>, index: nat) -> (Option<Self::Model<'a>>, nat) {
        match grammar::operation(tokens, index, OperatorClass::Any) {
            Some((l, o, r, p)) => (Some(ExpressionModel::Binary(Box::new(l), o, Box::new(r))), p),
            None => (None, index),
        }
    }

    fn parse<'a>(stream: &mut TokenStream<'a>) -> (r: Option<Self::Target<'a>>) {
        match parse_operation(stream, OperatorClass::Any) {
            Some((lhs, op, rhs)) => Some(BinaryOperation { lhs, op, rhs: Box::new(rhs) }),
            None => None,
        }
    }
}

impl<'x> Parseable for IdentifierExpression<'x> {
    type Target<'a> = IdentifierExpression<'a>;

    type Model<'a> = ExpressionModel<'a>;

    open spec fn model<'a>(target: Self::Target<'a>) -> Self::Model<'a> {
        ExpressionModel::Identifier(target.0)
    }

    open spec fn spec_parse<'a>(tokens: Seq<Spanned<'a, Token<'a>>>, index: nat) -> (Option<Self::Model<'a>>, nat) {
        match identifier_at(tokens, index) {
            Some(x) => (Some(ExpressionModel::Identifier(x)), index + 1),
            None => (None, index),
        }
    }

    fn parse<'a>(stream: &mut TokenStream<'a>) -> (r: Option<Self::Target<'a>>) {
        match read_identifier(stream) {
            Some(x) => Some(IdentifierExpression(x)),
            None => None,
        }
    }
}

impl<'x> Parseable for LiteralExpression<'x> {
    type Target<'a> = LiteralExpression<'a>;

    type Model<'a> = ExpressionModel<'a>;

    open spec fn model<'a>(target: Self::Target<'a>) -> Self::Model<'a> {
        ExpressionModel::Literal(target.0)
    }

    open spec fn spec_parse<'a>(tokens: Seq<Spanned<'a, Token<'a>>>, index: nat) -> (Option<Self::Model<'a>>, nat) {
        match literal_at(tokens, index) {
            Some(x) => (Some(ExpressionModel::Literal(x)), index + 1),
            None => (None, index),
        }
    }

    fn parse<'a>(stream: &mut TokenStream<'a>) -> (r: Option<Self::Target<'a>>) {
        match read_literal(stream) {
            Some(x) => Some(LiteralExpression(x)),
            None => None,
        }
    }
}

impl<'x> Parseable for Statement<'x> {
    type Target<'a> = Statement<'a>;

    type Model<'a> = StatementModel<'a>;

    open spec fn model<'a>(target: Self::Target<'a>) -> Self::Model<'a> {
        statement_model(target)
    }

    open spec fn spec_parse<'a>(tokens: Seq<Spanned<'a, Token<'a>>>, index: nat) -> (Option<Self::Model<'a>>, nat) {
        match grammar::statement(tokens, index) {
            Some((m, p)) => (Some(m), p),
            None => (None, index),
        }
    }

    fn parse<'a>(stream: &mut TokenStream<'a>) -> (r: Option<Self::Target<'a>>) {
        parse_statement(stream)
    }
}

impl<'x> Parseable for Block<'x> {
    type Target<'a> = Block<'a>;

    type Model<'a> = StatementModel<'a>;

    open spec fn model<'a>(target: Self::Target<'a>) -> Self::Model<'a> {
        statement_model(Statement::Block(target))
    }

    open spec fn spec_parse<'a>(tokens: Seq<Spanned<'a, Token<'a>>>, index: nat) -> (Option<Self::Model<'a>>, nat) {
        match grammar::block(tokens, index) {
            Some((m, p)) => (Some(m), p),
            None => (None, index),
        }
    }

    fn parse<'a>(stream: &mut TokenStream<'a>) -> (r: Option<Self::Target<'a>>) {
        parse_block(stream)
    }
}

impl<'x> Parseable for Break<'x> {
    type Target<'a> = Break<'a>;

    type Model<'a> = StatementModel<'a>;

    open spec fn model<'a>(target: Self::Target<'a>) -> Self::Model<'a> {
        statement_model(Statement::Break(target))
    }

    open spec fn spec_parse<'a>(tokens: Seq<Spanned<'a, Token<'a>>>, index: nat) -> (Option<Self::Model<'a>>, nat) {
        match grammar::break_statement(tokens, index) {
            Some((m, p)) => (Some(m), p),
            None => (None, index),
        }
    }

    fn parse<'a>(stream: &mut TokenStream<'a>) -> (r: Option<Self::Target<'a>>) {
        parse_break(stream)
    }
}

impl<'x> Parseable for Do<'x> {
    type Target<'a> = Do<'a>;

    type Model<'a> = StatementModel<'a>;

    open spec fn model<'a>(target: Self::Target<'a>) -> Self::Model<'a> {
        statement_model(Statement::Do(target))
    }

    open spec fn spec_parse<'a>(tokens: Seq<Spanned<'a, Token<'a>>>, index: nat) -> (Option<Self::Model<'a>>, nat) {
        match grammar::do_statement(tokens, index) {
            Some((m, p)) => (Some(m), p),
            None => (None, index),
        }
    }

    fn parse<'a>(stream: &mut TokenStream<'a>) -> (r: Option<Self::Target<'a>>) {
        parse_do(stream)
    }
}

impl<'x> Parseable for Empty<'x> {
    type Target<'a> = Empty<'a>;

    type Model<'a> = StatementModel<'a>;

    open spec fn model<'a>(target: Self::Target<'a>) -> Self::Model<'a> {
        statement_model(Statement::Empty(target))
    }

    open spec fn spec_parse<'a>(tokens: Seq<Spanned<'a, Token<'a>>>, index: nat) -> (Option<Self::Model<'a>>, nat) {
        match grammar::empty(tokens, index) {
            Some((m, p)) => (Some(m), p),
            None => (None, index),
        }
    }

    fn parse<'a>(stream: &mut TokenStream<'a>) -> (r: Option<Self::Target<'a>>) {
        parse_empty(stream)
    }
}

impl<'x> Parseable for Evaluate<'x> {
    type Target<'a> = Evaluate<'a>;

    type Model<'a> = StatementModel<'a>;

    open spec fn model<'a>(target: Self::Target<'a>) -> Self::Model<'a> {
        statement_model(Statement::Evaluate(target))
    }

    open spec fn spec_parse<'a>(tokens: Seq<Spanned<'a, Token<'a>>>, index: nat) -> (Option<Self::Model<'a>>, nat) {
        match grammar::evaluate(tokens, index) {
            Some((m, p)) => (Some(m), p),
            None => (None, index),
        }
    }

    fn parse<'a>(stream: &mut TokenStream<'a>) -> (r: Option<Self::Target<'a>>) {
        parse_evaluate(stream)
    }
}

impl<'x> Parseable for For<'x> {
    type Target<'a> = For<'a>;

    type Model<'a> = StatementModel<'a>;

    open spec fn model<'a>(target: Self::Target<'a>) -> Self::Model<'a> {
        statement_model(Statement::For(target))
    }

    open spec fn spec_parse<'a>(tokens: Seq<Spanned<'a, Token<'a>>>, index: nat) -> (Option<Self::Model<'a>>, nat) {
        match grammar::for_statement(tokens, index) {
            Some((m, p)) => (Some(m), p),
            None => (None, index),
        }
    }

    fn parse<'a>(stream: &mut TokenStream<'a>) -> (r: Option<Self::Target<'a>>) {
        parse_for(stream)
    }
}

impl<'x> Parseable for Let<'x> {
    type Target<'a> = Let<'a>;

    type Model<'a> = StatementModel<'a>;

    open spec fn model<'a>(target: Self::Target<'a>) -> Self::Model<'a> {
        statement_model(Statement::Let(target))
    }

    open spec fn spec_parse<'a>(tokens: Seq<Spanned<'a, Token<'a>>>, index: nat) -> (Option<Self::Model<'a>>, nat) {
        match grammar::let_statement(tokens, index) {
            Some((m, p)) => (Some(m), p),
            None => (None, index),
        }
    }

    fn parse<'a>(stream: &mut TokenStream<'a>) -> (r: Option<Self::Target<'a>>) {
        parse_let(stream)
    }
}

impl<'x> Parseable for Loop<'x> {
    type Target<'a> = Loop<'a>;

    type Model<'a> = StatementModel<'a>;

    open spec fn model<'a>(target: Self::Target<'a>) -> Self::Model<'a> {
        statement_model(Statement::Loop(target))
    }

    open spec fn spec_parse<'a>(tokens: Seq<Spanned<'a, Token<'a>>>, index: nat) -> (Option<Self::Model<'a>>, nat) {
        match grammar::loop_statement(tokens, index) {
            Some((m, p)) => (Some(m), p),
            None => (None, index),
        }
    }

    fn parse<'a>(stream: &mut TokenStream<'a>) -> (r: Option<Self::Target<'a>>) {
        parse_loop(stream)
    }
}

impl<'x> Parseable for Return<'x> {
    type Target<'a> = Return<'a>;

    type Model<'a> = StatementModel<'a>;

    open spec fn model<'a>(target: Self::Target<'a>) -> Self::Model<'a> {
        statement_model(Statement::Return(target))
    }

    open spec fn spec_parse<'a>(tokens: Seq<Spanned<'a, Token<'a>>>, index: nat) -> (Option<Self::Model<'a>>, nat) {
        match grammar::return_statement(tokens, index) {
            Some((m, p)) => (Some(m), p),
            None => (None, index),
        }
    }

    fn parse<'a>(stream: &mut TokenStream<'a>) -> (r: Option<Self::Target<'a>>) {
        parse_return(stream)
    }
}

impl<'x> Parseable for If<'x> {
    type Target<'a> = If<'a>;

    type Model<'a> = StatementModel<'a>;

    open spec fn model<'a>(target: Self::Target<'a>) -> Self::Model<'a> {
        statement_model(Statement::If(target))
    }

    open spec fn spec_parse<'a>(tokens: Seq<Spanned<'a, Token<'a>>>, index: nat) -> (Option<Self::Model<'a>>, nat) {
        match grammar::conditional(tokens, index, "if"@) {
            Some((c, s, p)) => (Some(StatementModel::If(c, Box::new(s))), p),
            None => (None, index),
        }
    }

    fn parse<'a>(stream: &mut TokenStream<'a>) -> (r: Option<Self::Target<'a>>) {
        match parse_conditional(stream, "if") {
            Some((cond, stmt)) => Some(If { cond, stmt: Box::new(stmt) }),
            None => None,
        }
    }
}

impl<'x> Parseable for Until<'x> {
    type Target<'a> = Until<'a>;

    type Model<'a> = StatementModel<'a>;

    open spec fn model<'a>(target: Self::Target<'a>) -> Self::Model<'a> {
        statement_model(Statement::Until(target))
    }

    open spec fn spec_parse<'a>(tokens: Seq<Spanned<'a, Token<'a>>>, index: nat) -> (Option<Self::Model<'a>>, nat) {
        match grammar::conditional(tokens, index, "until"@) {
            Some((c, s, p)) => (Some(StatementModel::Until(c, Box::new(s))), p),
            None => (None, index),
        }
    }

    fn parse<'a>(stream: &mut TokenStream<'a>) -> (r: Option<Self::Target<'a>>) {
        match parse_conditional(stream, "until") {
            Some((cond, stmt)) => Some(Until { cond, stmt: Box::new(stmt) }),
            None => None,
        }
    }
}

impl<'x> Parseable for While<'x> {
    type Target<'a> = While<'a>;

    type Model<'a> = StatementModel<'a>;

    open spec fn model<'a>(target: Self::Target<'a>) -> Self::Model<'a> {
        statement_model(Statement::While(target))
    }

    open spec fn spec_parse<'a>(tokens: Seq<Spanned<'a, Token<'a>>>, index: nat) -> (Option<Self::Model<'a>>, nat) {
        match grammar::conditional(tokens, index, "while"@) {
            Some((c, s, p)) => (Some(StatementModel::While(c, Box::new(s))), p),
            None => (None, index),
        }
    }

    fn parse<'a>(stream: &mut TokenStream<'a>) -> (r: Option<Self::Target<'a>>) {
        match parse_conditional(stream, "while") {
            Some((cond, stmt)) => Some(While { cond, stmt: Box::new(stmt) }),
            None => None,
        }
    }
}

impl<'x> Parseable for Function<'x> {
    type Target<'a> = Function<'a>;

    type Model<'a> = ItemModel<'a>;

    open spec fn model<'a>(target: Self::Target<'a>) -> Self::Model<'a> {
        item_model(Item::Function(target))
    }

    open spec fn spec_parse<'a>(tokens: Seq<Spanned<'a, Token<'a>>>, index: nat) -> (Option<Self::Model<'a>>, nat) {
        match grammar::function(tokens, index) {
            Some((m, p)) => (Some(m), p),
            None => (None, index),
        }
    }

    fn parse<'a>(stream: &mut TokenStream<'a>) -> (r: Option<Self::Target<'a>>) {
        parse_function(stream)
    }
}

impl<'x> Parseable for Struct<'x> {
    type Target<'a> = Struct<'a>;

    type Model<'a> = ItemModel<'a>;

    open spec fn model<'a>(target: Self::Target<'a>) -> Self::Model<'a> {
        item_model(Item::Struct(target))
    }

    open spec fn spec_parse<'a>(tokens: Seq<Spanned<'a, Token<'a>>>, index: nat) -> (Option<Self::Model<'a>>, nat) {
        match grammar::structure(tokens, index) {
            Some((m, p)) => (Some(m), p),
            None => (None, index),
        }
    }

    fn parse<'a>(stream: &mut TokenStream<'a>) -> (r: Option<Self::Target<'a>>) {
        parse_struct(stream)
    }
}

impl<'x> Parseable for Item<'x> {
    type Target<'a> = Item<'a>;

    type Model<'a> = ItemModel<'a>;

    open spec fn model<'a>(target: Self::Target<'a>) -> Self::Model<'a> {
        item_model(target)
    }

    open spec fn spec_parse<'a>(tokens: Seq<Spanned<'a, Token<'a>>>, index: nat) -> (Option<Self::Model<'a>>, nat) {
        match grammar::item(tokens, index) {
            Some((m, p)) => (Some(m), p),
            None => (None, index),
        }
    }

    fn parse<'a>(stream: &mut TokenStream<'a>) -> (r: Option<Self::Target<'a>>) {
        parse_item(stream)
    }
}

} // verus!
