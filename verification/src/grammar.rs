//! The syntax of the language, as spec functions over a sequence of tokens.
//!
//! Each function reads, from the token at `i` on, one construct and gives
//! its model with the index of the first token after it, or `None` when the
//! construct is not there; nothing is then read.
use crate::item::CommaList;
use crate::item::in_order;
use crate::item::lemma_comma_list_in_order;
use crate::item::Expression;
use crate::item::ExpressionModel;
use crate::item::Item;
use crate::item::Statement;
use crate::item::Field;
use crate::item::Parameter;
use crate::item::ItemModel;
use crate::item::StatementModel;
use crate::lexer::Identifier;
use crate::lexer::Literal;
use crate::lexer::Operator;
use crate::lexer::Parseable;
use crate::lexer::Token;
use crate::lexer::TokenKind;
use crate::lexer::is_token;
use crate::lexer::identifier_at;
use crate::lexer::literal_at;
use crate::lexer::operator_at;
use crate::span::Spanned;
use vstd::prelude::*;

verus! {

/// Which operators a binary operation accepts.
#[derive(Debug, PartialEq, Eq, Structural, Clone, Copy)]
pub enum OperatorClass {
    /// `*` and `/`
    Geometric,
    /// `+` and `-`
    Arithmetic,
    /// every operator
    Any,
}

pub open spec fn accepts(class: OperatorClass, text: Seq<char>) -> bool {
    match class {
        OperatorClass::Geometric => text == "*"@ || text == "/"@,
        OperatorClass::Arithmetic => text == "+"@ || text == "-"@,
        OperatorClass::Any => true,
    }
}

/// `expression = binary_expression | invocation | primary_expression`
pub open spec fn expression<'a>(t: Seq<Spanned<'a, Token<'a>>>, i: nat) -> Option<(ExpressionModel<'a>, nat)>
    decreases t.len() - i, 20int,
{
    match binary_expression(t, i) {
        Some(r) => Some(r),
        None => match invocation(t, i) {
            Some(r) => Some(r),
            None => primary_expression(t, i),
        },
    }
}

/// `binary_expression = geometric | arithmetic | binary`, each a primary
/// expression, an operator of its class and an expression; `binary` takes
/// every operator and `,`.
pub open spec fn binary_expression<'a>(t: Seq<Spanned<'a, Token<'a>>>, i: nat) -> Option<(ExpressionModel<'a>, nat)>
    decreases t.len() - i, 19int,
{
    match operation(t, i, OperatorClass::Geometric) {
        Some((l, o, r, p)) => Some((ExpressionModel::Geometric(Box::new(l), o, Box::new(r)), p)),
        None => match operation(t, i, OperatorClass::Arithmetic) {
            Some((l, o, r, p)) => Some((ExpressionModel::Arithmetic(Box::new(l), o, Box::new(r)), p)),
            None => match operation(t, i, OperatorClass::Any) {
                Some((l, o, r, p)) => Some((ExpressionModel::Binary(Box::new(l), o, Box::new(r)), p)),
                None => None,
            },
        },
    }
}

/// A primary expression, an operator of `class` and an expression.
pub open spec fn operation<'a>(t: Seq<Spanned<'a, Token<'a>>>, i: nat, class: OperatorClass) -> Option<
    (ExpressionModel<'a>, Spanned<'a, Operator<'a>>, ExpressionModel<'a>, nat),
>
    decreases t.len() - i, 18int,
{
    match primary_expression(t, i) {
        Some((lhs, p)) => if i <= p {
            match operator_of_class(t, p, class) {
                Some(op) => match expression(t, p + 1) {
                    Some((rhs, q)) => Some((lhs, op, rhs, q)),
                    None => None,
                },
                None => None,
            }
        } else {
            None
        },
        None => None,
    }
}

/// The operator at `i`, if it is of `class`; for every operator, a `,`
/// separator counts too, as an operator with the same text and span.
pub open spec fn operator_of_class<'a>(t: Seq<Spanned<'a, Token<'a>>>, i: nat, class: OperatorClass) -> Option<
    Spanned<'a, Operator<'a>>,
> {
    match operator_at(t, i) {
        Some(op) => if accepts(class, op.value.0@) {
            Some(op)
        } else {
            None
        },
        None => if class == OperatorClass::Any && is_token(t, i, TokenKind::Separator, ","@) {
            Some(Spanned { span: t[i as int].span, value: Operator(t[i as int].value.text()) })
        } else {
            None
        },
    }
}

/// `invocation = primary_expression, "(", arguments, ")"`
pub open spec fn invocation<'a>(t: Seq<Spanned<'a, Token<'a>>>, i: nat) -> Option<(ExpressionModel<'a>, nat)>
    decreases t.len() - i, 18int,
{
    match primary_expression(t, i) {
        Some((callee, p)) => if i <= p && is_token(t, p, TokenKind::Separator, "("@) {
            let (args, q) = arguments(t, p + 1);
            if is_token(t, q, TokenKind::Separator, ")"@) {
                Some((ExpressionModel::Invocation(Box::new(callee), args), q + 1))
            } else {
                None
            }
        } else {
            None
        },
        None => None,
    }
}

/// `arguments = [ expression, { ",", expression }, [ "," ] ]`: always read,
/// possibly empty.
pub open spec fn arguments<'a>(t: Seq<Spanned<'a, Token<'a>>>, i: nat) -> (Seq<ExpressionModel<'a>>, nat)
    decreases t.len() - i, 22int,
{
    match expression(t, i) {
        Some((e, p)) => if i <= p <= t.len() {
            more_arguments(t, p, seq![e])
        } else {
            (Seq::empty(), i)
        },
        None => (Seq::empty(), i),
    }
}

/// The arguments after the first, appended to `acc`: a comma followed by an
/// expression, repeatedly; a comma with no expression after it ends them.
pub open spec fn more_arguments<'a>(t: Seq<Spanned<'a, Token<'a>>>, i: nat, acc: Seq<ExpressionModel<'a>>) -> (
    Seq<ExpressionModel<'a>>,
    nat,
)
    decreases t.len() - i, 21int,
{
    if is_token(t, i, TokenKind::Separator, ","@) {
        match expression(t, i + 1) {
            Some((e, p)) => if i + 1 <= p <= t.len() {
                more_arguments(t, p, acc.push(e))
            } else {
                (acc, i + 1)
            },
            None => (acc, i + 1),
        }
    } else {
        (acc, i)
    }
}

/// `primary_expression = mono_operation | group | identifier | literal`
pub open spec fn primary_expression<'a>(t: Seq<Spanned<'a, Token<'a>>>, i: nat) -> Option<(ExpressionModel<'a>, nat)>
    decreases t.len() - i, 10int,
{
    match mono_operation(t, i) {
        Some(r) => Some(r),
        None => match group(t, i) {
            Some(r) => Some(r),
            None => match identifier_at(t, i) {
                Some(x) => Some((ExpressionModel::Identifier(x), i + 1)),
                None => match literal_at(t, i) {
                    Some(x) => Some((ExpressionModel::Literal(x), i + 1)),
                    None => None,
                },
            },
        },
    }
}

/// `mono_operation = operator, expression`
pub open spec fn mono_operation<'a>(t: Seq<Spanned<'a, Token<'a>>>, i: nat) -> Option<(ExpressionModel<'a>, nat)>
    decreases t.len() - i, 8int,
{
    match operator_at(t, i) {
        Some(op) => match expression(t, i + 1) {
            Some((e, p)) => Some((ExpressionModel::Mono(op, Box::new(e)), p)),
            None => None,
        },
        None => None,
    }
}

/// `group = "(", expression, ")"`
pub open spec fn group<'a>(t: Seq<Spanned<'a, Token<'a>>>, i: nat) -> Option<(ExpressionModel<'a>, nat)>
    decreases t.len() - i, 8int,
{
    if is_token(t, i, TokenKind::Separator, "("@) {
        match expression(t, i + 1) {
            Some((e, p)) => if is_token(t, p, TokenKind::Separator, ")"@) {
                Some((ExpressionModel::Group(Box::new(e)), p + 1))
            } else {
                None
            },
            None => None,
        }
    } else {
        None
    }
}

/// `statement = block | break | do | empty | evaluate | for | if | let |
/// loop | return | until | while`, tried in this order.
pub open spec fn statement<'a>(t: Seq<Spanned<'a, Token<'a>>>, i: nat) -> Option<(StatementModel<'a>, nat)>
    decreases t.len() - i, 40int,
{
    match block(t, i) {
        Some(r) => Some(r),
        None => match break_statement(t, i) {
            Some(r) => Some(r),
            None => match do_statement(t, i) {
                Some(r) => Some(r),
                None => match empty(t, i) {
                    Some(r) => Some(r),
                    None => match evaluate(t, i) {
                        Some(r) => Some(r),
                        None => match for_statement(t, i) {
                            Some(r) => Some(r),
                            None => match conditional(t, i, "if"@) {
                                Some((c, s, p)) => Some((StatementModel::If(c, Box::new(s)), p)),
                                None => match let_statement(t, i) {
                                    Some(r) => Some(r),
                                    None => match loop_statement(t, i) {
                                        Some(r) => Some(r),
                                        None => match return_statement(t, i) {
                                            Some(r) => Some(r),
                                            None => match conditional(t, i, "until"@) {
                                                Some((c, s, p)) => Some((StatementModel::Until(c, Box::new(s)), p)),
                                                None => match conditional(t, i, "while"@) {
                                                    Some((c, s, p)) => Some((StatementModel::While(c, Box::new(s)), p)),
                                                    None => None,
                                                },
                                            },
                                        },
                                    },
                                },
                            },
                        },
                    },
                },
            },
        },
    }
}

/// Statements, one after another, appended to `acc`, for as long as one can
/// be read.
pub open spec fn statements<'a>(t: Seq<Spanned<'a, Token<'a>>>, i: nat, acc: Seq<StatementModel<'a>>) -> (
    Seq<StatementModel<'a>>,
    nat,
)
    decreases t.len() - i, 41int,
{
    match statement(t, i) {
        Some((s, p)) => if i < p <= t.len() {
            statements(t, p, acc.push(s))
        } else {
            (acc, i)
        },
        None => (acc, i),
    }
}

/// `block = "{", { statement }, "}"`
pub open spec fn block<'a>(t: Seq<Spanned<'a, Token<'a>>>, i: nat) -> Option<(StatementModel<'a>, nat)>
    decreases t.len() - i, 30int,
{
    if is_token(t, i, TokenKind::Separator, "{"@) {
        let (stmts, p) = statements(t, i + 1, Seq::empty());
        if is_token(t, p, TokenKind::Separator, "}"@) {
            Some((StatementModel::Block(stmts), p + 1))
        } else {
            None
        }
    } else {
        None
    }
}

/// `break = "break", ";"`
pub open spec fn break_statement<'a>(t: Seq<Spanned<'a, Token<'a>>>, i: nat) -> Option<(StatementModel<'a>, nat)> {
    if is_token(t, i, TokenKind::Identifier, "break"@) && is_token(t, i + 1, TokenKind::Separator, ";"@) {
        Some((StatementModel::Break, i + 2))
    } else {
        None
    }
}

/// `do = "do", statement, "while", "(", expression, ")", ";"`
pub open spec fn do_statement<'a>(t: Seq<Spanned<'a, Token<'a>>>, i: nat) -> Option<(StatementModel<'a>, nat)>
    decreases t.len() - i, 30int,
{
    if is_token(t, i, TokenKind::Identifier, "do"@) {
        match statement(t, i + 1) {
            Some((s, p)) => if i <= p && is_token(t, p, TokenKind::Identifier, "while"@) && is_token(
                t,
                p + 1,
                TokenKind::Separator,
                "("@,
            ) {
                match expression(t, p + 2) {
                    Some((c, q)) => if is_token(t, q, TokenKind::Separator, ")"@) && is_token(
                        t,
                        q + 1,
                        TokenKind::Separator,
                        ";"@,
                    ) {
                        Some((StatementModel::Do(c, Box::new(s)), q + 2))
                    } else {
                        None
                    },
                    None => None,
                }
            } else {
                None
            },
            None => None,
        }
    } else {
        None
    }
}

/// `empty = ";"`
pub open spec fn empty<'a>(t: Seq<Spanned<'a, Token<'a>>>, i: nat) -> Option<(StatementModel<'a>, nat)> {
    if is_token(t, i, TokenKind::Separator, ";"@) {
        Some((StatementModel::Empty, i + 1))
    } else {
        None
    }
}

/// `evaluate = expression, ";"`
pub open spec fn evaluate<'a>(t: Seq<Spanned<'a, Token<'a>>>, i: nat) -> Option<(StatementModel<'a>, nat)>
    decreases t.len() - i, 30int,
{
    match expression(t, i) {
        Some((e, p)) => if is_token(t, p, TokenKind::Separator, ";"@) {
            Some((StatementModel::Evaluate(e), p + 1))
        } else {
            None
        },
        None => None,
    }
}

/// `for = "for", "(", statement, expression, ";", statement, ")", statement`
pub open spec fn for_statement<'a>(t: Seq<Spanned<'a, Token<'a>>>, i: nat) -> Option<(StatementModel<'a>, nat)>
    decreases t.len() - i, 30int,
{
    if is_token(t, i, TokenKind::Identifier, "for"@) && is_token(t, i + 1, TokenKind::Separator, "("@) {
        match statement(t, i + 2) {
            Some((init, p)) => if i < p <= t.len() {
                match expression(t, p) {
                    Some((cond, q)) => if i <= q && is_token(t, q, TokenKind::Separator, ";"@) {
                        match statement(t, q + 1) {
                            Some((eval, r)) => if i <= r && is_token(t, r, TokenKind::Separator, ")"@) {
                                match statement(t, r + 1) {
                                    Some((s, k)) => Some(
                                        (
                                            StatementModel::For(
                                                Box::new(init),
                                                cond,
                                                Box::new(eval),
                                                Box::new(s),
                                            ),
                                            k,
                                        ),
                                    ),
                                    None => None,
                                }
                            } else {
                                None
                            },
                            None => None,
                        }
                    } else {
                        None
                    },
                    None => None,
                }
            } else {
                None
            },
            None => None,
        }
    } else {
        None
    }
}

/// `keyword, "(", expression, ")", statement`: the shape of `if`, `until`
/// and `while`.
pub open spec fn conditional<'a>(t: Seq<Spanned<'a, Token<'a>>>, i: nat, keyword: Seq<char>) -> Option<
    (ExpressionModel<'a>, StatementModel<'a>, nat),
>
    decreases t.len() - i, 29int,
{
    if is_token(t, i, TokenKind::Identifier, keyword) && is_token(t, i + 1, TokenKind::Separator, "("@) {
        match expression(t, i + 2) {
            Some((c, p)) => if i <= p && is_token(t, p, TokenKind::Separator, ")"@) {
                match statement(t, p + 1) {
                    Some((s, q)) => Some((c, s, q)),
                    None => None,
                }
            } else {
                None
            },
            None => None,
        }
    } else {
        None
    }
}

/// `let = "let", identifier, "=", expression, ";"`
pub open spec fn let_statement<'a>(t: Seq<Spanned<'a, Token<'a>>>, i: nat) -> Option<(StatementModel<'a>, nat)>
    decreases t.len() - i, 30int,
{
    if is_token(t, i, TokenKind::Identifier, "let"@) {
        match identifier_at(t, i + 1) {
            Some(name) => if is_token(t, i + 2, TokenKind::Operator, "="@) {
                match expression(t, i + 3) {
                    Some((e, p)) => if is_token(t, p, TokenKind::Separator, ";"@) {
                        Some((StatementModel::Let(name, e), p + 1))
                    } else {
                        None
                    },
                    None => None,
                }
            } else {
                None
            },
            None => None,
        }
    } else {
        None
    }
}

/// `loop = "loop", statement`
pub open spec fn loop_statement<'a>(t: Seq<Spanned<'a, Token<'a>>>, i: nat) -> Option<(StatementModel<'a>, nat)>
    decreases t.len() - i, 30int,
{
    if is_token(t, i, TokenKind::Identifier, "loop"@) {
        match statement(t, i + 1) {
            Some((s, p)) => Some((StatementModel::Loop(Box::new(s)), p)),
            None => None,
        }
    } else {
        None
    }
}

/// `return = "return", expression, ";"`
pub open spec fn return_statement<'a>(t: Seq<Spanned<'a, Token<'a>>>, i: nat) -> Option<(StatementModel<'a>, nat)>
    decreases t.len() - i, 30int,
{
    if is_token(t, i, TokenKind::Identifier, "return"@) {
        match expression(t, i + 1) {
            Some((e, p)) => if is_token(t, p, TokenKind::Separator, ";"@) {
                Some((StatementModel::Return(e), p + 1))
            } else {
                None
            },
            None => None,
        }
    } else {
        None
    }
}

/// `field = identifier, ":", identifier`
pub open spec fn field<'a>(t: Seq<Spanned<'a, Token<'a>>>, i: nat) -> Option<(Field<'a>, nat)> {
    match identifier_at(t, i) {
        Some(name) => if is_token(t, i + 1, TokenKind::Operator, ":"@) {
            match identifier_at(t, i + 2) {
                Some(ty) => Some((Field { name, ty }, i + 3)),
                None => None,
            }
        } else {
            None
        },
        None => None,
    }
}

/// `parameter = identifier, ":", identifier`
pub open spec fn parameter<'a>(t: Seq<Spanned<'a, Token<'a>>>, i: nat) -> Option<(Parameter<'a>, nat)> {
    match identifier_at(t, i) {
        Some(name) => if is_token(t, i + 1, TokenKind::Operator, ":"@) {
            match identifier_at(t, i + 2) {
                Some(ty) => Some((Parameter { name, ty }, i + 3)),
                None => None,
            }
        } else {
            None
        },
        None => None,
    }
}

/// `function = "fn", identifier, "(", parameters, ")", statement`, the
/// parameters separated by commas.
pub open spec fn function<'a>(t: Seq<Spanned<'a, Token<'a>>>, i: nat) -> Option<(ItemModel<'a>, nat)> {
    if is_token(t, i, TokenKind::Identifier, "fn"@) {
        match identifier_at(t, i + 1) {
            Some(name) => if is_token(t, i + 2, TokenKind::Separator, "("@) {
                match <CommaList<Parameter<'a>> as Parseable>::spec_parse(t, i + 3) {
                    (Some(params), p) => if is_token(t, p, TokenKind::Separator, ")"@) {
                        match statement(t, p + 1) {
                            Some((s, q)) => Some((ItemModel::Function(name, params, s), q)),
                            None => None,
                        }
                    } else {
                        None
                    },
                    (None, _) => None,
                }
            } else {
                None
            },
            None => None,
        }
    } else {
        None
    }
}

/// `structure = "struct", identifier, "{", fields, "}"`, the fields
/// separated by commas.
pub open spec fn structure<'a>(t: Seq<Spanned<'a, Token<'a>>>, i: nat) -> Option<(ItemModel<'a>, nat)> {
    if is_token(t, i, TokenKind::Identifier, "struct"@) {
        match identifier_at(t, i + 1) {
            Some(name) => if is_token(t, i + 2, TokenKind::Separator, "{"@) {
                match <CommaList<Field<'a>> as Parseable>::spec_parse(t, i + 3) {
                    (Some(fields), p) => if is_token(t, p, TokenKind::Separator, "}"@) {
                        Some((ItemModel::Struct(name, fields), p + 1))
                    } else {
                        None
                    },
                    (None, _) => None,
                }
            } else {
                None
            },
            None => None,
        }
    } else {
        None
    }
}

/// `item = function | structure`
pub open spec fn item<'a>(t: Seq<Spanned<'a, Token<'a>>>, i: nat) -> Option<(ItemModel<'a>, nat)> {
    match function(t, i) {
        Some(r) => Some(r),
        None => structure(t, i),
    }
}

/// The items read from `i` on, appended to `acc`, up to the first token at
/// which no item can be read.
pub open spec fn items<'a>(t: Seq<Spanned<'a, Token<'a>>>, i: nat, acc: Seq<ItemModel<'a>>) -> Seq<ItemModel<'a>>
    decreases t.len() - i,
{
    match item(t, i) {
        Some((x, p)) => if i < p <= t.len() {
            items(t, p, acc.push(x))
        } else {
            acc
        },
        None => acc,
    }
}

/// `file = { structure | function }`: the items of the whole token
/// sequence, up to the first token at which none can be read.
pub open spec fn file<'a>(t: Seq<Spanned<'a, Token<'a>>>) -> Seq<ItemModel<'a>> {
    items(t, 0, Seq::empty())
}

/// An expression that is read takes in at least one token.
proof fn lemma_expression_progress<'a>(t: Seq<Spanned<'a, Token<'a>>>, i: nat)
    ensures
        expression(t, i) matches Some((_, p)) ==> i < p,
    decreases t.len() - i, 20int,
{
    lemma_binary_progress(t, i);
    lemma_invocation_progress(t, i);
    lemma_primary_progress(t, i);
}

proof fn lemma_binary_progress<'a>(t: Seq<Spanned<'a, Token<'a>>>, i: nat)
    ensures
        binary_expression(t, i) matches Some((_, p)) ==> i < p,
    decreases t.len() - i, 19int,
{
    lemma_operation_progress(t, i, OperatorClass::Geometric);
    lemma_operation_progress(t, i, OperatorClass::Arithmetic);
    lemma_operation_progress(t, i, OperatorClass::Any);
}

proof fn lemma_operation_progress<'a>(t: Seq<Spanned<'a, Token<'a>>>, i: nat, class: OperatorClass)
    ensures
        operation(t, i, class) matches Some((_, _, _, q)) ==> i < q,
    decreases t.len() - i, 18int,
{
    if let Some((_, p)) = primary_expression(t, i) {
        if i <= p && operator_of_class(t, p, class) is Some {
            lemma_expression_progress(t, p + 1);
        }
    }
}

proof fn lemma_more_arguments_progress<'a>(t: Seq<Spanned<'a, Token<'a>>>, i: nat, acc: Seq<ExpressionModel<'a>>)
    ensures
        i <= more_arguments(t, i, acc).1,
    decreases t.len() - i,
{
    if is_token(t, i, TokenKind::Separator, ","@) {
        if let Some((e, p)) = expression(t, i + 1) {
            if i + 1 <= p <= t.len() {
                lemma_more_arguments_progress(t, p, acc.push(e));
            }
        }
    }
}

proof fn lemma_invocation_progress<'a>(t: Seq<Spanned<'a, Token<'a>>>, i: nat)
    ensures
        invocation(t, i) matches Some((_, p)) ==> i < p,
    decreases t.len() - i, 18int,
{
    if let Some((_, p)) = primary_expression(t, i) {
        if i <= p && is_token(t, p, TokenKind::Separator, "("@) {
            if let Some((e, q)) = expression(t, p + 1) {
                if p + 1 <= q <= t.len() {
                    lemma_more_arguments_progress(t, q, seq![e]);
                }
            }
        }
    }
}

proof fn lemma_primary_progress<'a>(t: Seq<Spanned<'a, Token<'a>>>, i: nat)
    ensures
        primary_expression(t, i) matches Some((_, p)) ==> i < p,
    decreases t.len() - i, 10int,
{
    if operator_at(t, i) is Some {
        lemma_expression_progress(t, i + 1);
    }
    if is_token(t, i, TokenKind::Separator, "("@) {
        lemma_expression_progress(t, i + 1);
    }
}

/// No expression starts at a `)`: a closing bracket can only end one.
pub proof fn lemma_no_expression_at_closer<'a>(t: Seq<Spanned<'a, Token<'a>>>, i: nat)
    requires
        is_token(t, i, TokenKind::Separator, ")"@),
    ensures
        primary_expression(t, i) is None,
        expression(t, i) is None,
{
    reveal_strlit("(");
    reveal_strlit(")");
    assert(")"@[0] != "("@[0]);
}

/// The class of a binary operation is set by its operator: a primary
/// expression, an operator and an expression are read as a geometric
/// operation when the operator is `*` or `/`, as an arithmetic one when it
/// is `+` or `-`, and as a plain binary operation for any other operator,
/// or for a `,`, which stands as an operator with its own text and span.
pub proof fn lemma_binary_operation_class<'a>(t: Seq<Spanned<'a, Token<'a>>>, i: nat)
    ensures
        primary_expression(t, i) matches Some((l, p)) ==> {
            &&& operator_at(t, p) matches Some(op) ==> (expression(t, p + 1) matches Some((r, q)) ==> {
                let text = op.value.0@;
                binary_expression(t, i) == Some(
                    (
                        if text == "*"@ || text == "/"@ {
                            ExpressionModel::Geometric(Box::new(l), op, Box::new(r))
                        } else if text == "+"@ || text == "-"@ {
                            ExpressionModel::Arithmetic(Box::new(l), op, Box::new(r))
                        } else {
                            ExpressionModel::Binary(Box::new(l), op, Box::new(r))
                        },
                        q,
                    ),
                )
            })
            &&& is_token(t, p, TokenKind::Separator, ","@) ==> (expression(t, p + 1) matches Some((r, q))
                ==> binary_expression(t, i) == Some(
                (
                    ExpressionModel::Binary(
                        Box::new(l),
                        Spanned { span: t[p as int].span, value: Operator(t[p as int].value.text()) },
                        Box::new(r),
                    ),
                    q,
                ),
            ))
        },
{
    lemma_primary_progress(t, i);
}

/// A call with nothing between its brackets is read as an invocation with
/// no arguments, also as a whole expression: a primary expression, `(` and
/// `)` give the invocation of that expression, and reading ends after `)`.
pub proof fn lemma_call_without_arguments<'a>(t: Seq<Spanned<'a, Token<'a>>>, i: nat)
    ensures
        primary_expression(t, i) matches Some((l, p)) ==> (is_token(t, p, TokenKind::Separator, "("@)
            && is_token(t, p + 1, TokenKind::Separator, ")"@) ==> {
            &&& invocation(t, i) == Some((ExpressionModel::Invocation(Box::new(l), Seq::empty()), p + 2))
            &&& expression(t, i) == Some((ExpressionModel::Invocation(Box::new(l), Seq::empty()), p + 2))
        }),
{
    lemma_primary_progress(t, i);
    if let Some((l, p)) = primary_expression(t, i) {
        if is_token(t, p, TokenKind::Separator, "("@) && is_token(t, p + 1, TokenKind::Separator, ")"@) {
            lemma_no_expression_at_closer(t, p + 1);
            reveal_strlit("(");
            reveal_strlit(",");
            assert("("@[0] != ","@[0]);
            assert(operator_of_class(t, p, OperatorClass::Geometric) is None);
            assert(operator_of_class(t, p, OperatorClass::Arithmetic) is None);
            assert(operator_of_class(t, p, OperatorClass::Any) is None);
        }
    }
}

/// The fields of a structure come in the order of their tokens: the `k`-th
/// field is the one read at the `k`-th of a rising run of token indices
/// between the braces, each field ending before the next starts.
pub proof fn lemma_struct_fields_in_order<'a>(t: Seq<Spanned<'a, Token<'a>>>, i: nat)
    ensures
        structure(t, i) matches Some((ItemModel::Struct(_, fields), p)) ==> exists|idx: Seq<nat>|
            #[trigger] in_order::<Field<'a>>(t, fields, idx, i + 3, p),
{
    let idx = lemma_comma_list_in_order::<Field<'a>>(t, i + 3);
    if let Some((ItemModel::Struct(_, fields), p)) = structure(t, i) {
        assert(in_order::<Field<'a>>(t, fields, idx, i + 3, p));
    }
}

/// The parameters of a function come in the order of their tokens, as the
/// fields of a structure do, all before the `)` that closes them.
pub proof fn lemma_function_parameters_in_order<'a>(t: Seq<Spanned<'a, Token<'a>>>, i: nat)
    ensures
        function(t, i) matches Some((ItemModel::Function(_, params, _), _)) ==> exists|
            idx: Seq<nat>,
            q: nat,
        | is_token(t, q, TokenKind::Separator, ")"@) && #[trigger] in_order::<Parameter<'a>>(t, params, idx, i + 3, q),
{
    let idx = lemma_comma_list_in_order::<Parameter<'a>>(t, i + 3);
    if let Some((ItemModel::Function(_, params, _), _)) = function(t, i) {
        let q = <CommaList<Parameter<'a>> as Parseable>::spec_parse(t, i + 3).1;
        assert(in_order::<Parameter<'a>>(t, params, idx, i + 3, q));
    }
}

/// The statements that `statements` adds after `acc` are read in order
/// from `i` on, up to where they end.
proof fn lemma_statements_in_order<'a>(t: Seq<Spanned<'a, Token<'a>>>, i: nat, acc: Seq<StatementModel<'a>>) -> (idx:
    Seq<nat>)
    ensures
        ({
            let (all, q) = statements(t, i, acc);
            &&& i <= q
            &&& all == acc + all.skip(acc.len() as int)
            &&& in_order::<Statement<'a>>(t, all.skip(acc.len() as int), idx, i, q)
        }),
    decreases t.len() - i,
{
    let (all, q) = statements(t, i, acc);
    match statement(t, i) {
        Some((s, p)) => if i < p <= t.len() {
            let rest = lemma_statements_in_order(t, p, acc.push(s));
            let idx = seq![i] + rest;
            let tail = all.skip((acc.len() + 1) as int);
            assert(all.skip(acc.len() as int) =~= seq![s] + tail);
            assert(all =~= acc + all.skip(acc.len() as int));
            assert forall|k: int, j: int| 0 <= k < j < idx.len() implies #[trigger] idx[k] < #[trigger] idx[j]
                && <Statement<'a> as Parseable>::spec_parse(t, idx[k]).1 <= idx[j] by {
                assert(idx[j] == rest[j - 1]);
                if k > 0 {
                    assert(idx[k] == rest[k - 1]);
                }
            }
            assert forall|k: int| 0 <= k < idx.len() implies {
                &&& i <= #[trigger] idx[k]
                &&& <Statement<'a> as Parseable>::spec_parse(t, idx[k]).0 == Some(all.skip(acc.len() as int)[k])
                &&& idx[k] <= <Statement<'a> as Parseable>::spec_parse(t, idx[k]).1 <= q
            } by {
                if k > 0 {
                    assert(idx[k] == rest[k - 1]);
                    assert(all.skip(acc.len() as int)[k] == tail[k - 1]);
                }
            }
            return idx;
        } else {
        },
        None => {},
    }
    assert(all.skip(acc.len() as int) =~= Seq::<StatementModel<'a>>::empty());
    assert(all =~= acc + all.skip(acc.len() as int));
    Seq::empty()
}

/// The statements of a block come in the order of their tokens: the `k`-th
/// statement is the one read at the `k`-th of a rising run of token indices
/// between the braces, each ending where the next starts.
pub proof fn lemma_block_statements_in_order<'a>(t: Seq<Spanned<'a, Token<'a>>>, i: nat)
    ensures
        block(t, i) matches Some((StatementModel::Block(stmts), p)) ==> exists|idx: Seq<nat>|
            #[trigger] in_order::<Statement<'a>>(t, stmts, idx, i + 1, p),
{
    let idx = lemma_statements_in_order(t, i + 1, Seq::empty());
    if let Some((StatementModel::Block(stmts), p)) = block(t, i) {
        assert(statements(t, i + 1, Seq::empty()).0.skip(0) =~= stmts);
        assert(in_order::<Statement<'a>>(t, stmts, idx, i + 1, p));
    }
}

/// The items that `items` adds after `acc` are read in order from `i` on.
proof fn lemma_items_in_order<'a>(t: Seq<Spanned<'a, Token<'a>>>, i: nat, acc: Seq<ItemModel<'a>>) -> (idx: Seq<nat>)
    requires
        i <= t.len(),
    ensures
        ({
            let all = items(t, i, acc);
            &&& all == acc + all.skip(acc.len() as int)
            &&& in_order::<Item<'a>>(t, all.skip(acc.len() as int), idx, i, t.len())
        }),
    decreases t.len() - i,
{
    let all = items(t, i, acc);
    match item(t, i) {
        Some((x, p)) => if i < p <= t.len() {
            let rest = lemma_items_in_order(t, p, acc.push(x));
            let idx = seq![i] + rest;
            let tail = all.skip((acc.len() + 1) as int);
            assert(all.skip(acc.len() as int) =~= seq![x] + tail);
            assert(all =~= acc + all.skip(acc.len() as int));
            assert forall|k: int, j: int| 0 <= k < j < idx.len() implies #[trigger] idx[k] < #[trigger] idx[j]
                && <Item<'a> as Parseable>::spec_parse(t, idx[k]).1 <= idx[j] by {
                assert(idx[j] == rest[j - 1]);
                if k > 0 {
                    assert(idx[k] == rest[k - 1]);
                }
            }
            assert forall|k: int| 0 <= k < idx.len() implies {
                &&& i <= #[trigger] idx[k]
                &&& <Item<'a> as Parseable>::spec_parse(t, idx[k]).0 == Some(all.skip(acc.len() as int)[k])
                &&& idx[k] <= <Item<'a> as Parseable>::spec_parse(t, idx[k]).1 <= t.len()
            } by {
                if k > 0 {
                    assert(idx[k] == rest[k - 1]);
                    assert(all.skip(acc.len() as int)[k] == tail[k - 1]);
                }
            }
            return idx;
        } else {
        },
        None => {},
    }
    assert(all.skip(acc.len() as int) =~= Seq::<ItemModel<'a>>::empty());
    assert(all =~= acc + all.skip(acc.len() as int));
    Seq::empty()
}

/// The items of a file come in the order of their tokens: the `k`-th item
/// is the one read at the `k`-th of a rising run of token indices, each
/// ending where the next starts.
pub proof fn lemma_file_items_in_order<'a>(t: Seq<Spanned<'a, Token<'a>>>)
    ensures
        exists|idx: Seq<nat>| #[trigger] in_order::<Item<'a>>(t, file(t), idx, 0, t.len()),
{
    let idx = lemma_items_in_order(t, 0, Seq::empty());
    assert(file(t).skip(0) =~= file(t));
    assert(in_order::<Item<'a>>(t, file(t), idx, 0, t.len()));
}

/// The arguments that `more_arguments` adds after `acc` are read in order
/// after `i`.
proof fn lemma_more_arguments_in_order<'a>(t: Seq<Spanned<'a, Token<'a>>>, i: nat, acc: Seq<ExpressionModel<'a>>) -> (idx:
    Seq<nat>)
    ensures
        ({
            let (all, q) = more_arguments(t, i, acc);
            &&& i <= q
            &&& all == acc + all.skip(acc.len() as int)
            &&& in_order::<Expression<'a>>(t, all.skip(acc.len() as int), idx, i + 1, q)
        }),
    decreases t.len() - i,
{
    let (all, q) = more_arguments(t, i, acc);
    if is_token(t, i, TokenKind::Separator, ","@) {
        if let Some((e, p)) = expression(t, i + 1) {
            if i + 1 <= p <= t.len() {
                let rest = lemma_more_arguments_in_order(t, p, acc.push(e));
                let idx = seq![i + 1] + rest;
                let tail = all.skip((acc.len() + 1) as int);
                assert(all.skip(acc.len() as int) =~= seq![e] + tail);
                assert(all =~= acc + all.skip(acc.len() as int));
                assert forall|k: int, j: int| 0 <= k < j < idx.len() implies #[trigger] idx[k] < #[trigger] idx[j]
                    && <Expression<'a> as Parseable>::spec_parse(t, idx[k]).1 <= idx[j] by {
                    assert(idx[j] == rest[j - 1]);
                    if k > 0 {
                        assert(idx[k] == rest[k - 1]);
                    }
                }
                assert forall|k: int| 0 <= k < idx.len() implies {
                    &&& i + 1 <= #[trigger] idx[k]
                    &&& <Expression<'a> as Parseable>::spec_parse(t, idx[k]).0 == Some(all.skip(acc.len() as int)[k])
                    &&& idx[k] <= <Expression<'a> as Parseable>::spec_parse(t, idx[k]).1 <= q
                } by {
                    if k > 0 {
                        assert(idx[k] == rest[k - 1]);
                        assert(all.skip(acc.len() as int)[k] == tail[k - 1]);
                    }
                }
                return idx;
            }
        }
    }
    assert(all.skip(acc.len() as int) =~= Seq::<ExpressionModel<'a>>::empty());
    assert(all =~= acc + all.skip(acc.len() as int));
    Seq::empty()
}

/// The arguments of an invocation come in the order of their tokens: the
/// `k`-th argument is the one read at the `k`-th of a rising run of token
/// indices, all before the `)` that closes them.
pub proof fn lemma_invocation_arguments_in_order<'a>(t: Seq<Spanned<'a, Token<'a>>>, i: nat)
    ensures
        invocation(t, i) matches Some((ExpressionModel::Invocation(_, args), q)) ==> exists|idx: Seq<nat>|
            #[trigger] in_order::<Expression<'a>>(t, args, idx, i, q),
{
    if let Some((ExpressionModel::Invocation(_, args), q)) = invocation(t, i) {
        let (_, p) = primary_expression(t, i)->0;
        match expression(t, p + 1) {
            Some((e, p1)) => if p + 1 <= p1 <= t.len() {
                let rest = lemma_more_arguments_in_order(t, p1, seq![e]);
                let idx = seq![p + 1] + rest;
                let all = more_arguments(t, p1, seq![e]).0;
                let tail = all.skip(1);
                assert(all =~= seq![e] + tail);
                assert forall|k: int, j: int| 0 <= k < j < idx.len() implies #[trigger] idx[k] < #[trigger] idx[j]
                    && <Expression<'a> as Parseable>::spec_parse(t, idx[k]).1 <= idx[j] by {
                    assert(idx[j] == rest[j - 1]);
                    if k > 0 {
                        assert(idx[k] == rest[k - 1]);
                    }
                }
                assert forall|k: int| 0 <= k < idx.len() implies {
                    &&& i <= #[trigger] idx[k]
                    &&& <Expression<'a> as Parseable>::spec_parse(t, idx[k]).0 == Some(args[k])
                    &&& idx[k] <= <Expression<'a> as Parseable>::spec_parse(t, idx[k]).1 <= q
                } by {
                    if k > 0 {
                        assert(idx[k] == rest[k - 1]);
                        assert(args[k] == tail[k - 1]);
                    }
                }
                assert(in_order::<Expression<'a>>(t, args, idx, i, q));
            } else {
                assert(in_order::<Expression<'a>>(t, args, Seq::empty(), i, q));
            },
            None => {
                assert(in_order::<Expression<'a>>(t, args, Seq::empty(), i, q));
            },
        }
    }
}

/// Each kind of statement starts with its own token: a block with `{`, an
/// empty statement with `;` (and is that token alone), and the others with
/// their keyword; an evaluation and a `break` end with `;`.
pub proof fn lemma_statement_heads<'a>(t: Seq<Spanned<'a, Token<'a>>>, i: nat)
    ensures
        statement(t, i) matches Some((m, p)) ==> match m {
            StatementModel::Block(_) => is_token(t, i, TokenKind::Separator, "{"@) && is_token(
                t,
                (p - 1) as nat,
                TokenKind::Separator,
                "}"@,
            ),
            StatementModel::Break => is_token(t, i, TokenKind::Identifier, "break"@) && p == i + 2,
            StatementModel::Do(..) => is_token(t, i, TokenKind::Identifier, "do"@),
            StatementModel::Empty => is_token(t, i, TokenKind::Separator, ";"@) && p == i + 1,
            StatementModel::Evaluate(_) => is_token(t, (p - 1) as nat, TokenKind::Separator, ";"@),
            StatementModel::For(..) => is_token(t, i, TokenKind::Identifier, "for"@),
            StatementModel::If(..) => is_token(t, i, TokenKind::Identifier, "if"@),
            StatementModel::Let(..) => is_token(t, i, TokenKind::Identifier, "let"@),
            StatementModel::Loop(..) => is_token(t, i, TokenKind::Identifier, "loop"@),
            StatementModel::Return(..) => is_token(t, i, TokenKind::Identifier, "return"@),
            StatementModel::Until(..) => is_token(t, i, TokenKind::Identifier, "until"@),
            StatementModel::While(..) => is_token(t, i, TokenKind::Identifier, "while"@),
        },
{
}

/// A function starts with `fn` and its name, a structure with `struct` and
/// its name.
pub proof fn lemma_item_heads<'a>(t: Seq<Spanned<'a, Token<'a>>>, i: nat)
    ensures
        item(t, i) matches Some((m, _)) ==> match m {
            ItemModel::Function(name, _, _) => is_token(t, i, TokenKind::Identifier, "fn"@) && identifier_at(
                t,
                i + 1,
            ) == Some(name),
            ItemModel::Struct(name, _) => is_token(t, i, TokenKind::Identifier, "struct"@) && identifier_at(
                t,
                i + 1,
            ) == Some(name),
        },
{
}

/// A primary expression is told by its first token: an identifier or a
/// literal is that token alone, a group starts with `(` and ends with `)`,
/// and a mono operation starts with its operator.
pub proof fn lemma_primary_heads<'a>(t: Seq<Spanned<'a, Token<'a>>>, i: nat)
    ensures
        primary_expression(t, i) matches Some((m, p)) ==> match m {
            ExpressionModel::Identifier(x) => identifier_at(t, i) == Some(x) && p == i + 1,
            ExpressionModel::Literal(x) => literal_at(t, i) == Some(x) && p == i + 1,
            ExpressionModel::Group(_) => is_token(t, i, TokenKind::Separator, "("@) && is_token(
                t,
                (p - 1) as nat,
                TokenKind::Separator,
                ")"@,
            ),
            ExpressionModel::Mono(op, _) => operator_at(t, i) == Some(op),
            _ => false,
        },
{
}

/// The parts of a statement are read where its shape puts them: the
/// condition of `if`, `until` and `while` between the brackets after the
/// keyword and the body after `)`; the body of `do` after the keyword and
/// its condition between the brackets after `while`; the name of `let`
/// after the keyword and its value after `=`; the value of `return` after
/// the keyword; the body of `loop` after the keyword; and, for `for`, the
/// first statement after `(`, the condition after it, the step after `;`
/// and the body after `)`.
pub proof fn lemma_statement_parts<'a>(t: Seq<Spanned<'a, Token<'a>>>, i: nat)
    ensures
        statement(t, i) matches Some((m, end)) ==> match m {
            StatementModel::If(c, s) | StatementModel::Until(c, s) | StatementModel::While(c, s) => {
                &&& is_token(t, i + 1, TokenKind::Separator, "("@)
                &&& match expression(t, i + 2) {
                    Some((c2, p)) => c2 == c && statement(t, p + 1) == Some((*s, end)),
                    None => false,
                }
            },
            StatementModel::Do(c, s) => match statement(t, i + 1) {
                Some((s2, p)) => s2 == *s && is_token(t, p, TokenKind::Identifier, "while"@) && match expression(
                    t,
                    p + 2,
                ) {
                    Some((c2, _)) => c2 == c,
                    None => false,
                },
                None => false,
            },
            StatementModel::Let(name, e) => identifier_at(t, i + 1) == Some(name) && is_token(
                t,
                i + 2,
                TokenKind::Operator,
                "="@,
            ) && expression(t, i + 3) == Some((e, (end - 1) as nat)),
            StatementModel::Return(e) => expression(t, i + 1) == Some((e, (end - 1) as nat)),
            StatementModel::Loop(s) => statement(t, i + 1) == Some((*s, end)),
            StatementModel::For(init, c, step, body) => match statement(t, i + 2) {
                Some((init2, p)) => init2 == *init && match expression(t, p) {
                    Some((c2, q)) => c2 == c && is_token(t, q, TokenKind::Separator, ";"@) && match statement(
                        t,
                        q + 1,
                    ) {
                        Some((step2, r)) => step2 == *step && is_token(t, r, TokenKind::Separator, ")"@)
                            && statement(t, r + 1) == Some((*body, end)),
                        None => false,
                    },
                    None => false,
                },
                None => false,
            },
            _ => true,
        },
{
}

} // verus!
