use raptor::item::ArithmeticOperation;
use raptor::item::BinaryExpression;
use raptor::item::BinaryOperation;
use raptor::item::Expression;
use raptor::item::File;
use raptor::item::Item;
use raptor::item::PrimaryExpression;
use raptor::item::Statement;
use raptor::lexer::Identifier;
use raptor::lexer::Lexer;
use raptor::lexer::Literal;
use raptor::lexer::Operator;

fn parse(src: &str) -> File<'_> {
	File::parse(Lexer::new(src))
}

fn body<'a>(file: &'a File<'a>) -> &'a Statement<'a> {
	match &file.items[0] {
		Item::Function(f) => &f.stmt,
		_ => panic!("expected a function"),
	}
}

fn block<'a>(stmt: &'a Statement<'a>) -> &'a Vec<Statement<'a>> {
	match stmt {
		Statement::Block(b) => &b.stmts,
		_ => panic!("expected a block"),
	}
}

fn ident<'a>(e: &'a Expression<'a>) -> &'a str {
	match e {
		Expression::PrimaryExpression(PrimaryExpression::IdentifierExpression(x)) => x.0.value.0,
		_ => panic!("expected an identifier"),
	}
}

#[test]
fn let_and_return() {
	let file = parse("fn f() { let x = a + b; return x; }");
	assert_eq!(file.items.len(), 1);
	let stmts = block(body(&file));
	assert_eq!(stmts.len(), 2);
	match &stmts[0] {
		Statement::Let(l) => {
			assert_eq!(l.ident.value, Identifier("x"));
			assert_eq!(l.ident.span.from, 13);
			match &l.expr {
				Expression::BinaryExpression(BinaryExpression::ArithmeticOperation(ArithmeticOperation {
					lhs: PrimaryExpression::IdentifierExpression(a),
					op,
					rhs,
				})) => {
					assert_eq!(a.0.value, Identifier("a"));
					assert_eq!(op.value, Operator("+"));
					assert_eq!(ident(rhs), "b");
				}
				_ => panic!("expected a + b"),
			}
		}
		_ => panic!("expected let"),
	}
	match &stmts[1] {
		Statement::Return(r) => assert_eq!(ident(&r.expr), "x"),
		_ => panic!("expected return"),
	}
}

#[test]
fn geometric_binds_before_arithmetic_is_tried() {
	let file = parse("fn f() a * b - c;");
	match body(&file) {
		Statement::Evaluate(e) => match &e.expr {
			Expression::BinaryExpression(BinaryExpression::GeometricOperation(g)) => {
				assert_eq!(g.op.value, Operator("*"));
				match &*g.rhs {
					Expression::BinaryExpression(BinaryExpression::ArithmeticOperation(a)) => {
						assert_eq!(a.op.value, Operator("-"))
					}
					_ => panic!("expected b - c"),
				}
			}
			_ => panic!("expected a * (b - c)"),
		},
		_ => panic!("expected an evaluation"),
	}
}

#[test]
fn for_loop() {
	let file = parse("fn f() for (let i = 0; i < n; i = i + 1;) {}");
	match body(&file) {
		Statement::For(f) => {
			assert!(matches!(&*f.init, Statement::Let(_)));
			match &f.cond {
				Expression::BinaryExpression(BinaryExpression::BinaryOperation(BinaryOperation { op, .. })) => {
					assert_eq!(op.value, Operator("<"))
				}
				_ => panic!("expected i < n"),
			}
			match &*f.eval {
				Statement::Evaluate(e) => match &e.expr {
					Expression::BinaryExpression(BinaryExpression::BinaryOperation(BinaryOperation {
						op,
						rhs,
						..
					})) => {
						assert_eq!(op.value, Operator("="));
						assert!(matches!(
							&**rhs,
							Expression::BinaryExpression(BinaryExpression::ArithmeticOperation(_))
						));
					}
					_ => panic!("expected i = i + 1"),
				},
				_ => panic!("expected an evaluation"),
			}
			assert_eq!(block(&f.stmt).len(), 0);
		}
		_ => panic!("expected for"),
	}
}

#[test]
fn for_loop_steps_with_a_statement() {
	// The third part is a statement, so an expression alone does not do.
	assert_eq!(parse("fn f() for (let i = 0; i < n; i = i + 1) {}").items.len(), 0);
	assert_eq!(parse("fn f() for (;i;;) ;").items.len(), 1);
}

#[test]
fn conditionals_and_loops() {
	let file = parse("fn f() { if (a) break; while (b) {} until (c) {} loop {} do {} while (d); }");
	let stmts = block(body(&file));
	assert_eq!(stmts.len(), 5);
	match &stmts[0] {
		Statement::If(x) => {
			assert_eq!(ident(&x.cond), "a");
			assert!(matches!(&*x.stmt, Statement::Break(_)));
		}
		_ => panic!("expected if"),
	}
	match &stmts[1] {
		Statement::While(x) => {
			assert_eq!(ident(&x.cond), "b");
			assert!(matches!(&*x.stmt, Statement::Block(_)));
		}
		_ => panic!("expected while"),
	}
	assert!(matches!(&stmts[2], Statement::Until(_)));
	assert!(matches!(&stmts[3], Statement::Loop(_)));
	match &stmts[4] {
		Statement::Do(x) => assert_eq!(ident(&x.cond), "d"),
		_ => panic!("expected do"),
	}
}

#[test]
fn keyword_followed_by_semicolon_is_an_evaluation() {
	let file = parse("fn f() { while (b) ; loop ; }");
	let stmts = block(body(&file));
	assert_eq!(stmts.len(), 2);
	match &stmts[0] {
		Statement::Evaluate(e) => match &e.expr {
			Expression::Invocation(i) => {
				match &i.expr {
					PrimaryExpression::IdentifierExpression(x) => assert_eq!(x.0.value, Identifier("while")),
					_ => panic!("expected an identifier"),
				}
				assert_eq!(i.args.len(), 1);
				assert_eq!(ident(&i.args[0]), "b");
			}
			_ => panic!("expected an invocation"),
		},
		_ => panic!("expected an evaluation"),
	}
	match &stmts[1] {
		Statement::Evaluate(e) => assert_eq!(ident(&e.expr), "loop"),
		_ => panic!("expected an evaluation"),
	}
}

#[test]
fn invocation_arguments_take_comma_as_an_operator() {
	let file = parse("fn f() g(a, 1,);");
	match body(&file) {
		Statement::Evaluate(e) => match &e.expr {
			Expression::Invocation(i) => {
				assert_eq!(i.args.len(), 1);
				match &i.args[0] {
					Expression::BinaryExpression(BinaryExpression::BinaryOperation(BinaryOperation {
						lhs: PrimaryExpression::IdentifierExpression(a),
						op,
						rhs,
					})) => {
						assert_eq!(a.0.value, Identifier("a"));
						assert_eq!(op.value, Operator(","));
						assert_eq!((op.span.from, op.span.to), (10, 11));
						match &**rhs {
							Expression::PrimaryExpression(PrimaryExpression::LiteralExpression(l)) => {
								assert_eq!(l.0.value, Literal("1"))
							}
							_ => panic!("expected a literal"),
						}
					}
					_ => panic!("expected a, 1"),
				}
			}
			_ => panic!("expected an invocation"),
		},
		_ => panic!("expected an evaluation"),
	}
}

#[test]
fn comma_is_a_binary_operator() {
	let file = parse("fn f() a, b;");
	assert_eq!(file.items.len(), 1);
	match body(&file) {
		Statement::Evaluate(e) => match &e.expr {
			Expression::BinaryExpression(BinaryExpression::BinaryOperation(BinaryOperation { op, rhs, .. })) => {
				assert_eq!(op.value, Operator(","));
				assert_eq!(ident(rhs), "b");
			}
			_ => panic!("expected a, b"),
		},
		_ => panic!("expected an evaluation"),
	}
}

#[test]
fn comma_is_no_mono_operator() {
	assert_eq!(parse("fn f() , b;").items.len(), 0);
}

#[test]
fn mono_operation_and_group() {
	let file = parse("fn f() -(x);");
	match body(&file) {
		Statement::Evaluate(e) => match &e.expr {
			Expression::PrimaryExpression(PrimaryExpression::MonoOperation(m)) => {
				assert_eq!(m.op.value, Operator("-"));
				assert!(matches!(
					&*m.expr,
					Expression::PrimaryExpression(PrimaryExpression::Group(_))
				));
			}
			_ => panic!("expected -(x)"),
		},
		_ => panic!("expected an evaluation"),
	}
}

#[test]
fn several_items_stop_at_first_failure() {
	let file = parse("fn a(); struct B { x: u32, y: u32, } fn c(); 42 fn d();");
	assert_eq!(file.items.len(), 3);
	match &file.items[1] {
		Item::Struct(s) => {
			assert_eq!(s.name.value, Identifier("B"));
			assert_eq!(s.fields.len(), 2);
		}
		_ => panic!("expected a struct"),
	}
}

#[test]
fn whitespace_and_comments_are_skipped() {
	let file = parse("// lead\nfn /* name */ main ( ) ;");
	assert_eq!(file.items.len(), 1);
	match &file.items[0] {
		Item::Function(f) => {
			assert_eq!(f.name.value, Identifier("main"));
			assert_eq!(f.name.span.from, 22);
			assert!(f.params.is_empty());
		}
		_ => panic!("expected a function"),
	}
}

#[test]
fn empty_source_has_no_items() {
	assert_eq!(parse("").items.len(), 0);
	assert_eq!(parse("   ").items.len(), 0);
}
