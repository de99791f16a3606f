use raptor::lexer::Comment;
use raptor::lexer::Identifier;
use raptor::lexer::Lexer;
use raptor::lexer::Literal;
use raptor::lexer::Operator;
use raptor::lexer::Separator;
use raptor::lexer::Token;
use raptor::lexer::Whitespace;
use raptor::prelude::SpanExt;

/// Reads `text`, trimmed, and compares each token read with the next
/// expected one, for as long as both last.
fn check(text: &str, expected: &[Token<'_>]) {
	let contents = text.trim();
	let mut lexer = Lexer::new(contents);
	let mut state = 0;
	for token in expected {
		let span = contents.span(state..state + token.as_str().len());
		state += token.as_str().len();
		match lexer.next() {
			Some(parsed) => assert_eq!(parsed, span.wrap(*token)),
			None => break,
		}
	}
}

#[test]
fn empty_main_fn() {
	check(
		r"fn main() {}",
		&[
			Identifier("fn").into(),
			Whitespace(" ").into(),
			Identifier("main").into(),
			Separator("(").into(),
			Separator(")").into(),
			Whitespace(" ").into(),
			Separator("{").into(),
			Separator("}").into(),
		],
	);
}

#[test]
fn param_main_fn() {
	check(
		r"fn main(a: u32, b: u32,) {}",
		&[
			Identifier("fn").into(),
			Whitespace(" ").into(),
			Identifier("main").into(),
			Separator("(").into(),
			Identifier("a").into(),
			Operator(":").into(),
			Whitespace(" ").into(),
			Identifier("u32").into(),
			Separator(",").into(),
			Whitespace(" ").into(),
			Identifier("b").into(),
			Operator(":").into(),
			Whitespace(" ").into(),
			Identifier("u32").into(),
			Separator(",").into(),
			Separator(")").into(),
			Whitespace(" ").into(),
			Separator("{").into(),
			Separator("}").into(),
		],
	);
}

#[test]
fn field_inequality() {
	check(
		r"obj.field != value",
		&[
			Identifier("obj").into(),
			Operator(".").into(),
			Identifier("field").into(),
			Whitespace(" ").into(),
			Operator("!=").into(),
			Whitespace(" ").into(),
			Identifier("value").into(),
		],
	);
}

#[test]
fn backtick_identifier() {
	check(
		r"let `backtick field` = 3;",
		&[
			Identifier("let").into(),
			Whitespace(" ").into(),
			Identifier("`backtick field`").into(),
			Whitespace(" ").into(),
			Operator("=").into(),
			Whitespace(" ").into(),
			Literal("3").into(),
			Separator(";").into(),
		],
	);
}

#[test]
fn integer_literal() {
	check(
		r"000",
		&[
			Literal("000").into(),
		],
	);
}

#[test]
fn hex_literal() {
	check(
		r"0x0",
		&[
			Literal("0x0").into(),
		],
	);
}

#[test]
fn octal_literal() {
	check(
		r"0o0",
		&[
			Literal("0o0").into(),
		],
	);
}

#[test]
fn binary_literal() {
	check(
		r"0b0",
		&[
			Literal("0b0").into(),
		],
	);
}

#[test]
fn zero_decimal() {
	check(
		r".0",
		&[
			Literal(".0").into(),
		],
	);
}

#[test]
fn decimal_literal() {
	check(
		r"0.05",
		&[
			Literal("0.05").into(),
		],
	);
}

#[test]
fn invalid_decimal() {
	check(
		r"0.",
		&[
			Literal("0").into(),
			Operator(".").into(),
		],
	);
}

#[test]
fn comment_eof() {
	check(
		r"// tmp",
		&[
			Comment("// tmp").into(),
		],
	);
}

#[test]
fn comment_newline() {
	check(
		"// tmp\n",
		&[
			Comment("// tmp").into(),
		],
	);
}

#[test]
fn multiline_comment() {
	check(
		r"/* tmp */ ",
		&[
			Comment("/* tmp */").into(),
			Whitespace(" ").into(),
		],
	);
}
