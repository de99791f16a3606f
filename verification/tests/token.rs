use raptor::token::Comment;
use raptor::token::Identifier;
use raptor::token::Lexer;
use raptor::token::Literal;
use raptor::token::Operator;
use raptor::token::Separator;
use raptor::token::Span;
use raptor::token::Token;
use raptor::token::Whitespace;

/// Reads `text`, trimmed, and compares each token read with the next
/// expected one, for as long as both last.
fn check(text: &str, expected: &[Token<'_>]) {
	let contents = text.trim();
	let mut lexer = Lexer::new(contents);
	let mut state = 0;
	for token in expected {
		let span = Span {
			src: contents,
			from: state,
			to: state + token.slice().len(),
		};
		state += token.slice().len();
		match lexer.next() {
			Some(parsed) => assert_eq!(parsed, (span, *token)),
			None => break,
		}
	}
}

#[test]
fn token_empty_main_fn() {
	check(
		r"fn main() {}",
		&[
			Identifier("fn").into(),
			Whitespace(" ").into(),
			Identifier("main").into(),
			Separator("(").into(),
			Separator(")").into(),
			Whitespace(" ").into(),
			Separator("{").into(),
			Separator("}").into(),
		],
	);
}

#[test]
fn token_field_inequality() {
	check(
		r"obj.field != value",
		&[
			Identifier("obj").into(),
			Operator(".").into(),
			Identifier("field").into(),
			Whitespace(" ").into(),
			Operator("!=").into(),
			Whitespace(" ").into(),
			Identifier("value").into(),
		],
	);
}

#[test]
fn token_backtick_identifier() {
	check(
		r"let `backtick field` = 3;",
		&[
			Identifier("let").into(),
			Whitespace(" ").into(),
			Identifier("`backtick field`").into(),
			Whitespace(" ").into(),
			Operator("=").into(),
			Whitespace(" ").into(),
			Literal("3").into(),
			Separator(";").into(),
		],
	);
}

#[test]
fn token_integer_literal() {
	check(
		r"000",
		&[
			Literal("000").into(),
		],
	);
}

#[test]
fn token_hex_literal() {
	check(
		r"0x0",
		&[
			Literal("0x0").into(),
		],
	);
}

#[test]
fn token_octal_literal() {
	check(
		r"0o0",
		&[
			Literal("0o0").into(),
		],
	);
}

#[test]
fn token_binary_literal() {
	check(
		r"0b0",
		&[
			Literal("0b0").into(),
		],
	);
}

#[test]
fn token_zero_decimal() {
	check(
		r".0",
		&[
			Literal(".0").into(),
		],
	);
}

#[test]
fn token_decimal_literal() {
	check(
		r"0.05",
		&[
			Literal("0.05").into(),
		],
	);
}

#[test]
fn token_invalid_decimal() {
	check(
		r"0.",
		&[
			Literal("0").into(),
			Operator(".").into(),
		],
	);
}

#[test]
fn token_comment_eof() {
	check(
		r"// tmp",
		&[
			Comment("// tmp").into(),
		],
	);
}

#[test]
fn token_comment_newline() {
	check(
		"// tmp\n",
		&[
			Comment("// tmp").into(),
		],
	);
}

#[test]
fn token_multiline_comment() {
	check(
		r"/* tmp */ ",
		&[
			Comment("/* tmp */").into(),
			Whitespace(" ").into(),
		],
	);
}
