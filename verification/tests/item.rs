use raptor::item::Empty;
use raptor::item::Field;
use raptor::item::File;
use raptor::item::Function;
use raptor::item::Parameter;
use raptor::item::Struct;
use raptor::lexer::Identifier;
use raptor::lexer::Lexer;
use raptor::prelude::SpanExt;

#[test]
fn function() {
	// Condition 1
	let src = "fn main();";
	let file = File::parse(Lexer::new(src));
	let expected = File {
		items: vec![Function {
			name: src.span(3..7).wrap(Identifier("main")),
			params: Vec::new(),
			stmt: Empty::default().into(),
		}
		.into()],
	};
	assert_eq!(file, expected, "Condition 1 failed.");

	// Condition 2
	let file = File::parse(Lexer::new("fn main(,);"));
	let expected = File { items: vec![] };
	assert_eq!(file, expected, "Condition 2 failed.");

	// Condition 3
	let src = "fn main(a: u32);";
	let file = File::parse(Lexer::new(src));
	let expected = File {
		items: vec![Function {
			name: src.span(3..7).wrap(Identifier("main")),
			params: vec![Parameter {
				name: src.span(8..9).wrap(Identifier("a")),
				ty: src.span(11..14).wrap(Identifier("u32")),
			}],
			stmt: Empty::default().into(),
		}
		.into()],
	};
	assert_eq!(file, expected, "Condition 3 failed.");

	// Condition 4
	let src = "fn main(a: u32, );";
	let file = File::parse(Lexer::new(src));
	let expected = File {
		items: vec![Function {
			name: src.span(3..7).wrap(Identifier("main")),
			params: vec![Parameter {
				name: src.span(8..9).wrap(Identifier("a")),
				ty: src.span(11..14).wrap(Identifier("u32")),
			}],
			stmt: Empty::default().into(),
		}
		.into()],
	};
	assert_eq!(file, expected, "Condition 4 failed.");

	// Condition 5
	let src = "fn main(a: u32, b: u32);";
	let file = File::parse(Lexer::new(src));
	let expected = File {
		items: vec![Function {
			name: src.span(3..7).wrap(Identifier("main")),
			params: vec![
				Parameter {
					name: src.span(8..9).wrap(Identifier("a")),
					ty: src.span(11..14).wrap(Identifier("u32")),
				},
				Parameter {
					name: src.span(16..17).wrap(Identifier("b")),
					ty: src.span(19..22).wrap(Identifier("u32")),
				},
			],
			stmt: Empty::default().into(),
		}
		.into()],
	};
	assert_eq!(file, expected, "Condition 5 failed.");
}

#[test]
fn structure() {
	// Condition 1
	let src = "struct Item {}";
	let file = File::parse(Lexer::new(src));
	let expected = File {
		items: vec![Struct {
			name: src.span(7..11).wrap(Identifier("Item")),
			fields: vec![],
		}
		.into()],
	};
	assert_eq!(file, expected, "Condition 1 failed.");

	// Condition 2
	let src = "struct Item { a: u32 }";
	let file = File::parse(Lexer::new(src));
	let expected = File {
		items: vec![Struct {
			name: src.span(7..11).wrap(Identifier("Item")),
			fields: vec![Field {
				name: src.span(14..15).wrap(Identifier("a")),
				ty: src.span(17..20).wrap(Identifier("u32")),
			}],
		}
		.into()],
	};
	assert_eq!(file, expected, "Condition 2 failed.");
}
