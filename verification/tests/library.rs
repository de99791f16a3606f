use raptor::item::dsl::Generic;
use raptor::item::dsl::Type;
use raptor::item::utility::CommaDelimiter;
use raptor::item::utility::OneOrMore;
use raptor::item::utility::Optional;
use raptor::item::utility::SegmentDelimiter;
use raptor::item::utility::ZeroOrMore;
use raptor::lexer::significant_tokens;
use raptor::lexer::Identifier;
use raptor::lexer::Lexer;
use raptor::lexer::Literal;
use raptor::lexer::Parseable;
use raptor::lexer::Separator;
use raptor::lexer::Token;
use raptor::lexer::TokenKind;
use raptor::lexer::TokenStream;
use raptor::lexer::Whitespace;
use raptor::prelude::BufferedExt;
use raptor::prelude::SpanExt;
use raptor::token;
use raptor::Spanned;

fn stream(src: &str) -> TokenStream<'_> {
	TokenStream::new(significant_tokens(&Lexer::new(src).tokenize()))
}

#[test]
fn span_range_and_text() {
	let src = "héllo wörld";
	let span = src.span(0..6);
	assert_eq!(span.range(), 0..6);
	assert_eq!(span.as_str(), "héllo");
	assert_eq!(src.span(7..13).as_str(), "wörld");
	assert_eq!(src.span(3..3).as_str(), "");
}

#[test]
fn span_extend_lowers_both_ends() {
	let src = "abcdefghij";
	let mut span = src.span(2..8);
	span.extend(&src.span(4..5));
	assert_eq!((span.from, span.to), (2, 5));
	let mut span = src.span(2..8);
	span.extend(&src.span(0..10));
	assert_eq!((span.from, span.to), (0, 8));
}

#[test]
fn spanned_gives_access_to_its_value() {
	let src = "x";
	let mut spanned = src.span(0..1).wrap(7u32);
	assert_eq!(spanned.span, src.span(0..1));
	assert_eq!(*spanned.as_ref(), 7);
	assert_eq!(*spanned, 7);
	*spanned.as_mut() = 9;
	assert_eq!(spanned.value, 9);
	assert_eq!(spanned.span, src.span(0..1));
}

#[test]
fn tokens_cover_the_text_in_order() {
	let src = "let x = 1.5; // done\nfoo(\"a\")";
	let tokens = Lexer::new(src).tokenize();
	let mut at = 0;
	let mut text = String::new();
	for t in &tokens {
		assert_eq!(t.span.from, at);
		assert_eq!(t.span.as_str(), t.value.as_str());
		at = t.span.to;
		text.push_str(t.value.as_str());
	}
	assert_eq!(text, src);
}

#[test]
fn literals_and_keywords() {
	let tokens = significant_tokens(&Lexer::new("1.5 .5 0x10 true false").tokenize());
	let values: Vec<Token<'_>> = tokens.iter().map(|t| t.value).collect();
	assert_eq!(
		values,
		vec![
			Literal("1.5").into(),
			Literal(".5").into(),
			Literal("0x10").into(),
			Identifier("true").into(),
			Identifier("false").into(),
		]
	);
}

#[test]
fn significant_tokens_drop_whitespace_and_comments() {
	let tokens = significant_tokens(&Lexer::new("a /* b */ c // d").tokenize());
	let values: Vec<Token<'_>> = tokens.iter().map(|t| t.value).collect();
	assert_eq!(values, vec![Identifier("a").into(), Identifier("c").into()]);
	assert_eq!(tokens[1].span.from, 10);
}

#[test]
fn buffered_with_rewinds_on_none_and_keeps_on_some() {
	let mut items = vec![1u32, 2, 3, 4].into_iter().buffered();
	let none: Option<()> = items.with(|s| {
		s.next();
		s.next();
		None
	});
	assert_eq!(none, None);
	let some = items.with(|s| s.next());
	assert_eq!(some, Some(1));
	assert_eq!(items.next(), Some(2));
	assert_eq!(items.next(), Some(3));
	assert_eq!(items.next(), Some(4));
	assert_eq!(items.next(), None);
}

#[test]
fn buffered_restore_without_push_changes_nothing() {
	let mut items = vec![5u32, 6].into_iter().buffered();
	items.restore();
	items.pop();
	assert_eq!(items.next(), Some(5));
	items.push();
	assert_eq!(items.next(), Some(6));
	items.restore();
	assert_eq!(items.next(), Some(6));
	assert_eq!(items.next(), None);
}

#[test]
fn token_stream_reads_and_seeks() {
	let mut s = stream("a b");
	assert_eq!(s.position(), 0);
	assert_eq!(s.next().map(|t| t.value), Some(Identifier("a").into()));
	assert_eq!(s.next().map(|t| t.value), Some(Identifier("b").into()));
	assert_eq!(s.next(), None);
	assert_eq!(s.position(), 2);
	s.seek(1);
	assert_eq!(s.next().map(|t| t.value), Some(Identifier("b").into()));
}

#[test]
fn segment_list_reads_every_segment() {
	let mut s = stream("a::b::c d");
	let items = OneOrMore::<Identifier<'_>, SegmentDelimiter, false>::parse(&mut s).unwrap();
	let names: Vec<&str> = items.iter().map(|i| i.value.0).collect();
	assert_eq!(names, vec!["a", "b", "c"]);
	assert_eq!(s.position(), 5);
}

#[test]
fn segment_list_reads_back_an_incomplete_pair() {
	let mut s = stream("a::b:: 1");
	let items = OneOrMore::<Identifier<'_>, SegmentDelimiter, false>::parse(&mut s).unwrap();
	assert_eq!(items.len(), 2);
	assert_eq!(s.position(), 3);

	let mut s = stream("a::b:: 1");
	let items = OneOrMore::<Identifier<'_>, SegmentDelimiter, true>::parse(&mut s).unwrap();
	assert_eq!(items.len(), 2);
	assert_eq!(s.position(), 4);
}

#[test]
fn required_and_optional_lists_differ_on_no_item() {
	let mut s = stream("1");
	assert!(OneOrMore::<Identifier<'_>, SegmentDelimiter, false>::parse(&mut s).is_none());
	let mut s = stream("1");
	assert_eq!(
		ZeroOrMore::<Identifier<'_>, SegmentDelimiter, false>::parse(&mut s).map(|v| v.len()),
		Some(0)
	);
}

#[test]
fn comma_delimiter_is_a_separator_token() {
	let src = "a,b";
	let tokens = vec![
		src.span(0..1).wrap(Token::from(Identifier("a"))),
		src.span(1..2).wrap(Token::from(Separator(","))),
		src.span(2..3).wrap(Token::from(Identifier("b"))),
	];
	let mut s = TokenStream::new(tokens);
	let items = ZeroOrMore::<Identifier<'_>, CommaDelimiter, false>::parse(&mut s).unwrap();
	assert_eq!(items.len(), 2);
	assert_eq!(s.position(), 3);

	let mut s = stream("a, b,");
	let items = ZeroOrMore::<Identifier<'_>, CommaDelimiter, true>::parse(&mut s).unwrap();
	assert_eq!(items.len(), 2);
	assert_eq!(s.position(), 4);
}

#[test]
fn optional_keeps_what_a_failed_item_read() {
	let mut s = stream("1");
	let r = Optional::<Identifier<'_>>::parse(&mut s);
	assert_eq!(r, Some(None));
	assert_eq!(s.position(), 0);
	let mut s = stream("x");
	let r: Option<Option<Spanned<'_, Identifier<'_>>>> = Optional::<Identifier<'_>>::parse(&mut s);
	assert_eq!(r.unwrap().unwrap().value, Identifier("x"));
	assert_eq!(s.position(), 1);
	// A generic reads its opening token whatever it is, and the optional
	// part keeps that read.
	let mut s = stream("x");
	let r = Optional::<Generic<'_>>::parse(&mut s);
	assert_eq!(r, Some(None));
	assert_eq!(s.position(), 1);
}

#[test]
fn type_segments_end_where_a_generic_fails() {
	// After a name, the failed generic reads the next token, so the `::`
	// is gone and no second segment follows.
	let mut s = stream("std::vec::Vec");
	let ty = Type::parse(&mut s).unwrap();
	let names: Vec<&str> = ty.segments.iter().map(|seg| seg.ident.value.0).collect();
	assert_eq!(names, vec!["std"]);
	assert!(ty.segments[0].generic.is_none());
	assert_eq!(s.position(), 2);

	let mut s = stream("Vec<u8>");
	let ty = Type::parse(&mut s).unwrap();
	assert_eq!(ty.segments.len(), 1);
	assert_eq!(s.position(), 2);

	// At the end of the tokens the generic reads nothing.
	let mut s = stream("Vec");
	let ty = Type::parse(&mut s).unwrap();
	assert_eq!(ty.segments.len(), 1);
	assert_eq!(s.position(), 1);

	let mut s = stream("42");
	assert!(Type::parse(&mut s).is_none());
	assert_eq!(s.position(), 0);
}

#[test]
fn take_token_reads_the_given_length() {
	let src = "héllo wörld";
	let mut lexer = Lexer::new(src);
	let t = lexer.take_token(TokenKind::Identifier, 6);
	assert_eq!(t, src.span(0..6).wrap(Identifier("héllo").into()));
	let t = lexer.take_token(TokenKind::Whitespace, 1);
	assert_eq!(t, src.span(6..7).wrap(Whitespace(" ").into()));
	assert_eq!(lexer.next(), Some(src.span(7..13).wrap(Identifier("wörld").into())));
	assert_eq!(lexer.next(), None);
}

#[test]
fn token_lexer_takes_a_token_of_the_given_length() {
	let src = ",x";
	let mut lexer = token::Lexer::new(src);
	let (span, token) = lexer.take_token(TokenKind::Separator, 1);
	assert_eq!((span.from, span.to, span.slice()), (0, 1, ","));
	assert_eq!(token, token::Separator(",").into());
	let (span, token) = lexer.next().unwrap();
	assert_eq!((span.from, span.to), (1, 2));
	assert_eq!(token, token::Identifier("x").into());
	assert!(lexer.next().is_none());
}

#[test]
fn lexing_the_same_text_twice_gives_the_same_tokens() {
	let src = "struct S { a: u32, } // end";
	let a = Lexer::new(src).tokenize();
	let b = Lexer::new(src).tokenize();
	assert_eq!(a, b);
	assert_eq!(a.len(), 15);
}

#[test]
fn spanned_value_compares_whatever_the_span() {
	let src = "ab";
	let a = src.span(0..1).wrap(Identifier("x"));
	assert!(a.value_eq(&Identifier("x")));
	assert!(!a.value_eq(&Identifier("y")));
	assert!(src.span(1..2).wrap(Identifier("x")).value_eq(&Identifier("x")));
}
