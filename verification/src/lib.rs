pub mod buffer;
pub mod grammar;
pub mod item;
pub mod item2;
pub mod lexer;
pub mod pattern;
pub mod pattern_language;
pub mod prelude;
pub mod span;
pub mod token;

pub use span::Span;
pub use span::Spanned;
