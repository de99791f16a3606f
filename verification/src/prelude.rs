pub use crate::buffer::BufferedExt;
pub use crate::span::SpanExt;
