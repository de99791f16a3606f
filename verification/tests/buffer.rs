use raptor::prelude::BufferedExt;

struct Generator(u32);

impl Iterator for Generator {
	type Item = u32;

	fn next(&mut self) -> Option<Self::Item> {
		let item = self.0;
		self.0 = item + 1;
		Some(item)
	}
}

struct Empty;

impl Iterator for Empty {
	type Item = u32;

	fn next(&mut self) -> Option<Self::Item> {
		None
	}
}

#[test]
fn basic() {
	let mut generator = Generator(0).buffered();
	assert_eq!(generator.next(), Some(0));
	assert_eq!(generator.next(), Some(1));
	assert_eq!(generator.next(), Some(2));
	assert_eq!(generator.next(), Some(3));
	assert_eq!(generator.next(), Some(4));
}

#[test]
fn double_pop() {
	let mut generator = Generator(0).buffered();
	generator.pop();
}

#[test]
fn push_and_restore() {
	let mut generator = Generator(0).buffered();

	generator.push();
	assert_eq!(generator.next(), Some(0));
	assert_eq!(generator.next(), Some(1));
	assert_eq!(generator.next(), Some(2));
	assert_eq!(generator.next(), Some(3));
	assert_eq!(generator.next(), Some(4));

	generator.restore();
	assert_eq!(generator.next(), Some(0));
	assert_eq!(generator.next(), Some(1));
	assert_eq!(generator.next(), Some(2));
	assert_eq!(generator.next(), Some(3));
	assert_eq!(generator.next(), Some(4));
}

#[test]
fn push_and_pop() {
	let mut generator = Generator(0).buffered();

	generator.push();
	assert_eq!(generator.next(), Some(0));
	assert_eq!(generator.next(), Some(1));
	assert_eq!(generator.next(), Some(2));
	assert_eq!(generator.next(), Some(3));
	assert_eq!(generator.next(), Some(4));

	generator.pop();
	assert_eq!(generator.next(), Some(5));
	assert_eq!(generator.next(), Some(6));
	assert_eq!(generator.next(), Some(7));
	assert_eq!(generator.next(), Some(8));
	assert_eq!(generator.next(), Some(9));
}

#[test]
fn empty_push_and_pop() {
	let mut generator = Empty.buffered();

	generator.push();
	assert_eq!(generator.next(), None);
}

#[test]
fn nested_push_and_restore() {
	let mut generator = Generator(0).buffered();

	generator.push();
	assert_eq!(generator.next(), Some(0));
	assert_eq!(generator.next(), Some(1));
	assert_eq!(generator.next(), Some(2));
	assert_eq!(generator.next(), Some(3));
	assert_eq!(generator.next(), Some(4));

	generator.push();
	assert_eq!(generator.next(), Some(5));
	assert_eq!(generator.next(), Some(6));
	assert_eq!(generator.next(), Some(7));
	assert_eq!(generator.next(), Some(8));
	assert_eq!(generator.next(), Some(9));

	generator.restore();
	assert_eq!(generator.next(), Some(5));
	assert_eq!(generator.next(), Some(6));
	assert_eq!(generator.next(), Some(7));
	assert_eq!(generator.next(), Some(8));
	assert_eq!(generator.next(), Some(9));
}

#[test]
fn nested_push_and_pop() {
	let mut generator = Generator(0).buffered();

	generator.push();
	assert_eq!(generator.next(), Some(0));
	assert_eq!(generator.next(), Some(1));
	assert_eq!(generator.next(), Some(2));
	assert_eq!(generator.next(), Some(3));
	assert_eq!(generator.next(), Some(4));

	generator.push();
	assert_eq!(generator.next(), Some(5));
	assert_eq!(generator.next(), Some(6));
	assert_eq!(generator.next(), Some(7));
	assert_eq!(generator.next(), Some(8));
	assert_eq!(generator.next(), Some(9));

	generator.pop();
	assert_eq!(generator.next(), Some(10));
	assert_eq!(generator.next(), Some(11));
	assert_eq!(generator.next(), Some(12));
	assert_eq!(generator.next(), Some(13));
	assert_eq!(generator.next(), Some(14));
}

#[test]
fn with_none() {
	let mut generator = Generator(0).buffered();

	generator.with(|generator| {
		assert_eq!(generator.next(), Some(0));
		assert_eq!(generator.next(), Some(1));
		assert_eq!(generator.next(), Some(2));
		assert_eq!(generator.next(), Some(3));
		assert_eq!(generator.next(), Some(4));
		Option::<()>::None
	});

	assert_eq!(generator.next(), Some(0));
	assert_eq!(generator.next(), Some(1));
	assert_eq!(generator.next(), Some(2));
	assert_eq!(generator.next(), Some(3));
	assert_eq!(generator.next(), Some(4));
}

#[test]
fn with_some() {
	let mut generator = Generator(0).buffered();

	generator.with(|generator| {
		assert_eq!(generator.next(), Some(0));
		assert_eq!(generator.next(), Some(1));
		assert_eq!(generator.next(), Some(2));
		assert_eq!(generator.next(), Some(3));
		assert_eq!(generator.next(), Some(4));
		Some(())
	});

	assert_eq!(generator.next(), Some(5));
	assert_eq!(generator.next(), Some(6));
	assert_eq!(generator.next(), Some(7));
	assert_eq!(generator.next(), Some(8));
	assert_eq!(generator.next(), Some(9));
}
