use std::collections::VecDeque;
use vstd::prelude::*;
use vstd::std_specs::iter::IteratorSpec;

verus! {

/// The items pulled from the source that may still be read again, with the
/// saved reading positions into them.
struct Saved<T> {
    /// The items that still need to be read by buffered stacks.
    queue: VecDeque<T>,
    /// The list of next indices for all buffered stacks.
    stacks: Vec<usize>,
}

impl<T> Saved<T> {
    /// Every saved position lies within the queue.
    #[verifier::type_invariant]
    spec fn positions_in_queue(self) -> bool {
        &&& self.queue@.len() <= usize::MAX
        &&& forall|k: int| 0 <= k < self.stacks@.len() ==> #[trigger] self.stacks@[k] <= self.queue@.len()
    }

    /// Takes the queue and the positions out, leaving both empty.
    fn take(&mut self) -> (r: (VecDeque<T>, Vec<usize>))
        ensures
            r.0@ == old(self).queue@,
            r.1@ == old(self).stacks@,
            r.0@.len() <= usize::MAX,
            forall|k: int| 0 <= k < r.1@.len() ==> #[trigger] r.1@[k] <= r.0@.len(),
            final(self).queue@ == Seq::<T>::empty(),
            final(self).stacks@ == Seq::<usize>::empty(),
    {
        proof {
            use_type_invariant(&*self);
        }
        let mut stacks: Vec<usize> = Vec::new();
        std::mem::swap(&mut stacks, &mut self.stacks);
        let mut queue: VecDeque<T> = VecDeque::new();
        std::mem::swap(&mut queue, &mut self.queue);
        (queue, stacks)
    }
}

/// An iterator adaptor that can save positions in the stream of items and go
/// back to them.
///
/// Every saved position is an index into the queue, which holds the items
/// that were pulled from the source but may still be read again. The
/// innermost saved position is the one that reading advances. With no saved
/// position, reading takes items from the front of the queue, and from the
/// source once the queue is empty.
pub struct Buffered<I: Iterator> where I::Item: Clone {
    iter: I,
    saved: Saved<I::Item>,
}

/// `after` keeps the saved positions of `before` below the innermost as
/// they were, as many of them, only moves the innermost forward, and only
/// adds items to the queue.
pub open spec fn nested<I: Iterator>(before: Buffered<I>, after: Buffered<I>) -> bool where I::Item: Clone {
    &&& after.stacks().len() == before.stacks().len()
    &&& after.stacks().drop_last() == before.stacks().drop_last()
    &&& before.queue().is_prefix_of(after.queue())
    &&& after.cursor() >= before.cursor()
}

/// `after` is `before` with the reading position saved once more.
pub open spec fn pushes<I: Iterator>(before: Buffered<I>, after: Buffered<I>) -> bool where I::Item: Clone {
    &&& after.stacks() == before.stacks().push(before.cursor() as usize)
    &&& after.queue() == before.queue()
    &&& after.source() == before.source()
}

/// `after` is `before` with the innermost saved position, if any, forgotten.
pub open spec fn restores<I: Iterator>(before: Buffered<I>, after: Buffered<I>) -> bool where I::Item: Clone {
    &&& after.stacks() == if before.stacks().len() == 0 {
        before.stacks()
    } else {
        before.stacks().drop_last()
    }
    &&& after.queue() == before.queue()
    &&& after.source() == before.source()
}

/// `after` is `before` with the innermost saved position taken over by the
/// one below it; when no position is left saved, the items read before it
/// leave the queue.
pub open spec fn pops<I: Iterator>(before: Buffered<I>, after: Buffered<I>) -> bool where I::Item: Clone {
    let s = before.stacks();
    &&& after.source() == before.source()
    &&& s.len() == 0 ==> {
        &&& after.stacks() == s
        &&& after.queue() == before.queue()
    }
    &&& s.len() == 1 ==> {
        &&& after.stacks() == Seq::<usize>::empty()
        &&& after.queue() == before.queue().skip(s[0] as int)
    }
    &&& s.len() >= 2 ==> {
        &&& after.stacks() == s.drop_last().update(s.len() - 2, s.last())
        &&& after.queue() == before.queue()
    }
}

/// `after` is `before` after reading `r`, as far as the queue and the saved
/// positions tell: at a saved position, the item there in the queue, or one
/// pulled from the source and added to the queue; with none saved, the
/// front of the queue, taken out of it, or an item of the source.
pub open spec fn steps<I: Iterator>(before: Buffered<I>, after: Buffered<I>, r: Option<I::Item>) -> bool where
    I::Item: Clone,
 {
    let q = before.queue();
    let s = before.stacks();
    let c = before.cursor();
    let advanced = s.update(s.len() - 1, (c + 1) as usize);
    &&& s.len() > 0 && c < q.len() ==> {
        &&& r matches Some(x) && cloned(q[c], x)
        &&& after.queue() == q
        &&& after.stacks() == advanced
        &&& after.source() == before.source()
    }
    &&& s.len() > 0 && c >= q.len() ==> match r {
        None => {
            &&& after.queue() == q
            &&& after.stacks() == s
        },
        Some(x) => {
            &&& after.queue().len() == q.len() + 1
            &&& after.queue().drop_last() == q
            &&& cloned(x, after.queue().last())
            &&& after.stacks() == advanced
        },
    }
    &&& s.len() == 0 && q.len() > 0 ==> {
        &&& r == Some(q[0])
        &&& after.queue() == q.drop_first()
        &&& after.stacks() == s
        &&& after.source() == before.source()
    }
    &&& s.len() == 0 && q.len() == 0 ==> {
        &&& after.queue() == q
        &&& after.stacks() == s
    }
}

impl<I: Iterator> Buffered<I> where I::Item: Clone {
    /// The items pulled from the source that may still be read again.
    pub closed spec fn queue(&self) -> Seq<I::Item> {
        self.saved.queue@
    }

    /// The saved positions, innermost last.
    pub closed spec fn stacks(&self) -> Seq<usize> {
        self.saved.stacks@
    }

    /// The iterator the items are pulled from.
    pub closed spec fn source(&self) -> I {
        self.iter
    }

    /// The index into the queue of the next item to be read.
    pub open spec fn cursor(&self) -> int {
        if self.stacks().len() == 0 {
            0
        } else {
            self.stacks().last() as int
        }
    }

    /// Every saved position lies within the queue, whose length fits in a
    /// `usize`.
    pub open spec fn well_formed(&self) -> bool {
        &&& self.queue().len() <= usize::MAX
        &&& forall|k: int| 0 <= k < self.stacks().len() ==> #[trigger] self.stacks()[k] <= self.queue().len()
    }

    pub fn new(iter: I) -> (r: Self)
        ensures
            r.source() == iter,
            r.queue() == Seq::<I::Item>::empty(),
            r.stacks() == Seq::<usize>::empty(),
            r.well_formed(),
    {
        Self { iter, saved: Saved { queue: VecDeque::new(), stacks: Vec::new() } }
    }

    /// Save the current location in the iterator.
    pub fn push(&mut self)
        ensures
            pushes(*old(self), *final(self)),
            final(self).well_formed(),
    {
        let (queue, mut stacks) = self.saved.take();
        let n = stacks.len();
        let next = if n == 0 {
            0
        } else {
            stacks[n - 1]
        };
        stacks.push(next);
        self.saved = Saved { queue, stacks };
        proof {
            use_type_invariant(&self.saved);
        }
    }

    /// Forget the last push location, saving the items for future retrieval.
    pub fn restore(&mut self)
        ensures
            restores(*old(self), *final(self)),
            final(self).well_formed(),
    {
        let (queue, mut stacks) = self.saved.take();
        stacks.pop();
        self.saved = Saved { queue, stacks };
        proof {
            use_type_invariant(&self.saved);
        }
    }

    /// Move the next stack level forward, or clear the queue if no stacks are
    /// left.
    pub fn pop(&mut self)
        ensures
            pops(*old(self), *final(self)),
            final(self).well_formed(),
    {
        let (mut queue, mut stacks) = self.saved.take();
        let ghost (q, s) = (queue@, stacks@);
        if let Some(last) = stacks.pop() {
            let n = stacks.len();
            assert(last <= q.len()) by {
                assert(s[n as int] == last);
            }
            if n > 0 {
                stacks.set(n - 1, last);
                assert(stacks@ =~= s.drop_last().update(n - 1, last));
            } else {
                assert(stacks@ =~= Seq::<usize>::empty());
                if last == queue.len() {
                    queue.clear();
                } else {
                    queue = queue.split_off(last);
                }
                assert(queue@ =~= q.skip(last as int));
            }
        }
        self.saved = Saved { queue, stacks };
        proof {
            use_type_invariant(&self.saved);
        }
    }

    /// Reads the next item: the one at the innermost saved position, pulled
    /// from the source when the queue holds no more; with no saved position,
    /// the front of the queue, taken out of it, or the next item of the
    /// source.
    pub fn next(&mut self) -> (r: Option<I::Item>)
        ensures
            ({
                let q = old(self).queue();
                let s = old(self).stacks();
                let c = old(self).cursor();
                let (before, after) = (old(self).source(), final(self).source());
                // The item is read from the source when the queue has no
                // item left for the reading position.
                &&& (s.len() > 0 && c >= q.len() || s.len() == 0 && q.len() == 0)
                    && before.obeys_prophetic_iter_laws() ==> {
                    &&& after.obeys_prophetic_iter_laws()
                    &&& if before.remaining().len() > 0 {
                        &&& r == Some(before.remaining()[0])
                        &&& after.remaining() == before.remaining().drop_first()
                    } else {
                        &&& r is None
                        &&& after.remaining() == before.remaining()
                    }
                }
                // For a source that keeps the iterator laws, and items whose
                // clones are equal to them: the item read is the first of
                // those to come from the reading position on, which lose it;
                // with a position saved, the items to come from the start of
                // the queue stay as they were.
                &&& before.obeys_prophetic_iter_laws() && (forall|x: I::Item, y: I::Item|
                    #[trigger] cloned(x, y) ==> x == y) ==> {
                    let rest0 = q.skip(c) + before.remaining();
                    let rest1 = final(self).queue().skip(final(self).cursor()) + after.remaining();
                    &&& r == if rest0.len() > 0 {
                        Some(rest0[0])
                    } else {
                        None
                    }
                    &&& rest1 == if rest0.len() > 0 {
                        rest0.drop_first()
                    } else {
                        rest0
                    }
                    &&& s.len() > 0 ==> final(self).queue() + after.remaining() == q + before.remaining()
                }
            }),
            steps(*old(self), *final(self), r),
            final(self).well_formed(),
    {
        let (mut queue, mut stacks) = self.saved.take();
        let ghost (q, s) = (queue@, stacks@);
        let n = stacks.len();
        let r = if n > 0 {
            let i = stacks[n - 1];
            assert(i <= queue@.len()) by {
                assert(s[n - 1] == i);
            }
            if i < queue.len() {
                let item = queue[i].clone();
                stacks.set(n - 1, i + 1);
                assert(stacks@ =~= s.update(n - 1, (i + 1) as usize));
                Some(item)
            } else {
                match self.iter.next() {
                    Some(item) => {
                        queue.push_back(item.clone());
                        stacks.set(n - 1, queue.len());
                        assert(stacks@ =~= s.update(n - 1, (i + 1) as usize));
                        assert(queue@.drop_last() =~= q);
                        Some(item)
                    },
                    None => None,
                }
            }
        } else if queue.len() == 0 {
            self.iter.next()
        } else {
            let front = queue.pop_front();
            assert(queue@ =~= q.drop_first());
            front
        };
        self.saved = Saved { queue, stacks };
        proof {
            use_type_invariant(&self.saved);
            let ghost_self = *self;
            if old(self).source().obeys_prophetic_iter_laws() && (forall|x: I::Item, y: I::Item|
                #[trigger] cloned(x, y) ==> x == y) {
                lemma_next_stream(*old(self), ghost_self, r);
            }
        }
        r
    }

    /// Pushes to the buffer, pops when Some is returned and restores given
    /// None.
    ///
    /// When `f` leaves the saved positions as nested as it found them, a
    /// `None` from `f` puts the reading position back where it was, with the
    /// queue only extended; a `Some` keeps what `f` read. When `f` also
    /// keeps the items to come from the start of the queue (as reads do, for
    /// a source that keeps the iterator laws), a `None` leaves the items to
    /// come from the reading position exactly as they were.
    pub fn with<R, F: FnOnce(&mut Self) -> Option<R>>(&mut self, f: F) -> (r: Option<R>)
        requires
            forall|m: &mut Self| #[trigger] f.requires((m,)),
        ensures
            exists|m: &mut Self| {
                &&& #[trigger] f.ensures((m,), r)
                &&& pushes(*old(self), *m)
                &&& r is Some ==> pops(*final(m), *final(self))
                &&& r is None ==> restores(*final(m), *final(self))
            },
            (forall|m: &mut Self, out: Option<R>| #[trigger]
                f.ensures((m,), out) ==> nested(*m, *final(m))) ==> {
                &&& r is None ==> {
                    &&& final(self).stacks() == old(self).stacks()
                    &&& old(self).queue().is_prefix_of(final(self).queue())
                }
                &&& r is Some && old(self).stacks().len() > 0 ==> {
                    &&& final(self).stacks().len() == old(self).stacks().len()
                    &&& final(self).stacks().drop_last() == old(self).stacks().drop_last()
                    &&& final(self).cursor() >= old(self).cursor()
                    &&& old(self).queue().is_prefix_of(final(self).queue())
                }
                &&& r is Some && old(self).stacks().len() == 0 ==> final(self).stacks().len() == 0
            },
            // When `f` also keeps the items to come from the start of the
            // queue, a `None` leaves the items to come from the reading
            // position as they were; either, below another saved position,
            // keeps the items to come from the start of the queue.
            (forall|m: &mut Self, out: Option<R>| #[trigger]
                f.ensures((m,), out) ==> {
                    &&& nested(*m, *final(m))
                    &&& final(m).queue() + final(m).source().remaining() == m.queue()
                        + m.source().remaining()
                }) ==> {
                &&& r is None ==> final(self).queue().skip(final(self).cursor())
                    + final(self).source().remaining() == old(self).queue().skip(old(self).cursor())
                    + old(self).source().remaining()
                &&& r is None || old(self).stacks().len() > 0 ==> final(self).queue()
                    + final(self).source().remaining() == old(self).queue() + old(self).source().remaining()
            },
    {
        proof {
            use_type_invariant(&self.saved);
        }
        let ghost start = *self;
        self.push();
        let ghost pushed = *self;
        let r = f(self);
        let ghost mid = *self;
        match r {
            Some(value) => {
                self.pop();
                assert(mid.stacks().len() >= 2 ==> self.stacks().drop_last() =~= mid.stacks().drop_last().drop_last());
                Some(value)
            },
            None => {
                self.restore();
                proof {
                    let restored = *self;
                    lemma_rewind(start, pushed, mid, restored);
                }
                None
            },
        }
    }
}

/// Forgetting a saved position after reads that keep the items to come
/// from the start of the queue gives back the items to come from the
/// position that was saved.
proof fn lemma_rewind<I: Iterator>(start: Buffered<I>, pushed: Buffered<I>, mid: Buffered<I>, restored: Buffered<I>) where
    I::Item: Clone,

    requires
        start.well_formed(),
        pushes(start, pushed),
        restores(mid, restored),
    ensures
        nested(pushed, mid) && mid.queue() + mid.source().remaining() == pushed.queue()
            + pushed.source().remaining() ==> {
            &&& restored.stacks() == start.stacks()
            &&& restored.queue().skip(restored.cursor()) + restored.source().remaining() == start.queue().skip(
                start.cursor(),
            ) + start.source().remaining()
            &&& restored.queue() + restored.source().remaining() == start.queue() + start.source().remaining()
        },
{
    if nested(pushed, mid) && mid.queue() + mid.source().remaining() == pushed.queue()
        + pushed.source().remaining() {
        let c = start.cursor();
        if start.stacks().len() > 0 {
            assert(start.stacks()[start.stacks().len() - 1] <= start.queue().len());
        }
        assert(restored.stacks() =~= start.stacks());
        let (q, rem) = (start.queue(), start.source().remaining());
        let (q1, rem1) = (mid.queue(), mid.source().remaining());
        assert((q1 + rem1).skip(c) =~= q1.skip(c) + rem1);
        assert((q + rem).skip(c) =~= q.skip(c) + rem);
    }
}

/// Rewinding gives back what was to come: when the reading position was
/// saved, and whatever was done since left the saved positions nested and
/// kept the items to come from the start of the queue (reads, and `with`
/// calls whose closures do the same), forgetting the saved position with
/// `restore` brings back the saved positions and the items to come from
/// the reading position as they were before the position was saved.
pub proof fn lemma_restore_rewinds<I: Iterator>(
    start: Buffered<I>,
    pushed: Buffered<I>,
    mid: Buffered<I>,
    restored: Buffered<I>,
) where I::Item: Clone
    requires
        start.well_formed(),
        pushes(start, pushed),
        nested(pushed, mid),
        mid.queue() + mid.source().remaining() == pushed.queue() + pushed.source().remaining(),
        restores(mid, restored),
    ensures
        restored.stacks() == start.stacks(),
        restored.queue().skip(restored.cursor()) + restored.source().remaining() == start.queue().skip(
            start.cursor(),
        ) + start.source().remaining(),
        restored.queue() + restored.source().remaining() == start.queue() + start.source().remaining(),
{
    lemma_rewind(start, pushed, mid, restored);
}

/// `nested` carries over: states nested one in the next are nested end to
/// end.
pub proof fn lemma_nested_chain<I: Iterator>(a: Buffered<I>, b: Buffered<I>, c: Buffered<I>) where
    I::Item: Clone,

    requires
        nested(a, b),
        nested(b, c),
    ensures
        nested(a, c),
{
    assert(c.stacks().drop_last() =~= a.stacks().drop_last());
}

/// A read at a saved position, for a source that keeps the iterator laws
/// and items whose clones are equal to them, leaves the saved positions
/// nested and keeps the items to come from the start of the queue.
pub proof fn lemma_read_keeps_stream<I: Iterator>(before: Buffered<I>, after: Buffered<I>, r: Option<I::Item>) where
    I::Item: Clone,

    requires
        before.well_formed(),
        after.well_formed(),
        before.stacks().len() > 0,
        steps(before, after, r),
        after.queue() + after.source().remaining() == before.queue() + before.source().remaining(),
    ensures
        nested(before, after),
{
    let s = before.stacks();
    assert(s[s.len() - 1] <= before.queue().len());
    if before.cursor() < before.queue().len() || r is Some {
        assert(after.stacks().drop_last() =~= s.drop_last());
    }
    if before.cursor() >= before.queue().len() && r is Some {
        assert(before.queue() =~= after.queue().drop_last());
        assert forall|i: int| 0 <= i < before.queue().len() implies before.queue()[i] == after.queue()[i] by {
            assert(after.queue().drop_last()[i] == after.queue()[i]);
        }
    }
    assert(before.queue().is_prefix_of(after.queue()));
}

/// What a read does to the items to come, for a source that keeps the
/// iterator laws and items whose clones are equal to them.
proof fn lemma_next_stream<I: Iterator>(before: Buffered<I>, after: Buffered<I>, r: Option<I::Item>) where
    I::Item: Clone,

    requires
        before.well_formed(),
        after.well_formed(),
        steps(before, after, r),
        before.source().obeys_prophetic_iter_laws(),
        forall|x: I::Item, y: I::Item| #[trigger] cloned(x, y) ==> x == y,
        ({
            let (q, s, c) = (before.queue(), before.stacks(), before.cursor());
            (s.len() > 0 && c >= q.len() || s.len() == 0 && q.len() == 0) ==> {
                &&& after.source().obeys_prophetic_iter_laws()
                &&& if before.source().remaining().len() > 0 {
                    &&& r == Some(before.source().remaining()[0])
                    &&& after.source().remaining() == before.source().remaining().drop_first()
                } else {
                    &&& r is None
                    &&& after.source().remaining() == before.source().remaining()
                }
            }
        }),
    ensures
        ({
            let (q, s, c) = (before.queue(), before.stacks(), before.cursor());
            let rest0 = q.skip(c) + before.source().remaining();
            let rest1 = after.queue().skip(after.cursor()) + after.source().remaining();
            &&& r == if rest0.len() > 0 {
                Some(rest0[0])
            } else {
                None
            }
            &&& rest1 == if rest0.len() > 0 {
                rest0.drop_first()
            } else {
                rest0
            }
            &&& s.len() > 0 ==> after.queue() + after.source().remaining() == q + before.source().remaining()
        }),
{
    let (q, s, c) = (before.queue(), before.stacks(), before.cursor());
    let rem = before.source().remaining();
    let rest0 = q.skip(c) + rem;
    let rest1 = after.queue().skip(after.cursor()) + after.source().remaining();
    if s.len() > 0 {
        assert(s[s.len() - 1] <= q.len());
        if c < q.len() {
            assert(rest0[0] == q[c]);
            assert(rest1 =~= rest0.drop_first());
        } else if rem.len() > 0 {
            assert(after.queue() =~= q.push(rem[0]));
            assert(rest1 =~= rest0.drop_first());
            assert(after.queue() + after.source().remaining() =~= q + rem);
        } else {
            assert(rest1 =~= rest0);
        }
    } else if q.len() > 0 {
        assert(rest1 =~= rest0.drop_first());
    } else {
        assert(rest0 =~= rem);
        assert(rest1 =~= after.source().remaining());
    }
}

/// The `i`-th read of `states`: from `states[i]` to `states[i + 1]`, giving
/// `results[i]`.
pub open spec fn step_at<I: Iterator>(states: Seq<Buffered<I>>, results: Seq<Option<I::Item>>, i: int) -> bool where
    I::Item: Clone,
 {
    steps(states[i], states[i + 1], results[i])
}

/// `states` are the states of a buffer from one read to the next, and
/// `results` what each read gave.
pub open spec fn reads_in_turn<I: Iterator>(states: Seq<Buffered<I>>, results: Seq<Option<I::Item>>) -> bool where
    I::Item: Clone,
 {
    &&& states.len() == results.len() + 1
    &&& forall|i: int| 0 <= i < states.len() ==> #[trigger] states[i].well_formed()
    &&& forall|i: int| 0 <= i < results.len() ==> #[trigger] step_at(states, results, i)
}

/// Items read after the reading position was saved go to the queue from
/// that position on, in order.
proof fn lemma_reads_fill_queue<I: Iterator>(
    start: Buffered<I>,
    read: Seq<Buffered<I>>,
    items: Seq<I::Item>,
    i: int,
) where I::Item: Clone
    requires
        start.well_formed(),
        pushes(start, read[0]),
        reads_in_turn(read, items.map_values(|x: I::Item| Some(x))),
        0 <= i <= items.len(),
    ensures
        read[i].stacks() == start.stacks().push((start.cursor() + i) as usize),
        start.cursor() + i <= read[i].queue().len(),
        (forall|a: I::Item, b: I::Item| #[trigger] cloned(a, b) ==> a == b) ==> forall|j: int|
            0 <= j < i ==> #[trigger] read[i].queue()[start.cursor() + j] == items[j],
    decreases i,
{
    let c0 = start.cursor();
    if start.stacks().len() > 0 {
        assert(start.stacks()[start.stacks().len() - 1] <= start.queue().len());
    }
    if i > 0 {
        lemma_reads_fill_queue(start, read, items, i - 1);
        let results = items.map_values(|x: I::Item| Some(x));
        assert(step_at(read, results, i - 1));
        let (b, a) = (read[i - 1], read[i]);
        assert(read[i].well_formed());
        assert(b.cursor() == c0 + i - 1);
        assert(a.stacks() =~= start.stacks().push((c0 + i) as usize));
        assert forall|j: int|
            (forall|x: I::Item, y: I::Item| #[trigger] cloned(x, y) ==> x == y) && 0 <= j < i implies
            #[trigger] a.queue()[c0 + j] == items[j] by {
            if j < i - 1 {
                assert(b.queue()[c0 + j] == items[j]);
                if b.cursor() >= b.queue().len() {
                    assert(a.queue().drop_last()[c0 + j] == a.queue()[c0 + j]);
                }
            } else {
                assert(cloned(b.queue()[c0 + j], items[j]) || cloned(items[j], a.queue().last()));
            }
        }
    } else {
        assert(read[0].stacks() =~= start.stacks().push((c0 + 0) as usize));
    }
}

/// Rewinding gives back what was read: when the reading position was saved,
/// items read, and the saved position forgotten with `restore`, reading on
/// gives the same items again, for items whose clones are equal to them.
pub proof fn lemma_restore_reads_again<I: Iterator>(
    start: Buffered<I>,
    read: Seq<Buffered<I>>,
    items: Seq<I::Item>,
    again: Seq<Buffered<I>>,
    results: Seq<Option<I::Item>>,
) where I::Item: Clone
    requires
        forall|a: I::Item, b: I::Item| #[trigger] cloned(a, b) ==> a == b,
        start.well_formed(),
        pushes(start, read[0]),
        reads_in_turn(read, items.map_values(|x: I::Item| Some(x))),
        restores(read.last(), again[0]),
        reads_in_turn(again, results),
        results.len() == items.len(),
    ensures
        results == items.map_values(|x: I::Item| Some(x)),
{
    let k = items.len() as int;
    lemma_reads_fill_queue(start, read, items, k);
    let q = read[k].queue();
    assert(read.last() == read[k]);
    assert(again[0].stacks() =~= start.stacks());
    assert forall|j: int| 0 <= j < k implies #[trigger] results[j] == Some(items[j]) by {
        lemma_reads_again(start, q, items, again, results, j);
    }
    assert(results =~= items.map_values(|x: I::Item| Some(x)));
}

/// Committing goes on from what was read: when the reading position was
/// saved, items read, and the saved position dropped with `pop`, the
/// position below is moved past the items read, or, with no position left
/// saved, the items read leave the queue.
pub proof fn lemma_pop_reads_on<I: Iterator>(
    start: Buffered<I>,
    read: Seq<Buffered<I>>,
    items: Seq<I::Item>,
    popped: Buffered<I>,
) where I::Item: Clone
    requires
        start.well_formed(),
        pushes(start, read[0]),
        reads_in_turn(read, items.map_values(|x: I::Item| Some(x))),
        pops(read.last(), popped),
    ensures
        popped.source() == read.last().source(),
        start.stacks().len() > 0 ==> {
            &&& popped.stacks() == start.stacks().update(
                start.stacks().len() - 1,
                (start.cursor() + items.len()) as usize,
            )
            &&& popped.queue() == read.last().queue()
        },
        start.stacks().len() == 0 ==> {
            &&& popped.stacks() == start.stacks()
            &&& popped.queue() == read.last().queue().skip(items.len() as int)
        },
{
    let k = items.len() as int;
    lemma_reads_fill_queue(start, read, items, k);
    assert(read.last() == read[k]);
    assert(read[k].well_formed());
    if start.stacks().len() > 0 {
        assert(popped.stacks() =~= start.stacks().update(
            start.stacks().len() - 1,
            (start.cursor() + k) as usize,
        ));
    } else {
        assert(start.stacks() =~= Seq::<usize>::empty());
        assert(read[k].well_formed());
        assert(read[k].stacks()[0] == k);
    }
}

/// After the rewind, the `j`-th read is at the `j`-th item read before.
proof fn lemma_reads_again<I: Iterator>(
    start: Buffered<I>,
    q: Seq<I::Item>,
    items: Seq<I::Item>,
    again: Seq<Buffered<I>>,
    results: Seq<Option<I::Item>>,
    j: int,
) where I::Item: Clone
    requires
        forall|a: I::Item, b: I::Item| #[trigger] cloned(a, b) ==> a == b,
        start.well_formed(),
        start.cursor() + items.len() <= q.len(),
        forall|i: int| 0 <= i < items.len() ==> #[trigger] q[start.cursor() + i] == items[i],
        again[0].stacks() == start.stacks(),
        again[0].queue() == q,
        reads_in_turn(again, results),
        results.len() == items.len(),
        0 <= j < items.len(),
    ensures
        results[j] == Some(items[j]),
        start.stacks().len() > 0 ==> {
            &&& again[j + 1].stacks() == start.stacks().update(
                start.stacks().len() - 1,
                (start.cursor() + j + 1) as usize,
            )
            &&& again[j + 1].queue() == q
        },
        start.stacks().len() == 0 ==> {
            &&& again[j + 1].stacks() == start.stacks()
            &&& again[j + 1].queue() == q.skip(j + 1)
        },
    decreases j,
{
    let c0 = start.cursor();
    let s0 = start.stacks();
    if j > 0 {
        lemma_reads_again(start, q, items, again, results, j - 1);
    }
    assert(step_at(again, results, j));
    assert(again[j + 1].well_formed());
    assert(q[c0 + j] == items[j]);
    if s0.len() > 0 {
        if j == 0 {
            assert(again[0].stacks() =~= s0.update(s0.len() - 1, (c0 + 0) as usize));
        }
        assert(again[j].cursor() == c0 + j);
        assert(again[j + 1].stacks() =~= s0.update(s0.len() - 1, (c0 + j + 1) as usize));
    } else {
        if j == 0 {
            assert(q.skip(0) =~= q);
        }
        assert(again[j].queue()[0] == q[j]);
        assert(again[j].queue().drop_first() =~= q.skip(j + 1));
    }
}

/// Wraps an iterator in a [`Buffered`].
pub trait BufferedExt: Iterator + Sized where Self::Item: Clone {
    fn buffered(self) -> (r: Buffered<Self>)
        ensures
            r.source() == self,
            r.queue() == Seq::<Self::Item>::empty(),
            r.stacks() == Seq::<usize>::empty(),
    ;
}

impl<T: Iterator> BufferedExt for T where T::Item: Clone {
    fn buffered(self) -> (r: Buffered<Self>) {
        Buffered::new(self)
    }
}

} // verus!
