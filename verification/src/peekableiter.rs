use vstd::prelude::*;
use crate::token::{item_view, items_view, Item, ItemView};

verus! {

/// A stage between the text and the tree: something that hands out items
/// one at a time.
pub trait TokenIter {
    /// The items that `next` is still to hand out, in order.
    spec fn stream(&self) -> Seq<ItemView>;

    /// Takes the next item of the stream, if one is left.
    fn next(&mut self) -> (r: Option<Item>)
        ensures
            old(self).stream().len() == 0 ==> r is None && final(self).stream().len() == 0,
            old(self).stream().len() > 0 ==> r is Some && item_view(r->0) == old(self).stream()[0]
                && final(self).stream() == old(self).stream().skip(1),
    ;
}

/// Where the first error of `s` stands, or the length of `s` if it holds
/// none.
pub open spec fn first_error(s: Seq<ItemView>) -> nat
    decreases s.len(),
{
    if s.len() == 0 || s[0] is Err {
        0
    } else {
        1 + first_error(s.skip(1))
    }
}

/// The items of `s` up to its first error, the error included: what a
/// reader sees who stops at the first error.
pub open spec fn until_error(s: Seq<ItemView>) -> Seq<ItemView> {
    if first_error(s) < s.len() {
        s.take(first_error(s) as int + 1)
    } else {
        s
    }
}

/// A stream that was read up to its first error holds no error but,
/// where it has one, as its last item.
pub proof fn lemma_until_error(s: Seq<ItemView>)
    ensures
        until_error(s).len() <= s.len(),
        forall|i: int| 0 <= i < until_error(s).len() ==> until_error(s)[i] == s[i],
        forall|i: int| 0 <= i < until_error(s).len() - 1 ==> (#[trigger] until_error(s)[i]) is Ok,
        until_error(until_error(s)) == until_error(s),
{
    lemma_first_error_bound(s);
    let u = until_error(s);
    lemma_first_error_bound(u);
    if first_error(s) < s.len() {
        assert(u[first_error(s) as int] == s[first_error(s) as int]);
        if first_error(u) < first_error(s) {
            assert(u[first_error(u) as int] == s[first_error(u) as int]);
        }
        assert(first_error(u) == first_error(s));
        assert(until_error(u) =~= u);
    } else {
        assert(until_error(u) =~= u);
    }
}

/// The first error of a stream stands within it.
pub proof fn lemma_first_error_bound(s: Seq<ItemView>)
    ensures
        first_error(s) <= s.len(),
        first_error(s) < s.len() ==> s[first_error(s) as int] is Err,
        forall|i: int| 0 <= i < first_error(s) ==> (#[trigger] s[i]) is Ok,
    decreases s.len(),
{
    if s.len() == 0 || s[0] is Err {
    } else {
        lemma_first_error_bound(s.skip(1));
        assert forall|i: int| 0 <= i < first_error(s) implies (#[trigger] s[i]) is Ok by {
            if i > 0 {
                assert(s[i] == s.skip(1)[i - 1]);
            }
        }
    }
}

/// A stream of items with a view ahead.
///
/// `next` hands the items out in order, each once; `peek` shows an item
/// that is still to come without taking it. The stream holds all its items
/// from the start, so it can show any of them.
pub struct PeekableIter {
    /// The items still to hand out, the next one last.
    stack: Vec<Item>,
}

impl PeekableIter {
    /// The items still to hand out, the next one first.
    pub closed spec fn remaining(&self) -> Seq<ItemView> {
        Seq::new(self.stack@.len(), |i: int| item_view(self.stack@[self.stack@.len() - 1 - i]))
    }

    /// Reads `upstream` up to its end or its first error, and hands out what
    /// it read.
    pub fn new<I: TokenIter>(upstream: &mut I) -> (r: PeekableIter)
        ensures
            r.remaining() == until_error(old(upstream).stream()),
            final(upstream).stream() == old(upstream).stream().skip(r.remaining().len() as int),
    {
        let ghost all = upstream.stream();
        let mut items: Vec<Item> = Vec::new();
        let mut done = false;
        while !done
            invariant
                items@.len() <= all.len(),
                upstream.stream() == all.skip(items@.len() as int),
                items_view(items@) == all.take(items@.len() as int),
                !done ==> items@.len() <= first_error(all),
                done ==> items_view(items@) == until_error(all),
            decreases upstream.stream().len() + (if done { 0int } else { 1int }),
        {
            proof {
                lemma_first_error_bound(all);
            }
            let ghost before = items@;
            match upstream.next() {
                None => {
                    done = true;
                    assert(all.take(all.len() as int) =~= all);
                },
                Some(item) => {
                    let is_error = item.is_err();
                    items.push(item);
                    assert(items_view(items@) =~= all.take(items@.len() as int)) by {
                        assert(all.skip(before.len() as int)[0] == all[before.len() as int]);
                        assert forall|j: int| 0 <= j < items@.len() implies items_view(items@)[j]
                            == all[j] by {
                            if j < before.len() {
                                assert(items_view(before)[j] == all.take(before.len() as int)[j]);
                            }
                        }
                    }
                    assert(all.skip(before.len() as int).skip(1) =~= all.skip(items@.len() as int));
                    if is_error {
                        done = true;
                        assert(first_error(all) == before.len());
                    } else {
                        assert(first_error(all) != before.len());
                    }
                },
            }
        }
        Self::from_items(items)
    }

    /// A stream that hands out `items` in order.
    pub fn from_items(items: Vec<Item>) -> (r: PeekableIter)
        ensures
            r.remaining() == items_view(items@),
    {
        let ghost all = items@;
        let mut items = items;
        let mut stack: Vec<Item> = Vec::new();
        while items.len() > 0
            invariant
                items@.len() <= all.len(),
                items@ == all.take(items@.len() as int),
                stack@.len() + items@.len() == all.len(),
                forall|j: int| 0 <= j < stack@.len() ==> stack@[j] == all[all.len() - 1 - j],
            decreases items.len(),
        {
            let item = items.pop().unwrap();
            stack.push(item);
        }
        let r = PeekableIter { stack };
        assert(r.remaining() =~= items_view(all));
        r
    }

    /// Shows the item that is `offset` items ahead, if there is one.
    pub fn peek(&self, offset: usize) -> (r: Option<&Item>)
        ensures
            self.remaining().len() <= usize::MAX,
            offset >= self.remaining().len() ==> r is None,
            offset < self.remaining().len() ==> r is Some && item_view(*r->0)
                == self.remaining()[offset as int],
    {
        if offset < self.stack.len() {
            Some(&self.stack[self.stack.len() - 1 - offset])
        } else {
            None
        }
    }
}

impl TokenIter for PeekableIter {
    open spec fn stream(&self) -> Seq<ItemView> {
        self.remaining()
    }

    fn next(&mut self) -> (r: Option<Item>) {
        let r = self.stack.pop();
        assert(old(self).remaining().len() > 0 ==> final(self).remaining() =~= old(self).remaining().skip(1));
        r
    }
}

} // verus!
