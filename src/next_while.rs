use vstd::prelude::*;

verus! {

/// Sources that can skip over a stretch of items and say how long it was.
pub trait NextWhile<T> {
    /// All the items of the source, consumed or not.
    spec fn items(&self) -> Seq<T>;

    /// How many items have been consumed.
    spec fn position(&self) -> nat;

    /// Consumes items while `func` holds of them and returns how many it
    /// consumed; the first item on which `func` fails stays unconsumed.
    fn next_while_count<F: Fn(&T) -> bool>(&mut self, func: F) -> (r: usize)
        requires
            old(self).position() <= old(self).items().len(),
            forall|i: int|
                old(self).position() <= i < old(self).items().len() ==> func.requires(
                    (&old(self).items()[i],),
                ),
        ensures
            final(self).items() == old(self).items(),
            final(self).position() == old(self).position() + r,
            final(self).position() <= final(self).items().len(),
            forall|i: int|
                old(self).position() <= i < final(self).position() ==> func.ensures(
                    (&old(self).items()[i],),
                    true,
                ),
            final(self).position() < final(self).items().len() ==> func.ensures(
                (&old(self).items()[final(self).position() as int],),
                false,
            ),
    ;
}

/// A sequence of items read from the front.
pub struct Cursor<T> {
    items: Vec<T>,
    pos: usize,
}

impl<T> Cursor<T> {
    /// A cursor before the first of `items`.
    pub fn new(items: Vec<T>) -> (r: Cursor<T>)
        ensures
            r.items() == items@,
            r.position() == 0,
    {
        Cursor { items, pos: 0 }
    }
}

impl<T> NextWhile<T> for Cursor<T> {
    closed spec fn items(&self) -> Seq<T> {
        self.items@
    }

    closed spec fn position(&self) -> nat {
        self.pos as nat
    }

    fn next_while_count<F: Fn(&T) -> bool>(&mut self, func: F) -> (r: usize) {
        let start = self.pos;
        let mut count: usize = 0;
        loop
            invariant
                self.items@ == old(self).items@,
                start == old(self).pos,
                self.pos == start + count,
                self.pos <= self.items.len(),
                forall|i: int|
                    start <= i < self.items.len() ==> func.requires((&self.items@[i],)),
                forall|i: int| start <= i < self.pos ==> func.ensures((&self.items@[i],), true),
            ensures
                self.items@ == old(self).items@,
                self.pos == start + count,
                self.pos <= self.items.len(),
                forall|i: int| start <= i < self.pos ==> func.ensures((&self.items@[i],), true),
                self.pos < self.items.len() ==> func.ensures((&self.items@[self.pos as int],), false),
            decreases self.items.len() - self.pos,
        {
            if self.pos >= self.items.len() {
                break;
            }
            if !func(&self.items[self.pos]) {
                break;
            }
            self.pos = self.pos + 1;
            count = count + 1;
        }
        count
    }
}

} // verus!
