use vstd::prelude::*;

verus! {

/// An ordered, single-producer/single-consumer container for one search
/// depth's frontier. Items are appended during one expansion and read in
/// insertion order during exactly the next; an empty placeholder value (see
/// [`BulkQueue::bogus_new`]) stands in for a queue that is currently being
/// replaced, so the engine can move a queue out of its slot without an
/// aliasing conflict.
pub struct BulkQueue<T> {
    items: Vec<T>,
}

impl<T> View for BulkQueue<T> {
    type V = Seq<T>;

    closed spec fn view(&self) -> Seq<T> {
        self.items@
    }
}

impl<T> BulkQueue<T> {
    /// A new queue, optionally preloaded with one start item.
    pub fn new(start_item: Option<T>) -> (r: Self)
        ensures
            r@ == (match start_item {
                Option::Some(item) => seq![item],
                Option::None => Seq::<T>::empty(),
            }),
    {
        let mut items: Vec<T> = Vec::new();
        match start_item {
            Option::Some(item) => {
                items.push(item);
                proof {
                    assert(items@ =~= seq![item]);
                }
            }
            Option::None => {
                proof {
                    assert(items@ =~= Seq::<T>::empty());
                }
            }
        }
        BulkQueue { items }
    }

    /// An empty placeholder queue, used only to fill the slot of a queue
    /// that has been moved out for draining.
    pub fn bogus_new() -> (r: Self)
        ensures
            r@ == Seq::<T>::empty(),
    {
        BulkQueue { items: Vec::new() }
    }

    /// Append one item.
    pub fn push(&mut self, item: T)
        ensures
            final(self)@ == old(self)@.push(item),
    {
        self.items.push(item);
    }

    /// The number of items held.
    pub fn size(&self) -> (n: usize)
        ensures
            n == self@.len(),
    {
        self.items.len()
    }

    /// The item at position `i`, in insertion order.
    pub fn at(&self, i: usize) -> (r: &T)
        requires
            i < self@.len(),
        ensures
            *r == self@[i as int],
    {
        &self.items[i]
    }
}

} // verus!
