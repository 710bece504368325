use vstd::prelude::*;

verus! {

/// A plain ordered tree: a value and its children.
pub struct Node<T> {
    pub data: T,
    pub children: Vec<Node<T>>,
}

impl<T> Node<T> {
    /// A leaf holding `data`.
    pub fn new(data: T) -> (r: Node<T>)
        ensures
            r.data == data,
            r.children@.len() == 0,
    {
        Node { data, children: Vec::new() }
    }

    /// Appends `child` as the last child.
    pub fn add(&mut self, child: Node<T>)
        ensures
            final(self).data == old(self).data,
            final(self).children@ == old(self).children@.push(child),
    {
        self.children.push(child);
    }

    /// Inserts `child` as the child at `index`.
    pub fn insert(&mut self, index: usize, child: Node<T>)
        requires
            index <= old(self).children@.len(),
        ensures
            final(self).data == old(self).data,
            final(self).children@ == old(self).children@.insert(index as int, child),
    {
        self.children.insert(index, child);
    }
}

} // verus!
