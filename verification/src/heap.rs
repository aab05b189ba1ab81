//! The heap: an index-addressed, growable array of tagged cells that stores
//! every compiled term and every run-time binding.

use vstd::prelude::*;

verus! {

/// Position of a cell in the heap, counted from zero.
pub type HeapIndex = usize;

/// What a heap cell holds.
#[derive(Copy, Clone, Debug, PartialEq, Eq, Structural)]
pub enum HeapTag {
    /// A variable. A cell that names its own position is unbound.
    Variable,
    /// A later occurrence of a variable, or a binding: the data names the
    /// cell to continue at.
    Unify,
    /// Points to the first cell of another term's block.
    Reference,
    /// An atom: the data is its id in the symbol table.
    Constant,
    /// A number literal.
    Number,
    /// First cell of a block: the data is the term's argument count.
    Arity,
    /// Reserved but not yet written.
    Uninitialized,
}

/// One cell of the heap.
#[derive(Copy, Clone, Debug, PartialEq, Eq, Structural)]
pub struct HeapEntry {
    pub tag: HeapTag,
    pub data: HeapIndex,
}

impl HeapEntry {
    /// The content of a cell that has been reserved and not written.
    pub open spec fn spec_empty() -> Self {
        HeapEntry { tag: HeapTag::Uninitialized, data: 0 }
    }

    /// The content of a cell that has been reserved and not written.
    #[verifier::when_used_as_spec(spec_empty)]
    pub fn empty() -> (entry: Self)
        ensures
            entry == Self::spec_empty(),
    {
        HeapEntry { tag: HeapTag::Uninitialized, data: 0 }
    }

    /// An entry with the given tag and data.
    pub fn new(tag: HeapTag, data: HeapIndex) -> (entry: Self)
        ensures
            entry == (HeapEntry { tag, data }),
    {
        HeapEntry { tag, data }
    }

    /// Whether the cell is a variable occurrence, first or later.
    pub open spec fn spec_is_var_or_unify(&self) -> bool {
        self.tag == HeapTag::Variable || self.tag == HeapTag::Unify
    }

    /// Whether the cell is a variable occurrence, first or later.
    #[verifier::when_used_as_spec(spec_is_var_or_unify)]
    pub fn is_var_or_unify(&self) -> (b: bool)
        ensures
            b == self.spec_is_var_or_unify(),
    {
        self.tag == HeapTag::Variable || self.tag == HeapTag::Unify
    }
}

/// The heap. Its view is the sequence of its cells.
#[derive(Debug, PartialEq)]
pub struct Heap {
    buffer: Vec<HeapEntry>,
}

impl View for Heap {
    type V = Seq<HeapEntry>;

    closed spec fn view(&self) -> Seq<HeapEntry> {
        self.buffer@
    }
}

impl Heap {
    /// A heap without cells.
    pub fn new() -> (heap: Self)
        ensures
            heap@ == Seq::<HeapEntry>::empty(),
    {
        Heap { buffer: Vec::new() }
    }

    /// Reserves `size` fresh cells at the end of the heap and returns the
    /// position of the first. Cells already there keep their content.
    pub fn allocate(&mut self, size: HeapIndex) -> (index: HeapIndex)
        ensures
            index == old(self)@.len(),
            final(self)@ == old(self)@ + Seq::new(size as nat, |i: int| HeapEntry::empty()),
    {
        let index = self.buffer.len();
        let mut count: usize = 0;
        while count < size
            invariant
                count <= size,
                index == old(self)@.len(),
                self.buffer@ == old(self)@ + Seq::new(count as nat, |i: int| HeapEntry::empty()),
            decreases size - count,
        {
            self.buffer.push(HeapEntry::empty());
            count += 1;
        }
        index
    }

    /// Overwrites the cell at `index`, which must have been reserved.
    pub fn write(&mut self, index: HeapIndex, entry: HeapEntry)
        requires
            index < old(self)@.len(),
        ensures
            final(self)@ == old(self)@.update(index as int, entry),
    {
        self.buffer[index] = entry;
    }

    /// The content of the cell at `index`, which must have been reserved.
    pub fn read(&self, index: HeapIndex) -> (entry: HeapEntry)
        requires
            index < self@.len(),
        ensures
            entry == self@[index as int],
    {
        self.buffer[index]
    }

    /// The cells, first to last.
    pub fn entries(&self) -> (cells: &Vec<HeapEntry>)
        ensures
            cells@ == self@,
    {
        &self.buffer
    }

    /// Drops every cell at or above `mark`; cells below it keep their
    /// content. A mark beyond the end changes nothing.
    pub fn truncate(&mut self, mark: HeapIndex)
        ensures
            final(self)@ == if mark <= old(self)@.len() {
                old(self)@.take(mark as int)
            } else {
                old(self)@
            },
    {
        self.buffer.truncate(mark);
    }

    /// The heap never holds more cells than an index can count.
    pub proof fn lemma_len_fits(&self)
        ensures
            self@.len() <= usize::MAX,
    {
        assert(self.buffer.len() == self.buffer@.len());
    }

    /// The number of cells.
    pub open spec fn spec_len(&self) -> HeapIndex {
        self@.len() as HeapIndex
    }

    /// The number of cells, which is the position of the next cell to be
    /// reserved.
    #[verifier::when_used_as_spec(spec_len)]
    pub fn len(&self) -> (top: HeapIndex)
        ensures
            top == self@.len(),
    {
        self.buffer.len()
    }
}

} // verus!
