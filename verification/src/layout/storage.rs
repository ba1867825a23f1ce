//! Storage for the rules of a container's children, kept from one layout
//! pass to the next.

use super::size_rules::SizeRules;
use vstd::prelude::*;

verus! {

/// What `set_len` makes of `rules`: the first `len` of them, followed by
/// empty rules where there were fewer.
pub open spec fn resized(rules: Seq<SizeRules>, len: int) -> Seq<SizeRules> {
    Seq::new(
        len as nat,
        |i: int|
            if i < rules.len() {
                rules[i]
            } else {
                SizeRules::empty_spec()
            },
    )
}

/// What is left of `rules` once the first `count` of them are emptied.
pub open spec fn cleared(rules: Seq<SizeRules>, count: int) -> Seq<SizeRules> {
    Seq::new(
        rules.len(),
        |i: int|
            if i < count {
                SizeRules::empty_spec()
            } else {
                rules[i]
            },
    )
}

/// Storage for the rules of the children of a row or column: one entry for
/// each child, in order, and a last one for their total.
pub trait RowStorage {
    /// The rules held.
    spec fn rules(&self) -> Seq<SizeRules>;

    /// Whether the storage can hold `len` rules.
    spec fn fits(&self, len: int) -> bool;

    /// The rules held.
    fn as_ref(&self) -> (rules: &[SizeRules])
        ensures
            rules@ == self.rules(),
    ;

    /// Makes the storage hold `len` rules: those it held are kept as far as
    /// they fit, and empty rules fill what is left.
    fn set_len(&mut self, len: usize)
        requires
            old(self).fits(len as int),
        ensures
            final(self).rules() == resized(old(self).rules(), len as int),
            forall|l: int| final(self).fits(l) == old(self).fits(l),
    ;

    /// Replaces the rules at `index`.
    fn set(&mut self, index: usize, rules: SizeRules)
        requires
            index < old(self).rules().len(),
        ensures
            final(self).rules() == old(self).rules().update(index as int, rules),
            forall|l: int| final(self).fits(l) == old(self).fits(l),
    ;
}

/// Storage whose length is set at run time, for a container whose number of
/// children varies.
#[derive(Clone, Debug)]
pub struct DynRowStorage {
    rules: Vec<SizeRules>,
}

impl DynRowStorage {
    /// Storage that holds no rules yet.
    pub fn new() -> (s: Self)
        ensures
            s.rules().len() == 0,
    {
        DynRowStorage { rules: Vec::new() }
    }
}

impl Default for DynRowStorage {
    fn default() -> (s: Self)
        ensures
            s.rules().len() == 0,
    {
        DynRowStorage { rules: Vec::new() }
    }
}

impl RowStorage for DynRowStorage {
    closed spec fn rules(&self) -> Seq<SizeRules> {
        self.rules@
    }

    open spec fn fits(&self, len: int) -> bool {
        true
    }

    fn as_ref(&self) -> (rules: &[SizeRules]) {
        self.rules.as_slice()
    }

    fn set_len(&mut self, len: usize) {
        let ghost before = self.rules@;
        self.rules.truncate(len);
        while self.rules.len() < len
            invariant
                self.rules@.len() <= len,
                self.rules@.len() >= before.len() || self.rules@.len() == len,
                forall|i: int|
                    0 <= i < self.rules@.len() ==> self.rules@[i] == resized(
                        before,
                        len as int,
                    )[i],
            decreases len - self.rules@.len(),
        {
            self.rules.push(SizeRules::empty());
        }
        assert(self.rules@ =~= resized(before, len as int));
    }

    fn set(&mut self, index: usize, rules: SizeRules) {
        self.rules[index] = rules;
    }
}

/// Storage of a length fixed at compile time, for a container whose number
/// of children is known: `N` is that number and one more, for the total.
#[derive(Clone, Copy, Debug)]
pub struct FixedRowStorage<const N: usize> {
    rules: [SizeRules; N],
}

impl<const N: usize> FixedRowStorage<N> {
    /// Storage that holds `N` empty rules.
    pub fn new() -> (s: Self)
        ensures
            s.rules() == resized(Seq::empty(), N as int),
    {
        let s = FixedRowStorage { rules: [SizeRules::empty();N] };
        assert(s.rules@ =~= resized(Seq::empty(), N as int));
        s
    }
}

impl<const N: usize> Default for FixedRowStorage<N> {
    fn default() -> (s: Self)
        ensures
            s.rules() == resized(Seq::empty(), N as int),
    {
        FixedRowStorage::new()
    }
}

impl<const N: usize> RowStorage for FixedRowStorage<N> {
    closed spec fn rules(&self) -> Seq<SizeRules> {
        self.rules@
    }

    open spec fn fits(&self, len: int) -> bool {
        len == N
    }

    fn as_ref(&self) -> (rules: &[SizeRules]) {
        self.rules.as_slice()
    }

    fn set_len(&mut self, len: usize) {
        assert(self.rules@ =~= resized(self.rules@, len as int));
    }

    fn set(&mut self, index: usize, rules: SizeRules) {
        self.rules[index] = rules;
    }
}

/// Storage for the rules of the columns and of the rows of a grid, each
/// followed by their total, with lengths set at run time.
#[derive(Clone, Debug)]
pub struct DynGridStorage {
    /// The rules of the columns.
    pub widths: DynRowStorage,
    /// The rules of the rows.
    pub heights: DynRowStorage,
}

impl DynGridStorage {
    /// Storage that holds no rules yet.
    pub fn new() -> (s: Self)
        ensures
            s.widths.rules().len() == 0,
            s.heights.rules().len() == 0,
    {
        DynGridStorage { widths: DynRowStorage::new(), heights: DynRowStorage::new() }
    }
}

impl Default for DynGridStorage {
    fn default() -> (s: Self)
        ensures
            s.widths.rules().len() == 0,
            s.heights.rules().len() == 0,
    {
        DynGridStorage::new()
    }
}

/// Storage for the rules of the columns and of the rows of a grid, of
/// lengths fixed at compile time: `C` is the number of columns and one more,
/// `R` the number of rows and one more.
#[derive(Clone, Copy, Debug)]
pub struct FixedGridStorage<const C: usize, const R: usize> {
    /// The rules of the columns.
    pub widths: FixedRowStorage<C>,
    /// The rules of the rows.
    pub heights: FixedRowStorage<R>,
}

impl<const C: usize, const R: usize> FixedGridStorage<C, R> {
    /// Storage that holds empty rules.
    pub fn new() -> (s: Self)
        ensures
            s.widths.rules() == resized(Seq::empty(), C as int),
            s.heights.rules() == resized(Seq::empty(), R as int),
    {
        FixedGridStorage { widths: FixedRowStorage::new(), heights: FixedRowStorage::new() }
    }
}

impl<const C: usize, const R: usize> Default for FixedGridStorage<C, R> {
    fn default() -> (s: Self)
        ensures
            s.widths.rules() == resized(Seq::empty(), C as int),
            s.heights.rules() == resized(Seq::empty(), R as int),
    {
        FixedGridStorage::new()
    }
}

} // verus!
