use crate::text::{decimal, push_decimal};
use vstd::prelude::*;
use vstd::string::StringExecFns;

verus! {

/// A window of `size` bytes starting at `offset`: the positions `offset .. offset + size`.
#[derive(Debug, Clone, Copy)]
pub struct Cursor {
    pub offset: usize,
    pub size: usize,
}

/// The larger of two integers.
pub open spec fn max_int(a: int, b: int) -> int {
    if a >= b { a } else { b }
}

/// The smaller of two integers.
pub open spec fn min_int(a: int, b: int) -> int {
    if a <= b { a } else { b }
}

impl Cursor {
    /// One past the last position of the window.
    pub open spec fn spec_end(self) -> int {
        self.offset + self.size
    }

    /// The end of the window can be computed without overflow.
    pub open spec fn no_overflow(self) -> bool {
        self.spec_end() <= usize::MAX
    }

    /// Position `x` lies inside the window.
    pub open spec fn contains(self, x: int) -> bool {
        self.offset <= x < self.spec_end()
    }

    /// The window moved forward by `by` positions, keeping its size.
    pub open spec fn shifted(self, by: int) -> Cursor {
        Cursor { offset: (self.offset + by) as usize, size: self.size }
    }

    /// `other`, read relative to this window, as an absolute window, if it fits inside.
    pub open spec fn spec_subrange(self, other: Cursor) -> Option<Cursor> {
        if other.spec_end() > self.size {
            None
        } else {
            Some(other.shifted(self.offset as int))
        }
    }

    /// This window lies inside `other`.
    pub open spec fn spec_is_subset(self, other: Cursor) -> bool {
        self.offset >= other.offset && self.spec_end() <= other.spec_end()
    }

    /// The positions that both windows hold, if there are any.
    pub open spec fn spec_shared(self, other: Cursor) -> Option<Cursor> {
        let start = max_int(self.offset as int, other.offset as int);
        let end = min_int(self.spec_end(), other.spec_end());
        if start < end {
            Some(Cursor { offset: start as usize, size: (end - start) as usize })
        } else {
            None
        }
    }

    /// The smallest window that holds both, where they overlap or touch.
    pub open spec fn spec_join(self, other: Cursor) -> Option<Cursor> {
        if self.spec_end() < other.offset || other.spec_end() < self.offset {
            None
        } else {
            let start = min_int(self.offset as int, other.offset as int);
            let end = max_int(self.spec_end(), other.spec_end());
            Some(Cursor { offset: start as usize, size: (end - start) as usize })
        }
    }

    /// The window moved forward by `rhs` positions.
    pub fn add(self, rhs: usize) -> (c: Self)
        requires
            self.offset + rhs <= usize::MAX,
        ensures
            c == self.shifted(rhs as int),
    {
        Cursor { offset: self.offset + rhs, size: self.size }
    }

    /// The text that `{:?}` shows of a cursor.
    pub open spec fn debug_text(self) -> Seq<char> {
        "Cursor { offset: "@ + decimal(self.offset as nat) + ", size: "@ + decimal(
            self.size as nat,
        ) + " }"@
    }

    /// The text that `{:?}` shows of the cursor.
    pub fn debug_string(&self) -> (s: String)
        ensures
            s@ == self.debug_text(),
    {
        let mut s = String::new();
        s.append("Cursor { offset: ");
        push_decimal(&mut s, self.offset);
        s.append(", size: ");
        push_decimal(&mut s, self.size);
        s.append(" }");
        s
    }

    pub fn new(offset: usize, size: usize) -> (c: Self)
        ensures
            c.offset == offset,
            c.size == size,
    {
        Cursor { offset, size }
    }

    pub fn fromstart(size: usize) -> (c: Self)
        ensures
            c.offset == 0,
            c.size == size,
    {
        Cursor { offset: 0, size }
    }

    pub fn end(self) -> (e: usize)
        requires
            self.no_overflow(),
        ensures
            e == self.spec_end(),
    {
        self.offset + self.size
    }

    /// Relative subrange: `other` is a cursor relative to this one.
    pub fn subrange(self, other: Cursor) -> (r: Option<Self>)
        requires
            other.no_overflow(),
            other.spec_end() <= self.size ==> self.offset + other.offset <= usize::MAX,
        ensures
            r == self.spec_subrange(other),
    {
        if other.end() > self.size {
            None
        } else {
            Some(other.add(self.offset))
        }
    }

    pub fn is_subset(self, other: Self) -> (r: bool)
        requires
            self.offset >= other.offset ==> self.no_overflow() && other.no_overflow(),
        ensures
            r == self.spec_is_subset(other),
    {
        self.offset >= other.offset && self.end() <= other.end()
    }

    pub fn is_superset(self, other: Self) -> (r: bool)
        requires
            other.offset >= self.offset ==> self.no_overflow() && other.no_overflow(),
        ensures
            r == other.spec_is_subset(self),
    {
        other.is_subset(self)
    }

    pub fn shared(self, other: Self) -> (r: Option<Self>)
        requires
            self.no_overflow(),
            other.no_overflow(),
        ensures
            r == self.spec_shared(other),
    {
        let start = self.offset.max(other.offset);
        let end = self.end().min(other.end());
        if start < end {
            Some(Cursor { offset: start, size: end - start })
        } else {
            None
        }
    }

    pub fn join(self, other: Self) -> (r: Option<Self>)
        requires
            self.no_overflow(),
            self.spec_end() >= other.offset ==> other.no_overflow(),
        ensures
            r == self.spec_join(other),
    {
        if self.end() < other.offset || other.end() < self.offset {
            None
        } else {
            let start = self.offset.min(other.offset);
            let end = self.end().max(other.end());
            Some(Cursor { offset: start, size: end - start })
        }
    }
}

impl core::ops::Add<usize> for Cursor {
    type Output = Self;

    fn add(self, rhs: usize) -> (c: Self) {
        Cursor { offset: self.offset + rhs, size: self.size }
    }
}

impl vstd::std_specs::ops::AddSpecImpl<usize> for Cursor {
    open spec fn obeys_add_spec() -> bool {
        true
    }

    open spec fn add_req(self, rhs: usize) -> bool {
        self.offset + rhs <= usize::MAX
    }

    open spec fn add_spec(self, rhs: usize) -> Cursor {
        self.shifted(rhs as int)
    }
}

/// The window that two windows share holds exactly the positions that lie in both;
/// where they share none, no position lies in both.
pub proof fn lemma_shared_is_intersection(a: Cursor, b: Cursor, x: int)
    requires
        a.no_overflow(),
        b.no_overflow(),
    ensures
        match a.spec_shared(b) {
            Some(c) => c.no_overflow() && (c.contains(x) <==> a.contains(x) && b.contains(x)),
            None => !(a.contains(x) && b.contains(x)),
        },
{
}

/// Sharing does not depend on the order of the two windows.
pub proof fn lemma_shared_commutes(a: Cursor, b: Cursor)
    ensures
        a.spec_shared(b) == b.spec_shared(a),
{
}

/// What two windows share lies inside each of them.
pub proof fn lemma_shared_within_both(a: Cursor, b: Cursor)
    requires
        a.no_overflow(),
        b.no_overflow(),
    ensures
        a.spec_shared(b) matches Some(c) ==> c.spec_is_subset(a) && c.spec_is_subset(b),
{
}

/// Where two windows overlap or touch, their join holds exactly the positions of either;
/// they fail to join exactly when a gap lies between them.
pub proof fn lemma_join_is_union(a: Cursor, b: Cursor, x: int)
    requires
        a.no_overflow(),
        b.no_overflow(),
    ensures
        a.spec_join(b) is None <==> (a.spec_end() < b.offset || b.spec_end() < a.offset),
        a.spec_join(b) matches Some(c) ==> c.no_overflow() && (c.contains(x) <==> a.contains(x)
            || b.contains(x)),
{
}

/// Joining does not depend on the order of the two windows.
pub proof fn lemma_join_commutes(a: Cursor, b: Cursor)
    ensures
        a.spec_join(b) == b.spec_join(a),
{
}

/// A join holds both windows it was made from.
pub proof fn lemma_join_covers_both(a: Cursor, b: Cursor)
    requires
        a.no_overflow(),
        b.no_overflow(),
    ensures
        a.spec_join(b) matches Some(c) ==> a.spec_is_subset(c) && b.spec_is_subset(c),
{
}

/// Windows that share positions can always be joined.
pub proof fn lemma_shared_implies_joinable(a: Cursor, b: Cursor)
    requires
        a.no_overflow(),
        b.no_overflow(),
    ensures
        a.spec_shared(b) is Some ==> a.spec_join(b) is Some,
{
}

/// A relative subrange, made absolute, keeps its size and lies inside the parent window.
pub proof fn lemma_subrange_within_parent(parent: Cursor, rel: Cursor)
    requires
        parent.no_overflow(),
        rel.no_overflow(),
    ensures
        parent.spec_subrange(rel) matches Some(c) ==> c.size == rel.size && c.offset == parent.offset
            + rel.offset && c.spec_is_subset(parent),
{
}

/// A relative subrange exists exactly when the relative window, made absolute, lies inside the
/// parent window, whether or not it ends at the parent's end.
pub proof fn lemma_subrange_exactly_when_inside(parent: Cursor, rel: Cursor)
    requires
        parent.no_overflow(),
        rel.no_overflow(),
        parent.offset + rel.spec_end() <= usize::MAX,
    ensures
        parent.spec_subrange(rel) is Some <==> rel.shifted(parent.offset as int).spec_is_subset(
            parent,
        ),
{
}

/// A window holds exactly `size` positions, starting at `offset` and ending, exclusively, at its
/// end.
pub proof fn lemma_window_positions(c: Cursor, x: int)
    ensures
        c.spec_end() - c.offset == c.size,
        c.contains(x) <==> c.offset <= x && x - c.offset < c.size,
{
}

/// A window with positions is a subset of another exactly when each of its positions lies in
/// the other.
pub proof fn lemma_subset_by_positions(a: Cursor, b: Cursor)
    requires
        a.size > 0,
    ensures
        a.spec_is_subset(b) <==> forall|x: int| #[trigger] a.contains(x) ==> b.contains(x),
{
    if !a.spec_is_subset(b) {
        if a.offset < b.offset {
            assert(a.contains(a.offset as int));
        } else {
            assert(a.contains(a.spec_end() - 1));
        }
    }
}

/// Every window is a subset of itself, and two windows that are subsets of each other are equal.
pub proof fn lemma_subset_order(a: Cursor, b: Cursor)
    ensures
        a.spec_is_subset(a),
        a.spec_is_subset(b) && b.spec_is_subset(a) ==> a == b,
{
}

} // verus!
