//! The narrow-band priority queue.
//!
//! Entries are ordered by (priority ascending, row ascending, column
//! ascending), the priority being an encoded binary32 distance.  Two
//! priorities that encode equal values (or that do not compare, as
//! with a NaN) tie, and the row and column decide.  Popping always
//! removes the earliest entry that no other entry precedes, so the
//! visitation order is a function of the queue contents alone.

use vstd::prelude::*;
use crate::fbits::{f32_lt, f32_is_nan};
use crate::fbits::float_lt;

verus! {

/// An entry of the narrow-band queue: a priority (an encoded binary32
/// distance) and the coordinate it belongs to.
#[derive(Clone, Copy, Debug, PartialEq, Eq, Structural)]
pub struct QueueItem {
    pub priority: u32,
    pub y: usize,
    pub x: usize,
}

impl QueueItem {
    /// Build an entry from its cost and coordinate.
    pub fn new(cost: u32, y: usize, x: usize) -> (r: Self)
        ensures
            r == (QueueItem { priority: cost, y, x }),
    {
        QueueItem { priority: cost, y, x }
    }
}

/// The strict queue order: by encoded distance first; when the two
/// distances encode equal values or do not compare, by row, then by
/// column.
pub open spec fn item_lt(a: QueueItem, b: QueueItem) -> bool {
    ||| f32_lt(a.priority, b.priority)
    ||| (!f32_lt(a.priority, b.priority) && !f32_lt(b.priority, a.priority)
        && (a.y < b.y || (a.y == b.y && a.x < b.x)))
}

/// The strict queue order, executable.
pub fn item_less(a: &QueueItem, b: &QueueItem) -> (r: bool)
    ensures
        r == item_lt(*a, *b),
{
    if float_lt(a.priority, b.priority) {
        true
    } else if float_lt(b.priority, a.priority) {
        false
    } else {
        a.y < b.y || (a.y == b.y && a.x < b.x)
    }
}

/// The index the popping scan settles on over the first n entries:
/// the earliest entry that no later of those entries strictly precedes.
pub open spec fn scan_best(s: Seq<QueueItem>, n: int) -> int
    decreases n,
{
    if n <= 1 {
        0
    } else {
        let b = scan_best(s, n - 1);
        if item_lt(s[n - 1], s[b]) {
            n - 1
        } else {
            b
        }
    }
}

/// The scan result lies in range; when no scanned priority is a NaN,
/// no scanned entry strictly precedes it.
pub proof fn lemma_scan_best_min(s: Seq<QueueItem>, n: int)
    requires
        1 <= n <= s.len(),
    ensures
        0 <= scan_best(s, n) < n,
        (forall|k: int| 0 <= k < n ==> !f32_is_nan(#[trigger] s[k].priority))
            ==> (forall|k: int| 0 <= k < n ==> !item_lt(#[trigger] s[k], s[scan_best(s, n)])),
    decreases n,
{
    if n > 1 {
        lemma_scan_best_min(s, n - 1);
        let b = scan_best(s, n - 1);
        if (forall|k: int| 0 <= k < n ==> !f32_is_nan(#[trigger] s[k].priority))
            && item_lt(s[n - 1], s[b]) {
            assert forall|k: int| 0 <= k < n implies !item_lt(#[trigger] s[k], s[scan_best(s, n)]) by {
                if k < n - 1 {
                    // a strictly earlier entry would also precede the old best
                    if item_lt(s[k], s[n - 1]) {
                        lemma_item_lt_trans(s[k], s[n - 1], s[b]);
                    }
                }
            }
        }
    }
}

/// On entries whose priorities are not NaN the strict queue order is
/// transitive.
pub proof fn lemma_item_lt_trans(a: QueueItem, b: QueueItem, c: QueueItem)
    requires
        item_lt(a, b),
        item_lt(b, c),
        !f32_is_nan(a.priority),
        !f32_is_nan(b.priority),
        !f32_is_nan(c.priority),
    ensures
        item_lt(a, c),
{
}

/// The narrow-band queue.
pub struct NarrowBandQueue {
    pub items: Vec<QueueItem>,
}

impl NarrowBandQueue {
    /// The entries, in insertion order.
    pub open spec fn view(self) -> Seq<QueueItem> {
        self.items@
    }

    /// An empty queue.
    pub fn new() -> (r: Self)
        ensures
            r@ =~= Seq::<QueueItem>::empty(),
    {
        NarrowBandQueue { items: Vec::new() }
    }

    /// Number of entries.
    pub fn len(&self) -> (r: usize)
        ensures
            r == self@.len(),
    {
        self.items.len()
    }

    /// Whether the queue holds no entry.
    pub fn is_empty(&self) -> (r: bool)
        ensures
            r == (self@.len() == 0),
    {
        self.items.len() == 0
    }

    /// Append an entry.
    pub fn push(&mut self, item: QueueItem)
        ensures
            final(self)@ == old(self)@.push(item),
    {
        self.items.push(item);
    }

    /// Remove and return the minimum entry under the queue order:
    /// the entry at the scan index, which no other entry strictly
    /// precedes.
    pub fn pop(&mut self) -> (r: QueueItem)
        requires
            old(self)@.len() > 0,
        ensures
            r == old(self)@[scan_best(old(self)@, old(self)@.len() as int)],
            final(self)@ == old(self)@.remove(scan_best(old(self)@, old(self)@.len() as int)),
            (forall|k: int| 0 <= k < old(self)@.len() ==> !f32_is_nan(#[trigger] old(self)@[k].priority))
                ==> (forall|k: int| 0 <= k < old(self)@.len() ==> !item_lt(#[trigger] old(self)@[k], r)),
    {
        let n: usize = self.items.len();
        let mut best: usize = 0;
        let mut i: usize = 1;
        while i < n
            invariant
                1 <= i <= n,
                n == self.items@.len(),
                best < i,
                best == scan_best(self.items@, i as int),
            decreases n - i,
        {
            if item_less(&self.items[i], &self.items[best]) {
                best = i;
            }
            i = i + 1;
        }
        proof {
            lemma_scan_best_min(self.items@, n as int);
        }
        let r = self.items.remove(best);
        r
    }

    /// An identical copy of the queue.
    pub fn duplicate(&self) -> (r: Self)
        ensures
            r@ == self@,
    {
        let mut items: Vec<QueueItem> = Vec::new();
        let mut i: usize = 0;
        let n: usize = self.items.len();
        while i < n
            invariant
                i <= n,
                n == self.items@.len(),
                items@ =~= self.items@.subrange(0, i as int),
            decreases n - i,
        {
            items.push(self.items[i]);
            i = i + 1;
        }
        proof {
            assert(items@ =~= self.items@);
        }
        NarrowBandQueue { items }
    }
}

} // verus!
