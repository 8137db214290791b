//! A small stock ledger: named items with quantities.

use vstd::prelude::*;
use crate::text;

verus! {

/// How many of the named item the ledger holds; zero when absent.
pub open spec fn qty_of(items: Seq<(String, u32)>, name: Seq<char>) -> nat
    decreases items.len(),
{
    if items.len() == 0 {
        0
    } else if items.last().0@ == name {
        items.last().1 as nat
    } else {
        qty_of(items.drop_last(), name)
    }
}

/// The total quantity across all items.
pub open spec fn total_of(items: Seq<(String, u32)>) -> nat
    decreases items.len(),
{
    if items.len() == 0 {
        0
    } else {
        total_of(items.drop_last()) + items.last().1 as nat
    }
}

/// A named-item inventory.  At most one entry per item name, and the grand
/// total always fits a `u32`.
pub struct Inventory {
    items: Vec<(String, u32)>,
}

impl View for Inventory {
    type V = Seq<(String, u32)>;

    closed spec fn view(&self) -> Seq<(String, u32)> {
        self.items@
    }
}

impl Inventory {
    /// One entry per name, and the total fits the counter.
    pub open spec fn wf(&self) -> bool {
        (forall|i: int, j: int|
            0 <= i < j < self@.len() ==> (#[trigger] self@[i]).0@ != (#[trigger] self@[j]).0@)
            && total_of(self@) <= u32::MAX
    }

    /// An empty inventory.
    pub fn new() -> (r: Inventory)
        ensures
            r.wf(),
            r@.len() == 0,
    {
        Inventory { items: Vec::new() }
    }

    /// Adds stock: the item's quantity grows by `quantity`, every other
    /// item is untouched.
    pub fn add_item(&mut self, name: String, quantity: u32)
        requires
            old(self).wf(),
            total_of(old(self)@) + quantity <= u32::MAX,
        ensures
            final(self).wf(),
            qty_of(final(self)@, name@) == qty_of(old(self)@, name@) + quantity,
            total_of(final(self)@) == total_of(old(self)@) + quantity,
            forall|other: Seq<char>|
                other != name@ ==> qty_of(final(self)@, other) == qty_of(old(self)@, other),
    {
        let ghost items_old = self@;
        proof {
            lemma_qty_le_total(items_old, name@);
        }
        match find_item(&self.items, name.as_str()) {
            Some(j) => {
                let current = self.items[j].1;
                let key = self.items[j].0.clone();
                proof {
                    lemma_qty_at(items_old, j as int);
                }
                self.items.set(j, (key, current + quantity));
                proof {
                    lemma_update_qty(items_old, self@, j as int, quantity);
                }
            },
            None => {
                proof {
                    lemma_qty_absent(items_old, name@);
                }
                self.items.push((name, quantity));
                proof {
                    lemma_push_qty(items_old, self@);
                }
            },
        }
    }

    /// Removes stock.  Fails, changing nothing, when the item's quantity is
    /// below the requested amount.
    pub fn remove_item(&mut self, name: &str, quantity: u32) -> (r: Result<(), &'static str>)
        requires
            old(self).wf(),
        ensures
            final(self).wf(),
            match r {
                Ok(()) => qty_of(old(self)@, name@) >= quantity && qty_of(final(self)@, name@)
                    == qty_of(old(self)@, name@) - quantity && total_of(final(self)@) == total_of(
                    old(self)@,
                ) - quantity && forall|other: Seq<char>|
                    other != name@ ==> qty_of(final(self)@, other) == qty_of(old(self)@, other),
                Err(m) => qty_of(old(self)@, name@) < quantity && final(self)@ == old(self)@ && m@
                    == "not enough stock"@,
            },
    {
        let ghost items_old = self@;
        match find_item(&self.items, name) {
            Some(j) => {
                let current = self.items[j].1;
                proof {
                    lemma_qty_at(items_old, j as int);
                }
                if current < quantity {
                    return Err("not enough stock");
                }
                let key = self.items[j].0.clone();
                self.items.set(j, (key, current - quantity));
                proof {
                    lemma_update_qty_sub(items_old, self@, j as int, quantity);
                }
                Ok(())
            },
            None => {
                proof {
                    lemma_qty_absent(items_old, name@);
                }
                if quantity == 0 {
                    return Ok(());
                }
                Err("not enough stock")
            },
        }
    }

    /// The item's current quantity; zero when the item is unknown.
    pub fn get_quantity(&self, name: &str) -> (r: u32)
        requires
            self.wf(),
        ensures
            r == qty_of(self@, name@),
    {
        match find_item(&self.items, name) {
            Some(j) => {
                proof {
                    lemma_qty_at(self@, j as int);
                }
                self.items[j].1
            },
            None => {
                proof {
                    lemma_qty_absent(self@, name@);
                }
                0
            },
        }
    }

    /// The total stock across all items.
    pub fn total_items(&self) -> (r: u32)
        requires
            self.wf(),
        ensures
            r == total_of(self@),
    {
        let n = self.items.len();
        let mut total: u32 = 0;
        let mut i: usize = 0;
        proof {
            assert(self@.subrange(0, 0) =~= Seq::<(String, u32)>::empty());
        }
        while i < n
            invariant
                0 <= i <= n,
                n == self@.len(),
                self.wf(),
                self@.len() == self.items@.len(),
                self@ == self.items@,
                total == total_of(self@.subrange(0, i as int)),
                total <= u32::MAX,
            decreases n - i,
        {
            let ghost prefix = self@.subrange(0, i as int);
            let ghost next = self@.subrange(0, i + 1);
            proof {
                assert(next.drop_last() =~= prefix);
                assert(next.last() == self@[i as int]);
                lemma_total_prefix_le(self@, i + 1);
            }
            total = total + self.items[i].1;
            i += 1;
        }
        proof {
            assert(self@.subrange(0, n as int) =~= self@);
        }
        total
    }
}

/// Finds the entry for the name, if one exists.
fn find_item(items: &Vec<(String, u32)>, name: &str) -> (r: Option<usize>)
    ensures
        match r {
            Some(j) => 0 <= j < items@.len() && (items@[j as int]).0@ == name@,
            None => forall|a: int| 0 <= a < items@.len() ==> (#[trigger] items@[a]).0@ != name@,
        },
{
    let m = items.len();
    let mut j: usize = 0;
    while j < m
        invariant
            0 <= j <= m,
            m == items@.len(),
            forall|a: int| 0 <= a < j ==> (#[trigger] items@[a]).0@ != name@,
        decreases m - j,
    {
        if text::str_eq(items[j].0.as_str(), name) {
            return Some(j);
        }
        j += 1;
    }
    None
}

/// With unique names, the entry at `j` decides its name's quantity.
proof fn lemma_qty_at(items: Seq<(String, u32)>, j: int)
    requires
        0 <= j < items.len(),
        forall|a: int, b: int|
            0 <= a < b < items.len() ==> (#[trigger] items[a]).0@ != (#[trigger] items[b]).0@,
    ensures
        qty_of(items, items[j].0@) == items[j].1,
    decreases items.len(),
{
    if j == items.len() - 1 {
    } else {
        let head = items.drop_last();
        assert(items.last().0@ != items[j].0@);
        lemma_qty_at(head, j);
    }
}

/// A name no entry holds has quantity zero.
proof fn lemma_qty_absent(items: Seq<(String, u32)>, name: Seq<char>)
    requires
        forall|a: int| 0 <= a < items.len() ==> (#[trigger] items[a]).0@ != name,
    ensures
        qty_of(items, name) == 0,
    decreases items.len(),
{
    if items.len() > 0 {
        let head = items.drop_last();
        assert(forall|a: int| 0 <= a < head.len() ==> #[trigger] head[a] == items[a]);
        lemma_qty_absent(head, name);
    }
}

/// A quantity never exceeds the total.
proof fn lemma_qty_le_total(items: Seq<(String, u32)>, name: Seq<char>)
    ensures
        qty_of(items, name) <= total_of(items),
    decreases items.len(),
{
    if items.len() > 0 {
        lemma_qty_le_total(items.drop_last(), name);
    }
}

/// A prefix's total never exceeds the whole total.
proof fn lemma_total_prefix_le(items: Seq<(String, u32)>, k: int)
    requires
        0 <= k <= items.len(),
    ensures
        total_of(items.subrange(0, k)) <= total_of(items),
    decreases items.len() - k,
{
    if k == items.len() {
        assert(items.subrange(0, k) =~= items);
    } else {
        let next = items.subrange(0, k + 1);
        assert(next.drop_last() =~= items.subrange(0, k));
        lemma_total_prefix_le(items, k + 1);
    }
}

/// Raising one entry's count raises its name's quantity and the total by
/// the same amount, leaving other names alone.
proof fn lemma_update_qty(
    before: Seq<(String, u32)>,
    after: Seq<(String, u32)>,
    j: int,
    quantity: u32,
)
    requires
        0 <= j < before.len(),
        after.len() == before.len(),
        forall|a: int, b: int|
            0 <= a < b < before.len() ==> (#[trigger] before[a]).0@ != (#[trigger] before[b]).0@,
        forall|a: int| 0 <= a < before.len() && a != j ==> #[trigger] after[a] == before[a],
        after[j].0@ == before[j].0@,
        after[j].1 == before[j].1 + quantity,
    ensures
        qty_of(after, before[j].0@) == qty_of(before, before[j].0@) + quantity,
        total_of(after) == total_of(before) + quantity,
        forall|other: Seq<char>|
            other != before[j].0@ ==> qty_of(after, other) == qty_of(before, other),
        forall|a: int, b: int|
            0 <= a < b < after.len() ==> (#[trigger] after[a]).0@ != (#[trigger] after[b]).0@,
    decreases before.len(),
{
    let bh = before.drop_last();
    let ah = after.drop_last();
    if j == before.len() - 1 {
        assert(forall|a: int| 0 <= a < bh.len() ==> #[trigger] ah[a] == bh[a]);
        assert(ah =~= bh);
        assert forall|other: Seq<char>|
            other != before[j].0@ implies qty_of(after, other) == qty_of(before, other) by {
            assert(qty_of(after, other) == qty_of(ah, other));
            assert(qty_of(before, other) == qty_of(bh, other));
        }
    } else {
        assert(after.last() == before.last());
        assert(forall|a: int, b: int|
            0 <= a < b < bh.len() ==> (#[trigger] bh[a]).0@ != (#[trigger] bh[b]).0@);
        assert(forall|a: int| 0 <= a < bh.len() && a != j ==> #[trigger] ah[a] == bh[a]);
        assert(ah[j].0@ == bh[j].0@ && ah[j].1 == bh[j].1 + quantity);
        lemma_update_qty(bh, ah, j, quantity);
        assert(before.last().0@ != before[j].0@);
        assert forall|other: Seq<char>|
            other != before[j].0@ implies qty_of(after, other) == qty_of(before, other) by {
            if after.last().0@ == other {
            } else {
                assert(qty_of(after, other) == qty_of(ah, other));
                assert(qty_of(before, other) == qty_of(bh, other));
            }
        }
    }
    assert forall|a: int, b: int|
        0 <= a < b < after.len() implies (#[trigger] after[a]).0@ != (#[trigger] after[b]).0@ by {
        if a != j && b != j {
            assert(after[a] == before[a] && after[b] == before[b]);
            assert(before[a].0@ != before[b].0@);
        } else if a == j {
            assert(after[b] == before[b]);
            assert(before[j].0@ != before[b].0@);
        } else {
            assert(after[a] == before[a]);
            assert(before[a].0@ != before[j].0@);
        }
    }
}

/// Lowering one entry's count mirrors `lemma_update_qty`.
proof fn lemma_update_qty_sub(
    before: Seq<(String, u32)>,
    after: Seq<(String, u32)>,
    j: int,
    quantity: u32,
)
    requires
        0 <= j < before.len(),
        after.len() == before.len(),
        quantity <= before[j].1,
        forall|a: int, b: int|
            0 <= a < b < before.len() ==> (#[trigger] before[a]).0@ != (#[trigger] before[b]).0@,
        forall|a: int| 0 <= a < before.len() && a != j ==> #[trigger] after[a] == before[a],
        after[j].0@ == before[j].0@,
        after[j].1 == before[j].1 - quantity,
    ensures
        qty_of(after, before[j].0@) == qty_of(before, before[j].0@) - quantity,
        total_of(after) == total_of(before) - quantity,
        forall|other: Seq<char>|
            other != before[j].0@ ==> qty_of(after, other) == qty_of(before, other),
        forall|a: int, b: int|
            0 <= a < b < after.len() ==> (#[trigger] after[a]).0@ != (#[trigger] after[b]).0@,
    decreases before.len(),
{
    let bh = before.drop_last();
    let ah = after.drop_last();
    if j == before.len() - 1 {
        assert(forall|a: int| 0 <= a < bh.len() ==> #[trigger] ah[a] == bh[a]);
        assert(ah =~= bh);
        assert forall|other: Seq<char>|
            other != before[j].0@ implies qty_of(after, other) == qty_of(before, other) by {
            assert(qty_of(after, other) == qty_of(ah, other));
            assert(qty_of(before, other) == qty_of(bh, other));
        }
    } else {
        assert(after.last() == before.last());
        assert(forall|a: int, b: int|
            0 <= a < b < bh.len() ==> (#[trigger] bh[a]).0@ != (#[trigger] bh[b]).0@);
        assert(forall|a: int| 0 <= a < bh.len() && a != j ==> #[trigger] ah[a] == bh[a]);
        assert(ah[j].0@ == bh[j].0@ && ah[j].1 == bh[j].1 - quantity);
        lemma_update_qty_sub(bh, ah, j, quantity);
        assert(before.last().0@ != before[j].0@);
        assert forall|other: Seq<char>|
            other != before[j].0@ implies qty_of(after, other) == qty_of(before, other) by {
            if after.last().0@ == other {
            } else {
                assert(qty_of(after, other) == qty_of(ah, other));
                assert(qty_of(before, other) == qty_of(bh, other));
            }
        }
    }
    assert forall|a: int, b: int|
        0 <= a < b < after.len() implies (#[trigger] after[a]).0@ != (#[trigger] after[b]).0@ by {
        if a != j && b != j {
            assert(after[a] == before[a] && after[b] == before[b]);
            assert(before[a].0@ != before[b].0@);
        } else if a == j {
            assert(after[b] == before[b]);
            assert(before[j].0@ != before[b].0@);
        } else {
            assert(after[a] == before[a]);
            assert(before[a].0@ != before[j].0@);
        }
    }
}

/// Appending a fresh entry adds its quantity and touches no other name.
proof fn lemma_push_qty(before: Seq<(String, u32)>, after: Seq<(String, u32)>)
    requires
        after.len() == before.len() + 1,
        forall|a: int| 0 <= a < before.len() ==> #[trigger] after[a] == before[a],
        forall|a: int| 0 <= a < before.len() ==> (#[trigger] before[a]).0@ != after.last().0@,
    ensures
        qty_of(after, after.last().0@) == qty_of(before, after.last().0@) + after.last().1,
        total_of(after) == total_of(before) + after.last().1,
        forall|other: Seq<char>|
            other != after.last().0@ ==> qty_of(after, other) == qty_of(before, other),
{
    assert(after.drop_last() =~= before);
    lemma_qty_absent(before, after.last().0@);
}

} // verus!
