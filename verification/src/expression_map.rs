//! The map of a map literal: entries keyed by expressions and kept in the
//! order of their keys.

use vstd::prelude::*;
use crate::ast::{expression_view, Expression, ExpressionView};
use crate::compare::{compare_expressions, Placing};
use crate::order::{
    expression_order, lemma_expression_order_basic, lemma_expression_order_transitive,
};

verus! {

/// A map from expressions to expressions that holds its entries in the order
/// of their keys, whatever the order in which they were inserted.
#[derive(Debug, Eq, PartialEq, Hash, Ord, PartialOrd)]
pub struct ExpressionMap {
    entries: Vec<(Expression, Expression)>,
}

/// The values of a sequence of entries, one by one.
pub open spec fn entry_views(entries: Seq<(Expression, Expression)>) -> Seq<
    (ExpressionView, ExpressionView),
>
    decreases entries,
{
    Seq::new(
        entries.len(),
        |i: int|
            if 0 <= i < entries.len() {
                (expression_view(entries[i].0), expression_view(entries[i].1))
            } else {
                (ExpressionView::Null, ExpressionView::Null)
            },
    )
}

/// The value of a map: the values of its entries, in the order of their keys.
pub closed spec fn map_view(m: ExpressionMap) -> Seq<(ExpressionView, ExpressionView)>
    decreases m,
{
    entry_views(m.entries@)
}

/// Whether the keys of a sequence of entries strictly increase in the order
/// of expressions; no key then occurs twice.
pub open spec fn keys_increase(entries: Seq<(ExpressionView, ExpressionView)>) -> bool {
    forall|i: int, j: int|
        #![trigger entries[i], entries[j]]
        0 <= i < j < entries.len() ==> expression_order(entries[i].0, entries[j].0) < 0
}

/// Whether some entry of the sequence has the given key.
pub open spec fn holds_key(
    entries: Seq<(ExpressionView, ExpressionView)>,
    key: ExpressionView,
) -> bool {
    exists|i: int| 0 <= i < entries.len() && (#[trigger] entries[i]).0 == key
}

/// The place of an entry with the given key, where there is one.
pub open spec fn index_of_key(
    entries: Seq<(ExpressionView, ExpressionView)>,
    key: ExpressionView,
) -> int {
    choose|i: int| 0 <= i < entries.len() && (#[trigger] entries[i]).0 == key
}

/// What a sequence of entries maps: each key that it holds to the value that
/// stands beside it.
pub open spec fn contents(entries: Seq<(ExpressionView, ExpressionView)>) -> Map<
    ExpressionView,
    ExpressionView,
> {
    Map::new(
        |key: ExpressionView| holds_key(entries, key),
        |key: ExpressionView| entries[index_of_key(entries, key)].1,
    )
}

/// In a sequence whose keys increase, each key is found where it stands and
/// maps to the value beside it.
pub proof fn lemma_sorted_lookup(entries: Seq<(ExpressionView, ExpressionView)>, i: int)
    requires
        keys_increase(entries),
        0 <= i < entries.len(),
    ensures
        holds_key(entries, entries[i].0),
        index_of_key(entries, entries[i].0) == i,
        contents(entries).dom().contains(entries[i].0),
        contents(entries)[entries[i].0] == entries[i].1,
{
    let j = index_of_key(entries, entries[i].0);
    assert(0 <= j < entries.len() && entries[j].0 == entries[i].0);
    lemma_expression_order_basic(entries[j].0, entries[i].0);
    lemma_expression_order_basic(entries[i].0, entries[j].0);
    if j < i {
        assert(expression_order(entries[j].0, entries[i].0) < 0);
    } else if i < j {
        assert(expression_order(entries[i].0, entries[j].0) < 0);
    }
}

/// Without its first entry, a sequence whose keys increase maps what it
/// mapped before but for the first key.
pub proof fn lemma_contents_of_tail(entries: Seq<(ExpressionView, ExpressionView)>)
    requires
        keys_increase(entries),
        entries.len() > 0,
    ensures
        keys_increase(entries.drop_first()),
        contents(entries.drop_first()) == contents(entries).remove(entries[0].0),
{
    let tail = entries.drop_first();
    assert forall|i: int, j: int| 0 <= i < j < tail.len() implies expression_order(
        (#[trigger] tail[i]).0,
        (#[trigger] tail[j]).0,
    ) < 0 by {
        assert(tail[i] == entries[i + 1] && tail[j] == entries[j + 1]);
    }
    let left = contents(tail);
    let right = contents(entries).remove(entries[0].0);
    assert forall|key: ExpressionView| left.dom().contains(key) == right.dom().contains(key) by {
        if holds_key(tail, key) {
            let i = index_of_key(tail, key);
            assert(entries[i + 1] == tail[i]);
            lemma_sorted_lookup(entries, i + 1);
            lemma_sorted_lookup(entries, 0);
        }
        if holds_key(entries, key) && key != entries[0].0 {
            let i = index_of_key(entries, key);
            assert(tail[i - 1] == entries[i]);
        }
    }
    assert forall|key: ExpressionView| left.dom().contains(key) implies left[key] == right[key] by {
        let i = index_of_key(tail, key);
        assert(entries[i + 1] == tail[i]);
        lemma_sorted_lookup(tail, i);
        lemma_sorted_lookup(entries, i + 1);
    }
    assert(left =~= right);
}

/// The entries of a map are canonical: two sequences whose keys increase and
/// that map the same keys to the same values are the same sequence, whatever
/// the order in which their entries were inserted.
pub proof fn lemma_entries_are_canonical(
    a: Seq<(ExpressionView, ExpressionView)>,
    b: Seq<(ExpressionView, ExpressionView)>,
)
    requires
        keys_increase(a),
        keys_increase(b),
        contents(a) == contents(b),
    ensures
        a == b,
    decreases a.len(),
{
    if a.len() == 0 {
        if b.len() > 0 {
            lemma_sorted_lookup(b, 0);
            assert(contents(a).dom().contains(b[0].0));
            assert(false);
        }
        assert(a =~= b);
    } else {
        lemma_sorted_lookup(a, 0);
        assert(contents(b).dom().contains(a[0].0));
        let j = index_of_key(b, a[0].0);
        assert(0 <= j < b.len() && b[j].0 == a[0].0);
        lemma_sorted_lookup(b, 0);
        assert(contents(a).dom().contains(b[0].0));
        let i = index_of_key(a, b[0].0);
        assert(0 <= i < a.len() && a[i].0 == b[0].0);
        lemma_expression_order_basic(a[0].0, a[i].0);
        lemma_expression_order_basic(b[0].0, b[j].0);
        if j > 0 {
            assert(expression_order(b[0].0, b[j].0) < 0);
            if i > 0 {
                assert(expression_order(a[0].0, a[i].0) < 0);
            }
            assert(false);
        }
        lemma_sorted_lookup(b, j);
        assert(a[0].1 == b[0].1);
        assert(a[0] == b[0]);
        lemma_contents_of_tail(a);
        lemma_contents_of_tail(b);
        lemma_entries_are_canonical(a.drop_first(), b.drop_first());
        assert(a =~= seq![a[0]] + a.drop_first());
        assert(b =~= seq![b[0]] + b.drop_first());
    }
}

/// Putting a new key where it belongs keeps the keys increasing and adds the
/// key with its value to what is mapped.
pub proof fn lemma_insert_new_key(
    entries: Seq<(ExpressionView, ExpressionView)>,
    at: int,
    key: ExpressionView,
    value: ExpressionView,
)
    requires
        keys_increase(entries),
        0 <= at <= entries.len(),
        forall|j: int| 0 <= j < at ==> expression_order((#[trigger] entries[j]).0, key) < 0,
        at < entries.len() ==> expression_order(key, entries[at].0) < 0,
    ensures
        !holds_key(entries, key),
        keys_increase(entries.insert(at, (key, value))),
        contents(entries.insert(at, (key, value))) == contents(entries).insert(key, value),
{
    let after = entries.insert(at, (key, value));
    assert forall|j: int| at <= j < entries.len() implies expression_order(
        key,
        (#[trigger] entries[j]).0,
    ) < 0 by {
        if j > at {
            assert(expression_order(entries[at].0, entries[j].0) < 0);
            lemma_expression_order_transitive(key, entries[at].0, entries[j].0);
        }
    }
    assert forall|j: int| 0 <= j < entries.len() implies (#[trigger] entries[j]).0 != key by {
        lemma_expression_order_basic(entries[j].0, key);
        lemma_expression_order_basic(key, entries[j].0);
    }
    assert forall|i: int, j: int| 0 <= i < j < after.len() implies expression_order(
        (#[trigger] after[i]).0,
        (#[trigger] after[j]).0,
    ) < 0 by {
        if j < at {
            assert(after[i] == entries[i] && after[j] == entries[j]);
        } else if j == at {
            assert(after[i] == entries[i]);
        } else if i < at {
            assert(after[i] == entries[i] && after[j] == entries[j - 1]);
        } else if i == at {
            assert(after[j] == entries[j - 1]);
        } else {
            assert(after[i] == entries[i - 1] && after[j] == entries[j - 1]);
        }
    }
    let left = contents(after);
    let right = contents(entries).insert(key, value);
    assert forall|q: ExpressionView| left.dom().contains(q) == right.dom().contains(q) by {
        if holds_key(after, q) {
            let i = index_of_key(after, q);
            if i < at {
                assert(entries[i] == after[i]);
            } else if i > at {
                assert(entries[i - 1] == after[i]);
            }
        }
        if q == key {
            assert(after[at].0 == q);
        } else if holds_key(entries, q) {
            let i = index_of_key(entries, q);
            if i < at {
                assert(after[i] == entries[i]);
            } else {
                assert(after[i + 1] == entries[i]);
            }
        }
    }
    assert forall|q: ExpressionView| left.dom().contains(q) implies left[q] == right[q] by {
        let i = index_of_key(after, q);
        lemma_sorted_lookup(after, i);
        if i < at {
            assert(entries[i] == after[i]);
            lemma_sorted_lookup(entries, i);
        } else if i > at {
            assert(entries[i - 1] == after[i]);
            lemma_sorted_lookup(entries, i - 1);
        }
    }
    assert(left =~= right);
}

/// Giving a key that is held a new value keeps the keys as they are and maps
/// the key to the new value.
pub proof fn lemma_replace_value(
    entries: Seq<(ExpressionView, ExpressionView)>,
    at: int,
    value: ExpressionView,
)
    requires
        keys_increase(entries),
        0 <= at < entries.len(),
    ensures
        keys_increase(entries.update(at, (entries[at].0, value))),
        contents(entries.update(at, (entries[at].0, value))) == contents(entries).insert(
            entries[at].0,
            value,
        ),
{
    let key = entries[at].0;
    let after = entries.update(at, (key, value));
    assert forall|i: int, j: int| 0 <= i < j < after.len() implies expression_order(
        (#[trigger] after[i]).0,
        (#[trigger] after[j]).0,
    ) < 0 by {
        assert(after[i].0 == entries[i].0 && after[j].0 == entries[j].0);
    }
    let left = contents(after);
    let right = contents(entries).insert(key, value);
    assert forall|q: ExpressionView| left.dom().contains(q) == right.dom().contains(q) by {
        if holds_key(after, q) {
            let i = index_of_key(after, q);
            assert(entries[i].0 == after[i].0);
        }
        if q == key {
            assert(after[at].0 == q);
        } else if holds_key(entries, q) {
            let i = index_of_key(entries, q);
            assert(after[i].0 == entries[i].0);
        }
    }
    assert forall|q: ExpressionView| left.dom().contains(q) implies left[q] == right[q] by {
        assert(holds_key(after, q));
        let i = index_of_key(after, q);
        assert(0 <= i < after.len() && after[i].0 == q);
        lemma_sorted_lookup(after, i);
        lemma_sorted_lookup(entries, at);
        if i != at {
            assert(after[i] == entries[i]);
            lemma_sorted_lookup(entries, i);
        }
    }
    assert(left =~= right);
}

impl ExpressionMap {
    /// Whether the map is as every map built by [`ExpressionMap::new`] and
    /// [`ExpressionMap::insert`] is: its keys strictly increase.
    pub open spec fn wf(&self) -> bool {
        keys_increase(self@)
    }

    /// An empty map.
    pub fn new() -> (empty: Self)
        ensures
            empty@ == Seq::<(ExpressionView, ExpressionView)>::empty(),
            empty.wf(),
    {
        let empty = ExpressionMap { entries: Vec::new() };
        proof {
            assert(empty@ =~= Seq::empty());
        }
        empty
    }

    /// Maps `key` to `value`, and returns the value that `key` was mapped to
    /// before, if any. The entries stay in the order of their keys.
    pub fn insert(&mut self, key: Expression, value: Expression) -> (previous: Option<
        Expression,
    >)
        requires
            old(self).wf(),
        ensures
            final(self).wf(),
            contents(final(self)@) == contents(old(self)@).insert(key@, value@),
            match previous {
                Some(replaced) => contents(old(self)@).dom().contains(key@) && replaced@
                    == contents(old(self)@)[key@],
                None => !contents(old(self)@).dom().contains(key@),
            },
    {
        let ghost before = self@;
        let mut i: usize = 0;
        while i < self.entries.len()
            invariant
                i <= self.entries.len(),
                self.entries@ == old(self).entries@,
                before == self@,
                keys_increase(before),
                forall|j: int| 0 <= j < i ==> expression_order((#[trigger] before[j]).0, key@) < 0,
            decreases self.entries.len() - i,
        {
            let placing = compare_expressions(&self.entries[i].0, &key);
            assert(before[i as int].0 == self.entries@[i as int].0@);
            match placing {
                Placing::Before => {
                    i += 1;
                },
                Placing::Same => {
                    let (kept, replaced) = self.entries.remove(i);
                    let ghost removed = self.entries@;
                    let ghost value_view = value@;
                    self.entries.insert(i, (kept, value));
                    proof {
                        lemma_expression_order_basic(before[i as int].0, key@);
                        lemma_sorted_lookup(before, i as int);
                        lemma_replace_value(before, i as int, value_view);
                        assert(self@ =~= before.update(i as int, (before[i as int].0, value_view)));
                    }
                    return Some(replaced);
                },
                Placing::After => {
                    let ghost key_view = key@;
                    let ghost value_view = value@;
                    self.entries.insert(i, (key, value));
                    proof {
                        lemma_expression_order_basic(before[i as int].0, key_view);
                        lemma_insert_new_key(before, i as int, key_view, value_view);
                        assert(self@ =~= before.insert(i as int, (key_view, value_view)));
                    }
                    return None;
                },
            }
        }
        let ghost key_view = key@;
        let ghost value_view = value@;
        self.entries.insert(i, (key, value));
        proof {
            lemma_insert_new_key(before, i as int, key_view, value_view);
            assert(self@ =~= before.insert(i as int, (key_view, value_view)));
        }
        None
    }

    /// The value that `key` is mapped to, if any.
    pub fn get(&self, key: &Expression) -> (found: Option<&Expression>)
        requires
            self.wf(),
        ensures
            match found {
                Some(value) => contents(self@).dom().contains(key@) && value@ == contents(
                    self@,
                )[key@],
                None => !contents(self@).dom().contains(key@),
            },
    {
        let ghost views = self@;
        let mut i: usize = 0;
        while i < self.entries.len()
            invariant
                i <= self.entries.len(),
                views == self@,
                keys_increase(views),
                forall|j: int| 0 <= j < i ==> expression_order((#[trigger] views[j]).0, key@) < 0,
            decreases self.entries.len() - i,
        {
            let placing = compare_expressions(&self.entries[i].0, key);
            assert(views[i as int].0 == self.entries@[i as int].0@);
            proof {
                lemma_expression_order_basic(views[i as int].0, key@);
            }
            match placing {
                Placing::Before => {
                    i += 1;
                },
                Placing::Same => {
                    proof {
                        lemma_sorted_lookup(views, i as int);
                    }
                    return Some(&self.entries[i].1);
                },
                Placing::After => {
                    proof {
                        lemma_insert_new_key(views, i as int, key@, key@);
                    }
                    return None;
                },
            }
        }
        proof {
            lemma_insert_new_key(views, i as int, key@, key@);
        }
        None
    }

    /// Whether the map has no entry.
    pub fn is_empty(&self) -> (empty: bool)
        ensures
            empty == (self@.len() == 0),
    {
        self.entries.len() == 0
    }

    /// The number of entries.
    pub fn len(&self) -> (count: usize)
        ensures
            count == self@.len(),
    {
        self.entries.len()
    }

    /// The entry at `index` in the order of the keys: its key and its value.
    pub fn entry(&self, index: usize) -> (pair: (&Expression, &Expression))
        requires
            index < self@.len(),
        ensures
            pair.0@ == self@[index as int].0,
            pair.1@ == self@[index as int].1,
            decreases_to!(self => pair.0),
            decreases_to!(self => pair.1),
    {
        let pair = &self.entries[index];
        (&pair.0, &pair.1)
    }
}

impl Clone for ExpressionMap {
    /// A copy of this map, equal to it in value.
    fn clone(&self) -> (copy: Self)
        ensures
            copy@ == self@,
        decreases self,
    {
        let mut entries: Vec<(Expression, Expression)> = Vec::new();
        let mut i: usize = 0;
        while i < self.entries.len()
            invariant
                i <= self.entries.len(),
                entries.len() == i,
                forall|j: int|
                    0 <= j < i ==> (#[trigger] entries@[j]).0@ == self.entries@[j].0@
                        && entries@[j].1@ == self.entries@[j].1@,
            decreases self.entries.len() - i,
        {
            let pair = &self.entries[i];
            entries.push((pair.0.clone(), pair.1.clone()));
            i += 1;
        }
        let copy = ExpressionMap { entries };
        proof {
            assert(copy@ =~= self@);
        }
        copy
    }
}

impl View for ExpressionMap {
    type V = Seq<(ExpressionView, ExpressionView)>;

    open spec fn view(&self) -> Seq<(ExpressionView, ExpressionView)> {
        map_view(*self)
    }
}

} // verus!
