//! Putting rows in order: oldest first for the price check, best discount
//! first for the ranking.
//!
//! The order is made by stable insertion: rows that neither comes before the
//! other keep the order they had.

use vstd::prelude::*;
use crate::model::Model;
use crate::text::lemma_lex_total;

verus! {

/// An order in which rows can be put.
#[derive(Clone, Copy, Debug)]
pub enum Order {
    /// By the time of the last write, earliest first.
    OldestFirst,
    /// By discount, then current price, both largest first, then by title.
    BestDiscount,
}

impl Order {
    /// Whether `a` has to stand before `b`.
    pub open spec fn before(self, a: Model, b: Model) -> bool {
        match self {
            Order::OldestFirst => a.updated_at.micros < b.updated_at.micros,
            Order::BestDiscount => a.outranks(b),
        }
    }

    /// Of two rows, at most one has to stand before the other.
    pub proof fn lemma_one_way(self, a: Model, b: Model)
        ensures
            !(self.before(a, b) && self.before(b, a)),
    {
        lemma_lex_total(a.title@, b.title@);
    }

    /// Executable form of [`Order::before`].
    pub fn comes_before(&self, a: &Model, b: &Model) -> (r: bool)
        ensures
            r == self.before(*a, *b),
    {
        match self {
            Order::OldestFirst => a.updated_at.micros < b.updated_at.micros,
            Order::BestDiscount => a.ranks_above(b),
        }
    }
}

/// `sorted` with `x` put behind the last row that `x` does not have to stand
/// before.
pub open spec fn placed(sorted: Seq<Model>, x: Model, order: Order) -> Seq<Model>
    decreases sorted.len(),
{
    if sorted.len() > 0 && order.before(x, sorted.last()) {
        placed(sorted.drop_last(), x, order).push(sorted.last())
    } else {
        sorted.push(x)
    }
}

/// The rows put in `order`, one after the other from the first.
pub open spec fn arranged(rows: Seq<Model>, order: Order) -> Seq<Model>
    decreases rows.len(),
{
    if rows.len() == 0 {
        rows
    } else {
        placed(arranged(rows.drop_last(), order), rows.last(), order)
    }
}

/// Whether no row of `rows` has to stand before the row in front of it.
pub open spec fn in_order(rows: Seq<Model>, order: Order) -> bool {
    forall|i: int| 0 <= i && i + 1 < rows.len() ==> !order.before(#[trigger] rows[i + 1], rows[i])
}

proof fn lemma_placed(sorted: Seq<Model>, x: Model, order: Order)
    requires
        in_order(sorted, order),
    ensures
        in_order(placed(sorted, x, order), order),
        placed(sorted, x, order).len() == sorted.len() + 1,
        placed(sorted, x, order).last() == (if sorted.len() > 0 && order.before(x, sorted.last()) {
            sorted.last()
        } else {
            x
        }),
        placed(sorted, x, order).to_multiset() == sorted.to_multiset().insert(x),
    decreases sorted.len(),
{
    broadcast use vstd::seq_lib::group_to_multiset_ensures;

    let out = placed(sorted, x, order);
    if sorted.len() > 0 && order.before(x, sorted.last()) {
        let front = sorted.drop_last();
        assert forall|i: int| 0 <= i && i + 1 < front.len() implies !order.before(
            #[trigger] front[i + 1],
            front[i],
        ) by {
            assert(front[i + 1] == sorted[i + 1]);
        }
        lemma_placed(front, x, order);
        let inner = placed(front, x, order);
        assert forall|i: int| 0 <= i && i + 1 < out.len() implies !order.before(
            #[trigger] out[i + 1],
            out[i],
        ) by {
            if i + 1 < inner.len() {
                assert(out[i + 1] == inner[i + 1]);
            } else {
                assert(out[i + 1] == sorted.last());
                assert(out[i] == inner.last());
                order.lemma_one_way(x, sorted.last());
                if front.len() > 0 && order.before(x, front.last()) {
                    assert(sorted[front.len() - 1 + 1] == sorted.last());
                }
            }
        }
        assert(sorted == front.push(sorted.last()));
        assert(out.to_multiset() == sorted.to_multiset().insert(x)) by {
            assert(inner.to_multiset().insert(sorted.last()) =~= front.to_multiset().insert(
                sorted.last(),
            ).insert(x));
        }
    } else {
        assert forall|i: int| 0 <= i && i + 1 < out.len() implies !order.before(
            #[trigger] out[i + 1],
            out[i],
        ) by {
            if i + 1 < sorted.len() {
                assert(out[i + 1] == sorted[i + 1]);
            }
        }
    }
}

/// Rows put in order are in order, and they are the rows that were given:
/// none lost, none added, none twice.
pub proof fn lemma_arranged(rows: Seq<Model>, order: Order)
    ensures
        in_order(arranged(rows, order), order),
        arranged(rows, order).len() == rows.len(),
        arranged(rows, order).to_multiset() == rows.to_multiset(),
    decreases rows.len(),
{
    broadcast use vstd::seq_lib::group_to_multiset_ensures;

    if rows.len() > 0 {
        lemma_arranged(rows.drop_last(), order);
        lemma_placed(arranged(rows.drop_last(), order), rows.last(), order);
        assert(rows == rows.drop_last().push(rows.last()));
    }
}

proof fn lemma_placed_at(sorted: Seq<Model>, x: Model, order: Order, at: int)
    requires
        0 <= at <= sorted.len(),
        forall|j: int| at <= j < sorted.len() ==> order.before(x, #[trigger] sorted[j]),
        at > 0 ==> !order.before(x, sorted[at - 1]),
    ensures
        placed(sorted, x, order) == sorted.insert(at, x),
    decreases sorted.len() - at,
{
    if at < sorted.len() {
        let front = sorted.drop_last();
        assert(order.before(x, sorted[sorted.len() - 1]));
        assert forall|j: int| at <= j < front.len() implies order.before(
            x,
            #[trigger] front[j],
        ) by {
            assert(front[j] == sorted[j]);
        }
        lemma_placed_at(front, x, order, at);
        assert(front.insert(at, x).push(sorted.last()) =~= sorted.insert(at, x));
    } else {
        assert(sorted.push(x) =~= sorted.insert(at, x));
    }
}

/// Copies of `rows`, put in `order`.
pub fn arrange(rows: &Vec<Model>, order: Order) -> (out: Vec<Model>)
    ensures
        out@ == arranged(rows@, order),
{
    let mut out: Vec<Model> = Vec::new();
    let mut i: usize = 0;
    assert(rows@.take(0) == Seq::<Model>::empty());
    while i < rows.len()
        invariant
            i <= rows.len(),
            out@ == arranged(rows@.take(i as int), order),
        decreases rows.len() - i,
    {
        let x = rows[i].clone();
        let mut at: usize = out.len();
        while at > 0 && order.comes_before(&x, &out[at - 1])
            invariant
                at <= out.len(),
                forall|j: int| at <= j < out.len() ==> order.before(x, #[trigger] out@[j]),
            decreases at,
        {
            at -= 1;
        }
        proof {
            lemma_placed_at(out@, x, order, at as int);
            assert(rows@.take(i + 1).drop_last() == rows@.take(i as int));
            assert(rows@.take(i + 1).last() == x);
        }
        out.insert(at, x);
        i += 1;
    }
    assert(rows@.take(rows.len() as int) == rows@);
    out
}

} // verus!
