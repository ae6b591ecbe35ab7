//! What holds of every answer to a query on the catalog.

use vstd::prelude::*;
use crate::catalog::{consistent, ordered, queried, Filter};
use crate::model::{Model, Timestamp};
use crate::reconcile::lemma_filtered;
use crate::sort::{in_order, lemma_arranged, Order};

verus! {

/// A query answers with rows of the catalog that its filter accepts, and
/// with nothing else; without a limit, with all of them; and in the order
/// asked for.
pub proof fn lemma_queried(
    rows: Seq<Model>,
    filter: Filter,
    order: Option<Order>,
    limit: Option<u64>,
)
    ensures
        forall|row: Model| #[trigger]
            queried(rows, filter, order, limit).contains(row) ==> rows.contains(row)
                && filter.accepts(row),
        limit.is_none() ==> forall|row: Model|
            rows.contains(row) && filter.accepts(row) ==> #[trigger] queried(
                rows,
                filter,
                order,
                limit,
            ).contains(row),
        order matches Some(o) ==> in_order(queried(rows, filter, order, limit), o),
        queried(rows, filter, order, limit).len() <= rows.len(),
        limit matches Some(n) ==> queried(rows, filter, order, limit).len() <= n,
{
    broadcast use vstd::seq_lib::group_to_multiset_ensures;

    let picked = rows.filter(filter.pred());
    let sorted = ordered(picked, order);
    let out = queried(rows, filter, order, limit);
    lemma_filtered(rows, filter.pred());
    rows.lemma_filter_len(filter.pred());
    match order {
        Some(o) => {
            lemma_arranged(picked, o);
            assert forall|i: int| 0 <= i && i + 1 < out.len() implies !o.before(
                #[trigger] out[i + 1],
                out[i],
            ) by {
                assert(out[i + 1] == sorted[i + 1] && out[i] == sorted[i]);
            }
        },
        None => {},
    }
    assert forall|row: Model| sorted.contains(row) <==> picked.contains(row) by {
        assert(sorted.to_multiset() == picked.to_multiset());
        assert(sorted.contains(row) <==> sorted.to_multiset().count(row) > 0);
        assert(picked.contains(row) <==> picked.to_multiset().count(row) > 0);
    }
    assert forall|row: Model| #[trigger] out.contains(row) implies rows.contains(row)
        && filter.accepts(row) by {
        let i = choose|i: int| 0 <= i < out.len() && out[i] == row;
        assert(sorted[i] == row);
        assert(sorted.contains(row));
        assert(picked.contains(row));
    }
    if limit.is_none() {
        assert forall|row: Model|
            rows.contains(row) && filter.accepts(row) implies #[trigger] out.contains(row) by {
            assert(picked.contains(row));
            assert(sorted.contains(row));
        }
    }
}

/// While the cooldown of a row runs, no query for the rows that await
/// their e-book edition answers with it, whatever order and limit it asks
/// for.
pub proof fn lemma_cooldown_skips(
    rows: Seq<Model>,
    now: Timestamp,
    order: Option<Order>,
    limit: Option<u64>,
    row: Model,
)
    requires
        row.active_at matches Some(until) && !until.reached(now),
    ensures
        !queried(rows, Filter::AwaitingKindleId(now), order, limit).contains(row),
{
    lemma_queried(rows, Filter::AwaitingKindleId(now), order, limit);
}

/// Once the cooldown of a row has run out, the row without an e-book
/// edition is again among those that await one.
pub proof fn lemma_cooldown_ends(rows: Seq<Model>, now: Timestamp, order: Option<Order>, i: int)
    requires
        0 <= i < rows.len(),
        rows[i].kindle_id.is_none(),
        rows[i].active_at matches Some(until) ==> until.reached(now),
    ensures
        queried(rows, Filter::AwaitingKindleId(now), order, None).contains(rows[i]),
{
    lemma_queried(rows, Filter::AwaitingKindleId(now), order, None);
    assert(rows.contains(rows[i]));
}

/// A cooldown set at `now` keeps the row from being looked up until 30 days
/// have passed, and no longer.
pub proof fn lemma_cooldown_lasts(row: Model, now: Timestamp, at: Timestamp)
    requires
        row.kindle_id.is_none(),
    ensures
        row.with_cooldown(now).awaits_kindle_id(at) <==> at.micros >= now.cooldown_end(),
{
}

/// In a ranking, of two rows that follow each other the first has the
/// larger discount; or the same discount and the higher current price; or
/// both the same and the title that comes no later. And every row of a
/// ranking has its prices and its discount.
pub proof fn lemma_ranking(rows: Seq<Model>, limit: Option<u64>, i: int)
    requires
        0 <= i,
        i + 1 < queried(rows, Filter::Priced, Some(Order::BestDiscount), limit).len(),
    ensures
        ({
            let ranking = queried(rows, Filter::Priced, Some(Order::BestDiscount), limit);
            &&& ranking[i].priced()
            &&& ranking[i + 1].priced()
            &&& ranking[i].in_rank_order(ranking[i + 1])
        }),
{
    let ranking = queried(rows, Filter::Priced, Some(Order::BestDiscount), limit);
    lemma_queried(rows, Filter::Priced, Some(Order::BestDiscount), limit);
    assert(ranking.contains(ranking[i]));
    assert(ranking.contains(ranking[i + 1]));
    assert(!Order::BestDiscount.before(ranking[i + 1], ranking[i]));
    ranking[i].lemma_rank_order(ranking[i + 1]);
}

/// In the ranking of a catalog any two rows are in order, however far
/// apart they stand.
pub proof fn lemma_ranking_pairs(rows: Seq<Model>, limit: Option<u64>, i: int, j: int)
    requires
        consistent(rows),
        0 <= i < j < queried(rows, Filter::Priced, Some(Order::BestDiscount), limit).len(),
    ensures
        ({
            let ranking = queried(rows, Filter::Priced, Some(Order::BestDiscount), limit);
            ranking[i].in_rank_order(ranking[j])
        }),
    decreases j - i,
{
    let ranking = queried(rows, Filter::Priced, Some(Order::BestDiscount), limit);
    lemma_ranking(rows, limit, j - 1);
    if i + 1 < j {
        lemma_ranking_pairs(rows, limit, i, j - 1);
        lemma_queried(rows, Filter::Priced, Some(Order::BestDiscount), limit);
        assert forall|k: int| 0 <= k < ranking.len() implies (#[trigger] ranking[k]).wf()
            && ranking[k].priced() by {
            assert(ranking.contains(ranking[k]));
            assert(rows.contains(ranking[k]));
            let at = choose|at: int| 0 <= at < rows.len() && rows[at] == ranking[k];
            assert(rows[at].wf());
        }
        ranking[i].lemma_rank_transitive(ranking[j - 1], ranking[j]);
    }
}

/// A ranking holds the best: a row with prices that the limit kept out of
/// the ranking may stand behind every row in it.
pub proof fn lemma_ranking_holds_the_best(
    rows: Seq<Model>,
    limit: Option<u64>,
    i: int,
    row: Model,
)
    requires
        consistent(rows),
        rows.contains(row),
        row.priced(),
        !queried(rows, Filter::Priced, Some(Order::BestDiscount), limit).contains(row),
        0 <= i < queried(rows, Filter::Priced, Some(Order::BestDiscount), limit).len(),
    ensures
        queried(rows, Filter::Priced, Some(Order::BestDiscount), limit)[i].in_rank_order(row),
{
    let ranking = queried(rows, Filter::Priced, Some(Order::BestDiscount), limit);
    let full = queried(rows, Filter::Priced, Some(Order::BestDiscount), None);
    lemma_queried(rows, Filter::Priced, Some(Order::BestDiscount), None);
    assert(full.contains(row));
    let k = choose|k: int| 0 <= k < full.len() && full[k] == row;
    if k < ranking.len() {
        assert(ranking[k] == row);
    }
    assert(ranking[i] == full[i]);
    lemma_ranking_pairs(rows, None, i, k);
}

/// The rows whose prices are to be read come oldest first.
pub proof fn lemma_oldest_checked_first(rows: Seq<Model>, limit: Option<u64>, i: int)
    requires
        0 <= i,
        i + 1 < queried(rows, Filter::WithKindleId, Some(Order::OldestFirst), limit).len(),
    ensures
        ({
            let targets = queried(rows, Filter::WithKindleId, Some(Order::OldestFirst), limit);
            targets[i].updated_at.micros <= targets[i + 1].updated_at.micros
        }),
{
    let targets = queried(rows, Filter::WithKindleId, Some(Order::OldestFirst), limit);
    lemma_queried(rows, Filter::WithKindleId, Some(Order::OldestFirst), limit);
    assert(!Order::OldestFirst.before(targets[i + 1], targets[i]));
}

} // verus!
