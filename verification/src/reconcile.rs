//! Bringing the catalog in line with the wishlist as it was just read.
//!
//! The wishlist decides: a book on it that the catalog lacks gets a row, and
//! a row whose book has left the wishlist goes.

use vstd::prelude::*;
use crate::bookmeter::BookMeterBook;
use crate::catalog::{consistent, distinct_ids, holds_id, lemma_index_of};
use crate::model::{Model, Timestamp};

verus! {

/// Whether the wishlist holds a book with identifier `id`.
pub open spec fn listed(books: Seq<BookMeterBook>, id: i64) -> bool {
    exists|j: int| 0 <= j < books.len() && (#[trigger] books[j]).id == id
}

/// The rows whose book is on the wishlist.
pub open spec fn wished(books: Seq<BookMeterBook>) -> spec_fn(Model) -> bool {
    |row: Model| listed(books, row.bookmeter_id)
}

/// The rows whose book is not on the wishlist.
pub open spec fn unwished(books: Seq<BookMeterBook>) -> spec_fn(Model) -> bool {
    |row: Model| !listed(books, row.bookmeter_id)
}

/// The rows after each book of the wishlist, in turn, was given a row
/// unless one with its identifier was there.
pub open spec fn with_books(rows: Seq<Model>, books: Seq<BookMeterBook>, now: Timestamp) -> Seq<
    Model,
>
    decreases books.len(),
{
    if books.len() == 0 {
        rows
    } else {
        let so_far = with_books(rows, books.drop_last(), now);
        if holds_id(so_far, books.last().id as i64) {
            so_far
        } else {
            so_far.push(Model::of_book(books.last(), now))
        }
    }
}

/// The catalog brought in line with the wishlist: rows added for the books
/// that had none, then the rows dropped whose book is not on the wishlist.
pub open spec fn reconciled(rows: Seq<Model>, books: Seq<BookMeterBook>, now: Timestamp) -> Seq<
    Model,
> {
    with_books(rows, books, now).filter(wished(books))
}

/// Executable form of [`listed`].
pub fn is_listed(books: &Vec<BookMeterBook>, id: i64) -> (r: bool)
    ensures
        r == listed(books@, id),
{
    let mut j: usize = 0;
    while j < books.len()
        invariant
            j <= books.len(),
            forall|k: int| 0 <= k < j ==> (#[trigger] books@[k]).id != id,
        decreases books.len() - j,
    {
        if books[j].id as i64 == id {
            return true;
        }
        j += 1;
    }
    false
}

/// A row added behind the others is found by its identifier, and nothing
/// else changes.
pub proof fn lemma_holds_id_push(rows: Seq<Model>, row: Model, id: i64)
    ensures
        holds_id(rows.push(row), id) <==> holds_id(rows, id) || row.bookmeter_id == id,
{
    let more = rows.push(row);
    lemma_index_of(rows, id);
    lemma_index_of(more, id);
    if holds_id(rows, id) {
        let i = choose|i: int| 0 <= i < rows.len() && (#[trigger] rows[i]).bookmeter_id == id;
        assert(more[i].bookmeter_id == id);
    }
    if row.bookmeter_id == id {
        assert(more[rows.len() as int].bookmeter_id == id);
    }
    if holds_id(more, id) {
        let i = choose|i: int| 0 <= i < more.len() && (#[trigger] more[i]).bookmeter_id == id;
        if i < rows.len() {
            assert(rows[i].bookmeter_id == id);
        }
    }
}

proof fn lemma_listed_push(books: Seq<BookMeterBook>, id: i64)
    requires
        books.len() > 0,
    ensures
        listed(books, id) <==> listed(books.drop_last(), id) || books.last().id == id,
{
    let front = books.drop_last();
    if listed(books, id) {
        let j = choose|j: int| 0 <= j < books.len() && (#[trigger] books[j]).id == id;
        if j < front.len() {
            assert(front[j].id == id);
        }
    }
    if listed(front, id) {
        let j = choose|j: int| 0 <= j < front.len() && (#[trigger] front[j]).id == id;
        assert(books[j].id == id);
    }
    if books.last().id == id {
        assert(books[books.len() - 1].id == id);
    }
}

/// What giving rows to the books of a wishlist does: the rows that were
/// there stay as they are and where they are; behind them stand new rows,
/// each for a book of the wishlist that had none; and afterwards exactly the
/// identifiers of old rows and of wished books are found.
pub proof fn lemma_with_books(rows: Seq<Model>, books: Seq<BookMeterBook>, now: Timestamp)
    ensures
        rows.len() <= with_books(rows, books, now).len() <= rows.len() + books.len(),
        with_books(rows, books, now).take(rows.len() as int) == rows,
        forall|k: int|
            rows.len() <= k < with_books(rows, books, now).len() ==> {
                let row = #[trigger] with_books(rows, books, now)[k];
                listed(books, row.bookmeter_id) && row.wf() && !holds_id(rows, row.bookmeter_id)
            },
        forall|id: i64| #[trigger]
            holds_id(with_books(rows, books, now), id) <==> holds_id(rows, id) || listed(books, id),
        distinct_ids(rows) ==> distinct_ids(with_books(rows, books, now)),
        consistent(rows) ==> consistent(with_books(rows, books, now)),
    decreases books.len(),
{
    let out = with_books(rows, books, now);
    if books.len() == 0 {
        assert(rows.take(rows.len() as int) == rows);
    } else {
        let front = books.drop_last();
        let so_far = with_books(rows, front, now);
        let book = books.last();
        let new_id = book.id as i64;
        lemma_with_books(rows, front, now);
        assert forall|id: i64| #[trigger]
            holds_id(out, id) <==> holds_id(rows, id) || listed(books, id) by {
            lemma_listed_push(books, id);
            lemma_holds_id_push(so_far, Model::of_book(book, now), id);
        }
        assert forall|k: int| rows.len() <= k < out.len() implies {
            let row = #[trigger] out[k];
            listed(books, row.bookmeter_id) && row.wf() && !holds_id(rows, row.bookmeter_id)
        } by {
            lemma_listed_push(books, out[k].bookmeter_id);
            if k < so_far.len() {
                assert(out[k] == so_far[k]);
            } else {
                assert(!holds_id(so_far, new_id));
                assert(!holds_id(rows, new_id));
            }
        }
        if !holds_id(so_far, new_id) {
            assert(out.take(rows.len() as int) == so_far.take(rows.len() as int));
            lemma_index_of(so_far, new_id);
            if distinct_ids(rows) {
                assert forall|i: int, j: int| 0 <= i < j < out.len() implies (
                #[trigger] out[i]).bookmeter_id != (#[trigger] out[j]).bookmeter_id by {
                    if j < so_far.len() {
                        assert(out[i] == so_far[i] && out[j] == so_far[j]);
                    } else {
                        assert(so_far[i].bookmeter_id != new_id);
                    }
                }
            }
            if consistent(rows) {
                assert forall|i: int| 0 <= i < out.len() implies (#[trigger] out[i]).wf() by {
                    if i < so_far.len() {
                        assert(out[i] == so_far[i]);
                    }
                }
            }
        }
    }
}

/// What a filter leaves of a catalog is a catalog: identifiers stay
/// distinct and rows consistent; and an identifier is found in it exactly
/// when a row with it was there and the filter took that row.
pub proof fn lemma_filtered(rows: Seq<Model>, pred: spec_fn(Model) -> bool)
    ensures
        distinct_ids(rows) ==> distinct_ids(rows.filter(pred)),
        consistent(rows) ==> consistent(rows.filter(pred)),
        forall|row: Model| #[trigger]
            rows.filter(pred).contains(row) <==> rows.contains(row) && pred(row),
    decreases rows.len(),
{
    let out = rows.filter(pred);
    if rows.len() == 0 {
        reveal(Seq::filter);
    } else {
        let front = rows.drop_last();
        let last = rows.last();
        let kept = front.filter(pred);
        lemma_filtered(front, pred);
        front.lemma_filter_push(last, pred);
        assert(front.push(last) == rows);
        assert forall|row: Model| #[trigger]
            out.contains(row) <==> rows.contains(row) && pred(row) by {
            if out.contains(row) {
                let i = choose|i: int| 0 <= i < out.len() && out[i] == row;
                if i < kept.len() {
                    assert(kept[i] == row);
                    assert(kept.contains(row));
                    let k = choose|k: int| 0 <= k < front.len() && front[k] == row;
                    assert(rows[k] == row);
                } else {
                    assert(rows[rows.len() - 1] == row);
                }
            }
            if rows.contains(row) && pred(row) {
                let k = choose|k: int| 0 <= k < rows.len() && rows[k] == row;
                if k < front.len() {
                    assert(front[k] == row);
                    assert(front.contains(row));
                    assert(kept.contains(row));
                    let i = choose|i: int| 0 <= i < kept.len() && kept[i] == row;
                    assert(out[i] == row);
                } else {
                    assert(out[out.len() - 1] == row);
                }
            }
        }
        if distinct_ids(rows) {
            assert(distinct_ids(front)) by {
                assert forall|i: int, j: int| 0 <= i < j < front.len() implies (
                #[trigger] front[i]).bookmeter_id != (#[trigger] front[j]).bookmeter_id by {
                    assert(front[i] == rows[i] && front[j] == rows[j]);
                }
            }
            assert forall|i: int, j: int| 0 <= i < j < out.len() implies (
            #[trigger] out[i]).bookmeter_id != (#[trigger] out[j]).bookmeter_id by {
                if j < kept.len() {
                    assert(out[i] == kept[i] && out[j] == kept[j]);
                } else {
                    assert(kept[i] == out[i]);
                    assert(kept.contains(kept[i]));
                    let k = choose|k: int| 0 <= k < front.len() && front[k] == kept[i];
                    assert(rows[k] == kept[i]);
                    assert(rows[rows.len() - 1] == last);
                }
            }
        }
        if consistent(rows) {
            assert(consistent(front)) by {
                assert forall|i: int| 0 <= i < front.len() implies (#[trigger] front[i]).wf() by {
                    assert(front[i] == rows[i]);
                }
            }
            assert forall|i: int| 0 <= i < out.len() implies (#[trigger] out[i]).wf() by {
                if i < kept.len() {
                    assert(out[i] == kept[i]);
                } else {
                    assert(rows[rows.len() - 1] == last);
                }
            }
        }
    }
}

/// A filter that takes every row keeps the sequence; one that takes none
/// leaves nothing.
pub proof fn lemma_filter_all_or_none(rows: Seq<Model>, pred: spec_fn(Model) -> bool)
    ensures
        (forall|i: int| 0 <= i < rows.len() ==> pred(#[trigger] rows[i])) ==> rows.filter(pred)
            == rows,
        (forall|i: int| 0 <= i < rows.len() ==> !pred(#[trigger] rows[i])) ==> rows.filter(pred)
            == Seq::<Model>::empty(),
    decreases rows.len(),
{
    if rows.len() == 0 {
        reveal(Seq::filter);
    } else {
        let front = rows.drop_last();
        lemma_filter_all_or_none(front, pred);
        front.lemma_filter_push(rows.last(), pred);
        assert(front.push(rows.last()) == rows);
        assert(forall|i: int| 0 <= i < front.len() ==> front[i] == rows[i]);
        if forall|i: int| 0 <= i < rows.len() ==> pred(#[trigger] rows[i]) {
            assert(pred(rows[rows.len() - 1]));
            assert forall|i: int| 0 <= i < front.len() implies pred(#[trigger] front[i]) by {
                assert(front[i] == rows[i]);
            }
        }
        if forall|i: int| 0 <= i < rows.len() ==> !pred(#[trigger] rows[i]) {
            assert(!pred(rows[rows.len() - 1]));
            assert forall|i: int| 0 <= i < front.len() implies !pred(#[trigger] front[i]) by {
                assert(front[i] == rows[i]);
            }
        }
    }
}

proof fn lemma_holds_id_contains(rows: Seq<Model>, id: i64)
    ensures
        holds_id(rows, id) <==> exists|row: Model| #[trigger]
            rows.contains(row) && row.bookmeter_id == id,
{
    lemma_index_of(rows, id);
    if holds_id(rows, id) {
        let i = choose|i: int| 0 <= i < rows.len() && (#[trigger] rows[i]).bookmeter_id == id;
        assert(rows.contains(rows[i]) && rows[i].bookmeter_id == id);
    }
    if exists|row: Model| #[trigger] rows.contains(row) && row.bookmeter_id == id {
        let row = choose|row: Model| #[trigger] rows.contains(row) && row.bookmeter_id == id;
        let i = choose|i: int| 0 <= i < rows.len() && rows[i] == row;
        assert(rows[i].bookmeter_id == id);
    }
}

/// After reconciling, the catalog holds a row for an identifier exactly
/// when the wishlist holds a book with it.
pub proof fn lemma_reconciled_ids(
    rows: Seq<Model>,
    books: Seq<BookMeterBook>,
    now: Timestamp,
    id: i64,
)
    ensures
        holds_id(reconciled(rows, books, now), id) <==> listed(books, id),
{
    let all = with_books(rows, books, now);
    let out = reconciled(rows, books, now);
    lemma_with_books(rows, books, now);
    lemma_filtered(all, wished(books));
    lemma_holds_id_contains(all, id);
    lemma_holds_id_contains(out, id);
    if holds_id(out, id) {
        let row = choose|row: Model| #[trigger] out.contains(row) && row.bookmeter_id == id;
        assert(wished(books)(row));
    }
    if listed(books, id) {
        assert(holds_id(all, id));
        let row = choose|row: Model| #[trigger] all.contains(row) && row.bookmeter_id == id;
        assert(wished(books)(row));
        assert(out.contains(row));
    }
}

/// Of the rows that a catalog holds, reconciling deletes exactly those whose
/// book is not on the wishlist; the others stay as they are.
pub proof fn lemma_deleted_iff_unwished(
    rows: Seq<Model>,
    books: Seq<BookMeterBook>,
    now: Timestamp,
    i: int,
)
    requires
        0 <= i < rows.len(),
    ensures
        !holds_id(reconciled(rows, books, now), rows[i].bookmeter_id) <==> !listed(
            books,
            rows[i].bookmeter_id,
        ),
        reconciled(rows, books, now).contains(rows[i]) <==> listed(books, rows[i].bookmeter_id),
{
    let all = with_books(rows, books, now);
    lemma_reconciled_ids(rows, books, now, rows[i].bookmeter_id);
    lemma_with_books(rows, books, now);
    lemma_filtered(all, wished(books));
    assert(all.take(rows.len() as int)[i] == all[i]);
    assert(all.contains(rows[i]));
    assert(wished(books)(rows[i]) == listed(books, rows[i].bookmeter_id));
}

/// Nothing that reconciling deletes was added by it: the deleted rows are
/// the rows that were there and whose book is not on the wishlist.
pub proof fn lemma_deleted_rows(rows: Seq<Model>, books: Seq<BookMeterBook>, now: Timestamp)
    ensures
        with_books(rows, books, now).filter(unwished(books)) == rows.filter(unwished(books)),
{
    let all = with_books(rows, books, now);
    let added = all.skip(rows.len() as int);
    lemma_with_books(rows, books, now);
    assert(all == rows + added) by {
        assert(all.take(rows.len() as int) + added == all);
    }
    Seq::filter_distributes_over_add(rows, added, unwished(books));
    assert forall|k: int| 0 <= k < added.len() implies !unwished(books)(#[trigger] added[k]) by {
        assert(added[k] == all[rows.len() + k]);
    }
    lemma_filter_all_or_none(added, unwished(books));
    assert(rows.filter(unwished(books)) + Seq::<Model>::empty() == rows.filter(unwished(books)));
}

/// Reconciling keeps a catalog a catalog.
pub proof fn lemma_reconciled_wf(rows: Seq<Model>, books: Seq<BookMeterBook>, now: Timestamp)
    ensures
        distinct_ids(rows) ==> distinct_ids(reconciled(rows, books, now)),
        consistent(rows) ==> consistent(reconciled(rows, books, now)),
{
    lemma_with_books(rows, books, now);
    lemma_filtered(with_books(rows, books, now), wished(books));
}

proof fn lemma_with_books_held(rows: Seq<Model>, books: Seq<BookMeterBook>, now: Timestamp)
    requires
        forall|j: int| 0 <= j < books.len() ==> holds_id(rows, (#[trigger] books[j]).id as i64),
    ensures
        with_books(rows, books, now) == rows,
    decreases books.len(),
{
    if books.len() > 0 {
        let front = books.drop_last();
        assert forall|j: int| 0 <= j < front.len() implies holds_id(
            rows,
            (#[trigger] front[j]).id as i64,
        ) by {
            assert(front[j] == books[j]);
        }
        lemma_with_books_held(rows, front, now);
        assert(holds_id(rows, books[books.len() - 1].id as i64));
    }
}

/// Reconciling twice against the same wishlist does nothing the second
/// time: no row is added and none deleted, whenever the second run happens.
pub proof fn lemma_reconcile_idempotent(
    rows: Seq<Model>,
    books: Seq<BookMeterBook>,
    now: Timestamp,
    later: Timestamp,
)
    ensures
        reconciled(reconciled(rows, books, now), books, later) == reconciled(rows, books, now),
        with_books(reconciled(rows, books, now), books, later) == reconciled(rows, books, now),
        reconciled(rows, books, now).filter(unwished(books)) == Seq::<Model>::empty(),
{
    let once = reconciled(rows, books, now);
    assert forall|j: int| 0 <= j < books.len() implies holds_id(
        once,
        (#[trigger] books[j]).id as i64,
    ) by {
        lemma_reconciled_ids(rows, books, now, books[j].id as i64);
    }
    lemma_with_books_held(once, books, later);
    lemma_filtered(with_books(rows, books, now), wished(books));
    assert forall|i: int| 0 <= i < once.len() implies wished(books)(#[trigger] once[i])
        && !unwished(books)(once[i]) by {
        assert(once.contains(once[i]));
    }
    lemma_filter_all_or_none(once, wished(books));
    lemma_filter_all_or_none(once, unwished(books));
}

} // verus!
