//! The catalog: one row per wished book, found by the book's identifier.
//!
//! It is the store that the stages of an update read and write in turn. A
//! catalog is a sequence of rows in which no identifier occurs twice; rows
//! stay in the order in which they were inserted.

use vstd::prelude::*;
use crate::bookmeter::BookMeterBook;
use crate::kindle::Kindle;
use crate::reconcile::{
    is_listed, lemma_deleted_rows, lemma_reconciled_wf, reconciled, unwished, wished, with_books,
};
use crate::model::{Model, Timestamp};
use crate::sort::{arrange, arranged, Order};

verus! {

/// Which rows a query asks for.
#[derive(Clone, Copy, Debug)]
pub enum Filter {
    /// Every row.
    All,
    /// The rows whose e-book edition is to be looked for at the given time.
    AwaitingKindleId(Timestamp),
    /// The rows whose e-book edition is known.
    WithKindleId,
    /// The rows with list price, current price and discount.
    Priced,
}

impl Filter {
    /// Whether the query asks for `row`.
    pub open spec fn accepts(self, row: Model) -> bool {
        match self {
            Filter::All => true,
            Filter::AwaitingKindleId(now) => row.awaits_kindle_id(now),
            Filter::WithKindleId => row.kindle_id.is_some(),
            Filter::Priced => row.priced(),
        }
    }

    /// [`Filter::accepts`] as a predicate.
    pub open spec fn pred(self) -> spec_fn(Model) -> bool {
        |row: Model| self.accepts(row)
    }

    /// Executable form of [`Filter::accepts`].
    pub fn admits(&self, row: &Model) -> (r: bool)
        ensures
            r == self.accepts(*row),
    {
        match self {
            Filter::All => true,
            Filter::AwaitingKindleId(now) => row.needs_kindle_id(*now),
            Filter::WithKindleId => row.kindle_id.is_some(),
            Filter::Priced => row.is_priced(),
        }
    }
}

/// The index of the first row with identifier `id`; the number of rows when
/// there is none.
pub open spec fn index_of(rows: Seq<Model>, id: i64) -> int
    decreases rows.len(),
{
    if rows.len() == 0 || rows[0].bookmeter_id == id {
        0
    } else {
        1 + index_of(rows.drop_first(), id)
    }
}

/// Whether some row has identifier `id`.
pub open spec fn holds_id(rows: Seq<Model>, id: i64) -> bool {
    index_of(rows, id) < rows.len()
}

/// Whether no identifier occurs in two rows.
pub open spec fn distinct_ids(rows: Seq<Model>) -> bool {
    forall|i: int, j: int|
        0 <= i < j < rows.len() ==> (#[trigger] rows[i]).bookmeter_id != (
        #[trigger] rows[j]).bookmeter_id
}

/// What [`index_of`] finds: a row with that identifier and none before it,
/// or no row with it at all.
pub proof fn lemma_index_of(rows: Seq<Model>, id: i64)
    ensures
        0 <= index_of(rows, id) <= rows.len(),
        holds_id(rows, id) ==> rows[index_of(rows, id)].bookmeter_id == id,
        forall|i: int| 0 <= i < index_of(rows, id) ==> (#[trigger] rows[i]).bookmeter_id != id,
        holds_id(rows, id) <==> exists|i: int|
            0 <= i < rows.len() && (#[trigger] rows[i]).bookmeter_id == id,
    decreases rows.len(),
{
    if rows.len() > 0 && rows[0].bookmeter_id != id {
        let rest = rows.drop_first();
        lemma_index_of(rest, id);
        assert forall|i: int| 0 <= i < index_of(rows, id) implies (
        #[trigger] rows[i]).bookmeter_id != id by {
            if i > 0 {
                assert(rest[i - 1] == rows[i]);
            }
        }
        if holds_id(rows, id) {
            assert(rest[index_of(rest, id)] == rows[index_of(rows, id)]);
        }
    } else if rows.len() > 0 {
        assert(rows[0].bookmeter_id == id);
    }
}

/// `rows` without the row that has identifier `id`.
pub open spec fn without(rows: Seq<Model>, id: i64) -> Seq<Model> {
    if holds_id(rows, id) {
        rows.remove(index_of(rows, id))
    } else {
        rows
    }
}

/// The first `limit` of `rows`; all of them where there are fewer, or no
/// limit.
pub open spec fn capped(rows: Seq<Model>, limit: Option<u64>) -> Seq<Model> {
    match limit {
        Some(n) => if n < rows.len() {
            rows.take(n as int)
        } else {
            rows
        },
        None => rows,
    }
}

/// `rows` put in `order`; as they stand where none is asked for.
pub open spec fn ordered(rows: Seq<Model>, order: Option<Order>) -> Seq<Model> {
    match order {
        Some(order) => arranged(rows, order),
        None => rows,
    }
}

/// What a query returns: the rows that the filter accepts, put in order,
/// and of these no more than the limit.
pub open spec fn queried(
    rows: Seq<Model>,
    filter: Filter,
    order: Option<Order>,
    limit: Option<u64>,
) -> Seq<Model> {
    capped(ordered(rows.filter(filter.pred()), order), limit)
}

/// Whether every row is consistent in itself.
pub open spec fn consistent(rows: Seq<Model>) -> bool {
    forall|i: int| 0 <= i < rows.len() ==> (#[trigger] rows[i]).wf()
}

/// What reconciling changed, for whoever keeps a copy of the catalog.
#[derive(Debug)]
pub struct Reconciliation {
    /// The rows added, in the order of the wishlist.
    pub inserted: Vec<Model>,
    /// The rows deleted, in the order of the catalog.
    pub deleted: Vec<Model>,
}

/// The rows of a catalog.
#[derive(Debug)]
pub struct Catalog {
    rows: Vec<Model>,
}

impl View for Catalog {
    type V = Seq<Model>;

    closed spec fn view(&self) -> Seq<Model> {
        self.rows@
    }
}

impl Catalog {
    /// No identifier occurs twice, and every row is consistent in itself.
    /// The catalogs that this module makes are so, and its functions keep
    /// them so.
    pub open spec fn wf(&self) -> bool {
        distinct_ids(self@) && consistent(self@)
    }

    /// The catalog without rows.
    pub fn new() -> (catalog: Catalog)
        ensures
            catalog@ == Seq::<Model>::empty(),
            catalog.wf(),
    {
        Catalog { rows: Vec::new() }
    }

    /// The catalog of the given rows; none where an identifier occurs
    /// twice or a row is inconsistent in itself.
    pub fn from_rows(rows: Vec<Model>) -> (catalog: Option<Catalog>)
        ensures
            distinct_ids(rows@) && consistent(rows@) <==> catalog.is_some(),
            catalog matches Some(c) ==> c@ == rows@ && c.wf(),
    {
        let mut j: usize = 0;
        while j < rows.len()
            invariant
                j <= rows.len(),
                distinct_ids(rows@.take(j as int)),
                consistent(rows@.take(j as int)),
            decreases rows.len() - j,
        {
            if !rows[j].is_wf() {
                return None;
            }
            let mut i: usize = 0;
            while i < j
                invariant
                    i <= j < rows.len(),
                    forall|k: int|
                        0 <= k < i ==> (#[trigger] rows@[k]).bookmeter_id
                            != rows@[j as int].bookmeter_id,
                decreases j - i,
            {
                if rows[i].bookmeter_id == rows[j].bookmeter_id {
                    return None;
                }
                i += 1;
            }
            j += 1;
        }
        assert(rows@.take(rows.len() as int) == rows@);
        Some(Catalog { rows })
    }

    /// Adds `row` behind the others, unless its identifier is taken or it is
    /// inconsistent in itself; says whether it was added.
    pub fn insert(&mut self, row: Model) -> (added: bool)
        ensures
            added == (!holds_id(old(self)@, row.bookmeter_id) && row.wf()),
            final(self)@ == (if added {
                old(self)@.push(row)
            } else {
                old(self)@
            }),
            old(self).wf() ==> final(self).wf(),
    {
        let at = self.position(row.bookmeter_id);
        if at < self.rows.len() || !row.is_wf() {
            return false;
        }
        proof {
            lemma_index_of(self@, row.bookmeter_id);
        }
        self.rows.push(row);
        true
    }

    /// Removes the row with identifier `id` and hands it out.
    pub fn delete(&mut self, id: i64) -> (removed: Option<Model>)
        ensures
            removed == (if holds_id(old(self)@, id) {
                Some(old(self)@[index_of(old(self)@, id)])
            } else {
                None
            }),
            final(self)@ == without(old(self)@, id),
            old(self).wf() ==> final(self).wf(),
    {
        let at = self.position(id);
        if at < self.rows.len() {
            Some(self.rows.remove(at))
        } else {
            None
        }
    }

    /// Notes the e-book edition of the book `id`, unless one is noted
    /// already: an edition once found stays. Hands out the row as written.
    pub fn set_kindle_id(&mut self, id: i64, kindle_id: String, now: Timestamp) -> (written: Option<
        Model,
    >)
        ensures
            written == (if holds_id(old(self)@, id) && old(self)@[index_of(
                old(self)@,
                id,
            )].kindle_id.is_none() {
                Some(old(self)@[index_of(old(self)@, id)].with_kindle_id(kindle_id, now))
            } else {
                None
            }),
            final(self)@ == (match written {
                Some(row) => old(self)@.update(index_of(old(self)@, id), row),
                None => old(self)@,
            }),
            old(self).wf() ==> final(self).wf(),
    {
        let at = self.position(id);
        if at >= self.rows.len() || self.rows[at].kindle_id.is_some() {
            return None;
        }
        let mut row = self.rows[at].clone();
        row.kindle_id = Some(kindle_id);
        row.updated_at = now;
        self.rows.set(at, row.clone());
        Some(row)
    }

    /// Leaves the book `id` alone until 30 days after `now`, unless its
    /// e-book edition is known. Hands out the row as written.
    pub fn set_cooldown(&mut self, id: i64, now: Timestamp) -> (written: Option<Model>)
        ensures
            written == (if holds_id(old(self)@, id) && old(self)@[index_of(
                old(self)@,
                id,
            )].kindle_id.is_none() {
                Some(old(self)@[index_of(old(self)@, id)].with_cooldown(now))
            } else {
                None
            }),
            final(self)@ == (match written {
                Some(row) => old(self)@.update(index_of(old(self)@, id), row),
                None => old(self)@,
            }),
            old(self).wf() ==> final(self).wf(),
    {
        let at = self.position(id);
        if at >= self.rows.len() || self.rows[at].kindle_id.is_some() {
            return None;
        }
        let mut row = self.rows[at].clone();
        row.active_at = Some(now.after_cooldown());
        row.updated_at = now;
        self.rows.set(at, row.clone());
        Some(row)
    }

    /// Notes list price, current price and discount of the book `id`, all
    /// three or none: none where the book's e-book edition is not known, or
    /// the discount is no fraction. Hands out the row as written.
    pub fn set_pricing(&mut self, id: i64, kindle: Kindle, now: Timestamp) -> (written: Option<
        Model,
    >)
        ensures
            written == (if holds_id(old(self)@, id) && old(self)@[index_of(
                old(self)@,
                id,
            )].kindle_id.is_some() && kindle.discount_rate.wf() {
                Some(old(self)@[index_of(old(self)@, id)].with_pricing(kindle, now))
            } else {
                None
            }),
            final(self)@ == (match written {
                Some(row) => old(self)@.update(index_of(old(self)@, id), row),
                None => old(self)@,
            }),
            old(self).wf() ==> final(self).wf(),
    {
        let at = self.position(id);
        if at >= self.rows.len() || self.rows[at].kindle_id.is_none()
            || kindle.discount_rate.denominator == 0 {
            return None;
        }
        let mut row = self.rows[at].clone();
        row.basis_price = Some(kindle.basis_price);
        row.price = Some(kindle.price);
        row.discount_rate = Some(kindle.discount_rate);
        row.updated_at = now;
        self.rows.set(at, row.clone());
        Some(row)
    }

    /// Brings the catalog in line with the wishlist as read at `now`: each
    /// book that has no row gets one, then each row whose book is not on the
    /// wishlist is deleted.
    pub fn reconcile(&mut self, books: &Vec<BookMeterBook>, now: Timestamp) -> (changes:
        Reconciliation)
        ensures
            final(self)@ == reconciled(old(self)@, books@, now),
            changes.inserted@ == with_books(old(self)@, books@, now).skip(old(self)@.len() as int),
            changes.deleted@ == old(self)@.filter(unwished(books@)),
            old(self).wf() ==> final(self).wf(),
    {
        let ghost before = self@;
        let mut inserted: Vec<Model> = Vec::new();
        let mut j: usize = 0;
        assert(books@.take(0) == Seq::<BookMeterBook>::empty());
        assert(self@.skip(before.len() as int) == Seq::<Model>::empty());
        while j < books.len()
            invariant
                j <= books.len(),
                self@ == with_books(before, books@.take(j as int), now),
                inserted@ == self@.skip(before.len() as int),
                before.len() <= self@.len(),
            decreases books.len() - j,
        {
            let row = Model::from_book(&books[j], now);
            let ghost so_far = self@;
            proof {
                assert(books@.take(j + 1).drop_last() == books@.take(j as int));
                assert(books@.take(j + 1).last() == books@[j as int]);
            }
            if self.insert(row.clone()) {
                inserted.push(row);
                assert(so_far.push(row).skip(before.len() as int) == so_far.skip(
                    before.len() as int,
                ).push(row));
            }
            j += 1;
        }
        assert(books@.take(books.len() as int) == books@);
        let ghost all = self@;
        let mut kept: Vec<Model> = Vec::new();
        let mut deleted: Vec<Model> = Vec::new();
        let mut i: usize = 0;
        proof {
            reveal(Seq::filter);
            assert(all.take(0) == Seq::<Model>::empty());
        }
        while i < self.rows.len()
            invariant
                i <= self.rows.len(),
                self.rows@ == all,
                kept@ == all.take(i as int).filter(wished(books@)),
                deleted@ == all.take(i as int).filter(unwished(books@)),
            decreases self.rows.len() - i,
        {
            proof {
                let seen = all.take(i as int);
                assert(all.take(i + 1) == seen.push(all[i as int]));
                seen.lemma_filter_push(all[i as int], wished(books@));
                seen.lemma_filter_push(all[i as int], unwished(books@));
            }
            if is_listed(books, self.rows[i].bookmeter_id) {
                kept.push(self.rows[i].clone());
            } else {
                deleted.push(self.rows[i].clone());
            }
            i += 1;
        }
        proof {
            assert(all.take(all.len() as int) == all);
            lemma_deleted_rows(before, books@, now);
            lemma_reconciled_wf(before, books@, now);
        }
        self.rows = kept;
        Reconciliation { inserted, deleted }
    }

    /// The number of rows.
    pub fn len(&self) -> (n: usize)
        ensures
            n == self@.len(),
    {
        self.rows.len()
    }

    fn position(&self, id: i64) -> (at: usize)
        ensures
            at == index_of(self@, id),
    {
        let mut at: usize = 0;
        proof {
            lemma_index_of(self@, id);
        }
        while at < self.rows.len() && self.rows[at].bookmeter_id != id
            invariant
                at <= self.rows.len(),
                forall|i: int| 0 <= i < at ==> (#[trigger] self.rows@[i]).bookmeter_id != id,
            decreases self.rows.len() - at,
        {
            at += 1;
        }
        proof {
            let found = index_of(self@, id);
            if found < at {
                assert(self.rows@[found].bookmeter_id != id);
            }
            if at < found {
                assert(self@[at as int].bookmeter_id != id);
            }
        }
        at
    }

    /// Whether a row has identifier `id`.
    pub fn contains_id(&self, id: i64) -> (r: bool)
        ensures
            r == holds_id(self@, id),
    {
        self.position(id) < self.rows.len()
    }

    /// A copy of the row with identifier `id`.
    pub fn find_by_id(&self, id: i64) -> (found: Option<Model>)
        ensures
            found == (if holds_id(self@, id) {
                Some(self@[index_of(self@, id)])
            } else {
                None
            }),
    {
        let at = self.position(id);
        if at < self.rows.len() {
            Some(self.rows[at].clone())
        } else {
            None
        }
    }

    /// Copies of all rows, in the catalog's order.
    pub fn find_all(&self) -> (rows: Vec<Model>)
        ensures
            rows@ == self@,
    {
        let out = self.find_where(Filter::All, None, None);
        proof {
            lemma_filter_all(self@);
        }
        out
    }

    /// Copies of the rows that `filter` accepts, put in `order` where one is
    /// given, and no more of them than `limit`.
    pub fn find_where(&self, filter: Filter, order: Option<Order>, limit: Option<u64>) -> (rows:
        Vec<Model>)
        ensures
            rows@ == queried(self@, filter, order, limit),
    {
        let mut picked: Vec<Model> = Vec::new();
        let mut i: usize = 0;
        assert(self.rows@.take(0).filter(filter.pred()) == Seq::<Model>::empty()) by {
            reveal(Seq::filter);
        }
        while i < self.rows.len()
            invariant
                i <= self.rows.len(),
                picked@ == self.rows@.take(i as int).filter(filter.pred()),
            decreases self.rows.len() - i,
        {
            proof {
                let seen = self.rows@.take(i as int);
                assert(self.rows@.take(i + 1) == seen.push(self.rows@[i as int]));
                seen.lemma_filter_push(self.rows@[i as int], filter.pred());
            }
            if filter.admits(&self.rows[i]) {
                picked.push(self.rows[i].clone());
            }
            i += 1;
        }
        assert(self.rows@.take(self.rows.len() as int) == self.rows@);
        let mut out = match order {
            Some(order) => arrange(&picked, order),
            None => picked,
        };
        match limit {
            Some(n) => {
                if n < out.len() as u64 {
                    out.truncate(n as usize);
                }
            },
            None => {},
        }
        out
    }
}

/// A filter that accepts every row keeps them all.
pub proof fn lemma_filter_all(rows: Seq<Model>)
    ensures
        rows.filter(Filter::All.pred()) == rows,
    decreases rows.len(),
{
    reveal(Seq::filter);
    if rows.len() > 0 {
        lemma_filter_all(rows.drop_last());
        assert(rows.drop_last().push(rows.last()) == rows);
    }
}

} // verus!
