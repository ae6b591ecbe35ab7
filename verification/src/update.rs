//! One update of the catalog, from reading the wishlist to reading the
//! prices.
//!
//! An update goes through its stages in one direction: read the wishlist
//! and bring the catalog in line with it; look for the e-book edition of each
//! book that awaits one; read the prices of each book with an e-book edition,
//! the one checked longest ago first. Within a stage the books come one
//! after the other. A wishlist that cannot be read fails the update; a book
//! whose page or prices cannot be read is left as it is, and the update moves
//! on.

use vstd::prelude::*;
use crate::bookmeter::BookMeterBook;
use crate::catalog::{
    holds_id, index_of, lemma_index_of, queried, without, Filter, Reconciliation,
};
use crate::kindle::{Kindle, KindleError};
use crate::model::{Deadline, Model, Timestamp, COOLDOWN_MICROS};
use crate::reconcile::{reconciled, unwished, wished, with_books};
use crate::sort::{arranged, placed, Order};
use crate::{kindle_id_noted, price_noted, BookMeterDiscounts};

verus! {

/// How many rows the report at the end of an update holds at most.
pub const REPORT_LIMIT: u64 = 10;

/// Where an update stands.
#[derive(Clone, Copy, Debug, PartialEq, Eq, Structural)]
pub enum Stage {
    /// The wishlist is being read.
    Crawling,
    /// E-book editions are being looked for.
    Resolving,
    /// Prices are being read.
    Pricing,
    /// The update is through.
    Done,
    /// The wishlist could not be read, and nothing was changed.
    Failed,
}

/// What an update asks for next.
#[derive(Clone, Copy, Debug, PartialEq, Eq, Structural)]
pub enum UpdateStep {
    /// Read the wishlist.
    Crawl,
    /// Wait `pause` seconds, then look for the e-book edition of the book
    /// `bookmeter_id` on its product page.
    FetchProductPage { bookmeter_id: i64, pause: u64 },
    /// Wait `pause` seconds, then read the prices of the e-book of the book
    /// `bookmeter_id`.
    FetchListing { bookmeter_id: i64, pause: u64 },
    /// Nothing: the update is through, or has failed.
    Done,
}

/// The answer to news that the update had not asked for. Such news changes
/// nothing.
#[derive(Clone, Copy, Debug, PartialEq, Eq, Structural)]
pub struct Unexpected;

/// An update of the catalog, as far as it has come.
#[derive(Debug)]
pub struct Update {
    pub discounts: BookMeterDiscounts,
    pub stage: Stage,
    /// The rows that the stage works through, as they were when it began.
    pub targets: Vec<Model>,
    /// How many of them are done with.
    pub next: usize,
}

/// An [`Update`] as plain values.
pub struct UpdateView {
    pub stage: Stage,
    /// The rows of the catalog.
    pub rows: Seq<Model>,
    pub targets: Seq<Model>,
    pub next: int,
    /// The pause before each fetch, in seconds.
    pub interval: u64,
    /// The reader whose wishlist it is.
    pub user_id: Seq<char>,
}

impl View for Update {
    type V = UpdateView;

    open spec fn view(&self) -> UpdateView {
        UpdateView {
            stage: self.stage,
            rows: self.discounts.db@,
            targets: self.targets@,
            next: self.next as int,
            interval: self.discounts.get_amazon_page_interval,
            user_id: self.discounts.user_id@,
        }
    }
}

/// The rows with another identifier than `id`.
pub open spec fn other_than(id: i64) -> spec_fn(Model) -> bool {
    |row: Model| row.bookmeter_id != id
}

impl Stage {
    /// How far along an update is.
    pub open spec fn progress(self) -> int {
        match self {
            Stage::Crawling => 0,
            Stage::Resolving => 1,
            Stage::Pricing => 2,
            Stage::Done => 3,
            Stage::Failed => 3,
        }
    }
}

impl UpdateView {
    /// The update when it is through, with `rows` for a catalog.
    pub open spec fn through(self, rows: Seq<Model>) -> UpdateView {
        UpdateView { stage: Stage::Done, rows, targets: Seq::<Model>::empty(), next: 0, ..self }
    }

    /// The update at the beginning of the pricing stage, with `rows` for a
    /// catalog; through where no row has an e-book edition.
    pub open spec fn pricing(self, rows: Seq<Model>) -> UpdateView {
        let targets = queried(rows, Filter::WithKindleId, Some(Order::OldestFirst), None);
        if targets.len() > 0 {
            UpdateView { stage: Stage::Pricing, rows, targets, next: 0, ..self }
        } else {
            self.through(rows)
        }
    }

    /// The update at the beginning of the stage that looks for e-book
    /// editions at `now`, with `rows` for a catalog; further on where no row
    /// awaits one.
    pub open spec fn resolving(self, rows: Seq<Model>, now: Timestamp) -> UpdateView {
        let targets = queried(rows, Filter::AwaitingKindleId(now), None, None);
        if targets.len() > 0 {
            UpdateView { stage: Stage::Resolving, rows, targets, next: 0, ..self }
        } else {
            self.pricing(rows)
        }
    }

    /// Whether the row `id` is among those whose e-book edition is still
    /// to be looked for.
    pub open spec fn awaits(self, id: i64) -> bool {
        &&& self.stage == Stage::Resolving
        &&& 0 <= self.next <= self.targets.len()
        &&& exists|k: int|
            self.next <= k < self.targets.len() && (#[trigger] self.targets[k]).bookmeter_id == id
    }

    /// The update after the store refused the row `id`, which the update
    /// had added: the row leaves the catalog and the rows still to be looked
    /// up. Of a row that does not await its e-book edition nothing is taken
    /// back.
    pub open spec fn insert_refused(self, id: i64) -> UpdateView {
        if self.awaits(id) {
            let rows = without(self.rows, id);
            let targets = self.targets.take(self.next) + self.targets.skip(self.next).filter(
                other_than(id),
            );
            if self.next < targets.len() {
                UpdateView { rows, targets, ..self }
            } else {
                self.pricing(rows)
            }
        } else {
            self
        }
    }

    /// The row that noting an outcome for the row `id` wrote, if it wrote
    /// one: the row as it stands in `after`.
    pub open spec fn written(self, after: UpdateView, id: i64, wrote: bool) -> Option<Model> {
        if wrote {
            Some(after.rows[index_of(self.rows, id)])
        } else {
            None
        }
    }

    /// While a stage works through its rows, a row is left to work on.
    pub open spec fn wf(self) -> bool {
        (self.stage == Stage::Resolving || self.stage == Stage::Pricing) ==> 0 <= self.next
            < self.targets.len()
    }

    /// What the update asks for next.
    pub open spec fn expects(self) -> UpdateStep {
        match self.stage {
            Stage::Crawling => UpdateStep::Crawl,
            Stage::Resolving => if 0 <= self.next < self.targets.len() {
                UpdateStep::FetchProductPage {
                    bookmeter_id: self.targets[self.next].bookmeter_id,
                    pause: self.interval,
                }
            } else {
                UpdateStep::Done
            },
            Stage::Pricing => if 0 <= self.next < self.targets.len() {
                UpdateStep::FetchListing {
                    bookmeter_id: self.targets[self.next].bookmeter_id,
                    pause: self.interval,
                }
            } else {
                UpdateStep::Done
            },
            Stage::Done => UpdateStep::Done,
            Stage::Failed => UpdateStep::Done,
        }
    }

    /// The update after the wishlist was read at `now` and held `books`.
    pub open spec fn crawled(self, books: Seq<BookMeterBook>, now: Timestamp) -> UpdateView {
        if self.stage == Stage::Crawling {
            self.resolving(reconciled(self.rows, books, now), now)
        } else {
            self
        }
    }

    /// The update after the wishlist could not be read.
    pub open spec fn crawl_failed(self) -> UpdateView {
        if self.stage == Stage::Crawling {
            UpdateView { stage: Stage::Failed, ..self }
        } else {
            self
        }
    }

    /// The update after the search for the e-book edition that it asked
    /// for ended in `outcome` at `now`.
    pub open spec fn kindle_id_read(
        self,
        outcome: Result<String, KindleError>,
        now: Timestamp,
    ) -> UpdateView {
        if self.expects() is FetchProductPage {
            let rows = kindle_id_noted(
                self.rows,
                self.targets[self.next].bookmeter_id,
                outcome,
                now,
            );
            if self.next + 1 < self.targets.len() {
                UpdateView { rows, next: self.next + 1, ..self }
            } else {
                self.pricing(rows)
            }
        } else {
            self
        }
    }

    /// The update after the prices that it asked for were read at `now`
    /// with `outcome`.
    pub open spec fn price_read(
        self,
        outcome: Result<Kindle, KindleError>,
        now: Timestamp,
    ) -> UpdateView {
        if self.expects() is FetchListing {
            let rows = price_noted(self.rows, self.targets[self.next].bookmeter_id, outcome, now);
            if self.next + 1 < self.targets.len() {
                UpdateView { rows, next: self.next + 1, ..self }
            } else {
                self.through(rows)
            }
        } else {
            self
        }
    }
}

/// A product page without the button leaves its book alone for 30 days:
/// told of it at `now`, the update keeps the row without an e-book edition,
/// sets the end of its cooldown 30 days after `now`, leaves its prices as they
/// were and every other row as it is; and until those 30 days have passed the
/// row does not await its edition.
pub proof fn lemma_missing_edition_cools(update: UpdateView, now: Timestamp, i: int, at: Timestamp)
    requires
        update.expects() is FetchProductPage,
        holds_id(update.rows, update.expects()->FetchProductPage_bookmeter_id),
        update.rows[index_of(
            update.rows,
            update.expects()->FetchProductPage_bookmeter_id,
        )].kindle_id.is_none(),
        0 <= i < update.rows.len(),
    ensures
        ({
            let id = update.expects()->FetchProductPage_bookmeter_id;
            let row = index_of(update.rows, id);
            let after = update.kindle_id_read(
                Err::<String, KindleError>(KindleError::KindleButtonNotFound),
                now,
            );
            &&& after.rows.len() == update.rows.len()
            &&& after.rows[row].bookmeter_id == id
            &&& after.rows[row].kindle_id.is_none()
            &&& after.rows[row].active_at == Some(
                Deadline { micros: (now.micros + COOLDOWN_MICROS) as i128 },
            )
            &&& after.rows[row].basis_price == update.rows[row].basis_price
            &&& after.rows[row].price == update.rows[row].price
            &&& after.rows[row].discount_rate == update.rows[row].discount_rate
            &&& after.rows[row].updated_at == now
            &&& i != row ==> after.rows[i] == update.rows[i]
            &&& after.rows[row].awaits_kindle_id(at) <==> at.micros >= now.micros
                + COOLDOWN_MICROS
        }),
{
    lemma_index_of(update.rows, update.expects()->FetchProductPage_bookmeter_id);
}

proof fn lemma_filter_pair(a: Model, b: Model, pred: spec_fn(Model) -> bool)
    ensures
        seq![a, b].filter(pred) == (if pred(a) {
            seq![a]
        } else {
            Seq::<Model>::empty()
        }) + (if pred(b) {
            seq![b]
        } else {
            Seq::<Model>::empty()
        }),
{
    let none = Seq::<Model>::empty();
    assert(none.filter(pred) == none) by {
        reveal(Seq::filter);
    }
    none.lemma_filter_push(a, pred);
    none.push(a).lemma_filter_push(b, pred);
    assert(none.push(a).push(b) == seq![a, b]);
    assert(none.push(a) == seq![a]);
    if pred(a) {
        assert(seq![a].push(b) == seq![a] + seq![b]);
        assert(seq![a] + none == seq![a]);
    } else {
        assert(none.push(b) == none + seq![b]);
        assert(none + none == none);
    }
}

proof fn lemma_reconcile_pair(first: BookMeterBook, second: BookMeterBook, seen: Timestamp)
    requires
        first.id != second.id,
    ensures
        reconciled(Seq::<Model>::empty(), seq![first, second], seen) == seq![
            Model::of_book(first, seen),
            Model::of_book(second, seen),
        ],
{
    let books = seq![first, second];
    let f = Model::of_book(first, seen);
    let s = Model::of_book(second, seen);
    let none = Seq::<Model>::empty();
    reveal_with_fuel(index_of, 3);
    reveal_with_fuel(with_books, 3);
    assert(books.drop_last() == seq![first]);
    assert(seq![first].drop_last() == Seq::<BookMeterBook>::empty());
    assert(with_books(none, seq![first], seen) == none.push(f));
    assert(none.push(f) == seq![f]);
    assert(seq![f].drop_first() == none);
    assert(!holds_id(seq![f], second.id as i64));
    assert(with_books(none, books, seen) == seq![f].push(s));
    assert(seq![f].push(s) == seq![f, s]);
    lemma_filter_pair(f, s, wished(books));
    assert(books[0].id == f.bookmeter_id);
    assert(books[1].id == s.bookmeter_id);
    assert(seq![f] + seq![s] == seq![f, s]);
}

proof fn lemma_index_pair(a: Model, b: Model)
    requires
        a.bookmeter_id != b.bookmeter_id,
    ensures
        index_of(seq![a, b], a.bookmeter_id) == 0,
        index_of(seq![a, b], b.bookmeter_id) == 1,
{
    reveal_with_fuel(index_of, 3);
    assert(seq![a, b].drop_first() == seq![b]);
}

proof fn lemma_query_both(a: Model, b: Model, filter: Filter)
    requires
        filter.accepts(a),
        filter.accepts(b),
    ensures
        queried(seq![a, b], filter, None, None) == seq![a, b],
{
    lemma_filter_pair(a, b, filter.pred());
    assert(seq![a] + seq![b] == seq![a, b]);
}

proof fn lemma_query_second(a: Model, b: Model, filter: Filter, order: Order, limit: Option<u64>)
    requires
        !filter.accepts(a),
        filter.accepts(b),
        limit matches Some(n) ==> n > 0,
    ensures
        queried(seq![a, b], filter, Some(order), limit) == seq![b],
{
    let none = Seq::<Model>::empty();
    lemma_filter_pair(a, b, filter.pred());
    assert(none + seq![b] == seq![b]);
    reveal_with_fuel(arranged, 3);
    reveal_with_fuel(placed, 2);
    assert(seq![b].drop_last() == none);
    assert(none.push(b) == seq![b]);
}

/// The first update of an empty catalog, where the wishlist holds two
/// books, the product page of the first has no button, and the second has
/// an e-book edition whose prices are read: the first book's row gets the
/// 30-day cooldown and neither edition nor prices; the second book's row
/// gets the edition, then the prices and their discount; the update is
/// through; and a ranking of whatever limit above 0 holds the second
/// book's row and no other.
pub proof fn lemma_first_update(
    start: UpdateView,
    first: BookMeterBook,
    second: BookMeterBook,
    seen: Timestamp,
    now: Timestamp,
    kindle_id: String,
    later: Timestamp,
    kindle: Kindle,
    last: Timestamp,
    limit: u64,
)
    requires
        start.stage == Stage::Crawling,
        start.rows.len() == 0,
        first.id != second.id,
        kindle.discount_rate.wf(),
        limit > 0,
    ensures
        ({
            let crawled = start.crawled(seq![first, second], seen);
            let cooled = crawled.kindle_id_read(
                Err::<String, KindleError>(KindleError::KindleButtonNotFound),
                now,
            );
            let resolved = cooled.kindle_id_read(Ok::<String, KindleError>(kindle_id), later);
            let priced = resolved.price_read(Ok::<Kindle, KindleError>(kindle), last);
            let one = Model::of_book(first, seen).with_cooldown(now);
            let two = Model::of_book(second, seen).with_kindle_id(kindle_id, later).with_pricing(
                kindle,
                last,
            );
            &&& crawled.rows == seq![Model::of_book(first, seen), Model::of_book(second, seen)]
            &&& crawled.expects() == (UpdateStep::FetchProductPage {
                bookmeter_id: first.id as i64,
                pause: start.interval,
            })
            &&& cooled.rows == seq![one, Model::of_book(second, seen)]
            &&& cooled.expects() == (UpdateStep::FetchProductPage {
                bookmeter_id: second.id as i64,
                pause: start.interval,
            })
            &&& resolved.expects() == (UpdateStep::FetchListing {
                bookmeter_id: second.id as i64,
                pause: start.interval,
            })
            &&& priced.stage == Stage::Done
            &&& priced.rows == seq![one, two]
            &&& one.kindle_id.is_none() && one.active_at == Some(
                Deadline { micros: (now.micros + COOLDOWN_MICROS) as i128 },
            ) && one.basis_price.is_none() && one.price.is_none() && one.discount_rate.is_none()
            &&& two.kindle_id == Some(kindle_id) && two.basis_price == Some(kindle.basis_price)
                && two.price == Some(kindle.price) && two.discount_rate == Some(
                kindle.discount_rate,
            )
            &&& queried(priced.rows, Filter::Priced, Some(Order::BestDiscount), Some(limit))
                == seq![two]
        }),
{
    let books = seq![first, second];
    let f = Model::of_book(first, seen);
    let s = Model::of_book(second, seen);
    let one = f.with_cooldown(now);
    let found = s.with_kindle_id(kindle_id, later);
    let two = found.with_pricing(kindle, last);
    assert(start.rows == Seq::<Model>::empty());
    lemma_reconcile_pair(first, second, seen);
    lemma_query_both(f, s, Filter::AwaitingKindleId(seen));
    let crawled = start.crawled(books, seen);
    assert(crawled == UpdateView {
        stage: Stage::Resolving,
        rows: seq![f, s],
        targets: seq![f, s],
        next: 0,
        ..start
    });
    lemma_index_pair(f, s);
    assert(seq![f, s].update(0, one) == seq![one, s]);
    let cooled = crawled.kindle_id_read(
        Err::<String, KindleError>(KindleError::KindleButtonNotFound),
        now,
    );
    assert(cooled == UpdateView { rows: seq![one, s], next: 1, ..crawled });
    lemma_index_pair(one, s);
    assert(seq![one, s].update(1, found) == seq![one, found]);
    lemma_query_second(one, found, Filter::WithKindleId, Order::OldestFirst, None);
    let resolved = cooled.kindle_id_read(Ok::<String, KindleError>(kindle_id), later);
    assert(resolved == UpdateView {
        stage: Stage::Pricing,
        rows: seq![one, found],
        targets: seq![found],
        next: 0,
        ..start
    });
    lemma_index_pair(one, found);
    assert(seq![one, found].update(1, two) == seq![one, two]);
    let priced = resolved.price_read(Ok::<Kindle, KindleError>(kindle), last);
    assert(priced.rows == seq![one, two]);
    lemma_query_second(one, two, Filter::Priced, Order::BestDiscount, Some(limit));
}

/// An update only moves forward: whatever it is told, it stays in its
/// stage or goes on to a later one, it fails only while it reads the
/// wishlist, and once through or failed it stays so and leaves the catalog
/// alone. A well-formed update stays well formed, and asks for something as
/// long as it is neither through nor failed.
pub proof fn lemma_update_moves_forward(
    update: UpdateView,
    books: Seq<BookMeterBook>,
    found: Result<String, KindleError>,
    priced: Result<Kindle, KindleError>,
    refused: i64,
    now: Timestamp,
)
    requires
        update.wf(),
    ensures
        ({
            let crawled = update.crawled(books, now);
            let failed = update.crawl_failed();
            let resolved = update.kindle_id_read(found, now);
            let read = update.price_read(priced, now);
            let taken_back = update.insert_refused(refused);
            &&& crawled.wf() && failed.wf() && resolved.wf() && read.wf() && taken_back.wf()
            &&& update.stage.progress() <= taken_back.stage.progress()
            &&& taken_back.stage != Stage::Failed || update.stage == Stage::Failed
            &&& update.expects() is Done ==> taken_back == update
            &&& update.stage.progress() <= crawled.stage.progress()
            &&& update.stage.progress() <= failed.stage.progress()
            &&& update.stage.progress() <= resolved.stage.progress()
            &&& update.stage.progress() <= read.stage.progress()
            &&& crawled.stage != Stage::Failed || update.stage == Stage::Failed
            &&& resolved.stage != Stage::Failed || update.stage == Stage::Failed
            &&& read.stage != Stage::Failed || update.stage == Stage::Failed
            &&& failed.stage == Stage::Failed <==> update.stage == Stage::Crawling || update.stage
                == Stage::Failed
            &&& failed.rows == update.rows
            &&& update.expects() is Done <==> update.stage == Stage::Done || update.stage
                == Stage::Failed
            &&& update.expects() is Done ==> crawled == update && failed == update && resolved
                == update && read == update
        }),
{
}

impl BookMeterDiscounts {
    /// Begins an update.
    pub fn update_discounts(self) -> (update: Update)
        ensures
            update.discounts == self,
            update@.stage == Stage::Crawling,
            update@.expects() == UpdateStep::Crawl,
            update@.targets.len() == 0,
            update@.next == 0,
    {
        Update { discounts: self, stage: Stage::Crawling, targets: Vec::new(), next: 0 }
    }
}

impl Update {
    /// Executable form of [`UpdateView::expects`].
    pub fn next_step(&self) -> (step: UpdateStep)
        ensures
            step == self@.expects(),
    {
        match self.stage {
            Stage::Crawling => UpdateStep::Crawl,
            Stage::Resolving => if self.next < self.targets.len() {
                UpdateStep::FetchProductPage {
                    bookmeter_id: self.targets[self.next].bookmeter_id,
                    pause: self.discounts.get_amazon_page_interval,
                }
            } else {
                UpdateStep::Done
            },
            Stage::Pricing => if self.next < self.targets.len() {
                UpdateStep::FetchListing {
                    bookmeter_id: self.targets[self.next].bookmeter_id,
                    pause: self.discounts.get_amazon_page_interval,
                }
            } else {
                UpdateStep::Done
            },
            Stage::Done => UpdateStep::Done,
            Stage::Failed => UpdateStep::Done,
        }
    }

    /// The row that the update is working on, as it was when the stage
    /// began.
    pub fn target(&self) -> (row: Option<&Model>)
        ensures
            row == (if (self@.stage == Stage::Resolving || self@.stage == Stage::Pricing)
                && self@.next < self@.targets.len() {
                Some(&self@.targets[self@.next])
            } else {
                None
            }),
    {
        match self.stage {
            Stage::Resolving | Stage::Pricing => if self.next < self.targets.len() {
                Some(&self.targets[self.next])
            } else {
                None
            },
            _ => None,
        }
    }

    fn begin_pricing(&mut self)
        ensures
            final(self)@ == old(self)@.pricing(old(self)@.rows),
            final(self).discounts == old(self).discounts,
    {
        let targets = self.discounts.price_targets();
        self.next = 0;
        if targets.len() > 0 {
            self.stage = Stage::Pricing;
            self.targets = targets;
        } else {
            self.stage = Stage::Done;
            self.targets = Vec::new();
        }
    }

    /// Tells the update the books that the wishlist held at `now`. The
    /// catalog is brought in line with them, and the stages that follow
    /// begin. Hands out what was added and deleted.
    pub fn crawled(&mut self, books: &Vec<BookMeterBook>, now: Timestamp) -> (changes: Result<
        Reconciliation,
        Unexpected,
    >)
        ensures
            final(self)@ == old(self)@.crawled(books@, now),
            changes.is_ok() == (old(self)@.stage == Stage::Crawling),
            changes matches Ok(changes) ==> changes.inserted@ == with_books(
                old(self)@.rows,
                books@,
                now,
            ).skip(old(self)@.rows.len() as int) && changes.deleted@ == old(self)@.rows.filter(
                unwished(books@),
            ),
            changes.is_err() ==> *final(self) == *old(self),
            old(self).discounts.db.wf() ==> final(self).discounts.db.wf(),
            final(self).discounts.user_id == old(self).discounts.user_id,
    {
        match self.stage {
            Stage::Crawling => {},
            _ => {
                return Err(Unexpected);
            },
        }
        let changes = self.discounts.reconcile(books, now);
        let targets = self.discounts.kindle_id_targets(now);
        if targets.len() > 0 {
            self.stage = Stage::Resolving;
            self.targets = targets;
            self.next = 0;
        } else {
            self.begin_pricing();
        }
        Ok(changes)
    }

    /// Tells the update that the wishlist could not be read. The update
    /// fails, and the catalog stays as it is.
    pub fn crawl_failed(&mut self) -> (told: Result<(), Unexpected>)
        ensures
            final(self)@ == old(self)@.crawl_failed(),
            told.is_ok() == (old(self)@.stage == Stage::Crawling),
            final(self).discounts == old(self).discounts,
            told.is_err() ==> *final(self) == *old(self),
    {
        match self.stage {
            Stage::Crawling => {
                self.stage = Stage::Failed;
                Ok(())
            },
            _ => Err(Unexpected),
        }
    }

    /// Tells the update that the store refused the row `id`, which the
    /// update had added. The row leaves the catalog and the rows still to be
    /// looked up, so that nothing is fetched for it.
    pub fn insert_refused(&mut self, id: i64) -> (told: Result<(), Unexpected>)
        ensures
            final(self)@ == old(self)@.insert_refused(id),
            told.is_ok() == old(self)@.awaits(id),
            told.is_err() ==> *final(self) == *old(self),
            old(self).discounts.db.wf() ==> final(self).discounts.db.wf(),
            final(self).discounts.user_id == old(self).discounts.user_id,
    {
        match self.stage {
            Stage::Resolving => {},
            _ => {
                return Err(Unexpected);
            },
        }
        if self.next > self.targets.len() {
            return Err(Unexpected);
        }
        let ghost all = self.targets@;
        let ghost rest = all.skip(self.next as int);
        let mut kept: Vec<Model> = Vec::new();
        let mut i: usize = 0;
        while i < self.next
            invariant
                i <= self.next <= self.targets.len(),
                self.targets@ == all,
                kept@ == all.take(i as int),
            decreases self.next - i,
        {
            kept.push(self.targets[i].clone());
            assert(all.take(i + 1) == all.take(i as int).push(all[i as int]));
            i += 1;
        }
        let mut found = false;
        proof {
            reveal(Seq::filter);
            assert(rest.take(0) == Seq::<Model>::empty());
            assert(all.take(self.next as int) + Seq::<Model>::empty() == all.take(
                self.next as int,
            ));
        }
        while i < self.targets.len()
            invariant
                self.next <= i <= self.targets.len(),
                self.targets@ == all,
                rest == all.skip(self.next as int),
                kept@ == all.take(self.next as int) + rest.take(i - self.next).filter(
                    other_than(id),
                ),
                found <==> exists|k: int|
                    self.next <= k < i && (#[trigger] all[k]).bookmeter_id == id,
            decreases self.targets.len() - i,
        {
            proof {
                let seen = rest.take(i - self.next);
                assert(rest.take(i - self.next + 1) == seen.push(all[i as int]));
                seen.lemma_filter_push(all[i as int], other_than(id));
                assert(all.take(self.next as int) + seen.filter(other_than(id)).push(
                    all[i as int],
                ) == (all.take(self.next as int) + seen.filter(other_than(id))).push(
                    all[i as int],
                ));
            }
            if self.targets[i].bookmeter_id != id {
                kept.push(self.targets[i].clone());
            } else {
                found = true;
            }
            i += 1;
        }
        assert(rest.take(self.targets.len() - self.next) == rest);
        if !found {
            return Err(Unexpected);
        }
        self.discounts.db.delete(id);
        if self.next < kept.len() {
            self.targets = kept;
        } else {
            self.begin_pricing();
        }
        Ok(())
    }

    /// Tells the update how the search for the e-book edition that it
    /// asked for ended. Hands out the row where one was written.
    pub fn kindle_id_read(
        &mut self,
        outcome: Result<String, KindleError>,
        now: Timestamp,
    ) -> (written: Result<Option<Model>, Unexpected>)
        ensures
            final(self)@ == old(self)@.kindle_id_read(outcome, now),
            written.is_ok() == (old(self)@.expects() is FetchProductPage),
            written matches Ok(row) ==> ({
                let id = old(self)@.expects()->FetchProductPage_bookmeter_id;
                let rows = old(self)@.rows;
                row == old(self)@.written(
                    final(self)@,
                    id,
                    holds_id(rows, id) && rows[index_of(rows, id)].kindle_id.is_none() && (
                    outcome is Ok || outcome == Err::<String, KindleError>(
                        KindleError::KindleButtonNotFound,
                    )),
                )
            }),
            written matches Ok(Some(row)) ==> final(self)@.rows.contains(row) && row.bookmeter_id
                == old(self)@.expects()->FetchProductPage_bookmeter_id,
            written matches Ok(None) ==> final(self)@.rows == old(self)@.rows,
            written.is_err() ==> *final(self) == *old(self),
            old(self).discounts.db.wf() ==> final(self).discounts.db.wf(),
            final(self).discounts.user_id == old(self).discounts.user_id,
    {
        match self.stage {
            Stage::Resolving => {},
            _ => {
                return Err(Unexpected);
            },
        }
        if self.next >= self.targets.len() {
            return Err(Unexpected);
        }
        let id = self.targets[self.next].bookmeter_id;
        proof {
            lemma_index_of(self.discounts.db@, id);
        }
        let written = self.discounts.record_kindle_id(id, outcome, now);
        if self.next + 1 < self.targets.len() {
            self.next = self.next + 1;
        } else {
            self.begin_pricing();
        }
        Ok(written)
    }

    /// Tells the update what asking for the prices brought. Hands out the
    /// row where one was written.
    pub fn price_read(
        &mut self,
        outcome: Result<Kindle, KindleError>,
        now: Timestamp,
    ) -> (written: Result<Option<Model>, Unexpected>)
        ensures
            final(self)@ == old(self)@.price_read(outcome, now),
            written.is_ok() == (old(self)@.expects() is FetchListing),
            written matches Ok(row) ==> ({
                let id = old(self)@.expects()->FetchListing_bookmeter_id;
                let rows = old(self)@.rows;
                row == old(self)@.written(
                    final(self)@,
                    id,
                    outcome matches Ok(kindle) && holds_id(rows, id) && rows[index_of(
                        rows,
                        id,
                    )].kindle_id.is_some() && kindle.discount_rate.wf(),
                )
            }),
            written matches Ok(Some(row)) ==> final(self)@.rows.contains(row) && row.priced()
                && row.bookmeter_id == old(self)@.expects()->FetchListing_bookmeter_id,
            written matches Ok(None) ==> final(self)@.rows == old(self)@.rows,
            written.is_err() ==> *final(self) == *old(self),
            old(self).discounts.db.wf() ==> final(self).discounts.db.wf(),
            final(self).discounts.user_id == old(self).discounts.user_id,
    {
        match self.stage {
            Stage::Pricing => {},
            _ => {
                return Err(Unexpected);
            },
        }
        if self.next >= self.targets.len() {
            return Err(Unexpected);
        }
        let id = self.targets[self.next].bookmeter_id;
        proof {
            lemma_index_of(self.discounts.db@, id);
        }
        let written = self.discounts.record_price(id, outcome, now);
        if self.next + 1 < self.targets.len() {
            self.next = self.next + 1;
        } else {
            self.stage = Stage::Done;
            self.targets = Vec::new();
            self.next = 0;
        }
        Ok(written)
    }

    /// The report of an update that is through: the ranking's first
    /// [`REPORT_LIMIT`] rows. An update that failed or is under way reports
    /// nothing.
    pub fn report(&self) -> (rows: Option<Vec<Model>>)
        ensures
            self@.stage != Stage::Done ==> rows.is_none(),
            self@.stage == Stage::Done ==> (rows matches Some(rows) && rows@ == queried(
                self@.rows,
                Filter::Priced,
                Some(Order::BestDiscount),
                Some(REPORT_LIMIT),
            )),
    {
        match self.stage {
            Stage::Done => Some(self.discounts.get_discounts(Some(REPORT_LIMIT))),
            _ => None,
        }
    }

    /// Ends the update and hands the catalog back.
    pub fn into_discounts(self) -> (discounts: BookMeterDiscounts)
        ensures
            discounts == self.discounts,
    {
        self.discounts
    }
}

} // verus!
