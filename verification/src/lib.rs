//! Tracks a reading-site wishlist against an e-book storefront: which wished
//! books have a storefront listing, what that listing costs today, and which
//! of them carry the largest discounts.
//!
//! The library decides and computes; it fetches and stores nothing. An update
//! runs as a conversation: [`update::Update`] says what to fetch, its caller
//! fetches it and tells what came back, and each answer names the rows to
//! write.

pub mod address;
pub mod bookmeter;
pub mod catalog;
pub mod crawl;
pub mod html;
pub mod kindle;
pub mod model;
pub mod query;
pub mod reconcile;
pub mod sort;
pub mod text;
pub mod update;

use vstd::prelude::*;
use crate::bookmeter::{BookMeterBook, BookMeterClient};
use crate::catalog::{
    holds_id, index_of, lemma_index_of, queried, Catalog, Filter, Reconciliation,
};
use crate::kindle::{Kindle, KindleError};
use crate::model::{Model, Timestamp};
use crate::reconcile::reconciled;
use crate::sort::Order;
use crate::text::{parse_u32, parsed_u32};

verus! {

/// How many rows a ranking holds where no limit is asked for.
pub const DEFAULT_LIMIT: u64 = 50;

/// The discounts on one reader's wished books.
#[derive(Debug)]
pub struct BookMeterDiscounts {
    /// The reader, as the wishlist site names them.
    pub user_id: String,
    /// The catalog of the reader's wished books.
    pub db: Catalog,
    /// How long to wait before each fetch from the storefront and from the
    /// price listing, in seconds.
    pub get_amazon_page_interval: u64,
}

/// The catalog after the search for the e-book edition of book `id` ended
/// in `outcome` at `now`: an edition found is noted; a product page without
/// the button starts a cooldown of 30 days; any other failure changes
/// nothing. Nor does anything change for a book whose edition is known.
pub open spec fn kindle_id_noted(
    rows: Seq<Model>,
    id: i64,
    outcome: Result<String, KindleError>,
    now: Timestamp,
) -> Seq<Model> {
    let at = index_of(rows, id);
    if holds_id(rows, id) && rows[at].kindle_id.is_none() {
        match outcome {
            Ok(kindle_id) => rows.update(at, rows[at].with_kindle_id(kindle_id, now)),
            Err(KindleError::KindleButtonNotFound) => rows.update(at, rows[at].with_cooldown(now)),
            Err(_) => rows,
        }
    } else {
        rows
    }
}

/// The catalog after the prices of book `id` were asked for at `now` with
/// `outcome`: prices that were read are noted, all three fields at once; a
/// failure changes nothing. Nor does anything change for a book without an
/// e-book edition.
pub open spec fn price_noted(
    rows: Seq<Model>,
    id: i64,
    outcome: Result<Kindle, KindleError>,
    now: Timestamp,
) -> Seq<Model> {
    let at = index_of(rows, id);
    match outcome {
        Ok(kindle) => if holds_id(rows, id) && rows[at].kindle_id.is_some()
            && kindle.discount_rate.wf() {
            rows.update(at, rows[at].with_pricing(kindle, now))
        } else {
            rows
        },
        Err(_) => rows,
    }
}

/// Noting an outcome touches one row at most and moves none: every other
/// row stays as it is, no row changes its identifier, and an e-book edition
/// that is known stays the edition of its book.
pub proof fn lemma_noting_keeps(
    rows: Seq<Model>,
    id: i64,
    found: Result<String, KindleError>,
    priced: Result<Kindle, KindleError>,
    now: Timestamp,
    i: int,
)
    requires
        0 <= i < rows.len(),
    ensures
        kindle_id_noted(rows, id, found, now).len() == rows.len(),
        price_noted(rows, id, priced, now).len() == rows.len(),
        kindle_id_noted(rows, id, found, now)[i].bookmeter_id == rows[i].bookmeter_id,
        price_noted(rows, id, priced, now)[i].bookmeter_id == rows[i].bookmeter_id,
        rows[i].kindle_id.is_some() ==> kindle_id_noted(rows, id, found, now)[i] == rows[i],
        price_noted(rows, id, priced, now)[i].kindle_id == rows[i].kindle_id,
        i != index_of(rows, id) ==> kindle_id_noted(rows, id, found, now)[i] == rows[i]
            && price_noted(rows, id, priced, now)[i] == rows[i],
{
    lemma_index_of(rows, id);
}

impl BookMeterDiscounts {
    pub fn new(user_id: &str, db: Catalog, get_amazon_page_interval: u64) -> (discounts: Self)
        ensures
            discounts.user_id@ == user_id@,
            discounts.db == db,
            discounts.get_amazon_page_interval == get_amazon_page_interval,
    {
        BookMeterDiscounts { user_id: user_id.to_owned(), db, get_amazon_page_interval }
    }

    /// The reader's wishlist on the wishlist site; none where the reader's
    /// name is not the number by which the site knows its readers.
    pub fn client(&self) -> (client: Option<BookMeterClient>)
        ensures
            client == (match parsed_u32(self.user_id@) {
                Some(user_id) => Some(BookMeterClient { user_id }),
                None => None,
            }),
    {
        match parse_u32(self.user_id.as_str()) {
            Some(user_id) => Some(BookMeterClient::new(user_id)),
            None => None,
        }
    }

    /// Brings the catalog in line with the wishlist as read at `now`.
    pub fn reconcile(&mut self, books: &Vec<BookMeterBook>, now: Timestamp) -> (changes:
        Reconciliation)
        ensures
            final(self).db@ == reconciled(old(self).db@, books@, now),
            changes.inserted@ == crate::reconcile::with_books(old(self).db@, books@, now).skip(
                old(self).db@.len() as int,
            ),
            changes.deleted@ == old(self).db@.filter(crate::reconcile::unwished(books@)),
            old(self).db.wf() ==> final(self).db.wf(),
            final(self).user_id == old(self).user_id,
            final(self).get_amazon_page_interval == old(self).get_amazon_page_interval,
    {
        self.db.reconcile(books, now)
    }

    /// The rows whose e-book edition is to be looked for at `now`, in the
    /// catalog's order.
    pub fn kindle_id_targets(&self, now: Timestamp) -> (rows: Vec<Model>)
        ensures
            rows@ == queried(self.db@, Filter::AwaitingKindleId(now), None, None),
    {
        self.db.find_where(Filter::AwaitingKindleId(now), None, None)
    }

    /// The rows whose prices are to be read: those with an e-book edition,
    /// the one written longest ago first.
    pub fn price_targets(&self) -> (rows: Vec<Model>)
        ensures
            rows@ == queried(self.db@, Filter::WithKindleId, Some(Order::OldestFirst), None),
    {
        self.db.find_where(Filter::WithKindleId, Some(Order::OldestFirst), None)
    }

    /// Notes how the search for the e-book edition of book `id` ended, and
    /// hands out the row where one was written.
    pub fn record_kindle_id(
        &mut self,
        id: i64,
        outcome: Result<String, KindleError>,
        now: Timestamp,
    ) -> (written: Option<Model>)
        ensures
            final(self).db@ == kindle_id_noted(old(self).db@, id, outcome, now),
            written == (if holds_id(old(self).db@, id) && old(self).db@[index_of(
                old(self).db@,
                id,
            )].kindle_id.is_none() && (outcome is Ok || outcome == Err::<String, KindleError>(
                KindleError::KindleButtonNotFound,
            )) {
                Some(final(self).db@[index_of(old(self).db@, id)])
            } else {
                None
            }),
            old(self).db.wf() ==> final(self).db.wf(),
            final(self).user_id == old(self).user_id,
            final(self).get_amazon_page_interval == old(self).get_amazon_page_interval,
    {
        proof {
            lemma_index_of(self.db@, id);
        }
        match outcome {
            Ok(kindle_id) => self.db.set_kindle_id(id, kindle_id, now),
            Err(KindleError::KindleButtonNotFound) => self.db.set_cooldown(id, now),
            Err(_) => None,
        }
    }

    /// Notes what asking for the prices of book `id` brought, and hands out
    /// the row where one was written.
    pub fn record_price(
        &mut self,
        id: i64,
        outcome: Result<Kindle, KindleError>,
        now: Timestamp,
    ) -> (written: Option<Model>)
        ensures
            final(self).db@ == price_noted(old(self).db@, id, outcome, now),
            written == (if outcome matches Ok(kindle) && holds_id(old(self).db@, id) && old(
                self,
            ).db@[index_of(old(self).db@, id)].kindle_id.is_some() && kindle.discount_rate.wf() {
                Some(final(self).db@[index_of(old(self).db@, id)])
            } else {
                None
            }),
            written matches Some(row) ==> row.priced() && row.discount_rate == Some(
                outcome->Ok_0.discount_rate,
            ),
            old(self).db.wf() ==> final(self).db.wf(),
            final(self).user_id == old(self).user_id,
            final(self).get_amazon_page_interval == old(self).get_amazon_page_interval,
    {
        proof {
            lemma_index_of(self.db@, id);
        }
        match outcome {
            Ok(kindle) => self.db.set_pricing(id, kindle, now),
            Err(_) => None,
        }
    }

    /// The ranking: the rows with prices and discount, the largest
    /// discount first, then the higher current price, then the title that
    /// comes first; of these the first `limit`, or [`DEFAULT_LIMIT`] where
    /// none is given. The catalog is left as it is.
    pub fn get_discounts(&self, limit: Option<u64>) -> (rows: Vec<Model>)
        ensures
            rows@ == queried(
                self.db@,
                Filter::Priced,
                Some(Order::BestDiscount),
                Some(
                    match limit {
                        Some(n) => n,
                        None => DEFAULT_LIMIT,
                    },
                ),
            ),
    {
        let limit = match limit {
            Some(n) => n,
            None => DEFAULT_LIMIT,
        };
        self.db.find_where(Filter::Priced, Some(Order::BestDiscount), Some(limit))
    }
}

} // verus!
