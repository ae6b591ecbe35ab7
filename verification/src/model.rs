//! One catalog row per wished book, and the values a row is made of.

use vstd::prelude::*;
use crate::bookmeter::BookMeterBook;
use crate::kindle::Kindle;
use crate::text::{lex_le, lex_lt, lemma_lex_total, lemma_lex_transitive, precedes};

verus! {

/// A point in time: microseconds since the Unix epoch, UTC.
#[derive(Clone, Copy, Debug, PartialEq, Eq, Structural)]
pub struct Timestamp {
    pub micros: i64,
}

/// How long a book without an e-book edition is left alone: 30 days, in
/// microseconds.
pub const COOLDOWN_MICROS: i64 = 2_592_000_000_000;

/// The end of a cooldown, in microseconds since the Unix epoch, UTC. It is
/// wide enough to lie 30 days after any [`Timestamp`].
#[derive(Clone, Copy, Debug, PartialEq, Eq, Structural)]
pub struct Deadline {
    pub micros: i128,
}

impl Timestamp {
    /// The moment 30 days after `self`.
    pub open spec fn cooldown_end(self) -> int {
        self.micros + COOLDOWN_MICROS
    }

    /// The moment 30 days after `self`.
    pub fn after_cooldown(self) -> (end: Deadline)
        ensures
            end.micros == self.cooldown_end(),
    {
        Deadline { micros: self.micros as i128 + COOLDOWN_MICROS as i128 }
    }
}

impl Deadline {
    /// Whether the cooldown has run out at `now`.
    pub open spec fn reached(self, now: Timestamp) -> bool {
        self.micros <= now.micros
    }

    /// Executable form of [`Deadline::reached`].
    pub fn is_reached(&self, now: Timestamp) -> (r: bool)
        ensures
            r == self.reached(now),
    {
        self.micros <= now.micros as i128
    }
}

/// A discount as an exact fraction of the list price: `numerator /
/// denominator`, so that 3/20 is 15% off. Neither below 0 nor above 1 is
/// excluded.
#[derive(Clone, Copy, Debug, PartialEq, Eq, Structural)]
pub struct DiscountRate {
    pub numerator: i64,
    pub denominator: u32,
}

impl DiscountRate {
    /// A fraction needs a positive denominator.
    pub open spec fn wf(self) -> bool {
        self.denominator > 0
    }

    /// The discount on an item listed at `basis` and sold at `price` with
    /// `point` handed back: `1 - (price - point) / basis`, as a fraction over
    /// `basis`.
    pub open spec fn of_prices(basis: u32, price: u32, point: u32) -> DiscountRate {
        DiscountRate { numerator: (basis - (price - point)) as i64, denominator: basis }
    }

    /// Whether this fraction is the number `n / d`.
    pub open spec fn is_ratio(self, n: int, d: int) -> bool {
        self.numerator * d == n * self.denominator
    }

    /// Whether `self` is a strictly larger fraction than `other`.
    pub open spec fn gt(self, other: DiscountRate) -> bool {
        self.numerator * other.denominator > other.numerator * self.denominator
    }

    /// Whether the two fractions are the same number.
    pub open spec fn same(self, other: DiscountRate) -> bool {
        self.numerator * other.denominator == other.numerator * self.denominator
    }

    /// The discount for the three amounts; none for a list price of 0, where
    /// the fraction has no value.
    pub fn from_prices(basis: u32, price: u32, point: u32) -> (rate: Option<DiscountRate>)
        ensures
            basis == 0 ==> rate.is_none(),
            basis > 0 ==> rate == Some(DiscountRate::of_prices(basis, price, point)),
            rate matches Some(r) ==> r.wf() && r.numerator == basis - (price - point) && r.is_ratio(
                basis - (price - point),
                basis as int,
            ),
    {
        if basis == 0 {
            None
        } else {
            let numerator: i64 = basis as i64 - (price as i64 - point as i64);
            Some(DiscountRate { numerator, denominator: basis })
        }
    }

    /// Executable form of [`DiscountRate::gt`].
    pub fn exceeds(&self, other: &DiscountRate) -> (r: bool)
        ensures
            r == self.gt(*other),
    {
        proof {
            lemma_product_fits(self.numerator as int, other.denominator as int);
            lemma_product_fits(other.numerator as int, self.denominator as int);
        }
        let left: i128 = self.numerator as i128 * other.denominator as i128;
        let right: i128 = other.numerator as i128 * self.denominator as i128;
        left > right
    }
}

/// Fractions compare as numbers do: larger and equal carry over from one
/// pair of fractions to the next.
pub proof fn lemma_rates_in_line(a: DiscountRate, b: DiscountRate, c: DiscountRate)
    requires
        a.wf(),
        b.wf(),
        c.wf(),
    ensures
        a.gt(b) || a.same(b) || b.gt(a),
        !(a.gt(b) && b.gt(a)),
        a.gt(b) && (b.gt(c) || b.same(c)) ==> a.gt(c),
        a.same(b) && b.gt(c) ==> a.gt(c),
        a.same(b) && b.same(c) ==> a.same(c),
{
    let (an, ad) = (a.numerator as int, a.denominator as int);
    let (bn, bd) = (b.numerator as int, b.denominator as int);
    let (cn, cd) = (c.numerator as int, c.denominator as int);
    assert((an * bd >= bn * ad && bn * cd >= cn * bd) ==> an * cd >= cn * ad) by (nonlinear_arith)
        requires
            ad > 0,
            bd > 0,
            cd > 0,
    {
        if an * bd >= bn * ad && bn * cd >= cn * bd {
            assert(an * bd * cd >= bn * ad * cd);
            assert(bn * cd * ad >= cn * bd * ad);
            assert((an * cd - cn * ad) * bd >= 0);
        }
    }
    assert((an * bd > bn * ad && bn * cd >= cn * bd) ==> an * cd > cn * ad) by (nonlinear_arith)
        requires
            ad > 0,
            bd > 0,
            cd > 0,
    {
        if an * bd > bn * ad && bn * cd >= cn * bd {
            assert(an * bd * cd > bn * ad * cd);
            assert(bn * cd * ad >= cn * bd * ad);
            assert((an * cd - cn * ad) * bd > 0);
        }
    }
    assert((an * bd >= bn * ad && bn * cd > cn * bd) ==> an * cd > cn * ad) by (nonlinear_arith)
        requires
            ad > 0,
            bd > 0,
            cd > 0,
    {
        if an * bd >= bn * ad && bn * cd > cn * bd {
            assert(an * bd * cd >= bn * ad * cd);
            assert(bn * cd * ad > cn * bd * ad);
            assert((an * cd - cn * ad) * bd > 0);
        }
    }
    assert((an * bd <= bn * ad && bn * cd <= cn * bd) ==> an * cd <= cn * ad) by (nonlinear_arith)
        requires
            ad > 0,
            bd > 0,
            cd > 0,
    {
        if an * bd <= bn * ad && bn * cd <= cn * bd {
            assert(an * bd * cd <= bn * ad * cd);
            assert(bn * cd * ad <= cn * bd * ad);
            assert((an * cd - cn * ad) * bd <= 0);
        }
    }
}

proof fn lemma_product_fits(n: int, d: int)
    requires
        -0x8000_0000_0000_0000 <= n < 0x8000_0000_0000_0000,
        0 <= d < 0x1_0000_0000,
    ensures
        -0x8000_0000_0000_0000_0000_0000 <= n * d < 0x8000_0000_0000_0000_0000_0000,
{
    assert(-0x8000_0000_0000_0000 * d <= n * d <= 0x8000_0000_0000_0000 * d) by (nonlinear_arith)
        requires
            -0x8000_0000_0000_0000 <= n < 0x8000_0000_0000_0000,
            0 <= d,
    ;
}

/// One row of the catalog: a wished book and what is known of its e-book.
#[derive(Debug, PartialEq, Eq)]
pub struct Model {
    /// The wishlist site's identifier of the book; the key of the row.
    pub bookmeter_id: i64,
    /// The storefront page noted when the book was first seen.
    pub amazon_url: String,
    /// The storefront's identifier of the e-book edition, once found.
    pub kindle_id: Option<String>,
    pub title: String,
    /// The list price.
    pub basis_price: Option<u32>,
    /// The current price.
    pub price: Option<u32>,
    pub discount_rate: Option<DiscountRate>,
    /// While this lies in the future, no one looks for the e-book edition.
    pub active_at: Option<Deadline>,
    /// When the row was last written.
    pub updated_at: Timestamp,
}

impl Clone for Model {
    fn clone(&self) -> (row: Self)
        ensures
            row == *self,
    {
        Model {
            bookmeter_id: self.bookmeter_id,
            amazon_url: self.amazon_url.clone(),
            kindle_id: match &self.kindle_id {
                Some(id) => Some(id.clone()),
                None => None,
            },
            title: self.title.clone(),
            basis_price: self.basis_price,
            price: self.price,
            discount_rate: self.discount_rate,
            active_at: self.active_at,
            updated_at: self.updated_at,
        }
    }
}

impl Model {
    /// Whether list price, current price and discount are all known.
    pub open spec fn priced(self) -> bool {
        self.basis_price.is_some() && self.price.is_some() && self.discount_rate.is_some()
    }

    /// The three pricing fields are set together or not at all, and a
    /// discount that is set is a fraction.
    pub open spec fn wf(self) -> bool {
        &&& self.discount_rate.is_some() <==> (self.basis_price.is_some() && self.price.is_some())
        &&& self.basis_price.is_some() <==> self.price.is_some()
        &&& self.discount_rate matches Some(rate) ==> rate.wf()
    }

    /// Whether the e-book edition of this book is to be looked for at `now`:
    /// it is not known yet, and no cooldown runs past `now`.
    pub open spec fn awaits_kindle_id(self, now: Timestamp) -> bool {
        self.kindle_id.is_none() && (self.active_at matches Some(until) ==> until.reached(now))
    }

    /// The row made for a book that the catalog does not hold yet.
    pub open spec fn of_book(book: BookMeterBook, now: Timestamp) -> Model {
        Model {
            bookmeter_id: book.id as i64,
            amazon_url: book.amazon_url,
            kindle_id: None,
            title: book.title,
            basis_price: None,
            price: None,
            discount_rate: None,
            active_at: None,
            updated_at: now,
        }
    }

    /// The row once the e-book edition has been found.
    pub open spec fn with_kindle_id(self, kindle_id: String, now: Timestamp) -> Model {
        Model { kindle_id: Some(kindle_id), updated_at: now, ..self }
    }

    /// The row once its product page has shown no e-book edition: left
    /// alone until 30 days after `now`.
    pub open spec fn with_cooldown(self, now: Timestamp) -> Model {
        Model {
            active_at: Some(Deadline { micros: now.cooldown_end() as i128 }),
            updated_at: now,
            ..self
        }
    }

    /// The row once the e-book's prices have been read.
    pub open spec fn with_pricing(self, kindle: Kindle, now: Timestamp) -> Model {
        Model {
            basis_price: Some(kindle.basis_price),
            price: Some(kindle.price),
            discount_rate: Some(kindle.discount_rate),
            updated_at: now,
            ..self
        }
    }

    /// Prices come whole: a row as a book first gets it has none of the
    /// three pricing fields, a row whose prices were read has all of them, and
    /// both are consistent.
    pub proof fn lemma_priced_whole(
        self,
        book: BookMeterBook,
        kindle_id: String,
        kindle: Kindle,
        now: Timestamp,
    )
        requires
            kindle.discount_rate.wf(),
        ensures
            !Model::of_book(book, now).priced(),
            Model::of_book(book, now).wf(),
            self.with_pricing(kindle, now).priced(),
            self.with_pricing(kindle, now).wf(),
            self.wf() ==> self.with_kindle_id(kindle_id, now).wf() && self.with_cooldown(now).wf(),
            self.wf() ==> (self.discount_rate.is_some() <==> self.basis_price.is_some()
                && self.price.is_some()),
    {
    }

    /// Executable form of [`Model::wf`].
    pub fn is_wf(&self) -> (r: bool)
        ensures
            r == self.wf(),
    {
        match self.discount_rate {
            Some(rate) => rate.denominator > 0 && self.basis_price.is_some()
                && self.price.is_some(),
            None => self.basis_price.is_none() && self.price.is_none(),
        }
    }

    /// Executable form of [`Model::of_book`].
    pub fn from_book(book: &BookMeterBook, now: Timestamp) -> (row: Model)
        ensures
            row == Model::of_book(*book, now),
            row.wf(),
    {
        Model {
            bookmeter_id: book.id as i64,
            amazon_url: book.amazon_url.clone(),
            kindle_id: None,
            title: book.title.clone(),
            basis_price: None,
            price: None,
            discount_rate: None,
            active_at: None,
            updated_at: now,
        }
    }

    /// Whether `self` stands strictly ahead of `other` among the priced
    /// rows: by the larger discount, then the higher current price, then the
    /// title that comes first.
    pub open spec fn outranks(self, other: Model) -> bool {
        &&& self.priced()
        &&& other.priced()
        &&& {
            let mine = self.discount_rate.unwrap();
            let theirs = other.discount_rate.unwrap();
            ||| mine.gt(theirs)
            ||| mine.same(theirs) && self.price.unwrap() > other.price.unwrap()
            ||| mine.same(theirs) && self.price.unwrap() == other.price.unwrap() && lex_lt(
                self.title@,
                other.title@,
            )
        }
    }

    /// Whether `self` may stand directly before `other` in a ranking: its
    /// discount is larger; or equal, and its current price higher; or both
    /// equal, and its title no later.
    pub open spec fn in_rank_order(self, other: Model) -> bool {
        let mine = self.discount_rate.unwrap();
        let theirs = other.discount_rate.unwrap();
        ||| mine.gt(theirs)
        ||| mine.same(theirs) && self.price.unwrap() > other.price.unwrap()
        ||| mine.same(theirs) && self.price.unwrap() == other.price.unwrap() && lex_le(
            self.title@,
            other.title@,
        )
    }

    /// Of two priced rows, the one that the other does not outrank may stand
    /// first.
    pub proof fn lemma_rank_order(self, other: Model)
        requires
            self.priced(),
            other.priced(),
            !other.outranks(self),
        ensures
            self.in_rank_order(other),
    {
        lemma_lex_total(other.title@, self.title@);
    }

    /// The order of a ranking carries over: a row that may stand before a
    /// second, which may stand before a third, may stand before the third.
    pub proof fn lemma_rank_transitive(self, second: Model, third: Model)
        requires
            self.priced() && self.wf(),
            second.priced() && second.wf(),
            third.priced() && third.wf(),
            self.in_rank_order(second),
            second.in_rank_order(third),
        ensures
            self.in_rank_order(third),
    {
        lemma_rates_in_line(
            self.discount_rate.unwrap(),
            second.discount_rate.unwrap(),
            third.discount_rate.unwrap(),
        );
        let a = self.discount_rate.unwrap();
        let b = second.discount_rate.unwrap();
        let c = third.discount_rate.unwrap();
        if a.same(b) && b.same(c) && self.price == second.price && second.price == third.price {
            lemma_lex_transitive(self.title@, second.title@, third.title@);
        }
    }

    /// Executable form of [`Model::outranks`].
    pub fn ranks_above(&self, other: &Model) -> (r: bool)
        ensures
            r == self.outranks(*other),
    {
        match (&self.discount_rate, &self.price, &self.basis_price) {
            (Some(mine), Some(my_price), Some(_)) => match (
                &other.discount_rate,
                &other.price,
                &other.basis_price,
            ) {
                (Some(theirs), Some(their_price), Some(_)) => {
                    if mine.exceeds(theirs) {
                        true
                    } else if theirs.exceeds(mine) {
                        false
                    } else if *my_price != *their_price {
                        *my_price > *their_price
                    } else {
                        precedes(self.title.as_str(), other.title.as_str())
                    }
                },
                _ => false,
            },
            _ => false,
        }
    }

    /// Executable form of [`Model::priced`].
    pub fn is_priced(&self) -> (r: bool)
        ensures
            r == self.priced(),
    {
        self.basis_price.is_some() && self.price.is_some() && self.discount_rate.is_some()
    }

    /// Executable form of [`Model::awaits_kindle_id`].
    pub fn needs_kindle_id(&self, now: Timestamp) -> (r: bool)
        ensures
            r == self.awaits_kindle_id(now),
    {
        self.kindle_id.is_none() && match self.active_at {
            Some(until) => until.is_reached(now),
            None => true,
        }
    }
}

} // verus!
