use bookmeter_discounts::bookmeter::BookMeterBook;
use bookmeter_discounts::catalog::Catalog;
use bookmeter_discounts::kindle::{Kindle, KindleError};
use bookmeter_discounts::model::{Deadline, DiscountRate, Model, Timestamp};
use bookmeter_discounts::update::{Stage, Unexpected, UpdateStep};
use bookmeter_discounts::{BookMeterDiscounts, DEFAULT_LIMIT};

const DAY: i64 = 86_400_000_000;

fn at(micros: i64) -> Timestamp {
    Timestamp { micros }
}

fn until(micros: i64) -> Deadline {
    Deadline { micros: micros as i128 }
}

fn book(id: u32) -> BookMeterBook {
    BookMeterBook {
        id,
        title: format!("Book {}", id),
        amazon_url: format!("https://www.amazon.co.jp/dp/400000000{}", id),
    }
}

fn row(id: i64, updated: i64) -> Model {
    Model {
        bookmeter_id: id,
        amazon_url: format!("https://www.amazon.co.jp/dp/400000000{}", id),
        kindle_id: None,
        title: format!("Book {}", id),
        basis_price: None,
        price: None,
        discount_rate: None,
        active_at: None,
        updated_at: at(updated),
    }
}

fn priced(id: i64, numerator: i64) -> Model {
    Model {
        kindle_id: Some(format!("B{}", id)),
        basis_price: Some(1000),
        price: Some((1000 - numerator) as u32),
        discount_rate: Some(DiscountRate { numerator, denominator: 1000 }),
        ..row(id, 0)
    }
}

fn product_page(href: &str) -> String {
    format!(
        "<div id=\"tmm-grid-swatch-KINDLE\"><a class=\"a-button-text a-text-left\" \
         href=\"{}\">Kindle</a></div>",
        href
    )
}

fn discounts(rows: Vec<Model>) -> BookMeterDiscounts {
    BookMeterDiscounts::new("42", Catalog::from_rows(rows).unwrap(), 3)
}

#[test]
fn new_keeps_what_it_is_given() {
    let d = BookMeterDiscounts::new("42", Catalog::from_rows(vec![row(1, 0)]).unwrap(), 7);
    assert_eq!(d.user_id, "42");
    assert_eq!(d.get_amazon_page_interval, 7);
    assert_eq!(d.db.find_all(), vec![row(1, 0)]);
}

#[test]
fn wishlist_to_ranking() {
    let mut update = discounts(vec![]).update_discounts();
    assert_eq!(update.next_step(), UpdateStep::Crawl);

    let changes = update.crawled(&vec![book(1), book(2)], at(0)).unwrap();
    assert_eq!(changes.inserted, vec![row(1, 0), row(2, 0)]);
    assert!(changes.deleted.is_empty());

    assert_eq!(update.next_step(), UpdateStep::FetchProductPage { bookmeter_id: 1, pause: 3 });
    let url = update.target().unwrap().amazon_url.clone();
    let outcome = Kindle::convert_amazon_url_to_kindle_id(&url, "<html><body></body></html>");
    assert_eq!(outcome, Err(KindleError::KindleButtonNotFound));
    let written = update.kindle_id_read(outcome, at(10)).unwrap().unwrap();
    assert_eq!(written.active_at, Some(until(10 + 30 * DAY)));
    assert_eq!(written.kindle_id, None);

    assert_eq!(update.next_step(), UpdateStep::FetchProductPage { bookmeter_id: 2, pause: 3 });
    let url = update.target().unwrap().amazon_url.clone();
    let outcome = Kindle::convert_amazon_url_to_kindle_id(&url, &product_page("/dp/B000000002"));
    assert_eq!(outcome, Ok("B000000002".to_string()));
    let written = update.kindle_id_read(outcome, at(20)).unwrap().unwrap();
    assert_eq!(written.kindle_id, Some("B000000002".to_string()));
    assert_eq!(written.updated_at, at(20));

    assert_eq!(update.next_step(), UpdateStep::FetchListing { bookmeter_id: 2, pause: 3 });
    assert_eq!(update.target().unwrap().kindle_id, Some("B000000002".to_string()));
    let listing = "<div class=\"item-price\"><s>1000</s><span data-price=\"800\">800</span></div>\
                   <div class=\"item-point\"><span data-point=\"0\">0</span></div>";
    let written = update.price_read(Kindle::from_id(listing), at(30)).unwrap().unwrap();
    assert_eq!(written.basis_price, Some(1000));
    assert_eq!(written.price, Some(800));
    let rate = written.discount_rate.unwrap();
    assert_eq!(rate, DiscountRate { numerator: 200, denominator: 1000 });
    assert_eq!((rate.numerator as f64 / rate.denominator as f64) as f32, 0.2);

    assert_eq!(update.next_step(), UpdateStep::Done);
    assert_eq!(update.stage, Stage::Done);
    let discounts = update.into_discounts();
    let ranking = discounts.get_discounts(Some(1));
    assert_eq!(ranking.len(), 1);
    assert_eq!(ranking[0].bookmeter_id, 2);
    assert_eq!(ranking[0], written);
    assert_eq!(discounts.get_discounts(None), vec![written]);

    assert!(discounts.kindle_id_targets(at(10 + 30 * DAY - 1)).is_empty());
    let due = discounts.kindle_id_targets(at(10 + 30 * DAY));
    assert_eq!(due.len(), 1);
    assert_eq!(due[0].bookmeter_id, 1);
}

#[test]
fn update_fails_when_the_wishlist_cannot_be_read() {
    let mut update = discounts(vec![row(1, 0), priced(2, 100)]).update_discounts();
    assert_eq!(update.crawl_failed(), Ok(()));
    assert_eq!(update.stage, Stage::Failed);
    assert_eq!(update.next_step(), UpdateStep::Done);
    assert!(update.report().is_none());
    assert_eq!(update.crawl_failed(), Err(Unexpected));
    assert!(update.crawled(&vec![], at(0)).is_err());
    assert_eq!(update.into_discounts().db.find_all(), vec![row(1, 0), priced(2, 100)]);
}

#[test]
fn update_leaves_a_row_alone_after_any_other_failure() {
    let mut update = discounts(vec![row(1, 0), row(2, 0)]).update_discounts();
    update.crawled(&vec![book(1), book(2)], at(5)).unwrap();
    assert_eq!(update.kindle_id_read(Err(KindleError::FetchFailed), at(6)), Ok(None));
    assert_eq!(update.kindle_id_read(Err(KindleError::InvalidUrl), at(7)), Ok(None));
    assert_eq!(update.next_step(), UpdateStep::Done);
    assert_eq!(update.stage, Stage::Done);
    assert_eq!(update.report(), Some(vec![]));
    assert_eq!(update.into_discounts().db.find_all(), vec![row(1, 0), row(2, 0)]);
}

#[test]
fn update_leaves_a_row_alone_when_its_prices_cannot_be_read() {
    let mut update = discounts(vec![priced(1, 100), priced(2, 300)]).update_discounts();
    update.crawled(&vec![book(1), book(2)], at(5)).unwrap();
    assert_eq!(update.next_step(), UpdateStep::FetchListing { bookmeter_id: 1, pause: 3 });
    assert_eq!(update.price_read(Err(KindleError::PriceNotFound), at(6)), Ok(None));
    assert_eq!(update.next_step(), UpdateStep::FetchListing { bookmeter_id: 2, pause: 3 });
    let kindle = Kindle {
        basis_price: 1000,
        price: 500,
        discount_rate: DiscountRate { numerator: 500, denominator: 1000 },
    };
    let written = update.price_read(Ok(kindle), at(7)).unwrap().unwrap();
    assert_eq!(written, Model { updated_at: at(7), ..priced(2, 500) });
    assert_eq!(update.report(), Some(vec![written.clone(), priced(1, 100)]));
    assert_eq!(update.into_discounts().db.find_all(), vec![priced(1, 100), written]);
}

#[test]
fn update_skips_rows_in_cooldown_and_rows_with_an_edition() {
    let cooling = Model { active_at: Some(until(1_000)), ..row(1, 0) };
    let due = Model { active_at: Some(until(999)), ..row(2, 0) };
    let mut update =
        discounts(vec![cooling.clone(), due, priced(3, 100), row(4, 0)]).update_discounts();
    update.crawled(&vec![book(1), book(2), book(3), book(4)], at(999)).unwrap();
    assert_eq!(update.next_step(), UpdateStep::FetchProductPage { bookmeter_id: 2, pause: 3 });
    assert_eq!(update.kindle_id_read(Err(KindleError::InvalidHtml), at(999)), Ok(None));
    assert_eq!(update.next_step(), UpdateStep::FetchProductPage { bookmeter_id: 4, pause: 3 });
    update.kindle_id_read(Ok("B4".to_string()), at(1_500)).unwrap();
    assert_eq!(update.next_step(), UpdateStep::FetchListing { bookmeter_id: 3, pause: 3 });
    assert_eq!(update.price_read(Err(KindleError::PriceNotFound), at(1_600)), Ok(None));
    assert_eq!(update.next_step(), UpdateStep::FetchListing { bookmeter_id: 4, pause: 3 });
    assert_eq!(update.price_read(Err(KindleError::PriceNotFound), at(1_600)), Ok(None));
    assert_eq!(update.next_step(), UpdateStep::Done);
    assert_eq!(update.into_discounts().db.find_by_id(1), Some(cooling));
}

#[test]
fn update_refuses_news_that_it_did_not_ask_for() {
    let mut update = discounts(vec![row(1, 0)]).update_discounts();
    assert_eq!(update.kindle_id_read(Ok("B1".to_string()), at(1)), Err(Unexpected));
    assert_eq!(update.price_read(Err(KindleError::PriceNotFound), at(1)), Err(Unexpected));
    assert!(update.target().is_none());
    assert!(update.report().is_none());
    update.crawled(&vec![book(1)], at(1)).unwrap();
    assert_eq!(update.price_read(Err(KindleError::PriceNotFound), at(1)), Err(Unexpected));
    assert!(update.crawled(&vec![], at(2)).is_err());
    assert_eq!(update.next_step(), UpdateStep::FetchProductPage { bookmeter_id: 1, pause: 3 });
    assert_eq!(update.into_discounts().db.find_all(), vec![row(1, 0)]);
}

#[test]
fn update_deletes_what_left_the_wishlist() {
    let mut update = discounts(vec![priced(1, 100), priced(2, 200)]).update_discounts();
    let changes = update.crawled(&vec![book(2)], at(5)).unwrap();
    assert_eq!(changes.deleted, vec![priced(1, 100)]);
    assert!(changes.inserted.is_empty());
    assert_eq!(update.next_step(), UpdateStep::FetchListing { bookmeter_id: 2, pause: 3 });
}

#[test]
fn update_of_an_empty_wishlist_is_through_at_once() {
    let mut update = discounts(vec![row(1, 0)]).update_discounts();
    let changes = update.crawled(&vec![], at(5)).unwrap();
    assert_eq!(changes.deleted, vec![row(1, 0)]);
    assert_eq!(update.next_step(), UpdateStep::Done);
    assert_eq!(update.stage, Stage::Done);
    assert_eq!(update.report(), Some(vec![]));
}

#[test]
fn report_holds_the_ten_best() {
    let rows: Vec<Model> = (1..=12).map(|i| priced(i, i * 10)).collect();
    let books: Vec<BookMeterBook> = (1..=12).map(book).collect();
    let mut update = discounts(rows).update_discounts();
    update.crawled(&books, at(5)).unwrap();
    for _ in 0..12 {
        update.price_read(Err(KindleError::PriceNotFound), at(6)).unwrap();
    }
    let report = update.report().unwrap();
    let ids: Vec<i64> = report.iter().map(|r| r.bookmeter_id).collect();
    assert_eq!(ids, vec![12, 11, 10, 9, 8, 7, 6, 5, 4, 3]);
}

#[test]
fn ranking_defaults_to_fifty_rows() {
    assert_eq!(DEFAULT_LIMIT, 50);
    let rows: Vec<Model> = (1..=60).map(|i| priced(i, i)).collect();
    let d = discounts(rows);
    assert_eq!(d.get_discounts(None).len(), 50);
    assert_eq!(d.get_discounts(Some(100)).len(), 60);
    assert_eq!(d.get_discounts(Some(0)).len(), 0);
    assert_eq!(d.get_discounts(None)[0].bookmeter_id, 60);
    assert_eq!(d.db.len(), 60);
}

#[test]
fn record_kindle_id_starts_a_cooldown_only_for_a_missing_button() {
    let mut d = discounts(vec![row(1, 0), row(2, 0), row(3, 0)]);
    let written = d.record_kindle_id(1, Err(KindleError::KindleButtonNotFound), at(100));
    assert_eq!(written, Some(Model { active_at: Some(until(100 + 30 * DAY)), ..row(1, 100) }));
    for e in [
        KindleError::InvalidUrl,
        KindleError::FetchFailed,
        KindleError::InvalidHtml,
        KindleError::PriceNotFound,
        KindleError::InvalidNumber,
        KindleError::ZeroBasisPrice,
        KindleError::InvalidSelector,
        KindleError::DocumentTooLong,
    ] {
        assert_eq!(d.record_kindle_id(2, Err(e), at(100)), None);
    }
    assert_eq!(d.db.find_by_id(2), Some(row(2, 0)));
    let written = d.record_kindle_id(3, Ok("B3".to_string()), at(200));
    assert_eq!(written, Some(Model { kindle_id: Some("B3".to_string()), ..row(3, 200) }));
    assert_eq!(d.record_kindle_id(3, Err(KindleError::KindleButtonNotFound), at(300)), None);
    assert_eq!(d.record_kindle_id(9, Ok("B9".to_string()), at(300)), None);
}

#[test]
fn price_targets_are_the_rows_with_an_edition() {
    let d = discounts(vec![
        Model { updated_at: at(9), ..priced(1, 1) },
        row(2, 0),
        Model { updated_at: at(3), ..priced(3, 1) },
    ]);
    let ids: Vec<i64> = d.price_targets().iter().map(|r| r.bookmeter_id).collect();
    assert_eq!(ids, vec![3, 1]);
}

#[test]
fn client_needs_a_number_for_the_reader() {
    let d = BookMeterDiscounts::new("123456", Catalog::new(), 1);
    assert_eq!(d.client().map(|c| c.user_id), Some(123456));
    for name in ["", "reader", "12 ", "-1", "4294967296"] {
        assert!(BookMeterDiscounts::new(name, Catalog::new(), 1).client().is_none());
    }
}

#[test]
fn a_row_that_the_store_refused_is_not_looked_up() {
    let mut update = discounts(vec![row(1, 0)]).update_discounts();
    assert_eq!(update.insert_refused(2), Err(Unexpected));
    let changes = update.crawled(&vec![book(1), book(2), book(3)], at(5)).unwrap();
    assert_eq!(changes.inserted, vec![row(2, 5), row(3, 5)]);
    assert_eq!(update.next_step(), UpdateStep::FetchProductPage { bookmeter_id: 1, pause: 3 });
    assert_eq!(update.insert_refused(2), Ok(()));
    assert_eq!(update.insert_refused(2), Err(Unexpected));
    assert_eq!(update.insert_refused(9), Err(Unexpected));
    assert_eq!(update.discounts.db.find_all(), vec![row(1, 0), row(3, 5)]);
    assert_eq!(update.kindle_id_read(Err(KindleError::FetchFailed), at(6)), Ok(None));
    assert_eq!(update.insert_refused(1), Err(Unexpected));
    assert_eq!(update.next_step(), UpdateStep::FetchProductPage { bookmeter_id: 3, pause: 3 });
    assert_eq!(update.insert_refused(3), Ok(()));
    assert_eq!(update.next_step(), UpdateStep::Done);
    assert_eq!(update.stage, Stage::Done);
    assert_eq!(update.into_discounts().db.find_all(), vec![row(1, 0)]);
}

#[test]
fn refusing_the_last_row_to_look_up_begins_the_pricing() {
    let mut update = discounts(vec![priced(1, 100)]).update_discounts();
    update.crawled(&vec![book(1), book(2)], at(5)).unwrap();
    assert_eq!(update.next_step(), UpdateStep::FetchProductPage { bookmeter_id: 2, pause: 3 });
    assert_eq!(update.insert_refused(2), Ok(()));
    assert_eq!(update.next_step(), UpdateStep::FetchListing { bookmeter_id: 1, pause: 3 });
    assert_eq!(update.insert_refused(1), Err(Unexpected));
    assert_eq!(update.discounts.db.find_all(), vec![priced(1, 100)]);
}

#[test]
fn update_hands_out_nothing_where_nothing_was_written() {
    let mut update = discounts(vec![row(1, 0), priced(2, 100)]).update_discounts();
    update.crawled(&vec![book(1), book(2)], at(5)).unwrap();
    for e in [KindleError::InvalidUrl, KindleError::DocumentTooLong] {
        let mut again = discounts(vec![row(1, 0)]).update_discounts();
        again.crawled(&vec![book(1)], at(5)).unwrap();
        assert_eq!(again.kindle_id_read(Err(e), at(6)), Ok(None));
    }
    assert_eq!(update.kindle_id_read(Err(KindleError::FetchFailed), at(6)), Ok(None));
    assert_eq!(update.price_read(Err(KindleError::InvalidNumber), at(7)), Ok(None));
    assert_eq!(update.into_discounts().db.find_all(), vec![row(1, 0), priced(2, 100)]);
}
