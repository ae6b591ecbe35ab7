use bookmeter_discounts::bookmeter::BookMeterBook;
use bookmeter_discounts::catalog::{Catalog, Filter};
use bookmeter_discounts::kindle::Kindle;
use bookmeter_discounts::model::{Deadline, DiscountRate, Model, Timestamp, COOLDOWN_MICROS};
use bookmeter_discounts::reconcile::is_listed;
use bookmeter_discounts::sort::Order;

fn at(micros: i64) -> Timestamp {
    Timestamp { micros }
}

fn until(micros: i128) -> Deadline {
    Deadline { micros }
}

fn book(id: u32) -> BookMeterBook {
    BookMeterBook {
        id,
        title: format!("Book {}", id),
        amazon_url: format!("https://www.amazon.co.jp/dp/{}", id),
    }
}

fn row(id: i64, updated: i64) -> Model {
    Model {
        bookmeter_id: id,
        amazon_url: format!("https://www.amazon.co.jp/dp/{}", id),
        kindle_id: None,
        title: format!("Book {}", id),
        basis_price: None,
        price: None,
        discount_rate: None,
        active_at: None,
        updated_at: at(updated),
    }
}

fn resolved(id: i64, updated: i64) -> Model {
    Model { kindle_id: Some(format!("B{:09}", id)), ..row(id, updated) }
}

fn priced(id: i64, numerator: i64, denominator: u32, price: u32, title: &str) -> Model {
    Model {
        title: title.to_string(),
        basis_price: Some(denominator),
        price: Some(price),
        discount_rate: Some(DiscountRate { numerator, denominator }),
        ..resolved(id, 0)
    }
}

fn ids(rows: &[Model]) -> Vec<i64> {
    rows.iter().map(|r| r.bookmeter_id).collect()
}

#[test]
fn from_rows_refuses_an_identifier_twice() {
    assert!(Catalog::from_rows(vec![row(1, 0), row(2, 0), row(1, 5)]).is_none());
    assert!(Catalog::from_rows(vec![row(1, 0), row(2, 0)]).is_some());
    assert_eq!(Catalog::from_rows(vec![]).unwrap().len(), 0);
}

#[test]
fn from_rows_refuses_a_row_with_half_its_prices() {
    let half = Model { price: Some(800), ..row(1, 0) };
    assert!(Catalog::from_rows(vec![half]).is_none());
    let no_rate = Model { basis_price: Some(1000), price: Some(800), ..row(1, 0) };
    assert!(Catalog::from_rows(vec![no_rate]).is_none());
    let only_rate =
        Model { discount_rate: Some(DiscountRate { numerator: 1, denominator: 2 }), ..row(1, 0) };
    assert!(Catalog::from_rows(vec![only_rate]).is_none());
    let no_fraction = priced(1, 1, 0, 800, "t");
    assert!(Catalog::from_rows(vec![no_fraction]).is_none());
    assert!(Catalog::from_rows(vec![priced(1, 200, 1000, 800, "t")]).is_some());
}

#[test]
fn insert_adds_behind_and_refuses_a_taken_identifier() {
    let mut catalog = Catalog::new();
    assert!(catalog.insert(row(2, 0)));
    assert!(catalog.insert(row(1, 0)));
    assert!(!catalog.insert(row(2, 9)));
    assert!(!catalog.insert(Model { price: Some(1), ..row(3, 0) }));
    assert_eq!(catalog.find_all(), vec![row(2, 0), row(1, 0)]);
    assert_eq!(catalog.len(), 2);
}

#[test]
fn find_by_id_finds_the_row_or_nothing() {
    let catalog = Catalog::from_rows(vec![row(1, 0), row(2, 5)]).unwrap();
    assert_eq!(catalog.find_by_id(2), Some(row(2, 5)));
    assert_eq!(catalog.find_by_id(3), None);
    assert!(catalog.contains_id(1));
    assert!(!catalog.contains_id(-1));
}

#[test]
fn delete_removes_one_row() {
    let mut catalog = Catalog::from_rows(vec![row(1, 0), row(2, 5), row(3, 7)]).unwrap();
    assert_eq!(catalog.delete(2), Some(row(2, 5)));
    assert_eq!(catalog.delete(2), None);
    assert_eq!(catalog.find_all(), vec![row(1, 0), row(3, 7)]);
}

#[test]
fn reconcile_inserts_new_books_and_deletes_unwished_rows() {
    let mut catalog = Catalog::from_rows(vec![resolved(1, 0), row(2, 0), row(3, 0)]).unwrap();
    let changes = catalog.reconcile(&vec![book(3), book(5), book(1), book(4)], at(100));
    assert_eq!(changes.inserted, vec![row(5, 100), row(4, 100)]);
    assert_eq!(changes.deleted, vec![row(2, 0)]);
    assert_eq!(catalog.find_all(), vec![resolved(1, 0), row(3, 0), row(5, 100), row(4, 100)]);
}

#[test]
fn reconcile_makes_the_row_of_a_new_book_from_the_book() {
    let mut catalog = Catalog::new();
    let wished = BookMeterBook {
        id: 4294967295,
        title: "The Title".to_string(),
        amazon_url: "https://www.amazon.co.jp/dp/product/X".to_string(),
    };
    let changes = catalog.reconcile(&vec![wished], at(-5));
    let expected = Model {
        bookmeter_id: 4294967295,
        amazon_url: "https://www.amazon.co.jp/dp/product/X".to_string(),
        kindle_id: None,
        title: "The Title".to_string(),
        basis_price: None,
        price: None,
        discount_rate: None,
        active_at: None,
        updated_at: at(-5),
    };
    assert_eq!(changes.inserted, vec![expected.clone()]);
    assert_eq!(catalog.find_all(), vec![expected]);
}

#[test]
fn reconcile_twice_changes_nothing_the_second_time() {
    let mut catalog = Catalog::from_rows(vec![row(1, 0), row(2, 0)]).unwrap();
    let books = vec![book(2), book(7), book(7), book(9)];
    catalog.reconcile(&books, at(100));
    let once = catalog.find_all();
    let again = catalog.reconcile(&books, at(200));
    assert!(again.inserted.is_empty());
    assert!(again.deleted.is_empty());
    assert_eq!(catalog.find_all(), once);
    assert_eq!(ids(&once), vec![2, 7, 9]);
}

#[test]
fn reconcile_deletes_exactly_the_rows_not_on_the_wishlist() {
    let before = vec![row(1, 0), row(2, 0), row(3, 0), row(4, 0)];
    let books = vec![book(4), book(2), book(8)];
    let mut catalog = Catalog::from_rows(before.clone()).unwrap();
    let changes = catalog.reconcile(&books, at(1));
    for old in &before {
        let deleted = !catalog.contains_id(old.bookmeter_id);
        assert_eq!(deleted, !is_listed(&books, old.bookmeter_id));
        assert_eq!(deleted, changes.deleted.contains(old));
    }
    assert_eq!(ids(&catalog.find_all()), vec![2, 4, 8]);
}

#[test]
fn reconcile_against_an_empty_wishlist_empties_the_catalog() {
    let mut catalog = Catalog::from_rows(vec![row(1, 0), row(2, 0)]).unwrap();
    let changes = catalog.reconcile(&vec![], at(1));
    assert_eq!(changes.deleted, vec![row(1, 0), row(2, 0)]);
    assert_eq!(catalog.len(), 0);
}

#[test]
fn a_book_listed_twice_gets_one_row() {
    let mut catalog = Catalog::new();
    let mut second = book(1);
    second.title = "Another title".to_string();
    let changes = catalog.reconcile(&vec![book(1), second], at(3));
    assert_eq!(changes.inserted, vec![row(1, 3)]);
    assert_eq!(catalog.find_all(), vec![row(1, 3)]);
}

#[test]
fn set_kindle_id_writes_once() {
    let mut catalog = Catalog::from_rows(vec![row(1, 0), row(2, 0)]).unwrap();
    let written = catalog.set_kindle_id(2, "B000000002".to_string(), at(50));
    let expected = Model { kindle_id: Some("B000000002".to_string()), ..row(2, 50) };
    assert_eq!(written, Some(expected.clone()));
    assert_eq!(catalog.set_kindle_id(2, "B999999999".to_string(), at(60)), None);
    assert_eq!(catalog.set_kindle_id(3, "B000000003".to_string(), at(60)), None);
    assert_eq!(catalog.find_all(), vec![row(1, 0), expected]);
}

#[test]
fn set_cooldown_lasts_thirty_days() {
    assert_eq!(COOLDOWN_MICROS, 30 * 24 * 60 * 60 * 1_000_000);
    let mut catalog = Catalog::from_rows(vec![row(1, 0), resolved(2, 0)]).unwrap();
    let written = catalog.set_cooldown(1, at(1_000));
    let expected = Model { active_at: Some(until(2_592_000_001_000)), ..row(1, 1_000) };
    assert_eq!(written, Some(expected.clone()));
    assert_eq!(catalog.set_cooldown(2, at(1_000)), None);
    assert_eq!(catalog.set_cooldown(9, at(1_000)), None);
    assert_eq!(catalog.find_all(), vec![expected, resolved(2, 0)]);
    assert_eq!(at(1_000).after_cooldown(), until(2_592_000_001_000));
    assert_eq!(at(i64::MAX).after_cooldown(), until(i64::MAX as i128 + 2_592_000_000_000));
    assert_eq!(at(i64::MIN).after_cooldown(), until(i64::MIN as i128 + 2_592_000_000_000));
    assert!(!at(i64::MAX).after_cooldown().is_reached(at(i64::MAX)));
    assert!(at(0).after_cooldown().is_reached(at(COOLDOWN_MICROS)));
    assert!(!at(0).after_cooldown().is_reached(at(COOLDOWN_MICROS - 1)));
}

#[test]
fn set_pricing_writes_all_three_fields() {
    let mut catalog = Catalog::from_rows(vec![row(1, 0), resolved(2, 0)]).unwrap();
    let kindle = Kindle {
        basis_price: 1000,
        price: 800,
        discount_rate: DiscountRate { numerator: 200, denominator: 1000 },
    };
    let written = catalog.set_pricing(2, kindle, at(70));
    let expected = Model {
        basis_price: Some(1000),
        price: Some(800),
        discount_rate: Some(DiscountRate { numerator: 200, denominator: 1000 }),
        ..resolved(2, 70)
    };
    assert_eq!(written, Some(expected.clone()));
    assert_eq!(catalog.set_pricing(1, kindle, at(70)), None);
    assert_eq!(catalog.set_pricing(7, kindle, at(70)), None);
    let no_fraction = Kindle {
        basis_price: 0,
        price: 800,
        discount_rate: DiscountRate { numerator: 200, denominator: 0 },
    };
    assert_eq!(catalog.set_pricing(2, no_fraction, at(80)), None);
    assert_eq!(catalog.find_all(), vec![row(1, 0), expected]);
}

#[test]
fn rows_in_cooldown_are_not_selected() {
    let now = at(1_000_000);
    let cooling = Model { active_at: Some(until(1_000_001)), ..row(1, 0) };
    let due = Model { active_at: Some(until(1_000_000)), ..row(2, 0) };
    let past = Model { active_at: Some(until(5)), ..row(3, 0) };
    let found = Model { active_at: Some(until(5)), ..resolved(4, 0) };
    let fresh = row(5, 0);
    let catalog = Catalog::from_rows(vec![
        cooling.clone(),
        due.clone(),
        past.clone(),
        found,
        fresh.clone(),
    ])
    .unwrap();
    let targets = catalog.find_where(Filter::AwaitingKindleId(now), None, None);
    assert_eq!(targets, vec![due.clone(), past.clone(), fresh.clone()]);
    assert!(!cooling.needs_kindle_id(now));
    let later = catalog.find_where(Filter::AwaitingKindleId(at(1_000_001)), None, None);
    assert_eq!(later, vec![cooling, due, past, fresh]);
}

#[test]
fn price_targets_come_oldest_first() {
    let catalog = Catalog::from_rows(vec![
        resolved(1, 30),
        row(2, 0),
        resolved(3, 10),
        resolved(4, 30),
        resolved(5, -20),
        resolved(6, 10),
    ])
    .unwrap();
    let targets = catalog.find_where(Filter::WithKindleId, Some(Order::OldestFirst), None);
    assert_eq!(ids(&targets), vec![5, 3, 6, 1, 4]);
}

#[test]
fn ranking_orders_by_discount_then_price_then_title() {
    let catalog = Catalog::from_rows(vec![
        priced(1, 100, 1000, 900, "b"),
        priced(2, 1, 2, 500, "zz"),
        row(3, 0),
        priced(4, 50, 100, 500, "a"),
        priced(5, 500, 1000, 500, "zz"),
        priced(6, 2, 4, 700, "y"),
        priced(7, -1, 10, 990, "neg"),
        priced(8, 3, 2, 1, "over"),
        priced(9, 1, 2, 500, "b"),
        priced(10, 1, 2, 500, "ab"),
    ])
    .unwrap();
    let ranking = catalog.find_where(Filter::Priced, Some(Order::BestDiscount), None);
    assert_eq!(ids(&ranking), vec![8, 6, 4, 10, 9, 2, 5, 1, 7]);
    for pair in ranking.windows(2) {
        let (a, b) = (&pair[0], &pair[1]);
        let (ra, rb) = (a.discount_rate.unwrap(), b.discount_rate.unwrap());
        let left = ra.numerator as i128 * rb.denominator as i128;
        let right = rb.numerator as i128 * ra.denominator as i128;
        assert!(
            left > right
                || (left == right && a.price > b.price)
                || (left == right && a.price == b.price && a.title <= b.title)
        );
    }
}

#[test]
fn ranking_compares_titles_by_character() {
    let catalog = Catalog::from_rows(vec![
        priced(1, 1, 2, 500, "猫"),
        priced(2, 1, 2, 500, "Z"),
        priced(3, 1, 2, 500, ""),
        priced(4, 1, 2, 500, "a"),
        priced(5, 1, 2, 500, "Za"),
        priced(6, 1, 2, 500, "\u{1F4D6}"),
        priced(7, 1, 2, 500, "\u{FF21}"),
    ])
    .unwrap();
    let ranking = catalog.find_where(Filter::Priced, Some(Order::BestDiscount), None);
    assert_eq!(ids(&ranking), vec![3, 2, 5, 4, 1, 7, 6]);
}

#[test]
fn query_stops_at_its_limit() {
    let catalog = Catalog::from_rows(vec![
        priced(1, 1, 10, 500, "a"),
        priced(2, 3, 10, 500, "b"),
        priced(3, 2, 10, 500, "c"),
    ])
    .unwrap();
    let order = Some(Order::BestDiscount);
    assert_eq!(ids(&catalog.find_where(Filter::Priced, order, Some(0))), Vec::<i64>::new());
    assert_eq!(ids(&catalog.find_where(Filter::Priced, order, Some(2))), vec![2, 3]);
    assert_eq!(ids(&catalog.find_where(Filter::Priced, order, Some(3))), vec![2, 3, 1]);
    assert_eq!(ids(&catalog.find_where(Filter::Priced, order, Some(u64::MAX))), vec![2, 3, 1]);
    assert_eq!(ids(&catalog.find_where(Filter::All, None, Some(1))), vec![1]);
}

#[test]
fn discount_of_prices_is_exact() {
    assert_eq!(
        DiscountRate::from_prices(1000, 800, 0),
        Some(DiscountRate { numerator: 200, denominator: 1000 })
    );
    assert_eq!(
        DiscountRate::from_prices(1000, 800, 30),
        Some(DiscountRate { numerator: 230, denominator: 1000 })
    );
    assert_eq!(
        DiscountRate::from_prices(1, u32::MAX, 0),
        Some(DiscountRate { numerator: 1 - u32::MAX as i64, denominator: 1 })
    );
    assert_eq!(
        DiscountRate::from_prices(u32::MAX, 0, u32::MAX),
        Some(DiscountRate { numerator: 2 * (u32::MAX as i64), denominator: u32::MAX })
    );
    assert_eq!(DiscountRate::from_prices(0, 800, 0), None);
}

#[test]
fn discounts_compare_as_fractions() {
    let half = DiscountRate { numerator: 1, denominator: 2 };
    let also_half = DiscountRate { numerator: 500, denominator: 1000 };
    let third = DiscountRate { numerator: 1, denominator: 3 };
    let loss = DiscountRate { numerator: -1, denominator: 1000 };
    assert!(half.exceeds(&third));
    assert!(!third.exceeds(&half));
    assert!(!half.exceeds(&also_half));
    assert!(!also_half.exceeds(&half));
    assert!(third.exceeds(&loss));
    let big = DiscountRate { numerator: i64::MAX, denominator: 1 };
    let small = DiscountRate { numerator: i64::MIN, denominator: u32::MAX };
    assert!(big.exceeds(&small));
    assert!(!small.exceeds(&big));
}
