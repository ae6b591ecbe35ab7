//! The wishlist site: its pages, and the books they list.

use vstd::prelude::*;
use crate::html::{
    element_views, found_views, is_readable, readable, select, selection, Element, ElementView,
};
use crate::text::{
    after_last, contains_text, decimal_digits, decimal_text, last_part, occurs_in, parse_u32,
    parsed_u32, strip_ends, stripped, Strip,
};

verus! {

/// Why a page of the wishlist site gave no answer.
#[derive(Clone, Copy, Debug, PartialEq, Eq, Structural)]
pub enum BookMeterError {
    /// A page could not be fetched.
    FetchFailed,
    /// A title link of the wishlist carries no address.
    LinkNotFound,
    /// The address of a title link does not end in a book's number.
    InvalidBookId,
    /// A book's page shows no title.
    TitleNotFound,
    /// None of the stores listed for a book is the storefront.
    AmazonUrlNotFound,
    /// A selector was not understood.
    InvalidSelector,
    /// The crawl was told of something that it had not asked for.
    Unexpected,
    /// The crawl has not come to its end.
    Unfinished,
    /// A page is longer than any that is read.
    DocumentTooLong,
}

/// The title links of a wishlist page.
pub const TITLE_LINK: &'static str = ".detail__title > a";

/// The title on a book's page.
pub const TITLE: &'static str = ".inner__title";

/// What marks the address of the storefront among a book's stores.
pub const STORE_MARK: &'static str = "amazon";

/// How long to wait between two fetches from the wishlist site, in
/// seconds.
pub const PAUSE_SECONDS: u64 = 1;

/// Whose wishlist is read.
#[derive(Clone, Copy, Debug, PartialEq, Eq, Structural)]
pub struct BookMeterClient {
    pub user_id: u32,
}

/// A wished book as the wishlist site describes it.
#[derive(Debug, PartialEq, Eq)]
pub struct BookMeterBook {
    pub id: u32,
    pub title: String,
    pub amazon_url: String,
}

/// One store that sells a book.
#[derive(Debug, PartialEq, Eq)]
pub struct ExternalBookStore {
    pub url: String,
}

/// The stores that sell a book, as the wishlist site lists them.
#[derive(Debug, PartialEq, Eq)]
pub struct ExternalBookStores {
    pub resources: Vec<ExternalBookStore>,
}

impl Clone for BookMeterBook {
    fn clone(&self) -> (book: Self)
        ensures
            book == *self,
    {
        BookMeterBook {
            id: self.id,
            title: self.title.clone(),
            amazon_url: self.amazon_url.clone(),
        }
    }
}

/// The book's number that a title link names: what stands behind the last
/// `/` of its address, read as a number.
pub open spec fn id_of_link(link: ElementView) -> Result<u32, BookMeterError> {
    match link.attr {
        None => Err(BookMeterError::LinkNotFound),
        Some(href) => match parsed_u32(after_last(href, '/')) {
            Some(id) => Ok(id),
            None => Err(BookMeterError::InvalidBookId),
        },
    }
}

/// The numbers that the title links name, link by link; the first link
/// that names none decides the error.
pub open spec fn link_ids(links: Seq<ElementView>) -> Result<Seq<u32>, BookMeterError>
    decreases links.len(),
{
    if links.len() == 0 {
        Ok(Seq::<u32>::empty())
    } else {
        match link_ids(links.drop_last()) {
            Err(e) => Err(e),
            Ok(ids) => match id_of_link(links.last()) {
                Ok(id) => Ok(ids.push(id)),
                Err(e) => Err(e),
            },
        }
    }
}

/// The numbers that the title links found on a wishlist page name.
pub open spec fn page_ids(links: Option<Seq<ElementView>>) -> Result<Seq<u32>, BookMeterError> {
    match links {
        None => Err(BookMeterError::InvalidSelector),
        Some(links) => link_ids(links),
    }
}

/// The numbers that the title links of the wishlist page `document` name;
/// an error for a page that is too long to be read.
pub open spec fn page_ids_of(document: &str) -> Result<Seq<u32>, BookMeterError> {
    if !readable(document) {
        Err(BookMeterError::DocumentTooLong)
    } else {
        page_ids(selection(document@, TITLE_LINK@, "href"@))
    }
}

/// Whether the numbers rise strictly along the sequence.
pub open spec fn increasing(ids: Seq<u32>) -> bool {
    forall|i: int, j: int| 0 <= i < j < ids.len() ==> ids[i] < ids[j]
}

/// Whether `ids` is the set of the numbers in `of`: each of them once, in
/// rising order, and no other.
pub open spec fn is_id_set(ids: Seq<u32>, of: Seq<u32>) -> bool {
    increasing(ids) && forall|id: u32| ids.contains(id) <==> of.contains(id)
}

/// The title among the title elements found on a book's page: the text of
/// the first.
pub open spec fn title_in(titles: Option<Seq<ElementView>>) -> Result<Seq<char>, BookMeterError> {
    match titles {
        None => Err(BookMeterError::InvalidSelector),
        Some(titles) => if titles.len() == 0 {
            Err(BookMeterError::TitleNotFound)
        } else {
            Ok(titles[0].text)
        },
    }
}

/// The title that the book's page `document` shows; an error for a page
/// that is too long to be read.
pub open spec fn title_of(document: &str) -> Result<Seq<char>, BookMeterError> {
    if !readable(document) {
        Err(BookMeterError::DocumentTooLong)
    } else {
        title_in(selection(document@, TITLE@, "class"@))
    }
}

/// The addresses of the stores, store by store.
pub open spec fn store_urls(stores: Seq<ExternalBookStore>) -> Seq<Seq<char>> {
    Seq::new(stores.len(), |i: int| stores[i].url@)
}

/// The storefront's address among the stores' addresses: the first that
/// holds [`STORE_MARK`], with white space and then quotes taken off its
/// ends.
pub open spec fn amazon_url_in(urls: Seq<Seq<char>>) -> Option<Seq<char>>
    decreases urls.len(),
{
    if urls.len() == 0 {
        None
    } else if occurs_in(STORE_MARK@, urls[0]) {
        Some(stripped(stripped(urls[0], Strip::Whitespace), Strip::Quote))
    } else {
        amazon_url_in(urls.drop_first())
    }
}

/// The book with number `id`, from what its page gave for a title and the
/// addresses of its stores. A missing title is reported before a missing
/// storefront.
pub open spec fn book_in(
    id: u32,
    title: Result<Seq<char>, BookMeterError>,
    urls: Seq<Seq<char>>,
    book: Result<BookMeterBook, BookMeterError>,
) -> bool {
    match title {
        Err(e) => book == Err::<BookMeterBook, BookMeterError>(e),
        Ok(title) => match amazon_url_in(urls) {
            None => book == Err::<BookMeterBook, BookMeterError>(BookMeterError::AmazonUrlNotFound),
            Some(url) => book matches Ok(b) && b.id == id && b.title@ == title && b.amazon_url@
                == url,
        },
    }
}

/// Puts `id` into the rising sequence `ids`, unless it is there.
pub fn insert_id(ids: &mut Vec<u32>, id: u32)
    requires
        increasing(old(ids)@),
    ensures
        increasing(final(ids)@),
        forall|x: u32| final(ids)@.contains(x) <==> old(ids)@.contains(x) || x == id,
{
    let ghost before = ids@;
    let mut at: usize = 0;
    while at < ids.len() && ids[at] < id
        invariant
            at <= ids.len(),
            ids@ == before,
            forall|i: int| 0 <= i < at ==> before[i] < id,
        decreases ids.len() - at,
    {
        at += 1;
    }
    if at < ids.len() && ids[at] == id {
        assert(before.contains(id));
        return ;
    }
    ids.insert(at, id);
    proof {
        let after = ids@;
        assert(after == before.insert(at as int, id));
        assert forall|i: int, j: int| 0 <= i < j < after.len() implies after[i] < after[j] by {
            let oi = if i < at { i } else { i - 1 };
            let oj = if j < at { j } else { j - 1 };
            if i != at && j != at {
                assert(before[oi] < before[oj]);
            } else if i == at {
                assert(after[j] == before[j - 1]);
                assert(before[at as int] <= before[j - 1]) by {
                    if at < j - 1 {
                        assert(before[at as int] < before[j - 1]);
                    }
                }
            }
        }
        assert forall|x: u32| after.contains(x) <==> before.contains(x) || x == id by {
            if after.contains(x) {
                let i = choose|i: int| 0 <= i < after.len() && after[i] == x;
                if i < at {
                    assert(before[i] == x);
                } else if i > at {
                    assert(before[i - 1] == x);
                }
            }
            if before.contains(x) {
                let i = choose|i: int| 0 <= i < before.len() && before[i] == x;
                if i < at {
                    assert(after[i] == x);
                } else {
                    assert(after[i + 1] == x);
                }
            }
            if x == id {
                assert(after[at as int] == x);
            }
        }
    }
}

impl BookMeterClient {
    pub fn new(user_id: u32) -> (client: BookMeterClient)
        ensures
            client.user_id == user_id,
    {
        BookMeterClient { user_id }
    }

    /// The address of page `page` of the reader's wishlist.
    pub fn wish_page_url(&self, page: u16) -> (url: String)
        ensures
            url@ == "https://bookmeter.com/users/"@ + decimal_digits(self.user_id as nat)
                + "/books/wish?page="@ + decimal_digits(page as nat),
    {
        let mut url = "https://bookmeter.com/users/".to_owned();
        url.append(decimal_text(self.user_id).as_str());
        url.append("/books/wish?page=");
        url.append(decimal_text(page as u32).as_str());
        url
    }

    /// The set of the numbers that the title links found on a wishlist page
    /// name.
    pub fn book_ids(links: &Option<Vec<Element>>) -> (ids: Result<Vec<u32>, BookMeterError>)
        ensures
            match page_ids(found_views(*links)) {
                Ok(all) => ids matches Ok(ids) && is_id_set(ids@, all),
                Err(e) => ids == Err::<Vec<u32>, BookMeterError>(e),
            },
    {
        let found = match links {
            Some(found) => found,
            None => {
                return Err(BookMeterError::InvalidSelector);
            },
        };
        let ghost all = element_views(found@);
        let mut ids: Vec<u32> = Vec::new();
        let mut k: usize = 0;
        assert(all.take(0) == Seq::<ElementView>::empty());
        while k < found.len()
            invariant
                k <= found.len(),
                all == element_views(found@),
                found_views(*links) == Some(all),
                link_ids(all.take(k as int)) matches Ok(seen) && is_id_set(ids@, seen),
            decreases found.len() - k,
        {
            let ghost seen = link_ids(all.take(k as int))->Ok_0;
            proof {
                assert(all.take(k + 1).drop_last() == all.take(k as int));
                assert(all.take(k + 1).last() == found@[k as int]@);
                assert(all.take(k + 1) == all.take(found.len() as int).take(k + 1));
            }
            let id = match &found[k].attr {
                None => {
                    proof {
                        lemma_link_ids_fail(all, k + 1);
                    }
                    return Err(BookMeterError::LinkNotFound);
                },
                Some(href) => match parse_u32(last_part(href.as_str(), '/').as_str()) {
                    Some(id) => id,
                    None => {
                        proof {
                            lemma_link_ids_fail(all, k + 1);
                        }
                        return Err(BookMeterError::InvalidBookId);
                    },
                },
            };
            insert_id(&mut ids, id);
            proof {
                let more = seen.push(id);
                assert forall|x: u32| ids@.contains(x) <==> more.contains(x) by {
                    if more.contains(x) {
                        let i = choose|i: int| 0 <= i < more.len() && more[i] == x;
                        if i < seen.len() {
                            assert(seen[i] == x);
                        }
                    }
                    if seen.contains(x) {
                        let i = choose|i: int| 0 <= i < seen.len() && seen[i] == x;
                        assert(more[i] == x);
                    }
                    if x == id {
                        assert(more[seen.len() as int] == x);
                    }
                }
            }
            k += 1;
        }
        assert(all.take(found.len() as int) == all);
        Ok(ids)
    }

    /// The set of the books' numbers on the wishlist page `document`.
    pub fn get_book_ids_from_html(document: &str) -> (ids: Result<Vec<u32>, BookMeterError>)
        ensures
            match page_ids_of(document) {
                Ok(all) => ids matches Ok(ids) && is_id_set(ids@, all),
                Err(e) => ids == Err::<Vec<u32>, BookMeterError>(e),
            },
    {
        if !is_readable(document) {
            return Err(BookMeterError::DocumentTooLong);
        }
        let links = select(document, TITLE_LINK, "href");
        BookMeterClient::book_ids(&links)
    }
}

proof fn lemma_link_ids_fail(links: Seq<ElementView>, k: int)
    requires
        0 <= k <= links.len(),
        link_ids(links.take(k)) is Err,
    ensures
        link_ids(links) == link_ids(links.take(k)),
    decreases links.len() - k,
{
    if k < links.len() {
        assert(links.take(k + 1).drop_last() == links.take(k));
        lemma_link_ids_fail(links, k + 1);
    } else {
        assert(links.take(k) == links);
    }
}

impl ExternalBookStores {
    /// The storefront's address among the stores.
    pub fn amazon_url(&self) -> (url: Result<String, BookMeterError>)
        ensures
            match amazon_url_in(store_urls(self.resources@)) {
                Some(found) => url matches Ok(url) && url@ == found,
                None => url == Err::<String, BookMeterError>(BookMeterError::AmazonUrlNotFound),
            },
    {
        let ghost urls = store_urls(self.resources@);
        let mut i: usize = 0;
        assert(urls.skip(0) == urls);
        while i < self.resources.len()
            invariant
                i <= self.resources.len(),
                urls == store_urls(self.resources@),
                amazon_url_in(urls) == amazon_url_in(urls.skip(i as int)),
            decreases self.resources.len() - i,
        {
            assert(urls.skip(i as int).drop_first() == urls.skip(i + 1));
            assert(urls.skip(i as int)[0] == self.resources@[i as int].url@);
            let url = self.resources[i].url.as_str();
            if contains_text(url, STORE_MARK) {
                let bare = strip_ends(url, Strip::Whitespace);
                return Ok(strip_ends(bare.as_str(), Strip::Quote));
            }
            i += 1;
        }
        Err(BookMeterError::AmazonUrlNotFound)
    }
}

impl BookMeterBook {
    /// The address of the page of book `id`.
    pub fn page_url(id: u32) -> (url: String)
        ensures
            url@ == "https://bookmeter.com/books/"@ + decimal_digits(id as nat),
    {
        let mut url = "https://bookmeter.com/books/".to_owned();
        url.append(decimal_text(id).as_str());
        url
    }

    /// The address of the list of stores of book `id`.
    pub fn stores_url(id: u32) -> (url: String)
        ensures
            url@ == "https://bookmeter.com/api/v1/books/"@ + decimal_digits(id as nat)
                + "/external_book_stores.json?"@,
    {
        let mut url = "https://bookmeter.com/api/v1/books/".to_owned();
        url.append(decimal_text(id).as_str());
        url.append("/external_book_stores.json?");
        url
    }

    /// The title among the title elements found on a book's page.
    pub fn title(titles: &Option<Vec<Element>>) -> (title: Result<String, BookMeterError>)
        ensures
            match title_in(found_views(*titles)) {
                Ok(found) => title matches Ok(title) && title@ == found,
                Err(e) => title == Err::<String, BookMeterError>(e),
            },
    {
        match titles {
            None => Err(BookMeterError::InvalidSelector),
            Some(titles) => {
                if titles.len() == 0 {
                    return Err(BookMeterError::TitleNotFound);
                }
                assert(element_views(titles@)[0] == titles@[0]@);
                Ok(titles[0].text.clone())
            },
        }
    }

    /// The title that the book's page `document` shows.
    pub fn get_title(document: &str) -> (title: Result<String, BookMeterError>)
        ensures
            match title_of(document) {
                Ok(found) => title matches Ok(title) && title@ == found,
                Err(e) => title == Err::<String, BookMeterError>(e),
            },
    {
        if !is_readable(document) {
            return Err(BookMeterError::DocumentTooLong);
        }
        let titles = select(document, TITLE, "class");
        BookMeterBook::title(&titles)
    }

    /// The book with number `id`, from its page `document` and its stores.
    pub fn from_id(id: u32, document: &str, stores: &ExternalBookStores) -> (book: Result<
        BookMeterBook,
        BookMeterError,
    >)
        ensures
            book_in(id, title_of(document), store_urls(stores.resources@), book),
    {
        let title = match BookMeterBook::get_title(document) {
            Ok(title) => title,
            Err(e) => {
                return Err(e);
            },
        };
        let amazon_url = match stores.amazon_url() {
            Ok(url) => url,
            Err(e) => {
                return Err(e);
            },
        };
        Ok(BookMeterBook { id, title, amazon_url })
    }
}

} // verus!
