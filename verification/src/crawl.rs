//! Reading the whole wishlist, one fetch at a time.
//!
//! A crawl fetches nothing itself. It says what to fetch next, is told what
//! came back, and at its end holds the wished books. First come the pages of
//! the wishlist, from page 1 up to the page limit or to the first page
//! without a book; then, for each book found, its own page and its stores.
//! Whatever fails ends the crawl: a wishlist read in part is no wishlist.

use vstd::prelude::*;
use crate::bookmeter::{
    book_in, increasing, insert_id, is_id_set, page_ids_of, store_urls, title_of, BookMeterBook,
    BookMeterClient, BookMeterError, ExternalBookStores, PAUSE_SECONDS,
};

verus! {

/// What a crawl asks for next.
#[derive(Clone, Copy, Debug, PartialEq, Eq, Structural)]
pub enum CrawlStep {
    /// Wait `pause` seconds, then fetch page `page` of the wishlist.
    FetchPage { page: u16, pause: u64 },
    /// Wait `pause` seconds, then fetch the page and the stores of book
    /// `id`.
    FetchBook { id: u32, pause: u64 },
    /// Nothing: the crawl is at its end.
    Done,
}

/// A crawl of the wishlist, as far as it has come.
#[derive(Debug)]
pub struct Crawl {
    max_page: u16,
    pages_read: u16,
    paging: bool,
    failed: Option<BookMeterError>,
    ids: Vec<u32>,
    books: Vec<BookMeterBook>,
}

/// A [`Crawl`] as plain values.
pub struct CrawlView {
    /// How many pages of the wishlist are read at most.
    pub max_page: u16,
    /// How many pages have been read.
    pub pages_read: u16,
    /// Whether another page is to be read.
    pub paging: bool,
    /// What ended the crawl early.
    pub failed: Option<BookMeterError>,
    /// The numbers of the books found, each once, rising.
    pub ids: Seq<u32>,
    /// The books read so far, in the order of `ids`.
    pub books: Seq<BookMeterBook>,
}

impl View for Crawl {
    type V = CrawlView;

    closed spec fn view(&self) -> CrawlView {
        CrawlView {
            max_page: self.max_page,
            pages_read: self.pages_read,
            paging: self.paging,
            failed: self.failed,
            ids: self.ids@,
            books: self.books@,
        }
    }
}

impl CrawlView {
    /// Pages are read before books; the books read are the first of those
    /// found.
    pub open spec fn wf(self) -> bool {
        &&& increasing(self.ids)
        &&& self.pages_read <= self.max_page
        &&& self.paging ==> self.pages_read < self.max_page && self.books.len() == 0
        &&& self.books.len() <= self.ids.len()
        &&& forall|i: int|
            0 <= i < self.books.len() ==> (#[trigger] self.books[i]).id == self.ids[i]
    }

    /// What the crawl asks for next.
    pub open spec fn next(self) -> CrawlStep {
        if self.failed.is_some() {
            CrawlStep::Done
        } else if self.paging {
            CrawlStep::FetchPage {
                page: (self.pages_read + 1) as u16,
                pause: if self.pages_read == 0 {
                    0
                } else {
                    PAUSE_SECONDS
                },
            }
        } else if self.books.len() < self.ids.len() {
            CrawlStep::FetchBook { id: self.ids[self.books.len() as int], pause: PAUSE_SECONDS }
        } else {
            CrawlStep::Done
        }
    }

    /// Whether the two crawls differ in nothing but what ended them.
    pub open spec fn same_progress(self, other: CrawlView) -> bool {
        &&& self.max_page == other.max_page
        &&& self.pages_read == other.pages_read
        &&& self.paging == other.paging
        &&& self.ids == other.ids
        &&& self.books == other.books
    }
}

impl Crawl {
    #[verifier::type_invariant]
    spec fn inv(self) -> bool {
        self@.wf()
    }

    /// How many pages have been read.
    pub fn pages_read(&self) -> (n: u16)
        ensures
            n == self@.pages_read,
    {
        self.pages_read
    }

    /// The numbers of the books found so far, each once, rising.
    pub fn ids(&self) -> (ids: &Vec<u32>)
        ensures
            ids@ == self@.ids,
    {
        &self.ids
    }

    /// What ended the crawl early.
    pub fn failed(&self) -> (failed: Option<BookMeterError>)
        ensures
            failed == self@.failed,
    {
        self.failed
    }

    /// Executable form of [`Crawl::next`].
    pub fn next_step(&self) -> (step: CrawlStep)
        ensures
            step == self@.next(),
    {
        proof {
            use_type_invariant(self);
        }
        if self.failed.is_some() {
            CrawlStep::Done
        } else if self.paging {
            CrawlStep::FetchPage {
                page: self.pages_read + 1,
                pause: if self.pages_read == 0 {
                    0
                } else {
                    PAUSE_SECONDS
                },
            }
        } else if self.books.len() < self.ids.len() {
            CrawlStep::FetchBook { id: self.ids[self.books.len()], pause: PAUSE_SECONDS }
        } else {
            CrawlStep::Done
        }
    }

    /// Tells the crawl what the wishlist page that it asked for holds. A
    /// page without a book ends the paging, and so does the last page
    /// allowed; the books of any other page join those found. A page that
    /// cannot be read ends the crawl.
    pub fn page_read(self, document: &str) -> (out: (Crawl, Result<(), BookMeterError>))
        ensures
            out.0@.wf(),
            !(self@.next() is FetchPage) ==> out.1 == Err::<(), BookMeterError>(
                BookMeterError::Unexpected,
            ) && out.0@ == self@,
            self@.next() is FetchPage ==> match page_ids_of(document) {
                Err(e) => out.1 == Err::<(), BookMeterError>(e) && out.0@.failed == Some(e)
                    && out.0@.same_progress(self@),
                Ok(found) => {
                    &&& out.1.is_ok()
                    &&& out.0@.failed.is_none()
                    &&& out.0@.max_page == self@.max_page
                    &&& out.0@.pages_read == self@.pages_read + 1
                    &&& out.0@.books == self@.books
                    &&& is_id_set(out.0@.ids, self@.ids + found)
                    &&& out.0@.paging == (found.len() > 0 && out.0@.pages_read < out.0@.max_page)
                },
            },
    {
        proof {
            use_type_invariant(&self);
        }
        if self.failed.is_some() || !self.paging {
            return (self, Err(BookMeterError::Unexpected));
        }
        let ghost before = self.ids@;
        let ghost found = page_ids_of(document);
        let Crawl { max_page, pages_read, paging, failed, ids, books } = self;
        let page = match BookMeterClient::get_book_ids_from_html(document) {
            Ok(page) => page,
            Err(e) => {
                return (
                    Crawl { max_page, pages_read, paging, failed: Some(e), ids, books },
                    Err(e),
                );
            },
        };
        let ghost all = found->Ok_0;
        proof {
            if all.len() > 0 {
                assert(all.contains(all[0]));
                assert(page@.contains(all[0]));
            }
            if page@.len() > 0 {
                assert(page@.contains(page@[0]));
            }
        }
        let mut ids = ids;
        let mut k: usize = 0;
        while k < page.len()
            invariant
                k <= page.len(),
                increasing(ids@),
                forall|x: u32|
                    #![trigger ids@.contains(x)]
                    ids@.contains(x) <==> before.contains(x) || page@.take(k as int).contains(x),
            decreases page.len() - k,
        {
            let ghost seen = page@.take(k as int);
            let ghost so_far = ids@;
            insert_id(&mut ids, page[k]);
            proof {
                let more = page@.take(k + 1);
                assert(more == seen.push(page@[k as int]));
                assert forall|x: u32| ids@.contains(x) <==> before.contains(x) || more.contains(
                    x,
                ) by {
                    assert(ids@.contains(x) <==> so_far.contains(x) || x == page@[k as int]);
                    assert(so_far.contains(x) <==> before.contains(x) || seen.contains(x));
                    if more.contains(x) {
                        let i = choose|i: int| 0 <= i < more.len() && more[i] == x;
                        if i < seen.len() {
                            assert(seen[i] == x);
                        }
                    }
                    if seen.contains(x) {
                        let i = choose|i: int| 0 <= i < seen.len() && seen[i] == x;
                        assert(more[i] == x);
                    }
                    if x == page@[k as int] {
                        assert(more[k as int] == x);
                    }
                }
            }
            k += 1;
        }
        proof {
            assert(page@.take(page.len() as int) == page@);
            let joined = before + all;
            assert forall|x: u32| ids@.contains(x) <==> joined.contains(x) by {
                if joined.contains(x) {
                    let i = choose|i: int| 0 <= i < joined.len() && joined[i] == x;
                    if i < before.len() {
                        assert(before[i] == x);
                    } else {
                        assert(all[i - before.len()] == x);
                        assert(all.contains(x));
                    }
                }
                if before.contains(x) {
                    let i = choose|i: int| 0 <= i < before.len() && before[i] == x;
                    assert(joined[i] == x);
                }
                if all.contains(x) {
                    let i = choose|i: int| 0 <= i < all.len() && all[i] == x;
                    assert(joined[before.len() + i] == x);
                }
            }
        }
        let pages_read = pages_read + 1;
        let paging = page.len() > 0 && pages_read < max_page;
        (Crawl { max_page, pages_read, paging, failed, ids, books }, Ok(()))
    }

    /// Tells the crawl what the page and the stores of the book that it
    /// asked for hold. A book that cannot be read ends the crawl.
    pub fn book_read(self, document: &str, stores: &ExternalBookStores) -> (out: (
        Crawl,
        Result<(), BookMeterError>,
    ))
        ensures
            out.0@.wf(),
            !(self@.next() is FetchBook) ==> out.1 == Err::<(), BookMeterError>(
                BookMeterError::Unexpected,
            ) && out.0@ == self@,
            self@.next() matches CrawlStep::FetchBook { id, .. } ==> {
                &&& out.0@.max_page == self@.max_page
                &&& out.0@.pages_read == self@.pages_read
                &&& out.0@.paging == self@.paging
                &&& out.0@.ids == self@.ids
                &&& match out.1 {
                    Ok(_) => out.0@.failed.is_none() && out.0@.books.len() == self@.books.len() + 1
                        && out.0@.books.drop_last() == self@.books && book_in(
                        id,
                        title_of(document),
                        store_urls(stores.resources@),
                        Ok(out.0@.books.last()),
                    ),
                    Err(e) => out.0@.failed == Some(e) && out.0@.books == self@.books && book_in(
                        id,
                        title_of(document),
                        store_urls(stores.resources@),
                        Err(e),
                    ),
                }
            },
    {
        proof {
            use_type_invariant(&self);
        }
        if self.failed.is_some() || self.paging || self.books.len() >= self.ids.len() {
            return (self, Err(BookMeterError::Unexpected));
        }
        let id = self.ids[self.books.len()];
        let Crawl { max_page, pages_read, paging, failed, ids, books } = self;
        match BookMeterBook::from_id(id, document, stores) {
            Ok(book) => {
                let ghost before = books@;
                let mut books = books;
                books.push(book);
                assert(books@.drop_last() == before);
                (Crawl { max_page, pages_read, paging, failed, ids, books }, Ok(()))
            },
            Err(e) => (Crawl { max_page, pages_read, paging, failed: Some(e), ids, books }, Err(e)),
        }
    }

    /// Tells the crawl that what it asked for could not be fetched, which
    /// ends it.
    pub fn fetch_failed(self) -> (out: Crawl)
        ensures
            out@.wf(),
            out@.same_progress(self@),
            out@.failed == Some(
                match self@.failed {
                    Some(e) => e,
                    None => BookMeterError::FetchFailed,
                },
            ),
    {
        proof {
            use_type_invariant(&self);
        }
        let Crawl { max_page, pages_read, paging, failed, ids, books } = self;
        let failed = match failed {
            Some(e) => Some(e),
            None => Some(BookMeterError::FetchFailed),
        };
        Crawl { max_page, pages_read, paging, failed, ids, books }
    }

    /// The wished books, once the crawl has come to its end: one book for
    /// each number found, in rising order of the numbers. What ended the
    /// crawl early is the error.
    pub fn finish(self) -> (books: Result<Vec<BookMeterBook>, BookMeterError>)
        ensures
            match self@.failed {
                Some(e) => books == Err::<Vec<BookMeterBook>, BookMeterError>(e),
                None => if self@.next() is Done {
                    &&& books matches Ok(books)
                    &&& books@ == self@.books
                    &&& books@.len() == self@.ids.len()
                    &&& forall|i: int|
                        0 <= i < books@.len() ==> (#[trigger] books@[i]).id == self@.ids[i]
                    &&& forall|i: int, j: int|
                        0 <= i < j < books@.len() ==> (#[trigger] books@[i]).id < (
                        #[trigger] books@[j]).id
                } else {
                    books == Err::<Vec<BookMeterBook>, BookMeterError>(BookMeterError::Unfinished)
                },
            },
    {
        proof {
            use_type_invariant(&self);
        }
        match self.failed {
            Some(e) => Err(e),
            None => {
                if self.paging || self.books.len() < self.ids.len() {
                    Err(BookMeterError::Unfinished)
                } else {
                    Ok(self.books)
                }
            },
        }
    }
}

impl BookMeterClient {
    /// Begins a crawl of at most `max_page` pages of the wishlist.
    pub fn get_books(&self, max_page: u16) -> (crawl: Crawl)
        ensures
            crawl@.wf(),
            crawl@.max_page == max_page,
            crawl@.pages_read == 0,
            crawl@.paging == (max_page > 0),
            crawl@.failed.is_none(),
            crawl@.ids.len() == 0,
            crawl@.books.len() == 0,
    {
        Crawl {
            max_page,
            pages_read: 0,
            paging: max_page > 0,
            failed: None,
            ids: Vec::new(),
            books: Vec::new(),
        }
    }
}

} // verus!
