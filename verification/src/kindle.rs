//! The storefront: product pages, the e-book edition of a product, and what
//! it costs.

use vstd::prelude::*;
use crate::address::{path_segments, path_segments_of, texts};
use crate::html::{
    element_views, found_views, is_readable, readable, select, selection, Element, ElementView,
};
use crate::model::DiscountRate;
use crate::text::{
    opt_text, parse_u32, parsed_u32, same_text, strip_ends, stripped, utf8_text, Strip,
};

verus! {

/// Why a product page or a price listing gave no answer.
#[derive(Clone, Copy, Debug, PartialEq, Eq, Structural)]
pub enum KindleError {
    /// The URL does not parse, or its path has neither of the two shapes
    /// that name a product.
    InvalidUrl,
    /// The product page has no button for an e-book edition: the product has
    /// none.
    KindleButtonNotFound,
    /// The page could not be fetched, however often it was tried.
    FetchFailed,
    /// What was fetched is not text.
    InvalidHtml,
    /// The listing shows no current price.
    PriceNotFound,
    /// A price or a number of points is not a number.
    InvalidNumber,
    /// The list price is 0, of which no discount is a fraction.
    ZeroBasisPrice,
    /// A selector was not understood.
    InvalidSelector,
    /// The page is longer than any that is read.
    DocumentTooLong,
}

/// How often a fetch is tried before it is given up.
pub const MAX_RETRY: u8 = 100;

/// How long to wait before a fetch is tried again, in seconds.
pub const RETRY_PAUSE_SECONDS: u64 = 1;

/// The button on a product page that leads to the e-book edition.
pub const KINDLE_BUTTON: &'static str = "#tmm-grid-swatch-KINDLE a.a-button-text.a-text-left";

/// The link that such a button carries where the page itself shows the
/// e-book edition.
pub const NO_LINK: &'static str = "javascript:void(0)";

/// The site that the links on a product page are relative to.
pub const STOREFRONT: &'static str = "https://www.amazon.co.jp";

/// The element of a price listing that carries the current price.
pub const PRICE: &'static str = ".item-price > span";

/// The element of a price listing that shows the struck-through list price.
pub const BASIS_PRICE: &'static str = ".item-price > s";

/// The element of a price listing that carries the points handed back.
pub const POINT: &'static str = ".item-point > span";

/// What an e-book costs today.
#[derive(Clone, Copy, Debug, PartialEq, Eq, Structural)]
pub struct Kindle {
    /// The list price.
    pub basis_price: u32,
    /// The current price.
    pub price: u32,
    pub discount_rate: DiscountRate,
}

/// What to do after one attempt to fetch a page.
#[derive(Debug, PartialEq, Eq)]
pub enum Fetch {
    /// The page.
    Html(String),
    /// Wait `seconds`, then try again; `failures` attempts have failed.
    Retry { failures: u8, seconds: u64 },
    /// Give up.
    Failed(KindleError),
}

/// The index of the first segment equal to `word`; the number of segments
/// when there is none.
pub open spec fn position_of(segments: Seq<Seq<char>>, word: Seq<char>) -> int
    decreases segments.len(),
{
    if segments.len() == 0 || segments[0] == word {
        0
    } else {
        1 + position_of(segments.drop_first(), word)
    }
}

/// What [`position_of`] finds: the word, with no occurrence before it; or
/// no occurrence at all.
pub proof fn lemma_position_of(segments: Seq<Seq<char>>, word: Seq<char>)
    ensures
        0 <= position_of(segments, word) <= segments.len(),
        position_of(segments, word) < segments.len() ==> segments[position_of(segments, word)]
            == word,
        forall|i: int| 0 <= i < position_of(segments, word) ==> segments[i] != word,
    decreases segments.len(),
{
    if segments.len() > 0 && segments[0] != word {
        let rest = segments.drop_first();
        lemma_position_of(rest, word);
        assert forall|i: int| 0 <= i < position_of(segments, word) implies segments[i] != word by {
            if i > 0 {
                assert(rest[i - 1] == segments[i]);
            }
        }
    }
}

/// The product identifier in a path: the segment behind the first segment
/// `product`, or, in a path without `product`, behind the first segment
/// `dp`; none where the path has neither, or nothing behind it.
pub open spec fn id_in(segments: Seq<Seq<char>>) -> Option<Seq<char>> {
    let product = position_of(segments, "product"@);
    let dp = position_of(segments, "dp"@);
    let at = if product < segments.len() {
        product
    } else {
        dp
    };
    if at + 1 < segments.len() {
        Some(segments[at + 1])
    } else {
        None
    }
}

/// The product identifier that a storefront URL names, quotes around the
/// URL set aside.
pub open spec fn id_of_url(url: Seq<char>) -> Result<Seq<char>, KindleError> {
    match path_segments_of(stripped(url, Strip::Quote)) {
        Some(segments) => match id_in(segments) {
            Some(id) => Ok(id),
            None => Err(KindleError::InvalidUrl),
        },
        None => Err(KindleError::InvalidUrl),
    }
}

/// Where the button of a product page leads: nowhere (`Ok(None)`) where it
/// carries no link or the placeholder, then the page's product is itself the
/// e-book; else to the URL given. A page without the button is an error.
pub open spec fn link_of(buttons: Option<Seq<ElementView>>) -> Result<
    Option<Seq<char>>,
    KindleError,
> {
    match buttons {
        None => Err(KindleError::InvalidSelector),
        Some(buttons) => if buttons.len() == 0 {
            Err(KindleError::KindleButtonNotFound)
        } else {
            match buttons[0].attr {
                None => Ok(None),
                Some(href) => if href == NO_LINK@ {
                    Ok(None)
                } else {
                    Ok(Some(STOREFRONT@ + href))
                },
            }
        },
    }
}

/// The identifier of the e-book edition of the product at `url`, read off
/// the product's page `document`. A URL that names no product is reported
/// before a page that is too long to be read.
pub open spec fn kindle_id_of(url: Seq<char>, document: &str) -> Result<Seq<char>, KindleError> {
    match id_of_url(url) {
        Err(e) => Err(e),
        Ok(id) => if !readable(document) {
            Err(KindleError::DocumentTooLong)
        } else {
            match link_of(selection(document@, KINDLE_BUTTON@, "href"@)) {
                Err(e) => Err(e),
                Ok(None) => Ok(id),
                Ok(Some(link)) => id_of_url(link),
            }
        },
    }
}

/// A string result as characters.
pub open spec fn text_result(r: Result<String, KindleError>) -> Result<Seq<char>, KindleError> {
    match r {
        Ok(s) => Ok(s@),
        Err(e) => Err(e),
    }
}

/// A link result as characters.
pub open spec fn link_result(r: Result<Option<String>, KindleError>) -> Result<
    Option<Seq<char>>,
    KindleError,
> {
    match r {
        Ok(link) => Ok(opt_text(link)),
        Err(e) => Err(e),
    }
}

/// The value of the attribute of the first element that has it.
pub open spec fn first_attr(elements: Seq<ElementView>) -> Option<Seq<char>>
    decreases elements.len(),
{
    if elements.len() == 0 {
        None
    } else if elements[0].attr.is_some() {
        elements[0].attr
    } else {
        first_attr(elements.drop_first())
    }
}

/// The current price on a listing: the number in the first price
/// attribute.
pub open spec fn current_price_in(prices: Option<Seq<ElementView>>) -> Result<u32, KindleError> {
    match prices {
        None => Err(KindleError::InvalidSelector),
        Some(prices) => match first_attr(prices) {
            None => Err(KindleError::PriceNotFound),
            Some(text) => match parsed_u32(text) {
                Some(price) => Ok(price),
                None => Err(KindleError::InvalidNumber),
            },
        },
    }
}

/// The list price on a listing: the number that the first struck-through
/// element shows, white space around it set aside; the current price where
/// nothing is struck through.
pub open spec fn list_price_in(struck: Option<Seq<ElementView>>, price: u32) -> Result<
    u32,
    KindleError,
> {
    match struck {
        None => Err(KindleError::InvalidSelector),
        Some(struck) => if struck.len() == 0 {
            Ok(price)
        } else {
            match parsed_u32(stripped(struck[0].text, Strip::Whitespace)) {
                Some(basis) => Ok(basis),
                None => Err(KindleError::InvalidNumber),
            }
        },
    }
}

/// The points handed back: the number in the first points attribute; 0
/// where there is none.
pub open spec fn points_in(points: Option<Seq<ElementView>>) -> Result<u32, KindleError> {
    match points {
        None => Err(KindleError::InvalidSelector),
        Some(points) => match first_attr(points) {
            None => Ok(0u32),
            Some(text) => match parsed_u32(text) {
                Some(point) => Ok(point),
                None => Err(KindleError::InvalidNumber),
            },
        },
    }
}

/// What an e-book costs, from the three kinds of element of its listing.
/// The first of them that fails decides the error.
pub open spec fn kindle_in(
    prices: Option<Seq<ElementView>>,
    struck: Option<Seq<ElementView>>,
    points: Option<Seq<ElementView>>,
) -> Result<Kindle, KindleError> {
    match current_price_in(prices) {
        Err(e) => Err(e),
        Ok(price) => match list_price_in(struck, price) {
            Err(e) => Err(e),
            Ok(basis) => match points_in(points) {
                Err(e) => Err(e),
                Ok(point) => if basis == 0 {
                    Err(KindleError::ZeroBasisPrice)
                } else {
                    Ok(
                        Kindle {
                            basis_price: basis,
                            price,
                            discount_rate: DiscountRate::of_prices(basis, price, point),
                        },
                    )
                },
            },
        },
    }
}

/// What an e-book costs, read off its listing `document`; an error for a
/// listing that is too long to be read.
pub open spec fn kindle_of(document: &str) -> Result<Kindle, KindleError> {
    if !readable(document) {
        Err(KindleError::DocumentTooLong)
    } else {
        kindle_in(
            selection(document@, PRICE@, "data-price"@),
            selection(document@, BASIS_PRICE@, "data-price"@),
            selection(document@, POINT@, "data-point"@),
        )
    }
}

/// A listing that shows the current price `c`, the list price `l` above 0
/// and `r` points gives these two prices and the discount `1 - (c - r) / l`,
/// as the fraction `(l - (c - r)) / l`.
pub proof fn lemma_listing_discount(document: &str, c: u32, l: u32, r: u32)
    requires
        readable(document),
        current_price_in(selection(document@, PRICE@, "data-price"@)) == Ok::<u32, KindleError>(c),
        list_price_in(selection(document@, BASIS_PRICE@, "data-price"@), c) == Ok::<
            u32,
            KindleError,
        >(l),
        points_in(selection(document@, POINT@, "data-point"@)) == Ok::<u32, KindleError>(r),
        l > 0,
    ensures
        kindle_of(document) == Ok::<Kindle, KindleError>(
            Kindle {
                basis_price: l,
                price: c,
                discount_rate: DiscountRate { numerator: (l - (c - r)) as i64, denominator: l },
            },
        ),
        kindle_of(document)->Ok_0.discount_rate.is_ratio(l - (c - r), l as int),
{
}

/// What follows from one attempt to fetch a page, `failures` attempts
/// having failed before: the page where the attempt brought bytes that are
/// text; another attempt after a pause where it brought nothing and fewer than
/// [`MAX_RETRY`] attempts have failed with it; else an error.
pub open spec fn fetch_step(failures: u8, output: Option<Seq<u8>>, step: Fetch) -> bool {
    match output {
        Some(bytes) => if vstd::utf8::valid_utf8(bytes) {
            step matches Fetch::Html(html) && html@ == vstd::utf8::decode_utf8(bytes)
        } else {
            step == Fetch::Failed(KindleError::InvalidHtml)
        },
        None => if failures + 1 >= MAX_RETRY {
            step == Fetch::Failed(KindleError::FetchFailed)
        } else {
            step == (Fetch::Retry { failures: (failures + 1) as u8, seconds: RETRY_PAUSE_SECONDS })
        },
    }
}

/// The discount on a listing is `1 - (price - point) / basis`, exactly: a
/// fraction over the list price whose numerator is the list price less what
/// is paid after the points. Where nothing is struck through, the list price
/// is the current price; where no points are shown, they are 0.
pub proof fn lemma_discount(
    prices: Option<Seq<ElementView>>,
    struck: Option<Seq<ElementView>>,
    points: Option<Seq<ElementView>>,
)
    requires
        kindle_in(prices, struck, points) is Ok,
    ensures
        ({
            let kindle = kindle_in(prices, struck, points)->Ok_0;
            let point = points_in(points)->Ok_0;
            &&& current_price_in(prices) == Ok::<u32, KindleError>(kindle.price)
            &&& list_price_in(struck, kindle.price) == Ok::<u32, KindleError>(kindle.basis_price)
            &&& points_in(points) is Ok
            &&& kindle.basis_price > 0
            &&& kindle.discount_rate.denominator == kindle.basis_price
            &&& kindle.discount_rate.numerator == kindle.basis_price - (kindle.price - point)
            &&& kindle.discount_rate.is_ratio(
                kindle.basis_price - (kindle.price - point),
                kindle.basis_price as int,
            )
            &&& kindle.rebate() == point
            &&& struck == Some(Seq::<ElementView>::empty()) ==> kindle.basis_price == kindle.price
            &&& points == Some(Seq::<ElementView>::empty()) ==> point == 0
        }),
{
}

fn position(segments: &Vec<String>, word: &str) -> (at: usize)
    ensures
        at == position_of(texts(segments@), word@),
{
    let mut at: usize = 0;
    proof {
        lemma_position_of(texts(segments@), word@);
    }
    while at < segments.len() && !same_text(segments[at].as_str(), word)
        invariant
            at <= segments.len(),
            forall|i: int| 0 <= i < at ==> texts(segments@)[i] != word@,
        decreases segments.len() - at,
    {
        at += 1;
    }
    proof {
        let found = position_of(texts(segments@), word@);
        if at < found {
            assert(texts(segments@)[at as int] == word@);
        }
    }
    at
}

fn first_with_attr(elements: &Vec<Element>) -> (value: Option<&String>)
    ensures
        match value {
            Some(value) => Some(value@),
            None => None,
        } == first_attr(element_views(elements@)),
{
    let mut i: usize = 0;
    let ghost all = element_views(elements@);
    assert(all.skip(0) == all);
    while i < elements.len()
        invariant
            i <= elements.len(),
            all == element_views(elements@),
            first_attr(all) == first_attr(all.skip(i as int)),
        decreases elements.len() - i,
    {
        assert(all.skip(i as int).drop_first() == all.skip(i + 1));
        assert(all.skip(i as int)[0] == elements@[i as int]@);
        match &elements[i].attr {
            Some(value) => {
                return Some(value);
            },
            None => {},
        }
        i += 1;
    }
    None
}

impl Kindle {
    /// The discount is a fraction of the list price.
    pub open spec fn wf(self) -> bool {
        self.basis_price > 0 && self.discount_rate.denominator == self.basis_price
    }

    /// The points handed back, as the discount implies them:
    /// `discount_rate == 1 - (price - rebate) / basis_price`.
    pub open spec fn rebate(self) -> int {
        self.discount_rate.numerator - self.basis_price + self.price
    }

    /// The address of the price listing of the e-book `kindle_id`, quotes
    /// around the identifier set aside.
    pub fn listing_url(kindle_id: &str) -> (url: String)
        ensures
            url@ == "https://www.listasin.net/kndlsl/asins/"@ + stripped(kindle_id@, Strip::Quote),
    {
        let mut url = "https://www.listasin.net/kndlsl/asins/".to_owned();
        url.append(strip_ends(kindle_id, Strip::Quote).as_str());
        url
    }

    /// The address of the storefront's page of the e-book `kindle_id`.
    pub fn product_url(kindle_id: &str) -> (url: String)
        ensures
            url@ == STOREFRONT@ + "/dp/"@ + kindle_id@,
    {
        let mut url = STOREFRONT.to_owned();
        url.append("/dp/");
        url.append(kindle_id);
        url
    }

    /// The product identifier in the segments of a path.
    pub fn product_id(segments: &Vec<String>) -> (id: Option<String>)
        ensures
            opt_text(id) == id_in(texts(segments@)),
    {
        let product = position(segments, "product");
        let at = if product < segments.len() {
            product
        } else {
            position(segments, "dp")
        };
        if at < segments.len() && at + 1 < segments.len() {
            Some(segments[at + 1].clone())
        } else {
            None
        }
    }

    /// The product identifier that the storefront URL `url` names.
    pub fn convert_amazon_url_to_id(url: &str) -> (id: Result<String, KindleError>)
        ensures
            text_result(id) == id_of_url(url@),
    {
        let bare = strip_ends(url, Strip::Quote);
        match path_segments(bare.as_str()) {
            Some(segments) => match Kindle::product_id(&segments) {
                Some(id) => Ok(id),
                None => Err(KindleError::InvalidUrl),
            },
            None => Err(KindleError::InvalidUrl),
        }
    }

    /// Where the buttons found on a product page lead.
    pub fn kindle_link(buttons: &Option<Vec<Element>>) -> (link: Result<
        Option<String>,
        KindleError,
    >)
        ensures
            link_result(link) == link_of(found_views(*buttons)),
    {
        match buttons {
            None => Err(KindleError::InvalidSelector),
            Some(buttons) => {
                if buttons.len() == 0 {
                    return Err(KindleError::KindleButtonNotFound);
                }
                assert(element_views(buttons@)[0] == buttons@[0]@);
                match &buttons[0].attr {
                    None => Ok(None),
                    Some(href) => {
                        if same_text(href.as_str(), NO_LINK) {
                            Ok(None)
                        } else {
                            let mut link = STOREFRONT.to_owned();
                            link.append(href.as_str());
                            Ok(Some(link))
                        }
                    },
                }
            },
        }
    }

    /// The identifier of the e-book edition of the product at `url`, whose
    /// page is `document`: the product's own identifier where the page's
    /// button leads nowhere, else the identifier that the button's link
    /// names.
    pub fn convert_amazon_url_to_kindle_id(url: &str, document: &str) -> (id: Result<
        String,
        KindleError,
    >)
        ensures
            text_result(id) == kindle_id_of(url@, document),
    {
        let own = match Kindle::convert_amazon_url_to_id(url) {
            Ok(own) => own,
            Err(e) => {
                return Err(e);
            },
        };
        if !is_readable(document) {
            return Err(KindleError::DocumentTooLong);
        }
        let buttons = select(document, KINDLE_BUTTON, "href");
        match Kindle::kindle_link(&buttons) {
            Err(e) => Err(e),
            Ok(None) => Ok(own),
            Ok(Some(link)) => Kindle::convert_amazon_url_to_id(link.as_str()),
        }
    }

    /// The current price among the price elements of a listing.
    pub fn current_price(prices: &Option<Vec<Element>>) -> (price: Result<u32, KindleError>)
        ensures
            price == current_price_in(found_views(*prices)),
    {
        match prices {
            None => Err(KindleError::InvalidSelector),
            Some(prices) => match first_with_attr(prices) {
                None => Err(KindleError::PriceNotFound),
                Some(text) => match parse_u32(text.as_str()) {
                    Some(price) => Ok(price),
                    None => Err(KindleError::InvalidNumber),
                },
            },
        }
    }

    /// The list price among the struck-through elements of a listing whose
    /// current price is `price`.
    pub fn list_price(struck: &Option<Vec<Element>>, price: u32) -> (basis: Result<
        u32,
        KindleError,
    >)
        ensures
            basis == list_price_in(found_views(*struck), price),
    {
        match struck {
            None => Err(KindleError::InvalidSelector),
            Some(struck) => {
                if struck.len() == 0 {
                    return Ok(price);
                }
                assert(element_views(struck@)[0] == struck@[0]@);
                let shown = strip_ends(struck[0].text.as_str(), Strip::Whitespace);
                match parse_u32(shown.as_str()) {
                    Some(basis) => Ok(basis),
                    None => Err(KindleError::InvalidNumber),
                }
            },
        }
    }

    /// The points handed back among the points elements of a listing.
    pub fn points(points: &Option<Vec<Element>>) -> (point: Result<u32, KindleError>)
        ensures
            point == points_in(found_views(*points)),
    {
        match points {
            None => Err(KindleError::InvalidSelector),
            Some(points) => match first_with_attr(points) {
                None => Ok(0),
                Some(text) => match parse_u32(text.as_str()) {
                    Some(point) => Ok(point),
                    None => Err(KindleError::InvalidNumber),
                },
            },
        }
    }

    /// What an e-book costs, from the three kinds of element found on its
    /// listing. The discount is `1 - (price - point) / basis_price`, exactly.
    pub fn from_elements(
        prices: &Option<Vec<Element>>,
        struck: &Option<Vec<Element>>,
        points: &Option<Vec<Element>>,
    ) -> (kindle: Result<Kindle, KindleError>)
        ensures
            kindle == kindle_in(found_views(*prices), found_views(*struck), found_views(*points)),
            kindle matches Ok(k) ==> k.wf(),
    {
        let price = match Kindle::current_price(prices) {
            Ok(price) => price,
            Err(e) => {
                return Err(e);
            },
        };
        let basis = match Kindle::list_price(struck, price) {
            Ok(basis) => basis,
            Err(e) => {
                return Err(e);
            },
        };
        let point = match Kindle::points(points) {
            Ok(point) => point,
            Err(e) => {
                return Err(e);
            },
        };
        match DiscountRate::from_prices(basis, price, point) {
            Some(discount_rate) => Ok(Kindle { basis_price: basis, price, discount_rate }),
            None => Err(KindleError::ZeroBasisPrice),
        }
    }

    /// What an e-book costs, read off `document`, the listing that its
    /// identifier leads to (see [`Kindle::listing_url`]).
    pub fn from_id(document: &str) -> (kindle: Result<Kindle, KindleError>)
        ensures
            kindle == kindle_of(document),
            kindle matches Ok(k) ==> k.wf(),
    {
        if !is_readable(document) {
            return Err(KindleError::DocumentTooLong);
        }
        let prices = select(document, PRICE, "data-price");
        let struck = select(document, BASIS_PRICE, "data-price");
        let points = select(document, POINT, "data-point");
        Kindle::from_elements(&prices, &struck, &points)
    }

    /// What to do after one attempt to fetch a page, `failures` attempts
    /// having failed before; `output` is what the attempt brought, if
    /// anything.
    pub fn after_attempt(failures: u8, output: Option<Vec<u8>>) -> (step: Fetch)
        ensures
            fetch_step(
                failures,
                match output {
                    Some(bytes) => Some(bytes@),
                    None => None,
                },
                step,
            ),
    {
        match output {
            Some(bytes) => match utf8_text(bytes) {
                Some(html) => Fetch::Html(html),
                None => Fetch::Failed(KindleError::InvalidHtml),
            },
            None => {
                if failures >= MAX_RETRY - 1 {
                    Fetch::Failed(KindleError::FetchFailed)
                } else {
                    Fetch::Retry { failures: failures + 1, seconds: RETRY_PAUSE_SECONDS }
                }
            },
        }
    }
}

} // verus!
