//! Reading a venue's feed: from a text frame to the snapshot it carries, and
//! from the snapshot into the store.

use vstd::prelude::*;
use vstd::string::StringExecFns;
use crate::asset::Asset;
use crate::exchange::Exchange;
use crate::order_book::OrderBook;
use crate::order_book::OrderBookStore;
use crate::order_book::book_of;
use crate::order_book::merged;
use crate::order_book::OrderBookView;

verus! {

/// Why a frame gave no snapshot.
#[derive(Clone, Copy, Debug, PartialEq, Eq, Structural)]
pub enum ParseError {
    /// The frame is not a JSON document.
    Document,
    /// A field is missing or is not of the expected kind.
    Shape,
    /// A price or an amount is not a decimal number that fits.
    Number,
}

/// The order-book part of a frame, its numbers still as text:
/// `asks: [["3", "1"], ["2.9", "1"], ...]`, and `bids` alike.
#[derive(Clone, Debug, PartialEq, Eq)]
pub struct ResponseData {
    pub exchange: Option<Exchange>,
    pub asks: Vec<Vec<String>>,
    pub bids: Vec<Vec<String>>,
}

pub struct ResponseDataView {
    pub exchange: Option<Exchange>,
    pub asks: Seq<Seq<Seq<char>>>,
    pub bids: Seq<Seq<Seq<char>>>,
}

impl View for ResponseData {
    type V = ResponseDataView;

    open spec fn view(&self) -> ResponseDataView {
        ResponseDataView {
            exchange: self.exchange,
            asks: self.asks.deep_view(),
            bids: self.bids.deep_view(),
        }
    }
}

/// `serde_json::Value`, a JSON document or a part of one. Nothing inside it
/// is seen here: it is read through the four functions below.
#[verifier::external_type_specification]
#[verifier::external_body]
pub struct ExJsonValue(serde_json::Value);

/// `serde_json::Error`, why a text is no JSON document. It is not looked into.
#[verifier::external_type_specification]
#[verifier::external_body]
pub struct ExJsonError(serde_json::Error);

/// `url::Url`, an absolute URL. It is carried to whoever connects.
#[verifier::external_type_specification]
#[verifier::external_body]
pub struct ExAddress(url::Url);

/// The address that `url` reads from a text, where it is an absolute URL.
pub uninterp spec fn url_of(text: Seq<char>) -> Option<url::Url>;

/// `url::Url::parse`, its error dropped. Trusted: the result depends on the
/// text alone, and is `None` exactly where `url` reads no absolute URL from it.
#[verifier::external_body]
fn read_address(text: &str) -> (r: Option<url::Url>)
    ensures
        r == url_of(text@),
{
    url::Url::parse(text).ok()
}

/// The value that `serde_json` reads from a text, where it is a JSON document.
pub uninterp spec fn json_document(text: Seq<char>) -> Option<serde_json::Value>;

/// The member of a JSON object under a key; `None` for a value that is no
/// object or has no such member.
pub uninterp spec fn json_member(value: serde_json::Value, key: Seq<char>) -> Option<
    serde_json::Value,
>;

/// The text of a JSON string; `None` for any other value.
pub uninterp spec fn json_text(value: serde_json::Value) -> Option<Seq<char>>;

/// The elements of a JSON array; `None` for any other value.
pub uninterp spec fn json_items(value: serde_json::Value) -> Option<Seq<serde_json::Value>>;

/// `serde_json::from_str` at the type `serde_json::Value`. Trusted: the
/// result depends on the text alone, and is an error exactly where the text
/// is no JSON document that `serde_json` accepts.
#[verifier::external_body]
fn read_document(text: &str) -> (r: Result<serde_json::Value, serde_json::Error>)
    ensures
        match r {
            Ok(value) => json_document(text@) == Some(value),
            Err(_) => json_document(text@) is None,
        },
{
    serde_json::from_str::<serde_json::Value>(text)
}

/// `serde_json::Value::get` with a string key. Trusted: it hands out the
/// member of an object under that key, and `None` for anything else.
#[verifier::external_body]
fn member<'a>(value: &'a serde_json::Value, key: &str) -> (r: Option<&'a serde_json::Value>)
    ensures
        match r {
            Some(found) => json_member(*value, key@) == Some(*found),
            None => json_member(*value, key@) is None,
        },
{
    value.get(key)
}

/// `serde_json::Value::as_str`. Trusted: it hands out the text of a string
/// value, and `None` for anything else.
#[verifier::external_body]
fn text_of<'a>(value: &'a serde_json::Value) -> (r: Option<&'a str>)
    ensures
        match r {
            Some(text) => json_text(*value) == Some(text@),
            None => json_text(*value) is None,
        },
{
    value.as_str()
}

/// `serde_json::Value::as_array`. Trusted: it hands out the elements of an
/// array value, and `None` for anything else.
#[verifier::external_body]
fn items_of<'a>(value: &'a serde_json::Value) -> (r: Option<&'a Vec<serde_json::Value>>)
    ensures
        match r {
            Some(items) => json_items(*value) == Some(items@),
            None => json_items(*value) is None,
        },
{
    value.as_array()
}

pub open spec fn cells_are_text(cells: Seq<serde_json::Value>) -> bool {
    forall|k: int| 0 <= k < cells.len() ==> json_text(#[trigger] cells[k]) is Some
}

/// The texts of a row: an array of strings.
pub open spec fn row_texts(row: serde_json::Value) -> Option<Seq<Seq<char>>> {
    match json_items(row) {
        Some(cells) => if cells_are_text(cells) {
            Some(Seq::new(cells.len(), |k: int| json_text(cells[k])->Some_0))
        } else {
            None
        },
        None => None,
    }
}

pub open spec fn rows_are_texts(rows: Seq<serde_json::Value>) -> bool {
    forall|i: int| 0 <= i < rows.len() ==> row_texts(#[trigger] rows[i]) is Some
}

/// The texts of a side: an array of rows.
pub open spec fn side_texts(side: serde_json::Value) -> Option<Seq<Seq<Seq<char>>>> {
    match json_items(side) {
        Some(rows) => if rows_are_texts(rows) {
            Some(Seq::new(rows.len(), |i: int| row_texts(rows[i])->Some_0))
        } else {
            None
        },
        None => None,
    }
}

pub open spec fn named_side(value: serde_json::Value, key: Seq<char>) -> Option<
    Seq<Seq<Seq<char>>>,
> {
    match json_member(value, key) {
        Some(side) => side_texts(side),
        None => None,
    }
}

/// The order-book part that an object with `asks` and `bids` holds.
pub open spec fn response_of(value: serde_json::Value, exchange: Exchange) -> Result<
    ResponseDataView,
    ParseError,
> {
    match (named_side(value, "asks"@), named_side(value, "bids"@)) {
        (Some(asks), Some(bids)) => Ok(ResponseDataView { exchange: Some(exchange), asks, bids }),
        _ => Err(ParseError::Shape),
    }
}

/// Whether a document says of itself that it carries data.
pub open spec fn is_data_event(document: serde_json::Value) -> bool {
    match json_member(document, "event"@) {
        Some(event) => json_text(event) == Some("data"@),
        None => false,
    }
}

/// What a document of a venue carries. Binance sends the order book as the
/// document itself. Bitstamp wraps it in `data` and marks it with the event
/// `data`; its other documents carry no order book, which is `Ok(None)`.
pub open spec fn frame_of(exchange: Exchange, document: serde_json::Value) -> Result<
    Option<ResponseDataView>,
    ParseError,
> {
    match exchange {
        Exchange::Binance => match response_of(document, exchange) {
            Ok(data) => Ok(Some(data)),
            Err(e) => Err(e),
        },
        Exchange::Bitstamp => if !is_data_event(document) {
            Ok(None)
        } else {
            match json_member(document, "data"@) {
                Some(inner) => match response_of(inner, exchange) {
                    Ok(data) => Ok(Some(data)),
                    Err(e) => Err(e),
                },
                None => Err(ParseError::Shape),
            }
        },
    }
}

/// The snapshot that a document of a venue carries.
pub open spec fn snapshot_of(exchange: Exchange, document: serde_json::Value) -> Result<
    Option<OrderBookView>,
    ParseError,
> {
    match frame_of(exchange, document) {
        Ok(Some(data)) => match book_of(data) {
            Ok(book) => Ok(Some(book)),
            Err(e) => Err(e),
        },
        Ok(None) => Ok(None),
        Err(e) => Err(e),
    }
}

/// The snapshot that a text frame of a venue carries.
pub open spec fn parsed(exchange: Exchange, text: Seq<char>) -> Result<
    Option<OrderBookView>,
    ParseError,
> {
    match json_document(text) {
        Some(document) => snapshot_of(exchange, document),
        None => Err(ParseError::Document),
    }
}

fn read_row(row: &serde_json::Value) -> (r: Option<Vec<String>>)
    ensures
        match r {
            Some(texts) => row_texts(*row) == Some(texts.deep_view()),
            None => row_texts(*row) is None,
        },
{
    match items_of(row) {
        None => None,
        Some(cells) => {
            let mut out: Vec<String> = Vec::new();
            let mut k: usize = 0;
            while k < cells.len()
                invariant
                    k <= cells.len(),
                    out.len() == k,
                    json_items(*row) == Some(cells@),
                    forall|m: int| 0 <= m < k ==> json_text(#[trigger] cells@[m]) == Some(out@[m]@),
                decreases cells.len() - k,
            {
                match text_of(&cells[k]) {
                    None => {
                        return None;
                    },
                    Some(text) => {
                        out.push(text.to_owned());
                    },
                }
                k += 1;
            }
            proof {
                assert(cells_are_text(cells@));
                assert(out.deep_view() =~= Seq::new(
                    cells@.len(),
                    |k: int| json_text(cells@[k])->Some_0,
                ));
            }
            Some(out)
        },
    }
}

fn read_side(side: &serde_json::Value) -> (r: Option<Vec<Vec<String>>>)
    ensures
        match r {
            Some(texts) => side_texts(*side) == Some(texts.deep_view()),
            None => side_texts(*side) is None,
        },
{
    match items_of(side) {
        None => None,
        Some(rows) => {
            let mut out: Vec<Vec<String>> = Vec::new();
            let mut i: usize = 0;
            while i < rows.len()
                invariant
                    i <= rows.len(),
                    out.len() == i,
                    json_items(*side) == Some(rows@),
                    forall|m: int|
                        0 <= m < i ==> row_texts(#[trigger] rows@[m]) == Some(
                            out@[m].deep_view(),
                        ),
                decreases rows.len() - i,
            {
                match read_row(&rows[i]) {
                    None => {
                        return None;
                    },
                    Some(texts) => {
                        out.push(texts);
                    },
                }
                i += 1;
            }
            proof {
                assert(rows_are_texts(rows@));
                assert(out.deep_view() =~= Seq::new(
                    rows@.len(),
                    |i: int| row_texts(rows@[i])->Some_0,
                ));
            }
            Some(out)
        },
    }
}

fn read_named_side(value: &serde_json::Value, key: &str) -> (r: Option<Vec<Vec<String>>>)
    ensures
        match r {
            Some(texts) => named_side(*value, key@) == Some(texts.deep_view()),
            None => named_side(*value, key@) is None,
        },
{
    match member(value, key) {
        Some(side) => read_side(side),
        None => None,
    }
}

/// Reads the order-book part out of an object with `asks` and `bids`, each
/// an array of rows of strings, and tags it with the venue.
pub fn read_response(value: &serde_json::Value, exchange: Exchange) -> (r: Result<
    ResponseData,
    ParseError,
>)
    ensures
        match r {
            Ok(data) => response_of(*value, exchange) == Ok::<ResponseDataView, ParseError>(data@),
            Err(e) => response_of(*value, exchange) == Err::<ResponseDataView, ParseError>(e),
        },
{
    let asks = read_named_side(value, "asks");
    let bids = read_named_side(value, "bids");
    match (asks, bids) {
        (Some(asks), Some(bids)) => Ok(ResponseData { exchange: Some(exchange), asks, bids }),
        _ => Err(ParseError::Shape),
    }
}

fn carries_data(document: &serde_json::Value) -> (r: bool)
    ensures
        r == is_data_event(*document),
{
    match member(document, "event") {
        Some(event) => match text_of(event) {
            Some(text) => text.to_owned() == String::from_str("data"),
            None => false,
        },
        None => false,
    }
}

/// Reads what a document of a venue carries: see [`frame_of`].
pub fn read_frame(exchange: Exchange, document: &serde_json::Value) -> (r: Result<
    Option<ResponseData>,
    ParseError,
>)
    ensures
        match r {
            Ok(Some(data)) => frame_of(exchange, *document) == Ok::<
                Option<ResponseDataView>,
                ParseError,
            >(Some(data@)),
            Ok(None) => frame_of(exchange, *document) == Ok::<Option<ResponseDataView>, ParseError>(
                None,
            ),
            Err(e) => frame_of(exchange, *document) == Err::<Option<ResponseDataView>, ParseError>(
                e,
            ),
        },
{
    match exchange {
        Exchange::Binance => match read_response(document, exchange) {
            Ok(data) => Ok(Some(data)),
            Err(e) => Err(e),
        },
        Exchange::Bitstamp => {
            if !carries_data(document) {
                Ok(None)
            } else {
                match member(document, "data") {
                    Some(inner) => match read_response(inner, exchange) {
                        Ok(data) => Ok(Some(data)),
                        Err(e) => Err(e),
                    },
                    None => Err(ParseError::Shape),
                }
            }
        },
    }
}

/// Reads the snapshot that a document of a venue carries: its order-book
/// part with every price and amount read as a decimal number.
pub fn read_snapshot(exchange: Exchange, document: &serde_json::Value) -> (r: Result<
    Option<OrderBook>,
    ParseError,
>)
    ensures
        match r {
            Ok(Some(book)) => snapshot_of(exchange, *document) == Ok::<
                Option<OrderBookView>,
                ParseError,
            >(Some(book@)),
            Ok(None) => snapshot_of(exchange, *document) == Ok::<Option<OrderBookView>, ParseError>(
                None,
            ),
            Err(e) => snapshot_of(exchange, *document) == Err::<Option<OrderBookView>, ParseError>(
                e,
            ),
        },
{
    match read_frame(exchange, document) {
        Ok(Some(data)) => match OrderBook::from_response(data) {
            Ok(book) => Ok(Some(book)),
            Err(e) => Err(e),
        },
        Ok(None) => Ok(None),
        Err(e) => Err(e),
    }
}

/// Reads the snapshot that a text frame of a venue carries. A frame that is
/// well formed but carries no order book gives `Ok(None)`; that is no error.
pub fn parse(exchange: Exchange, text: &str) -> (r: Result<Option<OrderBook>, ParseError>)
    ensures
        match r {
            Ok(Some(book)) => parsed(exchange, text@) == Ok::<Option<OrderBookView>, ParseError>(
                Some(book@),
            ),
            Ok(None) => parsed(exchange, text@) == Ok::<Option<OrderBookView>, ParseError>(None),
            Err(e) => parsed(exchange, text@) == Err::<Option<OrderBookView>, ParseError>(e),
        },
{
    match read_document(text) {
        Ok(document) => read_snapshot(exchange, &document),
        Err(_) => Err(ParseError::Document),
    }
}

/// One venue's feed of one currency pair.
pub struct Market {
    /// Where the feed is reached, such as `wss://ws.bitstamp.net`.
    pub addr: url::Url,
    pub exchange: Exchange,
    /// The quote of the pair: `eth` in `ethbtc`.
    pub quote: Asset,
    /// The base of the pair: `btc` in `ethbtc`.
    pub base: Asset,
}

/// What a frame does to the store: a snapshot is merged, anything else
/// leaves the store as it was.
pub open spec fn received(
    store: OrderBookStore,
    outcome: Result<Option<OrderBookView>, ParseError>,
    after: OrderBookStore,
    answer: Result<bool, ParseError>,
) -> bool {
    match outcome {
        Ok(Some(book)) => answer == Ok::<bool, ParseError>(true) && after.summary@ == merged(
            store.summary@,
            book,
        ),
        Ok(None) => answer == Ok::<bool, ParseError>(false) && after == store,
        Err(e) => answer == Err::<bool, ParseError>(e) && after == store,
    }
}

/// The address of a venue's feed of a pair.
pub open spec fn address_of(exchange: Exchange, quote: Asset, base: Asset) -> Seq<char> {
    match exchange {
        Exchange::Binance => "wss://stream.binance.com:9443/ws/"@ + quote.symbol_text()
            + base.symbol_text() + "@depth10@100ms"@,
        Exchange::Bitstamp => "wss://ws.bitstamp.net"@,
    }
}

/// What a venue is sent once the connection stands, to make it send the
/// pair's order book. Binance needs nothing: the address names the feed.
pub open spec fn subscription_of(exchange: Exchange, quote: Asset, base: Asset) -> Option<
    Seq<char>,
> {
    match exchange {
        Exchange::Binance => None,
        Exchange::Bitstamp => Some(
            "{\"event\":\"bts:subscribe\",\"data\":{\"channel\":\"order_book_"@
                + quote.symbol_text() + base.symbol_text() + "\"}}"@,
        ),
    }
}

/// Writes the address of a venue's feed of a pair: see [`address_of`].
pub fn address_text(exchange: Exchange, quote: Asset, base: Asset) -> (r: String)
    ensures
        r@ == address_of(exchange, quote, base),
{
    match exchange {
        Exchange::Binance => {
            let quote = quote.symbol();
            let base = base.symbol();
            String::from_str("wss://stream.binance.com:9443/ws/").concat(quote.as_str()).concat(
                base.as_str(),
            ).concat("@depth10@100ms")
        },
        Exchange::Bitstamp => String::from_str("wss://ws.bitstamp.net"),
    }
}

impl Market {
    /// The first message to send: see [`subscription_of`].
    pub fn subscription(&self) -> (r: Option<String>)
        ensures
            match r {
                Some(text) => subscription_of(self.exchange, self.quote, self.base) == Some(text@),
                None => subscription_of(self.exchange, self.quote, self.base) is None,
            },
    {
        match self.exchange {
            Exchange::Binance => None,
            Exchange::Bitstamp => {
                let quote = self.quote.symbol();
                let base = self.base.symbol();
                Some(
                    String::from_str(
                        "{\"event\":\"bts:subscribe\",\"data\":{\"channel\":\"order_book_",
                    ).concat(quote.as_str()).concat(base.as_str()).concat("\"}}"),
                )
            },
        }
    }

    /// The feed of a pair at a venue, with the address that `url` reads from
    /// [`address_of`]; `None` where it reads none.
    pub fn new(exchange: Exchange, quote: Asset, base: Asset) -> (r: Option<Market>)
        ensures
            match r {
                Some(market) => url_of(address_of(exchange, quote, base)) == Some(market.addr)
                    && market.exchange == exchange && market.quote == quote && market.base
                    == base,
                None => url_of(address_of(exchange, quote, base)) is None,
            },
    {
        let text = address_text(exchange, quote, base);
        match read_address(text.as_str()) {
            Some(addr) => Some(Market { addr, exchange, quote, base }),
            None => None,
        }
    }

    /// The snapshot that a text frame of this venue carries.
    pub fn parse(&self, text: &str) -> (r: Result<Option<OrderBook>, ParseError>)
        ensures
            match r {
                Ok(Some(book)) => parsed(self.exchange, text@) == Ok::<
                    Option<OrderBookView>,
                    ParseError,
                >(Some(book@)),
                Ok(None) => parsed(self.exchange, text@) == Ok::<Option<OrderBookView>, ParseError>(
                    None,
                ),
                Err(e) => parsed(self.exchange, text@) == Err::<Option<OrderBookView>, ParseError>(
                    e,
                ),
            },
    {
        parse(self.exchange, text)
    }

    /// Takes one text frame of this venue: merges the snapshot it carries
    /// into the store and answers `Ok(true)`; answers `Ok(false)` for a frame
    /// without an order book and the error for a frame that cannot be read,
    /// and leaves the store untouched in both cases.
    pub fn receive_order_book(&self, store: &mut OrderBookStore, text: &str) -> (r: Result<bool, ParseError>)
        ensures
            received(*old(store), parsed(self.exchange, text@), *final(store), r),
            final(store).summary@.well_formed() || *final(store) == *old(store),
    {
        match parse(self.exchange, text) {
            Ok(Some(book)) => {
                store.update(book);
                Ok(true)
            },
            Ok(None) => Ok(false),
            Err(e) => Err(e),
        }
    }
}

} // verus!
