//! The merged view of a currency pair and the rule that merges one venue's
//! snapshot into it.

use vstd::prelude::*;
use vstd::seq_lib::lemma_multiset_commutative;
use vstd::seq_lib::to_multiset_build;
use vstd::seq_lib::to_multiset_contains;
use vstd::utf8::encode_utf8;
use vstd::string::StringSliceAdditionalSpecFns;
use crate::decimal::decimal_units;
use crate::decimal::parse_decimal;
use crate::exchange::Exchange;
use crate::market::ParseError;
use crate::market::ResponseData;
use crate::market::ResponseDataView;

verus! {

/// How many levels each side of the merged view holds at most.
pub const DEPTH: usize = 10;

/// One price with the amount offered at it, both in units of 10^-8.
#[derive(Clone, Copy, Debug, PartialEq, Eq, Structural)]
pub struct Quote {
    pub price: i64,
    pub amount: i64,
}

/// One quote of the merged view, tagged with the venue it came from.
#[derive(Clone, Copy, Debug, PartialEq, Eq, Structural)]
pub struct Level {
    pub exchange: Exchange,
    pub price: i64,
    pub amount: i64,
}

/// What one venue currently shows: its quotes in the order received.
#[derive(Clone, Debug, PartialEq, Eq)]
pub struct OrderBook {
    pub exchange: Exchange,
    pub asks: Vec<Quote>,
    pub bids: Vec<Quote>,
}

pub struct OrderBookView {
    pub exchange: Exchange,
    pub asks: Seq<Quote>,
    pub bids: Seq<Quote>,
}

impl View for OrderBook {
    type V = OrderBookView;

    open spec fn view(&self) -> OrderBookView {
        OrderBookView { exchange: self.exchange, asks: self.asks@, bids: self.bids@ }
    }
}

/// The merged view: the best levels of all venues and the gap between the
/// best ask and the best bid.
#[derive(Clone, Debug, PartialEq, Eq)]
pub struct Summary {
    pub spread: i128,
    pub asks: Vec<Level>,
    pub bids: Vec<Level>,
}

pub struct SummaryView {
    pub spread: int,
    pub asks: Seq<Level>,
    pub bids: Seq<Level>,
}

impl View for Summary {
    type V = SummaryView;

    open spec fn view(&self) -> SummaryView {
        SummaryView { spread: self.spread as int, asks: self.asks@, bids: self.bids@ }
    }
}

/// The store that ingestion fills and subscribers read.
#[derive(Clone, Debug)]
pub struct OrderBookStore {
    pub summary: Summary,
}

/// `a` may stand in front of `b`: asks rise in price, bids fall.
pub open spec fn ranks_before(a: Level, b: Level, ascending: bool) -> bool {
    if ascending {
        a.price <= b.price
    } else {
        a.price >= b.price
    }
}

pub open spec fn is_ranked(s: Seq<Level>, ascending: bool) -> bool {
    forall|i: int, j: int| 0 <= i < j < s.len() ==> ranks_before(s[i], s[j], ascending)
}

/// Where a new level goes: behind the last level that may stand in front of
/// it, so that levels of one price keep the order in which they came.
pub open spec fn slot(s: Seq<Level>, x: Level, ascending: bool) -> int
    decreases s.len(),
{
    if s.len() == 0 {
        0
    } else if ranks_before(s.last(), x, ascending) {
        s.len() as int
    } else {
        slot(s.drop_last(), x, ascending)
    }
}

pub open spec fn place(s: Seq<Level>, x: Level, ascending: bool) -> Seq<Level> {
    s.insert(slot(s, x, ascending), x)
}

/// The levels of `s` by price, those of one price in the order of `s`.
pub open spec fn rank(s: Seq<Level>, ascending: bool) -> Seq<Level>
    decreases s.len(),
{
    if s.len() == 0 {
        Seq::empty()
    } else {
        place(rank(s.drop_last(), ascending), s.last(), ascending)
    }
}

/// The levels that did not come from `exchange`.
pub open spec fn from_others(s: Seq<Level>, exchange: Exchange) -> Seq<Level> {
    s.filter(|l: Level| l.exchange != exchange)
}

/// The quotes of a snapshot as levels of its venue.
pub open spec fn tagged(exchange: Exchange, quotes: Seq<Quote>) -> Seq<Level> {
    Seq::new(
        quotes.len(),
        |i: int| Level { exchange, price: quotes[i].price, amount: quotes[i].amount },
    )
}

pub open spec fn top(s: Seq<Level>, depth: int) -> Seq<Level> {
    if s.len() <= depth {
        s
    } else {
        s.take(depth)
    }
}

/// One side after a merge: the venue's old levels leave, its new ones join
/// behind the others, all are ranked, and the best ten stay.
pub open spec fn merged_side(
    current: Seq<Level>,
    exchange: Exchange,
    quotes: Seq<Quote>,
    ascending: bool,
) -> Seq<Level> {
    top(rank(from_others(current, exchange) + tagged(exchange, quotes), ascending), 10)
}

/// The spread after a merge: best ask less best bid, or the spread as it
/// was while a side is empty.
pub open spec fn settled_spread(previous: int, asks: Seq<Level>, bids: Seq<Level>) -> int {
    if asks.len() > 0 && bids.len() > 0 {
        asks[0].price - bids[0].price
    } else {
        previous
    }
}

pub open spec fn merged(current: SummaryView, book: OrderBookView) -> SummaryView {
    let asks = merged_side(current.asks, book.exchange, book.asks, true);
    let bids = merged_side(current.bids, book.exchange, book.bids, false);
    SummaryView { spread: settled_spread(current.spread, asks, bids), asks, bids }
}

impl SummaryView {
    /// What every merged view keeps: bounded depth, ranked sides, and a
    /// spread that is the gap between the best levels when both sides have one.
    pub open spec fn well_formed(self) -> bool {
        &&& self.asks.len() <= 10
        &&& self.bids.len() <= 10
        &&& is_ranked(self.asks, true)
        &&& is_ranked(self.bids, false)
        &&& self.asks.len() > 0 && self.bids.len() > 0 ==> self.spread == self.asks[0].price
            - self.bids[0].price
    }
}

pub proof fn lemma_slot(s: Seq<Level>, x: Level, ascending: bool)
    ensures
        0 <= slot(s, x, ascending) <= s.len(),
        forall|k: int|
            slot(s, x, ascending) <= k < s.len() ==> !ranks_before(#[trigger] s[k], x, ascending),
        slot(s, x, ascending) > 0 ==> ranks_before(s[slot(s, x, ascending) - 1], x, ascending),
    decreases s.len(),
{
    if s.len() > 0 && !ranks_before(s.last(), x, ascending) {
        lemma_slot(s.drop_last(), x, ascending);
        assert forall|k: int| slot(s, x, ascending) <= k < s.len() implies !ranks_before(
            #[trigger] s[k],
            x,
            ascending,
        ) by {
            if k < s.len() - 1 {
                assert(s.drop_last()[k] == s[k]);
            }
        }
    }
}

/// The position with nothing that may stand in front of `x` behind it, and
/// such a level right before it, is the slot.
pub proof fn lemma_slot_found(s: Seq<Level>, x: Level, ascending: bool, j: int)
    requires
        0 <= j <= s.len(),
        forall|k: int| j <= k < s.len() ==> !ranks_before(#[trigger] s[k], x, ascending),
        j > 0 ==> ranks_before(s[j - 1], x, ascending),
    ensures
        slot(s, x, ascending) == j,
    decreases s.len(),
{
    if s.len() > 0 {
        if j == s.len() {
        } else {
            assert(!ranks_before(s[s.len() - 1], x, ascending));
            let front = s.drop_last();
            assert forall|k: int| j <= k < front.len() implies !ranks_before(
                #[trigger] front[k],
                x,
                ascending,
            ) by {
                assert(front[k] == s[k]);
            }
            lemma_slot_found(front, x, ascending, j);
        }
    }
}

/// Placing a level keeps a ranked sequence ranked.
pub proof fn lemma_place_ranked(s: Seq<Level>, x: Level, ascending: bool)
    requires
        is_ranked(s, ascending),
    ensures
        is_ranked(place(s, x, ascending), ascending),
{
    lemma_slot(s, x, ascending);
    let p = slot(s, x, ascending);
    let r = place(s, x, ascending);
    assert forall|i: int, j: int| 0 <= i < j < r.len() implies ranks_before(
        r[i],
        r[j],
        ascending,
    ) by {
        if j < p {
            assert(r[i] == s[i] && r[j] == s[j]);
        } else if j == p {
            assert(r[i] == s[i]);
            if i < p - 1 {
                assert(ranks_before(s[i], s[p - 1], ascending));
            }
        } else if i < p {
            assert(r[i] == s[i] && r[j] == s[j - 1]);
        } else if i == p {
            assert(r[j] == s[j - 1]);
            assert(!ranks_before(s[j - 1], x, ascending));
        } else {
            assert(r[i] == s[i - 1] && r[j] == s[j - 1]);
        }
    }
}

/// Placing a level adds it and changes nothing else.
pub proof fn lemma_place_levels(s: Seq<Level>, x: Level, ascending: bool)
    ensures
        place(s, x, ascending).to_multiset() =~= s.to_multiset().insert(x),
        place(s, x, ascending).len() == s.len() + 1,
{
    lemma_slot(s, x, ascending);
    let p = slot(s, x, ascending);
    let front = s.take(p);
    let back = s.skip(p);
    assert(place(s, x, ascending) =~= front.push(x) + back);
    assert(s =~= front + back);
    lemma_multiset_commutative(front.push(x), back);
    lemma_multiset_commutative(front, back);
    to_multiset_build(front, x);
}

/// Ranking orders a sequence: asks rise in price, bids fall.
pub proof fn law_rank_is_ranked(s: Seq<Level>, ascending: bool)
    ensures
        is_ranked(rank(s, ascending), ascending),
    decreases s.len(),
{
    if s.len() > 0 {
        law_rank_is_ranked(s.drop_last(), ascending);
        lemma_place_ranked(rank(s.drop_last(), ascending), s.last(), ascending);
    }
}

/// Ranking neither adds nor loses a level.
pub proof fn law_rank_keeps_levels(s: Seq<Level>, ascending: bool)
    ensures
        rank(s, ascending).to_multiset() =~= s.to_multiset(),
        rank(s, ascending).len() == s.len(),
    decreases s.len(),
{
    if s.len() == 0 {
        assert(s =~= Seq::<Level>::empty());
    } else {
        law_rank_keeps_levels(s.drop_last(), ascending);
        lemma_place_levels(rank(s.drop_last(), ascending), s.last(), ascending);
        to_multiset_build(s.drop_last(), s.last());
        assert(s.drop_last().push(s.last()) =~= s);
    }
}

/// Ranking is stable. The level that joins last goes behind every level that
/// may stand in front of it, those of its own price among them, and in front
/// of all the others; the levels in front of it stay where they were.
pub proof fn law_rank_is_stable(s: Seq<Level>, x: Level, ascending: bool)
    ensures
        rank(s.push(x), ascending) == place(rank(s, ascending), x, ascending),
        forall|k: int|
            0 <= k < slot(rank(s, ascending), x, ascending) ==> place(
                rank(s, ascending),
                x,
                ascending,
            )[k] == rank(s, ascending)[k],
        slot(rank(s, ascending), x, ascending) > 0 ==> ranks_before(
            rank(s, ascending)[slot(rank(s, ascending), x, ascending) - 1],
            x,
            ascending,
        ),
        forall|k: int|
            slot(rank(s, ascending), x, ascending) <= k < rank(s, ascending).len()
                ==> !ranks_before(#[trigger] rank(s, ascending)[k], x, ascending),
{
    assert(s.push(x).drop_last() =~= s);
    lemma_slot(rank(s, ascending), x, ascending);
}

/// After any merge a side holds at most ten levels.
pub proof fn law_depth_bound(
    current: Seq<Level>,
    exchange: Exchange,
    quotes: Seq<Quote>,
    ascending: bool,
)
    ensures
        merged_side(current, exchange, quotes, ascending).len() <= 10,
{
}

/// After any merge a side is ranked: asks rise in price, bids fall.
pub proof fn law_merged_is_ranked(
    current: Seq<Level>,
    exchange: Exchange,
    quotes: Seq<Quote>,
    ascending: bool,
)
    ensures
        is_ranked(merged_side(current, exchange, quotes, ascending), ascending),
{
    law_rank_is_ranked(from_others(current, exchange) + tagged(exchange, quotes), ascending);
}

/// A merge replaces the venue's levels: every level of the venue in the
/// result is a quote of the new snapshot, and every other level was there
/// before.
pub proof fn law_exchange_exclusive(
    current: Seq<Level>,
    exchange: Exchange,
    quotes: Seq<Quote>,
    ascending: bool,
)
    ensures
        forall|i: int|
            #![trigger merged_side(current, exchange, quotes, ascending)[i]]
            0 <= i < merged_side(current, exchange, quotes, ascending).len() && merged_side(
                current,
                exchange,
                quotes,
                ascending,
            )[i].exchange == exchange ==> exists|j: int|
                0 <= j < quotes.len() && merged_side(current, exchange, quotes, ascending)[i]
                    == (Level {
                    exchange,
                    price: (#[trigger] quotes[j]).price,
                    amount: quotes[j].amount,
                }),
        forall|i: int|
            #![trigger merged_side(current, exchange, quotes, ascending)[i]]
            0 <= i < merged_side(current, exchange, quotes, ascending).len() && merged_side(
                current,
                exchange,
                quotes,
                ascending,
            )[i].exchange != exchange ==> current.contains(
                merged_side(current, exchange, quotes, ascending)[i],
            ),
{
    let kept = from_others(current, exchange);
    let fresh = tagged(exchange, quotes);
    let all = kept + fresh;
    let ranked = rank(all, ascending);
    let m = merged_side(current, exchange, quotes, ascending);
    law_rank_keeps_levels(all, ascending);
    lemma_filter_subset(current, exchange);
    assert forall|i: int| 0 <= i < m.len() implies all.contains(#[trigger] m[i]) by {
        assert(m[i] == ranked[i]);
        assert(ranked.contains(m[i]));
        to_multiset_contains(ranked, m[i]);
        to_multiset_contains(all, m[i]);
    }
    assert forall|i: int| 0 <= i < m.len() && (#[trigger] m[i]).exchange == exchange implies exists|
        j: int,
    |
        0 <= j < quotes.len() && m[i] == (Level {
            exchange,
            price: (#[trigger] quotes[j]).price,
            amount: quotes[j].amount,
        }) by {
        let k = choose|k: int| 0 <= k < all.len() && all[k] == m[i];
        if k < kept.len() {
            assert(all[k] == kept[k]);
            assert(kept.contains(kept[k]));
        } else {
            let j = k - kept.len();
            assert(all[k] == fresh[j]);
            assert(quotes[j].price == m[i].price);
        }
    }
    assert forall|i: int| 0 <= i < m.len() && (#[trigger] m[i]).exchange != exchange implies current.contains(
        m[i],
    ) by {
        let k = choose|k: int| 0 <= k < all.len() && all[k] == m[i];
        if k < kept.len() {
            assert(all[k] == kept[k]);
            assert(kept.contains(kept[k]));
        } else {
            assert(all[k] == fresh[k - kept.len()]);
        }
    }
}

/// What is left after a venue's levels are taken out was there before and is
/// not of that venue.
pub proof fn lemma_filter_subset(s: Seq<Level>, exchange: Exchange)
    ensures
        forall|l: Level| #[trigger]
            from_others(s, exchange).contains(l) ==> s.contains(l) && l.exchange != exchange,
    decreases s.len(),
{
    reveal(Seq::filter);
    if s.len() > 0 {
        lemma_filter_subset(s.drop_last(), exchange);
        let rest = from_others(s.drop_last(), exchange);
        assert forall|l: Level| #[trigger]
            from_others(s, exchange).contains(l) implies s.contains(l) && l.exchange
            != exchange by {
            let k = choose|k: int|
                0 <= k < from_others(s, exchange).len() && from_others(s, exchange)[k] == l;
            if k < rest.len() {
                assert(rest[k] == l);
                assert(rest.contains(l));
                let q = choose|q: int| 0 <= q < s.drop_last().len() && s.drop_last()[q] == l;
                assert(s[q] == l);
            } else {
                assert(l == s.last());
                assert(s[s.len() - 1] == l);
            }
        }
    }
}

/// The view after a run of merges, one snapshot after the other.
pub open spec fn after_merges(first: SummaryView, books: Seq<OrderBookView>) -> SummaryView
    decreases books.len(),
{
    if books.len() == 0 {
        first
    } else {
        merged(after_merges(first, books.drop_last()), books.last())
    }
}

/// After any run of merges the view is well formed: at most ten levels a
/// side, asks rising and bids falling in price, and the spread the gap
/// between the best ask and the best bid where both sides have a level.
pub proof fn law_well_formed_after_merges(first: SummaryView, books: Seq<OrderBookView>)
    requires
        first.well_formed() || books.len() > 0,
    ensures
        after_merges(first, books).well_formed(),
{
    if books.len() > 0 {
        law_merged_well_formed(after_merges(first, books.drop_last()), books.last());
    }
}

/// The view that a merge leaves is well formed, whatever the view before.
pub proof fn law_merged_well_formed(current: SummaryView, book: OrderBookView)
    ensures
        merged(current, book).well_formed(),
{
    law_merged_is_ranked(current.asks, book.exchange, book.asks, true);
    law_merged_is_ranked(current.bids, book.exchange, book.bids, false);
}

fn stands_before(a: &Level, b: &Level, ascending: bool) -> (r: bool)
    ensures
        r == ranks_before(*a, *b, ascending),
{
    if ascending {
        a.price <= b.price
    } else {
        a.price >= b.price
    }
}

fn copy_levels(levels: &Vec<Level>) -> (r: Vec<Level>)
    ensures
        r@ == levels@,
{
    let mut out: Vec<Level> = Vec::new();
    let mut i: usize = 0;
    while i < levels.len()
        invariant
            i <= levels.len(),
            out@ == levels@.take(i as int),
        decreases levels.len() - i,
    {
        out.push(levels[i]);
        proof {
            assert(levels@.take(i as int).push(levels@[i as int]) =~= levels@.take(i + 1));
        }
        i += 1;
    }
    proof {
        assert(levels@.take(levels.len() as int) =~= levels@);
    }
    out
}

fn same_levels(a: &Vec<Level>, b: &Vec<Level>) -> (r: bool)
    ensures
        r == (a@ == b@),
{
    if a.len() != b.len() {
        return false;
    }
    let mut i: usize = 0;
    while i < a.len()
        invariant
            i <= a.len(),
            a.len() == b.len(),
            a@.take(i as int) == b@.take(i as int),
        decreases a.len() - i,
    {
        if a[i] != b[i] {
            return false;
        }
        proof {
            assert(a@.take(i + 1) =~= a@.take(i as int).push(a@[i as int]));
            assert(b@.take(i + 1) =~= b@.take(i as int).push(b@[i as int]));
        }
        i += 1;
    }
    proof {
        assert(a@.take(a.len() as int) =~= a@);
        assert(b@.take(b.len() as int) =~= b@);
    }
    true
}

/// Ranks levels by price; levels of one price keep their order.
pub fn rank_levels(levels: &Vec<Level>, ascending: bool) -> (r: Vec<Level>)
    ensures
        r@ == rank(levels@, ascending),
{
    let mut out: Vec<Level> = Vec::new();
    let mut i: usize = 0;
    while i < levels.len()
        invariant
            i <= levels.len(),
            out@ == rank(levels@.take(i as int), ascending),
            out.len() == i,
        decreases levels.len() - i,
    {
        let x: Level = levels[i];
        let mut j: usize = out.len();
        while j > 0 && !stands_before(&out[j - 1], &x, ascending)
            invariant
                j <= out.len(),
                forall|k: int| j <= k < out.len() ==> !ranks_before(#[trigger] out@[k], x, ascending),
            decreases j,
        {
            j -= 1;
        }
        proof {
            lemma_slot_found(out@, x, ascending, j as int);
            assert(levels@.take(i + 1).drop_last() =~= levels@.take(i as int));
        }
        out.insert(j, x);
        i += 1;
    }
    proof {
        assert(levels@.take(levels.len() as int) =~= levels@);
    }
    out
}

/// One side of a merge: see [`merged_side`].
pub fn merge_side(
    current: &Vec<Level>,
    exchange: Exchange,
    quotes: &Vec<Quote>,
    ascending: bool,
) -> (r: Vec<Level>)
    ensures
        r@ == merged_side(current@, exchange, quotes@, ascending),
        r.len() <= DEPTH,
        is_ranked(r@, ascending),
{
    let mut all: Vec<Level> = Vec::new();
    let mut i: usize = 0;
    while i < current.len()
        invariant
            i <= current.len(),
            all@ == from_others(current@.take(i as int), exchange),
        decreases current.len() - i,
    {
        proof {
            reveal(Seq::filter);
            assert(current@.take(i + 1).drop_last() =~= current@.take(i as int));
        }
        if current[i].exchange != exchange {
            all.push(current[i]);
        }
        i += 1;
    }
    proof {
        assert(current@.take(current.len() as int) =~= current@);
    }
    let ghost kept = all@;
    let mut q: usize = 0;
    while q < quotes.len()
        invariant
            q <= quotes.len(),
            all@ == kept + tagged(exchange, quotes@).take(q as int),
        decreases quotes.len() - q,
    {
        let level = Level { exchange, price: quotes[q].price, amount: quotes[q].amount };
        proof {
            assert((kept + tagged(exchange, quotes@).take(q as int)).push(level) =~= kept + tagged(
                exchange,
                quotes@,
            ).take(q + 1));
        }
        all.push(level);
        q += 1;
    }
    proof {
        assert(tagged(exchange, quotes@).take(quotes.len() as int) =~= tagged(exchange, quotes@));
        law_merged_is_ranked(current@, exchange, quotes@, ascending);
    }
    let mut ranked = rank_levels(&all, ascending);
    ranked.truncate(DEPTH);
    proof {
        let full = rank(all@, ascending);
        if full.len() > 10 {
            assert(full.subrange(0, 10) =~= full.take(10));
        }
    }
    ranked
}

impl Summary {
    /// The view before any merge: no level on either side, spread zero.
    pub fn new() -> (r: Summary)
        ensures
            r@ == SummaryView::empty(),
            r@.well_formed(),
    {
        Summary { spread: 0, asks: Vec::new(), bids: Vec::new() }
    }

    /// Whether two views hold the same spread and the same levels in the same order.
    pub fn same_as(&self, other: &Summary) -> (r: bool)
        ensures
            r == (self@ == other@),
    {
        self.spread == other.spread && same_levels(&self.asks, &other.asks) && same_levels(
            &self.bids,
            &other.bids,
        )
    }

    /// A copy of the view.
    pub fn copy(&self) -> (r: Summary)
        ensures
            r@ == self@,
    {
        Summary {
            spread: self.spread,
            asks: copy_levels(&self.asks),
            bids: copy_levels(&self.bids),
        }
    }
}

impl SummaryView {
    pub open spec fn empty() -> SummaryView {
        SummaryView { spread: 0, asks: Seq::empty(), bids: Seq::empty() }
    }
}

impl Default for OrderBookStore {
    fn default() -> (r: OrderBookStore)
        ensures
            r.summary@ == SummaryView::empty(),
    {
        OrderBookStore { summary: Summary::new() }
    }
}

impl OrderBookStore {
    /// Merges one venue's snapshot into the view: the venue's earlier levels
    /// leave, its new ones join, each side is ranked and cut to ten levels,
    /// and the spread is taken anew where both sides have a level.
    pub fn update(&mut self, order_book: OrderBook)
        ensures
            final(self).summary@ == merged(old(self).summary@, order_book@),
            final(self).summary@.well_formed(),
    {
        let asks = merge_side(&self.summary.asks, order_book.exchange, &order_book.asks, true);
        let bids = merge_side(&self.summary.bids, order_book.exchange, &order_book.bids, false);
        if asks.len() > 0 && bids.len() > 0 {
            let best_ask: i128 = asks[0].price as i128;
            let best_bid: i128 = bids[0].price as i128;
            self.summary.spread = best_ask - best_bid;
        }
        self.summary.asks = asks;
        self.summary.bids = bids;
    }
}

/// The units of the decimal number that a text writes.
pub open spec fn number_of(text: Seq<char>) -> Option<int> {
    decimal_units(encode_utf8(text))
}

/// The quote that a row of texts writes: a price, then an amount. What
/// follows them is not read.
pub open spec fn quote_of(row: Seq<Seq<char>>) -> Result<Quote, ParseError> {
    if row.len() < 2 {
        Err(ParseError::Shape)
    } else {
        match (number_of(row[0]), number_of(row[1])) {
            (Some(price), Some(amount)) => Ok(Quote { price: price as i64, amount: amount as i64 }),
            _ => Err(ParseError::Number),
        }
    }
}

pub open spec fn all_rows_good(rows: Seq<Seq<Seq<char>>>) -> bool {
    forall|i: int| 0 <= i < rows.len() ==> quote_of(#[trigger] rows[i]) is Ok
}

pub open spec fn is_first_bad(rows: Seq<Seq<Seq<char>>>, i: int) -> bool {
    &&& 0 <= i < rows.len()
    &&& quote_of(rows[i]) is Err
    &&& forall|j: int| 0 <= j < i ==> quote_of(#[trigger] rows[j]) is Ok
}

/// The quotes that the rows write, or the error of the first row that
/// writes none.
pub open spec fn quotes_of(rows: Seq<Seq<Seq<char>>>) -> Result<Seq<Quote>, ParseError> {
    if all_rows_good(rows) {
        Ok(Seq::new(rows.len(), |i: int| quote_of(rows[i])->Ok_0))
    } else {
        Err(quote_of(rows[choose|i: int| is_first_bad(rows, i)])->Err_0)
    }
}

/// The snapshot that an order-book part writes: it needs its venue, and
/// quotes in every row, asks read before bids.
pub open spec fn book_of(data: ResponseDataView) -> Result<OrderBookView, ParseError> {
    match data.exchange {
        None => Err(ParseError::Shape),
        Some(exchange) => match quotes_of(data.asks) {
            Err(e) => Err(e),
            Ok(asks) => match quotes_of(data.bids) {
                Err(e) => Err(e),
                Ok(bids) => Ok(OrderBookView { exchange, asks, bids }),
            },
        },
    }
}

fn read_quote(row: &Vec<String>) -> (r: Result<Quote, ParseError>)
    ensures
        r == quote_of(row.deep_view()),
{
    if row.len() < 2 {
        return Err(ParseError::Shape);
    }
    let price = parse_decimal(row[0].as_str());
    let amount = parse_decimal(row[1].as_str());
    match (price, amount) {
        (Some(price), Some(amount)) => Ok(Quote { price, amount }),
        _ => Err(ParseError::Number),
    }
}

fn read_quotes(rows: &Vec<Vec<String>>) -> (r: Result<Vec<Quote>, ParseError>)
    ensures
        match r {
            Ok(quotes) => quotes_of(rows.deep_view()) == Ok::<Seq<Quote>, ParseError>(quotes@),
            Err(e) => quotes_of(rows.deep_view()) == Err::<Seq<Quote>, ParseError>(e),
        },
{
    let ghost texts = rows.deep_view();
    let mut out: Vec<Quote> = Vec::new();
    let mut i: usize = 0;
    while i < rows.len()
        invariant
            i <= rows.len(),
            out.len() == i,
            texts == rows.deep_view(),
            forall|j: int| 0 <= j < i ==> quote_of(#[trigger] texts[j]) == Ok::<Quote, ParseError>(out@[j]),
        decreases rows.len() - i,
    {
        assert(texts[i as int] == rows@[i as int].deep_view());
        match read_quote(&rows[i]) {
            Ok(quote) => {
                out.push(quote);
            },
            Err(e) => {
                proof {
                    assert(is_first_bad(texts, i as int));
                    let c = choose|c: int| is_first_bad(texts, c);
                    assert(c == i);
                }
                return Err(e);
            },
        }
        i += 1;
    }
    proof {
        assert(all_rows_good(texts));
        assert(out@ =~= Seq::new(texts.len(), |i: int| quote_of(texts[i])->Ok_0));
    }
    Ok(out)
}

impl OrderBook {
    /// Reads the numbers of an order-book part: see [`book_of`].
    pub fn from_response(data: ResponseData) -> (r: Result<OrderBook, ParseError>)
        ensures
            match r {
                Ok(book) => book_of(data@) == Ok::<OrderBookView, ParseError>(book@),
                Err(e) => book_of(data@) == Err::<OrderBookView, ParseError>(e),
            },
    {
        match data.exchange {
            None => Err(ParseError::Shape),
            Some(exchange) => match read_quotes(&data.asks) {
                Err(e) => Err(e),
                Ok(asks) => match read_quotes(&data.bids) {
                    Err(e) => Err(e),
                    Ok(bids) => Ok(OrderBook { exchange, asks, bids }),
                },
            },
        }
    }
}

} // verus!
