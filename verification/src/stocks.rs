//! Stock lookup for the analysis desk: names, tickers and Korean aliases are
//! compared after keeping only letters and digits in upper case; a search ranks
//! exact, prefix and partial matches; a natural-language request resolves to the
//! stock whose longest term it mentions; an explicit six-digit Korean code needs
//! no catalog.
use vstd::prelude::*;
use crate::aggregation::copy_string;
use crate::text::{
    all_digits, chars_of, contains, contains_chars, is_ascii_digit, lemma_seq_lt_asym, lemma_seq_lt_total, lemma_seq_lt_trans, occurs_at, occurs_at_exec, seq_lt, str_eq,
    only_digits, str_lt, string_from_chars, trim, trim_bounds, trimmed,
};

verus! {

/// Whether `c` is alphanumeric in Unicode (`char::is_alphanumeric`).
pub uninterp spec fn unicode_alphanumeric(c: char) -> bool;

/// The Unicode upper-case mapping of `c` (`char::to_uppercase`), one or more characters.
pub uninterp spec fn unicode_uppercase(c: char) -> Seq<char>;

/// `char::is_alphanumeric`: whether `c` has the Unicode Alphabetic or Numeric
/// property. The contract names the result and claims nothing of its value.
#[verifier::external_body]
fn is_alphanumeric_char(c: char) -> (r: bool)
    ensures
        r == unicode_alphanumeric(c),
{
    c.is_alphanumeric()
}

/// `char::to_uppercase`: the characters of the upper-case mapping of `c`. The
/// contract names the result and claims nothing of its value.
#[verifier::external_body]
fn uppercase_of(c: char) -> (r: Vec<char>)
    ensures
        r@ == unicode_uppercase(c),
{
    c.to_uppercase().collect()
}

/// The search form of a text: its alphanumeric characters, each upper-cased.
pub open spec fn search_form(s: Seq<char>) -> Seq<char>
    decreases s.len(),
{
    if s.len() == 0 {
        Seq::empty()
    } else if unicode_alphanumeric(s.last()) {
        search_form(s.drop_last()) + unicode_uppercase(s.last())
    } else {
        search_form(s.drop_last())
    }
}

pub fn normalize_stock_search(value: &str) -> (r: String)
    ensures
        r@ == search_form(value@),
{
    let chars = chars_of(value);
    let mut out: Vec<char> = Vec::new();
    let mut i: usize = 0;
    while i < chars.len()
        invariant
            chars@ == value@,
            i <= chars.len(),
            out@ == search_form(value@.subrange(0, i as int)),
        decreases chars.len() - i,
    {
        let c = chars[i];
        assert(value@.subrange(0, i as int + 1).drop_last() =~= value@.subrange(0, i as int));
        if is_alphanumeric_char(c) {
            let upper = uppercase_of(c);
            let mut k: usize = 0;
            let ghost base = out@;
            while k < upper.len()
                invariant
                    k <= upper.len(),
                    out@ == base + upper@.subrange(0, k as int),
                decreases upper.len() - k,
            {
                out.push(upper[k]);
                assert(base + upper@.subrange(0, k as int + 1) =~= (base + upper@.subrange(0, k as int)).push(upper@[k as int]));
                k = k + 1;
            }
            assert(upper@.subrange(0, upper.len() as int) =~= upper@);
        }
        i = i + 1;
    }
    assert(value@.subrange(0, chars.len() as int) =~= value@);
    string_from_chars(&out)
}

/// A stock of the catalog.
#[derive(Debug, Clone, PartialEq, Eq)]
pub struct StockSearchResult {
    pub symbol: String,
    pub name: String,
    pub market: String,
    pub currency: String,
    pub security_type: String,
}

pub fn copy_stock(s: &StockSearchResult) -> (r: StockSearchResult)
    ensures
        r == *s,
{
    StockSearchResult {
        symbol: copy_string(&s.symbol),
        name: copy_string(&s.name),
        market: copy_string(&s.market),
        currency: copy_string(&s.currency),
        security_type: copy_string(&s.security_type),
    }
}

/// The Korean and English names a stock is also known by.
pub open spec fn aliases_of(symbol: Seq<char>) -> Seq<Seq<char>> {
    if symbol == "000660"@ {
        seq!["하이닉스"@, "SK하이닉스"@, "에스케이하이닉스"@]
    } else if symbol == "005930"@ {
        seq!["삼성"@, "삼성전자"@]
    } else if symbol == "AAPL"@ {
        seq!["애플"@, "APPLE"@]
    } else if symbol == "MSFT"@ {
        seq!["마이크로소프트"@, "MICROSOFT"@]
    } else if symbol == "GOOGL"@ || symbol == "GOOG"@ {
        seq!["구글"@, "알파벳"@, "GOOGLE"@, "ALPHABET"@]
    } else if symbol == "TSLA"@ {
        seq!["테슬라"@, "TESLA"@]
    } else if symbol == "NVDA"@ {
        seq!["엔비디아"@, "NVIDIA"@]
    } else if symbol == "AMZN"@ {
        seq!["아마존"@, "AMAZON"@]
    } else if symbol == "META"@ {
        seq!["메타"@, "페이스북"@, "META"@, "FACEBOOK"@]
    } else {
        Seq::empty()
    }
}

pub fn stock_aliases(symbol: &str) -> (r: Vec<&'static str>)
    ensures
        r@.map_values(|a: &str| a@) == aliases_of(symbol@),
{
    let r: Vec<&'static str> = if str_eq(symbol, "000660") {
        vec!["하이닉스", "SK하이닉스", "에스케이하이닉스"]
    } else if str_eq(symbol, "005930") {
        vec!["삼성", "삼성전자"]
    } else if str_eq(symbol, "AAPL") {
        vec!["애플", "APPLE"]
    } else if str_eq(symbol, "MSFT") {
        vec!["마이크로소프트", "MICROSOFT"]
    } else if str_eq(symbol, "GOOGL") || str_eq(symbol, "GOOG") {
        vec!["구글", "알파벳", "GOOGLE", "ALPHABET"]
    } else if str_eq(symbol, "TSLA") {
        vec!["테슬라", "TESLA"]
    } else if str_eq(symbol, "NVDA") {
        vec!["엔비디아", "NVIDIA"]
    } else if str_eq(symbol, "AMZN") {
        vec!["아마존", "AMAZON"]
    } else if str_eq(symbol, "META") {
        vec!["메타", "페이스북", "META", "FACEBOOK"]
    } else {
        Vec::new()
    };
    assert(r@.map_values(|a: &str| a@) =~= aliases_of(symbol@));
    r
}

/// The terms a stock is matched by, in search form: symbol, name, then aliases.
pub open spec fn search_terms(stock: StockSearchResult) -> Seq<Seq<char>> {
    seq![search_form(stock.symbol@), search_form(stock.name@)] + aliases_of(stock.symbol@).map_values(
        |a: Seq<char>| search_form(a),
    )
}

pub open spec fn any_term(terms: Seq<Seq<char>>, pred: spec_fn(Seq<char>) -> bool) -> bool {
    exists|i: int| 0 <= i < terms.len() && pred(#[trigger] terms[i])
}

/// How well the terms match a search-form query: 0 for an equal term, 1 for a
/// term starting with it, 2 for a term containing it.
pub open spec fn match_score(terms: Seq<Seq<char>>, q: Seq<char>) -> Option<u8> {
    if any_term(terms, |t: Seq<char>| t == q) {
        Some(0)
    } else if any_term(terms, |t: Seq<char>| occurs_at(t, q, 0)) {
        Some(1)
    } else if any_term(terms, |t: Seq<char>| contains(t, q)) {
        Some(2)
    } else {
        None
    }
}

fn stock_terms(stock: &StockSearchResult) -> (r: Vec<Vec<char>>)
    ensures
        r@.len() == search_terms(*stock).len(),
        forall|i: int| 0 <= i < r@.len() ==> (#[trigger] r@[i])@ == search_terms(*stock)[i],
{
    let mut terms: Vec<Vec<char>> = Vec::new();
    terms.push(chars_of(normalize_stock_search(stock.symbol.as_str()).as_str()));
    terms.push(chars_of(normalize_stock_search(stock.name.as_str()).as_str()));
    let aliases = stock_aliases(stock.symbol.as_str());
    let ghost al = aliases_of(stock.symbol@);
    let mut i: usize = 0;
    while i < aliases.len()
        invariant
            i <= aliases.len(),
            aliases@.map_values(|a: &str| a@) == al,
            al == aliases_of(stock.symbol@),
            terms@.len() == 2 + i,
            forall|k: int| 0 <= k < terms@.len() ==> (#[trigger] terms@[k])@ == search_terms(*stock)[k],
        decreases aliases.len() - i,
    {
        assert(aliases@[i as int]@ == al[i as int]);
        terms.push(chars_of(normalize_stock_search(aliases[i]).as_str()));
        i = i + 1;
    }
    terms
}

/// The score of a stock for a search-form query.
pub fn stock_match_score(stock: &StockSearchResult, query: &str) -> (r: Option<u8>)
    ensures
        r == match_score(search_terms(*stock), query@),
{
    let terms = stock_terms(stock);
    let q = chars_of(query);
    let ghost ts = search_terms(*stock);
    let mut exact = false;
    let mut prefix = false;
    let mut partial = false;
    let mut i: usize = 0;
    while i < terms.len()
        invariant
            i <= terms.len() == ts.len(),
            q@ == query@,
            forall|k: int| 0 <= k < terms@.len() ==> (#[trigger] terms@[k])@ == ts[k],
            exact == exists|k: int| 0 <= k < i && #[trigger] ts[k] == q@,
            prefix == exists|k: int| 0 <= k < i && occurs_at(#[trigger] ts[k], q@, 0),
            partial == exists|k: int| 0 <= k < i && contains(#[trigger] ts[k], q@),
        decreases terms.len() - i,
    {
        let t = &terms[i];
        assert(t@ == ts[i as int]);
        if t.len() == q.len() && occurs_at_exec(t, &q, 0) {
            exact = true;
            assert(t@.subrange(0, q@.len() as int) =~= t@);
        } else {
            assert(t@ != q@ || !(t.len() == q.len())) by {
                if t@ == q@ {
                    assert(t@.subrange(0, q@.len() as int) =~= t@);
                }
            }
        }
        if occurs_at_exec(t, &q, 0) {
            prefix = true;
        }
        if contains_chars(t, &q) {
            partial = true;
        }
        i = i + 1;
    }
    proof {
        let f0 = |t: Seq<char>| t == q@;
        let f1 = |t: Seq<char>| occurs_at(t, q@, 0);
        let f2 = |t: Seq<char>| contains(t, q@);
        assert(any_term(ts, f0) == exact) by {
            if exact {
                let k = choose|k: int| 0 <= k < ts.len() && #[trigger] ts[k] == q@;
                assert(f0(ts[k]));
            }
        }
        assert(any_term(ts, f1) == prefix) by {
            if prefix {
                let k = choose|k: int| 0 <= k < ts.len() && occurs_at(#[trigger] ts[k], q@, 0);
                assert(f1(ts[k]));
            }
        }
        assert(any_term(ts, f2) == partial) by {
            if partial {
                let k = choose|k: int| 0 <= k < ts.len() && contains(#[trigger] ts[k], q@);
                assert(f2(ts[k]));
            }
        }
    }
    if exact {
        Some(0)
    } else if prefix {
        Some(1)
    } else if partial {
        Some(2)
    } else {
        None
    }
}

// ---------------------------------------------------------------- catalog search

/// The most results a search returns.
pub const STOCK_SEARCH_LIMIT: usize = 8;

#[verifier::opaque]
pub open spec fn score_at(stocks: Seq<StockSearchResult>, q: Seq<char>, i: int) -> Option<u8> {
    match_score(search_terms(stocks[i]), q)
}

/// Search order: by score, then by name length in characters, then by symbol.
#[verifier::opaque]
pub open spec fn rank_lt(stocks: Seq<StockSearchResult>, q: Seq<char>, i: int, j: int) -> bool {
    let si = score_at(stocks, q, i)->0;
    let sj = score_at(stocks, q, j)->0;
    let li = stocks[i].name@.len();
    let lj = stocks[j].name@.len();
    si < sj || (si == sj && (li < lj || (li == lj && seq_lt(stocks[i].symbol@, stocks[j].symbol@))))
}

pub open spec fn matched_count(stocks: Seq<StockSearchResult>, q: Seq<char>, n: int) -> int
    decreases n,
{
    if n <= 0 {
        0
    } else {
        matched_count(stocks, q, n - 1) + if score_at(stocks, q, n - 1) is Some {
            1int
        } else {
            0
        }
    }
}

/// `order` lists every matching stock once, in search order, equal ranks in
/// catalog order.
pub open spec fn ranked(order: Seq<int>, stocks: Seq<StockSearchResult>, q: Seq<char>) -> bool {
    &&& order.len() == matched_count(stocks, q, stocks.len() as int)
    &&& forall|a: int|
        0 <= a < order.len() ==> 0 <= #[trigger] order[a] < stocks.len() && score_at(stocks, q, order[a]) is Some
    &&& forall|a: int, b: int| 0 <= a < b < order.len() ==> order[a] != order[b]
    &&& forall|a: int|
        0 <= a < order.len() - 1 ==> !rank_lt(stocks, q, order[a + 1], #[trigger] order[a]) && (!rank_lt(
            stocks,
            q,
            order[a],
            order[a + 1],
        ) ==> order[a] < order[a + 1])
}

/// The result of a search: nothing for an empty query; otherwise the first
/// [`STOCK_SEARCH_LIMIT`] matching stocks in search order.
pub open spec fn search_result(out: Seq<StockSearchResult>, stocks: Seq<StockSearchResult>, query: Seq<char>) -> bool {
    let q = search_form(query);
    if q.len() == 0 {
        out.len() == 0
    } else {
        exists|order: Seq<int>|
            #[trigger] ranked(order, stocks, q) && out.len() == (if order.len() < 8 {
                order.len()
            } else {
                8
            }) && forall|k: int| 0 <= k < out.len() ==> out[k] == stocks[order[k]]
    }
}

fn rank_lt_exec(stocks: &Vec<StockSearchResult>, scores: &Vec<u8>, i: usize, j: usize) -> (r: bool)
    requires
        i < stocks.len(),
        j < stocks.len(),
        i < scores.len(),
        j < scores.len(),
    ensures
        r == ({
            let si = scores@[i as int];
            let sj = scores@[j as int];
            let li = stocks@[i as int].name@.len();
            let lj = stocks@[j as int].name@.len();
            si < sj || (si == sj && (li < lj || (li == lj && seq_lt(stocks@[i as int].symbol@, stocks@[j as int].symbol@))))
        }),
{
    let li = stocks[i].name.unicode_len();
    let lj = stocks[j].name.unicode_len();
    scores[i] < scores[j] || (scores[i] == scores[j] && (li < lj || (li == lj && str_lt(
        stocks[i].symbol.as_str(),
        stocks[j].symbol.as_str(),
    ))))
}

proof fn lemma_rank_lt_is(stocks: Seq<StockSearchResult>, q: Seq<char>, i: int, j: int, si: u8, sj: u8)
    requires
        score_at(stocks, q, i) == Some(si),
        score_at(stocks, q, j) == Some(sj),
    ensures
        rank_lt(stocks, q, i, j) == (si < sj || (si == sj && (stocks[i].name@.len() < stocks[j].name@.len() || (
        stocks[i].name@.len() == stocks[j].name@.len() && seq_lt(stocks[i].symbol@, stocks[j].symbol@))))),
        rank_lt(stocks, q, i, j) ==> !rank_lt(stocks, q, j, i),
{
    reveal(rank_lt);
    if si == sj && stocks[i].name@.len() == stocks[j].name@.len() && seq_lt(stocks[i].symbol@, stocks[j].symbol@) {
        lemma_seq_lt_asym(stocks[i].symbol@, stocks[j].symbol@);
    }
}

/// The search order over the stocks before `n`.
spec fn order_ok(order: Seq<usize>, stocks: Seq<StockSearchResult>, qs: Seq<char>, n: int) -> bool {
    &&& order.len() == matched_count(stocks, qs, n)
    &&& forall|a: int| 0 <= a < order.len() ==> (#[trigger] order[a]) < n && score_at(stocks, qs, order[a] as int) is Some
    &&& forall|a: int, b: int| 0 <= a < b < order.len() ==> order[a] != order[b]
    &&& forall|a: int|
        0 <= a < order.len() - 1 ==> !rank_lt(stocks, qs, order[a + 1] as int, #[trigger] order[a] as int) && (!rank_lt(
            stocks,
            qs,
            order[a] as int,
            order[a + 1] as int,
        ) ==> order[a] < order[a + 1])
}

/// Inserts matching stock `i` after every stock that does not rank after it.
fn insert_ranked(
    order: &mut Vec<usize>,
    stocks: &Vec<StockSearchResult>,
    scores: &Vec<u8>,
    i: usize,
    Ghost(qs): Ghost<Seq<char>>,
)
    requires
        i < stocks.len(),
        scores@.len() == i + 1,
        forall|k: int| 0 <= k <= i ==> score_at(stocks@, qs, k) is Some ==> (#[trigger] scores@[k]) == score_at(stocks@, qs, k)->0,
        score_at(stocks@, qs, i as int) is Some,
        order_ok(old(order)@, stocks@, qs, i as int),
    ensures
        order_ok(final(order)@, stocks@, qs, i + 1),
{
    let ghost before = order@;
    let mut pos: usize = 0;
    while pos < order.len() && !rank_lt_exec(stocks, scores, i, order[pos])
        invariant
            pos <= order@.len(),
            order@ == before,
            scores@.len() == i + 1,
            i < stocks.len(),
            order_ok(before, stocks@, qs, i as int),
            pos > 0 ==> !rank_lt(stocks@, qs, i as int, order@[pos - 1] as int),
            forall|k: int| 0 <= k <= i ==> score_at(stocks@, qs, k) is Some ==> (#[trigger] scores@[k]) == score_at(stocks@, qs, k)->0,
            score_at(stocks@, qs, i as int) is Some,
        decreases order.len() - pos,
    {
        proof {
            let j = order@[pos as int] as int;
            assert(score_at(stocks@, qs, j) is Some);
            assert(j < i);
            lemma_rank_lt_is(stocks@, qs, i as int, j, scores@[i as int], scores@[j]);
        }
        pos = pos + 1;
    }
    proof {
        if pos < before.len() {
            let j = before[pos as int] as int;
            assert(score_at(stocks@, qs, j) is Some);
            assert(j < i);
            lemma_rank_lt_is(stocks@, qs, i as int, j, scores@[i as int], scores@[j]);
        }
    }
    order.insert(pos, i);
    proof {
        let after = order@;
        assert forall|a: int| 0 <= a < after.len() - 1 implies !rank_lt(stocks@, qs, after[a + 1] as int, #[trigger] after[a] as int)
            && (!rank_lt(stocks@, qs, after[a] as int, after[a + 1] as int) ==> after[a] < after[a + 1]) by {
            if a + 1 < pos {
                assert(after[a] == before[a] && after[a + 1] == before[a + 1]);
            } else if a + 1 == pos {
                assert(after[a] == before[a]);
            } else if a == pos {
                assert(after[a + 1] == before[a]);
            } else {
                assert(after[a] == before[a - 1] && after[a + 1] == before[a]);
            }
        }
        assert forall|a: int, b: int| 0 <= a < b < after.len() implies after[a] != after[b] by {
            if a < pos && b < pos {
                assert(after[a] == before[a] && after[b] == before[b]);
            } else if a < pos && b == pos {
                assert(after[a] == before[a]);
            } else if a < pos {
                assert(after[a] == before[a] && after[b] == before[b - 1]);
            } else if a == pos {
                assert(after[b] == before[b - 1]);
            } else {
                assert(after[a] == before[a - 1] && after[b] == before[b - 1]);
            }
        }
        assert forall|a: int| 0 <= a < after.len() implies (#[trigger] after[a]) < i + 1 && score_at(
            stocks@,
            qs,
            after[a] as int,
        ) is Some by {
            if a < pos {
                assert(after[a] == before[a]);
            } else if a > pos {
                assert(after[a] == before[a - 1]);
            }
        }
    }
}

/// Scores stock `i` and, where it matches, places it in the search order.
fn rank_step(order: &mut Vec<usize>, scores: &mut Vec<u8>, stocks: &Vec<StockSearchResult>, i: usize, q: &String)
    requires
        i < stocks.len(),
        old(scores)@.len() == i,
        forall|k: int| 0 <= k < i ==> score_at(stocks@, q@, k) is Some ==> (#[trigger] old(scores)@[k]) == score_at(stocks@, q@, k)->0,
        order_ok(old(order)@, stocks@, q@, i as int),
    ensures
        final(scores)@.len() == i + 1,
        forall|k: int| 0 <= k <= i ==> score_at(stocks@, q@, k) is Some ==> (#[trigger] final(scores)@[k]) == score_at(stocks@, q@, k)->0,
        order_ok(final(order)@, stocks@, q@, i + 1),
{
    let score = stock_match_score(&stocks[i], q.as_str());
    proof {
        reveal(score_at);
    }
    match score {
        None => {
            scores.push(0);
            assert(matched_count(stocks@, q@, i + 1) == matched_count(stocks@, q@, i as int));
        },
        Some(s) => {
            scores.push(s);
            insert_ranked(order, stocks, scores, i, Ghost(q@));
        },
    }
}

/// Searches the catalog (see [`search_result`]).
pub fn search_stock_catalog(stocks: &Vec<StockSearchResult>, query: &str) -> (r: Vec<StockSearchResult>)
    ensures
        search_result(r@, stocks@, query@),
{
    let q = normalize_stock_search(query);
    if q.unicode_len() == 0 {
        return Vec::new();
    }
    let ghost qs = q@;
    let mut scores: Vec<u8> = Vec::new();
    let mut order: Vec<usize> = Vec::new();
    let mut i: usize = 0;
    while i < stocks.len()
        invariant
            i <= stocks.len(),
            qs == q@,
            scores@.len() == i,
            forall|k: int| 0 <= k < i ==> score_at(stocks@, qs, k) is Some ==> (#[trigger] scores@[k]) == score_at(stocks@, qs, k)->0,
            order_ok(order@, stocks@, qs, i as int),
        decreases stocks.len() - i,
    {
        rank_step(&mut order, &mut scores, stocks, i, &q);
        i = i + 1;
    }
    let limit = if order.len() < STOCK_SEARCH_LIMIT {
        order.len()
    } else {
        STOCK_SEARCH_LIMIT
    };
    let mut out: Vec<StockSearchResult> = Vec::new();
    let mut k: usize = 0;
    while k < limit
        invariant
            k <= limit <= order.len(),
            out@.len() == k,
            forall|a: int| 0 <= a < order@.len() ==> (#[trigger] order@[a]) < stocks.len(),
            forall|x: int| 0 <= x < k ==> out@[x] == stocks@[order@[x] as int],
        decreases limit - k,
    {
        out.push(copy_stock(&stocks[order[k]]));
        k = k + 1;
    }
    let ghost order_int = order@.map_values(|x: usize| x as int);
    assert(ranked(order_int, stocks@, qs)) by {
        assert forall|a: int| 0 <= a < order_int.len() - 1 implies !rank_lt(stocks@, qs, order_int[a + 1], #[trigger] order_int[a])
            && (!rank_lt(stocks@, qs, order_int[a], order_int[a + 1]) ==> order_int[a] < order_int[a + 1]) by {
            assert(order_int[a] == order@[a] as int);
            assert(order_int[a + 1] == order@[a + 1] as int);
        }
        assert forall|a: int, b: int| 0 <= a < b < order_int.len() implies order_int[a] != order_int[b] by {
            assert(order@[a] != order@[b]);
        }
    }
    assert(forall|x: int| 0 <= x < out@.len() ==> out@[x] == stocks@[order_int[x]]);
    out
}


// ---------------------------------------------------------------- stock named in a request

/// The length of the longest of `terms` with two or more characters that `q`
/// contains.
pub open spec fn longest_mention(terms: Seq<Seq<char>>, q: Seq<char>) -> Option<nat>
    decreases terms.len(),
{
    if terms.len() == 0 {
        None
    } else {
        let rest = longest_mention(terms.drop_last(), q);
        let t = terms.last();
        if t.len() >= 2 && contains(q, t) {
            match rest {
                Some(m) => Some(if m < t.len() { t.len() } else { m }),
                None => Some(t.len()),
            }
        } else {
            rest
        }
    }
}

pub open spec fn mention_at(stocks: Seq<StockSearchResult>, q: Seq<char>, i: int) -> Option<nat> {
    longest_mention(search_terms(stocks[i]), q)
}

/// Stock `i` comes before stock `j`: a longer mention, or as long and a smaller symbol.
pub open spec fn mention_beats(stocks: Seq<StockSearchResult>, q: Seq<char>, i: int, j: int) -> bool {
    let li = mention_at(stocks, q, i)->0;
    let lj = mention_at(stocks, q, j)->0;
    li > lj || (li == lj && seq_lt(stocks[i].symbol@, stocks[j].symbol@))
}

/// Stock `i` is mentioned and comes first: no mentioned stock comes before it,
/// and one that ties with it stands later in the catalog.
pub open spec fn best_mention(stocks: Seq<StockSearchResult>, q: Seq<char>, i: int) -> bool {
    &&& 0 <= i < stocks.len()
    &&& mention_at(stocks, q, i) is Some
    &&& forall|j: int|
        0 <= j < stocks.len() && j != i && (#[trigger] mention_at(stocks, q, j)) is Some ==> (j < i ==> mention_beats(
            stocks,
            q,
            i,
            j,
        )) && (i < j ==> !mention_beats(stocks, q, j, i))
}

/// The stock a request names: `None` when it mentions none, else the one that
/// comes first.
pub open spec fn resolved_stock(r: Option<StockSearchResult>, stocks: Seq<StockSearchResult>, query: Seq<char>) -> bool {
    let q = search_form(query);
    match r {
        None => forall|i: int| 0 <= i < stocks.len() ==> (#[trigger] mention_at(stocks, q, i)) is None,
        Some(s) => exists|i: int| #[trigger] best_mention(stocks, q, i) && s == stocks[i],
    }
}

fn stock_mention(stock: &StockSearchResult, q: &Vec<char>) -> (r: Option<usize>)
    ensures
        match r {
            None => longest_mention(search_terms(*stock), q@) is None,
            Some(n) => longest_mention(search_terms(*stock), q@) == Some(n as nat),
        },
{
    let terms = stock_terms(stock);
    let ghost ts = search_terms(*stock);
    let mut best: Option<usize> = None;
    let mut i: usize = 0;
    while i < terms.len()
        invariant
            i <= terms.len() == ts.len(),
            forall|k: int| 0 <= k < terms@.len() ==> (#[trigger] terms@[k])@ == ts[k],
            match best {
                None => longest_mention(ts.subrange(0, i as int), q@) is None,
                Some(n) => longest_mention(ts.subrange(0, i as int), q@) == Some(n as nat),
            },
        decreases terms.len() - i,
    {
        let t = &terms[i];
        assert(ts.subrange(0, i as int + 1).drop_last() =~= ts.subrange(0, i as int));
        assert(t@ == ts[i as int]);
        if t.len() >= 2 && contains_chars(q, t) {
            best = match best {
                Some(m) => Some(if m < t.len() { t.len() } else { m }),
                None => Some(t.len()),
            };
        }
        i = i + 1;
    }
    assert(ts.subrange(0, ts.len() as int) =~= ts);
    best
}

proof fn lemma_key_order(li: nat, si: Seq<char>, lb: nat, sb: Seq<char>, lj: nat, sj: Seq<char>)
    requires
        li > lb || (li == lb && seq_lt(si, sb)),
        !(lj > lb || (lj == lb && seq_lt(sj, sb))),
    ensures
        li > lj || (li == lj && seq_lt(si, sj)),
{
    if li == lb && lj == lb && sj != sb {
        lemma_seq_lt_total(sj, sb);
        lemma_seq_lt_trans(si, sb, sj);
    }
}

/// Finds the stock a natural-language request names (see [`resolved_stock`]).
pub fn resolve_stock_from_text(stocks: &Vec<StockSearchResult>, query: &str) -> (r: Option<StockSearchResult>)
    ensures
        resolved_stock(r, stocks@, query@),
{
    let nq = normalize_stock_search(query);
    let q = chars_of(nq.as_str());
    let ghost qs = q@;
    let mut best: Option<(usize, usize)> = None;
    let mut i: usize = 0;
    while i < stocks.len()
        invariant
            qs == q@,
            qs == search_form(query@),
            i <= stocks.len(),
            match best {
                None => forall|j: int| 0 <= j < i ==> (#[trigger] mention_at(stocks@, qs, j)) is None,
                Some((b, l)) => {
                    &&& b < i
                    &&& mention_at(stocks@, qs, b as int) == Some(l as nat)
                    &&& forall|j: int|
                        0 <= j < i && j != b && (#[trigger] mention_at(stocks@, qs, j)) is Some ==> (j < b ==> mention_beats(
                            stocks@,
                            qs,
                            b as int,
                            j,
                        )) && (b < j ==> !mention_beats(stocks@, qs, j, b as int))
                },
            },
        decreases stocks.len() - i,
    {
        let m = stock_mention(&stocks[i], &q);
        if let Some(l) = m {
            let better = match best {
                None => true,
                Some((b, bl)) => l > bl || (l == bl && str_lt(stocks[i].symbol.as_str(), stocks[b].symbol.as_str())),
            };
            if better {
                proof {
                    if let Some((b, bl)) = best {
                        assert forall|j: int|
                            0 <= j < i + 1 && j != i && (#[trigger] mention_at(stocks@, qs, j)) is Some implies (j
                                < i ==> mention_beats(stocks@, qs, i as int, j)) && (i < j ==> !mention_beats(
                            stocks@,
                            qs,
                            j,
                            i as int,
                        )) by {
                            let lj = mention_at(stocks@, qs, j)->0;
                            let sj = stocks@[j].symbol@;
                            let sb = stocks@[b as int].symbol@;
                            let si = stocks@[i as int].symbol@;
                            if j < b {
                                if lj == bl && seq_lt(sb, sj) {
                                    lemma_seq_lt_asym(sb, sj);
                                }
                            }
                            if j != b {
                                lemma_key_order(l as nat, si, bl as nat, sb, lj, sj);
                            }
                        }
                    }
                }
                best = Some((i, l));
            }
        }
        i = i + 1;
    }
    match best {
        None => None,
        Some((b, _)) => {
            assert(best_mention(stocks@, qs, b as int));
            Some(copy_stock(&stocks[b]))
        },
    }
}


// ---------------------------------------------------------------- explicit Korean code

/// A Korean listing code: six ASCII digits.
pub open spec fn kr_code(s: Seq<char>) -> bool {
    s.len() == 6 && all_digits(s)
}

/// `(` at `p` is closed by `)` at `e`, with no bracket between them.
pub open spec fn closes_at(q: Seq<char>, p: int, e: int) -> bool {
    &&& 0 <= p < e < q.len()
    &&& q[p] == '('
    &&& q[e] == ')'
    &&& forall|k: int| p < k < e ==> #[trigger] q[k] != '(' && q[k] != ')'
}

/// The brackets at `p` and `e` hold a Korean code, blanks around it aside.
pub open spec fn code_in_parens(q: Seq<char>, p: int, e: int) -> bool {
    closes_at(q, p, e) && kr_code(trim(q.subrange(p + 1, e)))
}

/// Whether the text names a Korean code: the whole text, blanks aside, or a
/// bracketed one.
pub open spec fn names_kr_code(q: Seq<char>) -> bool {
    kr_code(trim(q)) || exists|p: int, e: int| #[trigger] code_in_parens(q, p, e)
}

/// `c` is the code the text names: the whole text where it is one, else the
/// first bracketed one.
pub open spec fn named_kr_code(q: Seq<char>, c: Seq<char>) -> bool {
    if kr_code(trim(q)) {
        c == trim(q)
    } else {
        exists|p: int, e: int|
            #[trigger] code_in_parens(q, p, e) && c == trim(q.subrange(p + 1, e)) && forall|p2: int, e2: int|
                p2 < p ==> !#[trigger] code_in_parens(q, p2, e2)
    }
}

fn is_kr_code(s: &str) -> (r: bool)
    ensures
        r == kr_code(s@),
{
    s.unicode_len() == 6 && only_digits(s)
}

/// The code a text names (see [`named_kr_code`]).
fn explicit_kr_code(query: &str) -> (r: Option<String>)
    ensures
        r is None <==> !names_kr_code(query@),
        r matches Some(c) ==> named_kr_code(query@, c@),
{
    let whole = trimmed(query);
    if is_kr_code(whole.as_str()) {
        return Some(whole);
    }
    let chars = chars_of(query);
    let n = chars.len();
    let ghost q = query@;
    let mut p: usize = 0;
    while p < n
        invariant
            chars@ == q,
            q == query@,
            n == chars.len(),
            p <= n,
            !kr_code(trim(q)),
            forall|p2: int, e2: int| p2 < p ==> !#[trigger] code_in_parens(q, p2, e2),
        decreases n - p,
    {
        if chars[p] == '(' {
            let mut e: usize = p + 1;
            while e < n && chars[e] != '(' && chars[e] != ')'
                invariant
                    chars@ == q,
                    n == chars.len(),
                    p < e <= n,
                    q[p as int] == '(',
                    forall|k: int| p < k < e ==> #[trigger] q[k] != '(' && q[k] != ')',
                decreases n - e,
            {
                e = e + 1;
            }
            let closed = e < n && chars[e] == ')';
            proof {
                assert forall|e2: int| #[trigger] closes_at(q, p as int, e2) implies closed && e2 == e by {
                    if e2 < e {
                        assert(q[e2] != ')');
                    } else if e2 > e {
                        assert(e < n);
                        assert(q[e as int] != '(' && q[e as int] != ')');
                    }
                }
            }
            if closed {
                let mut piece: Vec<char> = Vec::new();
                let mut k: usize = p + 1;
                while k < e
                    invariant
                        p < k <= e < n == chars.len(),
                        piece@ == chars@.subrange(p + 1, k as int),
                    decreases e - k,
                {
                    piece.push(chars[k]);
                    k = k + 1;
                }
                let piece_text = string_from_chars(&piece);
                let code = trimmed(piece_text.as_str());
                if is_kr_code(code.as_str()) {
                    assert(closes_at(q, p as int, e as int));
                    assert(code_in_parens(q, p as int, e as int));
                    return Some(code);
                }
                assert forall|e2: int| !#[trigger] code_in_parens(q, p as int, e2) by {
                    if closes_at(q, p as int, e2) {
                        assert(e2 == e);
                    }
                }
            } else {
                assert forall|e2: int| !#[trigger] code_in_parens(q, p as int, e2) by {
                    if closes_at(q, p as int, e2) {
                        assert(closed);
                    }
                }
            }
        } else {
            assert forall|e2: int| !#[trigger] code_in_parens(q, p as int, e2) by {}
        }
        p = p + 1;
    }
    assert forall|p2: int, e2: int| !#[trigger] code_in_parens(q, p2, e2) by {
        if p2 >= n {
            assert(!closes_at(q, p2, e2));
        }
    }
    None
}

/// The stock behind a Korean code that the request names, with no catalog
/// lookup: the code as symbol and name, listed on KRX in KRW.
pub fn explicit_kr_stock_from_text(query: &str) -> (r: Option<StockSearchResult>)
    ensures
        r is None <==> !names_kr_code(query@),
        r matches Some(s) ==> {
            &&& named_kr_code(query@, s.symbol@)
            &&& s.name@ == s.symbol@
            &&& s.market@ == "KRX"@
            &&& s.currency@ == "KRW"@
            &&& s.security_type@ == "STOCK"@
        },
{
    match explicit_kr_code(query) {
        None => None,
        Some(code) => Some(
            StockSearchResult {
                symbol: copy_string(&code),
                name: code,
                market: "KRX".to_owned(),
                currency: "KRW".to_owned(),
                security_type: "STOCK".to_owned(),
            },
        ),
    }
}

} // verus!
