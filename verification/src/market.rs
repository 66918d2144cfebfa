//! Market data rules for the Toss Securities connection: credential checks,
//! account masking, price parsing into minor units without floating point, the
//! official market calendar, and the regular-session gate for paper market
//! orders.
use vstd::prelude::*;
use crate::dates::{calendar_date_ok, official_zone, official_zone_exec, parse_rfc3339_ms, rfc3339_ms, calendar_date_shape};
use crate::text::{ascii_lower, string_from_chars, concat_str, decimal, decimal_string, ascii_upper, byte_len, byte_len_spec, has_no_control, no_control, str_eq, to_ascii_upper, trim, trimmed};

verus! {

// ---------------------------------------------------------------- errors

#[derive(Debug, Clone, Copy, PartialEq, Eq, Structural)]
pub enum ApiErrorKind {
    InvalidCredentials,
    IpDenied,
    RateLimited,
    Unauthorized,
    Maintenance,
    Unavailable,
    InvalidResponse,
}

#[derive(Debug, Clone)]
pub struct ApiError {
    pub kind: ApiErrorKind,
    pub message: String,
}

impl ApiError {
    pub fn new(kind: ApiErrorKind, message: &str) -> (r: Self)
        ensures
            r.kind == kind,
            r.message@ == message@,
    {
        ApiError { kind, message: message.to_owned() }
    }

    /// The error for a refused provider call, by HTTP status: 401 an expired
    /// or wrong token, 403 a denied address, 429 a rate limit, 502/503/504
    /// maintenance, anything else unavailable.
    pub fn provider_status(status: u16, context: &str) -> (r: Self)
        ensures
            r.kind == provider_status_kind(status),
            r.message@ == context@,
    {
        let kind = if status == 401 {
            ApiErrorKind::Unauthorized
        } else if status == 403 {
            ApiErrorKind::IpDenied
        } else if status == 429 {
            ApiErrorKind::RateLimited
        } else if status == 502 || status == 503 || status == 504 {
            ApiErrorKind::Maintenance
        } else {
            ApiErrorKind::Unavailable
        };
        ApiError::new(kind, context)
    }
}

pub open spec fn provider_status_kind(status: u16) -> ApiErrorKind {
    if status == 401 {
        ApiErrorKind::Unauthorized
    } else if status == 403 {
        ApiErrorKind::IpDenied
    } else if status == 429 {
        ApiErrorKind::RateLimited
    } else if status == 502 || status == 503 || status == 504 {
        ApiErrorKind::Maintenance
    } else {
        ApiErrorKind::Unavailable
    }
}

// ---------------------------------------------------------------- symbols

pub open spec fn symbol_char(c: char) -> bool {
    crate::text::is_ascii_alnum(c) || c == '.' || c == '-'
}

/// A market symbol once trimmed and upper-cased: 1 to 24 ASCII letters,
/// digits, dots or hyphens.
pub open spec fn market_symbol_ok(u: Seq<char>) -> bool {
    0 < u.len() <= 24 && forall|i: int| 0 <= i < u.len() ==> symbol_char(#[trigger] u[i])
}

pub fn validate_market_symbol(symbol: &str) -> (r: Result<String, String>)
    ensures
        match r {
            Ok(s) => market_symbol_ok(ascii_upper(trim(symbol@))) && s@ == ascii_upper(trim(symbol@)),
            Err(e) => !market_symbol_ok(ascii_upper(trim(symbol@))) && e@
                == "영문·숫자·점·하이픈으로 된 유효한 종목 코드가 필요합니다."@,
        },
{
    let t = trimmed(symbol);
    let normalized = to_ascii_upper(t.as_str());
    let n = normalized.unicode_len();
    let mut ok = n > 0 && n <= 24;
    let mut i: usize = 0;
    while ok && i < n
        invariant
            n == normalized@.len(),
            i <= n,
            ok ==> 0 < n <= 24,
            ok ==> forall|k: int| 0 <= k < i ==> symbol_char(#[trigger] normalized@[k]),
            !ok ==> !market_symbol_ok(normalized@),
        decreases n - i,
    {
        let c = normalized.get_char(i);
        if !(('0' <= c && c <= '9') || ('a' <= c && c <= 'z') || ('A' <= c && c <= 'Z') || c == '.' || c == '-') {
            ok = false;
        }
        i = i + 1;
    }
    if !ok {
        return Err("영문·숫자·점·하이픈으로 된 유효한 종목 코드가 필요합니다.".to_owned());
    }
    Ok(normalized)
}

// ---------------------------------------------------------------- credentials and accounts

#[derive(Debug, Clone)]
pub struct TossCredentialsRequest {
    pub client_id: String,
    pub client_secret: String,
}

#[derive(Debug, Clone)]
pub struct TossCredentials {
    pub client_id: String,
    pub client_secret: String,
}
// ---------------------------------------------------------------- paper market orders

/// A paper market order at the current Toss price. Its trading costs are
/// handed to the ledger beside it.
#[derive(Debug, Clone)]
pub struct TossPaperMarketOrderRequest {
    pub symbol: String,
    pub expected_currency: String,
    pub side: crate::orders::TradeSide,
    pub quantity: u64,
    pub idempotency_key: String,
}

pub open spec fn paper_key_char(c: char) -> bool {
    crate::text::is_ascii_alnum(c) || c == '-' || c == '_' || c == '.'
}

/// An idempotency key: 1 to 120 ASCII letters, digits, `-`, `_` or `.`.
pub open spec fn paper_key_ok(k: Seq<char>) -> bool {
    0 < k.len() <= 120 && forall|i: int| 0 <= i < k.len() ==> paper_key_char(#[trigger] k[i])
}

pub open spec fn market_currency(c: Seq<char>) -> bool {
    c == "KRW"@ || c == "USD"@
}

/// The first refusal of a paper market order before any price is fetched.
pub open spec fn paper_market_order_refusal(r: TossPaperMarketOrderRequest) -> Option<Seq<char>> {
    if !market_symbol_ok(ascii_upper(trim(r.symbol@))) {
        Some("영문·숫자·점·하이픈으로 된 유효한 종목 코드가 필요합니다."@)
    } else if r.quantity == 0 || !paper_key_ok(r.idempotency_key@) {
        Some("유효한 종목 코드와 1주 이상의 모의주문 수량이 필요합니다."@)
    } else if !market_currency(r.expected_currency@) {
        Some("국장·미장 시장가 주문 통화를 확인해 주세요."@)
    } else {
        None
    }
}

/// Checks a paper market order; gives its normalised symbol and its order id,
/// `paper-` and the idempotency key.
pub fn check_paper_market_order(request: &TossPaperMarketOrderRequest) -> (r: Result<(String, String), String>)
    ensures
        match paper_market_order_refusal(*request) {
            Some(e) => r matches Err(m) && m@ == e,
            None => r matches Ok((symbol, order_id)) && symbol@ == ascii_upper(trim(request.symbol@))
                && order_id@ == "paper-"@ + request.idempotency_key@,
        },
{
    let symbol = validate_market_symbol(request.symbol.as_str())?;
    let key = request.idempotency_key.as_str();
    let n = key.unicode_len();
    let mut ok = request.quantity > 0 && n > 0 && n <= 120;
    let mut i: usize = 0;
    while ok && i < n
        invariant
            n == key@.len(),
            i <= n,
            ok ==> 0 < n <= 120 && request.quantity > 0,
            ok ==> forall|k: int| 0 <= k < i ==> paper_key_char(#[trigger] key@[k]),
            !ok ==> (request.quantity == 0 || !paper_key_ok(key@)),
        decreases n - i,
    {
        let c = key.get_char(i);
        if !(('0' <= c && c <= '9') || ('a' <= c && c <= 'z') || ('A' <= c && c <= 'Z') || c == '-' || c == '_'
            || c == '.') {
            ok = false;
        }
        i = i + 1;
    }
    if !ok {
        return Err("유효한 종목 코드와 1주 이상의 모의주문 수량이 필요합니다.".to_owned());
    }
    if !(str_eq(request.expected_currency.as_str(), "KRW") || str_eq(request.expected_currency.as_str(), "USD")) {
        return Err("국장·미장 시장가 주문 통화를 확인해 주세요.".to_owned());
    }
    Ok((symbol, concat_str("paper-", key)))
}

/// The quoted price's currency must be the market's.
pub fn check_paper_order_currency(expected_currency: &str, price_currency: &str) -> (r: Result<(), String>)
    ensures
        r is Ok <==> market_currency(expected_currency@) && price_currency@ == expected_currency@,
        r matches Err(e) ==> e@ == "선택한 시장의 통화와 토스증권 종목 통화가 일치하지 않습니다."@,
{
    if !(str_eq(expected_currency, "KRW") || str_eq(expected_currency, "USD")) || !str_eq(
        price_currency,
        expected_currency,
    ) {
        return Err("선택한 시장의 통화와 토스증권 종목 통화가 일치하지 않습니다.".to_owned());
    }
    Ok(())
}



/// Credentials as typed: no surrounding whitespace, an id of 8..=200 bytes and a
/// secret of 8..=500 bytes, and no control character in either.
pub open spec fn credentials_ok(id: Seq<char>, secret: Seq<char>) -> bool {
    &&& trim(id) == id
    &&& trim(secret) == secret
    &&& 8 <= byte_len_spec(id) <= 200
    &&& 8 <= byte_len_spec(secret) <= 500
    &&& no_control(id)
    &&& no_control(secret)
}

/// Why typed credentials are refused, checked in this order.
pub open spec fn credentials_refusal(id: Seq<char>, secret: Seq<char>) -> Option<Seq<char>> {
    if trim(id) != id || trim(secret) != secret {
        Some("Client ID와 Client Secret 앞뒤의 공백을 제거해 주세요."@)
    } else if !(8 <= byte_len_spec(id) <= 200 && 8 <= byte_len_spec(secret) <= 500) {
        Some("Client ID 또는 Client Secret의 길이가 올바르지 않습니다."@)
    } else if !(no_control(id) && no_control(secret)) {
        Some("Client ID와 Client Secret에는 줄바꿈이나 제어 문자를 사용할 수 없습니다."@)
    } else {
        None
    }
}

pub fn validate_credentials(request: TossCredentialsRequest) -> (r: Result<TossCredentials, String>)
    ensures
        r is Ok <==> credentials_ok(request.client_id@, request.client_secret@),
        r matches Err(e) ==> credentials_refusal(request.client_id@, request.client_secret@) == Some(e@),
        r matches Ok(c) ==> c.client_id == request.client_id && c.client_secret == request.client_secret,
{
    let client_id = request.client_id;
    let client_secret = request.client_secret;
    let id_trimmed = trimmed(client_id.as_str());
    let secret_trimmed = trimmed(client_secret.as_str());
    if !str_eq(id_trimmed.as_str(), client_id.as_str()) || !str_eq(
        secret_trimmed.as_str(),
        client_secret.as_str(),
    ) {
        return Err("Client ID와 Client Secret 앞뒤의 공백을 제거해 주세요.".to_owned());
    }
    let id_len = byte_len(client_id.as_str());
    let secret_len = byte_len(client_secret.as_str());
    if !(8 <= id_len && id_len <= 200) || !(8 <= secret_len && secret_len <= 500) {
        return Err("Client ID 또는 Client Secret의 길이가 올바르지 않습니다.".to_owned());
    }
    if !has_no_control(client_id.as_str()) || !has_no_control(client_secret.as_str()) {
        return Err("Client ID와 Client Secret에는 줄바꿈이나 제어 문자를 사용할 수 없습니다.".to_owned());
    }
    Ok(TossCredentials { client_id, client_secret })
}

/// An account number with all but its last four characters replaced by `*`
/// (every character when it has four or fewer).
pub open spec fn masked_account_no(s: Seq<char>) -> Seq<char> {
    let hidden: int = if s.len() > 4 {
        s.len() - 4
    } else {
        s.len() as int
    };
    Seq::new(hidden as nat, |i: int| '*') + s.subrange(hidden, s.len() as int)
}

#[derive(Debug, Clone, PartialEq, Eq)]
pub struct TossConnectionStatus {
    pub configured: bool,
    pub connected: bool,
    pub message: String,
}

/// The connection status shown before any quote is requested: whether
/// credentials are stored; the connection itself is checked on the first quote.
pub fn toss_connection_status_of(configured: bool) -> (r: TossConnectionStatus)
    ensures
        r.configured == configured,
        !r.connected,
        configured ==> r.message@ == "연결 정보 저장됨 · 시세 요청 시 연결 확인"@,
        !configured ==> r.message@ == "토스증권 Open API 연결 정보가 없습니다."@,
{
    if configured {
        TossConnectionStatus { configured: true, connected: false, message: "연결 정보 저장됨 · 시세 요청 시 연결 확인".to_owned() }
    } else {
        TossConnectionStatus {
            configured: false,
            connected: false,
            message: "토스증권 Open API 연결 정보가 없습니다.".to_owned(),
        }
    }
}

// ---------------------------------------------------------------- read-only account

/// An amount in KRW, and in USD where the account holds dollars, as the broker
/// writes it.
#[derive(Debug, Clone, PartialEq, Eq)]
pub struct CurrencyAmounts {
    pub krw: String,
    pub usd: Option<String>,
}

#[derive(Debug, Clone, PartialEq, Eq)]
pub struct HoldingsMarketValue {
    pub amount: CurrencyAmounts,
    pub amount_after_cost: CurrencyAmounts,
}

#[derive(Debug, Clone, PartialEq, Eq)]
pub struct HoldingsProfitLoss {
    pub amount: CurrencyAmounts,
    pub amount_after_cost: CurrencyAmounts,
    pub rate: String,
    pub rate_after_cost: String,
}

#[derive(Debug, Clone, PartialEq, Eq)]
pub struct HoldingsDailyProfitLoss {
    pub amount: CurrencyAmounts,
    pub rate: String,
}

#[derive(Debug, Clone, PartialEq, Eq)]
pub struct HoldingItem {
    pub symbol: String,
    pub name: String,
    pub market_country: String,
    pub currency: String,
    pub quantity: String,
    pub last_price: String,
    pub average_purchase_price: String,
}

#[derive(Debug, Clone, PartialEq, Eq)]
pub struct HoldingsOverview {
    pub total_purchase_amount: CurrencyAmounts,
    pub market_value: HoldingsMarketValue,
    pub profit_loss: HoldingsProfitLoss,
    pub daily_profit_loss: HoldingsDailyProfitLoss,
    pub items: Vec<HoldingItem>,
}

/// One brokerage account with its holdings; the account number only masked.
#[derive(Debug, Clone, PartialEq, Eq)]
pub struct TossAccountOverview {
    pub account_alias: String,
    pub masked_account_no: String,
    pub account_type: String,
    pub holdings: HoldingsOverview,
}

#[derive(Debug, Clone, PartialEq, Eq)]
pub struct TossAccountSnapshot {
    pub provider: String,
    pub fetched_at_ms: u64,
    pub read_only: bool,
    pub live_order_enabled: bool,
    pub accounts: Vec<TossAccountOverview>,
    pub message: String,
}

/// The message above the accounts: none found, or how many were read.
pub open spec fn account_snapshot_message(count: nat) -> Seq<char> {
    if count == 0 {
        "조회 가능한 종합매매 계좌가 없습니다."@
    } else {
        "토스증권 계좌 "@ + decimal(count) + "개와 보유자산을 읽기 전용으로 확인했습니다."@
    }
}

/// The read-only account snapshot of the accounts fetched: never able to
/// place an order.
pub fn toss_account_snapshot_of(accounts: Vec<TossAccountOverview>, fetched_at_ms: u64) -> (r: TossAccountSnapshot)
    ensures
        r.provider@ == "TOSS_OPEN_API"@,
        r.fetched_at_ms == fetched_at_ms,
        r.read_only,
        !r.live_order_enabled,
        r.accounts@ == accounts@,
        r.message@ == account_snapshot_message(accounts@.len()),
{
    let message = if accounts.len() == 0 {
        "조회 가능한 종합매매 계좌가 없습니다.".to_owned()
    } else {
        let count = decimal_string(accounts.len() as u64);
        let head = concat_str("토스증권 계좌 ", count.as_str());
        concat_str(head.as_str(), "개와 보유자산을 읽기 전용으로 확인했습니다.")
    };
    TossAccountSnapshot {
        provider: "TOSS_OPEN_API".to_owned(),
        fetched_at_ms,
        read_only: true,
        live_order_enabled: false,
        accounts,
        message,
    }
}

pub fn mask_account_no(account_no: &str) -> (r: String)
    ensures
        r@ == masked_account_no(account_no@),
{
    let chars = crate::text::chars_of(account_no);
    let n = chars.len();
    let hidden = if n > 4 {
        n - 4
    } else {
        n
    };
    let mut out: Vec<char> = Vec::new();
    let mut i: usize = 0;
    while i < n
        invariant
            n == chars.len(),
            chars@ == account_no@,
            hidden <= n,
            i <= n,
            out@ == masked_account_no(account_no@).subrange(0, i as int),
            hidden == if n > 4 { n - 4 } else { n as int },
        decreases n - i,
    {
        if i < hidden {
            out.push('*');
        } else {
            out.push(chars[i]);
        }
        proof {
            assert(out@ =~= masked_account_no(account_no@).subrange(0, i as int + 1));
        }
        i = i + 1;
    }
    assert(masked_account_no(account_no@).subrange(0, n as int) =~= masked_account_no(account_no@));
    crate::text::string_from_chars(&out)
}

// ---------------------------------------------------------------- prices in minor units

pub open spec fn is_digit(c: char) -> bool {
    '0' <= c <= '9'
}

pub open spec fn all_digit_chars(s: Seq<char>) -> bool {
    forall|i: int| 0 <= i < s.len() ==> is_digit(#[trigger] s[i])
}

/// The number a run of decimal digits writes.
pub open spec fn decimal_value(s: Seq<char>) -> int
    decreases s.len(),
{
    if s.len() == 0 {
        0
    } else {
        decimal_value(s.drop_last()) * 10 + (s.last() as int - 48)
    }
}

/// The value of a digit run, or `None` when it does not fit a `u64`
/// (`str::parse::<u64>` of digits only).
pub fn parse_digits_u64(s: &Vec<char>, lo: usize, hi: usize) -> (r: Option<u64>)
    requires
        lo <= hi <= s.len(),
        all_digit_chars(s@.subrange(lo as int, hi as int)),
    ensures
        match r {
            Some(v) => v == decimal_value(s@.subrange(lo as int, hi as int)),
            None => decimal_value(s@.subrange(lo as int, hi as int)) > u64::MAX,
        },
{
    let mut value: u64 = 0;
    let mut k = lo;
    while k < hi
        invariant
            lo <= k <= hi <= s.len(),
            all_digit_chars(s@.subrange(lo as int, hi as int)),
            value == decimal_value(s@.subrange(lo as int, k as int)),
        decreases hi - k,
    {
        let ghost next = s@.subrange(lo as int, k as int + 1);
        assert(next.drop_last() =~= s@.subrange(lo as int, k as int));
        assert(s@.subrange(lo as int, hi as int)[k - lo] == s@[k as int]);
        let d = (s[k] as u32 - 48) as u64;
        if value > (u64::MAX - d) / 10 {
            proof {
                lemma_decimal_prefix_bound(s@.subrange(lo as int, hi as int), (k - lo + 1) as int);
                assert(s@.subrange(lo as int, hi as int).subrange(0, k - lo + 1) =~= next);
            }
            return None;
        }
        value = value * 10 + d;
        k = k + 1;
    }
    Some(value)
}

pub proof fn lemma_decimal_nonneg(s: Seq<char>)
    requires
        all_digit_chars(s),
    ensures
        decimal_value(s) >= 0,
    decreases s.len(),
{
    if s.len() > 0 {
        let p = s.drop_last();
        assert(all_digit_chars(p)) by {
            assert forall|i: int| 0 <= i < p.len() implies is_digit(#[trigger] p[i]) by {
                assert(p[i] == s[i]);
            }
        }
        lemma_decimal_nonneg(p);
        assert(is_digit(s[s.len() - 1]));
    }
}

/// Digit runs only grow as digits are appended.
pub proof fn lemma_decimal_prefix_bound(s: Seq<char>, k: int)
    requires
        all_digit_chars(s),
        0 <= k <= s.len(),
    ensures
        decimal_value(s.subrange(0, k)) <= decimal_value(s),
    decreases s.len() - k,
{
    if k < s.len() {
        lemma_decimal_prefix_bound(s, k + 1);
        let p = s.subrange(0, k + 1);
        assert(p.drop_last() =~= s.subrange(0, k));
        assert(is_digit(s[k]));
        assert(all_digit_chars(s.subrange(0, k))) by {
            assert forall|i: int| 0 <= i < k implies is_digit(#[trigger] s.subrange(0, k)[i]) by {
                assert(s.subrange(0, k)[i] == s[i]);
            }
        }
        lemma_decimal_nonneg(s.subrange(0, k));
    } else {
        assert(s.subrange(0, k) =~= s);
    }
}

/// A positive whole number of won: digits only.
pub open spec fn krw_price(s: Seq<char>) -> Option<int> {
    if s.len() == 0 || !all_digit_chars(s) || decimal_value(s) > u64::MAX || decimal_value(s) == 0 {
        None
    } else {
        Some(decimal_value(s))
    }
}

pub fn parse_krw_price_minor(value: &str) -> (r: Result<u64, String>)
    ensures
        match krw_price(value@) {
            Some(v) => r == Ok::<u64, String>(v as u64),
            None => r matches Err(e) && e@ == if value@.len() == 0 || !all_digit_chars(value@) {
                "토스증권 원화 현재가가 정수 형식이 아닙니다."@
            } else {
                "토스증권 원화 현재가를 안전하게 계산할 수 없습니다."@
            },
        },
{
    let chars = crate::text::chars_of(value);
    if chars.len() == 0 || !crate::text::only_digits(value) {
        return Err("토스증권 원화 현재가가 정수 형식이 아닙니다.".to_owned());
    }
    assert(chars@.subrange(0, chars.len() as int) =~= chars@);
    match parse_digits_u64(&chars, 0, chars.len()) {
        Some(v) => {
            if v == 0 {
                return Err("토스증권 원화 현재가를 안전하게 계산할 수 없습니다.".to_owned());
            }
            Ok(v)
        },
        None => Err("토스증권 원화 현재가를 안전하게 계산할 수 없습니다.".to_owned()),
    }
}

/// The position of the first `.`, or the length when there is none.
pub open spec fn first_dot(s: Seq<char>, k: int) -> int
    decreases s.len() - k,
{
    if k < 0 || k >= s.len() {
        s.len() as int
    } else if s[k] == '.' {
        k
    } else {
        first_dot(s, k + 1)
    }
}

/// Decimal places kept in minor units: won are whole, dollars have cents.
pub open spec fn currency_decimals(currency: Seq<char>) -> Option<int> {
    if currency == "KRW"@ {
        Some(0)
    } else if currency == "USD"@ {
        Some(2)
    } else {
        None
    }
}

/// A decimal price in minor units, rounded half up at the first dropped digit:
/// an unsigned `whole[.fraction]` in digits, in KRW or USD.
pub open spec fn price_minor(s: Seq<char>, currency: Seq<char>) -> Option<int> {
    match currency_decimals(currency) {
        None => None,
        Some(dec) => {
            let dot = first_dot(s, 0);
            let whole = s.subrange(0, dot);
            let fraction = if dot < s.len() {
                s.subrange(dot + 1, s.len() as int)
            } else {
                Seq::empty()
            };
            let kept = fraction.subrange(0, if fraction.len() < dec { fraction.len() as int } else { dec });
            let kept_value = decimal_value(kept) * crate::dates::pow10((dec - kept.len()) as nat);
            let round_up: int = if fraction.len() > dec && fraction[dec] >= '5' { 1 } else { 0 };
            let total = decimal_value(whole) * crate::dates::pow10(dec as nat) + kept_value + round_up;
            if whole.len() == 0 || !all_digit_chars(whole) || !all_digit_chars(fraction)
                || decimal_value(whole) > u64::MAX || decimal_value(whole) * crate::dates::pow10(
                dec as nat,
            ) > u64::MAX || total > u64::MAX {
                None
            } else {
                Some(total)
            }
        },
    }
}

#[verifier::spinoff_prover]
pub fn parse_price_minor(value: &str, currency: &str) -> (r: Option<u64>)
    ensures
        match price_minor(value@, currency@) {
            Some(v) => r matches Some(x) && x == v,
            None => r is None,
        },
{
    let decimals: usize = if str_eq(currency, "KRW") {
        0
    } else if str_eq(currency, "USD") {
        2
    } else {
        return None;
    };
    let s = crate::text::chars_of(value);
    let n = s.len();
    let mut dot: usize = 0;
    while dot < n && s[dot] != '.'
        invariant
            dot <= n == s.len(),
            first_dot(s@, 0) == first_dot(s@, dot as int),
        decreases n - dot,
    {
        dot = dot + 1;
    }
    let frac_lo = if dot < n {
        dot + 1
    } else {
        n
    };
    let ghost whole = s@.subrange(0, dot as int);
    let ghost fraction = s@.subrange(frac_lo as int, n as int);
    assert(fraction =~= if dot < n {
        s@.subrange(dot + 1, n as int)
    } else {
        Seq::<char>::empty()
    });
    if dot == 0 || !digits_only(&s, 0, dot) || !digits_only(&s, frac_lo, n) {
        return None;
    }
    let whole_value = match parse_digits_u64(&s, 0, dot) {
        Some(v) => v,
        None => {
            return None;
        },
    };
    proof {
        reveal_with_fuel(crate::dates::pow10, 3);
    }
    let factor: u64 = if decimals == 0 {
        1
    } else {
        100
    };
    if whole_value > u64::MAX / factor {
        return None;
    }
    assert(whole_value * factor <= u64::MAX) by (nonlinear_arith)
        requires
            whole_value <= u64::MAX / factor,
            factor == 1 || factor == 100,
    ;
    let whole_minor = whole_value * factor;
    let frac_len = n - frac_lo;
    let kept_len = if frac_len < decimals {
        frac_len
    } else {
        decimals
    };
    assert(fraction.subrange(0, kept_len as int) =~= s@.subrange(frac_lo as int, (frac_lo + kept_len) as int));
    let ghost kept_seq = s@.subrange(frac_lo as int, (frac_lo + kept_len) as int);
    assert(all_digit_chars(kept_seq)) by {
        assert forall|m: int| 0 <= m < kept_len implies is_digit(#[trigger] kept_seq[m]) by {
            assert(kept_seq[m] == fraction[m]);
        }
    }
    let kept_value: u64 = if kept_len == 2 {
        proof {
            lemma_two_digits(kept_seq);
        }
        ((s[frac_lo] as u32 - 48) * 10 + (s[frac_lo + 1] as u32 - 48)) as u64
    } else if kept_len == 1 {
        let c0 = s[frac_lo];
        proof {
            lemma_one_digit(kept_seq);
            assert(is_digit(kept_seq[0]));
            assert(kept_seq[0] == s@[frac_lo as int]);
            assert('0' <= c0 <= '9');
            assert(48 <= c0 as u32 <= 57);
        }
        ((c0 as u32 - 48) * 10) as u64
    } else {
        0
    };
    assert(kept_value == decimal_value(kept_seq) * crate::dates::pow10((decimals - kept_len) as nat)) by {
        reveal_with_fuel(crate::dates::pow10, 3);
        if kept_len == 0 {
            assert(kept_seq.len() == 0);
            assert(decimal_value(kept_seq) == 0);
        } else if kept_len == 1 {
            lemma_one_digit(kept_seq);
            assert(decimals == 2);
            assert(crate::dates::pow10(1) == 10);
        } else {
            lemma_two_digits(kept_seq);
            assert(decimals == 2);
            assert(crate::dates::pow10(0) == 1);
        }
    }
    let round_up: u64 = if frac_len > decimals && s[frac_lo + decimals] >= '5' {
        1
    } else {
        0
    };
    assert(frac_len > decimals ==> fraction[decimals as int] == s@[frac_lo + decimals]);
    if whole_minor > u64::MAX - kept_value || whole_minor + kept_value > u64::MAX - round_up {
        return None;
    }
    Some(whole_minor + kept_value + round_up)
}

proof fn lemma_one_digit(s: Seq<char>)
    requires
        s.len() == 1,
    ensures
        decimal_value(s) == s[0] as int - 48,
{
    assert(decimal_value(s.drop_last()) == 0);
    assert(s.last() == s[0]);
}

proof fn lemma_two_digits(s: Seq<char>)
    requires
        s.len() == 2,
        all_digit_chars(s),
    ensures
        decimal_value(s) == (s[0] as int - 48) * 10 + (s[1] as int - 48),
        decimal_value(s) < 100,
{
    let p = s.drop_last();
    assert(p.len() == 1);
    assert(decimal_value(p.drop_last()) == 0);
    assert(p.last() == s[0]);
    assert(decimal_value(p) == s[0] as int - 48);
    assert(s.last() == s[1]);
    assert(decimal_value(s) == decimal_value(p) * 10 + (s[1] as int - 48));
    assert(is_digit(s[0]) && is_digit(s[1]));
}

pub fn digits_only(s: &Vec<char>, lo: usize, hi: usize) -> (r: bool)
    requires
        lo <= hi <= s.len(),
    ensures
        r == all_digit_chars(s@.subrange(lo as int, hi as int)),
{
    let mut k = lo;
    while k < hi
        invariant
            lo <= k <= hi <= s.len(),
            forall|m: int| lo <= m < k ==> is_digit(#[trigger] s@[m]),
        decreases hi - k,
    {
        if s[k] < '0' || s[k] > '9' {
            assert(!is_digit(s@.subrange(lo as int, hi as int)[k - lo]));
            return false;
        }
        k = k + 1;
    }
    assert forall|m: int| 0 <= m < hi - lo implies is_digit(#[trigger] s@.subrange(lo as int, hi as int)[m]) by {
        assert(s@.subrange(lo as int, hi as int)[m] == s@[lo + m]);
    }
    true
}

// ---------------------------------------------------------------- candle intervals

#[derive(Debug, Clone, Copy, PartialEq, Eq, Structural)]
pub enum CandleInterval {
    OneMinute,
    OneDay,
}

pub open spec fn interval_ms(i: CandleInterval) -> u64 {
    match i {
        CandleInterval::OneMinute => 60_000,
        CandleInterval::OneDay => 86_400_000,
    }
}

impl CandleInterval {
    pub fn as_str(self) -> (r: &'static str)
        ensures
            r@ == match self {
                CandleInterval::OneMinute => "1m"@,
                CandleInterval::OneDay => "1d"@,
            },
    {
        match self {
            CandleInterval::OneMinute => "1m",
            CandleInterval::OneDay => "1d",
        }
    }

    pub fn duration_ms(self) -> (r: u64)
        ensures
            r == interval_ms(self),
    {
        match self {
            CandleInterval::OneMinute => 60_000,
            CandleInterval::OneDay => 86_400_000,
        }
    }
}

/// Bars requested for an analysis when the request names no count.
pub fn default_analysis_bar_count() -> (r: u16)
    ensures
        r == 200,
{
    200
}


// ---------------------------------------------------------------- official market calendar

#[derive(Debug, Clone)]
pub struct MarketSessionTime {
    pub start_time: String,
    pub end_time: String,
}

#[derive(Debug, Clone)]
pub struct KrMarketSessions {
    pub pre_market: Option<MarketSessionTime>,
    pub regular_market: Option<MarketSessionTime>,
    pub after_market: Option<MarketSessionTime>,
}

#[derive(Debug, Clone)]
pub struct KrMarketDay {
    pub date: String,
    pub integrated: Option<KrMarketSessions>,
}

#[derive(Debug, Clone)]
pub struct KrMarketCalendarResponse {
    pub today: KrMarketDay,
    pub previous_business_day: KrMarketDay,
    pub next_business_day: KrMarketDay,
}

#[derive(Debug, Clone)]
pub struct UsMarketDay {
    pub date: String,
    pub day_market: Option<MarketSessionTime>,
    pub pre_market: Option<MarketSessionTime>,
    pub regular_market: Option<MarketSessionTime>,
    pub after_market: Option<MarketSessionTime>,
}

#[derive(Debug, Clone)]
pub struct UsMarketCalendarResponse {
    pub today: UsMarketDay,
    pub previous_business_day: UsMarketDay,
    pub next_business_day: UsMarketDay,
}

#[derive(Debug, Clone, PartialEq, Eq)]
pub struct NormalizedMarketSession {
    pub name: String,
    pub start_time: String,
    pub end_time: String,
}

#[derive(Debug, Clone, PartialEq, Eq)]
pub struct NormalizedMarketCalendar {
    pub market: String,
    pub provider: String,
    pub fetched_at_ms: u64,
    pub date: String,
    pub holiday: bool,
    pub previous_business_day: String,
    pub next_business_day: String,
    pub sessions: Vec<NormalizedMarketSession>,
}

#[derive(Debug, Clone, PartialEq, Eq)]
pub struct TossMarketCalendars {
    pub fetched_at_ms: u64,
    pub calendars: Vec<NormalizedMarketCalendar>,
}

pub fn copy_session_time(o: &Option<MarketSessionTime>) -> (r: Option<MarketSessionTime>)
    ensures
        r == *o,
{
    match o {
        Some(t) => Some(MarketSessionTime { start_time: t.start_time.clone(), end_time: t.end_time.clone() }),
        None => None,
    }
}

pub open spec fn utf8(s: Seq<char>) -> Seq<u8> {
    vstd::utf8::encode_utf8(s)
}

/// The instant of an official session time: RFC 3339 in KST (`+09:00`) or UTC.
pub open spec fn session_time_ms(s: Seq<char>) -> Option<int> {
    if official_zone(utf8(s)) {
        rfc3339_ms(utf8(s))
    } else {
        None
    }
}

/// A session starts and ends at official times, start before end.
pub open spec fn session_ok(t: MarketSessionTime) -> bool {
    &&& session_time_ms(t.start_time@) is Some
    &&& session_time_ms(t.end_time@) is Some
    &&& session_time_ms(t.start_time@)->0 < session_time_ms(t.end_time@)->0
}

pub fn validate_calendar_date(value: &str) -> (r: Result<(), ApiError>)
    ensures
        r is Ok <==> calendar_date_ok(utf8(value@)),
        r matches Err(e) ==> e.kind == ApiErrorKind::InvalidResponse && e.message@
            == "토스증권 장 캘린더 날짜 형식이 올바르지 않습니다."@,
{
    if !calendar_date_shape(value) {
        return Err(ApiError::new(ApiErrorKind::InvalidResponse, "토스증권 장 캘린더 날짜 형식이 올바르지 않습니다."));
    }
    Ok(())
}

/// Why an official session time is refused: not in the official zone, or
/// not an RFC 3339 time.
pub open spec fn session_time_refusal(s: Seq<char>) -> Seq<char> {
    if !official_zone(utf8(s)) {
        "토스증권 장 세션 시간대가 올바르지 않습니다."@
    } else {
        "토스증권 장 세션 시각 형식이 올바르지 않습니다."@
    }
}

pub fn parse_official_session_timestamp_ms(value: &str) -> (r: Result<u64, ApiError>)
    ensures
        match session_time_ms(value@) {
            Some(v) => r matches Ok(x) && x == v,
            None => r matches Err(e) && e.kind == ApiErrorKind::InvalidResponse && e.message@
                == session_time_refusal(value@),
        },
{
    if !official_zone_exec(value) {
        return Err(ApiError::new(ApiErrorKind::InvalidResponse, "토스증권 장 세션 시간대가 올바르지 않습니다."));
    }
    match parse_rfc3339_ms(value) {
        Some(v) => Ok(v),
        None => Err(ApiError::new(ApiErrorKind::InvalidResponse, "토스증권 장 세션 시각 형식이 올바르지 않습니다.")),
    }
}

pub type SessionModel = (Seq<char>, Seq<char>, Seq<char>);

pub open spec fn session_model(s: NormalizedMarketSession) -> SessionModel {
    (s.name@, s.start_time@, s.end_time@)
}

/// Normalises one session of the official calendar; an absent session stays
/// absent.
pub fn normalize_calendar_session(name: &str, value: Option<MarketSessionTime>) -> (r: Result<
    Option<NormalizedMarketSession>,
    ApiError,
>)
    ensures
        match value {
            None => r matches Ok(None),
            Some(t) => if session_ok(t) {
                r matches Ok(Some(s)) && session_model(s) == (name@, t.start_time@, t.end_time@)
            } else {
                r matches Err(e) && e.kind == ApiErrorKind::InvalidResponse && e.message@ == if session_time_ms(
                    t.start_time@,
                ) is None {
                    session_time_refusal(t.start_time@)
                } else if session_time_ms(t.end_time@) is None {
                    session_time_refusal(t.end_time@)
                } else {
                    "토스증권 장 세션 시간이 올바르지 않습니다."@
                }
            },
        },
{
    let value = match value {
        None => {
            return Ok(None);
        },
        Some(v) => v,
    };
    let start = parse_official_session_timestamp_ms(value.start_time.as_str())?;
    let end = parse_official_session_timestamp_ms(value.end_time.as_str())?;
    if start >= end {
        return Err(ApiError::new(ApiErrorKind::InvalidResponse, "토스증권 장 세션 시간이 올바르지 않습니다."));
    }
    Ok(Some(NormalizedMarketSession { name: name.to_owned(), start_time: value.start_time, end_time: value.end_time }))
}

/// The sessions present among `slots`, in order.
pub open spec fn present_sessions(slots: Seq<(Seq<char>, Option<MarketSessionTime>)>) -> Seq<SessionModel>
    decreases slots.len(),
{
    if slots.len() == 0 {
        Seq::empty()
    } else {
        let prev = present_sessions(slots.drop_last());
        match slots.last().1 {
            Some(t) => prev.push((slots.last().0, t.start_time@, t.end_time@)),
            None => prev,
        }
    }
}

pub open spec fn slots_ok(slots: Seq<(Seq<char>, Option<MarketSessionTime>)>) -> bool {
    forall|i: int| 0 <= i < slots.len() ==> ((#[trigger] slots[i]).1 matches Some(t) ==> session_ok(t))
}

/// The refusal of a session that is not [`session_ok`].
pub open spec fn session_message(t: MarketSessionTime) -> Seq<char> {
    if session_time_ms(t.start_time@) is None {
        session_time_refusal(t.start_time@)
    } else if session_time_ms(t.end_time@) is None {
        session_time_refusal(t.end_time@)
    } else {
        "토스증권 장 세션 시간이 올바르지 않습니다."@
    }
}

/// `e` is the refusal of the first present session that is not sound.
pub open spec fn slots_refused_with(slots: Seq<(Seq<char>, Option<MarketSessionTime>)>, e: Seq<char>) -> bool {
    exists|i: int|
        0 <= i < slots.len() && slots_ok(slots.subrange(0, i)) && ((#[trigger] slots[i]).1 matches Some(t)
            && !session_ok(t) && e == session_message(t))
}

pub open spec fn slot_view(slots: Seq<(&str, Option<MarketSessionTime>)>) -> Seq<(Seq<char>, Option<MarketSessionTime>)> {
    slots.map_values(|x: (&str, Option<MarketSessionTime>)| (x.0@, x.1))
}

fn collect_sessions(slots: Vec<(&str, Option<MarketSessionTime>)>) -> (r: Result<Vec<NormalizedMarketSession>, ApiError>)
    ensures
        r is Ok <==> slots_ok(slot_view(slots@)),
        r matches Err(e) ==> e.kind == ApiErrorKind::InvalidResponse && slots_refused_with(slot_view(slots@), e.message@),
        r matches Ok(v) ==> v@.map_values(|x: NormalizedMarketSession| session_model(x)) == present_sessions(slot_view(slots@)),
{
    let ghost sv = slot_view(slots@);
    let mut out: Vec<NormalizedMarketSession> = Vec::new();
    let mut i: usize = 0;
    while i < slots.len()
        invariant
            i <= slots.len(),
            sv == slot_view(slots@),
            slots_ok(sv.subrange(0, i as int)),
            out@.map_values(|x: NormalizedMarketSession| session_model(x)) == present_sessions(sv.subrange(0, i as int)),
        decreases slots.len() - i,
    {
        let ghost prefix = sv.subrange(0, i as int + 1);
        assert(prefix.drop_last() =~= sv.subrange(0, i as int));
        assert(prefix.last() == sv[i as int]);
        let (name, value) = (slots[i].0, copy_session_time(&slots[i].1));
        assert(value == slots@[i as int].1);
        match normalize_calendar_session(name, value) {
            Err(e) => {
                proof {
                    assert(!slots_ok(sv)) by {
                        assert(sv[i as int].1 == value);
                    }
                    assert(sv[i as int].1 == value);
                }
                return Err(e);
            },
            Ok(Some(session)) => {
                let ghost before = out@;
                out.push(session);
                assert(out@.map_values(|x: NormalizedMarketSession| session_model(x)) =~= before.map_values(
                    |x: NormalizedMarketSession| session_model(x),
                ).push(session_model(session)));
            },
            Ok(None) => {},
        }
        assert(slots_ok(prefix)) by {
            assert forall|k: int| 0 <= k < prefix.len() implies ((#[trigger] prefix[k]).1 matches Some(t) ==> session_ok(t)) by {
                if k < i {
                    assert(prefix[k] == sv.subrange(0, i as int)[k]);
                }
            }
        }
        i = i + 1;
    }
    assert(sv.subrange(0, slots.len() as int) =~= sv);
    Ok(out)
}

pub open spec fn kr_slots(kr: KrMarketCalendarResponse) -> Seq<(Seq<char>, Option<MarketSessionTime>)> {
    match kr.today.integrated {
        None => Seq::empty(),
        Some(i) => seq![("preMarket"@, i.pre_market), ("regularMarket"@, i.regular_market), ("afterMarket"@, i.after_market)],
    }
}

pub open spec fn us_slots(us: UsMarketCalendarResponse) -> Seq<(Seq<char>, Option<MarketSessionTime>)> {
    seq![
        ("dayMarket"@, us.today.day_market),
        ("preMarket"@, us.today.pre_market),
        ("regularMarket"@, us.today.regular_market),
        ("afterMarket"@, us.today.after_market),
    ]
}

pub open spec fn calendar_dates_ok(kr: KrMarketCalendarResponse, us: UsMarketCalendarResponse) -> bool {
    &&& calendar_date_ok(utf8(kr.today.date@))
    &&& calendar_date_ok(utf8(kr.previous_business_day.date@))
    &&& calendar_date_ok(utf8(kr.next_business_day.date@))
    &&& calendar_date_ok(utf8(us.today.date@))
    &&& calendar_date_ok(utf8(us.previous_business_day.date@))
    &&& calendar_date_ok(utf8(us.next_business_day.date@))
}

/// A normalised calendar as shown: market, provider, time, dates, holiday flag
/// and session models.
pub open spec fn calendar_is(
    c: NormalizedMarketCalendar,
    market: Seq<char>,
    fetched_at_ms: u64,
    date: Seq<char>,
    previous: Seq<char>,
    next: Seq<char>,
    sessions: Seq<SessionModel>,
) -> bool {
    &&& c.market@ == market
    &&& c.provider@ == "TOSS"@
    &&& c.fetched_at_ms == fetched_at_ms
    &&& c.date@ == date
    &&& c.previous_business_day@ == previous
    &&& c.next_business_day@ == next
    &&& c.sessions@.map_values(|x: NormalizedMarketSession| session_model(x)) == sessions
    &&& c.holiday == (sessions.len() == 0)
}

/// Normalises the official Korean and US calendars: dates must be `YYYY-MM-DD`,
/// sessions official and ordered; a day without sessions is a holiday.
pub fn normalize_market_calendars(
    kr: KrMarketCalendarResponse,
    us: UsMarketCalendarResponse,
    fetched_at_ms: u64,
) -> (r: Result<TossMarketCalendars, ApiError>)
    ensures
        r is Ok <==> calendar_dates_ok(kr, us) && slots_ok(kr_slots(kr)) && slots_ok(us_slots(us)),
        r matches Err(e) ==> e.kind == ApiErrorKind::InvalidResponse && if !calendar_dates_ok(kr, us) {
            e.message@ == "토스증권 장 캘린더 날짜 형식이 올바르지 않습니다."@
        } else if !slots_ok(kr_slots(kr)) {
            slots_refused_with(kr_slots(kr), e.message@)
        } else {
            slots_refused_with(us_slots(us), e.message@)
        },
        r matches Ok(t) ==> {
            &&& t.fetched_at_ms == fetched_at_ms
            &&& t.calendars.len() == 2
            &&& calendar_is(
                t.calendars@[0],
                "KR"@,
                fetched_at_ms,
                kr.today.date@,
                kr.previous_business_day.date@,
                kr.next_business_day.date@,
                present_sessions(kr_slots(kr)),
            )
            &&& calendar_is(
                t.calendars@[1],
                "US"@,
                fetched_at_ms,
                us.today.date@,
                us.previous_business_day.date@,
                us.next_business_day.date@,
                present_sessions(us_slots(us)),
            )
        },
{
    validate_calendar_date(kr.today.date.as_str())?;
    validate_calendar_date(kr.previous_business_day.date.as_str())?;
    validate_calendar_date(kr.next_business_day.date.as_str())?;
    validate_calendar_date(us.today.date.as_str())?;
    validate_calendar_date(us.previous_business_day.date.as_str())?;
    validate_calendar_date(us.next_business_day.date.as_str())?;
    let mut kr_list: Vec<(&str, Option<MarketSessionTime>)> = Vec::new();
    match &kr.today.integrated {
        Some(i) => {
            kr_list.push(("preMarket", copy_session_time(&i.pre_market)));
            kr_list.push(("regularMarket", copy_session_time(&i.regular_market)));
            kr_list.push(("afterMarket", copy_session_time(&i.after_market)));
        },
        None => {},
    }
    assert(slot_view(kr_list@) =~= kr_slots(kr));
    let kr_sessions = collect_sessions(kr_list)?;
    let mut us_list: Vec<(&str, Option<MarketSessionTime>)> = Vec::new();
    us_list.push(("dayMarket", copy_session_time(&us.today.day_market)));
    us_list.push(("preMarket", copy_session_time(&us.today.pre_market)));
    us_list.push(("regularMarket", copy_session_time(&us.today.regular_market)));
    us_list.push(("afterMarket", copy_session_time(&us.today.after_market)));
    assert(slot_view(us_list@) =~= us_slots(us));
    let us_sessions = collect_sessions(us_list)?;
    let kr_holiday = kr_sessions.len() == 0;
    let us_holiday = us_sessions.len() == 0;
    let kr_calendar = NormalizedMarketCalendar {
        market: "KR".to_owned(),
        provider: "TOSS".to_owned(),
        fetched_at_ms,
        date: kr.today.date,
        holiday: kr_holiday,
        previous_business_day: kr.previous_business_day.date,
        next_business_day: kr.next_business_day.date,
        sessions: kr_sessions,
    };
    let us_calendar = NormalizedMarketCalendar {
        market: "US".to_owned(),
        provider: "TOSS".to_owned(),
        fetched_at_ms,
        date: us.today.date,
        holiday: us_holiday,
        previous_business_day: us.previous_business_day.date,
        next_business_day: us.next_business_day.date,
        sessions: us_sessions,
    };
    let mut calendars: Vec<NormalizedMarketCalendar> = Vec::new();
    calendars.push(kr_calendar);
    calendars.push(us_calendar);
    Ok(TossMarketCalendars { fetched_at_ms, calendars })
}

// ---------------------------------------------------------------- regular-session gate

pub open spec fn market_of_currency(c: Seq<char>) -> Option<Seq<char>> {
    if c == "KRW"@ {
        Some("KR"@)
    } else if c == "USD"@ {
        Some("US"@)
    } else {
        None
    }
}

/// The calendar was fetched at most five minutes ago and at most a minute ahead.
pub open spec fn calendar_fresh(fetched_at_ms: u64, now_ms: u64) -> bool {
    let ahead_limit = if now_ms + 60_000 > u64::MAX { u64::MAX as int } else { now_ms + 60_000 };
    let age = if now_ms > fetched_at_ms { now_ms - fetched_at_ms } else { 0 };
    fetched_at_ms <= ahead_limit && age <= 300_000
}

pub open spec fn find_calendar(cals: Seq<NormalizedMarketCalendar>, market: Seq<char>, k: int) -> int
    decreases cals.len() - k,
{
    if k < 0 || k >= cals.len() {
        -1
    } else if cals[k].market@ == market {
        k
    } else {
        find_calendar(cals, market, k + 1)
    }
}

pub open spec fn find_session(sessions: Seq<NormalizedMarketSession>, name: Seq<char>, k: int) -> int
    decreases sessions.len() - k,
{
    if k < 0 || k >= sessions.len() {
        -1
    } else if sessions[k].name@ == name {
        k
    } else {
        find_session(sessions, name, k + 1)
    }
}

/// A market order may fill now: the currency's market has a fresh calendar that
/// is not a holiday, and now falls within its official regular session.
pub open spec fn regular_session_open(cals: TossMarketCalendars, currency: Seq<char>, now_ms: u64) -> bool {
    match market_of_currency(currency) {
        None => false,
        Some(m) => {
            let i = find_calendar(cals.calendars@, m, 0);
            &&& calendar_fresh(cals.fetched_at_ms, now_ms)
            &&& i >= 0
            &&& !cals.calendars@[i].holiday
            &&& {
                let ss = cals.calendars@[i].sessions@;
                let j = find_session(ss, "regularMarket"@, 0);
                &&& j >= 0
                &&& session_time_ms(ss[j].start_time@) matches Some(start)
                &&& session_time_ms(ss[j].end_time@) matches Some(end)
                &&& start <= now_ms < end
            }
        },
    }
}

/// Why an immediate market order is refused now, checked in this order.
pub open spec fn session_refusal(cals: TossMarketCalendars, currency: Seq<char>, now_ms: u64) -> Option<Seq<char>> {
    match market_of_currency(currency) {
        None => Some("국장·미장 시장가 주문 통화를 확인해 주세요."@),
        Some(m) => {
            let i = find_calendar(cals.calendars@, m, 0);
            if !calendar_fresh(cals.fetched_at_ms, now_ms) {
                Some("공식 장 캘린더 관측이 오래됐거나 미래 시각입니다. 다시 조회해 주세요."@)
            } else if i < 0 {
                Some("공식 장 캘린더에서 선택 시장을 찾지 못했습니다."@)
            } else if cals.calendars@[i].holiday {
                Some(m + " 시장은 공식 장 캘린더상 휴장입니다."@)
            } else {
                let ss = cals.calendars@[i].sessions@;
                let j = find_session(ss, "regularMarket"@, 0);
                if j < 0 {
                    Some("정규장 세션이 확인되지 않아 시장가 모의체결을 차단했습니다."@)
                } else if session_time_ms(ss[j].start_time@) is None {
                    Some(session_time_refusal(ss[j].start_time@))
                } else if session_time_ms(ss[j].end_time@) is None {
                    Some(session_time_refusal(ss[j].end_time@))
                } else if !(session_time_ms(ss[j].start_time@)->0 <= now_ms < session_time_ms(
                    ss[j].end_time@,
                )->0) {
                    Some(
                        "현재 정규장 시간이 아니므로 즉시 시장가 모의체결을 차단했습니다. 지정가 대기 주문은 사용할 수 있습니다."@,
                    )
                } else {
                    None
                }
            }
        },
    }
}

/// Allows an immediate paper market order only inside the official regular
/// session of its market; limit orders stay available outside it.
pub fn ensure_regular_market_session(calendars: &TossMarketCalendars, currency: &str, now_ms: u64) -> (r: Result<(), String>)
    ensures
        r is Ok <==> regular_session_open(*calendars, currency@, now_ms),
        r matches Err(e) ==> session_refusal(*calendars, currency@, now_ms) == Some(e@),
{
    let market = if str_eq(currency, "KRW") {
        "KR"
    } else if str_eq(currency, "USD") {
        "US"
    } else {
        return Err("국장·미장 시장가 주문 통화를 확인해 주세요.".to_owned());
    };
    let ahead_limit = if now_ms > u64::MAX - 60_000 {
        u64::MAX
    } else {
        now_ms + 60_000
    };
    let age = if now_ms > calendars.fetched_at_ms {
        now_ms - calendars.fetched_at_ms
    } else {
        0
    };
    if calendars.fetched_at_ms > ahead_limit || age > 300_000 {
        return Err("공식 장 캘린더 관측이 오래됐거나 미래 시각입니다. 다시 조회해 주세요.".to_owned());
    }
    let mut i: usize = 0;
    while i < calendars.calendars.len() && !str_eq(calendars.calendars[i].market.as_str(), market)
        invariant
            i <= calendars.calendars.len(),
            find_calendar(calendars.calendars@, market@, 0) == find_calendar(calendars.calendars@, market@, i as int),
        decreases calendars.calendars.len() - i,
    {
        i = i + 1;
    }
    if i == calendars.calendars.len() {
        return Err("공식 장 캘린더에서 선택 시장을 찾지 못했습니다.".to_owned());
    }
    let calendar = &calendars.calendars[i];
    if calendar.holiday {
        return Err(crate::text::concat_str(market, " 시장은 공식 장 캘린더상 휴장입니다."));
    }
    let mut j: usize = 0;
    while j < calendar.sessions.len() && !str_eq(calendar.sessions[j].name.as_str(), "regularMarket")
        invariant
            j <= calendar.sessions.len(),
            find_session(calendar.sessions@, "regularMarket"@, 0) == find_session(calendar.sessions@, "regularMarket"@, j as int),
        decreases calendar.sessions.len() - j,
    {
        j = j + 1;
    }
    if j == calendar.sessions.len() {
        return Err("정규장 세션이 확인되지 않아 시장가 모의체결을 차단했습니다.".to_owned());
    }
    let regular = &calendar.sessions[j];
    let start_ms = match parse_official_session_timestamp_ms(regular.start_time.as_str()) {
        Ok(v) => v,
        Err(e) => {
            return Err(e.message);
        },
    };
    let end_ms = match parse_official_session_timestamp_ms(regular.end_time.as_str()) {
        Ok(v) => v,
        Err(e) => {
            return Err(e.message);
        },
    };
    if now_ms < start_ms || now_ms >= end_ms {
        return Err("현재 정규장 시간이 아니므로 즉시 시장가 모의체결을 차단했습니다. 지정가 대기 주문은 사용할 수 있습니다.".to_owned());
    }
    Ok(())
}

// ---------------------------------------------------------------- chart, quote and search requests

#[derive(Debug, Clone)]
pub struct TossChartRequest {
    pub symbol: String,
    pub interval: CandleInterval,
    pub count: u16,
    pub adjusted: bool,
}

/// A chart request names a valid symbol and between 20 and 500 candles; the
/// symbol comes back normalised.
pub fn validate_chart_request(request: &TossChartRequest) -> (r: Result<String, String>)
    ensures
        !market_symbol_ok(ascii_upper(trim(request.symbol@))) ==> (r matches Err(e) && e@
            == "영문·숫자·점·하이픈으로 된 유효한 종목 코드가 필요합니다."@),
        market_symbol_ok(ascii_upper(trim(request.symbol@))) && !(20 <= request.count <= 500) ==> (r matches Err(e)
            && e@ == "차트 캔들 개수는 20개에서 500개 사이여야 합니다."@),
        market_symbol_ok(ascii_upper(trim(request.symbol@))) && 20 <= request.count <= 500 ==> (r matches Ok(s)
            && s@ == ascii_upper(trim(request.symbol@))),
{
    let symbol = validate_market_symbol(request.symbol.as_str())?;
    if request.count < 20 || request.count > 500 {
        return Err("차트 캔들 개수는 20개에서 500개 사이여야 합니다.".to_owned());
    }
    Ok(symbol)
}

/// A current price as the broker lists it.
#[derive(Debug, Clone)]
pub struct TossPrice {
    pub symbol: String,
    pub last_price: String,
    pub currency: String,
}

#[derive(Debug, Clone)]
pub struct TossMarketQuote {
    pub provider: String,
    pub symbol: String,
    pub currency: String,
    pub last_price_minor: u64,
    pub observed_at_ms: u64,
}

/// The first of the first `n` prices listed for `symbol`, letter case aside.
pub open spec fn first_price_for(prices: Seq<TossPrice>, symbol: Seq<char>, n: int) -> Option<int>
    decreases n,
{
    if n <= 0 {
        None
    } else {
        match first_price_for(prices, symbol, n - 1) {
            Some(k) => Some(k),
            None => if ascii_upper(prices[n - 1].symbol@) == ascii_upper(symbol) {
                Some(n - 1)
            } else {
                None
            },
        }
    }
}

proof fn lemma_first_price_for(prices: Seq<TossPrice>, symbol: Seq<char>, n: int)
    requires
        0 <= n,
    ensures
        first_price_for(prices, symbol, n) matches Some(k) ==> 0 <= k < n && ascii_upper(prices[k].symbol@)
            == ascii_upper(symbol),
    decreases n,
{
    if n > 0 {
        lemma_first_price_for(prices, symbol, n - 1);
    }
}

/// The quote of a validated symbol from the broker's price list: the first
/// listing of that symbol, its price read in the listing's currency.
pub fn quote_from_prices(symbol: String, prices: &Vec<TossPrice>, observed_at_ms: u64) -> (r: Result<
    TossMarketQuote,
    String,
>)
    ensures
        match first_price_for(prices@, symbol@, prices@.len() as int) {
            None => r matches Err(e) && e@ == "토스증권 현재가 응답에서 요청 종목을 찾지 못했습니다."@,
            Some(k) => match price_minor(prices@[k].last_price@, prices@[k].currency@) {
                None => r matches Err(e) && e@ == "토스증권 현재가를 해석하지 못했습니다."@,
                Some(v) => r matches Ok(q) && {
                    &&& q.provider@ == "TOSS_OPEN_API"@
                    &&& q.symbol == symbol
                    &&& q.currency == prices@[k].currency
                    &&& q.last_price_minor == v
                    &&& q.observed_at_ms == observed_at_ms
                },
            },
        },
{
    let wanted = to_ascii_upper(symbol.as_str());
    let mut k: usize = 0;
    while k < prices.len()
        invariant
            k <= prices@.len(),
            wanted@ == ascii_upper(symbol@),
            first_price_for(prices@, symbol@, k as int) is None,
        decreases prices.len() - k,
    {
        let listed = to_ascii_upper(prices[k].symbol.as_str());
        if str_eq(listed.as_str(), wanted.as_str()) {
            proof {
                lemma_first_price_for(prices@, symbol@, prices@.len() as int);
                lemma_first_price_after(prices@, symbol@, k as int + 1, prices@.len() as int);
            }
            let price = &prices[k];
            let last_price_minor = match parse_price_minor(price.last_price.as_str(), price.currency.as_str()) {
                Some(v) => v,
                None => return Err("토스증권 현재가를 해석하지 못했습니다.".to_owned()),
            };
            return Ok(
                TossMarketQuote {
                    provider: "TOSS_OPEN_API".to_owned(),
                    symbol,
                    currency: price.currency.clone(),
                    last_price_minor,
                    observed_at_ms,
                },
            );
        }
        k = k + 1;
    }
    Err("토스증권 현재가 응답에서 요청 종목을 찾지 못했습니다.".to_owned())
}

proof fn lemma_first_price_after(prices: Seq<TossPrice>, symbol: Seq<char>, k: int, n: int)
    requires
        0 <= k <= n,
        first_price_for(prices, symbol, k) is Some,
    ensures
        first_price_for(prices, symbol, n) == first_price_for(prices, symbol, k),
    decreases n - k,
{
    if n > k {
        lemma_first_price_after(prices, symbol, k, n - 1);
    }
}

#[derive(Debug, Clone)]
pub struct StockSearchRequest {
    pub market: String,
    pub query: String,
}

/// Why a stock search is refused before the catalog is read: only the KR and
/// US markets, a query of 1 to 60 characters once trimmed, no control
/// characters.
pub open spec fn stock_search_refusal(market: Seq<char>, query: Seq<char>) -> Option<Seq<char>> {
    let m = ascii_lower(trim(market));
    let q = trim(query);
    if m != "kr"@ && m != "us"@ {
        Some("국장 또는 미장 검색만 지원합니다."@)
    } else if q.len() < 1 || q.len() > 60 {
        Some("검색어는 1자에서 60자 사이로 입력해 주세요."@)
    } else if !no_control(q) {
        Some("검색어에 줄바꿈이나 제어 문자를 사용할 수 없습니다."@)
    } else {
        None
    }
}

/// The market and query a search runs with: the market trimmed and lower-cased,
/// the query trimmed.
pub fn validate_stock_search(request: &StockSearchRequest) -> (r: Result<(String, String), String>)
    ensures
        match stock_search_refusal(request.market@, request.query@) {
            Some(e) => r matches Err(m) && m@ == e,
            None => r matches Ok(p) && p.0@ == ascii_lower(trim(request.market@)) && p.1@ == trim(request.query@),
        },
{
    let market_trimmed = trimmed(request.market.as_str());
    let lower = crate::text::to_ascii_lower_chars(market_trimmed.as_str());
    let market = string_from_chars(&lower);
    let is_kr = str_eq(market.as_str(), "kr");
    let is_us = str_eq(market.as_str(), "us");
    proof {
        reveal_strlit("kr");
        reveal_strlit("us");
    }
    if !is_kr && !is_us {
        return Err("국장 또는 미장 검색만 지원합니다.".to_owned());
    }
    let query = trimmed(request.query.as_str());
    let count = query.unicode_len();
    if count < 1 || count > 60 {
        return Err("검색어는 1자에서 60자 사이로 입력해 주세요.".to_owned());
    }
    if !has_no_control(query.as_str()) {
        return Err("검색어에 줄바꿈이나 제어 문자를 사용할 수 없습니다.".to_owned());
    }
    Ok((market, query))
}

} // verus!
