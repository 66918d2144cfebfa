//! Korea Investment & Securities paper-trading configuration: credential and
//! account-part checks, the masked status shown to the user, request ids, and
//! the explicit futures contract code an analysis request must name.
use vstd::prelude::*;
use crate::text::{
    all_digits, byte_len, byte_len_spec, chars_of, has_no_control, is_alnum_char, is_ascii_alnum,
    is_ascii_alpha, is_ascii_digit, is_control, no_control, only_digits, string_from_chars, to_ascii_upper,
    trim, trimmed, ascii_upper, str_eq, valid_ident, valid_identifier,
};

use crate::dates::{
    civil_days, civil_of_days, days_from_civil, lemma_civil_of_days, padded_int, pow10, valid_civil_date, yyyymmdd,
    zero_pad,
};
use crate::text::{decimal, digit_char};
use crate::market::{all_digit_chars, decimal_value, digits_only, is_digit, parse_digits_u64};
use crate::aggregation::copy_string;
use crate::candles::{by_start, insert_after_start, insert_chart_bar, TossChartBar};

verus! {

#[derive(Debug, Clone)]
pub struct KisPaperConfigRequest {
    pub app_key: String,
    pub app_secret: String,
    pub hts_id: String,
    pub account_number: String,
    pub product_code: String,
}

#[derive(Debug, Clone)]
pub struct KisPaperConfigStatus {
    pub configured: bool,
    pub connected: bool,
    pub masked_account_number: Option<String>,
    pub product_code: Option<String>,
    pub live_order_enabled: bool,
    pub paper_order_enabled: bool,
    pub message: String,
}

#[derive(Debug, Clone)]
pub struct KisFuturesConnectionStatus {
    pub configured: bool,
    pub connected: bool,
    pub provider: String,
    pub market_data_ready: bool,
    pub message: String,
}

#[derive(Debug, Clone)]
pub struct KisPaperOrderRequest {
    pub request_id: String,
    pub symbol: String,
    pub side: String,
    pub quantity: u64,
    pub order_type: String,
    pub price: u64,
    pub confirmation: String,
}

#[derive(Debug, Clone)]
pub struct KisPaperCancelRequest {
    pub request_id: String,
    pub remote_order_id: String,
    pub order_branch: String,
    pub quantity: u64,
    pub confirmation: String,
}

#[derive(Debug, Clone)]
pub struct KisPaperOrdersRequest {
    pub trade_date: String,
}

#[derive(Debug, Clone)]
pub struct KisPaperRemoteResult {
    pub request_id: String,
    pub status: String,
    pub remote_order_id: Option<String>,
    pub order_branch: Option<String>,
    pub order_time: Option<String>,
    pub message: String,
}

#[derive(Debug, Clone)]
pub struct KisPaperReconciliation {
    pub observed_at_ms: u64,
    pub matched: bool,
    pub discrepancies: Vec<String>,
    pub remote_position_count: usize,
    pub internal_position_count: usize,
}

#[derive(Debug, Clone)]
pub struct KisPaperPosition {
    pub symbol: String,
    pub name: String,
    pub quantity: String,
    pub average_price: String,
    pub current_price: String,
    pub evaluation_amount: String,
    pub unrealized_pnl: String,
}

#[derive(Debug, Clone)]
pub struct KisPaperAccountSnapshot {
    pub provider: String,
    pub masked_account_number: String,
    pub product_code: String,
    pub deposit: Option<String>,
    pub total_evaluation_amount: Option<String>,
    pub positions: Vec<KisPaperPosition>,
    pub observed_at_ms: u64,
    pub live_order_enabled: bool,
}

/// A credential as typed: `min..=max` bytes, no surrounding whitespace and no
/// control character.
pub open spec fn plain_secret_ok(s: Seq<char>, min: usize, max: usize) -> bool {
    &&& min <= byte_len_spec(s) <= max
    &&& trim(s) == s
    &&& no_control(s)
}

pub fn valid_plain_secret(value: &str, min: usize, max: usize) -> (r: bool)
    ensures
        r == plain_secret_ok(value@, min, max),
{
    let len = byte_len(value);
    if len < min || len > max {
        return false;
    }
    let t = trimmed(value);
    if !str_eq(t.as_str(), value) {
        return false;
    }
    has_no_control(value)
}

/// Eight account digits and a two-digit product code.
pub open spec fn account_parts_ok(r: KisPaperConfigRequest) -> bool {
    &&& byte_len_spec(r.account_number@) == 8
    &&& all_digits(r.account_number@)
    &&& byte_len_spec(r.product_code@) == 2
    &&& all_digits(r.product_code@)
}

pub open spec fn kis_config_ok(r: KisPaperConfigRequest) -> bool {
    &&& plain_secret_ok(r.app_key@, 8, 256)
    &&& plain_secret_ok(r.app_secret@, 8, 512)
    &&& plain_secret_ok(r.hts_id@, 2, 64)
    &&& account_parts_ok(r)
}

pub fn validate(request: &KisPaperConfigRequest) -> (r: Result<(), String>)
    ensures
        r is Ok <==> kis_config_ok(*request),
        r matches Err(e) ==> e@ == if !(plain_secret_ok(request.app_key@, 8, 256) && plain_secret_ok(
            request.app_secret@,
            8,
            512,
        ) && plain_secret_ok(request.hts_id@, 2, 64)) {
            "KIS 모의 App Key·Secret과 HTS ID 형식을 확인해 주세요."@
        } else {
            "KIS 모의계좌 앞 8자리와 상품코드 2자리를 숫자로 입력해 주세요."@
        },
{
    if !valid_plain_secret(request.app_key.as_str(), 8, 256) || !valid_plain_secret(
        request.app_secret.as_str(),
        8,
        512,
    ) || !valid_plain_secret(request.hts_id.as_str(), 2, 64) {
        return Err("KIS 모의 App Key·Secret과 HTS ID 형식을 확인해 주세요.".to_owned());
    }
    if byte_len(request.account_number.as_str()) != 8 || !only_digits(request.account_number.as_str())
        || byte_len(request.product_code.as_str()) != 2 || !only_digits(
        request.product_code.as_str(),
    ) {
        return Err("KIS 모의계좌 앞 8자리와 상품코드 2자리를 숫자로 입력해 주세요.".to_owned());
    }
    Ok(())
}

/// The account number as shown: its first four characters, then `****`.
pub open spec fn masked_account(account: Seq<char>) -> Seq<char> {
    account.subrange(0, 4) + "****"@
}

/// What the configuration screen shows; the account number is masked and live
/// orders are never enabled.
pub fn status(config: Option<&KisPaperConfigRequest>) -> (r: KisPaperConfigStatus)
    requires
        config matches Some(c) ==> account_parts_ok(*c) && c.account_number@.len() >= 4,
    ensures
        r.configured == config is Some,
        !r.connected,
        !r.live_order_enabled,
        r.paper_order_enabled == config is Some,
        match config {
            Some(c) => (r.masked_account_number matches Some(m) && m@ == masked_account(c.account_number@))
                && (r.product_code matches Some(p) && p@ == c.product_code@),
            None => r.masked_account_number is None && r.product_code is None,
        },
{
    match config {
        Some(config) => {
            let chars = chars_of(config.account_number.as_str());
            let mut head: Vec<char> = Vec::new();
            let mut i: usize = 0;
            while i < 4
                invariant
                    i <= 4 <= chars.len(),
                    head@ == chars@.subrange(0, i as int),
                decreases 4 - i,
            {
                head.push(chars[i]);
                i = i + 1;
            }
            let prefix = string_from_chars(&head);
            KisPaperConfigStatus {
                configured: true,
                connected: false,
                masked_account_number: Some(crate::text::concat_str(prefix.as_str(), "****")),
                product_code: Some(config.product_code.clone()),
                live_order_enabled: false,
                paper_order_enabled: true,
                message: "KIS 모의 자격정보를 이 PC에 저장했습니다. 잔고 조회와 사용자 확인형 국내 모의주문을 사용할 수 있습니다.".to_owned(),
            }
        },
        None => KisPaperConfigStatus {
            configured: false,
            connected: false,
            masked_account_number: None,
            product_code: None,
            live_order_enabled: false,
            paper_order_enabled: false,
            message: "KIS Developers의 모의 App Key·Secret, HTS ID와 모의계좌가 필요합니다.".to_owned(),
        },
    }
}

/// A paper order request id: 1 to 120 characters of `[A-Za-z0-9._-]`.
pub open spec fn request_id_ok(s: Seq<char>) -> bool {
    valid_ident(s, 120, false)
}

pub fn valid_request_id(value: &str) -> (r: bool)
    ensures
        r == request_id_ok(value@),
{
    valid_identifier(value, 120, false)
}

// ---------------------------------------------------------------- futures contract codes

/// A contract code: 6 to 12 letters and digits with at least one of each, and not
/// a coin pair ending in `USDT`.
pub open spec fn contract_like(tok: Seq<char>) -> bool {
    &&& 6 <= tok.len() <= 12
    &&& exists|i: int| 0 <= i < tok.len() && is_ascii_alpha(#[trigger] tok[i])
    &&& exists|i: int| 0 <= i < tok.len() && is_ascii_digit(#[trigger] tok[i])
    &&& !(tok.len() >= 4 && tok.subrange(tok.len() - 4, tok.len() as int) == "USDT"@)
}

/// The first token of `s` (split at every character that is not an ASCII letter or
/// digit) that looks like a contract code; `start` is where the current token
/// began and `k` the character being read.
pub open spec fn contract_scan(s: Seq<char>, start: int, k: int) -> Option<Seq<char>>
    decreases s.len() - k,
{
    if k >= s.len() {
        let tok = s.subrange(start, s.len() as int);
        if contract_like(tok) {
            Some(tok)
        } else {
            None
        }
    } else if is_ascii_alnum(s[k]) {
        contract_scan(s, start, k + 1)
    } else {
        let tok = s.subrange(start, k);
        if contract_like(tok) {
            Some(tok)
        } else {
            contract_scan(s, k + 1, k + 1)
        }
    }
}

pub open spec fn normalized_query(q: Seq<char>) -> Seq<char> {
    ascii_upper(trim(q))
}

fn contract_like_exec(tok: &Vec<char>) -> (r: bool)
    ensures
        r == contract_like(tok@),
{
    let n = tok.len();
    if n < 6 || n > 12 {
        return false;
    }
    let mut alpha = false;
    let mut digit = false;
    let mut i: usize = 0;
    while i < n
        invariant
            n == tok.len(),
            i <= n,
            alpha == exists|k: int| 0 <= k < i && is_ascii_alpha(#[trigger] tok@[k]),
            digit == exists|k: int| 0 <= k < i && is_ascii_digit(#[trigger] tok@[k]),
        decreases n - i,
    {
        let c = tok[i];
        if ('a' <= c && c <= 'z') || ('A' <= c && c <= 'Z') {
            alpha = true;
        }
        if '0' <= c && c <= '9' {
            digit = true;
        }
        i = i + 1;
    }
    let usdt = tok[n - 4] == 'U' && tok[n - 3] == 'S' && tok[n - 2] == 'D' && tok[n - 1] == 'T';
    proof {
        reveal_strlit("USDT");
        let tail = tok@.subrange(n - 4, n as int);
        if usdt {
            assert(tail =~= "USDT"@);
        } else {
            if tail == "USDT"@ {
                assert(tail[0] == 'U' && tail[1] == 'S' && tail[2] == 'D' && tail[3] == 'T');
            }
        }
    }
    alpha && digit && !usdt
}

/// Finds the explicit futures contract code in an analysis request (such as
/// `101W09`); a request naming only an index is refused rather than guessing the
/// nearest month.
pub fn resolve_kis_futures_contract(query: &str) -> (r: Result<String, String>)
    ensures
        ({
            let q = normalized_query(query@);
            &&& (q.len() == 0 || q.len() > 500 || !no_control(q)) ==> (r matches Err(e) && e@
                == "KIS 증권선물 분석 요청은 한 줄 1자 이상 500자 이하여야 합니다."@)
            &&& !(q.len() == 0 || q.len() > 500 || !no_control(q)) ==> match contract_scan(q, 0, 0) {
                Some(tok) => r matches Ok(s) && s@ == tok,
                None => r matches Err(e) && e@
                    == "현재 만기의 KIS 선물 계약코드가 필요합니다. 예: 101W09. 지수명만으로 근월물을 추정하지 않습니다."@,
            }
        }),
{
    let t = trimmed(query);
    let normalized = to_ascii_upper(t.as_str());
    let n = normalized.unicode_len();
    if n == 0 || n > 500 || !has_no_control(normalized.as_str()) {
        return Err("KIS 증권선물 분석 요청은 한 줄 1자 이상 500자 이하여야 합니다.".to_owned());
    }
    let chars = chars_of(normalized.as_str());
    let ghost q = normalized_query(query@);
    let mut start: usize = 0;
    let mut k: usize = 0;
    while k <= chars.len()
        invariant
            chars@ == q,
            q == normalized_query(query@),
            0 < q.len() <= 500,
            no_control(q),
            start <= k <= chars.len(),
            contract_scan(q, 0, 0) == contract_scan(q, start as int, k as int),
        decreases chars.len() + 1 - k,
    {
        if k == chars.len() || !is_alnum_char(chars[k]) {
            let mut tok: Vec<char> = Vec::new();
            let mut m = start;
            while m < k
                invariant
                    start <= m <= k <= chars.len(),
                    tok@ == chars@.subrange(start as int, m as int),
                decreases k - m,
            {
                tok.push(chars[m]);
                m = m + 1;
            }
            if contract_like_exec(&tok) {
                return Ok(string_from_chars(&tok));
            }
            if k == chars.len() {
                return Err("현재 만기의 KIS 선물 계약코드가 필요합니다. 예: 101W09. 지수명만으로 근월물을 추정하지 않습니다.".to_owned());
            }
            start = k + 1;
        }
        k = k + 1;
    }
    Err("현재 만기의 KIS 선물 계약코드가 필요합니다. 예: 101W09. 지수명만으로 근월물을 추정하지 않습니다.".to_owned())
}


// ---------------------------------------------------------------- business dates

/// The start of a KRX business day given as `YYYYMMDD`, in milliseconds since
/// the epoch: midnight in Korea (UTC+9). `None` for a text that is not eight
/// digits, an impossible date, or a day before the epoch.
pub open spec fn kis_date_ms(s: Seq<char>) -> Option<int> {
    if s.len() == 8 && all_digit_chars(s) {
        let y = decimal_value(s.subrange(0, 4));
        let m = decimal_value(s.subrange(4, 6));
        let d = decimal_value(s.subrange(6, 8));
        let ms = civil_days(y, m, d) * 86_400_000 - 32_400_000;
        if valid_civil_date(y, m, d) && 0 <= ms <= u64::MAX {
            Some(ms)
        } else {
            None
        }
    } else {
        None
    }
}

/// A run of `n` digits writes a number below `10^n`.
proof fn lemma_decimal_below(s: Seq<char>)
    requires
        all_digit_chars(s),
    ensures
        0 <= decimal_value(s) < pow10(s.len()),
    decreases s.len(),
{
    if s.len() > 0 {
        let p = s.drop_last();
        assert(all_digit_chars(p)) by {
            assert forall|i: int| 0 <= i < p.len() implies is_digit(#[trigger] p[i]) by {
                assert(p[i] == s[i]);
            }
        }
        lemma_decimal_below(p);
        assert(is_digit(s[s.len() - 1]));
    }
}

fn small_field(chars: &Vec<char>, lo: usize, hi: usize) -> (r: u64)
    requires
        lo <= hi <= chars.len(),
        hi - lo <= 4,
        all_digit_chars(chars@.subrange(lo as int, hi as int)),
    ensures
        r == decimal_value(chars@.subrange(lo as int, hi as int)),
        r < 10_000,
{
    proof {
        lemma_decimal_below(chars@.subrange(lo as int, hi as int));
        assert(pow10(0) == 1 && pow10(1) == 10 && pow10(2) == 100 && pow10(3) == 1_000 && pow10(4) == 10_000) by {
            reveal_with_fuel(pow10, 5);
        }
    }
    match parse_digits_u64(chars, lo, hi) {
        Some(v) => v,
        None => 0,
    }
}

/// The start of a KRX business day (see [`kis_date_ms`]).
pub fn parse_kis_business_date(value: &str) -> (r: Option<u64>)
    ensures
        match r {
            Some(ms) => kis_date_ms(value@) == Some(ms as int),
            None => kis_date_ms(value@) is None,
        },
{
    let chars = chars_of(value);
    if chars.len() != 8 || !digits_only(&chars, 0, 8) {
        proof {
            if chars@.len() == 8 {
                assert(chars@.subrange(0, 8) =~= chars@);
            }
        }
        return None;
    }
    assert(chars@.subrange(0, 8) =~= chars@);
    proof {
        assert forall|lo: int, hi: int| 0 <= lo <= hi <= 8 implies all_digit_chars(#[trigger] chars@.subrange(lo, hi)) by {
            assert forall|i: int| 0 <= i < hi - lo implies is_digit(#[trigger] chars@.subrange(lo, hi)[i]) by {
                assert(chars@.subrange(lo, hi)[i] == chars@[lo + i]);
            }
        }
    }
    let year = small_field(&chars, 0, 4);
    let month = small_field(&chars, 4, 6);
    let day = small_field(&chars, 6, 8);
    match days_from_civil(year as i64, month as u32, day as u32) {
        None => None,
        Some(days) => {
            let ms: i128 = days as i128 * 86_400_000 - 32_400_000;
            if ms < 0 || ms > 18_446_744_073_709_551_615 {
                None
            } else {
                Some(ms as u64)
            }
        },
    }
}


// ---------------------------------------------------------------- the date text round trip

/// The decimal spelling of a number is digits that read back as the number,
/// and no longer than `k` characters below `10^k`.
proof fn lemma_decimal_reads_back(n: nat, k: nat)
    requires
        1 <= k,
        n < pow10(k),
    ensures
        all_digit_chars(decimal(n)),
        decimal_value(decimal(n)) == n,
        1 <= decimal(n).len() <= k,
    decreases n,
{
    let c = digit_char(n % 10);
    assert(c as int == n % 10 + 48);
    if n >= 10 {
        assert(k >= 2) by {
            if k == 1 {
                reveal_with_fuel(pow10, 2);
            }
        }
        assert(pow10(k) == 10 * pow10((k - 1) as nat));
        lemma_decimal_reads_back(n / 10, (k - 1) as nat);
        let p = decimal(n / 10);
        assert(decimal(n) == p.push(c));
        assert(decimal(n).drop_last() =~= p);
        assert(decimal(n).last() == c);
        assert(decimal_value(decimal(n)) == decimal_value(p) * 10 + (c as int - 48));
        assert(n == (n / 10) * 10 + n % 10);
        assert(all_digit_chars(decimal(n))) by {
            assert forall|i: int| 0 <= i < decimal(n).len() implies is_digit(#[trigger] decimal(n)[i]) by {
                if i < p.len() {
                    assert(decimal(n)[i] == p[i]);
                }
            }
        }
    } else {
        assert(decimal(n) =~= seq![c]);
        assert(decimal(n).drop_last() =~= Seq::<char>::empty());
        assert(decimal(n).last() == c);
        assert(decimal_value(decimal(n)) == decimal_value(Seq::<char>::empty()) * 10 + (c as int - 48));
    }
}

/// Leading zeros do not change the number a digit run writes.
proof fn lemma_leading_zeros(z: Seq<char>, t: Seq<char>)
    requires
        forall|i: int| 0 <= i < z.len() ==> #[trigger] z[i] == '0',
        all_digit_chars(t),
    ensures
        all_digit_chars(z + t),
        decimal_value(z + t) == decimal_value(t),
    decreases z.len() + t.len(),
{
    if t.len() == 0 {
        assert(z + t =~= z);
        if z.len() > 0 {
            lemma_leading_zeros(z.drop_last(), t);
            assert(z.drop_last() + t =~= z.drop_last());
        }
    } else {
        let t0 = t.drop_last();
        assert(all_digit_chars(t0)) by {
            assert forall|i: int| 0 <= i < t0.len() implies is_digit(#[trigger] t0[i]) by {
                assert(t0[i] == t[i]);
            }
        }
        lemma_leading_zeros(z, t0);
        assert((z + t).drop_last() =~= z + t0);
        assert((z + t).last() == t.last());
    }
    assert(all_digit_chars(z + t)) by {
        assert forall|i: int| 0 <= i < (z + t).len() implies is_digit(#[trigger] (z + t)[i]) by {
            if i < z.len() {
                assert((z + t)[i] == z[i]);
            } else {
                assert((z + t)[i] == t[i - z.len()]);
            }
        }
    }
}

/// A number below `10^w` padded with zeros to `w` digits is `w` digits that
/// read back as the number.
proof fn lemma_padded_reads_back(n: nat, w: nat)
    requires
        1 <= w,
        n < pow10(w),
    ensures
        padded_int(n as int, w).len() == w,
        all_digit_chars(padded_int(n as int, w)),
        decimal_value(padded_int(n as int, w)) == n,
{
    lemma_decimal_reads_back(n, w);
    let d = decimal(n);
    if d.len() < w {
        let z = Seq::new((w - d.len()) as nat, |i: int| '0');
        lemma_leading_zeros(z, d);
        assert(zero_pad(d, w) == z + d);
    }
}

/// The text of a business date reads back as the same day: formatting a day
/// as `YYYYMMDD` and parsing it gives that day's Korean midnight, for every
/// day from the epoch to the end of year 9999.
pub proof fn lemma_business_date_round_trip(days: int)
    requires
        0 <= civil_of_days(days).0 <= 9999,
        days * 86_400_000 >= 32_400_000,
    ensures
        kis_date_ms(yyyymmdd(days)) == Some(days * 86_400_000 - 32_400_000),
{
    lemma_civil_of_days(days);
    let (y, m, d) = civil_of_days(days);
    assert(pow10(2) == 100 && pow10(4) == 10_000) by {
        reveal_with_fuel(pow10, 5);
    }
    lemma_padded_reads_back(y as nat, 4);
    lemma_padded_reads_back(m as nat, 2);
    lemma_padded_reads_back(d as nat, 2);
    let a = padded_int(y, 4);
    let b = padded_int(m, 2);
    let c = padded_int(d, 2);
    let text = yyyymmdd(days);
    assert(text == a + b + c);
    assert(text.subrange(0, 4) =~= a);
    assert(text.subrange(4, 6) =~= b);
    assert(text.subrange(6, 8) =~= c);
    assert(all_digit_chars(text)) by {
        assert forall|i: int| 0 <= i < text.len() implies is_digit(#[trigger] text[i]) by {
            if i < 4 {
                assert(text[i] == a[i]);
            } else if i < 6 {
                assert(text[i] == b[i - 4]);
            } else {
                assert(text[i] == c[i - 6]);
            }
        }
    }
    assert(civil_days(y, m, d) == days);
    assert(days <= 3_000_000);
}

/// The read-only futures data status: ready once the paper credentials are
/// stored; never connected for orders.
pub fn kis_futures_connection_status_of(configured: bool) -> (r: KisFuturesConnectionStatus)
    ensures
        r.configured == configured,
        !r.connected,
        r.provider@ == "KIS_VIRTUAL_MARKET_DATA"@,
        r.market_data_ready == configured,
        configured ==> r.message@
            == "KIS 모의 App Key·Secret이 저장되어 있습니다. 현재 만기 계약코드로 읽기 전용 일봉을 조회할 수 있습니다."@,
        !configured ==> r.message@
            == "KIS 모의 App Key·Secret을 연결하면 국내 지수선물 일봉을 읽기 전용으로 조회합니다."@,
{
    if configured {
        KisFuturesConnectionStatus {
            configured: true,
            connected: false,
            provider: "KIS_VIRTUAL_MARKET_DATA".to_owned(),
            market_data_ready: true,
            message: "KIS 모의 App Key·Secret이 저장되어 있습니다. 현재 만기 계약코드로 읽기 전용 일봉을 조회할 수 있습니다."
                .to_owned(),
        }
    } else {
        KisFuturesConnectionStatus {
            configured: false,
            connected: false,
            provider: "KIS_VIRTUAL_MARKET_DATA".to_owned(),
            market_data_ready: false,
            message: "KIS 모의 App Key·Secret을 연결하면 국내 지수선물 일봉을 읽기 전용으로 조회합니다.".to_owned(),
        }
    }
}

// ---------------------------------------------------------------- futures daily bars

/// One row of a KIS futures daily-price response, its prices already read as
/// hundredths of a point and its volume as a count (`None` where unreadable).
#[derive(Debug, Clone)]
pub struct KisFuturesDailyRow {
    pub session_id: String,
    pub open_minor: Option<u64>,
    pub high_minor: Option<u64>,
    pub low_minor: Option<u64>,
    pub close_minor: Option<u64>,
    pub volume: Option<u64>,
}

pub const KRX_DAY_MS: u64 = 86_400_000;

/// The daily bar of one row: it opens at the KRX business day's start, closes a
/// day later and is complete once that has passed when fetched; or the first
/// refusal.
pub open spec fn kis_futures_bar(row: KisFuturesDailyRow, code: String, fetched: u64) -> Result<TossChartBar, Seq<char>> {
    let start = kis_date_ms(row.session_id@);
    if start is None {
        Err("KIS 선물 일봉의 영업일자를 해석하지 못했습니다."@)
    } else if start->0 + KRX_DAY_MS > u64::MAX {
        Err("KIS 선물 일봉 종료 시각이 지원 범위를 초과했습니다."@)
    } else if row.open_minor is None {
        Err("KIS 선물 일봉 시가를 해석하지 못했습니다."@)
    } else if row.high_minor is None {
        Err("KIS 선물 일봉 고가를 해석하지 못했습니다."@)
    } else if row.low_minor is None {
        Err("KIS 선물 일봉 저가를 해석하지 못했습니다."@)
    } else if row.close_minor is None {
        Err("KIS 선물 일봉 종가를 해석하지 못했습니다."@)
    } else if row.low_minor->0 > row.open_minor->0 || row.low_minor->0 > row.close_minor->0
        || row.high_minor->0 < row.open_minor->0 || row.high_minor->0 < row.close_minor->0 {
        Err("KIS 선물 일봉 OHLC 관계가 올바르지 않습니다."@)
    } else if row.volume is None {
        Err("KIS 선물 일봉 거래량을 해석하지 못했습니다."@)
    } else {
        let end = (start->0 + KRX_DAY_MS) as u64;
        Ok(
            TossChartBar {
                period_start_ms: start->0 as u64,
                period_end_ms: end,
                open_minor: row.open_minor->0,
                high_minor: row.high_minor->0,
                low_minor: row.low_minor->0,
                close_minor: row.close_minor->0,
                volume: row.volume->0,
                completed: end <= fetched,
                available_at_ms: Some(end),
                ingested_at_ms: Some(fetched),
                session_id: Some(row.session_id),
                contract_code: Some(code),
                settlement_price_minor: None,
                mark_price_minor: None,
                index_price_minor: None,
                funding_rate_bps: None,
                funding_time_ms: None,
            },
        )
    }
}

/// The bars of the first `n` rows in response order, or the first refusal.
pub open spec fn kis_futures_rows(rows: Seq<KisFuturesDailyRow>, code: String, fetched: u64, n: int) -> Result<
    Seq<TossChartBar>,
    Seq<char>,
>
    decreases n,
{
    if n <= 0 {
        Ok(Seq::empty())
    } else {
        match kis_futures_rows(rows, code, fetched, n - 1) {
            Err(e) => Err(e),
            Ok(prev) => match kis_futures_bar(rows[n - 1], code, fetched) {
                Err(e) => Err(e),
                Ok(bar) => Ok(prev.push(bar)),
            },
        }
    }
}

/// Every bar starts strictly after the one before it.
pub open spec fn starts_strictly_increase(bars: Seq<TossChartBar>) -> bool {
    forall|a: int, b: int| 0 <= a < b < bars.len() ==> (#[trigger] bars[a]).period_start_ms < (
    #[trigger] bars[b]).period_start_ms
}

proof fn lemma_kis_rows_err(rows: Seq<KisFuturesDailyRow>, code: String, fetched: u64, k: int, n: int)
    requires
        0 <= k <= n,
        kis_futures_rows(rows, code, fetched, k) is Err,
    ensures
        kis_futures_rows(rows, code, fetched, n) == kis_futures_rows(rows, code, fetched, k),
    decreases n - k,
{
    if n > k {
        lemma_kis_rows_err(rows, code, fetched, k, n - 1);
    }
}

fn kis_futures_bar_of(row: &KisFuturesDailyRow, contract_code: &String, fetched_at_ms: u64) -> (r: Result<
    TossChartBar,
    String,
>)
    ensures
        match kis_futures_bar(*row, *contract_code, fetched_at_ms) {
            Ok(b) => r == Ok::<TossChartBar, String>(b),
            Err(e) => r matches Err(m) && m@ == e,
        },
{
    let start = match parse_kis_business_date(row.session_id.as_str()) {
        Some(s) => s,
        None => return Err("KIS 선물 일봉의 영업일자를 해석하지 못했습니다.".to_owned()),
    };
    if start > u64::MAX - KRX_DAY_MS {
        return Err("KIS 선물 일봉 종료 시각이 지원 범위를 초과했습니다.".to_owned());
    }
    let end = start + KRX_DAY_MS;
    let open = match row.open_minor {
        Some(v) => v,
        None => return Err("KIS 선물 일봉 시가를 해석하지 못했습니다.".to_owned()),
    };
    let high = match row.high_minor {
        Some(v) => v,
        None => return Err("KIS 선물 일봉 고가를 해석하지 못했습니다.".to_owned()),
    };
    let low = match row.low_minor {
        Some(v) => v,
        None => return Err("KIS 선물 일봉 저가를 해석하지 못했습니다.".to_owned()),
    };
    let close = match row.close_minor {
        Some(v) => v,
        None => return Err("KIS 선물 일봉 종가를 해석하지 못했습니다.".to_owned()),
    };
    if low > open || low > close || high < open || high < close {
        return Err("KIS 선물 일봉 OHLC 관계가 올바르지 않습니다.".to_owned());
    }
    let volume = match row.volume {
        Some(v) => v,
        None => return Err("KIS 선물 일봉 거래량을 해석하지 못했습니다.".to_owned()),
    };
    Ok(
        TossChartBar {
            period_start_ms: start,
            period_end_ms: end,
            open_minor: open,
            high_minor: high,
            low_minor: low,
            close_minor: close,
            volume,
            completed: end <= fetched_at_ms,
            available_at_ms: Some(end),
            ingested_at_ms: Some(fetched_at_ms),
            session_id: Some(copy_string(&row.session_id)),
            contract_code: Some(copy_string(contract_code)),
            settlement_price_minor: None,
            mark_price_minor: None,
            index_price_minor: None,
            funding_rate_bps: None,
            funding_time_ms: None,
        },
    )
}

/// The daily bars of a KIS futures contract: each row read (see
/// [`kis_futures_bar`]), then put in start order, with no business day twice.
pub fn kis_futures_bars(rows: &Vec<KisFuturesDailyRow>, contract_code: &String, fetched_at_ms: u64) -> (r: Result<
    Vec<TossChartBar>,
    String,
>)
    ensures
        match kis_futures_rows(rows@, *contract_code, fetched_at_ms, rows@.len() as int) {
            Err(e) => r matches Err(m) && m@ == e,
            Ok(bars) => if starts_strictly_increase(by_start(bars)) {
                r matches Ok(v) && v@ == by_start(bars)
            } else {
                r matches Err(m) && m@ == "KIS 선물 일봉에 중복 또는 역순 영업일자가 있습니다."@
            },
        },
{
    let ghost mut parsed: Seq<TossChartBar> = Seq::empty();
    let mut bars: Vec<TossChartBar> = Vec::new();
    let mut k: usize = 0;
    while k < rows.len()
        invariant
            k <= rows@.len(),
            kis_futures_rows(rows@, *contract_code, fetched_at_ms, k as int) == Ok::<Seq<TossChartBar>, Seq<char>>(
                parsed,
            ),
            bars@ == by_start(parsed),
            forall|a: int, b: int| 0 <= a < b < bars@.len() ==> (#[trigger] bars@[a]).period_start_ms <= (
            #[trigger] bars@[b]).period_start_ms,
        decreases rows.len() - k,
    {
        match kis_futures_bar_of(&rows[k], contract_code, fetched_at_ms) {
            Err(e) => {
                proof {
                    lemma_kis_rows_err(rows@, *contract_code, fetched_at_ms, k as int + 1, rows@.len() as int);
                }
                return Err(e);
            },
            Ok(bar) => {
                proof {
                    assert(parsed.push(bar).drop_last() =~= parsed);
                }
                insert_chart_bar(&mut bars, bar);
                proof {
                    parsed = parsed.push(bar);
                }
            },
        }
        k = k + 1;
    }
    let n = bars.len();
    let mut i: usize = 1;
    while i < n
        invariant
            n == bars@.len(),
            bars@ == by_start(parsed),
            kis_futures_rows(rows@, *contract_code, fetched_at_ms, rows@.len() as int) == Ok::<
                Seq<TossChartBar>,
                Seq<char>,
            >(parsed),
            1 <= i,
            forall|a: int, b: int| 0 <= a < b < i && b < n ==> (#[trigger] bars@[a]).period_start_ms < (
            #[trigger] bars@[b]).period_start_ms,
        decreases n - i,
    {
        if bars[i - 1].period_start_ms >= bars[i].period_start_ms {
            assert(!starts_strictly_increase(bars@)) by {
                assert(bars@[i - 1].period_start_ms >= bars@[i as int].period_start_ms);
            }
            return Err("KIS 선물 일봉에 중복 또는 역순 영업일자가 있습니다.".to_owned());
        }
        proof {
            assert forall|a: int, b: int| 0 <= a < b < i + 1 && b < n implies (#[trigger] bars@[a]).period_start_ms
                < (#[trigger] bars@[b]).period_start_ms by {
                if b == i && a < i - 1 {
                    assert(bars@[a].period_start_ms < bars@[i - 1].period_start_ms);
                }
            }
        }
        i = i + 1;
    }
    assert(starts_strictly_increase(bars@)) by {
        if n > 0 {
            assert(i >= n);
        }
    }
    Ok(bars)
}

} // verus!
