//! Korean public data (OpenDART disclosures and Naver news search): the
//! request limits, the credentials' shape, and how provider replies are cut
//! down to bounded display fields.
use vstd::prelude::*;
use crate::aggregation::copy_string;
use crate::text::{
    all_digits, byte_len, byte_len_spec, chars_of, concat_str, has_no_control, no_control, occurs_at,
    occurs_at_exec, only_digits, seq_lt, str_eq, str_lt, string_from_chars, trim, trimmed,
};

verus! {

#[derive(Debug, Clone)]
pub struct OpenDartDisclosureRequest {
    pub corp_code: String,
    pub begin_date: String,
    pub end_date: String,
    pub page_count: Option<u16>,
}

#[derive(Debug, Clone)]
pub struct NaverNewsRequest {
    pub query: String,
    pub display: Option<u16>,
    pub start: Option<u16>,
    pub sort: Option<String>,
}

#[derive(Debug, Clone, PartialEq, Eq)]
pub struct OpenDartDisclosure {
    pub receipt_number: String,
    pub corporation_name: String,
    pub report_name: String,
    pub filer_name: String,
    pub receipt_date: String,
    pub remark: String,
    pub source_url: String,
}

#[derive(Debug, Clone, PartialEq, Eq)]
pub struct OpenDartDisclosureSnapshot {
    pub provider: &'static str,
    pub corp_code: String,
    pub begin_date: String,
    pub end_date: String,
    pub fetched_at_ms: u64,
    pub items: Vec<OpenDartDisclosure>,
    pub read_only: bool,
}

#[derive(Debug, Clone, PartialEq, Eq)]
pub struct NaverNewsItem {
    pub title: String,
    pub original_link: String,
    pub link: String,
    pub description: String,
    pub published_at: String,
}

#[derive(Debug, Clone, PartialEq, Eq)]
pub struct NaverNewsSnapshot {
    pub provider: &'static str,
    pub query: String,
    pub fetched_at_ms: u64,
    pub total: u64,
    pub start: u64,
    pub display: u64,
    pub items: Vec<NaverNewsItem>,
    pub read_only: bool,
}

#[derive(Debug, Clone, PartialEq, Eq)]
pub struct OfficialKrDataStatus {
    pub opendart_configured: bool,
    pub naver_news_configured: bool,
    pub read_only: bool,
    pub message: String,
}

/// An OpenDART reply as it arrives.
#[derive(Debug, Clone)]
pub struct OpenDartEnvelope {
    pub status: String,
    pub message: String,
    pub list: Vec<OpenDartRawItem>,
}

#[derive(Debug, Clone)]
pub struct OpenDartRawItem {
    pub rcept_no: String,
    pub corp_name: String,
    pub report_nm: String,
    pub flr_nm: String,
    pub rcept_dt: String,
    pub rm: String,
}

/// A Naver news reply as it arrives.
#[derive(Debug, Clone)]
pub struct NaverNewsEnvelope {
    pub total: u64,
    pub start: u64,
    pub display: u64,
    pub items: Vec<NaverNewsRawItem>,
}

#[derive(Debug, Clone)]
pub struct NaverNewsRawItem {
    pub title: String,
    pub originallink: String,
    pub link: String,
    pub description: String,
    pub pub_date: String,
}

// ---------------------------------------------------------------- requests

/// A `YYYYMMDD` date: eight ASCII digits.
pub open spec fn date_ok(s: Seq<char>) -> bool {
    s.len() == 8 && all_digits(s)
}

pub fn valid_date(value: &str) -> (r: bool)
    ensures
        r == date_ok(value@),
{
    value.unicode_len() == 8 && only_digits(value)
}

pub open spec fn in_range(v: Option<u16>, default: u16, lo: u16, hi: u16) -> bool {
    let x = match v {
        Some(x) => x,
        None => default,
    };
    lo <= x <= hi
}

/// A disclosure request: an eight-digit company code, a period of two dates
/// in order, and 1 to 100 results (50 when unset).
pub open spec fn disclosure_request_ok(r: OpenDartDisclosureRequest) -> bool {
    &&& r.corp_code@.len() == 8
    &&& all_digits(r.corp_code@)
    &&& date_ok(r.begin_date@)
    &&& date_ok(r.end_date@)
    &&& !seq_lt(r.end_date@, r.begin_date@)
    &&& in_range(r.page_count, 50, 1, 100)
}

pub fn validate_disclosure_request(request: OpenDartDisclosureRequest) -> (r: Result<
    OpenDartDisclosureRequest,
    String,
>)
    ensures
        match r {
            Ok(v) => disclosure_request_ok(request) && v == request,
            Err(e) => !disclosure_request_ok(request) && e@
                == "OpenDART 회사 고유번호·조회 기간·건수를 확인해 주세요."@,
        },
{
    let count = match request.page_count {
        Some(x) => x,
        None => 50,
    };
    if !(request.corp_code.unicode_len() == 8 && only_digits(request.corp_code.as_str())) || !valid_date(
        request.begin_date.as_str(),
    ) || !valid_date(request.end_date.as_str()) || str_lt(request.end_date.as_str(), request.begin_date.as_str())
        || count < 1 || count > 100 {
        return Err("OpenDART 회사 고유번호·조회 기간·건수를 확인해 주세요.".to_owned());
    }
    Ok(request)
}

/// A news request: a one-line query of 1 to 100 characters once trimmed, 1 to
/// 100 results (20 when unset) from position 1 to 1,000 (1 when unset), sorted
/// by `date` (the default) or `sim`.
pub open spec fn news_request_ok(r: NaverNewsRequest) -> bool {
    let q = trim(r.query@);
    &&& 0 < q.len() <= 100
    &&& no_control(q)
    &&& in_range(r.display, 20, 1, 100)
    &&& in_range(r.start, 1, 1, 1_000)
    &&& match r.sort {
        Some(s) => s@ == "date"@ || s@ == "sim"@,
        None => true,
    }
}

pub fn validate_news_request(request: NaverNewsRequest) -> (r: Result<NaverNewsRequest, String>)
    ensures
        match r {
            Ok(v) => news_request_ok(request) && v.query@ == trim(request.query@) && v.display == request.display
                && v.start == request.start && v.sort == request.sort,
            Err(e) => !news_request_ok(request) && e@ == "네이버 뉴스 검색어·페이지·정렬 조건을 확인해 주세요."@,
        },
{
    let query = trimmed(request.query.as_str());
    let display = match request.display {
        Some(x) => x,
        None => 20,
    };
    let start = match request.start {
        Some(x) => x,
        None => 1,
    };
    let sort_ok = match &request.sort {
        Some(s) => str_eq(s.as_str(), "date") || str_eq(s.as_str(), "sim"),
        None => true,
    };
    let n = query.unicode_len();
    if n == 0 || n > 100 || !has_no_control(query.as_str()) || display < 1 || display > 100 || start < 1 || start
        > 1_000 || !sort_ok {
        return Err("네이버 뉴스 검색어·페이지·정렬 조건을 확인해 주세요.".to_owned());
    }
    Ok(NaverNewsRequest { query, display: request.display, start: request.start, sort: request.sort })
}

// ---------------------------------------------------------------- credentials

pub open spec fn is_ascii_graphic(c: char) -> bool {
    '!' <= c <= '~'
}

/// A credential once trimmed: 8 to 512 visible ASCII characters, none of them
/// a quote or a backtick.
pub open spec fn secret_ok(t: Seq<char>) -> bool {
    &&& 8 <= t.len() <= 512
    &&& forall|i: int| 0 <= i < t.len() ==> is_ascii_graphic(#[trigger] t[i])
    &&& forall|i: int| 0 <= i < t.len() ==> #[trigger] t[i] != '"' && t[i] != '\'' && t[i] != '`'
}

pub open spec fn secret_message(label: Seq<char>) -> Seq<char> {
    label + " 형식을 확인해 주세요."@
}

fn secret_chars_ok(t: &str) -> (r: bool)
    ensures
        r == secret_ok(t@),
{
    let n = t.unicode_len();
    if n < 8 || n > 512 {
        return false;
    }
    let mut i: usize = 0;
    while i < n
        invariant
            n == t@.len(),
            i <= n,
            forall|k: int| 0 <= k < i ==> is_ascii_graphic(#[trigger] t@[k]),
            forall|k: int| 0 <= k < i ==> #[trigger] t@[k] != '"' && t@[k] != '\'' && t@[k] != '`',
        decreases n - i,
    {
        let c = t.get_char(i);
        if c < '!' || c > '~' || c == '"' || c == '\'' || c == '`' {
            return false;
        }
        i = i + 1;
    }
    true
}

/// The trimmed credential, where it has the shape [`secret_ok`] asks for.
pub fn validate_secret(value: &str, label: &str) -> (r: Result<String, String>)
    ensures
        match r {
            Ok(t) => secret_ok(trim(value@)) && t@ == trim(value@),
            Err(e) => !secret_ok(trim(value@)) && e@ == secret_message(label@),
        },
{
    let t = trimmed(value);
    if !secret_chars_ok(t.as_str()) {
        return Err(concat_str(label, " 형식을 확인해 주세요."));
    }
    Ok(t)
}

/// A change of one stored credential: nothing to do where none is given, a
/// deletion for a blank one, else the checked new value.
pub fn normalize_secret_change(value: Option<String>, label: &str) -> (r: Result<Option<Option<String>>, String>)
    ensures
        match value {
            None => r == Ok::<Option<Option<String>>, String>(None),
            Some(v) => if trim(v@).len() == 0 {
                r == Ok::<Option<Option<String>>, String>(Some(None))
            } else if secret_ok(trim(v@)) {
                r matches Ok(Some(Some(t))) && t@ == trim(v@)
            } else {
                r matches Err(e) && e@ == secret_message(label@)
            },
        },
{
    match value {
        None => Ok(None),
        Some(v) => {
            let t = trimmed(v.as_str());
            if t.unicode_len() == 0 {
                Ok(Some(None))
            } else {
                match validate_secret(v.as_str(), label) {
                    Ok(s) => Ok(Some(Some(s))),
                    Err(e) => Err(e),
                }
            }
        },
    }
}

/// What a change of one stored credential comes to: nothing, a deletion, a
/// new value, or the refusal of [`validate_secret`].
pub open spec fn secret_change(value: Option<String>, label: Seq<char>) -> Result<Option<Option<Seq<char>>>, Seq<char>> {
    match value {
        None => Ok(None),
        Some(v) => if trim(v@).len() == 0 {
            Ok(Some(None))
        } else if secret_ok(trim(v@)) {
            Ok(Some(Some(trim(v@))))
        } else {
            Err(secret_message(label))
        },
    }
}

pub open spec fn change_view(c: Option<Option<String>>) -> Option<Option<Seq<char>>> {
    match c {
        None => None,
        Some(None) => Some(None),
        Some(Some(s)) => Some(Some(s@)),
    }
}

/// A change of the official KR data credentials; a field left out keeps its
/// stored value, a blank one deletes it.
#[derive(Debug, Clone)]
pub struct OfficialKrDataConfigRequest {
    pub opendart_api_key: Option<String>,
    pub naver_client_id: Option<String>,
    pub naver_client_secret: Option<String>,
}

/// The checked changes: the OpenDART key's, and the Naver id and secret's,
/// which change together.
#[derive(Debug, Clone)]
pub struct OfficialKrDataConfigChange {
    pub opendart_api_key: Option<Option<String>>,
    pub naver: Option<(Option<String>, Option<String>)>,
}

/// The first refusal of a credentials change: the Naver id and secret given
/// one without the other, then each value's shape, Naver first.
pub open spec fn config_change_refusal(r: OfficialKrDataConfigRequest) -> Option<Seq<char>> {
    if r.naver_client_id.is_some() != r.naver_client_secret.is_some() {
        Some("네이버 Client ID와 Secret은 함께 저장하거나 함께 삭제해야 합니다."@)
    } else if secret_change(r.naver_client_id, "네이버 Client ID"@) is Err {
        Some(secret_change(r.naver_client_id, "네이버 Client ID"@)->Err_0)
    } else if secret_change(r.naver_client_secret, "네이버 Client Secret"@) is Err {
        Some(secret_change(r.naver_client_secret, "네이버 Client Secret"@)->Err_0)
    } else if secret_change(r.opendart_api_key, "OpenDART API 키"@) is Err {
        Some(secret_change(r.opendart_api_key, "OpenDART API 키"@)->Err_0)
    } else {
        None
    }
}

/// Checks a change of the official KR data credentials before any is stored.
pub fn plan_config_change(request: OfficialKrDataConfigRequest) -> (r: Result<OfficialKrDataConfigChange, String>)
    ensures
        match config_change_refusal(request) {
            Some(e) => r matches Err(m) && m@ == e,
            None => r matches Ok(c) && {
                &&& Ok::<Option<Option<Seq<char>>>, Seq<char>>(change_view(c.opendart_api_key)) == secret_change(
                    request.opendart_api_key,
                    "OpenDART API 키"@,
                )
                &&& match c.naver {
                    None => request.naver_client_id is None && request.naver_client_secret is None,
                    Some((id, secret)) => Ok::<Option<Option<Seq<char>>>, Seq<char>>(change_view(Some(id)))
                        == secret_change(request.naver_client_id, "네이버 Client ID"@)
                        && Ok::<Option<Option<Seq<char>>>, Seq<char>>(change_view(Some(secret)))
                        == secret_change(request.naver_client_secret, "네이버 Client Secret"@),
                }
            },
        },
{
    if request.naver_client_id.is_some() != request.naver_client_secret.is_some() {
        return Err("네이버 Client ID와 Secret은 함께 저장하거나 함께 삭제해야 합니다.".to_owned());
    }
    let id = normalize_secret_change(request.naver_client_id, "네이버 Client ID")?;
    let secret = normalize_secret_change(request.naver_client_secret, "네이버 Client Secret")?;
    let opendart = normalize_secret_change(request.opendart_api_key, "OpenDART API 키")?;
    let naver = match (id, secret) {
        (Some(a), Some(b)) => Some((a, b)),
        _ => None,
    };
    Ok(OfficialKrDataConfigChange { opendart_api_key: opendart, naver })
}

/// The message for a refused provider call, by HTTP status.
pub open spec fn http_error_message(provider: Seq<char>, status: u16) -> Seq<char> {
    if status == 401 || status == 403 {
        provider + " 자격정보 또는 애플리케이션 권한을 확인해 주세요."@
    } else if status == 429 {
        provider + " 호출 한도를 초과했습니다."@
    } else if status == 400 {
        provider + " 요청 조건이 거부되었습니다."@
    } else {
        provider + " 서버가 요청을 처리하지 못했습니다."@
    }
}

pub fn safe_http_error(provider: &str, status: u16) -> (r: String)
    ensures
        r@ == http_error_message(provider@, status),
{
    if status == 401 || status == 403 {
        concat_str(provider, " 자격정보 또는 애플리케이션 권한을 확인해 주세요.")
    } else if status == 429 {
        concat_str(provider, " 호출 한도를 초과했습니다.")
    } else if status == 400 {
        concat_str(provider, " 요청 조건이 거부되었습니다.")
    } else {
        concat_str(provider, " 서버가 요청을 처리하지 못했습니다.")
    }
}


// ---------------------------------------------------------------- display text

/// `str::replace`: every occurrence of `from`, scanning left to right without
/// overlap, replaced by `to`.
pub open spec fn replace_all(s: Seq<char>, from: Seq<char>, to: Seq<char>) -> Seq<char>
    decreases s.len(),
{
    if s.len() == 0 {
        s
    } else if from.len() > 0 && occurs_at(s, from, 0) {
        to + replace_all(s.skip(from.len() as int), from, to)
    } else {
        seq![s[0]] + replace_all(s.skip(1), from, to)
    }
}

pub fn replace_text(s: &str, from: &str, to: &str) -> (r: String)
    requires
        from@.len() > 0,
    ensures
        r@ == replace_all(s@, from@, to@),
{
    let x = chars_of(s);
    let f = chars_of(from);
    let t = chars_of(to);
    let mut out: Vec<char> = Vec::new();
    let mut i: usize = 0;
    assert(x@.skip(0) =~= x@);
    assert(out@ + x@ =~= x@);
    while i < x.len()
        invariant
            x@ == s@,
            f@ == from@,
            t@ == to@,
            f@.len() > 0,
            i <= x.len(),
            out@ + replace_all(x@.skip(i as int), f@, t@) == replace_all(x@, f@, t@),
        decreases x.len() - i,
    {
        let ghost rest = x@.skip(i as int);
        if occurs_at_exec(&x, &f, i) {
            proof {
                assert(rest.subrange(0, f@.len() as int) =~= x@.subrange(i as int, i + f@.len()));
                assert(rest.skip(f@.len() as int) =~= x@.skip(i + f@.len()));
                assert(out@ + t@ + replace_all(x@.skip(i + f@.len()), f@, t@) =~= out@ + (t@ + replace_all(
                    rest.skip(f@.len() as int),
                    f@,
                    t@,
                )));
            }
            let mut k: usize = 0;
            let ghost base = out@;
            while k < t.len()
                invariant
                    k <= t@.len(),
                    out@ == base + t@.subrange(0, k as int),
                decreases t.len() - k,
            {
                out.push(t[k]);
                assert(base + t@.subrange(0, k as int + 1) =~= (base + t@.subrange(0, k as int)).push(t@[k as int]));
                k = k + 1;
            }
            assert(t@.subrange(0, t@.len() as int) =~= t@);
            i = i + f.len();
        } else {
            proof {
                if i + f@.len() <= x@.len() {
                    assert(rest.subrange(0, f@.len() as int) =~= x@.subrange(i as int, i + f@.len()));
                }
                assert(rest.skip(1) =~= x@.skip(i + 1));
                assert(rest[0] == x@[i as int]);
                assert(out@.push(x@[i as int]) + replace_all(x@.skip(i + 1), f@, t@) =~= out@ + (seq![rest[0]]
                    + replace_all(rest.skip(1), f@, t@)));
            }
            out.push(x[i]);
            i = i + 1;
        }
    }
    proof {
        assert(x@.skip(i as int).len() == 0);
        assert(out@ + x@.skip(i as int) =~= out@);
    }
    string_from_chars(&out)
}

/// The display form of provider markup: bold tags dropped and the common
/// entities decoded, in that order.
pub open spec fn clean_html_spec(s: Seq<char>) -> Seq<char> {
    replace_all(
        replace_all(
            replace_all(
                replace_all(replace_all(replace_all(s, "<b>"@, ""@), "</b>"@, ""@), "&quot;"@, "\""@),
                "&amp;"@,
                "&"@,
            ),
            "&lt;"@,
            "<"@,
        ),
        "&gt;"@,
        ">"@,
    )
}

pub fn clean_html(value: &str) -> (r: String)
    ensures
        r@ == clean_html_spec(value@),
{
    proof {
        reveal_strlit("<b>");
        reveal_strlit("</b>");
        reveal_strlit("&quot;");
        reveal_strlit("&amp;");
        reveal_strlit("&lt;");
        reveal_strlit("&gt;");
    }
    let a = replace_text(value, "<b>", "");
    let b = replace_text(a.as_str(), "</b>", "");
    let c = replace_text(b.as_str(), "&quot;", "\"");
    let d = replace_text(c.as_str(), "&amp;", "&");
    let e = replace_text(d.as_str(), "&lt;", "<");
    replace_text(e.as_str(), "&gt;", ">")
}

/// The first `max_chars` characters.
pub fn bounded_text(value: String, max_chars: usize) -> (r: String)
    ensures
        r@ == (if value@.len() <= max_chars { value@ } else { value@.take(max_chars as int) }),
{
    let chars = chars_of(value.as_str());
    if chars.len() <= max_chars {
        return value;
    }
    let mut out: Vec<char> = Vec::new();
    let mut i: usize = 0;
    while i < max_chars
        invariant
            chars@ == value@,
            max_chars < chars@.len(),
            i <= max_chars,
            out@ == value@.take(i as int),
        decreases max_chars - i,
    {
        out.push(chars[i]);
        assert(value@.take(i as int + 1) =~= value@.take(i as int).push(value@[i as int]));
        i = i + 1;
    }
    string_from_chars(&out)
}

// ---------------------------------------------------------------- links

/// What `url::Url::parse` gives for a text: `None` where it is no absolute URL,
/// else the scheme and the serialization of the parsed URL.
pub uninterp spec fn url_parse(input: Seq<char>) -> Option<(Seq<char>, Seq<char>)>;

/// `url::Url::parse`, then `Url::scheme` and the URL's `Display` text. The
/// contract names the result; it claims nothing of how a text parses.
#[verifier::external_body]
fn parse_url(input: &str) -> (r: Option<(String, String)>)
    ensures
        r is Some <==> url_parse(input@) is Some,
        r matches Some(p) ==> url_parse(input@) == Some((p.0@, p.1@)),
{
    match url::Url::parse(input) {
        Ok(parsed) => Some((parsed.scheme().to_owned(), parsed.to_string())),
        Err(_) => None,
    }
}

/// The link a parse result allows: the serialized URL of an `http` or `https`
/// one, else nothing.
pub open spec fn http_link(parsed: Option<(Seq<char>, Seq<char>)>) -> Seq<char> {
    match parsed {
        Some((scheme, text)) => if scheme == "http"@ || scheme == "https"@ {
            text
        } else {
            Seq::empty()
        },
        None => Seq::empty(),
    }
}

pub fn http_link_of(parsed: Option<(String, String)>) -> (r: String)
    ensures
        r@ == http_link(
            match parsed {
                Some(p) => Some((p.0@, p.1@)),
                None => None,
            },
        ),
{
    match parsed {
        Some((scheme, text)) => {
            if str_eq(scheme.as_str(), "http") || str_eq(scheme.as_str(), "https") {
                text
            } else {
                String::new()
            }
        },
        None => String::new(),
    }
}

/// A link kept for display: empty for one over 2,048 bytes or that is no
/// `http`/`https` URL, else its normalized form.
pub fn safe_http_url(value: String) -> (r: String)
    ensures
        r@ == (if byte_len_spec(value@) > 2_048 {
            Seq::empty()
        } else {
            http_link(url_parse(value@))
        }),
{
    if byte_len(value.as_str()) > 2_048 {
        return String::new();
    }
    http_link_of(parse_url(value.as_str()))
}

// ---------------------------------------------------------------- provider replies

/// A receipt number: fourteen ASCII digits.
pub open spec fn receipt_ok(s: Seq<char>) -> bool {
    s.len() == 14 && all_digits(s)
}

pub open spec fn take_chars(s: Seq<char>, n: int) -> Seq<char> {
    if s.len() <= n {
        s
    } else {
        s.take(n)
    }
}

pub open spec fn disclosure_from(item: OpenDartRawItem, d: OpenDartDisclosure) -> bool {
    &&& d.receipt_number@ == item.rcept_no@
    &&& d.source_url@ == "https://dart.fss.or.kr/dsaf001/main.do?rcpNo="@ + item.rcept_no@
    &&& d.corporation_name@ == take_chars(item.corp_name@, 200)
    &&& d.report_name@ == take_chars(item.report_nm@, 500)
    &&& d.filer_name@ == take_chars(item.flr_nm@, 200)
    &&& d.receipt_date@ == take_chars(item.rcept_dt@, 8)
    &&& d.remark@ == take_chars(item.rm@, 200)
}

/// The items with a valid receipt number among the first `n`, in order.
pub open spec fn kept_receipts(list: Seq<OpenDartRawItem>, n: int) -> Seq<OpenDartRawItem>
    decreases n,
{
    if n <= 0 {
        Seq::empty()
    } else if receipt_ok(list[n - 1].rcept_no@) {
        kept_receipts(list, n - 1).push(list[n - 1])
    } else {
        kept_receipts(list, n - 1)
    }
}

fn disclosure_of(item: &OpenDartRawItem) -> (d: OpenDartDisclosure)
    ensures
        disclosure_from(*item, d),
{
    OpenDartDisclosure {
        source_url: concat_str("https://dart.fss.or.kr/dsaf001/main.do?rcpNo=", item.rcept_no.as_str()),
        receipt_number: copy_string(&item.rcept_no),
        corporation_name: bounded_text(copy_string(&item.corp_name), 200),
        report_name: bounded_text(copy_string(&item.report_nm), 500),
        filer_name: bounded_text(copy_string(&item.flr_nm), 200),
        receipt_date: bounded_text(copy_string(&item.rcept_dt), 8),
        remark: bounded_text(copy_string(&item.rm), 200),
    }
}

/// The disclosures of an OpenDART reply: none for status `013` (no data), a
/// refusal for any status but `000`, else every item with a valid receipt
/// number, in order, its texts bounded.
pub fn parse_opendart(value: OpenDartEnvelope) -> (r: Result<Vec<OpenDartDisclosure>, String>)
    ensures
        value.status@ == "013"@ ==> (r matches Ok(v) && v@.len() == 0),
        value.status@ != "013"@ && value.status@ != "000"@ ==> (r matches Err(e) && e@
            == "OpenDART가 조회를 거부했습니다. 회사 코드·기간·호출 한도를 확인해 주세요."@),
        value.status@ == "000"@ ==> (r matches Ok(v) && v@.len() == kept_receipts(value.list@, value.list@.len() as int).len()
            && forall|k: int| 0 <= k < v@.len() ==> disclosure_from(
                #[trigger] kept_receipts(value.list@, value.list@.len() as int)[k],
                v@[k],
            )),
{
    proof {
        reveal_strlit("013");
        reveal_strlit("000");
        assert("013"@[2] != "000"@[2]);
    }
    if str_eq(value.status.as_str(), "013") {
        return Ok(Vec::new());
    }
    if !str_eq(value.status.as_str(), "000") {
        return Err("OpenDART가 조회를 거부했습니다. 회사 코드·기간·호출 한도를 확인해 주세요.".to_owned());
    }
    let list = &value.list;
    let ghost l = list@;
    let mut out: Vec<OpenDartDisclosure> = Vec::new();
    let mut i: usize = 0;
    while i < list.len()
        invariant
            l == list@,
            i <= l.len(),
            out@.len() == kept_receipts(l, i as int).len(),
            forall|k: int| 0 <= k < out@.len() ==> disclosure_from(#[trigger] kept_receipts(l, i as int)[k], out@[k]),
        decreases l.len() - i,
    {
        let item = &list[i];
        let number = chars_of(item.rcept_no.as_str());
        let ok = number.len() == 14 && only_digits(item.rcept_no.as_str());
        if ok {
            out.push(disclosure_of(item));
            proof {
                assert forall|k: int| 0 <= k < out@.len() implies disclosure_from(
                    #[trigger] kept_receipts(l, i + 1)[k],
                    out@[k],
                ) by {
                    if k < out@.len() - 1 {
                        assert(kept_receipts(l, i + 1)[k] == kept_receipts(l, i as int)[k]);
                    }
                }
            }
        }
        i = i + 1;
    }
    Ok(out)
}

pub open spec fn news_item_from(item: NaverNewsRawItem, d: NaverNewsItem) -> bool {
    &&& d.title@ == take_chars(clean_html_spec(item.title@), 500)
    &&& d.original_link@ == (if byte_len_spec(item.originallink@) > 2_048 {
        Seq::empty()
    } else {
        http_link(url_parse(item.originallink@))
    })
    &&& d.link@ == (if byte_len_spec(item.link@) > 2_048 {
        Seq::empty()
    } else {
        http_link(url_parse(item.link@))
    })
    &&& d.description@ == take_chars(clean_html_spec(item.description@), 2_000)
    &&& d.published_at@ == take_chars(item.pub_date@, 100)
}

/// A Naver news reply for display: the counts as given, each item's texts
/// cleaned and bounded and its links kept only where safe. The query and the
/// fetch time are left empty for the caller to fill.
pub fn parse_naver(value: NaverNewsEnvelope) -> (r: NaverNewsSnapshot)
    ensures
        r.provider@ == "NAVER_NEWS_SEARCH"@,
        r.query@.len() == 0,
        r.fetched_at_ms == 0,
        r.total == value.total,
        r.start == value.start,
        r.display == value.display,
        r.read_only,
        r.items@.len() == value.items@.len(),
        forall|k: int| 0 <= k < r.items@.len() ==> news_item_from(value.items@[k], #[trigger] r.items@[k]),
{
    let mut items: Vec<NaverNewsItem> = Vec::new();
    let mut i: usize = 0;
    while i < value.items.len()
        invariant
            i <= value.items@.len(),
            items@.len() == i,
            forall|k: int| 0 <= k < i ==> news_item_from(value.items@[k], #[trigger] items@[k]),
        decreases value.items.len() - i,
    {
        let item = &value.items[i];
        items.push(
            NaverNewsItem {
                title: bounded_text(clean_html(item.title.as_str()), 500),
                original_link: safe_http_url(copy_string(&item.originallink)),
                link: safe_http_url(copy_string(&item.link)),
                description: bounded_text(clean_html(item.description.as_str()), 2_000),
                published_at: bounded_text(copy_string(&item.pub_date), 100),
            },
        );
        i = i + 1;
    }
    NaverNewsSnapshot {
        provider: "NAVER_NEWS_SEARCH",
        query: String::new(),
        fetched_at_ms: 0,
        total: value.total,
        start: value.start,
        display: value.display,
        items,
        read_only: true,
    }
}

} // verus!
