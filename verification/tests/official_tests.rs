use investa::official::{plan_config_change, OfficialKrDataConfigRequest};
use investa::official::{
    bounded_text, clean_html, normalize_secret_change, parse_naver, parse_opendart, replace_text, safe_http_error,
    safe_http_url, valid_date, validate_disclosure_request, validate_news_request, validate_secret,
    NaverNewsEnvelope, NaverNewsRawItem, NaverNewsRequest, OpenDartDisclosureRequest, OpenDartEnvelope,
    OpenDartRawItem,
};

fn naver_item(title: &str, originallink: &str, link: &str, description: &str) -> NaverNewsRawItem {
    NaverNewsRawItem {
        title: title.to_owned(),
        originallink: originallink.to_owned(),
        link: link.to_owned(),
        description: description.to_owned(),
        pub_date: "Mon, 01 Sep 2026 00:00:00 +0900".to_owned(),
    }
}

fn dart_item(rcept_no: &str) -> OpenDartRawItem {
    OpenDartRawItem {
        rcept_no: rcept_no.to_owned(),
        corp_name: "예시".to_owned(),
        report_nm: "사업보고서".to_owned(),
        flr_nm: "예시".to_owned(),
        rcept_dt: "20260319".to_owned(),
        rm: "".to_owned(),
    }
}

#[test]
fn validates_bounded_read_only_requests() {
    assert!(validate_disclosure_request(OpenDartDisclosureRequest {
        corp_code: "00126380".to_owned(),
        begin_date: "20260101".to_owned(),
        end_date: "20261231".to_owned(),
        page_count: Some(100),
    })
    .is_ok());
    assert!(validate_news_request(NaverNewsRequest {
        query: "한화".to_owned(),
        display: Some(101),
        start: None,
        sort: None,
    })
    .is_err());
}

#[test]
fn parses_disclosures_without_exposing_the_api_key() {
    let envelope = OpenDartEnvelope {
        status: "000".to_owned(),
        message: "정상".to_owned(),
        list: vec![dart_item("20260319001234")],
    };
    let items = parse_opendart(envelope).unwrap();
    assert_eq!(items.len(), 1);
    assert!(items[0].source_url.ends_with("20260319001234"));
}

#[test]
fn naver_markup_is_removed_from_display_fields() {
    let envelope = NaverNewsEnvelope {
        total: 1,
        start: 1,
        display: 1,
        items: vec![naver_item(
            "<b>한화</b> 뉴스",
            "https://publisher.example/a",
            "https://news.naver.com/a",
            "&quot;요약&quot;",
        )],
    };
    let snapshot = parse_naver(envelope);
    assert_eq!(snapshot.items[0].title, "한화 뉴스");
    assert_eq!(snapshot.items[0].description, "\"요약\"");
}

#[test]
fn rejects_non_http_news_links_and_caps_external_text() {
    let envelope = NaverNewsEnvelope {
        total: 1,
        start: 1,
        display: 1,
        items: vec![naver_item(&"가".repeat(600), "javascript:alert(1)", "https://news.naver.com/a", "요약")],
    };
    let snapshot = parse_naver(envelope);
    assert!(snapshot.items[0].original_link.is_empty());
    assert_eq!(snapshot.items[0].title.chars().count(), 500);
}

#[test]
fn disclosure_requests_need_ordered_dates_and_a_bounded_count() {
    let request = |begin: &str, end: &str, count: Option<u16>| OpenDartDisclosureRequest {
        corp_code: "00126380".to_owned(),
        begin_date: begin.to_owned(),
        end_date: end.to_owned(),
        page_count: count,
    };
    assert!(validate_disclosure_request(request("20260101", "20260101", None)).is_ok());
    assert_eq!(
        validate_disclosure_request(request("20261231", "20260101", None)).unwrap_err(),
        "OpenDART 회사 고유번호·조회 기간·건수를 확인해 주세요."
    );
    assert!(validate_disclosure_request(request("20260101", "20261231", Some(0))).is_err());
    assert!(validate_disclosure_request(request("2026-01-01", "20261231", None)).is_err());
    assert!(valid_date("20260101"));
    assert!(!valid_date("2026010"));
}

#[test]
fn news_requests_are_trimmed_and_limited() {
    let request = |query: &str, sort: Option<&str>| NaverNewsRequest {
        query: query.to_owned(),
        display: None,
        start: Some(1_000),
        sort: sort.map(str::to_owned),
    };
    let accepted = validate_news_request(request("  한화 에어로  ", Some("sim"))).unwrap();
    assert_eq!(accepted.query, "한화 에어로");
    assert_eq!(accepted.start, Some(1_000));
    assert!(validate_news_request(request("   ", None)).is_err());
    assert!(validate_news_request(request("한화", Some("rank"))).is_err());
    assert!(validate_news_request(request("한화\n뉴스", None)).is_err());
    assert_eq!(
        validate_news_request(request(&"가".repeat(101), None)).unwrap_err(),
        "네이버 뉴스 검색어·페이지·정렬 조건을 확인해 주세요."
    );
}

#[test]
fn replies_keep_only_valid_receipts_and_known_statuses() {
    let envelope = OpenDartEnvelope {
        status: "000".to_owned(),
        message: "정상".to_owned(),
        list: vec![dart_item("2026031900123"), dart_item("20260319001234"), dart_item("2026031900123x")],
    };
    let items = parse_opendart(envelope).unwrap();
    assert_eq!(items.len(), 1);
    assert_eq!(items[0].receipt_number, "20260319001234");
    assert_eq!(items[0].source_url, "https://dart.fss.or.kr/dsaf001/main.do?rcpNo=20260319001234");
    let empty = OpenDartEnvelope { status: "013".to_owned(), message: "".to_owned(), list: vec![dart_item("x")] };
    assert!(parse_opendart(empty).unwrap().is_empty());
    let refused = OpenDartEnvelope { status: "020".to_owned(), message: "".to_owned(), list: vec![] };
    assert_eq!(
        parse_opendart(refused).unwrap_err(),
        "OpenDART가 조회를 거부했습니다. 회사 코드·기간·호출 한도를 확인해 주세요."
    );
}

#[test]
fn display_text_is_cleaned_bounded_and_links_normalized() {
    assert_eq!(clean_html("a &amp;lt; b &lt;b&gt;"), "a < b <b>");
    assert_eq!(replace_text("aaa", "aa", "b"), "ba");
    assert_eq!(bounded_text("한화에어로".to_owned(), 2), "한화");
    assert_eq!(bounded_text("ab".to_owned(), 5), "ab");
    assert_eq!(safe_http_url("HTTPS://Example.com".to_owned()), "https://example.com/");
    assert_eq!(safe_http_url("ftp://example.com/a".to_owned()), "");
    assert_eq!(safe_http_url("not a url".to_owned()), "");
    assert_eq!(safe_http_url(format!("https://example.com/{}", "a".repeat(2_030))), "");
}

#[test]
fn credentials_and_provider_errors() {
    assert_eq!(validate_secret("  abcdefgh  ", "OpenDART API 키").unwrap(), "abcdefgh");
    assert_eq!(validate_secret("abc", "OpenDART API 키").unwrap_err(), "OpenDART API 키 형식을 확인해 주세요.");
    assert!(validate_secret("abcdefg'h", "키").is_err());
    assert!(validate_secret("abcd efgh", "키").is_err());
    assert_eq!(normalize_secret_change(None, "키").unwrap(), None);
    assert_eq!(normalize_secret_change(Some("   ".to_owned()), "키").unwrap(), Some(None));
    assert_eq!(
        normalize_secret_change(Some(" abcdefgh ".to_owned()), "키").unwrap(),
        Some(Some("abcdefgh".to_owned()))
    );
    assert!(normalize_secret_change(Some("short".to_owned()), "키").is_err());
    assert_eq!(safe_http_error("OpenDART", 403), "OpenDART 자격정보 또는 애플리케이션 권한을 확인해 주세요.");
    assert_eq!(safe_http_error("네이버 뉴스", 429), "네이버 뉴스 호출 한도를 초과했습니다.");
    assert_eq!(safe_http_error("OpenDART", 400), "OpenDART 요청 조건이 거부되었습니다.");
    assert_eq!(safe_http_error("OpenDART", 503), "OpenDART 서버가 요청을 처리하지 못했습니다.");
}

#[test]
fn naver_credentials_change_together_and_every_key_is_checked() {
    let lone = OfficialKrDataConfigRequest {
        opendart_api_key: None,
        naver_client_id: Some("client-id-1234".to_owned()),
        naver_client_secret: None,
    };
    assert_eq!(
        plan_config_change(lone).unwrap_err(),
        "네이버 Client ID와 Secret은 함께 저장하거나 함께 삭제해야 합니다."
    );
    let saved = plan_config_change(OfficialKrDataConfigRequest {
        opendart_api_key: Some("  ".to_owned()),
        naver_client_id: Some(" client-id-1234 ".to_owned()),
        naver_client_secret: Some("secret-abcdefgh".to_owned()),
    })
    .unwrap();
    assert_eq!(saved.opendart_api_key, Some(None));
    assert_eq!(
        saved.naver,
        Some((Some("client-id-1234".to_owned()), Some("secret-abcdefgh".to_owned())))
    );
    let short_secret = plan_config_change(OfficialKrDataConfigRequest {
        opendart_api_key: Some("bad".to_owned()),
        naver_client_id: Some("client-id-1234".to_owned()),
        naver_client_secret: Some("short".to_owned()),
    });
    assert_eq!(short_secret.unwrap_err(), "네이버 Client Secret 형식을 확인해 주세요.");
    let bad_dart = plan_config_change(OfficialKrDataConfigRequest {
        opendart_api_key: Some("bad".to_owned()),
        naver_client_id: None,
        naver_client_secret: None,
    });
    assert_eq!(bad_dart.unwrap_err(), "OpenDART API 키 형식을 확인해 주세요.");
    let nothing = plan_config_change(OfficialKrDataConfigRequest {
        opendart_api_key: None,
        naver_client_id: None,
        naver_client_secret: None,
    })
    .unwrap();
    assert_eq!(nothing.opendart_api_key, None);
    assert_eq!(nothing.naver, None);
}
