use investa::stocks::{
    explicit_kr_stock_from_text, normalize_stock_search, resolve_stock_from_text, search_stock_catalog,
    stock_aliases, stock_match_score, StockSearchResult, STOCK_SEARCH_LIMIT,
};

fn stock(symbol: &str, name: &str, market: &str, currency: &str) -> StockSearchResult {
    StockSearchResult {
        symbol: symbol.to_owned(),
        name: name.to_owned(),
        market: market.to_owned(),
        currency: currency.to_owned(),
        security_type: "STOCK".to_owned(),
    }
}

#[test]
fn stock_search_matches_partial_names_korean_aliases_and_tickers() {
    let stocks = vec![
        StockSearchResult {
            symbol: "000660".to_owned(),
            name: "SK하이닉스".to_owned(),
            market: "KOSPI".to_owned(),
            currency: "KRW".to_owned(),
            security_type: "STOCK".to_owned(),
        },
        StockSearchResult {
            symbol: "AAPL".to_owned(),
            name: "Apple Inc.".to_owned(),
            market: "NASDAQ".to_owned(),
            currency: "USD".to_owned(),
            security_type: "STOCK".to_owned(),
        },
    ];

    assert_eq!(search_stock_catalog(&stocks, "하이닉스")[0].symbol, "000660");
    assert_eq!(search_stock_catalog(&stocks, "애플")[0].symbol, "AAPL");
    assert_eq!(search_stock_catalog(&stocks, "aap")[0].symbol, "AAPL");
    assert_eq!(search_stock_catalog(&stocks, "SK 하이닉스")[0].symbol, "000660");
}

#[test]
fn stock_search_prefers_exact_and_prefix_matches_and_caps_results() {
    let mut stocks = (0..12)
        .map(|index| StockSearchResult {
            symbol: format!("TEST{index}"),
            name: format!("Test Company {index}"),
            market: "NASDAQ".to_owned(),
            currency: "USD".to_owned(),
            security_type: "STOCK".to_owned(),
        })
        .collect::<Vec<_>>();
    stocks.push(StockSearchResult {
        symbol: "TEST".to_owned(),
        name: "Exact".to_owned(),
        market: "NASDAQ".to_owned(),
        currency: "USD".to_owned(),
        security_type: "STOCK".to_owned(),
    });

    let matches = search_stock_catalog(&stocks, "test");
    assert_eq!(matches.len(), STOCK_SEARCH_LIMIT);
    assert_eq!(matches[0].symbol, "TEST");
}

#[test]
fn analysis_request_resolves_a_stock_without_requiring_an_exact_query() {
    let stocks = vec![StockSearchResult {
        symbol: "000660".to_owned(),
        name: "SK하이닉스".to_owned(),
        market: "KOSPI".to_owned(),
        currency: "KRW".to_owned(),
        security_type: "STOCK".to_owned(),
    }];
    let resolved = resolve_stock_from_text(&stocks, "SK하이닉스 최근 추세와 위험을 분석해줘")
        .expect("stock in natural request");
    assert_eq!(resolved.symbol, "000660");
    assert!(resolve_stock_from_text(&stocks, "종목을 분석해줘").is_none());
}

#[test]
fn analysis_request_uses_an_explicit_kr_symbol_without_catalog_lookup() {
    let stock = explicit_kr_stock_from_text("한화(000880) 보유 포지션을 분석해")
        .expect("explicit Korean stock symbol");
    assert_eq!(stock.symbol, "000880");
    assert_eq!(stock.market, "KRX");
    assert_eq!(stock.currency, "KRW");
    assert!(explicit_kr_stock_from_text("현재가 123800원 분석").is_none());
}

#[test]
fn search_form_keeps_letters_and_digits_in_upper_case() {
    assert_eq!(normalize_stock_search("sk 하이닉스-01!"), "SK하이닉스01");
    assert_eq!(normalize_stock_search(" .,- "), "");
    assert_eq!(normalize_stock_search("straße"), "STRASSE");
}

#[test]
fn aliases_cover_both_google_share_classes() {
    assert_eq!(stock_aliases("GOOG"), vec!["구글", "알파벳", "GOOGLE", "ALPHABET"]);
    assert_eq!(stock_aliases("GOOGL"), stock_aliases("GOOG"));
    assert!(stock_aliases("005380").is_empty());
}

#[test]
fn match_scores_rank_exact_prefix_and_partial() {
    let apple = stock("AAPL", "Apple Inc.", "NASDAQ", "USD");
    assert_eq!(stock_match_score(&apple, "APPLE"), Some(0));
    assert_eq!(stock_match_score(&apple, "AA"), Some(1));
    assert_eq!(stock_match_score(&apple, "PLEINC"), Some(2));
    assert_eq!(stock_match_score(&apple, "MSFT"), None);
}

#[test]
fn search_orders_ties_by_name_length_then_symbol() {
    let stocks = vec![
        stock("BBB", "Alpha Longer", "NASDAQ", "USD"),
        stock("CCC", "Alpha", "NASDAQ", "USD"),
        stock("AAA", "Alpha", "NASDAQ", "USD"),
        stock("ZZZ", "Other", "NASDAQ", "USD"),
    ];
    let matches = search_stock_catalog(&stocks, "alp");
    let symbols: Vec<&str> = matches.iter().map(|s| s.symbol.as_str()).collect();
    assert_eq!(symbols, vec!["AAA", "CCC", "BBB"]);
    assert!(search_stock_catalog(&stocks, " - ").is_empty());
}

#[test]
fn resolution_prefers_the_longest_mention_then_the_smaller_symbol() {
    let stocks = vec![
        stock("005930", "삼성전자", "KOSPI", "KRW"),
        stock("028260", "삼성물산", "KOSPI", "KRW"),
        stock("000660", "SK하이닉스", "KOSPI", "KRW"),
    ];
    let resolved = resolve_stock_from_text(&stocks, "삼성전자 실적").expect("mentioned");
    assert_eq!(resolved.symbol, "005930");
    let longer = resolve_stock_from_text(&stocks, "에스케이하이닉스와 삼성전자 비교").expect("mentioned");
    assert_eq!(longer.symbol, "000660");
    let tie = vec![stock("BBB", "XY", "NASDAQ", "USD"), stock("AAA", "XY", "NASDAQ", "USD")];
    assert_eq!(resolve_stock_from_text(&tie, "xy please").expect("tie").symbol, "AAA");
    let short = vec![stock("Q", "Q", "NASDAQ", "USD")];
    assert!(resolve_stock_from_text(&short, "q q q").is_none());
}

#[test]
fn explicit_codes_come_from_the_whole_text_or_the_first_valid_brackets() {
    let whole = explicit_kr_stock_from_text("  005930 ").expect("whole text");
    assert_eq!(whole.symbol, "005930");
    assert_eq!(whole.name, "005930");
    assert_eq!(whole.security_type, "STOCK");
    let spaced = explicit_kr_stock_from_text("삼성( 005930 )").expect("spaced");
    assert_eq!(spaced.symbol, "005930");
    let second = explicit_kr_stock_from_text("(abc) 그리고 (123456)").expect("second brackets");
    assert_eq!(second.symbol, "123456");
    assert!(explicit_kr_stock_from_text("((123456)").is_some());
    assert!(explicit_kr_stock_from_text("(12345)").is_none());
    assert!(explicit_kr_stock_from_text("(1234567)").is_none());
    assert!(explicit_kr_stock_from_text("(123456").is_none());
}
