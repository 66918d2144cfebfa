use investa::orders::{
    check_cancel, check_limit_order_funding, quantity_scale_for_market, side_key, validate_limit_order,
    ManualLimitOrderRequest, TradeSide,
};

fn request(market: &str, symbol: &str, currency: &str, side: TradeSide, quantity: u64, price: u64) -> ManualLimitOrderRequest {
    ManualLimitOrderRequest {
        order_id: "limit-1".to_owned(),
        market: market.to_owned(),
        symbol: symbol.to_owned(),
        currency: currency.to_owned(),
        side,
        quantity,
        limit_price_minor: price,
    }
}

#[test]
fn accepts_krw_coin_limits_but_rejects_a_mismatched_currency() {
    let coin = request("coin", "krw-xrp", "KRW", TradeSide::Buy, 10, 4_000);
    assert_eq!(validate_limit_order(&coin).unwrap(), "KRW-XRP");
    let mismatched = request("coin", "KRW-XRP", "USD", TradeSide::Buy, 1, 4_000);
    assert_eq!(
        validate_limit_order(&mismatched).unwrap_err(),
        "지정가 모의주문의 시장·종목·통화·수량·가격을 확인해 주세요."
    );
    assert_eq!(validate_limit_order(&request("kr", " 005930 ", "KRW", TradeSide::Buy, 1, 70_000)).unwrap(), "005930");
    assert!(validate_limit_order(&request("us", "AAPL", "KRW", TradeSide::Buy, 1, 100)).is_err());
    assert!(validate_limit_order(&request("jp", "7203", "KRW", TradeSide::Buy, 1, 100)).is_err());
    assert!(validate_limit_order(&request("kr", "005930", "KRW", TradeSide::Buy, 0, 100)).is_err());
    assert!(validate_limit_order(&request("kr", "005:930", "KRW", TradeSide::Buy, 1, 100)).is_err());
}

#[test]
fn the_account_must_carry_the_order() {
    let buy = request("kr", "005930", "KRW", TradeSide::Buy, 2, 70_000);
    assert!(check_limit_order_funding(&buy, 140_000, None).is_ok());
    assert_eq!(check_limit_order_funding(&buy, 139_999, None).unwrap_err(), "내부 모의계좌 예수금이 부족합니다.");
    let coin_buy = request("coin", "KRW-BTC", "KRW", TradeSide::Buy, 50_000_000, 100_000_000);
    assert!(check_limit_order_funding(&coin_buy, 50_000_000, None).is_ok());
    let huge = request("kr", "005930", "KRW", TradeSide::Buy, u64::MAX, u64::MAX);
    assert_eq!(
        check_limit_order_funding(&huge, u64::MAX, None).unwrap_err(),
        "지정가 모의주문 금액이 지원 범위를 초과했습니다."
    );
    let sell = request("kr", "005930", "KRW", TradeSide::Sell, 3, 70_000);
    assert!(check_limit_order_funding(&sell, 0, Some((1, 3))).is_ok());
    assert!(check_limit_order_funding(&sell, 0, Some((1, 2))).is_err());
    assert!(check_limit_order_funding(&sell, 0, Some((100_000_000, 3))).is_err());
    assert!(check_limit_order_funding(&sell, 0, None).is_err());
}

#[test]
fn stores_and_cancels_pending_limit_orders_only() {
    assert!(check_cancel("limit-1", Some("pending")).is_ok());
    assert_eq!(
        check_cancel("limit-1", Some("cancelled")).unwrap_err(),
        "이미 취소되었거나 체결된 주문은 취소할 수 없습니다."
    );
    assert_eq!(check_cancel("limit-1", None).unwrap_err(), "취소할 지정가 모의주문을 찾지 못했습니다.");
    assert_eq!(check_cancel("", Some("pending")).unwrap_err(), "취소할 주문 ID가 올바르지 않습니다.");
    assert_eq!(quantity_scale_for_market("coin"), 100_000_000);
    assert_eq!(quantity_scale_for_market("kr"), 1);
    assert_eq!(side_key(TradeSide::Sell), "sell");
}
