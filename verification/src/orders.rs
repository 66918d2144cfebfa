//! Manual limit orders against the internal paper account: what a request
//! must hold, whether the account can carry it, and which orders can still be
//! cancelled.
use vstd::prelude::*;
use crate::text::{ascii_upper, str_eq, to_ascii_upper, trim, trimmed, valid_ident, valid_identifier};

verus! {

#[derive(Debug, Clone, Copy, PartialEq, Eq, Structural)]
pub enum TradeSide {
    Buy,
    Sell,
}

#[derive(Debug, Clone)]
pub struct ManualLimitOrderRequest {
    pub order_id: String,
    pub market: String,
    pub symbol: String,
    pub currency: String,
    pub side: TradeSide,
    pub quantity: u64,
    pub limit_price_minor: u64,
}

#[derive(Debug, Clone)]
pub struct ManualPaperOrder {
    pub order_id: String,
    pub market: String,
    pub symbol: String,
    pub currency: String,
    pub side: String,
    pub order_type: &'static str,
    pub quantity: u64,
    pub quantity_scale: u64,
    pub limit_price_minor: u64,
    pub status: String,
    pub created_at_ms: u64,
    pub updated_at_ms: u64,
}

/// Coins are held in hundred-millionths; stocks in whole shares.
pub open spec fn market_scale(market: Seq<char>) -> u64 {
    if market == "coin"@ {
        100_000_000
    } else {
        1
    }
}

pub fn quantity_scale_for_market(market: &str) -> (r: u64)
    ensures
        r == market_scale(market@),
{
    if str_eq(market, "coin") {
        100_000_000
    } else {
        1
    }
}

pub fn side_key(side: TradeSide) -> (r: &'static str)
    ensures
        r@ == match side {
            TradeSide::Buy => "buy"@,
            TradeSide::Sell => "sell"@,
        },
{
    match side {
        TradeSide::Buy => "buy",
        TradeSide::Sell => "sell",
    }
}

/// A limit order request: an order id and the trimmed, upper-cased symbol
/// as identifiers, a known market in its currency (`kr` and `coin` in KRW,
/// `us` in USD), and a quantity and price.
pub open spec fn limit_request_ok(r: ManualLimitOrderRequest) -> bool {
    let m = r.market@;
    let c = r.currency@;
    &&& valid_ident(r.order_id@, 128, false)
    &&& valid_ident(ascii_upper(trim(r.symbol@)), 24, false)
    &&& (m == "kr"@ || m == "us"@ || m == "coin"@)
    &&& (c == "KRW"@ || c == "USD"@)
    &&& r.quantity != 0
    &&& r.limit_price_minor != 0
    &&& ((m == "kr"@ || m == "coin"@) ==> c == "KRW"@)
    &&& (m == "us"@ ==> c == "USD"@)
}

/// Checks a limit order request; gives the normalized symbol.
pub fn validate_limit_order(request: &ManualLimitOrderRequest) -> (r: Result<String, String>)
    ensures
        match r {
            Ok(s) => limit_request_ok(*request) && s@ == ascii_upper(trim(request.symbol@)),
            Err(e) => !limit_request_ok(*request) && e@ == "지정가 모의주문의 시장·종목·통화·수량·가격을 확인해 주세요."@,
        },
{
    let symbol = to_ascii_upper(trimmed(request.symbol.as_str()).as_str());
    let kr = str_eq(request.market.as_str(), "kr");
    let us = str_eq(request.market.as_str(), "us");
    let coin = str_eq(request.market.as_str(), "coin");
    let krw = str_eq(request.currency.as_str(), "KRW");
    let usd = str_eq(request.currency.as_str(), "USD");
    if !valid_identifier(request.order_id.as_str(), 128, false) || !valid_identifier(symbol.as_str(), 24, false)
        || !(kr || us || coin) || !(krw || usd) || request.quantity == 0 || request.limit_price_minor == 0 || ((kr
        || coin) && !krw) || (us && !usd) {
        return Err("지정가 모의주문의 시장·종목·통화·수량·가격을 확인해 주세요.".to_owned());
    }
    Ok(symbol)
}

/// The cash a buy ties up: price times quantity, in the market's scale.
pub open spec fn required_cash(r: ManualLimitOrderRequest) -> int {
    (r.limit_price_minor as int * r.quantity as int) / market_scale(r.market@) as int
}

/// What the paper account holds of the order's symbol: its quantity scale and
/// quantity.
pub type HeldPosition = (u64, u64);

/// The first refusal of placing a checked order against the account, if any.
pub open spec fn funding_refusal(r: ManualLimitOrderRequest, cash_minor: u64, position: Option<HeldPosition>) -> Option<
    Seq<char>,
> {
    match r.side {
        TradeSide::Buy => if required_cash(r) > u64::MAX {
            Some("지정가 모의주문 금액이 지원 범위를 초과했습니다."@)
        } else if cash_minor < required_cash(r) {
            Some("내부 모의계좌 예수금이 부족합니다."@)
        } else {
            None
        },
        TradeSide::Sell => match position {
            Some((scale, quantity)) => if scale != market_scale(r.market@) || quantity < r.quantity {
                Some("내부 모의계좌 보유 수량보다 많은 지정가 매도를 대기시킬 수 없습니다."@)
            } else {
                None
            },
            None => Some("내부 모의계좌 보유 수량보다 많은 지정가 매도를 대기시킬 수 없습니다."@),
        },
    }
}

/// Whether the paper account can carry the order: the cash for a buy, the
/// shares for a sell. A pending order reserves nothing.
pub fn check_limit_order_funding(
    request: &ManualLimitOrderRequest,
    cash_minor: u64,
    position: Option<HeldPosition>,
) -> (r: Result<(), String>)
    ensures
        match funding_refusal(*request, cash_minor, position) {
            Some(e) => r matches Err(m) && m@ == e,
            None => r is Ok,
        },
{
    let scale = quantity_scale_for_market(request.market.as_str());
    match request.side {
        TradeSide::Buy => {
            let price = request.limit_price_minor as u128;
            let quantity = request.quantity as u128;
            proof {
                assert(price * quantity <= 0xffff_ffff_ffff_ffff * 0xffff_ffff_ffff_ffff) by (nonlinear_arith)
                    requires
                        price <= 0xffff_ffff_ffff_ffff,
                        quantity <= 0xffff_ffff_ffff_ffff,
                ;
            }
            let required: u128 = price * quantity / (scale as u128);
            if required > 0xffff_ffff_ffff_ffffu128 {
                return Err("지정가 모의주문 금액이 지원 범위를 초과했습니다.".to_owned());
            }
            if (cash_minor as u128) < required {
                return Err("내부 모의계좌 예수금이 부족합니다.".to_owned());
            }
            Ok(())
        },
        TradeSide::Sell => match position {
            Some((held_scale, quantity)) => {
                if held_scale != scale || quantity < request.quantity {
                    Err("내부 모의계좌 보유 수량보다 많은 지정가 매도를 대기시킬 수 없습니다.".to_owned())
                } else {
                    Ok(())
                }
            },
            None => Err("내부 모의계좌 보유 수량보다 많은 지정가 매도를 대기시킬 수 없습니다.".to_owned()),
        },
    }
}

/// Only a pending order can be cancelled.
pub open spec fn cancel_refusal(order_id: Seq<char>, status: Option<Seq<char>>) -> Option<Seq<char>> {
    if !valid_ident(order_id, 128, false) {
        Some("취소할 주문 ID가 올바르지 않습니다."@)
    } else {
        match status {
            None => Some("취소할 지정가 모의주문을 찾지 못했습니다."@),
            Some(s) => if s == "pending"@ {
                None
            } else {
                Some("이미 취소되었거나 체결된 주문은 취소할 수 없습니다."@)
            },
        }
    }
}

/// Whether an order with the stored status may be cancelled.
pub fn check_cancel(order_id: &str, status: Option<&str>) -> (r: Result<(), String>)
    ensures
        match cancel_refusal(
            order_id@,
            match status {
                Some(s) => Some(s@),
                None => None,
            },
        ) {
            Some(e) => r matches Err(m) && m@ == e,
            None => r is Ok,
        },
{
    if !valid_identifier(order_id, 128, false) {
        return Err("취소할 주문 ID가 올바르지 않습니다.".to_owned());
    }
    match status {
        None => Err("취소할 지정가 모의주문을 찾지 못했습니다.".to_owned()),
        Some(s) => {
            if str_eq(s, "pending") {
                Ok(())
            } else {
                Err("이미 취소되었거나 체결된 주문은 취소할 수 없습니다.".to_owned())
            }
        },
    }
}

} // verus!
