//! The internal futures paper ledger: contract notional and margin arithmetic,
//! mark-to-market profit and loss, manual lifecycle events (settlement, expiry,
//! rollover; never automatic), and the replay of the append-only event log into
//! cash, realised profit and open positions. Nothing here reaches a real exchange.
use vstd::prelude::*;
use crate::aggregation::copy_string as copy_text;
use crate::controls::{fits_i128, fits_i64, trunc_div};
use crate::text::{ascii_upper, is_blank, str_eq, to_ascii_upper, trim, trimmed, valid_ident, valid_identifier};

verus! {

pub const INITIAL_CASH_MINOR: u64 = 100_000_000;
pub const MAX_CONTRACTS_PER_ORDER: u32 = 100;

#[derive(Debug, Clone, Copy, PartialEq, Eq, Structural)]
pub enum FuturesKind {
    Stock,
    Index,
}

#[derive(Debug, Clone, Copy, PartialEq, Eq, Structural)]
pub enum FuturesSide {
    Long,
    Short,
}

#[derive(Debug, Clone)]
pub struct OpenFuturesPositionRequest {
    pub request_id: String,
    pub symbol: String,
    pub name: String,
    pub kind: FuturesKind,
    pub side: FuturesSide,
    pub contracts: u32,
    pub entry_price_minor: u64,
    pub price_scale: u64,
    pub contract_multiplier: u64,
    pub initial_margin_bps: u32,
    pub maintenance_margin_bps: u32,
    pub fee_minor: u64,
}

#[derive(Debug, Clone)]
pub struct MarkFuturesPositionRequest {
    pub request_id: String,
    pub position_id: String,
    pub mark_price_minor: u64,
}

#[derive(Debug, Clone)]
pub struct CloseFuturesPositionRequest {
    pub request_id: String,
    pub position_id: String,
    pub exit_price_minor: u64,
    pub fee_minor: u64,
}

#[derive(Debug, Clone, Copy, PartialEq, Eq, Structural)]
pub enum FuturesLifecycleKind {
    DailySettlement,
    ExpiryClose,
    ManualRollover,
}

#[derive(Debug, Clone)]
pub struct FuturesLifecycleRequest {
    pub event_id: String,
    pub request_id: String,
    pub contract_symbol: String,
    pub kind: FuturesLifecycleKind,
    pub previous_settlement_price_minor: u64,
    pub settlement_price_minor: u64,
    pub contracts: u32,
    pub contract_multiplier: u64,
    pub price_scale: u64,
    pub rollover_to_symbol: Option<String>,
    pub automatic: bool,
    pub occurred_at_ms: u64,
}

#[derive(Debug, Clone, PartialEq, Eq)]
pub struct FuturesLifecycleEvent {
    pub event_id: String,
    pub request_id: String,
    pub contract_symbol: String,
    pub kind: FuturesLifecycleKind,
    pub previous_settlement_price_minor: u64,
    pub settlement_price_minor: u64,
    pub variation_margin_minor: i64,
    pub rollover_to_symbol: Option<String>,
    pub automatic: bool,
    pub occurred_at_ms: u64,
    pub live_order_allowed: bool,
}

#[derive(Debug, Clone)]
pub struct FuturesPosition {
    pub position_id: String,
    pub symbol: String,
    pub name: String,
    pub kind: FuturesKind,
    pub side: FuturesSide,
    pub contracts: u32,
    pub entry_price_minor: u64,
    pub mark_price_minor: u64,
    pub contract_multiplier: u64,
    pub price_scale: u64,
    pub initial_margin_bps: u32,
    pub maintenance_margin_bps: u32,
    pub reserved_margin_minor: u64,
    pub unrealized_pnl_minor: i64,
    pub maintenance_required_minor: u64,
    pub liquidation_warning: bool,
    pub opened_at_ms: u64,
    pub marked_at_ms: u64,
}

/// One event of the append-only futures ledger.
#[derive(Debug, Clone)]
pub enum FuturesEvent {
    AccountOpened { initial_cash_minor: u64, occurred_at_ms: u64 },
    PositionOpened {
        request_id: String,
        position: FuturesPosition,
        fee_minor: u64,
        occurred_at_ms: u64,
    },
    PositionMarked {
        request_id: String,
        position_id: String,
        mark_price_minor: u64,
        occurred_at_ms: u64,
    },
    PositionClosed {
        request_id: String,
        position_id: String,
        exit_price_minor: u64,
        fee_minor: u64,
        occurred_at_ms: u64,
    },
}

#[derive(Debug, Clone)]
pub struct FuturesPaperSnapshot {
    pub currency: String,
    pub initial_cash_minor: u64,
    pub available_cash_minor: i64,
    pub equity_minor: i64,
    pub reserved_margin_minor: u64,
    pub unrealized_pnl_minor: i64,
    pub realized_pnl_minor: i64,
    pub positions: Vec<FuturesPosition>,
    pub event_count: usize,
    pub live_order_enabled: bool,
    pub warning: String,
}

/// The ledger replayed: available cash, realised profit and open positions.
#[derive(Debug, Clone)]
pub struct ReplayState {
    pub available_cash_minor: i128,
    pub realized_pnl_minor: i128,
    pub positions: Vec<FuturesPosition>,
}

// ---------------------------------------------------------------- contract arithmetic

pub open spec fn ceil_div(a: int, b: int) -> int {
    (a + b - 1) / b
}

/// `price * multiplier * contracts / price_scale`, rounded up.
pub open spec fn notional_value(price: u64, multiplier: u64, contracts: u32, price_scale: u64) -> int {
    ceil_div(price * multiplier * contracts, price_scale as int)
}

pub open spec fn notional_ok(price: u64, multiplier: u64, contracts: u32, price_scale: u64) -> bool {
    &&& price_scale != 0
    &&& price * multiplier * contracts <= u128::MAX
    &&& notional_value(price, multiplier, contracts, price_scale) <= u64::MAX
}

/// Why a notional cannot be computed: no price scale, or it does not fit.
pub open spec fn notional_refusal(price_scale: u64) -> Seq<char> {
    if price_scale == 0 {
        "가격 배율은 0일 수 없습니다."@
    } else {
        "계약 명목금액이 지원 범위를 초과했습니다."@
    }
}

pub fn checked_notional(price: u64, multiplier: u64, contracts: u32, price_scale: u64) -> (r: Result<u64, String>)
    ensures
        r is Ok <==> notional_ok(price, multiplier, contracts, price_scale),
        r matches Ok(v) ==> v == notional_value(price, multiplier, contracts, price_scale),
        r matches Err(e) ==> e@ == notional_refusal(price_scale),
{
    if price_scale == 0 {
        return Err("가격 배율은 0일 수 없습니다.".to_owned());
    }
    assert(price as int * multiplier as int <= u128::MAX) by (nonlinear_arith)
        requires
            price <= u64::MAX,
            multiplier <= u64::MAX,
    ;
    let base: u128 = price as u128 * multiplier as u128;
    if contracts != 0 && base > u128::MAX / contracts as u128 {
        assert(base * contracts > u128::MAX) by (nonlinear_arith)
            requires
                contracts > 0,
                base > (u128::MAX as int) / (contracts as int),
        ;
        return Err("계약 명목금액이 지원 범위를 초과했습니다.".to_owned());
    }
    assert(base * contracts <= u128::MAX) by (nonlinear_arith)
        requires
            contracts == 0 || base <= (u128::MAX as int) / (contracts as int),
    ;
    let numerator: u128 = base * contracts as u128;
    let quotient = numerator / price_scale as u128;
    let up: u128 = if numerator % price_scale as u128 == 0 {
        quotient
    } else {
        assert(price_scale >= 2) by {
            if price_scale == 1 {
                assert(numerator as int % 1 == 0);
            }
        }
        assert(quotient < u128::MAX) by {
            vstd::arithmetic::div_mod::lemma_div_is_ordered_by_denominator(numerator as int, 2, price_scale as int);
        }
        quotient + 1
    };
    assert(up == ceil_div(numerator as int, price_scale as int)) by {
        vstd::arithmetic::div_mod::lemma_fundamental_div_mod(numerator as int, price_scale as int);
        vstd::arithmetic::div_mod::lemma_fundamental_div_mod(
            numerator as int + price_scale as int - 1,
            price_scale as int,
        );
        lemma_ceil_div(numerator as int, price_scale as int);
    }
    if up > u64::MAX as u128 {
        return Err("계약 명목금액이 지원 범위를 초과했습니다.".to_owned());
    }
    Ok(up as u64)
}

/// `ceil(a / b)` is the quotient, plus one when there is a remainder.
pub proof fn lemma_ceil_div(a: int, b: int)
    requires
        a >= 0,
        b > 0,
    ensures
        ceil_div(a, b) == if a % b == 0 {
            a / b
        } else {
            a / b + 1
        },
{
    vstd::arithmetic::div_mod::lemma_fundamental_div_mod(a, b);
    let q = a / b;
    let r = a % b;
    if r == 0 {
        assert(a + b - 1 == q * b + (b - 1)) by (nonlinear_arith)
            requires
                a == b * q + r,
                r == 0,
        ;
        vstd::arithmetic::div_mod::lemma_fundamental_div_mod_converse(a + b - 1, b, q, b - 1);
    } else {
        assert(a + b - 1 == (q + 1) * b + (r - 1)) by (nonlinear_arith)
            requires
                a == b * q + r,
        ;
        vstd::arithmetic::div_mod::lemma_fundamental_div_mod_converse(a + b - 1, b, q + 1, r - 1);
    }
}

pub open spec fn margin_value(notional: u64, bps: u32) -> int {
    ceil_div(notional * bps, 10_000)
}

/// The margin `notional * bps / 10_000`, rounded up.
pub fn margin(notional: u64, bps: u32) -> (r: Result<u64, String>)
    ensures
        r is Ok <==> margin_value(notional, bps) <= u64::MAX,
        r matches Ok(v) ==> v == margin_value(notional, bps),
        r matches Err(e) ==> e@ == "증거금 계산 결과가 지원 범위를 초과했습니다."@,
{
    assert(notional as int * bps as int <= u128::MAX) by (nonlinear_arith)
        requires
            notional <= u64::MAX,
            bps <= u32::MAX,
    ;
    let product: u128 = notional as u128 * bps as u128;
    let quotient = product / 10_000;
    let up: u128 = if product % 10_000 == 0 {
        quotient
    } else {
        quotient + 1
    };
    proof {
        lemma_ceil_div(product as int, 10_000);
    }
    if up > u64::MAX as u128 {
        return Err("증거금 계산 결과가 지원 범위를 초과했습니다.".to_owned());
    }
    Ok(up as u64)
}

/// The price move in the position's favour: up for a long, down for a short.
pub open spec fn signed_delta(side: FuturesSide, entry: u64, price: u64) -> int {
    match side {
        FuturesSide::Long => price - entry,
        FuturesSide::Short => entry - price,
    }
}

pub open spec fn pnl_value(p: FuturesPosition, price: u64) -> int {
    trunc_div(
        signed_delta(p.side, p.entry_price_minor, price) * p.contract_multiplier * p.contracts,
        p.price_scale as int,
    )
}

/// A position's profit at a price: none at its entry price; a long gains when
/// the price rises above entry and loses when it falls below; a short of the
/// same size gains exactly what the long loses.
pub proof fn lemma_pnl_direction(p: FuturesPosition, price: u64)
    requires
        p.price_scale > 0,
    ensures
        pnl_value(p, p.entry_price_minor) == 0,
        p.side == FuturesSide::Long && price >= p.entry_price_minor ==> pnl_value(p, price) >= 0,
        p.side == FuturesSide::Long && price < p.entry_price_minor ==> pnl_value(p, price) <= 0,
        pnl_value(FuturesPosition { side: FuturesSide::Long, ..p }, price) == -pnl_value(
            FuturesPosition { side: FuturesSide::Short, ..p },
            price,
        ),
{
    let m = p.contract_multiplier as int;
    let c = p.contracts as int;
    let s = p.price_scale as int;
    let d = price - p.entry_price_minor;
    assert(0 * m * c == 0) by (nonlinear_arith);
    assert(d >= 0 ==> d * m * c >= 0) by (nonlinear_arith)
        requires
            m >= 0,
            c >= 0,
    ;
    assert(d < 0 ==> d * m * c <= 0) by (nonlinear_arith)
        requires
            m >= 0,
            c >= 0,
    ;
    assert((-d) * m * c == -(d * m * c)) by (nonlinear_arith);
    let a = d * m * c;
    assert(a >= 0 ==> a / s >= 0) by (nonlinear_arith)
        requires
            s > 0,
    ;
    assert(a > 0 ==> (-a) < 0);
}

/// The intermediate products of the profit computation fit in 128 bits, and the
/// price scale is not zero.
pub open spec fn pnl_computable(p: FuturesPosition, price: u64) -> bool {
    &&& p.price_scale != 0
    &&& fits_i128(signed_delta(p.side, p.entry_price_minor, price) * p.contract_multiplier)
    &&& fits_i128(signed_delta(p.side, p.entry_price_minor, price) * p.contract_multiplier * p.contracts)
}

/// The position's profit at `price`, rounded toward zero.
pub fn pnl(position: &FuturesPosition, price: u64) -> (r: Result<i64, String>)
    requires
        pnl_computable(*position, price),
    ensures
        r is Ok <==> fits_i64(pnl_value(*position, price)),
        r matches Ok(v) ==> v == pnl_value(*position, price),
        r matches Err(e) ==> e@ == "평가손익이 지원 범위를 초과했습니다."@,
{
    let favourable = match position.side {
        FuturesSide::Long => price >= position.entry_price_minor,
        FuturesSide::Short => price <= position.entry_price_minor,
    };
    let distance: u64 = if price >= position.entry_price_minor {
        price - position.entry_price_minor
    } else {
        position.entry_price_minor - price
    };
    let ghost delta = signed_delta(position.side, position.entry_price_minor, price);
    assert(delta == if favourable { distance as int } else { -(distance as int) });
    let ghost full = delta * position.contract_multiplier * position.contracts;
    assert(distance as int * position.contract_multiplier as int <= u128::MAX) by (nonlinear_arith)
        requires
            distance <= u64::MAX,
            position.contract_multiplier <= u64::MAX,
    ;
    let step: u128 = distance as u128 * position.contract_multiplier as u128;
    assert(step * position.contracts == if favourable { full } else { -full }) by (nonlinear_arith)
        requires
            delta == if favourable { distance as int } else { -(distance as int) },
            step == distance * position.contract_multiplier,
            full == delta * position.contract_multiplier * position.contracts,
    ;
    assert(step * position.contracts <= i128::MAX as int + 1) by {
        assert(fits_i128(full));
    }
    let magnitude: u128 = step * position.contracts as u128;
    let q = magnitude / position.price_scale as u128;
    assert(q <= magnitude) by {
        vstd::arithmetic::div_mod::lemma_div_is_ordered_by_denominator(magnitude as int, 1, position.price_scale as int);
    }
    let value: i128 = if !favourable && q > 0 {
        -((q - 1) as i128) - 1
    } else {
        if favourable {
            assert(magnitude <= i128::MAX);
        }
        q as i128
    };
    assert(value == pnl_value(*position, price));
    if value < i64::MIN as i128 || value > i64::MAX as i128 {
        return Err("평가손익이 지원 범위를 초과했습니다.".to_owned());
    }
    Ok(value as i64)
}

/// Long and short positions that differ only in side book opposite profits
/// (up to the rounding toward zero, which is symmetric).
pub proof fn lemma_long_short_pnl_symmetric(long: FuturesPosition, short: FuturesPosition, price: u64)
    requires
        long.side == FuturesSide::Long,
        short.side == FuturesSide::Short,
        long.entry_price_minor == short.entry_price_minor,
        long.contract_multiplier == short.contract_multiplier,
        long.contracts == short.contracts,
        long.price_scale == short.price_scale,
        long.price_scale > 0,
    ensures
        pnl_value(long, price) == -pnl_value(short, price),
{
    let d = price - long.entry_price_minor;
    let m = long.contract_multiplier as int;
    let c = long.contracts as int;
    assert((-d) * m * c == -(d * m * c)) by (nonlinear_arith);
}

// ---------------------------------------------------------------- identifiers and requests

/// A ledger identifier: 1 to `max` characters of `[A-Za-z0-9._-]`.
pub open spec fn ident_ok(s: Seq<char>, max: nat) -> bool {
    valid_ident(s, max, false)
}

pub fn valid_identifier_max(value: &str, max: usize) -> (r: bool)
    ensures
        r == ident_ok(value@, max as nat),
{
    valid_identifier(value, max, false)
}

/// An opening request: trimmed ids of at most 96 and 24 characters, a named
/// product of at most 60 characters, 1..=100 contracts, positive price, scale and
/// multiplier, and `0 < maintenance <= initial <= 10_000` bps.
/// The first refusal of an opening request: its ids, then its name, size and
/// prices, then its margin rates.
pub open spec fn open_request_refusal(r: OpenFuturesPositionRequest) -> Option<Seq<char>> {
    if !(ident_ok(trim(r.request_id@), 96) && ident_ok(trim(r.symbol@), 24)) {
        Some("요청 ID와 선물 종목코드는 영문·숫자·-_.만 사용할 수 있습니다."@)
    } else if !(trim(r.name@).len() > 0 && r.name@.len() <= 60 && 0 < r.contracts <= MAX_CONTRACTS_PER_ORDER
        && r.entry_price_minor != 0 && r.price_scale != 0 && r.contract_multiplier != 0) {
        Some("상품명·계약 수·가격·계약승수의 허용 범위를 확인해 주세요."@)
    } else if !(0 < r.initial_margin_bps <= 10_000 && 0 < r.maintenance_margin_bps <= r.initial_margin_bps) {
        Some("유지증거금률은 0보다 크고 개시증거금률 이하여야 합니다."@)
    } else {
        None
    }
}

pub open spec fn open_request_ok(r: OpenFuturesPositionRequest) -> bool {
    &&& ident_ok(trim(r.request_id@), 96)
    &&& ident_ok(trim(r.symbol@), 24)
    &&& trim(r.name@).len() > 0
    &&& r.name@.len() <= 60
    &&& 0 < r.contracts <= MAX_CONTRACTS_PER_ORDER
    &&& r.entry_price_minor != 0
    &&& r.price_scale != 0
    &&& r.contract_multiplier != 0
    &&& 0 < r.initial_margin_bps <= 10_000
    &&& 0 < r.maintenance_margin_bps <= r.initial_margin_bps
}

pub fn validate_open(request: &OpenFuturesPositionRequest) -> (r: Result<(), String>)
    ensures
        r is Ok <==> open_request_ok(*request),
        open_request_ok(*request) <==> open_request_refusal(*request) is None,
        r matches Err(e) ==> open_request_refusal(*request) == Some(e@),
{
    let request_id = trimmed(request.request_id.as_str());
    let symbol = trimmed(request.symbol.as_str());
    if !valid_identifier_max(request_id.as_str(), 96) || !valid_identifier_max(symbol.as_str(), 24) {
        return Err("요청 ID와 선물 종목코드는 영문·숫자·-_.만 사용할 수 있습니다.".to_owned());
    }
    let name = trimmed(request.name.as_str());
    if name.unicode_len() == 0 || request.name.unicode_len() > 60 || request.contracts == 0
        || request.contracts > MAX_CONTRACTS_PER_ORDER || request.entry_price_minor == 0
        || request.price_scale == 0 || request.contract_multiplier == 0 {
        return Err("상품명·계약 수·가격·계약승수의 허용 범위를 확인해 주세요.".to_owned());
    }
    if request.initial_margin_bps == 0 || request.initial_margin_bps > 10_000
        || request.maintenance_margin_bps == 0 || request.maintenance_margin_bps
        > request.initial_margin_bps {
        return Err("유지증거금률은 0보다 크고 개시증거금률 이하여야 합니다.".to_owned());
    }
    Ok(())
}

pub open spec fn lifecycle_key(kind: FuturesLifecycleKind) -> Seq<char> {
    match kind {
        FuturesLifecycleKind::DailySettlement => "daily_settlement"@,
        FuturesLifecycleKind::ExpiryClose => "expiry_close"@,
        FuturesLifecycleKind::ManualRollover => "manual_rollover"@,
    }
}

pub fn lifecycle_kind_db(kind: &FuturesLifecycleKind) -> (r: &'static str)
    ensures
        r@ == lifecycle_key(*kind),
{
    match kind {
        FuturesLifecycleKind::DailySettlement => "daily_settlement",
        FuturesLifecycleKind::ExpiryClose => "expiry_close",
        FuturesLifecycleKind::ManualRollover => "manual_rollover",
    }
}

pub open spec fn variation_value(r: FuturesLifecycleRequest) -> int {
    trunc_div(
        (r.settlement_price_minor - r.previous_settlement_price_minor) * r.contracts * r.contract_multiplier,
        r.price_scale as int,
    )
}

/// The products of the variation-margin computation fit in 128 bits.
pub open spec fn variation_computable(r: FuturesLifecycleRequest) -> bool {
    let delta = r.settlement_price_minor - r.previous_settlement_price_minor;
    fits_i128(delta * r.contracts) && fits_i128(delta * r.contracts * r.contract_multiplier)
}

pub open spec fn lifecycle_fields_ok(r: FuturesLifecycleRequest) -> bool {
    &&& ident_ok(trim(r.event_id@), 128)
    &&& ident_ok(trim(r.request_id@), 128)
    &&& ident_ok(trim(r.contract_symbol@), 64)
    &&& r.previous_settlement_price_minor != 0
    &&& r.settlement_price_minor != 0
    &&& r.contracts != 0
    &&& r.contract_multiplier != 0
    &&& r.price_scale != 0
    &&& r.occurred_at_ms != 0
}

/// A rollover names a new, valid contract; other events name none.
pub open spec fn rollover_ok(r: FuturesLifecycleRequest) -> bool {
    match r.kind {
        FuturesLifecycleKind::ManualRollover => {
            let target = match r.rollover_to_symbol {
                Some(t) => t@,
                None => Seq::<char>::empty(),
            };
            ident_ok(target, 64) && target != r.contract_symbol@
        },
        _ => r.rollover_to_symbol is None,
    }
}

pub open spec fn lifecycle_request_ok(r: FuturesLifecycleRequest) -> bool {
    &&& lifecycle_fields_ok(r)
    &&& !r.automatic
    &&& rollover_ok(r)
    &&& fits_i64(variation_value(r))
}

/// Whether a lifecycle request can be checked without its variation margin
/// overflowing 128 bits: either its fields are refused first, or the product
/// of the settlement move, the contracts and the multiplier fits.
pub fn lifecycle_arithmetic_fits(request: &FuturesLifecycleRequest) -> (r: bool)
    ensures
        r == (lifecycle_fields_ok(*request) ==> variation_computable(*request)),
{
    let event_id = trimmed(request.event_id.as_str());
    let request_id = trimmed(request.request_id.as_str());
    let contract = trimmed(request.contract_symbol.as_str());
    if !valid_identifier_max(event_id.as_str(), 128) || !valid_identifier_max(request_id.as_str(), 128)
        || !valid_identifier_max(contract.as_str(), 64) || request.previous_settlement_price_minor == 0
        || request.settlement_price_minor == 0 || request.contracts == 0 || request.contract_multiplier == 0
        || request.price_scale == 0 || request.occurred_at_ms == 0 {
        return true;
    }
    let delta: i128 = request.settlement_price_minor as i128 - request.previous_settlement_price_minor as i128;
    assert(delta * request.contracts <= i128::MAX && delta * request.contracts >= i128::MIN) by (nonlinear_arith)
        requires
            -0x1_0000_0000_0000_0000 < delta < 0x1_0000_0000_0000_0000,
            request.contracts <= u32::MAX,
    ;
    let step: i128 = delta * request.contracts as i128;
    match step.checked_mul(request.contract_multiplier as i128) {
        Some(_) => true,
        None => false,
    }
}

/// Why a lifecycle event is refused, checked in this order.
pub open spec fn lifecycle_refusal(r: FuturesLifecycleRequest) -> Option<Seq<char>> {
    if !lifecycle_fields_ok(r) {
        Some("선물 수명주기 사건의 식별자·가격·계약·시각을 확인해 주세요."@)
    } else if r.automatic {
        Some("선물 만기 연장과 롤오버는 자동 실행할 수 없습니다. 새 수동 요청으로 승인해야 합니다."@)
    } else if !rollover_ok(r) {
        if r.kind == FuturesLifecycleKind::ManualRollover {
            Some("롤오버는 기존 계약과 다른 신규 계약코드가 필요합니다."@)
        } else {
            Some("신규 계약코드는 수동 롤오버 사건에서만 사용할 수 있습니다."@)
        }
    } else if !fits_i64(variation_value(r)) {
        Some("일일정산 변동증거금이 지원 범위를 초과했습니다."@)
    } else {
        None
    }
}

/// Records a manual lifecycle event with its daily variation margin; automatic
/// expiry extensions and rollovers are refused. Contract codes are upper-cased.
pub fn build_lifecycle_event(request: FuturesLifecycleRequest) -> (r: Result<FuturesLifecycleEvent, String>)
    requires
        lifecycle_fields_ok(request) ==> variation_computable(request),
    ensures
        r is Ok <==> lifecycle_request_ok(request),
        r matches Err(e) ==> lifecycle_refusal(request) == Some(e@),
        r matches Ok(e) ==> {
            &&& e.event_id == request.event_id
            &&& e.request_id == request.request_id
            &&& e.contract_symbol@ == ascii_upper(request.contract_symbol@)
            &&& e.kind == request.kind
            &&& e.previous_settlement_price_minor == request.previous_settlement_price_minor
            &&& e.settlement_price_minor == request.settlement_price_minor
            &&& e.variation_margin_minor == variation_value(request)
            &&& (match request.rollover_to_symbol {
                Some(t) => e.rollover_to_symbol matches Some(u) && u@ == ascii_upper(t@),
                None => e.rollover_to_symbol is None,
            })
            &&& !e.automatic
            &&& e.occurred_at_ms == request.occurred_at_ms
            &&& !e.live_order_allowed
        },
{
    let event_id = trimmed(request.event_id.as_str());
    let request_id = trimmed(request.request_id.as_str());
    let contract = trimmed(request.contract_symbol.as_str());
    if !valid_identifier_max(event_id.as_str(), 128) || !valid_identifier_max(request_id.as_str(), 128)
        || !valid_identifier_max(contract.as_str(), 64) || request.previous_settlement_price_minor
        == 0 || request.settlement_price_minor == 0 || request.contracts == 0
        || request.contract_multiplier == 0 || request.price_scale == 0 || request.occurred_at_ms
        == 0 {
        return Err("선물 수명주기 사건의 식별자·가격·계약·시각을 확인해 주세요.".to_owned());
    }
    if request.automatic {
        return Err("선물 만기 연장과 롤오버는 자동 실행할 수 없습니다. 새 수동 요청으로 승인해야 합니다.".to_owned());
    }
    match request.kind {
        FuturesLifecycleKind::ManualRollover => {
            let target: &str = match &request.rollover_to_symbol {
                Some(t) => t.as_str(),
                None => "",
            };
            proof {
                if request.rollover_to_symbol is None {
                    reveal_strlit("");
                    assert(target@ =~= Seq::<char>::empty());
                }
            }
            if !valid_identifier_max(target, 64) || str_eq(target, request.contract_symbol.as_str()) {
                return Err("롤오버는 기존 계약과 다른 신규 계약코드가 필요합니다.".to_owned());
            }
        },
        _ => {
            if request.rollover_to_symbol.is_some() {
                return Err("신규 계약코드는 수동 롤오버 사건에서만 사용할 수 있습니다.".to_owned());
            }
        },
    }
    let up = request.settlement_price_minor >= request.previous_settlement_price_minor;
    let distance: u64 = if up {
        request.settlement_price_minor - request.previous_settlement_price_minor
    } else {
        request.previous_settlement_price_minor - request.settlement_price_minor
    };
    let ghost delta = request.settlement_price_minor - request.previous_settlement_price_minor;
    let ghost full = delta * request.contracts * request.contract_multiplier;
    assert(distance as int * request.contracts as int <= u128::MAX) by (nonlinear_arith)
        requires
            distance <= u64::MAX,
            request.contracts <= u32::MAX,
    ;
    let step: u128 = distance as u128 * request.contracts as u128;
    assert(step * request.contract_multiplier == if up { full } else { -full }) by (nonlinear_arith)
        requires
            delta == if up { distance as int } else { -(distance as int) },
            step == distance * request.contracts,
            full == delta * request.contracts * request.contract_multiplier,
    ;
    assert(fits_i128(full));
    let magnitude: u128 = step * request.contract_multiplier as u128;
    let q = magnitude / request.price_scale as u128;
    assert(q <= magnitude) by {
        vstd::arithmetic::div_mod::lemma_div_is_ordered_by_denominator(magnitude as int, 1, request.price_scale as int);
    }
    let variation: i128 = if !up && q > 0 {
        -((q - 1) as i128) - 1
    } else {
        if up {
            assert(magnitude <= i128::MAX);
        }
        q as i128
    };
    assert(variation == variation_value(request));
    if variation < i64::MIN as i128 || variation > i64::MAX as i128 {
        return Err("일일정산 변동증거금이 지원 범위를 초과했습니다.".to_owned());
    }
    let rollover_to_symbol = match &request.rollover_to_symbol {
        Some(t) => Some(to_ascii_upper(t.as_str())),
        None => None,
    };
    Ok(
        FuturesLifecycleEvent {
            event_id: request.event_id,
            request_id: request.request_id,
            contract_symbol: to_ascii_upper(request.contract_symbol.as_str()),
            kind: request.kind,
            previous_settlement_price_minor: request.previous_settlement_price_minor,
            settlement_price_minor: request.settlement_price_minor,
            variation_margin_minor: variation as i64,
            rollover_to_symbol,
            automatic: false,
            occurred_at_ms: request.occurred_at_ms,
            live_order_allowed: false,
        },
    )
}

// ---------------------------------------------------------------- ledger replay

pub open spec fn event_request_key(e: FuturesEvent) -> Option<Seq<char>> {
    match e {
        FuturesEvent::AccountOpened { .. } => None,
        FuturesEvent::PositionOpened { request_id, .. } => Some(request_id@),
        FuturesEvent::PositionMarked { request_id, .. } => Some(request_id@),
        FuturesEvent::PositionClosed { request_id, .. } => Some(request_id@),
    }
}

/// The request id an event answers, if it answers one.
pub fn event_request_id(event: &FuturesEvent) -> (r: Option<&str>)
    ensures
        match r {
            Some(s) => event_request_key(*event) == Some(s@),
            None => event_request_key(*event) is None,
        },
{
    match event {
        FuturesEvent::AccountOpened { .. } => None,
        FuturesEvent::PositionOpened { request_id, .. } => Some(request_id.as_str()),
        FuturesEvent::PositionMarked { request_id, .. } => Some(request_id.as_str()),
        FuturesEvent::PositionClosed { request_id, .. } => Some(request_id.as_str()),
    }
}

/// The index of the first position with the given id at or after `k`, or -1.
pub open spec fn find_position(ps: Seq<FuturesPosition>, id: Seq<char>, k: int) -> int
    decreases ps.len() - k,
{
    if k < 0 || k >= ps.len() {
        -1
    } else if ps[k].position_id@ == id {
        k
    } else {
        find_position(ps, id, k + 1)
    }
}

pub type ReplayModel = (int, int, Seq<FuturesPosition>);

/// A position re-marked at `price`: its profit, maintenance requirement and
/// liquidation warning recomputed; `None` when a figure is out of range.
pub open spec fn marked_position(p: FuturesPosition, price: u64, at: u64) -> Option<FuturesPosition> {
    let profit = pnl_value(p, price);
    if !fits_i64(profit) || !notional_ok(price, p.contract_multiplier, p.contracts, p.price_scale) {
        None
    } else {
        let notional = notional_value(price, p.contract_multiplier, p.contracts, p.price_scale) as u64;
        let required = margin_value(notional, p.maintenance_margin_bps);
        if required > u64::MAX {
            None
        } else {
            Some(
                FuturesPosition {
                    mark_price_minor: price,
                    unrealized_pnl_minor: profit as i64,
                    maintenance_required_minor: required as u64,
                    liquidation_warning: p.reserved_margin_minor + profit < required,
                    marked_at_ms: at,
                    ..p
                },
            )
        }
    }
}

/// Why a mark of `p` at `price` cannot be applied: its profit, its notional,
/// then its maintenance margin does not fit.
pub open spec fn mark_refusal(p: FuturesPosition, price: u64) -> Seq<char> {
    if !fits_i64(pnl_value(p, price)) {
        "평가손익이 지원 범위를 초과했습니다."@
    } else if !notional_ok(price, p.contract_multiplier, p.contracts, p.price_scale) {
        notional_refusal(p.price_scale)
    } else {
        "증거금 계산 결과가 지원 범위를 초과했습니다."@
    }
}

/// Why an event cannot be replayed on `s` (where [`replay_step`] gives none).
pub open spec fn step_refusal(s: ReplayModel, e: FuturesEvent) -> Seq<char> {
    let ps = s.2;
    match e {
        FuturesEvent::AccountOpened { .. } => "선물 모의계좌 개설 사건이 중복됐습니다."@,
        FuturesEvent::PositionOpened { .. } => "선물 포지션 식별자가 중복됐습니다."@,
        FuturesEvent::PositionMarked { position_id, mark_price_minor, .. } => {
            let j = find_position(ps, position_id@, 0);
            if j < 0 {
                "존재하지 않는 선물 포지션의 시가평가 사건입니다."@
            } else {
                mark_refusal(ps[j], mark_price_minor)
            }
        },
        FuturesEvent::PositionClosed { position_id, .. } => {
            if find_position(ps, position_id@, 0) < 0 {
                "존재하지 않는 선물 포지션의 청산 사건입니다."@
            } else {
                "평가손익이 지원 범위를 초과했습니다."@
            }
        },
    }
}

/// `e` is the refusal of the first event of the log that cannot be replayed.
pub open spec fn replay_refused_with(events: Seq<FuturesEvent>, e: Seq<char>) -> bool {
    exists|i: int|
        #![trigger replay_prefix(events, i)]
        0 <= i < events.len() && replay_prefix(events, i) is Some && replay_step(
            replay_prefix(events, i)->0,
            events[i],
            i,
        ) is None && e == step_refusal(replay_prefix(events, i)->0, events[i])
}

/// One step of the replay; `index` is the event's position in the log.
pub open spec fn replay_step(s: ReplayModel, e: FuturesEvent, index: int) -> Option<ReplayModel> {
    let (cash, realized, ps) = s;
    match e {
        FuturesEvent::AccountOpened { initial_cash_minor, .. } => if index == 0 {
            Some((initial_cash_minor as int, realized, ps))
        } else {
            None
        },
        FuturesEvent::PositionOpened { position, fee_minor, .. } => if find_position(
            ps,
            position.position_id@,
            0,
        ) >= 0 {
            None
        } else {
            Some((cash - position.reserved_margin_minor - fee_minor, realized - fee_minor, ps.push(position)))
        },
        FuturesEvent::PositionMarked { position_id, mark_price_minor, occurred_at_ms, .. } => {
            let j = find_position(ps, position_id@, 0);
            if j < 0 {
                None
            } else {
                match marked_position(ps[j], mark_price_minor, occurred_at_ms) {
                    None => None,
                    Some(q) => Some((cash, realized, ps.update(j, q))),
                }
            }
        },
        FuturesEvent::PositionClosed { position_id, exit_price_minor, fee_minor, .. } => {
            let j = find_position(ps, position_id@, 0);
            if j < 0 {
                None
            } else {
                let profit = pnl_value(ps[j], exit_price_minor);
                if !fits_i64(profit) {
                    None
                } else {
                    let gain = profit - fee_minor;
                    Some((cash + ps[j].reserved_margin_minor + gain, realized + gain, ps.remove(j)))
                }
            }
        },
    }
}

/// The state after the first `k` events, or `None` when one of them is refused.
pub open spec fn replay_prefix(events: Seq<FuturesEvent>, k: int) -> Option<ReplayModel>
    decreases k,
{
    if k <= 0 {
        Some((0, 0, Seq::empty()))
    } else {
        match replay_prefix(events, k - 1) {
            None => None,
            Some(s) => replay_step(s, events[k - 1], k - 1),
        }
    }
}

/// The event opens or closes the position `id`.
pub open spec fn event_touches(e: FuturesEvent, id: Seq<char>) -> bool {
    match e {
        FuturesEvent::PositionOpened { position, .. } => position.position_id@ == id,
        FuturesEvent::PositionClosed { position_id, .. } => position_id@ == id,
        _ => false,
    }
}

/// No event strictly between `i` and `j` opens or closes position `id`.
pub open spec fn untouched_between(events: Seq<FuturesEvent>, id: Seq<char>, i: int, j: int) -> bool {
    forall|k: int| i < k < j ==> !event_touches(#[trigger] events[k], id)
}

/// The price at which the event values position `id`: a mark or an exit of it.
pub open spec fn priced_event(e: FuturesEvent, id: Seq<char>) -> Option<u64> {
    match e {
        FuturesEvent::PositionMarked { position_id, mark_price_minor, .. } => if position_id@ == id {
            Some(mark_price_minor)
        } else {
            None
        },
        FuturesEvent::PositionClosed { position_id, exit_price_minor, .. } => if position_id@ == id {
            Some(exit_price_minor)
        } else {
            None
        },
        _ => None,
    }
}

/// Each opened position's profit is computable in 128 bits, with a non-zero
/// price scale, at every later mark and exit of that same position while it is
/// open (before the next event that opens or closes its id).
#[verifier::opaque]
pub open spec fn replay_computable(events: Seq<FuturesEvent>) -> bool {
    forall|i: int, j: int|
        0 <= i < j < events.len() && (#[trigger] events[i]) is PositionOpened && untouched_between(
            events,
            events[i]->PositionOpened_position.position_id@,
            i,
            j,
        ) ==> match priced_event(#[trigger] events[j], events[i]->PositionOpened_position.position_id@) {
            Some(price) => pnl_computable(events[i]->PositionOpened_position, price),
            None => true,
        }
}

pub fn copy_position(p: &FuturesPosition) -> (r: FuturesPosition)
    ensures
        r == *p,
{
    FuturesPosition {
        position_id: p.position_id.clone(),
        symbol: p.symbol.clone(),
        name: p.name.clone(),
        kind: p.kind,
        side: p.side,
        contracts: p.contracts,
        entry_price_minor: p.entry_price_minor,
        mark_price_minor: p.mark_price_minor,
        contract_multiplier: p.contract_multiplier,
        price_scale: p.price_scale,
        initial_margin_bps: p.initial_margin_bps,
        maintenance_margin_bps: p.maintenance_margin_bps,
        reserved_margin_minor: p.reserved_margin_minor,
        unrealized_pnl_minor: p.unrealized_pnl_minor,
        maintenance_required_minor: p.maintenance_required_minor,
        liquidation_warning: p.liquidation_warning,
        opened_at_ms: p.opened_at_ms,
        marked_at_ms: p.marked_at_ms,
    }
}

fn find_position_exec(ps: &Vec<FuturesPosition>, id: &str) -> (r: Option<usize>)
    ensures
        match r {
            Some(j) => j == find_position(ps@, id@, 0) && j < ps.len(),
            None => find_position(ps@, id@, 0) == -1,
        },
{
    let mut k: usize = 0;
    while k < ps.len()
        invariant
            k <= ps.len(),
            find_position(ps@, id@, 0) == find_position(ps@, id@, k as int),
        decreases ps.len() - k,
    {
        if str_eq(ps[k].position_id.as_str(), id) {
            return Some(k);
        }
        k = k + 1;
    }
    None
}

/// Positions in the replay before event `n` keep what the log gave them: each
/// came from an opening event of the log, with its id, scale and inputs, only
/// re-marked since, and nothing has opened or closed its id since.
pub open spec fn position_from_log(events: Seq<FuturesEvent>, p: FuturesPosition, n: int) -> bool {
    exists|i: int|
        0 <= i < n && (#[trigger] events[i]) is PositionOpened && {
            let o = events[i]->PositionOpened_position;
            &&& o.position_id@ == p.position_id@
            &&& o.price_scale == p.price_scale
            &&& o.side == p.side
            &&& o.entry_price_minor == p.entry_price_minor
            &&& o.contract_multiplier == p.contract_multiplier
            &&& o.contracts == p.contracts
            &&& untouched_between(events, p.position_id@, i, n)
        }
}

pub open spec fn position_ids_distinct(ps: Seq<FuturesPosition>) -> bool {
    forall|a: int, b: int| 0 <= a < b < ps.len() ==> (#[trigger] ps[a]).position_id@ != (#[trigger] ps[b]).position_id@
}

/// Marking a position at `price` keeps its id, contracts and reserved margin,
/// sets its mark, its unrealised profit at that price and its maintenance
/// requirement at that price, and raises the liquidation warning exactly when
/// the margin balance (reserved margin plus unrealised profit) falls below the
/// maintenance requirement.
pub proof fn lemma_mark_sets_liquidation_warning(p: FuturesPosition, price: u64, at: u64)
    requires
        marked_position(p, price, at) is Some,
    ensures
        ({
            let q = marked_position(p, price, at)->0;
            &&& q.position_id == p.position_id
            &&& q.contracts == p.contracts
            &&& q.reserved_margin_minor == p.reserved_margin_minor
            &&& q.mark_price_minor == price
            &&& q.marked_at_ms == at
            &&& q.unrealized_pnl_minor == pnl_value(p, price)
            &&& q.maintenance_required_minor == margin_value(
                notional_value(price, p.contract_multiplier, p.contracts, p.price_scale) as u64,
                p.maintenance_margin_bps,
            )
            &&& q.liquidation_warning <==> q.reserved_margin_minor + q.unrealized_pnl_minor
                < q.maintenance_required_minor
        }),
{
}

/// After a mark event is replayed, the marked position carries the mark's
/// price, and its liquidation warning is raised exactly when its reserved
/// margin plus unrealised profit is below its maintenance requirement.
pub proof fn lemma_replayed_mark_warning(events: Seq<FuturesEvent>, k: int)
    requires
        0 <= k < events.len(),
        events[k] is PositionMarked,
        replay_prefix(events, k + 1) is Some,
    ensures
        ({
            let ps = (replay_prefix(events, k + 1)->0).2;
            exists|j: int|
                0 <= j < ps.len() && (#[trigger] ps[j]).position_id@ == events[k]->PositionMarked_position_id@
                    && ps[j].mark_price_minor == events[k]->PositionMarked_mark_price_minor
                    && (ps[j].liquidation_warning <==> ps[j].reserved_margin_minor + ps[j].unrealized_pnl_minor
                    < ps[j].maintenance_required_minor)
        }),
{
    let s = replay_prefix(events, k)->0;
    let e = events[k];
    let id = e->PositionMarked_position_id@;
    let price = e->PositionMarked_mark_price_minor;
    let j = find_position(s.2, id, 0);
    assert(j >= 0);
    lemma_find_position_some(s.2, id, 0);
    let q = marked_position(s.2[j], price, e->PositionMarked_occurred_at_ms)->0;
    lemma_mark_sets_liquidation_warning(s.2[j], price, e->PositionMarked_occurred_at_ms);
    let ps = (replay_prefix(events, k + 1)->0).2;
    assert(ps == s.2.update(j, q));
    assert(ps[j] == q);
}

proof fn lemma_find_position_none(ps: Seq<FuturesPosition>, id: Seq<char>, k: int)
    requires
        0 <= k,
        find_position(ps, id, k) == -1,
    ensures
        forall|x: int| k <= x < ps.len() ==> (#[trigger] ps[x]).position_id@ != id,
    decreases ps.len() - k,
{
    if k < ps.len() {
        lemma_find_position_none(ps, id, k + 1);
    }
}

proof fn lemma_find_position_some(ps: Seq<FuturesPosition>, id: Seq<char>, k: int)
    requires
        0 <= k,
        find_position(ps, id, k) >= 0,
    ensures
        k <= find_position(ps, id, k) < ps.len(),
        ps[find_position(ps, id, k)].position_id@ == id,
    decreases ps.len() - k,
{
    if k < ps.len() && ps[k].position_id@ != id {
        lemma_find_position_some(ps, id, k + 1);
    }
}

/// A position still in the replay stays from the log across an event that
/// neither opens nor closes its id.
proof fn lemma_from_log_extends(events: Seq<FuturesEvent>, p: FuturesPosition, n: int)
    requires
        0 <= n < events.len(),
        position_from_log(events, p, n),
        !event_touches(events[n], p.position_id@),
    ensures
        position_from_log(events, p, n + 1),
{
    let i = choose|i: int|
        0 <= i < n && (#[trigger] events[i]) is PositionOpened && {
            let o = events[i]->PositionOpened_position;
            &&& o.position_id@ == p.position_id@
            &&& o.price_scale == p.price_scale
            &&& o.side == p.side
            &&& o.entry_price_minor == p.entry_price_minor
            &&& o.contract_multiplier == p.contract_multiplier
            &&& o.contracts == p.contracts
            &&& untouched_between(events, p.position_id@, i, n)
        };
    assert(untouched_between(events, p.position_id@, i, n + 1));
}

/// The replayed positions before event `n`: each from the log, ids distinct.
#[verifier::opaque]
pub open spec fn positions_from_log(events: Seq<FuturesEvent>, ps: Seq<FuturesPosition>, n: int) -> bool {
    &&& forall|k: int| 0 <= k < ps.len() ==> position_from_log(events, #[trigger] ps[k], n)
    &&& position_ids_distinct(ps)
}

proof fn lemma_positions_from_log_at(events: Seq<FuturesEvent>, ps: Seq<FuturesPosition>, n: int, k: int)
    requires
        positions_from_log(events, ps, n),
        0 <= k < ps.len(),
    ensures
        position_from_log(events, ps[k], n),
{
    reveal(positions_from_log);
}

proof fn lemma_positions_untouched_step(events: Seq<FuturesEvent>, ps: Seq<FuturesPosition>, n: int)
    requires
        0 <= n < events.len(),
        positions_from_log(events, ps, n),
        events[n] is AccountOpened || events[n] is PositionMarked,
    ensures
        positions_from_log(events, ps, n + 1),
{
    reveal(positions_from_log);
    assert forall|k: int| 0 <= k < ps.len() implies position_from_log(events, #[trigger] ps[k], n + 1) by {
        lemma_from_log_extends(events, ps[k], n);
    }
}

proof fn lemma_positions_open_step(events: Seq<FuturesEvent>, ps: Seq<FuturesPosition>, n: int)
    requires
        0 <= n < events.len(),
        positions_from_log(events, ps, n),
        events[n] is PositionOpened,
        find_position(ps, events[n]->PositionOpened_position.position_id@, 0) == -1,
    ensures
        positions_from_log(events, ps.push(events[n]->PositionOpened_position), n + 1),
{
    reveal(positions_from_log);
    let np = events[n]->PositionOpened_position;
    let ps2 = ps.push(np);
    lemma_find_position_none(ps, np.position_id@, 0);
    assert forall|k: int| 0 <= k < ps2.len() implies position_from_log(events, #[trigger] ps2[k], n + 1) by {
        if k == ps.len() {
            assert(untouched_between(events, np.position_id@, n, n + 1));
            assert(events[n] is PositionOpened);
        } else {
            assert(ps2[k] == ps[k]);
            assert(ps[k].position_id@ != np.position_id@);
            lemma_from_log_extends(events, ps[k], n);
        }
    }
    assert forall|a: int, b: int| 0 <= a < b < ps2.len() implies (#[trigger] ps2[a]).position_id@
        != (#[trigger] ps2[b]).position_id@ by {
        assert(ps2[a] == ps[a]);
        if b < ps.len() {
            assert(ps2[b] == ps[b]);
        }
    }
}

proof fn lemma_positions_mark_step(events: Seq<FuturesEvent>, ps: Seq<FuturesPosition>, n: int, j: int, q: FuturesPosition)
    requires
        0 <= n < events.len(),
        positions_from_log(events, ps, n),
        events[n] is PositionMarked,
        0 <= j < ps.len(),
        q.position_id == ps[j].position_id,
        q.price_scale == ps[j].price_scale,
        q.side == ps[j].side,
        q.entry_price_minor == ps[j].entry_price_minor,
        q.contract_multiplier == ps[j].contract_multiplier,
        q.contracts == ps[j].contracts,
    ensures
        positions_from_log(events, ps.update(j, q), n + 1),
{
    reveal(positions_from_log);
    let ps2 = ps.update(j, q);
    assert forall|k: int| 0 <= k < ps2.len() implies position_from_log(events, #[trigger] ps2[k], n + 1) by {
        lemma_from_log_extends(events, ps[k], n);
        if k == j {
            let i = choose|i: int|
                0 <= i < n + 1 && (#[trigger] events[i]) is PositionOpened && {
                    let o = events[i]->PositionOpened_position;
                    &&& o.position_id@ == ps[k].position_id@
                    &&& o.price_scale == ps[k].price_scale
                    &&& o.side == ps[k].side
                    &&& o.entry_price_minor == ps[k].entry_price_minor
                    &&& o.contract_multiplier == ps[k].contract_multiplier
                    &&& o.contracts == ps[k].contracts
                    &&& untouched_between(events, ps[k].position_id@, i, n + 1)
                };
            assert(events[i] is PositionOpened);
        }
    }
    assert forall|a: int, b: int| 0 <= a < b < ps2.len() implies (#[trigger] ps2[a]).position_id@
        != (#[trigger] ps2[b]).position_id@ by {
        assert(ps2[a].position_id == ps[a].position_id);
        assert(ps2[b].position_id == ps[b].position_id);
    }
}

proof fn lemma_positions_close_step(events: Seq<FuturesEvent>, ps: Seq<FuturesPosition>, n: int, j: int)
    requires
        0 <= n < events.len(),
        positions_from_log(events, ps, n),
        events[n] matches FuturesEvent::PositionClosed { position_id, .. } && position_id@ == ps[j].position_id@,
        0 <= j < ps.len(),
    ensures
        positions_from_log(events, ps.remove(j), n + 1),
{
    reveal(positions_from_log);
    let ps2 = ps.remove(j);
    assert forall|k: int| 0 <= k < ps2.len() implies position_from_log(events, #[trigger] ps2[k], n + 1) by {
        let k0 = if k < j { k } else { k + 1 };
        assert(ps2[k] == ps[k0]);
        assert(ps[k0].position_id@ != ps[j].position_id@);
        lemma_from_log_extends(events, ps[k0], n);
    }
    assert forall|a: int, b: int| 0 <= a < b < ps2.len() implies (#[trigger] ps2[a]).position_id@
        != (#[trigger] ps2[b]).position_id@ by {
        let a0 = if a < j { a } else { a + 1 };
        let b0 = if b < j { b } else { b + 1 };
        assert(ps2[a] == ps[a0] && ps2[b] == ps[b0]);
    }
}

/// Replays the futures ledger: the opening event sets the cash, an opening
/// reserves margin and pays its fee, a mark re-values a position and raises the
/// liquidation warning below maintenance margin, and a close releases the margin
/// with the realised profit less fees.
#[verifier::spinoff_prover]
pub fn replay(events: &Vec<FuturesEvent>) -> (r: Result<ReplayState, String>)
    requires
        events.len() <= u32::MAX,
        replay_computable(events@),
    ensures
        match replay_prefix(events@, events.len() as int) {
            None => r matches Err(e) && replay_refused_with(events@, e@),
            Some((cash, realized, ps)) => r matches Ok(st) && st.available_cash_minor == cash
                && st.realized_pnl_minor == realized && st.positions@ == ps,
        },
{
    let mut cash: i128 = 0;
    let mut realized: i128 = 0;
    let mut positions: Vec<FuturesPosition> = Vec::new();
    let mut i: usize = 0;
    proof {
        reveal(positions_from_log);
    }
    while i < events.len()
        invariant
            i <= events.len() <= u32::MAX,
            replay_computable(events@),
            replay_prefix(events@, i as int) == Some((cash as int, realized as int, positions@)),
            -(i as int) * 0x4_0000_0000_0000_0000 <= cash <= (i as int) * 0x4_0000_0000_0000_0000,
            -(i as int) * 0x4_0000_0000_0000_0000 <= realized <= (i as int) * 0x4_0000_0000_0000_0000,
            positions_from_log(events@, positions@, i as int),
        decreases events.len() - i,
    {
        let ghost before = (cash as int, realized as int, positions@);
        match &events[i] {
            FuturesEvent::AccountOpened { initial_cash_minor, .. } => {
                if i != 0 {
                    proof {
                        lemma_replay_none_extends(events@, i as int + 1);
                        lemma_replay_refused(events@, i as int, "선물 모의계좌 개설 사건이 중복됐습니다."@);
                    }
                    return Err("선물 모의계좌 개설 사건이 중복됐습니다.".to_owned());
                }
                cash = *initial_cash_minor as i128;
                proof {
                    lemma_positions_untouched_step(events@, positions@, i as int);
                }
            },
            FuturesEvent::PositionOpened { position, fee_minor, .. } => {
                if find_position_exec(&positions, position.position_id.as_str()).is_some() {
                    proof {
                        lemma_replay_none_extends(events@, i as int + 1);
                        lemma_replay_refused(events@, i as int, "선물 포지션 식별자가 중복됐습니다."@);
                    }
                    return Err("선물 포지션 식별자가 중복됐습니다.".to_owned());
                }
                cash = cash - (position.reserved_margin_minor as i128 + *fee_minor as i128);
                realized = realized - *fee_minor as i128;
                positions.push(copy_position(position));
                proof {
                    lemma_positions_open_step(events@, before.2, i as int);
                }
            },
            FuturesEvent::PositionMarked { position_id, mark_price_minor, occurred_at_ms, .. } => {
                let found = find_position_exec(&positions, position_id.as_str());
                let j = match found {
                    Some(j) => j,
                    None => {
                        proof {
                            lemma_replay_none_extends(events@, i as int + 1);
                            lemma_replay_refused(events@, i as int, "존재하지 않는 선물 포지션의 시가평가 사건입니다."@);
                        }
                        return Err("존재하지 않는 선물 포지션의 시가평가 사건입니다.".to_owned());
                    },
                };
                proof {
                    lemma_find_position_some(positions@, position_id@, 0);
                    lemma_positions_from_log_at(events@, positions@, i as int, j as int);
                }
                let step = mark_position(&positions[j], *mark_price_minor, *occurred_at_ms, Ghost(events@), Ghost(i as int));
                let updated = match step {
                    Ok(p) => p,
                    Err(e) => {
                        proof {
                            lemma_replay_none_extends(events@, i as int + 1);
                            lemma_replay_refused(events@, i as int, e@);
                        }
                        return Err(e);
                    },
                };
                positions.set(j, updated);
                proof {
                    lemma_positions_mark_step(events@, before.2, i as int, j as int, updated);
                }
            },
            FuturesEvent::PositionClosed { position_id, exit_price_minor, fee_minor, .. } => {
                let found = find_position_exec(&positions, position_id.as_str());
                let j = match found {
                    Some(j) => j,
                    None => {
                        proof {
                            lemma_replay_none_extends(events@, i as int + 1);
                            lemma_replay_refused(events@, i as int, "존재하지 않는 선물 포지션의 청산 사건입니다."@);
                        }
                        return Err("존재하지 않는 선물 포지션의 청산 사건입니다.".to_owned());
                    },
                };
                proof {
                    lemma_find_position_some(positions@, position_id@, 0);
                    lemma_positions_from_log_at(events@, positions@, i as int, j as int);
                    lemma_position_computable(events@, positions@[j as int], i as int);
                }
                let profit = match pnl(&positions[j], *exit_price_minor) {
                    Ok(v) => v,
                    Err(e) => {
                        proof {
                            lemma_replay_none_extends(events@, i as int + 1);
                            lemma_replay_refused(events@, i as int, e@);
                        }
                        return Err(e);
                    },
                };
                let position = positions.remove(j);
                let gain: i128 = profit as i128 - *fee_minor as i128;
                cash = cash + (position.reserved_margin_minor as i128 + gain);
                realized = realized + gain;
                proof {
                    lemma_positions_close_step(events@, before.2, i as int, j as int);
                }
            },
        }
        i = i + 1;
    }
    Ok(ReplayState { available_cash_minor: cash, realized_pnl_minor: realized, positions })
}

proof fn lemma_replay_refused(events: Seq<FuturesEvent>, i: int, e: Seq<char>)
    requires
        0 <= i < events.len(),
        replay_prefix(events, i) is Some,
        replay_step(replay_prefix(events, i)->0, events[i], i) is None,
        e == step_refusal(replay_prefix(events, i)->0, events[i]),
    ensures
        replay_refused_with(events, e),
{
}

proof fn lemma_replay_none_extends(events: Seq<FuturesEvent>, k: int)
    requires
        0 <= k <= events.len(),
        replay_prefix(events, k) is None,
    ensures
        replay_prefix(events, events.len() as int) is None,
    decreases events.len() - k,
{
    if k < events.len() {
        lemma_replay_none_extends(events, k + 1);
    }
}

proof fn lemma_position_computable(events: Seq<FuturesEvent>, p: FuturesPosition, n: int)
    requires
        replay_computable(events),
        position_from_log(events, p, n),
        0 <= n < events.len(),
    ensures
        priced_event(events[n], p.position_id@) matches Some(price) ==> pnl_computable(p, price),
{
    reveal(replay_computable);
    let i = choose|i: int|
        0 <= i < n && (#[trigger] events[i]) is PositionOpened && {
            let o = events[i]->PositionOpened_position;
            &&& o.position_id@ == p.position_id@
            &&& o.price_scale == p.price_scale
            &&& o.side == p.side
            &&& o.entry_price_minor == p.entry_price_minor
            &&& o.contract_multiplier == p.contract_multiplier
            &&& o.contracts == p.contracts
            &&& untouched_between(events, p.position_id@, i, n)
        };
    assert(events[i] is PositionOpened);
    let _ = events[n];
}

/// Re-marks one position (the mark step of the replay).
fn mark_position(
    p: &FuturesPosition,
    price: u64,
    at: u64,
    Ghost(events): Ghost<Seq<FuturesEvent>>,
    Ghost(j): Ghost<int>,
) -> (r: Result<FuturesPosition, String>)
    requires
        replay_computable(events),
        0 <= j < events.len(),
        position_from_log(events, *p, j),
        priced_event(events[j], p.position_id@) == Some(price),
    ensures
        match marked_position(*p, price, at) {
            Some(q) => r == Ok::<FuturesPosition, String>(q),
            None => r matches Err(e) && e@ == mark_refusal(*p, price),
        },
        r matches Ok(q) ==> (q.liquidation_warning <==> q.reserved_margin_minor + q.unrealized_pnl_minor
            < q.maintenance_required_minor),
{
    proof {
        lemma_position_computable(events, *p, j);
    }
    let profit = pnl(p, price)?;
    let notional = checked_notional(price, p.contract_multiplier, p.contracts, p.price_scale)?;
    let required = margin(notional, p.maintenance_margin_bps)?;
    let balance: i128 = p.reserved_margin_minor as i128 + profit as i128;
    let mut q = copy_position(p);
    q.mark_price_minor = price;
    q.unrealized_pnl_minor = profit;
    q.maintenance_required_minor = required;
    q.liquidation_warning = balance < required as i128;
    q.marked_at_ms = at;
    Ok(q)
}

pub open spec fn sum_reserved(ps: Seq<FuturesPosition>) -> int
    decreases ps.len(),
{
    if ps.len() == 0 {
        0
    } else {
        sum_reserved(ps.drop_last()) + ps.last().reserved_margin_minor
    }
}

pub open spec fn sum_unrealized(ps: Seq<FuturesPosition>) -> int
    decreases ps.len(),
{
    if ps.len() == 0 {
        0
    } else {
        sum_unrealized(ps.drop_last()) + ps.last().unrealized_pnl_minor
    }
}

pub open spec fn running_sums_fit(ps: Seq<FuturesPosition>) -> bool {
    forall|k: int| 0 < k <= ps.len() ==> #[trigger] sum_reserved(ps.subrange(0, k)) <= u64::MAX
        && fits_i64(sum_unrealized(ps.subrange(0, k)))
}

proof fn lemma_reserved_prefix_le(ps: Seq<FuturesPosition>, k: int)
    requires
        0 <= k <= ps.len(),
    ensures
        sum_reserved(ps.subrange(0, k)) <= sum_reserved(ps),
    decreases ps.len() - k,
{
    if k < ps.len() {
        lemma_reserved_prefix_le(ps, k + 1);
        assert(ps.subrange(0, k + 1).drop_last() =~= ps.subrange(0, k));
    } else {
        assert(ps.subrange(0, k) =~= ps);
    }
}

/// Why a replayed ledger has no snapshot: the reserved margins' total, a
/// running total of the unrealised profits, the cash, the equity, then the
/// realised profit does not fit.
pub open spec fn snapshot_refusal(cash: int, realized: int, ps: Seq<FuturesPosition>) -> Seq<char> {
    if sum_reserved(ps) > u64::MAX {
        "예약 증거금 합계가 범위를 초과했습니다."@
    } else if exists|k: int| 0 < k <= ps.len() && !fits_i64(#[trigger] sum_unrealized(ps.subrange(0, k))) {
        "미실현손익 합계가 범위를 초과했습니다."@
    } else if !fits_i64(cash) {
        "가용현금이 범위를 초과했습니다."@
    } else if !fits_i64(cash + sum_reserved(ps) + sum_unrealized(ps)) {
        "계좌자산이 범위를 초과했습니다."@
    } else {
        "실현손익이 범위를 초과했습니다."@
    }
}

/// The account snapshot from the replayed ledger: cash, margin, equity and
/// profits in KRW, with live orders never enabled.
pub fn snapshot(events: &Vec<FuturesEvent>) -> (r: Result<FuturesPaperSnapshot, String>)
    requires
        events.len() <= u32::MAX,
        replay_computable(events@),
    ensures
        replay_prefix(events@, events.len() as int) is None ==> (r matches Err(e) && replay_refused_with(events@, e@)),
        replay_prefix(events@, events.len() as int) matches Some((cash, realized, ps)) ==> (r matches Err(e) ==> e@
            == snapshot_refusal(cash, realized, ps)),
        r matches Ok(s) ==> {
            let (cash, realized, ps) = replay_prefix(events@, events.len() as int)->0;
            &&& s.positions@ == ps
            &&& s.available_cash_minor == cash
            &&& s.realized_pnl_minor == realized
            &&& s.reserved_margin_minor == sum_reserved(ps)
            &&& s.unrealized_pnl_minor == sum_unrealized(ps)
            &&& s.equity_minor == cash + sum_reserved(ps) + sum_unrealized(ps)
            &&& s.event_count == events.len()
            &&& s.initial_cash_minor == INITIAL_CASH_MINOR
            &&& s.currency@ == "KRW"@
            &&& !s.live_order_enabled
        },
        replay_prefix(events@, events.len() as int) matches Some((cash, realized, ps)) ==> (r is Ok
            <==> (running_sums_fit(ps) && fits_i64(cash) && fits_i64(realized) && fits_i64(
            cash + sum_reserved(ps) + sum_unrealized(ps),
        ))),
{
    let state = replay(events)?;
    let mut reserved: u64 = 0;
    let mut k: usize = 0;
    let ghost ps = state.positions@;
    // The reserved margins are totalled over every position first.
    while k < state.positions.len()
        invariant
            k <= state.positions.len(),
            ps == state.positions@,
            replay_prefix(events@, events.len() as int) == Some(
                (state.available_cash_minor as int, state.realized_pnl_minor as int, ps),
            ),
            reserved == sum_reserved(ps.subrange(0, k as int)),
            forall|m: int| 0 < m <= k ==> #[trigger] sum_reserved(ps.subrange(0, m)) <= u64::MAX,
        decreases state.positions.len() - k,
    {
        let ghost next = ps.subrange(0, k as int + 1);
        assert(next.drop_last() =~= ps.subrange(0, k as int));
        let item = &state.positions[k];
        assert(next.last() == *item);
        if reserved > u64::MAX - item.reserved_margin_minor {
            proof {
                assert(sum_reserved(ps.subrange(0, k as int + 1)) > u64::MAX);
                lemma_reserved_prefix_le(ps, k as int + 1);
            }
            return Err("예약 증거금 합계가 범위를 초과했습니다.".to_owned());
        }
        reserved = reserved + item.reserved_margin_minor;
        k = k + 1;
    }
    assert(ps.subrange(0, ps.len() as int) =~= ps);
    let mut unrealized: i64 = 0;
    let mut k: usize = 0;
    while k < state.positions.len()
        invariant
            k <= state.positions.len(),
            ps == state.positions@,
            replay_prefix(events@, events.len() as int) == Some(
                (state.available_cash_minor as int, state.realized_pnl_minor as int, ps),
            ),
            reserved == sum_reserved(ps),
            sum_reserved(ps) <= u64::MAX,
            forall|m: int| 0 < m <= ps.len() ==> #[trigger] sum_reserved(ps.subrange(0, m)) <= u64::MAX,
            unrealized == sum_unrealized(ps.subrange(0, k as int)),
            forall|m: int| 0 < m <= k ==> fits_i64(#[trigger] sum_unrealized(ps.subrange(0, m))),
        decreases state.positions.len() - k,
    {
        let ghost next = ps.subrange(0, k as int + 1);
        assert(next.drop_last() =~= ps.subrange(0, k as int));
        let item = &state.positions[k];
        assert(next.last() == *item);
        let sum: i128 = unrealized as i128 + item.unrealized_pnl_minor as i128;
        if sum < i64::MIN as i128 || sum > i64::MAX as i128 {
            assert(!fits_i64(sum_unrealized(ps.subrange(0, k as int + 1))));
            assert(sum_reserved(ps.subrange(0, k as int + 1)) <= u64::MAX);
            assert(!running_sums_fit(ps));
            return Err("미실현손익 합계가 범위를 초과했습니다.".to_owned());
        }
        unrealized = sum as i64;
        k = k + 1;
    }
    assert(ps.subrange(0, ps.len() as int) =~= ps);
    if state.available_cash_minor < i64::MIN as i128 || state.available_cash_minor > i64::MAX as i128 {
        return Err("가용현금이 범위를 초과했습니다.".to_owned());
    }
    let equity: i128 = state.available_cash_minor + reserved as i128 + unrealized as i128;
    if equity < i64::MIN as i128 || equity > i64::MAX as i128 {
        return Err("계좌자산이 범위를 초과했습니다.".to_owned());
    }
    if state.realized_pnl_minor < i64::MIN as i128 || state.realized_pnl_minor > i64::MAX as i128 {
        return Err("실현손익이 범위를 초과했습니다.".to_owned());
    }
    Ok(
        FuturesPaperSnapshot {
            currency: "KRW".to_owned(),
            initial_cash_minor: INITIAL_CASH_MINOR,
            available_cash_minor: state.available_cash_minor as i64,
            equity_minor: equity as i64,
            reserved_margin_minor: reserved,
            unrealized_pnl_minor: unrealized,
            realized_pnl_minor: state.realized_pnl_minor as i64,
            positions: state.positions,
            event_count: events.len(),
            live_order_enabled: false,
            warning: "Investa 내부 선물 sandbox입니다. 실제 거래소·증권사 주문은 전송되지 않습니다.".to_owned(),
        },
    )
}


// ---------------------------------------------------------------- the log's arithmetic bounds

fn pnl_computable_exec(p: &FuturesPosition, price: u64) -> (r: bool)
    ensures
        r == pnl_computable(*p, price),
{
    if p.price_scale == 0 {
        return false;
    }
    let up = match p.side {
        FuturesSide::Long => price >= p.entry_price_minor,
        FuturesSide::Short => price <= p.entry_price_minor,
    };
    let distance: u64 = if price >= p.entry_price_minor {
        price - p.entry_price_minor
    } else {
        p.entry_price_minor - price
    };
    let ghost delta = signed_delta(p.side, p.entry_price_minor, price);
    assert(delta == if up { distance as int } else { -(distance as int) });
    assert(distance as int * p.contract_multiplier as int <= u128::MAX) by (nonlinear_arith)
        requires
            distance <= u64::MAX,
            p.contract_multiplier <= u64::MAX,
    ;
    let step: u128 = distance as u128 * p.contract_multiplier as u128;
    assert(delta * p.contract_multiplier == if up { step as int } else { -(step as int) }) by (nonlinear_arith)
        requires
            delta == if up { distance as int } else { -(distance as int) },
            step == distance * p.contract_multiplier,
    ;
    let limit: u128 = if up {
        0x7fff_ffff_ffff_ffff_ffff_ffff_ffff_ffff
    } else {
        0x8000_0000_0000_0000_0000_0000_0000_0000
    };
    if step > limit {
        return false;
    }
    let c = p.contracts as u128;
    assert(delta * p.contract_multiplier * p.contracts == if up { step * c } else { -(step * c) })
        by (nonlinear_arith)
        requires
            delta * p.contract_multiplier == if up { step as int } else { -(step as int) },
            c == p.contracts,
    ;
    if c != 0 && step > limit / c {
        assert(step * c > limit) by (nonlinear_arith)
            requires
                c > 0,
                step > limit / c,
        ;
        return false;
    }
    assert(step * c <= limit) by (nonlinear_arith)
        requires
            c == 0 || step <= limit / c,
    {
        if c > 0 {
            vstd::arithmetic::div_mod::lemma_fundamental_div_mod(limit as int, c as int);
        }
    }
    true
}

/// Whether the log keeps within the bounds its replay needs (see
/// [`replay_computable`]); a log that does not cannot be replayed.
pub fn log_computable(events: &Vec<FuturesEvent>) -> (r: bool)
    ensures
        r == replay_computable(events@),
{
    reveal(replay_computable);
    let n = events.len();
    let mut i: usize = 0;
    while i < n
        invariant
            n == events@.len(),
            i <= n,
            forall|a: int, j: int|
                0 <= a < i && a < j < n && (#[trigger] events@[a]) is PositionOpened && untouched_between(
                    events@,
                    events@[a]->PositionOpened_position.position_id@,
                    a,
                    j,
                ) ==> match priced_event(#[trigger] events@[j], events@[a]->PositionOpened_position.position_id@) {
                    Some(price) => pnl_computable(events@[a]->PositionOpened_position, price),
                    None => true,
                },
        decreases n - i,
    {
        if let FuturesEvent::PositionOpened { position, .. } = &events[i] {
            let ghost id = position.position_id@;
            let mut j: usize = i + 1;
            while j < n
                invariant
                    n == events@.len(),
                    i < n,
                    i < j <= n,
                    events@[i as int] is PositionOpened,
                    events@[i as int]->PositionOpened_position == *position,
                    id == position.position_id@,
                    j < n ==> untouched_between(events@, id, i as int, j as int),
                    forall|jj: int|
                        i < jj < j && untouched_between(events@, id, i as int, jj) ==> match priced_event(
                            #[trigger] events@[jj],
                            id,
                        ) {
                            Some(price) => pnl_computable(*position, price),
                            None => true,
                        },
                decreases n - j,
            {
                let ghost at = j as int;
                let (price, touches) = match &events[j] {
                    FuturesEvent::PositionMarked { position_id, mark_price_minor, .. } => {
                        if str_eq(position_id.as_str(), position.position_id.as_str()) {
                            (Some(*mark_price_minor), false)
                        } else {
                            (None, false)
                        }
                    },
                    FuturesEvent::PositionClosed { position_id, exit_price_minor, .. } => {
                        if str_eq(position_id.as_str(), position.position_id.as_str()) {
                            (Some(*exit_price_minor), true)
                        } else {
                            (None, false)
                        }
                    },
                    FuturesEvent::PositionOpened { position: other, .. } => {
                        (None, str_eq(other.position_id.as_str(), position.position_id.as_str()))
                    },
                    FuturesEvent::AccountOpened { .. } => (None, false),
                };
                assert(price == priced_event(events@[at], id));
                assert(touches == event_touches(events@[at], id));
                if let Some(pr) = price {
                    if !pnl_computable_exec(position, pr) {
                        assert(!replay_computable(events@)) by {
                            reveal(replay_computable);
                            assert(events@[i as int] is PositionOpened);
                            assert(untouched_between(events@, id, i as int, at));
                            assert(priced_event(events@[at], id) == Some(pr));
                        }
                        return false;
                    }
                }
                if touches {
                    proof {
                        assert forall|jj: int|
                            i < jj < n && untouched_between(events@, id, i as int, jj) implies match priced_event(
                                #[trigger] events@[jj],
                                id,
                            ) {
                                Some(price) => pnl_computable(*position, price),
                                None => true,
                            } by {
                            if jj > at {
                                assert(event_touches(events@[at], id));
                            }
                        }
                    }
                    j = n;
                } else {
                    assert(untouched_between(events@, id, i as int, at + 1)) by {
                        assert(!event_touches(events@[at], id));
                    }
                    j = j + 1;
                }
            }
        }
        i = i + 1;
    }
    true
}

// ---------------------------------------------------------------- planning ledger events

/// A request that an event of the log already answers.
pub open spec fn answered(events: Seq<FuturesEvent>, request_id: Seq<char>) -> bool {
    exists|i: int| 0 <= i < events.len() && event_request_key(#[trigger] events[i]) == Some(request_id)
}

fn answered_exec(events: &Vec<FuturesEvent>, request_id: &str) -> (r: bool)
    ensures
        r == answered(events@, request_id@),
{
    let mut i: usize = 0;
    while i < events.len()
        invariant
            i <= events@.len(),
            forall|k: int| 0 <= k < i ==> event_request_key(#[trigger] events@[k]) != Some(request_id@),
        decreases events.len() - i,
    {
        match event_request_id(&events[i]) {
            Some(id) => {
                if str_eq(id, request_id) {
                    return true;
                }
            },
            None => {},
        }
        i = i + 1;
    }
    false
}

/// The position the opening request creates, at time `now`.
pub open spec fn opened_position(p: FuturesPosition, r: OpenFuturesPositionRequest, notional: int, now: u64) -> bool {
    &&& p.position_id@ == "futures-"@ + r.request_id@
    &&& p.symbol@ == ascii_upper(trim(r.symbol@))
    &&& p.name@ == trim(r.name@)
    &&& p.kind == r.kind
    &&& p.side == r.side
    &&& p.contracts == r.contracts
    &&& p.entry_price_minor == r.entry_price_minor
    &&& p.mark_price_minor == r.entry_price_minor
    &&& p.contract_multiplier == r.contract_multiplier
    &&& p.price_scale == r.price_scale
    &&& p.initial_margin_bps == r.initial_margin_bps
    &&& p.maintenance_margin_bps == r.maintenance_margin_bps
    &&& p.reserved_margin_minor == ceil_div(notional * r.initial_margin_bps, 10_000)
    &&& p.unrealized_pnl_minor == 0
    &&& p.maintenance_required_minor == ceil_div(notional * r.maintenance_margin_bps, 10_000)
    &&& !p.liquidation_warning
    &&& p.opened_at_ms == now
    &&& p.marked_at_ms == now
}

/// The maintenance margin never exceeds the initial one.
proof fn lemma_margin_monotone(notional: u64, low: u32, high: u32)
    requires
        low <= high,
    ensures
        margin_value(notional, low) <= margin_value(notional, high),
{
    assert(notional * low <= notional * high) by (nonlinear_arith)
        requires
            low <= high,
    ;
    let a = notional * low;
    let b = notional * high;
    assert(ceil_div(a, 10_000) <= ceil_div(b, 10_000)) by {
        vstd::arithmetic::div_mod::lemma_div_is_ordered(a + 9_999, b + 9_999, 10_000);
    }
}

/// The event an opening request adds to the log: none when the log already
/// answers it; else the position, once its notional and margin are computable
/// and the available cash covers the initial margin and the fee.
pub fn plan_open(request: &OpenFuturesPositionRequest, events: &Vec<FuturesEvent>, now_ms: u64) -> (r: Result<
    Option<FuturesEvent>,
    String,
>)
    requires
        events.len() <= u32::MAX,
        replay_computable(events@),
    ensures
        !open_request_ok(*request) ==> (r matches Err(e) && open_request_refusal(*request) == Some(e@)),
        open_request_ok(*request) && answered(events@, request.request_id@) ==> r matches Ok(None),
        open_request_ok(*request) && !answered(events@, request.request_id@) ==> match replay_prefix(
            events@,
            events.len() as int,
        ) {
            None => r matches Err(e) && replay_refused_with(events@, e@),
            Some((cash, _realized, _ps)) => {
                let notional = notional_value(
                    request.entry_price_minor,
                    request.contract_multiplier,
                    request.contracts,
                    request.price_scale,
                );
                if !notional_ok(
                    request.entry_price_minor,
                    request.contract_multiplier,
                    request.contracts,
                    request.price_scale,
                ) {
                    r matches Err(e) && e@ == notional_refusal(request.price_scale)
                } else if ceil_div(notional * request.initial_margin_bps, 10_000) > u64::MAX {
                    r matches Err(e) && e@ == "증거금 계산 결과가 지원 범위를 초과했습니다."@
                } else if cash < ceil_div(notional * request.initial_margin_bps, 10_000) + request.fee_minor {
                    r matches Err(e) && e@ == "선물 모의계좌의 가용현금이 개시증거금과 수수료보다 부족합니다."@
                } else {
                    r matches Ok(Some(FuturesEvent::PositionOpened { request_id, position, fee_minor, occurred_at_ms }))
                        && request_id@ == request.request_id@ && fee_minor == request.fee_minor && occurred_at_ms
                        == now_ms && opened_position(position, *request, notional, now_ms)
                }
            },
        },
{
    validate_open(request)?;
    if answered_exec(events, request.request_id.as_str()) {
        return Ok(None);
    }
    let state = replay(events)?;
    let notional = checked_notional(
        request.entry_price_minor,
        request.contract_multiplier,
        request.contracts,
        request.price_scale,
    )?;
    let required_margin = margin(notional, request.initial_margin_bps)?;
    let required_cash: i128 = required_margin as i128 + request.fee_minor as i128;
    if state.available_cash_minor < required_cash {
        return Err("선물 모의계좌의 가용현금이 개시증거금과 수수료보다 부족합니다.".to_owned());
    }
    proof {
        lemma_margin_monotone(notional, request.maintenance_margin_bps, request.initial_margin_bps);
    }
    let maintenance = margin(notional, request.maintenance_margin_bps)?;
    Ok(
        Some(
            FuturesEvent::PositionOpened {
                request_id: copy_text(&request.request_id),
                fee_minor: request.fee_minor,
                occurred_at_ms: now_ms,
                position: FuturesPosition {
                    position_id: crate::text::concat_str("futures-", request.request_id.as_str()),
                    symbol: to_ascii_upper(trimmed(request.symbol.as_str()).as_str()),
                    name: trimmed(request.name.as_str()),
                    kind: request.kind,
                    side: request.side,
                    contracts: request.contracts,
                    entry_price_minor: request.entry_price_minor,
                    mark_price_minor: request.entry_price_minor,
                    contract_multiplier: request.contract_multiplier,
                    price_scale: request.price_scale,
                    initial_margin_bps: request.initial_margin_bps,
                    maintenance_margin_bps: request.maintenance_margin_bps,
                    reserved_margin_minor: required_margin,
                    unrealized_pnl_minor: 0,
                    maintenance_required_minor: maintenance,
                    liquidation_warning: false,
                    opened_at_ms: now_ms,
                    marked_at_ms: now_ms,
                },
            },
        ),
    )
}

pub open spec fn holds_position(ps: Seq<FuturesPosition>, position_id: Seq<char>) -> bool {
    exists|k: int| 0 <= k < ps.len() && (#[trigger] ps[k]).position_id@ == position_id
}

fn holds_position_exec(ps: &Vec<FuturesPosition>, position_id: &str) -> (r: bool)
    ensures
        r == holds_position(ps@, position_id@),
{
    let mut k: usize = 0;
    while k < ps.len()
        invariant
            k <= ps@.len(),
            forall|m: int| 0 <= m < k ==> (#[trigger] ps@[m]).position_id@ != position_id@,
        decreases ps.len() - k,
    {
        if str_eq(ps[k].position_id.as_str(), position_id) {
            assert(ps@[k as int].position_id@ == position_id@);
            return true;
        }
        k = k + 1;
    }
    false
}

/// A mark or close request: trimmed ids of at most 96 and 120 characters and
/// a price.
pub open spec fn position_request_ok(request_id: Seq<char>, position_id: Seq<char>, price: u64) -> bool {
    ident_ok(trim(request_id), 96) && ident_ok(trim(position_id), 120) && price != 0
}

/// The first refusal of a mark or close request against the log, or `None`
/// when the request may be recorded (or is already).
pub open spec fn position_request_refusal(
    events: Seq<FuturesEvent>,
    request_id: Seq<char>,
    position_id: Seq<char>,
    price: u64,
    invalid: Seq<char>,
    missing: Seq<char>,
) -> Option<Seq<char>> {
    if !position_request_ok(request_id, position_id, price) {
        Some(invalid)
    } else if answered(events, request_id) {
        None
    } else {
        match replay_prefix(events, events.len() as int) {
            None => Some(Seq::empty()),
            Some((_cash, _realized, ps)) => if holds_position(ps, position_id) {
                None
            } else {
                Some(missing)
            },
        }
    }
}

/// The event a mark request adds to the log: none when the log already
/// answers it, else the mark of an open position.
pub fn plan_mark(request: &MarkFuturesPositionRequest, events: &Vec<FuturesEvent>, now_ms: u64) -> (r: Result<
    Option<FuturesEvent>,
    String,
>)
    requires
        events.len() <= u32::MAX,
        replay_computable(events@),
    ensures
        ({
            let refusal = position_request_refusal(
                events@,
                request.request_id@,
                request.position_id@,
                request.mark_price_minor,
                "시가평가 요청 ID와 가격을 확인해 주세요."@,
                "시가평가할 선물 포지션을 찾지 못했습니다."@,
            );
            match refusal {
                Some(e) => r matches Err(m) && if e.len() > 0 {
                    m@ == e
                } else {
                    replay_refused_with(events@, m@)
                },
                None => if answered(events@, request.request_id@) {
                    r matches Ok(None)
                } else {
                    r matches Ok(Some(FuturesEvent::PositionMarked { request_id, position_id, mark_price_minor, occurred_at_ms }))
                        && request_id@ == request.request_id@ && position_id@ == request.position_id@
                        && mark_price_minor == request.mark_price_minor && occurred_at_ms == now_ms
                },
            }
        }),
{
    let request_id = trimmed(request.request_id.as_str());
    let position_id = trimmed(request.position_id.as_str());
    if !valid_identifier_max(request_id.as_str(), 96) || !valid_identifier_max(position_id.as_str(), 120)
        || request.mark_price_minor == 0 {
        proof {
            reveal_strlit("시가평가 요청 ID와 가격을 확인해 주세요.");
        }
        return Err("시가평가 요청 ID와 가격을 확인해 주세요.".to_owned());
    }
    if answered_exec(events, request.request_id.as_str()) {
        return Ok(None);
    }
    let state = replay(events)?;
    if !holds_position_exec(&state.positions, request.position_id.as_str()) {
        proof {
            reveal_strlit("시가평가할 선물 포지션을 찾지 못했습니다.");
        }
        return Err("시가평가할 선물 포지션을 찾지 못했습니다.".to_owned());
    }
    Ok(
        Some(
            FuturesEvent::PositionMarked {
                request_id: copy_text(&request.request_id),
                position_id: copy_text(&request.position_id),
                mark_price_minor: request.mark_price_minor,
                occurred_at_ms: now_ms,
            },
        ),
    )
}

/// The event a close request adds to the log: none when the log already
/// answers it, else the close of an open position.
pub fn plan_close(request: &CloseFuturesPositionRequest, events: &Vec<FuturesEvent>, now_ms: u64) -> (r: Result<
    Option<FuturesEvent>,
    String,
>)
    requires
        events.len() <= u32::MAX,
        replay_computable(events@),
    ensures
        ({
            let refusal = position_request_refusal(
                events@,
                request.request_id@,
                request.position_id@,
                request.exit_price_minor,
                "청산 요청 ID와 가격을 확인해 주세요."@,
                "청산할 선물 포지션을 찾지 못했습니다."@,
            );
            match refusal {
                Some(e) => r matches Err(m) && if e.len() > 0 {
                    m@ == e
                } else {
                    replay_refused_with(events@, m@)
                },
                None => if answered(events@, request.request_id@) {
                    r matches Ok(None)
                } else {
                    r matches Ok(Some(FuturesEvent::PositionClosed { request_id, position_id, exit_price_minor, fee_minor, occurred_at_ms }))
                        && request_id@ == request.request_id@ && position_id@ == request.position_id@
                        && exit_price_minor == request.exit_price_minor && fee_minor == request.fee_minor
                        && occurred_at_ms == now_ms
                },
            }
        }),
{
    let request_id = trimmed(request.request_id.as_str());
    let position_id = trimmed(request.position_id.as_str());
    if !valid_identifier_max(request_id.as_str(), 96) || !valid_identifier_max(position_id.as_str(), 120)
        || request.exit_price_minor == 0 {
        proof {
            reveal_strlit("청산 요청 ID와 가격을 확인해 주세요.");
        }
        return Err("청산 요청 ID와 가격을 확인해 주세요.".to_owned());
    }
    if answered_exec(events, request.request_id.as_str()) {
        return Ok(None);
    }
    let state = replay(events)?;
    if !holds_position_exec(&state.positions, request.position_id.as_str()) {
        proof {
            reveal_strlit("청산할 선물 포지션을 찾지 못했습니다.");
        }
        return Err("청산할 선물 포지션을 찾지 못했습니다.".to_owned());
    }
    Ok(
        Some(
            FuturesEvent::PositionClosed {
                request_id: copy_text(&request.request_id),
                position_id: copy_text(&request.position_id),
                exit_price_minor: request.exit_price_minor,
                fee_minor: request.fee_minor,
                occurred_at_ms: now_ms,
            },
        ),
    )
}

} // verus!
