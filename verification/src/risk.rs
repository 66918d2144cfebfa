//! The paper-account risk monitor: marks every open position to market, measures
//! symbol, sector and market exposure against current equity, follows realized
//! losses, loss streaks and drawdown over closed trades, and recommends
//! continuing, reducing or stopping. It never grants live order permission.
use vstd::prelude::*;
use crate::aggregation::copy_string;
use crate::controls::{
    fits_i64, flag_if, risk_request_message, risk_request_ok, strings_view, validate_risk_request,
    ExposureBucket, PaperRiskMonitorReport, PaperRiskMonitorRequest, RiskMark,
};
use crate::text::{concat_str, lemma_seq_lt_total, seq_lt, str_eq, str_lt};

verus! {

/// An open position of the replayed paper ledger.
#[derive(Debug, Clone)]
pub struct RiskPosition {
    pub symbol: String,
    pub quantity: u64,
    pub quantity_scale: u64,
    pub cost_basis_minor: u64,
}

/// The replayed paper account that the monitor evaluates: its currency, cash,
/// realized profit and loss, and open positions in ledger order.
#[derive(Debug, Clone)]
pub struct RiskAccount {
    pub currency: String,
    pub cash_minor: i64,
    pub realized_pnl_minor: i64,
    pub positions: Vec<RiskPosition>,
}

/// A closed round trip of the ledger, in closing order.
#[derive(Debug, Clone, Copy)]
pub struct ClosedTrade {
    pub net_pnl_minor: i64,
    pub closed_at_ms: u64,
}

/// A replayed account: every position has a positive quantity scale.
pub open spec fn account_ok(a: RiskAccount) -> bool {
    &&& a.positions.len() <= u32::MAX
    &&& forall|i: int| 0 <= i < a.positions.len() ==> (#[trigger] a.positions@[i]).quantity_scale > 0
}

// ---------------------------------------------------------------- marking positions

/// The index of the first mark for `sym` at or after `i`.
pub open spec fn first_mark(marks: Seq<RiskMark>, sym: Seq<char>, i: int) -> Option<int>
    decreases marks.len() - i,
{
    if i < 0 || i >= marks.len() {
        None
    } else if marks[i].symbol@ == sym {
        Some(i)
    } else {
        first_mark(marks, sym, i + 1)
    }
}

pub open spec fn mark_at(ps: Seq<RiskPosition>, marks: Seq<RiskMark>, k: int) -> Option<RiskMark> {
    match first_mark(marks, ps[k].symbol@, 0) {
        Some(j) => Some(marks[j]),
        None => None,
    }
}

/// The marked value of a position: price times quantity over its scale, rounded down.
pub open spec fn pos_value(p: RiskPosition, m: RiskMark) -> int {
    (m.mark_price_minor * p.quantity) / (p.quantity_scale as int)
}

pub open spec fn value_at(ps: Seq<RiskPosition>, marks: Seq<RiskMark>, k: int) -> int {
    match mark_at(ps, marks, k) {
        Some(m) => pos_value(ps[k], m),
        None => 0,
    }
}

pub open spec fn marked_total(ps: Seq<RiskPosition>, marks: Seq<RiskMark>, n: int) -> int
    decreases n,
{
    if n <= 0 {
        0
    } else {
        marked_total(ps, marks, n - 1) + value_at(ps, marks, n - 1)
    }
}

pub open spec fn unrealized_total(ps: Seq<RiskPosition>, marks: Seq<RiskMark>, n: int) -> int
    decreases n,
{
    if n <= 0 {
        0
    } else {
        unrealized_total(ps, marks, n - 1) + value_at(ps, marks, n - 1) - ps[n - 1].cost_basis_minor
    }
}

/// The exposure key of a position: its symbol (kind 0), its sector (1) or its market (2).
pub open spec fn key_of(p: RiskPosition, m: RiskMark, kind: u8) -> Seq<char> {
    if kind == 0 {
        p.symbol@
    } else if kind == 1 {
        m.sector@
    } else {
        m.market@
    }
}

/// Whether some marked position among the first `n` has exposure key `key`.
pub open spec fn tallied(ps: Seq<RiskPosition>, marks: Seq<RiskMark>, n: int, kind: u8, key: Seq<char>) -> bool
    decreases n,
{
    if n <= 0 {
        false
    } else {
        tallied(ps, marks, n - 1, kind, key) || (match mark_at(ps, marks, n - 1) {
            Some(m) => key_of(ps[n - 1], m, kind) == key,
            None => false,
        })
    }
}

/// The exposure of key `key` over the first `n` positions: the sum of the values
/// of its positions for a sector or a market; the value of the latest position
/// for a symbol.
pub open spec fn tally(ps: Seq<RiskPosition>, marks: Seq<RiskMark>, n: int, kind: u8, key: Seq<char>) -> int
    decreases n,
{
    if n <= 0 {
        0
    } else {
        let prev = tally(ps, marks, n - 1, kind, key);
        match mark_at(ps, marks, n - 1) {
            Some(m) => if key_of(ps[n - 1], m, kind) == key {
                if kind == 0 {
                    value_at(ps, marks, n - 1)
                } else {
                    prev + value_at(ps, marks, n - 1)
                }
            } else {
                prev
            },
            None => prev,
        }
    }
}

/// The mark of a position is stale when more than `max_age` ms old at `as_of`.
pub open spec fn stale(m: RiskMark, as_of: u64, max_age: u64) -> bool {
    (if as_of >= m.observed_at_ms { as_of - m.observed_at_ms } else { 0 }) > max_age
}

/// One "stale mark" violation per position whose mark is stale, in position order.
pub open spec fn stale_violations(ps: Seq<RiskPosition>, marks: Seq<RiskMark>, n: int, as_of: u64, max_age: u64) -> Seq<Seq<char>>
    decreases n,
{
    if n <= 0 {
        Seq::empty()
    } else {
        let prev = stale_violations(ps, marks, n - 1, as_of, max_age);
        match mark_at(ps, marks, n - 1) {
            Some(m) => if stale(m, as_of, max_age) {
                prev.push(ps[n - 1].symbol@ + " 시세 지연"@)
            } else {
                prev
            },
            None => prev,
        }
    }
}

/// The refusal met at position `i`, if any: no mark for it, a value beyond `u64`,
/// or a running total (all positions, its sector, its market) beyond `u64`.
pub open spec fn step_error(ps: Seq<RiskPosition>, marks: Seq<RiskMark>, i: int) -> Option<Seq<char>> {
    match mark_at(ps, marks, i) {
        None => Some(ps[i].symbol@ + "의 위험 감시 시세가 없습니다."@),
        Some(m) => if value_at(ps, marks, i) > u64::MAX {
            Some("평가금액이 지원 범위를 초과했습니다."@)
        } else if marked_total(ps, marks, i + 1) > u64::MAX {
            Some("평가금액 합계가 지원 범위를 초과했습니다."@)
        } else if tally(ps, marks, i + 1, 1, m.sector@) > u64::MAX {
            Some("섹터 노출 합계가 지원 범위를 초과했습니다."@)
        } else if tally(ps, marks, i + 1, 2, m.market@) > u64::MAX {
            Some("시장 노출 합계가 지원 범위를 초과했습니다."@)
        } else {
            None
        },
    }
}

/// The first refusal met while marking the first `n` positions in order.
pub open spec fn scan_error(ps: Seq<RiskPosition>, marks: Seq<RiskMark>, n: int) -> Option<Seq<char>>
    decreases n,
{
    if n <= 0 {
        None
    } else {
        match scan_error(ps, marks, n - 1) {
            Some(e) => Some(e),
            None => step_error(ps, marks, n - 1),
        }
    }
}

proof fn lemma_scan_error_persists(ps: Seq<RiskPosition>, marks: Seq<RiskMark>, k: int, n: int)
    requires
        0 <= k <= n,
        scan_error(ps, marks, k) is Some,
    ensures
        scan_error(ps, marks, n) == scan_error(ps, marks, k),
    decreases n - k,
{
    if n > k {
        lemma_scan_error_persists(ps, marks, k, n - 1);
    }
}

proof fn lemma_untallied_zero(ps: Seq<RiskPosition>, marks: Seq<RiskMark>, n: int, kind: u8, key: Seq<char>)
    requires
        !tallied(ps, marks, n, kind, key),
    ensures
        tally(ps, marks, n, kind, key) == 0,
    decreases n,
{
    if n > 0 {
        lemma_untallied_zero(ps, marks, n - 1, kind, key);
    }
}

// ---------------------------------------------------------------- exposure tallies

/// A running exposure total under one key.
struct Tally {
    key: String,
    total: u64,
}

spec fn sorted_keys(t: Seq<Tally>) -> bool {
    forall|a: int| 0 <= a < t.len() - 1 ==> seq_lt(#[trigger] t[a].key@, t[a + 1].key@)
}

spec fn distinct_keys(t: Seq<Tally>) -> bool {
    forall|a: int, b: int| 0 <= a < b < t.len() ==> t[a].key@ != t[b].key@
}

spec fn has_key(t: Seq<Tally>, k: Seq<char>) -> bool {
    exists|a: int| 0 <= a < t.len() && (#[trigger] t[a]).key@ == k
}

/// The tallies hold, in key order, exactly the keys met among the first `n`
/// positions, each with its exposure.
#[verifier::opaque]
spec fn tallies_ok(t: Seq<Tally>, ps: Seq<RiskPosition>, marks: Seq<RiskMark>, n: int, kind: u8) -> bool {
    &&& sorted_keys(t)
    &&& distinct_keys(t)
    &&& forall|a: int|
        0 <= a < t.len() ==> tallied(ps, marks, n, kind, (#[trigger] t[a]).key@) && t[a].total
            == tally(ps, marks, n, kind, t[a].key@)
    &&& forall|k: Seq<char>| tallied(ps, marks, n, kind, k) ==> has_key(t, k)
}

/// Adds `v` to the total of `key` (or sets it, when `add` is false), inserting
/// the key in order when it is new. Refuses a sum beyond `u64`.
#[verifier::spinoff_prover]
#[verifier::rlimit(30)]
fn upsert(t: &mut Vec<Tally>, key: &String, v: u64, add: bool) -> (ok: bool)
    requires
        sorted_keys(old(t)@),
        distinct_keys(old(t)@),
    ensures
        ok == !(add && exists|b: int|
            0 <= b < old(t)@.len() && (#[trigger] old(t)@[b]).key@ == key@ && old(t)@[b].total + v > u64::MAX),
        ok ==> sorted_keys(final(t)@),
        ok ==> distinct_keys(final(t)@),
        ok ==> forall|k: Seq<char>| has_key(final(t)@, k) <==> (has_key(old(t)@, k) || k == key@),
        ok ==> forall|a: int|
            0 <= a < final(t)@.len() && (#[trigger] final(t)@[a]).key@ != key@ ==> exists|b: int|
                0 <= b < old(t)@.len() && old(t)@[b].key@ == final(t)@[a].key@ && old(t)@[b].total == final(t)@[a].total,
        ok ==> forall|a: int|
            0 <= a < final(t)@.len() && (#[trigger] final(t)@[a]).key@ == key@ ==> if add && has_key(old(t)@, key@) {
                exists|b: int|
                    0 <= b < old(t)@.len() && old(t)@[b].key@ == key@ && final(t)@[a].total == old(t)@[b].total + v
            } else {
                final(t)@[a].total == v
            },
{
    let n = t.len();
    let mut j: usize = 0;
    while j < n && !str_eq(t[j].key.as_str(), key.as_str())
        invariant
            n == t.len(),
            j <= n,
            forall|b: int| 0 <= b < j ==> t@[b].key@ != key@,
        decreases n - j,
    {
        j = j + 1;
    }
    if j < n {
        assert(t@[j as int].key@ == key@);
        let total: u64 = if add {
            match t[j].total.checked_add(v) {
                Some(s) => s,
                None => {
                    return false;
                },
            }
        } else {
            v
        };
        let ghost old_t = t@;
        t.set(j, Tally { key: copy_string(key), total });
        proof {
            assert forall|k: Seq<char>| has_key(t@, k) <==> (has_key(old_t, k) || k == key@) by {
                if has_key(old_t, k) {
                    let b = choose|b: int| 0 <= b < old_t.len() && (#[trigger] old_t[b]).key@ == k;
                    assert(t@[b].key@ == k);
                }
                if has_key(t@, k) {
                    let b = choose|b: int| 0 <= b < t@.len() && (#[trigger] t@[b]).key@ == k;
                    if b != j {
                        assert(old_t[b].key@ == k);
                    }
                }
                if k == key@ {
                    assert(t@[j as int].key@ == k);
                }
            }
            assert forall|a: int|
                0 <= a < t@.len() && (#[trigger] t@[a]).key@ != key@ implies exists|b: int|
                    0 <= b < old_t.len() && old_t[b].key@ == t@[a].key@ && old_t[b].total == t@[a].total by {
                assert(a != j);
                assert(old_t[a].key@ == t@[a].key@);
            }
            assert(has_key(old_t, key@)) by {
                assert(old_t[j as int].key@ == key@);
            }
            assert forall|a: int| 0 <= a < t@.len() && (#[trigger] t@[a]).key@ == key@ implies a == j by {
                if a != j {
                    assert(old_t[a].key@ == old_t[j as int].key@);
                }
            }
        }
        return true;
    }
    let mut i: usize = 0;
    while i < n && str_lt(t[i].key.as_str(), key.as_str())
        invariant
            n == t.len(),
            i <= n,
            i > 0 ==> seq_lt(t@[i - 1].key@, key@),
        decreases n - i,
    {
        i = i + 1;
    }
    let ghost old_t = t@;
    proof {
        if i < n {
            assert(old_t[i as int].key@ != key@);
            lemma_seq_lt_total(old_t[i as int].key@, key@);
        }
        assert(!has_key(old_t, key@));
    }
    t.insert(i, Tally { key: copy_string(key), total: v });
    proof {
        assert(t@ == old_t.insert(i as int, t@[i as int]));
        assert forall|a: int| 0 <= a < t@.len() - 1 implies seq_lt(#[trigger] t@[a].key@, t@[a + 1].key@) by {
            if a + 1 < i {
                assert(t@[a] == old_t[a] && t@[a + 1] == old_t[a + 1]);
            } else if a + 1 == i {
                assert(t@[a] == old_t[a]);
            } else if a == i {
                assert(t@[a + 1] == old_t[a]);
            } else {
                assert(t@[a] == old_t[a - 1] && t@[a + 1] == old_t[a]);
            }
        }
        assert forall|a: int, b: int| 0 <= a < b < t@.len() implies t@[a].key@ != t@[b].key@ by {
            if a == i {
                assert(t@[b] == old_t[b - 1]);
            } else if b == i {
                assert(t@[a] == old_t[a]);
            } else {
                let oa = if a < i { a } else { a - 1 };
                let ob = if b < i { b } else { b - 1 };
                assert(t@[a] == old_t[oa] && t@[b] == old_t[ob]);
            }
        }
        assert forall|k: Seq<char>| has_key(t@, k) <==> (has_key(old_t, k) || k == key@) by {
            if has_key(old_t, k) {
                let b = choose|b: int| 0 <= b < old_t.len() && (#[trigger] old_t[b]).key@ == k;
                let nb = if b < i { b } else { b + 1 };
                assert(t@[nb].key@ == k);
            }
            if has_key(t@, k) {
                let b = choose|b: int| 0 <= b < t@.len() && (#[trigger] t@[b]).key@ == k;
                if b < i {
                    assert(old_t[b].key@ == k);
                } else if b > i {
                    assert(old_t[b - 1].key@ == k);
                }
            }
            if k == key@ {
                assert(t@[i as int].key@ == k);
            }
        }
        assert forall|a: int|
            0 <= a < t@.len() && (#[trigger] t@[a]).key@ != key@ implies exists|b: int|
                0 <= b < old_t.len() && old_t[b].key@ == t@[a].key@ && old_t[b].total == t@[a].total by {
            let b = if a < i { a } else { a - 1 };
            assert(t@[a] == old_t[b]);
        }
        assert forall|a: int| 0 <= a < t@.len() && (#[trigger] t@[a]).key@ == key@ implies a == i by {
            if a < i {
                assert(old_t[a].key@ == key@);
            } else if a > i {
                assert(old_t[a - 1].key@ == key@);
            }
        }
    }
    true
}

proof fn lemma_tallies_step(
    old_t: Seq<Tally>,
    new_t: Seq<Tally>,
    ps: Seq<RiskPosition>,
    marks: Seq<RiskMark>,
    i: int,
    kind: u8,
    key: Seq<char>,
    v: u64,
)
    requires
        0 <= i < ps.len(),
        tallies_ok(old_t, ps, marks, i, kind),
        mark_at(ps, marks, i) is Some,
        key_of(ps[i], mark_at(ps, marks, i)->0, kind) == key,
        value_at(ps, marks, i) == v,
        sorted_keys(new_t),
        distinct_keys(new_t),
        forall|k: Seq<char>| has_key(new_t, k) <==> (has_key(old_t, k) || k == key),
        forall|a: int|
            0 <= a < new_t.len() && (#[trigger] new_t[a]).key@ != key ==> exists|b: int|
                0 <= b < old_t.len() && old_t[b].key@ == new_t[a].key@ && old_t[b].total == new_t[a].total,
        forall|a: int|
            0 <= a < new_t.len() && (#[trigger] new_t[a]).key@ == key ==> if kind != 0 && has_key(old_t, key) {
                exists|b: int| 0 <= b < old_t.len() && old_t[b].key@ == key && new_t[a].total == old_t[b].total + v
            } else {
                new_t[a].total == v
            },
    ensures
        tallies_ok(new_t, ps, marks, i + 1, kind),
{
    reveal(tallies_ok);
    assert forall|a: int| 0 <= a < new_t.len() implies tallied(ps, marks, i + 1, kind, (#[trigger] new_t[a]).key@)
        && new_t[a].total == tally(ps, marks, i + 1, kind, new_t[a].key@) by {
        let k = new_t[a].key@;
        if k != key {
            let b = choose|b: int| 0 <= b < old_t.len() && old_t[b].key@ == new_t[a].key@ && old_t[b].total == new_t[a].total;
            assert(tallied(ps, marks, i, kind, old_t[b].key@));
        } else if kind != 0 && has_key(old_t, key) {
            let b = choose|b: int| 0 <= b < old_t.len() && old_t[b].key@ == key && new_t[a].total == old_t[b].total + v;
            assert(tallied(ps, marks, i, kind, old_t[b].key@));
        } else if kind != 0 {
            assert(!tallied(ps, marks, i, kind, key));
            lemma_untallied_zero(ps, marks, i, kind, key);
        }
    }
    assert forall|k: Seq<char>| tallied(ps, marks, i + 1, kind, k) implies has_key(new_t, k) by {
        if tallied(ps, marks, i, kind, k) {
            assert(has_key(old_t, k));
        }
    }
}

fn find_mark(marks: &Vec<RiskMark>, sym: &String) -> (r: Option<usize>)
    ensures
        match r {
            Some(j) => first_mark(marks@, sym@, 0) == Some(j as int) && j < marks.len(),
            None => first_mark(marks@, sym@, 0) is None,
        },
{
    let mut j: usize = 0;
    while j < marks.len() && !str_eq(marks[j].symbol.as_str(), sym.as_str())
        invariant
            j <= marks.len(),
            first_mark(marks@, sym@, 0) == first_mark(marks@, sym@, j as int),
        decreases marks.len() - j,
    {
        j = j + 1;
    }
    if j < marks.len() {
        Some(j)
    } else {
        None
    }
}

/// What marking the positions gives: the marked total, the unrealized result,
/// the stale-mark violations and the three exposure tallies.
struct Scan {
    marked: u64,
    unrealized: i128,
    violations: Vec<String>,
    symbols: Vec<Tally>,
    sectors: Vec<Tally>,
    markets: Vec<Tally>,
}

fn scan_positions(account: &RiskAccount, request: &PaperRiskMonitorRequest) -> (r: Result<Scan, String>)
    requires
        account_ok(*account),
    ensures
        match r {
            Err(e) => scan_error(account.positions@, request.marks@, account.positions.len() as int) == Some(e@),
            Ok(s) => {
                let ps = account.positions@;
                let ms = request.marks@;
                let n = ps.len() as int;
                &&& scan_error(ps, ms, n) is None
                &&& s.marked == marked_total(ps, ms, n)
                &&& s.unrealized == unrealized_total(ps, ms, n)
                &&& strings_view(s.violations@) == stale_violations(
                    ps,
                    ms,
                    n,
                    request.as_of_ms,
                    request.limits.maximum_mark_age_ms,
                )
                &&& tallies_ok(s.symbols@, ps, ms, n, 0)
                &&& tallies_ok(s.sectors@, ps, ms, n, 1)
                &&& tallies_ok(s.markets@, ps, ms, n, 2)
            },
        },
{
    reveal(tallies_ok);
    let ps = &account.positions;
    let n = ps.len();
    let as_of = request.as_of_ms;
    let max_age = request.limits.maximum_mark_age_ms;
    let mut marked: u64 = 0;
    let mut unrealized: i128 = 0;
    let mut violations: Vec<String> = Vec::new();
    let mut symbols: Vec<Tally> = Vec::new();
    let mut sectors: Vec<Tally> = Vec::new();
    let mut markets: Vec<Tally> = Vec::new();
    let mut i: usize = 0;
    while i < n
        invariant
            n == ps.len(),
            ps == &account.positions,
            account_ok(*account),
            as_of == request.as_of_ms,
            max_age == request.limits.maximum_mark_age_ms,
            i <= n,
            scan_error(ps@, request.marks@, i as int) is None,
            marked == marked_total(ps@, request.marks@, i as int),
            unrealized == unrealized_total(ps@, request.marks@, i as int),
            -(i * 0x1_0000_0000_0000_0000) <= unrealized <= i * 0x1_0000_0000_0000_0000,
            strings_view(violations@) == stale_violations(ps@, request.marks@, i as int, as_of, max_age),
            tallies_ok(symbols@, ps@, request.marks@, i as int, 0),
            tallies_ok(sectors@, ps@, request.marks@, i as int, 1),
            tallies_ok(markets@, ps@, request.marks@, i as int, 2),
        decreases n - i,
    {
        reveal(tallies_ok);
        let p = &ps[i];
        let j = match find_mark(&request.marks, &p.symbol) {
            Some(j) => j,
            None => {
                proof {
                    lemma_scan_error_persists(ps@, request.marks@, i as int + 1, n as int);
                }
                return Err(concat_str(p.symbol.as_str(), "의 위험 감시 시세가 없습니다."));
            },
        };
        let m = &request.marks[j];
        assert(mark_at(ps@, request.marks@, i as int) == Some(*m));
        let age: u64 = if as_of >= m.observed_at_ms {
            as_of - m.observed_at_ms
        } else {
            0
        };
        let ghost old_violations = violations@;
        if age > max_age {
            violations.push(concat_str(p.symbol.as_str(), " 시세 지연"));
        }
        proof {
            assert(strings_view(violations@) =~= stale_violations(ps@, request.marks@, i as int + 1, as_of, max_age));
        }
        assert(p.quantity_scale > 0);
        assert((m.mark_price_minor as int) * (p.quantity as int) <= u128::MAX) by (nonlinear_arith)
            requires
                m.mark_price_minor <= u64::MAX,
                p.quantity <= u64::MAX,
        ;
        let product: u128 = (m.mark_price_minor as u128) * (p.quantity as u128);
        let v128: u128 = product / (p.quantity_scale as u128);
        if v128 > 0xffff_ffff_ffff_ffffu128 {
            proof {
                lemma_scan_error_persists(ps@, request.marks@, i as int + 1, n as int);
            }
            return Err("평가금액이 지원 범위를 초과했습니다.".to_owned());
        }
        let v = v128 as u64;
        assert(v == value_at(ps@, request.marks@, i as int));
        marked = match marked.checked_add(v) {
            Some(x) => x,
            None => {
                proof {
                    lemma_scan_error_persists(ps@, request.marks@, i as int + 1, n as int);
                }
                return Err("평가금액 합계가 지원 범위를 초과했습니다.".to_owned());
            },
        };
        unrealized = unrealized + (v as i128) - (p.cost_basis_minor as i128);
        let ghost old_symbols = symbols@;
        let ghost old_sectors = sectors@;
        let ghost old_markets = markets@;
        upsert(&mut symbols, &p.symbol, v, false);
        proof {
            lemma_tallies_step(old_symbols, symbols@, ps@, request.marks@, i as int, 0, p.symbol@, v);
        }
        if !upsert(&mut sectors, &m.sector, v, true) {
            proof {
                let b = choose|b: int|
                    0 <= b < old_sectors.len() && (#[trigger] old_sectors[b]).key@ == m.sector@
                        && old_sectors[b].total + v > u64::MAX;
                assert(tally(ps@, request.marks@, i as int, 1, m.sector@) == old_sectors[b].total);
                lemma_scan_error_persists(ps@, request.marks@, i as int + 1, n as int);
            }
            return Err("섹터 노출 합계가 지원 범위를 초과했습니다.".to_owned());
        }
        proof {
            lemma_tallies_step(old_sectors, sectors@, ps@, request.marks@, i as int, 1, m.sector@, v);
            assert(tally(ps@, request.marks@, i as int + 1, 1, m.sector@) <= u64::MAX) by {
                assert(has_key(sectors@, m.sector@));
                let a = choose|a: int| 0 <= a < sectors@.len() && (#[trigger] sectors@[a]).key@ == m.sector@;
            }
        }
        if !upsert(&mut markets, &m.market, v, true) {
            proof {
                let b = choose|b: int|
                    0 <= b < old_markets.len() && (#[trigger] old_markets[b]).key@ == m.market@
                        && old_markets[b].total + v > u64::MAX;
                assert(tally(ps@, request.marks@, i as int, 2, m.market@) == old_markets[b].total);
                lemma_scan_error_persists(ps@, request.marks@, i as int + 1, n as int);
            }
            return Err("시장 노출 합계가 지원 범위를 초과했습니다.".to_owned());
        }
        proof {
            lemma_tallies_step(old_markets, markets@, ps@, request.marks@, i as int, 2, m.market@, v);
            assert(tally(ps@, request.marks@, i as int + 1, 2, m.market@) <= u64::MAX) by {
                assert(has_key(markets@, m.market@));
                let a = choose|a: int| 0 <= a < markets@.len() && (#[trigger] markets@[a]).key@ == m.market@;
            }
        }
        i = i + 1;
    }
    Ok(Scan { marked, unrealized, violations, symbols, sectors, markets })
}

// ---------------------------------------------------------------- exposure buckets

/// Exposure in basis points of current equity (never dividing by less than one).
pub open spec fn exposure_bps(notional: int, denom: int) -> int {
    notional * 10_000 / (if denom < 1 { 1 } else { denom })
}

/// Whether some exposure key among the first `n` positions is above `threshold` bps.
#[verifier::opaque]
pub open spec fn bucket_over(
    ps: Seq<RiskPosition>,
    marks: Seq<RiskMark>,
    n: int,
    kind: u8,
    denom: int,
    threshold: int,
) -> bool {
    exists|k: Seq<char>|
        #[trigger] tallied(ps, marks, n, kind, k) && exposure_bps(tally(ps, marks, n, kind, k), denom) > threshold
}

/// The exposure list of one kind: strictly ordered by key, one bucket per key met
/// among the first `n` positions, with its exposure and its share of equity.
#[verifier::opaque]
pub open spec fn buckets_match(
    list: Seq<ExposureBucket>,
    ps: Seq<RiskPosition>,
    marks: Seq<RiskMark>,
    n: int,
    kind: u8,
    denom: int,
) -> bool {
    &&& forall|a: int| 0 <= a < list.len() - 1 ==> seq_lt(#[trigger] list[a].key@, list[a + 1].key@)
    &&& forall|a: int|
        0 <= a < list.len() ==> tallied(ps, marks, n, kind, (#[trigger] list[a]).key@) && list[a].notional_minor
            == tally(ps, marks, n, kind, list[a].key@) && list[a].exposure_bps == exposure_bps(
            list[a].notional_minor as int,
            denom,
        )
    &&& forall|k: Seq<char>|
        tallied(ps, marks, n, kind, k) ==> exists|a: int| 0 <= a < list.len() && (#[trigger] list[a]).key@ == k
}

fn exposure_buckets(t: &Vec<Tally>, denom: u64) -> (r: Option<Vec<ExposureBucket>>)
    requires
        denom >= 1,
    ensures
        r is None <==> exists|a: int|
            0 <= a < t@.len() && exposure_bps((#[trigger] t@[a]).total as int, denom as int) > u64::MAX,
        r matches Some(b) ==> b@.len() == t@.len() && forall|a: int|
            0 <= a < t@.len() ==> (#[trigger] b@[a]).key@ == t@[a].key@ && b@[a].notional_minor == t@[a].total
                && b@[a].exposure_bps == exposure_bps(t@[a].total as int, denom as int),
{
    let mut out: Vec<ExposureBucket> = Vec::new();
    let mut a: usize = 0;
    while a < t.len()
        invariant
            denom >= 1,
            a <= t.len(),
            out@.len() == a,
            forall|x: int| 0 <= x < a ==> exposure_bps((#[trigger] t@[x]).total as int, denom as int) <= u64::MAX,
            forall|x: int|
                0 <= x < a ==> (#[trigger] out@[x]).key@ == t@[x].key@ && out@[x].notional_minor == t@[x].total
                    && out@[x].exposure_bps == exposure_bps(t@[x].total as int, denom as int),
        decreases t.len() - a,
    {
        let total = t[a].total;
        let bps: u128 = (total as u128) * 10_000 / (denom as u128);
        if bps > 0xffff_ffff_ffff_ffffu128 {
            assert(exposure_bps(t@[a as int].total as int, denom as int) > u64::MAX);
            return None;
        }
        out.push(ExposureBucket { key: copy_string(&t[a].key), notional_minor: total, exposure_bps: bps as u64 });
        a = a + 1;
    }
    Some(out)
}

fn any_over(b: &Vec<ExposureBucket>, limit: u64) -> (r: bool)
    ensures
        r == exists|a: int| 0 <= a < b@.len() && (#[trigger] b@[a]).exposure_bps > limit,
{
    let mut a: usize = 0;
    while a < b.len()
        invariant
            a <= b.len(),
            forall|x: int| 0 <= x < a ==> (#[trigger] b@[x]).exposure_bps <= limit,
        decreases b.len() - a,
    {
        if b[a].exposure_bps > limit {
            return true;
        }
        a = a + 1;
    }
    false
}

proof fn lemma_tallies_over(
    t: Seq<Tally>,
    ps: Seq<RiskPosition>,
    marks: Seq<RiskMark>,
    n: int,
    kind: u8,
    denom: int,
    threshold: int,
)
    requires
        tallies_ok(t, ps, marks, n, kind),
    ensures
        (exists|a: int| 0 <= a < t.len() && exposure_bps((#[trigger] t[a]).total as int, denom) > threshold)
            <==> bucket_over(ps, marks, n, kind, denom, threshold),
{
    reveal(tallies_ok);
    reveal(bucket_over);
    if exists|a: int| 0 <= a < t.len() && exposure_bps((#[trigger] t[a]).total as int, denom) > threshold {
        let a = choose|a: int| 0 <= a < t.len() && exposure_bps((#[trigger] t[a]).total as int, denom) > threshold;
        assert(tallied(ps, marks, n, kind, t[a].key@));
    }
    if bucket_over(ps, marks, n, kind, denom, threshold) {
        let k = choose|k: Seq<char>|
            #[trigger] tallied(ps, marks, n, kind, k) && exposure_bps(tally(ps, marks, n, kind, k), denom) > threshold;
        assert(has_key(t, k));
        let a = choose|a: int| 0 <= a < t.len() && (#[trigger] t[a]).key@ == k;
        assert(exposure_bps(t[a].total as int, denom) > threshold);
    }
}

proof fn lemma_buckets_match(
    t: Seq<Tally>,
    b: Seq<ExposureBucket>,
    ps: Seq<RiskPosition>,
    marks: Seq<RiskMark>,
    n: int,
    kind: u8,
    denom: int,
)
    requires
        tallies_ok(t, ps, marks, n, kind),
        b.len() == t.len(),
        forall|a: int|
            0 <= a < t.len() ==> (#[trigger] b[a]).key@ == t[a].key@ && b[a].notional_minor == t[a].total
                && b[a].exposure_bps == exposure_bps(t[a].total as int, denom),
    ensures
        buckets_match(b, ps, marks, n, kind, denom),
{
    reveal(tallies_ok);
    reveal(buckets_match);
    assert forall|a: int| 0 <= a < b.len() - 1 implies seq_lt(#[trigger] b[a].key@, b[a + 1].key@) by {
        assert(b[a].key@ == t[a].key@ && b[a + 1].key@ == t[a + 1].key@);
    }
    assert forall|k: Seq<char>| tallied(ps, marks, n, kind, k) implies exists|a: int|
        0 <= a < b.len() && (#[trigger] b[a]).key@ == k by {
        assert(has_key(t, k));
        let a = choose|a: int| 0 <= a < t.len() && (#[trigger] t[a]).key@ == k;
        assert(b[a].key@ == k);
    }
}

// ---------------------------------------------------------------- closed trades

/// The largest loss among the first `n` trades (the negated result of each trade
/// whose negation fits `i64`), when there is one.
pub open spec fn loss_max(trades: Seq<ClosedTrade>, n: int) -> Option<int>
    decreases n,
{
    if n <= 0 {
        None
    } else {
        let prev = loss_max(trades, n - 1);
        let t = trades[n - 1];
        if t.net_pnl_minor == i64::MIN {
            prev
        } else {
            let l = -t.net_pnl_minor;
            match prev {
                None => Some(l),
                Some(m) => Some(if l > m { l } else { m }),
            }
        }
    }
}

/// The largest negated trade result is at least the negated result of every
/// trade (each but one of `i64::MIN`, which cannot be negated) and is one of
/// them; there is none only when no trade can be negated.
pub proof fn lemma_loss_max_is_largest(trades: Seq<ClosedTrade>, n: int)
    requires
        0 <= n <= trades.len(),
    ensures
        match loss_max(trades, n) {
            None => forall|k: int| 0 <= k < n ==> (#[trigger] trades[k]).net_pnl_minor == i64::MIN,
            Some(m) => (forall|k: int|
                0 <= k < n && (#[trigger] trades[k]).net_pnl_minor != i64::MIN ==> m >= -trades[k].net_pnl_minor)
                && exists|k: int|
                0 <= k < n && (#[trigger] trades[k]).net_pnl_minor != i64::MIN && m == -trades[k].net_pnl_minor,
        },
    decreases n,
{
    if n > 0 {
        lemma_loss_max_is_largest(trades, n - 1);
        let t = trades[n - 1];
        match loss_max(trades, n - 1) {
            None => {},
            Some(m) => {
                let w = choose|k: int|
                    0 <= k < n - 1 && (#[trigger] trades[k]).net_pnl_minor != i64::MIN && m == -trades[k].net_pnl_minor;
                assert(trades[w].net_pnl_minor != i64::MIN);
            },
        }
    }
}

/// The largest trade loss as the monitor reports it: the largest negated result
/// taken as a `u64` (so a ledger of winning trades only wraps around), zero
/// without trades.
pub open spec fn largest_loss(trades: Seq<ClosedTrade>) -> int {
    match loss_max(trades, trades.len() as int) {
        None => 0,
        Some(m) => if m >= 0 { m } else { m + 0x1_0000_0000_0000_0000 },
    }
}

/// The realized result of the trades closed at or after `day_start`, summed in
/// order as `i64`; `None` when a running sum leaves `i64`.
pub open spec fn daily_sum(trades: Seq<ClosedTrade>, day_start: u64, n: int) -> Option<int>
    decreases n,
{
    if n <= 0 {
        Some(0)
    } else {
        match daily_sum(trades, day_start, n - 1) {
            None => None,
            Some(s) => if trades[n - 1].closed_at_ms >= day_start {
                if fits_i64(s + trades[n - 1].net_pnl_minor) {
                    Some(s + trades[n - 1].net_pnl_minor)
                } else {
                    None
                }
            } else {
                Some(s)
            },
        }
    }
}

/// Equity path over the first `n` trades from `initial`: the running equity, its
/// peak, the largest drawdown from a positive peak in basis points (rounded
/// down), and the current run of losing trades; `None` when a drawdown leaves `u64`.
pub open spec fn drawdown_fold(trades: Seq<ClosedTrade>, initial: int, n: int) -> Option<(int, int, int, int)>
    decreases n,
{
    if n <= 0 {
        Some((initial, initial, 0, 0))
    } else {
        match drawdown_fold(trades, initial, n - 1) {
            None => None,
            Some(st) => {
                let t = trades[n - 1];
                let cum = st.0 + t.net_pnl_minor;
                let peak = if cum > st.1 { cum } else { st.1 };
                let streak = if t.net_pnl_minor < 0 { st.3 + 1 } else { 0 };
                if peak > 0 && cum < peak {
                    let d = (peak - cum) * 10_000 / peak;
                    if d > u64::MAX {
                        None
                    } else {
                        Some((cum, peak, if d > st.2 { d } else { st.2 }, streak))
                    }
                } else {
                    Some((cum, peak, st.2, streak))
                }
            },
        }
    }
}

fn largest_trade_loss(closed: &Vec<ClosedTrade>) -> (r: u64)
    ensures
        r == largest_loss(closed@),
{
    let mut best: Option<i64> = None;
    let mut i: usize = 0;
    while i < closed.len()
        invariant
            i <= closed.len(),
            match best {
                None => loss_max(closed@, i as int) is None,
                Some(m) => loss_max(closed@, i as int) == Some(m as int),
            },
        decreases closed.len() - i,
    {
        let net = closed[i].net_pnl_minor;
        if net != i64::MIN {
            let l: i64 = -net;
            best = match best {
                None => Some(l),
                Some(m) => Some(if l > m { l } else { m }),
            };
        }
        i = i + 1;
    }
    match best {
        None => 0,
        Some(m) => if m >= 0 {
            m as u64
        } else {
            let back: i64 = -(m + 1);
            0xffff_ffff_ffff_ffffu64 - (back as u64)
        },
    }
}

fn daily_realized(closed: &Vec<ClosedTrade>, day_start: u64) -> (r: Option<i64>)
    ensures
        match r {
            Some(d) => daily_sum(closed@, day_start, closed@.len() as int) == Some(d as int),
            None => daily_sum(closed@, day_start, closed@.len() as int) is None,
        },
{
    let mut sum: i64 = 0;
    let mut i: usize = 0;
    while i < closed.len()
        invariant
            i <= closed.len(),
            daily_sum(closed@, day_start, i as int) == Some(sum as int),
        decreases closed.len() - i,
    {
        let t = closed[i];
        if t.closed_at_ms >= day_start {
            let next: i128 = (sum as i128) + (t.net_pnl_minor as i128);
            if next < -0x8000_0000_0000_0000i128 || next > 0x7fff_ffff_ffff_ffffi128 {
                proof {
                    lemma_daily_none_persists(closed@, day_start, i as int + 1, closed@.len() as int);
                }
                return None;
            }
            sum = next as i64;
        }
        i = i + 1;
    }
    Some(sum)
}

proof fn lemma_daily_none_persists(trades: Seq<ClosedTrade>, day_start: u64, k: int, n: int)
    requires
        0 <= k <= n,
        daily_sum(trades, day_start, k) is None,
    ensures
        daily_sum(trades, day_start, n) is None,
    decreases n - k,
{
    if n > k {
        lemma_daily_none_persists(trades, day_start, k, n - 1);
    }
}

/// The equity after the first `k` closed trades.
pub open spec fn equity_after(trades: Seq<ClosedTrade>, initial: int, k: int) -> int
    decreases k,
{
    if k <= 0 {
        initial
    } else {
        equity_after(trades, initial, k - 1) + trades[k - 1].net_pnl_minor
    }
}

/// The highest equity reached up to and including the `k`-th trade.
pub open spec fn equity_peak(trades: Seq<ClosedTrade>, initial: int, k: int) -> int
    decreases k,
{
    if k <= 0 {
        initial
    } else {
        let p = equity_peak(trades, initial, k - 1);
        let e = equity_after(trades, initial, k);
        if e > p {
            e
        } else {
            p
        }
    }
}

/// The drawdown after the `k`-th trade: how far below its positive peak the
/// equity stands, in basis points of the peak, rounded down; 0 at the peak.
pub open spec fn drawdown_after(trades: Seq<ClosedTrade>, initial: int, k: int) -> int {
    let p = equity_peak(trades, initial, k);
    let e = equity_after(trades, initial, k);
    if p > 0 && e < p {
        (p - e) * 10_000 / p
    } else {
        0
    }
}

/// The maximum drawdown of a trade history is the deepest drawdown after any
/// of its prefixes: at least each of them, and either one of them or 0.
pub proof fn lemma_maximum_drawdown_is_deepest(trades: Seq<ClosedTrade>, initial: int, n: int)
    requires
        0 <= n <= trades.len(),
        drawdown_fold(trades, initial, n) is Some,
    ensures
        ({
            let st = drawdown_fold(trades, initial, n)->0;
            &&& st.0 == equity_after(trades, initial, n)
            &&& st.1 == equity_peak(trades, initial, n)
            &&& forall|k: int| 0 <= k <= n ==> st.2 >= #[trigger] drawdown_after(trades, initial, k)
            &&& st.2 == 0 || exists|k: int| 1 <= k <= n && st.2 == #[trigger] drawdown_after(trades, initial, k)
        }),
    decreases n,
{
    if n > 0 {
        lemma_maximum_drawdown_is_deepest(trades, initial, n - 1);
        let prev = drawdown_fold(trades, initial, n - 1)->0;
        let st = drawdown_fold(trades, initial, n)->0;
        assert(st.2 >= prev.2);
        assert(st.2 >= drawdown_after(trades, initial, n));
        assert forall|k: int| 0 <= k <= n implies st.2 >= #[trigger] drawdown_after(trades, initial, k) by {
            if k < n {
                assert(prev.2 >= drawdown_after(trades, initial, k));
            }
        }
        if st.2 != 0 && st.2 != drawdown_after(trades, initial, n) {
            assert(st.2 == prev.2);
            let w = choose|k: int| 1 <= k <= n - 1 && prev.2 == #[trigger] drawdown_after(trades, initial, k);
            assert(st.2 == drawdown_after(trades, initial, w));
        }
    } else {
        assert(drawdown_after(trades, initial, 0) == 0);
    }
}

/// The losing streak of a trade history is its run of losing trades at the
/// end: every one of the last `streak` trades lost, and the trade before them,
/// if any, did not.
pub proof fn lemma_losing_streak_is_trailing(trades: Seq<ClosedTrade>, initial: int, n: int)
    requires
        0 <= n <= trades.len(),
        drawdown_fold(trades, initial, n) is Some,
    ensures
        ({
            let streak = (drawdown_fold(trades, initial, n)->0).3;
            &&& 0 <= streak <= n
            &&& forall|k: int| n - streak <= k < n ==> (#[trigger] trades[k]).net_pnl_minor < 0
            &&& streak < n ==> trades[n - streak - 1].net_pnl_minor >= 0
        }),
    decreases n,
{
    if n > 0 {
        lemma_losing_streak_is_trailing(trades, initial, n - 1);
    }
}

proof fn lemma_drawdown_none_persists(trades: Seq<ClosedTrade>, initial: int, k: int, n: int)
    requires
        0 <= k <= n,
        drawdown_fold(trades, initial, k) is None,
    ensures
        drawdown_fold(trades, initial, n) is None,
    decreases n - k,
{
    if n > k {
        lemma_drawdown_none_persists(trades, initial, k, n - 1);
    }
}

fn drawdown(closed: &Vec<ClosedTrade>, initial: i64) -> (r: Option<(u64, usize)>)
    requires
        closed.len() <= u32::MAX,
    ensures
        match r {
            Some((mdd, streak)) => drawdown_fold(closed@, initial as int, closed@.len() as int) matches Some(st)
                && mdd == st.2 && streak == st.3,
            None => drawdown_fold(closed@, initial as int, closed@.len() as int) is None,
        },
{
    let mut cum: i128 = initial as i128;
    let mut peak: i128 = initial as i128;
    let mut mdd: u64 = 0;
    let mut streak: usize = 0;
    let mut i: usize = 0;
    while i < closed.len()
        invariant
            i <= closed.len() <= u32::MAX,
            drawdown_fold(closed@, initial as int, i as int) == Some((cum as int, peak as int, mdd as int, streak as int)),
            -((i + 1) * 0x8000_0000_0000_0000) <= cum <= (i + 1) * 0x8000_0000_0000_0000,
            -((i + 1) * 0x8000_0000_0000_0000) <= peak <= (i + 1) * 0x8000_0000_0000_0000,
            streak <= i,
        decreases closed.len() - i,
    {
        let t = closed[i];
        cum = cum + (t.net_pnl_minor as i128);
        if cum > peak {
            peak = cum;
        }
        streak = if t.net_pnl_minor < 0 { streak + 1 } else { 0 };
        if peak > 0 && cum < peak {
            let gap: u128 = (peak - cum) as u128;
            let d: u128 = gap * 10_000 / (peak as u128);
            if d > 0xffff_ffff_ffff_ffffu128 {
                proof {
                    lemma_drawdown_none_persists(closed@, initial as int, i as int + 1, closed@.len() as int);
                }
                return None;
            }
            if d as u64 > mdd {
                mdd = d as u64;
            }
        }
        i = i + 1;
    }
    Some((mdd, streak))
}

// ---------------------------------------------------------------- the report

/// Cash plus the marked value of every position.
pub open spec fn equity(acc: RiskAccount, marks: Seq<RiskMark>) -> int {
    acc.cash_minor + marked_total(acc.positions@, marks, acc.positions.len() as int)
}

/// The equity that exposure is measured against: at least one.
pub open spec fn denominator(acc: RiskAccount, marks: Seq<RiskMark>) -> int {
    if equity(acc, marks) < 1 {
        1
    } else {
        equity(acc, marks)
    }
}

/// The refusal of a risk evaluation, in the order the checks run, or `None`.
pub open spec fn risk_error(
    acc: RiskAccount,
    initial: i64,
    closed: Seq<ClosedTrade>,
    req: PaperRiskMonitorRequest,
) -> Option<Seq<char>> {
    let ps = acc.positions@;
    let ms = req.marks@;
    let n = ps.len() as int;
    let d = denominator(acc, ms);
    if !risk_request_ok(req) {
        Some(risk_request_message(req))
    } else if acc.currency@ != req.currency@ {
        Some("위험 감시 통화와 모의원장 통화가 일치하지 않습니다."@)
    } else if scan_error(ps, ms, n) is Some {
        scan_error(ps, ms, n)
    } else if equity(acc, ms) > u64::MAX {
        Some("평가자산이 지원 범위를 초과했습니다."@)
    } else if bucket_over(ps, ms, n, 0, d, u64::MAX as int) || bucket_over(ps, ms, n, 1, d, u64::MAX as int)
        || bucket_over(ps, ms, n, 2, d, u64::MAX as int) {
        Some("위험 노출 비중이 지원 범위를 초과했습니다."@)
    } else if daily_sum(closed, req.limits.day_start_ms, closed.len() as int) is None {
        Some("당일 손익 합계가 지원 범위를 초과했습니다."@)
    } else if drawdown_fold(closed, initial as int, closed.len() as int) is None {
        Some("최대 낙폭이 지원 범위를 초과했습니다."@)
    } else if !fits_i64(equity(acc, ms)) {
        Some("현재 평가자산이 지원 범위를 초과했습니다."@)
    } else if !fits_i64(unrealized_total(ps, ms, n)) {
        Some("미실현손익이 지원 범위를 초과했습니다."@)
    } else {
        None
    }
}

pub open spec fn daily_of(closed: Seq<ClosedTrade>, req: PaperRiskMonitorRequest) -> int {
    match daily_sum(closed, req.limits.day_start_ms, closed.len() as int) {
        Some(d) => d,
        None => 0,
    }
}

pub open spec fn path_of(closed: Seq<ClosedTrade>, initial: i64) -> (int, int, int, int) {
    match drawdown_fold(closed, initial as int, closed.len() as int) {
        Some(st) => st,
        None => (0, 0, 0, 0),
    }
}

/// The loss-side breaches: trade loss, daily loss, drawdown, loss streak.
pub open spec fn loss_flags(
    closed: Seq<ClosedTrade>,
    initial: i64,
    req: PaperRiskMonitorRequest,
) -> (bool, bool, bool, bool) {
    (
        largest_loss(closed) > req.limits.maximum_trade_loss_minor,
        daily_of(closed, req) < 0 && -daily_of(closed, req) > req.limits.maximum_daily_loss_minor,
        path_of(closed, initial).2 > req.limits.maximum_drawdown_bps,
        path_of(closed, initial).3 >= req.limits.maximum_consecutive_losses,
    )
}

/// The violations in the order they are raised: stale marks, non-positive
/// equity, the three exposure limits, then the four loss limits.
pub open spec fn risk_violations(
    acc: RiskAccount,
    initial: i64,
    closed: Seq<ClosedTrade>,
    req: PaperRiskMonitorRequest,
) -> Seq<Seq<char>> {
    let ps = acc.positions@;
    let ms = req.marks@;
    let n = ps.len() as int;
    let d = denominator(acc, ms);
    let f = loss_flags(closed, initial, req);
    stale_violations(ps, ms, n, req.as_of_ms, req.limits.maximum_mark_age_ms) + flag_if(
        equity(acc, ms) <= 0,
        "모의계좌 평가자산이 0 이하"@,
    ) + flag_if(bucket_over(ps, ms, n, 0, d, req.limits.maximum_symbol_exposure_bps as int), "종목 노출 한도 초과"@)
        + flag_if(bucket_over(ps, ms, n, 1, d, req.limits.maximum_sector_exposure_bps as int), "섹터 노출 한도 초과"@)
        + flag_if(bucket_over(ps, ms, n, 2, d, req.limits.maximum_market_exposure_bps as int), "시장 노출 한도 초과"@)
        + flag_if(f.0, "거래당 손실 한도 초과"@) + flag_if(f.1, "일일 손실 한도 초과"@) + flag_if(
        f.2,
        "최대 낙폭 한도 초과"@,
    ) + flag_if(f.3, "연속 손실 한도 도달"@)
}

/// "stop" on a stale mark, non-positive equity or any loss-side breach;
/// "continue" without violations; "reduce" on exposure breaches alone.
pub open spec fn risk_recommendation(
    acc: RiskAccount,
    initial: i64,
    closed: Seq<ClosedTrade>,
    req: PaperRiskMonitorRequest,
) -> Seq<char> {
    let ms = req.marks@;
    let f = loss_flags(closed, initial, req);
    let severe = stale_violations(acc.positions@, ms, acc.positions.len() as int, req.as_of_ms, req.limits.maximum_mark_age_ms).len() > 0
        || equity(acc, ms) <= 0 || f.0 || f.1 || f.2 || f.3;
    if severe {
        "stop"@
    } else if risk_violations(acc, initial, closed, req).len() == 0 {
        "continue"@
    } else {
        "reduce"@
    }
}

/// Every field of an accepted evaluation.
pub open spec fn risk_report_ok(
    rep: PaperRiskMonitorReport,
    acc: RiskAccount,
    initial: i64,
    closed: Seq<ClosedTrade>,
    req: PaperRiskMonitorRequest,
) -> bool {
    let ps = acc.positions@;
    let ms = req.marks@;
    let n = ps.len() as int;
    let d = denominator(acc, ms);
    &&& rep.currency@ == req.currency@
    &&& rep.policy_revision@ == req.limits.policy_revision@
    &&& rep.as_of_ms == req.as_of_ms
    &&& rep.current_equity_minor == equity(acc, ms)
    &&& rep.realized_pnl_minor == acc.realized_pnl_minor
    &&& rep.unrealized_pnl_minor == unrealized_total(ps, ms, n)
    &&& rep.largest_trade_loss_minor == largest_loss(closed)
    &&& rep.daily_realized_pnl_minor == daily_of(closed, req)
    &&& rep.maximum_drawdown_bps == path_of(closed, initial).2
    &&& rep.consecutive_loss_count == path_of(closed, initial).3
    &&& buckets_match(rep.symbol_exposure@, ps, ms, n, 0, d)
    &&& buckets_match(rep.sector_exposure@, ps, ms, n, 1, d)
    &&& buckets_match(rep.market_exposure@, ps, ms, n, 2, d)
    &&& strings_view(rep.violations@) == risk_violations(acc, initial, closed, req)
    &&& rep.recommendation@ == risk_recommendation(acc, initial, closed, req)
    &&& rep.new_entries_allowed == (risk_violations(acc, initial, closed, req).len() == 0)
    &&& !rep.live_order_allowed
}

fn exposure_of(
    t: &Vec<Tally>,
    denom: u64,
    limit: u64,
    Ghost(ps): Ghost<Seq<RiskPosition>>,
    Ghost(ms): Ghost<Seq<RiskMark>>,
    Ghost(n): Ghost<int>,
    Ghost(kind): Ghost<u8>,
) -> (r: Option<(Vec<ExposureBucket>, bool)>)
    requires
        tallies_ok(t@, ps, ms, n, kind),
        denom >= 1,
    ensures
        r is None <==> bucket_over(ps, ms, n, kind, denom as int, u64::MAX as int),
        r matches Some((b, over)) ==> buckets_match(b@, ps, ms, n, kind, denom as int) && over == bucket_over(
            ps,
            ms,
            n,
            kind,
            denom as int,
            limit as int,
        ),
{
    proof {
        lemma_tallies_over(t@, ps, ms, n, kind, denom as int, u64::MAX as int);
        lemma_tallies_over(t@, ps, ms, n, kind, denom as int, limit as int);
    }
    let b = match exposure_buckets(t, denom) {
        None => {
            return None;
        },
        Some(b) => b,
    };
    proof {
        lemma_buckets_match(t@, b@, ps, ms, n, kind, denom as int);
    }
    let over = any_over(&b, limit);
    proof {
        if over {
            let a = choose|a: int| 0 <= a < b@.len() && (#[trigger] b@[a]).exposure_bps > limit;
            assert(exposure_bps(t@[a].total as int, denom as int) > limit);
        }
        if exists|a: int| 0 <= a < t@.len() && exposure_bps((#[trigger] t@[a]).total as int, denom as int) > limit {
            let a = choose|a: int| 0 <= a < t@.len() && exposure_bps((#[trigger] t@[a]).total as int, denom as int) > limit;
            assert(b@[a].exposure_bps > limit);
        }
    }
    Some((b, over))
}

fn loss_side(closed: &Vec<ClosedTrade>, initial: i64, day_start: u64) -> (r: Result<(u64, i64, u64, usize), String>)
    requires
        closed.len() <= u32::MAX,
    ensures
        match r {
            Err(e) => if daily_sum(closed@, day_start, closed@.len() as int) is None {
                e@ == "당일 손익 합계가 지원 범위를 초과했습니다."@
            } else {
                drawdown_fold(closed@, initial as int, closed@.len() as int) is None && e@
                    == "최대 낙폭이 지원 범위를 초과했습니다."@
            },
            Ok((largest, daily, mdd, streak)) => {
                &&& largest == largest_loss(closed@)
                &&& daily_sum(closed@, day_start, closed@.len() as int) == Some(daily as int)
                &&& drawdown_fold(closed@, initial as int, closed@.len() as int) matches Some(st)
                &&& mdd == st.2
                &&& streak == st.3
            },
        },
{
    let largest = largest_trade_loss(closed);
    let daily = match daily_realized(closed, day_start) {
        None => {
            return Err("당일 손익 합계가 지원 범위를 초과했습니다.".to_owned());
        },
        Some(x) => x,
    };
    let (mdd, streak) = match drawdown(closed, initial) {
        None => {
            return Err("최대 낙폭이 지원 범위를 초과했습니다.".to_owned());
        },
        Some(x) => x,
    };
    Ok((largest, daily, mdd, streak))
}

/// A flag text pushed when its condition holds.
fn push_flag(v: &mut Vec<String>, cond: bool, text: &str)
    ensures
        strings_view(final(v)@) == strings_view(old(v)@) + flag_if(cond, text@),
{
    let ghost before = v@;
    if cond {
        v.push(text.to_owned());
        assert(strings_view(v@) =~= strings_view(before) + seq![text@]);
    } else {
        assert(strings_view(v@) =~= strings_view(before) + Seq::<Seq<char>>::empty());
    }
}

/// The violations after the stale marks, in the order they are raised.
fn push_limit_flags(v: &mut Vec<String>, nonpositive: bool, overs: (bool, bool, bool), losses: (bool, bool, bool, bool))
    ensures
        strings_view(final(v)@) == strings_view(old(v)@) + flag_if(nonpositive, "모의계좌 평가자산이 0 이하"@) + flag_if(
            overs.0,
            "종목 노출 한도 초과"@,
        ) + flag_if(overs.1, "섹터 노출 한도 초과"@) + flag_if(overs.2, "시장 노출 한도 초과"@) + flag_if(
            losses.0,
            "거래당 손실 한도 초과"@,
        ) + flag_if(losses.1, "일일 손실 한도 초과"@) + flag_if(losses.2, "최대 낙폭 한도 초과"@) + flag_if(
            losses.3,
            "연속 손실 한도 도달"@,
        ),
{
    push_flag(v, nonpositive, "모의계좌 평가자산이 0 이하");
    push_flag(v, overs.0, "종목 노출 한도 초과");
    push_flag(v, overs.1, "섹터 노출 한도 초과");
    push_flag(v, overs.2, "시장 노출 한도 초과");
    push_flag(v, losses.0, "거래당 손실 한도 초과");
    push_flag(v, losses.1, "일일 손실 한도 초과");
    push_flag(v, losses.2, "최대 낙폭 한도 초과");
    push_flag(v, losses.3, "연속 손실 한도 도달");
}

/// Evaluates the paper account against the request's risk limits. `account` is
/// the replayed ledger, `initial_equity_minor` its opening equity and `closed`
/// its closed trades in closing order.
#[verifier::rlimit(40)]
#[verifier::spinoff_prover]
pub fn evaluate_paper_risk(
    account: &RiskAccount,
    initial_equity_minor: i64,
    closed: &Vec<ClosedTrade>,
    request: PaperRiskMonitorRequest,
) -> (r: Result<PaperRiskMonitorReport, String>)
    requires
        account_ok(*account),
        closed.len() <= u32::MAX,
    ensures
        match r {
            Err(e) => risk_error(*account, initial_equity_minor, closed@, request) == Some(e@),
            Ok(rep) => risk_error(*account, initial_equity_minor, closed@, request) is None && risk_report_ok(
                rep,
                *account,
                initial_equity_minor,
                closed@,
                request,
            ),
        },
        r matches Ok(rep) ==> {
            &&& forall|k: int|
                0 <= k <= closed@.len() ==> rep.maximum_drawdown_bps >= #[trigger] drawdown_after(
                    closed@,
                    initial_equity_minor as int,
                    k,
                )
            &&& rep.maximum_drawdown_bps == 0 || exists|k: int|
                1 <= k <= closed@.len() && rep.maximum_drawdown_bps == #[trigger] drawdown_after(
                    closed@,
                    initial_equity_minor as int,
                    k,
                )
            &&& rep.consecutive_loss_count <= closed@.len()
            &&& forall|k: int|
                closed@.len() - rep.consecutive_loss_count <= k < closed@.len() ==> (#[trigger] closed@[k]).net_pnl_minor
                    < 0
            &&& rep.consecutive_loss_count < closed@.len() ==> closed@[closed@.len() - rep.consecutive_loss_count
                - 1].net_pnl_minor >= 0
        },
{
    match validate_risk_request(&request) {
        Err(e) => {
            return Err(e);
        },
        Ok(()) => {},
    }
    if !str_eq(account.currency.as_str(), request.currency.as_str()) {
        return Err("위험 감시 통화와 모의원장 통화가 일치하지 않습니다.".to_owned());
    }
    let scan = match scan_positions(account, &request) {
        Err(e) => {
            return Err(e);
        },
        Ok(s) => s,
    };
    let ghost ps = account.positions@;
    let ghost ms = request.marks@;
    let ghost n = ps.len() as int;
    let limits = &request.limits;
    let mut violations = scan.violations;
    let stale_count = violations.len();
    let equity_now: i128 = (account.cash_minor as i128) + (scan.marked as i128);
    let nonpositive = equity_now <= 0;
    if equity_now > 0xffff_ffff_ffff_ffffi128 {
        return Err("평가자산이 지원 범위를 초과했습니다.".to_owned());
    }
    let denom: u64 = if equity_now < 1 {
        1
    } else {
        equity_now as u64
    };
    assert(denom == denominator(*account, ms));
    let (symbol_exposure, symbol_over) = match exposure_of(
        &scan.symbols,
        denom,
        limits.maximum_symbol_exposure_bps,
        Ghost(ps),
        Ghost(ms),
        Ghost(n),
        Ghost(0u8),
    ) {
        None => {
            return Err("위험 노출 비중이 지원 범위를 초과했습니다.".to_owned());
        },
        Some(x) => x,
    };
    let (sector_exposure, sector_over) = match exposure_of(
        &scan.sectors,
        denom,
        limits.maximum_sector_exposure_bps,
        Ghost(ps),
        Ghost(ms),
        Ghost(n),
        Ghost(1u8),
    ) {
        None => {
            return Err("위험 노출 비중이 지원 범위를 초과했습니다.".to_owned());
        },
        Some(x) => x,
    };
    let (market_exposure, market_over) = match exposure_of(
        &scan.markets,
        denom,
        limits.maximum_market_exposure_bps,
        Ghost(ps),
        Ghost(ms),
        Ghost(n),
        Ghost(2u8),
    ) {
        None => {
            return Err("위험 노출 비중이 지원 범위를 초과했습니다.".to_owned());
        },
        Some(x) => x,
    };
    let (largest, daily, mdd, streak) = match loss_side(closed, initial_equity_minor, limits.day_start_ms) {
        Err(e) => {
            return Err(e);
        },
        Ok(x) => x,
    };
    let trade_breach = largest > limits.maximum_trade_loss_minor;
    let daily_breach = daily < 0 && -(daily as i128) > (limits.maximum_daily_loss_minor as i128);
    let drawdown_breach = mdd > limits.maximum_drawdown_bps;
    let streak_breach = streak >= limits.maximum_consecutive_losses;
    push_limit_flags(
        &mut violations,
        nonpositive,
        (symbol_over, sector_over, market_over),
        (trade_breach, daily_breach, drawdown_breach, streak_breach),
    );
    assert(strings_view(violations@) =~= risk_violations(*account, initial_equity_minor, closed@, request));
    let severe = stale_count > 0 || nonpositive || trade_breach || daily_breach || drawdown_breach
        || streak_breach;
    let recommendation = if severe {
        "stop".to_owned()
    } else if violations.len() == 0 {
        "continue".to_owned()
    } else {
        "reduce".to_owned()
    };
    if equity_now > 0x7fff_ffff_ffff_ffffi128 {
        return Err("현재 평가자산이 지원 범위를 초과했습니다.".to_owned());
    }
    if scan.unrealized < -0x8000_0000_0000_0000i128 || scan.unrealized > 0x7fff_ffff_ffff_ffffi128 {
        return Err("미실현손익이 지원 범위를 초과했습니다.".to_owned());
    }
    let new_entries_allowed = violations.len() == 0;
    proof {
        lemma_maximum_drawdown_is_deepest(closed@, initial_equity_minor as int, closed@.len() as int);
        lemma_losing_streak_is_trailing(closed@, initial_equity_minor as int, closed@.len() as int);
    }
    Ok(PaperRiskMonitorReport {
        currency: request.currency,
        policy_revision: request.limits.policy_revision,
        as_of_ms: request.as_of_ms,
        current_equity_minor: equity_now as i64,
        realized_pnl_minor: account.realized_pnl_minor,
        unrealized_pnl_minor: scan.unrealized as i64,
        largest_trade_loss_minor: largest,
        daily_realized_pnl_minor: daily,
        maximum_drawdown_bps: mdd,
        consecutive_loss_count: streak,
        symbol_exposure,
        sector_exposure,
        market_exposure,
        violations,
        recommendation,
        new_entries_allowed,
        live_order_allowed: false,
    })
}

} // verus!
