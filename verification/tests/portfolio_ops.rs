use lubix::portfolio::{Portfolio, TradeError, TradeReceipt, FIXED_ORDER_NOTIONAL, INITIAL_CASH};
use lubix::ratio::Ratio;

// Prices are micro-units per whole unit of the instrument.
const P_50K: u64 = 50_000_000_000;
const P_100K: u64 = 100_000_000_000;
const P_60K: u64 = 60_000_000_000;

#[test]
fn fresh_portfolio_has_initial_grant() {
    let p = Portfolio::new();
    assert!(p.cash.eq_frac(INITIAL_CASH, 1));
    assert_eq!(p.holdings.len(), 0);
    assert!(p.gains.eq_frac(0, 1));
    assert!(p.losses.eq_frac(0, 1));
}

#[test]
fn buy_debits_cash_and_creates_holding() {
    let mut p = Portfolio::new();
    let r = p.buy(&b"BTC".to_vec(), P_50K);
    let rec = r.expect("buy should succeed");
    match rec {
        TradeReceipt::Bought { quantity, price, notional, cash_after } => {
            // 1000 / 50000 of a coin.
            assert!(quantity.eq_frac(1, 50));
            assert_eq!(price, P_50K);
            assert_eq!(notional, FIXED_ORDER_NOTIONAL);
            assert!(cash_after.eq_frac(9_000_000_000, 1));
        },
        _ => panic!("expected a buy receipt"),
    }
    assert_eq!(p.holdings.len(), 1);
    assert_eq!(p.holdings[0].symbol, b"BTC".to_vec());
    assert!(p.holdings[0].quantity.eq_frac(1, 50));
    assert_eq!(p.holdings[0].basis, FIXED_ORDER_NOTIONAL);
}

#[test]
fn two_buys_merge_with_volume_weighted_average() {
    let mut p = Portfolio::new();
    p.buy(&b"BTC".to_vec(), P_50K).expect("first buy");
    p.buy(&b"BTC".to_vec(), P_100K).expect("second buy");
    // quantity = 1000/50000 + 1000/100000 = 0.02 + 0.01 = 3/100
    assert_eq!(p.holdings.len(), 1);
    assert!(p.holdings[0].quantity.eq_frac(3, 100));
    // cost basis is the total spent, so average cost = 2000/(3/100)
    assert_eq!(p.holdings[0].basis, 2 * FIXED_ORDER_NOTIONAL);
    assert!(p.cash.eq_frac(8_000_000_000, 1));
}

#[test]
fn sell_removes_holding_entirely_and_realizes_gain() {
    let mut p = Portfolio::new();
    p.buy(&b"BTC".to_vec(), P_50K).expect("buy");
    let r = p.sell(&b"BTC".to_vec(), P_60K).expect("sell");
    match r {
        TradeReceipt::Sold { quantity, price, proceeds, gain, pnl, cash_after } => {
            assert!(quantity.eq_frac(1, 50));
            assert_eq!(price, P_60K);
            // (1/50) * 60000 = 1200 whole units
            assert!(proceeds.eq_frac(1_200_000_000, 1));
            assert!(gain);
            assert!(pnl.eq_frac(200_000_000, 1));
            assert!(cash_after.eq_frac(10_200_000_000, 1));
        },
        _ => panic!("expected a sell receipt"),
    }
    assert_eq!(p.holdings.len(), 0);
    // Conservation: cash + basis + losses == initial + gains.
    assert!(p.cash.eq_frac(10_200_000_000, 1));
    assert!(p.gains.eq_frac(200_000_000, 1));
    assert!(p.losses.eq_frac(0, 1));
}

#[test]
fn sell_at_a_loss_realizes_the_loss() {
    let mut p = Portfolio::new();
    p.buy(&b"ETH".to_vec(), P_50K).expect("buy");
    let r = p.sell(&b"ETH".to_vec(), P_100K / 4).expect("sell");
    match r {
        TradeReceipt::Sold { gain, pnl, .. } => {
            // proceeds = (1/50) * 25000 = 500; loss of 500.
            assert!(!gain);
            assert!(pnl.eq_frac(500_000_000, 1));
        },
        _ => panic!("expected a sell receipt"),
    }
    assert!(p.cash.eq_frac(9_500_000_000, 1));
    assert!(p.losses.eq_frac(500_000_000, 1));
    assert!(p.gains.eq_frac(0, 1));
}

#[test]
fn selling_a_sold_out_symbol_fails_with_no_position() {
    let mut p = Portfolio::new();
    p.buy(&b"SOL".to_vec(), P_50K).expect("buy");
    p.sell(&b"SOL".to_vec(), P_50K).expect("sell");
    let again = p.sell(&b"SOL".to_vec(), P_50K);
    assert!(matches!(again, Err(TradeError::NoPosition)));
}

#[test]
fn sell_without_position_fails_with_no_position() {
    let mut p = Portfolio::new();
    let r = p.sell(&b"BTC".to_vec(), P_50K);
    assert!(matches!(r, Err(TradeError::NoPosition)));
}

#[test]
fn buy_with_insufficient_cash_is_rejected_unchanged() {
    let mut p = Portfolio::new();
    // Ten orders of 1000 exhaust the 10000 grant.
    for _ in 0..10 {
        p.buy(&b"BTC".to_vec(), P_50K).expect("funded buy");
    }
    assert!(p.cash.eq_frac(0, 1));
    let qty_before = p.holdings[0].quantity;
    let basis_before = p.holdings[0].basis;
    let r = p.buy(&b"BTC".to_vec(), P_50K);
    assert!(matches!(r, Err(TradeError::InsufficientFunds)));
    assert!(p.cash.eq_frac(0, 1));
    assert_eq!(p.holdings.len(), 1);
    assert_eq!(p.holdings[0].quantity, qty_before);
    assert_eq!(p.holdings[0].basis, basis_before);
}

#[test]
fn conservation_holds_across_a_trading_sequence() {
    let mut p = Portfolio::new();
    p.buy(&b"BTC".to_vec(), P_50K).expect("buy btc");
    p.buy(&b"ETH".to_vec(), P_100K).expect("buy eth");
    p.sell(&b"BTC".to_vec(), P_60K).expect("sell btc at a gain");
    // cash = 10000 - 1000 - 1000 + 1200 = 9200; basis left = 1000 (ETH)
    // gains = 200, losses = 0: 9200 + 1000 + 0 == 10000 + 200.
    assert!(p.cash.eq_frac(9_200_000_000, 1));
    assert_eq!(p.holdings.len(), 1);
    assert_eq!(p.holdings[0].basis, 1_000_000_000);
    assert!(p.gains.eq_frac(200_000_000, 1));
    assert!(p.losses.eq_frac(0, 1));
}

#[test]
fn ratio_arithmetic_is_exact_and_reduced() {
    let r = Ratio::new_frac(1_000_000_000, 50_000_000_000);
    assert_eq!(r.num, 1);
    assert_eq!(r.den, 50);
    let sum = r.add(&Ratio::new_frac(1, 100)).expect("sum fits");
    assert!(sum.eq_frac(3, 100));
    let prod = sum.mul_u64(200).expect("product fits");
    assert!(prod.eq_frac(6, 1));
}

#[test]
fn valuation_prices_positions_and_totals_exactly() {
    let mut p = Portfolio::new();
    p.buy(&b"BTC".to_vec(), P_50K).expect("buy");
    // Live price 60000: value = (1/50) * 60000 = 1200, a 200 gain.
    let prices = vec![(b"BTC".to_vec(), Some(P_60K))];
    let s = p.valuation(&prices);
    assert!(s.cash.eq_frac(9_000_000_000, 1));
    assert_eq!(s.positions.len(), 1);
    assert_eq!(s.positions[0].symbol, b"BTC".to_vec());
    assert!(s.positions[0].priced);
    assert!(s.positions[0].value.eq_frac(1_200_000_000, 1));
    assert!(s.positions[0].gain);
    assert!(s.positions[0].pnl.eq_frac(200_000_000, 1));
    let total = s.total.expect("total fits");
    assert!(total.eq_frac(10_200_000_000, 1));
}

#[test]
fn valuation_falls_back_to_cost_basis_without_a_price() {
    let mut p = Portfolio::new();
    p.buy(&b"BTC".to_vec(), P_50K).expect("buy");
    // No price for the symbol: its value falls back to the cost basis, so
    // one unavailable quote never blocks the whole report.
    let prices: Vec<(Vec<u8>, Option<u64>)> = vec![(b"ETH".to_vec(), Some(P_50K))];
    let s = p.valuation(&prices);
    assert_eq!(s.positions.len(), 1);
    assert!(!s.positions[0].priced);
    assert!(s.positions[0].value.eq_frac(1_000_000_000, 1));
    assert!(s.positions[0].gain);
    assert!(s.positions[0].pnl.eq_frac(0, 1));
    let total = s.total.expect("total fits");
    assert!(total.eq_frac(10_000_000_000, 1));
}

#[test]
fn valuation_reports_an_unrealized_loss() {
    let mut p = Portfolio::new();
    p.buy(&b"ETH".to_vec(), P_50K).expect("buy");
    // Price halves: value = (1/50) * 25000 = 500, a 500 loss.
    let prices = vec![(b"ETH".to_vec(), Some(P_50K / 2))];
    let s = p.valuation(&prices);
    assert!(s.positions[0].priced);
    assert!(s.positions[0].value.eq_frac(500_000_000, 1));
    assert!(!s.positions[0].gain);
    assert!(s.positions[0].pnl.eq_frac(500_000_000, 1));
}
