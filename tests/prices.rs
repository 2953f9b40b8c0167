use oxidized::extract::tickers_table;
use oxidized::prices::{price_table, sort_bars, symbols_to_fetch, PriceBar, DEFAULT_SYMBOL_CAP};
use oxidized::table::{assemble, TableError};

fn bar(ts: i64, open: f64, volume: Option<u64>) -> PriceBar {
    PriceBar {
        timestamp: ts,
        open_bits: open.to_bits(),
        high_bits: (open + 1.0).to_bits(),
        low_bits: (open - 1.0).to_bits(),
        close_bits: (open + 0.5).to_bits(),
        volume,
    }
}

#[test]
fn price_table_orders_by_timestamp() {
    let bars = vec![bar(300, 3.0, Some(30)), bar(100, 1.0, Some(10)), bar(200, 2.0, None)];
    let t = price_table(&bars);
    assert_eq!(t.timestamp, vec![100, 200, 300]);
    let opens: Vec<f64> = t.open_bits.iter().map(|b| f64::from_bits(*b)).collect();
    assert_eq!(opens, vec![1.0, 2.0, 3.0]);
    let highs: Vec<f64> = t.high_bits.iter().map(|b| f64::from_bits(*b)).collect();
    assert_eq!(highs, vec![2.0, 3.0, 4.0]);
    let lows: Vec<f64> = t.low_bits.iter().map(|b| f64::from_bits(*b)).collect();
    assert_eq!(lows, vec![0.0, 1.0, 2.0]);
    let closes: Vec<f64> = t.close_bits.iter().map(|b| f64::from_bits(*b)).collect();
    assert_eq!(closes, vec![1.5, 2.5, 3.5]);
    assert_eq!(t.volume, vec![10, 0, 30]);
}

#[test]
fn sort_is_stable_on_equal_timestamps() {
    let bars = vec![bar(5, 1.0, Some(1)), bar(3, 2.0, Some(2)), bar(5, 3.0, Some(3)), bar(3, 4.0, Some(4))];
    let sorted = sort_bars(&bars);
    let vols: Vec<Option<u64>> = sorted.iter().map(|b| b.volume).collect();
    assert_eq!(vols, vec![Some(2), Some(4), Some(1), Some(3)]);
}

#[test]
fn sort_keeps_every_bar() {
    let bars = vec![bar(9, 1.0, None), bar(-4, 2.0, Some(7)), bar(9, 1.0, None), bar(0, 5.0, Some(1))];
    let sorted = sort_bars(&bars);
    assert_eq!(sorted.len(), bars.len());
    for w in sorted.windows(2) {
        assert!(w[0].timestamp <= w[1].timestamp);
    }
    for b in &bars {
        let a = bars.iter().filter(|x| *x == b).count();
        let s = sorted.iter().filter(|x| *x == b).count();
        assert_eq!(a, s);
    }
}

#[test]
fn price_table_of_no_bars_is_empty() {
    let t = price_table(&Vec::new());
    assert!(t.timestamp.is_empty());
    assert!(t.volume.is_empty());
}

fn symbol_table(n: usize) -> oxidized::table::Table {
    let header = vec!["Symbol".to_string(), "Name".to_string()];
    let grid: Vec<Vec<String>> = (0..n).map(|i| vec![format!("S{}", i), format!("Company {}", i)]).collect();
    assemble(&header, &grid).unwrap()
}

#[test]
fn symbols_are_capped() {
    let t = symbol_table(30);
    let syms = symbols_to_fetch(&t, DEFAULT_SYMBOL_CAP).unwrap();
    assert_eq!(DEFAULT_SYMBOL_CAP, 25);
    assert_eq!(syms.len(), 25);
    assert_eq!(syms[0], "S0");
    assert_eq!(syms[24], "S24");
}

#[test]
fn fewer_symbols_than_cap_are_all_kept() {
    let t = symbol_table(3);
    assert_eq!(symbols_to_fetch(&t, 25).unwrap(), vec!["S0".to_string(), "S1".to_string(), "S2".to_string()]);
    assert!(symbols_to_fetch(&t, 0).unwrap().is_empty());
}

#[test]
fn missing_symbol_column_is_reported() {
    let header = vec!["Ticker".to_string()];
    let grid = vec![vec!["AAPL".to_string()]];
    let t = assemble(&header, &grid).unwrap();
    assert_eq!(symbols_to_fetch(&t, 25).err(), Some(TableError::MissingColumn));
}

#[test]
fn symbols_from_html() {
    let html = "<table><tr><th>Symbol</th><th>Name</th></tr><tr><td><a href=\"/w/AAPL\">AAPL</a></td><td>Apple Inc.</td></tr></table>";
    let t = tickers_table(html).unwrap();
    assert_eq!(symbols_to_fetch(&t, DEFAULT_SYMBOL_CAP).unwrap(), vec!["AAPL".to_string()]);
}
