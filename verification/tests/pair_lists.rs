use orderbook_merger::pairs::{blank, parse_pairs, to_lower, TradingPair};

fn symbols(text: &str) -> Vec<String> {
    parse_pairs(text).iter().map(|p| p.symbol().to_string()).collect()
}

#[test]
fn pairs_are_split_at_commas() {
    assert_eq!(symbols("ethbtc,btcusdt"), vec!["ethbtc", "btcusdt"]);
    assert_eq!(symbols("ethbtc"), vec!["ethbtc"]);
}

#[test]
fn pairs_are_trimmed_and_lowered() {
    assert_eq!(symbols(" ETHBTC , btcUsdt\t"), vec!["ethbtc", "btcusdt"]);
    assert_eq!(TradingPair::new("\n EthBtc \r\n").symbol(), "ethbtc");
    assert_eq!(TradingPair::new("eth btc").symbol(), "eth btc");
    assert_eq!(TradingPair::new("AZ@[`{az").symbol(), "az@[`{az");
    assert_eq!(TradingPair::new("ÄB").symbol(), "Äb");
}

#[test]
fn empty_fields_are_kept() {
    assert_eq!(symbols(""), vec![""]);
    assert_eq!(symbols(","), vec!["", ""]);
    assert_eq!(symbols("a,,b"), vec!["a", "", "b"]);
    assert_eq!(symbols("a,"), vec!["a", ""]);
    assert_eq!(symbols("  "), vec![""]);
}

#[test]
fn pairs_compare_by_symbol() {
    let a = TradingPair::new("ETHBTC");
    let b = TradingPair::new(" ethbtc ");
    let c = TradingPair::new("btcusdt");
    assert!(a.same_as(&b));
    assert!(!a.same_as(&c));
    assert!(a.clone().same_as(&a));
}

#[test]
fn every_unicode_white_space_is_trimmed() {
    assert_eq!(symbols("\u{b}a"), vec!["a"]);
    assert_eq!(symbols("\u{c}a\u{b},\u{85}b\u{a0}"), vec!["a", "b"]);
    assert_eq!(
        TradingPair::new("\u{1680}\u{2000}\u{200a}\u{2028}\u{2029}\u{202f}\u{205f}\u{3000}ethbtc\u{3000}")
            .symbol(),
        "ethbtc"
    );
    assert_eq!(TradingPair::new("\u{200b}a").symbol(), "\u{200b}a");
    assert_eq!(TradingPair::new("\u{feff}a").symbol(), "\u{feff}a");
    assert_eq!(TradingPair::new("a\u{b}b").symbol(), "a\u{b}b");
}

#[test]
fn blank_is_the_white_space_of_the_standard_library() {
    for code in 0..=0x10FFFFu32 {
        if let Some(c) = char::from_u32(code) {
            assert_eq!(blank(c), c.is_whitespace());
        }
    }
}

#[test]
fn to_lower_folds_the_letters_a_to_z_only() {
    for code in 0..=0x10FFFFu32 {
        if let Some(c) = char::from_u32(code) {
            assert_eq!(to_lower(c), c.to_ascii_lowercase());
        }
    }
    assert_eq!(to_lower('Ä'), 'Ä');
}

#[test]
fn pairs_are_trimmed_as_the_standard_library_trims() {
    for text in ["", " ", "\u{b}a", " a\u{85}", "\u{a0}\u{3000}Eth Btc\t\r\n", "\u{200b}x ", "ÄB \u{2003}"] {
        assert_eq!(TradingPair::new(text).symbol(), text.trim().to_ascii_lowercase());
    }
}
