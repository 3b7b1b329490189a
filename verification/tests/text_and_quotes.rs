use lubix::bytes::{canonical_ticker, group_thousands, parse_i64, split_once, to_upper, trim};
use lubix::quotes::{contains_bytes, normalize_crypto, normalize_equity, normalize_onchain,
    normalize_sentiment, sentiment_bar_filled, sentiment_level, usd_to_idr_micro, CmcApiResponse,
    CmcCryptoData, CmcQuoteData, DexPairData, DexScreenerResponse, DexTokenData, EquityQuote,
    FearGreedData, FearGreedResponse, LookupError, SentimentLevel, StockPriceApi,
    SyariahApiResponse, SyariahIndicatorApi, crypto_price_micro};

fn sample_cmc(symbol: &[u8], price: u64) -> CmcApiResponse {
    CmcApiResponse {
        data: vec![(
            symbol.to_vec(),
            CmcCryptoData {
                name: b"Bitcoin".to_vec(),
                symbol: symbol.to_vec(),
                quote: vec![(
                    b"USD".to_vec(),
                    CmcQuoteData {
                        price,
                        change_1h: Some(120),
                        change_24h: Some(-340),
                        change_7d: Some(980),
                        market_cap: Some(1_000_000_000_000),
                        volume_24h: Some(35_000_000_000),
                    },
                )],
            },
        )],
    }
}

#[test]
fn trim_and_upper_canonicalize_tickers() {
    assert_eq!(trim(&b"  btc \n".to_vec()), b"btc".to_vec());
    assert_eq!(to_upper(&b"btc-2x".to_vec()), b"BTC-2X".to_vec());
    assert_eq!(canonical_ticker(&b"\t sol ".to_vec()), b"SOL".to_vec());
    assert_eq!(trim(&b"   ".to_vec()), b"".to_vec());
}

#[test]
fn parse_i64_handles_signs_bounds_and_garbage() {
    assert_eq!(parse_i64(&b"12345".to_vec()), Some(12345));
    assert_eq!(parse_i64(&b"-100".to_vec()), Some(-100));
    assert_eq!(parse_i64(&b"+7".to_vec()), Some(7));
    assert_eq!(parse_i64(&b"9223372036854775807".to_vec()), Some(i64::MAX));
    assert_eq!(parse_i64(&b"-9223372036854775808".to_vec()), Some(i64::MIN));
    assert_eq!(parse_i64(&b"9223372036854775808".to_vec()), None);
    assert_eq!(parse_i64(&b"12a".to_vec()), None);
    assert_eq!(parse_i64(&b"".to_vec()), None);
    assert_eq!(parse_i64(&b"-".to_vec()), None);
}

#[test]
fn group_thousands_groups_from_the_right() {
    assert_eq!(group_thousands(&b"1234567".to_vec()), b"1.234.567".to_vec());
    assert_eq!(group_thousands(&b"123".to_vec()), b"123".to_vec());
    assert_eq!(group_thousands(&b"1000".to_vec()), b"1.000".to_vec());
    assert_eq!(group_thousands(&b"".to_vec()), b"".to_vec());
}

#[test]
fn split_once_splits_at_the_first_separator() {
    let (l, r) = split_once(&b"55|hi|there".to_vec(), b'|').expect("has a pipe");
    assert_eq!(l, b"55".to_vec());
    assert_eq!(r, b"hi|there".to_vec());
    assert!(split_once(&b"nothing".to_vec(), b'|').is_none());
}

#[test]
fn crypto_normalization_finds_symbol_and_usd_quote() {
    let resp = sample_cmc(b"BTC", 50_000_000_000);
    let q = normalize_crypto(&resp, &b"BTC".to_vec()).expect("found");
    assert_eq!(q.symbol, b"BTC".to_vec());
    assert_eq!(q.name, b"Bitcoin".to_vec());
    assert_eq!(q.price_usd, 50_000_000_000);
    assert_eq!(q.change_24h, Some(-340));

    let missing = normalize_crypto(&resp, &b"ETH".to_vec());
    assert!(matches!(missing, Err(LookupError::NotFound(_))));

    assert_eq!(crypto_price_micro(&resp, &b"BTC".to_vec()), Some(50_000_000_000));
    assert_eq!(crypto_price_micro(&resp, &b"ETH".to_vec()), None);
}

#[test]
fn crypto_without_usd_quote_is_malformed() {
    let mut resp = sample_cmc(b"BTC", 1);
    resp.data[0].1.quote.clear();
    let r = normalize_crypto(&resp, &b"BTC".to_vec());
    assert!(matches!(r, Err(LookupError::MalformedResponse)));
}

#[test]
fn equity_normalization_maps_fields_and_defaults() {
    let resp = SyariahApiResponse {
        code: b"BBRI".to_vec(),
        name: b"Bank Rakyat".to_vec(),
        sector: Some(b"Finance".to_vec()),
        industry: None,
        market_cap: Some(700_000_000_000_000),
        shares: None,
        issi: Some(true),
        syariah_indicator: Some(SyariahIndicatorApi {
            hutang_bunga: Some(1234),
            non_halal: None,
            business: Some(true),
        }),
        harga: Some(StockPriceApi { now: Some(4500), delta_price: Some(-25) }),
    };
    let q: EquityQuote = normalize_equity(&resp);
    assert_eq!(q.code, b"BBRI".to_vec());
    assert_eq!(q.price, Some(4500));
    assert_eq!(q.price_change, Some(-25));
    assert!(q.sharia_compliant);
    assert_eq!(q.debt_ratio, Some(1234));
    assert_eq!(q.non_halal_revenue_ratio, None);
    assert_eq!(q.sector, Some(b"Finance".to_vec()));

    let bare = SyariahApiResponse {
        code: b"X".to_vec(),
        name: b"X Corp".to_vec(),
        sector: None,
        industry: None,
        market_cap: None,
        shares: None,
        issi: None,
        syariah_indicator: None,
        harga: None,
    };
    let q = normalize_equity(&bare);
    assert_eq!(q.price, None);
    assert_eq!(q.price_change, None);
    assert!(!q.sharia_compliant);
    assert_eq!(q.sector, None);
}

fn sample_pair(symbol: &[u8], address: &[u8]) -> DexPairData {
    DexPairData {
        base_token: DexTokenData {
            name: b"Token".to_vec(),
            symbol: symbol.to_vec(),
            address: address.to_vec(),
        },
        price_usd: Some(b"0.0042".to_vec()),
        price_change: None,
        liquidity: None,
        volume: None,
        url: None,
    }
}

#[test]
fn onchain_selection_takes_the_first_match() {
    let resp = DexScreenerResponse {
        pairs: Some(vec![
            sample_pair(b"OTHER", b"abc111"),
            sample_pair(b"bonk", b"def222"),
            sample_pair(b"BONKX", b"ghi333"),
        ]),
    };
    // Case-insensitive symbol containment picks the second pair.
    let q = normalize_onchain(&resp, &b"BONK".to_vec()).expect("match");
    assert_eq!(q.symbol, b"bonk".to_vec());
    assert_eq!(q.contract_address, b"def222".to_vec());
    assert_eq!(q.price_usd, Some(b"0.0042".to_vec()));

    // Address containment is case-insensitive too.
    let q = normalize_onchain(&resp, &b"ghi333".to_vec()).expect("match");
    assert_eq!(q.symbol, b"BONKX".to_vec());
    let q = normalize_onchain(&resp, &b"GHI333".to_vec()).expect("match up to case");
    assert_eq!(q.symbol, b"BONKX".to_vec());

    let miss = normalize_onchain(&resp, &b"zzz".to_vec());
    assert!(matches!(miss, Err(LookupError::NotFound(_))));
    let empty = DexScreenerResponse { pairs: None };
    assert!(matches!(
        normalize_onchain(&empty, &b"x".to_vec()),
        Err(LookupError::NotFound(_))
    ));
}

#[test]
fn substring_search_is_exact() {
    assert!(contains_bytes(&b"hello".to_vec(), &b"ell".to_vec()));
    assert!(contains_bytes(&b"hello".to_vec(), &b"".to_vec()));
    assert!(!contains_bytes(&b"hello".to_vec(), &b"elo".to_vec()));
    assert!(!contains_bytes(&b"he".to_vec(), &b"hello".to_vec()));
}

#[test]
fn sentiment_parses_classifies_and_rejects_garbage() {
    let resp = FearGreedResponse {
        data: vec![FearGreedData {
            value: b"72".to_vec(),
            value_classification: b"Greed".to_vec(),
        }],
    };
    let s = normalize_sentiment(&resp).expect("valid");
    assert_eq!(s.score, 72);
    assert_eq!(s.classification, SentimentLevel::Greed);
    assert_eq!(s.label, b"Greed".to_vec());
    assert_eq!(sentiment_bar_filled(s.score), 14);

    let bad = FearGreedResponse {
        data: vec![FearGreedData {
            value: b"7x".to_vec(),
            value_classification: b"?".to_vec(),
        }],
    };
    assert!(matches!(normalize_sentiment(&bad), Err(LookupError::MalformedResponse)));
    let out_of_range = FearGreedResponse {
        data: vec![FearGreedData {
            value: b"250".to_vec(),
            value_classification: b"?".to_vec(),
        }],
    };
    assert!(matches!(
        normalize_sentiment(&out_of_range),
        Err(LookupError::MalformedResponse)
    ));
    let empty = FearGreedResponse { data: vec![] };
    assert!(matches!(normalize_sentiment(&empty), Err(LookupError::MalformedResponse)));
}

#[test]
fn sentiment_bands_have_the_reference_cut_points() {
    assert_eq!(sentiment_level(0), SentimentLevel::ExtremeFear);
    assert_eq!(sentiment_level(25), SentimentLevel::ExtremeFear);
    assert_eq!(sentiment_level(26), SentimentLevel::Fear);
    assert_eq!(sentiment_level(45), SentimentLevel::Fear);
    assert_eq!(sentiment_level(46), SentimentLevel::Neutral);
    assert_eq!(sentiment_level(55), SentimentLevel::Neutral);
    assert_eq!(sentiment_level(56), SentimentLevel::Greed);
    assert_eq!(sentiment_level(75), SentimentLevel::Greed);
    assert_eq!(sentiment_level(76), SentimentLevel::ExtremeGreed);
    assert_eq!(sentiment_level(100), SentimentLevel::ExtremeGreed);
}

#[test]
fn currency_conversion_uses_the_fixed_rate() {
    assert_eq!(usd_to_idr_micro(1_000_000), Some(15_800_000_000));
    assert_eq!(usd_to_idr_micro(u64::MAX), None);
}
