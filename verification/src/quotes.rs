//! The quote normalizer: provider payloads in, one internal model out.
//!
//! The raw record types mirror each provider's schema as plain values
//! (prices in micro-units, percentages in basis points, absent fields as
//! `None`); the transport layer fills them in and hands them over. The
//! functions here hold the real mapping logic: symbol and currency lookup,
//! first-match token selection, and sentiment classification, each with an
//! exact contract. A missing upstream field stays an explicit absence,
//! never a silent zero.

use crate::bytes::{all_digits, bytes_eq, digits_val, is_digit, upper_spec, to_upper};
use vstd::prelude::*;

verus! {

/// Why a lookup failed.
#[derive(Debug)]
pub enum LookupError {
    /// The provider has nothing for the query; carries the query.
    NotFound(Vec<u8>),
    /// The provider could not be reached in time; carries the cause.
    Transport(Vec<u8>),
    /// The provider answered with something the model cannot hold.
    MalformedResponse,
}

// ---------------------------------------------------------------------------
// Raw provider records, as plain values.
// ---------------------------------------------------------------------------

/// Price block of the equities screener: price and day change, absent when
/// the upstream omits them.
#[derive(Debug)]
pub struct StockPriceApi {
    pub now: Option<i64>,
    pub delta_price: Option<i64>,
}

/// Compliance indicators of the equities screener, in basis points; a
/// non-numeric upstream value maps to `None`.
#[derive(Debug)]
pub struct SyariahIndicatorApi {
    pub hutang_bunga: Option<i64>,
    pub non_halal: Option<i64>,
    pub business: Option<bool>,
}

/// One instrument from the equities screener.
#[derive(Debug)]
pub struct SyariahApiResponse {
    pub code: Vec<u8>,
    pub name: Vec<u8>,
    pub sector: Option<Vec<u8>>,
    pub industry: Option<Vec<u8>>,
    /// Market capitalization in whole currency units.
    pub market_cap: Option<u64>,
    pub shares: Option<u64>,
    pub issi: Option<bool>,
    pub syariah_indicator: Option<SyariahIndicatorApi>,
    pub harga: Option<StockPriceApi>,
}

/// One currency's quote from the crypto provider: price in micro-units,
/// changes in basis points, turnover in whole units. A field the upstream
/// omitted is an explicit absence, never a zero.
#[derive(Clone, Copy, Debug)]
pub struct CmcQuoteData {
    pub price: u64,
    pub change_1h: Option<i64>,
    pub change_24h: Option<i64>,
    pub change_7d: Option<i64>,
    pub market_cap: Option<u64>,
    pub volume_24h: Option<u64>,
}

/// One cryptocurrency: its identity and its quotes keyed by currency code.
#[derive(Debug)]
pub struct CmcCryptoData {
    pub name: Vec<u8>,
    pub symbol: Vec<u8>,
    pub quote: Vec<(Vec<u8>, CmcQuoteData)>,
}

/// The crypto provider's payload: cryptocurrencies keyed by symbol.
#[derive(Debug)]
pub struct CmcApiResponse {
    pub data: Vec<(Vec<u8>, CmcCryptoData)>,
}

/// Identity of a traded token.
#[derive(Debug)]
pub struct DexTokenData {
    pub name: Vec<u8>,
    pub symbol: Vec<u8>,
    pub address: Vec<u8>,
}

/// Price movement of one trading pair, in basis points.
#[derive(Debug)]
pub struct DexPriceChange {
    pub h1: Option<i64>,
    pub h24: Option<i64>,
}

/// Pooled liquidity of one pair, in whole currency units.
#[derive(Debug)]
pub struct DexLiquidity {
    pub usd: Option<u64>,
}

/// Daily turnover of one pair, in whole currency units.
#[derive(Debug)]
pub struct DexVolume {
    pub h24: Option<u64>,
}

/// One trading pair from the on-chain screener. The price arrives as the
/// decimal string the upstream prints, forwarded as it came.
#[derive(Debug)]
pub struct DexPairData {
    pub base_token: DexTokenData,
    pub price_usd: Option<Vec<u8>>,
    pub price_change: Option<DexPriceChange>,
    pub liquidity: Option<DexLiquidity>,
    pub volume: Option<DexVolume>,
    pub url: Option<Vec<u8>>,
}

/// The on-chain screener's payload.
#[derive(Debug)]
pub struct DexScreenerResponse {
    pub pairs: Option<Vec<DexPairData>>,
}

/// One sentiment reading as the upstream sends it: the score as a digit
/// string, and a label.
#[derive(Debug)]
pub struct FearGreedData {
    pub value: Vec<u8>,
    pub value_classification: Vec<u8>,
}

/// The sentiment provider's payload, newest reading first.
#[derive(Debug)]
pub struct FearGreedResponse {
    pub data: Vec<FearGreedData>,
}

// ---------------------------------------------------------------------------
// Normalized records.
// ---------------------------------------------------------------------------

/// A screened equity, normalized. An upstream field the provider omitted is
/// an explicit absence here, never a zero presented as data.
#[derive(Debug)]
pub struct EquityQuote {
    pub code: Vec<u8>,
    pub name: Vec<u8>,
    pub sector: Option<Vec<u8>>,
    /// Last price in whole currency units, when the provider sent one.
    pub price: Option<i64>,
    pub price_change: Option<i64>,
    pub market_cap: Option<u64>,
    pub sharia_compliant: bool,
    pub debt_ratio: Option<i64>,
    pub non_halal_revenue_ratio: Option<i64>,
}

/// A cryptocurrency quote, normalized. Absent upstream fields stay absent.
#[derive(Debug)]
pub struct CryptoQuote {
    pub symbol: Vec<u8>,
    pub name: Vec<u8>,
    pub price_usd: u64,
    pub change_1h: Option<i64>,
    pub change_24h: Option<i64>,
    pub change_7d: Option<i64>,
    pub market_cap: Option<u64>,
    pub volume_24h: Option<u64>,
}

/// An on-chain token quote, normalized; absent upstream fields stay absent.
#[derive(Debug)]
pub struct OnChainTokenQuote {
    pub symbol: Vec<u8>,
    pub name: Vec<u8>,
    pub contract_address: Vec<u8>,
    pub price_usd: Option<Vec<u8>>,
    pub change_1h: Option<i64>,
    pub change_24h: Option<i64>,
    pub liquidity_usd: Option<u64>,
    pub volume_24h: Option<u64>,
}

/// The five market-sentiment bands, coolest first.
#[derive(Clone, Copy, Debug, PartialEq, Eq, Structural)]
pub enum SentimentLevel {
    ExtremeFear,
    Fear,
    Neutral,
    Greed,
    ExtremeGreed,
}

/// A market-sentiment reading, normalized: a score from 0 to 100, its band,
/// and the upstream's own label.
#[derive(Debug)]
pub struct SentimentReading {
    pub score: u8,
    pub classification: SentimentLevel,
    pub label: Vec<u8>,
}

// ---------------------------------------------------------------------------
// Lookup and selection.
// ---------------------------------------------------------------------------

/// First index whose key equals `key`, if any, in a byte-keyed list of
/// cryptocurrencies.
fn find_crypto(entries: &Vec<(Vec<u8>, CmcCryptoData)>, key: &Vec<u8>) -> (r: Option<usize>)
    ensures
        match r {
            Some(i) => i < entries@.len() && entries@[i as int].0@ == key@ && (forall|j: int|
                0 <= j < i ==> (#[trigger] entries@[j]).0@ != key@),
            None => forall|j: int| 0 <= j < entries@.len() ==> (#[trigger] entries@[j]).0@ != key@,
        },
{
    let mut i: usize = 0;
    while i < entries.len()
        invariant
            0 <= i <= entries@.len(),
            forall|j: int| 0 <= j < i ==> (#[trigger] entries@[j]).0@ != key@,
        decreases entries@.len() - i,
    {
        if bytes_eq(&entries[i].0, key) {
            return Some(i);
        }
        i = i + 1;
    }
    None
}

/// First index whose key equals `key`, in a currency-keyed list of quotes.
fn find_quote(entries: &Vec<(Vec<u8>, CmcQuoteData)>, key: &Vec<u8>) -> (r: Option<usize>)
    ensures
        match r {
            Some(i) => i < entries@.len() && entries@[i as int].0@ == key@ && (forall|j: int|
                0 <= j < i ==> (#[trigger] entries@[j]).0@ != key@),
            None => forall|j: int| 0 <= j < entries@.len() ==> (#[trigger] entries@[j]).0@ != key@,
        },
{
    let mut i: usize = 0;
    while i < entries.len()
        invariant
            0 <= i <= entries@.len(),
            forall|j: int| 0 <= j < i ==> (#[trigger] entries@[j]).0@ != key@,
        decreases entries@.len() - i,
    {
        if bytes_eq(&entries[i].0, key) {
            return Some(i);
        }
        i = i + 1;
    }
    None
}

/// The bytes of the quoted currency code: `USD`.
pub open spec fn lit_usd() -> Seq<u8> {
    seq![85u8, 83u8, 68u8]
}

/// Normalize the crypto provider's payload for one symbol (already
/// upper-cased): the first entry under that symbol, quoted in `USD`.
///
/// `NotFound` exactly when the symbol has no entry; `MalformedResponse`
/// exactly when the entry lacks a `USD` quote. Otherwise every field of the
/// quote is forwarded unchanged.
pub fn normalize_crypto(resp: &CmcApiResponse, symbol: &Vec<u8>) -> (r: Result<
    CryptoQuote,
    LookupError,
>)
    ensures
        match r {
            Ok(q) => exists|i: int|
                0 <= i < resp.data@.len() && (#[trigger] resp.data@[i]).0@ == symbol@ && (forall|
                    j: int,
                | 0 <= j < i ==> (#[trigger] resp.data@[j]).0@ != symbol@) && ({
                    let c = resp.data@[i].1;
                    &&& q.symbol@ == c.symbol@
                    &&& q.name@ == c.name@
                    &&& exists|k: int|
                        0 <= k < c.quote@.len() && (#[trigger] c.quote@[k]).0@ == lit_usd() && (
                        forall|m: int| 0 <= m < k ==> (#[trigger] c.quote@[m]).0@ != lit_usd())
                            && q.price_usd == c.quote@[k].1.price && q.change_1h
                            == c.quote@[k].1.change_1h && q.change_24h == c.quote@[k].1.change_24h
                            && q.change_7d == c.quote@[k].1.change_7d && q.market_cap
                            == c.quote@[k].1.market_cap && q.volume_24h == c.quote@[k].1.volume_24h
                }),
            Err(LookupError::NotFound(query)) => query@ == symbol@ && (forall|j: int|
                0 <= j < resp.data@.len() ==> (#[trigger] resp.data@[j]).0@ != symbol@),
            Err(LookupError::MalformedResponse) => exists|i: int|
                0 <= i < resp.data@.len() && (#[trigger] resp.data@[i]).0@ == symbol@ && (forall|
                    j: int,
                | 0 <= j < i ==> (#[trigger] resp.data@[j]).0@ != symbol@) && (forall|k: int|
                    0 <= k < resp.data@[i].1.quote@.len() ==> (
                    #[trigger] resp.data@[i].1.quote@[k]).0@ != lit_usd()),
            Err(LookupError::Transport(_)) => false,
        },
{
    let found = find_crypto(&resp.data, symbol);
    match found {
        None => Err(LookupError::NotFound(crate::bytes::copy_bytes(symbol))),
        Some(i) => {
            let c = &resp.data[i].1;
            let usd: Vec<u8> = vec![85u8, 83u8, 68u8];
            proof {
                assert(usd@ =~= lit_usd());
            }
            let q = find_quote(&c.quote, &usd);
            match q {
                None => Err(LookupError::MalformedResponse),
                Some(k) => {
                    let quote = c.quote[k].1;
                    Ok(CryptoQuote {
                        symbol: crate::bytes::copy_bytes(&c.symbol),
                        name: crate::bytes::copy_bytes(&c.name),
                        price_usd: quote.price,
                        change_1h: quote.change_1h,
                        change_24h: quote.change_24h,
                        change_7d: quote.change_7d,
                        market_cap: quote.market_cap,
                        volume_24h: quote.volume_24h,
                    })
                },
            }
        },
    }
}

/// The current price of one symbol in micro-units: the same selection
/// `normalize_crypto` makes, reduced to the price. `Some` exactly when the
/// payload holds an entry for the symbol with a `USD` quote — then it is the
/// first such entry's first `USD` price — and `None` exactly when it does
/// not.
pub fn crypto_price_micro(resp: &CmcApiResponse, symbol: &Vec<u8>) -> (r: Option<u64>)
    ensures
        match r {
            Some(p) => exists|i: int|
                0 <= i < resp.data@.len() && (#[trigger] resp.data@[i]).0@ == symbol@ && (forall|
                    j: int,
                | 0 <= j < i ==> (#[trigger] resp.data@[j]).0@ != symbol@) && exists|k: int|
                    0 <= k < resp.data@[i].1.quote@.len() && (
                    #[trigger] resp.data@[i].1.quote@[k]).0@ == lit_usd() && (forall|m: int|
                    0 <= m < k ==> (#[trigger] resp.data@[i].1.quote@[m]).0@ != lit_usd()) && p
                        == resp.data@[i].1.quote@[k].1.price,
            None => forall|i: int|
                0 <= i < resp.data@.len() && (#[trigger] resp.data@[i]).0@ == symbol@ && (forall|
                    j: int,
                | 0 <= j < i ==> (#[trigger] resp.data@[j]).0@ != symbol@) ==> (forall|k: int|
                    0 <= k < resp.data@[i].1.quote@.len() ==> (
                    #[trigger] resp.data@[i].1.quote@[k]).0@ != lit_usd()),
        },
{
    let found = find_crypto(&resp.data, symbol);
    match found {
        None => None,
        Some(i) => {
            let c = &resp.data[i].1;
            let usd: Vec<u8> = vec![85u8, 83u8, 68u8];
            proof {
                assert(usd@ =~= lit_usd());
            }
            let q = find_quote(&c.quote, &usd);
            match q {
                None => None,
                Some(k) => Some(c.quote[k].1.price),
            }
        },
    }
}

/// Normalize one instrument from the equities screener. Pure field mapping:
/// an absent price block stays an explicit absence, compliance comes from
/// the index listing flag, and the two ratio fields stay absent when the
/// upstream omits them.
pub fn normalize_equity(resp: &SyariahApiResponse) -> (q: EquityQuote)
    ensures
        q.code@ == resp.code@,
        q.name@ == resp.name@,
        q.price == (match resp.harga {
            Some(h) => h.now,
            None => None,
        }),
        q.price_change == (match resp.harga {
            Some(h) => h.delta_price,
            None => None,
        }),
        q.sharia_compliant == (resp.issi matches Some(true)),
        q.market_cap == resp.market_cap,
        q.debt_ratio == (match resp.syariah_indicator {
            Some(si) => si.hutang_bunga,
            None => None,
        }),
        q.non_halal_revenue_ratio == (match resp.syariah_indicator {
            Some(si) => si.non_halal,
            None => None,
        }),
        match resp.sector {
            Some(sec) => q.sector matches Some(s2) && s2@ == sec@,
            None => q.sector is None,
        },
{
    let price = match &resp.harga {
        Some(h) => h.now,
        None => None,
    };
    let change = match &resp.harga {
        Some(h) => h.delta_price,
        None => None,
    };
    let compliant = match resp.issi {
        Some(b) => b,
        None => false,
    };
    let debt = match &resp.syariah_indicator {
        Some(si) => si.hutang_bunga,
        None => None,
    };
    let non_halal = match &resp.syariah_indicator {
        Some(si) => si.non_halal,
        None => None,
    };
    let sector = match &resp.sector {
        Some(sec) => Some(crate::bytes::copy_bytes(sec)),
        None => None,
    };
    EquityQuote {
        code: crate::bytes::copy_bytes(&resp.code),
        name: crate::bytes::copy_bytes(&resp.name),
        sector,
        price,
        price_change: change,
        market_cap: resp.market_cap,
        sharia_compliant: compliant,
        debt_ratio: debt,
        non_halal_revenue_ratio: non_halal,
    }
}

/// `needle` occurs contiguously inside `hay`.
pub open spec fn is_substring(hay: Seq<u8>, needle: Seq<u8>) -> bool {
    exists|k: int|
        0 <= k <= hay.len() - needle.len() && #[trigger] hay.subrange(k, k + needle.len())
            == needle
}

/// The needle occurs at position `k` of the haystack.
fn match_at(hay: &Vec<u8>, needle: &Vec<u8>, k: usize) -> (r: bool)
    requires
        k + needle@.len() <= hay@.len(),
    ensures
        r == (hay@.subrange(k as int, k as int + needle@.len()) == needle@),
{
    let hl = hay.len();
    let nl = needle.len();
    let mut m: usize = 0;
    while m < nl
        invariant
            0 <= m <= nl,
            nl == needle@.len(),
            hl == hay@.len(),
            k + nl <= hl,
            forall|m0: int| 0 <= m0 < m ==> hay@[k + m0] == needle@[m0],
        decreases nl - m,
    {
        if hay[k + m] != needle[m] {
            proof {
                assert(hay@.subrange(k as int, k as int + needle@.len())[m as int] == hay@[k
                    + m as int]);
            }
            return false;
        }
        m = m + 1;
    }
    proof {
        assert(hay@.subrange(k as int, k as int + needle@.len()) =~= needle@);
    }
    true
}

/// Substring search, byte for byte.
pub fn contains_bytes(hay: &Vec<u8>, needle: &Vec<u8>) -> (r: bool)
    ensures
        r == is_substring(hay@, needle@),
{
    if needle.len() > hay.len() {
        proof {
            assert(!is_substring(hay@, needle@));
        }
        return false;
    }
    if needle.len() == 0 {
        proof {
            assert(hay@.subrange(0, 0 + needle@.len() as int) =~= needle@);
        }
        return true;
    }
    let hlen = hay.len();
    let limit = hay.len() - needle.len();
    let mut k: usize = 0;
    while k <= limit
        invariant
            1 <= needle@.len() <= hay@.len(),
            hlen == hay@.len(),
            limit == hay@.len() - needle@.len(),
            0 <= k <= limit + 1,
            forall|k0: int|
                0 <= k0 < k ==> #[trigger] hay@.subrange(k0, k0 + needle@.len()) != needle@,
        decreases hay@.len() - needle@.len() + 1 - k,
    {
        if match_at(hay, needle, k) {
            return true;
        }
        k = k + 1;
    }
    proof {
        assert(!is_substring(hay@, needle@));
    }
    false
}

/// The tie-break rule for fuzzy token search: a pair matches when its base
/// symbol or its contract address contains the query, both compared
/// case-insensitively.
pub open spec fn pair_matches(p: DexPairData, query: Seq<u8>) -> bool {
    is_substring(upper_spec(p.base_token.symbol@), upper_spec(query)) || is_substring(
        upper_spec(p.base_token.address@),
        upper_spec(query),
    )
}

/// The first pair that matches the query, if any.
pub fn select_pair(pairs: &Vec<DexPairData>, query: &Vec<u8>) -> (r: Option<usize>)
    ensures
        match r {
            Some(i) => i < pairs@.len() && pair_matches(pairs@[i as int], query@) && (forall|
                j: int,
            | 0 <= j < i ==> !pair_matches(#[trigger] pairs@[j], query@)),
            None => forall|j: int| 0 <= j < pairs@.len() ==> !pair_matches(
                #[trigger] pairs@[j],
                query@,
            ),
        },
{
    let upper_query = to_upper(query);
    let mut i: usize = 0;
    while i < pairs.len()
        invariant
            0 <= i <= pairs@.len(),
            upper_query@ == upper_spec(query@),
            forall|j: int| 0 <= j < i ==> !pair_matches(#[trigger] pairs@[j], query@),
        decreases pairs@.len() - i,
    {
        let sym_upper = to_upper(&pairs[i].base_token.symbol);
        let addr_upper = to_upper(&pairs[i].base_token.address);
        if contains_bytes(&sym_upper, &upper_query) || contains_bytes(&addr_upper, &upper_query) {
            return Some(i);
        }
        i = i + 1;
    }
    None
}

/// Normalize the on-chain screener's payload for a query: the first pair
/// whose symbol or address matches, forwarded field by field; `NotFound`
/// exactly when no pair matches (or none came back).
pub fn normalize_onchain(resp: &DexScreenerResponse, query: &Vec<u8>) -> (r: Result<
    OnChainTokenQuote,
    LookupError,
>)
    ensures
        match r {
            Ok(q) => resp.pairs matches Some(ps) && exists|i: int|
                0 <= i < ps@.len() && pair_matches(#[trigger] ps@[i], query@) && (forall|j: int|
                    0 <= j < i ==> !pair_matches(#[trigger] ps@[j], query@)) && ({
                    let p = ps@[i];
                    &&& q.symbol@ == p.base_token.symbol@
                    &&& q.name@ == p.base_token.name@
                    &&& q.contract_address@ == p.base_token.address@
                    &&& (match p.price_usd {
                        Some(pu) => q.price_usd matches Some(qp) && qp@ == pu@,
                        None => q.price_usd is None,
                    })
                    &&& q.change_1h == (match p.price_change {
                        Some(pc) => pc.h1,
                        None => None,
                    })
                    &&& q.change_24h == (match p.price_change {
                        Some(pc) => pc.h24,
                        None => None,
                    })
                    &&& q.liquidity_usd == (match p.liquidity {
                        Some(l) => l.usd,
                        None => None,
                    })
                    &&& q.volume_24h == (match p.volume {
                        Some(v) => v.h24,
                        None => None,
                    })
                }),
            Err(LookupError::NotFound(qq)) => qq@ == query@ && (match resp.pairs {
                Some(ps) => forall|j: int|
                    0 <= j < ps@.len() ==> !pair_matches(#[trigger] ps@[j], query@),
                None => true,
            }),
            Err(LookupError::Transport(_)) => false,
            Err(LookupError::MalformedResponse) => false,
        },
{
    match &resp.pairs {
        None => Err(LookupError::NotFound(crate::bytes::copy_bytes(query))),
        Some(ps) => {
            let sel = select_pair(ps, query);
            match sel {
                None => Err(LookupError::NotFound(crate::bytes::copy_bytes(query))),
                Some(i) => {
                    let p = &ps[i];
                    let price_usd = match &p.price_usd {
                        Some(pu) => Some(crate::bytes::copy_bytes(pu)),
                        None => None,
                    };
                    let change_1h = match &p.price_change {
                        Some(pc) => pc.h1,
                        None => None,
                    };
                    let change_24h = match &p.price_change {
                        Some(pc) => pc.h24,
                        None => None,
                    };
                    let liquidity_usd = match &p.liquidity {
                        Some(l) => l.usd,
                        None => None,
                    };
                    let volume_24h = match &p.volume {
                        Some(v) => v.h24,
                        None => None,
                    };
                    Ok(OnChainTokenQuote {
                        symbol: crate::bytes::copy_bytes(&p.base_token.symbol),
                        name: crate::bytes::copy_bytes(&p.base_token.name),
                        contract_address: crate::bytes::copy_bytes(&p.base_token.address),
                        price_usd,
                        change_1h,
                        change_24h,
                        liquidity_usd,
                        volume_24h,
                    })
                },
            }
        },
    }
}

/// The sentiment band a score falls in, by the fixed cut points: up to 25
/// extreme fear, up to 45 fear, up to 55 neutral, up to 75 greed, above
/// that extreme greed.
pub open spec fn sentiment_level_spec(score: int) -> SentimentLevel {
    if score <= 25 {
        SentimentLevel::ExtremeFear
    } else if score <= 45 {
        SentimentLevel::Fear
    } else if score <= 55 {
        SentimentLevel::Neutral
    } else if score <= 75 {
        SentimentLevel::Greed
    } else {
        SentimentLevel::ExtremeGreed
    }
}

/// Classify a sentiment score into its band.
pub fn sentiment_level(score: u8) -> (r: SentimentLevel)
    ensures
        r == sentiment_level_spec(score as int),
{
    if score <= 25 {
        SentimentLevel::ExtremeFear
    } else if score <= 45 {
        SentimentLevel::Fear
    } else if score <= 55 {
        SentimentLevel::Neutral
    } else if score <= 75 {
        SentimentLevel::Greed
    } else {
        SentimentLevel::ExtremeGreed
    }
}

/// How many of the twenty gauge cells are filled for a score: one per five
/// points.
pub fn sentiment_bar_filled(score: u8) -> (r: u8)
    requires
        score <= 100,
    ensures
        r == score as int / 5,
        r <= 20,
{
    score / 5
}

/// Normalize the sentiment payload: the newest reading's score, parsed from
/// its digit string, classified and bounded to 0..=100. A missing reading,
/// a non-numeric score, or one above 100 is `MalformedResponse` — an
/// explicit failure, never a silent zero.
pub fn normalize_sentiment(resp: &FearGreedResponse) -> (r: Result<SentimentReading, LookupError>)
    ensures
        match r {
            Ok(s) => resp.data@.len() > 0 && ({
                let first = resp.data@[0];
                &&& first.value@.len() > 0
                &&& all_digits(first.value@)
                &&& s.score as int == digits_val(first.value@)
                &&& s.score <= 100
                &&& s.classification == sentiment_level_spec(s.score as int)
                &&& s.label@ == first.value_classification@
            }),
            Err(LookupError::MalformedResponse) => resp.data@.len() == 0 || ({
                let first = resp.data@[0];
                first.value@.len() == 0 || !all_digits(first.value@) || digits_val(first.value@)
                    > 100
            }),
            Err(LookupError::NotFound(_)) => false,
            Err(LookupError::Transport(_)) => false,
        },
{
    if resp.data.len() == 0 {
        return Err(LookupError::MalformedResponse);
    }
    let first = &resp.data[0];
    let n = first.value.len();
    if n == 0 {
        return Err(LookupError::MalformedResponse);
    }
    let mut acc: u64 = 0;
    let mut i: usize = 0;
    while i < n
        invariant
            0 <= i <= n,
            resp.data@.len() > 0,
            first.value@ == resp.data@[0].value@,
            first.value_classification@ == resp.data@[0].value_classification@,
            n == first.value@.len(),
            n >= 1,
            forall|j: int| 0 <= j < i ==> is_digit(first.value@[j]),
            acc as int == digits_val(first.value@.subrange(0, i as int)),
            acc <= 100,
        decreases n - i,
    {
        let b = first.value[i];
        if !(48 <= b && b <= 57) {
            proof {
                assert(!is_digit(first.value@[i as int]));
                assert(!all_digits(first.value@));
            }
            return Err(LookupError::MalformedResponse);
        }
        let d = (b - 48) as u64;
        proof {
            let pre = first.value@.subrange(0, i + 1 as int);
            assert(pre.drop_last() =~= first.value@.subrange(0, i as int));
            assert(digits_val(pre) == acc as int * 10 + d);
        }
        if acc > 10 || acc * 10 + d > 100 {
            // The full string can only denote something larger still.
            proof {
                let full = first.value@;
                let pre = full.subrange(0, i + 1 as int);
                assert(digits_val(pre) > 100);
                if all_digits(full) {
                    crate::bytes::lemma_digits_val_prefix(full, i + 1 as int);
                    assert(digits_val(full) > 100);
                }
            }
            return Err(LookupError::MalformedResponse);
        }
        acc = acc * 10 + d;
        i = i + 1;
    }
    proof {
        assert(first.value@.subrange(0, n as int) =~= first.value@);
    }
    let score = acc as u8;
    let level = sentiment_level(score);
    Ok(SentimentReading {
        score,
        classification: level,
        label: crate::bytes::copy_bytes(&first.value_classification),
    })
}

/// The fixed process-wide conversion rate from account currency to the
/// display currency, applied only at the presentation boundary.
pub const USD_TO_IDR_RATE: u64 = 15800;

/// Convert a micro-unit price with the fixed display rate; `None` exactly
/// when the exact product overflows.
pub fn usd_to_idr_micro(usd_micro: u64) -> (r: Option<u64>)
    ensures
        match r {
            Some(v) => v == usd_micro * USD_TO_IDR_RATE,
            None => usd_micro * USD_TO_IDR_RATE > u64::MAX,
        },
{
    usd_micro.checked_mul(USD_TO_IDR_RATE)
}

} // verus!
