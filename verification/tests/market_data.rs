use tradebook::{AttrValue, Candle, CandleStamp, CompleteTicker, Date, IndexMetaData, MetaData};
use tradebook::{OptionChain, OptionChainScrip, ParseError, Scrip, StockMetaData, StockScrip, Ticker};
use tradebook::info::{format_time, format_timezone};
use tradebook::live_candle::{candle_key, candle_timestamps, candles_pattern};

#[test]
fn ticker_update_sets_scalar_fields() {
    let mut ticker = Ticker::new();
    ticker.update("ltp", 4_002_300).unwrap();
    ticker.update("open", 3_922_300).unwrap();
    ticker.update("total_bid", 30000).unwrap();
    ticker.update("depth", 5).unwrap();
    ticker.update("total_volume", 1_234_234).unwrap();
    assert_eq!(ticker.ltp, 4_002_300);
    assert_eq!(ticker.ohlc.open, 3_922_300);
    assert_eq!(ticker.depth.total_bid, 30000);
    assert_eq!(ticker.depth.depth, 5);
    assert_eq!(ticker.ohlc.volume, 1_234_234);
}

#[test]
fn ticker_update_grows_depth_levels_as_needed() {
    let mut ticker = Ticker::new();
    ticker.update("bid:rate:0", 4_001_500).unwrap();
    ticker.update("bid:quantity:0", 5).unwrap();
    ticker.update("ask:rate:2", 4_030_000).unwrap();
    assert_eq!(ticker.depth.bid.len(), 1);
    assert_eq!(ticker.depth.bid[0].price, 4_001_500);
    assert_eq!(ticker.depth.bid[0].quantity, 5);
    // Writing level 2 first pads levels 0 and 1 with zeroes.
    assert_eq!(ticker.depth.ask.len(), 3);
    assert_eq!(ticker.depth.ask[0].price, 0);
    assert_eq!(ticker.depth.ask[2].price, 4_030_000);
}

#[test]
fn ticker_update_rejects_bad_fields() {
    let mut ticker = Ticker::new();
    assert_eq!(ticker.update("depth", 256), Err(ParseError::ValueOutOfRange));
    assert_eq!(ticker.update("bogus", 1), Err(ParseError::MalformedKey));
    assert_eq!(ticker.update("bid:rate", 1), Err(ParseError::MalformedKey));
    assert_eq!(ticker.update("bid:rate:x", 1), Err(ParseError::BadNumber));
    assert_eq!(ticker.update("mid:rate:0", 1), Err(ParseError::MalformedKey));
    assert_eq!(
        ticker.update("ask:quantity:0", u32::MAX as u64 + 1),
        Err(ParseError::ValueOutOfRange)
    );
    assert_eq!(ticker.ltp, 0);
    assert!(ticker.depth.bid.is_empty() && ticker.depth.ask.is_empty());
}

#[test]
fn update_from_ticker_replaces_the_quote() {
    let mut ticker = Ticker::new();
    let mut fresh = Ticker::new();
    fresh.update("ltp", 777).unwrap();
    ticker.update_from_ticker(fresh);
    assert_eq!(ticker.ltp, 777);
}

#[test]
fn candle_updates_and_rejects_unknown_fields() {
    let mut candle = Candle::new(60_000);
    assert_eq!(candle.period, 60_000);
    assert_eq!(candle.volume, 0);
    candle.update("open", 100).unwrap();
    candle.update("high", 120).unwrap();
    candle.update("low", 90).unwrap();
    candle.update("close", 110).unwrap();
    candle.update("volume", 4242).unwrap();
    assert_eq!((candle.open, candle.high, candle.low, candle.close), (100, 120, 90, 110));
    assert_eq!(candle.volume, 4242);
    assert_eq!(candle.update("turnover", 1), Err(ParseError::MalformedKey));
}

#[test]
fn candle_stamps_parse_format_and_sort() {
    let stamp = CandleStamp::parse("2021/12/30-09.15").unwrap();
    assert_eq!(stamp, CandleStamp { year: 2021, month: 12, day: 30, hour: 9, minute: 15 });
    assert_eq!(stamp.format(), "2021/12/30-09.15");
    assert!(CandleStamp::parse("2021/13/30-09.15").is_err());
    assert!(CandleStamp::parse("2021/12/30-24.15").is_err());
    assert!(CandleStamp::parse("2021/12/30").is_err());

    let keys = vec![
        String::from("SBIN:NSE:C:CANDLES:2021/12/30-10.00"),
        String::from("SBIN:NSE:C:CANDLES:2021/12/30-09.15"),
        String::from("SBIN:NSE:C:CANDLES:2021/11/02-15.29"),
    ];
    let stamps = candle_timestamps(&keys).unwrap();
    assert_eq!(stamps.len(), 3);
    assert_eq!(stamps[0], CandleStamp { year: 2021, month: 11, day: 2, hour: 15, minute: 29 });
    assert_eq!(stamps[2].hour, 10);
    let bad = vec![String::from("SBIN:NSE:C:CANDLES:yesterday")];
    assert_eq!(candle_timestamps(&bad).unwrap_err(), ParseError::BadDate);
}

#[test]
fn candle_store_keys_are_built_from_the_stamp() {
    let stamp = CandleStamp { year: 2021, month: 12, day: 30, hour: 9, minute: 15 };
    assert_eq!(candle_key("SBIN:NSE:C", &stamp), "SBIN:NSE:C:CANDLES:2021/12/30-09.15");
    assert_eq!(candles_pattern("SBIN:NSE:C"), "SBIN:NSE:C:CANDLES:*");
}

#[test]
fn timezone_and_time_texts_parse() {
    assert_eq!(format_timezone("+05:30"), Ok(19800));
    assert_eq!(format_timezone("-08:00"), Ok(-28800));
    assert_eq!(format_timezone("+05.30extra"), Ok(19800));
    assert_eq!(format_timezone("05:30"), Err(ParseError::MalformedKey));
    assert_eq!(format_timezone("+5:30"), Err(ParseError::MalformedKey));
    assert_eq!(format_time("0930"), Ok(String::from("09.30")));
    assert_eq!(format_time("093015"), Ok(String::from("09.30")));
    assert_eq!(format_time("093"), Err(ParseError::MalformedKey));
}

#[test]
fn index_metadata_folds_a_response() {
    let items: Vec<(String, AttrValue)> = vec![
        (String::from("scrip"), AttrValue::S(String::from("NIFTY"))),
        (String::from("openTime"), AttrValue::S(String::from("0915"))),
        (String::from("closeTime"), AttrValue::S(String::from("1530"))),
        (String::from("currency"), AttrValue::S(String::from("inr"))),
        (String::from("exchange"), AttrValue::S(String::from("nse"))),
        (String::from("timezone"), AttrValue::S(String::from("+05:30"))),
        (
            String::from("constituents"),
            AttrValue::M(vec![
                (String::from("SBIN"), AttrValue::N(String::from("10.5"))),
                (String::from("TCS"), AttrValue::S(String::from("not a number"))),
                (String::from("INFY"), AttrValue::N(String::from("7.25"))),
            ]),
        ),
        (String::from("ignored"), AttrValue::Other),
    ];
    let meta = IndexMetaData::from_response(&items).unwrap();
    assert_eq!(meta.scrip, "NIFTY");
    assert_eq!(meta.open_time, "09.15");
    assert_eq!(meta.close_time, "15.30");
    assert_eq!(meta.currency, "INR");
    assert_eq!(meta.exchange, "NSE");
    assert_eq!(meta.timezone, 19800);
    assert_eq!(meta.constituents.len(), 2);
    assert_eq!(meta.constituents[0], (String::from("SBIN"), String::from("10.5")));
    assert_eq!(meta.constituents[1], (String::from("INFY"), String::from("7.25")));
}

#[test]
fn stock_metadata_keeps_market_cap_text() {
    let items: Vec<(String, AttrValue)> = vec![
        (String::from("scrip"), AttrValue::S(String::from("SBIN"))),
        (String::from("freeFloatMarketCap"), AttrValue::N(String::from("123456.78"))),
    ];
    let meta = StockMetaData::from_response(&items).unwrap();
    assert_eq!(meta.scrip, "SBIN");
    assert_eq!(meta.free_float_market_cap, "123456.78");
    assert_eq!(meta.timezone, 0);
}

#[test]
fn metadata_dispatches_on_the_type_attribute() {
    let stock_items = vec![
        (String::from("type"), AttrValue::S(String::from("cash"))),
        (String::from("scrip"), AttrValue::S(String::from("SBIN"))),
    ];
    assert!(matches!(MetaData::from_response(&stock_items), Ok(MetaData::Stock(_))));
    let index_items = vec![
        (String::from("type"), AttrValue::S(String::from("index"))),
        (String::from("scrip"), AttrValue::S(String::from("NIFTY"))),
    ];
    assert!(matches!(MetaData::from_response(&index_items), Ok(MetaData::Index(_))));
    let no_type = vec![(String::from("scrip"), AttrValue::S(String::from("SBIN")))];
    assert_eq!(MetaData::from_response(&no_type).unwrap_err(), ParseError::MalformedKey);
    let odd_type = vec![(String::from("type"), AttrValue::S(String::from("future")))];
    assert_eq!(MetaData::from_response(&odd_type).unwrap_err(), ParseError::MalformedKey);
}

#[test]
fn metadata_reports_a_bad_timezone() {
    let items = vec![
        (String::from("type"), AttrValue::S(String::from("cash"))),
        (String::from("timezone"), AttrValue::S(String::from("early"))),
    ];
    assert_eq!(MetaData::from_response(&items).unwrap_err(), ParseError::MalformedKey);
}

#[test]
fn complete_ticker_pairs_quote_and_instrument() {
    let scrip = Scrip::Stock(StockScrip::new("SBIN", "NSE", "C"));
    let mut quote = Ticker::new();
    quote.update("ltp", 4_002_300).unwrap();
    let mut complete = CompleteTicker::from_scrip(scrip, quote);
    assert_eq!(complete.ticker.ltp, 4_002_300);
    assert_eq!(complete.scrip.key(), "SBIN:NSE:C");
    let mut fresh = Ticker::new();
    fresh.update("ltp", 4_005_000).unwrap();
    complete.reload(fresh);
    assert_eq!(complete.ticker.ltp, 4_005_000);
}

#[test]
fn option_chain_pattern_covers_the_name() {
    let expiry = Date { year: 2021, month: 12, day: 30 };
    let chain_scrip = OptionChainScrip::new("SBIN", "NSE", "O", expiry, None);
    assert_eq!(chain_scrip.key(), "SBIN:NSE:O*");
}

#[test]
fn option_chain_lists_each_strike_once_in_order() {
    let expiry = Date { year: 2021, month: 12, day: 30 };
    let keys = vec![
        String::from("SBIN:NSE:O:30/12/2021:520:CE"),
        String::from("SBIN:NSE:O:30/12/2021:500:CE"),
        String::from("SBIN:NSE:O:30/12/2021:500:PE"),
        String::from("SBIN:NSE:O:30/12/2021:510:PE"),
    ];
    let chain = OptionChain::new("SBIN", "NSE", "O", expiry, None, &keys).unwrap();
    assert_eq!(chain.strikes(), vec![500, 510, 520]);
    let (call, put) = chain.at_strike(&510);
    assert_eq!(call.strike, 510);
    assert_eq!(put.strike, 510);
    assert_eq!(call.key(), "SBIN:NSE:O:30/12/2021:510:CE");
    assert_eq!(put.key(), "SBIN:NSE:O:30/12/2021:510:PE");
    assert!(chain.sanity_check());
}

#[test]
fn option_chain_refresh_adds_only_new_strikes() {
    let expiry = Date { year: 2021, month: 12, day: 30 };
    let keys = vec![String::from("SBIN:NSE:O:30/12/2021:500:CE")];
    let mut chain = OptionChain::new("SBIN", "NSE", "O", expiry, None, &keys).unwrap();
    let more = vec![
        String::from("SBIN:NSE:O:30/12/2021:500:PE"),
        String::from("SBIN:NSE:O:30/12/2021:490:CE"),
    ];
    chain.refresh_chain(&more).unwrap();
    assert_eq!(chain.strikes(), vec![490, 500]);
    let bad = vec![String::from("SBIN:NSE:O:30/12/2021:nine:CE")];
    assert_eq!(chain.refresh_chain(&bad).unwrap_err(), ParseError::BadNumber);
}

#[test]
fn option_chain_filters_strikes() {
    let expiry = Date { year: 2021, month: 12, day: 30 };
    let keys = vec![
        String::from("SBIN:NSE:O:30/12/2021:490:CE"),
        String::from("SBIN:NSE:O:30/12/2021:500:CE"),
        String::from("SBIN:NSE:O:30/12/2021:510:CE"),
    ];
    let mut chain = OptionChain::new("SBIN", "NSE", "O", expiry, None, &keys).unwrap();
    chain.filter_strikes_with(|_c: &OptionChain, s: u32| s >= 500);
    assert_eq!(chain.strikes(), vec![500, 510]);
}
