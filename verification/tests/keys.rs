use tradebook::{Date, Exchange, ExchangeType, OptionScrip, OptionType, ParseError, RawScrip};
use tradebook::{Scrip, StockScrip};

#[test]
fn stock_key_encodes_name_and_codes() {
    let scrip = StockScrip::new("SBIN", "NSE", "C");
    assert_eq!(scrip.key(), "SBIN:NSE:C");
    let index = StockScrip::new("NIFTY", "NSE", "I");
    assert_eq!(Scrip::Index(index).key(), "NIFTY:NSE:I");
}

#[test]
fn option_key_encodes_expiry_strike_and_kind() {
    let expiry = Date { year: 2021, month: 12, day: 30 };
    let option = OptionScrip::new("SBIN", "NSE", "O", expiry, 500, OptionType::CE, None);
    assert_eq!(option.key(), "SBIN:NSE:O:30/12/2021:500:CE");
    let put = OptionScrip::new("SBIN", "NSE", "O", expiry, 500, OptionType::PE, None);
    assert_eq!(Scrip::Option(put).key(), "SBIN:NSE:O:30/12/2021:500:PE");
}

#[test]
fn raw_scrip_key_is_itself() {
    let raw = RawScrip { key: String::from("ANY:KEY:AT:ALL") };
    assert_eq!(raw.key(), "ANY:KEY:AT:ALL");
}

#[test]
fn from_key_reads_a_stock_back() {
    let scrip = Scrip::from_key("SBIN:NSE:C").unwrap();
    match &scrip {
        Scrip::Stock(s) => {
            assert_eq!(s.name, "SBIN");
            assert!(matches!(s.exchange, Exchange::NSE));
            assert!(matches!(s.exchange_type, ExchangeType::Cash));
        },
        _ => panic!("expected a stock"),
    }
    assert_eq!(scrip.key(), "SBIN:NSE:C");
}

#[test]
fn from_key_reads_an_index_back() {
    let scrip = Scrip::from_key("NIFTY:NSE:I").unwrap();
    match &scrip {
        Scrip::Index(s) => {
            assert_eq!(s.name, "NIFTY");
            assert!(matches!(s.exchange_type, ExchangeType::Index));
        },
        _ => panic!("expected an index"),
    }
}

#[test]
fn from_key_reads_an_option_back() {
    let scrip = Scrip::from_key("SBIN:NSE:O:30/12/2021:500:CE").unwrap();
    match &scrip {
        Scrip::Option(o) => {
            assert_eq!(o.name, "SBIN");
            assert_eq!(o.expiry, Date { year: 2021, month: 12, day: 30 });
            assert_eq!(o.strike, 500);
            assert!(matches!(o.option_type, OptionType::CE));
            assert!(o.underlying.is_none());
        },
        _ => panic!("expected an option"),
    }
    assert_eq!(scrip.key(), "SBIN:NSE:O:30/12/2021:500:CE");
}

#[test]
fn from_key_rejects_each_malformed_field() {
    assert_eq!(Scrip::from_key("SBIN:NSE").unwrap_err(), ParseError::MalformedKey);
    assert_eq!(Scrip::from_key("SBIN:XXX:C").unwrap_err(), ParseError::UnknownExchange);
    assert_eq!(Scrip::from_key("SBIN:NSE:Z").unwrap_err(), ParseError::UnknownExchangeType);
    assert_eq!(Scrip::from_key("SBIN:NSE:O").unwrap_err(), ParseError::MalformedKey);
    assert_eq!(
        Scrip::from_key("SBIN:NSE:F:30/12/2021:500:CE").unwrap_err(),
        ParseError::UnsupportedSegment
    );
    assert_eq!(
        Scrip::from_key("SBIN:NSE:O:31/02/2021:500:CE").unwrap_err(),
        ParseError::BadDate
    );
    assert_eq!(
        Scrip::from_key("SBIN:NSE:O:30/12/2021:5x0:CE").unwrap_err(),
        ParseError::BadNumber
    );
    assert_eq!(
        Scrip::from_key("SBIN:NSE:O:30/12/2021:500:XX").unwrap_err(),
        ParseError::UnknownOptionType
    );
}

#[test]
fn exchange_codes_round_trip() {
    assert!(matches!(Exchange::from_code("NSE"), Some(Exchange::NSE)));
    assert!(matches!(Exchange::from_code("BSE"), Some(Exchange::BSE)));
    assert!(matches!(Exchange::from_code("MCX"), Some(Exchange::MCX)));
    assert!(Exchange::from_code("LSE").is_none());
    assert_eq!(Exchange::BSE.to_string(), "BSE");
    assert!(matches!(ExchangeType::from_code("F"), Some(ExchangeType::Futures)));
    assert!(ExchangeType::from_code("Q").is_none());
    assert_eq!(ExchangeType::Options.to_string(), "O");
}

#[test]
fn dates_follow_the_calendar() {
    assert!(Date { year: 2024, month: 2, day: 29 }.is_valid());
    assert!(!Date { year: 2023, month: 2, day: 29 }.is_valid());
    assert!(!Date { year: 2100, month: 2, day: 29 }.is_valid());
    assert!(Date { year: 2000, month: 2, day: 29 }.is_valid());
    assert!(!Date { year: 2021, month: 4, day: 31 }.is_valid());
    assert!(!Date { year: 2021, month: 0, day: 1 }.is_valid());
    assert_eq!(Date { year: 987, month: 1, day: 2 }.format(), "02/01/0987");
}

#[test]
fn decimal_text_round_trips() {
    assert_eq!(tradebook::text::u64_to_string(0), "0");
    assert_eq!(tradebook::text::u64_to_string(12345), "12345");
    assert_eq!(tradebook::text::parse_u32("12345"), Some(12345));
    assert_eq!(tradebook::text::parse_u32("007"), Some(7));
    assert_eq!(tradebook::text::parse_u32(""), None);
    assert_eq!(tradebook::text::parse_u32("12a"), None);
    assert_eq!(tradebook::text::parse_u32("4294967295"), Some(u32::MAX));
    assert_eq!(tradebook::text::parse_u32("4294967296"), None);
}
