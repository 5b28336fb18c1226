use vstd::prelude::*;

use crate::error::ParseError;
use crate::options::{date_text_parses, option_type_code, parse_date, OptionScrip, OptionType};
use crate::stock::{IndexScrip, StockScrip};
use crate::text::{all_digits, dec_value, parse_u32, split_fields, split_on, str_eq};

verus! {

/// The exchanges an instrument can be listed on.
#[derive(Copy, Debug, Clone, PartialEq, Eq, Structural)]
pub enum Exchange {
    NSE,
    BSE,
    MCX,
}

/// The market segment an instrument trades in. Options and futures are kept
/// apart, because the segment code decides how a composite key is read.
#[derive(Copy, Debug, Clone, PartialEq, Eq, Structural)]
pub enum ExchangeType {
    Cash,
    Index,
    Options,
    Futures,
}

/// The short code of an exchange, as it appears in a key.
pub open spec fn exchange_code(e: Exchange) -> Seq<char> {
    match e {
        Exchange::NSE => seq!['N', 'S', 'E'],
        Exchange::BSE => seq!['B', 'S', 'E'],
        Exchange::MCX => seq!['M', 'C', 'X'],
    }
}

/// Whether `s` is the code of some exchange.
pub open spec fn is_exchange_code(s: Seq<char>) -> bool {
    s == exchange_code(Exchange::NSE) || s == exchange_code(Exchange::BSE) || s == exchange_code(
        Exchange::MCX,
    )
}

/// The one-letter code of an exchange segment, as it appears in a key.
pub open spec fn exchange_type_code(t: ExchangeType) -> Seq<char> {
    match t {
        ExchangeType::Cash => seq!['C'],
        ExchangeType::Index => seq!['I'],
        ExchangeType::Options => seq!['O'],
        ExchangeType::Futures => seq!['F'],
    }
}

/// Whether `s` is the code of some exchange segment.
pub open spec fn is_exchange_type_code(s: Seq<char>) -> bool {
    s == exchange_type_code(ExchangeType::Cash) || s == exchange_type_code(ExchangeType::Index)
        || s == exchange_type_code(ExchangeType::Options) || s == exchange_type_code(
        ExchangeType::Futures,
    )
}

impl Exchange {
    /// The exchange named by a short code, or `None` for an unknown code.
    pub fn from_code(s: &str) -> (r: Option<Exchange>)
        ensures
            r is Some <==> is_exchange_code(s@),
            r matches Some(e) ==> s@ == exchange_code(e),
    {
        proof {
            reveal_strlit("NSE");
            reveal_strlit("BSE");
            reveal_strlit("MCX");
            assert("NSE"@ =~= exchange_code(Exchange::NSE));
            assert("BSE"@ =~= exchange_code(Exchange::BSE));
            assert("MCX"@ =~= exchange_code(Exchange::MCX));
        }
        if str_eq(s, "NSE") {
            Some(Exchange::NSE)
        } else if str_eq(s, "BSE") {
            Some(Exchange::BSE)
        } else if str_eq(s, "MCX") {
            Some(Exchange::MCX)
        } else {
            None
        }
    }

    /// The short code of this exchange.
    pub fn code_str(&self) -> (r: &'static str)
        ensures
            r@ == exchange_code(*self),
    {
        proof {
            reveal_strlit("NSE");
            reveal_strlit("BSE");
            reveal_strlit("MCX");
        }
        let r = match self {
            Exchange::NSE => "NSE",
            Exchange::BSE => "BSE",
            Exchange::MCX => "MCX",
        };
        proof {
            assert(r@ =~= exchange_code(*self));
        }
        r
    }

    /// The short code of this exchange as an owned string.
    pub fn to_string(&self) -> (r: String)
        ensures
            r@ == exchange_code(*self),
    {
        self.code_str().to_owned()
    }
}

impl ExchangeType {
    /// The exchange segment named by a one-letter code, or `None` for an
    /// unknown code.
    pub fn from_code(s: &str) -> (r: Option<ExchangeType>)
        ensures
            r is Some <==> is_exchange_type_code(s@),
            r matches Some(t) ==> s@ == exchange_type_code(t),
    {
        proof {
            reveal_strlit("C");
            reveal_strlit("I");
            reveal_strlit("O");
            reveal_strlit("F");
            assert("C"@ =~= exchange_type_code(ExchangeType::Cash));
            assert("I"@ =~= exchange_type_code(ExchangeType::Index));
            assert("O"@ =~= exchange_type_code(ExchangeType::Options));
            assert("F"@ =~= exchange_type_code(ExchangeType::Futures));
        }
        if str_eq(s, "C") {
            Some(ExchangeType::Cash)
        } else if str_eq(s, "I") {
            Some(ExchangeType::Index)
        } else if str_eq(s, "O") {
            Some(ExchangeType::Options)
        } else if str_eq(s, "F") {
            Some(ExchangeType::Futures)
        } else {
            None
        }
    }

    /// The one-letter code of this segment.
    pub fn code_str(&self) -> (r: &'static str)
        ensures
            r@ == exchange_type_code(*self),
    {
        proof {
            reveal_strlit("C");
            reveal_strlit("I");
            reveal_strlit("O");
            reveal_strlit("F");
        }
        let r = match self {
            ExchangeType::Cash => "C",
            ExchangeType::Index => "I",
            ExchangeType::Options => "O",
            ExchangeType::Futures => "F",
        };
        proof {
            assert(r@ =~= exchange_type_code(*self));
        }
        r
    }

    /// The one-letter code of this segment as an owned string.
    pub fn to_string(&self) -> (r: String)
        ensures
            r@ == exchange_type_code(*self),
    {
        self.code_str().to_owned()
    }
}

/// An instrument known only by its raw key string.
#[derive(Debug)]
pub struct RawScrip {
    pub key: String,
}

impl RawScrip {
    /// The key is the identity itself.
    pub fn key(&self) -> (r: String)
        ensures
            r@ == self.key@,
    {
        self.key.clone()
    }
}

impl Clone for RawScrip {
    /// A copy with exactly the same key.
    fn clone(&self) -> (r: Self)
        ensures
            r == self,
    {
        RawScrip { key: self.key.clone() }
    }
}

/// A tradeable instrument: a stock, an index or an option. Two values are
/// the same instrument exactly when their canonical keys are equal.
#[derive(Debug)]
pub enum Scrip {
    Stock(StockScrip),
    Index(IndexScrip),
    Option(OptionScrip),
}

impl Scrip {
    /// The canonical key of the instrument, whichever variant carries it.
    pub open spec fn spec_key(self) -> Seq<char> {
        match self {
            Scrip::Stock(s) => s.spec_key(),
            Scrip::Index(i) => i.spec_key(),
            Scrip::Option(o) => o.spec_key(),
        }
    }

    /// The canonical key string of the instrument.
    pub fn key(&self) -> (r: String)
        ensures
            r@ == self.spec_key(),
    {
        match self {
            Scrip::Stock(s) => s.key(),
            Scrip::Index(i) => i.key(),
            Scrip::Option(o) => o.key(),
        }
    }
}

/// The four segment codes are pairwise distinct.
pub proof fn lemma_exchange_type_codes_distinct()
    ensures
        forall|a: ExchangeType, b: ExchangeType|
            a != b ==> exchange_type_code(a) != exchange_type_code(b),
{
    assert forall|a: ExchangeType, b: ExchangeType|
        a != b implies exchange_type_code(a) != exchange_type_code(b) by {
        assert(exchange_type_code(a)[0] == match a {
            ExchangeType::Cash => 'C',
            ExchangeType::Index => 'I',
            ExchangeType::Options => 'O',
            ExchangeType::Futures => 'F',
        });
        assert(exchange_type_code(b)[0] == match b {
            ExchangeType::Cash => 'C',
            ExchangeType::Index => 'I',
            ExchangeType::Options => 'O',
            ExchangeType::Futures => 'F',
        });
    }
}

/// Why the colon-separated fields of a key fail to name an instrument, or
/// `None` when they name one. A key has either three fields (stock or
/// index) or six (option: expiry, strike and kind follow the segment).
pub open spec fn key_parse_error(parts: Seq<Seq<char>>) -> Option<ParseError> {
    if parts.len() != 3 && parts.len() != 6 {
        Some(ParseError::MalformedKey)
    } else if !is_exchange_code(parts[1]) {
        Some(ParseError::UnknownExchange)
    } else if !is_exchange_type_code(parts[2]) {
        Some(ParseError::UnknownExchangeType)
    } else if parts.len() == 3 {
        if parts[2] == exchange_type_code(ExchangeType::Cash) || parts[2] == exchange_type_code(
            ExchangeType::Index,
        ) {
            None
        } else {
            Some(ParseError::MalformedKey)
        }
    } else if parts[2] != exchange_type_code(ExchangeType::Options) {
        if parts[2] == exchange_type_code(ExchangeType::Futures) {
            Some(ParseError::UnsupportedSegment)
        } else {
            Some(ParseError::MalformedKey)
        }
    } else if date_text_parses(parts[3]) is None {
        Some(ParseError::BadDate)
    } else if !(parts[4].len() > 0 && all_digits(parts[4]) && dec_value(parts[4]) <= u32::MAX) {
        Some(ParseError::BadNumber)
    } else if parts[5] != option_type_code(OptionType::CE) && parts[5] != option_type_code(
        OptionType::PE,
    ) {
        Some(ParseError::UnknownOptionType)
    } else {
        None
    }
}

/// The instrument a well-formed key names, field by field. An option's
/// underlying reference is informational only and cannot be recovered from
/// the option's own key, so a parsed option carries none.
pub open spec fn scrip_matches_parts(s: Scrip, parts: Seq<Seq<char>>) -> bool {
    if parts.len() == 3 {
        if parts[2] == exchange_type_code(ExchangeType::Cash) {
            s matches Scrip::Stock(st) && st.name@ == parts[0] && exchange_code(st.exchange)
                == parts[1] && st.exchange_type == ExchangeType::Cash
        } else {
            s matches Scrip::Index(ix) && ix.name@ == parts[0] && exchange_code(ix.exchange)
                == parts[1] && ix.exchange_type == ExchangeType::Index
        }
    } else {
        s matches Scrip::Option(o) && o.name@ == parts[0] && exchange_code(o.exchange) == parts[1]
            && o.exchange_type == ExchangeType::Options && Some(o.expiry) == date_text_parses(
            parts[3],
        ) && o.strike == dec_value(parts[4]) && option_type_code(o.option_type) == parts[5]
            && o.underlying is None
    }
}

impl Scrip {
    /// Reads an instrument back from its colon-separated key. Every
    /// malformed key is rejected with the reason; nothing panics.
    pub fn from_key(key: &str) -> (r: Result<Scrip, ParseError>)
        ensures
            r is Ok <==> key_parse_error(split_on(key@, ':')) is None,
            r matches Err(e) ==> Some(e) == key_parse_error(split_on(key@, ':')),
            r matches Ok(s) ==> scrip_matches_parts(s, split_on(key@, ':')),
    {
        let ghost parts_spec = split_on(key@, ':');
        let parts = split_fields(key, ':');
        proof {
            lemma_exchange_type_codes_distinct();
            assert forall|i: int| 0 <= i < parts@.len() implies parts@[i]@ == parts_spec[i] by {
                assert(parts@.map_values(|p: String| p@)[i] == parts@[i]@);
            }
        }
        if parts.len() != 3 && parts.len() != 6 {
            return Err(ParseError::MalformedKey);
        }
        let exchange = match Exchange::from_code(parts[1].as_str()) {
            Some(e) => e,
            None => {
                return Err(ParseError::UnknownExchange);
            },
        };
        let exchange_type = match ExchangeType::from_code(parts[2].as_str()) {
            Some(t) => t,
            None => {
                return Err(ParseError::UnknownExchangeType);
            },
        };
        if parts.len() == 3 {
            return match exchange_type {
                ExchangeType::Cash => Ok(
                    Scrip::Stock(
                        StockScrip {
                            name: parts[0].clone(),
                            exchange,
                            exchange_type: ExchangeType::Cash,
                        },
                    ),
                ),
                ExchangeType::Index => Ok(
                    Scrip::Index(
                        IndexScrip {
                            name: parts[0].clone(),
                            exchange,
                            exchange_type: ExchangeType::Index,
                        },
                    ),
                ),
                _ => Err(ParseError::MalformedKey),
            };
        }
        match exchange_type {
            ExchangeType::Options => {},
            ExchangeType::Futures => {
                return Err(ParseError::UnsupportedSegment);
            },
            _ => {
                return Err(ParseError::MalformedKey);
            },
        }
        let expiry = match parse_date(parts[3].as_str()) {
            Ok(d) => d,
            Err(_) => {
                return Err(ParseError::BadDate);
            },
        };
        let strike = match parse_u32(parts[4].as_str()) {
            Some(v) => v,
            None => {
                return Err(ParseError::BadNumber);
            },
        };
        let option_type = if str_eq(parts[5].as_str(), "CE") {
            proof {
                reveal_strlit("CE");
                assert("CE"@ =~= option_type_code(OptionType::CE));
            }
            OptionType::CE
        } else if str_eq(parts[5].as_str(), "PE") {
            proof {
                reveal_strlit("PE");
                assert("PE"@ =~= option_type_code(OptionType::PE));
            }
            OptionType::PE
        } else {
            proof {
                reveal_strlit("CE");
                reveal_strlit("PE");
                assert("CE"@ =~= option_type_code(OptionType::CE));
                assert("PE"@ =~= option_type_code(OptionType::PE));
            }
            return Err(ParseError::UnknownOptionType);
        };
        Ok(
            Scrip::Option(
                OptionScrip {
                    name: parts[0].clone(),
                    exchange,
                    exchange_type: ExchangeType::Options,
                    strike,
                    option_type,
                    expiry,
                    underlying: None,
                },
            ),
        )
    }
}

impl Clone for Scrip {
    /// A copy naming exactly the same instrument.
    fn clone(&self) -> (r: Self)
        ensures
            r == self,
        decreases *self,
    {
        match self {
            Scrip::Stock(s) => Scrip::Stock(s.clone()),
            Scrip::Index(i) => Scrip::Index(i.clone()),
            Scrip::Option(o) => Scrip::Option(o.clone()),
        }
    }
}

impl PartialEq for Scrip {
    /// Identity is key equality: two variants with the same canonical key
    /// are the same instrument.
    fn eq(&self, other: &Self) -> (r: bool) {
        let a = self.key();
        let b = other.key();
        a == b
    }
}

impl vstd::std_specs::cmp::PartialEqSpecImpl for Scrip {
    open spec fn obeys_eq_spec() -> bool {
        true
    }

    open spec fn eq_spec(&self, other: &Self) -> bool {
        self.spec_key() == other.spec_key()
    }
}

} // verus!
