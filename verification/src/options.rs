use vstd::prelude::*;

use crate::error::ParseError;
use crate::scrip::{exchange_code, exchange_type_code, is_exchange_code, is_exchange_type_code};
use crate::scrip::{Exchange, ExchangeType, Scrip};
use crate::text::{all_digits, dec_digits, dec_digits_2, dec_digits_4, dec_value, split_on};
use crate::text::{lemma_dec_value_lt, parse_u32, split_fields, ten_pow, u32_to_2_digits};
use crate::text::{u32_to_4_digits, u64_to_string};

verus! {

/// Whether an option is a call or a put.
#[derive(Debug, Clone, Copy, PartialEq, Eq, Structural)]
pub enum OptionType {
    CE,
    PE,
}

/// The code of an option kind, as it appears in a key.
pub open spec fn option_type_code(t: OptionType) -> Seq<char> {
    match t {
        OptionType::CE => seq!['C', 'E'],
        OptionType::PE => seq!['P', 'E'],
    }
}

impl OptionType {
    /// The two-letter code of this option kind.
    pub fn code_str(&self) -> (r: &'static str)
        ensures
            r@ == option_type_code(*self),
    {
        proof {
            reveal_strlit("CE");
            reveal_strlit("PE");
        }
        let r = match self {
            OptionType::CE => "CE",
            OptionType::PE => "PE",
        };
        proof {
            assert(r@ =~= option_type_code(*self));
        }
        r
    }

    /// The two-letter code of this option kind as an owned string.
    pub fn to_string(&self) -> (r: String)
        ensures
            r@ == option_type_code(*self),
    {
        self.code_str().to_owned()
    }
}

/// A calendar date held as plain year, month and day values.
#[derive(Debug, Clone, Copy, PartialEq, Eq, Structural)]
pub struct Date {
    pub year: u16,
    pub month: u8,
    pub day: u8,
}

/// The Gregorian leap-year rule.
pub open spec fn is_leap_year(y: int) -> bool {
    y % 4 == 0 && (y % 100 != 0 || y % 400 == 0)
}

/// Days in a month of the Gregorian calendar.
pub open spec fn days_in_month(y: int, m: int) -> int {
    if m == 2 {
        if is_leap_year(y) {
            29
        } else {
            28
        }
    } else if m == 4 || m == 6 || m == 9 || m == 11 {
        30
    } else {
        31
    }
}

impl Date {
    /// A real calendar date that also fits the four-digit year of a key.
    pub open spec fn valid(self) -> bool {
        &&& 1 <= self.month <= 12
        &&& 1 <= self.day <= days_in_month(self.year as int, self.month as int)
        &&& self.year <= 9999
    }

    /// Runtime check of `valid`.
    pub fn is_valid(&self) -> (b: bool)
        ensures
            b == self.valid(),
    {
        if self.month < 1 || self.month > 12 || self.year > 9999 {
            return false;
        }
        let leap = self.year % 4 == 0 && (self.year % 100 != 0 || self.year % 400 == 0);
        let limit: u8 = if self.month == 2 {
            if leap {
                29
            } else {
                28
            }
        } else if self.month == 4 || self.month == 6 || self.month == 9 || self.month == 11 {
            30
        } else {
            31
        };
        1 <= self.day && self.day <= limit
    }

    /// The `dd/mm/yyyy` rendering used inside option keys. Out-of-range
    /// components are reduced modulo the field width; a valid date renders
    /// unchanged.
    pub open spec fn spec_format(self) -> Seq<char> {
        dec_digits_2((self.day % 100) as int) + seq!['/'] + dec_digits_2((self.month % 100) as int)
            + seq!['/'] + dec_digits_4((self.year % 10000) as int)
    }

    /// Renders the date as `dd/mm/yyyy`.
    pub fn format(&self) -> (r: String)
        ensures
            r@ == self.spec_format(),
    {
        proof {
            reveal_strlit("/");
        }
        let day = u32_to_2_digits((self.day % 100) as u32);
        let month = u32_to_2_digits((self.month % 100) as u32);
        let year = u32_to_4_digits((self.year % 10000) as u32);
        let r = day.concat("/").concat(month.as_str()).concat("/").concat(year.as_str());
        proof {
            assert(r@ =~= self.spec_format());
        }
        r
    }
}

/// What a `dd/mm/yyyy` date text denotes: the date, when the text has
/// three all-digit fields of plausible width naming a real calendar date;
/// nothing otherwise.
pub open spec fn date_text_parses(s: Seq<char>) -> Option<Date> {
    let fields = split_on(s, '/');
    if fields.len() == 3 && 1 <= fields[0].len() <= 2 && all_digits(fields[0]) && 1 <= fields[1].len() <= 2
        && all_digits(fields[1]) && 1 <= fields[2].len() <= 4 && all_digits(fields[2]) {
        let d = Date {
            year: dec_value(fields[2]) as u16,
            month: dec_value(fields[1]) as u8,
            day: dec_value(fields[0]) as u8,
        };
        if d.valid() {
            Some(d)
        } else {
            None
        }
    } else {
        None
    }
}

/// Parses a `dd/mm/yyyy` date; rejects anything that is not a real
/// calendar date written that way.
pub fn parse_date(s: &str) -> (r: Result<Date, ParseError>)
    ensures
        r is Ok <==> date_text_parses(s@) is Some,
        r matches Ok(d) ==> date_text_parses(s@) == Some(d),
        r is Err ==> r == Err::<Date, ParseError>(ParseError::BadDate),
{
    let fields = split_fields(s, '/');
    proof {
        assert(fields@.map_values(|p: String| p@)[0] == fields@[0]@);
    }
    if fields.len() != 3 {
        return Err(ParseError::BadDate);
    }
    proof {
        assert(fields@[0]@ == split_on(s@, '/')[0]);
        assert(fields@[1]@ == split_on(s@, '/')[1]);
        assert(fields@[2]@ == split_on(s@, '/')[2]);
    }
    let day_len = fields[0].as_str().unicode_len();
    let month_len = fields[1].as_str().unicode_len();
    let year_len = fields[2].as_str().unicode_len();
    if day_len > 2 || month_len > 2 || year_len > 4 {
        return Err(ParseError::BadDate);
    }
    proof {
        assert(ten_pow(0) == 1);
        assert(ten_pow(1) == 10);
        assert(ten_pow(2) == 100);
        assert(ten_pow(3) == 1000);
        assert(ten_pow(4) == 10000);
        if fields@[0]@.len() > 0 && all_digits(fields@[0]@) {
            lemma_dec_value_lt(fields@[0]@);
            crate::text::lemma_ten_pow_mono(fields@[0]@.len(), 2);
        }
        if fields@[1]@.len() > 0 && all_digits(fields@[1]@) {
            lemma_dec_value_lt(fields@[1]@);
            crate::text::lemma_ten_pow_mono(fields@[1]@.len(), 2);
        }
        if fields@[2]@.len() > 0 && all_digits(fields@[2]@) {
            lemma_dec_value_lt(fields@[2]@);
            crate::text::lemma_ten_pow_mono(fields@[2]@.len(), 4);
        }
    }
    let day_val = match parse_u32(fields[0].as_str()) {
        Some(v) => v,
        None => {
            return Err(ParseError::BadDate);
        },
    };
    let month_val = match parse_u32(fields[1].as_str()) {
        Some(v) => v,
        None => {
            return Err(ParseError::BadDate);
        },
    };
    let year_val = match parse_u32(fields[2].as_str()) {
        Some(v) => v,
        None => {
            return Err(ParseError::BadDate);
        },
    };
    let d = Date { year: year_val as u16, month: month_val as u8, day: day_val as u8 };
    if d.is_valid() {
        Ok(d)
    } else {
        Err(ParseError::BadDate)
    }
}

/// A single option instrument: an underlying name at one strike, expiry and
/// kind. Its canonical key is
/// `name:exchange:segment:dd/mm/yyyy:strike:kind`.
#[derive(Debug)]
pub struct OptionScrip {
    pub name: String,
    pub exchange: Exchange,
    pub exchange_type: ExchangeType,
    pub strike: u32,
    pub option_type: OptionType,
    pub expiry: Date,
    pub underlying: Option<Box<Scrip>>,
}

impl OptionScrip {
    /// The canonical key of this option.
    pub open spec fn spec_key(self) -> Seq<char> {
        self.name@ + seq![':'] + exchange_code(self.exchange) + seq![':'] + exchange_type_code(
            self.exchange_type,
        ) + seq![':'] + self.expiry.spec_format() + seq![':'] + dec_digits(self.strike as nat)
            + seq![':'] + option_type_code(self.option_type)
    }

    /// Builds an option identity. The underlying reference is informational
    /// only: it takes no part in the key.
    pub fn new(
        name: &str,
        exchange: &str,
        exchange_type: &str,
        expiry: Date,
        strike: u32,
        option_type: OptionType,
        underlying: Option<Scrip>,
    ) -> (s: Self)
        requires
            is_exchange_code(exchange@),
            is_exchange_type_code(exchange_type@),
            expiry.valid(),
        ensures
            s.name@ == name@,
            exchange_code(s.exchange) == exchange@,
            exchange_type_code(s.exchange_type) == exchange_type@,
            s.expiry == expiry,
            s.strike == strike,
            s.option_type == option_type,
            s.underlying matches Some(u) <==> underlying is Some,
            underlying matches Some(u) ==> s.underlying matches Some(b) && *b == u,
    {
        let e = match Exchange::from_code(exchange) {
            Some(e) => e,
            None => vstd::pervasive::unreached(),
        };
        let t = match ExchangeType::from_code(exchange_type) {
            Some(t) => t,
            None => vstd::pervasive::unreached(),
        };
        let boxed_underlying = match underlying {
            Some(u) => Some(Box::new(u)),
            None => None,
        };
        Self {
            name: name.to_owned(),
            exchange: e,
            exchange_type: t,
            expiry,
            strike,
            option_type,
            underlying: boxed_underlying,
        }
    }

    /// The canonical key string of this option.
    pub fn key(&self) -> (r: String)
        ensures
            r@ == self.spec_key(),
    {
        proof {
            reveal_strlit(":");
        }
        let expiry = self.expiry.format();
        let strike = u64_to_string(self.strike as u64);
        let kind = self.option_type.code_str();
        let r = self.name.clone().concat(":").concat(self.exchange.code_str()).concat(
            ":",
        ).concat(self.exchange_type.code_str()).concat(":").concat(expiry.as_str()).concat(
            ":",
        ).concat(strike.as_str()).concat(":").concat(kind);
        proof {
            assert(r@ =~= self.spec_key());
        }
        r
    }
}

/// The shared identity of an option chain: the underlying name, venue,
/// segment and expiry; single options differ only in strike and kind.
#[derive(Debug)]
pub struct OptionChainScrip {
    pub name: String,
    pub exchange: Exchange,
    pub exchange_type: ExchangeType,
    pub expiry: Date,
    pub underlying: Option<Scrip>,
}

impl OptionChainScrip {
    /// Builds a chain identity from its name and the venue codes.
    pub fn new(
        name: &str,
        exchange: &str,
        exchange_type: &str,
        expiry: Date,
        underlying: Option<Scrip>,
    ) -> (s: Self)
        requires
            is_exchange_code(exchange@),
            is_exchange_type_code(exchange_type@),
        ensures
            s.name@ == name@,
            exchange_code(s.exchange) == exchange@,
            exchange_type_code(s.exchange_type) == exchange_type@,
            s.expiry == expiry,
            s.underlying == underlying,
    {
        let e = match Exchange::from_code(exchange) {
            Some(e) => e,
            None => vstd::pervasive::unreached(),
        };
        let t = match ExchangeType::from_code(exchange_type) {
            Some(t) => t,
            None => vstd::pervasive::unreached(),
        };
        Self { name: name.to_owned(), exchange: e, exchange_type: t, expiry, underlying }
    }

    /// The store pattern that matches every option key under this name:
    /// `name:exchange:segment*`.
    pub fn key(&self) -> (r: String)
        ensures
            r@ == self.name@ + seq![':'] + exchange_code(self.exchange) + seq![':']
                + exchange_type_code(self.exchange_type) + seq!['*'],
    {
        proof {
            reveal_strlit(":");
            reveal_strlit("*");
        }
        let r = self.name.clone().concat(":").concat(self.exchange.code_str()).concat(
            ":",
        ).concat(self.exchange_type.code_str()).concat("*");
        proof {
            assert(r@ =~= self.name@ + seq![':'] + exchange_code(self.exchange) + seq![':']
                + exchange_type_code(self.exchange_type) + seq!['*']);
        }
        r
    }
}

/// Strikes strictly increase along a chain side: sorted, no duplicates.
pub open spec fn strikes_sorted(v: Seq<(u32, OptionScrip)>) -> bool {
    forall|i: int, j: int| 0 <= i < j < v.len() ==> v[i].0 < v[j].0
}

/// The strike a chain store key names: its fifth colon-separated field, in
/// a six-field key, read as a number.
pub open spec fn chain_key_strike(s: Seq<char>) -> Option<u32> {
    let parts = split_on(s, ':');
    if parts.len() == 6 && parts[4].len() > 0 && all_digits(parts[4]) && dec_value(parts[4])
        <= u32::MAX {
        Some(dec_value(parts[4]) as u32)
    } else {
        None
    }
}

/// The fresh entry a chain creates for a strike it has not seen: the
/// chain's own name, venue and expiry at that strike.
pub open spec fn fresh_option(c: OptionChainScrip, strike: u32, kind: OptionType, o: OptionScrip) -> bool {
    &&& o.name == c.name
    &&& o.exchange == c.exchange
    &&& o.exchange_type == c.exchange_type
    &&& o.expiry == c.expiry
    &&& o.strike == strike
    &&& o.option_type == kind
    &&& (o.underlying is Some <==> c.underlying is Some)
    &&& (c.underlying matches Some(u) ==> o.underlying matches Some(b) && *b == u)
}

/// An option chain: one call and one put per strike, kept side by side in
/// strike order.
#[derive(Debug)]
pub struct OptionChain {
    pub scrip: OptionChainScrip,
    pub calls: Vec<(u32, OptionScrip)>,
    pub puts: Vec<(u32, OptionScrip)>,
}

impl OptionChain {
    /// The chain invariant: strikes strictly ascend, and calls and puts
    /// list exactly the same strikes in the same places.
    pub open spec fn wf(self) -> bool {
        &&& strikes_sorted(self.calls@)
        &&& self.puts@.len() == self.calls@.len()
        &&& forall|i: int| 0 <= i < self.calls@.len() ==> self.puts@[i].0 == self.calls@[i].0
    }

    /// Whether the chain lists a strike.
    pub open spec fn has_strike(self, strike: u32) -> bool {
        exists|i: int| 0 <= i < self.calls@.len() && self.calls@[i].0 == strike
    }

    /// Builds a chain and fills its strikes from the store keys found
    /// under its pattern.
    pub fn new(
        name: &str,
        exchange: &str,
        exchange_type: &str,
        expiry: Date,
        underlying: Option<Scrip>,
        keys: &Vec<String>,
    ) -> (r: Result<OptionChain, ParseError>)
        requires
            is_exchange_code(exchange@),
            is_exchange_type_code(exchange_type@),
        ensures
            r matches Ok(c) ==> {
                &&& c.wf()
                &&& c.scrip.name@ == name@ && exchange_code(c.scrip.exchange) == exchange@
                    && exchange_type_code(c.scrip.exchange_type) == exchange_type@
                    && c.scrip.expiry == expiry && c.scrip.underlying == underlying
                &&& forall|st: u32|
                    c.has_strike(st) <==> exists|i: int|
                        0 <= i < keys@.len() && chain_key_strike(#[trigger] keys@[i]@) == Some(st)
            },
            r is Ok <==> forall|i: int|
                0 <= i < keys@.len() ==> (#[trigger] chain_key_strike(keys@[i]@)) is Some,
    {
        let mut option_chain_ticker = Self {
            scrip: OptionChainScrip::new(name, exchange, exchange_type, expiry, underlying),
            calls: Vec::new(),
            puts: Vec::new(),
        };
        match option_chain_ticker.refresh_chain(keys) {
            Ok(()) => Ok(option_chain_ticker),
            Err(e) => Err(e),
        }
    }

    /// The strikes the chain lists, ascending.
    pub fn strikes(&self) -> (r: Vec<u32>)
        requires
            self.wf(),
        ensures
            r@ == self.calls@.map_values(|p: (u32, OptionScrip)| p.0),
            forall|i: int, j: int| 0 <= i < j < r@.len() ==> r@[i] < r@[j],
    {
        let mut r: Vec<u32> = Vec::new();
        let n = self.calls.len();
        let mut i: usize = 0;
        while i < n
            invariant
                0 <= i <= n == self.calls@.len(),
                r@.len() == i,
                forall|j: int| 0 <= j < i ==> r@[j] == self.calls@[j].0,
            decreases n - i,
        {
            r.push(self.calls[i].0);
            i = i + 1;
        }
        proof {
            assert(r@ =~= self.calls@.map_values(|p: (u32, OptionScrip)| p.0));
        }
        r
    }

    /// The call and the put at a strike the chain lists.
    pub fn at_strike(&self, strike: &u32) -> (r: (OptionScrip, OptionScrip))
        requires
            self.wf(),
            self.has_strike(*strike),
        ensures
            exists|i: int|
                0 <= i < self.calls@.len() && (#[trigger] self.calls@[i]).0 == strike && r.0
                    == self.calls@[i].1 && r.1 == self.puts@[i].1,
    {
        let n = self.calls.len();
        let mut i: usize = 0;
        while i < n
            invariant
                0 <= i <= n == self.calls@.len(),
                self.wf(),
                self.has_strike(*strike),
                forall|j: int| 0 <= j < i ==> (#[trigger] self.calls@[j]).0 != strike,
            decreases n - i,
        {
            if self.calls[i].0 == *strike {
                let call = self.calls[i].1.clone();
                let put = self.puts[i].1.clone();
                return (call, put);
            }
            i = i + 1;
        }
        vstd::pervasive::unreached()
    }

    /// Updates the listed strikes from the store keys found under the
    /// chain's pattern: a call and a put are created for every strike not
    /// yet listed; strikes already listed keep their entries. The first
    /// key without a readable strike is the error; keys already applied
    /// stay applied.
    pub fn refresh_chain(&mut self, keys: &Vec<String>) -> (r: Result<(), ParseError>)
        requires
            old(self).wf(),
        ensures
            final(self).wf(),
            final(self).scrip == old(self).scrip,
            r is Ok <==> forall|i: int|
                0 <= i < keys@.len() ==> (#[trigger] chain_key_strike(keys@[i]@)) is Some,
            forall|p: (u32, OptionScrip)|
                old(self).calls@.contains(p) ==> final(self).calls@.contains(p),
            forall|p: (u32, OptionScrip)|
                old(self).puts@.contains(p) ==> final(self).puts@.contains(p),
            forall|p: (u32, OptionScrip)| #[trigger]
                final(self).calls@.contains(p) ==> old(self).calls@.contains(p) || fresh_option(
                    old(self).scrip,
                    p.0,
                    OptionType::CE,
                    p.1,
                ),
            forall|p: (u32, OptionScrip)| #[trigger]
                final(self).puts@.contains(p) ==> old(self).puts@.contains(p) || fresh_option(
                    old(self).scrip,
                    p.0,
                    OptionType::PE,
                    p.1,
                ),
            r is Ok ==> forall|st: u32|
                final(self).has_strike(st) <==> old(self).has_strike(st) || exists|i: int|
                    0 <= i < keys@.len() && chain_key_strike(#[trigger] keys@[i]@) == Some(st),
    {
        let n = keys.len();
        let mut i: usize = 0;
        while i < n
            invariant
                0 <= i <= n == keys@.len(),
                self.wf(),
                self.scrip == old(self).scrip,
                forall|j: int| 0 <= j < i ==> (#[trigger] chain_key_strike(keys@[j]@)) is Some,
                forall|p: (u32, OptionScrip)|
                    old(self).calls@.contains(p) ==> self.calls@.contains(p),
                forall|p: (u32, OptionScrip)|
                    old(self).puts@.contains(p) ==> self.puts@.contains(p),
                forall|p: (u32, OptionScrip)| #[trigger]
                    self.calls@.contains(p) ==> old(self).calls@.contains(p) || fresh_option(
                        old(self).scrip,
                        p.0,
                        OptionType::CE,
                        p.1,
                    ),
                forall|p: (u32, OptionScrip)| #[trigger]
                    self.puts@.contains(p) ==> old(self).puts@.contains(p) || fresh_option(
                        old(self).scrip,
                        p.0,
                        OptionType::PE,
                        p.1,
                    ),
                forall|st: u32|
                    self.has_strike(st) <==> old(self).has_strike(st) || exists|j: int|
                        0 <= j < i && chain_key_strike(#[trigger] keys@[j]@) == Some(st),
            decreases n - i,
        {
            let parts = split_fields(keys[i].as_str(), ':');
            proof {
                assert forall|k: int| 0 <= k < parts@.len() implies parts@[k]@ == split_on(
                    keys@[i as int]@,
                    ':',
                )[k] by {
                    assert(parts@.map_values(|p: String| p@)[k] == parts@[k]@);
                }
            }
            if parts.len() != 6 {
                return Err(ParseError::MalformedKey);
            }
            let strike = match parse_u32(parts[4].as_str()) {
                Some(v) => v,
                None => {
                    return Err(ParseError::BadNumber);
                },
            };
            self.add_strike(strike);
            proof {
                assert(chain_key_strike(keys@[i as int]@) == Some(strike));
            }
            i = i + 1;
        }
        Ok(())
    }

    /// Lists a strike if it is absent: a fresh call and put are inserted
    /// at its place in strike order.
    fn add_strike(&mut self, strike: u32)
        requires
            old(self).wf(),
        ensures
            final(self).wf(),
            final(self).scrip == old(self).scrip,
            forall|st: u32|
                final(self).has_strike(st) <==> old(self).has_strike(st) || st == strike,
            forall|p: (u32, OptionScrip)|
                old(self).calls@.contains(p) ==> final(self).calls@.contains(p),
            forall|p: (u32, OptionScrip)|
                old(self).puts@.contains(p) ==> final(self).puts@.contains(p),
            forall|p: (u32, OptionScrip)| #[trigger]
                final(self).calls@.contains(p) ==> old(self).calls@.contains(p) || fresh_option(
                    old(self).scrip,
                    p.0,
                    OptionType::CE,
                    p.1,
                ) && p.0 == strike,
            forall|p: (u32, OptionScrip)| #[trigger]
                final(self).puts@.contains(p) ==> old(self).puts@.contains(p) || fresh_option(
                    old(self).scrip,
                    p.0,
                    OptionType::PE,
                    p.1,
                ) && p.0 == strike,
    {
        let n = self.calls.len();
        let i = lower_bound(&self.calls, strike);
        if i < n {
            if self.calls[i].0 == strike {
                proof {
                    assert(old(self).has_strike(strike));
                }
                return ;
            }
        }
        proof {
            assert forall|j: int| i <= j < self.calls@.len() implies (#[trigger] self.calls@[j]).0
                > strike by {
                if j == i {
                } else {
                    assert(self.calls@[i as int].0 < self.calls@[j].0);
                }
            }
            assert(!old(self).has_strike(strike));
        }
        let call = OptionScrip {
            name: self.scrip.name.clone(),
            exchange: self.scrip.exchange,
            exchange_type: self.scrip.exchange_type,
            expiry: self.scrip.expiry,
            strike,
            option_type: OptionType::CE,
            underlying: clone_underlying(&self.scrip.underlying),
        };
        let put = OptionScrip {
            name: self.scrip.name.clone(),
            exchange: self.scrip.exchange,
            exchange_type: self.scrip.exchange_type,
            expiry: self.scrip.expiry,
            strike,
            option_type: OptionType::PE,
            underlying: clone_underlying(&self.scrip.underlying),
        };
        let ghost pre_calls = self.calls@;
        let ghost pre_puts = self.puts@;
        self.calls.insert(i, (strike, call));
        self.puts.insert(i, (strike, put));
        proof {
            let post = self.calls@;
            assert(forall|c: int| 0 <= c < i ==> post[c] == pre_calls[c]);
            assert(post[i as int].0 == strike);
            assert(forall|c: int| i < c < post.len() ==> post[c] == pre_calls[c - 1]);
            let postp = self.puts@;
            assert(forall|c: int| 0 <= c < i ==> postp[c] == pre_puts[c]);
            assert(postp[i as int].0 == strike);
            assert(forall|c: int| i < c < postp.len() ==> postp[c] == pre_puts[c - 1]);
            assert forall|p: (u32, OptionScrip)|
                pre_calls.contains(p) implies post.contains(p) by {
                let w = choose|w: int| 0 <= w < pre_calls.len() && pre_calls[w] == p;
                if w < i {
                    assert(post[w] == p);
                } else {
                    assert(post[w + 1] == p);
                }
            }
            assert forall|p: (u32, OptionScrip)| pre_puts.contains(p) implies postp.contains(
                p,
            ) by {
                let w = choose|w: int| 0 <= w < pre_puts.len() && pre_puts[w] == p;
                if w < i {
                    assert(postp[w] == p);
                } else {
                    assert(postp[w + 1] == p);
                }
            }
            assert forall|p: (u32, OptionScrip)| #[trigger]
                post.contains(p) implies pre_calls.contains(p) || (fresh_option(
                old(self).scrip,
                p.0,
                OptionType::CE,
                p.1,
            ) && p.0 == strike) by {
                let w = choose|w: int| 0 <= w < post.len() && post[w] == p;
                if w < i {
                    assert(pre_calls[w] == p);
                    assert(pre_calls.contains(p));
                } else if w > i {
                    assert(pre_calls[w - 1] == p);
                    assert(pre_calls.contains(p));
                }
            }
            assert forall|p: (u32, OptionScrip)| #[trigger]
                postp.contains(p) implies pre_puts.contains(p) || (fresh_option(
                old(self).scrip,
                p.0,
                OptionType::PE,
                p.1,
            ) && p.0 == strike) by {
                let w = choose|w: int| 0 <= w < postp.len() && postp[w] == p;
                if w < i {
                    assert(pre_puts[w] == p);
                    assert(pre_puts.contains(p));
                } else if w > i {
                    assert(pre_puts[w - 1] == p);
                    assert(pre_puts.contains(p));
                }
            }
            assert forall|st: u32| final(self).has_strike(st) implies old(self).has_strike(st)
                || st == strike by {
                let w = choose|w: int| 0 <= w < post.len() && post[w].0 == st;
                if w < i {
                    assert(pre_calls[w].0 == st);
                } else if w > i {
                    assert(pre_calls[w - 1].0 == st);
                }
            }
            assert forall|st: u32| old(self).has_strike(st) || st == strike implies final(self).has_strike(st) by {
                if old(self).has_strike(st) {
                    let w = choose|w: int| 0 <= w < pre_calls.len() && pre_calls[w].0 == st;
                    if w < i {
                        assert(post[w].0 == st);
                    } else {
                        assert(post[w + 1].0 == st);
                    }
                } else {
                    assert(post[i as int].0 == st);
                }
            }
        }
    }

    /// Drops every strike the filter rejects; kept strikes keep their
    /// entries. The filter sees the chain as it stands when it is asked.
    pub fn filter_strikes_with<F: Fn(&OptionChain, u32) -> bool>(&mut self, filter: F)
        requires
            old(self).wf(),
            forall|c: &OptionChain, s: u32| #[trigger] call_requires(filter, (c, s)),
        ensures
            final(self).wf(),
            final(self).scrip == old(self).scrip,
            forall|p: (u32, OptionScrip)|
                final(self).calls@.contains(p) ==> old(self).calls@.contains(p),
            forall|p: (u32, OptionScrip)|
                final(self).puts@.contains(p) ==> old(self).puts@.contains(p),
    {
        let strikes = self.strikes();
        let n = strikes.len();
        let mut i: usize = 0;
        while i < n
            invariant
                0 <= i <= n == strikes@.len(),
                self.wf(),
                self.scrip == old(self).scrip,
                forall|c: &OptionChain, s: u32| #[trigger] call_requires(filter, (c, s)),
                forall|p: (u32, OptionScrip)|
                    self.calls@.contains(p) ==> old(self).calls@.contains(p),
                forall|p: (u32, OptionScrip)|
                    self.puts@.contains(p) ==> old(self).puts@.contains(p),
            decreases n - i,
        {
            let strike = strikes[i];
            let keep = filter(&*self, strike);
            if !keep {
                self.remove_strike(strike);
            }
            i = i + 1;
        }
    }

    /// Delists a strike, dropping its call and its put; absent strikes are
    /// left alone.
    fn remove_strike(&mut self, strike: u32)
        requires
            old(self).wf(),
        ensures
            final(self).wf(),
            final(self).scrip == old(self).scrip,
            forall|st: u32|
                final(self).has_strike(st) <==> old(self).has_strike(st) && st != strike,
            forall|p: (u32, OptionScrip)|
                final(self).calls@.contains(p) ==> old(self).calls@.contains(p),
            forall|p: (u32, OptionScrip)|
                final(self).puts@.contains(p) ==> old(self).puts@.contains(p),
    {
        let n = self.calls.len();
        let mut i: usize = 0;
        while i < n
            invariant
                0 <= i <= n == self.calls@.len(),
                self.calls@ == old(self).calls@,
                self.puts@ == old(self).puts@,
                self.scrip == old(self).scrip,
                old(self).wf(),
                forall|j: int| 0 <= j < i ==> (#[trigger] self.calls@[j]).0 != strike,
            decreases n - i,
        {
            if self.calls[i].0 == strike {
                let ghost pre_calls = self.calls@;
                let ghost pre_puts = self.puts@;
                self.calls.remove(i);
                self.puts.remove(i);
                proof {
                    let post = self.calls@;
                    let postp = self.puts@;
                    assert(forall|c: int| 0 <= c < i ==> post[c] == pre_calls[c]);
                    assert(forall|c: int| i <= c < post.len() ==> post[c] == pre_calls[c + 1]);
                    assert(forall|c: int| 0 <= c < i ==> postp[c] == pre_puts[c]);
                    assert(forall|c: int| i <= c < postp.len() ==> postp[c] == pre_puts[c + 1]);
                    assert forall|p: (u32, OptionScrip)|
                        post.contains(p) implies pre_calls.contains(p) by {
                        let w = choose|w: int| 0 <= w < post.len() && post[w] == p;
                        if w < i {
                            assert(pre_calls[w] == p);
                        } else {
                            assert(pre_calls[w + 1] == p);
                        }
                    }
                    assert forall|p: (u32, OptionScrip)|
                        postp.contains(p) implies pre_puts.contains(p) by {
                        let w = choose|w: int| 0 <= w < postp.len() && postp[w] == p;
                        if w < i {
                            assert(pre_puts[w] == p);
                        } else {
                            assert(pre_puts[w + 1] == p);
                        }
                    }
                    assert forall|st: u32|
                        final(self).has_strike(st) implies old(self).has_strike(st) && st
                        != strike by {
                        let w = choose|w: int| 0 <= w < post.len() && post[w].0 == st;
                        if w < i {
                            assert(pre_calls[w].0 == st);
                            assert(st < pre_calls[i as int].0);
                        } else {
                            assert(pre_calls[w + 1].0 == st);
                            assert(pre_calls[i as int].0 < st);
                        }
                    }
                    assert forall|st: u32|
                        old(self).has_strike(st) && st != strike implies final(self).has_strike(st) by {
                        let w = choose|w: int| 0 <= w < pre_calls.len() && pre_calls[w].0 == st;
                        if w < i {
                            assert(post[w].0 == st);
                        } else if w > i {
                            assert(post[w - 1].0 == st);
                        }
                    }
                }
                return ;
            }
            i = i + 1;
        }
        proof {
            assert(!old(self).has_strike(strike));
        }
    }

    /// A placeholder wellness probe of the chain's contents; it asserts
    /// nothing yet and always passes.
    pub fn sanity_check(&self) -> (r: bool)
        ensures
            r == true,
    {
        true
    }
}

/// A boxed copy of the optional underlying reference.
fn clone_underlying(u: &Option<Scrip>) -> (r: Option<Box<Scrip>>)
    ensures
        r is Some <==> u is Some,
        u matches Some(s) ==> (r matches Some(b) && *b == s),
{
    match u {
        Some(s) => Some(Box::new(s.clone())),
        None => None,
    }
}

/// First position whose strike is at least `strike`; the length when every
/// strike is below it.
fn lower_bound(calls: &Vec<(u32, OptionScrip)>, strike: u32) -> (r: usize)
    requires
        strikes_sorted(calls@),
    ensures
        r <= calls@.len(),
        forall|j: int| 0 <= j < r ==> (#[trigger] calls@[j]).0 < strike,
        r < calls@.len() ==> calls@[r as int].0 >= strike,
{
    let n = calls.len();
    let mut i: usize = 0;
    while i < n && calls[i].0 < strike
        invariant
            0 <= i <= n == calls@.len(),
            forall|j: int| 0 <= j < i ==> (#[trigger] calls@[j]).0 < strike,
        decreases n - i,
    {
        i = i + 1;
    }
    i
}

impl Clone for OptionScrip {
    /// A copy naming exactly the same option.
    fn clone(&self) -> (r: Self)
        ensures
            r == self,
        decreases *self,
    {
        let underlying = match &self.underlying {
            Some(b) => Some(Box::new((**b).clone())),
            None => None,
        };
        OptionScrip {
            name: self.name.clone(),
            exchange: self.exchange,
            exchange_type: self.exchange_type,
            strike: self.strike,
            option_type: self.option_type,
            expiry: self.expiry,
            underlying,
        }
    }
}

} // verus!
