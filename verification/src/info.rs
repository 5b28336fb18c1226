use vstd::prelude::*;

use crate::error::ParseError;
use crate::text::{digit_val, is_digit, str_eq};

verus! {

/// The name of the remote table that instrument metadata is read from.
pub const TABLE_NAME: &'static str = "scrip_info";

/// One metadata attribute as plain data: a string, a number kept as its
/// decimal text, a map of named attributes, or anything else, which the
/// readers ignore.
#[derive(Debug)]
pub enum AttrValue {
    S(String),
    N(String),
    M(Vec<(String, AttrValue)>),
    Other,
}

/// The offset a `+hh?mm` or `-hh?mm` timezone text denotes, in seconds
/// east of UTC; the separator character is not inspected, and characters
/// past the sixth are ignored.
pub open spec fn timezone_offset(s: Seq<char>) -> Option<int> {
    if s.len() >= 6 && (s[0] == '+' || s[0] == '-') && is_digit(s[1]) && is_digit(s[2]) && is_digit(
        s[4],
    ) && is_digit(s[5]) {
        let hours = digit_val(s[1]) * 10 + digit_val(s[2]);
        let minutes = digit_val(s[4]) * 10 + digit_val(s[5]);
        let seconds = (hours * 60 + minutes) * 60;
        if s[0] == '-' {
            Some(-seconds)
        } else {
            Some(seconds)
        }
    } else {
        None
    }
}

/// Reads a timezone text such as `+05:30` into seconds east of UTC.
pub fn format_timezone(timezone: &str) -> (r: Result<i32, ParseError>)
    ensures
        r is Ok <==> timezone_offset(timezone@) is Some,
        r matches Ok(v) ==> timezone_offset(timezone@) == Some(v as int),
        r is Err ==> r == Err::<i32, ParseError>(ParseError::MalformedKey),
{
    let n = timezone.unicode_len();
    if n < 6 {
        return Err(ParseError::MalformedKey);
    }
    let direction = timezone.get_char(0);
    if !(direction == '+' || direction == '-') {
        return Err(ParseError::MalformedKey);
    }
    let h1 = match crate::text::char_digit(timezone.get_char(1)) {
        Some(d) => d,
        None => {
            return Err(ParseError::MalformedKey);
        },
    };
    let h2 = match crate::text::char_digit(timezone.get_char(2)) {
        Some(d) => d,
        None => {
            return Err(ParseError::MalformedKey);
        },
    };
    let m1 = match crate::text::char_digit(timezone.get_char(4)) {
        Some(d) => d,
        None => {
            return Err(ParseError::MalformedKey);
        },
    };
    let m2 = match crate::text::char_digit(timezone.get_char(5)) {
        Some(d) => d,
        None => {
            return Err(ParseError::MalformedKey);
        },
    };
    let hours: i32 = (h1 * 10 + h2) as i32;
    let minutes: i32 = (m1 * 10 + m2) as i32;
    let seconds: i32 = (hours * 60 + minutes) * 60;
    if direction == '-' {
        Ok(-seconds)
    } else {
        Ok(seconds)
    }
}

/// What a `hhmm` time text renders as: `hh.mm`.
pub open spec fn spec_format_time(s: Seq<char>) -> Seq<char> {
    s.take(2) + seq!['.'] + s.subrange(2, 4)
}

/// Renders an `hhmm` time text as `hh.mm`; characters past the fourth are
/// ignored. Texts shorter than four characters are rejected.
pub fn format_time(time: &str) -> (r: Result<String, ParseError>)
    ensures
        r is Ok <==> time@.len() >= 4,
        r matches Ok(t) ==> t@ == spec_format_time(time@),
        r is Err ==> r == Err::<String, ParseError>(ParseError::MalformedKey),
{
    let n = time.unicode_len();
    if n < 4 {
        return Err(ParseError::MalformedKey);
    }
    proof {
        reveal_strlit(".");
    }
    let hh = time.substring_char(0, 2);
    let mm = time.substring_char(2, 4);
    let r = hh.to_owned().concat(".").concat(mm);
    proof {
        assert(r@ =~= spec_format_time(time@));
    }
    Ok(r)
}

/// Relies on `str::to_uppercase`: the Unicode uppercase mapping, a
/// function of the characters alone.
pub uninterp spec fn upper_of(s: Seq<char>) -> Seq<char>;

/// Relies on `str::to_uppercase` for the uppercase mapping of a name.
#[verifier::external_body]
fn to_uppercase(s: &str) -> (r: String)
    ensures
        r@ == upper_of(s@),
{
    s.to_uppercase()
}

/// The last `S`-valued attribute under `key`, scanning from the end:
/// later entries overwrite earlier ones, values of another shape do not.
pub open spec fn last_s(items: Seq<(String, AttrValue)>, key: Seq<char>) -> Option<String>
    decreases items.len(),
{
    if items.len() == 0 {
        None
    } else if items.last().0@ == key && items.last().1 is S {
        Some(items.last().1->S_0)
    } else {
        last_s(items.drop_last(), key)
    }
}

/// The last `N`-valued attribute under `key`, scanning from the end.
pub open spec fn last_n(items: Seq<(String, AttrValue)>, key: Seq<char>) -> Option<String>
    decreases items.len(),
{
    if items.len() == 0 {
        None
    } else if items.last().0@ == key && items.last().1 is N {
        Some(items.last().1->N_0)
    } else {
        last_n(items.drop_last(), key)
    }
}

/// The last `M`-valued attribute under `key`, scanning from the end.
pub open spec fn last_m(items: Seq<(String, AttrValue)>, key: Seq<char>) -> Option<
    Vec<(String, AttrValue)>,
>
    decreases items.len(),
{
    if items.len() == 0 {
        None
    } else if items.last().0@ == key && items.last().1 is M {
        Some(items.last().1->M_0)
    } else {
        last_m(items.drop_last(), key)
    }
}

/// The numeric constituents of a map attribute: the entries whose value
/// is numeric text, in order, others dropped.
pub open spec fn constituents_of(m: Seq<(String, AttrValue)>) -> Seq<(String, String)>
    decreases m.len(),
{
    if m.len() == 0 {
        Seq::empty()
    } else {
        constituents_of(m.drop_last()) + if m.last().1 is N {
            seq![(m.last().0, m.last().1->N_0)]
        } else {
            Seq::empty()
        }
    }
}

/// Why one attribute fails to apply, or `None` when it applies cleanly.
/// Only the time and timezone fields can fail; every other attribute is
/// either copied or ignored.
pub open spec fn meta_field_error(key: Seq<char>, attr: AttrValue) -> Option<ParseError> {
    if (key == "openTime"@ || key == "closeTime"@) && attr is S {
        if attr->S_0@.len() >= 4 {
            None
        } else {
            Some(ParseError::MalformedKey)
        }
    } else if key == "timezone"@ && attr is S {
        if timezone_offset(attr->S_0@) is Some {
            None
        } else {
            Some(ParseError::MalformedKey)
        }
    } else {
        None
    }
}

/// Exchange and session metadata of an index, as plain values: the
/// timezone as seconds east of UTC, constituent weights kept as their
/// decimal text.
#[derive(Debug)]
pub struct IndexMetaData {
    pub scrip: String,
    pub open_time: String,
    pub close_time: String,
    pub currency: String,
    pub exchange: String,
    pub timezone: i32,
    pub constituents: Vec<(String, String)>,
}

/// Exchange and session metadata of a stock; the free-float market
/// capitalization is kept as the decimal text the table holds.
#[derive(Debug)]
pub struct StockMetaData {
    pub scrip: String,
    pub open_time: String,
    pub close_time: String,
    pub currency: String,
    pub exchange: String,
    pub timezone: i32,
    pub free_float_market_cap: String,
}

/// Metadata of either kind of instrument the remote table describes.
#[derive(Debug)]
pub enum MetaData {
    Index(IndexMetaData),
    Stock(StockMetaData),
}

/// How one attribute changes an index record: at most one field, chosen
/// by the key, is replaced; attributes of the wrong shape and unknown
/// keys change nothing.
pub open spec fn index_meta_updated(
    m0: IndexMetaData,
    m1: IndexMetaData,
    key: Seq<char>,
    attr: AttrValue,
) -> bool {
    &&& m1.scrip == if key == "scrip"@ && attr is S {
        attr->S_0
    } else {
        m0.scrip
    }
    &&& m1.open_time@ == if key == "openTime"@ && attr is S {
        spec_format_time(attr->S_0@)
    } else {
        m0.open_time@
    }
    &&& m1.close_time@ == if key == "closeTime"@ && attr is S {
        spec_format_time(attr->S_0@)
    } else {
        m0.close_time@
    }
    &&& m1.currency@ == if key == "currency"@ && attr is S {
        upper_of(attr->S_0@)
    } else {
        m0.currency@
    }
    &&& m1.exchange@ == if key == "exchange"@ && attr is S {
        upper_of(attr->S_0@)
    } else {
        m0.exchange@
    }
    &&& m1.timezone as int == if key == "timezone"@ && attr is S {
        timezone_offset(attr->S_0@)->0
    } else {
        m0.timezone as int
    }
    &&& m1.constituents@ == if key == "constituents"@ && attr is M {
        constituents_of(attr->M_0@)
    } else {
        m0.constituents@
    }
}

/// How one attribute changes a stock record.
pub open spec fn stock_meta_updated(
    m0: StockMetaData,
    m1: StockMetaData,
    key: Seq<char>,
    attr: AttrValue,
) -> bool {
    &&& m1.scrip == if key == "scrip"@ && attr is S {
        attr->S_0
    } else {
        m0.scrip
    }
    &&& m1.open_time@ == if key == "openTime"@ && attr is S {
        spec_format_time(attr->S_0@)
    } else {
        m0.open_time@
    }
    &&& m1.close_time@ == if key == "closeTime"@ && attr is S {
        spec_format_time(attr->S_0@)
    } else {
        m0.close_time@
    }
    &&& m1.currency@ == if key == "currency"@ && attr is S {
        upper_of(attr->S_0@)
    } else {
        m0.currency@
    }
    &&& m1.exchange@ == if key == "exchange"@ && attr is S {
        upper_of(attr->S_0@)
    } else {
        m0.exchange@
    }
    &&& m1.timezone as int == if key == "timezone"@ && attr is S {
        timezone_offset(attr->S_0@)->0
    } else {
        m0.timezone as int
    }
    &&& m1.free_float_market_cap == if key == "freeFloatMarketCap"@ && attr is N {
        attr->N_0
    } else {
        m0.free_float_market_cap
    }
}

/// What a whole response yields for an index record: each field carries
/// the transformation of the last attribute that addresses it, or stays
/// at its empty default.
pub open spec fn index_meta_of(items: Seq<(String, AttrValue)>, m: IndexMetaData) -> bool {
    &&& if last_s(items, "scrip"@) is Some {
        m.scrip == last_s(items, "scrip"@)->0
    } else {
        m.scrip@ == Seq::<char>::empty()
    }
    &&& if last_s(items, "openTime"@) is Some {
        m.open_time@ == spec_format_time(last_s(items, "openTime"@)->0@)
    } else {
        m.open_time@ == Seq::<char>::empty()
    }
    &&& if last_s(items, "closeTime"@) is Some {
        m.close_time@ == spec_format_time(last_s(items, "closeTime"@)->0@)
    } else {
        m.close_time@ == Seq::<char>::empty()
    }
    &&& if last_s(items, "currency"@) is Some {
        m.currency@ == upper_of(last_s(items, "currency"@)->0@)
    } else {
        m.currency@ == Seq::<char>::empty()
    }
    &&& if last_s(items, "exchange"@) is Some {
        m.exchange@ == upper_of(last_s(items, "exchange"@)->0@)
    } else {
        m.exchange@ == Seq::<char>::empty()
    }
    &&& if last_s(items, "timezone"@) is Some {
        m.timezone as int == timezone_offset(last_s(items, "timezone"@)->0@)->0
    } else {
        m.timezone == 0
    }
    &&& if last_m(items, "constituents"@) is Some {
        m.constituents@ == constituents_of(last_m(items, "constituents"@)->0@)
    } else {
        m.constituents@ == Seq::<(String, String)>::empty()
    }
}

/// What a whole response yields for a stock record.
pub open spec fn stock_meta_of(items: Seq<(String, AttrValue)>, m: StockMetaData) -> bool {
    &&& if last_s(items, "scrip"@) is Some {
        m.scrip == last_s(items, "scrip"@)->0
    } else {
        m.scrip@ == Seq::<char>::empty()
    }
    &&& if last_s(items, "openTime"@) is Some {
        m.open_time@ == spec_format_time(last_s(items, "openTime"@)->0@)
    } else {
        m.open_time@ == Seq::<char>::empty()
    }
    &&& if last_s(items, "closeTime"@) is Some {
        m.close_time@ == spec_format_time(last_s(items, "closeTime"@)->0@)
    } else {
        m.close_time@ == Seq::<char>::empty()
    }
    &&& if last_s(items, "currency"@) is Some {
        m.currency@ == upper_of(last_s(items, "currency"@)->0@)
    } else {
        m.currency@ == Seq::<char>::empty()
    }
    &&& if last_s(items, "exchange"@) is Some {
        m.exchange@ == upper_of(last_s(items, "exchange"@)->0@)
    } else {
        m.exchange@ == Seq::<char>::empty()
    }
    &&& if last_s(items, "timezone"@) is Some {
        m.timezone as int == timezone_offset(last_s(items, "timezone"@)->0@)->0
    } else {
        m.timezone == 0
    }
    &&& if last_n(items, "freeFloatMarketCap"@) is Some {
        m.free_float_market_cap == last_n(items, "freeFloatMarketCap"@)->0
    } else {
        m.free_float_market_cap@ == Seq::<char>::empty()
    }
}

impl IndexMetaData {
    /// Applies one attribute of a table response to this record: the field
    /// the key names is replaced, unknown keys and ill-shaped values are
    /// ignored, and a time or timezone text that cannot be read is a typed
    /// error that changes nothing.
    pub fn update(&mut self, key: &str, attribute: &AttrValue) -> (r: Result<(), ParseError>)
        ensures
            r is Ok <==> meta_field_error(key@, *attribute) is None,
            r matches Err(e) ==> Some(e) == meta_field_error(key@, *attribute) && *final(self)
                == *old(self),
            r is Ok ==> index_meta_updated(*old(self), *final(self), key@, *attribute),
    {
        proof {
            reveal_meta_keys();
        }
        if str_eq(key, "scrip") {
            if let AttrValue::S(s) = attribute {
                self.scrip = s.clone();
            }
            Ok(())
        } else if str_eq(key, "openTime") {
            match attribute {
                AttrValue::S(t) => match format_time(t.as_str()) {
                    Ok(v) => {
                        self.open_time = v;
                        Ok(())
                    },
                    Err(e) => Err(e),
                },
                _ => Ok(()),
            }
        } else if str_eq(key, "closeTime") {
            match attribute {
                AttrValue::S(t) => match format_time(t.as_str()) {
                    Ok(v) => {
                        self.close_time = v;
                        Ok(())
                    },
                    Err(e) => Err(e),
                },
                _ => Ok(()),
            }
        } else if str_eq(key, "currency") {
            if let AttrValue::S(c) = attribute {
                self.currency = to_uppercase(c.as_str());
            }
            Ok(())
        } else if str_eq(key, "exchange") {
            if let AttrValue::S(e) = attribute {
                self.exchange = to_uppercase(e.as_str());
            }
            Ok(())
        } else if str_eq(key, "timezone") {
            match attribute {
                AttrValue::S(t) => match format_timezone(t.as_str()) {
                    Ok(off) => {
                        self.timezone = off;
                        Ok(())
                    },
                    Err(e) => Err(e),
                },
                _ => Ok(()),
            }
        } else if str_eq(key, "constituents") {
            if let AttrValue::M(m) = attribute {
                self.constituents = collect_constituents(m);
            }
            Ok(())
        } else {
            Ok(())
        }
    }

    /// Folds a whole table response into a fresh index record: attributes
    /// apply in order, later ones overwriting earlier ones; the first
    /// unreadable attribute is the error.
    pub fn from_response(items: &Vec<(String, AttrValue)>) -> (r: Result<IndexMetaData, ParseError>)
        ensures
            r is Ok <==> forall|i: int|
                0 <= i < items@.len() ==> (#[trigger] meta_field_error(
                    items@[i].0@,
                    items@[i].1,
                )) is None,
            r matches Err(e) ==> exists|i: int|
                0 <= i < items@.len() && Some(e) == (#[trigger] meta_field_error(
                    items@[i].0@,
                    items@[i].1,
                )) && (forall|j: int|
                    0 <= j < i ==> (#[trigger] meta_field_error(items@[j].0@, items@[j].1)) is None),
            r matches Ok(m) ==> index_meta_of(items@, m),
    {
        let mut index_meta_data = IndexMetaData {
            scrip: String::new(),
            open_time: String::new(),
            close_time: String::new(),
            currency: String::new(),
            exchange: String::new(),
            timezone: 0,
            constituents: Vec::new(),
        };
        let n = items.len();
        let mut i: usize = 0;
        proof {
            assert(items@.take(0) =~= Seq::<(String, AttrValue)>::empty());
        }
        while i < n
            invariant
                0 <= i <= n == items@.len(),
                forall|j: int|
                    0 <= j < i ==> (#[trigger] meta_field_error(items@[j].0@, items@[j].1)) is None,
                index_meta_of(items@.take(i as int), index_meta_data),
            decreases n - i,
        {
            proof {
                assert(items@.take(i + 1).drop_last() =~= items@.take(i as int));
                assert(items@.take(i + 1).last() == items@[i as int]);
            }
            match index_meta_data.update(items[i].0.as_str(), &items[i].1) {
                Ok(()) => {},
                Err(e) => {
                    return Err(e);
                },
            }
            i = i + 1;
        }
        proof {
            assert(items@.take(n as int) =~= items@);
        }
        Ok(index_meta_data)
    }
}

impl StockMetaData {
    /// Applies one attribute of a table response to this record, exactly
    /// as for an index, with the free-float market capitalization kept as
    /// its decimal text.
    pub fn update(&mut self, key: &str, attribute: &AttrValue) -> (r: Result<(), ParseError>)
        ensures
            r is Ok <==> meta_field_error(key@, *attribute) is None,
            r matches Err(e) ==> Some(e) == meta_field_error(key@, *attribute) && *final(self)
                == *old(self),
            r is Ok ==> stock_meta_updated(*old(self), *final(self), key@, *attribute),
    {
        proof {
            reveal_meta_keys();
        }
        if str_eq(key, "scrip") {
            if let AttrValue::S(s) = attribute {
                self.scrip = s.clone();
            }
            Ok(())
        } else if str_eq(key, "openTime") {
            match attribute {
                AttrValue::S(t) => match format_time(t.as_str()) {
                    Ok(v) => {
                        self.open_time = v;
                        Ok(())
                    },
                    Err(e) => Err(e),
                },
                _ => Ok(()),
            }
        } else if str_eq(key, "closeTime") {
            match attribute {
                AttrValue::S(t) => match format_time(t.as_str()) {
                    Ok(v) => {
                        self.close_time = v;
                        Ok(())
                    },
                    Err(e) => Err(e),
                },
                _ => Ok(()),
            }
        } else if str_eq(key, "currency") {
            if let AttrValue::S(c) = attribute {
                self.currency = to_uppercase(c.as_str());
            }
            Ok(())
        } else if str_eq(key, "exchange") {
            if let AttrValue::S(e) = attribute {
                self.exchange = to_uppercase(e.as_str());
            }
            Ok(())
        } else if str_eq(key, "timezone") {
            match attribute {
                AttrValue::S(t) => match format_timezone(t.as_str()) {
                    Ok(off) => {
                        self.timezone = off;
                        Ok(())
                    },
                    Err(e) => Err(e),
                },
                _ => Ok(()),
            }
        } else if str_eq(key, "freeFloatMarketCap") {
            if let AttrValue::N(v) = attribute {
                self.free_float_market_cap = v.clone();
            }
            Ok(())
        } else {
            Ok(())
        }
    }

    /// Folds a whole table response into a fresh stock record.
    pub fn from_response(items: &Vec<(String, AttrValue)>) -> (r: Result<StockMetaData, ParseError>)
        ensures
            r is Ok <==> forall|i: int|
                0 <= i < items@.len() ==> (#[trigger] meta_field_error(
                    items@[i].0@,
                    items@[i].1,
                )) is None,
            r matches Err(e) ==> exists|i: int|
                0 <= i < items@.len() && Some(e) == (#[trigger] meta_field_error(
                    items@[i].0@,
                    items@[i].1,
                )) && (forall|j: int|
                    0 <= j < i ==> (#[trigger] meta_field_error(items@[j].0@, items@[j].1)) is None),
            r matches Ok(m) ==> stock_meta_of(items@, m),
    {
        let mut stock_meta_data = StockMetaData {
            scrip: String::new(),
            open_time: String::new(),
            close_time: String::new(),
            currency: String::new(),
            exchange: String::new(),
            timezone: 0,
            free_float_market_cap: String::new(),
        };
        let n = items.len();
        let mut i: usize = 0;
        proof {
            assert(items@.take(0) =~= Seq::<(String, AttrValue)>::empty());
        }
        while i < n
            invariant
                0 <= i <= n == items@.len(),
                forall|j: int|
                    0 <= j < i ==> (#[trigger] meta_field_error(items@[j].0@, items@[j].1)) is None,
                stock_meta_of(items@.take(i as int), stock_meta_data),
            decreases n - i,
        {
            proof {
                assert(items@.take(i + 1).drop_last() =~= items@.take(i as int));
                assert(items@.take(i + 1).last() == items@[i as int]);
            }
            match stock_meta_data.update(items[i].0.as_str(), &items[i].1) {
                Ok(()) => {},
                Err(e) => {
                    return Err(e);
                },
            }
            i = i + 1;
        }
        proof {
            assert(items@.take(n as int) =~= items@);
        }
        Ok(stock_meta_data)
    }
}

/// The distinct attribute names, revealed together.
proof fn reveal_meta_keys()
    ensures
        "scrip"@.len() == 5,
        "openTime"@ =~= seq!['o', 'p', 'e', 'n', 'T', 'i', 'm', 'e'],
        "closeTime"@.len() == 9,
        "currency"@ =~= seq!['c', 'u', 'r', 'r', 'e', 'n', 'c', 'y'],
        "exchange"@ =~= seq!['e', 'x', 'c', 'h', 'a', 'n', 'g', 'e'],
        "timezone"@ =~= seq!['t', 'i', 'm', 'e', 'z', 'o', 'n', 'e'],
        "constituents"@.len() == 12,
        "freeFloatMarketCap"@.len() == 18,
        "type"@.len() == 4,
        "cash"@ =~= seq!['c', 'a', 's', 'h'],
        "index"@.len() == 5,
{
    reveal_strlit("scrip");
    reveal_strlit("openTime");
    reveal_strlit("closeTime");
    reveal_strlit("currency");
    reveal_strlit("exchange");
    reveal_strlit("timezone");
    reveal_strlit("constituents");
    reveal_strlit("freeFloatMarketCap");
    reveal_strlit("type");
    reveal_strlit("cash");
    reveal_strlit("index");
}

/// The last `S`-valued attribute under `key`, as a runtime scan from the
/// end of the response.
fn find_last_s(items: &Vec<(String, AttrValue)>, key: &str) -> (r: Option<String>)
    ensures
        r is Some <==> last_s(items@, key@) is Some,
        r matches Some(s) ==> last_s(items@, key@) == Some(s),
{
    let mut i = items.len();
    proof {
        assert(items@.take(items@.len() as int) =~= items@);
    }
    while i > 0
        invariant
            0 <= i <= items@.len(),
            last_s(items@, key@) == last_s(items@.take(i as int), key@),
        decreases i,
    {
        i = i - 1;
        proof {
            assert(items@.take(i + 1).drop_last() =~= items@.take(i as int));
            assert(items@.take(i + 1).last() == items@[i as int]);
        }
        let hit = str_eq(items[i].0.as_str(), key);
        if hit {
            if let AttrValue::S(s) = &items[i].1 {
                return Some(s.clone());
            }
        }
    }
    proof {
        assert(items@.take(0) =~= Seq::<(String, AttrValue)>::empty());
    }
    None
}

impl MetaData {
    /// Reads a whole table response: the `type` attribute decides whether
    /// the record describes a stock (`cash`) or an index (`index`); a
    /// missing or unknown type, or an unreadable attribute, is a typed
    /// error.
    pub fn from_response(items: &Vec<(String, AttrValue)>) -> (r: Result<MetaData, ParseError>)
        ensures
            r is Ok <==> ({
                &&& last_s(items@, "type"@) matches Some(t) && (t@ == "cash"@ || t@ == "index"@)
                &&& forall|i: int|
                    0 <= i < items@.len() ==> (#[trigger] meta_field_error(
                        items@[i].0@,
                        items@[i].1,
                    )) is None
            }),
            r matches Ok(m) ==> ({
                &&& m is Stock <==> (last_s(items@, "type"@) matches Some(t) && t@ == "cash"@)
                &&& m matches MetaData::Stock(sm) ==> stock_meta_of(items@, sm)
                &&& m matches MetaData::Index(im) ==> index_meta_of(items@, im)
            }),
            r matches Err(e) ==> e == ParseError::MalformedKey || exists|i: int|
                0 <= i < items@.len() && Some(e) == (#[trigger] meta_field_error(
                    items@[i].0@,
                    items@[i].1,
                )),
    {
        proof {
            reveal_meta_keys();
        }
        let ty = match find_last_s(items, "type") {
            Some(t) => t,
            None => {
                return Err(ParseError::MalformedKey);
            },
        };
        if str_eq(ty.as_str(), "cash") {
            match StockMetaData::from_response(items) {
                Ok(m) => Ok(MetaData::Stock(m)),
                Err(e) => Err(e),
            }
        } else if str_eq(ty.as_str(), "index") {
            match IndexMetaData::from_response(items) {
                Ok(m) => Ok(MetaData::Index(m)),
                Err(e) => Err(e),
            }
        } else {
            Err(ParseError::MalformedKey)
        }
    }
}

/// Copies the numeric entries of a map attribute, keeping their decimal
/// text.
fn collect_constituents(m: &Vec<(String, AttrValue)>) -> (r: Vec<(String, String)>)
    ensures
        r@ == constituents_of(m@),
{
    let mut r: Vec<(String, String)> = Vec::new();
    let n = m.len();
    let mut i: usize = 0;
    proof {
        assert(m@.take(0) =~= Seq::<(String, AttrValue)>::empty());
    }
    while i < n
        invariant
            0 <= i <= n == m@.len(),
            r@ == constituents_of(m@.take(i as int)),
        decreases n - i,
    {
        proof {
            assert(m@.take(i + 1).drop_last() =~= m@.take(i as int));
            assert(m@.take(i + 1).last() == m@[i as int]);
        }
        match &m[i].1 {
            AttrValue::N(w) => {
                let name = m[i].0.clone();
                r.push((name, w.clone()));
                proof {
                    assert(r@ =~= constituents_of(m@.take(i + 1)));
                }
            },
            _ => {
                proof {
                    assert(r@ =~= constituents_of(m@.take(i + 1)));
                }
            },
        }
        i = i + 1;
    }
    proof {
        assert(m@.take(n as int) =~= m@);
    }
    r
}

} // verus!
