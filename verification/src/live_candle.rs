use vstd::prelude::*;

use crate::clock::now_millis;
use crate::error::ParseError;
use crate::text::{all_digits, dec_digits_2, dec_digits_4, dec_value, lemma_dec_value_lt};
use crate::text::{split_fields, split_on, str_eq, ten_pow, u32_to_2_digits, u32_to_4_digits};

verus! {

/// How long a stored candle lives before the store expires it: one week,
/// in seconds.
pub const EXPIRE_SEC: usize = 7 * 24 * 60 * 60;

/// One aggregated price candle: OHLC prices in price units, the traded
/// volume, the opening moment in milliseconds since the epoch, and the
/// period length in milliseconds.
#[derive(Debug, Clone, Copy, PartialEq, Eq, Structural)]
pub struct Candle {
    pub open: u64,
    pub high: u64,
    pub low: u64,
    pub close: u64,
    pub volume: u64,
    pub timestamp: i64,
    pub period: i64,
}

impl Candle {
    /// A fresh candle over the given period, stamped now; prices and
    /// volume start at zero.
    pub fn new(period: i64) -> (c: Self)
        ensures
            c.open == 0 && c.high == 0 && c.low == 0 && c.close == 0,
            c.volume == 0,
            c.period == period,
    {
        Candle { period, ..Default::default() }
    }

    /// Applies one store field to the candle; a key that names no candle
    /// field is a typed error and changes nothing.
    pub fn update(&mut self, key: &str, value: u64) -> (r: Result<(), ParseError>)
        ensures
            r is Ok <==> (key@ == "open"@ || key@ == "high"@ || key@ == "low"@ || key@ == "close"@
                || key@ == "volume"@),
            r is Err ==> r == Err::<(), ParseError>(ParseError::MalformedKey) && *final(self)
                == *old(self),
            r is Ok ==> ({
                &&& final(self).open == if key@ == "open"@ {
                    value
                } else {
                    old(self).open
                }
                &&& final(self).high == if key@ == "high"@ {
                    value
                } else {
                    old(self).high
                }
                &&& final(self).low == if key@ == "low"@ {
                    value
                } else {
                    old(self).low
                }
                &&& final(self).close == if key@ == "close"@ {
                    value
                } else {
                    old(self).close
                }
                &&& final(self).volume == if key@ == "volume"@ {
                    value
                } else {
                    old(self).volume
                }
                &&& final(self).timestamp == old(self).timestamp
                &&& final(self).period == old(self).period
            }),
    {
        proof {
            reveal_strlit("open");
            reveal_strlit("high");
            reveal_strlit("low");
            reveal_strlit("close");
            reveal_strlit("volume");
            assert("open"@ =~= seq!['o', 'p', 'e', 'n']);
            assert("high"@ =~= seq!['h', 'i', 'g', 'h']);
            assert("low"@ =~= seq!['l', 'o', 'w']);
            assert("close"@ =~= seq!['c', 'l', 'o', 's', 'e']);
            assert("volume"@ =~= seq!['v', 'o', 'l', 'u', 'm', 'e']);
        }
        if str_eq(key, "open") {
            self.open = value;
            Ok(())
        } else if str_eq(key, "high") {
            self.high = value;
            Ok(())
        } else if str_eq(key, "low") {
            self.low = value;
            Ok(())
        } else if str_eq(key, "close") {
            self.close = value;
            Ok(())
        } else if str_eq(key, "volume") {
            self.volume = value;
            Ok(())
        } else {
            Err(ParseError::MalformedKey)
        }
    }
}

impl Default for Candle {
    /// A zeroed one-minute candle stamped with the current wall clock.
    fn default() -> (c: Self)
        ensures
            c.open == 0 && c.high == 0 && c.low == 0 && c.close == 0,
            c.volume == 0,
            c.period == 60000,
    {
        Candle {
            open: 0,
            high: 0,
            low: 0,
            close: 0,
            volume: 0,
            timestamp: now_millis(),
            period: 60000,
        }
    }
}

/// The opening moment of a stored candle, as plain calendar and clock
/// fields.
#[derive(Debug, Clone, Copy, PartialEq, Eq, Structural)]
pub struct CandleStamp {
    pub year: u16,
    pub month: u8,
    pub day: u8,
    pub hour: u8,
    pub minute: u8,
}

/// A single integer that orders stamps chronologically: lexicographic in
/// (year, month, day, hour, minute).
pub open spec fn stamp_ord(c: CandleStamp) -> int {
    (((c.year * 13 + c.month) * 32 + c.day) * 24 + c.hour) * 60 + c.minute
}

/// The text of a stamp inside a store key: `yyyy/mm/dd-hh.mm`.
pub open spec fn stamp_text(c: CandleStamp) -> Seq<char> {
    dec_digits_4((c.year % 10000) as int) + seq!['/'] + dec_digits_2((c.month % 100) as int)
        + seq!['/'] + dec_digits_2((c.day % 100) as int) + seq!['-'] + dec_digits_2(
        (c.hour % 100) as int,
    ) + seq!['.'] + dec_digits_2((c.minute % 100) as int)
}

/// A stamp that names a real moment and fits the fixed-width text.
pub open spec fn stamp_valid(c: CandleStamp) -> bool {
    &&& c.year <= 9999
    &&& 1 <= c.month <= 12
    &&& 1 <= c.day <= crate::options::days_in_month(c.year as int, c.month as int)
    &&& c.hour <= 23
    &&& c.minute <= 59
}

/// What a `yyyy/mm/dd-hh.mm` text denotes, or nothing when it is not a
/// valid moment written that way.
pub open spec fn stamp_text_parses(s: Seq<char>) -> Option<CandleStamp> {
    let halves = split_on(s, '-');
    if halves.len() != 2 {
        None
    } else {
        let date = split_on(halves[0], '/');
        let time = split_on(halves[1], '.');
        if date.len() == 3 && time.len() == 2 && 1 <= date[0].len() <= 4 && all_digits(date[0]) && 1
            <= date[1].len() <= 2 && all_digits(date[1]) && 1 <= date[2].len() <= 2 && all_digits(
            date[2],
        ) && 1 <= time[0].len() <= 2 && all_digits(time[0]) && 1 <= time[1].len() <= 2
            && all_digits(time[1]) {
            let c = CandleStamp {
                year: dec_value(date[0]) as u16,
                month: dec_value(date[1]) as u8,
                day: dec_value(date[2]) as u8,
                hour: dec_value(time[0]) as u8,
                minute: dec_value(time[1]) as u8,
            };
            if stamp_valid(c) {
                Some(c)
            } else {
                None
            }
        } else {
            None
        }
    }
}

impl CandleStamp {
    /// Runtime check of `stamp_valid`.
    pub fn is_valid(&self) -> (b: bool)
        ensures
            b == stamp_valid(*self),
    {
        let date = crate::options::Date { year: self.year, month: self.month, day: self.day };
        date.is_valid() && self.hour <= 23 && self.minute <= 59
    }

    /// Renders the stamp as `yyyy/mm/dd-hh.mm`.
    pub fn format(&self) -> (r: String)
        ensures
            r@ == stamp_text(*self),
    {
        proof {
            reveal_strlit("/");
            reveal_strlit("-");
            reveal_strlit(".");
        }
        let y = u32_to_4_digits((self.year % 10000) as u32);
        let mo = u32_to_2_digits((self.month % 100) as u32);
        let d = u32_to_2_digits((self.day % 100) as u32);
        let h = u32_to_2_digits((self.hour % 100) as u32);
        let mi = u32_to_2_digits((self.minute % 100) as u32);
        let r = y.concat("/").concat(mo.as_str()).concat("/").concat(d.as_str()).concat(
            "-",
        ).concat(h.as_str()).concat(".").concat(mi.as_str());
        proof {
            assert(r@ =~= stamp_text(*self));
        }
        r
    }

    /// Comparison key: earlier moments order lower.
    pub fn ord_key(&self) -> (r: u64)
        requires
            stamp_valid(*self),
        ensures
            r as int == stamp_ord(*self),
    {
        (((self.year as u64 * 13 + self.month as u64) * 32 + self.day as u64) * 24
            + self.hour as u64) * 60 + self.minute as u64
    }

    /// Reads a `yyyy/mm/dd-hh.mm` text back into a stamp.
    pub fn parse(s: &str) -> (r: Result<CandleStamp, ParseError>)
        ensures
            r is Ok <==> stamp_text_parses(s@) is Some,
            r matches Ok(c) ==> stamp_text_parses(s@) == Some(c),
            r is Err ==> r == Err::<CandleStamp, ParseError>(ParseError::BadDate),
    {
        let halves = split_fields(s, '-');
        proof {
            assert forall|i: int| 0 <= i < halves@.len() implies halves@[i]@ == split_on(
                s@,
                '-',
            )[i] by {
                assert(halves@.map_values(|p: String| p@)[i] == halves@[i]@);
            }
        }
        if halves.len() != 2 {
            return Err(ParseError::BadDate);
        }
        let date = split_fields(halves[0].as_str(), '/');
        let time = split_fields(halves[1].as_str(), '.');
        proof {
            assert forall|i: int| 0 <= i < date@.len() implies date@[i]@ == split_on(
                halves@[0]@,
                '/',
            )[i] by {
                assert(date@.map_values(|p: String| p@)[i] == date@[i]@);
            }
            assert forall|i: int| 0 <= i < time@.len() implies time@[i]@ == split_on(
                halves@[1]@,
                '.',
            )[i] by {
                assert(time@.map_values(|p: String| p@)[i] == time@[i]@);
            }
        }
        if date.len() != 3 || time.len() != 2 {
            return Err(ParseError::BadDate);
        }
        let ylen = date[0].as_str().unicode_len();
        let molen = date[1].as_str().unicode_len();
        let dlen = date[2].as_str().unicode_len();
        let hlen = time[0].as_str().unicode_len();
        let milen = time[1].as_str().unicode_len();
        if ylen > 4 || molen > 2 || dlen > 2 || hlen > 2 || milen > 2 {
            return Err(ParseError::BadDate);
        }
        proof {
            assert(ten_pow(0) == 1);
            assert(ten_pow(1) == 10);
            assert(ten_pow(2) == 100);
            assert(ten_pow(3) == 1000);
            assert(ten_pow(4) == 10000);
            if date@[0]@.len() > 0 && all_digits(date@[0]@) {
                lemma_dec_value_lt(date@[0]@);
                crate::text::lemma_ten_pow_mono(date@[0]@.len(), 4);
            }
            if date@[1]@.len() > 0 && all_digits(date@[1]@) {
                lemma_dec_value_lt(date@[1]@);
                crate::text::lemma_ten_pow_mono(date@[1]@.len(), 2);
            }
            if date@[2]@.len() > 0 && all_digits(date@[2]@) {
                lemma_dec_value_lt(date@[2]@);
                crate::text::lemma_ten_pow_mono(date@[2]@.len(), 2);
            }
            if time@[0]@.len() > 0 && all_digits(time@[0]@) {
                lemma_dec_value_lt(time@[0]@);
                crate::text::lemma_ten_pow_mono(time@[0]@.len(), 2);
            }
            if time@[1]@.len() > 0 && all_digits(time@[1]@) {
                lemma_dec_value_lt(time@[1]@);
                crate::text::lemma_ten_pow_mono(time@[1]@.len(), 2);
            }
        }
        let year = match crate::text::parse_u32(date[0].as_str()) {
            Some(v) => v,
            None => {
                return Err(ParseError::BadDate);
            },
        };
        let month = match crate::text::parse_u32(date[1].as_str()) {
            Some(v) => v,
            None => {
                return Err(ParseError::BadDate);
            },
        };
        let day = match crate::text::parse_u32(date[2].as_str()) {
            Some(v) => v,
            None => {
                return Err(ParseError::BadDate);
            },
        };
        let hour = match crate::text::parse_u32(time[0].as_str()) {
            Some(v) => v,
            None => {
                return Err(ParseError::BadDate);
            },
        };
        let minute = match crate::text::parse_u32(time[1].as_str()) {
            Some(v) => v,
            None => {
                return Err(ParseError::BadDate);
            },
        };
        let c = CandleStamp {
            year: year as u16,
            month: month as u8,
            day: day as u8,
            hour: hour as u8,
            minute: minute as u8,
        };
        if c.is_valid() {
            Ok(c)
        } else {
            Err(ParseError::BadDate)
        }
    }
}

/// The stamp named by the last colon-separated field of a store key, when
/// that field is a valid stamp text.
pub open spec fn key_stamp(s: Seq<char>) -> Option<CandleStamp> {
    let parts = split_on(s, ':');
    stamp_text_parses(parts.last())
}

/// Stamps ordered chronologically, earliest first.
pub open spec fn stamps_sorted(v: Seq<CandleStamp>) -> bool {
    forall|i: int, j: int| 0 <= i <= j < v.len() ==> stamp_ord(v[i]) <= stamp_ord(v[j])
}

/// Reads the stamps out of a set of store keys and orders them earliest
/// first: each key's stamp is its last colon-separated field. The first
/// key without a valid stamp is the error.
pub fn candle_timestamps(keys: &Vec<String>) -> (r: Result<Vec<CandleStamp>, ParseError>)
    ensures
        r is Ok <==> forall|i: int|
            0 <= i < keys@.len() ==> (#[trigger] key_stamp(keys@[i]@)) is Some,
        r matches Ok(v) ==> {
            &&& stamps_sorted(v@)
            &&& v@.to_multiset() == keys@.map_values(|k: String| key_stamp(k@)->0).to_multiset()
        },
        r is Err ==> r == Err::<Vec<CandleStamp>, ParseError>(ParseError::BadDate),
{
    broadcast use vstd::seq_lib::group_to_multiset_ensures;

    let ghost parsed = keys@.map_values(|k: String| key_stamp(k@)->0);
    let mut v: Vec<CandleStamp> = Vec::new();
    let n = keys.len();
    let mut i: usize = 0;
    proof {
        assert(parsed.take(0) =~= Seq::<CandleStamp>::empty());
        assert(v@.to_multiset() =~= parsed.take(0).to_multiset());
    }
    while i < n
        invariant
            0 <= i <= n == keys@.len(),
            parsed == keys@.map_values(|k: String| key_stamp(k@)->0),
            forall|j: int| 0 <= j < i ==> (#[trigger] key_stamp(keys@[j]@)) is Some,
            forall|j: int| 0 <= j < v@.len() ==> stamp_valid(#[trigger] v@[j]),
            v@.to_multiset() == parsed.take(i as int).to_multiset(),
            v@.len() == i,
        decreases n - i,
    {
        let parts = split_fields(keys[i].as_str(), ':');
        proof {
            assert(parts@.map_values(|p: String| p@).last() == parts@[parts@.len() - 1]@);
        }
        let last = &parts[parts.len() - 1];
        let stamp = match CandleStamp::parse(last.as_str()) {
            Ok(c) => c,
            Err(_) => {
                return Err(ParseError::BadDate);
            },
        };
        proof {
            assert(key_stamp(keys@[i as int]@) == Some(stamp));
            assert(parsed[i as int] == stamp);
            assert(parsed.take(i + 1).drop_last() =~= parsed.take(i as int));
            assert(parsed.take(i + 1).last() == parsed[i as int]);
            assert(parsed.take(i + 1).to_multiset() =~= parsed.take(
                i as int,
            ).to_multiset().insert(stamp)) by {
                vstd::seq_lib::to_multiset_insert::<CandleStamp>(
                    parsed.take(i as int),
                    i as int,
                    stamp,
                );
                assert(parsed.take(i as int).insert(i as int, stamp) =~= parsed.take(i + 1));
            }
            assert(stamp_valid(stamp));
        }
        let ghost before = v@;
        v.push(stamp);
        proof {
            assert(v@ == before.push(stamp));
            vstd::seq_lib::to_multiset_build::<CandleStamp>(before, stamp);
        }
        i = i + 1;
    }
    proof {
        assert(parsed.take(n as int) =~= parsed);
    }
    sort_stamps(&mut v);
    Ok(v)
}

/// Orders stamps chronologically in place, keeping exactly the same
/// stamps.
fn sort_stamps(v: &mut Vec<CandleStamp>)
    requires
        forall|j: int| 0 <= j < old(v)@.len() ==> stamp_valid(#[trigger] old(v)@[j]),
    ensures
        final(v)@.to_multiset() == old(v)@.to_multiset(),
        stamps_sorted(final(v)@),
{
    broadcast use vstd::seq_lib::group_to_multiset_ensures;

    let n = v.len();
    if n == 0 {
        return ;
    }
    let mut i: usize = 1;
    while i < n
        invariant
            1 <= i <= n == v@.len(),
            v@.to_multiset() == old(v)@.to_multiset(),
            forall|j: int| 0 <= j < v@.len() ==> stamp_valid(#[trigger] v@[j]),
            stamps_sorted(v@.take(i as int)),
        decreases n - i,
    {
        let ghost pre = v@;
        let x = v.remove(i);
        let ghost removed = v@;
        let mut j: usize = i;
        while j > 0 && v[j - 1].ord_key() > x.ord_key()
            invariant
                0 <= j <= i < removed.len() + 1,
                v@ == removed,
                forall|j2: int| 0 <= j2 < removed.len() ==> stamp_valid(#[trigger] removed[j2]),
                stamp_valid(x),
                forall|b: int| j <= b < i ==> stamp_ord(removed[b]) > stamp_ord(x),
            decreases j,
        {
            j = j - 1;
        }
        v.insert(j, x);
        proof {
            let post = v@;
            assert(post == removed.insert(j as int, x));
            assert(removed == pre.remove(i as int));
            vstd::seq_lib::to_multiset_remove::<CandleStamp>(pre, i as int);
            vstd::seq_lib::to_multiset_insert::<CandleStamp>(removed, j as int, x);
            vstd::seq_lib::to_multiset_contains::<CandleStamp>(pre, x);
            assert(pre.contains(x)) by {
                assert(pre[i as int] == x);
            }
            assert(post.to_multiset() =~= pre.to_multiset());
            let sp = pre.take(i as int);
            assert(forall|c: int| 0 <= c < i ==> removed[c] == pre[c]);
            assert(forall|c: int| 0 <= c < i ==> sp[c] == pre[c]);
            assert(forall|c: int| 0 <= c < j ==> post[c] == removed[c]);
            assert(post[j as int] == x);
            assert(forall|c: int| j < c < post.len() ==> post[c] == removed[c - 1]);
            assert(stamps_sorted(post.take(i + 1))) by {
                let win = post.take(i + 1);
                assert forall|a: int, b: int|
                    0 <= a <= b < win.len() implies stamp_ord(win[a]) <= stamp_ord(win[b]) by {
                    assert(forall|c: int| 0 <= c <= i ==> win[c] == post[c]);
                    assert(forall|c: int, d: int|
                        0 <= c <= d < i ==> stamp_ord(sp[c]) <= stamp_ord(sp[d]));
                    if j > 0 {
                        assert(stamp_ord(removed[j - 1]) <= stamp_ord(x));
                    }
                    assert(forall|c: int| j <= c < i ==> stamp_ord(removed[c]) > stamp_ord(x));
                }
            }
        }
        i = i + 1;
    }
    proof {
        assert(v@.take(n as int) =~= v@);
    }
}

/// The store key of one candle: the instrument's key, the candle marker
/// and the stamp text.
pub fn candle_key(base_key: &str, stamp: &CandleStamp) -> (r: String)
    ensures
        r@ == base_key@ + ":CANDLES:"@ + stamp_text(*stamp),
{
    let ts = stamp.format();
    base_key.to_owned().concat(":CANDLES:").concat(ts.as_str())
}

/// The store pattern matching every candle key of one instrument.
pub fn candles_pattern(base_key: &str) -> (r: String)
    ensures
        r@ == base_key@ + ":CANDLES:*"@,
{
    base_key.to_owned().concat(":CANDLES:*")
}

} // verus!
