use vstd::prelude::*;

use crate::scrip::{exchange_code, exchange_type_code, is_exchange_code, is_exchange_type_code};
use crate::scrip::{Exchange, ExchangeType};

verus! {

/// A cash-market or index instrument: a name qualified by its exchange and
/// exchange segment. Its canonical key is `name:exchange:segment`.
#[derive(Debug)]
pub struct StockScrip {
    pub name: String,
    pub exchange: Exchange,
    pub exchange_type: ExchangeType,
}

/// An index is identified exactly like a stock, only its exchange segment
/// differs in practice.
pub type IndexScrip = StockScrip;

impl StockScrip {
    /// The canonical key of this instrument: its name and the two codes,
    /// separated by colons.
    pub open spec fn spec_key(self) -> Seq<char> {
        self.name@ + seq![':'] + exchange_code(self.exchange) + seq![':'] + exchange_type_code(
            self.exchange_type,
        )
    }

    /// Builds a stock identity from its name and the short codes of its
    /// exchange and exchange segment.
    pub fn new(name: &str, exchange: &str, exchange_type: &str) -> (s: Self)
        requires
            is_exchange_code(exchange@),
            is_exchange_type_code(exchange_type@),
        ensures
            s.name@ == name@,
            exchange_code(s.exchange) == exchange@,
            exchange_type_code(s.exchange_type) == exchange_type@,
    {
        let e = match Exchange::from_code(exchange) {
            Some(e) => e,
            None => vstd::pervasive::unreached(),
        };
        let t = match ExchangeType::from_code(exchange_type) {
            Some(t) => t,
            None => vstd::pervasive::unreached(),
        };
        Self { name: name.to_owned(), exchange: e, exchange_type: t }
    }

    /// The canonical key string, `name:exchange:segment`.
    pub fn key(&self) -> (r: String)
        ensures
            r@ == self.spec_key(),
    {
        proof {
            reveal_strlit(":");
        }
        let r = self.name.clone().concat(":").concat(self.exchange.code_str()).concat(
            ":",
        ).concat(self.exchange_type.code_str());
        proof {
            assert(r@ =~= self.spec_key());
        }
        r
    }
}

impl Clone for StockScrip {
    /// A copy with exactly the same identity.
    fn clone(&self) -> (r: Self)
        ensures
            r == self,
    {
        StockScrip {
            name: self.name.clone(),
            exchange: self.exchange,
            exchange_type: self.exchange_type,
        }
    }
}

} // verus!
