//! In-memory engine for executing trade orders against a snapshot of market
//! depth and folding the resulting transactions into a running position.
//!
//! Prices are exact fixed-point integers: one price unit is 1/10000 of a
//! currency unit, so a price of 400.15 is stored as 4_001_500. Average fill
//! prices are exact rationals (a total cost over a quantity); no rounding is
//! ever performed by the library itself.

pub mod clock;
pub mod error;
pub mod info;
pub mod live_candle;
pub mod options;
pub mod orders;
pub mod position;
pub mod prelude;
pub mod scrip;
pub mod stock;
pub mod text;
pub mod tickers;

pub use error::{Error, ParseError};
pub use live_candle::{Candle, CandleStamp};
pub use info::{AttrValue, IndexMetaData, MetaData, StockMetaData};
pub use options::{Date, OptionChain, OptionChainScrip, OptionScrip, OptionType};
pub use orders::{BasketOrder, BasketOrderType, MarginTotal, Order, OrderType};
pub use position::{AvgPrice, Holding, Position, Transaction};
pub use scrip::{Exchange, ExchangeType, RawScrip, Scrip};
pub use stock::{IndexScrip, StockScrip};
pub use tickers::{CompleteTicker, Depth, DepthOrder, Ticker, OHLC};
