//! The commonly used names of the crate, importable in one line.

pub use crate::scrip::{Exchange, ExchangeType, RawScrip, Scrip};
pub use crate::tickers::{CompleteTicker, Depth, DepthOrder, Ticker, OHLC};
pub use crate::stock::{IndexScrip, StockScrip};
pub use crate::options::{Date, OptionChain, OptionChainScrip, OptionScrip, OptionType};
pub use crate::position::{AvgPrice, Holding, Position, Transaction};
pub use crate::orders::{BasketOrder, BasketOrderType, MarginTotal, Order, OrderType};
pub use crate::live_candle::{Candle, CandleStamp};
pub use crate::error::{Error, ParseError};
