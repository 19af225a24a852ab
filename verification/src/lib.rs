//! Verified core of a batch pipeline that backfills candlestick ("kline")
//! market data: window planning, payload parsing into canonical records,
//! destination resolution and storage routing.

pub mod config;
pub mod db;
pub mod decimal;
pub mod destination;
pub mod dispatch;
pub mod exchange;
pub mod interval;
pub mod numeral;
pub mod parser;
pub mod payload;
pub mod planner;
pub mod resolver;
pub mod rest_client;
pub mod text;
