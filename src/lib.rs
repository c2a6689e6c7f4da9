//! The core of a market-making bot: exact decimals, the public book and our own
//! orders with the writers that keep them, a depth-based quoting policy, the book of
//! in-flight submissions, an in-memory publish/subscribe topic, the decision loop's
//! steps, and the decoding of the exchange feed into writer ops.

pub mod decimal;
pub mod types;
pub mod order;
pub mod market;
pub mod orderbook_writer;
pub mod open_orders_writer;
pub mod observation;
pub mod dbo;
pub mod order_service;
pub mod logger;
pub mod bot;
pub mod apikey;
pub mod pubsub;
pub mod text;
pub mod feed;
