//! Trading-strategy backtesting core: an EMA crossover signal generator and a
//! position/cash accounting engine, both over fixed-point integer prices.
pub mod bar;
pub mod order;
pub mod error;
pub mod ema_switch;
pub mod strategy;
pub mod engine;
pub mod backtest;
pub mod laws;
pub mod decimal;
pub mod loader;
pub mod simulation;
pub mod simulator;
