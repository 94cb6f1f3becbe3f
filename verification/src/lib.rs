//! Wallet: investment-wallet rules, text codecs and request helpers,
//! specified and proved with Verus.
pub mod text;
pub mod i18n;
pub mod error;
pub mod throttle;
pub mod money;
pub mod format;
pub mod market;
pub mod web;
pub mod session;
pub mod flash;
pub mod wallet;
pub mod quotes;
pub mod config;
pub mod statement;
pub mod pages;
