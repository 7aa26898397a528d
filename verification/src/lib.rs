//! A personal nutrition tracker: a catalog of foods, meals composed from
//! them, per-day intake logs with their nutrient totals, and the text records
//! in which each collection is stored.
//!
//! Quantities and nutrient values are exact decimal numbers with three
//! fractional digits ([`amount::Amount`]); a total is a sum of products of
//! three of them, in billionths ([`nutrients::Nutrients`]). Each collection
//! has a mathematical view, over which the contracts are stated: the catalog
//! and the registry of users are maps by name, the stored meals a sequence,
//! the daily logs a map by user and date.
//!
//! - [`catalog`], [`meal`], [`daily_log`], [`log_store`], [`users`]: the
//!   collections and what is computed from them.
//! - [`compose`], [`menu`]: the decisions taken while a meal is put together
//!   or chosen, and at the menus.
//! - [`product_records`], [`user_records`], [`meal_records`],
//!   [`log_records`]: each collection as text, with the laws that relate
//!   writing and reading; [`log_reload`]: what the text of the logs keeps.
//! - [`amount`], [`decimal`], [`date`], [`text`], [`assoc`], [`records`],
//!   [`nutrients`]: numbers, dates, character sequences and maps that the
//!   others build on.

pub mod amount;
pub mod assoc;
pub mod catalog;
pub mod compose;
pub mod daily_log;
pub mod date;
pub mod decimal;
pub mod log_records;
pub mod log_reload;
pub mod log_store;
pub mod meal;
pub mod meal_records;
pub mod menu;
pub mod nutrients;
pub mod product_records;
pub mod records;
pub mod text;
pub mod user_records;
pub mod users;
