//! AquaDEX: a limit order book with its matching engine, kept in flat account data.
//!
//! Accounts hold their data in slabs of pages. On these lie crit-bit maps and lists of records; on
//! those the order book, the trade log and the settlement logs. What an instruction does is stated
//! over the content of the accounts, and each function is proved to do that.

// Flat data: numbers and addresses as bytes, and slabs of pages.
pub mod codec;
pub mod pubkey;
pub mod slab;
pub mod slab_alloc;
pub mod region;

// Crit-bit maps.
pub mod bits;
pub mod node;
pub mod crit_tree;
pub mod sorted;
pub mod pool;
pub mod pool_ops;
pub mod crit_map;
pub mod hash;
pub mod crit_view;

// Records that are found by keys.
pub mod slab_vec;
pub mod shelf;
pub mod records;

// The accounts of a market.
pub mod market;
pub mod math;
pub mod order_book;
pub mod trade_log;
pub mod settlement;
pub mod accounts;
pub mod reload;
pub mod copy;

// The rules of the exchange, and what carries them out.
pub mod ledger;
pub mod ledger_facts;
pub mod exchange;
pub mod context;
pub mod order_rules;
pub mod order_entry;
pub mod log_chain;
pub mod cancel;
pub mod withdraw;
pub mod vault;
pub mod manager;
pub mod address;
pub mod create;

// What holds of the exchange as a whole.
pub mod priority;
pub mod matching;
pub mod preview;
pub mod balances;
pub mod flows;
pub mod counts;
pub mod trades;
pub mod refunds;
pub mod outcomes;
pub mod terms;
pub mod removals;
pub mod payouts;
pub mod openings;
pub mod layouts;
pub mod laws;
