//! Exchange desk core: fixed-point money, margin risk, funding, trigger
//! orders, order entry decisions and persistence bookkeeping.
pub mod account;
pub mod account_repository;
pub mod api;
pub mod counter_shard;
pub mod db;
pub mod decimal;
pub mod exchange_config;
pub mod funding;
pub mod index_price;
pub mod leader;
pub mod maps;
pub mod metrics;
pub mod models;
pub mod money;
pub mod order;
pub mod order_entry;
pub mod order_flow;
pub mod order_state;
pub mod persist_event;
pub mod pg_store;
pub mod rate_limit;
pub mod read_actor;
pub mod reconcile;
pub mod redis_store;
pub mod risk;
pub mod risk_persist;
pub mod symbol_rules;
pub mod text;
pub mod text_map;
pub mod trigger;
pub mod user_service;
pub mod ws_handler;
pub mod ws_message;
pub mod ws_sbe;
