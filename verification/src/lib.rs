pub mod admin;
pub mod api;
pub mod event;
pub mod follow_sync;
pub mod json;
pub mod keys;
pub mod pruner;
pub mod pubkey;
pub mod reference_accounts;
pub mod storage;
pub mod table;
pub mod text;
pub mod whitelist;
