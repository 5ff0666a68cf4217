//! An in-memory user/role store with write-through persistence to a
//! JSON document, plus a query layer with case-insensitive name search.

pub mod ids;
pub mod json;
pub mod kvmap;
pub mod models;
pub mod role_handlers;
pub mod role_store;
pub mod storage;
pub mod text;
pub mod user_handlers;
pub mod user_store;
