//! Collaborative database documents: the workspace index of databases, the
//! per-database view registry, field type options, row identifiers, the
//! synchronisation message set, and the ordered update log.
pub mod body;
pub mod database;
pub mod id_gen;
pub mod index_codec;
pub mod keyed;
pub mod manager;
pub mod proto;
pub mod text;
pub mod txn;
pub mod type_option;
pub mod update_log;
pub mod views;
