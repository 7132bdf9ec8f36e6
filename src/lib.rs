pub mod decimal;
pub mod codec;
pub mod frame_laws;
pub mod fold;
pub mod command;
pub mod info;
pub mod serialization;
pub mod keyspace;
pub mod environment;
pub mod resp2;
pub mod connection;
pub mod handshake;
pub mod store_laws;
pub mod replication_laws;
pub mod cli;
