//! Attribution of open local sockets to the processes that own them.
//!
//! A connection source (outside this crate) reports raw connection records;
//! [`sockets::get_open_sockets`] folds them into an [`sockets::OpenSockets`]
//! snapshot keyed by the local endpoint of each connection.
pub mod network;
pub mod sockets;
