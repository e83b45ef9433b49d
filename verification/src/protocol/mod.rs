//! The wire protocol spoken between clients and the server.

pub mod parserv2;
