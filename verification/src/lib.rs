//! A codec for DNS messages and the decisions of an iterative resolver.
//!
//! The codec turns headers, names, questions and records into octets and
//! back, following compression pointers with a bound on the work. The
//! resolver is a state machine: it says which query to send next and what a
//! response means; sending and receiving is left to the caller.

pub mod wire;
pub mod cursor;
pub mod dname;
pub mod header;
pub mod message;
pub mod qclass;
pub mod qtype;
pub mod query;
pub mod question;
pub mod record;
pub mod resolver;
