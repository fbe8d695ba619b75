//! A forward proxy's upstream relay, kept free of sockets: the relay turns a
//! parsed client request into the exact bytes of an HTTP/1.1 request and
//! queues them, write by write, for whoever owns the transport.

pub mod decimal;
pub mod server;
pub mod study;
