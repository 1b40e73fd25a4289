//! Verified building blocks of a packet-processing framework and of the network
//! functions built on it: header descriptors, batch operators, a shared vector,
//! an SCTP control-connection table, a TLS handshake inspector, a P2P flow
//! classifier and the browsing workload of a remote-rendering proxy.
pub mod headers;
pub mod json;
pub mod tls;
pub mod validator;
pub mod p2p;
pub mod rdr;
pub mod workload;
pub mod sctp;
pub mod batch;
pub mod shared_vec;
