//! Responder side of the SPDM measurement services: the `GET_MEASUREMENTS` /
//! `MEASUREMENTS` exchange and the measurement summary hash.
pub mod block;
pub mod buffer;
pub mod error;
pub mod exchange;
pub mod exchange_laws;
pub mod message_laws;
pub mod request;
pub mod request_laws;
pub mod response;
pub mod run_laws;
pub mod signing;
pub mod spdm;
pub mod step_laws;
pub mod summary;
pub mod summary_laws;
pub mod wire;
