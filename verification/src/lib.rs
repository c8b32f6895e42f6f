//! The verified core of a small Lightning payment page: the rules of the
//! vault game, the parsing of the cashu wallet's output, the bookkeeping of
//! inbound channel requests and the records handed back to web clients.

pub mod cashu;
pub mod config;
pub mod email;
pub mod hexcode;
pub mod inbound;
pub mod lnd;
pub mod payment;
pub mod text;
pub mod vault;

use vstd::prelude::*;

pub use lnd::load_conf;

verus! {

/// The vault board is `BOARD_SIZE` squares wide and `BOARD_SIZE` squares high.
pub const BOARD_SIZE: u8 = 4;

/// The HTTP status that a handler answers with.
#[derive(Clone, Copy, Debug, PartialEq, Eq, Structural)]
pub enum Status {
    /// 202 Accepted
    Accepted,
    /// 500 Internal Server Error
    InternalServerError,
}

} // verus!
