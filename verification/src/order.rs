//! Order vocabulary shared by the desk and the matching engine.
use vstd::prelude::*;

verus! {

#[derive(Clone, Copy, Debug, PartialEq, Eq, Structural)]
pub enum Side {
    Buy,
    Sell,
}

impl Side {
    /// The wire byte: 0 for a buy, 1 for a sell.
    pub open spec fn code(self) -> u8 {
        match self {
            Side::Buy => 0,
            Side::Sell => 1,
        }
    }

    pub fn as_u8(self) -> (r: u8)
        ensures
            r == self.code(),
    {
        match self {
            Side::Buy => 0,
            Side::Sell => 1,
        }
    }
}

#[derive(Clone, Copy, Debug, PartialEq, Eq, Structural)]
pub enum TimeInForce {
    GTC,
    IOC,
    FOK,
    PostOnly,
}

impl TimeInForce {
    /// The wire byte of the policy.
    pub open spec fn code(self) -> u8 {
        match self {
            TimeInForce::GTC => 0,
            TimeInForce::IOC => 1,
            TimeInForce::FOK => 2,
            TimeInForce::PostOnly => 3,
        }
    }

    pub fn as_u8(self) -> (r: u8)
        ensures
            r == self.code(),
    {
        match self {
            TimeInForce::GTC => 0,
            TimeInForce::IOC => 1,
            TimeInForce::FOK => 2,
            TimeInForce::PostOnly => 3,
        }
    }
}

/// What the matching engine says of an order.
#[derive(Clone, Copy, Debug, PartialEq, Eq, Structural)]
pub enum OrderStatus {
    Accepted,
    PartiallyFilled,
    Filled,
    Cancelled,
    Rejected,
}

/// Kinds of order update on the engine's reply stream.
pub const UPDATE_ACCEPTED: u8 = 0;

pub const UPDATE_PARTIAL_FILL: u8 = 1;

pub const UPDATE_FILLED: u8 = 2;

pub const UPDATE_CANCELLED: u8 = 3;

} // verus!
