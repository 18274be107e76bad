//! Order states as the database and the sockets name them.
use crate::order::{OrderStatus, UPDATE_ACCEPTED, UPDATE_CANCELLED, UPDATE_FILLED, UPDATE_PARTIAL_FILL};
use crate::text;
use vstd::prelude::*;

verus! {

#[derive(Debug, Clone, Copy, PartialEq, Eq, Structural)]
pub enum DbOrderStatus {
    Pending,
    Trading,
    Completed,
    Canceled,
    Rejected,
}

impl DbOrderStatus {
    pub open spec fn name(self) -> Seq<char> {
        match self {
            DbOrderStatus::Pending => "PENDING"@,
            DbOrderStatus::Trading => "TRADING"@,
            DbOrderStatus::Completed => "COMPLETED"@,
            DbOrderStatus::Canceled => "CANCELED"@,
            DbOrderStatus::Rejected => "REJECTED"@,
        }
    }

    pub open spec fn code(self) -> u8 {
        match self {
            DbOrderStatus::Pending => 0,
            DbOrderStatus::Trading => 1,
            DbOrderStatus::Completed => 2,
            DbOrderStatus::Canceled => 3,
            DbOrderStatus::Rejected => 4,
        }
    }

    /// Whether the order may still trade.
    pub open spec fn open(self) -> bool {
        self == DbOrderStatus::Pending || self == DbOrderStatus::Trading
    }

    pub fn as_str(self) -> (r: &'static str)
        ensures
            r@ == self.name(),
    {
        match self {
            DbOrderStatus::Pending => "PENDING",
            DbOrderStatus::Trading => "TRADING",
            DbOrderStatus::Completed => "COMPLETED",
            DbOrderStatus::Canceled => "CANCELED",
            DbOrderStatus::Rejected => "REJECTED",
        }
    }

    pub fn as_u8(self) -> (r: u8)
        ensures
            r == self.code(),
    {
        match self {
            DbOrderStatus::Pending => 0,
            DbOrderStatus::Trading => 1,
            DbOrderStatus::Completed => 2,
            DbOrderStatus::Canceled => 3,
            DbOrderStatus::Rejected => 4,
        }
    }
}

#[derive(Debug, Clone, Copy, PartialEq, Eq, Structural)]
pub enum WsOrderStatus {
    Open,
    Partial,
    PartialFill,
    Filled,
    Canceled,
    Rejected,
}

impl WsOrderStatus {
    pub open spec fn name(self) -> Seq<char> {
        match self {
            WsOrderStatus::Open => "OPEN"@,
            WsOrderStatus::Partial => "PARTIAL"@,
            WsOrderStatus::PartialFill => "PARTIAL_FILL"@,
            WsOrderStatus::Filled => "FILLED"@,
            WsOrderStatus::Canceled => "CANCELED"@,
            WsOrderStatus::Rejected => "REJECTED"@,
        }
    }

    pub fn as_str(self) -> (r: &'static str)
        ensures
            r@ == self.name(),
    {
        match self {
            WsOrderStatus::Open => "OPEN",
            WsOrderStatus::Partial => "PARTIAL",
            WsOrderStatus::PartialFill => "PARTIAL_FILL",
            WsOrderStatus::Filled => "FILLED",
            WsOrderStatus::Canceled => "CANCELED",
            WsOrderStatus::Rejected => "REJECTED",
        }
    }
}

pub open spec fn db_status_of_update(kind: u8) -> DbOrderStatus {
    if kind == UPDATE_ACCEPTED {
        DbOrderStatus::Pending
    } else if kind == UPDATE_PARTIAL_FILL {
        DbOrderStatus::Trading
    } else if kind == UPDATE_FILLED {
        DbOrderStatus::Completed
    } else if kind == UPDATE_CANCELLED {
        DbOrderStatus::Canceled
    } else {
        DbOrderStatus::Rejected
    }
}

pub open spec fn ws_status_of_update(kind: u8) -> WsOrderStatus {
    if kind == UPDATE_ACCEPTED {
        WsOrderStatus::Open
    } else if kind == UPDATE_PARTIAL_FILL {
        WsOrderStatus::Partial
    } else if kind == UPDATE_FILLED {
        WsOrderStatus::Filled
    } else if kind == UPDATE_CANCELLED {
        WsOrderStatus::Canceled
    } else {
        WsOrderStatus::Rejected
    }
}

pub open spec fn db_status_of_engine(status: OrderStatus) -> DbOrderStatus {
    match status {
        OrderStatus::Accepted => DbOrderStatus::Pending,
        OrderStatus::PartiallyFilled => DbOrderStatus::Trading,
        OrderStatus::Filled => DbOrderStatus::Completed,
        OrderStatus::Cancelled => DbOrderStatus::Canceled,
        OrderStatus::Rejected => DbOrderStatus::Rejected,
    }
}

pub open spec fn ws_status_of_engine(
    status: OrderStatus,
    cancelled_after_fill: bool,
) -> WsOrderStatus {
    match status {
        OrderStatus::Accepted => WsOrderStatus::Open,
        OrderStatus::PartiallyFilled => WsOrderStatus::PartialFill,
        OrderStatus::Filled => WsOrderStatus::Filled,
        OrderStatus::Cancelled => if cancelled_after_fill {
            WsOrderStatus::PartialFill
        } else {
            WsOrderStatus::Canceled
        },
        OrderStatus::Rejected => WsOrderStatus::Rejected,
    }
}

pub fn db_status_from_update_kind(kind: u8) -> (r: DbOrderStatus)
    ensures
        r == db_status_of_update(kind),
{
    if kind == UPDATE_ACCEPTED {
        DbOrderStatus::Pending
    } else if kind == UPDATE_PARTIAL_FILL {
        DbOrderStatus::Trading
    } else if kind == UPDATE_FILLED {
        DbOrderStatus::Completed
    } else if kind == UPDATE_CANCELLED {
        DbOrderStatus::Canceled
    } else {
        DbOrderStatus::Rejected
    }
}

pub fn ws_status_from_update_kind(kind: u8) -> (r: WsOrderStatus)
    ensures
        r == ws_status_of_update(kind),
{
    if kind == UPDATE_ACCEPTED {
        WsOrderStatus::Open
    } else if kind == UPDATE_PARTIAL_FILL {
        WsOrderStatus::Partial
    } else if kind == UPDATE_FILLED {
        WsOrderStatus::Filled
    } else if kind == UPDATE_CANCELLED {
        WsOrderStatus::Canceled
    } else {
        WsOrderStatus::Rejected
    }
}

pub fn db_status_from_engine(status: OrderStatus) -> (r: DbOrderStatus)
    ensures
        r == db_status_of_engine(status),
{
    match status {
        OrderStatus::Accepted => DbOrderStatus::Pending,
        OrderStatus::PartiallyFilled => DbOrderStatus::Trading,
        OrderStatus::Filled => DbOrderStatus::Completed,
        OrderStatus::Cancelled => DbOrderStatus::Canceled,
        OrderStatus::Rejected => DbOrderStatus::Rejected,
    }
}

/// A cancel that comes after fills is shown to the client as a partial fill.
pub fn ws_status_from_engine(status: OrderStatus, cancelled_after_fill: bool) -> (r: WsOrderStatus)
    ensures
        r == ws_status_of_engine(status, cancelled_after_fill),
{
    match status {
        OrderStatus::Accepted => WsOrderStatus::Open,
        OrderStatus::PartiallyFilled => WsOrderStatus::PartialFill,
        OrderStatus::Filled => WsOrderStatus::Filled,
        OrderStatus::Cancelled => if cancelled_after_fill {
            WsOrderStatus::PartialFill
        } else {
            WsOrderStatus::Canceled
        },
        OrderStatus::Rejected => WsOrderStatus::Rejected,
    }
}

/// What a maker is shown once its row reads `status`.
pub fn maker_ws_status_from_db_status(status: &str) -> (r: WsOrderStatus)
    ensures
        r == (if status@ == DbOrderStatus::Completed.name() {
            WsOrderStatus::Filled
        } else {
            WsOrderStatus::PartialFill
        }),
{
    if text::str_eq(status, "COMPLETED") {
        WsOrderStatus::Filled
    } else {
        WsOrderStatus::PartialFill
    }
}

/// Both views of an engine reply agree on whether the order is finished.
pub proof fn law_views_agree_on_update(kind: u8)
    ensures
        db_status_of_update(kind).open() == (ws_status_of_update(kind) == WsOrderStatus::Open
            || ws_status_of_update(kind) == WsOrderStatus::Partial),
        db_status_of_update(kind) == DbOrderStatus::Completed <==> ws_status_of_update(kind)
            == WsOrderStatus::Filled,
        db_status_of_update(kind) == DbOrderStatus::Canceled <==> ws_status_of_update(kind)
            == WsOrderStatus::Canceled,
{
}

/// What the engine says of an order is stored and told alike: it is open while
/// it waits or is filled in part, and over when it is filled, cancelled or
/// refused.
pub proof fn law_engine_status_is_told_and_stored_alike(status: OrderStatus, after_fill: bool)
    ensures
        db_status_of_engine(status).open() <==> status == OrderStatus::Accepted || status
            == OrderStatus::PartiallyFilled,
        db_status_of_engine(status) == DbOrderStatus::Completed <==> status == OrderStatus::Filled,
        db_status_of_engine(status) == DbOrderStatus::Rejected <==> status == OrderStatus::Rejected,
        db_status_of_engine(status) == DbOrderStatus::Pending <==> status == OrderStatus::Accepted,
        ws_status_of_engine(status, after_fill) == WsOrderStatus::Filled <==> status
            == OrderStatus::Filled,
        ws_status_of_engine(status, after_fill) == WsOrderStatus::Open <==> status
            == OrderStatus::Accepted,
        ws_status_of_engine(status, after_fill) == WsOrderStatus::Rejected <==> status
            == OrderStatus::Rejected,
        ws_status_of_engine(status, after_fill) == WsOrderStatus::Canceled <==> status
            == OrderStatus::Cancelled && !after_fill,
{
}

/// Distinct stored statuses have distinct numbers.
pub proof fn law_stored_codes_are_distinct(a: DbOrderStatus, b: DbOrderStatus)
    ensures
        a.code() == b.code() ==> a == b,
        a.code() <= 4,
        a.open() <==> a.code() < 2,
{
}

/// An update is open, filled, cancelled or refused as its kind says, and kinds
/// that are not known count as refused.
pub proof fn law_update_kinds_are_distinct(a: u8, b: u8)
    requires
        db_status_of_update(a) == db_status_of_update(b),
    ensures
        db_status_of_update(a) != DbOrderStatus::Rejected ==> a == b,
        ws_status_of_update(a) == ws_status_of_update(b),
        db_status_of_update(a) == DbOrderStatus::Pending ==> ws_status_of_update(a)
            == WsOrderStatus::Open,
        db_status_of_update(a) == DbOrderStatus::Trading ==> ws_status_of_update(a)
            == WsOrderStatus::Partial,
        db_status_of_update(a) == DbOrderStatus::Rejected ==> ws_status_of_update(a)
            == WsOrderStatus::Rejected,
{
}

} // verus!
