//! Risk state of accounts and positions. Money is in atoms, prices in ticks,
//! quantities in lots.
use vstd::prelude::*;

verus! {

#[derive(Debug, Clone, Copy, PartialEq, Eq, Structural)]
pub enum RiskStatus {
    Normal,
    MarginCall,
    LiquidationPending,
    Liquidating,
    Liquidated,
    Bankruptcy,
}

#[derive(Debug, Clone, Copy, PartialEq, Eq, Structural)]
pub enum PositionSide {
    Long,
    Short,
}

/// Margin account of one user.
#[derive(Debug, Clone, Copy, PartialEq, Eq, Structural)]
pub struct AccountRiskState {
    pub user_id: i64,
    pub equity: i64,
    pub available_margin: i64,
    pub order_margin: i64,
    pub used_margin: i64,
    pub maintenance_margin: i64,
    pub unrealized_pnl: i64,
    pub status: RiskStatus,
}

impl Default for RiskStatus {
    fn default() -> (r: RiskStatus)
        ensures
            r == RiskStatus::Normal,
    {
        RiskStatus::Normal
    }
}

impl RiskStatus {
    /// The stable number of a status on the wire and in storage.
    pub open spec fn code(self) -> u8 {
        match self {
            RiskStatus::Normal => 0,
            RiskStatus::MarginCall => 1,
            RiskStatus::LiquidationPending => 2,
            RiskStatus::Liquidating => 3,
            RiskStatus::Liquidated => 4,
            RiskStatus::Bankruptcy => 5,
        }
    }

    pub open spec fn db_name(self) -> Seq<char> {
        match self {
            RiskStatus::Normal => "normal"@,
            RiskStatus::MarginCall => "margin_call"@,
            RiskStatus::LiquidationPending => "liquidation_pending"@,
            RiskStatus::Liquidating => "liquidating"@,
            RiskStatus::Liquidated => "liquidated"@,
            RiskStatus::Bankruptcy => "bankruptcy"@,
        }
    }

    pub fn to_u8(self) -> (r: u8)
        ensures
            r == self.code(),
    {
        match self {
            RiskStatus::Normal => 0,
            RiskStatus::MarginCall => 1,
            RiskStatus::LiquidationPending => 2,
            RiskStatus::Liquidating => 3,
            RiskStatus::Liquidated => 4,
            RiskStatus::Bankruptcy => 5,
        }
    }

    /// The status with this number, where there is one.
    pub fn from_u8(v: u8) -> (r: Option<RiskStatus>)
        ensures
            r is Some <==> v <= 5,
            r is Some ==> (r->0).code() == v,
    {
        match v {
            0 => Some(RiskStatus::Normal),
            1 => Some(RiskStatus::MarginCall),
            2 => Some(RiskStatus::LiquidationPending),
            3 => Some(RiskStatus::Liquidating),
            4 => Some(RiskStatus::Liquidated),
            5 => Some(RiskStatus::Bankruptcy),
            _ => None,
        }
    }

    pub fn as_db_str(self) -> (r: &'static str)
        ensures
            r@ == self.db_name(),
    {
        match self {
            RiskStatus::Normal => "normal",
            RiskStatus::MarginCall => "margin_call",
            RiskStatus::LiquidationPending => "liquidation_pending",
            RiskStatus::Liquidating => "liquidating",
            RiskStatus::Liquidated => "liquidated",
            RiskStatus::Bankruptcy => "bankruptcy",
        }
    }
}

impl PositionSide {
    /// 0 for long, 1 for short.
    pub open spec fn code(self) -> u8 {
        match self {
            PositionSide::Long => 0,
            PositionSide::Short => 1,
        }
    }

    pub open spec fn db_name(self) -> Seq<char> {
        match self {
            PositionSide::Long => "long"@,
            PositionSide::Short => "short"@,
        }
    }

    pub open spec fn opposite(self) -> PositionSide {
        match self {
            PositionSide::Long => PositionSide::Short,
            PositionSide::Short => PositionSide::Long,
        }
    }

    pub fn to_u8(self) -> (r: u8)
        ensures
            r == self.code(),
    {
        match self {
            PositionSide::Long => 0,
            PositionSide::Short => 1,
        }
    }

    /// The side with this number, where there is one.
    pub fn from_u8(v: u8) -> (r: Option<PositionSide>)
        ensures
            r is Some <==> v <= 1,
            r is Some ==> (r->0).code() == v,
    {
        match v {
            0 => Some(PositionSide::Long),
            1 => Some(PositionSide::Short),
            _ => None,
        }
    }

    pub fn as_db_str(self) -> (r: &'static str)
        ensures
            r@ == self.db_name(),
    {
        match self {
            PositionSide::Long => "long",
            PositionSide::Short => "short",
        }
    }
}

/// Distinct statuses and sides have distinct numbers, so reading a number back
/// gives the status or side that was written.
pub proof fn law_codes_are_distinct(a: RiskStatus, b: RiskStatus, x: PositionSide, y: PositionSide)
    ensures
        a.code() == b.code() ==> a == b,
        x.code() == y.code() ==> x == y,
        a.code() <= 5,
        x.code() <= 1,
{
}

impl AccountRiskState {
    pub open spec fn fresh(user_id: i64, balance: i64) -> AccountRiskState {
        AccountRiskState {
            user_id,
            equity: balance,
            available_margin: balance,
            order_margin: 0,
            used_margin: 0,
            maintenance_margin: 0,
            unrealized_pnl: 0,
            status: RiskStatus::Normal,
        }
    }

    /// Whether the account may enter orders.
    pub open spec fn may_trade(self) -> bool {
        self.status == RiskStatus::Normal || self.status == RiskStatus::MarginCall
    }

    /// Equity is exactly what the margin buckets and the open result add up to.
    pub open spec fn balanced(self) -> bool {
        self.equity == self.available_margin + self.order_margin + self.used_margin
            + self.unrealized_pnl
    }

    pub fn new(user_id: i64, usdt_balance_atoms: i64) -> (r: AccountRiskState)
        ensures
            r == AccountRiskState::fresh(user_id, usdt_balance_atoms),
            r.balanced(),
    {
        AccountRiskState {
            user_id,
            equity: usdt_balance_atoms,
            available_margin: usdt_balance_atoms,
            order_margin: 0,
            used_margin: 0,
            maintenance_margin: 0,
            unrealized_pnl: 0,
            status: RiskStatus::Normal,
        }
    }

    pub fn can_place_order(&self) -> (r: bool)
        ensures
            r == self.may_trade(),
    {
        match self.status {
            RiskStatus::Normal => true,
            RiskStatus::MarginCall => true,
            _ => false,
        }
    }
}

/// One open position of one user.
#[derive(Debug, Clone, Copy, PartialEq, Eq)]
pub struct PositionRiskState {
    pub user_id: i64,
    pub symbol: [u8; 16],
    pub side: PositionSide,
    pub qty_lots: i64,
    pub entry_price_ticks: i64,
    pub mark_price_ticks: i64,
    pub unrealized_pnl: i64,
    pub initial_margin: i64,
    pub maintenance_margin: i64,
    pub liquidation_price_ticks: i64,
    pub bankruptcy_price_ticks: i64,
    pub leverage: u8,
}

/// A position that has to be closed by force.
#[derive(Debug, Clone, Copy, PartialEq, Eq)]
pub struct LiquidationEvent {
    pub user_id: i64,
    pub symbol: [u8; 16],
    pub side: PositionSide,
    pub qty_lots: i64,
    /// The price at which the user is settled, whatever the fill.
    pub liq_price_ticks: i64,
}

} // verus!
