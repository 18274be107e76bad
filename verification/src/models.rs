//! The stored order record.
use crate::text;
use vstd::prelude::*;

verus! {

/// An order as it is stored and handed to readers.
#[derive(Debug)]
pub struct DbOrder {
    pub id: i64,
    pub user_id: i64,
    pub symbol: String,
    pub side: String,
    pub order_type: String,
    /// Absent for a market order.
    pub price_atoms: Option<i64>,
    pub quantity_atoms: i64,
    pub filled_atoms: i64,
    pub status: String,
    pub freeze_price_atoms: i64,
    pub client_order_id: Option<String>,
    pub created_at_ms: i64,
    pub updated_at_ms: i64,
}

#[verifier::ext_equal]
pub struct OrderView {
    pub id: i64,
    pub user_id: i64,
    pub symbol: Seq<char>,
    pub side: Seq<char>,
    pub order_type: Seq<char>,
    pub price_atoms: Option<i64>,
    pub quantity_atoms: i64,
    pub filled_atoms: i64,
    pub status: Seq<char>,
    pub freeze_price_atoms: i64,
    pub client_order_id: Option<Seq<char>>,
    pub created_at_ms: i64,
    pub updated_at_ms: i64,
}

impl DbOrder {
    pub open spec fn view(&self) -> OrderView {
        OrderView {
            id: self.id,
            user_id: self.user_id,
            symbol: self.symbol@,
            side: self.side@,
            order_type: self.order_type@,
            price_atoms: self.price_atoms,
            quantity_atoms: self.quantity_atoms,
            filled_atoms: self.filled_atoms,
            status: self.status@,
            freeze_price_atoms: self.freeze_price_atoms,
            client_order_id: text::opt_string(self.client_order_id),
            created_at_ms: self.created_at_ms,
            updated_at_ms: self.updated_at_ms,
        }
    }
}

} // verus!
