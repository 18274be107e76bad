//! From the margin engine to the persist stream. Frames carry absolute state,
//! so that applying one twice changes nothing.
use crate::maps::Symbol;
use crate::money;
use crate::persist_event::{
    InsuranceFundSetPayload, PersistBody, PersistFrame, PositionDeletePayload,
    PositionUpsertPayload, RiskAccountSetPayload,
};
use crate::risk::engine::RiskEngine;
use vstd::prelude::*;

verus! {

/// A cent is this many atoms.
pub const CENTS_TO_ATOMS: i64 = 1_000_000;

pub open spec fn in_atoms(cents: i64) -> i64 {
    money::saturate_i64(cents * CENTS_TO_ATOMS)
}

/// Cents in atoms; what does not fit is pinned to the end of the range rather
/// than wrapped into a plausible number.
pub fn cents_to_atoms(cents: i64) -> (r: i64)
    ensures
        r == in_atoms(cents),
{
    let v = cents as i128 * 1_000_000;
    if v > i64::MAX as i128 {
        i64::MAX
    } else if v < i64::MIN as i128 {
        i64::MIN
    } else {
        v as i64
    }
}

/// The frame for a position: its state, or its removal where there is none.
pub open spec fn position_frame(
    v: crate::risk::engine::RiskView,
    user_id: i64,
    symbol: Symbol,
) -> PersistBody {
    match crate::risk::engine::entry(v.positions, (user_id, symbol)) {
        Some(pos) => PersistBody::PositionUpsert(
            PositionUpsertPayload {
                user_id,
                symbol,
                side: pos.side.code(),
                leverage: pos.leverage,
                qty_lots: pos.qty_lots,
                entry_price_ticks: pos.entry_price_ticks,
                used_margin_atoms: in_atoms(pos.initial_margin),
            },
        ),
        None => PersistBody::PositionDelete(PositionDeletePayload { user_id, symbol }),
    }
}

pub open spec fn fund_frame(v: crate::risk::engine::RiskView) -> PersistBody {
    PersistBody::InsuranceFundSet(InsuranceFundSetPayload { balance_atoms: in_atoms(v.fund) })
}

pub open spec fn account_frame(v: crate::risk::engine::RiskView, user_id: i64) -> PersistBody {
    let acct = v.accounts[user_id];
    PersistBody::RiskAccountSet(
        RiskAccountSetPayload {
            user_id,
            equity_atoms: in_atoms(acct.equity),
            used_margin_atoms: in_atoms(acct.used_margin),
            order_margin_atoms: in_atoms(acct.order_margin),
            status: acct.status.code(),
        },
    )
}

/// The bodies of the frames for a user and a symbol: position, account where
/// there is one, fund.
pub open spec fn margin_bodies(
    v: crate::risk::engine::RiskView,
    user_id: i64,
    symbol: Symbol,
) -> Seq<PersistBody> {
    if v.accounts.contains_key(user_id) {
        seq![position_frame(v, user_id, symbol), account_frame(v, user_id), fund_frame(v)]
    } else {
        seq![position_frame(v, user_id, symbol), fund_frame(v)]
    }
}

/// The margin state that an event on a user and a symbol touched, as frames in
/// the order in which they may be applied.
pub fn margin_state_frames(engine: &RiskEngine, user_id: i64, symbol: &Symbol) -> (r: Vec<
    PersistFrame,
>)
    ensures
        r@.len() == margin_bodies(engine.view(), user_id, *symbol).len(),
        forall|i: int|
            0 <= i < r@.len() ==> (#[trigger] r@[i]).body == margin_bodies(
                engine.view(),
                user_id,
                *symbol,
            )[i] && r@[i].seq == 0 && r@[i].publisher_id == 0,
{
    let mut frames: Vec<PersistFrame> = Vec::new();
    match engine.position(user_id, symbol) {
        Some(pos) => {
            frames.push(
                PersistFrame::of(
                    PersistBody::PositionUpsert(
                        PositionUpsertPayload {
                            user_id,
                            symbol: *symbol,
                            side: pos.side.to_u8(),
                            leverage: pos.leverage,
                            qty_lots: pos.qty_lots,
                            entry_price_ticks: pos.entry_price_ticks,
                            used_margin_atoms: cents_to_atoms(pos.initial_margin),
                        },
                    ),
                ),
            );
        },
        None => {
            frames.push(
                PersistFrame::of(
                    PersistBody::PositionDelete(PositionDeletePayload { user_id, symbol: *symbol }),
                ),
            );
        },
    }
    if let Some(acct) = engine.account(user_id) {
        frames.push(
            PersistFrame::of(
                PersistBody::RiskAccountSet(
                    RiskAccountSetPayload {
                        user_id,
                        equity_atoms: cents_to_atoms(acct.equity),
                        used_margin_atoms: cents_to_atoms(acct.used_margin),
                        order_margin_atoms: cents_to_atoms(acct.order_margin),
                        status: acct.status.to_u8(),
                    },
                ),
            ),
        );
    }
    frames.push(
        PersistFrame::of(
            PersistBody::InsuranceFundSet(
                InsuranceFundSetPayload { balance_atoms: cents_to_atoms(engine.insurance_fund()) },
            ),
        ),
    );
    frames
}

/// The conversion never turns a gain into a loss or the reverse, and is exact
/// wherever the atoms fit.
pub proof fn law_conversion_never_wraps(cents: i64)
    ensures
        cents > 0 ==> in_atoms(cents) > 0,
        cents < 0 ==> in_atoms(cents) < 0,
        money::fits_i64(cents * CENTS_TO_ATOMS) ==> in_atoms(cents) == cents * CENTS_TO_ATOMS,
{
}

/// The frames of a user's margin state tell the position in its symbol as it is
/// held, or that there is none; the account where the user has one; and the
/// insurance fund last.
pub proof fn law_frames_tell_the_margin_state(
    v: crate::risk::engine::RiskView,
    user_id: i64,
    symbol: Symbol,
)
    ensures
        ({
            let bodies = margin_bodies(v, user_id, symbol);
            let held = v.positions.contains_key((user_id, symbol));
            let pos = v.positions[(user_id, symbol)];
            let acct = v.accounts[user_id];
            &&& !held ==> bodies[0] == PersistBody::PositionDelete(
                PositionDeletePayload { user_id, symbol },
            )
            &&& held ==> (bodies[0] matches PersistBody::PositionUpsert(p) && p.user_id == user_id
                && p.symbol == symbol && p.qty_lots == pos.qty_lots && p.entry_price_ticks
                == pos.entry_price_ticks && p.leverage == pos.leverage && (p.side == 0 <==> pos.side
                == crate::risk::types::PositionSide::Long) && (money::fits_i64(
                pos.initial_margin * 1_000_000,
            ) ==> p.used_margin_atoms == pos.initial_margin * 1_000_000))
            &&& bodies.len() == (if v.accounts.contains_key(user_id) {
                3int
            } else {
                2
            })
            &&& v.accounts.contains_key(user_id) ==> (bodies[1] matches PersistBody::RiskAccountSet(a)
                && a.user_id == user_id && (money::fits_i64(acct.equity * 1_000_000)
                ==> a.equity_atoms == acct.equity * 1_000_000) && (money::fits_i64(
                acct.used_margin * 1_000_000,
            ) ==> a.used_margin_atoms == acct.used_margin * 1_000_000) && (money::fits_i64(
                acct.order_margin * 1_000_000,
            ) ==> a.order_margin_atoms == acct.order_margin * 1_000_000))
            &&& bodies.last() matches PersistBody::InsuranceFundSet(f) && (money::fits_i64(
                v.fund * 1_000_000,
            ) ==> f.balance_atoms == v.fund * 1_000_000)
        }),
{
    if v.positions.contains_key((user_id, symbol)) {
        law_conversion_never_wraps(v.positions[(user_id, symbol)].initial_margin);
    }
    law_conversion_never_wraps(v.fund);
    law_conversion_never_wraps(v.accounts[user_id].equity);
    law_conversion_never_wraps(v.accounts[user_id].used_margin);
    law_conversion_never_wraps(v.accounts[user_id].order_margin);
}

} // verus!
