//! Which channel a market frame is for.
use crate::text;
use crate::ws_sbe;
use crate::ws_sbe::{
    decode_broadcast_symbol, AGG_TRADE_MSG, DEPTH_MSG, KLINE_MSG, TICKER_MSG, TRADE_MSG,
};
use vstd::prelude::*;

verus! {

/// The channel family of a kind of frame.
pub open spec fn family(kind: u8) -> Option<Seq<char>> {
    if kind == DEPTH_MSG {
        Some("depth"@)
    } else if kind == TRADE_MSG {
        Some("trades"@)
    } else if kind == TICKER_MSG {
        Some("ticker"@)
    } else if kind == KLINE_MSG {
        Some("kline"@)
    } else if kind == AGG_TRADE_MSG {
        Some("agg_trades"@)
    } else {
        None
    }
}

/// The name of the channel that a frame belongs to.
pub open spec fn channel_of(msg: Seq<u8>) -> Option<Seq<char>> {
    if msg.len() == 0 {
        None
    } else {
        match (family(msg[0]), ws_sbe::frame_symbol(msg)) {
            (Some(prefix), Some(symbol)) => Some(prefix + "."@ + symbol),
            _ => None,
        }
    }
}

/// The channel that a market frame is for, such as `depth.BTC_USDT`; `None`
/// for a frame of another kind and for one that carries no symbol.
pub fn market_channel(msg: &[u8]) -> (r: Option<String>)
    ensures
        match r {
            Some(channel) => channel_of(msg@) == Some(channel@),
            None => channel_of(msg@) is None,
        },
{
    if msg.len() == 0 {
        return None;
    }
    let kind: u8 = msg[0];
    let prefix = if kind == DEPTH_MSG {
        "depth"
    } else if kind == TRADE_MSG {
        "trades"
    } else if kind == TICKER_MSG {
        "ticker"
    } else if kind == KLINE_MSG {
        "kline"
    } else if kind == AGG_TRADE_MSG {
        "agg_trades"
    } else {
        return None;
    };
    let symbol = match decode_broadcast_symbol(msg) {
        Some(symbol) => symbol,
        None => return None,
    };
    let mut channel = text::owned(prefix);
    channel.append(".");
    channel.append(symbol.as_str());
    Some(channel)
}

/// The frames of a valid symbol go to the channels named after it.
pub proof fn law_frames_reach_their_channel(
    symbol: Seq<char>,
    ticker: (u64, u64, u64, u64, u64),
    trade: (u64, u64, u8, u64),
    timestamp: u64,
    bids: Seq<(u64, u64)>,
    asks: Seq<(u64, u64)>,
)
    requires
        crate::symbol_rules::symbol_fault(symbol) is Ok,
    ensures
        channel_of(
            ws_sbe::ticker_frame(symbol, ticker.0, ticker.1, ticker.2, ticker.3, ticker.4),
        ) == Some("ticker"@ + "."@ + symbol),
        channel_of(ws_sbe::trade_frame(trade.0, trade.1, trade.2, trade.3, symbol)) == Some(
            "trades"@ + "."@ + symbol,
        ),
        channel_of(ws_sbe::depth_frame(timestamp, symbol, bids, asks)) == Some(
            "depth"@ + "."@ + symbol,
        ),
{
    ws_sbe::law_symbol_reads_back(symbol, ticker, trade, timestamp, bids, asks);
}

} // verus!
