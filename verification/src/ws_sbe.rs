//! Binary market frames. A frame starts with a byte that tells its kind and a
//! sixteen-byte symbol field; numbers follow in little-endian order. A price
//! or a quantity is carried as the bit pattern of a double, which is taken and
//! handed out as a `u64`.
use crate::persist_event;
use crate::persist_event::{pack_str, unpack_str, Packed};
use vstd::bytes::*;
use vstd::prelude::*;

verus! {

pub const DEPTH_MSG: u8 = 1;

pub const TRADE_MSG: u8 = 2;

pub const TICKER_MSG: u8 = 3;

pub const KLINE_MSG: u8 = 4;

pub const AGG_TRADE_MSG: u8 = 5;

/// The kind byte and the symbol field.
pub const HEADER_LEN: usize = 17;

/// The header of a depth frame: the common header, a timestamp and the number
/// of levels on either side.
pub const DEPTH_HEADER_LEN: usize = 29;

/// The most levels that one side of a depth frame can hold.
pub const MAX_LEVELS: usize = 65535;

pub const WS_STATUS_OPEN: u8 = 0;

pub const WS_STATUS_PARTIAL_FILL: u8 = 1;

pub const WS_STATUS_FILLED: u8 = 2;

pub const WS_STATUS_CANCELED: u8 = 3;

pub const WS_STATUS_REJECTED: u8 = 4;

/// The bytes of a number.
pub open spec fn word(x: u64) -> Seq<u8> {
    spec_u64_to_le_bytes(x)
}

/// The common header.
pub open spec fn header(kind: u8, symbol: Seq<char>) -> Seq<u8> {
    seq![kind] + persist_event::packed(symbol)
}

/// The levels of one side, price before quantity.
pub open spec fn level_bytes(levels: Seq<(u64, u64)>) -> Seq<u8>
    decreases levels.len(),
{
    if levels.len() == 0 {
        seq![]
    } else {
        level_bytes(levels.drop_last()) + word(levels.last().0) + word(levels.last().1)
    }
}

pub open spec fn ticker_frame(
    symbol: Seq<char>,
    last: u64,
    change: u64,
    high: u64,
    low: u64,
    volume: u64,
) -> Seq<u8> {
    header(TICKER_MSG, symbol) + word(last) + word(change) + word(high) + word(low) + word(volume)
}

pub open spec fn trade_frame(
    price: u64,
    qty: u64,
    side: u8,
    timestamp: u64,
    symbol: Seq<char>,
) -> Seq<u8> {
    header(TRADE_MSG, symbol) + word(timestamp) + word(price) + word(qty) + seq![side]
}

/// A depth frame before its levels.
pub open spec fn depth_head(timestamp: u64, symbol: Seq<char>, bids: int, asks: int) -> Seq<u8> {
    header(DEPTH_MSG, symbol) + word(timestamp) + spec_u16_to_le_bytes(bids as u16)
        + spec_u16_to_le_bytes(asks as u16)
}

pub open spec fn depth_frame(
    timestamp: u64,
    symbol: Seq<char>,
    bids: Seq<(u64, u64)>,
    asks: Seq<(u64, u64)>,
) -> Seq<u8> {
    depth_head(timestamp, symbol, bids.len() as int, asks.len() as int) + level_bytes(bids)
        + level_bytes(asks)
}

fn push_all(out: &mut Vec<u8>, bytes: &[u8])
    ensures
        final(out)@ == old(out)@ + bytes@,
{
    out.extend_from_slice(bytes);
}

fn push_word(out: &mut Vec<u8>, x: u64)
    ensures
        final(out)@ == old(out)@ + word(x),
{
    let bytes = u64_to_le_bytes(x);
    push_all(out, bytes.as_slice());
}

fn push_count(out: &mut Vec<u8>, n: usize)
    requires
        n <= MAX_LEVELS,
    ensures
        final(out)@ == old(out)@ + spec_u16_to_le_bytes(n as u16),
{
    let bytes = u16_to_le_bytes(n as u16);
    push_all(out, bytes.as_slice());
}

fn start_frame(kind: u8, symbol: &str) -> (r: Vec<u8>)
    ensures
        r@ == header(kind, symbol@),
{
    let mut out: Vec<u8> = Vec::new();
    out.push(kind);
    let field = pack_str(symbol);
    push_all(&mut out, vstd::array::array_as_slice(&field));
    proof {
        assert(out@ =~= header(kind, symbol@));
    }
    out
}

fn push_levels(out: &mut Vec<u8>, levels: &Vec<(u64, u64)>)
    ensures
        final(out)@ == old(out)@ + level_bytes(levels@),
{
    let mut i: usize = 0;
    proof {
        assert(levels@.take(0) =~= Seq::<(u64, u64)>::empty());
        assert(out@ =~= old(out)@ + level_bytes(levels@.take(0)));
    }
    while i < levels.len()
        invariant
            i <= levels@.len(),
            out@ == old(out)@ + level_bytes(levels@.take(i as int)),
        decreases levels@.len() - i,
    {
        push_word(out, levels[i].0);
        push_word(out, levels[i].1);
        proof {
            let seen = levels@.take(i + 1);
            assert(seen.drop_last() =~= levels@.take(i as int));
            assert(out@ =~= old(out)@ + level_bytes(seen));
        }
        i = i + 1;
    }
    proof {
        assert(levels@.take(levels@.len() as int) =~= levels@);
    }
}

/// The frame of a ticker.
pub fn encode_ticker(symbol: &str, last: u64, change: u64, high: u64, low: u64, volume: u64) -> (r:
    Vec<u8>)
    ensures
        r@ == ticker_frame(symbol@, last, change, high, low, volume),
{
    let mut out = start_frame(TICKER_MSG, symbol);
    push_word(&mut out, last);
    push_word(&mut out, change);
    push_word(&mut out, high);
    push_word(&mut out, low);
    push_word(&mut out, volume);
    out
}

/// The frame of a trade.
pub fn encode_trade(price: u64, qty: u64, side: u8, timestamp: u64, symbol: &str) -> (r: Vec<u8>)
    ensures
        r@ == trade_frame(price, qty, side, timestamp, symbol@),
{
    let mut out = start_frame(TRADE_MSG, symbol);
    push_word(&mut out, timestamp);
    push_word(&mut out, price);
    push_word(&mut out, qty);
    out.push(side);
    proof {
        assert(out@ =~= trade_frame(price, qty, side, timestamp, symbol@));
    }
    out
}

/// The frame of an order book. A side holds at most `MAX_LEVELS` levels.
pub fn encode_depth(
    timestamp: u64,
    symbol: &str,
    bids: &Vec<(u64, u64)>,
    asks: &Vec<(u64, u64)>,
) -> (r: Vec<u8>)
    requires
        bids@.len() <= MAX_LEVELS,
        asks@.len() <= MAX_LEVELS,
    ensures
        r@ == depth_frame(timestamp, symbol@, bids@, asks@),
{
    let mut out = start_frame(DEPTH_MSG, symbol);
    push_word(&mut out, timestamp);
    push_count(&mut out, bids.len());
    push_count(&mut out, asks.len());
    push_levels(&mut out, bids);
    push_levels(&mut out, asks);
    out
}

/// The symbol of a frame: nothing where the frame is shorter than its header
/// or the field holds no text.
pub open spec fn frame_symbol(frame: Seq<u8>) -> Option<Seq<char>> {
    if frame.len() < HEADER_LEN {
        None
    } else {
        let symbol = persist_event::unpacked(frame.subrange(1, HEADER_LEN as int));
        if symbol.len() == 0 {
            None
        } else {
            Some(symbol)
        }
    }
}

/// Reads the symbol of a frame.
pub fn decode_broadcast_symbol(frame: &[u8]) -> (r: Option<String>)
    ensures
        match r {
            Some(symbol) => frame_symbol(frame@) == Some(symbol@),
            None => frame_symbol(frame@) is None,
        },
{
    if frame.len() < HEADER_LEN {
        return None;
    }
    let mut field: Packed = [0u8; 16];
    let mut i: usize = 0;
    while i < 16
        invariant
            i <= 16,
            frame@.len() >= HEADER_LEN,
            forall|j: int| 0 <= j < i ==> #[trigger] field@[j] == frame@[j + 1],
        decreases 16 - i,
    {
        field[i] = frame[i + 1];
        i = i + 1;
    }
    proof {
        assert(field@ =~= frame@.subrange(1, HEADER_LEN as int));
    }
    let symbol = unpack_str(&field);
    if symbol.as_str().is_empty() {
        None
    } else {
        Some(symbol)
    }
}

pub open spec fn count_at(frame: Seq<u8>, at: int) -> int {
    spec_u16_from_le_bytes(frame.subrange(at, at + 2)) as int
}

/// Where the first price of a side stands in a depth frame.
pub open spec fn best_offset(frame: Seq<u8>, want_ask: bool) -> int {
    if want_ask {
        DEPTH_HEADER_LEN + 16 * count_at(frame, 25)
    } else {
        DEPTH_HEADER_LEN as int
    }
}

/// The first price of a side: nothing where the frame is no depth frame, the
/// side is empty, or the frame ends before the price does.
pub open spec fn frame_best_price(frame: Seq<u8>, want_ask: bool) -> Option<u64> {
    if frame.len() < DEPTH_HEADER_LEN || frame[0] != DEPTH_MSG {
        None
    } else if count_at(
        frame,
        if want_ask {
            27
        } else {
            25
        },
    ) == 0 || frame.len() < best_offset(frame, want_ask) + 8 {
        None
    } else {
        let at = best_offset(frame, want_ask);
        Some(spec_u64_from_le_bytes(frame.subrange(at, at + 8)))
    }
}

fn read_count(frame: &[u8], at: usize) -> (r: usize)
    requires
        at < DEPTH_HEADER_LEN,
        at + 2 <= frame@.len(),
    ensures
        r == count_at(frame@, at as int),
        r <= MAX_LEVELS,
{
    let part = vstd::slice::slice_subrange(frame, at, at + 2);
    u16_from_le_bytes(part) as usize
}

/// Reads the best price of one side out of a depth frame.
pub fn decode_best_price(frame: &[u8], want_ask: bool) -> (r: Option<u64>)
    ensures
        r == frame_best_price(frame@, want_ask),
{
    if frame.len() < DEPTH_HEADER_LEN || frame[0] != DEPTH_MSG {
        return None;
    }
    let bids: usize = read_count(frame, 25);
    let asks: usize = read_count(frame, 27);
    let at: usize = if want_ask {
        DEPTH_HEADER_LEN + 16 * bids
    } else {
        DEPTH_HEADER_LEN
    };
    let wanted: usize = if want_ask {
        asks
    } else {
        bids
    };
    if wanted == 0 || frame.len() < at + 8 {
        return None;
    }
    let part = vstd::slice::slice_subrange(frame, at, at + 8);
    Some(u64_from_le_bytes(part))
}

proof fn lemma_level_bytes_len(levels: Seq<(u64, u64)>)
    ensures
        level_bytes(levels).len() == 16 * levels.len(),
    decreases levels.len(),
{
    lemma_auto_spec_u64_to_from_le_bytes();
    if levels.len() > 0 {
        lemma_level_bytes_len(levels.drop_last());
    }
}

proof fn lemma_first_level(levels: Seq<(u64, u64)>)
    requires
        levels.len() > 0,
    ensures
        level_bytes(levels).len() == 16 * levels.len(),
        level_bytes(levels).take(8) == word(levels[0].0),
    decreases levels.len(),
{
    lemma_auto_spec_u64_to_from_le_bytes();
    lemma_level_bytes_len(levels);
    let rest = levels.drop_last();
    lemma_level_bytes_len(rest);
    if rest.len() == 0 {
        assert(level_bytes(levels).take(8) =~= word(levels[0].0));
    } else {
        lemma_first_level(rest);
        assert(level_bytes(levels).take(8) =~= level_bytes(rest).take(8));
    }
}

/// Every market frame carries its symbol: a valid symbol is read back from a
/// ticker, a trade and a depth frame as it went in.
pub proof fn law_symbol_reads_back(
    symbol: Seq<char>,
    ticker: (u64, u64, u64, u64, u64),
    trade: (u64, u64, u8, u64),
    timestamp: u64,
    bids: Seq<(u64, u64)>,
    asks: Seq<(u64, u64)>,
)
    requires
        crate::symbol_rules::symbol_fault(symbol) is Ok,
    ensures
        frame_symbol(ticker_frame(symbol, ticker.0, ticker.1, ticker.2, ticker.3, ticker.4))
            == Some(symbol),
        frame_symbol(trade_frame(trade.0, trade.1, trade.2, trade.3, symbol)) == Some(symbol),
        frame_symbol(depth_frame(timestamp, symbol, bids, asks)) == Some(symbol),
{
    persist_event::law_valid_symbols_are_not_cut(symbol);
    let field = persist_event::packed(symbol);
    let a = ticker_frame(symbol, ticker.0, ticker.1, ticker.2, ticker.3, ticker.4);
    let b = trade_frame(trade.0, trade.1, trade.2, trade.3, symbol);
    let c = depth_frame(timestamp, symbol, bids, asks);
    assert(a.subrange(1, HEADER_LEN as int) =~= field);
    assert(b.subrange(1, HEADER_LEN as int) =~= field);
    assert(c.subrange(1, HEADER_LEN as int) =~= field);
}

/// The best price of either side is read back from a depth frame, and nothing
/// is read from an empty side.
pub proof fn law_best_price_reads_back(
    timestamp: u64,
    symbol: Seq<char>,
    bids: Seq<(u64, u64)>,
    asks: Seq<(u64, u64)>,
)
    requires
        bids.len() <= MAX_LEVELS,
        asks.len() <= MAX_LEVELS,
    ensures
        frame_best_price(depth_frame(timestamp, symbol, bids, asks), false) == (if bids.len() > 0 {
            Some(bids[0].0)
        } else {
            None
        }),
        frame_best_price(depth_frame(timestamp, symbol, bids, asks), true) == (if asks.len() > 0 {
            Some(asks[0].0)
        } else {
            None
        }),
{
    lemma_auto_spec_u64_to_from_le_bytes();
    lemma_auto_spec_u16_to_from_le_bytes();
    let frame = depth_frame(timestamp, symbol, bids, asks);
    let head = depth_head(timestamp, symbol, bids.len() as int, asks.len() as int);
    assert(head.len() == DEPTH_HEADER_LEN);
    lemma_level_bytes_len(bids);
    lemma_level_bytes_len(asks);
    assert(frame.subrange(25, 27) =~= spec_u16_to_le_bytes(bids.len() as u16));
    assert(frame.subrange(27, 29) =~= spec_u16_to_le_bytes(asks.len() as u16));
    assert(frame[0] == DEPTH_MSG);
    if bids.len() > 0 {
        lemma_first_level(bids);
        let at = DEPTH_HEADER_LEN as int;
        assert(frame.subrange(at, at + 8) =~= level_bytes(bids).take(8));
    }
    if asks.len() > 0 {
        lemma_first_level(asks);
        let at = DEPTH_HEADER_LEN + 16 * bids.len();
        assert(frame.subrange(at, at + 8) =~= level_bytes(asks).take(8));
    }
}

} // verus!
