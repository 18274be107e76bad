//! Ownership of users and symbols by counter shards and desks.
use crate::text;
use vstd::prelude::*;

verus! {

/// Number of counter shards. User ids are dense, so routing by remainder
/// finds the owner without any directory.
pub const COUNTER_SHARD_COUNT: u16 = 4;

pub open spec fn owner_shard(user_id: int) -> int {
    if user_id <= 0 {
        0
    } else {
        user_id % COUNTER_SHARD_COUNT as int
    }
}

/// Whether a desk, taken modulo the number of shards, is the user's owner.
pub open spec fn desk_owns(desk_id: int, user_id: int) -> bool {
    owner_shard(user_id) == desk_id % COUNTER_SHARD_COUNT as int
}

/// How many bytes of `s` are odd.
pub open spec fn odd_bytes(s: Seq<u8>) -> nat
    decreases s.len(),
{
    if s.len() == 0 {
        0
    } else {
        odd_bytes(s.drop_last()) + (s.last() % 2) as nat
    }
}

/// The part of a symbol before its first underscore.
pub open spec fn base_of(symbol: Seq<char>) -> Seq<char> {
    symbol.take(text::index_of_char(symbol, '_'))
}

/// Desk 0 owns BTC, desk 1 owns ETH, desks 2 and 3 split the rest.
pub open spec fn symbol_desk(symbol: Seq<char>) -> int {
    let base = base_of(symbol);
    if base == "BTC"@ {
        0
    } else if base == "ETH"@ {
        1
    } else {
        2 + (odd_bytes(vstd::utf8::encode_utf8(base)) % 2) as int
    }
}

pub fn owner_shard_for_user_id(user_id: i64) -> (r: u16)
    ensures
        r == owner_shard(user_id as int),
        r < COUNTER_SHARD_COUNT,
{
    if user_id <= 0 {
        return 0;
    }
    (user_id as u64 % COUNTER_SHARD_COUNT as u64) as u16
}

pub fn is_user_owned_by(user_id: i64, counter_shard_id: u16) -> (r: bool)
    ensures
        r == (owner_shard(user_id as int) == counter_shard_id),
{
    owner_shard_for_user_id(user_id) == counter_shard_id
}

pub fn counter_shard_for_desk_id(desk_id: u16) -> (r: u16)
    ensures
        r == desk_id % COUNTER_SHARD_COUNT,
        r < COUNTER_SHARD_COUNT,
{
    desk_id % COUNTER_SHARD_COUNT
}

pub fn is_user_owned_by_desk(user_id: i64, desk_id: u16) -> (r: bool)
    ensures
        r == desk_owns(desk_id as int, user_id as int),
{
    is_user_owned_by(user_id, counter_shard_for_desk_id(desk_id))
}

pub fn symbol_route_desk_id(symbol: &str) -> (r: u16)
    ensures
        r == symbol_desk(symbol@),
        r < COUNTER_SHARD_COUNT,
{
    let chars = text::to_chars(symbol);
    let cut = text::find_char(chars.as_slice(), '_');
    let base = text::from_chars(vstd::slice::slice_subrange(chars.as_slice(), 0, cut));
    proof {
        assert(base@ =~= base_of(symbol@));
    }
    if text::str_eq(base.as_str(), "BTC") {
        0
    } else if text::str_eq(base.as_str(), "ETH") {
        1
    } else {
        2 + stable_symbol_bit(base.as_str()) as u16
    }
}

/// The parity bit that splits the symbols without a desk of their own.
pub fn stable_symbol_bit(symbol: &str) -> (r: u8)
    ensures
        r == odd_bytes(vstd::utf8::encode_utf8(symbol@)) % 2,
{
    let bytes = symbol.as_bytes();
    let mut hash: u8 = 0;
    let mut i: usize = 0;
    proof {
        assert(0u8 & 1 == 0) by (bit_vector);
    }
    while i < bytes.len()
        invariant
            0 <= i <= bytes@.len(),
            hash & 1 == odd_bytes(bytes@.take(i as int)) % 2,
        decreases bytes@.len() - i,
    {
        let b = bytes[i];
        proof {
            assert(bytes@.take(i + 1).drop_last() =~= bytes@.take(i as int));
            assert((hash ^ b) & 1 == ((hash & 1) + b % 2) % 2) by (bit_vector);
        }
        hash = hash ^ b;
        i = i + 1;
    }
    proof {
        assert(bytes@.take(i as int) =~= bytes@);
    }
    hash & 1
}

/// Among as many desks as there are shards, exactly one owns a user: the one
/// numbered like the user's shard. A desk beyond those owns the users of the
/// desk that it wraps round to.
pub proof fn law_single_owner(user_id: i64, desk_id: u16)
    ensures
        0 <= owner_shard(user_id as int) < COUNTER_SHARD_COUNT,
        desk_id < COUNTER_SHARD_COUNT ==> (desk_owns(desk_id as int, user_id as int) <==> desk_id
            == owner_shard(user_id as int)),
        desk_owns(desk_id as int, user_id as int) == desk_owns(
            desk_id as int % COUNTER_SHARD_COUNT as int,
            user_id as int,
        ),
{
}

/// Users are dealt out evenly: users in sequence go to different shards, and
/// every fourth to the same one.
pub proof fn law_users_are_dealt_out_evenly(user_id: int, step: int)
    requires
        user_id > 0,
        0 < step < 4,
    ensures
        owner_shard(user_id + 4) == owner_shard(user_id),
        owner_shard(user_id + step) != owner_shard(user_id),
        owner_shard(user_id) == user_id % 4,
{
}

/// A symbol goes to a desk by its base asset alone; only the two largest have
/// a desk of their own.
pub proof fn law_symbols_go_by_their_base(symbol: Seq<char>, other: Seq<char>)
    requires
        base_of(symbol) == base_of(other),
    ensures
        symbol_desk(symbol) == symbol_desk(other),
        base_of(symbol) != "BTC"@ && base_of(symbol) != "ETH"@ ==> 2 <= symbol_desk(symbol) <= 3,
        base_of(symbol) == "BTC"@ || base_of(symbol) == "ETH"@ ==> 0 <= symbol_desk(symbol) <= 1,
{
}

/// Odd bytes are counted one by one, wherever they stand.
pub proof fn law_odd_bytes_add_up(a: Seq<u8>, b: Seq<u8>)
    ensures
        odd_bytes(a + b) == odd_bytes(a) + odd_bytes(b),
        b.len() == 1 ==> odd_bytes(b) == b[0] % 2,
    decreases b.len(),
{
    reveal_with_fuel(odd_bytes, 2);
    if b.len() == 0 {
        assert(a + b =~= a);
    } else {
        law_odd_bytes_add_up(a, b.drop_last());
        assert((a + b).drop_last() =~= a + b.drop_last());
    }
}

} // verus!
