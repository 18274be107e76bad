//! The cache's data model: keys, order and account hashes, and the commands by
//! which a frame, a cold load or a clean-up changes them.
//!
//! - hash `order:{id}`: an active order
//! - set `active_orders`: the ids of all active orders
//! - set `user_orders:{user}`: the ids of a user's active orders
//! - hash `acct:{user}:{asset}`: balance and frozen, as text and in atoms
//! - set `user_assets:{user}`: the assets a user holds
//! - hash `user_coid:{user}`: client order id to order id
use crate::decimal;
use crate::models;
use crate::models::DbOrder;
use crate::money;
use crate::money::AmountAtoms;
use crate::persist_event;
use crate::persist_event::{
    is_date_ms, unpack_str, AccountSetPayload, OrderFillUpdatePayload, OrderUpsertPayload,
    PersistBody, PersistFrame,
};
use crate::pg_store;
use crate::pg_store::{side_str, status_str};
use crate::rate_limit::BucketState;
use crate::text;
use std::collections::HashMap;
use vstd::prelude::*;

verus! {

pub const KEY_ACTIVE_ORDERS: &'static str = "active_orders";

/// Hash of publisher to the last sequence number applied.
pub const KEY_PERSIST_FLOORS: &'static str = "persist:floors";

/// Hash of `user:operation` to `tokens:last update`.
pub const KEY_RATE_BUCKETS: &'static str = "ratelimit:buckets";

/// A name and a number behind a colon.
pub open spec fn numbered(name: Seq<char>, n: int) -> Seq<char> {
    name + text::int_text(n)
}

fn make_numbered(name: &str, n: i64) -> (r: String)
    ensures
        r@ == numbered(name@, n as int),
{
    let mut out = text::owned(name);
    text::append_int(&mut out, n);
    out
}

fn make_number(n: i64) -> (r: String)
    ensures
        r@ == text::int_text(n as int),
{
    let mut out = String::new();
    text::append_int(&mut out, n);
    proof {
        assert(out@ =~= text::int_text(n as int));
    }
    out
}

pub fn key_order(id: i64) -> (r: String)
    ensures
        r@ == numbered("order:"@, id as int),
{
    make_numbered("order:", id)
}

pub fn key_user_orders(user_id: i64) -> (r: String)
    ensures
        r@ == numbered("user_orders:"@, user_id as int),
{
    make_numbered("user_orders:", user_id)
}

pub open spec fn account_key(user_id: i64, asset: Seq<char>) -> Seq<char> {
    numbered("acct:"@, user_id as int) + ":"@ + asset
}

pub fn key_account(user_id: i64, asset: &str) -> (r: String)
    ensures
        r@ == account_key(user_id, asset@),
{
    let mut out = make_numbered("acct:", user_id);
    out.append(":");
    out.append(asset);
    out
}

pub fn key_user_assets(user_id: i64) -> (r: String)
    ensures
        r@ == numbered("user_assets:"@, user_id as int),
{
    make_numbered("user_assets:", user_id)
}

pub fn key_user_coid(user_id: i64) -> (r: String)
    ensures
        r@ == numbered("user_coid:"@, user_id as int),
{
    make_numbered("user_coid:", user_id)
}

/// A change of the cache.
#[derive(Debug)]
pub enum RedisCommand {
    /// Sets fields of a hash.
    SetFields { key: String, fields: Vec<(String, String)> },
    /// Removes a field of a hash.
    RemoveField { key: String, field: String },
    /// Adds a member to a set.
    AddMember { key: String, member: String },
    /// Removes a member from a set.
    RemoveMember { key: String, member: String },
    /// Removes a key.
    Delete { key: String },
}

#[verifier::ext_equal]
pub enum CommandView {
    SetFields { key: Seq<char>, fields: Seq<(Seq<char>, Seq<char>)> },
    RemoveField { key: Seq<char>, field: Seq<char> },
    AddMember { key: Seq<char>, member: Seq<char> },
    RemoveMember { key: Seq<char>, member: Seq<char> },
    Delete { key: Seq<char> },
}

pub open spec fn pair_views(s: Seq<(String, String)>) -> Seq<(Seq<char>, Seq<char>)> {
    s.map_values(|p: (String, String)| (p.0@, p.1@))
}

impl RedisCommand {
    pub open spec fn view(&self) -> CommandView {
        match *self {
            RedisCommand::SetFields { key, fields } => CommandView::SetFields {
                key: key@,
                fields: pair_views(fields@),
            },
            RedisCommand::RemoveField { key, field } => CommandView::RemoveField {
                key: key@,
                field: field@,
            },
            RedisCommand::AddMember { key, member } => CommandView::AddMember {
                key: key@,
                member: member@,
            },
            RedisCommand::RemoveMember { key, member } => CommandView::RemoveMember {
                key: key@,
                member: member@,
            },
            RedisCommand::Delete { key } => CommandView::Delete { key: key@ },
        }
    }
}

pub open spec fn command_views(s: Seq<RedisCommand>) -> Seq<CommandView> {
    s.map_values(|c: RedisCommand| c.view())
}

/// What the cache holds.
#[verifier::ext_equal]
pub struct StoreView {
    pub hashes: Map<Seq<char>, Map<Seq<char>, Seq<char>>>,
    pub sets: Map<Seq<char>, Set<Seq<char>>>,
}

/// The hash that a list of fields and values makes, later ones winning.
pub open spec fn pair_map(s: Seq<(Seq<char>, Seq<char>)>) -> Map<Seq<char>, Seq<char>>
    decreases s.len(),
{
    if s.len() == 0 {
        Map::empty()
    } else {
        pair_map(s.drop_last()).insert(s.last().0, s.last().1)
    }
}

impl StoreView {
    pub open spec fn hash_at(self, key: Seq<char>) -> Map<Seq<char>, Seq<char>> {
        if self.hashes.contains_key(key) {
            self.hashes[key]
        } else {
            Map::empty()
        }
    }

    pub open spec fn set_at(self, key: Seq<char>) -> Set<Seq<char>> {
        if self.sets.contains_key(key) {
            self.sets[key]
        } else {
            Set::empty()
        }
    }

    /// The cache after a command.
    pub open spec fn after(self, c: CommandView) -> StoreView {
        match c {
            CommandView::SetFields { key, fields } => StoreView {
                hashes: self.hashes.insert(
                    key,
                    self.hash_at(key).union_prefer_right(pair_map(fields)),
                ),
                ..self
            },
            CommandView::RemoveField { key, field } => StoreView {
                hashes: self.hashes.insert(key, self.hash_at(key).remove(field)),
                ..self
            },
            CommandView::AddMember { key, member } => StoreView {
                sets: self.sets.insert(key, self.set_at(key).insert(member)),
                ..self
            },
            CommandView::RemoveMember { key, member } => StoreView {
                sets: self.sets.insert(key, self.set_at(key).remove(member)),
                ..self
            },
            CommandView::Delete { key } => StoreView {
                hashes: self.hashes.insert(key, Map::empty()),
                sets: self.sets.insert(key, Set::empty()),
            },
        }
    }

    /// The cache after commands, in order.
    pub open spec fn after_all(self, cs: Seq<CommandView>) -> StoreView
        decreases cs.len(),
    {
        if cs.len() == 0 {
            self
        } else {
            self.after_all(cs.drop_last()).after(cs.last())
        }
    }
}

/// The fields of an order hash.
#[derive(Debug)]
pub struct OrderHash {
    pub user_id: i64,
    pub symbol: String,
    pub side: String,
    pub order_type: String,
    pub price: String,
    pub qty: String,
    pub filled: String,
    pub status: String,
    pub freeze_price: String,
    pub client_order_id: String,
    pub created_at_ms: i64,
    pub updated_at_ms: i64,
}

#[verifier::ext_equal]
pub struct HashView {
    pub user_id: i64,
    pub symbol: Seq<char>,
    pub side: Seq<char>,
    pub order_type: Seq<char>,
    pub price: Seq<char>,
    pub qty: Seq<char>,
    pub filled: Seq<char>,
    pub status: Seq<char>,
    pub freeze_price: Seq<char>,
    pub client_order_id: Seq<char>,
    pub created_at_ms: i64,
    pub updated_at_ms: i64,
}

impl HashView {
    /// The hash as fields and values.
    pub open spec fn fields(self) -> Seq<(Seq<char>, Seq<char>)> {
        seq![
            ("user_id"@, text::int_text(self.user_id as int)),
            ("symbol"@, self.symbol),
            ("side"@, self.side),
            ("order_type"@, self.order_type),
            ("price"@, self.price),
            ("qty"@, self.qty),
            ("filled"@, self.filled),
            ("status"@, self.status),
            ("freeze_price"@, self.freeze_price),
            ("client_order_id"@, self.client_order_id),
            ("created_at_ms"@, text::int_text(self.created_at_ms as int)),
            ("updated_at_ms"@, text::int_text(self.updated_at_ms as int)),
        ]
    }

    /// The commands that store the order and its index entries.
    pub open spec fn commands(self, id: i64) -> Seq<CommandView> {
        let base = seq![
            CommandView::SetFields { key: numbered("order:"@, id as int), fields: self.fields() },
            CommandView::AddMember { key: KEY_ACTIVE_ORDERS@, member: text::int_text(id as int) },
            CommandView::AddMember {
                key: numbered("user_orders:"@, self.user_id as int),
                member: text::int_text(id as int),
            },
        ];
        if self.client_order_id.len() == 0 {
            base
        } else {
            base.push(
                CommandView::SetFields {
                    key: numbered("user_coid:"@, self.user_id as int),
                    fields: seq![(self.client_order_id, text::int_text(id as int))],
                },
            )
        }
    }
}

impl OrderHash {
    pub open spec fn view(&self) -> HashView {
        HashView {
            user_id: self.user_id,
            symbol: self.symbol@,
            side: self.side@,
            order_type: self.order_type@,
            price: self.price@,
            qty: self.qty@,
            filled: self.filled@,
            status: self.status@,
            freeze_price: self.freeze_price@,
            client_order_id: self.client_order_id@,
            created_at_ms: self.created_at_ms,
            updated_at_ms: self.updated_at_ms,
        }
    }

    fn fields(&self) -> (r: Vec<(String, String)>)
        ensures
            pair_views(r@) == self.view().fields(),
    {
        let mut out: Vec<(String, String)> = Vec::new();
        out.push((text::owned("user_id"), make_number(self.user_id)));
        out.push((text::owned("symbol"), text::owned(self.symbol.as_str())));
        out.push((text::owned("side"), text::owned(self.side.as_str())));
        out.push((text::owned("order_type"), text::owned(self.order_type.as_str())));
        out.push((text::owned("price"), text::owned(self.price.as_str())));
        out.push((text::owned("qty"), text::owned(self.qty.as_str())));
        out.push((text::owned("filled"), text::owned(self.filled.as_str())));
        out.push((text::owned("status"), text::owned(self.status.as_str())));
        out.push((text::owned("freeze_price"), text::owned(self.freeze_price.as_str())));
        out.push((text::owned("client_order_id"), text::owned(self.client_order_id.as_str())));
        out.push((text::owned("created_at_ms"), make_number(self.created_at_ms)));
        out.push((text::owned("updated_at_ms"), make_number(self.updated_at_ms)));
        proof {
            assert(pair_views(out@) =~= self.view().fields());
        }
        out
    }

    /// The commands that store the order and its index entries.
    pub fn commands(&self, id: i64) -> (r: Vec<RedisCommand>)
        ensures
            command_views(r@) == self.view().commands(id),
    {
        let mut out: Vec<RedisCommand> = Vec::new();
        out.push(RedisCommand::SetFields { key: key_order(id), fields: self.fields() });
        out.push(
            RedisCommand::AddMember { key: text::owned(KEY_ACTIVE_ORDERS), member: make_number(id) },
        );
        out.push(
            RedisCommand::AddMember { key: key_user_orders(self.user_id), member: make_number(id) },
        );
        if !self.client_order_id.as_str().is_empty() {
            let mut fields: Vec<(String, String)> = Vec::new();
            fields.push((text::owned(self.client_order_id.as_str()), make_number(id)));
            proof {
                assert(pair_views(fields@) =~= seq![
                    (self.client_order_id@, text::int_text(id as int)),
                ]);
            }
            out.push(RedisCommand::SetFields { key: key_user_coid(self.user_id), fields });
        }
        proof {
            assert(command_views(out@) =~= self.view().commands(id));
        }
        out
    }
}

/// The text of an amount; one that fixed point cannot express is stored as
/// `NaN`, which no reader takes for an amount.
pub open spec fn amount_field(v: Option<i64>) -> Seq<char> {
    match v {
        Some(a) => money::amount_text(a as int),
        None => "NaN"@,
    }
}

fn make_amount(v: Option<i64>) -> (r: String)
    ensures
        r@ == amount_field(v),
{
    match v {
        Some(a) => AmountAtoms::from_atoms(a).to_decimal_string(),
        None => text::owned("NaN"),
    }
}

/// The hash of an order frame; there is none where the status is not known.
pub open spec fn upsert_hash(p: OrderUpsertPayload) -> Option<HashView> {
    match pg_store::status_name(p.status) {
        None => None,
        Some(status) => Some(
            HashView {
                user_id: p.user_id,
                symbol: persist_event::unpacked(p.symbol@),
                side: pg_store::side_name(p.side),
                order_type: persist_event::unpacked(p.order_type@),
                price: amount_field(p.price_atoms),
                qty: amount_field(p.qty_atoms),
                filled: amount_field(p.filled_atoms),
                status,
                freeze_price: amount_field(p.freeze_price_atoms),
                client_order_id: persist_event::unpacked(p.client_order_id@),
                created_at_ms: p.created_at_ms,
                updated_at_ms: p.created_at_ms,
            },
        ),
    }
}

/// The commands of an order frame; none where the status is not known.
pub open spec fn upsert_commands(p: OrderUpsertPayload) -> Seq<CommandView> {
    match upsert_hash(p) {
        None => seq![],
        Some(h) => h.commands(p.id),
    }
}

pub fn apply_order_upsert(p: &OrderUpsertPayload) -> (r: Vec<RedisCommand>)
    ensures
        command_views(r@) == upsert_commands(*p),
{
    let status = match status_str(p.status) {
        Some(s) => s,
        None => {
            let out: Vec<RedisCommand> = Vec::new();
            proof {
                assert(command_views(out@) =~= seq![]);
            }
            return out;
        },
    };
    let hash = OrderHash {
        user_id: p.user_id,
        symbol: unpack_str(&p.symbol),
        side: text::owned(side_str(p.side)),
        order_type: unpack_str(&p.order_type),
        price: make_amount(p.price_atoms),
        qty: make_amount(p.qty_atoms),
        filled: make_amount(p.filled_atoms),
        status: text::owned(status),
        freeze_price: make_amount(p.freeze_price_atoms),
        client_order_id: unpack_str(&p.client_order_id),
        created_at_ms: p.created_at_ms,
        updated_at_ms: p.created_at_ms,
    };
    hash.commands(p.id)
}

/// The commands that remove an order and its index entries, by what its hash
/// said of its owner and client order id.
pub open spec fn delete_commands(
    id: i64,
    user_id: Option<Seq<char>>,
    client_order_id: Option<Seq<char>>,
) -> Seq<CommandView> {
    let member = text::int_text(id as int);
    let base = seq![
        CommandView::Delete { key: numbered("order:"@, id as int) },
        CommandView::RemoveMember { key: KEY_ACTIVE_ORDERS@, member },
    ];
    if user_id is None || text::i64_value(user_id->0) is None {
        base
    } else {
        let uid = text::i64_value(user_id->0)->0;
        let owned = base.push(
            CommandView::RemoveMember { key: numbered("user_orders:"@, uid as int), member },
        );
        if client_order_id is None || (client_order_id->0).len() == 0 {
            owned
        } else {
            owned.push(
                CommandView::RemoveField {
                    key: numbered("user_coid:"@, uid as int),
                    field: client_order_id->0,
                },
            )
        }
    }
}

pub fn apply_order_delete(id: i64, user_id: Option<&str>, client_order_id: Option<&str>) -> (r: Vec<
    RedisCommand,
>)
    ensures
        command_views(r@) == delete_commands(id, text::opt_str(user_id), text::opt_str(client_order_id)),
{
    let mut out: Vec<RedisCommand> = Vec::new();
    out.push(RedisCommand::Delete { key: key_order(id) });
    out.push(
        RedisCommand::RemoveMember { key: text::owned(KEY_ACTIVE_ORDERS), member: make_number(id) },
    );
    if let Some(s) = user_id {
        if let Some(uid) = text::parse_i64(s) {
            out.push(
                RedisCommand::RemoveMember { key: key_user_orders(uid), member: make_number(id) },
            );
            if let Some(c) = client_order_id {
                if !c.is_empty() {
                    out.push(
                        RedisCommand::RemoveField {
                            key: key_user_coid(uid),
                            field: text::owned(c),
                        },
                    );
                }
            }
        }
    }
    proof {
        assert(command_views(out@) =~= delete_commands(
            id,
            text::opt_str(user_id),
            text::opt_str(client_order_id),
        ));
    }
    out
}

/// The commands of a fill frame; none where the status is not known or the
/// order is not in the cache.
pub open spec fn fill_commands(p: OrderFillUpdatePayload, stored: bool, now_ms: i64) -> Seq<
    CommandView,
> {
    match pg_store::status_name(p.status) {
        Some(status) if stored => seq![
            CommandView::SetFields {
                key: numbered("order:"@, p.id as int),
                fields: seq![
                    ("filled"@, amount_field(p.filled_atoms)),
                    ("status"@, status),
                    ("updated_at_ms"@, text::int_text(now_ms as int)),
                ],
            },
        ],
        _ => seq![],
    }
}

pub fn apply_order_fill_update(p: &OrderFillUpdatePayload, stored: bool, now_ms: i64) -> (r: Vec<
    RedisCommand,
>)
    ensures
        command_views(r@) == fill_commands(*p, stored, now_ms),
{
    let mut out: Vec<RedisCommand> = Vec::new();
    if let Some(status) = status_str(p.status) {
        if stored {
            let mut fields: Vec<(String, String)> = Vec::new();
            fields.push((text::owned("filled"), make_amount(p.filled_atoms)));
            fields.push((text::owned("status"), text::owned(status)));
            fields.push((text::owned("updated_at_ms"), make_number(now_ms)));
            proof {
                assert(pair_views(fields@) =~= seq![
                    ("filled"@, amount_field(p.filled_atoms)),
                    ("status"@, status@),
                    ("updated_at_ms"@, text::int_text(now_ms as int)),
                ]);
            }
            out.push(RedisCommand::SetFields { key: key_order(p.id), fields });
        }
    }
    proof {
        assert(command_views(out@) =~= fill_commands(*p, stored, now_ms));
    }
    out
}

/// The commands that store an account; the texts are renderings of the atoms.
pub open spec fn account_commands(
    user_id: i64,
    asset: Seq<char>,
    balance_atoms: i64,
    frozen_atoms: i64,
) -> Seq<CommandView> {
    seq![
        CommandView::SetFields {
            key: account_key(user_id, asset),
            fields: seq![
                ("balance"@, money::amount_text(balance_atoms as int)),
                ("frozen"@, money::amount_text(frozen_atoms as int)),
                ("balance_atoms"@, text::int_text(balance_atoms as int)),
                ("frozen_atoms"@, text::int_text(frozen_atoms as int)),
            ],
        },
        CommandView::AddMember { key: numbered("user_assets:"@, user_id as int), member: asset },
    ]
}

fn push_account(
    out: &mut Vec<RedisCommand>,
    user_id: i64,
    asset: &str,
    balance_atoms: i64,
    frozen_atoms: i64,
)
    ensures
        command_views(final(out)@) == command_views(old(out)@) + account_commands(
            user_id,
            asset@,
            balance_atoms,
            frozen_atoms,
        ),
{
    let mut fields: Vec<(String, String)> = Vec::new();
    fields.push(
        (text::owned("balance"), AmountAtoms::from_atoms(balance_atoms).to_decimal_string()),
    );
    fields.push((text::owned("frozen"), AmountAtoms::from_atoms(frozen_atoms).to_decimal_string()));
    fields.push((text::owned("balance_atoms"), make_number(balance_atoms)));
    fields.push((text::owned("frozen_atoms"), make_number(frozen_atoms)));
    proof {
        assert(pair_views(fields@) =~= seq![
            ("balance"@, money::amount_text(balance_atoms as int)),
            ("frozen"@, money::amount_text(frozen_atoms as int)),
            ("balance_atoms"@, text::int_text(balance_atoms as int)),
            ("frozen_atoms"@, text::int_text(frozen_atoms as int)),
        ]);
    }
    out.push(RedisCommand::SetFields { key: key_account(user_id, asset), fields });
    out.push(
        RedisCommand::AddMember { key: key_user_assets(user_id), member: text::owned(asset) },
    );
    proof {
        assert(command_views(out@) =~= command_views(old(out)@) + account_commands(
            user_id,
            asset@,
            balance_atoms,
            frozen_atoms,
        ));
    }
}

/// An account frame carries an amount that fixed point cannot express.
#[derive(Debug, Clone, Copy, PartialEq, Eq, Structural)]
pub struct UnreadableAmount;

/// The commands of an account frame; none where it names no asset.
pub open spec fn account_frame_commands(p: AccountSetPayload) -> Result<
    Seq<CommandView>,
    UnreadableAmount,
> {
    let asset = persist_event::unpacked(p.asset@);
    let balance = pg_store::field_atoms(p.balance_atoms, p.legacy_balance_atoms);
    let frozen = pg_store::field_atoms(p.frozen_atoms, p.legacy_frozen_atoms);
    if balance is None || frozen is None {
        Err(UnreadableAmount)
    } else if asset.len() == 0 {
        Ok(seq![])
    } else {
        Ok(account_commands(p.user_id, asset, balance->0, frozen->0))
    }
}

pub open spec fn command_result(r: Result<Vec<RedisCommand>, UnreadableAmount>) -> Result<
    Seq<CommandView>,
    UnreadableAmount,
> {
    match r {
        Ok(cs) => Ok(command_views(cs@)),
        Err(e) => Err(e),
    }
}

pub fn apply_account_set(p: &AccountSetPayload) -> (r: Result<
    Vec<RedisCommand>,
    UnreadableAmount,
>)
    ensures
        command_result(r) == account_frame_commands(*p),
{
    let balance = if p.balance_atoms == 0 {
        p.legacy_balance_atoms
    } else {
        Some(p.balance_atoms)
    };
    let frozen = if p.frozen_atoms == 0 {
        p.legacy_frozen_atoms
    } else {
        Some(p.frozen_atoms)
    };
    let asset = unpack_str(&p.asset);
    match (balance, frozen) {
        (Some(b), Some(f)) => {
            let mut out: Vec<RedisCommand> = Vec::new();
            if !asset.as_str().is_empty() {
                push_account(&mut out, p.user_id, asset.as_str(), b, f);
            }
            proof {
                let empty: Seq<RedisCommand> = seq![];
                assert(command_views(empty) =~= seq![]);
                assert(command_views(empty) + account_commands(p.user_id, asset@, b, f)
                    =~= account_commands(p.user_id, asset@, b, f));
            }
            Ok(out)
        },
        _ => Err(UnreadableAmount),
    }
}

/// What a frame asks of the cache.
#[derive(Debug)]
pub enum FramePlan {
    /// Run these commands.
    Run(Vec<RedisCommand>),
    /// Read the order's owner and client order id, then remove it.
    RemoveOrder(i64),
    /// Look whether the order is stored, then update it.
    UpdateFill(OrderFillUpdatePayload),
    /// The frame is not for the cache, or could not be read.
    Nothing,
    Refused(UnreadableAmount),
}

/// The plan that a frame is owed: trades and events live in the relational
/// store alone, and so does margin state.
pub open spec fn plan_of(body: PersistBody, plan: FramePlan) -> bool {
    match body {
        PersistBody::OrderUpsert(p) => plan matches FramePlan::Run(cs) && command_views(cs@)
            == upsert_commands(p),
        PersistBody::OrderDelete(p) => plan == FramePlan::RemoveOrder(p.id),
        PersistBody::OrderFillUpdate(p) => plan == FramePlan::UpdateFill(p),
        PersistBody::AccountSet(p) => match account_frame_commands(p) {
            Ok(expected) => plan matches FramePlan::Run(cs) && command_views(cs@) == expected,
            Err(e) => plan == FramePlan::Refused(e),
        },
        _ => plan is Nothing,
    }
}

/// What to do about a frame.
pub fn apply_frame(frame: &PersistFrame) -> (r: FramePlan)
    ensures
        plan_of(frame.body, r),
{
    match frame.body {
        PersistBody::OrderUpsert(p) => FramePlan::Run(apply_order_upsert(&p)),
        PersistBody::OrderDelete(p) => FramePlan::RemoveOrder(p.id),
        PersistBody::OrderFillUpdate(p) => FramePlan::UpdateFill(p),
        PersistBody::AccountSet(p) => match apply_account_set(&p) {
            Ok(cs) => FramePlan::Run(cs),
            Err(e) => FramePlan::Refused(e),
        },
        _ => FramePlan::Nothing,
    }
}

/// The field of a hash, where it is there.
pub open spec fn text_field(m: Map<Seq<char>, Seq<char>>, name: Seq<char>) -> Option<Seq<char>> {
    if m.contains_key(name) {
        Some(m[name])
    } else {
        None
    }
}

/// The number in a field, where it is there and is one.
pub open spec fn number_field(m: Map<Seq<char>, Seq<char>>, name: Seq<char>) -> Option<i64> {
    match text_field(m, name) {
        Some(s) => text::i64_value(s),
        None => None,
    }
}

/// The amount in a field, where it is there and is one; it is held to the atom.
pub open spec fn decimal_field(m: Map<Seq<char>, Seq<char>>, name: Seq<char>) -> Option<i64> {
    match text_field(m, name) {
        Some(s) => decimal::atoms_in(s),
        None => None,
    }
}

/// A text where it is there and not empty.
pub open spec fn filled_field(m: Map<Seq<char>, Seq<char>>, name: Seq<char>) -> Option<Seq<char>> {
    match text_field(m, name) {
        Some(s) if s.len() > 0 => Some(s),
        _ => None,
    }
}

pub open spec fn is_date(ms: i64) -> bool {
    persist_event::MIN_DATE_MS <= ms <= persist_event::MAX_DATE_MS
}

/// The order in a hash. Nothing is made up: a hash with a required field
/// missing or unreadable holds no order. A price of zero stands for a market
/// order; without a time of update the time of creation stands.
pub open spec fn decoded(id: i64, m: Map<Seq<char>, Seq<char>>) -> Option<models::OrderView> {
    let user_id = number_field(m, "user_id"@);
    let symbol = text_field(m, "symbol"@);
    let side = text_field(m, "side"@);
    let order_type = text_field(m, "order_type"@);
    let status = text_field(m, "status"@);
    let qty = decimal_field(m, "qty"@);
    let filled = decimal_field(m, "filled"@);
    let freeze_price = decimal_field(m, "freeze_price"@);
    let price = decimal_field(m, "price"@);
    let created = number_field(m, "created_at_ms"@);
    let updated = match number_field(m, "updated_at_ms"@) {
        Some(v) => v,
        None => created->0,
    };
    if user_id is Some && symbol is Some && side is Some && order_type is Some && status is Some
        && qty is Some && filled is Some && freeze_price is Some && price is Some
        && created is Some && is_date(created->0) && is_date(updated) {
        Some(
            models::OrderView {
                id,
                user_id: user_id->0,
                symbol: symbol->0,
                side: side->0,
                order_type: order_type->0,
                price_atoms: if price->0 == 0 {
                    None
                } else {
                    price
                },
                quantity_atoms: qty->0,
                filled_atoms: filled->0,
                status: status->0,
                freeze_price_atoms: freeze_price->0,
                client_order_id: filled_field(m, "client_order_id"@),
                created_at_ms: created->0,
                updated_at_ms: updated,
            },
        )
    } else {
        None
    }
}

pub open spec fn order_option(o: Option<DbOrder>) -> Option<models::OrderView> {
    match o {
        Some(x) => Some(x.view()),
        None => None,
    }
}

/// The last value given for a field.
pub fn find_field<'a>(fields: &'a Vec<(String, String)>, name: &str) -> (r: Option<&'a str>)
    ensures
        text::opt_str(r) == text_field(pair_map(pair_views(fields@)), name@),
{
    let mut i: usize = fields.len();
    proof {
        assert(pair_views(fields@).take(i as int) =~= pair_views(fields@));
    }
    while i > 0
        invariant
            i <= fields@.len(),
            text_field(pair_map(pair_views(fields@).take(i as int)), name@) == text_field(
                pair_map(pair_views(fields@)),
                name@,
            ),
        decreases i,
    {
        let ghost part = pair_views(fields@).take(i as int);
        i = i - 1;
        proof {
            assert(part.drop_last() =~= pair_views(fields@).take(i as int));
            assert(part.last() == (fields@[i as int].0@, fields@[i as int].1@));
        }
        if text::str_eq(fields[i].0.as_str(), name) {
            return Some(fields[i].1.as_str());
        }
    }
    None
}

/// The number in a field.
pub fn find_number(fields: &Vec<(String, String)>, name: &str) -> (r: Option<i64>)
    ensures
        r == number_field(pair_map(pair_views(fields@)), name@),
{
    match find_field(fields, name) {
        Some(s) => text::parse_i64(s),
        None => None,
    }
}

/// The amount in a field.
pub fn find_amount(fields: &Vec<(String, String)>, name: &str) -> (r: Option<i64>)
    ensures
        r == decimal_field(pair_map(pair_views(fields@)), name@),
{
    match find_field(fields, name) {
        Some(s) => decimal::parse_atoms(s),
        None => None,
    }
}

/// Reads an order back from its hash.
pub fn decode_hash(id: i64, fields: &Vec<(String, String)>) -> (r: Option<DbOrder>)
    ensures
        order_option(r) == decoded(id, pair_map(pair_views(fields@))),
{
    let user_id = find_number(fields, "user_id")?;
    let symbol = find_field(fields, "symbol")?;
    let side = find_field(fields, "side")?;
    let order_type = find_field(fields, "order_type")?;
    let status = find_field(fields, "status")?;
    let quantity_atoms = find_amount(fields, "qty")?;
    let filled_atoms = find_amount(fields, "filled")?;
    let freeze_price_atoms = find_amount(fields, "freeze_price")?;
    let price = find_amount(fields, "price")?;
    let client_order_id = match find_field(fields, "client_order_id") {
        Some(s) => if s.is_empty() {
            None
        } else {
            Some(text::owned(s))
        },
        None => None,
    };
    let created_at_ms = find_number(fields, "created_at_ms")?;
    let updated_at_ms = match find_number(fields, "updated_at_ms") {
        Some(v) => v,
        None => created_at_ms,
    };
    if !is_date_ms(created_at_ms) || !is_date_ms(updated_at_ms) {
        return None;
    }
    Some(
        DbOrder {
            id,
            user_id,
            symbol: text::owned(symbol),
            side: text::owned(side),
            order_type: text::owned(order_type),
            price_atoms: if price == 0 {
                None
            } else {
                Some(price)
            },
            quantity_atoms,
            filled_atoms,
            status: text::owned(status),
            freeze_price_atoms,
            client_order_id,
            created_at_ms,
            updated_at_ms,
        },
    )
}

/// A user's order by its hash; nothing where the order is another user's.
pub fn get_order(fields: &Vec<(String, String)>, id: i64, user_id: i64) -> (r: Option<DbOrder>)
    ensures
        order_option(r) == (match decoded(id, pair_map(pair_views(fields@))) {
            Some(o) if o.user_id == user_id => Some(o),
            _ => None,
        }),
{
    match decode_hash(id, fields) {
        Some(o) => if o.user_id == user_id {
            Some(o)
        } else {
            None
        },
        None => None,
    }
}

pub open spec fn order_views(s: Seq<DbOrder>) -> Seq<models::OrderView> {
    s.map_values(|o: DbOrder| o.view())
}

/// The hashes as maps.
pub open spec fn hash_views(s: Seq<Vec<(String, String)>>) -> Seq<Map<Seq<char>, Seq<char>>> {
    s.map_values(|h: Vec<(String, String)>| pair_map(pair_views(h@)))
}

/// Where an order goes among orders that are newest first: behind those
/// created at the same time or later.
pub open spec fn newest_slot(s: Seq<models::OrderView>, created_at_ms: i64) -> int
    decreases s.len(),
{
    if s.len() == 0 || s.last().created_at_ms >= created_at_ms {
        s.len() as int
    } else {
        newest_slot(s.drop_last(), created_at_ms)
    }
}

/// The orders, newest first; those created at the same time keep their order.
pub open spec fn newest_first(s: Seq<models::OrderView>) -> Seq<models::OrderView>
    decreases s.len(),
{
    if s.len() == 0 {
        seq![]
    } else {
        let rest = newest_first(s.drop_last());
        rest.insert(newest_slot(rest, s.last().created_at_ms), s.last())
    }
}

/// Whether an order is open: pending or trading.
pub open spec fn is_open(o: models::OrderView) -> bool {
    o.status == "PENDING"@ || o.status == "TRADING"@
}

/// The readable open orders among the hashes, of one symbol where one is asked
/// for.
pub open spec fn matching_orders(
    ids: Seq<i64>,
    hashes: Seq<Map<Seq<char>, Seq<char>>>,
    symbol: Option<Seq<char>>,
) -> Seq<models::OrderView>
    decreases ids.len(),
{
    if ids.len() == 0 || hashes.len() == 0 {
        seq![]
    } else if ids.len() > hashes.len() {
        matching_orders(ids.drop_last(), hashes, symbol)
    } else {
        let k = ids.len() - 1;
        let rest = matching_orders(ids.drop_last(), hashes, symbol);
        match decoded(ids[k], hashes[k]) {
            Some(o) if is_open(o) && (symbol is None || o.symbol == symbol->0) => rest.push(o),
            _ => rest,
        }
    }
}

proof fn lemma_newest_slot(s: Seq<models::OrderView>, created_at_ms: i64)
    ensures
        0 <= newest_slot(s, created_at_ms) <= s.len(),
    decreases s.len(),
{
    if s.len() > 0 {
        lemma_newest_slot(s.drop_last(), created_at_ms);
    }
}

fn insert_newest(out: &mut Vec<DbOrder>, order: DbOrder)
    ensures
        order_views(final(out)@) == order_views(old(out)@).insert(
            newest_slot(order_views(old(out)@), order.created_at_ms),
            order.view(),
        ),
{
    let ghost views = order_views(out@);
    let mut at: usize = out.len();
    proof {
        assert(views.take(at as int) =~= views);
        lemma_newest_slot(views, order.created_at_ms);
    }
    while at > 0 && out[at - 1].created_at_ms < order.created_at_ms
        invariant
            at <= out@.len(),
            views == order_views(out@),
            newest_slot(views.take(at as int), order.created_at_ms) == newest_slot(
                views,
                order.created_at_ms,
            ),
        decreases at,
    {
        proof {
            assert(views.take(at as int).drop_last() =~= views.take(at - 1));
            assert(views.take(at as int).last() == out@[at - 1].view());
        }
        at = at - 1;
    }
    proof {
        if at > 0 {
            assert(views.take(at as int).last() == out@[at - 1].view());
        }
    }
    let ghost ov = order.view();
    out.insert(at, order);
    proof {
        assert(order_views(out@) =~= views.insert(at as int, ov));
    }
}

/// A user's open orders from their hashes, newest first, at most `limit`.
/// What cannot be read, or is no longer open, is left out.
pub fn list_user_open_orders(
    ids: &Vec<i64>,
    hashes: &Vec<Vec<(String, String)>>,
    symbol_filter: Option<&str>,
    limit: usize,
) -> (r: Vec<DbOrder>)
    ensures
        order_views(r@) == ({
            let all = newest_first(
                matching_orders(ids@, hash_views(hashes@), text::opt_str(symbol_filter)),
            );
            if all.len() > limit {
                all.take(limit as int)
            } else {
                all
            }
        }),
{
    let mut out: Vec<DbOrder> = Vec::new();
    let mut i: usize = 0;
    let ghost symbol = text::opt_str(symbol_filter);
    let ghost maps = hash_views(hashes@);
    proof {
        assert(ids@.take(0) =~= seq![]);
        assert(order_views(out@) =~= seq![]);
    }
    while i < ids.len() && i < hashes.len()
        invariant
            i <= ids@.len(),
            i <= hashes@.len(),
            maps == hash_views(hashes@),
            symbol == text::opt_str(symbol_filter),
            order_views(out@) == newest_first(matching_orders(ids@.take(i as int), maps, symbol)),
        decreases ids@.len() - i,
    {
        let ghost part = ids@.take(i + 1);
        proof {
            assert(part.drop_last() =~= ids@.take(i as int));
            assert(part[i as int] == ids@[i as int]);
        }
        let found = decode_hash(ids[i], &hashes[i]);
        proof {
            assert(order_option(found) == decoded(ids@[i as int], maps[i as int]));
        }
        if let Some(o) = found {
            let open = text::str_eq(o.status.as_str(), "PENDING") || text::str_eq(
                o.status.as_str(),
                "TRADING",
            );
            let wanted = match symbol_filter {
                Some(sym) => text::str_eq(o.symbol.as_str(), sym),
                None => true,
            };
            if open && wanted {
                let ghost ov = o.view();
                insert_newest(&mut out, o);
                proof {
                    let rest = matching_orders(ids@.take(i as int), maps, symbol);
                    let all = matching_orders(part, maps, symbol);
                    assert(all == rest.push(ov));
                    assert(all.drop_last() =~= rest);
                    assert(all.last() == ov);
                }
            }
        }
        i = i + 1;
    }
    proof {
        lemma_unmatched_ids(ids@, maps, symbol, i as int);
    }
    if out.len() > limit {
        let ghost before = out@;
        out.truncate(limit);
        proof {
            assert(order_views(out@) =~= order_views(before).take(limit as int));
        }
    }
    out
}

/// Ids without a hash add no order.
proof fn lemma_unmatched_ids(
    ids: Seq<i64>,
    hashes: Seq<Map<Seq<char>, Seq<char>>>,
    symbol: Option<Seq<char>>,
    n: int,
)
    requires
        0 <= n <= ids.len(),
        n == ids.len() || n == hashes.len(),
    ensures
        matching_orders(ids.take(n), hashes, symbol) == matching_orders(ids, hashes, symbol),
    decreases ids.len(),
{
    if n == ids.len() {
        assert(ids.take(n) =~= ids);
    } else {
        lemma_unmatched_ids(ids.drop_last(), hashes, symbol, n);
        assert(ids.drop_last().take(n) =~= ids.take(n));
    }
}

/// Sorting loses and invents nothing, and puts newer orders first.
pub proof fn law_newest_first(s: Seq<models::OrderView>)
    ensures
        newest_first(s).to_multiset() == s.to_multiset(),
        forall|i: int, j: int|
            0 <= i <= j < s.len() ==> newest_first(s)[i].created_at_ms
                >= newest_first(s)[j].created_at_ms,
        newest_first(s).len() == s.len(),
    decreases s.len(),
{
    broadcast use vstd::seq_lib::group_to_multiset_ensures;

    if s.len() > 0 {
        let d = s.drop_last();
        let rest = newest_first(d);
        let at = newest_slot(rest, s.last().created_at_ms);
        law_newest_first(d);
        lemma_slot_order(rest, s.last().created_at_ms);
        lemma_newest_slot(rest, s.last().created_at_ms);
        assert(s =~= d.push(s.last()));
        vstd::seq_lib::to_multiset_insert(rest, at, s.last());
    } else {
        assert(newest_first(s) =~= s);
    }
}

proof fn lemma_slot_order(s: Seq<models::OrderView>, created_at_ms: i64)
    requires
        forall|i: int, j: int|
            0 <= i <= j < s.len() ==> s[i].created_at_ms >= s[j].created_at_ms,
    ensures
        forall|i: int|
            0 <= i < newest_slot(s, created_at_ms) ==> (#[trigger] s[i]).created_at_ms
                >= created_at_ms,
        forall|i: int|
            newest_slot(s, created_at_ms) <= i < s.len() ==> (#[trigger] s[i]).created_at_ms
                < created_at_ms,
    decreases s.len(),
{
    if s.len() > 0 && s.last().created_at_ms < created_at_ms {
        let d = s.drop_last();
        lemma_slot_order(d, created_at_ms);
        assert forall|i: int| 0 <= i < newest_slot(s, created_at_ms) implies (
        #[trigger] s[i]).created_at_ms >= created_at_ms by {
            lemma_newest_slot(d, created_at_ms);
            assert(d[i] == s[i]);
        }
        assert forall|i: int| newest_slot(s, created_at_ms) <= i < s.len() implies (
        #[trigger] s[i]).created_at_ms < created_at_ms by {
            lemma_newest_slot(d, created_at_ms);
            if i < d.len() {
                assert(d[i] == s[i]);
            }
        }
    }
}

/// An account as readers get it: asset, balance and frozen in atoms.
pub open spec fn decoded_account(asset: Seq<char>, m: Map<Seq<char>, Seq<char>>) -> Option<
    (Seq<char>, i64, i64),
> {
    match (decimal_field(m, "balance"@), decimal_field(m, "frozen"@)) {
        (Some(b), Some(f)) => Some((asset, b, f)),
        _ => None,
    }
}

/// The readable accounts among the hashes.
pub open spec fn readable_accounts(
    assets: Seq<Seq<char>>,
    hashes: Seq<Map<Seq<char>, Seq<char>>>,
) -> Seq<(Seq<char>, i64, i64)>
    decreases assets.len(),
{
    if assets.len() == 0 || hashes.len() == 0 {
        seq![]
    } else if assets.len() > hashes.len() {
        readable_accounts(assets.drop_last(), hashes)
    } else {
        let k = assets.len() - 1;
        let rest = readable_accounts(assets.drop_last(), hashes);
        match decoded_account(assets[k], hashes[k]) {
            Some(a) => rest.push(a),
            None => rest,
        }
    }
}

pub open spec fn text_views(s: Seq<String>) -> Seq<Seq<char>> {
    s.map_values(|t: String| t@)
}

pub open spec fn account_rows(s: Seq<(String, i64, i64)>) -> Seq<(Seq<char>, i64, i64)> {
    s.map_values(|r: (String, i64, i64)| (r.0@, r.1, r.2))
}

proof fn lemma_unmatched_assets(
    assets: Seq<Seq<char>>,
    hashes: Seq<Map<Seq<char>, Seq<char>>>,
    n: int,
)
    requires
        0 <= n <= assets.len(),
        n == assets.len() || n == hashes.len(),
    ensures
        readable_accounts(assets.take(n), hashes) == readable_accounts(assets, hashes),
    decreases assets.len(),
{
    if n == assets.len() {
        assert(assets.take(n) =~= assets);
    } else {
        lemma_unmatched_assets(assets.drop_last(), hashes, n);
        assert(assets.drop_last().take(n) =~= assets.take(n));
    }
}

/// A user's accounts from their hashes. What cannot be read is left out.
pub fn list_user_accounts(assets: &Vec<String>, hashes: &Vec<Vec<(String, String)>>) -> (r: Vec<
    (String, i64, i64),
>)
    ensures
        account_rows(r@) == readable_accounts(text_views(assets@), hash_views(hashes@)),
{
    let mut out: Vec<(String, i64, i64)> = Vec::new();
    let mut i: usize = 0;
    let ghost names = text_views(assets@);
    let ghost maps = hash_views(hashes@);
    proof {
        assert(names.take(0) =~= seq![]);
        assert(account_rows(out@) =~= seq![]);
    }
    while i < assets.len() && i < hashes.len()
        invariant
            i <= assets@.len(),
            i <= hashes@.len(),
            names == text_views(assets@),
            maps == hash_views(hashes@),
            account_rows(out@) == readable_accounts(names.take(i as int), maps),
        decreases assets@.len() - i,
    {
        let ghost part = names.take(i + 1);
        let ghost before = out@;
        proof {
            assert(part.drop_last() =~= names.take(i as int));
            assert(part[i as int] == assets@[i as int]@);
        }
        let balance = find_amount(&hashes[i], "balance");
        let frozen = find_amount(&hashes[i], "frozen");
        if let (Some(b), Some(f)) = (balance, frozen) {
            out.push((text::owned(assets[i].as_str()), b, f));
            proof {
                assert(account_rows(out@) =~= account_rows(before).push(
                    (assets@[i as int]@, b, f),
                ));
            }
        }
        i = i + 1;
    }
    proof {
        lemma_unmatched_assets(names, maps, i as int);
    }
    out
}

/// The hash that a stored row makes: an absent price is written as zero, an
/// absent client order id as the empty text.
pub open spec fn row_hash(o: models::OrderView) -> HashView {
    HashView {
        user_id: o.user_id,
        symbol: o.symbol,
        side: o.side,
        order_type: o.order_type,
        price: money::amount_text(pg_store::or_zero(o.price_atoms) as int),
        qty: money::amount_text(o.quantity_atoms as int),
        filled: money::amount_text(o.filled_atoms as int),
        status: o.status,
        freeze_price: money::amount_text(o.freeze_price_atoms as int),
        client_order_id: match o.client_order_id {
            Some(c) => c,
            None => seq![],
        },
        created_at_ms: o.created_at_ms,
        updated_at_ms: o.updated_at_ms,
    }
}

fn make_row_hash(o: &DbOrder) -> (r: OrderHash)
    ensures
        r.view() == row_hash(o.view()),
{
    let price = match o.price_atoms {
        Some(p) => p,
        None => 0,
    };
    let client_order_id = match &o.client_order_id {
        Some(c) => text::owned(c.as_str()),
        None => String::new(),
    };
    let r = OrderHash {
        user_id: o.user_id,
        symbol: text::owned(o.symbol.as_str()),
        side: text::owned(o.side.as_str()),
        order_type: text::owned(o.order_type.as_str()),
        price: AmountAtoms::from_atoms(price).to_decimal_string(),
        qty: AmountAtoms::from_atoms(o.quantity_atoms).to_decimal_string(),
        filled: AmountAtoms::from_atoms(o.filled_atoms).to_decimal_string(),
        status: text::owned(o.status.as_str()),
        freeze_price: AmountAtoms::from_atoms(o.freeze_price_atoms).to_decimal_string(),
        client_order_id,
        created_at_ms: o.created_at_ms,
        updated_at_ms: o.updated_at_ms,
    };
    proof {
        assert(r.view() =~= row_hash(o.view()));
    }
    r
}

/// What a cold load wrote.
#[derive(Debug, Clone, Copy, PartialEq, Eq, Structural)]
pub struct HydrateStats {
    pub orders: u64,
    pub accounts: u64,
    pub user_coids: u64,
}

impl Default for HydrateStats {
    fn default() -> (r: HydrateStats)
        ensures
            r == (HydrateStats { orders: 0, accounts: 0, user_coids: 0 }),
    {
        HydrateStats { orders: 0, accounts: 0, user_coids: 0 }
    }
}

/// The commands that load orders.
pub open spec fn order_load(orders: Seq<models::OrderView>) -> Seq<CommandView>
    decreases orders.len(),
{
    if orders.len() == 0 {
        seq![]
    } else {
        order_load(orders.drop_last()) + row_hash(orders.last()).commands(orders.last().id)
    }
}

/// How many of the orders carry a client order id.
pub open spec fn coid_count(orders: Seq<models::OrderView>) -> nat
    decreases orders.len(),
{
    if orders.len() == 0 {
        0
    } else {
        coid_count(orders.drop_last()) + (if row_hash(orders.last()).client_order_id.len() > 0 {
            1nat
        } else {
            0nat
        })
    }
}

proof fn lemma_coid_count(orders: Seq<models::OrderView>)
    ensures
        coid_count(orders) <= orders.len(),
    decreases orders.len(),
{
    if orders.len() > 0 {
        lemma_coid_count(orders.drop_last());
    }
}

pub open spec fn account_pairs(s: Seq<(i64, String, i64, i64)>) -> Seq<(i64, Seq<char>, i64, i64)> {
    s.map_values(|r: (i64, String, i64, i64)| (r.0, r.1@, r.2, r.3))
}

/// The commands that load accounts.
pub open spec fn account_load(rows: Seq<(i64, Seq<char>, i64, i64)>) -> Seq<CommandView>
    decreases rows.len(),
{
    if rows.len() == 0 {
        seq![]
    } else {
        let r = rows.last();
        account_load(rows.drop_last()) + account_commands(r.0, r.1, r.2, r.3)
    }
}

/// The commands of a cold load from the relational store, and what they write.
pub fn hydrate_from_pg(orders: &Vec<DbOrder>, accounts: &Vec<(i64, String, i64, i64)>) -> (r: (
    Vec<RedisCommand>,
    HydrateStats,
))
    ensures
        command_views(r.0@) == order_load(order_views(orders@)) + account_load(
            account_pairs(accounts@),
        ),
        r.1.orders == orders@.len(),
        r.1.accounts == accounts@.len(),
        r.1.user_coids == coid_count(order_views(orders@)),
{
    let mut out: Vec<RedisCommand> = Vec::new();
    let mut user_coids: u64 = 0;
    let ghost ov = order_views(orders@);
    let ghost av = account_pairs(accounts@);
    proof {
        assert(command_views(out@) =~= seq![]);
        assert(ov.take(0) =~= seq![]);
    }
    let mut i: usize = 0;
    while i < orders.len()
        invariant
            i <= orders@.len(),
            ov == order_views(orders@),
            command_views(out@) == order_load(ov.take(i as int)),
            user_coids == coid_count(ov.take(i as int)),
            user_coids <= i,
        decreases orders@.len() - i,
    {
        let ghost before = out@;
        proof {
            assert(ov.take(i + 1).drop_last() =~= ov.take(i as int));
            assert(ov.take(i + 1).last() == orders@[i as int].view());
            lemma_coid_count(ov.take(i + 1));
        }
        let hash = make_row_hash(&orders[i]);
        let mut more = hash.commands(orders[i].id);
        let ghost mv = more@;
        out.append(&mut more);
        proof {
            assert(command_views(out@) =~= command_views(before) + command_views(mv));
        }
        if !hash.client_order_id.as_str().is_empty() {
            user_coids = user_coids + 1;
        }
        i = i + 1;
    }
    let mut j: usize = 0;
    proof {
        assert(ov.take(i as int) =~= ov);
        assert(av.take(0) =~= seq![]);
        assert(order_load(ov) + account_load(av.take(0)) =~= order_load(ov));
    }
    while j < accounts.len()
        invariant
            j <= accounts@.len(),
            av == account_pairs(accounts@),
            command_views(out@) == order_load(ov) + account_load(av.take(j as int)),
        decreases accounts@.len() - j,
    {
        proof {
            assert(av.take(j + 1).drop_last() =~= av.take(j as int));
            let row = accounts@[j as int];
            assert(av.take(j + 1).last() == (row.0, row.1@, row.2, row.3));
        }
        let row = &accounts[j];
        push_account(&mut out, row.0, row.1.as_str(), row.2, row.3);
        proof {
            assert(order_load(ov) + account_load(av.take(j as int)) + account_commands(
                row.0,
                row.1@,
                row.2,
                row.3,
            ) =~= order_load(ov) + account_load(av.take(j + 1)));
        }
        j = j + 1;
    }
    proof {
        assert(av.take(j as int) =~= av);
    }
    (
        out,
        HydrateStats {
            orders: orders.len() as u64,
            accounts: accounts.len() as u64,
            user_coids,
        },
    )
}

/// What a clean-up did.
#[derive(Debug, Clone, Copy, PartialEq, Eq, Structural)]
pub struct ReconcileStats {
    pub redis_orders_scanned: u64,
    pub orders_removed: u64,
    pub accounts_scanned: u64,
    pub accounts_removed: u64,
    pub user_sets_scanned: u64,
}

impl Default for ReconcileStats {
    fn default() -> (r: ReconcileStats)
        ensures
            r == (ReconcileStats {
                redis_orders_scanned: 0,
                orders_removed: 0,
                accounts_scanned: 0,
                accounts_removed: 0,
                user_sets_scanned: 0,
            }),
    {
        ReconcileStats {
            redis_orders_scanned: 0,
            orders_removed: 0,
            accounts_scanned: 0,
            accounts_removed: 0,
            user_sets_scanned: 0,
        }
    }
}

pub open spec fn owner_views(s: Seq<Option<String>>) -> Seq<Option<Seq<char>>> {
    s.map_values(|o: Option<String>| crate::text::opt_string(o))
}

/// The commands that remove orders the relational store no longer has, each
/// with what its hash said of its owner.
pub open spec fn orphan_commands(ids: Seq<i64>, owners: Seq<Option<Seq<char>>>) -> Seq<CommandView>
    decreases ids.len(),
{
    if ids.len() == 0 || owners.len() == 0 {
        seq![]
    } else if ids.len() > owners.len() {
        orphan_commands(ids.drop_last(), owners)
    } else {
        orphan_commands(ids.drop_last(), owners) + delete_commands(
            ids.last(),
            owners[ids.len() - 1],
            None,
        )
    }
}

proof fn lemma_unmatched_orphans(ids: Seq<i64>, owners: Seq<Option<Seq<char>>>, n: int)
    requires
        0 <= n <= ids.len(),
        n == ids.len() || n == owners.len(),
    ensures
        orphan_commands(ids.take(n), owners) == orphan_commands(ids, owners),
    decreases ids.len(),
{
    if n == ids.len() {
        assert(ids.take(n) =~= ids);
    } else {
        lemma_unmatched_orphans(ids.drop_last(), owners, n);
        assert(ids.drop_last().take(n) =~= ids.take(n));
    }
}

/// The commands that remove orders the relational store no longer has.
pub fn remove_orphans(ids: &Vec<i64>, owners: &Vec<Option<String>>) -> (r: Vec<RedisCommand>)
    ensures
        command_views(r@) == orphan_commands(ids@, owner_views(owners@)),
{
    let mut out: Vec<RedisCommand> = Vec::new();
    let ghost ov = owner_views(owners@);
    proof {
        assert(command_views(out@) =~= seq![]);
        assert(ids@.take(0) =~= seq![]);
    }
    let mut i: usize = 0;
    while i < ids.len() && i < owners.len()
        invariant
            i <= ids@.len(),
            i <= owners@.len(),
            ov == owner_views(owners@),
            command_views(out@) == orphan_commands(ids@.take(i as int), ov),
        decreases ids@.len() - i,
    {
        let ghost before = out@;
        proof {
            assert(ids@.take(i + 1).drop_last() =~= ids@.take(i as int));
            assert(ids@.take(i + 1).last() == ids@[i as int]);
        }
        let owner: Option<&str> = match &owners[i] {
            Some(s) => Some(s.as_str()),
            None => None,
        };
        let mut more = apply_order_delete(ids[i], owner, None);
        let ghost mv = more@;
        out.append(&mut more);
        proof {
            assert(command_views(out@) =~= command_views(before) + command_views(mv));
        }
        i = i + 1;
    }
    proof {
        lemma_unmatched_orphans(ids@, ov, i as int);
    }
    out
}

/// The commands that remove stray ids from one user's set, and whatever else
/// is left of those orders.
pub open spec fn stray_commands(set_key: Seq<char>, ids: Seq<i64>) -> Seq<CommandView>
    decreases ids.len(),
{
    if ids.len() == 0 {
        seq![]
    } else {
        let id = ids.last() as int;
        stray_commands(set_key, ids.drop_last()) + seq![
            CommandView::RemoveMember { key: set_key, member: text::int_text(id) },
            CommandView::RemoveMember { key: KEY_ACTIVE_ORDERS@, member: text::int_text(id) },
            CommandView::Delete { key: numbered("order:"@, id) },
        ]
    }
}

/// The commands that remove stray ids from one user's set.
pub fn remove_strays(set_key: &str, ids: &Vec<i64>) -> (r: Vec<RedisCommand>)
    ensures
        command_views(r@) == stray_commands(set_key@, ids@),
{
    let mut out: Vec<RedisCommand> = Vec::new();
    proof {
        assert(command_views(out@) =~= seq![]);
        assert(ids@.take(0) =~= seq![]);
    }
    let mut i: usize = 0;
    while i < ids.len()
        invariant
            i <= ids@.len(),
            command_views(out@) == stray_commands(set_key@, ids@.take(i as int)),
        decreases ids@.len() - i,
    {
        let ghost before = out@;
        proof {
            assert(ids@.take(i + 1).drop_last() =~= ids@.take(i as int));
            assert(ids@.take(i + 1).last() == ids@[i as int]);
        }
        let id = ids[i];
        out.push(
            RedisCommand::RemoveMember { key: text::owned(set_key), member: make_number(id) },
        );
        out.push(
            RedisCommand::RemoveMember {
                key: text::owned(KEY_ACTIVE_ORDERS),
                member: make_number(id),
            },
        );
        out.push(RedisCommand::Delete { key: key_order(id) });
        proof {
            assert(command_views(out@) =~= stray_commands(set_key@, ids@.take(i + 1)));
        }
        i = i + 1;
    }
    proof {
        assert(ids@.take(i as int) =~= ids@);
    }
    out
}

/// The user and asset of a key `acct:{user}:{asset}`.
pub open spec fn account_in_key(key: Seq<char>) -> Option<(i64, Seq<char>)> {
    match text::behind(key, "acct:"@) {
        Some(rest) => match text::split_pair(rest, ':') {
            Some((user, asset)) => match text::i64_value(user) {
                Some(user_id) => Some((user_id, asset)),
                None => None,
            },
            None => None,
        },
        None => None,
    }
}

pub fn account_of_key(key: &str) -> (r: Option<(i64, String)>)
    ensures
        (match r {
            Some((user_id, asset)) => Some((user_id, asset@)),
            None => None,
        }) == account_in_key(key@),
{
    let rest = text::strip_prefix(key, "acct:")?;
    let (user, asset) = text::split_once(rest.as_str(), ':')?;
    let user_id = text::parse_i64(user.as_str())?;
    Some((user_id, asset))
}

/// The key of an account tells the account.
pub proof fn law_account_key_reads_back(user_id: i64, asset: Seq<char>)
    ensures
        account_in_key(account_key(user_id, asset)) == Some((user_id, asset)),
{
    let key = account_key(user_id, asset);
    let number = text::int_text(user_id as int);
    let rest = number.push(':') + asset;
    reveal_strlit(":");
    assert(key =~= "acct:"@ + rest);
    assert(key.take("acct:"@.len() as int) =~= "acct:"@);
    assert(key.skip("acct:"@.len() as int) =~= rest);
    lemma_number_splits_off(user_id, asset);
    text::lemma_int_text(user_id);
}

pub open spec fn account_names(s: Seq<(i64, String)>) -> Seq<(i64, Seq<char>)> {
    s.map_values(|a: (i64, String)| (a.0, a.1@))
}

/// The commands that remove cached accounts the relational store no longer has,
/// and how many those are; `stored` tells of each whether it still has it.
pub open spec fn lost_accounts(accounts: Seq<(i64, Seq<char>)>, stored: Seq<bool>) -> (
    Seq<CommandView>,
    nat,
)
    decreases accounts.len(),
{
    if accounts.len() == 0 || stored.len() == 0 {
        (seq![], 0)
    } else if accounts.len() > stored.len() {
        lost_accounts(accounts.drop_last(), stored)
    } else {
        let (commands, n) = lost_accounts(accounts.drop_last(), stored);
        if stored[accounts.len() - 1] {
            (commands, n)
        } else {
            let (user_id, asset) = accounts.last();
            (
                commands + seq![
                    CommandView::Delete { key: account_key(user_id, asset) },
                    CommandView::RemoveMember {
                        key: numbered("user_assets:"@, user_id as int),
                        member: asset,
                    },
                ],
                n + 1,
            )
        }
    }
}

proof fn lemma_unmatched_accounts(accounts: Seq<(i64, Seq<char>)>, stored: Seq<bool>, n: int)
    requires
        0 <= n <= accounts.len(),
        n == accounts.len() || n == stored.len(),
    ensures
        lost_accounts(accounts.take(n), stored) == lost_accounts(accounts, stored),
    decreases accounts.len(),
{
    if n == accounts.len() {
        assert(accounts.take(n) =~= accounts);
    } else {
        lemma_unmatched_accounts(accounts.drop_last(), stored, n);
        assert(accounts.drop_last().take(n) =~= accounts.take(n));
    }
}

/// The commands that remove cached accounts the relational store no longer has,
/// and how many those are.
pub fn remove_lost_accounts(accounts: &Vec<(i64, String)>, stored: &Vec<bool>) -> (r: (
    Vec<RedisCommand>,
    u64,
))
    ensures
        (command_views(r.0@), r.1 as nat) == lost_accounts(account_names(accounts@), stored@),
{
    let mut out: Vec<RedisCommand> = Vec::new();
    let mut count: u64 = 0;
    let ghost names = account_names(accounts@);
    proof {
        assert(command_views(out@) =~= seq![]);
        assert(names.take(0) =~= seq![]);
    }
    let mut i: usize = 0;
    while i < accounts.len() && i < stored.len()
        invariant
            i <= accounts@.len(),
            i <= stored@.len(),
            names == account_names(accounts@),
            (command_views(out@), count as nat) == lost_accounts(names.take(i as int), stored@),
            count <= i,
        decreases accounts@.len() - i,
    {
        let ghost before = out@;
        proof {
            assert(names.take(i + 1).drop_last() =~= names.take(i as int));
            assert(names.take(i + 1).last() == names[i as int]);
        }
        if !stored[i] {
            let user_id = accounts[i].0;
            let asset = accounts[i].1.as_str();
            out.push(RedisCommand::Delete { key: key_account(user_id, asset) });
            out.push(
                RedisCommand::RemoveMember {
                    key: key_user_assets(user_id),
                    member: text::owned(asset),
                },
            );
            count = count + 1;
            proof {
                assert(command_views(out@) =~= lost_accounts(names.take(i + 1), stored@).0);
            }
        }
        i = i + 1;
    }
    proof {
        lemma_unmatched_accounts(names, stored@, i as int);
    }
    (out, count)
}

/// The users of a clean sweep: those with holdings, then the owners of orders
/// that are not among them.
pub open spec fn sweep_users(holders: Seq<i64>, owners: Seq<Option<i64>>) -> Seq<i64>
    decreases owners.len(),
{
    if owners.len() == 0 {
        holders
    } else {
        let rest = sweep_users(holders, owners.drop_last());
        match owners.last() {
            Some(uid) if !rest.contains(uid) => rest.push(uid),
            _ => rest,
        }
    }
}

pub open spec fn order_sweep(ids: Seq<i64>) -> Seq<CommandView> {
    ids.map_values(|id: i64| CommandView::Delete { key: numbered("order:"@, id as int) })
}

pub open spec fn asset_sweep(user_id: i64, assets: Seq<Seq<char>>) -> Seq<CommandView> {
    assets.map_values(|a: Seq<char>| CommandView::Delete { key: account_key(user_id, a) })
}

pub open spec fn holding_sweep(holdings: Seq<(i64, Seq<Seq<char>>)>) -> Seq<CommandView>
    decreases holdings.len(),
{
    if holdings.len() == 0 {
        seq![]
    } else {
        holding_sweep(holdings.drop_last()) + asset_sweep(holdings.last().0, holdings.last().1)
    }
}

pub open spec fn user_sweep(users: Seq<i64>) -> Seq<CommandView>
    decreases users.len(),
{
    if users.len() == 0 {
        seq![]
    } else {
        let uid = users.last() as int;
        user_sweep(users.drop_last()) + seq![
            CommandView::Delete { key: numbered("user_orders:"@, uid) },
            CommandView::Delete { key: numbered("user_coid:"@, uid) },
            CommandView::Delete { key: numbered("user_assets:"@, uid) },
        ]
    }
}

pub open spec fn holding_views(s: Seq<(i64, Vec<String>)>) -> Seq<(i64, Seq<Seq<char>>)> {
    s.map_values(|h: (i64, Vec<String>)| (h.0, text_views(h.1@)))
}

pub open spec fn holders_of(s: Seq<(i64, Vec<String>)>) -> Seq<i64> {
    s.map_values(|h: (i64, Vec<String>)| h.0)
}

/// The commands that remove everything this module keeps.
pub open spec fn purge_commands(
    ids: Seq<i64>,
    holdings: Seq<(i64, Seq<Seq<char>>)>,
    users: Seq<i64>,
) -> Seq<CommandView> {
    order_sweep(ids).push(CommandView::Delete { key: KEY_ACTIVE_ORDERS@ }) + holding_sweep(holdings)
        + user_sweep(users)
}

fn contains_id(ids: &Vec<i64>, id: i64) -> (r: bool)
    ensures
        r == ids@.contains(id),
{
    let mut i: usize = 0;
    while i < ids.len()
        invariant
            i <= ids@.len(),
            forall|j: int| 0 <= j < i ==> ids@[j] != id,
        decreases ids@.len() - i,
    {
        if ids[i] == id {
            return true;
        }
        i = i + 1;
    }
    false
}

fn collect_users(holdings: &Vec<(i64, Vec<String>)>, owners: &Vec<Option<i64>>) -> (r: Vec<i64>)
    ensures
        r@ == sweep_users(holders_of(holdings@), owners@),
{
    let mut users: Vec<i64> = Vec::new();
    let mut i: usize = 0;
    while i < holdings.len()
        invariant
            i <= holdings@.len(),
            users@ == holders_of(holdings@).take(i as int),
        decreases holdings@.len() - i,
    {
        users.push(holdings[i].0);
        proof {
            assert(users@ =~= holders_of(holdings@).take(i + 1));
        }
        i = i + 1;
    }
    proof {
        assert(users@ =~= holders_of(holdings@));
        assert(owners@.take(0) =~= seq![]);
    }
    let mut k: usize = 0;
    while k < owners.len()
        invariant
            k <= owners@.len(),
            users@ == sweep_users(holders_of(holdings@), owners@.take(k as int)),
        decreases owners@.len() - k,
    {
        proof {
            assert(owners@.take(k + 1).drop_last() =~= owners@.take(k as int));
            assert(owners@.take(k + 1).last() == owners@[k as int]);
        }
        if let Some(uid) = owners[k] {
            if !contains_id(&users, uid) {
                users.push(uid);
            }
        }
        k = k + 1;
    }
    proof {
        assert(owners@.take(k as int) =~= owners@);
    }
    users
}

fn push_asset_sweep(out: &mut Vec<RedisCommand>, user_id: i64, assets: &Vec<String>)
    ensures
        command_views(final(out)@) == command_views(old(out)@) + asset_sweep(
            user_id,
            text_views(assets@),
        ),
{
    let mut i: usize = 0;
    let ghost names = text_views(assets@);
    proof {
        assert(asset_sweep(user_id, names.take(0)) =~= seq![]);
        assert(command_views(out@) =~= command_views(old(out)@) + asset_sweep(
            user_id,
            names.take(0),
        ));
    }
    while i < assets.len()
        invariant
            i <= assets@.len(),
            names == text_views(assets@),
            command_views(out@) == command_views(old(out)@) + asset_sweep(
                user_id,
                names.take(i as int),
            ),
        decreases assets@.len() - i,
    {
        let ghost before = out@;
        out.push(RedisCommand::Delete { key: key_account(user_id, assets[i].as_str()) });
        proof {
            let c = CommandView::Delete { key: account_key(user_id, assets@[i as int]@) };
            assert(command_views(out@) =~= command_views(before).push(c));
            assert(asset_sweep(user_id, names.take(i + 1)) =~= asset_sweep(
                user_id,
                names.take(i as int),
            ).push(c));
            assert(command_views(out@) =~= command_views(old(out)@) + asset_sweep(
                user_id,
                names.take(i + 1),
            ));
        }
        i = i + 1;
    }
    proof {
        assert(names.take(i as int) =~= names);
    }
}

/// The commands that remove everything this module keeps: the orders of
/// `order_ids` with their owners, and the users with their assets.
pub fn purge_all(
    order_ids: &Vec<i64>,
    owners: &Vec<Option<i64>>,
    holdings: &Vec<(i64, Vec<String>)>,
) -> (r: Vec<RedisCommand>)
    ensures
        command_views(r@) == purge_commands(
            order_ids@,
            holding_views(holdings@),
            sweep_users(holders_of(holdings@), owners@),
        ),
{
    let users = collect_users(holdings, owners);
    let mut out: Vec<RedisCommand> = Vec::new();
    let mut i: usize = 0;
    while i < order_ids.len()
        invariant
            i <= order_ids@.len(),
            command_views(out@) == order_sweep(order_ids@.take(i as int)),
        decreases order_ids@.len() - i,
    {
        let ghost before = out@;
        out.push(RedisCommand::Delete { key: key_order(order_ids[i]) });
        proof {
            let c = CommandView::Delete { key: numbered("order:"@, order_ids@[i as int] as int) };
            assert(command_views(out@) =~= command_views(before).push(c));
            assert(order_sweep(order_ids@.take(i + 1)) =~= order_sweep(
                order_ids@.take(i as int),
            ).push(c));
        }
        i = i + 1;
    }
    out.push(RedisCommand::Delete { key: text::owned(KEY_ACTIVE_ORDERS) });
    let ghost head = order_sweep(order_ids@).push(CommandView::Delete { key: KEY_ACTIVE_ORDERS@ });
    let ghost hv = holding_views(holdings@);
    proof {
        assert(order_ids@.take(i as int) =~= order_ids@);
        assert(command_views(out@) =~= head);
        assert(hv.take(0) =~= seq![]);
        assert(head + holding_sweep(hv.take(0)) =~= head);
    }
    let mut k: usize = 0;
    while k < holdings.len()
        invariant
            k <= holdings@.len(),
            hv == holding_views(holdings@),
            command_views(out@) == head + holding_sweep(hv.take(k as int)),
        decreases holdings@.len() - k,
    {
        proof {
            assert(hv.take(k + 1).drop_last() =~= hv.take(k as int));
            let h = holdings@[k as int];
            assert(hv.take(k + 1).last() == (h.0, text_views(h.1@)));
            assert(head + holding_sweep(hv.take(k as int)) + asset_sweep(h.0, text_views(h.1@))
                =~= head + holding_sweep(hv.take(k + 1)));
        }
        push_asset_sweep(&mut out, holdings[k].0, &holdings[k].1);
        k = k + 1;
    }
    let ghost body = head + holding_sweep(hv);
    proof {
        assert(hv.take(k as int) =~= hv);
        assert(users@.take(0) =~= seq![]);
        assert(body + user_sweep(users@.take(0)) =~= body);
    }
    let mut j: usize = 0;
    while j < users.len()
        invariant
            j <= users@.len(),
            command_views(out@) == body + user_sweep(users@.take(j as int)),
        decreases users@.len() - j,
    {
        proof {
            assert(users@.take(j + 1).drop_last() =~= users@.take(j as int));
            assert(users@.take(j + 1).last() == users@[j as int]);
        }
        let uid = users[j];
        let ghost before = out@;
        out.push(RedisCommand::Delete { key: key_user_orders(uid) });
        out.push(RedisCommand::Delete { key: key_user_coid(uid) });
        out.push(RedisCommand::Delete { key: key_user_assets(uid) });
        proof {
            assert(command_views(out@) =~= command_views(before) + seq![
                CommandView::Delete { key: numbered("user_orders:"@, uid as int) },
                CommandView::Delete { key: numbered("user_coid:"@, uid as int) },
                CommandView::Delete { key: numbered("user_assets:"@, uid as int) },
            ]);
            assert(command_views(out@) =~= body + user_sweep(users@.take(j + 1)));
        }
        j = j + 1;
    }
    proof {
        assert(users@.take(j as int) =~= users@);
    }
    out
}

/// The user of a key `user_assets:{user}`.
pub open spec fn holder_in_key(key: Seq<char>) -> Option<i64> {
    let n = "user_assets:"@.len();
    if key.len() >= n && key.take(n as int) == "user_assets:"@ {
        text::i64_value(key.skip(n as int))
    } else {
        None
    }
}

pub fn holder_of_key(key: &str) -> (r: Option<i64>)
    ensures
        r == holder_in_key(key@),
{
    let chars = text::to_chars(key);
    let prefix = text::to_chars("user_assets:");
    let n = prefix.len();
    if chars.len() < n {
        return None;
    }
    let mut i: usize = 0;
    while i < n
        invariant
            i <= n <= chars@.len(),
            n == prefix@.len(),
            chars@ == key@,
            prefix@ == "user_assets:"@,
            forall|j: int| 0 <= j < i ==> chars@[j] == prefix@[j],
        decreases n - i,
    {
        if chars[i] != prefix[i] {
            proof {
                assert(key@.take(n as int)[i as int] != "user_assets:"@[i as int]);
            }
            return None;
        }
        i = i + 1;
    }
    proof {
        assert(chars@.take(n as int) =~= prefix@);
        assert(chars@.subrange(n as int, chars@.len() as int) =~= chars@.skip(n as int));
    }
    text::parse_i64_chars(vstd::slice::slice_subrange(chars.as_slice(), n, chars.len()))
}

pub open spec fn floor_views(s: Seq<(String, u64)>) -> Seq<(Seq<char>, u64)> {
    s.map_values(|p: (String, u64)| (p.0@, p.1))
}

/// The stored sequence numbers by publisher; fields that name no publisher are
/// left out.
pub open spec fn floors_in(s: Seq<(Seq<char>, u64)>) -> Map<u16, u64>
    decreases s.len(),
{
    if s.len() == 0 {
        Map::empty()
    } else {
        let rest = floors_in(s.drop_last());
        match text::bounded_value(s.last().0, u16::MAX as u64) {
            Some(p) => rest.insert(p as u16, s.last().1),
            None => rest,
        }
    }
}

/// Reads the stored sequence numbers.
pub fn load_persist_floors(raw: &Vec<(String, u64)>) -> (r: HashMap<u16, u64>)
    ensures
        r@ == floors_in(floor_views(raw@)),
{
    broadcast use vstd::std_specs::hash::group_hash_axioms;

    let mut out: HashMap<u16, u64> = HashMap::new();
    let mut i: usize = 0;
    let ghost rv = floor_views(raw@);
    proof {
        assert(rv.take(0) =~= seq![]);
        assert(out@ =~= Map::empty());
    }
    while i < raw.len()
        invariant
            i <= raw@.len(),
            rv == floor_views(raw@),
            out@ == floors_in(rv.take(i as int)),
        decreases raw@.len() - i,
    {
        broadcast use vstd::std_specs::hash::group_hash_axioms;

        proof {
            assert(rv.take(i + 1).drop_last() =~= rv.take(i as int));
            assert(rv.take(i + 1).last() == (raw@[i as int].0@, raw@[i as int].1));
        }
        let chars = text::to_chars(raw[i].0.as_str());
        if let Some(p) = text::parse_bounded_chars(chars.as_slice(), 65_535) {
            out.insert(p as u16, raw[i].1);
        }
        i = i + 1;
    }
    proof {
        assert(rv.take(i as int) =~= rv);
    }
    out
}

/// The fields that store sequence numbers.
pub open spec fn floor_fields(floors: Seq<(u16, u64)>) -> Seq<(Seq<char>, u64)> {
    floors.map_values(|f: (u16, u64)| (text::nat_text(f.0 as nat), f.1))
}

/// The fields to be stored for the sequence numbers.
pub fn store_persist_floors(floors: &Vec<(u16, u64)>) -> (r: Vec<(String, u64)>)
    ensures
        floor_views(r@) == floor_fields(floors@),
{
    let mut out: Vec<(String, u64)> = Vec::new();
    let mut i: usize = 0;
    while i < floors.len()
        invariant
            i <= floors@.len(),
            floor_views(out@) == floor_fields(floors@.take(i as int)),
        decreases floors@.len() - i,
    {
        let mut name = String::new();
        text::append_nat(&mut name, floors[i].0 as u128);
        proof {
            assert(name@ =~= text::nat_text(floors@[i as int].0 as nat));
        }
        let ghost before = out@;
        out.push((name, floors[i].1));
        proof {
            let f = (text::nat_text(floors@[i as int].0 as nat), floors@[i as int].1);
            assert(floor_views(out@) =~= floor_views(before).push(f));
            assert(floor_fields(floors@.take(i + 1)) =~= floor_fields(
                floors@.take(i as int),
            ).push(f));
            assert(floor_views(out@) =~= floor_fields(floors@.take(i + 1)));
        }
        i = i + 1;
    }
    proof {
        assert(floors@.take(i as int) =~= floors@);
    }
    out
}

/// The map that a list of publishers makes, later entries winning.
pub open spec fn floor_map(floors: Seq<(u16, u64)>) -> Map<u16, u64>
    decreases floors.len(),
{
    if floors.len() == 0 {
        Map::empty()
    } else {
        floor_map(floors.drop_last()).insert(floors.last().0, floors.last().1)
    }
}

/// Sequence numbers are read back as they were stored.
pub proof fn law_floors_read_back(floors: Seq<(u16, u64)>)
    ensures
        floors_in(floor_fields(floors)) == floor_map(floors),
    decreases floors.len(),
{
    if floors.len() > 0 {
        let d = floors.drop_last();
        law_floors_read_back(d);
        assert(floor_fields(floors).drop_last() =~= floor_fields(d));
        text::lemma_bounded_text(floors.last().0 as u64, u16::MAX as u64);
    }
}

/// The bucket that a stored field stands for: `user:operation` and
/// `tokens:last update`. Tokens are granted whole, so of a count with decimals
/// the whole ones are taken.
pub open spec fn bucket_in(name: Seq<char>, value: Seq<char>) -> Option<BucketState> {
    match (text::split_pair(name, ':'), text::split_pair(value, ':')) {
        (Some((uid, op)), Some((tokens, ts))) => match (
            text::i64_value(uid),
            text::bounded_value(op, u8::MAX as u64),
            decimal::count_in(tokens),
            text::bounded_value(ts, u64::MAX),
        ) {
            (Some(u), Some(o), Some(t), Some(at)) => Some((u, o as u8, t, at)),
            _ => None,
        },
        _ => None,
    }
}

/// The buckets that stored fields stand for; what cannot be read is left out.
pub open spec fn buckets_in(s: Seq<(Seq<char>, Seq<char>)>) -> Seq<BucketState>
    decreases s.len(),
{
    if s.len() == 0 {
        seq![]
    } else {
        let rest = buckets_in(s.drop_last());
        match bucket_in(s.last().0, s.last().1) {
            Some(b) => rest.push(b),
            None => rest,
        }
    }
}

fn parse_bucket(name: &str, value: &str) -> (r: Option<BucketState>)
    ensures
        r == bucket_in(name@, value@),
{
    let a = text::to_chars(name);
    let b = text::to_chars(value);
    let i = text::find_char(a.as_slice(), ':');
    let k = text::find_char(b.as_slice(), ':');
    if i >= a.len() || k >= b.len() {
        return None;
    }
    proof {
        assert(a@.subrange(0, i as int) =~= a@.take(i as int));
        assert(a@.subrange(i + 1, a@.len() as int) =~= a@.skip(i + 1));
        assert(b@.subrange(0, k as int) =~= b@.take(k as int));
        assert(b@.subrange(k + 1, b@.len() as int) =~= b@.skip(k + 1));
    }
    let uid = text::parse_i64_chars(vstd::slice::slice_subrange(a.as_slice(), 0, i))?;
    let op = text::parse_bounded_chars(
        vstd::slice::slice_subrange(a.as_slice(), i + 1, a.len()),
        255,
    )?;
    let tokens = decimal::parse_count(vstd::slice::slice_subrange(b.as_slice(), 0, k))?;
    let ts = text::parse_bounded_chars(
        vstd::slice::slice_subrange(b.as_slice(), k + 1, b.len()),
        u64::MAX,
    )?;
    Some((uid, op as u8, tokens, ts))
}

/// Reads stored rate-limit buckets.
pub fn load_rate_buckets(raw: &Vec<(String, String)>) -> (r: Vec<BucketState>)
    ensures
        r@ == buckets_in(pair_views(raw@)),
{
    let mut out: Vec<BucketState> = Vec::new();
    let mut i: usize = 0;
    let ghost rv = pair_views(raw@);
    proof {
        assert(rv.take(0) =~= seq![]);
    }
    while i < raw.len()
        invariant
            i <= raw@.len(),
            rv == pair_views(raw@),
            out@ == buckets_in(rv.take(i as int)),
        decreases raw@.len() - i,
    {
        proof {
            assert(rv.take(i + 1).drop_last() =~= rv.take(i as int));
            assert(rv.take(i + 1).last() == (raw@[i as int].0@, raw@[i as int].1@));
        }
        if let Some(b) = parse_bucket(raw[i].0.as_str(), raw[i].1.as_str()) {
            out.push(b);
        }
        i = i + 1;
    }
    proof {
        assert(rv.take(i as int) =~= rv);
    }
    out
}

/// The field that stores a bucket.
pub open spec fn bucket_field(b: BucketState) -> (Seq<char>, Seq<char>) {
    (
        text::int_text(b.0 as int).push(':') + text::nat_text(b.1 as nat),
        text::int_text(b.2 as int).push(':') + text::nat_text(b.3 as nat),
    )
}

pub open spec fn bucket_fields(s: Seq<BucketState>) -> Seq<(Seq<char>, Seq<char>)> {
    s.map_values(|b: BucketState| bucket_field(b))
}

/// The fields to be stored for rate-limit buckets.
pub fn store_rate_buckets(buckets: &Vec<BucketState>) -> (r: Vec<(String, String)>)
    ensures
        pair_views(r@) == bucket_fields(buckets@),
{
    let mut out: Vec<(String, String)> = Vec::new();
    let mut i: usize = 0;
    while i < buckets.len()
        invariant
            i <= buckets@.len(),
            pair_views(out@) == bucket_fields(buckets@.take(i as int)),
        decreases buckets@.len() - i,
    {
        let b = buckets[i];
        let mut name = make_number(b.0);
        name.push(':');
        text::append_nat(&mut name, b.1 as u128);
        let mut value = make_number(b.2);
        value.push(':');
        text::append_nat(&mut value, b.3 as u128);
        let ghost before = out@;
        proof {
            assert(name@ =~= bucket_field(b).0);
            assert(value@ =~= bucket_field(b).1);
        }
        out.push((name, value));
        proof {
            assert(pair_views(out@) =~= pair_views(before).push(bucket_field(b)));
            assert(bucket_fields(buckets@.take(i + 1)) =~= bucket_fields(
                buckets@.take(i as int),
            ).push(bucket_field(b)));
            assert(pair_views(out@) =~= bucket_fields(buckets@.take(i + 1)));
        }
        i = i + 1;
    }
    proof {
        assert(buckets@.take(i as int) =~= buckets@);
    }
    out
}

proof fn lemma_number_splits_off(n: i64, rest: Seq<char>)
    ensures
        text::split_pair(text::int_text(n as int).push(':') + rest, ':') == Some(
            (text::int_text(n as int), rest),
        ),
{
    let head = text::int_text(n as int);
    let s = head.push(':') + rest;
    let magnitude: nat = if n < 0 {
        (-(n as int)) as nat
    } else {
        n as nat
    };
    text::lemma_nat_text(magnitude);
    text::lemma_digits_lack(text::nat_text(magnitude), ':');
    assert forall|j: int| 0 <= j < head.len() implies s[j] != ':' by {
        assert(s[j] == head[j]);
        if n < 0 && j > 0 {
            assert(head[j] == text::nat_text(magnitude)[j - 1]);
        }
    }
    assert(s[head.len() as int] == ':');
    text::lemma_index_of_char_is(s, ':', head.len() as int);
    assert(s.take(head.len() as int) =~= head);
    assert(s.skip(head.len() as int + 1) =~= rest);
}

/// Rate-limit buckets are read back as they were stored.
pub proof fn law_buckets_read_back(buckets: Seq<BucketState>)
    ensures
        buckets_in(bucket_fields(buckets)) == buckets,
    decreases buckets.len(),
{
    if buckets.len() > 0 {
        let d = buckets.drop_last();
        let b = buckets.last();
        law_buckets_read_back(d);
        assert(bucket_fields(buckets).drop_last() =~= bucket_fields(d));
        lemma_number_splits_off(b.0, text::nat_text(b.1 as nat));
        lemma_number_splits_off(b.2, text::nat_text(b.3 as nat));
        text::lemma_int_text(b.0);
        text::lemma_int_text(b.2);
        decimal::law_integers_are_read_alike(text::int_text(b.2 as int));
        text::lemma_bounded_text(b.1 as u64, u8::MAX as u64);
        text::lemma_bounded_text(b.3, u64::MAX);
        assert(d.push(b) =~= buckets);
    }
}

proof fn lemma_pair_map(s: Seq<(Seq<char>, Seq<char>)>, i: int)
    requires
        0 <= i < s.len(),
        forall|j: int| i < j < s.len() ==> (#[trigger] s[j]).0 != s[i].0,
    ensures
        pair_map(s).contains_key(s[i].0),
        pair_map(s)[s[i].0] == s[i].1,
    decreases s.len(),
{
    if i < s.len() - 1 {
        let d = s.drop_last();
        assert forall|j: int| i < j < d.len() implies (#[trigger] d[j]).0 != d[i].0 by {
            assert(d[j] == s[j]);
        }
        lemma_pair_map(d, i);
        assert(s[s.len() - 1].0 != s[i].0);
    }
}

/// The place of a field in an order hash, by the length and second letter of
/// its name.
spec fn field_place(name: Seq<char>) -> int {
    if name.len() == 7 {
        0
    } else if name.len() == 6 && name[1] == 'y' {
        1
    } else if name.len() == 4 {
        2
    } else if name.len() == 10 {
        3
    } else if name.len() == 5 {
        4
    } else if name.len() == 3 {
        5
    } else if name.len() == 6 && name[1] == 'i' {
        6
    } else if name.len() == 6 && name[1] == 't' {
        7
    } else if name.len() == 12 {
        8
    } else if name.len() == 15 {
        9
    } else if name.len() == 13 && name[1] == 'r' {
        10
    } else if name.len() == 13 && name[1] == 'p' {
        11
    } else {
        -1
    }
}

/// The twelve fields of an order hash have different names.
proof fn lemma_field_names(h: HashView)
    ensures
        forall|i: int, j: int|
            0 <= i < j < h.fields().len() ==> (#[trigger] h.fields()[i]).0 != (
            #[trigger] h.fields()[j]).0,
{
    reveal_strlit("user_id");
    reveal_strlit("symbol");
    reveal_strlit("side");
    reveal_strlit("order_type");
    reveal_strlit("price");
    reveal_strlit("qty");
    reveal_strlit("filled");
    reveal_strlit("status");
    reveal_strlit("freeze_price");
    reveal_strlit("client_order_id");
    reveal_strlit("created_at_ms");
    reveal_strlit("updated_at_ms");
    let f = h.fields();
    assert(field_place(f[0].0) == 0);
    assert(field_place(f[1].0) == 1);
    assert(field_place(f[2].0) == 2);
    assert(field_place(f[3].0) == 3);
    assert(field_place(f[4].0) == 4);
    assert(field_place(f[5].0) == 5);
    assert(field_place(f[6].0) == 6);
    assert(field_place(f[7].0) == 7);
    assert(field_place(f[8].0) == 8);
    assert(field_place(f[9].0) == 9);
    assert(field_place(f[10].0) == 10);
    assert(field_place(f[11].0) == 11);
    assert forall|i: int, j: int| 0 <= i < j < f.len() implies (#[trigger] f[i]).0 != (
    #[trigger] f[j]).0 by {
        assert(field_place(f[i].0) == i);
        assert(field_place(f[j].0) == j);
    }
}

/// Every field of an order hash can be looked up.
proof fn lemma_order_fields(h: HashView, before: Map<Seq<char>, Seq<char>>)
    ensures
        ({
            let m = before.union_prefer_right(pair_map(h.fields()));
            forall|i: int|
                0 <= i < h.fields().len() ==> text_field(m, (#[trigger] h.fields()[i]).0) == Some(
                    h.fields()[i].1,
                )
        }),
{
    let m = before.union_prefer_right(pair_map(h.fields()));
    lemma_field_names(h);
    assert forall|i: int| 0 <= i < h.fields().len() implies text_field(
        m,
        (#[trigger] h.fields()[i]).0,
    ) == Some(h.fields()[i].1) by {
        lemma_pair_map(h.fields(), i);
    }
}

/// Keys of different records differ.
proof fn lemma_keys_differ(id: int, user: int)
    ensures
        numbered("order:"@, id) != numbered("user_coid:"@, user),
        numbered("order:"@, id) != numbered("user_orders:"@, user),
        numbered("order:"@, id) != KEY_ACTIVE_ORDERS@,
{
    reveal_strlit("order:");
    reveal_strlit("user_coid:");
    reveal_strlit("user_orders:");
    reveal_strlit("active_orders");
    assert(numbered("order:"@, id)[0] == 'o');
    assert(numbered("user_coid:"@, user)[0] == 'u');
    assert(numbered("user_orders:"@, user)[0] == 'u');
    assert(KEY_ACTIVE_ORDERS@[0] == 'a');
}

/// The hash of an order after it was stored.
proof fn lemma_stored_hash(store: StoreView, id: i64, h: HashView)
    ensures
        store.after_all(h.commands(id)).hash_at(numbered("order:"@, id as int)) == store.hash_at(
            numbered("order:"@, id as int),
        ).union_prefer_right(pair_map(h.fields())),
{
    reveal_with_fuel(StoreView::after_all, 5);
    lemma_keys_differ(id as int, h.user_id as int);
    let cs = h.commands(id);
    let base = cs.take(3);
    assert(base.drop_last().drop_last().drop_last() =~= seq![]);
    assert(base.drop_last().drop_last().last() == cs[0]);
    assert(base.drop_last().last() == cs[1]);
    assert(base.last() == cs[2]);
    if h.client_order_id.len() == 0 {
        assert(cs =~= base);
    } else {
        assert(cs.drop_last() =~= base);
    }
}

/// An amount's rendering is read as the amount.
proof fn lemma_plain_amount(atoms: i64)
    ensures
        decimal::atoms_in(money::amount_text(atoms as int)) == Some(atoms),
{
    money::law_decimal_round_trip(atoms);
    decimal::law_plain_amounts_are_read_alike(money::amount_text(atoms as int));
}

/// An order that was stored is read back as it was: every field, with an absent
/// price and an absent client order id told apart from present ones.
pub proof fn law_order_reads_back(store: StoreView, order: models::OrderView)
    requires
        order.price_atoms != Some(0i64),
        order.client_order_id is Some ==> (order.client_order_id->0).len() > 0,
        is_date(order.created_at_ms),
        is_date(order.updated_at_ms),
    ensures
        decoded(
            order.id,
            store.after_all(row_hash(order).commands(order.id)).hash_at(
                numbered("order:"@, order.id as int),
            ),
        ) == Some(order),
{
    let h = row_hash(order);
    let key = numbered("order:"@, order.id as int);
    lemma_stored_hash(store, order.id, h);
    let m = store.after_all(h.commands(order.id)).hash_at(key);
    lemma_order_fields(h, store.hash_at(key));
    let f = h.fields();
    assert(text_field(m, f[0].0) == Some(f[0].1));
    assert(text_field(m, f[1].0) == Some(f[1].1));
    assert(text_field(m, f[2].0) == Some(f[2].1));
    assert(text_field(m, f[3].0) == Some(f[3].1));
    assert(text_field(m, f[4].0) == Some(f[4].1));
    assert(text_field(m, f[5].0) == Some(f[5].1));
    assert(text_field(m, f[6].0) == Some(f[6].1));
    assert(text_field(m, f[7].0) == Some(f[7].1));
    assert(text_field(m, f[8].0) == Some(f[8].1));
    assert(text_field(m, f[9].0) == Some(f[9].1));
    assert(text_field(m, f[10].0) == Some(f[10].1));
    assert(text_field(m, f[11].0) == Some(f[11].1));
    text::lemma_int_text(order.user_id);
    text::lemma_int_text(order.created_at_ms);
    text::lemma_int_text(order.updated_at_ms);
    lemma_plain_amount(pg_store::or_zero(order.price_atoms));
    lemma_plain_amount(order.quantity_atoms);
    lemma_plain_amount(order.filled_atoms);
    lemma_plain_amount(order.freeze_price_atoms);
    assert(decoded(order.id, m)->0 =~= order);
}

/// The order that a frame stands for, where its row can be stored.
pub open spec fn order_of_row(row: pg_store::UpsertView) -> models::OrderView {
    models::OrderView {
        id: row.id,
        user_id: row.user_id,
        symbol: row.symbol,
        side: row.side,
        order_type: row.order_type,
        price_atoms: row.price_atoms,
        quantity_atoms: row.quantity_atoms,
        filled_atoms: row.filled_atoms,
        status: row.status,
        freeze_price_atoms: pg_store::or_zero(row.freeze_price_atoms),
        client_order_id: row.client_order_id,
        created_at_ms: row.created_at_ms,
        updated_at_ms: row.created_at_ms,
    }
}

/// The two stores agree: an order frame that becomes a row in the relational
/// store is read back from the cache as that same row.
pub proof fn law_stores_agree_on_frames(
    store: StoreView,
    p: OrderUpsertPayload,
    row: pg_store::UpsertView,
)
    requires
        pg_store::upsert_of(p) == Ok::<pg_store::UpsertView, pg_store::SkipReason>(row),
        p.freeze_price_atoms is Some,
    ensures
        decoded(
            p.id,
            store.after_all(upsert_commands(p)).hash_at(numbered("order:"@, p.id as int)),
        ) == Some(order_of_row(row)),
{
    let order = order_of_row(row);
    assert(upsert_hash(p)->0 =~= row_hash(order)) by {
        if row.client_order_id is None {
            assert(persist_event::unpacked(p.client_order_id@) =~= seq![]);
        }
    }
    law_order_reads_back(store, order);
}

/// A row lost in the relational store is recovered from the cache: the hash of
/// an order frame makes the very row that the frame made.
pub proof fn law_backfill_restores_row(
    store: StoreView,
    p: OrderUpsertPayload,
    row: pg_store::UpsertView,
)
    requires
        pg_store::upsert_of(p) == Ok::<pg_store::UpsertView, pg_store::SkipReason>(row),
        p.freeze_price_atoms is Some,
    ensures
        pg_store::backfill_of(
            p.id,
            store.after_all(upsert_commands(p)).hash_at(numbered("order:"@, p.id as int)),
        ) == Some(row),
{
    law_stores_agree_on_frames(store, p, row);
    let m = store.after_all(upsert_commands(p)).hash_at(numbered("order:"@, p.id as int));
    assert(decoded(p.id, m) == Some(order_of_row(row)));
    assert(pg_store::backfill_of(p.id, m)->0 =~= row);
}

/// Storing an order twice is the same as storing it once.
pub proof fn law_upsert_is_idempotent(store: StoreView, id: i64, h: HashView)
    ensures
        store.after_all(h.commands(id)).after_all(h.commands(id)) == store.after_all(
            h.commands(id),
        ),
{
    reveal_with_fuel(StoreView::after_all, 5);
    lemma_keys_differ(id as int, h.user_id as int);
    let cs = h.commands(id);
    let base = cs.take(3);
    assert(base.drop_last().drop_last().drop_last() =~= seq![]);
    assert(base.drop_last().drop_last().last() == cs[0]);
    assert(base.drop_last().last() == cs[1]);
    assert(base.last() == cs[2]);
    let once = store.after_all(cs);
    let order_key = numbered("order:"@, id as int);
    let coid_key = numbered("user_coid:"@, h.user_id as int);
    let fields = pair_map(h.fields());
    let entry = pair_map(seq![(h.client_order_id, text::int_text(id as int))]);
    assert(store.hash_at(order_key).union_prefer_right(fields).union_prefer_right(fields)
        =~= store.hash_at(order_key).union_prefer_right(fields));
    assert(store.hash_at(coid_key).union_prefer_right(entry).union_prefer_right(entry)
        =~= store.hash_at(coid_key).union_prefer_right(entry));
    if h.client_order_id.len() == 0 {
        assert(cs =~= base);
    } else {
        assert(cs.drop_last() =~= base);
    }
    let twice = once.after_all(cs);
    assert(twice.hashes =~= once.hashes);
    let member = text::int_text(id as int);
    let users_key = numbered("user_orders:"@, h.user_id as int);
    assert(once.set_at(KEY_ACTIVE_ORDERS@).insert(member) =~= once.set_at(KEY_ACTIVE_ORDERS@));
    assert(once.set_at(users_key).insert(member) =~= once.set_at(users_key));
    assert(twice.sets =~= once.sets);
}

/// Storing an account twice is the same as storing it once.
pub proof fn law_account_set_is_idempotent(
    store: StoreView,
    user_id: i64,
    asset: Seq<char>,
    balance_atoms: i64,
    frozen_atoms: i64,
)
    ensures
        ({
            let cs = account_commands(user_id, asset, balance_atoms, frozen_atoms);
            store.after_all(cs).after_all(cs) == store.after_all(cs)
        }),
{
    reveal_with_fuel(StoreView::after_all, 3);
    let cs = account_commands(user_id, asset, balance_atoms, frozen_atoms);
    let once = store.after_all(cs);
    assert(cs.drop_last().drop_last() =~= seq![]);
    assert(cs.drop_last().last() == cs[0]);
    let fields = pair_map(cs[0]->fields);
    let key = account_key(user_id, asset);
    assert(store.hash_at(key).union_prefer_right(fields).union_prefer_right(fields)
        =~= store.hash_at(key).union_prefer_right(fields));
    let set_key = numbered("user_assets:"@, user_id as int);
    assert(once.set_at(set_key).insert(asset) =~= once.set_at(set_key));
    let twice = once.after_all(cs);
    assert(twice.hashes =~= once.hashes);
    assert(twice.sets =~= once.sets);
}

/// Removing an order takes away its hash and its entries in every index.
pub proof fn law_delete_removes_order(store: StoreView, id: i64, user_id: i64, coid: Seq<char>)
    ensures
        ({
            let s = store.after_all(
                delete_commands(id, Some(text::int_text(user_id as int)), Some(coid)),
            );
            let member = text::int_text(id as int);
            &&& decoded(id, s.hash_at(numbered("order:"@, id as int))) is None
            &&& !s.set_at(KEY_ACTIVE_ORDERS@).contains(member)
            &&& !s.set_at(numbered("user_orders:"@, user_id as int)).contains(member)
            &&& coid.len() > 0 ==> !s.hash_at(
                numbered("user_coid:"@, user_id as int),
            ).contains_key(coid)
        }),
{
    reveal_with_fuel(StoreView::after_all, 5);
    text::lemma_int_text(user_id);
    lemma_keys_differ(id as int, user_id as int);
    let cs = delete_commands(id, Some(text::int_text(user_id as int)), Some(coid));
    let base = cs.take(3);
    assert(base.drop_last().drop_last().drop_last() =~= seq![]);
    assert(base.drop_last().drop_last().last() == cs[0]);
    assert(base.drop_last().last() == cs[1]);
    assert(base.last() == cs[2]);
    if coid.len() == 0 {
        assert(cs =~= base);
    } else {
        assert(cs.drop_last() =~= base);
    }
}

/// An account that was stored is read back as it was, and stands among its
/// user's assets.
pub proof fn law_account_reads_back(
    store: StoreView,
    user_id: i64,
    asset: Seq<char>,
    balance_atoms: i64,
    frozen_atoms: i64,
)
    ensures
        ({
            let s = store.after_all(
                account_commands(user_id, asset, balance_atoms, frozen_atoms),
            );
            let m = s.hash_at(account_key(user_id, asset));
            &&& decoded_account(asset, m) == Some((asset, balance_atoms, frozen_atoms))
            &&& number_field(m, "balance_atoms"@) == Some(balance_atoms)
            &&& number_field(m, "frozen_atoms"@) == Some(frozen_atoms)
            &&& s.set_at(numbered("user_assets:"@, user_id as int)).contains(asset)
        }),
{
    reveal_with_fuel(StoreView::after_all, 3);
    reveal_strlit("balance");
    reveal_strlit("frozen");
    reveal_strlit("balance_atoms");
    reveal_strlit("frozen_atoms");
    let cs = account_commands(user_id, asset, balance_atoms, frozen_atoms);
    assert(cs.drop_last().drop_last() =~= seq![]);
    assert(cs.drop_last().last() == cs[0]);
    let f = cs[0]->fields;
    assert(f[0].0.len() == 7 && f[1].0.len() == 6 && f[2].0.len() == 13 && f[3].0.len() == 12);
    lemma_pair_map(f, 0);
    lemma_pair_map(f, 1);
    lemma_pair_map(f, 2);
    lemma_pair_map(f, 3);
    lemma_plain_amount(balance_atoms);
    lemma_plain_amount(frozen_atoms);
    text::lemma_int_text(balance_atoms);
    text::lemma_int_text(frozen_atoms);
}

/// A stored order is found in every index: among the active orders, among its
/// user's, and by its client order id where it has one.
pub proof fn law_upsert_lists_the_order(store: StoreView, id: i64, h: HashView)
    ensures
        ({
            let s = store.after_all(h.commands(id));
            let member = text::int_text(id as int);
            let coids = s.hash_at(numbered("user_coid:"@, h.user_id as int));
            &&& s.set_at(KEY_ACTIVE_ORDERS@).contains(member)
            &&& s.set_at(numbered("user_orders:"@, h.user_id as int)).contains(member)
            &&& h.client_order_id.len() > 0 ==> number_field(coids, h.client_order_id) == Some(id)
            &&& h.client_order_id.len() == 0 ==> coids == store.hash_at(
                numbered("user_coid:"@, h.user_id as int),
            )
        }),
{
    reveal_with_fuel(StoreView::after_all, 5);
    reveal_with_fuel(pair_map, 2);
    lemma_keys_differ(id as int, h.user_id as int);
    text::lemma_int_text(id);
    let cs = h.commands(id);
    let base = cs.take(3);
    assert(base.drop_last().drop_last().drop_last() =~= seq![]);
    assert(base.drop_last().drop_last().last() == cs[0]);
    assert(base.drop_last().last() == cs[1]);
    assert(base.last() == cs[2]);
    if h.client_order_id.len() == 0 {
        assert(cs =~= base);
    } else {
        assert(cs.drop_last() =~= base);
        lemma_pair_map(cs[3]->fields, 0);
    }
}

/// A fill of a stored order sets how much is filled, the status and the time of
/// the change, and leaves the order's other fields and all else alone. An order
/// that is not stored, or a status that is not known, changes nothing.
pub proof fn law_fill_updates_three_fields(
    store: StoreView,
    p: OrderFillUpdatePayload,
    now_ms: i64,
    other: Seq<char>,
    field: Seq<char>,
)
    requires
        field != "filled"@,
        field != "status"@,
        field != "updated_at_ms"@,
        other != numbered("order:"@, p.id as int),
    ensures
        fill_commands(p, false, now_ms) == Seq::<CommandView>::empty(),
        p.status >= 5 ==> fill_commands(p, true, now_ms) == Seq::<CommandView>::empty(),
        p.status < 5 ==> {
            let key = numbered("order:"@, p.id as int);
            let s = store.after_all(fill_commands(p, true, now_ms));
            let m = s.hash_at(key);
            &&& (p.filled_atoms matches Some(a) ==> decimal_field(m, "filled"@) == Some(a))
            &&& text_field(m, "status"@) == pg_store::status_name(p.status)
            &&& number_field(m, "updated_at_ms"@) == Some(now_ms)
            &&& text_field(m, field) == text_field(store.hash_at(key), field)
            &&& s.hash_at(other) == store.hash_at(other)
            &&& s.sets == store.sets
        },
{
    if p.status < 5 {
        reveal_with_fuel(StoreView::after_all, 2);
        reveal_with_fuel(pair_map, 4);
        reveal_strlit("filled");
        reveal_strlit("status");
        reveal_strlit("updated_at_ms");
        let cs = fill_commands(p, true, now_ms);
        assert(cs.drop_last() =~= seq![]);
        let f = cs[0]->fields;
        assert(f[0].0[0] == 'f' && f[1].0[0] == 's' && f[2].0[0] == 'u');
        lemma_pair_map(f, 0);
        lemma_pair_map(f, 1);
        lemma_pair_map(f, 2);
        assert(f.drop_last().drop_last().drop_last() =~= seq![]);
        assert(!pair_map(f).contains_key(field));
        if p.filled_atoms is Some {
            lemma_plain_amount(p.filled_atoms->0);
        }
        text::lemma_int_text(now_ms);
    }
}

/// Those orders are listed that can be read, are still open and are of the
/// symbol asked for, where one is.
#[verifier::spinoff_prover]
#[verifier::rlimit(60)]
pub proof fn law_listing_has_the_open_orders(
    ids: Seq<i64>,
    hashes: Seq<Map<Seq<char>, Seq<char>>>,
    symbol: Option<Seq<char>>,
    o: models::OrderView,
)
    requires
        ids.len() <= hashes.len(),
    ensures
        matching_orders(ids, hashes, symbol).contains(o) <==> ({
            &&& exists|i: int| 0 <= i < ids.len() && #[trigger] decoded(ids[i], hashes[i]) == Some(o)
            &&& o.status == "PENDING"@ || o.status == "TRADING"@
            &&& symbol is Some ==> o.symbol == symbol->0
        }),
    decreases ids.len(),
{
    if ids.len() > 0 {
        let d = ids.drop_last();
        let n = ids.len() - 1;
        law_listing_has_the_open_orders(d, hashes, symbol, o);
        let rest = matching_orders(d, hashes, symbol);
        let all = matching_orders(ids, hashes, symbol);
        if rest.contains(o) {
            let j = choose|j: int| 0 <= j < rest.len() && rest[j] == o;
            assert(all[j] == o);
            let i = choose|i: int| 0 <= i < d.len() && #[trigger] decoded(d[i], hashes[i]) == Some(o);
            assert(decoded(ids[i], hashes[i]) == Some(o));
        }
        if all.contains(o) && !rest.contains(o) {
            let j = choose|j: int| 0 <= j < all.len() && all[j] == o;
            assert(j < rest.len() ==> rest[j] == o);
            assert(decoded(ids[n], hashes[n]) == Some(o));
        }
        if exists|i: int| 0 <= i < ids.len() && #[trigger] decoded(ids[i], hashes[i]) == Some(o) {
            let i = choose|i: int|
                0 <= i < ids.len() && #[trigger] decoded(ids[i], hashes[i]) == Some(o);
            if i < n {
                assert(decoded(d[i], hashes[i]) == Some(o));
            } else if is_open(o) && (symbol is None || o.symbol == symbol->0) {
                assert(all[all.len() - 1] == o);
            }
        }
    }
}

/// The commands take keys and members away and put nothing in.
pub open spec fn only_removes(cs: Seq<CommandView>) -> bool {
    forall|i: int|
        0 <= i < cs.len() ==> !((#[trigger] cs[i]) is SetFields) && !(cs[i] is AddMember)
}

/// Where commands only take away, a key that one of them deletes is gone, and a
/// member that one of them takes out of a set is out.
pub proof fn law_what_is_removed_stays_removed(
    store: StoreView,
    cs: Seq<CommandView>,
    key: Seq<char>,
    member: Seq<char>,
)
    requires
        only_removes(cs),
    ensures
        cs.contains(CommandView::Delete { key }) ==> store.after_all(cs).hash_at(key) == Map::<
            Seq<char>,
            Seq<char>,
        >::empty() && store.after_all(cs).set_at(key) == Set::<Seq<char>>::empty(),
        cs.contains(CommandView::RemoveMember { key, member }) ==> !store.after_all(cs).set_at(
            key,
        ).contains(member),
    decreases cs.len(),
{
    if cs.len() > 0 {
        let d = cs.drop_last();
        let c = cs.last();
        let s = store.after_all(d);
        assert(c == cs[cs.len() - 1]);
        assert forall|i: int| 0 <= i < d.len() implies !((#[trigger] d[i]) is SetFields) && !(
        d[i] is AddMember) by {
            assert(d[i] == cs[i]);
        }
        law_what_is_removed_stays_removed(store, d, key, member);
        let delete = CommandView::Delete { key };
        let remove = CommandView::RemoveMember { key, member };
        if cs.contains(delete) && c != delete {
            let i = choose|i: int| 0 <= i < cs.len() && cs[i] == delete;
            assert(d[i] == delete);
            assert(s.after(c).hash_at(key) =~= Map::<Seq<char>, Seq<char>>::empty());
            assert(s.after(c).set_at(key) =~= Set::<Seq<char>>::empty());
        }
        if cs.contains(remove) && c != remove {
            let i = choose|i: int| 0 <= i < cs.len() && cs[i] == remove;
            assert(d[i] == remove);
        }
    }
}

proof fn lemma_sweeps(
    holdings: Seq<(i64, Seq<Seq<char>>)>,
    users: Seq<i64>,
)
    ensures
        only_removes(holding_sweep(holdings)),
        only_removes(user_sweep(users)),
        forall|h: int, a: int|
            0 <= h < holdings.len() && 0 <= a < holdings[h].1.len() ==> holding_sweep(
                holdings,
            ).contains(CommandView::Delete { key: #[trigger] account_key(holdings[h].0, holdings[h].1[a]) }),
        forall|u: int|
            0 <= u < users.len() ==> {
                let uid = #[trigger] users[u] as int;
                &&& user_sweep(users).contains(
                    CommandView::Delete { key: numbered("user_orders:"@, uid) },
                )
                &&& user_sweep(users).contains(
                    CommandView::Delete { key: numbered("user_coid:"@, uid) },
                )
                &&& user_sweep(users).contains(
                    CommandView::Delete { key: numbered("user_assets:"@, uid) },
                )
            },
    decreases holdings.len() + users.len(),
{
    broadcast use vstd::seq_lib::group_seq_properties;

    if holdings.len() > 0 {
        let d = holdings.drop_last();
        let l = holdings.last();
        lemma_sweeps(d, seq![]);
        let before = holding_sweep(d);
        let mine = asset_sweep(l.0, l.1);
        let all = holding_sweep(holdings);
        assert(all == before + mine);
        assert forall|i: int| 0 <= i < all.len() implies !((#[trigger] all[i]) is SetFields) && !(
        all[i] is AddMember) by {
            if i < before.len() {
                assert(all[i] == before[i]);
            } else {
                assert(all[i] == mine[i - before.len()]);
            }
        }
        assert forall|h: int, a: int| 0 <= h < holdings.len() && 0 <= a < holdings[h].1.len() implies all.contains(
            CommandView::Delete { key: #[trigger] account_key(holdings[h].0, holdings[h].1[a]) },
        ) by {
            let c = CommandView::Delete { key: account_key(holdings[h].0, holdings[h].1[a]) };
            if h < d.len() {
                assert(d[h] == holdings[h]);
                assert(before.contains(CommandView::Delete { key: account_key(d[h].0, d[h].1[a]) }));
                let i = choose|i: int| 0 <= i < before.len() && before[i] == c;
                assert(all[i] == c);
            } else {
                assert(mine[a] == c);
                assert(all[before.len() + a] == c);
            }
        }
    }
    if users.len() > 0 {
        let d = users.drop_last();
        lemma_sweeps(seq![], d);
        let before = user_sweep(d);
        let all = user_sweep(users);
        let n = before.len() as int;
        assert forall|i: int| 0 <= i < all.len() implies !((#[trigger] all[i]) is SetFields) && !(
        all[i] is AddMember) by {
            if i < n {
                assert(all[i] == before[i]);
            }
        }
        assert forall|u: int| 0 <= u < users.len() implies {
            let uid = #[trigger] users[u] as int;
            &&& all.contains(CommandView::Delete { key: numbered("user_orders:"@, uid) })
            &&& all.contains(CommandView::Delete { key: numbered("user_coid:"@, uid) })
            &&& all.contains(CommandView::Delete { key: numbered("user_assets:"@, uid) })
        } by {
            let uid = users[u] as int;
            let a = CommandView::Delete { key: numbered("user_orders:"@, uid) };
            let b = CommandView::Delete { key: numbered("user_coid:"@, uid) };
            let c = CommandView::Delete { key: numbered("user_assets:"@, uid) };
            if u < d.len() {
                assert(d[u] == users[u]);
                let i = choose|i: int| 0 <= i < before.len() && before[i] == a;
                assert(all[i] == a);
                let i = choose|i: int| 0 <= i < before.len() && before[i] == b;
                assert(all[i] == b);
                let i = choose|i: int| 0 <= i < before.len() && before[i] == c;
                assert(all[i] == c);
            } else {
                assert(all[n] == a);
                assert(all[n + 1] == b);
                assert(all[n + 2] == c);
            }
        }
    }
}

/// After a purge nothing is left of the orders, the accounts and the users that
/// it was told of, nor of the index of active orders.
pub proof fn law_purge_leaves_nothing(
    store: StoreView,
    ids: Seq<i64>,
    holdings: Seq<(i64, Seq<Seq<char>>)>,
    users: Seq<i64>,
    i: int,
    h: int,
    a: int,
    u: int,
)
    requires
        0 <= i < ids.len(),
        0 <= h < holdings.len(),
        0 <= a < holdings[h].1.len(),
        0 <= u < users.len(),
    ensures
        ({
            let s = store.after_all(purge_commands(ids, holdings, users));
            &&& s.hash_at(numbered("order:"@, ids[i] as int)) == Map::<Seq<char>, Seq<char>>::empty()
            &&& s.set_at(KEY_ACTIVE_ORDERS@) == Set::<Seq<char>>::empty()
            &&& s.hash_at(account_key(holdings[h].0, holdings[h].1[a])) == Map::<
                Seq<char>,
                Seq<char>,
            >::empty()
            &&& s.set_at(numbered("user_orders:"@, users[u] as int)) == Set::<Seq<char>>::empty()
            &&& s.hash_at(numbered("user_coid:"@, users[u] as int)) == Map::<
                Seq<char>,
                Seq<char>,
            >::empty()
            &&& s.set_at(numbered("user_assets:"@, users[u] as int)) == Set::<Seq<char>>::empty()
        }),
{
    lemma_sweeps(holdings, users);
    let cs = purge_commands(ids, holdings, users);
    let first = order_sweep(ids).push(CommandView::Delete { key: KEY_ACTIVE_ORDERS@ });
    let second = holding_sweep(holdings);
    let third = user_sweep(users);
    let n = first.len() as int;
    let k = n + second.len();
    assert(cs =~= first + second + third);
    assert forall|j: int| 0 <= j < cs.len() implies !((#[trigger] cs[j]) is SetFields) && !(
    cs[j] is AddMember) by {
        if j < n {
            assert(cs[j] == first[j]);
        } else if j < k {
            assert(cs[j] == second[j - n]);
        } else {
            assert(cs[j] == third[j - k]);
        }
    }
    assert(cs[i] == CommandView::Delete { key: numbered("order:"@, ids[i] as int) });
    assert(cs[n - 1] == CommandView::Delete { key: KEY_ACTIVE_ORDERS@ });
    let account = account_key(holdings[h].0, holdings[h].1[a]);
    lemma_within(first, second, third, CommandView::Delete { key: account });
    let uid = users[u] as int;
    let orders = numbered("user_orders:"@, uid);
    let coids = numbered("user_coid:"@, uid);
    let assets = numbered("user_assets:"@, uid);
    lemma_within(first, second, third, CommandView::Delete { key: orders });
    lemma_within(first, second, third, CommandView::Delete { key: coids });
    lemma_within(first, second, third, CommandView::Delete { key: assets });
    law_what_is_removed_stays_removed(store, cs, numbered("order:"@, ids[i] as int), seq![]);
    law_what_is_removed_stays_removed(store, cs, KEY_ACTIVE_ORDERS@, seq![]);
    law_what_is_removed_stays_removed(store, cs, account, seq![]);
    law_what_is_removed_stays_removed(store, cs, orders, seq![]);
    law_what_is_removed_stays_removed(store, cs, coids, seq![]);
    law_what_is_removed_stays_removed(store, cs, assets, seq![]);
}

proof fn lemma_within(
    first: Seq<CommandView>,
    second: Seq<CommandView>,
    third: Seq<CommandView>,
    c: CommandView,
)
    ensures
        second.contains(c) || third.contains(c) ==> (first + second + third).contains(c),
{
    let all = first + second + third;
    if second.contains(c) {
        let i = choose|i: int| 0 <= i < second.len() && second[i] == c;
        assert(all[first.len() + i] == c);
    }
    if third.contains(c) {
        let i = choose|i: int| 0 <= i < third.len() && third[i] == c;
        assert(all[first.len() + second.len() + i] == c);
    }
}

/// Orders that the relational store does not know are taken out of the cache
/// with all their entries, and so are the ids that a set holds of no order.
pub proof fn law_strays_are_taken_out(store: StoreView, set_key: Seq<char>, ids: Seq<i64>, k: int)
    requires
        0 <= k < ids.len(),
    ensures
        ({
            let s = store.after_all(stray_commands(set_key, ids));
            let member = text::int_text(ids[k] as int);
            &&& s.hash_at(numbered("order:"@, ids[k] as int)) == Map::<Seq<char>, Seq<char>>::empty()
            &&& !s.set_at(KEY_ACTIVE_ORDERS@).contains(member)
            &&& !s.set_at(set_key).contains(member)
        }),
{
    let cs = stray_commands(set_key, ids);
    let member = text::int_text(ids[k] as int);
    let key = numbered("order:"@, ids[k] as int);
    lemma_strays(set_key, ids, k);
    law_what_is_removed_stays_removed(store, cs, key, member);
    law_what_is_removed_stays_removed(store, cs, KEY_ACTIVE_ORDERS@, member);
    law_what_is_removed_stays_removed(store, cs, set_key, member);
}

proof fn lemma_strays(set_key: Seq<char>, ids: Seq<i64>, k: int)
    ensures
        only_removes(stray_commands(set_key, ids)),
        0 <= k < ids.len() ==> {
            let cs = stray_commands(set_key, ids);
            let member = text::int_text(ids[k] as int);
            &&& cs.contains(CommandView::Delete { key: numbered("order:"@, ids[k] as int) })
            &&& cs.contains(CommandView::RemoveMember { key: KEY_ACTIVE_ORDERS@, member })
            &&& cs.contains(CommandView::RemoveMember { key: set_key, member })
        },
    decreases ids.len(),
{
    if ids.len() > 0 {
        let d = ids.drop_last();
        lemma_strays(set_key, d, k);
        let before = stray_commands(set_key, d);
        let cs = stray_commands(set_key, ids);
        let n = before.len() as int;
        assert forall|i: int| 0 <= i < cs.len() implies !((#[trigger] cs[i]) is SetFields) && !(
        cs[i] is AddMember) by {
            if i < n {
                assert(cs[i] == before[i]);
            }
        }
        if 0 <= k < ids.len() {
            let member = text::int_text(ids[k] as int);
            let a = CommandView::Delete { key: numbered("order:"@, ids[k] as int) };
            let b = CommandView::RemoveMember { key: KEY_ACTIVE_ORDERS@, member };
            let c = CommandView::RemoveMember { key: set_key, member };
            if k < d.len() {
                assert(d[k] == ids[k]);
                let i = choose|i: int| 0 <= i < before.len() && before[i] == a;
                assert(cs[i] == a);
                let i = choose|i: int| 0 <= i < before.len() && before[i] == b;
                assert(cs[i] == b);
                let i = choose|i: int| 0 <= i < before.len() && before[i] == c;
                assert(cs[i] == c);
            } else {
                assert(cs[n] == c);
                assert(cs[n + 1] == b);
                assert(cs[n + 2] == a);
            }
        }
    }
}

/// How many of the flags are down.
pub open spec fn count_lost(stored: Seq<bool>) -> nat
    decreases stored.len(),
{
    if stored.len() == 0 {
        0
    } else {
        count_lost(stored.drop_last()) + (if stored.last() {
            0nat
        } else {
            1nat
        })
    }
}

/// Exactly those cached accounts are taken out that the relational store has
/// lost, and they are counted.
pub proof fn law_lost_accounts_are_taken_out(
    accounts: Seq<(i64, Seq<char>)>,
    stored: Seq<bool>,
    user_id: i64,
    asset: Seq<char>,
)
    requires
        accounts.len() == stored.len(),
    ensures
        lost_accounts(accounts, stored).1 == count_lost(stored),
        only_removes(lost_accounts(accounts, stored).0),
        lost_accounts(accounts, stored).0.contains(
            CommandView::Delete { key: account_key(user_id, asset) },
        ) <==> exists|i: int|
            0 <= i < accounts.len() && #[trigger] accounts[i] == (user_id, asset) && !stored[i],
{
    assert(stored.take(accounts.len() as int) =~= stored);
    lemma_lost(accounts, stored, user_id, asset);
}

proof fn lemma_lost(
    accounts: Seq<(i64, Seq<char>)>,
    stored: Seq<bool>,
    user_id: i64,
    asset: Seq<char>,
)
    requires
        accounts.len() <= stored.len(),
    ensures
        lost_accounts(accounts, stored).1 == count_lost(stored.take(accounts.len() as int)),
        only_removes(lost_accounts(accounts, stored).0),
        lost_accounts(accounts, stored).0.contains(
            CommandView::Delete { key: account_key(user_id, asset) },
        ) <==> exists|i: int|
            0 <= i < accounts.len() && #[trigger] accounts[i] == (user_id, asset) && !stored[i],
    decreases accounts.len(),
{
    let c = CommandView::Delete { key: account_key(user_id, asset) };
    if accounts.len() > 0 {
        let d = accounts.drop_last();
        let n = accounts.len() - 1;
        lemma_lost(d, stored, user_id, asset);
        assert(stored.take(accounts.len() as int).drop_last() =~= stored.take(n));
        let before = lost_accounts(d, stored).0;
        let all = lost_accounts(accounts, stored).0;
        let m = before.len() as int;
        assert forall|i: int| 0 <= i < all.len() implies !((#[trigger] all[i]) is SetFields) && !(
        all[i] is AddMember) by {
            if i < m {
                assert(all[i] == before[i]);
            }
        }
        law_account_key_reads_back(user_id, asset);
        law_account_key_reads_back(accounts[n].0, accounts[n].1);
        if before.contains(c) {
            let i = choose|i: int| 0 <= i < before.len() && before[i] == c;
            assert(all[i] == c);
            let i = choose|i: int|
                0 <= i < d.len() && #[trigger] d[i] == (user_id, asset) && !stored[i];
            assert(accounts[i] == d[i]);
        }
        if !stored[n] && accounts[n] == (user_id, asset) {
            assert(all[m] == c);
        }
        if all.contains(c) && !before.contains(c) {
            let i = choose|i: int| 0 <= i < all.len() && all[i] == c;
            assert(i < m ==> before[i] == c);
            assert(accounts[n] == (user_id, asset));
        }
        if exists|i: int|
            0 <= i < accounts.len() && #[trigger] accounts[i] == (user_id, asset) && !stored[i] {
            let i = choose|i: int|
                0 <= i < accounts.len() && #[trigger] accounts[i] == (user_id, asset)
                    && !stored[i];
            if i < n {
                assert(d[i] == accounts[i]);
            }
        }
    } else {
        assert(stored.take(0) =~= seq![]);
    }
}

/// The holder of assets is read back from the key that they stand under.
pub proof fn law_holder_key_reads_back(user_id: i64)
    ensures
        holder_in_key(numbered("user_assets:"@, user_id as int)) == Some(user_id),
{
    let key = numbered("user_assets:"@, user_id as int);
    let n = "user_assets:"@.len() as int;
    assert(key.take(n) =~= "user_assets:"@);
    assert(key.skip(n) =~= text::int_text(user_id as int));
    text::lemma_int_text(user_id);
}

/// A load writes a hash for every order and for every account.
pub proof fn law_load_writes_every_record(
    orders: Seq<models::OrderView>,
    rows: Seq<(i64, Seq<char>, i64, i64)>,
    i: int,
    k: int,
)
    ensures
        0 <= i < orders.len() ==> order_load(orders).contains(
            CommandView::SetFields {
                key: numbered("order:"@, orders[i].id as int),
                fields: row_hash(orders[i]).fields(),
            },
        ),
        0 <= k < rows.len() ==> account_load(rows).contains(
            account_commands(rows[k].0, rows[k].1, rows[k].2, rows[k].3)[0],
        ),
    decreases orders.len() + rows.len(),
{
    if 0 <= i < orders.len() {
        let d = orders.drop_last();
        let before = order_load(d);
        let mine = row_hash(orders.last()).commands(orders.last().id);
        let all = order_load(orders);
        let c = CommandView::SetFields {
            key: numbered("order:"@, orders[i].id as int),
            fields: row_hash(orders[i]).fields(),
        };
        if i < d.len() {
            law_load_writes_every_record(d, seq![], i, 0);
            assert(d[i] == orders[i]);
            let j = choose|j: int| 0 <= j < before.len() && before[j] == c;
            assert(all[j] == c);
        } else {
            assert(mine[0] == c);
            assert(all[before.len() as int] == c);
        }
    }
    if 0 <= k < rows.len() {
        let d = rows.drop_last();
        let before = account_load(d);
        let all = account_load(rows);
        let c = account_commands(rows[k].0, rows[k].1, rows[k].2, rows[k].3)[0];
        if k < d.len() {
            law_load_writes_every_record(seq![], d, 0, k);
            assert(d[k] == rows[k]);
            let j = choose|j: int| 0 <= j < before.len() && before[j] == c;
            assert(all[j] == c);
        } else {
            assert(all[before.len() as int] == c);
        }
    }
}

} // verus!
