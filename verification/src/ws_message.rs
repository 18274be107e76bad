//! Messages of a client. A message is JSON text; the two frequent kinds are
//! read by scanning for their fields, the others through a JSON parser.
use crate::decimal;
use crate::text;
use vstd::prelude::*;

verus! {

/// Whether the quoted `key` stands at position `p`.
pub open spec fn is_key_at(s: Seq<char>, key: Seq<char>, p: int) -> bool {
    &&& 0 <= p
    &&& p + key.len() + 2 <= s.len()
    &&& s[p] == '"'
    &&& s.subrange(p + 1, p + 1 + key.len()) == key
    &&& s[p + 1 + key.len()] == '"'
}

/// The first position from `from` on at which the quoted `key` stands.
pub open spec fn key_from(s: Seq<char>, key: Seq<char>, from: int) -> Option<int>
    decreases s.len() - from,
{
    if from >= s.len() {
        None
    } else if is_key_at(s, key, from) {
        Some(from)
    } else {
        key_from(s, key, from + 1)
    }
}

/// What stands behind the colon after the first quoted `key`.
pub open spec fn value_text(s: Seq<char>, key: Seq<char>) -> Option<Seq<char>> {
    match key_from(s, key, 0) {
        Some(p) => {
            let rest = text::trim_start(s.skip(p + key.len() + 2));
            if rest.len() > 0 && rest[0] == ':' {
                Some(text::trim_start(rest.skip(1)))
            } else {
                None
            }
        },
        None => None,
    }
}

/// The text between the quotes of a field, taken as it stands.
pub open spec fn str_field(s: Seq<char>, key: Seq<char>) -> Option<Seq<char>> {
    match value_text(s, key) {
        Some(v) => if v.len() > 0 && v[0] == '"' {
            match text::split_pair(v.skip(1), '"') {
                Some(p) => Some(p.0),
                None => None,
            }
        } else {
            None
        },
        None => None,
    }
}

pub open spec fn integer_char(c: char) -> bool {
    text::is_digit(c) || c == '-'
}

pub open spec fn number_char(c: char) -> bool {
    text::is_digit(c) || c == '.' || c == '-' || c == '+' || c == 'e' || c == 'E'
}

/// How many characters of a kind a text starts with.
pub open spec fn run_len(s: Seq<char>, kind: spec_fn(char) -> bool) -> int
    decreases s.len(),
{
    if s.len() == 0 || !kind(s[0]) {
        0
    } else {
        1 + run_len(s.drop_first(), kind)
    }
}

/// The integer of a field.
pub open spec fn i64_field(s: Seq<char>, key: Seq<char>) -> Option<i64> {
    match value_text(s, key) {
        Some(v) => text::i64_value(v.take(run_len(v, |c: char| integer_char(c)))),
        None => None,
    }
}

/// The text of the number of a field.
pub open spec fn number_field(s: Seq<char>, key: Seq<char>) -> Option<Seq<char>> {
    match value_text(s, key) {
        Some(v) => {
            let run = v.take(run_len(v, |c: char| number_char(c)));
            if decimal::is_number(run) {
                Some(run)
            } else {
                None
            }
        },
        None => None,
    }
}

fn key_at(chars: &[char], key: &[char], p: usize) -> (r: bool)
    requires
        p < chars@.len(),
    ensures
        r == is_key_at(chars@, key@, p as int),
{
    let n = key.len();
    let left = chars.len() - p;
    if left < 2 || n > left - 2 || chars[p] != '"' {
        return false;
    }
    let mut i: usize = 0;
    while i < n
        invariant
            i <= n,
            n == key@.len(),
            p + n + 2 <= chars@.len(),
            chars@.len() <= usize::MAX,
            forall|j: int| 0 <= j < i ==> chars@[p + 1 + j] == #[trigger] key@[j],
        decreases n - i,
    {
        if chars[p + 1 + i] != key[i] {
            proof {
                assert(chars@.subrange(p + 1, p + 1 + n)[i as int] != key@[i as int]);
            }
            return false;
        }
        i = i + 1;
    }
    proof {
        assert(chars@.subrange(p + 1, p + 1 + n) =~= key@);
    }
    chars[p + 1 + n] == '"'
}

fn find_key(chars: &[char], key: &[char]) -> (r: Option<usize>)
    ensures
        match r {
            Some(p) => key_from(chars@, key@, 0) == Some(p as int) && is_key_at(
                chars@,
                key@,
                p as int,
            ),
            None => key_from(chars@, key@, 0) is None,
        },
{
    let mut p: usize = 0;
    while p < chars.len()
        invariant
            p <= chars@.len(),
            key_from(chars@, key@, 0) == key_from(chars@, key@, p as int),
        decreases chars@.len() - p,
    {
        if key_at(chars, key, p) {
            return Some(p);
        }
        p = p + 1;
    }
    None
}

/// The position, in characters, of the first quoted `key`.
pub fn find_json_key(message: &str, key: &str) -> (r: Option<usize>)
    ensures
        match r {
            Some(p) => key_from(message@, key@, 0) == Some(p as int),
            None => key_from(message@, key@, 0) is None,
        },
{
    let chars = text::to_chars(message);
    let name = text::to_chars(key);
    find_key(chars.as_slice(), name.as_slice())
}

/// The characters behind the colon of a field.
fn find_value(message: &str, key: &str) -> (r: Option<Vec<char>>)
    ensures
        match r {
            Some(v) => value_text(message@, key@) == Some(v@),
            None => value_text(message@, key@) is None,
        },
{
    let chars = text::to_chars(message);
    let name = text::to_chars(key);
    let p = match find_key(chars.as_slice(), name.as_slice()) {
        Some(p) => p,
        None => return None,
    };
    let total = chars.len();
    let after: usize = p + name.len() + 2;
    let rest = vstd::slice::slice_subrange(chars.as_slice(), after, total);
    proof {
        assert(rest@ =~= message@.skip(after as int));
    }
    let lo = text::skip_space(rest);
    let rest = vstd::slice::slice_subrange(rest, lo, rest.len());
    proof {
        assert(rest@ =~= text::trim_start(message@.skip(after as int)));
    }
    if rest.len() == 0 || rest[0] != ':' {
        return None;
    }
    let value = vstd::slice::slice_subrange(rest, 1, rest.len());
    proof {
        assert(value@ =~= rest@.skip(1));
    }
    let lo = text::skip_space(value);
    let value = vstd::slice::slice_subrange(value, lo, value.len());
    proof {
        assert(value@ =~= text::trim_start(rest@.skip(1)));
    }
    Some(vstd::slice::slice_to_vec(value))
}

/// The text of a quoted field.
pub fn json_str_field(message: &str, key: &str) -> (r: Option<String>)
    ensures
        text::opt_string(r) == str_field(message@, key@),
{
    let value = match find_value(message, key) {
        Some(v) => v,
        None => return None,
    };
    if value.len() == 0 || value[0] != '"' {
        return None;
    }
    let inner = vstd::slice::slice_subrange(value.as_slice(), 1, value.len());
    proof {
        assert(inner@ =~= value@.skip(1));
    }
    let end = text::find_char(inner, '"');
    if end >= inner.len() {
        return None;
    }
    let body = vstd::slice::slice_subrange(inner, 0, end);
    proof {
        assert(body@ =~= inner@.take(end as int));
    }
    Some(text::from_chars(body))
}

proof fn lemma_run_len(s: Seq<char>, kind: spec_fn(char) -> bool, n: int)
    requires
        0 <= n <= s.len(),
        forall|i: int| 0 <= i < n ==> kind(#[trigger] s[i]),
        n < s.len() ==> !kind(s[n]),
    ensures
        run_len(s, kind) == n,
    decreases n,
{
    if n > 0 {
        let rest = s.drop_first();
        assert(kind(s[0]));
        assert forall|i: int| 0 <= i < n - 1 implies kind(#[trigger] rest[i]) by {
            assert(rest[i] == s[i + 1]);
        }
        lemma_run_len(rest, kind, n - 1);
    }
}

/// The integer of a field.
pub fn json_i64_field(message: &str, key: &str) -> (r: Option<i64>)
    ensures
        r == i64_field(message@, key@),
{
    let value = match find_value(message, key) {
        Some(v) => v,
        None => return None,
    };
    let mut n: usize = 0;
    while n < value.len() && (('0' <= value[n] && value[n] <= '9') || value[n] == '-')
        invariant
            n <= value@.len(),
            forall|i: int| 0 <= i < n ==> integer_char(#[trigger] value@[i]),
        decreases value@.len() - n,
    {
        n = n + 1;
    }
    proof {
        lemma_run_len(value@, |c: char| integer_char(c), n as int);
    }
    let run = vstd::slice::slice_subrange(value.as_slice(), 0, n);
    proof {
        assert(run@ =~= value@.take(n as int));
    }
    text::parse_i64_chars(run)
}

/// The number of a field, as it is written.
pub fn json_number_field(message: &str, key: &str) -> (r: Option<String>)
    ensures
        text::opt_string(r) == number_field(message@, key@),
{
    let value = match find_value(message, key) {
        Some(v) => v,
        None => return None,
    };
    let mut n: usize = 0;
    while n < value.len() && (('0' <= value[n] && value[n] <= '9') || value[n] == '.' || value[n]
        == '-' || value[n] == '+' || value[n] == 'e' || value[n] == 'E')
        invariant
            n <= value@.len(),
            forall|i: int| 0 <= i < n ==> number_char(#[trigger] value@[i]),
        decreases value@.len() - n,
    {
        n = n + 1;
    }
    proof {
        lemma_run_len(value@, |c: char| number_char(c), n as int);
    }
    let run = vstd::slice::slice_subrange(value.as_slice(), 0, n);
    proof {
        assert(run@ =~= value@.take(n as int));
    }
    if decimal::check_number(run) {
        Some(text::from_chars(run))
    } else {
        None
    }
}

/// A field as it is written into a message without spaces.
pub open spec fn written_field(key: Seq<char>, value: Seq<char>) -> Seq<char> {
    seq!['"'] + key + seq!['"', ':'] + value
}

proof fn lemma_key_found(s: Seq<char>, key: Seq<char>, from: int, p: int)
    requires
        0 <= from <= p < s.len(),
        is_key_at(s, key, p),
        forall|q: int| 0 <= q < p ==> !#[trigger] is_key_at(s, key, q),
    ensures
        key_from(s, key, from) == Some(p),
    decreases p - from,
{
    if from < p {
        assert(!is_key_at(s, key, from));
        lemma_key_found(s, key, from + 1, p);
    }
}

proof fn lemma_written_value(before: Seq<char>, key: Seq<char>, value: Seq<char>)
    requires
        value.len() > 0,
        !text::is_space(value[0]),
        forall|q: int|
            0 <= q < before.len() ==> !#[trigger] is_key_at(
                before + written_field(key, value),
                key,
                q,
            ),
    ensures
        value_text(before + written_field(key, value), key) == Some(value),
{
    let s = before + written_field(key, value);
    let p = before.len() as int;
    assert(s[p] == '"');
    assert(s.subrange(p + 1, p + 1 + key.len()) =~= key);
    assert(s[p + 1 + key.len()] == '"');
    lemma_key_found(s, key, 0, p);
    let rest = s.skip(p + key.len() + 2);
    assert(rest =~= seq![':'] + value);
    assert(!text::is_space(rest[0]));
    assert(text::trim_start(rest) == rest);
    assert(rest.skip(1) =~= value);
    assert(text::trim_start(value) == value);
}

/// A quoted value without quotes in it is read back from the message that it
/// was written into, unless the same quoted key stands earlier.
pub proof fn law_text_field_reads_back(
    before: Seq<char>,
    key: Seq<char>,
    value: Seq<char>,
    after: Seq<char>,
)
    requires
        forall|i: int| 0 <= i < value.len() ==> #[trigger] value[i] != '"',
        forall|q: int|
            0 <= q < before.len() ==> !#[trigger] is_key_at(
                before + written_field(key, seq!['"'] + value + seq!['"'] + after),
                key,
                q,
            ),
    ensures
        str_field(before + written_field(key, seq!['"'] + value + seq!['"'] + after), key) == Some(
            value,
        ),
{
    let v = seq!['"'] + value + seq!['"'] + after;
    lemma_written_value(before, key, v);
    let inner = v.skip(1);
    assert(inner =~= value + seq!['"'] + after);
    assert forall|i: int| 0 <= i < value.len() implies inner[i] != '"' by {
        assert(inner[i] == value[i]);
    }
    text::lemma_index_of_char_is(inner, '"', value.len() as int);
    assert(inner.take(value.len() as int) =~= value);
}

/// An integer is read back from the message that it was written into, unless
/// the same quoted key stands earlier or the number goes on behind it.
pub proof fn law_integer_field_reads_back(
    before: Seq<char>,
    key: Seq<char>,
    value: i64,
    after: Seq<char>,
)
    requires
        after.len() > 0 ==> !integer_char(after[0]),
        forall|q: int|
            0 <= q < before.len() ==> !#[trigger] is_key_at(
                before + written_field(key, text::int_text(value as int) + after),
                key,
                q,
            ),
    ensures
        i64_field(before + written_field(key, text::int_text(value as int) + after), key) == Some(
            value,
        ),
{
    let digits = text::int_text(value as int);
    let v = digits + after;
    text::lemma_int_text(value);
    text::lemma_nat_text(
        (if value < 0 {
            -value
        } else {
            value as int
        }) as nat,
    );
    assert(digits.len() > 0);
    assert forall|i: int| 0 <= i < digits.len() implies integer_char(#[trigger] v[i]) by {
        assert(v[i] == digits[i]);
    }
    assert(integer_char(v[0]));
    lemma_written_value(before, key, v);
    lemma_run_len(v, |c: char| integer_char(c), digits.len() as int);
    assert(v.take(digits.len() as int) =~= digits);
}

/// What stands at a place of a JSON document.
#[derive(Debug)]
pub enum JsonValue {
    Text(String),
    /// A number as it is written, and its value where it is an integer.
    Number { written: String, integer: Option<i64> },
    /// A list, by its length.
    Items(usize),
    Other,
}

pub enum ValueView {
    Text(Seq<char>),
    Number { written: Seq<char>, integer: Option<i64> },
    Items(usize),
    Other,
}

impl JsonValue {
    pub open spec fn view(self) -> ValueView {
        match self {
            JsonValue::Text(s) => ValueView::Text(s@),
            JsonValue::Number { written, integer } => ValueView::Number {
                written: written@,
                integer,
            },
            JsonValue::Items(n) => ValueView::Items(n),
            JsonValue::Other => ValueView::Other,
        }
    }
}

pub open spec fn value_option(v: Option<JsonValue>) -> Option<ValueView> {
    match v {
        Some(x) => Some(x.view()),
        None => None,
    }
}

/// A document of the JSON parser.
#[verifier::external_type_specification]
#[verifier::external_body]
pub struct ExJsonDocument(serde_json::Value);

/// What stands in a document, by JSON pointer.
pub uninterp spec fn json_contents(doc: serde_json::Value) -> Map<Seq<char>, ValueView>;

/// What stands in the document that a text encodes, by JSON pointer; nothing
/// where the text is no JSON.
pub uninterp spec fn json_document(message: Seq<char>) -> Option<Map<Seq<char>, ValueView>>;

/// `serde_json::from_str` into a `serde_json::Value` parses a text. Whether the
/// text is JSON, and what then stands in the document, depends on the text
/// alone.
#[verifier::external_body]
pub(crate) fn json_parse(message: &str) -> (r: Option<serde_json::Value>)
    ensures
        match r {
            Some(doc) => json_document(message@) == Some(json_contents(doc)),
            None => json_document(message@) is None,
        },
{
    serde_json::from_str(message).ok()
}

/// `serde_json::Value::pointer` looks a place of a document up: the result is
/// what stands there, and nothing for a place that the document lacks. A
/// number comes with its text and, where `as_i64` gives one, its value; a list
/// with its length.
#[verifier::external_body]
pub(crate) fn json_at(doc: &serde_json::Value, pointer: &str) -> (r: Option<JsonValue>)
    ensures
        match r {
            Some(v) => json_contents(*doc).contains_key(pointer@) && json_contents(*doc)[pointer@]
                == v.view(),
            None => !json_contents(*doc).contains_key(pointer@),
        },
{
    Some(match doc.pointer(pointer)? {
        serde_json::Value::String(s) => JsonValue::Text(s.clone()),
        serde_json::Value::Number(n) => JsonValue::Number {
            written: n.to_string(),
            integer: n.as_i64(),
        },
        serde_json::Value::Array(items) => JsonValue::Items(items.len()),
        _ => JsonValue::Other,
    })
}

/// The fields of an order, as far as they are there.
#[derive(Debug)]
pub struct RawOrder {
    pub client_order_id: Option<JsonValue>,
    pub symbol: Option<JsonValue>,
    pub side: Option<JsonValue>,
    pub order_type: Option<JsonValue>,
    pub time_in_force: Option<JsonValue>,
    pub price: Option<JsonValue>,
    pub qty: Option<JsonValue>,
    pub quantity: Option<JsonValue>,
}

pub struct RawOrderView {
    pub client_order_id: Option<ValueView>,
    pub symbol: Option<ValueView>,
    pub side: Option<ValueView>,
    pub order_type: Option<ValueView>,
    pub time_in_force: Option<ValueView>,
    pub price: Option<ValueView>,
    pub qty: Option<ValueView>,
    pub quantity: Option<ValueView>,
}

impl RawOrder {
    pub open spec fn view(self) -> RawOrderView {
        RawOrderView {
            client_order_id: value_option(self.client_order_id),
            symbol: value_option(self.symbol),
            side: value_option(self.side),
            order_type: value_option(self.order_type),
            time_in_force: value_option(self.time_in_force),
            price: value_option(self.price),
            qty: value_option(self.qty),
            quantity: value_option(self.quantity),
        }
    }
}

/// The fields of a message, as far as they are there.
#[derive(Debug)]
pub struct RawMessage {
    pub kind: Option<JsonValue>,
    pub token: Option<JsonValue>,
    pub api_key: Option<JsonValue>,
    pub batch_id: Option<JsonValue>,
    pub order_id: Option<JsonValue>,
    /// The fields of a single order; `symbol` is also that of a cancel.
    pub order: RawOrder,
    pub channels: Option<Vec<Option<JsonValue>>>,
    pub order_ids: Option<Vec<Option<JsonValue>>>,
    pub orders: Option<Vec<RawOrder>>,
}

pub struct RawView {
    pub kind: Option<ValueView>,
    pub token: Option<ValueView>,
    pub api_key: Option<ValueView>,
    pub batch_id: Option<ValueView>,
    pub order_id: Option<ValueView>,
    pub order: RawOrderView,
    pub channels: Option<Seq<Option<ValueView>>>,
    pub order_ids: Option<Seq<Option<ValueView>>>,
    pub orders: Option<Seq<RawOrderView>>,
}

pub open spec fn item_views(items: Seq<Option<JsonValue>>) -> Seq<Option<ValueView>> {
    items.map_values(|v: Option<JsonValue>| value_option(v))
}

pub open spec fn raw_order_views(orders: Seq<RawOrder>) -> Seq<RawOrderView> {
    orders.map_values(|o: RawOrder| o.view())
}

impl RawMessage {
    pub open spec fn view(self) -> RawView {
        RawView {
            kind: value_option(self.kind),
            token: value_option(self.token),
            api_key: value_option(self.api_key),
            batch_id: value_option(self.batch_id),
            order_id: value_option(self.order_id),
            order: self.order.view(),
            channels: match self.channels {
                Some(v) => Some(item_views(v@)),
                None => None,
            },
            order_ids: match self.order_ids {
                Some(v) => Some(item_views(v@)),
                None => None,
            },
            orders: match self.orders {
                Some(v) => Some(raw_order_views(v@)),
                None => None,
            },
        }
    }
}

/// An order as a client writes it; price and quantity are decimal numbers.
#[derive(Debug)]
pub struct OrderRequest {
    pub client_order_id: String,
    pub symbol: String,
    pub side: String,
    pub order_type: String,
    pub time_in_force: Option<String>,
    pub price: Option<String>,
    pub qty: String,
}

pub struct RequestView {
    pub client_order_id: Seq<char>,
    pub symbol: Seq<char>,
    pub side: Seq<char>,
    pub order_type: Seq<char>,
    pub time_in_force: Option<Seq<char>>,
    pub price: Option<Seq<char>>,
    pub qty: Seq<char>,
}

impl OrderRequest {
    pub open spec fn view(self) -> RequestView {
        RequestView {
            client_order_id: self.client_order_id@,
            symbol: self.symbol@,
            side: self.side@,
            order_type: self.order_type@,
            time_in_force: text::opt_string(self.time_in_force),
            price: text::opt_string(self.price),
            qty: self.qty@,
        }
    }
}

pub open spec fn request_option(r: Option<OrderRequest>) -> Option<RequestView> {
    match r {
        Some(x) => Some(x.view()),
        None => None,
    }
}

pub open spec fn request_options(s: Seq<Option<OrderRequest>>) -> Seq<Option<RequestView>> {
    s.map_values(|r: Option<OrderRequest>| request_option(r))
}

/// A message of a client.
#[derive(Debug)]
pub enum ClientMsg {
    Auth { token: String },
    ApiKeyAuth { api_key: String },
    Subscribe { channels: Vec<String> },
    Unsubscribe { channels: Vec<String> },
    PlaceOrder(OrderRequest),
    /// Several orders; `None` stands for one that lacks a field.
    PlaceOrders { batch_id: String, orders: Vec<Option<OrderRequest>> },
    CancelOrder { order_id: i64 },
    BatchCancel { order_ids: Vec<i64> },
    CancelSymbol { symbol: String },
    CancelAll,
    Ping,
}

pub enum MsgView {
    Auth { token: Seq<char> },
    ApiKeyAuth { api_key: Seq<char> },
    Subscribe { channels: Seq<Seq<char>> },
    Unsubscribe { channels: Seq<Seq<char>> },
    PlaceOrder(RequestView),
    PlaceOrders { batch_id: Seq<char>, orders: Seq<Option<RequestView>> },
    CancelOrder { order_id: i64 },
    BatchCancel { order_ids: Seq<i64> },
    CancelSymbol { symbol: Seq<char> },
    CancelAll,
    Ping,
}

impl ClientMsg {
    pub open spec fn view(self) -> MsgView {
        match self {
            ClientMsg::Auth { token } => MsgView::Auth { token: token@ },
            ClientMsg::ApiKeyAuth { api_key } => MsgView::ApiKeyAuth { api_key: api_key@ },
            ClientMsg::Subscribe { channels } => MsgView::Subscribe {
                channels: text::text_views(channels@),
            },
            ClientMsg::Unsubscribe { channels } => MsgView::Unsubscribe {
                channels: text::text_views(channels@),
            },
            ClientMsg::PlaceOrder(order) => MsgView::PlaceOrder(order.view()),
            ClientMsg::PlaceOrders { batch_id, orders } => MsgView::PlaceOrders {
                batch_id: batch_id@,
                orders: request_options(orders@),
            },
            ClientMsg::CancelOrder { order_id } => MsgView::CancelOrder { order_id },
            ClientMsg::BatchCancel { order_ids } => MsgView::BatchCancel { order_ids: order_ids@ },
            ClientMsg::CancelSymbol { symbol } => MsgView::CancelSymbol { symbol: symbol@ },
            ClientMsg::CancelAll => MsgView::CancelAll,
            ClientMsg::Ping => MsgView::Ping,
        }
    }
}

pub open spec fn msg_option(m: Option<ClientMsg>) -> Option<MsgView> {
    match m {
        Some(x) => Some(x.view()),
        None => None,
    }
}

pub open spec fn text_of(v: Option<ValueView>) -> Option<Seq<char>> {
    match v {
        Some(ValueView::Text(s)) => Some(s),
        _ => None,
    }
}

pub open spec fn number_of(v: Option<ValueView>) -> Option<Seq<char>> {
    match v {
        Some(ValueView::Number { written, .. }) => Some(written),
        _ => None,
    }
}

pub open spec fn integer_of(v: Option<ValueView>) -> Option<i64> {
    match v {
        Some(ValueView::Number { integer, .. }) => integer,
        _ => None,
    }
}

pub open spec fn lowered(v: Option<Seq<char>>) -> Option<Seq<char>> {
    match v {
        Some(s) => Some(text::lower_text(s)),
        None => None,
    }
}

/// An order out of its fields. Symbol, side and quantity are required; the
/// quantity is taken from `quantity` where there is no `qty`.
pub open spec fn request_of(raw: RawOrderView, client_order_id: Seq<char>) -> Option<RequestView> {
    let amount = match raw.qty {
        Some(_) => raw.qty,
        None => raw.quantity,
    };
    match (text_of(raw.symbol), text_of(raw.side), number_of(amount)) {
        (Some(symbol), Some(side), Some(qty)) => Some(
            RequestView {
                client_order_id,
                symbol,
                side,
                order_type: text::text_or(text_of(raw.order_type), "limit"@),
                time_in_force: lowered(text_of(raw.time_in_force)),
                price: number_of(raw.price),
                qty,
            },
        ),
        _ => None,
    }
}

/// An order within a batch, where the client's own id may be missing.
pub open spec fn batch_request(raw: RawOrderView) -> Option<RequestView> {
    request_of(raw, text::text_or(text_of(raw.client_order_id), ""@))
}

pub open spec fn batch_requests(raw: Seq<RawOrderView>) -> Seq<Option<RequestView>> {
    raw.map_values(|o: RawOrderView| batch_request(o))
}

/// The texts of a list; what is no text is left out.
pub open spec fn texts_in(items: Seq<Option<ValueView>>) -> Seq<Seq<char>>
    decreases items.len(),
{
    if items.len() == 0 {
        seq![]
    } else {
        match text_of(items.last()) {
            Some(s) => texts_in(items.drop_last()).push(s),
            None => texts_in(items.drop_last()),
        }
    }
}

/// The integers of a list; what is no integer is left out.
pub open spec fn integers_in(items: Seq<Option<ValueView>>) -> Seq<i64>
    decreases items.len(),
{
    if items.len() == 0 {
        seq![]
    } else {
        match integer_of(items.last()) {
            Some(i) => integers_in(items.drop_last()).push(i),
            None => integers_in(items.drop_last()),
        }
    }
}

/// The message that a document holds; nothing where its type is unknown or a
/// required field is missing or of another type.
pub open spec fn message_in(raw: RawView) -> Option<MsgView> {
    match text_of(raw.kind) {
        None => None,
        Some(kind) => if kind == "auth"@ {
            match text_of(raw.token) {
                Some(token) => Some(MsgView::Auth { token }),
                None => None,
            }
        } else if kind == "auth_key"@ {
            match text_of(raw.api_key) {
                Some(api_key) => Some(MsgView::ApiKeyAuth { api_key }),
                None => None,
            }
        } else if kind == "subscribe"@ {
            match raw.channels {
                Some(items) => Some(MsgView::Subscribe { channels: texts_in(items) }),
                None => None,
            }
        } else if kind == "unsubscribe"@ {
            match raw.channels {
                Some(items) => Some(MsgView::Unsubscribe { channels: texts_in(items) }),
                None => None,
            }
        } else if kind == "place_order"@ {
            match text_of(raw.order.client_order_id) {
                Some(id) => match request_of(raw.order, id) {
                    Some(order) => Some(MsgView::PlaceOrder(order)),
                    None => None,
                },
                None => None,
            }
        } else if kind == "place_orders"@ {
            Some(
                MsgView::PlaceOrders {
                    batch_id: text::text_or(text_of(raw.batch_id), ""@),
                    orders: match raw.orders {
                        Some(orders) => batch_requests(orders),
                        None => seq![],
                    },
                },
            )
        } else if kind == "cancel_order"@ {
            match integer_of(raw.order_id) {
                Some(order_id) => Some(MsgView::CancelOrder { order_id }),
                None => None,
            }
        } else if kind == "batch_cancel"@ {
            match raw.order_ids {
                Some(items) => Some(MsgView::BatchCancel { order_ids: integers_in(items) }),
                None => None,
            }
        } else if kind == "cancel_symbol"@ {
            match text_of(raw.order.symbol) {
                Some(symbol) => Some(MsgView::CancelSymbol { symbol }),
                None => None,
            }
        } else if kind == "cancel_all"@ {
            Some(MsgView::CancelAll)
        } else if kind == "ping"@ {
            Some(MsgView::Ping)
        } else {
            None
        },
    }
}

fn take_text(v: &Option<JsonValue>) -> (r: Option<String>)
    ensures
        text::opt_string(r) == text_of(value_option(*v)),
{
    match v {
        Some(JsonValue::Text(s)) => Some(text::owned(s.as_str())),
        _ => None,
    }
}

fn take_number(v: &Option<JsonValue>) -> (r: Option<String>)
    ensures
        text::opt_string(r) == number_of(value_option(*v)),
{
    match v {
        Some(JsonValue::Number { written, integer: _ }) => Some(text::owned(written.as_str())),
        _ => None,
    }
}

fn take_integer(v: &Option<JsonValue>) -> (r: Option<i64>)
    ensures
        r == integer_of(value_option(*v)),
{
    match v {
        Some(JsonValue::Number { written: _, integer }) => *integer,
        _ => None,
    }
}

fn or_text(v: Option<String>, default: &str) -> (r: String)
    ensures
        r@ == text::text_or(text::opt_string(v), default@),
{
    match v {
        Some(s) => s,
        None => text::owned(default),
    }
}

fn lower(v: Option<String>) -> (r: Option<String>)
    ensures
        text::opt_string(r) == lowered(text::opt_string(v)),
{
    match v {
        Some(s) => Some(text::to_lower(s.as_str())),
        None => None,
    }
}

/// Puts an order together from its fields, under an id that is given.
pub fn assemble_order(raw: &RawOrder, client_order_id: String) -> (r: Option<OrderRequest>)
    ensures
        request_option(r) == request_of(raw.view(), client_order_id@),
{
    let amount = match &raw.qty {
        Some(_) => &raw.qty,
        None => &raw.quantity,
    };
    match (take_text(&raw.symbol), take_text(&raw.side), take_number(amount)) {
        (Some(symbol), Some(side), Some(qty)) => Some(
            OrderRequest {
                client_order_id,
                symbol,
                side,
                order_type: or_text(take_text(&raw.order_type), "limit"),
                time_in_force: lower(take_text(&raw.time_in_force)),
                price: take_number(&raw.price),
                qty,
            },
        ),
        _ => None,
    }
}

fn assemble_orders(raw: &Vec<RawOrder>) -> (r: Vec<Option<OrderRequest>>)
    ensures
        request_options(r@) == batch_requests(raw_order_views(raw@)),
{
    let mut out: Vec<Option<OrderRequest>> = Vec::new();
    let mut i: usize = 0;
    while i < raw.len()
        invariant
            i <= raw@.len(),
            out@.len() == i,
            request_options(out@) == batch_requests(raw_order_views(raw@)).take(i as int),
        decreases raw@.len() - i,
    {
        let id = or_text(take_text(&raw[i].client_order_id), "");
        let order = assemble_order(&raw[i], id);
        let ghost before = out@;
        out.push(order);
        proof {
            assert(request_options(out@) =~= request_options(before).push(request_option(order)));
            assert(batch_requests(raw_order_views(raw@)).take(i + 1) =~= batch_requests(
                raw_order_views(raw@),
            ).take(i as int).push(batch_request(raw@[i as int].view())));
        }
        i = i + 1;
    }
    proof {
        assert(batch_requests(raw_order_views(raw@)).take(i as int) =~= batch_requests(
            raw_order_views(raw@),
        ));
    }
    out
}

fn take_texts(items: &Vec<Option<JsonValue>>) -> (r: Vec<String>)
    ensures
        text::text_views(r@) == texts_in(item_views(items@)),
{
    let mut out: Vec<String> = Vec::new();
    let mut i: usize = 0;
    let ghost all = item_views(items@);
    while i < items.len()
        invariant
            i <= items@.len(),
            all == item_views(items@),
            text::text_views(out@) == texts_in(all.take(i as int)),
        decreases items@.len() - i,
    {
        proof {
            assert(all.take(i + 1).drop_last() =~= all.take(i as int));
            assert(all.take(i + 1).last() == value_option(items@[i as int]));
        }
        if let Some(s) = take_text(&items[i]) {
            let ghost before = out@;
            out.push(s);
            proof {
                assert(text::text_views(out@) =~= text::text_views(before).push(s@));
            }
        }
        i = i + 1;
    }
    proof {
        assert(all.take(i as int) =~= all);
    }
    out
}

fn take_integers(items: &Vec<Option<JsonValue>>) -> (r: Vec<i64>)
    ensures
        r@ == integers_in(item_views(items@)),
{
    let mut out: Vec<i64> = Vec::new();
    let mut i: usize = 0;
    let ghost all = item_views(items@);
    while i < items.len()
        invariant
            i <= items@.len(),
            all == item_views(items@),
            out@ == integers_in(all.take(i as int)),
        decreases items@.len() - i,
    {
        proof {
            assert(all.take(i + 1).drop_last() =~= all.take(i as int));
            assert(all.take(i + 1).last() == value_option(items@[i as int]));
        }
        if let Some(n) = take_integer(&items[i]) {
            out.push(n);
        }
        i = i + 1;
    }
    proof {
        assert(all.take(i as int) =~= all);
    }
    out
}

/// Puts a message together from the fields of its document.
pub fn assemble_message(raw: &RawMessage) -> (r: Option<ClientMsg>)
    ensures
        msg_option(r) == message_in(raw.view()),
{
    let kind = take_text(&raw.kind)?;
    let kind = kind.as_str();
    if text::str_eq(kind, "auth") {
        let token = take_text(&raw.token)?;
        Some(ClientMsg::Auth { token })
    } else if text::str_eq(kind, "auth_key") {
        let api_key = take_text(&raw.api_key)?;
        Some(ClientMsg::ApiKeyAuth { api_key })
    } else if text::str_eq(kind, "subscribe") {
        match &raw.channels {
            Some(items) => Some(ClientMsg::Subscribe { channels: take_texts(items) }),
            None => None,
        }
    } else if text::str_eq(kind, "unsubscribe") {
        match &raw.channels {
            Some(items) => Some(ClientMsg::Unsubscribe { channels: take_texts(items) }),
            None => None,
        }
    } else if text::str_eq(kind, "place_order") {
        let id = take_text(&raw.order.client_order_id)?;
        match assemble_order(&raw.order, id) {
            Some(order) => Some(ClientMsg::PlaceOrder(order)),
            None => None,
        }
    } else if text::str_eq(kind, "place_orders") {
        let batch_id = or_text(take_text(&raw.batch_id), "");
        let orders = match &raw.orders {
            Some(orders) => assemble_orders(orders),
            None => Vec::new(),
        };
        proof {
            if raw.orders is None {
                assert(request_options(orders@) =~= seq![]);
            }
        }
        Some(ClientMsg::PlaceOrders { batch_id, orders })
    } else if text::str_eq(kind, "cancel_order") {
        let order_id = take_integer(&raw.order_id)?;
        Some(ClientMsg::CancelOrder { order_id })
    } else if text::str_eq(kind, "batch_cancel") {
        match &raw.order_ids {
            Some(items) => Some(ClientMsg::BatchCancel { order_ids: take_integers(items) }),
            None => None,
        }
    } else if text::str_eq(kind, "cancel_symbol") {
        let symbol = take_text(&raw.order.symbol)?;
        Some(ClientMsg::CancelSymbol { symbol })
    } else if text::str_eq(kind, "cancel_all") {
        Some(ClientMsg::CancelAll)
    } else if text::str_eq(kind, "ping") {
        Some(ClientMsg::Ping)
    } else {
        None
    }
}

/// What stands at a place.
pub open spec fn at(m: Map<Seq<char>, ValueView>, pointer: Seq<char>) -> Option<ValueView> {
    if m.contains_key(pointer) {
        Some(m[pointer])
    } else {
        None
    }
}

/// The place of an item of a list.
pub open spec fn item_place(list: Seq<char>, i: nat) -> Seq<char> {
    list + "/"@ + text::nat_text(i)
}

/// The items of a list; nothing where no list stands there.
pub open spec fn items_at(m: Map<Seq<char>, ValueView>, list: Seq<char>) -> Option<
    Seq<Option<ValueView>>,
> {
    match at(m, list) {
        Some(ValueView::Items(n)) => Some(
            Seq::new(n as nat, |i: int| at(m, item_place(list, i as nat))),
        ),
        _ => None,
    }
}

pub open spec fn order_at(m: Map<Seq<char>, ValueView>, place: Seq<char>) -> RawOrderView {
    RawOrderView {
        client_order_id: at(m, place + "/client_order_id"@),
        symbol: at(m, place + "/symbol"@),
        side: at(m, place + "/side"@),
        order_type: at(m, place + "/order_type"@),
        time_in_force: at(m, place + "/time_in_force"@),
        price: at(m, place + "/price"@),
        qty: at(m, place + "/qty"@),
        quantity: at(m, place + "/quantity"@),
    }
}

pub open spec fn orders_at(m: Map<Seq<char>, ValueView>, list: Seq<char>) -> Option<
    Seq<RawOrderView>,
> {
    match at(m, list) {
        Some(ValueView::Items(n)) => Some(
            Seq::new(n as nat, |i: int| order_at(m, item_place(list, i as nat))),
        ),
        _ => None,
    }
}

/// The fields of a message, read from a document.
pub open spec fn fields_in(m: Map<Seq<char>, ValueView>) -> RawView {
    RawView {
        kind: at(m, "/type"@),
        token: at(m, "/token"@),
        api_key: at(m, "/api_key"@),
        batch_id: at(m, "/batch_id"@),
        order_id: at(m, "/order_id"@),
        order: order_at(m, ""@),
        channels: items_at(m, "/channels"@),
        order_ids: items_at(m, "/order_ids"@),
        orders: orders_at(m, "/orders"@),
    }
}

fn place_of_item(list: &str, i: usize) -> (r: String)
    ensures
        r@ == item_place(list@, i as nat),
{
    let mut place = text::owned(list);
    place.append("/");
    text::append_nat(&mut place, i as u128);
    place
}

fn read_member(doc: &serde_json::Value, place: &str, name: &str) -> (r: Option<JsonValue>)
    ensures
        value_option(r) == at(json_contents(*doc), place@ + name@),
{
    let mut pointer = text::owned(place);
    pointer.append(name);
    json_at(doc, pointer.as_str())
}

fn read_items(doc: &serde_json::Value, list: &str) -> (r: Option<Vec<Option<JsonValue>>>)
    ensures
        (match r {
            Some(v) => Some(item_views(v@)),
            None => None,
        }) == items_at(json_contents(*doc), list@),
{
    let n = match json_at(doc, list) {
        Some(JsonValue::Items(n)) => n,
        _ => return None,
    };
    let ghost all = items_at(json_contents(*doc), list@)->0;
    let mut out: Vec<Option<JsonValue>> = Vec::new();
    let mut i: usize = 0;
    while i < n
        invariant
            i <= n,
            n == all.len(),
            all == Seq::new(
                n as nat,
                |j: int| at(json_contents(*doc), item_place(list@, j as nat)),
            ),
            item_views(out@) == all.take(i as int),
        decreases n - i,
    {
        let place = place_of_item(list, i);
        let value = json_at(doc, place.as_str());
        let ghost before = out@;
        out.push(value);
        proof {
            assert(item_views(out@) =~= item_views(before).push(value_option(value)));
            assert(all.take(i + 1) =~= all.take(i as int).push(all[i as int]));
        }
        i = i + 1;
    }
    proof {
        assert(all.take(n as int) =~= all);
    }
    Some(out)
}

fn read_order(doc: &serde_json::Value, place: &str) -> (r: RawOrder)
    ensures
        r.view() == order_at(json_contents(*doc), place@),
{
    RawOrder {
        client_order_id: read_member(doc, place, "/client_order_id"),
        symbol: read_member(doc, place, "/symbol"),
        side: read_member(doc, place, "/side"),
        order_type: read_member(doc, place, "/order_type"),
        time_in_force: read_member(doc, place, "/time_in_force"),
        price: read_member(doc, place, "/price"),
        qty: read_member(doc, place, "/qty"),
        quantity: read_member(doc, place, "/quantity"),
    }
}

fn read_orders(doc: &serde_json::Value, list: &str) -> (r: Option<Vec<RawOrder>>)
    ensures
        (match r {
            Some(v) => Some(raw_order_views(v@)),
            None => None,
        }) == orders_at(json_contents(*doc), list@),
{
    let n = match json_at(doc, list) {
        Some(JsonValue::Items(n)) => n,
        _ => return None,
    };
    let ghost all = orders_at(json_contents(*doc), list@)->0;
    let mut out: Vec<RawOrder> = Vec::new();
    let mut i: usize = 0;
    while i < n
        invariant
            i <= n,
            n == all.len(),
            all == Seq::new(
                n as nat,
                |j: int| order_at(json_contents(*doc), item_place(list@, j as nat)),
            ),
            raw_order_views(out@) == all.take(i as int),
        decreases n - i,
    {
        let place = place_of_item(list, i);
        let order = read_order(doc, place.as_str());
        let ghost before = out@;
        out.push(order);
        proof {
            assert(raw_order_views(out@) =~= raw_order_views(before).push(order.view()));
            assert(all.take(i + 1) =~= all.take(i as int).push(all[i as int]));
        }
        i = i + 1;
    }
    proof {
        assert(all.take(n as int) =~= all);
    }
    Some(out)
}

fn read_fields(doc: &serde_json::Value) -> (r: RawMessage)
    ensures
        r.view() == fields_in(json_contents(*doc)),
{
    RawMessage {
        kind: json_at(doc, "/type"),
        token: json_at(doc, "/token"),
        api_key: json_at(doc, "/api_key"),
        batch_id: json_at(doc, "/batch_id"),
        order_id: json_at(doc, "/order_id"),
        order: read_order(doc, ""),
        channels: read_items(doc, "/channels"),
        order_ids: read_items(doc, "/order_ids"),
        orders: read_orders(doc, "/orders"),
    }
}

/// An order that is read by scanning.
pub open spec fn scanned_order(s: Seq<char>) -> Option<RequestView> {
    let qty = match number_field(s, "qty"@) {
        Some(q) => Some(q),
        None => number_field(s, "quantity"@),
    };
    match (
        str_field(s, "client_order_id"@),
        str_field(s, "symbol"@),
        str_field(s, "side"@),
        qty,
    ) {
        (Some(client_order_id), Some(symbol), Some(side), Some(qty)) => Some(
            RequestView {
                client_order_id,
                symbol,
                side,
                order_type: text::text_or(str_field(s, "order_type"@), "limit"@),
                time_in_force: lowered(str_field(s, "time_in_force"@)),
                price: number_field(s, "price"@),
                qty,
            },
        ),
        _ => None,
    }
}

/// What scanning alone makes of a message.
pub open spec fn scanned(s: Seq<char>) -> Option<MsgView> {
    if str_field(s, "type"@) == Some("place_order"@) {
        match scanned_order(s) {
            Some(order) => Some(MsgView::PlaceOrder(order)),
            None => None,
        }
    } else if str_field(s, "type"@) == Some("cancel_order"@) {
        match i64_field(s, "order_id"@) {
            Some(order_id) => Some(MsgView::CancelOrder { order_id }),
            None => None,
        }
    } else {
        None
    }
}

/// The message that a text holds: what scanning makes of it, or else what its
/// document holds.
pub open spec fn message_of(s: Seq<char>) -> Option<MsgView> {
    match scanned(s) {
        Some(m) => Some(m),
        None => match json_document(s) {
            Some(contents) => message_in(fields_in(contents)),
            None => None,
        },
    }
}

/// Reads an order by scanning for its fields.
pub fn parse_place_order_fast(message: &str) -> (r: Option<OrderRequest>)
    ensures
        request_option(r) == scanned_order(message@),
{
    let client_order_id = json_str_field(message, "client_order_id")?;
    let symbol = json_str_field(message, "symbol")?;
    let side = json_str_field(message, "side")?;
    let qty = match json_number_field(message, "qty") {
        Some(q) => q,
        None => json_number_field(message, "quantity")?,
    };
    Some(
        OrderRequest {
            client_order_id,
            symbol,
            side,
            order_type: or_text(json_str_field(message, "order_type"), "limit"),
            time_in_force: lower(json_str_field(message, "time_in_force")),
            price: json_number_field(message, "price"),
            qty,
        },
    )
}

/// What scanning alone makes of a message of one of the two frequent kinds.
pub fn scan_message(message: &str) -> (r: Option<ClientMsg>)
    ensures
        msg_option(r) == scanned(message@),
{
    let kind = json_str_field(message, "type")?;
    if text::str_eq(kind.as_str(), "place_order") {
        match parse_place_order_fast(message) {
            Some(order) => Some(ClientMsg::PlaceOrder(order)),
            None => None,
        }
    } else if text::str_eq(kind.as_str(), "cancel_order") {
        let order_id = json_i64_field(message, "order_id")?;
        Some(ClientMsg::CancelOrder { order_id })
    } else {
        None
    }
}

impl ClientMsg {
    /// Reads the message of a client.
    pub fn parse(message: &str) -> (r: Option<ClientMsg>)
        ensures
            msg_option(r) == message_of(message@),
    {
        match scan_message(message) {
            Some(m) => Some(m),
            None => {
                let doc = json_parse(message)?;
                assemble_message(&read_fields(&doc))
            },
        }
    }
}

/// The name by which a client asks for each kind of thing.
pub open spec fn kind_name(m: MsgView) -> Seq<char> {
    match m {
        MsgView::Auth { .. } => "auth"@,
        MsgView::ApiKeyAuth { .. } => "auth_key"@,
        MsgView::Subscribe { .. } => "subscribe"@,
        MsgView::Unsubscribe { .. } => "unsubscribe"@,
        MsgView::PlaceOrder(_) => "place_order"@,
        MsgView::PlaceOrders { .. } => "place_orders"@,
        MsgView::CancelOrder { .. } => "cancel_order"@,
        MsgView::BatchCancel { .. } => "batch_cancel"@,
        MsgView::CancelSymbol { .. } => "cancel_symbol"@,
        MsgView::CancelAll => "cancel_all"@,
        MsgView::Ping => "ping"@,
    }
}

/// A message is of the kind that its type names, and carries the fields of that
/// kind as they were sent.
pub proof fn law_type_names_the_message(raw: RawView, m: MsgView)
    requires
        message_in(raw) == Some(m),
    ensures
        raw.kind == Some(ValueView::Text(kind_name(m))),
        match m {
            MsgView::Auth { token } => raw.token == Some(ValueView::Text(token)),
            MsgView::ApiKeyAuth { api_key } => raw.api_key == Some(ValueView::Text(api_key)),
            MsgView::Subscribe { channels } => raw.channels is Some && channels == texts_in(
                raw.channels->0,
            ),
            MsgView::Unsubscribe { channels } => raw.channels is Some && channels == texts_in(
                raw.channels->0,
            ),
            MsgView::PlaceOrder(order) => raw.order.client_order_id == Some(
                ValueView::Text(order.client_order_id),
            ) && raw.order.symbol == Some(ValueView::Text(order.symbol)),
            MsgView::PlaceOrders { orders, .. } => raw.orders is Some ==> orders.len() == (
            raw.orders->0).len(),
            MsgView::CancelOrder { order_id } => (raw.order_id matches Some(
                ValueView::Number { integer, .. },
            ) && integer == Some(order_id)),
            MsgView::BatchCancel { order_ids } => raw.order_ids is Some && order_ids == integers_in(
                raw.order_ids->0,
            ),
            MsgView::CancelSymbol { symbol } => raw.order.symbol == Some(ValueView::Text(symbol)),
            MsgView::CancelAll => true,
            MsgView::Ping => true,
        },
{
}

/// An order is read where it names a symbol, a side and an amount. The amount
/// stands under either of two names, and the first one counts where both are
/// there. An order without a type is a limit order, and the time in force may be
/// written in capitals.
pub proof fn law_order_needs_symbol_side_and_amount(raw: RawOrderView, id: Seq<char>)
    ensures
        ({
            let r = request_of(raw, id);
            &&& r is Some ==> {
                &&& raw.symbol == Some(ValueView::Text((r->0).symbol))
                &&& raw.side == Some(ValueView::Text((r->0).side))
                &&& (r->0).client_order_id == id
                &&& raw.qty is Some ==> (raw.qty matches Some(ValueView::Number { written, .. })
                    && written == (r->0).qty)
                &&& raw.qty is None ==> (raw.quantity matches Some(
                    ValueView::Number { written, .. },
                ) && written == (r->0).qty)
                &&& (raw.order_type matches Some(ValueView::Text(t)) ==> (r->0).order_type == t)
                &&& raw.order_type is None ==> (r->0).order_type == "limit"@
                &&& (raw.price matches Some(ValueView::Number { written, .. }) ==> (r->0).price
                    == Some(written))
                &&& raw.price is None ==> (r->0).price is None
                &&& raw.time_in_force is None ==> (r->0).time_in_force is None
            }
            &&& raw.symbol is None || raw.side is None ==> r is None
            &&& raw.qty is None && raw.quantity is None ==> r is None
            &&& (raw.symbol matches Some(ValueView::Text(_))) && (raw.side matches Some(
                ValueView::Text(_),
            )) && (raw.qty matches Some(ValueView::Number { .. })) ==> r is Some
        }),
{
}

/// A list keeps its texts, in their order, and leaves everything else out.
pub proof fn law_lists_keep_their_texts(items: Seq<Option<ValueView>>, t: Seq<char>)
    ensures
        texts_in(items).contains(t) <==> items.contains(Some(ValueView::Text(t))),
        texts_in(items).len() <= items.len(),
        (forall|i: int| 0 <= i < items.len() ==> #[trigger] text_of(items[i]) is Some) ==> (
        texts_in(items).len() == items.len() && forall|i: int|
            0 <= i < items.len() ==> items[i] == Some(ValueView::Text(#[trigger] texts_in(items)[i]))),
    decreases items.len(),
{
    if items.len() > 0 {
        let d = items.drop_last();
        law_lists_keep_their_texts(d, t);
        let rest = texts_in(d);
        let all = texts_in(items);
        if d.contains(Some(ValueView::Text(t))) {
            let i = choose|i: int| 0 <= i < d.len() && d[i] == Some(ValueView::Text(t));
            assert(items[i] == d[i]);
            let j = choose|j: int| 0 <= j < rest.len() && rest[j] == t;
            assert(all[j] == t);
        }
        if all.contains(t) && !rest.contains(t) {
            let j = choose|j: int| 0 <= j < all.len() && all[j] == t;
            assert(j < rest.len() ==> rest[j] == t);
            assert(items[items.len() - 1] == Some(ValueView::Text(t)));
        }
        if items.contains(Some(ValueView::Text(t))) && !d.contains(Some(ValueView::Text(t))) {
            let i = choose|i: int| 0 <= i < items.len() && items[i] == Some(ValueView::Text(t));
            assert(i < d.len() ==> d[i] == items[i]);
            assert(all[all.len() - 1] == t);
        }
        if forall|i: int| 0 <= i < items.len() ==> #[trigger] text_of(items[i]) is Some {
            assert forall|i: int| 0 <= i < d.len() implies #[trigger] text_of(d[i]) is Some by {
                assert(text_of(items[i]) is Some);
            }
            assert(text_of(items[items.len() - 1]) is Some);
            assert forall|i: int| 0 <= i < items.len() implies items[i] == Some(
                ValueView::Text(#[trigger] all[i]),
            ) by {
                if i < d.len() {
                    assert(all[i] == rest[i]);
                    assert(items[i] == d[i]);
                }
            }
        }
    }
}

proof fn lemma_mantissa_chars(s: Seq<char>)
    requires
        decimal::is_mantissa(s),
    ensures
        s.len() > 0,
        forall|i: int| 0 <= i < s.len() ==> number_char(#[trigger] s[i]) && !text::is_space(s[i]),
{
    match text::split_pair(s, '.') {
        Some((whole, part)) => {
            let k = text::index_of_char(s, '.');
            text::lemma_index_of_char(s, '.');
            assert forall|i: int| 0 <= i < s.len() implies number_char(#[trigger] s[i])
                && !text::is_space(s[i]) by {
                if i < k {
                    assert(whole[i] == s[i]);
                    assert(text::is_digit(whole[i]));
                } else if i > k {
                    assert(part[i - k - 1] == s[i]);
                    assert(text::is_digit(part[i - k - 1]));
                }
            }
        },
        None => {
            assert forall|i: int| 0 <= i < s.len() implies number_char(#[trigger] s[i])
                && !text::is_space(s[i]) by {
                assert(text::is_digit(s[i]));
            }
        },
    }
}

proof fn lemma_number_chars(s: Seq<char>)
    requires
        decimal::is_number(s),
    ensures
        s.len() > 0,
        forall|i: int| 0 <= i < s.len() ==> number_char(#[trigger] s[i]) && !text::is_space(s[i]),
{
    let body = decimal::unsigned(s);
    let shift = s.len() - body.len();
    let k = decimal::exponent_mark(body);
    text::lemma_index_of_char(body, 'e');
    text::lemma_index_of_char(body, 'E');
    if k < body.len() {
        lemma_mantissa_chars(body.take(k));
    } else {
        lemma_mantissa_chars(body);
    }
    assert forall|i: int| 0 <= i < body.len() implies number_char(#[trigger] body[i])
        && !text::is_space(body[i]) by {
        if k < body.len() {
            if i < k {
                assert(body.take(k)[i] == body[i]);
            } else if i > k {
                let e = body.skip(k + 1);
                let d = decimal::unsigned(e);
                let gap = e.len() - d.len();
                assert(e[i - k - 1] == body[i]);
                if i - k - 1 >= gap {
                    assert(d[i - k - 1 - gap] == body[i]);
                    assert(text::is_digit(d[i - k - 1 - gap]));
                }
            }
        }
    }
    assert forall|i: int| 0 <= i < s.len() implies number_char(#[trigger] s[i]) && !text::is_space(
        s[i],
    ) by {
        if i >= shift {
            assert(body[i - shift] == s[i]);
        }
    }
}

/// A number that was written is read back as it was written, up to the first
/// character that belongs to no number.
pub proof fn law_number_field_reads_back(
    before: Seq<char>,
    key: Seq<char>,
    value: Seq<char>,
    after: Seq<char>,
)
    requires
        decimal::is_number(value),
        after.len() > 0 ==> !number_char(after[0]),
        forall|q: int|
            0 <= q < before.len() ==> !#[trigger] is_key_at(
                before + written_field(key, value + after),
                key,
                q,
            ),
    ensures
        number_field(before + written_field(key, value + after), key) == Some(value),
{
    let v = value + after;
    lemma_number_chars(value);
    assert forall|i: int| 0 <= i < value.len() implies number_char(#[trigger] v[i]) by {
        assert(v[i] == value[i]);
    }
    assert(v[0] == value[0]);
    lemma_written_value(before, key, v);
    lemma_run_len(v, |c: char| number_char(c), value.len() as int);
    assert(v.take(value.len() as int) =~= value);
}

/// The quick scan knows two kinds of message, an order and a cancellation, and
/// takes their fields as they are written; what it cannot read is read as a
/// document.
pub proof fn law_scan_takes_orders_and_cancellations(s: Seq<char>)
    ensures
        match scanned(s) {
            Some(m) => {
                &&& message_of(s) == Some(m)
                &&& str_field(s, "type"@) == Some(kind_name(m))
                &&& m is PlaceOrder || m is CancelOrder
                &&& (m matches MsgView::PlaceOrder(o) ==> {
                    &&& str_field(s, "client_order_id"@) == Some(o.client_order_id)
                    &&& str_field(s, "symbol"@) == Some(o.symbol)
                    &&& str_field(s, "side"@) == Some(o.side)
                    &&& number_field(s, "qty"@) is Some ==> number_field(s, "qty"@) == Some(o.qty)
                    &&& number_field(s, "qty"@) is None ==> number_field(s, "quantity"@) == Some(
                        o.qty,
                    )
                    &&& o.price == number_field(s, "price"@)
                    &&& str_field(s, "order_type"@) is None ==> o.order_type == "limit"@
                    &&& (str_field(s, "order_type"@) matches Some(t) ==> o.order_type == t)
                    &&& str_field(s, "time_in_force"@) is None ==> o.time_in_force is None
                    &&& (str_field(s, "time_in_force"@) matches Some(t) ==> o.time_in_force == Some(
                        text::lower_text(t),
                    ))
                })
                &&& (m matches MsgView::CancelOrder { order_id } ==> i64_field(s, "order_id"@)
                    == Some(order_id))
            },
            None => {
                &&& (json_document(s) matches Some(contents) ==> message_of(s) == message_in(
                    fields_in(contents),
                ))
                &&& json_document(s) is None ==> message_of(s) is None
            },
        },
{
}

/// What is not there is not read: without the key there is no field.
pub proof fn law_absent_field_is_not_read(s: Seq<char>, key: Seq<char>)
    requires
        forall|p: int| 0 <= p < s.len() ==> !#[trigger] is_key_at(s, key, p),
    ensures
        str_field(s, key) is None,
        i64_field(s, key) is None,
        number_field(s, key) is None,
{
    lemma_no_key(s, key, 0);
}

proof fn lemma_no_key(s: Seq<char>, key: Seq<char>, from: int)
    requires
        0 <= from,
        forall|p: int| 0 <= p < s.len() ==> !#[trigger] is_key_at(s, key, p),
    ensures
        key_from(s, key, from) is None,
    decreases s.len() - from,
{
    if from < s.len() {
        lemma_no_key(s, key, from + 1);
    }
}

} // verus!
