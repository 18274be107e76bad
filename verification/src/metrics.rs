//! Counters and gauges, rendered as exposition text.
use crate::text;
use crate::text_map;
use vstd::prelude::*;

verus! {

/// Lexicographic order of texts.
pub open spec fn text_less(a: Seq<char>, b: Seq<char>) -> bool
    decreases a.len(),
{
    if b.len() == 0 {
        false
    } else if a.len() == 0 {
        true
    } else if a[0] != b[0] {
        a[0] < b[0]
    } else {
        text_less(a.drop_first(), b.drop_first())
    }
}

proof fn lemma_less_is_strict(a: Seq<char>)
    ensures
        !text_less(a, a),
    decreases a.len(),
{
    if a.len() > 0 {
        lemma_less_is_strict(a.drop_first());
    }
}

proof fn lemma_less_is_transitive(a: Seq<char>, b: Seq<char>, c: Seq<char>)
    requires
        text_less(a, b),
        text_less(b, c),
    ensures
        text_less(a, c),
    decreases a.len(),
{
    if a.len() > 0 && a[0] == b[0] && b[0] == c[0] {
        lemma_less_is_transitive(a.drop_first(), b.drop_first(), c.drop_first());
    }
}

proof fn lemma_less_is_total(a: Seq<char>, b: Seq<char>)
    ensures
        a == b || text_less(a, b) || text_less(b, a),
    decreases a.len(),
{
    if a.len() == 0 || b.len() == 0 {
        if a.len() == b.len() {
            assert(a =~= b);
        }
    } else if a[0] == b[0] {
        lemma_less_is_total(a.drop_first(), b.drop_first());
        if a.drop_first() == b.drop_first() {
            assert(a =~= seq![a[0]] + a.drop_first());
            assert(b =~= seq![b[0]] + b.drop_first());
        }
    }
}

fn is_less(a: &str, b: &str) -> (r: bool)
    ensures
        r == text_less(a@, b@),
{
    let x = text::to_chars(a);
    let y = text::to_chars(b);
    let mut i: usize = 0;
    proof {
        assert(x@.skip(0) =~= x@);
        assert(y@.skip(0) =~= y@);
    }
    while i < x.len() && i < y.len() && x[i] == y[i]
        invariant
            i <= x@.len(),
            i <= y@.len(),
            text_less(x@, y@) == text_less(x@.skip(i as int), y@.skip(i as int)),
        decreases x@.len() - i,
    {
        proof {
            assert(x@.skip(i as int).drop_first() =~= x@.skip(i + 1));
            assert(y@.skip(i as int).drop_first() =~= y@.skip(i + 1));
        }
        i = i + 1;
    }
    if i >= y.len() {
        false
    } else if i >= x.len() {
        true
    } else {
        x[i] < y[i]
    }
}

/// Values by name, in the order of the names.
pub struct Named<V> {
    entries: Vec<(String, V)>,
}

pub open spec fn in_order<V>(s: Seq<(String, V)>) -> bool {
    forall|i: int, j: int| 0 <= i < j < s.len() ==> text_less(#[trigger] s[i].0@, #[trigger] s[j].0@)
}

/// The place of a name among names in order.
pub open spec fn place<V>(s: Seq<(String, V)>, name: Seq<char>, i: int) -> bool {
    &&& 0 <= i <= s.len()
    &&& forall|j: int| 0 <= j < i ==> text_less(#[trigger] s[j].0@, name)
    &&& forall|j: int| i <= j < s.len() ==> !text_less(#[trigger] s[j].0@, name)
}

impl<V> Named<V> {
    pub closed spec fn list(&self) -> Seq<(String, V)> {
        self.entries@
    }

    pub open spec fn wf(&self) -> bool {
        in_order(self.list())
    }

    pub fn new() -> (r: Named<V>)
        ensures
            r.wf(),
            r.list().len() == 0,
    {
        Named { entries: Vec::new() }
    }

    fn find(&self, name: &str) -> (r: usize)
        requires
            self.wf(),
        ensures
            place(self.list(), name@, r as int),
    {
        let mut i: usize = 0;
        while i < self.entries.len() && is_less(self.entries[i].0.as_str(), name)
            invariant
                i <= self.entries@.len(),
                forall|j: int| 0 <= j < i ==> text_less(#[trigger] self.entries@[j].0@, name@),
            decreases self.entries@.len() - i,
        {
            i = i + 1;
        }
        proof {
            assert forall|j: int| i <= j < self.entries@.len() implies !text_less(
                #[trigger] self.entries@[j].0@,
                name@,
            ) by {
                if j > i && text_less(self.entries@[j].0@, name@) {
                    assert(text_less(self.list()[i as int].0@, self.list()[j].0@));
                    lemma_less_is_transitive(
                        self.entries@[i as int].0@,
                        self.entries@[j].0@,
                        name@,
                    );
                }
            }
        }
        i
    }
}

proof fn lemma_in_order_distinct<V>(s: Seq<(String, V)>)
    requires
        in_order(s),
    ensures
        text_map::names_distinct(s),
{
    assert forall|i: int, j: int| 0 <= i < j < s.len() implies (#[trigger] s[i]).0@ != (
    #[trigger] s[j]).0@ by {
        assert(text_less(s[i].0@, s[j].0@));
        lemma_less_is_strict(s[i].0@);
    }
}

/// A name that is listed stands at its place, and one that is not can be put there.
proof fn lemma_place<V>(s: Seq<(String, V)>, name: Seq<char>, i: int)
    requires
        in_order(s),
        place(s, name, i),
    ensures
        text_map::by_name(s).contains_key(name) <==> i < s.len() && s[i].0@ == name,
        forall|n: String, v: V| n@ == name && !(i < s.len() && s[i].0@ == name) ==> in_order(
            #[trigger] s.insert(i, (n, v)),
        ),
{
    lemma_in_order_distinct(s);
    lemma_less_is_strict(name);
    if text_map::by_name(s).contains_key(name) {
        let k = choose|k: int| 0 <= k < s.len() && (#[trigger] s[k]).0@ == name;
        assert(s[k].0@ == name);
        if k > i {
            assert(text_less(s[i].0@, s[k].0@));
        }
    }
    if i < s.len() && s[i].0@ == name {
        text_map::lemma_by_name(s, i);
    }
    assert forall|n: String, v: V| n@ == name && !(i < s.len() && s[i].0@ == name) implies in_order(
        #[trigger] s.insert(i, (n, v)),
    ) by {
        let t = s.insert(i, (n, v));
        assert forall|a: int, b: int| 0 <= a < b < t.len() implies text_less(
            #[trigger] t[a].0@,
            #[trigger] t[b].0@,
        ) by {
            let x = if a < i { a } else { a - 1 };
            let y = if b < i { b } else { b - 1 };
            if a == i {
                assert(t[b].0@ == s[y].0@);
                assert(!text_less(s[i].0@, name));
                lemma_less_is_total(s[i].0@, name);
                if y > i {
                    assert(text_less(s[i].0@, s[y].0@));
                    lemma_less_is_transitive(name, s[i].0@, s[y].0@);
                }
            } else if b == i {
                assert(t[a].0@ == s[x].0@);
            } else {
                assert(t[a].0@ == s[x].0@);
                assert(t[b].0@ == s[y].0@);
                assert(text_less(s[x].0@, s[y].0@));
            }
        }
    }
}

proof fn lemma_with_value<V>(s: Seq<(String, V)>, i: int, v: V)
    requires
        in_order(s),
        0 <= i < s.len(),
    ensures
        in_order(s.update(i, (s[i].0, v))),
        text_map::by_name(s.update(i, (s[i].0, v))) == text_map::by_name(s).insert(s[i].0@, v),
{
    let t = s.update(i, (s[i].0, v));
    assert forall|a: int, b: int| 0 <= a < b < t.len() implies text_less(
        #[trigger] t[a].0@,
        #[trigger] t[b].0@,
    ) by {
        assert(t[a].0@ == s[a].0@ && t[b].0@ == s[b].0@);
        assert(text_less(s[a].0@, s[b].0@));
    }
    lemma_in_order_distinct(s);
    text_map::lemma_with_value(s, i, v);
}

proof fn lemma_with_fresh<V>(s: Seq<(String, V)>, i: int, n: String, v: V)
    requires
        in_order(s),
        in_order(s.insert(i, (n, v))),
        0 <= i <= s.len(),
    ensures
        text_map::by_name(s.insert(i, (n, v))) == text_map::by_name(s).insert(n@, v),
{
    let t = s.insert(i, (n, v));
    lemma_in_order_distinct(s);
    lemma_in_order_distinct(t);
    let left = text_map::by_name(t);
    let right = text_map::by_name(s).insert(n@, v);
    assert(t[i].0@ == n@);
    assert forall|k: Seq<char>| left.contains_key(k) <==> right.contains_key(k) by {
        if left.contains_key(k) {
            let a = choose|a: int| 0 <= a < t.len() && (#[trigger] t[a]).0@ == k;
            if a < i {
                assert(s[a].0@ == k);
            } else if a > i {
                assert(s[a - 1].0@ == k);
            }
        }
        if text_map::by_name(s).contains_key(k) {
            let a = choose|a: int| 0 <= a < s.len() && (#[trigger] s[a]).0@ == k;
            if a < i {
                assert(t[a].0@ == k);
            } else {
                assert(t[a + 1].0@ == k);
            }
        }
    }
    assert forall|k: Seq<char>| #[trigger] left.contains_key(k) implies left[k] == right[k] by {
        let a = choose|a: int| 0 <= a < t.len() && (#[trigger] t[a]).0@ == k;
        text_map::lemma_by_name(t, a);
        if a < i {
            text_map::lemma_by_name(s, a);
            assert(t[a].0@ != t[i].0@);
        } else if a > i {
            text_map::lemma_by_name(s, a - 1);
            assert(t[i].0@ != t[a].0@);
        }
    }
    assert(left =~= right);
}

impl<V> Named<V> {
    pub open spec fn view(&self) -> Map<Seq<char>, V> {
        text_map::by_name(self.list())
    }

    /// The value of a name, which starts as `fresh`.
    pub fn entry(&mut self, name: &str, fresh: V) -> (r: &mut V)
        requires
            old(self).wf(),
        ensures
            final(self).wf(),
            *r == (if old(self).view().contains_key(name@) {
                old(self).view()[name@]
            } else {
                fresh
            }),
            final(self).view() == old(self).view().insert(name@, *final(r)),
    {
        let at = self.find(name);
        let ghost before = self.entries@;
        proof {
            lemma_place(before, name@, at as int);
            lemma_in_order_distinct(before);
        }
        if !(at < self.entries.len() && text::str_eq(self.entries[at].0.as_str(), name)) {
            let owned = text::owned(name);
            proof {
                lemma_with_fresh(before, at as int, owned, fresh);
            }
            self.entries.insert(at, (owned, fresh));
        } else {
            proof {
                text_map::lemma_by_name(before, at as int);
            }
        }
        let ghost list = self.entries@;
        let r = &mut self.entries[at].1;
        proof {
            lemma_with_value(list, at as int, *final(r));
            lemma_in_order_distinct(list);
            text_map::lemma_by_name(list, at as int);
            assert(list[at as int].0@ == name@);
            assert(text_map::by_name(list).insert(name@, *final(r)) =~= text_map::by_name(
                before,
            ).insert(name@, *final(r)));
        }
        r
    }
}

/// A counter; it wraps around at the end of its range.
pub struct Counter(pub u64);

impl Counter {
    pub fn inc(&mut self)
        ensures
            final(self).0 == (old(self).0 + 1) % 0x1_0000_0000_0000_0000,
    {
        self.add(1);
    }

    pub fn add(&mut self, n: u64)
        ensures
            final(self).0 == (old(self).0 + n) % 0x1_0000_0000_0000_0000,
    {
        self.0 = self.0.wrapping_add(n);
    }

    pub fn get(&self) -> (r: u64)
        ensures
            r == self.0,
    {
        self.0
    }
}

/// All counters and the gauges as last sampled.
pub struct Registry {
    counters: Named<Counter>,
    gauges: Named<String>,
}

impl Registry {
    pub closed spec fn counters(&self) -> Seq<(String, Counter)> {
        self.counters.list()
    }

    pub closed spec fn gauges(&self) -> Seq<(String, String)> {
        self.gauges.list()
    }

    pub open spec fn wf(&self) -> bool {
        in_order(self.counters()) && in_order(self.gauges())
    }

    pub fn new() -> (r: Registry)
        ensures
            r.wf(),
            r.counters().len() == 0,
            r.gauges().len() == 0,
    {
        Registry { counters: Named::new(), gauges: Named::new() }
    }
}

impl Default for Registry {
    fn default() -> (r: Registry)
        ensures
            r.wf(),
            r.counters().len() == 0,
            r.gauges().len() == 0,
    {
        Registry::new()
    }
}

/// The counter of a name, which starts at zero.
pub fn counter<'a>(registry: &'a mut Registry, name: &str) -> (r: &'a mut Counter)
    requires
        old(registry).wf(),
    ensures
        final(registry).wf(),
        *r == (if text_map::by_name(old(registry).counters()).contains_key(name@) {
            text_map::by_name(old(registry).counters())[name@]
        } else {
            Counter(0)
        }),
        text_map::by_name(final(registry).counters()) == text_map::by_name(
            old(registry).counters(),
        ).insert(name@, *final(r)),
        final(registry).gauges() == old(registry).gauges(),
{
    registry.counters.entry(name, Counter(0))
}

/// Records a gauge's sample, in place of an earlier one.
pub fn register_gauge(registry: &mut Registry, name: &str, sample: String)
    requires
        old(registry).wf(),
    ensures
        final(registry).wf(),
        text_map::by_name(final(registry).gauges()) == text_map::by_name(
            old(registry).gauges(),
        ).insert(name@, sample),
        final(registry).counters() == old(registry).counters(),
{
    let slot = registry.gauges.entry(name, String::new());
    *slot = sample;
}

/// The exposition text: counters, then gauges, each by name.
pub fn render(registry: &Registry) -> (r: String)
    ensures
        r@ == exposition(registry.counters(), registry.gauges()),
{
    let mut out = String::new();
    let ghost cs = registry.counters();
    let ghost gs = registry.gauges();
    proof {
        assert(out@ =~= counter_lines(cs.take(0)));
    }
    let mut i: usize = 0;
    while i < registry.counters.entries.len()
        invariant
            cs == registry.counters.entries@,
            i <= cs.len(),
            out@ == counter_lines(cs.take(i as int)),
        decreases cs.len() - i,
    {
        proof {
            assert(cs.take(i + 1).drop_last() =~= cs.take(i as int));
            assert(cs.take(i + 1).last() == cs[i as int]);
        }
        let mut value = String::new();
        text::append_nat(&mut value, registry.counters.entries[i].1.get() as u128);
        proof {
            assert(value@ =~= text::nat_text(cs[i as int].1.0 as nat));
        }
        append_metric(
            &mut out,
            registry.counters.entries[i].0.as_str(),
            " counter\n",
            value.as_str(),
        );
        i = i + 1;
    }
    let mut k: usize = 0;
    proof {
        assert(cs.take(i as int) =~= cs);
        assert(counter_lines(cs) =~= counter_lines(cs) + gauge_lines(gs.take(0)));
    }
    while k < registry.gauges.entries.len()
        invariant
            gs == registry.gauges.entries@,
            k <= gs.len(),
            out@ == counter_lines(cs) + gauge_lines(gs.take(k as int)),
        decreases gs.len() - k,
    {
        proof {
            assert(gs.take(k + 1).drop_last() =~= gs.take(k as int));
            assert(gs.take(k + 1).last() == gs[k as int]);
        }
        append_metric(
            &mut out,
            registry.gauges.entries[k].0.as_str(),
            " gauge\n",
            registry.gauges.entries[k].1.as_str(),
        );
        proof {
            assert(out@ =~= counter_lines(cs) + gauge_lines(gs.take(k + 1)));
        }
        k = k + 1;
    }
    proof {
        assert(gs.take(k as int) =~= gs);
    }
    out
}

/// The two lines of a metric: its type and its value.
pub open spec fn metric_lines(name: Seq<char>, kind: Seq<char>, value: Seq<char>) -> Seq<char> {
    "# TYPE "@ + name + kind + name + " "@ + value + "\n"@
}

pub open spec fn counter_lines(s: Seq<(String, Counter)>) -> Seq<char>
    decreases s.len(),
{
    if s.len() == 0 {
        seq![]
    } else {
        counter_lines(s.drop_last()) + metric_lines(
            s.last().0@,
            " counter\n"@,
            text::nat_text(s.last().1.0 as nat),
        )
    }
}

pub open spec fn gauge_lines(s: Seq<(String, String)>) -> Seq<char>
    decreases s.len(),
{
    if s.len() == 0 {
        seq![]
    } else {
        gauge_lines(s.drop_last()) + metric_lines(s.last().0@, " gauge\n"@, s.last().1@)
    }
}

/// The exposition text of counters and gauges.
pub open spec fn exposition(counters: Seq<(String, Counter)>, gauges: Seq<(String, String)>) -> Seq<
    char,
> {
    counter_lines(counters) + gauge_lines(gauges)
}

fn append_metric(out: &mut String, name: &str, kind: &str, value: &str)
    ensures
        final(out)@ == old(out)@ + metric_lines(name@, kind@, value@),
{
    out.append("# TYPE ");
    out.append(name);
    out.append(kind);
    out.append(name);
    out.append(" ");
    out.append(value);
    out.append("\n");
    proof {
        assert(out@ =~= old(out)@ + metric_lines(name@, kind@, value@));
    }
}

/// The reply to a scrape: the status line, the type, the length of the body in
/// bytes, and the body.
pub open spec fn http_reply(body: Seq<char>) -> Seq<char> {
    "HTTP/1.0 200 OK\r\nContent-Type: text/plain; version=0.0.4\r\nContent-Length: "@
        + text::nat_text(vstd::utf8::encode_utf8(body).len()) + "\r\n\r\n"@ + body
}

/// The reply to a scrape.
pub fn metrics_reply(body: &str) -> (r: String)
    ensures
        r@ == http_reply(body@),
{
    let mut out = String::new();
    out.append("HTTP/1.0 200 OK\r\nContent-Type: text/plain; version=0.0.4\r\nContent-Length: ");
    text::append_nat(&mut out, body.as_bytes().len() as u128);
    out.append("\r\n\r\n");
    out.append(body);
    proof {
        assert(out@ =~= http_reply(body@));
    }
    out
}

} // verus!
