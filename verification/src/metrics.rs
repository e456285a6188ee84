//! Prometheus-style counters and gauges.
//!
//! Metrics are kept per name, in ascending name order, and rendered in the
//! Prometheus text exposition format. Counters wrap around at `u64::MAX`
//! like an atomic `fetch_add`. Latency histograms keep their counts here;
//! choosing an observation's bucket from its seconds and printing the
//! bounds and the sum are floating-point work done by the application.

use vstd::prelude::*;

use crate::text::{chars_of, decimal, push_decimal, signed_decimal, i64_to_decimal};

verus! {

/// Strict lexicographic order on character sequences, by code point
/// (the order of `String`'s `Ord`).
pub open spec fn name_lt(a: Seq<char>, b: Seq<char>) -> bool
    decreases a.len(),
{
    if a.len() == 0 {
        b.len() > 0
    } else if b.len() == 0 {
        false
    } else if a[0] != b[0] {
        a[0] < b[0]
    } else {
        name_lt(a.drop_first(), b.drop_first())
    }
}

pub proof fn lemma_name_lt_irreflexive(a: Seq<char>)
    ensures
        !name_lt(a, a),
    decreases a.len(),
{
    if a.len() > 0 {
        lemma_name_lt_irreflexive(a.drop_first());
    }
}

pub proof fn lemma_name_lt_trichotomy(a: Seq<char>, b: Seq<char>)
    ensures
        a != b ==> (name_lt(a, b) || name_lt(b, a)),
        !(name_lt(a, b) && name_lt(b, a)),
    decreases a.len(),
{
    if a.len() > 0 && b.len() > 0 {
        lemma_name_lt_trichotomy(a.drop_first(), b.drop_first());
        if a[0] == b[0] && a.drop_first() == b.drop_first() {
            assert(a =~= seq![a[0]] + a.drop_first());
            assert(b =~= seq![b[0]] + b.drop_first());
        }
    } else if a.len() == 0 && b.len() == 0 {
        assert(a =~= b);
    }
}

pub proof fn lemma_name_lt_transitive(a: Seq<char>, b: Seq<char>, c: Seq<char>)
    requires
        name_lt(a, b),
        name_lt(b, c),
    ensures
        name_lt(a, c),
    decreases a.len(),
{
    if a.len() > 0 && b.len() > 0 && c.len() > 0 {
        if a[0] == b[0] && b[0] == c[0] {
            lemma_name_lt_transitive(a.drop_first(), b.drop_first(), c.drop_first());
        }
    }
}

/// Names strictly ascending.
pub open spec fn names_sorted<V>(s: Seq<(Seq<char>, V)>) -> bool {
    forall|i: int, j: int| 0 <= i < j < s.len() ==> name_lt(#[trigger] s[i].0, #[trigger] s[j].0)
}

/// The map of a sorted association list.
pub open spec fn assoc_map<V>(s: Seq<(Seq<char>, V)>) -> Map<Seq<char>, V>
    decreases s.len(),
{
    if s.len() == 0 {
        Map::empty()
    } else {
        assoc_map(s.drop_last()).insert(s.last().0, s.last().1)
    }
}

struct NameTable<V> {
    entries: Vec<(String, V)>,
}

impl<V: Copy> NameTable<V> {
    spec fn view_seq(&self) -> Seq<(Seq<char>, V)> {
        self.entries@.map_values(|e: (String, V)| (e.0@, e.1))
    }

    spec fn wf(&self) -> bool {
        names_sorted(self.view_seq())
    }

    proof fn lemma_map_lookup(s: Seq<(Seq<char>, V)>, k: int)
        requires
            names_sorted(s),
            0 <= k < s.len(),
        ensures
            assoc_map(s).contains_key(s[k].0),
            assoc_map(s)[s[k].0] == s[k].1,
        decreases s.len(),
    {
        if k < s.len() - 1 {
            Self::lemma_map_lookup(s.drop_last(), k);
            lemma_name_lt_irreflexive(s[k].0);
            assert(name_lt(s[k].0, s.last().0));
        }
    }

    proof fn lemma_map_dom(s: Seq<(Seq<char>, V)>, n: Seq<char>)
        ensures
            assoc_map(s).contains_key(n) <==> exists|k: int| 0 <= k < s.len() && s[k].0 == n,
        decreases s.len(),
    {
        if s.len() > 0 {
            Self::lemma_map_dom(s.drop_last(), n);
            if assoc_map(s).contains_key(n) && n != s.last().0 {
                let k = choose|k: int| 0 <= k < s.len() - 1 && s.drop_last()[k].0 == n;
                assert(s[k].0 == n);
            }
            if exists|k: int| 0 <= k < s.len() && s[k].0 == n {
                let k = choose|k: int| 0 <= k < s.len() && s[k].0 == n;
                if k < s.len() - 1 {
                    assert(s.drop_last()[k].0 == n);
                }
            }
        }
    }

    fn new() -> (r: Self)
        ensures
            r.wf(),
            r.view_seq() == Seq::<(Seq<char>, V)>::empty(),
    {
        let r = NameTable { entries: Vec::new() };
        assert(r.view_seq() =~= Seq::<(Seq<char>, V)>::empty());
        r
    }

    /// Compare two names in `name_lt` order.
    fn less(a: &Vec<char>, b: &Vec<char>) -> (r: bool)
        ensures
            r == name_lt(a@, b@),
    {
        let mut i: usize = 0;
        assert(a@.skip(0) =~= a@);
        assert(b@.skip(0) =~= b@);
        while i < a.len() && i < b.len()
            invariant
                i <= a@.len(),
                i <= b@.len(),
                forall|j: int| 0 <= j < i ==> a@[j] == b@[j],
                name_lt(a@, b@) == name_lt(a@.skip(i as int), b@.skip(i as int)),
            decreases a@.len() - i,
        {
            if a[i] != b[i] {
                assert(a@.skip(i as int)[0] == a@[i as int]);
                assert(b@.skip(i as int)[0] == b@[i as int]);
                return a[i] < b[i];
            }
            assert(a@.skip(i as int).drop_first() =~= a@.skip(i + 1));
            assert(b@.skip(i as int).drop_first() =~= b@.skip(i + 1));
            i = i + 1;
        }
        i < b.len()
    }

    /// The position where `name` is or would be inserted, and whether it is there.
    fn find(&self, name: &Vec<char>) -> (r: (usize, bool))
        requires
            self.wf(),
        ensures
            r.0 <= self.view_seq().len(),
            forall|k: int| 0 <= k < r.0 ==> name_lt(#[trigger] self.view_seq()[k].0, name@),
            r.1 ==> r.0 < self.view_seq().len() && self.view_seq()[r.0 as int].0 == name@,
            !r.1 ==> (r.0 < self.view_seq().len() ==> name_lt(name@, self.view_seq()[r.0 as int].0)),
    {
        let mut i: usize = 0;
        while i < self.entries.len()
            invariant
                i <= self.view_seq().len(),
                self.wf(),
                forall|k: int| 0 <= k < i ==> name_lt(#[trigger] self.view_seq()[k].0, name@),
            decreases self.view_seq().len() - i,
        {
            let cur = chars_of(self.entries[i].0.as_str());
            assert(cur@ == self.view_seq()[i as int].0);
            if !Self::less(&cur, name) {
                proof {
                    lemma_name_lt_trichotomy(cur@, name@);
                }
                let same = crate::text::chars_eq(&cur, name);
                return (i, same);
            }
            i = i + 1;
        }
        (i, false)
    }

    fn set(&mut self, name: &Vec<char>, value: V)
        requires
            old(self).wf(),
        ensures
            final(self).wf(),
            assoc_map(final(self).view_seq()) == assoc_map(old(self).view_seq()).insert(name@, value),
    {
        let (i, found) = self.find(name);
        let ghost old_s = self.view_seq();
        if found {
            self.entries.set(i, (crate::text::string_of(name), value));
            proof {
                let s = self.view_seq();
                assert(s =~= old_s.update(i as int, (name@, value)));
                assert(names_sorted(s)) by {
                    assert forall|a: int, b: int| 0 <= a < b < s.len() implies name_lt(#[trigger] s[a].0, #[trigger] s[b].0) by {
                        assert(names_sorted(old_s));
                        if a == i as int {
                            assert(old_s[a].0 == s[a].0);
                        }
                        if b == i as int {
                            assert(old_s[b].0 == s[b].0);
                        }
                        assert(old_s[a].0 == s[a].0);
                        assert(old_s[b].0 == s[b].0);
                    }
                }
                Self::lemma_same_map_update(old_s, i as int, value);
            }
        } else {
            self.entries.insert(i, (crate::text::string_of(name), value));
            proof {
                let s = self.view_seq();
                assert(s =~= old_s.insert(i as int, (name@, value)));
                assert(names_sorted(s)) by {
                    assert forall|a: int, b: int| 0 <= a < b < s.len() implies name_lt(#[trigger] s[a].0, #[trigger] s[b].0) by {
                        if a < i && b < i {
                            assert(s[a] == old_s[a] && s[b] == old_s[b]);
                        } else if a < i && b == i {
                            assert(s[a] == old_s[a]);
                        } else if a < i && b > i {
                            assert(s[a] == old_s[a] && s[b] == old_s[b - 1]);
                        } else if a == i {
                            assert(s[b] == old_s[b - 1]);
                            if b - 1 > i {
                                assert(name_lt(old_s[i as int].0, old_s[b - 1].0));
                                lemma_name_lt_transitive(name@, old_s[i as int].0, old_s[b - 1].0);
                            }
                        } else {
                            assert(s[a] == old_s[a - 1] && s[b] == old_s[b - 1]);
                        }
                    }
                }
                Self::lemma_insert_map(old_s, i as int, name@, value);
            }
        }
    }

    proof fn lemma_same_map_update(s: Seq<(Seq<char>, V)>, i: int, v: V)
        requires
            names_sorted(s),
            0 <= i < s.len(),
            names_sorted(s.update(i, (s[i].0, v))),
        ensures
            assoc_map(s.update(i, (s[i].0, v))) == assoc_map(s).insert(s[i].0, v),
    {
        let t = s.update(i, (s[i].0, v));
        let n0 = s[i].0;
        assert forall|n: Seq<char>| #[trigger] assoc_map(t).contains_key(n) == assoc_map(s).insert(n0, v).contains_key(n) by {
            Self::lemma_map_dom(s, n);
            Self::lemma_map_dom(t, n);
            if exists|k: int| 0 <= k < s.len() && s[k].0 == n {
                let k = choose|k: int| 0 <= k < s.len() && s[k].0 == n;
                assert(t[k].0 == n);
            }
            if exists|k: int| 0 <= k < t.len() && t[k].0 == n {
                let k = choose|k: int| 0 <= k < t.len() && t[k].0 == n;
                assert(s[k].0 == n);
            }
        }
        assert forall|n: Seq<char>| #[trigger] assoc_map(t).contains_key(n) implies assoc_map(t)[n] == assoc_map(s).insert(n0, v)[n] by {
            Self::lemma_map_dom(t, n);
            let k = choose|k: int| 0 <= k < t.len() && t[k].0 == n;
            Self::lemma_map_lookup(t, k);
            if k != i {
                Self::lemma_map_lookup(s, k);
                lemma_name_lt_irreflexive(n);
                if k < i {
                    assert(name_lt(s[k].0, s[i].0));
                } else {
                    assert(name_lt(s[i].0, s[k].0));
                }
            }
        }
        assert(assoc_map(t) =~= assoc_map(s).insert(n0, v));
    }

    proof fn lemma_insert_map(s: Seq<(Seq<char>, V)>, i: int, n0: Seq<char>, v: V)
        requires
            names_sorted(s),
            0 <= i <= s.len(),
            names_sorted(s.insert(i, (n0, v))),
        ensures
            assoc_map(s.insert(i, (n0, v))) == assoc_map(s).insert(n0, v),
    {
        let t = s.insert(i, (n0, v));
        assert forall|n: Seq<char>| #[trigger] assoc_map(t).contains_key(n) == assoc_map(s).insert(n0, v).contains_key(n) by {
            Self::lemma_map_dom(s, n);
            Self::lemma_map_dom(t, n);
            if exists|k: int| 0 <= k < s.len() && s[k].0 == n {
                let k = choose|k: int| 0 <= k < s.len() && s[k].0 == n;
                if k < i {
                    assert(t[k].0 == n);
                } else {
                    assert(t[k + 1].0 == n);
                }
            }
            if n == n0 {
                assert(t[i].0 == n);
            }
            if exists|k: int| 0 <= k < t.len() && t[k].0 == n {
                let k = choose|k: int| 0 <= k < t.len() && t[k].0 == n;
                if k < i {
                    assert(s[k].0 == n);
                } else if k > i {
                    assert(s[k - 1].0 == n);
                }
            }
        }
        assert forall|n: Seq<char>| #[trigger] assoc_map(t).contains_key(n) implies assoc_map(t)[n] == assoc_map(s).insert(n0, v)[n] by {
            Self::lemma_map_dom(t, n);
            let k = choose|k: int| 0 <= k < t.len() && t[k].0 == n;
            Self::lemma_map_lookup(t, k);
            lemma_name_lt_irreflexive(n);
            if k < i {
                assert(t[k] == s[k]);
                Self::lemma_map_lookup(s, k);
                assert(name_lt(t[k].0, t[i].0));
            } else if k > i {
                assert(t[k] == s[k - 1]);
                Self::lemma_map_lookup(s, k - 1);
                assert(name_lt(t[i].0, t[k].0));
            }
        }
        assert(assoc_map(t) =~= assoc_map(s).insert(n0, v));
    }
}

/// One metric's exposition: its `# TYPE` line, then `name value`.
pub open spec fn metric_lines(name: Seq<char>, kind: Seq<char>, value: Seq<char>) -> Seq<char> {
    "# TYPE "@ + name + " "@ + kind + "\n"@ + name + " "@ + value + "\n"@
}

pub open spec fn render_counters(s: Seq<(Seq<char>, u64)>) -> Seq<char>
    decreases s.len(),
{
    if s.len() == 0 {
        Seq::empty()
    } else {
        render_counters(s.drop_last()) + metric_lines(s.last().0, "counter"@, decimal(s.last().1 as nat))
    }
}

pub open spec fn render_gauges(s: Seq<(Seq<char>, i64)>) -> Seq<char>
    decreases s.len(),
{
    if s.len() == 0 {
        Seq::empty()
    } else {
        render_gauges(s.drop_last()) + metric_lines(s.last().0, "gauge"@, signed_decimal(s.last().1 as int))
    }
}

/// Counters and gauges, each in ascending name order.
pub struct Metrics {
    counters: NameTable<u64>,
    gauges: NameTable<i64>,
}

impl Metrics {
    /// Counters, ascending by name.
    pub closed spec fn counter_list(&self) -> Seq<(Seq<char>, u64)> {
        self.counters.view_seq()
    }

    /// Gauges, ascending by name.
    pub closed spec fn gauge_list(&self) -> Seq<(Seq<char>, i64)> {
        self.gauges.view_seq()
    }

    pub open spec fn counter_map(&self) -> Map<Seq<char>, u64> {
        assoc_map(self.counter_list())
    }

    pub open spec fn gauge_map(&self) -> Map<Seq<char>, i64> {
        assoc_map(self.gauge_list())
    }

    pub closed spec fn wf(&self) -> bool {
        self.counters.wf() && self.gauges.wf()
    }

    pub proof fn lemma_wf_sorted(&self)
        requires
            self.wf(),
        ensures
            names_sorted(self.counter_list()),
            names_sorted(self.gauge_list()),
    {
    }

    pub fn new() -> (r: Metrics)
        ensures
            r.wf(),
            r.counter_list() == Seq::<(Seq<char>, u64)>::empty(),
            r.gauge_list() == Seq::<(Seq<char>, i64)>::empty(),
    {
        Metrics { counters: NameTable::new(), gauges: NameTable::new() }
    }

    /// Add `by` to counter `name` (starting from zero), wrapping at `u64::MAX`.
    pub fn inc_counter(&mut self, name: &str, by: u64)
        requires
            old(self).wf(),
        ensures
            final(self).wf(),
            final(self).gauge_list() == old(self).gauge_list(),
            final(self).counter_map() == old(self).counter_map().insert(
                name@,
                (if old(self).counter_map().contains_key(name@) {
                    old(self).counter_map()[name@]
                } else {
                    0
                }).wrapping_add(by),
            ),
    {
        let key = chars_of(name);
        let (i, found) = self.counters.find(&key);
        let current: u64 = if found { self.counters.entries[i].1 } else { 0 };
        proof {
            let s = self.counters.view_seq();
            NameTable::<u64>::lemma_map_dom(s, name@);
            if found {
                NameTable::<u64>::lemma_map_lookup(s, i as int);
            } else {
                if assoc_map(s).contains_key(name@) {
                    let k = choose|k: int| 0 <= k < s.len() && s[k].0 == name@;
                    lemma_name_lt_irreflexive(name@);
                    if k < i {
                        assert(name_lt(s[k].0, name@));
                    } else if k > i {
                        assert(name_lt(name@, s[i as int].0));
                        assert(name_lt(s[i as int].0, s[k].0));
                        lemma_name_lt_transitive(name@, s[i as int].0, s[k].0);
                    }
                }
            }
        }
        self.counters.set(&key, current.wrapping_add(by));
    }

    /// Set gauge `name` to `value`.
    pub fn set_gauge(&mut self, name: &str, value: i64)
        requires
            old(self).wf(),
        ensures
            final(self).wf(),
            final(self).counter_list() == old(self).counter_list(),
            final(self).gauge_map() == old(self).gauge_map().insert(name@, value),
    {
        let key = chars_of(name);
        self.gauges.set(&key, value);
    }

    /// The counters, then the gauges, in Prometheus text format.
    pub fn render(&self) -> (r: String)
        ensures
            r@ == render_counters(self.counter_list()) + render_gauges(self.gauge_list()),
    {
        let mut out = String::new();
        let mut i: usize = 0;
        while i < self.counters.entries.len()
            invariant
                i <= self.counter_list().len(),
                out@ == render_counters(self.counter_list().take(i as int)),
            decreases self.counter_list().len() - i,
        {
            let name = self.counters.entries[i].0.as_str();
            out.append("# TYPE ");
            out.append(name);
            out.append(" counter\n");
            out.append(name);
            out.append(" ");
            push_decimal(&mut out, self.counters.entries[i].1);
            out.append("\n");
            proof {
                let s = self.counter_list();
                assert(s.take(i + 1).drop_last() =~= s.take(i as int));
                assert(s.take(i + 1).last() == s[i as int]);
                reveal_strlit("# TYPE ");
                reveal_strlit(" counter\n");
                reveal_strlit(" ");
                reveal_strlit("\n");
                reveal_strlit("counter");
                assert(out@ =~= render_counters(s.take(i + 1)));
            }
            i = i + 1;
        }
        assert(self.counter_list().take(self.counter_list().len() as int) =~= self.counter_list());
        let ghost counters_text = out@;
        let mut j: usize = 0;
        while j < self.gauges.entries.len()
            invariant
                j <= self.gauge_list().len(),
                out@ == counters_text + render_gauges(self.gauge_list().take(j as int)),
            decreases self.gauge_list().len() - j,
        {
            let name = self.gauges.entries[j].0.as_str();
            out.append("# TYPE ");
            out.append(name);
            out.append(" gauge\n");
            out.append(name);
            out.append(" ");
            let v = i64_to_decimal(self.gauges.entries[j].1);
            out.append(v.as_str());
            out.append("\n");
            proof {
                let s = self.gauge_list();
                assert(s.take(j + 1).drop_last() =~= s.take(j as int));
                assert(s.take(j + 1).last() == s[j as int]);
                reveal_strlit("# TYPE ");
                reveal_strlit(" gauge\n");
                reveal_strlit(" ");
                reveal_strlit("\n");
                reveal_strlit("gauge");
                assert(out@ =~= counters_text + render_gauges(s.take(j + 1)));
            }
            j = j + 1;
        }
        assert(self.gauge_list().take(self.gauge_list().len() as int) =~= self.gauge_list());
        out
    }
}

/// Two increments of a counter add up as one increment by their (wrapping)
/// sum: the order and grouping of increments do not matter.
pub proof fn lemma_counter_increments_combine(c: u64, a: u64, b: u64)
    ensures
        c.wrapping_add(a).wrapping_add(b) == c.wrapping_add(a.wrapping_add(b)),
        c.wrapping_add(a).wrapping_add(b) == c.wrapping_add(b).wrapping_add(a),
{
}


/// Number of bounded histogram buckets (upper bounds 5 ms … 10 s); an
/// observation above every bound counts only towards `+Inf`.
pub const HISTOGRAM_BUCKETS: usize = 11;

/// 2^64: counts wrap modulo this, like an atomic `fetch_add`.
pub open spec fn wrap_modulus() -> int {
    0x1_0000_0000_0000_0000
}

/// `x` modulo 2^64.
pub open spec fn wrap(x: nat) -> int {
    (x as int) % wrap_modulus()
}

/// Observations whose first fitting bucket is `b`. An observation is the
/// index of the first bucket whose bound it does not exceed (`None` above
/// them all) and its duration in nanoseconds.
pub open spec fn count_in(obs: Seq<(Option<nat>, u64)>, b: nat) -> nat
    decreases obs.len(),
{
    if obs.len() == 0 {
        0
    } else {
        count_in(obs.drop_last(), b) + if obs.last().0 == Some(b) { 1nat } else { 0nat }
    }
}

/// Observations at or below bucket `i`'s bound: the Prometheus cumulative
/// count `le = bound(i)`.
pub open spec fn count_upto(obs: Seq<(Option<nat>, u64)>, i: nat) -> nat
    decreases obs.len(),
{
    if obs.len() == 0 {
        0
    } else {
        count_upto(obs.drop_last(), i) + if obs.last().0 matches Some(b) && b <= i { 1nat } else { 0nat }
    }
}

/// Total duration of the observations, in nanoseconds.
pub open spec fn nanos_total(obs: Seq<(Option<nat>, u64)>) -> nat
    decreases obs.len(),
{
    if obs.len() == 0 {
        0
    } else {
        nanos_total(obs.drop_last()) + (obs.last().1 as nat)
    }
}

proof fn lemma_count_upto_step(obs: Seq<(Option<nat>, u64)>, i: nat)
    ensures
        i == 0 ==> count_upto(obs, i) == count_in(obs, 0),
        i > 0 ==> count_upto(obs, i) == count_upto(obs, (i - 1) as nat) + count_in(obs, i),
    decreases obs.len(),
{
    if obs.len() > 0 {
        lemma_count_upto_step(obs.drop_last(), i);
    }
}

proof fn lemma_wrapping_sum(x: int, y: int)
    requires
        x >= 0,
        y >= 0,
    ensures
        ((x % wrap_modulus()) as u64).wrapping_add((y % wrap_modulus()) as u64) == ((x + y) % wrap_modulus()) as u64,
{
    let m = wrap_modulus();
    let a = x % m;
    let b = y % m;
    vstd::arithmetic::div_mod::lemma_add_mod_noop(x, y, m);
    if a + b >= m {
        vstd::arithmetic::div_mod::lemma_mod_add_multiples_vanish(a + b - m, m);
        vstd::arithmetic::div_mod::lemma_small_mod((a + b - m) as nat, m as nat);
    } else {
        vstd::arithmetic::div_mod::lemma_small_mod((a + b) as nat, m as nat);
    }
}

/// The counts of one latency histogram.
pub struct HistogramCounts {
    counts: Vec<u64>,
    sum_nanos: u64,
    count: u64,
    seen: Ghost<Seq<(Option<nat>, u64)>>,
}

impl HistogramCounts {
    /// Every observation so far, oldest first.
    pub closed spec fn observations(&self) -> Seq<(Option<nat>, u64)> {
        self.seen@
    }

    pub closed spec fn wf(&self) -> bool {
        &&& self.counts@.len() == HISTOGRAM_BUCKETS
        &&& forall|b: int| 0 <= b < HISTOGRAM_BUCKETS ==> #[trigger] self.counts@[b] as int == wrap(count_in(self.seen@, b as nat))
        &&& self.count as int == wrap(self.seen@.len())
        &&& self.sum_nanos as int == wrap(nanos_total(self.seen@))
    }

    pub fn new() -> (r: HistogramCounts)
        ensures
            r.wf(),
            r.observations() == Seq::<(Option<nat>, u64)>::empty(),
    {
        let counts = vec![0u64; HISTOGRAM_BUCKETS];
        HistogramCounts { counts, sum_nanos: 0, count: 0, seen: Ghost(Seq::empty()) }
    }

    /// Record one observation: `bucket` is the first bucket whose bound it
    /// does not exceed (`None` above them all), `nanos` its duration.
    pub fn observe(&mut self, bucket: Option<usize>, nanos: u64)
        requires
            old(self).wf(),
            bucket matches Some(b) ==> b < HISTOGRAM_BUCKETS,
        ensures
            final(self).wf(),
            final(self).observations() == old(self).observations().push((
                match bucket {
                    Some(b) => Some(b as nat),
                    None => None,
                },
                nanos,
            )),
    {
        let ghost old_seen = self.seen@;
        let ghost o: (Option<nat>, u64) = (
            match bucket {
                Some(b) => Some(b as nat),
                None => None,
            },
            nanos,
        );
        let ghost new_seen = old_seen.push(o);
        proof {
            assert(new_seen.drop_last() =~= old_seen);
            lemma_wrapping_sum(nanos_total(old_seen) as int, nanos as int);
            lemma_wrapping_sum(old_seen.len() as int, 1);
            vstd::arithmetic::div_mod::lemma_small_mod(nanos as nat, wrap_modulus() as nat);
            vstd::arithmetic::div_mod::lemma_small_mod(1, wrap_modulus() as nat);
        }
        self.sum_nanos = self.sum_nanos.wrapping_add(nanos);
        self.count = self.count.wrapping_add(1);
        match bucket {
            Some(b) => {
                proof {
                    lemma_wrapping_sum(count_in(old_seen, b as nat) as int, 1);
                }
                let c = self.counts[b].wrapping_add(1);
                self.counts.set(b, c);
            },
            None => {},
        }
        self.seen = Ghost(new_seen);
        proof {
            assert forall|k: int| 0 <= k < HISTOGRAM_BUCKETS implies self.counts@[k] as int == wrap(#[trigger] count_in(new_seen, k as nat)) by {
                assert(count_in(new_seen, k as nat) == count_in(old_seen, k as nat) + if o.0 == Some(k as nat) { 1nat } else { 0nat });
            }
        }
    }

    /// Observations so far (the `+Inf` bucket and `_count`), wrapping.
    pub fn count(&self) -> (r: u64)
        requires
            self.wf(),
        ensures
            r as int == wrap(self.observations().len()),
    {
        self.count
    }

    /// Total nanoseconds observed, wrapping.
    pub fn sum_nanos(&self) -> (r: u64)
        requires
            self.wf(),
        ensures
            r as int == wrap(nanos_total(self.observations())),
    {
        self.sum_nanos
    }

    /// The cumulative bucket counts of the exposition format: entry `i` is
    /// the number of observations at or below bucket `i`'s bound.
    pub fn cumulative(&self) -> (r: Vec<u64>)
        requires
            self.wf(),
        ensures
            r@.len() == HISTOGRAM_BUCKETS,
            forall|i: int| 0 <= i < HISTOGRAM_BUCKETS ==> r@[i] as int == wrap(#[trigger] count_upto(self.observations(), i as nat)),
    {
        let ghost obs = self.seen@;
        let mut out: Vec<u64> = Vec::new();
        let mut acc: u64 = 0;
        let mut i: usize = 0;
        while i < HISTOGRAM_BUCKETS
            invariant
                self.wf(),
                obs == self.seen@,
                i <= HISTOGRAM_BUCKETS,
                out@.len() == i,
                forall|k: int| 0 <= k < i ==> out@[k] as int == wrap(#[trigger] count_upto(obs, k as nat)),
                i == 0 ==> acc == 0,
                i > 0 ==> acc as int == wrap(count_upto(obs, (i - 1) as nat)),
            decreases HISTOGRAM_BUCKETS - i,
        {
            proof {
                lemma_count_upto_step(obs, i as nat);
                assert(self.counts@[i as int] as int == wrap(count_in(obs, i as nat)));
                if i == 0 {
                    lemma_wrapping_sum(0, count_in(obs, 0) as int);
                    vstd::arithmetic::div_mod::lemma_small_mod(0, wrap_modulus() as nat);
                } else {
                    lemma_wrapping_sum(count_upto(obs, (i - 1) as nat) as int, count_in(obs, i as nat) as int);
                }
            }
            acc = acc.wrapping_add(self.counts[i]);
            out.push(acc);
            i = i + 1;
        }
        out
    }
}

/// The cumulative counts of a histogram never decrease from one bound to
/// the next, and none exceeds the number of observations (`+Inf`).
pub proof fn lemma_cumulative_counts_monotone(obs: Seq<(Option<nat>, u64)>, i: nat, j: nat)
    requires
        i <= j,
    ensures
        count_upto(obs, i) <= count_upto(obs, j),
        count_upto(obs, j) <= obs.len(),
    decreases obs.len(),
{
    if obs.len() > 0 {
        lemma_cumulative_counts_monotone(obs.drop_last(), i, j);
    }
}

} // verus!
