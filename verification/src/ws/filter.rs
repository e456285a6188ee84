//! Subscription filter set. A subscriber's set of [`Subscription`]s is
//! matched against each incoming event.

use vstd::prelude::*;

use crate::events::{event_guild, event_name, event_session, Event};
use crate::text::str_eq;

verus! {

#[derive(Debug, Clone, Copy, PartialEq, Eq, Hash, Structural)]
pub struct Filter {
    pub guild_id: Option<i64>,
    pub session_id: Option<u128>,
}

impl Default for Filter {
    fn default() -> (r: Filter)
        ensures
            r.guild_id is None && r.session_id is None,
    {
        Filter { guild_id: None, session_id: None }
    }
}

/// Does `f` let `e` through? Each set field must equal the event's.
pub open spec fn filter_matches(f: Filter, e: Event) -> bool {
    &&& (f.guild_id matches Some(g) ==> g == event_guild(e))
    &&& (f.session_id matches Some(s) ==> s == event_session(e))
}

#[derive(Debug, Hash)]
pub struct Subscription {
    pub event: String,
    pub filter: Filter,
}

impl View for Subscription {
    type V = (Seq<char>, Filter);

    open spec fn view(&self) -> (Seq<char>, Filter) {
        (self.event@, self.filter)
    }
}

impl Clone for Subscription {
    fn clone(&self) -> (r: Self)
        ensures
            r@ == self@,
    {
        Subscription { event: self.event.clone(), filter: self.filter }
    }
}

impl PartialEq for Subscription {
    fn eq(&self, other: &Self) -> (r: bool) {
        self.event == other.event && self.filter == other.filter
    }
}

impl vstd::std_specs::cmp::PartialEqSpecImpl for Subscription {
    open spec fn obeys_eq_spec() -> bool {
        true
    }

    open spec fn eq_spec(&self, other: &Self) -> bool {
        self@ == other@
    }
}

impl Eq for Subscription {}

/// The views of a list of event names.
pub open spec fn name_views(names: Seq<String>) -> Set<Seq<char>> {
    string_views(names).to_set()
}

/// `x`'s event name is not among `names`.
pub open spec fn unlisted(names: Seq<String>, x: (Seq<char>, Filter)) -> bool {
    !name_views(names).contains(x.0)
}

pub open spec fn sub_views(subs: Seq<Subscription>) -> Seq<(Seq<char>, Filter)> {
    subs.map_values(|s: Subscription| s@)
}

pub open spec fn string_views(names: Seq<String>) -> Seq<Seq<char>> {
    names.map_values(|n: String| n@)
}

#[derive(Debug)]
pub struct SubscriptionSet {
    subs: Vec<Subscription>,
}

impl View for SubscriptionSet {
    type V = Set<(Seq<char>, Filter)>;

    closed spec fn view(&self) -> Set<(Seq<char>, Filter)> {
        self.entries().to_set()
    }
}

impl SubscriptionSet {
    /// The stored subscriptions in order.
    pub closed spec fn entries(&self) -> Seq<(Seq<char>, Filter)> {
        sub_views(self.subs@)
    }

    /// No subscription is stored twice.
    pub closed spec fn wf(&self) -> bool {
        self.entries().no_duplicates()
    }

    pub fn new() -> (r: SubscriptionSet)
        ensures
            r.wf(),
            r@ == Set::<(Seq<char>, Filter)>::empty(),
    {
        let r = SubscriptionSet { subs: Vec::new() };
        assert(r.entries() =~= Seq::<(Seq<char>, Filter)>::empty());
        assert(r@ =~= Set::<(Seq<char>, Filter)>::empty());
        r
    }

    fn contains(&self, name: &String, filter: Filter) -> (r: bool)
        ensures
            r == self.entries().contains((name@, filter)),
    {
        let mut i: usize = 0;
        while i < self.subs.len()
            invariant
                i <= self.subs@.len(),
                forall|j: int| 0 <= j < i ==> self.entries()[j] != (name@, filter),
            decreases self.subs@.len() - i,
        {
            if self.subs[i].event == *name && self.subs[i].filter == filter {
                assert(self.entries()[i as int] == (name@, filter));
                return true;
            }
            i = i + 1;
        }
        false
    }

    /// Add one subscription per event name, all with `filter`.
    pub fn subscribe(&mut self, event_names: Vec<String>, filter: Filter)
        requires
            old(self).wf(),
        ensures
            final(self).wf(),
            final(self)@ == old(self)@.union(requested(event_names@, filter)),
    {
        let ghost added = requested(event_names@, filter);
        let mut i: usize = 0;
        while i < event_names.len()
            invariant
                i <= event_names@.len(),
                self.wf(),
                self@ == old(self)@.union(
                    Set::new(
                        |x: (Seq<char>, Filter)| x.1 == filter && exists|j: int|
                            0 <= j < i && event_names@[j]@ == x.0,
                    ),
                ),
            decreases event_names@.len() - i,
        {
            let name = event_names[i].clone();
            let ghost before = self.entries();
            let ghost prev = self@;
            let ghost new_x = (event_names@[i as int]@, filter);
            if !self.contains(&name, filter) {
                self.subs.push(Subscription { event: name, filter });
                assert(self.entries() =~= before.push(new_x));
                proof {
                    assert forall|a: int, b: int|
                        0 <= a < self.entries().len() && 0 <= b < self.entries().len() && a != b
                        implies self.entries()[a] != self.entries()[b] by {
                        if a < before.len() && b < before.len() {
                            assert(before[a] != before[b]);
                        } else if a == before.len() {
                            assert(before.contains(before[b]));
                        } else {
                            assert(before.contains(before[a]));
                        }
                    }
                    assert forall|x: (Seq<char>, Filter)| #[trigger] self@.contains(x) == prev.insert(new_x).contains(x) by {
                        if before.contains(x) {
                            let k = choose|k: int| 0 <= k < before.len() && before[k] == x;
                            assert(self.entries()[k] == x);
                        }
                        if x == new_x {
                            assert(self.entries()[before.len() as int] == x);
                        }
                        if self.entries().contains(x) {
                            let k = choose|k: int| 0 <= k < self.entries().len() && self.entries()[k] == x;
                            if k < before.len() {
                                assert(before[k] == x);
                            }
                        }
                    }
                    assert(self@ =~= prev.insert(new_x));
                }
            } else {
                assert(prev.contains(new_x));
                assert(self@ =~= prev.insert(new_x));
            }
            let ghost target_old = Set::new(
                |x: (Seq<char>, Filter)| x.1 == filter && exists|j: int| 0 <= j < i && event_names@[j]@ == x.0,
            );
            i = i + 1;
            proof {
                let target_new = Set::new(
                    |x: (Seq<char>, Filter)| x.1 == filter && exists|j: int| 0 <= j < i && event_names@[j]@ == x.0,
                );
                assert forall|x: (Seq<char>, Filter)| #[trigger] target_new.contains(x) == target_old.insert(new_x).contains(x) by {
                    if target_new.contains(x) {
                        let j = choose|j: int| 0 <= j < i && event_names@[j]@ == x.0;
                        if j < i - 1 {
                            assert(target_old.contains(x));
                        } else {
                            assert(x == new_x);
                        }
                    }
                    if target_old.contains(x) {
                        let j = choose|j: int| 0 <= j < i - 1 && event_names@[j]@ == x.0;
                        assert(0 <= j < i && event_names@[j]@ == x.0);
                    }
                    if x == new_x {
                        assert(0 <= i - 1 < i && event_names@[i - 1]@ == x.0);
                    }
                }
                assert(self@ =~= old(self)@.union(target_new));
            }
        }
        proof {
            assert forall|x: (Seq<char>, Filter)| #[trigger] added.contains(x) == (x.1 == filter && exists|j: int| 0 <= j < event_names@.len() && event_names@[j]@ == x.0) by {
                if name_views(event_names@).contains(x.0) {
                    let k = choose|k: int| 0 <= k < string_views(event_names@).len() && #[trigger] string_views(event_names@)[k] == x.0;
                    assert(event_names@[k]@ == x.0);
                }
                if exists|j: int| 0 <= j < event_names@.len() && event_names@[j]@ == x.0 {
                    let j = choose|j: int| 0 <= j < event_names@.len() && event_names@[j]@ == x.0;
                    assert(string_views(event_names@)[j] == x.0);
                }
            }
            assert(self@ =~= old(self)@.union(added));
        }
    }

    /// Drop every subscription whose event name is in `event_names`.
    pub fn unsubscribe(&mut self, event_names: Vec<String>)
        requires
            old(self).wf(),
        ensures
            final(self).wf(),
            final(self)@ == old(self)@.filter(|x: (Seq<char>, Filter)| !name_views(event_names@).contains(x.0)),
    {
        let ghost e = self.entries();
        let mut kept: Vec<Subscription> = Vec::new();
        let mut i: usize = 0;
        while i < self.subs.len()
            invariant
                i <= self.subs@.len(),
                e == self.entries(),
                e.no_duplicates(),
                sub_views(kept@).no_duplicates(),
                forall|x: (Seq<char>, Filter)| #[trigger] sub_views(kept@).contains(x)
                    <==> (e.take(i as int).contains(x) && unlisted(event_names@, x)),
            decreases self.subs@.len() - i,
        {
            let mut listed = false;
            let mut j: usize = 0;
            while j < event_names.len()
                invariant
                    j <= event_names@.len(),
                    i < self.subs@.len(),
                    listed == exists|k: int| 0 <= k < j && event_names@[k]@ == self.subs@[i as int].event@,
                decreases event_names@.len() - j,
            {
                if event_names[j] == self.subs[i].event {
                    listed = true;
                }
                j = j + 1;
            }
            let ghost v = self.subs@[i as int].event@;
            let ghost x_i = e[i as int];
            proof {
                if listed {
                    let k = choose|k: int| 0 <= k < j && event_names@[k]@ == v;
                    assert(string_views(event_names@)[k] == v);
                    assert(string_views(event_names@).contains(v));
                } else if name_views(event_names@).contains(v) {
                    let k = choose|k: int| 0 <= k < string_views(event_names@).len() && #[trigger] string_views(event_names@)[k] == v;
                    assert(event_names@[k]@ == v);
                }
                assert(x_i.0 == v);
                assert(listed ==> name_views(event_names@).contains(v));
                assert(!listed ==> !name_views(event_names@).contains(v));
                assert(unlisted(event_names@, x_i) == !listed);
            }
            let ghost before = sub_views(kept@);
            if !listed {
                kept.push(self.subs[i].clone());
                proof {
                    let after = sub_views(kept@);
                    assert(after =~= before.push(x_i));
                    assert(!e.take(i as int).contains(x_i)) by {
                        if e.take(i as int).contains(x_i) {
                            let k = choose|k: int| 0 <= k < i && #[trigger] e.take(i as int)[k] == x_i;
                            assert(e[k] == e[i as int]);
                        }
                    }
                    assert(!before.contains(x_i));
                    assert forall|a: int, b: int| 0 <= a < after.len() && 0 <= b < after.len() && a != b
                        implies after[a] != after[b] by {
                        if a < before.len() && b < before.len() {
                            assert(before[a] != before[b]);
                        } else if a == before.len() {
                            assert(before.contains(before[b]));
                        } else {
                            assert(before.contains(before[a]));
                        }
                    }
                }
            }
            i = i + 1;
            proof {
                let after = sub_views(kept@);
                assert(e.take(i as int)[i - 1] == x_i);
                if !listed {
                    assert(after[before.len() as int] == x_i);
                } else {
                    assert(after == before);
                }
                assert forall|x: (Seq<char>, Filter)| #[trigger] after.contains(x)
                    <==> (e.take(i as int).contains(x) && unlisted(event_names@, x)) by {
                    if e.take(i as int).contains(x) {
                        let k = choose|k: int| 0 <= k < i && #[trigger] e.take(i as int)[k] == x;
                        if k < i - 1 {
                            assert(e.take(i - 1).contains(x)) by {
                                assert(e.take(i - 1)[k] == x);
                            }
                        }
                    }
                    if e.take(i - 1).contains(x) {
                        let k = choose|k: int| 0 <= k < i - 1 && #[trigger] e.take(i - 1)[k] == x;
                        assert(e.take(i as int)[k] == x);
                    }
                    if x == x_i {
                        assert(e.take(i as int)[i - 1] == x);
                    }
                    if after.contains(x) && !before.contains(x) {
                        let k = choose|k: int| 0 <= k < after.len() && after[k] == x;
                        assert(k == before.len());
                    }
                    if before.contains(x) && !listed {
                        let k = choose|k: int| 0 <= k < before.len() && before[k] == x;
                        assert(after[k] == x);
                    }
                }
            }
        }
        self.subs = kept;
        proof {
            assert(e.take(e.len() as int) =~= e);
            assert(self@ =~= old(self)@.filter(|x: (Seq<char>, Filter)| !name_views(event_names@).contains(x.0)));
        }
    }

    /// Every active subscription, each once.
    pub fn active(&self) -> (r: Vec<Subscription>)
        requires
            self.wf(),
        ensures
            sub_views(r@) == self.entries(),
            sub_views(r@).no_duplicates(),
            sub_views(r@).to_set() == self@,
    {
        let mut out: Vec<Subscription> = Vec::new();
        let mut i: usize = 0;
        while i < self.subs.len()
            invariant
                i <= self.subs@.len(),
                sub_views(out@) == self.entries().take(i as int),
            decreases self.subs@.len() - i,
        {
            let c = self.subs[i].clone();
            assert(c@ == self.entries()[i as int]);
            let ghost prev = sub_views(out@);
            out.push(c);
            assert(sub_views(out@) =~= prev.push(c@));
            i = i + 1;
            assert(sub_views(out@) =~= self.entries().take(i as int));
        }
        assert(self.entries().take(self.entries().len() as int) =~= self.entries());
        out
    }

    /// Does any subscription accept `event`: same name, and a filter that
    /// lets it through?
    pub fn matches(&self, event: &Event) -> (r: bool)
        ensures
            r == exists|x: (Seq<char>, Filter)| self@.contains(x) && x.0 == event_name(*event)
                && filter_matches(x.1, *event),
    {
        let name = event.name();
        let guild = event.guild_id();
        let session = event.session_id();
        let mut i: usize = 0;
        while i < self.subs.len()
            invariant
                i <= self.subs@.len(),
                name@ == event_name(*event),
                guild == event_guild(*event),
                session == event_session(*event),
                forall|j: int| 0 <= j < i ==> !(self.entries()[j].0 == event_name(*event)
                    && filter_matches(#[trigger] self.entries()[j].1, *event)),
            decreases self.subs@.len() - i,
        {
            let s = &self.subs[i];
            if str_eq(s.event.as_str(), name) {
                let ok = match (s.filter.guild_id, s.filter.session_id) {
                    (None, None) => true,
                    (Some(g), None) => g == guild,
                    (None, Some(sid)) => sid == session,
                    (Some(g), Some(sid)) => g == guild && sid == session,
                };
                if ok {
                    assert(self@.contains(self.entries()[i as int]));
                    return true;
                }
            }
            i = i + 1;
        }
        proof {
            assert forall|x: (Seq<char>, Filter)| self@.contains(x) implies !(x.0 == event_name(*event) && filter_matches(x.1, *event)) by {
                let k = choose|k: int| 0 <= k < self.entries().len() && self.entries()[k] == x;
                assert(!(self.entries()[k].0 == event_name(*event) && filter_matches(self.entries()[k].1, *event)));
            }
        }
        false
    }
}

/// The subscriptions a subscribe request asks for: each listed name with
/// the request's filter.
pub open spec fn requested(event_names: Seq<String>, filter: Filter) -> Set<(Seq<char>, Filter)> {
    Set::new(|x: (Seq<char>, Filter)| x.1 == filter && name_views(event_names).contains(x.0))
}

/// Subscribing again with the same names and filter changes nothing.
pub proof fn lemma_subscribe_idempotent(s: Set<(Seq<char>, Filter)>, event_names: Seq<String>, filter: Filter)
    ensures
        s.union(requested(event_names, filter)).union(requested(event_names, filter)) == s.union(
            requested(event_names, filter),
        ),
{
    assert(s.union(requested(event_names, filter)).union(requested(event_names, filter)) =~= s.union(
        requested(event_names, filter),
    ));
}

/// Unsubscribing from names removes every subscription to them, whatever
/// its filter, and keeps every other subscription.
pub proof fn lemma_unsubscribe_exact(s: Set<(Seq<char>, Filter)>, event_names: Seq<String>, x: (Seq<char>, Filter))
    ensures
        s.filter(|y: (Seq<char>, Filter)| !name_views(event_names).contains(y.0)).contains(x) <==> (s.contains(x)
            && !name_views(event_names).contains(x.0)),
{
}

} // verus!
