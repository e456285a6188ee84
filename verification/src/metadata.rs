//! The per-session metadata blob: a JSON document versioned by an ETag,
//! replaced wholesale or shallow-merged under an `If-Match` precondition.
//!
//! The logic only looks at the top level of a document; member values are
//! carried through as opaque `serde_json::Value`s.

use vstd::prelude::*;

use crate::error::AppError;
use crate::ids::ETag;

verus! {

/// `serde_json::Value`, carried as an opaque value.
#[verifier::external_type_specification]
#[verifier::external_body]
pub struct ExJsonValue(serde_json::Value);

/// A JSON document by its top level.
pub enum JsonDoc {
    Null,
    /// An object's members, keys distinct.
    Object(Vec<(String, serde_json::Value)>),
    /// Any other JSON value (number, string, bool, array).
    Other(serde_json::Value),
}

/// The keys of a member list, in order.
pub open spec fn member_keys(m: Seq<(String, serde_json::Value)>) -> Seq<Seq<char>> {
    m.map_values(|e: (String, serde_json::Value)| e.0@)
}

/// A member list as a map from key to value; a later member wins over an
/// earlier one with the same key.
pub open spec fn members_map(m: Seq<(String, serde_json::Value)>) -> Map<Seq<char>, serde_json::Value>
    decreases m.len(),
{
    if m.len() == 0 {
        Map::empty()
    } else {
        members_map(m.drop_last()).insert(m.last().0@, m.last().1)
    }
}

impl JsonDoc {
    /// An object's keys are distinct.
    pub open spec fn wf(self) -> bool {
        self matches JsonDoc::Object(m) ==> member_keys(m@).no_duplicates()
    }
}

/// Shallow merge: the patch's members replace or add top-level members of
/// the base; nested values are replaced wholesale.
pub open spec fn merged(
    base: Map<Seq<char>, serde_json::Value>,
    patch: Map<Seq<char>, serde_json::Value>,
) -> Map<Seq<char>, serde_json::Value> {
    base.union_prefer_right(patch)
}

/// The members a base document contributes to a merge: none for `null`.
pub open spec fn base_members(d: JsonDoc) -> Map<Seq<char>, serde_json::Value> {
    match d {
        JsonDoc::Object(m) => members_map(m@),
        _ => Map::empty(),
    }
}

pub open spec fn base_not_object_message() -> Seq<char> {
    "existing metadata blob is not an object — cannot shallow-merge"@
}

pub open spec fn patch_not_object_message() -> Seq<char> {
    "patch body must be a JSON object"@
}

/// Overwriting the member at `i` with a member of the same key is an
/// insert on the map.
proof fn lemma_members_map_update(m: Seq<(String, serde_json::Value)>, i: int, e: (String, serde_json::Value))
    requires
        member_keys(m).no_duplicates(),
        0 <= i < m.len(),
        m[i].0@ == e.0@,
    ensures
        members_map(m.update(i, e)) == members_map(m).insert(e.0@, e.1),
        member_keys(m.update(i, e)) == member_keys(m),
    decreases m.len(),
{
    let u = m.update(i, e);
    assert(member_keys(u) =~= member_keys(m));
    let ks = member_keys(m);
    if i == m.len() - 1 {
        assert(u.drop_last() =~= m.drop_last());
        assert(members_map(u) =~= members_map(m).insert(e.0@, e.1));
    } else {
        let ks0 = member_keys(m.drop_last());
        assert(ks0 =~= ks.drop_last());
        assert(ks0.no_duplicates()) by {
            assert forall|a: int, b: int| 0 <= a < ks0.len() && 0 <= b < ks0.len() && a != b implies ks0[a] != ks0[b] by {
                assert(ks[a] != ks[b]);
            }
        }
        assert(u.drop_last() =~= m.drop_last().update(i, e));
        lemma_members_map_update(m.drop_last(), i, e);
        assert(ks[i] != ks[m.len() - 1]);
        assert(members_map(u) =~= members_map(m).insert(e.0@, e.1));
    }
}

/// What a shallow merge keeps: each patched key takes the patch's value,
/// every other key of the base keeps its own, and no other key appears.
pub proof fn lemma_merge_members(
    base: Map<Seq<char>, serde_json::Value>,
    patch: Map<Seq<char>, serde_json::Value>,
    k: Seq<char>,
)
    ensures
        patch.contains_key(k) ==> merged(base, patch).contains_key(k) && merged(base, patch)[k] == patch[k],
        !patch.contains_key(k) && base.contains_key(k) ==> merged(base, patch).contains_key(k)
            && merged(base, patch)[k] == base[k],
        !patch.contains_key(k) && !base.contains_key(k) ==> !merged(base, patch).contains_key(k),
{
}

/// Replaying a merge changes nothing, and an empty patch changes nothing.
pub proof fn lemma_merge_replay(base: Map<Seq<char>, serde_json::Value>, patch: Map<Seq<char>, serde_json::Value>)
    ensures
        merged(merged(base, patch), patch) == merged(base, patch),
        merged(base, Map::empty()) == base,
{
    assert(merged(merged(base, patch), patch) =~= merged(base, patch));
    assert(merged(base, Map::empty()) =~= base);
}

/// Sets `key` to `value` in a member list with distinct keys: in place if
/// the key is present, appended otherwise.
fn upsert_member(members: &mut Vec<(String, serde_json::Value)>, key: String, value: serde_json::Value)
    requires
        member_keys(old(members)@).no_duplicates(),
    ensures
        member_keys(final(members)@).no_duplicates(),
        members_map(final(members)@) == members_map(old(members)@).insert(key@, value),
{
    let mut i: usize = 0;
    let n = members.len();
    while i < n
        invariant
            n == members@.len(),
            i <= n,
            forall|j: int| 0 <= j < i ==> members@[j].0@ != key@,
        ensures
            i <= n,
            forall|j: int| 0 <= j < i ==> members@[j].0@ != key@,
            i < n ==> members@[i as int].0@ == key@,
        decreases n - i,
    {
        if members[i].0 == key {
            break;
        }
        i = i + 1;
    }
    let ghost before = members@;
    if i < n {
        proof {
            lemma_members_map_update(before, i as int, (key, value));
        }
        members.set(i, (key, value));
    } else {
        let ghost e = (key, value);
        proof {
            let ks = member_keys(before);
            assert forall|j: int| 0 <= j < ks.len() implies ks[j] != key@ by {
                assert(before[j].0@ != key@);
            }
            assert(member_keys(before.push(e)) =~= ks.push(key@));
            assert(before.push(e).drop_last() =~= before);
        }
        members.push((key, value));
    }
}

/// Merges `patch`'s members into `base`, in the patch's order.
fn merge_members(base: &mut Vec<(String, serde_json::Value)>, patch: Vec<(String, serde_json::Value)>)
    requires
        member_keys(old(base)@).no_duplicates(),
    ensures
        member_keys(final(base)@).no_duplicates(),
        members_map(final(base)@) == merged(members_map(old(base)@), members_map(patch@)),
{
    let mut rest = patch;
    let ghost whole = rest@;
    let ghost start = members_map(base@);
    let ghost mut done: int = 0;
    while rest.len() > 0
        invariant
            0 <= done <= whole.len(),
            rest@ == whole.skip(done),
            member_keys(base@).no_duplicates(),
            members_map(base@) == start.union_prefer_right(members_map(whole.take(done))),
        decreases rest@.len(),
    {
        let (k, v) = rest.remove(0);
        proof {
            assert(whole[done] == (k, v));
            assert(whole.take(done + 1).drop_last() =~= whole.take(done));
            assert(start.union_prefer_right(members_map(whole.take(done + 1))) =~= start.union_prefer_right(
                members_map(whole.take(done)),
            ).insert(k@, v));
        }
        upsert_member(base, k, v);
        proof {
            done = done + 1;
            assert(rest@ =~= whole.skip(done));
        }
    }
    proof {
        assert(whole.take(done) =~= whole);
    }
}

/// Shallow-merges `patch` into `base`. A `null` base counts as an empty
/// object; any other non-object base, or a non-object patch, is a bad
/// request (the base is checked first).
pub fn merge_shallow(base: JsonDoc, patch: JsonDoc) -> (r: Result<JsonDoc, AppError>)
    requires
        base.wf(),
    ensures
        base is Other ==> (r matches Err(AppError::BadRequest(m)) && m@ == base_not_object_message()),
        !(base is Other) && !(patch is Object) ==> (r matches Err(AppError::BadRequest(m))
            && m@ == patch_not_object_message()),
        !(base is Other) && patch is Object ==> (r matches Ok(d) && d.wf() && (d matches JsonDoc::Object(m)
            && members_map(m@) == merged(base_members(base), members_map(patch->Object_0@)))),
{
    let ghost base0 = base;
    let mut base_obj = match base {
        JsonDoc::Object(m) => m,
        JsonDoc::Null => Vec::new(),
        JsonDoc::Other(_) => {
            return Err(
                AppError::BadRequest(
                    "existing metadata blob is not an object — cannot shallow-merge".to_owned(),
                ),
            );
        },
    };
    proof {
        assert(members_map(base_obj@) == base_members(base0)) by {
            if base0 is Null {
                assert(members_map(base_obj@) =~= Map::empty());
            }
        }
    }
    let patch_obj = match patch {
        JsonDoc::Object(m) => m,
        _ => {
            return Err(AppError::BadRequest("patch body must be a JSON object".to_owned()));
        },
    };
    merge_members(&mut base_obj, patch_obj);
    Ok(JsonDoc::Object(base_obj))
}

/// `s` without its leading run of `"`.
pub open spec fn strip_leading_quotes(s: Seq<char>) -> Seq<char>
    decreases s.len(),
{
    if s.len() > 0 && s[0] == '"' {
        strip_leading_quotes(s.drop_first())
    } else {
        s
    }
}

/// `s` without its trailing run of `"`.
pub open spec fn strip_trailing_quotes(s: Seq<char>) -> Seq<char>
    decreases s.len(),
{
    if s.len() > 0 && s.last() == '"' {
        strip_trailing_quotes(s.drop_last())
    } else {
        s
    }
}

/// `s` with every leading and trailing `"` removed.
pub open spec fn trim_quotes(s: Seq<char>) -> Seq<char> {
    strip_trailing_quotes(strip_leading_quotes(s))
}

proof fn lemma_strip_leading_suffix(s: Seq<char>, i: int)
    requires
        0 <= i <= s.len(),
        forall|j: int| 0 <= j < i ==> s[j] == '"',
    ensures
        strip_leading_quotes(s) == strip_leading_quotes(s.skip(i)),
    decreases i,
{
    if i > 0 {
        assert(s.drop_first().skip(i - 1) =~= s.skip(i));
        lemma_strip_leading_suffix(s.drop_first(), i - 1);
    } else {
        assert(s.skip(0) =~= s);
    }
}

proof fn lemma_strip_trailing_prefix(s: Seq<char>, k: int)
    requires
        0 <= k <= s.len(),
        forall|j: int| k <= j < s.len() ==> s[j] == '"',
    ensures
        strip_trailing_quotes(s) == strip_trailing_quotes(s.take(k)),
    decreases s.len() - k,
{
    if k < s.len() {
        assert(s.drop_last().take(k) =~= s.take(k));
        lemma_strip_trailing_prefix(s.drop_last(), k);
    } else {
        assert(s.take(k) =~= s);
    }
}

/// The tag an `If-Match` header names: its value with surrounding quotes
/// removed.
pub fn if_match_tag(raw: &str) -> (r: ETag)
    ensures
        r@ == trim_quotes(raw@),
{
    let cs = crate::text::chars_of(raw);
    let n = cs.len();
    let mut i: usize = 0;
    while i < n && cs[i] == '"'
        invariant
            n == cs@.len(),
            cs@ == raw@,
            i <= n,
            forall|j: int| 0 <= j < i ==> cs@[j] == '"',
        decreases n - i,
    {
        i = i + 1;
    }
    let mut k: usize = n;
    while k > i && cs[k - 1] == '"'
        invariant
            n == cs@.len(),
            i <= k <= n,
            forall|j: int| k <= j < n ==> cs@[j] == '"',
        decreases k,
    {
        k = k - 1;
    }
    let mut out = String::new();
    let mut p: usize = i;
    while p < k
        invariant
            n == cs@.len(),
            i <= p <= k <= n,
            out@ == cs@.subrange(i as int, p as int),
        decreases k - p,
    {
        crate::text::push_char(&mut out, cs[p]);
        p = p + 1;
        assert(out@ =~= cs@.subrange(i as int, p as int));
    }
    proof {
        let s = raw@;
        lemma_strip_leading_suffix(s, i as int);
        let t = s.skip(i as int);
        if i < n {
            assert(!(t.len() > 0 && t[0] == '"'));
        }
        assert(strip_leading_quotes(t) == t) by {
            if t.len() > 0 {
                assert(t[0] == s[i as int]);
            }
        }
        let kk = k - i;
        lemma_strip_trailing_prefix(t, kk);
        let u = t.take(kk);
        assert(u =~= s.subrange(i as int, k as int));
        if kk > 0 {
            assert(u.last() == s[k - 1]);
        }
        assert(strip_trailing_quotes(u) == u);
    }
    ETag(out)
}

/// The `ETag` header value for a tag: the tag in double quotes.
pub fn etag_header(tag: &ETag) -> (r: String)
    ensures
        r@ == seq!['"'] + tag@ + seq!['"'],
{
    let mut h = String::new();
    crate::text::push_char(&mut h, '"');
    h.append(tag.as_str());
    crate::text::push_char(&mut h, '"');
    assert(h@ =~= seq!['"'] + tag@ + seq!['"']);
    h
}

/// A tag sent as an `ETag` header and echoed back in `If-Match` is read as
/// the same tag, provided it does not itself begin or end with a quote
/// (no generated tag does: they are hex).
pub proof fn lemma_if_match_reads_etag_header(t: Seq<char>)
    requires
        t.len() > 0 ==> t[0] != '"' && t.last() != '"',
    ensures
        trim_quotes(seq!['"'] + t + seq!['"']) == t,
{
    let h = seq!['"'] + t + seq!['"'];
    assert(h.drop_first() =~= t + seq!['"']);
    let u = t + seq!['"'];
    assert(h[0] == '"');
    assert(strip_leading_quotes(h) == strip_leading_quotes(u));
    if t.len() > 0 {
        assert(u[0] == t[0]);
    } else {
        assert(u =~= seq!['"']);
        assert(u.drop_first() =~= Seq::<char>::empty());
        assert(strip_leading_quotes(u.drop_first()) == Seq::<char>::empty());
        assert(u[0] == '"');
        assert(strip_leading_quotes(u) == strip_leading_quotes(u.drop_first()));
    }
    if t.len() > 0 {
        assert(strip_leading_quotes(u) == u);
        assert(strip_leading_quotes(h) == u);
        assert(u.drop_last() =~= t);
        assert(strip_trailing_quotes(u) == strip_trailing_quotes(t));
        assert(strip_trailing_quotes(t) == t);
    } else {
        assert(strip_leading_quotes(h) == Seq::<char>::empty());
        assert(strip_trailing_quotes(Seq::<char>::empty()) == Seq::<char>::empty());
        assert(t =~= Seq::<char>::empty());
    }
}

/// Trimming quotes twice is trimming them once.
pub proof fn lemma_trim_quotes_idempotent(s: Seq<char>)
    ensures
        trim_quotes(trim_quotes(s)) == trim_quotes(s),
{
    lemma_strip_leading_clean(s);
    let a = strip_leading_quotes(s);
    lemma_strip_trailing_keeps_clean_start(a);
    lemma_strip_trailing_clean(a);
    let b = strip_trailing_quotes(a);
    assert(strip_leading_quotes(b) == b);
    assert(strip_trailing_quotes(b) == b);
}

proof fn lemma_strip_leading_clean(s: Seq<char>)
    ensures
        strip_leading_quotes(s).len() > 0 ==> strip_leading_quotes(s)[0] != '"',
    decreases s.len(),
{
    if s.len() > 0 && s[0] == '"' {
        lemma_strip_leading_clean(s.drop_first());
    }
}

proof fn lemma_strip_trailing_clean(s: Seq<char>)
    ensures
        strip_trailing_quotes(s).len() > 0 ==> strip_trailing_quotes(s).last() != '"',
    decreases s.len(),
{
    if s.len() > 0 && s.last() == '"' {
        lemma_strip_trailing_clean(s.drop_last());
    }
}

proof fn lemma_strip_trailing_keeps_clean_start(s: Seq<char>)
    requires
        s.len() > 0 ==> s[0] != '"',
    ensures
        strip_leading_quotes(strip_trailing_quotes(s)) == strip_trailing_quotes(s),
    decreases s.len(),
{
    if s.len() > 0 && s.last() == '"' {
        if s.len() > 1 {
            assert(s.drop_last()[0] == s[0]);
        }
        lemma_strip_trailing_keeps_clean_start(s.drop_last());
    }
}

/// The tag a merge is checked against: the stored one, or for a session
/// with no blob yet, a fresh one (which no client can have seen).
pub open spec fn current_tag(existing: Option<(JsonDoc, ETag)>, fresh: ETag) -> Seq<char> {
    match existing {
        Some((_, t)) => t@,
        None => fresh@,
    }
}

/// The document a merge starts from: the stored one, or an empty object.
pub open spec fn start_members(existing: Option<(JsonDoc, ETag)>) -> Map<Seq<char>, serde_json::Value> {
    match existing {
        Some((d, _)) => base_members(d),
        None => Map::empty(),
    }
}

/// The decision half of a conditional shallow merge. `existing` is the
/// stored blob and its tag; `fresh` the tag to report when there is none;
/// `expected` the client's `If-Match`. A stale tag fails the precondition
/// with the current tag; otherwise the merge proceeds as
/// [`merge_shallow`].
pub fn merge_if_match(
    existing: Option<(JsonDoc, ETag)>,
    fresh: ETag,
    expected: Option<ETag>,
    patch: JsonDoc,
) -> (r: Result<JsonDoc, AppError>)
    requires
        existing matches Some((d, _)) ==> d.wf(),
    ensures
        ({
            let cur = current_tag(existing, fresh);
            let stale = expected matches Some(e) && e@ != cur;
            let bad_base = existing matches Some((d, _)) && d is Other;
            &&& stale ==> (r matches Err(AppError::PreconditionFailed { current_etag }) && current_etag@ == cur)
            &&& !stale && bad_base ==> (r matches Err(AppError::BadRequest(m)) && m@ == base_not_object_message())
            &&& !stale && !bad_base && !(patch is Object) ==> (r matches Err(AppError::BadRequest(m))
                && m@ == patch_not_object_message())
            &&& !stale && !bad_base && patch is Object ==> (r matches Ok(d) && d.wf() && (d matches JsonDoc::Object(m)
                && members_map(m@) == merged(start_members(existing), members_map(patch->Object_0@))))
        }),
{
    let (base, current) = match existing {
        Some((d, t)) => (d, t),
        None => (JsonDoc::Object(Vec::new()), fresh),
    };
    proof {
        if existing is None {
            assert(members_map(Seq::<(String, serde_json::Value)>::empty()) =~= Map::empty());
            assert(member_keys(Seq::<(String, serde_json::Value)>::empty()) =~= Seq::empty());
        }
    }
    match expected {
        Some(e) => {
            if e != current {
                return Err(AppError::PreconditionFailed { current_etag: current });
            }
        },
        None => {},
    }
    merge_shallow(base, patch)
}

} // verus!
