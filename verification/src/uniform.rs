//! Segments, beats and scenes: three resources with one row shape.
//!
//! A [`ResourceTable`] names the table, the natural-text columns and the
//! resource's name. This module holds what the CRUD paths decide on their
//! own: input validation, which bulk inputs are new, and how a patch
//! changes a row. Times are milliseconds; timestamps are microseconds since
//! the Unix epoch; ids are UUIDs as 128-bit integers; a `confidence` is
//! carried as the bit pattern of its IEEE-754 double.

use vstd::prelude::*;

use crate::error::AppError;
use crate::events::ResourceKind;
use crate::ids::{is_pseudo_id, ETag, PseudoId};
use crate::text::str_eq;

verus! {

/// Natural-text columns for a resource: segments have `text`, beats and
/// scenes have `title` and `summary`.
#[derive(Debug, Clone, Copy, PartialEq, Eq, Structural)]
pub enum TextShape {
    Segment,
    TitleSummary,
}

#[derive(Debug, Clone, Copy)]
pub struct ResourceTable {
    pub table: &'static str,
    pub shape: TextShape,
    pub resource_type: &'static str,
}

pub open spec fn is_segments(rt: ResourceTable) -> bool {
    &&& rt.table@ == "session_segments"@
    &&& rt.shape == TextShape::Segment
    &&& rt.resource_type@ == "segment"@
}

pub open spec fn is_beats(rt: ResourceTable) -> bool {
    &&& rt.table@ == "session_beats"@
    &&& rt.shape == TextShape::TitleSummary
    &&& rt.resource_type@ == "beat"@
}

pub open spec fn is_scenes(rt: ResourceTable) -> bool {
    &&& rt.table@ == "session_scenes"@
    &&& rt.shape == TextShape::TitleSummary
    &&& rt.resource_type@ == "scene"@
}

/// A resource name the CRUD routes serve.
pub open spec fn known_resource(name: Seq<char>) -> bool {
    name == "segment"@ || name == "beat"@ || name == "scene"@
}

impl ResourceTable {
    pub fn segments() -> (r: ResourceTable)
        ensures
            is_segments(r),
    {
        ResourceTable { table: "session_segments", shape: TextShape::Segment, resource_type: "segment" }
    }

    pub fn beats() -> (r: ResourceTable)
        ensures
            is_beats(r),
    {
        ResourceTable { table: "session_beats", shape: TextShape::TitleSummary, resource_type: "beat" }
    }

    pub fn scenes() -> (r: ResourceTable)
        ensures
            is_scenes(r),
    {
        ResourceTable { table: "session_scenes", shape: TextShape::TitleSummary, resource_type: "scene" }
    }

    /// Which event family the resource's changes are announced under.
    pub fn kind(&self) -> (r: ResourceKind)
        requires
            known_resource(self.resource_type@),
        ensures
            self.resource_type@ == "segment"@ ==> r == ResourceKind::Segment,
            self.resource_type@ == "beat"@ ==> r == ResourceKind::Beat,
            self.resource_type@ == "scene"@ ==> r == ResourceKind::Scene,
    {
        proof {
            reveal_strlit("segment");
            reveal_strlit("beat");
            reveal_strlit("scene");
            assert("segment"@.len() == 7 && "beat"@.len() == 4 && "scene"@.len() == 5);
        }
        if str_eq(self.resource_type, "segment") {
            ResourceKind::Segment
        } else if str_eq(self.resource_type, "beat") {
            ResourceKind::Beat
        } else {
            ResourceKind::Scene
        }
    }
}

/// One row as stored.
pub struct UniformRow {
    pub id: u128,
    pub session_id: u128,
    pub client_id: String,
    pub pseudo_id: Option<PseudoId>,
    pub start_ms: i64,
    pub end_ms: i64,
    pub text: Option<String>,
    pub title: Option<String>,
    pub summary: Option<String>,
    pub confidence: Option<u64>,
    pub flags: serde_json::Value,
    pub original: Option<serde_json::Value>,
    pub etag: ETag,
    pub author_service: String,
    pub author_user_pseudo_id: Option<PseudoId>,
    pub created_at: i64,
    pub updated_at: i64,
}

/// Input for one new row.
pub struct CreateInput {
    pub client_id: String,
    pub start_ms: i64,
    pub end_ms: i64,
    pub pseudo_id: Option<PseudoId>,
    pub text: Option<String>,
    pub title: Option<String>,
    pub summary: Option<String>,
    pub confidence: Option<u64>,
    pub flags: Option<serde_json::Value>,
    pub original: Option<serde_json::Value>,
    pub author_user_pseudo_id: Option<PseudoId>,
}

/// What a bulk insert reports: the rows it inserted and the client ids it
/// found already present.
pub struct BulkResult {
    pub inserted: Vec<UniformRow>,
    pub deduplicated_client_ids: Vec<String>,
}

/// Partial update of one row; `None` leaves a field as it is. For
/// `confidence`, `Some(None)` clears it.
pub struct PatchInput {
    pub text: Option<String>,
    pub title: Option<String>,
    pub summary: Option<String>,
    pub confidence: Option<Option<u64>>,
    pub start_ms: Option<i64>,
    pub end_ms: Option<i64>,
    pub flags: Option<serde_json::Value>,
    pub author_user_pseudo_id: Option<PseudoId>,
}

/// The body of a bulk create: one list per resource, each optional.
pub struct BulkRequest {
    pub segments: Option<Vec<CreateInput>>,
    pub beats: Option<Vec<CreateInput>>,
    pub scenes: Option<Vec<CreateInput>>,
}

/// Query of a list request.
pub struct ListQuery {
    pub pseudo_id: Option<String>,
    pub since_ms: Option<i64>,
}

pub open spec fn list_or_empty(l: Option<Vec<CreateInput>>) -> Seq<CreateInput> {
    match l {
        Some(v) => v@,
        None => Seq::empty(),
    }
}

impl BulkRequest {
    /// The list for `rt`'s resource, empty when absent.
    pub fn take(self, rt: ResourceTable) -> (r: Vec<CreateInput>)
        requires
            known_resource(rt.resource_type@),
        ensures
            rt.resource_type@ == "segment"@ ==> r@ == list_or_empty(self.segments),
            rt.resource_type@ == "beat"@ ==> r@ == list_or_empty(self.beats),
            rt.resource_type@ == "scene"@ ==> r@ == list_or_empty(self.scenes),
    {
        let kind = rt.kind();
        let l = match kind {
            ResourceKind::Segment => self.segments,
            ResourceKind::Beat => self.beats,
            ResourceKind::Scene => self.scenes,
        };
        match l {
            Some(v) => v,
            None => Vec::new(),
        }
    }
}

/// The message an input is refused with, if any: the shape's required text
/// column first, then the time range.
pub open spec fn input_error(rt: ResourceTable, i: CreateInput) -> Option<Seq<char>> {
    if rt.shape == TextShape::Segment && i.text is None {
        Some("segments require `text` (client_id="@ + i.client_id@ + ")"@)
    } else if rt.shape == TextShape::TitleSummary && i.title is None {
        Some(rt.resource_type@ + " rows require `title` (client_id="@ + i.client_id@ + ")"@)
    } else if i.end_ms < i.start_ms {
        Some("end_ms < start_ms (client_id="@ + i.client_id@ + ")"@)
    } else {
        None
    }
}

/// The error of the first refused input, if any.
pub open spec fn first_input_error(rt: ResourceTable, s: Seq<CreateInput>) -> Option<Seq<char>>
    decreases s.len(),
{
    if s.len() == 0 {
        None
    } else {
        match input_error(rt, s[0]) {
            Some(m) => Some(m),
            None => first_input_error(rt, s.drop_first()),
        }
    }
}

proof fn lemma_first_error_split(rt: ResourceTable, s: Seq<CreateInput>, i: int)
    requires
        0 <= i < s.len(),
        forall|j: int| 0 <= j < i ==> input_error(rt, #[trigger] s[j]) is None,
    ensures
        first_input_error(rt, s) == (match input_error(rt, s[i]) {
            Some(m) => Some(m),
            None => first_input_error(rt, s.skip(i + 1)),
        }),
    decreases i,
{
    if i > 0 {
        assert(input_error(rt, s[0]) is None);
        let t = s.drop_first();
        assert forall|j: int| 0 <= j < i - 1 implies input_error(rt, #[trigger] t[j]) is None by {
            assert(t[j] == s[j + 1]);
        }
        lemma_first_error_split(rt, t, i - 1);
        assert(t.skip(i) =~= s.skip(i + 1));
    } else {
        assert(s.drop_first() =~= s.skip(1));
    }
}

fn input_error_message(rt: ResourceTable, i: &CreateInput) -> (r: Option<String>)
    ensures
        r matches Some(m) ==> input_error(rt, *i) == Some(m@),
        r is None ==> input_error(rt, *i) is None,
{
    let mut m: String;
    match rt.shape {
        TextShape::Segment => {
            if i.text.is_none() {
                m = "segments require `text` (client_id=".to_owned();
                m.append(i.client_id.as_str());
                m.append(")");
                return Some(m);
            }
        },
        TextShape::TitleSummary => {
            if i.title.is_none() {
                m = rt.resource_type.to_owned();
                m.append(" rows require `title` (client_id=");
                m.append(i.client_id.as_str());
                m.append(")");
                return Some(m);
            }
        },
    }
    if i.end_ms < i.start_ms {
        m = "end_ms < start_ms (client_id=".to_owned();
        m.append(i.client_id.as_str());
        m.append(")");
        return Some(m);
    }
    None
}

/// Checks every input in order; the first refused one fails the whole
/// batch with a bad request.
pub fn validate_inputs(rt: ResourceTable, inputs: &Vec<CreateInput>) -> (r: Result<(), AppError>)
    ensures
        first_input_error(rt, inputs@) is None ==> r is Ok,
        first_input_error(rt, inputs@) matches Some(e) ==> (r matches Err(AppError::BadRequest(m)) && m@ == e),
{
    let mut k: usize = 0;
    while k < inputs.len()
        invariant
            k <= inputs@.len(),
            forall|j: int| 0 <= j < k ==> input_error(rt, #[trigger] inputs@[j]) is None,
        decreases inputs@.len() - k,
    {
        match input_error_message(rt, &inputs[k]) {
            Some(m) => {
                proof {
                    lemma_first_error_split(rt, inputs@, k as int);
                }
                return Err(AppError::BadRequest(m));
            },
            None => {},
        }
        k = k + 1;
    }
    proof {
        assert forall|s: Seq<CreateInput>|
            (forall|j: int| 0 <= j < s.len() ==> input_error(rt, #[trigger] s[j]) is None) implies first_input_error(
            rt,
            s,
        ) is None by {
            lemma_no_error_at_all(rt, s);
        }
    }
    Ok(())
}

proof fn lemma_no_error_at_all(rt: ResourceTable, s: Seq<CreateInput>)
    requires
        forall|j: int| 0 <= j < s.len() ==> input_error(rt, #[trigger] s[j]) is None,
    ensures
        first_input_error(rt, s) is None,
    decreases s.len(),
{
    if s.len() > 0 {
        assert(input_error(rt, s[0]) is None);
        let t = s.drop_first();
        assert forall|j: int| 0 <= j < t.len() implies input_error(rt, #[trigger] t[j]) is None by {
            assert(t[j] == s[j + 1]);
        }
        lemma_no_error_at_all(rt, t);
    }
}

/// The positions, in order, of the client ids that are not among
/// `existing`.
pub open spec fn fresh_positions(ids: Seq<Seq<char>>, existing: Seq<Seq<char>>) -> Seq<int>
    decreases ids.len(),
{
    if ids.len() == 0 {
        Seq::empty()
    } else {
        let rest = fresh_positions(ids.drop_last(), existing);
        if existing.contains(ids.last()) {
            rest
        } else {
            rest.push(ids.len() - 1)
        }
    }
}

pub open spec fn client_ids(inputs: Seq<CreateInput>) -> Seq<Seq<char>> {
    inputs.map_values(|i: CreateInput| i.client_id@)
}

pub open spec fn string_views(v: Seq<String>) -> Seq<Seq<char>> {
    v.map_values(|s: String| s@)
}

fn contains_str(v: &Vec<String>, s: &String) -> (r: bool)
    ensures
        r == string_views(v@).contains(s@),
{
    let mut i: usize = 0;
    while i < v.len()
        invariant
            i <= v@.len(),
            forall|j: int| 0 <= j < i ==> v@[j]@ != s@,
        decreases v@.len() - i,
    {
        if str_eq(v[i].as_str(), s.as_str()) {
            proof {
                assert(string_views(v@)[i as int] == s@);
            }
            return true;
        }
        i = i + 1;
    }
    proof {
        if string_views(v@).contains(s@) {
            let p = choose|p: int| 0 <= p < string_views(v@).len() && string_views(v@)[p] == s@;
            assert(v@[p]@ == s@);
        }
    }
    false
}

/// The positions of the inputs whose client id the table does not have
/// yet; these are inserted, the others reported as deduplicated.
pub fn select_new(inputs: &Vec<CreateInput>, existing: &Vec<String>) -> (r: Vec<usize>)
    ensures
        r@.map_values(|p: usize| p as int) == fresh_positions(client_ids(inputs@), string_views(existing@)),
{
    let ghost ids = client_ids(inputs@);
    let ghost ex = string_views(existing@);
    let mut out: Vec<usize> = Vec::new();
    let mut i: usize = 0;
    while i < inputs.len()
        invariant
            i <= inputs@.len(),
            ids == client_ids(inputs@),
            ex == string_views(existing@),
            out@.map_values(|p: usize| p as int) == fresh_positions(ids.take(i as int), ex),
        decreases inputs@.len() - i,
    {
        let present = contains_str(existing, &inputs[i].client_id);
        proof {
            let t = ids.take(i as int + 1);
            assert(t.drop_last() =~= ids.take(i as int));
            assert(t.last() == inputs@[i as int].client_id@);
        }
        if !present {
            out.push(i);
            proof {
                assert(out@.map_values(|p: usize| p as int) =~= fresh_positions(ids.take(i as int), ex).push(
                    i as int,
                ));
            }
        }
        i = i + 1;
    }
    proof {
        assert(ids.take(inputs@.len() as int) =~= ids);
    }
    out
}

/// Which inputs a bulk insert takes: exactly the positions, in increasing
/// order, whose client id the table does not have yet.
pub proof fn lemma_fresh_positions_exact(ids: Seq<Seq<char>>, existing: Seq<Seq<char>>)
    ensures
        forall|k: int| 0 <= k < fresh_positions(ids, existing).len() ==> {
            let i = #[trigger] fresh_positions(ids, existing)[k];
            0 <= i < ids.len() && !existing.contains(ids[i])
        },
        forall|i: int| 0 <= i < ids.len() && !existing.contains(ids[i]) ==> fresh_positions(ids, existing).contains(i),
        forall|a: int, b: int| 0 <= a < b < fresh_positions(ids, existing).len() ==> fresh_positions(ids, existing)[a]
            < fresh_positions(ids, existing)[b],
    decreases ids.len(),
{
    if ids.len() > 0 {
        let init = ids.drop_last();
        lemma_fresh_positions_exact(init, existing);
        let rest = fresh_positions(init, existing);
        let f = fresh_positions(ids, existing);
        assert forall|i: int| 0 <= i < ids.len() && !existing.contains(ids[i]) implies f.contains(i) by {
            if i < ids.len() - 1 {
                assert(init[i] == ids[i]);
                assert(!existing.contains(init[i]));
                assert(rest.contains(i));
                let k = choose|k: int| 0 <= k < rest.len() && rest[k] == i;
                assert(f[k] == rest[k]);
                assert(f[k] == i);
            } else {
                assert(f[f.len() - 1] == i);
            }
        }
    }
}

/// Submitting a batch again once every client id is stored inserts
/// nothing.
pub proof fn lemma_resubmission_inserts_nothing(ids: Seq<Seq<char>>, existing: Seq<Seq<char>>)
    requires
        forall|i: int| 0 <= i < ids.len() ==> existing.contains(#[trigger] ids[i]),
    ensures
        fresh_positions(ids, existing).len() == 0,
{
    lemma_fresh_positions_exact(ids, existing);
    let f = fresh_positions(ids, existing);
    if f.len() > 0 {
        let i = f[0];
        assert(existing.contains(ids[i]));
    }
}

/// A patch writes exactly the fields it sets: the time range and flags for
/// every shape, `text` and `confidence` on segments, `title` and `summary`
/// on beats and scenes. Every field it leaves unset, every field the shape
/// does not have, and the row's identity, tag and provenance keep the
/// stored value.
pub proof fn lemma_patch_writes_given_fields(rt: ResourceTable, p: PatchInput, row: UniformRow)
    ensures
        ({
            let r = patched(rt, p, row);
            &&& p.start_ms matches Some(s) ==> r.start_ms == s
            &&& p.start_ms is None ==> r.start_ms == row.start_ms
            &&& p.end_ms matches Some(e) ==> r.end_ms == e
            &&& p.end_ms is None ==> r.end_ms == row.end_ms
            &&& p.flags matches Some(f) ==> r.flags == f
            &&& p.flags is None ==> r.flags == row.flags
            &&& rt.shape == TextShape::Segment ==> {
                &&& (p.text is Some ==> r.text == p.text)
                &&& (p.text is None ==> r.text == row.text)
                &&& (p.confidence matches Some(c) ==> r.confidence == c)
                &&& (p.confidence is None ==> r.confidence == row.confidence)
                &&& r.title == row.title
                &&& r.summary == row.summary
            }
            &&& rt.shape == TextShape::TitleSummary ==> {
                &&& (p.title is Some ==> r.title == p.title)
                &&& (p.title is None ==> r.title == row.title)
                &&& (p.summary is Some ==> r.summary == p.summary)
                &&& (p.summary is None ==> r.summary == row.summary)
                &&& r.text == row.text
                &&& r.confidence == row.confidence
            }
            &&& r.id == row.id
            &&& r.session_id == row.session_id
            &&& r.client_id == row.client_id
            &&& r.pseudo_id == row.pseudo_id
            &&& r.original == row.original
            &&& r.etag == row.etag
            &&& r.author_service == row.author_service
            &&& r.author_user_pseudo_id == row.author_user_pseudo_id
            &&& r.created_at == row.created_at
            &&& r.updated_at == row.updated_at
        }),
{
}

/// An input carries the text column its shape requires: `text` on
/// segments, `title` on beats and scenes.
pub open spec fn has_required_text(rt: ResourceTable, i: CreateInput) -> bool {
    &&& rt.shape == TextShape::Segment ==> i.text is Some
    &&& rt.shape == TextShape::TitleSummary ==> i.title is Some
}

/// For every shape, an input that carries its required text is refused
/// exactly when it ends before it starts, with the time-range message.
pub proof fn lemma_single_input_time_range(rt: ResourceTable, i: CreateInput)
    requires
        has_required_text(rt, i),
    ensures
        i.end_ms < i.start_ms ==> first_input_error(rt, seq![i]) == Some(
            "end_ms < start_ms (client_id="@ + i.client_id@ + ")"@,
        ),
        i.end_ms >= i.start_ms ==> first_input_error(rt, seq![i]) is None,
{
    let s = seq![i];
    assert(s[0] == i);
    assert(s.drop_first() =~= Seq::<CreateInput>::empty());
    assert(first_input_error(rt, s.drop_first()) is None);
}

/// A batch holding an input that ends before it starts is refused, for
/// every shape.
pub proof fn lemma_backwards_input_refuses_batch(rt: ResourceTable, s: Seq<CreateInput>, k: int)
    requires
        0 <= k < s.len(),
        s[k].end_ms < s[k].start_ms,
    ensures
        first_input_error(rt, s) is Some,
    decreases k,
{
    if k > 0 && input_error(rt, s[0]) is None {
        let t = s.drop_first();
        assert(t[k - 1] == s[k]);
        lemma_backwards_input_refuses_batch(rt, t, k - 1);
    }
}

/// A batch whose every input carries its required text and does not end
/// before it starts is accepted, for every shape.
pub proof fn lemma_well_formed_batch_accepted(rt: ResourceTable, s: Seq<CreateInput>)
    requires
        forall|j: int| 0 <= j < s.len() ==> has_required_text(rt, #[trigger] s[j]) && s[j].start_ms <= s[j].end_ms,
    ensures
        first_input_error(rt, s) is None,
{
    assert forall|j: int| 0 <= j < s.len() implies input_error(rt, #[trigger] s[j]) is None by {
        assert(has_required_text(rt, s[j]));
    }
    lemma_no_error_at_all(rt, s);
}

/// A patch that sets nothing leaves the row as it is.
pub proof fn lemma_empty_patch_is_identity(rt: ResourceTable, p: PatchInput, row: UniformRow)
    requires
        p.text is None,
        p.title is None,
        p.summary is None,
        p.confidence is None,
        p.start_ms is None,
        p.end_ms is None,
        p.flags is None,
    ensures
        patched(rt, p, row) == row,
{
}

/// Applying the same patch twice is applying it once.
pub proof fn lemma_patch_idempotent(rt: ResourceTable, p: PatchInput, row: UniformRow)
    ensures
        patched(rt, p, patched(rt, p, row)) == patched(rt, p, row),
{
}

/// A row with a patch applied: the time range and flags for every shape;
/// `text` and `confidence` for segments; `title` and `summary` for beats and
/// scenes. Fields the shape does not have are left untouched.
pub open spec fn patched(rt: ResourceTable, p: PatchInput, row: UniformRow) -> UniformRow {
    let seg = rt.shape == TextShape::Segment;
    UniformRow {
        start_ms: match p.start_ms {
            Some(s) => s,
            None => row.start_ms,
        },
        end_ms: match p.end_ms {
            Some(e) => e,
            None => row.end_ms,
        },
        flags: match p.flags {
            Some(f) => f,
            None => row.flags,
        },
        text: if seg && p.text is Some { p.text } else { row.text },
        confidence: if seg && p.confidence is Some { p.confidence->Some_0 } else { row.confidence },
        title: if !seg && p.title is Some { p.title } else { row.title },
        summary: if !seg && p.summary is Some { p.summary } else { row.summary },
        ..row
    }
}

/// The values a patch writes back: `row` with `p` applied.
pub fn apply_patch(rt: ResourceTable, p: PatchInput, row: UniformRow) -> (r: UniformRow)
    ensures
        r == patched(rt, p, row),
        r.start_ms == (match p.start_ms {
            Some(s) => s,
            None => row.start_ms,
        }),
        r.end_ms == (match p.end_ms {
            Some(e) => e,
            None => row.end_ms,
        }),
        r.flags == (match p.flags {
            Some(f) => f,
            None => row.flags,
        }),
{
    let mut out = row;
    if let Some(s) = p.start_ms {
        out.start_ms = s;
    }
    if let Some(e) = p.end_ms {
        out.end_ms = e;
    }
    if let Some(f) = p.flags {
        out.flags = f;
    }
    match rt.shape {
        TextShape::Segment => {
            if p.text.is_some() {
                out.text = p.text;
            }
            if let Some(c) = p.confidence {
                out.confidence = c;
            }
        },
        TextShape::TitleSummary => {
            if p.title.is_some() {
                out.title = p.title;
            }
            if p.summary.is_some() {
                out.summary = p.summary;
            }
        },
    }
    out
}

/// `If-Match` against a stored tag: no tag asked for, or the same tag,
/// passes; a different tag fails the precondition with the stored one.
pub fn check_if_match(expected: &Option<ETag>, current: &ETag) -> (r: Result<(), AppError>)
    ensures
        (expected matches Some(e) && e@ != current@) ==> (r matches Err(AppError::PreconditionFailed { current_etag })
            && current_etag@ == current@),
        !(expected matches Some(e) && e@ != current@) ==> r is Ok,
{
    match expected {
        Some(e) => {
            if *e != *current {
                return Err(AppError::PreconditionFailed { current_etag: current.clone() });
            }
        },
        None => {},
    }
    Ok(())
}

/// The decision half of a patch: the precondition on the stored row's tag,
/// then the row with the patch applied.
pub fn plan_patch(rt: ResourceTable, expected: &Option<ETag>, p: PatchInput, row: UniformRow) -> (r: Result<
    UniformRow,
    AppError,
>)
    ensures
        (expected matches Some(e) && e@ != row.etag@) ==> (r matches Err(AppError::PreconditionFailed { current_etag })
            && current_etag@ == row.etag@),
        !(expected matches Some(e) && e@ != row.etag@) ==> r == Ok::<UniformRow, AppError>(patched(rt, p, row)),
{
    match check_if_match(expected, &row.etag) {
        Err(e) => Err(e),
        Ok(()) => Ok(apply_patch(rt, p, row)),
    }
}

/// The columns of a stored row as read: nullable text columns as options,
/// the pseudonymous ids still unchecked.
pub struct RowColumns {
    pub id: u128,
    pub session_id: u128,
    pub client_id: String,
    pub pseudo_id: Option<String>,
    pub start_ms: i64,
    pub end_ms: i64,
    pub text: Option<String>,
    pub title: Option<String>,
    pub summary: Option<String>,
    pub confidence: Option<u64>,
    pub flags: serde_json::Value,
    pub original: Option<serde_json::Value>,
    pub etag: String,
    pub author_service: String,
    pub author_user_pseudo_id: Option<String>,
    pub created_at: i64,
    pub updated_at: i64,
}

pub open spec fn opt_pseudo_ok(p: Option<String>) -> bool {
    p matches Some(s) ==> is_pseudo_id(s@)
}

pub open spec fn opt_pseudo_matches(p: Option<PseudoId>, raw: Option<String>) -> bool {
    match (p, raw) {
        (None, None) => true,
        (Some(q), Some(s)) => q@ == s@,
        _ => false,
    }
}

pub open spec fn opt_string_matches(p: Option<String>, raw: Option<String>) -> bool {
    match (p, raw) {
        (None, None) => true,
        (Some(q), Some(s)) => q@ == s@,
        _ => false,
    }
}

fn check_pseudo(raw: Option<String>) -> (r: Result<Option<PseudoId>, AppError>)
    ensures
        opt_pseudo_ok(raw) ==> (r matches Ok(p) && opt_pseudo_matches(p, raw)),
        !opt_pseudo_ok(raw) ==> (r matches Err(e) && e is InvalidPseudoId),
{
    match raw {
        None => Ok(None),
        Some(s) => match PseudoId::new(s) {
            Ok(p) => Ok(Some(p)),
            Err(_) => Err(AppError::InvalidPseudoId),
        },
    }
}

/// A row from its columns, read as the resource's shape has them: only
/// segments carry a speaker, text and confidence; only beats and scenes a
/// title and summary. A stored pseudonymous id that is not well formed
/// fails the read.
pub fn row_from_columns(rt: ResourceTable, c: RowColumns) -> (r: Result<UniformRow, AppError>)
    ensures
        ({
            let seg = rt.shape == TextShape::Segment;
            let pid = if seg { c.pseudo_id } else { None };
            &&& !(opt_pseudo_ok(pid) && opt_pseudo_ok(c.author_user_pseudo_id)) ==> (r matches Err(e)
                && e is InvalidPseudoId)
            &&& (opt_pseudo_ok(pid) && opt_pseudo_ok(c.author_user_pseudo_id)) ==> (r matches Ok(row) && {
                &&& row.id == c.id && row.session_id == c.session_id && row.client_id@ == c.client_id@
                &&& opt_pseudo_matches(row.pseudo_id, pid)
                &&& opt_pseudo_matches(row.author_user_pseudo_id, c.author_user_pseudo_id)
                &&& row.start_ms == c.start_ms && row.end_ms == c.end_ms
                &&& (if seg {
                    opt_string_matches(row.text, c.text) && row.title is None && row.summary is None
                        && row.confidence == c.confidence
                } else {
                    row.text is None && opt_string_matches(row.title, c.title) && opt_string_matches(
                        row.summary,
                        c.summary,
                    ) && row.confidence is None
                })
                &&& row.flags == c.flags && row.original == c.original
                &&& row.etag@ == c.etag@ && row.author_service@ == c.author_service@
                &&& row.created_at == c.created_at && row.updated_at == c.updated_at
            })
        }),
{
    let seg = match rt.shape {
        TextShape::Segment => true,
        TextShape::TitleSummary => false,
    };
    let pid_raw = if seg { c.pseudo_id } else { None };
    let pseudo_id = check_pseudo(pid_raw)?;
    let author_user_pseudo_id = check_pseudo(c.author_user_pseudo_id)?;
    let (text, title, summary, confidence) = if seg {
        (c.text, None, None, c.confidence)
    } else {
        (None, c.title, c.summary, None)
    };
    Ok(
        UniformRow {
            id: c.id,
            session_id: c.session_id,
            client_id: c.client_id,
            pseudo_id,
            start_ms: c.start_ms,
            end_ms: c.end_ms,
            text,
            title,
            summary,
            confidence,
            flags: c.flags,
            original: c.original,
            etag: ETag(c.etag),
            author_service: c.author_service,
            author_user_pseudo_id,
            created_at: c.created_at,
            updated_at: c.updated_at,
        },
    )
}

/// `{resource} {id} not found`.
pub fn missing_row(rt: ResourceTable, id: &str) -> (r: AppError)
    ensures
        r matches AppError::NotFound(m) && m@ == rt.resource_type@ + " "@ + id@ + " not found"@,
{
    let mut m = rt.resource_type.to_owned();
    m.append(" ");
    m.append(id);
    m.append(" not found");
    AppError::NotFound(m)
}

} // verus!
