//! Real-time events.
//!
//! Events are broadcast once and never persisted. Each carries the time it
//! was raised (`at_ts`, nanoseconds since the Unix epoch), the session and
//! guild it concerns, and a wire name matching its `type` tag.

use vstd::prelude::*;

use crate::ids::PseudoId;
use crate::state::SessionStatus;

verus! {

#[derive(Debug, Clone)]
pub struct SessionStateChanged {
    pub session_id: u128,
    pub guild_id: i64,
    pub old: SessionStatus,
    pub new: SessionStatus,
}

#[derive(Debug, Clone)]
pub struct ChunkUploaded {
    pub session_id: u128,
    pub guild_id: i64,
    pub pseudo_id: PseudoId,
    pub seq: i32,
    pub size_bytes: i64,
}

#[derive(Debug, Clone)]
pub struct ResourceRef {
    pub session_id: u128,
    pub guild_id: i64,
    pub id: u128,
}

#[derive(Debug, Clone)]
pub struct MuteRangeRef {
    pub session_id: u128,
    pub guild_id: i64,
    pub pseudo_id: PseudoId,
    pub range_id: u128,
}

#[derive(Debug, Clone)]
pub struct AudioDeleted {
    pub session_id: u128,
    pub guild_id: i64,
    pub pseudo_id: PseudoId,
}

/// One event envelope, matching the wire shape `{type, at_ts, data}`.
#[derive(Debug, Clone)]
pub enum Event {
    SessionStateChanged { at_ts: i64, data: SessionStateChanged },
    ChunkUploaded { at_ts: i64, data: ChunkUploaded },
    SegmentCreated { at_ts: i64, data: ResourceRef },
    SegmentUpdated { at_ts: i64, data: ResourceRef },
    SegmentDeleted { at_ts: i64, data: ResourceRef },
    BeatCreated { at_ts: i64, data: ResourceRef },
    BeatUpdated { at_ts: i64, data: ResourceRef },
    BeatDeleted { at_ts: i64, data: ResourceRef },
    SceneCreated { at_ts: i64, data: ResourceRef },
    SceneUpdated { at_ts: i64, data: ResourceRef },
    SceneDeleted { at_ts: i64, data: ResourceRef },
    MuteRangeCreated { at_ts: i64, data: MuteRangeRef },
    MuteRangeDeleted { at_ts: i64, data: MuteRangeRef },
    AudioDeleted { at_ts: i64, data: AudioDeleted },
}

/// The session an event concerns.
pub open spec fn event_session(e: Event) -> u128 {
    match e {
        Event::SessionStateChanged { data, .. } => data.session_id,
        Event::ChunkUploaded { data, .. } => data.session_id,
        Event::SegmentCreated { data, .. } => data.session_id,
        Event::SegmentUpdated { data, .. } => data.session_id,
        Event::SegmentDeleted { data, .. } => data.session_id,
        Event::BeatCreated { data, .. } => data.session_id,
        Event::BeatUpdated { data, .. } => data.session_id,
        Event::BeatDeleted { data, .. } => data.session_id,
        Event::SceneCreated { data, .. } => data.session_id,
        Event::SceneUpdated { data, .. } => data.session_id,
        Event::SceneDeleted { data, .. } => data.session_id,
        Event::MuteRangeCreated { data, .. } => data.session_id,
        Event::MuteRangeDeleted { data, .. } => data.session_id,
        Event::AudioDeleted { data, .. } => data.session_id,
    }
}

/// The guild an event concerns.
pub open spec fn event_guild(e: Event) -> i64 {
    match e {
        Event::SessionStateChanged { data, .. } => data.guild_id,
        Event::ChunkUploaded { data, .. } => data.guild_id,
        Event::SegmentCreated { data, .. } => data.guild_id,
        Event::SegmentUpdated { data, .. } => data.guild_id,
        Event::SegmentDeleted { data, .. } => data.guild_id,
        Event::BeatCreated { data, .. } => data.guild_id,
        Event::BeatUpdated { data, .. } => data.guild_id,
        Event::BeatDeleted { data, .. } => data.guild_id,
        Event::SceneCreated { data, .. } => data.guild_id,
        Event::SceneUpdated { data, .. } => data.guild_id,
        Event::SceneDeleted { data, .. } => data.guild_id,
        Event::MuteRangeCreated { data, .. } => data.guild_id,
        Event::MuteRangeDeleted { data, .. } => data.guild_id,
        Event::AudioDeleted { data, .. } => data.guild_id,
    }
}

/// The wire name (`type` tag) of an event.
pub open spec fn event_name(e: Event) -> Seq<char> {
    match e {
        Event::SessionStateChanged { .. } => "session_state_changed"@,
        Event::ChunkUploaded { .. } => "chunk_uploaded"@,
        Event::SegmentCreated { .. } => "segment_created"@,
        Event::SegmentUpdated { .. } => "segment_updated"@,
        Event::SegmentDeleted { .. } => "segment_deleted"@,
        Event::BeatCreated { .. } => "beat_created"@,
        Event::BeatUpdated { .. } => "beat_updated"@,
        Event::BeatDeleted { .. } => "beat_deleted"@,
        Event::SceneCreated { .. } => "scene_created"@,
        Event::SceneUpdated { .. } => "scene_updated"@,
        Event::SceneDeleted { .. } => "scene_deleted"@,
        Event::MuteRangeCreated { .. } => "mute_range_created"@,
        Event::MuteRangeDeleted { .. } => "mute_range_deleted"@,
        Event::AudioDeleted { .. } => "audio_deleted"@,
    }
}

/// The time an event was raised.
pub open spec fn event_time(e: Event) -> i64 {
    match e {
        Event::SessionStateChanged { at_ts, .. } => at_ts,
        Event::ChunkUploaded { at_ts, .. } => at_ts,
        Event::SegmentCreated { at_ts, .. } => at_ts,
        Event::SegmentUpdated { at_ts, .. } => at_ts,
        Event::SegmentDeleted { at_ts, .. } => at_ts,
        Event::BeatCreated { at_ts, .. } => at_ts,
        Event::BeatUpdated { at_ts, .. } => at_ts,
        Event::BeatDeleted { at_ts, .. } => at_ts,
        Event::SceneCreated { at_ts, .. } => at_ts,
        Event::SceneUpdated { at_ts, .. } => at_ts,
        Event::SceneDeleted { at_ts, .. } => at_ts,
        Event::MuteRangeCreated { at_ts, .. } => at_ts,
        Event::MuteRangeDeleted { at_ts, .. } => at_ts,
        Event::AudioDeleted { at_ts, .. } => at_ts,
    }
}

impl Event {
    pub fn session_id(&self) -> (r: u128)
        ensures
            r == event_session(*self),
    {
        match self {
            Event::SessionStateChanged { data, .. } => data.session_id,
            Event::ChunkUploaded { data, .. } => data.session_id,
            Event::SegmentCreated { data, .. }
            | Event::SegmentUpdated { data, .. }
            | Event::SegmentDeleted { data, .. }
            | Event::BeatCreated { data, .. }
            | Event::BeatUpdated { data, .. }
            | Event::BeatDeleted { data, .. }
            | Event::SceneCreated { data, .. }
            | Event::SceneUpdated { data, .. }
            | Event::SceneDeleted { data, .. } => data.session_id,
            Event::MuteRangeCreated { data, .. } | Event::MuteRangeDeleted { data, .. } => {
                data.session_id
            },
            Event::AudioDeleted { data, .. } => data.session_id,
        }
    }

    pub fn guild_id(&self) -> (r: i64)
        ensures
            r == event_guild(*self),
    {
        match self {
            Event::SessionStateChanged { data, .. } => data.guild_id,
            Event::ChunkUploaded { data, .. } => data.guild_id,
            Event::SegmentCreated { data, .. }
            | Event::SegmentUpdated { data, .. }
            | Event::SegmentDeleted { data, .. }
            | Event::BeatCreated { data, .. }
            | Event::BeatUpdated { data, .. }
            | Event::BeatDeleted { data, .. }
            | Event::SceneCreated { data, .. }
            | Event::SceneUpdated { data, .. }
            | Event::SceneDeleted { data, .. } => data.guild_id,
            Event::MuteRangeCreated { data, .. } | Event::MuteRangeDeleted { data, .. } => {
                data.guild_id
            },
            Event::AudioDeleted { data, .. } => data.guild_id,
        }
    }

    /// Stable string name matching the `type` tag in the wire format.
    pub fn name(&self) -> (r: &'static str)
        ensures
            r@ == event_name(*self),
    {
        match self {
            Event::SessionStateChanged { .. } => "session_state_changed",
            Event::ChunkUploaded { .. } => "chunk_uploaded",
            Event::SegmentCreated { .. } => "segment_created",
            Event::SegmentUpdated { .. } => "segment_updated",
            Event::SegmentDeleted { .. } => "segment_deleted",
            Event::BeatCreated { .. } => "beat_created",
            Event::BeatUpdated { .. } => "beat_updated",
            Event::BeatDeleted { .. } => "beat_deleted",
            Event::SceneCreated { .. } => "scene_created",
            Event::SceneUpdated { .. } => "scene_updated",
            Event::SceneDeleted { .. } => "scene_deleted",
            Event::MuteRangeCreated { .. } => "mute_range_created",
            Event::MuteRangeDeleted { .. } => "mute_range_deleted",
            Event::AudioDeleted { .. } => "audio_deleted",
        }
    }
}

/// What happened to a segment, beat or scene.
#[derive(Debug, Clone, Copy, PartialEq, Eq, Structural)]
pub enum ResourceAction {
    Created,
    Updated,
    Deleted,
}

/// Which uniform resource an event concerns.
#[derive(Debug, Clone, Copy, PartialEq, Eq, Structural)]
pub enum ResourceKind {
    Segment,
    Beat,
    Scene,
}

/// The event announcing `action` on a resource of `kind`.
pub open spec fn resource_event_spec(kind: ResourceKind, action: ResourceAction, at_ts: i64, data: ResourceRef) -> Event {
    match (kind, action) {
        (ResourceKind::Segment, ResourceAction::Created) => Event::SegmentCreated { at_ts, data },
        (ResourceKind::Segment, ResourceAction::Updated) => Event::SegmentUpdated { at_ts, data },
        (ResourceKind::Segment, ResourceAction::Deleted) => Event::SegmentDeleted { at_ts, data },
        (ResourceKind::Beat, ResourceAction::Created) => Event::BeatCreated { at_ts, data },
        (ResourceKind::Beat, ResourceAction::Updated) => Event::BeatUpdated { at_ts, data },
        (ResourceKind::Beat, ResourceAction::Deleted) => Event::BeatDeleted { at_ts, data },
        (ResourceKind::Scene, ResourceAction::Created) => Event::SceneCreated { at_ts, data },
        (ResourceKind::Scene, ResourceAction::Updated) => Event::SceneUpdated { at_ts, data },
        (ResourceKind::Scene, ResourceAction::Deleted) => Event::SceneDeleted { at_ts, data },
    }
}

/// The wire name of a resource kind.
pub open spec fn kind_name(kind: ResourceKind) -> Seq<char> {
    match kind {
        ResourceKind::Segment => "segment"@,
        ResourceKind::Beat => "beat"@,
        ResourceKind::Scene => "scene"@,
    }
}

/// The wire name of a resource action.
pub open spec fn action_name(action: ResourceAction) -> Seq<char> {
    match action {
        ResourceAction::Created => "created"@,
        ResourceAction::Updated => "updated"@,
        ResourceAction::Deleted => "deleted"@,
    }
}

/// A resource event is named by its resource and its action:
/// `{kind}_{action}`, such as `segment_updated` for an edited segment.
pub proof fn lemma_resource_event_name(kind: ResourceKind, action: ResourceAction, at_ts: i64, data: ResourceRef)
    ensures
        event_name(resource_event_spec(kind, action, at_ts, data)) == kind_name(kind) + "_"@ + action_name(action),
{
    reveal_strlit("_");
    reveal_strlit("segment");
    reveal_strlit("beat");
    reveal_strlit("scene");
    reveal_strlit("created");
    reveal_strlit("updated");
    reveal_strlit("deleted");
    reveal_strlit("segment_created");
    reveal_strlit("segment_updated");
    reveal_strlit("segment_deleted");
    reveal_strlit("beat_created");
    reveal_strlit("beat_updated");
    reveal_strlit("beat_deleted");
    reveal_strlit("scene_created");
    reveal_strlit("scene_updated");
    reveal_strlit("scene_deleted");
    assert(event_name(resource_event_spec(kind, action, at_ts, data)) =~= kind_name(kind) + "_"@ + action_name(action));
}

/// Distinct (kind, action) pairs are announced under distinct event names,
/// so a subscriber to one never hears the other.
pub proof fn lemma_resource_event_names_distinct(
    k1: ResourceKind,
    a1: ResourceAction,
    k2: ResourceKind,
    a2: ResourceAction,
    t1: i64,
    t2: i64,
    d1: ResourceRef,
    d2: ResourceRef,
)
    requires
        k1 != k2 || a1 != a2,
    ensures
        event_name(resource_event_spec(k1, a1, t1, d1)) != event_name(resource_event_spec(k2, a2, t2, d2)),
{
    lemma_resource_event_name(k1, a1, t1, d1);
    lemma_resource_event_name(k2, a2, t2, d2);
    let n1 = event_name(resource_event_spec(k1, a1, t1, d1));
    let n2 = event_name(resource_event_spec(k2, a2, t2, d2));
    reveal_strlit("_");
    reveal_strlit("segment");
    reveal_strlit("beat");
    reveal_strlit("scene");
    reveal_strlit("created");
    reveal_strlit("updated");
    reveal_strlit("deleted");
    if k1 != k2 {
        assert(n1.len() != n2.len());
    } else {
        let l = kind_name(k1).len() as int;
        assert(n1[l + 1] == action_name(a1)[0]);
        assert(n2[l + 1] == action_name(a2)[0]);
    }
}

pub fn resource_event(kind: ResourceKind, action: ResourceAction, at_ts: i64, data: ResourceRef) -> (r: Event)
    ensures
        r == resource_event_spec(kind, action, at_ts, data),
        event_name(r) == kind_name(kind) + "_"@ + action_name(action),
{
    proof {
        lemma_resource_event_name(kind, action, at_ts, data);
    }
    match (kind, action) {
        (ResourceKind::Segment, ResourceAction::Created) => Event::SegmentCreated { at_ts, data },
        (ResourceKind::Segment, ResourceAction::Updated) => Event::SegmentUpdated { at_ts, data },
        (ResourceKind::Segment, ResourceAction::Deleted) => Event::SegmentDeleted { at_ts, data },
        (ResourceKind::Beat, ResourceAction::Created) => Event::BeatCreated { at_ts, data },
        (ResourceKind::Beat, ResourceAction::Updated) => Event::BeatUpdated { at_ts, data },
        (ResourceKind::Beat, ResourceAction::Deleted) => Event::BeatDeleted { at_ts, data },
        (ResourceKind::Scene, ResourceAction::Created) => Event::SceneCreated { at_ts, data },
        (ResourceKind::Scene, ResourceAction::Updated) => Event::SceneUpdated { at_ts, data },
        (ResourceKind::Scene, ResourceAction::Deleted) => Event::SceneDeleted { at_ts, data },
    }
}

/// A resource event carries the session and guild of its reference.
pub proof fn lemma_resource_event_routing(kind: ResourceKind, action: ResourceAction, at_ts: i64, data: ResourceRef)
    ensures
        event_session(resource_event_spec(kind, action, at_ts, data)) == data.session_id,
        event_guild(resource_event_spec(kind, action, at_ts, data)) == data.guild_id,
        event_time(resource_event_spec(kind, action, at_ts, data)) == at_ts,
{
}

} // verus!
