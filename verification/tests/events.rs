use chronicle_data_api::events::{resource_event, AudioDeleted, Event, ResourceAction, ResourceKind, ResourceRef};
use chronicle_data_api::ids::PseudoId;

#[test]
fn resource_events_are_routed_by_kind_and_action() {
    let data = ResourceRef { session_id: 5, guild_id: 6, id: 7 };
    let e = resource_event(ResourceKind::Beat, ResourceAction::Updated, 9, data);
    assert_eq!(e.name(), "beat_updated");
    assert_eq!(e.session_id(), 5);
    assert_eq!(e.guild_id(), 6);
    let e = resource_event(ResourceKind::Segment, ResourceAction::Created, 9, ResourceRef { session_id: 1, guild_id: 2, id: 3 });
    assert_eq!(e.name(), "segment_created");
    let e = resource_event(ResourceKind::Scene, ResourceAction::Deleted, 9, ResourceRef { session_id: 1, guild_id: 2, id: 3 });
    assert_eq!(e.name(), "scene_deleted");
}

#[test]
fn audio_deleted_event_fields() {
    let e = Event::AudioDeleted {
        at_ts: 0,
        data: AudioDeleted { session_id: 11, guild_id: 12, pseudo_id: PseudoId::new("0123456789abcdef01234567").unwrap() },
    };
    assert_eq!(e.name(), "audio_deleted");
    assert_eq!(e.session_id(), 11);
    assert_eq!(e.guild_id(), 12);
}
