use logquest::common::{Timestamp, UUID};
use logquest::gina_regex::RegexGINA;
use logquest::logs::Character;
use logquest::matchers::{Filter, Matcher};
use logquest::state::{OverlayMode, OverlayState, ReactorState, DEFAULT_OVERLAY_OPACITY};
use logquest::trigger_index::{Mutation, TriggerIndex};
use logquest::triggers::Trigger;

fn trigger(id: &str, pattern: &str) -> Trigger {
    Trigger {
        id: UUID::from_str_unchecked(id),
        parent_id: None,
        name: format!("trigger {id}"),
        comment: None,
        enabled: true,
        filter: Filter(vec![Matcher::GINA(RegexGINA::from_str(pattern).unwrap())]),
        effects: vec![],
        created_at: Timestamp(0),
        updated_at: Timestamp(0),
    }
}

#[test]
fn overlay_starts_locked_at_default_opacity() {
    let o = OverlayState::new(OverlayMode::Windowed, true);
    assert!(!o.overlay_editable);
    assert_eq!(o.overlay_opacity, DEFAULT_OVERLAY_OPACITY);
    assert_eq!(o.overlay_opacity, 75);
    assert_eq!(o.overlay_mode, OverlayMode::Windowed);
    assert!(o.auto_open_dev_tools);
}

#[test]
fn tags_switch_on_and_off() {
    let mut r = ReactorState::new();
    let a = UUID::from_str_unchecked("a");
    let b = UUID::from_str_unchecked("b");
    assert_eq!(r.set_trigger_tag_activated(a.clone(), true).len(), 1);
    assert_eq!(r.set_trigger_tag_activated(a.clone(), true).len(), 1);
    assert_eq!(r.set_trigger_tag_activated(b.clone(), true).len(), 2);
    let on = r.set_trigger_tag_activated(a.clone(), false);
    assert_eq!(on.iter().map(|u| u.as_str()).collect::<Vec<_>>(), vec!["b"]);
    assert_eq!(r.set_trigger_tag_activated(a, false).len(), 1);
}

#[test]
fn lines_set_off_tagged_triggers() {
    let mut index = TriggerIndex::new();
    index.import_trigger(trigger("t1", r"^{S} hits you$"));
    index.import_trigger(trigger("t2", r"^{S} misses you$"));
    index.import_trigger(trigger("t3", r"^{S} hits you$"));
    let tag = index.create_trigger_tag("raid");
    let tag_id = tag.id.clone();
    for t in ["t1", "t2"] {
        index
            .mutate(Mutation::TagTrigger { trigger_id: UUID::from_str_unchecked(t), trigger_tag_id: tag_id.clone() })
            .unwrap();
    }
    let mut r = ReactorState::new();
    assert!(r.react_to_line(&index, "Orc hits you").unwrap().is_empty());
    r.current_character = Some(Character::from("/l/eqlog_Xenk_vox.txt"));
    assert!(r.react_to_line(&index, "Orc hits you").unwrap().is_empty());
    r.set_trigger_tag_activated(tag_id, true);
    let fired = r.react_to_line(&index, "Orc hits you").unwrap();
    assert_eq!(fired.len(), 1);
    assert_eq!(fired[0].0.id.as_str(), "t1");
    assert_eq!(fired[0].1.named_value("S"), Some("Orc"));
    assert_eq!(fired[0].1.character_name, "Xenk");
    assert!(r.react_to_line(&index, "Nothing happens").unwrap().is_empty());
}
