use logquest::common::{Timestamp, UUID};
use logquest::effects::{Effect, EffectWithID};
use logquest::matchers::{Filter, Matcher};
use logquest::trigger_index::{DataDelta, DataMutationError, Mutation, TriggerIndex};
use logquest::triggers::{Trigger, TriggerGroup, TriggerGroupDescendant};

fn id(s: &str) -> UUID {
    UUID::from_str_unchecked(s)
}

fn trigger(i: &str, parent: Option<&str>) -> Trigger {
    Trigger {
        id: id(i),
        parent_id: parent.map(id),
        name: format!("trigger {i}"),
        comment: None,
        enabled: true,
        filter: Filter(vec![Matcher::WholeLine("You are hungry.".to_owned())]),
        effects: vec![EffectWithID { id: id("e"), inner: Effect::DoNothing }],
        created_at: Timestamp(1),
        updated_at: Timestamp(1),
    }
}

fn group(i: &str, children: Vec<TriggerGroupDescendant>) -> TriggerGroup {
    TriggerGroup {
        id: id(i),
        parent_id: None,
        name: format!("group {i}"),
        comment: None,
        children,
        created_at: Timestamp(1),
        updated_at: Timestamp(1),
    }
}

fn sample() -> TriggerIndex {
    let mut index = TriggerIndex::new();
    index.import_trigger_group(group("g", vec![TriggerGroupDescendant::T(id("t1")), TriggerGroupDescendant::T(id("t2"))]));
    index.import_trigger(trigger("t1", Some("g")));
    index.import_trigger(trigger("t2", Some("g")));
    index.import_trigger(trigger("t3", None));
    index
}

#[test]
fn importing_lists_top_level_items() {
    let index = sample();
    assert_eq!(index.trigger_count(), 3);
    let top: Vec<String> = index
        .top_level
        .iter()
        .map(|d| match d {
            TriggerGroupDescendant::T(i) => format!("T:{}", i.as_str()),
            TriggerGroupDescendant::G(i) => format!("G:{}", i.as_str()),
        })
        .collect();
    assert_eq!(top, vec!["G:g", "T:t3"]);
}

#[test]
fn tags_are_created_renamed_and_deleted() {
    let mut index = sample();
    let tag = index.create_trigger_tag("raid");
    let tag_id = tag.id.clone();
    assert_eq!(tag.name(), "raid");
    assert_eq!(index.trigger_tags.len(), 1);
    index.mutate(Mutation::RenameTriggerTag(tag_id.clone(), "group".to_owned())).unwrap();
    assert_eq!(index.trigger_tags[0].name(), "group");
    index.mutate(Mutation::TagTrigger { trigger_id: id("t1"), trigger_tag_id: tag_id.clone() }).unwrap();
    assert!(index.trigger_tags[0].tags_trigger(&id("t1")));
    assert_eq!(index.trigger_tags_with_trigger(&id("t1")).len(), 1);
    index.mutate(Mutation::UntagTrigger { trigger_id: id("t1"), trigger_tag_id: tag_id.clone() }).unwrap();
    assert!(!index.trigger_tags[0].tags_trigger(&id("t1")));
    assert!(matches!(
        index.mutate(Mutation::TagTrigger { trigger_id: id("nope"), trigger_tag_id: tag_id.clone() }),
        Err(DataMutationError::TriggerNotFound(_))
    ));
    assert!(matches!(
        index.mutate(Mutation::TagTrigger { trigger_id: id("t1"), trigger_tag_id: id("nope") }),
        Err(DataMutationError::TriggerTagNotFound(_))
    ));
    index.mutate(Mutation::DeleteTriggerTag(tag_id.clone())).unwrap();
    assert!(index.trigger_tags.is_empty());
    let deltas = index.mutate(Mutation::DeleteTriggerTag(tag_id)).unwrap();
    assert!(matches!(&deltas[0], DataDelta::TriggerTagDeleted(_)));
    assert!(index.trigger_tags.is_empty());
}

#[test]
fn deleting_a_trigger_twice() {
    let mut index = sample();
    let tag = index.create_trigger_tag("t");
    index.mutate(Mutation::TagTrigger { trigger_id: id("t1"), trigger_tag_id: tag.id.clone() }).unwrap();
    let deltas = index.mutate(Mutation::DeleteTrigger(id("t1"))).unwrap();
    assert!(matches!(&deltas[0], DataDelta::TriggerDeleted(d) if d.as_str() == "t1"));
    assert!(!index.trigger_tags[0].tags_trigger(&id("t1")));
    assert_eq!(index.trigger_count(), 2);
    assert_eq!(index.groups[0].children.len(), 1);
    assert!(matches!(index.mutate(Mutation::DeleteTrigger(id("t1"))), Err(DataMutationError::TriggerNotFound(_))));
}

#[test]
fn deleting_a_group_deletes_what_it_holds() {
    let mut index = sample();
    index.mutate(Mutation::DeleteTriggerGroup(id("g"))).unwrap();
    assert_eq!(index.trigger_count(), 1);
    assert!(index.groups.is_empty());
    assert_eq!(index.top_level.len(), 1);
    assert!(matches!(index.mutate(Mutation::DeleteTriggerGroup(id("g"))), Err(DataMutationError::TriggerGroupNotFound(_))));
}

#[test]
fn saving_a_group_renames_it() {
    let mut index = sample();
    index
        .mutate(Mutation::SaveTriggerGroup { trigger_group_id: id("g"), name: "Raid".to_owned(), comment: Some("c".to_owned()) })
        .unwrap();
    assert_eq!(index.groups[0].name, "Raid");
    assert_eq!(index.groups[0].comment.as_deref(), Some("c"));
    assert!(matches!(
        index.mutate(Mutation::SaveTriggerGroup { trigger_group_id: id("x"), name: "n".to_owned(), comment: None }),
        Err(DataMutationError::TriggerGroupNotFound(_))
    ));
}

#[test]
fn creating_and_saving_triggers() {
    let mut index = sample();
    let tag = index.create_trigger_tag("t");
    assert!(index.can_mutate(&Mutation::CreateTrigger { trigger: trigger("t4", None), trigger_tag_ids: vec![], parent_position: 0 }));
    assert!(!index.can_mutate(&Mutation::CreateTrigger { trigger: trigger("t4", None), trigger_tag_ids: vec![], parent_position: 9 }));
    index
        .mutate(Mutation::CreateTrigger { trigger: trigger("t4", None), trigger_tag_ids: vec![tag.id.clone()], parent_position: 0 })
        .unwrap();
    assert_eq!(index.trigger_count(), 4);
    assert!(matches!(&index.top_level[0], TriggerGroupDescendant::T(t) if t.as_str() == "t4"));
    assert!(index.trigger_tags[0].tags_trigger(&id("t4")));
    let mut t4 = trigger("t4", None);
    t4.name = "renamed".to_owned();
    index.mutate(Mutation::SaveTrigger { trigger: t4, trigger_tag_ids: vec![] }).unwrap();
    assert!(index.triggers.iter().any(|t| t.name == "renamed"));
    assert!(!index.trigger_tags[0].tags_trigger(&id("t4")));
}

#[test]
fn security_check_keeps_the_index() {
    let index = sample();
    let checked = index.security_check(None);
    assert_eq!(checked.trigger_count(), 3);
    let again = checked.security_check(None);
    assert_eq!(again.trigger_count(), 3);
}

#[test]
fn deleting_a_top_level_trigger_unlists_it_and_names_its_tags() {
    let mut index = sample();
    let tag = index.create_trigger_tag("solo");
    index.mutate(Mutation::TagTrigger { trigger_id: id("t3"), trigger_tag_id: tag.id.clone() }).unwrap();
    let deltas = index.mutate(Mutation::DeleteTrigger(id("t3"))).unwrap();
    assert_eq!(index.top_level.len(), 1);
    assert!(deltas.iter().any(|d| matches!(d, DataDelta::TopLevelChanged(top) if top.len() == 1)));
    assert!(deltas.iter().any(|d| matches!(
        d,
        DataDelta::TriggerTagTriggersChanged { trigger_tag_id, triggers } if trigger_tag_id.as_str() == tag.id.as_str() && triggers.is_empty()
    )));
}
