use logquest::common::Timestamp;
use logquest::gina::GINATimerType;
use logquest::gina_conversion::{GINAConversionError, GINAImportError};
use logquest::gina_xml::{package_kind, read_gina_package, read_xml, GINAParseError, PackageKind, XmlItem};
use logquest::trigger_index::TriggerIndex;

fn s(x: &str) -> String {
    x.to_owned()
}

fn element(out: &mut Vec<XmlItem>, name: &str, text: &str) {
    out.push(XmlItem::Start(s(name)));
    out.push(XmlItem::Text(s(text)));
    out.push(XmlItem::End(s(name)));
}

fn sample() -> Vec<XmlItem> {
    let mut v = vec![XmlItem::Other, XmlItem::Start(s("SharedData")), XmlItem::Start(s("TriggerGroups")), XmlItem::Start(s("TriggerGroup"))];
    element(&mut v, "Name", "Raid");
    element(&mut v, "EnableByDefault", "True");
    v.push(XmlItem::Start(s("TriggerGroups")));
    v.push(XmlItem::Start(s("TriggerGroup")));
    element(&mut v, "Name", "Inner");
    v.push(XmlItem::End(s("TriggerGroup")));
    v.push(XmlItem::End(s("TriggerGroups")));
    v.push(XmlItem::Start(s("Triggers")));
    v.push(XmlItem::Start(s("Trigger")));
    element(&mut v, "Name", "Hit");
    element(&mut v, "TriggerText", "{S} hits you");
    element(&mut v, "EnableRegex", "True");
    element(&mut v, "TimerType", "Timer");
    element(&mut v, "TimerDuration", "30");
    v.push(XmlItem::Start(s("TimerEndingTrigger")));
    element(&mut v, "DisplayText", "ending");
    v.push(XmlItem::End(s("TimerEndingTrigger")));
    v.push(XmlItem::Start(s("TimerEarlyEnders")));
    v.push(XmlItem::Start(s("EarlyEnder")));
    element(&mut v, "EarlyEndText", "{S} dies");
    element(&mut v, "EnableRegex", "false");
    v.push(XmlItem::End(s("EarlyEnder")));
    v.push(XmlItem::End(s("TimerEarlyEnders")));
    v.push(XmlItem::End(s("Trigger")));
    v.push(XmlItem::End(s("Triggers")));
    v.push(XmlItem::End(s("TriggerGroup")));
    v.push(XmlItem::End(s("TriggerGroups")));
    v.push(XmlItem::End(s("SharedData")));
    v.push(XmlItem::EndDocument);
    v
}

#[test]
fn reading_a_package() {
    let triggers = read_xml(&sample()).unwrap();
    assert_eq!(triggers.trigger_groups.len(), 1);
    let g = &triggers.trigger_groups[0];
    assert_eq!(g.name.as_deref(), Some("Raid"));
    assert_eq!(g.enable_by_default, Some(true));
    assert_eq!(g.trigger_groups.len(), 1);
    assert_eq!(g.trigger_groups[0].name.as_deref(), Some("Inner"));
    assert_eq!(g.triggers.len(), 1);
    let t = &g.triggers[0];
    assert_eq!(t.name.as_deref(), Some("Hit"));
    assert_eq!(t.trigger_text.as_deref(), Some("{S} hits you"));
    assert!(matches!(t.timer_type, Some(GINATimerType::Timer)));
    assert_eq!(t.timer_duration, Some(30));
    assert_eq!(t.timer_ending_trigger.as_ref().unwrap().display_text.as_deref(), Some("ending"));
    assert_eq!(t.timer_early_enders.len(), 1);
    assert_eq!(t.timer_early_enders[0].early_end_text.as_deref(), Some("{S} dies"));
    assert_eq!(t.timer_early_enders[0].enable_regex, Some(false));
}

#[test]
fn reading_errors() {
    let mut v = sample();
    v.truncate(10);
    assert!(matches!(read_xml(&v), Err(GINAParseError::XMLError(_))));
    let mut v = sample();
    v.insert(5, XmlItem::Error(s("bad token")));
    assert!(matches!(read_xml(&v), Err(GINAParseError::XMLError(m)) if m == "bad token"));
    let mut v = vec![XmlItem::Start(s("TriggerGroup")), XmlItem::Start(s("Trigger"))];
    element(&mut v, "TimerType", "Sometimes");
    v.push(XmlItem::End(s("Trigger")));
    v.push(XmlItem::End(s("TriggerGroup")));
    v.push(XmlItem::EndDocument);
    assert!(matches!(read_xml(&v), Err(GINAParseError::GINADataError(_))));
    assert_eq!(read_xml(&vec![XmlItem::EndDocument]).unwrap().trigger_groups.len(), 0);
}

#[test]
fn package_kinds() {
    assert_eq!(package_kind(Some("gtp")).unwrap(), PackageKind::Zipped);
    assert_eq!(package_kind(Some("xml")).unwrap(), PackageKind::Xml);
    assert!(matches!(package_kind(Some("zip")), Err(GINAParseError::InvalidFileExtension)));
    assert!(matches!(package_kind(None), Err(GINAParseError::InvalidFileExtension)));
}

#[test]
fn importing_a_package() {
    let triggers = read_xml(&sample()).unwrap();
    let mut index = TriggerIndex::new();
    triggers.convert_import(&mut index, &Timestamp(1_700_000_000_000)).unwrap();
    assert_eq!(index.groups.len(), 2);
    assert_eq!(index.triggers.len(), 1);
    assert_eq!(index.top_level.len(), 1);
    let t = &index.triggers[0];
    assert_eq!(t.name, "Hit");
    assert!(t.filter.check("Orc hits you", "Xenk").is_some());
    assert!(t.filter.check("Orc misses you", "Xenk").is_none());
}

#[test]
fn plain_text_triggers_match_whole_lines() {
    let mut v = vec![XmlItem::Start(s("TriggerGroup")), XmlItem::Start(s("Trigger"))];
    element(&mut v, "Name", "Plain");
    element(&mut v, "TriggerText", "You feel hungry.");
    v.push(XmlItem::End(s("Trigger")));
    v.push(XmlItem::End(s("TriggerGroup")));
    v.push(XmlItem::EndDocument);
    let triggers = read_xml(&v).unwrap();
    let mut index = TriggerIndex::new();
    triggers.convert_import(&mut index, &Timestamp(0)).unwrap();
    let t = &index.triggers[0];
    assert!(t.filter.check("You feel hungry.", "Xenk").is_some());
    assert!(t.filter.check("You feel hungry. Really.", "Xenk").is_none());
}

#[test]
fn trigger_fields_from_text() {
    let mut v = vec![XmlItem::Start(s("TriggerGroup")), XmlItem::Start(s("Trigger"))];
    element(&mut v, "Modified", "2024-04-10T22:48:35");
    element(&mut v, "TimerStartBehavior", "RestartTimer");
    element(&mut v, "TimerMillisecondDuration", "1500");
    element(&mut v, "UseText", "true");
    element(&mut v, "CopyToClipboard", "maybe");
    element(&mut v, "TimerDuration", "-3");
    v.push(XmlItem::End(s("Trigger")));
    element(&mut v, "Name", "G");
    element(&mut v, "GroupId", "17");
    v.push(XmlItem::End(s("TriggerGroup")));
    v.push(XmlItem::EndDocument);
    let triggers = read_xml(&v).unwrap();
    let g = &triggers.trigger_groups[0];
    assert_eq!(g.group_id, Some(17));
    assert_eq!(g.name.as_deref(), Some("G"));
    let t = &g.triggers[0];
    assert_eq!(t.modified, Some(1712789315000));
    assert!(matches!(t.timer_start_behavior, Some(logquest::gina::GINATimerStartBehavior::RestartTimer)));
    assert_eq!(t.timer_millisecond_duration, Some(1500));
    assert_eq!(t.use_text, Some(true));
    assert_eq!(t.copy_to_clipboard, None);
    assert_eq!(t.timer_duration, None);

    let mut bad = vec![XmlItem::Start(s("TriggerGroup")), XmlItem::Start(s("Trigger"))];
    element(&mut bad, "Modified", "yesterday");
    bad.push(XmlItem::End(s("Trigger")));
    bad.push(XmlItem::End(s("TriggerGroup")));
    bad.push(XmlItem::EndDocument);
    assert_eq!(read_xml(&bad).unwrap().trigger_groups[0].triggers[0].modified, None);
}

#[test]
fn a_trigger_without_pattern_fails_the_import() {
    let mut v = vec![XmlItem::Start(s("TriggerGroup")), XmlItem::Start(s("Trigger"))];
    element(&mut v, "Name", "Silent");
    v.push(XmlItem::End(s("Trigger")));
    v.push(XmlItem::End(s("TriggerGroup")));
    v.push(XmlItem::EndDocument);
    let triggers = read_xml(&v).unwrap();
    let mut index = TriggerIndex::new();
    let res = triggers.convert_import(&mut index, &Timestamp(0));
    assert!(matches!(
        res,
        Err(GINAImportError::ConversionError(GINAConversionError::TriggerPatternError(ref n))) if n == "Silent"
    ));
    assert_eq!(index.triggers.len(), 0);
}

#[test]
fn categories_become_tags_of_their_triggers() {
    let mut v = vec![XmlItem::Start(s("TriggerGroup")), XmlItem::Start(s("Trigger"))];
    element(&mut v, "Name", "Hungry");
    element(&mut v, "TriggerText", "You are hungry.");
    element(&mut v, "Category", "Food");
    v.push(XmlItem::End(s("Trigger")));
    v.push(XmlItem::End(s("TriggerGroup")));
    v.push(XmlItem::EndDocument);
    let triggers = read_xml(&v).unwrap();
    let mut index = TriggerIndex::new();
    assert!(triggers.convert_import(&mut index, &Timestamp(0)).is_ok());
    assert_eq!(index.trigger_tags.len(), 1);
    assert_eq!(index.trigger_tags[0].name, "Food");
    assert_eq!(index.trigger_tags[0].triggers.len(), 1);
    assert_eq!(index.trigger_tags[0].triggers[0], index.triggers[0].id);
}

const PACKAGE_XML: &str = "<?xml version=\"1.0\"?><SharedData><TriggerGroups><TriggerGroup><Name>Raid</Name><Triggers><Trigger><Name>Hit</Name><TriggerText>You are hit</TriggerText></Trigger></Triggers></TriggerGroup></TriggerGroups></SharedData>";

fn zipped(entry: &str, content: &str) -> Vec<u8> {
    let mut w = zip::ZipWriter::new(std::io::Cursor::new(Vec::new()));
    let options = zip::write::SimpleFileOptions::default().compression_method(zip::CompressionMethod::Stored);
    w.start_file(entry, options).unwrap();
    std::io::Write::write_all(&mut w, content.as_bytes()).unwrap();
    w.finish().unwrap().into_inner()
}

#[test]
fn reading_an_xml_package_from_its_bytes() {
    let triggers = read_gina_package(PACKAGE_XML.as_bytes(), PackageKind::Xml).unwrap();
    assert_eq!(triggers.trigger_groups.len(), 1);
    assert_eq!(triggers.trigger_groups[0].name.as_deref(), Some("Raid"));
    assert_eq!(triggers.trigger_groups[0].triggers[0].trigger_text.as_deref(), Some("You are hit"));
}

#[test]
fn reading_a_zipped_package_from_its_bytes() {
    let bytes = zipped("ShareData.xml", PACKAGE_XML);
    let triggers = read_gina_package(&bytes, PackageKind::Zipped).unwrap();
    assert_eq!(triggers.trigger_groups.len(), 1);
    assert_eq!(triggers.trigger_groups[0].triggers[0].name.as_deref(), Some("Hit"));
}

#[test]
fn zipped_packages_without_share_data_are_refused() {
    let bytes = zipped("Other.xml", PACKAGE_XML);
    assert!(matches!(read_gina_package(&bytes, PackageKind::Zipped), Err(GINAParseError::ZIPError(_))));
    assert!(matches!(read_gina_package(b"not a zip", PackageKind::Zipped), Err(GINAParseError::ZIPError(_))));
}

#[test]
fn malformed_xml_bytes_give_an_xml_error() {
    assert!(matches!(read_gina_package(b"<SharedData><TriggerGroups>", PackageKind::Xml), Err(GINAParseError::XMLError(_))));
}

#[test]
fn a_timer_without_duration_fails_the_import() {
    let mut v = vec![XmlItem::Start(s("TriggerGroup")), XmlItem::Start(s("Trigger"))];
    element(&mut v, "Name", "Slow");
    element(&mut v, "TriggerText", "You slow down.");
    element(&mut v, "TimerType", "Timer");
    element(&mut v, "TimerName", "Slowed");
    v.push(XmlItem::End(s("Trigger")));
    v.push(XmlItem::End(s("TriggerGroup")));
    v.push(XmlItem::EndDocument);
    let triggers = read_xml(&v).unwrap();
    let mut index = TriggerIndex::new();
    let res = triggers.convert_import(&mut index, &Timestamp(0));
    assert!(matches!(
        res,
        Err(GINAImportError::ConversionError(GINAConversionError::TimerDurationError(ref n))) if n.0 == "Slowed"
    ));
    assert_eq!(index.triggers.len(), 0);
}
