//! Reading a GINA package: the walk over the events of its XML
//! (`ShareData.xml`) that builds the groups, triggers, timer triggers and
//! early enders. An XML reader turns the bytes into the events; which
//! element sets which field is decided here.
use vstd::prelude::*;
use vstd::pervasive::arbitrary;
use crate::gina::{
    GINATriggers, GINATriggerGroup, GINATrigger, GINATimerTrigger, GINAEarlyEnder,
    triggergroup_with_field, trigger_with_field, timertrigger_with_field, earlyender_with_field,
};
use crate::text::str_eq;

verus! {

/// An event of an XML reader, as far as the walk looks at it: the local
/// name of an element that starts or ends, text, the end of the document,
/// or the reader's error message.
#[derive(Debug)]
pub enum XmlItem {
    Start(String),
    Text(String),
    End(String),
    EndDocument,
    Error(String),
    Other,
}

/// Why a GINA package could not be read.
#[derive(Debug)]
pub enum GINAParseError {
    IOError(String),
    ZIPError(String),
    XMLError(String),
    InvalidFileExtension,
    GINADataError(String),
}

pub enum ParseErrorView {
    IOError(Seq<char>),
    ZIPError(Seq<char>),
    XMLError(Seq<char>),
    InvalidFileExtension,
    GINADataError(Seq<char>),
}

impl View for GINAParseError {
    type V = ParseErrorView;

    open spec fn view(&self) -> ParseErrorView {
        match self {
            GINAParseError::IOError(m) => ParseErrorView::IOError(m@),
            GINAParseError::ZIPError(m) => ParseErrorView::ZIPError(m@),
            GINAParseError::XMLError(m) => ParseErrorView::XMLError(m@),
            GINAParseError::InvalidFileExtension => ParseErrorView::InvalidFileExtension,
            GINAParseError::GINADataError(m) => ParseErrorView::GINADataError(m@),
        }
    }
}

/// The message of a document whose events end before an element closes.
pub open spec fn truncated() -> ParseErrorView {
    ParseErrorView::XMLError("unexpected end of the document"@)
}

fn truncated_error() -> (res: GINAParseError)
    ensures
        res@ == truncated(),
{
    GINAParseError::XMLError("unexpected end of the document".to_owned())
}

/// How a package file is read, by its extension.
#[derive(Debug, Clone, Copy, PartialEq, Eq, Structural)]
pub enum PackageKind {
    /// A ZIP archive (`.gtp`) that holds `ShareData.xml`.
    Zipped,
    /// The XML itself (`.xml`).
    Xml,
}

/// The kind of package that a file with extension `extension` is.
pub fn package_kind(extension: Option<&str>) -> (res: Result<PackageKind, GINAParseError>)
    ensures
        match extension {
            Some(e) => if e@ == "gtp"@ {
                res == Ok::<PackageKind, GINAParseError>(PackageKind::Zipped)
            } else if e@ == "xml"@ {
                res == Ok::<PackageKind, GINAParseError>(PackageKind::Xml)
            } else {
                res matches Err(GINAParseError::InvalidFileExtension)
            },
            None => res matches Err(GINAParseError::InvalidFileExtension),
        },
{
    match extension {
        Some(e) => if str_eq(e, "gtp") {
            Ok(PackageKind::Zipped)
        } else if str_eq(e, "xml") {
            Ok(PackageKind::Xml)
        } else {
            Err(GINAParseError::InvalidFileExtension)
        },
        None => Err(GINAParseError::InvalidFileExtension),
    }
}

// ---------------------------------------------------------------------------
// What the walk builds
// ---------------------------------------------------------------------------

/// A trigger with its list of early enders apart.
pub struct TriggerTree {
    pub fields: GINATrigger,
    pub early_enders: Seq<GINAEarlyEnder>,
}

/// A group with its subgroups and triggers apart.
pub struct GroupTree {
    pub fields: GINATriggerGroup,
    pub groups: Seq<GroupTree>,
    pub triggers: Seq<TriggerTree>,
}

/// The trigger `t` with its list of early enders set aside.
pub open spec fn norm_trigger(t: GINATrigger) -> GINATrigger {
    GINATrigger { timer_early_enders: arbitrary(), ..t }
}

/// The group `g` with its lists set aside.
pub open spec fn norm_group(g: GINATriggerGroup) -> GINATriggerGroup {
    GINATriggerGroup { trigger_groups: arbitrary(), triggers: arbitrary(), ..g }
}

pub open spec fn trigger_tree(t: GINATrigger) -> TriggerTree {
    TriggerTree { fields: norm_trigger(t), early_enders: t.timer_early_enders@ }
}

pub open spec fn trigger_trees(s: Seq<GINATrigger>) -> Seq<TriggerTree> {
    Seq::new(s.len(), |i: int| trigger_tree(s[i]))
}

pub open spec fn group_trees(s: Seq<GINATriggerGroup>) -> Seq<GroupTree>
    decreases s,
{
    Seq::new(s.len(), |i: int| if 0 <= i < s.len() { group_tree(s[i]) } else { arbitrary() })
}

pub open spec fn group_tree(g: GINATriggerGroup) -> GroupTree
    decreases g,
{
    GroupTree { fields: norm_group(g), groups: group_trees(g.trigger_groups@), triggers: trigger_trees(g.triggers@) }
}

pub open spec fn blank_early_ender() -> GINAEarlyEnder {
    GINAEarlyEnder { early_end_text: None, enable_regex: None }
}

pub open spec fn blank_timer_trigger() -> GINATimerTrigger {
    GINATimerTrigger { use_text: None, display_text: None, use_text_to_voice: None, interrupt_speech: None, text_to_voice_text: None, play_media_file: None }
}

pub open spec fn blank_trigger() -> GINATrigger {
    GINATrigger {
        name: None,
        trigger_text: None,
        comments: None,
        category: None,
        enable_regex: None,
        use_text: None,
        display_text: None,
        copy_to_clipboard: None,
        clipboard_text: None,
        use_text_to_voice: None,
        interrupt_speech: None,
        text_to_voice_text: None,
        play_media_file: None,
        timer_type: None,
        timer_name: None,
        restart_based_on_timer_name: None,
        timer_millisecond_duration: None,
        timer_duration: None,
        timer_visible_duration: None,
        timer_start_behavior: None,
        timer_ending_time: None,
        use_timer_ending: None,
        use_timer_ended: None,
        timer_ending_trigger: None,
        timer_ended_trigger: None,
        use_counter_reset_timer: None,
        counter_reset_duration: None,
        modified: None,
        timer_early_enders: arbitrary(),
        use_fast_check: None,
    }
}

pub open spec fn blank_group() -> GINATriggerGroup {
    GINATriggerGroup {
        name: None,
        comments: None,
        enable_by_default: None,
        trigger_groups: arbitrary(),
        triggers: arbitrary(),
        self_commented: None,
        group_id: None,
    }
}

// ---------------------------------------------------------------------------
// The walk
// ---------------------------------------------------------------------------

/// An `<EarlyEnder>` read from event `p` on: the element's text fills the
/// fields of `e` (see `earlyender_with_field`; `cur` is the element last
/// started) until the `EarlyEnder` element ends. Gives the position after
/// its end.
pub open spec fn ee_walk(items: Seq<XmlItem>, p: int, e: GINAEarlyEnder, cur: Seq<char>) -> Result<(GINAEarlyEnder, int), ParseErrorView>
    decreases items.len() - p,
{
    if p < 0 || p >= items.len() {
        Err(truncated())
    } else {
        match items[p] {
            XmlItem::Start(n) => ee_walk(items, p + 1, e, n@),
            XmlItem::Text(d) => ee_walk(items, p + 1, earlyender_with_field(e, cur, d), cur),
            XmlItem::End(n) => if n@ == "EarlyEnder"@ {
                Ok((e, p + 1))
            } else {
                ee_walk(items, p + 1, e, cur)
            },
            XmlItem::Error(m) => Err(ParseErrorView::XMLError(m@)),
            _ => ee_walk(items, p + 1, e, cur),
        }
    }
}

/// A `<TimerEndingTrigger>` or `<TimerEndedTrigger>` read from event `p` on
/// (see `ee_walk`).
pub open spec fn tt_walk(items: Seq<XmlItem>, p: int, t: GINATimerTrigger, cur: Seq<char>) -> Result<(GINATimerTrigger, int), ParseErrorView>
    decreases items.len() - p,
{
    if p < 0 || p >= items.len() {
        Err(truncated())
    } else {
        match items[p] {
            XmlItem::Start(n) => tt_walk(items, p + 1, t, n@),
            XmlItem::Text(d) => tt_walk(items, p + 1, timertrigger_with_field(t, cur, d), cur),
            XmlItem::End(n) => if n@ == "TimerEndingTrigger"@ || n@ == "TimerEndedTrigger"@ {
                Ok((t, p + 1))
            } else {
                tt_walk(items, p + 1, t, cur)
            },
            XmlItem::Error(m) => Err(ParseErrorView::XMLError(m@)),
            _ => tt_walk(items, p + 1, t, cur),
        }
    }
}

/// A `<Trigger>` read from event `p` on: text fills the fields of `t` (see
/// `trigger_with_field`), a timer ending or ended trigger and each early
/// ender are read in place, until the `Trigger` element ends.
pub open spec fn trigger_walk(items: Seq<XmlItem>, p: int, t: GINATrigger, ees: Seq<GINAEarlyEnder>, cur: Seq<char>) -> Result<(TriggerTree, int), ParseErrorView>
    decreases items.len() - p,
{
    if p < 0 || p >= items.len() {
        Err(truncated())
    } else {
        match items[p] {
            XmlItem::Start(n) => if n@ == "TimerEndingTrigger"@ {
                match tt_walk(items, p + 1, blank_timer_trigger(), Seq::empty()) {
                    Ok((tt, q)) => if p < q <= items.len() {
                        trigger_walk(items, q, GINATrigger { timer_ending_trigger: Some(tt), ..t }, ees, n@)
                    } else {
                        Err(truncated())
                    },
                    Err(x) => Err(x),
                }
            } else if n@ == "TimerEndedTrigger"@ {
                match tt_walk(items, p + 1, blank_timer_trigger(), Seq::empty()) {
                    Ok((tt, q)) => if p < q <= items.len() {
                        trigger_walk(items, q, GINATrigger { timer_ended_trigger: Some(tt), ..t }, ees, n@)
                    } else {
                        Err(truncated())
                    },
                    Err(x) => Err(x),
                }
            } else if n@ == "EarlyEnder"@ {
                match ee_walk(items, p + 1, blank_early_ender(), Seq::empty()) {
                    Ok((e, q)) => if p < q <= items.len() {
                        trigger_walk(items, q, t, ees.push(e), n@)
                    } else {
                        Err(truncated())
                    },
                    Err(x) => Err(x),
                }
            } else {
                trigger_walk(items, p + 1, t, ees, n@)
            },
            XmlItem::Text(d) => match trigger_with_field(t, cur, d) {
                Ok(t2) => trigger_walk(items, p + 1, t2, ees, cur),
                Err(m) => Err(ParseErrorView::GINADataError(m)),
            },
            XmlItem::End(n) => if n@ == "Trigger"@ {
                Ok((TriggerTree { fields: t, early_enders: ees }, p + 1))
            } else {
                trigger_walk(items, p + 1, t, ees, cur)
            },
            XmlItem::Error(m) => Err(ParseErrorView::XMLError(m@)),
            _ => trigger_walk(items, p + 1, t, ees, cur),
        }
    }
}

/// A `<TriggerGroup>` read from event `p` on: text fills the fields of `g`
/// (see `triggergroup_with_field`), each subgroup and each trigger is read
/// in place, until the `TriggerGroup` element ends.
pub open spec fn group_walk(items: Seq<XmlItem>, p: int, g: GINATriggerGroup, groups: Seq<GroupTree>, triggers: Seq<TriggerTree>, cur: Seq<char>) -> Result<(GroupTree, int), ParseErrorView>
    decreases items.len() - p,
{
    if p < 0 || p >= items.len() {
        Err(truncated())
    } else {
        match items[p] {
            XmlItem::Start(n) => if n@ == "TriggerGroup"@ {
                match group_walk(items, p + 1, blank_group(), Seq::empty(), Seq::empty(), Seq::empty()) {
                    Ok((sub, q)) => if p < q <= items.len() {
                        group_walk(items, q, g, groups.push(sub), triggers, n@)
                    } else {
                        Err(truncated())
                    },
                    Err(x) => Err(x),
                }
            } else if n@ == "Trigger"@ {
                match trigger_walk(items, p + 1, blank_trigger(), Seq::empty(), Seq::empty()) {
                    Ok((t, q)) => if p < q <= items.len() {
                        group_walk(items, q, g, groups, triggers.push(t), n@)
                    } else {
                        Err(truncated())
                    },
                    Err(x) => Err(x),
                }
            } else {
                group_walk(items, p + 1, g, groups, triggers, n@)
            },
            XmlItem::Text(d) => group_walk(items, p + 1, triggergroup_with_field(g, cur, d), groups, triggers, cur),
            XmlItem::End(n) => if n@ == "TriggerGroup"@ {
                Ok((GroupTree { fields: g, groups, triggers }, p + 1))
            } else {
                group_walk(items, p + 1, g, groups, triggers, cur)
            },
            XmlItem::Error(m) => Err(ParseErrorView::XMLError(m@)),
            _ => group_walk(items, p + 1, g, groups, triggers, cur),
        }
    }
}

/// The whole document from event `p` on: each top-level `<TriggerGroup>`
/// is read in place, until the document ends.
pub open spec fn doc_walk(items: Seq<XmlItem>, p: int, groups: Seq<GroupTree>) -> Result<Seq<GroupTree>, ParseErrorView>
    decreases items.len() - p,
{
    if p < 0 || p >= items.len() {
        Err(truncated())
    } else {
        match items[p] {
            XmlItem::Start(n) => if n@ == "TriggerGroup"@ {
                match group_walk(items, p + 1, blank_group(), Seq::empty(), Seq::empty(), Seq::empty()) {
                    Ok((sub, q)) => if p < q <= items.len() {
                        doc_walk(items, q, groups.push(sub))
                    } else {
                        Err(truncated())
                    },
                    Err(x) => Err(x),
                }
            } else {
                doc_walk(items, p + 1, groups)
            },
            XmlItem::EndDocument => Ok(groups),
            XmlItem::Error(m) => Err(ParseErrorView::XMLError(m@)),
            _ => doc_walk(items, p + 1, groups),
        }
    }
}

// ---------------------------------------------------------------------------
// The walk, run
// ---------------------------------------------------------------------------

fn clone_error(m: &String) -> (res: GINAParseError)
    ensures
        res@ == ParseErrorView::XMLError(m@),
{
    GINAParseError::XMLError(m.clone())
}

/// Reads the `<EarlyEnder>` whose start event came just before `pos`.
pub fn parse_early_ender(items: &Vec<XmlItem>, pos: usize) -> (res: Result<(GINAEarlyEnder, usize), GINAParseError>)
    requires
        pos <= items@.len(),
    ensures
        match ee_walk(items@, pos as int, blank_early_ender(), Seq::empty()) {
            Ok((e, q)) => res matches Ok((r, k)) && r == e && k == q && pos < k <= items@.len(),
            Err(x) => res matches Err(y) && y@ == x,
        },
{
    let mut e = GINAEarlyEnder::new();
    let mut cur = String::new();
    let mut p = pos;
    assert(cur@ == Seq::<char>::empty());
    while p < items.len()
        invariant
            pos <= p <= items@.len(),
            ee_walk(items@, p as int, e, cur@) == ee_walk(items@, pos as int, blank_early_ender(), Seq::empty()),
        decreases items@.len() - p,
    {
        match &items[p] {
            XmlItem::Start(n) => {
                cur = n.clone();
            },
            XmlItem::Text(d) => {
                e.set_field(cur.as_str(), d.clone());
            },
            XmlItem::End(n) => {
                if str_eq(n.as_str(), "EarlyEnder") {
                    return Ok((e, p + 1));
                }
            },
            XmlItem::Error(m) => {
                return Err(clone_error(m));
            },
            _ => {},
        }
        p = p + 1;
    }
    Err(truncated_error())
}

/// Reads the timer ending or ended trigger whose start event came just
/// before `pos`.
pub fn parse_timer_trigger(items: &Vec<XmlItem>, pos: usize) -> (res: Result<(GINATimerTrigger, usize), GINAParseError>)
    requires
        pos <= items@.len(),
    ensures
        match tt_walk(items@, pos as int, blank_timer_trigger(), Seq::empty()) {
            Ok((t, q)) => res matches Ok((r, k)) && r == t && k == q && pos < k <= items@.len(),
            Err(x) => res matches Err(y) && y@ == x,
        },
{
    let mut t = GINATimerTrigger::new();
    let mut cur = String::new();
    let mut p = pos;
    assert(cur@ == Seq::<char>::empty());
    while p < items.len()
        invariant
            pos <= p <= items@.len(),
            tt_walk(items@, p as int, t, cur@) == tt_walk(items@, pos as int, blank_timer_trigger(), Seq::empty()),
        decreases items@.len() - p,
    {
        match &items[p] {
            XmlItem::Start(n) => {
                cur = n.clone();
            },
            XmlItem::Text(d) => {
                t.set_field(cur.as_str(), d.clone());
            },
            XmlItem::End(n) => {
                if str_eq(n.as_str(), "TimerEndingTrigger") || str_eq(n.as_str(), "TimerEndedTrigger") {
                    return Ok((t, p + 1));
                }
            },
            XmlItem::Error(m) => {
                return Err(clone_error(m));
            },
            _ => {},
        }
        p = p + 1;
    }
    Err(truncated_error())
}

/// Reads the `<Trigger>` whose start event came just before `pos`.
pub fn parse_trigger(items: &Vec<XmlItem>, pos: usize) -> (res: Result<(GINATrigger, usize), GINAParseError>)
    requires
        pos <= items@.len(),
    ensures
        match trigger_walk(items@, pos as int, blank_trigger(), Seq::empty(), Seq::empty()) {
            Ok((t, q)) => res matches Ok((r, k)) && trigger_tree(r) == t && k == q && pos < k <= items@.len(),
            Err(x) => res matches Err(y) && y@ == x,
        },
{
    let mut t = GINATrigger::new();
    let mut cur = String::new();
    let mut p = pos;
    assert(cur@ == Seq::<char>::empty());
    assert(norm_trigger(t) == blank_trigger());
    assert(t.timer_early_enders@ == Seq::<GINAEarlyEnder>::empty());
    while p < items.len()
        invariant
            pos <= p <= items@.len(),
            trigger_walk(items@, p as int, norm_trigger(t), t.timer_early_enders@, cur@)
                == trigger_walk(items@, pos as int, blank_trigger(), Seq::empty(), Seq::empty()),
        decreases items@.len() - p,
    {
        match &items[p] {
            XmlItem::Start(n) => {
                cur = n.clone();
                if str_eq(n.as_str(), "TimerEndingTrigger") {
                    let (tt, q) = parse_timer_trigger(items, p + 1)?;
                    t.timer_ending_trigger = Some(tt);
                    p = q;
                    continue;
                } else if str_eq(n.as_str(), "TimerEndedTrigger") {
                    let (tt, q) = parse_timer_trigger(items, p + 1)?;
                    t.timer_ended_trigger = Some(tt);
                    p = q;
                    continue;
                } else if str_eq(n.as_str(), "EarlyEnder") {
                    let (e, q) = parse_early_ender(items, p + 1)?;
                    t.timer_early_enders.push(e);
                    p = q;
                    continue;
                }
            },
            XmlItem::Text(d) => {
                let ghost before = t;
                match t.set_field(cur.as_str(), d.clone()) {
                    Ok(()) => {},
                    Err(m) => {
                        return Err(GINAParseError::GINADataError(m.0));
                    },
                }
                assert(t.timer_early_enders == before.timer_early_enders);
            },
            XmlItem::End(n) => {
                if str_eq(n.as_str(), "Trigger") {
                    return Ok((t, p + 1));
                }
            },
            XmlItem::Error(m) => {
                return Err(clone_error(m));
            },
            _ => {},
        }
        p = p + 1;
    }
    Err(truncated_error())
}

/// Reads the `<TriggerGroup>` whose start event came just before `pos`.
pub fn parse_trigger_group(items: &Vec<XmlItem>, pos: usize) -> (res: Result<(GINATriggerGroup, usize), GINAParseError>)
    requires
        pos <= items@.len(),
    ensures
        match group_walk(items@, pos as int, blank_group(), Seq::empty(), Seq::empty(), Seq::empty()) {
            Ok((g, q)) => res matches Ok((r, k)) && group_tree(r) == g && k == q && pos < k <= items@.len(),
            Err(x) => res matches Err(y) && y@ == x,
        },
    decreases items@.len() - pos,
{
    let mut g = GINATriggerGroup::new();
    let mut cur = String::new();
    let mut p = pos;
    assert(cur@ == Seq::<char>::empty());
    assert(norm_group(g) == blank_group());
    assert(group_trees(g.trigger_groups@) =~= Seq::<GroupTree>::empty());
    assert(trigger_trees(g.triggers@) =~= Seq::<TriggerTree>::empty());
    while p < items.len()
        invariant
            pos <= p <= items@.len(),
            group_walk(items@, p as int, norm_group(g), group_trees(g.trigger_groups@), trigger_trees(g.triggers@), cur@)
                == group_walk(items@, pos as int, blank_group(), Seq::empty(), Seq::empty(), Seq::empty()),
        decreases items@.len() - p,
    {
        match &items[p] {
            XmlItem::Start(n) => {
                cur = n.clone();
                if str_eq(n.as_str(), "TriggerGroup") {
                    let (sub, q) = parse_trigger_group(items, p + 1)?;
                    let ghost before = g.trigger_groups@;
                    g.trigger_groups.push(sub);
                    assert(group_trees(g.trigger_groups@) =~= group_trees(before).push(group_tree(sub)));
                    p = q;
                    continue;
                } else if str_eq(n.as_str(), "Trigger") {
                    let (t, q) = parse_trigger(items, p + 1)?;
                    let ghost before = g.triggers@;
                    g.triggers.push(t);
                    assert(trigger_trees(g.triggers@) =~= trigger_trees(before).push(trigger_tree(t)));
                    p = q;
                    continue;
                }
            },
            XmlItem::Text(d) => {
                g.set_field(cur.as_str(), d.clone());
            },
            XmlItem::End(n) => {
                if str_eq(n.as_str(), "TriggerGroup") {
                    return Ok((g, p + 1));
                }
            },
            XmlItem::Error(m) => {
                return Err(clone_error(m));
            },
            _ => {},
        }
        p = p + 1;
    }
    Err(truncated_error())
}

/// Reads the groups of a whole GINA package from the events of its XML.
pub fn read_xml(items: &Vec<XmlItem>) -> (res: Result<GINATriggers, GINAParseError>)
    ensures
        match doc_walk(items@, 0, Seq::empty()) {
            Ok(gs) => res matches Ok(r) && group_trees(r.trigger_groups@) == gs,
            Err(x) => res matches Err(y) && y@ == x,
        },
{
    let mut shared = GINATriggers::new();
    let mut p: usize = 0;
    assert(group_trees(shared.trigger_groups@) =~= Seq::<GroupTree>::empty());
    while p < items.len()
        invariant
            p <= items@.len(),
            doc_walk(items@, p as int, group_trees(shared.trigger_groups@)) == doc_walk(items@, 0, Seq::empty()),
        decreases items@.len() - p,
    {
        match &items[p] {
            XmlItem::Start(n) => {
                if str_eq(n.as_str(), "TriggerGroup") {
                    let (sub, q) = parse_trigger_group(items, p + 1)?;
                    let ghost before = shared.trigger_groups@;
                    shared.trigger_groups.push(sub);
                    assert(group_trees(shared.trigger_groups@) =~= group_trees(before).push(group_tree(sub)));
                    p = q;
                    continue;
                }
            },
            XmlItem::EndDocument => {
                return Ok(shared);
            },
            XmlItem::Error(m) => {
                return Err(clone_error(m));
            },
            _ => {},
        }
        p = p + 1;
    }
    Err(truncated_error())
}

// ---------------------------------------------------------------------------
// From the bytes of a package to its events
// ---------------------------------------------------------------------------

/// The events that `xml::reader::EventReader` gives for the XML document
/// `bytes`, as `XmlItem`s, up to and including the end of the document or
/// its first error.
pub uninterp spec fn xml_events_of(bytes: Seq<u8>) -> Seq<XmlItem>;

/// Reads the XML document `bytes` with `xml::reader::EventReader` and keeps
/// each event: the local name of an element where it starts or ends, text,
/// the end of the document, the reader's error message, or `Other` for the
/// rest. The reader gives no event after the end of the document or after
/// an error. The list depends on the bytes alone; it is only named.
#[verifier::external_body]
fn xml_items(bytes: &[u8]) -> (res: Vec<XmlItem>)
    ensures
        res@ == xml_events_of(bytes@),
{
    let mut items = Vec::new();
    for event in xml::reader::EventReader::new(bytes) {
        items.push(match event {
            Ok(xml::reader::XmlEvent::StartElement { name, .. }) => XmlItem::Start(name.local_name),
            Ok(xml::reader::XmlEvent::EndElement { name }) => XmlItem::End(name.local_name),
            Ok(xml::reader::XmlEvent::Characters(data)) => XmlItem::Text(data),
            Ok(xml::reader::XmlEvent::EndDocument) => XmlItem::EndDocument,
            Ok(_) => XmlItem::Other,
            Err(e) => XmlItem::Error(e.to_string()),
        });
    }
    items
}

/// The bytes of the entry named `name` of the ZIP archive `archive`, as
/// `zip::ZipArchive` reads and decompresses them; `None` when the archive
/// cannot be read, has no such entry, or the entry cannot be read.
pub uninterp spec fn zip_entry(archive: Seq<u8>, name: Seq<char>) -> Option<Seq<u8>>;

/// Opens `archive` with `zip::ZipArchive::new`, finds the entry `name` with
/// `by_name` and reads it to its end. A failure of any step comes back as a
/// ZIP error carrying the crate's message, which is not stated.
#[verifier::external_body]
fn zip_entry_bytes(archive: &[u8], name: &str) -> (res: Result<Vec<u8>, GINAParseError>)
    ensures
        res matches Ok(b) ==> zip_entry(archive@, name@) == Some(b@),
        res is Err ==> zip_entry(archive@, name@) is None && res matches Err(GINAParseError::ZIPError(_)),
{
    let zip_error = |e: zip::result::ZipError| GINAParseError::ZIPError(e.to_string());
    let mut archive = zip::ZipArchive::new(std::io::Cursor::new(archive)).map_err(zip_error)?;
    let mut entry = archive.by_name(name).map_err(zip_error)?;
    let mut bytes = Vec::new();
    std::io::Read::read_to_end(&mut entry, &mut bytes).map_err(|e| GINAParseError::ZIPError(e.to_string()))?;
    Ok(bytes)
}

/// The XML of a package of kind `kind` whose file holds `bytes`: the bytes
/// themselves, or the `ShareData.xml` entry of the ZIP archive.
pub open spec fn package_xml(bytes: Seq<u8>, kind: PackageKind) -> Option<Seq<u8>> {
    match kind {
        PackageKind::Xml => Some(bytes),
        PackageKind::Zipped => zip_entry(bytes, "ShareData.xml"@),
    }
}

/// Reads the groups of a GINA package of kind `kind` from the bytes of its
/// file: a ZIP error when the archive has no readable `ShareData.xml`, else
/// the walk over the events of its XML.
pub fn read_gina_package(bytes: &[u8], kind: PackageKind) -> (res: Result<GINATriggers, GINAParseError>)
    ensures
        match package_xml(bytes@, kind) {
            None => res matches Err(GINAParseError::ZIPError(_)),
            Some(xml) => match doc_walk(xml_events_of(xml), 0, Seq::empty()) {
                Ok(gs) => res matches Ok(r) && group_trees(r.trigger_groups@) == gs,
                Err(x) => res matches Err(y) && y@ == x,
            },
        },
{
    let items = match kind {
        PackageKind::Zipped => {
            let xml = zip_entry_bytes(bytes, "ShareData.xml")?;
            xml_items(xml.as_slice())
        },
        PackageKind::Xml => xml_items(bytes),
    };
    read_xml(&items)
}

} // verus!
