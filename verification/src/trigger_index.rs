//! The store of triggers, groups and tags, and the mutations the user
//! interface asks of it. Each mutation answers with the changes (deltas) that
//! the interface has to show.
use vstd::prelude::*;
use crate::common::{LogQuestVersion, Timestamp, UUID, UUID_LEN, is_v4_uuid_text};
use crate::keyed::{Keyed, keyed_map, keys_unique, lemma_keyed_lookup, find_keyed, contains_keyed, upsert, remove_keyed};
use crate::text::{chars_of, seq_eq, string_of};
use crate::triggers::{DescendantView, GroupView, Trigger, TriggerGroup, TriggerGroupDescendant, TriggerView, clone_descendants, descendants_view};

verus! {

pub open spec fn ids_view(s: Seq<UUID>) -> Seq<Seq<char>> {
    s.map_values(|u: UUID| u@)
}

/// A label that the user puts on triggers.
#[derive(Debug)]
pub struct TriggerTag {
    pub id: UUID,
    pub name: String,
    /// No identifier twice.
    pub triggers: Vec<UUID>,
}

pub struct TagView {
    pub id: Seq<char>,
    pub name: Seq<char>,
    pub triggers: Set<Seq<char>>,
}

impl View for TriggerTag {
    type V = TagView;

    open spec fn view(&self) -> TagView {
        TagView { id: self.id@, name: self.name@, triggers: ids_view(self.triggers@).to_set() }
    }
}

impl Keyed for TriggerTag {
    open spec fn key(&self) -> Seq<char> {
        self.id@
    }

    fn key_str(&self) -> (res: &str) {
        self.id.as_str()
    }
}

pub fn clone_ids(v: &Vec<UUID>) -> (res: Vec<UUID>)
    ensures
        res@ == v@,
{
    let mut res: Vec<UUID> = Vec::new();
    let mut i: usize = 0;
    while i < v.len()
        invariant
            i <= v@.len(),
            res@ == v@.take(i as int),
        decreases v@.len() - i,
    {
        res.push(v[i].clone());
        assert(v@.take(i + 1) == v@.take(i as int).push(v@[i as int]));
        i = i + 1;
    }
    assert(v@.take(i as int) == v@);
    res
}

/// The position of identifier `id` in `v`.
fn position_of(v: &Vec<UUID>, id: &UUID) -> (r: Option<usize>)
    ensures
        r matches Some(i) ==> i < v@.len() && v@[i as int]@ == id@,
        r is None ==> !ids_view(v@).contains(id@),
{
    let mut i: usize = 0;
    while i < v.len()
        invariant
            i <= v@.len(),
            forall|j: int| 0 <= j < i ==> (#[trigger] v@[j])@ != id@,
        decreases v@.len() - i,
    {
        if v[i].same(id) {
            return Some(i);
        }
        i = i + 1;
    }
    assert forall|j: int| 0 <= j < ids_view(v@).len() implies ids_view(v@)[j] != id@ by {
        assert(ids_view(v@)[j] == v@[j]@);
    }
    None
}

pub proof fn lemma_remove_to_set<A>(s: Seq<A>, i: int)
    requires
        s.no_duplicates(),
        0 <= i < s.len(),
    ensures
        s.remove(i).no_duplicates(),
        s.remove(i).to_set() == s.to_set().remove(s[i]),
{
    let u = s.remove(i);
    assert forall|a: int, b: int| 0 <= a < b < u.len() implies u[a] != u[b] by {
        let a2 = if a < i { a } else { a + 1 };
        let b2 = if b < i { b } else { b + 1 };
        assert(u[a] == s[a2] && u[b] == s[b2]);
    }
    assert forall|x: A| u.to_set().contains(x) <==> s.to_set().remove(s[i]).contains(x) by {
        if u.contains(x) {
            let a = choose|a: int| 0 <= a < u.len() && u[a] == x;
            let a2 = if a < i { a } else { a + 1 };
            assert(s[a2] == x);
        }
        if s.contains(x) && x != s[i] {
            let a = choose|a: int| 0 <= a < s.len() && s[a] == x;
            if a < i {
                assert(u[a] == x);
            } else {
                assert(a != i);
                assert(u[a - 1] == x);
            }
        }
    }
    assert(u.to_set() =~= s.to_set().remove(s[i]));
}

impl TriggerTag {
    pub open spec fn wf(&self) -> bool {
        ids_view(self.triggers@).no_duplicates()
    }

    /// A tag with a fresh identifier and no triggers.
    pub fn new(name: &str) -> (res: TriggerTag)
        ensures
            res.wf(),
            res@.id.len() == UUID_LEN,
            is_v4_uuid_text(res@.id),
            res@.name == name@,
            res@.triggers == Set::<Seq<char>>::empty(),
    {
        let res = TriggerTag { id: UUID::new(), name: string_of(&chars_of(name)), triggers: Vec::new() };
        assert(ids_view(res.triggers@) =~= Seq::<Seq<char>>::empty());
        assert(res@.triggers =~= Set::<Seq<char>>::empty());
        res
    }

    pub fn name(&self) -> (res: &str)
        ensures
            res@ == self@.name,
    {
        self.name.as_str()
    }

    /// The tagged triggers, each once.
    pub fn trigger_ids(&self) -> (res: Vec<UUID>)
        requires
            self.wf(),
        ensures
            ids_view(res@).to_set() == self@.triggers,
            ids_view(res@).no_duplicates(),
    {
        clone_ids(&self.triggers)
    }

    pub fn tags_trigger(&self, id: &UUID) -> (res: bool)
        ensures
            res == self@.triggers.contains(id@),
    {
        match position_of(&self.triggers, id) {
            Some(i) => {
                assert(ids_view(self.triggers@)[i as int] == id@);
                true
            },
            None => false,
        }
    }

    fn add_trigger(&mut self, id: &UUID)
        requires
            old(self).wf(),
        ensures
            final(self).wf(),
            final(self)@ == (TagView { triggers: old(self)@.triggers.insert(id@), ..old(self)@ }),
    {
        match position_of(&self.triggers, id) {
            Some(i) => {
                assert(ids_view(self.triggers@)[i as int] == id@);
                assert(self@.triggers.insert(id@) =~= self@.triggers);
            },
            None => {
                let ghost before = ids_view(self.triggers@);
                self.triggers.push(id.clone());
                assert(ids_view(self.triggers@) =~= before.push(id@));
                proof {
                    before.lemma_push_to_set_commute(id@);
                }
                assert(ids_view(self.triggers@).no_duplicates()) by {
                    assert forall|a: int, b: int| 0 <= a < b < ids_view(self.triggers@).len() implies ids_view(self.triggers@)[a] != ids_view(self.triggers@)[b] by {
                        if b == before.len() {
                            assert(before.contains(before[a]));
                        }
                    }
                }
            },
        }
    }

    fn remove_trigger(&mut self, id: &UUID)
        requires
            old(self).wf(),
        ensures
            final(self).wf(),
            final(self)@ == (TagView { triggers: old(self)@.triggers.remove(id@), ..old(self)@ }),
    {
        match position_of(&self.triggers, id) {
            Some(i) => {
                let ghost before = ids_view(self.triggers@);
                self.triggers.remove(i);
                assert(ids_view(self.triggers@) =~= before.remove(i as int));
                proof {
                    lemma_remove_to_set(before, i as int);
                }
                assert(before[i as int] == id@);
            },
            None => {
                assert(self@.triggers.remove(id@) =~= self@.triggers);
            },
        }
    }
}

impl Clone for TriggerTag {
    fn clone(&self) -> (res: Self)
        ensures
            res@ == self@,
            self.wf() ==> res.wf(),
    {
        TriggerTag { id: self.id.clone(), name: self.name.clone(), triggers: clone_ids(&self.triggers) }
    }
}

// ---------------------------------------------------------------------------
// Mutations and their answers
// ---------------------------------------------------------------------------

#[derive(Debug)]
pub enum Mutation {
    CreateTrigger { trigger: Trigger, trigger_tag_ids: Vec<UUID>, parent_position: usize },
    SaveTrigger { trigger: Trigger, trigger_tag_ids: Vec<UUID> },
    DeleteTrigger(UUID),
    CreateTriggerGroup { trigger_group: TriggerGroup, parent_position: usize },
    SaveTriggerGroup { trigger_group_id: UUID, name: String, comment: Option<String> },
    DeleteTriggerGroup(UUID),
    CreateTriggerTag(String),
    RenameTriggerTag(UUID, String),
    DeleteTriggerTag(UUID),
    TagTrigger { trigger_id: UUID, trigger_tag_id: UUID },
    UntagTrigger { trigger_id: UUID, trigger_tag_id: UUID },
}

/// A change that the user interface has to show.
#[derive(Debug)]
pub enum DataDelta {
    TopLevelChanged(Vec<TriggerGroupDescendant>),
    TriggerSaved(Trigger),
    TriggerDeleted(UUID),
    TriggerTagged { trigger_id: UUID, trigger_tag_id: UUID },
    TriggerUntagged { trigger_id: UUID, trigger_tag_id: UUID },
    TriggerGroupSaved(TriggerGroup),
    TriggerGroupChildrenChanged { trigger_group_id: UUID, children: Vec<TriggerGroupDescendant> },
    TriggerGroupDeleted(UUID),
    TriggerTagCreated(TriggerTag),
    TriggerTagRenamed(UUID, String),
    TriggerTagTriggersChanged { trigger_tag_id: UUID, triggers: Vec<UUID> },
    TriggerTagDeleted(UUID),
}

pub enum DeltaView {
    TopLevelChanged(Seq<DescendantView>),
    TriggerSaved(TriggerView),
    TriggerDeleted(Seq<char>),
    TriggerTagged { trigger_id: Seq<char>, trigger_tag_id: Seq<char> },
    TriggerUntagged { trigger_id: Seq<char>, trigger_tag_id: Seq<char> },
    TriggerGroupSaved(GroupView),
    TriggerGroupChildrenChanged { trigger_group_id: Seq<char>, children: Seq<DescendantView> },
    TriggerGroupDeleted(Seq<char>),
    TriggerTagCreated(TagView),
    TriggerTagRenamed(Seq<char>, Seq<char>),
    /// The tag's triggers as a set (the list holds each once).
    TriggerTagTriggersChanged { trigger_tag_id: Seq<char>, triggers: Set<Seq<char>> },
    TriggerTagDeleted(Seq<char>),
}

impl View for DataDelta {
    type V = DeltaView;

    open spec fn view(&self) -> DeltaView {
        match self {
            DataDelta::TopLevelChanged(v) => DeltaView::TopLevelChanged(descendants_view(v@)),
            DataDelta::TriggerSaved(t) => DeltaView::TriggerSaved(t@),
            DataDelta::TriggerDeleted(id) => DeltaView::TriggerDeleted(id@),
            DataDelta::TriggerTagged { trigger_id, trigger_tag_id } => DeltaView::TriggerTagged { trigger_id: trigger_id@, trigger_tag_id: trigger_tag_id@ },
            DataDelta::TriggerUntagged { trigger_id, trigger_tag_id } => DeltaView::TriggerUntagged { trigger_id: trigger_id@, trigger_tag_id: trigger_tag_id@ },
            DataDelta::TriggerGroupSaved(g) => DeltaView::TriggerGroupSaved(g@),
            DataDelta::TriggerGroupChildrenChanged { trigger_group_id, children } => DeltaView::TriggerGroupChildrenChanged { trigger_group_id: trigger_group_id@, children: descendants_view(children@) },
            DataDelta::TriggerGroupDeleted(id) => DeltaView::TriggerGroupDeleted(id@),
            DataDelta::TriggerTagCreated(t) => DeltaView::TriggerTagCreated(t@),
            DataDelta::TriggerTagRenamed(id, name) => DeltaView::TriggerTagRenamed(id@, name@),
            DataDelta::TriggerTagTriggersChanged { trigger_tag_id, triggers } => DeltaView::TriggerTagTriggersChanged { trigger_tag_id: trigger_tag_id@, triggers: ids_view(triggers@).to_set() },
            DataDelta::TriggerTagDeleted(id) => DeltaView::TriggerTagDeleted(id@),
        }
    }
}

pub open spec fn deltas_view(v: Seq<DataDelta>) -> Seq<DeltaView> {
    v.map_values(|d: DataDelta| d@)
}

#[derive(Debug)]
pub enum DataMutationError {
    TriggerNotFound(UUID),
    TriggerGroupNotFound(UUID),
    TriggerTagNotFound(UUID),
    EffectNotFound(UUID),
    IncorrectEffectType,
}

pub enum ErrorView {
    TriggerNotFound(Seq<char>),
    TriggerGroupNotFound(Seq<char>),
    TriggerTagNotFound(Seq<char>),
    EffectNotFound(Seq<char>),
    IncorrectEffectType,
}

impl View for DataMutationError {
    type V = ErrorView;

    open spec fn view(&self) -> ErrorView {
        match self {
            DataMutationError::TriggerNotFound(id) => ErrorView::TriggerNotFound(id@),
            DataMutationError::TriggerGroupNotFound(id) => ErrorView::TriggerGroupNotFound(id@),
            DataMutationError::TriggerTagNotFound(id) => ErrorView::TriggerTagNotFound(id@),
            DataMutationError::EffectNotFound(id) => ErrorView::EffectNotFound(id@),
            DataMutationError::IncorrectEffectType => ErrorView::IncorrectEffectType,
        }
    }
}

pub open spec fn result_view(r: Result<Vec<DataDelta>, DataMutationError>) -> Result<Seq<DeltaView>, ErrorView> {
    match r {
        Ok(v) => Ok(deltas_view(v@)),
        Err(e) => Err(e@),
    }
}

/// Whether a triggers file written by `version` can be imported.
pub fn is_compatible_triggers_import_version(version: &LogQuestVersion) -> (res: bool)
    ensures
        res,
{
    true
}

} // verus!

verus! {

// ---------------------------------------------------------------------------
// The index
// ---------------------------------------------------------------------------

/// All triggers, groups and tags. Triggers and groups are kept by identifier
/// (each list holds an identifier once); `top_level` lists what sits at the
/// top of the tree.
#[derive(Debug)]
pub struct TriggerIndex {
    pub triggers: Vec<Trigger>,
    pub groups: Vec<TriggerGroup>,
    pub top_level: Vec<TriggerGroupDescendant>,
    pub trigger_tags: Vec<TriggerTag>,
}

pub struct IndexView {
    pub triggers: Map<Seq<char>, TriggerView>,
    pub groups: Map<Seq<char>, GroupView>,
    pub top_level: Seq<DescendantView>,
    /// The tags in the order they were made (identifiers unique).
    pub tags: Seq<TagView>,
}

pub open spec fn tags_view(v: Seq<TriggerTag>) -> Seq<TagView> {
    v.map_values(|t: TriggerTag| t@)
}

impl View for TriggerIndex {
    type V = IndexView;

    open spec fn view(&self) -> IndexView {
        IndexView {
            triggers: keyed_map(self.triggers@),
            groups: keyed_map(self.groups@),
            top_level: descendants_view(self.top_level@),
            tags: tags_view(self.trigger_tags@),
        }
    }
}

/// Whether a tag with identifier `k` is among `tags`.
pub open spec fn has_tag(tags: Seq<TagView>, k: Seq<char>) -> bool {
    exists|i: int| 0 <= i < tags.len() && (#[trigger] tags[i]).id == k
}

pub open spec fn tag_ids_unique(tags: Seq<TagView>) -> bool {
    forall|i: int, j: int| 0 <= i < j < tags.len() ==> (#[trigger] tags[i]).id != (#[trigger] tags[j]).id
}

pub open spec fn with_triggers(t: TagView, s: Set<Seq<char>>) -> TagView {
    TagView { triggers: s, ..t }
}

pub open spec fn updated_at(t: TriggerView, at: Timestamp) -> TriggerView {
    TriggerView { updated_at: at, ..t }
}

pub open spec fn with_children(g: GroupView, children: Seq<DescendantView>) -> GroupView {
    GroupView { children, ..g }
}

impl TriggerIndex {
    pub open spec fn wf(&self) -> bool {
        &&& keys_unique(self.triggers@)
        &&& keys_unique(self.groups@)
        &&& keys_unique(self.trigger_tags@)
        &&& forall|i: int| 0 <= i < self.trigger_tags@.len() ==> (#[trigger] self.trigger_tags@[i]).wf()
    }

    pub fn new() -> (res: TriggerIndex)
        ensures
            res.wf(),
            res@.triggers == Map::<Seq<char>, TriggerView>::empty(),
            res@.groups == Map::<Seq<char>, GroupView>::empty(),
            res@.top_level == Seq::<DescendantView>::empty(),
            res@.tags == Seq::<TagView>::empty(),
    {
        let res = TriggerIndex { triggers: Vec::new(), groups: Vec::new(), top_level: Vec::new(), trigger_tags: Vec::new() };
        assert(res@.top_level =~= Seq::<DescendantView>::empty());
        assert(res@.tags =~= Seq::<TagView>::empty());
        res
    }

    pub fn trigger_count(&self) -> (res: usize)
        requires
            self.wf(),
        ensures
            res == self@.triggers.dom().len(),
    {
        proof {
            crate::keyed::lemma_keyed_len(self.triggers@);
        }
        self.triggers.len()
    }

    /// Adds a trigger as it is (its parent group is expected to list it
    /// already); one without a parent joins the end of the top level.
    pub fn import_trigger(&mut self, trigger: Trigger)
        requires
            old(self).wf(),
        ensures
            final(self).wf(),
            final(self)@ == (IndexView {
                triggers: old(self)@.triggers.insert(trigger@.id, trigger@),
                top_level: if trigger@.parent_id is None {
                    old(self)@.top_level.push(DescendantView::T(trigger@.id))
                } else {
                    old(self)@.top_level
                },
                ..old(self)@
            }),
    {
        if trigger.parent_id.is_none() {
            self.top_level.push(TriggerGroupDescendant::T(trigger.id.clone()));
        }
        let ghost t = trigger@;
        upsert(&mut self.triggers, trigger);
        assert(self@.top_level =~= (if t.parent_id is None {
            old(self)@.top_level.push(DescendantView::T(t.id))
        } else {
            old(self)@.top_level
        }));
    }

    /// Adds a group as it is (its parent group is expected to list it
    /// already); one without a parent joins the end of the top level.
    pub fn import_trigger_group(&mut self, group: TriggerGroup)
        requires
            old(self).wf(),
        ensures
            final(self).wf(),
            final(self)@ == (IndexView {
                groups: old(self)@.groups.insert(group@.id, group@),
                top_level: if group@.parent_id is None {
                    old(self)@.top_level.push(DescendantView::G(group@.id))
                } else {
                    old(self)@.top_level
                },
                ..old(self)@
            }),
    {
        if group.parent_id.is_none() {
            self.top_level.push(TriggerGroupDescendant::G(group.id.clone()));
        }
        let ghost g = group@;
        upsert(&mut self.groups, group);
        assert(self@.top_level =~= (if g.parent_id is None {
            old(self)@.top_level.push(DescendantView::G(g.id))
        } else {
            old(self)@.top_level
        }));
    }

    /// Makes a tag named `name` with a fresh identifier and no triggers.
    pub fn create_trigger_tag(&mut self, name: &str) -> (res: TriggerTag)
        requires
            old(self).wf(),
        ensures
            final(self).wf(),
            res.wf(),
            res@.name == name@,
            res@.triggers == Set::<Seq<char>>::empty(),
            res@.id.len() == UUID_LEN,
            is_v4_uuid_text(res@.id),
            final(self)@.triggers == old(self)@.triggers,
            final(self)@.groups == old(self)@.groups,
            final(self)@.top_level == old(self)@.top_level,
            has_tag(old(self)@.tags, res@.id) ==> exists|i: int| 0 <= i < old(self)@.tags.len() && (#[trigger] old(self)@.tags[i]).id == res@.id && final(self)@.tags == old(self)@.tags.update(i, res@),
            !has_tag(old(self)@.tags, res@.id) ==> final(self)@.tags == old(self)@.tags.push(res@),
    {
        let tag = TriggerTag::new(name);
        let copy = tag.clone();
        let ghost before = self.trigger_tags@;
        let replaced = upsert(&mut self.trigger_tags, copy);
        proof {
            lemma_keyed_lookup(before, tag@.id);
            match replaced {
                Some(_) => {
                    let i = choose|i: int| 0 <= i < before.len() && (#[trigger] before[i]).key() == tag@.id && self.trigger_tags@ == before.update(i, copy);
                    assert(tags_view(before)[i].id == tag@.id);
                    assert(tags_view(self.trigger_tags@) =~= tags_view(before).update(i, tag@));
                },
                None => {
                    assert(tags_view(self.trigger_tags@) =~= tags_view(before).push(tag@));
                    if has_tag(tags_view(before), tag@.id) {
                        let i = choose|i: int| 0 <= i < tags_view(before).len() && (#[trigger] tags_view(before)[i]).id == tag@.id;
                        assert(before[i].key() == tag@.id);
                    }
                },
            }
        }
        tag
    }
}

} // verus!

verus! {

// ---------------------------------------------------------------------------
// Lists of descendants
// ---------------------------------------------------------------------------

/// The first position of `d` in `s` from `i` on.
pub open spec fn first_index_from(s: Seq<DescendantView>, d: DescendantView, i: int) -> Option<int>
    decreases s.len() - i,
{
    if i < 0 || i >= s.len() {
        None
    } else if s[i] == d {
        Some(i)
    } else {
        first_index_from(s, d, i + 1)
    }
}

/// `s` without its first `d` (as it is when there is none).
pub open spec fn remove_first(s: Seq<DescendantView>, d: DescendantView) -> Seq<DescendantView> {
    match first_index_from(s, d, 0) {
        Some(j) => s.remove(j),
        None => s,
    }
}

/// `s` without any `d`.
pub open spec fn without(s: Seq<DescendantView>, d: DescendantView) -> Seq<DescendantView>
    decreases s.len(),
{
    if s.len() == 0 {
        Seq::empty()
    } else {
        without(s.drop_last(), d) + if s.last() == d {
            Seq::<DescendantView>::empty()
        } else {
            seq![s.last()]
        }
    }
}

proof fn lemma_first_index_from(s: Seq<DescendantView>, d: DescendantView, i: int)
    requires
        0 <= i <= s.len(),
    ensures
        first_index_from(s, d, i) matches Some(j) ==> i <= j < s.len() && s[j] == d,
        first_index_from(s, d, i) is None ==> forall|k: int| i <= k < s.len() ==> s[k] != d,
    decreases s.len() - i,
{
    if i < s.len() && s[i] != d {
        lemma_first_index_from(s, d, i + 1);
    }
}

fn same_descendant(x: &TriggerGroupDescendant, y: &TriggerGroupDescendant) -> (res: bool)
    ensures
        res == (x@ == y@),
{
    match (x, y) {
        (TriggerGroupDescendant::T(a), TriggerGroupDescendant::T(b)) => a.same(b),
        (TriggerGroupDescendant::G(a), TriggerGroupDescendant::G(b)) => a.same(b),
        _ => false,
    }
}

/// Removes the first `d` from `v`.
fn remove_first_exec(v: &mut Vec<TriggerGroupDescendant>, d: &TriggerGroupDescendant)
    ensures
        descendants_view(final(v)@) == remove_first(descendants_view(old(v)@), d@),
{
    let ghost s = descendants_view(v@);
    assert(s == descendants_view(old(v)@));
    let mut i: usize = 0;
    while i < v.len()
        invariant
            s == descendants_view(v@),
            s == descendants_view(old(v)@),
            i <= v@.len(),
            first_index_from(s, d@, 0) == first_index_from(s, d@, i as int),
        decreases v@.len() - i,
    {
        assert(s[i as int] == v@[i as int]@);
        if same_descendant(&v[i], d) {
            let ghost before = v@;
            v.remove(i);
            assert(descendants_view(v@) =~= s.remove(i as int));
            assert(first_index_from(s, d@, i as int) == Some(i as int));
            assert(first_index_from(s, d@, 0) == Some(i as int));
            assert(descendants_view(v@) == remove_first(s, d@));
            return;
        }
        i = i + 1;
    }
}

/// Removes every `d` from `v`.
fn retain_other_exec(v: &mut Vec<TriggerGroupDescendant>, d: &TriggerGroupDescendant)
    ensures
        descendants_view(final(v)@) == without(descendants_view(old(v)@), d@),
{
    let ghost s = descendants_view(v@);
    let mut kept: Vec<TriggerGroupDescendant> = Vec::new();
    let mut i: usize = 0;
    while i < v.len()
        invariant
            s == descendants_view(v@),
            i <= v@.len(),
            descendants_view(kept@) == without(s.take(i as int), d@),
        decreases v@.len() - i,
    {
        assert(s.take(i + 1).drop_last() =~= s.take(i as int));
        assert(s.take(i + 1).last() == v@[i as int]@);
        if !same_descendant(&v[i], d) {
            let ghost before = kept@;
            kept.push(v[i].clone());
            assert(descendants_view(kept@) =~= descendants_view(before).push(v@[i as int]@));
        }
        assert(descendants_view(kept@) =~= without(s.take(i + 1), d@));
        i = i + 1;
    }
    assert(s.take(i as int) =~= s);
    *v = kept;
}

// ---------------------------------------------------------------------------
// Per-tag changes
// ---------------------------------------------------------------------------

/// The deltas of tagging trigger `id` with each of `tag_ids` in turn (the
/// identifiers of missing tags are passed over).
pub open spec fn tagged_deltas(tag_ids: Seq<Seq<char>>, tags: Seq<TagView>, id: Seq<char>) -> Seq<DeltaView>
    decreases tag_ids.len(),
{
    if tag_ids.len() == 0 {
        Seq::empty()
    } else {
        tagged_deltas(tag_ids.drop_last(), tags, id) + if has_tag(tags, tag_ids.last()) {
            seq![DeltaView::TriggerTagged { trigger_id: id, trigger_tag_id: tag_ids.last() }]
        } else {
            Seq::<DeltaView>::empty()
        }
    }
}

/// Tag `t` after saving trigger `id` with the tags `newset`.
pub open spec fn save_tag(t: TagView, id: Seq<char>, newset: Set<Seq<char>>) -> TagView {
    if t.triggers.contains(id) {
        if newset.contains(t.id) {
            t
        } else {
            with_triggers(t, t.triggers.remove(id))
        }
    } else if newset.contains(t.id) {
        with_triggers(t, t.triggers.insert(id))
    } else {
        t
    }
}

pub open spec fn save_tag_delta(t: TagView, id: Seq<char>, newset: Set<Seq<char>>) -> Seq<DeltaView> {
    if t.triggers.contains(id) && !newset.contains(t.id) {
        seq![DeltaView::TriggerUntagged { trigger_id: id, trigger_tag_id: t.id }]
    } else if !t.triggers.contains(id) && newset.contains(t.id) {
        seq![DeltaView::TriggerTagged { trigger_id: id, trigger_tag_id: t.id }]
    } else {
        Seq::empty()
    }
}

pub open spec fn save_tag_deltas(tags: Seq<TagView>, id: Seq<char>, newset: Set<Seq<char>>) -> Seq<DeltaView>
    decreases tags.len(),
{
    if tags.len() == 0 {
        Seq::empty()
    } else {
        save_tag_deltas(tags.drop_last(), id, newset) + save_tag_delta(tags.last(), id, newset)
    }
}

/// Tag `t` after deleting trigger `id`.
pub open spec fn untag_deleted(t: TagView, id: Seq<char>) -> TagView {
    if t.triggers.contains(id) {
        with_triggers(t, t.triggers.remove(id))
    } else {
        t
    }
}

/// For each tag that had trigger `id`, the delta of its new triggers.
pub open spec fn untag_deleted_deltas(tags: Seq<TagView>, id: Seq<char>) -> Seq<DeltaView>
    decreases tags.len(),
{
    if tags.len() == 0 {
        Seq::empty()
    } else {
        untag_deleted_deltas(tags.drop_last(), id) + if tags.last().triggers.contains(id) {
            seq![DeltaView::TriggerTagTriggersChanged { trigger_tag_id: tags.last().id, triggers: tags.last().triggers.remove(id) }]
        } else {
            Seq::<DeltaView>::empty()
        }
    }
}

impl TriggerIndex {
    /// The position of the tag with identifier `id`.
    fn tag_position(&self, id: &UUID) -> (r: Option<usize>)
        ensures
            r matches Some(i) ==> i < self@.tags.len() && self@.tags[i as int].id == id@,
            r is None ==> !has_tag(self@.tags, id@),
    {
        let r = find_keyed(&self.trigger_tags, id.as_str());
        proof {
            match r {
                Some(i) => {
                    assert(self@.tags[i as int] == self.trigger_tags@[i as int]@);
                },
                None => {
                    if has_tag(self@.tags, id@) {
                        let i = choose|i: int| 0 <= i < self@.tags.len() && (#[trigger] self@.tags[i]).id == id@;
                        assert(self@.tags[i] == self.trigger_tags@[i]@);
                    }
                },
            }
        }
        r
    }

    /// Puts `tag` in place of the tag at position `i` (same identifier).
    fn set_tag(&mut self, i: usize, tag: TriggerTag)
        requires
            old(self).wf(),
            i < old(self)@.tags.len(),
            tag@.id == old(self)@.tags[i as int].id,
            tag.wf(),
        ensures
            final(self).wf(),
            final(self)@ == (IndexView { tags: old(self)@.tags.update(i as int, tag@), ..old(self)@ }),
    {
        let ghost before = self.trigger_tags@;
        assert(before[i as int]@ == self@.tags[i as int]);
        self.trigger_tags.set(i, tag);
        assert(keys_unique(self.trigger_tags@)) by {
            assert forall|a: int, b: int| 0 <= a < b < self.trigger_tags@.len() implies (#[trigger] self.trigger_tags@[a]).key() != (#[trigger] self.trigger_tags@[b]).key() by {
                assert(self.trigger_tags@[a].key() == before[a].key());
                assert(self.trigger_tags@[b].key() == before[b].key());
            }
        }
        assert(tags_view(self.trigger_tags@) =~= tags_view(before).update(i as int, tag@));
    }

    /// Removes the tag with identifier `id`, if there is one.
    pub fn delete_trigger_tag(&mut self, id: &UUID) -> (res: Result<Vec<DataDelta>, DataMutationError>)
        requires
            old(self).wf(),
        ensures
            final(self).wf(),
            result_view(res) == Ok::<Seq<DeltaView>, ErrorView>(seq![DeltaView::TriggerTagDeleted(id@)]),
            has_tag(old(self)@.tags, id@) ==> exists|i: int| 0 <= i < old(self)@.tags.len() && (#[trigger] old(self)@.tags[i]).id == id@ && final(self)@ == (IndexView { tags: old(self)@.tags.remove(i), ..old(self)@ }),
            !has_tag(old(self)@.tags, id@) ==> final(self)@ == old(self)@,
    {
        let ghost before = self.trigger_tags@;
        assert(before == old(self).trigger_tags@);
        let removed = remove_keyed(&mut self.trigger_tags, id.as_str());
        proof {
            lemma_keyed_lookup(before, id@);
            match removed {
                Some(_) => {
                    let i = choose|i: int| 0 <= i < before.len() && (#[trigger] before[i]).key() == id@ && self.trigger_tags@ == before.remove(i);
                    assert(tags_view(before)[i].id == id@);
                    assert(tags_view(self.trigger_tags@) =~= tags_view(before).remove(i));
                    assert(self@ == (IndexView { tags: old(self)@.tags.remove(i), ..old(self)@ }));
                    assert(old(self)@.tags[i].id == id@);
                    assert forall|k: int| 0 <= k < self.trigger_tags@.len() implies (#[trigger] self.trigger_tags@[k]).wf() by {
                        if k < i {
                            assert(self.trigger_tags@[k] == before[k]);
                        } else {
                            assert(self.trigger_tags@[k] == before[k + 1]);
                        }
                    }
                },
                None => {
                    if has_tag(tags_view(before), id@) {
                        let i = choose|i: int| 0 <= i < tags_view(before).len() && (#[trigger] tags_view(before)[i]).id == id@;
                        assert(before[i].key() == id@);
                    }
                },
            }
        }
        let v = vec![DataDelta::TriggerTagDeleted(id.clone())];
        assert(deltas_view(v@) =~= seq![DeltaView::TriggerTagDeleted(id@)]);
        Ok(v)
    }

    fn rename_trigger_tag(&mut self, id: UUID, name: String) -> (res: Result<Vec<DataDelta>, DataMutationError>)
        requires
            old(self).wf(),
        ensures
            final(self).wf(),
            has_tag(old(self)@.tags, id@) ==> exists|i: int| 0 <= i < old(self)@.tags.len() && (#[trigger] old(self)@.tags[i]).id == id@
                && final(self)@ == (IndexView { tags: old(self)@.tags.update(i, TagView { name: name@, ..old(self)@.tags[i] }), ..old(self)@ }),
            has_tag(old(self)@.tags, id@) ==> result_view(res) == Ok::<Seq<DeltaView>, ErrorView>(seq![DeltaView::TriggerTagRenamed(id@, name@)]),
            !has_tag(old(self)@.tags, id@) ==> final(self)@ == old(self)@ && result_view(res) == Err::<Seq<DeltaView>, ErrorView>(ErrorView::TriggerTagNotFound(id@)),
    {
        match self.tag_position(&id) {
            Some(i) => {
                let mut tag = self.trigger_tags[i].clone();
                tag.name = name.clone();
                self.set_tag(i, tag);
                let ghost nv = name@;
                let ghost iv = id@;
                let v = vec![DataDelta::TriggerTagRenamed(id, name)];
                assert(deltas_view(v@) =~= seq![DeltaView::TriggerTagRenamed(iv, nv)]);
                Ok(v)
            },
            None => Err(DataMutationError::TriggerTagNotFound(id)),
        }
    }

    /// Tags (`add`) or untags trigger `trigger_id` with tag `trigger_tag_id`.
    fn change_tagging(&mut self, trigger_id: UUID, trigger_tag_id: UUID, add: bool) -> (res: Result<Vec<DataDelta>, DataMutationError>)
        requires
            old(self).wf(),
        ensures
            final(self).wf(),
            !old(self)@.triggers.contains_key(trigger_id@) ==> final(self)@ == old(self)@
                && result_view(res) == Err::<Seq<DeltaView>, ErrorView>(ErrorView::TriggerNotFound(trigger_id@)),
            old(self)@.triggers.contains_key(trigger_id@) && !has_tag(old(self)@.tags, trigger_tag_id@) ==> final(self)@ == old(self)@
                && result_view(res) == Err::<Seq<DeltaView>, ErrorView>(ErrorView::TriggerTagNotFound(trigger_tag_id@)),
            old(self)@.triggers.contains_key(trigger_id@) && has_tag(old(self)@.tags, trigger_tag_id@) ==> exists|i: int|
                0 <= i < old(self)@.tags.len() && (#[trigger] old(self)@.tags[i]).id == trigger_tag_id@
                && final(self)@ == (IndexView {
                    tags: old(self)@.tags.update(i, with_triggers(old(self)@.tags[i], if add {
                        old(self)@.tags[i].triggers.insert(trigger_id@)
                    } else {
                        old(self)@.tags[i].triggers.remove(trigger_id@)
                    })),
                    ..old(self)@
                }),
            old(self)@.triggers.contains_key(trigger_id@) && has_tag(old(self)@.tags, trigger_tag_id@) ==> result_view(res) == Ok::<Seq<DeltaView>, ErrorView>(
                if add {
                    seq![DeltaView::TriggerTagged { trigger_id: trigger_id@, trigger_tag_id: trigger_tag_id@ }]
                } else {
                    seq![DeltaView::TriggerUntagged { trigger_id: trigger_id@, trigger_tag_id: trigger_tag_id@ }]
                }),
    {
        if !contains_keyed(&self.triggers, trigger_id.as_str()) {
            return Err(DataMutationError::TriggerNotFound(trigger_id));
        }
        match self.tag_position(&trigger_tag_id) {
            Some(i) => {
                let mut tag = self.trigger_tags[i].clone();
                assert(self.trigger_tags@[i as int].wf());
                if add {
                    tag.add_trigger(&trigger_id);
                } else {
                    tag.remove_trigger(&trigger_id);
                }
                self.set_tag(i, tag);
                let d = if add {
                    DataDelta::TriggerTagged { trigger_id, trigger_tag_id }
                } else {
                    DataDelta::TriggerUntagged { trigger_id, trigger_tag_id }
                };
                let v = vec![d];
                assert(deltas_view(v@) =~= seq![v@[0]@]);
                Ok(v)
            },
            None => Err(DataMutationError::TriggerTagNotFound(trigger_tag_id)),
        }
    }
}

} // verus!

verus! {

pub open spec fn opt_ids_view(o: Option<UUID>) -> Option<Seq<char>> {
    match o {
        Some(u) => Some(u@),
        None => None,
    }
}

fn same_opt_id(a: &Option<UUID>, b: &Option<UUID>) -> (res: bool)
    ensures
        res == (opt_ids_view(*a) == opt_ids_view(*b)),
{
    match (a, b) {
        (Some(x), Some(y)) => x.same(y),
        (None, None) => true,
        _ => false,
    }
}

fn ids_contain(v: &Vec<UUID>, id: &UUID) -> (res: bool)
    ensures
        res == ids_view(v@).contains(id@),
{
    match position_of(v, id) {
        Some(i) => {
            assert(ids_view(v@)[i as int] == id@);
            true
        },
        None => false,
    }
}

proof fn lemma_tag_ids_unique(v: Seq<TriggerTag>)
    requires
        keys_unique(v),
    ensures
        tag_ids_unique(tags_view(v)),
{
    assert forall|i: int, j: int| 0 <= i < j < tags_view(v).len() implies (#[trigger] tags_view(v)[i]).id != (#[trigger] tags_view(v)[j]).id by {
        assert(tags_view(v)[i].id == v[i].key());
        assert(tags_view(v)[j].id == v[j].key());
    }
}

impl TriggerIndex {
    /// Puts `g` in place of the group at position `i` (same identifier).
    fn set_group(&mut self, i: usize, g: TriggerGroup)
        requires
            old(self).wf(),
            i < old(self).groups@.len(),
            g.key() == old(self).groups@[i as int].key(),
        ensures
            final(self).wf(),
            final(self)@ == (IndexView { groups: old(self)@.groups.insert(g@.id, g@), ..old(self)@ }),
            final(self).trigger_tags == old(self).trigger_tags,
    {
        proof {
            crate::keyed::lemma_keyed_update(self.groups@, i as int, g);
        }
        let ghost gv = g@;
        self.groups.set(i, g);
        assert(self@.groups == old(self)@.groups.insert(gv.id, gv));
    }

    fn save_trigger_group(&mut self, trigger_group_id: UUID, name: String, comment: Option<String>) -> (res: Result<Vec<DataDelta>, DataMutationError>)
        requires
            old(self).wf(),
        ensures
            final(self).wf(),
            !old(self)@.groups.contains_key(trigger_group_id@) ==> final(self)@ == old(self)@
                && result_view(res) == Err::<Seq<DeltaView>, ErrorView>(ErrorView::TriggerGroupNotFound(trigger_group_id@)),
            old(self)@.groups.contains_key(trigger_group_id@) ==> {
                let g = GroupView { name: name@, comment: crate::triggers::opt_view(comment), ..old(self)@.groups[trigger_group_id@] };
                &&& final(self)@ == (IndexView { groups: old(self)@.groups.insert(trigger_group_id@, g), ..old(self)@ })
                &&& result_view(res) == Ok::<Seq<DeltaView>, ErrorView>(seq![DeltaView::TriggerGroupSaved(g)])
            },
    {
        proof {
            lemma_keyed_lookup(self.groups@, trigger_group_id@);
        }
        match find_keyed(&self.groups, trigger_group_id.as_str()) {
            Some(i) => {
                let mut g = self.groups[i].clone();
                g.name = name;
                g.comment = comment;
                let copy = g.clone();
                self.set_group(i, g);
                let v = vec![DataDelta::TriggerGroupSaved(copy)];
                assert(deltas_view(v@) =~= seq![v@[0]@]);
                Ok(v)
            },
            None => Err(DataMutationError::TriggerGroupNotFound(trigger_group_id)),
        }
    }

    /// Adds `group` and lists it in its parent (or at the top level) at
    /// `parent_position`, or at the end when the position is past the end.
    pub fn create_trigger_group(&mut self, group: TriggerGroup, parent_position: usize) -> (res: Result<Vec<DataDelta>, DataMutationError>)
        requires
            old(self).wf(),
        ensures
            final(self).wf(),
            ({
                let o = old(self)@;
                let g = group@;
                match g.parent_id {
                    Some(p) => if !o.groups.contains_key(p) {
                        final(self)@ == o && result_view(res) == Err::<Seq<DeltaView>, ErrorView>(ErrorView::TriggerGroupNotFound(p))
                    } else {
                        let parent = o.groups[p];
                        let idx = if parent_position < parent.children.len() { parent_position as int } else { parent.children.len() as int };
                        let children = parent.children.insert(idx, DescendantView::G(g.id));
                        &&& final(self)@ == (IndexView { groups: o.groups.insert(p, with_children(parent, children)).insert(g.id, g), ..o })
                        &&& result_view(res) == Ok::<Seq<DeltaView>, ErrorView>(seq![
                            DeltaView::TriggerGroupSaved(g),
                            DeltaView::TriggerGroupChildrenChanged { trigger_group_id: p, children },
                        ])
                    },
                    None => {
                        let idx = if parent_position < o.top_level.len() { parent_position as int } else { o.top_level.len() as int };
                        let top = o.top_level.insert(idx, DescendantView::G(g.id));
                        &&& final(self)@ == (IndexView { groups: o.groups.insert(g.id, g), top_level: top, ..o })
                        &&& result_view(res) == Ok::<Seq<DeltaView>, ErrorView>(seq![DeltaView::TriggerGroupSaved(g), DeltaView::TopLevelChanged(top)])
                    },
                }
            }),
    {
        let ghost gv = group@;
        let parent_delta = match &group.parent_id {
            Some(pid) => {
                proof {
                    lemma_keyed_lookup(self.groups@, pid@);
                }
                match find_keyed(&self.groups, pid.as_str()) {
                    None => {
                        return Err(DataMutationError::TriggerGroupNotFound(pid.clone()));
                    },
                    Some(i) => {
                        let mut parent = self.groups[i].clone();
                        let n = parent.children.len();
                        let idx = if parent_position < n { parent_position } else { n };
                        parent.children.insert(idx, TriggerGroupDescendant::G(group.id.clone()));
                        assert(descendants_view(parent.children@) =~= old(self)@.groups[pid@].children.insert(idx as int, DescendantView::G(gv.id)));
                        let children = clone_descendants(&parent.children);
                        self.set_group(i, parent);
                        DataDelta::TriggerGroupChildrenChanged { trigger_group_id: pid.clone(), children }
                    },
                }
            },
            None => {
                let n = self.top_level.len();
                let idx = if parent_position < n { parent_position } else { n };
                self.top_level.insert(idx, TriggerGroupDescendant::G(group.id.clone()));
                assert(descendants_view(self.top_level@) =~= old(self)@.top_level.insert(idx as int, DescendantView::G(gv.id)));
                DataDelta::TopLevelChanged(clone_descendants(&self.top_level))
            },
        };
        let copy = group.clone();
        upsert(&mut self.groups, group);
        let v = vec![DataDelta::TriggerGroupSaved(copy), parent_delta];
        assert(deltas_view(v@) =~= seq![v@[0]@, v@[1]@]);
        Ok(v)
    }
}

} // verus!

verus! {

/// Where a new trigger is listed must exist: `parent_position` fits the
/// parent's children (or the top level when there is no parent).
pub open spec fn position_fits(o: IndexView, parent: Option<Seq<char>>, parent_position: int) -> bool {
    match parent {
        None => parent_position <= o.top_level.len(),
        Some(p) => o.groups.contains_key(p) ==> parent_position <= o.groups[p].children.len(),
    }
}

pub open spec fn tag_for_new(tg: TagView, tag_ids: Seq<Seq<char>>, id: Seq<char>) -> TagView {
    if tag_ids.contains(tg.id) {
        with_triggers(tg, tg.triggers.insert(id))
    } else {
        tg
    }
}

/// What creating trigger `tv` (listed at `parent_position`, tagged with
/// `tag_ids`) does: state `o` becomes `n`, answered by `res`. The trigger is
/// stored with a new update time.
pub open spec fn create_trigger_outcome(o: IndexView, tv: TriggerView, tag_ids: Seq<Seq<char>>, parent_position: int, n: IndexView, res: Result<Seq<DeltaView>, ErrorView>) -> bool {
    let id = tv.id;
    let t = updated_at(tv, n.triggers[id].updated_at);
    let parent_delta = match tv.parent_id {
        Some(p) => if o.groups.contains_key(p) {
            DeltaView::TriggerGroupChildrenChanged { trigger_group_id: p, children: n.groups[p].children }
        } else {
            DeltaView::TopLevelChanged(n.top_level)
        },
        None => DeltaView::TopLevelChanged(n.top_level),
    };
    &&& n.triggers == o.triggers.insert(id, t)
    &&& match tv.parent_id {
        Some(p) => if o.groups.contains_key(p) {
            &&& n.groups == o.groups.insert(p, with_children(o.groups[p], o.groups[p].children.insert(parent_position, DescendantView::T(id))))
            &&& n.top_level == o.top_level
        } else {
            &&& n.groups == o.groups
            &&& n.top_level == o.top_level.push(DescendantView::T(id))
        },
        None => {
            &&& n.groups == o.groups
            &&& n.top_level == o.top_level.insert(parent_position, DescendantView::T(id))
        },
    }
    &&& n.tags == o.tags.map_values(|tg: TagView| tag_for_new(tg, tag_ids, id))
    &&& res == Ok::<Seq<DeltaView>, ErrorView>(seq![DeltaView::TriggerSaved(t), parent_delta] + tagged_deltas(tag_ids, o.tags, id))
}

impl TriggerIndex {
    /// The parent's bookkeeping when trigger `id` is created.
    fn list_new_trigger(&mut self, id: &UUID, parent_id: &Option<UUID>, parent_position: usize) -> (delta: DataDelta)
        requires
            old(self).wf(),
            position_fits(old(self)@, opt_ids_view(*parent_id), parent_position as int),
        ensures
            final(self).wf(),
            final(self)@.triggers == old(self)@.triggers,
            final(self)@.tags == old(self)@.tags,
            final(self).trigger_tags == old(self).trigger_tags,
            match opt_ids_view(*parent_id) {
                Some(p) => if old(self)@.groups.contains_key(p) {
                    &&& final(self)@.groups == old(self)@.groups.insert(p, with_children(old(self)@.groups[p], old(self)@.groups[p].children.insert(parent_position as int, DescendantView::T(id@))))
                    &&& final(self)@.top_level == old(self)@.top_level
                    &&& delta@ == DeltaView::TriggerGroupChildrenChanged { trigger_group_id: p, children: final(self)@.groups[p].children }
                } else {
                    &&& final(self)@.groups == old(self)@.groups
                    &&& final(self)@.top_level == old(self)@.top_level.push(DescendantView::T(id@))
                    &&& delta@ == DeltaView::TopLevelChanged(final(self)@.top_level)
                },
                None => {
                    &&& final(self)@.groups == old(self)@.groups
                    &&& final(self)@.top_level == old(self)@.top_level.insert(parent_position as int, DescendantView::T(id@))
                    &&& delta@ == DeltaView::TopLevelChanged(final(self)@.top_level)
                },
            },
    {
        match parent_id {
            Some(pid) => {
                proof {
                    lemma_keyed_lookup(self.groups@, pid@);
                }
                match find_keyed(&self.groups, pid.as_str()) {
                    Some(i) => {
                        let mut parent = self.groups[i].clone();
                        assert(parent@ == old(self)@.groups[pid@]);
                        parent.children.insert(parent_position, TriggerGroupDescendant::T(id.clone()));
                        assert(descendants_view(parent.children@) =~= old(self)@.groups[pid@].children.insert(parent_position as int, DescendantView::T(id@)));
                        let children = clone_descendants(&parent.children);
                        self.set_group(i, parent);
                        DataDelta::TriggerGroupChildrenChanged { trigger_group_id: pid.clone(), children }
                    },
                    None => {
                        self.top_level.push(TriggerGroupDescendant::T(id.clone()));
                        assert(descendants_view(self.top_level@) =~= old(self)@.top_level.push(DescendantView::T(id@)));
                        DataDelta::TopLevelChanged(clone_descendants(&self.top_level))
                    },
                }
            },
            None => {
                self.top_level.insert(parent_position, TriggerGroupDescendant::T(id.clone()));
                assert(descendants_view(self.top_level@) =~= old(self)@.top_level.insert(parent_position as int, DescendantView::T(id@)));
                DataDelta::TopLevelChanged(clone_descendants(&self.top_level))
            },
        }
    }

    /// Tags trigger `id` with each of `tag_ids` that exists, in order.
    fn tag_new_trigger(&mut self, id: &UUID, tag_ids: &Vec<UUID>, deltas: &mut Vec<DataDelta>)
        requires
            old(self).wf(),
        ensures
            final(self).wf(),
            final(self)@ == (IndexView { tags: old(self)@.tags.map_values(|tg: TagView| tag_for_new(tg, ids_view(tag_ids@), id@)), ..old(self)@ }),
            deltas_view(final(deltas)@) == deltas_view(old(deltas)@) + tagged_deltas(ids_view(tag_ids@), old(self)@.tags, id@),
    {
        let ghost o = self@;
        let ghost ks = ids_view(tag_ids@);
        proof {
            lemma_tag_ids_unique(self.trigger_tags@);
        }
        let mut j: usize = 0;
        while j < tag_ids.len()
            invariant
                self.wf(),
                o == old(self)@,
                ks == ids_view(tag_ids@),
                j <= tag_ids@.len(),
                tag_ids_unique(o.tags),
                self@.triggers == o.triggers,
                self@.groups == o.groups,
                self@.top_level == o.top_level,
                self@.tags.len() == o.tags.len(),
                forall|p: int| 0 <= p < o.tags.len() ==> (#[trigger] self@.tags[p]) == tag_for_new(o.tags[p], ks.take(j as int), id@),
                deltas_view(deltas@) == deltas_view(old(deltas)@) + tagged_deltas(ks.take(j as int), o.tags, id@),
            decreases tag_ids@.len() - j,
        {
            let k = &tag_ids[j];
            assert(ks[j as int] == k@);
            assert(ks.take(j + 1).drop_last() =~= ks.take(j as int));
            assert(ks.take(j + 1).last() == k@);
            assert forall|p: int| 0 <= p < o.tags.len() && o.tags[p].id != k@ implies (ks.take(j + 1).contains(o.tags[p].id) == ks.take(j as int).contains(o.tags[p].id)) by {
                if ks.take(j + 1).contains(o.tags[p].id) {
                    let q = choose|q: int| 0 <= q < j + 1 && #[trigger] ks.take(j + 1)[q] == o.tags[p].id;
                    assert(ks.take(j as int)[q] == o.tags[p].id);
                }
                if ks.take(j as int).contains(o.tags[p].id) {
                    let q = choose|q: int| 0 <= q < j && #[trigger] ks.take(j as int)[q] == o.tags[p].id;
                    assert(ks.take(j + 1)[q] == o.tags[p].id);
                }
            }
            assert(ks.take(j + 1).contains(k@)) by {
                assert(ks.take(j + 1)[j as int] == k@);
            }
            let ghost had = has_tag(o.tags, k@);
            let ghost before_d = deltas@;
            assert(tagged_deltas(ks.take(j + 1), o.tags, id@) == tagged_deltas(ks.take(j as int), o.tags, id@) + if had {
                seq![DeltaView::TriggerTagged { trigger_id: id@, trigger_tag_id: k@ }]
            } else {
                Seq::<DeltaView>::empty()
            });
            match self.tag_position(k) {
                Some(i) => {
                    assert(self@.tags[i as int] == tag_for_new(o.tags[i as int], ks.take(j as int), id@));
                    assert(o.tags[i as int].id == k@);
                    assert(had);
                    let mut tag = self.trigger_tags[i].clone();
                    assert(self.trigger_tags@[i as int].wf());
                    tag.add_trigger(id);
                    self.set_tag(i, tag);
                    assert(self@.tags[i as int].triggers =~= o.tags[i as int].triggers.insert(id@));
                    assert forall|p: int| 0 <= p < o.tags.len() implies (#[trigger] self@.tags[p]) == tag_for_new(o.tags[p], ks.take(j + 1), id@) by {
                        if p != i {
                            assert(o.tags[p].id != o.tags[i as int].id);
                        }
                    }
                    deltas.push(DataDelta::TriggerTagged { trigger_id: id.clone(), trigger_tag_id: k.clone() });
                    assert(deltas_view(deltas@) =~= deltas_view(before_d).push(DeltaView::TriggerTagged { trigger_id: id@, trigger_tag_id: k@ }));
                },
                None => {
                    assert(!had) by {
                        if had {
                            let p = choose|p: int| 0 <= p < o.tags.len() && (#[trigger] o.tags[p]).id == k@;
                            assert(self@.tags[p].id == k@);
                        }
                    }
                    assert forall|p: int| 0 <= p < o.tags.len() implies (#[trigger] self@.tags[p]) == tag_for_new(o.tags[p], ks.take(j + 1), id@) by {
                        assert(o.tags[p].id != k@);
                    }
                },
            }
            assert(deltas_view(deltas@) =~= deltas_view(old(deltas)@) + tagged_deltas(ks.take(j + 1), o.tags, id@));
            j = j + 1;
        }
        assert(ks.take(j as int) =~= ks);
        assert(self@.tags =~= o.tags.map_values(|tg: TagView| tag_for_new(tg, ks, id@)));
    }

    fn create_trigger(&mut self, trigger: Trigger, trigger_tag_ids: Vec<UUID>, parent_position: usize) -> (res: Result<Vec<DataDelta>, DataMutationError>)
        requires
            old(self).wf(),
            position_fits(old(self)@, trigger@.parent_id, parent_position as int),
        ensures
            final(self).wf(),
            create_trigger_outcome(old(self)@, trigger@, ids_view(trigger_tag_ids@), parent_position as int, final(self)@, result_view(res)),
    {
        let mut trigger = trigger;
        let ghost tv = trigger@;
        trigger.updated_now();
        let id = trigger.id.clone();
        let parent_id = match &trigger.parent_id {
            Some(p) => Some(p.clone()),
            None => None,
        };
        let copy = trigger.clone();
        let ghost t = trigger@;
        upsert(&mut self.triggers, trigger);
        let ghost after_insert = self@;
        let parent_delta = self.list_new_trigger(&id, &parent_id, parent_position);
        let mut deltas: Vec<DataDelta> = vec![DataDelta::TriggerSaved(copy), parent_delta];
        let ghost prefix = deltas_view(deltas@);
        assert(prefix =~= seq![deltas@[0]@, deltas@[1]@]);
        self.tag_new_trigger(&id, &trigger_tag_ids, &mut deltas);
        assert(self@.triggers[id@] == t);
        assert(t == updated_at(tv, t.updated_at));
        Ok(deltas)
    }
}

} // verus!

verus! {

/// Where a saved trigger `id` stops being listed when its parent changed
/// from `prev` to `next`: the groups, the top level and the deltas that say so.
/// (It is not listed under its new parent.)
pub open spec fn unlisted_after_save(o: IndexView, id: Seq<char>, prev: Option<Seq<char>>, next: Option<Seq<char>>) -> (Map<Seq<char>, GroupView>, Seq<DescendantView>, Seq<DeltaView>) {
    if prev == next {
        (o.groups, o.top_level, Seq::empty())
    } else {
        match prev {
            Some(pp) => if o.groups.contains_key(pp) {
                let ch = without(o.groups[pp].children, DescendantView::T(id));
                (o.groups.insert(pp, with_children(o.groups[pp], ch)), o.top_level, seq![DeltaView::TriggerGroupChildrenChanged { trigger_group_id: pp, children: ch }])
            } else {
                (o.groups, o.top_level, Seq::empty())
            },
            None => {
                let top = without(o.top_level, DescendantView::T(id));
                (o.groups, top, seq![DeltaView::TopLevelChanged(top)])
            },
        }
    }
}

/// What saving trigger `tv` with tags `tag_ids` does: state `o` becomes `n`,
/// answered by `res`. The trigger is stored with a new update time.
pub open spec fn save_trigger_outcome(o: IndexView, tv: TriggerView, tag_ids: Seq<Seq<char>>, n: IndexView, res: Result<Seq<DeltaView>, ErrorView>) -> bool {
    if !o.triggers.contains_key(tv.id) {
        n == o && res == Err::<Seq<DeltaView>, ErrorView>(ErrorView::TriggerNotFound(tv.id))
    } else {
        let id = tv.id;
        let t = updated_at(tv, n.triggers[id].updated_at);
        let newset = tag_ids.to_set();
        let (groups, top, pdeltas) = unlisted_after_save(o, id, o.triggers[id].parent_id, tv.parent_id);
        &&& n.triggers == o.triggers.insert(id, t)
        &&& n.groups == groups
        &&& n.top_level == top
        &&& n.tags == o.tags.map_values(|tg: TagView| save_tag(tg, id, newset))
        &&& res == Ok::<Seq<DeltaView>, ErrorView>(seq![DeltaView::TriggerSaved(t)] + pdeltas + save_tag_deltas(o.tags, id, newset))
    }
}

proof fn lemma_keyed_value_id<T: Keyed>(s: Seq<T>, k: Seq<char>, i: int)
    requires
        keys_unique(s),
        0 <= i < s.len(),
        s[i].key() == k,
    ensures
        keyed_map(s).contains_key(k),
        keyed_map(s)[k] == s[i]@,
{
    lemma_keyed_lookup(s, k);
}

impl TriggerIndex {
    fn unlist_saved_trigger(&mut self, id: &UUID, prev: &Option<UUID>, next: &Option<UUID>, deltas: &mut Vec<DataDelta>)
        requires
            old(self).wf(),
        ensures
            final(self).wf(),
            ({
                let (groups, top, pdeltas) = unlisted_after_save(old(self)@, id@, opt_ids_view(*prev), opt_ids_view(*next));
                &&& final(self)@ == (IndexView { groups, top_level: top, ..old(self)@ })
                &&& deltas_view(final(deltas)@) == deltas_view(old(deltas)@) + pdeltas
            }),
            final(self).trigger_tags == old(self).trigger_tags,
    {
        let ghost before_d = deltas@;
        if same_opt_id(prev, next) {
            assert(deltas_view(deltas@) =~= deltas_view(before_d) + Seq::<DeltaView>::empty());
            return;
        }
        let me = TriggerGroupDescendant::T(id.clone());
        match prev {
            Some(pp) => {
                proof {
                    lemma_keyed_lookup(self.groups@, pp@);
                }
                match find_keyed(&self.groups, pp.as_str()) {
                    Some(i) => {
                        let mut g = self.groups[i].clone();
                        proof {
                            lemma_keyed_value_id(self.groups@, pp@, i as int);
                        }
                        retain_other_exec(&mut g.children, &me);
                        let children = clone_descendants(&g.children);
                        let gid = g.id.clone();
                        self.set_group(i, g);
                        deltas.push(DataDelta::TriggerGroupChildrenChanged { trigger_group_id: gid, children });
                        assert(deltas_view(deltas@) =~= deltas_view(before_d) + seq![deltas@.last()@]);
                    },
                    None => {
                        assert(deltas_view(deltas@) =~= deltas_view(before_d) + Seq::<DeltaView>::empty());
                    },
                }
            },
            None => {
                retain_other_exec(&mut self.top_level, &me);
                deltas.push(DataDelta::TopLevelChanged(clone_descendants(&self.top_level)));
                assert(deltas_view(deltas@) =~= deltas_view(before_d) + seq![deltas@.last()@]);
            },
        }
    }

    fn retag_saved_trigger(&mut self, id: &UUID, tag_ids: &Vec<UUID>, deltas: &mut Vec<DataDelta>)
        requires
            old(self).wf(),
        ensures
            final(self).wf(),
            final(self)@ == (IndexView { tags: old(self)@.tags.map_values(|tg: TagView| save_tag(tg, id@, ids_view(tag_ids@).to_set())), ..old(self)@ }),
            deltas_view(final(deltas)@) == deltas_view(old(deltas)@) + save_tag_deltas(old(self)@.tags, id@, ids_view(tag_ids@).to_set()),
    {
        let ghost o = self@;
        let ghost newset = ids_view(tag_ids@).to_set();
        let mut i: usize = 0;
        while i < self.trigger_tags.len()
            invariant
                self.wf(),
                o == old(self)@,
                newset == ids_view(tag_ids@).to_set(),
                i <= self@.tags.len(),
                self@.tags.len() == o.tags.len(),
                self@.triggers == o.triggers,
                self@.groups == o.groups,
                self@.top_level == o.top_level,
                forall|p: int| 0 <= p < i ==> (#[trigger] self@.tags[p]) == save_tag(o.tags[p], id@, newset),
                forall|p: int| i <= p < o.tags.len() ==> (#[trigger] self@.tags[p]) == o.tags[p],
                deltas_view(deltas@) == deltas_view(old(deltas)@) + save_tag_deltas(o.tags.take(i as int), id@, newset),
            decreases o.tags.len() - i,
        {
            let ghost before_d = deltas@;
            let ghost tg = o.tags[i as int];
            assert(self@.tags[i as int] == self.trigger_tags@[i as int]@);
            assert(o.tags.take(i + 1).drop_last() =~= o.tags.take(i as int));
            assert(o.tags.take(i + 1).last() == tg);
            let tagged = self.trigger_tags[i].tags_trigger(id);
            let want = ids_contain(tag_ids, &self.trigger_tags[i].id);
            assert(want == newset.contains(tg.id));
            if tagged && !want {
                let mut tag = self.trigger_tags[i].clone();
                assert(self.trigger_tags@[i as int].wf());
                tag.remove_trigger(id);
                let tag_id = tag.id.clone();
                self.set_tag(i, tag);
                deltas.push(DataDelta::TriggerUntagged { trigger_id: id.clone(), trigger_tag_id: tag_id });
                assert(deltas_view(deltas@) =~= deltas_view(before_d) + save_tag_delta(tg, id@, newset));
            } else if !tagged && want {
                let mut tag = self.trigger_tags[i].clone();
                assert(self.trigger_tags@[i as int].wf());
                tag.add_trigger(id);
                let tag_id = tag.id.clone();
                self.set_tag(i, tag);
                deltas.push(DataDelta::TriggerTagged { trigger_id: id.clone(), trigger_tag_id: tag_id });
                assert(deltas_view(deltas@) =~= deltas_view(before_d) + save_tag_delta(tg, id@, newset));
            } else {
                assert(deltas_view(deltas@) =~= deltas_view(before_d) + save_tag_delta(tg, id@, newset));
            }
            assert(self@.tags[i as int] == save_tag(tg, id@, newset));
            i = i + 1;
        }
        assert(o.tags.take(i as int) =~= o.tags);
        assert(self@.tags =~= o.tags.map_values(|tg: TagView| save_tag(tg, id@, newset)));
    }

    fn save_trigger(&mut self, trigger: Trigger, trigger_tag_ids: Vec<UUID>) -> (res: Result<Vec<DataDelta>, DataMutationError>)
        requires
            old(self).wf(),
        ensures
            final(self).wf(),
            save_trigger_outcome(old(self)@, trigger@, ids_view(trigger_tag_ids@), final(self)@, result_view(res)),
    {
        if !contains_keyed(&self.triggers, trigger.id.as_str()) {
            return Err(DataMutationError::TriggerNotFound(trigger.id));
        }
        let mut trigger = trigger;
        let ghost tv = trigger@;
        trigger.updated_now();
        let id = trigger.id.clone();
        let next = match &trigger.parent_id {
            Some(p) => Some(p.clone()),
            None => None,
        };
        let copy = trigger.clone();
        let ghost t = trigger@;
        let replaced = upsert(&mut self.triggers, trigger);
        let prev = match replaced {
            Some(r) => r.parent_id,
            None => None,
        };
        let mut deltas: Vec<DataDelta> = vec![DataDelta::TriggerSaved(copy)];
        assert(deltas_view(deltas@) =~= seq![DeltaView::TriggerSaved(t)]);
        self.unlist_saved_trigger(&id, &prev, &next, &mut deltas);
        self.retag_saved_trigger(&id, &trigger_tag_ids, &mut deltas);
        assert(self@.triggers[id@] == t);
        assert(t == updated_at(tv, t.updated_at));
        Ok(deltas)
    }
}

} // verus!

verus! {

/// Where a deleted trigger `id` with parent `parent` stops being listed:
/// among the children of its group, or at the top level when it has no
/// parent or its group is gone.
pub open spec fn unlisted_after_delete(o: IndexView, id: Seq<char>, parent: Option<Seq<char>>) -> (Map<Seq<char>, GroupView>, Seq<DescendantView>, Seq<DeltaView>) {
    match parent {
        Some(p) if o.groups.contains_key(p) => {
            let ch = remove_first(o.groups[p].children, DescendantView::T(id));
            (o.groups.insert(p, with_children(o.groups[p], ch)), o.top_level, seq![DeltaView::TriggerGroupChildrenChanged { trigger_group_id: p, children: ch }])
        },
        _ => {
            let top = remove_first(o.top_level, DescendantView::T(id));
            (o.groups, top, seq![DeltaView::TopLevelChanged(top)])
        },
    }
}

/// What deleting trigger `id` does: state `o` becomes `n`, answered by `res`.
pub open spec fn delete_trigger_outcome(o: IndexView, id: Seq<char>, n: IndexView, res: Result<Seq<DeltaView>, ErrorView>) -> bool {
    if !o.triggers.contains_key(id) {
        n == o && res == Err::<Seq<DeltaView>, ErrorView>(ErrorView::TriggerNotFound(id))
    } else {
        let (groups, top, pdeltas) = unlisted_after_delete(o, id, o.triggers[id].parent_id);
        &&& n.triggers == o.triggers.remove(id)
        &&& n.groups == groups
        &&& n.top_level == top
        &&& n.tags == o.tags.map_values(|tg: TagView| untag_deleted(tg, id))
        &&& res == Ok::<Seq<DeltaView>, ErrorView>(seq![DeltaView::TriggerDeleted(id)] + pdeltas + untag_deleted_deltas(o.tags, id))
    }
}

impl TriggerIndex {
    fn unlist_deleted_trigger(&mut self, id: &UUID, parent: &Option<UUID>, deltas: &mut Vec<DataDelta>)
        requires
            old(self).wf(),
        ensures
            final(self).wf(),
            ({
                let (groups, top, pdeltas) = unlisted_after_delete(old(self)@, id@, opt_ids_view(*parent));
                &&& final(self)@ == (IndexView { groups, top_level: top, ..old(self)@ })
                &&& deltas_view(final(deltas)@) == deltas_view(old(deltas)@) + pdeltas
            }),
            final(self).trigger_tags == old(self).trigger_tags,
    {
        let ghost before_d = deltas@;
        let me = TriggerGroupDescendant::T(id.clone());
        match parent {
            Some(p) => {
                proof {
                    lemma_keyed_lookup(self.groups@, p@);
                }
                match find_keyed(&self.groups, p.as_str()) {
                    Some(i) => {
                        let mut g = self.groups[i].clone();
                        proof {
                            lemma_keyed_value_id(self.groups@, p@, i as int);
                        }
                        remove_first_exec(&mut g.children, &me);
                        let children = clone_descendants(&g.children);
                        let gid = g.id.clone();
                        self.set_group(i, g);
                        deltas.push(DataDelta::TriggerGroupChildrenChanged { trigger_group_id: gid, children });
                        assert(deltas_view(deltas@) =~= deltas_view(before_d) + seq![deltas@.last()@]);
                    },
                    None => {
                        remove_first_exec(&mut self.top_level, &me);
                        deltas.push(DataDelta::TopLevelChanged(clone_descendants(&self.top_level)));
                        assert(deltas_view(deltas@) =~= deltas_view(before_d) + seq![deltas@.last()@]);
                    },
                }
            },
            None => {
                remove_first_exec(&mut self.top_level, &me);
                deltas.push(DataDelta::TopLevelChanged(clone_descendants(&self.top_level)));
                assert(deltas_view(deltas@) =~= deltas_view(before_d) + seq![deltas@.last()@]);
            },
        }
    }

    fn untag_deleted_trigger(&mut self, id: &UUID, deltas: &mut Vec<DataDelta>)
        requires
            old(self).wf(),
        ensures
            final(self).wf(),
            final(self)@ == (IndexView { tags: old(self)@.tags.map_values(|tg: TagView| untag_deleted(tg, id@)), ..old(self)@ }),
            deltas_view(final(deltas)@) == deltas_view(old(deltas)@) + untag_deleted_deltas(old(self)@.tags, id@),
    {
        let ghost o = self@;
        let mut i: usize = 0;
        while i < self.trigger_tags.len()
            invariant
                self.wf(),
                o == old(self)@,
                i <= self@.tags.len(),
                self@.tags.len() == o.tags.len(),
                self@.triggers == o.triggers,
                self@.groups == o.groups,
                self@.top_level == o.top_level,
                forall|p: int| 0 <= p < i ==> (#[trigger] self@.tags[p]) == untag_deleted(o.tags[p], id@),
                forall|p: int| i <= p < o.tags.len() ==> (#[trigger] self@.tags[p]) == o.tags[p],
                deltas_view(deltas@) == deltas_view(old(deltas)@) + untag_deleted_deltas(o.tags.take(i as int), id@),
            decreases o.tags.len() - i,
        {
            let ghost before_d = deltas@;
            let ghost tg = o.tags[i as int];
            assert(self@.tags[i as int] == self.trigger_tags@[i as int]@);
            assert(o.tags.take(i + 1).drop_last() =~= o.tags.take(i as int));
            assert(o.tags.take(i + 1).last() == tg);
            if self.trigger_tags[i].tags_trigger(id) {
                let mut tag = self.trigger_tags[i].clone();
                assert(self.trigger_tags@[i as int].wf());
                tag.remove_trigger(id);
                let triggers = tag.trigger_ids();
                let tag_id = tag.id.clone();
                self.set_tag(i, tag);
                deltas.push(DataDelta::TriggerTagTriggersChanged { trigger_tag_id: tag_id, triggers });
                assert(deltas_view(deltas@) =~= deltas_view(before_d) + seq![
                    DeltaView::TriggerTagTriggersChanged { trigger_tag_id: tg.id, triggers: tg.triggers.remove(id@) },
                ]);
            } else {
                assert(deltas_view(deltas@) =~= deltas_view(before_d) + Seq::<DeltaView>::empty());
            }
            assert(self@.tags[i as int] == untag_deleted(tg, id@));
            i = i + 1;
        }
        assert(o.tags.take(i as int) =~= o.tags);
        assert(self@.tags =~= o.tags.map_values(|tg: TagView| untag_deleted(tg, id@)));
    }

    fn delete_trigger(&mut self, trigger_id: UUID) -> (res: Result<Vec<DataDelta>, DataMutationError>)
        requires
            old(self).wf(),
        ensures
            final(self).wf(),
            delete_trigger_outcome(old(self)@, trigger_id@, final(self)@, result_view(res)),
    {
        let removed = remove_keyed(&mut self.triggers, trigger_id.as_str());
        let trigger = match removed {
            Some(t) => t,
            None => {
                return Err(DataMutationError::TriggerNotFound(trigger_id));
            },
        };
        let mut deltas: Vec<DataDelta> = vec![DataDelta::TriggerDeleted(trigger_id.clone())];
        assert(deltas_view(deltas@) =~= seq![DeltaView::TriggerDeleted(trigger_id@)]);
        self.unlist_deleted_trigger(&trigger_id, &trigger.parent_id, &mut deltas);
        self.untag_deleted_trigger(&trigger_id, &mut deltas);
        Ok(deltas)
    }
}

} // verus!

verus! {

/// What deleting the descendants in `queue` (breadth first) leaves: the
/// remaining triggers and groups, and the identifiers of the deleted triggers
/// and groups in the order they were deleted.
pub struct Cascade {
    pub triggers: Map<Seq<char>, TriggerView>,
    pub groups: Map<Seq<char>, GroupView>,
    pub deleted_triggers: Seq<Seq<char>>,
    pub deleted_groups: Seq<Seq<char>>,
}

/// Deletes the descendants in `queue` in turn: a group that exists is
/// deleted and its children join the end of the queue; a trigger that exists
/// is deleted; a missing one is passed over.
pub open spec fn cascade(tr: Map<Seq<char>, TriggerView>, gr: Map<Seq<char>, GroupView>, queue: Seq<DescendantView>) -> Cascade
    decreases gr.dom().len(), queue.len(),
    when gr.dom().finite()
{
    if queue.len() == 0 {
        Cascade { triggers: tr, groups: gr, deleted_triggers: Seq::empty(), deleted_groups: Seq::empty() }
    } else {
        let rest = queue.skip(1);
        match queue[0] {
            DescendantView::G(g) => if gr.contains_key(g) {
                proof {
                    assert(gr.remove(g).dom() =~= gr.dom().remove(g));
                }
                let c = cascade(tr, gr.remove(g), rest + gr[g].children);
                Cascade { deleted_groups: seq![g] + c.deleted_groups, ..c }
            } else {
                cascade(tr, gr, rest)
            },
            DescendantView::T(t) => if tr.contains_key(t) {
                let c = cascade(tr.remove(t), gr, rest);
                Cascade { deleted_triggers: seq![t] + c.deleted_triggers, ..c }
            } else {
                cascade(tr, gr, rest)
            },
        }
    }
}

/// Where deleted group `gid` with parent `parent` stops being listed, once
/// it is gone from `groups`.
pub open spec fn unlisted_group(groups: Map<Seq<char>, GroupView>, top: Seq<DescendantView>, gid: Seq<char>, parent: Option<Seq<char>>) -> (Map<Seq<char>, GroupView>, Seq<DescendantView>, Seq<DeltaView>) {
    match parent {
        Some(p) => if groups.contains_key(p) {
            let ch = remove_first(groups[p].children, DescendantView::G(gid));
            (groups.insert(p, with_children(groups[p], ch)), top, seq![DeltaView::TriggerGroupChildrenChanged { trigger_group_id: p, children: ch }])
        } else {
            (groups, top, Seq::empty())
        },
        None => {
            let t = remove_first(top, DescendantView::G(gid));
            (groups, t, seq![DeltaView::TopLevelChanged(t)])
        },
    }
}

/// Whether tag `t` tags one of `removed`.
pub open spec fn tags_any(t: TagView, removed: Set<Seq<char>>) -> bool {
    exists|x: Seq<char>| t.triggers.contains(x) && removed.contains(x)
}

pub open spec fn after_group_delete(t: TagView, removed: Set<Seq<char>>) -> TagView {
    if tags_any(t, removed) {
        with_triggers(t, t.triggers.difference(removed))
    } else {
        t
    }
}

pub open spec fn group_delete_tag_deltas(tags: Seq<TagView>, removed: Set<Seq<char>>) -> Seq<DeltaView>
    decreases tags.len(),
{
    if tags.len() == 0 {
        Seq::empty()
    } else {
        group_delete_tag_deltas(tags.drop_last(), removed) + if tags_any(tags.last(), removed) {
            seq![DeltaView::TriggerTagTriggersChanged { trigger_tag_id: tags.last().id, triggers: tags.last().triggers.difference(removed) }]
        } else {
            Seq::<DeltaView>::empty()
        }
    }
}

/// What deleting group `gid` does: the group, and everything under it, is
/// deleted; state `o` becomes `n`, answered by `res`.
pub open spec fn delete_group_outcome(o: IndexView, gid: Seq<char>, n: IndexView, res: Result<Seq<DeltaView>, ErrorView>) -> bool {
    if !o.groups.contains_key(gid) {
        n == o && res == Err::<Seq<DeltaView>, ErrorView>(ErrorView::TriggerGroupNotFound(gid))
    } else {
        let g = o.groups[gid];
        let (groups, top, pdeltas) = unlisted_group(o.groups.remove(gid), o.top_level, gid, g.parent_id);
        let c = cascade(o.triggers, groups, g.children);
        let removed = c.deleted_triggers.to_set();
        &&& n.triggers == c.triggers
        &&& n.groups == c.groups
        &&& n.top_level == top
        &&& n.tags == o.tags.map_values(|tg: TagView| after_group_delete(tg, removed))
        &&& res == Ok::<Seq<DeltaView>, ErrorView>(
            seq![DeltaView::TriggerGroupDeleted(gid)] + pdeltas
                + c.deleted_triggers.map_values(|t: Seq<char>| DeltaView::TriggerDeleted(t))
                + c.deleted_groups.map_values(|g: Seq<char>| DeltaView::TriggerGroupDeleted(g))
                + group_delete_tag_deltas(o.tags, removed))
    }
}

impl TriggerTag {
    /// Removes the triggers in `removed`; tells whether it tagged any of them.
    fn drop_triggers(&mut self, removed: &Vec<UUID>) -> (changed: bool)
        requires
            old(self).wf(),
        ensures
            final(self).wf(),
            changed == tags_any(old(self)@, ids_view(removed@).to_set()),
            final(self)@ == (TagView { triggers: old(self)@.triggers.difference(ids_view(removed@).to_set()), ..old(self)@ }),
    {
        let ghost rs = ids_view(removed@).to_set();
        let ghost orig = ids_view(self.triggers@);
        let mut kept: Vec<UUID> = Vec::new();
        let mut changed = false;
        let mut i: usize = 0;
        while i < self.triggers.len()
            invariant
                orig == ids_view(self.triggers@),
                orig.no_duplicates(),
                rs == ids_view(removed@).to_set(),
                i <= orig.len(),
                ids_view(kept@).to_set() == orig.take(i as int).to_set().difference(rs),
                ids_view(kept@).no_duplicates(),
                forall|x: Seq<char>| ids_view(kept@).contains(x) ==> orig.take(i as int).contains(x),
                changed == exists|k: int| 0 <= k < i && rs.contains(#[trigger] orig[k]),
            decreases orig.len() - i,
        {
            assert(orig.take(i + 1) =~= orig.take(i as int).push(orig[i as int]));
            proof {
                orig.take(i as int).lemma_push_to_set_commute(orig[i as int]);
            }
            assert(ids_view(self.triggers@)[i as int] == self.triggers@[i as int]@);
            let ghost before = ids_view(kept@);
            assert(!orig.take(i as int).contains(orig[i as int])) by {
                if orig.take(i as int).contains(orig[i as int]) {
                    let k = choose|k: int| 0 <= k < i && orig.take(i as int)[k] == orig[i as int];
                    assert(orig[k] == orig[i as int]);
                }
            }
            if ids_contain(removed, &self.triggers[i]) {
                changed = true;
                assert(orig.take(i + 1).to_set().difference(rs) =~= orig.take(i as int).to_set().difference(rs));
            } else {
                kept.push(self.triggers[i].clone());
                assert(ids_view(kept@) =~= before.push(orig[i as int]));
                proof {
                    before.lemma_push_to_set_commute(orig[i as int]);
                }
                assert(orig.take(i + 1).to_set().difference(rs) =~= orig.take(i as int).to_set().difference(rs).insert(orig[i as int]));
                assert(!before.contains(orig[i as int]));
                assert(ids_view(kept@).no_duplicates()) by {
                    assert forall|a: int, b: int| 0 <= a < b < ids_view(kept@).len() implies ids_view(kept@)[a] != ids_view(kept@)[b] by {
                        if b == before.len() {
                            assert(before.contains(before[a]));
                        }
                    }
                }
            }
            assert forall|x: Seq<char>| ids_view(kept@).contains(x) implies orig.take(i + 1).contains(x) by {
                if before.contains(x) {
                    let k = choose|k: int| 0 <= k < i && orig.take(i as int)[k] == x;
                    assert(orig.take(i + 1)[k] == x);
                } else {
                    assert(orig.take(i + 1)[i as int] == x);
                }
            }
            i = i + 1;
        }
        assert(orig.take(i as int) =~= orig);
        proof {
            if changed {
                let k = choose|k: int| 0 <= k < orig.len() && rs.contains(#[trigger] orig[k]);
                assert(self@.triggers.contains(orig[k]));
            }
            if tags_any(self@, rs) {
                let x = choose|x: Seq<char>| self@.triggers.contains(x) && rs.contains(x);
                let k = choose|k: int| 0 <= k < orig.len() && orig[k] == x;
                assert(rs.contains(orig[k]));
            }
        }
        self.triggers = kept;
        changed
    }
}

} // verus!

verus! {

fn append_descendants(q: &mut Vec<TriggerGroupDescendant>, v: &Vec<TriggerGroupDescendant>)
    ensures
        descendants_view(final(q)@) == descendants_view(old(q)@) + descendants_view(v@),
{
    let ghost start = descendants_view(q@);
    assert(start == descendants_view(old(q)@));
    let mut k: usize = 0;
    while k < v.len()
        invariant
            start == descendants_view(old(q)@),
            k <= v@.len(),
            descendants_view(q@) == start + descendants_view(v@).take(k as int),
        decreases v@.len() - k,
    {
        let ghost before = descendants_view(q@);
        q.push(v[k].clone());
        assert(descendants_view(q@) =~= before.push(v@[k as int]@));
        assert(descendants_view(v@).take(k + 1) =~= descendants_view(v@).take(k as int).push(v@[k as int]@));
        k = k + 1;
    }
    assert(descendants_view(v@).take(k as int) =~= descendants_view(v@));
}

impl TriggerIndex {
    fn unlist_deleted_group(&mut self, gid: &UUID, parent: &Option<UUID>, deltas: &mut Vec<DataDelta>)
        requires
            old(self).wf(),
        ensures
            final(self).wf(),
            ({
                let (groups, top, pdeltas) = unlisted_group(old(self)@.groups, old(self)@.top_level, gid@, opt_ids_view(*parent));
                &&& final(self)@ == (IndexView { groups, top_level: top, ..old(self)@ })
                &&& deltas_view(final(deltas)@) == deltas_view(old(deltas)@) + pdeltas
            }),
            final(self).trigger_tags == old(self).trigger_tags,
    {
        let ghost before_d = deltas@;
        let me = TriggerGroupDescendant::G(gid.clone());
        match parent {
            Some(p) => {
                proof {
                    lemma_keyed_lookup(self.groups@, p@);
                }
                match find_keyed(&self.groups, p.as_str()) {
                    Some(i) => {
                        let mut g = self.groups[i].clone();
                        proof {
                            lemma_keyed_value_id(self.groups@, p@, i as int);
                        }
                        remove_first_exec(&mut g.children, &me);
                        let children = clone_descendants(&g.children);
                        let pid = g.id.clone();
                        self.set_group(i, g);
                        deltas.push(DataDelta::TriggerGroupChildrenChanged { trigger_group_id: pid, children });
                        assert(deltas_view(deltas@) =~= deltas_view(before_d) + seq![deltas@.last()@]);
                    },
                    None => {
                        assert(deltas_view(deltas@) =~= deltas_view(before_d) + Seq::<DeltaView>::empty());
                    },
                }
            },
            None => {
                remove_first_exec(&mut self.top_level, &me);
                deltas.push(DataDelta::TopLevelChanged(clone_descendants(&self.top_level)));
                assert(deltas_view(deltas@) =~= deltas_view(before_d) + seq![deltas@.last()@]);
            },
        }
    }

    /// Deletes the descendants in `queue`, breadth first (see `cascade`);
    /// answers the identifiers of the deleted triggers and groups.
    fn delete_descendants(&mut self, queue: Vec<TriggerGroupDescendant>) -> (res: (Vec<UUID>, Vec<UUID>))
        requires
            old(self).wf(),
        ensures
            final(self).wf(),
            ({
                let c = cascade(old(self)@.triggers, old(self)@.groups, descendants_view(queue@));
                &&& final(self)@ == (IndexView { triggers: c.triggers, groups: c.groups, ..old(self)@ })
                &&& ids_view(res.0@) == c.deleted_triggers
                &&& ids_view(res.1@) == c.deleted_groups
            }),
            final(self).trigger_tags == old(self).trigger_tags,
    {
        let ghost c0 = cascade(self@.triggers, self@.groups, descendants_view(queue@));
        let mut queue = queue;
        let mut head: usize = 0;
        let mut deleted_triggers: Vec<UUID> = Vec::new();
        let mut deleted_groups: Vec<UUID> = Vec::new();
        assert(descendants_view(queue@).skip(0) =~= descendants_view(queue@));
        assert(ids_view(deleted_triggers@) =~= Seq::<Seq<char>>::empty());
        assert(ids_view(deleted_groups@) =~= Seq::<Seq<char>>::empty());
        while head < queue.len()
            invariant
                self.wf(),
                head <= queue@.len(),
                self@.top_level == old(self)@.top_level,
                self@.tags == old(self)@.tags,
                self.trigger_tags == old(self).trigger_tags,
                ({
                    let c = cascade(self@.triggers, self@.groups, descendants_view(queue@).skip(head as int));
                    &&& c0.triggers == c.triggers
                    &&& c0.groups == c.groups
                    &&& c0.deleted_triggers == ids_view(deleted_triggers@) + c.deleted_triggers
                    &&& c0.deleted_groups == ids_view(deleted_groups@) + c.deleted_groups
                }),
            decreases self.groups@.len(), queue@.len() - head,
        {
            proof {
                crate::keyed::lemma_keyed_len(self.groups@);
            }
            let ghost rest = descendants_view(queue@).skip(head as int);
            let ghost tr = self@.triggers;
            let ghost gr = self@.groups;
            let ghost dtv = ids_view(deleted_triggers@);
            let ghost dgv = ids_view(deleted_groups@);
            assert(rest[0] == queue@[head as int]@);
            let d = queue[head].clone();
            head = head + 1;
            match d {
                TriggerGroupDescendant::G(gid) => {
                    let removed = remove_keyed(&mut self.groups, gid.as_str());
                    match removed {
                        Some(g) => {
                            assert(gr.remove(gid@).dom() =~= gr.dom().remove(gid@));
                            let ghost qb = descendants_view(queue@);
                            append_descendants(&mut queue, &g.children);
                            assert(descendants_view(queue@).skip(head as int) =~= rest.skip(1) + gr[gid@].children);
                            deleted_groups.push(gid);
                            assert(ids_view(deleted_groups@) =~= dgv.push(deleted_groups@.last()@));
                            assert(ids_view(deleted_groups@) =~= dgv + seq![deleted_groups@.last()@]);
                        },
                        None => {
                            assert(descendants_view(queue@).skip(head as int) =~= rest.skip(1));
                        },
                    }
                },
                TriggerGroupDescendant::T(tid) => {
                    let removed = remove_keyed(&mut self.triggers, tid.as_str());
                    match removed {
                        Some(_) => {
                            deleted_triggers.push(tid);
                            assert(ids_view(deleted_triggers@) =~= dtv + seq![deleted_triggers@.last()@]);
                        },
                        None => {},
                    }
                    assert(descendants_view(queue@).skip(head as int) =~= rest.skip(1));
                },
            }
        }
        assert(descendants_view(queue@).skip(head as int) =~= Seq::<DescendantView>::empty());
        proof {
            crate::keyed::lemma_keyed_len(self.groups@);
        }
        assert(ids_view(deleted_triggers@) =~= c0.deleted_triggers);
        assert(ids_view(deleted_groups@) =~= c0.deleted_groups);
        (deleted_triggers, deleted_groups)
    }

    fn untag_removed(&mut self, removed: &Vec<UUID>, deltas: &mut Vec<DataDelta>)
        requires
            old(self).wf(),
        ensures
            final(self).wf(),
            final(self)@ == (IndexView { tags: old(self)@.tags.map_values(|tg: TagView| after_group_delete(tg, ids_view(removed@).to_set())), ..old(self)@ }),
            deltas_view(final(deltas)@) == deltas_view(old(deltas)@) + group_delete_tag_deltas(old(self)@.tags, ids_view(removed@).to_set()),
    {
        let ghost o = self@;
        let ghost rs = ids_view(removed@).to_set();
        let mut i: usize = 0;
        while i < self.trigger_tags.len()
            invariant
                self.wf(),
                o == old(self)@,
                rs == ids_view(removed@).to_set(),
                i <= self@.tags.len(),
                self@.tags.len() == o.tags.len(),
                self@.triggers == o.triggers,
                self@.groups == o.groups,
                self@.top_level == o.top_level,
                forall|p: int| 0 <= p < i ==> (#[trigger] self@.tags[p]) == after_group_delete(o.tags[p], rs),
                forall|p: int| i <= p < o.tags.len() ==> (#[trigger] self@.tags[p]) == o.tags[p],
                deltas_view(deltas@) == deltas_view(old(deltas)@) + group_delete_tag_deltas(o.tags.take(i as int), rs),
            decreases o.tags.len() - i,
        {
            let ghost before_d = deltas@;
            let ghost tg = o.tags[i as int];
            assert(self@.tags[i as int] == self.trigger_tags@[i as int]@);
            assert(o.tags.take(i + 1).drop_last() =~= o.tags.take(i as int));
            assert(o.tags.take(i + 1).last() == tg);
            let mut tag = self.trigger_tags[i].clone();
            assert(self.trigger_tags@[i as int].wf());
            let changed = tag.drop_triggers(removed);
            if changed {
                let triggers = tag.trigger_ids();
                let tag_id = tag.id.clone();
                self.set_tag(i, tag);
                deltas.push(DataDelta::TriggerTagTriggersChanged { trigger_tag_id: tag_id, triggers });
                assert(deltas_view(deltas@) =~= deltas_view(before_d) + seq![
                    DeltaView::TriggerTagTriggersChanged { trigger_tag_id: tg.id, triggers: tg.triggers.difference(rs) },
                ]);
            } else {
                assert(deltas_view(deltas@) =~= deltas_view(before_d) + Seq::<DeltaView>::empty());
            }
            assert(self@.tags[i as int] == after_group_delete(tg, rs));
            i = i + 1;
        }
        assert(o.tags.take(i as int) =~= o.tags);
        assert(self@.tags =~= o.tags.map_values(|tg: TagView| after_group_delete(tg, rs)));
    }

    fn delete_trigger_group(&mut self, group_id: UUID) -> (res: Result<Vec<DataDelta>, DataMutationError>)
        requires
            old(self).wf(),
        ensures
            final(self).wf(),
            delete_group_outcome(old(self)@, group_id@, final(self)@, result_view(res)),
    {
        let removed = remove_keyed(&mut self.groups, group_id.as_str());
        let group = match removed {
            Some(g) => g,
            None => {
                return Err(DataMutationError::TriggerGroupNotFound(group_id));
            },
        };
        let mut deltas: Vec<DataDelta> = vec![DataDelta::TriggerGroupDeleted(group_id.clone())];
        assert(deltas_view(deltas@) =~= seq![DeltaView::TriggerGroupDeleted(group_id@)]);
        self.unlist_deleted_group(&group_id, &group.parent_id, &mut deltas);
        let (deleted_triggers, deleted_groups) = self.delete_descendants(group.children);
        let ghost before_t = deltas_view(deltas@);
        let mut k: usize = 0;
        while k < deleted_triggers.len()
            invariant
                k <= deleted_triggers@.len(),
                deltas_view(deltas@) == before_t + ids_view(deleted_triggers@).take(k as int).map_values(|t: Seq<char>| DeltaView::TriggerDeleted(t)),
            decreases deleted_triggers@.len() - k,
        {
            let ghost b = deltas@;
            deltas.push(DataDelta::TriggerDeleted(deleted_triggers[k].clone()));
            assert(deltas_view(deltas@) =~= deltas_view(b).push(DeltaView::TriggerDeleted(deleted_triggers@[k as int]@)));
            assert(ids_view(deleted_triggers@).take(k + 1) =~= ids_view(deleted_triggers@).take(k as int).push(deleted_triggers@[k as int]@));
            k = k + 1;
        }
        assert(ids_view(deleted_triggers@).take(k as int) =~= ids_view(deleted_triggers@));
        let ghost before_g = deltas_view(deltas@);
        let mut k: usize = 0;
        while k < deleted_groups.len()
            invariant
                k <= deleted_groups@.len(),
                deltas_view(deltas@) == before_g + ids_view(deleted_groups@).take(k as int).map_values(|g: Seq<char>| DeltaView::TriggerGroupDeleted(g)),
            decreases deleted_groups@.len() - k,
        {
            let ghost b = deltas@;
            deltas.push(DataDelta::TriggerGroupDeleted(deleted_groups[k].clone()));
            assert(deltas_view(deltas@) =~= deltas_view(b).push(DeltaView::TriggerGroupDeleted(deleted_groups@[k as int]@)));
            assert(ids_view(deleted_groups@).take(k + 1) =~= ids_view(deleted_groups@).take(k as int).push(deleted_groups@[k as int]@));
            k = k + 1;
        }
        assert(ids_view(deleted_groups@).take(k as int) =~= ids_view(deleted_groups@));
        self.untag_removed(&deleted_triggers, &mut deltas);
        Ok(deltas)
    }
}

} // verus!

verus! {

pub open spec fn rename_tag_outcome(o: IndexView, id: Seq<char>, name: Seq<char>, n: IndexView, res: Result<Seq<DeltaView>, ErrorView>) -> bool {
    &&& has_tag(o.tags, id) ==> exists|i: int| 0 <= i < o.tags.len() && (#[trigger] o.tags[i]).id == id
        && n == (IndexView { tags: o.tags.update(i, TagView { name, ..o.tags[i] }), ..o })
    &&& has_tag(o.tags, id) ==> res == Ok::<Seq<DeltaView>, ErrorView>(seq![DeltaView::TriggerTagRenamed(id, name)])
    &&& !has_tag(o.tags, id) ==> n == o && res == Err::<Seq<DeltaView>, ErrorView>(ErrorView::TriggerTagNotFound(id))
}

pub open spec fn delete_tag_outcome(o: IndexView, id: Seq<char>, n: IndexView, res: Result<Seq<DeltaView>, ErrorView>) -> bool {
    &&& res == Ok::<Seq<DeltaView>, ErrorView>(seq![DeltaView::TriggerTagDeleted(id)])
    &&& has_tag(o.tags, id) ==> exists|i: int| 0 <= i < o.tags.len() && (#[trigger] o.tags[i]).id == id && n == (IndexView { tags: o.tags.remove(i), ..o })
    &&& !has_tag(o.tags, id) ==> n == o
}

pub open spec fn tagging_outcome(o: IndexView, trigger_id: Seq<char>, tag_id: Seq<char>, add: bool, n: IndexView, res: Result<Seq<DeltaView>, ErrorView>) -> bool {
    &&& !o.triggers.contains_key(trigger_id) ==> n == o && res == Err::<Seq<DeltaView>, ErrorView>(ErrorView::TriggerNotFound(trigger_id))
    &&& o.triggers.contains_key(trigger_id) && !has_tag(o.tags, tag_id) ==> n == o && res == Err::<Seq<DeltaView>, ErrorView>(ErrorView::TriggerTagNotFound(tag_id))
    &&& o.triggers.contains_key(trigger_id) && has_tag(o.tags, tag_id) ==> exists|i: int| 0 <= i < o.tags.len() && (#[trigger] o.tags[i]).id == tag_id
        && n == (IndexView {
            tags: o.tags.update(i, with_triggers(o.tags[i], if add { o.tags[i].triggers.insert(trigger_id) } else { o.tags[i].triggers.remove(trigger_id) })),
            ..o
        })
    &&& o.triggers.contains_key(trigger_id) && has_tag(o.tags, tag_id) ==> res == Ok::<Seq<DeltaView>, ErrorView>(
        if add {
            seq![DeltaView::TriggerTagged { trigger_id, trigger_tag_id: tag_id }]
        } else {
            seq![DeltaView::TriggerUntagged { trigger_id, trigger_tag_id: tag_id }]
        })
}

pub open spec fn save_group_outcome(o: IndexView, gid: Seq<char>, name: Seq<char>, comment: Option<Seq<char>>, n: IndexView, res: Result<Seq<DeltaView>, ErrorView>) -> bool {
    &&& !o.groups.contains_key(gid) ==> n == o && res == Err::<Seq<DeltaView>, ErrorView>(ErrorView::TriggerGroupNotFound(gid))
    &&& o.groups.contains_key(gid) ==> {
        let g = GroupView { name, comment, ..o.groups[gid] };
        &&& n == (IndexView { groups: o.groups.insert(gid, g), ..o })
        &&& res == Ok::<Seq<DeltaView>, ErrorView>(seq![DeltaView::TriggerGroupSaved(g)])
    }
}

pub open spec fn create_group_outcome(o: IndexView, g: GroupView, parent_position: int, n: IndexView, res: Result<Seq<DeltaView>, ErrorView>) -> bool {
    match g.parent_id {
        Some(p) => if !o.groups.contains_key(p) {
            n == o && res == Err::<Seq<DeltaView>, ErrorView>(ErrorView::TriggerGroupNotFound(p))
        } else {
            let parent = o.groups[p];
            let idx = if parent_position < parent.children.len() { parent_position } else { parent.children.len() as int };
            let children = parent.children.insert(idx, DescendantView::G(g.id));
            &&& n == (IndexView { groups: o.groups.insert(p, with_children(parent, children)).insert(g.id, g), ..o })
            &&& res == Ok::<Seq<DeltaView>, ErrorView>(seq![
                DeltaView::TriggerGroupSaved(g),
                DeltaView::TriggerGroupChildrenChanged { trigger_group_id: p, children },
            ])
        },
        None => {
            let idx = if parent_position < o.top_level.len() { parent_position } else { o.top_level.len() as int };
            let top = o.top_level.insert(idx, DescendantView::G(g.id));
            &&& n == (IndexView { groups: o.groups.insert(g.id, g), top_level: top, ..o })
            &&& res == Ok::<Seq<DeltaView>, ErrorView>(seq![DeltaView::TriggerGroupSaved(g), DeltaView::TopLevelChanged(top)])
        },
    }
}

/// A new tag named `name`: a fresh identifier and no triggers; it takes the
/// place of a tag with the same identifier, or joins the end.
pub open spec fn create_tag_outcome(o: IndexView, name: Seq<char>, n: IndexView, res: Result<Seq<DeltaView>, ErrorView>) -> bool {
    &&& res matches Ok(ds) && ds.len() == 1 && ds[0] is TriggerTagCreated
    &&& {
        let t = res->Ok_0[0]->TriggerTagCreated_0;
        &&& t.name == name
        &&& t.triggers == Set::<Seq<char>>::empty()
        &&& t.id.len() == UUID_LEN
        &&& n.triggers == o.triggers && n.groups == o.groups && n.top_level == o.top_level
        &&& has_tag(o.tags, t.id) ==> exists|i: int| 0 <= i < o.tags.len() && (#[trigger] o.tags[i]).id == t.id && n.tags == o.tags.update(i, t)
        &&& !has_tag(o.tags, t.id) ==> n.tags == o.tags.push(t)
    }
}

/// What mutation `m` does to state `o`: it becomes `n`, answered by `res`.
pub open spec fn mutate_outcome(o: IndexView, m: Mutation, n: IndexView, res: Result<Seq<DeltaView>, ErrorView>) -> bool {
    match m {
        Mutation::CreateTrigger { trigger, trigger_tag_ids, parent_position } =>
            create_trigger_outcome(o, trigger@, ids_view(trigger_tag_ids@), parent_position as int, n, res),
        Mutation::SaveTrigger { trigger, trigger_tag_ids } => save_trigger_outcome(o, trigger@, ids_view(trigger_tag_ids@), n, res),
        Mutation::DeleteTrigger(id) => delete_trigger_outcome(o, id@, n, res),
        Mutation::CreateTriggerGroup { trigger_group, parent_position } => create_group_outcome(o, trigger_group@, parent_position as int, n, res),
        Mutation::SaveTriggerGroup { trigger_group_id, name, comment } =>
            save_group_outcome(o, trigger_group_id@, name@, crate::triggers::opt_view(comment), n, res),
        Mutation::DeleteTriggerGroup(id) => delete_group_outcome(o, id@, n, res),
        Mutation::CreateTriggerTag(name) => create_tag_outcome(o, name@, n, res),
        Mutation::RenameTriggerTag(id, name) => rename_tag_outcome(o, id@, name@, n, res),
        Mutation::DeleteTriggerTag(id) => delete_tag_outcome(o, id@, n, res),
        Mutation::TagTrigger { trigger_id, trigger_tag_id } => tagging_outcome(o, trigger_id@, trigger_tag_id@, true, n, res),
        Mutation::UntagTrigger { trigger_id, trigger_tag_id } => tagging_outcome(o, trigger_id@, trigger_tag_id@, false, n, res),
    }
}

/// The one input a mutation cannot take: a new trigger listed past the end
/// of its parent's children (or of the top level).
pub open spec fn mutation_allowed(o: IndexView, m: Mutation) -> bool {
    match m {
        Mutation::CreateTrigger { trigger, parent_position, .. } => position_fits(o, trigger@.parent_id, parent_position as int),
        _ => true,
    }
}

impl TriggerIndex {
    /// Applies `mutation` and answers with the changes to show.
    pub fn mutate(&mut self, mutation: Mutation) -> (res: Result<Vec<DataDelta>, DataMutationError>)
        requires
            old(self).wf(),
            mutation_allowed(old(self)@, mutation),
        ensures
            final(self).wf(),
            mutate_outcome(old(self)@, mutation, final(self)@, result_view(res)),
    {
        match mutation {
            Mutation::CreateTrigger { trigger, trigger_tag_ids, parent_position } => self.create_trigger(trigger, trigger_tag_ids, parent_position),
            Mutation::SaveTrigger { trigger, trigger_tag_ids } => self.save_trigger(trigger, trigger_tag_ids),
            Mutation::DeleteTrigger(id) => self.delete_trigger(id),
            Mutation::CreateTriggerGroup { trigger_group, parent_position } => self.create_trigger_group(trigger_group, parent_position),
            Mutation::SaveTriggerGroup { trigger_group_id, name, comment } => self.save_trigger_group(trigger_group_id, name, comment),
            Mutation::DeleteTriggerGroup(id) => self.delete_trigger_group(id),
            Mutation::CreateTriggerTag(name) => {
                let tag = self.create_trigger_tag(name.as_str());
                let ghost tv = tag@;
                let v = vec![DataDelta::TriggerTagCreated(tag)];
                assert(deltas_view(v@) =~= seq![DeltaView::TriggerTagCreated(tv)]);
                assert(result_view(Ok::<Vec<DataDelta>, DataMutationError>(v)) == Ok::<Seq<DeltaView>, ErrorView>(seq![DeltaView::TriggerTagCreated(tv)]));
                Ok(v)
            },
            Mutation::RenameTriggerTag(id, name) => self.rename_trigger_tag(id, name),
            Mutation::DeleteTriggerTag(id) => self.delete_trigger_tag(&id),
            Mutation::TagTrigger { trigger_id, trigger_tag_id } => self.change_tagging(trigger_id, trigger_tag_id, true),
            Mutation::UntagTrigger { trigger_id, trigger_tag_id } => self.change_tagging(trigger_id, trigger_tag_id, false),
        }
    }

    /// Whether `mutation` can be applied (see `mutation_allowed`).
    pub fn can_mutate(&self, mutation: &Mutation) -> (res: bool)
        requires
            self.wf(),
        ensures
            res == mutation_allowed(self@, *mutation),
    {
        match mutation {
            Mutation::CreateTrigger { trigger, parent_position, .. } => match &trigger.parent_id {
                None => *parent_position <= self.top_level.len(),
                Some(p) => {
                    proof {
                        lemma_keyed_lookup(self.groups@, p@);
                    }
                    match find_keyed(&self.groups, p.as_str()) {
                        Some(i) => {
                            proof {
                                lemma_keyed_value_id(self.groups@, p@, i as int);
                            }
                            *parent_position <= self.groups[i].children.len()
                        },
                        None => true,
                    }
                },
            },
            _ => true,
        }
    }
}

} // verus!

verus! {

/// The triggers that some tag among `tag_ids` tags.
pub open spec fn tagged_by_any(tags: Seq<TagView>, tag_ids: Seq<Seq<char>>, id: Seq<char>) -> bool {
    exists|i: int| 0 <= i < tags.len() && tag_ids.contains((#[trigger] tags[i]).id) && tags[i].triggers.contains(id)
}

impl TriggerIndex {
    fn is_tagged_by_any(&self, tag_ids: &Vec<UUID>, id: &UUID) -> (res: bool)
        ensures
            res == tagged_by_any(self@.tags, ids_view(tag_ids@), id@),
    {
        let mut i: usize = 0;
        while i < self.trigger_tags.len()
            invariant
                i <= self@.tags.len(),
                forall|p: int| 0 <= p < i ==> !(ids_view(tag_ids@).contains((#[trigger] self@.tags[p]).id) && self@.tags[p].triggers.contains(id@)),
            decreases self@.tags.len() - i,
        {
            assert(self@.tags[i as int] == self.trigger_tags@[i as int]@);
            if ids_contain(tag_ids, &self.trigger_tags[i].id) && self.trigger_tags[i].tags_trigger(id) {
                return true;
            }
            i = i + 1;
        }
        false
    }

    /// The distinct triggers tagged by any of the tags `tag_ids` (missing
    /// tags and missing triggers are passed over).
    pub fn get_distinct_triggers_tagged_by_any_of(&self, tag_ids: &Vec<UUID>) -> (res: Vec<&Trigger>)
        requires
            self.wf(),
        ensures
            forall|j: int| 0 <= j < res@.len() ==> self@.triggers.contains_key((#[trigger] res@[j])@.id) && self@.triggers[res@[j]@.id] == res@[j]@,
            forall|j: int| 0 <= j < res@.len() ==> tagged_by_any(self@.tags, ids_view(tag_ids@), (#[trigger] res@[j])@.id),
            forall|id: Seq<char>| self@.triggers.contains_key(id) && tagged_by_any(self@.tags, ids_view(tag_ids@), id) ==> exists|j: int| 0 <= j < res@.len() && (#[trigger] res@[j])@.id == id,
            forall|a: int, b: int| 0 <= a < b < res@.len() ==> (#[trigger] res@[a])@.id != (#[trigger] res@[b])@.id,
            forall|j: int| 0 <= j < res@.len() ==> self.triggers@.contains(*(#[trigger] res@[j])),
    {
        let mut res: Vec<&Trigger> = Vec::new();
        let ghost ks = ids_view(tag_ids@);
        let ghost mut pos: Seq<int> = Seq::empty();
        let mut i: usize = 0;
        while i < self.triggers.len()
            invariant
                self.wf(),
                ks == ids_view(tag_ids@),
                i <= self.triggers@.len(),
                pos.len() == res@.len(),
                forall|j: int| 0 <= j < res@.len() ==> 0 <= #[trigger] pos[j] < i && res@[j] == self.triggers@[pos[j]],
                forall|a: int, b: int| 0 <= a < b < pos.len() ==> #[trigger] pos[a] < #[trigger] pos[b],
                forall|j: int| 0 <= j < res@.len() ==> tagged_by_any(self@.tags, ks, (#[trigger] res@[j])@.id),
                forall|p: int| 0 <= p < i && tagged_by_any(self@.tags, ks, (#[trigger] self.triggers@[p]).key()) ==> exists|j: int| 0 <= j < pos.len() && #[trigger] pos[j] == p,
            decreases self.triggers@.len() - i,
        {
            let t = &self.triggers[i];
            let ghost before = pos;
            let tagged = self.is_tagged_by_any(tag_ids, &t.id);
            if tagged {
                res.push(t);
                proof {
                    pos = pos.push(i as int);
                }
            }
            assert forall|p: int| 0 <= p < i + 1 && tagged_by_any(self@.tags, ks, (#[trigger] self.triggers@[p]).key()) implies exists|j: int| 0 <= j < pos.len() && #[trigger] pos[j] == p by {
                if p < i {
                    let j = choose|j: int| 0 <= j < before.len() && #[trigger] before[j] == p;
                    assert(pos[j] == before[j]);
                } else {
                    assert(tagged);
                    assert(pos[pos.len() - 1] == p);
                }
            }
            i = i + 1;
        }
        proof {
            assert forall|j: int| 0 <= j < res@.len() implies self@.triggers.contains_key((#[trigger] res@[j])@.id) && self@.triggers[res@[j]@.id] == res@[j]@ by {
                let p = pos[j];
                lemma_keyed_value_id(self.triggers@, self.triggers@[p].key(), p);
            }
            assert forall|id: Seq<char>| self@.triggers.contains_key(id) && tagged_by_any(self@.tags, ks, id) implies exists|j: int| 0 <= j < res@.len() && (#[trigger] res@[j])@.id == id by {
                lemma_keyed_lookup(self.triggers@, id);
                let p = choose|p: int| 0 <= p < self.triggers@.len() && (#[trigger] self.triggers@[p]).key() == id;
                let j = choose|j: int| 0 <= j < pos.len() && #[trigger] pos[j] == p;
                assert(res@[j]@.id == id);
            }
            assert forall|a: int, b: int| 0 <= a < b < res@.len() implies (#[trigger] res@[a])@.id != (#[trigger] res@[b])@.id by {
                assert(pos[a] < pos[b]);
                assert(self.triggers@[pos[a]].key() != self.triggers@[pos[b]].key());
            }
            assert forall|j: int| 0 <= j < res@.len() implies self.triggers@.contains(*(#[trigger] res@[j])) by {
                assert(*res@[j] == self.triggers@[pos[j]]);
            }
        }
        res
    }

    /// The tags that tag trigger `trigger_id`, in order.
    pub fn trigger_tags_with_trigger(&self, trigger_id: &UUID) -> (res: Vec<&TriggerTag>)
        ensures
            res@.len() <= self@.tags.len(),
            forall|j: int| 0 <= j < res@.len() ==> (#[trigger] res@[j])@.triggers.contains(trigger_id@),
            forall|j: int| 0 <= j < res@.len() ==> self@.tags.contains((#[trigger] res@[j])@),
            forall|p: int| 0 <= p < self@.tags.len() && (#[trigger] self@.tags[p]).triggers.contains(trigger_id@) ==> exists|j: int| 0 <= j < res@.len() && (#[trigger] res@[j])@ == self@.tags[p],
    {
        let mut res: Vec<&TriggerTag> = Vec::new();
        let mut i: usize = 0;
        while i < self.trigger_tags.len()
            invariant
                i <= self@.tags.len(),
                res@.len() <= i,
                forall|j: int| 0 <= j < res@.len() ==> (#[trigger] res@[j])@.triggers.contains(trigger_id@),
                forall|j: int| 0 <= j < res@.len() ==> self@.tags.contains((#[trigger] res@[j])@),
                forall|p: int| 0 <= p < i && (#[trigger] self@.tags[p]).triggers.contains(trigger_id@) ==> exists|j: int| 0 <= j < res@.len() && (#[trigger] res@[j])@ == self@.tags[p],
            decreases self@.tags.len() - i,
        {
            assert(self@.tags[i as int] == self.trigger_tags@[i as int]@);
            let ghost before = res@;
            let tagged = self.trigger_tags[i].tags_trigger(trigger_id);
            if tagged {
                res.push(&self.trigger_tags[i]);
                assert(res@[res@.len() - 1]@ == self@.tags[i as int]);
            }
            assert forall|p: int| 0 <= p < i + 1 && (#[trigger] self@.tags[p]).triggers.contains(trigger_id@) implies exists|j: int| 0 <= j < res@.len() && (#[trigger] res@[j])@ == self@.tags[p] by {
                if p < i {
                    let j = choose|j: int| 0 <= j < before.len() && (#[trigger] before[j])@ == self@.tags[p];
                    assert(res@[j] == before[j]);
                } else {
                    assert(res@[res@.len() - 1]@ == self@.tags[p]);
                }
            }
            i = i + 1;
        }
        res
    }

    /// Checks the approvals of the system commands of every trigger with `key`.
    pub fn security_check(self, key: Option<&crate::security::MachineKey>) -> (res: Self)
        requires
            self.wf(),
        ensures
            res.wf(),
            res@.groups == self@.groups,
            res@.top_level == self@.top_level,
            res@.tags == self@.tags,
            res@.triggers.dom() == self@.triggers.dom(),
            forall|id: Seq<char>| #[trigger] res@.triggers.contains_key(id) ==> res@.triggers[id] == crate::triggers::secured_trigger(self@.triggers[id], crate::command_template::key_view(key)),
    {
        let ghost kv = crate::command_template::key_view(key);
        let ghost o = self@;
        let ghost old_triggers = self.triggers@;
        let TriggerIndex { triggers, groups, top_level, trigger_tags } = self;
        let mut triggers = triggers;
        let mut out: Vec<Trigger> = Vec::new();
        let mut i: usize = 0;
        let n = triggers.len();
        while i < n
            invariant
                n == old_triggers.len(),
                i <= n,
                triggers@ == old_triggers.skip(i as int),
                out@.len() == i,
                forall|p: int| 0 <= p < i ==> (#[trigger] out@[p]).key() == old_triggers[p].key(),
                forall|p: int| 0 <= p < i ==> (#[trigger] out@[p])@ == crate::triggers::secured_trigger(old_triggers[p]@, kv),
                kv == crate::command_template::key_view(key),
            decreases n - i,
        {
            let t = triggers.remove(0);
            assert(t == old_triggers[i as int]);
            out.push(t.security_check(key));
            assert(triggers@ =~= old_triggers.skip(i + 1));
            i = i + 1;
        }
        let res = TriggerIndex { triggers: out, groups, top_level, trigger_tags };
        proof {
            assert(keys_unique(out@)) by {
                assert forall|a: int, b: int| 0 <= a < b < out@.len() implies (#[trigger] out@[a]).key() != (#[trigger] out@[b]).key() by {
                    assert(out@[a].key() == old_triggers[a].key());
                    assert(out@[b].key() == old_triggers[b].key());
                }
            }
            assert forall|id: Seq<char>| res@.triggers.contains_key(id) <==> o.triggers.contains_key(id) by {
                lemma_keyed_lookup(out@, id);
                lemma_keyed_lookup(old_triggers, id);
                if res@.triggers.contains_key(id) {
                    let p = choose|p: int| 0 <= p < out@.len() && (#[trigger] out@[p]).key() == id;
                    assert(old_triggers[p].key() == id);
                }
                if o.triggers.contains_key(id) {
                    let p = choose|p: int| 0 <= p < old_triggers.len() && (#[trigger] old_triggers[p]).key() == id;
                    assert(out@[p].key() == id);
                }
            }
            assert(res@.triggers.dom() =~= o.triggers.dom());
            assert forall|id: Seq<char>| #[trigger] res@.triggers.contains_key(id) implies res@.triggers[id] == crate::triggers::secured_trigger(o.triggers[id], kv) by {
                lemma_keyed_lookup(out@, id);
                lemma_keyed_lookup(old_triggers, id);
                let p = choose|p: int| 0 <= p < out@.len() && (#[trigger] out@[p]).key() == id;
                assert(old_triggers[p].key() == id);
            }
        }
        res
    }
}

/// The triggers a new installation starts with: none.
pub fn default_triggers() -> (res: TriggerIndex)
    ensures
        res.wf(),
        res@.triggers == Map::<Seq<char>, TriggerView>::empty(),
        res@.groups == Map::<Seq<char>, GroupView>::empty(),
        res@.top_level == Seq::<DescendantView>::empty(),
        res@.tags == Seq::<TagView>::empty(),
{
    TriggerIndex::new()
}

} // verus!

verus! {

// ---------------------------------------------------------------------------
// Laws of the index
// ---------------------------------------------------------------------------

/// Creating a trigger stores it as given (with a new update time); saving an
/// existing trigger does the same.
pub proof fn lemma_write_then_read(o: IndexView, m: Mutation, n: IndexView, res: Result<Seq<DeltaView>, ErrorView>)
    requires
        mutate_outcome(o, m, n, res),
        m is CreateTrigger || (m is SaveTrigger && o.triggers.contains_key(m->SaveTrigger_trigger@.id)),
    ensures
        m matches Mutation::CreateTrigger { trigger, .. } ==> n.triggers.contains_key(trigger@.id)
            && n.triggers[trigger@.id] == updated_at(trigger@, n.triggers[trigger@.id].updated_at),
        m matches Mutation::SaveTrigger { trigger, .. } ==> n.triggers.contains_key(trigger@.id)
            && n.triggers[trigger@.id] == updated_at(trigger@, n.triggers[trigger@.id].updated_at),
{
}

/// Tagging a trigger and then untagging it leaves the index as it was, when
/// the tag did not tag it before.
pub proof fn lemma_tag_then_untag(o: IndexView, trigger_id: Seq<char>, tag_id: Seq<char>, n1: IndexView, r1: Result<Seq<DeltaView>, ErrorView>, n2: IndexView, r2: Result<Seq<DeltaView>, ErrorView>)
    requires
        tag_ids_unique(o.tags),
        forall|i: int| 0 <= i < o.tags.len() && (#[trigger] o.tags[i]).id == tag_id ==> !o.tags[i].triggers.contains(trigger_id),
        tagging_outcome(o, trigger_id, tag_id, true, n1, r1),
        tagging_outcome(n1, trigger_id, tag_id, false, n2, r2),
    ensures
        n2 == o,
{
    if o.triggers.contains_key(trigger_id) && has_tag(o.tags, tag_id) {
        let i = choose|i: int| 0 <= i < o.tags.len() && (#[trigger] o.tags[i]).id == tag_id && n1 == (IndexView {
            tags: o.tags.update(i, with_triggers(o.tags[i], o.tags[i].triggers.insert(trigger_id))),
            ..o
        });
        assert(n1.tags[i].id == tag_id);
        assert(has_tag(n1.tags, tag_id));
        let j = choose|j: int| 0 <= j < n1.tags.len() && (#[trigger] n1.tags[j]).id == tag_id && n2 == (IndexView {
            tags: n1.tags.update(j, with_triggers(n1.tags[j], n1.tags[j].triggers.remove(trigger_id))),
            ..n1
        });
        if j != i {
            assert(n1.tags[j] == o.tags[j]);
        }
        assert(j == i);
        assert(n1.tags[i].triggers.remove(trigger_id) =~= o.tags[i].triggers);
        assert(n2.tags =~= o.tags);
    }
}

/// A tag that was just created, with an identifier not in use before, is
/// gone again after deleting it: the index is as it was.
pub proof fn lemma_create_then_delete_tag(o: IndexView, name: Seq<char>, n1: IndexView, r1: Result<Seq<DeltaView>, ErrorView>, n2: IndexView, r2: Result<Seq<DeltaView>, ErrorView>)
    requires
        tag_ids_unique(o.tags),
        create_tag_outcome(o, name, n1, r1),
        !has_tag(o.tags, r1->Ok_0[0]->TriggerTagCreated_0.id),
        delete_tag_outcome(n1, r1->Ok_0[0]->TriggerTagCreated_0.id, n2, r2),
    ensures
        n2 == o,
{
    let t = r1->Ok_0[0]->TriggerTagCreated_0;
    assert(n1.tags == o.tags.push(t));
    assert(n1.tags[o.tags.len() as int].id == t.id);
    assert(has_tag(n1.tags, t.id));
    let i = choose|i: int| 0 <= i < n1.tags.len() && (#[trigger] n1.tags[i]).id == t.id && n2 == (IndexView { tags: n1.tags.remove(i), ..n1 });
    if i < o.tags.len() {
        assert(o.tags[i].id == t.id);
    }
    assert(n2.tags =~= o.tags);
}

/// Deleting a trigger that is gone answers that it was not found and
/// changes nothing.
pub proof fn lemma_delete_trigger_twice(o: IndexView, id: Seq<char>, n1: IndexView, r1: Result<Seq<DeltaView>, ErrorView>, n2: IndexView, r2: Result<Seq<DeltaView>, ErrorView>)
    requires
        delete_trigger_outcome(o, id, n1, r1),
        delete_trigger_outcome(n1, id, n2, r2),
    ensures
        !n1.triggers.contains_key(id),
        n2 == n1,
        r2 == Err::<Seq<DeltaView>, ErrorView>(ErrorView::TriggerNotFound(id)),
{
}

/// What a breadth-first deletion leaves is part of what it started from, and
/// what it deleted is not there.
pub proof fn lemma_cascade_removes(tr: Map<Seq<char>, TriggerView>, gr: Map<Seq<char>, GroupView>, queue: Seq<DescendantView>)
    requires
        gr.dom().finite(),
    ensures
        cascade(tr, gr, queue).groups.dom().subset_of(gr.dom()),
        cascade(tr, gr, queue).triggers.dom().subset_of(tr.dom()),
        forall|k: Seq<char>| #[trigger] cascade(tr, gr, queue).groups.contains_key(k) ==> cascade(tr, gr, queue).groups[k] == gr[k],
        forall|k: Seq<char>| #[trigger] cascade(tr, gr, queue).triggers.contains_key(k) ==> cascade(tr, gr, queue).triggers[k] == tr[k],
        forall|j: int| 0 <= j < cascade(tr, gr, queue).deleted_triggers.len() ==> !cascade(tr, gr, queue).triggers.contains_key(#[trigger] cascade(tr, gr, queue).deleted_triggers[j]),
        forall|j: int| 0 <= j < cascade(tr, gr, queue).deleted_groups.len() ==> !cascade(tr, gr, queue).groups.contains_key(#[trigger] cascade(tr, gr, queue).deleted_groups[j]),
    decreases gr.dom().len(), queue.len(),
{
    if queue.len() > 0 {
        let rest = queue.skip(1);
        match queue[0] {
            DescendantView::G(g) => if gr.contains_key(g) {
                assert(gr.remove(g).dom() =~= gr.dom().remove(g));
                lemma_cascade_removes(tr, gr.remove(g), rest + gr[g].children);
                let c = cascade(tr, gr.remove(g), rest + gr[g].children);
                assert forall|j: int| 0 <= j < cascade(tr, gr, queue).deleted_groups.len() implies !cascade(tr, gr, queue).groups.contains_key(#[trigger] cascade(tr, gr, queue).deleted_groups[j]) by {
                    if j > 0 {
                        assert(cascade(tr, gr, queue).deleted_groups[j] == c.deleted_groups[j - 1]);
                    }
                }
            } else {
                lemma_cascade_removes(tr, gr, rest);
            },
            DescendantView::T(t) => if tr.contains_key(t) {
                lemma_cascade_removes(tr.remove(t), gr, rest);
                let c = cascade(tr.remove(t), gr, rest);
                assert forall|j: int| 0 <= j < cascade(tr, gr, queue).deleted_triggers.len() implies !cascade(tr, gr, queue).triggers.contains_key(#[trigger] cascade(tr, gr, queue).deleted_triggers[j]) by {
                    if j > 0 {
                        assert(cascade(tr, gr, queue).deleted_triggers[j] == c.deleted_triggers[j - 1]);
                    }
                }
            } else {
                lemma_cascade_removes(tr, gr, rest);
            },
        }
    }
}

/// Deleting a group deletes it, and every trigger deleted with it is gone
/// from the index and from every tag.
pub proof fn lemma_delete_group_removes(o: IndexView, gid: Seq<char>, n: IndexView, res: Result<Seq<DeltaView>, ErrorView>)
    requires
        o.groups.dom().finite(),
        o.groups.contains_key(gid),
        delete_group_outcome(o, gid, n, res),
    ensures
        !n.groups.contains_key(gid),
        ({
            let g = o.groups[gid];
            let (groups, top, pdeltas) = unlisted_group(o.groups.remove(gid), o.top_level, gid, g.parent_id);
            let c = cascade(o.triggers, groups, g.children);
            forall|j: int| 0 <= j < c.deleted_triggers.len() ==> {
                &&& !n.triggers.contains_key(#[trigger] c.deleted_triggers[j])
                &&& forall|t: int| 0 <= t < n.tags.len() ==> !(#[trigger] n.tags[t]).triggers.contains(c.deleted_triggers[j])
            }
        }),
{
    let g = o.groups[gid];
    let (groups, top, pdeltas) = unlisted_group(o.groups.remove(gid), o.top_level, gid, g.parent_id);
    assert(o.groups.remove(gid).dom() =~= o.groups.dom().remove(gid));
    assert(!groups.contains_key(gid));
    assert(groups.dom().finite()) by {
        if g.parent_id is Some && o.groups.remove(gid).contains_key(g.parent_id->0) {
            assert(groups.dom() =~= o.groups.remove(gid).dom().insert(g.parent_id->0));
        }
    }
    lemma_cascade_removes(o.triggers, groups, g.children);
    let c = cascade(o.triggers, groups, g.children);
    let removed = c.deleted_triggers.to_set();
    assert forall|j: int| 0 <= j < c.deleted_triggers.len() implies {
        &&& !n.triggers.contains_key(#[trigger] c.deleted_triggers[j])
        &&& forall|t: int| 0 <= t < n.tags.len() ==> !(#[trigger] n.tags[t]).triggers.contains(c.deleted_triggers[j])
    } by {
        let x = c.deleted_triggers[j];
        assert(removed.contains(x));
        assert forall|t: int| 0 <= t < n.tags.len() implies !(#[trigger] n.tags[t]).triggers.contains(x) by {
            let tg = o.tags[t];
            if !tags_any(tg, removed) {
                assert(!(tg.triggers.contains(x) && removed.contains(x)));
            }
        }
    }
}

/// Checking the approvals twice with the same key is checking them once.
pub proof fn lemma_security_check_idempotent(t: TriggerView, key: Option<Seq<u8>>)
    ensures
        crate::triggers::secured_trigger(crate::triggers::secured_trigger(t, key), key) == crate::triggers::secured_trigger(t, key),
{
    crate::effects::lemma_secured_list_idempotent(t.effects, key);
}

} // verus!
