//! Triggers, the groups that organise them, and the tags that label them.
use vstd::prelude::*;
use crate::command_template::key_view;
use crate::common::{Timestamp, UUID};
use crate::effects::{EffectWithID, EffectWithIDView, effects_view, secured_list};
use crate::keyed::Keyed;
use crate::matchers::{Filter, MatcherView};
use crate::security::MachineKey;

verus! {

/// A position in the tree of groups: a trigger or a group, by identifier.
#[derive(Debug)]
pub enum TriggerGroupDescendant {
    T(UUID),
    G(UUID),
}

pub enum DescendantView {
    T(Seq<char>),
    G(Seq<char>),
}

impl View for TriggerGroupDescendant {
    type V = DescendantView;

    open spec fn view(&self) -> DescendantView {
        match self {
            TriggerGroupDescendant::T(id) => DescendantView::T(id@),
            TriggerGroupDescendant::G(id) => DescendantView::G(id@),
        }
    }
}

impl Clone for TriggerGroupDescendant {
    fn clone(&self) -> (res: Self)
        ensures
            res@ == self@,
    {
        match self {
            TriggerGroupDescendant::T(id) => TriggerGroupDescendant::T(id.clone()),
            TriggerGroupDescendant::G(id) => TriggerGroupDescendant::G(id.clone()),
        }
    }
}

pub open spec fn descendants_view(v: Seq<TriggerGroupDescendant>) -> Seq<DescendantView> {
    v.map_values(|d: TriggerGroupDescendant| d@)
}

pub fn clone_descendants(v: &Vec<TriggerGroupDescendant>) -> (res: Vec<TriggerGroupDescendant>)
    ensures
        descendants_view(res@) == descendants_view(v@),
{
    let mut res: Vec<TriggerGroupDescendant> = Vec::new();
    let mut i: usize = 0;
    while i < v.len()
        invariant
            i <= v@.len(),
            res@.len() == i,
            forall|j: int| 0 <= j < i ==> (#[trigger] res@[j])@ == v@[j]@,
        decreases v@.len() - i,
    {
        res.push(v[i].clone());
        i = i + 1;
    }
    assert(descendants_view(res@) =~= descendants_view(v@));
    res
}

pub open spec fn opt_view(o: Option<String>) -> Option<Seq<char>> {
    match o {
        Some(s) => Some(s@),
        None => None,
    }
}

pub open spec fn opt_id_view(o: Option<UUID>) -> Option<Seq<char>> {
    match o {
        Some(u) => Some(u@),
        None => None,
    }
}

#[derive(Debug)]
pub struct Trigger {
    pub id: UUID,
    pub parent_id: Option<UUID>,
    pub name: String,
    pub comment: Option<String>,
    pub enabled: bool,
    pub filter: Filter,
    pub effects: Vec<EffectWithID>,
    pub created_at: Timestamp,
    pub updated_at: Timestamp,
}

pub struct TriggerView {
    pub id: Seq<char>,
    pub parent_id: Option<Seq<char>>,
    pub name: Seq<char>,
    pub comment: Option<Seq<char>>,
    pub enabled: bool,
    pub filter: Seq<MatcherView>,
    pub effects: Seq<EffectWithIDView>,
    pub created_at: Timestamp,
    pub updated_at: Timestamp,
}

impl View for Trigger {
    type V = TriggerView;

    open spec fn view(&self) -> TriggerView {
        TriggerView {
            id: self.id@,
            parent_id: opt_id_view(self.parent_id),
            name: self.name@,
            comment: opt_view(self.comment),
            enabled: self.enabled,
            filter: self.filter@,
            effects: effects_view(self.effects@),
            created_at: self.created_at,
            updated_at: self.updated_at,
        }
    }
}

impl Keyed for Trigger {
    open spec fn key(&self) -> Seq<char> {
        self.id@
    }

    fn key_str(&self) -> (res: &str) {
        self.id.as_str()
    }
}

fn clone_opt_uuid(o: &Option<UUID>) -> (res: Option<UUID>)
    ensures
        res == *o,
{
    match o {
        Some(u) => Some(u.clone()),
        None => None,
    }
}

fn clone_opt_string(o: &Option<String>) -> (res: Option<String>)
    ensures
        res == *o,
{
    match o {
        Some(s) => Some(s.clone()),
        None => None,
    }
}

impl Clone for Trigger {
    fn clone(&self) -> (res: Self)
        ensures
            res@ == self@,
            self.filter.wf() ==> res.filter.wf(),
    {
        Trigger {
            id: self.id.clone(),
            parent_id: clone_opt_uuid(&self.parent_id),
            name: self.name.clone(),
            comment: clone_opt_string(&self.comment),
            enabled: self.enabled,
            filter: self.filter.clone(),
            effects: crate::effects::clone_effect_list(&self.effects),
            created_at: self.created_at,
            updated_at: self.updated_at,
        }
    }
}

/// Trigger `t` with the approvals of its system commands checked with `key`.
pub open spec fn secured_trigger(t: TriggerView, key: Option<Seq<u8>>) -> TriggerView {
    TriggerView { effects: secured_list(t.effects, key), ..t }
}

impl Trigger {
    /// Checks the approval of every system command among the effects.
    pub fn security_check(self, key: Option<&MachineKey>) -> (res: Self)
        ensures
            res@ == secured_trigger(self@, key_view(key)),
            self.filter.wf() ==> res.filter.wf(),
    {
        let effects = crate::effects::secure_effect_list(&self.effects, key);
        Trigger { effects, ..self }
    }

    /// Marks the trigger as changed now.
    pub fn updated_now(&mut self)
        ensures
            final(self)@ == (TriggerView { updated_at: final(self).updated_at, ..old(self)@ }),
            final(self).filter == old(self).filter,
    {
        self.updated_at = Timestamp::now();
    }
}

#[derive(Debug)]
pub struct TriggerGroup {
    pub id: UUID,
    pub parent_id: Option<UUID>,
    pub name: String,
    pub comment: Option<String>,
    pub children: Vec<TriggerGroupDescendant>,
    pub created_at: Timestamp,
    pub updated_at: Timestamp,
}

pub struct GroupView {
    pub id: Seq<char>,
    pub parent_id: Option<Seq<char>>,
    pub name: Seq<char>,
    pub comment: Option<Seq<char>>,
    pub children: Seq<DescendantView>,
    pub created_at: Timestamp,
    pub updated_at: Timestamp,
}

impl View for TriggerGroup {
    type V = GroupView;

    open spec fn view(&self) -> GroupView {
        GroupView {
            id: self.id@,
            parent_id: opt_id_view(self.parent_id),
            name: self.name@,
            comment: opt_view(self.comment),
            children: descendants_view(self.children@),
            created_at: self.created_at,
            updated_at: self.updated_at,
        }
    }
}

impl Keyed for TriggerGroup {
    open spec fn key(&self) -> Seq<char> {
        self.id@
    }

    fn key_str(&self) -> (res: &str) {
        self.id.as_str()
    }
}

impl Clone for TriggerGroup {
    fn clone(&self) -> (res: Self)
        ensures
            res@ == self@,
    {
        TriggerGroup {
            id: self.id.clone(),
            parent_id: clone_opt_uuid(&self.parent_id),
            name: self.name.clone(),
            comment: clone_opt_string(&self.comment),
            children: clone_descendants(&self.children),
            created_at: self.created_at,
            updated_at: self.updated_at,
        }
    }
}

} // verus!
