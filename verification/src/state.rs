//! The live state of the application beside its configuration and its
//! triggers: who is playing, which trigger tags are on, and the overlay.
use vstd::prelude::*;
use crate::common::UUID;
use crate::gina_regex::UnreadableNumber;
use crate::logs::Character;
use crate::matchers::{MatchContext, MatchContextView, filter_check, filter_defined};
use crate::trigger_index::{TriggerIndex, IndexView, tagged_by_any, ids_view};
use crate::triggers::Trigger;
use crate::text::str_eq;

verus! {

/// The overlay's opacity when the application starts, in percent.
pub const DEFAULT_OVERLAY_OPACITY: u8 = 75;

/// How the overlay is shown.
#[derive(Debug, Clone, Copy, PartialEq, Eq, Structural)]
pub enum OverlayMode {
    /// A transparent, frameless, click-through window over the whole screen.
    Default,
    /// An ordinary window.
    Windowed,
    /// No overlay window at all.
    NoOverlay,
}

/// The overlay's settings.
#[derive(Debug, Clone, Copy, PartialEq, Eq, Structural)]
pub struct OverlayState {
    pub overlay_editable: bool,
    /// In percent: 0 to 100.
    pub overlay_opacity: u8,
    pub overlay_mode: OverlayMode,
    pub auto_open_dev_tools: bool,
}

impl OverlayState {
    /// The overlay as the application starts: not editable, at the default
    /// opacity.
    pub fn new(overlay_mode: OverlayMode, auto_open_dev_tools: bool) -> (res: OverlayState)
        ensures
            res == (OverlayState { overlay_editable: false, overlay_opacity: DEFAULT_OVERLAY_OPACITY, overlay_mode, auto_open_dev_tools }),
    {
        OverlayState { overlay_editable: false, overlay_opacity: DEFAULT_OVERLAY_OPACITY, overlay_mode, auto_open_dev_tools }
    }
}

/// What the reactor knows: the active character and the trigger tags that
/// are switched on (each once).
#[derive(Debug)]
pub struct ReactorState {
    pub current_character: Option<Character>,
    pub active_trigger_tags: Vec<UUID>,
}

pub open spec fn tag_set(v: Seq<UUID>) -> Set<Seq<char>> {
    ids_view(v).to_set()
}

/// Whether the trigger `id` of the index is tagged by one of the tags `tags`.
pub open spec fn sets_off(index: IndexView, tags: Seq<Seq<char>>, id: Seq<char>) -> bool {
    index.triggers.contains_key(id) && tagged_by_any(index.tags, tags, id)
}

/// The position of `id` in `ids`.
fn position_of(ids: &Vec<UUID>, id: &UUID) -> (r: Option<usize>)
    ensures
        r matches Some(k) ==> k < ids@.len() && ids@[k as int]@ == id@,
        r is None ==> forall|j: int| 0 <= j < ids@.len() ==> ids@[j]@ != id@,
{
    let mut i: usize = 0;
    while i < ids.len()
        invariant
            i <= ids@.len(),
            forall|j: int| 0 <= j < i ==> ids@[j]@ != id@,
        decreases ids@.len() - i,
    {
        if str_eq(ids[i].as_str(), id.as_str()) {
            return Some(i);
        }
        i = i + 1;
    }
    None
}

impl ReactorState {
    pub open spec fn wf(&self) -> bool {
        ids_view(self.active_trigger_tags@).no_duplicates()
    }

    /// No character yet, and no tag on.
    pub fn new() -> (res: ReactorState)
        ensures
            res.wf(),
            res.current_character is None,
            res.active_trigger_tags@.len() == 0,
    {
        let res = ReactorState { current_character: None, active_trigger_tags: Vec::new() };
        assert(ids_view(res.active_trigger_tags@) =~= Seq::<Seq<char>>::empty());
        res
    }

    /// Switches the trigger tag `id` on or off, and gives the tags that are
    /// on then.
    pub fn set_trigger_tag_activated(&mut self, id: UUID, activated: bool) -> (res: Vec<UUID>)
        requires
            old(self).wf(),
        ensures
            final(self).wf(),
            tag_set(final(self).active_trigger_tags@) == if activated {
                tag_set(old(self).active_trigger_tags@).insert(id@)
            } else {
                tag_set(old(self).active_trigger_tags@).remove(id@)
            },
            ids_view(res@) == ids_view(final(self).active_trigger_tags@),
            final(self).current_character == old(self).current_character,
    {
        let ghost before = ids_view(self.active_trigger_tags@);
        let found = position_of(&self.active_trigger_tags, &id);
        match found {
            Some(k) => {
                assert(before[k as int] == id@);
                if !activated {
                    self.active_trigger_tags.remove(k);
                    proof {
                        let after = ids_view(self.active_trigger_tags@);
                        assert(after =~= before.remove(k as int));
                        assert forall|x: Seq<char>| #[trigger] after.to_set().contains(x) <==> before.to_set().remove(id@).contains(x) by {
                            if after.to_set().contains(x) {
                                let j = choose|j: int| 0 <= j < after.len() && after[j] == x;
                                if j < k {
                                    assert(before[j] == x);
                                } else {
                                    assert(before[j + 1] == x);
                                }
                            }
                            if before.to_set().remove(id@).contains(x) {
                                let j = choose|j: int| 0 <= j < before.len() && before[j] == x;
                                assert(j != k);
                                if j < k {
                                    assert(after[j] == x);
                                } else {
                                    assert(after[j - 1] == x);
                                }
                            }
                        }
                        assert(after.to_set() =~= before.to_set().remove(id@));
                    }
                } else {
                    assert(before.to_set().insert(id@) =~= before.to_set());
                }
            },
            None => {
                if activated {
                    self.active_trigger_tags.push(id);
                    proof {
                        let after = ids_view(self.active_trigger_tags@);
                        assert(after =~= before.push(id@));
                        assert(after.to_set() =~= before.to_set().insert(id@)) by {
                            assert forall|x: Seq<char>| #[trigger] after.to_set().contains(x) <==> before.to_set().insert(id@).contains(x) by {
                                if after.to_set().contains(x) && x != id@ {
                                    let j = choose|j: int| 0 <= j < after.len() && after[j] == x;
                                    assert(before[j] == x);
                                }
                                if before.to_set().contains(x) {
                                    let j = choose|j: int| 0 <= j < before.len() && before[j] == x;
                                    assert(after[j] == x);
                                }
                                if x == id@ {
                                    assert(after[after.len() - 1] == x);
                                }
                            }
                        }
                    }
                } else {
                    assert(before.to_set().remove(id@) =~= before.to_set());
                }
            },
        }
        let mut res: Vec<UUID> = Vec::new();
        let mut j: usize = 0;
        while j < self.active_trigger_tags.len()
            invariant
                j <= self.active_trigger_tags@.len(),
                res@.len() == j,
                forall|k: int| 0 <= k < j ==> res@[k] == self.active_trigger_tags@[k],
            decreases self.active_trigger_tags@.len() - j,
        {
            res.push(self.active_trigger_tags[j].clone());
            j = j + 1;
        }
        assert(ids_view(res@) =~= ids_view(self.active_trigger_tags@));
        res
    }

    /// The triggers that the log line `content` sets off, each with the
    /// context of its match: those tagged by an active tag whose filter
    /// matches the line for the active character. Nothing is set off while
    /// no character is active. A numeric condition that cannot be read
    /// stops it with an error.
    pub fn react_to_line<'a>(&self, index: &'a TriggerIndex, content: &str) -> (res: Result<Vec<(&'a Trigger, MatchContext)>, UnreadableNumber>)
        requires
            index.wf(),
            forall|i: int| 0 <= i < index.triggers@.len() ==> (#[trigger] index.triggers@[i]).filter.wf(),
        ensures
            self.current_character is None ==> (res matches Ok(v) && v@.len() == 0),
            self.current_character matches Some(c) ==> (res is Err <==> exists|id: Seq<char>|
                #[trigger] sets_off(index@, ids_view(self.active_trigger_tags@), id) && !filter_defined(index@.triggers[id].filter, content@, c.name@, 0)),
            self.current_character matches Some(c) ==> (res matches Ok(v) ==> forall|j: int| 0 <= j < v@.len() ==> {
                let (t, m) = #[trigger] v@[j];
                &&& sets_off(index@, ids_view(self.active_trigger_tags@), t@.id) && index@.triggers[t@.id] == t@
                &&& m.wf()
                &&& filter_check(t@.filter, content@, c.name@, 0) == Some(m@)
            }),
            self.current_character matches Some(c) ==> (res matches Ok(v) ==> forall|id: Seq<char>|
                #[trigger] sets_off(index@, ids_view(self.active_trigger_tags@), id) && filter_check(index@.triggers[id].filter, content@, c.name@, 0) is Some
                ==> exists|j: int| 0 <= j < v@.len() && (#[trigger] v@[j]).0@.id == id),
            res matches Ok(v) ==> forall|a: int, b: int| 0 <= a < b < v@.len() ==> (#[trigger] v@[a]).0@.id != (#[trigger] v@[b]).0@.id,
    {
        let character = match &self.current_character {
            Some(c) => c,
            None => return Ok(Vec::new()),
        };
        assert(self.current_character == Some(*character));
        let active = index.get_distinct_triggers_tagged_by_any_of(&self.active_trigger_tags);
        let ghost tags = ids_view(self.active_trigger_tags@);
        let mut res: Vec<(&'a Trigger, MatchContext)> = Vec::new();
        let ghost mut pos: Seq<int> = Seq::empty();
        let mut i: usize = 0;
        while i < active.len()
            invariant
                index.wf(),
                forall|k: int| 0 <= k < index.triggers@.len() ==> (#[trigger] index.triggers@[k]).filter.wf(),
                tags == ids_view(self.active_trigger_tags@),
                self.current_character == Some(*character),
                i <= active@.len(),
                forall|j: int| 0 <= j < active@.len() ==> index@.triggers.contains_key((#[trigger] active@[j])@.id) && index@.triggers[active@[j]@.id] == active@[j]@,
                forall|j: int| 0 <= j < active@.len() ==> index.triggers@.contains(*(#[trigger] active@[j])),
                forall|j: int| 0 <= j < active@.len() ==> tagged_by_any(index@.tags, tags, (#[trigger] active@[j])@.id),
                forall|a: int, b: int| 0 <= a < b < active@.len() ==> (#[trigger] active@[a])@.id != (#[trigger] active@[b])@.id,
                forall|j: int| 0 <= j < i ==> filter_defined((#[trigger] active@[j])@.filter, content@, character.name@, 0),
                pos.len() == res@.len(),
                forall|j: int| 0 <= j < res@.len() ==> 0 <= #[trigger] pos[j] < i && res@[j].0 == active@[pos[j]],
                forall|a: int, b: int| 0 <= a < b < pos.len() ==> #[trigger] pos[a] < #[trigger] pos[b],
                forall|j: int| 0 <= j < res@.len() ==> {
                    let (t, m) = #[trigger] res@[j];
                    m.wf() && filter_check(t@.filter, content@, character.name@, 0) == Some(m@)
                },
                forall|p: int| 0 <= p < i && filter_check((#[trigger] active@[p])@.filter, content@, character.name@, 0) is Some
                    ==> exists|j: int| 0 <= j < pos.len() && pos[j] == p,
            decreases active@.len() - i,
        {
            let t: &'a Trigger = active[i];
            proof {
                assert(index.triggers@.contains(*active@[i as int]));
                let k = choose|k: int| 0 <= k < index.triggers@.len() && index.triggers@[k] == *active@[i as int];
                assert(index.triggers@[k].filter.wf());
            }
            match t.filter.checked(content, character.name.as_str()) {
                Err(e) => {
                    assert(sets_off(index@, tags, t@.id));
                    assert(!filter_defined(index@.triggers[t@.id].filter, content@, character.name@, 0));
                    return Err(e);
                },
                Ok(Some(m)) => {
                    res.push((t, m));
                    proof {
                        let pos0 = pos;
                        pos = pos.push(i as int);
                        assert forall|p: int| 0 <= p < i + 1 && filter_check((#[trigger] active@[p])@.filter, content@, character.name@, 0) is Some
                            implies exists|j: int| 0 <= j < pos.len() && pos[j] == p by {
                            if p == i {
                                assert(pos[pos.len() - 1] == p);
                            } else {
                                let j = choose|j: int| 0 <= j < pos0.len() && pos0[j] == p;
                                assert(pos[j] == p);
                            }
                        }
                    }
                },
                Ok(None) => {},
            }
            i = i + 1;
        }
        proof {
            assert forall|j: int| 0 <= j < res@.len() implies {
                let (t, m) = #[trigger] res@[j];
                &&& sets_off(index@, tags, t@.id) && index@.triggers[t@.id] == t@
                &&& m.wf()
                &&& filter_check(t@.filter, content@, character.name@, 0) == Some(m@)
            } by {
                let p = pos[j];
                assert(res@[j].0 == active@[p]);
            }
            assert forall|id: Seq<char>| index@.triggers.contains_key(id) && tagged_by_any(index@.tags, tags, id)
                implies filter_defined(index@.triggers[id].filter, content@, character.name@, 0) by {
                let j = choose|j: int| 0 <= j < active@.len() && (#[trigger] active@[j])@.id == id;
                assert(filter_defined(active@[j]@.filter, content@, character.name@, 0));
            }
            assert forall|id: Seq<char>| index@.triggers.contains_key(id) && tagged_by_any(index@.tags, tags, id)
                && filter_check(index@.triggers[id].filter, content@, character.name@, 0) is Some
                implies exists|j: int| 0 <= j < res@.len() && (#[trigger] res@[j]).0@.id == id by {
                let p = choose|p: int| 0 <= p < active@.len() && (#[trigger] active@[p])@.id == id;
                let j = choose|j: int| 0 <= j < pos.len() && pos[j] == p;
                assert(res@[j].0@.id == id);
            }
            assert forall|a: int, b: int| 0 <= a < b < res@.len() implies (#[trigger] res@[a]).0@.id != (#[trigger] res@[b]).0@.id by {
                assert(pos[a] < pos[b]);
            }
        }
        Ok(res)
    }
}

/// Switching a tag on and then off leaves it off; switching it on twice is
/// switching it on once.
pub proof fn lemma_tag_on_then_off(tags: Set<Seq<char>>, id: Seq<char>)
    ensures
        !tags.insert(id).remove(id).contains(id),
        tags.insert(id).insert(id) == tags.insert(id),
        tags.insert(id).contains(id),
{
    assert(tags.insert(id).insert(id) =~= tags.insert(id));
}

} // verus!
