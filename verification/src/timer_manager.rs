//! The running timers and what the commands to the timer manager do to
//! them. The manager's task keeps, beside each entry here, the clock and the
//! effects of the timer; the decisions are made here.
use vstd::prelude::*;
use crate::common::UUID;
use crate::effects::{TimerStartPolicy, StartPolicyView};
use crate::keyed::{Keyed, keyed_map, keys_unique, lemma_keyed_lookup, upsert, remove_keyed, find_keyed};
use crate::matchers::MatchContext;
use crate::references::rendered;
use crate::text::str_eq;

verus! {

/// A running timer: its id, the trigger that started it, its rendered name
/// and whether it is hidden.
#[derive(Debug)]
pub struct TimerEntry {
    pub id: UUID,
    pub trigger_id: UUID,
    pub name: String,
    pub is_hidden: bool,
}

pub struct TimerEntryView {
    pub id: Seq<char>,
    pub trigger_id: Seq<char>,
    pub name: Seq<char>,
    pub is_hidden: bool,
}

impl View for TimerEntry {
    type V = TimerEntryView;

    open spec fn view(&self) -> TimerEntryView {
        TimerEntryView { id: self.id@, trigger_id: self.trigger_id@, name: self.name@, is_hidden: self.is_hidden }
    }
}

impl Keyed for TimerEntry {
    open spec fn key(&self) -> Seq<char> {
        self.id@
    }

    fn key_str(&self) -> (res: &str) {
        self.id.as_str()
    }
}

impl Clone for TimerEntry {
    fn clone(&self) -> (res: Self)
        ensures
            res == *self,
    {
        TimerEntry { id: self.id.clone(), trigger_id: self.trigger_id.clone(), name: self.name.clone(), is_hidden: self.is_hidden }
    }
}

/// The running timers, by id.
#[derive(Debug)]
pub struct TimerRegistry {
    pub timers: Vec<TimerEntry>,
}

impl View for TimerRegistry {
    type V = Map<Seq<char>, TimerEntryView>;

    open spec fn view(&self) -> Map<Seq<char>, TimerEntryView> {
        keyed_map(self.timers@)
    }
}

/// Whether starting a timer of trigger `trigger` replaces the running timer
/// `e`: all the trigger's timers when `name` is `None`, else those named
/// `name`.
pub open spec fn replaced(e: TimerEntryView, trigger: Seq<char>, name: Option<Seq<char>>) -> bool {
    e.trigger_id == trigger && match name {
        Some(n) => e.name == n,
        None => true,
    }
}

/// The timers of `m` that a start replacing `(trigger, name)` leaves.
pub open spec fn spared(m: Map<Seq<char>, TimerEntryView>, trigger: Seq<char>, name: Option<Seq<char>>) -> Map<Seq<char>, TimerEntryView> {
    Map::new(|k: Seq<char>| m.contains_key(k) && !replaced(m[k], trigger, name), |k: Seq<char>| m[k])
}

/// `killed` lists, once each, exactly the timers of `m` that a start
/// replacing `(trigger, name)` ends.
pub open spec fn kills(m: Map<Seq<char>, TimerEntryView>, trigger: Seq<char>, name: Option<Seq<char>>, killed: Seq<Seq<char>>) -> bool {
    &&& forall|j: int| 0 <= j < killed.len() ==> m.contains_key(#[trigger] killed[j]) && replaced(m[killed[j]], trigger, name)
    &&& forall|k: Seq<char>| m.contains_key(k) && replaced(m[k], trigger, name) ==> killed.contains(k)
    &&& forall|a: int, b: int| 0 <= a < b < killed.len() ==> killed[a] != killed[b]
}

/// Whether a running timer of `m` is named `name`.
pub open spec fn running_with_name(m: Map<Seq<char>, TimerEntryView>, name: Seq<char>) -> bool {
    exists|k: Seq<char>| m.contains_key(k) && (#[trigger] m[k]).name == name
}

/// Whether a timer of a name runs depends on the names of the running
/// timers alone: a running timer of that name, hidden or not, makes it so,
/// and hiding or showing a timer does not change it.
pub proof fn lemma_running_with_name(m: Map<Seq<char>, TimerEntryView>, k: Seq<char>, n: Seq<char>, hidden: bool)
    ensures
        m.contains_key(k) && m[k].name == n ==> running_with_name(m, n),
        (forall|j: Seq<char>| m.contains_key(j) ==> (#[trigger] m[j]).name != n) ==> !running_with_name(m, n),
        m.contains_key(k) ==> running_with_name(m.insert(k, TimerEntryView { is_hidden: hidden, ..m[k] }), n) == running_with_name(m, n),
{
    if m.contains_key(k) {
        let m2 = m.insert(k, TimerEntryView { is_hidden: hidden, ..m[k] });
        if running_with_name(m, n) {
            let j = choose|j: Seq<char>| m.contains_key(j) && (#[trigger] m[j]).name == n;
            assert(m2.contains_key(j) && m2[j].name == n);
        }
        if running_with_name(m2, n) {
            let j = choose|j: Seq<char>| m2.contains_key(j) && (#[trigger] m2[j]).name == n;
            assert(m.contains_key(j) && m[j].name == n);
        }
        if m[k].name == n {
            assert(m.contains_key(k) && m[k].name == n);
        }
    }
}

/// What a start command came to.
#[derive(Debug)]
pub enum BeginOutcome {
    /// The timer started; the listed timers were ended in its favour.
    Started(Vec<UUID>),
    /// A timer of the same name runs: this one is not started, and nothing
    /// changed.
    NotStarted,
}

pub open spec fn ids_view(v: Seq<UUID>) -> Seq<Seq<char>> {
    Seq::new(v.len(), |i: int| v[i]@)
}

impl TimerRegistry {
    pub open spec fn wf(&self) -> bool {
        keys_unique(self.timers@)
    }

    pub fn new() -> (res: TimerRegistry)
        ensures
            res.wf(),
            res@ == Map::<Seq<char>, TimerEntryView>::empty(),
    {
        TimerRegistry { timers: Vec::new() }
    }

    /// Whether a running timer is named `name`.
    pub fn is_timer_running_with_name(&self, name: &str) -> (res: bool)
        requires
            self.wf(),
        ensures
            res == running_with_name(self@, name@),
    {
        let mut i: usize = 0;
        while i < self.timers.len()
            invariant
                self.wf(),
                i <= self.timers@.len(),
                forall|j: int| 0 <= j < i ==> (#[trigger] self.timers@[j]).name@ != name@,
            decreases self.timers@.len() - i,
        {
            if str_eq(self.timers[i].name.as_str(), name) {
                proof {
                    lemma_keyed_lookup(self.timers@, self.timers@[i as int].key());
                    assert(self@.contains_key(self.timers@[i as int].key()));
                }
                return true;
            }
            i = i + 1;
        }
        proof {
            assert forall|k: Seq<char>| self@.contains_key(k) implies (#[trigger] self@[k]).name != name@ by {
                lemma_keyed_lookup(self.timers@, k);
                let j = choose|j: int| 0 <= j < self.timers@.len() && (#[trigger] self.timers@[j]).key() == k;
                assert(self.timers@[j].name@ != name@);
            }
        }
        false
    }

    /// Ends the timers of trigger `trigger` (all, or those named `name`) and
    /// gives their ids.
    pub fn kill_timers_of_trigger(&mut self, trigger: &UUID, name: Option<&str>) -> (killed: Vec<UUID>)
        requires
            old(self).wf(),
        ensures
            final(self).wf(),
            final(self)@ == spared(old(self)@, trigger@, match name { Some(n) => Some(n@), None => None }),
            kills(old(self)@, trigger@, match name { Some(n) => Some(n@), None => None }, ids_view(killed@)),
    {
        let ghost nm: Option<Seq<char>> = match name { Some(n) => Some(n@), None => None };
        let ghost old_timers = self.timers@;
        let mut kept: Vec<TimerEntry> = Vec::new();
        let mut killed: Vec<UUID> = Vec::new();
        let ghost mut kpos: Seq<int> = Seq::empty();
        let ghost mut vpos: Seq<int> = Seq::empty();
        let mut i: usize = 0;
        while i < self.timers.len()
            invariant
                self.timers@ == old_timers,
                nm == match name { Some(n) => Some(n@), None => None::<Seq<char>> },
                keys_unique(old_timers),
                i <= old_timers.len(),
                kpos.len() == kept@.len(),
                vpos.len() == killed@.len(),
                forall|j: int| 0 <= j < kept@.len() ==> 0 <= #[trigger] kpos[j] < i && kept@[j] == old_timers[kpos[j]],
                forall|j: int| 0 <= j < killed@.len() ==> 0 <= #[trigger] vpos[j] < i && killed@[j] == old_timers[vpos[j]].id,
                forall|a: int, b: int| 0 <= a < b < kpos.len() ==> #[trigger] kpos[a] < #[trigger] kpos[b],
                forall|a: int, b: int| 0 <= a < b < vpos.len() ==> #[trigger] vpos[a] < #[trigger] vpos[b],
                forall|j: int| 0 <= j < kept@.len() ==> !replaced((#[trigger] kept@[j])@, trigger@, nm),
                forall|j: int| 0 <= j < killed@.len() ==> replaced(old_timers[#[trigger] vpos[j]]@, trigger@, nm),
                forall|p: int| 0 <= p < i && !replaced((#[trigger] old_timers[p])@, trigger@, nm) ==> exists|j: int| 0 <= j < kpos.len() && kpos[j] == p,
                forall|p: int| 0 <= p < i && replaced((#[trigger] old_timers[p])@, trigger@, nm) ==> exists|j: int| 0 <= j < vpos.len() && vpos[j] == p,
            decreases old_timers.len() - i,
        {
            let t = &self.timers[i];
            let same_trigger = str_eq(t.trigger_id.as_str(), trigger.as_str());
            let same_name = match name {
                Some(n) => str_eq(t.name.as_str(), n),
                None => true,
            };
            let hit = same_trigger && same_name;
            assert(hit == replaced(old_timers[i as int]@, trigger@, nm));
            if hit {
                killed.push(t.id.clone());
                proof {
                    let ghost vpos0 = vpos;
                    vpos = vpos.push(i as int);
                    assert forall|p: int| 0 <= p < i + 1 && replaced((#[trigger] old_timers[p])@, trigger@, nm) implies exists|j: int| 0 <= j < vpos.len() && vpos[j] == p by {
                        if p == i {
                            assert(vpos[vpos.len() - 1] == p);
                        } else {
                            let j = choose|j: int| 0 <= j < vpos0.len() && vpos0[j] == p;
                            assert(vpos[j] == p);
                        }
                    }
                    assert forall|p: int| 0 <= p < i + 1 && !replaced((#[trigger] old_timers[p])@, trigger@, nm) implies exists|j: int| 0 <= j < kpos.len() && kpos[j] == p by {
                        assert(p != i);
                    }
                }
            } else {
                kept.push(t.clone());
                proof {
                    let ghost kpos0 = kpos;
                    kpos = kpos.push(i as int);
                    assert forall|p: int| 0 <= p < i + 1 && !replaced((#[trigger] old_timers[p])@, trigger@, nm) implies exists|j: int| 0 <= j < kpos.len() && kpos[j] == p by {
                        if p == i {
                            assert(kpos[kpos.len() - 1] == p);
                        } else {
                            let j = choose|j: int| 0 <= j < kpos0.len() && kpos0[j] == p;
                            assert(kpos[j] == p);
                        }
                    }
                    assert forall|p: int| 0 <= p < i + 1 && replaced((#[trigger] old_timers[p])@, trigger@, nm) implies exists|j: int| 0 <= j < vpos.len() && vpos[j] == p by {
                        assert(p != i);
                    }
                }
            }
            i = i + 1;
        }
        proof {
            let m = keyed_map(old_timers);
            assert(keys_unique(kept@)) by {
                assert forall|a: int, b: int| 0 <= a < b < kept@.len() implies (#[trigger] kept@[a]).key() != (#[trigger] kept@[b]).key() by {
                    assert(kpos[a] < kpos[b]);
                }
            }
            assert forall|k: Seq<char>| #[trigger] keyed_map(kept@).contains_key(k) <==> spared(m, trigger@, nm).contains_key(k) by {
                lemma_keyed_lookup(kept@, k);
                lemma_keyed_lookup(old_timers, k);
                if keyed_map(kept@).contains_key(k) {
                    let j = choose|j: int| 0 <= j < kept@.len() && (#[trigger] kept@[j]).key() == k;
                    assert(old_timers[kpos[j]].key() == k);
                    assert(m[k] == old_timers[kpos[j]]@);
                }
                if spared(m, trigger@, nm).contains_key(k) {
                    let p = choose|p: int| 0 <= p < old_timers.len() && (#[trigger] old_timers[p]).key() == k;
                    assert(m[k] == old_timers[p]@);
                    let j = choose|j: int| 0 <= j < kpos.len() && kpos[j] == p;
                    assert(kept@[j].key() == k);
                }
            }
            assert forall|k: Seq<char>| #[trigger] keyed_map(kept@).contains_key(k) implies keyed_map(kept@)[k] == spared(m, trigger@, nm)[k] by {
                lemma_keyed_lookup(kept@, k);
                lemma_keyed_lookup(old_timers, k);
                let j = choose|j: int| 0 <= j < kept@.len() && (#[trigger] kept@[j]).key() == k;
                assert(old_timers[kpos[j]].key() == k);
            }
            assert(keyed_map(kept@) =~= spared(m, trigger@, nm));
            let kv = ids_view(killed@);
            assert forall|j: int| 0 <= j < kv.len() implies m.contains_key(#[trigger] kv[j]) && replaced(m[kv[j]], trigger@, nm) by {
                lemma_keyed_lookup(old_timers, kv[j]);
                assert(old_timers[vpos[j]].key() == kv[j]);
            }
            assert forall|k: Seq<char>| m.contains_key(k) && replaced(m[k], trigger@, nm) implies kv.contains(k) by {
                lemma_keyed_lookup(old_timers, k);
                let p = choose|p: int| 0 <= p < old_timers.len() && (#[trigger] old_timers[p]).key() == k;
                assert(m[k] == old_timers[p]@);
                let j = choose|j: int| 0 <= j < vpos.len() && vpos[j] == p;
                assert(kv[j] == k);
            }
            assert forall|a: int, b: int| 0 <= a < b < kv.len() implies kv[a] != kv[b] by {
                assert(vpos[a] < vpos[b]);
                assert(old_timers[vpos[a]].key() != old_timers[vpos[b]].key());
            }
        }
        self.timers = kept;
        killed
    }

    /// Takes in the start of `entry`, a timer of the trigger `entry.trigger_id`
    /// with start policy `policy`, started by a match with context
    /// `context`: what the policy ends goes first, then the timer is added.
    /// A timer that must not start while one of its name runs is not
    /// started, with nothing changed.
    pub fn begin(&mut self, entry: TimerEntry, policy: &TimerStartPolicy, context: &MatchContext) -> (res: BeginOutcome)
        requires
            old(self).wf(),
            context.wf(),
        ensures
            final(self).wf(),
            match policy@ {
                StartPolicyView::DoNothingIfTimerRunning => if running_with_name(old(self)@, entry.name@) {
                    res is NotStarted && final(self)@ == old(self)@
                } else {
                    res matches BeginOutcome::Started(k) && k@.len() == 0 && final(self)@ == old(self)@.insert(entry.id@, entry@)
                },
                StartPolicyView::AlwaysStartNewTimer =>
                    res matches BeginOutcome::Started(k) && k@.len() == 0 && final(self)@ == old(self)@.insert(entry.id@, entry@),
                StartPolicyView::StartAndReplacesAllTimersOfTrigger =>
                    res matches BeginOutcome::Started(k) && kills(old(self)@, entry.trigger_id@, None, ids_view(k@))
                    && final(self)@ == spared(old(self)@, entry.trigger_id@, None).insert(entry.id@, entry@),
                StartPolicyView::StartAndReplacesAnyTimerOfTriggerWithNameTemplateMatching(t) => {
                    let n = rendered(t, context@);
                    res matches BeginOutcome::Started(k) && kills(old(self)@, entry.trigger_id@, Some(n), ids_view(k@))
                    && final(self)@ == spared(old(self)@, entry.trigger_id@, Some(n)).insert(entry.id@, entry@)
                },
            },
    {
        let killed: Vec<UUID> = match policy {
            TimerStartPolicy::AlwaysStartNewTimer => Vec::new(),
            TimerStartPolicy::DoNothingIfTimerRunning => {
                if self.is_timer_running_with_name(entry.name.as_str()) {
                    return BeginOutcome::NotStarted;
                }
                Vec::new()
            },
            TimerStartPolicy::StartAndReplacesAllTimersOfTrigger => {
                self.kill_timers_of_trigger(&entry.trigger_id, None)
            },
            TimerStartPolicy::StartAndReplacesAnyTimerOfTriggerWithNameTemplateMatching(t) => {
                let n = t.render(context);
                self.kill_timers_of_trigger(&entry.trigger_id, Some(n.as_str()))
            },
        };
        let _ = upsert(&mut self.timers, entry);
        BeginOutcome::Started(killed)
    }

    /// Ends the timer `id`; `false` when it was not running.
    pub fn terminate(&mut self, id: &str) -> (found: bool)
        requires
            old(self).wf(),
        ensures
            final(self).wf(),
            found == old(self)@.contains_key(id@),
            final(self)@ == old(self)@.remove(id@),
    {
        remove_keyed(&mut self.timers, id).is_some()
    }

    /// Whether the timer `id` runs (a restart only acts on one that does).
    pub fn is_running(&self, id: &str) -> (res: bool)
        requires
            self.wf(),
        ensures
            res == self@.contains_key(id@),
    {
        proof {
            lemma_keyed_lookup(self.timers@, id@);
        }
        find_keyed(&self.timers, id).is_some()
    }

    /// Hides or shows the timer `id`; `true` when that changed something.
    pub fn set_hidden(&mut self, id: &str, is_hidden: bool) -> (changed: bool)
        requires
            old(self).wf(),
        ensures
            final(self).wf(),
            changed == (old(self)@.contains_key(id@) && old(self)@[id@].is_hidden != is_hidden),
            changed ==> final(self)@ == old(self)@.insert(id@, TimerEntryView { is_hidden, ..old(self)@[id@] }),
            !changed ==> final(self)@ == old(self)@,
    {
        proof {
            lemma_keyed_lookup(self.timers@, id@);
        }
        match find_keyed(&self.timers, id) {
            Some(i) => {
                if self.timers[i].is_hidden != is_hidden {
                    let mut e = self.timers[i].clone();
                    e.is_hidden = is_hidden;
                    let _ = upsert(&mut self.timers, e);
                    true
                } else {
                    false
                }
            },
            None => false,
        }
    }
}

/// A timer that was started runs until it is ended: it is in the registry
/// after its start, whatever the start ended, and not after its end.
pub proof fn lemma_started_timer_runs(m: Map<Seq<char>, TimerEntryView>, e: TimerEntryView, trigger: Seq<char>, name: Option<Seq<char>>)
    ensures
        m.insert(e.id, e).contains_key(e.id),
        spared(m, trigger, name).insert(e.id, e).contains_key(e.id),
        spared(m, trigger, name).insert(e.id, e)[e.id] == e,
        !m.insert(e.id, e).remove(e.id).contains_key(e.id),
{
}

/// A start that replaces the timers of its trigger leaves none of them
/// running but itself, and keeps every timer of other triggers.
pub proof fn lemma_replacing_start_spares_others(m: Map<Seq<char>, TimerEntryView>, trigger: Seq<char>, name: Option<Seq<char>>, k: Seq<char>)
    ensures
        spared(m, trigger, name).contains_key(k) ==> !replaced(spared(m, trigger, name)[k], trigger, name),
        m.contains_key(k) && m[k].trigger_id != trigger ==> spared(m, trigger, name).contains_key(k) && spared(m, trigger, name)[k] == m[k],
{
}

/// Hiding a timer twice changes something the first time at most.
pub proof fn lemma_hide_twice(m: Map<Seq<char>, TimerEntryView>, id: Seq<char>, is_hidden: bool)
    requires
        m.contains_key(id),
    ensures
        ({
            let m2 = m.insert(id, TimerEntryView { is_hidden, ..m[id] });
            m2.contains_key(id) && m2[id].is_hidden == is_hidden
        }),
{
}

} // verus!
