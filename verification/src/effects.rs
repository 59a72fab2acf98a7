//! What a trigger does when it fires: effects, timers and stopwatches.
use vstd::prelude::*;
use crate::command_template::{CommandTemplateSecurityCheck, SecurityCheckView, checked_approval, key_view};
use crate::common::{Duration, UUID, UUID_LEN, is_v4_uuid_text};
use crate::matchers::{FilterWithContext, MatcherWithContext};
use crate::security::MachineKey;
use crate::template::TemplateString;
use crate::text::{chars_of, string_of};

verus! {

/// A label on a running timer.
#[derive(Debug)]
pub struct TimerTag(pub String);

impl TimerTag {
    pub fn new(name: &str) -> (res: TimerTag)
        ensures
            res.0@ == name@,
    {
        TimerTag(string_of(&chars_of(name)))
    }

    /// The tag of a timer that has entered its "ending" state.
    pub fn ending() -> (res: TimerTag)
        ensures
            res.0@ == "ENDING"@,
    {
        TimerTag::new("ENDING")
    }
}

impl View for TimerTag {
    type V = Seq<char>;

    open spec fn view(&self) -> Seq<char> {
        self.0@
    }
}

impl Clone for TimerTag {
    fn clone(&self) -> (res: Self)
        ensures
            res == *self,
    {
        TimerTag(self.0.clone())
    }
}

/// What starting a timer does to the timers that the trigger already runs.
#[derive(Debug)]
pub enum TimerStartPolicy {
    AlwaysStartNewTimer,
    DoNothingIfTimerRunning,
    StartAndReplacesAllTimersOfTrigger,
    StartAndReplacesAnyTimerOfTriggerWithNameTemplateMatching(TemplateString),
}

pub enum StartPolicyView {
    AlwaysStartNewTimer,
    DoNothingIfTimerRunning,
    StartAndReplacesAllTimersOfTrigger,
    StartAndReplacesAnyTimerOfTriggerWithNameTemplateMatching(Seq<char>),
}

impl View for TimerStartPolicy {
    type V = StartPolicyView;

    open spec fn view(&self) -> StartPolicyView {
        match self {
            TimerStartPolicy::AlwaysStartNewTimer => StartPolicyView::AlwaysStartNewTimer,
            TimerStartPolicy::DoNothingIfTimerRunning => StartPolicyView::DoNothingIfTimerRunning,
            TimerStartPolicy::StartAndReplacesAllTimersOfTrigger => StartPolicyView::StartAndReplacesAllTimersOfTrigger,
            TimerStartPolicy::StartAndReplacesAnyTimerOfTriggerWithNameTemplateMatching(t) =>
                StartPolicyView::StartAndReplacesAnyTimerOfTriggerWithNameTemplateMatching(t@),
        }
    }
}

impl Clone for TimerStartPolicy {
    fn clone(&self) -> (res: Self)
        ensures
            res == *self,
    {
        match self {
            TimerStartPolicy::AlwaysStartNewTimer => TimerStartPolicy::AlwaysStartNewTimer,
            TimerStartPolicy::DoNothingIfTimerRunning => TimerStartPolicy::DoNothingIfTimerRunning,
            TimerStartPolicy::StartAndReplacesAllTimersOfTrigger => TimerStartPolicy::StartAndReplacesAllTimersOfTrigger,
            TimerStartPolicy::StartAndReplacesAnyTimerOfTriggerWithNameTemplateMatching(t) =>
                TimerStartPolicy::StartAndReplacesAnyTimerOfTriggerWithNameTemplateMatching(t.clone()),
        }
    }
}

/// An effect that only makes sense inside a timer: it acts on that timer.
#[derive(Debug)]
pub enum TimerEffect {
    ClearTimer,
    HideTimer,
    RestartTimer,
    UnhideTimer,
    WaitUntilFilterMatches(FilterWithContext, Option<Duration>),
    WaitUntilFinished,
    WaitUntilSecondsRemain(u32),
    AddTag(TimerTag),
    RemoveTag(TimerTag),
    WaitUntilTagged(TimerTag),
    IncrementCounter,
    DecrementCounter,
    ResetCounter,
}

pub enum TimerEffectView {
    ClearTimer,
    HideTimer,
    RestartTimer,
    UnhideTimer,
    WaitUntilFilterMatches(Seq<MatcherWithContext>, Option<Duration>),
    WaitUntilFinished,
    WaitUntilSecondsRemain(u32),
    AddTag(Seq<char>),
    RemoveTag(Seq<char>),
    WaitUntilTagged(Seq<char>),
    IncrementCounter,
    DecrementCounter,
    ResetCounter,
}

impl View for TimerEffect {
    type V = TimerEffectView;

    open spec fn view(&self) -> TimerEffectView {
        match self {
            TimerEffect::ClearTimer => TimerEffectView::ClearTimer,
            TimerEffect::HideTimer => TimerEffectView::HideTimer,
            TimerEffect::RestartTimer => TimerEffectView::RestartTimer,
            TimerEffect::UnhideTimer => TimerEffectView::UnhideTimer,
            TimerEffect::WaitUntilFilterMatches(f, d) => TimerEffectView::WaitUntilFilterMatches(f@, *d),
            TimerEffect::WaitUntilFinished => TimerEffectView::WaitUntilFinished,
            TimerEffect::WaitUntilSecondsRemain(s) => TimerEffectView::WaitUntilSecondsRemain(*s),
            TimerEffect::AddTag(t) => TimerEffectView::AddTag(t@),
            TimerEffect::RemoveTag(t) => TimerEffectView::RemoveTag(t@),
            TimerEffect::WaitUntilTagged(t) => TimerEffectView::WaitUntilTagged(t@),
            TimerEffect::IncrementCounter => TimerEffectView::IncrementCounter,
            TimerEffect::DecrementCounter => TimerEffectView::DecrementCounter,
            TimerEffect::ResetCounter => TimerEffectView::ResetCounter,
        }
    }
}

impl Clone for TimerEffect {
    fn clone(&self) -> (res: Self)
        ensures
            res@ == self@,
    {
        match self {
            TimerEffect::ClearTimer => TimerEffect::ClearTimer,
            TimerEffect::HideTimer => TimerEffect::HideTimer,
            TimerEffect::RestartTimer => TimerEffect::RestartTimer,
            TimerEffect::UnhideTimer => TimerEffect::UnhideTimer,
            TimerEffect::WaitUntilFilterMatches(f, d) => TimerEffect::WaitUntilFilterMatches(f.clone(), *d),
            TimerEffect::WaitUntilFinished => TimerEffect::WaitUntilFinished,
            TimerEffect::WaitUntilSecondsRemain(s) => TimerEffect::WaitUntilSecondsRemain(*s),
            TimerEffect::AddTag(t) => TimerEffect::AddTag(t.clone()),
            TimerEffect::RemoveTag(t) => TimerEffect::RemoveTag(t.clone()),
            TimerEffect::WaitUntilTagged(t) => TimerEffect::WaitUntilTagged(t.clone()),
            TimerEffect::IncrementCounter => TimerEffect::IncrementCounter,
            TimerEffect::DecrementCounter => TimerEffect::DecrementCounter,
            TimerEffect::ResetCounter => TimerEffect::ResetCounter,
        }
    }
}

/// A countdown that a trigger starts.
#[derive(Debug)]
pub struct Timer {
    pub trigger_id: UUID,
    pub name_tmpl: TemplateString,
    pub tags: Vec<TimerTag>,
    pub duration: Duration,
    pub start_policy: TimerStartPolicy,
    /// When finished, the timer starts over until it is terminated.
    pub repeats: bool,
    pub effects: Vec<EffectWithID>,
}

/// A count-up clock that a trigger starts.
#[derive(Debug)]
pub struct Stopwatch {
    pub name: TemplateString,
    pub tags: Vec<TimerTag>,
    pub effects: Vec<EffectWithID>,
}

#[derive(Debug)]
pub enum Effect {
    Parallel(Vec<EffectWithID>),
    Sequence(Vec<EffectWithID>),
    /// `None` when no sound file was chosen yet (GINA exports do not name one).
    PlayAudioFile(Option<TemplateString>),
    CopyToClipboard(TemplateString),
    OverlayMessage(TemplateString),
    StartTimer(Timer),
    StartStopwatch(Stopwatch),
    RunSystemCommand(CommandTemplateSecurityCheck),
    SpeakStop,
    Speak { tmpl: TemplateString, interrupt: bool },
    /// Only valid among a timer's effects.
    ScopedTimerEffect(TimerEffect),
    /// Meant for use within a sequence.
    Pause(Duration),
    /// A placeholder that does nothing.
    DoNothing,
}

/// An effect with its identifier.
#[derive(Debug)]
pub struct EffectWithID {
    pub id: UUID,
    pub inner: Effect,
}

pub open spec fn tags_view(v: Seq<TimerTag>) -> Seq<Seq<char>> {
    v.map_values(|t: TimerTag| t@)
}

pub struct TimerView {
    pub trigger_id: Seq<char>,
    pub name_tmpl: Seq<char>,
    pub tags: Seq<Seq<char>>,
    pub duration: Duration,
    pub start_policy: StartPolicyView,
    pub repeats: bool,
    pub effects: Seq<EffectWithIDView>,
}

pub struct StopwatchView {
    pub name: Seq<char>,
    pub tags: Seq<Seq<char>>,
    pub effects: Seq<EffectWithIDView>,
}

pub enum EffectView {
    Parallel(Seq<EffectWithIDView>),
    Sequence(Seq<EffectWithIDView>),
    PlayAudioFile(Option<Seq<char>>),
    CopyToClipboard(Seq<char>),
    OverlayMessage(Seq<char>),
    StartTimer(TimerView),
    StartStopwatch(StopwatchView),
    RunSystemCommand(SecurityCheckView),
    SpeakStop,
    Speak { tmpl: Seq<char>, interrupt: bool },
    ScopedTimerEffect(TimerEffectView),
    Pause(Duration),
    DoNothing,
}

pub struct EffectWithIDView {
    pub id: Seq<char>,
    pub inner: EffectView,
}

pub open spec fn effects_view(s: Seq<EffectWithID>) -> Seq<EffectWithIDView>
    decreases s,
{
    if s.len() == 0 {
        Seq::empty()
    } else {
        effects_view(s.drop_last()).push(ewid_view(s.last()))
    }
}

pub open spec fn ewid_view(e: EffectWithID) -> EffectWithIDView
    decreases e,
{
    EffectWithIDView { id: e.id@, inner: effect_view(e.inner) }
}

pub open spec fn effect_view(e: Effect) -> EffectView
    decreases e,
{
    match e {
        Effect::Parallel(v) => EffectView::Parallel(effects_view(v@)),
        Effect::Sequence(v) => EffectView::Sequence(effects_view(v@)),
        Effect::PlayAudioFile(t) => EffectView::PlayAudioFile(
            match t {
                Some(t) => Some(t@),
                None => None,
            },
        ),
        Effect::CopyToClipboard(t) => EffectView::CopyToClipboard(t@),
        Effect::OverlayMessage(t) => EffectView::OverlayMessage(t@),
        Effect::StartTimer(t) => EffectView::StartTimer(
            TimerView {
                trigger_id: t.trigger_id@,
                name_tmpl: t.name_tmpl@,
                tags: tags_view(t.tags@),
                duration: t.duration,
                start_policy: t.start_policy@,
                repeats: t.repeats,
                effects: effects_view(t.effects@),
            },
        ),
        Effect::StartStopwatch(s) => EffectView::StartStopwatch(
            StopwatchView { name: s.name@, tags: tags_view(s.tags@), effects: effects_view(s.effects@) },
        ),
        Effect::RunSystemCommand(c) => EffectView::RunSystemCommand(c@),
        Effect::SpeakStop => EffectView::SpeakStop,
        Effect::Speak { tmpl, interrupt } => EffectView::Speak { tmpl: tmpl@, interrupt },
        Effect::ScopedTimerEffect(t) => EffectView::ScopedTimerEffect(t@),
        Effect::Pause(d) => EffectView::Pause(d),
        Effect::DoNothing => EffectView::DoNothing,
    }
}

impl View for EffectWithID {
    type V = EffectWithIDView;

    open spec fn view(&self) -> EffectWithIDView {
        ewid_view(*self)
    }
}

impl View for Effect {
    type V = EffectView;

    open spec fn view(&self) -> EffectView {
        effect_view(*self)
    }
}

impl EffectWithID {
    /// `inner` with a fresh identifier.
    pub fn new(inner: Effect) -> (res: EffectWithID)
        ensures
            res.inner == inner,
            res.id@.len() == UUID_LEN,
            is_v4_uuid_text(res.id@),
    {
        EffectWithID { id: UUID::new(), inner }
    }
}

impl From<TimerEffect> for Effect {
    fn from(timer_effect: TimerEffect) -> (res: Self) {
        Effect::ScopedTimerEffect(timer_effect)
    }
}

impl vstd::std_specs::convert::FromSpecImpl<TimerEffect> for Effect {
    open spec fn obeys_from_spec() -> bool {
        true
    }

    open spec fn from_spec(timer_effect: TimerEffect) -> Self {
        Effect::ScopedTimerEffect(timer_effect)
    }
}

// ---------------------------------------------------------------------------
// Copies
// ---------------------------------------------------------------------------

fn clone_tags(v: &Vec<TimerTag>) -> (res: Vec<TimerTag>)
    ensures
        res@ == v@,
{
    let mut res: Vec<TimerTag> = Vec::new();
    let mut i: usize = 0;
    while i < v.len()
        invariant
            i <= v@.len(),
            res@ == v@.take(i as int),
        decreases v@.len() - i,
    {
        res.push(v[i].clone());
        assert(v@.take(i + 1) == v@.take(i as int).push(v@[i as int]));
        i = i + 1;
    }
    assert(v@.take(i as int) == v@);
    res
}

pub fn clone_effect_list(v: &Vec<EffectWithID>) -> (res: Vec<EffectWithID>)
    ensures
        effects_view(res@) == effects_view(v@),
    decreases v, 1nat,
{
    let mut res: Vec<EffectWithID> = Vec::new();
    let mut i: usize = 0;
    while i < v.len()
        invariant
            i <= v@.len(),
            effects_view(res@) == effects_view(v@.take(i as int)),
        decreases v@.len() - i,
    {
        proof {
            vstd::std_specs::vec::axiom_vec_index_decreases(*v, i as int);
        }
        let e = clone_ewid(&v[i]);
        let ghost before = res@;
        res.push(e);
        assert(res@.drop_last() =~= before);
        assert(v@.take(i + 1).drop_last() =~= v@.take(i as int));
        i = i + 1;
    }
    assert(v@.take(i as int) =~= v@);
    res
}

fn clone_ewid(e: &EffectWithID) -> (res: EffectWithID)
    ensures
        ewid_view(res) == ewid_view(*e),
    decreases e, 2nat,
{
    EffectWithID { id: e.id.clone(), inner: clone_effect(&e.inner) }
}

fn clone_effect(e: &Effect) -> (res: Effect)
    ensures
        effect_view(res) == effect_view(*e),
    decreases e, 0nat,
{
    match e {
        Effect::Parallel(v) => Effect::Parallel(clone_effect_list(v)),
        Effect::Sequence(v) => Effect::Sequence(clone_effect_list(v)),
        Effect::PlayAudioFile(t) => Effect::PlayAudioFile(
            match t {
                Some(t) => Some(t.clone()),
                None => None,
            },
        ),
        Effect::CopyToClipboard(t) => Effect::CopyToClipboard(t.clone()),
        Effect::OverlayMessage(t) => Effect::OverlayMessage(t.clone()),
        Effect::StartTimer(t) => Effect::StartTimer(
            Timer {
                trigger_id: t.trigger_id.clone(),
                name_tmpl: t.name_tmpl.clone(),
                tags: clone_tags(&t.tags),
                duration: t.duration,
                start_policy: t.start_policy.clone(),
                repeats: t.repeats,
                effects: clone_effect_list(&t.effects),
            },
        ),
        Effect::StartStopwatch(s) => Effect::StartStopwatch(
            Stopwatch { name: s.name.clone(), tags: clone_tags(&s.tags), effects: clone_effect_list(&s.effects) },
        ),
        Effect::RunSystemCommand(c) => Effect::RunSystemCommand(c.clone()),
        Effect::SpeakStop => Effect::SpeakStop,
        Effect::Speak { tmpl, interrupt } => Effect::Speak { tmpl: tmpl.clone(), interrupt: *interrupt },
        Effect::ScopedTimerEffect(t) => Effect::ScopedTimerEffect(t.clone()),
        Effect::Pause(d) => Effect::Pause(*d),
        Effect::DoNothing => Effect::DoNothing,
    }
}

impl Clone for EffectWithID {
    fn clone(&self) -> (res: Self)
        ensures
            res@ == self@,
    {
        clone_ewid(self)
    }
}

impl Clone for Effect {
    fn clone(&self) -> (res: Self)
        ensures
            res@ == self@,
    {
        clone_effect(self)
    }
}

} // verus!

verus! {

// ---------------------------------------------------------------------------
// Security check
// ---------------------------------------------------------------------------

/// Effects `s` with each system command's approval checked with `key`.
pub open spec fn secured_list(s: Seq<EffectWithIDView>, key: Option<Seq<u8>>) -> Seq<EffectWithIDView>
    decreases s,
{
    if s.len() == 0 {
        Seq::empty()
    } else {
        secured_list(s.drop_last(), key).push(secured_ewid(s.last(), key))
    }
}

pub open spec fn secured_ewid(e: EffectWithIDView, key: Option<Seq<u8>>) -> EffectWithIDView
    decreases e,
{
    EffectWithIDView { id: e.id, inner: secured_effect(e.inner, key) }
}

/// Effect `e` with the approvals of the system commands in it (at any depth:
/// in sequences, parallel groups, timers and stopwatches) checked with `key`;
/// everything else stays as it is.
pub open spec fn secured_effect(e: EffectView, key: Option<Seq<u8>>) -> EffectView
    decreases e,
{
    match e {
        EffectView::Parallel(v) => EffectView::Parallel(secured_list(v, key)),
        EffectView::Sequence(v) => EffectView::Sequence(secured_list(v, key)),
        EffectView::StartTimer(t) => EffectView::StartTimer(TimerView { effects: secured_list(t.effects, key), ..t }),
        EffectView::StartStopwatch(s) => EffectView::StartStopwatch(StopwatchView { effects: secured_list(s.effects, key), ..s }),
        EffectView::RunSystemCommand(c) => EffectView::RunSystemCommand(checked_approval(c, key)),
        _ => e,
    }
}

pub fn secure_effect_list(v: &Vec<EffectWithID>, key: Option<&MachineKey>) -> (res: Vec<EffectWithID>)
    ensures
        effects_view(res@) == secured_list(effects_view(v@), key_view(key)),
    decreases v, 1nat,
{
    let ghost kv = key_view(key);
    let mut res: Vec<EffectWithID> = Vec::new();
    let mut i: usize = 0;
    while i < v.len()
        invariant
            kv == key_view(key),
            i <= v@.len(),
            effects_view(res@) == secured_list(effects_view(v@.take(i as int)), kv),
        decreases v@.len() - i,
    {
        proof {
            vstd::std_specs::vec::axiom_vec_index_decreases(*v, i as int);
        }
        let e = secure_ewid(&v[i], key);
        let ghost before = res@;
        res.push(e);
        assert(res@.drop_last() =~= before);
        let ghost pre = effects_view(v@.take(i as int));
        assert(v@.take(i + 1).drop_last() =~= v@.take(i as int));
        assert(effects_view(v@.take(i + 1)) == pre.push(ewid_view(v@[i as int])));
        assert(pre.push(ewid_view(v@[i as int])).drop_last() =~= pre);
        i = i + 1;
    }
    assert(v@.take(i as int) =~= v@);
    res
}

fn secure_ewid(e: &EffectWithID, key: Option<&MachineKey>) -> (res: EffectWithID)
    ensures
        ewid_view(res) == secured_ewid(ewid_view(*e), key_view(key)),
    decreases e, 2nat,
{
    EffectWithID { id: e.id.clone(), inner: secure_effect(&e.inner, key) }
}

fn secure_effect(e: &Effect, key: Option<&MachineKey>) -> (res: Effect)
    ensures
        effect_view(res) == secured_effect(effect_view(*e), key_view(key)),
    decreases e, 0nat,
{
    match e {
        Effect::Parallel(v) => Effect::Parallel(secure_effect_list(v, key)),
        Effect::Sequence(v) => Effect::Sequence(secure_effect_list(v, key)),
        Effect::StartTimer(t) => Effect::StartTimer(
            Timer {
                trigger_id: t.trigger_id.clone(),
                name_tmpl: t.name_tmpl.clone(),
                tags: clone_tags(&t.tags),
                duration: t.duration,
                start_policy: t.start_policy.clone(),
                repeats: t.repeats,
                effects: secure_effect_list(&t.effects, key),
            },
        ),
        Effect::StartStopwatch(s) => Effect::StartStopwatch(
            Stopwatch { name: s.name.clone(), tags: clone_tags(&s.tags), effects: secure_effect_list(&s.effects, key) },
        ),
        Effect::RunSystemCommand(c) => Effect::RunSystemCommand(c.clone().security_check(key)),
        _ => clone_effect(e),
    }
}

impl EffectWithID {
    /// Checks the approval of every system command in the effect with
    /// `key` (see `secured_effect`).
    pub fn security_check(self, key: Option<&MachineKey>) -> (res: Self)
        ensures
            res@ == secured_ewid(self@, key_view(key)),
    {
        secure_ewid(&self, key)
    }
}

pub proof fn lemma_checked_approval_idempotent(c: SecurityCheckView, key: Option<Seq<u8>>)
    ensures
        checked_approval(checked_approval(c, key), key) == checked_approval(c, key),
{
}

/// Checking the approvals a second time with the same key changes nothing.
pub proof fn lemma_secured_effect_idempotent(e: EffectView, key: Option<Seq<u8>>)
    ensures
        secured_effect(secured_effect(e, key), key) == secured_effect(e, key),
    decreases e, 0nat,
{
    match e {
        EffectView::Parallel(v) => lemma_secured_list_idempotent(v, key),
        EffectView::Sequence(v) => lemma_secured_list_idempotent(v, key),
        EffectView::StartTimer(t) => lemma_secured_list_idempotent(t.effects, key),
        EffectView::StartStopwatch(s) => lemma_secured_list_idempotent(s.effects, key),
        EffectView::RunSystemCommand(c) => lemma_checked_approval_idempotent(c, key),
        _ => {},
    }
}

pub proof fn lemma_secured_list_idempotent(s: Seq<EffectWithIDView>, key: Option<Seq<u8>>)
    ensures
        secured_list(secured_list(s, key), key) == secured_list(s, key),
    decreases s, 1nat,
{
    if s.len() > 0 {
        lemma_secured_list_idempotent(s.drop_last(), key);
        lemma_secured_ewid_idempotent(s.last(), key);
        let once = secured_list(s, key);
        assert(once.drop_last() =~= secured_list(s.drop_last(), key));
        assert(secured_list(once, key) =~= once);
    }
}

pub proof fn lemma_secured_ewid_idempotent(e: EffectWithIDView, key: Option<Seq<u8>>)
    ensures
        secured_ewid(secured_ewid(e, key), key) == secured_ewid(e, key),
    decreases e, 2nat,
{
    lemma_secured_effect_idempotent(e.inner, key);
}

} // verus!

verus! {

// ---------------------------------------------------------------------------
// Effects up to their identifiers
// ---------------------------------------------------------------------------

/// `e` with every identifier in it (at any depth) blanked: what an effect
/// is, leaving aside the random identifiers that `EffectWithID::new` gives.
pub open spec fn anon_ewid(e: EffectWithIDView) -> EffectWithIDView
    decreases e, 2nat,
{
    EffectWithIDView { id: Seq::empty(), inner: anon_effect(e.inner) }
}

pub open spec fn anon_list(s: Seq<EffectWithIDView>) -> Seq<EffectWithIDView>
    decreases s, 1nat,
{
    if s.len() == 0 {
        Seq::empty()
    } else {
        anon_list(s.drop_last()).push(anon_ewid(s.last()))
    }
}

pub open spec fn anon_effect(e: EffectView) -> EffectView
    decreases e, 0nat,
{
    match e {
        EffectView::Parallel(v) => EffectView::Parallel(anon_list(v)),
        EffectView::Sequence(v) => EffectView::Sequence(anon_list(v)),
        EffectView::StartTimer(t) => EffectView::StartTimer(TimerView { effects: anon_list(t.effects), ..t }),
        EffectView::StartStopwatch(s) => EffectView::StartStopwatch(StopwatchView { effects: anon_list(s.effects), ..s }),
        _ => e,
    }
}

/// An effect with a blank identifier.
pub open spec fn blank(inner: EffectView) -> EffectWithIDView {
    EffectWithIDView { id: Seq::empty(), inner }
}

pub proof fn lemma_anon_list_push(s: Seq<EffectWithIDView>, x: EffectWithIDView)
    ensures
        anon_list(s.push(x)) == anon_list(s).push(anon_ewid(x)),
{
    assert(s.push(x).drop_last() =~= s);
}

pub proof fn lemma_anon_list_len(s: Seq<EffectWithIDView>)
    ensures
        anon_list(s).len() == s.len(),
    decreases s.len(),
{
    if s.len() > 0 {
        lemma_anon_list_len(s.drop_last());
    }
}

} // verus!

verus! {

pub proof fn lemma_effects_view_push(s: Seq<EffectWithID>, x: EffectWithID)
    ensures
        effects_view(s.push(x)) == effects_view(s).push(x@),
{
    assert(s.push(x).drop_last() =~= s);
}

} // verus!
