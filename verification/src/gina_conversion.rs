//! Turning a GINA package into triggers, groups and tags.
use vstd::prelude::*;
use crate::common::{Duration, Timestamp, UUID, is_random_id_char, random_id};
use crate::effects::{
    Effect, EffectView, EffectWithID, EffectWithIDView, StartPolicyView, StopwatchView, Stopwatch, Timer, TimerEffect, TimerEffectView,
    TimerStartPolicy, TimerTag, TimerView, anon_effect, anon_ewid, anon_list, blank, effects_view, lemma_anon_list_push,
};
use crate::gina::{GINAEarlyEnder, GINATimerStartBehavior, GINATimerTrigger, GINATimerType, GINATrigger, GINATriggerGroup, GINATriggers};
use crate::gina_fix::fixed_classes;
use crate::gina_regex::{operands_fit, generated_names_for, compiled_as, translated};
use crate::matchers::{Filter, Matcher, MatcherView, MatcherWithContext, FilterWithContext};
use crate::regex::regex_accepts;
use crate::template::TemplateString;
use crate::text::{append_str, chars_of, string_of};
use crate::trigger_index::{DataMutationError, ErrorView, IndexView, Mutation, TagView, TriggerIndex, has_tag, opt_ids_view, with_triggers};
use crate::triggers::{DescendantView, GroupView, Trigger, TriggerGroup, TriggerGroupDescendant, TriggerView};
use crate::common::UUID_LEN;

verus! {

#[derive(Debug)]
pub enum GINAConversionError {
    /// The trigger (named here) has no usable pattern.
    TriggerPatternError(String),
    /// The timer (named here) has no duration.
    TimerDurationError(TemplateString),
    /// The timer (named here) restarts by its name, which has no equivalent.
    TimerStartPolicyError(TemplateString),
    EarlyEnderPatternError,
    RegexError(fancy_regex::Error),
}

pub enum ConversionErrorView {
    TriggerPatternError(Seq<char>),
    TimerDurationError(Seq<char>),
    TimerStartPolicyError(Seq<char>),
    EarlyEnderPatternError,
    RegexError,
}

impl View for GINAConversionError {
    type V = ConversionErrorView;

    open spec fn view(&self) -> ConversionErrorView {
        match self {
            GINAConversionError::TriggerPatternError(s) => ConversionErrorView::TriggerPatternError(s@),
            GINAConversionError::TimerDurationError(t) => ConversionErrorView::TimerDurationError(t@),
            GINAConversionError::TimerStartPolicyError(t) => ConversionErrorView::TimerStartPolicyError(t@),
            GINAConversionError::EarlyEnderPatternError => ConversionErrorView::EarlyEnderPatternError,
            GINAConversionError::RegexError(_) => ConversionErrorView::RegexError,
        }
    }
}

#[derive(Debug)]
pub enum GINAImportError {
    MutationError(DataMutationError),
    ConversionError(GINAConversionError),
}

/// `Untitled <what> [XXXX]` with four random characters of `A-Z0-9`.
pub open spec fn is_untitled(s: Seq<char>, what: Seq<char>) -> bool {
    exists|r: Seq<char>| #[trigger] untitled_text(what, r) == s && r.len() == 4 && forall|i: int| 0 <= i < 4 ==> is_random_id_char(#[trigger] r[i])
}

pub open spec fn untitled_text(what: Seq<char>, r: Seq<char>) -> Seq<char> {
    "Untitled "@ + what + " ["@ + r + "]"@
}

/// A name for something that has none: `Untitled <what> [XXXX]`.
pub fn untitled(what: &str) -> (res: String)
    ensures
        is_untitled(res@, what@),
{
    let r = random_id(4);
    let mut s = String::new();
    append_str(&mut s, "Untitled ");
    append_str(&mut s, what);
    append_str(&mut s, " [");
    append_str(&mut s, r.as_str());
    append_str(&mut s, "]");
    assert(s@ == untitled_text(what@, r@));
    s
}

/// The text of a GINA option, when it is set and not empty.
pub open spec fn nonempty(o: Option<String>) -> Option<Seq<char>> {
    match o {
        Some(s) => if s@.len() > 0 {
            Some(s@)
        } else {
            None
        },
        None => None,
    }
}

fn nonempty_exec(o: &Option<String>) -> (res: Option<&String>)
    ensures
        res matches Some(s) ==> nonempty(*o) == Some(s@),
        res is None ==> nonempty(*o) is None,
{
    match o {
        Some(s) => if chars_of(s.as_str()).len() > 0 {
            Some(s)
        } else {
            None
        },
        None => None,
    }
}

fn is_true(o: &Option<bool>) -> (res: bool)
    ensures
        res == (*o == Some(true)),
{
    match o {
        Some(b) => *b,
        None => false,
    }
}

fn is_false(o: &Option<bool>) -> (res: bool)
    ensures
        res == (*o == Some(false)),
{
    match o {
        Some(b) => !*b,
        None => false,
    }
}

/// The effects of a timer's ending or end: a message to display, a text to
/// speak, and a sound to play (the export names no sound file).
pub open spec fn timer_trigger_effects(t: GINATimerTrigger) -> Seq<EffectView> {
    let display = if t.use_text == Some(true) && nonempty(t.display_text) is Some {
        seq![EffectView::OverlayMessage(nonempty(t.display_text)->0)]
    } else {
        Seq::empty()
    };
    let speak = if t.use_text_to_voice == Some(true) && nonempty(t.text_to_voice_text) is Some {
        seq![EffectView::Speak { tmpl: nonempty(t.text_to_voice_text)->0, interrupt: t.interrupt_speech == Some(true) }]
    } else {
        Seq::empty()
    };
    let play = if t.play_media_file == Some(true) {
        seq![EffectView::PlayAudioFile(None)]
    } else {
        Seq::empty()
    };
    display + speak + play
}

pub open spec fn plain_effects_view(v: Seq<Effect>) -> Seq<EffectView> {
    v.map_values(|e: Effect| e@)
}

impl GINATimerTrigger {
    pub fn to_lq(&self) -> (res: Vec<Effect>)
        ensures
            plain_effects_view(res@) == timer_trigger_effects(*self),
    {
        let mut timer_effects: Vec<Effect> = Vec::new();
        if is_true(&self.use_text) {
            match nonempty_exec(&self.display_text) {
                Some(text) => timer_effects.push(Effect::OverlayMessage(TemplateString::new(text.as_str()))),
                None => {},
            }
        }
        let ghost a = plain_effects_view(timer_effects@);
        if is_true(&self.use_text_to_voice) {
            match nonempty_exec(&self.text_to_voice_text) {
                Some(text) => timer_effects.push(
                    Effect::Speak { tmpl: TemplateString::new(text.as_str()), interrupt: is_true(&self.interrupt_speech) },
                ),
                None => {},
            }
        }
        let ghost b = plain_effects_view(timer_effects@);
        if is_true(&self.play_media_file) {
            timer_effects.push(Effect::PlayAudioFile(None));
        }
        assert(plain_effects_view(timer_effects@) =~= timer_trigger_effects(*self));
        timer_effects
    }
}

/// The matcher of an early ender: its text as a GINA pattern or as a whole
/// line; `None` when it has neither.
pub open spec fn ender_matcher(e: GINAEarlyEnder) -> Option<MatcherWithContext> {
    match (e.enable_regex, e.early_end_text) {
        (Some(true), Some(p)) => Some(MatcherWithContext::GINA(p)),
        (Some(false), Some(l)) => Some(MatcherWithContext::WholeLine(l)),
        _ => None,
    }
}

impl GINAEarlyEnder {
    pub fn to_lq(&self) -> (res: Result<MatcherWithContext, GINAConversionError>)
        ensures
            res matches Ok(m) ==> ender_matcher(*self) == Some(m),
            res matches Err(e) ==> ender_matcher(*self) is None && e@ == ConversionErrorView::EarlyEnderPatternError,
    {
        match &self.early_end_text {
            Some(text) => {
                if is_true(&self.enable_regex) {
                    Ok(MatcherWithContext::GINA(text.clone()))
                } else if is_false(&self.enable_regex) {
                    Ok(MatcherWithContext::WholeLine(text.clone()))
                } else {
                    Err(GINAConversionError::EarlyEnderPatternError)
                }
            },
            None => Err(GINAConversionError::EarlyEnderPatternError),
        }
    }
}

/// The matchers of early enders `s`; `None` when one has no matcher.
pub open spec fn enders_matchers(s: Seq<GINAEarlyEnder>) -> Option<Seq<MatcherWithContext>>
    decreases s.len(),
{
    if s.len() == 0 {
        Some(Seq::empty())
    } else {
        match (enders_matchers(s.drop_last()), ender_matcher(s.last())) {
            (Some(ms), Some(m)) => Some(ms.push(m)),
            _ => None,
        }
    }
}

/// The effect that ends a timer early: wait until one of the matchers
/// matches, then clear the timer.
pub open spec fn terminator_shape(ms: Seq<MatcherWithContext>) -> EffectWithIDView {
    blank(
        EffectView::Sequence(
            seq![
                blank(EffectView::ScopedTimerEffect(TimerEffectView::WaitUntilFilterMatches(ms, None))),
                blank(EffectView::ScopedTimerEffect(TimerEffectView::ClearTimer)),
            ],
        ),
    )
}

/// The terminator of trigger `t`'s timer, as a list of no or one effect;
/// `None` when an early ender has no matcher.
pub open spec fn terminator_of(t: GINATrigger) -> Option<Seq<EffectWithIDView>> {
    if t.timer_early_enders@.len() == 0 {
        Some(Seq::empty())
    } else {
        match enders_matchers(t.timer_early_enders@) {
            Some(ms) => Some(seq![terminator_shape(ms)]),
            None => None,
        }
    }
}

impl GINATrigger {
    /// The effect that ends the trigger's timer early, if it has early enders.
    pub fn early_enders_to_terminator(&self) -> (res: Result<Option<EffectWithID>, GINAConversionError>)
        ensures
            res matches Ok(None) ==> terminator_of(*self) == Some(Seq::<EffectWithIDView>::empty()),
            res matches Ok(Some(e)) ==> terminator_of(*self) == Some(seq![anon_ewid(e@)]),
            res matches Err(e) ==> terminator_of(*self) is None && e@ == ConversionErrorView::EarlyEnderPatternError,
    {
        if self.timer_early_enders.len() == 0 {
            return Ok(None);
        }
        let ghost enders = self.timer_early_enders@;
        let mut matchers: Vec<MatcherWithContext> = Vec::new();
        let mut i: usize = 0;
        while i < self.timer_early_enders.len()
            invariant
                enders == self.timer_early_enders@,
                i <= enders.len(),
                enders_matchers(enders.take(i as int)) == Some(matchers@),
            decreases enders.len() - i,
        {
            assert(enders.take(i + 1).drop_last() =~= enders.take(i as int));
            assert(enders.take(i + 1).last() == enders[i as int]);
            match self.timer_early_enders[i].to_lq() {
                Ok(m) => {
                    matchers.push(m);
                },
                Err(e) => {
                    proof {
                        lemma_enders_matchers_none(enders, i as int + 1);
                    }
                    return Err(e);
                },
            }
            i = i + 1;
        }
        assert(enders.take(i as int) =~= enders);
        let ghost ms = matchers@;
        let wait = EffectWithID::new(Effect::ScopedTimerEffect(TimerEffect::WaitUntilFilterMatches(FilterWithContext(matchers), None)));
        let clear = EffectWithID::new(Effect::ScopedTimerEffect(TimerEffect::ClearTimer));
        let ghost w = wait;
        let ghost c = clear;
        let terminator = EffectWithID::new(Effect::Sequence(vec![wait, clear]));
        proof {
            let v = terminator.inner->Sequence_0@;
            assert(v =~= Seq::<EffectWithID>::empty().push(w).push(c));
            crate::effects::lemma_effects_view_push(Seq::<EffectWithID>::empty(), w);
            crate::effects::lemma_effects_view_push(Seq::<EffectWithID>::empty().push(w), c);
            assert(effects_view(Seq::<EffectWithID>::empty()) =~= Seq::<EffectWithIDView>::empty());
            let vv = effects_view(v);
            assert(vv =~= seq![w@, c@]);
            lemma_anon_list_push(Seq::empty(), w@);
            lemma_anon_list_push(seq![w@], c@);
            assert(seq![w@] =~= Seq::<EffectWithIDView>::empty().push(w@));
            assert(seq![w@, c@] =~= seq![w@].push(c@));
            assert(anon_list(Seq::<EffectWithIDView>::empty()) =~= Seq::<EffectWithIDView>::empty());
            assert(anon_list(vv) =~= seq![anon_ewid(w@), anon_ewid(c@)]);
        }
        Ok(Some(terminator))
    }
}

proof fn lemma_enders_matchers_none(s: Seq<GINAEarlyEnder>, k: int)
    requires
        0 < k <= s.len(),
        enders_matchers(s.take(k)) is None,
    ensures
        enders_matchers(s) is None,
    decreases s.len() - k,
{
    if k < s.len() {
        assert(s.take(k + 1).drop_last() =~= s.take(k));
        lemma_enders_matchers_none(s, k + 1);
    } else {
        assert(s.take(k) =~= s);
    }
}

/// One effect for a list of effects: nothing for none, the effect itself
/// for one, and the effects in parallel for more.
pub open spec fn singular_shape(es: Seq<EffectView>) -> Option<EffectWithIDView> {
    if es.len() == 0 {
        None
    } else if es.len() == 1 {
        Some(blank(anon_effect(es[0])))
    } else {
        Some(blank(EffectView::Parallel(es.map_values(|e: EffectView| blank(anon_effect(e))))))
    }
}

/// One effect for `effects`: `None` for none, the effect itself for one, and
/// the effects run in parallel for more.
pub fn singularize_effects(effects: Vec<Effect>) -> (res: Option<EffectWithID>)
    ensures
        res matches Some(e) ==> singular_shape(plain_effects_view(effects@)) == Some(anon_ewid(e@)),
        res is None ==> singular_shape(plain_effects_view(effects@)) is None,
{
    let mut effects = effects;
    let ghost orig = plain_effects_view(effects@);
    if effects.len() == 0 {
        None
    } else if effects.len() == 1 {
        let e = effects.remove(0);
        Some(EffectWithID::new(e))
    } else {
        let mut wrapped: Vec<EffectWithID> = Vec::new();
        let n = effects.len();
        let mut k: usize = 0;
        while k < n
            invariant
                n == orig.len(),
                k <= n,
                effects@.len() == n - k,
                plain_effects_view(effects@) == orig.skip(k as int),
                anon_list(effects_view(wrapped@)) == orig.take(k as int).map_values(|e: EffectView| blank(anon_effect(e))),
            decreases n - k,
        {
            assert(plain_effects_view(effects@)[0] == effects@[0]@);
            assert(orig.skip(k as int)[0] == orig[k as int]);
            let ghost pre = effects@;
            let e = effects.remove(0);
            assert(e@ == orig[k as int]);
            assert forall|j: int| 0 <= j < effects@.len() implies (#[trigger] plain_effects_view(effects@)[j]) == orig.skip(k + 1)[j] by {
                assert(effects@[j] == pre[j + 1]);
                assert(plain_effects_view(pre)[j + 1] == orig.skip(k as int)[j + 1]);
            }
            let ghost before = wrapped@;
            let w = EffectWithID::new(e);
            wrapped.push(w);
            proof {
                crate::effects::lemma_effects_view_push(before, w);
                lemma_anon_list_push(effects_view(before), w@);
            }
            assert(plain_effects_view(effects@) =~= orig.skip(k + 1));
            assert(orig.take(k + 1).map_values(|e: EffectView| blank(anon_effect(e))) =~= orig.take(k as int).map_values(|e: EffectView| blank(anon_effect(e))).push(blank(anon_effect(orig[k as int]))));
            k = k + 1;
        }
        assert(orig.take(n as int) =~= orig);
        Some(EffectWithID::new(Effect::Parallel(wrapped)))
    }
}

} // verus!

verus! {

/// Appends `e` with a fresh identifier.
fn push_new(v: &mut Vec<EffectWithID>, e: Effect)
    ensures
        anon_list(effects_view(final(v)@)) == anon_list(effects_view(old(v)@)).push(blank(anon_effect(e@))),
{
    let ghost before = v@;
    let ghost ev = e@;
    let w = EffectWithID::new(e);
    v.push(w);
    proof {
        crate::effects::lemma_effects_view_push(before, w);
        lemma_anon_list_push(effects_view(before), w@);
    }
}

pub open spec fn opt_seq<A>(o: Option<A>) -> Seq<A> {
    match o {
        Some(x) => seq![x],
        None => Seq::empty(),
    }
}

/// What the timer of trigger `t` runs: the terminator of its early enders,
/// its ending (when it ends in some seconds: wait for them, tag the timer
/// as ending, and run the ending effects) and its end (wait for it, then run
/// the end effects). `None` when an early ender has no matcher.
pub open spec fn timer_effects_of(t: GINATrigger) -> Option<Seq<EffectWithIDView>> {
    match terminator_of(t) {
        None => None,
        Some(term) => {
            let ending = match t.timer_ending_time {
                Some(secs) => if secs > 0 {
                    let extra = if t.use_timer_ending == Some(true) && t.timer_ending_trigger is Some {
                        opt_seq(singular_shape(timer_trigger_effects(t.timer_ending_trigger->0)))
                    } else {
                        Seq::empty()
                    };
                    seq![blank(EffectView::Sequence(seq![
                        blank(EffectView::ScopedTimerEffect(TimerEffectView::WaitUntilSecondsRemain(secs))),
                        blank(EffectView::ScopedTimerEffect(TimerEffectView::AddTag("ENDING"@))),
                    ] + extra))]
                } else {
                    Seq::empty()
                },
                None => Seq::empty(),
            };
            let ended = if t.use_timer_ended == Some(true) && t.timer_ended_trigger is Some
                && singular_shape(timer_trigger_effects(t.timer_ended_trigger->0)) is Some {
                seq![blank(EffectView::Sequence(seq![
                    blank(EffectView::ScopedTimerEffect(TimerEffectView::WaitUntilFinished)),
                    singular_shape(timer_trigger_effects(t.timer_ended_trigger->0))->0,
                ]))]
            } else {
                Seq::empty()
            };
            Some(term + ending + ended)
        },
    }
}

/// The duration of trigger `t`'s timer in milliseconds (the millisecond
/// element first); `None` when it has none.
pub open spec fn duration_of(t: GINATrigger) -> Option<u32> {
    match (t.timer_millisecond_duration, t.timer_duration) {
        (Some(ms), _) => Some(ms),
        (None, Some(secs)) => Some((secs * 1000) as u32),
        _ => None,
    }
}

/// Reading the duration in seconds must not overflow the milliseconds.
pub open spec fn duration_fits(t: GINATrigger) -> bool {
    t.timer_millisecond_duration is None && t.timer_duration is Some ==> t.timer_duration->0 * 1000 <= u32::MAX
}

/// How a timer named `tn` starts; `None` for a restart by name, which has
/// no equivalent.
pub open spec fn start_policy_of(t: GINATrigger, tn: Seq<char>) -> Option<StartPolicyView> {
    match t.timer_start_behavior {
        None => Some(StartPolicyView::AlwaysStartNewTimer),
        Some(GINATimerStartBehavior::IgnoreIfRunning) => Some(StartPolicyView::DoNothingIfTimerRunning),
        Some(GINATimerStartBehavior::StartNewTimer) => if t.restart_based_on_timer_name == Some(true) {
            Some(StartPolicyView::StartAndReplacesAnyTimerOfTriggerWithNameTemplateMatching(tn))
        } else {
            Some(StartPolicyView::AlwaysStartNewTimer)
        },
        Some(GINATimerStartBehavior::RestartTimer) => if t.restart_based_on_timer_name == Some(true) {
            None
        } else {
            Some(StartPolicyView::StartAndReplacesAllTimersOfTrigger)
        },
    }
}

/// The start policy of the timer (or repeating timer) of a GINA trigger, by
/// its start behaviour: none or "start new" starts another timer beside the
/// running ones; "start new" based on the timer name replaces the trigger's
/// timers of that name; "ignore if running" does nothing while one of the
/// name runs; "restart" replaces all the trigger's timers; and "restart"
/// based on the timer name has no equivalent and fails.
pub proof fn lemma_start_policies(t: GINATrigger, trigger_id: Seq<char>, tn: Seq<char>)
    requires
        t.timer_type == Some(GINATimerType::Timer) || t.timer_type == Some(GINATimerType::RepeatingTimer),
        duration_of(t) is Some,
        timer_effects_of(t) is Some,
    ensures
        ({
            let based = t.restart_based_on_timer_name == Some(true);
            let started_with = |p: StartPolicyView| timer_effect_of(t, trigger_id, tn) matches Ok(Some(EffectView::StartTimer(tv)))
                && tv.start_policy == p && tv.name_tmpl == tn && tv.trigger_id == trigger_id;
            &&& t.timer_start_behavior is None ==> started_with(StartPolicyView::AlwaysStartNewTimer)
            &&& t.timer_start_behavior == Some(GINATimerStartBehavior::StartNewTimer) && !based
                ==> started_with(StartPolicyView::AlwaysStartNewTimer)
            &&& t.timer_start_behavior == Some(GINATimerStartBehavior::StartNewTimer) && based
                ==> started_with(StartPolicyView::StartAndReplacesAnyTimerOfTriggerWithNameTemplateMatching(tn))
            &&& t.timer_start_behavior == Some(GINATimerStartBehavior::IgnoreIfRunning)
                ==> started_with(StartPolicyView::DoNothingIfTimerRunning)
            &&& t.timer_start_behavior == Some(GINATimerStartBehavior::RestartTimer) && !based
                ==> started_with(StartPolicyView::StartAndReplacesAllTimersOfTrigger)
            &&& t.timer_start_behavior == Some(GINATimerStartBehavior::RestartTimer) && based
                ==> timer_effect_of(t, trigger_id, tn) == Err::<Option<EffectView>, ConversionErrorView>(ConversionErrorView::TimerStartPolicyError(tn))
        }),
{
}

/// The timer or stopwatch effect of trigger `t` (up to identifiers), for a
/// timer named `tn` started by trigger `trigger_id`.
pub open spec fn timer_effect_of(t: GINATrigger, trigger_id: Seq<char>, tn: Seq<char>) -> Result<Option<EffectView>, ConversionErrorView> {
    match t.timer_type {
        None => Ok(None),
        Some(GINATimerType::NoTimer) => Ok(None),
        Some(GINATimerType::Stopwatch) => match terminator_of(t) {
            None => Err(ConversionErrorView::EarlyEnderPatternError),
            Some(term) => Ok(Some(EffectView::StartStopwatch(StopwatchView { name: tn, tags: Seq::empty(), effects: term }))),
        },
        Some(kind) => match duration_of(t) {
            None => Err(ConversionErrorView::TimerDurationError(tn)),
            Some(ms) => match start_policy_of(t, tn) {
                None => Err(ConversionErrorView::TimerStartPolicyError(tn)),
                Some(policy) => match timer_effects_of(t) {
                    None => Err(ConversionErrorView::EarlyEnderPatternError),
                    Some(effects) => Ok(Some(EffectView::StartTimer(TimerView {
                        trigger_id,
                        name_tmpl: tn,
                        tags: Seq::empty(),
                        duration: Duration(ms),
                        start_policy: policy,
                        repeats: kind == GINATimerType::RepeatingTimer,
                        effects,
                    }))),
                },
            },
        },
    }
}

/// The effects of trigger `t` (up to identifiers): display, copy to the
/// clipboard, speak, play a sound, and the timer, each when configured.
pub open spec fn trigger_effects_of(t: GINATrigger, trigger_id: Seq<char>, tn: Seq<char>) -> Result<Seq<EffectWithIDView>, ConversionErrorView> {
    match timer_effect_of(t, trigger_id, tn) {
        Err(e) => Err(e),
        Ok(timer) => Ok((plain_effects_of(t) + opt_seq(timer)).map_values(|e: EffectView| blank(e))),
    }
}

/// The effects of trigger `t` other than its timer: display, copy to the
/// clipboard, speak, and play a sound, each when configured.
pub open spec fn plain_effects_of(t: GINATrigger) -> Seq<EffectView> {
    let display = if t.use_text == Some(true) && nonempty(t.display_text) is Some {
        seq![EffectView::OverlayMessage(nonempty(t.display_text)->0)]
    } else {
        Seq::empty()
    };
    let copy = if t.copy_to_clipboard == Some(true) && nonempty(t.clipboard_text) is Some {
        seq![EffectView::CopyToClipboard(nonempty(t.clipboard_text)->0)]
    } else {
        Seq::empty()
    };
    let speak = if t.use_text_to_voice == Some(true) && nonempty(t.text_to_voice_text) is Some {
        seq![EffectView::Speak { tmpl: nonempty(t.text_to_voice_text)->0, interrupt: t.interrupt_speech == Some(true) }]
    } else {
        Seq::empty()
    };
    let play = if t.play_media_file == Some(true) {
        seq![EffectView::PlayAudioFile(None)]
    } else {
        Seq::empty()
    };
    display + copy + speak + play
}

proof fn lemma_plain_anon(e: EffectView)
    requires
        !(e is Parallel || e is Sequence || e is StartTimer || e is StartStopwatch),
    ensures
        anon_effect(e) == e,
{
}

impl GINATrigger {
    /// The ending sequence of the timer, if it has one.
    fn ending_sequence(&self, effects: &mut Vec<EffectWithID>)
        ensures
            anon_list(effects_view(final(effects)@)) == anon_list(effects_view(old(effects)@)) + match self.timer_ending_time {
                Some(secs) => if secs > 0 {
                    let extra = if self.use_timer_ending == Some(true) && self.timer_ending_trigger is Some {
                        opt_seq(singular_shape(timer_trigger_effects(self.timer_ending_trigger->0)))
                    } else {
                        Seq::empty()
                    };
                    seq![blank(EffectView::Sequence(seq![
                        blank(EffectView::ScopedTimerEffect(TimerEffectView::WaitUntilSecondsRemain(secs))),
                        blank(EffectView::ScopedTimerEffect(TimerEffectView::AddTag("ENDING"@))),
                    ] + extra))]
                } else {
                    Seq::empty()
                },
                None => Seq::empty(),
            },
    {
        let ghost start = anon_list(effects_view(effects@));
        assert(start == anon_list(effects_view(old(effects)@)));
        match self.timer_ending_time {
            Some(secs) => {
                if secs > 0 {
                    let mut seq: Vec<EffectWithID> = Vec::new();
                    push_new(&mut seq, Effect::ScopedTimerEffect(TimerEffect::WaitUntilSecondsRemain(secs)));
                    push_new(&mut seq, Effect::ScopedTimerEffect(TimerEffect::AddTag(TimerTag::ending())));
                    let ghost two = anon_list(effects_view(seq@));
                    assert(anon_list(effects_view(Seq::<EffectWithID>::empty())) =~= Seq::<EffectWithIDView>::empty()) by {
                        assert(effects_view(Seq::<EffectWithID>::empty()) =~= Seq::<EffectWithIDView>::empty());
                    }
                    assert(two =~= seq![
                        blank(EffectView::ScopedTimerEffect(TimerEffectView::WaitUntilSecondsRemain(secs))),
                        blank(EffectView::ScopedTimerEffect(TimerEffectView::AddTag("ENDING"@))),
                    ]);
                    let mut extra_added = false;
                    if is_true(&self.use_timer_ending) {
                        match &self.timer_ending_trigger {
                            Some(ending) => {
                                match singularize_effects(ending.to_lq()) {
                                    Some(s) => {
                                        let ghost b = seq@;
                                        seq.push(s);
                                        proof {
                                            crate::effects::lemma_effects_view_push(b, s);
                                            lemma_anon_list_push(effects_view(b), s@);
                                        }
                                    },
                                    None => {},
                                }
                            },
                            None => {},
                        }
                    }
                    let ghost inner = anon_list(effects_view(seq@));
                    let ghost extra = if self.use_timer_ending == Some(true) && self.timer_ending_trigger is Some {
                        opt_seq(singular_shape(timer_trigger_effects(self.timer_ending_trigger->0)))
                    } else {
                        Seq::<EffectWithIDView>::empty()
                    };
                    assert(inner =~= two + extra);
                    let ghost b2 = effects@;
                    let w = EffectWithID::new(Effect::Sequence(seq));
                    effects.push(w);
                    proof {
                        crate::effects::lemma_effects_view_push(b2, w);
                        lemma_anon_list_push(effects_view(b2), w@);
                    }
                    assert(anon_list(effects_view(effects@)) =~= start + seq![blank(EffectView::Sequence(inner))]);
                } else {
                    assert(start + Seq::<EffectWithIDView>::empty() =~= start);
                }
            },
            None => {
                assert(start + Seq::<EffectWithIDView>::empty() =~= start);
            },
        }
    }
}

} // verus!

verus! {

impl GINATrigger {
    /// The end sequence of the timer, if it has one.
    fn ended_sequence(&self, effects: &mut Vec<EffectWithID>)
        ensures
            anon_list(effects_view(final(effects)@)) == anon_list(effects_view(old(effects)@)) + if self.use_timer_ended == Some(true) && self.timer_ended_trigger is Some
                && singular_shape(timer_trigger_effects(self.timer_ended_trigger->0)) is Some {
                seq![blank(EffectView::Sequence(seq![
                    blank(EffectView::ScopedTimerEffect(TimerEffectView::WaitUntilFinished)),
                    singular_shape(timer_trigger_effects(self.timer_ended_trigger->0))->0,
                ]))]
            } else {
                Seq::<EffectWithIDView>::empty()
            },
    {
        let ghost start = anon_list(effects_view(effects@));
        assert(start == anon_list(effects_view(old(effects)@)));
        assert(start + Seq::<EffectWithIDView>::empty() =~= start);
        if is_true(&self.use_timer_ended) {
            match &self.timer_ended_trigger {
                Some(ended) => {
                    match singularize_effects(ended.to_lq()) {
                        Some(s) => {
                            let mut seq: Vec<EffectWithID> = Vec::new();
                            push_new(&mut seq, Effect::ScopedTimerEffect(TimerEffect::WaitUntilFinished));
                            let ghost b = seq@;
                            seq.push(s);
                            proof {
                                crate::effects::lemma_effects_view_push(b, s);
                                lemma_anon_list_push(effects_view(b), s@);
                                assert(effects_view(Seq::<EffectWithID>::empty()) =~= Seq::<EffectWithIDView>::empty());
                            }
                            let ghost inner = anon_list(effects_view(seq@));
                            assert(inner =~= seq![
                                blank(EffectView::ScopedTimerEffect(TimerEffectView::WaitUntilFinished)),
                                singular_shape(timer_trigger_effects(self.timer_ended_trigger->0))->0,
                            ]);
                            let ghost b2 = effects@;
                            let w = EffectWithID::new(Effect::Sequence(seq));
                            effects.push(w);
                            proof {
                                crate::effects::lemma_effects_view_push(b2, w);
                                lemma_anon_list_push(effects_view(b2), w@);
                            }
                            assert(anon_list(effects_view(effects@)) =~= start + seq![blank(EffectView::Sequence(inner))]);
                        },
                        None => {},
                    }
                },
                None => {},
            }
        }
    }

    /// The effects that the trigger's timer runs (see `timer_effects_of`).
    fn timer_effects(&self) -> (res: Result<Vec<EffectWithID>, GINAConversionError>)
        ensures
            res matches Ok(v) ==> timer_effects_of(*self) == Some(anon_list(effects_view(v@))),
            res matches Err(e) ==> timer_effects_of(*self) is None && e@ == ConversionErrorView::EarlyEnderPatternError,
    {
        let mut effects: Vec<EffectWithID> = Vec::new();
        assert(effects_view(effects@) =~= Seq::<EffectWithIDView>::empty());
        match self.early_enders_to_terminator() {
            Ok(Some(terminator)) => {
                let ghost b = effects@;
                effects.push(terminator);
                proof {
                    crate::effects::lemma_effects_view_push(b, terminator);
                    lemma_anon_list_push(effects_view(b), terminator@);
                }
            },
            Ok(None) => {},
            Err(e) => return Err(e),
        }
        let ghost term = anon_list(effects_view(effects@));
        assert(Some(term) == terminator_of(*self)) by {
            assert(anon_list(Seq::<EffectWithIDView>::empty()) =~= Seq::<EffectWithIDView>::empty());
        }
        self.ending_sequence(&mut effects);
        self.ended_sequence(&mut effects);
        Ok(effects)
    }

    /// The timer or stopwatch that the trigger starts, if any.
    fn timer_effect(&self, trigger_id: &UUID, timer_name: &TemplateString) -> (res: Result<Option<Effect>, GINAConversionError>)
        requires
            duration_fits(*self),
        ensures
            res matches Ok(Some(e)) ==> timer_effect_of(*self, trigger_id@, timer_name@) == Ok::<Option<EffectView>, ConversionErrorView>(Some(anon_effect(e@))),
            res matches Ok(None) ==> timer_effect_of(*self, trigger_id@, timer_name@) == Ok::<Option<EffectView>, ConversionErrorView>(None),
            res matches Err(e) ==> timer_effect_of(*self, trigger_id@, timer_name@) == Err::<Option<EffectView>, ConversionErrorView>(e@),
    {
        match self.timer_type {
            None => Ok(None),
            Some(GINATimerType::NoTimer) => Ok(None),
            Some(GINATimerType::Stopwatch) => {
                let mut effects: Vec<EffectWithID> = Vec::new();
                assert(effects_view(effects@) =~= Seq::<EffectWithIDView>::empty());
                match self.early_enders_to_terminator() {
                    Ok(Some(terminator)) => {
                        let ghost b = effects@;
                        effects.push(terminator);
                        proof {
                            crate::effects::lemma_effects_view_push(b, terminator);
                            lemma_anon_list_push(effects_view(b), terminator@);
                        }
                    },
                    Ok(None) => {},
                    Err(e) => return Err(e),
                }
                assert(anon_list(Seq::<EffectWithIDView>::empty()) =~= Seq::<EffectWithIDView>::empty());
                let stopwatch = Stopwatch { name: timer_name.clone(), tags: Vec::new(), effects };
                assert(crate::effects::tags_view(stopwatch.tags@) =~= Seq::<Seq<char>>::empty());
                Ok(Some(Effect::StartStopwatch(stopwatch)))
            },
            Some(kind) => {
                let duration = match (self.timer_millisecond_duration, self.timer_duration) {
                    (Some(millis), _) => Duration::from_millis(millis),
                    (None, Some(secs)) => Duration::from_secs(secs),
                    _ => return Err(GINAConversionError::TimerDurationError(timer_name.clone())),
                };
                let start_policy = match self.timer_start_behavior {
                    None => TimerStartPolicy::AlwaysStartNewTimer,
                    Some(GINATimerStartBehavior::IgnoreIfRunning) => TimerStartPolicy::DoNothingIfTimerRunning,
                    Some(GINATimerStartBehavior::StartNewTimer) => if is_true(&self.restart_based_on_timer_name) {
                        TimerStartPolicy::StartAndReplacesAnyTimerOfTriggerWithNameTemplateMatching(timer_name.clone())
                    } else {
                        TimerStartPolicy::AlwaysStartNewTimer
                    },
                    Some(GINATimerStartBehavior::RestartTimer) => if is_true(&self.restart_based_on_timer_name) {
                        return Err(GINAConversionError::TimerStartPolicyError(timer_name.clone()));
                    } else {
                        TimerStartPolicy::StartAndReplacesAllTimersOfTrigger
                    },
                };
                let effects = match self.timer_effects() {
                    Ok(v) => v,
                    Err(e) => return Err(e),
                };
                let timer = Timer {
                    trigger_id: trigger_id.clone(),
                    name_tmpl: timer_name.clone(),
                    tags: Vec::new(),
                    duration,
                    start_policy,
                    repeats: kind == GINATimerType::RepeatingTimer,
                    effects,
                };
                assert(crate::effects::tags_view(timer.tags@) =~= Seq::<Seq<char>>::empty());
                Ok(Some(Effect::StartTimer(timer)))
            },
        }
    }

    /// The effects of the trigger (see `trigger_effects_of`).
    pub fn to_effects(&self, trigger_id: &UUID, timer_name: &TemplateString) -> (res: Result<Vec<EffectWithID>, GINAConversionError>)
        requires
            duration_fits(*self),
        ensures
            res matches Ok(v) ==> trigger_effects_of(*self, trigger_id@, timer_name@) == Ok::<Seq<EffectWithIDView>, ConversionErrorView>(anon_list(effects_view(v@))),
            res matches Err(e) ==> trigger_effects_of(*self, trigger_id@, timer_name@) == Err::<Seq<EffectWithIDView>, ConversionErrorView>(e@),
    {
        let mut plain: Vec<Effect> = Vec::new();
        if is_true(&self.use_text) {
            match nonempty_exec(&self.display_text) {
                Some(text) => plain.push(Effect::OverlayMessage(TemplateString::new(text.as_str()))),
                None => {},
            }
        }
        if is_true(&self.copy_to_clipboard) {
            match nonempty_exec(&self.clipboard_text) {
                Some(text) => plain.push(Effect::CopyToClipboard(TemplateString::new(text.as_str()))),
                None => {},
            }
        }
        match nonempty_exec(&self.text_to_voice_text) {
            Some(text) => if is_true(&self.use_text_to_voice) {
                plain.push(Effect::Speak { tmpl: TemplateString::new(text.as_str()), interrupt: is_true(&self.interrupt_speech) });
            },
            None => {},
        }
        if is_true(&self.play_media_file) {
            plain.push(Effect::PlayAudioFile(None));
        }
        let ghost pv = plain_effects_view(plain@);
        assert(pv =~= plain_effects_of(*self));
        assert forall|j: int| 0 <= j < pv.len() implies anon_effect(#[trigger] pv[j]) == pv[j] by {
            lemma_plain_anon(pv[j]);
        }
        assert(pv.skip(0) =~= pv);
        let timer = match self.timer_effect(trigger_id, timer_name) {
            Ok(t) => t,
            Err(e) => return Err(e),
        };
        let mut effects: Vec<EffectWithID> = Vec::new();
        assert(anon_list(effects_view(effects@)) =~= Seq::<EffectWithIDView>::empty()) by {
            assert(effects_view(effects@) =~= Seq::<EffectWithIDView>::empty());
        }
        let n = plain.len();
        let mut k: usize = 0;
        while k < n
            invariant
                n == pv.len(),
                k <= n,
                plain@.len() == n - k,
                plain_effects_view(plain@) == pv.skip(k as int),
                forall|j: int| 0 <= j < pv.len() ==> anon_effect(#[trigger] pv[j]) == pv[j],
                anon_list(effects_view(effects@)) == pv.take(k as int).map_values(|e: EffectView| blank(e)),
            decreases n - k,
        {
            assert(plain_effects_view(plain@)[0] == plain@[0]@);
            assert(pv.skip(k as int)[0] == pv[k as int]);
            let ghost pre = plain@;
            let e = plain.remove(0);
            assert forall|j: int| 0 <= j < plain@.len() implies (#[trigger] plain_effects_view(plain@)[j]) == pv.skip(k + 1)[j] by {
                assert(plain@[j] == pre[j + 1]);
                assert(plain_effects_view(pre)[j + 1] == pv.skip(k as int)[j + 1]);
            }
            assert(plain_effects_view(plain@) =~= pv.skip(k + 1));
            push_new(&mut effects, e);
            assert(pv.take(k + 1).map_values(|e: EffectView| blank(e)) =~= pv.take(k as int).map_values(|e: EffectView| blank(e)).push(blank(pv[k as int])));
            k = k + 1;
        }
        assert(pv.take(n as int) =~= pv);
        match timer {
            Some(t) => {
                push_new(&mut effects, t);
            },
            None => {},
        }
        assert(anon_list(effects_view(effects@)) =~= (pv + opt_seq(match timer_effect_of(*self, trigger_id@, timer_name@) {
            Ok(o) => o,
            Err(_) => None,
        })).map_values(|e: EffectView| blank(e)));
        Ok(effects)
    }
}

} // verus!

verus! {

/// A pattern that is read as GINA pattern needs readable constraint
/// operands; a timer duration in seconds must fit in milliseconds.
pub open spec fn trigger_convertible(t: GINATrigger) -> bool {
    &&& (t.trigger_text is Some && t.enable_regex == Some(true) ==> operands_fit(fixed_classes(t.trigger_text->0@)))
    &&& duration_fits(t)
}

/// The filter of trigger `t` (its text as a GINA pattern, or as a whole
/// line), or the error converting it gives.
pub open spec fn filter_outcome(t: GINATrigger, name: Seq<char>, res: Result<Filter, GINAConversionError>) -> bool {
    match t.trigger_text {
        None => res matches Err(e) && e@ == ConversionErrorView::TriggerPatternError(name),
        Some(text) => if text@.len() == 0 {
            res matches Err(e) && e@ == ConversionErrorView::TriggerPatternError(name)
        } else if t.enable_regex == Some(true) {
            let q = fixed_classes(text@);
            exists|names: Seq<Seq<char>>| #[trigger] generated_names_for(q, names)
                && (res is Ok <==> regex_accepts(translated(q, names)))
                && (res matches Ok(f) ==> f.wf() && f@.len() == 1 && (f@[0] matches MatcherView::GINA(r) && compiled_as(q, names, r)))
                && (res matches Err(e) ==> e@ == ConversionErrorView::RegexError)
        } else {
            res matches Ok(f) && f.wf() && f@ == seq![MatcherView::WholeLine(text@)]
        },
    }
}

impl GINATrigger {
    /// The filter of the trigger: its text as a GINA pattern when regular
    /// expressions are enabled, else as a whole line.
    pub fn to_filter(&self, trigger_name: &String) -> (res: Result<Filter, GINAConversionError>)
        requires
            trigger_convertible(*self),
        ensures
            filter_outcome(*self, trigger_name@, res),
    {
        match &self.trigger_text {
            None => Err(GINAConversionError::TriggerPatternError(trigger_name.clone())),
            Some(text) => {
                if chars_of(text.as_str()).len() == 0 {
                    return Err(GINAConversionError::TriggerPatternError(trigger_name.clone()));
                }
                if is_true(&self.enable_regex) {
                    let m = Matcher::gina(text.as_str());
                    let ghost q = fixed_classes(text@);
                    let ghost names = choose|names: Seq<Seq<char>>| #[trigger] generated_names_for(q, names)
                        && (m is Ok <==> regex_accepts(translated(q, names)))
                        && (m matches Ok(Matcher::GINA(r)) ==> compiled_as(q, names, r@));
                    match m {
                        Ok(matcher) => {
                            let f = Filter(vec![matcher]);
                            assert(f@ =~= seq![f.0@[0]@]);
                            assert(generated_names_for(q, names));
                            Ok(f)
                        },
                        Err(e) => {
                            assert(generated_names_for(q, names));
                            Err(GINAConversionError::RegexError(e))
                        },
                    }
                } else {
                    let f = Filter(vec![Matcher::WholeLine(text.clone())]);
                    assert(f@ =~= seq![MatcherView::WholeLine(text@)]);
                    Ok(f)
                }
            },
        }
    }
}

} // verus!

verus! {

pub open spec fn opt_str_view(o: Option<String>) -> Option<Seq<char>> {
    match o {
        Some(s) => Some(s@),
        None => None,
    }
}

/// The filter view of a converted trigger `t` (the `Ok` case of
/// `filter_outcome`).
pub open spec fn converted_filter(t: GINATrigger, fv: Seq<MatcherView>) -> bool {
    &&& t.trigger_text is Some
    &&& t.trigger_text->0@.len() > 0
    &&& if t.enable_regex == Some(true) {
        let q = fixed_classes(t.trigger_text->0@);
        exists|names: Seq<Seq<char>>| #[trigger] generated_names_for(q, names) && regex_accepts(translated(q, names))
            && fv.len() == 1 && (fv[0] matches MatcherView::GINA(r) && compiled_as(q, names, r))
    } else {
        fv == seq![MatcherView::WholeLine(t.trigger_text->0@)]
    }
}

/// The name of the timer of trigger `t`: its own, or an untitled one.
pub open spec fn timer_name_of(t: GINATrigger, tn: Seq<char>) -> bool {
    &&& t.timer_name is Some ==> tn == t.timer_name->0@
    &&& t.timer_name is None ==> is_untitled(tn, "Timer"@)
}

/// Trigger view `v` is what converting GINA trigger `t` (in group `parent`,
/// imported at `import_time`) gives.
pub open spec fn converted_trigger(t: GINATrigger, parent: Seq<char>, import_time: Timestamp, v: TriggerView) -> bool {
    &&& t.name is Some ==> v.name == t.name->0@
    &&& t.name is None ==> is_untitled(v.name, "Trigger"@)
    &&& v.parent_id == Some(parent)
    &&& v.comment == opt_str_view(t.comments)
    &&& v.enabled
    &&& v.created_at == import_time
    &&& v.updated_at == (match t.modified {
        Some(ms) => Timestamp(ms),
        None => import_time,
    })
    &&& converted_filter(t, v.filter)
    &&& exists|tn: Seq<char>| #[trigger] timer_name_of(t, tn) && trigger_effects_of(t, v.id, tn) == Ok::<Seq<EffectWithIDView>, ConversionErrorView>(anon_list(v.effects))
}

/// The tag of category `c` among the (category, tag) pairs.
pub open spec fn category_tag(s: Seq<(String, UUID)>, c: Seq<char>) -> Option<Seq<char>>
    decreases s.len(),
{
    if s.len() == 0 {
        None
    } else if s.last().0@ == c {
        Some(s.last().1@)
    } else {
        category_tag(s.drop_last(), c)
    }
}

fn category_tag_exec<'a>(s: &'a Vec<(String, UUID)>, c: &String) -> (res: Option<&'a UUID>)
    ensures
        res matches Some(u) ==> category_tag(s@, c@) == Some(u@),
        res is None ==> category_tag(s@, c@) is None,
{
    let mut k: usize = s.len();
    assert(s@.take(k as int) =~= s@);
    while k > 0
        invariant
            k <= s@.len(),
            category_tag(s@, c@) == category_tag(s@.take(k as int), c@),
        decreases k,
    {
        assert(s@.take(k as int).drop_last() =~= s@.take(k - 1));
        assert(s@.take(k as int).last() == s@[k - 1]);
        if crate::text::str_eq(s[k - 1].0.as_str(), c.as_str()) {
            return Some(&s[k - 1].1);
        }
        k = k - 1;
    }
    None
}

/// The tags keep their identifiers and names (and their order).
pub open spec fn tags_kept(o: Seq<TagView>, n: Seq<TagView>) -> bool {
    &&& n.len() == o.len()
    &&& forall|i: int| 0 <= i < o.len() ==> (#[trigger] n[i]).id == o[i].id && n[i].name == o[i].name
}

/// The name trigger `t` gets: its own, or an untitled one.
pub open spec fn trigger_name_of(t: GINATrigger, n: Seq<char>) -> bool {
    &&& t.name is Some ==> n == t.name->0@
    &&& t.name is None ==> is_untitled(n, "Trigger"@)
}

/// Trigger `t` has no pattern, or an empty one.
pub open spec fn pattern_missing(t: GINATrigger) -> bool {
    t.trigger_text is None || t.trigger_text->0@.len() == 0
}

/// `e` is the error converting trigger `t` gives: for a missing or empty
/// pattern, a pattern error naming the trigger; else a regular expression
/// error for a GINA pattern the engine refused, or the error converting its
/// effects gives (such as a duration error naming the timer of a timer
/// without duration).
pub open spec fn conversion_error_of(t: GINATrigger, e: ConversionErrorView) -> bool {
    if pattern_missing(t) {
        exists|n: Seq<char>| #[trigger] trigger_name_of(t, n) && e == ConversionErrorView::TriggerPatternError(n)
    } else {
        ||| (e == ConversionErrorView::RegexError && t.enable_regex == Some(true) && exists|names: Seq<Seq<char>>|
            #[trigger] generated_names_for(fixed_classes(t.trigger_text->0@), names)
                && !regex_accepts(translated(fixed_classes(t.trigger_text->0@), names)))
        ||| exists|id: Seq<char>, tn: Seq<char>| timer_name_of(t, tn)
                && #[trigger] trigger_effects_of(t, id, tn) == Err::<Seq<EffectWithIDView>, ConversionErrorView>(e)
    }
}

/// The pattern of trigger `t` converts: it is a non-empty line, read as a
/// GINA pattern only where the regular expression engine accepts its
/// translation under every choice of generated group names.
pub open spec fn pattern_converts(t: GINATrigger) -> bool {
    &&& !pattern_missing(t)
    &&& t.enable_regex == Some(true) ==> forall|names: Seq<Seq<char>>|
        #[trigger] generated_names_for(fixed_classes(t.trigger_text->0@), names)
            ==> regex_accepts(translated(fixed_classes(t.trigger_text->0@), names))
}

/// Trigger `t` converts, whatever identifiers it gets: its pattern converts
/// and so do its effects.
pub open spec fn trigger_converts(t: GINATrigger) -> bool {
    &&& pattern_converts(t)
    &&& trigger_effects_of(t, Seq::empty(), Seq::empty()) is Ok
}

/// Converting trigger `t` can fail: it has no pattern, the regular
/// expression engine refuses the translation of its GINA pattern under some
/// choice of generated group names, or its effects do not convert.
pub open spec fn trigger_fails(t: GINATrigger) -> bool {
    ||| t.trigger_text is None
    ||| t.trigger_text->0@.len() == 0
    ||| (t.enable_regex == Some(true) && exists|names: Seq<Seq<char>>|
        #[trigger] generated_names_for(fixed_classes(t.trigger_text->0@), names)
            && !regex_accepts(translated(fixed_classes(t.trigger_text->0@), names)))
    ||| trigger_effects_of(t, Seq::empty(), Seq::empty()) is Err
}

/// The tag that `cats` gives the category of trigger `t`, where it gives
/// one, is among `tags`.
pub open spec fn category_tag_present(t: GINATrigger, cats: Seq<(String, UUID)>, tags: Seq<TagView>) -> bool {
    match t.category {
        Some(c) => match category_tag(cats, c@) {
            Some(tag) => has_tag(tags, tag),
            None => true,
        },
        None => true,
    }
}

/// Every tag that `cats` gives is among `tags`.
pub open spec fn tags_present(tags: Seq<TagView>, cats: Seq<(String, UUID)>) -> bool {
    forall|j: int| 0 <= j < cats.len() ==> has_tag(tags, (#[trigger] cats[j]).1@)
}

proof fn lemma_category_tag_in(s: Seq<(String, UUID)>, c: Seq<char>)
    ensures
        category_tag(s, c) matches Some(t) ==> exists|j: int| 0 <= j < s.len() && (#[trigger] s[j]).1@ == t,
    decreases s.len(),
{
    if s.len() > 0 {
        if s.last().0@ == c {
            assert(s[s.len() - 1] == s.last());
        } else {
            lemma_category_tag_in(s.drop_last(), c);
            if category_tag(s, c) is Some {
                let t = category_tag(s, c)->0;
                let j = choose|j: int| 0 <= j < s.drop_last().len() && (#[trigger] s.drop_last()[j]).1@ == t;
                assert(s[j] == s.drop_last()[j]);
            }
        }
    }
}

proof fn lemma_tag_present_for(t: GINATrigger, cats: Seq<(String, UUID)>, tags: Seq<TagView>)
    requires
        tags_present(tags, cats),
    ensures
        category_tag_present(t, cats, tags),
{
    if t.category is Some {
        lemma_category_tag_in(cats, t.category->0@);
    }
}

proof fn lemma_tags_present_kept(o: Seq<TagView>, n: Seq<TagView>, cats: Seq<(String, UUID)>)
    requires
        tags_present(o, cats),
        tags_kept(o, n),
    ensures
        tags_present(n, cats),
{
    assert forall|j: int| 0 <= j < cats.len() implies has_tag(n, (#[trigger] cats[j]).1@) by {
        let i = choose|i: int| 0 <= i < o.len() && (#[trigger] o[i]).id == cats[j].1@;
        assert(n[i].id == o[i].id);
    }
}

impl GINATrigger {
    /// Converts the trigger, imports it into `index` under group `parent_id`
    /// and tags it with the tag of its category.
    pub fn convert_import(&self, index: &mut TriggerIndex, parent_id: &UUID, category_tags: &Vec<(String, UUID)>, import_time: &Timestamp) -> (res: Result<UUID, GINAImportError>)
        requires
            old(index).wf(),
            trigger_convertible(*self),
        ensures
            final(index).wf(),
            old(index)@.triggers.dom().subset_of(final(index)@.triggers.dom()),
            final(index)@.groups == old(index)@.groups,
            final(index)@.top_level == old(index)@.top_level,
            tags_kept(old(index)@.tags, final(index)@.tags),
            res matches Err(GINAImportError::ConversionError(_)) ==> final(index)@ == old(index)@,
            res matches Ok(id) ==> {
                &&& id@.len() == UUID_LEN
                &&& final(index)@.triggers.contains_key(id@)
                &&& converted_trigger(*self, parent_id@, *import_time, final(index)@.triggers[id@])
                &&& final(index)@.triggers == old(index)@.triggers.insert(id@, final(index)@.triggers[id@])
                &&& final(index)@.groups == old(index)@.groups
                &&& final(index)@.top_level == old(index)@.top_level
                &&& tags_kept(old(index)@.tags, final(index)@.tags)
                &&& match (opt_str_view(self.category), category_tag(category_tags@, opt_str_view(self.category)->0)) {
                    (Some(_), Some(tag_id)) => exists|i: int| 0 <= i < old(index)@.tags.len() && (#[trigger] old(index)@.tags[i]).id == tag_id
                        && final(index)@.tags == old(index)@.tags.update(i, with_triggers(old(index)@.tags[i], old(index)@.tags[i].triggers.insert(id@))),
                    _ => final(index)@.tags == old(index)@.tags,
                }
            },
            trigger_converts(*self) && category_tag_present(*self, category_tags@, old(index)@.tags) ==> res is Ok,
            res matches Err(GINAImportError::ConversionError(_)) ==> trigger_fails(*self),
            res matches Err(GINAImportError::ConversionError(e)) ==> conversion_error_of(*self, e@),
            pattern_missing(*self) ==> res is Err && res->Err_0 is ConversionError,
            pattern_converts(*self) && trigger_effects_of(*self, Seq::empty(), Seq::empty()) is Err
                ==> res is Err && res->Err_0 is ConversionError,
            res matches Err(GINAImportError::MutationError(e)) ==> self.category is Some
                && category_tag(category_tags@, self.category->0@) is Some
                && e@ == ErrorView::TriggerTagNotFound(category_tag(category_tags@, self.category->0@)->0)
                && !has_tag(old(index)@.tags, category_tag(category_tags@, self.category->0@)->0),
    {
        let trigger_id = UUID::new();
        let trigger_name = match &self.name {
            Some(n) => n.clone(),
            None => untitled("Trigger"),
        };
        let updated_at = match self.modified {
            Some(ms) => Timestamp(ms),
            None => *import_time,
        };
        assert(trigger_name_of(*self, trigger_name@));
        let filter = match self.to_filter(&trigger_name) {
            Ok(f) => f,
            Err(e) => return Err(GINAImportError::ConversionError(e)),
        };
        let timer_name = TemplateString(match &self.timer_name {
            Some(n) => n.clone(),
            None => untitled("Timer"),
        });
        assert(timer_name_of(*self, timer_name@));
        let effects = match self.to_effects(&trigger_id, &timer_name) {
            Ok(v) => v,
            Err(e) => return Err(GINAImportError::ConversionError(e)),
        };
        let comment = match &self.comments {
            Some(c) => Some(c.clone()),
            None => None,
        };
        let trigger = Trigger {
            id: trigger_id.clone(),
            parent_id: Some(parent_id.clone()),
            name: trigger_name,
            comment,
            enabled: true,
            created_at: *import_time,
            updated_at,
            filter,
            effects,
        };
        let ghost v = trigger@;
        assert(timer_name_of(*self, timer_name@));
        assert(converted_trigger(*self, parent_id@, *import_time, v));
        index.import_trigger(trigger);
        let ghost mid = index@;
        match &self.category {
            Some(c) => {
                match category_tag_exec(category_tags, c) {
                    Some(tag_id) => {
                        let m = Mutation::TagTrigger { trigger_id: trigger_id.clone(), trigger_tag_id: tag_id.clone() };
                        match index.mutate(m) {
                            Ok(_) => {},
                            Err(e) => return Err(GINAImportError::MutationError(e)),
                        }
                    },
                    None => {},
                }
            },
            None => {},
        }
        Ok(trigger_id)
    }
}

} // verus!

verus! {

/// Every trigger in the groups `s`, at any depth, can be converted.
pub open spec fn groups_convertible(s: Seq<GINATriggerGroup>) -> bool
    decreases s, 1nat,
{
    if s.len() == 0 {
        true
    } else {
        groups_convertible(s.drop_last()) && group_convertible(s.last())
    }
}

pub open spec fn group_convertible(g: GINATriggerGroup) -> bool
    decreases g, 0nat,
{
    &&& forall|i: int| 0 <= i < g.triggers@.len() ==> trigger_convertible(#[trigger] g.triggers@[i])
    &&& groups_convertible(g.trigger_groups@)
}

/// Every trigger in the groups `s`, at any depth, converts.
pub open spec fn groups_convert(s: Seq<GINATriggerGroup>) -> bool
    decreases s, 1nat,
{
    if s.len() == 0 {
        true
    } else {
        groups_convert(s.drop_last()) && group_converts(s.last())
    }
}

pub open spec fn group_converts(g: GINATriggerGroup) -> bool
    decreases g, 0nat,
{
    &&& forall|i: int| 0 <= i < g.triggers@.len() ==> trigger_converts(#[trigger] g.triggers@[i])
    &&& groups_convert(g.trigger_groups@)
}

/// Converting some trigger in the groups `s`, at some depth, can fail.
pub open spec fn groups_fail(s: Seq<GINATriggerGroup>) -> bool
    decreases s, 1nat,
{
    if s.len() == 0 {
        false
    } else {
        groups_fail(s.drop_last()) || group_fails(s.last())
    }
}

pub open spec fn group_fails(g: GINATriggerGroup) -> bool
    decreases g, 0nat,
{
    ||| exists|i: int| 0 <= i < g.triggers@.len() && trigger_fails(#[trigger] g.triggers@[i])
    ||| groups_fail(g.trigger_groups@)
}

proof fn lemma_groups_convert(s: Seq<GINATriggerGroup>, i: int)
    requires
        groups_convert(s),
        0 <= i < s.len(),
    ensures
        group_converts(s[i]),
    decreases s.len(),
{
    if i < s.len() - 1 {
        lemma_groups_convert(s.drop_last(), i);
    }
}

proof fn lemma_groups_fail(s: Seq<GINATriggerGroup>, i: int)
    requires
        0 <= i < s.len(),
        group_fails(s[i]),
    ensures
        groups_fail(s),
    decreases s.len(),
{
    if i < s.len() - 1 {
        lemma_groups_fail(s.drop_last(), i);
    }
}

proof fn lemma_groups_convertible(s: Seq<GINATriggerGroup>, i: int)
    requires
        groups_convertible(s),
        0 <= i < s.len(),
    ensures
        group_convertible(s[i]),
    decreases s.len(),
{
    if i < s.len() - 1 {
        lemma_groups_convertible(s.drop_last(), i);
    }
}

/// Group view `v` is what converting GINA group `g` (under `parent`,
/// imported at `import_time`) gives: its subgroups come first among its
/// children, then its triggers.
pub open spec fn converted_group(g: GINATriggerGroup, parent: Option<Seq<char>>, import_time: Timestamp, v: GroupView) -> bool {
    &&& g.name is Some ==> v.name == g.name->0@
    &&& g.name is None ==> is_untitled(v.name, "Trigger Group"@)
    &&& v.comment == opt_str_view(g.comments)
    &&& v.parent_id == parent
    &&& v.created_at == import_time
    &&& v.updated_at == import_time
    &&& v.children.len() == g.trigger_groups@.len() + g.triggers@.len()
    &&& forall|i: int| 0 <= i < g.trigger_groups@.len() ==> (#[trigger] v.children[i]) is G
    &&& forall|i: int| g.trigger_groups@.len() <= i < v.children.len() ==> (#[trigger] v.children[i]) is T
}

pub open spec fn child_exists(n: IndexView, d: DescendantView) -> bool {
    match d {
        DescendantView::G(g) => n.groups.contains_key(g),
        DescendantView::T(t) => n.triggers.contains_key(t),
    }
}

pub open spec fn grows(o: IndexView, n: IndexView) -> bool {
    &&& o.triggers.dom().subset_of(n.triggers.dom())
    &&& o.groups.dom().subset_of(n.groups.dom())
    &&& tags_kept(o.tags, n.tags)
}

proof fn lemma_grows_trans(a: IndexView, b: IndexView, c: IndexView)
    requires
        grows(a, b),
        grows(b, c),
    ensures
        grows(a, c),
{
    assert forall|i: int| 0 <= i < a.tags.len() implies (#[trigger] c.tags[i]).id == a.tags[i].id && c.tags[i].name == a.tags[i].name by {
        assert(b.tags[i].id == a.tags[i].id);
    }
}

impl GINATriggerGroup {
    /// Converts the group, its subgroups and its triggers, and imports them
    /// into `index` under `parent_id`.
    pub fn convert_import(&self, index: &mut TriggerIndex, parent_id: &Option<UUID>, category_tags: &Vec<(String, UUID)>, import_time: &Timestamp) -> (res: Result<UUID, GINAImportError>)
        requires
            old(index).wf(),
            group_convertible(*self),
        ensures
            final(index).wf(),
            grows(old(index)@, final(index)@),
            (parent_id is Some || res is Err) ==> final(index)@.top_level == old(index)@.top_level,
            group_converts(*self) && tags_present(old(index)@.tags, category_tags@) ==> res is Ok,
            res matches Err(GINAImportError::ConversionError(_)) ==> group_fails(*self),
            res matches Err(GINAImportError::MutationError(_)) ==> !tags_present(old(index)@.tags, category_tags@),
            res matches Ok(id) ==> final(index)@.top_level == if parent_id is None {
                old(index)@.top_level.push(DescendantView::G(id@))
            } else {
                old(index)@.top_level
            },
            res matches Ok(id) ==> {
                &&& final(index)@.groups.contains_key(id@)
                &&& converted_group(*self, opt_ids_view(*parent_id), *import_time, final(index)@.groups[id@])
                &&& forall|i: int| 0 <= i < final(index)@.groups[id@].children.len() ==> child_exists(final(index)@, #[trigger] final(index)@.groups[id@].children[i])
            },
        decreases self,
    {
        let this_id = UUID::new();
        let mut children: Vec<TriggerGroupDescendant> = Vec::new();
        let ghost start = index@;
        let mut k: usize = 0;
        while k < self.trigger_groups.len()
            invariant
                index.wf(),
                group_convertible(*self),
                grows(start, index@),
                start == old(index)@,
                index@.top_level == start.top_level,
                k <= self.trigger_groups@.len(),
                children@.len() == k,
                forall|i: int| 0 <= i < k ==> (#[trigger] children@[i])@ is G,
                forall|i: int| 0 <= i < k ==> child_exists(index@, (#[trigger] children@[i])@),
            decreases self.trigger_groups@.len() - k,
        {
            proof {
                vstd::std_specs::vec::axiom_vec_index_decreases(self.trigger_groups, k as int);
                lemma_groups_convertible(self.trigger_groups@, k as int);
            }
            let ghost before = index@;
            let this = Some(this_id.clone());
            let gid = match self.trigger_groups[k].convert_import(index, &this, category_tags, import_time) {
                Ok(id) => id,
                Err(e) => {
                    proof {
                        lemma_grows_trans(start, before, index@);
                        if group_converts(*self) {
                            lemma_groups_convert(self.trigger_groups@, k as int);
                        }
                        if tags_present(start.tags, category_tags@) {
                            lemma_tags_present_kept(start.tags, before.tags, category_tags@);
                        }
                        if e is ConversionError {
                            lemma_groups_fail(self.trigger_groups@, k as int);
                        }
                    }
                    return Err(e);
                },
            };
            proof {
                lemma_grows_trans(start, before, index@);
                assert forall|i: int| 0 <= i < k implies child_exists(index@, (#[trigger] children@[i])@) by {
                    assert(child_exists(before, children@[i]@));
                }
            }
            children.push(TriggerGroupDescendant::G(gid));
            k = k + 1;
        }
        let ngroups = k;
        let mut k: usize = 0;
        while k < self.triggers.len()
            invariant
                index.wf(),
                group_convertible(*self),
                grows(start, index@),
                start == old(index)@,
                index@.top_level == start.top_level,
                ngroups == self.trigger_groups@.len(),
                k <= self.triggers@.len(),
                children@.len() == ngroups + k,
                forall|i: int| 0 <= i < ngroups ==> (#[trigger] children@[i])@ is G,
                forall|i: int| ngroups <= i < ngroups + k ==> (#[trigger] children@[i])@ is T,
                forall|i: int| 0 <= i < ngroups + k ==> child_exists(index@, (#[trigger] children@[i])@),
            decreases self.triggers@.len() - k,
        {
            let ghost before = index@;
            assert(trigger_convertible(self.triggers@[k as int]));
            let tid = match self.triggers[k].convert_import(index, &this_id, category_tags, import_time) {
                Ok(id) => id,
                Err(e) => {
                    proof {
                        lemma_grows_trans(start, before, index@);
                        if tags_present(start.tags, category_tags@) {
                            lemma_tags_present_kept(start.tags, before.tags, category_tags@);
                            lemma_tag_present_for(self.triggers@[k as int], category_tags@, before.tags);
                        }
                        if e is ConversionError {
                            assert(trigger_fails(self.triggers@[k as int]));
                        }
                    }
                    return Err(e);
                },
            };
            proof {
                lemma_grows_trans(start, before, index@);
                assert forall|i: int| 0 <= i < ngroups + k implies child_exists(index@, (#[trigger] children@[i])@) by {
                    assert(child_exists(before, children@[i]@));
                }
            }
            children.push(TriggerGroupDescendant::T(tid));
            k = k + 1;
        }
        let name = match &self.name {
            Some(n) => n.clone(),
            None => untitled("Trigger Group"),
        };
        let comment = match &self.comments {
            Some(c) => Some(c.clone()),
            None => None,
        };
        let parent = match parent_id {
            Some(p) => Some(p.clone()),
            None => None,
        };
        let group = TriggerGroup {
            id: this_id.clone(),
            parent_id: parent,
            name,
            comment,
            children,
            created_at: *import_time,
            updated_at: *import_time,
        };
        let ghost gv = group@;
        assert(converted_group(*self, opt_ids_view(*parent_id), *import_time, gv));
        let ghost before = index@;
        index.import_trigger_group(group);
        proof {
            assert(grows(before, index@));
            lemma_grows_trans(start, before, index@);
            assert forall|i: int| 0 <= i < gv.children.len() implies child_exists(index@, #[trigger] gv.children[i]) by {
                assert(child_exists(before, gv.children[i]));
            }
        }
        Ok(this_id)
    }
}

} // verus!

verus! {

pub open spec fn trigger_categories(ts: Seq<GINATrigger>) -> Set<Seq<char>>
    decreases ts.len(),
{
    if ts.len() == 0 {
        Set::empty()
    } else {
        trigger_categories(ts.drop_last()) + match ts.last().category {
            Some(c) => set![c@],
            None => Set::<Seq<char>>::empty(),
        }
    }
}

/// The categories of the triggers in the groups `s`, at any depth.
pub open spec fn groups_categories(s: Seq<GINATriggerGroup>) -> Set<Seq<char>>
    decreases s, 1nat,
{
    if s.len() == 0 {
        Set::empty()
    } else {
        groups_categories(s.drop_last()) + group_categories(s.last())
    }
}

pub open spec fn group_categories(g: GINATriggerGroup) -> Set<Seq<char>>
    decreases g, 0nat,
{
    trigger_categories(g.triggers@) + groups_categories(g.trigger_groups@)
}

pub open spec fn strings_view(v: Seq<String>) -> Seq<Seq<char>> {
    v.map_values(|s: String| s@)
}

/// Adds `c` to `out` unless it is there.
fn add_distinct(out: &mut Vec<String>, c: &String)
    requires
        strings_view(old(out)@).no_duplicates(),
    ensures
        strings_view(final(out)@).no_duplicates(),
        strings_view(final(out)@).to_set() == strings_view(old(out)@).to_set().insert(c@),
{
    let ghost before = strings_view(out@);
    assert(before == strings_view(old(out)@));
    let mut i: usize = 0;
    while i < out.len()
        invariant
            before == strings_view(out@),
            before == strings_view(old(out)@),
            before.no_duplicates(),
            i <= out@.len(),
            forall|j: int| 0 <= j < i ==> before[j] != c@,
        decreases out@.len() - i,
    {
        assert(before[i as int] == out@[i as int]@);
        if crate::text::str_eq(out[i].as_str(), c.as_str()) {
            assert(before.contains(c@));
            assert(before.to_set().insert(c@) =~= before.to_set());
            return;
        }
        i = i + 1;
    }
    out.push(c.clone());
    assert(strings_view(out@) =~= before.push(c@));
    proof {
        before.lemma_push_to_set_commute(c@);
    }
    assert(strings_view(out@).no_duplicates()) by {
        assert forall|a: int, b: int| 0 <= a < b < strings_view(out@).len() implies strings_view(out@)[a] != strings_view(out@)[b] by {
            if b == before.len() {
                assert(before[a] != c@);
            }
        }
    }
}

fn collect_categories(g: &GINATriggerGroup, out: &mut Vec<String>)
    requires
        strings_view(old(out)@).no_duplicates(),
    ensures
        strings_view(final(out)@).no_duplicates(),
        strings_view(final(out)@).to_set() == strings_view(old(out)@).to_set() + group_categories(*g),
    decreases g,
{
    let ghost start = strings_view(out@).to_set();
    let mut k: usize = 0;
    while k < g.triggers.len()
        invariant
            strings_view(out@).no_duplicates(),
            k <= g.triggers@.len(),
            strings_view(out@).to_set() == start + trigger_categories(g.triggers@.take(k as int)),
        decreases g.triggers@.len() - k,
    {
        assert(g.triggers@.take(k + 1).drop_last() =~= g.triggers@.take(k as int));
        assert(g.triggers@.take(k + 1).last() == g.triggers@[k as int]);
        match &g.triggers[k].category {
            Some(c) => {
                add_distinct(out, c);
                assert(strings_view(out@).to_set() =~= start + trigger_categories(g.triggers@.take(k + 1)));
            },
            None => {
                assert(strings_view(out@).to_set() =~= start + trigger_categories(g.triggers@.take(k + 1)));
            },
        }
        k = k + 1;
    }
    assert(g.triggers@.take(k as int) =~= g.triggers@);
    let ghost mid = strings_view(out@).to_set();
    let mut k: usize = 0;
    while k < g.trigger_groups.len()
        invariant
            strings_view(out@).no_duplicates(),
            k <= g.trigger_groups@.len(),
            strings_view(out@).to_set() == mid + groups_categories(g.trigger_groups@.take(k as int)),
        decreases g.trigger_groups@.len() - k,
    {
        proof {
            vstd::std_specs::vec::axiom_vec_index_decreases(g.trigger_groups, k as int);
        }
        assert(g.trigger_groups@.take(k + 1).drop_last() =~= g.trigger_groups@.take(k as int));
        assert(g.trigger_groups@.take(k + 1).last() == g.trigger_groups@[k as int]);
        collect_categories(&g.trigger_groups[k], out);
        assert(strings_view(out@).to_set() =~= mid + groups_categories(g.trigger_groups@.take(k + 1)));
        k = k + 1;
    }
    assert(g.trigger_groups@.take(k as int) =~= g.trigger_groups@);
    assert(strings_view(out@).to_set() =~= start + group_categories(*g));
}

proof fn lemma_tag_upsert_present(o: Seq<TagView>, n: Seq<TagView>, t: TagView, cats: Seq<(String, UUID)>)
    requires
        tags_present(o, cats),
        has_tag(o, t.id) ==> exists|i: int| 0 <= i < o.len() && (#[trigger] o[i]).id == t.id && n == o.update(i, t),
        !has_tag(o, t.id) ==> n == o.push(t),
    ensures
        tags_present(n, cats),
        has_tag(n, t.id),
{
    if has_tag(o, t.id) {
        let i = choose|i: int| 0 <= i < o.len() && (#[trigger] o[i]).id == t.id && n == o.update(i, t);
        assert(n[i].id == t.id);
        assert forall|j: int| 0 <= j < cats.len() implies has_tag(n, (#[trigger] cats[j]).1@) by {
            let m = choose|m: int| 0 <= m < o.len() && (#[trigger] o[m]).id == cats[j].1@;
            assert(n[m].id == o[m].id);
        }
    } else {
        assert(n[o.len() as int] == t);
        assert forall|j: int| 0 <= j < cats.len() implies has_tag(n, (#[trigger] cats[j]).1@) by {
            let m = choose|m: int| 0 <= m < o.len() && (#[trigger] o[m]).id == cats[j].1@;
            assert(n[m] == o[m]);
        }
    }
}

impl GINATriggers {
    /// The categories of all triggers in the package, each once.
    pub fn get_distinct_categories(&self) -> (res: Vec<String>)
        ensures
            strings_view(res@).no_duplicates(),
            strings_view(res@).to_set() == groups_categories(self.trigger_groups@),
    {
        let mut out: Vec<String> = Vec::new();
        assert(strings_view(out@).to_set() =~= groups_categories(self.trigger_groups@.take(0)));
        let mut k: usize = 0;
        while k < self.trigger_groups.len()
            invariant
                strings_view(out@).no_duplicates(),
                k <= self.trigger_groups@.len(),
                strings_view(out@).to_set() == groups_categories(self.trigger_groups@.take(k as int)),
            decreases self.trigger_groups@.len() - k,
        {
            assert(self.trigger_groups@.take(k + 1).drop_last() =~= self.trigger_groups@.take(k as int));
            assert(self.trigger_groups@.take(k + 1).last() == self.trigger_groups@[k as int]);
            collect_categories(&self.trigger_groups[k], &mut out);
            k = k + 1;
        }
        assert(self.trigger_groups@.take(k as int) =~= self.trigger_groups@);
        out
    }

    /// Converts the whole package into `index`: one tag per category, then
    /// every group with its contents, at the top level.
    pub fn convert_import(&self, index: &mut TriggerIndex, import_time: &Timestamp) -> (res: Result<(), GINAImportError>)
        requires
            old(index).wf(),
            groups_convertible(self.trigger_groups@),
        ensures
            final(index).wf(),
            old(index)@.triggers.dom().subset_of(final(index)@.triggers.dom()),
            old(index)@.groups.dom().subset_of(final(index)@.groups.dom()),
            final(index)@.top_level.len() >= old(index)@.top_level.len(),
            final(index)@.top_level.subrange(0, old(index)@.top_level.len() as int) == old(index)@.top_level,
            groups_convert(self.trigger_groups@) ==> res is Ok,
            res matches Err(GINAImportError::ConversionError(_)) ==> groups_fail(self.trigger_groups@),
            !(res matches Err(GINAImportError::MutationError(_))),
            res is Ok ==> final(index)@.top_level.len() == old(index)@.top_level.len() + self.trigger_groups@.len(),
            forall|i: int| old(index)@.top_level.len() <= i < final(index)@.top_level.len() ==>
                (#[trigger] final(index)@.top_level[i]) is G && final(index)@.groups.contains_key(final(index)@.top_level[i]->G_0),
    {
        let categories = self.get_distinct_categories();
        let mut category_tags: Vec<(String, UUID)> = Vec::new();
        let ghost start = index@;
        assert(start == old(index)@);
        let mut k: usize = 0;
        while k < categories.len()
            invariant
                index.wf(),
                start == old(index)@,
                index@.triggers == start.triggers,
                index@.groups == start.groups,
                index@.top_level == start.top_level,
                k <= categories@.len(),
                tags_present(index@.tags, category_tags@),
            decreases categories@.len() - k,
        {
            let ghost before = index@.tags;
            let ghost cats = category_tags@;
            let tag = index.create_trigger_tag(categories[k].as_str());
            proof { lemma_tag_upsert_present(before, index@.tags, tag@, cats); }
            category_tags.push((categories[k].clone(), tag.id.clone()));
            proof {
                assert forall|j: int| 0 <= j < category_tags@.len() implies has_tag(index@.tags, (#[trigger] category_tags@[j]).1@) by {
                    if j < cats.len() {
                        assert(category_tags@[j] == cats[j]);
                    }
                }
            }
            k = k + 1;
        }
        let ghost tagged = index@;
        let mut k: usize = 0;
        while k < self.trigger_groups.len()
            invariant
                index.wf(),
                start == old(index)@,
                groups_convertible(self.trigger_groups@),
                grows(tagged, index@),
                tagged.triggers == start.triggers,
                tagged.groups == start.groups,
                tagged.top_level == start.top_level,
                tags_present(tagged.tags, category_tags@),
                k <= self.trigger_groups@.len(),
                index@.top_level.len() == start.top_level.len() + k,
                index@.top_level.subrange(0, start.top_level.len() as int) == start.top_level,
                forall|i: int| start.top_level.len() <= i < index@.top_level.len() ==>
                    (#[trigger] index@.top_level[i]) is G && index@.groups.contains_key(index@.top_level[i]->G_0),
            decreases self.trigger_groups@.len() - k,
        {
            proof {
                lemma_groups_convertible(self.trigger_groups@, k as int);
            }
            let ghost before = index@;
            proof { lemma_tags_present_kept(tagged.tags, before.tags, category_tags@); }
            match self.trigger_groups[k].convert_import(index, &None, &category_tags, import_time) {
                Ok(_) => {},
                Err(e) => {
                    proof {
                        lemma_grows_trans(tagged, before, index@);
                        if groups_convert(self.trigger_groups@) {
                            lemma_groups_convert(self.trigger_groups@, k as int);
                        }
                        if e is ConversionError {
                            lemma_groups_fail(self.trigger_groups@, k as int);
                        }
                    }
                    return Err(e);
                },
            }
            proof {
                lemma_grows_trans(tagged, before, index@);
                assert(index@.top_level.subrange(0, start.top_level.len() as int) =~= start.top_level);
                assert forall|i: int| start.top_level.len() <= i < index@.top_level.len() implies
                    (#[trigger] index@.top_level[i]) is G && index@.groups.contains_key(index@.top_level[i]->G_0) by {
                    if i < before.top_level.len() {
                        assert(index@.top_level[i] == before.top_level[i]);
                        assert(before.groups.contains_key(before.top_level[i]->G_0));
                    }
                }
            }
            k = k + 1;
        }
        Ok(())
    }
}

} // verus!

verus! {

impl GINATrigger {
    /// Whether the trigger can be converted (see `trigger_convertible`).
    pub fn is_convertible(&self) -> (res: bool)
        ensures
            res == trigger_convertible(*self),
    {
        let regex_ok = match &self.trigger_text {
            Some(text) => if is_true(&self.enable_regex) {
                let fixed = crate::gina_fix::fix_possibly_invalid_character_classes(text.as_str());
                crate::gina_regex::operands_readable(fixed.as_str())
            } else {
                true
            },
            None => true,
        };
        let duration_ok = match (self.timer_millisecond_duration, self.timer_duration) {
            (None, Some(secs)) => secs <= 4294967,
            _ => true,
        };
        regex_ok && duration_ok
    }
}

fn group_convertible_exec(g: &GINATriggerGroup) -> (res: bool)
    ensures
        res == group_convertible(*g),
    decreases g,
{
    let mut k: usize = 0;
    while k < g.triggers.len()
        invariant
            k <= g.triggers@.len(),
            forall|i: int| 0 <= i < k ==> trigger_convertible(#[trigger] g.triggers@[i]),
        decreases g.triggers@.len() - k,
    {
        if !g.triggers[k].is_convertible() {
            return false;
        }
        k = k + 1;
    }
    let mut k: usize = 0;
    assert(groups_convertible(g.trigger_groups@.take(0)));
    while k < g.trigger_groups.len()
        invariant
            k <= g.trigger_groups@.len(),
            groups_convertible(g.trigger_groups@.take(k as int)),
        decreases g.trigger_groups@.len() - k,
    {
        proof {
            vstd::std_specs::vec::axiom_vec_index_decreases(g.trigger_groups, k as int);
        }
        assert(g.trigger_groups@.take(k + 1).drop_last() =~= g.trigger_groups@.take(k as int));
        assert(g.trigger_groups@.take(k + 1).last() == g.trigger_groups@[k as int]);
        if !group_convertible_exec(&g.trigger_groups[k]) {
            proof {
                lemma_groups_not_convertible(g.trigger_groups@, k as int);
            }
            return false;
        }
        k = k + 1;
    }
    assert(g.trigger_groups@.take(k as int) =~= g.trigger_groups@);
    true
}

proof fn lemma_groups_not_convertible(s: Seq<GINATriggerGroup>, k: int)
    requires
        0 <= k < s.len(),
        !group_convertible(s[k]),
    ensures
        !groups_convertible(s),
{
    if groups_convertible(s) {
        lemma_groups_convertible(s, k);
    }
}

impl GINATriggers {
    /// Whether every trigger of the package can be converted.
    pub fn can_convert(&self) -> (res: bool)
        ensures
            res == groups_convertible(self.trigger_groups@),
    {
        let mut k: usize = 0;
        assert(groups_convertible(self.trigger_groups@.take(0)));
        while k < self.trigger_groups.len()
            invariant
                k <= self.trigger_groups@.len(),
                groups_convertible(self.trigger_groups@.take(k as int)),
            decreases self.trigger_groups@.len() - k,
        {
            assert(self.trigger_groups@.take(k + 1).drop_last() =~= self.trigger_groups@.take(k as int));
            assert(self.trigger_groups@.take(k + 1).last() == self.trigger_groups@[k as int]);
            if !group_convertible_exec(&self.trigger_groups[k]) {
                proof {
                    lemma_groups_not_convertible(self.trigger_groups@, k as int);
                }
                return false;
            }
            k = k + 1;
        }
        assert(self.trigger_groups@.take(k as int) =~= self.trigger_groups@);
        true
    }
}

} // verus!
