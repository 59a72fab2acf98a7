//! Trigger packages exported by GINA: their data, as read from the package's
//! XML, element by element.
use vstd::prelude::*;
use crate::common::{gina_datetime_millis, parse_gina_datetime_millis};
use crate::text::{append_str, bounded, chars_of, parse_u32, str_eq, unsigned_value};

verus! {

#[derive(Debug)]
pub struct GINATriggers {
    pub trigger_groups: Vec<GINATriggerGroup>,
}

#[derive(Debug)]
pub struct GINATriggerGroup {
    pub name: Option<String>,
    pub comments: Option<String>,
    pub enable_by_default: Option<bool>,
    pub trigger_groups: Vec<GINATriggerGroup>,
    pub triggers: Vec<GINATrigger>,
    /// Ignored when importing.
    pub self_commented: Option<bool>,
    pub group_id: Option<u32>,
}

#[derive(Debug, Clone, Copy, PartialEq, Eq, Structural)]
pub enum GINATimerType {
    Timer,
    NoTimer,
    RepeatingTimer,
    Stopwatch,
}

#[derive(Debug, Clone, Copy, PartialEq, Eq, Structural)]
pub enum GINATimerStartBehavior {
    StartNewTimer,
    RestartTimer,
    IgnoreIfRunning,
}

#[derive(Debug)]
pub struct GINATrigger {
    pub name: Option<String>,
    pub trigger_text: Option<String>,
    pub comments: Option<String>,
    pub category: Option<String>,
    pub enable_regex: Option<bool>,
    pub use_text: Option<bool>,
    pub display_text: Option<String>,
    pub copy_to_clipboard: Option<bool>,
    pub clipboard_text: Option<String>,
    pub use_text_to_voice: Option<bool>,
    pub interrupt_speech: Option<bool>,
    pub text_to_voice_text: Option<String>,
    pub play_media_file: Option<bool>,
    pub timer_type: Option<GINATimerType>,
    pub timer_name: Option<String>,
    pub restart_based_on_timer_name: Option<bool>,
    pub timer_millisecond_duration: Option<u32>,
    pub timer_duration: Option<u32>,
    pub timer_visible_duration: Option<u32>,
    pub timer_start_behavior: Option<GINATimerStartBehavior>,
    pub timer_ending_time: Option<u32>,
    pub use_timer_ending: Option<bool>,
    pub use_timer_ended: Option<bool>,
    pub timer_ending_trigger: Option<GINATimerTrigger>,
    pub timer_ended_trigger: Option<GINATimerTrigger>,
    pub use_counter_reset_timer: Option<bool>,
    pub counter_reset_duration: Option<u32>,
    /// When the trigger was last changed, in milliseconds since the epoch (UTC).
    pub modified: Option<i64>,
    pub timer_early_enders: Vec<GINAEarlyEnder>,
    /// Ignored when importing.
    pub use_fast_check: Option<bool>,
}

/// The effects of a timer's ending or end (`<TimerEndingTrigger>`,
/// `<TimerEndedTrigger>`).
#[derive(Debug)]
pub struct GINATimerTrigger {
    /// Whether to display `display_text`.
    pub use_text: Option<bool>,
    pub display_text: Option<String>,
    pub use_text_to_voice: Option<bool>,
    pub interrupt_speech: Option<bool>,
    pub text_to_voice_text: Option<String>,
    pub play_media_file: Option<bool>,
}

#[derive(Debug)]
pub struct GINAEarlyEnder {
    pub early_end_text: Option<String>,
    pub enable_regex: Option<bool>,
}

/// Unexpected content in the package's XML.
#[derive(Debug)]
pub struct GINADataError(pub String);

impl GINATriggers {
    pub fn new() -> (res: GINATriggers)
        ensures
            res.trigger_groups@.len() == 0,
    {
        GINATriggers { trigger_groups: Vec::new() }
    }
}

impl GINATriggerGroup {
    pub fn new() -> (res: GINATriggerGroup)
        ensures
            res.name is None && res.comments is None && res.enable_by_default is None,
            res.self_commented is None && res.group_id is None,
            res.trigger_groups@.len() == 0 && res.triggers@.len() == 0,
    {
        GINATriggerGroup {
            name: None,
            comments: None,
            enable_by_default: None,
            trigger_groups: Vec::new(),
            triggers: Vec::new(),
            self_commented: None,
            group_id: None,
        }
    }
}

impl GINATrigger {
    pub fn new() -> (res: GINATrigger)
        ensures
            res.name is None && res.trigger_text is None && res.comments is None && res.category is None,
            res.enable_regex is None && res.use_text is None && res.display_text is None,
            res.copy_to_clipboard is None && res.clipboard_text is None && res.use_text_to_voice is None,
            res.interrupt_speech is None && res.text_to_voice_text is None && res.play_media_file is None,
            res.timer_type is None && res.timer_name is None && res.restart_based_on_timer_name is None,
            res.timer_millisecond_duration is None && res.timer_duration is None && res.timer_visible_duration is None,
            res.timer_start_behavior is None && res.timer_ending_time is None && res.use_timer_ending is None,
            res.use_timer_ended is None && res.timer_ending_trigger is None && res.timer_ended_trigger is None,
            res.use_counter_reset_timer is None && res.counter_reset_duration is None && res.modified is None,
            res.timer_early_enders@.len() == 0 && res.use_fast_check is None,
    {
        GINATrigger {
            name: None,
            trigger_text: None,
            comments: None,
            category: None,
            enable_regex: None,
            use_text: None,
            display_text: None,
            copy_to_clipboard: None,
            clipboard_text: None,
            use_text_to_voice: None,
            interrupt_speech: None,
            text_to_voice_text: None,
            play_media_file: None,
            timer_type: None,
            timer_name: None,
            restart_based_on_timer_name: None,
            timer_millisecond_duration: None,
            timer_duration: None,
            timer_visible_duration: None,
            timer_start_behavior: None,
            timer_ending_time: None,
            use_timer_ending: None,
            use_timer_ended: None,
            timer_ending_trigger: None,
            timer_ended_trigger: None,
            use_counter_reset_timer: None,
            counter_reset_duration: None,
            modified: None,
            timer_early_enders: Vec::new(),
            use_fast_check: None,
        }
    }
}

impl GINATimerTrigger {
    pub fn new() -> (res: GINATimerTrigger)
        ensures
            res.use_text is None && res.display_text is None && res.use_text_to_voice is None,
            res.interrupt_speech is None && res.text_to_voice_text is None && res.play_media_file is None,
    {
        GINATimerTrigger {
            use_text: None,
            display_text: None,
            use_text_to_voice: None,
            interrupt_speech: None,
            text_to_voice_text: None,
            play_media_file: None,
        }
    }
}

impl GINAEarlyEnder {
    pub fn new() -> (res: GINAEarlyEnder)
        ensures
            res.early_end_text is None && res.enable_regex is None,
    {
        GINAEarlyEnder { early_end_text: None, enable_regex: None }
    }
}

// ---------------------------------------------------------------------------
// Element values
// ---------------------------------------------------------------------------

/// A whole number as GINA writes it (`str::parse::<u32>`).
pub fn parse_int(text: &str) -> (res: Option<u32>)
    ensures
        res matches Some(v) ==> bounded(unsigned_value(text@), 0, u32::MAX as int) == Some(v as int),
        res is None ==> bounded(unsigned_value(text@), 0, u32::MAX as int) is None,
{
    let c = chars_of(text);
    assert(c@.subrange(0, c@.len() as int) =~= c@);
    parse_u32(&c, 0, c.len())
}

pub open spec fn bool_value(text: Seq<char>) -> Option<bool> {
    if text == "True"@ || text == "true"@ {
        Some(true)
    } else if text == "False"@ || text == "false"@ {
        Some(false)
    } else {
        None
    }
}

/// Reading a boolean element: `True` and `true` read as on, `False` and
/// `false` as off, and no other text reads as either.
pub proof fn lemma_bool_values(text: Seq<char>)
    ensures
        bool_value(text) == Some(true) <==> (text == "True"@ || text == "true"@),
        bool_value(text) == Some(false) <==> (text == "False"@ || text == "false"@),
        bool_value(text) is None <==> !(text == "True"@ || text == "true"@ || text == "False"@ || text == "false"@),
{
    reveal_strlit("True");
    reveal_strlit("true");
    reveal_strlit("False");
    reveal_strlit("false");
    assert("True"@ != "False"@ && "True"@ != "false"@ && "true"@ != "False"@ && "true"@ != "false"@) by {
        assert("True"@.len() != "False"@.len());
        assert("True"@.len() != "false"@.len());
        assert("true"@.len() != "False"@.len());
        assert("true"@.len() != "false"@.len());
    }
}

/// `True`/`true` or `False`/`false`.
pub fn parse_bool(text: &str) -> (res: Option<bool>)
    ensures
        res == bool_value(text@),
{
    if str_eq(text, "True") || str_eq(text, "true") {
        Some(true)
    } else if str_eq(text, "False") || str_eq(text, "false") {
        Some(false)
    } else {
        None
    }
}

/// A GINA timestamp such as `2024-04-10T22:48:35`, taken as UTC, in
/// milliseconds since the epoch.
pub fn parse_datetime(text: &str) -> (res: Option<i64>)
    ensures
        res == gina_datetime_millis(text@),
{
    parse_gina_datetime_millis(text)
}

pub open spec fn timer_type_value(text: Seq<char>) -> Option<GINATimerType> {
    if text == "Timer"@ {
        Some(GINATimerType::Timer)
    } else if text == "NoTimer"@ {
        Some(GINATimerType::NoTimer)
    } else if text == "Stopwatch"@ {
        Some(GINATimerType::Stopwatch)
    } else if text == "RepeatingTimer"@ {
        Some(GINATimerType::RepeatingTimer)
    } else {
        None
    }
}

pub fn parse_timer_type(text: &str) -> (res: Option<GINATimerType>)
    ensures
        res == timer_type_value(text@),
{
    if str_eq(text, "Timer") {
        Some(GINATimerType::Timer)
    } else if str_eq(text, "NoTimer") {
        Some(GINATimerType::NoTimer)
    } else if str_eq(text, "Stopwatch") {
        Some(GINATimerType::Stopwatch)
    } else if str_eq(text, "RepeatingTimer") {
        Some(GINATimerType::RepeatingTimer)
    } else {
        None
    }
}

pub open spec fn start_behavior_value(text: Seq<char>) -> Option<GINATimerStartBehavior> {
    if text == "StartNewTimer"@ {
        Some(GINATimerStartBehavior::StartNewTimer)
    } else if text == "RestartTimer"@ {
        Some(GINATimerStartBehavior::RestartTimer)
    } else if text == "IgnoreIfRunning"@ {
        Some(GINATimerStartBehavior::IgnoreIfRunning)
    } else {
        None
    }
}

pub fn parse_start_behavior(text: &str) -> (res: Option<GINATimerStartBehavior>)
    ensures
        res == start_behavior_value(text@),
{
    if str_eq(text, "StartNewTimer") {
        Some(GINATimerStartBehavior::StartNewTimer)
    } else if str_eq(text, "RestartTimer") {
        Some(GINATimerStartBehavior::RestartTimer)
    } else if str_eq(text, "IgnoreIfRunning") {
        Some(GINATimerStartBehavior::IgnoreIfRunning)
    } else {
        None
    }
}

pub open spec fn int_value(text: Seq<char>) -> Option<u32> {
    match bounded(unsigned_value(text), 0, u32::MAX as int) {
        Some(v) => Some(v as u32),
        None => None,
    }
}

fn int_of(text: &str) -> (res: Option<u32>)
    ensures
        res == int_value(text@),
{
    parse_int(text)
}

} // verus!

verus! {

/// `t` after taking the text `data` of its element `e` (a field that
/// no element names stays as it is).
pub open spec fn triggergroup_with_field(t: GINATriggerGroup, e: Seq<char>, data: String) -> GINATriggerGroup {
    if e == "Name"@ {
        GINATriggerGroup { name: Some(data), ..t }
    } else if e == "Comments"@ {
        GINATriggerGroup { comments: Some(data), ..t }
    } else if e == "SelfCommented"@ {
        GINATriggerGroup { self_commented: bool_value(data@), ..t }
    } else if e == "GroupId"@ {
        GINATriggerGroup { group_id: int_value(data@), ..t }
    } else if e == "EnableByDefault"@ {
        GINATriggerGroup { enable_by_default: bool_value(data@), ..t }
    } else {
        t
    }
}

impl GINATriggerGroup {
    /// Takes the text `data` of element `element`.
    pub fn set_field(&mut self, element: &str, data: String)
        ensures
            *final(self) == triggergroup_with_field(*old(self), element@, data),
    {
        if str_eq(element, "Name") {
            self.name = Some(data);
        } else if str_eq(element, "Comments") {
            self.comments = Some(data);
        } else if str_eq(element, "SelfCommented") {
            self.self_commented = parse_bool(data.as_str());
        } else if str_eq(element, "GroupId") {
            self.group_id = int_of(data.as_str());
        } else if str_eq(element, "EnableByDefault") {
            self.enable_by_default = parse_bool(data.as_str());
        }
    }
}

/// `t` after taking the text `data` of its element `e` (a field that
/// no element names stays as it is). `Err` holds the message for an unrecognised value.
pub open spec fn trigger_with_field(t: GINATrigger, e: Seq<char>, data: String) -> Result<GINATrigger, Seq<char>> {
    if e == "Name"@ {
        Ok(GINATrigger { name: Some(data), ..t })
    } else if e == "TriggerText"@ {
        Ok(GINATrigger { trigger_text: Some(data), ..t })
    } else if e == "Comments"@ {
        Ok(GINATrigger { comments: Some(data), ..t })
    } else if e == "EnableRegex"@ {
        Ok(GINATrigger { enable_regex: bool_value(data@), ..t })
    } else if e == "UseText"@ {
        Ok(GINATrigger { use_text: bool_value(data@), ..t })
    } else if e == "DisplayText"@ {
        Ok(GINATrigger { display_text: Some(data), ..t })
    } else if e == "CopyToClipboard"@ {
        Ok(GINATrigger { copy_to_clipboard: bool_value(data@), ..t })
    } else if e == "ClipboardText"@ {
        Ok(GINATrigger { clipboard_text: Some(data), ..t })
    } else if e == "UseTextToVoice"@ {
        Ok(GINATrigger { use_text_to_voice: bool_value(data@), ..t })
    } else if e == "InterruptSpeech"@ {
        Ok(GINATrigger { interrupt_speech: bool_value(data@), ..t })
    } else if e == "TextToVoiceText"@ {
        Ok(GINATrigger { text_to_voice_text: Some(data), ..t })
    } else if e == "PlayMediaFile"@ {
        Ok(GINATrigger { play_media_file: bool_value(data@), ..t })
    } else if e == "TimerType"@ {
        match timer_type_value(data@) {
            Some(v) => Ok(GINATrigger { timer_type: Some(v), ..t }),
            None => Err("Unrecognized TimerType: "@ + data@),
        }
    } else if e == "TimerName"@ {
        Ok(GINATrigger { timer_name: Some(data), ..t })
    } else if e == "RestartBasedOnTimerName"@ {
        Ok(GINATrigger { restart_based_on_timer_name: bool_value(data@), ..t })
    } else if e == "TimerMillisecondDuration"@ {
        Ok(GINATrigger { timer_millisecond_duration: int_value(data@), ..t })
    } else if e == "TimerDuration"@ {
        Ok(GINATrigger { timer_duration: int_value(data@), ..t })
    } else if e == "TimerVisibleDuration"@ {
        Ok(GINATrigger { timer_visible_duration: int_value(data@), ..t })
    } else if e == "TimerStartBehavior"@ {
        match start_behavior_value(data@) {
            Some(v) => Ok(GINATrigger { timer_start_behavior: Some(v), ..t }),
            None => Err("Unrecognized GINA start behavior: "@ + data@),
        }
    } else if e == "TimerEndingTime"@ {
        Ok(GINATrigger { timer_ending_time: int_value(data@), ..t })
    } else if e == "UseTimerEnding"@ {
        Ok(GINATrigger { use_timer_ending: bool_value(data@), ..t })
    } else if e == "UseTimerEnded"@ {
        Ok(GINATrigger { use_timer_ended: bool_value(data@), ..t })
    } else if e == "UseCounterResetTimer"@ {
        Ok(GINATrigger { use_counter_reset_timer: bool_value(data@), ..t })
    } else if e == "CounterResetDuration"@ {
        Ok(GINATrigger { counter_reset_duration: int_value(data@), ..t })
    } else if e == "Category"@ {
        Ok(GINATrigger { category: Some(data), ..t })
    } else if e == "Modified"@ {
        Ok(GINATrigger { modified: gina_datetime_millis(data@), ..t })
    } else if e == "UseFastCheck"@ {
        Ok(GINATrigger { use_fast_check: bool_value(data@), ..t })
    } else {
        Ok(t)
    }
}

impl GINATrigger {
    /// Takes the text `data` of element `element`.
    pub fn set_field(&mut self, element: &str, data: String) -> (res: Result<(), GINADataError>)
        ensures
            trigger_with_field(*old(self), element@, data) matches Ok(n) ==> *final(self) == n && res is Ok,
            trigger_with_field(*old(self), element@, data) matches Err(m) ==> *final(self) == *old(self) && (res matches Err(e) && e.0@ == m),
    {
        if str_eq(element, "Name") {
            self.name = Some(data);
        } else if str_eq(element, "TriggerText") {
            self.trigger_text = Some(data);
        } else if str_eq(element, "Comments") {
            self.comments = Some(data);
        } else if str_eq(element, "EnableRegex") {
            self.enable_regex = parse_bool(data.as_str());
        } else if str_eq(element, "UseText") {
            self.use_text = parse_bool(data.as_str());
        } else if str_eq(element, "DisplayText") {
            self.display_text = Some(data);
        } else if str_eq(element, "CopyToClipboard") {
            self.copy_to_clipboard = parse_bool(data.as_str());
        } else if str_eq(element, "ClipboardText") {
            self.clipboard_text = Some(data);
        } else if str_eq(element, "UseTextToVoice") {
            self.use_text_to_voice = parse_bool(data.as_str());
        } else if str_eq(element, "InterruptSpeech") {
            self.interrupt_speech = parse_bool(data.as_str());
        } else if str_eq(element, "TextToVoiceText") {
            self.text_to_voice_text = Some(data);
        } else if str_eq(element, "PlayMediaFile") {
            self.play_media_file = parse_bool(data.as_str());
        } else if str_eq(element, "TimerType") {
            match parse_timer_type(data.as_str()) {
                Some(v) => {
                    self.timer_type = Some(v);
                },
                None => {
                    let mut msg = String::new();
                    append_str(&mut msg, "Unrecognized TimerType: ");
                    append_str(&mut msg, data.as_str());
                    return Err(GINADataError(msg));
                },
            }
        } else if str_eq(element, "TimerName") {
            self.timer_name = Some(data);
        } else if str_eq(element, "RestartBasedOnTimerName") {
            self.restart_based_on_timer_name = parse_bool(data.as_str());
        } else if str_eq(element, "TimerMillisecondDuration") {
            self.timer_millisecond_duration = int_of(data.as_str());
        } else if str_eq(element, "TimerDuration") {
            self.timer_duration = int_of(data.as_str());
        } else if str_eq(element, "TimerVisibleDuration") {
            self.timer_visible_duration = int_of(data.as_str());
        } else if str_eq(element, "TimerStartBehavior") {
            match parse_start_behavior(data.as_str()) {
                Some(v) => {
                    self.timer_start_behavior = Some(v);
                },
                None => {
                    let mut msg = String::new();
                    append_str(&mut msg, "Unrecognized GINA start behavior: ");
                    append_str(&mut msg, data.as_str());
                    return Err(GINADataError(msg));
                },
            }
        } else if str_eq(element, "TimerEndingTime") {
            self.timer_ending_time = int_of(data.as_str());
        } else if str_eq(element, "UseTimerEnding") {
            self.use_timer_ending = parse_bool(data.as_str());
        } else if str_eq(element, "UseTimerEnded") {
            self.use_timer_ended = parse_bool(data.as_str());
        } else if str_eq(element, "UseCounterResetTimer") {
            self.use_counter_reset_timer = parse_bool(data.as_str());
        } else if str_eq(element, "CounterResetDuration") {
            self.counter_reset_duration = int_of(data.as_str());
        } else if str_eq(element, "Category") {
            self.category = Some(data);
        } else if str_eq(element, "Modified") {
            self.modified = parse_datetime(data.as_str());
        } else if str_eq(element, "UseFastCheck") {
            self.use_fast_check = parse_bool(data.as_str());
        }
        Ok(())
    }
}

/// `t` after taking the text `data` of its element `e` (a field that
/// no element names stays as it is).
pub open spec fn timertrigger_with_field(t: GINATimerTrigger, e: Seq<char>, data: String) -> GINATimerTrigger {
    if e == "UseText"@ {
        GINATimerTrigger { use_text: bool_value(data@), ..t }
    } else if e == "DisplayText"@ {
        GINATimerTrigger { display_text: Some(data), ..t }
    } else if e == "UseTextToVoice"@ {
        GINATimerTrigger { use_text_to_voice: bool_value(data@), ..t }
    } else if e == "InterruptSpeech"@ {
        GINATimerTrigger { interrupt_speech: bool_value(data@), ..t }
    } else if e == "TextToVoiceText"@ {
        GINATimerTrigger { text_to_voice_text: Some(data), ..t }
    } else if e == "PlayMediaFile"@ {
        GINATimerTrigger { play_media_file: bool_value(data@), ..t }
    } else {
        t
    }
}

impl GINATimerTrigger {
    /// Takes the text `data` of element `element`.
    pub fn set_field(&mut self, element: &str, data: String)
        ensures
            *final(self) == timertrigger_with_field(*old(self), element@, data),
    {
        if str_eq(element, "UseText") {
            self.use_text = parse_bool(data.as_str());
        } else if str_eq(element, "DisplayText") {
            self.display_text = Some(data);
        } else if str_eq(element, "UseTextToVoice") {
            self.use_text_to_voice = parse_bool(data.as_str());
        } else if str_eq(element, "InterruptSpeech") {
            self.interrupt_speech = parse_bool(data.as_str());
        } else if str_eq(element, "TextToVoiceText") {
            self.text_to_voice_text = Some(data);
        } else if str_eq(element, "PlayMediaFile") {
            self.play_media_file = parse_bool(data.as_str());
        }
    }
}

/// `t` after taking the text `data` of its element `e` (a field that
/// no element names stays as it is).
pub open spec fn earlyender_with_field(t: GINAEarlyEnder, e: Seq<char>, data: String) -> GINAEarlyEnder {
    if e == "EarlyEndText"@ {
        GINAEarlyEnder { early_end_text: Some(data), ..t }
    } else if e == "EnableRegex"@ {
        GINAEarlyEnder { enable_regex: bool_value(data@), ..t }
    } else {
        t
    }
}

impl GINAEarlyEnder {
    /// Takes the text `data` of element `element`.
    pub fn set_field(&mut self, element: &str, data: String)
        ensures
            *final(self) == earlyender_with_field(*old(self), element@, data),
    {
        if str_eq(element, "EarlyEndText") {
            self.early_end_text = Some(data);
        } else if str_eq(element, "EnableRegex") {
            self.enable_regex = parse_bool(data.as_str());
        }
    }
}

} // verus!
