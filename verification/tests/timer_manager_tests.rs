use logquest::common::UUID;
use logquest::effects::TimerStartPolicy;
use logquest::matchers::MatchContext;
use logquest::template::TemplateString;
use logquest::timer_manager::{BeginOutcome, TimerEntry, TimerRegistry};

fn entry(id: &str, trigger: &str, name: &str) -> TimerEntry {
    TimerEntry {
        id: UUID::from_str_unchecked(id),
        trigger_id: UUID::from_str_unchecked(trigger),
        name: name.to_owned(),
        is_hidden: false,
    }
}

fn ids(r: &TimerRegistry) -> Vec<String> {
    r.timers.iter().map(|t| t.id.as_str().to_owned()).collect()
}

#[test]
fn start_policies() {
    let ctx = MatchContext::empty("Xenk");
    let mut r = TimerRegistry::new();
    assert!(matches!(r.begin(entry("1", "t1", "Mez"), &TimerStartPolicy::AlwaysStartNewTimer, &ctx), BeginOutcome::Started(k) if k.is_empty()));
    assert!(matches!(r.begin(entry("2", "t1", "Root"), &TimerStartPolicy::AlwaysStartNewTimer, &ctx), BeginOutcome::Started(_)));
    assert!(matches!(r.begin(entry("3", "t2", "Mez"), &TimerStartPolicy::AlwaysStartNewTimer, &ctx), BeginOutcome::Started(_)));
    assert_eq!(ids(&r), vec!["1", "2", "3"]);
    assert!(r.is_timer_running_with_name("Root"));
    assert!(!r.is_timer_running_with_name("Slow"));

    // a timer of the same name is not started and changes nothing
    assert!(matches!(r.begin(entry("4", "t9", "Mez"), &TimerStartPolicy::DoNothingIfTimerRunning, &ctx), BeginOutcome::NotStarted));
    assert_eq!(ids(&r), vec!["1", "2", "3"]);
    assert!(matches!(r.begin(entry("4", "t9", "Slow"), &TimerStartPolicy::DoNothingIfTimerRunning, &ctx), BeginOutcome::Started(_)));

    // replacing by name ends only the trigger's timers of that name
    let policy = TimerStartPolicy::StartAndReplacesAnyTimerOfTriggerWithNameTemplateMatching(TemplateString::new("Mez"));
    match r.begin(entry("5", "t1", "Mez"), &policy, &ctx) {
        BeginOutcome::Started(killed) => assert_eq!(killed.iter().map(|u| u.as_str()).collect::<Vec<_>>(), vec!["1"]),
        BeginOutcome::NotStarted => panic!("should start"),
    }
    assert_eq!(ids(&r), vec!["2", "3", "4", "5"]);

    // replacing all ends every timer of the trigger
    match r.begin(entry("6", "t1", "Other"), &TimerStartPolicy::StartAndReplacesAllTimersOfTrigger, &ctx) {
        BeginOutcome::Started(killed) => {
            let mut k: Vec<&str> = killed.iter().map(|u| u.as_str()).collect();
            k.sort();
            assert_eq!(k, vec!["2", "5"]);
        },
        BeginOutcome::NotStarted => panic!("should start"),
    }
    assert_eq!(ids(&r), vec!["3", "4", "6"]);
}

#[test]
fn replacement_by_rendered_name() {
    let re = logquest::gina_regex::RegexGINA::from_str(r"^{S} is mesmerized$").unwrap();
    let ctx = re.check("Goblin is mesmerized", "Xenk").unwrap();
    let mut r = TimerRegistry::new();
    r.begin(entry("1", "t", "Mez Goblin"), &TimerStartPolicy::AlwaysStartNewTimer, &ctx);
    r.begin(entry("2", "t", "Mez Orc"), &TimerStartPolicy::AlwaysStartNewTimer, &ctx);
    let policy = TimerStartPolicy::StartAndReplacesAnyTimerOfTriggerWithNameTemplateMatching(TemplateString::new("Mez ${S}"));
    match r.begin(entry("3", "t", "Mez Goblin"), &policy, &ctx) {
        BeginOutcome::Started(killed) => assert_eq!(killed.len(), 1),
        BeginOutcome::NotStarted => panic!(),
    }
    assert_eq!(ids(&r), vec!["2", "3"]);
}

#[test]
fn terminate_restart_and_hide() {
    let ctx = MatchContext::empty("Xenk");
    let mut r = TimerRegistry::new();
    r.begin(entry("1", "t", "A"), &TimerStartPolicy::AlwaysStartNewTimer, &ctx);
    assert!(r.is_running("1"));
    assert!(r.set_hidden("1", true));
    assert!(!r.set_hidden("1", true));
    assert!(r.timers[0].is_hidden);
    assert!(r.set_hidden("1", false));
    assert!(!r.set_hidden("9", true));
    assert!(r.terminate("1"));
    assert!(!r.terminate("1"));
    assert!(!r.is_running("1"));
    assert!(r.timers.is_empty());
}
