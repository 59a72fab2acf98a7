use logquest::gina_regex::{validate_gina_regex, validate_gina_regex_with_context, RegexGINA};
use logquest::matchers::MatchContext;

const TOON: &str = "Xenk";

fn create_context(pattern: &str, text: &str) -> MatchContext {
    let regex_gina = RegexGINA::from_str(pattern).expect("create_context could not compile RegexGINA pattern!");
    regex_gina.check(text, TOON).expect("create_context pattern and text do not match!")
}

fn assert_pattern_does_not_match(pattern: &str, texts: &[&str]) {
    let regex_gina = RegexGINA::from_str(pattern).expect("Invalid regex pattern");
    for text in texts {
        assert!(regex_gina.check(text, TOON).is_none());
    }
}

fn assert_pattern_matches(pattern: &str, text: &str, expectations: &[(&str, &str)]) {
    let regex_gina = RegexGINA::from_str(pattern).expect("Invalid regex pattern");
    let result = regex_gina.check(text, TOON).expect("RegexGINA did not match!");
    for (key, value) in expectations {
        assert_eq!(result.named_value(key).unwrap(), *value);
    }
}

#[test]
fn test_multiple_string_matches() {
    assert_pattern_matches(r"^{S} hits {S1}$", "Yelinak hits King Tormax", &[("S", "Yelinak"), ("S1", "King Tormax")]);
    assert_pattern_matches(r"^{S1} hits {S2}$", "Yelinak hits King Tormax", &[("S1", "Yelinak"), ("S2", "King Tormax")]);
    assert_pattern_matches(
        r"^{S1} hits {S2} but {S2} ripostes!$",
        "Yelinak hits King Tormax but King Tormax ripostes!",
        &[("S1", "Yelinak"), ("S2", "King Tormax")],
    );
    assert_pattern_does_not_match(r"^{S} hits {S}$", &["Yelinak hits King Tormax"]);
}

#[test]
fn test_branches_with_optional_captures() {
    {
        let context = create_context(
            r"^You (must target an NPC to taunt first\.|taunt {S} to ignore others and attack you\!)$",
            "You must target an NPC to taunt first.",
        );
        assert_eq!(context.named_value("S"), None);
    }
    {
        let context = create_context(
            r"^You (must target an NPC to taunt first\.|taunt {S} to ignore others and attack you\!)$",
            "You taunt Bristlebane to ignore others and attack you!",
        );
        assert_eq!(context.named_value("S").unwrap(), "Bristlebane");
    }
}

#[test]
fn test_numeric_type_doesnt_match_characters() {
    assert_pattern_does_not_match(r"^You hit {S} for {N} points of damage", &["You hit Xenk for ShouldNotMatch points of damage"]);
}

#[test]
fn test_numeric_token_with_constraint() {
    assert_pattern_matches(
        r"^You have healed {S} for {N>5750} points? of damage\.$",
        "You have healed Xenk for 6000 points of damage.",
        &[("N", "6000"), ("S", "Xenk")],
    );
    assert_pattern_does_not_match(
        r"^You have healed {S} for {N>5750} points? of damage\.$",
        &["You have healed Xenk for 5750 points of damage.", "You have healed Xenk for 1 point of damage."],
    );

    assert_pattern_matches(
        r"^You have healed {S} for { N < 6000 } points? of damage\.$",
        "You have healed Xenk for 1000 points of damage.",
        &[("N", "1000"), ("S", "Xenk")],
    );
    assert_pattern_does_not_match(
        r"^You have healed {S} for {N<6000} points? of damage\.$",
        &["You have healed Xenk for 6000 points of damage.", "You have healed Xenk for 6001 point of damage."],
    );

    assert_pattern_matches(
        r"^You have healed {S} for { N <= 6000 } points? of damage\.$",
        "You have healed Xenk for 100 points of damage.",
        &[("N", "100"), ("S", "Xenk")],
    );
    assert_pattern_matches(
        r"^You have healed {S} for { N <= 6000 } points? of damage\.$",
        "You have healed Xenk for 6000 points of damage.",
        &[("N", "6000"), ("S", "Xenk")],
    );
    assert_pattern_does_not_match(
        r"^You have healed {S} for {N<6000} points? of damage\.$",
        &["You have healed Xenk for 6000 points of damage.", "You have healed Xenk for 6001 points of damage."],
    );

    assert_pattern_matches(
        r"^You have healed {S} for { N >= 6000 } points? of damage\.$",
        "You have healed Xenk for 6000 points of damage.",
        &[("N", "6000"), ("S", "Xenk")],
    );
    assert_pattern_matches(
        r"^You have healed {S} for { N >= 6000 } points? of damage\.$",
        "You have healed Xenk for 6001 points of damage.",
        &[("N", "6001"), ("S", "Xenk")],
    );
    assert_pattern_does_not_match(
        r"^You have healed {S} for {N>=6000} points? of damage\.$",
        &["You have healed Xenk for 5999 points of damage.", "You have healed Xenk for 1 point of damage."],
    );

    assert_pattern_matches(
        r"^You have healed {S} for { N = 6000 } points? of damage\.$",
        "You have healed Xenk for 6000 points of damage.",
        &[("N", "6000"), ("S", "Xenk")],
    );
    assert_pattern_does_not_match(
        r"^You have healed {S} for {N=6000} points? of damage\.$",
        &[
            "You have healed Xenk for 5999 points of damage.",
            "You have healed Xenk for 6001 points of damage.",
            "You have healed Xenk for 1 point of damage.",
        ],
    );
}

#[test]
fn test_accessing_captures_by_index_and_name() {
    let context = create_context(
        r"^Here're some words: (\w+), (\w+), (?<conjunction>\w+) (\w+)$",
        "Here're some words: one, two, and three",
    );
    assert_eq!(context.group(1).unwrap(), "one");
    assert_eq!(context.group(2).unwrap(), "two");
    assert_eq!(context.group(4).unwrap(), "three");
    assert_eq!(context.named_value("conjunction").unwrap(), "and");
    assert_eq!(context.named_value("CONJUNCTION").unwrap(), "and");
}

#[test]
fn test_optional_positional_captures() {
    {
        let context = create_context(r"^There are (?:(\w+) parameters (\w+)|none) here$", "There are none here");
        assert_eq!(context.group(1), None);
    }
    {
        let context = create_context(r"^There are (?:(\w+) parameters (\w+)|none) here$", "There are two parameters right here");
        assert_eq!(context.group(1).unwrap(), "two");
        assert_eq!(context.group(2).unwrap(), "right");
    }
}

#[test]
fn test_compile_with_context_using_context_references() {
    let context = create_context("^This is a (?<named>capture)", "This is a capture");
    let re = RegexGINA::from_str_with_context(r"^Get ${named}", &context).unwrap();
    assert!(re.check("Get capture", TOON).is_some());
    assert!(re.check("Get something else", TOON).is_none());

    let context = create_context(
        r"^([\w -'`]+)\'s body pulses with mystic fortitude\.$",
        "Xenk's body pulses with mystic fortitude.",
    );
    let re = RegexGINA::from_str_with_context(r"^${1} has been slain by (?>[^!]+)\!$", &context).unwrap();
    assert!(re.check("Xenk has been slain by Vulak`Aerr!", TOON).is_some());
    assert!(re.check("Goner has been slain by Vulak`Aerr!", TOON).is_none());
}

fn assert_unmodified(input: &str) {
    let re = RegexGINA::from_str(input).expect("assert_unmodified compile error");
    assert_eq!(re.raw, input);
}

fn assert_fix(input: &str, output: &str) {
    let re = RegexGINA::from_str(input).expect("assert_fix compile error");
    assert_eq!(re.raw, output);
}

#[test]
fn test_fixing_gina_regex_with_invalid_character_class() {
    assert_fix(r"^You have stolen ([\w\s-`']+)[.]?$", r"^You have stolen ([\w\s\-`']+)[.]?$");
    assert_fix(r"^([`'\w- ]+) has been slain", r"^([`'\w\- ]+) has been slain");
    assert_fix(r"^([`' -\w]+) has been slain", r"^([`' \-\w]+) has been slain");
    assert_fix(
        r"^Your target resisted the ([\w -'`]+)(?<!LowerElement) spell\.$",
        r"^Your target resisted the ([\w \-'`]+)(?<!LowerElement) spell\.$",
    );
    assert_fix(r"[a- ][a- ]", r"[a\- ][a\- ]");

    assert_unmodified(r"([-]+)");
    assert_unmodified(r"^([A-Za-z]+) has been slain");
    assert_unmodified(r"^([-`'\w ]+) has been slain");
    assert_unmodified(r"^([ `'\w-]+) has been slain");
    assert_unmodified(r"^([-A-Za-z0-9`']+) has been slain");
    assert_unmodified(r"^([`'A-Za-z0-9-]+) has been slain");
    assert_unmodified(r"^([`\-'A-Za-z0-9]+) has been slain");
    assert_unmodified(r"^([\-`'A-Za-z0-9]+) has been slain");
    assert_unmodified(r"^([`'A-Za-z0-9\-]+) has been slain");
}

#[test]
fn validating_patterns() {
    assert!(validate_gina_regex(r"^{S} hits you$").is_none());
    let (pos, msg) = validate_gina_regex(r"^(abc").unwrap();
    assert!(pos.is_some());
    assert!(!msg.is_empty());
    assert!(validate_gina_regex(r"[a- ]").is_some());
    assert!(validate_gina_regex_with_context(r"^${1} has been slain$").is_none());
    assert!(validate_gina_regex_with_context(r"^${1} (unclosed").is_some());
}
