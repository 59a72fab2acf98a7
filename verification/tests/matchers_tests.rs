use logquest::gina_regex::RegexGINA;
use logquest::matchers::{Filter, FilterWithContext, Matcher, MatcherWithContext};

#[test]
fn test_gina_matchers_with_context() {
    let toon = "Xenk";
    let first_matcher: Filter = vec![Matcher::GINA(
        RegexGINA::from_str(r"^(\w+) (hits YOU for (\d+) points? of damage|tries to hit YOU)").unwrap(),
    )]
    .into();

    let context = first_matcher
        .check("Bristlebane hits YOU for 1000 points of damage", toon)
        .expect("Regex did not match!");

    let filter_with_context: FilterWithContext =
        vec![MatcherWithContext::GINA(r"^${1} has been slain by (?<whom>{C})".to_owned())].into();

    let compiled_filter_with_context = filter_with_context.compile_with_context(&context);

    let next_context = compiled_filter_with_context
        .check(&format!("Bristlebane has been slain by {toon}"), toon)
        .unwrap();

    let by_group_number = next_context.group(1).expect("Failed to access group by number");
    let by_group_name = next_context.named_value("wHoM").expect("Failed to access group by name");
    let by_character_name = next_context.named_value("C").expect("Failed to access character name");

    assert_eq!(by_group_number, toon);
    assert_eq!(by_group_name, toon);
    assert_eq!(by_character_name, toon);
}

#[test]
fn whole_and_partial_line_matchers() {
    let whole: Filter = vec![Matcher::WholeLine("You are hungry.".to_owned())].into();
    assert!(whole.check("You are hungry.", "Xenk").is_some());
    assert!(whole.check("You are hungry. Very.", "Xenk").is_none());
    let partial: Filter = vec![Matcher::PartialLine("hungry".to_owned())].into();
    let ctx = partial.check("You are hungry.", "Xenk").unwrap();
    assert_eq!(ctx.character_name, "Xenk");
    assert_eq!(ctx.named_value("C"), None);
    assert!(partial.check("You are thirsty.", "Xenk").is_none());
}

#[test]
fn filter_takes_first_matching_matcher() {
    let f: Filter = vec![
        Matcher::GINA(RegexGINA::from_str(r"^(\w+) waves$").unwrap()),
        Matcher::GINA(RegexGINA::from_str(r"^(\w+) (\w+)s$").unwrap()),
    ]
    .into();
    let ctx = f.check("Xenk waves", "Me").unwrap();
    assert_eq!(ctx.group(1), Some("Xenk"));
    assert_eq!(ctx.group(2), None);
    let ctx = f.check("Xenk dances", "Me").unwrap();
    assert_eq!(ctx.group(2), Some("dance"));
    let empty: Filter = vec![].into();
    assert!(empty.check("anything", "Me").is_none());
}

#[test]
fn named_values_are_found_whatever_the_case_of_the_key() {
    let re = logquest::gina_regex::RegexGINA::from_str(r"^(?<conjunction>\w+) then$").unwrap();
    let ctx = re.check("and then", "Xenk").unwrap();
    assert_eq!(ctx.named_value("conjunction"), Some("and"));
    assert_eq!(ctx.named_value("CONJUNCTION"), Some("and"));
    assert_eq!(ctx.named_value("Conjunction"), Some("and"));
}
