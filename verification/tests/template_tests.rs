use logquest::gina_regex::RegexGINA;
use logquest::matchers::MatchContext;
use logquest::references::{interpolate_escaped_context_variables, render_template};
use logquest::template::TemplateString;

fn context() -> MatchContext {
    RegexGINA::from_str(r"^(\w+) hits (?<target>\w+) for {N} \(x\.y\)$")
        .unwrap()
        .check("Orc hits Xenk for 12 (x.y)", "Me")
        .unwrap()
}

#[test]
fn rendering_templates() {
    let ctx = context();
    assert_eq!(TemplateString::new("${1} hit ${target} (${N}) as seen by ${C}").render(&ctx), "Orc hit Xenk (12) as seen by Me");
    assert_eq!(TemplateString::new("${c} and ${TARGET}").render(&ctx), "Me and Xenk");
    assert_eq!(TemplateString::new("[${missing}] [${9}]").render(&ctx), "[] []");
    assert_eq!(TemplateString::new("no variables").render(&ctx), "no variables");
    assert_eq!(TemplateString::new("${0}").render(&ctx), "Orc hits Xenk for 12 (x.y)");
    assert_eq!(render_template("${1}${1}", &ctx), "OrcOrc");
    let t: TemplateString = String::from("${C}").into();
    assert_eq!(t.tmpl(), "${C}");
}

#[test]
fn interpolating_references_escapes_values() {
    let ctx = RegexGINA::from_str(r"^(.+) says$").unwrap().check("a.b (c) says", "Me").unwrap();
    assert_eq!(interpolate_escaped_context_variables(r"^${1} left$", &ctx), r"^a\.b \(c\) left$");
    assert_eq!(interpolate_escaped_context_variables(r"^${2}${nope}x$", &ctx), r"^x$");
    let re = RegexGINA::from_str_with_context(r"^${1} left$", &ctx).unwrap();
    assert!(re.check("a.b (c) left", "Me").is_some());
    assert!(re.check("aXb (c) left", "Me").is_none());
    let empty = MatchContext::empty("Me");
    assert_eq!(empty.group(0), None);
}
