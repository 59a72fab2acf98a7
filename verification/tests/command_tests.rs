use logquest::command_template::{
    command_outcome, prepare_approved, CommandRunError, CommandTemplate, CommandTemplateSecurityCheck,
};
use logquest::gina_regex::RegexGINA;
use logquest::security::MachineKey;
use logquest::template::TemplateString;

fn cmd() -> CommandTemplate {
    CommandTemplate {
        command: "notify-send".to_owned(),
        params: vec![TemplateString::new("-u"), TemplateString::new("${S} hit ${C}")],
        write_to_stdin: Some(TemplateString::new("from ${S}")),
    }
}

#[test]
fn security_text_and_preparation() {
    assert_eq!(cmd().format_for_security_check(), "notify-send\n\n-u\n${S} hit ${C}\n\nfrom ${S}");
    let ctx = RegexGINA::from_str("^{S} hits").unwrap().check("Orc hits", "Xenk").unwrap();
    let p = cmd().prepare(&ctx);
    assert_eq!(p.command, "notify-send");
    assert_eq!(p.args, vec!["-u".to_owned(), "Orc hit Xenk".to_owned()]);
    assert_eq!(p.formatted_command, "notify-send -u Orc hit Xenk");
    assert_eq!(p.write_to_stdin.as_deref(), Some("from Orc"));
}

#[test]
fn only_approved_commands_run() {
    let key = MachineKey::from_machine_id("machine-a");
    let other = MachineKey::from_machine_id("machine-b");
    let ctx = RegexGINA::from_str("^{S} hits").unwrap().check("Orc hits", "Xenk").unwrap();
    let approved = cmd().approve(&key);
    assert!(matches!(approved.clone().security_check(Some(&key)), CommandTemplateSecurityCheck::Approved(_, _)));
    assert!(prepare_approved(approved.clone(), Some(&key), &ctx).is_ok());
    assert!(matches!(prepare_approved(approved.clone(), Some(&other), &ctx), Err(CommandRunError::SecurityCheckFail(_))));
    assert!(matches!(prepare_approved(approved, None, &ctx), Err(CommandRunError::SecurityCheckFail(_))));
    let unapproved = CommandTemplateSecurityCheck::Unapproved(cmd());
    assert!(matches!(prepare_approved(unapproved, Some(&key), &ctx), Err(CommandRunError::SecurityCheckFail(_))));
}

#[test]
fn command_outcomes() {
    assert!(command_outcome("x".to_owned(), Some(0)).is_ok());
    assert!(matches!(command_outcome("x".to_owned(), Some(3)), Err(CommandRunError::Failure(f, 3)) if f == "x"));
    assert!(matches!(command_outcome("x".to_owned(), None), Err(CommandRunError::Died(f)) if f == "x"));
}

#[test]
fn signing_commands() {
    let key = MachineKey::from_machine_id("machine-a");
    assert!(matches!(
        logquest::command_template::approve_with(cmd(), Some(&key)),
        CommandTemplateSecurityCheck::Approved(_, _)
    ));
    assert!(matches!(logquest::command_template::approve_with(cmd(), None), CommandTemplateSecurityCheck::Unapproved(_)));
    match logquest::command_template::sign_command_template(cmd()) {
        CommandTemplateSecurityCheck::Approved(sig, c) => {
            assert_eq!(c.command, "notify-send");
            let mk = logquest::security::machine_key().unwrap();
            assert!(logquest::security::verify(&mk, &c.format_for_security_check(), &sig));
        }
        CommandTemplateSecurityCheck::Unapproved(_) => assert!(!logquest::security::is_crypto_available()),
    }
}
