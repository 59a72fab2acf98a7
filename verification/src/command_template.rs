//! System commands that an effect runs, and their approval on this machine.
use vstd::prelude::*;
use crate::security::{MachineKey, sign, verify, signature_text, signature_accepted};
use crate::template::TemplateString;
use crate::text::{chars_of, string_of, extend_chars};
use crate::matchers::{MatchContext, MatchContextView};
use crate::references::rendered;

verus! {

/// A command with templated parameters and, optionally, templated text for
/// its standard input.
#[derive(Debug)]
pub struct CommandTemplate {
    pub command: String,
    pub params: Vec<TemplateString>,
    pub write_to_stdin: Option<TemplateString>,
}

pub struct CommandTemplateView {
    pub command: Seq<char>,
    pub params: Seq<Seq<char>>,
    pub write_to_stdin: Option<Seq<char>>,
}

impl View for CommandTemplate {
    type V = CommandTemplateView;

    open spec fn view(&self) -> CommandTemplateView {
        CommandTemplateView {
            command: self.command@,
            params: self.params@.map_values(|p: TemplateString| p@),
            write_to_stdin: match self.write_to_stdin {
                Some(t) => Some(t@),
                None => None,
            },
        }
    }
}

/// The texts `parts` with `sep` between each two.
pub open spec fn joined(parts: Seq<Seq<char>>, sep: Seq<char>) -> Seq<char>
    decreases parts.len(),
{
    if parts.len() == 0 {
        Seq::empty()
    } else if parts.len() == 1 {
        parts[0]
    } else {
        joined(parts.drop_last(), sep) + sep + parts.last()
    }
}

/// The text that a signature covers: the command, a blank line, the
/// parameters one per line, and for a command with input a blank line and
/// the input template.
pub open spec fn security_text(c: CommandTemplateView) -> Seq<char> {
    c.command + seq!['\n', '\n'] + joined(c.params, seq!['\n']) + match c.write_to_stdin {
        Some(t) => seq!['\n', '\n'] + t,
        None => Seq::empty(),
    }
}

/// A command together with its approval: `Approved` carries the signature
/// that approved it.
#[derive(Debug)]
pub enum CommandTemplateSecurityCheck {
    Unapproved(CommandTemplate),
    Approved(String, CommandTemplate),
}

pub enum SecurityCheckView {
    Unapproved(CommandTemplateView),
    Approved(Seq<char>, CommandTemplateView),
}

impl View for CommandTemplateSecurityCheck {
    type V = SecurityCheckView;

    open spec fn view(&self) -> SecurityCheckView {
        match self {
            CommandTemplateSecurityCheck::Unapproved(c) => SecurityCheckView::Unapproved(c@),
            CommandTemplateSecurityCheck::Approved(s, c) => SecurityCheckView::Approved(s@, c@),
        }
    }
}

/// What checking an approval gives on a machine with key `key` (`None` when
/// the machine cannot verify): an approval stands only when its signature is
/// accepted for the command's text.
pub open spec fn checked_approval(s: SecurityCheckView, key: Option<Seq<u8>>) -> SecurityCheckView {
    match s {
        SecurityCheckView::Approved(sig, c) => match key {
            Some(k) => if signature_accepted(k, security_text(c), sig) {
                s
            } else {
                SecurityCheckView::Unapproved(c)
            },
            None => SecurityCheckView::Unapproved(c),
        },
        SecurityCheckView::Unapproved(_) => s,
    }
}

pub open spec fn key_view(key: Option<&MachineKey>) -> Option<Seq<u8>> {
    match key {
        Some(k) => Some(k@),
        None => None,
    }
}

impl CommandTemplate {
    /// The text that a signature covers (see `security_text`).
    pub fn format_for_security_check(&self) -> (res: String)
        ensures
            res@ == security_text(self@),
    {
        let ghost params = self@.params;
        let mut out: Vec<char> = chars_of(self.command.as_str());
        out.push('\n');
        out.push('\n');
        let ghost head = out@;
        assert(head == self.command@ + seq!['\n', '\n']);
        let mut i: usize = 0;
        while i < self.params.len()
            invariant
                params == self@.params,
                i <= self.params@.len(),
                out@ == head + joined(params.take(i as int), seq!['\n']),
            decreases self.params@.len() - i,
        {
            let ghost before = out@;
            if i > 0 {
                out.push('\n');
            }
            let p = chars_of(self.params[i].tmpl());
            extend_chars(&mut out, &p);
            assert(params.take(i + 1).drop_last() =~= params.take(i as int));
            assert(params.take(i + 1).last() == p@);
            if i == 0 {
                assert(joined(params.take(1), seq!['\n']) == params.take(1)[0]);
                assert(out@ =~= head + joined(params.take(i + 1), seq!['\n']));
            } else {
                assert(out@ =~= head + joined(params.take(i + 1), seq!['\n']));
            }
            i = i + 1;
        }
        assert(params.take(i as int) =~= params);
        match &self.write_to_stdin {
            Some(t) => {
                out.push('\n');
                out.push('\n');
                let tc = chars_of(t.tmpl());
                extend_chars(&mut out, &tc);
            },
            None => {},
        }
        assert(out@ =~= security_text(self@));
        string_of(&out)
    }

    /// Approves the command on the machine with key `key`: signs its text.
    pub fn approve(self, key: &MachineKey) -> (res: CommandTemplateSecurityCheck)
        ensures
            res@ == SecurityCheckView::Approved(signature_text(key@, security_text(self@)), self@),
    {
        let sig = sign(key, self.format_for_security_check().as_str());
        CommandTemplateSecurityCheck::Approved(sig, self)
    }
}

impl CommandTemplateSecurityCheck {
    /// Keeps an approval only when its signature verifies with this
    /// machine's key; without a key nothing stays approved. A command that
    /// `approve` signed with the same key stays approved.
    pub fn security_check(self, key: Option<&MachineKey>) -> (res: Self)
        ensures
            res@ == checked_approval(self@, key_view(key)),
            (self@ matches SecurityCheckView::Approved(sig, c) && key is Some && sig == signature_text(key_view(key)->0, security_text(c))) ==> res@ == self@,
    {
        match self {
            CommandTemplateSecurityCheck::Approved(sig, cmd_tmpl) => {
                match key {
                    Some(k) => {
                        if verify(k, cmd_tmpl.format_for_security_check().as_str(), sig.as_str()) {
                            CommandTemplateSecurityCheck::Approved(sig, cmd_tmpl)
                        } else {
                            CommandTemplateSecurityCheck::Unapproved(cmd_tmpl)
                        }
                    },
                    None => CommandTemplateSecurityCheck::Unapproved(cmd_tmpl),
                }
            },
            unapproved => unapproved,
        }
    }
}

impl Clone for CommandTemplate {
    fn clone(&self) -> (res: Self)
        ensures
            res@ == self@,
    {
        let mut params: Vec<TemplateString> = Vec::new();
        let mut i: usize = 0;
        while i < self.params.len()
            invariant
                i <= self.params@.len(),
                params@ == self.params@.take(i as int),
            decreases self.params@.len() - i,
        {
            params.push(self.params[i].clone());
            assert(self.params@.take(i + 1) == self.params@.take(i as int).push(self.params@[i as int]));
            i = i + 1;
        }
        assert(self.params@.take(i as int) == self.params@);
        let write_to_stdin = match &self.write_to_stdin {
            Some(t) => Some(t.clone()),
            None => None,
        };
        CommandTemplate { command: self.command.clone(), params, write_to_stdin }
    }
}

impl Clone for CommandTemplateSecurityCheck {
    fn clone(&self) -> (res: Self)
        ensures
            res@ == self@,
    {
        match self {
            CommandTemplateSecurityCheck::Unapproved(c) => CommandTemplateSecurityCheck::Unapproved(c.clone()),
            CommandTemplateSecurityCheck::Approved(s, c) => CommandTemplateSecurityCheck::Approved(s.clone(), c.clone()),
        }
    }
}

/// The approval that signing `cmd_tmpl` on a machine with key `key` gives:
/// approved with its signature, or left unapproved where the machine
/// cannot sign.
pub fn approve_with(cmd_tmpl: CommandTemplate, key: Option<&MachineKey>) -> (res: CommandTemplateSecurityCheck)
    ensures
        match key {
            Some(k) => res@ == SecurityCheckView::Approved(signature_text(k@, security_text(cmd_tmpl@)), cmd_tmpl@),
            None => res@ == SecurityCheckView::Unapproved(cmd_tmpl@),
        },
{
    match key {
        Some(k) => cmd_tmpl.approve(k),
        None => CommandTemplateSecurityCheck::Unapproved(cmd_tmpl),
    }
}

/// Signs `cmd_tmpl` with this machine's key, where the machine has one:
/// the command comes back approved by a signature of its text, or
/// unapproved.
pub fn sign_command_template(cmd_tmpl: CommandTemplate) -> (res: CommandTemplateSecurityCheck)
    ensures
        match res@ {
            SecurityCheckView::Approved(sig, c) => c == cmd_tmpl@ && exists|k: Seq<u8>| sig == #[trigger] signature_text(k, security_text(c)),
            SecurityCheckView::Unapproved(c) => c == cmd_tmpl@,
        },
{
    let key = crate::security::machine_key();
    let res = approve_with(cmd_tmpl, key.as_ref());
    proof {
        match key {
            Some(k) => {
                assert(signature_text(k@, security_text(cmd_tmpl@)) == signature_text(k@, security_text(cmd_tmpl@)));
            },
            None => {},
        }
    }
    res
}

/// A command ready to run for a match: the program, its arguments and its
/// input with the templates rendered, and the whole command line as text.
#[derive(Debug)]
pub struct PreparedCommand {
    pub command: String,
    pub args: Vec<String>,
    pub formatted_command: String,
    pub write_to_stdin: Option<String>,
}

pub open spec fn rendered_all(ps: Seq<Seq<char>>, ctx: MatchContextView) -> Seq<Seq<char>> {
    Seq::new(ps.len(), |i: int| rendered(ps[i], ctx))
}

pub open spec fn strings_view(v: Seq<String>) -> Seq<Seq<char>> {
    Seq::new(v.len(), |i: int| v[i]@)
}

impl CommandTemplate {
    /// The command for the match with context `context`: each parameter
    /// and the input rendered, and the command line the program and the
    /// arguments joined by spaces.
    pub fn prepare(&self, context: &MatchContext) -> (res: PreparedCommand)
        requires
            context.wf(),
        ensures
            res.command@ == self@.command,
            strings_view(res.args@) == rendered_all(self@.params, context@),
            res.formatted_command@ == joined(seq![self@.command] + rendered_all(self@.params, context@), seq![' ']),
            match self@.write_to_stdin {
                Some(t) => res.write_to_stdin matches Some(w) && w@ == rendered(t, context@),
                None => res.write_to_stdin is None,
            },
    {
        let ghost ctx = context@;
        let ghost params = self@.params;
        let mut args: Vec<String> = Vec::new();
        let mut line: Vec<char> = chars_of(self.command.as_str());
        let ghost head = seq![self@.command];
        assert(joined(head, seq![' ']) == self@.command);
        let mut i: usize = 0;
        while i < self.params.len()
            invariant
                context.wf(),
                ctx == context@,
                params == self@.params,
                head == seq![self@.command],
                i <= self.params@.len(),
                strings_view(args@) == rendered_all(params, ctx).take(i as int),
                line@ == joined(head + rendered_all(params, ctx).take(i as int), seq![' ']),
            decreases self.params@.len() - i,
        {
            let a = self.params[i].render(context);
            assert(a@ == rendered_all(params, ctx)[i as int]);
            line.push(' ');
            let ac = chars_of(a.as_str());
            extend_chars(&mut line, &ac);
            args.push(a);
            proof {
                let r = rendered_all(params, ctx);
                assert(r.take(i + 1) =~= r.take(i as int).push(r[i as int]));
                assert((head + r.take(i + 1)).drop_last() =~= head + r.take(i as int));
                assert((head + r.take(i + 1)).last() == r[i as int]);
                assert(strings_view(args@) =~= r.take(i + 1));
            }
            i = i + 1;
        }
        assert(rendered_all(params, ctx).take(i as int) =~= rendered_all(params, ctx));
        let write_to_stdin = match &self.write_to_stdin {
            Some(t) => Some(t.render(context)),
            None => None,
        };
        PreparedCommand { command: self.command.clone(), args, formatted_command: string_of(&line), write_to_stdin }
    }
}

/// Why a command effect did not succeed.
#[derive(Debug)]
pub enum CommandRunError {
    /// The command is not approved on this machine: it is not run.
    SecurityCheckFail(CommandTemplate),
    /// The command ended with this status code.
    Failure(String, i32),
    /// The command was ended by a signal.
    Died(String),
}

/// The command of an approval, ready to run for the match with context
/// `context`, when the approval stands with this machine's key `key`; the
/// command is refused otherwise.
pub fn prepare_approved(check: CommandTemplateSecurityCheck, key: Option<&MachineKey>, context: &MatchContext) -> (res: Result<PreparedCommand, CommandRunError>)
    requires
        context.wf(),
    ensures
        match checked_approval(check@, key_view(key)) {
            SecurityCheckView::Approved(_, c) => res matches Ok(p) && p.command@ == c.command
                && strings_view(p.args@) == rendered_all(c.params, context@)
                && p.formatted_command@ == joined(seq![c.command] + rendered_all(c.params, context@), seq![' '])
                && match c.write_to_stdin {
                    Some(t) => p.write_to_stdin matches Some(w) && w@ == rendered(t, context@),
                    None => p.write_to_stdin is None,
                },
            SecurityCheckView::Unapproved(c) => res matches Err(CommandRunError::SecurityCheckFail(t)) && t@ == c,
        },
{
    match check.security_check(key) {
        CommandTemplateSecurityCheck::Approved(_, cmd) => Ok(cmd.prepare(context)),
        CommandTemplateSecurityCheck::Unapproved(cmd) => Err(CommandRunError::SecurityCheckFail(cmd)),
    }
}

/// What the end of the command `formatted_command` with exit status
/// `status_code` (`None`: ended by a signal) comes to: only status 0 is
/// success.
pub fn command_outcome(formatted_command: String, status_code: Option<i32>) -> (res: Result<(), CommandRunError>)
    ensures
        match status_code {
            Some(0) => res is Ok,
            Some(c) => res matches Err(CommandRunError::Failure(f, k)) && f@ == formatted_command@ && k == c,
            None => res matches Err(CommandRunError::Died(f)) && f@ == formatted_command@,
        },
{
    match status_code {
        Some(0) => Ok(()),
        Some(c) => Err(CommandRunError::Failure(formatted_command, c)),
        None => Err(CommandRunError::Died(formatted_command)),
    }
}

} // verus!
