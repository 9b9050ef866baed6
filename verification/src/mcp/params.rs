//! The shapes a caller fills in, and how they become core types.
//!
//! # Why the delegate is flat here and an enum inside
//!
//! [`Delegate`] is an enum whose variants carry only what that vendor accepts.
//! A JSON Schema cannot express that without a discriminated union, and a discriminated union is
//! the shape language models fill in wrong most often.
//! So the wire shape is flat and [`DelegateParams::build`] is the parse step: one place, one error
//! message, and the enum's guarantee intact everywhere behind it.

use vstd::prelude::*;
use vstd::string::*;

use crate::config::Platform;
use crate::delegate::{
    delegate_error_text, parts_error, program_of, CodexSandbox, Delegate, DelegateError,
    DelegateErrorModel, DelegateModel, Isolation, Programs, ProgramsModel, Vendor,
};
use crate::ordered::{copied_texts, TextMap};
use crate::path::{absolute, is_absolute};
use crate::run::{run_id_error_text, valid_id, Retention, RunId};
use crate::text::{blank, debug_quoted, is_blank, quoted, same, text_of};

verus! {

/// Whose mistake a refused call is.
#[derive(Debug, Clone, Copy, PartialEq, Eq, Structural)]
pub enum Fault {
    /// Something the caller supplied, or a state it can wait out.
    Caller,
    /// The machine or agentmux itself.
    Machine,
}

/// Why a tool call failed.
#[derive(Debug, PartialEq, Eq)]
pub struct ToolError {
    /// Whose mistake it is.
    pub fault: Fault,
    /// What happened and what to try instead.
    pub message: String,
}

/// Who to consult, and on what terms.
pub struct DelegateParams {
    /// Which CLI to run.
    pub delegate: Vendor,
    /// Model identifier, passed to the delegate CLI verbatim and never checked against a list.
    pub model: String,
    /// Reasoning effort, passed verbatim.
    pub effort: String,
    /// Which configured account to authenticate as, for either vendor.
    pub account: Option<String>,
    /// Whether the delegate loads the account's own settings, hooks and MCP servers.
    pub inherit_settings: Option<bool>,
    /// How much of the working directory a Codex delegate may write.
    pub sandbox: Option<CodexSandbox>,
}

/// The isolation a flag asks for, or nothing to let the account decide.
pub open spec fn asked_isolation(inherit: Option<bool>) -> Option<Isolation> {
    match inherit {
        Some(true) => Some(Isolation::Inherit),
        Some(false) => Some(Isolation::Isolated),
        None => None,
    }
}

/// What is added to a refusal: the shape that would have been accepted.
///
/// The caller is a model that will retry from this text alone.
pub open spec fn hint_for(programs: ProgramsModel, error: DelegateErrorModel) -> Seq<char> {
    match error {
        DelegateErrorModel::Argument { field, .. } => if field == "model"@ {
            " `model` is passed to the CLI as a single argument, so it must look like a model identifier."@
        } else if field == "effort"@ {
            " Try `high` or `xhigh`."@
        } else if field == "account"@ {
            " An account alias is a name from `agentmux.toml`."@
        } else {
            ""@
        },
        DelegateErrorModel::NotForVendor { .. } => " A `"@ + program_of(
            programs,
            Vendor::Claude,
        ) + "` delegate runs in plan mode and is offered no editing tools."@,
        _ => ""@,
    }
}

fn hint(programs: &Programs, error: &DelegateError) -> (r: String)
    ensures
        r@ == hint_for(programs@, error@),
{
    match error {
        DelegateError::Argument { field, .. } => if same(field, "model") {
            " `model` is passed to the CLI as a single argument, so it must look like a model identifier.".to_owned()
        } else if same(field, "effort") {
            " Try `high` or `xhigh`.".to_owned()
        } else if same(field, "account") {
            " An account alias is a name from `agentmux.toml`.".to_owned()
        } else {
            "".to_owned()
        },
        DelegateError::NotForVendor { .. } => {
            let mut out = " A `".to_owned();
            out.append(Vendor::Claude.program(programs));
            out.append("` delegate runs in plan mode and is offered no editing tools.");
            out
        },
        _ => "".to_owned(),
    }
}

impl DelegateParams {
    /// The isolation the caller asked for, or `None` to let the account decide.
    pub fn isolation(&self) -> (r: Option<Isolation>)
        ensures
            r == asked_isolation(self.inherit_settings),
    {
        match self.inherit_settings {
            Some(inherit) => if inherit {
                Some(Isolation::Inherit)
            } else {
                Some(Isolation::Isolated)
            },
            None => None,
        }
    }

    /// Parse the flat wire shape into the closed enum.
    ///
    /// Only shapes are checked here; whether an alias exists is a property of the machine.
    pub fn build(&self, programs: &Programs) -> (r: Result<Delegate, ToolError>)
        ensures
            match parts_error(
                self.delegate,
                self.model@,
                Some(self.effort@),
                text_of(self.account),
                self.sandbox,
            ) {
                Some(error) => r matches Err(e) && e.fault == Fault::Caller && e.message@
                    == delegate_error_text(programs@, error) + "."@ + hint_for(programs@, error),
                None => r matches Ok(delegate) && delegate@ == (DelegateModel {
                    vendor: self.delegate,
                    model: self.model@,
                    effort: Some(self.effort@),
                    sandbox: if self.delegate == Vendor::Codex {
                        match self.sandbox {
                            Some(mode) => Some(mode),
                            None => Some(CodexSandbox::ReadOnly),
                        }
                    } else {
                        None
                    },
                    account: text_of(self.account),
                    isolation: asked_isolation(self.inherit_settings),
                }),
            },
    {
        match Delegate::from_parts(
            self.delegate,
            self.model.as_str(),
            Some(self.effort.as_str()),
            match &self.account {
                Some(account) => Some(account.as_str()),
                None => None,
            },
            self.isolation(),
            self.sandbox,
        ) {
            Ok(delegate) => Ok(delegate),
            Err(error) => {
                let mut message = error.message(programs);
                message.append(".");
                message.append(hint(programs, &error).as_str());
                Err(ToolError { fault: Fault::Caller, message })
            },
        }
    }
}

/// What to ask, and where the delegate reads the project from.
pub struct QuestionParams {
    /// The question, in full.
    pub question: String,
    /// Absolute path to the checkout the delegate reads.
    pub cwd: Option<String>,
    /// Extra environment variables for the delegate process.
    pub env: Option<TextMap<String>>,
    /// Keep the consultation indefinitely, so a follow-up can arrive at any time.
    pub keep: Option<bool>,
}

/// How a relative working directory is refused.
pub open spec fn relative_cwd_text(cwd: Seq<char>) -> Seq<char> {
    "`cwd` must be an absolute path; you passed "@ + debug_quoted(cwd)
        + ". A relative path resolves against agentmux's own directory rather than yours, so it silently picks a checkout you did not choose. Pass the absolute path, or omit `cwd`."@
}

/// How a working directory that is not there is refused.
pub open spec fn missing_cwd_text(cwd: Seq<char>) -> Seq<char> {
    "`cwd` "@ + cwd
        + " is not a directory. Pass an absolute path to the project the delegate should read, or omit it to use agentmux's own directory."@
}

/// How an unknown working directory is told.
pub open spec fn unknown_cwd_text(error: Seq<char>) -> Seq<char> {
    "agentmux cannot determine its own working directory: "@ + error
        + ". Pass `cwd` explicitly."@
}

impl QuestionParams {
    /// The question, rejected if empty.
    pub fn text(&self) -> (r: Result<String, ToolError>)
        ensures
            match r {
                Ok(text) => text@ == self.question@ && !is_blank(self.question@),
                Err(error) => is_blank(self.question@) && error.fault == Fault::Caller
                    && error.message@
                    == "`question` is empty. The delegate starts with no context, so the question has to carry everything it needs."@,
            },
    {
        if blank(self.question.as_str()) {
            return Err(
                ToolError {
                    fault: Fault::Caller,
                    message: "`question` is empty. The delegate starts with no context, so the question has to carry everything it needs.".to_owned(),
                },
            );
        }
        Ok(self.question.clone())
    }

    /// The environment the caller asked for, defaulting to none.
    pub fn environment(&self) -> (r: TextMap<String>)
        ensures
            r@ == match self.env {
                Some(env) => env@,
                None => Map::<Seq<char>, Seq<char>>::empty(),
            },
    {
        match &self.env {
            Some(env) => copied_texts(env),
            None => TextMap::new(),
        }
    }

    /// The working directory, defaulting to the server's own.
    ///
    /// `own` is the server's own directory, or why that is not known; `is_dir` says whether the
    /// directory the caller named is there.
    pub fn working_dir(
        &self,
        platform: Platform,
        own: Result<String, String>,
        is_dir: bool,
    ) -> (r: Result<String, ToolError>)
        ensures
            match self.cwd {
                None => match own {
                    Ok(dir) => r matches Ok(d) && d@ == dir@,
                    Err(reason) => r matches Err(e) && e.fault == Fault::Machine && e.message@
                        == unknown_cwd_text(reason@),
                },
                Some(cwd) => if !absolute(platform, cwd@) {
                    r matches Err(e) && e.fault == Fault::Caller && e.message@
                        == relative_cwd_text(cwd@)
                } else if !is_dir {
                    r matches Err(e) && e.fault == Fault::Caller && e.message@ == missing_cwd_text(
                        cwd@,
                    )
                } else {
                    r matches Ok(d) && d@ == cwd@
                },
            },
    {
        let cwd = match &self.cwd {
            Some(cwd) => cwd,
            None => return match own {
                Ok(dir) => Ok(dir),
                Err(reason) => {
                    let mut message =
                        "agentmux cannot determine its own working directory: ".to_owned();
                    message.append(reason.as_str());
                    message.append(". Pass `cwd` explicitly.");
                    Err(ToolError { fault: Fault::Machine, message })
                },
            },
        };
        if !is_absolute(platform, cwd.as_str()) {
            let mut message = "`cwd` must be an absolute path; you passed ".to_owned();
            message.append(quoted(cwd.as_str()).as_str());
            message.append(
                ". A relative path resolves against agentmux's own directory rather than yours, so it silently picks a checkout you did not choose. Pass the absolute path, or omit `cwd`.",
            );
            return Err(ToolError { fault: Fault::Caller, message });
        }
        if !is_dir {
            let mut message = "`cwd` ".to_owned();
            message.append(cwd.as_str());
            message.append(
                " is not a directory. Pass an absolute path to the project the delegate should read, or omit it to use agentmux's own directory.",
            );
            return Err(ToolError { fault: Fault::Caller, message });
        }
        Ok(cwd.clone())
    }

    /// How long the consultation is kept.
    pub fn retention(&self) -> (r: Retention)
        ensures
            r == if self.keep == Some(true) {
                Retention::UntilReleased
            } else {
                Retention::Ttl
            },
    {
        match self.keep {
            Some(true) => Retention::UntilReleased,
            _ => Retention::Ttl,
        }
    }
}

/// Parse a run id supplied by a caller.
///
/// A refusal names the accepted shape and how to recover a real id.
pub fn run_id(value: &str) -> (r: Result<RunId, ToolError>)
    ensures
        match r {
            Ok(id) => valid_id(value@) && id@ == value@,
            Err(error) => !valid_id(value@) && error.fault == Fault::Caller && error.message@
                == run_id_error_text(value@)
                + ". Call `list` to see the ids of recent consultations."@,
        },
{
    match RunId::parse(value) {
        Ok(id) => Ok(id),
        Err(error) => {
            let mut message = error.message();
            message.append(". Call `list` to see the ids of recent consultations.");
            Err(ToolError { fault: Fault::Caller, message })
        },
    }
}

/// Arguments for `quota`: which vendor's accounts to ask about.
pub struct QuotaParams {
    /// Ask only this vendor's accounts.
    pub delegate: Option<Vendor>,
}

impl QuotaParams {
    /// The vendors whose accounts are asked.
    pub fn vendors(&self) -> (r: Vec<Vendor>)
        ensures
            r@ == match self.delegate {
                Some(vendor) => seq![vendor],
                None => Vendor::ALL@,
            },
    {
        let mut out: Vec<Vendor> = Vec::new();
        match self.delegate {
            Some(vendor) => {
                out.push(vendor);
            },
            None => {
                out.push(Vendor::ALL[0]);
                out.push(Vendor::ALL[1]);
            },
        }
        assert(out@ =~= match self.delegate {
            Some(vendor) => seq![vendor],
            None => Vendor::ALL@,
        });
        out
    }
}

} // verus!
