//! The command model: a closed vocabulary of verbs, a typed command built
//! from a raw instruction, and the one hard parse failure.
//!
//! An unrecognized verb maps to `Unknown` rather than failing: an operator
//! typo must echo back "unknown command", not stop the agent.  Only an
//! instruction with no tokens at all refuses to parse, which tells the task
//! channel to leave the task unclaimed.

use vstd::prelude::*;
use crate::args::CommandArgs;
use crate::strutil::{lemma_str_views_push, str_eq, str_views, tokenize, tokens_sp};

verus! {

/// All the command kinds, one per capability, plus the `Unknown` catch-all.
#[derive(Clone, Copy, PartialEq, Eq, Structural, Debug)]
pub enum CommandType {
    AzUpload,
    Cd,
    Config,
    Download,
    Elevate,
    Getprivs,
    Getsystem,
    Inject,
    Ls,
    Portscan,
    Persist,
    Ps,
    Pwd,
    Rev2Self,
    Save,
    Selfdestruct,
    Runas,
    S3Upload,
    Shell,
    Shutdown,
    Sysinfo,
    Whoami,
    Unknown,
}

/// The kind a verb maps to; a verb outside the vocabulary is `Unknown`.
pub open spec fn verb_kind(v: Seq<char>) -> CommandType {
    if v == "azupload"@ {
        CommandType::AzUpload
    } else if v == "cd"@ {
        CommandType::Cd
    } else if v == "config"@ {
        CommandType::Config
    } else if v == "download"@ {
        CommandType::Download
    } else if v == "elevate"@ {
        CommandType::Elevate
    } else if v == "getprivs"@ {
        CommandType::Getprivs
    } else if v == "getsystem"@ {
        CommandType::Getsystem
    } else if v == "inject"@ {
        CommandType::Inject
    } else if v == "ls"@ {
        CommandType::Ls
    } else if v == "persist"@ {
        CommandType::Persist
    } else if v == "portscan"@ {
        CommandType::Portscan
    } else if v == "ps"@ {
        CommandType::Ps
    } else if v == "pwd"@ {
        CommandType::Pwd
    } else if v == "rev2self"@ {
        CommandType::Rev2Self
    } else if v == "runas"@ {
        CommandType::Runas
    } else if v == "s3upload"@ {
        CommandType::S3Upload
    } else if v == "save"@ {
        CommandType::Save
    } else if v == "selfdestruct"@ {
        CommandType::Selfdestruct
    } else if v == "shell"@ {
        CommandType::Shell
    } else if v == "shutdown"@ {
        CommandType::Shutdown
    } else if v == "sysinfo"@ {
        CommandType::Sysinfo
    } else if v == "whoami"@ {
        CommandType::Whoami
    } else {
        CommandType::Unknown
    }
}

/// Case-sensitive lookup of a verb against the vocabulary.
fn kind_of_verb(v: &str) -> (r: CommandType)
    ensures
        r == verb_kind(v@),
{
    if str_eq(v, "azupload") {
        CommandType::AzUpload
    } else if str_eq(v, "cd") {
        CommandType::Cd
    } else if str_eq(v, "config") {
        CommandType::Config
    } else if str_eq(v, "download") {
        CommandType::Download
    } else if str_eq(v, "elevate") {
        CommandType::Elevate
    } else if str_eq(v, "getprivs") {
        CommandType::Getprivs
    } else if str_eq(v, "getsystem") {
        CommandType::Getsystem
    } else if str_eq(v, "inject") {
        CommandType::Inject
    } else if str_eq(v, "ls") {
        CommandType::Ls
    } else if str_eq(v, "persist") {
        CommandType::Persist
    } else if str_eq(v, "portscan") {
        CommandType::Portscan
    } else if str_eq(v, "ps") {
        CommandType::Ps
    } else if str_eq(v, "pwd") {
        CommandType::Pwd
    } else if str_eq(v, "rev2self") {
        CommandType::Rev2Self
    } else if str_eq(v, "runas") {
        CommandType::Runas
    } else if str_eq(v, "s3upload") {
        CommandType::S3Upload
    } else if str_eq(v, "save") {
        CommandType::Save
    } else if str_eq(v, "selfdestruct") {
        CommandType::Selfdestruct
    } else if str_eq(v, "shell") {
        CommandType::Shell
    } else if str_eq(v, "shutdown") {
        CommandType::Shutdown
    } else if str_eq(v, "sysinfo") {
        CommandType::Sysinfo
    } else if str_eq(v, "whoami") {
        CommandType::Whoami
    } else {
        CommandType::Unknown
    }
}

/// A verb outside the vocabulary always maps to `Unknown`, never an error.
pub proof fn lemma_unrecognized_verb_is_unknown(v: Seq<char>)
    requires
        v != "azupload"@,
        v != "cd"@,
        v != "config"@,
        v != "download"@,
        v != "elevate"@,
        v != "getprivs"@,
        v != "getsystem"@,
        v != "inject"@,
        v != "ls"@,
        v != "persist"@,
        v != "portscan"@,
        v != "ps"@,
        v != "pwd"@,
        v != "rev2self"@,
        v != "runas"@,
        v != "s3upload"@,
        v != "save"@,
        v != "selfdestruct"@,
        v != "shell"@,
        v != "shutdown"@,
        v != "sysinfo"@,
        v != "whoami"@,
    ensures
        verb_kind(v) == CommandType::Unknown,
{
}

/// Why a command could not be built from an instruction.
#[derive(Debug)]
pub struct CommandError {
    message: String,
}

impl CommandError {
    /// The failure text.
    pub closed spec fn message_view(&self) -> Seq<char> {
        self.message@
    }

    /// The human-readable description of the failure.
    pub fn message(&self) -> (r: &String)
        ensures
            r@ == self.message_view(),
    {
        &self.message
    }
}

/// A typed command: its kind and its argument cursor.
pub struct NotionCommand {
    pub command_type: CommandType,
    pub args: CommandArgs,
}

impl NotionCommand {
    /// Parses a raw instruction.  The first token is the verb, looked up
    /// against the vocabulary; the remaining tokens become the argument
    /// cursor.  Parsing fails exactly when the instruction has no tokens at
    /// all: an empty or all-white-space line.
    pub fn from_string(command_str: String) -> (r: Result<NotionCommand, CommandError>)
        ensures
            (tokens_sp(command_str@).len() == 0) <==> (r is Err),
            r matches Ok(c) ==> {
                &&& c.command_type == verb_kind(tokens_sp(command_str@)[0])
                &&& c.args.items_view() == tokens_sp(command_str@).drop_first()
                &&& c.args.taken() == 0
                &&& c.args.wf()
            },
    {
        let toks = tokenize(command_str.as_str());
        if toks.len() == 0 {
            return Err(CommandError { message: "Could not parse command!".to_owned() });
        }
        proof {
            assert(str_views(toks@)[0] == toks@[0]@);
        }
        let command_type = kind_of_verb(toks[0].as_str());
        let mut rest: Vec<String> = Vec::new();
        let mut k: usize = 1;
        proof {
            assert(str_views(rest@) =~~= str_views(toks@).subrange(1, 1));
        }
        while k < toks.len()
            invariant
                1 <= k <= toks@.len(),
                str_views(rest@) == str_views(toks@).subrange(1, k as int),
            decreases toks.len() - k,
        {
            let ghost rpre = rest@;
            proof {
                assert(str_views(toks@)[k as int] == toks@[k as int]@);
            }
            let t = toks[k].clone();
            rest.push(t);
            proof {
                lemma_str_views_push(rpre, t);
                assert(str_views(rest@) =~~= str_views(toks@).subrange(1, k + 1));
            }
            k += 1;
        }
        proof {
            assert(str_views(toks@).subrange(1, toks@.len() as int) =~~= tokens_sp(
                command_str@,
            ).drop_first());
        }
        let args = CommandArgs::new(rest);
        Ok(NotionCommand { command_type, args })
    }
}

} // verus!
