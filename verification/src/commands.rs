//! The command-line and slash-command argument values: plain data handed over
//! by the argument-parsing layer, plus the quoting helper used when a task
//! description is embedded in a shell command line.

use vstd::prelude::*;
use vstd::string::*;

use crate::text::push_char;

verus! {

/// How listings are rendered.
#[derive(Debug, Clone, Copy, PartialEq, Eq, Structural)]
pub enum OutputFormat {
    /// Human-readable text.
    Plain,
    /// Machine-readable JSON.
    Json,
}

impl Default for OutputFormat {
    /// Listings default to human-readable text.
    fn default() -> (r: OutputFormat)
        ensures
            r == OutputFormat::Plain,
    {
        OutputFormat::Plain
    }
}

/// Arguments of the command that shows tool-server status.
#[derive(Debug)]
pub struct McpArgs;

/// Saving and restoring a conversation.
#[derive(Debug)]
pub enum PersistSubcommand {
    /// Save the current conversation.
    Save {
        /// Where to write it.
        path: String,
        /// Overwrite an existing file.
        force: bool,
    },
    /// Load a previous conversation.
    Load {
        /// Where to read it from.
        path: String,
    },
}

/// Managing context profiles.
#[derive(Debug)]
pub enum ProfileSubcommand {
    /// List all available profiles.
    List,
    /// Create a new profile with the specified name.
    Create {
        /// The new profile's name.
        name: String,
    },
    /// Delete the specified profile.
    Delete {
        /// The profile to delete.
        name: String,
    },
    /// Switch to the specified profile.
    Switch {
        /// The profile to switch to.
        name: String,
    },
    /// Rename a profile.
    Rename {
        /// The profile's current name.
        old_name: String,
        /// Its new name.
        new_name: String,
    },
}

/// Arguments of the listing of running agent instances.
#[derive(Debug)]
pub struct ListArgs {
    /// How to render the listing.
    pub format: OutputFormat,
}

/// Arguments of the model comparison run.
#[derive(Debug)]
pub struct CompareArgs {
    /// The task every model is given.
    pub task_description: String,
    /// The models to compare.
    pub models: Vec<String>,
    /// How to render the outcome.
    pub format: OutputFormat,
}

/// The agent command's subcommands.
#[derive(Debug)]
pub enum AgentSubcommand {
    /// List running agent instances.
    List(ListArgs),
    /// Run the same task on several models and compare.
    Compare(CompareArgs),
}

/// Arguments of the agent command.
#[derive(Debug)]
pub struct AgentArgs {
    /// Without a subcommand, running instances are listed.
    pub subcommand: Option<AgentSubcommand>,
}

/// What one character contributes when embedded in a double-quoted shell
/// string: a double quote gains a backslash, anything else is itself.
pub open spec fn escaped_char(c: char) -> Seq<char> {
    if c == '"' {
        seq!['\\', '"']
    } else {
        seq![c]
    }
}

/// The text with every double quote backslash-escaped.
pub open spec fn spec_escaped(s: Seq<char>) -> Seq<char>
    decreases s.len(),
{
    if s.len() == 0 {
        Seq::empty()
    } else {
        spec_escaped(s.drop_last()) + escaped_char(s.last())
    }
}

/// Escapes every double quote of `s` with a backslash, so that the result
/// can stand between double quotes in a shell command line.
pub fn escape_double_quotes(s: &str) -> (r: String)
    ensures
        r@ == spec_escaped(s@),
{
    let len = s.unicode_len();
    let mut r = String::new();
    let mut i: usize = 0;
    proof {
        assert(s@.take(0) =~= Seq::<char>::empty());
    }
    while i < len
        invariant
            i <= len,
            len == s@.len(),
            r@ == spec_escaped(s@.take(i as int)),
        decreases len - i,
    {
        let c = s.get_char(i);
        if c == '"' {
            push_char(&mut r, '\\');
            push_char(&mut r, '"');
        } else {
            push_char(&mut r, c);
        }
        proof {
            assert(s@.take(i as int + 1).drop_last() =~= s@.take(i as int));
            assert(s@.take(i as int + 1).last() == s@[i as int]);
            assert(r@ =~= spec_escaped(s@.take(i as int)) + escaped_char(s@[i as int]));
        }
        i += 1;
    }
    proof {
        assert(s@.take(len as int) =~= s@);
    }
    r
}

} // verus!
