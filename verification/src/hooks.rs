//! The hook descriptor: an immutable configuration value describing one
//! command, the moment at which it fires, and its execution policy.

use vstd::prelude::*;

verus! {

/// Default wall-clock bound, in milliseconds, for one hook command.
pub const DEFAULT_TIMEOUT_MS: u64 = 30_000;

/// Default cap on the number of output characters returned by one hook.
pub const DEFAULT_MAX_OUTPUT_SIZE: usize = 10_240;

/// Default caching lifetime in seconds; `0` is interpreted per trigger
/// (see `crate::cache::spec_effective_policy`).
pub const DEFAULT_CACHE_TTL_SECONDS: u64 = 0;

/// The lifecycle moment that makes a hook eligible to run.
#[derive(Clone, Copy, Debug, PartialEq, Eq, Structural)]
pub enum HookTrigger {
    /// Fires once when a conversation begins.
    ConversationStart,
    /// Fires before each user turn.
    PerPrompt,
}

/// The execution mechanism of a hook; only inline shell commands exist today,
/// but the engine's control flow does not depend on the set of kinds.
#[derive(Clone, Copy, Debug, PartialEq, Eq, Structural)]
pub enum HookType {
    /// The command is run under the platform shell.
    Inline,
}

/// One hook configuration. The engine never mutates a descriptor; it only
/// tracks derived cache state keyed by the descriptor's behavioral identity
/// (`trigger` and `command`).
#[derive(Debug)]
pub struct Hook {
    /// Execution mechanism; `command` is only meaningful for `Inline`.
    pub kind: HookType,
    /// Shell command to run; absent or empty is legal but produces no output.
    pub command: Option<String>,
    /// When this hook is eligible to run.
    pub trigger: HookTrigger,
    /// A disabled hook is skipped entirely and produces no result.
    pub disabled: bool,
    /// Max wall-clock time in milliseconds allowed for the command.
    pub timeout_ms: u64,
    /// Cap on the number of output characters returned for this hook.
    pub max_output_size: usize,
    /// Caching lifetime in seconds, interpreted per trigger.
    pub cache_ttl_seconds: u64,
    /// Marks a hook defined at a broader configuration scope; informational,
    /// it does not alter cache semantics.
    pub is_global: bool,
}

/// The text of an optional command, as a sequence of characters.
pub open spec fn opt_str_view(c: Option<String>) -> Option<Seq<char>> {
    match c {
        Some(s) => Some(s@),
        None => None,
    }
}

/// The behavioral identity of a hook: two descriptors with the same trigger
/// and command text share one cache entry, whatever their other fields say.
pub open spec fn hook_key(h: Hook) -> (HookTrigger, Option<Seq<char>>) {
    (h.trigger, opt_str_view(h.command))
}

impl Hook {
    /// Builds an inline hook for `command` with every policy field at its
    /// default.
    pub fn new_inline_hook(trigger: HookTrigger, command: String) -> (h: Hook)
        ensures
            h.kind == HookType::Inline,
            h.command == Some(command),
            h.trigger == trigger,
            !h.disabled,
            h.timeout_ms == DEFAULT_TIMEOUT_MS,
            h.max_output_size == DEFAULT_MAX_OUTPUT_SIZE,
            h.cache_ttl_seconds == DEFAULT_CACHE_TTL_SECONDS,
            !h.is_global,
    {
        Hook {
            kind: HookType::Inline,
            command: Some(command),
            trigger,
            disabled: false,
            timeout_ms: DEFAULT_TIMEOUT_MS,
            max_output_size: DEFAULT_MAX_OUTPUT_SIZE,
            cache_ttl_seconds: DEFAULT_CACHE_TTL_SECONDS,
            is_global: false,
        }
    }
}

impl Clone for Hook {
    /// A clone carries exactly the same configuration.
    fn clone(&self) -> (h: Hook)
        ensures
            h == *self,
    {
        Hook {
            kind: self.kind,
            command: match &self.command {
                Some(c) => Some(c.clone()),
                None => None,
            },
            trigger: self.trigger,
            disabled: self.disabled,
            timeout_ms: self.timeout_ms,
            max_output_size: self.max_output_size,
            cache_ttl_seconds: self.cache_ttl_seconds,
            is_global: self.is_global,
        }
    }
}

} // verus!
