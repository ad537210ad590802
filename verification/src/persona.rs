//! Personas (externally called agents): named configuration values that
//! bundle a prompt, tool permissions and hook lists, and the collection that
//! tracks which one is active. Reading and writing persona files is the
//! caller's business; the rules live here.

use vstd::assert_by_contradiction;
use vstd::prelude::*;
use vstd::string::*;

use crate::hooks::Hook;
use crate::text::str_eq;

verus! {

/// Relies on `serde_json::Value` as declared here: the library carries tool
/// settings through opaquely and never looks inside them.
#[verifier::external_type_specification]
#[verifier::external_body]
pub struct ExJsonValue(serde_json::Value);

/// Configuration of one external tool server.
#[derive(Debug)]
pub struct CustomToolConfig {
    /// The command that starts the server.
    pub command: String,
    /// Its arguments.
    pub args: Vec<String>,
}

/// Named tool-server configurations.
#[derive(Debug)]
pub struct McpServerConfig {
    /// Server name to configuration, in order of definition.
    pub mcp_servers: Vec<(String, CustomToolConfig)>,
}

impl Default for McpServerConfig {
    /// The default configuration names no servers.
    fn default() -> (c: McpServerConfig)
        ensures
            c.mcp_servers@.len() == 0,
    {
        McpServerConfig { mcp_servers: Vec::new() }
    }
}

/// What a permission check concludes for one tool use.
#[derive(Debug)]
pub enum PermissionEvalResult {
    /// The use is allowed outright.
    Allow,
    /// The user must be asked.
    Ask,
    /// The use is denied.
    Deny,
}

/// A persona: one named configuration. The name is derived from the file
/// name by the loading layer; the engine itself never reads or writes disk.
#[derive(Debug)]
pub struct Agent {
    /// Derived from the file name by the loader.
    pub name: String,
    /// Free-form description.
    pub description: Option<String>,
    /// System prompt fragment.
    pub prompt: Option<String>,
    /// Tool servers this persona may start.
    pub mcp_servers: McpServerConfig,
    /// Tools visible to this persona.
    pub tools: Vec<String>,
    /// Tools this persona may use without asking; a single `"*"` allows all.
    pub allowed_tools: Vec<String>,
    /// Files whose contents are included as context.
    pub included_files: Vec<String>,
    /// Hooks run when a conversation starts.
    pub create_hooks: Vec<Hook>,
    /// Hooks run before each prompt.
    pub prompt_hooks: Vec<Hook>,
    /// Per-tool settings, carried through opaquely for the tool layer.
    pub tools_settings: Vec<(String, serde_json::Value)>,
    /// Where this persona was loaded from, if anywhere.
    pub path: Option<String>,
}

/// The persona allows every tool: its allow-list is exactly the wildcard.
pub open spec fn allows_all_tools(a: Agent) -> bool {
    a.allowed_tools@.len() == 1 && a.allowed_tools@[0]@ == "*"@
}

/// To be implemented by tools: the persona hands itself to the candidate,
/// which inspects the persona's permission configuration and concludes.
pub trait PermissionCandidate {
    /// What this candidate concludes under the given persona.
    spec fn spec_eval(&self, agent: &Agent) -> PermissionEvalResult;

    /// Concludes for this candidate under the given persona.
    fn eval(&self, agent: &Agent) -> (r: PermissionEvalResult)
        ensures
            r == self.spec_eval(agent),
    ;
}

impl Default for Agent {
    /// The built-in persona named `default`: every tool visible and allowed,
    /// the standard context files included, no hooks, no backing file.
    fn default() -> (a: Agent)
        ensures
            a.name@ == "default"@,
            a.description is Some && a.description->0@ == "Default persona"@,
            a.prompt is None,
            a.mcp_servers.mcp_servers@.len() == 0,
            a.tools@.len() == 1 && a.tools@[0]@ == "*"@,
            allows_all_tools(a),
            a.included_files@.len() == 3,
            a.included_files@[0]@ == "AmazonQ.md"@,
            a.included_files@[1]@ == "README.md"@,
            a.included_files@[2]@ == ".amazonq/rules/**/*.md"@,
            a.create_hooks@.len() == 0,
            a.prompt_hooks@.len() == 0,
            a.tools_settings@.len() == 0,
            a.path is None,
    {
        let mut tools: Vec<String> = Vec::new();
        tools.push(String::from_str("*"));
        let mut allowed_tools: Vec<String> = Vec::new();
        allowed_tools.push(String::from_str("*"));
        let mut included_files: Vec<String> = Vec::new();
        included_files.push(String::from_str("AmazonQ.md"));
        included_files.push(String::from_str("README.md"));
        included_files.push(String::from_str(".amazonq/rules/**/*.md"));
        Agent {
            name: String::from_str("default"),
            description: Some(String::from_str("Default persona")),
            prompt: None,
            mcp_servers: McpServerConfig::default(),
            tools,
            allowed_tools,
            included_files,
            create_hooks: Vec::new(),
            prompt_hooks: Vec::new(),
            tools_settings: Vec::new(),
            path: None,
        }
    }
}

impl Agent {
    /// Evaluates a tool-use permission: a wildcard allow-list allows
    /// outright, anything else is exactly the candidate's conclusion.
    pub fn eval_perm(&self, candidate: &impl PermissionCandidate) -> (r: PermissionEvalResult)
        ensures
            r == if allows_all_tools(*self) {
                PermissionEvalResult::Allow
            } else {
                candidate.spec_eval(self)
            },
    {
        if self.allowed_tools.len() == 1 && str_eq(self.allowed_tools[0].as_str(), "*") {
            return PermissionEvalResult::Allow;
        }
        candidate.eval(self)
    }
}

/// The errors persona handling can report.
#[derive(Debug)]
pub enum AgentError {
    /// No persona of that name exists to switch to.
    NotFound { name: String },
    /// No persona is currently active.
    NoActivePersona,
    /// The active persona cannot be deleted.
    CannotDeleteActive,
    /// No persona of that name exists to delete.
    DoesNotExist { name: String },
    /// A persona of that name already exists.
    AlreadyExists { name: String },
    /// A persona name must not be empty.
    EmptyName,
    /// A persona name must be alphanumeric with hyphens and underscores.
    InvalidName,
    /// The persona has no backing file.
    NoPath,
}

/// The message each error carries.
pub open spec fn spec_message(e: AgentError) -> Seq<char> {
    match e {
        AgentError::NotFound { name } => "No agent with name "@ + name@ + " found"@,
        AgentError::NoActivePersona => "No active persona selected"@,
        AgentError::CannotDeleteActive =>
            "Cannot delete the active persona. Switch to another persona first"@,
        AgentError::DoesNotExist { name } => "Persona '"@ + name@ + "' does not exist"@,
        AgentError::AlreadyExists { name } => "Persona '"@ + name@ + "' already exists"@,
        AgentError::EmptyName => "Persona name cannot be empty"@,
        AgentError::InvalidName =>
            "Persona name must start with an alphanumeric character and can only contain alphanumeric characters, hyphens, and underscores"@,
        AgentError::NoPath => "Persona path associated not found"@,
    }
}

impl AgentError {
    /// Renders the error as its message text.
    pub fn message(&self) -> (m: String)
        ensures
            m@ == spec_message(*self),
    {
        match self {
            AgentError::NotFound { name } => {
                let mut m = String::from_str("No agent with name ");
                m.append(name.as_str());
                m.append(" found");
                m
            },
            AgentError::NoActivePersona => String::from_str("No active persona selected"),
            AgentError::CannotDeleteActive => String::from_str(
                "Cannot delete the active persona. Switch to another persona first",
            ),
            AgentError::DoesNotExist { name } => {
                let mut m = String::from_str("Persona '");
                m.append(name.as_str());
                m.append("' does not exist");
                m
            },
            AgentError::AlreadyExists { name } => {
                let mut m = String::from_str("Persona '");
                m.append(name.as_str());
                m.append("' already exists");
                m
            },
            AgentError::EmptyName => String::from_str("Persona name cannot be empty"),
            AgentError::InvalidName => String::from_str(
                "Persona name must start with an alphanumeric character and can only contain alphanumeric characters, hyphens, and underscores",
            ),
            AgentError::NoPath => String::from_str("Persona path associated not found"),
        }
    }
}

/// The character code is an ASCII letter or digit.
pub open spec fn is_ascii_alnum(c: char) -> bool {
    (('a' as u32) <= (c as u32) && (c as u32) <= ('z' as u32)) || (('A' as u32) <= (c as u32) && (
    c as u32) <= ('Z' as u32)) || (('0' as u32) <= (c as u32) && (c as u32) <= ('0' as u32) + 9)
}

/// A character allowed after the first: alphanumeric, hyphen or underscore.
pub open spec fn is_name_char(c: char) -> bool {
    is_ascii_alnum(c) || c == '-' || c == '_'
}

/// A legal persona name: non-empty, starting alphanumeric, everything after
/// alphanumeric, hyphen or underscore.
pub open spec fn valid_persona_name(s: Seq<char>) -> bool {
    s.len() > 0 && is_ascii_alnum(s[0]) && forall|i: int| 1 <= i < s.len() ==> is_name_char(s[i])
}

fn check_ascii_alnum(c: char) -> (r: bool)
    ensures
        r == is_ascii_alnum(c),
{
    let u = c as u32;
    (('a' as u32) <= u && u <= ('z' as u32)) || (('A' as u32) <= u && u <= ('Z' as u32)) || (('0'
        as u32) <= u && u <= ('0' as u32) + 9)
}

/// Checks a persona name: `Ok` exactly for legal names, the empty name and an
/// illegal character each reported with their own error.
pub fn validate_persona_name(name: &str) -> (r: Result<(), AgentError>)
    ensures
        r is Ok <==> valid_persona_name(name@),
        name@.len() == 0 ==> r == Err::<(), AgentError>(AgentError::EmptyName),
        name@.len() > 0 && !valid_persona_name(name@) ==> r == Err::<(), AgentError>(
            AgentError::InvalidName,
        ),
{
    let len = name.unicode_len();
    if len == 0 {
        return Err(AgentError::EmptyName);
    }
    if !check_ascii_alnum(name.get_char(0)) {
        return Err(AgentError::InvalidName);
    }
    let mut i: usize = 1;
    while i < len
        invariant
            1 <= i <= len,
            len == name@.len(),
            is_ascii_alnum(name@[0]),
            forall|j: int| 1 <= j < i ==> is_name_char(name@[j]),
        decreases len - i,
    {
        let c = name.get_char(i);
        if !(check_ascii_alnum(c) || c == '-' || c == '_') {
            return Err(AgentError::InvalidName);
        }
        i += 1;
    }
    Ok(())
}

/// First position holding a persona of the given name.
pub open spec fn find_index(s: Seq<Agent>, name: Seq<char>) -> Option<int>
    decreases s.len(),
{
    if s.len() == 0 {
        None
    } else if s[0].name@ == name {
        Some(0)
    } else {
        match find_index(s.drop_first(), name) {
            Some(i) => Some(i + 1),
            None => None,
        }
    }
}

proof fn lemma_find_index_hit(s: Seq<Agent>, name: Seq<char>, i: int)
    requires
        0 <= i < s.len(),
        s[i].name@ == name,
        forall|j: int| 0 <= j < i ==> s[j].name@ != name,
    ensures
        find_index(s, name) == Some(i),
    decreases i,
{
    if i == 0 {
    } else {
        assert(s[0].name@ != name);
        assert(s.drop_first()[i - 1] == s[i]);
        assert forall|j: int| 0 <= j < i - 1 implies s.drop_first()[j].name@ != name by {
            assert(s.drop_first()[j] == s[j + 1]);
        }
        lemma_find_index_hit(s.drop_first(), name, i - 1);
    }
}

proof fn lemma_find_index_miss(s: Seq<Agent>, name: Seq<char>)
    requires
        forall|j: int| 0 <= j < s.len() ==> s[j].name@ != name,
    ensures
        find_index(s, name) is None,
    decreases s.len(),
{
    if s.len() > 0 {
        assert forall|j: int| 0 <= j < s.drop_first().len() implies s.drop_first()[j].name@
            != name by {
            assert(s.drop_first()[j] == s[j + 1]);
        }
        lemma_find_index_miss(s.drop_first(), name);
    }
}

/// The personas the session knows, and which one is active.
#[derive(Debug)]
pub struct AgentCollection {
    /// The personas, in load order.
    pub agents: Vec<Agent>,
    /// Name of the active persona.
    pub active_idx: String,
}

impl Default for AgentCollection {
    /// The default collection knows no persona and has none active.
    fn default() -> (c: AgentCollection)
        ensures
            c.agents@.len() == 0,
            c.active_idx@ == Seq::<char>::empty(),
    {
        AgentCollection { agents: Vec::new(), active_idx: String::new() }
    }
}

impl AgentCollection {
    /// Position of the persona named `name`, if one is known.
    fn find(&self, name: &str) -> (r: Option<usize>)
        ensures
            match r {
                Some(i) => i < self.agents@.len() && find_index(self.agents@, name@) == Some(
                    i as int,
                ),
                None => find_index(self.agents@, name@) is None,
            },
    {
        let n = self.agents.len();
        let mut i: usize = 0;
        while i < n
            invariant
                n == self.agents@.len(),
                i <= n,
                forall|j: int| 0 <= j < i ==> self.agents@[j].name@ != name@,
            decreases n - i,
        {
            if str_eq(self.agents[i].name.as_str(), name) {
                proof {
                    lemma_find_index_hit(self.agents@, name@, i as int);
                }
                return Some(i);
            }
            i += 1;
        }
        proof {
            lemma_find_index_miss(self.agents@, name@);
        }
        None
    }

    /// The active persona, if the collection knows one of that name.
    pub fn get_active(&self) -> (r: Option<&Agent>)
        ensures
            match r {
                Some(a) => ({
                    let fi = find_index(self.agents@, self.active_idx@);
                    &&& fi is Some
                    &&& *a == self.agents@[fi->0]
                }),
                None => find_index(self.agents@, self.active_idx@) is None,
            },
    {
        let idx = self.find(self.active_idx.as_str());
        match idx {
            Some(i) => Some(&self.agents[i]),
            None => None,
        }
    }

    /// The active persona, for modification in place.
    pub fn get_active_mut(&mut self) -> (r: Option<&mut Agent>)
        ensures
            match r {
                Some(a) => ({
                    let fi = find_index(old(self).agents@, old(self).active_idx@);
                    &&& fi is Some
                    &&& *a == old(self).agents@[fi->0]
                    &&& final(self).agents@ == old(self).agents@.update(fi->0, *final(a))
                    &&& final(self).active_idx == old(self).active_idx
                }),
                None => {
                    &&& find_index(old(self).agents@, old(self).active_idx@) is None
                    &&& *final(self) == *old(self)
                },
            },
    {
        let name = self.active_idx.clone();
        match self.find(name.as_str()) {
            Some(i) => Some(&mut self.agents[i]),
            None => None,
        }
    }

    /// Makes the persona named `name` active and returns it; an unknown name
    /// is reported and changes nothing.
    pub fn switch(&mut self, name: &str) -> (r: Result<&Agent, AgentError>)
        ensures
            final(self).agents == old(self).agents,
            match r {
                Ok(a) => ({
                    let fi = find_index(old(self).agents@, name@);
                    &&& fi is Some
                    &&& *a == old(self).agents@[fi->0]
                    &&& final(self).active_idx@ == name@
                }),
                Err(e) => {
                    &&& find_index(old(self).agents@, name@) is None
                    &&& final(self).active_idx == old(self).active_idx
                    &&& e matches AgentError::NotFound { name: n } && n@ == name@
                },
            },
    {
        match self.find(name) {
            Some(i) => {
                self.active_idx = String::from_str(name);
                Ok(&self.agents[i])
            },
            None => Err(AgentError::NotFound { name: String::from_str(name) }),
        }
    }

    /// The names of all known personas, in order.
    pub fn list_personas(&self) -> (r: Result<Vec<String>, AgentError>)
        ensures
            r is Ok,
            r->Ok_0@.len() == self.agents@.len(),
            forall|i: int|
                0 <= i < self.agents@.len() ==> #[trigger] r->Ok_0@[i]@ == self.agents@[i].name@,
    {
        let mut names: Vec<String> = Vec::new();
        let n = self.agents.len();
        let mut i: usize = 0;
        while i < n
            invariant
                n == self.agents@.len(),
                i <= n,
                names@.len() == i,
                forall|j: int| 0 <= j < i ==> #[trigger] names@[j]@ == self.agents@[j].name@,
            decreases n - i,
        {
            names.push(self.agents[i].name.clone());
            i += 1;
        }
        Ok(names)
    }

    /// Adds a persona: one already carrying the name is replaced in place,
    /// any other joins the end, so names stay as unique as they were.
    pub fn add_agent(&mut self, agent: Agent)
        ensures
            final(self).active_idx == old(self).active_idx,
            match find_index(old(self).agents@, agent.name@) {
                Some(fi) => final(self).agents@ == old(self).agents@.update(fi, agent),
                None => final(self).agents@ == old(self).agents@.push(agent),
            },
    {
        match self.find(agent.name.as_str()) {
            Some(i) => {
                let slot = &mut self.agents[i];
                *slot = agent;
            },
            None => {
                self.agents.push(agent);
            },
        }
    }

    /// Removes every persona named `name` and returns the first, so that
    /// after success the name is certainly gone, as it would be from a map.
    /// The active persona cannot be removed, and an unknown name is
    /// reported; either way the collection is then unchanged.
    pub fn remove_agent(&mut self, name: &str) -> (r: Result<Agent, AgentError>)
        ensures
            match r {
                Ok(a) => ({
                    let fi = find_index(old(self).agents@, name@);
                    &&& name@ != old(self).active_idx@
                    &&& fi is Some
                    &&& a == old(self).agents@[fi->0]
                    &&& final(self).agents@ == remove_named(old(self).agents@, name@)
                    &&& !has_name(final(self).agents@, name@)
                    &&& final(self).active_idx == old(self).active_idx
                }),
                Err(e) => ({
                    &&& *final(self) == *old(self)
                    &&& match e {
                        AgentError::CannotDeleteActive => name@ == old(self).active_idx@,
                        AgentError::DoesNotExist { name: n } => n@ == name@ && name@ != old(
                            self,
                        ).active_idx@ && find_index(old(self).agents@, name@) is None,
                        _ => false,
                    }
                }),
            },
    {
        if str_eq(name, self.active_idx.as_str()) {
            return Err(AgentError::CannotDeleteActive);
        }
        if self.find(name).is_none() {
            return Err(AgentError::DoesNotExist { name: String::from_str(name) });
        }
        let ghost orig = self.agents@;
        let mut kept: Vec<Agent> = Vec::new();
        let mut removed: Option<Agent> = None;
        let ghost mut k: int = 0;
        proof {
            assert(orig.skip(0) =~= orig);
            assert(orig.take(0) =~= Seq::<Agent>::empty());
        }
        while self.agents.len() > 0
            invariant
                0 <= k <= orig.len(),
                self.agents@ == orig.skip(k),
                self.active_idx == old(self).active_idx,
                orig == old(self).agents@,
                find_index(orig, name@) is Some,
                kept@ == remove_named(orig.take(k), name@),
                match removed {
                    None => forall|j: int| 0 <= j < k ==> orig[j].name@ != name@,
                    Some(a) => ({
                        let fi = find_index(orig, name@);
                        &&& fi is Some
                        &&& 0 <= fi->0 < k
                        &&& a == orig[fi->0]
                    }),
                },
            decreases self.agents@.len(),
        {
            let a = self.agents.remove(0);
            proof {
                assert(a == orig[k]);
                assert(orig.skip(k).drop_first() =~= orig.skip(k + 1));
                assert(orig.take(k + 1).drop_last() =~= orig.take(k));
                assert(orig.take(k + 1).last() == orig[k]);
            }
            if str_eq(a.name.as_str(), name) {
                if removed.is_none() {
                    proof {
                        lemma_find_index_hit(orig, name@, k);
                    }
                    removed = Some(a);
                }
            } else {
                kept.push(a);
            }
            proof {
                assert(kept@ == remove_named(orig.take(k + 1), name@));
                k = k + 1;
            }
        }
        proof {
            assert(orig.skip(k) =~= Seq::<Agent>::empty());
            assert(k == orig.len());
            assert(orig.take(k) =~= orig);
            lemma_remove_named_absent(orig, name@);
            if removed is None {
                lemma_find_index_miss(orig, name@);
                assert(false);
            }
        }
        self.agents = kept;
        match removed {
            Some(a) => Ok(a),
            None => vstd::pervasive::unreached(),
        }
    }
}


/// Some persona in `s` carries this name.
pub open spec fn has_name(s: Seq<Agent>, name: Seq<char>) -> bool {
    exists|i: int| 0 <= i < s.len() && s[i].name@ == name
}

/// The personas with every one of the given name removed, order kept.
pub open spec fn remove_named(s: Seq<Agent>, name: Seq<char>) -> Seq<Agent>
    decreases s.len(),
{
    if s.len() == 0 {
        Seq::empty()
    } else if s.last().name@ == name {
        remove_named(s.drop_last(), name)
    } else {
        remove_named(s.drop_last(), name).push(s.last())
    }
}

/// After the removal, no persona of the name is left.
proof fn lemma_remove_named_absent(s: Seq<Agent>, name: Seq<char>)
    ensures
        !has_name(remove_named(s, name), name),
    decreases s.len(),
{
    if s.len() > 0 {
        lemma_remove_named_absent(s.drop_last(), name);
        if s.last().name@ != name {
            let rest = remove_named(s.drop_last(), name);
            assert_by_contradiction!(!has_name(rest.push(s.last()), name), {
                let i = choose|i: int|
                    0 <= i < rest.push(s.last()).len() && rest.push(s.last())[i].name@ == name;
                if i < rest.len() {
                    assert(rest.push(s.last())[i] == rest[i]);
                }
            });
        }
    }
}

/// Whether one of the first `upto` personas carries this name.
fn find_name(agents: &Vec<Agent>, upto: usize, name: &str) -> (r: bool)
    requires
        upto <= agents@.len(),
    ensures
        r == has_name(agents@.take(upto as int), name@),
{
    let mut j: usize = 0;
    while j < upto
        invariant
            upto <= agents@.len(),
            j <= upto,
            forall|t: int| 0 <= t < j ==> agents@[t].name@ != name@,
        decreases upto - j,
    {
        if str_eq(agents[j].name.as_str(), name) {
            proof {
                assert(agents@.take(upto as int)[j as int] == agents@[j as int]);
            }
            return true;
        }
        j += 1;
    }
    proof {
        assert_by_contradiction!(!has_name(agents@.take(upto as int), name@), {
            let i = choose|i: int|
                0 <= i < agents@.take(upto as int).len() && agents@.take(upto as int)[i].name@
                    == name@;
            assert(agents@.take(upto as int)[i] == agents@[i]);
        });
    }
    false
}

/// Every one of the first `n` global personas is accounted for: one whose
/// name a workspace persona already carries has its name among the
/// conflicts, any other stands in the merged tail.
pub open spec fn merge_accounts_global(
    local: Seq<Agent>,
    global: Seq<Agent>,
    merged: Seq<Agent>,
    conflicts: Seq<String>,
    n: int,
) -> bool {
    forall|g: int|
        0 <= g < n ==> if has_name(local, (#[trigger] global[g]).name@) {
            exists|c: int| 0 <= c < conflicts.len() && conflicts[c]@ == global[g].name@
        } else {
            exists|i: int| local.len() <= i < merged.len() && merged[i] == global[g]
        }
}

/// Merges workspace personas with globally defined ones: every workspace
/// persona is kept in place; a global persona joins the end unless a
/// workspace persona already carries its name, in which case its name is
/// reported as a conflict and the workspace version is used.
pub fn merge_personas(local: Vec<Agent>, global: Vec<Agent>) -> (r: (Vec<Agent>, Vec<String>))
    ensures
        r.0@.len() >= local@.len(),
        forall|i: int| 0 <= i < local@.len() ==> r.0@[i] == local@[i],
        forall|i: int|
            local@.len() <= i < r.0@.len() ==> !has_name(local@, (#[trigger] r.0@[i]).name@) && (
            exists|g: int| 0 <= g < global@.len() && r.0@[i] == global@[g]),
        merge_accounts_global(local@, global@, r.0@, r.1@, global@.len() as int),
        forall|c: int| 0 <= c < r.1@.len() ==> has_name(local@, (#[trigger] r.1@[c])@),
{
    let ghost local0 = local@;
    let ghost global0 = global@;
    let local_len = local.len();
    let mut merged = local;
    let mut conflicts: Vec<String> = Vec::new();
    let mut rest = global;
    let ghost mut k: int = 0;
    proof {
        assert(global0.skip(0) =~= global0);
    }
    while rest.len() > 0
        invariant
            0 <= k <= global0.len(),
            rest@ == global0.skip(k),
            local_len == local0.len(),
            merged@.len() >= local0.len(),
            forall|i: int| 0 <= i < local0.len() ==> merged@[i] == local0[i],
            forall|i: int|
                local0.len() <= i < merged@.len() ==> !has_name(
                    local0,
                    (#[trigger] merged@[i]).name@,
                ) && (exists|g: int| 0 <= g < k && merged@[i] == global0[g]),
            merge_accounts_global(local0, global0, merged@, conflicts@, k),
            forall|c: int| 0 <= c < conflicts@.len() ==> has_name(local0, (#[trigger] conflicts@[c])@),
        decreases rest@.len(),
    {
        let agent = rest.remove(0);
        proof {
            assert(agent == global0[k]);
            assert(global0.skip(k).drop_first() =~= global0.skip(k + 1));
            assert(merged@.take(local_len as int) =~= local0);
        }
        let conflict = find_name(&merged, local_len, agent.name.as_str());
        if conflict {
            let ghost pre_conflicts = conflicts@;
            conflicts.push(agent.name.clone());
            proof {
                assert forall|g: int|
                    0 <= g < k + 1 implies if has_name(local0, (#[trigger] global0[g]).name@) {
                    exists|c: int| 0 <= c < conflicts@.len() && conflicts@[c]@ == global0[g].name@
                } else {
                    exists|i: int| local0.len() <= i < merged@.len() && merged@[i] == global0[g]
                } by {
                    if g == k {
                        assert(conflicts@[pre_conflicts.len() as int]@ == global0[k].name@);
                    } else {
                        if has_name(local0, global0[g].name@) {
                            let c = choose|c: int|
                                0 <= c < pre_conflicts.len() && pre_conflicts[c]@ == global0[
                                g].name@;
                            assert(conflicts@[c] == pre_conflicts[c]);
                        }
                    }
                }
                assert(merge_accounts_global(local0, global0, merged@, conflicts@, k + 1));
            }
        } else {
            let ghost pre_merged = merged@;
            merged.push(agent);
            proof {
                assert forall|g: int|
                    0 <= g < k + 1 implies if has_name(local0, (#[trigger] global0[g]).name@) {
                    exists|c: int| 0 <= c < conflicts@.len() && conflicts@[c]@ == global0[g].name@
                } else {
                    exists|i: int| local0.len() <= i < merged@.len() && merged@[i] == global0[g]
                } by {
                    if g == k {
                        assert(merged@[pre_merged.len() as int] == global0[k]);
                    } else {
                        if !has_name(local0, global0[g].name@) {
                            let i = choose|i: int|
                                local0.len() <= i < pre_merged.len() && pre_merged[i] == global0[
                                g];
                            assert(merged@[i] == pre_merged[i]);
                        }
                    }
                }
                assert(merge_accounts_global(local0, global0, merged@, conflicts@, k + 1));
            }
        }
        proof {
            k = k + 1;
        }
    }
    proof {
        assert(global0.skip(k) =~= Seq::<Agent>::empty());
        assert(k == global0.len());
    }
    (merged, conflicts)
}

} // verus!
