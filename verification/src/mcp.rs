//! The MCP resource tool's argument value: a resource URI plus the server
//! that owns it, with the checks run before the tool is invoked.

use vstd::prelude::*;
use vstd::string::*;

use crate::platform::Context;

verus! {

/// The errors an MCP resource argument can be rejected with.
#[derive(Debug)]
pub enum McpResourceError {
    /// The resource URI is missing.
    EmptyUri,
    /// The server name is missing.
    EmptyServerName,
}

/// The message each error carries.
pub open spec fn spec_resource_message(e: McpResourceError) -> Seq<char> {
    match e {
        McpResourceError::EmptyUri => "Resource URI cannot be empty"@,
        McpResourceError::EmptyServerName => "Server name cannot be empty"@,
    }
}

impl McpResourceError {
    /// Renders the error as its message text.
    pub fn message(&self) -> (m: String)
        ensures
            m@ == spec_resource_message(*self),
    {
        match self {
            McpResourceError::EmptyUri => String::from_str("Resource URI cannot be empty"),
            McpResourceError::EmptyServerName => String::from_str("Server name cannot be empty"),
        }
    }
}

/// Read content from MCP resources using their URI.
#[derive(Debug)]
pub struct McpResource {
    /// The resource URI.
    pub uri: String,
    /// The server that owns the resource.
    pub server_name: String,
}

impl McpResource {
    /// Checks the argument: accepted exactly when both the URI and the server
    /// name are non-empty; each missing part is reported with its own error,
    /// the URI first. Server existence is checked at invocation time, since
    /// the platform context has no access to the tool manager.
    pub fn validate(&mut self, _ctx: &Context) -> (r: Result<(), McpResourceError>)
        ensures
            *final(self) == *old(self),
            r is Ok <==> (old(self).uri@.len() > 0 && old(self).server_name@.len() > 0),
            old(self).uri@.len() == 0 ==> r == Err::<(), McpResourceError>(
                McpResourceError::EmptyUri,
            ),
            old(self).uri@.len() > 0 && old(self).server_name@.len() == 0 ==> r == Err::<
                (),
                McpResourceError,
            >(McpResourceError::EmptyServerName),
    {
        if self.uri.as_str().is_empty() {
            return Err(McpResourceError::EmptyUri);
        }
        if self.server_name.as_str().is_empty() {
            return Err(McpResourceError::EmptyServerName);
        }
        Ok(())
    }
}

} // verus!
