//! Tests of the platform context, cache policy, truncation, the MCP resource
//! checks and the command-line data.

use chat_hooks::cache::{effective_policy, expiry_time, CachePolicy};
use chat_hooks::commands::{escape_double_quotes, OutputFormat};
use chat_hooks::executor::truncate_output;
use chat_hooks::hooks::HookTrigger;
use chat_hooks::mcp::McpResource;
use chat_hooks::platform::{Context, ContextBuilder, Env};

#[test]
fn test_env_get() {
    let env = Env::from_slice(&[("HOME", "/home/testuser"), ("USER", "testuser")]);
    assert_eq!(env.get("HOME"), Some("/home/testuser".to_string()));
    assert_eq!(env.get("USER"), Some("testuser".to_string()));
    assert_eq!(env.get("MISSING"), None);
}

#[test]
fn test_context_builder() {
    let env = Env::from_slice(&[("hello", "world")]);
    let ctx = Context::builder().with_env(env).build_fake();
    assert_eq!(ctx.env.get("hello"), Some("world".to_string()));

    let shared = ContextBuilder::new().build();
    assert_eq!(shared.env.get("hello"), None);
}

#[test]
fn test_context_new_empty_env() {
    let ctx = Context::new();
    assert_eq!(ctx.env.get("anything"), None);
}

#[test]
fn test_effective_policy() {
    // Per-prompt hooks default to "never cache".
    assert_eq!(
        effective_policy(HookTrigger::PerPrompt, 0, 1_000),
        CachePolicy::NoCache
    );
    // Conversation-start hooks default to "cache for the session".
    assert_eq!(
        effective_policy(HookTrigger::ConversationStart, 0, 1_000),
        CachePolicy::CacheForever
    );
    // An explicit TTL caches until now + ttl, for either trigger.
    assert_eq!(
        effective_policy(HookTrigger::PerPrompt, 60, 1_000),
        CachePolicy::CacheUntil(61_000)
    );
    assert_eq!(
        effective_policy(HookTrigger::ConversationStart, 2, 500),
        CachePolicy::CacheUntil(2_500)
    );
}

#[test]
fn test_expiry_time_saturates() {
    assert_eq!(expiry_time(1_000, 1), 2_000);
    assert_eq!(expiry_time(u64::MAX - 10, 1), u64::MAX);
    assert_eq!(expiry_time(0, u64::MAX), u64::MAX);
}

#[test]
fn test_truncate_output_direct() {
    assert_eq!(truncate_output("short", 100), "short");
    assert_eq!(truncate_output("exactly", 7), "exactly");
    assert_eq!(truncate_output("0123456789", 4), "0123 ... truncated");
    assert_eq!(truncate_output("", 0), "");
}

#[test]
fn test_mcp_resource_validate() {
    let ctx = Context::new();

    let mut ok = McpResource {
        uri: "file://test.txt".to_string(),
        server_name: "server1".to_string(),
    };
    assert!(ok.validate(&ctx).is_ok());

    let mut no_uri = McpResource {
        uri: String::new(),
        server_name: "server1".to_string(),
    };
    assert_eq!(
        no_uri.validate(&ctx).unwrap_err().message(),
        "Resource URI cannot be empty"
    );

    let mut no_server = McpResource {
        uri: "file://test.txt".to_string(),
        server_name: String::new(),
    };
    assert_eq!(
        no_server.validate(&ctx).unwrap_err().message(),
        "Server name cannot be empty"
    );
}

#[test]
fn test_escape_double_quotes() {
    assert_eq!(escape_double_quotes("plain"), "plain");
    assert_eq!(escape_double_quotes("say \"hi\""), "say \\\"hi\\\"");
    assert_eq!(escape_double_quotes(""), "");
    assert_eq!(escape_double_quotes("\""), "\\\"");
}

#[test]
fn test_output_format_default() {
    assert_eq!(OutputFormat::default(), OutputFormat::Plain);
}
