//! Tests of the hook data model, the cache store and the execution engine.

use chat_hooks::cache::CachedHook;
use chat_hooks::executor::HookExecutor;
use chat_hooks::hooks::{
    Hook, HookTrigger, HookType, DEFAULT_CACHE_TTL_SECONDS, DEFAULT_MAX_OUTPUT_SIZE,
    DEFAULT_TIMEOUT_MS,
};

#[test]
fn test_hook_creation() {
    let command = "echo 'hello'";
    let hook = Hook::new_inline_hook(HookTrigger::PerPrompt, command.to_string());

    assert_eq!(hook.kind, HookType::Inline);
    assert!(!hook.disabled);
    assert_eq!(hook.timeout_ms, DEFAULT_TIMEOUT_MS);
    assert_eq!(hook.max_output_size, DEFAULT_MAX_OUTPUT_SIZE);
    assert_eq!(hook.cache_ttl_seconds, DEFAULT_CACHE_TTL_SECONDS);
    assert_eq!(hook.command, Some(command.to_string()));
    assert_eq!(hook.trigger, HookTrigger::PerPrompt);
    assert!(!hook.is_global);
}

#[test]
fn test_hook_executor_cached_conversation_start() {
    let mut executor = HookExecutor::new();
    let mut hook1 = Hook::new_inline_hook(HookTrigger::ConversationStart, "echo 'test1'".to_string());
    hook1.is_global = true;

    let mut hook2 = Hook::new_inline_hook(HookTrigger::ConversationStart, "echo 'test2'".to_string());
    hook2.is_global = false;

    let hooks = vec![hook1, hook2];

    // First execution should run the command
    let mut output = String::new();
    let results = executor.run_hooks(&hooks, &mut output);

    assert_eq!(results.len(), 2);
    assert!(results[0].1.contains("test1"));
    assert!(results[1].1.contains("test2"));
    assert!(!output.is_empty());

    // Second execution should use cache
    let mut output = String::new();
    let results = executor.run_hooks(&hooks, &mut output);

    assert_eq!(results.len(), 2);
    assert!(results[0].1.contains("test1"));
    assert!(results[1].1.contains("test2"));
    assert!(output.is_empty()); // Should not have run the hook, so no output.
}

#[test]
fn test_hook_executor_cached_per_prompt() {
    let mut executor = HookExecutor::new();
    let mut hook1 = Hook::new_inline_hook(HookTrigger::PerPrompt, "echo 'test1'".to_string());
    hook1.is_global = true;
    hook1.cache_ttl_seconds = 60;

    let mut hook2 = Hook::new_inline_hook(HookTrigger::PerPrompt, "echo 'test2'".to_string());
    hook2.is_global = false;
    hook2.cache_ttl_seconds = 60;

    let hooks = vec![hook1, hook2];

    // First execution should run the command
    let mut output = String::new();
    let results = executor.run_hooks(&hooks, &mut output);

    assert_eq!(results.len(), 2);
    assert!(results[0].1.contains("test1"));
    assert!(results[1].1.contains("test2"));
    assert!(!output.is_empty());

    // Second execution should use cache
    let mut output = String::new();
    let results = executor.run_hooks(&hooks, &mut output);

    assert_eq!(results.len(), 2);
    assert!(results[0].1.contains("test1"));
    assert!(results[1].1.contains("test2"));
    assert!(output.is_empty()); // Should not have run the hook, so no output.
}

#[test]
fn test_hook_executor_not_cached_per_prompt() {
    let mut executor = HookExecutor::new();
    let mut hook1 = Hook::new_inline_hook(HookTrigger::PerPrompt, "echo 'test1'".to_string());
    hook1.is_global = true;

    let mut hook2 = Hook::new_inline_hook(HookTrigger::PerPrompt, "echo 'test2'".to_string());
    hook2.is_global = false;

    let hooks = vec![hook1, hook2];

    // First execution should run the command
    let mut output = String::new();
    let results = executor.run_hooks(&hooks, &mut output);

    assert_eq!(results.len(), 2);
    assert!(results[0].1.contains("test1"));
    assert!(results[1].1.contains("test2"));
    assert!(!output.is_empty());

    // Second execution should run the command again
    let mut output = String::new();
    let results = executor.run_hooks(&hooks, &mut output);

    assert_eq!(results.len(), 2);
    assert!(results[0].1.contains("test1"));
    assert!(results[1].1.contains("test2"));
    assert!(!output.is_empty());
}

#[test]
fn test_hook_timeout() {
    let mut executor = HookExecutor::new();
    let mut hook = Hook::new_inline_hook(HookTrigger::PerPrompt, "sleep 2".to_string());
    hook.timeout_ms = 100; // Set very short timeout

    let mut sink = String::new();
    let results = executor.run_hooks(&vec![hook], &mut sink);

    assert_eq!(results.len(), 0); // Should fail due to timeout
}

#[test]
fn test_disabled_hook() {
    let mut executor = HookExecutor::new();
    let mut hook = Hook::new_inline_hook(HookTrigger::PerPrompt, "echo 'test'".to_string());
    hook.disabled = true;

    let mut sink = String::new();
    let results = executor.run_hooks(&vec![hook], &mut sink);

    assert_eq!(results.len(), 0); // Disabled hook should not run
    assert!(sink.is_empty()); // ... and writes nothing to the sink
}

#[test]
fn test_cache_expiration() {
    let mut executor = HookExecutor::new();
    let mut hook = Hook::new_inline_hook(HookTrigger::PerPrompt, "echo 'test'".to_string());
    hook.cache_ttl_seconds = 1;

    let hooks = vec![hook];

    // First execution
    let mut sink = String::new();
    let results1 = executor.run_hooks(&hooks, &mut sink);
    assert_eq!(results1.len(), 1);

    // Wait for cache to expire
    let sleeper = Hook::new_inline_hook(HookTrigger::PerPrompt, "sleep 1.1".to_string());
    let mut sleep_sink = String::new();
    executor.run_hooks(&vec![sleeper], &mut sleep_sink);

    // Second execution should run command again
    let mut sink2 = String::new();
    let results2 = executor.run_hooks(&hooks, &mut sink2);
    assert_eq!(results2.len(), 1);
    assert!(!sink2.is_empty()); // the command really ran again
}

#[test]
fn test_hook_cache_storage() {
    let mut executor: HookExecutor = HookExecutor::new();
    let hook = Hook::new_inline_hook(HookTrigger::PerPrompt, "".to_string());

    let cached_hook = CachedHook {
        output: "test output".to_string(),
        expiry: None,
    };

    executor.insert_cache(&hook, cached_hook.clone());

    assert_eq!(executor.get_cache(&hook), Some("test output".to_string()));
}

#[test]
fn test_hook_cache_storage_expired() {
    let mut executor: HookExecutor = HookExecutor::new();
    let hook = Hook::new_inline_hook(HookTrigger::PerPrompt, "".to_string());

    let cached_hook = CachedHook {
        output: "test output".to_string(),
        expiry: Some(0), // an instant long past
    };

    executor.insert_cache(&hook, cached_hook.clone());

    // Item should not return since it is expired
    assert_eq!(executor.get_cache(&hook), None);
}

#[test]
fn test_max_output_size() {
    let mut executor = HookExecutor::new();

    let command = "for i in {1..1000}; do echo $i; done";

    let mut hook = Hook::new_inline_hook(HookTrigger::PerPrompt, command.to_string());
    hook.max_output_size = 100;

    let mut sink = String::new();
    let results = executor.run_hooks(&vec![hook], &mut sink);

    assert!(results[0].1.len() <= 100 + " ... truncated".len());
}

#[test]
fn test_os_specific_command_execution() {
    let mut executor = HookExecutor::new();

    // A simple command that outputs the shell name
    let command = "echo $SHELL";

    let hook = Hook::new_inline_hook(HookTrigger::PerPrompt, command.to_string());

    let mut sink = String::new();
    let results = executor.run_hooks(&vec![hook], &mut sink);

    assert_eq!(results.len(), 1, "Command execution should succeed");

    // Verify output contains expected shell information
    assert!(results[0].1.contains("/"), "Unix shell path should contain '/'");
}

#[test]
fn test_order_preservation() {
    let mut executor = HookExecutor::new();
    let hooks = vec![
        Hook::new_inline_hook(HookTrigger::PerPrompt, "echo first".to_string()),
        Hook::new_inline_hook(HookTrigger::PerPrompt, "echo second".to_string()),
        Hook::new_inline_hook(HookTrigger::PerPrompt, "echo third".to_string()),
    ];

    let mut sink = String::new();
    let results = executor.run_hooks(&hooks, &mut sink);

    assert_eq!(results.len(), 3);
    assert!(results[0].1.contains("first"));
    assert!(results[1].1.contains("second"));
    assert!(results[2].1.contains("third"));
    assert_eq!(results[0].0.command, Some("echo first".to_string()));
    assert_eq!(results[1].0.command, Some("echo second".to_string()));
    assert_eq!(results[2].0.command, Some("echo third".to_string()));
}

#[test]
fn test_disabled_hook_touches_nothing() {
    let mut executor = HookExecutor::new();
    let mut hook =
        Hook::new_inline_hook(HookTrigger::ConversationStart, "echo 'invisible'".to_string());
    hook.disabled = true;

    let mut sink = String::new();
    let results = executor.run_hooks(&vec![hook.clone()], &mut sink);

    assert_eq!(results.len(), 0);
    assert!(sink.is_empty());
    // The cache was never written for this hook's identity.
    assert_eq!(executor.get_cache(&hook), None);
}

#[test]
fn test_truncation_exact() {
    let mut executor = HookExecutor::new();
    // printf writes exactly ten characters, no newline
    let mut hook = Hook::new_inline_hook(HookTrigger::PerPrompt, "printf abcdefghij".to_string());
    hook.max_output_size = 5;

    let mut sink = String::new();
    let results = executor.run_hooks(&vec![hook], &mut sink);

    assert_eq!(results.len(), 1);
    assert_eq!(results[0].1, "abcde ... truncated");
    // The sink received the raw, untruncated output.
    assert_eq!(sink, "abcdefghij");
}

#[test]
fn test_empty_hook_list() {
    let mut executor = HookExecutor::new();
    let mut sink = String::new();
    let results = executor.run_hooks(&vec![], &mut sink);
    assert_eq!(results.len(), 0);
    assert!(sink.is_empty());
}

#[test]
fn test_end_to_end_two_hooks_default_ttl() {
    let mut executor = HookExecutor::new();
    let mut hook1 = Hook::new_inline_hook(HookTrigger::PerPrompt, "echo 'test1'".to_string());
    hook1.is_global = true;
    let mut hook2 = Hook::new_inline_hook(HookTrigger::PerPrompt, "echo 'test2'".to_string());
    hook2.is_global = false;

    let hooks = vec![hook1, hook2];

    // With the default TTL both calls run the commands afresh: both sinks
    // are non-empty and both result lists are full and ordered.
    let mut sink1 = String::new();
    let results1 = executor.run_hooks(&hooks, &mut sink1);
    assert_eq!(results1.len(), 2);
    assert!(results1[0].1.contains("test1"));
    assert!(results1[1].1.contains("test2"));
    assert!(!sink1.is_empty());

    let mut sink2 = String::new();
    let results2 = executor.run_hooks(&hooks, &mut sink2);
    assert_eq!(results2.len(), 2);
    assert!(results2[0].1.contains("test1"));
    assert!(results2[1].1.contains("test2"));
    assert!(!sink2.is_empty());
}

#[test]
fn test_shared_identity_ignores_other_fields() {
    // Two descriptors with the same trigger and command share a cache entry
    // even when their other fields differ.
    let mut executor = HookExecutor::new();
    let mut hook1 = Hook::new_inline_hook(HookTrigger::ConversationStart, "echo 'same'".to_string());
    hook1.is_global = true;
    let mut hook2 = Hook::new_inline_hook(HookTrigger::ConversationStart, "echo 'same'".to_string());
    hook2.timeout_ms = 123_456;

    let mut sink1 = String::new();
    let results1 = executor.run_hooks(&vec![hook1], &mut sink1);
    assert_eq!(results1.len(), 1);
    assert!(!sink1.is_empty());

    let mut sink2 = String::new();
    let results2 = executor.run_hooks(&vec![hook2], &mut sink2);
    assert_eq!(results2.len(), 1);
    assert!(sink2.is_empty()); // served from the shared cache entry
}
