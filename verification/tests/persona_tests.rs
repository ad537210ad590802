//! Tests of the persona collection and its rules.

use chat_hooks::persona::{
    merge_personas, validate_persona_name, Agent, AgentCollection, PermissionCandidate,
    PermissionEvalResult,
};

#[test]
fn test_get_active() {
    let mut collection = AgentCollection::default();
    assert!(collection.get_active().is_none());

    let agent = Agent::default();
    collection.agents.push(agent);
    collection.active_idx = "default".to_string();

    assert!(collection.get_active().is_some());
    assert_eq!(collection.get_active().unwrap().name, "default");
}

#[test]
fn test_get_active_mut() {
    let mut collection = AgentCollection::default();
    assert!(collection.get_active_mut().is_none());

    let agent = Agent::default();
    collection.agents.push(agent);
    collection.active_idx = "default".to_string();

    assert!(collection.get_active_mut().is_some());
    let active = collection.get_active_mut().unwrap();
    active.description = Some("Modified description".to_string());

    assert_eq!(
        collection.agents[0].description,
        Some("Modified description".to_string())
    );
}

#[test]
fn test_switch() {
    let mut collection = AgentCollection::default();

    let default_agent = Agent::default();
    let dev_agent = Agent {
        name: "dev".to_string(),
        description: Some("Developer agent".to_string()),
        ..Default::default()
    };

    collection.agents.push(default_agent);
    collection.agents.push(dev_agent);
    collection.active_idx = "default".to_string();

    // Test successful switch
    let result = collection.switch("dev");
    assert!(result.is_ok());
    assert_eq!(result.unwrap().name, "dev");

    // Test switch to non-existent agent
    let result = collection.switch("nonexistent");
    assert!(result.is_err());
    assert_eq!(
        result.unwrap_err().message(),
        "No agent with name nonexistent found"
    );
}

#[test]
fn test_list_personas() {
    let mut collection = AgentCollection::default();

    // Add two agents
    let default_agent = Agent::default();
    let dev_agent = Agent {
        name: "dev".to_string(),
        description: Some("Developer agent".to_string()),
        ..Default::default()
    };

    collection.agents.push(default_agent);
    collection.agents.push(dev_agent);

    let result = collection.list_personas();
    assert!(result.is_ok());

    let personas = result.unwrap();
    assert_eq!(personas.len(), 2);
    assert!(personas.contains(&"default".to_string()));
    assert!(personas.contains(&"dev".to_string()));
}

#[test]
fn test_validate_persona_name() {
    // Valid names
    assert!(validate_persona_name("valid").is_ok());
    assert!(validate_persona_name("valid123").is_ok());
    assert!(validate_persona_name("valid-name").is_ok());
    assert!(validate_persona_name("valid_name").is_ok());
    assert!(validate_persona_name("123valid").is_ok());

    // Invalid names
    assert!(validate_persona_name("").is_err());
    assert!(validate_persona_name("-invalid").is_err());
    assert!(validate_persona_name("_invalid").is_err());
    assert!(validate_persona_name("invalid!").is_err());
    assert!(validate_persona_name("invalid space").is_err());
}

#[test]
fn test_validate_persona_name_messages() {
    assert_eq!(
        validate_persona_name("").unwrap_err().message(),
        "Persona name cannot be empty"
    );
    assert_eq!(
        validate_persona_name("-bad").unwrap_err().message(),
        "Persona name must start with an alphanumeric character and can only contain alphanumeric characters, hyphens, and underscores"
    );
}

#[test]
fn test_agent_eval_perm() {
    struct TestTool;

    impl PermissionCandidate for TestTool {
        // The erased form of the trait's ghost conclusion; never called.
        fn spec_eval(&self, _agent: &Agent) -> PermissionEvalResult {
            PermissionEvalResult::Ask
        }

        fn eval(&self, _agent: &Agent) -> PermissionEvalResult {
            PermissionEvalResult::Ask
        }
    }
    // Test with wildcard permission
    let mut agent = Agent::default(); // Default has "*" in allowed_tools
    let tool = TestTool;
    assert!(matches!(agent.eval_perm(&tool), PermissionEvalResult::Allow));

    // Test with specific permissions
    agent.allowed_tools = vec!["fs_read".to_string(), "fs_write".to_string()];
    assert!(matches!(agent.eval_perm(&tool), PermissionEvalResult::Ask));
}

#[test]
fn test_remove_agent() {
    let mut collection = AgentCollection::default();
    collection.agents.push(Agent::default());
    collection.agents.push(Agent {
        name: "dev".to_string(),
        ..Default::default()
    });
    collection.active_idx = "default".to_string();

    // The active persona cannot be removed.
    let result = collection.remove_agent("default");
    assert_eq!(
        result.unwrap_err().message(),
        "Cannot delete the active persona. Switch to another persona first"
    );
    assert_eq!(collection.agents.len(), 2);

    // An unknown persona is reported.
    let result = collection.remove_agent("nonexistent");
    assert_eq!(
        result.unwrap_err().message(),
        "Persona 'nonexistent' does not exist"
    );

    // An inactive persona is removed and returned.
    let removed = collection.remove_agent("dev").unwrap();
    assert_eq!(removed.name, "dev");
    assert_eq!(collection.agents.len(), 1);
}

#[test]
fn test_remove_agent_duplicates() {
    // Two personas sharing a name: removal takes both out, returning the
    // first, as removal from a name-keyed map would leave none behind.
    let mut collection = AgentCollection::default();
    collection.agents.push(Agent {
        name: "dup".to_string(),
        description: Some("first".to_string()),
        ..Default::default()
    });
    collection.agents.push(Agent {
        name: "keep".to_string(),
        ..Default::default()
    });
    collection.agents.push(Agent {
        name: "dup".to_string(),
        description: Some("second".to_string()),
        ..Default::default()
    });
    collection.active_idx = "keep".to_string();

    let removed = collection.remove_agent("dup").unwrap();
    assert_eq!(removed.description, Some("first".to_string()));
    assert_eq!(collection.agents.len(), 1);
    assert_eq!(collection.agents[0].name, "keep");
}

#[test]
fn test_add_agent_replaces_same_name() {
    // Adding under an existing name replaces in place, as a map insert would.
    let mut collection = AgentCollection::default();
    collection.add_agent(Agent {
        name: "dev".to_string(),
        description: Some("old".to_string()),
        ..Default::default()
    });
    collection.add_agent(Agent {
        name: "dev".to_string(),
        description: Some("new".to_string()),
        ..Default::default()
    });
    assert_eq!(collection.agents.len(), 1);
    assert_eq!(collection.agents[0].description, Some("new".to_string()));
}

#[test]
fn test_tools_settings_carried() {
    let mut agent = Agent::default();
    assert!(agent.tools_settings.is_empty());
    agent.tools_settings.push((
        "fs_write".to_string(),
        serde_json::Value::String("$HOME/**".to_string()),
    ));
    assert_eq!(agent.tools_settings.len(), 1);
    assert_eq!(agent.tools_settings[0].0, "fs_write");
}

#[test]
fn test_default_agent_shape() {
    let agent = Agent::default();
    assert_eq!(agent.name, "default");
    assert_eq!(agent.description, Some("Default persona".to_string()));
    assert_eq!(agent.tools, vec!["*".to_string()]);
    assert_eq!(agent.allowed_tools, vec!["*".to_string()]);
    assert_eq!(
        agent.included_files,
        vec![
            "AmazonQ.md".to_string(),
            "README.md".to_string(),
            ".amazonq/rules/**/*.md".to_string()
        ]
    );
    assert!(agent.create_hooks.is_empty());
    assert!(agent.prompt_hooks.is_empty());
    assert!(agent.path.is_none());
}

#[test]
fn test_add_agent() {
    let mut collection = AgentCollection::default();
    collection.add_agent(Agent {
        name: "extra".to_string(),
        ..Default::default()
    });
    assert_eq!(collection.agents.len(), 1);
    assert_eq!(collection.agents[0].name, "extra");
}

#[test]
fn test_merge_personas() {
    let local = vec![
        Agent {
            name: "default".to_string(),
            description: Some("workspace default".to_string()),
            ..Default::default()
        },
        Agent {
            name: "dev".to_string(),
            ..Default::default()
        },
    ];
    let global = vec![
        Agent::default(), // conflicts with the workspace "default"
        Agent {
            name: "ops".to_string(),
            ..Default::default()
        },
    ];

    let (merged, conflicts) = merge_personas(local, global);

    let names: Vec<&str> = merged.iter().map(|a| a.name.as_str()).collect();
    assert_eq!(names, vec!["default", "dev", "ops"]);
    // The workspace version won.
    assert_eq!(
        merged[0].description,
        Some("workspace default".to_string())
    );
    assert_eq!(conflicts, vec!["default".to_string()]);
}
