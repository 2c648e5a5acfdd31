use agentero::session::config::{
    collaboration_set_request, collaboration_to_request, model_set_request, model_to_request,
    next_config_options, prefs_next, prefs_start, ConfigCategory, ConfigOption, PrefsStage, AgentEffortChoice, RunPreferences,
};
use agentero::session::handlers::{
    decide_permission, decide_user_input, InputDecision, PermissionDecision, PermissionPolicy,
};
use agentero::session::pool::{pool_key, same_key, PoolKey, RemoteInfo, SlotMap};

fn choices(ids: &[&str]) -> Vec<AgentEffortChoice> {
    ids.iter()
        .map(|id| AgentEffortChoice {
            id: id.to_string(),
            name: id.to_string(),
            description: None,
        })
        .collect()
}

#[test]
fn resolves_highest_after_model_setup_without_warm_options() {
    let prefs = RunPreferences {
        prefer_highest_reasoning_effort: true,
        ..Default::default()
    };
    assert_eq!(
        prefs
            .resolve_reasoning_effort(&choices(&["xhigh", "low", "high"]))
            .as_deref(),
        Some("xhigh")
    );
    assert_eq!(
        prefs
            .resolve_reasoning_effort(&choices(&["low", "max", "xhigh"]))
            .as_deref(),
        Some("max")
    );
}

#[test]
fn explicit_effort_takes_precedence_over_highest() {
    let prefs = RunPreferences {
        reasoning_effort: Some("medium".into()),
        prefer_highest_reasoning_effort: true,
        ..Default::default()
    };
    assert_eq!(
        prefs
            .resolve_reasoning_effort(&choices(&["low", "medium", "xhigh"]))
            .as_deref(),
        Some("medium")
    );
}

#[test]
fn no_override_for_other_callers_or_unknown_orderings() {
    assert!(RunPreferences::default()
        .resolve_reasoning_effort(&choices(&["low", "high"]))
        .is_none());
    let prefs = RunPreferences {
        prefer_highest_reasoning_effort: true,
        ..Default::default()
    };
    assert!(prefs
        .resolve_reasoning_effort(&choices(&["deep", "high"]))
        .is_none());
    assert!(prefs.resolve_reasoning_effort(&[]).is_none());
}

#[test]
fn effort_ids_compare_case_insensitively_and_keep_their_spelling() {
    let prefs = RunPreferences {
        prefer_highest_reasoning_effort: true,
        ..Default::default()
    };
    assert_eq!(
        prefs
            .resolve_reasoning_effort(&choices(&["Low", "ULTRA", "max"]))
            .as_deref(),
        Some("ULTRA")
    );
    // Ties keep the first.
    assert_eq!(
        prefs
            .resolve_reasoning_effort(&choices(&["High", "high"]))
            .as_deref(),
        Some("High")
    );
}

#[test]
fn model_and_collaboration_requests() {
    assert_eq!(model_to_request(&Some("gpt-5".into()), "gpt-4"), Some("gpt-5".to_string()));
    assert_eq!(model_to_request(&Some("gpt-4".into()), "gpt-4"), None);
    assert_eq!(model_to_request(&None, "gpt-4"), None);
    let modes = vec!["default".to_string(), "plan".to_string()];
    assert_eq!(
        collaboration_to_request(&Some("plan".into()), "default", &modes),
        Some("plan".to_string())
    );
    assert_eq!(collaboration_to_request(&Some("plan".into()), "plan", &modes), None);
    assert_eq!(collaboration_to_request(&Some("yolo".into()), "default", &modes), None);
}

fn key(agent: &str, cwd: &str) -> PoolKey {
    PoolKey {
        agent_id: agent.to_string(),
        cwd: cwd.to_string(),
        remote_tag: None,
    }
}

#[test]
fn take_requires_full_key_match() {
    let mut map: SlotMap<u8> = SlotMap::default();
    map.insert(key("codex", "/vault-a"), 1);
    // Same agent, different cwd → miss, and the slot stays pooled.
    assert!(map.remove_matching(&key("codex", "/vault-b")).is_none());
    // Exact key → hit.
    assert_eq!(
        map.remove_matching(&key("codex", "/vault-a")),
        Some((key("codex", "/vault-a"), 1))
    );
    // Pooled slot survived the mismatched take attempt.
    assert!(map.remove_matching(&key("codex", "/vault-b")).is_none());
}

#[test]
fn insert_displaces_previous_slot() {
    let mut map: SlotMap<u8> = SlotMap::default();
    assert!(map.insert(key("codex", "/vault"), 1).is_none());
    assert_eq!(
        map.insert(key("codex", "/vault"), 2),
        Some((key("codex", "/vault"), 1))
    );
    assert_eq!(map.get_matching(&key("codex", "/vault")), Some(&2));
}

#[test]
fn snapshot_misses_on_missing_or_mismatched_key() {
    let mut map: SlotMap<u8> = SlotMap::default();
    assert_eq!(map.get_matching(&key("codex", "/vault")), None);
    map.insert(key("codex", "/vault"), 7);
    assert_eq!(map.get_matching(&key("codex", "/vault")), Some(&7));
    assert_eq!(map.get_matching(&key("grok", "/vault")), None);
}

#[test]
fn remote_tag_distinguishes_keys() {
    let mut local = pool_key("codex", "/vault".to_string(), None);
    assert!(local.remote_tag.is_none());
    local.remote_tag = Some("sim:host".to_string());
    let mut other = pool_key("codex", "/vault".to_string(), None);
    other.remote_tag = Some("host".to_string());
    assert_ne!(local, other);
    assert!(!same_key(&local, &other));
}

#[test]
fn pool_keys_tag_remote_hosts() {
    let sim = RemoteInfo { is_local_sim: true, host: "box".to_string() };
    let real = RemoteInfo { is_local_sim: false, host: "box".to_string() };
    assert_eq!(pool_key("codex", "/v".to_string(), Some(&sim)).remote_tag.as_deref(), Some("sim:box"));
    assert_eq!(pool_key("codex", "/v".to_string(), Some(&real)).remote_tag.as_deref(), Some("box"));
    let mut map: SlotMap<&str> = SlotMap::default();
    map.insert(pool_key("codex", "/v".to_string(), Some(&sim)), "warm");
    assert_eq!(map.get_matching(&pool_key("codex", "/v".to_string(), Some(&real))), None);
    assert_eq!(map.get_matching(&pool_key("codex", "/v".to_string(), Some(&sim))), Some(&"warm"));
    // One slot per agent: another agent keeps its own.
    map.insert(key("grok", "/v"), "other");
    assert_eq!(map.get_matching(&key("grok", "/v")), Some(&"other"));
    assert_eq!(map.get_matching(&pool_key("codex", "/v".to_string(), Some(&sim))), Some(&"warm"));
}

#[test]
fn idle_connections_deny_and_cancel() {
    assert_eq!(decide_permission(None), PermissionDecision::Deny);
    assert_eq!(decide_permission(Some(PermissionPolicy::Restricted)), PermissionDecision::Deny);
    assert_eq!(decide_permission(Some(PermissionPolicy::Auto)), PermissionDecision::Allow);
    assert_eq!(decide_permission(Some(PermissionPolicy::Ask)), PermissionDecision::AskUser);
    assert_eq!(decide_user_input(false), InputDecision::Cancel);
    assert_eq!(decide_user_input(true), InputDecision::AskUser);
}

#[test]
fn config_options_follow_successful_replies_only() {
    let current = vec!["model=a".to_string(), "mode=b".to_string()];
    let reply: Result<Vec<String>, String> = Ok(vec!["model=c".to_string()]);
    assert_eq!(next_config_options(current.clone(), reply), vec!["model=c".to_string()]);
    let failed: Result<Vec<String>, String> = Err("timeout".to_string());
    assert_eq!(next_config_options(current.clone(), failed), current);
}

#[test]
fn release_pools_live_slots_and_tears_down_the_rest() {
    let mut map: SlotMap<u8> = SlotMap::default();
    assert_eq!(map.release(key("codex", "/vault"), 1, false), Some(1));
    assert_eq!(map.get_matching(&key("codex", "/vault")), None);
    assert_eq!(map.release(key("codex", "/vault"), 2, true), None);
    assert_eq!(map.get_matching(&key("codex", "/vault")), Some(&2));
    assert_eq!(map.release(key("codex", "/other"), 3, true), Some(2));
    assert_eq!(map.get_matching(&key("codex", "/other")), Some(&3));
    assert_eq!(map.get_matching(&key("codex", "/vault")), None);
}

fn option(id: &str, category: ConfigCategory, current: &str, values: &[&str]) -> ConfigOption {
    ConfigOption {
        id: id.to_string(),
        category,
        current_value: current.to_string(),
        values: values.iter().map(|v| v.to_string()).collect(),
    }
}

fn session_options(model: &str, mode: &str) -> Vec<ConfigOption> {
    vec![
        option("model", ConfigCategory::Model, model, &["gpt-a", "gpt-b"]),
        option("mode", ConfigCategory::Mode, mode, &["default", "plan"]),
    ]
}

#[test]
fn model_request_needs_an_advertised_model_option() {
    let pref = Some("gateway/custom".to_string());
    let none = model_set_request(&[option("mode", ConfigCategory::Mode, "default", &[])], &pref);
    assert!(none.is_none());
    let q = model_set_request(&session_options("gpt-a", "default"), &pref).unwrap();
    assert_eq!((q.config_id.as_str(), q.value.as_str()), ("model", "gateway/custom"));
    assert!(model_set_request(&session_options("gpt-a", "default"), &Some("gpt-a".to_string())).is_none());
}

#[test]
fn collaboration_request_needs_a_listed_mode() {
    let opts = session_options("gpt-a", "default");
    assert!(collaboration_set_request(&opts, &Some("yolo".to_string())).is_none());
    assert!(collaboration_set_request(&opts, &Some("default".to_string())).is_none());
    let q = collaboration_set_request(&opts, &Some("plan".to_string())).unwrap();
    assert_eq!((q.config_id.as_str(), q.value.as_str()), ("mode", "plan"));
}

#[test]
fn prefs_steps_chain_model_then_collaboration() {
    let pm = Some("gpt-b".to_string());
    let pc = Some("plan".to_string());
    let step = prefs_start(session_options("gpt-a", "default"), &pm, &pc);
    assert_eq!(step.stage, PrefsStage::Model);
    assert_eq!(step.request.as_ref().unwrap().value, "gpt-b");
    // The model reply's options already have the mode on "plan": no second request.
    let step = prefs_next::<String>(step, &pc, Ok(session_options("gpt-b", "plan")));
    assert_eq!(step.stage, PrefsStage::Collaboration);
    assert!(step.request.is_none());
    assert_eq!(step.options[0].current_value, "gpt-b");
    assert_eq!(step.options[1].current_value, "plan");
}

#[test]
fn failed_prefs_requests_keep_the_options_and_go_on() {
    let pm = Some("gpt-b".to_string());
    let pc = Some("plan".to_string());
    let step = prefs_start(session_options("gpt-a", "default"), &pm, &pc);
    let step = prefs_next(step, &pc, Err("timeout".to_string()));
    assert_eq!(step.stage, PrefsStage::Collaboration);
    assert_eq!(step.request.as_ref().unwrap().value, "plan");
    assert_eq!(step.options[0].current_value, "gpt-a");
    let step = prefs_next(step, &pc, Err("timeout".to_string()));
    assert!(step.request.is_none());
    assert_eq!(step.options[1].current_value, "default");
    let done = prefs_next::<String>(step, &pc, Ok(vec![]));
    assert_eq!(done.options.len(), 2);
}
