use agentero::prompt::envelope::{
    build_prompt, language_directive, looks_like_machine_only_user_turn,
    personal_preference_directive, strip_environment_context_blocks,
    strip_prompt_envelope_for_display,
};
use agentero::prompt::skills::{format_skill_mention, SkillMentionStyle};

#[test]
fn build_prompt_includes_user() {
    let p = build_prompt(
        Some("qa"),
        "What is attention?",
        Some("papers/x/NOTES.md"),
        SkillMentionStyle::InjectedOnly,
        &[],
        None,
        None,
    );
    assert!(p.contains("What is attention?"));
    assert!(p.contains("papers/x/NOTES.md"));
}

#[test]
fn envelope_defers_cli_and_citation_policy_to_agents_md() {
    let p = build_prompt(
        Some("free"),
        "Add this paper and download its PDF",
        None,
        SkillMentionStyle::InjectedOnly,
        &[],
        None,
        None,
    );
    assert!(p.contains("Follow vault AGENTS.md"));
    assert!(p.contains("Add this paper and download its PDF"));
    assert!(!p.contains("Agentero CLI policy"));
    assert!(!p.contains("agentero … --json"));
    assert!(!p.contains("Cite sources inline"));
    assert!(!p.contains("[Section 2.3](papers/<id>/<id>.pdf#section=2.3)"));
    assert!(!p.contains("progressive disclosure: AGENTS.md →"));
}

#[test]
fn free_and_qa_omit_skill_follow_hint_when_skills_selected() {
    let skills = ["paper-reader".to_string()];
    for workflow in ["free", "qa", "summary", "related_work"] {
        let p = build_prompt(
            Some(workflow),
            "hello",
            None,
            SkillMentionStyle::Dollar,
            &skills,
            None,
            None,
        );
        assert!(
            !p.contains("Active skills use the $ trigger"),
            "{workflow} should not duplicate skill_follow_hint"
        );
        assert!(
            !p.contains("Agentero injects skill instructions for"),
            "{workflow} should not duplicate skill_follow_hint"
        );
    }
}

#[test]
fn translate_workflow_adds_no_conflicting_envelope() {
    let p = build_prompt(
        Some("translate"),
        "Translate the text below into English. Return only the translation, without commentary.",
        None,
        SkillMentionStyle::InjectedOnly,
        &[],
        Some("zh-CN"),
        Some("Prefer concise bullet points."),
    );
    assert!(p.contains("Return only the translation"));
    assert!(!p.contains("## Sources"));
    assert!(!p.contains("Agentero CLI policy"));
    assert!(!p.contains("Simplified Chinese"));
    assert!(!p.contains("User preference instructions"));
}

#[test]
fn paper_reader_prompt_uses_dollar_for_codex_style() {
    let p = build_prompt(
        Some("paper_reader"),
        "Read this paper",
        Some("papers/1706.03762"),
        SkillMentionStyle::Dollar,
        &["paper-reader".to_string()],
        None,
        None,
    );
    assert!(p.contains("$paper-reader"));
    assert!(p.contains("$skill-id"));
    assert!(!p.contains("/paper-reader"));
}

#[test]
fn paper_reader_prompt_uses_slash_for_claude_style() {
    let p = build_prompt(
        Some("paper_reader"),
        "Read this paper",
        Some("papers/1706.03762"),
        SkillMentionStyle::Slash,
        &["paper-reader".to_string()],
        None,
        None,
    );
    assert!(p.contains("/paper-reader"));
    assert!(p.contains("**/skill-id**") || p.contains("/skill-id"));
}

#[test]
fn paper_reader_prompt_injected_only_avoids_false_dollar() {
    let p = build_prompt(
        Some("paper_reader"),
        "Read this paper",
        Some("papers/1706.03762"),
        SkillMentionStyle::InjectedOnly,
        &["paper-reader".to_string()],
        None,
        None,
    );
    assert!(p.contains("Agentero injects") || p.contains("does not use Agentero Composer `$`"));
    assert!(!p.contains("Activate the skill with `$paper-reader`"));
}

#[test]
fn response_language_injects_directive() {
    let p = build_prompt(
        Some("paper_reader"),
        "Read this paper",
        Some("papers/1706.03762"),
        SkillMentionStyle::InjectedOnly,
        &["paper-reader".to_string()],
        Some("zh-CN"),
        None,
    );
    assert!(p.contains("Simplified Chinese"));
    assert!(p.contains("Always write your entire response"));
}

#[test]
fn response_language_none_adds_no_directive() {
    let p = build_prompt(
        Some("free"),
        "Hello",
        None,
        SkillMentionStyle::InjectedOnly,
        &[],
        None,
        None,
    );
    assert!(!p.contains("Always write your entire response"));
}

#[test]
fn personal_prompt_injects_block() {
    let p = build_prompt(
        Some("free"),
        "Hello",
        None,
        SkillMentionStyle::InjectedOnly,
        &[],
        None,
        Some("Prefer concise bullet points."),
    );
    assert!(p.contains("User preference instructions"));
    assert!(p.contains("Prefer concise bullet points."));
    assert_eq!(strip_prompt_envelope_for_display(&p), "Hello");
}

#[test]
fn personal_prompt_empty_adds_nothing() {
    let p = build_prompt(
        Some("free"),
        "Hello",
        None,
        SkillMentionStyle::InjectedOnly,
        &[],
        None,
        Some("   "),
    );
    assert!(!p.contains("User preference instructions"));
}

#[test]
fn strip_prompt_envelope_keeps_user_text_only() {
    let p = build_prompt(
        Some("free"),
        "123 check rendering",
        None,
        SkillMentionStyle::InjectedOnly,
        &[],
        None,
        None,
    );
    assert!(p.contains("You are an assistant"));
    assert_eq!(strip_prompt_envelope_for_display(&p), "123 check rendering");
}

#[test]
fn strip_prompt_envelope_passthrough_plain() {
    assert_eq!(
        strip_prompt_envelope_for_display("just a normal message"),
        "just a normal message"
    );
}

#[test]
fn strip_drops_codex_environment_context_only_turn() {
    let env = "<environment_context>\n  <cwd>/Users/philfan/Downloads/paper</cwd>\n  <shell>zsh</shell>\n</environment_context>";
    assert_eq!(strip_prompt_envelope_for_display(env), "");
}

#[test]
fn strip_removes_env_block_before_user_request() {
    let mixed = "<environment_context>\n  <cwd>/tmp</cwd>\n</environment_context>\n\nYou are an assistant working inside a Agentero research Vault.\n\nUser request:\nhello world";
    assert_eq!(strip_prompt_envelope_for_display(mixed), "hello world");
}

#[test]
fn display_round_trip_over_workflows_and_styles() {
    let styles = [
        SkillMentionStyle::Dollar,
        SkillMentionStyle::Slash,
        SkillMentionStyle::InjectedOnly,
    ];
    for workflow in ["free", "qa", "summary", "related_work", "paper_reader", "translate", "other"] {
        for style in styles {
            let p = build_prompt(
                Some(workflow),
                "  what does Fig. 2 show?\n",
                Some("papers/p1"),
                style,
                &[],
                Some("en"),
                Some("be brief"),
            );
            assert_eq!(strip_prompt_envelope_for_display(&p), "what does Fig. 2 show?");
        }
    }
}

#[test]
fn blank_request_shows_the_marker_line() {
    // With a blank request the marker loses its newline in trimming, so the
    // older-envelope rule shows the marker line instead of nothing.
    let p = build_prompt(Some("free"), "   ", None, SkillMentionStyle::InjectedOnly, &[], None, None);
    assert_eq!(strip_prompt_envelope_for_display(&p), "User request:");
}

#[test]
fn skill_sections_are_cut_from_display() {
    let body = "You are x\n\nUser request:\nsummarize it\n\n## Skill: paper-reader\nsteps";
    assert_eq!(strip_prompt_envelope_for_display(body), "summarize it");
    let legacy = "You are helping with a research vault. Summarize.\n\nplease summarize";
    assert_eq!(strip_prompt_envelope_for_display(legacy), "please summarize");
    let preamble_only = "You are helping with a research vault. Summarize.";
    assert_eq!(strip_prompt_envelope_for_display(preamble_only), "");
    assert_eq!(strip_prompt_envelope_for_display("<skills_instructions>x"), "");
}

#[test]
fn environment_blocks_and_machine_turns() {
    assert_eq!(
        strip_environment_context_blocks("a<ENVIRONMENT_CONTEXT>x</Environment_Context>b<environment_context/>tail"),
        "ab"
    );
    assert!(looks_like_machine_only_user_turn("   "));
    assert!(looks_like_machine_only_user_turn("<permissions instructions>do not"));
    assert!(looks_like_machine_only_user_turn("<environment_context>x</environment_context>"));
    assert!(!looks_like_machine_only_user_turn("<environment_context>x</environment_context> hi"));
    assert!(!looks_like_machine_only_user_turn("hello"));
}

#[test]
fn directives_and_mentions() {
    assert_eq!(language_directive(Some("fr")), "");
    assert!(language_directive(Some("en")).contains("in English,"));
    assert_eq!(personal_preference_directive(None), "");
    let long = "é".repeat(5000);
    let block = personal_preference_directive(Some(&long));
    let kept = block.trim_start_matches("\n\nUser preference instructions (always honor when relevant):\n");
    assert_eq!(kept.len(), 8000);
    assert_eq!(format_skill_mention("paper-reader", SkillMentionStyle::Dollar), "$paper-reader");
    assert_eq!(format_skill_mention("paper-reader", SkillMentionStyle::Slash), "/paper-reader");
    assert_eq!(format_skill_mention("paper-reader", SkillMentionStyle::InjectedOnly), "paper-reader");
}

#[test]
fn personal_prompt_is_cut_at_the_last_char_boundary_within_the_cap() {
    let long = "中".repeat(2667);
    let block = personal_preference_directive(Some(&long));
    let kept = block.trim_start_matches("\n\nUser preference instructions (always honor when relevant):\n");
    assert_eq!(kept.len(), 7998);
    assert_eq!(kept, "中".repeat(2666));
    let exact = "a".repeat(8000);
    let block = personal_preference_directive(Some(&format!("  {exact}  ")));
    assert!(block.ends_with(&exact));
}

#[test]
fn translate_prompt_is_exactly_target_marker_and_request() {
    let p = build_prompt(
        Some("translate"),
        "Bonjour",
        Some("papers/x/NOTES.md"),
        SkillMentionStyle::Dollar,
        &["paper-reader".to_string()],
        Some("en"),
        Some("Be brief."),
    );
    assert_eq!(p, "Target path (Vault-relative): `papers/x/NOTES.md`\nUser request:\nBonjour");
    let q = build_prompt(Some("qa"), "Why?", None, SkillMentionStyle::Dollar, &[], None, None);
    assert!(q.ends_with("\n\nUser request:\nWhy?"));
    assert!(!q.starts_with("User request:"));
}

#[test]
fn skills_do_not_change_prompts_outside_the_reader() {
    for workflow in [None, Some("free"), Some("qa"), Some("summary"), Some("related_work")] {
        let a = build_prompt(
            workflow,
            "hello",
            None,
            SkillMentionStyle::Dollar,
            &["paper-reader".to_string()],
            None,
            None,
        );
        let b = build_prompt(workflow, "hello", None, SkillMentionStyle::Slash, &[], None, None);
        assert_eq!(a, b);
    }
}

#[test]
fn language_directive_only_for_known_codes() {
    assert!(language_directive(Some("zh-CN")).contains("Simplified Chinese"));
    assert!(language_directive(Some("en")).contains(" in English"));
    assert_eq!(language_directive(Some("zh")), "");
    assert_eq!(language_directive(None), "");
}
