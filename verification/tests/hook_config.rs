use jevx::hook_config::{hook_commands, hook_config_path, is_tool_handler, shell_quote, HookScope};

#[test]
fn user_path_prefers_codex_home_and_project_path_is_repo_relative() {
    assert_eq!(hook_config_path(HookScope::User, "/repo", "/home/user", Some("/custom/codex")), "/custom/codex/hooks.json");
    assert_eq!(hook_config_path(HookScope::User, "/repo", "/home/user", None), "/home/user/.codex/hooks.json");
    assert_eq!(hook_config_path(HookScope::Project, "/repo", "/home/user", None), "/repo/.codex/hooks.json");
}

#[test]
fn commands_quote_paths_and_carry_the_managed_flag() {
    assert_eq!(shell_quote("/opt/it's/jevx"), "'/opt/it'\\''s/jevx'");
    let commands = hook_commands("/bin/jevx", "/data/records.jsonl", "/state", false, false);
    assert_eq!(commands.shadow, "'/bin/jevx' hooks shadow --output '/data/records.jsonl' --jevx-managed");
    assert_eq!(commands.compact_assist, "'/bin/jevx' hooks compact-assist --state-dir '/state' --jevx-managed");
    assert_eq!(commands.pre_compact, commands.compact_assist);
    assert_eq!(commands.review_prompt, "'/bin/jevx' hooks review --target prompt --jevx-managed");
    assert_eq!(commands.review_diff, "'/bin/jevx' hooks review --target diff --jevx-managed");
    let allowed = hook_commands("/bin/jevx", "/r", "/s", true, true);
    assert_eq!(allowed.pre_compact, "'/bin/jevx' hooks compact-assist --state-dir '/s' --jevx-managed --allow-compact-context");
    assert_eq!(allowed.review_final, "'/bin/jevx' hooks review --target final-answer --allow-content --jevx-managed");
}

#[test]
fn tool_handlers_are_recognised_by_binary_or_flag() {
    assert!(is_tool_handler(Some("command"), Some("'/usr/bin/jevx' hooks shadow --output '/r' --jevx-managed")));
    assert!(is_tool_handler(Some("command"), Some("jevx hooks review --target prompt")));
    assert!(is_tool_handler(Some("command"), Some("/other/tool hooks compact-assist --jevx-managed")));
    assert!(!is_tool_handler(Some("command"), Some("/other/tool hooks shadow")));
    assert!(!is_tool_handler(Some("command"), Some("jevx hooks install")));
    assert!(!is_tool_handler(Some("prompt"), Some("jevx hooks shadow")));
    assert!(!is_tool_handler(Some("command"), None));
    assert!(!is_tool_handler(Some("command"), Some("echo custom")));
}

#[test]
fn compact_content_opt_in_is_independent_and_off_by_default() {
    let default = hook_commands("/jevx", "/events", "/state", false, false);
    assert!(!default.pre_compact.contains("--allow-compact-context"));

    let opted_in = hook_commands("/jevx", "/events", "/state", false, true);
    assert!(opted_in.pre_compact.contains("--allow-compact-context"));
    assert!(!opted_in.pre_compact.contains("--allow-content"));
    assert!(!opted_in.compact_assist.contains("--allow-compact-context"));
    assert!(!opted_in.review_prompt.contains("--allow-compact-context"));
    assert!(!opted_in.review_prompt.contains("--allow-content"));
}
