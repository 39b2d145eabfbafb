use zeroclaw_runtime::tools::daemon_restart::{plan_restart, DaemonRestartTool};

fn args(text: &str) -> serde_json::Value {
    serde_json::from_str(text).expect("valid JSON")
}

#[test]
fn the_tool_describes_itself() {
    let tool = DaemonRestartTool::new();
    assert_eq!(tool.name(), "daemon_restart");
    assert_eq!(
        tool.description(),
        "Re-exec the zeroclaw daemon to pick up config or provider changes. The current process image is replaced atomically; the PID is preserved. Use after editing ~/.zeroclaw/config.toml or registering a new MCP server. Returns immediately with a confirmation; the actual exec fires ~2s later so the in-flight reply still reaches the user."
    );
    let schema = DaemonRestartTool::default().parameters_schema();
    assert_eq!(schema.delay.name, "delay_secs");
    assert_eq!(schema.delay.minimum, 0);
    assert_eq!(schema.delay.maximum, 30);
    assert_eq!(schema.delay.default, 2);
    assert_eq!(schema.reason.name, "reason");
    assert!(!schema.additional_properties);
}

#[test]
fn a_restart_is_planned() {
    let tool = DaemonRestartTool::new();
    let plan = tool.execute(&args("{\"delay_secs\": 7, \"reason\": \"new provider\"}"));
    assert_eq!(plan.delay_secs, 7);
    assert_eq!(plan.reason, "new provider");
    assert!(plan.result.success);
    assert!(plan.result.error.is_none());
    assert_eq!(
        plan.result.output,
        "Re-exec scheduled in ~7s. PID preserved; new binary picks up config changes."
    );
}

#[test]
fn missing_and_odd_arguments_have_defaults() {
    let tool = DaemonRestartTool::new();
    for text in [
        "{}",
        "null",
        "[7]",
        "{\"delay_secs\": -1, \"reason\": 3}",
        "{\"delay_secs\": 7.5, \"reason\": null}",
        "{\"delay_secs\": \"7\"}",
    ] {
        let plan = tool.execute(&args(text));
        assert_eq!(plan.delay_secs, 2);
        assert_eq!(plan.reason, "agent-initiated");
    }
}

#[test]
fn the_delay_is_limited() {
    let tool = DaemonRestartTool::new();
    assert_eq!(tool.execute(&args("{\"delay_secs\": 0}")).delay_secs, 0);
    assert_eq!(tool.execute(&args("{\"delay_secs\": 30}")).delay_secs, 30);
    assert_eq!(tool.execute(&args("{\"delay_secs\": 31}")).delay_secs, 30);
    assert_eq!(plan_restart(Some(u64::MAX), None).delay_secs, 30);
    assert_eq!(plan_restart(None, Some("why")).reason, "why");
}
