use blues::agent::{AgentStream, Budget};
use blues::cli::{Cli, Command};
use blues::config::Config;
use blues::daemon::{Daemon, DaemonConfig};
use blues::mcp::tools;
use blues::model::{RouterPreset, UsageQuery};
use blues::plan::{Edge, NodeKind};
use blues::base::ids::NodeId;

#[test]
fn config_load_yields_the_defaults() {
    assert!(Config::load().is_ok());
}

#[test]
fn daemon_starts_from_its_config() {
    let _d: Daemon = Daemon::new(DaemonConfig::default());
}

#[test]
fn mcp_tool_names_are_stable() {
    assert_eq!(tools::QUERY, "blues_memory_query");
    assert_eq!(tools::COMPILE_CONTEXT, "blues_compile_context");
    assert_eq!(tools::SAVE, "blues_memory_save");
    assert_eq!(tools::INBOX_LIST, "blues_memory_inbox_list");
}

#[test]
fn records_build_with_their_defaults() {
    let b = Budget::default();
    assert!(b.max_tokens.is_none() && b.max_steps.is_none() && b.max_wall_secs.is_none());
    let _ = AgentStream;
    let u = UsageQuery::default();
    assert!(u.since.is_none() && u.by.is_none());
    assert_eq!(RouterPreset::Smart, RouterPreset::Smart);
    let e = Edge { from: NodeId(1), to: NodeId(2) };
    assert_ne!(e.from, e.to);
    assert_ne!(NodeKind::Tool, NodeKind::Subgraph);
    let cli = Cli { command: Command::Version, output: "plain".into() };
    assert_eq!(cli.command, Command::Version);
}
