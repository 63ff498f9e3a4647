//! Tests of the agent install plans.

use sloppy::skill::{agent_rules_content, appended_text, install_plan, skill_help, Agent, InstallPlan};

fn project(agent: Agent) -> (String, String, String) {
    match install_plan(agent) {
        InstallPlan::ProjectFile { dir, file, content } => (dir, file, content),
        _ => panic!("expected a project file"),
    }
}

fn appended(agent: Agent) -> (String, String, String) {
    match install_plan(agent) {
        InstallPlan::Append { dir, file, content } => (dir, file, content),
        _ => panic!("expected an append"),
    }
}

#[test]
fn the_default_agent_gets_the_skill_files() {
    assert!(matches!(install_plan(Agent::Claude), InstallPlan::ClaudeSkill));
}

#[test]
fn cursor_rules_have_front_matter() {
    let (dir, file, content) = project(Agent::Cursor);
    assert_eq!(dir, ".cursor/rules");
    assert_eq!(file, "sloppy.mdc");
    assert!(content.starts_with("---\ndescription: AI prose detection and repair using the sloppy CLI\nglobs:\nalwaysApply: false\n---\n\n# Sloppy"));
    assert!(content.ends_with(&agent_rules_content()));
}

#[test]
fn copilot_rules_apply_to_prose_files() {
    let (dir, file, content) = project(Agent::Copilot);
    assert_eq!(dir, ".github/instructions");
    assert_eq!(file, "sloppy.instructions.md");
    assert_eq!(
        content,
        format!("---\napplyTo: \"**/*.md,**/*.txt,**/*.mdx\"\n---\n\n{}", agent_rules_content())
    );
}

#[test]
fn plain_rules_files() {
    let cases = [
        (Agent::Windsurf, ".windsurf/rules"),
        (Agent::Cline, ".clinerules"),
        (Agent::Roo, ".roo/rules"),
        (Agent::Continue, ".continue/rules"),
        (Agent::Amp, ".amp/skills"),
    ];
    for (agent, want_dir) in cases {
        let (dir, file, content) = project(agent);
        assert_eq!(dir, want_dir);
        assert_eq!(file, "sloppy.md");
        assert_eq!(content, agent_rules_content());
    }
}

#[test]
fn goose_and_aider_append() {
    assert_eq!(appended(Agent::Goose), (".".to_string(), ".goosehints".to_string(), agent_rules_content()));
    assert_eq!(appended(Agent::Aider), (".".to_string(), "CONVENTIONS.md".to_string(), agent_rules_content()));
}

#[test]
fn rules_content_explains_the_cli() {
    let rules = agent_rules_content();
    assert!(rules.starts_with("# Sloppy \u{2014} AI Prose Detection & Repair\n"));
    assert!(rules.contains("sloppy analyze -f json file.md || true"));
    assert!(rules.contains("\n   Report the score and pass/fail to the user immediately.\n"));
    assert!(rules.ends_with("cargo install --git https://github.com/bradleydwyer/sloppy`\n"));
}

#[test]
fn appending_to_files() {
    assert_eq!(appended_text("", "RULES"), "RULES");
    assert_eq!(appended_text("old\n", "RULES"), "\n---\n\nRULES");
    assert_eq!(appended_text("old", "RULES"), "\n\n---\n\nRULES");
}

#[test]
fn skill_help_lists_the_agents() {
    let help = skill_help("home");
    assert!(help.starts_with("Use --install to install the sloppy skill for an AI coding agent.\n\nSupported agents:\n  home       skill files in the home directory\n  cursor     Cursor (.cursor/rules/sloppy.mdc)\n"));
    assert!(help.contains("  aider      Aider (appends to CONVENTIONS.md)\n"));
    assert!(help.ends_with("  sloppy skill --install --agent cursor    # Install for Cursor\n"));
}
