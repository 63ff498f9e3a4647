//! Installing the rules for AI coding agents: where each agent reads them and
//! what goes there.
use vstd::prelude::*;
use crate::text::{concat2, chars_of};
use crate::report::{pad_right, push_padded_right};

verus! {

/// The rules file for the agents that do not take the skill files: how to use the CLI.
pub const AGENT_RULES: &'static str = "# Sloppy \u{2014} AI Prose Detection & Repair\n\
\n\
When the user asks you to check, review, fix, or clean up prose for AI tells\n\
(\"slop\"), or when they ask for a voice/system directive to prevent slop, use\n\
the `sloppy` CLI tool.\n\
\n\
## Quick reference\n\
\n\
```bash\n\
# Analyze a file (JSON output for structured results)\n\
sloppy analyze -f json file.md || true\n\
\n\
# Analyze from stdin\n\
echo \"text\" | sloppy analyze -f json || true\n\
\n\
# Generate a chat prompt for clean writing\n\
sloppy prompt generate\n\
\n\
# Generate a prompt for cleaning up sloppy text\n\
sloppy prompt cleanup\n\
\n\
# Generate raw system prompt constraints\n\
sloppy prompt system\n\
```\n\
\n\
## Workflow\n\
\n\
1. **Analyze first.** Always run `sloppy analyze -f json` before rewriting.\n\
\x20  Report the score and pass/fail to the user immediately.\n\
\n\
2. **Interpret flags.** For each flag, explain *why* the pattern reads as\n\
\x20  AI-generated, not just that it was detected. Quote the surrounding context.\n\
\x20  Call out false positives \u{2014} the detector can't distinguish \"landscape\" used\n\
\x20  literally vs. metaphorically, \"robust\" in engineering context, etc.\n\
\n\
3. **Contextual review.** Look for AI tells the regex misses: hedging language,\n\
\x20  balanced-perspective equivocation, generic abstractions, false gravitas,\n\
\x20  structural uniformity, and sycophantic softeners.\n\
\n\
4. **Rewrite** (if the user asked for a fix). Don't just swap flagged words \u{2014}\n\
\x20  restructure sentences. Anchor in concrete specifics. Take committed stances.\n\
\x20  Vary sentence length. End when done (no summary paragraph).\n\
\n\
5. **Re-check.** Run `sloppy analyze -f json` on the rewrite to verify\n\
\x20  improvement. Iterate up to 3 times if needed.\n\
\n\
## Scoring\n\
\n\
- 0-10: Clean human prose\n\
- 10-30: Minor tells, probably fine\n\
- 30-60: Noticeable AI patterns\n\
- 60-100: Unmistakably AI-generated\n\
\n\
Exit codes: 0 = pass, 1 = fail, 2 = error.\n\
\n\
## Install\n\
\n\
If `sloppy` is not found, install it:\n\
```bash\n\
brew install bradleydwyer/sloppy/sloppy\n\
```\n\
Or from source: `cargo install --git https://github.com/bradleydwyer/sloppy`\n\
";

/// What `skill` prints without `--install`, up to the list of agents.
pub const SKILL_HELP_HEAD: &'static str = "Use --install to install the sloppy skill for an AI coding agent.\n\
\n\
Supported agents:\n";

/// The description of the default agent's line in the help.
pub const DEFAULT_AGENT_TARGET: &'static str = " skill files in the home directory\n";

/// The rest of the help: the other agents and examples.
pub const SKILL_HELP_REST: &'static str = "\
\x20 cursor     Cursor (.cursor/rules/sloppy.mdc)\n\
\x20 windsurf   Windsurf (.windsurf/rules/sloppy.md)\n\
\x20 copilot    GitHub Copilot (.github/instructions/sloppy.instructions.md)\n\
\x20 cline      Cline (.clinerules/sloppy.md)\n\
\x20 roo        Roo Code (.roo/rules/sloppy.md)\n\
\x20 continue   Continue (.continue/rules/sloppy.md)\n\
\x20 amp        Amp (.amp/skills/sloppy.md)\n\
\x20 goose      Goose (appends to .goosehints)\n\
\x20 aider      Aider (appends to CONVENTIONS.md)\n\
\n\
Examples:\n\
\x20 sloppy skill --install                  # Install the skill files\n\
\x20 sloppy skill --install --agent cursor    # Install for Cursor\n\
";

pub const CURSOR_FRONT_MATTER: &'static str = "---\ndescription: AI prose detection and repair using the sloppy CLI\nglobs:\nalwaysApply: false\n---\n\n";

pub const COPILOT_FRONT_MATTER: &'static str = "---\napplyTo: \"**/*.md,**/*.txt,**/*.mdx\"\n---\n\n";

/// The rules for the agents that do not take the skill files.
pub fn agent_rules_content() -> (r: String)
    ensures
        r@ == AGENT_RULES@,
{
    AGENT_RULES.to_owned()
}

/// The coding agents that the rules can be installed for.
#[derive(Debug, Clone, Copy, PartialEq, Eq, Structural)]
pub enum Agent {
    Claude,
    Cursor,
    Windsurf,
    Copilot,
    Cline,
    Roo,
    Continue,
    Amp,
    Goose,
    Aider,
}

/// How an agent's rules are installed.
pub enum InstallPlan {
    /// The skill files, under the user's home directory.
    ClaudeSkill,
    /// A rules file written (or overwritten) in a directory of the project.
    ProjectFile { dir: String, file: String, content: String },
    /// Rules appended to a file of the project.
    Append { dir: String, file: String, content: String },
}

/// The text of an install plan.
pub enum PlanView {
    ClaudeSkill,
    ProjectFile(Seq<char>, Seq<char>, Seq<char>),
    Append(Seq<char>, Seq<char>, Seq<char>),
}

impl View for InstallPlan {
    type V = PlanView;

    open spec fn view(&self) -> PlanView {
        match self {
            InstallPlan::ClaudeSkill => PlanView::ClaudeSkill,
            InstallPlan::ProjectFile { dir, file, content } => PlanView::ProjectFile(
                dir@,
                file@,
                content@,
            ),
            InstallPlan::Append { dir, file, content } => PlanView::Append(dir@, file@, content@),
        }
    }
}

/// Where and how each agent gets its rules.
pub open spec fn plan_of(a: Agent) -> PlanView {
    match a {
        Agent::Claude => PlanView::ClaudeSkill,
        Agent::Cursor => PlanView::ProjectFile(
            ".cursor/rules"@,
            "sloppy.mdc"@,
            CURSOR_FRONT_MATTER@ + AGENT_RULES@,
        ),
        Agent::Windsurf => PlanView::ProjectFile(".windsurf/rules"@, "sloppy.md"@, AGENT_RULES@),
        Agent::Copilot => PlanView::ProjectFile(
            ".github/instructions"@,
            "sloppy.instructions.md"@,
            COPILOT_FRONT_MATTER@ + AGENT_RULES@,
        ),
        Agent::Cline => PlanView::ProjectFile(".clinerules"@, "sloppy.md"@, AGENT_RULES@),
        Agent::Roo => PlanView::ProjectFile(".roo/rules"@, "sloppy.md"@, AGENT_RULES@),
        Agent::Continue => PlanView::ProjectFile(".continue/rules"@, "sloppy.md"@, AGENT_RULES@),
        Agent::Amp => PlanView::ProjectFile(".amp/skills"@, "sloppy.md"@, AGENT_RULES@),
        Agent::Goose => PlanView::Append("."@, ".goosehints"@, AGENT_RULES@),
        Agent::Aider => PlanView::Append("."@, "CONVENTIONS.md"@, AGENT_RULES@),
    }
}

fn project_file(dir: &str, file: &str, content: String) -> (p: InstallPlan)
    ensures
        p@ == PlanView::ProjectFile(dir@, file@, content@),
{
    InstallPlan::ProjectFile { dir: dir.to_owned(), file: file.to_owned(), content }
}

fn append_to(dir: &str, file: &str, content: String) -> (p: InstallPlan)
    ensures
        p@ == PlanView::Append(dir@, file@, content@),
{
    InstallPlan::Append { dir: dir.to_owned(), file: file.to_owned(), content }
}

/// How to install the rules for `agent`.
pub fn install_plan(agent: Agent) -> (p: InstallPlan)
    ensures
        p@ == plan_of(agent),
{
    match agent {
        Agent::Claude => InstallPlan::ClaudeSkill,
        Agent::Cursor => project_file(
            ".cursor/rules",
            "sloppy.mdc",
            concat2(CURSOR_FRONT_MATTER, AGENT_RULES),
        ),
        Agent::Windsurf => project_file(".windsurf/rules", "sloppy.md", agent_rules_content()),
        Agent::Copilot => project_file(
            ".github/instructions",
            "sloppy.instructions.md",
            concat2(COPILOT_FRONT_MATTER, AGENT_RULES),
        ),
        Agent::Cline => project_file(".clinerules", "sloppy.md", agent_rules_content()),
        Agent::Roo => project_file(".roo/rules", "sloppy.md", agent_rules_content()),
        Agent::Continue => project_file(".continue/rules", "sloppy.md", agent_rules_content()),
        Agent::Amp => project_file(".amp/skills", "sloppy.md", agent_rules_content()),
        Agent::Goose => append_to(".", ".goosehints", agent_rules_content()),
        Agent::Aider => append_to(".", "CONVENTIONS.md", agent_rules_content()),
    }
}

/// What is appended to a file that holds `existing`: a newline when the file
/// does not end with one, a `---` separator when it is not empty, then the
/// content.
pub open spec fn append_text(existing: Seq<char>, content: Seq<char>) -> Seq<char> {
    let newline = if existing.len() > 0 && existing.last() != '\n' {
        "\n"@
    } else {
        ""@
    };
    let separator = if existing.len() > 0 {
        "\n---\n\n"@
    } else {
        ""@
    };
    newline + separator + content
}

/// The text to append to a file that holds `existing`.
pub fn appended_text(existing: &str, content: &str) -> (r: String)
    ensures
        r@ == append_text(existing@, content@),
{
    let cs = chars_of(existing);
    let mut r = String::new();
    if cs.len() > 0 && cs[cs.len() - 1] != '\n' {
        r.append("\n");
    }
    if cs.len() > 0 {
        r.append("\n---\n\n");
    }
    r.append(content);
    proof {
        reveal_strlit("");
        assert(r@ =~= append_text(existing@, content@));
    }
    r
}

/// The help that `skill` prints without `--install`; `default_agent` is the
/// command-line name of the agent that takes the skill files.
pub open spec fn skill_help_text(default_agent: Seq<char>) -> Seq<char> {
    SKILL_HELP_HEAD@ + "  "@ + pad_right(default_agent, 10) + DEFAULT_AGENT_TARGET@ + SKILL_HELP_REST@
}

/// The help that `skill` prints without `--install`.
pub fn skill_help(default_agent: &str) -> (r: String)
    ensures
        r@ == skill_help_text(default_agent@),
{
    let mut s = String::new();
    s.append(SKILL_HELP_HEAD);
    s.append("  ");
    push_padded_right(&mut s, default_agent, 10);
    s.append(DEFAULT_AGENT_TARGET);
    s.append(SKILL_HELP_REST);
    assert(s@ =~= skill_help_text(default_agent@)) by {
        reveal_strlit("");
    }
    s
}

} // verus!
