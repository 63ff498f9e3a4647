//! The built-in configuration, in TOML.
use vstd::prelude::*;

verus! {

/// The built-in configuration: every check enabled with its penalty, cap and
/// severity, and the parameters of the checks that take them.
pub const DEFAULTS_TOML: &'static str = "# sloppy configuration. Copy to .sloppy.toml in a project and edit.\n\
\n\
[general]\n\
# Texts scoring at or above this fail.\n\
threshold = 30\n\
\n\
[checks.lexical_blacklist]\n\
enabled = true\n\
penalty_per_flag = 8\n\
max_penalty = 60\n\
severity = \"warning\"\n\
\n\
[checks.lexical_blacklist.words]\n\
simple = [\n\
\x20   \"delve\", \"tapestry\", \"testament\", \"vibrant\", \"robust\", \"crucial\",\n\
\x20   \"pivotal\", \"foster\", \"cultivate\", \"nestled\", \"boasts\", \"breathtaking\",\n\
\x20   \"groundbreaking\", \"showcasing\", \"renowned\", \"leverage\", \"utilize\", \"facilitate\",\n\
\x20   \"harness\", \"illuminate\", \"endeavor\", \"spearhead\", \"streamline\", \"catalyze\",\n\
\x20   \"encompass\", \"exemplify\", \"embark\", \"empower\", \"bolster\", \"galvanize\",\n\
\x20   \"solidify\", \"garner\", \"beacon\", \"cornerstone\", \"linchpin\", \"paradigm\",\n\
\x20   \"synergy\", \"seamless\", \"holistic\", \"noteworthy\", \"commendable\", \"meticulous\",\n\
\x20   \"intricate\", \"remarkable\", \"exceptional\", \"profound\", \"invaluable\", \"indispensable\",\n\
\x20   \"paramount\", \"stunning\", \"multifaceted\", \"nuanced\",\n\
]\n\
\n\
[checks.lexical_blacklist.patterns]\n\
entries = [\n\
\x20   ['\\bunderscore[sd]?\\s+the\\b', \"underscore (verb)\"],\n\
\x20   ['\\bhighlight[sd]?\\s+(?:the|its|their|our|a|an)\\b', \"highlight (verb)\"],\n\
\x20   ['\\b(?:the|a|an)\\s+landscape\\s+of\\b', \"landscape (metaphorical)\"],\n\
\x20   ['\\ba rich \\w+ of\\b', \"a rich [noun] of\"],\n\
\x20   ['\\bstands as a\\b', \"stands as a\"],\n\
\x20   ['\\bserves as a\\b', \"serves as a\"],\n\
\x20   ['\\bholds the distinction\\b', \"holds the distinction\"],\n\
\x20   ['\\breflects broader\\b', \"reflects broader\"],\n\
\x20   ['\\bshaping the evolving\\b', \"shaping the evolving\"],\n\
\x20   ['\\bmarking a pivotal\\b', \"marking a pivotal\"],\n\
\x20   ['\\bleaving an indelible mark\\b', \"leaving an indelible mark\"],\n\
\x20   ['\\bit(?:\\x27|\\x{2019})s worth noting\\b', \"it's worth noting\"],\n\
\x20   ['\\bit(?:\\x27|\\x{2019})s important to note\\b', \"it's important to note\"],\n\
\x20   ['\\bin today(?:\\x27|\\x{2019})s \\w+', \"in today's [X]\"],\n\
\x20   ['\\bat the end of the day\\b', \"at the end of the day\"],\n\
\x20   ['\\bwhen it comes to\\b', \"when it comes to\"],\n\
\x20   ['\\bplays? an? \\w+ role\\b', \"plays a [adjective] role\"],\n\
\x20   ['\\blet(?:\\x27|\\x{2019})s dive in\\b', \"let's dive in\"],\n\
\x20   ['\\bat the forefront of\\b', \"at the forefront of\"],\n\
\x20   ['\\brich cultural heritage\\b', \"rich cultural heritage\"],\n\
\x20   ['\\b(?:enduring|lasting) legacy\\b', \"enduring/lasting legacy\"],\n\
\x20   ['\\bindelible mark\\b', \"indelible mark\"],\n\
\x20   ['\\bharness(?:es|ing)? the power of\\b', \"harness the power of\"],\n\
\x20   ['\\bunlock(?:s|ing)? the (?:full )?potential\\b', \"unlocking the potential\"],\n\
\x20   ['\\bempower(?:s|ing)? \\w+ to\\b', \"empowering [X] to\"],\n\
\x20   ['\\bset(?:s|ting)? the stage for\\b', \"setting the stage for\"],\n\
\x20   ['\\bkey turning point\\b', \"key turning point\"],\n\
\x20   ['\\bwatershed moment\\b', \"watershed moment\"],\n\
\x20   ['\\bparadigm shift\\b', \"paradigm shift\"],\n\
\x20   ['\\bsteadfast dedication\\b', \"steadfast dedication\"],\n\
\x20   ['\\bdeeply rooted\\b', \"deeply rooted\"],\n\
\x20   ['\\bvaluable insights?\\b', \"valuable insights\"],\n\
\x20   ['\\bno discussion (?:of [\\w ]+ )?would be complete\\b', \"no discussion would be complete\"],\n\
\x20   ['\\bnavigat(?:e|es|ing) (?:the|these|this) (?:complexities|challenges|landscape|world)\\b', \"navigate (metaphorical)\"],\n\
\x20   ['\\bgame-changing\\b', \"game-changing\"],\n\
\x20   ['\\bcutting-edge\\b', \"cutting-edge\"],\n\
\x20   ['\\brevolutionary\\b', \"revolutionary\"],\n\
\x20   ['\\btransformative\\b', \"transformative\"],\n\
]\n\
\n\
[checks.em_dash_count]\n\
enabled = true\n\
penalty_per_flag = 10\n\
max_penalty = 10\n\
severity = \"warning\"\n\
max_allowed = 0\n\
\n\
[checks.trailing_participle]\n\
enabled = true\n\
penalty_per_flag = 10\n\
max_penalty = 30\n\
severity = \"warning\"\n\
\n\
[checks.rule_of_three]\n\
enabled = true\n\
penalty_per_flag = 5\n\
max_penalty = 20\n\
severity = \"info\"\n\
\n\
[checks.transition_openers]\n\
enabled = true\n\
penalty_per_flag = 8\n\
max_penalty = 24\n\
severity = \"warning\"\n\
banned = [\n\
\x20   \"Moreover\", \"Furthermore\", \"Additionally\", \"Consequently\",\n\
\x20   \"As a result\", \"In addition\", \"On the other hand\", \"Notably\",\n\
\x20   \"Importantly\", \"Crucially\", \"Significantly\", \"Interestingly\",\n\
\x20   \"That said\", \"That being said\",\n\
]\n\
\n\
[checks.burstiness]\n\
enabled = true\n\
penalty_per_flag = 20\n\
max_penalty = 20\n\
severity = \"warning\"\n\
std_dev_threshold = 5.0\n\
min_sentences = 4\n\
\n\
[checks.copulative_inflation]\n\
enabled = true\n\
penalty_per_flag = 5\n\
max_penalty = 20\n\
severity = \"info\"\n\
\n\
[checks.formulaic_conclusion]\n\
enabled = true\n\
penalty_per_flag = 10\n\
max_penalty = 20\n\
severity = \"warning\"\n\
openers = [\n\
\x20   \"In summary\", \"In conclusion\", \"To summarize\", \"To conclude\",\n\
\x20   \"Overall\", \"Ultimately\", \"In closing\", \"Looking ahead\",\n\
\x20   \"Moving forward\", \"In the end\", \"Key takeaways\", \"Key takeaway\",\n\
\x20   \"In essence\", \"All in all\", \"The bottom line\",\n\
]\n\
\n\
[checks.patterned_negation]\n\
enabled = true\n\
penalty_per_flag = 5\n\
max_penalty = 15\n\
severity = \"info\"\n\
\n\
[checks.throat_clearing]\n\
enabled = true\n\
penalty_per_flag = 8\n\
max_penalty = 24\n\
severity = \"warning\"\n\
\n\
[checks.chatbot_artifacts]\n\
enabled = true\n\
penalty_per_flag = 10\n\
max_penalty = 20\n\
severity = \"warning\"\n\
\n\
[checks.paragraph_uniformity]\n\
enabled = true\n\
penalty_per_flag = 15\n\
max_penalty = 15\n\
severity = \"info\"\n\
std_dev_threshold = 1.0\n\
min_paragraphs = 4\n\
\n\
[checks.emphasis_crutches]\n\
enabled = true\n\
penalty_per_flag = 5\n\
max_penalty = 15\n\
severity = \"info\"\n\
\n\
[checks.vague_attribution]\n\
enabled = true\n\
penalty_per_flag = 5\n\
max_penalty = 15\n\
severity = \"info\"\n\
\n\
[checks.wordiness]\n\
enabled = true\n\
penalty_per_flag = 3\n\
max_penalty = 12\n\
severity = \"info\"\n\
";

} // verus!
