//! The configuration of `clap_help_no_markdown`, the variant of the
//! clap help-text rule whose forbidden set is adjusted by `extra_forbid`
//! and `allow`, and whose help-override keys are configurable. The
//! markdown categories are those of [`crate::clap_help_markdown`].
use vstd::prelude::*;
use crate::clap_help_markdown::collect::{crates_spec, walk_crates, DocNodes, DocNodesView, Item};
use crate::clap_help_markdown::{in_default_forbid, ConstructCategory, NodeState};
use crate::common::resolve_string_set;
use crate::ordering::{canon, views};

verus! {

pub struct Config {
    /// Constructs flagged on top of the default set; empty by default.
    pub extra_forbid: Vec<ConstructCategory>,
    /// Constructs left unflagged even when in the default set; applied
    /// after `extra_forbid`, so it wins. Empty by default.
    pub allow: Vec<ConstructCategory>,
    /// Attribute keys that override the help text with a plain string.
    pub override_keys: Vec<String>,
}

pub open spec fn default_override_keys() -> Seq<Seq<char>> {
    seq!["about"@, "long_about"@, "help"@, "long_help"@]
}

impl Default for Config {
    fn default() -> (c: Self)
        ensures
            c.extra_forbid@.len() == 0,
            c.allow@.len() == 0,
            views(c.override_keys@) == default_override_keys(),
    {
        let keys = vec!["about".to_owned(), "long_about".to_owned(), "help".to_owned(), "long_help".to_owned()];
        assert(views(keys@) =~= default_override_keys());
        Config { extra_forbid: Vec::new(), allow: Vec::new(), override_keys: keys }
    }
}

/// The resolved form of [`Config`]: the active forbidden set and the set
/// of override keys.
pub struct ResolvedConfig {
    pub forbid: Vec<ConstructCategory>,
    pub override_keys: Vec<String>,
}

impl ResolvedConfig {
    /// Effective forbidden set = (default ∪ `extra_forbid`) \ `allow`;
    /// the override keys held as a set.
    pub fn from_config(config: Config) -> (r: Self)
        ensures
            forall|c: ConstructCategory| r.forbid@.contains(c) <==> ((in_default_forbid(c)
                || config.extra_forbid@.contains(c)) && !config.allow@.contains(c)),
            views(r.override_keys@) == canon(views(config.override_keys@), false),
    {
        let none: Vec<String> = Vec::new();
        let keys = resolve_string_set(&config.override_keys, &none, &none);
        proof {
            assert(views(none@) =~= Seq::<Seq<char>>::empty());
            lemma_no_ignore(views(config.override_keys@) + views(none@));
            assert(views(config.override_keys@) + views(none@) =~= views(config.override_keys@));
        }
        let inner = crate::clap_help_markdown::ResolvedConfig::from_config(crate::clap_help_markdown::Config {
            extra_constructs: config.extra_forbid,
            ignore_constructs: config.allow,
            require_help_override: false,
        });
        ResolvedConfig { forbid: inner.forbid, override_keys: keys }
    }
}

proof fn lemma_no_ignore(s: Seq<Seq<char>>)
    ensures
        crate::common::unignored(s, Seq::empty()) == s,
    decreases s.len(),
{
    if s.len() > 0 {
        lemma_no_ignore(s.drop_last());
        assert(!Seq::<Seq<char>>::empty().contains(s.last()));
        assert(s.drop_last().push(s.last()) =~= s);
    }
}

/// The doc-line map of every clap-derived container in the crate files,
/// with the configured help-override keys: each `///` line of a
/// documented, non-overridden node mapped to its state. This variant
/// reads clap-namespace lists only where they are written directly, and
/// keeps the own doc comment of every clap-derived enum.
pub fn collect_doc_nodes(crates: &Vec<Vec<Item>>, override_keys: &Vec<String>) -> (r: std::collections::HashMap<
    u32,
    NodeState,
>)
    ensures
        r@ == crates_spec(
            DocNodesView { by_line: Map::empty(), first_lines: Set::empty() },
            crates@,
            views(override_keys@),
            false,
            false,
        ).by_line,
{
    let mut nodes = DocNodes::new();
    walk_crates(crates, override_keys, false, false, &mut nodes);
    nodes.by_line
}

} // verus!
