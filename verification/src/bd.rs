//! How `bd graph` is asked for the dependency graph.
use vstd::prelude::*;

use crate::text::string_views;

verus! {

/// A filesystem path, carried through unchanged.
#[verifier::external_type_specification]
#[verifier::external_body]
pub struct ExPathBuf(std::path::PathBuf);

/// Where and for what `bd graph` runs.
#[derive(Debug)]
pub struct BdRunner {
    pub repo: std::path::PathBuf,
    pub focus: Option<String>,
}

/// The arguments of `bd graph`: one epic when focused, all otherwise,
/// always as read-only JSON.
pub open spec fn spec_graph_args(focus: Option<Seq<char>>) -> Seq<Seq<char>> {
    seq!["graph"@] + match focus {
        Some(id) => seq![id],
        None => seq!["--all"@],
    } + seq!["--json"@, "--readonly"@]
}

/// The dashboard only ever reads: every `bd` invocation is `bd graph`,
/// asked for JSON with `--readonly`.
pub proof fn lemma_graph_is_read_only(focus: Option<Seq<char>>)
    ensures
        spec_graph_args(focus)[0] == "graph"@,
        spec_graph_args(focus).contains("--readonly"@),
        spec_graph_args(focus).contains("--json"@),
{
    let a = spec_graph_args(focus);
    assert(a[a.len() - 1] == "--readonly"@);
    assert(a[a.len() - 2] == "--json"@);
}

impl BdRunner {
    pub fn new(repo: std::path::PathBuf, focus: Option<String>) -> (r: Self)
        ensures
            r.repo == repo,
            r.focus == focus,
    {
        BdRunner { repo, focus }
    }

    /// The arguments to pass to `bd` (run in `self.repo`).
    pub fn graph_args(&self) -> (r: Vec<String>)
        ensures
            string_views(r@) == spec_graph_args(
                match self.focus {
                    Some(id) => Some(id@),
                    None => None,
                },
            ),
    {
        let mut r: Vec<String> = Vec::new();
        r.push("graph".to_owned());
        match &self.focus {
            Some(id) => r.push(id.clone()),
            None => r.push("--all".to_owned()),
        }
        r.push("--json".to_owned());
        r.push("--readonly".to_owned());
        assert(string_views(r@) =~= spec_graph_args(
            match self.focus {
                Some(id) => Some(id@),
                None => None,
            },
        ));
        r
    }
}

} // verus!
