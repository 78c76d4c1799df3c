//! The capability contract a log-format parser exposes.

use vstd::prelude::*;

pub use crate::version::PluginVersion;

verus! {

/// Metadata about a plugin. The identity key of a plugin is its `name`;
/// uniqueness of names is enforced by the registry, not here.
#[derive(Debug, Clone)]
pub struct PluginMetadata {
    pub name: String,
    pub version: PluginVersion,
    pub description: String,
    pub author: String,
}

impl PluginMetadata {
    pub fn new(name: &str, version: PluginVersion, description: &str, author: &str) -> (m: Self)
        ensures
            m.name@ == name@,
            m.version == version,
            m.description@ == description@,
            m.author@ == author@,
    {
        Self {
            name: String::from_str(name),
            version,
            description: String::from_str(description),
            author: String::from_str(author),
        }
    }
}

/// Result of parsing one log line.
pub enum ParseResult {
    /// Successfully parsed; carries the rendered output.
    Parsed(String),
    /// The line does not match this plugin's format.
    NoMatch,
    /// An error occurred during parsing; the message is a data value,
    /// propagation is left to the caller.
    Error(String),
}

/// Outcome of format detection over a set of sample lines: how many of the
/// offered samples the parser accepts. The confidence it stands for is the
/// fraction `matched / total`, taken as zero when `total` is zero.
#[derive(Debug, Clone, Copy, PartialEq, Eq, Structural)]
pub struct DetectScore {
    pub matched: usize,
    pub total: usize,
}

/// Trait that all log format plugins implement, built-in parsers and
/// discovered ones alike.
pub trait Plugin: Send + Sync {
    /// The name this plugin is identified by.
    open spec fn spec_name(&self) -> Seq<char> {
        Seq::empty()
    }

    /// The version this plugin reports.
    open spec fn spec_version(&self) -> PluginVersion {
        PluginVersion { major: 0, minor: 0, patch: 0 }
    }

    /// The lines this plugin accepts.
    open spec fn spec_parses(&self, line: Seq<char>) -> bool {
        false
    }

    /// Returns metadata about this plugin.
    fn metadata(&self) -> (m: &PluginMetadata)
        ensures
            m.name@ == self.spec_name(),
            m.version == self.spec_version(),
    ;

    /// Attempts to parse a single log line; yields `Parsed` exactly on the
    /// lines the plugin accepts.
    fn parse_line(&self, line: &str) -> (r: ParseResult)
        ensures
            (r is Parsed) == self.spec_parses(line@),
    ;

    /// The name of this plugin (convenience method).
    fn name(&self) -> (n: &str)
        ensures
            n@ == self.spec_name(),
    {
        self.metadata().name.as_str()
    }

    /// The version of this plugin (convenience method).
    fn version(&self) -> (v: &PluginVersion)
        ensures
            *v == self.spec_version(),
    {
        &self.metadata().version
    }

    /// Whether this plugin can parse the given line; derived from
    /// `parse_line`.
    fn can_parse(&self, line: &str) -> (b: bool)
        ensures
            b == self.spec_parses(line@),
    {
        match self.parse_line(line) {
            ParseResult::Parsed(_) => true,
            _ => false,
        }
    }

    /// Counts how many of the sample lines this plugin accepts, as the basis
    /// of a detection confidence. An empty sample set scores zero out of
    /// zero.
    fn detect_format(&self, sample_lines: &[&str]) -> (score: DetectScore)
        ensures
            score.total == sample_lines@.len(),
            score.matched == count_matching(|l: Seq<char>| self.spec_parses(l), sample_lines@),
            score.matched <= score.total,
    {
        let n: usize = sample_lines.len();
        let mut matched: usize = 0;
        let mut i: usize = 0;
        while i < n
            invariant
                n == sample_lines@.len(),
                i <= n,
                matched <= i,
                matched == count_matching(
                    |l: Seq<char>| self.spec_parses(l),
                    sample_lines@.take(i as int),
                ),
            decreases n - i,
        {
            let line: &str = sample_lines[i];
            let accepted = self.can_parse(line);
            proof {
                let pre = sample_lines@.take(i + 1);
                assert(pre.drop_last() =~= sample_lines@.take(i as int));
                assert(pre.last() == sample_lines@[i as int]);
            }
            if accepted {
                matched = matched + 1;
            }
            i = i + 1;
        }
        proof {
            assert(sample_lines@.take(n as int) =~= sample_lines@);
        }
        DetectScore { matched, total: n }
    }
}

/// How many of `lines` satisfy the acceptance predicate `pred`.
pub open spec fn count_matching(pred: spec_fn(Seq<char>) -> bool, lines: Seq<&str>) -> int
    decreases lines.len(),
{
    if lines.len() == 0 {
        0
    } else {
        count_matching(pred, lines.drop_last()) + (if pred(lines.last()@) {
            1int
        } else {
            0int
        })
    }
}

/// Detection over samples that are all accepted counts every sample: the
/// confidence it stands for is exactly one.
pub proof fn lemma_count_matching_all(pred: spec_fn(Seq<char>) -> bool, lines: Seq<&str>)
    requires
        forall|i: int| 0 <= i < lines.len() ==> pred(#[trigger] lines[i]@),
    ensures
        count_matching(pred, lines) == lines.len(),
    decreases lines.len(),
{
    if lines.len() > 0 {
        assert forall|i: int| 0 <= i < lines.drop_last().len() implies pred(
            #[trigger] lines.drop_last()[i]@,
        ) by {
            assert(lines.drop_last()[i] == lines[i]);
        }
        lemma_count_matching_all(pred, lines.drop_last());
    }
}

/// Detection over samples none of which is accepted counts nothing: the
/// confidence it stands for is exactly zero, as it also is for an empty
/// sample set.
pub proof fn lemma_count_matching_none(pred: spec_fn(Seq<char>) -> bool, lines: Seq<&str>)
    requires
        forall|i: int| 0 <= i < lines.len() ==> !pred(#[trigger] lines[i]@),
    ensures
        count_matching(pred, lines) == 0,
    decreases lines.len(),
{
    if lines.len() > 0 {
        assert forall|i: int| 0 <= i < lines.drop_last().len() implies !pred(
            #[trigger] lines.drop_last()[i]@,
        ) by {
            assert(lines.drop_last()[i] == lines[i]);
        }
        lemma_count_matching_none(pred, lines.drop_last());
    }
}

} // verus!
