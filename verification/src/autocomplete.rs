//! The incremental line matcher: prefix/command matching with trailing
//! argument extraction, autocomplete candidate accumulation, and the
//! reduction of the accumulated candidates into a suggestion.
//!
//! All matching is byte oriented: a line is a sequence of bytes, and so is
//! every pattern.

use vstd::prelude::*;
use vstd::multiset::Multiset;
use vstd::relations::sorted_by;
use crate::utils::{
    bytes_eq, bytes_range, concat_bytes, find_byte_from, find_from, lcp_len, lcp_of,
    lemma_find_from_props, lemma_lcp_max, lemma_lcp_prefix, lemma_lex_le_connected,
    lemma_lex_le_refl, lemma_lex_le_total_ordering, lemma_lex_le_trans, lemma_rfind_props, lex_le,
    lex_le_bytes, lex_leq, longest_common_prefix, rfind, rfind_byte, starts_with_bytes,
};

verus! {

/// A command that can be matched by the command line prompt
#[derive(Debug, Clone, PartialEq)]
pub struct CliCommand {
    /// Pattern with which the line should start.
    pub command: Vec<u8>,
    /// Help for this command, shown on request.
    pub help: Option<Vec<u8>>,
}

#[derive(Debug, Copy, Clone, PartialEq, Eq, Structural)]
pub enum CliError {
    InvalidInput,
}

/// One autocomplete suggestion
#[derive(Debug, Clone, PartialEq)]
pub struct AutocompleteLine {
    /// The entire new suggested line buffer
    full_new_line: Vec<u8>,
    /// The additional suggested part beyond what was typed; it can be sent
    /// to the terminal device as it stands
    additional_part: Vec<u8>,
    /// What an autocomplete listing shows for this suggestion
    display_part: Vec<u8>,
}

/// Ghost shape of one suggestion.
#[verifier::ext_equal]
pub struct AutocompleteLineModel {
    pub full: Seq<u8>,
    pub additional: Seq<u8>,
    pub display: Seq<u8>,
}

impl View for AutocompleteLine {
    type V = AutocompleteLineModel;

    closed spec fn view(&self) -> AutocompleteLineModel {
        AutocompleteLineModel {
            full: self.full_new_line@,
            additional: self.additional_part@,
            display: self.display_part@,
        }
    }
}

impl AutocompleteLine {
    /// The part shown in a multi-candidate listing.
    pub fn get_display(&self) -> (r: &Vec<u8>)
        ensures
            r@ == self@.display,
    {
        &self.display_part
    }

    /// The suffix beyond what the user typed.
    pub fn get_additional_part(&self) -> (r: &Vec<u8>)
        ensures
            r@ == self@.additional,
    {
        &self.additional_part
    }

    /// The entire suggested line.
    pub fn get_full_new_line(&self) -> (r: &Vec<u8>)
        ensures
            r@ == self@.full,
    {
        &self.full_new_line
    }
}

/// Result of the autocomplete request on a given set of commands
#[derive(Debug, Clone, PartialEq)]
pub enum AutocompleteResult {
    /// No suggestions available
    NoSuggestion,
    /// A single match: the line buffer can be expanded with it at once
    SingleMatch { line: AutocompleteLine },
    /// Multiple matches, usually presented to the user in a column format
    MultipleMatches { lines: Vec<AutocompleteLine> },
}

/// Ghost shape of an autocomplete result.
#[verifier::ext_equal]
pub enum AutocompleteResultModel {
    NoSuggestion,
    SingleMatch(AutocompleteLineModel),
    MultipleMatches(Seq<AutocompleteLineModel>),
}

impl View for AutocompleteResult {
    type V = AutocompleteResultModel;

    open spec fn view(&self) -> AutocompleteResultModel {
        match self {
            AutocompleteResult::NoSuggestion => AutocompleteResultModel::NoSuggestion,
            AutocompleteResult::SingleMatch { line } => AutocompleteResultModel::SingleMatch(
                line@,
            ),
            AutocompleteResult::MultipleMatches { lines } => AutocompleteResultModel::MultipleMatches(
                lines@.map_values(|l: AutocompleteLine| l@),
            ),
        }
    }
}

/// Final outcome of one matching pass over an input line
#[derive(Debug, Clone, PartialEq)]
pub enum LineBufferResult {
    /// No terminal result yet; prefix candidates accumulate here
    MoreInputRequired { prefix_matches: Vec<Vec<u8>> },
    /// The pass is over and nothing matched
    NoMatchFound,
    /// A pattern matched; `args` is what followed it on the line
    Match { args: Vec<u8> },
    /// Outcome of an autocomplete pass
    Autocomplete { result: AutocompleteResult },
}

/// Ghost shape of a matching outcome.
#[verifier::ext_equal]
pub enum LineBufferModel {
    MoreInputRequired(Seq<Seq<u8>>),
    NoMatchFound,
    Match(Seq<u8>),
    Autocomplete(AutocompleteResultModel),
}

impl View for LineBufferResult {
    type V = LineBufferModel;

    open spec fn view(&self) -> LineBufferModel {
        match self {
            LineBufferResult::MoreInputRequired { prefix_matches } => LineBufferModel::MoreInputRequired(
                prefix_matches.deep_view(),
            ),
            LineBufferResult::NoMatchFound => LineBufferModel::NoMatchFound,
            LineBufferResult::Match { args } => LineBufferModel::Match(args@),
            LineBufferResult::Autocomplete { result } => LineBufferModel::Autocomplete(result@),
        }
    }
}

/// State of the line matcher
#[derive(Debug, Copy, Clone, PartialEq, Eq, Structural)]
pub enum LineMatcherProgress {
    MatchFound,
    Processing,
    Skipped,
}

/// Should a match commit and stop further checks, or should the pass only
/// collect autocomplete suggestions?
#[derive(Debug, Copy, Clone, PartialEq, Eq, Structural)]
pub enum LineMatcherMode {
    Execute,
    AutocompleteOnly,
}

/// Whether the pattern asks for its delimiter itself, by ending in a space.
pub open spec fn cmd_ends_with_space(cmd: Seq<u8>) -> bool {
    cmd.len() > 0 && cmd[cmd.len() - 1] == 32
}

/// When a pattern matches a line in execute mode: the line starts with the
/// pattern and the byte after the pattern is absent, a space, or the pattern
/// ends in a space itself.
pub open spec fn execute_matches(line: Seq<u8>, cmd: Seq<u8>) -> bool {
    &&& cmd.len() > 0
    &&& cmd.is_prefix_of(line)
    &&& (cmd_ends_with_space(cmd) || line.len() == cmd.len() || line[cmd.len() as int] == 32)
}

/// The trailing arguments of a match: everything after the pattern and one
/// delimiter byte.  A pattern that ends in a space carries its delimiter, so
/// the arguments begin right after it.
pub open spec fn match_args(line: Seq<u8>, cmd: Seq<u8>) -> Seq<u8> {
    if cmd_ends_with_space(cmd) {
        line.skip(cmd.len() as int)
    } else if line.len() > cmd.len() {
        line.skip(cmd.len() as int + 1)
    } else {
        Seq::<u8>::empty()
    }
}

/// The candidate that a pattern contributes in autocomplete mode: the whole
/// pattern, or, when a path separator occurs after the typed part, the
/// pattern truncated just past that separator.
pub open spec fn autocomplete_candidate(line: Seq<u8>, cmd: Seq<u8>, sep: Option<u8>) -> Seq<u8> {
    match sep {
        Option::None => cmd,
        Option::Some(s) => match find_from(cmd, line.len() as int, s) {
            Option::None => cmd,
            Option::Some(i) => cmd.take(i + 1),
        },
    }
}

/// Candidate accumulation keeps insertion order and drops duplicates.
pub open spec fn push_candidate(pm: Seq<Seq<u8>>, c: Seq<u8>) -> Seq<Seq<u8>> {
    if pm.contains(c) {
        pm
    } else {
        pm.push(c)
    }
}

/// What one pattern check makes of the matcher state.
pub open spec fn step_state(
    state: LineBufferModel,
    mode: LineMatcherMode,
    line: Seq<u8>,
    sep: Option<u8>,
    cmd: Seq<u8>,
) -> LineBufferModel {
    match state {
        LineBufferModel::MoreInputRequired(pm) => {
            if cmd.len() == 0 {
                state
            } else if mode == LineMatcherMode::Execute && execute_matches(line, cmd) {
                LineBufferModel::Match(match_args(line, cmd))
            } else if mode == LineMatcherMode::AutocompleteOnly && line.is_prefix_of(cmd) {
                LineBufferModel::MoreInputRequired(
                    push_candidate(pm, autocomplete_candidate(line, cmd, sep)),
                )
            } else {
                state
            }
        },
        _ => state,
    }
}

/// What one pattern check reports: `Skipped` once the state is terminal,
/// `MatchFound` exactly on the committing check, else `Processing`.
pub open spec fn step_progress(
    state: LineBufferModel,
    mode: LineMatcherMode,
    line: Seq<u8>,
    cmd: Seq<u8>,
) -> LineMatcherProgress {
    if !(state is MoreInputRequired) {
        LineMatcherProgress::Skipped
    } else if cmd.len() > 0 && mode == LineMatcherMode::Execute && execute_matches(line, cmd) {
        LineMatcherProgress::MatchFound
    } else {
        LineMatcherProgress::Processing
    }
}

/// Where the display part of a candidate starts: just past the path
/// separator nearest the end of both the typed line and the candidate, or at
/// the start when that would leave nothing to show.
pub open spec fn display_start(line: Seq<u8>, cand: Seq<u8>, sep: Option<u8>) -> int {
    match sep {
        Option::None => 0,
        Option::Some(s) => match (rfind(line, s), rfind(cand, s)) {
            (Option::Some(l), Option::Some(r)) => {
                let p = if l <= r {
                    l + 1
                } else {
                    r + 1
                };
                if cand.len() > p {
                    p
                } else {
                    0
                }
            },
            _ => 0,
        },
    }
}

/// The suggestion built for one candidate in a multi-candidate listing.
pub open spec fn suggestion_model(line: Seq<u8>, cand: Seq<u8>, sep: Option<u8>) -> AutocompleteLineModel {
    AutocompleteLineModel {
        full: cand,
        additional: cand.skip(line.len() as int),
        display: cand.skip(display_start(line, cand, sep)),
    }
}

/// How the accumulated candidates reduce: none, a lone candidate, a collapse
/// to the longest common prefix when it says more than the typed line, or
/// the sorted listing.
pub open spec fn reduce_model(cands: Seq<Seq<u8>>, line: Seq<u8>, sep: Option<u8>) -> AutocompleteResultModel {
    if cands.len() == 0 {
        AutocompleteResultModel::NoSuggestion
    } else if cands.len() == 1 {
        AutocompleteResultModel::SingleMatch(
            AutocompleteLineModel {
                full: cands[0],
                additional: cands[0].skip(line.len() as int),
                display: cands[0],
            },
        )
    } else {
        if lcp_len(cands) > line.len() {
            let p = lcp_of(cands);
            AutocompleteResultModel::SingleMatch(
                AutocompleteLineModel { full: p, additional: p.skip(line.len() as int), display: p },
            )
        } else {
            AutocompleteResultModel::MultipleMatches(
                cands.sort_by(lex_leq()).map_values(|c: Seq<u8>| suggestion_model(line, c, sep)),
            )
        }
    }
}

/// What `finish` makes of the final matcher state.
pub open spec fn finish_model(
    state: LineBufferModel,
    mode: LineMatcherMode,
    line: Seq<u8>,
    sep: Option<u8>,
) -> LineBufferModel {
    match state {
        LineBufferModel::MoreInputRequired(pm) => {
            if mode == LineMatcherMode::AutocompleteOnly {
                LineBufferModel::Autocomplete(reduce_model(pm, line, sep))
            } else {
                LineBufferModel::NoMatchFound
            }
        },
        s => s,
    }
}

/// Match commands against the given input line
pub struct CliLineMatcher {
    line: Vec<u8>,
    line_prefix: Option<Vec<u8>>,
    mode: LineMatcherMode,
    path_separator: Option<u8>,
    state: LineBufferResult,
}

impl CliLineMatcher {
    /// The input line under scrutiny.
    pub closed spec fn line_spec(&self) -> Seq<u8> {
        self.line@
    }

    /// The matching mode of this pass.
    pub closed spec fn mode_spec(&self) -> LineMatcherMode {
        self.mode
    }

    /// The configured path separator.
    pub closed spec fn sep_spec(&self) -> Option<u8> {
        self.path_separator
    }

    /// The configured line prefix, prepended to every pattern first.
    pub closed spec fn line_prefix_spec(&self) -> Option<Seq<u8>> {
        match self.line_prefix {
            Option::None => Option::<Seq<u8>>::None,
            Option::Some(p) => Option::Some(p@),
        }
    }

    /// The matching state.
    pub closed spec fn state_model(&self) -> LineBufferModel {
        self.state@
    }

    /// While no terminal result is reached, the accumulated candidates are
    /// pairwise distinct, non-empty extensions of the typed line; a settled
    /// autocomplete outcome only ever holds suggestions that extend it.
    pub open spec fn wf(&self) -> bool {
        match self.state_model() {
            LineBufferModel::MoreInputRequired(pm) => {
                &&& pm.no_duplicates()
                &&& forall|i: int|
                    0 <= i < pm.len() ==> (#[trigger] pm[i]).len() > 0 && self.line_spec().is_prefix_of(pm[i])
            },
            LineBufferModel::Autocomplete(am) => suggestion_extends(self.line_spec(), am),
            _ => true,
        }
    }

    /// The matcher configuration other than the state.
    pub open spec fn unchanged_config(&self, other: &Self) -> bool {
        &&& self.line_spec() == other.line_spec()
        &&& self.mode_spec() == other.mode_spec()
        &&& self.sep_spec() == other.sep_spec()
        &&& self.line_prefix_spec() == other.line_prefix_spec()
    }

    /// Create a new line matcher over one input line, with the default `/`
    /// path separator.
    pub fn new(line: &[u8], mode: LineMatcherMode) -> (m: CliLineMatcher)
        ensures
            m.line_spec() == line@,
            m.mode_spec() == mode,
            m.sep_spec() == Option::Some(47u8),
            m.line_prefix_spec() is None,
            m.state_model() == LineBufferModel::MoreInputRequired(Seq::<Seq<u8>>::empty()),
            m.wf(),
    {
        let m = CliLineMatcher {
            line: bytes_range(line, 0, line.len()),
            line_prefix: None,
            mode,
            path_separator: Some(47u8),
            state: LineBufferResult::MoreInputRequired { prefix_matches: Vec::new() },
        };
        proof {
            assert(m.line@ =~= line@);
            assert(m.state@ =~= LineBufferModel::MoreInputRequired(Seq::<Seq<u8>>::empty()));
        }
        m
    }

    /// Set a prefix that `match_cmd` will try in front of every command.
    pub fn set_line_prefix(&mut self, prefix: Vec<u8>)
        ensures
            final(self).line_prefix_spec() == Option::Some(prefix@),
            final(self).line_spec() == old(self).line_spec(),
            final(self).mode_spec() == old(self).mode_spec(),
            final(self).sep_spec() == old(self).sep_spec(),
            final(self).state_model() == old(self).state_model(),
    {
        self.line_prefix = Some(prefix);
    }

    /// The matching state, as it stands.
    pub fn get_state(&self) -> (r: &LineBufferResult)
        ensures
            r@ == self.state_model(),
    {
        &self.state
    }

    /// Whether the input line starts with the given prefix.
    pub fn starts_with(&self, prefix: &[u8]) -> (r: bool)
        ensures
            r == prefix@.is_prefix_of(self.line_spec()),
    {
        starts_with_bytes(self.line.as_slice(), prefix)
    }

    /// Register a prefix whose subtree is not entered, so that it still
    /// shows up as an autocomplete candidate.
    pub fn add_unmatched_prefix(&mut self, prefix: &[u8])
        requires
            old(self).wf(),
        ensures
            final(self).wf(),
            final(self).unchanged_config(old(self)),
            final(self).state_model() == candidate_step(
                old(self).state_model(),
                old(self).mode_spec(),
                old(self).line_spec(),
                old(self).sep_spec(),
                prefix@,
            ),
    {
        self.accumulate_candidate(prefix);
    }

    /// Match the command, mutates the internal state of the matching.  With
    /// a line prefix set, the prefixed pattern is tried first.
    pub fn match_cmd(&mut self, cmd: &CliCommand) -> (r: LineMatcherProgress)
        requires
            old(self).wf(),
        ensures
            final(self).wf(),
            final(self).unchanged_config(old(self)),
            match old(self).line_prefix_spec() {
                Option::None => {
                    &&& r == step_progress(
                        old(self).state_model(),
                        old(self).mode_spec(),
                        old(self).line_spec(),
                        cmd.command@,
                    )
                    &&& final(self).state_model() == step_state(
                        old(self).state_model(),
                        old(self).mode_spec(),
                        old(self).line_spec(),
                        old(self).sep_spec(),
                        cmd.command@,
                    )
                },
                Option::Some(p) => {
                    let r1 = step_progress(
                        old(self).state_model(),
                        old(self).mode_spec(),
                        old(self).line_spec(),
                        p + cmd.command@,
                    );
                    let s1 = step_state(
                        old(self).state_model(),
                        old(self).mode_spec(),
                        old(self).line_spec(),
                        old(self).sep_spec(),
                        p + cmd.command@,
                    );
                    if r1 != LineMatcherProgress::Processing {
                        r == r1 && final(self).state_model() == s1
                    } else {
                        &&& r == step_progress(
                            s1,
                            old(self).mode_spec(),
                            old(self).line_spec(),
                            cmd.command@,
                        )
                        &&& final(self).state_model() == step_state(
                            s1,
                            old(self).mode_spec(),
                            old(self).line_spec(),
                            old(self).sep_spec(),
                            cmd.command@,
                        )
                    }
                },
            },
    {
        let prefixed: Option<Vec<u8>> = match &self.line_prefix {
            Some(prefix) => Some(concat_bytes(prefix.as_slice(), cmd.command.as_slice())),
            None => None,
        };

        if let Some(full) = prefixed {
            let r = self.match_cmd_str(full.as_slice(), None);
            if !matches!(r, LineMatcherProgress::Processing) {
                return r;
            }
        }

        self.match_cmd_str(cmd.command.as_slice(), None)
    }

    /// Match the string, mutates the internal state.
    ///
    /// Returns `Skipped` once a terminal result stands, `MatchFound` on the
    /// committing execute-mode match, and `Processing` otherwise; in
    /// autocomplete mode a pattern extending the typed line joins the
    /// candidates.  The optional prefix only accompanies prefixed patterns
    /// and plays no part in the matching itself.
    #[allow(unused_variables)]
    pub fn match_cmd_str(&mut self, cmd: &[u8], prefix: Option<&[u8]>) -> (r: LineMatcherProgress)
        requires
            old(self).wf(),
        ensures
            final(self).wf(),
            final(self).unchanged_config(old(self)),
            r == step_progress(
                old(self).state_model(),
                old(self).mode_spec(),
                old(self).line_spec(),
                cmd@,
            ),
            final(self).state_model() == step_state(
                old(self).state_model(),
                old(self).mode_spec(),
                old(self).line_spec(),
                old(self).sep_spec(),
                cmd@,
            ),
    {
        if !matches!(self.state, LineBufferResult::MoreInputRequired { .. }) {
            return LineMatcherProgress::Skipped;
        }
        if cmd.len() == 0 {
            return LineMatcherProgress::Processing;
        }

        if matches!(self.mode, LineMatcherMode::Execute) {
            let cmd_ends_sep = cmd[cmd.len() - 1] == 32;
            if self.line.len() >= cmd.len() && starts_with_bytes(self.line.as_slice(), cmd) && (
            cmd_ends_sep || self.line.len() == cmd.len() || self.line[cmd.len()] == 32) {
                let args: Vec<u8> = if cmd_ends_sep {
                    bytes_range(self.line.as_slice(), cmd.len(), self.line.len())
                } else if self.line.len() > cmd.len() {
                    bytes_range(self.line.as_slice(), cmd.len() + 1, self.line.len())
                } else {
                    Vec::new()
                };
                proof {
                    assert(args@ =~= match_args(self.line@, cmd@));
                }
                self.state = LineBufferResult::Match { args };
                return LineMatcherProgress::MatchFound;
            }
            return LineMatcherProgress::Processing;
        }

        self.accumulate_candidate(cmd);
        LineMatcherProgress::Processing
    }

    /// In autocomplete mode, add the candidate that `cmd` contributes, if
    /// any.
    fn accumulate_candidate(&mut self, cmd: &[u8])
        requires
            old(self).wf(),
        ensures
            final(self).wf(),
            final(self).unchanged_config(old(self)),
            final(self).state_model() == candidate_step(
                old(self).state_model(),
                old(self).mode_spec(),
                old(self).line_spec(),
                old(self).sep_spec(),
                cmd@,
            ),
    {
        if !matches!(self.state, LineBufferResult::MoreInputRequired { .. }) {
            return ;
        }
        if !matches!(self.mode, LineMatcherMode::AutocompleteOnly) {
            return ;
        }
        if cmd.len() == 0 {
            return ;
        }
        if !starts_with_bytes(cmd, self.line.as_slice()) {
            return ;
        }

        let cand: Vec<u8> = match self.path_separator {
            None => bytes_range(cmd, 0, cmd.len()),
            Some(sep) => {
                match find_byte_from(cmd, self.line.len(), sep) {
                    None => bytes_range(cmd, 0, cmd.len()),
                    Some(i) => {
                        proof {
                            lemma_find_from_props(cmd@, self.line@.len() as int, sep);
                        }
                        bytes_range(cmd, 0, i + 1)
                    },
                }
            },
        };
        proof {
            assert(cand@ =~= autocomplete_candidate(self.line@, cmd@, self.path_separator));
            match self.path_separator {
                Some(sp) => lemma_find_from_props(cmd@, self.line@.len() as int, sp),
                None => {},
            }
            assert(cand@.len() > 0);
            assert(self.line@.is_prefix_of(cand@)) by {
                assert(self.line@.is_prefix_of(cmd@));
                assert(self.line@ =~= cmd@.subrange(0, self.line@.len() as int));
                assert forall|j: int| 0 <= j < self.line@.len() implies cand@[j] == self.line@[j]
                by {
                    assert(cmd@[j] == self.line@[j]);
                }
                assert(self.line@ =~= cand@.subrange(0, self.line@.len() as int));
            }
        }
        self.push_prefix_match(cand);
    }

    /// Keep the list of candidate prefixes unique.
    fn push_prefix_match(&mut self, s: Vec<u8>)
        requires
            old(self).wf(),
            old(self).state_model() is MoreInputRequired,
            s@.len() > 0,
            old(self).line_spec().is_prefix_of(s@),
        ensures
            final(self).wf(),
            final(self).unchanged_config(old(self)),
            final(self).state_model() == LineBufferModel::MoreInputRequired(
                push_candidate(old(self).state_model()->MoreInputRequired_0, s@),
            ),
    {
        let ghost old_pm = old(self).state_model()->MoreInputRequired_0;
        let dup: bool = match &self.state {
            LineBufferResult::MoreInputRequired { prefix_matches } => {
                let mut found = false;
                let mut i: usize = 0;
                while i < prefix_matches.len()
                    invariant
                        i <= prefix_matches@.len(),
                        prefix_matches.deep_view() == old_pm,
                        found == exists|j: int| 0 <= j < i && old_pm[j] == s@,
                    decreases prefix_matches@.len() - i,
                {
                    if bytes_eq(prefix_matches[i].as_slice(), s.as_slice()) {
                        found = true;
                    }
                    proof {
                        assert(old_pm[i as int] == prefix_matches@[i as int]@);
                    }
                    i += 1;
                }
                found
            },
            _ => false,
        };
        proof {
            assert(dup == old_pm.contains(s@));
        }
        if !dup {
            match &mut self.state {
                LineBufferResult::MoreInputRequired { prefix_matches } => {
                    prefix_matches.push(s);
                },
                _ => {},
            }
            proof {
                assert(self.state@ is MoreInputRequired);
                let pm2 = self.state@->MoreInputRequired_0;
                assert(pm2.len() == old_pm.len() + 1);
                assert forall|k: int| 0 <= k < pm2.len() implies pm2[k] == old_pm.push(s@)[k] by {
                    match &self.state {
                        LineBufferResult::MoreInputRequired { prefix_matches } => {
                            assert(pm2[k] == prefix_matches@[k]@);
                        },
                        _ => {},
                    }
                }
                assert(pm2 =~= old_pm.push(s@));
            }
        }
    }
}

impl CliLineMatcher {
    /// Finish with the line matching, consume the matcher.
    ///
    /// A terminal result comes back unchanged; an execute pass without a
    /// match ends in `NoMatchFound`; an autocomplete pass reduces the
    /// accumulated candidates.
    pub fn finish(self) -> (r: LineBufferResult)
        requires
            self.wf(),
        ensures
            r@ == finish_model(self.state_model(), self.mode_spec(), self.line_spec(), self.sep_spec()),
    {
        match self.state {
            LineBufferResult::NoMatchFound => LineBufferResult::NoMatchFound,
            p @ LineBufferResult::Match { .. } => p,
            p @ LineBufferResult::Autocomplete { .. } => p,
            LineBufferResult::MoreInputRequired { prefix_matches } => {
                if matches!(self.mode, LineMatcherMode::AutocompleteOnly) {
                    let result = reduce(self.line.as_slice(), self.path_separator, prefix_matches);
                    LineBufferResult::Autocomplete { result }
                } else {
                    LineBufferResult::NoMatchFound
                }
            },
        }
    }
}

/// Where the display part of one candidate starts, as `display_start` has
/// it.
fn display_start_bytes(line: &[u8], cand: &[u8], sep: Option<u8>) -> (r: usize)
    ensures
        r as int == display_start(line@, cand@, sep),
        r <= cand@.len(),
{
    let line_len = line.len();
    let cand_len = cand.len();
    match sep {
        None => 0,
        Some(s) => {
            proof {
                lemma_rfind_props(line@, s);
                lemma_rfind_props(cand@, s);
            }
            match (rfind_byte(line, s), rfind_byte(cand, s)) {
                (Some(l), Some(r)) => {
                    proof {
                        assert(l < line_len);
                        assert(r < cand_len);
                    }
                    let p = if l <= r {
                        l + 1
                    } else {
                        r + 1
                    };
                    if cand_len > p {
                        p
                    } else {
                        0
                    }
                },
                _ => 0,
            }
        },
    }
}

/// Build the suggestion for one candidate of a multi-candidate listing.
fn make_suggestion(line: &[u8], cand: &[u8], sep: Option<u8>) -> (r: AutocompleteLine)
    requires
        line@.len() <= cand@.len(),
    ensures
        r@ == suggestion_model(line@, cand@, sep),
{
    let ds = display_start_bytes(line, cand, sep);
    let r = AutocompleteLine {
        full_new_line: bytes_range(cand, 0, cand.len()),
        additional_part: bytes_range(cand, line.len(), cand.len()),
        display_part: bytes_range(cand, ds, cand.len()),
    };
    proof {
        assert(r@.full =~= cand@);
        assert(r@.additional =~= cand@.skip(line@.len() as int));
        assert(r@.display =~= cand@.skip(display_start(line@, cand@, sep)));
    }
    r
}

/// Sort candidate strings lexicographically.
fn sort_candidates(input: Vec<Vec<u8>>) -> (r: Vec<Vec<u8>>)
    ensures
        r.deep_view() == input.deep_view().sort_by(lex_leq()),
{
    broadcast use vstd::multiset::group_multiset_axioms;

    let ghost orig = input.deep_view();
    let mut rem = input;
    let mut out: Vec<Vec<u8>> = Vec::new();
    proof {
        assert(out.deep_view() + rem.deep_view() =~= orig);
    }
    while rem.len() > 0
        invariant
            (out.deep_view() + rem.deep_view()).to_multiset() == orig.to_multiset(),
            forall|i: int, j: int|
                0 <= i < j < out.deep_view().len() ==> lex_le(
                    #[trigger] out.deep_view()[i],
                    #[trigger] out.deep_view()[j],
                ),
            forall|i: int, j: int|
                0 <= i < out.deep_view().len() && 0 <= j < rem.deep_view().len() ==> lex_le(
                    #[trigger] out.deep_view()[i],
                    #[trigger] rem.deep_view()[j],
                ),
        decreases rem@.len(),
    {
        let ghost rem0 = rem.deep_view();
        let ghost out0 = out.deep_view();
        let mut best: usize = 0;
        let mut k: usize = 1;
        proof {
            lemma_lex_le_refl(rem0[0]);
        }
        while k < rem.len()
            invariant
                rem.deep_view() == rem0,
                rem@.len() > 0,
                best < k <= rem@.len(),
                forall|j: int| 0 <= j < k ==> lex_le(rem0[best as int], #[trigger] rem0[j]),
            decreases rem@.len() - k,
        {
            proof {
                assert(rem0[best as int] == rem@[best as int]@);
                assert(rem0[k as int] == rem@[k as int]@);
            }
            if lex_le_bytes(rem[k].as_slice(), rem[best].as_slice()) {
                proof {
                    assert forall|j: int| 0 <= j < k + 1 implies lex_le(
                        rem0[k as int],
                        #[trigger] rem0[j],
                    ) by {
                        if j < k {
                            lemma_lex_le_trans(rem0[k as int], rem0[best as int], rem0[j]);
                        } else if j == k {
                            lemma_lex_le_refl(rem0[k as int]);
                        }
                    }
                }
                best = k;
            } else {
                proof {
                    lemma_lex_le_connected(rem0[best as int], rem0[k as int]);
                }
            }
            k += 1;
        }
        let x = rem.remove(best);
        proof {
            assert(x@ == rem0[best as int]);
            assert(rem.deep_view() =~= rem0.remove(best as int)) by {
                assert forall|m: int| 0 <= m < rem.deep_view().len() implies rem.deep_view()[m]
                    == rem0.remove(best as int)[m] by {
                    assert(rem.deep_view()[m] == rem@[m]@);
                }
            }
            rem0.to_multiset_ensures();
            out0.to_multiset_ensures();
            assert(rem.deep_view().to_multiset() =~= rem0.to_multiset().remove(x@));
        }
        out.push(x);
        proof {
            assert(out.deep_view() =~= out0.push(x@)) by {
                assert forall|m: int| 0 <= m < out.deep_view().len() implies out.deep_view()[m]
                    == out0.push(x@)[m] by {
                    assert(out.deep_view()[m] == out@[m]@);
                }
            }
            assert(out.deep_view().to_multiset() =~= out0.to_multiset().insert(x@));
            assert((out.deep_view() + rem.deep_view()).to_multiset() =~= orig.to_multiset()) by {
                rem0.to_multiset_ensures();
                assert(rem0.contains(x@));
                assert(rem0.to_multiset().count(x@) > 0);
                vstd::seq_lib::lemma_multiset_commutative(out.deep_view(), rem.deep_view());
                vstd::seq_lib::lemma_multiset_commutative(out0, rem0);
                assert(out0.to_multiset().insert(x@).add(rem0.to_multiset().remove(x@))
                    =~= out0.to_multiset().add(rem0.to_multiset()));
            }
            assert forall|i: int, j: int|
                0 <= i < j < out.deep_view().len() implies lex_le(
                #[trigger] out.deep_view()[i],
                #[trigger] out.deep_view()[j],
            ) by {
                if j < out0.len() {
                    assert(lex_le(out0[i], out0[j]));
                } else {
                    assert(out.deep_view()[j] == x@);
                    assert(lex_le(out0[i], rem0[best as int]));
                }
            }
            assert forall|i: int, j: int|
                0 <= i < out.deep_view().len() && 0 <= j < rem.deep_view().len() implies lex_le(
                #[trigger] out.deep_view()[i],
                #[trigger] rem.deep_view()[j],
            ) by {
                let r2 = rem.deep_view();
                assert(r2 =~= rem0.remove(best as int));
                assert(r2[j] == if j < best { rem0[j] } else { rem0[j + 1] });
                if i < out0.len() {
                    assert(lex_le(out0[i], r2[j]));
                } else {
                    assert(out.deep_view()[i] == x@);
                    assert(lex_le(rem0[best as int], r2[j]));
                }
            }
        }
    }
    proof {
        assert(out.deep_view() + rem.deep_view() =~= out.deep_view());
        assert(out.deep_view().to_multiset() == orig.to_multiset());
        lemma_lex_le_total_ordering();
        orig.lemma_sort_by_ensures(lex_leq());
        assert(sorted_by(out.deep_view(), lex_leq())) by {
            assert forall|i: int, j: int|
                0 <= i < j < out.deep_view().len() implies #[trigger] (lex_leq())(
                out.deep_view()[i],
                out.deep_view()[j],
            ) by {
                assert(lex_le(out.deep_view()[i], out.deep_view()[j]));
            }
        }
        vstd::seq_lib::lemma_sorted_unique(out.deep_view(), orig.sort_by(lex_leq()), lex_leq());
        assert(out.deep_view() == orig.sort_by(lex_leq()));
    }
    out
}

/// Reduce the accumulated candidates against the typed line.
fn reduce(line: &[u8], sep: Option<u8>, cands: Vec<Vec<u8>>) -> (r: AutocompleteResult)
    requires
        forall|i: int|
            0 <= i < cands.deep_view().len() ==> line@.is_prefix_of(#[trigger] cands.deep_view()[i]),
    ensures
        r@ == reduce_model(cands.deep_view(), line@, sep),
{
    let ghost cs = cands.deep_view();
    if cands.len() == 0 {
        return AutocompleteResult::NoSuggestion;
    }
    if cands.len() == 1 {
        let c = &cands[0];
        proof {
            assert(cs[0] == cands@[0]@);
            assert(cs[0].len() >= line@.len());
        }
        let l = AutocompleteLine {
            full_new_line: bytes_range(c.as_slice(), 0, c.len()),
            additional_part: bytes_range(c.as_slice(), line.len(), c.len()),
            display_part: bytes_range(c.as_slice(), 0, c.len()),
        };
        proof {
            assert(l@.full =~= cs[0]);
            assert(l@.additional =~= cs[0].skip(line@.len() as int));
            assert(l@.display =~= cs[0]);
        }
        return AutocompleteResult::SingleMatch { line: l };
    }

    proof {
        assert forall|j: int|
            0 <= j < cs.len() implies line@.len() <= (#[trigger] cs[j]).len() && cs[j].take(
            line@.len() as int,
        ) =~= cs[0].take(line@.len() as int) by {
            assert(line@.is_prefix_of(cs[j]));
            assert(line@.is_prefix_of(cs[0]));
        }
        lemma_lcp_max(cs, line@.len() as int);
        lemma_lcp_prefix(cs);
    }

    let lcp = longest_common_prefix(cands.as_slice());
    match lcp {
        Some(p) if p.len() != line.len() => {
            proof {
                assert(p@.len() > line@.len());
            }
            let l = AutocompleteLine {
                full_new_line: bytes_range(p.as_slice(), 0, p.len()),
                additional_part: bytes_range(p.as_slice(), line.len(), p.len()),
                display_part: bytes_range(p.as_slice(), 0, p.len()),
            };
            proof {
                assert(l@.full =~= lcp_of(cs));
                assert(l@.additional =~= lcp_of(cs).skip(line@.len() as int));
                assert(l@.display =~= lcp_of(cs));
            }
            AutocompleteResult::SingleMatch { line: l }
        },
        _ => {
            proof {
                assert(lcp_len(cs) == line@.len());
            }
            let sorted = sort_candidates(cands);
            let ghost ss = cs.sort_by(lex_leq());
            proof {
                lemma_lex_le_total_ordering();
                cs.lemma_sort_by_ensures(lex_leq());
                broadcast use vstd::seq_lib::group_to_multiset_ensures;

                assert forall|j: int| 0 <= j < ss.len() implies line@.is_prefix_of(
                    #[trigger] ss[j],
                ) by {
                    assert(ss.to_multiset().count(ss[j]) > 0);
                    assert(cs.contains(ss[j]));
                    let i = choose|i: int| 0 <= i < cs.len() && cs[i] == ss[j];
                    assert(line@.is_prefix_of(cs[i]));
                }
            }
            let mut lines: Vec<AutocompleteLine> = Vec::new();
            let mut i: usize = 0;
            while i < sorted.len()
                invariant
                    sorted.deep_view() == ss,
                    forall|j: int| 0 <= j < ss.len() ==> line@.is_prefix_of(#[trigger] ss[j]),
                    i <= sorted@.len(),
                    lines@.len() == i,
                    forall|j: int|
                        0 <= j < i ==> (#[trigger] lines@[j])@ == suggestion_model(line@, ss[j], sep),
                decreases sorted@.len() - i,
            {
                proof {
                    assert(ss[i as int] == sorted@[i as int]@);
                }
                let l = make_suggestion(line, sorted[i].as_slice(), sep);
                lines.push(l);
                i += 1;
            }
            let r = AutocompleteResult::MultipleMatches { lines };
            proof {
                assert(r@->MultipleMatches_0 =~= ss.map_values(|c: Seq<u8>| suggestion_model(line@, c, sep)));
            }
            r
        },
    }
}

/// What registering one candidate pattern makes of the matcher state: in
/// autocomplete mode a pattern that extends the typed line joins the
/// candidates; anything else changes nothing.
pub open spec fn candidate_step(
    state: LineBufferModel,
    mode: LineMatcherMode,
    line: Seq<u8>,
    sep: Option<u8>,
    cmd: Seq<u8>,
) -> LineBufferModel {
    match state {
        LineBufferModel::MoreInputRequired(pm) => {
            if mode == LineMatcherMode::AutocompleteOnly && cmd.len() > 0 && line.is_prefix_of(cmd) {
                LineBufferModel::MoreInputRequired(
                    push_candidate(pm, autocomplete_candidate(line, cmd, sep)),
                )
            } else {
                state
            }
        },
        _ => state,
    }
}

/// Whether a single-match suggestion extends the typed line: its full text
/// starts with the line and its additional part is exactly the rest.
pub open spec fn suggestion_extends(line: Seq<u8>, am: AutocompleteResultModel) -> bool {
    match am {
        AutocompleteResultModel::SingleMatch(m) => line.is_prefix_of(m.full) && m.additional
            == m.full.skip(line.len() as int),
        _ => true,
    }
}

/// The reducer only ever offers single matches that extend the typed line:
/// a lone candidate extends it by the matcher's own accounting, and a
/// collapsed common prefix is at least as long as the line it agrees with.
pub proof fn lemma_reduce_single_extends(cands: Seq<Seq<u8>>, line: Seq<u8>, sep: Option<u8>)
    requires
        forall|i: int|
            0 <= i < cands.len() ==> (#[trigger] cands[i]).len() > 0 && line.is_prefix_of(
                cands[i],
            ),
    ensures
        suggestion_extends(line, reduce_model(cands, line, sep)),
{
    let rm = reduce_model(cands, line, sep);
    if cands.len() == 1 {
        assert(line.is_prefix_of(cands[0]));
    } else if cands.len() >= 2 && lcp_len(cands) > line.len() {
        assert forall|j: int|
            0 <= j < cands.len() implies line.len() <= (#[trigger] cands[j]).len() && cands[
            j
        ].take(line.len() as int) =~= cands[0].take(line.len() as int) by {
            assert(line.is_prefix_of(cands[j]));
            assert(line.is_prefix_of(cands[0]));
        }
        lemma_lcp_max(cands, line.len() as int);
        lemma_lcp_prefix(cands);
        let p = lcp_of(cands);
        assert(line.is_prefix_of(p)) by {
            assert forall|x: int| 0 <= x < line.len() implies p[x] == line[x] by {
                assert(cands[0].take(line.len() as int)[x] == line[x]);
            }
            assert(p.subrange(0, line.len() as int) =~= line);
        }
    }
}

/// At-most-one-match: once a pass has committed to a match, every further
/// pattern check is skipped and changes nothing, and finishing the pass
/// returns that same match.
pub proof fn lemma_at_most_one_match(
    state: LineBufferModel,
    mode: LineMatcherMode,
    line: Seq<u8>,
    sep: Option<u8>,
    cmd: Seq<u8>,
)
    requires
        state is Match,
    ensures
        step_progress(state, mode, line, cmd) == LineMatcherProgress::Skipped,
        step_state(state, mode, line, sep, cmd) == state,
        finish_model(state, mode, line, sep) == state,
{
}

/// Ambiguous-prefix reduction: candidates that share a common prefix
/// strictly longer than the typed line collapse to a single suggestion
/// holding exactly that prefix; when the common prefix says no more than
/// the typed line, every candidate comes back, sorted lexicographically,
/// each with its path-aware display part.
pub proof fn lemma_ambiguous_prefix_reduction(cands: Seq<Seq<u8>>, line: Seq<u8>, sep: Option<u8>)
    requires
        cands.len() >= 2,
        forall|i: int| 0 <= i < cands.len() ==> line.is_prefix_of(#[trigger] cands[i]),
    ensures
        line.len() <= lcp_len(cands),
        lcp_len(cands) > line.len() ==> reduce_model(cands, line, sep)
            == AutocompleteResultModel::SingleMatch(
            AutocompleteLineModel {
                full: lcp_of(cands),
                additional: lcp_of(cands).skip(line.len() as int),
                display: lcp_of(cands),
            },
        ),
        lcp_len(cands) == line.len() ==> (reduce_model(cands, line, sep) matches
            AutocompleteResultModel::MultipleMatches(ms) && {
            let fulls = ms.map_values(|m: AutocompleteLineModel| m.full);
            &&& ms.len() == cands.len()
            &&& fulls.to_multiset() == cands.to_multiset()
            &&& (forall|i: int, j: int| 0 <= i < j < fulls.len() ==> lex_le(
                #[trigger] fulls[i],
                #[trigger] fulls[j],
            ))
            &&& forall|i: int|
                0 <= i < ms.len() ==> #[trigger] ms[i] == suggestion_model(line, fulls[i], sep)
        }),
{
    assert forall|j: int|
        0 <= j < cands.len() implies line.len() <= (#[trigger] cands[j]).len() && cands[j].take(
        line.len() as int,
    ) =~= cands[0].take(line.len() as int) by {
        assert(line.is_prefix_of(cands[j]));
        assert(line.is_prefix_of(cands[0]));
    }
    lemma_lcp_max(cands, line.len() as int);
    if lcp_len(cands) == line.len() {
        lemma_lex_le_total_ordering();
        cands.lemma_sort_by_ensures(lex_leq());
        let ss = cands.sort_by(lex_leq());
        let ms = ss.map_values(|c: Seq<u8>| suggestion_model(line, c, sep));
        let fulls = ms.map_values(|m: AutocompleteLineModel| m.full);
        assert(fulls =~= ss) by {
            assert forall|i: int| 0 <= i < fulls.len() implies fulls[i] == ss[i] by {
                assert(ms[i] == suggestion_model(line, ss[i], sep));
            }
        }
        assert(vstd::relations::sorted_by(ss, lex_leq()));
        assert forall|i: int, j: int| 0 <= i < j < fulls.len() implies lex_le(
            #[trigger] fulls[i],
            #[trigger] fulls[j],
        ) by {
            assert(lex_leq()(ss[i], ss[j]));
        }
        assert(ms.len() == cands.len()) by {
            cands.to_multiset_ensures();
            ss.to_multiset_ensures();
        }
        assert(fulls.to_multiset() == cands.to_multiset()) by {
            assert(fulls == ss);
        }
        assert forall|i: int|
            0 <= i < ms.len() implies #[trigger] ms[i] == suggestion_model(line, fulls[i], sep) by {
            assert(ms[i] == suggestion_model(line, ss[i], sep));
            assert(fulls[i] == ss[i]);
        }
        assert(reduce_model(cands, line, sep) == AutocompleteResultModel::MultipleMatches(ms));
    }
}

} // verus!
