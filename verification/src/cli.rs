//! Helper for matching commands and properties against an input line: the
//! executor that a registry callback drives once per matching pass.

use vstd::prelude::*;
use crate::autocomplete::{
    candidate_step, match_args, step_progress, step_state, CliLineMatcher, LineBufferResult,
    LineMatcherProgress,
};
use crate::cli_command::CommandContext;
use crate::cli_property::{
    fmt_or_empty, PropertyCommandStyle, PropertyContext, PropertyContextCommon, PropertyContextGet,
    PropertyContextSet,
};
use crate::i18n::Strings;
use crate::property::{trim_spec, trim_bytes, PropertyValidationError, ValueInput, ValueOutput};
use crate::terminal::CharacterTerminalWriter;
use crate::utils::{append_bytes, ascii_bytes, bytes_range, concat_bytes, str_to_bytes};

verus! {

/// The pattern that retrieves a property.
pub open spec fn get_pattern(id: Seq<u8>) -> Seq<u8> {
    id + ascii_bytes("/get"@)
}

/// The pattern that updates a property.
pub open spec fn set_pattern(id: Seq<u8>) -> Seq<u8> {
    id + ascii_bytes("/set"@)
}

/// The message printed when a property value is refused.
pub open spec fn property_error_message<V, O: ValueOutput<V>, S: Strings>(
    e: PropertyValidationError<V>,
    id: Seq<u8>,
    args: Seq<u8>,
    output: O,
    strings: S,
) -> Seq<u8> {
    match e {
        PropertyValidationError::InvalidInput => strings.property_invalid_value_spec(id, args),
        PropertyValidationError::ValueTooSmall { min, val } => strings.property_value_too_small_spec(
            id,
            fmt_or_empty(output.output_spec(val)),
            fmt_or_empty(output.output_spec(min)),
        ),
        PropertyValidationError::ValueTooBig { max, val } => strings.property_value_too_big_spec(
            id,
            fmt_or_empty(output.output_spec(val)),
            fmt_or_empty(output.output_spec(max)),
        ),
    }
}

/// Helper for matching commands and properties against an input line.
pub struct CliExecutor {
    matcher: CliLineMatcher,
}

/// The command/property registry: a caller-supplied callback that walks
/// every registered pattern once per matching pass.
///
/// The caller hands in a well-formed executor.  An implementation may only
/// drive it and write output, so the matcher stays well formed, the pass
/// keeps its line and mode, and terminal output only grows.
pub trait CliRegistry<W: CharacterTerminalWriter> {
    fn call_commands(&mut self, executor: &mut CliExecutor, terminal: &mut W)
        requires
            old(executor).wf(),
        ensures
            final(executor).wf(),
            final(executor).matcher_spec().unchanged_config(&old(executor).matcher_spec()),
            old(terminal).written().is_prefix_of(final(terminal).written()),
            final(terminal).newline_bytes() == old(terminal).newline_bytes(),
    ;
}

impl CliExecutor {
    /// The matcher this executor drives.
    pub closed spec fn matcher_spec(&self) -> CliLineMatcher {
        self.matcher
    }

    /// The matcher's candidates stay well formed.
    pub open spec fn wf(&self) -> bool {
        self.matcher_spec().wf()
    }

    /// Wrap a matcher for one matching pass.
    pub fn new(matcher: CliLineMatcher) -> (e: CliExecutor)
        ensures
            e.matcher_spec() == matcher,
    {
        CliExecutor { matcher }
    }

    /// Finish the execution of this line invocation.
    pub fn close(self) -> (m: CliLineMatcher)
        ensures
            m == self.matcher_spec(),
    {
        self.matcher
    }

    /// Announce a command; an execution context comes back exactly when the
    /// command is invoked by the line under scrutiny.
    pub fn command(&mut self, cmd: &[u8]) -> (r: Option<CommandContext>)
        requires
            old(self).wf(),
        ensures
            final(self).wf(),
            final(self).matcher_spec().unchanged_config(&old(self).matcher_spec()),
            final(self).matcher_spec().state_model() == step_state(
                old(self).matcher_spec().state_model(),
                old(self).matcher_spec().mode_spec(),
                old(self).matcher_spec().line_spec(),
                old(self).matcher_spec().sep_spec(),
                cmd@,
            ),
            match r {
                Some(ctx) => step_progress(
                    old(self).matcher_spec().state_model(),
                    old(self).matcher_spec().mode_spec(),
                    old(self).matcher_spec().line_spec(),
                    cmd@,
                ) == LineMatcherProgress::MatchFound && ctx.args@ == match_args(
                    old(self).matcher_spec().line_spec(),
                    cmd@,
                ) && ctx.current_path@ == Seq::<u8>::empty(),
                None => step_progress(
                    old(self).matcher_spec().state_model(),
                    old(self).matcher_spec().mode_spec(),
                    old(self).matcher_spec().line_spec(),
                    cmd@,
                ) != LineMatcherProgress::MatchFound,
            },
    {
        let p = self.matcher.match_cmd_str(cmd, None);
        if matches!(p, LineMatcherProgress::MatchFound) {
            let args: Vec<u8> = match self.matcher.get_state() {
                LineBufferResult::Match { args } => bytes_range(args.as_slice(), 0, args.len()),
                _ => Vec::new(),
            };
            proof {
                assert(args@ =~= match_args(old(self).matcher_spec().line_spec(), cmd@));
            }
            let ctx = CommandContext { args, current_path: Vec::new() };
            proof {
                assert(ctx.current_path@ =~= Seq::<u8>::empty());
            }
            Some(ctx)
        } else {
            None
        }
    }

    /// Announce a property that can be read with `<id>/get` and written
    /// with `<id>/set <value>`.
    ///
    /// On a matched set, the raw arguments are trimmed and parsed at once:
    /// a value that parses comes back in the context, and one that does not
    /// is reported to the terminal, consuming the match.
    pub fn property<V: Copy, P: ValueInput<V>, O: ValueOutput<V>, S: Strings, W: CharacterTerminalWriter>(
        &mut self,
        property_id: &[u8],
        input_parser: &P,
        output: &O,
        strings: &S,
        terminal: &mut W,
    ) -> (r: Option<PropertyContext<V>>)
        requires
            old(self).wf(),
        ensures
            final(self).wf(),
            final(self).matcher_spec().unchanged_config(&old(self).matcher_spec()),
            final(terminal).newline_bytes() == old(terminal).newline_bytes(),
            ({
                let st0 = old(self).matcher_spec().state_model();
                let mode = old(self).matcher_spec().mode_spec();
                let line = old(self).matcher_spec().line_spec();
                let sep = old(self).matcher_spec().sep_spec();
                let gp = get_pattern(property_id@);
                let spt = set_pattern(property_id@);
                let s1 = step_state(st0, mode, line, sep, gp);
                if step_progress(st0, mode, line, gp) == LineMatcherProgress::MatchFound {
                    &&& final(self).matcher_spec().state_model() == s1
                    &&& final(terminal).written() == old(terminal).written()
                    &&& (r matches Some(ctx) && ctx matches PropertyContext::Get(g)
                        && g.common.args@ == match_args(line, gp) && g.common.id@ == property_id@)
                } else {
                    let s2 = step_state(s1, mode, line, sep, spt);
                    if step_progress(s1, mode, line, spt) == LineMatcherProgress::MatchFound {
                        let targs = trim_spec(match_args(line, spt));
                        match input_parser.input_spec(targs) {
                            Ok(v) => {
                                &&& final(self).matcher_spec().state_model() == s2
                                &&& final(terminal).written() == old(terminal).written()
                                &&& (r matches Some(ctx) && ctx matches PropertyContext::SetValue(sc)
                                    && sc.value == v && sc.common.args@ == targs && sc.common.id@
                                    == property_id@)
                            },
                            Err(e) => {
                                &&& final(self).matcher_spec().state_model() == s2
                                &&& final(terminal).written() == old(terminal).written()
                                    + property_error_message(e, property_id@, targs, *output, *strings)
                                    + old(terminal).newline_bytes()
                                &&& r is None
                            },
                        }
                    } else {
                        &&& final(self).matcher_spec().state_model() == s2
                        &&& final(terminal).written() == old(terminal).written()
                        &&& r is None
                    }
                }
            }),
    {
        proof {
            reveal_strlit("/get");
            reveal_strlit("/set");
        }
        let get_suffix = str_to_bytes("/get");
        let id_get = concat_bytes(property_id, get_suffix.as_slice());
        proof {
            assert(id_get@ == get_pattern(property_id@));
        }
        let p1 = self.matcher.match_cmd_str(id_get.as_slice(), None);
        if matches!(p1, LineMatcherProgress::MatchFound) {
            let args: Vec<u8> = match self.matcher.get_state() {
                LineBufferResult::Match { args } => bytes_range(args.as_slice(), 0, args.len()),
                _ => Vec::new(),
            };
            proof {
                assert(args@ =~= match_args(
                    old(self).matcher_spec().line_spec(),
                    get_pattern(property_id@),
                ));
            }
            let mut idv: Vec<u8> = Vec::new();
            append_bytes(&mut idv, property_id);
            return Some(
                PropertyContext::Get(
                    PropertyContextGet {
                        common: PropertyContextCommon {
                            args,
                            current_path: Vec::new(),
                            id: idv,
                            style: PropertyCommandStyle::DelimitedGetSet,
                        },
                    },
                ),
            );
        }

        let set_suffix = str_to_bytes("/set");
        let id_set = concat_bytes(property_id, set_suffix.as_slice());
        proof {
            assert(id_set@ == set_pattern(property_id@));
        }
        let p2 = self.matcher.match_cmd_str(id_set.as_slice(), None);
        if matches!(p2, LineMatcherProgress::MatchFound) {
            let raw: Vec<u8> = match self.matcher.get_state() {
                LineBufferResult::Match { args } => bytes_range(args.as_slice(), 0, args.len()),
                _ => Vec::new(),
            };
            proof {
                assert(raw@ =~= match_args(
                    old(self).matcher_spec().line_spec(),
                    set_pattern(property_id@),
                ));
            }
            let targs = trim_bytes(raw.as_slice());
            match input_parser.input(targs.as_slice()) {
                Ok(val) => {
                    let mut idv: Vec<u8> = Vec::new();
                    append_bytes(&mut idv, property_id);
                    return Some(
                        PropertyContext::SetValue(
                            PropertyContextSet {
                                common: PropertyContextCommon {
                                    args: targs,
                                    current_path: Vec::new(),
                                    id: idv,
                                    style: PropertyCommandStyle::DelimitedGetSet,
                                },
                                value: val,
                            },
                        ),
                    );
                },
                Err(e) => {
                    let msg: Vec<u8> = match e {
                        PropertyValidationError::InvalidInput => strings.property_invalid_value(
                            property_id,
                            targs.as_slice(),
                        ),
                        PropertyValidationError::ValueTooSmall { min, val } => {
                            let vb: Vec<u8> = match output.output(&val) {
                                Ok(b) => b,
                                Err(u) => Vec::new(),
                            };
                            let mb: Vec<u8> = match output.output(&min) {
                                Ok(b) => b,
                                Err(u) => Vec::new(),
                            };
                            strings.property_value_too_small(
                                property_id,
                                vb.as_slice(),
                                mb.as_slice(),
                            )
                        },
                        PropertyValidationError::ValueTooBig { max, val } => {
                            let vb: Vec<u8> = match output.output(&val) {
                                Ok(b) => b,
                                Err(u) => Vec::new(),
                            };
                            let mb: Vec<u8> = match output.output(&max) {
                                Ok(b) => b,
                                Err(u) => Vec::new(),
                            };
                            strings.property_value_too_big(
                                property_id,
                                vb.as_slice(),
                                mb.as_slice(),
                            )
                        },
                    };
                    terminal.print(msg.as_slice());
                    terminal.print_newline_sequence();
                    return None;
                },
            }
        }
        None
    }

    /// Create a prefixed execution context, but only when the current line
    /// starts with the prefix; otherwise the prefix itself becomes an
    /// autocomplete candidate.  Reduces the processing overhead for large
    /// command tree environments.
    pub fn with_prefix(&mut self, prefix: &[u8]) -> (r: Option<PrefixedExecutor>)
        requires
            old(self).wf(),
        ensures
            final(self).wf(),
            final(self).matcher_spec().unchanged_config(&old(self).matcher_spec()),
            match r {
                Some(p) => prefix@.is_prefix_of(old(self).matcher_spec().line_spec())
                    && p.prefix_spec() == prefix@ && final(self).matcher_spec().state_model() == old(self).matcher_spec().state_model(),
                None => !prefix@.is_prefix_of(old(self).matcher_spec().line_spec()) && final(self).matcher_spec().state_model() == candidate_step(
                    old(self).matcher_spec().state_model(),
                    old(self).matcher_spec().mode_spec(),
                    old(self).matcher_spec().line_spec(),
                    old(self).matcher_spec().sep_spec(),
                    prefix@,
                ),
            },
    {
        if self.matcher.starts_with(prefix) {
            let mut p: Vec<u8> = Vec::new();
            append_bytes(&mut p, prefix);
            Some(PrefixedExecutor { prefix: p })
        } else {
            self.matcher.add_unmatched_prefix(prefix);
            None
        }
    }
}

/// An execution context whose commands all carry a fixed prefix.
pub struct PrefixedExecutor {
    prefix: Vec<u8>,
}

impl PrefixedExecutor {
    /// The prefix put in front of every pattern.
    pub closed spec fn prefix_spec(&self) -> Seq<u8> {
        self.prefix@
    }

    /// The prefixed form of a pattern.
    fn add_prefix(&self, cmd: &[u8]) -> (r: Vec<u8>)
        ensures
            r@ == self.prefix_spec() + cmd@,
    {
        concat_bytes(self.prefix.as_slice(), cmd)
    }

    /// As `CliExecutor::command`, with the prefix in front.
    pub fn command(&self, executor: &mut CliExecutor, cmd: &[u8]) -> (r: Option<CommandContext>)
        requires
            old(executor).wf(),
        ensures
            final(executor).wf(),
            final(executor).matcher_spec().unchanged_config(&old(executor).matcher_spec()),
            final(executor).matcher_spec().state_model() == step_state(
                old(executor).matcher_spec().state_model(),
                old(executor).matcher_spec().mode_spec(),
                old(executor).matcher_spec().line_spec(),
                old(executor).matcher_spec().sep_spec(),
                self.prefix_spec() + cmd@,
            ),
            match r {
                Some(ctx) => step_progress(
                    old(executor).matcher_spec().state_model(),
                    old(executor).matcher_spec().mode_spec(),
                    old(executor).matcher_spec().line_spec(),
                    self.prefix_spec() + cmd@,
                ) == LineMatcherProgress::MatchFound && ctx.args@ == match_args(
                    old(executor).matcher_spec().line_spec(),
                    self.prefix_spec() + cmd@,
                ),
                None => step_progress(
                    old(executor).matcher_spec().state_model(),
                    old(executor).matcher_spec().mode_spec(),
                    old(executor).matcher_spec().line_spec(),
                    self.prefix_spec() + cmd@,
                ) != LineMatcherProgress::MatchFound,
            },
    {
        let full = self.add_prefix(cmd);
        executor.command(full.as_slice())
    }

    /// As `CliExecutor::with_prefix`, with this prefix in front of the new
    /// one.
    pub fn with_prefix(&self, executor: &mut CliExecutor, prefix: &[u8]) -> (r: Option<
        PrefixedExecutor,
    >)
        requires
            old(executor).wf(),
        ensures
            final(executor).wf(),
            final(executor).matcher_spec().unchanged_config(&old(executor).matcher_spec()),
            match r {
                Some(p) => p.prefix_spec() == self.prefix_spec() + prefix@,
                None => !(self.prefix_spec() + prefix@).is_prefix_of(
                    old(executor).matcher_spec().line_spec(),
                ),
            },
    {
        let full = self.add_prefix(prefix);
        executor.with_prefix(full.as_slice())
    }
}

} // verus!
