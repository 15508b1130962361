//! Matching: applying a compiled schema's composed pattern to an input
//! string and routing every captured slot back to the field that owns it.
//!
//! The regular-expression engine itself is an outside collaborator; the
//! wrappers below state what its calls return, and everything around them
//! is verified.

use vstd::prelude::*;
use crate::schema::compile;
use crate::schema::field_names;
use crate::schema::field_widths;
use crate::schema::distinct_names;
use crate::schema::schema_map;
use crate::schema::substituted;
use crate::schema::surviving;
use crate::schema::CompileError;
use crate::schema::CompiledSchema;
use crate::schema::Schema;
use crate::schema::SubstOutcome;
use crate::template::placeholder_set;
use crate::schema::lemma_width_sum_monotone;
use crate::schema::names_view;
use crate::schema::width_sum;

verus! {

#[verifier::external_type_specification]
#[verifier::external_body]
pub struct ExRegex(regex::Regex);

/// The pattern string a compiled regular expression was built from.
pub uninterp spec fn regex_pattern(re: regex::Regex) -> Seq<char>;

/// What `regex::Regex::captures` returns for a pattern and a haystack:
/// `None` when the pattern matches nowhere, otherwise one entry per
/// capture group, each the matched text or `None` for a group that took
/// no part in the match.  The engine is deterministic, so this is a
/// function of the pattern and the haystack alone.
pub uninterp spec fn regex_captures_of(pattern: Seq<char>, input: Seq<char>) -> Option<
    Seq<Option<Seq<char>>>,
>;

/// The number of capture groups of a pattern, the implicit whole-match
/// group included.
pub uninterp spec fn regex_group_count(pattern: Seq<char>) -> nat;

/// Whether the engine accepts a pattern.  `regex::Regex::new` is
/// deterministic and is called here with its default configuration, so
/// acceptance is a function of the pattern string alone.
pub uninterp spec fn regex_builds(pattern: Seq<char>) -> bool;

/// Relies on `regex::Regex::new`: deterministic under the default
/// configuration, so it succeeds exactly when the engine accepts the
/// pattern, and on success the returned automaton is built from exactly
/// the given pattern string.
#[verifier::external_body]
fn regex_new(pattern: &str) -> (r: Option<regex::Regex>)
    ensures
        r is Some <==> regex_builds(pattern@),
        r is Some ==> regex_pattern(r.unwrap()) == pattern@,
{
    regex::Regex::new(pattern).ok()
}

/// Relies on `regex::Regex::captures_len`: the number of capture groups
/// in the pattern, which includes the implicit group for the whole match
/// and is therefore at least one.
#[verifier::external_body]
fn regex_captures_len(re: &regex::Regex) -> (n: usize)
    ensures
        n == regex_group_count(regex_pattern(*re)),
        n >= 1,
{
    re.captures_len()
}

/// An optional capture, viewed as an optional character sequence.
pub open spec fn opt_view(o: Option<String>) -> Option<Seq<char>> {
    match o {
        Option::Some(s) => Option::Some(s@),
        Option::None => Option::None,
    }
}

/// A capture array, viewed element by element.
pub open spec fn caps_view(v: Seq<Option<String>>) -> Seq<Option<Seq<char>>> {
    v.map_values(|o: Option<String>| opt_view(o))
}

/// Relies on `regex::Regex::captures` and `regex::Captures::iter`: on a
/// match, one entry per capture group in order, group text or `None`; the
/// number of entries always equals `captures_len`.
#[verifier::external_body]
fn regex_captures(re: &regex::Regex, input: &str) -> (r: Option<Vec<Option<String>>>)
    ensures
        match r {
            Option::None => regex_captures_of(regex_pattern(*re), input@) is None,
            Option::Some(v) => regex_captures_of(regex_pattern(*re), input@) == Option::Some(
                caps_view(v@),
            ) && v@.len() == regex_group_count(regex_pattern(*re)),
        },
{
    re.captures(input).map(|c| c.iter().map(|m| m.map(|x| x.as_str().to_string())).collect())
}

/// The input string did not satisfy the composed pattern.
#[derive(Debug)]
pub struct NoRegexMatch {
    /// The composed pattern the input was held against.
    pub format: String,
    /// The rejected input, verbatim.
    pub request: String,
}

impl NoRegexMatch {
    /// Relies on std's `format!` to render the diagnostic text.
    #[verifier::external_body]
    pub fn message(&self) -> (r: String)
        ensures
            r@.len() > 0,
    {
        format!("String {:?} does not match format r{:?}", self.format, self.request)
    }
}

/// The captures one field owns: the slots of the capture array in the
/// range `[offset, offset + width)` assigned to it.
pub struct FieldCaptures {
    pub name: String,
    pub captures: Vec<Option<String>>,
}

/// A parsed record: for every participating field, in schema order, the
/// captured text it reconstructs itself from.
pub struct Record {
    pub fields: Vec<FieldCaptures>,
}

/// A compiled schema together with the regular expression built from its
/// composed pattern, checked to hold exactly the announced number of
/// capture groups.
pub struct Matcher {
    re: regex::Regex,
    cs: CompiledSchema,
}

impl Matcher {
    /// The composed pattern the matcher was built from.
    pub closed spec fn pattern(self) -> Seq<char> {
        self.cs.pattern@
    }

    /// The participating field names, in schema order.
    pub closed spec fn names(self) -> Seq<Seq<char>> {
        names_view(self.cs.names@)
    }

    /// The capture width of each participating field.
    pub closed spec fn widths(self) -> Seq<usize> {
        self.cs.widths@
    }

    /// The capture offset each participating field owns.
    pub closed spec fn offsets(self) -> Seq<usize> {
        self.cs.offsets@
    }

    /// The total capture width of the composed pattern.
    pub closed spec fn total(self) -> int {
        self.cs.total as int
    }

    /// Well-formed: the automaton was built from the composed pattern,
    /// the pattern holds exactly `total + 1` capture groups, and the
    /// offsets are the prefix sums of the widths starting at 1.
    pub closed spec fn wf(self) -> bool {
        &&& self.cs.wf()
        &&& regex_pattern(self.re) == self.cs.pattern@
        &&& regex_group_count(self.cs.pattern@) == self.cs.total + 1
    }

    /// Build the matcher for a compiled schema.  Succeeds exactly when
    /// the engine accepts the composed pattern and the pattern's real
    /// group count equals the declared total width plus the whole-match
    /// group; fails with `PatternRefused` in the first case and with
    /// `WidthMismatch` in the second — the self-check that keeps a
    /// mis-declared width from silently corrupting unrelated fields.
    pub fn new(cs: CompiledSchema) -> (r: Result<Matcher, CompileError>)
        requires
            cs.wf(),
        ensures
            regex_builds(cs.pattern@) && regex_group_count(cs.pattern@) == cs.total + 1
                ==> r is Ok,
            match r {
                Ok(mt) => {
                    &&& mt.wf()
                    &&& mt.pattern() == cs.pattern@
                    &&& mt.names() == names_view(cs.names@)
                    &&& mt.widths() == cs.widths@
                    &&& mt.offsets() == cs.offsets@
                    &&& mt.total() == cs.total as int
                    &&& regex_builds(cs.pattern@)
                    &&& regex_group_count(cs.pattern@) == cs.total + 1
                },
                Err(e) => match e {
                    CompileError::PatternRefused => !regex_builds(cs.pattern@),
                    CompileError::WidthMismatch => regex_builds(cs.pattern@)
                        && regex_group_count(cs.pattern@) != cs.total + 1,
                    _ => false,
                },
            },
    {
        let re = match regex_new(cs.pattern.as_str()) {
            Option::Some(re) => re,
            Option::None => {
                return Err(CompileError::PatternRefused);
            },
        };
        let n = regex_captures_len(&re);
        if n - 1 != cs.total {
            return Err(CompileError::WidthMismatch);
        }
        Ok(Matcher { re, cs })
    }

    /// Compile a template against a schema and build its matcher in one
    /// step: what a generated record implementation does once per type.
    /// Success is owed whenever the schema names are distinct, every
    /// placeholder resolves and none dangles, the total width fits, the
    /// engine accepts the composed pattern, and that pattern's group
    /// count matches the declared widths; each error names its cause.
    pub fn from_template(template: &str, schema: &Schema) -> (r: Result<Matcher, CompileError>)
        ensures
            ({
                let ws = field_widths(surviving(schema.fields@, placeholder_set(template@)));
                let total = width_sum(ws, ws.len() as int);
                (distinct_names(schema.fields@) && (substituted(
                    template@,
                    schema_map(schema.fields@),
                ) matches SubstOutcome::Done(p) && regex_builds(p) && regex_group_count(p)
                    == total + 1) && total + 1 <= usize::MAX) ==> r is Ok
            }),
            match r {
                Ok(mt) => {
                    &&& mt.wf()
                    &&& distinct_names(schema.fields@)
                    &&& substituted(template@, schema_map(schema.fields@)) == SubstOutcome::Done(
                        mt.pattern(),
                    )
                    &&& regex_builds(mt.pattern())
                    &&& mt.names() == field_names(
                        surviving(schema.fields@, placeholder_set(template@)),
                    )
                    &&& mt.widths() == field_widths(
                        surviving(schema.fields@, placeholder_set(template@)),
                    )
                },
                Err(e) => match e {
                    CompileError::DuplicateFieldName => !distinct_names(schema.fields@),
                    CompileError::UnknownPlaceholder => substituted(
                        template@,
                        schema_map(schema.fields@),
                    ) is Unknown,
                    CompileError::UnterminatedPlaceholder => substituted(
                        template@,
                        schema_map(schema.fields@),
                    ) is Unterminated,
                    CompileError::WidthOverflow => ({
                        let ws = field_widths(
                            surviving(schema.fields@, placeholder_set(template@)),
                        );
                        distinct_names(schema.fields@) && substituted(
                            template@,
                            schema_map(schema.fields@),
                        ) is Done && 1 + width_sum(ws, ws.len() as int) > usize::MAX
                    }),
                    CompileError::PatternRefused => distinct_names(schema.fields@)
                        && (substituted(
                        template@,
                        schema_map(schema.fields@),
                    ) matches SubstOutcome::Done(p) && !regex_builds(p)),
                    CompileError::WidthMismatch => ({
                        let ws = field_widths(
                            surviving(schema.fields@, placeholder_set(template@)),
                        );
                        distinct_names(schema.fields@) && (substituted(
                            template@,
                            schema_map(schema.fields@),
                        ) matches SubstOutcome::Done(p) && regex_builds(p)
                            && regex_group_count(p) != width_sum(ws, ws.len() as int) + 1)
                    }),
                },
            },
    {
        let cs = match compile(template, schema) {
            Ok(cs) => cs,
            Err(e) => {
                return Err(e);
            },
        };
        Matcher::new(cs)
    }

    /// Apply the composed pattern to the input.  The pattern is applied
    /// as given, unanchored; a template that must cover the whole input
    /// says so itself with anchors.  On a match, each
    /// participating field receives, in schema order, exactly the capture
    /// slots `[offset, offset + width)` it owns; on no match, the error
    /// carries the composed pattern and the rejected input verbatim.
    pub fn parse(&self, input: &str) -> (r: Result<Record, NoRegexMatch>)
        requires
            self.wf(),
        ensures
            match r {
                Ok(rec) => {
                    &&& regex_captures_of(self.pattern(), input@) is Some
                    &&& {
                        let caps = regex_captures_of(self.pattern(), input@).unwrap();
                        &&& rec.fields@.len() == self.names().len()
                        &&& forall|i: int|
                            0 <= i < rec.fields@.len() ==> {
                                &&& (#[trigger] rec.fields@[i]).name@ == self.names()[i]
                                &&& caps_view(rec.fields@[i].captures@) == caps.subrange(
                                    self.offsets()[i] as int,
                                    self.offsets()[i] + self.widths()[i],
                                )
                            }
                    }
                },
                Err(e) => {
                    &&& regex_captures_of(self.pattern(), input@) is None
                    &&& e.format@ == self.pattern()
                    &&& e.request@ == input@
                },
            },
    {
        let caps = match regex_captures(&self.re, input) {
            Option::None => {
                return Err(
                    NoRegexMatch { format: self.cs.pattern.clone(), request: input.to_owned() },
                );
            },
            Option::Some(v) => v,
        };
        let ghost spec_caps = caps_view(caps@);
        let nf: usize = self.cs.names.len();
        let mut fields: Vec<FieldCaptures> = Vec::new();
        let mut i: usize = 0;
        while i < nf
            invariant
                self.wf(),
                nf == self.cs.names@.len(),
                spec_caps == caps_view(caps@),
                caps@.len() == self.cs.total + 1,
                regex_captures_of(self.pattern(), input@) == Option::Some(spec_caps),
                0 <= i <= nf,
                fields@.len() == i,
                forall|k: int|
                    0 <= k < i ==> {
                        &&& (#[trigger] fields@[k]).name@ == self.names()[k]
                        &&& caps_view(fields@[k].captures@) == spec_caps.subrange(
                            self.offsets()[k] as int,
                            self.offsets()[k] + self.widths()[k],
                        )
                    },
            decreases nf - i,
        {
            let off: usize = self.cs.offsets[i];
            let w: usize = self.cs.widths[i];
            proof {
                assert(off == 1 + width_sum(self.cs.widths@, i as int));
                assert(width_sum(self.cs.widths@, i as int + 1) == width_sum(
                    self.cs.widths@,
                    i as int,
                ) + w);
                lemma_width_sum_monotone(
                    self.cs.widths@,
                    i as int + 1,
                    self.cs.widths@.len() as int,
                );
                assert(off + w <= caps@.len());
            }
            let mut fc: Vec<Option<String>> = Vec::new();
            let mut j: usize = 0;
            while j < w
                invariant
                    off + w <= caps@.len(),
                    off + w <= usize::MAX,
                    spec_caps == caps_view(caps@),
                    0 <= j <= w,
                    fc@.len() == j,
                    forall|k: int| 0 <= k < j ==> opt_view(#[trigger] fc@[k]) == opt_view(
                        caps@[off + k],
                    ),
                decreases w - j,
            {
                let item: Option<String> = match &caps[off + j] {
                    Option::Some(s) => Option::Some(s.clone()),
                    Option::None => Option::None,
                };
                fc.push(item);
                j += 1;
            }
            proof {
                assert(caps_view(fc@) =~= spec_caps.subrange(off as int, off as int + w as int))
                    by {
                    assert forall|k: int| 0 <= k < w implies caps_view(fc@)[k] == spec_caps
                        .subrange(off as int, off as int + w as int)[k] by {
                        assert(caps_view(fc@)[k] == opt_view(fc@[k]));
                        assert(spec_caps[off + k] == opt_view(caps@[off + k]));
                    }
                }
            }
            let name = self.cs.names[i].clone();
            fields.push(FieldCaptures { name, captures: fc });
            proof {
                assert(names_view(self.cs.names@)[i as int] == self.cs.names@[i as int]@);
            }
            i += 1;
        }
        proof {
            assert(names_view(self.cs.names@).len() == self.cs.names@.len());
        }
        Ok(Record { fields })
    }
}

} // verus!
