//! Schema compilation: substituting each placeholder of a template with
//! the sub-pattern of the field it names, and assigning every
//! participating field the range of capture slots it owns.

use vstd::prelude::*;
use crate::template::arguments;
use crate::template::contains_name;
use crate::template::lemma_names_set_contains;
use crate::template::names_set;
use crate::template::placeholder_set;

verus! {

/// A parsable field type: a regular-expression fragment that contributes
/// exactly `width` capturing groups.
pub struct FieldType {
    pub sub_pattern: String,
    pub width: usize,
}

impl FieldType {
    /// The unsigned-integer leaf: one capture group of decimal digits.
    pub fn unsigned_int() -> (r: FieldType)
        ensures
            r.sub_pattern@ == "(\\d+)"@,
            r.width == 1,
    {
        FieldType { sub_pattern: "(\\d+)".to_owned(), width: 1 }
    }

    /// The signed-integer leaf: one capture group, an optional sign and
    /// decimal digits.
    pub fn signed_int() -> (r: FieldType)
        ensures
            r.sub_pattern@ == "([+-]?\\d+)"@,
            r.width == 1,
    {
        FieldType { sub_pattern: "([+-]?\\d+)".to_owned(), width: 1 }
    }

    /// The floating-point leaf: one capture group for a decimal number
    /// with optional fraction and exponent.
    pub fn float() -> (r: FieldType)
        ensures
            r.sub_pattern@ == "((?:[+-]?\\d+(?:.\\d*)?|.\\d+)(?:[eE][+-]?\\d+)?)"@,
            r.width == 1,
    {
        FieldType {
            sub_pattern: "((?:[+-]?\\d+(?:.\\d*)?|.\\d+)(?:[eE][+-]?\\d+)?)".to_owned(),
            width: 1,
        }
    }

    /// The free-text leaf: one capture group taking anything.
    pub fn text() -> (r: FieldType)
        ensures
            r.sub_pattern@ == "(.*)"@,
            r.width == 1,
    {
        FieldType { sub_pattern: "(.*)".to_owned(), width: 1 }
    }
}

/// One named field of a record schema.
pub struct Field {
    pub name: String,
    pub ty: FieldType,
}

/// An ordered record schema; order decides how capture slots are assigned.
pub struct Schema {
    pub fields: Vec<Field>,
}

/// Why a template refuses to compile against a schema, or a composed
/// pattern refuses to build.
pub enum CompileError {
    /// Two schema fields share a name, so placeholders would be ambiguous.
    DuplicateFieldName,
    /// A placeholder names no field of the schema.
    UnknownPlaceholder,
    /// An open bracket starts a placeholder that never closes.
    UnterminatedPlaceholder,
    /// The capture slots of the fields do not fit in a machine word.
    WidthOverflow,
    /// The regular-expression engine rejects the composed pattern.
    PatternRefused,
    /// The composed pattern holds a different number of capture groups
    /// than the declared field widths announce.
    WidthMismatch,
}

/// The outcome of substituting a template's placeholders.
pub enum SubstOutcome {
    /// The composed pattern.
    Done(Seq<char>),
    /// A placeholder body that names no field.
    Unknown(Seq<char>),
    /// An open bracket was never closed.
    Unterminated,
}

/// Prefix `p` onto a successful substitution; failures pass through.
pub open spec fn prepend(p: Seq<char>, o: SubstOutcome) -> SubstOutcome {
    match o {
        SubstOutcome::Done(s) => SubstOutcome::Done(p + s),
        _ => o,
    }
}

/// The substitution scan from position `i`: outside a placeholder when
/// `ph` is `None`, inside one with the body read so far when `ph` is
/// `Some`.  Doubled brackets turn into single literal brackets, a single
/// open bracket opens a placeholder, and a placeholder body is replaced by
/// `m[body]` when it closes.
pub open spec fn subst_from(
    t: Seq<char>,
    i: int,
    m: Map<Seq<char>, Seq<char>>,
    ph: Option<Seq<char>>,
) -> SubstOutcome
    decreases t.len() - i,
    when 0 <= i <= t.len()
{
    if i >= t.len() {
        match ph {
            Option::None => SubstOutcome::Done(Seq::empty()),
            Option::Some(_) => SubstOutcome::Unterminated,
        }
    } else {
        match ph {
            Option::None => {
                if t[i] == '{' {
                    if i + 1 < t.len() && t[i + 1] == '{' {
                        prepend(seq!['{'], subst_from(t, i + 2, m, Option::None))
                    } else {
                        subst_from(t, i + 1, m, Option::Some(Seq::empty()))
                    }
                } else if t[i] == '}' {
                    if i + 1 < t.len() && t[i + 1] == '}' {
                        prepend(seq!['}'], subst_from(t, i + 2, m, Option::None))
                    } else {
                        prepend(seq!['}'], subst_from(t, i + 1, m, Option::None))
                    }
                } else {
                    prepend(seq![t[i]], subst_from(t, i + 1, m, Option::None))
                }
            },
            Option::Some(name) => {
                if t[i] == '}' {
                    if m.dom().contains(name) {
                        prepend(m[name], subst_from(t, i + 1, m, Option::None))
                    } else {
                        SubstOutcome::Unknown(name)
                    }
                } else {
                    subst_from(t, i + 1, m, Option::Some(name.push(t[i])))
                }
            },
        }
    }
}

/// The composed pattern of a template under a name-to-sub-pattern map.
pub open spec fn substituted(t: Seq<char>, m: Map<Seq<char>, Seq<char>>) -> SubstOutcome {
    subst_from(t, 0, m, Option::None)
}

proof fn lemma_prepend_prepend(p: Seq<char>, q: Seq<char>, o: SubstOutcome)
    ensures
        prepend(p, prepend(q, o)) == prepend(p + q, o),
{
    match o {
        SubstOutcome::Done(s) => {
            assert(p + (q + s) =~= (p + q) + s);
        },
        _ => {},
    }
}

/// No two fields share a name.
pub open spec fn distinct_names(fields: Seq<Field>) -> bool {
    forall|j: int, k: int| 0 <= j < k < fields.len() ==> fields[j].name@ != fields[k].name@
}

/// The name-to-sub-pattern map of a schema.
pub open spec fn schema_map(fields: Seq<Field>) -> Map<Seq<char>, Seq<char>>
    decreases fields.len(),
{
    if fields.len() == 0 {
        Map::empty()
    } else {
        schema_map(fields.drop_last()).insert(
            fields.last().name@,
            fields.last().ty.sub_pattern@,
        )
    }
}

proof fn lemma_schema_map_dom(fields: Seq<Field>, x: Seq<char>)
    ensures
        schema_map(fields).dom().contains(x) <==> exists|j: int|
            0 <= j < fields.len() && fields[j].name@ == x,
    decreases fields.len(),
{
    if fields.len() > 0 {
        lemma_schema_map_dom(fields.drop_last(), x);
        if schema_map(fields).dom().contains(x) {
            if fields.last().name@ == x {
                assert(fields[fields.len() - 1].name@ == x);
            } else {
                let j = choose|j: int|
                    0 <= j < fields.drop_last().len() && fields.drop_last()[j].name@ == x;
                assert(fields[j].name@ == x);
            }
        }
        if exists|j: int| 0 <= j < fields.len() && fields[j].name@ == x {
            let j = choose|j: int| 0 <= j < fields.len() && fields[j].name@ == x;
            if j < fields.len() - 1 {
                assert(fields.drop_last()[j].name@ == x);
            }
        }
    }
}

proof fn lemma_schema_map_value(fields: Seq<Field>, j: int)
    requires
        distinct_names(fields),
        0 <= j < fields.len(),
    ensures
        schema_map(fields).dom().contains(fields[j].name@),
        schema_map(fields)[fields[j].name@] == fields[j].ty.sub_pattern@,
    decreases fields.len(),
{
    if j == fields.len() - 1 {
    } else {
        assert(distinct_names(fields.drop_last())) by {
            assert(forall|a: int, b: int|
                0 <= a < b < fields.drop_last().len() ==> fields.drop_last()[a].name@
                    != fields.drop_last()[b].name@);
        }
        assert(fields.drop_last()[j] == fields[j]);
        lemma_schema_map_value(fields.drop_last(), j);
        assert(fields.last().name@ != fields[j].name@);
    }
}

/// The fields whose names appear among the placeholders, in schema order.
pub open spec fn surviving(fields: Seq<Field>, ph: Set<Seq<char>>) -> Seq<Field>
    decreases fields.len(),
{
    if fields.len() == 0 {
        Seq::empty()
    } else {
        let rest = surviving(fields.drop_last(), ph);
        if ph.contains(fields.last().name@) {
            rest.push(fields.last())
        } else {
            rest
        }
    }
}

/// The character sequences of a vector of strings.
pub open spec fn names_view(v: Seq<String>) -> Seq<Seq<char>> {
    v.map_values(|s: String| s@)
}

/// The names of a sequence of fields, in order.
pub open spec fn field_names(fields: Seq<Field>) -> Seq<Seq<char>> {
    fields.map_values(|f: Field| f.name@)
}

/// The capture widths of a sequence of fields, in order.
pub open spec fn field_widths(fields: Seq<Field>) -> Seq<usize> {
    fields.map_values(|f: Field| f.ty.width)
}

/// The sum of the first `k` capture widths.
pub open spec fn width_sum(ws: Seq<usize>, k: int) -> int
    decreases k,
    when 0 <= k <= ws.len()
{
    if k <= 0 {
        0
    } else {
        width_sum(ws, k - 1) + ws[k - 1]
    }
}

pub(crate) proof fn lemma_width_sum_monotone(ws: Seq<usize>, j: int, k: int)
    requires
        0 <= j <= k <= ws.len(),
    ensures
        width_sum(ws, j) <= width_sum(ws, k),
    decreases k - j,
{
    if j < k {
        lemma_width_sum_monotone(ws, j, k - 1);
    }
}

/// A compiled schema: the composed pattern, the participating field names
/// in schema order, their capture widths, the capture offset each field
/// owns, and the total capture width.
pub struct CompiledSchema {
    pub pattern: String,
    pub names: Vec<String>,
    pub widths: Vec<usize>,
    pub offsets: Vec<usize>,
    pub total: usize,
}

impl CompiledSchema {
    /// Internal consistency: one offset and one width per field, offsets
    /// are the prefix sums of the widths starting at capture index 1, and
    /// `total` is the sum of all widths.
    pub open spec fn wf(self) -> bool {
        &&& self.names@.len() == self.widths@.len()
        &&& self.offsets@.len() == self.widths@.len()
        &&& forall|i: int|
            0 <= i < self.offsets@.len() ==> self.offsets@[i] == 1 + width_sum(self.widths@, i)
        &&& self.total == width_sum(self.widths@, self.widths@.len() as int)
        &&& self.total + 1 <= usize::MAX
    }

    /// Embed this compiled schema as a field type of an enclosing
    /// schema: its composed pattern becomes the sub-pattern and its
    /// total capture width the declared width, which is how records
    /// compose recursively.
    pub fn as_field_type(&self) -> (r: FieldType)
        ensures
            r.sub_pattern@ == self.pattern@,
            r.width == self.total,
    {
        FieldType { sub_pattern: self.pattern.clone(), width: self.total }
    }

    /// The compiled schema is exactly what compiling `t` against `fields`
    /// yields: the pattern is the substituted template, and names and
    /// widths are those of the surviving fields in schema order.
    pub open spec fn compiled_from(self, t: Seq<char>, fields: Seq<Field>) -> bool {
        let surv = surviving(fields, placeholder_set(t));
        &&& substituted(t, schema_map(fields)) == SubstOutcome::Done(self.pattern@)
        &&& names_view(self.names@) == field_names(surv)
        &&& self.widths@ == field_widths(surv)
        &&& self.wf()
    }
}

/// Relies on `core::iter::Iterator::collect` for `String`: building a
/// string out of exactly the given characters, in order.
#[verifier::external_body]
pub(crate) fn chars_to_string(v: &Vec<char>) -> (r: String)
    ensures
        r@ == v@,
{
    v.iter().collect()
}

/// Whether the characters of `s` are exactly `v`.
fn str_eq_chars(s: &str, v: &Vec<char>) -> (b: bool)
    ensures
        b == (s@ == v@),
{
    let n: usize = s.unicode_len();
    if n != v.len() {
        return false;
    }
    let mut j: usize = 0;
    while j < n
        invariant
            n == s@.len() == v@.len(),
            0 <= j <= n,
            forall|k: int| 0 <= k < j ==> s@[k] == v@[k],
        decreases n - j,
    {
        if s.get_char(j) != v[j] {
            return false;
        }
        j += 1;
    }
    proof {
        assert(s@ =~= v@);
    }
    true
}

/// The index of the field whose name reads `name`, if any.
fn find_field(fields: &Vec<Field>, name: &Vec<char>) -> (r: Option<usize>)
    ensures
        match r {
            Option::Some(j) => j < fields@.len() && fields@[j as int].name@ == name@,
            Option::None => forall|j: int| 0 <= j < fields@.len() ==> fields@[j].name@ != name@,
        },
{
    let mut j: usize = 0;
    while j < fields.len()
        invariant
            0 <= j <= fields@.len(),
            forall|k: int| 0 <= k < j ==> fields@[k].name@ != name@,
        decreases fields@.len() - j,
    {
        if str_eq_chars(fields[j].name.as_str(), name) {
            return Option::Some(j);
        }
        j += 1;
    }
    Option::None
}

/// Append the characters of `s` to `out`.
fn push_str_chars(out: &mut Vec<char>, s: &str)
    ensures
        final(out)@ == old(out)@ + s@,
{
    let n: usize = s.unicode_len();
    let mut k: usize = 0;
    while k < n
        invariant
            n == s@.len(),
            0 <= k <= n,
            out@ == old(out)@ + s@.subrange(0, k as int),
        decreases n - k,
    {
        out.push(s.get_char(k));
        proof {
            assert(old(out)@ + s@.subrange(0, k as int) + seq![s@[k as int]] =~= old(out)@
                + s@.subrange(0, k as int + 1));
        }
        k += 1;
    }
    proof {
        assert(s@.subrange(0, n as int) =~= s@);
    }
}

/// Substitute every placeholder of the template with the sub-pattern of
/// the field it names.
fn substitute(template: &str, fields: &Vec<Field>) -> (r: Result<Vec<char>, CompileError>)
    requires
        distinct_names(fields@),
    ensures
        match r {
            Ok(v) => substituted(template@, schema_map(fields@)) == SubstOutcome::Done(v@),
            Err(e) => match e {
                CompileError::UnknownPlaceholder => substituted(
                    template@,
                    schema_map(fields@),
                ) is Unknown,
                CompileError::UnterminatedPlaceholder => substituted(
                    template@,
                    schema_map(fields@),
                ) is Unterminated,
                _ => false,
            },
        },
{
    let ghost t = template@;
    let ghost m = schema_map(fields@);
    let n: usize = template.unicode_len();
    let mut out: Vec<char> = Vec::new();
    let mut buf: Vec<char> = Vec::new();
    let mut in_ph: bool = false;
    let mut i: usize = 0;
    proof {
        assert(out@ + t =~= t);
    }
    while i < n
        invariant
            n == t.len(),
            template@ == t,
            m == schema_map(fields@),
            distinct_names(fields@),
            0 <= i <= n,
            substituted(t, m) == prepend(
                out@,
                subst_from(t, i as int, m, if in_ph {
                    Option::Some(buf@)
                } else {
                    Option::None
                }),
            ),
        decreases n - i,
    {
        let c = template.get_char(i);
        let ghost old_out = out@;
        if in_ph {
            if c == '}' {
                match find_field(fields, &buf) {
                    Option::Some(j) => {
                        proof {
                            lemma_schema_map_value(fields@, j as int);
                            lemma_prepend_prepend(
                                old_out,
                                m[buf@],
                                subst_from(t, i as int + 1, m, Option::None),
                            );
                        }
                        push_str_chars(&mut out, fields[j].ty.sub_pattern.as_str());
                        in_ph = false;
                        buf = Vec::new();
                    },
                    Option::None => {
                        proof {
                            lemma_schema_map_dom(fields@, buf@);
                        }
                        return Err(CompileError::UnknownPlaceholder);
                    },
                }
            } else {
                buf.push(c);
            }
            i += 1;
        } else {
            if c == '{' {
                if i + 1 < n && template.get_char(i + 1) == '{' {
                    proof {
                        lemma_prepend_prepend(
                            old_out,
                            seq!['{'],
                            subst_from(t, i as int + 2, m, Option::None),
                        );
                        assert(old_out + seq!['{'] =~= old_out.push('{'));
                    }
                    out.push('{');
                    i += 2;
                } else {
                    in_ph = true;
                    buf = Vec::new();
                    i += 1;
                }
            } else if c == '}' {
                if i + 1 < n && template.get_char(i + 1) == '}' {
                    proof {
                        lemma_prepend_prepend(
                            old_out,
                            seq!['}'],
                            subst_from(t, i as int + 2, m, Option::None),
                        );
                        assert(old_out + seq!['}'] =~= old_out.push('}'));
                    }
                    out.push('}');
                    i += 2;
                } else {
                    proof {
                        lemma_prepend_prepend(
                            old_out,
                            seq!['}'],
                            subst_from(t, i as int + 1, m, Option::None),
                        );
                        assert(old_out + seq!['}'] =~= old_out.push('}'));
                    }
                    out.push('}');
                    i += 1;
                }
            } else {
                proof {
                    lemma_prepend_prepend(
                        old_out,
                        seq![t[i as int]],
                        subst_from(t, i as int + 1, m, Option::None),
                    );
                    assert(old_out + seq![t[i as int]] =~= old_out.push(t[i as int]));
                }
                out.push(c);
                i += 1;
            }
        }
    }
    if in_ph {
        return Err(CompileError::UnterminatedPlaceholder);
    }
    proof {
        assert(out@ + Seq::<char>::empty() =~= out@);
    }
    Ok(out)
}

/// Compile a template against a schema: discover the placeholders, keep
/// the fields the template names in schema order, substitute their
/// sub-patterns in, and assign each surviving field its capture offset by
/// prefix-summing the preceding widths, starting at capture index 1.
pub fn compile(template: &str, schema: &Schema) -> (r: Result<CompiledSchema, CompileError>)
    ensures
        ({
            let ws = field_widths(surviving(schema.fields@, placeholder_set(template@)));
            (distinct_names(schema.fields@) && substituted(
                template@,
                schema_map(schema.fields@),
            ) is Done && 1 + width_sum(ws, ws.len() as int) <= usize::MAX) ==> r is Ok
        }),
        match r {
            Ok(cs) => distinct_names(schema.fields@) && cs.compiled_from(
                template@,
                schema.fields@,
            ),
            Err(e) => match e {
                CompileError::DuplicateFieldName => !distinct_names(schema.fields@),
                CompileError::UnknownPlaceholder => distinct_names(schema.fields@)
                    && substituted(template@, schema_map(schema.fields@)) is Unknown,
                CompileError::UnterminatedPlaceholder => distinct_names(schema.fields@)
                    && substituted(template@, schema_map(schema.fields@)) is Unterminated,
                CompileError::WidthOverflow => {
                    let ws = field_widths(surviving(schema.fields@, placeholder_set(template@)));
                    distinct_names(schema.fields@) && substituted(
                        template@,
                        schema_map(schema.fields@),
                    ) is Done && 1 + width_sum(ws, ws.len() as int) > usize::MAX
                },
                _ => false,
            },
        },
{
    let nf: usize = schema.fields.len();
    let mut a: usize = 0;
    while a < nf
        invariant
            nf == schema.fields@.len(),
            0 <= a <= nf,
            forall|j: int, k: int| 0 <= j < a && j < k < nf ==> schema.fields@[j].name@
                != schema.fields@[k].name@,
        decreases nf - a,
    {
        let mut b: usize = a + 1;
        while b < nf
            invariant
                nf == schema.fields@.len(),
                0 <= a < b <= nf,
                forall|j: int, k: int| 0 <= j < a && j < k < nf ==> schema.fields@[j].name@
                    != schema.fields@[k].name@,
                forall|k: int| a < k < b ==> schema.fields@[a as int].name@
                    != schema.fields@[k].name@,
            decreases nf - b,
        {
            if schema.fields[a].name.eq(&schema.fields[b].name) {
                return Err(CompileError::DuplicateFieldName);
            }
            b += 1;
        }
        a += 1;
    }

    let ph = arguments(template);
    let ghost phs = placeholder_set(template@);

    let mut names: Vec<String> = Vec::new();
    let mut widths: Vec<usize> = Vec::new();
    let mut idx: usize = 0;
    proof {
        assert(schema.fields@.take(0) =~= Seq::<Field>::empty());
        assert(names_view(names@) =~= Seq::<Seq<char>>::empty());
        assert(widths@ =~= Seq::<usize>::empty());
    }
    while idx < nf
        invariant
            nf == schema.fields@.len(),
            0 <= idx <= nf,
            names_set(ph@) == phs,
            names_view(names@) == field_names(surviving(schema.fields@.take(idx as int), phs)),
            widths@ == field_widths(surviving(schema.fields@.take(idx as int), phs)),
        decreases nf - idx,
    {
        let ghost pre = schema.fields@.take(idx as int);
        let ghost cur = schema.fields@.take(idx as int + 1);
        proof {
            assert(cur.drop_last() =~= pre);
            assert(cur.last() == schema.fields@[idx as int]);
            lemma_names_set_contains(ph@, schema.fields@[idx as int].name@);
        }
        let present = contains_name(&ph, &schema.fields[idx].name);
        let ghost old_names = names@;
        let ghost old_widths = widths@;
        if present {
            proof {
                assert(phs.contains(schema.fields@[idx as int].name@));
                assert(surviving(cur, phs) == surviving(pre, phs).push(
                    schema.fields@[idx as int],
                ));
            }
            names.push(schema.fields[idx].name.clone());
            widths.push(schema.fields[idx].ty.width);
            proof {
                let surv = surviving(cur, phs);
                assert(names@ == old_names.push(names@.last()));
                assert(names@.last()@ == schema.fields@[idx as int].name@);
                assert(names_view(old_names).len() == old_names.len());
                assert(field_names(surviving(pre, phs)).len() == surviving(pre, phs).len());
                assert(field_widths(surviving(pre, phs)).len() == surviving(pre, phs).len());
                assert(surv.len() == old_names.len() + 1);
                assert forall|k: int| 0 <= k < names@.len() implies names_view(names@)[k]
                    == field_names(surv)[k] by {
                    assert(names_view(names@)[k] == names@[k]@);
                    assert(field_names(surv)[k] == surv[k].name@);
                    if k < old_names.len() {
                        assert(names@[k] == old_names[k]);
                        assert(surv[k] == surviving(pre, phs)[k]);
                        assert(names_view(old_names)[k] == old_names[k]@);
                        assert(field_names(surviving(pre, phs))[k] == surviving(
                            pre,
                            phs,
                        )[k].name@);
                    } else {
                        assert(surv[k] == schema.fields@[idx as int]);
                    }
                }
                assert(names_view(names@) =~= field_names(surv));
                assert forall|k: int| 0 <= k < widths@.len() implies widths@[k]
                    == field_widths(surv)[k] by {
                    assert(field_widths(surv)[k] == surv[k].ty.width);
                    if k < old_widths.len() {
                        assert(surv[k] == surviving(pre, phs)[k]);
                        assert(field_widths(surviving(pre, phs))[k] == surviving(
                            pre,
                            phs,
                        )[k].ty.width);
                    } else {
                        assert(surv[k] == schema.fields@[idx as int]);
                    }
                }
                assert(widths@ =~= field_widths(surv));
            }
        } else {
            proof {
                assert(surviving(cur, phs) =~= surviving(pre, phs));
            }
        }
        idx += 1;
    }
    proof {
        assert(schema.fields@.take(nf as int) =~= schema.fields@);
    }

    let pat_chars = match substitute(template, &schema.fields) {
        Ok(v) => v,
        Err(e) => {
            return Err(e);
        },
    };

    let mut offsets: Vec<usize> = Vec::new();
    let mut off: usize = 1;
    let mut i: usize = 0;
    while i < widths.len()
        invariant
            0 <= i <= widths@.len(),
            off == 1 + width_sum(widths@, i as int),
            off >= 1,
            offsets@.len() == i,
            forall|j: int| 0 <= j < i ==> offsets@[j] == 1 + width_sum(widths@, j),
            distinct_names(schema.fields@),
            substituted(template@, schema_map(schema.fields@)) == SubstOutcome::Done(pat_chars@),
            widths@ == field_widths(surviving(schema.fields@, placeholder_set(template@))),
        decreases widths@.len() - i,
    {
        offsets.push(off);
        match off.checked_add(widths[i]) {
            Option::Some(o2) => {
                off = o2;
            },
            Option::None => {
                proof {
                    lemma_width_sum_monotone(widths@, i as int + 1, widths@.len() as int);
                }
                return Err(CompileError::WidthOverflow);
            },
        }
        i += 1;
    }
    let total: usize = off - 1;
    let pattern = chars_to_string(&pat_chars);
    Ok(CompiledSchema { pattern, names, widths, offsets, total })
}

/// Offset correctness: the first participating field owns capture index
/// 1, and each following field starts exactly where the one before it
/// ends, one slot per unit of capture width.
pub proof fn lemma_offset_assignment(cs: CompiledSchema)
    requires
        cs.wf(),
    ensures
        cs.offsets@.len() > 0 ==> cs.offsets@[0] == 1,
        forall|i: int|
            0 <= i && i + 1 < cs.offsets@.len() ==> cs.offsets@[i + 1] == cs.offsets@[i]
                + cs.widths@[i],
{
    assert forall|i: int| 0 <= i && i + 1 < cs.offsets@.len() implies cs.offsets@[i + 1]
        == cs.offsets@[i] + cs.widths@[i] by {
        assert(width_sum(cs.widths@, i + 1) == width_sum(cs.widths@, i) + cs.widths@[i]);
    }
}

/// Capture slots never overlap: every field's slice lies inside the
/// capture array past the whole-match slot, and a field that comes later
/// in schema order starts at or after the end of every earlier field's
/// slice — so no field can read a slot another field owns.
pub proof fn lemma_slices_disjoint(cs: CompiledSchema, i: int, j: int)
    requires
        cs.wf(),
        0 <= i < j < cs.offsets@.len(),
    ensures
        1 <= cs.offsets@[i],
        cs.offsets@[i] + cs.widths@[i] <= cs.offsets@[j],
        cs.offsets@[j] + cs.widths@[j] <= cs.total + 1,
{
    assert(width_sum(cs.widths@, i + 1) == width_sum(cs.widths@, i) + cs.widths@[i]);
    assert(width_sum(cs.widths@, j + 1) == width_sum(cs.widths@, j) + cs.widths@[j]);
    lemma_width_sum_monotone(cs.widths@, 0, i);
    lemma_width_sum_monotone(cs.widths@, i + 1, j);
    lemma_width_sum_monotone(cs.widths@, j + 1, cs.widths@.len() as int);
}

/// Non-participating fields, at the compiled schema: whatever compiling
/// a template against a schema produced, a schema field whose name
/// appears in no placeholder is absent from the participating names, so
/// it owns no width and no capture offset.  That such a schema still
/// compiles is owed by `compile`'s own contract.
pub proof fn lemma_non_participating_compiled(
    cs: CompiledSchema,
    t: Seq<char>,
    fields: Seq<Field>,
    i: int,
)
    requires
        cs.compiled_from(t, fields),
        0 <= i < fields.len(),
        !placeholder_set(t).contains(fields[i].name@),
    ensures
        forall|k: int| 0 <= k < cs.names@.len() ==> names_view(cs.names@)[k]
            != fields[i].name@,
{
    let surv = surviving(fields, placeholder_set(t));
    lemma_non_participating(fields, placeholder_set(t), fields[i].name@);
    assert forall|k: int| 0 <= k < cs.names@.len() implies names_view(cs.names@)[k]
        != fields[i].name@ by {
        assert(names_view(cs.names@)[k] == field_names(surv)[k]);
        assert(field_names(surv)[k] == surv[k].name@);
    }
}

/// Non-participating fields: a schema field whose name appears in no
/// placeholder is left out of the surviving sequence, so it owns no
/// capture offset; compiling such a schema is not an error.
pub proof fn lemma_non_participating(fields: Seq<Field>, ph: Set<Seq<char>>, name: Seq<char>)
    requires
        !ph.contains(name),
    ensures
        forall|k: int| 0 <= k < surviving(fields, ph).len() ==> (#[trigger] surviving(
            fields,
            ph,
        )[k]).name@ != name,
    decreases fields.len(),
{
    if fields.len() > 0 {
        lemma_non_participating(fields.drop_last(), ph, name);
        let surv = surviving(fields, ph);
        let rest = surviving(fields.drop_last(), ph);
        assert forall|k: int| 0 <= k < surv.len() implies (#[trigger] surv[k]).name@
            != name by {
            if ph.contains(fields.last().name@) {
                if k < rest.len() {
                    assert(surv[k] == rest[k]);
                } else {
                    assert(surv[k] == fields.last());
                }
            } else {
                assert(surv[k] == rest[k]);
            }
        }
    }
}

} // verus!
