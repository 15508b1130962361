//! Template analysis: discovering placeholder names and substituting
//! field sub-patterns for them.
//!
//! A placeholder is the text strictly between one matched pair of
//! un-escaped curly brackets.  A doubled open bracket is the escape for a
//! literal open bracket and opens nothing; a close bracket with no open
//! bracket pending is literal text.

use vstd::prelude::*;

verus! {

/// The placeholder names collected by the bracket scan, starting at
/// position `i` with `stack` holding the start positions of the open
/// placeholders seen so far and `found` the names already collected.
pub open spec fn scan_names(
    t: Seq<char>,
    i: int,
    stack: Seq<int>,
    found: Set<Seq<char>>,
) -> Set<Seq<char>>
    decreases t.len() - i,
    when 0 <= i <= t.len()
{
    if i >= t.len() {
        found
    } else if t[i] == '{' {
        if i + 1 < t.len() && t[i + 1] == '{' {
            scan_names(t, i + 2, stack, found)
        } else {
            scan_names(t, i + 1, stack.push(i + 1), found)
        }
    } else if t[i] == '}' {
        if stack.len() > 0 {
            scan_names(t, i + 1, stack.drop_last(), found.insert(t.subrange(stack.last(), i)))
        } else {
            scan_names(t, i + 1, stack, found)
        }
    } else {
        scan_names(t, i + 1, stack, found)
    }
}

/// The set of placeholder names of a template.
pub open spec fn placeholder_set(t: Seq<char>) -> Set<Seq<char>> {
    scan_names(t, 0, Seq::empty(), Set::empty())
}

/// The names held by a vector of strings, as a set of character sequences.
pub open spec fn names_set(v: Seq<String>) -> Set<Seq<char>>
    decreases v.len(),
{
    if v.len() == 0 {
        Set::empty()
    } else {
        names_set(v.drop_last()).insert(v.last()@)
    }
}

proof fn lemma_names_set_push(v: Seq<String>, s: String)
    ensures
        names_set(v.push(s)) == names_set(v).insert(s@),
{
    assert(v.push(s).drop_last() =~= v);
    assert(v.push(s).last() == s);
}

pub(crate) proof fn lemma_names_set_contains(v: Seq<String>, x: Seq<char>)
    ensures
        names_set(v).contains(x) <==> exists|j: int| 0 <= j < v.len() && v[j]@ == x,
    decreases v.len(),
{
    if v.len() > 0 {
        lemma_names_set_contains(v.drop_last(), x);
        if names_set(v).contains(x) {
            if v.last()@ == x {
                assert(v[v.len() - 1]@ == x);
            } else {
                let j = choose|j: int| 0 <= j < v.drop_last().len() && v.drop_last()[j]@ == x;
                assert(v[j]@ == x);
            }
        }
        if exists|j: int| 0 <= j < v.len() && v[j]@ == x {
            let j = choose|j: int| 0 <= j < v.len() && v[j]@ == x;
            if j < v.len() - 1 {
                assert(v.drop_last()[j]@ == x);
            }
        }
    }
}

/// Whether `v` holds a string whose characters are `x`.
pub open spec fn vec_has_name(v: Seq<String>, x: Seq<char>) -> bool {
    exists|j: int| 0 <= j < v.len() && v[j]@ == x
}

/// Linear search for a name among the collected strings.
pub(crate) fn contains_name(v: &Vec<String>, x: &String) -> (b: bool)
    ensures
        b == vec_has_name(v@, x@),
{
    let mut j: usize = 0;
    while j < v.len()
        invariant
            0 <= j <= v@.len(),
            forall|k: int| 0 <= k < j ==> v@[k]@ != x@,
        decreases v@.len() - j,
    {
        if x.eq(&v[j]) {
            return true;
        }
        j += 1;
    }
    false
}

/// The distinct placeholder names of a template, discovered by a single
/// left-to-right scan that keeps a stack of open-bracket positions.  A
/// doubled open bracket is consumed as an escaped literal; a close bracket
/// pops the most recently opened bracket and the text between them is a
/// placeholder name; a close bracket with nothing open, and an open bracket
/// still pending at the end of the template, are ignored.
pub fn arguments(format_string: &str) -> (r: Vec<String>)
    ensures
        names_set(r@) == placeholder_set(format_string@),
        forall|j: int, k: int| 0 <= j < k < r@.len() ==> r@[j]@ != r@[k]@,
{
    let ghost t = format_string@;
    let n: usize = format_string.unicode_len();
    let mut stack: Vec<usize> = Vec::new();
    let mut out: Vec<String> = Vec::new();
    let mut i: usize = 0;
    proof {
        assert(stack@.map_values(|p: usize| p as int) =~= Seq::<int>::empty());
        assert(names_set(out@) =~= Set::<Seq<char>>::empty());
    }
    while i < n
        invariant
            n == t.len(),
            format_string@ == t,
            0 <= i <= n,
            forall|k: int| 0 <= k < stack@.len() ==> 0 <= #[trigger] stack@[k] <= i,
            forall|j: int, k: int| 0 <= j < k < out@.len() ==> out@[j]@ != out@[k]@,
            placeholder_set(t) == scan_names(
                t,
                i as int,
                stack@.map_values(|p: usize| p as int),
                names_set(out@),
            ),
        decreases n - i,
    {
        let c = format_string.get_char(i);
        let ghost old_stack = stack@.map_values(|p: usize| p as int);
        if c == '{' {
            if i + 1 < n && format_string.get_char(i + 1) == '{' {
                i += 2;
            } else {
                stack.push(i + 1);
                proof {
                    assert(stack@.map_values(|p: usize| p as int) =~= old_stack.push(
                        i as int + 1,
                    ));
                }
                i += 1;
            }
        } else if c == '}' {
            if stack.len() > 0 {
                let start = stack[stack.len() - 1];
                stack.pop();
                proof {
                    assert(stack@.map_values(|p: usize| p as int) =~= old_stack.drop_last());
                }
                let name = format_string.substring_char(start, i).to_owned();
                let ghost pre = names_set(out@);
                let ghost old_out = out@;
                proof {
                    assert(name@ == t.subrange(old_stack.last(), i as int));
                }
                if !contains_name(&out, &name) {
                    out.push(name);
                    proof {
                        lemma_names_set_push(old_out, out@.last());
                        assert(out@ == old_out.push(out@.last()));
                        assert(names_set(out@) == pre.insert(out@.last()@));
                        assert(forall|j: int, k: int|
                            0 <= j < k < out@.len() ==> out@[j]@ != out@[k]@);
                    }
                } else {
                    proof {
                        lemma_names_set_contains(out@, name@);
                        assert(pre.contains(name@));
                        assert(pre.insert(name@) =~= pre);
                    }
                }
                i += 1;
            } else {
                i += 1;
            }
        } else {
            i += 1;
        }
    }
    out
}

proof fn lemma_scan_literal_span(t: Seq<char>, i: int, j: int, stack: Seq<int>, found: Set<
    Seq<char>,
>)
    requires
        0 <= i <= j <= t.len(),
        forall|k: int| i <= k < j ==> t[k] != '{' && t[k] != '}',
    ensures
        scan_names(t, i, stack, found) == scan_names(t, j, stack, found),
    decreases j - i,
{
    if i < j {
        lemma_scan_literal_span(t, i + 1, j, stack, found);
    }
}

/// Escaping: a template that is a doubled open bracket, then literal text
/// free of brackets, then a doubled close bracket holds no placeholders
/// at all.
pub proof fn lemma_escaped_span(text: Seq<char>)
    requires
        forall|k: int| 0 <= k < text.len() ==> text[k] != '{' && text[k] != '}',
    ensures
        placeholder_set(seq!['{', '{'] + text + seq!['}', '}']) == Set::<Seq<char>>::empty(),
{
    let t = seq!['{', '{'] + text + seq!['}', '}'];
    let n = text.len() as int;
    assert(t.len() == n + 4);
    assert(t[0] == '{' && t[1] == '{');
    assert(forall|k: int| 2 <= k < n + 2 ==> t[k] == text[k - 2] && t[k] != '{' && t[k] != '}');
    assert(t[n + 2] == '}' && t[n + 3] == '}');
    let st = Seq::<int>::empty();
    let fd = Set::<Seq<char>>::empty();
    assert(scan_names(t, 0, st, fd) == scan_names(t, 2, st, fd));
    lemma_scan_literal_span(t, 2, n + 2, st, fd);
    assert(scan_names(t, n + 2, st, fd) == scan_names(t, n + 3, st, fd));
    assert(scan_names(t, n + 3, st, fd) == scan_names(t, n + 4, st, fd));
    assert(scan_names(t, n + 4, st, fd) == fd);
}

} // verus!
