//! Path templates: literal text with captures written `{name}`.
//!
//! A capture stands for one segment of a path: one or more characters other
//! than `/`. Everything else stands for itself; so does a brace that is not
//! part of a capture.

use crate::text::{chars_of, find, lemma_position, same, string_of, texts};
use vstd::prelude::*;
use vstd::string::StringExecFns;

verus! {

/// The characters with a meaning of their own in a regular expression.
pub open spec fn is_meta(c: char) -> bool {
    ||| c == '\\'
    ||| c == '.'
    ||| c == '+'
    ||| c == '*'
    ||| c == '?'
    ||| c == '('
    ||| c == ')'
    ||| c == '|'
    ||| c == '['
    ||| c == ']'
    ||| c == '{'
    ||| c == '}'
    ||| c == '^'
    ||| c == '$'
    ||| c == '#'
    ||| c == '&'
    ||| c == '-'
    ||| c == '~'
}

/// The regular expression that matches the character `c` and nothing else.
pub open spec fn escaped(c: char) -> Seq<char> {
    if is_meta(c) {
        seq!['\\', c]
    } else {
        seq![c]
    }
}

/// The position of the first brace in `s`, or the length of `s` if it has
/// none.
pub open spec fn next_brace(s: Seq<char>) -> int
    decreases s.len(),
{
    if s.len() == 0 || s[0] == '{' || s[0] == '}' {
        0
    } else {
        1 + next_brace(s.drop_first())
    }
}

/// `next_brace` is a position in `s`, or its length.
pub proof fn lemma_next_brace_in_range(s: Seq<char>)
    ensures
        0 <= next_brace(s) <= s.len(),
    decreases s.len(),
{
    if s.len() == 0 || s[0] == '{' || s[0] == '}' {
    } else {
        lemma_next_brace_in_range(s.drop_first());
    }
}

/// Whether `p` begins with a capture: `{`, a name without braces, `}`.
pub open spec fn starts_with_capture(p: Seq<char>) -> bool {
    &&& p.len() > 0
    &&& p[0] == '{'
    &&& 1 + next_brace(p.drop_first()) < p.len()
    &&& p[1 + next_brace(p.drop_first())] == '}'
}

/// The regular expression for a template, without its anchors.
pub open spec fn regex_body(p: Seq<char>) -> Seq<char>
    decreases p.len(),
{
    if p.len() == 0 {
        Seq::empty()
    } else if starts_with_capture(p) {
        proof {
            lemma_next_brace_in_range(p.drop_first());
        }
        "([^/]+)"@ + regex_body(p.subrange(2 + next_brace(p.drop_first()), p.len() as int))
    } else {
        escaped(p[0]) + regex_body(p.drop_first())
    }
}

/// The names of the captures of a template, in order.
pub open spec fn capture_names(p: Seq<char>) -> Seq<Seq<char>>
    decreases p.len(),
{
    if p.len() == 0 {
        Seq::empty()
    } else if starts_with_capture(p) {
        proof {
            lemma_next_brace_in_range(p.drop_first());
        }
        seq![p.subrange(1, 1 + next_brace(p.drop_first()))] + capture_names(
            p.subrange(2 + next_brace(p.drop_first()), p.len() as int),
        )
    } else {
        capture_names(p.drop_first())
    }
}

/// The regular expression for a template: anchored at both ends.
pub open spec fn regex_of(p: Seq<char>) -> Seq<char> {
    seq!['^'] + regex_body(p) + seq!['$']
}

/// What follows the capture that `p` begins with.
pub open spec fn after_capture(p: Seq<char>) -> Seq<char> {
    p.subrange(2 + next_brace(p.drop_first()), p.len() as int)
}

/// What a capture can stand for: one or more characters, none of them `/`.
pub open spec fn is_segment(s: Seq<char>) -> bool {
    s.len() > 0 && !s.contains('/')
}

/// Whether `path` is the template `p` with the segments `captured` in place
/// of its captures, one for each capture and in their order.
pub open spec fn fits(p: Seq<char>, path: Seq<char>, captured: Seq<Seq<char>>) -> bool
    decreases p.len(),
{
    if p.len() == 0 {
        path.len() == 0 && captured.len() == 0
    } else if starts_with_capture(p) {
        proof {
            lemma_next_brace_in_range(p.drop_first());
        }
        &&& captured.len() > 0
        &&& is_segment(captured[0])
        &&& captured[0].len() <= path.len()
        &&& path.subrange(0, captured[0].len() as int) == captured[0]
        &&& fits(
            after_capture(p),
            path.subrange(captured[0].len() as int, path.len() as int),
            captured.drop_first(),
        )
    } else {
        &&& path.len() > 0
        &&& path[0] == p[0]
        &&& fits(p.drop_first(), path.drop_first(), captured)
    }
}

/// The template `p` written out with `captured` in place of its captures.
pub open spec fn filled(p: Seq<char>, captured: Seq<Seq<char>>) -> Seq<char>
    decreases p.len(),
{
    if p.len() == 0 {
        Seq::empty()
    } else if starts_with_capture(p) {
        proof {
            lemma_next_brace_in_range(p.drop_first());
        }
        if captured.len() > 0 {
            captured[0] + filled(after_capture(p), captured.drop_first())
        } else {
            filled(after_capture(p), captured)
        }
    } else {
        seq![p[0]] + filled(p.drop_first(), captured)
    }
}

/// The text of the template `p` outside its captures.
pub open spec fn literal_text(p: Seq<char>) -> Seq<char> {
    filled(p, Seq::empty())
}

/// The number of `/` in `s`.
pub open spec fn slashes(s: Seq<char>) -> nat
    decreases s.len(),
{
    if s.len() == 0 {
        0
    } else if s[0] == '/' {
        1 + slashes(s.drop_first())
    } else {
        slashes(s.drop_first())
    }
}

proof fn lemma_slashes_concat(a: Seq<char>, b: Seq<char>)
    ensures
        slashes(a + b) == slashes(a) + slashes(b),
    decreases a.len(),
{
    if a.len() == 0 {
        assert(a + b =~= b);
    } else {
        assert((a + b).drop_first() =~= a.drop_first() + b);
        lemma_slashes_concat(a.drop_first(), b);
    }
}

proof fn lemma_segment_has_no_slash(s: Seq<char>)
    requires
        !s.contains('/'),
    ensures
        slashes(s) == 0,
    decreases s.len(),
{
    if s.len() > 0 {
        assert(s.contains(s[0]));
        assert forall|k: int| 0 <= k < s.drop_first().len() implies s.drop_first()[k] != '/' by {
            assert(s.contains(s[k + 1]));
        }
        lemma_segment_has_no_slash(s.drop_first());
    }
}

/// Captured segments: a path that fits a template is the template written
/// out with the captured texts in place of its captures, all of it and
/// nothing more; there is one captured text for each capture, and each is
/// one segment.
pub proof fn lemma_fit_spells_path(p: Seq<char>, path: Seq<char>, captured: Seq<Seq<char>>)
    requires
        fits(p, path, captured),
    ensures
        path == filled(p, captured),
        captured.len() == capture_names(p).len(),
        forall|k: int| 0 <= k < captured.len() ==> is_segment(#[trigger] captured[k]),
    decreases p.len(),
{
    if p.len() == 0 {
        assert(path =~= Seq::<char>::empty());
    } else if starts_with_capture(p) {
        lemma_next_brace_in_range(p.drop_first());
        let first = captured[0];
        let rest_path = path.subrange(first.len() as int, path.len() as int);
        lemma_fit_spells_path(after_capture(p), rest_path, captured.drop_first());
        assert(path =~= first + rest_path);
        assert forall|k: int| 0 <= k < captured.len() implies is_segment(
            #[trigger] captured[k],
        ) by {
            if k > 0 {
                assert(captured[k] == captured.drop_first()[k - 1]);
            }
        }
    } else {
        lemma_fit_spells_path(p.drop_first(), path.drop_first(), captured);
        assert(path =~= seq![p[0]] + path.drop_first());
    }
}

/// Anchoring: a path that fits a template has exactly as many `/` as the
/// literal text of the template, so that a path with a segment more or a
/// segment less never fits.
pub proof fn lemma_fit_keeps_segments(p: Seq<char>, path: Seq<char>, captured: Seq<Seq<char>>)
    requires
        fits(p, path, captured),
    ensures
        slashes(path) == slashes(literal_text(p)),
    decreases p.len(),
{
    let none = Seq::<Seq<char>>::empty();
    if p.len() == 0 {
    } else if starts_with_capture(p) {
        lemma_next_brace_in_range(p.drop_first());
        let first = captured[0];
        let rest_path = path.subrange(first.len() as int, path.len() as int);
        lemma_fit_keeps_segments(after_capture(p), rest_path, captured.drop_first());
        assert(path =~= first + rest_path);
        lemma_slashes_concat(first, rest_path);
        lemma_segment_has_no_slash(first);
    } else {
        lemma_fit_keeps_segments(p.drop_first(), path.drop_first(), captured);
        assert(path =~= seq![p[0]] + path.drop_first());
        lemma_slashes_concat(seq![p[0]], path.drop_first());
        lemma_slashes_concat(seq![p[0]], filled(p.drop_first(), none));
    }
}

proof fn lemma_next_brace(s: Seq<char>, j: int)
    requires
        0 <= j <= s.len(),
        forall|k: int| 0 <= k < j ==> s[k] != '{' && s[k] != '}',
        j < s.len() ==> s[j] == '{' || s[j] == '}',
    ensures
        next_brace(s) == j,
    decreases s.len(),
{
    if s.len() == 0 || s[0] == '{' || s[0] == '}' {
        if j > 0 {
            assert(s[0] != '{' && s[0] != '}');
        }
    } else {
        let rest = s.drop_first();
        assert forall|k: int| 0 <= k < j - 1 implies rest[k] != '{' && rest[k] != '}' by {
            assert(rest[k] == s[k + 1]);
        }
        lemma_next_brace(rest, j - 1);
    }
}

/// Where the capture ends that begins at position `i` of `p`: the position
/// of its closing brace, if a capture begins there.
fn capture_end(p: &[char], i: usize) -> (r: Option<usize>)
    requires
        i < p@.len(),
    ensures
        match r {
            Some(end) => {
                &&& starts_with_capture(p@.subrange(i as int, p@.len() as int))
                &&& i < end < p@.len()
                &&& end == i + 1 + next_brace(p@.subrange(i as int, p@.len() as int).drop_first())
            },
            None => !starts_with_capture(p@.subrange(i as int, p@.len() as int)),
        },
{
    let ghost rest = p@.subrange(i as int, p@.len() as int);
    if p[i] != '{' {
        return None;
    }
    let mut end: usize = i + 1;
    while end < p.len() && p[end] != '{' && p[end] != '}'
        invariant
            i < end <= p@.len(),
            forall|k: int| i < k < end ==> p@[k] != '{' && p@[k] != '}',
        decreases p@.len() - end,
    {
        end += 1;
    }
    proof {
        let tail = rest.drop_first();
        assert forall|k: int| 0 <= k < end - i - 1 implies tail[k] != '{' && tail[k] != '}' by {
            assert(tail[k] == p@[i + 1 + k]);
        }
        if end < p@.len() {
            assert(tail[end - i - 1] == p@[end as int]);
        }
        lemma_next_brace(tail, end - i - 1);
    }
    if end < p.len() && p[end] == '}' {
        Some(end)
    } else {
        None
    }
}

/// Compiles a template: the regular expression, and the names of the
/// captures in order.
pub fn compile_pattern(pattern: &str) -> (compiled: (String, Vec<String>))
    ensures
        compiled.0@ == regex_of(pattern@),
        texts(compiled.1@) == capture_names(pattern@),
{
    let chars = chars_of(pattern);
    let p = chars.as_slice();
    let mut regex = String::new();
    regex.push('^');
    let mut names: Vec<String> = Vec::new();
    let mut i: usize = 0;
    assert(p@.subrange(0, p@.len() as int) =~= p@);
    assert(texts(names@) =~= Seq::<Seq<char>>::empty());
    assert(texts(names@) + capture_names(p@) =~= capture_names(p@));
    while i < p.len()
        invariant
            i <= p@.len(),
            p@ == pattern@,
            regex@ + regex_body(p@.subrange(i as int, p@.len() as int)) == seq!['^'] + regex_body(
                p@,
            ),
            texts(names@) + capture_names(p@.subrange(i as int, p@.len() as int))
                == capture_names(p@),
        decreases p@.len() - i,
    {
        let ghost rest = p@.subrange(i as int, p@.len() as int);
        let ghost regex_before = regex@;
        let ghost names_before = texts(names@);
        let found = capture_end(p, i);
        if let Some(end) = found {
            let name = string_of(&p[i + 1..end]);
            proof {
                assert(name@ =~= rest.subrange(1, 1 + next_brace(rest.drop_first())));
                assert(rest.subrange(2 + next_brace(rest.drop_first()), rest.len() as int)
                    =~= p@.subrange(end + 1, p@.len() as int));
            }
            names.push(name);
            regex.append("([^/]+)");
            proof {
                assert(texts(names@) =~= names_before + seq![name@]);
                assert(texts(names@) + capture_names(p@.subrange(end + 1, p@.len() as int))
                    =~= names_before + capture_names(rest));
                assert(regex@ + regex_body(p@.subrange(end + 1, p@.len() as int))
                    =~= regex_before + regex_body(rest));
            }
            i = end + 1;
        } else {
            let c = p[i];
            let meta = c == '\\' || c == '.' || c == '+' || c == '*' || c == '?' || c == '(' || c
                == ')' || c == '|' || c == '[' || c == ']' || c == '{' || c == '}' || c == '^'
                || c == '$' || c == '#' || c == '&' || c == '-' || c == '~';
            if meta {
                regex.push('\\');
            }
            regex.push(c);
            proof {
                assert(rest.drop_first() =~= p@.subrange(i + 1, p@.len() as int));
                assert(regex@ =~= regex_before + escaped(c));
                assert(regex@ + regex_body(p@.subrange(i + 1, p@.len() as int)) =~= regex_before
                    + regex_body(rest));
            }
            i = i + 1;
        }
    }
    regex.push('$');
    proof {
        assert(p@.subrange(p@.len() as int, p@.len() as int) =~= Seq::<char>::empty());
        assert(texts(names@) =~= capture_names(p@));
        assert(regex@ =~= regex_of(p@));
    }
    (regex, names)
}

/// Whether `path` is the template `pattern` with `captured` in place of its
/// captures.
pub fn template_fits(pattern: &[char], path: &[char], captured: &Vec<String>) -> (r: bool)
    ensures
        r == fits(pattern@, path@, texts(captured@)),
{
    let ghost caps = texts(captured@);
    let mut i: usize = 0;
    let mut j: usize = 0;
    let mut k: usize = 0;
    assert(pattern@.subrange(0, pattern@.len() as int) =~= pattern@);
    assert(path@.subrange(0, path@.len() as int) =~= path@);
    assert(caps.subrange(0, caps.len() as int) =~= caps);
    while i < pattern.len()
        invariant
            i <= pattern@.len(),
            j <= path@.len(),
            k <= captured@.len(),
            caps == texts(captured@),
            fits(pattern@, path@, caps) == fits(
                pattern@.subrange(i as int, pattern@.len() as int),
                path@.subrange(j as int, path@.len() as int),
                caps.subrange(k as int, caps.len() as int),
            ),
        decreases pattern@.len() - i,
    {
        let ghost p = pattern@.subrange(i as int, pattern@.len() as int);
        let ghost rest = path@.subrange(j as int, path@.len() as int);
        let ghost left = caps.subrange(k as int, caps.len() as int);
        match capture_end(pattern, i) {
            Some(end) => {
                if k >= captured.len() {
                    return false;
                }
                let held = chars_of(captured[k].as_str());
                let segment = held.as_slice();
                assert(segment@ == left[0]);
                let size = segment.len();
                if size == 0 || size > path.len() - j {
                    return false;
                }
                proof {
                    lemma_position(segment@, '/');
                }
                if find(segment, '/').is_some() {
                    return false;
                }
                assert(rest.subrange(0, size as int) =~= path@.subrange(j as int, j + size));
                if !same(&path[j..j + size], segment) {
                    return false;
                }
                proof {
                    assert(after_capture(p) =~= pattern@.subrange(end + 1, pattern@.len() as int));
                    assert(rest.subrange(size as int, rest.len() as int) =~= path@.subrange(
                        j + size,
                        path@.len() as int,
                    ));
                    assert(left.drop_first() =~= caps.subrange(k + 1, caps.len() as int));
                }
                i = end + 1;
                j = j + size;
                k = k + 1;
            },
            None => {
                if j >= path.len() || path[j] != pattern[i] {
                    return false;
                }
                proof {
                    assert(p.drop_first() =~= pattern@.subrange(i + 1, pattern@.len() as int));
                    assert(rest.drop_first() =~= path@.subrange(j + 1, path@.len() as int));
                }
                i = i + 1;
                j = j + 1;
            },
        }
    }
    j == path.len() && k == captured.len()
}

} // verus!
