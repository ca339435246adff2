use crate::text::str_eq;
use vstd::prelude::*;
use vstd::utf8::{
    decode_utf8, decode_utf8_encode_utf8, decode_utf8_split, encode_scalar, encode_utf8,
    encode_utf8_decode_utf8, encode_utf8_valid_utf8, is_char_boundary, valid_utf8_split,
};

verus! {

/// What `regex` reports for the first match of the regular expression
/// `pattern` in `haystack`: the byte range of the whole match and the byte
/// range of its first capture group, if that group took part. A pattern that
/// does not compile matches nothing.
pub uninterp spec fn regex_first_captures(pattern: Seq<char>, haystack: Seq<char>) -> Option<
    (usize, usize, Option<(usize, usize)>),
>;

/// Compiles `pattern` with `regex::Regex::new` and searches `haystack` with
/// `Regex::captures`, reporting the byte ranges of the whole first match and
/// of its first group (`Captures::get`, `Match::start`, `Match::end`).
/// Claimed of it, as the regex documentation states: the result is a
/// function of the pattern and the haystack; each reported range has
/// `start <= end`, lies within the haystack, and starts and ends on
/// character boundaries.
#[verifier::external_body]
fn first_captures(pattern: &str, haystack: &str) -> (r: Option<(usize, usize, Option<(usize, usize)>)>)
    ensures
        r == regex_first_captures(pattern@, haystack@),
        capture_fits(haystack@, r),
{
    let re = match regex::Regex::new(pattern) {
        Ok(re) => re,
        Err(_) => return None,
    };
    let caps = re.captures(haystack)?;
    let whole = caps.get(0)?;
    let group = match caps.get(1) {
        Some(m) => Some((m.start(), m.end())),
        None => None,
    };
    Some((whole.start(), whole.end(), group))
}

/// The pattern of an include directive: `#include "file"` or
/// `#include <file>`, the file name being the first group.
pub const INCLUDE_PATTERN: &'static str = "#include [\"<](.*)[\">]";

/// The number of characters of `text` whose UTF-8 encoding takes the first
/// `byte` bytes.
pub open spec fn char_offset(text: Seq<char>, byte: int) -> int {
    decode_utf8(encode_utf8(text).subrange(0, byte)).len() as int
}

/// Encoding a concatenation encodes each part.
proof fn lemma_encode_concat(a: Seq<char>, b: Seq<char>)
    ensures
        encode_utf8(a + b) == encode_utf8(a) + encode_utf8(b),
    decreases a.len(),
{
    if a.len() == 0 {
        assert(a + b =~= b);
    } else {
        lemma_encode_concat(a.drop_first(), b);
        assert((a + b).drop_first() =~= a.drop_first() + b);
        assert((a + b)[0] == a[0]);
        assert(encode_utf8(a + b) =~= encode_scalar(a[0] as u32) + (encode_utf8(a.drop_first())
            + encode_utf8(b)));
    }
}

/// Characters take at least one byte each.
proof fn lemma_encode_len(a: Seq<char>)
    ensures
        encode_utf8(a).len() >= a.len(),
    decreases a.len(),
{
    if a.len() > 0 {
        lemma_encode_len(a.drop_first());
    }
}

/// At a character boundary, the first `char_offset` characters are exactly
/// those that the bytes before the boundary encode.
proof fn lemma_char_offset(text: Seq<char>, byte: int)
    requires
        0 <= byte <= encode_utf8(text).len(),
        is_char_boundary(encode_utf8(text), byte),
    ensures
        0 <= char_offset(text, byte) <= text.len(),
        text.take(char_offset(text, byte)) == decode_utf8(encode_utf8(text).subrange(0, byte)),
        encode_utf8(text.take(char_offset(text, byte))).len() == byte,
{
    let bytes = encode_utf8(text);
    encode_utf8_valid_utf8(text);
    encode_utf8_decode_utf8(text);
    decode_utf8_split(bytes, byte);
    valid_utf8_split(bytes, byte);
    let a = decode_utf8(bytes.subrange(0, byte));
    let b = decode_utf8(bytes.subrange(byte, bytes.len() as int));
    assert(text == a + b);
    assert(text.take(a.len() as int) =~= a);
    decode_utf8_encode_utf8(bytes.subrange(0, byte));
}

/// Later boundaries lie after more characters.
proof fn lemma_char_offset_monotonic(text: Seq<char>, b1: int, b2: int)
    requires
        0 <= b1 <= b2 <= encode_utf8(text).len(),
        is_char_boundary(encode_utf8(text), b1),
        is_char_boundary(encode_utf8(text), b2),
    ensures
        char_offset(text, b1) <= char_offset(text, b2),
        b1 < b2 ==> char_offset(text, b1) < char_offset(text, b2),
{
    lemma_char_offset(text, b1);
    lemma_char_offset(text, b2);
    let k1 = char_offset(text, b1);
    let k2 = char_offset(text, b2);
    if k1 >= k2 {
        let mid = text.subrange(k2, k1);
        assert(text.take(k1) =~= text.take(k2) + mid);
        lemma_encode_concat(text.take(k2), mid);
        lemma_encode_len(mid);
    }
}

/// The character position in `text` of the byte offset `byte`.
fn char_index_at_byte(text: &str, byte: usize) -> (r: usize)
    requires
        byte <= encode_utf8(text@).len(),
        is_char_boundary(encode_utf8(text@), byte as int),
    ensures
        r as int == char_offset(text@, byte as int),
        r <= text@.len(),
{
    proof {
        lemma_char_offset(text@, byte as int);
    }
    let (head, _) = text.split_at(byte);
    proof {
        encode_utf8_decode_utf8(head@);
    }
    head.unicode_len()
}

/// A regex capture report for `code` (see `regex_first_captures`) read as
/// an include directive, by character positions: where it starts, where it
/// ends and the file it names, if it names one.
pub open spec fn include_from_capture(
    code: Seq<char>,
    capture: Option<(usize, usize, Option<(usize, usize)>)>,
) -> Option<(int, int, Option<Seq<char>>)> {
    match capture {
        None => None,
        Some((s, e, g)) => Some(
            (
                char_offset(code, s as int),
                char_offset(code, e as int),
                match g {
                    Some((gs, ge)) => Some(
                        code.subrange(char_offset(code, gs as int), char_offset(code, ge as int)),
                    ),
                    None => None,
                },
            ),
        ),
    }
}

/// The byte ranges of a capture report lie within `code` and on character
/// boundaries, start before end.
pub open spec fn capture_fits(
    code: Seq<char>,
    capture: Option<(usize, usize, Option<(usize, usize)>)>,
) -> bool {
    capture matches Some((s, e, g)) ==> {
        let bytes = encode_utf8(code);
        &&& s <= e <= bytes.len()
        &&& is_char_boundary(bytes, s as int)
        &&& is_char_boundary(bytes, e as int)
        &&& g matches Some((gs, ge)) ==> {
            &&& gs <= ge <= bytes.len()
            &&& is_char_boundary(bytes, gs as int)
            &&& is_char_boundary(bytes, ge as int)
        }
    }
}

/// The first include directive in `code`, by character positions: where it
/// starts, where it ends and the file it names, if it names one.
pub open spec fn first_include(code: Seq<char>) -> Option<(int, int, Option<Seq<char>>)> {
    include_from_capture(code, regex_first_captures(INCLUDE_PATTERN@, code))
}

/// The names and texts of the shader sources.
pub open spec fn source_texts(sources: Seq<(String, String)>) -> Seq<(Seq<char>, Seq<char>)> {
    sources.map_values(|p: (String, String)| (p.0@, p.1@))
}

/// The text of the first source called `name`, if there is one.
pub open spec fn source_named(sources: Seq<(Seq<char>, Seq<char>)>, name: Seq<char>) -> Option<
    Seq<char>,
>
    decreases sources.len(),
{
    if sources.len() == 0 {
        None
    } else if sources[0].0 == name {
        Some(sources[0].1)
    } else {
        source_named(sources.drop_first(), name)
    }
}

/// What one step of include resolution does.
pub enum IncludeStep {
    /// No include directive is left.
    Done,
    /// The first directive was replaced: the code is now `code`, and the
    /// files in `included` have been pasted in.
    Next { code: Seq<char>, included: Set<Seq<char>> },
    /// The first directive names a file that no source has.
    Missing { file: Seq<char> },
    /// The first directive has no file name, or is empty and names a file
    /// pasted in already, so that replacing it changes nothing.
    Malformed,
}

/// One step of include resolution on `code`, where the files in `included`
/// have been pasted in already: the first directive is replaced by the text
/// of the file it names, or removed if that file was pasted in before.
pub open spec fn include_step(
    sources: Seq<(Seq<char>, Seq<char>)>,
    code: Seq<char>,
    included: Set<Seq<char>>,
) -> IncludeStep {
    step_at(sources, code, included, first_include(code))
}

/// One step of include resolution on `code` when its first directive is
/// `found`.
pub open spec fn step_at(
    sources: Seq<(Seq<char>, Seq<char>)>,
    code: Seq<char>,
    included: Set<Seq<char>>,
    found: Option<(int, int, Option<Seq<char>>)>,
) -> IncludeStep {
    match found {
        None => IncludeStep::Done,
        Some((s, e, None)) => IncludeStep::Malformed,
        Some((s, e, Some(file))) => if included.contains(file) {
            if s == e {
                IncludeStep::Malformed
            } else {
                IncludeStep::Next { code: code.take(s) + code.skip(e), included }
            }
        } else {
            match source_named(sources, file) {
                None => IncludeStep::Missing { file },
                Some(text) => IncludeStep::Next {
                    code: code.take(s) + text + code.skip(e),
                    included: included.insert(file),
                },
            }
        },
    }
}

/// `run` is a run of include resolution on `code`: it starts from `code`
/// with nothing pasted in, and each state is the step of the one before.
pub open spec fn is_include_run(
    sources: Seq<(Seq<char>, Seq<char>)>,
    code: Seq<char>,
    run: Seq<(Seq<char>, Set<Seq<char>>)>,
) -> bool {
    &&& run.len() > 0
    &&& run[0] == (code, Set::<Seq<char>>::empty())
    &&& forall|i: int|
        0 <= i < run.len() - 1 ==> #[trigger] include_step(sources, run[i].0, run[i].1)
            == (IncludeStep::Next { code: run[i + 1].0, included: run[i + 1].1 })
}

/// Resolution of `code` stops at `last`: some run from `code` ends in a state
/// whose step is `last`.
pub open spec fn include_run_stops(
    sources: Seq<(Seq<char>, Seq<char>)>,
    code: Seq<char>,
    last: IncludeStep,
    result: Seq<char>,
) -> bool {
    exists|run: Seq<(Seq<char>, Set<Seq<char>>)>|
        #[trigger] is_include_run(sources, code, run) && include_step(
            sources,
            run.last().0,
            run.last().1,
        ) == last && run.last().0 == result
}

/// Why the includes of a shader could not be resolved.
pub enum IncludeError {
    /// A directive names this file, and no source has it.
    MissingSource(String),
    /// A directive has no file name, or cannot be replaced.
    Malformed,
}

/// `r` is what resolving the includes of `code` gives.
pub open spec fn resolves_to(
    sources: Seq<(Seq<char>, Seq<char>)>,
    code: Seq<char>,
    r: Result<String, IncludeError>,
) -> bool {
    match r {
        Ok(s) => include_run_stops(sources, code, IncludeStep::Done, s@),
        Err(IncludeError::MissingSource(f)) => exists|last: Seq<char>|
            #[trigger] include_run_stops(sources, code, IncludeStep::Missing { file: f@ }, last),
        Err(IncludeError::Malformed) => exists|last: Seq<char>|
            #[trigger] include_run_stops(sources, code, IncludeStep::Malformed, last),
    }
}

/// The names in `names`, as a set.
pub open spec fn name_set(names: Seq<String>) -> Set<Seq<char>> {
    Set::new(|n: Seq<char>| exists|i: int| 0 <= i < names.len() && #[trigger] names[i]@ == n)
}

/// The number of sources whose name is not in `included`.
pub open spec fn count_not_included(
    sources: Seq<(Seq<char>, Seq<char>)>,
    included: Set<Seq<char>>,
) -> nat
    decreases sources.len(),
{
    if sources.len() == 0 {
        0
    } else {
        count_not_included(sources.drop_last(), included) + if included.contains(
            sources.last().0,
        ) {
            0nat
        } else {
            1nat
        }
    }
}

proof fn lemma_count_insert(
    sources: Seq<(Seq<char>, Seq<char>)>,
    included: Set<Seq<char>>,
    file: Seq<char>,
)
    ensures
        count_not_included(sources, included.insert(file)) <= count_not_included(
            sources,
            included,
        ),
        !included.contains(file) && source_named(sources, file) is Some ==> count_not_included(
            sources,
            included.insert(file),
        ) < count_not_included(sources, included),
    decreases sources.len(),
{
    if sources.len() > 0 {
        lemma_count_insert(sources.drop_last(), included, file);
        if !included.contains(file) && source_named(sources, file) is Some {
            lemma_named_in(sources, file);
            let i = choose|i: int| 0 <= i < sources.len() && sources[i].0 == file;
            if i < sources.len() - 1 {
                assert(sources.drop_last()[i].0 == file);
                lemma_in_named(sources.drop_last(), file, i);
            }
        }
    }
}

proof fn lemma_named_in(sources: Seq<(Seq<char>, Seq<char>)>, name: Seq<char>)
    requires
        source_named(sources, name) is Some,
    ensures
        exists|i: int| 0 <= i < sources.len() && sources[i].0 == name,
    decreases sources.len(),
{
    if sources[0].0 != name {
        lemma_named_in(sources.drop_first(), name);
        let i = choose|i: int|
            0 <= i < sources.drop_first().len() && sources.drop_first()[i].0 == name;
        assert(sources[i + 1].0 == name);
    }
}

proof fn lemma_in_named(sources: Seq<(Seq<char>, Seq<char>)>, name: Seq<char>, i: int)
    requires
        0 <= i < sources.len(),
        sources[i].0 == name,
    ensures
        source_named(sources, name) is Some,
    decreases sources.len(),
{
    if sources[0].0 != name {
        lemma_in_named(sources.drop_first(), name, i - 1);
    }
}

/// The index of the first source called `name`, if there is one.
fn find_source(sources: &Vec<(String, String)>, name: &str) -> (r: Option<usize>)
    ensures
        match r {
            Some(k) => k < sources@.len() && source_named(source_texts(sources@), name@) == Some(
                sources@[k as int].1@,
            ),
            None => source_named(source_texts(sources@), name@) is None,
        },
{
    let ghost all = source_texts(sources@);
    let mut i: usize = 0;
    assert(all.skip(0) =~= all);
    while i < sources.len()
        invariant
            i <= sources@.len(),
            all == source_texts(sources@),
            source_named(all, name@) == source_named(all.skip(i as int), name@),
        decreases sources@.len() - i,
    {
        let ghost rest = all.skip(i as int);
        if str_eq(sources[i].0.as_str(), name) {
            return Some(i);
        }
        assert(rest.drop_first() =~= all.skip(i + 1));
        i = i + 1;
    }
    proof {
        assert(all.skip(i as int).len() == 0);
    }
    None
}

/// Whether `names` holds `name`.
fn contains_name(names: &Vec<String>, name: &str) -> (r: bool)
    ensures
        r == name_set(names@).contains(name@),
{
    let mut i: usize = 0;
    while i < names.len()
        invariant
            i <= names@.len(),
            forall|j: int| 0 <= j < i ==> names@[j]@ != name@,
        decreases names@.len() - i,
    {
        if str_eq(names[i].as_str(), name) {
            assert(names@[i as int]@ == name@);
            return true;
        }
        i = i + 1;
    }
    false
}

/// Carries out one step of include resolution on `code`, whose first
/// include directive the regex reported as `capture`, with the files in
/// `included` pasted in already. `Ok(None)`: no directive is left.
/// `Ok(Some((next, pasted)))`: the directive was replaced, giving `next`;
/// `pasted` names the file pasted in, or is `None` when the file had been
/// pasted before and the directive was removed.
pub fn resolve_first_include(
    code: &str,
    capture: Option<(usize, usize, Option<(usize, usize)>)>,
    included: &Vec<String>,
    sources: &Vec<(String, String)>,
) -> (r: Result<Option<(String, Option<String>)>, IncludeError>)
    requires
        capture_fits(code@, capture),
    ensures
        ({
            let step = step_at(
                source_texts(sources@),
                code@,
                name_set(included@),
                include_from_capture(code@, capture),
            );
            match r {
                Ok(None) => step == IncludeStep::Done,
                Ok(Some((next, None))) => {
                    &&& next@.len() < code@.len()
                    &&& step == (IncludeStep::Next { code: next@, included: name_set(included@) })
                },
                Ok(Some((next, Some(file)))) => {
                    &&& !name_set(included@).contains(file@)
                    &&& source_named(source_texts(sources@), file@) is Some
                    &&& step == (IncludeStep::Next {
                        code: next@,
                        included: name_set(included@).insert(file@),
                    })
                },
                Err(IncludeError::MissingSource(f)) => step == (IncludeStep::Missing { file: f@ }),
                Err(IncludeError::Malformed) => step == IncludeStep::Malformed,
            }
        }),
{
    let ghost srcs = source_texts(sources@);
    let ghost cur = code@;
    let ghost inc = name_set(included@);
    match capture {
        None => Ok(None),
        Some((s, e, group)) => {
            match group {
                None => Err(IncludeError::Malformed),
                Some((gs, ge)) => {
                    proof {
                        lemma_char_offset_monotonic(cur, s as int, e as int);
                        lemma_char_offset_monotonic(cur, gs as int, ge as int);
                    }
                    let cs = char_index_at_byte(code, s);
                    let ce = char_index_at_byte(code, e);
                    let cgs = char_index_at_byte(code, gs);
                    let cge = char_index_at_byte(code, ge);
                    let file = code.substring_char(cgs, cge);
                    let pre = code.substring_char(0, cs);
                    let post = code.substring_char(ce, code.unicode_len());
                    assert(include_from_capture(cur, capture) == Some(
                        (cs as int, ce as int, Some(file@)),
                    ));
                    assert(pre@ =~= cur.take(cs as int));
                    assert(post@ =~= cur.skip(ce as int));
                    if contains_name(included, file) {
                        if cs == ce {
                            return Err(IncludeError::Malformed);
                        }
                        let mut next = String::from_str(pre);
                        next.append(post);
                        Ok(Some((next, None)))
                    } else {
                        match find_source(sources, file) {
                            None => Err(IncludeError::MissingSource(String::from_str(file))),
                            Some(k) => {
                                let mut next = String::from_str(pre);
                                next.append(sources[k].1.as_str());
                                next.append(post);
                                Ok(Some((next, Some(String::from_str(file)))))
                            },
                        }
                    }
                },
            }
        },
    }
}

/// Replaces each include directive of `code` by the text of the source it
/// names, once per file: a file already pasted in is not pasted again, its
/// directive is removed. Pasted text is searched for directives too.
pub fn resolve_includes(code: &str, sources: &Vec<(String, String)>) -> (r: Result<
    String,
    IncludeError,
>)
    ensures
        resolves_to(source_texts(sources@), code@, r),
        r matches Ok(s) ==> first_include(s@) is None,
{
    let ghost srcs = source_texts(sources@);
    let mut current = String::from_str(code);
    let mut included: Vec<String> = Vec::new();
    let ghost mut run: Seq<(Seq<char>, Set<Seq<char>>)> = seq![(code@, Set::<Seq<char>>::empty())];
    proof {
        assert(name_set(included@) =~= Set::<Seq<char>>::empty());
    }
    loop
        invariant
            srcs == source_texts(sources@),
            is_include_run(srcs, code@, run),
            run.last() == (current@, name_set(included@)),
        decreases count_not_included(srcs, name_set(included@)), current@.len(),
    {
        let ghost inc = name_set(included@);
        let ghost cur = current@;
        let capture = first_captures(INCLUDE_PATTERN, current.as_str());
        match resolve_first_include(current.as_str(), capture, &included, sources) {
            Ok(None) => {
                assert(include_step(srcs, cur, inc) == IncludeStep::Done);
                return Ok(current);
            },
            Err(err) => {
                assert(include_run_stops(srcs, code@, include_step(srcs, cur, inc), cur));
                return Err(err);
            },
            Ok(Some((next, pasted))) => {
                let ghost next_inc = match &pasted {
                    Some(f) => inc.insert(f@),
                    None => inc,
                };
                assert(include_step(srcs, cur, inc) == (IncludeStep::Next {
                    code: next@,
                    included: next_inc,
                }));
                match pasted {
                    Some(file) => {
                        let ghost before = included@;
                        let ghost fv = file@;
                        proof {
                            lemma_count_insert(srcs, inc, file@);
                        }
                        included.push(file);
                        proof {
                            assert(name_set(included@) =~= inc.insert(fv)) by {
                                assert(included@[before.len() as int]@ == fv);
                                assert forall|n: Seq<char>|
                                    #[trigger] name_set(included@).contains(n) implies inc.insert(
                                    fv,
                                ).contains(n) by {
                                    let j = choose|j: int|
                                        0 <= j < included@.len() && #[trigger] included@[j]@ == n;
                                    if j < before.len() {
                                        assert(before[j]@ == n);
                                    }
                                }
                                assert forall|n: Seq<char>|
                                    #[trigger] inc.insert(fv).contains(n) implies name_set(
                                    included@,
                                ).contains(n) by {
                                    if n != fv {
                                        let j = choose|j: int|
                                            0 <= j < before.len() && #[trigger] before[j]@ == n;
                                        assert(included@[j]@ == n);
                                    }
                                }
                            }
                        }
                    },
                    None => {},
                }
                current = next;
                proof {
                    let next_state = (current@, name_set(included@));
                    let run2 = run.push(next_state);
                    assert forall|i: int| 0 <= i < run2.len() - 1 implies #[trigger] include_step(
                        srcs,
                        run2[i].0,
                        run2[i].1,
                    ) == (IncludeStep::Next { code: run2[i + 1].0, included: run2[i + 1].1 }) by {
                        if i < run.len() - 1 {
                            assert(run2[i] == run[i]);
                            assert(run2[i + 1] == run[i + 1]);
                        }
                    }
                    run = run2;
                }
            },
        }
    }
}

/// The sources with the includes of each resolved against all of them; the
/// error of a source whose includes cannot be resolved, if there is one.
pub fn resolve_all_includes(sources: &Vec<(String, String)>) -> (r: Result<
    Vec<(String, String)>,
    IncludeError,
>)
    ensures
        match r {
            Ok(v) => {
                &&& v@.len() == sources@.len()
                &&& forall|i: int|
                    0 <= i < v@.len() ==> {
                        &&& #[trigger] v@[i].0@ == sources@[i].0@
                        &&& resolves_to(source_texts(sources@), sources@[i].1@, Ok(v@[i].1))
                    }
            },
            Err(e) => exists|i: int|
                0 <= i < sources@.len() && resolves_to(
                    source_texts(sources@),
                    #[trigger] sources@[i].1@,
                    Err(e),
                ),
        },
{
    let mut out: Vec<(String, String)> = Vec::new();
    let mut i: usize = 0;
    while i < sources.len()
        invariant
            i <= sources@.len(),
            out@.len() == i,
            forall|j: int|
                0 <= j < i ==> {
                    &&& #[trigger] out@[j].0@ == sources@[j].0@
                    &&& resolves_to(source_texts(sources@), sources@[j].1@, Ok(out@[j].1))
                },
        decreases sources@.len() - i,
    {
        match resolve_includes(sources[i].1.as_str(), sources) {
            Ok(code) => {
                out.push((sources[i].0.clone(), code));
            },
            Err(e) => {
                return Err(e);
            },
        }
        i = i + 1;
    }
    Ok(out)
}

/// Two runs of include resolution from the same code agree for as long as
/// both last: each step is determined by the state before it.
proof fn lemma_runs_agree(
    sources: Seq<(Seq<char>, Seq<char>)>,
    code: Seq<char>,
    r1: Seq<(Seq<char>, Set<Seq<char>>)>,
    r2: Seq<(Seq<char>, Set<Seq<char>>)>,
    i: int,
)
    requires
        is_include_run(sources, code, r1),
        is_include_run(sources, code, r2),
        0 <= i < r1.len(),
        i < r2.len(),
    ensures
        r1[i] == r2[i],
    decreases i,
{
    if i > 0 {
        lemma_runs_agree(sources, code, r1, r2, i - 1);
        assert(include_step(sources, r1[i - 1].0, r1[i - 1].1) == (IncludeStep::Next {
            code: r1[i].0,
            included: r1[i].1,
        }));
        assert(include_step(sources, r2[i - 1].0, r2[i - 1].1) == (IncludeStep::Next {
            code: r2[i].0,
            included: r2[i].1,
        }));
    }
}

/// A run that stops cannot be continued: a longer run from the same code
/// would take a step from the state where the shorter one stopped.
proof fn lemma_stopped_run_is_longest(
    sources: Seq<(Seq<char>, Seq<char>)>,
    code: Seq<char>,
    r1: Seq<(Seq<char>, Set<Seq<char>>)>,
    r2: Seq<(Seq<char>, Set<Seq<char>>)>,
)
    requires
        is_include_run(sources, code, r1),
        is_include_run(sources, code, r2),
        !(include_step(sources, r1.last().0, r1.last().1) is Next),
    ensures
        r2.len() <= r1.len(),
{
    if r2.len() > r1.len() {
        let i = r1.len() - 1;
        lemma_runs_agree(sources, code, r1, r2, i);
        assert(include_step(sources, r2[i].0, r2[i].1) == (IncludeStep::Next {
            code: r2[i + 1].0,
            included: r2[i + 1].1,
        }));
    }
}

/// Include resolution has one outcome: the stopping step and the code it
/// stops on are the same for every run from the same code.
pub proof fn lemma_resolution_is_deterministic(
    sources: Seq<(Seq<char>, Seq<char>)>,
    code: Seq<char>,
    last1: IncludeStep,
    result1: Seq<char>,
    last2: IncludeStep,
    result2: Seq<char>,
)
    requires
        !(last1 is Next),
        !(last2 is Next),
        include_run_stops(sources, code, last1, result1),
        include_run_stops(sources, code, last2, result2),
    ensures
        last1 == last2,
        result1 == result2,
{
    let r1 = choose|run: Seq<(Seq<char>, Set<Seq<char>>)>|
        #[trigger] is_include_run(sources, code, run) && include_step(
            sources,
            run.last().0,
            run.last().1,
        ) == last1 && run.last().0 == result1;
    let r2 = choose|run: Seq<(Seq<char>, Set<Seq<char>>)>|
        #[trigger] is_include_run(sources, code, run) && include_step(
            sources,
            run.last().0,
            run.last().1,
        ) == last2 && run.last().0 == result2;
    lemma_stopped_run_is_longest(sources, code, r1, r2);
    lemma_stopped_run_is_longest(sources, code, r2, r1);
    lemma_runs_agree(sources, code, r1, r2, r1.len() - 1);
}

} // verus!
