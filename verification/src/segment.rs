//! Placeholder-preserving text segmentation.
//!
//! A placeholder is a maximal substring of the form `{`, one or more
//! characters other than `}`, then `}`.  Text is split into literal spans
//! and placeholder spans; only trimmed, non-empty literal spans are handed
//! to the translation backend, and the placeholders are put back verbatim,
//! in their original order.

use vstd::prelude::*;

use crate::json_handler::{Error, ErrorType};
use crate::translate::Translate;

verus! {

/// Whitespace, by the Unicode `White_Space` property.
pub open spec fn is_space(c: char) -> bool {
    let n = c as u32;
    ||| n == 0x20
    ||| (0x9 <= n && n <= 0xD)
    ||| n == 0x85
    ||| n == 0xA0
    ||| n == 0x1680
    ||| (0x2000 <= n && n <= 0x200A)
    ||| n == 0x2028
    ||| n == 0x2029
    ||| n == 0x202F
    ||| n == 0x205F
    ||| n == 0x3000
}

pub fn is_space_char(c: char) -> (r: bool)
    ensures
        r == is_space(c),
{
    let n = c as u32;
    n == 0x20 || (0x9 <= n && n <= 0xD) || n == 0x85 || n == 0xA0 || n == 0x1680 || (0x2000 <= n
        && n <= 0x200A) || n == 0x2028 || n == 0x2029 || n == 0x202F || n == 0x205F || n == 0x3000
}

/// The first index at or after `i` holding a non-space character, or the
/// length if there is none.
pub open spec fn first_non_space(t: Seq<char>, i: int) -> int
    decreases t.len() - i,
{
    if i < 0 || i >= t.len() {
        t.len() as int
    } else if is_space(t[i]) {
        first_non_space(t, i + 1)
    } else {
        i
    }
}

/// One past the last index below `j` holding a non-space character, or 0 if
/// there is none.
pub open spec fn end_non_space(t: Seq<char>, j: int) -> int
    decreases j,
{
    if j <= 0 {
        0
    } else if is_space(t[j - 1]) {
        end_non_space(t, j - 1)
    } else {
        j
    }
}

/// `t` without leading and trailing whitespace.
pub open spec fn trim_spec(t: Seq<char>) -> Seq<char> {
    let a = first_non_space(t, 0);
    let b = end_non_space(t, t.len() as int);
    if a >= b {
        Seq::empty()
    } else {
        t.subrange(a, b)
    }
}

proof fn lemma_first_non_space(t: Seq<char>, i: int)
    requires
        0 <= i <= t.len(),
    ensures
        i <= first_non_space(t, i) <= t.len(),
        forall|k: int| i <= k < first_non_space(t, i) ==> is_space(t[k]),
        first_non_space(t, i) < t.len() ==> !is_space(t[first_non_space(t, i)]),
    decreases t.len() - i,
{
    if i < t.len() && is_space(t[i]) {
        lemma_first_non_space(t, i + 1);
    }
}

proof fn lemma_end_non_space(t: Seq<char>, j: int)
    requires
        0 <= j <= t.len(),
    ensures
        0 <= end_non_space(t, j) <= j,
        forall|k: int| end_non_space(t, j) <= k < j ==> is_space(t[k]),
        end_non_space(t, j) > 0 ==> !is_space(t[end_non_space(t, j) - 1]),
    decreases j,
{
    if j > 0 && is_space(t[j - 1]) {
        lemma_end_non_space(t, j - 1);
    }
}

/// Trimming drops only whitespace from the two ends: the result is a
/// subrange of `t`, both cut margins are all whitespace, and what is left
/// neither starts nor ends with whitespace.
pub proof fn lemma_trim_spec(t: Seq<char>)
    ensures
        ({
            let a = first_non_space(t, 0);
            let b = end_non_space(t, t.len() as int);
            &&& 0 <= a <= t.len()
            &&& 0 <= b <= t.len()
            &&& forall|k: int| 0 <= k < a ==> is_space(t[k])
            &&& forall|k: int| b <= k < t.len() ==> is_space(t[k])
            &&& (a < b ==> trim_spec(t) == t.subrange(a, b))
            &&& (a >= b ==> trim_spec(t) == Seq::<char>::empty())
        }),
{
    lemma_first_non_space(t, 0);
    lemma_end_non_space(t, t.len() as int);
    let a = first_non_space(t, 0);
    let b = end_non_space(t, t.len() as int);
    if a >= b {
        assert forall|k: int| b <= k < t.len() implies is_space(t[k]) by {
            if k < a {
            } else {
            }
        }
    }
}

/// Trim a string: the executable form of [`trim_spec`].
pub fn trim_str<'a>(s: &'a str) -> (r: &'a str)
    ensures
        r@ == trim_spec(s@),
{
    let n = s.unicode_len();
    let mut a: usize = 0;
    while a < n && is_space_char(s.get_char(a))
        invariant
            n == s@.len(),
            a <= n,
            first_non_space(s@, 0) == first_non_space(s@, a as int),
        decreases n - a,
    {
        a += 1;
    }
    let mut b: usize = n;
    while b > 0 && is_space_char(s.get_char(b - 1))
        invariant
            n == s@.len(),
            b <= n,
            end_non_space(s@, n as int) == end_non_space(s@, b as int),
        decreases b,
    {
        b -= 1;
    }
    proof {
        assert(first_non_space(s@, a as int) == a || first_non_space(s@, a as int) == s@.len());
        assert(end_non_space(s@, b as int) == b || end_non_space(s@, b as int) == 0);
    }
    if a >= b {
        let r = s.substring_char(0, 0);
        proof {
            assert(r@ =~= trim_spec(s@));
        }
        r
    } else {
        let r = s.substring_char(a, b);
        proof {
            assert(r@ =~= trim_spec(s@));
        }
        r
    }
}

/// The first `}` at or after `j`, if any.
pub open spec fn close_from(t: Seq<char>, j: int) -> Option<int>
    decreases t.len() - j,
{
    if j < 0 || j >= t.len() {
        None
    } else if t[j] == '}' {
        Some(j)
    } else {
        close_from(t, j + 1)
    }
}

/// The leftmost placeholder starting at or after `i`, as the indices of its
/// braces: `{` at the first position, `}` at the second, with at least one
/// character between them and no `}` among those characters.
pub open spec fn match_from(t: Seq<char>, i: int) -> Option<(int, int)>
    decreases t.len() - i,
{
    if i < 0 || i >= t.len() {
        None
    } else if t[i] == '{' {
        match close_from(t, i + 1) {
            Some(e) => if e >= i + 2 {
                Some((i, e))
            } else {
                match_from(t, i + 1)
            },
            None => None,
        }
    } else {
        match_from(t, i + 1)
    }
}

proof fn lemma_close_from(t: Seq<char>, j: int)
    requires
        0 <= j <= t.len(),
    ensures
        match close_from(t, j) {
            Some(e) => j <= e < t.len() && t[e] == '}' && forall|k: int|
                j <= k < e ==> t[k] != '}',
            None => forall|k: int| j <= k < t.len() ==> t[k] != '}',
        },
    decreases t.len() - j,
{
    if j < t.len() && t[j] != '}' {
        lemma_close_from(t, j + 1);
    }
}

/// Where `match_from` finds a placeholder, the braces sit inside `t`, at
/// least two apart, with no `}` strictly between them.
pub proof fn lemma_match_from(t: Seq<char>, i: int)
    requires
        0 <= i,
    ensures
        match_from(t, i) matches Some(se) ==> {
            &&& i <= se.0
            &&& se.0 + 2 <= se.1 < t.len()
            &&& t[se.0] == '{'
            &&& t[se.1] == '}'
            &&& forall|k: int| se.0 < k < se.1 ==> t[k] != '}'
        },
    decreases t.len() - i,
{
    if i < t.len() {
        if t[i] == '{' {
            lemma_close_from(t, i + 1);
            match close_from(t, i + 1) {
                Some(e) => {
                    if e < i + 2 {
                        lemma_match_from(t, i + 1);
                    }
                },
                None => {},
            }
        } else {
            lemma_match_from(t, i + 1);
        }
    }
}

/// All placeholders starting at or after `i`, leftmost first,
/// non-overlapping.
pub open spec fn spans_from(t: Seq<char>, i: int) -> Seq<(int, int)>
    decreases t.len() - i,
    when i >= 0
    via spans_from_decreases
{
    match match_from(t, i) {
        Some(se) => seq![se] + spans_from(t, se.1 + 1),
        None => Seq::empty(),
    }
}

#[via_fn]
proof fn spans_from_decreases(t: Seq<char>, i: int) {
    lemma_match_from(t, i);
}

/// All placeholders of `t`, leftmost first.
pub open spec fn spans(t: Seq<char>) -> Seq<(int, int)> {
    spans_from(t, 0)
}

/// The spans listed by `spans_from` are well-formed placeholders in
/// strictly increasing, non-overlapping positions.
pub proof fn lemma_spans_from(t: Seq<char>, i: int)
    requires
        0 <= i,
    ensures
        forall|k: int|
            0 <= k < spans_from(t, i).len() ==> {
                let se = #[trigger] spans_from(t, i)[k];
                &&& i <= se.0
                &&& se.0 + 2 <= se.1 < t.len()
                &&& t[se.0] == '{'
                &&& t[se.1] == '}'
                &&& (forall|j: int| se.0 < j < se.1 ==> t[j] != '}')
                &&& (k > 0 ==> spans_from(t, i)[k - 1].1 + 1 <= se.0)
            },
    decreases t.len() - i,
{
    lemma_match_from(t, i);
    match match_from(t, i) {
        Some(se) => {
            lemma_spans_from(t, se.1 + 1);
            let sp = spans_from(t, i);
            let rest = spans_from(t, se.1 + 1);
            assert forall|k: int| 0 <= k < sp.len() implies {
                let se = #[trigger] sp[k];
                &&& i <= se.0
                &&& se.0 + 2 <= se.1 < t.len()
                &&& t[se.0] == '{'
                &&& t[se.1] == '}'
                &&& (forall|j: int| se.0 < j < se.1 ==> t[j] != '}')
                &&& (k > 0 ==> sp[k - 1].1 + 1 <= se.0)
            } by {
                if k > 0 {
                    assert(sp[k] == rest[k - 1]);
                    if k > 1 {
                        assert(sp[k - 1] == rest[k - 2]);
                    }
                }
            }
        },
        None => {},
    }
}

/// The spans of a scan result, as mathematical integers.
pub open spec fn as_int_spans(sp: Seq<(usize, usize)>) -> Seq<(int, int)> {
    sp.map_values(|p: (usize, usize)| (p.0 as int, p.1 as int))
}

/// The leftmost placeholder starting at or after `i0`, executably.
fn find_match_from(text: &str, i0: usize) -> (m: Option<(usize, usize)>)
    requires
        i0 <= text@.len(),
    ensures
        match m {
            Some(se) => match_from(text@, i0 as int) == Some((se.0 as int, se.1 as int)),
            None => match_from(text@, i0 as int) is None,
        },
{
    let n = text.unicode_len();
    let mut i = i0;
    while i < n
        invariant
            i0 <= i <= n,
            n == text@.len(),
            match_from(text@, i0 as int) == match_from(text@, i as int),
        decreases n - i,
    {
        let c = text.get_char(i);
        if c == '{' {
            let mut j = i + 1;
            while j < n && text.get_char(j) != '}'
                invariant
                    i + 1 <= j <= n,
                    n == text@.len(),
                    close_from(text@, i + 1 as int) == close_from(text@, j as int),
                decreases n - j,
            {
                j += 1;
            }
            if j < n {
                if j - i >= 2 {
                    return Some((i, j));
                } else {
                    i += 1;
                }
            } else {
                return None;
            }
        } else {
            i += 1;
        }
    }
    None
}

/// All placeholders of `text`, leftmost first, executably.
fn find_spans(text: &str) -> (sp: Vec<(usize, usize)>)
    ensures
        as_int_spans(sp@) == spans(text@),
{
    let ghost t = text@;
    let n = text.unicode_len();
    let mut sp: Vec<(usize, usize)> = Vec::new();
    let mut pos: usize = 0;
    loop
        invariant
            pos <= n,
            n == t.len(),
            t == text@,
            spans(t) == as_int_spans(sp@) + spans_from(t, pos as int),
        ensures
            spans(t) == as_int_spans(sp@),
        decreases n - pos,
    {
        match find_match_from(text, pos) {
            Some(se) => {
                proof {
                    lemma_match_from(t, pos as int);
                }
                let s = se.0;
                let e = se.1;
                sp.push((s, e));
                proof {
                    assert(spans_from(t, pos as int) == seq![(s as int, e as int)] + spans_from(
                        t,
                        e + 1 as int,
                    ));
                    assert(as_int_spans(sp@) =~= as_int_spans(sp@.drop_last()) + seq![
                        (s as int, e as int),
                    ]);
                    assert(as_int_spans(sp@) + spans_from(t, e + 1 as int) =~= as_int_spans(
                        sp@.drop_last(),
                    ) + spans_from(t, pos as int));
                }
                pos = e + 1;
            },
            None => {
                break ;
            },
        }
    }
    sp
}

/// What the run has produced after handling the first `k` placeholders and
/// the literal spans before each: `None` as soon as the backend has failed
/// on one of those literals.
pub open spec fn assembled<T: Translate>(
    tr: T,
    sl: Seq<char>,
    dl: Seq<char>,
    t: Seq<char>,
    k: int,
) -> Option<Seq<char>>
    decreases k,
{
    if k <= 0 {
        Some(Seq::empty())
    } else {
        match assembled(tr, sl, dl, t, k - 1) {
            None => None,
            Some(acc) => {
                let se = spans(t)[k - 1];
                let ph = t.subrange(se.0, se.1 + 1);
                let lit = trim_spec(t.subrange(piece_start(spans(t), k - 1), se.0));
                if lit.len() == 0 {
                    Some(acc + ph)
                } else if tr.succeeds(sl, dl, lit) {
                    Some(acc + tr.translation(sl, dl, lit) + seq![' '] + ph)
                } else {
                    None
                }
            },
        }
    }
}

/// Where the literal span before placeholder `k` begins: at the front of
/// the text for the first, otherwise right after the previous placeholder.
pub open spec fn piece_start(sp: Seq<(int, int)>, k: int) -> int {
    if k <= 0 {
        0
    } else {
        sp[k - 1].1 + 1
    }
}

/// What segment-and-translate returns, as a function of the backend:
/// `None` exactly when the backend fails on some piece that is sent to it.
/// A text without placeholders is handed to the backend whole, and the
/// answer returned untouched; otherwise translated literals and verbatim
/// placeholders alternate, a single space around each translated literal,
/// and the whole is trimmed.
pub open spec fn seg_result<T: Translate>(
    tr: T,
    sl: Seq<char>,
    dl: Seq<char>,
    t: Seq<char>,
) -> Option<Seq<char>> {
    let sp = spans(t);
    if sp.len() == 0 {
        if tr.succeeds(sl, dl, t) {
            Some(tr.translation(sl, dl, t))
        } else {
            None
        }
    } else {
        match assembled(tr, sl, dl, t, sp.len() as int) {
            None => None,
            Some(acc) => {
                let tail = trim_spec(t.subrange(sp[sp.len() - 1].1 + 1, t.len() as int));
                if tail.len() == 0 {
                    Some(trim_spec(acc))
                } else if tr.succeeds(sl, dl, tail) {
                    Some(trim_spec(acc + seq![' '] + tr.translation(sl, dl, tail)))
                } else {
                    None
                }
            },
        }
    }
}

/// Once a literal span has failed, the whole assembly stays failed.
proof fn lemma_assembled_none<T: Translate>(
    tr: T,
    sl: Seq<char>,
    dl: Seq<char>,
    t: Seq<char>,
    k: int,
    m: int,
)
    requires
        0 <= k <= m,
        assembled(tr, sl, dl, t, k) is None,
    ensures
        assembled(tr, sl, dl, t, m) is None,
    decreases m - k,
{
    if k < m {
        lemma_assembled_none(tr, sl, dl, t, k, m - 1);
    }
}

proof fn lemma_space_view()
    ensures
        " "@ == seq![' '],
{
    reveal_strlit(" ");
    assert(" "@ =~= seq![' ']);
}

/// Translate the literal spans before each placeholder and interleave them
/// with the placeholders, exactly as [`assembled`] describes.
#[verifier::rlimit(100)]
fn assemble<T: Translate>(
    text: &str,
    sp: &Vec<(usize, usize)>,
    src_lang: &str,
    dst_lang: &str,
    translator: &T,
    idle: u64,
) -> (r: Result<String, Error>)
    requires
        as_int_spans(sp@) == spans(text@),
        sp@.len() > 0,
    ensures
        match r {
            Ok(out) => assembled(*translator, src_lang@, dst_lang@, text@, spans(text@).len() as int)
                == Some(out@),
            Err(e) => assembled(*translator, src_lang@, dst_lang@, text@, spans(text@).len() as int)
                is None && e.kind() == ErrorType::TranslateError,
        },
{
    let ghost t = text@;
    let ghost sl = src_lang@;
    let ghost dl = dst_lang@;
    let n = text.unicode_len();
    proof {
        lemma_spans_from(t, 0);
        lemma_space_view();
    }
    let mut result = String::new();
    let mut last_end: usize = 0;
    let mut k: usize = 0;
    while k < sp.len()
        invariant
            t == text@,
            sl == src_lang@,
            dl == dst_lang@,
            n == t.len(),
            as_int_spans(sp@) == spans(t),
            k <= sp@.len(),
            last_end == piece_start(spans(t), k as int),
            last_end <= n,
            assembled(*translator, sl, dl, t, k as int) == Some(result@),
        decreases sp@.len() - k,
    {
        proof {
            lemma_spans_from(t, 0);
            lemma_space_view();
            assert(spans(t)[k as int] == (sp@[k as int].0 as int, sp@[k as int].1 as int));
        }
        let s = sp[k].0;
        let e = sp[k].1;
        if s > last_end {
            let lit = trim_str(text.substring_char(last_end, s));
            if !lit.is_empty() {
                match translator.translate(src_lang, dst_lang, lit, idle) {
                    Ok(tr_lit) => {
                        result.append(tr_lit.as_str());
                        result.append(" ");
                    },
                    Err(err) => {
                        proof {
                            assert(assembled(*translator, sl, dl, t, k + 1 as int) is None);
                            lemma_assembled_none(
                                *translator,
                                sl,
                                dl,
                                t,
                                k + 1 as int,
                                spans(t).len() as int,
                            );
                        }
                        return Err(Error::new(ErrorType::TranslateError, err.message()));
                    },
                }
            }
        }
        result.append(text.substring_char(s, e + 1));
        last_end = e + 1;
        k += 1;
    }
    Ok(result)
}

/// Segment `text` around its placeholders and translate the literal spans
/// through `translator`; see [`seg_result`] for the exact outcome.
#[verifier::rlimit(60)]
pub fn translate<T: Translate>(
    text: &str,
    src_lang: &str,
    dst_lang: &str,
    translator: &T,
    idle: u64,
) -> (r: Result<String, Error>)
    ensures
        match r {
            Ok(out) => seg_result(*translator, src_lang@, dst_lang@, text@) == Some(out@),
            Err(e) => seg_result(*translator, src_lang@, dst_lang@, text@) is None && e.kind()
                == ErrorType::TranslateError,
        },
{
    let ghost t = text@;
    let ghost sl = src_lang@;
    let ghost dl = dst_lang@;
    let sp = find_spans(text);
    proof {
        lemma_spans_from(t, 0);
        lemma_space_view();
    }
    if sp.len() == 0 {
        match translator.translate(src_lang, dst_lang, text, idle) {
            Ok(s) => Ok(s),
            Err(err) => Err(Error::new(ErrorType::TranslateError, err.message())),
        }
    } else {
        let n = text.unicode_len();
        let mut result = match assemble(text, &sp, src_lang, dst_lang, translator, idle) {
            Ok(acc) => acc,
            Err(err) => {
                return Err(err);
            },
        };
        proof {
            assert(spans(t)[spans(t).len() - 1] == (
                sp@[sp@.len() - 1].0 as int,
                sp@[sp@.len() - 1].1 as int,
            ));
        }
        let last_end = sp[sp.len() - 1].1 + 1;
        if last_end < n {
            let tail = trim_str(text.substring_char(last_end, n));
            if !tail.is_empty() {
                match translator.translate(src_lang, dst_lang, tail, idle) {
                    Ok(tr_tail) => {
                        result.append(" ");
                        result.append(tr_tail.as_str());
                    },
                    Err(err) => {
                        return Err(Error::new(ErrorType::TranslateError, err.message()));
                    },
                }
            }
        }
        let trimmed = trim_str(result.as_str());
        Ok(trimmed.to_owned())
    }
}

} // verus!
