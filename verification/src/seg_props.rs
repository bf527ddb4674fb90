//! Placeholder preservation: whatever the backend answers, the
//! placeholders of a segmented text come out verbatim and in order.

use vstd::prelude::*;

use crate::segment::{
    assembled, end_non_space, first_non_space, is_space, lemma_spans_from, lemma_trim_spec,
    piece_start, seg_result, spans, trim_spec,
};
use crate::translate::Translate;

verus! {

/// The text of each placeholder of `t`, in order.
pub open spec fn placeholder_texts(t: Seq<char>) -> Seq<Seq<char>> {
    Seq::new(spans(t).len(), |k: int| t.subrange(spans(t)[k].0, spans(t)[k].1 + 1))
}

/// The strings of `phs` occur in `out`, in order, without overlap, the
/// first no earlier than `from`.
pub open spec fn contains_from(out: Seq<char>, phs: Seq<Seq<char>>, from: int) -> bool
    decreases phs.len(),
{
    phs.len() == 0 || (exists|p: int|
        {
            &&& from <= p
            &&& p + phs[0].len() <= out.len()
            &&& #[trigger] out.subrange(p, p + phs[0].len()) == phs[0]
            &&& contains_from(out, phs.drop_first(), p + phs[0].len())
        })
}

/// Appending to the text keeps every occurrence.
proof fn lemma_contains_append(out: Seq<char>, ext: Seq<char>, phs: Seq<Seq<char>>, from: int)
    requires
        0 <= from,
        contains_from(out, phs, from),
    ensures
        contains_from(out + ext, phs, from),
    decreases phs.len(),
{
    if phs.len() > 0 {
        let p = choose|p: int|
            {
                &&& from <= p
                &&& p + phs[0].len() <= out.len()
                &&& #[trigger] out.subrange(p, p + phs[0].len()) == phs[0]
                &&& contains_from(out, phs.drop_first(), p + phs[0].len())
            };
        lemma_contains_append(out, ext, phs.drop_first(), p + phs[0].len());
        assert((out + ext).subrange(p, p + phs[0].len()) =~= out.subrange(p, p + phs[0].len()));
        assert(contains_from(out + ext, phs.drop_first(), p + phs[0].len()));
    }
}

/// A new string placed after the end of the text joins the sequence of
/// occurrences at its back.
proof fn lemma_contains_snoc(
    out: Seq<char>,
    out2: Seq<char>,
    phs: Seq<Seq<char>>,
    ph: Seq<char>,
    q: int,
    from: int,
)
    requires
        contains_from(out, phs, from),
        0 <= from <= out.len(),
        out.len() <= q,
        q + ph.len() <= out2.len(),
        out2.subrange(0, out.len() as int) == out,
        out2.subrange(q, q + ph.len()) == ph,
    ensures
        contains_from(out2, phs.push(ph), from),
    decreases phs.len(),
{
    if phs.len() == 0 {
        assert(phs.push(ph)[0] == ph);
        assert(phs.push(ph).drop_first() =~= Seq::<Seq<char>>::empty());
        assert(out2.subrange(q, q + phs.push(ph)[0].len()) == phs.push(ph)[0]);
        assert(contains_from(out2, phs.push(ph).drop_first(), q + ph.len()));
    } else {
        let p = choose|p: int|
            {
                &&& from <= p
                &&& p + phs[0].len() <= out.len()
                &&& #[trigger] out.subrange(p, p + phs[0].len()) == phs[0]
                &&& contains_from(out, phs.drop_first(), p + phs[0].len())
            };
        assert(out2.subrange(p, p + phs[0].len()) =~= out.subrange(p, p + phs[0].len())) by {
            assert forall|j: int| 0 <= j < phs[0].len() implies #[trigger] out2.subrange(
                p,
                p + phs[0].len(),
            )[j] == out.subrange(p, p + phs[0].len())[j] by {
                assert(out[p + j] == out2.subrange(0, out.len() as int)[p + j]);
            }
        }
        lemma_contains_snoc(out, out2, phs.drop_first(), ph, q, p + phs[0].len());
        assert(phs.push(ph).drop_first() =~= phs.drop_first().push(ph));
        assert(out2.subrange(p, p + phs.push(ph)[0].len()) == phs.push(ph)[0]);
        assert(contains_from(out2, phs.push(ph).drop_first(), p + phs[0].len()));
    }
}

/// Occurrences survive cutting whitespace margins off the text, provided
/// each string starts with `{` and ends with `}`.
proof fn lemma_contains_subrange(x: Seq<char>, a: int, b: int, phs: Seq<Seq<char>>, from: int)
    requires
        contains_from(x, phs, from),
        0 <= a <= b <= x.len(),
        0 <= from,
        forall|k: int| 0 <= k < a ==> is_space(x[k]),
        forall|k: int| b <= k < x.len() ==> is_space(x[k]),
        forall|k: int|
            0 <= k < phs.len() ==> {
                let ph = #[trigger] phs[k];
                ph.len() >= 2 && ph[0] == '{' && ph[ph.len() - 1] == '}'
            },
    ensures
        contains_from(x.subrange(a, b), phs, if from <= a {
            0
        } else {
            from - a
        }),
    decreases phs.len(),
{
    if phs.len() > 0 {
        let p = choose|p: int|
            {
                &&& from <= p
                &&& p + phs[0].len() <= x.len()
                &&& #[trigger] x.subrange(p, p + phs[0].len()) == phs[0]
                &&& contains_from(x, phs.drop_first(), p + phs[0].len())
            };
        let ln = phs[0].len();
        assert(x[p] == phs[0][0]) by {
            assert(x.subrange(p, p + ln)[0] == x[p]);
        }
        assert(x[p + ln - 1] == phs[0][ln - 1]) by {
            assert(x.subrange(p, p + ln)[ln - 1] == x[p + ln - 1]);
        }
        assert(!is_space('{'));
        assert(!is_space('}'));
        assert(p >= a);
        assert(p + ln <= b);
        assert(forall|k: int|
            0 <= k < phs.drop_first().len() ==> {
                let ph = #[trigger] phs.drop_first()[k];
                ph.len() >= 2 && ph[0] == '{' && ph[ph.len() - 1] == '}'
            });
        lemma_contains_subrange(x, a, b, phs.drop_first(), p + ln);
        let y = x.subrange(a, b);
        assert(y.subrange(p - a, p - a + ln) =~= x.subrange(p, p + ln));
        assert(contains_from(y, phs.drop_first(), p - a + ln));
        let p2 = p - a;
        assert(if from <= a {
            0int
        } else {
            from - a
        } <= p2);
        assert(y.subrange(p2, p2 + phs[0].len()) == phs[0]);
    }
}

/// Everything assembled so far contains the placeholders handled so far,
/// in order.
proof fn lemma_assembled_contains<T: Translate>(
    tr: T,
    sl: Seq<char>,
    dl: Seq<char>,
    t: Seq<char>,
    k: int,
)
    requires
        0 <= k <= spans(t).len(),
    ensures
        assembled(tr, sl, dl, t, k) matches Some(acc) ==> contains_from(
            acc,
            placeholder_texts(t).take(k),
            0,
        ),
    decreases k,
{
    lemma_spans_from(t, 0);
    if k > 0 {
        lemma_assembled_contains(tr, sl, dl, t, k - 1);
        match assembled(tr, sl, dl, t, k - 1) {
            Some(acc0) => {
                let se = spans(t)[k - 1];
                let ph = t.subrange(se.0, se.1 + 1);
                let lit = trim_spec(t.subrange(piece_start(spans(t), k - 1), se.0));
                let texts = placeholder_texts(t);
                assert(texts[k - 1] == ph);
                assert(texts.take(k) =~= texts.take(k - 1).push(ph));
                if lit.len() == 0 {
                    let acc = acc0 + ph;
                    assert(acc.subrange(0, acc0.len() as int) =~= acc0);
                    assert(acc.subrange(acc0.len() as int, acc0.len() + ph.len() as int) =~= ph);
                    lemma_contains_snoc(acc0, acc, texts.take(k - 1), ph, acc0.len() as int, 0);
                } else if tr.succeeds(sl, dl, lit) {
                    let trans = tr.translation(sl, dl, lit);
                    let acc = acc0 + trans + seq![' '] + ph;
                    let q: int = acc0.len() as int + trans.len() as int + 1;
                    assert(acc.subrange(0, acc0.len() as int) =~= acc0);
                    assert(acc.subrange(q, q + ph.len() as int) =~= ph);
                    lemma_contains_snoc(acc0, acc, texts.take(k - 1), ph, q, 0);
                }
            },
            None => {},
        }
    }
}

/// Every placeholder text of `t` starts with `{` and ends with `}`.
proof fn lemma_texts_wf(t: Seq<char>)
    ensures
        forall|k: int|
            0 <= k < placeholder_texts(t).len() ==> {
                let ph = #[trigger] placeholder_texts(t)[k];
                ph.len() >= 2 && ph[0] == '{' && ph[ph.len() - 1] == '}'
            },
{
    lemma_spans_from(t, 0);
    let sp = spans(t);
    let texts = placeholder_texts(t);
    assert forall|k: int| 0 <= k < texts.len() implies {
        let ph = #[trigger] texts[k];
        ph.len() >= 2 && ph[0] == '{' && ph[ph.len() - 1] == '}'
    } by {
        let se = sp[k];
        assert(texts[k] == t.subrange(se.0, se.1 + 1));
        assert(t.subrange(se.0, se.1 + 1)[0] == t[se.0]);
        assert(t.subrange(se.0, se.1 + 1)[se.1 - se.0] == t[se.1]);
    }
}

/// Occurrences survive trimming, since a placeholder neither starts nor
/// ends with whitespace.
proof fn lemma_contains_trim(x: Seq<char>, phs: Seq<Seq<char>>)
    requires
        contains_from(x, phs, 0),
        phs.len() > 0,
        forall|k: int|
            0 <= k < phs.len() ==> {
                let ph = #[trigger] phs[k];
                ph.len() >= 2 && ph[0] == '{' && ph[ph.len() - 1] == '}'
            },
    ensures
        contains_from(trim_spec(x), phs, 0),
{
    lemma_trim_spec(x);
    let a = first_non_space(x, 0);
    let b = end_non_space(x, x.len() as int);
    if a >= b {
        let p = choose|p: int|
            {
                &&& 0 <= p
                &&& p + phs[0].len() <= x.len()
                &&& #[trigger] x.subrange(p, p + phs[0].len()) == phs[0]
                &&& contains_from(x, phs.drop_first(), p + phs[0].len())
            };
        assert(x[p] == phs[0][0]) by {
            assert(x.subrange(p, p + phs[0].len())[0] == x[p]);
        }
        assert(!is_space('{'));
        assert(is_space(x[p]));
        assert(false);
    } else {
        lemma_contains_subrange(x, a, b, phs, 0);
    }
}

/// A text without placeholders is handed to the backend whole, and the
/// backend's answer is returned untouched.
pub proof fn lemma_no_placeholder_passthrough<T: Translate>(
    tr: T,
    sl: Seq<char>,
    dl: Seq<char>,
    t: Seq<char>,
)
    requires
        spans(t).len() == 0,
    ensures
        seg_result(tr, sl, dl, t) == if tr.succeeds(sl, dl, t) {
            Some(tr.translation(sl, dl, t))
        } else {
            None::<Seq<char>>
        },
{
}

/// Over a backend that answers every request, segmenting never fails.
pub proof fn lemma_total_backend_some<T: Translate>(tr: T, sl: Seq<char>, dl: Seq<char>, t: Seq<
    char,
>)
    requires
        forall|x: Seq<char>| tr.succeeds(sl, dl, x),
    ensures
        seg_result(tr, sl, dl, t) is Some,
{
    if spans(t).len() > 0 {
        lemma_assembled_total(tr, sl, dl, t, spans(t).len() as int);
    }
}

proof fn lemma_assembled_total<T: Translate>(tr: T, sl: Seq<char>, dl: Seq<char>, t: Seq<char>, k: int)
    requires
        forall|x: Seq<char>| tr.succeeds(sl, dl, x),
        0 <= k,
    ensures
        assembled(tr, sl, dl, t, k) is Some,
    decreases k,
{
    if k > 0 {
        lemma_assembled_total(tr, sl, dl, t, k - 1);
    }
}

/// Placeholder preservation: whatever the backend returns for the literal
/// spans, every placeholder of the input occurs verbatim in the output,
/// in the input's order.
pub proof fn lemma_placeholders_preserved<T: Translate>(
    tr: T,
    sl: Seq<char>,
    dl: Seq<char>,
    t: Seq<char>,
    out: Seq<char>,
)
    requires
        seg_result(tr, sl, dl, t) == Some(out),
        spans(t).len() > 0,
    ensures
        contains_from(out, placeholder_texts(t), 0),
{
    let sp = spans(t);
    let texts = placeholder_texts(t);
    lemma_assembled_contains(tr, sl, dl, t, sp.len() as int);
    lemma_texts_wf(t);
    match assembled(tr, sl, dl, t, sp.len() as int) {
        Some(acc) => {
            assert(texts.take(sp.len() as int) =~= texts);
            let tail = trim_spec(t.subrange(sp[sp.len() - 1].1 + 1, t.len() as int));
            if tail.len() == 0 {
                lemma_contains_trim(acc, texts);
            } else {
                let ext = seq![' '] + tr.translation(sl, dl, tail);
                let x = acc + seq![' '] + tr.translation(sl, dl, tail);
                lemma_contains_append(acc, ext, texts, 0);
                assert(acc + ext =~= x);
                lemma_contains_trim(x, texts);
            }
        },
        None => {},
    }
}

} // verus!
