//! Merge-translation of a whole JSON tree.

use vstd::prelude::*;

use crate::json_tree::{
    clone_value, entries_view_of, get_value, group_entries_view, lemma_lookup_at, lookup, obj_wf,
    reserved_key, str_eq, value_wf, view_of, JsonEntry, JsonValue, JsonView, ObjView,
};
use crate::segment::seg_result;
use crate::translate::Translate;

verus! {

/// What went wrong during a translation run.
#[derive(Clone, Copy, Debug, PartialEq, Eq, Structural)]
pub enum ErrorType {
    /// A JSON file could not be read or parsed.
    ReadJsonError,
    /// A JSON file could not be written.
    WriteJsonError,
    /// The translation backend failed.
    TranslateError,
    /// A value that is neither a string nor an object was found outside the
    /// reserved key.
    UnsupportedJsonType,
    /// Anything else.
    UnknownError,
}

/// A failed translation run: a kind together with a message.  For
/// [`ErrorType::UnsupportedJsonType`] the message is the offending key.
#[derive(Debug)]
pub struct Error {
    error_type: ErrorType,
    message: String,
}

impl Error {
    /// The kind of this error.
    pub closed spec fn kind(&self) -> ErrorType {
        self.error_type
    }

    /// The message carried by this error.
    pub closed spec fn msg(&self) -> Seq<char> {
        self.message@
    }

    pub fn new(error_type: ErrorType, message: &str) -> (e: Self)
        ensures
            e.kind() == error_type,
            e.msg() == message@,
    {
        Error { error_type, message: message.to_owned() }
    }

    pub fn error_type(&self) -> (t: ErrorType)
        ensures
            t == self.kind(),
    {
        self.error_type
    }

    pub fn message(&self) -> (m: &str)
        ensures
            m@ == self.msg(),
    {
        self.message.as_str()
    }
}

/// How a tree walk fails, in the mathematical model.
pub enum TreeErr {
    /// A value outside the reserved key was neither a string nor an
    /// object; the offending key is carried.
    Unsupported(Seq<char>),
    /// The translation backend failed on some literal span.
    Backend,
}

/// What one entry of the output holds, given the entry's key and value in
/// the source and the whole reference object: the value is copied under
/// the reserved key, reused when the reference has a string for this key,
/// and otherwise segment-translated (for a string) or merged recursively
/// (for an object, against the reference's object under this key, if any).
pub open spec fn entry_result<T: Translate>(
    tr: T,
    sl: Seq<char>,
    dl: Seq<char>,
    key: Seq<char>,
    v: JsonView,
    refm: ObjView,
) -> Result<JsonView, TreeErr>
    decreases v,
{
    if key == reserved_key() {
        Ok(v)
    } else {
        match v {
            JsonView::Str(s) => match lookup(refm, key) {
                Some(JsonView::Str(prior)) => Ok(JsonView::Str(prior)),
                _ => match seg_result(tr, sl, dl, s) {
                    Some(out) => Ok(JsonView::Str(out)),
                    None => Err(TreeErr::Backend),
                },
            },
            JsonView::Object(children) => {
                let child_ref = match lookup(refm, key) {
                    Some(JsonView::Object(r)) => r,
                    _ => Seq::empty(),
                };
                match obj_result(tr, sl, dl, children, child_ref) {
                    Ok(o) => Ok(JsonView::Object(o)),
                    Err(e) => Err(e),
                }
            },
            JsonView::Other(_) => Err(TreeErr::Unsupported(key)),
        }
    }
}

/// What a whole tree walk returns: the source's entries in order, each
/// resolved by [`entry_result`]; the first failure wins.
pub open spec fn obj_result<T: Translate>(
    tr: T,
    sl: Seq<char>,
    dl: Seq<char>,
    src: ObjView,
    refm: ObjView,
) -> Result<ObjView, TreeErr>
    decreases src,
{
    if src.len() == 0 {
        Ok(Seq::empty())
    } else {
        match entry_result(tr, sl, dl, src[0].0, src[0].1, refm) {
            Err(e) => Err(e),
            Ok(v0) => match obj_result(tr, sl, dl, src.drop_first(), refm) {
                Err(e) => Err(e),
                Ok(rest) => Ok(seq![(src[0].0, v0)] + rest),
            },
        }
    }
}

/// Walk `src` in entry order and build the translated tree, reusing
/// `ref_json` where it already holds a string for a key; see
/// [`obj_result`] for the exact outcome.
#[verifier::rlimit(100)]
pub fn translate_json<T: Translate>(
    src: &Vec<JsonEntry>,
    ref_json: &Vec<JsonEntry>,
    src_lang: &str,
    dst_lang: &str,
    translator: &T,
    idle: u64,
) -> (r: Result<Vec<JsonEntry>, Error>)
    ensures
        match r {
            Ok(out) => obj_result(
                *translator,
                src_lang@,
                dst_lang@,
                entries_view_of(src@),
                entries_view_of(ref_json@),
            ) == Ok::<ObjView, TreeErr>(entries_view_of(out@)),
            Err(e) => match obj_result(
                *translator,
                src_lang@,
                dst_lang@,
                entries_view_of(src@),
                entries_view_of(ref_json@),
            ) {
                Ok(_) => false,
                Err(te) => match te {
                    TreeErr::Unsupported(k) => e.kind() == ErrorType::UnsupportedJsonType
                        && e.msg() == k,
                    TreeErr::Backend => e.kind() == ErrorType::TranslateError,
                },
            },
        },
    decreases src@,
{
    broadcast use group_entries_view;

    let ghost sv = entries_view_of(src@);
    let ghost rv = entries_view_of(ref_json@);
    let ghost sl = src_lang@;
    let ghost dl = dst_lang@;
    let empty_entries: Vec<JsonEntry> = Vec::new();
    let mut out: Vec<JsonEntry> = Vec::new();
    let mut i: usize = 0;
    proof {
        assert(sv.skip(0) =~= sv);
        assert(entries_view_of(out@) + sv =~= sv);
    }
    while i < src.len()
        invariant
            sv == entries_view_of(src@),
            rv == entries_view_of(ref_json@),
            sl == src_lang@,
            dl == dst_lang@,
            sv.len() == src@.len(),
            empty_entries@.len() == 0,
            i <= src@.len(),
            out@.len() == i,
            obj_result(*translator, sl, dl, sv, rv) == (match obj_result(
                *translator,
                sl,
                dl,
                sv.skip(i as int),
                rv,
            ) {
                Ok(rest) => Ok::<ObjView, TreeErr>(entries_view_of(out@) + rest),
                Err(e) => Err(e),
            }),
        decreases src@.len() - i,
    {
        proof {
            crate::json_tree::lemma_entries_view_len(src@);
            crate::json_tree::lemma_entries_view_index(src@, i as int);
            assert(sv.skip(i as int)[0] == sv[i as int]);
            assert(sv.skip(i as int).drop_first() =~= sv.skip(i + 1 as int));
            assert(sv[i as int] == (src@[i as int].key@, view_of(src@[i as int].value)));
        }
        let entry = &src[i];
        let ghost key = sv[i as int].0;
        let ghost val = sv[i as int].1;
        let new_value: JsonValue;
        if str_eq(entry.key.as_str(), "languages") {
            new_value = clone_value(&entry.value);
        } else {
            match &entry.value {
                JsonValue::Str(s) => {
                    let reused = get_value(ref_json, entry.key.as_str());
                    let mut prior_str: Option<&String> = None;
                    match reused {
                        Some(JsonValue::Str(prior)) => {
                            prior_str = Some(prior);
                        },
                        _ => {},
                    }
                    match prior_str {
                        Some(prior) => {
                            new_value = JsonValue::Str(prior.clone());
                        },
                        None => {
                            match crate::segment::translate(
                                s.as_str(),
                                src_lang,
                                dst_lang,
                                translator,
                                idle,
                            ) {
                                Ok(fresh) => {
                                    new_value = JsonValue::Str(fresh);
                                },
                                Err(e) => {
                                    return Err(e);
                                },
                            }
                        },
                    }
                },
                JsonValue::Object(children) => {
                    let reused = get_value(ref_json, entry.key.as_str());
                    let mut prior_obj: Option<&Vec<JsonEntry>> = None;
                    match reused {
                        Some(JsonValue::Object(prior)) => {
                            prior_obj = Some(prior);
                        },
                        _ => {},
                    }
                    let child_ref: &Vec<JsonEntry> = match prior_obj {
                        Some(prior) => prior,
                        None => &empty_entries,
                    };
                    proof {
                        assert(decreases_to!(src@ => src@[i as int]));
                        assert(decreases_to!(src@[i as int] => src@[i as int].value));
                        assert(decreases_to!(src@[i as int].value => src@[i as int]
                            .value->Object_0));
                        assert(*children == src@[i as int].value->Object_0);
                        assert(decreases_to!(*children => children@));
                        assert(entries_view_of(empty_entries@) =~= Seq::<(
                            Seq<char>,
                            JsonView,
                        )>::empty());
                    }
                    match translate_json(children, child_ref, src_lang, dst_lang, translator, idle) {
                        Ok(child_out) => {
                            new_value = JsonValue::Object(child_out);
                        },
                        Err(e) => {
                            return Err(e);
                        },
                    }
                },
                JsonValue::Other(_) => {
                    return Err(Error::new(ErrorType::UnsupportedJsonType, entry.key.as_str()));
                },
            }
        }
        let ghost out_before = out@;
        let ghost nv = view_of(new_value);
        out.push(JsonEntry { key: entry.key.clone(), value: new_value });
        i += 1;
        proof {
            assert(entry_result(*translator, sl, dl, key, val, rv) == Ok::<JsonView, TreeErr>(nv));
            let a_old = entries_view_of(out_before);
            assert(entries_view_of(out@) =~= a_old + seq![(key, nv)]) by {
                crate::json_tree::lemma_entries_view_len(out@);
                crate::json_tree::lemma_entries_view_len(out_before);
                assert(out@.len() == out_before.len() + 1);
                assert(out@[out@.len() - 1].key@ == key);
                assert(view_of(out@[out@.len() - 1].value) == nv);
                assert forall|j: int|
                    0 <= j < out@.len() implies entries_view_of(out@)[j] == (a_old + seq![
                    (key, nv),
                ])[j] by {
                    crate::json_tree::lemma_entries_view_index(out@, j);
                    if j < out_before.len() {
                        crate::json_tree::lemma_entries_view_index(out_before, j);
                        assert(out@[j] == out_before[j]);
                    }
                }
            }
            match obj_result(*translator, sl, dl, sv.skip(i as int), rv) {
                Ok(rest2) => {
                    assert((a_old + seq![(key, nv)]) + rest2 =~= a_old + (seq![(key, nv)] + rest2));
                },
                Err(_) => {},
            }
        }
    }
    proof {
        assert(sv.skip(src@.len() as int) =~= Seq::<(Seq<char>, JsonView)>::empty());
        assert(entries_view_of(out@) + Seq::<(Seq<char>, JsonView)>::empty() =~= entries_view_of(
            out@,
        ));
    }
    Ok(out)
}

/// The output has the source's keys, in the source's order, at every
/// depth.
pub open spec fn obj_keys_match(src: ObjView, out: ObjView) -> bool
    decreases src,
{
    &&& out.len() == src.len()
    &&& (src.len() == 0 || {
        &&& out[0].0 == src[0].0
        &&& value_keys_match(src[0].1, out[0].1)
        &&& obj_keys_match(src.drop_first(), out.drop_first())
    })
}

pub open spec fn value_keys_match(sv: JsonView, ov: JsonView) -> bool
    decreases sv,
{
    match sv {
        JsonView::Object(sm) => ov matches JsonView::Object(om) && obj_keys_match(sm, om),
        _ => true,
    }
}

proof fn lemma_value_keys_refl(v: JsonView)
    ensures
        value_keys_match(v, v),
    decreases v,
{
    match v {
        JsonView::Object(m) => {
            lemma_obj_keys_refl(m);
        },
        _ => {},
    }
}

proof fn lemma_obj_keys_refl(m: ObjView)
    ensures
        obj_keys_match(m, m),
    decreases m,
{
    if m.len() > 0 {
        lemma_value_keys_refl(m[0].1);
        lemma_obj_keys_refl(m.drop_first());
    }
}

/// Whenever a tree walk succeeds, its output carries exactly the source's
/// keys, in the source's order, at every depth — whatever the reference
/// held and whatever the backend returned.
pub proof fn lemma_output_keys<T: Translate>(
    tr: T,
    sl: Seq<char>,
    dl: Seq<char>,
    src: ObjView,
    refm: ObjView,
)
    ensures
        obj_result(tr, sl, dl, src, refm) matches Ok(out) ==> obj_keys_match(src, out),
    decreases src,
{
    if src.len() > 0 {
        match entry_result(tr, sl, dl, src[0].0, src[0].1, refm) {
            Ok(v0) => {
                lemma_entry_keys(tr, sl, dl, src[0].0, src[0].1, refm);
                lemma_output_keys(tr, sl, dl, src.drop_first(), refm);
                match obj_result(tr, sl, dl, src.drop_first(), refm) {
                    Ok(rest) => {
                        let out = seq![(src[0].0, v0)] + rest;
                        assert(out.drop_first() =~= rest);
                    },
                    Err(_) => {},
                }
            },
            Err(_) => {},
        }
    }
}

proof fn lemma_entry_keys<T: Translate>(
    tr: T,
    sl: Seq<char>,
    dl: Seq<char>,
    key: Seq<char>,
    v: JsonView,
    refm: ObjView,
)
    ensures
        entry_result(tr, sl, dl, key, v, refm) matches Ok(v0) ==> value_keys_match(v, v0),
    decreases v,
{
    if key == reserved_key() {
        lemma_value_keys_refl(v);
    } else {
        match v {
            JsonView::Object(children) => {
                let child_ref = match lookup(refm, key) {
                    Some(JsonView::Object(r)) => r,
                    _ => Seq::<(Seq<char>, JsonView)>::empty(),
                };
                lemma_output_keys(tr, sl, dl, children, child_ref);
            },
            _ => {},
        }
    }
}

/// A walk over a structurally valid source — nothing but strings and
/// objects outside the reserved key — never fails with an unsupported
/// value, whatever the reference holds and whatever the backend does.
pub proof fn lemma_translatable_not_unsupported<T: Translate>(
    tr: T,
    sl: Seq<char>,
    dl: Seq<char>,
    src: ObjView,
    refm: ObjView,
)
    requires
        crate::json_tree::obj_translatable(src),
    ensures
        !(obj_result(tr, sl, dl, src, refm) matches Err(TreeErr::Unsupported(_))),
    decreases src,
{
    if src.len() > 0 {
        lemma_entry_not_unsupported(tr, sl, dl, src[0].0, src[0].1, refm);
        lemma_translatable_not_unsupported(tr, sl, dl, src.drop_first(), refm);
    }
}

proof fn lemma_entry_not_unsupported<T: Translate>(
    tr: T,
    sl: Seq<char>,
    dl: Seq<char>,
    key: Seq<char>,
    v: JsonView,
    refm: ObjView,
)
    requires
        key == reserved_key() || crate::json_tree::value_translatable(v),
    ensures
        !(entry_result(tr, sl, dl, key, v, refm) matches Err(TreeErr::Unsupported(_))),
    decreases v,
{
    if key != reserved_key() {
        match v {
            JsonView::Object(children) => {
                let child_ref = match lookup(refm, key) {
                    Some(JsonView::Object(r)) => r,
                    _ => Seq::<(Seq<char>, JsonView)>::empty(),
                };
                lemma_translatable_not_unsupported(tr, sl, dl, children, child_ref);
            },
            _ => {},
        }
    }
}

/// The reference looks like a prior successful output for this source:
/// same keys in the same order at every depth, the reserved key's value
/// equal, strings where the source has strings, and nothing the walk
/// would reject.
pub open spec fn obj_reusable(src: ObjView, refm: ObjView) -> bool
    decreases src,
{
    &&& refm.len() == src.len()
    &&& (src.len() == 0 || {
        &&& refm[0].0 == src[0].0
        &&& value_reusable(src[0].0, src[0].1, refm[0].1)
        &&& obj_reusable(src.drop_first(), refm.drop_first())
    })
}

pub open spec fn value_reusable(key: Seq<char>, sv: JsonView, rv: JsonView) -> bool
    decreases sv,
{
    if key == reserved_key() {
        rv == sv
    } else {
        match sv {
            JsonView::Str(_) => rv is Str,
            JsonView::Object(sm) => rv matches JsonView::Object(om) && obj_reusable(sm, om),
            JsonView::Other(_) => false,
        }
    }
}

proof fn lemma_reusable_index(src: ObjView, refm: ObjView, i: int)
    requires
        obj_reusable(src, refm),
        0 <= i < src.len(),
    ensures
        refm[i].0 == src[i].0,
        value_reusable(src[i].0, src[i].1, refm[i].1),
    decreases i,
{
    if i > 0 {
        lemma_reusable_index(src.drop_first(), refm.drop_first(), i - 1);
    }
}

proof fn lemma_wf_index(m: ObjView, i: int)
    requires
        obj_wf(m),
        0 <= i < m.len(),
    ensures
        value_wf(m[i].1),
    decreases i,
{
    if i > 0 {
        lemma_wf_index(m.drop_first(), i - 1);
    }
}

/// The reuse law: when the reference already has the shape of a prior
/// successful output for this source, the walk returns the reference,
/// entry for entry — whatever the backend does, and without consulting
/// it.
pub proof fn lemma_reuse<T: Translate>(
    tr: T,
    sl: Seq<char>,
    dl: Seq<char>,
    src: ObjView,
    refm: ObjView,
)
    requires
        obj_reusable(src, refm),
        obj_wf(refm),
    ensures
        obj_result(tr, sl, dl, src, refm) == Ok::<ObjView, TreeErr>(refm),
{
    lemma_reuse_from(tr, sl, dl, src, refm, 0);
    assert(src.skip(0) =~= src);
    assert(refm.skip(0) =~= refm);
}

proof fn lemma_reuse_from<T: Translate>(
    tr: T,
    sl: Seq<char>,
    dl: Seq<char>,
    src: ObjView,
    refm: ObjView,
    i: int,
)
    requires
        obj_reusable(src, refm),
        obj_wf(refm),
        0 <= i <= src.len(),
    ensures
        obj_result(tr, sl, dl, src.skip(i), refm) == Ok::<ObjView, TreeErr>(refm.skip(i)),
    decreases src, src.len() - i,
{
    if i < src.len() {
        lemma_reusable_index(src, refm, i);
        lemma_wf_index(refm, i);
        lemma_lookup_at(refm, i);
        assert(src.skip(i)[0] == src[i]);
        let key = src[i].0;
        let sv = src[i].1;
        let rv = refm[i].1;
        if key == reserved_key() {
            assert(entry_result(tr, sl, dl, key, sv, refm) == Ok::<JsonView, TreeErr>(rv));
        } else {
            match sv {
                JsonView::Str(_) => {
                    assert(entry_result(tr, sl, dl, key, sv, refm) == Ok::<JsonView, TreeErr>(rv));
                },
                JsonView::Object(sm) => {
                    match rv {
                        JsonView::Object(om) => {
                            lemma_reuse_from(tr, sl, dl, sm, om, 0);
                            assert(sm.skip(0) =~= sm);
                            assert(om.skip(0) =~= om);
                            assert(entry_result(tr, sl, dl, key, sv, refm) == Ok::<
                                JsonView,
                                TreeErr,
                            >(rv));
                        },
                        _ => {
                            assert(false);
                        },
                    }
                },
                JsonView::Other(_) => {
                    assert(false);
                },
            }
        }
        lemma_reuse_from(tr, sl, dl, src, refm, i + 1);
        assert(src.skip(i).drop_first() =~= src.skip(i + 1));
        assert(seq![(src[i].0, refm[i].1)] + refm.skip(i + 1) =~= refm.skip(i));
    } else {
        assert(src.skip(i) =~= Seq::<(Seq<char>, JsonView)>::empty());
        assert(refm.skip(i) =~= Seq::<(Seq<char>, JsonView)>::empty());
    }
}

/// Success is owed: over a backend that answers every request, a walk of
/// a structurally valid source returns `Ok`, whatever the reference
/// holds.
pub proof fn lemma_total_backend_ok<T: Translate>(
    tr: T,
    sl: Seq<char>,
    dl: Seq<char>,
    src: ObjView,
    refm: ObjView,
)
    requires
        crate::json_tree::obj_translatable(src),
        forall|x: Seq<char>| tr.succeeds(sl, dl, x),
    ensures
        obj_result(tr, sl, dl, src, refm) is Ok,
    decreases src,
{
    if src.len() > 0 {
        lemma_entry_total_backend_ok(tr, sl, dl, src[0].0, src[0].1, refm);
        lemma_total_backend_ok(tr, sl, dl, src.drop_first(), refm);
    }
}

proof fn lemma_entry_total_backend_ok<T: Translate>(
    tr: T,
    sl: Seq<char>,
    dl: Seq<char>,
    key: Seq<char>,
    v: JsonView,
    refm: ObjView,
)
    requires
        key == reserved_key() || crate::json_tree::value_translatable(v),
        forall|x: Seq<char>| tr.succeeds(sl, dl, x),
    ensures
        entry_result(tr, sl, dl, key, v, refm) is Ok,
    decreases v,
{
    if key != reserved_key() {
        match v {
            JsonView::Str(s) => {
                crate::seg_props::lemma_total_backend_some(tr, sl, dl, s);
            },
            JsonView::Object(children) => {
                let child_ref = match lookup(refm, key) {
                    Some(JsonView::Object(r)) => r,
                    _ => Seq::<(Seq<char>, JsonView)>::empty(),
                };
                lemma_total_backend_ok(tr, sl, dl, children, child_ref);
            },
            JsonView::Other(_) => {},
        }
    }
}

} // verus!
