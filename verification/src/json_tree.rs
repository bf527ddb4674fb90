//! The JSON tree model: string leaves, nested objects, and opaque values.

use vstd::prelude::*;

verus! {

/// One value of a localization JSON tree.  Translatable content is either a
/// string leaf or a nested object; anything else (an array, a number, a
/// boolean, null) is carried as its raw JSON text and is never translated.
#[derive(Debug, PartialEq, Eq)]
pub enum JsonValue {
    Str(String),
    Object(Vec<JsonEntry>),
    Other(String),
}

/// One `key: value` pair of a JSON object, in the object's own order.
#[derive(Debug, PartialEq, Eq)]
pub struct JsonEntry {
    pub key: String,
    pub value: JsonValue,
}

/// The mathematical shape of a `JsonValue`.
pub enum JsonView {
    Str(Seq<char>),
    Object(Seq<(Seq<char>, JsonView)>),
    Other(Seq<char>),
}

/// The shape of a JSON object: its entries, in order.
pub type ObjView = Seq<(Seq<char>, JsonView)>;

/// The key whose value is always copied verbatim, never translated.
pub open spec fn reserved_key() -> Seq<char> {
    "languages"@
}

pub open spec fn view_of(v: JsonValue) -> JsonView
    decreases v,
{
    match v {
        JsonValue::Str(s) => JsonView::Str(s@),
        JsonValue::Other(s) => JsonView::Other(s@),
        JsonValue::Object(entries) => JsonView::Object(entries_view_of(entries@)),
    }
}

pub open spec fn entries_view_of(s: Seq<JsonEntry>) -> ObjView
    decreases s,
{
    if s.len() == 0 {
        Seq::empty()
    } else {
        seq![(s[0].key@, view_of(s[0].value))] + entries_view_of(s.drop_first())
    }
}

impl View for JsonValue {
    type V = JsonView;

    open spec fn view(&self) -> JsonView {
        view_of(*self)
    }
}

/// `entries_view_of` keeps the number of entries.
pub broadcast proof fn lemma_entries_view_len(s: Seq<JsonEntry>)
    ensures
        (#[trigger] entries_view_of(s)).len() == s.len(),
    decreases s.len(),
{
    if s.len() > 0 {
        lemma_entries_view_len(s.drop_first());
    }
}

/// The entry of `entries_view_of` at each index is the view of the entry
/// there.
pub broadcast proof fn lemma_entries_view_index(s: Seq<JsonEntry>, i: int)
    requires
        0 <= i < s.len(),
    ensures
        #[trigger] entries_view_of(s)[i] == (s[i].key@, view_of(s[i].value)),
    decreases s.len(),
{
    lemma_entries_view_len(s);
    if i > 0 {
        lemma_entries_view_index(s.drop_first(), i - 1);
        assert(s.drop_first()[i - 1] == s[i]);
    }
}

pub broadcast group group_entries_view {
    lemma_entries_view_len,
    lemma_entries_view_index,
}

/// The first value stored under `k` at index `i` or later, if any.
pub open spec fn lookup_from(m: ObjView, k: Seq<char>, i: int) -> Option<JsonView>
    decreases m.len() - i,
{
    if i < 0 || i >= m.len() {
        None
    } else if m[i].0 == k {
        Some(m[i].1)
    } else {
        lookup_from(m, k, i + 1)
    }
}

/// The first value stored under `k`, if any.
pub open spec fn lookup(m: ObjView, k: Seq<char>) -> Option<JsonView> {
    lookup_from(m, k, 0)
}

/// No two entries share a key.
pub open spec fn keys_unique(m: ObjView) -> bool {
    forall|i: int, j: int| 0 <= i < j < m.len() ==> m[i].0 != m[j].0
}

/// Keys are unique here and in every nested object.
pub open spec fn obj_wf(m: ObjView) -> bool
    decreases m,
{
    keys_unique(m) && (m.len() == 0 || (value_wf(m[0].1) && obj_wf(m.drop_first())))
}

pub open spec fn value_wf(v: JsonView) -> bool
    decreases v,
{
    match v {
        JsonView::Object(m) => obj_wf(m),
        _ => true,
    }
}

/// Every value outside the reserved key is a string leaf or a nested
/// object, at every depth: the tree holds nothing a translation run
/// would reject.
pub open spec fn obj_translatable(m: ObjView) -> bool
    decreases m,
{
    m.len() == 0 || ((m[0].0 == reserved_key() || value_translatable(m[0].1)) && obj_translatable(
        m.drop_first(),
    ))
}

pub open spec fn value_translatable(v: JsonView) -> bool
    decreases v,
{
    match v {
        JsonView::Str(_) => true,
        JsonView::Object(m) => obj_translatable(m),
        JsonView::Other(_) => false,
    }
}

/// In a uniquely-keyed object, looking a key up finds the entry that
/// carries it.
pub proof fn lemma_lookup_at(m: ObjView, i: int)
    requires
        keys_unique(m),
        0 <= i < m.len(),
    ensures
        lookup(m, m[i].0) == Some(m[i].1),
{
    lemma_lookup_from_at(m, i, 0);
}

proof fn lemma_lookup_from_at(m: ObjView, i: int, j: int)
    requires
        keys_unique(m),
        0 <= j <= i < m.len(),
        forall|p: int| 0 <= p < j ==> m[p].0 != m[i].0,
    ensures
        lookup_from(m, m[i].0, j) == Some(m[i].1),
    decreases i - j,
{
    if j < i {
        lemma_lookup_from_at(m, i, j + 1);
    }
}

/// Character-for-character string equality.
pub fn str_eq(a: &str, b: &str) -> (r: bool)
    ensures
        r == (a@ == b@),
{
    let n = a.unicode_len();
    let m = b.unicode_len();
    if n != m {
        return false;
    }
    let mut i: usize = 0;
    while i < n
        invariant
            n == a@.len(),
            n == b@.len(),
            i <= n,
            forall|j: int| 0 <= j < i ==> a@[j] == b@[j],
        decreases n - i,
    {
        if a.get_char(i) != b.get_char(i) {
            return false;
        }
        i += 1;
    }
    proof {
        assert(a@ =~= b@);
    }
    true
}

/// Find the value stored under `key`, scanning in entry order.
pub fn get_value<'a>(entries: &'a Vec<JsonEntry>, key: &str) -> (r: Option<&'a JsonValue>)
    ensures
        match r {
            Some(v) => lookup(entries_view_of(entries@), key@) == Some(view_of(*v)),
            None => lookup(entries_view_of(entries@), key@) is None,
        },
{
    broadcast use group_entries_view;

    let ghost m = entries_view_of(entries@);
    let mut i: usize = 0;
    while i < entries.len()
        invariant
            i <= entries.len(),
            m == entries_view_of(entries@),
            lookup(m, key@) == lookup_from(m, key@, i as int),
        decreases entries.len() - i,
    {
        proof {
            lemma_entries_view_len(entries@);
            lemma_entries_view_index(entries@, i as int);
        }
        if str_eq(entries[i].key.as_str(), key) {
            return Some(&entries[i].value);
        }
        i += 1;
    }
    proof {
        lemma_entries_view_len(entries@);
    }
    None
}

/// A structurally equal copy of a JSON value.
#[verifier::loop_isolation(false)]
pub fn clone_value(v: &JsonValue) -> (r: JsonValue)
    ensures
        view_of(r) == view_of(*v),
    decreases v,
{
    broadcast use group_entries_view;

    match v {
        JsonValue::Str(s) => JsonValue::Str(s.clone()),
        JsonValue::Other(s) => JsonValue::Other(s.clone()),
        JsonValue::Object(entries) => {
            let mut out: Vec<JsonEntry> = Vec::new();
            let mut i: usize = 0;
            while i < entries.len()
                invariant
                    i <= entries.len(),
                    out@.len() == i,
                    forall|j: int|
                        0 <= j < i ==> out@[j].key@ == entries@[j].key@ && view_of(out@[j].value)
                            == view_of(entries@[j].value),
                decreases entries.len() - i,
            {
                proof {
                    assert(decreases_to!(*v => v->Object_0));
                    assert(decreases_to!(*entries => entries@));
                    assert(decreases_to!(entries@ => entries@[i as int]));
                    assert(decreases_to!(entries@[i as int] => entries@[i as int].value));
                }
                let copied = clone_value(&entries[i].value);
                out.push(JsonEntry { key: entries[i].key.clone(), value: copied });
                i += 1;
            }
            proof {
                lemma_entries_view_len(out@);
                lemma_entries_view_len(entries@);
                assert forall|j: int|
                    0 <= j < entries@.len() implies entries_view_of(out@)[j] == entries_view_of(
                    entries@,
                )[j] by {
                    lemma_entries_view_index(out@, j);
                    lemma_entries_view_index(entries@, j);
                }
                assert(entries_view_of(out@) =~= entries_view_of(entries@));
            }
            JsonValue::Object(out)
        },
    }
}

} // verus!
