//! The document merger: loads the container mapping out of a host document
//! and writes typed updates back by field-level overlay, keeping the
//! three-line header verbatim and every container field the update does not
//! name.
//!
//! The document text is parsed and re-serialized by `serde_yaml_ng`. Those
//! steps are deterministic, so their results carry names — `parsed_doc`,
//! `doc_container`, `with_container`, `inserted`, `yaml_text_of` — and the
//! overlay itself, which fields end up where, is this module's verified
//! logic, stated over the mapping's string-keyed entries.
use vstd::prelude::*;
use vstd::string::*;

use crate::assoc;
use crate::strutil;
use crate::ScopeError;

verus! {

/// What a mapping holds at its string keys: the (key, value) pairs in
/// iteration order. Non-string keys are not modelled; the operations the
/// library wraps touch string keys only and leave the rest untouched.
pub uninterp spec fn mapping_seq(m: serde_yaml_ng::Mapping) -> Seq<
    (Seq<char>, serde_yaml_ng::Value),
>;

/// The document a text parses to, or nothing when the text is not
/// well-formed YAML. Parsing is deterministic, so this is a function of
/// the text alone.
pub uninterp spec fn parsed_doc(s: Seq<char>) -> Option<serde_yaml_ng::Value>;

/// Whether a text parses as a YAML document.
pub open spec fn yaml_well_formed(s: Seq<char>) -> bool {
    parsed_doc(s) is Some
}

/// The mapping under the container key of a document, when the document is
/// a mapping and holds a mapping there.
pub uninterp spec fn doc_container(v: serde_yaml_ng::Value) -> Option<serde_yaml_ng::Mapping>;

/// The document with the mapping under the container key replaced by `m`,
/// everything else untouched.
pub uninterp spec fn with_container(
    v: serde_yaml_ng::Value,
    m: serde_yaml_ng::Mapping,
) -> serde_yaml_ng::Value;

/// The mapping with `v` inserted under the string key `k`.
pub uninterp spec fn inserted(
    m: serde_yaml_ng::Mapping,
    k: Seq<char>,
    v: serde_yaml_ng::Value,
) -> serde_yaml_ng::Mapping;

/// The text a document serializes to. Serialization is deterministic, so
/// this is a function of the document alone.
pub uninterp spec fn yaml_text_of(v: serde_yaml_ng::Value) -> Seq<char>;

/// The container mapping of a text, when the text parses and holds one.
pub open spec fn text_container(s: Seq<char>) -> Option<serde_yaml_ng::Mapping> {
    match parsed_doc(s) {
        Some(v) => doc_container(v),
        None => None,
    }
}

/// Relies on serde_yaml_ng::from_str: parses a document, succeeding on
/// exactly the well-formed texts and returning their parse.
#[verifier::external_body]
fn yaml_parse(s: &str) -> (r: Result<serde_yaml_ng::Value, serde_yaml_ng::Error>)
    ensures
        match r {
            Ok(v) => parsed_doc(s@) == Some(v),
            Err(_) => parsed_doc(s@) is None,
        },
{
    serde_yaml_ng::from_str(s)
}

/// Relies on Value::get, Value::as_mapping and Mapping::clone: returns the
/// mapping under the container key of a mapping document — a clone, which
/// equals the original. An index map's keys are unique, so the
/// string-keyed entries of the result are unique.
#[verifier::external_body]
fn get_container(doc: &serde_yaml_ng::Value) -> (r: Option<serde_yaml_ng::Mapping>)
    ensures
        r == doc_container(*doc),
        r matches Some(m) ==> assoc::unique_keys(mapping_seq(m)),
{
    doc.get("MonoBehaviour").and_then(|v| v.as_mapping()).cloned()
}

/// Relies on Mapping::insert, backed by an index map: an existing key keeps
/// its position and gets the new value, a new key is appended last, and no
/// other entry moves or changes. The key inserted is a string, so only the
/// string-keyed entries change.
#[verifier::external_body]
fn mapping_insert(m: &mut serde_yaml_ng::Mapping, k: String, v: serde_yaml_ng::Value)
    ensures
        *final(m) == inserted(*old(m), k@, v),
        mapping_seq(*final(m)) == assoc::upsert(mapping_seq(*old(m)), k@, v),
{
    m.insert(serde_yaml_ng::Value::String(k), v);
}

/// Relies on Value::clone: a clone equals its original.
#[verifier::external_body]
fn clone_value(v: &serde_yaml_ng::Value) -> (r: serde_yaml_ng::Value)
    ensures
        r == *v,
{
    v.clone()
}

/// Relies on Value::as_mapping_mut and Mapping::insert: replaces the value
/// under the container key of a mapping document with the given mapping,
/// keeping the key's position; false, with the document untouched, when
/// the document is not a mapping at top level. A document that holds a
/// container mapping is a mapping at top level, so there the call
/// succeeds.
#[verifier::external_body]
fn set_container(doc: &mut serde_yaml_ng::Value, m: serde_yaml_ng::Mapping) -> (r: bool)
    ensures
        doc_container(*old(doc)) is Some ==> r,
        r ==> *final(doc) == with_container(*old(doc), m),
        !r ==> *final(doc) == *old(doc),
{
    match doc.as_mapping_mut() {
        Some(top) => {
            top.insert(
                serde_yaml_ng::Value::String("MonoBehaviour".to_string()),
                serde_yaml_ng::Value::Mapping(m),
            );
            true
        },
        None => false,
    }
}

/// Relies on serde_yaml_ng::to_string: serializes the document back to
/// text.
#[verifier::external_body]
fn yaml_to_string(doc: &serde_yaml_ng::Value) -> (r: Result<String, serde_yaml_ng::Error>)
    ensures
        r matches Ok(t) ==> t@ == yaml_text_of(*doc),
{
    serde_yaml_ng::to_string(doc)
}

/// The views of a list of update pairs.
pub open spec fn update_views(u: Seq<(String, serde_yaml_ng::Value)>) -> Seq<
    (Seq<char>, serde_yaml_ng::Value),
> {
    Seq::new(u.len(), |i: int| (u[i].0@, u[i].1))
}

/// The mapping with every update inserted under its key, first to last.
pub open spec fn inserted_all(
    m: serde_yaml_ng::Mapping,
    ups: Seq<(Seq<char>, serde_yaml_ng::Value)>,
) -> serde_yaml_ng::Mapping
    decreases ups.len(),
{
    if ups.len() == 0 {
        m
    } else {
        inserted_all(inserted(m, ups.first().0, ups.first().1), ups.drop_first())
    }
}

/// `inserted_all` applied to one more update equals one more `inserted`.
proof fn lemma_inserted_all_snoc(
    m: serde_yaml_ng::Mapping,
    ups: Seq<(Seq<char>, serde_yaml_ng::Value)>,
    p: (Seq<char>, serde_yaml_ng::Value),
)
    ensures
        inserted_all(m, ups.push(p)) == inserted(inserted_all(m, ups), p.0, p.1),
    decreases ups.len(),
{
    let w = ups.push(p);
    assert(w.len() == ups.len() + 1);
    if ups.len() == 0 {
        assert(w.first() == p);
        assert(w.drop_first() =~= Seq::<(Seq<char>, serde_yaml_ng::Value)>::empty());
        assert(inserted_all(m, w) == inserted_all(inserted(m, p.0, p.1), w.drop_first()));
    } else {
        assert(w.first() == ups.first());
        assert(w.drop_first() =~= ups.drop_first().push(p));
        let m1 = inserted(m, ups.first().0, ups.first().1);
        assert(inserted_all(m, w) == inserted_all(m1, w.drop_first()));
        assert(inserted_all(m, ups) == inserted_all(m1, ups.drop_first()));
        lemma_inserted_all_snoc(m1, ups.drop_first(), p);
    }
}

/// Upserts every update into the container mapping, first to last: a key
/// already present is overwritten in place, a new key is appended, and no
/// other entry moves or changes. What that guarantees — every update key
/// reads back with its updated value, and every other field keeps its
/// place and value — is proved of `assoc::merged` by
/// `assoc::lemma_merged_lookup_updated`, `assoc::lemma_merged_lookup_unrelated`
/// and `assoc::lemma_merged_frame`.
pub fn upsert_all(
    container: &mut serde_yaml_ng::Mapping,
    updates: &Vec<(String, serde_yaml_ng::Value)>,
)
    ensures
        *final(container) == inserted_all(*old(container), update_views(updates@)),
        mapping_seq(*final(container)) == assoc::merged(
            mapping_seq(*old(container)),
            update_views(updates@),
        ),
{
    let ghost base = *old(container);
    let ghost ups = update_views(updates@);
    let n = updates.len();
    let mut i: usize = 0;
    proof {
        assert(ups.take(0) =~= Seq::<(Seq<char>, serde_yaml_ng::Value)>::empty());
        assert(assoc::merged(mapping_seq(base), ups.take(0)) == mapping_seq(base));
        assert(inserted_all(base, ups.take(0)) == base);
    }
    while i < n
        invariant
            i <= n,
            n == updates@.len(),
            ups == update_views(updates@),
            *container == inserted_all(base, ups.take(i as int)),
            mapping_seq(*container) == assoc::merged(mapping_seq(base), ups.take(i as int)),
        decreases n - i,
    {
        let entry = &updates[i];
        let k = entry.0.clone();
        let v = clone_value(&entry.1);
        proof {
            assert(ups[i as int] == (updates@[i as int].0@, updates@[i as int].1));
            assert(ups.take(i as int + 1) =~= ups.take(i as int).push(ups[i as int]));
            assoc::lemma_merged_snoc(mapping_seq(base), ups.take(i as int), ups[i as int]);
            lemma_inserted_all_snoc(base, ups.take(i as int), ups[i as int]);
        }
        mapping_insert(container, k, v);
        i = i + 1;
    }
    proof {
        assert(ups.take(n as int) =~= ups);
    }
}

/// Loads the container mapping of a host document text: succeeds, with
/// exactly the mapping under the container key `MonoBehaviour`, if and
/// only if the whole text parses and that key holds a mapping; the typed
/// projection is then deserialized from the returned mapping by the
/// caller. An ill-formed text fails with the parse error, a parsed
/// document without a container mapping with the schema mismatch.
pub fn load_container(text: &str) -> (r: Result<serde_yaml_ng::Mapping, ScopeError>)
    ensures
        r is Ok <==> text_container(text@) is Some,
        r matches Ok(m) ==> Some(m) == text_container(text@) && assoc::unique_keys(mapping_seq(m)),
        r matches Err(e) ==> {
            &&& e is YamlError <==> !yaml_well_formed(text@)
            &&& e is GenericInvalidFormat <==> yaml_well_formed(text@) && text_container(text@)
                is None
        },
{
    match yaml_parse(text) {
        Result::Err(e) => Err(ScopeError::YamlError(e)),
        Result::Ok(doc) => match get_container(&doc) {
            Option::None => Err(ScopeError::GenericInvalidFormat),
            Option::Some(m) => Ok(m),
        },
    }
}

/// Merges the typed updates into the container mapping of an existing host
/// document text and returns the new text: the first three lines are kept
/// verbatim and followed by one newline, and after them stands the
/// re-serialized patched document — the parse of the input with its
/// container mapping replaced by the old container carrying every update
/// upserted, everything else untouched. An ill-formed text fails with the
/// parse error; a parsed document without a container mapping fails with
/// the schema mismatch, and with nothing else.
pub fn save_merge(text: &str, updates: &Vec<(String, serde_yaml_ng::Value)>) -> (r: Result<
    String,
    ScopeError,
>)
    ensures
        !yaml_well_formed(text@) ==> (r matches Err(e) && e is YamlError),
        r matches Err(e) ==> {
            &&& e is YamlError || e is GenericInvalidFormat
            &&& e is GenericInvalidFormat <==> yaml_well_formed(text@) && text_container(text@)
                is None
        },
        r matches Ok(out) ==> match parsed_doc(text@) {
            Some(v0) => match doc_container(v0) {
                Some(m0) => out@ == strutil::header_of(text@) + "\n"@ + yaml_text_of(
                    with_container(v0, inserted_all(m0, update_views(updates@))),
                ),
                None => false,
            },
            None => false,
        },
        r matches Ok(out) ==> {
            &&& out@.len() > strutil::header_of(text@).len()
            &&& out@.take(strutil::header_of(text@).len() as int) == strutil::header_of(text@)
            &&& out@[strutil::header_of(text@).len() as int] == '\n'
        },
{
    let header = strutil::take_header(text);
    match yaml_parse(text) {
        Result::Err(e) => Err(ScopeError::YamlError(e)),
        Result::Ok(mut doc) => {
            match get_container(&doc) {
                Option::None => Err(ScopeError::GenericInvalidFormat),
                Option::Some(mut container) => {
                    let ghost v0 = doc;
                    let ghost m0 = container;
                    upsert_all(&mut container, updates);
                    if !set_container(&mut doc, container) {
                        return Err(ScopeError::GenericInvalidFormat);
                    }
                    proof {
                        assert(doc == with_container(v0, inserted_all(m0, update_views(updates@))));
                    }
                    match yaml_to_string(&doc) {
                        Result::Err(e) => Err(ScopeError::YamlError(e)),
                        Result::Ok(body) => {
                            let out = header.concat("\n").concat(body.as_str());
                            proof {
                                reveal_strlit("\n");
                                strutil::lemma_header_end(text@);
                                assert(out@.take(strutil::header_of(text@).len() as int)
                                    =~= strutil::header_of(text@));
                            }
                            Ok(out)
                        },
                    }
                },
            }
        },
    }
}

} // verus!
