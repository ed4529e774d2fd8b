//! The structured key-value encoding used to persist settings and
//! manifests.
//!
//! The engine treats the textual encoding abstractly: what matters is
//! that a document written from string pairs parses back to exactly
//! those pairs. The encoding itself is done by serde_yaml, behind the
//! trusted wrappers of this module.

use vstd::prelude::*;

use crate::error::Error;

verus! {

/// The character sequences of a vector of string pairs.
pub open spec fn pairs_view(pairs: Seq<(String, String)>) -> Seq<(Seq<char>, Seq<char>)> {
    pairs.map_values(|p: (String, String)| (p.0@, p.1@))
}

/// The character sequences of a vector of named field lists.
pub open spec fn nested_view(entries: Seq<(String, Vec<(String, String)>)>) -> Seq<
    (Seq<char>, Seq<(Seq<char>, Seq<char>)>),
> {
    entries.map_values(|e: (String, Vec<(String, String)>)| (e.0@, pairs_view(e.1@)))
}

/// No two pairs share a key.
pub open spec fn distinct_pair_keys(ps: Seq<(Seq<char>, Seq<char>)>) -> bool {
    forall|i: int, j: int| 0 <= i < j < ps.len() ==> ps[i].0 != ps[j].0
}

/// No two entries share a name.
pub open spec fn distinct_entry_keys(es: Seq<(Seq<char>, Seq<(Seq<char>, Seq<char>)>)>) -> bool {
    forall|i: int, j: int| 0 <= i < j < es.len() ==> es[i].0 != es[j].0
}

/// The document that encodes a flat mapping of string pairs, in order.
pub uninterp spec fn yaml_map_enc(pairs: Seq<(Seq<char>, Seq<char>)>) -> Seq<u8>;

/// The document that encodes a two-level mapping: named entries, each a
/// flat mapping of string pairs, all in order.
pub uninterp spec fn yaml_nested_enc(entries: Seq<(Seq<char>, Seq<(Seq<char>, Seq<char>)>)>) -> Seq<
    u8,
>;

/// Relies on serde_yaml::to_string over a mapping of strings: the
/// document is a function of the pairs alone, and writing a mapping of
/// strings into the in-memory buffer has no failure path.
#[verifier::external_body]
pub(crate) fn yaml_encode_map(pairs: &Vec<(String, String)>) -> (r: Vec<u8>)
    requires
        distinct_pair_keys(pairs_view(pairs@)),
    ensures
        r@ == yaml_map_enc(pairs_view(pairs@)),
{
    let m: indexmap::IndexMap<String, String> = pairs.iter().cloned().collect();
    serde_yaml::to_string(&m).expect("writing a mapping of strings cannot fail").into_bytes()
}

/// Relies on serde_yaml::from_str over a mapping of strings: a document
/// written by serde_yaml::to_string from string pairs parses back to
/// exactly those pairs, in their written order.
#[verifier::external_body]
pub(crate) fn yaml_decode_map(bytes: &Vec<u8>) -> (r: Result<Vec<(String, String)>, Error>)
    ensures
        r matches Ok(ps) ==> forall|qs: Seq<(Seq<char>, Seq<char>)>|
            distinct_pair_keys(qs) && bytes@ == yaml_map_enc(qs) ==> pairs_view(ps@) == qs,
        r is Err ==> forall|qs: Seq<(Seq<char>, Seq<char>)>|
            distinct_pair_keys(qs) ==> bytes@ != yaml_map_enc(qs),
        r matches Err(e) ==> e matches Error::Malformed(_),
{
    let s = core::str::from_utf8(bytes.as_slice()).map_err(|e| Error::Malformed(e.to_string()))?;
    let m: indexmap::IndexMap<String, String> = serde_yaml::from_str(s).map_err(
        |e| Error::Malformed(e.to_string()),
    )?;
    Ok(m.into_iter().collect())
}

/// Relies on serde_yaml::to_string over a mapping of mappings of
/// strings: the document is a function of the entries alone, and writing
/// it into the in-memory buffer has no failure path.
#[verifier::external_body]
pub(crate) fn yaml_encode_nested(entries: &Vec<(String, Vec<(String, String)>)>) -> (r: Vec<u8>)
    requires
        distinct_entry_keys(nested_view(entries@)),
        forall|i: int| 0 <= i < entries@.len() ==> distinct_pair_keys(nested_view(entries@)[i].1),
    ensures
        r@ == yaml_nested_enc(nested_view(entries@)),
{
    let m: indexmap::IndexMap<String, indexmap::IndexMap<String, String>> = entries.iter().map(
        |(name, fields)| (name.clone(), fields.iter().cloned().collect()),
    ).collect();
    serde_yaml::to_string(&m).expect("writing mappings of strings cannot fail").into_bytes()
}

/// Relies on serde_yaml::from_str over a mapping of mappings of strings:
/// a document written by serde_yaml::to_string from named field lists
/// parses back to exactly those entries, in their written order.
#[verifier::external_body]
pub(crate) fn yaml_decode_nested(bytes: &Vec<u8>) -> (r: Result<
    Vec<(String, Vec<(String, String)>)>,
    Error,
>)
    ensures
        r matches Ok(es) ==> forall|qs: Seq<(Seq<char>, Seq<(Seq<char>, Seq<char>)>)>|
            distinct_entry_keys(qs) && bytes@ == yaml_nested_enc(qs) ==> nested_view(es@) == qs,
        r is Err ==> forall|qs: Seq<(Seq<char>, Seq<(Seq<char>, Seq<char>)>)>|
            distinct_entry_keys(qs) ==> bytes@ != yaml_nested_enc(qs),
        r matches Err(e) ==> e matches Error::Malformed(_),
{
    let s = core::str::from_utf8(bytes.as_slice()).map_err(|e| Error::Malformed(e.to_string()))?;
    let m: indexmap::IndexMap<String, indexmap::IndexMap<String, String>> = serde_yaml::from_str(
        s,
    ).map_err(|e| Error::Malformed(e.to_string()))?;
    Ok(m.into_iter().map(|(name, fields)| (name, fields.into_iter().collect())).collect())
}

/// Whether a composite document's parts can stand in one mapping: the
/// leading keys are distinct and none collides with the section name,
/// and the section's entries and their fields are distinct.
pub open spec fn well_formed_doc(
    flat: Seq<(Seq<char>, Seq<char>)>,
    section: Seq<char>,
    nested: Seq<(Seq<char>, Seq<(Seq<char>, Seq<char>)>)>,
) -> bool {
    &&& distinct_pair_keys(flat)
    &&& forall|i: int| 0 <= i < flat.len() ==> (#[trigger] flat[i]).0 != section
    &&& distinct_entry_keys(nested)
    &&& forall|i: int| 0 <= i < nested.len() ==> distinct_pair_keys((#[trigger] nested[i]).1)
}

/// The document that encodes string pairs followed by one named section
/// holding a two-level mapping, all in order.
pub uninterp spec fn yaml_doc_enc(
    flat: Seq<(Seq<char>, Seq<char>)>,
    section: Seq<char>,
    nested: Seq<(Seq<char>, Seq<(Seq<char>, Seq<char>)>)>,
) -> Seq<u8>;

/// Relies on serde_yaml::to_value and serde_yaml::to_string over a
/// mapping of string values with one trailing nested section of string
/// mappings: the document is a function of the entries alone, and
/// writing it into the in-memory buffer has no failure path.
#[verifier::external_body]
pub(crate) fn yaml_encode_doc(
    flat: &Vec<(String, String)>,
    section: &str,
    nested: &Vec<(String, Vec<(String, String)>)>,
) -> (r: Vec<u8>)
    requires
        well_formed_doc(pairs_view(flat@), section@, nested_view(nested@)),
    ensures
        r@ == yaml_doc_enc(pairs_view(flat@), section@, nested_view(nested@)),
{
    let mut m = serde_yaml::Mapping::new();
    for (k, v) in flat.iter() {
        m.insert(serde_yaml::Value::String(k.clone()), serde_yaml::Value::String(v.clone()));
    }
    let vols: indexmap::IndexMap<String, indexmap::IndexMap<String, String>> = nested.iter().map(
        |(n, fs)| (n.clone(), fs.iter().cloned().collect()),
    ).collect();
    let vols = serde_yaml::to_value(&vols).expect("string mappings convert to a value");
    m.insert(serde_yaml::Value::String(section.to_owned()), vols);
    serde_yaml::to_string(&m).expect("writing mappings of strings cannot fail").into_bytes()
}

/// Relies on serde_yaml::from_str over such a document: the leading
/// string entries and the name of the trailing section, in their written
/// order, read back exactly; the trailing section's value is not read
/// here.
#[verifier::external_body]
pub(crate) fn yaml_decode_doc_head(bytes: &Vec<u8>) -> (r: Result<
    (Vec<(String, String)>, String),
    Error,
>)
    ensures
        r matches Ok(out) ==> forall|
            fv: Seq<(Seq<char>, Seq<char>)>,
            sk: Seq<char>,
            nv: Seq<(Seq<char>, Seq<(Seq<char>, Seq<char>)>)>,
        |
            well_formed_doc(fv, sk, nv) && bytes@ == #[trigger] yaml_doc_enc(fv, sk, nv)
                ==> pairs_view(out.0@) == fv && out.1@ == sk,
        r is Err ==> forall|
            fv: Seq<(Seq<char>, Seq<char>)>,
            sk: Seq<char>,
            nv: Seq<(Seq<char>, Seq<(Seq<char>, Seq<char>)>)>,
        | well_formed_doc(fv, sk, nv) ==> bytes@ != #[trigger] yaml_doc_enc(fv, sk, nv),
        r matches Err(e) ==> e matches Error::Malformed(_),
{
    let s = core::str::from_utf8(bytes.as_slice()).map_err(|e| Error::Malformed(e.to_string()))?;
    let mut m: indexmap::IndexMap<String, serde_yaml::Value> =
        serde_yaml::from_str(s).map_err(|e| Error::Malformed(e.to_string()))?;
    let (last, _) = m.pop().ok_or_else(|| Error::Malformed("empty document".to_owned()))?;
    let flat = m.into_iter().map(|(k, v)| match v {
        serde_yaml::Value::String(x) => Some((k, x)),
        _ => None,
    }).collect::<Option<Vec<_>>>();
    Ok((flat.ok_or_else(|| Error::Malformed("expected string values".to_owned()))?, last))
}

/// Relies on serde_yaml::from_str and serde_yaml::from_value over such a
/// document: the trailing section's named entries, each a mapping of
/// strings, in their written order, read back exactly.
#[verifier::external_body]
pub(crate) fn yaml_decode_doc_section(bytes: &Vec<u8>) -> (r: Result<
    Vec<(String, Vec<(String, String)>)>,
    Error,
>)
    ensures
        r matches Ok(out) ==> forall|
            fv: Seq<(Seq<char>, Seq<char>)>,
            sk: Seq<char>,
            nv: Seq<(Seq<char>, Seq<(Seq<char>, Seq<char>)>)>,
        |
            well_formed_doc(fv, sk, nv) && bytes@ == #[trigger] yaml_doc_enc(fv, sk, nv)
                ==> nested_view(out@) == nv,
        r is Err ==> forall|
            fv: Seq<(Seq<char>, Seq<char>)>,
            sk: Seq<char>,
            nv: Seq<(Seq<char>, Seq<(Seq<char>, Seq<char>)>)>,
        | well_formed_doc(fv, sk, nv) ==> bytes@ != #[trigger] yaml_doc_enc(fv, sk, nv),
        r matches Err(e) ==> e matches Error::Malformed(_),
{
    let s = core::str::from_utf8(bytes.as_slice()).map_err(|e| Error::Malformed(e.to_string()))?;
    let mut m: indexmap::IndexMap<String, serde_yaml::Value> =
        serde_yaml::from_str(s).map_err(|e| Error::Malformed(e.to_string()))?;
    let (_, v) = m.pop().ok_or_else(|| Error::Malformed("empty document".to_owned()))?;
    let sections: indexmap::IndexMap<String, indexmap::IndexMap<String, String>> =
        serde_yaml::from_value(v).map_err(|e| Error::Malformed(e.to_string()))?;
    Ok(sections.into_iter().map(|(n, f)| (n, f.into_iter().collect())).collect())
}

} // verus!
