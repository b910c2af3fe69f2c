//! The structured configuration grammar's deserializer, taken from
//! serde_yaml behind named results: what the document's `secrets`, `image`
//! and `traditional` entries hold.
use vstd::prelude::*;

verus! {

/// What serde_yaml's deserializer yields for the `secrets:` entry of a
/// configuration document: the list of secret strings, each scalar element
/// rendered as its string, or the diagnostic text of the failure. YAML
/// deserialization is a pure function of the input text.
pub uninterp spec fn yaml_secrets_of(s: Seq<char>) -> Result<Seq<Seq<char>>, Seq<char>>;

/// What serde_yaml's deserializer yields for the optional `image:` block and
/// `traditional:` flag of a configuration document, or the diagnostic text
/// of the failure. A pure function of the input text.
pub uninterp spec fn yaml_image_of(s: Seq<char>) -> Result<
    (Option<Seq<char>>, Option<bool>),
    Seq<char>,
>;

/// The view of a secrets extraction result, for the wrapper's contract.
pub open spec fn secrets_result_view(r: Result<Vec<String>, String>) -> Result<
    Seq<Seq<char>>,
    Seq<char>,
> {
    match r {
        Ok(v) => Ok(v.deep_view()),
        Err(e) => Err(e@),
    }
}

/// The view of an image extraction result, for the wrapper's contract.
pub open spec fn image_result_view(r: Result<(Option<String>, Option<bool>), String>) -> Result<
    (Option<Seq<char>>, Option<bool>),
    Seq<char>,
> {
    match r {
        Ok((img, trad)) => Ok(
            (
                match img {
                    Some(t) => Some(t@),
                    None => None,
                },
                trad,
            ),
        ),
        Err(e) => Err(e@),
    }
}

/// Relies on `serde_yaml::from_str` for `Value` and the `Value` accessors
/// `get` and `as_sequence`: the `secrets` list of the document. Mirrors
/// deserializing a struct with a `secrets: Vec<String>` field, each scalar
/// converted to its string.
#[verifier::external_body]
pub(crate) fn yaml_parse_secrets(s: &str) -> (r: Result<Vec<String>, String>)
    ensures
        secrets_result_view(r) == yaml_secrets_of(s@),
{
    let v: serde_yaml::Value = serde_yaml::from_str(s).map_err(|e| e.to_string())?;
    let bad = "invalid type: `secrets` must hold a sequence of scalars";
    let q = v.get("secrets").and_then(serde_yaml::Value::as_sequence);
    let q = q.ok_or_else(|| String::from(bad))?;
    q.iter().map(|item| match item {
        serde_yaml::Value::String(x) => Ok(x.clone()),
        serde_yaml::Value::Number(x) => Ok(x.to_string()),
        serde_yaml::Value::Bool(x) => Ok(x.to_string()),
        _ => Err(String::from(bad)),
    }).collect()
}

/// Relies on `serde_yaml::from_str` for `Value` and the `Value` accessors
/// `is_mapping`, `get`, `as_str` and `as_bool`: the optional `image` block
/// and `traditional` flag. Mirrors deserializing a struct with optional
/// `image: String` and `traditional: bool` fields.
#[verifier::external_body]
pub(crate) fn yaml_parse_image(s: &str) -> (r: Result<(Option<String>, Option<bool>), String>)
    ensures
        image_result_view(r) == yaml_image_of(s@),
{
    let v: serde_yaml::Value = match serde_yaml::from_str(s) {
        Ok(v) => v,
        Err(e) => return Err(e.to_string()),
    };
    if !v.is_mapping() {
        return Err(String::from("invalid type: the document must be a mapping"));
    }
    let image = v.get("image").and_then(serde_yaml::Value::as_str).map(str::to_string);
    let traditional = v.get("traditional").and_then(serde_yaml::Value::as_bool);
    Ok((image, traditional))
}

} // verus!
