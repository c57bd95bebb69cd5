//! The token vocabulary: reading `tokens.json`, and producing it from the
//! `token_list` entry of the model's `config.yaml`.

use vstd::prelude::*;

use crate::funasr::error::{json_error_text, FunasrError};

verus! {

broadcast use vstd::string::group_string_axioms;

/// The list of strings that `serde_json` reads from `text` when `text` is a
/// JSON array of strings, and nothing otherwise.
pub uninterp spec fn json_string_list(text: Seq<char>) -> Option<Seq<Seq<char>>>;

/// The JSON text that `serde_json` writes for a list of strings.
pub uninterp spec fn json_of_strings(list: Seq<Seq<char>>) -> Seq<char>;

/// The views of a list of strings.
pub open spec fn string_views(v: Seq<String>) -> Seq<Seq<char>> {
    v.map_values(|s: String| s@)
}

/// `serde_json::from_str::<Vec<String>>`: succeeds exactly on a JSON array of
/// strings, with the strings it holds.
#[verifier::external_body]
fn json_strings_from_str(text: &str) -> (r: Result<Vec<String>, serde_json::Error>)
    ensures
        r is Ok <==> json_string_list(text@) is Some,
        r matches Ok(v) ==> json_string_list(text@) == Some(string_views(v@)),
{
    serde_json::from_str::<Vec<String>>(text)
}

/// `serde_json::to_string` of a list of strings: the JSON text for exactly
/// that list. Serialization fails only when a `Serialize` impl fails or a map
/// has non-string keys, neither of which a list of strings can give.
#[verifier::external_body]
fn json_strings_to_string(list: &[String]) -> (r: Result<String, serde_json::Error>)
    ensures
        r is Ok,
        r matches Ok(s) ==> s@ == json_of_strings(string_views(list@)),
{
    serde_json::to_string(list)
}

#[verifier::external_type_specification]
#[verifier::external_body]
pub struct ExYamlError(serde_yaml::Error);

/// The `token_list` entry of the YAML document `text`, as `serde_yaml` reads
/// it into a `Value`: `None` when the text is not YAML; `Some(None)` when the
/// document has no `token_list` key or its value is not a sequence; otherwise
/// its items, an item being `None` when it is not a string.
pub uninterp spec fn yaml_token_items(text: Seq<char>) -> Option<Option<Seq<Option<Seq<char>>>>>;

/// The views of optional strings.
pub open spec fn optional_views(v: Seq<Option<String>>) -> Seq<Option<Seq<char>>> {
    v.map_values(|o: Option<String>| match o {
        Some(t) => Some(t@),
        None => None,
    })
}

/// `serde_yaml::from_str::<Value>` followed by reading `value["token_list"]`
/// with `as_sequence` and each item with `as_str`.
#[verifier::external_body]
fn config_token_items(text: &str) -> (r: Result<Option<Vec<Option<String>>>, serde_yaml::Error>)
    ensures
        r is Ok <==> yaml_token_items(text@) is Some,
        r matches Ok(items) ==> yaml_token_items(text@) == Some(
            match items {
                Some(v) => Some(optional_views(v@)),
                None => None,
            },
        ),
{
    let value: serde_yaml::Value = serde_yaml::from_str(text)?;
    Ok(value["token_list"].as_sequence().map(
        |seq| seq.iter().map(|item| item.as_str().map(|t| t.to_string())).collect(),
    ))
}

/// The text of a YAML error (`Display` of `serde_yaml::Error`).
#[verifier::external_body]
fn yaml_error_text(e: &serde_yaml::Error) -> String {
    e.to_string()
}

/// Read the vocabulary from the text of `tokens.json`, a JSON array of strings.
pub fn parse_token_list(content: &str) -> (r: Result<Vec<String>, FunasrError>)
    ensures
        json_string_list(content@) matches Some(l) ==> (r matches Ok(v) && string_views(v@)
            == l),
        json_string_list(content@) is None ==> r matches Err(FunasrError::Json(_)),
{
    match json_strings_from_str(content) {
        Ok(list) => Ok(list),
        Err(e) => Err(FunasrError::Json(e)),
    }
}

/// The vocabulary held by the `token_list` entry of `config.yaml`, given as
/// that entry's items (`None` when the entry is missing or not a sequence;
/// an item is `None` when it is not a string). Items that are not strings
/// stand as empty tokens.
pub fn token_list_from_config(items: Option<Vec<Option<String>>>) -> (r: Result<
    Vec<String>,
    String,
>)
    ensures
        items is None ==> (r matches Err(m) && m@ == "Missing token_list in config.yaml"@),
        items matches Some(its) ==> (r matches Ok(v) && v.len() == its.len() && forall|i: int|
            0 <= i < its.len() ==> (#[trigger] v@[i])@ == match its@[i] {
                Some(t) => t@,
                None => Seq::<char>::empty(),
            }),
{
    match items {
        None => Err(String::from_str("Missing token_list in config.yaml")),
        Some(its) => {
            let mut out: Vec<String> = Vec::new();
            let mut i: usize = 0;
            while i < its.len()
                invariant
                    i <= its@.len(),
                    out.len() == i,
                    forall|j: int|
                        0 <= j < i ==> (#[trigger] out@[j])@ == match its@[j] {
                            Some(t) => t@,
                            None => Seq::<char>::empty(),
                        },
                decreases its@.len() - i,
            {
                let t = match &its[i] {
                    Some(t) => t.clone(),
                    None => String::new(),
                };
                out.push(t);
                i += 1;
            }
            Ok(out)
        },
    }
}

/// The vocabulary a list of optional items stands for: items that are not
/// strings stand as empty tokens.
pub open spec fn tokens_of_items(items: Seq<Option<Seq<char>>>) -> Seq<Seq<char>> {
    items.map_values(|o: Option<Seq<char>>| match o {
        Some(t) => t,
        None => Seq::<char>::empty(),
    })
}

/// The `tokens.json` text for a vocabulary.
pub fn tokens_json(tokens: &[String]) -> (r: Result<String, String>)
    ensures
        r matches Ok(s) && s@ == json_of_strings(string_views(tokens@)),
{
    match json_strings_to_string(tokens) {
        Ok(s) => Ok(s),
        Err(e) => {
            let mut m = String::from_str("Failed to serialize tokens: ");
            m.append(json_error_text(&e).as_str());
            Err(m)
        },
    }
}

/// The `tokens.json` text for the `token_list` of the model's `config.yaml`.
pub fn tokens_json_from_config(text: &str) -> (r: Result<String, String>)
    ensures
        yaml_token_items(text@) is None ==> (r matches Err(m) && "Failed to parse config.yaml: "@.is_prefix_of(m@)),
        yaml_token_items(text@) == Some(None::<Seq<Option<Seq<char>>>>) ==> (r matches Err(m)
            && m@ == "Missing token_list in config.yaml"@),
        yaml_token_items(text@) matches Some(Some(items)) ==> (r matches Ok(s) && s@
            == json_of_strings(tokens_of_items(items))),
{
    let items = match config_token_items(text) {
        Ok(items) => items,
        Err(e) => {
            let mut m = String::from_str("Failed to parse config.yaml: ");
            let ghost head = m@;
            m.append(yaml_error_text(&e).as_str());
            assert(m@.subrange(0, head.len() as int) =~= head);
            return Err(m);
        },
    };
    let ghost view_items = match &items {
        Some(v) => Some(optional_views(v@)),
        None => None,
    };
    let tokens = token_list_from_config(items)?;
    proof {
        let its = view_items->Some_0;
        assert(string_views(tokens@) =~= tokens_of_items(its));
    }
    tokens_json(tokens.as_slice())
}

} // verus!
