//! What the server makes of the results of its system queries.

use vstd::prelude::*;
use crate::strmap::StrMap;

verus! {

#[derive(Debug)]
pub enum SysQueryError {
    NamespaceNotFound,
    QueryScriptNotFound,
    /// The result is not of the kind that the query should give, or lacks a
    /// field.
    UnexpectedResult,
    /// The prefix is no base64 text.
    InvalidPrefix,
    /// The time of creation is no number.
    InvalidCreateTime,
}

#[derive(Debug)]
pub struct QueryScript {
    pub id: String,
    pub create_time: i64,
    pub associated_deployment: String,
    pub script: String,
}

/// A value as a graph hands it out of the VM.
#[derive(Debug)]
pub enum SerializedVmValue {
    Null,
    Bool(bool),
    Int64(i64),
    String(String),
    Tree(StrMap<SerializedVmValue>),
}

#[verifier::external_type_specification]
#[verifier::external_body]
pub struct ExDecodeError(base64::DecodeError);

/// The bytes that a text stands for in base64, where it stands for any.
pub uninterp spec fn base64_decoded(text: Seq<char>) -> Option<Seq<u8>>;

/// The number that a text stands for in decimal, where it stands for one.
pub uninterp spec fn parsed_i64(text: Seq<char>) -> Option<i64>;

/// `base64::decode`: the bytes that the text stands for in standard base64,
/// or the error where it stands for none. The result depends on the text
/// alone.
#[verifier::external_body]
fn decode_base64(text: &str) -> (decoded: Result<Vec<u8>, base64::DecodeError>)
    ensures
        match decoded {
            Ok(bytes) => base64_decoded(text@) == Some(bytes@),
            Err(_) => base64_decoded(text@) is None,
        },
{
    base64::decode(text)
}

/// `str::parse` to `i64`: the number that the text stands for, or nothing
/// where it stands for none. The result depends on the text alone.
#[verifier::external_body]
fn parse_i64(text: &str) -> (number: Option<i64>)
    ensures
        number == parsed_i64(text@),
{
    match text.parse::<i64>() {
        Ok(n) => Some(n),
        Err(_) => None,
    }
}

/// The prefix of a namespace's keys: the decoded bytes and a zero byte.
pub fn append_zero(decoded: Vec<u8>) -> (prefix: Vec<u8>)
    ensures
        prefix@ == decoded@.push(0u8),
{
    let mut prefix = decoded;
    prefix.push(0);
    prefix
}

/// What the result of the namespace query says of the namespace's prefix,
/// given what its text decodes to.
pub open spec fn spec_prefix(res: SerializedVmValue, decoded: Option<Seq<u8>>) -> Result<Seq<u8>, SysQueryError> {
    match res {
        SerializedVmValue::Null => Err(SysQueryError::NamespaceNotFound),
        SerializedVmValue::String(_) => match decoded {
            Some(bytes) => Ok(bytes.push(0u8)),
            None => Err(SysQueryError::InvalidPrefix),
        },
        _ => Err(SysQueryError::UnexpectedResult),
    }
}

/// The prefix of a namespace's keys in the store, from the result of the
/// namespace query: a null means that there is no such namespace; a text is
/// the prefix in base64, which gets a zero byte appended.
pub fn ns_to_kv_prefix_with_appended_zero(res: &SerializedVmValue) -> (prefix: Result<Vec<u8>, SysQueryError>)
    ensures
        match spec_prefix(
            *res,
            match res {
                SerializedVmValue::String(text) => base64_decoded(text@),
                _ => None,
            },
        ) {
            Ok(bytes) => prefix matches Ok(p) && p@ == bytes,
            Err(e) => prefix matches Err(x) && x == e,
        },
{
    match res {
        SerializedVmValue::Null => Err(SysQueryError::NamespaceNotFound),
        SerializedVmValue::String(text) => match decode_base64(text.as_str()) {
            Ok(decoded) => Ok(append_zero(decoded)),
            Err(_) => Err(SysQueryError::InvalidPrefix),
        },
        _ => Err(SysQueryError::UnexpectedResult),
    }
}

/// The text under `key` in a tree.
pub open spec fn text_field(tree: StrMap<SerializedVmValue>, key: Seq<char>) -> Option<Seq<char>> {
    if tree.contains_key(key) {
        match tree.value_of(key) {
            SerializedVmValue::String(text) => Some(text@),
            _ => None,
        }
    } else {
        None
    }
}

/// The text under `key` in a tree.
pub fn get_text<'a>(tree: &'a StrMap<SerializedVmValue>, key: &str) -> (text: Option<&'a String>)
    ensures
        match text {
            Some(t) => text_field(*tree, key@) == Some(t@),
            None => text_field(*tree, key@) is None,
        },
{
    match tree.get(key) {
        Some(SerializedVmValue::String(text)) => Some(text),
        _ => None,
    }
}

/// The query script that the four texts describe, given the number that the
/// time of creation stands for.
pub fn script_from_fields(id: &String, create_time: Option<i64>, associated_deployment: &String, script: &String) -> (found: Result<
    QueryScript,
    SysQueryError,
>)
    ensures
        match create_time {
            Some(time) => found matches Ok(q) && q.id@ == id@ && q.create_time == time && q.associated_deployment@
                == associated_deployment@ && q.script@ == script@,
            None => found matches Err(e) && e == SysQueryError::InvalidCreateTime,
        },
{
    match create_time {
        Some(time) => Ok(
            QueryScript {
                id: id.clone(),
                create_time: time,
                associated_deployment: associated_deployment.clone(),
                script: script.clone(),
            },
        ),
        None => Err(SysQueryError::InvalidCreateTime),
    }
}

/// The query script in the result of the script query: a null means that
/// there is no such script; a tree holds the script's id, time of creation,
/// deployment and text, each as text under its own name.
pub fn lookup_query_script(res: &SerializedVmValue) -> (found: Result<QueryScript, SysQueryError>)
    ensures
        res is Null ==> (found matches Err(e) && e == SysQueryError::QueryScriptNotFound),
        !(res is Null) && !(res is Tree) ==> (found matches Err(e) && e == SysQueryError::UnexpectedResult),
        res matches SerializedVmValue::Tree(m) ==> match (
            text_field(*m, "id"@),
            text_field(*m, "create_time"@),
            text_field(*m, "associated_deployment"@),
            text_field(*m, "script"@),
        ) {
            (Some(id), Some(time), Some(deployment), Some(script)) => match parsed_i64(time) {
                Some(n) => found matches Ok(q) && q.id@ == id && q.create_time == n && q.associated_deployment@
                    == deployment && q.script@ == script,
                None => found matches Err(e) && e == SysQueryError::InvalidCreateTime,
            },
            _ => found matches Err(e) && e == SysQueryError::UnexpectedResult,
        },
{
    match res {
        SerializedVmValue::Null => Err(SysQueryError::QueryScriptNotFound),
        SerializedVmValue::Tree(m) => {
            let id = get_text(m, "id");
            let time = get_text(m, "create_time");
            let deployment = get_text(m, "associated_deployment");
            let script = get_text(m, "script");
            match (id, time, deployment, script) {
                (Some(id), Some(time), Some(deployment), Some(script)) => script_from_fields(
                    id,
                    parse_i64(time.as_str()),
                    deployment,
                    script,
                ),
                _ => Err(SysQueryError::UnexpectedResult),
            }
        },
        _ => Err(SysQueryError::UnexpectedResult),
    }
}

impl SysQueryError {
    /// The error as a message.
    pub open spec fn spec_message(self) -> Seq<char> {
        match self {
            SysQueryError::NamespaceNotFound => "namespace not found"@,
            SysQueryError::QueryScriptNotFound => "query script not found"@,
            SysQueryError::UnexpectedResult => "unexpected result of a system query"@,
            SysQueryError::InvalidPrefix => "the prefix of the namespace is no base64 text"@,
            SysQueryError::InvalidCreateTime => "the time of creation is no number"@,
        }
    }

    /// The error as a message.
    pub fn message(&self) -> (text: String)
        ensures
            text@ == self.spec_message(),
    {
        match self {
            SysQueryError::NamespaceNotFound => "namespace not found".to_string(),
            SysQueryError::QueryScriptNotFound => "query script not found".to_string(),
            SysQueryError::UnexpectedResult => "unexpected result of a system query".to_string(),
            SysQueryError::InvalidPrefix => "the prefix of the namespace is no base64 text".to_string(),
            SysQueryError::InvalidCreateTime => "the time of creation is no number".to_string(),
        }
    }
}

} // verus!
