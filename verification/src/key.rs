//! Key paths and the key extractor.
//!
//! A key path names a place inside a JSON object by the member names that lead
//! to it, written with dots between them. The extractor finds the routing key
//! of a frame there: the key is present only where the path leads, through
//! objects alone, to a string.

use vstd::prelude::*;
use crate::json::{parsed_json, Json, JsonValue};
use crate::text::{opt_text, split, split_text, texts};

verus! {

/// The member names of a key path, in the order in which they are followed.
#[derive(Debug, Clone, PartialEq, Eq)]
pub struct KeyPath {
    segments: Vec<String>,
}

impl View for KeyPath {
    type V = Seq<Seq<char>>;

    closed spec fn view(&self) -> Seq<Seq<char>> {
        texts(self.segments@)
    }
}

/// The view of an optional JSON value.
pub open spec fn opt_json(value: Option<Json>) -> Option<JsonValue> {
    match value {
        Some(v) => Some(v@),
        None => None,
    }
}

/// The key that `path` finds in `value`: the characters of the string that the
/// path leads to. There is none where a name on the way is missing, where a
/// value on the way is no object, or where the value reached is not a string.
pub open spec fn key_at(value: JsonValue, path: Seq<Seq<char>>) -> Option<Seq<char>> {
    match value.at(path) {
        Some(leaf) => leaf.text(),
        None => None,
    }
}

/// The key of a frame that parsed to `parsed`; a frame that did not parse has
/// none.
pub open spec fn key_of_parsed(parsed: Option<JsonValue>, path: Seq<Seq<char>>) -> Option<
    Seq<char>,
> {
    match parsed {
        Some(value) => key_at(value, path),
        None => None,
    }
}

/// The key of the frame `frame` under `path`.
pub open spec fn extracted(frame: Seq<char>, path: Seq<Seq<char>>) -> Option<Seq<char>> {
    key_of_parsed(parsed_json(frame), path)
}

impl KeyPath {
    /// Reads a dotted path. Every dot separates two names, so a path has one
    /// name more than it has dots, and a name may be empty.
    pub fn parse(text: &str) -> (path: KeyPath)
        ensures
            path@ == split(text@, '.'),
            path@.len() >= 1,
    {
        KeyPath { segments: split_text(text, '.') }
    }

    /// The names of the path.
    pub fn segments(&self) -> (names: &Vec<String>)
        ensures
            texts(names@) == self@,
    {
        &self.segments
    }
}

/// Follows `path` from `root` and returns the value it leads to.
pub fn lookup<'a>(root: &'a Json, path: &KeyPath) -> (found: Option<&'a Json>)
    ensures
        match found {
            Some(value) => root@.at(path@) == Some(value@),
            None => root@.at(path@) is None,
        },
{
    let mut current: &Json = root;
    let mut i: usize = 0;
    assert(path@.skip(0) == path@);
    while i < path.segments.len()
        invariant
            i <= path.segments.len(),
            root@.at(path@) == current@.at(path@.skip(i as int)),
        decreases path.segments.len() - i,
    {
        let ghost rest = path@.skip(i as int);
        assert(rest[0] == path.segments@[i as int]@);
        assert(rest.drop_first() == path@.skip(i + 1));
        match current.get(path.segments[i].as_str()) {
            Some(inner) => {
                current = inner;
            },
            None => {
                return None;
            },
        }
        i = i + 1;
    }
    assert(path@.skip(i as int).len() == 0);
    Some(current)
}

/// The value that the dotted path `pointer` leads to inside `json`.
pub fn json_pointer_to_value<'a>(json: &'a Json, pointer: &str) -> (found: Option<&'a Json>)
    ensures
        match found {
            Some(value) => json@.at(split(pointer@, '.')) == Some(value@),
            None => json@.at(split(pointer@, '.')) is None,
        },
{
    let path = KeyPath::parse(pointer);
    lookup(json, &path)
}

/// The key that `path` finds in a parsed frame.
pub fn key_in(value: &Json, path: &KeyPath) -> (key: Option<String>)
    ensures
        opt_text(key) == key_at(value@, path@),
{
    match lookup(value, path) {
        Some(leaf) => match leaf.as_text() {
            Some(s) => Some(s.clone()),
            None => None,
        },
        None => None,
    }
}

/// The key of a frame whose parse is given: none where the frame did not
/// parse, else what `path` finds.
pub fn key_of(parsed: &Option<Json>, path: &KeyPath) -> (key: Option<String>)
    ensures
        opt_text(key) == key_of_parsed(opt_json(*parsed), path@),
{
    match parsed {
        Some(value) => key_in(value, path),
        None => None,
    }
}

/// Extracts the routing key of `frame`: parses the frame and follows `path`.
/// A frame that is not JSON has no key; that is not an error.
pub fn extract(frame: &str, path: &KeyPath) -> (key: Option<String>)
    ensures
        opt_text(key) == extracted(frame@, path@),
{
    let parsed = Json::parse(frame);
    key_of(&parsed, path)
}

/// Extracts the key at the dotted path `pointer` from the JSON text `json_str`.
pub fn extract_key_from_json(json_str: &str, pointer: &str) -> (key: Option<String>)
    ensures
        opt_text(key) == extracted(json_str@, split(pointer@, '.')),
{
    let path = KeyPath::parse(pointer);
    extract(json_str, &path)
}

/// Extraction keeps no state: the key depends on the frame and the path alone.
/// Whatever two extractions of one frame under one path return, it is the same
/// key both times, or no key both times.
pub proof fn law_extraction_repeats(
    frame: Seq<char>,
    path: Seq<Seq<char>>,
    first: Option<String>,
    second: Option<String>,
)
    requires
        opt_text(first) == extracted(frame, path),
        opt_text(second) == extracted(frame, path),
    ensures
        opt_text(first) == opt_text(second),
        first is Some <==> second is Some,
        first is Some ==> first->0@ == second->0@,
{
}

} // verus!
