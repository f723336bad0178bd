//! The decoded comment line of an extxyz frame.
use vstd::prelude::*;

use crate::dict::map_of;
use crate::error::{Context, ParseError};
use crate::json::{
    json_map_get, json_map_insert, JsonObject, json_map_new, json_map_remove, json_map_view, json_of,
    json_string, json_string_of, parse_json,
};
use crate::metadata::{pairs_at, rewrite, rewritten, scan_pairs};
use crate::text::{chars_of, copy_range, starts_with, string_from};

verus! {

/// The marker of a value written as embedded JSON.
pub open spec fn json_marker() -> Seq<char> {
    seq!['_', 'J', 'S', 'O', 'N', ' ']
}

/// The text that a value is decoded from: the rewritten value, less the
/// `_JSON` of a leading `_JSON ` marker.
pub open spec fn decoded_text(v: Seq<char>) -> Seq<char> {
    let t = rewritten(v);
    if t.len() >= 6 && t.take(6) == json_marker() {
        t.subrange(5, t.len() as int)
    } else {
        t
    }
}

/// The typed value of a raw value: the JSON value of its decoded text, or,
/// where that text is no JSON document, the raw value verbatim as a string.
pub open spec fn decoded_value(v: Seq<char>) -> serde_json::Value {
    match json_of(decoded_text(v)) {
        Some(j) => j,
        None => json_string_of(v),
    }
}

/// The dictionary that the raw pairs decode to; a later key overrides an
/// earlier one.
pub open spec fn decoded_pairs(ps: Seq<(Seq<char>, Seq<char>)>) -> Map<Seq<char>, serde_json::Value> {
    map_of(ps.map_values(|p: (Seq<char>, Seq<char>)| (p.0, decoded_value(p.1))))
}

/// The metadata of one frame, decoded from its comment line: a dictionary from
/// keys to typed values.
///
/// Example input: `Lattice="5.44 0.0 0.0 0.0 5.44 0.0 0.0 0.0 5.44" Properties=species:S:1:pos:R:3 Time=0.0`
#[derive(Clone, Debug)]
pub struct Info {
    dict: JsonObject,
}

impl View for Info {
    type V = Map<Seq<char>, serde_json::Value>;

    closed spec fn view(&self) -> Map<Seq<char>, serde_json::Value> {
        json_map_view(self.dict)
    }
}

fn decode_value(v: &String) -> (r: serde_json::Value)
    ensures
        r == decoded_value(v@),
{
    let t = rewrite(&chars_of(v.as_str()));
    let marker = vec!['_', 'J', 'S', 'O', 'N', ' '];
    assert(marker@ == json_marker());
    let marked = starts_with(&t, &marker);
    let text = if marked {
        string_from(copy_range(&t, 5, t.len()))
    } else {
        string_from(copy_range(&t, 0, t.len()))
    };
    assert(t@.subrange(0, t.len() as int) =~= t@);
    match parse_json(text.as_str()) {
        Some(j) => j,
        None => json_string(v.clone()),
    }
}

/// Decodes a comment line into its metadata. Fails when the line is not
/// wholly made of `key=value` tokens separated by blanks; the error gives the
/// text from where the tokens stop.
pub fn parse_extxyz_title(input: &str) -> (r: Result<Info, ParseError>)
    ensures
        r is Ok <==> pairs_at(input@, 0).1 == input@.len(),
        r matches Ok(info) ==> info@ == decoded_pairs(pairs_at(input@, 0).0),
        r matches Err(e) ==> e.context == Context::KeyValuePairs && e.input@ == input@
            && e.remainder@ == input@.subrange(pairs_at(input@, 0).1, input@.len() as int),
{
    let s = chars_of(input);
    let (pairs, end) = scan_pairs(&s);
    if end != s.len() {
        return Err(
            ParseError {
                context: Context::KeyValuePairs,
                remainder: string_from(copy_range(&s, end, s.len())),
                input: input.to_owned(),
            },
        );
    }
    let ghost ps = pairs_at(input@, 0).0;
    let mut dict = json_map_new();
    let mut i: usize = 0;
    while i < pairs.len()
        invariant
            0 <= i <= pairs.len(),
            ps == crate::metadata::pair_views(pairs@),
            json_map_view(dict) == decoded_pairs(ps.take(i as int)),
        decreases pairs.len() - i,
    {
        let value = decode_value(&pairs[i].1);
        let key = pairs[i].0.clone();
        json_map_insert(&mut dict, key, value);
        proof {
            let f = |p: (Seq<char>, Seq<char>)| (p.0, decoded_value(p.1));
            assert(ps.take(i + 1).map_values(f).drop_last() =~= ps.take(i as int).map_values(f));
        }
        i = i + 1;
    }
    assert(ps.take(pairs.len() as int) =~= ps);
    Ok(Info { dict })
}

impl std::str::FromStr for Info {
    type Err = ParseError;

    fn from_str(input: &str) -> (r: Result<Info, ParseError>)
        ensures
            r is Ok <==> pairs_at(input@, 0).1 == input@.len(),
            r matches Ok(info) ==> info@ == decoded_pairs(pairs_at(input@, 0).0),
            r matches Err(e) ==> e.context == Context::KeyValuePairs && e.input@ == input@
                && e.remainder@ == input@.subrange(pairs_at(input@, 0).1, input@.len() as int),
    {
        parse_extxyz_title(input)
    }
}

impl Info {
    /// An empty dictionary.
    pub fn new() -> (r: Info)
        ensures
            r@ == Map::<Seq<char>, serde_json::Value>::empty(),
    {
        Info { dict: json_map_new() }
    }

    /// The value of `key`.
    pub fn get(&self, key: &str) -> (r: Option<&serde_json::Value>)
        ensures
            match r {
                Some(v) => self@.contains_key(key@) && self@[key@] == *v,
                None => !self@.contains_key(key@),
            },
    {
        json_map_get(&self.dict, key)
    }

    /// Removes `key` and gives the value it had.
    pub fn pop(&mut self, key: &str) -> (r: Option<serde_json::Value>)
        ensures
            final(self)@ == old(self)@.remove(key@),
            match r {
                Some(v) => old(self)@.contains_key(key@) && old(self)@[key@] == v,
                None => !old(self)@.contains_key(key@),
            },
    {
        json_map_remove(&mut self.dict, key)
    }

    /// The dictionary as a JSON object.
    pub fn raw_map(&self) -> (r: &JsonObject)
        ensures
            json_map_view(*r) == self@,
    {
        &self.dict
    }

    /// The dictionary as a JSON object, to change in place.
    pub fn raw_map_mut(&mut self) -> (r: &mut JsonObject)
        ensures
            json_map_view(*r) == old(self)@,
    {
        &mut self.dict
    }
}

impl Default for Info {
    fn default() -> (r: Info)
        ensures
            r@ == Map::<Seq<char>, serde_json::Value>::empty(),
    {
        Info::new()
    }
}

} // verus!
