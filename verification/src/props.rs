//! Property decoding: the upstream returns each page property as a typed JSON
//! object (`{type: T, [T]: payload}`); these rules turn one into a
//! [`PropertyValue`], and a whole property object into a key-ordered list.

use vstd::prelude::*;

use crate::json::{js_of, Json};
use crate::notion::PropertyValue;
use crate::render::{md_join, pv_view, PropV};
use crate::strings::str_eq;

verus! {

// ---------------------------------------------------------------------------
// JSON accessors
// ---------------------------------------------------------------------------

/// The first value under `key` in an object member list.
pub open spec fn spec_obj_get(ps: Seq<(String, Json)>, key: Seq<char>) -> Option<Json>
    decreases ps.len(),
{
    if ps.len() == 0 {
        None
    } else if ps[0].0@ == key {
        Some(ps[0].1)
    } else {
        spec_obj_get(ps.drop_first(), key)
    }
}

/// The value under `key`, when `v` is an object holding one.
pub open spec fn spec_json_get(v: Json, key: Seq<char>) -> Option<Json> {
    match v {
        Json::Obj(ps) => spec_obj_get(ps@, key),
        _ => None,
    }
}

/// The text of a JSON string value.
pub open spec fn spec_as_str(v: Json) -> Option<Seq<char>> {
    match v {
        Json::Str(s) => Some(s@),
        _ => None,
    }
}

/// The text under `key`, when it is a string.
pub open spec fn spec_get_str(v: Json, key: Seq<char>) -> Option<Seq<char>> {
    match spec_json_get(v, key) {
        None => None,
        Some(j) => spec_as_str(j),
    }
}

/// Looks `key` up in `v`, when `v` is an object.
pub fn json_get<'a>(v: &'a Json, key: &str) -> (r: Option<&'a Json>)
    ensures
        match r {
            None => spec_json_get(*v, key@) is None,
            Some(j) => spec_json_get(*v, key@) == Some(*j),
        },
{
    let ps = match v {
        Json::Obj(ps) => ps,
        _ => {
            return None;
        },
    };
    let mut i: usize = 0;
    proof {
        assert(ps@.skip(0) =~= ps@);
    }
    while i < ps.len()
        invariant
            0 <= i <= ps@.len(),
            spec_json_get(*v, key@) == spec_obj_get(ps@, key@),
            spec_obj_get(ps@.skip(i as int), key@) == spec_obj_get(ps@, key@),
        decreases ps@.len() - i,
    {
        proof {
            assert(ps@.skip(i as int)[0] == ps@[i as int]);
            assert(ps@.skip(i as int).drop_first() =~= ps@.skip(i as int + 1));
        }
        if str_eq(ps[i].0.as_str(), key) {
            return Some(&ps[i].1);
        }
        i = i + 1;
    }
    None
}

/// The text under `key`, cloned, when it is a string.
pub fn get_str(v: &Json, key: &str) -> (r: Option<String>)
    ensures
        match r {
            None => spec_get_str(*v, key@) is None,
            Some(s) => spec_get_str(*v, key@) == Some(s@),
        },
{
    match json_get(v, key) {
        None => None,
        Some(j) => match j {
            Json::Str(s) => Some(s.clone()),
            _ => None,
        },
    }
}

// ---------------------------------------------------------------------------
// Scalar decodings
// ---------------------------------------------------------------------------

/// The plain texts of a rich-text array, concatenated.
pub open spec fn spec_concat_plain(xs: Seq<Json>) -> Seq<char>
    decreases xs.len(),
{
    if xs.len() == 0 {
        Seq::empty()
    } else {
        spec_concat_plain(xs.drop_last()) + (match spec_get_str(xs.last(), "plain_text"@) {
            Some(t) => t,
            None => Seq::empty(),
        })
    }
}

/// Concatenates the plain texts of a rich-text array.
pub fn concat_plain(xs: &Vec<Json>) -> (r: String)
    ensures
        r@ == spec_concat_plain(xs@),
{
    let mut out = String::new();
    let mut i: usize = 0;
    proof {
        assert(xs@.take(0) =~= Seq::<Json>::empty());
    }
    while i < xs.len()
        invariant
            0 <= i <= xs@.len(),
            out@ == spec_concat_plain(xs@.take(i as int)),
        decreases xs@.len() - i,
    {
        match get_str(&xs[i], "plain_text") {
            Some(t) => {
                out.append(t.as_str());
            },
            None => {},
        }
        proof {
            assert(xs@.take(i as int + 1).drop_last() =~= xs@.take(i as int));
            assert(xs@.take(i as int + 1).last() == xs@[i as int]);
            assert(out@ =~= spec_concat_plain(xs@.take(i as int + 1)));
        }
        i = i + 1;
    }
    proof {
        assert(xs@.take(xs@.len() as int) =~= xs@);
    }
    out
}

/// The decoding of a `title`/`rich_text` payload: the concatenated plain
/// texts, when the payload is an array.
pub open spec fn spec_text_value(v: Option<Json>) -> Option<PropV> {
    match v {
        None => None,
        Some(j) => match j {
            Json::Arr(xs) => Some(PropV::Text(spec_concat_plain(xs@))),
            _ => None,
        },
    }
}

/// The decoding of a `date` payload: `start`, then `..end` when present, then
/// ` tz` when present.
pub open spec fn spec_date_value(v: Json) -> Option<Seq<char>> {
    match spec_get_str(v, "start"@) {
        None => None,
        Some(start) => {
            let with_end = match spec_get_str(v, "end"@) {
                None => start,
                Some(e) => start + ".."@ + e,
            };
            Some(
                match spec_get_str(v, "time_zone"@) {
                    None => with_end,
                    Some(tz) => with_end + " "@ + tz,
                },
            )
        },
    }
}

/// Decodes a `date` payload.
pub fn date_value(v: &Json) -> (r: Option<String>)
    ensures
        match r {
            None => spec_date_value(*v) is None,
            Some(s) => spec_date_value(*v) == Some(s@),
        },
{
    let mut out = match get_str(v, "start") {
        None => {
            return None;
        },
        Some(s) => s,
    };
    match get_str(v, "end") {
        None => {},
        Some(e) => {
            out.append("..");
            out.append(e.as_str());
        },
    }
    match get_str(v, "time_zone") {
        None => {},
        Some(tz) => {
            out.append(" ");
            out.append(tz.as_str());
        },
    }
    proof {
        assert(out@ =~= spec_date_value(*v).unwrap());
    }
    Some(out)
}

/// The text of a JSON scalar: strings as themselves, numbers by their source
/// token, booleans spelled out, null nothing, and anything else its compact
/// serialization.
pub open spec fn spec_value_to_string(v: Json) -> Option<Seq<char>> {
    match v {
        Json::Str(s) => Some(s@),
        Json::Num { text, .. } => Some(text@),
        Json::Bool(b) => Some(
            if b {
                "true"@
            } else {
                "false"@
            },
        ),
        Json::Null => None,
        _ => Some(js_of(v)),
    }
}

/// Renders a JSON value as text, as the generic coercion does.
pub fn value_to_string(v: &Json) -> (r: Option<String>)
    ensures
        match r {
            None => spec_value_to_string(*v) is None,
            Some(s) => spec_value_to_string(*v) == Some(s@),
        },
{
    match v {
        Json::Str(s) => Some(s.clone()),
        Json::Num { text, .. } => Some(text.clone()),
        Json::Bool(b) => {
            let mut out = String::new();
            if *b {
                out.append("true");
            } else {
                out.append("false");
            }
            proof {
                assert(out@ =~= spec_value_to_string(*v).unwrap());
            }
            Some(out)
        },
        Json::Null => None,
        _ => Some(crate::json::json_to_string(v)),
    }
}

/// The decoding of a `formula` payload, dispatching on its inner type.
pub open spec fn spec_formula_value(v: Json) -> Option<PropV> {
    match spec_get_str(v, "type"@) {
        None => None,
        Some(t) => {
            if t == "string"@ {
                match spec_get_str(v, "string"@) {
                    None => None,
                    Some(s) => Some(PropV::Text(s)),
                }
            } else if t == "number"@ {
                match spec_json_get(v, "number"@) {
                    Some(Json::Num { float_text, .. }) => Some(PropV::Text(float_text@)),
                    _ => None,
                }
            } else if t == "boolean"@ {
                match spec_json_get(v, "boolean"@) {
                    Some(Json::Bool(b)) => Some(
                        PropV::Text(
                            if b {
                                "true"@
                            } else {
                                "false"@
                            },
                        ),
                    ),
                    _ => None,
                }
            } else if t == "date"@ {
                match spec_json_get(v, "date"@) {
                    None => None,
                    Some(d) => match spec_date_value(d) {
                        None => None,
                        Some(s) => Some(PropV::Text(s)),
                    },
                }
            } else {
                None
            }
        },
    }
}

/// Decodes a `formula` payload.
pub fn formula_value(v: &Json) -> (r: Option<PropertyValue>)
    ensures
        match r {
            None => spec_formula_value(*v) is None,
            Some(p) => spec_formula_value(*v) == Some(pv_view(p)),
        },
{
    let t = match get_str(v, "type") {
        None => {
            return None;
        },
        Some(t) => t,
    };
    if str_eq(t.as_str(), "string") {
        match get_str(v, "string") {
            None => None,
            Some(s) => Some(PropertyValue::Text(s)),
        }
    } else if str_eq(t.as_str(), "number") {
        match json_get(v, "number") {
            Some(Json::Num { float_text, .. }) => Some(PropertyValue::Text(float_text.clone())),
            _ => None,
        }
    } else if str_eq(t.as_str(), "boolean") {
        match json_get(v, "boolean") {
            Some(Json::Bool(b)) => {
                let mut out = String::new();
                if *b {
                    out.append("true");
                } else {
                    out.append("false");
                }
                proof {
                    assert(out@ =~= (if *b {
                        "true"@
                    } else {
                        "false"@
                    }));
                }
                Some(PropertyValue::Text(out))
            },
            _ => None,
        }
    } else if str_eq(t.as_str(), "date") {
        match json_get(v, "date") {
            None => None,
            Some(d) => match date_value(d) {
                None => None,
                Some(s) => Some(PropertyValue::Text(s)),
            },
        }
    } else {
        None
    }
}

// ---------------------------------------------------------------------------
// List decodings
// ---------------------------------------------------------------------------

/// The `name` texts of an array's items, in order.
pub open spec fn spec_names_of(xs: Seq<Json>) -> Seq<Seq<char>>
    decreases xs.len(),
{
    if xs.len() == 0 {
        Seq::empty()
    } else {
        let rest = spec_names_of(xs.drop_last());
        match spec_get_str(xs.last(), "name"@) {
            Some(n) => rest.push(n),
            None => rest,
        }
    }
}

/// The `name`-else-`id` texts of an array's items, in order.
pub open spec fn spec_people_of(xs: Seq<Json>) -> Seq<Seq<char>>
    decreases xs.len(),
{
    if xs.len() == 0 {
        Seq::empty()
    } else {
        let rest = spec_people_of(xs.drop_last());
        match spec_get_str(xs.last(), "name"@) {
            Some(n) => rest.push(n),
            None => match spec_get_str(xs.last(), "id"@) {
                Some(i) => rest.push(i),
                None => rest,
            },
        }
    }
}

/// The `name`-else-`file.url`-else-`external.url` texts of an array's items.
pub open spec fn spec_files_of(xs: Seq<Json>) -> Seq<Seq<char>>
    decreases xs.len(),
{
    if xs.len() == 0 {
        Seq::empty()
    } else {
        let rest = spec_files_of(xs.drop_last());
        match spec_file_entry(xs.last()) {
            Some(t) => rest.push(t),
            None => rest,
        }
    }
}

/// One `files` item: its name, else its file URL, else its external URL.
pub open spec fn spec_file_entry(item: Json) -> Option<Seq<char>> {
    match spec_get_str(item, "name"@) {
        Some(n) => Some(n),
        None => match spec_json_get(item, "file"@) {
            Some(f) => match spec_get_str(f, "url"@) {
                Some(u) => Some(u),
                None => spec_external_url(item),
            },
            None => spec_external_url(item),
        },
    }
}

/// The `external.url` text of a `files` item.
pub open spec fn spec_external_url(item: Json) -> Option<Seq<char>> {
    match spec_json_get(item, "external"@) {
        Some(e) => spec_get_str(e, "url"@),
        None => None,
    }
}

/// The `id` texts of an array's items, in order.
pub open spec fn spec_ids_of(xs: Seq<Json>) -> Seq<Seq<char>>
    decreases xs.len(),
{
    if xs.len() == 0 {
        Seq::empty()
    } else {
        let rest = spec_ids_of(xs.drop_last());
        match spec_get_str(xs.last(), "id"@) {
            Some(i) => rest.push(i),
            None => rest,
        }
    }
}

/// The view of a string list.
pub open spec fn strs_view(v: Seq<String>) -> Seq<Seq<char>> {
    v.map_values(|s: String| s@)
}

/// Collects the `name` texts of an array.
pub fn names_of(xs: &Vec<Json>) -> (r: Vec<String>)
    ensures
        strs_view(r@) == spec_names_of(xs@),
{
    let mut out: Vec<String> = Vec::new();
    let mut i: usize = 0;
    proof {
        assert(xs@.take(0) =~= Seq::<Json>::empty());
        assert(strs_view(out@) =~= spec_names_of(xs@.take(0)));
    }
    while i < xs.len()
        invariant
            0 <= i <= xs@.len(),
            strs_view(out@) == spec_names_of(xs@.take(i as int)),
        decreases xs@.len() - i,
    {
        match get_str(&xs[i], "name") {
            Some(n) => {
                out.push(n);
            },
            None => {},
        }
        proof {
            assert(xs@.take(i as int + 1).drop_last() =~= xs@.take(i as int));
            assert(xs@.take(i as int + 1).last() == xs@[i as int]);
            assert(strs_view(out@) =~= spec_names_of(xs@.take(i as int + 1)));
        }
        i = i + 1;
    }
    proof {
        assert(xs@.take(xs@.len() as int) =~= xs@);
    }
    out
}

/// Collects the `name`-else-`id` texts of an array.
pub fn people_of(xs: &Vec<Json>) -> (r: Vec<String>)
    ensures
        strs_view(r@) == spec_people_of(xs@),
{
    let mut out: Vec<String> = Vec::new();
    let mut i: usize = 0;
    proof {
        assert(xs@.take(0) =~= Seq::<Json>::empty());
        assert(strs_view(out@) =~= spec_people_of(xs@.take(0)));
    }
    while i < xs.len()
        invariant
            0 <= i <= xs@.len(),
            strs_view(out@) == spec_people_of(xs@.take(i as int)),
        decreases xs@.len() - i,
    {
        match get_str(&xs[i], "name") {
            Some(n) => {
                out.push(n);
            },
            None => match get_str(&xs[i], "id") {
                Some(id) => {
                    out.push(id);
                },
                None => {},
            },
        }
        proof {
            assert(xs@.take(i as int + 1).drop_last() =~= xs@.take(i as int));
            assert(xs@.take(i as int + 1).last() == xs@[i as int]);
            assert(strs_view(out@) =~= spec_people_of(xs@.take(i as int + 1)));
        }
        i = i + 1;
    }
    proof {
        assert(xs@.take(xs@.len() as int) =~= xs@);
    }
    out
}

/// Collects the texts of a `files` array.
pub fn files_of(xs: &Vec<Json>) -> (r: Vec<String>)
    ensures
        strs_view(r@) == spec_files_of(xs@),
{
    let mut out: Vec<String> = Vec::new();
    let mut i: usize = 0;
    proof {
        assert(xs@.take(0) =~= Seq::<Json>::empty());
        assert(strs_view(out@) =~= spec_files_of(xs@.take(0)));
    }
    while i < xs.len()
        invariant
            0 <= i <= xs@.len(),
            strs_view(out@) == spec_files_of(xs@.take(i as int)),
        decreases xs@.len() - i,
    {
        let entry: Option<String> = match get_str(&xs[i], "name") {
            Some(n) => Some(n),
            None => {
                let from_file = match json_get(&xs[i], "file") {
                    Some(f) => get_str(f, "url"),
                    None => None,
                };
                match from_file {
                    Some(u) => Some(u),
                    None => match json_get(&xs[i], "external") {
                        Some(e) => get_str(e, "url"),
                        None => None,
                    },
                }
            },
        };
        match entry {
            Some(t) => {
                out.push(t);
            },
            None => {},
        }
        proof {
            assert(xs@.take(i as int + 1).drop_last() =~= xs@.take(i as int));
            assert(xs@.take(i as int + 1).last() == xs@[i as int]);
            assert(strs_view(out@) =~= spec_files_of(xs@.take(i as int + 1)));
        }
        i = i + 1;
    }
    proof {
        assert(xs@.take(xs@.len() as int) =~= xs@);
    }
    out
}

/// Collects the `id` texts of an array.
pub fn ids_of(xs: &Vec<Json>) -> (r: Vec<String>)
    ensures
        strs_view(r@) == spec_ids_of(xs@),
{
    let mut out: Vec<String> = Vec::new();
    let mut i: usize = 0;
    proof {
        assert(xs@.take(0) =~= Seq::<Json>::empty());
        assert(strs_view(out@) =~= spec_ids_of(xs@.take(0)));
    }
    while i < xs.len()
        invariant
            0 <= i <= xs@.len(),
            strs_view(out@) == spec_ids_of(xs@.take(i as int)),
        decreases xs@.len() - i,
    {
        match get_str(&xs[i], "id") {
            Some(id) => {
                out.push(id);
            },
            None => {},
        }
        proof {
            assert(xs@.take(i as int + 1).drop_last() =~= xs@.take(i as int));
            assert(xs@.take(i as int + 1).last() == xs@[i as int]);
            assert(strs_view(out@) =~= spec_ids_of(xs@.take(i as int + 1)));
        }
        i = i + 1;
    }
    proof {
        assert(xs@.take(xs@.len() as int) =~= xs@);
    }
    out
}

// ---------------------------------------------------------------------------
// Rollups and the generic coercion
// ---------------------------------------------------------------------------

/// One rollup array item rendered as text, dispatching on its inner type.
pub open spec fn spec_rollup_item(j: Json) -> Option<Seq<char>> {
    match spec_get_str(j, "type"@) {
        None => None,
        Some(t) => {
            if t == "title"@ || t == "rich_text"@ {
                match spec_text_value(spec_json_get(j, t)) {
                    Some(PropV::Text(s)) => Some(s),
                    _ => None,
                }
            } else if t == "select"@ || t == "status"@ {
                match spec_json_get(j, t) {
                    None => None,
                    Some(x) => spec_get_str(x, "name"@),
                }
            } else if t == "multi_select"@ {
                match spec_json_get(j, "multi_select"@) {
                    Some(Json::Arr(xs)) => Some(md_join(spec_names_of(xs@), ", "@)),
                    _ => None,
                }
            } else if t == "number"@ {
                match spec_json_get(j, "number"@) {
                    Some(Json::Num { float_text, .. }) => Some(float_text@),
                    _ => None,
                }
            } else if t == "checkbox"@ {
                match spec_json_get(j, "checkbox"@) {
                    Some(Json::Bool(b)) => Some(
                        if b {
                            "true"@
                        } else {
                            "false"@
                        },
                    ),
                    _ => None,
                }
            } else if t == "date"@ {
                match spec_json_get(j, "date"@) {
                    None => None,
                    Some(d) => spec_date_value(d),
                }
            } else if t == "url"@ || t == "email"@ || t == "phone_number"@ || t == "created_time"@
                || t == "last_edited_time"@ {
                spec_get_str(j, t)
            } else if t == "people"@ {
                match spec_json_get(j, "people"@) {
                    Some(Json::Arr(xs)) => Some(md_join(spec_people_of(xs@), ", "@)),
                    _ => None,
                }
            } else if t == "files"@ {
                match spec_json_get(j, "files"@) {
                    Some(Json::Arr(xs)) => Some(md_join(spec_names_of(xs@), ", "@)),
                    _ => None,
                }
            } else if t == "relation"@ {
                match spec_json_get(j, "relation"@) {
                    Some(Json::Arr(xs)) => Some(md_join(spec_ids_of(xs@), ", "@)),
                    _ => None,
                }
            } else if t == "formula"@ {
                match spec_json_get(j, "formula"@) {
                    None => None,
                    Some(f) => match spec_formula_value(f) {
                        Some(PropV::Text(s)) => Some(s),
                        Some(PropV::List(l)) => Some(md_join(l, ", "@)),
                        None => None,
                    },
                }
            } else {
                spec_value_to_string(j)
            }
        },
    }
}

/// Renders one rollup array item as text.
pub fn rollup_item_to_string(j: &Json) -> (r: Option<String>)
    ensures
        match r {
            None => spec_rollup_item(*j) is None,
            Some(s) => spec_rollup_item(*j) == Some(s@),
        },
{
    let t = match get_str(j, "type") {
        None => {
            return None;
        },
        Some(t) => t,
    };
    if str_eq(t.as_str(), "title") || str_eq(t.as_str(), "rich_text") {
        match json_get(j, t.as_str()) {
            Some(Json::Arr(xs)) => Some(concat_plain(xs)),
            _ => None,
        }
    } else if str_eq(t.as_str(), "select") || str_eq(t.as_str(), "status") {
        match json_get(j, t.as_str()) {
            None => None,
            Some(x) => get_str(x, "name"),
        }
    } else if str_eq(t.as_str(), "multi_select") {
        match json_get(j, "multi_select") {
            Some(Json::Arr(xs)) => {
                let names = names_of(xs);
                Some(join_comma(&names))
            },
            _ => None,
        }
    } else if str_eq(t.as_str(), "number") {
        match json_get(j, "number") {
            Some(Json::Num { float_text, .. }) => Some(float_text.clone()),
            _ => None,
        }
    } else if str_eq(t.as_str(), "checkbox") {
        match json_get(j, "checkbox") {
            Some(Json::Bool(b)) => {
                let mut out = String::new();
                if *b {
                    out.append("true");
                } else {
                    out.append("false");
                }
                proof {
                    assert(out@ =~= (if *b {
                        "true"@
                    } else {
                        "false"@
                    }));
                }
                Some(out)
            },
            _ => None,
        }
    } else if str_eq(t.as_str(), "date") {
        match json_get(j, "date") {
            None => None,
            Some(d) => date_value(d),
        }
    } else if str_eq(t.as_str(), "url") || str_eq(t.as_str(), "email") || str_eq(
        t.as_str(),
        "phone_number",
    ) || str_eq(t.as_str(), "created_time") || str_eq(t.as_str(), "last_edited_time") {
        get_str(j, t.as_str())
    } else if str_eq(t.as_str(), "people") {
        match json_get(j, "people") {
            Some(Json::Arr(xs)) => {
                let people = people_of(xs);
                Some(join_comma(&people))
            },
            _ => None,
        }
    } else if str_eq(t.as_str(), "files") {
        match json_get(j, "files") {
            Some(Json::Arr(xs)) => {
                let names = names_of(xs);
                Some(join_comma(&names))
            },
            _ => None,
        }
    } else if str_eq(t.as_str(), "relation") {
        match json_get(j, "relation") {
            Some(Json::Arr(xs)) => {
                let ids = ids_of(xs);
                Some(join_comma(&ids))
            },
            _ => None,
        }
    } else if str_eq(t.as_str(), "formula") {
        match json_get(j, "formula") {
            None => None,
            Some(f) => match formula_value(f) {
                Some(PropertyValue::Text(s)) => Some(s),
                Some(PropertyValue::List(l)) => Some(join_comma(&l)),
                None => None,
            },
        }
    } else {
        value_to_string(j)
    }
}

/// The texts of a rollup array; items that do not render are dropped.
pub open spec fn spec_rollup_items(xs: Seq<Json>) -> Seq<Seq<char>>
    decreases xs.len(),
{
    if xs.len() == 0 {
        Seq::empty()
    } else {
        let rest = spec_rollup_items(xs.drop_last());
        match spec_rollup_item(xs.last()) {
            Some(s) => rest.push(s),
            None => rest,
        }
    }
}

/// The decoding of a `rollup` payload.
pub open spec fn spec_rollup_value(v: Json) -> Option<PropV> {
    match spec_get_str(v, "type"@) {
        None => None,
        Some(t) => {
            if t == "array"@ {
                match spec_json_get(v, "array"@) {
                    Some(Json::Arr(xs)) => Some(PropV::List(spec_rollup_items(xs@))),
                    _ => None,
                }
            } else if t == "number"@ {
                match spec_json_get(v, "number"@) {
                    Some(Json::Num { float_text, .. }) => Some(PropV::Text(float_text@)),
                    _ => None,
                }
            } else if t == "date"@ {
                match spec_json_get(v, "date"@) {
                    None => None,
                    Some(d) => match spec_date_value(d) {
                        None => None,
                        Some(s) => Some(PropV::Text(s)),
                    },
                }
            } else {
                None
            }
        },
    }
}

/// Decodes a `rollup` payload.
pub fn rollup_value(v: &Json) -> (r: Option<PropertyValue>)
    ensures
        match r {
            None => spec_rollup_value(*v) is None,
            Some(p) => spec_rollup_value(*v) == Some(pv_view(p)),
        },
{
    let t = match get_str(v, "type") {
        None => {
            return None;
        },
        Some(t) => t,
    };
    if str_eq(t.as_str(), "array") {
        match json_get(v, "array") {
            Some(Json::Arr(xs)) => {
                let mut items: Vec<String> = Vec::new();
                let mut i: usize = 0;
                proof {
                    assert(xs@.take(0) =~= Seq::<Json>::empty());
                    assert(strs_view(items@) =~= spec_rollup_items(xs@.take(0)));
                }
                while i < xs.len()
                    invariant
                        0 <= i <= xs@.len(),
                        strs_view(items@) == spec_rollup_items(xs@.take(i as int)),
                    decreases xs@.len() - i,
                {
                    match rollup_item_to_string(&xs[i]) {
                        Some(s) => {
                            items.push(s);
                        },
                        None => {},
                    }
                    proof {
                        assert(xs@.take(i as int + 1).drop_last() =~= xs@.take(i as int));
                        assert(xs@.take(i as int + 1).last() == xs@[i as int]);
                        assert(strs_view(items@) =~= spec_rollup_items(xs@.take(i as int + 1)));
                    }
                    i = i + 1;
                }
                proof {
                    assert(xs@.take(xs@.len() as int) =~= xs@);
                }
                Some(PropertyValue::List(items))
            },
            _ => None,
        }
    } else if str_eq(t.as_str(), "number") {
        match json_get(v, "number") {
            Some(Json::Num { float_text, .. }) => Some(PropertyValue::Text(float_text.clone())),
            _ => None,
        }
    } else if str_eq(t.as_str(), "date") {
        match json_get(v, "date") {
            None => None,
            Some(d) => match date_value(d) {
                None => None,
                Some(s) => Some(PropertyValue::Text(s)),
            },
        }
    } else {
        None
    }
}

/// The texts of an array's items under the generic coercion.
pub open spec fn spec_strings_of(xs: Seq<Json>) -> Seq<Seq<char>>
    decreases xs.len(),
{
    if xs.len() == 0 {
        Seq::empty()
    } else {
        let rest = spec_strings_of(xs.drop_last());
        match spec_value_to_string(xs.last()) {
            Some(s) => rest.push(s),
            None => rest,
        }
    }
}

/// The generic coercion for an unknown property type: scalars become text, an
/// array becomes the list of its items' texts.
pub open spec fn spec_value_to_property_value(v: Json) -> Option<PropV> {
    match v {
        Json::Str(s) => Some(PropV::Text(s@)),
        Json::Num { text, .. } => Some(PropV::Text(text@)),
        Json::Bool(b) => Some(
            PropV::Text(
                if b {
                    "true"@
                } else {
                    "false"@
                },
            ),
        ),
        Json::Arr(xs) => Some(PropV::List(spec_strings_of(xs@))),
        _ => match spec_value_to_string(v) {
            None => None,
            Some(s) => Some(PropV::Text(s)),
        },
    }
}

/// Applies the generic coercion.
pub fn value_to_property_value(v: &Json) -> (r: Option<PropertyValue>)
    ensures
        match r {
            None => spec_value_to_property_value(*v) is None,
            Some(p) => spec_value_to_property_value(*v) == Some(pv_view(p)),
        },
{
    match v {
        Json::Arr(xs) => {
            let mut items: Vec<String> = Vec::new();
            let mut i: usize = 0;
            proof {
                assert(xs@.take(0) =~= Seq::<Json>::empty());
                assert(strs_view(items@) =~= spec_strings_of(xs@.take(0)));
            }
            while i < xs.len()
                invariant
                    0 <= i <= xs@.len(),
                    strs_view(items@) == spec_strings_of(xs@.take(i as int)),
                decreases xs@.len() - i,
            {
                match value_to_string(&xs[i]) {
                    Some(s) => {
                        items.push(s);
                    },
                    None => {},
                }
                proof {
                    assert(xs@.take(i as int + 1).drop_last() =~= xs@.take(i as int));
                    assert(xs@.take(i as int + 1).last() == xs@[i as int]);
                    assert(strs_view(items@) =~= spec_strings_of(xs@.take(i as int + 1)));
                }
                i = i + 1;
            }
            proof {
                assert(xs@.take(xs@.len() as int) =~= xs@);
            }
            Some(PropertyValue::List(items))
        },
        _ => match value_to_string(v) {
            None => None,
            Some(s) => Some(PropertyValue::Text(s)),
        },
    }
}

/// Joins texts with `", "`.
pub fn join_comma(xs: &Vec<String>) -> (r: String)
    ensures
        r@ == md_join(strs_view(xs@), ", "@),
{
    let mut out = String::new();
    let mut i: usize = 0;
    while i < xs.len()
        invariant
            0 <= i <= xs@.len(),
            out@ == md_join(strs_view(xs@).take(i as int), ", "@),
        decreases xs@.len() - i,
    {
        if i > 0 {
            out.append(", ");
        }
        out.append(xs[i].as_str());
        proof {
            let sv = strs_view(xs@);
            assert(sv.take(i as int + 1).drop_last() =~= sv.take(i as int));
            assert(sv.take(i as int + 1).last() == sv[i as int]);
            if i == 0 {
                assert(md_join(sv.take(1), ", "@) == sv[0]);
                assert(out@ =~= md_join(sv.take(i as int + 1), ", "@));
            } else {
                assert(out@ =~= md_join(sv.take(i as int + 1), ", "@));
            }
        }
        i = i + 1;
    }
    proof {
        assert(strs_view(xs@).take(xs@.len() as int) =~= strs_view(xs@));
    }
    out
}

// ---------------------------------------------------------------------------
// The property dispatch table
// ---------------------------------------------------------------------------

/// The declared type of a property object (empty when absent).
pub open spec fn spec_prop_type(prop: Json) -> Seq<char> {
    match spec_get_str(prop, "type"@) {
        Some(t) => t,
        None => Seq::empty(),
    }
}

/// The decoding of one property object, per the type dispatch table.
pub open spec fn spec_decode_property(prop: Json) -> Option<PropV> {
    let t = spec_prop_type(prop);
    if t == "title"@ || t == "rich_text"@ {
        spec_text_value(spec_json_get(prop, t))
    } else if t == "select"@ || t == "status"@ {
        match spec_json_get(prop, t) {
            None => None,
            Some(x) => match spec_get_str(x, "name"@) {
                None => None,
                Some(n) => Some(PropV::Text(n)),
            },
        }
    } else if t == "multi_select"@ {
        match spec_json_get(prop, "multi_select"@) {
            Some(Json::Arr(xs)) => Some(PropV::List(spec_names_of(xs@))),
            _ => None,
        }
    } else if t == "number"@ {
        match spec_json_get(prop, "number"@) {
            Some(Json::Num { float_text, .. }) => Some(PropV::Text(float_text@)),
            _ => None,
        }
    } else if t == "checkbox"@ {
        match spec_json_get(prop, "checkbox"@) {
            Some(Json::Bool(b)) => Some(
                PropV::Text(
                    if b {
                        "true"@
                    } else {
                        "false"@
                    },
                ),
            ),
            _ => None,
        }
    } else if t == "date"@ {
        match spec_json_get(prop, "date"@) {
            None => None,
            Some(d) => match spec_date_value(d) {
                None => None,
                Some(s) => Some(PropV::Text(s)),
            },
        }
    } else if t == "people"@ {
        match spec_json_get(prop, "people"@) {
            Some(Json::Arr(xs)) => Some(PropV::List(spec_people_of(xs@))),
            _ => None,
        }
    } else if t == "files"@ {
        match spec_json_get(prop, "files"@) {
            Some(Json::Arr(xs)) => Some(PropV::List(spec_files_of(xs@))),
            _ => None,
        }
    } else if t == "relation"@ {
        match spec_json_get(prop, "relation"@) {
            Some(Json::Arr(xs)) => Some(PropV::List(spec_ids_of(xs@))),
            _ => None,
        }
    } else if t == "url"@ || t == "email"@ || t == "phone_number"@ || t == "created_time"@ || t
        == "last_edited_time"@ {
        match spec_get_str(prop, t) {
            None => None,
            Some(s) => Some(PropV::Text(s)),
        }
    } else if t == "created_by"@ || t == "last_edited_by"@ {
        match spec_json_get(prop, t) {
            None => None,
            Some(x) => {
                let field = match spec_json_get(x, "name"@) {
                    Some(n) => Some(n),
                    None => spec_json_get(x, "id"@),
                };
                match field {
                    None => None,
                    Some(f) => match spec_as_str(f) {
                        None => None,
                        Some(s) => Some(PropV::Text(s)),
                    },
                }
            },
        }
    } else if t == "formula"@ {
        match spec_json_get(prop, "formula"@) {
            None => None,
            Some(f) => spec_formula_value(f),
        }
    } else if t == "rollup"@ {
        match spec_json_get(prop, "rollup"@) {
            None => None,
            Some(r) => spec_rollup_value(r),
        }
    } else if t == "unique_id"@ {
        match spec_json_get(prop, "unique_id"@) {
            None => None,
            Some(u) => spec_unique_id_value(u),
        }
    } else {
        match spec_json_get(prop, t) {
            None => None,
            Some(x) => spec_value_to_property_value(x),
        }
    }
}

/// The decoding of a `unique_id` payload: the prefix (empty when absent)
/// followed by the integer number.
pub open spec fn spec_unique_id_value(u: Json) -> Option<PropV> {
    match spec_json_get(u, "number"@) {
        Some(Json::Num { int_text: Some(it), .. }) => {
            let prefix = match spec_get_str(u, "prefix"@) {
                Some(p) => p,
                None => Seq::empty(),
            };
            Some(PropV::Text(prefix + it@))
        },
        _ => None,
    }
}

fn unique_id_value(u: &Json) -> (r: Option<PropertyValue>)
    ensures
        match r {
            None => spec_unique_id_value(*u) is None,
            Some(p) => spec_unique_id_value(*u) == Some(pv_view(p)),
        },
{
    match json_get(u, "number") {
        Some(Json::Num { int_text: Some(it), .. }) => {
            let mut out = match get_str(u, "prefix") {
                Some(p) => p,
                None => String::new(),
            };
            out.append(it.as_str());
            proof {
                assert(out@ =~= spec_unique_id_value(*u).unwrap()->Text_0);
            }
            Some(PropertyValue::Text(out))
        },
        _ => None,
    }
}

/// Decodes one property object, per the type dispatch table.
#[verifier::rlimit(100)]
pub fn decode_property(prop: &Json) -> (r: Option<PropertyValue>)
    ensures
        match r {
            None => spec_decode_property(*prop) is None,
            Some(p) => spec_decode_property(*prop) == Some(pv_view(p)),
        },
{
    let t: String = match get_str(prop, "type") {
        Some(t) => t,
        None => String::new(),
    };
    if str_eq(t.as_str(), "title") || str_eq(t.as_str(), "rich_text") {
        match json_get(prop, t.as_str()) {
            Some(Json::Arr(xs)) => Some(PropertyValue::Text(concat_plain(xs))),
            _ => None,
        }
    } else if str_eq(t.as_str(), "select") || str_eq(t.as_str(), "status") {
        match json_get(prop, t.as_str()) {
            None => None,
            Some(x) => match get_str(x, "name") {
                None => None,
                Some(n) => Some(PropertyValue::Text(n)),
            },
        }
    } else if str_eq(t.as_str(), "multi_select") {
        match json_get(prop, "multi_select") {
            Some(Json::Arr(xs)) => Some(PropertyValue::List(names_of(xs))),
            _ => None,
        }
    } else if str_eq(t.as_str(), "number") {
        match json_get(prop, "number") {
            Some(Json::Num { float_text, .. }) => Some(PropertyValue::Text(float_text.clone())),
            _ => None,
        }
    } else if str_eq(t.as_str(), "checkbox") {
        match json_get(prop, "checkbox") {
            Some(Json::Bool(b)) => {
                let mut out = String::new();
                if *b {
                    out.append("true");
                } else {
                    out.append("false");
                }
                proof {
                    assert(out@ =~= (if *b {
                        "true"@
                    } else {
                        "false"@
                    }));
                }
                Some(PropertyValue::Text(out))
            },
            _ => None,
        }
    } else if str_eq(t.as_str(), "date") {
        match json_get(prop, "date") {
            None => None,
            Some(d) => match date_value(d) {
                None => None,
                Some(s) => Some(PropertyValue::Text(s)),
            },
        }
    } else if str_eq(t.as_str(), "people") {
        match json_get(prop, "people") {
            Some(Json::Arr(xs)) => Some(PropertyValue::List(people_of(xs))),
            _ => None,
        }
    } else if str_eq(t.as_str(), "files") {
        match json_get(prop, "files") {
            Some(Json::Arr(xs)) => Some(PropertyValue::List(files_of(xs))),
            _ => None,
        }
    } else if str_eq(t.as_str(), "relation") {
        match json_get(prop, "relation") {
            Some(Json::Arr(xs)) => Some(PropertyValue::List(ids_of(xs))),
            _ => None,
        }
    } else if str_eq(t.as_str(), "url") || str_eq(t.as_str(), "email") || str_eq(
        t.as_str(),
        "phone_number",
    ) || str_eq(t.as_str(), "created_time") || str_eq(t.as_str(), "last_edited_time") {
        match get_str(prop, t.as_str()) {
            None => None,
            Some(s) => Some(PropertyValue::Text(s)),
        }
    } else if str_eq(t.as_str(), "created_by") || str_eq(t.as_str(), "last_edited_by") {
        match json_get(prop, t.as_str()) {
            None => None,
            Some(x) => {
                let field = match json_get(x, "name") {
                    Some(n) => Some(n),
                    None => json_get(x, "id"),
                };
                match field {
                    None => None,
                    Some(Json::Str(s)) => Some(PropertyValue::Text(s.clone())),
                    Some(_) => None,
                }
            },
        }
    } else if str_eq(t.as_str(), "formula") {
        match json_get(prop, "formula") {
            None => None,
            Some(f) => formula_value(f),
        }
    } else if str_eq(t.as_str(), "rollup") {
        match json_get(prop, "rollup") {
            None => None,
            Some(r) => rollup_value(r),
        }
    } else if str_eq(t.as_str(), "unique_id") {
        match json_get(prop, "unique_id") {
            None => None,
            Some(u) => unique_id_value(u),
        }
    } else {
        match json_get(prop, t.as_str()) {
            None => None,
            Some(x) => value_to_property_value(x),
        }
    }
}

// ---------------------------------------------------------------------------
// Page title
// ---------------------------------------------------------------------------

/// The page title: walking the properties in order, the first `title`-typed
/// one whose concatenated plain text is non-empty; nothing at the first
/// property whose shape breaks the walk.
pub open spec fn spec_title_of(ps: Seq<(String, Json)>) -> Option<Seq<char>>
    decreases ps.len(),
{
    if ps.len() == 0 {
        None
    } else {
        let v = ps[0].1;
        match spec_get_str(v, "type"@) {
            None => None,
            Some(t) => {
                if t == "title"@ {
                    match spec_json_get(v, "title"@) {
                        Some(Json::Arr(xs)) => {
                            if spec_concat_plain(xs@).len() > 0 {
                                Some(spec_concat_plain(xs@))
                            } else {
                                spec_title_of(ps.drop_first())
                            }
                        },
                        _ => None,
                    }
                } else {
                    spec_title_of(ps.drop_first())
                }
            },
        }
    }
}

/// The title seen in a whole property object.
pub open spec fn spec_page_title(properties: Json) -> Option<Seq<char>> {
    match properties {
        Json::Obj(ps) => spec_title_of(ps@),
        _ => None,
    }
}

/// Extracts the page title from the property object.
pub fn extract_page_title(properties: &Json) -> (r: Option<String>)
    ensures
        match r {
            None => spec_page_title(*properties) is None,
            Some(s) => spec_page_title(*properties) == Some(s@),
        },
{
    let ps = match properties {
        Json::Obj(ps) => ps,
        _ => {
            return None;
        },
    };
    let mut i: usize = 0;
    proof {
        assert(ps@.skip(0) =~= ps@);
    }
    while i < ps.len()
        invariant
            0 <= i <= ps@.len(),
            spec_page_title(*properties) == spec_title_of(ps@),
            spec_title_of(ps@.skip(i as int)) == spec_title_of(ps@),
        decreases ps@.len() - i,
    {
        proof {
            assert(ps@.skip(i as int)[0] == ps@[i as int]);
            assert(ps@.skip(i as int).drop_first() =~= ps@.skip(i as int + 1));
        }
        let v = &ps[i].1;
        let t = match get_str(v, "type") {
            None => {
                return None;
            },
            Some(t) => t,
        };
        if str_eq(t.as_str(), "title") {
            match json_get(v, "title") {
                Some(Json::Arr(xs)) => {
                    let text = concat_plain(xs);
                    if text.as_str().unicode_len() > 0 {
                        return Some(text);
                    }
                },
                _ => {
                    return None;
                },
            }
        }
        i = i + 1;
    }
    None
}

// ---------------------------------------------------------------------------
// The ordered property map
// ---------------------------------------------------------------------------

/// Lexicographic order on character sequences, by code point.
pub open spec fn str_lt(a: Seq<char>, b: Seq<char>) -> bool
    decreases a.len(),
{
    if b.len() == 0 {
        false
    } else if a.len() == 0 {
        true
    } else if a[0] != b[0] {
        (a[0] as u32) < (b[0] as u32)
    } else {
        str_lt(a.drop_first(), b.drop_first())
    }
}

/// Distinct characters have distinct code points.
pub proof fn lemma_char_neq_u32(c1: char, c2: char)
    ensures
        c1 != c2 ==> c1 as u32 != c2 as u32,
{
    if c1 as u32 == c2 as u32 {
        vstd::utf8::char_u32_cast(c1, c1 as u32);
        vstd::utf8::char_u32_cast(c2, c2 as u32);
    }
}

/// The order is total: two sequences are equal or one is smaller.
pub proof fn lemma_str_lt_total(a: Seq<char>, b: Seq<char>)
    ensures
        a == b || str_lt(a, b) || str_lt(b, a),
    decreases a.len(),
{
    if a.len() == 0 && b.len() == 0 {
        assert(a =~= b);
    } else if a.len() != 0 && b.len() != 0 && a[0] == b[0] {
        lemma_str_lt_total(a.drop_first(), b.drop_first());
        let a1 = a.drop_first();
        let b1 = b.drop_first();
        assert(a1.len() == a.len() - 1);
        assert(b1.len() == b.len() - 1);
        if a1 == b1 {
            assert(a.len() == b.len());
            assert forall|i: int| 0 <= i < a.len() implies a[i] == b[i] by {
                if i >= 1 {
                    assert(a[i] == a.drop_first()[i - 1]);
                    assert(b[i] == b.drop_first()[i - 1]);
                }
            }
            assert(a =~= b);
        }
    } else if a.len() != 0 && b.len() != 0 {
        lemma_char_neq_u32(a[0], b[0]);
    }
}

/// Compares two strings lexicographically by code point.
pub fn str_lt_exec(a: &str, b: &str) -> (r: bool)
    ensures
        r == str_lt(a@, b@),
{
    let an = a.unicode_len();
    let bn = b.unicode_len();
    let mut i: usize = 0;
    proof {
        assert(a@.skip(0) =~= a@);
        assert(b@.skip(0) =~= b@);
    }
    while i < an && i < bn
        invariant
            0 <= i <= an,
            0 <= i <= bn,
            an == a@.len(),
            bn == b@.len(),
            str_lt(a@.skip(i as int), b@.skip(i as int)) == str_lt(a@, b@),
        decreases an - i,
    {
        let ca = a.get_char(i);
        let cb = b.get_char(i);
        proof {
            assert(a@.skip(i as int)[0] == a@[i as int]);
            assert(b@.skip(i as int)[0] == b@[i as int]);
            assert(a@.skip(i as int).drop_first() =~= a@.skip(i as int + 1));
            assert(b@.skip(i as int).drop_first() =~= b@.skip(i as int + 1));
        }
        if ca != cb {
            return (ca as u32) < (cb as u32);
        }
        i = i + 1;
    }
    proof {
        if i >= bn {
            assert(b@.skip(i as int).len() == 0);
        } else {
            assert(a@.skip(i as int).len() == 0);
        }
    }
    i < bn
}

/// Insertion into a key-ordered association list: an equal key is replaced in
/// place, a new key goes before the first larger one.
pub open spec fn spec_props_insert(
    m: Seq<(Seq<char>, PropV)>,
    k: Seq<char>,
    v: PropV,
) -> Seq<(Seq<char>, PropV)>
    decreases m.len(),
{
    if m.len() == 0 {
        seq![(k, v)]
    } else if m[0].0 == k {
        seq![(k, v)] + m.drop_first()
    } else if str_lt(k, m[0].0) {
        seq![(k, v)] + m
    } else {
        seq![m[0]] + spec_props_insert(m.drop_first(), k, v)
    }
}

/// The key-ordered decoded properties of a whole property object: each
/// property that decodes is inserted under its key.
pub open spec fn spec_props_fold(ps: Seq<(String, Json)>) -> Seq<(Seq<char>, PropV)>
    decreases ps.len(),
{
    if ps.len() == 0 {
        Seq::empty()
    } else {
        let acc = spec_props_fold(ps.drop_last());
        match spec_decode_property(ps.last().1) {
            None => acc,
            Some(v) => spec_props_insert(acc, ps.last().0@, v),
        }
    }
}

/// The decoded properties of a page's property object.
pub open spec fn spec_page_properties(properties: Json) -> Seq<(Seq<char>, PropV)> {
    match properties {
        Json::Obj(ps) => spec_props_fold(ps@),
        _ => Seq::empty(),
    }
}

/// The (key view, value view) pairs of a decoded property list.
pub open spec fn props_view(s: Seq<(String, PropertyValue)>) -> Seq<(Seq<char>, PropV)> {
    s.map_values(|e: (String, PropertyValue)| (e.0@, pv_view(e.1)))
}

#[verifier::rlimit(100)]
proof fn lemma_props_insert_split(
    m: Seq<(Seq<char>, PropV)>,
    k: Seq<char>,
    v: PropV,
    j: int,
)
    requires
        0 <= j <= m.len(),
        forall|t: int| 0 <= t < j ==> str_lt(m[t].0, k),
    ensures
        j < m.len() && m[j].0 == k ==> spec_props_insert(m, k, v) == m.take(j) + seq![(k, v)]
            + m.skip(j + 1),
        j < m.len() && str_lt(k, m[j].0) ==> spec_props_insert(m, k, v) == m.take(j) + seq![
            (k, v),
        ] + m.skip(j),
        j == m.len() ==> spec_props_insert(m, k, v) == m.push((k, v)),
    decreases j,
{
    if j < m.len() {
        lemma_str_lt_asym(k, m[j].0);
    }
    if j == 0 {
        if m.len() == 0 {
            assert(spec_props_insert(m, k, v) =~= m.push((k, v)));
        } else if m[0].0 == k {
            assert(spec_props_insert(m, k, v) =~= m.take(0) + seq![(k, v)] + m.skip(1));
        } else if str_lt(k, m[0].0) {
            assert(spec_props_insert(m, k, v) =~= m.take(0) + seq![(k, v)] + m.skip(0));
        }
    } else {
        assert(str_lt(m[0].0, k));
        lemma_str_lt_asym(m[0].0, k);
        assert(forall|t: int|
            0 <= t < j - 1 ==> m.drop_first()[t] == m[t + 1] && str_lt(
                m.drop_first()[t].0,
                k,
            ));
        lemma_props_insert_split(m.drop_first(), k, v, j - 1);
        let m1 = m.drop_first();
        if j < m.len() && m[j].0 == k {
            assert(m1[j - 1] == m[j]);
            assert(seq![m[0]] + (m1.take(j - 1) + seq![(k, v)] + m1.skip(j)) =~= m.take(j)
                + seq![(k, v)] + m.skip(j + 1));
        } else if j < m.len() && str_lt(k, m[j].0) {
            assert(m1[j - 1] == m[j]);
            assert(seq![m[0]] + (m1.take(j - 1) + seq![(k, v)] + m1.skip(j - 1)) =~= m.take(j)
                + seq![(k, v)] + m.skip(j));
        } else if j == m.len() {
            assert(seq![m[0]] + m1.push((k, v)) =~= m.push((k, v)));
        }
    }
}

/// The order is strict: nothing is smaller than itself, nor mutually smaller.
pub proof fn lemma_str_lt_asym(a: Seq<char>, b: Seq<char>)
    ensures
        str_lt(a, b) ==> !str_lt(b, a) && a != b,
    decreases a.len(),
{
    if str_lt(a, b) {
        if a.len() != 0 && b.len() != 0 && a[0] == b[0] {
            lemma_str_lt_asym(a.drop_first(), b.drop_first());
            if a == b {
                assert(a.drop_first() == b.drop_first());
            }
        } else if a.len() == 0 {
            assert(a.len() != b.len());
        } else {
            assert(a[0] != b[0]);
            if a == b {
                assert(a[0] == b[0]);
            }
        }
    }
}

/// The order is transitive.
pub proof fn lemma_str_lt_trans(a: Seq<char>, b: Seq<char>, c: Seq<char>)
    requires
        str_lt(a, b),
        str_lt(b, c),
    ensures
        str_lt(a, c),
    decreases a.len(),
{
    if a.len() != 0 {
        if a[0] == b[0] && b[0] == c[0] {
            lemma_str_lt_trans(a.drop_first(), b.drop_first(), c.drop_first());
        } else if a[0] == b[0] {
            assert((b[0] as u32) < (c[0] as u32));
            lemma_char_neq_u32(a[0], c[0]);
        } else if b[0] == c[0] {
            assert((a[0] as u32) < (b[0] as u32));
            lemma_char_neq_u32(a[0], c[0]);
        } else {
            assert((a[0] as u32) < (b[0] as u32) && (b[0] as u32) < (c[0] as u32));
            lemma_char_neq_u32(a[0], c[0]);
        }
    }
}

/// Strictly ascending keys: sorted, with no duplicates.
pub open spec fn props_keys_sorted(m: Seq<(Seq<char>, PropV)>) -> bool {
    forall|i: int, j: int| 0 <= i < j < m.len() ==> str_lt(#[trigger] m[i].0, #[trigger] m[j].0)
}

/// Every entry of an insertion is the inserted pair or one of the old
/// entries.
proof fn lemma_insert_elements(m: Seq<(Seq<char>, PropV)>, k: Seq<char>, v: PropV)
    ensures
        forall|i: int|
            0 <= i < spec_props_insert(m, k, v).len() ==> (#[trigger] spec_props_insert(
                m,
                k,
                v,
            )[i] == (k, v) || exists|j: int| 0 <= j < m.len() && m[j] == spec_props_insert(
                m,
                k,
                v,
            )[i]),
    decreases m.len(),
{
    let r = spec_props_insert(m, k, v);
    if m.len() == 0 {
    } else if m[0].0 == k {
        assert(forall|i: int| 1 <= i < r.len() ==> r[i] == m[i]);
    } else if str_lt(k, m[0].0) {
        assert(forall|i: int| 1 <= i < r.len() ==> r[i] == m[i - 1]);
    } else {
        lemma_insert_elements(m.drop_first(), k, v);
        let r1 = spec_props_insert(m.drop_first(), k, v);
        assert forall|i: int| 0 <= i < r.len() implies (#[trigger] r[i] == (k, v) || exists|j: int|
            0 <= j < m.len() && m[j] == r[i]) by {
            if i == 0 {
                assert(m[0] == r[0]);
            } else {
                assert(r[i] == r1[i - 1]);
                if r1[i - 1] != (k, v) {
                    let j = choose|j: int|
                        0 <= j < m.drop_first().len() && m.drop_first()[j] == r1[i - 1];
                    assert(m[j + 1] == r[i]);
                }
            }
        }
    }
}

/// Insertion keeps the keys strictly ascending.
pub proof fn lemma_insert_sorted(m: Seq<(Seq<char>, PropV)>, k: Seq<char>, v: PropV)
    requires
        props_keys_sorted(m),
    ensures
        props_keys_sorted(spec_props_insert(m, k, v)),
    decreases m.len(),
{
    let r = spec_props_insert(m, k, v);
    if m.len() == 0 {
    } else if m[0].0 == k {
        assert(forall|i: int| 1 <= i < r.len() ==> r[i] == m[i]);
        assert forall|i: int, j: int| 0 <= i < j < r.len() implies str_lt(
            #[trigger] r[i].0,
            #[trigger] r[j].0,
        ) by {
            if i == 0 {
                assert(str_lt(m[0].0, m[j].0));
            }
        }
    } else if str_lt(k, m[0].0) {
        assert(forall|i: int| 1 <= i < r.len() ==> r[i] == m[i - 1]);
        assert forall|i: int, j: int| 0 <= i < j < r.len() implies str_lt(
            #[trigger] r[i].0,
            #[trigger] r[j].0,
        ) by {
            if i == 0 && j >= 2 {
                lemma_str_lt_trans(k, m[0].0, m[j - 1].0);
            }
        }
    } else {
        lemma_str_lt_total(k, m[0].0);
        assert(str_lt(m[0].0, k));
        let m1 = m.drop_first();
        assert(forall|i: int| 0 <= i < m1.len() ==> m1[i] == m[i + 1]);
        lemma_insert_sorted(m1, k, v);
        lemma_insert_elements(m1, k, v);
        let r1 = spec_props_insert(m1, k, v);
        assert forall|i: int, j: int| 0 <= i < j < r.len() implies str_lt(
            #[trigger] r[i].0,
            #[trigger] r[j].0,
        ) by {
            if i == 0 {
                assert(r[0] == m[0]);
                assert(r[j] == r1[j - 1]);
                if r1[j - 1] == (k, v) {
                    assert(str_lt(m[0].0, k));
                } else {
                    let t = choose|t: int| 0 <= t < m1.len() && m1[t] == r1[j - 1];
                    assert(str_lt(m[0].0, m[t + 1].0));
                }
            } else {
                assert(r[i] == r1[i - 1] && r[j] == r1[j - 1]);
            }
        }
    }
}

/// The decoded properties of a page come out with strictly ascending keys:
/// the front matter walks them in the lexical order of the upstream keys.
pub proof fn lemma_page_properties_sorted(properties: Json)
    ensures
        props_keys_sorted(spec_page_properties(properties)),
{
    match properties {
        Json::Obj(ps) => {
            lemma_props_fold_sorted(ps@);
        },
        _ => {},
    }
}

proof fn lemma_props_fold_sorted(ps: Seq<(String, Json)>)
    ensures
        props_keys_sorted(spec_props_fold(ps)),
    decreases ps.len(),
{
    if ps.len() > 0 {
        lemma_props_fold_sorted(ps.drop_last());
        match spec_decode_property(ps.last().1) {
            None => {},
            Some(v) => {
                lemma_insert_sorted(spec_props_fold(ps.drop_last()), ps.last().0@, v);
            },
        }
    }
}

/// Inserts a decoded property under its key, keeping the list key-ordered.
fn props_insert(out: &mut Vec<(String, PropertyValue)>, k: String, v: PropertyValue)
    ensures
        props_view(final(out)@) == spec_props_insert(props_view(old(out)@), k@, pv_view(v)),
{
    let ghost m = props_view(old(out)@);
    let mut j: usize = 0;
    while j < out.len()
        invariant
            0 <= j <= out@.len(),
            out@ == old(out)@,
            m == props_view(out@),
            forall|t: int| 0 <= t < j ==> str_lt(m[t].0, k@),
        decreases out@.len() - j,
    {
        proof {
            assert(m[j as int] == (out@[j as int].0@, pv_view(out@[j as int].1)));
        }
        if str_eq(out[j].0.as_str(), k.as_str()) {
            out.remove(j);
            out.insert(j, (k, v));
            proof {
                lemma_props_insert_split(m, k@, pv_view(v), j as int);
                assert(props_view(out@) =~= m.take(j as int) + seq![(k@, pv_view(v))] + m.skip(
                    j as int + 1,
                ));
            }
            return;
        }
        if str_lt_exec(k.as_str(), out[j].0.as_str()) {
            out.insert(j, (k, v));
            proof {
                lemma_props_insert_split(m, k@, pv_view(v), j as int);
                assert(props_view(out@) =~= m.take(j as int) + seq![(k@, pv_view(v))] + m.skip(
                    j as int,
                ));
            }
            return;
        }
        proof {
            lemma_str_lt_total(k@, out@[j as int].0@);
        }
        j = j + 1;
    }
    out.push((k, v));
    proof {
        lemma_props_insert_split(m, k@, pv_view(v), m.len() as int);
        assert(props_view(out@) =~= m.push((k@, pv_view(v))));
    }
}

/// Extracts the decoded properties of a page, ordered by key.
pub fn extract_page_properties(properties: &Json) -> (r: Vec<(String, PropertyValue)>)
    ensures
        props_view(r@) == spec_page_properties(*properties),
{
    let mut out: Vec<(String, PropertyValue)> = Vec::new();
    let ps = match properties {
        Json::Obj(ps) => ps,
        _ => {
            proof {
                assert(props_view(out@) =~= spec_page_properties(*properties));
            }
            return out;
        },
    };
    let mut i: usize = 0;
    proof {
        assert(ps@.take(0) =~= Seq::<(String, Json)>::empty());
        assert(props_view(out@) =~= spec_props_fold(ps@.take(0)));
    }
    while i < ps.len()
        invariant
            0 <= i <= ps@.len(),
            spec_page_properties(*properties) == spec_props_fold(ps@),
            props_view(out@) == spec_props_fold(ps@.take(i as int)),
        decreases ps@.len() - i,
    {
        match decode_property(&ps[i].1) {
            None => {},
            Some(v) => {
                let key = ps[i].0.clone();
                props_insert(&mut out, key, v);
            },
        }
        proof {
            assert(ps@.take(i as int + 1).drop_last() =~= ps@.take(i as int));
            assert(ps@.take(i as int + 1).last() == ps@[i as int]);
        }
        i = i + 1;
    }
    proof {
        assert(ps@.take(ps@.len() as int) =~= ps@);
    }
    out
}

} // verus!
