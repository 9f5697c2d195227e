//! JSON values as plain data: [`parse`] reads a text with `serde_json`, and everything that looks into
//! a value works on [`Json`].
use crate::text::{
    chars_of, copy_text, decimal, hex, join3, joined_by, one_more_is_joined_behind, same_text, signed_decimal, text_views,
};
use vstd::prelude::*;

verus! {

/// A JSON value. Of a number only its integer readings are kept.
pub enum Json {
    Null,
    Bool(bool),
    Number { signed: Option<i64>, unsigned: Option<u64> },
    Text(String),
    List(Vec<Json>),
    Object(Vec<(String, Json)>),
}

/// The outermost layer of a JSON value: what is inside a list or an object stays text.
pub enum Shape {
    Null,
    Bool(bool),
    Number { signed: Option<i64>, unsigned: Option<u64>, printed: String },
    Text(String),
    List(Vec<String>),
    Object(Vec<(String, String)>),
}

/// A [`Shape`] over sequences.
pub enum Layer {
    Null,
    Bool(bool),
    Number { signed: Option<i64>, unsigned: Option<u64>, printed: Seq<char> },
    Text(Seq<char>),
    List(Seq<Seq<char>>),
    Object(Seq<(Seq<char>, Seq<char>)>),
}

/// The layer that a shape stands for.
pub open spec fn layer(shape: Option<Shape>) -> Option<Layer> {
    match shape {
        None => None,
        Some(Shape::Null) => Some(Layer::Null),
        Some(Shape::Bool(b)) => Some(Layer::Bool(b)),
        Some(Shape::Number { signed, unsigned, printed }) => Some(Layer::Number { signed, unsigned, printed: printed@ }),
        Some(Shape::Text(s)) => Some(Layer::Text(s@)),
        Some(Shape::List(v)) => Some(Layer::List(Seq::new(v@.len(), |i: int| v@[i]@))),
        Some(Shape::Object(v)) => Some(Layer::Object(Seq::new(v@.len(), |i: int| (v@[i].0@, v@[i].1@)))),
    }
}

/// The outermost layer of the JSON value that a text holds; `None` where it holds none.
pub uninterp spec fn json_layer(text: Seq<char>) -> Option<Layer>;

/// Calls `serde_json::from_str` and takes the outermost layer of the value apart: `None` for its error,
/// the integer readings of a number by `as_i64` and `as_u64`, the number itself and the parts of a list or
/// an object printed by `to_string`. The result is the name [`json_layer`].
#[verifier::external_body]
fn shape_of(text: &str) -> (r: Option<Shape>)
    ensures
        layer(r) == json_layer(text@),
{
    Some(match serde_json::from_str::<serde_json::Value>(text).ok()? {
        serde_json::Value::Null => Shape::Null,
        serde_json::Value::Bool(b) => Shape::Bool(b),
        serde_json::Value::Number(n) => Shape::Number { signed: n.as_i64(), unsigned: n.as_u64(), printed: n.to_string() },
        serde_json::Value::String(s) => Shape::Text(s),
        serde_json::Value::Array(a) => Shape::List(a.iter().map(|v| v.to_string()).collect()),
        serde_json::Value::Object(o) => Shape::Object(o.iter().map(|(k, v)| (k.clone(), v.to_string())).collect()),
    })
}

/// How many layers of a value are read. (A text that nests deeper is no JSON to `serde_json` either.)
pub const MAX_DEPTH: usize = 128;

/// `json` is the value that `text` holds, `depth` layers at most.
pub open spec fn holds(json: Json, text: Seq<char>, depth: nat) -> bool
    decreases depth,
{
    depth > 0 && match json_layer(text) {
        None => false,
        Some(Layer::Null) => json is Null,
        Some(Layer::Bool(b)) => json == Json::Bool(b),
        Some(Layer::Number { signed, unsigned, .. }) => json == (Json::Number { signed, unsigned }),
        Some(Layer::Text(s)) => match json {
            Json::Text(t) => t@ == s,
            _ => false,
        },
        Some(Layer::List(parts)) => match json {
            Json::List(v) => v@.len() == parts.len() && forall|i: int|
                0 <= i < parts.len() ==> holds(#[trigger] v@[i], parts[i], (depth - 1) as nat),
            _ => false,
        },
        Some(Layer::Object(parts)) => match json {
            Json::Object(v) => v@.len() == parts.len() && forall|i: int|
                0 <= i < parts.len() ==> (#[trigger] v@[i]).0@ == parts[i].0 && holds(v@[i].1, parts[i].1, (depth - 1) as nat),
            _ => false,
        },
    }
}

/// `text` holds a value of `depth` layers at most.
pub open spec fn is_json(text: Seq<char>, depth: nat) -> bool
    decreases depth, 0int,
{
    depth > 0 && match json_layer(text) {
        None => false,
        Some(Layer::List(parts)) => all_json(parts, 0, (depth - 1) as nat),
        Some(Layer::Object(parts)) => all_json(Seq::new(parts.len(), |i: int| parts[i].1), 0, (depth - 1) as nat),
        _ => true,
    }
}

/// The parts from position `i` on hold values of `depth` layers at most.
pub open spec fn all_json(parts: Seq<Seq<char>>, i: int, depth: nat) -> bool
    decreases depth, 1 + parts.len() - i,
{
    i < 0 || i >= parts.len() || (is_json(parts[i], depth) && all_json(parts, i + 1, depth))
}

/// Reads a JSON text.
pub fn parse(text: &str) -> (r: Option<Json>)
    ensures
        r is Some <==> is_json(text@, MAX_DEPTH as nat),
        r is Some ==> holds(r->0, text@, MAX_DEPTH as nat),
{
    parse_to(text, MAX_DEPTH)
}

fn parse_to(text: &str, depth: usize) -> (r: Option<Json>)
    ensures
        r is Some <==> is_json(text@, depth as nat),
        r is Some ==> holds(r->0, text@, depth as nat),
    decreases depth,
{
    if depth == 0 {
        return None;
    }
    match shape_of(text) {
        None => None,
        Some(Shape::Null) => Some(Json::Null),
        Some(Shape::Bool(b)) => Some(Json::Bool(b)),
        Some(Shape::Number { signed, unsigned, printed: _ }) => Some(Json::Number { signed, unsigned }),
        Some(Shape::Text(s)) => Some(Json::Text(s)),
        Some(Shape::List(parts)) => {
            let mut out: Vec<Json> = Vec::new();
            let mut i: usize = 0;
            let ghost whole = json_layer(text@)->0->List_0;
            while i < parts.len()
                invariant
                    depth > 0,
                    i <= parts@.len(),
                    out@.len() == i,
                    whole == Seq::new(parts@.len(), |i: int| parts@[i]@),
                    is_json(text@, depth as nat) == all_json(whole, i as int, (depth - 1) as nat),
                    forall|k: int| 0 <= k < i ==> holds(#[trigger] out@[k], whole[k], (depth - 1) as nat),
                    json_layer(text@) == Some(Layer::List(whole)),
                decreases parts@.len() - i,
            {
                match parse_to(parts[i].as_str(), depth - 1) {
                    None => {
                        return None;
                    },
                    Some(j) => out.push(j),
                }
                i = i + 1;
            }
            Some(Json::List(out))
        },
        Some(Shape::Object(parts)) => {
            let mut out: Vec<(String, Json)> = Vec::new();
            let mut i: usize = 0;
            let ghost whole = json_layer(text@)->0->Object_0;
            let ghost values = Seq::new(whole.len(), |i: int| whole[i].1);
            while i < parts.len()
                invariant
                    depth > 0,
                    i <= parts@.len(),
                    out@.len() == i,
                    whole == Seq::new(parts@.len(), |i: int| (parts@[i].0@, parts@[i].1@)),
                    values == Seq::new(whole.len(), |i: int| whole[i].1),
                    is_json(text@, depth as nat) == all_json(values, i as int, (depth - 1) as nat),
                    forall|k: int|
                        0 <= k < i ==> (#[trigger] out@[k]).0@ == whole[k].0 && holds(out@[k].1, whole[k].1, (depth - 1) as nat),
                    json_layer(text@) == Some(Layer::Object(whole)),
                decreases parts@.len() - i,
            {
                match parse_to(parts[i].1.as_str(), depth - 1) {
                    None => {
                        return None;
                    },
                    Some(j) => out.push((copy_text(parts[i].0.as_str()), j)),
                }
                i = i + 1;
            }
            Some(Json::Object(out))
        },
    }
}

// ------------------------------------------------------------------------------ looking inside

/// The first member called `key` from position `i` on.
pub open spec fn member_from(members: Seq<(String, Json)>, key: Seq<char>, i: int) -> Option<Json>
    decreases members.len() - i,
{
    if i < 0 || i >= members.len() {
        None
    } else if members[i].0@ == key {
        Some(members[i].1)
    } else {
        member_from(members, key, i + 1)
    }
}

impl Json {
    /// The member of an object.
    pub open spec fn member(self, key: Seq<char>) -> Option<Json> {
        match self {
            Json::Object(members) => member_from(members@, key, 0),
            _ => None,
        }
    }

    /// The text of a string.
    pub open spec fn text(self) -> Option<Seq<char>> {
        match self {
            Json::Text(s) => Some(s@),
            _ => None,
        }
    }

    /// The value of a boolean.
    pub open spec fn truth(self) -> Option<bool> {
        match self {
            Json::Bool(b) => Some(b),
            _ => None,
        }
    }

    /// The member `key` of an object.
    pub fn get(&self, key: &str) -> (r: Option<&Json>)
        ensures
            match r {
                Some(j) => self.member(key@) == Some(*j),
                None => self.member(key@) is None,
            },
    {
        match self {
            Json::Object(members) => {
                let mut i: usize = 0;
                while i < members.len()
                    invariant
                        i <= members@.len(),
                        self.member(key@) == member_from(members@, key@, i as int),
                    decreases members@.len() - i,
                {
                    if same_text(members[i].0.as_str(), key) {
                        return Some(&members[i].1);
                    }
                    i = i + 1;
                }
                None
            },
            _ => None,
        }
    }

    /// The text, where the value is a string.
    pub fn as_text(&self) -> (r: Option<&str>)
        ensures
            match r {
                Some(s) => self.text() == Some(s@),
                None => self.text() is None,
            },
    {
        match self {
            Json::Text(s) => Some(s.as_str()),
            _ => None,
        }
    }

    /// The boolean, where the value is one.
    pub fn as_bool(&self) -> (r: Option<bool>)
        ensures
            r == self.truth(),
    {
        match self {
            Json::Bool(b) => Some(*b),
            _ => None,
        }
    }

    /// The number as `i64`, where it is one.
    pub fn as_i64(&self) -> (r: Option<i64>)
        ensures
            r == self.signed_number(),
    {
        match self {
            Json::Number { signed, unsigned: _ } => *signed,
            _ => None,
        }
    }

    pub open spec fn signed_number(self) -> Option<i64> {
        match self {
            Json::Number { signed, unsigned: _ } => signed,
            _ => None,
        }
    }

    /// The number as `u64`, where it is one.
    pub fn as_u64(&self) -> (r: Option<u64>)
        ensures
            r == self.unsigned_number(),
    {
        match self {
            Json::Number { signed: _, unsigned } => *unsigned,
            _ => None,
        }
    }

    pub open spec fn unsigned_number(self) -> Option<u64> {
        match self {
            Json::Number { signed: _, unsigned } => unsigned,
            _ => None,
        }
    }
}

/// The first part called `key` from position `i` on.
pub open spec fn part_from(parts: Seq<(Seq<char>, Seq<char>)>, key: Seq<char>, i: int) -> Option<Seq<char>>
    decreases parts.len() - i,
{
    if i < 0 || i >= parts.len() {
        None
    } else if parts[i].0 == key {
        Some(parts[i].1)
    } else {
        part_from(parts, key, i + 1)
    }
}

/// The text of the member `key` of the object that `text` holds.
pub open spec fn member_spelled(text: Seq<char>, key: Seq<char>) -> Option<Seq<char>> {
    match json_layer(text) {
        Some(Layer::Object(parts)) => part_from(parts, key, 0),
        _ => None,
    }
}

/// The member `key` of the object that `text` holds, as JSON text.
pub fn member_text(text: &str, key: &str) -> (r: Option<String>)
    ensures
        match r {
            Some(s) => member_spelled(text@, key@) == Some(s@),
            None => member_spelled(text@, key@) is None,
        },
{
    match shape_of(text) {
        Some(Shape::Object(parts)) => {
            let ghost whole = json_layer(text@)->0->Object_0;
            let mut i: usize = 0;
            while i < parts.len()
                invariant
                    i <= parts@.len(),
                    whole == Seq::new(parts@.len(), |i: int| (parts@[i].0@, parts@[i].1@)),
                    json_layer(text@) == Some(Layer::Object(whole)),
                    member_spelled(text@, key@) == part_from(whole, key@, i as int),
                decreases parts@.len() - i,
            {
                if same_text(parts[i].0.as_str(), key) {
                    return Some(copy_text(parts[i].1.as_str()));
                }
                i = i + 1;
            }
            None
        },
        _ => None,
    }
}

/// A member as JSON text, or something else where it is missing.
pub open spec fn member_or(text: Seq<char>, key: Seq<char>, missing: Seq<char>) -> Seq<char> {
    match member_spelled(text, key) {
        Some(s) => s,
        None => missing,
    }
}

/// A member as JSON text, or something else where it is missing.
pub fn member_text_or(text: &str, key: &str, missing: &str) -> (r: String)
    ensures
        r@ == member_or(text@, key@, missing@),
{
    match member_text(text, key) {
        Some(s) => s,
        None => copy_text(missing),
    }
}

/// The member of a member, as JSON text.
pub open spec fn inner_spelled(text: Seq<char>, outer: Seq<char>, key: Seq<char>) -> Option<Seq<char>> {
    match member_spelled(text, outer) {
        Some(inside) => member_spelled(inside, key),
        None => None,
    }
}

/// The member of a member, as JSON text.
pub fn inner_text(text: &str, outer: &str, key: &str) -> (r: Option<String>)
    ensures
        match r {
            Some(s) => inner_spelled(text@, outer@, key@) == Some(s@),
            None => inner_spelled(text@, outer@, key@) is None,
        },
{
    match member_text(text, outer) {
        Some(inside) => member_text(inside.as_str(), key),
        None => None,
    }
}

/// The string that is a member of an object.
pub open spec fn string_member(text: Seq<char>, key: Seq<char>) -> Option<Seq<char>> {
    match member_spelled(text, key) {
        Some(s) => string_spelled(s),
        None => None,
    }
}

/// The string that is a member of an object.
pub fn member_string(text: &str, key: &str) -> (r: Option<String>)
    ensures
        match r {
            Some(s) => string_member(text@, key@) == Some(s@),
            None => string_member(text@, key@) is None,
        },
{
    match member_text(text, key) {
        Some(s) => string_text(s.as_str()),
        None => None,
    }
}

/// Members by their names and texts.
pub open spec fn pair_views(v: Seq<(String, String)>) -> Seq<(Seq<char>, Seq<char>)> {
    Seq::new(v.len(), |i: int| (v[i].0@, v[i].1@))
}

/// The members of the object that `text` holds, by their names and texts.
pub open spec fn members_of(text: Seq<char>) -> Option<Seq<(Seq<char>, Seq<char>)>> {
    match json_layer(text) {
        Some(Layer::Object(parts)) => Some(parts),
        _ => None,
    }
}

/// The members of the object that `text` holds, by their names and texts.
pub fn member_texts(text: &str) -> (r: Option<Vec<(String, String)>>)
    ensures
        match r {
            Some(v) => members_of(text@) == Some(pair_views(v@)),
            None => members_of(text@) is None,
        },
{
    match shape_of(text) {
        Some(Shape::Object(parts)) => {
            proof {
                assert(pair_views(parts@) =~= Seq::new(parts@.len(), |i: int| (parts@[i].0@, parts@[i].1@)));
            }
            Some(parts)
        },
        _ => None,
    }
}

/// The texts of the values in the list that `text` holds.
pub open spec fn items_spelled(text: Seq<char>) -> Option<Seq<Seq<char>>> {
    match json_layer(text) {
        Some(Layer::List(items)) => Some(items),
        _ => None,
    }
}

/// The values in the list that `text` holds, each as JSON text.
pub fn item_texts(text: &str) -> (r: Option<Vec<String>>)
    ensures
        match r {
            Some(v) => items_spelled(text@) == Some(text_views(v@)),
            None => items_spelled(text@) is None,
        },
{
    match shape_of(text) {
        Some(Shape::List(items)) => {
            proof {
                assert(text_views(items@) =~= Seq::new(items@.len(), |i: int| items@[i]@));
            }
            Some(items)
        },
        _ => None,
    }
}

/// The string that `text` holds.
pub open spec fn string_spelled(text: Seq<char>) -> Option<Seq<char>> {
    match json_layer(text) {
        Some(Layer::Text(s)) => Some(s),
        _ => None,
    }
}

/// The string that `text` holds.
pub fn string_text(text: &str) -> (r: Option<String>)
    ensures
        match r {
            Some(s) => string_spelled(text@) == Some(s@),
            None => string_spelled(text@) is None,
        },
{
    match shape_of(text) {
        Some(Shape::Text(s)) => Some(s),
        _ => None,
    }
}

// ------------------------------------------------------------------------------ writing

/// A character inside a JSON string.
pub open spec fn escaped(c: char) -> Seq<char> {
    if c == '"' {
        seq!['\\', '"']
    } else if c == '\\' {
        seq!['\\', '\\']
    } else if c as u32 == 8 {
        seq!['\\', 'b']
    } else if c as u32 == 9 {
        seq!['\\', 't']
    } else if c as u32 == 10 {
        seq!['\\', 'n']
    } else if c as u32 == 12 {
        seq!['\\', 'f']
    } else if c as u32 == 13 {
        seq!['\\', 'r']
    } else if (c as u32) < 32 {
        seq!['\\', 'u'] + hex(c as nat, 4)
    } else {
        seq![c]
    }
}

/// The inside of the JSON string that stands for a text.
pub open spec fn escapes(s: Seq<char>) -> Seq<char>
    decreases s.len(),
{
    if s.len() == 0 {
        Seq::empty()
    } else {
        escapes(s.drop_last()) + escaped(s.last())
    }
}

/// The JSON string that stands for a text.
pub open spec fn json_quoted(s: Seq<char>) -> Seq<char> {
    seq!['"'] + escapes(s) + seq!['"']
}

/// Calls `serde_json::Value::to_string` on a string value: the text between double quotes, with a
/// backslash before double quotes and backslashes and an escape for each control character below a
/// space.
#[verifier::external_body]
pub(crate) fn json_string(s: &str) -> (r: String)
    ensures
        r@ == json_quoted(s@),
{
    serde_json::Value::String(s.to_string()).to_string()
}

/// A value of a member that is written: a number or a string.
pub enum Scalar {
    Signed(i64),
    Unsigned(u64),
    Text(String),
}

impl Scalar {
    /// Its JSON text.
    pub open spec fn spelled(self) -> Seq<char> {
        match self {
            Scalar::Signed(n) => signed_decimal(n as int),
            Scalar::Unsigned(n) => decimal(n as nat),
            Scalar::Text(s) => json_quoted(s@),
        }
    }

    /// What is read from that text.
    pub open spec fn layer(self) -> Layer {
        match self {
            Scalar::Signed(n) => Layer::Number {
                signed: Some(n),
                unsigned: if n >= 0 { Some(n as u64) } else { None },
                printed: signed_decimal(n as int),
            },
            Scalar::Unsigned(n) => Layer::Number {
                signed: if n <= i64::MAX { Some(n as i64) } else { None },
                unsigned: Some(n),
                printed: decimal(n as nat),
            },
            Scalar::Text(s) => Layer::Text(s@),
        }
    }
}

/// `a` comes before `b`: it is a proper beginning of it, or smaller at the first character that differs.
pub open spec fn comes_before(a: Seq<char>, b: Seq<char>) -> bool
    decreases a.len(),
{
    b.len() > 0 && (a.len() == 0 || a[0] < b[0] || (a[0] == b[0] && comes_before(a.skip(1), b.skip(1))))
}

/// Every member comes before the next.
pub open spec fn ascending(members: Seq<(String, Scalar)>) -> bool {
    forall|i: int| 0 <= i && i + 1 < members.len() ==> comes_before((#[trigger] members[i]).0@, members[i + 1].0@)
}

/// Members with commas between them.
pub open spec fn members_spelled(members: Seq<(String, Scalar)>) -> Seq<char>
    decreases members.len(),
{
    if members.len() == 0 {
        Seq::empty()
    } else {
        let last = members.last();
        members_spelled(members.drop_last()) + (if members.len() == 1 { Seq::empty() } else { ","@ }) + json_quoted(last.0@) + ":"@
            + last.1.spelled()
    }
}

/// The JSON object of some members.
pub open spec fn object_spelled(members: Seq<(String, Scalar)>) -> Seq<char> {
    "{"@ + members_spelled(members) + "}"@
}

/// The text holds the members: each part of it is a member's name, and a text from which the member's
/// value is read.
pub open spec fn reads_back(text: Seq<char>, members: Seq<(String, Scalar)>) -> bool {
    match json_layer(text) {
        Some(Layer::Object(parts)) => parts.len() == members.len() && forall|i: int|
            0 <= i < members.len() ==> (#[trigger] parts[i]).0 == members[i].0@ && json_layer(parts[i].1) == Some(members[i].1.layer()),
        _ => false,
    }
}

/// Collects the members in a `serde_json::Map` and calls `serde_json::Value::to_string` on it: the
/// members in the order of their names, without spaces. What is written so is read back by
/// `serde_json::from_str`.
#[verifier::external_body]
pub(crate) fn object_text(members: Vec<(String, Scalar)>) -> (r: String)
    requires
        ascending(members@),
    ensures
        r@ == object_spelled(members@),
        reads_back(r@, members@),
{
    let map: serde_json::Map<String, serde_json::Value> = members
        .into_iter()
        .map(|(key, value)| match value {
            Scalar::Signed(n) => (key, serde_json::Value::from(n)),
            Scalar::Unsigned(n) => (key, serde_json::Value::from(n)),
            Scalar::Text(s) => (key, serde_json::Value::String(s)),
        })
        .collect();
    serde_json::Value::Object(map).to_string()
}

/// JSON strings with commas between them.
pub open spec fn quoted_list(items: Seq<String>) -> Seq<char>
    decreases items.len(),
{
    if items.len() == 0 {
        Seq::empty()
    } else if items.len() == 1 {
        json_quoted(items[0]@)
    } else {
        quoted_list(items.drop_last()) + ","@ + json_quoted(items.last()@)
    }
}

/// A JSON list of strings.
pub open spec fn json_list(items: Seq<String>) -> Seq<char> {
    "["@ + quoted_list(items) + "]"@
}

/// A JSON list of strings.
pub fn string_list(items: &Vec<String>) -> (r: String)
    ensures
        r@ == json_list(items@),
{
    let mut out = copy_text("[");
    let mut i: usize = 0;
    proof {
        assert(items@.take(0) =~= Seq::<String>::empty());
        assert(out@ =~= "["@ + quoted_list(items@.take(0)));
    }
    while i < items.len()
        invariant
            i <= items@.len(),
            out@ == "["@ + quoted_list(items@.take(i as int)),
        decreases items@.len() - i,
    {
        let ghost before = items@.take(i as int);
        let ghost after = items@.take(i + 1);
        proof {
            assert(after.drop_last() =~= before);
            assert(after.last() == items@[i as int]);
            if i == 0 {
                assert(before =~= Seq::<String>::empty());
                assert("["@ + quoted_list(before) =~= "["@);
            }
        }
        let ghost so_far = out@;
        if i > 0 {
            out.append(",");
        }
        let item = json_string(items[i].as_str());
        out.append(item.as_str());
        proof {
            if i > 0 {
                assert(out@ =~= "["@ + quoted_list(after));
            } else {
                assert(after[0] == items@[0]);
                assert(out@ =~= "["@ + quoted_list(after));
            }
        }
        i = i + 1;
    }
    proof {
        assert(items@.take(i as int) =~= items@);
    }
    out.append("]");
    out
}

// ------------------------------------------------------------------------------ writing texts

fn precedes(a: &str, b: &str) -> (r: bool)
    ensures
        r == comes_before(a@, b@),
{
    let (x, y) = (chars_of(a), chars_of(b));
    let mut i: usize = 0;
    proof {
        assert(a@.skip(0) =~= a@);
        assert(b@.skip(0) =~= b@);
    }
    loop
        invariant
            x@ == a@,
            y@ == b@,
            i <= x@.len(),
            i <= y@.len(),
            comes_before(a@, b@) == comes_before(a@.skip(i as int), b@.skip(i as int)),
        decreases x@.len() - i,
    {
        if i >= y.len() {
            return false;
        }
        if i >= x.len() {
            return true;
        }
        let (c, d): (char, char) = (x[i], y[i]);
        if c < d {
            return true;
        }
        if c != d {
            return false;
        }
        proof {
            assert(a@.skip(i as int).skip(1) =~= a@.skip(i + 1));
            assert(b@.skip(i as int).skip(1) =~= b@.skip(i + 1));
        }
        i = i + 1;
    }
}

/// The position of the first member from position `i` on whose name does not come before `key`.
pub open spec fn slot_from(members: Seq<(Seq<char>, Seq<char>)>, key: Seq<char>, i: int) -> int
    decreases members.len() - i,
{
    if i < 0 || i >= members.len() || !comes_before(members[i].0, key) {
        i
    } else {
        slot_from(members, key, i + 1)
    }
}

/// The members with one put where its name belongs, in place of one of that name.
pub open spec fn with_member(members: Seq<(Seq<char>, Seq<char>)>, key: Seq<char>, text: Seq<char>) -> Seq<(Seq<char>, Seq<char>)> {
    let at = slot_from(members, key, 0);
    if at < members.len() && members[at].0 == key {
        members.update(at, (key, text))
    } else {
        members.insert(at, (key, text))
    }
}

/// Puts a member where its name belongs, in place of one of that name.
pub fn put_member(members: &mut Vec<(String, String)>, key: &str, text: &str)
    ensures
        pair_views(final(members)@) == with_member(pair_views(old(members)@), key@, text@),
{
    let ghost before = members@;
    let ghost views = pair_views(before);
    let mut at: usize = 0;
    while at < members.len() && precedes(members[at].0.as_str(), key)
        invariant
            at <= members@.len(),
            members@ == before,
            views == pair_views(before),
            slot_from(views, key@, 0) == slot_from(views, key@, at as int),
        decreases members@.len() - at,
    {
        at = at + 1;
    }
    let member = (copy_text(key), copy_text(text));
    if at < members.len() && same_text(members[at].0.as_str(), key) {
        members.set(at, member);
        proof {
            assert(pair_views(members@) =~= views.update(at as int, (key@, text@)));
        }
    } else {
        members.insert(at, member);
        proof {
            assert(pair_views(members@) =~= views.insert(at as int, (key@, text@)));
        }
    }
}

/// Members with commas between them.
pub open spec fn fields_spelled(members: Seq<(Seq<char>, Seq<char>)>) -> Seq<char>
    decreases members.len(),
{
    if members.len() == 0 {
        Seq::empty()
    } else {
        fields_spelled(members.drop_last()) + (if members.len() == 1 { Seq::empty() } else { ","@ }) + json_quoted(members.last().0) + ":"@
            + members.last().1
    }
}

/// The JSON object of some members.
pub open spec fn object_of(members: Seq<(Seq<char>, Seq<char>)>) -> Seq<char> {
    "{"@ + fields_spelled(members) + "}"@
}

/// The JSON object of some members.
pub fn write_object(members: &Vec<(String, String)>) -> (r: String)
    ensures
        r@ == object_of(pair_views(members@)),
{
    let ghost views = pair_views(members@);
    let mut inside = String::new();
    let mut i: usize = 0;
    proof {
        assert(views.take(0) =~= Seq::empty());
        assert(inside@ =~= Seq::empty());
    }
    while i < members.len()
        invariant
            i <= members@.len(),
            views == pair_views(members@),
            inside@ == fields_spelled(views.take(i as int)),
        decreases members@.len() - i,
    {
        let ghost before = inside@;
        proof {
            assert(views.take(i + 1).drop_last() =~= views.take(i as int));
            assert(views.take(i + 1).last() == views[i as int]);
        }
        if i > 0 {
            inside.append(",");
        }
        inside.append(json_string(members[i].0.as_str()).as_str());
        inside.append(":");
        inside.append(members[i].1.as_str());
        proof {
            assert(inside@ =~= fields_spelled(views.take(i + 1)));
        }
        i = i + 1;
    }
    proof {
        assert(views.take(i as int) =~= views);
    }
    join3("{", inside.as_str(), "}")
}

/// JSON texts with commas between them.
pub open spec fn texts_spelled(items: Seq<Seq<char>>) -> Seq<char>
    decreases items.len(),
{
    if items.len() == 0 {
        Seq::empty()
    } else {
        texts_spelled(items.drop_last()) + (if items.len() == 1 { Seq::empty() } else { ","@ }) + items.last()
    }
}

/// The JSON list of some values.
pub open spec fn list_of(items: Seq<Seq<char>>) -> Seq<char> {
    "["@ + texts_spelled(items) + "]"@
}

/// The JSON list of some values, by their texts.
pub fn write_list(items: &Vec<String>) -> (r: String)
    ensures
        r@ == list_of(text_views(items@)),
{
    let ghost views = text_views(items@);
    let mut inside = String::new();
    let mut i: usize = 0;
    proof {
        assert(views.take(0) =~= Seq::empty());
        assert(inside@ =~= Seq::empty());
    }
    while i < items.len()
        invariant
            i <= items@.len(),
            views == text_views(items@),
            inside@ == texts_spelled(views.take(i as int)),
        decreases items@.len() - i,
    {
        proof {
            assert(views.take(i + 1).drop_last() =~= views.take(i as int));
            assert(views.take(i + 1).last() == views[i as int]);
        }
        if i > 0 {
            inside.append(",");
        }
        inside.append(items[i].as_str());
        proof {
            assert(inside@ =~= texts_spelled(views.take(i + 1)));
        }
        i = i + 1;
    }
    proof {
        assert(views.take(i as int) =~= views);
    }
    join3("[", inside.as_str(), "]")
}

/// A truth value as JSON.
pub open spec fn truth_spelled(b: bool) -> Seq<char> {
    if b { "true"@ } else { "false"@ }
}

/// A truth value as JSON.
pub fn truth_text(b: bool) -> (r: &'static str)
    ensures
        r@ == truth_spelled(b),
{
    if b { "true" } else { "false" }
}

/// A text that may be missing, as JSON: `null` where it is.
pub open spec fn optional_spelled(text: Option<Seq<char>>) -> Seq<char> {
    match text {
        Some(t) => json_quoted(t),
        None => "null"@,
    }
}

/// A text that may be missing, as JSON.
pub fn optional_text(text: Option<&str>) -> (r: String)
    ensures
        r@ == optional_spelled(crate::text::opt_view(text)),
{
    match text {
        Some(t) => json_string(t),
        None => copy_text("null"),
    }
}

/// A layer as it is printed.
pub open spec fn printed(layer: Layer) -> Seq<char> {
    match layer {
        Layer::Null => "null"@,
        Layer::Bool(b) => truth_spelled(b),
        Layer::Number { printed, .. } => printed,
        Layer::Text(s) => json_quoted(s),
        Layer::List(items) => list_of(items),
        Layer::Object(members) => object_of(members),
    }
}

/// The JSON value in a text, as it is printed; `null` where there is none.
pub open spec fn value_spelled(text: Seq<char>) -> Seq<char> {
    match json_layer(text) {
        Some(layer) => printed(layer),
        None => "null"@,
    }
}

/// The JSON value in a text, as it is printed; `null` where there is none.
pub fn value_text(text: &str) -> (r: String)
    ensures
        r@ == value_spelled(text@),
{
    match shape_of(text) {
        None => copy_text("null"),
        Some(Shape::Null) => copy_text("null"),
        Some(Shape::Bool(b)) => copy_text(truth_text(b)),
        Some(Shape::Number { signed: _, unsigned: _, printed }) => printed,
        Some(Shape::Text(s)) => json_string(s.as_str()),
        Some(Shape::List(items)) => {
            proof {
                assert(text_views(items@) =~= Seq::new(items@.len(), |i: int| items@[i]@));
            }
            write_list(&items)
        },
        Some(Shape::Object(members)) => {
            proof {
                assert(pair_views(members@) =~= Seq::new(members@.len(), |i: int| (members@[i].0@, members@[i].1@)));
            }
            write_object(&members)
        },
    }
}

/// A text holds `null`.
pub fn is_null(text: &str) -> (r: bool)
    ensures
        r == (json_layer(text@) == Some(Layer::Null)),
{
    match shape_of(text) {
        Some(Shape::Null) => true,
        _ => false,
    }
}

// ------------------------------------------------------------------------------ what holds

/// A member is found by its name: it is the first of that name, and one is found if there is one.
pub proof fn a_member_is_found_by_its_name(members: Seq<(String, Json)>, parts: Seq<(Seq<char>, Seq<char>)>, key: Seq<char>, i: int)
    requires
        0 <= i,
    ensures
        match member_from(members, key, i) {
            Some(value) => exists|k: int| i <= k < members.len() && (#[trigger] members[k]).0@ == key && members[k].1 == value && forall|j: int|
                i <= j < k ==> (#[trigger] members[j]).0@ != key,
            None => forall|j: int| i <= j < members.len() ==> (#[trigger] members[j]).0@ != key,
        },
        match part_from(parts, key, i) {
            Some(text) => exists|k: int| i <= k < parts.len() && #[trigger] parts[k] == (key, text) && forall|j: int|
                i <= j < k ==> (#[trigger] parts[j]).0 != key,
            None => forall|j: int| i <= j < parts.len() ==> (#[trigger] parts[j]).0 != key,
        },
    decreases (if members.len() > parts.len() { members.len() - i } else { parts.len() - i }),
{
    if i < members.len() || i < parts.len() {
        a_member_is_found_by_its_name(members, parts, key, i + 1);
    }
    if i < members.len() {
        if members[i].0@ == key {
            assert(members[i].1 == member_from(members, key, i)->0);
        }
    }
    if i < parts.len() {
        if parts[i].0 == key {
            assert(parts[i] == (key, part_from(parts, key, i)->0));
        }
    }
}

/// A list is its values with commas between them, in brackets; an object its members, each as its name, a
/// colon and its value, with commas between them, in braces.
pub proof fn values_stand_between_commas(items: Seq<Seq<char>>, members: Seq<(Seq<char>, Seq<char>)>, strings: Seq<String>)
    ensures
        list_of(items) == seq!['['] + joined_by(items, ',') + seq![']'],
        object_of(members) == seq!['{'] + joined_by(members.map_values(|m: (Seq<char>, Seq<char>)| json_quoted(m.0) + seq![':'] + m.1), ',') + seq!['}'],
        json_list(strings) == list_of(strings.map_values(|s: String| json_quoted(s@))),
        truth_spelled(true) == "true"@ && truth_spelled(false) == "false"@,
{
    reveal_strlit("[");
    reveal_strlit("]");
    reveal_strlit("{");
    reveal_strlit("}");
    texts_are_joined(items);
    assert(list_of(items) =~= seq!['['] + joined_by(items, ',') + seq![']']);
    fields_are_joined(members);
    assert(object_of(members) =~= seq!['{'] + joined_by(members.map_values(|m: (Seq<char>, Seq<char>)| json_quoted(m.0) + seq![':'] + m.1), ',')
        + seq!['}']);
    quoted_are_joined(strings);
}

proof fn texts_are_joined(items: Seq<Seq<char>>)
    ensures
        texts_spelled(items) == joined_by(items, ','),
    decreases items.len(),
{
    reveal_strlit(",");
    if items.len() == 1 {
        assert(texts_spelled(items.drop_last()) =~= Seq::<char>::empty());
        assert(texts_spelled(items) =~= items[0]);
    } else if items.len() > 1 {
        let front = items.drop_last();
        texts_are_joined(front);
        one_more_is_joined_behind(front, ',', items.last());
        assert(front.push(items.last()) =~= items);
        assert(texts_spelled(items) =~= joined_by(items, ','));
    }
}

proof fn fields_are_joined(members: Seq<(Seq<char>, Seq<char>)>)
    ensures
        fields_spelled(members) == joined_by(members.map_values(|m: (Seq<char>, Seq<char>)| json_quoted(m.0) + seq![':'] + m.1), ','),
    decreases members.len(),
{
    reveal_strlit(",");
    reveal_strlit(":");
    let fields = members.map_values(|m: (Seq<char>, Seq<char>)| json_quoted(m.0) + seq![':'] + m.1);
    if members.len() == 1 {
        assert(fields_spelled(members.drop_last()) =~= Seq::<char>::empty());
        assert(fields_spelled(members) =~= fields[0]);
    } else if members.len() > 1 {
        let front = members.drop_last();
        fields_are_joined(front);
        let before = front.map_values(|m: (Seq<char>, Seq<char>)| json_quoted(m.0) + seq![':'] + m.1);
        one_more_is_joined_behind(before, ',', fields.last());
        assert(before.push(fields.last()) =~= fields);
        assert(fields_spelled(members) =~= joined_by(fields, ','));
    }
}

proof fn quoted_are_joined(strings: Seq<String>)
    ensures
        quoted_list(strings) == texts_spelled(strings.map_values(|s: String| json_quoted(s@))),
    decreases strings.len(),
{
    let items = strings.map_values(|s: String| json_quoted(s@));
    if strings.len() == 1 {
        assert(texts_spelled(items.drop_last()) =~= Seq::<char>::empty());
        assert(texts_spelled(items) =~= items[0]);
    } else if strings.len() > 1 {
        let front = strings.drop_last();
        quoted_are_joined(front);
        assert(items.drop_last() =~= front.map_values(|s: String| json_quoted(s@)));
        assert(items.last() == json_quoted(strings.last()@));
    }
}

proof fn no_name_comes_before_itself(a: Seq<char>)
    ensures
        !comes_before(a, a),
    decreases a.len(),
{
    if a.len() > 0 {
        no_name_comes_before_itself(a.skip(1));
    }
}

proof fn slots_come_after(members: Seq<(Seq<char>, Seq<char>)>, key: Seq<char>, i: int)
    requires
        0 <= i <= members.len(),
    ensures
        i <= slot_from(members, key, i) <= members.len(),
        forall|j: int| i <= j < slot_from(members, key, i) ==> (#[trigger] members[j]).0 != key,
    decreases members.len() - i,
{
    no_name_comes_before_itself(key);
    if i < members.len() && comes_before(members[i].0, key) {
        slots_come_after(members, key, i + 1);
    }
}

/// A member that was put into an object is found in it with its value, and every other member as before.
pub proof fn a_member_that_was_put_is_found(members: Seq<(Seq<char>, Seq<char>)>, key: Seq<char>, text: Seq<char>, other: Seq<char>)
    requires
        other != key,
    ensures
        part_from(with_member(members, key, text), key, 0) == Some(text),
        part_from(with_member(members, key, text), other, 0) == part_from(members, other, 0),
{
    let at = slot_from(members, key, 0);
    slots_come_after(members, key, 0);
    let after = with_member(members, key, text);
    assert(after[at] == (key, text));
    assert forall|j: int| 0 <= j < at implies #[trigger] after[j] == members[j] by {}
    first_part(after, key, 0, at);
    if at < members.len() && members[at].0 == key {
        parts_alike(members, after, other, 0, at, 0);
    } else {
        parts_alike(members, after, other, 0, at, 1);
    }
}

proof fn first_part(parts: Seq<(Seq<char>, Seq<char>)>, key: Seq<char>, i: int, k: int)
    requires
        0 <= i <= k < parts.len(),
        parts[k].0 == key,
        forall|j: int| i <= j < k ==> (#[trigger] parts[j]).0 != key,
    ensures
        part_from(parts, key, i) == Some(parts[k].1),
    decreases k - i,
{
    if i < k {
        first_part(parts, key, i + 1, k);
    }
}

proof fn parts_alike(a: Seq<(Seq<char>, Seq<char>)>, b: Seq<(Seq<char>, Seq<char>)>, key: Seq<char>, i: int, at: int, more: int)
    requires
        0 <= i,
        0 <= at,
        more == 0 || more == 1,
        b.len() == a.len() + more,
        at < b.len(),
        b[at].0 != key,
        more == 0 ==> at < a.len() && a[at].0 != key,
        forall|j: int| 0 <= j < at ==> #[trigger] b[j] == a[j],
        more == 0 ==> forall|j: int| at < j < a.len() ==> #[trigger] b[j] == a[j],
        more == 1 ==> forall|j: int| at < j < b.len() ==> #[trigger] b[j] == a[j - 1],
    ensures
        i <= at ==> part_from(b, key, i) == part_from(a, key, i),
        i > at ==> part_from(b, key, i) == part_from(a, key, i - more),
    decreases b.len() - i,
{
    if i < b.len() {
        parts_alike(a, b, key, i + 1, at, more);
    }
}

/// As many layers are read as the parser of the texts reads.
pub proof fn the_depth_that_is_read()
    ensures
        MAX_DEPTH == 128,
{
}

/// Names are ordered as texts are: character by character, a text before what goes on from it; no name comes
/// before itself, and of two that differ one comes before the other.
pub proof fn names_are_ordered(a: Seq<char>, b: Seq<char>)
    ensures
        !comes_before(a, a),
        a == b || comes_before(a, b) || comes_before(b, a),
        !(comes_before(a, b) && comes_before(b, a)),
        a.len() < b.len() && b.take(a.len() as int) == a ==> comes_before(a, b),
        a.len() > 0 && b.len() > 0 && a[0] < b[0] ==> comes_before(a, b),
    decreases a.len(),
{
    if a.len() > 0 {
        names_are_ordered(a.skip(1), if b.len() > 0 { b.skip(1) } else { b });
        if b.len() > 0 && a[0] == b[0] {
            if a.skip(1) == b.skip(1) {
                assert(a =~= b) by {
                    assert forall|i: int| 0 <= i < a.len() implies a[i] == b[i] by {
                        if i > 0 {
                            assert(a.skip(1)[i - 1] == b.skip(1)[i - 1]);
                        }
                    }
                    assert(a.skip(1).len() == b.skip(1).len());
                }
            }
        }
        if a.len() < b.len() && b.take(a.len() as int) == a {
            assert(b.take(a.len() as int)[0] == b[0]);
            assert(b.skip(1).take(a.len() - 1) =~= a.skip(1)) by {
                assert forall|i: int| 0 <= i < a.len() - 1 implies b.skip(1).take(a.len() - 1)[i] == a.skip(1)[i] by {
                    assert(b.take(a.len() as int)[i + 1] == a[i + 1]);
                }
            }
        }
    } else if b.len() == 0 {
        assert(a =~= b);
    }
}

/// A text that may be missing is a string, or `null`; a truth value is one of two words; a value is printed as
/// what it is.
pub proof fn values_are_spelled_as_what_they_are(text: Seq<char>, n: i64, u: u64, s: String)
    ensures
        optional_spelled(Some(text)) == json_quoted(text),
        optional_spelled(None) == "null"@,
        truth_spelled(true) == "true"@,
        truth_spelled(false) == "false"@,
        json_layer(text) is None ==> value_spelled(text) == "null"@,
        json_layer(text) == Some(Layer::Null) ==> value_spelled(text) == "null"@,
        json_layer(text) == Some(Layer::Bool(true)) ==> value_spelled(text) == "true"@,
        json_layer(text) is Some && json_layer(text)->0 is Text ==> value_spelled(text) == json_quoted(json_layer(text)->0->Text_0),
        Scalar::Signed(n).spelled() == signed_decimal(n as int),
        Scalar::Unsigned(u).spelled() == decimal(u as nat),
        Scalar::Text(s).spelled() == json_quoted(s@),
{
}

/// A quoted text stands between double quotes; a character that needs no escape stands for itself, a double
/// quote and a backslash stand behind a backslash, and no control character is left.
pub proof fn a_quoted_text_stands_between_quotes(s: Seq<char>, c: char)
    ensures
        json_quoted(s).len() >= 2,
        json_quoted(s)[0] == '"',
        json_quoted(s).last() == '"',
        escapes(Seq::empty()) == Seq::<char>::empty(),
        c != '"' && c != '\\' && c as int >= 32 ==> escapes(s.push(c)) == escapes(s).push(c),
        c == '"' || c == '\\' ==> escapes(s.push(c)) == escapes(s).push('\\').push(c),
        c == '\n' ==> escapes(s.push(c)) == escapes(s).push('\\').push('n'),
        c == '\t' ==> escapes(s.push(c)) == escapes(s).push('\\').push('t'),
        c == '\r' ==> escapes(s.push(c)) == escapes(s).push('\\').push('r'),
{
    assert(s.push(c).drop_last() =~= s);
    let e = escapes(s);
    if c != '"' && c != '\\' && c as int >= 32 {
        assert(e + escaped(c) =~= e.push(c));
    }
    if c == '"' || c == '\\' {
        assert(e + escaped(c) =~= e.push('\\').push(c));
    }
    if c == '\n' {
        assert(e + escaped(c) =~= e.push('\\').push('n'));
    }
    if c == '\t' {
        assert(e + escaped(c) =~= e.push('\\').push('t'));
    }
    if c == '\r' {
        assert(e + escaped(c) =~= e.push('\\').push('r'));
    }
}

/// An object has its members in order, each as its name, a colon and its value, with commas between.
pub proof fn an_object_has_its_members_in_order(members: Seq<(String, Scalar)>, more: (String, Scalar))
    ensures
        object_spelled(Seq::empty()) == "{}"@,
        object_spelled(members) == "{"@ + members_spelled(members) + "}"@,
        members.len() == 0 ==> members_spelled(members.push(more)) == json_quoted(more.0@) + ":"@ + more.1.spelled(),
        members.len() > 0 ==> members_spelled(members.push(more)) == members_spelled(members) + ","@ + json_quoted(more.0@) + ":"@ + more.1.spelled(),
{
    reveal_strlit("{");
    reveal_strlit("}");
    reveal_strlit("{}");
    assert(object_spelled(Seq::empty()) =~= "{}"@);
    assert(members.push(more).drop_last() =~= members);
    if members.len() == 0 {
        assert(members_spelled(members) =~= Seq::empty());
        assert(members_spelled(members.push(more)) =~= json_quoted(more.0@) + ":"@ + more.1.spelled());
    }
}

} // verus!
