use vstd::prelude::*;
use crate::text::{chars_of, lemma_str_lt_total, str_equal, str_lt};

verus! {

/// A JSON number: the text it is written as, and whether it is an integer
/// (fits an `i64` or a `u64`).
pub struct JsonNumber {
    pub text: String,
    pub integer: bool,
}

/// One `key: value` entry of a JSON object.
pub struct JsonMember {
    pub key: String,
    pub value: JsonValue,
}

/// A JSON value; an object keeps its members in order. Values read by
/// `serde_json` are `json_well_formed`: each object's keys are distinct and
/// ascending.
pub enum JsonValue {
    Null,
    Bool(bool),
    Number(JsonNumber),
    String(String),
    Array(Vec<JsonValue>),
    Object(Vec<JsonMember>),
}

/// `a` and `b` are the same JSON value: same variant, same text, same
/// elements and members in the same order.
pub open spec fn json_same(a: JsonValue, b: JsonValue) -> bool
    decreases a,
{
    match a {
        JsonValue::Null => b is Null,
        JsonValue::Bool(x) => b matches JsonValue::Bool(y) && x == y,
        JsonValue::Number(x) => b matches JsonValue::Number(y) && x.text@ == y.text@ && x.integer
            == y.integer,
        JsonValue::String(x) => b matches JsonValue::String(y) && x@ == y@,
        JsonValue::Array(xs) => b matches JsonValue::Array(ys) && xs@.len() == ys@.len() && (
        forall|i: int|
            #![trigger xs@[i]]
            0 <= i < xs@.len() ==> json_same(xs@[i], ys@[i])),
        JsonValue::Object(xs) => b matches JsonValue::Object(ys) && xs@.len() == ys@.len() && (
        forall|i: int|
            #![trigger xs@[i]]
            0 <= i < xs@.len() ==> xs@[i].key@ == ys@[i].key@ && json_same(
                xs@[i].value,
                ys@[i].value,
            )),
    }
}

/// Whether `a` and `b` are the same JSON value.
pub fn json_equal(a: &JsonValue, b: &JsonValue) -> (r: bool)
    ensures
        r == json_same(*a, *b),
    decreases a,
{
    match (a, b) {
        (JsonValue::Null, JsonValue::Null) => true,
        (JsonValue::Bool(x), JsonValue::Bool(y)) => *x == *y,
        (JsonValue::Number(x), JsonValue::Number(y)) => x.integer == y.integer && str_equal(
            x.text.as_str(),
            y.text.as_str(),
        ),
        (JsonValue::String(x), JsonValue::String(y)) => str_equal(x.as_str(), y.as_str()),
        (JsonValue::Array(xs), JsonValue::Array(ys)) => {
            if xs.len() != ys.len() {
                return false;
            }
            let mut i: usize = 0;
            while i < xs.len()
                invariant
                    *a == JsonValue::Array(*xs),
                    *b == JsonValue::Array(*ys),
                    xs.len() == ys.len(),
                    i <= xs.len(),
                    forall|k: int| 0 <= k < i ==> json_same(#[trigger] xs@[k], ys@[k]),
                decreases xs.len() - i,
            {
                proof {
                    assert(decreases_to!(*a => (*a)->Array_0));
                    assert(decreases_to!(*xs => xs@));
                    assert(decreases_to!(xs@ => xs@[i as int]));
                }
                if !json_equal(&xs[i], &ys[i]) {
                    return false;
                }
                i += 1;
            }
            true
        },
        (JsonValue::Object(xs), JsonValue::Object(ys)) => {
            if xs.len() != ys.len() {
                return false;
            }
            let mut i: usize = 0;
            while i < xs.len()
                invariant
                    *a == JsonValue::Object(*xs),
                    *b == JsonValue::Object(*ys),
                    xs.len() == ys.len(),
                    i <= xs.len(),
                    forall|k: int|
                        0 <= k < i ==> (#[trigger] xs@[k]).key@ == ys@[k].key@ && json_same(
                            xs@[k].value,
                            ys@[k].value,
                        ),
                decreases xs.len() - i,
            {
                if !str_equal(xs[i].key.as_str(), ys[i].key.as_str()) {
                    return false;
                }
                proof {
                    assert(decreases_to!(*a => (*a)->Object_0));
                    assert(decreases_to!(*xs => xs@));
                    assert(decreases_to!(xs@ => xs@[i as int]));
                    assert(decreases_to!(xs@[i as int] => xs@[i as int].value));
                }
                if !json_equal(&xs[i].value, &ys[i].value) {
                    return false;
                }
                i += 1;
            }
            true
        },
        _ => false,
    }
}

/// The value of the first member of `members` whose key is `key`.
pub open spec fn find_member(members: Seq<JsonMember>, key: Seq<char>) -> Option<JsonValue>
    decreases members.len(),
{
    if members.len() == 0 {
        None
    } else if members[0].key@ == key {
        Some(members[0].value)
    } else {
        find_member(members.drop_first(), key)
    }
}

/// Some member of `members` has key `key`.
pub open spec fn has_key(members: Seq<JsonMember>, key: Seq<char>) -> bool {
    exists|i: int| 0 <= i < members.len() && (#[trigger] members[i]).key@ == key
}

/// `value[key]` when `value` is an object holding `key`.
pub open spec fn json_get(value: JsonValue, key: Seq<char>) -> Option<JsonValue> {
    match value {
        JsonValue::Object(members) => find_member(members@, key),
        _ => None,
    }
}

/// `value` conforms to the JSON-schema type name `expected`; unknown names accept anything.
pub open spec fn type_matches(value: JsonValue, expected: Seq<char>) -> bool {
    if expected == "string"@ {
        value is String
    } else if expected == "boolean"@ {
        value is Bool
    } else if expected == "integer"@ {
        value matches JsonValue::Number(n) && n.integer
    } else if expected == "number"@ {
        value is Number
    } else if expected == "object"@ {
        value is Object
    } else if expected == "array"@ {
        value is Array
    } else if expected == "null"@ {
        value is Null
    } else {
        true
    }
}

/// The JSON-schema type name of `value`.
pub open spec fn json_type_of(value: JsonValue) -> Seq<char> {
    match value {
        JsonValue::Null => "null"@,
        JsonValue::Bool(_) => "boolean"@,
        JsonValue::Number(n) => if n.integer {
            "integer"@
        } else {
            "number"@
        },
        JsonValue::String(_) => "string"@,
        JsonValue::Array(_) => "array"@,
        JsonValue::Object(_) => "object"@,
    }
}

/// The keys of `members` strictly increase in `String` order, so no key repeats.
pub open spec fn keys_ascending(members: Seq<JsonMember>) -> bool {
    forall|i: int, j: int|
        #![trigger members[i], members[j]]
        0 <= i < j < members.len() ==> str_lt(members[i].key@, members[j].key@)
}

/// `v` is a JSON value as `serde_json`'s default map holds one: the keys of
/// every object in it are distinct and in ascending order.
pub open spec fn json_well_formed(v: JsonValue) -> bool
    decreases v,
{
    match v {
        JsonValue::Array(xs) => forall|i: int|
            #![trigger xs@[i]]
            0 <= i < xs@.len() ==> json_well_formed(xs@[i]),
        JsonValue::Object(ms) => keys_ascending(ms@) && forall|i: int|
            #![trigger ms@[i]]
            0 <= i < ms@.len() ==> json_well_formed(ms@[i].value),
        _ => true,
    }
}

/// In an object whose keys ascend, the member found for a key is the one
/// member with that key.
pub proof fn lemma_find_member_unique(members: Seq<JsonMember>, i: int)
    requires
        keys_ascending(members),
        0 <= i < members.len(),
    ensures
        find_member(members, members[i].key@) == Some(members[i].value),
    decreases members.len(),
{
    let key = members[i].key@;
    if members[0].key@ == key {
        if i > 0 {
            assert(str_lt(members[0].key@, members[i].key@));
            lemma_str_lt_total(key, key);
        }
    } else {
        let rest = members.drop_first();
        assert forall|a: int, b: int|
            #![trigger rest[a], rest[b]]
            0 <= a < b < rest.len() implies str_lt(rest[a].key@, rest[b].key@) by {
            assert(rest[a] == members[a + 1] && rest[b] == members[b + 1]);
        }
        assert(i > 0);
        assert(rest[i - 1] == members[i]);
        lemma_find_member_unique(rest, i - 1);
    }
}

/// `find_member` finds a value exactly when some member has the key.
pub proof fn lemma_find_member_has_key(members: Seq<JsonMember>, key: Seq<char>)
    ensures
        find_member(members, key) is Some <==> has_key(members, key),
    decreases members.len(),
{
    if members.len() > 0 {
        lemma_find_member_has_key(members.drop_first(), key);
        if has_key(members, key) && members[0].key@ != key {
            let i = choose|i: int| 0 <= i < members.len() && (#[trigger] members[i]).key@ == key;
            assert(members.drop_first()[i - 1] == members[i]);
        }
        if has_key(members.drop_first(), key) {
            let i = choose|i: int|
                0 <= i < members.drop_first().len() && (#[trigger] members.drop_first()[i]).key@
                    == key;
            assert(members[i + 1] == members.drop_first()[i]);
        }
    }
}

/// The value of the first member of `members` whose key is `key`.
pub fn member_value<'a>(members: &'a Vec<JsonMember>, key: &str) -> (r: Option<&'a JsonValue>)
    ensures
        match r {
            Some(v) => find_member(members@, key@) == Some(*v),
            None => find_member(members@, key@) is None,
        },
        keys_ascending(members@) ==> forall|i: int|
            0 <= i < members@.len() && (#[trigger] members@[i]).key@ == key@ ==> (r matches Some(v)
                && *v == members@[i].value),
{
    proof {
        if keys_ascending(members@) {
            assert forall|i: int| 0 <= i < members@.len() && (#[trigger] members@[i]).key@ == key@
                implies find_member(members@, key@) == Some(members@[i].value) by {
                lemma_find_member_unique(members@, i);
            }
        }
    }
    let k = chars_of(key);
    let mut i: usize = 0;
    assert(members@.skip(0) =~= members@);
    while i < members.len()
        invariant
            k@ == key@,
            i <= members.len(),
            find_member(members@, key@) == find_member(members@.skip(i as int), key@),
            keys_ascending(members@) ==> forall|j: int| 0 <= j < members@.len() && (#[trigger] members@[j]).key@ == key@
                ==> find_member(members@, key@) == Some(members@[j].value),
        decreases members.len() - i,
    {
        let ghost rest = members@.skip(i as int);
        assert(rest.drop_first() =~= members@.skip(i + 1));
        if str_equal(members[i].key.as_str(), key) {
            return Some(&members[i].value);
        }
        i += 1;
    }
    None
}

/// Whether some member of `members` has key `key`.
pub fn contains_key(members: &Vec<JsonMember>, key: &str) -> (r: bool)
    ensures
        r == has_key(members@, key@),
{
    proof {
        lemma_find_member_has_key(members@, key@);
    }
    member_value(members, key).is_some()
}

/// `value[key]` when `value` is an object holding `key`.
pub fn get<'a>(value: &'a JsonValue, key: &str) -> (r: Option<&'a JsonValue>)
    ensures
        match r {
            Some(v) => json_get(*value, key@) == Some(*v),
            None => json_get(*value, key@) is None,
        },
        json_well_formed(*value) ==> (value matches JsonValue::Object(ms) ==> forall|i: int|
            0 <= i < ms@.len() && (#[trigger] ms@[i]).key@ == key@ ==> (r matches Some(v) && *v
                == ms@[i].value)),
{
    match value {
        JsonValue::Object(members) => member_value(members, key),
        _ => None,
    }
}

/// Whether `value` conforms to the JSON-schema type name `expected`.
pub fn matches_json_type(value: &JsonValue, expected: &str) -> (r: bool)
    ensures
        r == type_matches(*value, expected@),
{
    if str_equal(expected, "string") {
        matches!(value, JsonValue::String(_))
    } else if str_equal(expected, "boolean") {
        matches!(value, JsonValue::Bool(_))
    } else if str_equal(expected, "integer") {
        match value {
            JsonValue::Number(n) => n.integer,
            _ => false,
        }
    } else if str_equal(expected, "number") {
        matches!(value, JsonValue::Number(_))
    } else if str_equal(expected, "object") {
        matches!(value, JsonValue::Object(_))
    } else if str_equal(expected, "array") {
        matches!(value, JsonValue::Array(_))
    } else if str_equal(expected, "null") {
        matches!(value, JsonValue::Null)
    } else {
        true
    }
}

/// The JSON-schema type name of `value`.
pub fn json_type(value: &JsonValue) -> (r: &'static str)
    ensures
        r@ == json_type_of(*value),
{
    match value {
        JsonValue::Null => "null",
        JsonValue::Bool(_) => "boolean",
        JsonValue::Number(n) => if n.integer {
            "integer"
        } else {
            "number"
        },
        JsonValue::String(_) => "string",
        JsonValue::Array(_) => "array",
        JsonValue::Object(_) => "object",
    }
}

/// A copy of `v`.
pub fn copy_json(v: &JsonValue) -> (r: JsonValue)
    ensures
        json_same(*v, r),
    decreases v,
{
    match v {
        JsonValue::Null => JsonValue::Null,
        JsonValue::Bool(b) => JsonValue::Bool(*b),
        JsonValue::Number(n) => JsonValue::Number(
            JsonNumber { text: n.text.clone(), integer: n.integer },
        ),
        JsonValue::String(s) => JsonValue::String(s.clone()),
        JsonValue::Array(xs) => {
            let mut ys: Vec<JsonValue> = Vec::new();
            let mut i: usize = 0;
            while i < xs.len()
                invariant
                    *v == JsonValue::Array(*xs),
                    i <= xs.len(),
                    ys.len() == i,
                    forall|k: int| 0 <= k < i ==> json_same(#[trigger] xs@[k], ys@[k]),
                decreases xs.len() - i,
            {
                proof {
                    assert(decreases_to!(*v => (*v)->Array_0));
                    assert(decreases_to!(*xs => xs@));
                    assert(decreases_to!(xs@ => xs@[i as int]));
                }
                let c = copy_json(&xs[i]);
                ys.push(c);
                i += 1;
            }
            JsonValue::Array(ys)
        },
        JsonValue::Object(xs) => {
            let mut ys: Vec<JsonMember> = Vec::new();
            let mut i: usize = 0;
            while i < xs.len()
                invariant
                    *v == JsonValue::Object(*xs),
                    i <= xs.len(),
                    ys.len() == i,
                    forall|k: int|
                        0 <= k < i ==> (#[trigger] xs@[k]).key@ == ys@[k].key@ && json_same(
                            xs@[k].value,
                            ys@[k].value,
                        ),
                decreases xs.len() - i,
            {
                proof {
                    assert(decreases_to!(*v => (*v)->Object_0));
                    assert(decreases_to!(*xs => xs@));
                    assert(decreases_to!(xs@ => xs@[i as int]));
                    assert(decreases_to!(xs@[i as int] => xs@[i as int].value));
                }
                let c = copy_json(&xs[i].value);
                ys.push(JsonMember { key: xs[i].key.clone(), value: c });
                i += 1;
            }
            JsonValue::Object(ys)
        },
    }
}

/// Every JSON value is the same as itself.
pub proof fn lemma_json_same_reflexive(v: JsonValue)
    ensures
        json_same(v, v),
    decreases v,
{
    match v {
        JsonValue::Array(xs) => {
            assert forall|i: int| 0 <= i < xs@.len() implies json_same(
                #[trigger] xs@[i],
                xs@[i],
            ) by {
                assert(decreases_to!(v => v->Array_0));
                assert(decreases_to!(xs => xs@));
                assert(decreases_to!(xs@ => xs@[i]));
                lemma_json_same_reflexive(xs@[i]);
            }
        },
        JsonValue::Object(xs) => {
            assert forall|i: int| 0 <= i < xs@.len() implies (#[trigger] xs@[i]).key@ == xs@[i].key@
                && json_same(xs@[i].value, xs@[i].value) by {
                assert(decreases_to!(v => v->Object_0));
                assert(decreases_to!(xs => xs@));
                assert(decreases_to!(xs@ => xs@[i]));
                assert(decreases_to!(xs@[i] => xs@[i].value));
                lemma_json_same_reflexive(xs@[i].value);
            }
        },
        _ => {},
    }
}

/// Being the same JSON value is symmetric.
pub proof fn lemma_json_same_symmetric(a: JsonValue, b: JsonValue)
    requires
        json_same(a, b),
    ensures
        json_same(b, a),
    decreases a,
{
    match a {
        JsonValue::Array(xs) => {
            let ys = b->Array_0;
            assert forall|i: int| 0 <= i < ys@.len() implies json_same(#[trigger] ys@[i], xs@[i]) by {
                assert(decreases_to!(a => a->Array_0));
                assert(decreases_to!(xs => xs@));
                assert(decreases_to!(xs@ => xs@[i]));
                assert(json_same(xs@[i], ys@[i]));
                lemma_json_same_symmetric(xs@[i], ys@[i]);
            }
        },
        JsonValue::Object(xs) => {
            let ys = b->Object_0;
            assert forall|i: int| 0 <= i < ys@.len() implies (#[trigger] ys@[i]).key@ == xs@[i].key@
                && json_same(ys@[i].value, xs@[i].value) by {
                assert(decreases_to!(a => a->Object_0));
                assert(decreases_to!(xs => xs@));
                assert(decreases_to!(xs@ => xs@[i]));
                assert(decreases_to!(xs@[i] => xs@[i].value));
                assert(xs@[i].key@ == ys@[i].key@ && json_same(xs@[i].value, ys@[i].value));
                lemma_json_same_symmetric(xs@[i].value, ys@[i].value);
            }
        },
        _ => {},
    }
}

/// Being the same JSON value is transitive.
pub proof fn lemma_json_same_transitive(a: JsonValue, b: JsonValue, c: JsonValue)
    requires
        json_same(a, b),
        json_same(b, c),
    ensures
        json_same(a, c),
    decreases a,
{
    match a {
        JsonValue::Array(xs) => {
            let ys = b->Array_0;
            let zs = c->Array_0;
            assert forall|i: int| 0 <= i < xs@.len() implies json_same(#[trigger] xs@[i], zs@[i]) by {
                assert(decreases_to!(a => a->Array_0));
                assert(decreases_to!(xs => xs@));
                assert(decreases_to!(xs@ => xs@[i]));
                assert(json_same(xs@[i], ys@[i]));
                assert(json_same(ys@[i], zs@[i]));
                lemma_json_same_transitive(xs@[i], ys@[i], zs@[i]);
            }
        },
        JsonValue::Object(xs) => {
            let ys = b->Object_0;
            let zs = c->Object_0;
            assert forall|i: int| 0 <= i < xs@.len() implies (#[trigger] xs@[i]).key@ == zs@[i].key@
                && json_same(xs@[i].value, zs@[i].value) by {
                assert(decreases_to!(a => a->Object_0));
                assert(decreases_to!(xs => xs@));
                assert(decreases_to!(xs@ => xs@[i]));
                assert(decreases_to!(xs@[i] => xs@[i].value));
                assert(xs@[i].key@ == ys@[i].key@ && json_same(xs@[i].value, ys@[i].value));
                assert(ys@[i].key@ == zs@[i].key@ && json_same(ys@[i].value, zs@[i].value));
                lemma_json_same_transitive(xs@[i].value, ys@[i].value, zs@[i].value);
            }
        },
        _ => {},
    }
}

/// What each JSON-schema type name accepts: `number` every number, integer
/// or not; `integer` the numbers that are integers; `string`, `boolean`,
/// `object`, `array` and `null` their own kind. Each value has the type its
/// own type name says.
pub proof fn law_schema_type_names(v: JsonValue)
    ensures
        type_matches(v, "number"@) <==> v is Number,
        type_matches(v, "integer"@) <==> (v matches JsonValue::Number(n) && n.integer),
        type_matches(v, "integer"@) ==> type_matches(v, "number"@),
        type_matches(v, "string"@) <==> v is String,
        type_matches(v, "boolean"@) <==> v is Bool,
        type_matches(v, "object"@) <==> v is Object,
        type_matches(v, "array"@) <==> v is Array,
        type_matches(v, "null"@) <==> v is Null,
        type_matches(v, json_type_of(v)),
{
    reveal_strlit("string");
    reveal_strlit("boolean");
    reveal_strlit("integer");
    reveal_strlit("number");
    reveal_strlit("object");
    reveal_strlit("array");
    reveal_strlit("null");
    assert("string"@.len() != "boolean"@.len());
    assert("string"@.len() != "integer"@.len());
    assert("string"@[0] != "number"@[0]);
    assert("string"@[0] != "object"@[0]);
    assert("string"@.len() != "array"@.len());
    assert("string"@.len() != "null"@.len());
    assert("boolean"@[0] != "integer"@[0]);
    assert("boolean"@.len() != "number"@.len());
    assert("boolean"@.len() != "object"@.len());
    assert("boolean"@.len() != "array"@.len());
    assert("boolean"@.len() != "null"@.len());
    assert("integer"@.len() != "number"@.len());
    assert("integer"@.len() != "object"@.len());
    assert("integer"@.len() != "array"@.len());
    assert("integer"@.len() != "null"@.len());
    assert("number"@[0] != "object"@[0]);
    assert("number"@.len() != "array"@.len());
    assert("number"@.len() != "null"@.len());
    assert("object"@.len() != "array"@.len());
    assert("object"@.len() != "null"@.len());
    assert("array"@.len() != "null"@.len());
}

/// A type name the schema vocabulary does not know accepts every value.
pub proof fn law_unknown_type_name_accepts_all(v: JsonValue, other: Seq<char>)
    requires
        other != "string"@,
        other != "boolean"@,
        other != "integer"@,
        other != "number"@,
        other != "object"@,
        other != "array"@,
        other != "null"@,
    ensures
        type_matches(v, other),
{
}

/// Values of different JSON types are never the same; strings are the same
/// exactly when their texts are, booleans when equal, numbers when written
/// alike; arrays when of equal length with the same elements in turn, and
/// objects when of equal length with the same keys and values in turn.
pub proof fn law_json_same_compares_contents(a: JsonValue, b: JsonValue)
    ensures
        json_same(a, b) ==> json_type_of(a) == json_type_of(b),
        (a matches JsonValue::String(x) ==> (b matches JsonValue::String(y) ==> (json_same(a, b) <==> x@ == y@))),
        (a matches JsonValue::Bool(x) ==> (b matches JsonValue::Bool(y) ==> (json_same(a, b) <==> x == y))),
        (a matches JsonValue::Number(x) ==> (b matches JsonValue::Number(y) ==> (json_same(a, b) <==> (x.text@
            == y.text@ && x.integer == y.integer)))),
        (a matches JsonValue::Array(xs) ==> (b matches JsonValue::Array(ys) ==> (json_same(a, b) <==> (xs@.len()
            == ys@.len() && forall|i: int| 0 <= i < xs@.len() ==> json_same(#[trigger] xs@[i], ys@[i]))))),
        (a matches JsonValue::Object(xs) ==> (b matches JsonValue::Object(ys) ==> (json_same(a, b) <==> (xs@.len()
            == ys@.len() && forall|i: int| 0 <= i < xs@.len() ==> (#[trigger] xs@[i]).key@ == ys@[i].key@
            && json_same(xs@[i].value, ys@[i].value))))),
{
    reveal_strlit("integer");
    reveal_strlit("number");
    assert("integer"@.len() != "number"@.len());
}

} // verus!
