use vstd::prelude::*;
use crate::json::{
    JsonMember, JsonValue, find_member, has_key, json_get, json_type_of, law_schema_type_names,
    type_matches, contains_key,
    get, json_type, matches_json_type, member_value,
};
use crate::text::{
    chars_of, compare_chars, is_blank, join, join_strings, lemma_lt_from_irreflexive,
    lemma_str_lt_transitive, str_equal, str_is_blank, str_lt, views,
};
use crate::tools::{ToolCall, ToolSpec};

verus! {

/// The names of `entries`, in order.
pub open spec fn spec_names(entries: Seq<ToolSpec>) -> Seq<Seq<char>> {
    entries.map_values(|s: ToolSpec| s.name@)
}

/// The names of `entries` strictly increase.
pub open spec fn sorted_by_name(entries: Seq<ToolSpec>) -> bool {
    forall|i: int, j: int|
        #![trigger entries[i], entries[j]]
        0 <= i < j < entries.len() ==> str_lt(entries[i].name@, entries[j].name@)
}

/// `input[j]` is the last entry of `input` with its name.
pub open spec fn is_last_with_name(input: Seq<ToolSpec>, j: int) -> bool {
    0 <= j < input.len() && forall|k: int|
        j < k < input.len() ==> (#[trigger] input[k]).name@ != input[j].name@
}

/// `e` is, at some index from `m` on, the last entry of `input` with its name.
pub open spec fn last_entry_from(input: Seq<ToolSpec>, e: ToolSpec, m: int) -> bool {
    exists|j: int| m <= j && is_last_with_name(input, j) && input[j] == e
}

/// Some entry of `t` is named `name`.
pub open spec fn names_include(t: Seq<ToolSpec>, name: Seq<char>) -> bool {
    exists|i: int| 0 <= i < t.len() && t[i].name@ == name
}

/// `entries` is the table built from `input`: sorted by name, each entry
/// the last entry of `input` with its name, and every name of `input` present.
pub open spec fn table_of(input: Seq<ToolSpec>, entries: Seq<ToolSpec>) -> bool {
    &&& sorted_by_name(entries)
    &&& forall|i: int| 0 <= i < entries.len() ==> #[trigger] last_entry_from(input, entries[i], 0)
    &&& forall|j: int| 0 <= j < input.len() ==> #[trigger] names_include(entries, input[j].name@)
}

/// The first entry of `entries` named `name`.
pub open spec fn find_spec(entries: Seq<ToolSpec>, name: Seq<char>) -> Option<ToolSpec>
    decreases entries.len(),
{
    if entries.len() == 0 {
        None
    } else if entries[0].name@ == name {
        Some(entries[0])
    } else {
        find_spec(entries.drop_first(), name)
    }
}

/// Names listed under the schema's `required` that are strings and are
/// missing from `args`, in the order they are listed.
pub open spec fn required_missing(items: Seq<JsonValue>, args: Seq<JsonMember>) -> Seq<Seq<char>>
    decreases items.len(),
{
    if items.len() == 0 {
        Seq::empty()
    } else {
        let rest = required_missing(items.drop_last(), args);
        match items.last() {
            JsonValue::String(s) => if has_key(args, s@) {
                rest
            } else {
                rest.push(s@)
            },
            _ => rest,
        }
    }
}

/// The required arguments that `args` lacks under `schema`.
pub open spec fn missing_required(args: Seq<JsonMember>, schema: JsonValue) -> Seq<Seq<char>> {
    match json_get(schema, "required"@) {
        Some(JsonValue::Array(items)) => required_missing(items@, args),
        _ => Seq::empty(),
    }
}

/// Keys of `args` that `properties` does not declare, in order.
pub open spec fn undeclared_keys(args: Seq<JsonMember>, properties: Seq<JsonMember>) -> Seq<
    Seq<char>,
>
    decreases args.len(),
{
    if args.len() == 0 {
        Seq::empty()
    } else {
        let rest = undeclared_keys(args.drop_last(), properties);
        if has_key(properties, args.last().key@) {
            rest
        } else {
            rest.push(args.last().key@)
        }
    }
}

/// Arguments that `schema` forbids: those it does not declare, when it sets
/// `additionalProperties` to `false` and declares its `properties`.
pub open spec fn unknown_arguments(args: Seq<JsonMember>, schema: JsonValue) -> Seq<Seq<char>> {
    if json_get(schema, "additionalProperties"@) == Some(JsonValue::Bool(false)) {
        match json_get(schema, "properties"@) {
            Some(JsonValue::Object(properties)) => undeclared_keys(args, properties@),
            _ => Seq::empty(),
        }
    } else {
        Seq::empty()
    }
}

/// The type complaint for the argument `arg` under `properties`, if any.
pub open spec fn type_error(arg: JsonMember, properties: Seq<JsonMember>) -> Option<Seq<char>> {
    match find_member(properties, arg.key@) {
        Some(property) => match json_get(property, "type"@) {
            Some(JsonValue::String(expected)) => if type_matches(arg.value, expected@) {
                None
            } else {
                Some(arg.key@ + " must be "@ + expected@ + ", got "@ + json_type_of(arg.value))
            },
            _ => None,
        },
        None => None,
    }
}

/// Type complaints for `args` under `properties`, in argument order.
pub open spec fn type_errors_in(args: Seq<JsonMember>, properties: Seq<JsonMember>) -> Seq<
    Seq<char>,
>
    decreases args.len(),
{
    if args.len() == 0 {
        Seq::empty()
    } else {
        let rest = type_errors_in(args.drop_last(), properties);
        match type_error(args.last(), properties) {
            Some(e) => rest.push(e),
            None => rest,
        }
    }
}

/// Type complaints for `args` under `schema`.
pub open spec fn type_errors(args: Seq<JsonMember>, schema: JsonValue) -> Seq<Seq<char>> {
    match json_get(schema, "properties"@) {
        Some(JsonValue::Object(properties)) => type_errors_in(args, properties@),
        _ => Seq::empty(),
    }
}

/// The verdict on object arguments `args` under the parameter schema `schema`.
pub open spec fn check_arguments(args: Seq<JsonMember>, schema: JsonValue) -> Result<(), Seq<char>> {
    let missing = missing_required(args, schema);
    let extras = unknown_arguments(args, schema);
    let errors = type_errors(args, schema);
    if missing.len() > 0 {
        Err("missing required argument(s): "@ + join(missing, ", "@))
    } else if extras.len() > 0 {
        Err("unknown argument(s): "@ + join(extras, ", "@))
    } else if errors.len() > 0 {
        Err(join(errors, "; "@))
    } else {
        Ok(())
    }
}

/// The verdict on `call` against the tool table `entries`.
pub open spec fn spec_validate(entries: Seq<ToolSpec>, call: ToolCall) -> Result<(), Seq<char>> {
    if is_blank(call.name@) {
        Err("tool call is missing a name"@)
    } else {
        match find_spec(entries, call.name@) {
            None => Err("unknown tool `"@ + call.name@ + "`. Available tools: "@ + join(
                spec_names(entries),
                ", "@,
            )),
            Some(spec) => match call.arguments {
                JsonValue::Object(args) => check_arguments(args@, spec.parameters),
                _ => Err(
                    "tool arguments must be a JSON object; use {} when no arguments are required"@,
                ),
            },
        }
    }
}

/// A new string holding `s`.
pub fn owned(s: &str) -> (r: String)
    ensures
        r@ == s@,
{
    let mut r = String::new();
    r.append(s);
    r
}

/// Checks tool calls against the specs of the tools on offer.
pub struct ToolValidator {
    specs: Vec<ToolSpec>,
}

/// Where `name` stands in the name-sorted `table`: the first index whose
/// name is not before `name`, and whether that entry is named `name`.
fn name_position(table: &Vec<ToolSpec>, name: &str) -> (r: (usize, bool))
    requires
        sorted_by_name(table@),
    ensures
        r.0 <= table.len(),
        forall|i: int| 0 <= i < r.0 ==> str_lt((#[trigger] table@[i]).name@, name@),
        r.1 ==> r.0 < table.len() && table@[r.0 as int].name@ == name@,
        !r.1 ==> forall|i: int| r.0 <= i < table.len() ==> str_lt(name@, (#[trigger] table@[i]).name@),
{
    let target = chars_of(name);
    let mut pos: usize = 0;
    while pos < table.len()
        invariant
            target@ == name@,
            sorted_by_name(table@),
            pos <= table.len(),
            forall|i: int| 0 <= i < pos ==> str_lt((#[trigger] table@[i]).name@, name@),
        decreases table.len() - pos,
    {
        let here = chars_of(table[pos].name.as_str());
        let c = compare_chars(&here, &target);
        if c == 0 {
            return (pos, true);
        } else if c > 0 {
            assert forall|i: int| pos <= i < table.len() implies str_lt(
                name@,
                (#[trigger] table@[i]).name@,
            ) by {
                if i > pos {
                    assert(str_lt(table@[pos as int].name@, table@[i].name@));
                    lemma_str_lt_transitive(name@, table@[pos as int].name@, table@[i].name@);
                }
            }
            return (pos, false);
        }
        pos += 1;
    }
    (pos, false)
}

/// The table invariant of `ToolValidator::new` over the entries taken from `input[m..]`.
pub open spec fn table_from(input: Seq<ToolSpec>, t: Seq<ToolSpec>, m: int) -> bool {
    &&& forall|i: int| 0 <= i < t.len() ==> #[trigger] last_entry_from(input, t[i], m)
    &&& forall|j: int| m <= j < input.len() ==> #[trigger] names_include(t, input[j].name@)
}

/// Inserting a name between its neighbours keeps a name-sorted table sorted.
proof fn lemma_insert_sorted(old_table: Seq<ToolSpec>, spec: ToolSpec, pos: int)
    requires
        0 <= pos <= old_table.len(),
        sorted_by_name(old_table),
        forall|i: int| 0 <= i < pos ==> str_lt((#[trigger] old_table[i]).name@, spec.name@),
        forall|i: int|
            pos <= i < old_table.len() ==> str_lt(spec.name@, (#[trigger] old_table[i]).name@),
    ensures
        sorted_by_name(old_table.insert(pos, spec)),
{
    let t = old_table.insert(pos, spec);
    assert forall|i: int, j: int|
        #![trigger t[i], t[j]]
        0 <= i < j < t.len() implies str_lt(t[i].name@, t[j].name@) by {
        if j < pos {
            assert(t[i] == old_table[i] && t[j] == old_table[j]);
        } else if j == pos {
            assert(t[i] == old_table[i]);
        } else if i < pos {
            assert(t[i] == old_table[i] && t[j] == old_table[j - 1]);
            lemma_str_lt_transitive(t[i].name@, spec.name@, t[j].name@);
        } else if i == pos {
            assert(t[j] == old_table[j - 1]);
        } else {
            assert(t[i] == old_table[i - 1] && t[j] == old_table[j - 1]);
        }
    }
}

/// Inserting `input[m]` where `name_position` put it keeps the table
/// invariant of `ToolValidator::new` when `input[m]`'s name is not yet in it.
proof fn lemma_insert_keeps_table(input: Seq<ToolSpec>, old_table: Seq<ToolSpec>, m: int, pos: int)
    requires
        0 <= m < input.len(),
        0 <= pos <= old_table.len(),
        sorted_by_name(old_table),
        table_from(input, old_table, m + 1),
        forall|i: int| 0 <= i < pos ==> str_lt((#[trigger] old_table[i]).name@, input[m].name@),
        forall|i: int|
            pos <= i < old_table.len() ==> str_lt(input[m].name@, (#[trigger] old_table[i]).name@),
    ensures
        table_from(input, old_table.insert(pos, input[m]), m),
        sorted_by_name(old_table.insert(pos, input[m])),
{
    let spec = input[m];
    let t = old_table.insert(pos, spec);
    lemma_insert_sorted(old_table, spec, pos);
    assert forall|i: int| 0 <= i < old_table.len() implies (#[trigger] old_table[i]).name@
        != spec.name@ by {
        lemma_lt_from_irreflexive(spec.name@, 0);
    }
    assert(is_last_with_name(input, m)) by {
        assert forall|k: int| m < k < input.len() implies (#[trigger] input[k]).name@
            != input[m].name@ by {
            assert(names_include(old_table, input[k].name@));
            let i = choose|i: int| 0 <= i < old_table.len() && old_table[i].name@ == input[k].name@;
            assert(old_table[i].name@ != spec.name@);
        }
    }
    assert forall|i: int| 0 <= i < t.len() implies #[trigger] last_entry_from(input, t[i], m) by {
        if i < pos {
            assert(t[i] == old_table[i]);
            assert(last_entry_from(input, old_table[i], m + 1));
            let j = choose|j: int| m + 1 <= j && is_last_with_name(input, j) && input[j] == old_table[i];
            assert(m <= j && is_last_with_name(input, j) && input[j] == t[i]);
        } else if i == pos {
            assert(m <= m && is_last_with_name(input, m) && input[m] == t[i]);
        } else {
            assert(t[i] == old_table[i - 1]);
            assert(last_entry_from(input, old_table[i - 1], m + 1));
            let j = choose|j: int| m + 1 <= j && is_last_with_name(input, j) && input[j] == old_table[i - 1];
            assert(m <= j && is_last_with_name(input, j) && input[j] == t[i]);
        }
    }
    assert forall|j: int| m <= j < input.len() implies #[trigger] names_include(t, input[j].name@) by {
        if j == m {
            assert(0 <= pos < t.len() && t[pos].name@ == input[j].name@);
        } else {
            assert(names_include(old_table, input[j].name@));
            let i = choose|i: int| 0 <= i < old_table.len() && old_table[i].name@ == input[j].name@;
            if i < pos {
                assert(0 <= i < t.len() && t[i].name@ == input[j].name@);
            } else {
                assert(0 <= i + 1 < t.len() && t[i + 1].name@ == input[j].name@);
            }
        }
    }
}

/// Seeing `input[m]` again under a name already in the table keeps the invariant.
proof fn lemma_seen_keeps_table(input: Seq<ToolSpec>, t: Seq<ToolSpec>, m: int, pos: int)
    requires
        0 <= m < input.len(),
        0 <= pos < t.len(),
        table_from(input, t, m + 1),
        t[pos].name@ == input[m].name@,
    ensures
        table_from(input, t, m),
{
    assert forall|i: int| 0 <= i < t.len() implies #[trigger] last_entry_from(input, t[i], m) by {
        assert(last_entry_from(input, t[i], m + 1));
        let j = choose|j: int| m + 1 <= j && is_last_with_name(input, j) && input[j] == t[i];
        assert(m <= j && is_last_with_name(input, j) && input[j] == t[i]);
    }
    assert forall|j: int| m <= j < input.len() implies #[trigger] names_include(t, input[j].name@) by {
        if j == m {
            assert(0 <= pos < t.len() && t[pos].name@ == input[j].name@);
        } else {
            assert(names_include(t, input[j].name@));
        }
    }
}

impl ToolValidator {
    /// The tool table, sorted by name.
    pub closed spec fn entries(self) -> Seq<ToolSpec> {
        self.specs@
    }

    /// Builds the table of `specs`; a later spec replaces an earlier one of the same name.
    pub fn new(specs: Vec<ToolSpec>) -> (v: Self)
        ensures
            table_of(specs@, v.entries()),
    {
        let ghost input = specs@;
        let n = specs.len();
        let mut rest = specs;
        let mut table: Vec<ToolSpec> = Vec::new();
        while rest.len() > 0
            invariant
                n == input.len(),
                rest.len() <= n,
                rest@ == input.take(rest.len() as int),
                sorted_by_name(table@),
                table_from(input, table@, rest.len() as int),
            decreases rest.len(),
        {
            let ghost m = rest.len() - 1;
            let spec = rest.pop().unwrap();
            assert(spec == input[m]);
            assert(rest@ =~= input.take(m));
            let (pos, found) = name_position(&table, spec.name.as_str());
            if found {
                proof {
                    lemma_seen_keeps_table(input, table@, m, pos as int);
                }
            } else {
                let ghost old_table = table@;
                table.insert(pos, spec);
                proof {
                    assert(table@ =~= old_table.insert(pos as int, spec));
                    lemma_insert_keeps_table(input, old_table, m, pos as int);
                }
            }
        }
        assert(table_of(input, table@));
        ToolValidator { specs: table }
    }

    /// The first table entry named `name`.
    fn find(&self, name: &str) -> (r: Option<&ToolSpec>)
        ensures
            match r {
                Some(s) => find_spec(self.entries(), name@) == Some(*s),
                None => find_spec(self.entries(), name@) is None,
            },
    {
        let mut i: usize = 0;
        assert(self.specs@.skip(0) =~= self.specs@);
        while i < self.specs.len()
            invariant
                i <= self.specs.len(),
                find_spec(self.entries(), name@) == find_spec(self.specs@.skip(i as int), name@),
            decreases self.specs.len() - i,
        {
            assert(self.specs@.skip(i as int).drop_first() =~= self.specs@.skip(i + 1));
            if str_equal(self.specs[i].name.as_str(), name) {
                return Some(&self.specs[i]);
            }
            i += 1;
        }
        None
    }

    /// The names of the tools on offer, in order, separated by `, `.
    fn available_tools(&self) -> (r: String)
        ensures
            r@ == join(spec_names(self.entries()), ", "@),
    {
        let mut names: Vec<String> = Vec::new();
        let mut i: usize = 0;
        while i < self.specs.len()
            invariant
                i <= self.specs.len(),
                views(names@) == spec_names(self.specs@.take(i as int)),
            decreases self.specs.len() - i,
        {
            let ghost before = names@;
            let name = self.specs[i].name.clone();
            names.push(name);
            proof {
                assert(names@ == before.push(name));
                assert(views(names@) =~= views(before).push(self.specs@[i as int].name@));
                assert(self.specs@.take(i + 1) =~= self.specs@.take(i as int).push(self.specs@[i as int]));
                assert(spec_names(self.specs@.take(i + 1)) =~= spec_names(self.specs@.take(i as int)).push(self.specs@[i as int].name@));
            }
            i += 1;
        }
        assert(self.specs@.take(self.specs.len() as int) =~= self.specs@);
        join_strings(&names, ", ")
    }

    /// Checks `call`: it must name a tool on offer, pass an object of
    /// arguments, give every required argument, give no argument the schema
    /// forbids, and give each declared argument a value of its declared type.
    pub fn validate(&self, call: &ToolCall) -> (r: Result<(), String>)
        ensures
            match r {
                Ok(_) => spec_validate(self.entries(), *call) is Ok,
                Err(e) => spec_validate(self.entries(), *call) == Err::<(), Seq<char>>(e@),
            },
    {
        if str_is_blank(call.name.as_str()) {
            return Err(owned("tool call is missing a name"));
        }
        let spec = match self.find(call.name.as_str()) {
            Some(spec) => spec,
            None => {
                let mut message = owned("unknown tool `");
                message.append(call.name.as_str());
                message.append("`. Available tools: ");
                let available = self.available_tools();
                message.append(available.as_str());
                return Err(message);
            },
        };
        let args = match &call.arguments {
            JsonValue::Object(members) => members,
            _ => {
                return Err(
                    owned(
                        "tool arguments must be a JSON object; use {} when no arguments are required",
                    ),
                );
            },
        };
        validate_arguments(args, &spec.parameters)
    }
}

/// Checks object arguments `args` against the parameter schema `schema`.
pub fn validate_arguments(args: &Vec<JsonMember>, schema: &JsonValue) -> (r: Result<(), String>)
    ensures
        match r {
            Ok(_) => check_arguments(args@, *schema) is Ok,
            Err(e) => check_arguments(args@, *schema) == Err::<(), Seq<char>>(e@),
        },
{
    let missing = missing_required_names(args, schema);
    if missing.len() > 0 {
        let mut message = owned("missing required argument(s): ");
        let joined = join_strings(&missing, ", ");
        message.append(joined.as_str());
        return Err(message);
    }
    let extras = unknown_argument_names(args, schema);
    if extras.len() > 0 {
        let mut message = owned("unknown argument(s): ");
        let joined = join_strings(&extras, ", ");
        message.append(joined.as_str());
        return Err(message);
    }
    let errors = argument_type_errors(args, schema);
    if errors.len() > 0 {
        return Err(join_strings(&errors, "; "));
    }
    Ok(())
}

/// The required arguments that `args` lacks under `schema`.
fn missing_required_names(args: &Vec<JsonMember>, schema: &JsonValue) -> (r: Vec<String>)
    ensures
        views(r@) == missing_required(args@, *schema),
{
    let mut missing: Vec<String> = Vec::new();
    match get(schema, "required") {
        Some(JsonValue::Array(items)) => {
            let mut i: usize = 0;
            while i < items.len()
                invariant
                    i <= items.len(),
                    views(missing@) == required_missing(items@.take(i as int), args@),
                decreases items.len() - i,
            {
                let ghost before = items@.take(i as int);
                assert(items@.take(i + 1).drop_last() =~= before);
                match &items[i] {
                    JsonValue::String(name) => {
                        if !contains_key(args, name.as_str()) {
                            missing.push(name.clone());
                        }
                    },
                    _ => {},
                }
                i += 1;
                assert(views(missing@) =~= required_missing(items@.take(i as int), args@));
            }
            assert(items@.take(items.len() as int) =~= items@);
        },
        _ => {},
    }
    missing
}

/// The arguments `schema` forbids in `args`.
fn unknown_argument_names(args: &Vec<JsonMember>, schema: &JsonValue) -> (r: Vec<String>)
    ensures
        views(r@) == unknown_arguments(args@, *schema),
{
    let mut extras: Vec<String> = Vec::new();
    let closed = match get(schema, "additionalProperties") {
        Some(JsonValue::Bool(b)) => !*b,
        _ => false,
    };
    if !closed {
        return extras;
    }
    match get(schema, "properties") {
        Some(JsonValue::Object(properties)) => {
            let mut i: usize = 0;
            while i < args.len()
                invariant
                    i <= args.len(),
                    views(extras@) == undeclared_keys(args@.take(i as int), properties@),
                decreases args.len() - i,
            {
                assert(args@.take(i + 1).drop_last() =~= args@.take(i as int));
                if !contains_key(properties, args[i].key.as_str()) {
                    extras.push(args[i].key.clone());
                }
                i += 1;
                assert(views(extras@) =~= undeclared_keys(args@.take(i as int), properties@));
            }
            assert(args@.take(args.len() as int) =~= args@);
        },
        _ => {},
    }
    extras
}

/// The type complaint for `arg` under `properties`, if any.
fn argument_type_error(arg: &JsonMember, properties: &Vec<JsonMember>) -> (r: Option<String>)
    ensures
        match r {
            Some(e) => type_error(*arg, properties@) == Some(e@),
            None => type_error(*arg, properties@) is None,
        },
{
    let property = match member_value(properties, arg.key.as_str()) {
        Some(p) => p,
        None => {
            return None;
        },
    };
    let expected = match get(property, "type") {
        Some(JsonValue::String(t)) => t,
        _ => {
            return None;
        },
    };
    if matches_json_type(&arg.value, expected.as_str()) {
        return None;
    }
    let mut message = arg.key.clone();
    message.append(" must be ");
    message.append(expected.as_str());
    message.append(", got ");
    message.append(json_type(&arg.value));
    Some(message)
}

/// Type complaints for `args` under `schema`, in argument order.
fn argument_type_errors(args: &Vec<JsonMember>, schema: &JsonValue) -> (r: Vec<String>)
    ensures
        views(r@) == type_errors(args@, *schema),
{
    let mut errors: Vec<String> = Vec::new();
    match get(schema, "properties") {
        Some(JsonValue::Object(properties)) => {
            let mut i: usize = 0;
            while i < args.len()
                invariant
                    i <= args.len(),
                    views(errors@) == type_errors_in(args@.take(i as int), properties@),
                decreases args.len() - i,
            {
                assert(args@.take(i + 1).drop_last() =~= args@.take(i as int));
                match argument_type_error(&args[i], properties) {
                    Some(e) => errors.push(e),
                    None => {},
                }
                i += 1;
                assert(views(errors@) =~= type_errors_in(args@.take(i as int), properties@));
            }
            assert(args@.take(args.len() as int) =~= args@);
        },
        _ => {},
    }
    errors
}

/// What `find_spec` returns is an entry with the name asked for, and it
/// returns one whenever some entry has that name.
pub proof fn lemma_find_spec(entries: Seq<ToolSpec>, name: Seq<char>)
    ensures
        find_spec(entries, name) matches Some(s) ==> exists|i: int|
            0 <= i < entries.len() && entries[i] == s && s.name@ == name,
        names_include(entries, name) ==> find_spec(entries, name) is Some,
    decreases entries.len(),
{
    if entries.len() > 0 {
        let rest = entries.drop_first();
        lemma_find_spec(rest, name);
        if entries[0].name@ != name {
            if let Some(s) = find_spec(rest, name) {
                let i = choose|i: int| 0 <= i < rest.len() && rest[i] == s && s.name@ == name;
                assert(entries[i + 1] == s);
            }
            if names_include(entries, name) {
                let i = choose|i: int| 0 <= i < entries.len() && entries[i].name@ == name;
                assert(rest[i - 1].name@ == name);
            }
        }
    }
}

/// Looking a name up in the table built from `input` finds a spec exactly
/// when `input` has one of that name, and it is the last such spec of `input`.
pub proof fn law_lookup_finds_last_spec(input: Seq<ToolSpec>, entries: Seq<ToolSpec>, name: Seq<char>)
    requires
        table_of(input, entries),
    ensures
        find_spec(entries, name) is Some <==> exists|j: int| 0 <= j < input.len() && (#[trigger] input[j]).name@ == name,
        find_spec(entries, name) matches Some(s) ==> exists|j: int|
            is_last_with_name(input, j) && input[j] == s && s.name@ == name,
{
    lemma_find_spec(entries, name);
    if let Some(s) = find_spec(entries, name) {
        let i = choose|i: int| 0 <= i < entries.len() && entries[i] == s && s.name@ == name;
        assert(last_entry_from(input, entries[i], 0));
        let j = choose|j: int| 0 <= j && is_last_with_name(input, j) && input[j] == entries[i];
        assert(0 <= j < input.len() && input[j].name@ == name);
    }
    if exists|j: int| 0 <= j < input.len() && (#[trigger] input[j]).name@ == name {
        let j = choose|j: int| 0 <= j < input.len() && (#[trigger] input[j]).name@ == name;
        assert(names_include(entries, input[j].name@));
    }
}

/// No required name is reported missing exactly when `args` holds every
/// required name that is a string.
pub proof fn lemma_required_missing_empty(items: Seq<JsonValue>, args: Seq<JsonMember>)
    ensures
        required_missing(items, args).len() == 0 <==> forall|i: int|
            0 <= i < items.len() ==> (#[trigger] items[i] matches JsonValue::String(k) ==> has_key(args, k@)),
    decreases items.len(),
{
    if items.len() > 0 {
        let init = items.drop_last();
        lemma_required_missing_empty(init, args);
        assert forall|i: int| 0 <= i < init.len() implies #[trigger] init[i] == items[i] by {}
        let last = items.last();
        assert(items[items.len() - 1] == last);
        if required_missing(items, args).len() == 0 {
            assert(required_missing(init, args).len() == 0);
            assert forall|i: int| 0 <= i < items.len() implies (#[trigger] items[i] matches JsonValue::String(k) ==> has_key(args, k@)) by {
                if i < init.len() {
                    assert(init[i] == items[i]);
                }
            }
        }
    }
}

/// No argument is reported undeclared exactly when every key of `args` is declared.
pub proof fn lemma_undeclared_keys_empty(args: Seq<JsonMember>, properties: Seq<JsonMember>)
    ensures
        undeclared_keys(args, properties).len() == 0 <==> forall|i: int|
            0 <= i < args.len() ==> has_key(properties, (#[trigger] args[i]).key@),
    decreases args.len(),
{
    if args.len() > 0 {
        let init = args.drop_last();
        lemma_undeclared_keys_empty(init, properties);
        assert forall|i: int| 0 <= i < init.len() implies #[trigger] init[i] == args[i] by {}
        assert(args[args.len() - 1] == args.last());
        if undeclared_keys(args, properties).len() == 0 {
            assert(undeclared_keys(init, properties).len() == 0);
            assert forall|i: int| 0 <= i < args.len() implies has_key(properties, (#[trigger] args[i]).key@) by {
                if i < init.len() {
                    assert(init[i] == args[i]);
                }
            }
        }
    }
}

/// No type complaint is made exactly when each argument passes its declared type.
pub proof fn lemma_type_errors_empty(args: Seq<JsonMember>, properties: Seq<JsonMember>)
    ensures
        type_errors_in(args, properties).len() == 0 <==> forall|i: int|
            0 <= i < args.len() ==> type_error(#[trigger] args[i], properties) is None,
    decreases args.len(),
{
    if args.len() > 0 {
        let init = args.drop_last();
        lemma_type_errors_empty(init, properties);
        assert forall|i: int| 0 <= i < init.len() implies #[trigger] init[i] == args[i] by {}
        assert(args[args.len() - 1] == args.last());
        if type_errors_in(args, properties).len() == 0 {
            assert(type_errors_in(init, properties).len() == 0);
            assert forall|i: int| 0 <= i < args.len() implies type_error(#[trigger] args[i], properties) is None by {
                if i < init.len() {
                    assert(init[i] == args[i]);
                }
            }
        }
    }
}

/// Object arguments `args` meet the parameter schema `schema`: every required
/// name is given, only declared names are given when the schema closes them,
/// and each declared argument has its declared type.
pub open spec fn meets_schema(args: Seq<JsonMember>, schema: JsonValue) -> bool {
    &&& (json_get(schema, "required"@) matches Some(JsonValue::Array(items))
        ==> forall|i: int| 0 <= i < items@.len()
            ==> (#[trigger] items@[i] matches JsonValue::String(k) ==> has_key(args, k@)))
    &&& (json_get(schema, "additionalProperties"@) == Some(JsonValue::Bool(false))
        ==> (json_get(schema, "properties"@) matches Some(JsonValue::Object(properties))
        ==> forall|i: int| 0 <= i < args.len() ==> has_key(properties@, (#[trigger] args[i]).key@)))
    &&& (json_get(schema, "properties"@) matches Some(JsonValue::Object(properties))
        ==> forall|i: int| 0 <= i < args.len() ==> type_error(#[trigger] args[i], properties@) is None)
}

/// Object arguments pass the checks exactly when they meet the schema.
pub proof fn lemma_check_arguments_ok(args: Seq<JsonMember>, schema: JsonValue)
    ensures
        check_arguments(args, schema) is Ok <==> meets_schema(args, schema),
{
    if let Some(JsonValue::Array(items)) = json_get(schema, "required"@) {
        lemma_required_missing_empty(items@, args);
    }
    if let Some(JsonValue::Object(properties)) = json_get(schema, "properties"@) {
        lemma_undeclared_keys_empty(args, properties@);
        lemma_type_errors_empty(args, properties@);
    }
}

/// A call passes validation exactly when it has a name, names a tool of the
/// table, passes an object of arguments, and those arguments meet the tool's
/// schema: every required argument given, only declared arguments when the
/// schema closes them, and each declared argument of its declared type.
pub proof fn law_validation_accepts_exactly_conforming_calls(entries: Seq<ToolSpec>, call: ToolCall)
    ensures
        spec_validate(entries, call) is Ok <==> {
            &&& !is_blank(call.name@)
            &&& find_spec(entries, call.name@) is Some
            &&& call.arguments is Object
            &&& meets_schema(call.arguments->Object_0@, find_spec(entries, call.name@).unwrap().parameters)
        },
{
    if let Some(spec) = find_spec(entries, call.name@) {
        if let JsonValue::Object(args) = call.arguments {
            lemma_check_arguments_ok(args@, spec.parameters);
        }
    }
}

/// An argument declared with type `number` draws no type complaint for any
/// JSON number, integer or not; one declared `integer` draws a complaint
/// exactly when its value is not an integer number.
pub proof fn law_numeric_arguments(arg: JsonMember, properties: Seq<JsonMember>, property: JsonValue, t: String)
    requires
        find_member(properties, arg.key@) == Some(property),
        json_get(property, "type"@) == Some(JsonValue::String(t)),
    ensures
        t@ == "number"@ && arg.value is Number ==> type_error(arg, properties) is None,
        t@ == "integer"@ ==> (type_error(arg, properties) is None <==> (arg.value matches JsonValue::Number(n) && n.integer)),
{
    law_schema_type_names(arg.value);
}

} // verus!
