use vstd::prelude::*;
use crate::policy::MAX_TOOL_OUTPUT_BYTES;
use crate::text::{char_width, chars_of, lemma_utf8_len_concat, lemma_utf8_len_take_push, utf8_len_within, str_equal, string_from_chars, utf8_len, utf8_width};
use crate::tools::{ToolCall, ToolResult};

verus! {

/// Names of the tools that only read, and so may run side by side.
pub open spec fn parallel_safe_names() -> Seq<Seq<char>> {
    seq![
        "read_file"@,
        "list_dir"@,
        "grep_files"@,
        "search"@,
        "web_search"@,
        "fetch"@,
        "view_image"@,
        "show_image"@,
        "list_skills"@,
        "read_skill"@,
        "memory_list"@,
        "memory_read"@,
        "memory_search"@,
        "get_loop"@,
    ]
}

/// A call of this name may run side by side with others.
pub open spec fn is_parallel_safe_name(name: Seq<char>) -> bool {
    parallel_safe_names().contains(name)
}

/// Whether `call` may run side by side with other read-only calls.
pub fn is_parallel_safe(call: &ToolCall) -> (r: bool)
    ensures
        r == is_parallel_safe_name(call.name@),
{
    let name = call.name.as_str();
    let r = str_equal(name, "read_file") || str_equal(name, "list_dir") || str_equal(
        name,
        "grep_files",
    ) || str_equal(name, "search") || str_equal(name, "web_search") || str_equal(name, "fetch")
        || str_equal(name, "view_image") || str_equal(name, "show_image") || str_equal(
        name,
        "list_skills",
    ) || str_equal(name, "read_skill") || str_equal(name, "memory_list") || str_equal(
        name,
        "memory_read",
    ) || str_equal(name, "memory_search") || str_equal(name, "get_loop");
    proof {
        let names = parallel_safe_names();
        if r {
            if call.name@ == "read_file"@ { assert(names[0] == call.name@); }
            if call.name@ == "list_dir"@ { assert(names[1] == call.name@); }
            if call.name@ == "grep_files"@ { assert(names[2] == call.name@); }
            if call.name@ == "search"@ { assert(names[3] == call.name@); }
            if call.name@ == "web_search"@ { assert(names[4] == call.name@); }
            if call.name@ == "fetch"@ { assert(names[5] == call.name@); }
            if call.name@ == "view_image"@ { assert(names[6] == call.name@); }
            if call.name@ == "show_image"@ { assert(names[7] == call.name@); }
            if call.name@ == "list_skills"@ { assert(names[8] == call.name@); }
            if call.name@ == "read_skill"@ { assert(names[9] == call.name@); }
            if call.name@ == "memory_list"@ { assert(names[10] == call.name@); }
            if call.name@ == "memory_read"@ { assert(names[11] == call.name@); }
            if call.name@ == "memory_search"@ { assert(names[12] == call.name@); }
            if call.name@ == "get_loop"@ { assert(names[13] == call.name@); }
        } else {
            assert forall|i: int| 0 <= i < names.len() implies names[i] != call.name@ by {
            }
        }
    }
    r
}

/// The marker appended to an output that was cut short.
pub open spec fn truncation_marker() -> Seq<char> {
    "\n[tool output truncated]"@
}

/// How many leading characters of `s` fit in `budget` UTF-8 bytes.
pub open spec fn fitting_chars(s: Seq<char>, budget: int) -> nat
    decreases s.len(),
{
    if s.len() == 0 || char_width(s[0]) > budget {
        0
    } else {
        1 + fitting_chars(s.drop_first(), budget - char_width(s[0]))
    }
}

/// The output kept for `output`: unchanged when it fits in `max` bytes,
/// otherwise its longest character prefix that fits, followed by the marker.
pub open spec fn trimmed_output(output: Seq<char>, max: nat) -> Seq<char> {
    if utf8_len(output) <= max {
        output
    } else {
        output.take(fitting_chars(output, max as int) as int) + truncation_marker()
    }
}

/// No more characters fit than there are.
pub proof fn lemma_fitting_chars_bound(s: Seq<char>, budget: int)
    ensures
        fitting_chars(s, budget) <= s.len(),
    decreases s.len(),
{
    if s.len() > 0 && char_width(s[0]) <= budget {
        lemma_fitting_chars_bound(s.drop_first(), budget - char_width(s[0]));
    }
}

/// A character put in front adds its width to the byte length.
pub proof fn lemma_utf8_len_prepend(c: char, s: Seq<char>)
    ensures
        utf8_len(seq![c] + s) == char_width(c) + utf8_len(s),
{
    let t = seq![c] + s;
    assert(t.drop_first() =~= s);
    assert(t[0] == c);
}

/// `fitting_chars` is the first count whose next character would not fit.
pub proof fn lemma_fitting_chars_stop(s: Seq<char>, budget: int, k: int)
    requires
        0 <= k <= s.len(),
        utf8_len(s.take(k)) <= budget,
        k == s.len() || utf8_len(s.take(k)) + char_width(s[k]) > budget,
        forall|j: int| 0 <= j < k ==> utf8_len(#[trigger] s.take(j + 1)) <= budget,
    ensures
        fitting_chars(s, budget) == k,
    decreases k,
{
    let t = s.drop_first();
    if k == 0 {
        if s.len() > 0 {
            assert(s.take(0) =~= Seq::<char>::empty());
            assert(vstd::utf8::encode_utf8(Seq::<char>::empty()) =~= Seq::<u8>::empty());
        }
    } else {
        let w = char_width(s[0]);
        assert(s.take(1) =~= seq![s[0]]);
        lemma_utf8_len_prepend(s[0], Seq::<char>::empty());
        assert(seq![s[0]] + Seq::<char>::empty() =~= seq![s[0]]);
        assert(vstd::utf8::encode_utf8(Seq::<char>::empty()) =~= Seq::<u8>::empty());
        assert(utf8_len(s.take(0int + 1)) <= budget);
        assert(s.take(k) =~= seq![s[0]] + t.take(k - 1));
        lemma_utf8_len_prepend(s[0], t.take(k - 1));
        assert forall|j: int| 0 <= j < k - 1 implies utf8_len(#[trigger] t.take(j + 1)) <= budget - w by {
            assert(s.take(j + 2) =~= seq![s[0]] + t.take(j + 1));
            lemma_utf8_len_prepend(s[0], t.take(j + 1int));
            assert(utf8_len(s.take((j + 1) + 1)) <= budget);
        }
        if k < s.len() {
            assert(t[k - 1] == s[k]);
        }
        lemma_fitting_chars_stop(t, budget - w, k - 1);
    }
}

/// A prefix is no longer in bytes than the whole.
pub proof fn lemma_utf8_len_prefix_le(s: Seq<char>, k: int)
    requires
        0 <= k <= s.len(),
    ensures
        utf8_len(s.take(k)) <= utf8_len(s),
    decreases s.len() - k,
{
    if k < s.len() {
        lemma_utf8_len_take_push(s, k);
        lemma_utf8_len_prefix_le(s, k + 1);
    } else {
        assert(s.take(k) =~= s);
    }
}

/// Cuts `value` to its longest character prefix of at most `max_bytes` UTF-8 bytes.
fn truncate_at_char_boundary(value: &mut String, max_bytes: usize)
    ensures
        final(value)@ == old(value)@.take(fitting_chars(old(value)@, max_bytes as int) as int),
{
    let chars = chars_of(value.as_str());
    let mut k: usize = 0;
    let mut used: usize = 0;
    while k < chars.len() && utf8_width(chars[k]) <= max_bytes - used
        invariant
            chars@ == old(value)@,
            k <= chars.len(),
            used == utf8_len(chars@.take(k as int)),
            used <= max_bytes,
            forall|j: int| 0 <= j < k ==> utf8_len(#[trigger] chars@.take(j + 1)) <= max_bytes,
        decreases chars.len() - k,
    {
        let w = utf8_width(chars[k]);
        proof {
            lemma_utf8_len_take_push(chars@, k as int);
        }
        used = used + w;
        k = k + 1;
    }
    proof {
        if k < chars.len() {
            lemma_utf8_len_take_push(chars@, k as int);
        }
        lemma_fitting_chars_stop(chars@, max_bytes as int, k as int);
    }
    *value = string_from_chars(&chars, 0, k);
}

/// `result` with its output cut to the policy's byte limit at a character
/// boundary and marked as truncated, when it is longer than that limit.
pub fn trim_tool_result(result: ToolResult) -> (r: ToolResult)
    ensures
        r.output@ == trimmed_output(result.output@, MAX_TOOL_OUTPUT_BYTES as nat),
        r.success == result.success,
        r.images == result.images,
        r.plan == result.plan,
        r.loop_state == result.loop_state,
        r.additional_context == result.additional_context,
{
    let mut result = result;
    if utf8_len_within(result.output.as_str(), MAX_TOOL_OUTPUT_BYTES).is_some() {
        return result;
    }
    truncate_at_char_boundary(&mut result.output, MAX_TOOL_OUTPUT_BYTES);
    result.output.append("\n[tool output truncated]");
    result
}

/// The characters counted by `fitting_chars` fit in the budget, and one more would not.
pub proof fn lemma_fitting_chars_fit(s: Seq<char>, budget: int)
    requires
        budget >= 0,
    ensures
        utf8_len(s.take(fitting_chars(s, budget) as int)) <= budget,
        fitting_chars(s, budget) < s.len() ==> utf8_len(s.take(fitting_chars(s, budget) + 1int)) > budget,
    decreases s.len(),
{
    let k = fitting_chars(s, budget);
    if s.len() == 0 || char_width(s[0]) > budget {
        assert(s.take(0) =~= Seq::<char>::empty());
        assert(vstd::utf8::encode_utf8(Seq::<char>::empty()) =~= Seq::<u8>::empty());
        if s.len() > 0 {
            assert(s.take(1) =~= seq![s[0]] + Seq::<char>::empty());
            lemma_utf8_len_prepend(s[0], Seq::<char>::empty());
        }
    } else {
        let t = s.drop_first();
        let w = char_width(s[0]);
        lemma_fitting_chars_fit(t, budget - w);
        let j = fitting_chars(t, budget - w);
        lemma_fitting_chars_bound(t, budget - w);
        assert(k == j + 1);
        assert(s.take(k as int) =~= seq![s[0]] + t.take(j as int));
        lemma_utf8_len_prepend(s[0], t.take(j as int));
        if k < s.len() {
            assert(s.take(k + 1int) =~= seq![s[0]] + t.take(j + 1int));
            lemma_utf8_len_prepend(s[0], t.take(j + 1int));
        }
    }
}

/// An output over the limit is cut to the longest character prefix that fits
/// in `max` bytes, and the marker follows; the whole is at most `max` bytes
/// plus the marker's.
pub proof fn law_truncation_keeps_longest_fitting_prefix(output: Seq<char>, max: nat)
    requires
        utf8_len(output) > max,
    ensures
        ({
            let k = fitting_chars(output, max as int);
            &&& k < output.len()
            &&& trimmed_output(output, max) == output.take(k as int) + truncation_marker()
            &&& utf8_len(output.take(k as int)) <= max
            &&& utf8_len(output.take(k + 1int)) > max
            &&& utf8_len(trimmed_output(output, max)) <= max + utf8_len(truncation_marker())
        }),
{
    let k = fitting_chars(output, max as int);
    lemma_fitting_chars_fit(output, max as int);
    lemma_fitting_chars_bound(output, max as int);
    if k == output.len() {
        assert(output.take(k as int) =~= output);
    }
    lemma_utf8_len_concat(output.take(k as int), truncation_marker());
}

/// An output within the limit is kept unchanged.
pub proof fn law_short_output_unchanged(output: Seq<char>, max: nat)
    requires
        utf8_len(output) <= max,
    ensures
        trimmed_output(output, max) == output,
{
}

} // verus!
