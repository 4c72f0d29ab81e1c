use vstd::prelude::*;
use std::path::{Path, PathBuf};
use crate::paths::{as_path, is_plain_component, path_buf_components, path_components, path_join};
use crate::text::{
    ascii_lower_char, chars_of, is_blank, is_whitespace, is_whitespace_char, str_is_blank,
    string_from_chars, to_ascii_lower_char, trim, trim_end, trim_start, trimmed,
};
use crate::tool_validation::owned;

verus! {

/// Where the provider registry lives under the home directory `home`:
/// `<home>/config/providers.json`.
pub fn providers_path(home: &Path) -> (r: PathBuf)
    ensures
        path_buf_components(r) == path_components(home).push(vstd::utf8::encode_utf8("config"@)).push(
            vstd::utf8::encode_utf8("providers.json"@),
        ),
{
    proof {
        reveal_strlit("config");
        reveal_strlit("providers.json");
        reveal_strlit(".");
        reveal_strlit("..");
        assert(is_plain_component("config"@));
        assert(is_plain_component("providers.json"@));
    }
    let config = path_join(home, "config");
    path_join(as_path(&config), "providers.json")
}

/// The provider that first-time setup creates.
pub struct FirstProvider {
    /// The provider's id, which also becomes the active provider.
    pub id: String,
    pub display: String,
    pub provider_type: String,
    pub tool_protocol: Option<String>,
    pub base_url: String,
    pub model: String,
    pub fast_model: Option<String>,
    pub api_key: String,
}

/// The protocol offered when none is typed.
pub open spec fn default_protocol() -> Seq<char> {
    "openai_compatible"@
}

/// The service address offered when none is typed.
pub open spec fn default_base_url() -> Seq<char> {
    "https://api.openai.com/v1"@
}

/// The id made from the typed id answer: sanitized, `default` when blank.
pub open spec fn spec_first_provider_id(raw_id: Seq<char>) -> Seq<char> {
    spec_sanitize_id(spec_prompt_default(raw_id, "default"@))
}

/// The id that setup makes from the typed id answer `raw_id`.
pub fn first_provider_id(raw_id: String) -> (r: String)
    ensures
        r@ == spec_first_provider_id(raw_id@),
{
    let answer = prompt_default(raw_id, "default");
    sanitize_id(answer.as_str())
}

/// The first provider made from the setup answers as typed (each trimmed):
/// the id sanitized (`default` when blank), the display name defaulting to
/// the id, the protocol to `openai_compatible` and used both as provider type
/// and tool protocol, the address to `https://api.openai.com/v1`, and a blank
/// fast model left out.
pub fn first_provider(
    raw_id: String,
    display: String,
    protocol: String,
    base_url: String,
    model: String,
    fast_model: String,
    api_key: String,
) -> (p: FirstProvider)
    ensures
        p.id@ == spec_first_provider_id(raw_id@),
        p.display@ == spec_prompt_default(display@, spec_first_provider_id(raw_id@)),
        p.provider_type@ == spec_prompt_default(protocol@, default_protocol()),
        p.tool_protocol matches Some(t) && t@ == spec_prompt_default(protocol@, default_protocol()),
        p.base_url@ == spec_prompt_default(base_url@, default_base_url()),
        p.model@ == model@,
        match p.fast_model {
            Some(f) => !is_blank(fast_model@) && f@ == fast_model@,
            None => is_blank(fast_model@),
        },
        p.api_key@ == api_key@,
{
    let id = first_provider_id(raw_id);
    let display = prompt_default(display, id.as_str());
    let protocol = prompt_default(protocol, "openai_compatible");
    let tool_protocol = protocol.clone();
    let base_url = prompt_default(base_url, "https://api.openai.com/v1");
    FirstProvider {
        id,
        display,
        provider_type: protocol,
        tool_protocol: Some(tool_protocol),
        base_url,
        model,
        fast_model: non_empty(fast_model),
        api_key,
    }
}

/// Whether setup may create the first provider after the registry failed to
/// load: only on an interactive terminal, and only when no registry file
/// exists (`existing_providers` is `None`) or the one there lists no provider.
pub fn may_create_first_provider(interactive: bool, existing_providers: Option<usize>) -> (r: bool)
    ensures
        r == (interactive && (existing_providers is None || existing_providers == Some(0usize))),
{
    if !interactive {
        return false;
    }
    match existing_providers {
        None => true,
        Some(n) => n == 0,
    }
}

/// The answer to a prompt with a default: the default when the answer is blank.
pub open spec fn spec_prompt_default(answer: Seq<char>, default: Seq<char>) -> Seq<char> {
    if is_blank(answer) {
        default
    } else {
        answer
    }
}

/// The value a prompt with `default` yields for the typed `answer`.
pub fn prompt_default(answer: String, default: &str) -> (r: String)
    ensures
        r@ == spec_prompt_default(answer@, default@),
{
    if str_is_blank(answer.as_str()) {
        owned(default)
    } else {
        answer
    }
}

/// `value`, unless it is blank.
pub fn non_empty(value: String) -> (r: Option<String>)
    ensures
        match r {
            Some(v) => !is_blank(value@) && v@ == value@,
            None => is_blank(value@),
        },
{
    if str_is_blank(value.as_str()) {
        None
    } else {
        Some(value)
    }
}

/// Why reading a prompt's answer stopped.
#[derive(Clone, Copy, Debug, PartialEq, Eq, Structural)]
pub enum PromptError {
    /// Input ended before an answer was given.
    Cancelled,
}

/// The answer held by a line read from the terminal: the line trimmed, or
/// cancellation when nothing could be read (`bytes_read` is 0).
pub fn read_answer(bytes_read: usize, line: &str) -> (r: Result<String, PromptError>)
    ensures
        bytes_read == 0 ==> r == Err::<String, PromptError>(PromptError::Cancelled),
        bytes_read > 0 ==> (r matches Ok(a) && a@ == trim(line@)),
{
    if bytes_read == 0 {
        Err(PromptError::Cancelled)
    } else {
        Ok(trimmed(line))
    }
}

/// `c` is kept in a provider id: an ASCII letter or digit, `-` or `_`.
pub open spec fn is_id_char(c: char) -> bool {
    let u = c as u32;
    (48 <= u <= 57) || (65 <= u <= 90) || (97 <= u <= 122) || c == '-' || c == '_'
}

/// `id` after reading `c`: kept characters are lower-cased; white space
/// becomes a single `-`; anything else is dropped.
pub open spec fn sanitize_step(id: Seq<char>, c: char) -> Seq<char> {
    if is_id_char(c) {
        id.push(ascii_lower_char(c))
    } else if is_whitespace_char(c) && !(id.len() > 0 && id.last() == '-') {
        id.push('-')
    } else {
        id
    }
}

/// The characters of `s` run through `sanitize_step`, in order.
pub open spec fn sanitize_chars(s: Seq<char>) -> Seq<char>
    decreases s.len(),
{
    if s.len() == 0 {
        Seq::empty()
    } else {
        sanitize_step(sanitize_chars(s.drop_last()), s.last())
    }
}

/// `s` without leading `-`.
pub open spec fn trim_start_dashes(s: Seq<char>) -> Seq<char>
    decreases s.len(),
{
    if s.len() > 0 && s[0] == '-' {
        trim_start_dashes(s.drop_first())
    } else {
        s
    }
}

/// `s` without trailing `-`.
pub open spec fn trim_end_dashes(s: Seq<char>) -> Seq<char>
    decreases s.len(),
{
    if s.len() > 0 && s.last() == '-' {
        trim_end_dashes(s.drop_last())
    } else {
        s
    }
}

/// The provider id made from what the user typed: trimmed, reduced to
/// lower-case letters, digits, `-` and `_` (white space runs becoming one
/// `-`), without leading or trailing `-`, and `default` when nothing is left.
pub open spec fn spec_sanitize_id(value: Seq<char>) -> Seq<char> {
    let id = trim_end_dashes(trim_start_dashes(sanitize_chars(trim(value))));
    if id.len() == 0 {
        "default"@
    } else {
        id
    }
}

/// Leading dashes can be skipped before trimming them.
proof fn lemma_trim_start_dashes_skip(s: Seq<char>, i: int)
    requires
        0 <= i <= s.len(),
        forall|j: int| 0 <= j < i ==> #[trigger] s[j] == '-',
    ensures
        trim_start_dashes(s) == trim_start_dashes(s.subrange(i, s.len() as int)),
    decreases i,
{
    if i == 0 {
        assert(s.subrange(0, s.len() as int) =~= s);
    } else {
        lemma_trim_start_dashes_skip(s, i - 1);
        assert(s.subrange(i - 1, s.len() as int).drop_first() =~= s.subrange(i, s.len() as int));
    }
}

/// Trailing dashes can be cut before trimming them.
proof fn lemma_trim_end_dashes_take(s: Seq<char>, k: int)
    requires
        0 <= k <= s.len(),
        forall|j: int| k <= j < s.len() ==> #[trigger] s[j] == '-',
    ensures
        trim_end_dashes(s) == trim_end_dashes(s.take(k)),
    decreases s.len() - k,
{
    if k == s.len() {
        assert(s.take(k) =~= s);
    } else {
        lemma_trim_end_dashes_take(s, k + 1);
        assert(s.take(k + 1).drop_last() =~= s.take(k));
    }
}

/// Turns what the user typed into a provider id.
pub fn sanitize_id(value: &str) -> (r: String)
    ensures
        r@ == spec_sanitize_id(value@),
{
    let t = trimmed(value);
    let chars = chars_of(t.as_str());
    let mut id: Vec<char> = Vec::new();
    let mut i: usize = 0;
    while i < chars.len()
        invariant
            chars@ == trim(value@),
            i <= chars.len(),
            id@ == sanitize_chars(chars@.take(i as int)),
        decreases chars.len() - i,
    {
        let c = chars[i];
        let u = c as u32;
        let keep = (48 <= u && u <= 57) || (65 <= u && u <= 90) || (97 <= u && u <= 122) || c
            == '-' || c == '_';
        if keep {
            id.push(to_ascii_lower_char(c));
        } else if is_whitespace(c) && !(id.len() > 0 && id[id.len() - 1] == '-') {
            id.push('-');
        }
        proof {
            assert(chars@.take(i + 1).drop_last() =~= chars@.take(i as int));
            assert(chars@.take(i + 1).last() == c);
        }
        i += 1;
    }
    assert(chars@.take(chars.len() as int) =~= chars@);
    let n = id.len();
    let mut a: usize = 0;
    while a < n && id[a] == '-'
        invariant
            n == id.len(),
            a <= n,
            forall|j: int| 0 <= j < a ==> #[trigger] id@[j] == '-',
        decreases n - a,
    {
        a += 1;
    }
    proof {
        lemma_trim_start_dashes_skip(id@, a as int);
    }
    let ghost rest = id@.subrange(a as int, n as int);
    assert(trim_start_dashes(id@) == rest) by {
        if rest.len() > 0 {
            assert(rest[0] == id@[a as int]);
        }
    }
    let mut b: usize = n;
    while b > a && id[b - 1] == '-'
        invariant
            n == id.len(),
            a <= b <= n,
            rest == id@.subrange(a as int, n as int),
            forall|j: int| b <= j < n ==> #[trigger] id@[j] == '-',
        decreases b - a,
    {
        b -= 1;
    }
    proof {
        lemma_trim_end_dashes_take(rest, b - a);
        assert(rest.take(b - a) =~= id@.subrange(a as int, b as int));
        let t2 = rest.take(b - a);
        if t2.len() > 0 {
            assert(t2.last() == id@[b - 1]);
        }
    }
    if a == b {
        owned("default")
    } else {
        string_from_chars(&id, a, b)
    }
}

/// `c` may stand in a sanitized id: a lower-case ASCII letter, a digit, `-` or `_`.
pub open spec fn is_lower_id_char(c: char) -> bool {
    let u = c as u32;
    (48 <= u <= 57) || (97 <= u <= 122) || c == '-' || c == '_'
}

/// `id` is a well-formed provider id: not empty, made of lower-case ASCII
/// letters, digits, `-` and `_`, and neither starting nor ending with `-`.
pub open spec fn well_formed_id(id: Seq<char>) -> bool {
    &&& id.len() > 0
    &&& forall|i: int| 0 <= i < id.len() ==> is_lower_id_char(#[trigger] id[i])
    &&& id[0] != '-'
    &&& id.last() != '-'
}

/// Sanitized characters are lower-case id characters.
proof fn lemma_sanitize_chars_lower(s: Seq<char>)
    ensures
        forall|i: int| 0 <= i < sanitize_chars(s).len() ==> is_lower_id_char(#[trigger] sanitize_chars(s)[i]),
    decreases s.len(),
{
    if s.len() > 0 {
        lemma_sanitize_chars_lower(s.drop_last());
        let p = sanitize_chars(s.drop_last());
        let r = sanitize_chars(s);
        assert forall|i: int| 0 <= i < r.len() implies is_lower_id_char(#[trigger] r[i]) by {
            if i < p.len() {
                assert(r[i] == p[i]);
            }
        }
    }
}

/// Trimming leading dashes keeps the characters' kind and leaves no leading dash.
proof fn lemma_trim_start_dashes_shape(s: Seq<char>)
    requires
        forall|i: int| 0 <= i < s.len() ==> is_lower_id_char(#[trigger] s[i]),
    ensures
        forall|i: int| 0 <= i < trim_start_dashes(s).len() ==> is_lower_id_char(#[trigger] trim_start_dashes(s)[i]),
        trim_start_dashes(s).len() > 0 ==> trim_start_dashes(s)[0] != '-',
    decreases s.len(),
{
    if s.len() > 0 && s[0] == '-' {
        let t = s.drop_first();
        assert forall|i: int| 0 <= i < t.len() implies is_lower_id_char(#[trigger] t[i]) by {
            assert(t[i] == s[i + 1]);
        }
        lemma_trim_start_dashes_shape(t);
    }
}

/// Trimming trailing dashes leaves a prefix that does not end in a dash.
proof fn lemma_trim_end_dashes_prefix(s: Seq<char>)
    ensures
        trim_end_dashes(s).len() <= s.len(),
        trim_end_dashes(s) == s.take(trim_end_dashes(s).len() as int),
        trim_end_dashes(s).len() > 0 ==> trim_end_dashes(s).last() != '-',
    decreases s.len(),
{
    if s.len() > 0 && s.last() == '-' {
        lemma_trim_end_dashes_prefix(s.drop_last());
        let r = trim_end_dashes(s.drop_last());
        assert(s.drop_last().take(r.len() as int) =~= s.take(r.len() as int));
    } else {
        assert(s.take(s.len() as int) =~= s);
    }
}

/// `sanitize_chars` leaves a text of lower-case id characters as it is.
proof fn lemma_sanitize_chars_fixed(s: Seq<char>)
    requires
        forall|i: int| 0 <= i < s.len() ==> is_lower_id_char(#[trigger] s[i]),
    ensures
        sanitize_chars(s) == s,
    decreases s.len(),
{
    if s.len() > 0 {
        let init = s.drop_last();
        assert forall|i: int| 0 <= i < init.len() implies is_lower_id_char(#[trigger] init[i]) by {
            assert(init[i] == s[i]);
        }
        lemma_sanitize_chars_fixed(init);
        assert(is_lower_id_char(s[s.len() - 1]));
        assert(init.push(s.last()) =~= s);
    }
}

/// Whatever the user types, the id made from it is well formed.
pub proof fn law_sanitized_id_well_formed(value: Seq<char>)
    ensures
        well_formed_id(spec_sanitize_id(value)),
{
    reveal_strlit("default");
    let c = sanitize_chars(trim(value));
    lemma_sanitize_chars_lower(trim(value));
    lemma_trim_start_dashes_shape(c);
    let a = trim_start_dashes(c);
    lemma_trim_end_dashes_prefix(a);
    let id = trim_end_dashes(a);
    if id.len() > 0 {
        assert forall|i: int| 0 <= i < id.len() implies is_lower_id_char(#[trigger] id[i]) by {
            assert(id[i] == a[i]);
        }
        assert(id[0] == a[0]);
    }
}

/// Sanitizing an id a second time changes nothing.
pub proof fn law_sanitize_id_idempotent(value: Seq<char>)
    ensures
        spec_sanitize_id(spec_sanitize_id(value)) == spec_sanitize_id(value),
{
    law_sanitized_id_well_formed(value);
    let r = spec_sanitize_id(value);
    assert(!is_whitespace_char(r[0]));
    assert(!is_whitespace_char(r.last()));
    assert(trim_start(r) == r);
    assert(trim_end(r) == r);
    lemma_sanitize_chars_fixed(r);
    assert(trim_start_dashes(r) == r);
    assert(trim_end_dashes(r) == r);
}

} // verus!
