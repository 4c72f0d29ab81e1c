use vstd::prelude::*;
use std::path::{Path, PathBuf};
use crate::paths::{
    as_path, is_plain_component, lossy_path_text, path_buf_components, path_components, path_join,
    path_text,
};
use vstd::utf8::encode_utf8;
use crate::text::{
    chars_of, char_width, compare_chars, contains, find_first, lemma_str_lt_total,
    lemma_str_lt_transitive, str_lt, is_first_occurrence, join, join_strings,
    lemma_trim_padded, lemma_utf8_len_concat, occurs_at, lemma_utf8_len_take_push, push_char, string_from_chars, trim, trimmed,
    utf8_len, utf8_len_within, views,
};
use crate::tool_validation::owned;

verus! {

broadcast use vstd::string::group_string_axioms;

/// What a memory records.
#[derive(Clone, Copy, Debug, PartialEq, Eq, Structural)]
pub enum MemoryType {
    User,
    Feedback,
    Project,
    Reference,
}

impl Default for MemoryType {
    fn default() -> (t: MemoryType)
        ensures
            t == MemoryType::User,
    {
        MemoryType::User
    }
}

/// Where a memory is kept: with the project checkout, per project under
/// the home directory, or for every project.
#[derive(Clone, Copy, Debug, PartialEq, Eq, Structural)]
pub enum MemoryScope {
    Local,
    Project,
    Global,
}

/// A point in time: seconds since the Unix epoch and the nanoseconds past that second.
#[derive(Clone, Copy, Debug, PartialEq, Eq, Structural)]
pub struct Timestamp {
    pub secs: i64,
    pub nanos: u32,
}

/// Nanoseconds since the Unix epoch.
pub open spec fn instant_nanos(t: Timestamp) -> int {
    t.secs * 1_000_000_000 + t.nanos
}

/// A saved memory.
pub struct Memory {
    pub name: String,
    pub description: String,
    pub memory_type: MemoryType,
    pub created: Timestamp,
    pub updated: Timestamp,
    pub content: String,
    pub stale: bool,
    pub scope: Option<MemoryScope>,
}

/// Days after which project and reference memories count as stale.
pub const STALE_AFTER_DAYS: i64 = 7;

/// Most UTF-8 bytes of memory text put into a prompt.
pub const MAX_PROMPT_CHARS: usize = 32_000;

/// A memory of `memory_type` last updated at `updated` is stale at `now`:
/// project and reference memories go stale more than seven days after their update.
pub open spec fn spec_is_stale(memory_type: MemoryType, updated: Timestamp, now: Timestamp) -> bool {
    (memory_type == MemoryType::Project || memory_type == MemoryType::Reference) && instant_nanos(now)
        - instant_nanos(updated) > STALE_AFTER_DAYS * 86_400 * 1_000_000_000
}

/// Whether a memory of `memory_type` last updated at `updated` is stale at `now`.
pub fn is_stale(memory_type: MemoryType, updated: Timestamp, now: Timestamp) -> (r: bool)
    ensures
        r == spec_is_stale(memory_type, updated, now),
{
    let kind_ages = match memory_type {
        MemoryType::Project | MemoryType::Reference => true,
        _ => false,
    };
    if !kind_ages {
        return false;
    }
    let now_nanos = (now.secs as i128) * 1_000_000_000 + (now.nanos as i128);
    let updated_nanos = (updated.secs as i128) * 1_000_000_000 + (updated.nanos as i128);
    now_nanos - updated_nanos > (STALE_AFTER_DAYS as i128) * 86_400 * 1_000_000_000
}

/// A character allowed in a memory name: an ASCII letter or digit, `-` or `_`.
pub open spec fn is_name_char(c: char) -> bool {
    let u = c as u32;
    (48 <= u <= 57) || (65 <= u <= 90) || (97 <= u <= 122) || c == '-' || c == '_'
}

/// `name` is a valid memory name: 1 to 80 bytes of letters, digits, hyphens or underscores.
pub open spec fn valid_memory_name(name: Seq<char>) -> bool {
    &&& name.len() > 0
    &&& utf8_len(name) <= 80
    &&& forall|i: int| 0 <= i < name.len() ==> is_name_char(#[trigger] name[i])
}

/// The complaint about an invalid memory name.
pub open spec fn invalid_name_message() -> Seq<char> {
    "memory name must use 1-80 ASCII letters, numbers, hyphens, or underscores"@
}

/// Checks that `name` can name a memory file.
pub fn validate_name(name: &str) -> (r: Result<(), String>)
    ensures
        r is Ok <==> valid_memory_name(name@),
        r matches Err(e) ==> e@ == invalid_name_message(),
{
    let chars = chars_of(name);
    let mut i: usize = 0;
    while i < chars.len()
        invariant
            chars@ == name@,
            i <= chars.len(),
            forall|j: int| 0 <= j < i ==> is_name_char(#[trigger] chars@[j]),
            utf8_len(chars@.take(i as int)) == i,
        decreases chars.len() - i,
    {
        let c = chars[i];
        let u = c as u32;
        let ok = (48 <= u && u <= 57) || (65 <= u && u <= 90) || (97 <= u && u <= 122) || c == '-'
            || c == '_';
        if !ok {
            return Err(owned("memory name must use 1-80 ASCII letters, numbers, hyphens, or underscores"));
        }
        proof {
            lemma_utf8_len_take_push(chars@, i as int);
            assert(char_width(c) == 1);
        }
        i += 1;
    }
    assert(chars@.take(chars.len() as int) =~= chars@);
    if chars.len() == 0 || chars.len() > 80 {
        return Err(owned("memory name must use 1-80 ASCII letters, numbers, hyphens, or underscores"));
    }
    Ok(())
}

/// The file that holds the memory named `name`.
pub open spec fn spec_memory_file_name(name: Seq<char>) -> Seq<char> {
    name + ".md"@
}

/// The file that holds the memory named `name`.
pub fn memory_file_name(name: &str) -> (r: String)
    ensures
        r@ == spec_memory_file_name(name@),
{
    let mut r = owned(name);
    r.append(".md");
    r
}

/// The MD5 digest of `data`.
pub uninterp spec fn md5_of(data: Seq<u8>) -> Seq<u8>;

/// `md5::compute`: the 16-byte MD5 digest of `data`. The contract names the
/// digest and states its length; it states nothing of how MD5 is computed.
#[verifier::external_body]
fn md5_digest(data: &[u8]) -> (r: Vec<u8>)
    ensures
        r@ == md5_of(data@),
        r@.len() == 16,
{
    md5::compute(data).0.to_vec()
}

/// The lower-case hexadecimal digit for `d < 16`.
pub open spec fn hex_digit(d: nat) -> char {
    if d < 10 {
        ((d + 48) as u32) as char
    } else {
        ((d - 10 + 97) as u32) as char
    }
}

/// `bytes` in lower-case hexadecimal, two digits a byte.
pub open spec fn lower_hex(bytes: Seq<u8>) -> Seq<char>
    decreases bytes.len(),
{
    if bytes.len() == 0 {
        Seq::empty()
    } else {
        lower_hex(bytes.drop_last()) + seq![
            hex_digit((bytes.last() / 16) as nat),
            hex_digit((bytes.last() % 16) as nat),
        ]
    }
}

/// The key that names a project's memory directory: the first twelve
/// hexadecimal digits of the MD5 digest of the project path's text.
pub open spec fn spec_project_key(project_path: Seq<char>) -> Seq<char> {
    let hex = lower_hex(md5_of(vstd::utf8::encode_utf8(project_path)));
    if hex.len() <= 12 { hex } else { hex.take(12) }
}

/// Two hexadecimal digits a byte.
pub proof fn lemma_lower_hex_len(bytes: Seq<u8>)
    ensures
        lower_hex(bytes).len() == 2 * bytes.len(),
    decreases bytes.len(),
{
    if bytes.len() > 0 {
        lemma_lower_hex_len(bytes.drop_last());
    }
}

/// Every character of `lower_hex(bytes)` is a lower-case hexadecimal digit.
pub proof fn lemma_lower_hex_chars(bytes: Seq<u8>)
    ensures
        forall|i: int| 0 <= i < lower_hex(bytes).len() ==> {
            let u = (#[trigger] lower_hex(bytes)[i]) as u32;
            (48 <= u <= 57) || (97 <= u <= 102)
        },
    decreases bytes.len(),
{
    if bytes.len() > 0 {
        lemma_lower_hex_chars(bytes.drop_last());
        let b = bytes.last();
        let hi = hex_digit((b / 16) as nat);
        let lo = hex_digit((b % 16) as nat);
        assert((hi as u32) == (if b / 16 < 10 { b / 16 + 48 } else { b / 16 - 10 + 97 }));
        assert((lo as u32) == (if b % 16 < 10 { b % 16 + 48 } else { b % 16 - 10 + 97 }));
        let prev = lower_hex(bytes.drop_last());
        let all = lower_hex(bytes);
        assert(all == prev + seq![hi, lo]);
        assert forall|i: int| 0 <= i < all.len() implies {
            let u = (#[trigger] all[i]) as u32;
            (48 <= u <= 57) || (97 <= u <= 102)
        } by {
            if i < prev.len() {
                assert(all[i] == prev[i]);
            } else if i == prev.len() {
                assert(all[i] == hi);
            } else {
                assert(all[i] == lo);
            }
        }
    }
}

/// A project key of twelve characters is one ordinary path component.
pub proof fn lemma_project_key_plain(text: Seq<char>)
    requires
        spec_project_key(text).len() == 12,
    ensures
        is_plain_component(spec_project_key(text)),
{
    let hex = lower_hex(md5_of(vstd::utf8::encode_utf8(text)));
    let key = spec_project_key(text);
    lemma_lower_hex_chars(md5_of(vstd::utf8::encode_utf8(text)));
    assert forall|i: int| 0 <= i < key.len() implies key[i] != '/' && key[i] != '\\' && key[i] != ':' by {
        assert(key[i] == hex[i]);
    }
    reveal_strlit(".");
    reveal_strlit("..");
}

/// The lower-case hexadecimal digit for `d`.
fn hex_char(d: u8) -> (c: char)
    requires
        d < 16,
    ensures
        c == hex_digit(d as nat),
{
    if d < 10 {
        (d + 48) as char
    } else {
        (d - 10 + 97) as char
    }
}

/// The key that names the memory directory of the project at `project_path`.
pub fn project_key(project_path: &str) -> (r: String)
    ensures
        r@ == spec_project_key(project_path@),
        r@.len() == 12,
{
    let digest = md5_digest(project_path.as_bytes());
    let mut hex = String::new();
    let mut i: usize = 0;
    while i < digest.len()
        invariant
            i <= digest.len(),
            hex@ == lower_hex(digest@.take(i as int)),
        decreases digest.len() - i,
    {
        let b = digest[i];
        push_char(&mut hex, hex_char(b / 16));
        push_char(&mut hex, hex_char(b % 16));
        proof {
            let t = digest@.take(i + 1);
            assert(t.drop_last() =~= digest@.take(i as int));
            assert(t.last() == b);
        }
        i += 1;
        assert(hex@ =~= lower_hex(digest@.take(i as int)));
    }
    assert(digest@.take(digest.len() as int) =~= digest@);
    proof {
        lemma_lower_hex_len(digest@);
    }
    let chars = chars_of(hex.as_str());
    let end = if chars.len() <= 12 { chars.len() } else { 12 };
    let r = crate::text::string_from_chars(&chars, 0, end);
    assert(chars.len() <= 12 ==> chars@.subrange(0, end as int) =~= chars@);
    r
}

/// The three memory directories of a project, searched in this order.
pub struct MemoryManager {
    local_dir: PathBuf,
    project_dir: PathBuf,
    global_dir: PathBuf,
}

impl MemoryManager {
    /// The directory that holds memories of `scope`.
    pub closed spec fn spec_directory(&self, scope: MemoryScope) -> PathBuf {
        match scope {
            MemoryScope::Local => self.local_dir,
            MemoryScope::Project => self.project_dir,
            MemoryScope::Global => self.global_dir,
        }
    }

    /// The memory directories for the project at `project_path` under the
    /// home directory `home`: `<project>/.coomi/memory`,
    /// `<home>/projects/<project key>/memory` and `<home>/memory`, the key
    /// made from the project path's text.
    pub fn new(home: &Path, project_path: &Path) -> (m: Self)
        ensures
            path_buf_components(m.spec_directory(MemoryScope::Local)) == path_components(project_path).push(
                encode_utf8(".coomi"@),
            ).push(encode_utf8("memory"@)),
            path_buf_components(m.spec_directory(MemoryScope::Project)) == path_components(home).push(
                encode_utf8("projects"@),
            ).push(encode_utf8(spec_project_key(lossy_path_text(project_path)))).push(
                encode_utf8("memory"@),
            ),
            path_buf_components(m.spec_directory(MemoryScope::Global)) == path_components(home).push(
                encode_utf8("memory"@),
            ),
    {
        proof {
            reveal_strlit(".coomi");
            reveal_strlit("memory");
            reveal_strlit("projects");
            reveal_strlit(".");
            reveal_strlit("..");
            let c = ".coomi"@;
            assert(c.len() == 6);
            assert(c != "."@ && c != ".."@);
            assert(!c.contains('/'));
            assert(!c.contains('\\'));
            assert(!c.contains(':'));
            assert(is_plain_component(".coomi"@));
            assert(is_plain_component("memory"@));
            assert(is_plain_component("projects"@));
        }
        let key = project_key(path_text(project_path).as_str());
        proof {
            lemma_project_key_plain(lossy_path_text(project_path));
        }
        let local_base = path_join(project_path, ".coomi");
        let projects = path_join(home, "projects");
        let project_base = path_join(as_path(&projects), key.as_str());
        MemoryManager {
            local_dir: path_join(as_path(&local_base), "memory"),
            project_dir: path_join(as_path(&project_base), "memory"),
            global_dir: path_join(home, "memory"),
        }
    }

    /// The scope a deletion removes a memory from: the first in search order
    /// (local, project, global) whose directory holds the memory's file, if any.
    pub fn deletion_scope(in_local: bool, in_project: bool, in_global: bool) -> (r: Option<MemoryScope>)
        ensures
            r == (if in_local {
                Some(MemoryScope::Local)
            } else if in_project {
                Some(MemoryScope::Project)
            } else if in_global {
                Some(MemoryScope::Global)
            } else {
                None
            }),
    {
        if in_local {
            Some(MemoryScope::Local)
        } else if in_project {
            Some(MemoryScope::Project)
        } else if in_global {
            Some(MemoryScope::Global)
        } else {
            None
        }
    }

    /// The scope whose directory holds the memory index: local when the local
    /// directory exists, project otherwise.
    pub fn index_scope(local_dir_exists: bool) -> (r: MemoryScope)
        ensures
            r == (if local_dir_exists { MemoryScope::Local } else { MemoryScope::Project }),
    {
        if local_dir_exists {
            MemoryScope::Local
        } else {
            MemoryScope::Project
        }
    }

    /// The directories in the order they are searched: local, project, global.
    pub fn directories(&self) -> (r: [(MemoryScope, &PathBuf); 3])
        ensures
            r[0].0 == MemoryScope::Local && *r[0].1 == self.spec_directory(MemoryScope::Local),
            r[1].0 == MemoryScope::Project && *r[1].1 == self.spec_directory(MemoryScope::Project),
            r[2].0 == MemoryScope::Global && *r[2].1 == self.spec_directory(MemoryScope::Global),
    {
        [
            (MemoryScope::Local, &self.local_dir),
            (MemoryScope::Project, &self.project_dir),
            (MemoryScope::Global, &self.global_dir),
        ]
    }

    /// The directory that holds memories of `scope`.
    pub fn directory(&self, scope: MemoryScope) -> (r: &PathBuf)
        ensures
            *r == self.spec_directory(scope),
    {
        match scope {
            MemoryScope::Local => &self.local_dir,
            MemoryScope::Project => &self.project_dir,
            MemoryScope::Global => &self.global_dir,
        }
    }
}

/// The prompt section for memory `m`.
pub open spec fn prompt_entry(m: Memory) -> Seq<char> {
    "### "@ + m.name@ + "\n_"@ + m.description@ + "_\n\n"@ + m.content@ + "\n\n"@
}

/// `acc` followed by the sections of the fresh memories of `ms`, in order,
/// stopping before the first section that would take the text past
/// `MAX_PROMPT_CHARS` bytes.
pub open spec fn prompt_from(ms: Seq<Memory>, acc: Seq<char>) -> Seq<char>
    decreases ms.len(),
{
    if ms.len() == 0 {
        acc
    } else if ms[0].stale {
        prompt_from(ms.drop_first(), acc)
    } else if utf8_len(acc) + utf8_len(prompt_entry(ms[0])) > MAX_PROMPT_CHARS {
        acc
    } else {
        prompt_from(ms.drop_first(), acc + prompt_entry(ms[0]))
    }
}

/// The memory text put into a prompt for the listed `memories`.
pub open spec fn spec_prompt_context(memories: Seq<Memory>) -> Seq<char> {
    prompt_from(memories, Seq::empty())
}

/// The prompt section for `m`.
fn prompt_entry_text(m: &Memory) -> (r: String)
    ensures
        r@ == prompt_entry(*m),
{
    let mut e = owned("### ");
    e.append(m.name.as_str());
    e.append("\n_");
    e.append(m.description.as_str());
    e.append("_\n\n");
    e.append(m.content.as_str());
    e.append("\n\n");
    e
}

/// One line of the memory index for `m`.
pub open spec fn index_line(m: Memory) -> Seq<char> {
    "- ["@ + m.name@ + "](./"@ + m.name@ + ".md) - "@ + m.description@ + if m.stale {
        " [stale]"@
    } else {
        Seq::empty()
    }
}

/// The lines that open the memory index.
pub open spec fn index_header() -> Seq<Seq<char>> {
    seq![
        "# Memory Index"@,
        "> Auto-generated. Local entries override project and global entries."@,
        Seq::empty(),
    ]
}

/// The text of the memory index for the listed `memories`.
pub open spec fn spec_index_text(memories: Seq<Memory>) -> Seq<char> {
    join(index_header() + memories.map_values(|m: Memory| index_line(m)), "\n"@)
}

/// The index line for `m`.
fn index_line_text(m: &Memory) -> (r: String)
    ensures
        r@ == index_line(*m),
{
    let mut line = owned("- [");
    line.append(m.name.as_str());
    line.append("](./");
    line.append(m.name.as_str());
    line.append(".md) - ");
    line.append(m.description.as_str());
    if m.stale {
        line.append(" [stale]");
    }
    line
}

/// The line that opens a memory's frontmatter.
pub open spec fn frontmatter_open() -> Seq<char> {
    "---\n"@
}

/// The line that closes a memory's frontmatter.
pub open spec fn frontmatter_close() -> Seq<char> {
    "\n---\n"@
}

/// Why a memory file could not be read.
#[derive(Clone, Copy, Debug, PartialEq, Eq, Structural)]
pub enum MemoryFileError {
    NoFrontmatter,
    FrontmatterNotClosed,
}

impl MemoryFileError {
    /// The sentence that reports this error.
    pub fn message(self) -> (r: &'static str)
        ensures
            self == MemoryFileError::NoFrontmatter ==> r@ == "memory has no frontmatter"@,
            self == MemoryFileError::FrontmatterNotClosed ==> r@ == "memory frontmatter is not closed"@,
    {
        match self {
            MemoryFileError::NoFrontmatter => "memory has no frontmatter",
            MemoryFileError::FrontmatterNotClosed => "memory frontmatter is not closed",
        }
    }
}

/// A memory file's text split into its frontmatter and its trimmed content:
/// the text must open with `---` on a line of its own, and the frontmatter
/// runs to the first following `---` line.
pub open spec fn spec_split_memory_text(text: Seq<char>) -> Result<(Seq<char>, Seq<char>), MemoryFileError> {
    if !(text.len() >= 4 && text.take(4) == frontmatter_open()) {
        Err(MemoryFileError::NoFrontmatter)
    } else {
        let rest = text.skip(4);
        if !contains(rest, frontmatter_close()) {
            Err(MemoryFileError::FrontmatterNotClosed)
        } else {
            let i = choose|i: int| is_first_occurrence(rest, frontmatter_close(), i);
            Ok((rest.take(i), trim(rest.skip(i + 5))))
        }
    }
}

/// There is only one first occurrence.
pub proof fn lemma_first_occurrence_unique(s: Seq<char>, t: Seq<char>, i: int, j: int)
    requires
        is_first_occurrence(s, t, i),
        is_first_occurrence(s, t, j),
    ensures
        i == j,
{
}

/// Splits a memory file's text into its frontmatter and its trimmed content.
pub fn split_memory_text(text: &str) -> (r: Result<(String, String), MemoryFileError>)
    ensures
        match r {
            Ok((front, content)) => spec_split_memory_text(text@) == Ok::<
                (Seq<char>, Seq<char>),
                MemoryFileError,
            >((front@, content@)),
            Err(e) => spec_split_memory_text(text@) == Err::<(Seq<char>, Seq<char>), MemoryFileError>(e),
        },
{
    let chars = chars_of(text);
    proof {
        reveal_strlit("---\n");
        reveal_strlit("\n---\n");
    }
    let open = chars_of("---\n");
    let opens = chars.len() >= 4 && crate::text::chars_occur_at(&chars, &open, 0);
    proof {
        if chars.len() >= 4 {
            assert(chars@.subrange(0, 4) =~= chars@.take(4));
        }
    }
    if !opens {
        return Err(MemoryFileError::NoFrontmatter);
    }
    let rest_text = string_from_chars(&chars, 4, chars.len());
    let rest = chars_of(rest_text.as_str());
    assert(rest@ =~= text@.skip(4));
    let close = chars_of("\n---\n");
    match find_first(&rest, &close) {
        None => Err(MemoryFileError::FrontmatterNotClosed),
        Some(i) => {
            proof {
                let j = choose|j: int| is_first_occurrence(rest@, frontmatter_close(), j);
                lemma_first_occurrence_unique(rest@, close@, i as int, j);
            }
            let front = string_from_chars(&rest, 0, i);
            let after = string_from_chars(&rest, i + 5, rest.len());
            let content = trimmed(after.as_str());
            assert(front@ =~= rest@.take(i as int));
            assert(after@ =~= rest@.skip(i + 5));
            Ok((front, content))
        },
    }
}

/// The text of a memory file with frontmatter `front` (as written by the
/// YAML writer, ending in a newline) and `content`.
pub open spec fn spec_render_memory_text(front: Seq<char>, content: Seq<char>) -> Seq<char> {
    frontmatter_open() + front + "---\n\n"@ + content + "\n"@
}

/// The text of a memory file with frontmatter `front` and `content`.
pub fn render_memory_text(front: &str, content: &str) -> (r: String)
    ensures
        r@ == spec_render_memory_text(front@, content@),
{
    let mut r = owned("---\n");
    r.append(front);
    r.append("---\n\n");
    r.append(content);
    r.append("\n");
    r
}

/// The closing line right after `y` is the first one, when `y` does not
/// itself run into one.
proof fn lemma_first_close_after(y: Seq<char>, tail: Seq<char>)
    requires
        !contains(y + "\n---"@, frontmatter_close()),
    ensures
        is_first_occurrence(y + frontmatter_close() + tail, frontmatter_close(), y.len() as int),
{
    reveal_strlit("\n---\n");
    reveal_strlit("\n---");
    let close = frontmatter_close();
    let rest = y + close + tail;
    let head = y + "\n---"@;
    let n = y.len() as int;
    assert(head =~= rest.take(n + 4));
    assert(rest.subrange(n, n + 5) =~= close);
    assert forall|j: int| 0 <= j < n implies !occurs_at(rest, close, j) by {
        if occurs_at(rest, close, j) {
            assert(rest.subrange(j, j + 5) =~= head.subrange(j, j + 5));
            assert(occurs_at(head, close, j));
        }
    }
}

/// Reading back a memory file gives what was written: for frontmatter `y`
/// followed by a newline (as the YAML writer ends it) that does not itself
/// hold the closing `---` line, the text splits into `y` and the trimmed content.
pub proof fn law_memory_text_round_trip(y: Seq<char>, content: Seq<char>)
    requires
        !contains(y + "\n---"@, frontmatter_close()),
    ensures
        spec_split_memory_text(spec_render_memory_text(y + "\n"@, content))
            == Ok::<(Seq<char>, Seq<char>), MemoryFileError>((y, trim(content))),
{
    reveal_strlit("---\n");
    reveal_strlit("\n---\n");
    reveal_strlit("---\n\n");
    reveal_strlit("\n");
    let close = frontmatter_close();
    let text = spec_render_memory_text(y + "\n"@, content);
    let tail = seq!['\n'] + content + seq!['\n'];
    let rest = y + close + tail;
    let n = y.len() as int;
    assert(text =~= frontmatter_open() + rest);
    assert(text.take(4) =~= frontmatter_open());
    assert(text.skip(4) =~= rest);
    lemma_first_close_after(y, tail);
    assert(contains(rest, close));
    let i = choose|i: int| is_first_occurrence(rest, close, i);
    lemma_first_occurrence_unique(rest, close, i, n);
    assert(rest.take(n) =~= y);
    assert(rest.skip(n + 5) =~= tail);
    lemma_trim_padded(content, '\n', '\n');
}

impl MemoryManager {
    /// The memory text for a prompt: the fresh memories of `memories`, in
    /// order, each as a section, as long as the text stays within
    /// `MAX_PROMPT_CHARS` bytes.
    pub fn prompt_context(memories: &Vec<Memory>) -> (r: String)
        ensures
            r@ == spec_prompt_context(memories@),
    {
        let mut output = String::new();
        let mut used: usize = 0;
        let mut i: usize = 0;
        assert(memories@.skip(0) =~= memories@);
        while i < memories.len()
            invariant
                i <= memories.len(),
                used == utf8_len(output@),
                used <= MAX_PROMPT_CHARS,
                spec_prompt_context(memories@) == prompt_from(memories@.skip(i as int), output@),
            decreases memories.len() - i,
        {
            let m = &memories[i];
            let ghost rest = memories@.skip(i as int);
            assert(rest.drop_first() =~= memories@.skip(i + 1));
            assert(rest[0] == *m);
            if !m.stale {
                let entry = prompt_entry_text(m);
                match utf8_len_within(entry.as_str(), MAX_PROMPT_CHARS - used) {
                    None => {
                        return output;
                    },
                    Some(n) => {
                        proof {
                            lemma_utf8_len_concat(output@, entry@);
                        }
                        output.append(entry.as_str());
                        used = used + n;
                    },
                }
            }
            i += 1;
        }
        output
    }

    /// The text of the memory index for the listed `memories`.
    pub fn index_text(memories: &Vec<Memory>) -> (r: String)
        ensures
            r@ == spec_index_text(memories@),
    {
        let mut lines: Vec<String> = Vec::new();
        lines.push(owned("# Memory Index"));
        lines.push(owned("> Auto-generated. Local entries override project and global entries."));
        lines.push(String::new());
        assert(views(lines@) =~= index_header());
        let mut i: usize = 0;
        while i < memories.len()
            invariant
                i <= memories.len(),
                views(lines@) == index_header() + memories@.take(i as int).map_values(
                    |m: Memory| index_line(m),
                ),
            decreases memories.len() - i,
        {
            let ghost before = lines@;
            let line = index_line_text(&memories[i]);
            lines.push(line);
            proof {
                assert(lines@ == before.push(line));
                assert(views(lines@) =~= views(before).push(line@));
                assert(memories@.take(i + 1).map_values(|m: Memory| index_line(m)) =~= memories@.take(
                    i as int,
                ).map_values(|m: Memory| index_line(m)).push(index_line(memories@[i as int])));
            }
            i += 1;
        }
        assert(memories@.take(memories.len() as int) =~= memories@);
        join_strings(&lines, "\n")
    }
}

/// `name` is the file name of a memory file: it has the extension `md`
/// (a non-empty stem, then `.md`) and is not the index file `MEMORY.md`.
pub open spec fn spec_is_memory_file_name(name: Seq<char>) -> bool {
    name.len() > 3 && name.skip(name.len() - 3) == ".md"@ && name != "MEMORY.md"@
}

/// Whether a directory entry named `name` holds a memory.
pub fn is_memory_file_name(name: &str) -> (r: bool)
    ensures
        r == spec_is_memory_file_name(name@),
{
    proof {
        reveal_strlit(".md");
    }
    let chars = chars_of(name);
    if chars.len() <= 3 {
        return false;
    }
    let n = chars.len();
    let ext = string_from_chars(&chars, n - 3, n);
    assert(ext@ =~= name@.skip(name@.len() - 3));
    crate::text::str_equal(ext.as_str(), ".md") && !crate::text::str_equal(name, "MEMORY.md")
}

/// The names of `names` that are memory file names, in order.
pub open spec fn memory_names_of(names: Seq<Seq<char>>) -> Seq<Seq<char>>
    decreases names.len(),
{
    if names.len() == 0 {
        Seq::empty()
    } else {
        let r = memory_names_of(names.drop_last());
        if spec_is_memory_file_name(names.last()) {
            r.push(names.last())
        } else {
            r
        }
    }
}

/// Where `x` goes in the name-ordered `sorted`: after every name not after it.
pub open spec fn name_insert_pos(sorted: Seq<Seq<char>>, x: Seq<char>) -> nat
    decreases sorted.len(),
{
    if sorted.len() == 0 || str_lt(x, sorted[0]) {
        0
    } else {
        1 + name_insert_pos(sorted.drop_first(), x)
    }
}

/// `names` in `String` order, equal names in the order given.
pub open spec fn sort_names(names: Seq<Seq<char>>) -> Seq<Seq<char>>
    decreases names.len(),
{
    if names.len() == 0 {
        Seq::empty()
    } else {
        let r = sort_names(names.drop_last());
        r.insert(name_insert_pos(r, names.last()) as int, names.last())
    }
}

/// The file names of a directory's memories, in the order they are read:
/// the entries that are memory files, sorted.
pub open spec fn spec_memory_files(names: Seq<Seq<char>>) -> Seq<Seq<char>> {
    sort_names(memory_names_of(names))
}

/// `name_insert_pos` is a position within the list.
pub proof fn lemma_name_insert_pos_bound(sorted: Seq<Seq<char>>, x: Seq<char>)
    ensures
        name_insert_pos(sorted, x) <= sorted.len(),
    decreases sorted.len(),
{
    if sorted.len() > 0 && !str_lt(x, sorted[0]) {
        lemma_name_insert_pos_bound(sorted.drop_first(), x);
    }
}

/// The position of `x` in `r` as `name_insert_pos` finds it from index `i` on.
fn name_position_from(r: &Vec<String>, x: &Vec<char>) -> (pos: usize)
    ensures
        pos as nat == name_insert_pos(views(r@), x@),
{
    let ghost v = views(r@);
    let mut pos: usize = 0;
    assert(v.skip(0) =~= v);
    while pos < r.len()
        invariant
            v == views(r@),
            pos <= r.len(),
            name_insert_pos(v, x@) == pos + name_insert_pos(v.skip(pos as int), x@),
        decreases r.len() - pos,
    {
        let here = chars_of(r[pos].as_str());
        assert(v.skip(pos as int)[0] == v[pos as int]);
        if compare_chars(x, &here) < 0 {
            return pos;
        }
        assert(v.skip(pos as int).drop_first() =~= v.skip(pos + 1));
        pos += 1;
    }
    pos
}

/// The memory files among the directory entries `names`, in reading order.
pub fn memory_files(names: Vec<String>) -> (r: Vec<String>)
    ensures
        views(r@) == spec_memory_files(views(names@)),
{
    let ghost input = views(names@);
    let n = names.len();
    let mut rest = names;
    let mut kept: Vec<String> = Vec::new();
    let mut done: usize = 0;
    while rest.len() > 0
        invariant
            n == input.len(),
            done + rest.len() == n,
            views(rest@) == input.subrange(done as int, n as int),
            views(kept@) == sort_names(memory_names_of(input.take(done as int))),
        decreases rest.len(),
    {
        let ghost before_rest = rest@;
        let name = rest.remove(0);
        proof {
            assert(views(before_rest)[0] == name@);
            assert(name@ == input[done as int]);
            assert(input.take(done + 1).drop_last() =~= input.take(done as int));
            assert(input.take(done + 1).last() == name@);
        }
        if is_memory_file_name(name.as_str()) {
            let chars = chars_of(name.as_str());
            let pos = name_position_from(&kept, &chars);
            proof {
                lemma_name_insert_pos_bound(views(kept@), name@);
            }
            let ghost old_kept = kept@;
            kept.insert(pos, name);
            assert(views(kept@) =~= views(old_kept).insert(pos as int, chars@));
            proof {
                let m = memory_names_of(input.take(done + 1));
                assert(m.drop_last() =~= memory_names_of(input.take(done as int)));
                assert(m.last() == chars@);
            }
        }
        done += 1;
        proof {
            assert(views(rest@) =~= views(before_rest).subrange(1, before_rest.len() as int));
            assert(views(rest@) =~= input.subrange(done as int, n as int));
        }
    }
    assert(input.take(n as int) =~= input);
    kept
}

/// `names` is ordered: no name comes after a later one.
pub open spec fn names_ordered(names: Seq<Seq<char>>) -> bool {
    forall|i: int, j: int| #![trigger names[i], names[j]] 0 <= i < j < names.len() ==> !str_lt(names[j], names[i])
}

/// In an ordered list, `name_insert_pos` comes after every name not after
/// `x` and before every name after it.
pub proof fn lemma_name_insert_pos_splits(sorted: Seq<Seq<char>>, x: Seq<char>)
    requires
        names_ordered(sorted),
    ensures
        forall|i: int| 0 <= i < name_insert_pos(sorted, x) ==> !str_lt(x, #[trigger] sorted[i]),
        forall|i: int| name_insert_pos(sorted, x) <= i < sorted.len() ==> str_lt(x, #[trigger] sorted[i]),
    decreases sorted.len(),
{
    lemma_name_insert_pos_bound(sorted, x);
    if sorted.len() > 0 {
        let t = sorted.drop_first();
        assert forall|i: int, j: int| #![trigger t[i], t[j]] 0 <= i < j < t.len() implies !str_lt(t[j], t[i]) by {
            assert(t[i] == sorted[i + 1] && t[j] == sorted[j + 1]);
        }
        if !str_lt(x, sorted[0]) {
            lemma_name_insert_pos_splits(t, x);
            assert forall|i: int| 0 <= i < name_insert_pos(sorted, x) implies !str_lt(x, #[trigger] sorted[i]) by {
                if i > 0 {
                    assert(sorted[i] == t[i - 1]);
                }
            }
            assert forall|i: int| name_insert_pos(sorted, x) <= i < sorted.len() implies str_lt(x, #[trigger] sorted[i]) by {
                assert(sorted[i] == t[i - 1]);
            }
        } else {
            assert forall|i: int| 0 <= i < sorted.len() implies str_lt(x, #[trigger] sorted[i]) by {
                if i > 0 {
                    assert(!str_lt(sorted[i], sorted[0]));
                    lemma_str_lt_total(sorted[0], sorted[i]);
                    if sorted[0] != sorted[i] {
                        lemma_str_lt_transitive(x, sorted[0], sorted[i]);
                    }
                }
            }
        }
    }
}

/// Sorting orders the names and keeps each of them as often as it occurs.
pub proof fn law_sort_names_orders_and_keeps(names: Seq<Seq<char>>)
    ensures
        names_ordered(sort_names(names)),
        sort_names(names).to_multiset() == names.to_multiset(),
    decreases names.len(),
{
    broadcast use vstd::seq_lib::group_to_multiset_ensures;
    if names.len() > 0 {
        let init = names.drop_last();
        let x = names.last();
        law_sort_names_orders_and_keeps(init);
        let r = sort_names(init);
        let pos = name_insert_pos(r, x) as int;
        lemma_name_insert_pos_splits(r, x);
        lemma_name_insert_pos_bound(r, x);
        let out = sort_names(names);
        assert(out == r.insert(pos, x));
        assert forall|i: int, j: int| #![trigger out[i], out[j]] 0 <= i < j < out.len() implies !str_lt(out[j], out[i]) by {
            if j < pos {
                assert(out[i] == r[i] && out[j] == r[j]);
            } else if j == pos {
                assert(out[i] == r[i]);
            } else if i < pos {
                assert(out[i] == r[i] && out[j] == r[j - 1]);
                lemma_str_lt_total(x, r[j - 1]);
                if str_lt(out[j], out[i]) {
                    lemma_str_lt_total(r[i], x);
                    if r[i] == x {
                        assert(str_lt(x, r[j - 1]));
                    } else {
                        lemma_str_lt_transitive(r[i], x, r[j - 1]);
                    }
                    lemma_str_lt_total(r[i], r[j - 1]);
                }
            } else if i == pos {
                assert(out[j] == r[j - 1]);
                lemma_str_lt_total(x, r[j - 1]);
            } else {
                assert(out[i] == r[i - 1] && out[j] == r[j - 1]);
            }
        }
        assert(names =~= init.push(x));
    }
}

/// Some memory of `ms` is named `name`.
pub open spec fn has_memory_named(ms: Seq<Memory>, name: Seq<char>) -> bool {
    exists|i: int| 0 <= i < ms.len() && (#[trigger] ms[i]).name@ == name
}

/// `m` as listed from the directory of `scope` at time `now`.
pub open spec fn placed(m: Memory, scope: MemoryScope, now: Timestamp) -> Memory {
    Memory { scope: Some(scope), stale: spec_is_stale(m.memory_type, m.updated, now), ..m }
}

/// `merged` followed by the memories of `found` (read from the directory of
/// `scope`, in file order) whose names are not listed yet.
pub open spec fn merge_from(merged: Seq<Memory>, scope: MemoryScope, found: Seq<Memory>, now: Timestamp) -> Seq<Memory>
    decreases found.len(),
{
    if found.len() == 0 {
        merged
    } else {
        let m = merge_from(merged, scope, found.drop_last(), now);
        let x = found.last();
        if has_memory_named(m, x.name@) {
            m
        } else {
            m.push(placed(x, scope, now))
        }
    }
}

/// The first memory of `ms` named `name`.
pub open spec fn first_named(ms: Seq<Memory>, name: Seq<char>) -> Option<Memory>
    decreases ms.len(),
{
    if ms.len() == 0 {
        None
    } else if ms[0].name@ == name {
        Some(ms[0])
    } else {
        first_named(ms.drop_first(), name)
    }
}

/// Whether some memory of `ms` is named `name`.
fn memory_named(ms: &Vec<Memory>, name: &str) -> (r: bool)
    ensures
        r == has_memory_named(ms@, name@),
{
    let mut i: usize = 0;
    while i < ms.len()
        invariant
            i <= ms.len(),
            forall|j: int| 0 <= j < i ==> (#[trigger] ms@[j]).name@ != name@,
        decreases ms.len() - i,
    {
        if crate::text::str_equal(ms[i].name.as_str(), name) {
            return true;
        }
        i += 1;
    }
    false
}

impl MemoryManager {
    /// Adds to `merged` the memories `found` in the directory of `scope`, in
    /// file order, skipping any whose name is already listed (so earlier
    /// scopes override later ones), each marked with its scope and staleness at `now`.
    pub fn merge_scope(merged: &mut Vec<Memory>, scope: MemoryScope, found: Vec<Memory>, now: Timestamp)
        ensures
            final(merged)@ == merge_from(old(merged)@, scope, found@, now),
    {
        let ghost input = found@;
        let ghost start = merged@;
        let n = found.len();
        let mut rest = found;
        let mut done: usize = 0;
        while rest.len() > 0
            invariant
                n == input.len(),
                done + rest.len() == n,
                rest@ == input.subrange(done as int, n as int),
                merged@ == merge_from(start, scope, input.take(done as int), now),
            decreases rest.len(),
        {
            let m = rest.remove(0);
            assert(m == input[done as int]);
            proof {
                assert(input.take(done + 1).drop_last() =~= input.take(done as int));
                assert(input.take(done + 1).last() == m);
            }
            if !memory_named(merged, m.name.as_str()) {
                let stale = is_stale(m.memory_type, m.updated, now);
                let entry = Memory {
                    name: m.name,
                    description: m.description,
                    memory_type: m.memory_type,
                    created: m.created,
                    updated: m.updated,
                    content: m.content,
                    stale,
                    scope: Some(scope),
                };
                merged.push(entry);
            }
            done += 1;
            assert(rest@ =~= input.subrange(done as int, n as int));
        }
        assert(input.take(n as int) =~= input);
    }

    /// The first memory of `memories` named `name`.
    pub fn get(memories: Vec<Memory>, name: &str) -> (r: Option<Memory>)
        ensures
            r == first_named(memories@, name@),
    {
        let ghost input = memories@;
        let n = memories.len();
        let mut rest = memories;
        let mut done: usize = 0;
        while rest.len() > 0
            invariant
                n == input.len(),
                done + rest.len() == n,
                rest@ == input.subrange(done as int, n as int),
                input == memories@,
                first_named(input, name@) == first_named(rest@, name@),
            decreases rest.len(),
        {
            let ghost before = rest@;
            let m = rest.remove(0);
            assert(before.drop_first() =~= rest@);
            if crate::text::str_equal(m.name.as_str(), name) {
                return Some(m);
            }
            done += 1;
            assert(rest@ =~= input.subrange(done as int, n as int));
        }
        None
    }

    /// The record saved for a memory: `created` is kept from an existing
    /// record (else `now`), `updated` is `now`, and it is fresh.
    pub fn memory_record(
        scope: MemoryScope,
        name: &str,
        description: &str,
        memory_type: MemoryType,
        content: &str,
        existing_created: Option<Timestamp>,
        now: Timestamp,
    ) -> (m: Memory)
        ensures
            m.name@ == name@,
            m.description@ == description@,
            m.memory_type == memory_type,
            m.created == (match existing_created {
                Some(t) => t,
                None => now,
            }),
            m.updated == now,
            m.content@ == content@,
            !m.stale,
            m.scope == Some(scope),
    {
        Memory {
            name: owned(name),
            description: owned(description),
            memory_type,
            created: match existing_created {
                Some(t) => t,
                None => now,
            },
            updated: now,
            content: owned(content),
            stale: false,
            scope: Some(scope),
        }
    }
}

/// Whether `c` is alphabetic or numeric in Unicode's sense (`char::is_alphanumeric`).
pub uninterp spec fn unicode_alphanumeric(c: char) -> bool;

/// The Unicode lower-case form of `s` (`str::to_lowercase`).
pub uninterp spec fn unicode_lowercase(s: Seq<char>) -> Seq<char>;

/// `char::is_alphanumeric`; the contract names its answer.
#[verifier::external_body]
fn char_is_alphanumeric(c: char) -> (r: bool)
    ensures
        r == unicode_alphanumeric(c),
{
    c.is_alphanumeric()
}

/// `str::to_lowercase`; the contract names its result.
#[verifier::external_body]
fn lowercase(s: &str) -> (r: String)
    ensures
        r@ == unicode_lowercase(s@),
{
    s.to_lowercase()
}

/// `c` separates the terms of a search query.
pub open spec fn is_term_separator(c: char) -> bool {
    !unicode_alphanumeric(c) && c != '_' && c != '-'
}

/// The pieces of `s` between separators, empty pieces included.
pub open spec fn query_pieces(s: Seq<char>) -> Seq<Seq<char>>
    decreases s.len(),
{
    if s.len() == 0 {
        seq![Seq::empty()]
    } else {
        let p = query_pieces(s.drop_last());
        if is_term_separator(s.last()) {
            p.push(Seq::empty())
        } else {
            p.update(p.len() - 1, p.last().push(s.last()))
        }
    }
}

/// The lower-cased pieces of `pieces` that have at least two characters.
pub open spec fn long_terms(pieces: Seq<Seq<char>>) -> Seq<Seq<char>>
    decreases pieces.len(),
{
    if pieces.len() == 0 {
        Seq::empty()
    } else {
        let r = long_terms(pieces.drop_last());
        if pieces.last().len() >= 2 {
            r.push(unicode_lowercase(pieces.last()))
        } else {
            r
        }
    }
}

/// The search terms of `query`.
pub open spec fn spec_search_terms(query: Seq<char>) -> Seq<Seq<char>> {
    long_terms(query_pieces(query))
}

/// Appends to `terms` the lower-cased `piece` when it is long enough to be a term.
fn push_term(terms: &mut Vec<String>, piece: &Vec<char>)
    ensures
        views(final(terms)@) == (if piece@.len() >= 2 {
            views(old(terms)@).push(unicode_lowercase(piece@))
        } else {
            views(old(terms)@)
        }),
{
    if piece.len() >= 2 {
        let text = string_from_chars(piece, 0, piece.len());
        assert(piece@.subrange(0, piece@.len() as int) =~= piece@);
        let term = lowercase(text.as_str());
        let ghost before = terms@;
        terms.push(term);
        assert(terms@ == before.push(term));
        assert(views(terms@) =~= views(before).push(term@));
    }
}

/// The terms of a search query: the pieces between characters that are not
/// alphanumeric, `_` or `-`, at least two characters long, lower-cased.
pub fn search_terms(query: &str) -> (r: Vec<String>)
    ensures
        views(r@) == spec_search_terms(query@),
{
    let chars = chars_of(query);
    let mut terms: Vec<String> = Vec::new();
    let mut current: Vec<char> = Vec::new();
    let mut i: usize = 0;
    proof {
        assert(chars@.take(0) =~= Seq::<char>::empty());
        assert(query_pieces(Seq::<char>::empty()).drop_last() =~= Seq::<Seq<char>>::empty());
    }
    while i < chars.len()
        invariant
            chars@ == query@,
            i <= chars.len(),
            query_pieces(chars@.take(i as int)).len() >= 1,
            views(terms@) == long_terms(query_pieces(chars@.take(i as int)).drop_last()),
            current@ == query_pieces(chars@.take(i as int)).last(),
        decreases chars.len() - i,
    {
        let c = chars[i];
        let ghost p = query_pieces(chars@.take(i as int));
        proof {
            assert(chars@.take(i + 1).drop_last() =~= chars@.take(i as int));
            assert(chars@.take(i + 1).last() == c);
        }
        let sep = !char_is_alphanumeric(c) && c != '_' && c != '-';
        if sep {
            push_term(&mut terms, &current);
            current = Vec::new();
            proof {
                let q = p.push(Seq::<char>::empty());
                assert(q.drop_last() =~= p);
                assert(p =~= p.drop_last().push(p.last()));
            }
        } else {
            current.push(c);
            proof {
                let q = p.update(p.len() - 1, p.last().push(c));
                assert(q.drop_last() =~= p.drop_last());
            }
        }
        i += 1;
    }
    proof {
        assert(chars@.take(chars.len() as int) =~= chars@);
        let p = query_pieces(chars@);
        assert(p =~= p.drop_last().push(p.last()));
    }
    push_term(&mut terms, &current);
    terms
}

/// `a + b`, capped at `usize::MAX`.
pub open spec fn sat_add(a: nat, b: nat) -> nat {
    if a + b <= usize::MAX { a + b } else { usize::MAX as nat }
}

/// The score one term earns: 5 for the name, 3 for the description and 1
/// for the content, each when it contains the term.
pub open spec fn term_score(name: Seq<char>, description: Seq<char>, content: Seq<char>, term: Seq<char>) -> nat {
    (if contains(name, term) { 5nat } else { 0nat }) + (if contains(description, term) { 3nat } else { 0nat })
        + (if contains(content, term) { 1nat } else { 0nat })
}

/// The summed score of `terms`, capped at `usize::MAX`.
pub open spec fn score_terms(name: Seq<char>, description: Seq<char>, content: Seq<char>, terms: Seq<Seq<char>>) -> nat
    decreases terms.len(),
{
    if terms.len() == 0 {
        0
    } else {
        sat_add(score_terms(name, description, content, terms.drop_last()), term_score(name, description, content, terms.last()))
    }
}

/// How well memory `m` matches `terms`, comparing in lower case.
pub open spec fn spec_memory_score(m: Memory, terms: Seq<Seq<char>>) -> nat {
    score_terms(unicode_lowercase(m.name@), unicode_lowercase(m.description@), unicode_lowercase(m.content@), terms)
}

/// How well memory `m` matches `terms`.
pub fn memory_score(m: &Memory, terms: &Vec<String>) -> (r: usize)
    ensures
        r as nat == spec_memory_score(*m, views(terms@)),
{
    let name = lowercase(m.name.as_str());
    let description = lowercase(m.description.as_str());
    let content = lowercase(m.content.as_str());
    let name_chars = chars_of(name.as_str());
    let description_chars = chars_of(description.as_str());
    let content_chars = chars_of(content.as_str());
    let mut score: usize = 0;
    let mut i: usize = 0;
    while i < terms.len()
        invariant
            name_chars@ == unicode_lowercase(m.name@),
            description_chars@ == unicode_lowercase(m.description@),
            content_chars@ == unicode_lowercase(m.content@),
            i <= terms.len(),
            score as nat == score_terms(name_chars@, description_chars@, content_chars@, views(terms@.take(i as int))),
        decreases terms.len() - i,
    {
        let t = chars_of(terms[i].as_str());
        let mut gain: usize = 0;
        if crate::text::chars_contain(&name_chars, &t) {
            gain = gain + 5;
        }
        if crate::text::chars_contain(&description_chars, &t) {
            gain = gain + 3;
        }
        if crate::text::chars_contain(&content_chars, &t) {
            gain = gain + 1;
        }
        score = if score <= usize::MAX - gain { score + gain } else { usize::MAX };
        proof {
            let now = views(terms@.take(i + 1));
            assert(now.drop_last() =~= views(terms@.take(i as int)));
            assert(now.last() == terms@[i as int]@);
        }
        i += 1;
    }
    assert(terms@.take(terms.len() as int) =~= terms@);
    score
}

/// Where an item scored `s` goes in `sorted` (scores not increasing): after
/// every entry scored at least `s`.
pub open spec fn insert_pos(sorted: Seq<(nat, Memory)>, s: nat) -> nat
    decreases sorted.len(),
{
    if sorted.len() == 0 || sorted[0].0 < s {
        0
    } else {
        1 + insert_pos(sorted.drop_first(), s)
    }
}

/// The items of `items` with a positive score, ordered by score from high
/// to low, items of equal score in the order given.
pub open spec fn rank_scored(items: Seq<(nat, Memory)>) -> Seq<(nat, Memory)>
    decreases items.len(),
{
    if items.len() == 0 {
        Seq::empty()
    } else {
        let r = rank_scored(items.drop_last());
        let x = items.last();
        if x.0 > 0 {
            r.insert(insert_pos(r, x.0) as int, x)
        } else {
            r
        }
    }
}

/// The memories found for `terms` among `memories`: the best `max(limit, 1)`
/// matches, best first, equally good ones in listing order.
pub open spec fn spec_search(memories: Seq<Memory>, terms: Seq<Seq<char>>, limit: nat) -> Seq<Memory> {
    let ranked = rank_scored(memories.map_values(|m: Memory| (spec_memory_score(m, terms), m)));
    let k: nat = if limit >= 1 { limit } else { 1 };
    let kept = if ranked.len() <= k { ranked } else { ranked.take(k as int) };
    kept.map_values(|p: (nat, Memory)| p.1)
}

/// `insert_pos` is a position within the list.
pub proof fn lemma_insert_pos_bound(sorted: Seq<(nat, Memory)>, s: nat)
    ensures
        insert_pos(sorted, s) <= sorted.len(),
    decreases sorted.len(),
{
    if sorted.len() > 0 && sorted[0].0 >= s {
        lemma_insert_pos_bound(sorted.drop_first(), s);
    }
}

/// Ranking never adds items.
pub proof fn lemma_rank_scored_len(items: Seq<(nat, Memory)>)
    ensures
        rank_scored(items).len() <= items.len(),
    decreases items.len(),
{
    if items.len() > 0 {
        lemma_rank_scored_len(items.drop_last());
        let r = rank_scored(items.drop_last());
        lemma_insert_pos_bound(r, items.last().0);
    }
}

/// The scored memories as pairs.
pub open spec fn scored_view(v: Seq<(usize, Memory)>) -> Seq<(nat, Memory)> {
    v.map_values(|p: (usize, Memory)| (p.0 as nat, p.1))
}

impl MemoryManager {
    /// The memories of `memories` that match `query`: the best `max(limit, 1)`
    /// by score, best first, equally good ones in listing order.
    #[verifier::rlimit(40)]
    pub fn search(memories: Vec<Memory>, query: &str, limit: usize) -> (r: Vec<Memory>)
        ensures
            r@ == spec_search(memories@, spec_search_terms(query@), limit as nat),
    {
        let terms = search_terms(query);
        let ghost tv = views(terms@);
        let ghost input = memories@;
        let ghost scored = input.map_values(|m: Memory| (spec_memory_score(m, tv), m));
        let n = memories.len();
        let mut rest = memories;
        let mut ranked: Vec<(usize, Memory)> = Vec::new();
        let mut done: usize = 0;
        while rest.len() > 0
            invariant
                n == input.len(),
                done + rest.len() == n,
                rest@ == input.subrange(done as int, n as int),
                tv == views(terms@),
                scored == input.map_values(|m: Memory| (spec_memory_score(m, tv), m)),
                scored_view(ranked@) == rank_scored(scored.take(done as int)),
            decreases rest.len(),
        {
            let m = rest.remove(0);
            assert(m == input[done as int]);
            let score = memory_score(&m, &terms);
            proof {
                assert(scored.take(done + 1).drop_last() =~= scored.take(done as int));
                assert(scored.take(done + 1).last() == (score as nat, m));
            }
            if score > 0 {
                let mut pos: usize = 0;
                let ghost r = scored_view(ranked@);
                assert(r.skip(0) =~= r);
                while pos < ranked.len() && ranked[pos].0 >= score
                    invariant
                        r == scored_view(ranked@),
                        pos <= ranked.len(),
                        insert_pos(r, score as nat) == pos + insert_pos(r.skip(pos as int), score as nat),
                    decreases ranked.len() - pos,
                {
                    assert(r.skip(pos as int).drop_first() =~= r.skip(pos + 1));
                    pos += 1;
                }
                proof {
                    if pos < ranked.len() {
                        assert(r.skip(pos as int)[0] == r[pos as int]);
                    }
                }
                ranked.insert(pos, (score, m));
                assert(scored_view(ranked@) =~= r.insert(pos as int, (score as nat, m)));
            }
            done += 1;
            assert(rest@ =~= input.subrange(done as int, n as int));
        }
        assert(scored.take(n as int) =~= scored);
        let k: usize = if limit >= 1 { limit } else { 1 };
        let mut out: Vec<Memory> = Vec::new();
        let ghost full = scored_view(ranked@);
        let ghost kept = if full.len() <= k { full } else { full.take(k as int) };
        let keep = if ranked.len() <= k { ranked.len() } else { k };
        let mut taken = ranked;
        taken.truncate(keep);
        assert(scored_view(taken@) =~= kept);
        let mut j: usize = 0;
        let total = taken.len();
        let mut remaining = taken;
        while remaining.len() > 0
            invariant
                j + remaining.len() == total,
                scored_view(remaining@) == kept.subrange(j as int, total as int),
                total == kept.len(),
                out@ == kept.take(j as int).map_values(|p: (nat, Memory)| p.1),
            decreases remaining.len(),
        {
            let ghost before = remaining@;
            let (_, m) = remaining.remove(0);
            proof {
                assert(scored_view(before)[0] == kept[j as int]);
                assert(m == kept[j as int].1);
            }
            out.push(m);
            proof {
                assert(kept.take(j + 1) =~= kept.take(j as int).push(kept[j as int]));
            }
            j += 1;
            assert(out@ =~= kept.take(j as int).map_values(|p: (nat, Memory)| p.1));
            proof {
                assert(remaining@ =~= before.subrange(1, before.len() as int));
                assert forall|x: int| 0 <= x < remaining@.len() implies scored_view(remaining@)[x] == kept.subrange(j as int, total as int)[x] by {
                    assert(remaining@[x] == before[x + 1]);
                    assert(scored_view(before)[x + 1] == kept.subrange(j - 1, total as int)[x + 1]);
                }
            }
            assert(scored_view(remaining@) =~= kept.subrange(j as int, total as int));
        }
        assert(kept.take(total as int) =~= kept);
        out
    }
}

/// The prompt text never exceeds `MAX_PROMPT_CHARS` bytes.
pub proof fn lemma_prompt_from_bound(ms: Seq<Memory>, acc: Seq<char>)
    requires
        utf8_len(acc) <= MAX_PROMPT_CHARS,
    ensures
        utf8_len(prompt_from(ms, acc)) <= MAX_PROMPT_CHARS,
    decreases ms.len(),
{
    if ms.len() > 0 {
        if ms[0].stale {
            lemma_prompt_from_bound(ms.drop_first(), acc);
        } else if utf8_len(acc) + utf8_len(prompt_entry(ms[0])) <= MAX_PROMPT_CHARS {
            lemma_utf8_len_concat(acc, prompt_entry(ms[0]));
            lemma_prompt_from_bound(ms.drop_first(), acc + prompt_entry(ms[0]));
        }
    }
}

/// The memory text given to a prompt stays within `MAX_PROMPT_CHARS` bytes.
pub proof fn law_prompt_context_within_limit(memories: Seq<Memory>)
    ensures
        utf8_len(spec_prompt_context(memories)) <= MAX_PROMPT_CHARS,
{
    assert(vstd::utf8::encode_utf8(Seq::<char>::empty()) =~= Seq::<u8>::empty());
    lemma_prompt_from_bound(memories, Seq::empty());
}

/// No two memories of `ms` share a name.
pub open spec fn names_unique(ms: Seq<Memory>) -> bool {
    forall|i: int, j: int|
        #![trigger ms[i], ms[j]]
        0 <= i < j < ms.len() ==> ms[i].name@ != ms[j].name@
}

/// Merging a scope keeps what was listed before, in front and unchanged;
/// it keeps names unique; and afterwards every name found in the scope is listed.
pub proof fn law_merge_keeps_prefix_and_unique_names(merged: Seq<Memory>, scope: MemoryScope, found: Seq<Memory>, now: Timestamp)
    requires
        names_unique(merged),
    ensures
        merge_from(merged, scope, found, now).len() >= merged.len(),
        merge_from(merged, scope, found, now).take(merged.len() as int) == merged,
        names_unique(merge_from(merged, scope, found, now)),
        forall|j: int| 0 <= j < found.len() ==> has_memory_named(merge_from(merged, scope, found, now), (#[trigger] found[j]).name@),
    decreases found.len(),
{
    if found.len() > 0 {
        let init = found.drop_last();
        law_merge_keeps_prefix_and_unique_names(merged, scope, init, now);
        let m = merge_from(merged, scope, init, now);
        let x = found.last();
        let r = merge_from(merged, scope, found, now);
        if !has_memory_named(m, x.name@) {
            let p = placed(x, scope, now);
            assert(r == m.push(p));
            assert(r.take(merged.len() as int) =~= m.take(merged.len() as int));
            assert forall|i: int, j: int|
                #![trigger r[i], r[j]]
                0 <= i < j < r.len() implies r[i].name@ != r[j].name@ by {
                if j == r.len() - 1 {
                    assert(r[i] == m[i]);
                } else {
                    assert(r[i] == m[i] && r[j] == m[j]);
                }
            }
            assert forall|j: int| 0 <= j < found.len() implies has_memory_named(r, (#[trigger] found[j]).name@) by {
                if j < init.len() {
                    assert(init[j] == found[j]);
                    assert(has_memory_named(m, init[j].name@));
                    let k = choose|k: int| 0 <= k < m.len() && (#[trigger] m[k]).name@ == init[j].name@;
                    assert(r[k] == m[k]);
                } else {
                    assert(r[r.len() - 1] == p);
                }
            }
        } else {
            assert forall|j: int| 0 <= j < found.len() implies has_memory_named(r, (#[trigger] found[j]).name@) by {
                if j < init.len() {
                    assert(init[j] == found[j]);
                }
            }
        }
    }
}

/// `first_named` finds in `ms` what it finds in a prefix that holds the name.
pub proof fn lemma_first_named_prefix(ms: Seq<Memory>, k: int, name: Seq<char>)
    requires
        0 <= k <= ms.len(),
        has_memory_named(ms.take(k), name),
    ensures
        first_named(ms, name) == first_named(ms.take(k), name),
    decreases k,
{
    let p = ms.take(k);
    if ms[0].name@ != name {
        let i = choose|i: int| 0 <= i < p.len() && (#[trigger] p[i]).name@ == name;
        assert(p.drop_first() =~= ms.drop_first().take(k - 1));
        assert(ms.drop_first().take(k - 1)[i - 1] == p[i]);
        lemma_first_named_prefix(ms.drop_first(), k - 1, name);
    }
}

/// A memory listed from an earlier scope wins over one of the same name
/// found in a later scope: the first memory of that name stays the earlier one.
pub proof fn law_earlier_scope_wins(merged: Seq<Memory>, scope: MemoryScope, found: Seq<Memory>, now: Timestamp, name: Seq<char>)
    requires
        names_unique(merged),
        has_memory_named(merged, name),
    ensures
        first_named(merge_from(merged, scope, found, now), name) == first_named(merged, name),
{
    law_merge_keeps_prefix_and_unique_names(merged, scope, found, now);
    let r = merge_from(merged, scope, found, now);
    lemma_first_named_prefix(r, merged.len() as int, name);
}

/// Every valid memory name but `MEMORY` names a file that is listed as a memory.
pub proof fn law_valid_name_file_is_listed(name: Seq<char>)
    requires
        valid_memory_name(name),
        name != "MEMORY"@,
    ensures
        spec_is_memory_file_name(spec_memory_file_name(name)),
{
    reveal_strlit(".md");
    reveal_strlit("MEMORY.md");
    reveal_strlit("MEMORY");
    let f = spec_memory_file_name(name);
    assert(f.skip(f.len() - 3) =~= ".md"@);
    if f == "MEMORY.md"@ {
        assert(name =~= f.take(f.len() - 3));
        assert(name =~= "MEMORY"@);
    }
}

/// The scores of `r` do not increase from front to back.
pub open spec fn scores_non_increasing(r: Seq<(nat, Memory)>) -> bool {
    forall|i: int, j: int| #![trigger r[i], r[j]] 0 <= i < j < r.len() ==> r[i].0 >= r[j].0
}

/// In a list whose scores do not increase, `insert_pos` comes after every
/// entry scored at least `s` and before every entry scored less.
pub proof fn lemma_insert_pos_splits(r: Seq<(nat, Memory)>, s: nat)
    requires
        scores_non_increasing(r),
    ensures
        forall|i: int| 0 <= i < insert_pos(r, s) ==> (#[trigger] r[i]).0 >= s,
        forall|i: int| insert_pos(r, s) <= i < r.len() ==> (#[trigger] r[i]).0 < s,
    decreases r.len(),
{
    lemma_insert_pos_bound(r, s);
    if r.len() > 0 {
        let t = r.drop_first();
        assert forall|i: int, j: int| #![trigger t[i], t[j]] 0 <= i < j < t.len() implies t[i].0 >= t[j].0 by {
            assert(t[i] == r[i + 1] && t[j] == r[j + 1]);
        }
        if r[0].0 >= s {
            lemma_insert_pos_splits(t, s);
            assert forall|i: int| 0 <= i < insert_pos(r, s) implies (#[trigger] r[i]).0 >= s by {
                if i > 0 {
                    assert(r[i] == t[i - 1]);
                }
            }
            assert forall|i: int| insert_pos(r, s) <= i < r.len() implies (#[trigger] r[i]).0 < s by {
                assert(r[i] == t[i - 1]);
            }
        } else {
            assert forall|i: int| insert_pos(r, s) <= i < r.len() implies (#[trigger] r[i]).0 < s by {
                if i > 0 {
                    assert(r[0].0 >= r[i].0);
                }
            }
        }
    }
}

/// Ranking orders by score, keeps only positive scores, and takes every
/// entry from the items ranked.
pub proof fn lemma_rank_scored_sorted(items: Seq<(nat, Memory)>)
    ensures
        scores_non_increasing(rank_scored(items)),
        forall|i: int| 0 <= i < rank_scored(items).len() ==> (#[trigger] rank_scored(items)[i]).0 > 0,
        forall|i: int| 0 <= i < rank_scored(items).len() ==> items.contains(#[trigger] rank_scored(items)[i]),
    decreases items.len(),
{
    if items.len() > 0 {
        let init = items.drop_last();
        lemma_rank_scored_sorted(init);
        let r = rank_scored(init);
        let x = items.last();
        let out = rank_scored(items);
        assert forall|i: int| 0 <= i < r.len() implies items.contains(#[trigger] r[i]) by {
            let j = choose|j: int| 0 <= j < init.len() && init[j] == r[i];
            assert(items[j] == r[i]);
        }
        if x.0 > 0 {
            let pos = insert_pos(r, x.0) as int;
            lemma_insert_pos_splits(r, x.0);
            lemma_insert_pos_bound(r, x.0);
            assert(out == r.insert(pos, x));
            assert(items[items.len() - 1] == x);
            assert forall|i: int| 0 <= i < out.len() implies (#[trigger] out[i]).0 > 0 && items.contains(out[i]) by {
                if i < pos {
                    assert(out[i] == r[i]);
                } else if i > pos {
                    assert(out[i] == r[i - 1]);
                }
            }
            assert forall|i: int, j: int| #![trigger out[i], out[j]] 0 <= i < j < out.len() implies out[i].0 >= out[j].0 by {
                if j < pos {
                    assert(out[i] == r[i] && out[j] == r[j]);
                } else if j == pos {
                    assert(out[i] == r[i]);
                } else if i < pos {
                    assert(out[i] == r[i] && out[j] == r[j - 1]);
                } else if i == pos {
                    assert(out[j] == r[j - 1]);
                } else {
                    assert(out[i] == r[i - 1] && out[j] == r[j - 1]);
                }
            }
        }
    }
}

/// A search returns at most `max(limit, 1)` memories, each one of those
/// searched, each matching at least one term, best match first.
pub proof fn law_search_ranks_matches(memories: Seq<Memory>, terms: Seq<Seq<char>>, limit: nat)
    ensures
        ({
            let out = spec_search(memories, terms, limit);
            &&& out.len() <= (if limit >= 1 { limit } else { 1 })
            &&& out.len() <= memories.len()
            &&& forall|i: int| 0 <= i < out.len() ==> memories.contains(#[trigger] out[i])
            &&& forall|i: int| 0 <= i < out.len() ==> spec_memory_score(#[trigger] out[i], terms) > 0
            &&& forall|i: int, j: int| #![trigger out[i], out[j]] 0 <= i < j < out.len()
                ==> spec_memory_score(out[i], terms) >= spec_memory_score(out[j], terms)
        }),
{
    let items = memories.map_values(|m: Memory| (spec_memory_score(m, terms), m));
    let ranked = rank_scored(items);
    lemma_rank_scored_sorted(items);
    lemma_rank_scored_len(items);
    let k: nat = if limit >= 1 { limit } else { 1 };
    let kept = if ranked.len() <= k { ranked } else { ranked.take(k as int) };
    let out = spec_search(memories, terms, limit);
    assert(out == kept.map_values(|p: (nat, Memory)| p.1));
    assert forall|i: int| 0 <= i < kept.len() implies (#[trigger] kept[i]) == ranked[i] by {}
    assert forall|i: int| 0 <= i < kept.len() implies memories.contains((#[trigger] kept[i]).1)
        && kept[i].0 == spec_memory_score(kept[i].1, terms) by {
        assert(items.contains(ranked[i]));
        let j = choose|j: int| 0 <= j < items.len() && items[j] == ranked[i];
        assert(memories[j] == ranked[i].1);
    }
    assert forall|i: int| 0 <= i < out.len() implies memories.contains(#[trigger] out[i])
        && spec_memory_score(out[i], terms) > 0 by {
        assert(out[i] == kept[i].1);
    }
    assert forall|i: int, j: int| #![trigger out[i], out[j]] 0 <= i < j < out.len()
        implies spec_memory_score(out[i], terms) >= spec_memory_score(out[j], terms) by {
        assert(out[i] == kept[i].1 && out[j] == kept[j].1);
        assert(ranked[i].0 >= ranked[j].0);
    }
}

/// Ranking keeps every item with a positive score.
pub proof fn lemma_rank_scored_complete(items: Seq<(nat, Memory)>)
    ensures
        forall|j: int| 0 <= j < items.len() && (#[trigger] items[j]).0 > 0 ==> rank_scored(items).contains(items[j]),
    decreases items.len(),
{
    if items.len() > 0 {
        let init = items.drop_last();
        lemma_rank_scored_complete(init);
        let r = rank_scored(init);
        let x = items.last();
        let out = rank_scored(items);
        assert forall|j: int| 0 <= j < items.len() && (#[trigger] items[j]).0 > 0 implies out.contains(items[j]) by {
            if j < init.len() {
                assert(init[j] == items[j]);
                assert(r.contains(init[j]));
                let t = choose|t: int| 0 <= t < r.len() && r[t] == init[j];
                if x.0 > 0 {
                    let pos = insert_pos(r, x.0) as int;
                    lemma_insert_pos_bound(r, x.0);
                    if t < pos {
                        assert(out[t] == r[t]);
                    } else {
                        assert(out[t + 1] == r[t]);
                    }
                } else {
                    assert(out[t] == r[t]);
                }
            } else {
                let pos = insert_pos(r, x.0) as int;
                lemma_insert_pos_bound(r, x.0);
                assert(out[pos] == x);
            }
        }
    }
}

/// A search returns the best matches: a matching memory that is left out
/// scores no better than any memory returned, and then the full
/// `max(limit, 1)` memories are returned.
pub proof fn law_search_keeps_best_matches(memories: Seq<Memory>, terms: Seq<Seq<char>>, limit: nat, m: Memory)
    requires
        memories.contains(m),
        spec_memory_score(m, terms) > 0,
        !spec_search(memories, terms, limit).contains(m),
    ensures
        spec_search(memories, terms, limit).len() == (if limit >= 1 { limit } else { 1 }),
        forall|i: int| 0 <= i < spec_search(memories, terms, limit).len()
            ==> spec_memory_score(#[trigger] spec_search(memories, terms, limit)[i], terms) >= spec_memory_score(m, terms),
{
    let items = memories.map_values(|x: Memory| (spec_memory_score(x, terms), x));
    let ranked = rank_scored(items);
    let k: nat = if limit >= 1 { limit } else { 1 };
    let out = spec_search(memories, terms, limit);
    let kept = if ranked.len() <= k { ranked } else { ranked.take(k as int) };
    assert(out == kept.map_values(|p: (nat, Memory)| p.1));
    lemma_rank_scored_sorted(items);
    lemma_rank_scored_complete(items);
    let j = choose|j: int| 0 <= j < memories.len() && memories[j] == m;
    assert(items[j] == (spec_memory_score(m, terms), m));
    assert(ranked.contains(items[j]));
    let t = choose|t: int| 0 <= t < ranked.len() && ranked[t] == items[j];
    if t < k {
        assert(kept[t] == ranked[t]);
        assert(out[t] == m);
        assert(out.contains(m));
    }
    assert(ranked.len() > k);
    assert forall|i: int| 0 <= i < out.len() implies spec_memory_score(#[trigger] out[i], terms) >= spec_memory_score(m, terms) by {
        assert(out[i] == kept[i].1);
        assert(kept[i] == ranked[i]);
        assert(items.contains(ranked[i]));
        let q = choose|q: int| 0 <= q < items.len() && items[q] == ranked[i];
        assert(ranked[i].0 == spec_memory_score(memories[q], terms));
        assert(ranked[i].0 >= ranked[t].0);
    }
}

/// `idx` places each entry of `ranked` at a distinct index of `items`, and
/// entries of equal score appear in the order of their indices.
pub open spec fn ranked_from(items: Seq<(nat, Memory)>, ranked: Seq<(nat, Memory)>, idx: Seq<int>) -> bool {
    &&& idx.len() == ranked.len()
    &&& forall|i: int| 0 <= i < idx.len() ==> 0 <= #[trigger] idx[i] < items.len() && items[idx[i]] == ranked[i]
    &&& forall|i: int, j: int| 0 <= i < j < idx.len() ==> #[trigger] idx[i] != #[trigger] idx[j]
    &&& forall|i: int, j: int|
        #![trigger idx[i], idx[j]]
        0 <= i < j < idx.len() && ranked[i].0 == ranked[j].0 ==> idx[i] < idx[j]
}

/// Ranking takes each item at most once and keeps equally scored items in order.
pub proof fn lemma_rank_scored_stable(items: Seq<(nat, Memory)>)
    ensures
        exists|idx: Seq<int>| ranked_from(items, rank_scored(items), idx),
    decreases items.len(),
{
    if items.len() == 0 {
        assert(ranked_from(items, rank_scored(items), Seq::<int>::empty()));
    } else {
        let init = items.drop_last();
        lemma_rank_scored_stable(init);
        lemma_rank_scored_sorted(init);
        let r = rank_scored(init);
        let x = items.last();
        let n = items.len() - 1;
        let idx0 = choose|idx: Seq<int>| ranked_from(init, r, idx);
        assert forall|i: int| 0 <= i < idx0.len() implies items[#[trigger] idx0[i]] == r[i] by {
            assert(init[idx0[i]] == items[idx0[i]]);
        }
        if x.0 > 0 {
            let pos = insert_pos(r, x.0) as int;
            lemma_insert_pos_bound(r, x.0);
            lemma_insert_pos_splits(r, x.0);
            let out = rank_scored(items);
            let idx = idx0.insert(pos, n);
            assert(out == r.insert(pos, x));
            assert(items[n] == x);
            assert forall|i: int| 0 <= i < idx.len() implies 0 <= #[trigger] idx[i] < items.len() && items[idx[i]] == out[i] && idx[i] <= n by {
                if i < pos {
                    assert(idx[i] == idx0[i] && out[i] == r[i]);
                } else if i > pos {
                    assert(idx[i] == idx0[i - 1] && out[i] == r[i - 1]);
                }
            }
            assert forall|i: int, j: int| 0 <= i < j < idx.len() implies #[trigger] idx[i] != #[trigger] idx[j] by {
                if j < pos {
                    assert(idx[i] == idx0[i] && idx[j] == idx0[j]);
                } else if j == pos {
                    assert(idx[i] == idx0[i]);
                } else if i < pos {
                    assert(idx[i] == idx0[i] && idx[j] == idx0[j - 1]);
                } else if i == pos {
                    assert(idx[j] == idx0[j - 1]);
                } else {
                    assert(idx[i] == idx0[i - 1] && idx[j] == idx0[j - 1]);
                }
            }
            assert forall|i: int, j: int|
                #![trigger idx[i], idx[j]]
                0 <= i < j < idx.len() && out[i].0 == out[j].0 implies idx[i] < idx[j] by {
                if j < pos {
                    assert(idx[i] == idx0[i] && idx[j] == idx0[j]);
                    assert(out[i] == r[i] && out[j] == r[j]);
                } else if j == pos {
                    assert(idx[i] == idx0[i]);
                } else if i < pos {
                    assert(idx[i] == idx0[i] && idx[j] == idx0[j - 1]);
                    assert(out[i] == r[i] && out[j] == r[j - 1]);
                } else if i == pos {
                    assert(out[j] == r[j - 1]);
                } else {
                    assert(idx[i] == idx0[i - 1] && idx[j] == idx0[j - 1]);
                    assert(out[i] == r[i - 1] && out[j] == r[j - 1]);
                }
            }
            assert(ranked_from(items, out, idx));
        } else {
            assert(ranked_from(items, rank_scored(items), idx0));
        }
    }
}

/// `idx` places each memory of `out` at a distinct index of `memories`, and
/// memories of equal score for `terms` appear in the order of their indices.
pub open spec fn placed_in_listing(memories: Seq<Memory>, terms: Seq<Seq<char>>, out: Seq<Memory>, idx: Seq<int>) -> bool {
    &&& idx.len() == out.len()
    &&& forall|i: int| 0 <= i < idx.len() ==> 0 <= #[trigger] idx[i] < memories.len() && memories[idx[i]] == out[i]
    &&& forall|i: int, j: int| 0 <= i < j < idx.len() ==> #[trigger] idx[i] != #[trigger] idx[j]
    &&& forall|i: int, j: int|
        #![trigger idx[i], idx[j]]
        0 <= i < j < idx.len() && spec_memory_score(out[i], terms) == spec_memory_score(out[j], terms)
            ==> idx[i] < idx[j]
}

/// A search lists equally good matches in the order the memories were
/// listed, and returns no listed memory twice.
pub proof fn law_search_keeps_listing_order(memories: Seq<Memory>, terms: Seq<Seq<char>>, limit: nat)
    ensures
        exists|idx: Seq<int>| #[trigger] placed_in_listing(memories, terms, spec_search(memories, terms, limit), idx),
{
    let items = memories.map_values(|x: Memory| (spec_memory_score(x, terms), x));
    let ranked = rank_scored(items);
    lemma_rank_scored_stable(items);
    lemma_rank_scored_len(items);
    let all = choose|idx: Seq<int>| ranked_from(items, ranked, idx);
    let k: nat = if limit >= 1 { limit } else { 1 };
    let kept = if ranked.len() <= k { ranked } else { ranked.take(k as int) };
    let out = spec_search(memories, terms, limit);
    assert(out == kept.map_values(|p: (nat, Memory)| p.1));
    let idx = if ranked.len() <= k { all } else { all.take(k as int) };
    assert forall|i: int| 0 <= i < idx.len() implies 0 <= #[trigger] idx[i] < memories.len() && memories[idx[i]] == out[i]
        && ranked[i].0 == spec_memory_score(out[i], terms) by {
        assert(idx[i] == all[i]);
        assert(kept[i] == ranked[i]);
        assert(items[all[i]] == ranked[i]);
    }
    assert forall|i: int, j: int| 0 <= i < j < idx.len() implies #[trigger] idx[i] != #[trigger] idx[j] by {
        assert(idx[i] == all[i] && idx[j] == all[j]);
    }
    assert forall|i: int, j: int|
        #![trigger idx[i], idx[j]]
        0 <= i < j < idx.len() && spec_memory_score(out[i], terms) == spec_memory_score(out[j], terms)
            implies idx[i] < idx[j] by {
        assert(idx[i] == all[i] && idx[j] == all[j]);
    }
    assert(placed_in_listing(memories, terms, out, idx));
}

/// What `first_named` finds is a memory of `ms` with that name; it finds
/// one exactly when `ms` has one.
pub proof fn lemma_first_named_found(ms: Seq<Memory>, name: Seq<char>)
    ensures
        first_named(ms, name) is Some <==> has_memory_named(ms, name),
        first_named(ms, name) matches Some(m) ==> m.name@ == name && ms.contains(m),
    decreases ms.len(),
{
    if ms.len() > 0 {
        let rest = ms.drop_first();
        lemma_first_named_found(rest, name);
        if ms[0].name@ != name {
            if has_memory_named(ms, name) {
                let i = choose|i: int| 0 <= i < ms.len() && (#[trigger] ms[i]).name@ == name;
                assert(rest[i - 1] == ms[i]);
            }
            if has_memory_named(rest, name) {
                let i = choose|i: int| 0 <= i < rest.len() && (#[trigger] rest[i]).name@ == name;
                assert(ms[i + 1] == rest[i]);
            }
            if let Some(m) = first_named(rest, name) {
                let i = choose|i: int| 0 <= i < rest.len() && rest[i] == m;
                assert(ms[i + 1] == m);
            }
        } else {
            assert(ms[0] == ms[0]);
        }
    }
}

/// Appending a memory does not change what an earlier one of that name finds,
/// and finds the appended memory when none before has its name.
pub proof fn lemma_first_named_push(ms: Seq<Memory>, x: Memory, name: Seq<char>)
    ensures
        has_memory_named(ms, name) ==> first_named(ms.push(x), name) == first_named(ms, name),
        !has_memory_named(ms, name) && x.name@ == name ==> first_named(ms.push(x), name) == Some(x),
    decreases ms.len(),
{
    let p = ms.push(x);
    if ms.len() == 0 {
        assert(p[0] == x);
    } else {
        assert(p.drop_first() =~= ms.drop_first().push(x));
        assert(p[0] == ms[0]);
        lemma_first_named_push(ms.drop_first(), x, name);
        if ms[0].name@ != name {
            if has_memory_named(ms, name) {
                let i = choose|i: int| 0 <= i < ms.len() && (#[trigger] ms[i]).name@ == name;
                assert(ms.drop_first()[i - 1] == ms[i]);
            }
            if has_memory_named(ms.drop_first(), name) {
                let i = choose|i: int| 0 <= i < ms.drop_first().len() && (#[trigger] ms.drop_first()[i]).name@ == name;
                assert(ms[i + 1] == ms.drop_first()[i]);
            }
        }
    }
}

/// Every name listed after a merge was listed before it or found in the scope.
pub proof fn lemma_merge_names(merged: Seq<Memory>, scope: MemoryScope, found: Seq<Memory>, now: Timestamp, name: Seq<char>)
    ensures
        has_memory_named(merge_from(merged, scope, found, now), name) ==> has_memory_named(merged, name)
            || has_memory_named(found, name),
    decreases found.len(),
{
    if found.len() > 0 {
        let init = found.drop_last();
        lemma_merge_names(merged, scope, init, now, name);
        let m = merge_from(merged, scope, init, now);
        let r = merge_from(merged, scope, found, now);
        if has_memory_named(r, name) {
            let i = choose|i: int| 0 <= i < r.len() && (#[trigger] r[i]).name@ == name;
            if i < m.len() {
                assert(r[i] == m[i]);
                if has_memory_named(init, name) {
                    let k = choose|k: int| 0 <= k < init.len() && (#[trigger] init[k]).name@ == name;
                    assert(found[k] == init[k]);
                }
            } else {
                assert(found[found.len() - 1].name@ == name);
            }
        }
    }
}

/// Listing finds a saved memory: when no earlier scope lists a memory named
/// `name`, the first memory named `name` after merging the scope it was saved
/// in is the first one of that name read from that scope, marked with the
/// scope and its staleness at `now`.
pub proof fn law_saved_memory_is_found(merged: Seq<Memory>, scope: MemoryScope, found: Seq<Memory>, now: Timestamp, name: Seq<char>)
    requires
        !has_memory_named(merged, name),
        has_memory_named(found, name),
    ensures
        first_named(merge_from(merged, scope, found, now), name) == Some(
            placed(first_named(found, name).unwrap(), scope, now),
        ),
    decreases found.len(),
{
    let init = found.drop_last();
    let x = found.last();
    let m = merge_from(merged, scope, init, now);
    lemma_first_named_found(found, name);
    lemma_first_named_found(init, name);
    if has_memory_named(init, name) {
        law_saved_memory_is_found(merged, scope, init, now, name);
        lemma_first_named_found(m, name);
        lemma_first_named_push(m, placed(x, scope, now), name);
        lemma_first_named_prefix_push(found, name);
    } else {
        lemma_merge_names(merged, scope, init, now, name);
        assert(x.name@ == name) by {
            let i = choose|i: int| 0 <= i < found.len() && (#[trigger] found[i]).name@ == name;
            if i < init.len() {
                assert(init[i] == found[i]);
            }
        }
        lemma_first_named_push(m, placed(x, scope, now), name);
        lemma_first_named_prefix_push(found, name);
    }
}

/// `first_named` of a list is that of its front part when the front part has
/// the name, and the last memory when only it has the name.
proof fn lemma_first_named_prefix_push(found: Seq<Memory>, name: Seq<char>)
    requires
        found.len() > 0,
    ensures
        has_memory_named(found.drop_last(), name) ==> first_named(found, name) == first_named(found.drop_last(), name),
        !has_memory_named(found.drop_last(), name) && found.last().name@ == name ==> first_named(found, name) == Some(found.last()),
{
    assert(found =~= found.drop_last().push(found.last()));
    lemma_first_named_push(found.drop_last(), found.last(), name);
}

/// Saving a memory and listing again gets it back. The memory is saved in
/// `scope` at `saved_at` with frontmatter `front` (as the YAML writer ends it,
/// with a newline) and `content`; `read` is what is read back from that file,
/// its header fields being what the YAML reader gives for `front`, and its
/// content what the file's text splits into. When `read` is the first memory
/// of its name found in `scope` and no earlier scope lists that name, `get`
/// after listing at `now` returns the saved fields, the content trimmed, the
/// creation time kept from an earlier record (else `saved_at`), the scope, and
/// its staleness at `now`.
pub proof fn law_save_then_get(
    scope: MemoryScope,
    name: Seq<char>,
    description: Seq<char>,
    memory_type: MemoryType,
    content: Seq<char>,
    existing_created: Option<Timestamp>,
    saved_at: Timestamp,
    front: Seq<char>,
    read: Memory,
    merged: Seq<Memory>,
    found: Seq<Memory>,
    now: Timestamp,
)
    requires
        !contains(front + "\n---"@, frontmatter_close()),
        read.name@ == name,
        read.description@ == description,
        read.memory_type == memory_type,
        read.created == (match existing_created {
            Some(t) => t,
            None => saved_at,
        }),
        read.updated == saved_at,
        spec_split_memory_text(spec_render_memory_text(front + "\n"@, content)) matches Ok(parts)
            && read.content@ == parts.1,
        first_named(found, name) == Some(read),
        !has_memory_named(merged, name),
    ensures
        first_named(merge_from(merged, scope, found, now), name) matches Some(m) && {
            &&& m.name@ == name
            &&& m.description@ == description
            &&& m.memory_type == memory_type
            &&& m.content@ == trim(content)
            &&& m.created == (match existing_created {
                Some(t) => t,
                None => saved_at,
            })
            &&& m.updated == saved_at
            &&& m.scope == Some(scope)
            &&& m.stale == spec_is_stale(memory_type, saved_at, now)
        },
{
    law_memory_text_round_trip(front, content);
    lemma_first_named_found(found, name);
    law_saved_memory_is_found(merged, scope, found, now, name);
}

/// One term scores 5 when the name contains it, 3 when the description does
/// and 1 when the content does, added together; a memory's score for a list
/// of terms is the sum of its terms' scores, capped at `usize::MAX`, so each
/// further matching term raises it until the cap.
pub proof fn law_score_sums_term_scores(
    name: Seq<char>,
    description: Seq<char>,
    content: Seq<char>,
    terms: Seq<Seq<char>>,
    t: Seq<char>,
)
    ensures
        term_score(name, description, content, t) == (if contains(name, t) { 5int } else { 0int }) + (
        if contains(description, t) { 3int } else { 0int }) + (if contains(content, t) { 1int } else { 0int }),
        score_terms(name, description, content, Seq::empty()) == 0,
        score_terms(name, description, content, terms.push(t)) == (if score_terms(name, description, content, terms)
            + term_score(name, description, content, t) <= usize::MAX {
            score_terms(name, description, content, terms) + term_score(name, description, content, t)
        } else {
            usize::MAX as nat
        }),
        score_terms(name, description, content, terms) + term_score(name, description, content, t) <= usize::MAX
            ==> score_terms(name, description, content, terms.push(t)) >= score_terms(name, description, content, terms)
            + term_score(name, description, content, t),
{
    assert(terms.push(t).drop_last() =~= terms);
}

} // verus!
