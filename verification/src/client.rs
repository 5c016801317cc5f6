//! What is said to Bazel and what is read from its answers.

use std::sync::Arc;

use vstd::prelude::*;
use vstd::string::StringSliceAdditionalSpecFns;
use vstd::utf8::valid_utf8;

use crate::lower_spec::{grows, text_of};
use crate::paths::name_part;
use crate::text::{find_in, find_in_finds, has_prefix, has_suffix, lines_from, same, views};

verus! {

/// The repositories that a repository sees, by the name under which it sees
/// each, shared between the repositories that see the same.
pub type RepoMapping = Arc<Vec<(String, String)>>;

/// The text of a mapping.
pub open spec fn mapping_of(entries: Seq<(String, String)>) -> Map<Seq<char>, Seq<char>>
    decreases entries.len(),
{
    if entries.len() == 0 {
        Map::empty()
    } else {
        mapping_of(entries.drop_last()).insert(entries.last().0@, entries.last().1@)
    }
}

/// The formats in which Bazel prints repository mappings.
#[derive(Clone, Copy, Debug, PartialEq, Eq, Structural)]
pub enum MappingFormat {
    Compact,
    Json,
}

impl Default for MappingFormat {
    fn default() -> (r: Self)
        ensures
            r == MappingFormat::Compact,
    {
        MappingFormat::Compact
    }
}

/// The format in use, and the mappings that are shared: each with the text that
/// it was read from.
#[derive(Debug)]
pub struct MappingState {
    pub values: Vec<(Vec<u8>, RepoMapping)>,
    pub format: MappingFormat,
}

impl Default for MappingState {
    fn default() -> (r: Self)
        ensures
            r.values@.len() == 0,
            r.format == MappingFormat::Compact,
    {
        MappingState { values: Vec::new(), format: MappingFormat::Compact }
    }
}

/// What Bazel says about a workspace.
#[derive(Debug)]
pub struct BazelInfo {
    pub output_base: String,
    pub release: String,
    pub starlark_semantics: String,
    pub workspace: String,
    pub workspace_name: Option<String>,
}

/// The module selected by Bazel, with a version for registry releases.
#[derive(Debug)]
pub struct SelectedModule {
    pub name: String,
    pub version: Option<String>,
}

/// A connection to Bazel. Errors are messages.
pub trait BazelClient {
    fn build_language(&self) -> Result<Vec<u8>, String>;

    fn info(&self) -> Result<BazelInfo, String>;

    fn null_query_external_repo_targets(&self, repo: &str) -> Result<(), String>;

    fn query_all_workspace_targets(&self) -> Result<Vec<String>, String>;

    fn fetch_repos(&self, repos: &Vec<String>) -> Result<(), String>;

    fn fetch_repo(&self, repo: &str) -> Result<(), String> {
        let repos = vec![repo.to_owned()];
        self.fetch_repos(&repos)
    }

    /// Returns mappings in the same order as the canonical repository names.
    fn dump_repo_mappings(&self, repos: &Vec<String>) -> Result<Vec<RepoMapping>, String>;

    /// Returns the mapping of one repository.
    fn dump_repo_mapping(&self, repo: &str) -> Result<RepoMapping, String> {
        let repos = vec![repo.to_owned()];
        match self.dump_repo_mappings(&repos) {
            Ok(mappings) => only_mapping(mappings),
            Err(error) => Err(error),
        }
    }

    /// Returns None when no module name is available (an extension or unnamed root).
    fn selected_module(&self, canonical_repo: &str) -> Result<Option<SelectedModule>, String>;
}

/// The Bazel command line: its executable, the directory to run it in, and what
/// is known of the mappings that it prints.
#[derive(Debug)]
pub struct BazelCLI {
    pub executable: String,
    pub working_directory: Option<String>,
    pub mappings: MappingState,
}

impl Default for BazelCLI {
    fn default() -> (r: Self)
        ensures
            r.executable@ == "bazel"@,
            r.working_directory is None,
            r.mappings.values@.len() == 0,
            r.mappings.format == MappingFormat::Compact,
    {
        BazelCLI {
            executable: "bazel".to_owned(),
            working_directory: None,
            mappings: MappingState::default(),
        }
    }
}

/// Whether an executable is found relative to the directory in which it is
/// called: it is no bare name and does not start at the root.
pub open spec fn is_relative_path(executable: Seq<char>) -> bool {
    !crate::paths::is_rooted(executable) && crate::paths::path_parts(executable).len() > 1
}

impl BazelCLI {
    pub fn new(executable: &str) -> (r: Self)
        ensures
            r.executable@ == executable@,
            r.working_directory is None,
            r.mappings.values@.len() == 0,
            r.mappings.format == MappingFormat::Compact,
    {
        BazelCLI {
            executable: executable.to_owned(),
            working_directory: None,
            mappings: MappingState::default(),
        }
    }

    /// Runs Bazel in `directory`. An executable that is given relative to the
    /// current directory keeps leading to the same file.
    pub fn with_working_directory(self, directory: String, current: &str) -> (r: Self)
        ensures
            r.working_directory is Some && r.working_directory->0@ == directory@,
            r.mappings == self.mappings,
            r.executable@ == if is_relative_path(self.executable@) {
                current@ + "/"@ + self.executable@
            } else {
                self.executable@
            },
    {
        let executable = if !crate::paths::is_absolute(self.executable.as_str()) && crate::paths::parts(
            self.executable.as_str(),
        ).len() > 1 {
            proof {
                assert(crate::paths::path_parts(self.executable@).len() > 1);
            }
            crate::text::join3(current, "/", self.executable.as_str())
        } else {
            self.executable
        };
        BazelCLI { executable, working_directory: Some(directory), mappings: self.mappings }
    }
}

/// The key and the value of a line of `bazel info`.
pub open spec fn info_pair(line: Seq<char>) -> Option<(Seq<char>, Seq<char>)> {
    let at = find_in(line, ": "@, 0);
    if 0 <= at && at + 2 <= line.len() {
        Some((line.subrange(0, at), line.subrange(at + 2, line.len() as int)))
    } else {
        None
    }
}

/// The value of a key in the first `n` lines of `bazel info`: the last counts.
pub open spec fn info_value(lines: Seq<Seq<char>>, key: Seq<char>, n: nat) -> Option<Seq<char>>
    decreases n,
{
    if n == 0 {
        None
    } else {
        match info_pair(lines[n - 1]) {
            Some((k, v)) => if k == key {
                Some(v)
            } else {
                info_value(lines, key, (n - 1) as nat)
            },
            None => info_value(lines, key, (n - 1) as nat),
        }
    }
}

/// The name of a workspace: the directory in which its actions run, unless that
/// is a default name.
pub open spec fn workspace_name_of(execution_root: Option<Seq<char>>) -> Option<Seq<char>> {
    match execution_root {
        Some(root) => match name_part(root) {
            Some(name) => if name == "__main__"@ || name == "_main"@ {
                None
            } else {
                Some(name)
            },
            None => None,
        },
        None => None,
    }
}

/// The fields without which `bazel info` is of no use.
#[derive(Clone, Copy, Debug, PartialEq, Eq, Structural)]
pub enum InfoField {
    OutputBase,
    Release,
    StarlarkSemantics,
    Workspace,
}

impl InfoField {
    /// The key of a field.
    pub open spec fn key(self) -> Seq<char> {
        match self {
            InfoField::OutputBase => "output_base"@,
            InfoField::Release => "release"@,
            InfoField::StarlarkSemantics => "starlark-semantics"@,
            InfoField::Workspace => "workspace"@,
        }
    }

    /// The message for a field that is missing.
    pub fn message(self) -> (r: String)
        ensures
            r@ == "failed to determine "@ + self.key() + " from `bazel info`"@,
    {
        let key = match self {
            InfoField::OutputBase => "output_base",
            InfoField::Release => "release",
            InfoField::StarlarkSemantics => "starlark-semantics",
            InfoField::Workspace => "workspace",
        };
        crate::text::join3("failed to determine ", key, " from `bazel info`")
    }
}

/// Finds the value of a key of `bazel info`.
fn find_info(lines: &Vec<String>, key: &str) -> (r: Option<String>)
    ensures
        text_of(r) == info_value(views(lines@), key@, lines@.len()),
{
    let mark = crate::text::chars_of(": ");
    proof {
        reveal_strlit(": ");
    }
    let mut i: usize = lines.len();
    while i > 0
        invariant
            i <= lines@.len(),
            mark@ == ": "@,
            mark@.len() == 2,
            info_value(views(lines@), key@, lines@.len()) == info_value(
                views(lines@),
                key@,
                i as nat,
            ),
        decreases i,
    {
        i = i - 1;
        let line = crate::text::chars_of(lines[i].as_str());
        proof {
            assert(views(lines@)[i as int] == line@);
            find_in_finds(line@, ": "@, 0);
        }
        if let Some(at) = crate::text::find_from(line.as_slice(), mark.as_slice(), 0) {
            proof {
                let f = find_in(line@, ": "@, 0);
                assert(crate::text::occurs_at(line@, ": "@, at as int));
                assert(f == at);
            }
            let found = crate::text::string_of(line.as_slice(), 0, at);
            if same(found.as_str(), key) {
                let end: usize = line.len();
                assert(at + 2 <= end);
                return Some(crate::text::string_of(line.as_slice(), at + 2, end));
            }
        }
    }
    None
}

/// Whether a field is in the answer of `bazel info`.
pub open spec fn has_info(lines: Seq<Seq<char>>, field: InfoField) -> bool {
    info_value(lines, field.key(), lines.len()) is Some
}

/// Reads the answer of `bazel info`. The error names the first field that is
/// missing.
pub fn parse_info(output: &str) -> (r: Result<BazelInfo, InfoField>)
    ensures
        ({
            let lines = lines_from(output@, 0);
            let n = lines.len();
            match r {
                Ok(info) => {
                    &&& info_value(lines, "output_base"@, n) == Some(info.output_base@)
                    &&& info_value(lines, "release"@, n) == Some(info.release@)
                    &&& info_value(lines, "starlark-semantics"@, n) == Some(
                        info.starlark_semantics@,
                    )
                    &&& info_value(lines, "workspace"@, n) == Some(info.workspace@)
                    &&& text_of(info.workspace_name) == workspace_name_of(
                        info_value(lines, "execution_root"@, n),
                    )
                },
                Err(InfoField::OutputBase) => !has_info(lines, InfoField::OutputBase),
                Err(InfoField::Release) => has_info(lines, InfoField::OutputBase) && !has_info(
                    lines,
                    InfoField::Release,
                ),
                Err(InfoField::StarlarkSemantics) => has_info(lines, InfoField::OutputBase)
                    && has_info(lines, InfoField::Release) && !has_info(
                    lines,
                    InfoField::StarlarkSemantics,
                ),
                Err(InfoField::Workspace) => has_info(lines, InfoField::OutputBase) && has_info(
                    lines,
                    InfoField::Release,
                ) && has_info(lines, InfoField::StarlarkSemantics) && !has_info(
                    lines,
                    InfoField::Workspace,
                ),
            }
        }),
{
    let lines = crate::text::lines(output);
    proof {
        assert(views(lines@) =~= lines_from(output@, 0));
    }
    let output_base = match find_info(&lines, "output_base") {
        Some(value) => value,
        None => {
            return Err(InfoField::OutputBase);
        },
    };
    let release = match find_info(&lines, "release") {
        Some(value) => value,
        None => {
            return Err(InfoField::Release);
        },
    };
    let starlark_semantics = match find_info(&lines, "starlark-semantics") {
        Some(value) => value,
        None => {
            return Err(InfoField::StarlarkSemantics);
        },
    };
    let workspace = match find_info(&lines, "workspace") {
        Some(value) => value,
        None => {
            return Err(InfoField::Workspace);
        },
    };
    let workspace_name = match find_info(&lines, "execution_root") {
        Some(root) => match crate::paths::file_name(root.as_str()) {
            Some(name) => if same(name.as_str(), "__main__") || same(name.as_str(), "_main") {
                None
            } else {
                Some(name)
            },
            None => None,
        },
        None => None,
    };
    Ok(BazelInfo { output_base, release, starlark_semantics, workspace, workspace_name })
}

/// The decimal digits of a number.
pub open spec fn digits(n: nat) -> Seq<char>
    decreases n,
{
    if n < 10 {
        seq![digit(n)]
    } else {
        digits(n / 10).push(digit(n % 10))
    }
}

/// The character of a digit.
pub open spec fn digit(n: nat) -> char {
    if n == 0 {
        '0'
    } else if n == 1 {
        '1'
    } else if n == 2 {
        '2'
    } else if n == 3 {
        '3'
    } else if n == 4 {
        '4'
    } else if n == 5 {
        '5'
    } else if n == 6 {
        '6'
    } else if n == 7 {
        '7'
    } else if n == 8 {
        '8'
    } else {
        '9'
    }
}

/// Writes a number in decimal.
pub fn decimal(n: usize) -> (r: String)
    ensures
        r@ == digits(n as nat),
    decreases n,
{
    let d: usize = n % 10;
    let c = if d == 0 {
        '0'
    } else if d == 1 {
        '1'
    } else if d == 2 {
        '2'
    } else if d == 3 {
        '3'
    } else if d == 4 {
        '4'
    } else if d == 5 {
        '5'
    } else if d == 6 {
        '6'
    } else if d == 7 {
        '7'
    } else if d == 8 {
        '8'
    } else {
        '9'
    };
    if n < 10 {
        let mut out = String::new();
        out.push(c);
        proof {
            assert(out@ =~= seq![digit(n as nat)]);
        }
        out
    } else {
        let mut out = decimal(n / 10);
        out.push(c);
        out
    }
}

/// Takes the only mapping of an answer.
pub fn only_mapping(mappings: Vec<RepoMapping>) -> (r: Result<RepoMapping, String>)
    ensures
        match r {
            Ok(mapping) => mappings@.len() == 1 && mapping == mappings@[0],
            Err(message) => mappings@.len() != 1 && message@
                == "expected one repository mapping, received "@ + digits(mappings@.len()),
        },
{
    let mut mappings = mappings;
    if mappings.len() != 1 {
        return Err(
            crate::text::join(
                "expected one repository mapping, received ",
                decimal(mappings.len()).as_str(),
            ),
        );
    }
    Ok(mappings.remove(0))
}

/// An error of reading JSON.
#[verifier::external_type_specification]
#[verifier::external_body]
pub struct ExJsonError(serde_json::Error);

/// The mapping that a JSON text stands for, if it is an object of strings.
pub uninterp spec fn mapping_json(bytes: Seq<u8>) -> Option<Map<Seq<char>, Seq<char>>>;

/// `serde_json::from_slice` reads a map of strings from JSON text, or fails. What
/// it reads depends on the text alone; how it reads JSON is left unsaid.
#[verifier::external_body]
fn read_mapping(json: &[u8]) -> (r: Result<Vec<(String, String)>, serde_json::Error>)
    ensures
        match r {
            Ok(entries) => mapping_json(json@) == Some(mapping_of(entries@)),
            Err(_) => mapping_json(json@) is None,
        },
{
    let mapping: std::collections::HashMap<String, String> = serde_json::from_slice(json)?;
    Ok(mapping.into_iter().collect())
}

/// The number that a JSON text stands for, if it is one that fits.
pub uninterp spec fn index_json(bytes: Seq<u8>) -> Option<usize>;

/// `serde_json::from_slice` reads an unsigned number from JSON text, or fails.
/// What it reads depends on the text alone; how it reads JSON is left unsaid.
#[verifier::external_body]
fn read_index(json: &[u8]) -> (r: Result<usize, serde_json::Error>)
    ensures
        match r {
            Ok(index) => index_json(json@) == Some(index),
            Err(_) => index_json(json@) is None,
        },
{
    serde_json::from_slice(json)
}

/// `Arc::strong_count` counts the holders of a mapping. Nothing is said of the
/// count: it depends on who holds the mapping at the moment.
#[verifier::external_body]
fn holders(mapping: &RepoMapping) -> usize {
    Arc::strong_count(mapping)
}

/// What a record of a mapping answer can be wrong about.
#[derive(Clone, Copy, Debug, PartialEq, Eq, Structural)]
pub enum MappingError {
    Extra,
    Invalid,
    Reference(usize),
}

impl MappingError {
    /// The message for an error.
    pub fn message(self) -> (r: String)
        ensures
            r@ == match self {
                MappingError::Extra => "unexpected extra repository mapping"@,
                MappingError::Invalid => "invalid repository mapping"@,
                MappingError::Reference(index) => "repository mapping reference "@ + digits(
                    index as nat,
                ) + " does not identify an earlier record"@,
            },
    {
        match self {
            MappingError::Extra => "unexpected extra repository mapping".to_owned(),
            MappingError::Invalid => "invalid repository mapping".to_owned(),
            MappingError::Reference(index) => crate::text::join3(
                "repository mapping reference ",
                decimal(index).as_str(),
                " does not identify an earlier record",
            ),
        }
    }
}

/// Whether a byte is white space: a space, a tab, a line feed, a form feed or a
/// carriage return.
pub open spec fn is_space(b: u8) -> bool {
    b == 32u8 || b == 9u8 || b == 10u8 || b == 12u8 || b == 13u8
}

/// Bytes without white space at the start.
pub open spec fn bytes_trimmed_start(s: Seq<u8>) -> Seq<u8>
    decreases s.len(),
{
    if s.len() > 0 && is_space(s[0]) {
        bytes_trimmed_start(s.drop_first())
    } else {
        s
    }
}

/// Bytes without white space at the end.
pub open spec fn bytes_trimmed_end(s: Seq<u8>) -> Seq<u8>
    decreases s.len(),
{
    if s.len() > 0 && is_space(s.last()) {
        bytes_trimmed_end(s.drop_last())
    } else {
        s
    }
}

/// Bytes without white space around them.
pub open spec fn bytes_trimmed(s: Seq<u8>) -> Seq<u8> {
    bytes_trimmed_end(bytes_trimmed_start(s))
}

/// Bytes without white space around them.
fn trim_bytes(s: &[u8]) -> (r: Vec<u8>)
    ensures
        r@ == bytes_trimmed(s@),
{
    let mut start: usize = 0;
    proof {
        assert(s@.subrange(0, s@.len() as int) =~= s@);
    }
    while start < s.len() && is_space_byte(s[start])
        invariant
            start <= s@.len(),
            bytes_trimmed_start(s@.subrange(start as int, s@.len() as int)) == bytes_trimmed_start(
                s@,
            ),
        decreases s@.len() - start,
    {
        proof {
            assert(s@.subrange(start as int, s@.len() as int).drop_first() =~= s@.subrange(
                start + 1,
                s@.len() as int,
            ));
        }
        start = start + 1;
    }
    let ghost middle = bytes_trimmed_start(s@);
    let mut end: usize = s.len();
    proof {
        assert(middle == s@.subrange(start as int, end as int));
    }
    while end > start && is_space_byte(s[end - 1])
        invariant
            start <= end <= s@.len(),
            bytes_trimmed_end(s@.subrange(start as int, end as int)) == bytes_trimmed_end(middle),
        decreases end,
    {
        proof {
            assert(s@.subrange(start as int, end as int).drop_last() =~= s@.subrange(
                start as int,
                end - 1,
            ));
        }
        end = end - 1;
    }
    let mut out: Vec<u8> = Vec::new();
    let mut i: usize = start;
    while i < end
        invariant
            start <= i <= end <= s@.len(),
            out@ == s@.subrange(start as int, i as int),
        decreases end - i,
    {
        out.push(s[i]);
        i = i + 1;
        proof {
            assert(s@.subrange(start as int, i as int) =~= s@.subrange(start as int, i - 1).push(
                s@[i - 1],
            ));
        }
    }
    out
}

fn is_space_byte(b: u8) -> (r: bool)
    ensures
        r == is_space(b),
{
    b == 32u8 || b == 9u8 || b == 10u8 || b == 12u8 || b == 13u8
}

/// Whether a record holds a mapping itself, and does not refer to an earlier one.
pub open spec fn is_written_out(json: Seq<u8>, format: MappingFormat) -> bool {
    (json.len() > 0 && json[0] == 123u8) || format == MappingFormat::Json
}

/// What a record stands for: an object is a mapping; in the compact format a
/// number is the mapping of an earlier record.
pub open spec fn record_of(
    json: Seq<u8>,
    format: MappingFormat,
    earlier: Seq<Map<Seq<char>, Seq<char>>>,
) -> Result<Map<Seq<char>, Seq<char>>, MappingError> {
    if is_written_out(json, format) {
        match mapping_json(json) {
            Some(mapping) => Ok(mapping),
            None => Err(MappingError::Invalid),
        }
    } else {
        match index_json(json) {
            Some(index) => if index < earlier.len() {
                Ok(earlier[index as int])
            } else {
                Err(MappingError::Reference(index))
            },
            None => Err(MappingError::Invalid),
        }
    }
}

/// The mappings of an answer so far, and whether anything was printed.
#[derive(Debug)]
pub struct MappingOutput {
    pub mappings: Vec<RepoMapping>,
    pub empty_stdout: bool,
}

/// The texts of shared mappings.
pub open spec fn mappings_of(mappings: Seq<RepoMapping>) -> Seq<Map<Seq<char>, Seq<char>>> {
    Seq::new(mappings.len(), |i: int| mapping_of(mappings[i]@))
}

/// What a line of an answer adds to the mappings before it.
pub open spec fn line_adds(
    line: Seq<u8>,
    expected: nat,
    format: MappingFormat,
    earlier: Seq<Map<Seq<char>, Seq<char>>>,
) -> Result<Seq<Map<Seq<char>, Seq<char>>>, MappingError> {
    let json = bytes_trimmed(line);
    if json.len() == 0 {
        Ok(earlier)
    } else if earlier.len() == expected {
        Err(MappingError::Extra)
    } else {
        match record_of(json, format, earlier) {
            Ok(mapping) => Ok(earlier.push(mapping)),
            Err(error) => Err(error),
        }
    }
}

/// Whether a text is one of those that shared mappings were read from.
pub open spec fn is_text_of(values: Seq<(Vec<u8>, RepoMapping)>, json: Seq<u8>) -> bool {
    exists|k: int| 0 <= k < values.len() && (#[trigger] values[k]).0@ == json
}

/// Whether a mapping is shared: with one of the same text that was there, and else it
/// is there from then on, behind the others.
pub open spec fn is_shared(
    before: Seq<(Vec<u8>, RepoMapping)>,
    after: Seq<(Vec<u8>, RepoMapping)>,
    json: Seq<u8>,
    mapping: RepoMapping,
) -> bool {
    if is_text_of(before, json) {
        &&& after == before
        &&& exists|k: int|
            0 <= k < after.len() && (#[trigger] after[k]).0@ == json && after[k].1 == mapping
    } else {
        &&& after.len() > 0
        &&& after.drop_last() == before
        &&& after.last().0@ == json
        &&& after.last().1 == mapping
    }
}

/// The first shared mappings that something else holds too, in their order: those
/// that more than one holds.
pub open spec fn held(
    values: Seq<(Vec<u8>, RepoMapping)>,
    counts: Seq<usize>,
    n: int,
) -> Seq<(Vec<u8>, RepoMapping)>
    decreases n,
{
    if n <= 0 {
        seq![]
    } else if counts[n - 1] > 1 {
        held(values, counts, n - 1).push(values[n - 1])
    } else {
        held(values, counts, n - 1)
    }
}

/// What is held was there before.
proof fn held_were_there(values: Seq<(Vec<u8>, RepoMapping)>, counts: Seq<usize>, n: int)
    requires
        n <= values.len(),
    ensures
        forall|k: int|
            0 <= k < held(values, counts, n).len() ==> values.contains(
                #[trigger] held(values, counts, n)[k],
            ),
    decreases n,
{
    if n > 0 {
        held_were_there(values, counts, n - 1);
        let before = held(values, counts, n - 1);
        assert forall|k: int| 0 <= k < held(values, counts, n).len() implies values.contains(
            #[trigger] held(values, counts, n)[k],
        ) by {
            if k < before.len() {
                assert(held(values, counts, n)[k] == before[k]);
            } else {
                assert(held(values, counts, n)[k] == values[n - 1]);
            }
        }
    }
}

impl MappingState {
    /// Whether each shared mapping is what its text stands for.
    pub open spec fn wf(self) -> bool {
        forall|i: int|
            0 <= i < self.values@.len() ==> mapping_json((#[trigger] self.values@[i]).0@) == Some(
                mapping_of(self.values@[i].1@),
            )
    }

    /// Forgets the mappings that nobody else holds, given how many hold each.
    pub fn keep_held(&mut self, counts: &Vec<usize>)
        requires
            counts@.len() == old(self).values@.len(),
        ensures
            final(self).values@ == held(old(self).values@, counts@, counts@.len() as int),
            final(self).format == old(self).format,
    {
        let ghost all = self.values@;
        let mut i: usize = 0;
        let mut n: usize = 0;
        proof {
            assert(held(all, counts@, 0) + all.skip(0) =~= all);
        }
        while n < counts.len()
            invariant
                i <= n <= counts@.len() == all.len(),
                i == held(all, counts@, n as int).len(),
                self.values@ == held(all, counts@, n as int) + all.skip(n as int),
                self.format == old(self).format,
            decreases counts@.len() - n,
        {
            let ghost kept = held(all, counts@, n as int);
            if counts[n] > 1 {
                i = i + 1;
                proof {
                    assert(kept + all.skip(n as int) =~= kept.push(all[n as int]) + all.skip(n + 1));
                }
            } else {
                self.values.remove(i);
                proof {
                    assert(self.values@ =~= kept + all.skip(n + 1));
                }
            }
            n = n + 1;
        }
        proof {
            assert(self.values@ =~= held(all, counts@, n as int));
        }
    }

    /// Forgets the mappings that nobody else holds. How many hold each is counted
    /// for all of them before any is forgotten.
    pub fn release(&mut self)
        requires
            old(self).wf(),
        ensures
            final(self).wf(),
            final(self).format == old(self).format,
            exists|counts: Seq<usize>|
                counts.len() == old(self).values@.len() && final(self).values@ == #[trigger] held(
                    old(self).values@,
                    counts,
                    counts.len() as int,
                ),
    {
        let mut counts: Vec<usize> = Vec::new();
        let mut i: usize = 0;
        while i < self.values.len()
            invariant
                i <= self.values@.len(),
                counts@.len() == i,
                *self == *old(self),
            decreases self.values@.len() - i,
        {
            counts.push(holders(&self.values[i].1));
            i = i + 1;
        }
        self.keep_held(&counts);
        proof {
            let all = old(self).values@;
            held_were_there(all, counts@, counts@.len() as int);
            assert forall|k: int| 0 <= k < self.values@.len() implies mapping_json(
                (#[trigger] self.values@[k]).0@,
            ) == Some(mapping_of(self.values@[k].1@)) by {
                assert(all.contains(held(all, counts@, counts@.len() as int)[k]));
            }
        }
    }

    /// The mapping that a JSON text stands for, shared with earlier ones of the
    /// same text.
    pub fn intern(&mut self, json: &[u8]) -> (r: Result<RepoMapping, MappingError>)
        requires
            old(self).wf(),
        ensures
            final(self).wf(),
            final(self).format == old(self).format,
            match r {
                Ok(mapping) => mapping_json(json@) == Some(mapping_of(mapping@)) && is_shared(
                    old(self).values@,
                    final(self).values@,
                    json@,
                    mapping,
                ),
                Err(error) => mapping_json(json@) is None && error == MappingError::Invalid
                    && *final(self) == *old(self),
            },
    {
        let mut i: usize = 0;
        while i < self.values.len()
            invariant
                i <= self.values@.len(),
                self.wf(),
                *self == *old(self),
                forall|k: int| 0 <= k < i ==> (#[trigger] self.values@[k]).0@ != json@,
            decreases self.values@.len() - i,
        {
            if same_bytes(self.values[i].0.as_slice(), json) {
                proof {
                    assert(self.values@[i as int].0@ == json@);
                }
                return Ok(self.values[i].1.clone());
            }
            i = i + 1;
        }
        match read_mapping(json) {
            Ok(entries) => {
                let mapping: RepoMapping = Arc::new(entries);
                let key = vstd::slice::slice_to_vec(json);
                let ghost before = self.values@;
                self.values.push((key, mapping.clone()));
                proof {
                    assert forall|k: int| 0 <= k < self.values@.len() implies mapping_json(
                        (#[trigger] self.values@[k]).0@,
                    ) == Some(mapping_of(self.values@[k].1@)) by {
                        if k < before.len() {
                            assert(self.values@[k] == before[k]);
                        }
                    }
                    assert(self.values@.drop_last() =~= before);
                }
                Ok(mapping)
            },
            Err(_) => Err(MappingError::Invalid),
        }
    }
}

/// Whether two texts are the same bytes.
fn same_bytes(a: &[u8], b: &[u8]) -> (r: bool)
    ensures
        r == (a@ == b@),
{
    if a.len() != b.len() {
        return false;
    }
    let mut i: usize = 0;
    while i < a.len()
        invariant
            i <= a@.len(),
            a@.len() == b@.len(),
            forall|k: int| 0 <= k < i ==> a@[k] == b@[k],
        decreases a@.len() - i,
    {
        if a[i] != b[i] {
            return false;
        }
        i = i + 1;
    }
    proof {
        assert(a@ =~= b@);
    }
    true
}

impl MappingOutput {
    /// Nothing printed yet.
    pub fn new() -> (r: Self)
        ensures
            r.mappings@.len() == 0,
            r.empty_stdout,
    {
        MappingOutput { mappings: Vec::new(), empty_stdout: true }
    }

    /// Reads one line of an answer.
    pub fn read_line(&mut self, line: &[u8], expected: usize, state: &mut MappingState) -> (r:
        Result<(), MappingError>)
        requires
            old(state).wf(),
        ensures
            final(state).wf(),
            final(state).format == old(state).format,
            ({
                let json = bytes_trimmed(line@);
                if r is Ok && json.len() > 0 && is_written_out(json, old(state).format) {
                    is_shared(
                        old(state).values@,
                        final(state).values@,
                        json,
                        final(self).mappings@.last(),
                    )
                } else {
                    *final(state) == *old(state)
                }
            }),
            !final(self).empty_stdout,
            match (
                line_adds(
                    line@,
                    expected as nat,
                    old(state).format,
                    mappings_of(old(self).mappings@),
                ),
                r,
            ) {
                (Ok(all), Ok(())) => mappings_of(final(self).mappings@) == all,
                (Err(expected_error), Err(error)) => error == expected_error
                    && final(self).mappings@ == old(self).mappings@,
                _ => false,
            },
    {
        let ghost earlier = mappings_of(self.mappings@);
        self.empty_stdout = false;
        let json = trim_bytes(line);
        if json.len() == 0 {
            return Ok(());
        }
        if self.mappings.len() == expected {
            return Err(MappingError::Extra);
        }
        let mapping = if json[0] == 123u8 || state.format == MappingFormat::Json {
            match state.intern(json.as_slice()) {
                Ok(mapping) => mapping,
                Err(error) => {
                    return Err(error);
                },
            }
        } else {
            match read_index(json.as_slice()) {
                Ok(index) => if index < self.mappings.len() {
                    self.mappings[index].clone()
                } else {
                    return Err(MappingError::Reference(index));
                },
                Err(_) => {
                    return Err(MappingError::Invalid);
                },
            }
        };
        self.mappings.push(mapping);
        proof {
            assert(mappings_of(self.mappings@) =~= earlier.push(mapping_of(mapping@)));
        }
        Ok(())
    }
}

/// The index behind the line that starts at `from`.
pub open spec fn line_end(s: Seq<u8>, from: int) -> int
    decreases s.len() - from,
{
    if from < 0 || from >= s.len() {
        s.len() as int
    } else if s[from] == 10u8 {
        from + 1
    } else {
        line_end(s, from + 1)
    }
}

/// The mappings of an answer, read from `from` on.
pub open spec fn answer_from(
    s: Seq<u8>,
    from: int,
    expected: nat,
    format: MappingFormat,
    earlier: Seq<Map<Seq<char>, Seq<char>>>,
) -> Result<Seq<Map<Seq<char>, Seq<char>>>, MappingError>
    decreases s.len() - from,
{
    if from < 0 || from >= s.len() {
        Ok(earlier)
    } else {
        let end = line_end(s, from);
        if end <= from || end > s.len() {
            Ok(earlier)
        } else {
            match line_adds(s.subrange(from, end), expected, format, earlier) {
                Ok(all) => answer_from(s, end, expected, format, all),
                Err(error) => Err(error),
            }
        }
    }
}

/// Reads the mappings of an answer, one record on a line. A record of the
/// compact format can refer to an earlier record.
pub fn parse_repo_mappings(output: &[u8], expected: usize, state: &mut MappingState) -> (r: Result<
    MappingOutput,
    MappingError,
>)
    requires
        old(state).wf(),
    ensures
        final(state).wf(),
        final(state).format == old(state).format,
        exists|counts: Seq<usize>|
            counts.len() == old(state).values@.len() && grows(
                #[trigger] held(old(state).values@, counts, counts.len() as int),
                final(state).values@,
            ),
        match (
            answer_from(output@, 0, expected as nat, old(state).format, Seq::empty()),
            r,
        ) {
            (Ok(all), Ok(read)) => mappings_of(read.mappings@) == all && read.empty_stdout == (
            output@.len() == 0),
            (Err(expected_error), Err(error)) => error == expected_error,
            _ => false,
        },
{
    state.release();
    let ghost kept = state.values@;
    let mut read = MappingOutput::new();
    let mut from: usize = 0;
    proof {
        assert(mappings_of(read.mappings@) =~= Seq::empty());
    }
    while from < output.len()
        invariant
            from <= output@.len(),
            state.wf(),
            state.format == old(state).format,
            grows(kept, state.values@),
            exists|counts: Seq<usize>|
                counts.len() == old(state).values@.len() && kept == #[trigger] held(
                    old(state).values@,
                    counts,
                    counts.len() as int,
                ),
            read.empty_stdout == (from == 0),
            answer_from(
                output@,
                from as int,
                expected as nat,
                old(state).format,
                mappings_of(read.mappings@),
            ) == answer_from(output@, 0, expected as nat, old(state).format, Seq::empty()),
        decreases output@.len() - from,
    {
        let mut end: usize = from;
        while end < output.len() && output[end] != 10u8
            invariant
                from <= end <= output@.len(),
                line_end(output@, end as int) == line_end(output@, from as int),
            decreases output@.len() - end,
        {
            end = end + 1;
        }
        if end < output.len() {
            end = end + 1;
        }
        let line = vstd::slice::slice_subrange(output, from, end);
        let ghost before = state.values@;
        match read.read_line(line, expected, state) {
            Ok(()) => {},
            Err(error) => {
                return Err(error);
            },
        }
        proof {
            assert(grows(before, state.values@)) by {
                if state.values@ != before {
                    assert(state.values@.drop_last() == before);
                }
            }
            crate::lower_proof::grows_on(kept, before, state.values@);
        }
        from = end;
    }
    Ok(read)
}

/// A record of the compact format can refer to earlier records alone.
pub proof fn references_are_earlier(
    json: Seq<u8>,
    format: MappingFormat,
    earlier: Seq<Map<Seq<char>, Seq<char>>>,
)
    requires
        json.len() > 0,
        json[0] != 123u8,
        record_of(json, format, earlier) is Ok,
        format == MappingFormat::Compact,
    ensures
        earlier.contains(record_of(json, format, earlier)->Ok_0),
{
    let index = index_json(json)->0;
    assert(earlier[index as int] == record_of(json, format, earlier)->Ok_0);
}

/// An answer never has more mappings than were asked for.
pub proof fn answers_are_bounded(
    s: Seq<u8>,
    from: int,
    expected: nat,
    format: MappingFormat,
    earlier: Seq<Map<Seq<char>, Seq<char>>>,
)
    requires
        earlier.len() <= expected,
    ensures
        match answer_from(s, from, expected, format, earlier) {
            Ok(all) => earlier.len() <= all.len() <= expected && all.take(earlier.len() as int)
                == earlier,
            Err(_) => true,
        },
    decreases s.len() - from,
{
    assert(earlier.take(earlier.len() as int) =~= earlier);
    if 0 <= from < s.len() {
        let end = line_end(s, from);
        if from < end <= s.len() {
            match line_adds(s.subrange(from, end), expected, format, earlier) {
                Ok(all) => {
                    answers_are_bounded(s, end, expected, format, all);
                    match answer_from(s, end, expected, format, all) {
                        Ok(rest) => {
                            assert(rest.take(earlier.len() as int) =~= all.take(
                                earlier.len() as int,
                            )) by {
                                assert(forall|i: int|
                                    0 <= i < all.len() ==> rest.take(all.len() as int)[i]
                                        == all[i]);
                            }
                            assert(all.take(earlier.len() as int) =~= earlier);
                        },
                        Err(_) => {},
                    }
                },
                Err(_) => {},
            }
        }
    }
}

/// `str::from_utf8` takes bytes that are valid UTF-8 as a string, and fails on
/// all others.
#[verifier::external_body]
pub(crate) fn utf8_text(bytes: &[u8]) -> (r: Option<&str>)
    ensures
        match r {
            Some(text) => valid_utf8(bytes@) && text.spec_bytes() == bytes@,
            None => !valid_utf8(bytes@),
        },
{
    std::str::from_utf8(bytes).ok()
}

/// The start of the line with which Bazel refuses the compact format.
pub open spec fn refusal_start() -> Seq<char> {
    "ERROR: While parsing option --output=compact_json: Not a valid output format: 'compact_json' (should be "@
}

/// Whether a line refuses the compact format.
pub open spec fn refuses_compact(line: Seq<char>) -> bool {
    has_prefix(line, refusal_start()) && has_suffix(line, ")"@)
}

/// Whether some line of a text refuses the compact format.
pub open spec fn text_refuses_compact(text: Seq<char>) -> bool {
    exists|i: int|
        0 <= i < lines_from(text, 0).len() && refuses_compact(#[trigger] lines_from(text, 0)[i])
}

/// Whether the messages of Bazel say that it does not know the compact format.
pub fn unsupported_compact_mapping_format(stderr: &[u8]) -> (r: bool)
    ensures
        r == (valid_utf8(stderr@) && text_refuses_compact(vstd::utf8::decode_utf8(stderr@))),
{
    match utf8_text(stderr) {
        Some(text) => {
            proof {
                vstd::utf8::encode_utf8_decode_utf8(text@);
            }
            let lines = crate::text::lines(text);
            let mut i: usize = 0;
            while i < lines.len()
                invariant
                    i <= lines@.len(),
                    lines@.len() == lines_from(text@, 0).len(),
                    forall|k: int|
                        0 <= k < lines@.len() ==> (#[trigger] lines@[k])@ == lines_from(
                            text@,
                            0,
                        )[k],
                    forall|k: int| 0 <= k < i ==> !refuses_compact(#[trigger] lines_from(text@, 0)[k]),
                    text@ == vstd::utf8::decode_utf8(stderr@),
                    valid_utf8(stderr@),
                decreases lines@.len() - i,
            {
                if crate::text::starts_with(
                    lines[i].as_str(),
                    "ERROR: While parsing option --output=compact_json: Not a valid output format: 'compact_json' (should be ",
                ) && crate::text::ends_with(lines[i].as_str(), ")") {
                    assert(refuses_compact(lines_from(text@, 0)[i as int]));
                    return true;
                }
                i = i + 1;
            }
            false
        },
        None => false,
    }
}

/// What to do with the answer to a mapping query.
#[derive(Clone, Copy, Debug, PartialEq, Eq, Structural)]
pub enum MappingDecision {
    RetryAsJson,
    Fail,
    WrongCount,
    Accept,
}

/// Decides what to do with an answer that could be read: how the query ended,
/// what it printed, and how many mappings were asked for and read. Only the
/// exact refusal of the compact format, with nothing printed, is worth a retry.
pub fn decide_mappings(
    state: &mut MappingState,
    read: &MappingOutput,
    exit_code: Option<i32>,
    stderr: &[u8],
    requested: usize,
) -> (r: MappingDecision)
    ensures
        ({
            let refused = old(state).format == MappingFormat::Compact && read.empty_stdout
                && exit_code == Some(2i32) && valid_utf8(stderr@) && text_refuses_compact(
                vstd::utf8::decode_utf8(stderr@),
            );
            &&& r == if refused {
                MappingDecision::RetryAsJson
            } else if exit_code != Some(0i32) {
                MappingDecision::Fail
            } else if read.mappings@.len() != requested {
                MappingDecision::WrongCount
            } else {
                MappingDecision::Accept
            }
            &&& final(state).format == if refused {
                MappingFormat::Json
            } else {
                old(state).format
            }
            &&& final(state).values == old(state).values
        }),
{
    let code: i32 = match exit_code {
        Some(code) => code,
        None => -1,
    };
    if state.format == MappingFormat::Compact && read.empty_stdout && code == 2
        && unsupported_compact_mapping_format(stderr) {
        state.format = MappingFormat::Json;
        return MappingDecision::RetryAsJson;
    }
    if exit_code.is_none() || code != 0 {
        return MappingDecision::Fail;
    }
    if read.mappings.len() != requested {
        return MappingDecision::WrongCount;
    }
    MappingDecision::Accept
}

/// Words behind others.
fn push_all(out: &mut Vec<String>, words: &Vec<String>)
    ensures
        views(final(out)@) == views(old(out)@) + views(words@),
{
    let ghost before = views(out@);
    let mut i: usize = 0;
    proof {
        assert(before + views(words@).take(0) =~= before);
    }
    while i < words.len()
        invariant
            i <= words@.len(),
            views(out@) == before + views(words@).take(i as int),
        decreases words@.len() - i,
    {
        let ghost now = views(out@);
        out.push(words[i].clone());
        proof {
            assert(views(out@) =~= now.push(words@[i as int]@));
            assert(views(words@).take(i + 1) =~= views(words@).take(i as int).push(
                views(words@)[i as int],
            ));
            assert(views(out@) =~= before + views(words@).take(i + 1));
        }
        i = i + 1;
    }
    proof {
        assert(views(words@).take(i as int) =~= views(words@));
    }
}

/// The words of a mapping query.
pub open spec fn mapping_words(format: MappingFormat, repos: Seq<Seq<char>>) -> Seq<Seq<char>> {
    let start = seq!["mod"@, "--enable_bzlmod"@, "dump_repo_mapping"@];
    if format == MappingFormat::Compact {
        start.push("--output=compact_json"@) + repos
    } else {
        start + repos
    }
}

/// The arguments of a mapping query. There has to be a repository to ask for.
pub fn mapping_arguments(format: MappingFormat, repos: &Vec<String>) -> (r: Option<Vec<String>>)
    ensures
        match r {
            Some(words) => repos@.len() > 0 && views(words@) == mapping_words(
                format,
                views(repos@),
            ),
            None => repos@.len() == 0,
        },
{
    if repos.len() == 0 {
        return None;
    }
    let mut words: Vec<String> = Vec::new();
    words.push("mod".to_owned());
    words.push("--enable_bzlmod".to_owned());
    words.push("dump_repo_mapping".to_owned());
    if format == MappingFormat::Compact {
        words.push("--output=compact_json".to_owned());
    }
    let ghost start = seq!["mod"@, "--enable_bzlmod"@, "dump_repo_mapping"@];
    proof {
        if format == MappingFormat::Compact {
            assert(views(words@) =~= start.push("--output=compact_json"@));
        } else {
            assert(views(words@) =~= start);
        }
    }
    push_all(&mut words, repos);
    Some(words)
}

/// The words of a fetch, for the first `n` repositories.
pub open spec fn fetch_words(repos: Seq<Seq<char>>, n: nat) -> Seq<Seq<char>>
    decreases n,
{
    if n == 0 {
        seq!["fetch"@]
    } else {
        fetch_words(repos, (n - 1) as nat).push("--repo=@@"@ + repos[n - 1])
    }
}

/// The arguments of a fetch. There has to be a repository to fetch.
pub fn fetch_arguments(repos: &Vec<String>) -> (r: Option<Vec<String>>)
    ensures
        match r {
            Some(words) => repos@.len() > 0 && views(words@) == fetch_words(
                views(repos@),
                repos@.len(),
            ),
            None => repos@.len() == 0,
        },
{
    if repos.len() == 0 {
        return None;
    }
    let mut words: Vec<String> = Vec::new();
    words.push("fetch".to_owned());
    proof {
        assert(views(words@) =~= seq!["fetch"@]);
    }
    let mut i: usize = 0;
    while i < repos.len()
        invariant
            i <= repos@.len(),
            views(words@) == fetch_words(views(repos@), i as nat),
        decreases repos@.len() - i,
    {
        let ghost before = views(words@);
        words.push(crate::text::join("--repo=@@", repos[i].as_str()));
        proof {
            assert(views(words@) =~= before.push("--repo=@@"@ + views(repos@)[i as int]));
        }
        i = i + 1;
    }
    Some(words)
}

/// The module graph that Bazel prints: the root with its name, and the keys of
/// the modules that it depends on, directly and not.
#[derive(Debug)]
pub struct ModuleGraph {
    pub key: String,
    pub name: Option<String>,
    pub dependencies: Vec<String>,
    pub indirect_dependencies: Vec<String>,
}

/// Why no module can be told from a graph.
#[derive(Debug)]
pub enum GraphError {
    Root(String),
    Count,
    Key(String),
}

/// The name and the version of a module key.
pub open spec fn key_parts(key: Seq<char>) -> Option<(Seq<char>, Seq<char>)> {
    let at = find_in(key, "@"@, 0);
    if 0 <= at < key.len() {
        let name = key.subrange(0, at);
        let version = key.subrange(at + 1, key.len() as int);
        if name.len() > 0 && version.len() > 0 && !crate::text::has_part(version, "@"@) {
            Some((name, version))
        } else {
            None
        }
    } else {
        None
    }
}

/// The keys that a graph holds besides the root's.
pub open spec fn graph_keys(graph: ModuleGraph) -> Seq<Seq<char>> {
    views(graph.dependencies@) + views(graph.indirect_dependencies@)
}

/// Whether `r` is the module of a repository in a graph. The main repository is
/// the root, without a version; another one has to be the only module. A version
/// `_` marks an override.
pub open spec fn selected_of(
    graph: ModuleGraph,
    repo: Seq<char>,
    r: Result<Option<SelectedModule>, GraphError>,
) -> bool {
    if graph.key@ != "<root>"@ {
        r matches Err(GraphError::Root(key)) && key@ == graph.key@
    } else if repo.len() == 0 {
        match r {
            Ok(Some(module)) => {
                &&& graph.name is Some && graph.name->0@.len() > 0
                &&& module.name@ == graph.name->0@
                &&& module.version is None
            },
            Ok(None) => graph.name is None || graph.name->0@.len() == 0,
            Err(_) => false,
        }
    } else if graph_keys(graph).len() != 1 {
        r matches Err(GraphError::Count)
    } else {
        let key = graph_keys(graph)[0];
        match key_parts(key) {
            Some((name, version)) => match r {
                Ok(Some(module)) => {
                    &&& module.name@ == name
                    &&& text_of(module.version) == if version == "_"@ {
                        None
                    } else {
                        Some(version)
                    }
                },
                _ => false,
            },
            None => r matches Err(GraphError::Key(k)) && k@ == key,
        }
    }
}

/// The module that a module graph selects for a repository.
pub fn selected_module_from_graph(graph: &ModuleGraph, canonical_repo: &str) -> (r: Result<
    Option<SelectedModule>,
    GraphError,
>)
    ensures
        selected_of(*graph, canonical_repo@, r),
{
    if !same(graph.key.as_str(), "<root>") {
        return Err(GraphError::Root(graph.key.clone()));
    }
    if canonical_repo.is_empty() {
        return match &graph.name {
            Some(name) => if name.as_str().is_empty() {
                Ok(None)
            } else {
                Ok(Some(SelectedModule { name: name.clone(), version: None }))
            },
            None => Ok(None),
        };
    }
    let mut keys: Vec<String> = Vec::new();
    proof {
        assert(views(keys@) =~= Seq::empty());
    }
    push_all(&mut keys, &graph.dependencies);
    push_all(&mut keys, &graph.indirect_dependencies);
    proof {
        assert(views(keys@) =~= graph_keys(*graph));
        assert(views(keys@).len() == keys@.len());
    }
    if keys.len() != 1 {
        return Err(GraphError::Count);
    }
    let key = keys[0].as_str();
    proof {
        assert(views(keys@)[0] == key@);
        reveal_strlit("@");
        find_in_finds(key@, "@"@, 0);
    }
    let chars = crate::text::chars_of(key);
    let mark = crate::text::chars_of("@");
    if let Some(at) = crate::text::find_from(chars.as_slice(), mark.as_slice(), 0) {
        proof {
            assert(crate::text::occurs_at(key@, "@"@, at as int));
            assert(find_in(key@, "@"@, 0) == at);
        }
        let total: usize = chars.len();
        assert(at + 1 <= total);
        let name = crate::text::string_of(chars.as_slice(), 0, at);
        let version = crate::text::string_of(chars.as_slice(), at + 1, total);
        if name.as_str().is_empty() || version.as_str().is_empty() || crate::text::contains(
            version.as_str(),
            "@",
        ) {
            return Err(GraphError::Key(keys[0].clone()));
        }
        let version = if same(version.as_str(), "_") {
            None
        } else {
            Some(version)
        };
        return Ok(Some(SelectedModule { name, version }));
    }
    Err(GraphError::Key(keys[0].clone()))
}

/// How Bazel describes a repository. One that an extension makes has an
/// original name.
#[derive(Debug)]
pub struct RepositoryDescription {
    pub canonical_name: String,
    pub original_name: Option<String>,
}

/// Why the origin of a repository cannot be told.
#[derive(Debug)]
pub enum OriginError {
    Count,
    Other(String),
}

/// Whether the descriptions of a repository prove that an extension made it.
/// No description proves nothing.
pub fn is_extension_repository(
    descriptions: &Vec<RepositoryDescription>,
    canonical_repo: &str,
) -> (r: Result<bool, OriginError>)
    ensures
        match r {
            Ok(made) => {
                ||| descriptions@.len() == 0 && !made
                ||| {
                    &&& descriptions@.len() == 1
                    &&& descriptions@[0].canonical_name@ == canonical_repo@
                    &&& made == (descriptions@[0].original_name is Some
                        && descriptions@[0].original_name->0@.len() > 0)
                }
            },
            Err(OriginError::Count) => descriptions@.len() > 1,
            Err(OriginError::Other(name)) => {
                &&& descriptions@.len() == 1
                &&& descriptions@[0].canonical_name@ != canonical_repo@
                &&& name@ == descriptions@[0].canonical_name@
            },
        },
{
    if descriptions.len() == 0 {
        return Ok(false);
    }
    if descriptions.len() != 1 {
        return Err(OriginError::Count);
    }
    let only = &descriptions[0];
    if !same(only.canonical_name.as_str(), canonical_repo) {
        return Err(OriginError::Other(only.canonical_name.clone()));
    }
    match &only.original_name {
        Some(name) => Ok(!name.as_str().is_empty()),
        None => Ok(false),
    }
}

/// What is known of the module of a repository after one or two queries.
#[derive(Debug)]
pub enum ModuleStep {
    Known(Option<SelectedModule>),
    Refused(GraphError),
    AskOrigin,
    Unknown,
}

/// Decides by the answer of the module graph. `graph` is what it printed, if it
/// could be asked; only a repository that is not the main one may be asked for
/// its origin instead.
pub fn module_after_graph(graph: &Option<ModuleGraph>, canonical_repo: &str) -> (r: ModuleStep)
    ensures
        match r {
            ModuleStep::Known(module) => graph is Some && selected_of(
                graph->0,
                canonical_repo@,
                Ok(module),
            ),
            ModuleStep::Refused(error) => graph is Some && selected_of(
                graph->0,
                canonical_repo@,
                Err(error),
            ),
            ModuleStep::AskOrigin => graph is None && canonical_repo@.len() > 0,
            ModuleStep::Unknown => graph is None && canonical_repo@.len() == 0,
        },
{
    match graph {
        Some(graph) => match selected_module_from_graph(graph, canonical_repo) {
            Ok(module) => ModuleStep::Known(module),
            Err(error) => ModuleStep::Refused(error),
        },
        None => if canonical_repo.is_empty() {
            ModuleStep::Unknown
        } else {
            ModuleStep::AskOrigin
        },
    }
}

/// The length of a string in UTF-8.
pub open spec fn byte_len(s: Seq<char>) -> nat {
    vstd::utf8::encode_utf8(s).len()
}

} // verus!
