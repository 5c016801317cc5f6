//! What holds of the answers of Bazel, and of what it is asked.

use vstd::prelude::*;

use crate::client::{
    bytes_trimmed_end, bytes_trimmed_start, digit, digits, fetch_words, held, index_json, info_pair,
    info_value, is_space, key_parts, line_adds, mapping_of, mapping_words, record_of, selected_of,
    workspace_name_of, GraphError, MappingError, MappingFormat, ModuleGraph, RepoMapping,
    SelectedModule,
};
use crate::lower_spec::text_of;
use crate::paths::name_part;
use crate::text::{find_in, find_in_finds, has_part, occurs_at};

verus! {

/// A line of a key, a colon, a space and a value has that key and that value, where the
/// key holds no colon with a space behind it.
pub proof fn info_lines_have_keys(key: Seq<char>, value: Seq<char>)
    requires
        !has_part(key, ": "@),
    ensures
        info_pair(key + ": "@ + value) == Some((key, value)),
{
    reveal_strlit(": ");
    let sep = ": "@;
    let line = key + sep + value;
    let n = key.len() as int;
    assert(line.subrange(n, n + 2) =~= sep);
    assert(occurs_at(line, sep, n));
    find_in_finds(line, sep, 0);
    let at = find_in(line, sep, 0);
    assert forall|k: int| 0 <= k < n implies !#[trigger] occurs_at(line, sep, k) by {
        if occurs_at(line, sep, k) {
            let there = line.subrange(k, k + 2);
            if k + 2 <= n {
                assert(key.subrange(k, k + 2) =~= there);
                assert(occurs_at(key, sep, k));
            } else {
                assert(there[1] == line[n]);
                assert(line[n] == sep[0]);
            }
        }
    }
    if at < 0 || at > n {
        assert(!occurs_at(line, sep, n));
    }
    assert(at == n);
    assert(line.subrange(0, n) =~= key);
    assert(line.subrange(n + 2, line.len() as int) =~= value);
}

/// The value of a key is that of the last line with the key.
pub proof fn the_last_line_counts(
    lines: Seq<Seq<char>>,
    key: Seq<char>,
    value: Seq<char>,
    k: int,
)
    requires
        0 <= k < lines.len(),
        info_pair(lines[k]) == Some((key, value)),
        forall|j: int|
            k < j < lines.len() ==> !(info_pair(#[trigger] lines[j]) matches Some((other, _))
                && other == key),
    ensures
        info_value(lines, key, lines.len()) == Some(value),
{
    last_line(lines, key, value, k, lines.len());
}

proof fn last_line(
    lines: Seq<Seq<char>>,
    key: Seq<char>,
    value: Seq<char>,
    k: int,
    n: nat,
)
    requires
        0 <= k < n <= lines.len(),
        info_pair(lines[k]) == Some((key, value)),
        forall|j: int|
            k < j < lines.len() ==> !(info_pair(#[trigger] lines[j]) matches Some((other, _))
                && other == key),
    ensures
        info_value(lines, key, n) == Some(value),
    decreases n,
{
    if n > k + 1 {
        last_line(lines, key, value, k, (n - 1) as nat);
        assert(!(info_pair(lines[n - 1]) matches Some((other, _)) && other == key));
    }
}

/// A workspace has the name of the directory in which its actions run, unless that is
/// one of the names that Bazel gives by default.
pub proof fn default_names_are_none(root: Seq<char>, name: Seq<char>)
    requires
        name_part(root) == Some(name),
    ensures
        workspace_name_of(Some(root)) is None <==> name == "__main__"@ || name == "_main"@,
        workspace_name_of(Some(root)) matches Some(found) ==> found == name,
{
}

/// The number that digits write.
pub open spec fn number(text: Seq<char>) -> int
    decreases text.len(),
{
    if text.len() == 0 {
        0
    } else {
        10 * number(text.drop_last()) + (text.last() as int - '0' as int)
    }
}

/// The digits of a number write that number, without a zero at the front.
pub proof fn digits_write_the_number(n: nat)
    ensures
        number(digits(n)) == n,
        digits(n).len() > 0,
        digits(n)[0] == '0' ==> n == 0,
    decreases n,
{
    let text = digits(n);
    if n < 10 {
        assert(text.drop_last() =~= seq![]);
        assert(number(text.drop_last()) == 0);
        assert(text.last() == digit(n));
    } else {
        digits_write_the_number(n / 10);
        assert(text.drop_last() =~= digits(n / 10));
        assert(text.last() == digit(n % 10));
        assert(text[0] == digits(n / 10)[0]);
    }
}

/// The value of a key in a mapping is that of its last entry.
pub proof fn the_last_entry_counts(entries: Seq<(String, String)>, k: int)
    requires
        0 <= k < entries.len(),
        forall|j: int| k < j < entries.len() ==> (#[trigger] entries[j]).0@ != entries[k].0@,
    ensures
        mapping_of(entries).contains_key(entries[k].0@),
        mapping_of(entries)[entries[k].0@] == entries[k].1@,
    decreases entries.len(),
{
    if k < entries.len() - 1 {
        let fewer = entries.drop_last();
        assert(entries[entries.len() - 1].0@ != entries[k].0@);
        assert forall|j: int| k < j < fewer.len() implies (#[trigger] fewer[j]).0@
            != fewer[k].0@ by {
            assert(fewer[j] == entries[j]);
        }
        the_last_entry_counts(fewer, k);
    }
}

/// A key of a mapping has an entry.
pub proof fn mappings_hold_entries_alone(entries: Seq<(String, String)>, key: Seq<char>)
    ensures
        mapping_of(entries).contains_key(key) <==> exists|k: int|
            0 <= k < entries.len() && (#[trigger] entries[k]).0@ == key,
    decreases entries.len(),
{
    if entries.len() > 0 {
        let fewer = entries.drop_last();
        mappings_hold_entries_alone(fewer, key);
        if exists|k: int| 0 <= k < fewer.len() && (#[trigger] fewer[k]).0@ == key {
            let k = choose|k: int| 0 <= k < fewer.len() && (#[trigger] fewer[k]).0@ == key;
            assert(entries[k].0@ == key);
        }
        if exists|k: int| 0 <= k < entries.len() && (#[trigger] entries[k]).0@ == key {
            let k = choose|k: int| 0 <= k < entries.len() && (#[trigger] entries[k]).0@ == key;
            if k < fewer.len() {
                assert(fewer[k].0@ == key);
            } else {
                assert(entries.last().0@ == key);
            }
        }
    }
}

proof fn trimmed_bytes_end(s: Seq<u8>)
    ensures
        bytes_trimmed_end(s).len() == 0 <==> forall|i: int|
            0 <= i < s.len() ==> is_space(#[trigger] s[i]),
        bytes_trimmed_end(s).len() > 0 ==> !is_space(bytes_trimmed_end(s).last()),
    decreases s.len(),
{
    if s.len() > 0 && is_space(s.last()) {
        let rest = s.drop_last();
        trimmed_bytes_end(rest);
        if forall|i: int| 0 <= i < rest.len() ==> is_space(#[trigger] rest[i]) {
            assert forall|i: int| 0 <= i < s.len() implies is_space(#[trigger] s[i]) by {
                if i < rest.len() {
                    assert(s[i] == rest[i]);
                }
            }
        }
        if forall|i: int| 0 <= i < s.len() ==> is_space(#[trigger] s[i]) {
            assert forall|i: int| 0 <= i < rest.len() implies is_space(#[trigger] rest[i]) by {
                assert(rest[i] == s[i]);
            }
        }
    } else if s.len() > 0 {
        assert(!is_space(s[s.len() - 1]));
    }
}

proof fn trimmed_bytes_start(s: Seq<u8>)
    ensures
        bytes_trimmed_start(s).len() > 0 ==> !is_space(bytes_trimmed_start(s)[0]),
        (forall|i: int| 0 <= i < s.len() ==> is_space(#[trigger] s[i])) <==> bytes_trimmed_start(
            s,
        ).len() == 0,
    decreases s.len(),
{
    if s.len() > 0 && is_space(s[0]) {
        let rest = s.drop_first();
        trimmed_bytes_start(rest);
        if forall|i: int| 0 <= i < rest.len() ==> is_space(#[trigger] rest[i]) {
            assert forall|i: int| 0 <= i < s.len() implies is_space(#[trigger] s[i]) by {
                if i > 0 {
                    assert(s[i] == rest[i - 1]);
                }
            }
        }
        if forall|i: int| 0 <= i < s.len() ==> is_space(#[trigger] s[i]) {
            assert forall|i: int| 0 <= i < rest.len() implies is_space(#[trigger] rest[i]) by {
                assert(rest[i] == s[i + 1]);
            }
        }
    } else if s.len() > 0 {
        assert(!is_space(s[0]));
    }
}

/// A line of white space adds no mapping, and is never an error. Any other line is a
/// record, which is one too many once there are as many as were asked for.
pub proof fn blank_lines_add_nothing(
    line: Seq<u8>,
    expected: nat,
    format: MappingFormat,
    earlier: Seq<Map<Seq<char>, Seq<char>>>,
)
    ensures
        (forall|i: int| 0 <= i < line.len() ==> is_space(#[trigger] line[i])) ==> line_adds(
            line,
            expected,
            format,
            earlier,
        ) == Ok::<Seq<Map<Seq<char>, Seq<char>>>, MappingError>(earlier),
        !(forall|i: int| 0 <= i < line.len() ==> is_space(#[trigger] line[i])) && earlier.len()
            == expected ==> line_adds(line, expected, format, earlier) == Err::<
            Seq<Map<Seq<char>, Seq<char>>>,
            MappingError,
        >(MappingError::Extra),
        line_adds(line, expected, format, earlier) matches Ok(all) ==> all.len() <= earlier.len()
            + 1 && all.take(earlier.len() as int) == earlier,
{
    let start = bytes_trimmed_start(line);
    trimmed_bytes_start(line);
    trimmed_bytes_end(start);
    if start.len() > 0 {
        assert(!is_space(start[0]));
    }
    if let Ok(all) = line_adds(line, expected, format, earlier) {
        assert(all.take(earlier.len() as int) =~= earlier);
    }
}

/// The key of a module is its name, an `@` and its version; neither is empty, and
/// neither holds an `@`.
pub proof fn module_keys_have_names_and_versions(name: Seq<char>, version: Seq<char>)
    requires
        name.len() > 0,
        version.len() > 0,
        !name.contains('@'),
        !has_part(version, "@"@),
    ensures
        key_parts(name + "@"@ + version) == Some((name, version)),
{
    reveal_strlit("@");
    let sep = "@"@;
    let key = name + sep + version;
    let n = name.len() as int;
    assert(key.subrange(n, n + 1) =~= sep);
    assert(occurs_at(key, sep, n));
    find_in_finds(key, sep, 0);
    let at = find_in(key, sep, 0);
    assert forall|k: int| 0 <= k < n implies !#[trigger] occurs_at(key, sep, k) by {
        if occurs_at(key, sep, k) {
            assert(key.subrange(k, k + 1)[0] == '@');
            assert(name[k] == '@');
        }
    }
    if at < 0 || at > n {
        assert(!occurs_at(key, sep, n));
    }
    assert(at == n);
    assert(key.subrange(0, n) =~= name);
    assert(key.subrange(n + 1, key.len() as int) =~= version);
}

/// A repository of the only module in a graph has the version in the key of the module,
/// and none if that is `_`. The main repository is the root and has none.
pub proof fn the_only_module_is_selected(
    graph: ModuleGraph,
    repo: Seq<char>,
    r: Result<Option<SelectedModule>, GraphError>,
    name: Seq<char>,
    version: Seq<char>,
)
    requires
        selected_of(graph, repo, r),
        graph.key@ == "<root>"@,
        repo.len() > 0,
        crate::client::graph_keys(graph).len() == 1,
        key_parts(crate::client::graph_keys(graph)[0]) == Some((name, version)),
    ensures
        r matches Ok(Some(module)) && module.name@ == name && (text_of(module.version) == Some(
            version,
        ) <==> version != "_"@) && (module.version is None <==> version == "_"@),
{
}

/// A fetch names every repository once, by its canonical name, and nothing else.
pub proof fn a_fetch_names_its_repositories(repos: Seq<Seq<char>>, n: nat)
    requires
        n <= repos.len(),
    ensures
        fetch_words(repos, n).len() == n + 1,
        fetch_words(repos, n)[0] == "fetch"@,
        forall|i: int|
            0 <= i < n ==> fetch_words(repos, n)[i + 1] == "--repo=@@"@ + #[trigger] repos[i],
    decreases n,
{
    if n > 0 {
        a_fetch_names_its_repositories(repos, (n - 1) as nat);
        let before = fetch_words(repos, (n - 1) as nat);
        let now = fetch_words(repos, n);
        assert forall|i: int| 0 <= i < n implies now[i + 1] == "--repo=@@"@
            + #[trigger] repos[i] by {
            if i < n - 1 {
                assert(now[i + 1] == before[i + 1]);
            }
        }
    }
}

/// A mapping query asks for the mappings of its repositories, in order, and for the
/// compact format exactly if that is in use.
pub proof fn a_query_names_its_repositories(format: MappingFormat, repos: Seq<Seq<char>>, i: int)
    requires
        0 <= i < repos.len(),
    ensures
        ({
            let words = mapping_words(format, repos);
            let start = words.len() - repos.len();
            &&& words[start + i] == repos[i]
            &&& words[0] == "mod"@
            &&& words[2] == "dump_repo_mapping"@
            &&& words.take(start).contains("--output=compact_json"@) <==> format
                == MappingFormat::Compact
        }),
{
    let words = mapping_words(format, repos);
    let start = words.len() - repos.len();
    let first = words.take(start);
    reveal_strlit("mod");
    reveal_strlit("--enable_bzlmod");
    reveal_strlit("dump_repo_mapping");
    reveal_strlit("--output=compact_json");
    assert("mod"@.len() == 3 && "--enable_bzlmod"@.len() == 15);
    assert("dump_repo_mapping"@.len() == 17 && "--output=compact_json"@.len() == 21);
    if format == MappingFormat::Compact {
        assert(first[3] == "--output=compact_json"@);
    } else {
        assert(first.len() == 3);
        assert(first[0].len() == 3 && first[1].len() == 15 && first[2].len() == 17);
        if first.contains("--output=compact_json"@) {
            let k = choose|k: int|
                0 <= k < first.len() && first[k] == "--output=compact_json"@;
            assert(k == 0 || k == 1 || k == 2);
        }
    }
}

/// A shared mapping is kept exactly if something else holds it too.
pub proof fn held_mappings_are_kept(
    values: Seq<(Vec<u8>, RepoMapping)>,
    counts: Seq<usize>,
    n: int,
    value: (Vec<u8>, RepoMapping),
)
    requires
        0 <= n <= values.len(),
        counts.len() == values.len(),
    ensures
        held(values, counts, n).contains(value) <==> exists|k: int|
            0 <= k < n && #[trigger] values[k] == value && counts[k] > 1,
    decreases n,
{
    if n > 0 {
        held_mappings_are_kept(values, counts, n - 1, value);
        let before = held(values, counts, n - 1);
        let now = held(values, counts, n);
        if counts[n - 1] > 1 {
            assert(now[now.len() - 1] == values[n - 1]);
            if before.contains(value) {
                let k = choose|k: int| 0 <= k < before.len() && before[k] == value;
                assert(now[k] == value);
            }
            if now.contains(value) && value != values[n - 1] {
                let k = choose|k: int| 0 <= k < now.len() && now[k] == value;
                assert(before[k] == value);
            }
        }
    }
}

/// A record that is no object refers, in the compact format, to an earlier record by its
/// number, counted from the first. In the other format nothing refers to anything.
pub proof fn references_lead_to_earlier_records(
    json: Seq<u8>,
    format: MappingFormat,
    earlier: Seq<Map<Seq<char>, Seq<char>>>,
    index: usize,
)
    requires
        json.len() > 0,
        json[0] != 123u8,
        format == MappingFormat::Compact,
        index_json(json) == Some(index),
    ensures
        index < earlier.len() ==> record_of(json, format, earlier) == Ok::<
            Map<Seq<char>, Seq<char>>,
            MappingError,
        >(earlier[index as int]),
        index >= earlier.len() ==> record_of(json, format, earlier) == Err::<
            Map<Seq<char>, Seq<char>>,
            MappingError,
        >(MappingError::Reference(index)),
        record_of(json, MappingFormat::Json, earlier) == record_of(
            json,
            MappingFormat::Json,
            Seq::empty(),
        ),
{
}

} // verus!
