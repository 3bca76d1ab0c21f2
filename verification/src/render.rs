//! The writer of `macland.toml`: the text the command line stores after it detects a manifest.
use vstd::prelude::*;
use crate::adapter::{AdapterManifest, BuildSystem, ManifestView, build_system_name};
use crate::env_map::sorted_keys;
use crate::text::{append_str, chars_of, string_from, unlines};

verus! {

/// What `{:?}` writes for a string: the string between double quotes, with
/// `"`, `\` and the characters that `char::escape_debug` escapes escaped.
pub uninterp spec fn debug_quoted(s: Seq<char>) -> Seq<char>;

/// Printable ASCII other than `"` and `\`: characters that `{:?}` writes as they are.
pub open spec fn plain_char(c: char) -> bool {
    0x20 <= (c as u32) <= 0x7e && c != '"' && c != '\\'
}

pub open spec fn plain_text(s: Seq<char>) -> bool {
    forall|i: int| 0 <= i < s.len() ==> plain_char(#[trigger] s[i])
}

/// `format!("{:?}", s)`: the Debug form of a string.
#[verifier::external_body]
fn debug_quote(s: &str) -> (r: String)
    ensures
        r@ == debug_quoted(s@),
        plain_text(s@) ==> r@ == seq!['"'] + s@ + seq!['"'],
{
    format!("{:?}", s)
}

/// The Debug form of a string: a plain text between double quotes as it
/// is, anything else as `debug_quoted` says.
pub open spec fn quoted(s: Seq<char>) -> Seq<char> {
    if plain_text(s) {
        seq!['"'] + s + seq!['"']
    } else {
        debug_quoted(s)
    }
}

/// The Debug forms of `vs`, separated by `, `.
pub open spec fn quoted_list(vs: Seq<Seq<char>>) -> Seq<char>
    decreases vs.len(),
{
    if vs.len() == 0 {
        seq![]
    } else if vs.len() == 1 {
        quoted(vs[0])
    } else {
        quoted_list(vs.drop_last()) + ", "@ + quoted(vs.last())
    }
}

/// An array as the writer writes it: `["a", "b"]`.
pub open spec fn array_text(vs: Seq<Seq<char>>) -> Seq<char> {
    "["@ + quoted_list(vs) + "]"@
}

/// A line that assigns `value` to `key`: `key = value`.
pub open spec fn assign_line(key: Seq<char>, value: Seq<char>) -> Seq<char> {
    key + " = "@ + value
}

/// The lines that assign the fields of a manifest, then a blank line and the
/// `[env]` header.
pub open spec fn header_lines(m: ManifestView) -> Seq<Seq<char>> {
    seq![
        assign_line("id"@, quoted(m.id)),
        assign_line("repo"@, quoted(m.repo)),
        assign_line("rev"@, quoted(m.rev)),
        assign_line("build_system"@, quoted(build_system_name(m.build_system))),
        assign_line("configure"@, array_text(m.configure)),
        assign_line("build"@, array_text(m.build)),
        assign_line("test"@, array_text(m.test)),
        assign_line("entrypoint"@, array_text(m.entrypoint)),
        assign_line("patch_policy"@, quoted(m.patch_policy)),
        assign_line("sdk_features"@, array_text(m.sdk_features)),
        assign_line("protocol_expectations"@, array_text(m.protocol_expectations)),
        seq![],
        "[env]"@,
    ]
}

/// The lines of the `[env]` section, one `NAME = "value"` per entry.
pub open spec fn env_lines(p: Seq<(Seq<char>, Seq<char>)>) -> Seq<Seq<char>> {
    p.map_values(|e: (Seq<char>, Seq<char>)| assign_line(e.0, quoted(e.1)))
}

/// The lines of a manifest as the writer lays them out, with the entries `env` in the `[env]` section.
pub open spec fn manifest_lines(m: ManifestView, env: Seq<(Seq<char>, Seq<char>)>) -> Seq<Seq<char>> {
    header_lines(m) + env_lines(env)
}

/// The text of a manifest as the writer writes it: its lines, each ended by `\n`.
pub open spec fn rendered_manifest(m: ManifestView, env: Seq<(Seq<char>, Seq<char>)>) -> Seq<char> {
    unlines(manifest_lines(m, env))
}

/// The name a manifest gives a build system.
pub fn format_build_system(system: BuildSystem) -> (r: &'static str)
    ensures
        r@ == build_system_name(system),
{
    match system {
        BuildSystem::Meson => "meson",
        BuildSystem::CMake => "cmake",
        BuildSystem::Cargo => "cargo",
        BuildSystem::Autotools => "autotools",
        BuildSystem::Make => "make",
        BuildSystem::Custom => "custom",
    }
}

/// The Debug form of `s` (see `quoted`).
fn quote(s: &str) -> (r: String)
    ensures
        r@ == quoted(s@),
{
    debug_quote(s)
}

/// Appends the Debug form of `s`.
fn push_quoted(out: &mut Vec<char>, s: &str)
    ensures
        final(out)@ == old(out)@ + quoted(s@),
{
    let q = quote(s);
    append_str(out, q.as_str());
}

/// An array of strings as a manifest writes it: `["a", "b"]`.
pub fn format_array(values: &Vec<String>) -> (r: String)
    ensures
        r@ == array_text(values.deep_view()),
{
    let mut out = chars_of("[");
    let ghost vs = values.deep_view();
    let mut i: usize = 0;
    assert(vs.take(0) =~= Seq::<Seq<char>>::empty());
    while i < values.len()
        invariant
            i <= values@.len(),
            vs == values.deep_view(),
            out@ == "["@ + quoted_list(vs.take(i as int)),
        decreases values.len() - i,
    {
        if i > 0 {
            append_str(&mut out, ", ");
        }
        push_quoted(&mut out, values[i].as_str());
        assert(vs.take(i + 1).drop_last() =~= vs.take(i as int));
        assert(vs[i as int] == values@[i as int]@);
        assert(out@ =~= "["@ + quoted_list(vs.take(i + 1)));
        i += 1;
    }
    assert(vs.take(values@.len() as int) =~= vs);
    append_str(&mut out, "]");
    string_from(&out)
}

/// The line `key = value`.
pub(crate) fn assignment(key: &str, value: &str) -> (r: String)
    ensures
        r@ == assign_line(key@, value@),
{
    let mut out = chars_of(key);
    append_str(&mut out, " = ");
    append_str(&mut out, value);
    string_from(&out)
}

/// The lines `ls`, each ended by `\n`.
pub(crate) fn join_lines(ls: &Vec<String>) -> (r: String)
    ensures
        r@ == unlines(ls.deep_view()),
{
    let mut out: Vec<char> = Vec::new();
    let ghost all = ls.deep_view();
    let mut i: usize = 0;
    assert(all.take(0) =~= Seq::<Seq<char>>::empty());
    while i < ls.len()
        invariant
            i <= ls@.len(),
            all == ls.deep_view(),
            out@ == unlines(all.take(i as int)),
        decreases ls.len() - i,
    {
        append_str(&mut out, ls[i].as_str());
        append_str(&mut out, "\n");
        assert(all.take(i + 1).drop_last() =~= all.take(i as int));
        assert(all[i as int] == ls@[i as int]@);
        assert(out@ =~= unlines(all.take(i + 1)));
        i += 1;
    }
    assert(all.take(ls@.len() as int) =~= all);
    string_from(&out)
}

/// The text of a `macland.toml` that holds `manifest`.
pub fn render_manifest(manifest: &AdapterManifest) -> (r: String)
    ensures
        r@ == rendered_manifest(manifest@, manifest.env.pairs()),
        sorted_keys(manifest.env.pairs()),
{
    let mut ls: Vec<String> = Vec::new();
    ls.push(assignment("id", quote(manifest.id.as_str()).as_str()));
    ls.push(assignment("repo", quote(manifest.repo.as_str()).as_str()));
    ls.push(assignment("rev", quote(manifest.rev.as_str()).as_str()));
    ls.push(assignment("build_system", quote(format_build_system(manifest.build_system)).as_str()));
    ls.push(assignment("configure", format_array(&manifest.configure).as_str()));
    ls.push(assignment("build", format_array(&manifest.build).as_str()));
    ls.push(assignment("test", format_array(&manifest.test).as_str()));
    ls.push(assignment("entrypoint", format_array(&manifest.entrypoint).as_str()));
    ls.push(assignment("patch_policy", quote(manifest.patch_policy.as_str()).as_str()));
    ls.push(assignment("sdk_features", format_array(&manifest.sdk_features).as_str()));
    ls.push(
        assignment("protocol_expectations", format_array(&manifest.protocol_expectations).as_str()),
    );
    ls.push(String::new());
    ls.push(string_from(&chars_of("[env]")));
    let ghost head = header_lines(manifest@);
    assert(ls.deep_view() =~= head);
    let entries = manifest.env.entries();
    let ghost p = manifest.env.pairs();
    let mut i: usize = 0;
    assert(head + env_lines(p.take(0)) =~= head);
    while i < entries.len()
        invariant
            i <= entries@.len(),
            entries@.map_values(|e: (String, String)| (e.0@, e.1@)) == p,
            ls.deep_view() == head + env_lines(p.take(i as int)),
        decreases entries.len() - i,
    {
        let line = assignment(entries[i].0.as_str(), quote(entries[i].1.as_str()).as_str());
        let ghost before = ls.deep_view();
        ls.push(line);
        assert(p[i as int] == (entries@[i as int].0@, entries@[i as int].1@));
        assert(env_lines(p.take(i + 1)) =~= env_lines(p.take(i as int)).push(line@));
        assert(ls.deep_view() =~= before.push(line@));
        i += 1;
    }
    assert(p.take(entries@.len() as int) =~= p);
    join_lines(&ls)
}

} // verus!
