//! What the reader of `macland.toml` makes of the text its writer wrote.
use vstd::prelude::*;
use crate::adapter::{
    BuildSystem, ManifestView, TomlState, array_items, build_system_name, build_system_named,
    is_bracketed, last_value, manifest_fields, manifest_from_toml, toml_run, toml_start,
    toml_step, unquote,
};
use crate::env_map::{insert_all, lemma_insert_all_sorted, map_of, sorted_keys};
use crate::repo::{raw_quoted, template_lines, template_text, uninitialized};
use crate::render::{
    array_text, assign_line, env_lines, header_lines, manifest_lines, plain_char, plain_text,
    quoted, quoted_list, rendered_manifest,
};
use crate::text::{
    CharSet, find_by, in_set, is_space, lemma_find_by_append, lemma_find_by_none,
    lemma_lines_unlines, lemma_split_by_join, lemma_split_by_whole, lemma_trim_around, lines,
    none_in, single_line, split_by, split_once_by, trim, trim_by,
};

verus! {

/// A character from space to `~`.
pub open spec fn printable_char(c: char) -> bool {
    0x20 <= (c as u32) <= 0x7e
}

/// Printable ASCII text.
pub open spec fn printable(s: Seq<char>) -> bool {
    forall|i: int| 0 <= i < s.len() ==> printable_char(#[trigger] s[i])
}

proof fn lemma_printable_concat(a: Seq<char>, b: Seq<char>)
    requires
        printable(a),
        printable(b),
    ensures
        printable(a + b),
{
    assert forall|i: int| 0 <= i < (a + b).len() implies printable_char(#[trigger] (a + b)[i]) by {
        if i < a.len() {
            assert((a + b)[i] == a[i]);
        } else {
            assert((a + b)[i] == b[i - a.len()]);
        }
    }
}

proof fn lemma_none_in_concat(a: Seq<char>, b: Seq<char>, set: CharSet)
    requires
        none_in(a, set),
        none_in(b, set),
    ensures
        none_in(a + b, set),
{
    assert forall|i: int| 0 <= i < (a + b).len() implies !in_set(set, #[trigger] (a + b)[i]) by {
        if i < a.len() {
            assert((a + b)[i] == a[i]);
        } else {
            assert((a + b)[i] == b[i - a.len()]);
        }
    }
}

/// Printable text holds no line break.
proof fn lemma_printable_single(s: Seq<char>)
    requires
        printable(s),
    ensures
        none_in(s, CharSet::One('\n')),
        s.len() > 0 ==> s.last() != '\r',
{
    assert forall|i: int| 0 <= i < s.len() implies !in_set(CharSet::One('\n'), #[trigger] s[i]) by {
        assert(printable_char(s[i]));
    }
    if s.len() > 0 {
        assert(printable_char(s[s.len() - 1]));
    }
}

/// The Debug form of a plain text, and what the reader makes of it.
proof fn lemma_plain_quoted(x: Seq<char>)
    requires
        plain_text(x),
    ensures
        quoted(x) == seq!['"'] + x + seq!['"'],
        quoted(x).len() >= 2,
        quoted(x)[0] == '"',
        quoted(x).last() == '"',
        printable(quoted(x)),
        none_in(x, CharSet::One(',')) ==> none_in(quoted(x), CharSet::One(',')),
        unquote(quoted(x)) == x,
{
    let q = seq!['"'] + x + seq!['"'];
    assert(q[0] == '"');
    assert(q.last() == '"');
    assert forall|i: int| 0 <= i < q.len() implies printable_char(#[trigger] q[i]) by {
        if 0 < i < q.len() - 1 {
            assert(q[i] == x[i - 1]);
            assert(plain_char(x[i - 1]));
        }
    }
    if none_in(x, CharSet::One(',')) {
        assert forall|i: int| 0 <= i < q.len() implies !in_set(CharSet::One(','), #[trigger] q[i]) by {
            if 0 < i < q.len() - 1 {
                assert(q[i] == x[i - 1]);
            }
        }
    }
    if x.len() > 0 {
        assert(plain_char(x[0]));
        assert(plain_char(x[x.len() - 1]));
    }
    lemma_trim_around(seq!['"'], x, seq!['"'], CharSet::One('"'));
}

/// Text that the writer puts in an array: plain and free of commas.
pub open spec fn plain_item(x: Seq<char>) -> bool {
    plain_text(x) && none_in(x, CharSet::One(','))
}

pub open spec fn plain_items(vs: Seq<Seq<char>>) -> bool {
    forall|i: int| 0 <= i < vs.len() ==> plain_item(#[trigger] vs[i])
}

/// The comma-separated Debug forms of plain items, and how the reader splits them.
proof fn lemma_quoted_list(vs: Seq<Seq<char>>)
    requires
        plain_items(vs),
    ensures
        printable(quoted_list(vs)),
        vs.len() > 0 ==> quoted_list(vs).len() > 0 && quoted_list(vs)[0] == '"'
            && quoted_list(vs).last() == '"',
        vs.len() > 0 ==> split_by(quoted_list(vs), CharSet::One(',')).len() == vs.len(),
        vs.len() > 0 ==> forall|i: int| 0 <= i < vs.len() ==> unquote(
            trim(#[trigger] split_by(quoted_list(vs), CharSet::One(','))[i]),
        ) == vs[i],
    decreases vs.len(),
{
    reveal_strlit(", ");
    if vs.len() == 0 {
    } else if vs.len() == 1 {
        assert(plain_item(vs[0]));
        lemma_plain_quoted(vs[0]);
        let q = quoted(vs[0]);
        lemma_split_by_whole(q, CharSet::One(','));
        lemma_trim_around(seq![], q, seq![], CharSet::Space);
        assert(seq![] + q + seq![] =~= q);
    } else {
        let init = vs.drop_last();
        let x = vs.last();
        assert(plain_items(init)) by {
            assert forall|i: int| 0 <= i < init.len() implies plain_item(#[trigger] init[i]) by {
                assert(init[i] == vs[i]);
            }
        }
        assert(plain_item(vs[vs.len() - 1]));
        lemma_quoted_list(init);
        lemma_plain_quoted(x);
        let a = quoted_list(init);
        let q = quoted(x);
        let tail = seq![' '] + q;
        assert(", "@ =~= seq![',', ' ']);
        assert(quoted_list(vs) =~= a + seq![','] + tail);
        lemma_split_by_join(a, ',', tail, CharSet::One(','));
        let cs = seq![',', ' '];
        assert(printable(cs)) by {
            assert forall|i: int| 0 <= i < 2 implies printable_char(#[trigger] cs[i]) by {}
        }
        lemma_printable_concat(a, seq![',', ' ']);
        lemma_printable_concat(a + seq![',', ' '], q);
        assert(quoted_list(vs) =~= a + seq![',', ' '] + q);
        assert(none_in(tail, CharSet::One(','))) by {
            assert forall|i: int| 0 <= i < tail.len() implies !in_set(CharSet::One(','), #[trigger] tail[i]) by {
                if i > 0 {
                    assert(tail[i] == q[i - 1]);
                }
            }
        }
        lemma_split_by_whole(tail, CharSet::One(','));
        lemma_trim_around(seq![' '], q, seq![], CharSet::Space);
        assert(seq![' '] + q + seq![] =~= tail);
        let pieces = split_by(quoted_list(vs), CharSet::One(','));
        assert(pieces == split_by(a, CharSet::One(',')) + seq![tail]);
        assert forall|i: int| 0 <= i < vs.len() implies unquote(trim(#[trigger] pieces[i])) == vs[i] by {
            if i < init.len() {
                assert(pieces[i] == split_by(a, CharSet::One(','))[i]);
                assert(vs[i] == init[i]);
            } else {
                assert(pieces[i] == tail);
            }
        }
    }
}

/// An array of plain items as the writer writes it, and what the reader makes of it.
proof fn lemma_array_text(vs: Seq<Seq<char>>)
    requires
        plain_items(vs),
    ensures
        printable(array_text(vs)),
        array_text(vs).len() >= 2,
        array_text(vs)[0] == '[',
        array_text(vs).last() == ']',
        is_bracketed(array_text(vs)),
        array_items(array_text(vs)) == vs,
{
    reveal_strlit("[");
    reveal_strlit("]");
    lemma_quoted_list(vs);
    let ql = quoted_list(vs);
    let t = array_text(vs);
    assert(t =~= seq!['['] + ql + seq![']']);
    let open_b = seq!['['];
    let close_b = seq![']'];
    assert(printable(open_b)) by {
        assert forall|i: int| 0 <= i < 1 implies printable_char(#[trigger] open_b[i]) by {}
    }
    assert(printable(close_b)) by {
        assert forall|i: int| 0 <= i < 1 implies printable_char(#[trigger] close_b[i]) by {}
    }
    lemma_printable_concat(seq!['['], ql);
    lemma_printable_concat(seq!['['] + ql, seq![']']);
    lemma_trim_around(seq!['['], ql, seq![']'], CharSet::Brackets);
    let inner = trim_by(t, CharSet::Brackets);
    assert(inner == ql);
    if vs.len() == 0 {
        assert(ql.len() == 0);
        lemma_trim_around(seq![], ql, seq![], CharSet::Space);
        assert(seq![] + ql + seq![] =~= ql);
        assert(array_items(t) =~= vs);
    } else {
        lemma_trim_around(seq![], ql, seq![], CharSet::Space);
        assert(seq![] + ql + seq![] =~= ql);
        assert(trim(inner).len() > 0);
        let pieces = split_by(ql, CharSet::One(','));
        assert(array_items(t) =~= vs) by {
            assert forall|i: int| 0 <= i < vs.len() implies #[trigger] array_items(t)[i] == vs[i] by {
                assert(unquote(trim(pieces[i])) == vs[i]);
            }
        }
    }
}

/// The reader's state after `a + b` is its state after `b`, started from its state after `a`.
proof fn lemma_run_append(st: TomlState, a: Seq<Seq<char>>, b: Seq<Seq<char>>)
    ensures
        toml_run(st, a + b) == match toml_run(st, a) {
            Ok(s) => toml_run(s, b),
            Err(e) => Err(e),
        },
    decreases b.len(),
{
    if b.len() == 0 {
        assert(a + b =~= a);
    } else {
        assert((a + b).drop_last() =~= a + b.drop_last());
        assert((a + b).last() == b.last());
        lemma_run_append(st, a, b.drop_last());
    }
}

/// A name that can stand before ` = ` in a line the reader takes back as it was
/// written: no `=`, no line break, and it neither starts nor ends with
/// whitespace nor starts with `#`.
pub open spec fn key_ok(key: Seq<char>) -> bool {
    &&& none_in(key, CharSet::One('='))
    &&& none_in(key, CharSet::One('\n'))
    &&& key.len() > 0 ==> !is_space(key[0]) && key[0] != '#' && !is_space(key.last())
}

/// What the reader does with the line `key = value`.
proof fn lemma_step_assign(st: TomlState, key: Seq<char>, value: Seq<char>)
    requires
        key_ok(key),
        key.len() > 0 && key[0] == '[' ==> value.last() != ']',
        value.len() > 0,
        !is_space(value[0]),
        !is_space(value.last()),
    ensures
        toml_step(st, assign_line(key, value)) == Ok::<TomlState, Seq<char>>(
            if st.section == "env"@ {
                TomlState { env: st.env.insert(key, unquote(value)), ..st }
            } else if is_bracketed(value) {
                TomlState { arrays: st.arrays.push((key, array_items(value))), ..st }
            } else {
                TomlState { scalars: st.scalars.push((key, unquote(value))), ..st }
            },
        ),
{
    reveal_strlit(" = ");
    let line = assign_line(key, value);
    assert(" = "@ =~= seq![' ', '=', ' ']);
    let rest = seq!['=', ' '] + value;
    assert(rest[0] == '=');
    assert(rest.last() == value.last());
    assert(find_by(rest, CharSet::One('=')) == Some(0int));
    assert(rest.skip(1) =~= seq![' '] + value);
    lemma_trim_around(seq![' '], value, seq![], CharSet::Space);
    assert(seq![' '] + value + seq![] =~= seq![' '] + value);
    if key.len() > 0 {
        assert(line =~= seq![] + line + seq![]);
        assert(line[0] == key[0]);
        assert(line.last() == value.last());
        lemma_trim_around(seq![], line, seq![], CharSet::Space);
        assert(trim(line) == line);
        let head = key + seq![' '];
        assert(line =~= head + rest);
        assert(none_in(head, CharSet::One('='))) by {
            assert forall|i: int| 0 <= i < head.len() implies !in_set(CharSet::One('='), #[trigger] head[i]) by {
                if i < key.len() {
                    assert(head[i] == key[i]);
                }
            }
        }
        lemma_find_by_none(head, CharSet::One('='));
        lemma_find_by_append(head, rest, CharSet::One('='));
        assert(split_once_by(line, CharSet::One('=')) == Some((head, seq![' '] + value))) by {
            assert(line.take(head.len() as int) =~= head);
            assert(line.skip(head.len() as int + 1) =~= seq![' '] + value);
        }
        lemma_trim_around(seq![], key, seq![' '], CharSet::Space);
        assert(seq![] + key + seq![' '] =~= head);
    } else {
        assert(line =~= seq![' '] + rest + seq![]);
        lemma_trim_around(seq![' '], rest, seq![], CharSet::Space);
        assert(trim(line) == rest);
        assert(split_once_by(rest, CharSet::One('=')) == Some((Seq::<char>::empty(), seq![' '] + value))) by {
            assert(rest.take(0) =~= Seq::<char>::empty());
        }
        lemma_trim_around(seq![], key, seq![], CharSet::Space);
        assert(seq![] + key + seq![] =~= Seq::<char>::empty());
    }
}


/// A name made of lower-case ASCII letters and underscores, as the writer's field names are.
pub open spec fn field_name(key: Seq<char>) -> bool {
    key.len() > 0 && forall|i: int| 0 <= i < key.len() ==> ('a' <= #[trigger] key[i] <= 'z' || key[i] == '_')
}

proof fn lemma_field_name(key: Seq<char>)
    requires
        field_name(key),
    ensures
        key_ok(key),
        key[0] != '[',
{
    assert forall|i: int| 0 <= i < key.len() implies !in_set(CharSet::One('='), #[trigger] key[i]) by {}
    assert forall|i: int| 0 <= i < key.len() implies !in_set(CharSet::One('\n'), #[trigger] key[i]) by {}
    assert('a' <= key[0] <= 'z' || key[0] == '_');
    assert('a' <= key[key.len() - 1] <= 'z' || key[key.len() - 1] == '_');
}

/// The names the writer gives the fields.
proof fn lemma_field_names()
    ensures
        field_name("id"@),
        field_name("repo"@),
        field_name("rev"@),
        field_name("build_system"@),
        field_name("configure"@),
        field_name("build"@),
        field_name("test"@),
        field_name("entrypoint"@),
        field_name("patch_policy"@),
        field_name("sdk_features"@),
        field_name("protocol_expectations"@),
{
    reveal_strlit("id");
    reveal_strlit("repo");
    reveal_strlit("rev");
    reveal_strlit("build_system");
    reveal_strlit("configure");
    reveal_strlit("build");
    reveal_strlit("test");
    reveal_strlit("entrypoint");
    reveal_strlit("patch_policy");
    reveal_strlit("sdk_features");
    reveal_strlit("protocol_expectations");
}


/// The line `key = "x"` outside `[env]` records the scalar `x`.
proof fn lemma_step_scalar(st: TomlState, key: Seq<char>, x: Seq<char>)
    requires
        field_name(key),
        st.section != "env"@,
        plain_text(x),
    ensures
        toml_step(st, assign_line(key, quoted(x))) == Ok::<TomlState, Seq<char>>(
            TomlState { scalars: st.scalars.push((key, x)), ..st },
        ),
{
    lemma_field_name(key);
    lemma_plain_quoted(x);
    lemma_step_assign(st, key, quoted(x));
}

/// The line `key = ["a", ...]` outside `[env]` records the array of its items.
proof fn lemma_step_array(st: TomlState, key: Seq<char>, vs: Seq<Seq<char>>)
    requires
        field_name(key),
        st.section != "env"@,
        plain_items(vs),
    ensures
        toml_step(st, assign_line(key, array_text(vs))) == Ok::<TomlState, Seq<char>>(
            TomlState { arrays: st.arrays.push((key, vs)), ..st },
        ),
{
    lemma_field_name(key);
    lemma_array_text(vs);
    lemma_step_assign(st, key, array_text(vs));
}

/// The names of the build systems are plain, and the reader knows each of them.
proof fn lemma_build_system_name(b: BuildSystem)
    ensures
        plain_text(build_system_name(b)),
        build_system_named(build_system_name(b)) == Some(b),
{
    reveal_strlit("meson");
    reveal_strlit("cmake");
    reveal_strlit("cargo");
    reveal_strlit("autotools");
    reveal_strlit("make");
    reveal_strlit("custom");
    assert("meson"@[0] != "cmake"@[0] && "meson"@[0] != "cargo"@[0] && "cmake"@[1] != "cargo"@[1]);
    assert("meson"@.len() != "autotools"@.len() && "meson"@.len() != "make"@.len() && "meson"@.len() != "custom"@.len());
    assert("cmake"@.len() != "autotools"@.len() && "cmake"@.len() != "make"@.len() && "cmake"@.len() != "custom"@.len());
    assert("cargo"@.len() != "autotools"@.len() && "cargo"@.len() != "make"@.len() && "cargo"@.len() != "custom"@.len());
    assert("autotools"@.len() != "make"@.len() && "autotools"@.len() != "custom"@.len() && "make"@.len() != "custom"@.len());
}

/// One more line read.
proof fn lemma_run_next(st: TomlState, ls: Seq<Seq<char>>, k: int, s: TomlState)
    requires
        0 <= k < ls.len(),
        toml_run(st, ls.take(k)) == Ok::<TomlState, Seq<char>>(s),
    ensures
        toml_run(st, ls.take(k + 1)) == toml_step(s, ls[k]),
{
    assert(ls.take(k + 1).drop_last() =~= ls.take(k));
    assert(ls.take(k + 1).last() == ls[k]);
}

/// The fields of a manifest that the reader takes back as the writer wrote them.
pub open spec fn writable_fields(m: ManifestView) -> bool {
    &&& plain_text(m.id)
    &&& plain_text(m.repo)
    &&& plain_text(m.rev)
    &&& plain_text(m.patch_policy)
    &&& plain_items(m.configure)
    &&& plain_items(m.build)
    &&& plain_items(m.test)
    &&& plain_items(m.entrypoint)
    &&& plain_items(m.sdk_features)
    &&& plain_items(m.protocol_expectations)
}

/// What the reader holds when it reaches the `[env]` header of a written manifest.
pub open spec fn header_state(m: ManifestView) -> TomlState {
    TomlState {
        section: "env"@,
        scalars: seq![
            ("id"@, m.id),
            ("repo"@, m.repo),
            ("rev"@, m.rev),
            ("build_system"@, build_system_name(m.build_system)),
            ("patch_policy"@, m.patch_policy),
        ],
        arrays: seq![
            ("configure"@, m.configure),
            ("build"@, m.build),
            ("test"@, m.test),
            ("entrypoint"@, m.entrypoint),
            ("sdk_features"@, m.sdk_features),
            ("protocol_expectations"@, m.protocol_expectations),
        ],
        env: Map::empty(),
    }
}

#[verifier::rlimit(40)]
proof fn lemma_header_run(m: ManifestView)
    requires
        writable_fields(m),
    ensures
        toml_run(toml_start(), header_lines(m)) == Ok::<TomlState, Seq<char>>(header_state(m)),
{
    reveal_strlit("env");
    reveal_strlit("[env]");
    lemma_field_names();
    lemma_build_system_name(m.build_system);
    let h = header_lines(m);
    let s0 = toml_start();
    assert(h.take(0) =~= Seq::<Seq<char>>::empty());
    assert(s0.section != "env"@);
    lemma_run_next(s0, h, 0, s0);
    lemma_step_scalar(s0, "id"@, m.id);
    let s1 = TomlState { scalars: s0.scalars.push(("id"@, m.id)), ..s0 };
    lemma_run_next(s0, h, 1, s1);
    lemma_step_scalar(s1, "repo"@, m.repo);
    let s2 = TomlState { scalars: s1.scalars.push(("repo"@, m.repo)), ..s1 };
    lemma_run_next(s0, h, 2, s2);
    lemma_step_scalar(s2, "rev"@, m.rev);
    let s3 = TomlState { scalars: s2.scalars.push(("rev"@, m.rev)), ..s2 };
    lemma_run_next(s0, h, 3, s3);
    lemma_step_scalar(s3, "build_system"@, build_system_name(m.build_system));
    let s4 = TomlState { scalars: s3.scalars.push(("build_system"@, build_system_name(m.build_system))), ..s3 };
    lemma_run_next(s0, h, 4, s4);
    lemma_step_array(s4, "configure"@, m.configure);
    let s5 = TomlState { arrays: s4.arrays.push(("configure"@, m.configure)), ..s4 };
    lemma_run_next(s0, h, 5, s5);
    lemma_step_array(s5, "build"@, m.build);
    let s6 = TomlState { arrays: s5.arrays.push(("build"@, m.build)), ..s5 };
    lemma_run_next(s0, h, 6, s6);
    lemma_step_array(s6, "test"@, m.test);
    let s7 = TomlState { arrays: s6.arrays.push(("test"@, m.test)), ..s6 };
    lemma_run_next(s0, h, 7, s7);
    lemma_step_array(s7, "entrypoint"@, m.entrypoint);
    let s8 = TomlState { arrays: s7.arrays.push(("entrypoint"@, m.entrypoint)), ..s7 };
    lemma_run_next(s0, h, 8, s8);
    lemma_step_scalar(s8, "patch_policy"@, m.patch_policy);
    let s9 = TomlState { scalars: s8.scalars.push(("patch_policy"@, m.patch_policy)), ..s8 };
    lemma_run_next(s0, h, 9, s9);
    lemma_step_array(s9, "sdk_features"@, m.sdk_features);
    let s10 = TomlState { arrays: s9.arrays.push(("sdk_features"@, m.sdk_features)), ..s9 };
    lemma_run_next(s0, h, 10, s10);
    lemma_step_array(s10, "protocol_expectations"@, m.protocol_expectations);
    let s11 = TomlState { arrays: s10.arrays.push(("protocol_expectations"@, m.protocol_expectations)), ..s10 };
    lemma_run_next(s0, h, 11, s11);
    assert(trim(h[11]) == Seq::<char>::empty());
    assert(toml_step(s11, h[11]) == Ok::<TomlState, Seq<char>>(s11));
    lemma_run_next(s0, h, 12, s11);
    let e = h[12];
    assert(e =~= seq!['['] + "env"@ + seq![']']);
    lemma_trim_around(seq![], e, seq![], CharSet::Space);
    assert(seq![] + e + seq![] =~= e);
    lemma_trim_around(seq!['['], "env"@, seq![']'], CharSet::Brackets);
    let s12 = TomlState { section: "env"@, ..s11 };
    assert(toml_step(s11, e) == Ok::<TomlState, Seq<char>>(s12));
    assert(h.take(13) =~= h);
    assert(s12.scalars =~= header_state(m).scalars);
    assert(s12.arrays =~= header_state(m).arrays);
    assert(s12 == header_state(m));
}


/// An `[env]` entry that the reader takes back as the writer wrote it: a
/// name as `key_ok` says and a plain value.
pub open spec fn writable_entry(e: (Seq<char>, Seq<char>)) -> bool {
    key_ok(e.0) && plain_text(e.1)
}

pub open spec fn writable_env(p: Seq<(Seq<char>, Seq<char>)>) -> bool {
    forall|i: int| 0 <= i < p.len() ==> writable_entry(#[trigger] p[i])
}

/// Inside `[env]`, each written entry is recorded in turn.
proof fn lemma_env_run(st: TomlState, p: Seq<(Seq<char>, Seq<char>)>)
    requires
        st.section == "env"@,
        writable_env(p),
    ensures
        toml_run(st, env_lines(p)) == Ok::<TomlState, Seq<char>>(
            TomlState { env: insert_all(st.env, p), ..st },
        ),
    decreases p.len(),
{
    if p.len() == 0 {
        assert(env_lines(p) =~= Seq::<Seq<char>>::empty());
    } else {
        let init = p.drop_last();
        let e = p.last();
        assert(env_lines(p).drop_last() =~= env_lines(init));
        assert(env_lines(p).last() == assign_line(e.0, quoted(e.1)));
        assert(writable_env(init)) by {
            assert forall|i: int| 0 <= i < init.len() implies writable_entry(#[trigger] init[i]) by {
                assert(init[i] == p[i]);
            }
        }
        assert(writable_entry(p[p.len() - 1]));
        lemma_env_run(st, init);
        lemma_plain_quoted(e.1);
        let s1 = TomlState { env: insert_all(st.env, init), ..st };
        lemma_step_assign(s1, e.0, quoted(e.1));
    }
}

/// `key = value`, with a printable value, is one line as `lines` reads it.
proof fn lemma_assign_single(key: Seq<char>, value: Seq<char>)
    requires
        none_in(key, CharSet::One('\n')),
        printable(value),
        value.len() > 0,
    ensures
        single_line(assign_line(key, value)),
{
    lemma_printable_single(value);
    lemma_assign_line_single(key, value);
}

proof fn lemma_lines_single(m: ManifestView, p: Seq<(Seq<char>, Seq<char>)>)
    requires
        writable_fields(m),
        writable_env(p),
    ensures
        forall|i: int| 0 <= i < manifest_lines(m, p).len() ==> single_line(#[trigger] manifest_lines(m, p)[i]),
{
    lemma_field_names();
    lemma_field_name("id"@);
    lemma_field_name("repo"@);
    lemma_field_name("rev"@);
    lemma_field_name("build_system"@);
    lemma_field_name("configure"@);
    lemma_field_name("build"@);
    lemma_field_name("test"@);
    lemma_field_name("entrypoint"@);
    lemma_field_name("patch_policy"@);
    lemma_field_name("sdk_features"@);
    lemma_field_name("protocol_expectations"@);
    lemma_build_system_name(m.build_system);
    lemma_plain_quoted(m.id);
    lemma_plain_quoted(m.repo);
    lemma_plain_quoted(m.rev);
    lemma_plain_quoted(build_system_name(m.build_system));
    lemma_plain_quoted(m.patch_policy);
    lemma_array_text(m.configure);
    lemma_array_text(m.build);
    lemma_array_text(m.test);
    lemma_array_text(m.entrypoint);
    lemma_array_text(m.sdk_features);
    lemma_array_text(m.protocol_expectations);
    lemma_assign_single("id"@, quoted(m.id));
    lemma_assign_single("repo"@, quoted(m.repo));
    lemma_assign_single("rev"@, quoted(m.rev));
    lemma_assign_single("build_system"@, quoted(build_system_name(m.build_system)));
    lemma_assign_single("configure"@, array_text(m.configure));
    lemma_assign_single("build"@, array_text(m.build));
    lemma_assign_single("test"@, array_text(m.test));
    lemma_assign_single("entrypoint"@, array_text(m.entrypoint));
    lemma_assign_single("patch_policy"@, quoted(m.patch_policy));
    lemma_assign_single("sdk_features"@, array_text(m.sdk_features));
    lemma_assign_single("protocol_expectations"@, array_text(m.protocol_expectations));
    reveal_strlit("[env]");
    let e = "[env]"@;
    assert(printable(e)) by {
        assert forall|i: int| 0 <= i < e.len() implies printable_char(#[trigger] e[i]) by {}
    }
    lemma_printable_single(e);
    let h = header_lines(m);
    let ls = manifest_lines(m, p);
    assert forall|i: int| 0 <= i < ls.len() implies single_line(#[trigger] ls[i]) by {
        if i < h.len() {
            assert(ls[i] == h[i]);
            if i == 11 {
                assert(h[11].len() == 0);
            }
        } else {
            let k = i - h.len();
            assert(ls[i] == env_lines(p)[k]);
            assert(writable_entry(p[k]));
            lemma_plain_quoted(p[k].1);
            lemma_assign_single(p[k].0, quoted(p[k].1));
        }
    }
}

/// The fields the reader looks up in the state it reaches at `[env]`.
proof fn lemma_header_lookups(m: ManifestView)
    ensures
        last_value(header_state(m).scalars, "build_system"@) == Some(build_system_name(m.build_system)),
        last_value(header_state(m).scalars, "id"@) == Some(m.id),
        last_value(header_state(m).scalars, "repo"@) == Some(m.repo),
        last_value(header_state(m).scalars, "rev"@) == Some(m.rev),
        last_value(header_state(m).scalars, "patch_policy"@) == Some(m.patch_policy),
        last_value(header_state(m).arrays, "configure"@) == Some(m.configure),
        last_value(header_state(m).arrays, "build"@) == Some(m.build),
        last_value(header_state(m).arrays, "test"@) == Some(m.test),
        last_value(header_state(m).arrays, "entrypoint"@) == Some(m.entrypoint),
        last_value(header_state(m).arrays, "sdk_features"@) == Some(m.sdk_features),
        last_value(header_state(m).arrays, "protocol_expectations"@) == Some(m.protocol_expectations),
{
    reveal_strlit("id");
    reveal_strlit("repo");
    reveal_strlit("rev");
    reveal_strlit("build_system");
    reveal_strlit("configure");
    reveal_strlit("build");
    reveal_strlit("test");
    reveal_strlit("entrypoint");
    reveal_strlit("patch_policy");
    reveal_strlit("sdk_features");
    reveal_strlit("protocol_expectations");
    assert("build_system"@[0] != "patch_policy"@[0]);
    let sc = header_state(m).scalars;
    let d1 = sc.drop_last();
    let d2 = d1.drop_last();
    let d3 = d2.drop_last();
    let d4 = d3.drop_last();
    assert(d2 =~= seq![("id"@, m.id), ("repo"@, m.repo), ("rev"@, m.rev)]);
    assert(d3 =~= seq![("id"@, m.id), ("repo"@, m.repo)]);
    assert(d4 =~= seq![("id"@, m.id)]);
    assert("repo"@.len() != "id"@.len());
    assert("rev"@.len() != "id"@.len() && "rev"@.len() != "repo"@.len());
    assert(last_value(d4, "id"@) == Some(m.id));
    assert(last_value(d3, "id"@) == Some(m.id));
    assert(last_value(d3, "repo"@) == Some(m.repo));
    assert("build_system"@.len() != "id"@.len() && "build_system"@.len() != "repo"@.len() && "build_system"@.len() != "rev"@.len());
    assert("patch_policy"@.len() != "id"@.len() && "patch_policy"@.len() != "repo"@.len() && "patch_policy"@.len() != "rev"@.len());
    assert(last_value(d2, "id"@) == Some(m.id));
    assert(last_value(d2, "repo"@) == Some(m.repo));
    assert(last_value(d1, "id"@) == Some(m.id));
    assert(last_value(d1, "repo"@) == Some(m.repo));
    assert(last_value(d2, "rev"@) == Some(m.rev));
    assert(last_value(d1, "rev"@) == Some(m.rev));
    assert(last_value(d1, "build_system"@) == Some(build_system_name(m.build_system)));
    let ar = header_state(m).arrays;
    let a1 = ar.drop_last();
    let a2 = a1.drop_last();
    let a3 = a2.drop_last();
    let a4 = a3.drop_last();
    let a5 = a4.drop_last();
    assert(a2 =~= seq![("configure"@, m.configure), ("build"@, m.build), ("test"@, m.test), ("entrypoint"@, m.entrypoint)]);
    assert(a3 =~= seq![("configure"@, m.configure), ("build"@, m.build), ("test"@, m.test)]);
    assert(a4 =~= seq![("configure"@, m.configure), ("build"@, m.build)]);
    assert(a5 =~= seq![("configure"@, m.configure)]);
    let lens = seq![
        "configure"@.len(), "build"@.len(), "test"@.len(), "entrypoint"@.len(),
        "sdk_features"@.len(), "protocol_expectations"@.len(),
    ];
    assert(lens =~= seq![9nat, 5, 4, 10, 12, 21]);
    assert(last_value(a5, "configure"@) == Some(m.configure));
    assert(last_value(a4, "configure"@) == Some(m.configure));
    assert(last_value(a4, "build"@) == Some(m.build));
    assert(last_value(a3, "configure"@) == Some(m.configure));
    assert(last_value(a3, "build"@) == Some(m.build));
    assert(last_value(a2, "configure"@) == Some(m.configure));
    assert(last_value(a2, "build"@) == Some(m.build));
    assert(last_value(a3, "test"@) == Some(m.test));
    assert(last_value(a2, "test"@) == Some(m.test));
    assert(last_value(a2, "entrypoint"@) == Some(m.entrypoint));
    assert(last_value(a1, "sdk_features"@) == Some(m.sdk_features));
    assert(last_value(a1, "configure"@) == Some(m.configure));
    assert(last_value(a1, "build"@) == Some(m.build));
    assert(last_value(a1, "test"@) == Some(m.test));
    assert(last_value(a1, "entrypoint"@) == Some(m.entrypoint));
}

/// Reading back the text that the writer wrote for a manifest gives that
/// manifest, wherever its texts are plain enough for the reader to take them
/// back as they were written: printable ASCII without `"` or `\` in the
/// values, no `,` in an array's items, and `[env]` names as `key_ok` says.
/// `env` is the list of the manifest's `[env]` entries in ascending order of
/// names, which is how the writer lays them out.
pub proof fn law_read_back_written_manifest(m: ManifestView, env: Seq<(Seq<char>, Seq<char>)>)
    requires
        sorted_keys(env),
        map_of(env) == m.env,
        writable_fields(m),
        writable_env(env),
    ensures
        manifest_from_toml(rendered_manifest(m, env)) == Ok::<ManifestView, Seq<char>>(m),
{
    let ls = manifest_lines(m, env);
    lemma_lines_single(m, env);
    lemma_lines_unlines(ls);
    assert(lines(rendered_manifest(m, env)) == ls);
    lemma_run_append(toml_start(), header_lines(m), env_lines(env));
    lemma_header_run(m);
    reveal_strlit("env");
    lemma_env_run(header_state(m), env);
    lemma_insert_all_sorted(env);
    let fin = TomlState { env: insert_all(Map::empty(), env), ..header_state(m) };
    assert(toml_run(toml_start(), ls) == Ok::<TomlState, Seq<char>>(fin));
    lemma_header_lookups(m);
    lemma_build_system_name(m.build_system);
    assert(manifest_fields(fin, m.build_system) == Ok::<ManifestView, Seq<char>>(m));
}


/// The manifest that the template of a repository describes.
pub open spec fn template_view(id: Seq<char>, url: Seq<char>, rev: Seq<char>) -> ManifestView {
    ManifestView {
        id: id,
        repo: url,
        rev: rev,
        build_system: BuildSystem::Custom,
        configure: seq![],
        build: seq![],
        test: seq![],
        entrypoint: seq![],
        env: Map::empty(),
        sdk_features: seq![],
        protocol_expectations: seq![],
        patch_policy: "prefer-none"@,
    }
}

/// A text that the template carries through as it is: no line break, and no
/// `"` at either end (the reader strips the quotes around a value).
pub open spec fn template_safe(x: Seq<char>) -> bool {
    &&& none_in(x, CharSet::One('\n'))
    &&& x.len() > 0 ==> x[0] != '"' && x.last() != '"'
}

/// The line `key = "x"`, with `x` between quotes as it is, records the scalar `x`.
proof fn lemma_step_raw(st: TomlState, key: Seq<char>, x: Seq<char>)
    requires
        field_name(key),
        st.section != "env"@,
        template_safe(x),
    ensures
        toml_step(st, assign_line(key, raw_quoted(x))) == Ok::<TomlState, Seq<char>>(
            TomlState { scalars: st.scalars.push((key, x)), ..st },
        ),
{
    lemma_field_name(key);
    let v = raw_quoted(x);
    assert(v[0] == '"');
    assert(v.last() == '"');
    lemma_step_assign(st, key, v);
    lemma_trim_around(seq!['"'], x, seq!['"'], CharSet::One('"'));
}

/// `key = value` is one line as `lines` reads it.
proof fn lemma_assign_line_single(key: Seq<char>, value: Seq<char>)
    requires
        none_in(key, CharSet::One('\n')),
        none_in(value, CharSet::One('\n')),
        value.len() > 0,
        value.last() != '\r',
    ensures
        single_line(assign_line(key, value)),
{
    reveal_strlit(" = ");
    let eq = " = "@;
    assert(printable(eq)) by {
        assert forall|i: int| 0 <= i < eq.len() implies printable_char(#[trigger] eq[i]) by {}
    }
    lemma_printable_single(eq);
    lemma_none_in_concat(key, eq, CharSet::One('\n'));
    lemma_none_in_concat(key + eq, value, CharSet::One('\n'));
    assert(assign_line(key, value).last() == value.last());
}

/// `key = "x"` is one line wherever `x` holds no line break.
proof fn lemma_raw_line_single(key: Seq<char>, x: Seq<char>)
    requires
        field_name(key),
        template_safe(x),
    ensures
        single_line(assign_line(key, raw_quoted(x))),
{
    lemma_field_name(key);
    let q = seq!['"'];
    assert(none_in(q, CharSet::One('\n')));
    lemma_none_in_concat(q, x, CharSet::One('\n'));
    lemma_none_in_concat(q + x, q, CharSet::One('\n'));
    assert(raw_quoted(x).last() == '"');
    lemma_assign_line_single(key, raw_quoted(x));
}

/// The fixed lines of the template: those the writer writes for the template
/// manifest of the same identity, from the build system on.
proof fn lemma_template_fixed_lines(id: Seq<char>, url: Seq<char>, rev: Seq<char>)
    ensures
        forall|i: int| 3 <= i < 13 ==> #[trigger] template_lines(id, url, rev)[i] == header_lines(
            template_view(id, url, rev),
        )[i],
        header_lines(template_view(id, url, rev)).len() == 13,
{
    reveal_strlit("custom");
    reveal_strlit("\"custom\"");
    reveal_strlit("prefer-none");
    reveal_strlit("\"prefer-none\"");
    reveal_strlit("[]");
    reveal_strlit("[");
    reveal_strlit("]");
    lemma_build_system_name(BuildSystem::Custom);
    let pn = "prefer-none"@;
    assert(plain_text(pn)) by {
        assert forall|i: int| 0 <= i < pn.len() implies plain_char(#[trigger] pn[i]) by {}
    }
    lemma_plain_quoted("custom"@);
    lemma_plain_quoted(pn);
    assert(quoted("custom"@) =~= "\"custom\""@);
    assert(quoted(pn) =~= "\"prefer-none\""@);
    let none: Seq<Seq<char>> = seq![];
    assert(quoted_list(none) == Seq::<char>::empty());
    assert(array_text(none) =~= "[]"@);
}

/// What the reader holds when it reaches the `[env]` header of the template.
#[verifier::rlimit(40)]
proof fn lemma_template_run(id: Seq<char>, url: Seq<char>, rev: Seq<char>)
    requires
        template_safe(id),
        template_safe(url),
        template_safe(rev),
    ensures
        toml_run(toml_start(), template_lines(id, url, rev)) == Ok::<TomlState, Seq<char>>(
            header_state(template_view(id, url, rev)),
        ),
{
    reveal_strlit("env");
    reveal_strlit("[env]");
    lemma_field_names();
    lemma_template_fixed_lines(id, url, rev);
    let m = template_view(id, url, rev);
    lemma_build_system_name(m.build_system);
    let pn = "prefer-none"@;
    reveal_strlit("prefer-none");
    assert(plain_text(pn)) by {
        assert forall|i: int| 0 <= i < pn.len() implies plain_char(#[trigger] pn[i]) by {}
    }
    let none: Seq<Seq<char>> = seq![];
    assert(plain_items(none));
    let h = template_lines(id, url, rev);
    let hh = header_lines(m);
    let s0 = toml_start();
    assert(h.take(0) =~= Seq::<Seq<char>>::empty());
    assert(s0.section != "env"@);
    lemma_run_next(s0, h, 0, s0);
    lemma_step_raw(s0, "id"@, id);
    let s1 = TomlState { scalars: s0.scalars.push(("id"@, id)), ..s0 };
    lemma_run_next(s0, h, 1, s1);
    lemma_step_raw(s1, "repo"@, url);
    let s2 = TomlState { scalars: s1.scalars.push(("repo"@, url)), ..s1 };
    lemma_run_next(s0, h, 2, s2);
    lemma_step_raw(s2, "rev"@, rev);
    let s3 = TomlState { scalars: s2.scalars.push(("rev"@, rev)), ..s2 };
    lemma_run_next(s0, h, 3, s3);
    assert(h[3] == hh[3]);
    lemma_step_scalar(s3, "build_system"@, build_system_name(m.build_system));
    let s4 = TomlState { scalars: s3.scalars.push(("build_system"@, build_system_name(m.build_system))), ..s3 };
    lemma_run_next(s0, h, 4, s4);
    assert(h[4] == hh[4]);
    lemma_step_array(s4, "configure"@, none);
    let s5 = TomlState { arrays: s4.arrays.push(("configure"@, none)), ..s4 };
    lemma_run_next(s0, h, 5, s5);
    assert(h[5] == hh[5]);
    lemma_step_array(s5, "build"@, none);
    let s6 = TomlState { arrays: s5.arrays.push(("build"@, none)), ..s5 };
    lemma_run_next(s0, h, 6, s6);
    assert(h[6] == hh[6]);
    lemma_step_array(s6, "test"@, none);
    let s7 = TomlState { arrays: s6.arrays.push(("test"@, none)), ..s6 };
    lemma_run_next(s0, h, 7, s7);
    assert(h[7] == hh[7]);
    lemma_step_array(s7, "entrypoint"@, none);
    let s8 = TomlState { arrays: s7.arrays.push(("entrypoint"@, none)), ..s7 };
    lemma_run_next(s0, h, 8, s8);
    assert(h[8] == hh[8]);
    lemma_step_scalar(s8, "patch_policy"@, pn);
    let s9 = TomlState { scalars: s8.scalars.push(("patch_policy"@, pn)), ..s8 };
    lemma_run_next(s0, h, 9, s9);
    assert(h[9] == hh[9]);
    lemma_step_array(s9, "sdk_features"@, none);
    let s10 = TomlState { arrays: s9.arrays.push(("sdk_features"@, none)), ..s9 };
    lemma_run_next(s0, h, 10, s10);
    assert(h[10] == hh[10]);
    lemma_step_array(s10, "protocol_expectations"@, none);
    let s11 = TomlState { arrays: s10.arrays.push(("protocol_expectations"@, none)), ..s10 };
    lemma_run_next(s0, h, 11, s11);
    assert(trim(h[11]) == Seq::<char>::empty());
    assert(toml_step(s11, h[11]) == Ok::<TomlState, Seq<char>>(s11));
    lemma_run_next(s0, h, 12, s11);
    let e = h[12];
    assert(e =~= seq!['['] + "env"@ + seq![']']);
    lemma_trim_around(seq![], e, seq![], CharSet::Space);
    assert(seq![] + e + seq![] =~= e);
    lemma_trim_around(seq!['['], "env"@, seq![']'], CharSet::Brackets);
    let s12 = TomlState { section: "env"@, ..s11 };
    assert(toml_step(s11, e) == Ok::<TomlState, Seq<char>>(s12));
    assert(h.take(13) =~= h);
    assert(s12.scalars =~= header_state(m).scalars);
    assert(s12.arrays =~= header_state(m).arrays);
    assert(s12 == header_state(m));
}

/// The template that `repo add` writes for a repository reads back as a
/// manifest that names the repository's id, URL and revision, has a custom
/// build system, no command, no feature, no expectation, no variable and the
/// `prefer-none` patch policy, and so still is the template; this holds
/// wherever the id, URL and revision hold no line break and neither start
/// nor end with `"`.
pub proof fn law_template_reads_back(id: Seq<char>, url: Seq<char>, rev: Seq<char>)
    requires
        template_safe(id),
        template_safe(url),
        template_safe(rev),
    ensures
        manifest_from_toml(template_text(id, url, rev)) == Ok::<ManifestView, Seq<char>>(
            template_view(id, url, rev),
        ),
        uninitialized(template_view(id, url, rev)),
{
    let tm = template_view(id, url, rev);
    let h = template_lines(id, url, rev);
    let plain_tm = template_view(seq![], seq![], seq![]);
    let no_env: Seq<(Seq<char>, Seq<char>)> = seq![];
    lemma_field_names();
    lemma_template_fixed_lines(id, url, rev);
    lemma_template_fixed_lines(seq![], seq![], seq![]);
    assert(writable_fields(plain_tm)) by {
        reveal_strlit("prefer-none");
        let pn = "prefer-none"@;
        assert forall|i: int| 0 <= i < pn.len() implies plain_char(#[trigger] pn[i]) by {}
    }
    assert(writable_env(no_env));
    lemma_lines_single(plain_tm, no_env);
    assert(env_lines(no_env) =~= Seq::<Seq<char>>::empty());
    assert(manifest_lines(plain_tm, no_env) =~= header_lines(plain_tm));
    assert forall|i: int| 0 <= i < h.len() implies single_line(#[trigger] h[i]) by {
        if i == 0 {
            lemma_raw_line_single("id"@, id);
        } else if i == 1 {
            lemma_raw_line_single("repo"@, url);
        } else if i == 2 {
            lemma_raw_line_single("rev"@, rev);
        } else {
            assert(h[i] == header_lines(tm)[i]);
            assert(header_lines(tm)[i] == template_lines(seq![], seq![], seq![])[i]);
            assert(template_lines(seq![], seq![], seq![])[i] == header_lines(plain_tm)[i]);
            assert(single_line(manifest_lines(plain_tm, no_env)[i]));
        }
    }
    lemma_lines_unlines(h);
    lemma_template_run(id, url, rev);
    lemma_header_lookups(tm);
    lemma_build_system_name(BuildSystem::Custom);
    reveal_strlit("env");
    assert(toml_run(toml_start(), lines(template_text(id, url, rev))) == Ok::<TomlState, Seq<char>>(header_state(tm)));
    assert(header_state(tm).env =~= tm.env);
    assert(manifest_fields(header_state(tm), tm.build_system) == Ok::<ManifestView, Seq<char>>(tm));
}


/// The name the writer gives a build system is one the reader knows, and it
/// names that same build system.
pub proof fn law_build_system_name_round_trip(b: BuildSystem)
    ensures
        build_system_named(build_system_name(b)) == Some(b),
{
    lemma_build_system_name(b);
}

} // verus!
