//! The managed sysroot of stand-in Linux headers and libraries: which
//! dependencies it provides, and the text edits its installation makes.
use vstd::prelude::*;
use crate::text::{
    append_chars, append_str, chars_of, contains_in, contains_text, find_text, find_text_from,
    occurs_at, push_span, span_is, string_from,
};

verus! {

/// The native dependencies the workspace sysroot stands in for.
pub open spec fn shim_dependency_names() -> Seq<Seq<char>> {
    seq!["libdrm"@, "gbm"@, "libinput"@, "libudev"@, "libseat"@, "libevdev"@]
}

/// The native dependencies the workspace sysroot stands in for.
pub fn shim_dependencies() -> (r: Vec<&'static str>)
    ensures
        r@.map_values(|s: &str| s@) == shim_dependency_names(),
{
    let r = vec!["libdrm", "gbm", "libinput", "libudev", "libseat", "libevdev"];
    assert(r@.map_values(|s: &str| s@) =~= shim_dependency_names());
    r
}

/// Whether the workspace sysroot stands in for `name`.
pub fn is_shim_dependency(name: &str) -> (b: bool)
    ensures
        b == shim_dependency_names().contains(name@),
{
    let deps = shim_dependencies();
    let n = chars_of(name);
    let mut i: usize = 0;
    while i < deps.len()
        invariant
            i <= deps@.len(),
            n@ == name@,
            deps@.map_values(|s: &str| s@) == shim_dependency_names(),
            forall|j: int| 0 <= j < i ==> shim_dependency_names()[j] != name@,
        decreases deps.len() - i,
    {
        if crate::text::same_text(&chars_of(deps[i]), &n) {
            assert(shim_dependency_names()[i as int] == name@);
            return true;
        }
        i += 1;
    }
    false
}

/// The stem of a static library's file name: `libX.a` gives `X`; any other name stands as it is.
pub open spec fn stub_stem(name: Seq<char>) -> Seq<char> {
    if name.len() >= 5 && name.take(3) == "lib"@ && name.skip(name.len() - 2) == ".a"@ {
        name.subrange(3, name.len() - 2)
    } else {
        name
    }
}

/// The stem of a static library's file name (see `stub_stem`).
pub fn stub_library_stem(library_name: &str) -> (r: String)
    ensures
        r@ == stub_stem(library_name@),
{
    let n = chars_of(library_name);
    let lib = chars_of("lib");
    let ext = chars_of(".a");
    proof {
        reveal_strlit("lib");
        reveal_strlit(".a");
    }
    if n.len() >= 5 && span_is(&n, 0, 3, &lib) && span_is(&n, n.len() - 2, n.len(), &ext) {
        assert(n@.take(3) =~= n@.subrange(0, 3));
        assert(n@.skip(n@.len() - 2) =~= n@.subrange(n@.len() - 2, n@.len() as int));
        let mut out: Vec<char> = Vec::new();
        push_span(&mut out, &n, 3, n.len() - 2);
        assert(out@ =~= n@.subrange(3, n@.len() - 2));
        string_from(&out)
    } else {
        proof {
            if n@.len() >= 5 && n@.take(3) == "lib"@ && n@.skip(n@.len() - 2) == ".a"@ {
                assert(n@.subrange(0, 3) =~= n@.take(3));
                assert(n@.subrange(n@.len() - 2, n@.len() as int) =~= n@.skip(n@.len() - 2));
            }
        }
        string_from(&n)
    }
}

/// `str::replace` with a non-empty pattern: every occurrence of `from`, left
/// to right and without overlap, replaced by `to`.
#[verifier::opaque]
pub open spec fn replace_all(s: Seq<char>, from: Seq<char>, to: Seq<char>) -> Seq<char>
    decreases s.len(),
{
    if from.len() == 0 {
        s
    } else {
        match find_text(s, from) {
            Some(i) => if 0 <= i && i + from.len() <= s.len() {
                s.take(i) + to + replace_all(s.skip(i + from.len()), from, to)
            } else {
                s
            },
            None => s,
        }
    }
}

/// The first occurrence after a point is the first occurrence in the rest.
proof fn lemma_find_in_rest(s: Seq<char>, t: Seq<char>, pos: int, i: int)
    requires
        0 <= pos <= i,
        occurs_at(s, t, i),
        forall|j: int| pos <= j < i ==> !occurs_at(s, t, j),
    ensures
        find_text(s.skip(pos), t) == Some(i - pos),
{
    let r = s.skip(pos);
    assert forall|j: int| 0 <= j implies occurs_at(r, t, j) == occurs_at(s, t, j + pos) by {
        if 0 <= j && j + t.len() <= r.len() {
            assert(r.subrange(j, j + t.len()) =~= s.subrange(j + pos, j + pos + t.len()));
        }
    }
    assert(occurs_at(r, t, i - pos));
    let k = choose|k: int| occurs_at(r, t, k) && forall|j: int| 0 <= j < k ==> !occurs_at(r, t, j);
    assert(occurs_at(r, t, i - pos) && forall|j: int| 0 <= j < i - pos ==> !occurs_at(r, t, j));
    if k < i - pos {
        assert(occurs_at(s, t, k + pos));
    } else if k > i - pos {
        assert(!occurs_at(r, t, i - pos));
    }
}

proof fn lemma_none_in_rest(s: Seq<char>, t: Seq<char>, u: Seq<char>, pos: int)
    requires
        0 <= pos <= s.len(),
        forall|j: int| pos <= j ==> !occurs_at(s, t, j),
    ensures
        find_text(s.skip(pos), t) is None,
        replace_all(s.skip(pos), t, u) == s.skip(pos),
{
    reveal(replace_all);
    let r = s.skip(pos);
    assert forall|j: int| !occurs_at(r, t, j) by {
        if 0 <= j && j + t.len() <= r.len() {
            assert(r.subrange(j, j + t.len()) =~= s.subrange(j + pos, j + pos + t.len()));
            assert(!occurs_at(s, t, j + pos));
        }
    }
}

proof fn lemma_replace_step(s: Seq<char>, f: Seq<char>, t: Seq<char>, pos: int, i: int)
    requires
        f.len() > 0,
        0 <= pos <= i,
        occurs_at(s, f, i),
        forall|j: int| pos <= j < i ==> !occurs_at(s, f, j),
    ensures
        replace_all(s.skip(pos), f, t) == s.subrange(pos, i) + t + replace_all(s.skip(i + f.len()), f, t),
{
    reveal(replace_all);
    lemma_find_in_rest(s, f, pos, i);
    let rest = s.skip(pos);
    assert(rest.take(i - pos) =~= s.subrange(pos, i));
    assert(rest.skip(i - pos + f.len()) =~= s.skip(i + f.len()));
}

/// `s.replace(from, to)` for a non-empty `from`.
pub fn replace_text(s: &Vec<char>, from: &Vec<char>, to: &Vec<char>) -> (r: Vec<char>)
    requires
        from@.len() > 0,
    ensures
        r@ == replace_all(s@, from@, to@),
{
    let mut out: Vec<char> = Vec::new();
    let mut pos: usize = 0;
    let n = s.len();
    assert(s@.skip(0) =~= s@);
    loop
        invariant
            pos <= s@.len() == n,
            from@.len() > 0,
            replace_all(s@, from@, to@) == out@ + replace_all(s@.skip(pos as int), from@, to@),
        decreases s@.len() - pos,
    {
        match find_text_from(s, from, pos) {
            Some(i) => {
                proof {
                    lemma_replace_step(s@, from@, to@, pos as int, i as int);
                }
                let ghost before = out@;
                push_span(&mut out, s, pos, i);
                append_chars(&mut out, to);
                assert(out@ =~= before + s@.subrange(pos as int, i as int) + to@);
                assert(occurs_at(s@, from@, i as int));
                assert(i + from@.len() <= s@.len());
                pos = i + from.len();
            },
            None => {
                proof {
                    lemma_none_in_rest(s@, from@, to@, pos as int);
                }
                let ghost before = out@;
                push_span(&mut out, s, pos, s.len());
                assert(s@.subrange(pos as int, s@.len() as int) =~= s@.skip(pos as int));
                assert(replace_all(s@.skip(pos as int), from@, to@) == s@.skip(pos as int));
                return out;
            },
        }
    }
}

/// The fix the Aquamarine backend header needs: it must include `Session.hpp`.
/// `None` when it already does; else the header with the include added after
/// every `#include "Misc.hpp"`, or at the top when it has none.
pub open spec fn backend_header_fix(contents: Seq<char>) -> Option<Seq<char>> {
    let session = "#include \"Session.hpp\""@;
    let misc = "#include \"Misc.hpp\""@;
    if contains_text(contents, session) {
        None
    } else if contains_text(contents, misc) {
        Some(replace_all(contents, misc, misc + "\n"@ + session))
    } else {
        Some(session + "\n"@ + contents)
    }
}

/// The patched text of the Aquamarine backend header (see `backend_header_fix`).
pub fn patched_backend_header(contents: &str) -> (r: Option<String>)
    ensures
        match r {
            Some(t) => backend_header_fix(contents@) == Some(t@),
            None => backend_header_fix(contents@) is None,
        },
{
    let c = chars_of(contents);
    let session = chars_of("#include \"Session.hpp\"");
    let misc = chars_of("#include \"Misc.hpp\"");
    if contains_in(&c, &session) {
        return None;
    }
    if contains_in(&c, &misc) {
        let mut replacement = misc.clone();
        append_str(&mut replacement, "\n");
        append_chars(&mut replacement, &session);
        proof {
            reveal_strlit("#include \"Misc.hpp\"");
        }
        let out = replace_text(&c, &misc, &replacement);
        Some(string_from(&out))
    } else {
        let mut out = session.clone();
        append_str(&mut out, "\n");
        append_chars(&mut out, &c);
        Some(string_from(&out))
    }
}


/// A fixed header includes `Session.hpp`.
proof fn lemma_fix_includes_session(contents: Seq<char>)
    ensures
        backend_header_fix(contents) matches Some(t) ==> contains_text(t, "#include \"Session.hpp\""@),
{
    let session = "#include \"Session.hpp\""@;
    let misc = "#include \"Misc.hpp\""@;
    reveal_strlit("#include \"Session.hpp\"");
    reveal_strlit("#include \"Misc.hpp\"");
    reveal_strlit("\n");
    if !contains_text(contents, session) {
        if contains_text(contents, misc) {
            crate::text::lemma_find_text(contents, misc);
            let i = find_text(contents, misc)->0;
            let to = misc + "\n"@ + session;
            lemma_replace_step(contents, misc, to, 0, i);
            assert(contents.skip(0) =~= contents);
            let t = replace_all(contents, misc, to);
            let rest = replace_all(contents.skip(i + misc.len()), misc, to);
            assert(t == contents.subrange(0, i) + to + rest);
            let k = i + misc.len() + 1;
            assert(t.subrange(k, k + session.len()) =~= session);
            assert(occurs_at(t, session, k));
        } else {
            let t = session + "\n"@ + contents;
            assert(t.subrange(0, session.len() as int) =~= session);
            assert(occurs_at(t, session, 0));
        }
    }
}

/// The characters of `#include "Session.hpp"` and `#include "Misc.hpp"`
/// that the proof of the law below needs.
proof fn lemma_include_chars()
    ensures
        "#include \"Session.hpp\""@.len() == 22,
        "#include \"Misc.hpp\""@.len() == 19,
        "#include \"Session.hpp\""@[0] == '#',
        "#include \"Misc.hpp\""@[0] == '#',
        forall|j: int| 0 < j < 22 ==> #[trigger] "#include \"Session.hpp\""@[j] != '#',
        forall|j: int| 0 < j < 19 ==> #[trigger] "#include \"Misc.hpp\""@[j] != '#',
        "#include \"Session.hpp\""@[10] != "#include \"Misc.hpp\""@[10],
        "\n"@ == seq!['\n'],
{
    reveal_strlit("#include \"Session.hpp\"");
    reveal_strlit("#include \"Misc.hpp\"");
    reveal_strlit("\n");
}

/// Fixing the Aquamarine backend header once is enough: a fixed header
/// includes `Session.hpp`, so fixing it again changes nothing. Where the
/// header includes `Session.hpp` nowhere and `Misc.hpp` once, at `i`, the
/// fixed header is the original with `#include "Session.hpp"` on the line
/// right after that include, and it includes `Session.hpp` there and
/// nowhere else.
pub proof fn law_backend_header_fix_once(contents: Seq<char>, i: int)
    ensures
        backend_header_fix(contents) matches Some(t) ==> backend_header_fix(t) is None,
        !contains_text(contents, "#include \"Session.hpp\""@) && occurs_at(contents, "#include \"Misc.hpp\""@, i)
            && (forall|j: int| #[trigger] occurs_at(contents, "#include \"Misc.hpp\""@, j) ==> j == i) ==> {
            let misc = "#include \"Misc.hpp\""@;
            let session = "#include \"Session.hpp\""@;
            let t = contents.take(i) + misc + "\n"@ + session + contents.skip(i + misc.len());
            &&& backend_header_fix(contents) == Some(t)
            &&& forall|k: int| #[trigger] occurs_at(t, session, k) <==> k == i + misc.len() + 1
        },
{
    lemma_fix_includes_session(contents);
    let misc = "#include \"Misc.hpp\""@;
    let session = "#include \"Session.hpp\""@;
    let nl = "\n"@;
    if !contains_text(contents, session) && occurs_at(contents, misc, i)
        && (forall|j: int| #[trigger] occurs_at(contents, misc, j) ==> j == i) {
        lemma_include_chars();
        let to = misc + nl + session;
        let m = misc.len() as int;
        let a = contents.take(i);
        let b = contents.skip(i + m);
        let t = a + misc + nl + session + b;
        lemma_replace_step(contents, misc, to, 0, i);
        assert(contents.skip(0) =~= contents);
        assert forall|j: int| i + m <= j implies !occurs_at(contents, misc, j) by {
            if occurs_at(contents, misc, j) {
                assert(j == i);
            }
        }
        lemma_none_in_rest(contents, misc, to, i + m);
        assert(contents.subrange(0, i) =~= a);
        assert(t =~= a + to + b);
        assert(backend_header_fix(contents) == Some(t));
        let p = i + m + 1;
        assert(t.len() == contents.len() + 23);
        assert(contents =~= a + misc + b) by {
            assert(contents.subrange(i, i + m) == misc);
        }
        assert forall|k: int| #[trigger] occurs_at(t, session, k) <==> k == p by {
            if k == p {
                assert(t.subrange(k, k + 22) =~= session);
            }
            if occurs_at(t, session, k) && k != p {
                let w = t.subrange(k, k + 22);
                assert(w == session);
                assert(t[k] == '#') by {
                    assert(w[0] == t[k]);
                }
                if k + 22 <= i {
                    assert(t.subrange(k, k + 22) =~= contents.subrange(k, k + 22));
                    assert(occurs_at(contents, session, k));
                } else if k >= p + 22 {
                    assert(t.subrange(k, k + 22) =~= contents.subrange(k - 23, k - 1));
                    assert(occurs_at(contents, session, k - 23));
                } else if k < i {
                    assert(w[i - k] == t[i]);
                    assert(t[i] == misc[0]);
                    assert(session[i - k] != '#');
                } else if k == i {
                    assert(w[10] == t[i + 10]);
                    assert(t[i + 10] == misc[10]);
                } else if k < i + m {
                    assert(t[k] == misc[k - i]);
                } else if k == i + m {
                    assert(t[k] == '\n');
                } else {
                    assert(t[k] == session[k - p]);
                }
            }
        }
    }
}

} // verus!
