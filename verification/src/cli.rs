//! The decisions of the `macland` command line: repository ids, wlroots
//! versions, argument flags and the support report it prints.
use vstd::prelude::*;
use crate::adapter::{AdapterManifest, BuildSystem, ManifestView};
use crate::detect::starts_with;
use crate::env_map::{text_less, text_less_exec};
use crate::host::HostSessionMode;
use crate::repo::last_dot;
use crate::report::{SupportReport, SupportTier};
use crate::runner::{inspect_manifest, join_path, path_join};
use crate::shim::has_item;
use crate::text::{
    CharSet, append_chars, append_str, chars_of, copy_span, find_text, find_text_in, line_spans,
    lines, same_text, span, span_starts_with, split_by, split_spans, string_from, text_of,
};

verus! {

/// The components of a path that name something: its `/`-separated pieces
/// that are neither empty nor `.`.
pub open spec fn name_segments(p: Seq<char>) -> Seq<Seq<char>> {
    split_by(p, CharSet::One('/')).filter(|s: Seq<char>| s.len() > 0 && s != "."@)
}

/// `Path::file_name`: the last component, unless it is `..` or there is none.
pub open spec fn file_name(p: Seq<char>) -> Option<Seq<char>> {
    let segs = name_segments(p);
    if segs.len() == 0 || segs.last() == ".."@ {
        None
    } else {
        Some(segs.last())
    }
}

/// `Path::file_stem` of a file name: the part before its last `.`, unless
/// that `.` leads the name or there is none.
pub open spec fn stem(name: Seq<char>) -> Seq<char> {
    match last_dot(name) {
        Some(i) => if i > 0 {
            name.take(i)
        } else {
            name
        },
        None => name,
    }
}

/// The id a repository gets from its URL: the stem of the URL's last path
/// component (`https://github.com/labwc/labwc.git` gives `labwc`), or `repo`.
pub open spec fn repo_id_of(url: Seq<char>) -> Seq<char> {
    match file_name(url) {
        Some(n) => stem(n),
        None => "repo"@,
    }
}

/// The id a repository gets from its URL (see `repo_id_of`).
pub fn infer_repo_id(url: &str) -> (r: String)
    ensures
        r@ == repo_id_of(url@),
{
    let u = chars_of(url);
    let spans = split_spans(&u, 0, u.len(), CharSet::One('/'));
    assert(u@.subrange(0, u@.len() as int) =~= u@);
    let ghost pieces = split_by(u@, CharSet::One('/'));
    let ghost keep = |s: Seq<char>| s.len() > 0 && s != "."@;
    let dot = chars_of(".");
    let mut last: Option<(usize, usize)> = None;
    let mut k: usize = 0;
    assert(pieces.take(0).filter(keep) =~= Seq::<Seq<char>>::empty()) by {
        reveal(Seq::filter);
    }
    while k < spans.len()
        invariant
            k <= spans@.len(),
            u@ == url@,
            dot@ == "."@,
            pieces == split_by(u@, CharSet::One('/')),
            keep == |s: Seq<char>| s.len() > 0 && s != "."@,
            spans@.map_values(|p: (usize, usize)| span(u@, p)) == pieces,
            forall|j: int| 0 <= j < spans@.len() ==> (#[trigger] spans@[j]).0 <= spans@[j].1 <= u@.len(),
            match last {
                Some(r) => r.0 <= r.1 <= u@.len() && pieces.take(k as int).filter(keep).len() > 0
                    && pieces.take(k as int).filter(keep).last() == span(u@, r),
                None => pieces.take(k as int).filter(keep).len() == 0,
            },
        decreases spans.len() - k,
    {
        let (a, b) = spans[k];
        assert(span(u@, spans@[k as int]) == pieces[k as int]);
        assert(pieces.take(k as int).push(pieces[k as int]) =~= pieces.take(k + 1));
        proof {
            pieces.take(k as int).lemma_filter_push(pieces[k as int], keep);
        }
        if a < b && !crate::text::span_is(&u, a, b, &dot) {
            last = Some((a, b));
        }
        k += 1;
    }
    assert(pieces.take(spans@.len() as int) =~= pieces);
    match last {
        None => text_of("repo"),
        Some((a, b)) => {
            proof {
                reveal_strlit("..");
            }
            if crate::text::span_is(&u, a, b, &chars_of("..")) {
                return text_of("repo");
            }
            let name = copy_span(&u, a, b);
            let mut i = name.len();
            assert(name@.take(i as int) =~= name@);
            while i > 0
                invariant
                    i <= name@.len(),
                    last_dot(name@) == last_dot(name@.take(i as int)),
                    repo_id_of(url@) == stem(name@),
                decreases i,
            {
                assert(name@.take(i as int).drop_last() =~= name@.take(i - 1));
                if name[i - 1] == '.' {
                    assert(last_dot(name@.take(i as int)) == Some((i - 1) as int));
                    assert(stem(name@) == if i - 1 > 0 { name@.take(i - 1) } else { name@ });
                    if i - 1 > 0 {
                        let s = copy_span(&name, 0, i - 1);
                        assert(s@ =~= name@.take(i - 1));
                        return string_from(&s);
                    } else {
                        return string_from(&name);
                    }
                }
                i -= 1;
            }
            string_from(&name)
        },
    }
}

/// Whether `c` may be part of a version number: an ASCII digit or a `.`.
pub open spec fn version_char(c: char) -> bool {
    ('0' <= c && c <= '9') || c == '.'
}

/// The longest prefix of `s` made of digits and dots.
pub open spec fn version_run(s: Seq<char>) -> Seq<char>
    decreases s.len(),
{
    if s.len() > 0 && version_char(s[0]) {
        seq![s[0]] + version_run(s.drop_first())
    } else {
        seq![]
    }
}

/// The wlroots series that the first occurrence of `marker` in `contents`
/// names: `0.` and the digits and dots after the marker (`whole`), or only
/// the part of them before their first dot.
pub open spec fn series_after(contents: Seq<char>, marker: Seq<char>, whole: bool) -> Option<Seq<char>> {
    match find_text(contents, marker) {
        Some(i) => {
            let run = version_run(contents.skip(i + marker.len()));
            if run.len() == 0 {
                None
            } else if whole {
                Some("0."@ + run)
            } else {
                Some("0."@ + split_by(run, CharSet::One('.'))[0])
            }
        },
        None => None,
    }
}

/// The wlroots series a `meson.build` asks for: after `wlroots-0.` (a
/// dependency name such as `wlroots-0.20`), else after `>=0.` (a version
/// constraint, whose minor version counts).
pub open spec fn wlroots_series(contents: Seq<char>) -> Option<Seq<char>> {
    match series_after(contents, "wlroots-0."@, true) {
        Some(s) => Some(s),
        None => series_after(contents, ">=0."@, false),
    }
}

/// The digits and dots at `start` of `s` (see `version_run`).
fn version_run_at(s: &Vec<char>, start: usize) -> (r: Vec<char>)
    requires
        start <= s@.len(),
    ensures
        r@ == version_run(s@.skip(start as int)),
{
    let mut end = start;
    while end < s.len() && (('0' <= s[end] && s[end] <= '9') || s[end] == '.')
        invariant
            start <= end <= s@.len(),
            version_run(s@.skip(start as int)) == s@.subrange(start as int, end as int) + version_run(s@.skip(end as int)),
        decreases s.len() - end,
    {
        assert(s@.skip(end as int).drop_first() =~= s@.skip(end + 1));
        assert(s@.subrange(start as int, end + 1) =~= s@.subrange(start as int, end as int) + seq![s@[end as int]]);
        end += 1;
    }
    assert(version_run(s@.skip(end as int)) =~= Seq::<char>::empty());
    let r = copy_span(s, start, end);
    assert(r@ =~= s@.subrange(start as int, end as int) + Seq::<char>::empty());
    r
}

/// The series text made of `0.` and a run of digits and dots: all of it
/// (`whole`) or only its part before the first dot.
fn series_text(run: &Vec<char>, whole: bool) -> (r: String)
    ensures
        r@ == (if whole { "0."@ + run@ } else { "0."@ + split_by(run@, CharSet::One('.'))[0] }),
{
    let mut out = chars_of("0.");
    if whole {
        append_chars(&mut out, run);
    } else {
        let pieces = split_spans(run, 0, run.len(), CharSet::One('.'));
        assert(run@.subrange(0, run@.len() as int) =~= run@);
        proof {
            crate::text::lemma_split_nonempty(run@, CharSet::One('.'));
        }
        assert(pieces@.map_values(|p: (usize, usize)| span(run@, p))[0] == span(run@, pieces@[0]));
        let (a, b) = pieces[0];
        crate::text::push_span(&mut out, run, a, b);
    }
    string_from(&out)
}

fn series_after_exec(contents: &Vec<char>, marker: &str, whole: bool) -> (r: Option<String>)
    ensures
        match r {
            Some(v) => series_after(contents@, marker@, whole) == Some(v@),
            None => series_after(contents@, marker@, whole) is None,
        },
{
    let m = chars_of(marker);
    match find_text_in(contents, &m) {
        Some(i) => {
            proof {
                crate::text::lemma_find_text(contents@, m@);
            }
            assert(crate::text::occurs_at(contents@, m@, i as int));
            let n = contents.len();
            assert(i + m@.len() <= n);
            let run = version_run_at(contents, i + m.len());
            if run.len() == 0 {
                return None;
            }
            Some(series_text(&run, whole))
        },
        None => None,
    }
}

/// The wlroots series a `meson.build` asks for (see `wlroots_series`).
pub fn detect_wlroots_series(contents: &str) -> (r: Option<String>)
    ensures
        match r {
            Some(v) => wlroots_series(contents@) == Some(v@),
            None => wlroots_series(contents@) is None,
        },
{
    let c = chars_of(contents);
    match series_after_exec(&c, "wlroots-0.", true) {
        Some(s) => Some(s),
        None => series_after_exec(&c, ">=0.", false),
    }
}

/// The tag a line of `git ls-remote --tags --refs` names: the part of its
/// second tab-separated field after the last `/`.
pub open spec fn tag_of_line(line: Seq<char>) -> Option<Seq<char>> {
    let fields = split_by(line, CharSet::One('\t'));
    if fields.len() >= 2 {
        Some(split_by(fields[1], CharSet::One('/')).last())
    } else {
        None
    }
}

/// Whether `t` is a tag that some line of `ls` names.
pub open spec fn listed_tag(ls: Seq<Seq<char>>, t: Seq<char>) -> bool {
    exists|i: int| 0 <= i < ls.len() && tag_of_line(#[trigger] ls[i]) == Some(t)
}

/// Whether `line` names a tag that starts with `series`.
pub open spec fn names_series_tag(line: Seq<char>, series: Seq<char>) -> bool {
    match tag_of_line(line) {
        Some(u) => starts_with(u, series),
        None => false,
    }
}

/// Whether the tag that `line` names, if any, is not greater than `b`.
pub open spec fn tag_not_after(line: Seq<char>, b: Seq<char>) -> bool {
    match tag_of_line(line) {
        Some(u) => !text_less(b, u),
        None => true,
    }
}

/// The tag of the line at `[lo, hi)` of `s` (see `tag_of_line`).
fn line_tag(s: &Vec<char>, lo: usize, hi: usize) -> (r: Option<Vec<char>>)
    requires
        lo <= hi <= s@.len(),
    ensures
        match r {
            Some(t) => tag_of_line(s@.subrange(lo as int, hi as int)) == Some(t@),
            None => tag_of_line(s@.subrange(lo as int, hi as int)) is None,
        },
{
    let fields = split_spans(s, lo, hi, CharSet::One('\t'));
    if fields.len() < 2 {
        return None;
    }
    let ghost fs = split_by(s@.subrange(lo as int, hi as int), CharSet::One('\t'));
    assert(fields@.map_values(|p: (usize, usize)| span(s@, p))[1] == span(s@, fields@[1]));
    let (a, b) = fields[1];
    let parts = split_spans(s, a, b, CharSet::One('/'));
    proof {
        crate::text::lemma_split_nonempty(s@.subrange(a as int, b as int), CharSet::One('/'));
    }
    let n = parts.len();
    assert(parts@.map_values(|p: (usize, usize)| span(s@, p))[n - 1] == span(s@, parts@[n - 1]));
    let (c, d) = parts[n - 1];
    Some(copy_span(s, c, d))
}

/// The newest tag of a wlroots series in the output of `git ls-remote --tags
/// --refs`: the greatest, in `str` order, of the listed tags that start with
/// `series`; the error `no wlroots tag found for <series>` when none does.
pub fn select_wlroots_ref(ls_remote_output: &str, series: &str) -> (r: Result<String, String>)
    ensures
        match r {
            Ok(t) => listed_tag(lines(ls_remote_output@), t@) && starts_with(t@, series@)
                && forall|u: Seq<char>| listed_tag(lines(ls_remote_output@), u) && starts_with(u, series@)
                    ==> !text_less(t@, u),
            Err(e) => e@ == "no wlroots tag found for "@ + series@ && forall|u: Seq<char>|
                listed_tag(lines(ls_remote_output@), u) ==> !starts_with(u, series@),
        },
{
    let text = chars_of(ls_remote_output);
    let spans = line_spans(&text);
    let ghost ls = lines(text@);
    let want = chars_of(series);
    let mut best: Option<Vec<char>> = None;
    let mut k: usize = 0;
    while k < spans.len()
        invariant
            k <= spans@.len(),
            text@ == ls_remote_output@,
            want@ == series@,
            ls == lines(text@),
            spans@.map_values(|p: (usize, usize)| span(text@, p)) == ls,
            forall|j: int| 0 <= j < spans@.len() ==> (#[trigger] spans@[j]).0 <= spans@[j].1 <= text@.len(),
            match best {
                Some(b) => listed_tag(ls, b@) && starts_with(b@, series@) && forall|j: int|
                    0 <= j < k ==> names_series_tag(#[trigger] ls[j], series@) ==> tag_not_after(ls[j], b@),
                None => forall|j: int| 0 <= j < k ==> !names_series_tag(#[trigger] ls[j], series@),
            },
        decreases spans.len() - k,
    {
        let (lo, hi) = spans[k];
        assert(span(text@, spans@[k as int]) == ls[k as int]);
        match line_tag(&text, lo, hi) {
            Some(t) => {
                assert(tag_of_line(ls[k as int]) == Some(t@));
                let t_len = t.len();
                assert(t@.subrange(0, t@.len() as int) =~= t@);
                if crate::text::span_starts_with(&t, 0, t_len, &want) {
                    let better = match &best {
                        Some(b) => text_less_exec(b, &t),
                        None => true,
                    };
                    if better {
                        proof {
                            if let Some(b) = best {
                                assert forall|j: int| 0 <= j < k + 1 && names_series_tag(#[trigger] ls[j], series@) implies tag_not_after(ls[j], t@) by {
                                    if j < k {
                                        if let Some(u) = tag_of_line(ls[j]) {
                                            if starts_with(u, series@) && text_less(t@, u) {
                                                crate::env_map::lemma_text_less_transitive(b@, t@, u);
                                            }
                                        }
                                    } else {
                                        crate::env_map::lemma_text_less_irreflexive(t@);
                                    }
                                }
                            } else {
                                crate::env_map::lemma_text_less_irreflexive(t@);
                            }
                        }
                        assert(listed_tag(ls, t@)) by {
                            assert(tag_of_line(ls[k as int]) == Some(t@));
                        }
                        best = Some(t);
                    } else {
                        proof {
                            let b = best->0;
                            crate::env_map::lemma_text_less_total(b@, t@);
                        }
                    }
                }
            },
            None => {},
        }
        k += 1;
    }
    match best {
        Some(b) => {
            proof {
                assert forall|u: Seq<char>| listed_tag(ls, u) && starts_with(u, series@) implies !text_less(b@, u) by {
                    let j = choose|j: int| 0 <= j < ls.len() && tag_of_line(#[trigger] ls[j]) == Some(u);
                    assert(0 <= j < spans@.len());
                }
            }
            Ok(string_from(&b))
        },
        None => {
            proof {
                assert forall|u: Seq<char>| listed_tag(ls, u) implies !starts_with(u, series@) by {
                    let j = choose|j: int| 0 <= j < ls.len() && tag_of_line(#[trigger] ls[j]) == Some(u);
                    assert(0 <= j < spans@.len());
                }
            }
            let mut msg = chars_of("no wlroots tag found for ");
            append_str(&mut msg, series);
            Err(string_from(&msg))
        },
    }
}

/// The subproject wraps that a wlroots checkout provides and the parent
/// project redirects to: each `(name, target)` pair.
pub fn wrap_redirects() -> (r: Vec<(&'static str, &'static str)>)
    ensures
        r@.len() == 4,
        r@[0].0@ == "wayland.wrap"@ && r@[0].1@ == "wlroots/subprojects/wayland.wrap"@,
        r@[1].0@ == "libdrm.wrap"@ && r@[1].1@ == "wlroots/subprojects/libdrm.wrap"@,
        r@[2].0@ == "libdisplay-info.wrap"@ && r@[2].1@ == "wlroots/subprojects/libdisplay-info.wrap"@,
        r@[3].0@ == "libliftoff.wrap"@ && r@[3].1@ == "wlroots/subprojects/libliftoff.wrap"@,
{
    vec![
        ("wayland.wrap", "wlroots/subprojects/wayland.wrap"),
        ("libdrm.wrap", "wlroots/subprojects/libdrm.wrap"),
        ("libdisplay-info.wrap", "wlroots/subprojects/libdisplay-info.wrap"),
        ("libliftoff.wrap", "wlroots/subprojects/libliftoff.wrap"),
    ]
}

/// The text of a wrap file that redirects Meson to `target`.
pub fn redirect_wrap_contents(target: &str) -> (r: String)
    ensures
        r@ == "[wrap-redirect]\nfilename = "@ + target@ + "\n"@,
{
    let mut v = chars_of("[wrap-redirect]\nfilename = ");
    append_str(&mut v, target);
    append_str(&mut v, "\n");
    string_from(&v)
}

/// The pairs of `wrap_redirects`, as text.
pub open spec fn redirect_pairs() -> Seq<(Seq<char>, Seq<char>)> {
    seq![
        ("wayland.wrap"@, "wlroots/subprojects/wayland.wrap"@),
        ("libdrm.wrap"@, "wlroots/subprojects/libdrm.wrap"@),
        ("libdisplay-info.wrap"@, "wlroots/subprojects/libdisplay-info.wrap"@),
        ("libliftoff.wrap"@, "wlroots/subprojects/libliftoff.wrap"@),
    ]
}

/// The text of a wrap file that redirects Meson to `target`.
pub open spec fn redirect_text(target: Seq<char>) -> Seq<char> {
    "[wrap-redirect]\nfilename = "@ + target + "\n"@
}

/// The redirect wraps to write among `pairs`, in order, as (file name,
/// contents): those whose file is not in `present` while their target is.
pub open spec fn wraps_to_write(pairs: Seq<(Seq<char>, Seq<char>)>, present: Seq<Seq<char>>) -> Seq<(Seq<char>, Seq<char>)>
    decreases pairs.len(),
{
    if pairs.len() == 0 {
        seq![]
    } else {
        let rest = wraps_to_write(pairs.drop_last(), present);
        let (name, target) = pairs.last();
        if !present.contains(name) && present.contains(target) {
            rest.push((name, redirect_text(target)))
        } else {
            rest
        }
    }
}

/// The redirect wraps to write into a project's `subprojects` directory, as
/// (file name, contents): none unless a wlroots checkout is there; else each
/// pair of `wrap_redirects` whose file is missing and whose target exists.
/// `present` lists the paths under that directory that exist.
pub fn redirect_wraps_to_write(wlroots_present: bool, present: &Vec<String>) -> (r: Vec<(String, String)>)
    ensures
        r@.map_values(|p: (String, String)| (p.0@, p.1@)) == (if wlroots_present {
            wraps_to_write(redirect_pairs(), present.deep_view())
        } else {
            seq![]
        }),
{
    let mut out: Vec<(String, String)> = Vec::new();
    if !wlroots_present {
        assert(out@.map_values(|p: (String, String)| (p.0@, p.1@)) =~= seq![]);
        return out;
    }
    let pairs = wrap_redirects();
    let ghost ps = pairs@.map_values(|p: (&'static str, &'static str)| (p.0@, p.1@));
    assert(ps =~= redirect_pairs());
    let mut i: usize = 0;
    assert(ps.take(0) =~= Seq::<(Seq<char>, Seq<char>)>::empty());
    assert(out@.map_values(|p: (String, String)| (p.0@, p.1@)) =~= seq![]);
    while i < pairs.len()
        invariant
            i <= pairs@.len(),
            ps == pairs@.map_values(|p: (&'static str, &'static str)| (p.0@, p.1@)),
            out@.map_values(|p: (String, String)| (p.0@, p.1@)) == wraps_to_write(ps.take(i as int), present.deep_view()),
        decreases pairs.len() - i,
    {
        let (name, target) = pairs[i];
        assert(ps.take(i + 1).drop_last() =~= ps.take(i as int));
        assert(ps.take(i + 1).last() == (name@, target@));
        let ghost before = out@;
        if !has_item(present, name) && has_item(present, target) {
            out.push((text_of(name), redirect_wrap_contents(target)));
            assert(out@.map_values(|p: (String, String)| (p.0@, p.1@)) =~= before.map_values(
                |p: (String, String)| (p.0@, p.1@),
            ).push((name@, redirect_text(target@))));
        }
        i += 1;
    }
    assert(ps.take(pairs@.len() as int) =~= ps);
    out
}

/// Whether a manifest is the template that `repo add` wrote, to be replaced by
/// a detected one: a custom build system with no build, test or run command.
pub open spec fn is_template(m: ManifestView) -> bool {
    m.build_system == BuildSystem::Custom && m.build.len() == 0 && m.test.len() == 0 && m.entrypoint.len() == 0
}

/// Whether `repo sync` replaces `manifest` with a detected one (see `is_template`).
pub fn needs_autodetect(manifest: &AdapterManifest) -> (b: bool)
    ensures
        b == is_template(manifest@),
{
    manifest.build_system == BuildSystem::Custom && manifest.build.len() == 0 && manifest.test.len() == 0
        && manifest.entrypoint.len() == 0
}

/// What `inspect` reports, from the manifest and the recorded outcomes of the
/// last `build`, `test`, `conformance` and `run` actions: buildable when the
/// manifest says so or a build succeeded; `Tier1` when conformance and the
/// fullscreen run passed, `Experimental` otherwise.
pub fn inspect_repo(
    manifest: &AdapterManifest,
    build_passed: bool,
    test_passed: bool,
    conformance_passed: bool,
    run_passed: bool,
) -> (r: SupportReport)
    ensures
        r.buildable == ((manifest.build@.len() > 0 && manifest.entrypoint@.len() > 0) || build_passed),
        r.upstream_tests_pass == test_passed,
        r.conformance_pass == conformance_passed,
        r.fullscreen_run_pass == run_passed,
        r.tier == (if run_passed && conformance_passed { SupportTier::Tier1 } else { SupportTier::Experimental }),
{
    let mut report = inspect_manifest(manifest);
    report.upstream_tests_pass = test_passed;
    report.conformance_pass = conformance_passed;
    report.fullscreen_run_pass = run_passed;
    if build_passed {
        report.buildable = true;
    }
    report.tier = if report.fullscreen_run_pass && report.conformance_pass {
        SupportTier::Tier1
    } else {
        SupportTier::Experimental
    };
    report
}

/// Whether `args` holds `flag`.
pub fn has_flag(args: &Vec<String>, flag: &str) -> (b: bool)
    ensures
        b == args.deep_view().contains(flag@),
{
    crate::shim::has_item(args, flag)
}

/// Which parts of `test` run: the upstream tests unless only `--conformance`
/// is asked for, and conformance unless only `--upstream` is.
pub fn test_selection(args: &Vec<String>) -> (r: (bool, bool))
    ensures
        r.0 == (!args.deep_view().contains("--conformance"@) || args.deep_view().contains("--upstream"@)),
        r.1 == (!args.deep_view().contains("--upstream"@) || args.deep_view().contains("--conformance"@)),
        r.0 || r.1,
{
    let conformance = has_flag(args, "--conformance");
    let upstream = has_flag(args, "--upstream");
    (!conformance || upstream, !upstream || conformance)
}

/// The session mode `run` asks for: fullscreen with `--fullscreen`, else windowed debug.
pub fn run_mode(args: &Vec<String>) -> (r: HostSessionMode)
    ensures
        r == (if args.deep_view().contains("--fullscreen"@) { HostSessionMode::Fullscreen } else { HostSessionMode::WindowedDebug }),
{
    if has_flag(args, "--fullscreen") {
        HostSessionMode::Fullscreen
    } else {
        HostSessionMode::WindowedDebug
    }
}

/// The revision `repo add <url> --rev <rev>` asks for: the argument after a
/// `--rev` that directly follows the URL (`args` starts with `add`).
pub fn repo_add_rev(args: &Vec<String>) -> (r: Option<String>)
    ensures
        match r {
            Some(v) => args@.len() > 3 && args@[2]@ == "--rev"@ && v@ == args@[3]@,
            None => !(args@.len() > 3 && args@[2]@ == "--rev"@),
        },
{
    if args.len() > 2 && same_text(&chars_of(args[2].as_str()), &chars_of("--rev")) {
        if args.len() > 3 {
            return Some(args[3].clone());
        }
    }
    None
}

/// Where SwiftPM puts a built product of the workspace, in the order they are tried.
pub fn swiftpm_candidates(workspace_root: &str, name: &str) -> (r: Vec<String>)
    ensures
        r.deep_view() == seq![
            path_join(path_join(path_join(workspace_root@, ".build"@), "debug"@), name@),
            path_join(path_join(path_join(path_join(workspace_root@, ".build"@), "arm64-apple-macosx"@), "debug"@), name@),
        ],
{
    let build = join_path(workspace_root, ".build");
    let debug = join_path(build.as_str(), "debug");
    let first = join_path(debug.as_str(), name);
    let arch = join_path(build.as_str(), "arm64-apple-macosx");
    let arch_debug = join_path(arch.as_str(), "debug");
    let second = join_path(arch_debug.as_str(), name);
    let r = vec![first, second];
    assert(r.deep_view() =~= seq![first@, second@]);
    r
}


/// `0.` and anything after it starts with `0.`.
proof fn lemma_zero_prefix(t: Seq<char>)
    ensures
        ("0."@ + t).len() >= 2,
        ("0."@ + t).take(2) == "0."@,
{
    reveal_strlit("0.");
    assert(("0."@ + t).take(2) =~= "0."@);
}

/// A series that `detect_wlroots_series` finds starts with `0.`: it is a 0.x
/// series of wlroots.
pub proof fn law_series_starts_with_zero(contents: Seq<char>)
    ensures
        wlroots_series(contents) matches Some(v) ==> v.len() >= 2 && v.take(2) == "0."@,
{
    if let Some(i) = find_text(contents, "wlroots-0."@) {
        lemma_zero_prefix(version_run(contents.skip(i + "wlroots-0."@.len())));
    }
    if let Some(i) = find_text(contents, ">=0."@) {
        let run = version_run(contents.skip(i + ">=0."@.len()));
        lemma_zero_prefix(split_by(run, CharSet::One('.'))[0]);
    }
}

} // verus!
