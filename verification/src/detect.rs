//! Detecting a manifest from the files at the root of a source tree.
use vstd::prelude::*;
use crate::adapter::{AdapterManifest, BuildSystem, ManifestView};
use crate::env_map::EnvMap;
use crate::text::{
    CharSet, chars_of, contains_in, contains_text, find_span, line_spans,
    lines, lower, lowercase, same_text, span, span_is, split_by, string_from, string_of, text_of,
    to_strings, trim, trim_by, trim_span,
};

verus! {

/// What the root of a source tree holds, as far as detection looks.
#[derive(Debug, Clone, PartialEq, Eq)]
pub struct SourceLayout {
    /// Whether `Cargo.toml` exists.
    pub has_cargo_toml: bool,
    /// The text of `Cargo.toml`, when it could be read.
    pub cargo_toml: Option<String>,
    /// Whether `meson.build` exists.
    pub has_meson_build: bool,
    /// The text of `meson.build`, when it could be read.
    pub meson_build: Option<String>,
    /// Whether `CMakeLists.txt` exists.
    pub has_cmake_lists: bool,
    /// Whether `Makefile` exists.
    pub has_makefile: bool,
}

/// Whether `s` starts with `p`.
pub open spec fn starts_with(s: Seq<char>, p: Seq<char>) -> bool {
    p.len() <= s.len() && s.take(p.len() as int) == p
}

/// The package name a `Cargo.toml` gives, scanning its remaining lines `ls`
/// with `in_package` telling whether the scan is inside `[package]`: the first
/// line there that starts with `name` decides, by the value after its `=`.
pub open spec fn cargo_name_scan(ls: Seq<Seq<char>>, in_package: bool) -> Option<Seq<char>>
    decreases ls.len(),
{
    if ls.len() == 0 {
        None
    } else {
        let t = trim(ls[0]);
        if t.len() > 0 && t[0] == '[' && t.last() == ']' {
            cargo_name_scan(ls.drop_first(), t == "[package]"@)
        } else if in_package && starts_with(t, "name"@) {
            match find_span_spec(t) {
                Some(i) => Some(trim_by(trim(t.skip(i + 1)), CharSet::One('"'))),
                None => None,
            }
        } else {
            cargo_name_scan(ls.drop_first(), in_package)
        }
    }
}

/// The index of the first `=` of `t`.
pub open spec fn find_span_spec(t: Seq<char>) -> Option<int> {
    crate::text::find_by(t, CharSet::One('='))
}

/// The `name` of the `[package]` section of a `Cargo.toml` (see `cargo_name_scan`).
pub open spec fn cargo_package_name(contents: Seq<char>) -> Option<Seq<char>> {
    cargo_name_scan(lines(contents), false)
}

/// The first argument of the first `project(` call of a `meson.build`, with
/// its single and then double quotes removed.
pub open spec fn meson_name_scan(ls: Seq<Seq<char>>) -> Option<Seq<char>>
    decreases ls.len(),
{
    if ls.len() == 0 {
        None
    } else {
        let t = trim(ls[0]);
        if starts_with(t, "project("@) {
            let first_arg = trim(split_by(t.skip(8), CharSet::One(','))[0]);
            Some(trim_by(trim_by(first_arg, CharSet::One('\'')), CharSet::One('"')))
        } else {
            meson_name_scan(ls.drop_first())
        }
    }
}

pub open spec fn meson_project_name(contents: Seq<char>) -> Option<Seq<char>> {
    meson_name_scan(lines(contents))
}

/// The package name of a `Cargo.toml` (see `cargo_package_name`).
pub fn read_cargo_package_name(contents: &str) -> (r: Option<String>)
    ensures
        match r {
            Some(n) => cargo_package_name(contents@) == Some(n@),
            None => cargo_package_name(contents@) is None,
        },
{
    let text = chars_of(contents);
    let spans = line_spans(&text);
    let ghost ls = lines(text@);
    let package = chars_of("[package]");
    let name = chars_of("name");
    let mut in_package = false;
    let mut k: usize = 0;
    assert(ls.skip(0) =~= ls);
    while k < spans.len()
        invariant
            k <= spans@.len(),
            ls == lines(text@),
            text@ == contents@,
            package@ == "[package]"@,
            name@ == "name"@,
            spans@.map_values(|p: (usize, usize)| span(text@, p)) == ls,
            forall|j: int| 0 <= j < spans@.len() ==> (#[trigger] spans@[j]).0 <= spans@[j].1 <= text@.len(),
            cargo_package_name(contents@) == cargo_name_scan(ls.skip(k as int), in_package),
        decreases spans.len() - k,
    {
        let (lo, hi) = spans[k];
        assert(span(text@, spans@[k as int]) == ls[k as int]);
        assert(ls.skip(k as int)[0] == ls[k as int]);
        assert(ls.skip(k as int).drop_first() =~= ls.skip(k + 1));
        let (a, b) = trim_span(&text, lo, hi, CharSet::Space);
        let ghost t = text@.subrange(a as int, b as int);
        let is_name = crate::text::span_starts_with(&text, a, b, &name);
        if a < b && text[a] == '[' && text[b - 1] == ']' {
            in_package = span_is(&text, a, b, &package);
        } else if in_package && is_name {
            match find_span(&text, a, b, CharSet::One('=')) {
                Some(e) => {
                    assert(t.skip(e - a + 1) =~= text@.subrange(e + 1, b as int));
                    let (v0, v1) = trim_span(&text, e + 1, b, CharSet::Space);
                    let (q0, q1) = trim_span(&text, v0, v1, CharSet::One('"'));
                    return Some(string_of(&text, q0, q1));
                },
                None => {
                    return None;
                },
            }
        }
        k += 1;
    }
    None
}

/// The project name a `project(` line at `[a, b)` of `text` gives.
fn meson_line_name(text: &Vec<char>, a: usize, b: usize) -> (r: String)
    requires
        a + 8 <= b <= text@.len(),
    ensures
        r@ == trim_by(trim_by(trim(split_by(text@.subrange(a as int, b as int).skip(8), CharSet::One(','))[0]), CharSet::One('\'')), CharSet::One('"')),
{
    let ghost t = text@.subrange(a as int, b as int);
    assert(t.skip(8) =~= text@.subrange(a + 8, b as int));
    let pieces = crate::text::split_spans(text, a + 8, b, CharSet::One(','));
    proof {
        crate::text::lemma_split_nonempty(text@.subrange(a + 8, b as int), CharSet::One(','));
    }
    assert(pieces@.map_values(|p: (usize, usize)| span(text@, p))[0] == span(text@, pieces@[0]));
    let (p0, p1) = pieces[0];
    let (f0, f1) = trim_span(text, p0, p1, CharSet::Space);
    let (g0, g1) = trim_span(text, f0, f1, CharSet::One('\''));
    let (h0, h1) = trim_span(text, g0, g1, CharSet::One('"'));
    string_of(text, h0, h1)
}

/// The project name of a `meson.build` (see `meson_project_name`).
pub fn read_meson_project_name(contents: &str) -> (r: Option<String>)
    ensures
        match r {
            Some(n) => meson_project_name(contents@) == Some(n@),
            None => meson_project_name(contents@) is None,
        },
{
    let text = chars_of(contents);
    let spans = line_spans(&text);
    let ghost ls = lines(text@);
    let project = chars_of("project(");
    proof {
        reveal_strlit("project(");
    }
    let mut k: usize = 0;
    assert(ls.skip(0) =~= ls);
    while k < spans.len()
        invariant
            k <= spans@.len(),
            ls == lines(text@),
            text@ == contents@,
            project@ == "project("@,
            project@.len() == 8,
            spans@.map_values(|p: (usize, usize)| span(text@, p)) == ls,
            forall|j: int| 0 <= j < spans@.len() ==> (#[trigger] spans@[j]).0 <= spans@[j].1 <= text@.len(),
            meson_project_name(contents@) == meson_name_scan(ls.skip(k as int)),
        decreases spans.len() - k,
    {
        let (lo, hi) = spans[k];
        assert(span(text@, spans@[k as int]) == ls[k as int]);
        assert(ls.skip(k as int)[0] == ls[k as int]);
        assert(ls.skip(k as int).drop_first() =~= ls.skip(k + 1));
        let (a, b) = trim_span(&text, lo, hi, CharSet::Space);
        let ghost t = text@.subrange(a as int, b as int);
        if crate::text::span_starts_with(&text, a, b, &project) {
            return Some(meson_line_name(&text, a, b));
        }
        k += 1;
    }
    None
}

/// A manifest with the given commands and the defaults detection fills in:
/// no environment, the `metal-fast-path` feature, `xdg-shell`, `prefer-none`.
pub open spec fn detected_view(
    id: Seq<char>,
    repo: Seq<char>,
    rev: Seq<char>,
    b: BuildSystem,
    configure: Seq<Seq<char>>,
    build: Seq<Seq<char>>,
    test: Seq<Seq<char>>,
    entrypoint: Seq<Seq<char>>,
) -> ManifestView {
    ManifestView {
        id,
        repo,
        rev,
        build_system: b,
        configure,
        build,
        test,
        entrypoint,
        env: Map::empty(),
        sdk_features: seq!["metal-fast-path"@],
        protocol_expectations: seq!["xdg-shell"@],
        patch_policy: "prefer-none"@,
    }
}

/// The manifest of a Cargo project, before overrides: `cargo run --bin <package>`
/// when the package name is known, `cargo run` otherwise.
pub open spec fn cargo_view(id: Seq<char>, repo: Seq<char>, rev: Seq<char>, cargo_toml: Option<Seq<char>>) -> ManifestView {
    let entrypoint = match cargo_toml {
        Some(c) => match cargo_package_name(c) {
            Some(name) => seq!["cargo"@, "run"@, "--bin"@, name],
            None => seq!["cargo"@, "run"@],
        },
        None => seq!["cargo"@, "run"@],
    };
    detected_view(
        id,
        repo,
        rev,
        BuildSystem::Cargo,
        seq!["cargo"@, "fetch"@],
        seq!["cargo"@, "build"@],
        seq!["cargo"@, "test"@],
        entrypoint,
    )
}

/// The `-D` options Hyprland needs to build without XWayland, systemd and UWSM.
pub open spec fn hyprland_flags() -> Seq<Seq<char>> {
    seq!["-DNO_XWAYLAND=ON"@, "-DNO_SYSTEMD=ON"@, "-DNO_UWSM=ON"@]
}

/// The wlroots subproject options sway and labwc need on macOS.
pub open spec fn wlroots_flags() -> Seq<Seq<char>> {
    seq![
        "-Dwlroots:backends=x11"@,
        "-Dwlroots:session=disabled"@,
        "-Dwlroots:libliftoff=disabled"@,
        "-Dwlroots:xwayland=disabled"@,
        "-Dwlroots:color-management=disabled"@,
    ]
}

/// `conf` with each of `flags` appended that it does not hold yet.
pub open spec fn add_flags(conf: Seq<Seq<char>>, flags: Seq<Seq<char>>) -> Seq<Seq<char>>
    decreases flags.len(),
{
    if flags.len() == 0 {
        conf
    } else {
        let c = add_flags(conf, flags.drop_last());
        if c.contains(flags.last()) {
            c
        } else {
            c.push(flags.last())
        }
    }
}

/// A CMake build of Hyprland (by id, or by a repository that names it).
pub open spec fn is_hyprland(m: ManifestView) -> bool {
    m.build_system == BuildSystem::CMake && (lower(m.id) == "hyprland"@ || contains_text(
        lower(m.repo),
        "hyprland"@,
    ))
}

/// A Meson build of sway or labwc (by id, or by a repository path that names them).
pub open spec fn is_wlroots_meson(m: ManifestView) -> bool {
    m.build_system == BuildSystem::Meson && (lower(m.id) == "sway"@ || lower(m.id) == "labwc"@
        || contains_text(lower(m.repo), "/sway"@) || contains_text(lower(m.repo), "/labwc"@))
}

/// `m` with the configure options known compositors need.
pub open spec fn with_overrides(m: ManifestView) -> ManifestView {
    let c1 = if is_hyprland(m) {
        add_flags(m.configure, hyprland_flags())
    } else {
        m.configure
    };
    let c2 = if is_wlroots_meson(m) {
        add_flags(c1, wlroots_flags())
    } else {
        c1
    };
    ManifestView { configure: c2, ..m }
}

/// The manifest that detection gives for a source tree: Cargo, then Meson,
/// then CMake, then Make decide, in that order; nothing when none is there.
pub open spec fn detected_manifest(
    id: Seq<char>,
    repo: Seq<char>,
    rev: Seq<char>,
    has_cargo: bool,
    cargo_toml: Option<Seq<char>>,
    has_meson: bool,
    meson_build: Option<Seq<char>>,
    has_cmake: bool,
    has_make: bool,
) -> Option<ManifestView> {
    if has_cargo {
        Some(with_overrides(cargo_view(id, repo, rev, cargo_toml)))
    } else if has_meson {
        let entrypoint = match meson_build {
            Some(c) => match meson_project_name(c) {
                Some(name) => seq!["./build/"@ + name],
                None => seq![],
            },
            None => seq![],
        };
        Some(with_overrides(detected_view(id, repo, rev, BuildSystem::Meson,
            seq!["meson"@, "setup"@, "build"@, "--reconfigure"@],
            seq!["meson"@, "compile"@, "-C"@, "build"@],
            seq!["meson"@, "test"@, "-C"@, "build"@],
            entrypoint)))
    } else if has_cmake {
        Some(with_overrides(detected_view(id, repo, rev, BuildSystem::CMake,
            seq!["cmake"@, "-S"@, "."@, "-B"@, "build"@],
            seq!["cmake"@, "--build"@, "build"@],
            seq!["ctest"@, "--test-dir"@, "build"@],
            seq![])))
    } else if has_make {
        Some(with_overrides(detected_view(id, repo, rev, BuildSystem::Make,
            seq![],
            seq!["make"@],
            seq!["make"@, "test"@],
            seq![])))
    } else {
        None
    }
}

pub open spec fn opt_text(v: Option<String>) -> Option<Seq<char>> {
    match v {
        Some(s) => Some(s@),
        None => None,
    }
}

/// A manifest with the detection defaults (see `detected_view`).
fn detected(
    id: &str,
    repo: &str,
    rev: &str,
    build_system: BuildSystem,
    configure: Vec<&'static str>,
    build: Vec<&'static str>,
    test: Vec<&'static str>,
    entrypoint: Vec<String>,
) -> (r: AdapterManifest)
    ensures
        r@ == detected_view(
            id@,
            repo@,
            rev@,
            build_system,
            configure@.map_values(|s: &'static str| s@),
            build@.map_values(|s: &'static str| s@),
            test@.map_values(|s: &'static str| s@),
            entrypoint.deep_view(),
        ),
{
    let r = AdapterManifest {
        id: text_of(id),
        repo: text_of(repo),
        rev: text_of(rev),
        build_system,
        configure: to_strings(configure),
        build: to_strings(build),
        test: to_strings(test),
        entrypoint,
        env: EnvMap::new(),
        sdk_features: to_strings(vec!["metal-fast-path"]),
        protocol_expectations: to_strings(vec!["xdg-shell"]),
        patch_policy: text_of("prefer-none"),
    };
    assert(r.sdk_features.deep_view() =~= seq!["metal-fast-path"@]);
    assert(r.protocol_expectations.deep_view() =~= seq!["xdg-shell"@]);
    r
}

/// The manifest of a Cargo project (see `cargo_view`), before overrides.
pub fn cargo_manifest(id: &str, repo: &str, rev: &str, cargo_toml: Option<&str>) -> (r: AdapterManifest)
    ensures
        r@ == cargo_view(id@, repo@, rev@, match cargo_toml {
            Some(c) => Some(c@),
            None => None,
        }),
{
    let name = match cargo_toml {
        Some(c) => read_cargo_package_name(c),
        None => None,
    };
    let entrypoint = match name {
        Some(n) => {
            let v = vec![text_of("cargo"), text_of("run"), text_of("--bin"), n];
            assert(v.deep_view() =~= seq!["cargo"@, "run"@, "--bin"@, v@[3]@]);
            v
        },
        None => {
            let v = vec![text_of("cargo"), text_of("run")];
            assert(v.deep_view() =~= seq!["cargo"@, "run"@]);
            v
        },
    };
    let r = detected(id, repo, rev, BuildSystem::Cargo, vec!["cargo", "fetch"], vec!["cargo", "build"], vec!["cargo", "test"], entrypoint);
    assert(seq!["cargo", "fetch"].map_values(|s: &'static str| s@) =~= seq!["cargo"@, "fetch"@]);
    assert(seq!["cargo", "build"].map_values(|s: &'static str| s@) =~= seq!["cargo"@, "build"@]);
    assert(seq!["cargo", "test"].map_values(|s: &'static str| s@) =~= seq!["cargo"@, "test"@]);
    r
}

/// Appends to `conf` each of `flags` that it does not hold yet.
fn push_flags(conf: &mut Vec<String>, flags: Vec<&'static str>)
    ensures
        final(conf).deep_view() == add_flags(old(conf).deep_view(), flags@.map_values(|s: &'static str| s@)),
{
    let ghost fs = flags@.map_values(|s: &'static str| s@);
    let ghost start = conf.deep_view();
    let mut i: usize = 0;
    assert(fs.take(0) =~= Seq::<Seq<char>>::empty());
    while i < flags.len()
        invariant
            i <= flags@.len(),
            fs == flags@.map_values(|s: &'static str| s@),
            conf.deep_view() == add_flags(start, fs.take(i as int)),
        decreases flags.len() - i,
    {
        assert(fs.take(i + 1).drop_last() =~= fs.take(i as int));
        assert(fs[i as int] == flags@[i as int]@);
        if !crate::shim::has_item(conf, flags[i]) {
            let ghost before = conf.deep_view();
            conf.push(text_of(flags[i]));
            assert(conf.deep_view() =~= before.push(fs[i as int]));
        }
        i += 1;
    }
    assert(fs.take(flags@.len() as int) =~= fs);
}

/// `manifest` with the configure options known compositors need (see `with_overrides`).
pub fn apply_known_overrides(manifest: AdapterManifest) -> (r: AdapterManifest)
    ensures
        r@ == with_overrides(manifest@),
{
    let mut manifest = manifest;
    let ghost m0 = manifest@;
    let id_lower = lowercase(&chars_of(manifest.id.as_str()));
    let repo_lower = lowercase(&chars_of(manifest.repo.as_str()));
    if manifest.build_system == BuildSystem::CMake && (same_text(&id_lower, &chars_of("hyprland"))
        || contains_in(&repo_lower, &chars_of("hyprland"))) {
        let flags = vec!["-DNO_XWAYLAND=ON", "-DNO_SYSTEMD=ON", "-DNO_UWSM=ON"];
        assert(flags@.map_values(|s: &'static str| s@) =~= hyprland_flags());
        push_flags(&mut manifest.configure, flags);
    }
    let ghost c1 = manifest.configure.deep_view();
    if manifest.build_system == BuildSystem::Meson && (same_text(&id_lower, &chars_of("sway"))
        || same_text(&id_lower, &chars_of("labwc")) || contains_in(&repo_lower, &chars_of("/sway"))
        || contains_in(&repo_lower, &chars_of("/labwc"))) {
        let flags = vec![
            "-Dwlroots:backends=x11",
            "-Dwlroots:session=disabled",
            "-Dwlroots:libliftoff=disabled",
            "-Dwlroots:xwayland=disabled",
            "-Dwlroots:color-management=disabled",
        ];
        assert(flags@.map_values(|s: &'static str| s@) =~= wlroots_flags());
        push_flags(&mut manifest.configure, flags);
    }
    assert(manifest@ =~= with_overrides(m0));
    manifest
}

/// The manifest detected for the source tree `layout` describes (see `detected_manifest`).
pub fn autodetect_manifest(id: &str, repo: &str, rev: &str, layout: &SourceLayout) -> (r: Option<AdapterManifest>)
    ensures
        match r {
            Some(m) => detected_manifest(id@, repo@, rev@, layout.has_cargo_toml, opt_text(layout.cargo_toml),
                layout.has_meson_build, opt_text(layout.meson_build), layout.has_cmake_lists,
                layout.has_makefile) == Some(m@),
            None => detected_manifest(id@, repo@, rev@, layout.has_cargo_toml, opt_text(layout.cargo_toml),
                layout.has_meson_build, opt_text(layout.meson_build), layout.has_cmake_lists,
                layout.has_makefile) is None,
        },
{
    if layout.has_cargo_toml {
        let cargo = match &layout.cargo_toml {
            Some(c) => Some(c.as_str()),
            None => None,
        };
        return Some(apply_known_overrides(cargo_manifest(id, repo, rev, cargo)));
    }
    if layout.has_meson_build {
        let name = match &layout.meson_build {
            Some(c) => read_meson_project_name(c.as_str()),
            None => None,
        };
        let entrypoint = match name {
            Some(n) => {
                let mut e = chars_of("./build/");
                crate::text::append_chars(&mut e, &chars_of(n.as_str()));
                let v = vec![string_from(&e)];
                assert(v.deep_view() =~= seq!["./build/"@ + n@]);
                v
            },
            None => {
                let v: Vec<String> = Vec::new();
                assert(v.deep_view() =~= Seq::<Seq<char>>::empty());
                v
            },
        };
        let m = detected(id, repo, rev, BuildSystem::Meson,
            vec!["meson", "setup", "build", "--reconfigure"],
            vec!["meson", "compile", "-C", "build"],
            vec!["meson", "test", "-C", "build"],
            entrypoint);
        assert(seq!["meson", "setup", "build", "--reconfigure"].map_values(|s: &'static str| s@) =~= seq!["meson"@, "setup"@, "build"@, "--reconfigure"@]);
        assert(seq!["meson", "compile", "-C", "build"].map_values(|s: &'static str| s@) =~= seq!["meson"@, "compile"@, "-C"@, "build"@]);
        assert(seq!["meson", "test", "-C", "build"].map_values(|s: &'static str| s@) =~= seq!["meson"@, "test"@, "-C"@, "build"@]);
        return Some(apply_known_overrides(m));
    }
    if layout.has_cmake_lists {
        let none: Vec<String> = Vec::new();
        assert(none.deep_view() =~= Seq::<Seq<char>>::empty());
        let m = detected(id, repo, rev, BuildSystem::CMake,
            vec!["cmake", "-S", ".", "-B", "build"],
            vec!["cmake", "--build", "build"],
            vec!["ctest", "--test-dir", "build"],
            none);
        assert(seq!["cmake", "-S", ".", "-B", "build"].map_values(|s: &'static str| s@) =~= seq!["cmake"@, "-S"@, "."@, "-B"@, "build"@]);
        assert(seq!["cmake", "--build", "build"].map_values(|s: &'static str| s@) =~= seq!["cmake"@, "--build"@, "build"@]);
        assert(seq!["ctest", "--test-dir", "build"].map_values(|s: &'static str| s@) =~= seq!["ctest"@, "--test-dir"@, "build"@]);
        return Some(apply_known_overrides(m));
    }
    if layout.has_makefile {
        let none: Vec<String> = Vec::new();
        assert(none.deep_view() =~= Seq::<Seq<char>>::empty());
        let conf: Vec<&'static str> = Vec::new();
        assert(conf@.map_values(|s: &'static str| s@) =~= Seq::<Seq<char>>::empty());
        let m = detected(id, repo, rev, BuildSystem::Make, conf, vec!["make"], vec!["make", "test"], none);
        assert(seq!["make"].map_values(|s: &'static str| s@) =~= seq!["make"@]);
        assert(seq!["make", "test"].map_values(|s: &'static str| s@) =~= seq!["make"@, "test"@]);
        assert(m@.configure =~= Seq::<Seq<char>>::empty());
        assert(m@.entrypoint =~= Seq::<Seq<char>>::empty());
        assert(m@.build =~= seq!["make"@]);
        assert(m@.test =~= seq!["make"@, "test"@]);
        let r = apply_known_overrides(m);
        assert(detected_manifest(id@, repo@, rev@, layout.has_cargo_toml, opt_text(layout.cargo_toml),
                layout.has_meson_build, opt_text(layout.meson_build), layout.has_cmake_lists,
                layout.has_makefile) == Some(r@));
        return Some(r);
    }
    None
}


/// `add_flags` keeps what `conf` holds and adds every flag.
proof fn lemma_add_flags_holds(conf: Seq<Seq<char>>, flags: Seq<Seq<char>>)
    ensures
        forall|x: Seq<char>| conf.contains(x) ==> #[trigger] add_flags(conf, flags).contains(x),
        forall|x: Seq<char>| flags.contains(x) ==> #[trigger] add_flags(conf, flags).contains(x),
        add_flags(conf, flags).len() >= conf.len(),
        add_flags(conf, flags).take(conf.len() as int) == conf,
    decreases flags.len(),
{
    if flags.len() > 0 {
        let c = add_flags(conf, flags.drop_last());
        lemma_add_flags_holds(conf, flags.drop_last());
        assert forall|x: Seq<char>| flags.contains(x) implies #[trigger] add_flags(conf, flags).contains(x) by {
            let i = choose|i: int| 0 <= i < flags.len() && flags[i] == x;
            if i < flags.len() - 1 {
                assert(flags.drop_last()[i] == x);
                assert(flags.drop_last().contains(x));
                assert(c.contains(x));
                if !c.contains(flags.last()) {
                    let j = choose|j: int| 0 <= j < c.len() && c[j] == x;
                    assert(c.push(flags.last())[j] == x);
                }
            } else {
                assert(x == flags.last());
                if !c.contains(flags.last()) {
                    assert(c.push(flags.last())[c.len() as int] == flags.last());
                }
            }
        }
        assert forall|x: Seq<char>| conf.contains(x) implies #[trigger] add_flags(conf, flags).contains(x) by {
            assert(c.contains(x));
            if !c.contains(flags.last()) {
                let j = choose|j: int| 0 <= j < c.len() && c[j] == x;
                assert(c.push(flags.last())[j] == x);
            }
        }
        if !c.contains(flags.last()) {
            assert(c.push(flags.last()).take(conf.len() as int) =~= c.take(conf.len() as int));
        }
    } else {
        assert(conf.take(conf.len() as int) =~= conf);
    }
}

/// Flags that `conf` holds already are not added again.
proof fn lemma_add_flags_present(conf: Seq<Seq<char>>, flags: Seq<Seq<char>>)
    requires
        forall|x: Seq<char>| flags.contains(x) ==> conf.contains(x),
    ensures
        add_flags(conf, flags) == conf,
    decreases flags.len(),
{
    if flags.len() > 0 {
        assert forall|x: Seq<char>| flags.drop_last().contains(x) implies conf.contains(x) by {
            let i = choose|i: int| 0 <= i < flags.drop_last().len() && flags.drop_last()[i] == x;
            assert(flags[i] == x);
        }
        lemma_add_flags_present(conf, flags.drop_last());
        assert(flags[flags.len() - 1] == flags.last());
    }
}

/// Applying the overrides of known compositors a second time changes nothing:
/// every flag they add is there already, and no flag is added twice.
pub proof fn law_overrides_idempotent(m: ManifestView)
    ensures
        with_overrides(with_overrides(m)) == with_overrides(m),
{
    let w = with_overrides(m);
    let c1 = if is_hyprland(m) { add_flags(m.configure, hyprland_flags()) } else { m.configure };
    if is_hyprland(m) {
        lemma_add_flags_holds(m.configure, hyprland_flags());
    }
    if is_wlroots_meson(m) {
        lemma_add_flags_holds(c1, wlroots_flags());
    }
    assert(is_hyprland(w) == is_hyprland(m));
    assert(is_wlroots_meson(w) == is_wlroots_meson(m));
    if is_hyprland(w) {
        lemma_add_flags_present(w.configure, hyprland_flags());
    }
    if is_wlroots_meson(w) {
        lemma_add_flags_present(w.configure, wlroots_flags());
    }
}

/// The overrides only add configure options: the manifest's own options come
/// first and unchanged, and nothing but the options changes.
pub proof fn law_overrides_only_append(m: ManifestView)
    ensures
        with_overrides(m).configure.len() >= m.configure.len(),
        with_overrides(m).configure.take(m.configure.len() as int) == m.configure,
        with_overrides(m) == (ManifestView { configure: with_overrides(m).configure, ..m }),
{
    let c1 = if is_hyprland(m) { add_flags(m.configure, hyprland_flags()) } else { m.configure };
    if is_hyprland(m) {
        lemma_add_flags_holds(m.configure, hyprland_flags());
    } else {
        assert(m.configure.take(m.configure.len() as int) =~= m.configure);
    }
    if is_wlroots_meson(m) {
        lemma_add_flags_holds(c1, wlroots_flags());
        assert(with_overrides(m).configure.take(m.configure.len() as int) =~= c1.take(
            m.configure.len() as int,
        ));
    }
}


/// `add_flags` keeps a list free of repeats.
proof fn lemma_add_flags_no_duplicates(conf: Seq<Seq<char>>, flags: Seq<Seq<char>>)
    requires
        conf.no_duplicates(),
    ensures
        add_flags(conf, flags).no_duplicates(),
    decreases flags.len(),
{
    if flags.len() > 0 {
        let c = add_flags(conf, flags.drop_last());
        lemma_add_flags_no_duplicates(conf, flags.drop_last());
        if !c.contains(flags.last()) {
            let l = c.push(flags.last());
            assert forall|i: int, j: int| 0 <= i < l.len() && 0 <= j < l.len() && i != j implies l[i] != l[j] by {
                if i < c.len() && j < c.len() {
                } else if i < c.len() {
                    assert(c[i] == l[i]);
                } else {
                    assert(c[j] == l[j]);
                }
            }
        }
    }
}

/// The overrides keep a configure list free of repeats.
proof fn lemma_overrides_no_duplicates(m: ManifestView)
    requires
        m.configure.no_duplicates(),
    ensures
        with_overrides(m).configure.no_duplicates(),
{
    let c1 = if is_hyprland(m) { add_flags(m.configure, hyprland_flags()) } else { m.configure };
    if is_hyprland(m) {
        lemma_add_flags_no_duplicates(m.configure, hyprland_flags());
    }
    if is_wlroots_meson(m) {
        lemma_add_flags_no_duplicates(c1, wlroots_flags());
    }
}

/// The configure commands that detection starts from hold no word twice.
proof fn lemma_base_configures()
    ensures
        seq!["cargo"@, "fetch"@].no_duplicates(),
        seq!["meson"@, "setup"@, "build"@, "--reconfigure"@].no_duplicates(),
        seq!["cmake"@, "-S"@, "."@, "-B"@, "build"@].no_duplicates(),
        Seq::<Seq<char>>::empty().no_duplicates(),
{
    reveal_strlit("cargo");
    reveal_strlit("fetch");
    reveal_strlit("meson");
    reveal_strlit("setup");
    reveal_strlit("build");
    reveal_strlit("--reconfigure");
    reveal_strlit("cmake");
    reveal_strlit("-S");
    reveal_strlit(".");
    reveal_strlit("-B");
    let a = seq!["cargo"@, "fetch"@];
    assert(a[0][0] != a[1][0]);
    let b = seq!["meson"@, "setup"@, "build"@, "--reconfigure"@];
    assert(b[0][0] != b[1][0] && b[0][0] != b[2][0] && b[1][0] != b[2][0]);
    assert(b[3].len() != b[0].len() && b[3].len() != b[1].len() && b[3].len() != b[2].len());
    assert forall|i: int, j: int| 0 <= i < b.len() && 0 <= j < b.len() && i != j implies b[i] != b[j] by {
        if b[i] == b[j] {
            assert(b[i][0] == b[j][0] && b[i].len() == b[j].len());
        }
    }
    let c = seq!["cmake"@, "-S"@, "."@, "-B"@, "build"@];
    assert(c[0][0] != c[4][0] && c[1][1] != c[3][1]);
    assert(c[0].len() == 5 && c[1].len() == 2 && c[2].len() == 1 && c[3].len() == 2 && c[4].len() == 5);
    assert forall|i: int, j: int| 0 <= i < c.len() && 0 <= j < c.len() && i != j implies c[i] != c[j] by {
        if c[i] == c[j] {
            assert(c[i].len() == c[j].len());
            assert(c[i][0] == c[j][0]);
            if c[i].len() == 2 {
                assert(c[i][1] == c[j][1]);
            }
        }
    }
}

/// What detection gives, whatever the source tree: a manifest exactly when
/// one of `Cargo.toml`, `meson.build`, `CMakeLists.txt` or `Makefile` is
/// there; it names the repository by the id, URL and revision given, has no
/// variables, the `metal-fast-path` feature, the `xdg-shell` expectation, the
/// `prefer-none` policy, and no configure word twice. A Cargo project whose
/// `[package]` names no package runs `cargo run`; a Meson project with no
/// `project(` line has no entrypoint.
pub proof fn law_detected_manifest(
    id: Seq<char>,
    repo: Seq<char>,
    rev: Seq<char>,
    has_cargo: bool,
    cargo_toml: Option<Seq<char>>,
    has_meson: bool,
    meson_build: Option<Seq<char>>,
    has_cmake: bool,
    has_make: bool,
)
    ensures
        detected_manifest(id, repo, rev, has_cargo, cargo_toml, has_meson, meson_build, has_cmake, has_make) is None
            <==> !has_cargo && !has_meson && !has_cmake && !has_make,
        detected_manifest(id, repo, rev, has_cargo, cargo_toml, has_meson, meson_build, has_cmake, has_make) is Some ==> ({
            let m = detected_manifest(id, repo, rev, has_cargo, cargo_toml, has_meson, meson_build, has_cmake, has_make)->0;
            &&& m.id == id
            &&& m.repo == repo
            &&& m.rev == rev
            &&& m.env == Map::<Seq<char>, Seq<char>>::empty()
            &&& m.sdk_features == seq!["metal-fast-path"@]
            &&& m.protocol_expectations == seq!["xdg-shell"@]
            &&& m.patch_policy == "prefer-none"@
            &&& m.configure.no_duplicates()
        }),
        has_cargo && (cargo_toml is None || cargo_package_name(cargo_toml->0) is None) ==> ({
            let m = detected_manifest(id, repo, rev, has_cargo, cargo_toml, has_meson, meson_build, has_cmake, has_make)->0;
            &&& m.build_system == BuildSystem::Cargo
            &&& m.entrypoint == seq!["cargo"@, "run"@]
        }),
        !has_cargo && has_meson && (meson_build is None || meson_project_name(meson_build->0) is None) ==> ({
            let m = detected_manifest(id, repo, rev, has_cargo, cargo_toml, has_meson, meson_build, has_cmake, has_make)->0;
            &&& m.build_system == BuildSystem::Meson
            &&& m.entrypoint == Seq::<Seq<char>>::empty()
        }),
{
    lemma_base_configures();
    if has_cargo {
        lemma_overrides_no_duplicates(cargo_view(id, repo, rev, cargo_toml));
    } else if has_meson {
        let entrypoint = match meson_build {
            Some(c) => match meson_project_name(c) {
                Some(name) => seq!["./build/"@ + name],
                None => seq![],
            },
            None => seq![],
        };
        lemma_overrides_no_duplicates(detected_view(id, repo, rev, BuildSystem::Meson,
            seq!["meson"@, "setup"@, "build"@, "--reconfigure"@],
            seq!["meson"@, "compile"@, "-C"@, "build"@],
            seq!["meson"@, "test"@, "-C"@, "build"@],
            entrypoint));
    } else if has_cmake {
        lemma_overrides_no_duplicates(detected_view(id, repo, rev, BuildSystem::CMake,
            seq!["cmake"@, "-S"@, "."@, "-B"@, "build"@],
            seq!["cmake"@, "--build"@, "build"@],
            seq!["ctest"@, "--test-dir"@, "build"@],
            seq![]));
    } else if has_make {
        lemma_overrides_no_duplicates(detected_view(id, repo, rev, BuildSystem::Make,
            seq![],
            seq!["make"@],
            seq!["make"@, "test"@],
            seq![]));
    }
}


/// What detection runs for each build system. A Cargo project is fetched,
/// built, tested and run with `cargo`. A Meson project is set up in `build`,
/// and compiled and tested in that same directory; it runs the program named
/// after the project there. A CMake project is configured with `-S . -B
/// build`, and built and tested in the directory that `-B` names. A Make
/// project is built by `make` and tested by `make test`. Cargo wins over
/// Meson, Meson over CMake, CMake over Make; overrides only ever append
/// configure options to these.
pub proof fn law_detected_commands(
    id: Seq<char>,
    repo: Seq<char>,
    rev: Seq<char>,
    has_cargo: bool,
    cargo_toml: Option<Seq<char>>,
    has_meson: bool,
    meson_build: Option<Seq<char>>,
    has_cmake: bool,
    has_make: bool,
)
    ensures
        has_cargo ==> ({
            let m = detected_manifest(id, repo, rev, has_cargo, cargo_toml, has_meson, meson_build, has_cmake, has_make)->0;
            &&& m.build_system == BuildSystem::Cargo
            &&& m.configure.len() >= 2 && m.configure.take(2) == seq!["cargo"@, "fetch"@]
            &&& m.build == seq!["cargo"@, "build"@]
            &&& m.test == seq!["cargo"@, "test"@]
            &&& m.entrypoint.len() >= 2 && m.entrypoint.take(2) == seq!["cargo"@, "run"@]
        }),
        !has_cargo && has_meson ==> ({
            let m = detected_manifest(id, repo, rev, has_cargo, cargo_toml, has_meson, meson_build, has_cmake, has_make)->0;
            &&& m.build_system == BuildSystem::Meson
            &&& m.configure.len() >= 4 && m.configure.take(4) == seq!["meson"@, "setup"@, "build"@, "--reconfigure"@]
            &&& m.build == seq!["meson"@, "compile"@, "-C"@, m.configure[2]]
            &&& m.test == seq!["meson"@, "test"@, "-C"@, m.configure[2]]
            &&& match meson_build {
                Some(c) => match meson_project_name(c) {
                    Some(name) => m.entrypoint == seq!["./"@ + m.configure[2] + "/"@ + name],
                    None => m.entrypoint == Seq::<Seq<char>>::empty(),
                },
                None => m.entrypoint == Seq::<Seq<char>>::empty(),
            }
        }),
        !has_cargo && !has_meson && has_cmake ==> ({
            let m = detected_manifest(id, repo, rev, has_cargo, cargo_toml, has_meson, meson_build, has_cmake, has_make)->0;
            &&& m.build_system == BuildSystem::CMake
            &&& m.configure.len() >= 5 && m.configure.take(5) == seq!["cmake"@, "-S"@, "."@, "-B"@, "build"@]
            &&& m.build == seq!["cmake"@, "--build"@, m.configure[4]]
            &&& m.test == seq!["ctest"@, "--test-dir"@, m.configure[4]]
            &&& m.entrypoint == Seq::<Seq<char>>::empty()
        }),
        !has_cargo && !has_meson && !has_cmake && has_make ==> ({
            let m = detected_manifest(id, repo, rev, has_cargo, cargo_toml, has_meson, meson_build, has_cmake, has_make)->0;
            &&& m.build_system == BuildSystem::Make
            &&& m.configure == Seq::<Seq<char>>::empty()
            &&& m.build == seq!["make"@]
            &&& m.test == seq!["make"@, "test"@]
            &&& m.entrypoint == Seq::<Seq<char>>::empty()
        }),
{
    reveal_strlit("./build/");
    reveal_strlit("./");
    reveal_strlit("/");
    reveal_strlit("build");
    if has_cargo {
        let v = cargo_view(id, repo, rev, cargo_toml);
        law_overrides_only_append(v);
        assert(seq!["cargo"@, "fetch"@].take(2) =~= seq!["cargo"@, "fetch"@]);
        let w = with_overrides(v);
        assert(w.configure.take(2) =~= v.configure.take(2));
        assert(v.entrypoint.take(2) =~= seq!["cargo"@, "run"@]);
    } else if has_meson {
        let entrypoint = match meson_build {
            Some(c) => match meson_project_name(c) {
                Some(name) => seq!["./build/"@ + name],
                None => seq![],
            },
            None => seq![],
        };
        let v = detected_view(id, repo, rev, BuildSystem::Meson,
            seq!["meson"@, "setup"@, "build"@, "--reconfigure"@],
            seq!["meson"@, "compile"@, "-C"@, "build"@],
            seq!["meson"@, "test"@, "-C"@, "build"@],
            entrypoint);
        law_overrides_only_append(v);
        let w = with_overrides(v);
        assert(v.configure.take(4) =~= v.configure);
        assert(w.configure[2] == v.configure.take(4)[2]);
        assert("./"@ + "build"@ + "/"@ =~= "./build/"@);
        assert(w.configure[2] == "build"@);
        assert(w.configure.take(4) == seq!["meson"@, "setup"@, "build"@, "--reconfigure"@]);
        assert(w.build == seq!["meson"@, "compile"@, "-C"@, w.configure[2]]);
        assert(w.test == seq!["meson"@, "test"@, "-C"@, w.configure[2]]);
        if let Some(c) = meson_build {
            if let Some(name) = meson_project_name(c) {
                assert("./"@ + w.configure[2] + "/"@ + name =~= "./build/"@ + name);
                assert(w.entrypoint == v.entrypoint);
                assert(w.entrypoint =~= seq!["./"@ + w.configure[2] + "/"@ + name]);
            }
        }
    } else if has_cmake {
        let v = detected_view(id, repo, rev, BuildSystem::CMake,
            seq!["cmake"@, "-S"@, "."@, "-B"@, "build"@],
            seq!["cmake"@, "--build"@, "build"@],
            seq!["ctest"@, "--test-dir"@, "build"@],
            seq![]);
        law_overrides_only_append(v);
        let w = with_overrides(v);
        assert(v.configure.take(5) =~= v.configure);
        assert(w.configure[4] == v.configure.take(5)[4]);
    } else if has_make {
        let v = detected_view(id, repo, rev, BuildSystem::Make,
            seq![],
            seq!["make"@],
            seq!["make"@, "test"@],
            seq![]);
        law_overrides_only_append(v);
        assert(!is_hyprland(v) && !is_wlroots_meson(v));
    }
}

} // verus!
