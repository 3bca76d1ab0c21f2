//! Command plans and the environment that build, test and run commands get.
use vstd::prelude::*;
use crate::adapter::{AdapterManifest, BuildSystem};
use crate::env_map::EnvMap;
use crate::report::{ActionRecord, SupportReport, SupportTier};
use crate::text::{
    CharSet, append_chars, append_str, chars_of, join, join_chars, same_text, split_by,
    split_spans, split_whitespace_of, split_ws, span, string_from, text_of, views,
};

verus! {

/// The commands a manifest declares.
#[derive(Debug, Clone, PartialEq, Eq)]
pub struct CommandPlan {
    pub configure: Vec<String>,
    pub build: Vec<String>,
    pub test: Vec<String>,
    pub run: Vec<String>,
}

/// The usual upstream test command of each build system.
pub open spec fn test_hint(b: BuildSystem) -> Seq<char> {
    match b {
        BuildSystem::Meson => "meson test"@,
        BuildSystem::CMake => "ctest"@,
        BuildSystem::Cargo => "cargo test"@,
        BuildSystem::Autotools | BuildSystem::Make => "make test"@,
        BuildSystem::Custom => "adapter-defined"@,
    }
}

impl CommandPlan {
    /// The configure, build, test and run commands of `manifest`.
    pub fn for_manifest(manifest: &AdapterManifest) -> (r: Self)
        ensures
            r.configure.deep_view() == manifest.configure.deep_view(),
            r.build.deep_view() == manifest.build.deep_view(),
            r.test.deep_view() == manifest.test.deep_view(),
            r.run.deep_view() == manifest.entrypoint.deep_view(),
    {
        CommandPlan {
            configure: manifest.configure.clone(),
            build: manifest.build.clone(),
            test: manifest.test.clone(),
            run: manifest.entrypoint.clone(),
        }
    }

    /// The upstream test command a build system usually has.
    pub fn upstream_test_hint(build_system: BuildSystem) -> (r: &'static str)
        ensures
            r@ == test_hint(build_system),
    {
        match build_system {
            BuildSystem::Meson => "meson test",
            BuildSystem::CMake => "ctest",
            BuildSystem::Cargo => "cargo test",
            BuildSystem::Autotools | BuildSystem::Make => "make test",
            BuildSystem::Custom => "adapter-defined",
        }
    }
}

/// What a manifest alone says of a repository: it is buildable, and then
/// `Tier1`, when it declares a build command and an entrypoint.
pub fn inspect_manifest(manifest: &AdapterManifest) -> (r: SupportReport)
    ensures
        r.buildable == (manifest.build@.len() > 0 && manifest.entrypoint@.len() > 0),
        !r.upstream_tests_pass,
        !r.conformance_pass,
        !r.fullscreen_run_pass,
        r.tier == (if r.buildable { SupportTier::Tier1 } else { SupportTier::Experimental }),
{
    let buildable = manifest.build.len() > 0 && manifest.entrypoint.len() > 0;
    let tier = if buildable {
        SupportTier::Tier1
    } else {
        SupportTier::Experimental
    };
    SupportReport {
        buildable,
        upstream_tests_pass: false,
        conformance_pass: false,
        fullscreen_run_pass: false,
        tier,
    }
}

/// What the environment of the process and the disk say, as far as the
/// command environment depends on them.
#[derive(Debug, Clone)]
pub struct EnvProbe {
    /// The variables of the process environment that the command environment extends.
    pub inherited: EnvMap,
    /// The workspace root: the nearest directory at or above the current one
    /// that holds both `Cargo.toml` and `Package.swift`.
    pub workspace_root: Option<String>,
    /// The paths among `probed_paths(workspace_root)` that exist.
    pub existing: Vec<String>,
}

/// `Path::is_absolute` on Unix.
pub open spec fn is_absolute(p: Seq<char>) -> bool {
    p.len() > 0 && p[0] == '/'
}

/// `Path::join` on Unix: an absolute `p` replaces `base`; otherwise `p` is
/// appended after a `/`, unless `base` is empty or already ends with one.
pub open spec fn path_join(base: Seq<char>, p: Seq<char>) -> Seq<char> {
    if is_absolute(p) {
        p
    } else if base.len() == 0 || base.last() == '/' {
        base + p
    } else {
        base + seq!['/'] + p
    }
}

/// `base.join(p)`, as a string.
pub fn join_path(base: &str, p: &str) -> (r: String)
    ensures
        r@ == path_join(base@, p@),
{
    let b = chars_of(base);
    let q = chars_of(p);
    if q.len() > 0 && q[0] == '/' {
        return string_from(&q);
    }
    let mut out = b.clone();
    assert(out@ == b@);
    if !(b.len() == 0 || b[b.len() - 1] == '/') {
        out.push('/');
    }
    append_chars(&mut out, &q);
    string_from(&out)
}

/// Where a candidate path lies: itself when absolute, else under the workspace root.
pub open spec fn candidate_location(root: Option<Seq<char>>, c: Seq<char>) -> Option<Seq<char>> {
    if is_absolute(c) {
        Some(c)
    } else {
        match root {
            Some(r) => Some(path_join(r, c)),
            None => None,
        }
    }
}

/// A candidate path, resolved when it exists.
pub open spec fn resolve_path(root: Option<Seq<char>>, existing: Set<Seq<char>>, c: Seq<char>) -> Option<Seq<char>> {
    match candidate_location(root, c) {
        Some(p) => if existing.contains(p) { Some(p) } else { None },
        None => None,
    }
}

/// A candidate flag: an `-I` or `-L` flag gets its path resolved; any other stands as it is.
pub open spec fn resolve_flag(root: Option<Seq<char>>, existing: Set<Seq<char>>, c: Seq<char>) -> Option<Seq<char>> {
    if c.len() >= 2 && c[0] == '-' && (c[1] == 'I' || c[1] == 'L') {
        match resolve_path(root, existing, c.skip(2)) {
            Some(p) => Some(c.take(2) + p),
            None => None,
        }
    } else {
        Some(c)
    }
}

/// `list` with `x` added at the end unless it is there already.
pub open spec fn push_new(list: Seq<Seq<char>>, x: Seq<char>) -> Seq<Seq<char>> {
    if list.contains(x) {
        list
    } else {
        list.push(x)
    }
}

/// The resolved candidates, each once, in the order of their first appearance.
pub open spec fn resolved_all(
    root: Option<Seq<char>>,
    existing: Set<Seq<char>>,
    cands: Seq<Seq<char>>,
    flags: bool,
) -> Seq<Seq<char>>
    decreases cands.len(),
{
    if cands.len() == 0 {
        seq![]
    } else {
        let before = resolved_all(root, existing, cands.drop_last(), flags);
        let r = if flags {
            resolve_flag(root, existing, cands.last())
        } else {
            resolve_path(root, existing, cands.last())
        };
        match r {
            Some(p) => push_new(before, p),
            None => before,
        }
    }
}

pub open spec fn opt_pieces(v: Option<Seq<char>>, flags: bool) -> Seq<Seq<char>> {
    match v {
        Some(s) => if flags { split_ws(s) } else { split_by(s, CharSet::One(':')) },
        None => seq![],
    }
}

/// A search list: the resolved candidates, then the inherited entries, then
/// the manifest's own; paths joined by `:`, flags by a space; nothing when empty.
pub open spec fn merged_list(
    root: Option<Seq<char>>,
    existing: Set<Seq<char>>,
    inherited: Option<Seq<char>>,
    over: Option<Seq<char>>,
    cands: Seq<Seq<char>>,
    flags: bool,
) -> Option<Seq<char>> {
    let all = resolved_all(root, existing, cands, flags) + opt_pieces(inherited, flags) + opt_pieces(
        over,
        flags,
    );
    if all.len() == 0 {
        None
    } else {
        Some(join(all, if flags { " "@ } else { ":"@ }))
    }
}

pub open spec fn pkg_config_candidates() -> Seq<Seq<char>> {
    seq![
        ".macland/sysroot/lib/pkgconfig"@,
        ".macland/sysroot/share/pkgconfig"@,
        "/opt/homebrew/lib/pkgconfig"@,
        "/opt/homebrew/share/pkgconfig"@,
        "/opt/homebrew/opt/epoll-shim/lib/pkgconfig"@,
        "/opt/homebrew/opt/jpeg/lib/pkgconfig"@,
        "/opt/homebrew/opt/libxkbcommon/lib/pkgconfig"@,
        "/opt/homebrew/opt/mesa/lib/pkgconfig"@,
        "/usr/local/lib/pkgconfig"@,
        "/usr/local/share/pkgconfig"@,
    ]
}

pub open spec fn prefix_candidates() -> Seq<Seq<char>> {
    seq![
        ".macland/sysroot"@,
        "/opt/homebrew"@,
        "/opt/homebrew/opt/libxkbcommon"@,
        "/opt/homebrew/opt/mesa"@,
        "/usr/local"@,
        "/usr/local/opt/libxkbcommon"@,
        "/usr/local/opt/mesa"@,
    ]
}

pub open spec fn include_candidates() -> Seq<Seq<char>> {
    seq![
        ".macland/sysroot/include/libepoll-shim"@,
        ".macland/sysroot/include"@,
        "/opt/homebrew/include"@,
        "/opt/homebrew/opt/epoll-shim/include"@,
        "/opt/homebrew/opt/jpeg/include"@,
        "/opt/homebrew/opt/libxkbcommon/include"@,
        "/opt/homebrew/opt/mesa/include"@,
        "/usr/local/include"@,
        "/usr/local/opt/libxkbcommon/include"@,
        "/usr/local/opt/mesa/include"@,
    ]
}

pub open spec fn library_candidates() -> Seq<Seq<char>> {
    seq![
        ".macland/sysroot/lib"@,
        "/opt/homebrew/lib"@,
        "/opt/homebrew/opt/epoll-shim/lib"@,
        "/opt/homebrew/opt/jpeg/lib"@,
        "/opt/homebrew/opt/libxkbcommon/lib"@,
        "/opt/homebrew/opt/mesa/lib"@,
        "/usr/local/lib"@,
        "/usr/local/opt/libxkbcommon/lib"@,
        "/usr/local/opt/mesa/lib"@,
    ]
}

pub open spec fn compile_flag_candidates() -> Seq<Seq<char>> {
    seq![
        "-I.macland/sysroot/include/libepoll-shim"@,
        "-I.macland/sysroot/include"@,
        "-I/opt/homebrew/include"@,
        "-I/opt/homebrew/opt/epoll-shim/include"@,
        "-I/opt/homebrew/opt/jpeg/include"@,
        "-I/opt/homebrew/opt/libxkbcommon/include"@,
        "-I/opt/homebrew/opt/mesa/include"@,
        "-I/usr/local/include"@,
    ]
}

pub open spec fn linker_flag_candidates() -> Seq<Seq<char>> {
    seq![
        "-lrt"@,
        "-L.macland/sysroot/lib"@,
        "-L/opt/homebrew/lib"@,
        "-L/opt/homebrew/opt/epoll-shim/lib"@,
        "-L/opt/homebrew/opt/jpeg/lib"@,
        "-L/opt/homebrew/opt/libxkbcommon/lib"@,
        "-L/opt/homebrew/opt/mesa/lib"@,
        "-L/usr/local/lib"@,
    ]
}

pub open spec fn path_candidates() -> Seq<Seq<char>> {
    seq![".macland/sysroot/bin"@, "/opt/homebrew/bin"@, "/usr/local/bin"@]
}

fn pkg_config_list() -> (r: Vec<&'static str>)
    ensures
        r@.map_values(|s: &str| s@) == pkg_config_candidates(),
{
    let r = vec![
        ".macland/sysroot/lib/pkgconfig",
        ".macland/sysroot/share/pkgconfig",
        "/opt/homebrew/lib/pkgconfig",
        "/opt/homebrew/share/pkgconfig",
        "/opt/homebrew/opt/epoll-shim/lib/pkgconfig",
        "/opt/homebrew/opt/jpeg/lib/pkgconfig",
        "/opt/homebrew/opt/libxkbcommon/lib/pkgconfig",
        "/opt/homebrew/opt/mesa/lib/pkgconfig",
        "/usr/local/lib/pkgconfig",
        "/usr/local/share/pkgconfig",
    ];
    assert(r@.map_values(|s: &str| s@) =~= pkg_config_candidates());
    r
}

fn prefix_list() -> (r: Vec<&'static str>)
    ensures
        r@.map_values(|s: &str| s@) == prefix_candidates(),
{
    let r = vec![
        ".macland/sysroot",
        "/opt/homebrew",
        "/opt/homebrew/opt/libxkbcommon",
        "/opt/homebrew/opt/mesa",
        "/usr/local",
        "/usr/local/opt/libxkbcommon",
        "/usr/local/opt/mesa",
    ];
    assert(r@.map_values(|s: &str| s@) =~= prefix_candidates());
    r
}

fn include_list() -> (r: Vec<&'static str>)
    ensures
        r@.map_values(|s: &str| s@) == include_candidates(),
{
    let r = vec![
        ".macland/sysroot/include/libepoll-shim",
        ".macland/sysroot/include",
        "/opt/homebrew/include",
        "/opt/homebrew/opt/epoll-shim/include",
        "/opt/homebrew/opt/jpeg/include",
        "/opt/homebrew/opt/libxkbcommon/include",
        "/opt/homebrew/opt/mesa/include",
        "/usr/local/include",
        "/usr/local/opt/libxkbcommon/include",
        "/usr/local/opt/mesa/include",
    ];
    assert(r@.map_values(|s: &str| s@) =~= include_candidates());
    r
}

fn library_list() -> (r: Vec<&'static str>)
    ensures
        r@.map_values(|s: &str| s@) == library_candidates(),
{
    let r = vec![
        ".macland/sysroot/lib",
        "/opt/homebrew/lib",
        "/opt/homebrew/opt/epoll-shim/lib",
        "/opt/homebrew/opt/jpeg/lib",
        "/opt/homebrew/opt/libxkbcommon/lib",
        "/opt/homebrew/opt/mesa/lib",
        "/usr/local/lib",
        "/usr/local/opt/libxkbcommon/lib",
        "/usr/local/opt/mesa/lib",
    ];
    assert(r@.map_values(|s: &str| s@) =~= library_candidates());
    r
}

fn compile_flag_list() -> (r: Vec<&'static str>)
    ensures
        r@.map_values(|s: &str| s@) == compile_flag_candidates(),
{
    let r = vec![
        "-I.macland/sysroot/include/libepoll-shim",
        "-I.macland/sysroot/include",
        "-I/opt/homebrew/include",
        "-I/opt/homebrew/opt/epoll-shim/include",
        "-I/opt/homebrew/opt/jpeg/include",
        "-I/opt/homebrew/opt/libxkbcommon/include",
        "-I/opt/homebrew/opt/mesa/include",
        "-I/usr/local/include",
    ];
    assert(r@.map_values(|s: &str| s@) =~= compile_flag_candidates());
    r
}

fn linker_flag_list() -> (r: Vec<&'static str>)
    ensures
        r@.map_values(|s: &str| s@) == linker_flag_candidates(),
{
    let r = vec![
        "-lrt",
        "-L.macland/sysroot/lib",
        "-L/opt/homebrew/lib",
        "-L/opt/homebrew/opt/epoll-shim/lib",
        "-L/opt/homebrew/opt/jpeg/lib",
        "-L/opt/homebrew/opt/libxkbcommon/lib",
        "-L/opt/homebrew/opt/mesa/lib",
        "-L/usr/local/lib",
    ];
    assert(r@.map_values(|s: &str| s@) =~= linker_flag_candidates());
    r
}

fn path_list() -> (r: Vec<&'static str>)
    ensures
        r@.map_values(|s: &str| s@) == path_candidates(),
{
    let r = vec![".macland/sysroot/bin", "/opt/homebrew/bin", "/usr/local/bin"];
    assert(r@.map_values(|s: &str| s@) =~= path_candidates());
    r
}

impl EnvProbe {
    /// The workspace root, as characters.
    pub open spec fn root(&self) -> Option<Seq<char>> {
        match self.workspace_root {
            Some(r) => Some(r@),
            None => None,
        }
    }

    /// The paths known to exist.
    pub open spec fn existing_set(&self) -> Set<Seq<char>> {
        self.existing.deep_view().to_set()
    }

    /// Whether `p` is among the paths known to exist.
    fn has_path(&self, p: &Vec<char>) -> (b: bool)
        ensures
            b == self.existing_set().contains(p@),
    {
        let mut i: usize = 0;
        while i < self.existing.len()
            invariant
                i <= self.existing@.len(),
                forall|j: int| 0 <= j < i ==> self.existing@[j]@ != p@,
            decreases self.existing.len() - i,
        {
            if same_text(&chars_of(self.existing[i].as_str()), p) {
                assert(self.existing.deep_view()[i as int] == p@);
                return true;
            }
            i += 1;
        }
        assert(!self.existing.deep_view().contains(p@)) by {
            if self.existing.deep_view().contains(p@) {
                let j = choose|j: int| 0 <= j < self.existing.deep_view().len() && self.existing.deep_view()[j] == p@;
                assert(self.existing@[j]@ == p@);
            }
        }
        false
    }

    /// Where candidate `c` lies (see `candidate_location`).
    fn location(&self, c: &Vec<char>) -> (r: Option<Vec<char>>)
        ensures
            match r {
                Some(p) => candidate_location(self.root(), c@) == Some(p@),
                None => candidate_location(self.root(), c@) is None,
            },
    {
        if c.len() > 0 && c[0] == '/' {
            return Some(crate::text::copy_all(c));
        }
        match &self.workspace_root {
            Some(root) => {
                let joined = join_path(root.as_str(), string_from(c).as_str());
                Some(chars_of(joined.as_str()))
            },
            None => None,
        }
    }

    fn resolve_path(&self, c: &Vec<char>) -> (r: Option<Vec<char>>)
        ensures
            match r {
                Some(p) => resolve_path(self.root(), self.existing_set(), c@) == Some(p@),
                None => resolve_path(self.root(), self.existing_set(), c@) is None,
            },
    {
        match self.location(c) {
            Some(p) => if self.has_path(&p) {
                Some(p)
            } else {
                None
            },
            None => None,
        }
    }

    fn resolve_flag(&self, c: &Vec<char>) -> (r: Option<Vec<char>>)
        ensures
            match r {
                Some(p) => resolve_flag(self.root(), self.existing_set(), c@) == Some(p@),
                None => resolve_flag(self.root(), self.existing_set(), c@) is None,
            },
    {
        if c.len() >= 2 && c[0] == '-' && (c[1] == 'I' || c[1] == 'L') {
            let mut rest: Vec<char> = Vec::new();
            let mut i: usize = 2;
            while i < c.len()
                invariant
                    2 <= i <= c@.len(),
                    rest@ == c@.subrange(2, i as int),
                decreases c.len() - i,
            {
                rest.push(c[i]);
                assert(c@.subrange(2, i + 1) =~= c@.subrange(2, i as int).push(c@[i as int]));
                i += 1;
            }
            assert(rest@ =~= c@.skip(2));
            match self.resolve_path(&rest) {
                Some(p) => {
                    let mut out = vec![c[0], c[1]];
                    append_chars(&mut out, &p);
                    assert(out@ =~= c@.take(2) + p@);
                    Some(out)
                },
                None => None,
            }
        } else {
            Some(crate::text::copy_all(c))
        }
    }
}

/// Whether some item of `items` has the characters of `x`.
fn holds(items: &Vec<Vec<char>>, x: &Vec<char>) -> (b: bool)
    ensures
        b == views(items@).contains(x@),
{
    let mut i: usize = 0;
    while i < items.len()
        invariant
            i <= items@.len(),
            forall|j: int| 0 <= j < i ==> items@[j]@ != x@,
        decreases items.len() - i,
    {
        if same_text(&items[i], x) {
            assert(views(items@)[i as int] == x@);
            return true;
        }
        i += 1;
    }
    assert(!views(items@).contains(x@)) by {
        if views(items@).contains(x@) {
            let j = choose|j: int| 0 <= j < views(items@).len() && views(items@)[j] == x@;
            assert(items@[j]@ == x@);
        }
    }
    false
}

/// Appends the pieces of `v` that `opt_pieces` gives.
fn push_pieces(items: &mut Vec<Vec<char>>, v: Option<&String>, flags: bool)
    ensures
        views(final(items)@) == views(old(items)@) + opt_pieces(
            match v {
                Some(s) => Some(s@),
                None => None,
            },
            flags,
        ),
{
    match v {
        None => {
            assert(views(items@) =~= views(items@) + Seq::<Seq<char>>::empty());
        },
        Some(s) => {
            let text = chars_of(s.as_str());
            let pieces: Vec<Vec<char>> = if flags {
                split_whitespace_of(&text)
            } else {
                let spans = split_spans(&text, 0, text.len(), CharSet::One(':'));
                assert(text@.subrange(0, text@.len() as int) =~= text@);
                let mut out: Vec<Vec<char>> = Vec::new();
                let mut k: usize = 0;
                while k < spans.len()
                    invariant
                        k <= spans@.len(),
                        spans@.map_values(|p: (usize, usize)| span(text@, p)) == split_by(
                            text@,
                            CharSet::One(':'),
                        ),
                        forall|j: int| 0 <= j < spans@.len() ==> (#[trigger] spans@[j]).0 <= spans@[j].1 <= text@.len(),
                        views(out@) == split_by(text@, CharSet::One(':')).take(k as int),
                    decreases spans.len() - k,
                {
                    let (a, b) = spans[k];
                    assert(span(text@, spans@[k as int]) == split_by(text@, CharSet::One(':'))[k as int]);
                    let ghost before = views(out@);
                    out.push(crate::text::copy_span(&text, a, b));
                    assert(views(out@) =~= before.push(text@.subrange(a as int, b as int)));
                    assert(split_by(text@, CharSet::One(':')).take(k + 1) =~= split_by(
                        text@,
                        CharSet::One(':'),
                    ).take(k as int).push(text@.subrange(a as int, b as int)));
                    k += 1;
                }
                assert(split_by(text@, CharSet::One(':')).take(spans@.len() as int) =~= split_by(
                    text@,
                    CharSet::One(':'),
                ));
                out
            };
            let ghost start = views(items@);
            let mut k: usize = 0;
            while k < pieces.len()
                invariant
                    k <= pieces@.len(),
                    views(items@) == start + views(pieces@).take(k as int),
                decreases pieces.len() - k,
            {
                let ghost before = views(items@);
                items.push(crate::text::copy_all(&pieces[k]));
                assert(views(items@) =~= before.push(views(pieces@)[k as int]));
                assert(views(pieces@).take(k + 1) =~= views(pieces@).take(k as int).push(
                    views(pieces@)[k as int],
                ));
                assert(views(items@) =~= start + views(pieces@).take(k + 1));
                k += 1;
            }
            assert(views(pieces@).take(pieces@.len() as int) =~= views(pieces@));
        },
    }
}

/// The search list for one variable (see `merged_list`).
fn merge_list(
    probe: &EnvProbe,
    inherited: Option<&String>,
    over: Option<&String>,
    cands: &Vec<&'static str>,
    flags: bool,
) -> (r: Option<String>)
    ensures
        match r {
            Some(v) => merged_list(
                probe.root(),
                probe.existing_set(),
                match inherited {
                    Some(s) => Some(s@),
                    None => None,
                },
                match over {
                    Some(s) => Some(s@),
                    None => None,
                },
                cands@.map_values(|c: &str| c@),
                flags,
            ) == Some(v@),
            None => merged_list(
                probe.root(),
                probe.existing_set(),
                match inherited {
                    Some(s) => Some(s@),
                    None => None,
                },
                match over {
                    Some(s) => Some(s@),
                    None => None,
                },
                cands@.map_values(|c: &str| c@),
                flags,
            ) is None,
        },
{
    let ghost cs = cands@.map_values(|c: &str| c@);
    let mut items: Vec<Vec<char>> = Vec::new();
    let mut i: usize = 0;
    assert(cs.take(0) =~= Seq::<Seq<char>>::empty());
    assert(views(items@) =~= Seq::<Seq<char>>::empty());
    while i < cands.len()
        invariant
            i <= cands@.len(),
            cs == cands@.map_values(|c: &str| c@),
            views(items@) == resolved_all(probe.root(), probe.existing_set(), cs.take(i as int), flags),
        decreases cands.len() - i,
    {
        let c = chars_of(cands[i]);
        assert(cs.take(i + 1).drop_last() =~= cs.take(i as int));
        let r = if flags {
            probe.resolve_flag(&c)
        } else {
            probe.resolve_path(&c)
        };
        match r {
            Some(p) => {
                if !holds(&items, &p) {
                    let ghost before = views(items@);
                    items.push(p);
                    assert(views(items@) =~= before.push(p@));
                }
            },
            None => {},
        }
        i += 1;
    }
    assert(cs.take(cands@.len() as int) =~= cs);
    push_pieces(&mut items, inherited, flags);
    push_pieces(&mut items, over, flags);
    if items.len() == 0 {
        None
    } else {
        let joined = join_chars(&items, if flags { " " } else { ":" });
        Some(string_from(&joined))
    }
}

/// The value `m` gives `k`, if any.
pub open spec fn value_in(m: Map<Seq<char>, Seq<char>>, k: Seq<char>) -> Option<Seq<char>> {
    if m.contains_key(k) {
        Some(m[k])
    } else {
        None
    }
}

/// `m` with `k` set to `v` when there is a `v`.
pub open spec fn set_if(m: Map<Seq<char>, Seq<char>>, k: Seq<char>, v: Option<Seq<char>>) -> Map<Seq<char>, Seq<char>> {
    match v {
        Some(x) => m.insert(k, x),
        None => m,
    }
}

/// The environment a command gets: the manifest's variables, with the search
/// paths and compiler flags extended by the managed sysroot and the Homebrew
/// roots that exist, and by what the process environment already holds.
pub open spec fn command_env(
    env: Map<Seq<char>, Seq<char>>,
    root: Option<Seq<char>>,
    existing: Set<Seq<char>>,
    inherited: Map<Seq<char>, Seq<char>>,
) -> Map<Seq<char>, Seq<char>> {
    let pkg = merged_list(root, existing, value_in(inherited, "PKG_CONFIG_PATH"@), value_in(env, "PKG_CONFIG_PATH"@), pkg_config_candidates(), false);
    let prefix = merged_list(root, existing, value_in(inherited, "CMAKE_PREFIX_PATH"@), value_in(env, "CMAKE_PREFIX_PATH"@), prefix_candidates(), false);
    let cpath = merged_list(root, existing, value_in(inherited, "CPATH"@), value_in(env, "CPATH"@), include_candidates(), false);
    let cppflags = merged_list(root, existing, value_in(inherited, "CPPFLAGS"@), value_in(env, "CPPFLAGS"@), compile_flag_candidates(), true);
    let cflags = merged_list(root, existing, None, value_in(env, "CFLAGS"@), compile_flag_candidates(), true);
    let cxxflags = merged_list(root, existing, None, value_in(env, "CXXFLAGS"@), compile_flag_candidates(), true);
    let libpath = merged_list(root, existing, value_in(inherited, "LIBRARY_PATH"@), value_in(env, "LIBRARY_PATH"@), library_candidates(), false);
    let ldflags = merged_list(root, existing, value_in(inherited, "LDFLAGS"@), value_in(env, "LDFLAGS"@), linker_flag_candidates(), true);
    let dyld = merged_list(root, existing, value_in(inherited, "LIBRARY_PATH"@), value_in(env, "DYLD_FALLBACK_LIBRARY_PATH"@), library_candidates(), false);
    let path = merged_list(root, existing, value_in(inherited, "PATH"@), value_in(env, "PATH"@), path_candidates(), false);
    let m4 = set_if(set_if(set_if(set_if(env, "PKG_CONFIG_PATH"@, pkg), "CMAKE_PREFIX_PATH"@, prefix), "CPATH"@, cpath), "CPPFLAGS"@, cppflags);
    let m5 = match cflags {
        Some(f) => m4.insert("CFLAGS"@, f).insert("CXXFLAGS"@, match cxxflags {
            Some(x) => x,
            None => f,
        }),
        None => set_if(m4, "CXXFLAGS"@, cxxflags),
    };
    set_if(set_if(set_if(set_if(m5, "LIBRARY_PATH"@, libpath), "LDFLAGS"@, ldflags), "DYLD_FALLBACK_LIBRARY_PATH"@, dyld), "PATH"@, path)
}

pub open spec fn opt_text(v: Option<&String>) -> Option<Seq<char>> {
    match v {
        Some(s) => Some(s@),
        None => None,
    }
}

pub open spec fn opt_string(v: Option<String>) -> Option<Seq<char>> {
    match v {
        Some(s) => Some(s@),
        None => None,
    }
}

/// The value of `key` in `m`.
fn lookup<'a>(m: &'a EnvMap, key: &str) -> (r: Option<&'a String>)
    ensures
        opt_text(r) == value_in(m@, key@),
{
    m.get(key)
}

/// The search list for a variable, from the value the process inherited
/// (`inherit`, when it counts) and the manifest's own value of `key`.
fn merge_var(
    probe: &EnvProbe,
    inherit: Option<&str>,
    env_pairs: &EnvMap,
    key: &str,
    cands: &Vec<&'static str>,
    flags: bool,
) -> (r: Option<String>)
    ensures
        opt_string(r) == merged_list(
            probe.root(),
            probe.existing_set(),
            match inherit {
                Some(k) => value_in(probe.inherited@, k@),
                None => None,
            },
            value_in(env_pairs@, key@),
            cands@.map_values(|c: &str| c@),
            flags,
        ),
{
    let inh = match inherit {
        Some(k) => lookup(&probe.inherited, k),
        None => None,
    };
    merge_list(probe, inh, lookup(env_pairs, key), cands, flags)
}

fn set_opt(m: &mut EnvMap, key: &str, v: Option<String>)
    ensures
        final(m)@ == set_if(old(m)@, key@, match v {
            Some(x) => Some(x@),
            None => None,
        }),
{
    match v {
        Some(x) => {
            m.insert(string_from(&chars_of(key)), x);
        },
        None => {},
    }
}

/// The environment a command of the manifest runs with (see `command_env`).
#[verifier::rlimit(40)]
pub fn effective_env(env_pairs: &EnvMap, probe: &EnvProbe) -> (r: EnvMap)
    ensures
        r@ == command_env(env_pairs@, probe.root(), probe.existing_set(), probe.inherited@),
{
    let mut merged = env_pairs.clone();
    let pkg = merge_var(probe, Some("PKG_CONFIG_PATH"), env_pairs, "PKG_CONFIG_PATH", &pkg_config_list(), false);
    set_opt(&mut merged, "PKG_CONFIG_PATH", pkg);
    let prefix = merge_var(probe, Some("CMAKE_PREFIX_PATH"), env_pairs, "CMAKE_PREFIX_PATH", &prefix_list(), false);
    set_opt(&mut merged, "CMAKE_PREFIX_PATH", prefix);
    let cpath = merge_var(probe, Some("CPATH"), env_pairs, "CPATH", &include_list(), false);
    set_opt(&mut merged, "CPATH", cpath);
    let cppflags = merge_var(probe, Some("CPPFLAGS"), env_pairs, "CPPFLAGS", &compile_flag_list(), true);
    set_opt(&mut merged, "CPPFLAGS", cppflags);
    let cflags = merge_var(probe, None, env_pairs, "CFLAGS", &compile_flag_list(), true);
    let cxxflags = merge_var(probe, None, env_pairs, "CXXFLAGS", &compile_flag_list(), true);
    match cflags {
        Some(flags) => {
            let cxx = match cxxflags {
                Some(x) => x,
                None => flags.clone(),
            };
            merged.insert(string_from(&chars_of("CFLAGS")), flags);
            merged.insert(string_from(&chars_of("CXXFLAGS")), cxx);
        },
        None => {
            set_opt(&mut merged, "CXXFLAGS", cxxflags);
        },
    }
    let libpath = merge_var(probe, Some("LIBRARY_PATH"), env_pairs, "LIBRARY_PATH", &library_list(), false);
    set_opt(&mut merged, "LIBRARY_PATH", libpath);
    let ldflags = merge_var(probe, Some("LDFLAGS"), env_pairs, "LDFLAGS", &linker_flag_list(), true);
    set_opt(&mut merged, "LDFLAGS", ldflags);
    let dyld = merge_var(probe, Some("LIBRARY_PATH"), env_pairs, "DYLD_FALLBACK_LIBRARY_PATH", &library_list(), false);
    set_opt(&mut merged, "DYLD_FALLBACK_LIBRARY_PATH", dyld);
    let path = merge_var(probe, Some("PATH"), env_pairs, "PATH", &path_list(), false);
    set_opt(&mut merged, "PATH", path);
    merged
}

/// The path an `-I` or `-L` flag names.
pub open spec fn flag_path(c: Seq<char>) -> Option<Seq<char>> {
    if c.len() >= 2 && c[0] == '-' && (c[1] == 'I' || c[1] == 'L') {
        Some(c.skip(2))
    } else {
        None
    }
}

/// The paths that the candidates `cs` stand for (flags by the path they name).
pub open spec fn candidate_paths(cs: Seq<Seq<char>>, flags: bool) -> Seq<Seq<char>>
    decreases cs.len(),
{
    if cs.len() == 0 {
        seq![]
    } else if !flags {
        candidate_paths(cs.drop_last(), flags).push(cs.last())
    } else {
        match flag_path(cs.last()) {
            Some(p) => candidate_paths(cs.drop_last(), flags).push(p),
            None => candidate_paths(cs.drop_last(), flags),
        }
    }
}

/// Where the paths `ps` lie.
pub open spec fn locations(root: Option<Seq<char>>, ps: Seq<Seq<char>>) -> Seq<Seq<char>>
    decreases ps.len(),
{
    if ps.len() == 0 {
        seq![]
    } else {
        match candidate_location(root, ps.last()) {
            Some(p) => locations(root, ps.drop_last()).push(p),
            None => locations(root, ps.drop_last()),
        }
    }
}

/// Every path whose existence the command environment depends on.
pub open spec fn probe_locations(root: Option<Seq<char>>) -> Seq<Seq<char>> {
    locations(
        root,
        candidate_paths(pkg_config_candidates(), false) + candidate_paths(prefix_candidates(), false)
            + candidate_paths(include_candidates(), false) + candidate_paths(library_candidates(), false)
            + candidate_paths(path_candidates(), false) + candidate_paths(compile_flag_candidates(), true)
            + candidate_paths(linker_flag_candidates(), true),
    )
}

/// Appends the paths that the candidates stand for.
fn push_candidate_paths(out: &mut Vec<Vec<char>>, cands: &Vec<&'static str>, flags: bool)
    ensures
        views(final(out)@) == views(old(out)@) + candidate_paths(cands@.map_values(|c: &str| c@), flags),
{
    let ghost start = views(out@);
    let ghost cs = cands@.map_values(|c: &str| c@);
    let mut i: usize = 0;
    assert(cs.take(0) =~= Seq::<Seq<char>>::empty());
    assert(views(out@) =~= start + candidate_paths(cs.take(0), flags));
    while i < cands.len()
        invariant
            i <= cands@.len(),
            cs == cands@.map_values(|c: &str| c@),
            views(out@) == start + candidate_paths(cs.take(i as int), flags),
        decreases cands.len() - i,
    {
        let c = chars_of(cands[i]);
        assert(cs.take(i + 1).drop_last() =~= cs.take(i as int));
        let ghost before = views(out@);
        assert(cs[i as int] == c@);
        assert(cs.take(i + 1).last() == c@);
        if !flags {
            out.push(c);
            assert(views(out@) =~= before.push(c@));
            assert(views(out@) =~= start + candidate_paths(cs.take(i + 1), flags));
        } else if c.len() >= 2 && c[0] == '-' && (c[1] == 'I' || c[1] == 'L') {
            let rest = crate::text::copy_span(&c, 2, c.len());
            assert(rest@ =~= c@.skip(2));
            out.push(rest);
            assert(views(out@) =~= before.push(c@.skip(2)));
            assert(views(out@) =~= start + candidate_paths(cs.take(i + 1), flags));
        }
        i += 1;
    }
    assert(cs.take(cands@.len() as int) =~= cs);
}

/// The paths whose existence `effective_env` needs to know, given the workspace root.
pub fn probed_paths(workspace_root: Option<&str>) -> (r: Vec<String>)
    ensures
        r.deep_view() == probe_locations(
            match workspace_root {
                Some(w) => Some(w@),
                None => None,
            },
        ),
{
    let mut paths: Vec<Vec<char>> = Vec::new();
    push_candidate_paths(&mut paths, &pkg_config_list(), false);
    push_candidate_paths(&mut paths, &prefix_list(), false);
    push_candidate_paths(&mut paths, &include_list(), false);
    push_candidate_paths(&mut paths, &library_list(), false);
    push_candidate_paths(&mut paths, &path_list(), false);
    push_candidate_paths(&mut paths, &compile_flag_list(), true);
    push_candidate_paths(&mut paths, &linker_flag_list(), true);
    let ghost ps = views(paths@);
    let ghost root = match workspace_root {
        Some(w) => Some(w@),
        None => None,
    };
    assert(ps =~= candidate_paths(pkg_config_candidates(), false) + candidate_paths(prefix_candidates(), false)
            + candidate_paths(include_candidates(), false) + candidate_paths(library_candidates(), false)
            + candidate_paths(path_candidates(), false) + candidate_paths(compile_flag_candidates(), true)
            + candidate_paths(linker_flag_candidates(), true));
    locate_all(workspace_root, &paths)
}

/// Where each of `paths` lies (see `candidate_location`).
fn locate_all(workspace_root: Option<&str>, paths: &Vec<Vec<char>>) -> (r: Vec<String>)
    ensures
        r.deep_view() == locations(
            match workspace_root {
                Some(w) => Some(w@),
                None => None,
            },
            views(paths@),
        ),
{
    let ghost ps = views(paths@);
    let ghost root = match workspace_root {
        Some(w) => Some(w@),
        None => None,
    };
    let mut r: Vec<String> = Vec::new();
    let mut i: usize = 0;
    assert(ps.take(0) =~= Seq::<Seq<char>>::empty());
    assert(r.deep_view() =~= locations(root, ps.take(0)));
    while i < paths.len()
        invariant
            i <= paths@.len(),
            ps == views(paths@),
            root == match workspace_root {
                Some(w) => Some(w@),
                None => None,
            },
            r.deep_view() == locations(root, ps.take(i as int)),
        decreases paths.len() - i,
    {
        assert(ps.take(i + 1).drop_last() =~= ps.take(i as int));
        assert(ps[i as int] == paths@[i as int]@);
        let ghost before = r.deep_view();
        assert(ps.take(i + 1).last() == ps[i as int]);
        if paths[i].len() > 0 && paths[i][0] == '/' {
            r.push(string_from(&paths[i]));
            assert(r.deep_view() =~= before.push(paths@[i as int]@));
            assert(candidate_location(root, ps[i as int]) == Some(ps[i as int]));
        } else {
            match workspace_root {
                Some(w) => {
                    let j = join_path(w, string_from(&paths[i]).as_str());
                    r.push(j);
                    assert(r.deep_view() =~= before.push(j@));
                    assert(candidate_location(root, ps[i as int]) == Some(j@));
                },
                None => {
                    assert(candidate_location(root, ps[i as int]) is None);
                },
            }
        }
        i += 1;
    }
    assert(ps.take(paths@.len() as int) =~= ps);
    r
}


/// The variables whose values the command environment extends.
pub open spec fn managed_variable(k: Seq<char>) -> bool {
    k == "PKG_CONFIG_PATH"@ || k == "CMAKE_PREFIX_PATH"@ || k == "CPATH"@ || k == "CPPFLAGS"@
        || k == "CFLAGS"@ || k == "CXXFLAGS"@ || k == "LIBRARY_PATH"@ || k == "LDFLAGS"@
        || k == "DYLD_FALLBACK_LIBRARY_PATH"@ || k == "PATH"@
}

/// Every variable of the manifest that the command environment does not
/// manage reaches the command as the manifest sets it, and no other variable
/// appears: the command environment only adds to the managed ones.
pub proof fn law_command_env_keeps_other_variables(
    env: Map<Seq<char>, Seq<char>>,
    root: Option<Seq<char>>,
    existing: Set<Seq<char>>,
    inherited: Map<Seq<char>, Seq<char>>,
    k: Seq<char>,
)
    requires
        !managed_variable(k),
    ensures
        command_env(env, root, existing, inherited).contains_key(k) == env.contains_key(k),
        env.contains_key(k) ==> command_env(env, root, existing, inherited)[k] == env[k],
{
}


/// The managed variables that hold flags (joined by spaces); the others hold
/// paths (joined by `:`).
pub open spec fn flag_variable(k: Seq<char>) -> bool {
    k == "CPPFLAGS"@ || k == "CFLAGS"@ || k == "CXXFLAGS"@ || k == "LDFLAGS"@
}

pub open spec fn list_separator(k: Seq<char>) -> Seq<char> {
    if flag_variable(k) {
        " "@
    } else {
        ":"@
    }
}

/// Whether `v` ends with the items joined by `sep`, and, when anything comes
/// before them, a `sep` comes right before them.
pub open spec fn ends_with_list(v: Seq<char>, items: Seq<Seq<char>>, sep: Seq<char>) -> bool {
    let j = join(items, sep);
    &&& v.len() >= j.len()
    &&& v.skip(v.len() - j.len()) == j
    &&& v.len() > j.len() ==> v.len() >= j.len() + sep.len() && v.subrange(
        v.len() - j.len() - sep.len(),
        v.len() - j.len(),
    ) == sep
}

/// Joining two nonempty lists puts `sep` between their joins.
proof fn lemma_join_append(a: Seq<Seq<char>>, b: Seq<Seq<char>>, sep: Seq<char>)
    requires
        a.len() > 0,
        b.len() > 0,
    ensures
        join(a + b, sep) == join(a, sep) + sep + join(b, sep),
    decreases b.len(),
{
    if b.len() == 1 {
        assert((a + b).drop_last() =~= a);
        assert((a + b).last() == b[0]);
    } else {
        assert((a + b).drop_last() =~= a + b.drop_last());
        assert((a + b).last() == b.last());
        lemma_join_append(a, b.drop_last(), sep);
    }
}

/// A search list to which the manifest gives entries is set, and ends with them.
proof fn lemma_merged_ends_with_own(
    root: Option<Seq<char>>,
    existing: Set<Seq<char>>,
    inherited: Option<Seq<char>>,
    own: Seq<char>,
    cands: Seq<Seq<char>>,
    flags: bool,
)
    requires
        opt_pieces(Some(own), flags).len() > 0,
    ensures
        merged_list(root, existing, inherited, Some(own), cands, flags) matches Some(v) && ends_with_list(
            v,
            opt_pieces(Some(own), flags),
            if flags { " "@ } else { ":"@ },
        ),
{
    let sep: Seq<char> = if flags { " "@ } else { ":"@ };
    let pre = resolved_all(root, existing, cands, flags) + opt_pieces(inherited, flags);
    let items = opt_pieces(Some(own), flags);
    let all = pre + items;
    let j = join(items, sep);
    if pre.len() == 0 {
        assert(all =~= items);
        assert(j.skip(0) =~= j);
    } else {
        lemma_join_append(pre, items, sep);
        let v = join(pre, sep) + sep + j;
        assert(v.skip(v.len() - j.len()) =~= j);
        assert(v.subrange(v.len() - j.len() - sep.len(), v.len() - j.len()) =~= sep);
    }
}

/// The resolved candidates are not empty when the first candidate resolves.
proof fn lemma_resolved_first(root: Option<Seq<char>>, existing: Set<Seq<char>>, cands: Seq<Seq<char>>, flags: bool)
    requires
        cands.len() > 0,
        (if flags { resolve_flag(root, existing, cands[0]) } else { resolve_path(root, existing, cands[0]) }) is Some,
    ensures
        resolved_all(root, existing, cands, flags).len() > 0,
    decreases cands.len(),
{
    if cands.len() > 1 {
        assert(cands.drop_last()[0] == cands[0]);
        lemma_resolved_first(root, existing, cands.drop_last(), flags);
    } else {
        assert(cands.drop_last().len() == 0);
    }
}

/// The keys of the command environment: every variable of the manifest, and
/// besides them only managed variables; `LDFLAGS` is always set, since the
/// managed `-lrt` is always among its flags; and a managed variable to which
/// the manifest gives entries ends with those entries, in order.
pub proof fn law_command_env_keys_and_own_entries(
    env: Map<Seq<char>, Seq<char>>,
    root: Option<Seq<char>>,
    existing: Set<Seq<char>>,
    inherited: Map<Seq<char>, Seq<char>>,
    k: Seq<char>,
)
    ensures
        env.contains_key(k) ==> command_env(env, root, existing, inherited).contains_key(k),
        command_env(env, root, existing, inherited).contains_key(k) ==> env.contains_key(k)
            || managed_variable(k),
        command_env(env, root, existing, inherited).contains_key("LDFLAGS"@),
        managed_variable(k) && env.contains_key(k) && opt_pieces(Some(env[k]), flag_variable(k)).len() > 0
            ==> command_env(env, root, existing, inherited).contains_key(k) && ends_with_list(
            command_env(env, root, existing, inherited)[k],
            opt_pieces(Some(env[k]), flag_variable(k)),
            list_separator(k),
        ),
{
    reveal_strlit("PKG_CONFIG_PATH");
    reveal_strlit("CMAKE_PREFIX_PATH");
    reveal_strlit("CPATH");
    reveal_strlit("CPPFLAGS");
    reveal_strlit("CFLAGS");
    reveal_strlit("CXXFLAGS");
    reveal_strlit("LIBRARY_PATH");
    reveal_strlit("LDFLAGS");
    reveal_strlit("DYLD_FALLBACK_LIBRARY_PATH");
    reveal_strlit("PATH");
    reveal_strlit("-lrt");
    assert("CPPFLAGS"@[1] != "CXXFLAGS"@[1]);
    assert("PKG_CONFIG_PATH"@.len() == 15 && "CMAKE_PREFIX_PATH"@.len() == 17 && "CPATH"@.len() == 5);
    assert("CPPFLAGS"@.len() == 8 && "CFLAGS"@.len() == 6 && "CXXFLAGS"@.len() == 8);
    assert("LIBRARY_PATH"@.len() == 12 && "LDFLAGS"@.len() == 7 && "PATH"@.len() == 4);
    assert("DYLD_FALLBACK_LIBRARY_PATH"@.len() == 26);
    let cands = linker_flag_candidates();
    assert(cands[0] == "-lrt"@);
    lemma_resolved_first(root, existing, cands, true);
    let r = command_env(env, root, existing, inherited);
    if managed_variable(k) && env.contains_key(k) && opt_pieces(Some(env[k]), flag_variable(k)).len() > 0 {
        let own = env[k];
        let fl = flag_variable(k);
        assert(value_in(env, k) == Some(own));
        if k == "PKG_CONFIG_PATH"@ {
            assert(r.contains_key(k) && ends_with_list(r[k], opt_pieces(Some(own), fl), list_separator(k))) by {
                assert(fl == false && list_separator(k) == ":"@);
                lemma_merged_ends_with_own(root, existing, value_in(inherited, k), own, pkg_config_candidates(), false);
            }
        } else if k == "CMAKE_PREFIX_PATH"@ {
            assert(r.contains_key(k) && ends_with_list(r[k], opt_pieces(Some(own), fl), list_separator(k))) by {
                assert(fl == false && list_separator(k) == ":"@);
                lemma_merged_ends_with_own(root, existing, value_in(inherited, k), own, prefix_candidates(), false);
            }
        } else if k == "CPATH"@ {
            assert(r.contains_key(k) && ends_with_list(r[k], opt_pieces(Some(own), fl), list_separator(k))) by {
                assert(fl == false && list_separator(k) == ":"@);
                lemma_merged_ends_with_own(root, existing, value_in(inherited, k), own, include_candidates(), false);
            }
        } else if k == "CPPFLAGS"@ {
            assert(r.contains_key(k) && ends_with_list(r[k], opt_pieces(Some(own), fl), list_separator(k))) by {
                assert(fl == true && list_separator(k) == " "@);
                lemma_merged_ends_with_own(root, existing, value_in(inherited, k), own, compile_flag_candidates(), true);
            }
        } else if k == "CFLAGS"@ {
            assert(r.contains_key(k) && ends_with_list(r[k], opt_pieces(Some(own), fl), list_separator(k))) by {
                assert(fl == true && list_separator(k) == " "@);
                lemma_merged_ends_with_own(root, existing, None, own, compile_flag_candidates(), true);
            }
        } else if k == "CXXFLAGS"@ {
            assert(r.contains_key(k) && ends_with_list(r[k], opt_pieces(Some(own), fl), list_separator(k))) by {
                assert(fl == true && list_separator(k) == " "@);
                lemma_merged_ends_with_own(root, existing, None, own, compile_flag_candidates(), true);
            }
        } else if k == "LIBRARY_PATH"@ {
            assert(r.contains_key(k) && ends_with_list(r[k], opt_pieces(Some(own), fl), list_separator(k))) by {
                assert(fl == false && list_separator(k) == ":"@);
                lemma_merged_ends_with_own(root, existing, value_in(inherited, k), own, library_candidates(), false);
            }
        } else if k == "LDFLAGS"@ {
            assert(r.contains_key(k) && ends_with_list(r[k], opt_pieces(Some(own), fl), list_separator(k))) by {
                assert(fl == true && list_separator(k) == " "@);
                lemma_merged_ends_with_own(root, existing, value_in(inherited, k), own, linker_flag_candidates(), true);
            }
        } else if k == "DYLD_FALLBACK_LIBRARY_PATH"@ {
            assert(r.contains_key(k) && ends_with_list(r[k], opt_pieces(Some(own), fl), list_separator(k))) by {
                assert(fl == false && list_separator(k) == ":"@);
                lemma_merged_ends_with_own(root, existing, value_in(inherited, "LIBRARY_PATH"@), own, library_candidates(), false);
            }
        } else if k == "PATH"@ {
            assert(r.contains_key(k) && ends_with_list(r[k], opt_pieces(Some(own), fl), list_separator(k))) by {
                assert(fl == false && list_separator(k) == ":"@);
                lemma_merged_ends_with_own(root, existing, value_in(inherited, k), own, path_candidates(), false);
            }
        }
    }
}

/// The candidate search entries the command environment offers each managed
/// variable: `DYLD_FALLBACK_LIBRARY_PATH` gets the library directories, as
/// `LIBRARY_PATH` does, and `CFLAGS` and `CXXFLAGS` the include flags, as
/// `CPPFLAGS` does.
pub open spec fn managed_candidates(k: Seq<char>) -> Seq<Seq<char>> {
    if k == "PKG_CONFIG_PATH"@ {
        pkg_config_candidates()
    } else if k == "CMAKE_PREFIX_PATH"@ {
        prefix_candidates()
    } else if k == "CPATH"@ {
        include_candidates()
    } else if k == "CPPFLAGS"@ || k == "CFLAGS"@ || k == "CXXFLAGS"@ {
        compile_flag_candidates()
    } else if k == "LIBRARY_PATH"@ || k == "DYLD_FALLBACK_LIBRARY_PATH"@ {
        library_candidates()
    } else if k == "LDFLAGS"@ {
        linker_flag_candidates()
    } else if k == "PATH"@ {
        path_candidates()
    } else {
        seq![]
    }
}

/// Whether candidate `c` of variable `k` resolves to the entry `p`.
pub open spec fn resolves_to(root: Option<Seq<char>>, existing: Set<Seq<char>>, k: Seq<char>, c: Seq<char>, p: Seq<char>) -> bool {
    if flag_variable(k) {
        resolve_flag(root, existing, c) == Some(p)
    } else {
        resolve_path(root, existing, c) == Some(p)
    }
}

/// A candidate that resolves is among the resolved candidates.
proof fn lemma_resolved_holds(
    root: Option<Seq<char>>,
    existing: Set<Seq<char>>,
    cands: Seq<Seq<char>>,
    flags: bool,
    i: int,
    p: Seq<char>,
)
    requires
        0 <= i < cands.len(),
        (if flags { resolve_flag(root, existing, cands[i]) } else { resolve_path(root, existing, cands[i]) }) == Some(p),
    ensures
        resolved_all(root, existing, cands, flags).contains(p),
    decreases cands.len(),
{
    let before = resolved_all(root, existing, cands.drop_last(), flags);
    if i == cands.len() - 1 {
        if !before.contains(p) {
            assert(before.push(p)[before.len() as int] == p);
        }
    } else {
        assert(cands.drop_last()[i] == cands[i]);
        lemma_resolved_holds(root, existing, cands.drop_last(), flags, i, p);
        let r = if flags {
            resolve_flag(root, existing, cands.last())
        } else {
            resolve_path(root, existing, cands.last())
        };
        if let Some(q) = r {
            if !before.contains(q) {
                let j = choose|j: int| 0 <= j < before.len() && before[j] == p;
                assert(before.push(q)[j] == p);
            }
        }
    }
}

/// A search list with a resolved candidate is set, and lists it.
proof fn lemma_merged_lists(
    root: Option<Seq<char>>,
    existing: Set<Seq<char>>,
    inherited: Option<Seq<char>>,
    over: Option<Seq<char>>,
    cands: Seq<Seq<char>>,
    flags: bool,
    i: int,
    p: Seq<char>,
)
    requires
        0 <= i < cands.len(),
        (if flags { resolve_flag(root, existing, cands[i]) } else { resolve_path(root, existing, cands[i]) }) == Some(p),
    ensures
        merged_list(root, existing, inherited, over, cands, flags) matches Some(v) && exists|l: Seq<Seq<char>>|
            #[trigger] l.contains(p) && v == join(l, if flags { " "@ } else { ":"@ }),
{
    lemma_resolved_holds(root, existing, cands, flags, i, p);
    let rs = resolved_all(root, existing, cands, flags);
    let all = rs + opt_pieces(inherited, flags) + opt_pieces(over, flags);
    let j = choose|j: int| 0 <= j < rs.len() && rs[j] == p;
    assert(all[j] == p);
    assert(all.contains(p));
}

/// Every search entry of the sysroot or of Homebrew that exists reaches the
/// command: when a candidate of a managed variable resolves, the command
/// environment sets that variable, whether or not the manifest or the process
/// environment does, and its value is a list, joined by the variable's
/// separator, that holds the resolved entry. So the Homebrew libraries reach
/// `DYLD_FALLBACK_LIBRARY_PATH` as they reach `LIBRARY_PATH`.
pub proof fn law_command_env_lists_found_candidates(
    env: Map<Seq<char>, Seq<char>>,
    root: Option<Seq<char>>,
    existing: Set<Seq<char>>,
    inherited: Map<Seq<char>, Seq<char>>,
    k: Seq<char>,
    i: int,
    p: Seq<char>,
)
    requires
        0 <= i < managed_candidates(k).len(),
        resolves_to(root, existing, k, managed_candidates(k)[i], p),
    ensures
        command_env(env, root, existing, inherited).contains_key(k),
        exists|l: Seq<Seq<char>>| #[trigger] l.contains(p) && command_env(env, root, existing, inherited)[k] == join(
            l,
            list_separator(k),
        ),
{
    reveal_strlit("PKG_CONFIG_PATH");
    reveal_strlit("CMAKE_PREFIX_PATH");
    reveal_strlit("CPATH");
    reveal_strlit("CPPFLAGS");
    reveal_strlit("CFLAGS");
    reveal_strlit("CXXFLAGS");
    reveal_strlit("LIBRARY_PATH");
    reveal_strlit("LDFLAGS");
    reveal_strlit("DYLD_FALLBACK_LIBRARY_PATH");
    reveal_strlit("PATH");
    assert("CPPFLAGS"@[1] != "CXXFLAGS"@[1]);
    assert("PKG_CONFIG_PATH"@.len() == 15 && "CMAKE_PREFIX_PATH"@.len() == 17 && "CPATH"@.len() == 5);
    assert("CPPFLAGS"@.len() == 8 && "CFLAGS"@.len() == 6 && "CXXFLAGS"@.len() == 8);
    assert("LIBRARY_PATH"@.len() == 12 && "LDFLAGS"@.len() == 7 && "PATH"@.len() == 4);
    assert("DYLD_FALLBACK_LIBRARY_PATH"@.len() == 26);
    let r = command_env(env, root, existing, inherited);
    let fl = flag_variable(k);
    let cands = managed_candidates(k);
    let inh = if k == "CFLAGS"@ || k == "CXXFLAGS"@ {
        None
    } else if k == "DYLD_FALLBACK_LIBRARY_PATH"@ {
        value_in(inherited, "LIBRARY_PATH"@)
    } else {
        value_in(inherited, k)
    };
    lemma_merged_lists(root, existing, inh, value_in(env, k), cands, fl, i, p);
    let v = merged_list(root, existing, inh, value_in(env, k), cands, fl)->0;
    let l = choose|l: Seq<Seq<char>>| #[trigger] l.contains(p) && v == join(l, if fl { " "@ } else { ":"@ });
    assert(list_separator(k) == (if fl { " "@ } else { ":"@ }));
    if k == "PKG_CONFIG_PATH"@ {
        assert(r.contains_key(k) && r[k] == v);
    } else if k == "CMAKE_PREFIX_PATH"@ {
        assert(r.contains_key(k) && r[k] == v);
    } else if k == "CPATH"@ {
        assert(r.contains_key(k) && r[k] == v);
    } else if k == "CPPFLAGS"@ {
        assert(r.contains_key(k) && r[k] == v);
    } else if k == "CFLAGS"@ {
        assert(r.contains_key(k) && r[k] == v);
    } else if k == "CXXFLAGS"@ {
        assert(r.contains_key(k) && r[k] == v);
    } else if k == "LIBRARY_PATH"@ {
        assert(r.contains_key(k) && r[k] == v);
    } else if k == "LDFLAGS"@ {
        assert(r.contains_key(k) && r[k] == v);
    } else if k == "DYLD_FALLBACK_LIBRARY_PATH"@ {
        assert(r.contains_key(k) && r[k] == v);
    } else {
        assert(k == "PATH"@);
        assert(r.contains_key(k) && r[k] == v);
    }
    assert(l.contains(p) && r[k] == join(l, list_separator(k)));
}

/// The program of a command line and its arguments. A command line with no
/// word is refused with "empty command".
pub fn split_command(command: &Vec<String>) -> (r: Result<(String, Vec<String>), String>)
    ensures
        match r {
            Ok((program, args)) => command@.len() > 0 && program@ == command@[0]@
                && args.deep_view() == command.deep_view().drop_first(),
            Err(e) => command@.len() == 0 && e@ == "empty command"@,
        },
{
    if command.len() == 0 {
        return Err(text_of("empty command"));
    }
    let program = text_of(command[0].as_str());
    let mut args: Vec<String> = Vec::new();
    let mut i: usize = 1;
    while i < command.len()
        invariant
            1 <= i <= command@.len(),
            args.deep_view() == command.deep_view().subrange(1, i as int),
        decreases command.len() - i,
    {
        let ghost before = args.deep_view();
        args.push(text_of(command[i].as_str()));
        assert(command.deep_view()[i as int] == command@[i as int]@);
        assert(args.deep_view() =~= before.push(command@[i as int]@));
        assert(args.deep_view() =~= command.deep_view().subrange(1, i + 1));
        i += 1;
    }
    assert(command.deep_view().subrange(1, command@.len() as int) =~= command.deep_view().drop_first());
    Ok((program, args))
}

/// The error of a command that ran and failed: the command line, its words
/// joined by spaces, and the exit status as the system wrote it.
pub open spec fn failure_message(words: Seq<Seq<char>>, status: Seq<char>) -> Seq<char> {
    "command `"@ + join(words, " "@) + "` failed with status "@ + status
}

/// The error of `command` when it ran and exited with `status`.
pub fn command_failure(command: &Vec<String>, status: &str) -> (r: String)
    ensures
        r@ == failure_message(command.deep_view(), status@),
{
    let mut items: Vec<Vec<char>> = Vec::new();
    let mut i: usize = 0;
    while i < command.len()
        invariant
            i <= command@.len(),
            items@.len() == i,
            views(items@) == command.deep_view().take(i as int),
        decreases command.len() - i,
    {
        let ghost before = items@;
        items.push(chars_of(command[i].as_str()));
        assert(command.deep_view()[i as int] == command@[i as int]@);
        assert(items@ =~= before.push(items@[i as int]));
        assert(views(items@) =~= views(before).push(command@[i as int]@));
        assert(views(items@) =~= command.deep_view().take(i + 1));
        i += 1;
    }
    assert(command.deep_view().take(command@.len() as int) =~= command.deep_view());
    let joined = join_chars(&items, " ");
    let mut out = chars_of("command `");
    append_chars(&mut out, &joined);
    append_str(&mut out, "` failed with status ");
    append_str(&mut out, status);
    string_from(&out)
}

/// The record of a recorded action: it succeeded exactly when its command did.
pub fn action_record(action: &str, command: &Vec<String>, outcome: &Result<(), String>) -> (r: ActionRecord)
    ensures
        r.action@ == action@,
        r.success == outcome is Ok,
        r.command.deep_view() == command.deep_view(),
{
    let mut words: Vec<String> = Vec::new();
    let mut i: usize = 0;
    while i < command.len()
        invariant
            i <= command@.len(),
            words.deep_view() == command.deep_view().take(i as int),
        decreases command.len() - i,
    {
        let ghost before = words.deep_view();
        words.push(text_of(command[i].as_str()));
        assert(command.deep_view()[i as int] == command@[i as int]@);
        assert(words.deep_view() =~= before.push(command@[i as int]@));
        assert(words.deep_view() =~= command.deep_view().take(i + 1));
        i += 1;
    }
    assert(command.deep_view().take(command@.len() as int) =~= command.deep_view());
    ActionRecord { action: text_of(action), success: outcome.is_ok(), command: words }
}

} // verus!
