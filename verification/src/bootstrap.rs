//! The bootstrap plan: the Homebrew packages and workspace shims that would
//! supply what `doctor` found missing.
use vstd::prelude::*;
use crate::doctor::{DoctorReport, missing_dependency_names, missing_tool_names};
use crate::text::{chars_of, same_text};
use crate::workspace_shims::{is_shim_dependency, shim_dependency_names};

verus! {

/// What `bootstrap` would install.
#[derive(Debug, Clone, PartialEq, Eq)]
pub struct BootstrapPlan {
    pub packages: Vec<&'static str>,
    pub workspace_shims: Vec<&'static str>,
}

/// The Homebrew package that provides a missing tool.
pub open spec fn tool_package(name: Seq<char>) -> Option<Seq<char>> {
    if name == "meson"@ {
        Some("meson"@)
    } else if name == "ninja"@ {
        Some("ninja"@)
    } else if name == "pkg-config"@ {
        Some("pkg-config"@)
    } else if name == "Xwayland"@ {
        Some("xorg-server"@)
    } else {
        None
    }
}

/// The Homebrew package that provides a missing native library; the Linux
/// libraries that the workspace sysroot stands in for have none.
pub open spec fn dependency_package(name: Seq<char>) -> Option<Seq<char>> {
    if name == "xkbcommon"@ {
        Some("libxkbcommon"@)
    } else if name == "egl"@ || name == "glesv2"@ {
        Some("mesa"@)
    } else if name == "epoll-shim"@ {
        Some("epoll-shim"@)
    } else if name == "libzip"@ {
        Some("libzip"@)
    } else if name == "tomlplusplus"@ {
        Some("tomlplusplus"@)
    } else if name == "libmagic"@ {
        Some("libmagic"@)
    } else if name == "libheif"@ {
        Some("libheif"@)
    } else if name == "pugixml"@ {
        Some("pugixml"@)
    } else if name == "xcursor"@ {
        Some("libxcursor"@)
    } else if name == "re2"@ {
        Some("re2"@)
    } else if name == "muparser"@ {
        Some("muparser"@)
    } else {
        None
    }
}

pub open spec fn texts(v: Seq<&'static str>) -> Seq<Seq<char>> {
    v.map_values(|s: &'static str| s@)
}

/// `list` with `x` at the end unless it holds it already.
pub open spec fn add_new(list: Seq<Seq<char>>, x: Option<Seq<char>>) -> Seq<Seq<char>> {
    match x {
        Some(p) => if list.contains(p) { list } else { list.push(p) },
        None => list,
    }
}

/// The packages for the missing tools, then for the missing libraries, each once.
pub open spec fn planned_packages(tools: Seq<Seq<char>>, deps: Seq<Seq<char>>) -> Seq<Seq<char>>
    decreases deps.len(),
{
    if deps.len() == 0 {
        planned_tool_packages(tools)
    } else {
        add_new(planned_packages(tools, deps.drop_last()), dependency_package(deps.last()))
    }
}

pub open spec fn planned_tool_packages(tools: Seq<Seq<char>>) -> Seq<Seq<char>>
    decreases tools.len(),
{
    if tools.len() == 0 {
        seq![]
    } else {
        add_new(planned_tool_packages(tools.drop_last()), tool_package(tools.last()))
    }
}

/// The missing libraries that the workspace sysroot stands in for, each once.
pub open spec fn planned_shims(deps: Seq<Seq<char>>) -> Seq<Seq<char>>
    decreases deps.len(),
{
    if deps.len() == 0 {
        seq![]
    } else {
        add_new(
            planned_shims(deps.drop_last()),
            if shim_dependency_names().contains(deps.last()) { Some(deps.last()) } else { None },
        )
    }
}

fn tool_package_of(name: &str) -> (r: Option<&'static str>)
    ensures
        match r {
            Some(p) => tool_package(name@) == Some(p@),
            None => tool_package(name@) is None,
        },
{
    let n = chars_of(name);
    if same_text(&n, &chars_of("meson")) {
        Some("meson")
    } else if same_text(&n, &chars_of("ninja")) {
        Some("ninja")
    } else if same_text(&n, &chars_of("pkg-config")) {
        Some("pkg-config")
    } else if same_text(&n, &chars_of("Xwayland")) {
        Some("xorg-server")
    } else {
        None
    }
}

fn dependency_package_of(name: &str) -> (r: Option<&'static str>)
    ensures
        match r {
            Some(p) => dependency_package(name@) == Some(p@),
            None => dependency_package(name@) is None,
        },
{
    let n = chars_of(name);
    if same_text(&n, &chars_of("xkbcommon")) {
        Some("libxkbcommon")
    } else if same_text(&n, &chars_of("egl")) || same_text(&n, &chars_of("glesv2")) {
        Some("mesa")
    } else if same_text(&n, &chars_of("epoll-shim")) {
        Some("epoll-shim")
    } else if same_text(&n, &chars_of("libzip")) {
        Some("libzip")
    } else if same_text(&n, &chars_of("tomlplusplus")) {
        Some("tomlplusplus")
    } else if same_text(&n, &chars_of("libmagic")) {
        Some("libmagic")
    } else if same_text(&n, &chars_of("libheif")) {
        Some("libheif")
    } else if same_text(&n, &chars_of("pugixml")) {
        Some("pugixml")
    } else if same_text(&n, &chars_of("xcursor")) {
        Some("libxcursor")
    } else if same_text(&n, &chars_of("re2")) {
        Some("re2")
    } else if same_text(&n, &chars_of("muparser")) {
        Some("muparser")
    } else {
        None
    }
}

/// Whether `list` holds `x`.
fn holds_name(list: &Vec<&'static str>, x: &str) -> (b: bool)
    ensures
        b == texts(list@).contains(x@),
{
    let xs = chars_of(x);
    let mut i: usize = 0;
    while i < list.len()
        invariant
            i <= list@.len(),
            xs@ == x@,
            forall|j: int| 0 <= j < i ==> list@[j]@ != x@,
        decreases list.len() - i,
    {
        if same_text(&chars_of(list[i]), &xs) {
            assert(texts(list@)[i as int] == x@);
            return true;
        }
        i += 1;
    }
    assert(!texts(list@).contains(x@)) by {
        if texts(list@).contains(x@) {
            let j = choose|j: int| 0 <= j < texts(list@).len() && texts(list@)[j] == x@;
            assert(list@[j]@ == x@);
        }
    }
    false
}

/// Adds `x` to `list` unless it holds it already.
fn add_name(list: &mut Vec<&'static str>, x: Option<&'static str>)
    ensures
        texts(final(list)@) == add_new(texts(old(list)@), match x {
            Some(p) => Some(p@),
            None => None,
        }),
{
    match x {
        Some(p) => {
            if !holds_name(list, p) {
                let ghost before = texts(list@);
                list.push(p);
                assert(texts(list@) =~= before.push(p@));
            }
        },
        None => {},
    }
}

impl BootstrapPlan {
    /// The packages that supply the missing tools and libraries of `report`,
    /// and the missing libraries that the workspace sysroot stands in for;
    /// each list in the order of first need, without repeats.
    pub fn from_doctor(report: &DoctorReport) -> (r: Self)
        ensures
            texts(r.packages@) == planned_packages(
                texts(missing_tool_names(report.tools@)),
                texts(missing_dependency_names(report.native_dependencies@)),
            ),
            texts(r.workspace_shims@) == planned_shims(
                texts(missing_dependency_names(report.native_dependencies@)),
            ),
    {
        let mut packages: Vec<&'static str> = Vec::new();
        let mut workspace_shims: Vec<&'static str> = Vec::new();
        let tools = report.missing_tools();
        let ghost ts = texts(tools@);
        let mut i: usize = 0;
        assert(ts.take(0) =~= Seq::<Seq<char>>::empty());
        assert(texts(packages@) =~= Seq::<Seq<char>>::empty());
        while i < tools.len()
            invariant
                i <= tools@.len(),
                ts == texts(tools@),
                texts(packages@) == planned_tool_packages(ts.take(i as int)),
            decreases tools.len() - i,
        {
            assert(ts.take(i + 1).drop_last() =~= ts.take(i as int));
            assert(ts[i as int] == tools@[i as int]@);
            add_name(&mut packages, tool_package_of(tools[i]));
            i += 1;
        }
        assert(ts.take(tools@.len() as int) =~= ts);
        let deps = report.missing_native_dependencies();
        let ghost ds = texts(deps@);
        let mut k: usize = 0;
        assert(ds.take(0) =~= Seq::<Seq<char>>::empty());
        assert(texts(workspace_shims@) =~= Seq::<Seq<char>>::empty());
        while k < deps.len()
            invariant
                k <= deps@.len(),
                ds == texts(deps@),
                ts == texts(tools@),
                texts(packages@) == planned_packages(ts, ds.take(k as int)),
                texts(workspace_shims@) == planned_shims(ds.take(k as int)),
            decreases deps.len() - k,
        {
            assert(ds.take(k + 1).drop_last() =~= ds.take(k as int));
            assert(ds[k as int] == deps@[k as int]@);
            add_name(&mut packages, dependency_package_of(deps[k]));
            let dependency = deps[k];
            add_name(&mut workspace_shims, if is_shim_dependency(dependency) {
                Some(dependency)
            } else {
                None
            });
            k += 1;
        }
        assert(ds.take(deps@.len() as int) =~= ds);
        BootstrapPlan { packages, workspace_shims }
    }

    /// Whether the plan installs nothing.
    pub fn is_empty(&self) -> (b: bool)
        ensures
            b == (self.packages@.len() == 0 && self.workspace_shims@.len() == 0),
    {
        self.packages.len() == 0 && self.workspace_shims.len() == 0
    }
}


/// `add_new` keeps a list free of repeats, and adds nothing but `x`.
proof fn lemma_add_new(list: Seq<Seq<char>>, x: Option<Seq<char>>)
    requires
        list.no_duplicates(),
    ensures
        add_new(list, x).no_duplicates(),
        forall|y: Seq<char>| #[trigger] add_new(list, x).contains(y) ==> list.contains(y) || x == Some(y),
{
    if let Some(p) = x {
        if !list.contains(p) {
            let l = list.push(p);
            assert forall|i: int, j: int| 0 <= i < l.len() && 0 <= j < l.len() && i != j implies l[i] != l[j] by {
                if i < list.len() && j < list.len() {
                } else if i < list.len() {
                    assert(l[j] == p);
                    assert(list[i] == l[i]);
                } else {
                    assert(l[i] == p);
                    assert(list[j] == l[j]);
                }
            }
            assert forall|y: Seq<char>| #[trigger] l.contains(y) implies list.contains(y) || x == Some(y) by {
                let i = choose|i: int| 0 <= i < l.len() && l[i] == y;
                if i < list.len() {
                    assert(list[i] == y);
                }
            }
        }
    }
}

/// The wanted names of `src`, each once, in the order in which each is
/// first wanted (`None` wants nothing).
pub open spec fn first_needs(src: Seq<Option<Seq<char>>>) -> Seq<Seq<char>>
    decreases src.len(),
{
    if src.len() == 0 {
        seq![]
    } else {
        add_new(first_needs(src.drop_last()), src.last())
    }
}

/// What each missing tool, then each missing library, asks of Homebrew.
pub open spec fn package_needs(tools: Seq<Seq<char>>, deps: Seq<Seq<char>>) -> Seq<Option<Seq<char>>> {
    tools.map_values(|t: Seq<char>| tool_package(t)) + deps.map_values(|d: Seq<char>| dependency_package(d))
}

/// What each missing library asks of the workspace sysroot.
pub open spec fn shim_needs(deps: Seq<Seq<char>>) -> Seq<Option<Seq<char>>> {
    deps.map_values(|d: Seq<char>| if shim_dependency_names().contains(d) { Some(d) } else { None })
}

/// Whether `src` wants `p` somewhere before it first wants `q`.
pub open spec fn wanted_before(src: Seq<Option<Seq<char>>>, p: Seq<char>, q: Seq<char>) -> bool {
    exists|i: int| 0 <= i < src.len() && src[i] == Some(p) && forall|j: int| 0 <= j <= i ==> #[trigger] src[j] != Some(q)
}

/// `first_needs` lists each wanted name once; a name is listed exactly when
/// something wants it; and of two listed names, the earlier is wanted
/// somewhere before the later is first wanted.
pub proof fn law_first_needs(src: Seq<Option<Seq<char>>>)
    ensures
        first_needs(src).no_duplicates(),
        forall|p: Seq<char>| #[trigger] first_needs(src).contains(p) <==> exists|i: int| 0 <= i < src.len() && src[i] == Some(p),
        forall|a: int, b: int| #![trigger first_needs(src)[a], first_needs(src)[b]]
            0 <= a < b < first_needs(src).len() ==> wanted_before(src, first_needs(src)[a], first_needs(src)[b]),
    decreases src.len(),
{
    if src.len() > 0 {
        let init = src.drop_last();
        let x = src.last();
        let d0 = first_needs(init);
        let d = first_needs(src);
        law_first_needs(init);
        lemma_add_new(d0, x);
        assert forall|p: Seq<char>| #[trigger] d.contains(p) <==> exists|i: int| 0 <= i < src.len() && src[i] == Some(p) by {
            if d.contains(p) {
                if d0.contains(p) {
                    let i = choose|i: int| 0 <= i < init.len() && init[i] == Some(p);
                    assert(src[i] == Some(p));
                } else {
                    assert(src[src.len() - 1] == Some(p));
                }
            }
            if exists|i: int| 0 <= i < src.len() && src[i] == Some(p) {
                let i = choose|i: int| 0 <= i < src.len() && src[i] == Some(p);
                if i < init.len() {
                    assert(init[i] == Some(p));
                    assert(d0.contains(p));
                    if !(d0 =~= d) {
                        assert(d == d0.push(x->0));
                        let k = choose|k: int| 0 <= k < d0.len() && d0[k] == p;
                        assert(d[k] == p);
                    }
                } else {
                    if d0.contains(p) {
                        if !(d0 =~= d) {
                            let k = choose|k: int| 0 <= k < d0.len() && d0[k] == p;
                            assert(d[k] == p);
                        }
                    } else {
                        assert(d == d0.push(p));
                        assert(d[d0.len() as int] == p);
                    }
                }
            }
        }
        assert forall|a: int, b: int| #![trigger d[a], d[b]] 0 <= a < b < d.len() implies wanted_before(src, d[a], d[b]) by {
            if b < d0.len() {
                assert(d[a] == d0[a] && d[b] == d0[b]);
                assert(wanted_before(init, d0[a], d0[b]));
                let i = choose|i: int| 0 <= i < init.len() && init[i] == Some(d0[a]) && forall|j: int|
                    0 <= j <= i ==> #[trigger] init[j] != Some(d0[b]);
                assert forall|j: int| 0 <= j <= i implies #[trigger] src[j] != Some(d[b]) by {
                    assert(src[j] == init[j]);
                }
                assert(src[i] == init[i]);
            } else {
                let p = d[b];
                assert(d == d0.push(p));
                assert(!d0.contains(p));
                assert(d[a] == d0[a]);
                assert(d0.contains(d0[a]));
                let i = choose|i: int| 0 <= i < init.len() && init[i] == Some(d0[a]);
                assert(src[i] == init[i]);
                assert forall|j: int| 0 <= j <= i implies #[trigger] src[j] != Some(d[b]) by {
                    assert(src[j] == init[j]);
                    if init[j] == Some(p) {
                        assert(d0.contains(p));
                    }
                }
            }
        }
    }
}

proof fn lemma_tool_needs(tools: Seq<Seq<char>>)
    ensures
        planned_tool_packages(tools) == first_needs(tools.map_values(|t: Seq<char>| tool_package(t))),
    decreases tools.len(),
{
    if tools.len() > 0 {
        lemma_tool_needs(tools.drop_last());
        let f = |t: Seq<char>| tool_package(t);
        assert(tools.map_values(f).drop_last() =~= tools.drop_last().map_values(f));
    }
}

proof fn lemma_package_needs(tools: Seq<Seq<char>>, deps: Seq<Seq<char>>)
    ensures
        planned_packages(tools, deps) == first_needs(package_needs(tools, deps)),
    decreases deps.len(),
{
    let f = |t: Seq<char>| tool_package(t);
    let g = |d: Seq<char>| dependency_package(d);
    if deps.len() == 0 {
        lemma_tool_needs(tools);
        assert(package_needs(tools, deps) =~= tools.map_values(f));
    } else {
        lemma_package_needs(tools, deps.drop_last());
        assert(package_needs(tools, deps).drop_last() =~= package_needs(tools, deps.drop_last()));
        assert(package_needs(tools, deps).last() == dependency_package(deps.last()));
    }
}

proof fn lemma_shim_needs(deps: Seq<Seq<char>>)
    ensures
        planned_shims(deps) == first_needs(shim_needs(deps)),
    decreases deps.len(),
{
    if deps.len() > 0 {
        lemma_shim_needs(deps.drop_last());
        assert(shim_needs(deps).drop_last() =~= shim_needs(deps.drop_last()));
    }
}

/// The packages of the plan are the Homebrew packages that the missing tools,
/// then the missing libraries, ask for, and its shims are the missing
/// libraries that the workspace sysroot stands in for; each list holds each
/// name once, exactly the names asked for, in the order in which each is
/// first asked for: of two listed names, the earlier is asked for before the
/// later is first asked for.
pub proof fn law_plan_lists(tools: Seq<Seq<char>>, deps: Seq<Seq<char>>)
    ensures
        planned_packages(tools, deps) == first_needs(package_needs(tools, deps)),
        planned_shims(deps) == first_needs(shim_needs(deps)),
        planned_packages(tools, deps).no_duplicates(),
        planned_shims(deps).no_duplicates(),
        forall|p: Seq<char>| #[trigger] planned_packages(tools, deps).contains(p) <==>
            (exists|i: int| 0 <= i < tools.len() && tool_package(#[trigger] tools[i]) == Some(p))
            || (exists|i: int| 0 <= i < deps.len() && dependency_package(#[trigger] deps[i]) == Some(p)),
        forall|d: Seq<char>| #[trigger] planned_shims(deps).contains(d) <==> deps.contains(d)
            && shim_dependency_names().contains(d),
        forall|a: int, b: int| #![trigger planned_packages(tools, deps)[a], planned_packages(tools, deps)[b]]
            0 <= a < b < planned_packages(tools, deps).len() ==> wanted_before(
                package_needs(tools, deps),
                planned_packages(tools, deps)[a],
                planned_packages(tools, deps)[b],
            ),
        forall|a: int, b: int| #![trigger planned_shims(deps)[a], planned_shims(deps)[b]]
            0 <= a < b < planned_shims(deps).len() ==> wanted_before(
                shim_needs(deps),
                planned_shims(deps)[a],
                planned_shims(deps)[b],
            ),
{
    lemma_package_needs(tools, deps);
    lemma_shim_needs(deps);
    let pn = package_needs(tools, deps);
    let sn = shim_needs(deps);
    law_first_needs(pn);
    law_first_needs(sn);
    assert forall|p: Seq<char>| #[trigger] planned_packages(tools, deps).contains(p) <==>
        (exists|i: int| 0 <= i < tools.len() && tool_package(#[trigger] tools[i]) == Some(p))
        || (exists|i: int| 0 <= i < deps.len() && dependency_package(#[trigger] deps[i]) == Some(p)) by {
        if exists|i: int| 0 <= i < pn.len() && pn[i] == Some(p) {
            let i = choose|i: int| 0 <= i < pn.len() && pn[i] == Some(p);
            if i < tools.len() {
                assert(tool_package(tools[i]) == Some(p));
            } else {
                assert(dependency_package(deps[i - tools.len()]) == Some(p));
            }
        }
        if exists|i: int| 0 <= i < tools.len() && tool_package(#[trigger] tools[i]) == Some(p) {
            let i = choose|i: int| 0 <= i < tools.len() && tool_package(#[trigger] tools[i]) == Some(p);
            assert(pn[i] == Some(p));
        }
        if exists|i: int| 0 <= i < deps.len() && dependency_package(#[trigger] deps[i]) == Some(p) {
            let i = choose|i: int| 0 <= i < deps.len() && dependency_package(#[trigger] deps[i]) == Some(p);
            assert(pn[tools.len() + i] == Some(p));
        }
    }
    assert forall|d: Seq<char>| #[trigger] planned_shims(deps).contains(d) <==> deps.contains(d)
        && shim_dependency_names().contains(d) by {
        if exists|i: int| 0 <= i < sn.len() && sn[i] == Some(d) {
            let i = choose|i: int| 0 <= i < sn.len() && sn[i] == Some(d);
            assert(deps[i] == d);
        }
        if deps.contains(d) && shim_dependency_names().contains(d) {
            let i = choose|i: int| 0 <= i < deps.len() && deps[i] == d;
            assert(sn[i] == Some(d));
        }
    }
}

/// The Homebrew package of each tool that `doctor` checks for.
pub open spec fn tool_package_table() -> Seq<(Seq<char>, Seq<char>)> {
    seq![
        ("meson"@, "meson"@),
        ("ninja"@, "ninja"@),
        ("pkg-config"@, "pkg-config"@),
        ("Xwayland"@, "xorg-server"@),
    ]
}

/// The Homebrew package of each native library that Homebrew provides.
pub open spec fn dependency_package_table() -> Seq<(Seq<char>, Seq<char>)> {
    seq![
        ("xkbcommon"@, "libxkbcommon"@),
        ("egl"@, "mesa"@),
        ("glesv2"@, "mesa"@),
        ("epoll-shim"@, "epoll-shim"@),
        ("libzip"@, "libzip"@),
        ("tomlplusplus"@, "tomlplusplus"@),
        ("libmagic"@, "libmagic"@),
        ("libheif"@, "libheif"@),
        ("pugixml"@, "pugixml"@),
        ("xcursor"@, "libxcursor"@),
        ("re2"@, "re2"@),
        ("muparser"@, "muparser"@),
    ]
}

proof fn lemma_package_tables()
    ensures
        forall|j: int| 0 <= j < tool_package_table().len() ==> tool_package(#[trigger] tool_package_table()[j].0)
            == Some(tool_package_table()[j].1),
        forall|j: int| 0 <= j < dependency_package_table().len() ==> dependency_package(
            #[trigger] dependency_package_table()[j].0,
        ) == Some(dependency_package_table()[j].1),
{
    reveal_strlit("Xwayland");
    reveal_strlit("egl");
    reveal_strlit("epoll-shim");
    reveal_strlit("gbm");
    reveal_strlit("glesv2");
    reveal_strlit("libdrm");
    reveal_strlit("libevdev");
    reveal_strlit("libheif");
    reveal_strlit("libinput");
    reveal_strlit("libmagic");
    reveal_strlit("libseat");
    reveal_strlit("libudev");
    reveal_strlit("libxcursor");
    reveal_strlit("libxkbcommon");
    reveal_strlit("libzip");
    reveal_strlit("mesa");
    reveal_strlit("meson");
    reveal_strlit("muparser");
    reveal_strlit("ninja");
    reveal_strlit("pkg-config");
    reveal_strlit("pugixml");
    reveal_strlit("re2");
    reveal_strlit("tomlplusplus");
    reveal_strlit("xcursor");
    reveal_strlit("xkbcommon");
    reveal_strlit("xorg-server");
    assert forall|j: int| 0 <= j < tool_package_table().len() implies tool_package(#[trigger] tool_package_table()[j].0)
        == Some(tool_package_table()[j].1) by {
        assert("meson"@.len() != "ninja"@.len() || "meson"@[0] != "ninja"@[0]);
    }
    assert forall|j: int| 0 <= j < dependency_package_table().len() implies dependency_package(
        #[trigger] dependency_package_table()[j].0,
    ) == Some(dependency_package_table()[j].1) by {
        assert("egl"@[0] != "re2"@[0] && "glesv2"@[0] != "libzip"@[0] && "libmagic"@[0] != "muparser"@[0]);
        assert("libheif"@[0] != "pugixml"@[0] && "libheif"@[0] != "xcursor"@[0] && "pugixml"@[0] != "xcursor"@[0]);
        let t = dependency_package_table();
        if j == 0 {
            assert(dependency_package(t[0].0) == Some(t[0].1));
        } else if j == 1 {
            assert(dependency_package(t[1].0) == Some(t[1].1));
        } else if j == 2 {
            assert(dependency_package(t[2].0) == Some(t[2].1));
        } else if j == 3 {
            assert(dependency_package(t[3].0) == Some(t[3].1));
        } else if j == 4 {
            assert(dependency_package(t[4].0) == Some(t[4].1));
        } else if j == 5 {
            assert(dependency_package(t[5].0) == Some(t[5].1));
        } else if j == 6 {
            assert(dependency_package(t[6].0) == Some(t[6].1));
        } else if j == 7 {
            assert(dependency_package(t[7].0) == Some(t[7].1));
        } else if j == 8 {
            assert(dependency_package(t[8].0) == Some(t[8].1));
        } else if j == 9 {
            assert(t[9] == ("xcursor"@, "libxcursor"@));
            assert("xcursor"@ != "libheif"@ && "xcursor"@ != "pugixml"@ && "xcursor"@ != "libmagic"@);
            assert("xcursor"@.len() == 7 && "xkbcommon"@.len() == 9 && "egl"@.len() == 3 && "glesv2"@.len() == 6);
            assert("xcursor"@ != "xkbcommon"@ && "xcursor"@ != "egl"@ && "xcursor"@ != "glesv2"@);
            assert("xcursor"@ != "epoll-shim"@ && "xcursor"@ != "libzip"@ && "xcursor"@ != "tomlplusplus"@);
            assert(dependency_package("xcursor"@) == Some("libxcursor"@));
        } else if j == 10 {
            assert(dependency_package(t[10].0) == Some(t[10].1));
        } else {
            assert(dependency_package(t[11].0) == Some(t[11].1));
        }
    }
}

/// Whatever `doctor` finds missing gets installed: each missing tool that
/// Homebrew provides puts its package in the plan (`pkg-config` for
/// pkg-config, `xorg-server` for Xwayland, ...), each missing library that
/// Homebrew provides puts its package there (`mesa` for egl and glesv2,
/// `libxkbcommon` for xkbcommon, ...), and each missing library that the
/// workspace sysroot stands in for is among its shims.
pub proof fn law_missing_needs_planned(tools: Seq<Seq<char>>, deps: Seq<Seq<char>>)
    ensures
        forall|j: int| 0 <= j < tool_package_table().len() && tools.contains(#[trigger] tool_package_table()[j].0)
            ==> planned_packages(tools, deps).contains(tool_package_table()[j].1),
        forall|j: int| 0 <= j < dependency_package_table().len() && deps.contains(
            #[trigger] dependency_package_table()[j].0,
        ) ==> planned_packages(tools, deps).contains(dependency_package_table()[j].1),
        forall|d: Seq<char>| shim_dependency_names().contains(d) && #[trigger] deps.contains(d)
            ==> planned_shims(deps).contains(d),
{
    lemma_package_tables();
    law_plan_lists(tools, deps);
    assert forall|j: int| 0 <= j < tool_package_table().len() && tools.contains(#[trigger] tool_package_table()[j].0)
        implies planned_packages(tools, deps).contains(tool_package_table()[j].1) by {
        let t = tool_package_table()[j].0;
        let i = choose|i: int| 0 <= i < tools.len() && tools[i] == t;
        assert(tool_package(tools[i]) == Some(tool_package_table()[j].1));
    }
    assert forall|j: int| 0 <= j < dependency_package_table().len() && deps.contains(
        #[trigger] dependency_package_table()[j].0,
    ) implies planned_packages(tools, deps).contains(dependency_package_table()[j].1) by {
        let d = dependency_package_table()[j].0;
        let i = choose|i: int| 0 <= i < deps.len() && deps[i] == d;
        assert(dependency_package(deps[i]) == Some(dependency_package_table()[j].1));
    }
}

} // verus!
