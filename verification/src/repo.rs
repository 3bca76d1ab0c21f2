//! The workspace of registered repositories: where each one's files lie, and
//! the decisions taken on what those files hold.
use vstd::prelude::*;
use crate::adapter::{AdapterManifest, BuildSystem, ManifestView, manifest_from_toml};
use crate::env_map::{text_less, text_less_exec, lemma_text_less_total, lemma_text_less_irreflexive};
use crate::runner::{join_path, path_join};
use crate::render::{assign_line, assignment, join_lines};
use crate::text::{
    CharSet, append_str, chars_of, string_from, text_of, trim, trim_span, string_of, unlines,
};

verus! {

/// A registered repository: its id, its git URL and the revision to check out.
#[derive(Debug, Clone, PartialEq, Eq)]
pub struct RepoSpec {
    pub id: String,
    pub url: String,
    pub rev: Option<String>,
}

impl RepoSpec {
    pub fn new(id: &str, url: &str, rev: Option<String>) -> (r: Self)
        ensures
            r.id@ == id@,
            r.url@ == url@,
            r.rev == rev,
    {
        RepoSpec { id: text_of(id), url: text_of(url), rev }
    }
}

/// The directory under which repositories, overrides and artifacts live.
#[derive(Debug, Clone, PartialEq, Eq)]
pub struct RepoWorkspace {
    root: String,
}

impl RepoWorkspace {
    pub closed spec fn spec_root(&self) -> Seq<char> {
        self.root@
    }

    pub fn new(root: &str) -> (r: Self)
        ensures
            r.spec_root() == root@,
    {
        RepoWorkspace { root: text_of(root) }
    }

    /// The workspace directory.
    pub fn root(&self) -> (r: &str)
        ensures
            r@ == self.spec_root(),
    {
        self.root.as_str()
    }

    /// `<root>/repos/<id>`.
    pub fn repo_root(&self, spec: &RepoSpec) -> (r: String)
        ensures
            r@ == path_join(path_join(self.spec_root(), "repos"@), spec.id@),
    {
        let repos = join_path(self.root.as_str(), "repos");
        join_path(repos.as_str(), spec.id.as_str())
    }

    /// `<root>/repos/<id>/source`: the checkout.
    pub fn source_root(&self, spec: &RepoSpec) -> (r: String)
        ensures
            r@ == path_join(path_join(path_join(self.spec_root(), "repos"@), spec.id@), "source"@),
    {
        join_path(self.repo_root(spec).as_str(), "source")
    }

    /// `<root>/repos/<id>/artifacts`: launch requests, statuses and action records.
    pub fn artifacts_root(&self, spec: &RepoSpec) -> (r: String)
        ensures
            r@ == path_join(path_join(path_join(self.spec_root(), "repos"@), spec.id@), "artifacts"@),
    {
        join_path(self.repo_root(spec).as_str(), "artifacts")
    }

    /// `<root>/overrides/<id>`: the maintainers' manifest and patches for a repository.
    pub fn override_root(&self, spec: &RepoSpec) -> (r: String)
        ensures
            r@ == path_join(path_join(self.spec_root(), "overrides"@), spec.id@),
    {
        let overrides = join_path(self.root.as_str(), "overrides");
        join_path(overrides.as_str(), spec.id.as_str())
    }

    /// `<root>/overrides/<id>/macland.toml`.
    pub fn override_manifest_path(&self, spec: &RepoSpec) -> (r: String)
        ensures
            r@ == path_join(path_join(path_join(self.spec_root(), "overrides"@), spec.id@), "macland.toml"@),
    {
        join_path(self.override_root(spec).as_str(), "macland.toml")
    }

    /// `<root>/overrides/<id>/patches`.
    pub fn override_patches_root(&self, spec: &RepoSpec) -> (r: String)
        ensures
            r@ == path_join(path_join(path_join(self.spec_root(), "overrides"@), spec.id@), "patches"@),
    {
        join_path(self.override_root(spec).as_str(), "patches")
    }

    /// The manifest template a newly registered repository gets.
    pub fn adapter_template(spec: &RepoSpec) -> (r: String)
        ensures
            r@ == template_text(spec.id@, spec.url@, match spec.rev {
                Some(v) => v@,
                None => "main"@,
            }),
    {
        let rev = match &spec.rev {
            Some(v) => v.as_str(),
            None => "main",
        };
        let mut ls: Vec<String> = Vec::new();
        ls.push(assignment("id", between_quotes(spec.id.as_str()).as_str()));
        ls.push(assignment("repo", between_quotes(spec.url.as_str()).as_str()));
        ls.push(assignment("rev", between_quotes(rev).as_str()));
        ls.push(assignment("build_system", "\"custom\""));
        ls.push(assignment("configure", "[]"));
        ls.push(assignment("build", "[]"));
        ls.push(assignment("test", "[]"));
        ls.push(assignment("entrypoint", "[]"));
        ls.push(assignment("patch_policy", "\"prefer-none\""));
        ls.push(assignment("sdk_features", "[]"));
        ls.push(assignment("protocol_expectations", "[]"));
        ls.push(String::new());
        ls.push(text_of("[env]"));
        let ghost want = template_lines(spec.id@, spec.url@, rev@);
        assert(ls.deep_view() =~= want);
        join_lines(&ls)
    }
}

/// `s` between double quotes, as it is.
pub open spec fn raw_quoted(s: Seq<char>) -> Seq<char> {
    seq!['"'] + s + seq!['"']
}

/// `s` between double quotes (see `raw_quoted`).
fn between_quotes(s: &str) -> (r: String)
    ensures
        r@ == raw_quoted(s@),
{
    let mut out = chars_of("\"");
    append_str(&mut out, s);
    append_str(&mut out, "\"");
    proof {
        reveal_strlit("\"");
    }
    string_from(&out)
}

/// The lines of the manifest template: the identity of the repository, the
/// custom build system with no command, the `prefer-none` patch policy and an
/// empty `[env]` section.
pub open spec fn template_lines(id: Seq<char>, url: Seq<char>, rev: Seq<char>) -> Seq<Seq<char>> {
    seq![
        assign_line("id"@, raw_quoted(id)),
        assign_line("repo"@, raw_quoted(url)),
        assign_line("rev"@, raw_quoted(rev)),
        assign_line("build_system"@, "\"custom\""@),
        assign_line("configure"@, "[]"@),
        assign_line("build"@, "[]"@),
        assign_line("test"@, "[]"@),
        assign_line("entrypoint"@, "[]"@),
        assign_line("patch_policy"@, "\"prefer-none\""@),
        assign_line("sdk_features"@, "[]"@),
        assign_line("protocol_expectations"@, "[]"@),
        seq![],
        "[env]"@,
    ]
}

/// The text of the manifest template: its lines, each ended by `\n`.
pub open spec fn template_text(id: Seq<char>, url: Seq<char>, rev: Seq<char>) -> Seq<char> {
    unlines(template_lines(id, url, rev))
}

/// A manifest that still is the template: a custom build system and no command.
pub open spec fn uninitialized(m: ManifestView) -> bool {
    m.build_system == BuildSystem::Custom && m.configure.len() == 0 && m.build.len() == 0
        && m.test.len() == 0 && m.entrypoint.len() == 0
}

/// Whether `manifest` still is the template (see `uninitialized`).
pub fn is_uninitialized_manifest(manifest: &AdapterManifest) -> (b: bool)
    ensures
        b == uninitialized(manifest@),
{
    manifest.build_system == BuildSystem::Custom && manifest.configure.len() == 0
        && manifest.build.len() == 0 && manifest.test.len() == 0 && manifest.entrypoint.len() == 0
}

/// Which manifest `load_manifest` takes, given the text of the repository's
/// own manifest (when it can be read) and whether an override manifest exists:
/// the repository's, unless it is still the template and an override exists
/// (`Ok(None)`: the override is to be read); a repository manifest that does
/// not parse is an error.
pub open spec fn manifest_choice(repo_text: Option<Seq<char>>, override_exists: bool) -> Result<Option<ManifestView>, Seq<char>> {
    match repo_text {
        Some(t) => match manifest_from_toml(t) {
            Ok(m) => if !uninitialized(m) || !override_exists {
                Ok(Some(m))
            } else {
                Ok(None)
            },
            Err(e) => Err(e),
        },
        None => Ok(None),
    }
}

/// Which manifest to load (see `manifest_choice`).
pub fn choose_manifest(repo_text: Option<&str>, override_exists: bool) -> (r: Result<Option<AdapterManifest>, String>)
    ensures
        match r {
            Ok(Some(m)) => manifest_choice(crate::host::opt_str(repo_text), override_exists) == Ok::<Option<ManifestView>, Seq<char>>(Some(m@)),
            Ok(None) => manifest_choice(crate::host::opt_str(repo_text), override_exists) == Ok::<Option<ManifestView>, Seq<char>>(None),
            Err(e) => manifest_choice(crate::host::opt_str(repo_text), override_exists) == Err::<Option<ManifestView>, Seq<char>>(e@),
        },
{
    match repo_text {
        Some(t) => match AdapterManifest::from_toml(t) {
            Ok(m) => if !is_uninitialized_manifest(&m) || !override_exists {
                Ok(Some(m))
            } else {
                Ok(None)
            },
            Err(e) => Err(e),
        },
        None => Ok(None),
    }
}

/// Whether `seed_manifest_from_override` writes the override over the
/// repository's manifest: when there is none yet, or, when asked to, over one
/// that parses and still is the template.
pub open spec fn seed_wanted(current: Option<Seq<char>>, overwrite_uninitialized: bool) -> bool {
    match current {
        None => true,
        Some(t) => overwrite_uninitialized && match manifest_from_toml(t) {
            Ok(m) => uninitialized(m),
            Err(_) => false,
        },
    }
}

/// Whether to seed the repository manifest from the override (see `seed_wanted`).
pub fn should_seed(current: Option<&str>, overwrite_uninitialized: bool) -> (b: bool)
    ensures
        b == seed_wanted(crate::host::opt_str(current), overwrite_uninitialized),
{
    match current {
        None => true,
        Some(t) => {
            if !overwrite_uninitialized {
                false
            } else {
                match AdapterManifest::from_toml(t) {
                    Ok(m) => is_uninitialized_manifest(&m),
                    Err(_) => false,
                }
            }
        },
    }
}

/// The spec of a registered repository read back from its `.repo-url` and
/// `.repo-rev` files, each trimmed.
pub fn repo_spec_from(repo_id: &str, url_text: &str, rev_text: Option<&str>) -> (r: RepoSpec)
    ensures
        r.id@ == repo_id@,
        r.url@ == trim(url_text@),
        r.rev matches Some(v) <==> rev_text is Some,
        r.rev matches Some(v) ==> v@ == trim(rev_text.unwrap()@),
{
    let u = chars_of(url_text);
    let (a, b) = trim_span(&u, 0, u.len(), CharSet::Space);
    assert(u@.subrange(0, u@.len() as int) =~= u@);
    let url = string_of(&u, a, b);
    let rev = match rev_text {
        Some(t) => {
            let v = chars_of(t);
            let (c, d) = trim_span(&v, 0, v.len(), CharSet::Space);
            assert(v@.subrange(0, v@.len() as int) =~= v@);
            Some(string_of(&v, c, d))
        },
        None => None,
    };
    RepoSpec { id: text_of(repo_id), url, rev }
}

/// What to do with one override patch.
#[derive(Debug, Clone, Copy, PartialEq, Eq, Structural)]
pub enum PatchAction {
    /// It is applied already (it reverses cleanly): leave it.
    Skip,
    /// It applies cleanly: apply it.
    Apply,
    /// It neither applies nor reverses: fail.
    Fail,
}

/// What to do with a patch, from whether `git apply --reverse --check` and
/// `git apply --check` succeed.
pub fn patch_action(reverse_applies: bool, applies: bool) -> (r: PatchAction)
    ensures
        r == (if reverse_applies {
            PatchAction::Skip
        } else if applies {
            PatchAction::Apply
        } else {
            PatchAction::Fail
        }),
{
    if reverse_applies {
        PatchAction::Skip
    } else if applies {
        PatchAction::Apply
    } else {
        PatchAction::Fail
    }
}

/// The index of the last `.` of `s`.
pub open spec fn last_dot(s: Seq<char>) -> Option<int>
    decreases s.len(),
{
    if s.len() == 0 {
        None
    } else if s.last() == '.' {
        Some(s.len() - 1)
    } else {
        last_dot(s.drop_last())
    }
}

/// `Path::extension` of a file name: what follows its last `.`; nothing when
/// it has no `.`, when its only `.` leads it, or when it is `..`.
pub open spec fn extension(name: Seq<char>) -> Option<Seq<char>> {
    if name == ".."@ {
        None
    } else {
        match last_dot(name) {
            Some(i) => if i > 0 {
                Some(name.skip(i + 1))
            } else {
                None
            },
            None => None,
        }
    }
}

/// The names among `names` whose extension is `patch`, in order.
pub open spec fn patch_names(names: Seq<Seq<char>>) -> Seq<Seq<char>>
    decreases names.len(),
{
    if names.len() == 0 {
        seq![]
    } else if extension(names.last()) == Some("patch"@) {
        patch_names(names.drop_last()).push(names.last())
    } else {
        patch_names(names.drop_last())
    }
}

/// No name comes after one that it precedes in `str` order.
pub open spec fn ascending(s: Seq<Seq<char>>) -> bool {
    forall|i: int, j: int| 0 <= i < j < s.len() ==> !text_less(#[trigger] s[j], #[trigger] s[i])
}

/// The extension of a file name (see `extension`).
fn extension_of(name: &Vec<char>) -> (r: Option<Vec<char>>)
    ensures
        match r {
            Some(e) => extension(name@) == Some(e@),
            None => extension(name@) is None,
        },
{
    proof {
        reveal_strlit("..");
    }
    if crate::text::same_text(name, &chars_of("..")) {
        return None;
    }
    let mut i = name.len();
    assert(name@.take(i as int) =~= name@);
    while i > 0
        invariant
            i <= name@.len(),
            name@ != ".."@,
            last_dot(name@) == last_dot(name@.take(i as int)),
        decreases i,
    {
        assert(name@.take(i as int).drop_last() =~= name@.take(i - 1));
        if name[i - 1] == '.' {
            if i - 1 > 0 {
                let e = crate::text::copy_span(name, i, name.len());
                assert(e@ =~= name@.skip(i as int));
                return Some(e);
            } else {
                return None;
            }
        }
        i -= 1;
    }
    None
}

/// The override patches to apply, from the names of the files in the patches
/// directory: those with the extension `patch`, in ascending order of names.
pub fn patch_files(names: &Vec<String>) -> (r: Vec<String>)
    ensures
        ascending(r.deep_view()),
        r.deep_view().to_multiset() == patch_names(names.deep_view()).to_multiset(),
{
    broadcast use vstd::seq_lib::group_to_multiset_ensures;
    let ghost ns = names.deep_view();
    let mut r: Vec<String> = Vec::new();
    let mut k: usize = 0;
    assert(ns.take(0) =~= Seq::<Seq<char>>::empty());
    assert(r.deep_view() =~= Seq::<Seq<char>>::empty());
    while k < names.len()
        invariant
            k <= names@.len(),
            ns == names.deep_view(),
            ascending(r.deep_view()),
            r.deep_view().to_multiset() == patch_names(ns.take(k as int)).to_multiset(),
        decreases names.len() - k,
    {
        assert(ns.take(k + 1).drop_last() =~= ns.take(k as int));
        assert(ns[k as int] == names@[k as int]@);
        let name = chars_of(names[k].as_str());
        let is_patch = match extension_of(&name) {
            Some(e) => crate::text::same_text(&e, &chars_of("patch")),
            None => false,
        };
        if is_patch {
            insert_sorted(&mut r, names[k].clone());
            assert(patch_names(ns.take(k + 1)) == patch_names(ns.take(k as int)).push(ns[k as int]));
            proof {
                let p = patch_names(ns.take(k as int));
                p.to_multiset_ensures();
                assert(p.push(ns[k as int]).to_multiset() =~= p.to_multiset().insert(ns[k as int]));
            }
        }
        k += 1;
    }
    assert(ns.take(names@.len() as int) =~= ns);
    r
}

/// Inserts `x` after the names that do not follow it.
fn insert_sorted(r: &mut Vec<String>, x: String)
    requires
        ascending(old(r).deep_view()),
    ensures
        ascending(final(r).deep_view()),
        final(r).deep_view().to_multiset() == old(r).deep_view().to_multiset().insert(x@),
{
    broadcast use vstd::seq_lib::group_to_multiset_ensures;
    let xs = chars_of(x.as_str());
    let mut p: usize = 0;
    let mut found = false;
    while p < r.len() && !found
        invariant
            p <= r@.len(),
            xs@ == x@,
            found ==> p < r@.len() && text_less(x@, r.deep_view()[p as int]),
            forall|i: int| 0 <= i < p ==> !text_less(x@, #[trigger] r.deep_view()[i]),
        decreases r.len() - p, if found { 0int } else { 1int },
    {
        assert(r.deep_view()[p as int] == r@[p as int]@);
        if text_less_exec(&xs, &chars_of(r[p].as_str())) {
            found = true;
        } else {
            p += 1;
        }
    }
    let ghost old_v = r.deep_view();
    proof {
        if p < r@.len() {
            assert(old_v[p as int] == r@[p as int]@);
        }
    }
    r.insert(p, x);
    let ghost new_v = r.deep_view();
    assert(new_v =~= old_v.insert(p as int, x@));
    proof {
        assert forall|i: int, j: int| 0 <= i < j < new_v.len() implies !text_less(#[trigger] new_v[j], #[trigger] new_v[i]) by {
            if j < p {
                assert(new_v[i] == old_v[i] && new_v[j] == old_v[j]);
            } else if j == p {
                assert(new_v[i] == old_v[i]);
                lemma_text_less_total(x@, old_v[i]);
            } else if i > p {
                assert(new_v[i] == old_v[i - 1] && new_v[j] == old_v[j - 1]);
            } else if i == p {
                // x precedes old_v[p] strictly, and old_v[p] does not follow old_v[j - 1]
                assert(new_v[j] == old_v[j - 1]);
                if text_less(old_v[j - 1], x@) {
                    assert(text_less(x@, old_v[p as int]));
                    if j - 1 > p {
                        assert(!text_less(old_v[j - 1], old_v[p as int]));
                    }
                    crate::env_map::lemma_text_less_transitive(old_v[j - 1], x@, old_v[p as int]);
                    if j - 1 == p {
                        lemma_text_less_irreflexive(old_v[p as int]);
                    }
                }
            } else {
                assert(new_v[i] == old_v[i] && new_v[j] == old_v[j - 1]);
            }
        }
        assert(new_v.remove(p as int) =~= old_v);
        assert(new_v[p as int] == x@);
        new_v.to_multiset_ensures();
        assert(new_v.contains(x@));
        broadcast use vstd::multiset::group_multiset_axioms;
        assert(new_v.to_multiset() =~= old_v.to_multiset().insert(x@));
    }
}


/// A URL or revision that the workspace wrote to `.repo-url` or `.repo-rev`
/// reads back unchanged through `repo_spec_from`, which trims it, wherever it
/// neither starts nor ends with whitespace.
pub proof fn law_spec_text_reads_back(t: Seq<char>)
    requires
        t.len() > 0 ==> !crate::text::is_space(t[0]) && !crate::text::is_space(t.last()),
    ensures
        trim(t) == t,
{
    crate::text::lemma_trim_around(seq![], t, seq![], CharSet::Space);
    assert(seq![] + t + seq![] =~= t);
}

} // verus!
