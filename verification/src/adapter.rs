//! The `macland.toml` adapter manifest: its model, its reader and its writer.
use vstd::prelude::*;
use crate::env_map::EnvMap;
use crate::text::{
    CharSet, append_str, chars_of, copy_span, find_span, line_spans, lines, push_span,
    same_text, span, split_by, split_once_by, split_spans, string_from, string_of, trim,
    trim_by, trim_span,
};

verus! {

/// The build systems an adapter can name.
#[derive(Debug, Clone, Copy, PartialEq, Eq, Structural)]
pub enum BuildSystem {
    Meson,
    CMake,
    Cargo,
    Autotools,
    Make,
    Custom,
}

/// The name of a build system in a manifest.
pub open spec fn build_system_name(b: BuildSystem) -> Seq<char> {
    match b {
        BuildSystem::Meson => "meson"@,
        BuildSystem::CMake => "cmake"@,
        BuildSystem::Cargo => "cargo"@,
        BuildSystem::Autotools => "autotools"@,
        BuildSystem::Make => "make"@,
        BuildSystem::Custom => "custom"@,
    }
}

/// The build system a manifest value names, if any.
pub open spec fn build_system_named(s: Seq<char>) -> Option<BuildSystem> {
    if s == "meson"@ {
        Some(BuildSystem::Meson)
    } else if s == "cmake"@ {
        Some(BuildSystem::CMake)
    } else if s == "cargo"@ {
        Some(BuildSystem::Cargo)
    } else if s == "autotools"@ {
        Some(BuildSystem::Autotools)
    } else if s == "make"@ {
        Some(BuildSystem::Make)
    } else if s == "custom"@ {
        Some(BuildSystem::Custom)
    } else {
        None
    }
}

impl BuildSystem {
    /// The build system named `value`, which must be one of the six names exactly.
    pub fn parse(value: &str) -> (r: Option<Self>)
        ensures
            r == build_system_named(value@),
    {
        let v = chars_of(value);
        if same_text(&v, &chars_of("meson")) {
            Some(BuildSystem::Meson)
        } else if same_text(&v, &chars_of("cmake")) {
            Some(BuildSystem::CMake)
        } else if same_text(&v, &chars_of("cargo")) {
            Some(BuildSystem::Cargo)
        } else if same_text(&v, &chars_of("autotools")) {
            Some(BuildSystem::Autotools)
        } else if same_text(&v, &chars_of("make")) {
            Some(BuildSystem::Make)
        } else if same_text(&v, &chars_of("custom")) {
            Some(BuildSystem::Custom)
        } else {
            None
        }
    }
}

/// What a manifest holds, as mathematical values.
pub struct ManifestView {
    pub id: Seq<char>,
    pub repo: Seq<char>,
    pub rev: Seq<char>,
    pub build_system: BuildSystem,
    pub configure: Seq<Seq<char>>,
    pub build: Seq<Seq<char>>,
    pub test: Seq<Seq<char>>,
    pub entrypoint: Seq<Seq<char>>,
    pub env: Map<Seq<char>, Seq<char>>,
    pub sdk_features: Seq<Seq<char>>,
    pub protocol_expectations: Seq<Seq<char>>,
    pub patch_policy: Seq<char>,
}

/// An adapter manifest (`macland.toml`).
#[derive(Debug, Clone, PartialEq, Eq)]
pub struct AdapterManifest {
    pub id: String,
    pub repo: String,
    pub rev: String,
    pub build_system: BuildSystem,
    pub configure: Vec<String>,
    pub build: Vec<String>,
    pub test: Vec<String>,
    pub entrypoint: Vec<String>,
    pub env: EnvMap,
    pub sdk_features: Vec<String>,
    pub protocol_expectations: Vec<String>,
    pub patch_policy: String,
}

impl View for AdapterManifest {
    type V = ManifestView;

    open spec fn view(&self) -> ManifestView {
        ManifestView {
            id: self.id@,
            repo: self.repo@,
            rev: self.rev@,
            build_system: self.build_system,
            configure: self.configure.deep_view(),
            build: self.build.deep_view(),
            test: self.test.deep_view(),
            entrypoint: self.entrypoint.deep_view(),
            env: self.env@,
            sdk_features: self.sdk_features.deep_view(),
            protocol_expectations: self.protocol_expectations.deep_view(),
            patch_policy: self.patch_policy@,
        }
    }
}

/// A quoted value with its quotes removed (`trim_matches('"')`).
pub open spec fn unquote(v: Seq<char>) -> Seq<char> {
    trim_by(v, CharSet::One('"'))
}

/// The items of an array value such as `["a", "b"]`.
pub open spec fn array_items(value: Seq<char>) -> Seq<Seq<char>> {
    let inner = trim_by(value, CharSet::Brackets);
    if trim(inner).len() == 0 {
        seq![]
    } else {
        split_by(inner, CharSet::One(',')).map_values(|item: Seq<char>| unquote(trim(item)))
    }
}

/// Whether a value is written as an array: it starts with `[` and ends with `]`.
pub open spec fn is_bracketed(v: Seq<char>) -> bool {
    v.len() > 0 && v[0] == '[' && v.last() == ']'
}

/// What the reader has gathered after some lines.
pub struct TomlState {
    /// The name of the current `[section]`.
    pub section: Seq<char>,
    /// Every scalar assignment outside `[env]`, in order.
    pub scalars: Seq<(Seq<char>, Seq<char>)>,
    /// Every array assignment outside `[env]`, in order.
    pub arrays: Seq<(Seq<char>, Seq<Seq<char>>)>,
    /// The variables of `[env]`.
    pub env: Map<Seq<char>, Seq<char>>,
}

pub open spec fn toml_start() -> TomlState {
    TomlState {
        section: seq![],
        scalars: seq![],
        arrays: seq![],
        env: Map::empty(),
    }
}

/// What one line does to the reader: blank lines and `#` comments are skipped,
/// `[name]` opens a section, `key = value` assigns; any other line is an error.
pub open spec fn toml_step(st: TomlState, raw: Seq<char>) -> Result<TomlState, Seq<char>> {
    let line = trim(raw);
    if line.len() == 0 || line[0] == '#' {
        Ok(st)
    } else if line[0] == '[' && line.last() == ']' {
        Ok(TomlState { section: trim_by(line, CharSet::Brackets), ..st })
    } else {
        match split_once_by(line, CharSet::One('=')) {
            None => Err("invalid line: "@ + line),
            Some((k, v)) => {
                let key = trim(k);
                let value = trim(v);
                if st.section == "env"@ {
                    Ok(TomlState { env: st.env.insert(key, unquote(value)), ..st })
                } else if is_bracketed(value) {
                    Ok(TomlState { arrays: st.arrays.push((key, array_items(value))), ..st })
                } else {
                    Ok(TomlState { scalars: st.scalars.push((key, unquote(value))), ..st })
                }
            },
        }
    }
}

/// The reader's state after the lines `ls`, or the first error.
pub open spec fn toml_run(st: TomlState, ls: Seq<Seq<char>>) -> Result<TomlState, Seq<char>>
    decreases ls.len(),
{
    if ls.len() == 0 {
        Ok(st)
    } else {
        match toml_run(st, ls.drop_last()) {
            Ok(s) => toml_step(s, ls.last()),
            Err(e) => Err(e),
        }
    }
}

/// The value of the last assignment to `key`.
pub open spec fn last_value<V>(list: Seq<(Seq<char>, V)>, key: Seq<char>) -> Option<V>
    decreases list.len(),
{
    if list.len() == 0 {
        None
    } else if list.last().0 == key {
        Some(list.last().1)
    } else {
        last_value(list.drop_last(), key)
    }
}

pub open spec fn required<V>(list: Seq<(Seq<char>, V)>, key: Seq<char>) -> Result<V, Seq<char>> {
    match last_value(list, key) {
        Some(v) => Ok(v),
        None => Err("missing "@ + key),
    }
}

/// The manifest that the text `input` describes, or the error the reader reports.
pub open spec fn manifest_from_toml(input: Seq<char>) -> Result<ManifestView, Seq<char>> {
    match toml_run(toml_start(), lines(input)) {
        Err(e) => Err(e),
        Ok(st) => match last_value(st.scalars, "build_system"@) {
            None => Err("missing build_system"@),
            Some(name) => match build_system_named(name) {
                None => Err("unsupported build_system: "@ + name),
                Some(b) => manifest_fields(st, b),
            },
        },
    }
}

/// The required fields, taken in the order the reader takes them.
pub open spec fn manifest_fields(st: TomlState, b: BuildSystem) -> Result<ManifestView, Seq<char>> {
    let id = required(st.scalars, "id"@);
    let repo = required(st.scalars, "repo"@);
    let rev = required(st.scalars, "rev"@);
    let configure = required(st.arrays, "configure"@);
    let build = required(st.arrays, "build"@);
    let test = required(st.arrays, "test"@);
    let entrypoint = required(st.arrays, "entrypoint"@);
    let sdk_features = required(st.arrays, "sdk_features"@);
    let protocol_expectations = required(st.arrays, "protocol_expectations"@);
    let patch_policy = required(st.scalars, "patch_policy"@);
    if id is Err {
        Err(id->Err_0)
    } else if repo is Err {
        Err(repo->Err_0)
    } else if rev is Err {
        Err(rev->Err_0)
    } else if configure is Err {
        Err(configure->Err_0)
    } else if build is Err {
        Err(build->Err_0)
    } else if test is Err {
        Err(test->Err_0)
    } else if entrypoint is Err {
        Err(entrypoint->Err_0)
    } else if sdk_features is Err {
        Err(sdk_features->Err_0)
    } else if protocol_expectations is Err {
        Err(protocol_expectations->Err_0)
    } else if patch_policy is Err {
        Err(patch_policy->Err_0)
    } else {
        Ok(
            ManifestView {
                id: id->Ok_0,
                repo: repo->Ok_0,
                rev: rev->Ok_0,
                build_system: b,
                configure: configure->Ok_0,
                build: build->Ok_0,
                test: test->Ok_0,
                entrypoint: entrypoint->Ok_0,
                env: st.env,
                sdk_features: sdk_features->Ok_0,
                protocol_expectations: protocol_expectations->Ok_0,
                patch_policy: patch_policy->Ok_0,
            },
        )
    }
}

pub open spec fn scalars_view(v: Seq<(Vec<char>, Vec<char>)>) -> Seq<(Seq<char>, Seq<char>)> {
    v.map_values(|e: (Vec<char>, Vec<char>)| (e.0@, e.1@))
}

pub open spec fn arrays_view(v: Seq<(Vec<char>, Vec<String>)>) -> Seq<(Seq<char>, Seq<Seq<char>>)> {
    v.map_values(|e: (Vec<char>, Vec<String>)| (e.0@, e.1.deep_view()))
}

/// The unquoted items of the array value in the span `[lo, hi)` of `s`.
fn parse_array(s: &Vec<char>, lo: usize, hi: usize) -> (r: Vec<String>)
    requires
        lo <= hi <= s@.len(),
    ensures
        r.deep_view() == array_items(s@.subrange(lo as int, hi as int)),
{
    let ghost value = s@.subrange(lo as int, hi as int);
    let (a, b) = trim_span(s, lo, hi, CharSet::Brackets);
    let (c, d) = trim_span(s, a, b, CharSet::Space);
    let mut r: Vec<String> = Vec::new();
    if c == d {
        assert(r.deep_view() =~= array_items(value));
        return r;
    }
    let pieces = split_spans(s, a, b, CharSet::One(','));
    let ghost items = split_by(s@.subrange(a as int, b as int), CharSet::One(','));
    let mut k: usize = 0;
    while k < pieces.len()
        invariant
            k <= pieces@.len(),
            lo <= a <= b <= hi <= s@.len(),
            pieces@.map_values(|p: (usize, usize)| span(s@, p)) == items,
            forall|j: int| 0 <= j < pieces@.len() ==> a <= (#[trigger] pieces@[j]).0 <= pieces@[j].1 <= b,
            r.deep_view() == items.take(k as int).map_values(|item: Seq<char>| unquote(trim(item))),
        decreases pieces.len() - k,
    {
        let (p, q) = pieces[k];
        assert(span(s@, pieces@[k as int]) == items[k as int]);
        let (t0, t1) = trim_span(s, p, q, CharSet::Space);
        let (u0, u1) = trim_span(s, t0, t1, CharSet::One('"'));
        let ghost before = r.deep_view();
        r.push(string_of(s, u0, u1));
        assert(r.deep_view() =~= before.push(unquote(trim(items[k as int]))));
        assert(items.take(k + 1).map_values(|item: Seq<char>| unquote(trim(item))) =~= items.take(
            k as int,
        ).map_values(|item: Seq<char>| unquote(trim(item))).push(unquote(trim(items[k as int]))));
        k += 1;
    }
    assert(items.take(pieces@.len() as int) =~= items);
    r
}

/// The index of the last entry of `list` named `key`.
fn find_last_scalar(list: &Vec<(Vec<char>, Vec<char>)>, key: &Vec<char>) -> (r: Option<usize>)
    ensures
        match r {
            Some(i) => i < list@.len() && last_value(scalars_view(list@), key@) == Some(
                list@[i as int].1@,
            ),
            None => last_value(scalars_view(list@), key@) is None,
        },
{
    let mut i = list.len();
    assert(list@.take(i as int) =~= list@);
    while i > 0
        invariant
            i <= list@.len(),
            last_value(scalars_view(list@), key@) == last_value(
                scalars_view(list@.take(i as int)),
                key@,
            ),
        decreases i,
    {
        assert(scalars_view(list@.take(i as int)).drop_last() =~= scalars_view(
            list@.take(i - 1),
        ));
        if same_text(&list[i - 1].0, key) {
            return Some(i - 1);
        }
        i -= 1;
    }
    assert(scalars_view(list@.take(0)) =~= Seq::<(Seq<char>, Seq<char>)>::empty());
    None
}

/// The index of the last entry of `list` named `key`.
fn find_last_array(list: &Vec<(Vec<char>, Vec<String>)>, key: &Vec<char>) -> (r: Option<usize>)
    ensures
        match r {
            Some(i) => i < list@.len() && last_value(arrays_view(list@), key@) == Some(
                list@[i as int].1.deep_view(),
            ),
            None => last_value(arrays_view(list@), key@) is None,
        },
{
    let mut i = list.len();
    assert(list@.take(i as int) =~= list@);
    while i > 0
        invariant
            i <= list@.len(),
            last_value(arrays_view(list@), key@) == last_value(
                arrays_view(list@.take(i as int)),
                key@,
            ),
        decreases i,
    {
        assert(arrays_view(list@.take(i as int)).drop_last() =~= arrays_view(list@.take(i - 1)));
        if same_text(&list[i - 1].0, key) {
            return Some(i - 1);
        }
        i -= 1;
    }
    assert(arrays_view(list@.take(0)) =~= Seq::<(Seq<char>, Seq<Seq<char>>)>::empty());
    None
}

/// The last scalar assigned to `key`, or the error `missing <key>`.
fn take_scalar(list: &Vec<(Vec<char>, Vec<char>)>, key: &str) -> (r: Result<String, String>)
    ensures
        match r {
            Ok(v) => required(scalars_view(list@), key@) == Ok::<Seq<char>, Seq<char>>(v@),
            Err(e) => required(scalars_view(list@), key@) == Err::<Seq<char>, Seq<char>>(e@),
        },
{
    let k = chars_of(key);
    match find_last_scalar(list, &k) {
        Some(i) => Ok(string_from(&list[i].1)),
        None => {
            let mut msg = chars_of("missing ");
            append_str(&mut msg, key);
            Err(string_from(&msg))
        },
    }
}

/// The last array assigned to `key`, or the error `missing <key>`.
fn take_array(list: &Vec<(Vec<char>, Vec<String>)>, key: &str) -> (r: Result<Vec<String>, String>)
    ensures
        match r {
            Ok(v) => required(arrays_view(list@), key@) == Ok::<Seq<Seq<char>>, Seq<char>>(
                v.deep_view(),
            ),
            Err(e) => required(arrays_view(list@), key@) == Err::<Seq<Seq<char>>, Seq<char>>(
                e@,
            ),
        },
{
    let k = chars_of(key);
    match find_last_array(list, &k) {
        Some(i) => Ok(list[i].1.clone()),
        None => {
            let mut msg = chars_of("missing ");
            append_str(&mut msg, key);
            Err(string_from(&msg))
        },
    }
}

impl AdapterManifest {
    /// Reads a manifest from the text of a `macland.toml`.
    #[verifier::rlimit(100)]
    #[verifier::spinoff_prover]
    pub fn from_toml(input: &str) -> (r: Result<Self, String>)
        ensures
            match r {
                Ok(m) => manifest_from_toml(input@) == Ok::<ManifestView, Seq<char>>(m@),
                Err(e) => manifest_from_toml(input@) == Err::<ManifestView, Seq<char>>(e@),
            },
    {
        let text = chars_of(input);
        let spans = line_spans(&text);
        let ghost ls = lines(text@);
        let env_name = chars_of("env");
        let mut section: Vec<char> = Vec::new();
        let mut scalars: Vec<(Vec<char>, Vec<char>)> = Vec::new();
        let mut arrays: Vec<(Vec<char>, Vec<String>)> = Vec::new();
        let mut env = EnvMap::new();
        let mut k: usize = 0;
        assert(ls.take(0) =~= Seq::<Seq<char>>::empty());
        assert(scalars_view(scalars@) =~= Seq::<(Seq<char>, Seq<char>)>::empty());
        assert(arrays_view(arrays@) =~= Seq::<(Seq<char>, Seq<Seq<char>>)>::empty());
        while k < spans.len()
            invariant
                k <= spans@.len(),
                text@ == input@,
                ls == lines(text@),
                spans@.map_values(|p: (usize, usize)| span(text@, p)) == ls,
                forall|j: int| 0 <= j < spans@.len() ==> (#[trigger] spans@[j]).0 <= spans@[j].1 <= text@.len(),
                env_name@ == "env"@,
                toml_run(toml_start(), ls.take(k as int)) == Ok::<TomlState, Seq<char>>(
                    TomlState {
                        section: section@,
                        scalars: scalars_view(scalars@),
                        arrays: arrays_view(arrays@),
                        env: env@,
                    },
                ),
            decreases spans.len() - k,
        {
            let ghost st = TomlState {
                section: section@,
                scalars: scalars_view(scalars@),
                arrays: arrays_view(arrays@),
                env: env@,
            };
            let (lo, hi) = spans[k];
            let ghost raw = span(text@, spans@[k as int]);
            assert(raw == ls[k as int]);
            assert(ls.take(k + 1).drop_last() =~= ls.take(k as int));
            let (a, b) = trim_span(&text, lo, hi, CharSet::Space);
            let ghost line = text@.subrange(a as int, b as int);
            assert(line == trim(raw));
            if a == b || text[a] == '#' {
                assert(toml_step(st, raw) == Ok::<TomlState, Seq<char>>(st));
            } else if text[a] == '[' && text[b - 1] == ']' {
                let (c, d) = trim_span(&text, a, b, CharSet::Brackets);
                section = copy_span(&text, c, d);
            } else {
                match find_span(&text, a, b, CharSet::One('=')) {
                    None => {
                        let mut msg = chars_of("invalid line: ");
                        push_span(&mut msg, &text, a, b);
                        assert(toml_run(toml_start(), ls.take(k + 1)) == Err::<TomlState, Seq<char>>(msg@));
                        assert(toml_run(toml_start(), ls) == Err::<TomlState, Seq<char>>(msg@)) by {
                            lemma_run_error(toml_start(), ls, (k + 1) as int);
                        }
                        assert(lines(input@) == ls);
                        assert(manifest_from_toml(input@) == Err::<ManifestView, Seq<char>>(msg@));
                        return Err(string_from(&msg));
                    },
                    Some(e) => {
                        assert(line.take(e - a) =~= text@.subrange(a as int, e as int));
                        assert(line.skip(e - a + 1) =~= text@.subrange(e + 1, b as int));
                        let (k0, k1) = trim_span(&text, a, e, CharSet::Space);
                        let (v0, v1) = trim_span(&text, e + 1, b, CharSet::Space);
                        let key = copy_span(&text, k0, k1);
                        if same_text(&section, &env_name) {
                            let (q0, q1) = trim_span(&text, v0, v1, CharSet::One('"'));
                            env.insert(string_from(&key), string_of(&text, q0, q1));
                        } else if v0 < v1 && text[v0] == '[' && text[v1 - 1] == ']' {
                            let items = parse_array(&text, v0, v1);
                            let ghost before = arrays@;
                            arrays.push((key, items));
                            assert(arrays_view(arrays@) =~= arrays_view(before).push(
                                (text@.subrange(k0 as int, k1 as int), items.deep_view()),
                            ));
                        } else {
                            let (q0, q1) = trim_span(&text, v0, v1, CharSet::One('"'));
                            let value = copy_span(&text, q0, q1);
                            let ghost before = scalars@;
                            scalars.push((key, value));
                            assert(scalars_view(scalars@) =~= scalars_view(before).push(
                                (text@.subrange(k0 as int, k1 as int), value@),
                            ));
                        }
                    },
                }
            }
            k += 1;
        }
        assert(ls.take(spans@.len() as int) =~= ls);
        let name = match find_last_scalar(&scalars, &chars_of("build_system")) {
            Some(i) => string_from(&scalars[i].1),
            None => {
                return Err(string_from(&chars_of("missing build_system")));
            },
        };
        let build_system = match BuildSystem::parse(name.as_str()) {
            Some(b) => b,
            None => {
                let mut msg = chars_of("unsupported build_system: ");
                append_str(&mut msg, name.as_str());
                return Err(string_from(&msg));
            },
        };
        let id = match take_scalar(&scalars, "id") {
            Ok(v) => v,
            Err(e) => return Err(e),
        };
        let repo = match take_scalar(&scalars, "repo") {
            Ok(v) => v,
            Err(e) => return Err(e),
        };
        let rev = match take_scalar(&scalars, "rev") {
            Ok(v) => v,
            Err(e) => return Err(e),
        };
        let configure = match take_array(&arrays, "configure") {
            Ok(v) => v,
            Err(e) => return Err(e),
        };
        let build = match take_array(&arrays, "build") {
            Ok(v) => v,
            Err(e) => return Err(e),
        };
        let test = match take_array(&arrays, "test") {
            Ok(v) => v,
            Err(e) => return Err(e),
        };
        let entrypoint = match take_array(&arrays, "entrypoint") {
            Ok(v) => v,
            Err(e) => return Err(e),
        };
        let sdk_features = match take_array(&arrays, "sdk_features") {
            Ok(v) => v,
            Err(e) => return Err(e),
        };
        let protocol_expectations = match take_array(&arrays, "protocol_expectations") {
            Ok(v) => v,
            Err(e) => return Err(e),
        };
        let patch_policy = match take_scalar(&scalars, "patch_policy") {
            Ok(v) => v,
            Err(e) => return Err(e),
        };
        Ok(
            AdapterManifest {
                id,
                repo,
                rev,
                build_system,
                configure,
                build,
                test,
                entrypoint,
                env,
                sdk_features,
                protocol_expectations,
                patch_policy,
            },
        )
    }
}

/// Once the reader has failed on some prefix of the lines, it fails on all of them.
pub proof fn lemma_run_error(st: TomlState, ls: Seq<Seq<char>>, n: int)
    requires
        0 <= n <= ls.len(),
        toml_run(st, ls.take(n)) is Err,
    ensures
        toml_run(st, ls) == toml_run(st, ls.take(n)),
    decreases ls.len() - n,
{
    if n < ls.len() {
        assert(ls.take(n + 1).drop_last() =~= ls.take(n));
        lemma_run_error(st, ls, n + 1);
    } else {
        assert(ls.take(n) =~= ls);
    }
}


/// A line that the reader refuses: not blank, not a `#` comment, not a
/// `[section]` header, and without `=`.
pub open spec fn invalid_line(raw: Seq<char>) -> bool {
    let line = trim(raw);
    &&& line.len() > 0
    &&& line[0] != '#'
    &&& !(line[0] == '[' && line.last() == ']')
    &&& split_once_by(line, CharSet::One('=')) is None
}

/// The index of the first line of `ls` that the reader refuses.
pub open spec fn first_invalid(ls: Seq<Seq<char>>) -> Option<int>
    decreases ls.len(),
{
    if ls.len() == 0 {
        None
    } else {
        match first_invalid(ls.drop_last()) {
            Some(i) => Some(i),
            None => if invalid_line(ls.last()) {
                Some(ls.len() - 1)
            } else {
                None
            },
        }
    }
}

/// The fields a manifest must assign, in the order the reader looks them up:
/// each name, and whether it holds an array.
pub open spec fn required_fields() -> Seq<(Seq<char>, bool)> {
    seq![
        ("id"@, false),
        ("repo"@, false),
        ("rev"@, false),
        ("configure"@, true),
        ("build"@, true),
        ("test"@, true),
        ("entrypoint"@, true),
        ("sdk_features"@, true),
        ("protocol_expectations"@, true),
        ("patch_policy"@, false),
    ]
}

/// Whether the reader's state holds a value for the field `f`.
pub open spec fn field_assigned(st: TomlState, f: (Seq<char>, bool)) -> bool {
    if f.1 {
        last_value(st.arrays, f.0) is Some
    } else {
        last_value(st.scalars, f.0) is Some
    }
}

/// The first of the fields `fs` that the state holds no value for.
pub open spec fn first_missing(st: TomlState, fs: Seq<(Seq<char>, bool)>) -> Option<Seq<char>>
    decreases fs.len(),
{
    if fs.len() == 0 {
        None
    } else if !field_assigned(st, fs[0]) {
        Some(fs[0].0)
    } else {
        first_missing(st, fs.drop_first())
    }
}

/// Each line either passes the reader or is refused by its text alone.
proof fn lemma_run_invalid(st: TomlState, ls: Seq<Seq<char>>)
    ensures
        match first_invalid(ls) {
            Some(i) => 0 <= i < ls.len() && toml_run(st, ls) == Err::<TomlState, Seq<char>>(
                "invalid line: "@ + trim(ls[i]),
            ),
            None => toml_run(st, ls) is Ok,
        },
    decreases ls.len(),
{
    if ls.len() > 0 {
        let init = ls.drop_last();
        lemma_run_invalid(st, init);
        if let Some(i) = first_invalid(init) {
            assert(ls[i] == init[i]);
        }
    }
}

/// The fields of a state, looked up in the order of `required_fields`.
proof fn lemma_fields_order(st: TomlState, b: BuildSystem)
    ensures
        match first_missing(st, required_fields()) {
            Some(k) => manifest_fields(st, b) == Err::<ManifestView, Seq<char>>("missing "@ + k),
            None => manifest_fields(st, b) is Ok,
        },
{
    let fs = required_fields();
    let f1 = fs.drop_first();
    let f2 = f1.drop_first();
    let f3 = f2.drop_first();
    let f4 = f3.drop_first();
    let f5 = f4.drop_first();
    let f6 = f5.drop_first();
    let f7 = f6.drop_first();
    let f8 = f7.drop_first();
    let f9 = f8.drop_first();
    let f10 = f9.drop_first();
    assert(f9 =~= seq![("patch_policy"@, false)]);
    assert(f8 =~= seq![("protocol_expectations"@, true), ("patch_policy"@, false)]);
    assert(f10.len() == 0);
    assert(fs[0] == ("id"@, false) && f1[0] == ("repo"@, false) && f2[0] == ("rev"@, false));
    assert(f3[0] == ("configure"@, true) && f4[0] == ("build"@, true) && f5[0] == ("test"@, true));
    assert(f6[0] == ("entrypoint"@, true) && f7[0] == ("sdk_features"@, true));
    assert(f8[0] == ("protocol_expectations"@, true) && f9[0] == ("patch_policy"@, false));
    assert(first_missing(st, f10) is None);
    let chain = seq![fs, f1, f2, f3, f4, f5, f6, f7, f8, f9];
    assert forall|j: int| 0 <= j < 9 implies #[trigger] chain[j].drop_first() == chain[j + 1] by {}
    if !field_assigned(st, fs[0]) {
        assert(first_missing(st, fs) == Some("id"@));
    } else if !field_assigned(st, f1[0]) {
        assert(first_missing(st, f1) == Some("repo"@));
    } else if !field_assigned(st, f2[0]) {
        assert(first_missing(st, f2) == Some("rev"@));
    } else if !field_assigned(st, f3[0]) {
        assert(first_missing(st, f3) == Some("configure"@));
    } else if !field_assigned(st, f4[0]) {
        assert(first_missing(st, f4) == Some("build"@));
    } else if !field_assigned(st, f5[0]) {
        assert(first_missing(st, f5) == Some("test"@));
    } else if !field_assigned(st, f6[0]) {
        assert(first_missing(st, f6) == Some("entrypoint"@));
    } else if !field_assigned(st, f7[0]) {
        assert(first_missing(st, f7) == Some("sdk_features"@));
    } else if !field_assigned(st, f8[0]) {
        assert(first_missing(st, f8) == Some("protocol_expectations"@));
    } else if !field_assigned(st, f9[0]) {
        assert(first_missing(st, f9) == Some("patch_policy"@));
    } else {
        assert(first_missing(st, f9) is None);
    }
    assert(first_missing(st, f8) == (if !field_assigned(st, f8[0]) { Some(f8[0].0) } else { first_missing(st, f9) }));
    assert(first_missing(st, f7) == (if !field_assigned(st, f7[0]) { Some(f7[0].0) } else { first_missing(st, f8) }));
    assert(first_missing(st, f6) == (if !field_assigned(st, f6[0]) { Some(f6[0].0) } else { first_missing(st, f7) }));
    assert(first_missing(st, f5) == (if !field_assigned(st, f5[0]) { Some(f5[0].0) } else { first_missing(st, f6) }));
    assert(first_missing(st, f4) == (if !field_assigned(st, f4[0]) { Some(f4[0].0) } else { first_missing(st, f5) }));
    assert(first_missing(st, f3) == (if !field_assigned(st, f3[0]) { Some(f3[0].0) } else { first_missing(st, f4) }));
    assert(first_missing(st, f2) == (if !field_assigned(st, f2[0]) { Some(f2[0].0) } else { first_missing(st, f3) }));
    assert(first_missing(st, f1) == (if !field_assigned(st, f1[0]) { Some(f1[0].0) } else { first_missing(st, f2) }));
    assert(first_missing(st, fs) == (if !field_assigned(st, fs[0]) { Some(fs[0].0) } else { first_missing(st, f1) }));
}

/// The reader reports the first problem of a manifest in this order: the
/// first line it refuses (`invalid line: ...`); then a missing build system
/// (`missing build_system`); then a build system it does not know
/// (`unsupported build_system: ...`); then the first of `required_fields`
/// that no line assigns (`missing ...`). With none of these, it succeeds.
/// The `[env]` section may be left out: a manifest without it has no
/// variables.
pub proof fn law_reader_error_order(input: Seq<char>)
    ensures
        first_invalid(lines(input)) matches Some(i) ==> manifest_from_toml(input) == Err::<ManifestView, Seq<char>>(
            "invalid line: "@ + trim(lines(input)[i]),
        ),
        first_invalid(lines(input)) is None ==> toml_run(toml_start(), lines(input)) is Ok,
        first_invalid(lines(input)) is None ==> ({
            let st = toml_run(toml_start(), lines(input))->Ok_0;
            match last_value(st.scalars, "build_system"@) {
                None => manifest_from_toml(input) == Err::<ManifestView, Seq<char>>("missing build_system"@),
                Some(n) => match build_system_named(n) {
                    None => manifest_from_toml(input) == Err::<ManifestView, Seq<char>>(
                        "unsupported build_system: "@ + n,
                    ),
                    Some(b) => match first_missing(st, required_fields()) {
                        Some(k) => manifest_from_toml(input) == Err::<ManifestView, Seq<char>>("missing "@ + k),
                        None => manifest_from_toml(input) is Ok,
                    },
                },
            }
        }),
{
    lemma_run_invalid(toml_start(), lines(input));
    if first_invalid(lines(input)) is None {
        let st = toml_run(toml_start(), lines(input))->Ok_0;
        if let Some(n) = last_value(st.scalars, "build_system"@) {
            if let Some(b) = build_system_named(n) {
                lemma_fields_order(st, b);
            }
        }
    }
}

} // verus!
