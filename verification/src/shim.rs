//! Which compositor family a manifest belongs to, and what it still lacks.
use vstd::prelude::*;
use crate::adapter::AdapterManifest;
use crate::backend::BackendCapabilities;
use crate::text::{
    append_chars, append_str, chars_of, contains_in, contains_text, lower, lowercase, occurs_at, same_text,
    string_from,
};

verus! {

/// The compositor families the compatibility layer knows.
#[derive(Debug, Clone, Copy, PartialEq, Eq, Structural)]
pub enum CompositorFamily {
    Wlroots,
    Weston,
    Custom,
}

/// What a manifest still lacks to run on the macOS backend.
#[derive(Debug, Clone, PartialEq, Eq)]
pub struct ShimAssessment {
    pub family: CompositorFamily,
    pub ready: bool,
    pub missing_sdk_features: Vec<String>,
    pub missing_protocols: Vec<String>,
    pub missing_backend_flags: Vec<String>,
}

impl ShimAssessment {
    /// `ready` or `incomplete`.
    pub fn summary(&self) -> (r: &'static str)
        ensures
            r@ == (if self.ready { "ready"@ } else { "incomplete"@ }),
    {
        if self.ready {
            "ready"
        } else {
            "incomplete"
        }
    }
}

/// The family of a compositor: Weston when its id or repository names weston,
/// wlroots when they name sway, labwc or wayfire or when it expects
/// `layer-shell`, a custom one otherwise; names compare without ASCII case.
pub open spec fn family_of(id: Seq<char>, repo: Seq<char>, protocols: Seq<Seq<char>>) -> CompositorFamily {
    let combined = lower(id + " "@ + repo);
    if contains_text(combined, "weston"@) || contains_text(combined, "libweston"@) {
        CompositorFamily::Weston
    } else if contains_text(combined, "sway"@) || contains_text(combined, "labwc"@) || contains_text(
        combined,
        "wayfire"@,
    ) || protocols.contains("layer-shell"@) {
        CompositorFamily::Wlroots
    } else {
        CompositorFamily::Custom
    }
}

/// The SDK features a family needs.
pub open spec fn sdk_requirements(f: CompositorFamily) -> Seq<Seq<char>> {
    match f {
        CompositorFamily::Wlroots => seq!["metal-fast-path"@, "seat-v1"@, "event-queue-v1"@],
        CompositorFamily::Weston => seq!["metal-fast-path"@, "seat-v1"@],
        CompositorFamily::Custom => seq![],
    }
}

/// The protocols a family needs.
pub open spec fn protocol_requirements(f: CompositorFamily) -> Seq<Seq<char>> {
    match f {
        CompositorFamily::Wlroots => seq!["xdg-shell"@, "layer-shell"@],
        CompositorFamily::Weston => seq!["xdg-shell"@],
        CompositorFamily::Custom => seq![],
    }
}

/// The requirements that `present` lacks, in the order of `reqs`.
pub open spec fn absent(reqs: Seq<Seq<char>>, present: Seq<Seq<char>>) -> Seq<Seq<char>>
    decreases reqs.len(),
{
    if reqs.len() == 0 {
        seq![]
    } else if present.contains(reqs.last()) {
        absent(reqs.drop_last(), present)
    } else {
        absent(reqs.drop_last(), present).push(reqs.last())
    }
}

/// The backend features that wlroots and Weston compositors need and the backend lacks.
pub open spec fn backend_gaps(f: CompositorFamily, c_abi: bool, event_queue: bool, fullscreen: bool) -> Seq<Seq<char>> {
    if f == CompositorFamily::Custom {
        seq![]
    } else {
        (if c_abi { seq![] } else { seq!["c-abi"@] }) + (if event_queue { seq![] } else { seq!["event-queue"@] })
            + (if fullscreen { seq![] } else { seq!["fullscreen-host"@] })
    }
}

/// The family of the compositor that `manifest` describes (see `family_of`).
pub fn detect_family(manifest: &AdapterManifest) -> (r: CompositorFamily)
    ensures
        r == family_of(manifest.id@, manifest.repo@, manifest.protocol_expectations.deep_view()),
{
    let mut combined = chars_of(manifest.id.as_str());
    append_str(&mut combined, " ");
    append_chars(&mut combined, &chars_of(manifest.repo.as_str()));
    let lowered = lowercase(&combined);
    if contains_in(&lowered, &chars_of("weston")) || contains_in(&lowered, &chars_of("libweston")) {
        return CompositorFamily::Weston;
    }
    if contains_in(&lowered, &chars_of("sway")) || contains_in(&lowered, &chars_of("labwc"))
        || contains_in(&lowered, &chars_of("wayfire")) || has_item(
        &manifest.protocol_expectations,
        "layer-shell",
    ) {
        return CompositorFamily::Wlroots;
    }
    CompositorFamily::Custom
}

/// Whether `items` holds `x`.
pub fn has_item(items: &Vec<String>, x: &str) -> (b: bool)
    ensures
        b == items.deep_view().contains(x@),
{
    let xs = chars_of(x);
    let mut i: usize = 0;
    while i < items.len()
        invariant
            i <= items@.len(),
            xs@ == x@,
            forall|j: int| 0 <= j < i ==> items@[j]@ != x@,
        decreases items.len() - i,
    {
        if same_text(&chars_of(items[i].as_str()), &xs) {
            assert(items.deep_view()[i as int] == x@);
            return true;
        }
        i += 1;
    }
    assert(!items.deep_view().contains(x@)) by {
        if items.deep_view().contains(x@) {
            let j = choose|j: int| 0 <= j < items.deep_view().len() && items.deep_view()[j] == x@;
            assert(items@[j]@ == x@);
        }
    }
    false
}

/// The items of `reqs` that `present` lacks (see `absent`).
fn missing_of(reqs: &Vec<&'static str>, present: &Vec<String>) -> (r: Vec<String>)
    ensures
        r.deep_view() == absent(reqs@.map_values(|s: &str| s@), present.deep_view()),
{
    let ghost rs = reqs@.map_values(|s: &str| s@);
    let mut r: Vec<String> = Vec::new();
    let mut i: usize = 0;
    assert(rs.take(0) =~= Seq::<Seq<char>>::empty());
    assert(r.deep_view() =~= Seq::<Seq<char>>::empty());
    while i < reqs.len()
        invariant
            i <= reqs@.len(),
            rs == reqs@.map_values(|s: &str| s@),
            r.deep_view() == absent(rs.take(i as int), present.deep_view()),
        decreases reqs.len() - i,
    {
        assert(rs.take(i + 1).drop_last() =~= rs.take(i as int));
        assert(rs[i as int] == reqs@[i as int]@);
        if !has_item(present, reqs[i]) {
            let ghost before = r.deep_view();
            r.push(string_from(&chars_of(reqs[i])));
            assert(r.deep_view() =~= before.push(rs[i as int]));
        }
        i += 1;
    }
    assert(rs.take(reqs@.len() as int) =~= rs);
    r
}

/// What `manifest` still lacks on a backend with `backend`'s capabilities:
/// the SDK features and protocols its family needs that it does not declare,
/// and, for wlroots and Weston compositors, the C ABI, the event queue and the
/// fullscreen host when the backend lacks them. It is ready when it lacks nothing.
pub fn assess_manifest(manifest: &AdapterManifest, backend: &BackendCapabilities) -> (r: ShimAssessment)
    ensures
        r.family == family_of(manifest.id@, manifest.repo@, manifest.protocol_expectations.deep_view()),
        r.missing_sdk_features.deep_view() == absent(sdk_requirements(r.family), manifest.sdk_features.deep_view()),
        r.missing_protocols.deep_view() == absent(protocol_requirements(r.family), manifest.protocol_expectations.deep_view()),
        r.missing_backend_flags.deep_view() == backend_gaps(r.family, backend.supports_c_abi, backend.supports_event_queue, backend.supports_fullscreen_host),
        r.ready == (r.missing_sdk_features@.len() == 0 && r.missing_protocols@.len() == 0 && r.missing_backend_flags@.len() == 0),
{
    let family = detect_family(manifest);
    let sdk: Vec<&'static str> = match family {
        CompositorFamily::Wlroots => vec!["metal-fast-path", "seat-v1", "event-queue-v1"],
        CompositorFamily::Weston => vec!["metal-fast-path", "seat-v1"],
        CompositorFamily::Custom => Vec::new(),
    };
    assert(sdk@.map_values(|s: &str| s@) =~= sdk_requirements(family));
    let protocols: Vec<&'static str> = match family {
        CompositorFamily::Wlroots => vec!["xdg-shell", "layer-shell"],
        CompositorFamily::Weston => vec!["xdg-shell"],
        CompositorFamily::Custom => Vec::new(),
    };
    assert(protocols@.map_values(|s: &str| s@) =~= protocol_requirements(family));
    let missing_sdk_features = missing_of(&sdk, &manifest.sdk_features);
    let missing_protocols = missing_of(&protocols, &manifest.protocol_expectations);
    let mut missing_backend_flags: Vec<String> = Vec::new();
    if family == CompositorFamily::Wlroots || family == CompositorFamily::Weston {
        if !backend.supports_c_abi {
            missing_backend_flags.push(string_from(&chars_of("c-abi")));
        }
        if !backend.supports_event_queue {
            missing_backend_flags.push(string_from(&chars_of("event-queue")));
        }
        if !backend.supports_fullscreen_host {
            missing_backend_flags.push(string_from(&chars_of("fullscreen-host")));
        }
    }
    assert(missing_backend_flags.deep_view() =~= backend_gaps(family, backend.supports_c_abi, backend.supports_event_queue, backend.supports_fullscreen_host));
    let ready = missing_sdk_features.len() == 0 && missing_protocols.len() == 0 && missing_backend_flags.len() == 0;
    ShimAssessment { family, ready, missing_sdk_features, missing_protocols, missing_backend_flags }
}


/// A requirement is missing exactly when it is not declared: the list of
/// what is absent is empty when, and only when, every requirement is declared.
pub proof fn law_absent_empty_iff_declared(reqs: Seq<Seq<char>>, present: Seq<Seq<char>>)
    ensures
        forall|x: Seq<char>| #[trigger] absent(reqs, present).contains(x) <==> reqs.contains(x) && !present.contains(x),
        absent(reqs, present).len() == 0 <==> forall|i: int| 0 <= i < reqs.len() ==> present.contains(#[trigger] reqs[i]),
    decreases reqs.len(),
{
    if reqs.len() > 0 {
        let init = reqs.drop_last();
        let last = reqs.last();
        law_absent_empty_iff_declared(init, present);
        let a = absent(init, present);
        assert forall|x: Seq<char>| #[trigger] absent(reqs, present).contains(x) <==> reqs.contains(x) && !present.contains(x) by {
            if reqs.contains(x) && !present.contains(x) {
                let i = choose|i: int| 0 <= i < reqs.len() && reqs[i] == x;
                if i < init.len() {
                    assert(init[i] == x);
                    assert(a.contains(x));
                    if !present.contains(last) {
                        let j = choose|j: int| 0 <= j < a.len() && a[j] == x;
                        assert(a.push(last)[j] == x);
                    }
                } else {
                    assert(a.push(last)[a.len() as int] == x);
                }
            }
            if absent(reqs, present).contains(x) {
                if !present.contains(last) {
                    let j = choose|j: int| 0 <= j < a.len() + 1 && a.push(last)[j] == x;
                    if j < a.len() {
                        assert(a[j] == x);
                    }
                }
                if a.contains(x) {
                    let i = choose|i: int| 0 <= i < init.len() && init[i] == x;
                    assert(reqs[i] == x);
                }
                if x == last {
                    assert(reqs[reqs.len() - 1] == x);
                }
            }
        }
        if absent(reqs, present).len() == 0 {
            assert forall|i: int| 0 <= i < reqs.len() implies present.contains(#[trigger] reqs[i]) by {
                if !present.contains(reqs[i]) {
                    assert(reqs.contains(reqs[i]));
                    assert(absent(reqs, present).contains(reqs[i]));
                }
            }
        } else {
            let y = absent(reqs, present)[0];
            assert(absent(reqs, present).contains(y));
            let i = choose|i: int| 0 <= i < reqs.len() && reqs[i] == y;
            assert(!present.contains(reqs[i]));
        }
    }
}

/// A compositor of no known family needs nothing: whatever it declares and
/// whatever the backend supports, nothing is missing, so it is ready.
pub proof fn law_custom_family_needs_nothing(
    sdk_features: Seq<Seq<char>>,
    protocols: Seq<Seq<char>>,
    c_abi: bool,
    event_queue: bool,
    fullscreen: bool,
)
    ensures
        absent(sdk_requirements(CompositorFamily::Custom), sdk_features).len() == 0,
        absent(protocol_requirements(CompositorFamily::Custom), protocols).len() == 0,
        backend_gaps(CompositorFamily::Custom, c_abi, event_queue, fullscreen).len() == 0,
{
}


/// Whether the id or the repository of a compositor names `t`, ASCII case ignored.
pub open spec fn names(id: Seq<char>, repo: Seq<char>, t: Seq<char>) -> bool {
    contains_text(lower(id), t) || contains_text(lower(repo), t)
}

/// A text found in `a` or in `b` is found in `a + sep + b`; a text with no
/// character of `sep` found in `a + sep + b` is found in `a` or in `b`.
proof fn lemma_occurs_joined(a: Seq<char>, sep: Seq<char>, b: Seq<char>, t: Seq<char>)
    requires
        t.len() > 0,
        sep.len() > 0,
        forall|i: int, j: int| 0 <= i < t.len() && 0 <= j < sep.len() ==> t[i] != sep[j],
    ensures
        contains_text(a + sep + b, t) <==> contains_text(a, t) || contains_text(b, t),
{
    let s = a + sep + b;
    if contains_text(a, t) {
        let i = choose|i: int| occurs_at(a, t, i);
        assert(s.subrange(i, i + t.len()) =~= a.subrange(i, i + t.len()));
        assert(occurs_at(s, t, i));
    }
    if contains_text(b, t) {
        let i = choose|i: int| occurs_at(b, t, i);
        let k = a.len() + sep.len() + i;
        assert(s.subrange(k, k + t.len()) =~= b.subrange(i, i + t.len()));
        assert(occurs_at(s, t, k));
    }
    if contains_text(s, t) {
        let k = choose|k: int| occurs_at(s, t, k);
        let w = s.subrange(k, k + t.len());
        if k + t.len() <= a.len() {
            assert(w =~= a.subrange(k, k + t.len()));
            assert(occurs_at(a, t, k));
        } else if k >= a.len() + sep.len() {
            let i = k - a.len() - sep.len();
            assert(w =~= b.subrange(i, i + t.len()));
            assert(occurs_at(b, t, i));
        } else {
            // The occurrence covers a character of `sep`.
            let p = if k >= a.len() { k } else { a.len() as int };
            assert(s[p] == sep[p - a.len()]);
            assert(w[p - k] == s[p]);
            assert(t[p - k] == w[p - k]);
        }
    }
}

/// `lower` of a joined text is the join of the lowered parts.
proof fn lemma_lower_join(a: Seq<char>, b: Seq<char>)
    ensures
        lower(a + " "@ + b) == lower(a) + " "@ + lower(b),
{
    reveal_strlit(" ");
    assert(lower(a + " "@ + b) =~= lower(a) + " "@ + lower(b)) by {
        let l = a + " "@ + b;
        assert forall|i: int| 0 <= i < l.len() implies lower(l)[i] == (lower(a) + " "@ + lower(b))[i] by {
            if i < a.len() {
                assert(l[i] == a[i]);
            } else if i == a.len() {
                assert(l[i] == ' ');
            } else {
                assert(l[i] == b[i - a.len() - 1]);
            }
        }
    }
}

/// The family of a compositor follows from the names in its id and
/// repository (ASCII case ignored) and from the protocols it expects: one
/// that names weston is a Weston compositor; one that does not, but names
/// sway, labwc or wayfire or expects `layer-shell`, is a wlroots compositor;
/// and only those are of these families.
pub proof fn law_family_by_names(id: Seq<char>, repo: Seq<char>, protocols: Seq<Seq<char>>)
    ensures
        family_of(id, repo, protocols) == CompositorFamily::Weston <==> names(id, repo, "weston"@),
        family_of(id, repo, protocols) == CompositorFamily::Wlroots <==> !names(id, repo, "weston"@) && (
            names(id, repo, "sway"@) || names(id, repo, "labwc"@) || names(id, repo, "wayfire"@)
                || protocols.contains("layer-shell"@)),
{
    reveal_strlit(" ");
    reveal_strlit("weston");
    reveal_strlit("libweston");
    reveal_strlit("sway");
    reveal_strlit("labwc");
    reveal_strlit("wayfire");
    lemma_lower_join(id, repo);
    let la = lower(id);
    let lb = lower(repo);
    let c = lower(id + " "@ + repo);
    assert(c == la + " "@ + lb);
    lemma_occurs_joined(la, " "@, lb, "weston"@);
    lemma_occurs_joined(la, " "@, lb, "sway"@);
    lemma_occurs_joined(la, " "@, lb, "labwc"@);
    lemma_occurs_joined(la, " "@, lb, "wayfire"@);
    if contains_text(c, "libweston"@) {
        let k = choose|k: int| occurs_at(c, "libweston"@, k);
        assert(c.subrange(k + 3, k + 9) =~= "weston"@) by {
            assert(c.subrange(k, k + 9) == "libweston"@);
            assert forall|j: int| 0 <= j < 6 implies c.subrange(k + 3, k + 9)[j] == "weston"@[j] by {
                assert(c.subrange(k + 3, k + 9)[j] == c.subrange(k, k + 9)[j + 3]);
            }
        }
        assert(occurs_at(c, "weston"@, k + 3));
    }
}

} // verus!
