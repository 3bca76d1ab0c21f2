//! Launching the macOS host: the launch request it reads, and the decisions
//! taken on what it reports back.
use vstd::prelude::*;
use crate::adapter::AdapterManifest;
use crate::env_map::EnvMap;
use crate::runner::{EnvProbe, command_env, effective_env, join_path, path_join};
use crate::text::{
    CharSet, append_str, chars_of, line_spans, lines, same_text, span,
    string_from, string_of, text_of, trim, trim_span,
};

verus! {

/// How the host presents the compositor.
#[derive(Debug, Clone, Copy, PartialEq, Eq, Structural)]
pub enum HostSessionMode {
    Fullscreen,
    WindowedDebug,
}

/// What the host is asked to run (written as JSON for the host to read).
#[derive(Debug, Clone, PartialEq, Eq)]
pub struct HostLaunchRequest {
    pub mode: HostSessionMode,
    pub compositor_executable: Option<String>,
    pub compositor_arguments: Vec<String>,
    pub environment: EnvMap,
    pub permission_hints: Vec<String>,
    pub working_directory: Option<String>,
    pub status_file: Option<String>,
    pub auto_exit_after_child: bool,
}

/// Where the launch request is written and where the host reports its status.
#[derive(Debug, Clone, PartialEq, Eq)]
pub struct HostLaunchArtifacts {
    pub request_path: String,
    pub status_path: String,
}

/// Where a launch request and the host's status go under `artifacts_root`.
pub fn launch_artifacts(artifacts_root: &str) -> (r: HostLaunchArtifacts)
    ensures
        r.request_path@ == path_join(artifacts_root@, "host-launch.json"@),
        r.status_path@ == path_join(artifacts_root@, "host-status.txt"@),
{
    HostLaunchArtifacts {
        request_path: join_path(artifacts_root, "host-launch.json"),
        status_path: join_path(artifacts_root, "host-status.txt"),
    }
}

/// The executable the host runs: a bare command name or an absolute path
/// stands as it is; a relative path with a `/` is taken under the source root.
pub open spec fn resolved_binary(source_root: Seq<char>, binary: Seq<char>) -> Seq<char> {
    if (binary.len() > 0 && binary[0] == '/') || crate::text::find_by(binary, CharSet::One('/')) is None {
        binary
    } else {
        path_join(source_root, binary)
    }
}

/// The executable the host runs (see `resolved_binary`).
pub fn resolve_binary(source_root: &str, binary: &str) -> (r: String)
    ensures
        r@ == resolved_binary(source_root@, binary@),
{
    let b = chars_of(binary);
    let has_slash = crate::text::find_span(&b, 0, b.len(), CharSet::One('/')).is_some();
    assert(b@.subrange(0, b@.len() as int) =~= b@);
    if (b.len() > 0 && b[0] == '/') || !has_slash {
        string_from(&b)
    } else {
        join_path(source_root, binary)
    }
}

/// The launch request for `manifest`, or the error when its entrypoint is empty:
/// the first entrypoint word is the executable (see `resolved_binary`), the rest
/// its arguments; the environment is the command environment; the host is to
/// ask for accessibility and input monitoring, run in the source root, report
/// to `status_path`, and exit after the compositor does.
pub fn launch_request(
    manifest: &AdapterManifest,
    source_root: &str,
    mode: HostSessionMode,
    status_path: &str,
    probe: &EnvProbe,
) -> (r: Result<HostLaunchRequest, String>)
    ensures
        manifest.entrypoint@.len() == 0 <==> r is Err,
        r matches Err(e) ==> e@ == "entrypoint is empty"@,
        r matches Ok(q) ==> {
            &&& q.mode == mode
            &&& q.compositor_executable matches Some(x) && x@ == resolved_binary(source_root@, manifest.entrypoint@[0]@)
            &&& q.compositor_arguments.deep_view() == manifest.entrypoint.deep_view().drop_first()
            &&& q.environment@ == command_env(manifest.env@, probe.root(), probe.existing_set(), probe.inherited@)
            &&& q.permission_hints.deep_view() == seq!["accessibility"@, "inputMonitoring"@]
            &&& q.working_directory matches Some(w) && w@ == source_root@
            &&& q.status_file matches Some(f) && f@ == status_path@
            &&& q.auto_exit_after_child
        },
{
    if manifest.entrypoint.len() == 0 {
        return Err(text_of("entrypoint is empty"));
    }
    let binary = resolve_binary(source_root, manifest.entrypoint[0].as_str());
    let mut args: Vec<String> = Vec::new();
    let mut i: usize = 1;
    while i < manifest.entrypoint.len()
        invariant
            1 <= i <= manifest.entrypoint@.len(),
            args.deep_view() == manifest.entrypoint.deep_view().subrange(1, i as int),
        decreases manifest.entrypoint.len() - i,
    {
        let ghost before = args.deep_view();
        let item = manifest.entrypoint[i].clone();
        args.push(item);
        assert(args.deep_view() =~= before.push(manifest.entrypoint@[i as int]@));
        assert(manifest.entrypoint.deep_view().subrange(1, i + 1) =~= manifest.entrypoint.deep_view().subrange(1, i as int).push(manifest.entrypoint@[i as int]@));
        i += 1;
    }
    assert(manifest.entrypoint.deep_view().subrange(1, manifest.entrypoint@.len() as int)
        =~= manifest.entrypoint.deep_view().drop_first());
    let hints = vec![text_of("accessibility"), text_of("inputMonitoring")];
    assert(hints.deep_view() =~= seq!["accessibility"@, "inputMonitoring"@]);
    Ok(
        HostLaunchRequest {
            mode,
            compositor_executable: Some(binary),
            compositor_arguments: args,
            environment: effective_env(&manifest.env, probe),
            permission_hints: hints,
            working_directory: Some(text_of(source_root)),
            status_file: Some(text_of(status_path)),
            auto_exit_after_child: true,
        },
    )
}

/// The statuses the host reports while all is well.
pub open spec fn is_success(status: Seq<char>) -> bool {
    status == "host_started"@ || status == "child_started"@ || status == "child_exit:0"@
}

/// Whether a status reports success: `host_started`, `child_started` or `child_exit:0`.
pub fn is_success_status(status: &str) -> (b: bool)
    ensures
        b == is_success(status@),
{
    let s = chars_of(status);
    same_text(&s, &chars_of("host_started")) || same_text(&s, &chars_of("child_started"))
        || same_text(&s, &chars_of("child_exit:0"))
}

/// Whether a status reports a failure: any status but the three of success.
pub fn is_failure_status(status: &str) -> (b: bool)
    ensures
        b == !is_success(status@),
{
    !is_success_status(status)
}

/// The last line of `ls` that holds more than whitespace, trimmed.
pub open spec fn last_status_line(ls: Seq<Seq<char>>) -> Option<Seq<char>>
    decreases ls.len(),
{
    if ls.len() == 0 {
        None
    } else if trim(ls.last()).len() > 0 {
        Some(trim(ls.last()))
    } else {
        last_status_line(ls.drop_last())
    }
}

/// What a status file says: the `status` of its JSON envelope when it is one,
/// else its last line that holds more than whitespace, trimmed.
pub open spec fn status_of(envelope: Option<Seq<char>>, payload: Seq<char>) -> Option<Seq<char>> {
    match envelope {
        Some(s) => Some(s),
        None => last_status_line(lines(payload)),
    }
}

pub open spec fn opt_str(v: Option<&str>) -> Option<Seq<char>> {
    match v {
        Some(s) => Some(s@),
        None => None,
    }
}

pub open spec fn opt_string(v: Option<String>) -> Option<Seq<char>> {
    match v {
        Some(s) => Some(s@),
        None => None,
    }
}

#[verifier::rlimit(30)]
/// The status a status file reports (see `status_of`); `envelope` is the
/// `status` field of the file read as a JSON object, when it reads as one.
pub fn host_status_from(envelope: Option<&str>, payload: &str) -> (r: Option<String>)
    ensures
        opt_string(r) == status_of(opt_str(envelope), payload@),
{
    if let Some(s) = envelope {
        return Some(text_of(s));
    }
    let text = chars_of(payload);
    let spans = line_spans(&text);
    let ghost ls = lines(text@);
    let mut k = spans.len();
    assert(ls.take(k as int) =~= ls);
    while k > 0
        invariant
            k <= spans@.len(),
            envelope is None,
            ls == lines(text@),
            text@ == payload@,
            spans@.map_values(|p: (usize, usize)| span(text@, p)) == ls,
            forall|j: int| 0 <= j < spans@.len() ==> (#[trigger] spans@[j]).0 <= spans@[j].1 <= text@.len(),
            last_status_line(ls) == last_status_line(ls.take(k as int)),
        decreases k,
    {
        let (lo, hi) = spans[k - 1];
        assert(span(text@, spans@[k - 1]) == ls[k - 1]);
        assert(ls.take(k as int).last() == ls[k - 1]);
        assert(ls.take(k as int).drop_last() =~= ls.take(k - 1));
        let (a, b) = trim_span(&text, lo, hi, CharSet::Space);
        proof {
            let l = ls.take(k as int);
            assert(trim(l.last()) == text@.subrange(a as int, b as int));
            if a < b {
                assert(last_status_line(l) == Some(trim(l.last())));
            } else {
                assert(last_status_line(l) == last_status_line(l.drop_last()));
            }
        }
        if a < b {
            return Some(string_of(&text, a, b));
        }
        k -= 1;
    }
    assert(ls.take(0) =~= Seq::<Seq<char>>::empty());
    None
}

/// `base` followed by `tail`, as a string.
fn message(base: &str, tail: &str) -> (r: String)
    ensures
        r@ == base@ + tail@,
{
    let mut v = chars_of(base);
    append_str(&mut v, tail);
    string_from(&v)
}

/// The outcome of a host run that waited for the host to exit: success when
/// the host exited successfully and its last status reports success.
pub open spec fn launch_result(
    exited_successfully: bool,
    exit_text: Seq<char>,
    status: Option<Seq<char>>,
    status_path: Seq<char>,
) -> Result<(), Seq<char>> {
    if exited_successfully {
        match status {
            None => Err("host exited without writing status file "@ + status_path),
            Some(s) => if is_success(s) {
                Ok(())
            } else {
                Err("host reported status "@ + s)
            },
        }
    } else {
        Err("host exited with status "@ + exit_text)
    }
}

pub open spec fn result_text(r: Result<(), String>) -> Result<(), Seq<char>> {
    match r {
        Ok(()) => Ok(()),
        Err(e) => Err(e@),
    }
}

/// The outcome of `launch_host` (see `launch_result`); `exit_text` is how the
/// host's exit status displays, `status` what its status file reports.
pub fn launch_outcome(
    exited_successfully: bool,
    exit_text: &str,
    status: Option<&str>,
    status_path: &str,
) -> (r: Result<(), String>)
    ensures
        result_text(r) == launch_result(exited_successfully, exit_text@, opt_str(status), status_path@),
{
    if exited_successfully {
        match status {
            None => Err(message("host exited without writing status file ", status_path)),
            Some(s) => if is_success_status(s) {
                Ok(())
            } else {
                Err(message("host reported status ", s))
            },
        }
    } else {
        Err(message("host exited with status ", exit_text))
    }
}

/// What a smoke launch does after reading the host's status.
#[derive(Debug, Clone, PartialEq, Eq)]
pub enum SmokeStep {
    /// The compositor started: wait out the grace period, then read the status again.
    AwaitGrace,
    /// The host reported a failure: wait for it to exit, then fail with this message.
    Fail(String),
    /// Nothing decisive yet: look at the host process.
    Continue,
}

/// The step a smoke launch takes on a status read while the host runs.
pub open spec fn smoke_status_step(status: Option<Seq<char>>) -> Option<Result<(), Seq<char>>> {
    match status {
        Some(s) => if s == "child_started"@ {
            Some(Ok(()))
        } else if !is_success(s) {
            Some(Err("host reported status "@ + s))
        } else {
            None
        },
        None => None,
    }
}

/// The step a smoke launch takes on a status read (see `smoke_status_step`:
/// `Ok` stands for `AwaitGrace`, `Err` for `Fail`, nothing for `Continue`).
pub fn smoke_on_status(status: Option<&str>) -> (r: SmokeStep)
    ensures
        match smoke_status_step(opt_str(status)) {
            Some(Ok(())) => r == SmokeStep::AwaitGrace,
            Some(Err(m)) => r matches SmokeStep::Fail(t) && t@ == m,
            None => r == SmokeStep::Continue,
        },
{
    match status {
        Some(s) => {
            if same_text(&chars_of(s), &chars_of("child_started")) {
                SmokeStep::AwaitGrace
            } else if is_failure_status(s) {
                SmokeStep::Fail(message("host reported status ", s))
            } else {
                SmokeStep::Continue
            }
        },
        None => SmokeStep::Continue,
    }
}

/// The outcome once the grace period after the compositor's start is over:
/// a failure status read then fails the launch; anything else is success.
pub open spec fn smoke_grace_result(updated: Option<Seq<char>>) -> Result<(), Seq<char>> {
    match updated {
        Some(s) => if !is_success(s) {
            Err("host reported status "@ + s)
        } else {
            Ok(())
        },
        None => Ok(()),
    }
}

/// The outcome after the grace period (see `smoke_grace_result`).
pub fn smoke_after_grace(updated: Option<&str>) -> (r: Result<(), String>)
    ensures
        result_text(r) == smoke_grace_result(opt_str(updated)),
{
    match updated {
        Some(s) => if is_failure_status(s) {
            Err(message("host reported status ", s))
        } else {
            Ok(())
        },
        None => Ok(()),
    }
}

/// The outcome when the host exits during a smoke launch: as `launch_result`
/// when it exits successfully; otherwise a failure that quotes its last status,
/// or, without one, its exit status.
pub open spec fn smoke_exit_result(
    exited_successfully: bool,
    exit_text: Seq<char>,
    status: Option<Seq<char>>,
    status_path: Seq<char>,
) -> Result<(), Seq<char>> {
    if exited_successfully {
        launch_result(true, exit_text, status, status_path)
    } else {
        match status {
            Some(s) => Err("host reported status "@ + s),
            None => Err("host reported status "@ + ("host exited with status "@ + exit_text)),
        }
    }
}

/// The outcome when the host exits during a smoke launch (see `smoke_exit_result`).
pub fn smoke_on_exit(
    exited_successfully: bool,
    exit_text: &str,
    status: Option<&str>,
    status_path: &str,
) -> (r: Result<(), String>)
    ensures
        result_text(r) == smoke_exit_result(exited_successfully, exit_text@, opt_str(status), status_path@),
{
    if exited_successfully {
        launch_outcome(true, exit_text, status, status_path)
    } else {
        match status {
            Some(s) => Err(message("host reported status ", s)),
            None => {
                let inner = message("host exited with status ", exit_text);
                let r = message("host reported status ", inner.as_str());
                assert(r@ =~= "host reported status "@ + ("host exited with status "@ + exit_text@));
                Err(r)
            },
        }
    }
}

/// When the host exits during a smoke launch, the launch fails unless the
/// host exited successfully: an unsuccessful exit is a failure whatever the
/// status file says, and the message quotes the last status, or, without
/// one, how the host exited. A successful exit is judged as a normal launch
/// judges it, so a smoke launch that passes on exit is one that a normal
/// launch also passes.
pub proof fn law_smoke_exit(
    exited_successfully: bool,
    exit_text: Seq<char>,
    status: Option<Seq<char>>,
    status_path: Seq<char>,
)
    ensures
        !exited_successfully ==> smoke_exit_result(exited_successfully, exit_text, status, status_path) is Err,
        !exited_successfully && status is Some ==> smoke_exit_result(exited_successfully, exit_text, status, status_path)
            == Err::<(), Seq<char>>("host reported status "@ + status->0),
        !exited_successfully && status is None ==> smoke_exit_result(exited_successfully, exit_text, status, status_path)
            == Err::<(), Seq<char>>("host reported status "@ + launch_result(false, exit_text, status, status_path)->Err_0),
        exited_successfully ==> smoke_exit_result(exited_successfully, exit_text, status, status_path)
            == launch_result(exited_successfully, exit_text, status, status_path),
        smoke_exit_result(exited_successfully, exit_text, status, status_path) is Ok ==> launch_result(
            exited_successfully,
            exit_text,
            status,
            status_path,
        ) is Ok,
{
}

/// The decimal digits of `n`.
pub open spec fn decimal(n: nat) -> Seq<char>
    decreases n,
{
    if n < 10 {
        seq![digit(n)]
    } else {
        decimal(n / 10).push(digit(n % 10))
    }
}

pub open spec fn digit(d: nat) -> char {
    if d == 0 {
        '0'
    } else if d == 1 {
        '1'
    } else if d == 2 {
        '2'
    } else if d == 3 {
        '3'
    } else if d == 4 {
        '4'
    } else if d == 5 {
        '5'
    } else if d == 6 {
        '6'
    } else if d == 7 {
        '7'
    } else if d == 8 {
        '8'
    } else {
        '9'
    }
}

fn digit_char(d: u128) -> (c: char)
    requires
        d < 10,
    ensures
        c == digit(d as nat),
{
    if d == 0 {
        '0'
    } else if d == 1 {
        '1'
    } else if d == 2 {
        '2'
    } else if d == 3 {
        '3'
    } else if d == 4 {
        '4'
    } else if d == 5 {
        '5'
    } else if d == 6 {
        '6'
    } else if d == 7 {
        '7'
    } else if d == 8 {
        '8'
    } else {
        '9'
    }
}

/// The decimal digits of `n`, as `{}` writes them.
pub fn decimal_of(n: u128) -> (r: Vec<char>)
    ensures
        r@ == decimal(n as nat),
    decreases n,
{
    if n < 10 {
        vec![digit_char(n)]
    } else {
        let mut r = decimal_of(n / 10);
        r.push(digit_char(n % 10));
        r
    }
}

/// The failure of a smoke launch whose host did not report the compositor's
/// start within `timeout_ms` milliseconds.
pub fn smoke_timeout_message(timeout_ms: u128) -> (r: String)
    ensures
        r@ == "host did not report child startup within "@ + decimal(timeout_ms as nat) + " ms"@,
{
    let mut v = chars_of("host did not report child startup within ");
    crate::text::append_chars(&mut v, &decimal_of(timeout_ms));
    append_str(&mut v, " ms");
    string_from(&v)
}

} // verus!
