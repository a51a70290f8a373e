//! Sandbox configuration and the choice of filesystem mounts.
//!
//! [`SandboxConfig`] holds the isolation knobs of a target's sandbox. The
//! application sets the sandbox up (workspace directory, environment,
//! namespaces, `pivot_root`); which host paths get bound into a pivoted
//! root, and how, is decided here from which of them exist:
//! [`plan_bind_mounts`].

use std::path::PathBuf;
use std::time::Duration;
use vstd::prelude::*;
use crate::text::{contains_str, str_contains, str_trim, trimmed};

verus! {

/// Configuration for sandbox isolation.
#[derive(Debug, Clone)]
pub struct SandboxConfig {
    /// Apply environment sanitization and unshare into a new mount
    /// namespace.
    pub enabled: bool,
    /// Paths the target may read, bound read-only under filesystem
    /// isolation.
    pub allowed_inputs: Vec<PathBuf>,
    /// Paths the target may write, bound writable under filesystem
    /// isolation.
    pub allowed_outputs: Vec<PathBuf>,
    /// Unshare into user and network namespaces, sealing the network.
    pub isolate_network: bool,
    /// Wall-clock limit of the run block.
    pub wall_clock_timeout: Option<Duration>,
    /// Start the child with an empty environment.
    pub env_clear: bool,
    /// Variables forwarded from the parent when the environment is cleared.
    pub env_allowlist: Vec<String>,
    /// Variables set on the child unconditionally.
    pub env_vars: Vec<(String, String)>,
    /// Pivot into a root holding only the declared paths.
    pub isolate_filesystem: bool,
    /// Reserved: a memory limit.
    pub memory_limit: Option<u64>,
    /// Reserved: a CPU time limit in milliseconds.
    pub cpu_limit_ms: Option<u64>,
    /// Reserved: PID namespace isolation.
    pub isolate_pid: bool,
}

/// Whether `c` has every toggle off and every list and limit empty.
pub open spec fn is_default_config(c: SandboxConfig) -> bool {
    &&& !c.enabled
    &&& c.allowed_inputs@.len() == 0
    &&& c.allowed_outputs@.len() == 0
    &&& !c.isolate_network
    &&& c.wall_clock_timeout is None
    &&& !c.env_clear
    &&& c.env_allowlist@.len() == 0
    &&& c.env_vars@.len() == 0
    &&& !c.isolate_filesystem
    &&& c.memory_limit is None
    &&& c.cpu_limit_ms is None
    &&& !c.isolate_pid
}

impl Default for SandboxConfig {
    /// Everything off: no isolation, no limits, nothing listed.
    fn default() -> (r: Self)
        ensures
            is_default_config(r),
    {
        SandboxConfig {
            enabled: false,
            allowed_inputs: Vec::new(),
            allowed_outputs: Vec::new(),
            isolate_network: false,
            wall_clock_timeout: None,
            env_clear: false,
            env_allowlist: Vec::new(),
            env_vars: Vec::new(),
            isolate_filesystem: false,
            memory_limit: None,
            cpu_limit_ms: None,
            isolate_pid: false,
        }
    }
}

impl SandboxConfig {
    /// Sandboxing on with the network sealed: the environment cleared
    /// except `HOME`, `USER`, `TERM` and `LANG`; everything else as in
    /// the default.
    pub fn enabled() -> (r: Self)
        ensures
            r.enabled,
            r.isolate_network,
            r.env_clear,
            r.env_allowlist@.map_values(|s: String| s@) == seq!["HOME"@, "USER"@, "TERM"@, "LANG"@],
            r.allowed_inputs@.len() == 0,
            r.allowed_outputs@.len() == 0,
            r.wall_clock_timeout is None,
            r.env_vars@.len() == 0,
            !r.isolate_filesystem,
            r.memory_limit is None,
            r.cpu_limit_ms is None,
            !r.isolate_pid,
    {
        let mut allow: Vec<String> = Vec::new();
        allow.push(String::from_str("HOME"));
        allow.push(String::from_str("USER"));
        allow.push(String::from_str("TERM"));
        allow.push(String::from_str("LANG"));
        proof {
            assert(allow@.map_values(|s: String| s@) =~= seq!["HOME"@, "USER"@, "TERM"@, "LANG"@]);
        }
        SandboxConfig {
            enabled: true,
            allowed_inputs: Vec::new(),
            allowed_outputs: Vec::new(),
            isolate_network: true,
            wall_clock_timeout: None,
            env_clear: true,
            env_allowlist: allow,
            env_vars: Vec::new(),
            isolate_filesystem: false,
            memory_limit: None,
            cpu_limit_ms: None,
            isolate_pid: false,
        }
    }
}

/// Where the host side of a bind mount comes from: a position in the
/// configured inputs or outputs, or in the runtime directories and files
/// that every jail needs.
#[derive(Debug, Clone, Copy, PartialEq, Eq, Structural)]
pub enum MountSource {
    /// An entry of `allowed_inputs`.
    Input(usize),
    /// An entry of `allowed_outputs`.
    Output(usize),
    /// A runtime library directory.
    RuntimeDir(usize),
    /// A runtime executable.
    RuntimeFile(usize),
}

/// The positions whose flag is set, in order.
pub open spec fn selected(present: Seq<bool>) -> Seq<usize>
    decreases present.len(),
{
    if present.len() == 0 {
        seq![]
    } else {
        selected(present.drop_last()) + (if present.last() {
            seq![(present.len() - 1) as usize]
        } else {
            seq![]
        })
    }
}

/// The bind mounts of a jail, each with its read-only flag: the present
/// inputs (read-only), then the present outputs (writable), then the
/// present runtime directories and files (read-only).
pub open spec fn bind_plan(
    inputs: Seq<bool>,
    outputs: Seq<bool>,
    dirs: Seq<bool>,
    files: Seq<bool>,
) -> Seq<(MountSource, bool)> {
    selected(inputs).map_values(|i: usize| (MountSource::Input(i), true)) + selected(outputs).map_values(
        |i: usize| (MountSource::Output(i), false),
    ) + selected(dirs).map_values(|i: usize| (MountSource::RuntimeDir(i), true)) + selected(
        files,
    ).map_values(|i: usize| (MountSource::RuntimeFile(i), true))
}

/// What `selected` holds: exactly the positions whose flag is set, each
/// once, in increasing order.
proof fn lemma_selected(present: Seq<bool>)
    requires
        present.len() <= usize::MAX,
    ensures
        forall|k: int|
            0 <= k < selected(present).len() ==> (#[trigger] selected(present)[k]) < present.len()
                && present[selected(present)[k] as int],
        forall|i: int| 0 <= i < present.len() && present[i] ==> selected(present).contains(i as usize),
        forall|a: int, b: int|
            0 <= a < b < selected(present).len() ==> (#[trigger] selected(present)[a]) < (#[trigger] selected(
                present,
            )[b]),
    decreases present.len(),
{
    if present.len() > 0 {
        let q = present.drop_last();
        lemma_selected(q);
        let n = present.len() - 1;
        let tail = if present.last() { seq![n as usize] } else { Seq::<usize>::empty() };
        assert(selected(present) == selected(q) + tail);
        assert forall|k: int| 0 <= k < selected(present).len() implies (#[trigger] selected(present)[k])
            < present.len() && present[selected(present)[k] as int] by {
            if k < selected(q).len() {
                assert(selected(present)[k] == selected(q)[k]);
                assert(q[selected(q)[k] as int] == present[selected(q)[k] as int]);
            } else {
                assert(selected(present)[k] == n as usize);
            }
        }
        assert forall|a: int, b: int|
            0 <= a < b < selected(present).len() implies (#[trigger] selected(present)[a]) < (#[trigger] selected(
                present,
            )[b]) by {
            assert(selected(present)[a] == selected(q)[a]);
            if b < selected(q).len() {
                assert(selected(present)[b] == selected(q)[b]);
            } else {
                assert(selected(present)[b] == n as usize);
            }
        }
        assert forall|i: int| 0 <= i < present.len() && present[i] implies selected(present).contains(i as usize) by {
            if i < n {
                assert(q[i] == present[i]);
                let k = choose|k: int| 0 <= k < selected(q).len() && selected(q)[k] == i as usize;
                assert(selected(present)[k] == i as usize);
            } else {
                assert(selected(present)[selected(q).len() as int] == i as usize);
            }
        }
    }
}

/// The mount source names a position whose path is present.
pub open spec fn source_present(m: MountSource, inputs: Seq<bool>, outputs: Seq<bool>, dirs: Seq<bool>, files: Seq<bool>) -> bool {
    match m {
        MountSource::Input(i) => i < inputs.len() && inputs[i as int],
        MountSource::Output(i) => i < outputs.len() && outputs[i as int],
        MountSource::RuntimeDir(i) => i < dirs.len() && dirs[i as int],
        MountSource::RuntimeFile(i) => i < files.len() && files[i as int],
    }
}

/// Law: a jail binds exactly the paths that are present: every mount
/// names a present input, output, runtime directory or runtime file
/// (writable exactly when it is an output), every present path is
/// mounted, and none twice; so there are as many output mounts as
/// present outputs, and a missing path is never mounted.
pub proof fn jail_mounts_exactly_the_present_paths(
    inputs: Seq<bool>,
    outputs: Seq<bool>,
    dirs: Seq<bool>,
    files: Seq<bool>,
)
    requires
        inputs.len() <= usize::MAX,
        outputs.len() <= usize::MAX,
        dirs.len() <= usize::MAX,
        files.len() <= usize::MAX,
    ensures
        forall|k: int|
            0 <= k < bind_plan(inputs, outputs, dirs, files).len() ==> source_present(
                (#[trigger] bind_plan(inputs, outputs, dirs, files)[k]).0,
                inputs,
                outputs,
                dirs,
                files,
            ) && (bind_plan(inputs, outputs, dirs, files)[k].1 <==> !(bind_plan(inputs, outputs, dirs, files)[k].0 is Output)),
        forall|i: int| 0 <= i < inputs.len() && inputs[i] ==> bind_plan(inputs, outputs, dirs, files).contains((MountSource::Input(i as usize), true)),
        forall|i: int| 0 <= i < outputs.len() && outputs[i] ==> bind_plan(inputs, outputs, dirs, files).contains((MountSource::Output(i as usize), false)),
        forall|i: int| 0 <= i < dirs.len() && dirs[i] ==> bind_plan(inputs, outputs, dirs, files).contains((MountSource::RuntimeDir(i as usize), true)),
        forall|i: int| 0 <= i < files.len() && files[i] ==> bind_plan(inputs, outputs, dirs, files).contains((MountSource::RuntimeFile(i as usize), true)),
        bind_plan(inputs, outputs, dirs, files).no_duplicates(),
{
    lemma_selected(inputs);
    lemma_selected(outputs);
    lemma_selected(dirs);
    lemma_selected(files);
    let a = selected(inputs).map_values(|i: usize| (MountSource::Input(i), true));
    let b = selected(outputs).map_values(|i: usize| (MountSource::Output(i), false));
    let c = selected(dirs).map_values(|i: usize| (MountSource::RuntimeDir(i), true));
    let d = selected(files).map_values(|i: usize| (MountSource::RuntimeFile(i), true));
    let plan = bind_plan(inputs, outputs, dirs, files);
    assert(plan == a + b + c + d);
    let la = a.len() as int;
    let lb = la + b.len();
    let lc = lb + c.len();
    assert forall|k: int| 0 <= k < plan.len() implies source_present(
        (#[trigger] plan[k]).0,
        inputs,
        outputs,
        dirs,
        files,
    ) && (plan[k].1 <==> !(plan[k].0 is Output)) by {
        if k < la {
            assert(plan[k] == a[k]);
        } else if k < lb {
            assert(plan[k] == b[k - la]);
        } else if k < lc {
            assert(plan[k] == c[k - lb]);
        } else {
            assert(plan[k] == d[k - lc]);
        }
    }
    assert forall|i: int| 0 <= i < inputs.len() && inputs[i] implies plan.contains((MountSource::Input(i as usize), true)) by {
        let k = choose|k: int| 0 <= k < selected(inputs).len() && selected(inputs)[k] == i as usize;
        assert(plan[k] == a[k]);
    }
    assert forall|i: int| 0 <= i < outputs.len() && outputs[i] implies plan.contains((MountSource::Output(i as usize), false)) by {
        let k = choose|k: int| 0 <= k < selected(outputs).len() && selected(outputs)[k] == i as usize;
        assert(plan[la + k] == b[k]);
    }
    assert forall|i: int| 0 <= i < dirs.len() && dirs[i] implies plan.contains((MountSource::RuntimeDir(i as usize), true)) by {
        let k = choose|k: int| 0 <= k < selected(dirs).len() && selected(dirs)[k] == i as usize;
        assert(plan[lb + k] == c[k]);
    }
    assert forall|i: int| 0 <= i < files.len() && files[i] implies plan.contains((MountSource::RuntimeFile(i as usize), true)) by {
        let k = choose|k: int| 0 <= k < selected(files).len() && selected(files)[k] == i as usize;
        assert(plan[lc + k] == d[k]);
    }
    assert forall|x: int, y: int| 0 <= x < plan.len() && 0 <= y < plan.len() && x != y implies plan[x] != plan[y] by {
        if x > y {
            lemma_plan_entries_differ(inputs, outputs, dirs, files, y, x);
        } else {
            lemma_plan_entries_differ(inputs, outputs, dirs, files, x, y);
        }
    }
}

/// Two different positions of a jail's plan hold different mounts.
proof fn lemma_plan_entries_differ(inputs: Seq<bool>, outputs: Seq<bool>, dirs: Seq<bool>, files: Seq<bool>, x: int, y: int)
    requires
        inputs.len() <= usize::MAX,
        outputs.len() <= usize::MAX,
        dirs.len() <= usize::MAX,
        files.len() <= usize::MAX,
        0 <= x < y < bind_plan(inputs, outputs, dirs, files).len(),
    ensures
        bind_plan(inputs, outputs, dirs, files)[x] != bind_plan(inputs, outputs, dirs, files)[y],
{
    lemma_selected(inputs);
    lemma_selected(outputs);
    lemma_selected(dirs);
    lemma_selected(files);
    let a = selected(inputs).map_values(|i: usize| (MountSource::Input(i), true));
    let b = selected(outputs).map_values(|i: usize| (MountSource::Output(i), false));
    let c = selected(dirs).map_values(|i: usize| (MountSource::RuntimeDir(i), true));
    let d = selected(files).map_values(|i: usize| (MountSource::RuntimeFile(i), true));
    let plan = bind_plan(inputs, outputs, dirs, files);
    assert(plan == a + b + c + d);
    let la = a.len() as int;
    let lb = la + b.len();
    let lc = lb + c.len();
    if y < la {
        assert(plan[x] == a[x] && plan[y] == a[y]);
        assert(selected(inputs)[x] < selected(inputs)[y]);
    } else if y < lb {
        if x >= la {
            assert(plan[x] == b[x - la] && plan[y] == b[y - la]);
            assert(selected(outputs)[x - la] < selected(outputs)[y - la]);
        } else {
            assert(plan[x] == a[x] && plan[y] == b[y - la]);
        }
    } else if y < lc {
        if x >= lb {
            assert(plan[x] == c[x - lb] && plan[y] == c[y - lb]);
            assert(selected(dirs)[x - lb] < selected(dirs)[y - lb]);
        } else if x >= la {
            assert(plan[x] == b[x - la] && plan[y] == c[y - lb]);
        } else {
            assert(plan[x] == a[x] && plan[y] == c[y - lb]);
        }
    } else {
        if x >= lc {
            assert(plan[x] == d[x - lc] && plan[y] == d[y - lc]);
            assert(selected(files)[x - lc] < selected(files)[y - lc]);
        } else if x >= lb {
            assert(plan[x] == c[x - lb] && plan[y] == d[y - lc]);
        } else if x >= la {
            assert(plan[x] == b[x - la] && plan[y] == d[y - lc]);
        } else {
            assert(plan[x] == a[x] && plan[y] == d[y - lc]);
        }
    }
}

/// The positions whose flag is set, in order.
pub fn select_present(present: &[bool]) -> (r: Vec<usize>)
    ensures
        r@ == selected(present@),
{
    let mut out: Vec<usize> = Vec::new();
    let mut i: usize = 0;
    while i < present.len()
        invariant
            i <= present@.len(),
            out@ == selected(present@.take(i as int)),
        decreases present@.len() - i,
    {
        proof {
            assert(present@.take(i + 1).drop_last() =~= present@.take(i as int));
        }
        if present[i] {
            out.push(i);
        }
        i = i + 1;
    }
    proof {
        assert(present@.take(present@.len() as int) =~= present@);
    }
    out
}

/// Appends `(make(i), flag)` for each position `i` of `idx`.
fn push_mounts(
    out: &mut Vec<(MountSource, bool)>,
    idx: &Vec<usize>,
    group: u8,
    read_only: bool,
)
    requires
        group < 4,
    ensures
        final(out)@ == old(out)@ + idx@.map_values(|i: usize| (source_of(group, i), read_only)),
{
    let ghost start = out@;
    let mut k: usize = 0;
    while k < idx.len()
        invariant
            k <= idx@.len(),
            group < 4,
            out@ == start + idx@.take(k as int).map_values(|i: usize| (source_of(group, i), read_only)),
        decreases idx@.len() - k,
    {
        let i = idx[k];
        let src = if group == 0 {
            MountSource::Input(i)
        } else if group == 1 {
            MountSource::Output(i)
        } else if group == 2 {
            MountSource::RuntimeDir(i)
        } else {
            MountSource::RuntimeFile(i)
        };
        out.push((src, read_only));
        proof {
            assert(idx@.take(k + 1) =~= idx@.take(k as int).push(i));
            assert(out@ =~= start + idx@.take(k + 1).map_values(|i: usize| (source_of(group, i), read_only)));
        }
        k = k + 1;
    }
    proof {
        assert(idx@.take(idx@.len() as int) =~= idx@);
    }
}

/// The mount source of a group and position.
pub open spec fn source_of(group: u8, i: usize) -> MountSource {
    if group == 0 {
        MountSource::Input(i)
    } else if group == 1 {
        MountSource::Output(i)
    } else if group == 2 {
        MountSource::RuntimeDir(i)
    } else {
        MountSource::RuntimeFile(i)
    }
}

/// Chooses the bind mounts of a jail from which candidate paths exist:
/// the configured inputs (read-only), outputs (writable), runtime
/// directories and runtime files (read-only), each in order.
pub fn plan_bind_mounts(
    inputs_present: &[bool],
    outputs_present: &[bool],
    runtime_dirs_present: &[bool],
    runtime_files_present: &[bool],
) -> (r: Vec<(MountSource, bool)>)
    ensures
        r@ == bind_plan(inputs_present@, outputs_present@, runtime_dirs_present@, runtime_files_present@),
        forall|k: int|
            0 <= k < r@.len() ==> source_present(
                (#[trigger] r@[k]).0,
                inputs_present@,
                outputs_present@,
                runtime_dirs_present@,
                runtime_files_present@,
            ),
        forall|i: int|
            0 <= i < outputs_present@.len() && outputs_present@[i] ==> r@.contains(
                (MountSource::Output(i as usize), false),
            ),
        r@.no_duplicates(),
{
    let n_in = inputs_present.len();
    let n_out = outputs_present.len();
    let n_dirs = runtime_dirs_present.len();
    let n_files = runtime_files_present.len();
    proof {
        assert(n_in == inputs_present@.len() && n_out == outputs_present@.len());
        assert(n_dirs == runtime_dirs_present@.len() && n_files == runtime_files_present@.len());
        jail_mounts_exactly_the_present_paths(
            inputs_present@,
            outputs_present@,
            runtime_dirs_present@,
            runtime_files_present@,
        );
    }
    let mut out: Vec<(MountSource, bool)> = Vec::new();
    let a = select_present(inputs_present);
    push_mounts(&mut out, &a, 0, true);
    let b = select_present(outputs_present);
    push_mounts(&mut out, &b, 1, false);
    let c = select_present(runtime_dirs_present);
    push_mounts(&mut out, &c, 2, true);
    let d = select_present(runtime_files_present);
    push_mounts(&mut out, &d, 3, true);
    proof {
        assert(a@.map_values(|i: usize| (source_of(0, i), true)) =~= a@.map_values(
            |i: usize| (MountSource::Input(i), true),
        ));
        assert(b@.map_values(|i: usize| (source_of(1, i), false)) =~= b@.map_values(
            |i: usize| (MountSource::Output(i), false),
        ));
        assert(c@.map_values(|i: usize| (source_of(2, i), true)) =~= c@.map_values(
            |i: usize| (MountSource::RuntimeDir(i), true),
        ));
        assert(d@.map_values(|i: usize| (source_of(3, i), true)) =~= d@.map_values(
            |i: usize| (MountSource::RuntimeFile(i), true),
        ));
        assert(out@ =~= bind_plan(
            inputs_present@,
            outputs_present@,
            runtime_dirs_present@,
            runtime_files_present@,
        ));
    }
    out
}

} // verus!

verus! {

/// Whether the environment and kernel settings leave namespace isolation
/// worth probing: not when `KILN_NO_SANDBOX` is `1`, not on a WSL kernel
/// (a release naming `microsoft` or `WSL`), and not when unprivileged
/// user namespaces are switched off (`0`, around whitespace).
pub open spec fn probe_allowed(
    no_sandbox: Option<Seq<char>>,
    os_release: Option<Seq<char>>,
    userns_clone: Option<Seq<char>>,
) -> bool {
    &&& no_sandbox != Some("1"@)
    &&& !(os_release matches Some(r) && (contains_str(r, "microsoft"@) || contains_str(r, "WSL"@)))
    &&& !(userns_clone matches Some(v) && trimmed(v) == "0"@)
}

/// The view of an optional string slice.
pub open spec fn opt_view(s: Option<&str>) -> Option<Seq<char>> {
    match s {
        Some(x) => Some(x@),
        None => None,
    }
}

/// Decides, from the value of `KILN_NO_SANDBOX`, the kernel release and
/// the `unprivileged_userns_clone` setting (each when it could be read),
/// whether to probe for namespace support at all.
pub fn namespace_probe_allowed(
    no_sandbox: Option<&str>,
    os_release: Option<&str>,
    userns_clone: Option<&str>,
) -> (r: bool)
    ensures
        r == probe_allowed(opt_view(no_sandbox), opt_view(os_release), opt_view(userns_clone)),
{
    proof {
        reveal_strlit("1");
        reveal_strlit("0");
    }
    if let Some(v) = no_sandbox {
        if str_eq(v, "1") {
            return false;
        }
    }
    if let Some(rel) = os_release {
        if str_contains(rel, "microsoft") || str_contains(rel, "WSL") {
            return false;
        }
    }
    if let Some(v) = userns_clone {
        if str_eq(str_trim(v), "0") {
            return false;
        }
    }
    true
}

/// Whether two strings hold the same characters.
fn str_eq(a: &str, b: &str) -> (r: bool)
    ensures
        r == (a@ == b@),
{
    let x = a.as_bytes();
    let y = b.as_bytes();
    if x.len() != y.len() {
        proof {
            if a@ == b@ {
                assert(x@ == y@);
            }
        }
        return false;
    }
    let mut i: usize = 0;
    while i < x.len()
        invariant
            x@.len() == y@.len(),
            i <= x@.len(),
            x@ == vstd::utf8::encode_utf8(a@),
            y@ == vstd::utf8::encode_utf8(b@),
            forall|j: int| 0 <= j < i ==> x@[j] == y@[j],
        decreases x@.len() - i,
    {
        if x[i] != y[i] {
            return false;
        }
        i = i + 1;
    }
    proof {
        assert(x@ =~= y@);
        vstd::utf8::encode_utf8_decode_utf8(a@);
        vstd::utf8::encode_utf8_decode_utf8(b@);
    }
    true
}

} // verus!

verus! {

/// The namespaces a sandboxed child unshares.
#[derive(Debug, Clone, Copy, PartialEq, Eq)]
pub struct NamespaceFlags {
    /// A private mount namespace (always).
    pub mount: bool,
    /// A user namespace, mapping the host user to root inside.
    pub user: bool,
    /// A network namespace with no interfaces but loopback.
    pub network: bool,
}

/// The namespaces for a configuration: always a mount namespace; a user
/// namespace whenever the network or the filesystem is isolated (the
/// mappings make the other unshares possible without privileges); a
/// network namespace when the network is isolated.
pub fn namespace_flags(isolate_network: bool, isolate_filesystem: bool) -> (r: NamespaceFlags)
    ensures
        r.mount,
        r.user == (isolate_network || isolate_filesystem),
        r.network == isolate_network,
{
    NamespaceFlags { mount: true, user: isolate_network || isolate_filesystem, network: isolate_network }
}

} // verus!
