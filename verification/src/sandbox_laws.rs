//! What confinement promises: what a policy block comes to, and what a confined run can reach.

use vstd::prelude::*;

use crate::json::JsonView;
use crate::runtime::agent_laws::{law_texts_of_a_list, lists};
use crate::sandbox::{
    ambient_args, bind_args, bwrap_args, bwrap_command, container_args, entries_policy, env_flags,
    limits_policy, odd_at, passthrough_flags, policy, scope_args, setenv_args, volume_flags,
    HostFacts, PolicyView, ResourceLimits, SandboxSpec,
};
use crate::scan::{first_some, lemma_found_nowhere};
use crate::text::{decimal, texts};

verus! {

/// Whether a member is absent or null.
pub open spec fn unset(v: Option<JsonView>) -> bool {
    v is None || v == Some(JsonView::Null)
}

/// Whether a member is a list of texts only.
pub open spec fn only_texts(v: Option<JsonView>) -> bool {
    v matches Some(JsonView::Array(a)) && forall|k: int| 0 <= k < a.len() ==> #[trigger] a[k] is Str
}

/// Whether a member is a number that is no more than another one.
pub open spec fn at_most(v: Option<JsonView>, most: u64) -> bool {
    v matches Some(n) && (n.as_u64() matches Some(x) && x <= most)
}

/// A bound as it is set, or as it is by default.
pub open spec fn bound_or(v: Option<JsonView>, default: u64) -> u64 {
    match v {
        Some(n) => match n.as_u64() {
            Some(x) => x,
            None => default,
        },
        None => default,
    }
}

/// Whether a block of bounds can be understood.
pub open spec fn usable_limits(v: Option<JsonView>) -> bool {
    ||| unset(v)
    ||| (v matches Some(JsonView::Object(m)) && {
        let block = JsonView::Object(m);
        &&& unset(block.get("wall_clock_secs"@)) || at_most(block.get("wall_clock_secs"@), u64::MAX)
        &&& unset(block.get("max_pids"@)) || at_most(block.get("max_pids"@), u32::MAX as u64)
    })
}

/// Whether bounds are those of a block; where it sets none, five minutes and 256 processes.
pub open spec fn limits_of(v: Option<JsonView>, limits: ResourceLimits) -> bool {
    let set = |key: Seq<char>|
        match v {
            Some(block) => block.get(key),
            None => None::<JsonView>,
        };
    &&& limits.wall_clock_secs == bound_or(set("wall_clock_secs"@), 300)
    &&& limits.max_pids == bound_or(set("max_pids"@), 256)
}

proof fn lemma_entries(a: Seq<JsonView>, what: Seq<char>)
    ensures
        entries_policy(a, what) is Ok <==> only_texts(Some(JsonView::Array(a))),
        entries_policy(a, what) matches Ok(e) ==> lists(Some(JsonView::Array(a)), e),
{
    let f = odd_at(a);
    lemma_found_nowhere(a.len(), f);
    law_texts_of_a_list(Some(JsonView::Array(a)), Seq::empty());
    if first_some(a.len(), f) is None {
        assert forall|k: int| 0 <= k < a.len() implies #[trigger] a[k] is Str by {
            assert(f(k) is None);
        }
    } else {
        if only_texts(Some(JsonView::Array(a))) {
            assert forall|k: int| 0 <= k < a.len() implies #[trigger] f(k) is None by {
                assert(a[k] is Str);
            }
        }
    }
}

/// What a policy block comes to: nothing is confined only where that is said or nothing is; the word
/// for it confines to no network, no variables and the default bounds; a block confines to what it
/// lists. A block that cannot be understood is refused, and never taken for no confinement.
pub proof fn law_policies_come_to(config: JsonView)
    ensures
        ({
            let said = config.get("confinement"@);
            match policy(config) {
                PolicyView::Unconfined => unset(said) || said == Some(JsonView::Str("none"@)),
                PolicyView::Profile { egress, env, limits } => {
                    ||| (said == Some(JsonView::Str("confined"@)) && egress is None && env.len() == 0
                        && limits.wall_clock_secs == 300 && limits.max_pids == 256)
                    ||| (said matches Some(JsonView::Object(m)) && {
                        let block = JsonView::Object(m);
                        &&& match egress {
                            None => unset(block.get("egress"@)) || block.get("egress"@) == Some(
                                JsonView::Str("deny"@),
                            ),
                            Some(entries) => lists(block.get("egress"@), entries),
                        }
                        &&& if unset(block.get("env"@)) {
                            env.len() == 0
                        } else {
                            lists(block.get("env"@), env)
                        }
                        &&& usable_limits(block.get("limits"@))
                        &&& limits_of(block.get("limits"@), limits)
                    })
                },
                PolicyView::Invalid(_) => {
                    &&& !unset(said)
                    &&& said != Some(JsonView::Str("none"@))
                    &&& said != Some(JsonView::Str("confined"@))
                    &&& said matches Some(JsonView::Object(m)) ==> {
                        let block = JsonView::Object(m);
                        ||| !(unset(block.get("egress"@)) || block.get("egress"@) == Some(
                            JsonView::Str("deny"@),
                        ) || only_texts(block.get("egress"@)))
                        ||| !(unset(block.get("env"@)) || only_texts(block.get("env"@)))
                        ||| !usable_limits(block.get("limits"@))
                    }
                },
            }
        }),
{
    if let Some(JsonView::Object(m)) = config.get("confinement"@) {
        let block = JsonView::Object(m);
        if let Some(JsonView::Array(a)) = block.get("egress"@) {
            lemma_entries(
                a,
                "INVALID_CONFINEMENT: `confinement.egress` must be \"deny\" or an array of host:port allowlist entries (got "@,
            );
        }
        if let Some(JsonView::Array(a)) = block.get("env"@) {
            lemma_entries(
                a,
                "INVALID_CONFINEMENT: `confinement.env` must be an array of env var names to pass through (got "@,
            );
        }
        lemma_limits(block.get("limits"@));
    }
}

proof fn lemma_limits(v: Option<JsonView>)
    ensures
        limits_policy(v) is Ok <==> usable_limits(v),
        limits_policy(v) matches Ok(limits) ==> limits_of(v, limits),
{
}

/// Whether three arguments stand at a place.
pub open spec fn stand(a: Seq<Seq<char>>, p: int, x: Seq<char>, y: Seq<char>, z: Seq<char>) -> bool {
    0 <= p && p + 3 <= a.len() && a[p] == x && a[p + 1] == y && a[p + 2] == z
}

/// Whether two arguments stand at a place.
pub open spec fn pair(a: Seq<Seq<char>>, p: int, x: Seq<char>, y: Seq<char>) -> bool {
    0 <= p && p + 2 <= a.len() && a[p] == x && a[p + 1] == y
}

/// How many of the first names have a value.
pub open spec fn how_many(values: Seq<Option<String>>, n: int) -> int
    decreases n,
{
    if n <= 0 {
        0
    } else if values[n - 1] is Some {
        how_many(values, n - 1) + 1
    } else {
        how_many(values, n - 1)
    }
}

proof fn lemma_ambient(names: Seq<Seq<char>>, values: Seq<Option<String>>)
    ensures
        ({
            let a = ambient_args(names, values);
            &&& a.len() == 3 * how_many(values, names.len() as int)
            &&& forall|k: int|
                #![trigger names[k]]
                0 <= k < names.len() ==> (values[k] matches Some(v) ==> stand(
                    a,
                    3 * how_many(values, k),
                    "--setenv"@,
                    names[k],
                    v@,
                ))
        }),
    decreases names.len(),
{
    if names.len() > 0 {
        let init = names.drop_last();
        lemma_ambient(init, values);
        let a = ambient_args(names, values);
        let n = names.len() - 1;
        assert forall|k: int|
            #![trigger names[k]]
            0 <= k < names.len() implies (values[k] matches Some(v) ==> stand(
            a,
            3 * how_many(values, k),
            "--setenv"@,
            names[k],
            v@,
        )) by {
            if k < n {
                assert(init[k] == names[k]);
            }
        }
    }
}

proof fn lemma_setenv(env: Seq<(String, String)>)
    ensures
        setenv_args(env).len() == 3 * env.len(),
        forall|k: int|
            #![trigger env[k]]
            0 <= k < env.len() ==> stand(setenv_args(env), 3 * k, "--setenv"@, env[k].0@, env[k].1@),
    decreases env.len(),
{
    if env.len() > 0 {
        let init = env.drop_last();
        lemma_setenv(init);
        assert forall|k: int| #![trigger env[k]] 0 <= k < env.len() implies stand(
            setenv_args(env),
            3 * k,
            "--setenv"@,
            env[k].0@,
            env[k].1@,
        ) by {
            if k < init.len() {
                assert(init[k] == env[k]);
            }
        }
    }
}

proof fn lemma_binds(files: Seq<Seq<char>>)
    ensures
        bind_args(files).len() == 3 * files.len(),
        forall|k: int|
            #![trigger files[k]]
            0 <= k < files.len() ==> stand(bind_args(files), 3 * k, "--ro-bind"@, files[k], files[k]),
    decreases files.len(),
{
    if files.len() > 0 {
        let init = files.drop_last();
        lemma_binds(init);
        assert forall|k: int| #![trigger files[k]] 0 <= k < files.len() implies stand(
            bind_args(files),
            3 * k,
            "--ro-bind"@,
            files[k],
            files[k],
        ) by {
            if k < init.len() {
                assert(init[k] == files[k]);
            }
        }
    }
}

/// What bubblewrap is told of a confined run: no namespace is shared, the network among them; of the
/// host's variables those pass that are listed and set; the listed files can be read; only the
/// workspace can be written; and the command comes last. Nothing else is told.
pub proof fn law_confined_runs_reach_nothing_else(spec: SandboxSpec, ambient: Seq<Option<String>>)
    ensures
        ({
            let a = bwrap_args(spec, ambient);
            let names = texts(spec.env_allowlist@);
            let files = texts(spec.ro_binds@);
            let command = texts(spec.command@);
            let passed = how_many(ambient, names.len() as int);
            let set = 30 + 3 * passed;
            let bound = set + 3 * spec.env@.len();
            let work = bound + 3 * files.len();
            let last = a.len() - command.len();
            &&& a[0] == "--unshare-user"@ && a[1] == "--unshare-pid"@ && a[2] == "--unshare-ipc"@
            &&& a[3] == "--unshare-uts"@ && a[4] == "--unshare-net"@ && a[5] == "--clearenv"@
            &&& stand(a, 6, "--setenv"@, "PATH"@, "/usr/bin:/bin"@)
            &&& stand(a, 9, "--ro-bind"@, "/usr"@, "/usr"@)
            &&& forall|k: int|
                #![trigger names[k]]
                0 <= k < names.len() ==> (ambient[k] matches Some(v) ==> stand(
                    a,
                    30 + 3 * how_many(ambient, k),
                    "--setenv"@,
                    names[k],
                    v@,
                ))
            &&& forall|k: int|
                #![trigger spec.env@[k]]
                0 <= k < spec.env@.len() ==> stand(
                    a,
                    set + 3 * k,
                    "--setenv"@,
                    spec.env@[k].0@,
                    spec.env@[k].1@,
                )
            &&& forall|k: int|
                #![trigger files[k]]
                0 <= k < files.len() ==> stand(a, bound + 3 * k, "--ro-bind"@, files[k], files[k])
            &&& match spec.workspace {
                Some(w) => last == work + 6 && stand(a, work, "--bind"@, w@, w@) && a[work + 3]
                    == "--chdir"@ && a[work + 4] == w@,
                None => last == work + 1,
            }
            &&& a[last - 1] == "--"@
            &&& a.skip(last) == command
        }),
{
    let names = texts(spec.env_allowlist@);
    let files = texts(spec.ro_binds@);
    let command = texts(spec.command@);
    lemma_ambient(names, ambient);
    lemma_setenv(spec.env@);
    lemma_binds(files);
    let a = bwrap_args(spec, ambient);
    let x = ambient_args(names, ambient);
    let y = setenv_args(spec.env@);
    let z = bind_args(files);
    let set = 30 + x.len();
    let bound = set + y.len();
    assert forall|p: int| 0 <= p < x.len() implies a[30 + p] == #[trigger] x[p] by {}
    assert forall|p: int| 0 <= p < y.len() implies a[set + p] == #[trigger] y[p] by {}
    assert forall|p: int| 0 <= p < z.len() implies a[bound + p] == #[trigger] z[p] by {}
    assert forall|k: int| #![trigger names[k]] 0 <= k < names.len() implies (ambient[k] matches Some(v)
        ==> stand(a, 30 + 3 * how_many(ambient, k), "--setenv"@, names[k], v@)) by {
        if let Some(v) = ambient[k] {
            let p = 3 * how_many(ambient, k);
            assert(stand(x, p, "--setenv"@, names[k], v@));
            assert(a[30 + p] == x[p] && a[30 + (p + 1)] == x[p + 1] && a[30 + (p + 2)] == x[p + 2]);
        }
    }
    assert forall|k: int| #![trigger spec.env@[k]] 0 <= k < spec.env@.len() implies stand(
        a,
        set + 3 * k,
        "--setenv"@,
        spec.env@[k].0@,
        spec.env@[k].1@,
    ) by {
        let p = 3 * k;
        assert(stand(y, p, "--setenv"@, spec.env@[k].0@, spec.env@[k].1@));
        assert(a[set + p] == y[p] && a[set + (p + 1)] == y[p + 1] && a[set + (p + 2)] == y[p + 2]);
    }
    assert forall|k: int| #![trigger files[k]] 0 <= k < files.len() implies stand(
        a,
        bound + 3 * k,
        "--ro-bind"@,
        files[k],
        files[k],
    ) by {
        let p = 3 * k;
        assert(stand(z, p, "--ro-bind"@, files[k], files[k]));
        assert(a[bound + p] == z[p] && a[bound + (p + 1)] == z[p + 1] && a[bound + (p + 2)] == z[p
            + 2]);
    }
    assert(a.skip(a.len() - command.len()) =~= command);
}

/// Where the host can bound the number of processes, the run is put under that bound; else it is
/// started as it is.
pub proof fn law_processes_are_bounded(spec: SandboxSpec, host: HostFacts)
    ensures
        ({
            let (program, a) = bwrap_command(spec, host);
            let inner = bwrap_args(spec, host.ambient@);
            if host.cgroup_scope {
                &&& program == "systemd-run"@
                &&& a.len() == inner.len() + 7
                &&& a[4] == "--property=TasksMax="@ + decimal(spec.limits.max_pids as nat)
                &&& a[5] == "--"@ && a[6] == "bwrap"@
                &&& a.skip(7) == inner
            } else {
                program == "bwrap"@ && a == inner
            }
        }),
{
    let inner = bwrap_args(spec, host.ambient@);
    let a = scope_args(spec.limits.max_pids) + inner;
    assert(a.skip(7) =~= inner);
}

proof fn lemma_env_flags(env: Seq<(String, String)>)
    ensures
        env_flags(env).len() == 2 * env.len(),
        forall|k: int|
            #![trigger env[k]]
            0 <= k < env.len() ==> pair(env_flags(env), 2 * k, "-e"@, env[k].0@ + "="@ + env[k].1@),
    decreases env.len(),
{
    if env.len() > 0 {
        let init = env.drop_last();
        lemma_env_flags(init);
        assert forall|k: int| #![trigger env[k]] 0 <= k < env.len() implies pair(
            env_flags(env),
            2 * k,
            "-e"@,
            env[k].0@ + "="@ + env[k].1@,
        ) by {
            if k < init.len() {
                assert(init[k] == env[k]);
            }
        }
    }
}

proof fn lemma_passthrough(names: Seq<Seq<char>>)
    ensures
        passthrough_flags(names).len() == 2 * names.len(),
        forall|k: int|
            #![trigger names[k]]
            0 <= k < names.len() ==> pair(passthrough_flags(names), 2 * k, "-e"@, names[k]),
    decreases names.len(),
{
    if names.len() > 0 {
        let init = names.drop_last();
        lemma_passthrough(init);
        assert forall|k: int| #![trigger names[k]] 0 <= k < names.len() implies pair(
            passthrough_flags(names),
            2 * k,
            "-e"@,
            names[k],
        ) by {
            if k < init.len() {
                assert(init[k] == names[k]);
            }
        }
    }
}

proof fn lemma_volumes(files: Seq<Seq<char>>)
    ensures
        volume_flags(files).len() == 2 * files.len(),
        forall|k: int|
            #![trigger files[k]]
            0 <= k < files.len() ==> pair(
                volume_flags(files),
                2 * k,
                "-v"@,
                files[k] + ":"@ + files[k] + ":ro"@,
            ),
    decreases files.len(),
{
    if files.len() > 0 {
        let init = files.drop_last();
        lemma_volumes(init);
        assert forall|k: int| #![trigger files[k]] 0 <= k < files.len() implies pair(
            volume_flags(files),
            2 * k,
            "-v"@,
            files[k] + ":"@ + files[k] + ":ro"@,
        ) by {
            if k < init.len() {
                assert(init[k] == files[k]);
            }
        }
    }
}

/// What a container runtime is told of a confined run: no network, the bound on processes, the set
/// and the listed variables, the listed files for reading only, the workspace, and then the image and
/// the command. Nothing else is told.
pub proof fn law_containers_reach_nothing_else(spec: SandboxSpec, image: Seq<char>)
    ensures
        ({
            let a = container_args(spec, image);
            let names = texts(spec.env_allowlist@);
            let files = texts(spec.ro_binds@);
            let command = texts(spec.command@);
            let passed: int = 6 + 2 * spec.env@.len() as int;
            let bound = passed + 2 * names.len();
            let work = bound + 2 * files.len();
            let last = a.len() - command.len();
            &&& pair(a, 0, "run"@, "--rm"@)
            &&& pair(a, 2, "--network"@, "none"@)
            &&& pair(a, 4, "--pids-limit"@, decimal(spec.limits.max_pids as nat))
            &&& forall|k: int|
                #![trigger spec.env@[k]]
                0 <= k < spec.env@.len() ==> pair(
                    a,
                    6 + 2 * k,
                    "-e"@,
                    spec.env@[k].0@ + "="@ + spec.env@[k].1@,
                )
            &&& forall|k: int|
                #![trigger names[k]]
                0 <= k < names.len() ==> pair(a, passed + 2 * k, "-e"@, names[k])
            &&& forall|k: int|
                #![trigger files[k]]
                0 <= k < files.len() ==> pair(
                    a,
                    bound + 2 * k,
                    "-v"@,
                    files[k] + ":"@ + files[k] + ":ro"@,
                )
            &&& match spec.workspace {
                Some(w) => last == work + 5 && pair(a, work, "-v"@, w@ + ":"@ + w@) && pair(
                    a,
                    work + 2,
                    "-w"@,
                    w@,
                ),
                None => last == work + 1,
            }
            &&& a[last - 1] == image
            &&& a.skip(last) == command
        }),
{
    let names = texts(spec.env_allowlist@);
    let files = texts(spec.ro_binds@);
    let command = texts(spec.command@);
    lemma_env_flags(spec.env@);
    lemma_passthrough(names);
    lemma_volumes(files);
    let a = container_args(spec, image);
    let x = env_flags(spec.env@);
    let y = passthrough_flags(names);
    let z = volume_flags(files);
    let passed = 6 + x.len();
    let bound = passed + y.len();
    assert forall|p: int| 0 <= p < x.len() implies a[6 + p] == #[trigger] x[p] by {}
    assert forall|p: int| 0 <= p < y.len() implies a[passed + p] == #[trigger] y[p] by {}
    assert forall|p: int| 0 <= p < z.len() implies a[bound + p] == #[trigger] z[p] by {}
    assert forall|k: int| #![trigger spec.env@[k]] 0 <= k < spec.env@.len() implies pair(
        a,
        6 + 2 * k,
        "-e"@,
        spec.env@[k].0@ + "="@ + spec.env@[k].1@,
    ) by {
        let p = 2 * k;
        assert(pair(x, p, "-e"@, spec.env@[k].0@ + "="@ + spec.env@[k].1@));
        assert(a[6 + p] == x[p] && a[6 + (p + 1)] == x[p + 1]);
    }
    assert forall|k: int| #![trigger names[k]] 0 <= k < names.len() implies pair(
        a,
        passed + 2 * k,
        "-e"@,
        names[k],
    ) by {
        let p = 2 * k;
        assert(pair(y, p, "-e"@, names[k]));
        assert(a[passed + p] == y[p] && a[passed + (p + 1)] == y[p + 1]);
    }
    assert forall|k: int| #![trigger files[k]] 0 <= k < files.len() implies pair(
        a,
        bound + 2 * k,
        "-v"@,
        files[k] + ":"@ + files[k] + ":ro"@,
    ) by {
        let p = 2 * k;
        assert(pair(z, p, "-v"@, files[k] + ":"@ + files[k] + ":ro"@));
        assert(a[bound + p] == z[p] && a[bound + (p + 1)] == z[p + 1]);
    }
    assert(a.skip(a.len() - command.len()) =~= command);
}

} // verus!
