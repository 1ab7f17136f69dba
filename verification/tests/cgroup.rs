use gpu_arbiter::cgroup::{attribute_units, unit_from_cgroup, CgroupFile};
use gpu_arbiter::classify::GpuGraphicsProc;

#[test]
fn cgroup_v2_single_line() {
    assert_eq!(
        unit_from_cgroup("0::/system.slice/ollama.service\n"),
        Some("ollama.service".to_string())
    );
}

#[test]
fn cgroup_v1_multi_line_finds_the_resolving_controller() {
    let contents = "\
12:pids:/system.slice/ollama.service
11:hugetlb:/
10:net_prio,net_cls:/
9:perf_event:/
2:cpu,cpuacct:/system.slice/ollama.service
1:name=systemd:/system.slice/ollama.service
0::/system.slice/ollama.service
";
    assert_eq!(
        unit_from_cgroup(contents),
        Some("ollama.service".to_string())
    );
}

#[test]
fn cgroup_v1_only_late_line_resolves() {
    let contents = "\
10:net_prio:/
9:perf_event:/
1:name=systemd:/system.slice/asr-runner.service
";
    assert_eq!(
        unit_from_cgroup(contents),
        Some("asr-runner.service".to_string())
    );
}

#[test]
fn templated_unit() {
    assert_eq!(
        unit_from_cgroup("0::/system.slice/getty@tty1.service\n"),
        Some("getty@tty1.service".to_string())
    );
}

#[test]
fn nested_slice_resolves_the_deepest_unit() {
    assert_eq!(
        unit_from_cgroup("0::/system.slice/system-asr.slice/asr-runner.service\n"),
        Some("asr-runner.service".to_string())
    );
}

#[test]
fn transient_scope_is_a_valid_unit() {
    assert_eq!(
        unit_from_cgroup("0::/system.slice/docker-abc123.scope\n"),
        Some("docker-abc123.scope".to_string())
    );
}

#[test]
fn user_session_cgroup_is_none() {
    let contents = "0::/user.slice/user-1000.slice/user@1000.service/app.slice/app-foo.scope\n";
    assert_eq!(unit_from_cgroup(contents), None);
}

#[test]
fn bare_root_cgroup_is_none() {
    assert_eq!(unit_from_cgroup("0::/\n"), None);
    assert_eq!(unit_from_cgroup(""), None);
}

#[test]
fn system_slice_with_no_unit_segment_is_none() {
    assert_eq!(unit_from_cgroup("0::/system.slice/\n"), None);
    assert_eq!(unit_from_cgroup("0::/system.slice\n"), None);
}

#[test]
fn garbage_line_is_none_not_a_panic() {
    assert_eq!(unit_from_cgroup("not a cgroup line at all"), None);
    assert_eq!(unit_from_cgroup(":::::\n"), None);
}

fn compute(pid: i32, name: &str) -> GpuGraphicsProc {
    GpuGraphicsProc {
        pid,
        name: name.to_string(),
        vram_mb: 10,
        owning_unit: None,
    }
}

#[test]
fn attribution_fills_in_the_unit_of_each_process() {
    let files = vec![
        CgroupFile {
            pid: 7,
            contents: "0::/system.slice/ollama.service\n".to_string(),
        },
        CgroupFile {
            pid: 8,
            contents: "0::/user.slice/user-1000.slice/session-2.scope\n".to_string(),
        },
    ];
    let out = attribute_units(vec![compute(7, "a"), compute(8, "b"), compute(9, "c")], &files);
    assert_eq!(out[0].owning_unit.as_deref(), Some("ollama.service"));
    assert_eq!(out[1].owning_unit, None);
    assert_eq!(out[2].owning_unit, None);
    assert_eq!(out[0].name, "a");
    assert_eq!(out[2].pid, 9);
}

#[test]
fn a_slice_below_another_root_is_no_unit() {
    assert_eq!(
        unit_from_cgroup("0::/user.slice/system.slice/foo.service\n"),
        None
    );
    assert_eq!(
        unit_from_cgroup("0:://system.slice//foo.service\n").as_deref(),
        Some("foo.service")
    );
}
