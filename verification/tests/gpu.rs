use gpu_arbiter::classify::GpuComputeProc;
use gpu_arbiter::config::GpuBackendKind;
use gpu_arbiter::gpu::{
    attribute_unit_vram, is_card_node, parse_compute_procs_csv, parse_memory_csv, parse_vram_sysfs,
    unit_vram_fits, vram_mb_by_cgroup, vram_mb_matching, GpuBackend, GpuError, GpuMemory,
};

#[test]
fn parse_memory_simple() {
    let m = parse_memory_csv("21500, 32768\n").unwrap();
    assert_eq!(
        m,
        GpuMemory {
            used_mb: 21500,
            total_mb: 32768
        }
    );
}

#[test]
fn parse_memory_rejects_garbage() {
    assert!(parse_memory_csv("").is_err());
    assert!(parse_memory_csv("oops").is_err());
}

#[test]
fn parse_compute_procs_skips_bad_lines() {
    let out = "12345, kwin_wayland, 512\n\nbroken line\n999, MyGame, 8000\n";
    let procs = parse_compute_procs_csv(out);
    assert_eq!(procs.len(), 2);
    assert_eq!(procs[0].name, "kwin_wayland");
    assert_eq!(procs[1].vram_mb, 8000);
}

#[test]
fn parse_compute_procs_na_vram_is_zero() {
    let procs = parse_compute_procs_csv("42, X, [N/A]\n");
    assert_eq!(procs.len(), 1);
    assert_eq!(procs[0].vram_mb, 0);
}

#[test]
fn parse_memory_uses_first_line_on_multi_gpu() {
    let m = parse_memory_csv("21500, 32768\n100, 8192\n").unwrap();
    assert_eq!(m.used_mb, 21500);
    assert_eq!(m.total_mb, 32768);
}

#[test]
fn parse_memory_rejects_missing_total() {
    assert!(parse_memory_csv("21500\n").is_err());
}

#[test]
fn parse_compute_procs_realistic_path_name() {
    let out = "1234, /usr/lib/steam/game.x86_64, 8192\n";
    let procs = parse_compute_procs_csv(out);
    assert_eq!(procs.len(), 1);
    assert_eq!(procs[0].pid, 1234);
    assert_eq!(procs[0].name, "/usr/lib/steam/game.x86_64");
    assert_eq!(procs[0].vram_mb, 8192);
}

#[test]
fn parse_compute_procs_empty_is_empty() {
    assert!(parse_compute_procs_csv("").is_empty());
    assert!(parse_compute_procs_csv("\n\n").is_empty());
}

#[test]
fn parse_vram_sysfs_bytes_to_mib() {
    let m = parse_vram_sysfs("21474836480\n", "25769803776\n").unwrap();
    assert_eq!(
        m,
        GpuMemory {
            used_mb: 20480,
            total_mb: 24576  // 24 GiB
        }
    );
}

#[test]
fn parse_vram_sysfs_truncates_sub_mib() {
    let m = parse_vram_sysfs("1048577", "1048576").unwrap();
    assert_eq!(m.used_mb, 1);
    assert_eq!(m.total_mb, 1);
}

#[test]
fn parse_vram_sysfs_zero_used() {
    let m = parse_vram_sysfs("0\n", "17179869184\n").unwrap();
    assert_eq!(m.used_mb, 0);
    assert_eq!(m.total_mb, 16384);
}

#[test]
fn parse_vram_sysfs_rejects_garbage() {
    assert!(parse_vram_sysfs("not_a_number", "123").is_err());
    assert!(parse_vram_sysfs("123", "").is_err());
}

#[test]
fn resolve_explicit_kinds() {
    assert_eq!(
        GpuBackend::resolve(GpuBackendKind::Nvidia, false, true),
        GpuBackend::Nvidia
    );
    assert_eq!(GpuBackend::resolve(GpuBackendKind::Amd, true, false), GpuBackend::Amd);
}

#[test]
fn nvidia_is_attribution_capable_amd_is_not() {
    assert!(GpuBackend::Nvidia.attribution_capable());
    assert!(!GpuBackend::Amd.attribution_capable());
}

#[test]
fn smoke_resolve_auto_never_panics_and_defaults_sanely() {
    let b = GpuBackend::resolve(GpuBackendKind::Auto, false, false);
    assert_eq!(b, GpuBackend::Nvidia);
    assert_eq!(GpuBackend::resolve(GpuBackendKind::Auto, true, true), GpuBackend::Nvidia);
    assert_eq!(GpuBackend::resolve(GpuBackendKind::Auto, false, true), GpuBackend::Amd);
}

#[test]
fn default_backend_is_nvidia() {
    assert_eq!(GpuBackend::default(), GpuBackend::Nvidia);
}

#[test]
fn vram_matching_sums_matching_compute_procs() {
    let procs = parse_compute_procs_csv(
        "111, /usr/local/bin/ollama, 21000\n222, /usr/bin/ollama runner, 500\n333, python3, 4000\n",
    );
    assert_eq!(vram_mb_matching(&procs, "ollama"), Some(21500));
    assert_eq!(vram_mb_matching(&procs, "python"), Some(4000));
}

#[test]
fn vram_matching_is_case_insensitive() {
    let procs = parse_compute_procs_csv("111, /opt/VLLM/Server, 8000\n");
    assert_eq!(vram_mb_matching(&procs, "vllm"), Some(8000));
}

#[test]
fn vram_matching_none_when_absent() {
    let procs = parse_compute_procs_csv("333, python3, 4000\n");
    assert_eq!(vram_mb_matching(&procs, "ollama"), None);
    assert_eq!(vram_mb_matching(&[], "ollama"), None);
}

fn attributed(pid: i32, name: &str, vram_mb: u64, owning_unit: Option<&str>) -> GpuComputeProc {
    GpuComputeProc {
        pid,
        name: name.to_string(),
        vram_mb,
        owning_unit: owning_unit.map(str::to_string),
    }
}

#[test]
fn vram_by_cgroup_sums_matching_unit_ignores_name() {
    let procs = vec![
        attributed(
            1,
            "/opt/asr-runner/venv/bin/python",
            6000,
            Some("asr-runner.service"),
        ),
        attributed(2, "/usr/local/bin/ollama", 21000, Some("ollama.service")),
        attributed(3, "some-other-proc", 500, None),
    ];
    assert_eq!(vram_mb_by_cgroup(&procs, "asr-runner.service"), Some(6000));
    assert_eq!(vram_mb_by_cgroup(&procs, "ollama.service"), Some(21000));
}

#[test]
fn vram_by_cgroup_none_when_no_owning_unit_matches() {
    let procs = vec![attributed(1, "python", 4000, None)];
    assert_eq!(vram_mb_by_cgroup(&procs, "asr-runner.service"), None);
    assert_eq!(vram_mb_by_cgroup(&[], "asr-runner.service"), None);
}

#[test]
fn attribute_unit_vram_systemd_trusts_cgroup_even_at_zero() {
    let procs = vec![attributed(1, "other-proc", 999, Some("other.service"))];
    assert_eq!(
        attribute_unit_vram(Some(&procs), true, "ollama.service", None),
        Some(0)
    );
}

#[test]
fn attribute_unit_vram_systemd_ignores_vram_match_precedence() {
    let procs = vec![attributed(
        1,
        "totally-unrelated-name",
        5000,
        Some("ollama.service"),
    )];
    assert_eq!(
        attribute_unit_vram(Some(&procs), true, "ollama.service", Some("ollama")),
        Some(5000)
    );
}

#[test]
fn attribute_unit_vram_command_driven_falls_back_to_vram_match() {
    let procs = parse_compute_procs_csv("1, /usr/local/bin/ollama, 21000\n");
    assert_eq!(
        attribute_unit_vram(Some(&procs), false, "ollama", Some("ollama")),
        Some(21000)
    );
    let empty: Vec<GpuComputeProc> = Vec::new();
    assert_eq!(
        attribute_unit_vram(Some(&empty), false, "ollama", Some("ollama")),
        Some(0)
    );
}

#[test]
fn attribute_unit_vram_command_driven_without_vram_match_is_none() {
    let procs = parse_compute_procs_csv("1, /usr/local/bin/ollama, 21000\n");
    assert_eq!(
        attribute_unit_vram(Some(&procs), false, "ollama", None),
        None
    );
}

#[test]
fn attribute_unit_vram_none_when_compute_query_failed() {
    assert_eq!(
        attribute_unit_vram(None, true, "ollama.service", Some("ollama")),
        None
    );
    assert_eq!(
        attribute_unit_vram(None, false, "ollama", Some("ollama")),
        None
    );
}

#[test]
fn memory_errors_quote_the_line() {
    assert_eq!(
        parse_memory_csv("\n \n"),
        Err(GpuError::Parse("empty nvidia-smi output".into()))
    );
    assert_eq!(
        parse_memory_csv("a\"b, 1"),
        Err(GpuError::Parse("memory.used in \"a\\\"b, 1\"".into()))
    );
    assert_eq!(
        parse_memory_csv("1, x"),
        Err(GpuError::Parse("memory.total in \"1, x\"".into()))
    );
    assert_eq!(
        parse_vram_sysfs("x\n", "1"),
        Err(GpuError::Parse("mem_info_vram_used in \"x\\n\"".into()))
    );
    assert_eq!(
        parse_vram_sysfs("1", "-2"),
        Err(GpuError::Parse("mem_info_vram_total in \"-2\"".into()))
    );
}

#[test]
fn numbers_are_read_as_the_standard_library_reads_them() {
    assert_eq!(parse_memory_csv("+5, 007").unwrap().used_mb, 5);
    assert_eq!(parse_memory_csv("+5, 007").unwrap().total_mb, 7);
    assert!(parse_memory_csv("18446744073709551616, 1").is_err());
    assert_eq!(
        parse_memory_csv("18446744073709551615, 1").unwrap().used_mb,
        u64::MAX
    );
    let p = parse_compute_procs_csv("-2147483648, x, 1\n2147483648, y, 1\n");
    assert_eq!(p.len(), 1);
    assert_eq!(p[0].pid, i32::MIN);
}

#[test]
fn cards_are_told_from_their_outputs() {
    assert!(is_card_node("card0"));
    assert!(is_card_node("card12"));
    assert!(is_card_node("card"));
    assert!(!is_card_node("card0-DP-1"));
    assert!(!is_card_node("renderD128"));
}

#[test]
fn vram_that_is_no_number_is_found_out() {
    let a = attributed(1, "a", u64::MAX, None);
    let b = attributed(2, "b", 1, None);
    let both = [a, b];
    assert!(unit_vram_fits(Some(&both), false, "u", Some("a")));
    assert_eq!(
        attribute_unit_vram(Some(&both), false, "u", Some("b")),
        Some(1)
    );
    assert!(!unit_vram_fits(Some(&both), false, "u", Some("")));
    assert!(unit_vram_fits(Some(&both), false, "u", None));
    assert!(unit_vram_fits(None, true, "u", Some("")));
    let mine = [
        attributed(1, "a", u64::MAX, Some("u.service")),
        attributed(2, "b", 1, Some("v.service")),
        attributed(3, "c", 1, Some("u.service")),
    ];
    assert!(unit_vram_fits(Some(&mine), true, "v.service", None));
    assert!(!unit_vram_fits(Some(&mine), true, "u.service", None));
    assert_eq!(
        attribute_unit_vram(Some(&mine), true, "v.service", None),
        Some(1)
    );
}

#[test]
fn gpu_errors_say_what_went_wrong() {
    let e = GpuError::Exit {
        command: "nvidia-smi".into(),
        status: "exit status: 9".into(),
        stderr: "no device".into(),
    };
    assert_eq!(e.message(), "nvidia-smi exited exit status: 9: no device");
    let e = GpuError::Io {
        context: "reading /sys/class/drm".into(),
        detail: "gone".into(),
    };
    assert_eq!(e.message(), "reading /sys/class/drm: gone");
    let e = GpuError::Timeout {
        command: "nvidia-smi".into(),
        elapsed_s: 2,
    };
    assert_eq!(e.message(), "nvidia-smi timed out after 2s");
    assert_eq!(
        GpuError::NoAmdCard("/sys/class/drm".into()).message(),
        "no amdgpu card with mem_info_vram_* under /sys/class/drm"
    );
    assert_eq!(
        GpuError::TaskPanicked("x".into()).message(),
        "amd sysfs read task panicked: x"
    );
    assert_eq!(GpuError::Parse("y".into()).message(), "parsing gpu output: y");
}
