use gpu_arbiter::classify::GpuComputeProc;
use gpu_arbiter::config::{Config, Introspection, Platform};
use gpu_arbiter::debounce::{gather, is_gathered, Arrival};
use gpu_arbiter::eviction::compute_fits;
use gpu_arbiter::gpu::{
    amdgpu_card_present, read_cards, smi_output, DrmNode, GpuError, GpuMemory, SmiRun,
};
use gpu_arbiter::observe::{listed_cmdline, proc_entry, ProcInfo};
use gpu_arbiter::presence::{is_event_node, is_watched, not_among, InputCaps};
use gpu_arbiter::state::ReconcileTrigger;
use gpu_arbiter::units::{
    busy_verdict, listing_command, loaded_models, read_models, HookFailure, HookRun,
};

#[test]
fn process_events_are_gathered_and_nothing_else_is_lost() {
    assert_eq!(gather(Arrival::Trigger(ReconcileTrigger::ProcEvent)), None);
    assert_eq!(gather(Arrival::WindowOver), Some(ReconcileTrigger::ProcEvent));
    assert_eq!(gather(Arrival::Closed), Some(ReconcileTrigger::ProcEvent));
    let stop = ReconcileTrigger::ManualStop { unit: "u".into() };
    assert_eq!(gather(Arrival::Trigger(stop.clone())), Some(stop.clone()));
    assert!(is_gathered(&ReconcileTrigger::ProcEvent));
    assert!(!is_gathered(&stop));
    assert!(!is_gathered(&ReconcileTrigger::Timer));
}

#[test]
fn entries_of_proc_are_processes_where_they_are_numbers() {
    assert_eq!(
        proc_entry("42", b"a\0b\0"),
        Some(ProcInfo {
            pid: 42,
            cmdline: "a b".into()
        })
    );
    assert_eq!(proc_entry("self", b"a\0"), None);
    assert_eq!(proc_entry("7", b"\0\0"), None);
    assert_eq!(proc_entry("7", b""), None);
}

#[test]
fn listed_arguments_or_the_program_make_a_command_line() {
    assert_eq!(listed_cmdline("a b", Some("x")).as_deref(), Some("a b"));
    assert_eq!(listed_cmdline("  ", Some("x.exe")).as_deref(), Some("x.exe"));
    assert_eq!(listed_cmdline("", Some(" ")), None);
    assert_eq!(listed_cmdline("", None), None);
}

#[test]
fn devices_are_watched_where_hardware_and_people_are_behind_them() {
    let keys = InputCaps {
        has_keys: true,
        has_rel: false,
        has_abs: false,
    };
    assert!(is_watched(Some("/sys/devices/pci0/input/input1"), keys));
    assert!(!is_watched(Some("/sys/devices/virtual/input/input1"), keys));
    assert!(!is_watched(None, keys));
    assert!(!is_watched(Some("/sys/devices/pci0/x"), InputCaps::default()));
    assert!(is_event_node("event7"));
    assert!(!is_event_node("mouse0"));
}

#[test]
fn devices_come_and_go() {
    let names = |l: &[&str]| l.iter().map(|s| s.to_string()).collect::<Vec<_>>();
    let watched = names(&["a", "b", "c"]);
    let present = names(&["c", "d", "a"]);
    assert_eq!(not_among(&watched, &present), vec![1]);
    assert_eq!(not_among(&present, &watched), vec![1]);
    assert_eq!(not_among(&[], &watched), Vec::<usize>::new());
}

fn node(name: &str, driver: Option<&str>, used: Option<&str>, total: Option<&str>) -> DrmNode {
    let own = |s: Option<&str>| s.map(str::to_string);
    DrmNode {
        name: name.to_string(),
        driver: own(driver),
        used: own(used),
        total: own(total),
    }
}

#[test]
fn first_card_that_tells_its_memory_is_read() {
    let output = node("card0-DP-1", Some("amdgpu"), Some("1"), Some("1"));
    let silent = node("card0", Some("amdgpu"), None, Some("1"));
    let telling = node("card1", None, Some("1048576\n"), Some("3145728\n"));
    assert_eq!(
        read_cards("/d", &vec![output.clone(), silent.clone(), telling.clone()]),
        Ok(GpuMemory {
            used_mb: 1,
            total_mb: 3
        })
    );
    assert_eq!(
        read_cards("/d", &vec![output.clone(), silent.clone()]),
        Err(GpuError::NoAmdCard("/d".into()))
    );
    let broken = node("card2", None, Some("x"), Some("1"));
    assert!(matches!(
        read_cards("/d", &vec![broken, telling.clone()]),
        Err(GpuError::Parse(_))
    ));
    assert!(amdgpu_card_present(&vec![output.clone(), silent]));
    assert!(!amdgpu_card_present(&vec![output, telling]));
}

#[test]
fn runs_of_the_tool_become_output_or_errors() {
    assert_eq!(smi_output(SmiRun::Wrote("1, 2".into())), Ok("1, 2".into()));
    let failed = SmiRun::Failed {
        status: "exit status: 9".into(),
        stderr: b" no \xff device \n".to_vec(),
    };
    assert_eq!(
        smi_output(failed).unwrap_err().message(),
        "nvidia-smi exited exit status: 9: no \u{fffd} device"
    );
    assert_eq!(
        smi_output(SmiRun::NotSpawned("gone".into())).unwrap_err().message(),
        "spawning nvidia-smi: gone"
    );
    assert_eq!(
        smi_output(SmiRun::TimedOut).unwrap_err().message(),
        "nvidia-smi timed out after 2s"
    );
    assert_eq!(
        smi_output(SmiRun::WroteNoText("bad".into())).unwrap_err().message(),
        "parsing gpu output: nvidia-smi stdout not UTF-8: bad"
    );
}

#[test]
fn models_are_listed_as_configured() {
    let own = Introspection::Command("my-cli  list".into());
    assert_eq!(listing_command(&own).unwrap(), vec!["my-cli", "list"]);
    assert_eq!(
        listing_command(&Introspection::Ollama).unwrap(),
        vec!["ollama", "ps"]
    );
    assert_eq!(listing_command(&Introspection::Unlisted), None);
    assert_eq!(read_models(&own, " a \n\nb\n"), vec!["a", "b"]);
    assert_eq!(
        read_models(&Introspection::Ollama, "NAME ID\nqwen3:30b x\n"),
        vec!["qwen3:30b"]
    );
    assert!(read_models(&Introspection::Unlisted, "a").is_empty());
    assert_eq!(loaded_models(&own, true, b"a\xff\n"), vec!["a\u{fffd}"]);
    assert!(loaded_models(&own, false, b"a\n").is_empty());
}

#[test]
fn only_a_probe_that_succeeds_means_work() {
    assert!(busy_verdict(Some(HookRun::Success)));
    assert!(!busy_verdict(Some(HookRun::Failed(HookFailure::NonZero))));
    assert!(!busy_verdict(Some(HookRun::Failed(HookFailure::Unrunnable))));
    assert!(!busy_verdict(None));
}

#[test]
fn stock_configuration_manages_one_unit() {
    let c = Config::stock(Platform::Unix);
    assert_eq!(c, Config::default());
    assert_eq!(c.units.len(), 1);
    assert_eq!(c.units[0].introspection(), Introspection::Ollama);
    assert_eq!(c.yield_timeout_s, 3);
}

#[test]
fn only_the_unit_s_own_sum_must_be_a_number() {
    let p = |vram_mb: u64, unit: &str| GpuComputeProc {
        pid: 1,
        name: "x".into(),
        vram_mb,
        owning_unit: Some(unit.into()),
    };
    let list = Some(vec![p(u64::MAX, "other"), p(1, "ollama.service"), p(1, "other")]);
    let c = Config::stock(Platform::Unix);
    assert!(compute_fits(&c.units[0], &list));
    assert!(compute_fits(&c.units[0], &None));
    let mine = Some(vec![p(u64::MAX, "ollama.service"), p(1, "ollama.service")]);
    assert!(!compute_fits(&c.units[0], &mine));
}
