use gpu_arbiter::classify::classify;
use gpu_arbiter::config::{Config, GamePattern, ManagedUnit};
use gpu_arbiter::names::NameMap;
use gpu_arbiter::reconcile::{
    claim_set, effective_demand, ensure_running_targets, ensure_running_toctou_clear,
    flatten_cmdline, flatten_text, preempted_positions, preempted_units, unit_action, ProcInfo,
    ProcSnapshot, UnitAction,
};
use gpu_arbiter::state::{Claim, State};

fn proc(pid: i32, cmdline: &str) -> ProcInfo {
    ProcInfo {
        pid,
        cmdline: cmdline.to_string(),
    }
}

#[test]
fn empty_snapshot_no_claims() {
    let cfg = Config::default();
    assert!(claim_set(&ProcSnapshot::default(), &cfg).is_empty());
}

#[test]
fn flatten_cmdline_joins_nul_argv() {
    let raw = b"reaper\0SteamLaunch AppId=440\0--\0/games/tf2\0";
    assert_eq!(
        flatten_cmdline(raw),
        "reaper SteamLaunch AppId=440 -- /games/tf2"
    );
    let cfg = Config::default();
    assert_eq!(
        classify(&flatten_cmdline(raw), &cfg),
        Some(Claim::Steam("440".into()))
    );
}

#[test]
fn flatten_cmdline_empty_and_kernel_thread() {
    assert_eq!(flatten_cmdline(b""), "");
    assert_eq!(flatten_cmdline(b"\0\0\0"), "");
}

#[test]
fn flatten_cmdline_handles_non_utf8() {
    let raw = b"game\0\xff\xfe\0arg\0";
    let flat = flatten_cmdline(raw);
    assert!(flat.starts_with("game "));
    assert!(flat.ends_with("arg"));
}

#[test]
fn steam_proc_yields_claim() {
    let cfg = Config::default();
    let snap = ProcSnapshot {
        procs: vec![
            proc(1, "/usr/bin/firefox"),
            proc(2, "reaper SteamLaunch AppId=440 -- tf2"),
        ],
        gpu_graphics: vec![],
    };
    assert_eq!(claim_set(&snap, &cfg), vec![Claim::Steam("440".into())]);
}

#[test]
fn duplicate_claims_collapse() {
    let cfg = Config::default();
    let snap = ProcSnapshot {
        procs: vec![
            proc(2, "SteamLaunch AppId=440 -- a"),
            proc(3, "SteamLaunch AppId=440 -- b"),
        ],
        gpu_graphics: vec![],
    };
    assert_eq!(claim_set(&snap, &cfg), vec![Claim::Steam("440".into())]);
}

#[test]
fn pattern_and_steam_both_counted() {
    let mut cfg = Config::default();
    cfg.game_patterns.push(GamePattern {
        name: "heroic".into(),
        match_substr: "Heroic".into(),
        exclude: Vec::new(),
    });
    let snap = ProcSnapshot {
        procs: vec![
            proc(2, "SteamLaunch AppId=10 -- cs"),
            proc(3, "/opt/Heroic/heroic"),
        ],
        gpu_graphics: vec![],
    };
    let claims = claim_set(&snap, &cfg);
    assert!(claims.contains(&Claim::Steam("10".into())));
    assert!(claims.contains(&Claim::Pattern("heroic".into())));
}

fn ladder_cfg() -> Config {
    Config::from_toml(
        r#"
        game_priority = 100

        [[managed_units]]
        unit = "comfyui"
        priority = 75

        [[managed_units]]
        unit = "ollama"
        priority = 50

        [[managed_units]]
        unit = "asr-runner"
        priority = 25
        "#,
    )
    .unwrap()
}

fn unit_named<'c>(cfg: &'c Config, name: &str) -> &'c ManagedUnit {
    cfg.resolved_units()
        .iter()
        .find(|u| u.unit == name)
        .expect("unit in fixture")
}

fn preempted_names(cfg: &Config, demand: Option<u8>) -> Vec<String> {
    let mut v: Vec<String> = preempted_units(cfg, demand)
        .iter()
        .map(|u| u.unit.clone())
        .collect();
    v.sort();
    v
}

#[test]
fn idle_machine_preempts_nothing() {
    let cfg = ladder_cfg();
    assert_eq!(effective_demand(&[], &cfg, &[]), None);
    assert!(preempted_units(&cfg, None).is_empty());
}

#[test]
fn a_game_preempts_every_tenant() {
    let cfg = ladder_cfg();
    let claims = vec![Claim::Steam("413150".to_string())];
    let demand = effective_demand(&claims, &cfg, &[]);
    assert_eq!(demand, Some(100));
    assert_eq!(
        preempted_names(&cfg, demand),
        vec!["asr-runner", "comfyui", "ollama"]
    );
}

#[test]
fn a_game_evicts_every_unit_under_stock_config() {
    let cfg = Config::from_toml(
        r#"
        [[managed_units]]
        unit = "a"

        [[managed_units]]
        unit = "b"

        [[managed_units]]
        unit = "c"
        "#,
    )
    .unwrap();
    let claims = vec![Claim::Steam("413150".to_string())];
    let demand = effective_demand(&claims, &cfg, &[]);
    assert_eq!(
        preempted_units(&cfg, demand).len(),
        cfg.resolved_units().len(),
        "a game must evict every unit when no unit opts above game_priority"
    );
}

#[test]
fn a_busy_middle_tier_preempts_only_below_it() {
    let cfg = ladder_cfg();
    let ollama = unit_named(&cfg, "ollama");
    let demand = effective_demand(&[], &cfg, &[ollama]);
    assert_eq!(demand, Some(50));
    assert_eq!(preempted_names(&cfg, demand), vec!["asr-runner"]);
}

#[test]
fn a_busy_unit_never_preempts_itself() {
    let cfg = ladder_cfg();
    for name in ["comfyui", "ollama", "asr-runner"] {
        let u = unit_named(&cfg, name);
        let demand = effective_demand(&[], &cfg, &[u]);
        assert!(
            !preempted_names(&cfg, demand).contains(&name.to_string()),
            "{name} preempted itself"
        );
    }
}

#[test]
fn equal_priorities_coexist() {
    let cfg = Config::from_toml(
        r#"
        [[managed_units]]
        unit = "a"
        priority = 50

        [[managed_units]]
        unit = "b"
        priority = 50
        "#,
    )
    .unwrap();
    let a = unit_named(&cfg, "a");
    let demand = effective_demand(&[], &cfg, &[a]);
    assert_eq!(demand, Some(50));
    assert!(preempted_units(&cfg, demand).is_empty());
}

#[test]
fn a_game_outranks_a_busy_tenant() {
    let cfg = ladder_cfg();
    let comfy = unit_named(&cfg, "comfyui");
    let claims = vec![Claim::Steam("413150".to_string())];
    let demand = effective_demand(&claims, &cfg, &[comfy]);
    assert_eq!(demand, Some(100));
    assert_eq!(
        preempted_names(&cfg, demand),
        vec!["asr-runner", "comfyui", "ollama"]
    );
}

#[test]
fn a_tenant_above_game_priority_survives_a_game() {
    let cfg = Config::from_toml(
        r#"
        game_priority = 10

        [[managed_units]]
        unit = "critical"
        priority = 90

        [[managed_units]]
        unit = "expendable"
        priority = 5
        "#,
    )
    .unwrap();
    let claims = vec![Claim::Steam("1".to_string())];
    let demand = effective_demand(&claims, &cfg, &[]);
    assert_eq!(demand, Some(10));
    assert_eq!(preempted_names(&cfg, demand), vec!["expendable"]);
}

#[test]
fn config_without_priorities_behaves_exactly_as_before() {
    let cfg = Config::from_toml(
        r#"
        [[managed_units]]
        unit = "ollama.service"

        [[managed_units]]
        unit = "asr-runner.service"
        "#,
    )
    .unwrap();
    let ollama = unit_named(&cfg, "ollama.service");
    let demand = effective_demand(&[], &cfg, &[ollama]);
    assert!(
        preempted_units(&cfg, demand).is_empty(),
        "an un-prioritized config must not gain tenant preemption"
    );
    let claims = vec![Claim::Steam("1".to_string())];
    let game_demand = effective_demand(&claims, &cfg, &[]);
    assert_eq!(preempted_units(&cfg, game_demand).len(), 2);
}

#[test]
fn ensure_running_does_not_restart_a_preempted_unit() {
    let cfg = ladder_cfg();
    let no_holds = NameMap::new();
    let ollama = unit_named(&cfg, "ollama");
    let demand = effective_demand(&[], &cfg, &[ollama]);
    let preempted = preempted_positions(&cfg, demand);

    let targets = ensure_running_targets(State::Available, &cfg, &no_holds, &preempted);
    let names: Vec<&str> = targets.iter().map(|i| cfg.units[*i].unit.as_str()).collect();
    assert!(
        !names.contains(&"asr-runner"),
        "preempted unit was queued for restart: {names:?}"
    );
    assert!(names.contains(&"comfyui"));
    assert!(names.contains(&"ollama"));
}

#[test]
fn priority_and_busy_cmd_default_when_absent_from_toml() {
    let cfg = Config::from_toml(
        r#"
        [[managed_units]]
        unit = "ollama.service"
        "#,
    )
    .unwrap();
    let u = unit_named(&cfg, "ollama.service");
    assert_eq!(u.priority, gpu_arbiter::config::DEFAULT_UNIT_PRIORITY);
    assert!(u.busy_cmd.is_none());
    assert_eq!(cfg.game_priority, gpu_arbiter::config::DEFAULT_GAME_PRIORITY);
}

#[test]
fn ensure_running_targets_available_returns_eager_units() {
    let cfg = Config::from_toml(
        r#"
        [[managed_units]]
        unit = "ollama.service"
        eager_restart = true
        "#,
    )
    .unwrap();
    let no_holds = NameMap::new();
    let targets = ensure_running_targets(State::Available, &cfg, &no_holds, &vec![]);
    assert_eq!(targets.len(), 1);
    assert_eq!(cfg.units[targets[0]].unit, "ollama.service");
}

#[test]
fn ensure_running_targets_gaming_and_evicting_are_empty() {
    let cfg = Config::from_toml(
        r#"
        [[managed_units]]
        unit = "ollama.service"
        eager_restart = true

        [[managed_units]]
        unit = "asr.service"
        eager_restart = true
        "#,
    )
    .unwrap();
    let no_holds = NameMap::new();
    assert!(ensure_running_targets(State::Gaming, &cfg, &no_holds, &vec![]).is_empty());
    assert!(ensure_running_targets(State::Evicting, &cfg, &no_holds, &vec![]).is_empty());
}

#[test]
fn ensure_running_targets_excludes_non_eager_units() {
    let cfg = Config::from_toml(
        r#"
        [[managed_units]]
        unit = "eager.service"
        eager_restart = true

        [[managed_units]]
        unit = "lazy.service"
        eager_restart = false
        "#,
    )
    .unwrap();
    let no_holds = NameMap::new();
    let targets = ensure_running_targets(State::Available, &cfg, &no_holds, &vec![]);
    assert_eq!(targets.len(), 1);
    assert_eq!(cfg.units[targets[0]].unit, "eager.service");
}

#[test]
fn ensure_running_targets_excludes_held_units() {
    let cfg = Config::from_toml(
        r#"
        [[managed_units]]
        unit = "held.service"
        eager_restart = true

        [[managed_units]]
        unit = "free.service"
        eager_restart = true
        "#,
    )
    .unwrap();
    let mut held = NameMap::new();
    held.set("held.service", ());
    let targets = ensure_running_targets(State::Available, &cfg, &held, &vec![]);
    assert_eq!(targets.len(), 1);
    assert_eq!(cfg.units[targets[0]].unit, "free.service");
}

#[test]
fn ensure_running_toctou_clear_gate() {
    assert!(ensure_running_toctou_clear(&[]));
    assert!(!ensure_running_toctou_clear(&[Claim::Steam("440".into())]));
    assert!(!ensure_running_toctou_clear(&[Claim::Pattern(
        "heroic".into()
    )]));
}

#[test]
fn transition_actions() {
    assert_eq!(
        unit_action(State::Available, State::Gaming),
        UnitAction::Evict
    );
    assert_eq!(
        unit_action(State::Gaming, State::Available),
        UnitAction::Restart
    );
    assert_eq!(unit_action(State::Gaming, State::Gaming), UnitAction::Settle);
    assert_eq!(
        unit_action(State::Available, State::Available),
        UnitAction::Settle
    );
    assert_eq!(
        unit_action(State::Evicting, State::Gaming),
        UnitAction::Settle
    );
    assert_eq!(
        unit_action(State::Evicting, State::Available),
        UnitAction::Settle
    );
}

#[test]
fn claims_do_not_depend_on_the_order_of_processes() {
    let mut cfg = Config::default();
    cfg.vram_heuristic = true;
    cfg.game_patterns.push(GamePattern {
        name: "heroic".into(),
        match_substr: "Heroic".into(),
        exclude: vec![],
    });
    let lines = [
        "SteamLaunch AppId=9",
        "/opt/Heroic/x",
        "SteamLaunch AppId=10",
        "SteamLaunch AppId=9",
    ];
    let big = gpu_arbiter::classify::GpuGraphicsProc {
        pid: 5,
        name: "big".into(),
        vram_mb: 4000,
        owning_unit: None,
    };
    let a = ProcSnapshot {
        procs: lines.iter().map(|l| proc(1, l)).collect(),
        gpu_graphics: vec![big.clone()],
    };
    let b = ProcSnapshot {
        procs: lines.iter().rev().map(|l| proc(2, l)).collect(),
        gpu_graphics: vec![big.clone(), big],
    };
    let claims = claim_set(&a, &cfg);
    assert_eq!(claims, claim_set(&b, &cfg));
    assert_eq!(
        claims,
        vec![
            Claim::Steam("10".into()),
            Claim::Steam("9".into()),
            Claim::Pattern("heroic".into()),
            Claim::Gpu(5),
        ]
    );
    let mut sorted = claims.clone();
    sorted.sort();
    sorted.dedup();
    assert_eq!(claims, sorted);
}

#[test]
fn command_lines_are_trimmed() {
    assert_eq!(flatten_cmdline(b" a\0\0b \0"), "a\u{20}b");
    assert_eq!(flatten_text("\0 \0"), "");
    assert_eq!(flatten_cmdline(b"x\0\xff\0"), "x \u{fffd}");
}
