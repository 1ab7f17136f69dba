use gpu_arbiter::classify::{
    classify, heuristic_claim, match_pattern, matches_allowlist, steam_appid, GpuGraphicsProc,
};
use gpu_arbiter::config::{Config, GamePattern};
use gpu_arbiter::state::Claim;

#[test]
fn steam_appid_extracts_digits() {
    assert_eq!(
        steam_appid("reaper SteamLaunch AppId=440 -- /game/tf2"),
        Some("440".to_string())
    );
    assert_eq!(steam_appid("no marker here"), None);
    assert_eq!(steam_appid("SteamLaunch AppId= -- nope"), None);
}

#[test]
fn classify_prefers_steam() {
    let cfg = Config::default();
    assert_eq!(
        classify("x SteamLaunch AppId=620 -- portal2", &cfg),
        Some(Claim::Steam("620".to_string()))
    );
}

#[test]
fn classify_pattern_fallback() {
    let mut cfg = Config::default();
    cfg.game_patterns.push(GamePattern {
        name: "heroic".to_string(),
        match_substr: "Heroic".to_string(),
        exclude: Vec::new(),
    });
    assert_eq!(
        classify("/opt/Heroic/heroic --no-sandbox", &cfg),
        Some(Claim::Pattern("heroic".to_string()))
    );
    assert_eq!(classify("/usr/bin/firefox", &cfg), None);
}

fn windows_steam_cfg() -> Config {
    let mut cfg = Config {
        detect_steam: false,
        ..Default::default()
    };
    cfg.game_patterns.push(GamePattern {
        name: "steam".to_string(),
        match_substr: r"steamapps\common".to_string(),
        exclude: vec!["Steamworks Shared".to_string(), "_CommonRedist".to_string()],
    });
    cfg
}

#[test]
fn windows_steam_pattern_claims_a_real_game() {
    let cfg = windows_steam_cfg();
    assert_eq!(
        classify(
            r#""D:\SteamLibrary\steamapps\common\Stardew Valley\Stardew Valley.exe""#,
            &cfg
        ),
        Some(Claim::Pattern("steam".to_string()))
    );
}

#[test]
fn windows_steam_pattern_does_not_claim_the_redist_stage() {
    let cfg = windows_steam_cfg();
    for cmdline in [
        r#"SteamService.exe /installscript "C:\Program Files (x86)\Steam\steamapps\common\Steamworks Shared\runasadmin.vdf" 413150"#,
        r#"C:\Windows\system32\cmd.exe /c ""C:\Program Files (x86)\Steam\steamapps\common\Steamworks Shared\_CommonRedist\DotNet\4.0\Microsoft .NET Framework 4.0.cmd" ""#,
        r#""C:\Program Files (x86)\Steam\steamapps\common\Steamworks Shared\_CommonRedist\DotNet\4.0\\dotNetFx40_Full_x86_x64.exe"  /q /norestart"#,
    ] {
        assert_eq!(classify(cmdline, &cfg), None, "should not claim: {cmdline}");
    }
}

#[test]
fn exclude_is_scoped_to_its_own_pattern() {
    let mut cfg = windows_steam_cfg();
    cfg.game_patterns.push(GamePattern {
        name: "redist-watch".to_string(),
        match_substr: "dotNetFx40".to_string(),
        exclude: Vec::new(),
    });
    assert_eq!(
        classify(
            r#""C:\...\steamapps\common\Steamworks Shared\_CommonRedist\DotNet\4.0\dotNetFx40_Full_x86_x64.exe" /q"#,
            &cfg
        ),
        Some(Claim::Pattern("redist-watch".to_string()))
    );
}

#[test]
fn empty_exclude_preserves_pre_existing_behavior() {
    let cfg = windows_steam_cfg();
    let mut plain = Config {
        detect_steam: false,
        ..Default::default()
    };
    plain.game_patterns.push(GamePattern {
        name: "steam".to_string(),
        match_substr: r"steamapps\common".to_string(),
        exclude: Vec::new(),
    });
    let game = r#""D:\SteamLibrary\steamapps\common\Factorio\factorio.exe""#;
    assert_eq!(classify(game, &cfg), classify(game, &plain));
    assert!(classify(game, &plain).is_some());
}

#[test]
fn exclude_defaults_to_empty_when_absent_from_toml() {
    let cfg = Config::from_toml(
        r#"
        [[game_patterns]]
        name = "steam"
        match = "steamapps"
        "#,
    )
    .unwrap();
    assert_eq!(cfg.game_patterns.len(), 1);
    assert!(cfg.game_patterns[0].exclude.is_empty());
}

#[test]
fn classify_respects_detect_steam_toggle() {
    let cfg = Config {
        detect_steam: false,
        ..Config::default()
    };
    assert_eq!(classify("SteamLaunch AppId=440 -- x", &cfg), None);
}

fn graphics_proc(pid: i32, name: &str, vram_mb: u64) -> GpuGraphicsProc {
    GpuGraphicsProc {
        pid,
        name: name.to_string(),
        vram_mb,
        owning_unit: None,
    }
}

#[test]
fn heuristic_off_by_default() {
    let cfg = Config::default();
    let p = graphics_proc(99, "MysteryGame", 9000);
    assert_eq!(heuristic_claim(&p, &cfg), None);
}

#[test]
fn heuristic_flags_heavy_unlisted_graphics_proc() {
    let cfg = Config {
        vram_heuristic: true,
        vram_game_threshold_mb: 4000,
        ..Config::default()
    };
    let game = graphics_proc(99, "MysteryGame", 9000);
    assert_eq!(heuristic_claim(&game, &cfg), Some(Claim::Gpu(99)));

    let kwin = graphics_proc(1, "kwin_wayland", 9000);
    assert_eq!(heuristic_claim(&kwin, &cfg), None);

    let small = graphics_proc(2, "MysteryGame", 100);
    assert_eq!(heuristic_claim(&small, &cfg), None);
}

#[test]
fn allowlist_matches_bare_name_unchanged() {
    let allow = vec!["ollama".to_string()];
    assert!(matches_allowlist(&graphics_proc(1, "ollama", 100), &allow));
    assert!(!matches_allowlist(
        &graphics_proc(1, "not-ollama-at-all", 100),
        &allow
    ));
}

#[test]
fn allowlist_matches_basename_of_full_path() {
    let allow = vec!["1password".to_string()];
    assert!(matches_allowlist(
        &graphics_proc(1, "/opt/1Password/1password", 100),
        &allow
    ));
    let sunshine = vec!["Sunshine".to_string()];
    assert!(matches_allowlist(
        &graphics_proc(1, "/usr/bin/sunshine", 100),
        &sunshine
    ));
}

#[test]
fn allowlist_matches_basename_of_windows_path() {
    let allow = vec!["llama-server.exe".to_string()];
    assert!(matches_allowlist(
        &graphics_proc(
            1,
            r"C:\Program Files\Ollama\lib\ollama\llama-server.exe",
            100
        ),
        &allow
    ));
    let steam = vec!["Stardew Valley.exe".to_string()];
    assert!(matches_allowlist(
        &graphics_proc(
            1,
            r"D:\SteamLibrary\steamapps\common\Stardew Valley\Stardew Valley.exe",
            100
        ),
        &steam
    ));
    assert!(matches_allowlist(
        &graphics_proc(1, "/usr/local/bin/ollama", 100),
        &["ollama".to_string()]
    ));
}

#[test]
fn allowlist_does_not_substring_match() {
    let allow = vec!["kwin_wayland".to_string()];
    assert!(!matches_allowlist(
        &graphics_proc(1, "/usr/bin/kwin_wayland_extra", 100),
        &allow
    ));
}

#[test]
fn allowlist_matches_owning_unit_from_cgroup() {
    let mut proc = graphics_proc(1, "/opt/asr-runner/venv/bin/python", 9000);
    proc.owning_unit = Some("asr-runner.service".to_string());
    assert!(matches_allowlist(
        &proc,
        &["asr-runner.service".to_string()]
    ));
    assert!(matches_allowlist(&proc, &["asr-runner".to_string()]));
    proc.owning_unit = None;
    assert!(!matches_allowlist(&proc, &["asr-runner".to_string()]));
}

#[test]
fn allowlist_owning_unit_scope_suffix_stripped_too() {
    let mut proc = graphics_proc(1, "game", 9000);
    proc.owning_unit = Some("app-steam.scope".to_string());
    assert!(matches_allowlist(&proc, &["app-steam".to_string()]));
}

#[test]
fn allowlist_empty_list_never_matches() {
    assert!(!matches_allowlist(&graphics_proc(1, "ollama", 100), &[]));
}

#[test]
fn first_marker_counts() {
    assert_eq!(steam_appid("SteamLaunch AppId=x SteamLaunch AppId=7"), None);
    assert_eq!(
        steam_appid("SteamLaunch AppId=12x SteamLaunch AppId=7").as_deref(),
        Some("12")
    );
}

#[test]
fn first_rule_that_applies_is_found() {
    let ps = vec![
        GamePattern {
            name: "a".into(),
            match_substr: "game".into(),
            exclude: vec!["setup".into()],
        },
        GamePattern {
            name: "b".into(),
            match_substr: "game".into(),
            exclude: vec![],
        },
    ];
    assert_eq!(match_pattern("a game", &ps).unwrap().name, "a");
    assert_eq!(match_pattern("a game setup", &ps).unwrap().name, "b");
    assert!(match_pattern("nothing", &ps).is_none());
}
