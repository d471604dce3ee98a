use vkpace::config::{
    env_flag, find_preset, locate_toml, resolve_spoof_profile, unknown_model, vrr_offset_hz,
    ConfigLocation, EnvSettings, LayerConfig, SpoofProfile, DEFAULT_PRESET, NVIDIA_PRESETS,
};
use vkpace::toml::{load_toml, parse_bool, AppOverride, TomlWarning};

fn base_config() -> LayerConfig {
    LayerConfig {
        expose_reflex: false,
        spoof_nvidia: false,
        force_decoupled: false,
        spoof_profile: SpoofProfile {
            device_id: 0,
            device_name: "",
        },
        fps_cap: 0,
        per_app: Vec::new(),
    }
}

#[test]
fn default_preset_resolves_to_5090() {
    let p = NVIDIA_PRESETS
        .iter()
        .find(|(k, _, _)| *k == DEFAULT_PRESET)
        .unwrap();
    assert_eq!(p.1, 0x2B85);
    assert!(p.2.contains("5090"));
}

#[test]
fn presets_cover_all_four_generations() {
    let has_gen = |prefix: &str| NVIDIA_PRESETS.iter().any(|(k, _, _)| k.starts_with(prefix));
    assert!(has_gen("RTX_2"));
    assert!(has_gen("RTX_3"));
    assert!(has_gen("RTX_4"));
    assert!(has_gen("RTX_5"));
}

#[test]
fn preset_keys_unique() {
    let mut keys: Vec<&str> = NVIDIA_PRESETS.iter().map(|(k, _, _)| *k).collect();
    keys.sort();
    let n = keys.len();
    keys.dedup();
    assert_eq!(keys.len(), n, "duplicate preset key");
}

#[test]
fn known_decoupled_app() {
    let cfg = base_config();
    assert!(cfg.is_known_decoupled(Some("Marvel-Win64-Shipping.exe")));
    assert!(!cfg.is_known_decoupled(Some("unknown.exe")));
    assert!(!cfg.is_known_decoupled(None));
}

#[test]
fn force_decoupled_overrides() {
    let cfg = LayerConfig {
        force_decoupled: true,
        ..base_config()
    };
    assert!(cfg.is_known_decoupled(None));
    assert!(cfg.is_known_decoupled(Some("anything.exe")));
}

#[test]
fn fps_cap_to_min_delay_ns() {
    let mut cfg = base_config();
    assert_eq!(cfg.fps_cap_min_delay_ns(), 0);
    cfg.fps_cap = 60;
    assert_eq!(cfg.fps_cap_min_delay_ns(), 16_666_666);
    cfg.fps_cap = 240;
    assert_eq!(cfg.fps_cap_min_delay_ns(), 4_166_666);
}

#[test]
fn per_app_override_applied() {
    let cfg = LayerConfig {
        per_app: vec![AppOverride {
            app_name: "test.exe".into(),
            expose_reflex: Some(true),
            spoof_nvidia: Some(true),
            force_decoupled: None,
            fps_cap: Some(144),
            spoof_model: Some("RTX_4090".into()),
        }],
        ..base_config()
    };
    let final_cfg = cfg.finalize_for_app(Some("test.exe"));
    assert!(final_cfg.expose_reflex);
    assert!(final_cfg.spoof_nvidia);
    assert_eq!(final_cfg.fps_cap, 144);
    assert_eq!(final_cfg.spoof_profile.device_id, 0x2684);
}

#[test]
fn per_app_override_skipped_when_no_match() {
    let cfg = LayerConfig {
        per_app: vec![AppOverride {
            app_name: "test.exe".into(),
            expose_reflex: Some(true),
            spoof_nvidia: None,
            force_decoupled: None,
            fps_cap: None,
            spoof_model: None,
        }],
        ..base_config()
    };
    let final_cfg = cfg.finalize_for_app(Some("other.exe"));
    assert!(!final_cfg.expose_reflex);
}

#[test]
fn first_override_of_a_name_counts() {
    let over = |cap: u32| AppOverride {
        app_name: "twice".into(),
        expose_reflex: None,
        spoof_nvidia: None,
        force_decoupled: None,
        fps_cap: Some(cap),
        spoof_model: None,
    };
    let cfg = LayerConfig {
        per_app: vec![over(30), over(60)],
        ..base_config()
    };
    assert_eq!(cfg.finalize_for_app(Some("twice")).fps_cap, 30);
    assert_eq!(cfg.finalize_for_app(None).fps_cap, 0);
}

#[test]
fn spoof_model_is_case_insensitive() {
    assert_eq!(find_preset("rtx_3060_ti").unwrap().device_id, 0x2489);
    assert!(find_preset("GTX_1080").is_none());
    assert_eq!(
        resolve_spoof_profile(Some("Rtx_2060"), Some("RTX_4090")).device_name,
        "NVIDIA GeForce RTX 2060"
    );
    assert_eq!(resolve_spoof_profile(None, Some("RTX_4090")).device_id, 0x2684);
    assert_eq!(resolve_spoof_profile(Some("nonsense"), None).device_id, 0x2B85);
    assert_eq!(resolve_spoof_profile(None, None).device_id, 0x2B85);
    assert!(unknown_model(Some("nonsense"), None));
    assert!(!unknown_model(None, None));
    assert!(!unknown_model(None, Some("rtx_5090")));
}

#[test]
fn only_one_sets_a_flag() {
    assert!(env_flag(Some("1")));
    assert!(!env_flag(Some("true")));
    assert!(!env_flag(Some("")));
    assert!(!env_flag(None));
}

#[test]
fn environment_and_file_make_the_configuration() {
    let env = EnvSettings {
        reflex: Some("1".into()),
        spoof_nvidia: Some("yes".into()),
        spoof_model: Some("rtx_4080".into()),
        force_decoupled: None,
        fps_cap: Some("144".into()),
    };
    let file = "[app.\"cs2\"]\nfps_cap = 300\n";
    let (cfg, warnings) = LayerConfig::from_env(&env, Some(file));
    assert!(cfg.expose_reflex);
    assert!(!cfg.spoof_nvidia);
    assert!(!cfg.force_decoupled);
    assert_eq!(cfg.spoof_profile.device_id, 0x2704);
    assert_eq!(cfg.fps_cap, 144);
    assert_eq!(cfg.per_app.len(), 1);
    assert!(warnings.is_empty());
    // A key of the file counts before the environment.
    assert_eq!(cfg.finalize_for_app(Some("cs2")).fps_cap, 300);
    assert_eq!(cfg.finalize_for_app(Some("other")).fps_cap, 144);

    let (bare, _) = LayerConfig::from_env(
        &EnvSettings {
            reflex: None,
            spoof_nvidia: None,
            spoof_model: None,
            force_decoupled: None,
            fps_cap: Some("many".into()),
        },
        None,
    );
    assert_eq!(bare.fps_cap, 0);
    assert!(bare.per_app.is_empty());
}

#[test]
fn readme_file_is_read() {
    let file = r#"
[app."cs2"]
expose_reflex = true
fps_cap       = 300

[app."Marvel-Win64-Shipping.exe"]
expose_reflex   = true
spoof_nvidia    = true
spoof_model     = "RTX_5090"
force_decoupled = true
"#;
    let parsed = load_toml(file);
    assert!(parsed.warnings.is_empty());
    assert_eq!(parsed.overrides.len(), 2);
    let cs2 = &parsed.overrides[0];
    assert_eq!(cs2.app_name, "cs2");
    assert_eq!(cs2.expose_reflex, Some(true));
    assert_eq!(cs2.fps_cap, Some(300));
    assert_eq!(cs2.spoof_nvidia, None);
    let marvel = &parsed.overrides[1];
    assert_eq!(marvel.app_name, "Marvel-Win64-Shipping.exe");
    assert_eq!(marvel.spoof_model.as_deref(), Some("RTX_5090"));
    assert_eq!(marvel.force_decoupled, Some(true));
    assert_eq!(marvel.fps_cap, None);
}

#[test]
fn comments_carriage_returns_and_bad_values() {
    let file = "# head\r\n[app.\"a\"] # section\r\nfps_cap = 60 # cap\r\nfps_cap = abc\r\nspoof_nvidia = 0\r\n";
    let parsed = load_toml(file);
    assert_eq!(parsed.overrides.len(), 1);
    assert_eq!(parsed.overrides[0].app_name, "a");
    // The last assignment counts, and one that does not read unsets the key.
    assert_eq!(parsed.overrides[0].fps_cap, None);
    assert_eq!(parsed.overrides[0].spoof_nvidia, Some(false));
    assert_eq!(parsed.warnings.len(), 1);
    assert!(matches!(
        &parsed.warnings[0],
        TomlWarning::UnreadableValue { key, .. } if key == "fps_cap"
    ));
}

#[test]
fn what_has_no_effect_is_warned_of() {
    let file = "fps_cap = 60\n[app.x]\nnonsense\ncolour = blue\n";
    let parsed = load_toml(file);
    assert_eq!(parsed.overrides.len(), 1);
    assert_eq!(parsed.overrides[0].app_name, "x");
    assert_eq!(parsed.warnings.len(), 3);
    assert!(matches!(
        &parsed.warnings[0],
        TomlWarning::OutsideSection { index: 0, line } if line == "fps_cap = 60"
    ));
    assert!(matches!(
        &parsed.warnings[1],
        TomlWarning::NotAnAssignment { index: 2, line } if line == "nonsense"
    ));
    assert!(matches!(
        &parsed.warnings[2],
        TomlWarning::UnknownKey { key } if key == "colour"
    ));
}

#[test]
fn empty_file_has_no_overrides() {
    assert!(load_toml("").overrides.is_empty());
    assert!(load_toml("\n\n").overrides.is_empty());
}

#[test]
fn booleans_are_words_or_digits() {
    assert_eq!(parse_bool("true"), Some(true));
    assert_eq!(parse_bool("1"), Some(true));
    assert_eq!(parse_bool("false"), Some(false));
    assert_eq!(parse_bool("0"), Some(false));
    assert_eq!(parse_bool("True"), None);
    assert_eq!(parse_bool(""), None);
}

#[test]
fn explicit_path_comes_first() {
    assert!(matches!(
        locate_toml(Some("/a"), Some("/b"), Some("/c")),
        Some(ConfigLocation::Explicit("/a"))
    ));
    assert!(matches!(
        locate_toml(None, Some("/b"), Some("/c")),
        Some(ConfigLocation::ConfigHome("/b"))
    ));
    assert!(matches!(
        locate_toml(None, None, Some("/c")),
        Some(ConfigLocation::Home("/c"))
    ));
    assert!(locate_toml::<&str>(None, None, None).is_none());
}

#[test]
fn defaults_rank_above_the_environment() {
    let env = EnvSettings {
        reflex: None,
        spoof_nvidia: None,
        spoof_model: Some("RTX_4090".to_string()),
        force_decoupled: Some("1".to_string()),
        fps_cap: Some("144".to_string()),
    };
    let file = "[defaults]\nfps_cap = 60\n";
    assert_eq!(LayerConfig::from_env(&env, Some(file)).0.fps_cap, 60);
    assert_eq!(LayerConfig::from_env(&env, None).0.fps_cap, 144);

    let file = "[defaults]\nfps_cap = 60\nspoof_model = \"RTX_3080\"\n\
                [app.\"a\"]\nfps_cap = 30\n[defaults]\nforce_decoupled = false\n";
    let (base, warnings) = LayerConfig::from_env(&env, Some(file));
    assert!(warnings.is_empty());
    assert_eq!(base.spoof_profile.device_id, 0x2206);
    assert!(!base.force_decoupled);
    assert_eq!(base.finalize_for_app(Some("a")).fps_cap, 30);
    assert_eq!(base.finalize_for_app(Some("b")).fps_cap, 60);
    assert_eq!(base.finalize_for_app(Some("a")).spoof_profile.device_id, 0x2206);
}

#[test]
fn other_lines_leave_a_section_open() {
    let parsed = load_toml("[app.\"a\"]\n[x = 1\nfps_cap = 60\n");
    assert_eq!(parsed.overrides.len(), 1);
    assert_eq!(parsed.overrides[0].fps_cap, Some(60));
    assert_eq!(parsed.warnings.len(), 1);
    assert!(matches!(&parsed.warnings[0], TomlWarning::UnknownKey { key } if key == "[x"));

    let parsed = load_toml("[other]\n[app.x]\nfps_cap = 60\n[other]\nfps_cap = 90\n[defaults]\n");
    assert_eq!(parsed.overrides.len(), 1);
    assert_eq!(parsed.overrides[0].fps_cap, Some(90));
    assert_eq!(parsed.defaults.fps_cap, None);
    assert_eq!(parsed.warnings.len(), 2);
    assert!(matches!(
        &parsed.warnings[0],
        TomlWarning::OutsideSection { index: 0, line } if line == "[other]"
    ));
    assert!(matches!(
        &parsed.warnings[1],
        TomlWarning::NotAnAssignment { index: 3, line } if line == "[other]"
    ));
}

#[test]
fn every_preset_key_finds_its_own_row() {
    for (key, device_id, device_name) in NVIDIA_PRESETS.iter() {
        for spelled in [key.to_string(), key.to_lowercase()] {
            let p = find_preset(&spelled).unwrap();
            assert_eq!((p.device_id, p.device_name), (*device_id, *device_name));
        }
    }
}

#[test]
fn vrr_offset_reads_or_defaults() {
    assert_eq!(vrr_offset_hz(None), 3);
    assert_eq!(vrr_offset_hz(Some("5")), 5);
    assert_eq!(vrr_offset_hz(Some("-1")), 3);
}
