use laramux::config::{
    ArtisanConfig, ConfigDetailView, ConfigDraft, ConfigEditMode, ConfigSection, ConfigTabState,
    CustomProcess, CustomProcessDraft, CustomTool, CustomToolDraft, DisabledConfig, DisabledDraft,
    LaramuxConfig, LogConfig, MakeConfig, OverrideConfig, OverrideDraft, QualityConfig,
    RestartPolicy,
};
use laramux::number::{format_usize, parse_usize};

fn strings(v: &[&str]) -> Vec<String> {
    v.iter().map(|s| s.to_string()).collect()
}

fn sample_config() -> LaramuxConfig {
    LaramuxConfig {
        sail: Some(true),
        disabled: DisabledConfig { serve: false, vite: true, queue: false, horizon: true, reverb: false },
        overrides: vec![(
            "queue".to_string(),
            OverrideConfig {
                command: Some("php".to_string()),
                args: Some(strings(&["artisan", "queue:work", "--tries=3"])),
                working_dir: None,
                env: Some(vec![("QUEUE".to_string(), "redis".to_string())]),
                restart_policy: Some(RestartPolicy::OnFailure),
            },
        )],
        custom: vec![CustomProcess {
            name: "mail".to_string(),
            display_name: "Mailpit".to_string(),
            command: "mailpit".to_string(),
            args: strings(&["--listen", "0.0.0.0:8025"]),
            hotkey: Some('m'),
            enabled: true,
            working_dir: Some("/srv".to_string()),
            env: None,
            restart_policy: Some(RestartPolicy::Always),
        }],
        quality: QualityConfig {
            disabled_tools: strings(&["phpstan"]),
            custom_tools: vec![CustomTool {
                name: "rector".to_string(),
                display_name: "Rector".to_string(),
                command: "vendor/bin/rector".to_string(),
                args: strings(&["process", "--dry-run"]),
                category: "quality".to_string(),
            }],
            default_args: vec![("pint".to_string(), strings(&["--test", "-v"]))],
        },
        logs: LogConfig {
            max_lines: Some(2500),
            files: Some(strings(&["laravel.log"])),
            default_filter: Some("error".to_string()),
        },
        artisan: ArtisanConfig { favorites: strings(&["migrate"]) },
        make: MakeConfig { favorites: strings(&["make:model"]) },
    }
}

#[test]
fn config_section_index_round_trip() {
    for (i, section) in ConfigSection::all().iter().enumerate() {
        assert_eq!(section.index(), i);
        assert_eq!(ConfigSection::from_index(i), *section);
    }
    assert_eq!(ConfigSection::all().len(), 10);
    assert_eq!(ConfigSection::from_index(10), ConfigSection::Disabled);
    assert_eq!(ConfigSection::from_index(usize::MAX), ConfigSection::Disabled);
    assert_eq!(ConfigSection::QualityDefaultArgs.name(), "Default Args");
    assert_eq!(ConfigSection::MakeFavorites.name(), "Make Favs");
    assert_eq!(ConfigSection::default(), ConfigSection::Disabled);
}

#[test]
fn config_tab_modes() {
    let mut tab = ConfigTabState::default();
    assert!(!tab.is_editing());
    assert!(!tab.is_selecting());
    assert!(!tab.is_field_view());
    tab.edit_mode = ConfigEditMode::EditText;
    assert!(tab.is_editing());
    tab.edit_mode = ConfigEditMode::SelectOption;
    assert!(tab.is_selecting());
    assert!(!tab.is_editing());
    tab.detail_view = ConfigDetailView::ItemFields;
    assert!(tab.is_field_view());
}

#[test]
fn disabled_toggle_twice_restores() {
    let mut d = DisabledDraft::default();
    d.toggle(1);
    let items = d.items();
    assert_eq!(items[1], ("Vite", true));
    assert_eq!(items[0], ("Serve", false));
    assert_eq!(items[4].0, "Reverb");
    d.toggle(1);
    assert!(!d.vite);
    d.toggle(7);
    assert!(!d.serve && !d.vite && !d.queue && !d.horizon && !d.reverb);
}

#[test]
fn override_draft_empty_gives_none() {
    let d = OverrideDraft::default();
    assert!(d.is_empty());
    assert!(d.to_override().is_none());
}

#[test]
fn override_draft_fields() {
    let d = OverrideDraft {
        command: String::new(),
        args: "  serve   --port=8001 ".to_string(),
        working_dir: String::new(),
        env: vec![],
        restart_policy: RestartPolicy::Never,
    };
    assert!(!d.is_empty());
    let o = d.to_override().unwrap();
    assert_eq!(o.command, None);
    assert_eq!(o.args, Some(strings(&["serve", "--port=8001"])));
    assert_eq!(o.working_dir, None);
    assert_eq!(o.env, None);
    assert_eq!(o.restart_policy, None);

    let policy_only = OverrideDraft { restart_policy: RestartPolicy::Always, ..OverrideDraft::default() };
    let o = policy_only.to_override().unwrap();
    assert_eq!(o.restart_policy, Some(RestartPolicy::Always));
}

#[test]
fn override_round_trip() {
    let cfg = OverrideConfig {
        command: Some("php".to_string()),
        args: Some(strings(&["artisan", "serve"])),
        working_dir: Some("/app".to_string()),
        env: Some(vec![("A".to_string(), "1".to_string())]),
        restart_policy: Some(RestartPolicy::OnFailure),
    };
    let d = OverrideDraft::from_override(&cfg);
    assert_eq!(d.args, "artisan serve");
    assert_eq!(d.command, "php");
    let back = d.to_override().unwrap();
    assert_eq!(back.command, cfg.command);
    assert_eq!(back.args, cfg.args);
    assert_eq!(back.working_dir, cfg.working_dir);
    assert_eq!(back.env, cfg.env);
    assert_eq!(back.restart_policy, cfg.restart_policy);

    let absent = OverrideConfig { command: None, args: None, working_dir: None, env: None, restart_policy: None };
    let d = OverrideDraft::from_override(&absent);
    assert_eq!(d.restart_policy, RestartPolicy::Never);
    assert!(d.is_empty());
}

#[test]
fn custom_process_round_trip() {
    let cp = &sample_config().custom[0];
    let d = CustomProcessDraft::from_custom(cp);
    assert_eq!(d.hotkey, "m");
    assert_eq!(d.args, "--listen 0.0.0.0:8025");
    assert_eq!(d.working_dir, "/srv");
    let back = d.to_custom();
    assert_eq!(back.hotkey, Some('m'));
    assert_eq!(back.args, cp.args);
    assert_eq!(back.working_dir, cp.working_dir);
    assert_eq!(back.env, None);
    assert_eq!(back.restart_policy, Some(RestartPolicy::Always));

    let fresh = CustomProcessDraft::new();
    assert!(fresh.enabled);
    let c = fresh.to_custom();
    assert!(c.args.is_empty());
    assert_eq!(c.hotkey, None);
    assert_eq!(c.restart_policy, None);
    assert_eq!(c.working_dir, None);

    let two_keys = CustomProcessDraft { hotkey: "xy".to_string(), ..CustomProcessDraft::new() };
    assert_eq!(two_keys.to_custom().hotkey, Some('x'));
}

#[test]
fn custom_tool_round_trip() {
    let tool = &sample_config().quality.custom_tools[0];
    let d = CustomToolDraft::from_tool(tool);
    assert_eq!(d.args, "process --dry-run");
    let back = d.to_tool();
    assert_eq!(back.args, tool.args);
    assert_eq!(back.category, "quality");
    let q = CustomToolDraft::new_quality();
    assert_eq!(q.category, "quality");
    assert!(q.to_tool().args.is_empty());
}

#[test]
fn config_draft_round_trip() {
    let cfg = sample_config();
    let draft = ConfigDraft::from_config(Some(&cfg));
    assert_eq!(draft.logs.max_lines, "2500");
    assert_eq!(draft.quality.default_args, vec![("pint".to_string(), "--test -v".to_string())]);
    assert_eq!(draft.custom_count(), 1);
    assert_eq!(draft.process_items()[3], ("Horizon", true));
    let back = draft.to_config();
    assert_eq!(back.sail, Some(true));
    assert!(back.disabled.vite && back.disabled.horizon && !back.disabled.serve);
    assert_eq!(back.overrides.len(), 1);
    assert_eq!(back.overrides[0].0, "queue");
    assert_eq!(back.overrides[0].1.args, cfg.overrides[0].1.args);
    assert_eq!(back.custom[0].args, cfg.custom[0].args);
    assert_eq!(back.quality.default_args, cfg.quality.default_args);
    assert_eq!(back.quality.disabled_tools, cfg.quality.disabled_tools);
    assert_eq!(back.logs.max_lines, Some(2500));
    assert_eq!(back.logs.files, cfg.logs.files);
    assert_eq!(back.logs.default_filter, cfg.logs.default_filter);
    assert_eq!(back.artisan.favorites, cfg.artisan.favorites);
    assert_eq!(back.make.favorites, cfg.make.favorites);
}

#[test]
fn config_draft_without_config() {
    let draft = ConfigDraft::from_config(None);
    assert_eq!(draft.sail, None);
    assert!(draft.overrides.is_empty());
    assert_eq!(draft.logs.max_lines, "");
    let cfg = draft.to_config();
    assert_eq!(cfg.logs.max_lines, None);
    assert_eq!(cfg.logs.files, None);
    assert_eq!(cfg.logs.default_filter, None);
    assert!(cfg.overrides.is_empty());
}

#[test]
fn empty_overrides_are_dropped_and_bad_numbers_ignored() {
    let mut draft = ConfigDraft::default();
    draft.get_or_create_override("serve");
    draft.get_or_create_override("vite").command = "npm".to_string();
    draft.logs.max_lines = "12x".to_string();
    assert_eq!(draft.overrides.len(), 2);
    let cfg = draft.to_config();
    assert_eq!(cfg.overrides.len(), 1);
    assert_eq!(cfg.overrides[0].0, "vite");
    assert_eq!(cfg.overrides[0].1.command, Some("npm".to_string()));
    assert_eq!(cfg.logs.max_lines, None);
}

#[test]
fn get_or_create_override_reuses_existing() {
    let mut draft = ConfigDraft::default();
    draft.get_or_create_override("queue").args = "work".to_string();
    let again = draft.get_or_create_override("queue");
    assert_eq!(again.args, "work");
    again.working_dir = "/srv".to_string();
    assert_eq!(draft.overrides.len(), 1);
    assert_eq!(draft.overrides[0].1.working_dir, "/srv");
    draft.toggle_item(0);
    assert!(draft.disabled.serve);
}

#[test]
fn usize_text_round_trip() {
    assert_eq!(parse_usize("42"), Some(42));
    assert_eq!(parse_usize("+7"), Some(7));
    assert_eq!(parse_usize("007"), Some(7));
    assert_eq!(parse_usize(""), None);
    assert_eq!(parse_usize("+"), None);
    assert_eq!(parse_usize("-1"), None);
    assert_eq!(parse_usize(" 1"), None);
    assert_eq!(parse_usize("18446744073709551615"), Some(usize::MAX));
    assert_eq!(parse_usize("18446744073709551616"), None);
    assert_eq!(format_usize(0), "0");
    assert_eq!(format_usize(1000), "1000");
    assert_eq!(parse_usize(&format_usize(usize::MAX)), Some(usize::MAX));
    for n in [0usize, 9, 10, 99, 12345] {
        assert_eq!(parse_usize(&format_usize(n)), Some(n));
        assert_eq!(format_usize(n), n.to_string());
        assert_eq!(parse_usize(&n.to_string()), n.to_string().parse::<usize>().ok());
    }
}

#[test]
fn get_or_create_override_leaves_other_fields() {
    let mut draft = ConfigDraft::from_config(Some(&sample_config()));
    let before_favs = draft.artisan_favorites.clone();
    let before_max = draft.logs.max_lines.clone();
    let before_args = draft.quality.default_args.clone();
    draft.get_or_create_override("horizon");
    draft.get_or_create_override("horizon");
    assert_eq!(draft.overrides.len(), 2);
    assert_eq!(draft.artisan_favorites, before_favs);
    assert_eq!(draft.make_favorites, vec!["make:model".to_string()]);
    assert_eq!(draft.logs.max_lines, before_max);
    assert_eq!(draft.quality.default_args, before_args);
}
