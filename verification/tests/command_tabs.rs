use laramux::commands::{
    ArtisanTabState, FullArtisanCommand, MakeTabState, OutputLine, QualityCategory,
    QualityTabState, QualityTool,
};

fn cmd(name: &str, description: &str) -> FullArtisanCommand {
    FullArtisanCommand { name: name.to_string(), description: description.to_string() }
}

fn artisan_tab() -> ArtisanTabState {
    let mut tab = ArtisanTabState::default();
    tab.artisan_commands = vec![
        cmd("route:list", "List all registered routes"),
        cmd("migrate", "Run the database migrations"),
        cmd("cache:clear", "Flush the application cache"),
        cmd("about", "Display basic information"),
    ];
    tab
}

fn favs(v: &[&str]) -> Vec<String> {
    v.iter().map(|s| s.to_string()).collect()
}

#[test]
fn artisan_listing_puts_favorites_first_then_names() {
    let tab = artisan_tab();
    let favorites = favs(&["migrate", "route:list"]);
    let shown: Vec<(String, bool)> = tab
        .current_command_display(&favorites)
        .into_iter()
        .map(|(name, _, fav)| (name, fav))
        .collect();
    assert_eq!(
        shown,
        vec![
            ("migrate".to_string(), true),
            ("route:list".to_string(), true),
            ("about".to_string(), false),
            ("cache:clear".to_string(), false),
        ]
    );
    assert_eq!(tab.command_count(&favorites), 4);
    assert_eq!(tab.selected_artisan_command(&favorites).unwrap().name, "migrate");
}

#[test]
fn artisan_search_is_case_insensitive_over_name_and_description() {
    let mut tab = artisan_tab();
    tab.search_query = "CACHE".to_string();
    assert_eq!(tab.command_count(&[]), 1);
    assert_eq!(tab.selected_command_name(&[]), Some("cache:clear".to_string()));
    tab.search_query = "database".to_string();
    assert_eq!(tab.selected_command_name(&[]), Some("migrate".to_string()));
    tab.search_query = "nothing-like-this".to_string();
    assert_eq!(tab.command_count(&[]), 0);
    assert!(tab.selected_command_name(&[]).is_none());
    assert!(tab.selected_command_resolved("", &[], false).is_none());
}

#[test]
fn artisan_resolved_command() {
    let mut tab = artisan_tab();
    tab.selected_command = 2;
    let rc = tab.selected_command_resolved("  --step  --force ", &[], false).unwrap();
    assert_eq!(rc.display_name, "artisan migrate");
    assert_eq!(rc.command, "php");
    assert_eq!(rc.args, favs(&["artisan", "migrate", "--step", "--force", "--ansi"]));
    let rc = tab.selected_command_resolved("", &[], true).unwrap();
    assert_eq!(rc.command, "./vendor/bin/sail");
    assert_eq!(rc.args, favs(&["artisan", "migrate", "--ansi"]));
}

#[test]
fn output_pane_keeps_last_thousand_lines() {
    let mut tab = ArtisanTabState::default();
    for i in 0..1005 {
        tab.add_output(OutputLine::stdout(format!("line {}", i)));
    }
    assert_eq!(tab.command_output.len(), 1000);
    assert_eq!(tab.command_output.front().unwrap().content, "line 5");
    assert_eq!(tab.command_output.back().unwrap().content, "line 1004");
    tab.output_scroll_offset = 9;
    tab.clear_output();
    assert!(tab.command_output.is_empty());
    assert_eq!(tab.output_scroll_offset, 0);
    assert!(OutputLine::stderr("x".to_string()).is_stderr);
}

#[test]
fn make_tab_display_names() {
    let mut tab = MakeTabState::default();
    tab.make_commands = vec![cmd("make:model", "Create a model"), cmd("make:", "odd"), cmd("ide-helper", "other")];
    let shown = tab.current_command_display(&[], false);
    assert_eq!(shown[0], ("ide-helper".to_string(), "php artisan ide-helper".to_string(), false));
    assert_eq!(shown[1], ("".to_string(), "php artisan make:".to_string(), false));
    assert_eq!(shown[2], ("Model".to_string(), "php artisan make:model".to_string(), false));
    let sail = tab.current_command_display(&favs(&["make:model"]), true);
    assert_eq!(sail[0], ("Model".to_string(), "sail artisan make:model".to_string(), true));
    tab.selected_command = 2;
    let rc = tab.selected_command_resolved("Post -m", &[], true).unwrap();
    assert_eq!(rc.display_name, "Model");
    assert_eq!(rc.command, "./vendor/bin/sail");
    assert_eq!(rc.args, favs(&["artisan", "make:model", "Post", "-m", "--ansi"]));
    assert_eq!(tab.selected_make_command(&[]).unwrap().name, "make:model");
}

#[test]
fn make_display_uppercases_unicode_first_letter() {
    let mut tab = MakeTabState::default();
    tab.make_commands = vec![cmd("make:ßtate", "German sharp s"), cmd("make:ñandú", "bird")];
    let names: Vec<String> = tab.current_command_display(&[], false).into_iter().map(|(d, _, _)| d).collect();
    assert_eq!(names, vec!["SState".to_string(), "Ñandú".to_string()]);
}

#[test]
fn quality_category_cycles() {
    assert_eq!(QualityCategory::default(), QualityCategory::QualityTools);
    assert_eq!(QualityCategory::QualityTools.next(), QualityCategory::Testing);
    assert_eq!(QualityCategory::Testing.next(), QualityCategory::QualityTools);
    assert_eq!(QualityCategory::Testing.previous(), QualityCategory::QualityTools);
    assert_eq!(QualityCategory::all(), &[QualityCategory::QualityTools, QualityCategory::Testing]);
    assert_eq!(QualityCategory::Testing.name(), "Testing");
}

#[test]
fn quality_args_put_user_words_before_flags() {
    let mut tab = QualityTabState::default();
    tab.quality_tools = vec![QualityTool {
        name: "phpstan".to_string(),
        display_name: "PHPStan".to_string(),
        command: "vendor/bin/phpstan".to_string(),
        args: favs(&["analyse", "--memory-limit=1G", "src", "-v"]),
    }];
    tab.testing_tools = vec![];
    assert_eq!(tab.tool_count(), 1);
    let rc = tab.selected_command_resolved(" app  tests ").unwrap();
    assert_eq!(rc.display_name, "PHPStan");
    assert_eq!(rc.command, "vendor/bin/phpstan");
    assert_eq!(rc.args, favs(&["analyse", "src", "app", "tests", "--memory-limit=1G", "-v"]));
    let rc = tab.selected_command_resolved("").unwrap();
    assert_eq!(rc.args, favs(&["analyse", "src", "--memory-limit=1G", "-v"]));
    tab.selected_category = QualityCategory::Testing;
    assert_eq!(tab.tool_count(), 0);
    assert!(tab.selected_tool_item().is_none());
    assert!(tab.selected_command_resolved("x").is_none());
    assert!(tab.current_tools().is_empty());
}
