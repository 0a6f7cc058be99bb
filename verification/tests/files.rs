use rmm2::config::Mode;
use rmm2::files::{get_active_mods, is_plugin_file, loadorder_contents, read_plugins_file};
use rmm2::loadorder::Plugin;

fn plugin(name: &str, active: bool) -> Plugin {
    Plugin { name: name.to_string(), active }
}

#[test]
fn plugin_files_are_esp_or_esm() {
    assert!(is_plugin_file("Skyrim.esm"));
    assert!(is_plugin_file("mod.esp"));
    assert!(!is_plugin_file("readme.txt"));
    assert!(!is_plugin_file("mod.bsa"));
}

#[test]
fn read_plugins_file_takes_long_lines() {
    let v = read_plugins_file("*Skyrim.esm\nUpdate.esm\n\nx\n*Mod's.esp\n");
    let got: Vec<(String, bool)> = v.iter().map(|p| (p.name.clone(), p.active)).collect();
    assert_eq!(
        got,
        vec![
            ("Skyrim.esm".to_string(), true),
            ("Update.esm".to_string(), true),
            ("Mod's.esp".to_string(), true),
        ]
    );
}

#[test]
fn read_plugins_file_strips_marks_only_when_flagged() {
    let v = read_plugins_file("a\\b.esp\nIt's\\here.esp\n");
    assert_eq!(v[0].name, "a\\b.esp");
    assert_eq!(v[1].name, "It'shere.esp");
}

#[test]
fn read_plugins_file_counts_bytes() {
    let v = read_plugins_file("é\n");
    assert_eq!(v.len(), 1);
    assert_eq!(v[0].name, "é");
}

#[test]
fn get_active_mods_adds_missing_installed_plugins() {
    let installed = vec!["Skyrim.esm".to_string(), "New.esp".to_string(), "*Odd.esp".to_string()];
    let v = get_active_mods("*Skyrim.esm\n", &installed);
    let got: Vec<(String, bool)> = v.iter().map(|p| (p.name.clone(), p.active)).collect();
    assert_eq!(
        got,
        vec![
            ("Skyrim.esm".to_string(), true),
            ("New.esp".to_string(), false),
            ("Odd.esp".to_string(), false),
        ]
    );
}

#[test]
fn get_active_mods_looks_at_names_added_before() {
    let installed = vec!["A.esp".to_string(), "A.esp".to_string()];
    let v = get_active_mods("", &installed);
    assert_eq!(v.len(), 1);
    assert!(!v[0].active);
}

#[test]
fn loadorder_contents_marks_for_starred_games() {
    let v = vec![plugin("a.esp", true), plugin("b.esp", false), plugin("c.esm", true)];
    assert_eq!(loadorder_contents(&v, Mode::SkyrimSE), "*a.esp\n*c.esm\n");
    assert_eq!(loadorder_contents(&v, Mode::Fallout4), "*a.esp\n*c.esm\n");
    assert_eq!(loadorder_contents(&v, Mode::Oblivion), "a.esp\nc.esm\n");
}

#[test]
fn loadorder_written_reads_back_active_plugins() {
    let v = vec![plugin("Skyrim.esm", true), plugin("b.esp", false), plugin("c.esp", true)];
    for mode in [Mode::SkyrimSE, Mode::Skyrim, Mode::Fallout3] {
        let back = read_plugins_file(&loadorder_contents(&v, mode));
        let got: Vec<(String, bool)> = back.iter().map(|p| (p.name.clone(), p.active)).collect();
        assert_eq!(got, vec![("Skyrim.esm".to_string(), true), ("c.esp".to_string(), true)]);
    }
}
