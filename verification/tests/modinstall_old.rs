use rmm2::loadorder::Plugin;
use rmm2::modinstall::config::{fix_data_path, get_mod_path, get_plugin_path, read_toml, Gamepath, Gamepaths};
use rmm2::modinstall::files::{get_active_mods, get_installed_mods, ignore_asterix, read_datadir_names, write_loadorder_text};
use rmm2::modinstall::paths::Path;

#[test]
fn counted_path_from_and_push() {
    let mut p = Path::from("/home/user/mods/");
    assert_eq!(p.path, "/home/user/mods/");
    let q = p.push("x");
    assert_eq!(q.path, "/home/user/mods/x");
    let r = Path::from("C:\\a\\b");
    assert_eq!(r.path, "C:/a/b");
}

#[test]
fn counted_path_previous() {
    let p = Path::from("/home/user/mods");
    assert_eq!(p.previous().path, "//home");
    let q = Path::from("home/user/mods");
    assert_eq!(q.previous().path, "/home");
    let r = Path::from("/home/user/mods/");
    assert_eq!(r.previous().path, "//home");
}

#[test]
fn counted_path_next_only_with_single_entry() {
    let mut p = Path::from("/m");
    p.next(&Some(vec!["only".to_string()]));
    assert_eq!(p.path, "/m/only");
    let mut q = Path::from("/m");
    q.next(&Some(vec!["a".to_string(), "b".to_string()]));
    assert_eq!(q.path, "/m");
    q.next(&None);
    assert_eq!(q.path, "/m");
}

#[test]
fn datadir_names_from_quoted_listing() {
    let names = read_datadir_names("\"a.esp\"\"Textures\"\"b.esm\"");
    assert_eq!(names, vec!["a.esp".to_string(), "Textures".to_string(), "b.esm".to_string()]);
}

#[test]
fn installed_mods_are_esp_files() {
    let v = get_installed_mods(&vec!["a.esp".to_string(), "b.esm".to_string(), "c.esp".to_string()]);
    let names: Vec<String> = v.iter().map(|p| p.name.clone()).collect();
    assert_eq!(names, vec!["a.esp".to_string(), "c.esp".to_string()]);
    assert!(v.iter().all(|p| !p.active));
}

#[test]
fn ignore_asterix_removes_stars() {
    assert_eq!(ignore_asterix("*a*b*"), "ab");
}

#[test]
fn old_active_mods_by_mode() {
    let data = vec!["a.esp".to_string(), "b.esp".to_string()];
    let v = get_active_mods(&data, "*a.esp\nb.esp\n", 1);
    assert!(v[0].active);
    assert!(v[1].active);
    let w = get_active_mods(&data, "*a.esp\nb.esp\n", 2);
    assert!(!w[0].active);
    assert!(w[1].active);
}

#[test]
fn old_loadorder_text_by_mode() {
    let v = vec![
        Plugin { name: "a.esp".to_string(), active: true },
        Plugin { name: "b.esp".to_string(), active: false },
    ];
    assert_eq!(write_loadorder_text(&v, 3), "*a.esp\n");
    assert_eq!(write_loadorder_text(&v, 4), "a.esp\n");
}

#[test]
fn data_and_mod_paths() {
    assert_eq!(fix_data_path("/games/Skyrim/data/x"), "/games/Skyrim/Data/");
    assert_eq!(get_mod_path("/games/Skyrim/Data"), "/games/Skyrim/Mods/");
    assert_eq!(fix_data_path("/games/Skyrim"), "/games/Skyrim/");
}

#[test]
fn old_plugin_path() {
    assert_eq!(get_plugin_path("/x/steamapps/common", 0), Some("//x/".to_string()));
    assert_eq!(get_plugin_path("/x/common", 0), None);
}

#[test]
fn old_read_toml() {
    let g = Gamepath { data: "d".to_string(), plugins: "p".to_string(), mods: "m".to_string() };
    let cfg = Gamepaths {
        skyrimse: None,
        skyrim: Some(g.clone()),
        oblivion: None,
        fallout4: None,
        falloutnv: None,
        fallout3: None,
    };
    assert!(read_toml(&cfg, 1).is_none());
    assert_eq!(read_toml(&cfg, 2).unwrap().data, "d");
}

#[test]
fn old_loadorder_reads_back() {
    let data = vec!["a.esp".to_string(), "Textures".to_string(), "b.esp".to_string(), "c.esp".to_string()];
    for mode in [1usize, 2, 3, 4] {
        let mut plugins = get_installed_mods(&data);
        plugins[0].active = true;
        plugins[2].active = true;
        let text = write_loadorder_text(&plugins, mode);
        let back = get_active_mods(&data, &text, mode);
        assert_eq!(back.len(), plugins.len());
        for (x, y) in back.iter().zip(plugins.iter()) {
            assert_eq!(x.name, y.name);
            assert_eq!(x.active, y.active);
        }
    }
}
