use rmm2::config::{check_path, mod_path_for, plugin_path_for, read_toml, var_name, GamepathT, GamepathsT, Mode};
use rmm2::paths::Path;

fn entry(d: &str, p: &str, m: &str) -> GamepathT {
    GamepathT { data: d.to_string(), plugins: p.to_string(), mods: m.to_string() }
}

#[test]
fn mode_numbers() {
    assert_eq!(Mode::from_number(1), Some(Mode::SkyrimSE));
    assert_eq!(Mode::from_number(4), Some(Mode::Fallout4));
    assert_eq!(Mode::from_number(6), Some(Mode::Fallout3));
    assert_eq!(Mode::from_number(0), None);
    assert_eq!(Mode::from_number(7), None);
}

#[test]
fn gamepath_text_round_trip() {
    let t = entry("C:\\Steam\\Data", "/p/plugins.txt", "/m");
    let g = t.to_gp();
    assert_eq!(g.data.as_str(), "C:/Steam/Data");
    let back = g.to_gpt();
    assert_eq!(back.data, "C:/Steam/Data");
    assert_eq!(back.plugins, "/p/plugins.txt");
    assert_eq!(back.mods, "/m");
}

#[test]
fn read_toml_after_set_gives_entry() {
    let mut cfg = GamepathsT::new();
    assert!(read_toml(&cfg, 3).is_none());
    cfg.set(3, entry("/games/Oblivion/Data", "/pl.txt", "/games/Oblivion/mods"));
    let g = read_toml(&cfg, 3).unwrap();
    assert_eq!(g.data.as_str(), "/games/Oblivion/Data");
    assert_eq!(g.plugins.as_str(), "/pl.txt");
    assert!(read_toml(&cfg, 1).is_none());
}

#[test]
fn check_path_finds_data_in_any_case() {
    assert!(check_path(&Path::from("/games/Skyrim/Data")));
    assert!(check_path(&Path::from("/games/DATA/x")));
    assert!(check_path(&Path::from("/mydatafolder")));
    assert!(!check_path(&Path::from("/games/Skyrim")));
}

#[test]
fn mod_path_is_beside_data() {
    let p = mod_path_for(&Path::from("/games/Skyrim/Data"));
    assert_eq!(p.as_str(), "/games/Skyrim/mods");
}

#[test]
fn var_name_drops_dollars() {
    assert_eq!(var_name("$HOME"), "HOME");
    assert_eq!(var_name("a$b$"), "ab");
}

#[test]
fn plugin_path_below_steamapps() {
    let p = Path::from("/home/me/.steam/steamapps/common/Skyrim/Data");
    let values = vec![None; p.len()];
    let r = plugin_path_for(&p, &values, 2).unwrap();
    assert_eq!(
        r.as_str(),
        "/home/me/.steam/steamapps/compatdata/72850/pfx/drive_c/users/steamuser/Local Settings/Application Data/Skyrim/plugins.txt"
    );
}

#[test]
fn plugin_path_resolves_variables() {
    let p = Path::from("$LIB/steamapps/common/Fallout 3/Data");
    let mut values = vec![None; p.len()];
    values[0] = Some("/mnt/games".to_string());
    let r = plugin_path_for(&p, &values, 6).unwrap();
    assert_eq!(
        r.as_str(),
        "/mnt/games/steamapps/compatdata/22370/pfx/drive_c/users/steamuser/My Documents/My Games/Fallout3/plugins.txt"
    );
    let unset = vec![None; p.len()];
    let r2 = plugin_path_for(&p, &unset, 6).unwrap();
    assert!(r2.as_str().starts_with("/$LIB/steamapps/"));
}

#[test]
fn plugin_path_without_steamapps_is_none() {
    let p = Path::from("/games/Skyrim/Data");
    let values = vec![None; p.len()];
    assert!(plugin_path_for(&p, &values, 1).is_none());
}
