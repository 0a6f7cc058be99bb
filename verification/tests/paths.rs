use rmm2::paths::Path;

#[test]
fn path_from_turns_backslashes_into_slashes() {
    let p = Path::from("C:\\Games\\Skyrim\\Data");
    assert_eq!(p.as_str(), "C:/Games/Skyrim/Data");
}

#[test]
fn path_new_is_empty() {
    let p = Path::new();
    assert_eq!(p.as_str(), "");
    assert_eq!(p.len(), 0);
    assert!(p.items().is_empty());
}

#[test]
fn path_push_adds_one_slash() {
    let mut p = Path::from("/home/user");
    let q = p.push("mods");
    assert_eq!(p.as_str(), "/home/user/mods");
    assert_eq!(q.as_str(), "/home/user/mods");
    let mut r = Path::from("/home/user/");
    r.push("/mods");
    assert_eq!(r.as_str(), "/home/user/mods");
}

#[test]
fn path_push_drops_only_one_leading_slash() {
    let mut p = Path::from("/a");
    p.push("//b");
    assert_eq!(p.as_str(), "/a//b");
}

#[test]
fn path_push_p_appends_other_path() {
    let mut p = Path::from("/game");
    let q = p.push_p(Path::from("data\\textures"));
    assert_eq!(q.as_str(), "/game/data/textures");
}

#[test]
fn path_items_skip_empty_components() {
    let p = Path::from("//home///user/mods/");
    assert_eq!(p.items(), vec!["home".to_string(), "user".to_string(), "mods".to_string()]);
    assert_eq!(p.len(), 3);
    assert_eq!(p.lastitem(), "mods");
}

#[test]
fn path_previous_keeps_all_but_last_with_trailing_slashes() {
    let p = Path::from("/home/user/mods");
    assert_eq!(p.previous().as_str(), "/home/user/");
    let single = Path::from("mods");
    assert_eq!(single.previous().as_str(), "/");
}

#[test]
fn path_previous_after_push_has_earlier_items() {
    let mut p = Path::from("/steam/games");
    p.push("skyrim");
    let prev = p.previous();
    assert_eq!(prev.items(), Path::from("/steam/games").items());
}

#[test]
fn path_next_descends_into_first_entry() {
    let mut p = Path::from("/mods/x");
    let listing = Some(vec!["inner".to_string(), "other".to_string()]);
    let q = p.next(&listing);
    assert_eq!(q.as_str(), "/mods/x/inner");
    assert_eq!(p.as_str(), "/mods/x/inner");
    let mut r = Path::from("/mods/y");
    let q2 = r.next(&None);
    assert_eq!(q2.as_str(), "/mods/y");
}

#[test]
fn path_clone_is_equal_text() {
    let p = Path::from("/a/b");
    let q = p.clone();
    assert_eq!(p.as_str(), q.as_str());
}
