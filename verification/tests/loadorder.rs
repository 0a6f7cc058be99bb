use rmm2::loadorder::{any_active, get_active, move_down, move_up, to_plgvec, to_strvec, Plugin};

fn plugin(name: &str, active: bool) -> Plugin {
    Plugin { name: name.to_string(), active }
}

fn names(v: &Vec<Plugin>) -> Vec<String> {
    v.iter().map(|p| p.name.clone()).collect()
}

#[test]
fn plugin_activate_toggles() {
    let mut p = plugin("a.esp", false);
    p.activate();
    assert!(p.active);
    p.activate();
    assert!(!p.active);
}

#[test]
fn plugin_to_str_shows_box() {
    assert_eq!(plugin("a.esp", true).to_str(), "[ X ]  a.esp");
    assert_eq!(plugin("b.esm", false).to_str(), "[   ]  b.esm");
}

#[test]
fn plugin_from_is_inactive() {
    let p = Plugin::from("Mod.esp");
    assert_eq!(p.name, "Mod.esp");
    assert!(!p.active);
}

#[test]
fn to_plgvec_and_to_strvec() {
    let v = to_plgvec(vec!["a".to_string(), "b".to_string()]);
    assert_eq!(names(&v), vec!["a", "b"]);
    assert!(v.iter().all(|p| !p.active));
    let mut w = v.clone();
    w[1].activate();
    assert_eq!(to_strvec(&w), vec!["[   ]  a".to_string(), "[ X ]  b".to_string()]);
}

#[test]
fn move_up_swaps_with_previous() {
    let mut v = vec![plugin("a", false), plugin("b", true), plugin("c", false)];
    move_up(&mut v, 1);
    assert_eq!(names(&v), vec!["b", "a", "c"]);
    assert!(v[0].active);
    move_up(&mut v, 0);
    assert_eq!(names(&v), vec!["b", "a", "c"]);
}

#[test]
fn move_down_swaps_with_next() {
    let mut v = vec![plugin("a", false), plugin("b", true), plugin("c", false)];
    move_down(&mut v, 1);
    assert_eq!(names(&v), vec!["a", "c", "b"]);
    move_down(&mut v, 2);
    assert_eq!(names(&v), vec!["a", "c", "b"]);
}

#[test]
fn move_up_then_down_restores_order() {
    let mut v = vec![plugin("a", false), plugin("b", true), plugin("c", false)];
    move_up(&mut v, 2);
    move_down(&mut v, 1);
    assert_eq!(names(&v), vec!["a", "b", "c"]);
}

#[test]
fn any_active_and_get_active_agree() {
    let none = vec![plugin("a", false), plugin("b", false)];
    assert!(!any_active(&none));
    assert!(get_active(&none).is_empty());
    let some = vec![plugin("a", true), plugin("b", false), plugin("c", true)];
    assert!(any_active(&some));
    assert_eq!(get_active(&some), vec![0, 2]);
}
