use rmm2::loadorder::Plugin;
use rmm2::paths::Path;
use rmm2::ui::menu::{
    explorer_step, game_menu_step, load_order_step, selection_step, ExplorerAction, LoadOrderAction, LoadOrderMenu,
    MenuKey,
};

fn plugin(n: &str, a: bool) -> Plugin {
    Plugin { name: n.to_string(), active: a }
}

#[test]
fn game_menu_keys() {
    assert_eq!(game_menu_step(None, MenuKey::Down), (Some(0), None));
    assert_eq!(game_menu_step(Some(5), MenuKey::Char('j')), (Some(5), None));
    assert_eq!(game_menu_step(Some(2), MenuKey::Char('k')), (Some(1), None));
    assert_eq!(game_menu_step(Some(2), MenuKey::Enter), (Some(2), Some(3)));
    assert_eq!(game_menu_step(None, MenuKey::Enter), (None, None));
    assert_eq!(game_menu_step(Some(1), MenuKey::Other), (Some(1), None));
}

#[test]
fn selection_menu_ticks_and_returns_picks() {
    let mut ticks = vec![plugin("a", false), plugin("b", false), plugin("c", false)];
    let (s, r) = selection_step(&mut ticks, None, MenuKey::Right);
    assert_eq!(s, None);
    assert!(r.is_none());
    let (s, _) = selection_step(&mut ticks, None, MenuKey::Down);
    assert_eq!(s, Some(0));
    let (s, r) = selection_step(&mut ticks, Some(2), MenuKey::Enter);
    assert_eq!(s, Some(2));
    assert!(r.is_none());
    assert!(ticks[2].active && !ticks[0].active);
    let (_, r) = selection_step(&mut ticks, Some(2), MenuKey::Char('l'));
    assert_eq!(r, Some(vec![2]));
    selection_step(&mut ticks, Some(2), MenuKey::Enter);
    assert!(!ticks[2].active);
}

#[test]
fn explorer_moves_opens_and_picks() {
    let path = Path::from("/home/user");
    let items = vec!["games".to_string(), "docs".to_string()];
    match explorer_step(None, &path, &items, MenuKey::Down) {
        ExplorerAction::Select(s) => assert_eq!(s, Some(0)),
        _ => panic!("expected a selection"),
    }
    match explorer_step(Some(1), &path, &items, MenuKey::Right) {
        ExplorerAction::Open(p) => assert_eq!(p.as_str(), "/home/user/docs"),
        _ => panic!("expected to open"),
    }
    match explorer_step(Some(1), &path, &items, MenuKey::Char('h')) {
        ExplorerAction::Open(p) => assert_eq!(p.as_str(), "/home/"),
        _ => panic!("expected the parent"),
    }
    match explorer_step(Some(0), &path, &items, MenuKey::Enter) {
        ExplorerAction::Pick(p) => assert_eq!(p.as_str(), "/home/user/games"),
        _ => panic!("expected a pick"),
    }
    match explorer_step(None, &path, &items, MenuKey::Enter) {
        ExplorerAction::Select(s) => assert_eq!(s, None),
        _ => panic!("expected nothing"),
    }
}

#[test]
fn load_order_menu_keys() {
    let mut plugins = vec![plugin("a.esp", true), plugin("b.esp", false), plugin("c.esp", false)];
    let mut menu = LoadOrderMenu { mods_column: false, plugin_sel: None, mod_sel: None };
    assert!(matches!(load_order_step(&mut menu, &mut plugins, 2, MenuKey::Down), LoadOrderAction::Redraw));
    assert_eq!(menu.plugin_sel, Some(0));
    assert!(matches!(load_order_step(&mut menu, &mut plugins, 2, MenuKey::Char('s')), LoadOrderAction::Redraw));
    assert_eq!(plugins[1].name, "a.esp");
    assert_eq!(menu.plugin_sel, Some(1));
    assert!(matches!(load_order_step(&mut menu, &mut plugins, 2, MenuKey::Char('w')), LoadOrderAction::Redraw));
    assert_eq!(plugins[0].name, "a.esp");
    assert_eq!(menu.plugin_sel, Some(0));
    load_order_step(&mut menu, &mut plugins, 2, MenuKey::Enter);
    assert!(!plugins[0].active);
    load_order_step(&mut menu, &mut plugins, 2, MenuKey::Right);
    assert!(menu.mods_column);
    assert_eq!(menu.plugin_sel, None);
    assert_eq!(menu.mod_sel, Some(0));
    load_order_step(&mut menu, &mut plugins, 2, MenuKey::Char('j'));
    assert!(matches!(load_order_step(&mut menu, &mut plugins, 2, MenuKey::Enter), LoadOrderAction::Install(1)));
    assert!(matches!(load_order_step(&mut menu, &mut plugins, 2, MenuKey::Char('q')), LoadOrderAction::Quit));
    load_order_step(&mut menu, &mut plugins, 2, MenuKey::Left);
    assert!(!menu.mods_column);
    assert_eq!(menu.mod_sel, None);
    assert_eq!(menu.plugin_sel, Some(0));
}

#[test]
fn a_load_order_session_keeps_the_plugin_names() {
    let mut plugins = vec![plugin("a.esp", false), plugin("b.esp", true), plugin("c.esp", false)];
    let mut menu = LoadOrderMenu { mods_column: false, plugin_sel: None, mod_sel: None };
    let keys = [
        MenuKey::Down, MenuKey::Char('s'), MenuKey::Enter, MenuKey::Char('s'), MenuKey::Char('w'),
        MenuKey::Up, MenuKey::Char('w'), MenuKey::Enter, MenuKey::Right, MenuKey::Left, MenuKey::Char('s'),
    ];
    for k in keys {
        load_order_step(&mut menu, &mut plugins, 0, k);
    }
    let mut names: Vec<String> = plugins.iter().map(|p| p.name.clone()).collect();
    names.sort();
    assert_eq!(names, vec!["a.esp", "b.esp", "c.esp"]);
}
