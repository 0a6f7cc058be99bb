use vstd::prelude::*;
use crate::loadorder::{Plugin, plugin_names, law_menu_keeps_names, toggled, moved_up, moved_down, active_indices, has_active, any_active, get_active, move_up, move_down};
use crate::paths;
use crate::paths::Path;
use crate::ui::utils::{next_index, prev_index, select_next_index, select_prev_index};

verus! {

/// A key pressed in a menu. Enter is the line feed; letters come as `Char`.
#[derive(Clone, Copy, Debug)]
pub enum MenuKey {
    Up,
    Down,
    Left,
    Right,
    Enter,
    Char(char),
    Other,
}

/// Up, or `k`.
pub open spec fn is_up(k: MenuKey) -> bool {
    k is Up || k == MenuKey::Char('k')
}

/// Down, or `j`.
pub open spec fn is_down(k: MenuKey) -> bool {
    k is Down || k == MenuKey::Char('j')
}

/// Left, or `h`.
pub open spec fn is_left(k: MenuKey) -> bool {
    k is Left || k == MenuKey::Char('h')
}

/// Right, or `l`.
pub open spec fn is_right(k: MenuKey) -> bool {
    k is Right || k == MenuKey::Char('l')
}

/// Enter.
pub open spec fn is_enter(k: MenuKey) -> bool {
    k is Enter
}

fn up_key(k: MenuKey) -> (r: bool)
    ensures
        r == is_up(k),
{
    match k {
        MenuKey::Up => true,
        MenuKey::Char(c) => c == 'k',
        _ => false,
    }
}

fn down_key(k: MenuKey) -> (r: bool)
    ensures
        r == is_down(k),
{
    match k {
        MenuKey::Down => true,
        MenuKey::Char(c) => c == 'j',
        _ => false,
    }
}

fn left_key(k: MenuKey) -> (r: bool)
    ensures
        r == is_left(k),
{
    match k {
        MenuKey::Left => true,
        MenuKey::Char(c) => c == 'h',
        _ => false,
    }
}

fn right_key(k: MenuKey) -> (r: bool)
    ensures
        r == is_right(k),
{
    match k {
        MenuKey::Right => true,
        MenuKey::Char(c) => c == 'l',
        _ => false,
    }
}

fn char_key(k: MenuKey, c: char) -> (r: bool)
    ensures
        r == (k == MenuKey::Char(c)),
{
    match k {
        MenuKey::Char(d) => d == c,
        _ => false,
    }
}

/// The number of games the game menu offers.
pub const GAME_COUNT: usize = 6;

/// One key in the game menu: the new selection, and the chosen game (counting from 1)
/// when Enter is pressed on a selected line.
pub fn game_menu_step(sel: Option<usize>, key: MenuKey) -> (r: (Option<usize>, Option<usize>))
    requires
        is_enter(key) && sel is Some ==> sel->0 < usize::MAX,
    ensures
        is_up(key) ==> r == (prev_index(sel), None::<usize>),
        is_down(key) ==> r == (next_index(sel, GAME_COUNT), None::<usize>),
        is_enter(key) ==> r == (sel, match sel {
            Some(x) => Some((x + 1) as usize),
            None => None,
        }),
        !is_up(key) && !is_down(key) && !is_enter(key) ==> r == (sel, None::<usize>),
{
    if up_key(key) {
        (select_prev_index(sel), None)
    } else if down_key(key) {
        (select_next_index(sel, GAME_COUNT), None)
    } else if let MenuKey::Enter = key {
        match sel {
            Some(x) => (sel, Some(x + 1)),
            None => (sel, None),
        }
    } else {
        (sel, None)
    }
}

/// One key in the menu of an installer group's options, whose ticks are in `ticks`: the new
/// selection, and the positions of the ticked options once Right is pressed with some option
/// ticked. Enter ticks or unticks the selected option.
pub fn selection_step(ticks: &mut Vec<Plugin>, sel: Option<usize>, key: MenuKey) -> (r: (
    Option<usize>,
    Option<Vec<usize>>,
))
    requires
        is_down(key) && sel is Some ==> old(ticks).len() > 0,
        is_enter(key) && sel is Some ==> sel->0 < old(ticks).len(),
    ensures
        is_enter(key) && sel is Some ==> final(ticks)@ == old(ticks)@.update(
            sel->0 as int,
            toggled(old(ticks)@[sel->0 as int]),
        ),
        !(is_enter(key) && sel is Some) ==> final(ticks)@ == old(ticks)@,
        is_up(key) ==> r.0 == prev_index(sel),
        is_down(key) ==> r.0 == next_index(sel, old(ticks).len()),
        !is_up(key) && !is_down(key) ==> r.0 == sel,
        is_right(key) && has_active(old(ticks)@) ==> (r.1 matches Some(v) && v@ == active_indices(
            old(ticks)@,
        )),
        !(is_right(key) && has_active(old(ticks)@)) ==> r.1 is None,
{
    if down_key(key) {
        (select_next_index(sel, ticks.len()), None)
    } else if up_key(key) {
        (select_prev_index(sel), None)
    } else if let MenuKey::Enter = key {
        match sel {
            Some(x) => {
                let mut p = ticks[x].clone();
                p.activate();
                ticks.set(x, p);
            },
            None => {},
        }
        (sel, None)
    } else if right_key(key) {
        if any_active(ticks) {
            (sel, Some(get_active(ticks)))
        } else {
            (sel, None)
        }
    } else {
        (sel, None)
    }
}

/// What the file explorer does after a key.
pub enum ExplorerAction {
    /// Stay in the directory with this selection.
    Select(Option<usize>),
    /// Open this directory; its listing starts with nothing selected.
    Open(Path),
    /// The path chosen.
    Pick(Path),
}

/// One key in the file explorer at `path`, whose entries are `items`: move the selection,
/// open the selected entry (Right), go to the parent (Left), or choose the selected entry
/// (Enter).
pub fn explorer_step(sel: Option<usize>, path: &Path, items: &Vec<String>, key: MenuKey) -> (r:
    ExplorerAction)
    requires
        is_down(key) && sel is Some ==> items.len() > 0,
        (is_right(key) || is_enter(key)) && sel is Some ==> sel->0 < items.len(),
        is_left(key) ==> paths::path_items(path@).len() > 0,
    ensures
        is_up(key) ==> r == ExplorerAction::Select(prev_index(sel)),
        is_down(key) ==> r == ExplorerAction::Select(next_index(sel, items.len())),
        is_right(key) ==> match sel {
            Some(x) => r matches ExplorerAction::Open(p) && p@ == paths::pushed(path@, items@[x as int]@),
            None => r == ExplorerAction::Select(sel),
        },
        is_left(key) ==> (r matches ExplorerAction::Open(p) && p@ == paths::parent_of(path@)),
        is_enter(key) ==> match sel {
            Some(x) => r matches ExplorerAction::Pick(p) && p@ == paths::pushed(path@, items@[x as int]@),
            None => r == ExplorerAction::Select(sel),
        },
        !is_up(key) && !is_down(key) && !is_left(key) && !is_right(key) && !is_enter(key) ==> r
            == ExplorerAction::Select(sel),
{
    if up_key(key) {
        ExplorerAction::Select(select_prev_index(sel))
    } else if down_key(key) {
        ExplorerAction::Select(select_next_index(sel, items.len()))
    } else if right_key(key) {
        match sel {
            Some(x) => {
                let mut p = path.clone();
                p.push(items[x].as_str());
                ExplorerAction::Open(p)
            },
            None => ExplorerAction::Select(sel),
        }
    } else if left_key(key) {
        ExplorerAction::Open(path.previous())
    } else if let MenuKey::Enter = key {
        match sel {
            Some(x) => {
                let mut p = path.clone();
                p.push(items[x].as_str());
                ExplorerAction::Pick(p)
            },
            None => ExplorerAction::Select(sel),
        }
    } else {
        ExplorerAction::Select(sel)
    }
}

/// The state of the load order menu: which column has the focus (the plugins, or the mods
/// that can be installed) and the selection in each.
pub struct LoadOrderMenu {
    pub mods_column: bool,
    pub plugin_sel: Option<usize>,
    pub mod_sel: Option<usize>,
}

/// What the load order menu does after a key.
pub enum LoadOrderAction {
    /// Show the menu again.
    Redraw,
    /// Write the load order and leave.
    Quit,
    /// Install the mod at this position of the mods list.
    Install(usize),
}

/// The selection of the column with the focus.
pub open spec fn focused(m: LoadOrderMenu) -> Option<usize> {
    if m.mods_column {
        m.mod_sel
    } else {
        m.plugin_sel
    }
}

/// `m` with the selection of the column with the focus set to `s`.
pub open spec fn with_focused(m: LoadOrderMenu, s: Option<usize>) -> LoadOrderMenu {
    if m.mods_column {
        LoadOrderMenu { mod_sel: s, ..m }
    } else {
        LoadOrderMenu { plugin_sel: s, ..m }
    }
}

/// The menu after switching columns: the column left loses its selection and the column
/// entered moves its selection down, over `len` entries (the plugins or the mods).
pub open spec fn switched(m: LoadOrderMenu, plugins_len: usize, mods_len: usize) -> LoadOrderMenu {
    if m.mods_column {
        LoadOrderMenu { mods_column: false, mod_sel: None, plugin_sel: next_index(m.plugin_sel, plugins_len) }
    } else {
        LoadOrderMenu { mods_column: true, plugin_sel: None, mod_sel: next_index(m.mod_sel, mods_len) }
    }
}

/// One key in the load order menu over `plugins` and a mods list of `mods_len` entries.
/// `q` quits (the caller writes the load order); Left and Right switch columns; Up and Down
/// move the selection; in the plugins column Enter toggles the selected plugin, `w` moves it
/// up and `s` down, the selection following it; in the mods column Enter installs the
/// selected mod.
pub fn load_order_step(
    menu: &mut LoadOrderMenu,
    plugins: &mut Vec<Plugin>,
    mods_len: usize,
    key: MenuKey,
) -> (r: LoadOrderAction)
    requires
        (is_left(key) || is_right(key)) && old(menu).mods_column && old(menu).plugin_sel is Some
            ==> old(plugins).len() > 0,
        (is_left(key) || is_right(key)) && !old(menu).mods_column && old(menu).mod_sel is Some
            ==> mods_len > 0,
        is_down(key) && focused(*old(menu)) is Some ==> (if old(menu).mods_column {
            mods_len > 0
        } else {
            old(plugins).len() > 0
        }),
        is_enter(key) && focused(*old(menu)) is Some ==> (if old(menu).mods_column {
            focused(*old(menu))->0 < mods_len
        } else {
            focused(*old(menu))->0 < old(plugins).len()
        }),
        key == MenuKey::Char('w') && !old(menu).mods_column && old(menu).plugin_sel is Some
            ==> old(menu).plugin_sel->0 > 0 ==> old(menu).plugin_sel->0 < old(plugins).len(),
        key == MenuKey::Char('s') && !old(menu).mods_column && old(menu).plugin_sel is Some
            ==> old(plugins).len() > 0,
    ensures
        key == MenuKey::Char('q') ==> r is Quit && *final(menu) == *old(menu) && final(plugins)@
            == old(plugins)@,
        is_left(key) || is_right(key) ==> r is Redraw && *final(menu) == switched(
            *old(menu),
            old(plugins).len(),
            mods_len,
        ) && final(plugins)@ == old(plugins)@,
        is_up(key) ==> r is Redraw && *final(menu) == with_focused(
            *old(menu),
            prev_index(focused(*old(menu))),
        ) && final(plugins)@ == old(plugins)@,
        is_down(key) ==> r is Redraw && *final(menu) == with_focused(
            *old(menu),
            next_index(
                focused(*old(menu)),
                if old(menu).mods_column {
                    mods_len
                } else {
                    old(plugins).len()
                },
            ),
        ) && final(plugins)@ == old(plugins)@,
        is_enter(key) ==> *final(menu) == *old(menu) && match focused(*old(menu)) {
            None => r is Redraw && final(plugins)@ == old(plugins)@,
            Some(x) => if old(menu).mods_column {
                r == LoadOrderAction::Install(x) && final(plugins)@ == old(plugins)@
            } else {
                r is Redraw && final(plugins)@ == old(plugins)@.update(
                    x as int,
                    toggled(old(plugins)@[x as int]),
                )
            },
        },
        key == MenuKey::Char('w') ==> r is Redraw && if !old(menu).mods_column
            && old(menu).plugin_sel is Some {
            let x = old(menu).plugin_sel->0;
            &&& final(plugins)@ == moved_up(old(plugins)@, x as int)
            &&& *final(menu) == with_focused(*old(menu), prev_index(Some(x)))
        } else {
            *final(menu) == *old(menu) && final(plugins)@ == old(plugins)@
        },
        key == MenuKey::Char('s') ==> r is Redraw && if !old(menu).mods_column
            && old(menu).plugin_sel is Some {
            let x = old(menu).plugin_sel->0;
            &&& final(plugins)@ == moved_down(old(plugins)@, x as int)
            &&& *final(menu) == with_focused(*old(menu), next_index(Some(x), old(plugins).len()))
        } else {
            *final(menu) == *old(menu) && final(plugins)@ == old(plugins)@
        },
        !is_left(key) && !is_right(key) && !is_up(key) && !is_down(key) && !is_enter(key) && key
            != MenuKey::Char('q') && key != MenuKey::Char('w') && key != MenuKey::Char('s') ==> r is Redraw
            && *final(menu) == *old(menu) && final(plugins)@ == old(plugins)@,
        final(plugins)@.len() == old(plugins)@.len(),
        plugin_names(final(plugins)@).to_multiset() == plugin_names(old(plugins)@).to_multiset(),
{
    let ghost before = plugins@;
    if char_key(key, 'q') {
        return LoadOrderAction::Quit;
    }
    if left_key(key) || right_key(key) {
        if menu.mods_column {
            menu.mods_column = false;
            menu.mod_sel = None;
            menu.plugin_sel = select_next_index(menu.plugin_sel, plugins.len());
        } else {
            menu.mods_column = true;
            menu.plugin_sel = None;
            menu.mod_sel = select_next_index(menu.mod_sel, mods_len);
        }
        return LoadOrderAction::Redraw;
    }
    if up_key(key) {
        if menu.mods_column {
            menu.mod_sel = select_prev_index(menu.mod_sel);
        } else {
            menu.plugin_sel = select_prev_index(menu.plugin_sel);
        }
        return LoadOrderAction::Redraw;
    }
    if down_key(key) {
        if menu.mods_column {
            menu.mod_sel = select_next_index(menu.mod_sel, mods_len);
        } else {
            menu.plugin_sel = select_next_index(menu.plugin_sel, plugins.len());
        }
        return LoadOrderAction::Redraw;
    }
    if let MenuKey::Enter = key {
        if menu.mods_column {
            match menu.mod_sel {
                Some(x) => {
                    return LoadOrderAction::Install(x);
                },
                None => {
                    return LoadOrderAction::Redraw;
                },
            }
        } else {
            match menu.plugin_sel {
                Some(x) => {
                    let mut p = plugins[x].clone();
                    p.activate();
                    plugins.set(x, p);
                    proof {
                        law_menu_keeps_names(before, x as int);
                    }
                },
                None => {},
            }
            return LoadOrderAction::Redraw;
        }
    }
    if char_key(key, 'w') {
        if !menu.mods_column {
            match menu.plugin_sel {
                Some(x) => {
                    proof {
                        law_menu_keeps_names(before, x as int);
                    }
                    move_up(plugins, x);
                    menu.plugin_sel = select_prev_index(Some(x));
                },
                None => {},
            }
        }
        return LoadOrderAction::Redraw;
    }
    if char_key(key, 's') {
        if !menu.mods_column {
            match menu.plugin_sel {
                Some(x) => {
                    proof {
                        law_menu_keeps_names(before, x as int);
                    }
                    move_down(plugins, x);
                    menu.plugin_sel = select_next_index(Some(x), plugins.len());
                },
                None => {},
            }
        }
        return LoadOrderAction::Redraw;
    }
    LoadOrderAction::Redraw
}

} // verus!
