use vstd::prelude::*;
use crate::modinstall::utils::dir::fix_case;
use crate::paths;
use crate::paths::Path;
use crate::text;
use crate::text::{chars_of, contains, push_char, str_eq};

verus! {

broadcast use vstd::string::group_string_axioms;

/// The games this manager handles, in the order of the game menu.
#[derive(PartialEq, Eq, Structural, Clone, Copy, Debug)]
pub enum Mode {
    SkyrimSE,
    Skyrim,
    Oblivion,
    Fallout4,
    FalloutNV,
    Fallout3,
}

/// The menu number (from 1) of a game.
pub open spec fn mode_number(m: Mode) -> int {
    match m {
        Mode::SkyrimSE => 1,
        Mode::Skyrim => 2,
        Mode::Oblivion => 3,
        Mode::Fallout4 => 4,
        Mode::FalloutNV => 5,
        Mode::Fallout3 => 6,
    }
}

impl Mode {
    /// The game with menu number `n` (from 1).
    pub fn from_number(n: usize) -> (r: Option<Mode>)
        ensures
            r matches Some(m) ==> mode_number(m) == n,
            r is None <==> !(1 <= n <= 6),
    {
        if n == 1 {
            Some(Mode::SkyrimSE)
        } else if n == 2 {
            Some(Mode::Skyrim)
        } else if n == 3 {
            Some(Mode::Oblivion)
        } else if n == 4 {
            Some(Mode::Fallout4)
        } else if n == 5 {
            Some(Mode::FalloutNV)
        } else if n == 6 {
            Some(Mode::Fallout3)
        } else {
            None
        }
    }
}

/// The three locations the manager keeps for a game, as paths.
pub struct Gamepath {
    pub data: Path,
    pub plugins: Path,
    pub mods: Path,
}

impl Clone for Gamepath {
    fn clone(&self) -> (r: Self)
        ensures
            r.data@ == self.data@,
            r.plugins@ == self.plugins@,
            r.mods@ == self.mods@,
    {
        Gamepath { data: self.data.clone(), plugins: self.plugins.clone(), mods: self.mods.clone() }
    }
}

/// The three locations of a game as they are written in the configuration file.
pub struct GamepathT {
    pub data: String,
    pub plugins: String,
    pub mods: String,
}

impl Clone for GamepathT {
    fn clone(&self) -> (r: Self)
        ensures
            r == *self,
    {
        GamepathT { data: self.data.clone(), plugins: self.plugins.clone(), mods: self.mods.clone() }
    }
}

/// The configuration file: the locations of each game, where known.
pub struct GamepathsT {
    pub skyrimse: Option<GamepathT>,
    pub skyrim: Option<GamepathT>,
    pub oblivion: Option<GamepathT>,
    pub fallout4: Option<GamepathT>,
    pub falloutnv: Option<GamepathT>,
    pub fallout3: Option<GamepathT>,
}

/// The entry of the configuration for the game with menu number `mode`.
pub open spec fn slot(p: GamepathsT, mode: int) -> Option<GamepathT> {
    if mode == 1 {
        p.skyrimse
    } else if mode == 2 {
        p.skyrim
    } else if mode == 3 {
        p.oblivion
    } else if mode == 4 {
        p.fallout4
    } else if mode == 5 {
        p.falloutnv
    } else {
        p.fallout3
    }
}

/// The configuration with the entry of game `mode` replaced by `g`.
pub open spec fn with_slot(p: GamepathsT, mode: int, g: GamepathT) -> GamepathsT {
    GamepathsT {
        skyrimse: if mode == 1 { Some(g) } else { p.skyrimse },
        skyrim: if mode == 2 { Some(g) } else { p.skyrim },
        oblivion: if mode == 3 { Some(g) } else { p.oblivion },
        fallout4: if mode == 4 { Some(g) } else { p.fallout4 },
        falloutnv: if mode == 5 { Some(g) } else { p.falloutnv },
        fallout3: if mode == 6 { Some(g) } else { p.fallout3 },
    }
}

/// A path read from a configuration entry, as its three texts.
pub open spec fn read_entry(t: GamepathT) -> (Seq<char>, Seq<char>, Seq<char>) {
    (paths::forward_slashes(t.data@), paths::forward_slashes(t.plugins@), paths::forward_slashes(t.mods@))
}

/// The plugins file of game `mode` below a Steam library, from the `steamapps` directory on.
pub open spec fn plugin_file_tail(mode: int) -> Seq<char> {
    if mode == 1 {
        "/steamapps/compatdata/489830/pfx/drive_c/users/steamuser/Local Settings/Application Data/Skyrim Special Edition/plugins.txt"@
    } else if mode == 2 {
        "/steamapps/compatdata/72850/pfx/drive_c/users/steamuser/Local Settings/Application Data/Skyrim/plugins.txt"@
    } else if mode == 3 {
        "/steamapps/compatdata/22330/pfx/drive_c/users/steamuser/Local Settings/Application Data/Oblivion/plugins.txt"@
    } else if mode == 4 {
        "/steamapps/compatdata/377160/pfx/drive_c/users/steamuser/Local Settings/Application Data/Fallout4/plugins.txt"@
    } else if mode == 5 {
        "/steamapps/compatdata/22380/pfx/drive_c/users/steamuser/Local Settings/Application Data/Fallout New Vegas/plugins.txt"@
    } else {
        "/steamapps/compatdata/22370/pfx/drive_c/users/steamuser/My Documents/My Games/Fallout3/plugins.txt"@
    }
}

/// `s` without its `$` characters.
pub open spec fn without_dollars(s: Seq<char>) -> Seq<char>
    decreases s.len(),
{
    if s.len() == 0 {
        s
    } else if s.last() == '$' {
        without_dollars(s.drop_last())
    } else {
        without_dollars(s.drop_last()).push(s.last())
    }
}

/// The component that stands for a path component: the value of the environment variable
/// it names when it starts with `$` and the variable is set, the component itself otherwise.
pub open spec fn resolved(item: Seq<char>, value: Option<String>) -> Seq<char> {
    if item.len() > 0 && item[0] == '$' {
        match value {
            Some(v) => v@,
            None => item,
        }
    } else {
        item
    }
}

/// The path built from the first `n` components (each resolved) of a data path.
pub open spec fn built(items: Seq<Seq<char>>, values: Seq<Option<String>>, n: int) -> Seq<char>
    decreases n,
{
    if n <= 0 {
        Seq::<char>::empty()
    } else {
        paths::pushed(built(items, values, n - 1), resolved(items[n - 1], values[n - 1]))
    }
}

/// The position of the first `steamapps` component, if any.
pub open spec fn steam_index(items: Seq<Seq<char>>) -> Option<int>
    decreases items.len(),
{
    if items.len() == 0 {
        None
    } else {
        match steam_index(items.drop_last()) {
            Some(i) => Some(i),
            None => if items.last() == "steamapps"@ {
                Some(items.len() - 1)
            } else {
                None
            },
        }
    }
}

impl GamepathT {
    /// The locations as paths.
    pub fn to_gp(&self) -> (r: Gamepath)
        ensures
            (r.data@, r.plugins@, r.mods@) == read_entry(*self),
    {
        Gamepath {
            data: Path::from(self.data.as_str()),
            plugins: Path::from(self.plugins.as_str()),
            mods: Path::from(self.mods.as_str()),
        }
    }
}

impl Gamepath {
    /// The locations as configuration texts.
    pub fn to_gpt(&self) -> (r: GamepathT)
        ensures
            r.data@ == self.data@,
            r.plugins@ == self.plugins@,
            r.mods@ == self.mods@,
    {
        GamepathT {
            data: self.data.as_str(),
            plugins: self.plugins.as_str(),
            mods: self.mods.as_str(),
        }
    }
}

impl GamepathsT {
    /// An empty configuration.
    pub fn new() -> (r: GamepathsT)
        ensures
            forall|m: int| 1 <= m <= 6 ==> slot(r, m) is None,
    {
        GamepathsT {
            skyrimse: None,
            skyrim: None,
            oblivion: None,
            fallout4: None,
            falloutnv: None,
            fallout3: None,
        }
    }

    /// Records the locations of game `mode`.
    pub fn set(&mut self, mode: usize, g: GamepathT)
        requires
            1 <= mode <= 6,
        ensures
            *final(self) == with_slot(*old(self), mode as int, g),
    {
        if mode == 1 {
            self.skyrimse = Some(g);
        } else if mode == 2 {
            self.skyrim = Some(g);
        } else if mode == 3 {
            self.oblivion = Some(g);
        } else if mode == 4 {
            self.fallout4 = Some(g);
        } else if mode == 5 {
            self.falloutnv = Some(g);
        } else {
            self.fallout3 = Some(g);
        }
    }
}

/// Does the path go through a directory whose name holds `data` in any case?
pub fn check_path(path: &Path) -> (r: bool)
    ensures
        r == exists|i: int| 0 <= i < paths::path_items(path@).len()
            && text::has_sub(text::lower_seq(#[trigger] paths::path_items(path@)[i]), "data"@),
{
    let items = path.items();
    let ghost all = paths::path_items(path@);
    let mut k: usize = 0;
    while k < items.len()
        invariant
            text::views(items@) == all,
            all == paths::path_items(path@),
            k <= items.len(),
            forall|i: int| 0 <= i < k ==> !text::has_sub(text::lower_seq(#[trigger] all[i]), "data"@),
        decreases items.len() - k,
    {
        assert(all[k as int] == items@[k as int]@);
        if contains(fix_case(items[k].as_str()).as_str(), "data") {
            assert(text::has_sub(text::lower_seq(all[k as int]), "data"@));
            return true;
        }
        k = k + 1;
    }
    false
}

/// The mods directory of a game: `mods` beside its data directory.
pub fn mod_path_for(path: &Path) -> (r: Path)
    requires
        paths::path_items(path@).len() > 0,
    ensures
        r@ == paths::pushed(paths::parent_of(path@), "mods"@),
{
    let mut p = path.previous();
    p.push("mods")
}

/// The name of the environment variable a `$` component names.
pub fn var_name(src: &str) -> (r: String)
    ensures
        r@ == without_dollars(src@),
{
    let v = chars_of(src);
    let mut s = String::new();
    let mut k: usize = 0;
    while k < v.len()
        invariant
            v@ == src@,
            k <= v.len(),
            s@ == without_dollars(src@.take(k as int)),
        decreases v.len() - k,
    {
        assert(src@.take(k + 1).drop_last() =~= src@.take(k as int));
        if v[k] != '$' {
            push_char(&mut s, v[k]);
        }
        k = k + 1;
    }
    assert(src@.take(v.len() as int) =~= src@);
    s
}

/// The text of the plugins file of game `mode` below a Steam library.
fn plugin_file(mode: usize) -> (r: &'static str)
    requires
        1 <= mode <= 6,
    ensures
        r@ == plugin_file_tail(mode as int),
{
    if mode == 1 {
        "/steamapps/compatdata/489830/pfx/drive_c/users/steamuser/Local Settings/Application Data/Skyrim Special Edition/plugins.txt"
    } else if mode == 2 {
        "/steamapps/compatdata/72850/pfx/drive_c/users/steamuser/Local Settings/Application Data/Skyrim/plugins.txt"
    } else if mode == 3 {
        "/steamapps/compatdata/22330/pfx/drive_c/users/steamuser/Local Settings/Application Data/Oblivion/plugins.txt"
    } else if mode == 4 {
        "/steamapps/compatdata/377160/pfx/drive_c/users/steamuser/Local Settings/Application Data/Fallout4/plugins.txt"
    } else if mode == 5 {
        "/steamapps/compatdata/22380/pfx/drive_c/users/steamuser/Local Settings/Application Data/Fallout New Vegas/plugins.txt"
    } else {
        "/steamapps/compatdata/22370/pfx/drive_c/users/steamuser/My Documents/My Games/Fallout3/plugins.txt"
    }
}

/// The plugins file of game `mode` for a data path below a Steam library: the components
/// before `steamapps` (those starting with `$` replaced by the environment variable's value
/// in `values`, where set), then the game's plugins file. `None` when no component is
/// `steamapps`.
pub fn plugin_path_for(path: &Path, values: &Vec<Option<String>>, mode: usize) -> (r: Option<Path>)
    requires
        1 <= mode <= 6,
        values.len() == paths::path_items(path@).len(),
    ensures
        r is None <==> steam_index(paths::path_items(path@)) is None,
        r matches Some(p) ==> p@ == paths::pushed(
            built(paths::path_items(path@), values@, steam_index(paths::path_items(path@))->0),
            plugin_file_tail(mode as int),
        ),
{
    let items = path.items();
    let ghost all = paths::path_items(path@);
    let mut buff = Path::new();
    let mut k: usize = 0;
    while k < items.len()
        invariant
            text::views(items@) == all,
            all == paths::path_items(path@),
            values.len() == all.len(),
            1 <= mode <= 6,
            k <= items.len(),
            steam_index(all.take(k as int)) is None,
            buff@ == built(all, values@, k as int),
        decreases items.len() - k,
    {
        assert(all.take(k + 1).drop_last() =~= all.take(k as int));
        assert(all[k as int] == items@[k as int]@);
        if str_eq(items[k].as_str(), "steamapps") {
            let ghost before = buff@;
            buff.push(plugin_file(mode));
            proof {
                assert(all.take(k + 1).last() == "steamapps"@);
                assert(steam_index(all.take(k + 1)) == Some(k as int));
                lemma_steam_prefix(all, (k + 1) as int);
                assert(before == built(all, values@, k as int));
            }
            return Some(buff);
        } else if text::starts_with_char(items[k].as_str(), '$') {
            match &values[k] {
                Some(v) => {
                    buff.push(v.as_str());
                },
                None => {
                    buff.push(items[k].as_str());
                },
            }
        } else {
            buff.push(items[k].as_str());
        }
        k = k + 1;
    }
    assert(all.take(items.len() as int) =~= all);
    None
}

proof fn lemma_steam_prefix(list: Seq<Seq<char>>, n: int)
    requires
        0 < n <= list.len(),
        steam_index(list.take(n)) == Some(n - 1),
    ensures
        steam_index(list) == Some(n - 1),
    decreases list.len(),
{
    if n < list.len() {
        assert(list.drop_last().take(n) =~= list.take(n));
        lemma_steam_prefix(list.drop_last(), n);
    } else {
        assert(list.take(n) =~= list);
    }
}

/// The locations of game `mode` when the configuration holds them.
pub fn read_toml(paths: &GamepathsT, mode: usize) -> (r: Option<Gamepath>)
    requires
        1 <= mode <= 6,
    ensures
        r is Some <==> slot(*paths, mode as int) is Some,
        r matches Some(g) ==> (g.data@, g.plugins@, g.mods@) == read_entry(slot(*paths, mode as int)->0),
{
    let entry = if mode == 1 {
        &paths.skyrimse
    } else if mode == 2 {
        &paths.skyrim
    } else if mode == 3 {
        &paths.oblivion
    } else if mode == 4 {
        &paths.fallout4
    } else if mode == 5 {
        &paths.falloutnv
    } else {
        &paths.fallout3
    };
    match entry {
        Some(x) => Some(x.to_gp()),
        None => None,
    }
}

/// Recording a game's locations and then reading the configuration for that game gives
/// back those locations; the other games' entries stay as they were.
pub proof fn law_read_after_set(p: GamepathsT, mode: int, other: int, g: GamepathT)
    requires
        1 <= mode <= 6,
        1 <= other <= 6,
    ensures
        slot(with_slot(p, mode, g), mode) == Some(g),
        other != mode ==> slot(with_slot(p, mode, g), other) == slot(p, other),
{
}

/// A game's locations written to the configuration and read back are the same paths,
/// as long as they hold no backslash.
pub proof fn law_entry_round_trip(data: Seq<char>, plugins: Seq<char>, mods: Seq<char>)
    requires
        !data.contains('\\'),
        !plugins.contains('\\'),
        !mods.contains('\\'),
    ensures
        paths::forward_slashes(data) == data,
        paths::forward_slashes(plugins) == plugins,
        paths::forward_slashes(mods) == mods,
{
    lemma_no_backslash_kept(data);
    lemma_no_backslash_kept(plugins);
    lemma_no_backslash_kept(mods);
}

proof fn lemma_no_backslash_kept(s: Seq<char>)
    requires
        !s.contains('\\'),
    ensures
        paths::forward_slashes(s) == s,
{
    assert forall|i: int| 0 <= i < s.len() implies paths::forward_slashes(s)[i] == s[i] by {
        assert(s[i] != '\\');
    }
    assert(paths::forward_slashes(s) =~= s);
}

/// Each game has its own entry of the configuration, the field named for it, both where
/// its locations are read and where they are recorded: game 1 (Skyrim Special Edition) in
/// `skyrimse`, 2 (Skyrim) in `skyrim`, 3 (Oblivion) in `oblivion`, 4 (Fallout 4) in
/// `fallout4`, 5 (Fallout New Vegas) in `falloutnv` and 6 (Fallout 3) in `fallout3`;
/// recording a game's locations leaves every other field as it was.
pub proof fn law_entry_of_each_game(p: GamepathsT, g: GamepathT)
    ensures
        mode_number(Mode::SkyrimSE) == 1 && slot(p, 1) == p.skyrimse,
        mode_number(Mode::Skyrim) == 2 && slot(p, 2) == p.skyrim,
        mode_number(Mode::Oblivion) == 3 && slot(p, 3) == p.oblivion,
        mode_number(Mode::Fallout4) == 4 && slot(p, 4) == p.fallout4,
        mode_number(Mode::FalloutNV) == 5 && slot(p, 5) == p.falloutnv,
        mode_number(Mode::Fallout3) == 6 && slot(p, 6) == p.fallout3,
        with_slot(p, 1, g) == (GamepathsT { skyrimse: Some(g), ..p }),
        with_slot(p, 2, g) == (GamepathsT { skyrim: Some(g), ..p }),
        with_slot(p, 3, g) == (GamepathsT { oblivion: Some(g), ..p }),
        with_slot(p, 4, g) == (GamepathsT { fallout4: Some(g), ..p }),
        with_slot(p, 5, g) == (GamepathsT { falloutnv: Some(g), ..p }),
        with_slot(p, 6, g) == (GamepathsT { fallout3: Some(g), ..p }),
{
}

/// The plugins file of a game under its Steam library: the Proton prefix of the game's own
/// Steam app, then the user's folder the game writes to.
pub open spec fn proton_plugins_file(app_id: Seq<char>, user_dir: Seq<char>) -> Seq<char> {
    "/steamapps/compatdata/"@ + app_id + "/pfx/drive_c/users/steamuser/"@ + user_dir + "/plugins.txt"@
}

/// Each game's plugins file lies in the Proton prefix of its own Steam app: Skyrim Special
/// Edition 489830, Skyrim 72850, Oblivion 22330, Fallout 4 377160, Fallout New Vegas 22380,
/// Fallout 3 22370, in the folder that game writes to; so no two games share a plugins file.
pub proof fn law_plugin_file_of_each_game()
    ensures
        plugin_file_tail(1) == proton_plugins_file("489830"@, "Local Settings/Application Data/Skyrim Special Edition"@),
        plugin_file_tail(2) == proton_plugins_file("72850"@, "Local Settings/Application Data/Skyrim"@),
        plugin_file_tail(3) == proton_plugins_file("22330"@, "Local Settings/Application Data/Oblivion"@),
        plugin_file_tail(4) == proton_plugins_file("377160"@, "Local Settings/Application Data/Fallout4"@),
        plugin_file_tail(5) == proton_plugins_file("22380"@, "Local Settings/Application Data/Fallout New Vegas"@),
        plugin_file_tail(6) == proton_plugins_file("22370"@, "My Documents/My Games/Fallout3"@),
        forall|m: int, n: int| 1 <= m <= 6 && 1 <= n <= 6 && m != n ==> plugin_file_tail(m) != plugin_file_tail(n),
{
    reveal_strlit("/steamapps/compatdata/");
    reveal_strlit("/pfx/drive_c/users/steamuser/");
    reveal_strlit("/plugins.txt");
    reveal_strlit("489830");
    reveal_strlit("72850");
    reveal_strlit("22330");
    reveal_strlit("377160");
    reveal_strlit("22380");
    reveal_strlit("22370");
    reveal_strlit("Local Settings/Application Data/Skyrim Special Edition");
    reveal_strlit("Local Settings/Application Data/Skyrim");
    reveal_strlit("Local Settings/Application Data/Oblivion");
    reveal_strlit("Local Settings/Application Data/Fallout4");
    reveal_strlit("Local Settings/Application Data/Fallout New Vegas");
    reveal_strlit("My Documents/My Games/Fallout3");
    reveal_strlit("/steamapps/compatdata/489830/pfx/drive_c/users/steamuser/Local Settings/Application Data/Skyrim Special Edition/plugins.txt");
    reveal_strlit("/steamapps/compatdata/72850/pfx/drive_c/users/steamuser/Local Settings/Application Data/Skyrim/plugins.txt");
    reveal_strlit("/steamapps/compatdata/22330/pfx/drive_c/users/steamuser/Local Settings/Application Data/Oblivion/plugins.txt");
    reveal_strlit("/steamapps/compatdata/377160/pfx/drive_c/users/steamuser/Local Settings/Application Data/Fallout4/plugins.txt");
    reveal_strlit("/steamapps/compatdata/22380/pfx/drive_c/users/steamuser/Local Settings/Application Data/Fallout New Vegas/plugins.txt");
    reveal_strlit("/steamapps/compatdata/22370/pfx/drive_c/users/steamuser/My Documents/My Games/Fallout3/plugins.txt");
    assert(plugin_file_tail(1) =~= proton_plugins_file("489830"@, "Local Settings/Application Data/Skyrim Special Edition"@));
    assert(plugin_file_tail(2) =~= proton_plugins_file("72850"@, "Local Settings/Application Data/Skyrim"@));
    assert(plugin_file_tail(3) =~= proton_plugins_file("22330"@, "Local Settings/Application Data/Oblivion"@));
    assert(plugin_file_tail(4) =~= proton_plugins_file("377160"@, "Local Settings/Application Data/Fallout4"@));
    assert(plugin_file_tail(5) =~= proton_plugins_file("22380"@, "Local Settings/Application Data/Fallout New Vegas"@));
    assert(plugin_file_tail(6) =~= proton_plugins_file("22370"@, "My Documents/My Games/Fallout3"@));
    assert forall|m: int, n: int| 1 <= m <= 6 && 1 <= n <= 6 && m != n implies plugin_file_tail(m) != plugin_file_tail(n) by {
        let a = plugin_file_tail(m);
        let b = plugin_file_tail(n);
        if a == b {
            assert(a[22] == b[22]);
            assert(a[25] == b[25]);
        }
    }
}

} // verus!
