use vstd::prelude::*;
use crate::paths as cpaths;
use crate::text;
use crate::text::{contains, push_all, push_char, split, str_eq};

verus! {

broadcast use vstd::string::group_string_axioms;

/// The three locations of a game, as text.
pub struct Gamepath {
    pub data: String,
    pub plugins: String,
    pub mods: String,
}

impl Clone for Gamepath {
    fn clone(&self) -> (r: Self)
        ensures
            r == *self,
    {
        Gamepath { data: self.data.clone(), plugins: self.plugins.clone(), mods: self.mods.clone() }
    }
}

/// The locations of each game, where known.
pub struct Gamepaths {
    pub skyrimse: Option<Gamepath>,
    pub skyrim: Option<Gamepath>,
    pub oblivion: Option<Gamepath>,
    pub fallout4: Option<Gamepath>,
    pub falloutnv: Option<Gamepath>,
    pub fallout3: Option<Gamepath>,
}

/// The entry for the game with menu number `mode`.
pub open spec fn entry_of(p: Gamepaths, mode: int) -> Option<Gamepath> {
    if mode == 1 {
        p.skyrimse
    } else if mode == 2 {
        p.skyrim
    } else if mode == 3 {
        p.oblivion
    } else if mode == 4 {
        p.fallout4
    } else if mode == 5 {
        p.falloutnv
    } else {
        p.fallout3
    }
}

/// The position of the first piece that holds `Data` or `data`.
pub open spec fn first_data(pieces: Seq<Seq<char>>) -> Option<int>
    decreases pieces.len(),
{
    if pieces.len() == 0 {
        None
    } else {
        match first_data(pieces.drop_last()) {
            Some(i) => Some(i),
            None => if text::has_sub(pieces.last(), "Data"@) || text::has_sub(pieces.last(), "data"@) {
                Some(pieces.len() - 1)
            } else {
                None
            },
        }
    }
}

/// The pieces of `path` up to its data directory, each followed by a slash, then `last`;
/// all pieces, each followed by a slash, when none names a data directory.
pub open spec fn up_to_data(path: Seq<char>, last: Seq<char>) -> Seq<char> {
    let ps = text::split_seq(path, '/');
    match first_data(ps) {
        Some(j) => cpaths::joined(ps.take(j)) + last,
        None => cpaths::joined(ps),
    }
}

/// The position of the first `steamapps` piece.
pub open spec fn first_steam(pieces: Seq<Seq<char>>) -> Option<int>
    decreases pieces.len(),
{
    if pieces.len() == 0 {
        None
    } else {
        match first_steam(pieces.drop_last()) {
            Some(i) => Some(i),
            None => if pieces.last() == "steamapps"@ {
                Some(pieces.len() - 1)
            } else {
                None
            },
        }
    }
}

proof fn lemma_first_prefix(list: Seq<Seq<char>>, n: int, data: bool)
    requires
        0 < n <= list.len(),
        data ==> first_data(list.take(n)) == Some(n - 1),
        !data ==> first_steam(list.take(n)) == Some(n - 1),
    ensures
        data ==> first_data(list) == Some(n - 1),
        !data ==> first_steam(list) == Some(n - 1),
    decreases list.len(),
{
    if n < list.len() {
        assert(list.drop_last().take(n) =~= list.take(n));
        lemma_first_prefix(list.drop_last(), n, data);
    } else {
        assert(list.take(n) =~= list);
    }
}

/// The text of `path` up to its data directory, which is named `last` in the result.
fn up_to_data_text(path: &str, last: &str) -> (r: String)
    ensures
        r@ == up_to_data(path@, last@),
{
    let pieces = split(path, '/');
    let ghost ps = text::split_seq(path@, '/');
    let mut buff = String::new();
    let mut k: usize = 0;
    while k < pieces.len()
        invariant
            text::views(pieces@) == ps,
            ps == text::split_seq(path@, '/'),
            k <= pieces.len(),
            first_data(ps.take(k as int)) is None,
            buff@ == cpaths::joined(ps.take(k as int)),
        decreases pieces.len() - k,
    {
        assert(ps.take(k + 1).drop_last() =~= ps.take(k as int));
        assert(ps.take(k + 1).last() == pieces@[k as int]@);
        if contains(pieces[k].as_str(), "Data") || contains(pieces[k].as_str(), "data") {
            push_all(&mut buff, last);
            proof {
                lemma_first_prefix(ps, k + 1, true);
            }
            return buff;
        }
        push_all(&mut buff, pieces[k].as_str());
        push_char(&mut buff, '/');
        assert(buff@ =~= cpaths::joined(ps.take(k + 1)));
        k = k + 1;
    }
    assert(ps.take(pieces.len() as int) =~= ps);
    buff
}

/// The data directory of a game from the path the user gave: the path up to the first
/// directory whose name holds `Data` or `data`, which is written `Data/`.
pub fn fix_data_path(path: &str) -> (r: String)
    ensures
        r@ == up_to_data(path@, "Data/"@),
{
    up_to_data_text(path, "Data/")
}

/// The mods directory of a game: `Mods/` beside its data directory.
pub fn get_mod_path(path: &str) -> (r: String)
    ensures
        r@ == up_to_data(path@, "Mods/"@),
{
    up_to_data_text(path, "Mods/")
}

/// The plugins file location below the `steamapps` directory of the path the user gave:
/// a slash and every piece before `steamapps`, each followed by a slash. `None` when no
/// piece is `steamapps`.
pub fn get_plugin_path(path: &str, mode: usize) -> (r: Option<String>)
    requires
        mode < 6,
    ensures
        r is None <==> first_steam(text::split_seq(path@, '/')) is None,
        r matches Some(p) ==> p@ == seq!['/'] + cpaths::joined(
            text::split_seq(path@, '/').take(first_steam(text::split_seq(path@, '/'))->0),
        ),
{
    let pieces = split(path, '/');
    let ghost ps = text::split_seq(path@, '/');
    let mut buff = String::new();
    push_char(&mut buff, '/');
    let mut k: usize = 0;
    while k < pieces.len()
        invariant
            text::views(pieces@) == ps,
            ps == text::split_seq(path@, '/'),
            k <= pieces.len(),
            first_steam(ps.take(k as int)) is None,
            buff@ == seq!['/'] + cpaths::joined(ps.take(k as int)),
        decreases pieces.len() - k,
    {
        assert(ps.take(k + 1).drop_last() =~= ps.take(k as int));
        assert(ps.take(k + 1).last() == pieces@[k as int]@);
        if str_eq(pieces[k].as_str(), "steamapps") {
            proof {
                lemma_first_prefix(ps, k + 1, false);
            }
            return Some(buff);
        }
        push_all(&mut buff, pieces[k].as_str());
        push_char(&mut buff, '/');
        assert(buff@ =~= seq!['/'] + cpaths::joined(ps.take(k + 1)));
        k = k + 1;
    }
    assert(ps.take(pieces.len() as int) =~= ps);
    None
}

/// The locations of game `mode` when the configuration holds them.
pub fn read_toml(paths: &Gamepaths, mode: usize) -> (r: Option<Gamepath>)
    requires
        1 <= mode <= 6,
    ensures
        r == entry_of(*paths, mode as int),
{
    let entry = if mode == 1 {
        &paths.skyrimse
    } else if mode == 2 {
        &paths.skyrim
    } else if mode == 3 {
        &paths.oblivion
    } else if mode == 4 {
        &paths.fallout4
    } else if mode == 5 {
        &paths.falloutnv
    } else {
        &paths.fallout3
    };
    match entry {
        Some(x) => Some(x.clone()),
        None => None,
    }
}

} // verus!
