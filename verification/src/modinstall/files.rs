use vstd::prelude::*;
use crate::loadorder::Plugin;
use crate::text;
use crate::text::{chars_of, contains, push_all, push_char, split, str_eq, string_from_str};

verus! {

broadcast use vstd::string::group_string_axioms;

/// The names in a listing made of quoted names: the pieces between quotes that are neither
/// empty nor a line end.
pub open spec fn quoted_names(pieces: Seq<Seq<char>>) -> Seq<Seq<char>>
    decreases pieces.len(),
{
    if pieces.len() == 0 {
        Seq::empty()
    } else if pieces.last() == "\n"@ || pieces.last().len() == 0 {
        quoted_names(pieces.drop_last())
    } else {
        quoted_names(pieces.drop_last()).push(pieces.last())
    }
}

/// `s` without its `*` characters.
pub open spec fn without_stars(s: Seq<char>) -> Seq<char>
    decreases s.len(),
{
    if s.len() == 0 {
        s
    } else if s.last() == '*' {
        without_stars(s.drop_last())
    } else {
        without_stars(s.drop_last()).push(s.last())
    }
}

/// The installed plugin files among the entries of a data directory: those with `.esp` in
/// their name, in order.
pub open spec fn esp_names(entries: Seq<Seq<char>>) -> Seq<Seq<char>>
    decreases entries.len(),
{
    if entries.len() == 0 {
        Seq::empty()
    } else if text::has_sub(entries.last(), ".esp"@) {
        esp_names(entries.drop_last()).push(entries.last())
    } else {
        esp_names(entries.drop_last())
    }
}

/// Do the games of menu numbers 1 and 3 apply, whose plugins file marks active plugins with `*`?
pub open spec fn star_mode(mode: usize) -> bool {
    mode == 1 || mode == 3
}

/// The line `line` of the plugins file names the plugin `name` for the game `mode`.
pub open spec fn line_names(line: Seq<char>, name: Seq<char>, mode: usize) -> bool {
    if star_mode(mode) {
        without_stars(line) == name
    } else {
        line == name
    }
}

/// The plugins file text for `plugins`: each active one on a line, after `*` for the games
/// that mark them.
pub open spec fn old_loadorder_text(plugins: Seq<Plugin>, mode: usize) -> Seq<char>
    decreases plugins.len(),
{
    if plugins.len() == 0 {
        Seq::empty()
    } else if plugins.last().active {
        old_loadorder_text(plugins.drop_last(), mode) + (if star_mode(mode) { seq!['*'] } else { Seq::empty() })
            + plugins.last().name@ + seq!['\n']
    } else {
        old_loadorder_text(plugins.drop_last(), mode)
    }
}

/// Some line of the plugins file text `buffer` names the plugin `name` for the game `mode`.
pub open spec fn named_in(buffer: Seq<char>, name: Seq<char>, mode: usize) -> bool {
    exists|l: int|
        0 <= l < text::split_seq(buffer, '\n').len() && line_names(
            #[trigger] text::split_seq(buffer, '\n')[l],
            name,
            mode,
        )
}

/// What the plugins file puts before an active plugin's name for the game `mode`.
pub open spec fn old_prefix(mode: usize) -> Seq<char> {
    if star_mode(mode) {
        seq!['*']
    } else {
        Seq::empty()
    }
}

/// The lines of the plugins file text for `plugins`, without their line ends.
pub open spec fn old_lines(plugins: Seq<Plugin>, mode: usize) -> Seq<Seq<char>>
    decreases plugins.len(),
{
    if plugins.len() == 0 {
        Seq::empty()
    } else if plugins.last().active {
        old_lines(plugins.drop_last(), mode).push(old_prefix(mode) + plugins.last().name@)
    } else {
        old_lines(plugins.drop_last(), mode)
    }
}

/// The line is what the plugins file holds for some active plugin of `v`.
pub open spec fn from_active(v: Seq<Plugin>, mode: usize, line: Seq<char>) -> bool {
    exists|j: int| 0 <= j < v.len() && (#[trigger] v[j]).active && line == old_prefix(mode) + v[j].name@
}

proof fn lemma_old_text_terminated(v: Seq<Plugin>, mode: usize)
    ensures
        old_loadorder_text(v, mode) == text::terminated(old_lines(v, mode), '\n'),
    decreases v.len(),
{
    if v.len() > 0 {
        lemma_old_text_terminated(v.drop_last(), mode);
        if v.last().active {
            let ls = old_lines(v.drop_last(), mode);
            let x = old_prefix(mode) + v.last().name@;
            assert(ls.push(x).drop_last() =~= ls);
            assert(text::terminated(ls.push(x), '\n') =~= text::terminated(ls, '\n') + x + seq!['\n']);
            assert(old_loadorder_text(v, mode) =~= text::terminated(ls, '\n') + old_prefix(mode) + v.last().name@
                + seq!['\n']);
        }
    }
}

proof fn lemma_old_lines(v: Seq<Plugin>, mode: usize)
    requires
        forall|i: int| 0 <= i < v.len() ==> !(#[trigger] v[i]).name@.contains('\n'),
    ensures
        forall|l: int| 0 <= l < old_lines(v, mode).len() ==> !(#[trigger] old_lines(v, mode)[l]).contains('\n'),
        forall|l: int| 0 <= l < old_lines(v, mode).len() ==> from_active(v, mode, #[trigger] old_lines(v, mode)[l]),
        forall|j: int| 0 <= j < v.len() && (#[trigger] v[j]).active ==> exists|l: int|
            0 <= l < old_lines(v, mode).len() && #[trigger] old_lines(v, mode)[l] == old_prefix(mode) + v[j].name@,
    decreases v.len(),
{
    if v.len() > 0 {
        let w = v.drop_last();
        assert forall|i: int| 0 <= i < w.len() implies !(#[trigger] w[i]).name@.contains('\n') by {
            assert(w[i] == v[i]);
        }
        lemma_old_lines(w, mode);
        let ls = old_lines(w, mode);
        let n = v.len() - 1;
        assert(v[n] == v.last());
        if v.last().active {
            let x = old_prefix(mode) + v.last().name@;
            assert(!x.contains('\n')) by {
                if x.contains('\n') {
                    let j = choose|j: int| 0 <= j < x.len() && x[j] == '\n';
                    if j >= old_prefix(mode).len() {
                        assert(v[n].name@[j - old_prefix(mode).len()] == '\n');
                    }
                }
            }
            let lv = old_lines(v, mode);
            assert(lv == ls.push(x));
            assert forall|l: int| 0 <= l < lv.len() implies !(#[trigger] lv[l]).contains('\n') by {
                if l < ls.len() {
                    assert(lv[l] == ls[l]);
                }
            }
            assert forall|l: int| 0 <= l < lv.len() implies from_active(v, mode, #[trigger] lv[l]) by {
                if l < ls.len() {
                    assert(lv[l] == ls[l]);
                    assert(from_active(w, mode, ls[l]));
                    let j = choose|j: int| 0 <= j < w.len() && w[j].active && ls[l] == old_prefix(mode) + (#[trigger] w[j]).name@;
                    assert(w[j] == v[j]);
                } else {
                    assert(lv[l] == old_prefix(mode) + v[n].name@);
                }
            }
            assert forall|j: int| 0 <= j < v.len() && (#[trigger] v[j]).active implies exists|l: int|
                0 <= l < lv.len() && #[trigger] lv[l] == old_prefix(mode) + v[j].name@ by {
                if j < n {
                    assert(w[j] == v[j]);
                    let l = choose|l: int| 0 <= l < ls.len() && #[trigger] ls[l] == old_prefix(mode) + w[j].name@;
                    assert(lv[l] == ls[l]);
                } else {
                    assert(lv[ls.len() as int] == x);
                }
            }
        } else {
            let lv = old_lines(v, mode);
            assert(lv == ls);
            assert forall|l: int| 0 <= l < lv.len() implies from_active(v, mode, #[trigger] lv[l]) by {
                assert(from_active(w, mode, ls[l]));
                let j = choose|j: int| 0 <= j < w.len() && w[j].active && ls[l] == old_prefix(mode) + (#[trigger] w[j]).name@;
                assert(w[j] == v[j]);
            }
            assert forall|j: int| 0 <= j < v.len() && (#[trigger] v[j]).active implies exists|l: int|
                0 <= l < lv.len() && #[trigger] lv[l] == old_prefix(mode) + v[j].name@ by {
                assert(j < n);
                assert(w[j] == v[j]);
            }
        }
    }
}

proof fn lemma_without_stars_plain(s: Seq<char>)
    requires
        !s.contains('*'),
    ensures
        without_stars(s) == s,
        without_stars(seq!['*'] + s) == s,
    decreases s.len(),
{
    if s.len() > 0 {
        let t = s.drop_last();
        assert(!t.contains('*')) by {
            if t.contains('*') {
                let i = choose|i: int| 0 <= i < t.len() && t[i] == '*';
                assert(s[i] == '*');
            }
        }
        assert(s.last() == s[s.len() - 1]);
        lemma_without_stars_plain(t);
        let u = seq!['*'] + s;
        assert(u.drop_last() =~= seq!['*'] + t);
        assert(u.last() == s.last());
        assert(s.last() != '*');
        assert(without_stars(u) == without_stars(u.drop_last()).push(u.last()));
        assert(t.push(s.last()) =~= s);
    } else {
        let u = seq!['*'] + s;
        assert(u =~= seq!['*']);
        assert(u.last() == '*');
        assert(u.drop_last() =~= Seq::<char>::empty());
        assert(without_stars(u) == without_stars(u.drop_last()));
    }
}

/// Reading back the plugins file written for the installed plugins `v` marks each of them
/// exactly as it was: a plugin is named by a line of the text that `write_loadorder_text`
/// gives exactly when it is active, so `get_active_mods` over the same data directory gives
/// `v` back, names, order and states. This needs plugin names that are not empty, hold no
/// `*` and no line end, and differ from each other.
pub proof fn law_read_back_old_loadorder(v: Seq<Plugin>, r: Seq<Plugin>, mode: usize)
    requires
        forall|i: int| 0 <= i < v.len() ==> (#[trigger] v[i]).name@.len() > 0 && !v[i].name@.contains('*')
            && !v[i].name@.contains('\n'),
        forall|i: int, j: int| 0 <= i < v.len() && 0 <= j < v.len() && i != j ==> (#[trigger] v[i]).name@
            != (#[trigger] v[j]).name@,
        r.map_values(|p: Plugin| p.name@) == v.map_values(|p: Plugin| p.name@),
        forall|k: int| 0 <= k < r.len() ==> (#[trigger] r[k]).active == named_in(
            old_loadorder_text(v, mode),
            r[k].name@,
            mode,
        ),
    ensures
        r.len() == v.len(),
        forall|k: int| 0 <= k < r.len() ==> (#[trigger] r[k]).name@ == v[k].name@ && r[k].active == v[k].active,
{
    let rn = r.map_values(|p: Plugin| p.name@);
    let vn = v.map_values(|p: Plugin| p.name@);
    assert(r.len() == rn.len() && v.len() == vn.len());
    let ls = old_lines(v, mode);
    lemma_old_text_terminated(v, mode);
    lemma_old_lines(v, mode);
    text::lemma_split_terminated(ls, '\n');
    let lines = text::split_seq(old_loadorder_text(v, mode), '\n');
    assert(lines == ls.push(Seq::<char>::empty()));
    assert forall|k: int| 0 <= k < r.len() implies (#[trigger] r[k]).name@ == v[k].name@ && r[k].active == v[k].active by {
        assert(rn[k] == vn[k]);
        let name = v[k].name@;
        lemma_without_stars_plain(name);
        if v[k].active {
            let l = choose|l: int| 0 <= l < ls.len() && #[trigger] ls[l] == old_prefix(mode) + v[k].name@;
            assert(lines[l] == ls[l]);
            if !star_mode(mode) {
                assert(old_prefix(mode) + name =~= name);
            }
            assert(line_names(lines[l], name, mode));
            assert(named_in(old_loadorder_text(v, mode), name, mode));
        } else {
            if named_in(old_loadorder_text(v, mode), name, mode) {
                let l = choose|l: int| 0 <= l < lines.len() && line_names(#[trigger] lines[l], name, mode);
                if l == ls.len() {
                    assert(lines[l] == Seq::<char>::empty());
                    assert(without_stars(Seq::<char>::empty()) == Seq::<char>::empty());
                    assert(false);
                } else {
                    assert(lines[l] == ls[l]);
                    assert(from_active(v, mode, ls[l]));
                    let j = choose|j: int| 0 <= j < v.len() && (#[trigger] v[j]).active && ls[l] == old_prefix(mode) + v[j].name@;
                    lemma_without_stars_plain(v[j].name@);
                    if !star_mode(mode) {
                        assert(old_prefix(mode) + v[j].name@ =~= v[j].name@);
                    }
                    assert(v[j].name@ == name);
                    assert(false);
                }
            }
        }
    }
}

/// One plugin's line in the plugins file written by `write_loadorder_text`: nothing for an
/// inactive plugin; for an active one its name and a line end, after a `*` for the games of
/// menu numbers 1 and 3 only.
pub proof fn law_old_loadorder_line(p: Plugin, mode: usize)
    ensures
        !p.active ==> old_loadorder_text(seq![p], mode) == Seq::<char>::empty(),
        p.active && (mode == 1 || mode == 3) ==> old_loadorder_text(seq![p], mode) == seq!['*'] + p.name@ + seq!['\n'],
        p.active && !(mode == 1 || mode == 3) ==> old_loadorder_text(seq![p], mode) == p.name@.push('\n'),
{
    let v = seq![p];
    assert(v.drop_last() =~= Seq::<Plugin>::empty());
    assert(v.last() == p);
    assert(old_loadorder_text(v.drop_last(), mode) == Seq::<char>::empty());
    if p.active && (mode == 1 || mode == 3) {
        assert(Seq::<char>::empty() + seq!['*'] + p.name@ + seq!['\n'] =~= seq!['*'] + p.name@ + seq!['\n']);
    }
    if p.active && !(mode == 1 || mode == 3) {
        assert(Seq::<char>::empty() + Seq::<char>::empty() + p.name@ + seq!['\n'] =~= p.name@.push('\n'));
    }
}

/// The names in a directory listing written as quoted names one after the other.
pub fn read_datadir_names(data: &str) -> (r: Vec<String>)
    ensures
        text::views(r@) == quoted_names(text::split_seq(data@, '"')),
{
    let pieces = split(data, '"');
    let ghost ps = text::split_seq(data@, '"');
    let mut data_v: Vec<String> = Vec::new();
    let mut k: usize = 0;
    while k < pieces.len()
        invariant
            text::views(pieces@) == ps,
            k <= pieces.len(),
            text::views(data_v@) == quoted_names(ps.take(k as int)),
        decreases pieces.len() - k,
    {
        assert(ps.take(k + 1).drop_last() =~= ps.take(k as int));
        assert(ps.take(k + 1).last() == pieces@[k as int]@);
        if !str_eq(pieces[k].as_str(), "\n") && pieces[k].as_str().unicode_len() != 0 {
            data_v.push(pieces[k].clone());
            assert(text::views(data_v@) =~= quoted_names(ps.take(k as int)).push(ps[k as int]));
        }
        k = k + 1;
    }
    assert(ps.take(pieces.len() as int) =~= ps);
    data_v
}

/// The installed plugins of a data directory, from its entries: those with `.esp` in their
/// name, all inactive.
pub fn get_installed_mods(data: &Vec<String>) -> (r: Vec<Plugin>)
    ensures
        r@.map_values(|p: Plugin| p.name@) == esp_names(text::views(data@)),
        forall|i: int| 0 <= i < r.len() ==> !(#[trigger] r@[i]).active,
{
    let ghost es = text::views(data@);
    let mut plugins: Vec<Plugin> = Vec::new();
    let mut i: usize = 0;
    while i < data.len()
        invariant
            es == text::views(data@),
            i <= data.len(),
            plugins@.map_values(|p: Plugin| p.name@) == esp_names(es.take(i as int)),
            forall|j: int| 0 <= j < plugins.len() ==> !(#[trigger] plugins@[j]).active,
        decreases data.len() - i,
    {
        assert(es.take(i + 1).drop_last() =~= es.take(i as int));
        assert(es.take(i + 1).last() == data@[i as int]@);
        if contains(data[i].as_str(), ".esp") {
            let plugin_t = Plugin { name: data[i].clone(), active: false };
            plugins.push(plugin_t);
            assert(plugins@.map_values(|p: Plugin| p.name@) =~= esp_names(es.take(i as int)).push(es[i as int]));
        }
        i = i + 1;
    }
    assert(es.take(data.len() as int) =~= es);
    plugins
}

/// A text without its `*` characters.
pub fn ignore_asterix(src: &str) -> (r: String)
    ensures
        r@ == without_stars(src@),
{
    let v = chars_of(src);
    let mut buf = String::new();
    let mut k: usize = 0;
    while k < v.len()
        invariant
            v@ == src@,
            k <= v.len(),
            buf@ == without_stars(src@.take(k as int)),
        decreases v.len() - k,
    {
        assert(src@.take(k + 1).drop_last() =~= src@.take(k as int));
        if v[k] != '*' {
            push_char(&mut buf, v[k]);
        }
        k = k + 1;
    }
    assert(src@.take(v.len() as int) =~= src@);
    buf
}

/// The installed plugins of a data directory, each active when some line of the plugins
/// file names it.
pub fn get_active_mods(data: &Vec<String>, buffer: &str, mode: usize) -> (r: Vec<Plugin>)
    ensures
        r@.map_values(|p: Plugin| p.name@) == esp_names(text::views(data@)),
        forall|k: int| 0 <= k < r.len() ==> (#[trigger] r@[k]).active == named_in(buffer@, r@[k].name@, mode),
{
    let mut plugins = get_installed_mods(data);
    let lines = split(buffer, '\n');
    let ghost ls = text::split_seq(buffer@, '\n');
    let ghost names = plugins@.map_values(|p: Plugin| p.name@);
    let mut i: usize = 0;
    while i < lines.len()
        invariant
            text::views(lines@) == ls,
            ls == text::split_seq(buffer@, '\n'),
            i <= lines.len(),
            plugins@.map_values(|p: Plugin| p.name@) == names,
            forall|k: int| 0 <= k < plugins.len() ==> (#[trigger] plugins@[k]).active == exists|l: int|
                0 <= l < i && line_names(#[trigger] ls[l], plugins@[k].name@, mode),
        decreases lines.len() - i,
    {
        assert(ls[i as int] == lines@[i as int]@);
        let stripped = ignore_asterix(lines[i].as_str());
        let ghost before = plugins@;
        let mut k: usize = 0;
        while k < plugins.len()
            invariant
                text::views(lines@) == ls,
                i < lines.len(),
                stripped@ == without_stars(ls[i as int]),
                k <= plugins.len(),
                plugins@.len() == before.len(),
                plugins@.map_values(|p: Plugin| p.name@) == names,
                forall|j: int| 0 <= j < plugins.len() ==> (#[trigger] plugins@[j]).name == before[j].name,
                forall|j: int| 0 <= j < k ==> (#[trigger] plugins@[j]).active == (before[j].active || line_names(
                    ls[i as int],
                    before[j].name@,
                    mode,
                )),
                forall|j: int| k <= j < plugins.len() ==> (#[trigger] plugins@[j]).active == before[j].active,
            decreases plugins.len() - k,
        {
            let hit = if mode == 1 || mode == 3 {
                stripped == plugins[k].name
            } else {
                lines[i] == plugins[k].name
            };
            if hit {
                let mut p = plugins[k].clone();
                p.active = true;
                plugins.set(k, p);
                assert(plugins@.map_values(|p: Plugin| p.name@) =~= names);
            }
            k = k + 1;
        }
        assert forall|k: int| 0 <= k < plugins.len() implies (#[trigger] plugins@[k]).active == exists|l: int|
            0 <= l < i + 1 && line_names(#[trigger] ls[l], plugins@[k].name@, mode) by {
            if line_names(ls[i as int], plugins@[k].name@, mode) {
                assert(line_names(ls[i as int], plugins@[k].name@, mode));
            }
            if plugins@[k].active && !before[k].active {
                assert(line_names(ls[i as int], plugins@[k].name@, mode));
            }
        }
        i = i + 1;
    }
    plugins
}

/// The text of the plugins file for `plugins` of the game with menu number `mode`.
pub fn write_loadorder_text(plugins: &Vec<Plugin>, mode: usize) -> (r: String)
    ensures
        r@ == old_loadorder_text(plugins@, mode),
{
    let mut buffer = String::new();
    let mut i: usize = 0;
    while i < plugins.len()
        invariant
            i <= plugins.len(),
            buffer@ == old_loadorder_text(plugins@.take(i as int), mode),
        decreases plugins.len() - i,
    {
        assert(plugins@.take(i + 1).drop_last() =~= plugins@.take(i as int));
        if plugins[i].active {
            if mode == 1 || mode == 3 {
                push_char(&mut buffer, '*');
            }
            push_all(&mut buffer, plugins[i].name.as_str());
            push_char(&mut buffer, '\n');
            assert(buffer@ =~= old_loadorder_text(plugins@.take(i + 1), mode));
        }
        i = i + 1;
    }
    assert(plugins@.take(plugins.len() as int) =~= plugins@);
    buffer
}

} // verus!
