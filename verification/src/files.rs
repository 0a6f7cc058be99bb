use vstd::prelude::*;
use crate::config::Mode;
use crate::loadorder::Plugin;
use crate::text;
use crate::text::{chars_of, contains, push_all, push_char, split, string_from_str};

verus! {

broadcast use vstd::string::group_string_axioms;

/// The text takes more than one byte in UTF-8: two characters or more, or one outside ASCII.
pub open spec fn over_one_byte(s: Seq<char>) -> bool {
    s.len() > 1 || (s.len() == 1 && (s[0] as u32) >= 0x80)
}

/// `s` without its `*` and `\` characters.
pub open spec fn without_marks(s: Seq<char>) -> Seq<char>
    decreases s.len(),
{
    if s.len() == 0 {
        s
    } else if s.last() == '*' || s.last() == '\\' {
        without_marks(s.drop_last())
    } else {
        without_marks(s.drop_last()).push(s.last())
    }
}

/// The plugin name of a load order line: marks are dropped from lines that hold an
/// apostrophe or start with `*`; other lines are kept as they are.
pub open spec fn mod_name(s: Seq<char>) -> Seq<char> {
    if s.contains('\'') || (s.len() > 0 && s[0] == '*') {
        without_marks(s)
    } else {
        s
    }
}

/// A plugin as a name and a state.
pub open spec fn entry(p: Plugin) -> (Seq<char>, bool) {
    (p.name@, p.active)
}

/// The plugins as names and states.
pub open spec fn entries(v: Seq<Plugin>) -> Seq<(Seq<char>, bool)> {
    v.map_values(|p: Plugin| entry(p))
}

/// The active plugins named by the lines of a plugins file: every line of more than one
/// byte, in order.
pub open spec fn listed(lines: Seq<Seq<char>>) -> Seq<(Seq<char>, bool)>
    decreases lines.len(),
{
    if lines.len() == 0 {
        Seq::empty()
    } else if over_one_byte(lines.last()) {
        listed(lines.drop_last()).push((mod_name(lines.last()), true))
    } else {
        listed(lines.drop_last())
    }
}

/// Some entry of `v` has the name `n`.
pub open spec fn names_hold(v: Seq<(Seq<char>, bool)>, n: Seq<char>) -> bool {
    exists|j: int| 0 <= j < v.len() && (#[trigger] v[j]).0 == n
}

/// The listed plugins followed by every installed plugin not yet named, as inactive;
/// each installed name is looked up among everything gathered before it.
pub open spec fn merged(base: Seq<(Seq<char>, bool)>, installed: Seq<Seq<char>>) -> Seq<(Seq<char>, bool)>
    decreases installed.len(),
{
    if installed.len() == 0 {
        base
    } else {
        let m = merged(base, installed.drop_last());
        if names_hold(m, installed.last()) {
            m
        } else {
            m.push((mod_name(installed.last()), false))
        }
    }
}

/// The plugins named by the file stay first, in their order, when installed plugins are added.
pub proof fn law_merged_keeps_file_order(base: Seq<(Seq<char>, bool)>, installed: Seq<Seq<char>>)
    ensures
        merged(base, installed).len() >= base.len(),
        merged(base, installed).subrange(0, base.len() as int) == base,
    decreases installed.len(),
{
    if installed.len() == 0 {
        assert(base.subrange(0, base.len() as int) =~= base);
    } else {
        law_merged_keeps_file_order(base, installed.drop_last());
        let m = merged(base, installed.drop_last());
        assert(m.push((mod_name(installed.last()), false)).subrange(0, base.len() as int) =~= m.subrange(0, base.len() as int));
    }
}

/// Every installed plugin is in the load order: under its own name, or under the name its
/// line would give; those added are inactive.
pub proof fn law_merged_covers_installed(base: Seq<(Seq<char>, bool)>, installed: Seq<Seq<char>>)
    ensures
        forall|i: int| 0 <= i < installed.len() ==> names_hold(merged(base, installed), #[trigger] installed[i])
            || names_hold(merged(base, installed), mod_name(installed[i])),
        forall|k: int| base.len() <= k < merged(base, installed).len() ==> !(#[trigger] merged(base, installed)[k]).1,
    decreases installed.len(),
{
    if installed.len() > 0 {
        let w = installed.drop_last();
        law_merged_covers_installed(base, w);
        law_merged_keeps_file_order(base, w);
        let m = merged(base, w);
        let r = merged(base, installed);
        assert forall|i: int| 0 <= i < installed.len() implies names_hold(r, #[trigger] installed[i])
            || names_hold(r, mod_name(installed[i])) by {
            if i < installed.len() - 1 {
                assert(installed[i] == w[i]);
                if names_hold(m, w[i]) {
                    let j = choose|j: int| 0 <= j < m.len() && (#[trigger] m[j]).0 == w[i];
                    assert(r[j] == m[j]);
                } else {
                    let j = choose|j: int| 0 <= j < m.len() && (#[trigger] m[j]).0 == mod_name(w[i]);
                    assert(r[j] == m[j]);
                }
            } else if !names_hold(m, installed.last()) {
                assert(r[r.len() - 1].0 == mod_name(installed[i]));
            } else {
                let j = choose|j: int| 0 <= j < m.len() && (#[trigger] m[j]).0 == installed.last();
                assert(r[j] == m[j]);
            }
        }
    }
}

/// Does the game expect `*` before every active plugin in its plugins file?
pub open spec fn starred(mode: Mode) -> bool {
    mode == Mode::Fallout4 || mode == Mode::SkyrimSE
}

/// The line prefix of active plugins in the plugins file of `mode`.
pub open spec fn line_prefix(mode: Mode) -> Seq<char> {
    if starred(mode) {
        seq!['*']
    } else {
        Seq::empty()
    }
}

/// The plugins file text: each active plugin on a line of its own, after the prefix.
pub open spec fn loadorder_text(v: Seq<Plugin>, mode: Mode) -> Seq<char>
    decreases v.len(),
{
    if v.len() == 0 {
        Seq::empty()
    } else if v.last().active {
        loadorder_text(v.drop_last(), mode) + line_prefix(mode) + v.last().name@ + seq!['\n']
    } else {
        loadorder_text(v.drop_last(), mode)
    }
}

/// The active plugins as names and states, in order.
pub open spec fn active_entries(v: Seq<Plugin>) -> Seq<(Seq<char>, bool)>
    decreases v.len(),
{
    if v.len() == 0 {
        Seq::empty()
    } else if v.last().active {
        active_entries(v.drop_last()).push(entry(v.last()))
    } else {
        active_entries(v.drop_last())
    }
}

/// The lines of the plugins file, without their line ends.
pub open spec fn loadorder_lines(v: Seq<Plugin>, mode: Mode) -> Seq<Seq<char>>
    decreases v.len(),
{
    if v.len() == 0 {
        Seq::empty()
    } else if v.last().active {
        loadorder_lines(v.drop_last(), mode).push(line_prefix(mode) + v.last().name@)
    } else {
        loadorder_lines(v.drop_last(), mode)
    }
}

/// A plugin name that the plugins file of `mode` holds and gives back unchanged: no line
/// end in it, its line is longer than one byte, and reading the line yields the name.
pub open spec fn survives_file(name: Seq<char>, mode: Mode) -> bool {
    &&& !name.contains('\n')
    &&& over_one_byte(line_prefix(mode) + name)
    &&& mod_name(line_prefix(mode) + name) == name
}

proof fn lemma_text_is_terminated(v: Seq<Plugin>, mode: Mode)
    ensures
        loadorder_text(v, mode) == text::terminated(loadorder_lines(v, mode), '\n'),
    decreases v.len(),
{
    if v.len() > 0 {
        lemma_text_is_terminated(v.drop_last(), mode);
        if v.last().active {
            let ls = loadorder_lines(v.drop_last(), mode);
            let x = line_prefix(mode) + v.last().name@;
            assert(ls.push(x).drop_last() =~= ls);
            assert(text::terminated(ls.push(x), '\n') =~= text::terminated(ls, '\n') + x + seq!['\n']);
            assert(loadorder_text(v, mode) =~= text::terminated(ls, '\n') + line_prefix(mode) + v.last().name@ + seq!['\n']);
        }
    }
}

proof fn lemma_lines_listed(v: Seq<Plugin>, mode: Mode)
    requires
        forall|i: int| 0 <= i < v.len() && (#[trigger] v[i]).active ==> survives_file(v[i].name@, mode),
    ensures
        listed(loadorder_lines(v, mode)) == active_entries(v),
        forall|i: int| 0 <= i < loadorder_lines(v, mode).len() ==> !(#[trigger] loadorder_lines(v, mode)[i]).contains('\n'),
    decreases v.len(),
{
    if v.len() > 0 {
        let w = v.drop_last();
        assert forall|i: int| 0 <= i < w.len() && (#[trigger] w[i]).active implies survives_file(w[i].name@, mode) by {
            assert(w[i] == v[i]);
        }
        lemma_lines_listed(w, mode);
        if v.last().active {
            assert(v[v.len() - 1].active);
            let ls = loadorder_lines(w, mode);
            let x = line_prefix(mode) + v.last().name@;
            assert(ls.push(x).drop_last() =~= ls);
            assert(!x.contains('\n')) by {
                if x.contains('\n') {
                    let j = choose|j: int| 0 <= j < x.len() && x[j] == '\n';
                    if j >= line_prefix(mode).len() {
                        assert(v.last().name@[j - line_prefix(mode).len()] == '\n');
                    }
                }
            }
            assert forall|i: int| 0 <= i < ls.push(x).len() implies !(#[trigger] ls.push(x)[i]).contains('\n') by {
                if i < ls.len() {
                    assert(ls.push(x)[i] == ls[i]);
                }
            }
        }
    }
}

/// Reading back the plugins file written for a load order gives its active plugins, in
/// order and active, whenever each of their names survives the file.
pub proof fn law_read_back_loadorder(v: Seq<Plugin>, mode: Mode)
    requires
        forall|i: int| 0 <= i < v.len() && (#[trigger] v[i]).active ==> survives_file(v[i].name@, mode),
    ensures
        listed(text::split_seq(loadorder_text(v, mode), '\n')) == active_entries(v),
{
    lemma_text_is_terminated(v, mode);
    lemma_lines_listed(v, mode);
    text::lemma_split_terminated(loadorder_lines(v, mode), '\n');
    let ls = loadorder_lines(v, mode);
    assert(ls.push(Seq::<char>::empty()).drop_last() =~= ls);
}

/// The plugins file holds the load order's plugins one after the other: the text for a list
/// of plugins is the text for its first part followed by the text for the rest.
pub proof fn law_loadorder_text_concat(a: Seq<Plugin>, b: Seq<Plugin>, mode: Mode)
    ensures
        loadorder_text(a + b, mode) == loadorder_text(a, mode) + loadorder_text(b, mode),
    decreases b.len(),
{
    if b.len() == 0 {
        assert(a + b =~= a);
        assert(loadorder_text(a, mode) + Seq::<char>::empty() =~= loadorder_text(a, mode));
    } else {
        law_loadorder_text_concat(a, b.drop_last(), mode);
        assert((a + b).drop_last() =~= a + b.drop_last());
        assert((a + b).last() == b.last());
        if b.last().active {
            let pre = line_prefix(mode) + b.last().name@ + seq!['\n'];
            assert(loadorder_text(a, mode) + loadorder_text(b.drop_last(), mode) + pre =~= loadorder_text(a, mode) + (
            loadorder_text(b.drop_last(), mode) + pre));
        }
    }
}

/// One plugin's line in the plugins file: nothing for an inactive plugin; for an active one
/// its name and a line end, after a `*` for Fallout 4 and Skyrim Special Edition only, so
/// that for Skyrim, Oblivion, Fallout New Vegas and Fallout 3 the line is exactly the name.
pub proof fn law_loadorder_line(p: Plugin, mode: Mode)
    ensures
        !p.active ==> loadorder_text(seq![p], mode) == Seq::<char>::empty(),
        p.active && (mode == Mode::Fallout4 || mode == Mode::SkyrimSE) ==> loadorder_text(seq![p], mode) == seq!['*']
            + p.name@ + seq!['\n'],
        p.active && (mode == Mode::Skyrim || mode == Mode::Oblivion || mode == Mode::FalloutNV || mode
            == Mode::Fallout3) ==> loadorder_text(seq![p], mode) == p.name@.push('\n'),
{
    let v = seq![p];
    assert(v.drop_last() =~= Seq::<Plugin>::empty());
    assert(v.last() == p);
    assert(loadorder_text(v.drop_last(), mode) == Seq::<char>::empty());
    assert(v.len() == 1);
    if p.active && !(mode == Mode::Fallout4 || mode == Mode::SkyrimSE) {
        assert(line_prefix(mode) == Seq::<char>::empty());
        assert(Seq::<char>::empty() + Seq::<char>::empty() + p.name@ + seq!['\n'] =~= p.name@.push('\n'));
    }
    if p.active && (mode == Mode::Fallout4 || mode == Mode::SkyrimSE) {
        assert(line_prefix(mode) == seq!['*']);
        assert(Seq::<char>::empty() + seq!['*'] + p.name@ + seq!['\n'] =~= seq!['*'] + p.name@ + seq!['\n']);
    }
}

/// Does a directory entry name a plugin (`.esp` or `.esm` in its name)?
pub fn is_plugin_file(name: &str) -> (r: bool)
    ensures
        r == (text::has_sub(name@, ".esp"@) || text::has_sub(name@, ".esm"@)),
{
    contains(name, ".esp") || contains(name, ".esm")
}

/// Does `s` hold the character `c`?
pub fn has_char(s: &str, c: char) -> (r: bool)
    ensures
        r == s@.contains(c),
{
    let v = chars_of(s);
    let mut k: usize = 0;
    while k < v.len()
        invariant
            v@ == s@,
            k <= v.len(),
            forall|j: int| 0 <= j < k ==> v@[j] != c,
        decreases v.len() - k,
    {
        if v[k] == c {
            assert(s@[k as int] == c);
            return true;
        }
        k = k + 1;
    }
    false
}

/// Does `s` take more than one byte in UTF-8?
fn longer_than_one_byte(s: &str) -> (r: bool)
    ensures
        r == over_one_byte(s@),
{
    let v = chars_of(s);
    v.len() > 1 || (v.len() == 1 && (v[0] as u32) >= 0x80)
}

/// The plugin name of a load order line.
fn format_mod_name(src: &str) -> (r: String)
    ensures
        r@ == mod_name(src@),
{
    let v = chars_of(src);
    if has_char(src, '\'') || (v.len() > 0 && v[0] == '*') {
        let mut buf = String::new();
        let mut k: usize = 0;
        while k < v.len()
            invariant
                v@ == src@,
                k <= v.len(),
                buf@ == without_marks(src@.take(k as int)),
            decreases v.len() - k,
        {
            assert(src@.take(k + 1).drop_last() =~= src@.take(k as int));
            if v[k] != '*' && v[k] != '\\' {
                push_char(&mut buf, v[k]);
            }
            k = k + 1;
        }
        assert(src@.take(v.len() as int) =~= src@);
        buf
    } else {
        string_from_str(src)
    }
}

/// The plugins named by a plugins file, all active, in file order.
pub fn read_plugins_file(buffer: &str) -> (r: Vec<Plugin>)
    ensures
        entries(r@) == listed(text::split_seq(buffer@, '\n')),
{
    let lines = split(buffer, '\n');
    let ghost ls = text::split_seq(buffer@, '\n');
    let mut plugins: Vec<Plugin> = Vec::new();
    let mut k: usize = 0;
    while k < lines.len()
        invariant
            text::views(lines@) == ls,
            k <= lines.len(),
            entries(plugins@) == listed(ls.take(k as int)),
        decreases lines.len() - k,
    {
        assert(ls.take(k + 1).drop_last() =~= ls.take(k as int));
        assert(ls[k as int] == lines@[k as int]@);
        let line = lines[k].as_str();
        if longer_than_one_byte(line) {
            let p = Plugin { name: format_mod_name(line), active: true };
            plugins.push(p);
            assert(entries(plugins@) =~= listed(ls.take(k as int)).push((mod_name(ls[k as int]), true)));
        }
        k = k + 1;
    }
    assert(ls.take(lines.len() as int) =~= ls);
    plugins
}

/// Is some plugin of `plugins` named `name`?
fn named(plugins: &Vec<Plugin>, name: &String) -> (r: bool)
    ensures
        r == names_hold(entries(plugins@), name@),
{
    let mut act = false;
    let mut j: usize = 0;
    while j < plugins.len()
        invariant
            j <= plugins.len(),
            act == exists|i: int| 0 <= i < j && (#[trigger] plugins@[i]).name@ == name@,
        decreases plugins.len() - j,
    {
        if *name == plugins[j].name {
            act = true;
        }
        j = j + 1;
    }
    proof {
        if act {
            let i = choose|i: int| 0 <= i < j && (#[trigger] plugins@[i]).name@ == name@;
            assert(entries(plugins@)[i].0 == name@);
        }
        if names_hold(entries(plugins@), name@) {
            let i = choose|i: int| 0 <= i < entries(plugins@).len() && (#[trigger] entries(plugins@)[i]).0 == name@;
            assert(plugins@[i].name@ == name@);
        }
    }
    act
}

/// The plugins of the load order: those named by the plugins file (active), then every
/// installed plugin not named yet (inactive).
pub fn get_active_mods(plugins_file: &str, installed: &Vec<String>) -> (r: Vec<Plugin>)
    ensures
        entries(r@) == merged(listed(text::split_seq(plugins_file@, '\n')), text::views(installed@)),
{
    let mut plugins = read_plugins_file(plugins_file);
    let ghost base = entries(plugins@);
    let ghost inst = text::views(installed@);
    let mut k: usize = 0;
    while k < installed.len()
        invariant
            k <= installed.len(),
            inst == text::views(installed@),
            entries(plugins@) == merged(base, inst.take(k as int)),
        decreases installed.len() - k,
    {
        assert(inst.take(k + 1).drop_last() =~= inst.take(k as int));
        assert(inst.take(k + 1).last() == installed@[k as int]@);
        let act = named(&plugins, &installed[k]);
        if !act {
            let p = Plugin { name: format_mod_name(installed[k].as_str()), active: false };
            plugins.push(p);
            assert(entries(plugins@) =~= merged(base, inst.take(k as int)).push((mod_name(inst[k as int]), false)));
        }
        k = k + 1;
    }
    assert(inst.take(installed.len() as int) =~= inst);
    plugins
}

/// The text of the plugins file for the load order `plugins` of the game `mode`.
pub fn loadorder_contents(plugins: &Vec<Plugin>, mode: Mode) -> (r: String)
    ensures
        r@ == loadorder_text(plugins@, mode),
{
    let mut buffer = String::new();
    let star = mode == Mode::Fallout4 || mode == Mode::SkyrimSE;
    let mut k: usize = 0;
    while k < plugins.len()
        invariant
            k <= plugins.len(),
            star == starred(mode),
            buffer@ == loadorder_text(plugins@.take(k as int), mode),
        decreases plugins.len() - k,
    {
        assert(plugins@.take(k + 1).drop_last() =~= plugins@.take(k as int));
        if plugins[k].active {
            if star {
                push_char(&mut buffer, '*');
            }
            push_all(&mut buffer, plugins[k].name.as_str());
            push_char(&mut buffer, '\n');
            assert(buffer@ =~= loadorder_text(plugins@.take(k as int), mode) + line_prefix(mode)
                + plugins@[k as int].name@ + seq!['\n']);
        }
        k = k + 1;
    }
    assert(plugins@.take(plugins.len() as int) =~= plugins@);
    buffer
}

} // verus!
