use vstd::prelude::*;
use crate::text;
use crate::text::push_all;

verus! {

broadcast use vstd::string::group_string_axioms;

/// A plugin file of the game and whether it is enabled in the load order.
pub struct Plugin {
    pub name: String,
    pub active: bool,
}

impl Clone for Plugin {
    fn clone(&self) -> (r: Self)
        ensures
            r == *self,
    {
        Plugin { name: self.name.clone(), active: self.active }
    }
}

/// The menu line of a plugin: a check box, two spaces, then the name.
pub open spec fn plugin_line(p: Plugin) -> Seq<char> {
    if p.active {
        "[ X ]  "@ + p.name@
    } else {
        "[   ]  "@ + p.name@
    }
}

/// The plugin with its state flipped.
pub open spec fn toggled(p: Plugin) -> Plugin {
    Plugin { name: p.name, active: !p.active }
}

/// `v` with the entries at `i` and `j` exchanged.
pub open spec fn swapped(v: Seq<Plugin>, i: int, j: int) -> Seq<Plugin> {
    v.update(i, v[j]).update(j, v[i])
}

/// The load order after moving the entry at `idx` one place up (towards the front).
pub open spec fn moved_up(v: Seq<Plugin>, idx: int) -> Seq<Plugin> {
    if idx > 0 {
        swapped(v, idx, idx - 1)
    } else {
        v
    }
}

/// The load order after moving the entry at `idx` one place down (towards the back).
pub open spec fn moved_down(v: Seq<Plugin>, idx: int) -> Seq<Plugin> {
    if idx < v.len() - 1 {
        swapped(v, idx, idx + 1)
    } else {
        v
    }
}

/// The positions of the active plugins, in increasing order.
pub open spec fn active_indices(v: Seq<Plugin>) -> Seq<usize>
    decreases v.len(),
{
    if v.len() == 0 {
        Seq::<usize>::empty()
    } else if v.last().active {
        active_indices(v.drop_last()).push((v.len() - 1) as usize)
    } else {
        active_indices(v.drop_last())
    }
}

/// Some plugin is active.
pub open spec fn has_active(v: Seq<Plugin>) -> bool {
    exists|i: int| 0 <= i < v.len() && #[trigger] v[i].active
}

impl Plugin {
    /// The menu line of this plugin.
    pub fn to_str(&self) -> (r: String)
        ensures
            r@ == plugin_line(*self),
    {
        let mut s = String::new();
        if self.active {
            push_all(&mut s, "[ X ]  ");
        } else {
            push_all(&mut s, "[   ]  ");
        }
        push_all(&mut s, self.name.as_str());
        s
    }

    /// Flips the plugin between active and inactive.
    pub fn activate(&mut self)
        ensures
            *final(self) == toggled(*old(self)),
    {
        if self.active {
            self.active = false;
        } else {
            self.active = true;
        }
    }

    /// An inactive plugin with the given name.
    pub fn from(src: &str) -> (r: Plugin)
        ensures
            r.name@ == src@,
            !r.active,
    {
        Plugin { name: text::string_from_str(src), active: false }
    }
}

/// Inactive plugins with the given names, in order.
pub fn to_plgvec(src: Vec<String>) -> (r: Vec<Plugin>)
    ensures
        r.len() == src.len(),
        forall|i: int| 0 <= i < r.len() ==> (#[trigger] r[i]).name@ == src[i]@ && !r[i].active,
{
    let mut pvec: Vec<Plugin> = Vec::new();
    let mut k: usize = 0;
    while k < src.len()
        invariant
            k <= src.len(),
            pvec.len() == k,
            forall|i: int| 0 <= i < k ==> (#[trigger] pvec[i]).name@ == src[i]@ && !pvec[i].active,
        decreases src.len() - k,
    {
        pvec.push(Plugin::from(src[k].as_str()));
        k = k + 1;
    }
    pvec
}

/// The menu lines of the plugins, in order.
pub fn to_strvec(src: &Vec<Plugin>) -> (r: Vec<String>)
    ensures
        r.len() == src.len(),
        forall|i: int| 0 <= i < r.len() ==> (#[trigger] r[i])@ == plugin_line(src[i]),
{
    let mut vec: Vec<String> = Vec::new();
    let mut k: usize = 0;
    while k < src.len()
        invariant
            k <= src.len(),
            vec.len() == k,
            forall|i: int| 0 <= i < k ==> (#[trigger] vec[i])@ == plugin_line(src[i]),
        decreases src.len() - k,
    {
        vec.push(src[k].to_str());
        k = k + 1;
    }
    vec
}

/// Moves the plugin at `idx` one place up the load order; the first one stays.
pub fn move_up(plugins: &mut Vec<Plugin>, idx: usize)
    requires
        idx > 0 ==> idx < old(plugins).len(),
    ensures
        final(plugins)@ == moved_up(old(plugins)@, idx as int),
{
    if idx > 0 {
        let temp = plugins[idx].clone();
        let prev = plugins[idx - 1].clone();
        plugins.set(idx, prev);
        plugins.set(idx - 1, temp);
    }
}

/// Moves the plugin at `idx` one place down the load order; the last one stays.
pub fn move_down(plugins: &mut Vec<Plugin>, idx: usize)
    requires
        old(plugins).len() > 0,
    ensures
        final(plugins)@ == moved_down(old(plugins)@, idx as int),
{
    if idx < plugins.len() - 1 {
        let temp = plugins[idx].clone();
        let next = plugins[idx + 1].clone();
        plugins.set(idx, next);
        plugins.set(idx + 1, temp);
    }
}

/// Is some plugin active?
pub fn any_active(plugins: &Vec<Plugin>) -> (r: bool)
    ensures
        r == has_active(plugins@),
{
    let mut k: usize = 0;
    while k < plugins.len()
        invariant
            k <= plugins.len(),
            forall|i: int| 0 <= i < k ==> !(#[trigger] plugins@[i]).active,
        decreases plugins.len() - k,
    {
        if plugins[k].active {
            return true;
        }
        k = k + 1;
    }
    false
}

/// The positions of the active plugins, in increasing order.
pub fn get_active(plugins: &Vec<Plugin>) -> (r: Vec<usize>)
    ensures
        r@ == active_indices(plugins@),
{
    let mut v: Vec<usize> = Vec::new();
    let mut k: usize = 0;
    while k < plugins.len()
        invariant
            k <= plugins.len(),
            v@ == active_indices(plugins@.take(k as int)),
        decreases plugins.len() - k,
    {
        assert(plugins@.take(k + 1).drop_last() =~= plugins@.take(k as int));
        if plugins[k].active {
            v.push(k);
        }
        k = k + 1;
    }
    assert(plugins@.take(plugins.len() as int) =~= plugins@);
    v
}

/// Activating a plugin twice leaves it as it was.
pub proof fn law_activate_twice(p: Plugin)
    ensures
        toggled(toggled(p)) == p,
{
}

/// Moving an entry up and then the same entry down restores the load order.
pub proof fn law_move_up_then_down(v: Seq<Plugin>, idx: int)
    requires
        0 < idx < v.len(),
    ensures
        moved_down(moved_up(v, idx), idx - 1) == v,
{
    assert(moved_down(moved_up(v, idx), idx - 1) =~= v);
}

/// Moving an entry down and then the same entry up restores the load order.
pub proof fn law_move_down_then_up(v: Seq<Plugin>, idx: int)
    requires
        0 <= idx < v.len() - 1,
    ensures
        moved_up(moved_down(v, idx), idx + 1) == v,
{
    assert(moved_up(moved_down(v, idx), idx + 1) =~= v);
}

/// Moving entries never adds, drops or changes a plugin.
pub proof fn law_moves_keep_plugins(v: Seq<Plugin>, idx: int)
    requires
        0 <= idx < v.len(),
    ensures
        moved_up(v, idx).to_multiset() == v.to_multiset(),
        moved_down(v, idx).to_multiset() == v.to_multiset(),
{
    if idx > 0 {
        lemma_swap_multiset(v, idx, idx - 1);
    }
    if idx < v.len() - 1 {
        lemma_swap_multiset(v, idx, idx + 1);
    }
}

proof fn lemma_swap_multiset<A>(v: Seq<A>, i: int, j: int)
    requires
        0 <= i < v.len(),
        0 <= j < v.len(),
    ensures
        v.update(i, v[j]).update(j, v[i]).to_multiset() == v.to_multiset(),
{
    broadcast use vstd::multiset::group_multiset_axioms;
    let a = v[i];
    let b = v[j];
    let u = v.update(i, b);
    vstd::seq_lib::to_multiset_update(v, i, b);
    vstd::seq_lib::to_multiset_update(u, j, a);
    vstd::seq_lib::to_multiset_contains(v, a);
    assert(v.contains(a)) by {
        assert(v[i] == a);
    }
    assert(u[j] == b);
    assert(v.to_multiset().insert(b).remove(a).insert(a).remove(b) =~= v.to_multiset());
}

/// The names of the plugins, in order.
pub open spec fn plugin_names(v: Seq<Plugin>) -> Seq<Seq<char>> {
    v.map_values(|p: Plugin| p.name@)
}

/// Toggling a plugin keeps every name in its place, and moving one up or down keeps the
/// same names, each as often as before: no operation of the load order menu adds, drops or
/// renames a plugin.
pub proof fn law_menu_keeps_names(v: Seq<Plugin>, idx: int)
    requires
        0 <= idx,
    ensures
        idx < v.len() ==> plugin_names(v.update(idx, toggled(v[idx]))) == plugin_names(v),
        idx < v.len() || idx == 0 ==> moved_up(v, idx).len() == v.len() && plugin_names(moved_up(v, idx)).to_multiset()
            == plugin_names(v).to_multiset(),
        moved_down(v, idx).len() == v.len(),
        plugin_names(moved_down(v, idx)).to_multiset() == plugin_names(v).to_multiset(),
{
    let n = plugin_names(v);
    if idx < v.len() {
        assert(plugin_names(v.update(idx, toggled(v[idx]))) =~= n);
    }
    if 0 < idx < v.len() {
        assert(plugin_names(moved_up(v, idx)) =~= n.update(idx, n[idx - 1]).update(idx - 1, n[idx]));
        lemma_swap_multiset(n, idx, idx - 1);
    } else if idx == 0 {
        assert(moved_up(v, idx) == v);
    }
    if idx < v.len() - 1 {
        assert(plugin_names(moved_down(v, idx)) =~= n.update(idx, n[idx + 1]).update(idx + 1, n[idx]));
        lemma_swap_multiset(n, idx, idx + 1);
    } else {
        assert(moved_down(v, idx) == v);
    }
}

/// The positions reported are exactly the active plugins, ascending.
pub proof fn law_active_indices_exact(v: Seq<Plugin>)
    requires
        v.len() <= usize::MAX,
    ensures
        forall|k: int| 0 <= k < active_indices(v).len() ==> {
            &&& (#[trigger] active_indices(v)[k]) < v.len()
            &&& v[active_indices(v)[k] as int].active
        },
        forall|i: int| 0 <= i < v.len() && v[i].active ==> active_indices(v).contains(i as usize),
        forall|k: int, l: int| 0 <= k < l < active_indices(v).len() ==> active_indices(v)[k] < active_indices(v)[l],
    decreases v.len(),
{
    if v.len() > 0 {
        let w = v.drop_last();
        law_active_indices_exact(w);
        let aw = active_indices(w);
        let av = active_indices(v);
        if v.last().active {
            assert(av == aw.push((v.len() - 1) as usize));
        } else {
            assert(av == aw);
        }
        assert forall|i: int| 0 <= i < v.len() && v[i].active implies av.contains(i as usize) by {
            if i < v.len() - 1 {
                assert(w[i] == v[i]);
                let k = choose|k: int| 0 <= k < aw.len() && aw[k] == i as usize;
                assert(av[k] == aw[k]);
            } else {
                assert(av[av.len() - 1] == i as usize);
            }
        }
        assert forall|k: int| 0 <= k < av.len() implies {
            &&& (#[trigger] av[k]) < v.len()
            &&& v[av[k] as int].active
        } by {
            if k < aw.len() {
                assert(av[k] == aw[k]);
                assert(aw[k] < w.len() && w[aw[k] as int].active);
                assert(w[aw[k] as int] == v[aw[k] as int]);
            } else {
                assert(v.last().active);
                assert(av[k] == (v.len() - 1) as usize);
                assert(v[v.len() - 1].active);
            }
        }
        assert forall|k: int, l: int| 0 <= k < l < av.len() implies av[k] < av[l] by {
            if l < aw.len() {
                assert(av[k] == aw[k] && av[l] == aw[l]);
            } else {
                assert(v.last().active);
                assert(av[k] == aw[k]);
                assert(aw[k] < w.len());
                assert(av[l] == (v.len() - 1) as usize);
            }
        }
    }
}

/// Some plugin is active exactly when the list of active positions is not empty.
pub proof fn law_any_active_iff_get_active(v: Seq<Plugin>)
    requires
        v.len() <= usize::MAX,
    ensures
        has_active(v) <==> active_indices(v).len() > 0,
{
    law_active_indices_exact(v);
    if has_active(v) {
        let i = choose|i: int| 0 <= i < v.len() && #[trigger] v[i].active;
        assert(active_indices(v).contains(i as usize));
    }
    if active_indices(v).len() > 0 {
        let k = active_indices(v)[0];
        assert(v[k as int].active);
    }
}

} // verus!
