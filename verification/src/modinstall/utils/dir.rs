use vstd::prelude::*;
use crate::paths;
use crate::paths::Path;
use crate::text;
use crate::text::{contains, ends_with, lowercase};

verus! {

broadcast use vstd::string::group_string_axioms;

/// A mod's directory names that mark its root.
pub open spec fn root_marker(i: int) -> Seq<char> {
    if i == 0 {
        "textures"@
    } else if i == 1 {
        "meshes"@
    } else if i == 2 {
        "interface"@
    } else if i == 3 {
        "sound"@
    } else {
        "scripts"@
    }
}

/// The lower-cased path text names one of the root markers.
pub open spec fn marks_root(lower_path: Seq<char>) -> bool {
    exists|i: int| 0 <= i < 5 && text::has_sub(lower_path, #[trigger] root_marker(i))
}

/// A file list entry that names a fomod installer configuration.
pub open spec fn is_fomod_entry(e: Seq<char>) -> bool {
    text::has_sub(text::lower_seq(e), "fomod"@) && text::has_sub(text::lower_seq(e), "moduleconfig"@)
}

/// A file list entry that is the fomod installer file.
pub open spec fn is_install_file(e: Seq<char>) -> bool {
    text::has_suffix(text::lower_seq(paths::forward_slashes(e)), "fomod/moduleconfig.xml"@)
}

/// The position of the first installer file in `list`, if any.
pub open spec fn first_install_file(list: Seq<Seq<char>>) -> Option<int>
    decreases list.len(),
{
    if list.len() == 0 {
        None
    } else {
        match first_install_file(list.drop_last()) {
            Some(i) => Some(i),
            None => if is_install_file(list.last()) {
                Some(list.len() - 1)
            } else {
                None
            },
        }
    }
}

/// ASCII lower case of a name.
pub fn fix_case(src: &str) -> (r: String)
    ensures
        r@ == text::lower_seq(src@),
{
    lowercase(src)
}

/// Lower-casing a name twice gives the same as once.
pub proof fn law_fix_case_idempotent(s: Seq<char>)
    ensures
        text::lower_seq(text::lower_seq(s)) == text::lower_seq(s),
{
    assert(text::lower_seq(text::lower_seq(s)) =~= text::lower_seq(s));
}

/// Does the recursive file list of a mod hold a fomod installer configuration?
pub fn check_if_fomod(contents: &Vec<String>) -> (r: bool)
    ensures
        r == exists|i: int| 0 <= i < contents.len() && is_fomod_entry(#[trigger] contents@[i]@),
{
    let mut k: usize = 0;
    while k < contents.len()
        invariant
            k <= contents.len(),
            forall|i: int| 0 <= i < k ==> !is_fomod_entry(#[trigger] contents@[i]@),
        decreases contents.len() - k,
    {
        let low = fix_case(contents[k].as_str());
        if contains(low.as_str(), "fomod") && contains(low.as_str(), "moduleconfig") {
            return true;
        }
        k = k + 1;
    }
    false
}

/// The installer file of a mod from its recursive file list; the empty path when there is none.
pub fn find_installfile(d: &Vec<String>) -> (r: Path)
    ensures
        r@ == (match first_install_file(text::views(d@)) {
            Some(i) => paths::forward_slashes(d@[i]@),
            None => Seq::<char>::empty(),
        }),
{
    let ghost ds = text::views(d@);
    let mut k: usize = 0;
    while k < d.len()
        invariant
            k <= d.len(),
            ds == text::views(d@),
            first_install_file(ds.take(k as int)) is None,
        decreases d.len() - k,
    {
        assert(ds.take(k + 1).drop_last() =~= ds.take(k as int));
        let p = Path::from(d[k].as_str());
        let low = fix_case(p.as_str().as_str());
        if ends_with(low.as_str(), "fomod/moduleconfig.xml") {
            proof {
                lemma_first_install_prefix(ds, (k + 1) as int);
            }
            return p;
        }
        k = k + 1;
    }
    assert(ds.take(d.len() as int) =~= ds);
    Path::new()
}

proof fn lemma_first_install_prefix(list: Seq<Seq<char>>, n: int)
    requires
        0 < n <= list.len(),
        first_install_file(list.take(n)) == Some(n - 1),
    ensures
        first_install_file(list) == Some(n - 1),
    decreases list.len(),
{
    if n < list.len() {
        assert(list.drop_last().take(n) =~= list.take(n));
        lemma_first_install_prefix(list.drop_last(), n);
    } else {
        assert(list.take(n) =~= list);
    }
}

/// One step of looking for a mod's root directory, given the listing of the current
/// directory `p`: with two entries or more `p` is the root; otherwise the search descends
/// into the only entry, and stops there when the new path names a root marker.
/// Returns the next path and whether the search is done.
pub fn mod_root_step(p: &Path, listing: &Vec<String>) -> (r: (Path, bool))
    requires
        listing.len() > 0,
    ensures
        listing.len() >= 2 ==> r.0@ == p@ && r.1,
        listing.len() < 2 ==> r.0@ == paths::pushed(p@, listing@[0]@) && r.1 == marks_root(
            text::lower_seq(r.0@),
        ),
{
    if listing.len() >= 2 {
        return (p.clone(), true);
    }
    let mut q = p.clone();
    q.push(listing[0].as_str());
    let low = fix_case(q.as_str().as_str());
    let hit = contains(low.as_str(), "textures") || contains(low.as_str(), "meshes")
        || contains(low.as_str(), "interface") || contains(low.as_str(), "sound")
        || contains(low.as_str(), "scripts");
    proof {
        let l = text::lower_seq(q@);
        if hit {
            if text::has_sub(l, "textures"@) { assert(text::has_sub(l, root_marker(0))); }
            if text::has_sub(l, "meshes"@) { assert(text::has_sub(l, root_marker(1))); }
            if text::has_sub(l, "interface"@) { assert(text::has_sub(l, root_marker(2))); }
            if text::has_sub(l, "sound"@) { assert(text::has_sub(l, root_marker(3))); }
            if text::has_sub(l, "scripts"@) { assert(text::has_sub(l, root_marker(4))); }
        }
        if marks_root(l) {
            let i = choose|i: int| 0 <= i < 5 && text::has_sub(l, #[trigger] root_marker(i));
            assert(i == 0 || i == 1 || i == 2 || i == 3 || i == 4);
        }
    }
    (q, hit)
}

} // verus!
