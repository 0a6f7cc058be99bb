pub mod archive;
pub mod config;
pub mod files;
pub mod paths;
pub mod utils;

use vstd::prelude::*;
use crate::modinstall::utils::xml;
use crate::modinstall::utils::xml::{attribute, get_child, get_children_all, get_children_r, get_text, required_attr, XmlElement};
use crate::modinstall::utils::FileOp;
use crate::paths as cpaths;
use crate::paths::Path;
use crate::text;
use crate::text::{chars_of, contains, push_all, push_char, split_words, str_eq, to_lower, to_upper};

verus! {

broadcast use vstd::string::group_string_axioms;

/// A file or folder that an installer option moves, relative to the mod and the game.
pub struct FomodFile {
    pub source: Path,
    pub destination: Path,
    pub ftype: String,
}

/// One option of an installer group.
pub struct FomodPlugin {
    pub name: String,
    pub image: String,
    pub description: String,
    pub files: Vec<FomodFile>,
    pub type_desc: String,
}

/// A group of installer options with its selection rule.
pub struct FomodGroup {
    pub name: String,
    pub gtype: String,
    pub plugins: Vec<FomodPlugin>,
}

/// How many options of a group the user picks.
#[derive(PartialEq, Eq, Structural, Clone, Copy, Debug)]
pub enum SelectKind {
    ExactlyOne,
    Any,
    AtLeastOne,
    All,
}

impl FomodPlugin {
    /// An option without name, picture, description, files or type.
    pub fn new() -> (r: FomodPlugin)
        ensures
            r.name@.len() == 0 && r.image@.len() == 0 && r.description@.len() == 0,
            r.files@.len() == 0 && r.type_desc@.len() == 0,
    {
        FomodPlugin {
            name: String::new(),
            image: String::new(),
            description: String::new(),
            files: Vec::new(),
            type_desc: String::new(),
        }
    }
}

impl FomodGroup {
    /// A group without name, rule or options.
    pub fn new() -> (r: FomodGroup)
        ensures
            r.name@.len() == 0 && r.gtype@.len() == 0 && r.plugins@.len() == 0,
    {
        FomodGroup { name: String::new(), gtype: String::new(), plugins: Vec::new() }
    }
}

/// A name with its first character in upper case and the rest in lower case (ASCII).
pub open spec fn capitalized(s: Seq<char>) -> Seq<char> {
    if s.len() == 0 {
        s
    } else {
        seq![text::upper_char(s[0])] + text::lower_seq(s.drop_first())
    }
}

/// Each item after a slash, capitalized, all concatenated.
pub open spec fn capitalized_items(items: Seq<Seq<char>>) -> Seq<char>
    decreases items.len(),
{
    if items.len() == 0 {
        Seq::empty()
    } else {
        capitalized_items(items.drop_last()) + seq!['/'] + capitalized(items.last())
    }
}

/// A name with its first character in upper case and the rest in lower case (ASCII).
pub fn fix_case(src: &str) -> (r: String)
    ensures
        r@ == capitalized(src@),
{
    let v = chars_of(src);
    let mut dest = String::new();
    let mut k: usize = 0;
    while k < v.len()
        invariant
            v@ == src@,
            k <= v.len(),
            k == 0 ==> dest@.len() == 0,
            k > 0 ==> dest@ == seq![text::upper_char(src@[0])] + text::lower_seq(src@.subrange(1, k as int)),
        decreases v.len() - k,
    {
        if k == 0 {
            push_char(&mut dest, to_upper(v[k]));
            assert(dest@ =~= seq![text::upper_char(src@[0])] + text::lower_seq(src@.subrange(1, 1)));
        } else {
            push_char(&mut dest, to_lower(v[k]));
            assert(dest@ =~= seq![text::upper_char(src@[0])] + text::lower_seq(src@.subrange(1, k + 1)));
        }
        k = k + 1;
    }
    if v.len() > 0 {
        assert(src@.subrange(1, v.len() as int) =~= src@.drop_first());
    } else {
        assert(dest@ =~= src@);
    }
    dest
}

/// Capitalizing a name twice gives the same as once.
pub proof fn law_capitalize_idempotent(s: Seq<char>)
    ensures
        capitalized(capitalized(s)) == capitalized(s),
{
    if s.len() > 0 {
        let c = capitalized(s);
        assert(c[0] == text::upper_char(s[0]));
        assert(c.drop_first() =~= text::lower_seq(s.drop_first()));
        assert(text::lower_seq(text::lower_seq(s.drop_first())) =~= text::lower_seq(s.drop_first()));
        assert(capitalized(c) =~= c);
    }
}

/// A path with every component capitalized.
pub fn fix_case_path(src: Path) -> (r: Path)
    ensures
        r@ == cpaths::forward_slashes(capitalized_items(cpaths::path_items(src@))),
{
    let items = src.items();
    let ghost all = cpaths::path_items(src@);
    let mut dest = String::new();
    let mut k: usize = 0;
    while k < items.len()
        invariant
            text::views(items@) == all,
            k <= items.len(),
            dest@ == capitalized_items(all.take(k as int)),
        decreases items.len() - k,
    {
        assert(all.take(k + 1).drop_last() =~= all.take(k as int));
        assert(all.take(k + 1).last() == items@[k as int]@);
        push_char(&mut dest, '/');
        push_all(&mut dest, fix_case(items[k].as_str()).as_str());
        assert(dest@ =~= capitalized_items(all.take(k + 1)));
        k = k + 1;
    }
    assert(all.take(items.len() as int) =~= all);
    Path::from(dest.as_str())
}

/// A directory entry that may hold a fomod installer (`Fomod` or `fomod` in its name).
pub open spec fn fomod_candidate(e: Seq<char>) -> bool {
    text::has_sub(e, "Fomod"@) || text::has_sub(e, "fomod"@)
}

/// A listing that holds the installer configuration (`ModuleConfig` in an entry's name).
pub open spec fn holds_module_config(l: Seq<String>) -> bool {
    exists|k: int| 0 <= k < l.len() && text::has_sub((#[trigger] l[k])@, "ModuleConfig"@)
}

/// Does a mod directory hold a fomod installer? `contents` is its listing, and
/// `listings[i]` that of entry `i` when the entry may hold an installer.
pub fn check_if_fomod(contents: &Vec<String>, listings: &Vec<Option<Vec<String>>>) -> (r: bool)
    requires
        listings.len() == contents.len(),
        forall|i: int| 0 <= i < contents.len() ==> (fomod_candidate(#[trigger] contents@[i]@) <==> listings@[i] is Some),
    ensures
        r == fomod_found(contents@, listings@),
{
    let mut i: usize = 0;
    while i < contents.len()
        invariant
            listings.len() == contents.len(),
            forall|j: int| 0 <= j < contents.len() ==> (fomod_candidate(#[trigger] contents@[j]@) <==> listings@[j] is Some),
            i <= contents.len(),
            forall|j: int| 0 <= j < i ==> !(fomod_candidate(#[trigger] contents@[j]@) && holds_module_config(listings@[j]->0@)),
        decreases contents.len() - i,
    {
        if contains(contents[i].as_str(), "Fomod") || contains(contents[i].as_str(), "fomod") {
            match &listings[i] {
                Some(l) => {
                    let mut k: usize = 0;
                    while k < l.len()
                        invariant
                            i < contents.len(),
                            listings.len() == contents.len(),
                            listings@[i as int] == Some(*l),
                            fomod_candidate(contents@[i as int]@),
                            k <= l.len(),
                            forall|j: int| 0 <= j < k ==> !text::has_sub((#[trigger] l@[j])@, "ModuleConfig"@),
                        decreases l.len() - k,
                    {
                        if contains(l[k].as_str(), "ModuleConfig") {
                            assert(holds_module_config(l@));
                            assert(fomod_candidate(contents@[i as int]@) && holds_module_config(listings@[i as int]->0@));
                            return true;
                        }
                        k = k + 1;
                    }
                },
                None => {},
            }
        }
        i = i + 1;
    }
    false
}

/// The answer of `check_if_fomod` (the right side of its `ensures`).
pub open spec fn fomod_found(contents: Seq<String>, listings: Seq<Option<Vec<String>>>) -> bool {
    exists|i: int| 0 <= i < contents.len() && fomod_candidate(#[trigger] contents[i]@) && holds_module_config(
        listings[i]->0@,
    )
}

/// A mod is found to hold a fomod installer when some entry of its directory has `Fomod`
/// or `fomod` in its name (such as `Fomod`, where the installer reads
/// `Fomod/ModuleConfig.xml`) and that entry's listing has an entry with `ModuleConfig` in
/// its name.
pub proof fn law_fomod_detected(contents: Seq<String>, listings: Seq<Option<Vec<String>>>, i: int, k: int)
    requires
        listings.len() == contents.len(),
        0 <= i < contents.len(),
        text::has_sub(contents[i]@, "Fomod"@) || text::has_sub(contents[i]@, "fomod"@),
        listings[i] is Some,
        0 <= k < listings[i]->0@.len(),
        text::has_sub(listings[i]->0@[k]@, "ModuleConfig"@),
    ensures
        fomod_found(contents, listings),
{
    assert(fomod_candidate(contents[i]@));
    assert(holds_module_config(listings[i]->0@));
}

/// A mod is found to hold no fomod installer when no entry with `Fomod` or `fomod` in its
/// name has a listing with an entry with `ModuleConfig` in its name.
pub proof fn law_fomod_absent(contents: Seq<String>, listings: Seq<Option<Vec<String>>>)
    requires
        listings.len() == contents.len(),
        forall|i: int, k: int|
            0 <= i < contents.len() && (text::has_sub(contents[i]@, "Fomod"@) || text::has_sub(contents[i]@, "fomod"@))
                && listings[i] is Some && 0 <= k < listings[i]->0@.len() ==> !text::has_sub(
                (#[trigger] listings[i]->0@[k])@,
                "ModuleConfig"@,
            ),
        forall|i: int| 0 <= i < contents.len() && listings[i] is None ==> !text::has_sub(#[trigger] contents[i]@, "Fomod"@)
            && !text::has_sub(contents[i]@, "fomod"@),
    ensures
        !fomod_found(contents, listings),
{
    if fomod_found(contents, listings) {
        let i = choose|i: int| 0 <= i < contents.len() && fomod_candidate(#[trigger] contents[i]@) && holds_module_config(
            listings[i]->0@,
        );
        let l = listings[i]->0@;
        let k = choose|k: int| 0 <= k < l.len() && text::has_sub((#[trigger] l[k])@, "ModuleConfig"@);
        assert(listings[i] is Some);
        assert(!text::has_sub(listings[i]->0@[k]@, "ModuleConfig"@));
    }
}

// ---------------------------------------------------------------------------
// Reading installer options from the document
// ---------------------------------------------------------------------------

/// The description given by the last `description` child of `traits` that has a text.
pub open spec fn last_description(traits: Seq<XmlElement>) -> Seq<char>
    decreases traits.len(),
{
    if traits.len() == 0 {
        Seq::empty()
    } else if traits.last().name@ == "description"@ && xml::text_of(traits.last()) is Some {
        xml::text_of(traits.last())->0
    } else {
        last_description(traits.drop_last())
    }
}

/// The picture named by the last `image` child of `traits`.
pub open spec fn last_image(traits: Seq<XmlElement>) -> Seq<char>
    decreases traits.len(),
{
    if traits.len() == 0 {
        Seq::empty()
    } else if traits.last().name@ == "image"@ {
        xml::attr_or_empty(traits.last(), "path"@)
    } else {
        last_image(traits.drop_last())
    }
}

/// The type named by the last `typeDescriptor` child of `traits` that has a `type`.
pub open spec fn last_type(traits: Seq<XmlElement>) -> Seq<char>
    decreases traits.len(),
{
    if traits.len() == 0 {
        Seq::empty()
    } else if traits.last().name@ == "typeDescriptor"@ && xml::child_named(traits.last(), "type"@) is Some {
        xml::attr_or_empty(xml::child_named(traits.last(), "type"@)->0, "name"@)
    } else {
        last_type(traits.drop_last())
    }
}

/// The last `files` child of `traits`.
pub open spec fn last_files(traits: Seq<XmlElement>) -> Option<XmlElement>
    decreases traits.len(),
{
    if traits.len() == 0 {
        None
    } else if traits.last().name@ == "files"@ {
        Some(traits.last())
    } else {
        last_files(traits.drop_last())
    }
}

/// `f` is read from the file element `el`.
pub open spec fn old_file_from(f: FomodFile, el: XmlElement) -> bool {
    &&& f.source@ == cpaths::forward_slashes(xml::attr_or_empty(el, "source"@))
    &&& f.destination@ == cpaths::forward_slashes(capitalized_items(cpaths::path_items(
        cpaths::forward_slashes(xml::attr_or_empty(el, "destination"@)),
    )))
    &&& f.ftype@ == el.name@
}

/// Every child of `traits` that the option reader looks into has what it needs.
pub open spec fn option_traits_ok(traits: Seq<XmlElement>) -> bool {
    forall|i: int| 0 <= i < traits.len() ==> {
        &&& ((#[trigger] traits[i]).name@ == "image"@ ==> xml::has_attr(traits[i], "path"@))
        &&& (traits[i].name@ == "typeDescriptor"@ ==> (xml::child_named(traits[i], "type"@) matches Some(z)
            ==> xml::has_attr(z, "name"@)))
        &&& (traits[i].name@ == "files"@ ==> forall|j: int| 0 <= j < xml::child_elements(traits[i]).len() ==> {
            &&& xml::has_attr(#[trigger] xml::child_elements(traits[i])[j], "source"@)
            &&& xml::has_attr(xml::child_elements(traits[i])[j], "destination"@)
        })
    }
}

/// The option element can be read.
pub open spec fn option_ok(el: XmlElement) -> bool {
    xml::has_attr(el, "name"@) && option_traits_ok(xml::child_elements(el))
}

/// `p` is read from the option element `el`; later children override earlier ones.
pub open spec fn option_from(p: FomodPlugin, el: XmlElement) -> bool {
    let traits = xml::child_elements(el);
    &&& p.name@ == xml::attr_or_empty(el, "name"@)
    &&& p.description@ == last_description(traits)
    &&& p.image@ == last_image(traits)
    &&& p.type_desc@ == last_type(traits)
    &&& match last_files(traits) {
        Some(f) => p.files@.len() == xml::child_elements(f).len() && forall|j: int|
            0 <= j < p.files@.len() ==> old_file_from(#[trigger] p.files@[j], xml::child_elements(f)[j]),
        None => p.files@.len() == 0,
    }
}

fn read_old_files(t: &XmlElement) -> (r: Vec<FomodFile>)
    requires
        forall|j: int| 0 <= j < xml::child_elements(*t).len() ==> {
            &&& xml::has_attr(#[trigger] xml::child_elements(*t)[j], "source"@)
            &&& xml::has_attr(xml::child_elements(*t)[j], "destination"@)
        },
    ensures
        r@.len() == xml::child_elements(*t).len(),
        forall|j: int| 0 <= j < r@.len() ==> old_file_from(#[trigger] r@[j], xml::child_elements(*t)[j]),
{
    let files_e = get_children_all(t);
    let ghost els = files_e@.map_values(|x: &XmlElement| *x);
    let mut files: Vec<FomodFile> = Vec::new();
    let mut j: usize = 0;
    while j < files_e.len()
        invariant
            els == files_e@.map_values(|x: &XmlElement| *x),
            els == xml::child_elements(*t),
            forall|j: int| 0 <= j < els.len() ==> {
                &&& xml::has_attr(#[trigger] els[j], "source"@)
                &&& xml::has_attr(els[j], "destination"@)
            },
            j <= files_e.len(),
            files@.len() == j,
            forall|i: int| 0 <= i < j ==> old_file_from(#[trigger] files@[i], els[i]),
        decreases files_e.len() - j,
    {
        let e = files_e[j];
        assert(*e == els[j as int]);
        assert(xml::has_attr(els[j as int], "source"@));
        let source = Path::from(required_attr(e, "source").as_str());
        let destination = fix_case_path(Path::from(required_attr(e, "destination").as_str()));
        files.push(FomodFile { source, destination, ftype: e.name.clone() });
        j = j + 1;
    }
    files
}

/// An installer option read from its element.
pub fn read_fomod_plugin(element: &XmlElement) -> (r: FomodPlugin)
    requires
        option_ok(*element),
    ensures
        option_from(r, *element),
{
    let mut plugin = FomodPlugin::new();
    plugin.name = required_attr(element, "name");
    let traits = get_children_all(element);
    let ghost ts = traits@.map_values(|x: &XmlElement| *x);
    let mut i: usize = 0;
    while i < traits.len()
        invariant
            ts == traits@.map_values(|x: &XmlElement| *x),
            ts == xml::child_elements(*element),
            option_traits_ok(ts),
            i <= traits.len(),
            plugin.name@ == xml::attr_or_empty(*element, "name"@),
            plugin.description@ == last_description(ts.take(i as int)),
            plugin.image@ == last_image(ts.take(i as int)),
            plugin.type_desc@ == last_type(ts.take(i as int)),
            match last_files(ts.take(i as int)) {
                Some(f) => plugin.files@.len() == xml::child_elements(f).len() && forall|j: int|
                    0 <= j < plugin.files@.len() ==> old_file_from(#[trigger] plugin.files@[j], xml::child_elements(f)[j]),
                None => plugin.files@.len() == 0,
            },
        decreases traits.len() - i,
    {
        let t = traits[i];
        proof {
            reveal_strlit("description");
            reveal_strlit("image");
            reveal_strlit("typeDescriptor");
            reveal_strlit("files");
            assert("description"@ != "image"@) by {
                assert("description"@.len() != "image"@.len());
            }
            assert("description"@ != "files"@) by {
                assert("description"@.len() != "files"@.len());
            }
            assert("description"@ != "typeDescriptor"@) by {
                assert("description"@.len() != "typeDescriptor"@.len());
            }
            assert("image"@ != "files"@) by {
                assert("image"@[0] != "files"@[0]);
            }
            assert("image"@ != "typeDescriptor"@) by {
                assert("image"@.len() != "typeDescriptor"@.len());
            }
            assert("typeDescriptor"@ != "files"@) by {
                assert("typeDescriptor"@.len() != "files"@.len());
            }
        }
        assert(*t == ts[i as int]);
        assert(ts.take(i + 1).drop_last() =~= ts.take(i as int));
        assert(ts.take(i + 1).last() == ts[i as int]);
        assert(last_image(ts.take(i + 1)) == if ts[i as int].name@ == "image"@ {
            xml::attr_or_empty(ts[i as int], "path"@)
        } else {
            last_image(ts.take(i as int))
        });
        assert(last_files(ts.take(i + 1)) == if ts[i as int].name@ == "files"@ {
            Some(ts[i as int])
        } else {
            last_files(ts.take(i as int))
        });
        if str_eq(t.name.as_str(), "description") {
            match get_text(t) {
                Some(x) => {
                    plugin.description = x;
                },
                None => {},
            }
        } else if str_eq(t.name.as_str(), "image") {
            plugin.image = required_attr(t, "path");
        } else if str_eq(t.name.as_str(), "typeDescriptor") {
            match get_child(t, "type") {
                Some(x) => {
                    plugin.type_desc = required_attr(x, "name");
                },
                None => {},
            }
        } else if str_eq(t.name.as_str(), "files") {
            plugin.files = read_old_files(t);
        }
        i = i + 1;
    }
    assert(ts.take(traits.len() as int) =~= ts);
    plugin
}

/// Every group below the step element can be read.
pub open spec fn step_groups_ok(el: XmlElement) -> bool {
    let gs = xml::descendants_named(el, "group"@);
    forall|i: int| 0 <= i < gs.len() ==> {
        &&& xml::has_attr(#[trigger] gs[i], "name"@)
        &&& xml::has_attr(gs[i], "type"@)
        &&& forall|j: int| 0 <= j < xml::descendants_named(gs[i], "plugin"@).len() ==> option_ok(
            #[trigger] xml::descendants_named(gs[i], "plugin"@)[j],
        )
    }
}


/// Can the option element be read? It can when it has a name and every child the reader
/// looks into has what it needs.
pub fn option_readable(el: &XmlElement) -> (r: bool)
    ensures
        r == option_ok(*el),
{
    if attribute(el, "name").is_none() {
        return false;
    }
    let traits = get_children_all(el);
    let ghost ts = traits@.map_values(|x: &XmlElement| *x);
    let mut i: usize = 0;
    while i < traits.len()
        invariant
            ts == traits@.map_values(|x: &XmlElement| *x),
            ts == xml::child_elements(*el),
            i <= traits.len(),
            forall|k: int| 0 <= k < i ==> {
                &&& ((#[trigger] ts[k]).name@ == "image"@ ==> xml::has_attr(ts[k], "path"@))
                &&& (ts[k].name@ == "typeDescriptor"@ ==> (xml::child_named(ts[k], "type"@) matches Some(z)
                    ==> xml::has_attr(z, "name"@)))
                &&& (ts[k].name@ == "files"@ ==> forall|j: int| 0 <= j < xml::child_elements(ts[k]).len() ==> {
                    &&& xml::has_attr(#[trigger] xml::child_elements(ts[k])[j], "source"@)
                    &&& xml::has_attr(xml::child_elements(ts[k])[j], "destination"@)
                })
            },
        decreases traits.len() - i,
    {
        let t = traits[i];
        assert(*t == ts[i as int]);
        if str_eq(t.name.as_str(), "image") && attribute(t, "path").is_none() {
            return false;
        }
        if str_eq(t.name.as_str(), "typeDescriptor") {
            match get_child(t, "type") {
                Some(z) => {
                    if attribute(z, "name").is_none() {
                        return false;
                    }
                },
                None => {},
            }
        }
        if str_eq(t.name.as_str(), "files") {
            let fs = get_children_all(t);
            let ghost fe = fs@.map_values(|x: &XmlElement| *x);
            let mut j: usize = 0;
            while j < fs.len()
                invariant
                    fe == fs@.map_values(|x: &XmlElement| *x),
                    fe == xml::child_elements(*t),
                    *t == ts[i as int],
                    ts == xml::child_elements(*el),
                    i < ts.len(),
                    t.name@ == "files"@,
                    j <= fs.len(),
                    forall|m: int| 0 <= m < j ==> xml::has_attr(#[trigger] fe[m], "source"@) && xml::has_attr(fe[m], "destination"@),
                decreases fs.len() - j,
            {
                assert(*fs[j as int] == fe[j as int]);
                if attribute(fs[j], "source").is_none() || attribute(fs[j], "destination").is_none() {
                    assert(!option_traits_ok(ts));
                    return false;
                }
                j = j + 1;
            }
        }
        i = i + 1;
    }
    true
}

/// Can every group of the install step element be read?
pub fn install_step_readable(element: &XmlElement) -> (r: bool)
    ensures
        r == step_groups_ok(*element),
{
    let groups = get_children_r(element, "group");
    let ghost gs = groups@.map_values(|x: &XmlElement| *x);
    let mut i: usize = 0;
    while i < groups.len()
        invariant
            gs == groups@.map_values(|x: &XmlElement| *x),
            gs == xml::descendants_named(*element, "group"@),
            i <= groups.len(),
            forall|k: int| 0 <= k < i ==> {
                &&& xml::has_attr(#[trigger] gs[k], "name"@)
                &&& xml::has_attr(gs[k], "type"@)
                &&& forall|j: int| 0 <= j < xml::descendants_named(gs[k], "plugin"@).len() ==> option_ok(
                    #[trigger] xml::descendants_named(gs[k], "plugin"@)[j],
                )
            },
        decreases groups.len() - i,
    {
        let g = groups[i];
        assert(*g == gs[i as int]);
        if attribute(g, "name").is_none() || attribute(g, "type").is_none() {
            return false;
        }
        let plugins = get_children_r(g, "plugin");
        let ghost ps = plugins@.map_values(|x: &XmlElement| *x);
        let mut j: usize = 0;
        while j < plugins.len()
            invariant
                ps == plugins@.map_values(|x: &XmlElement| *x),
                ps == xml::descendants_named(*g, "plugin"@),
                *g == gs[i as int],
                gs == xml::descendants_named(*element, "group"@),
                i < gs.len(),
                j <= plugins.len(),
                forall|m: int| 0 <= m < j ==> option_ok(#[trigger] ps[m]),
            decreases plugins.len() - j,
        {
            assert(*plugins[j as int] == ps[j as int]);
            if !option_readable(plugins[j]) {
                assert(!step_groups_ok(*element));
                return false;
            }
            j = j + 1;
        }
        i = i + 1;
    }
    true
}

/// `g` is read from the group element `el`.
pub open spec fn old_group_from(g: FomodGroup, el: XmlElement) -> bool {
    let ps = xml::descendants_named(el, "plugin"@);
    &&& g.name@ == xml::attr_or_empty(el, "name"@)
    &&& g.gtype@ == xml::attr_or_empty(el, "type"@)
    &&& g.plugins@.len() == ps.len()
    &&& forall|j: int| 0 <= j < ps.len() ==> option_from(#[trigger] g.plugins@[j], ps[j])
}

/// The groups of an install step element, in document order.
pub fn read_install_step(element: &XmlElement) -> (r: Vec<FomodGroup>)
    requires
        step_groups_ok(*element),
    ensures
        r@.len() == xml::descendants_named(*element, "group"@).len(),
        forall|i: int| 0 <= i < r@.len() ==> old_group_from(#[trigger] r@[i], xml::descendants_named(*element, "group"@)[i]),
{
    let groups = get_children_r(element, "group");
    let ghost gs = groups@.map_values(|x: &XmlElement| *x);
    let mut groups_v: Vec<FomodGroup> = Vec::new();
    let mut i: usize = 0;
    while i < groups.len()
        invariant
            gs == groups@.map_values(|x: &XmlElement| *x),
            gs == xml::descendants_named(*element, "group"@),
            step_groups_ok(*element),
            i <= groups.len(),
            groups_v@.len() == i,
            forall|k: int| 0 <= k < i ==> old_group_from(#[trigger] groups_v@[k], gs[k]),
        decreases groups.len() - i,
    {
        let g = groups[i];
        assert(*g == gs[i as int]);
        let plugins = get_children_r(g, "plugin");
        let ghost ps = plugins@.map_values(|x: &XmlElement| *x);
        let mut plugins_v: Vec<FomodPlugin> = Vec::new();
        let mut j: usize = 0;
        while j < plugins.len()
            invariant
                ps == plugins@.map_values(|x: &XmlElement| *x),
                ps == xml::descendants_named(*g, "plugin"@),
                forall|j: int| 0 <= j < ps.len() ==> option_ok(#[trigger] ps[j]),
                j <= plugins.len(),
                plugins_v@.len() == j,
                forall|k: int| 0 <= k < j ==> option_from(#[trigger] plugins_v@[k], ps[k]),
            decreases plugins.len() - j,
        {
            assert(*plugins[j as int] == ps[j as int]);
            assert(option_ok(ps[j as int]));
            plugins_v.push(read_fomod_plugin(plugins[j]));
            j = j + 1;
        }
        groups_v.push(
            FomodGroup {
                name: required_attr(g, "name"),
                gtype: required_attr(g, "type"),
                plugins: plugins_v,
            },
        );
        i = i + 1;
    }
    groups_v
}

// ---------------------------------------------------------------------------
// Choosing what to install
// ---------------------------------------------------------------------------

/// The selection rule named by a group type.
pub open spec fn kind_of(gtype: Seq<char>) -> SelectKind {
    if gtype == "SelectExactlyOne"@ || gtype == "selectexactlyone"@ {
        SelectKind::ExactlyOne
    } else if gtype == "SelectAny"@ || gtype == "selectany"@ {
        SelectKind::Any
    } else if gtype == "SelectAtLeastOne"@ || gtype == "selectatleastone"@ {
        SelectKind::AtLeastOne
    } else {
        SelectKind::All
    }
}

/// The selection rule of a group.
pub fn select_kind(gtype: &str) -> (r: SelectKind)
    ensures
        r == kind_of(gtype@),
{
    if str_eq(gtype, "SelectExactlyOne") || str_eq(gtype, "selectexactlyone") {
        SelectKind::ExactlyOne
    } else if str_eq(gtype, "SelectAny") || str_eq(gtype, "selectany") {
        SelectKind::Any
    } else if str_eq(gtype, "SelectAtLeastOne") || str_eq(gtype, "selectatleastone") {
        SelectKind::AtLeastOne
    } else {
        SelectKind::All
    }
}

/// The positions of the options to install from a group: the first pick for a group of
/// exactly one, every pick for the others that ask, every option for the rest.
pub fn install_order(kind: SelectKind, picks: &Vec<usize>, count: usize) -> (r: Vec<usize>)
    requires
        kind == SelectKind::ExactlyOne ==> picks.len() > 0,
    ensures
        kind == SelectKind::ExactlyOne ==> r@ == seq![picks@[0]],
        (kind == SelectKind::Any || kind == SelectKind::AtLeastOne) ==> r@ == picks@,
        kind == SelectKind::All ==> r@ == Seq::new(count as nat, |i: int| i as usize),
{
    match kind {
        SelectKind::ExactlyOne => {
            let mut v: Vec<usize> = Vec::new();
            v.push(picks[0]);
            v
        },
        SelectKind::Any | SelectKind::AtLeastOne => picks.clone(),
        SelectKind::All => {
            let mut v: Vec<usize> = Vec::new();
            let mut k: usize = 0;
            while k < count
                invariant
                    k <= count,
                    v@ == Seq::new(k as nat, |i: int| i as usize),
                decreases count - k,
            {
                v.push(k);
                k = k + 1;
                assert(v@ =~= Seq::new(k as nat, |i: int| i as usize));
            }
            v
        },
    }
}

/// What installing an option's files does, with its sources below `src` and destinations
/// below `dest`.
pub open spec fn option_ops(files: Seq<FomodFile>, src: Seq<char>, dest: Seq<char>) -> Seq<(bool, Seq<char>, Seq<char>)>
    decreases files.len(),
{
    if files.len() == 0 {
        Seq::empty()
    } else {
        let f = files.last();
        let step = (cpaths::pushed(src, f.source@), cpaths::pushed(dest, f.destination@));
        if f.ftype@ == "file"@ {
            option_ops(files.drop_last(), src, dest).push((true, step.0, step.1))
        } else if f.ftype@ == "folder"@ {
            option_ops(files.drop_last(), src, dest).push((false, step.0, step.1))
        } else {
            option_ops(files.drop_last(), src, dest)
        }
    }
}

/// The moves that installing an option makes.
pub fn install_fomod_files(plugin: &FomodPlugin, src: &Path, dest: &Path) -> (r: Vec<FileOp>)
    ensures
        r@.map_values(|o: FileOp| crate::modinstall::utils::op_view(o)) == option_ops(plugin.files@, src@, dest@),
{
    let mut out: Vec<FileOp> = Vec::new();
    let mut i: usize = 0;
    while i < plugin.files.len()
        invariant
            i <= plugin.files.len(),
            out@.map_values(|o: FileOp| crate::modinstall::utils::op_view(o)) == option_ops(
                plugin.files@.take(i as int),
                src@,
                dest@,
            ),
        decreases plugin.files.len() - i,
    {
        assert(plugin.files@.take(i + 1).drop_last() =~= plugin.files@.take(i as int));
        assert(plugin.files@.take(i + 1).last() == plugin.files@[i as int]);
        let f = &plugin.files[i];
        let ghost before = out@.map_values(|o: FileOp| crate::modinstall::utils::op_view(o));
        let mut s = src.clone();
        let src_p = s.push_p(f.source.clone());
        let mut d = dest.clone();
        let dest_p = d.push_p(f.destination.clone());
        if str_eq(f.ftype.as_str(), "file") {
            let op = FileOp::File { source: src_p, destination: dest_p };
            out.push(op);
            assert(out@.map_values(|o: FileOp| crate::modinstall::utils::op_view(o)) =~= before.push(
                crate::modinstall::utils::op_view(op),
            ));
        } else if str_eq(f.ftype.as_str(), "folder") {
            let op = FileOp::Folder { source: src_p, destination: dest_p };
            out.push(op);
            assert(out@.map_values(|o: FileOp| crate::modinstall::utils::op_view(o)) =~= before.push(
                crate::modinstall::utils::op_view(op),
            ));
        }
        i = i + 1;
    }
    assert(plugin.files@.take(plugin.files.len() as int) =~= plugin.files@);
    out
}

/// The positions of the options installed from a group of kind `kind` with `count` options,
/// given the user's picks: what `install_order` returns.
pub open spec fn group_order(kind: SelectKind, picks: Seq<usize>, count: nat) -> Seq<usize> {
    match kind {
        SelectKind::ExactlyOne => seq![picks[0]],
        SelectKind::Any | SelectKind::AtLeastOne => picks,
        SelectKind::All => Seq::new(count, |i: int| i as usize),
    }
}

/// The moves of installing the options at the positions `order`, one option after another.
pub open spec fn ops_of_order(plugins: Seq<FomodPlugin>, order: Seq<usize>, src: Seq<char>, dest: Seq<char>) -> Seq<
    (bool, Seq<char>, Seq<char>),
>
    decreases order.len(),
{
    if order.len() == 0 {
        Seq::empty()
    } else {
        ops_of_order(plugins, order.drop_last(), src, dest) + option_ops(plugins[order.last() as int].files@, src, dest)
    }
}

/// The options a group installs: for `SelectAny` and `SelectAtLeastOne` exactly the
/// options picked, in pick order; for `SelectExactlyOne` the first pick alone; for any other
/// group every option, in order.
pub proof fn law_group_installs_picks(gtype: Seq<char>, picks: Seq<usize>, count: usize)
    ensures
        (gtype == "SelectAny"@ || gtype == "selectany"@ || gtype == "SelectAtLeastOne"@ || gtype
            == "selectatleastone"@) ==> group_order(kind_of(gtype), picks, count as nat) == picks,
        (gtype == "SelectExactlyOne"@ || gtype == "selectexactlyone"@) && picks.len() > 0 ==> group_order(
            kind_of(gtype),
            picks,
            count as nat,
        ) == seq![picks[0]],
        !(gtype == "SelectAny"@ || gtype == "selectany"@ || gtype == "SelectAtLeastOne"@ || gtype
            == "selectatleastone"@ || gtype == "SelectExactlyOne"@ || gtype == "selectexactlyone"@) ==> (group_order(
            kind_of(gtype),
            picks,
            count as nat,
        ).len() == count && forall|i: int| 0 <= i < count ==> #[trigger] group_order(kind_of(gtype), picks, count as nat)[i]
            == i),
{
    reveal_strlit("SelectAny");
    reveal_strlit("selectany");
    reveal_strlit("SelectAtLeastOne");
    reveal_strlit("selectatleastone");
    reveal_strlit("SelectExactlyOne");
    reveal_strlit("selectexactlyone");
    assert("SelectAny"@.len() != "SelectExactlyOne"@.len());
    assert("selectany"@.len() != "selectexactlyone"@.len());
    assert("SelectAny"@.len() != "selectexactlyone"@.len());
    assert("selectany"@.len() != "SelectExactlyOne"@.len());
    assert("SelectAtLeastOne"@[6] != "SelectExactlyOne"@[6]);
    assert("SelectAtLeastOne"@[0] != "selectexactlyone"@[0]);
    assert("selectatleastone"@[0] != "SelectExactlyOne"@[0]);
    assert("selectatleastone"@[6] != "selectexactlyone"@[6]);
    if !(gtype == "SelectAny"@ || gtype == "selectany"@ || gtype == "SelectAtLeastOne"@ || gtype
        == "selectatleastone"@ || gtype == "SelectExactlyOne"@ || gtype == "selectexactlyone"@) {
        assert(kind_of(gtype) == SelectKind::All);
        assert forall|i: int| 0 <= i < count implies #[trigger] group_order(kind_of(gtype), picks, count as nat)[i] == i by {
            assert(group_order(kind_of(gtype), picks, count as nat)[i] == i as usize);
        }
    }
}

/// The moves of installing options one after another: no options make no move, one option
/// makes exactly the moves of its files, and the moves for a list of options are those for
/// its first part followed by those for the rest, so an option that is not listed adds none.
pub proof fn law_ops_of_options(plugins: Seq<FomodPlugin>, a: Seq<usize>, b: Seq<usize>, i: usize, src: Seq<char>, dest: Seq<char>)
    ensures
        ops_of_order(plugins, Seq::empty(), src, dest) == Seq::<(bool, Seq<char>, Seq<char>)>::empty(),
        ops_of_order(plugins, seq![i], src, dest) == option_ops(plugins[i as int].files@, src, dest),
        ops_of_order(plugins, a + b, src, dest) == ops_of_order(plugins, a, src, dest) + ops_of_order(plugins, b, src, dest),
    decreases b.len(),
{
    let one = seq![i];
    assert(one.drop_last() =~= Seq::<usize>::empty());
    assert(one.last() == i);
    assert(ops_of_order(plugins, one.drop_last(), src, dest) == Seq::<(bool, Seq<char>, Seq<char>)>::empty());
    assert(Seq::<(bool, Seq<char>, Seq<char>)>::empty() + option_ops(plugins[i as int].files@, src, dest) =~= option_ops(
        plugins[i as int].files@,
        src,
        dest,
    ));
    if b.len() == 0 {
        assert(a + b =~= a);
        assert(ops_of_order(plugins, b, src, dest) == Seq::<(bool, Seq<char>, Seq<char>)>::empty());
        assert(ops_of_order(plugins, a, src, dest) + Seq::<(bool, Seq<char>, Seq<char>)>::empty() =~= ops_of_order(
            plugins,
            a,
            src,
            dest,
        ));
    } else {
        law_ops_of_options(plugins, a, b.drop_last(), i, src, dest);
        assert((a + b).drop_last() =~= a + b.drop_last());
        assert((a + b).last() == b.last());
        let x = option_ops(plugins[b.last() as int].files@, src, dest);
        assert(ops_of_order(plugins, a, src, dest) + ops_of_order(plugins, b.drop_last(), src, dest) + x =~= ops_of_order(
            plugins,
            a,
            src,
            dest,
        ) + (ops_of_order(plugins, b.drop_last(), src, dest) + x));
    }
}

/// The moves of installing a group of an installer page: the options that its selection rule
/// and the user's picks choose, in that order, each with its files' moves.
pub fn step_ops(group: &FomodGroup, picks: &Vec<usize>, src: &Path, dest: &Path) -> (r: Vec<FileOp>)
    requires
        kind_of(group.gtype@) == SelectKind::ExactlyOne ==> picks.len() > 0,
        forall|j: int|
            0 <= j < group_order(kind_of(group.gtype@), picks@, group.plugins.len() as nat).len() ==> (#[trigger] group_order(
                kind_of(group.gtype@),
                picks@,
                group.plugins.len() as nat,
            )[j]) < group.plugins.len(),
    ensures
        r@.map_values(|o: FileOp| crate::modinstall::utils::op_view(o)) == ops_of_order(
            group.plugins@,
            group_order(kind_of(group.gtype@), picks@, group.plugins.len() as nat),
            src@,
            dest@,
        ),
{
    let kind = select_kind(group.gtype.as_str());
    let order = install_order(kind, picks, group.plugins.len());
    let ghost g = group_order(kind_of(group.gtype@), picks@, group.plugins.len() as nat);
    assert(order@ =~= g);
    let mut out: Vec<FileOp> = Vec::new();
    let mut k: usize = 0;
    while k < order.len()
        invariant
            k <= order.len(),
            order@ == g,
            forall|j: int| 0 <= j < g.len() ==> (#[trigger] g[j]) < group.plugins.len(),
            out@.map_values(|o: FileOp| crate::modinstall::utils::op_view(o)) == ops_of_order(
                group.plugins@,
                g.take(k as int),
                src@,
                dest@,
            ),
        decreases order.len() - k,
    {
        assert(g.take(k + 1).drop_last() =~= g.take(k as int));
        assert(g.take(k + 1).last() == g[k as int]);
        let idx = order[k];
        assert(idx < group.plugins.len());
        let mut ops = install_fomod_files(&group.plugins[idx], src, dest);
        let ghost before = out@;
        let ghost added = ops@;
        out.append(&mut ops);
        assert(out@ == before + added);
        assert((before + added).map_values(|o: FileOp| crate::modinstall::utils::op_view(o)) =~= before.map_values(
            |o: FileOp| crate::modinstall::utils::op_view(o),
        ) + added.map_values(|o: FileOp| crate::modinstall::utils::op_view(o)));
        k = k + 1;
    }
    assert(g.take(order.len() as int) =~= g);
    out
}

// ---------------------------------------------------------------------------
// Reading the user's picks
// ---------------------------------------------------------------------------

/// The value of a decimal digit string.
pub open spec fn digits_value(s: Seq<char>) -> int
    decreases s.len(),
{
    if s.len() == 0 {
        0
    } else {
        digits_value(s.drop_last()) * 10 + (s.last() as u32 - '0' as u32)
    }
}

/// Only decimal digits, at least one.
pub open spec fn all_digits(s: Seq<char>) -> bool {
    s.len() > 0 && forall|i: int| 0 <= i < s.len() ==> '0' <= #[trigger] s[i] && s[i] <= '9'
}

/// The number a word spells as a `usize` (digits after an optional `+`), if it spells one
/// that fits (`usize::from_str`).
pub open spec fn word_number(s: Seq<char>) -> Option<int> {
    let d = if s.len() > 0 && s[0] == '+' { s.drop_first() } else { s };
    if all_digits(d) && digits_value(d) <= usize::MAX {
        Some(digits_value(d))
    } else {
        None
    }
}

/// Every word of the input is a number from 1 on.
pub open spec fn picks_ok(input: Seq<char>) -> bool {
    forall|i: int| 0 <= i < text::words(input).len() ==> (word_number(#[trigger] text::words(input)[i]) matches Some(n)
        && n >= 1)
}

proof fn lemma_digits_value_nonneg(s: Seq<char>)
    requires
        forall|i: int| 0 <= i < s.len() ==> '0' <= #[trigger] s[i] && s[i] <= '9',
    ensures
        digits_value(s) >= 0,
    decreases s.len(),
{
    if s.len() > 0 {
        assert forall|i: int| 0 <= i < s.drop_last().len() implies '0' <= #[trigger] s.drop_last()[i] && s.drop_last()[i] <= '9' by {
            assert(s.drop_last()[i] == s[i]);
        }
        lemma_digits_value_nonneg(s.drop_last());
        assert(s[s.len() - 1] == s.last());
    }
}

/// The number a word spells, if it spells a `usize`.
pub fn parse_usize(s: &str) -> (r: Option<usize>)
    ensures
        r matches Some(n) ==> word_number(s@) == Some(n as int),
        r is None ==> word_number(s@) is None,
{
    let v = chars_of(s);
    let start: usize = if v.len() > 0 && v[0] == '+' { 1 } else { 0 };
    let ghost d = if s@.len() > 0 && s@[0] == '+' { s@.drop_first() } else { s@ };
    assert(d =~= s@.subrange(start as int, s@.len() as int));
    if start >= v.len() {
        return None;
    }
    let mut value: usize = 0;
    let mut k: usize = start;
    while k < v.len()
        invariant
            v@ == s@,
            start <= k <= v.len(),
            d == s@.subrange(start as int, s@.len() as int),
            d == (if s@.len() > 0 && s@[0] == '+' { s@.drop_first() } else { s@ }),
            forall|i: int| start <= i < k ==> '0' <= #[trigger] v@[i] && v@[i] <= '9',
            value as int == digits_value(s@.subrange(start as int, k as int)),
        decreases v.len() - k,
    {
        let c = v[k];
        assert(s@.subrange(start as int, k + 1).drop_last() =~= s@.subrange(start as int, k as int));
        if c < '0' || c > '9' {
            assert(d[k - start] == c);
            assert(!all_digits(d));
            return None;
        }
        let digit: usize = ((c as u32) - ('0' as u32)) as usize;
        if value > (usize::MAX - digit) / 10 {
            proof {
                let pre = s@.subrange(start as int, k + 1);
                assert(pre.last() == c);
                assert(digits_value(pre) == digits_value(pre.drop_last()) * 10 + (c as u32 - '0' as u32));
                assert(digits_value(pre) == value * 10 + digit);
                assert forall|i: int| 0 <= i < (k + 1 - start) implies '0' <= #[trigger] d.subrange(0, k + 1 - start)[i]
                    && d.subrange(0, k + 1 - start)[i] <= '9' by {
                    assert(d.subrange(0, k + 1 - start)[i] == v@[start + i]);
                }
                lemma_digits_prefix_bound(d, (k + 1 - start) as int);
                assert(d.subrange(0, k + 1 - start) =~= s@.subrange(start as int, k + 1));
                assert(value * 10 + digit > usize::MAX) by (nonlinear_arith)
                    requires
                        value > (usize::MAX - digit) / 10,
                        digit <= 9,
                ;
                assert(!(all_digits(d) && digits_value(d) <= usize::MAX));
            }
            return None;
        }
        value = value * 10 + digit;
        k = k + 1;
    }
    assert(s@.subrange(start as int, v.len() as int) =~= d);
    Some(value)
}

/// A prefix of a digit string never has a larger value than the whole.
proof fn lemma_digits_prefix_bound(d: Seq<char>, n: int)
    requires
        0 <= n <= d.len(),
        forall|i: int| 0 <= i < n ==> '0' <= #[trigger] d.subrange(0, n)[i] && d.subrange(0, n)[i] <= '9',
    ensures
        !(all_digits(d) && digits_value(d) <= usize::MAX) || digits_value(d.subrange(0, n)) <= usize::MAX,
    decreases d.len() - n,
{
    if all_digits(d) && n < d.len() {
        assert forall|i: int| 0 <= i < n + 1 implies '0' <= #[trigger] d.subrange(0, n + 1)[i] && d.subrange(0, n + 1)[i] <= '9' by {
            assert(d.subrange(0, n + 1)[i] == d[i]);
        }
        lemma_digits_prefix_bound(d, n + 1);
        assert(d.subrange(0, n + 1).drop_last() =~= d.subrange(0, n));
        lemma_digits_value_nonneg(d.subrange(0, n));
        assert(d.subrange(0, n + 1).last() == d[n]);
    } else if n == d.len() {
        assert(d.subrange(0, n) =~= d);
    }
}

/// Does every word of the input spell a number from 1 on?
pub fn picks_valid(input: &str) -> (r: bool)
    ensures
        r == picks_ok(input@),
{
    let words = split_words(input);
    let ghost ws = text::words(input@);
    let mut k: usize = 0;
    while k < words.len()
        invariant
            text::views(words@) == ws,
            ws == text::words(input@),
            k <= words.len(),
            forall|i: int| 0 <= i < k ==> (word_number(#[trigger] ws[i]) matches Some(n) && n >= 1),
        decreases words.len() - k,
    {
        assert(ws[k as int] == words@[k as int]@);
        match parse_usize(words[k].as_str()) {
            Some(n) => {
                if n < 1 {
                    return false;
                }
            },
            None => {
                return false;
            },
        }
        k = k + 1;
    }
    true
}

/// The positions the user picked: each word is a number from 1 on, and counts from 0 here.
pub fn selection(input: &str) -> (r: Vec<usize>)
    requires
        picks_ok(input@),
    ensures
        r.len() == text::words(input@).len(),
        forall|i: int| 0 <= i < r.len() ==> word_number(text::words(input@)[i]) == Some(#[trigger] r@[i] + 1),
{
    let words = split_words(input);
    let ghost ws = text::words(input@);
    let mut selected: Vec<usize> = Vec::new();
    let mut k: usize = 0;
    while k < words.len()
        invariant
            text::views(words@) == ws,
            ws == text::words(input@),
            picks_ok(input@),
            k <= words.len(),
            selected.len() == k,
            forall|i: int| 0 <= i < k ==> word_number(ws[i]) == Some(#[trigger] selected@[i] + 1),
        decreases words.len() - k,
    {
        assert(ws[k as int] == words@[k as int]@);
        assert(word_number(ws[k as int]) matches Some(n) && n >= 1);
        match parse_usize(words[k].as_str()) {
            Some(n) => {
                selected.push(n - 1);
            },
            None => {},
        }
        k = k + 1;
    }
    selected
}

} // verus!
