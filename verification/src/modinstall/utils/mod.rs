pub mod dir;
pub mod xml;

use vstd::prelude::*;
use crate::modinstall::utils::dir::fix_case;
use crate::modinstall::utils::xml::{
    attr, attribute, get_child, get_children_all, get_children_r, required_attr, text_or_default, XmlElement, parse_xml, parsed_xml,
};
use crate::paths;
use crate::paths::Path;
use crate::text;
use crate::text::{push_all, push_char, str_eq, chars_of};

verus! {

broadcast use vstd::string::group_string_axioms;

/* The installer configuration of a fomod mod, as read from its ModuleConfig file. */

/// The installer configuration of a mod.
pub struct FomodConfig {
    pub modname: String,
    pub req_files: Option<Vec<FomodFile>>,
    pub installsteps: Vec<FomodInstallStep>,
    pub conditionals: Option<Vec<Pattern>>,
}

/// One page of the installer.
pub struct FomodInstallStep {
    pub name: String,
    pub deps: Option<Vec<ConditionFlag>>,
    pub groups: Vec<FomodGroup>,
}

/// A group of options on an installer page, with its selection rule.
pub struct FomodGroup {
    pub name: String,
    pub gtype: String,
    pub plugins: Vec<FomodPlugin>,
}

/// One option of a group.
pub struct FomodPlugin {
    pub name: String,
    pub image: Path,
    pub description: String,
    pub type_desc: String,
    pub files: Vec<FomodFile>,
    pub c_flags: Vec<ConditionFlag>,
}

/// A file or folder that an option installs.
pub struct FomodFile {
    pub source: Path,
    pub destination: Path,
    pub ftype: String,
}

/// A named flag and its value.
pub struct ConditionFlag {
    pub name: String,
    pub value: String,
}

/// Files installed when flags are set.
pub struct Pattern {
    pub deps: Vec<ConditionFlag>,
    pub oper: String,
    pub files: Vec<FomodFile>,
}

/// What installing a file or folder of the configuration does.
pub enum FileOp {
    /// Move one file, creating the directory it goes to.
    File { source: Path, destination: Path },
    /// Move a folder's contents, recursively.
    Folder { source: Path, destination: Path },
}

// ---------------------------------------------------------------------------
// What the configuration holds, in terms of the document
// ---------------------------------------------------------------------------

/// A path below `base` named by a configuration attribute: lower-cased, backslashes as slashes.
pub open spec fn located(base: Seq<char>, name: Seq<char>) -> Seq<char> {
    paths::pushed(base, paths::forward_slashes(text::lower_seq(name)))
}

/// `f` is read from the file element `el`.
pub open spec fn file_from(f: FomodFile, el: XmlElement, src: Seq<char>, dest: Seq<char>) -> bool {
    &&& f.source@ == located(src, xml::attr_or_empty(el, "source"@))
    &&& f.destination@ == located(dest, xml::attr_or_empty(el, "destination"@))
    &&& f.ftype@ == el.name@
}

/// `v` is read from the file elements `els`, one for one.
pub open spec fn files_from(v: Seq<FomodFile>, els: Seq<XmlElement>, src: Seq<char>, dest: Seq<char>) -> bool {
    &&& v.len() == els.len()
    &&& forall|i: int| 0 <= i < v.len() ==> file_from(#[trigger] v[i], els[i], src, dest)
}

/// Every file element below `el` has a source and a destination.
pub open spec fn files_ok(el: XmlElement) -> bool {
    forall|i: int| 0 <= i < xml::child_elements(el).len() ==> {
        &&& xml::has_attr(#[trigger] xml::child_elements(el)[i], "source"@)
        &&& xml::has_attr(xml::child_elements(el)[i], "destination"@)
    }
}

/// `f` is the flag set by the element `el`: its `name` and its text.
pub open spec fn flag_from(f: ConditionFlag, el: XmlElement) -> bool {
    f.name@ == xml::attr_or_empty(el, "name"@) && f.value@ == xml::text_or_empty(el)
}

/// `v` is read from the flag elements `els`, one for one.
pub open spec fn flags_from(v: Seq<ConditionFlag>, els: Seq<XmlElement>) -> bool {
    &&& v.len() == els.len()
    &&& forall|i: int| 0 <= i < v.len() ==> flag_from(#[trigger] v[i], els[i])
}

/// Every flag element below `el` has a name.
pub open spec fn cflags_ok(el: XmlElement) -> bool {
    forall|i: int| 0 <= i < xml::child_elements(el).len() ==> xml::has_attr(#[trigger] xml::child_elements(el)[i], "name"@)
}

/// `f` is the flag required by the dependency element `el`.
pub open spec fn dep_from(f: ConditionFlag, el: XmlElement) -> bool {
    f.name@ == xml::attr_or_empty(el, "flag"@) && f.value@ == xml::attr_or_empty(el, "value"@)
}

/// `v` is read from the dependency elements `els`, one for one.
pub open spec fn deps_from(v: Seq<ConditionFlag>, els: Seq<XmlElement>) -> bool {
    &&& v.len() == els.len()
    &&& forall|i: int| 0 <= i < v.len() ==> dep_from(#[trigger] v[i], els[i])
}

/// Every flag dependency below `el` names a flag and a value.
pub open spec fn deps_ok(el: XmlElement) -> bool {
    let d = xml::descendants_named(el, "flagDependency"@);
    forall|i: int| 0 <= i < d.len() ==> xml::has_attr(#[trigger] d[i], "flag"@) && xml::has_attr(d[i], "value"@)
}

/// `p` is read from the pattern element `el`.
pub open spec fn pattern_from(p: Pattern, el: XmlElement, src: Seq<char>, dest: Seq<char>) -> bool {
    &&& match xml::child_named(el, "dependencies"@) {
        Some(d) => deps_from(p.deps@, xml::descendants_named(d, "flagDependency"@)) && p.oper@
            == xml::attr_or_empty(d, "operator"@),
        None => p.deps@.len() == 0 && p.oper@.len() == 0,
    }
    &&& match xml::child_named(el, "files"@) {
        Some(f) => files_from(p.files@, xml::child_elements(f), src, dest),
        None => p.files@.len() == 0,
    }
}

/// The pattern element can be read.
pub open spec fn pattern_ok(el: XmlElement) -> bool {
    &&& (xml::child_named(el, "dependencies"@) matches Some(d) ==> deps_ok(d))
    &&& (xml::child_named(el, "files"@) matches Some(f) ==> files_ok(f))
}

/// Every pattern below `el` can be read.
pub open spec fn patterns_ok(el: XmlElement) -> bool {
    forall|i: int| 0 <= i < xml::descendants_named(el, "pattern"@).len() ==> pattern_ok(
        #[trigger] xml::descendants_named(el, "pattern"@)[i],
    )
}

/// The text of the child `name` of `el`, or the empty text.
pub open spec fn child_text(el: XmlElement, name: Seq<char>) -> Seq<char> {
    match xml::child_named(el, name) {
        Some(x) => xml::text_or_empty(x),
        None => Seq::<char>::empty(),
    }
}

/// The type named by the `typeDescriptor` of an option, or the empty text.
pub open spec fn option_type(el: XmlElement) -> Seq<char> {
    match xml::child_named(el, "typeDescriptor"@) {
        Some(x) => match xml::child_named(x, "type"@) {
            Some(z) => xml::attr_or_empty(z, "name"@),
            None => Seq::<char>::empty(),
        },
        None => Seq::<char>::empty(),
    }
}

/// `p` is read from the option element `el`.
pub open spec fn plugin_from(p: FomodPlugin, el: XmlElement, src: Seq<char>, dest: Seq<char>) -> bool {
    &&& p.name@ == xml::attr_or_empty(el, "name"@)
    &&& p.description@ == child_text(el, "description"@)
    &&& p.image@ == match xml::child_named(el, "image"@) {
        Some(x) => located(src, xml::attr_or_empty(x, "path"@)),
        None => Seq::<char>::empty(),
    }
    &&& p.type_desc@ == option_type(el)
    &&& match xml::child_named(el, "files"@) {
        Some(f) => files_from(p.files@, xml::child_elements(f), src, dest),
        None => p.files@.len() == 0,
    }
    &&& match xml::child_named(el, "conditionFlags"@) {
        Some(f) => flags_from(p.c_flags@, xml::child_elements(f)),
        None => p.c_flags@.len() == 0,
    }
}

/// The option element can be read.
pub open spec fn plugin_ok(el: XmlElement) -> bool {
    &&& xml::has_attr(el, "name"@)
    &&& (xml::child_named(el, "image"@) matches Some(x) ==> xml::has_attr(x, "path"@))
    &&& (xml::child_named(el, "typeDescriptor"@) matches Some(x) ==> (xml::child_named(x, "type"@) matches Some(z)
        ==> xml::has_attr(z, "name"@)))
    &&& (xml::child_named(el, "files"@) matches Some(f) ==> files_ok(f))
    &&& (xml::child_named(el, "conditionFlags"@) matches Some(f) ==> cflags_ok(f))
}

/// `g` is read from the group element `el`.
pub open spec fn group_from(g: FomodGroup, el: XmlElement, src: Seq<char>, dest: Seq<char>) -> bool {
    let ps = xml::descendants_named(el, "plugin"@);
    &&& g.name@ == xml::attr_or_empty(el, "name"@)
    &&& g.gtype@ == xml::attr_or_empty(el, "type"@)
    &&& g.plugins@.len() == ps.len()
    &&& forall|i: int| 0 <= i < ps.len() ==> plugin_from(#[trigger] g.plugins@[i], ps[i], src, dest)
}

/// The group element can be read.
pub open spec fn group_ok(el: XmlElement) -> bool {
    let ps = xml::descendants_named(el, "plugin"@);
    &&& xml::has_attr(el, "name"@)
    &&& xml::has_attr(el, "type"@)
    &&& forall|i: int| 0 <= i < ps.len() ==> plugin_ok(#[trigger] ps[i])
}

/// `s` is read from the install step element `el`.
pub open spec fn step_from(s: FomodInstallStep, el: XmlElement, src: Seq<char>, dest: Seq<char>) -> bool {
    let gs = xml::descendants_named(el, "group"@);
    &&& s.name@ == xml::attr_or_empty(el, "name"@)
    &&& s.groups@.len() == gs.len()
    &&& (forall|i: int| 0 <= i < gs.len() ==> group_from(#[trigger] s.groups@[i], gs[i], src, dest))
    &&& match xml::child_named(el, "visible"@) {
        Some(x) => s.deps matches Some(d) && deps_from(d@, xml::descendants_named(x, "flagDependency"@)),
        None => s.deps is None,
    }
}

/// The install step element can be read.
pub open spec fn step_ok(el: XmlElement) -> bool {
    let gs = xml::descendants_named(el, "group"@);
    &&& xml::has_attr(el, "name"@)
    &&& (forall|i: int| 0 <= i < gs.len() ==> group_ok(#[trigger] gs[i]))
    &&& (xml::child_named(el, "visible"@) matches Some(x) ==> deps_ok(x))
}

/// `c` is read from the configuration document `raw`.
pub open spec fn config_from(c: FomodConfig, raw: XmlElement, src: Seq<char>, dest: Seq<char>) -> bool {
    let r = xml::config_root(raw);
    let steps = xml::descendants_named(r, "installStep"@);
    &&& c.modname@ == child_text(r, "moduleName"@)
    &&& match xml::child_named(r, "requiredInstallFiles"@) {
        Some(x) => c.req_files matches Some(v) && files_from(v@, xml::child_elements(x), src, dest),
        None => c.req_files is None,
    }
    &&& match xml::child_named(r, "conditionalFileInstalls"@) {
        Some(x) => c.conditionals matches Some(v) && {
            let ps = xml::descendants_named(x, "pattern"@);
            &&& v@.len() == ps.len()
            &&& forall|i: int| 0 <= i < ps.len() ==> pattern_from(#[trigger] v@[i], ps[i], src, dest)
        },
        None => c.conditionals is None,
    }
    &&& c.installsteps@.len() == steps.len()
    &&& forall|i: int| 0 <= i < steps.len() ==> step_from(#[trigger] c.installsteps@[i], steps[i], src, dest)
}

/// The configuration document can be read: every attribute that the reader needs is there.
pub open spec fn config_ok(raw: XmlElement) -> bool {
    let r = xml::config_root(raw);
    let steps = xml::descendants_named(r, "installStep"@);
    &&& (xml::child_named(r, "requiredInstallFiles"@) matches Some(x) ==> files_ok(x))
    &&& match xml::child_named(r, "conditionalFileInstalls"@) {
        Some(x) => patterns_ok(x),
        None => true,
    }
    &&& forall|i: int| 0 <= i < steps.len() ==> step_ok(#[trigger] steps[i])
}

// ---------------------------------------------------------------------------
// Reading the configuration
// ---------------------------------------------------------------------------

/// The files and folders listed below `plugin`.
fn read_files(plugin: &XmlElement, src: &Path, dest: &Path) -> (r: Vec<FomodFile>)
    requires
        files_ok(*plugin),
    ensures
        files_from(r@, xml::child_elements(*plugin), src@, dest@),
{
    let files = get_children_all(plugin);
    let ghost els = files@.map_values(|x: &XmlElement| *x);
    let mut files_v: Vec<FomodFile> = Vec::new();
    let mut k: usize = 0;
    while k < files.len()
        invariant
            els == files@.map_values(|x: &XmlElement| *x),
            els == xml::child_elements(*plugin),
            files_ok(*plugin),
            k <= files.len(),
            files_v@.len() == k,
            forall|i: int| 0 <= i < k ==> file_from(#[trigger] files_v@[i], els[i], src@, dest@),
        decreases files.len() - k,
    {
        let i = files[k];
        assert(*i == els[k as int]);
        let source_name = fix_case(required_attr(i, "source").as_str());
        let dest_name = fix_case(required_attr(i, "destination").as_str());
        let mut s = src.clone();
        let source = s.push_p(Path::from(source_name.as_str()));
        let mut d = dest.clone();
        let destination = d.push_p(Path::from(dest_name.as_str()));
        files_v.push(FomodFile { source, destination, ftype: i.name.clone() });
        k = k + 1;
    }
    files_v
}

/// The flags set by the elements below `plugin`.
fn read_cflags(plugin: &XmlElement) -> (r: Vec<ConditionFlag>)
    requires
        cflags_ok(*plugin),
    ensures
        flags_from(r@, xml::child_elements(*plugin)),
{
    let flags = get_children_all(plugin);
    let ghost els = flags@.map_values(|x: &XmlElement| *x);
    let mut flags_v: Vec<ConditionFlag> = Vec::new();
    let mut k: usize = 0;
    while k < flags.len()
        invariant
            els == flags@.map_values(|x: &XmlElement| *x),
            els == xml::child_elements(*plugin),
            cflags_ok(*plugin),
            k <= flags.len(),
            flags_v@.len() == k,
            forall|i: int| 0 <= i < k ==> flag_from(#[trigger] flags_v@[i], els[i]),
        decreases flags.len() - k,
    {
        let i = flags[k];
        assert(*i == els[k as int]);
        let name = required_attr(i, "name");
        let value = text_or_default(i);
        flags_v.push(ConditionFlag { name, value });
        k = k + 1;
    }
    flags_v
}

/// The flag dependencies below `pattern`.
fn read_deps(pattern: &XmlElement) -> (r: Vec<ConditionFlag>)
    requires
        deps_ok(*pattern),
    ensures
        deps_from(r@, xml::descendants_named(*pattern, "flagDependency"@)),
{
    let deps = get_children_r(pattern, "flagDependency");
    let ghost els = deps@.map_values(|x: &XmlElement| *x);
    let mut deps_v: Vec<ConditionFlag> = Vec::new();
    let mut k: usize = 0;
    while k < deps.len()
        invariant
            els == deps@.map_values(|x: &XmlElement| *x),
            els == xml::descendants_named(*pattern, "flagDependency"@),
            deps_ok(*pattern),
            k <= deps.len(),
            deps_v@.len() == k,
            forall|i: int| 0 <= i < k ==> dep_from(#[trigger] deps_v@[i], els[i]),
        decreases deps.len() - k,
    {
        let i = deps[k];
        assert(*i == els[k as int]);
        let name = required_attr(i, "flag");
        let value = required_attr(i, "value");
        deps_v.push(ConditionFlag { name, value });
        k = k + 1;
    }
    deps_v
}

/// The conditional file patterns below `raw`.
fn read_patterns(raw: &XmlElement, src: &Path, dest: &Path) -> (r: Vec<Pattern>)
    requires
        patterns_ok(*raw),
    ensures
        r@.len() == xml::descendants_named(*raw, "pattern"@).len(),
        forall|i: int| 0 <= i < r@.len() ==> pattern_from(#[trigger] r@[i], xml::descendants_named(*raw, "pattern"@)[i], src@, dest@),
{
    let patterns = get_children_r(raw, "pattern");
    let ghost els = patterns@.map_values(|x: &XmlElement| *x);
    let mut patterns_v: Vec<Pattern> = Vec::new();
    let mut k: usize = 0;
    while k < patterns.len()
        invariant
            els == patterns@.map_values(|x: &XmlElement| *x),
            els == xml::descendants_named(*raw, "pattern"@),
            forall|i: int| 0 <= i < els.len() ==> pattern_ok(#[trigger] els[i]),
            k <= patterns.len(),
            patterns_v@.len() == k,
            forall|i: int| 0 <= i < k ==> pattern_from(#[trigger] patterns_v@[i], els[i], src@, dest@),
        decreases patterns.len() - k,
    {
        let i = patterns[k];
        assert(*i == els[k as int]);
        assert(pattern_ok(els[k as int]));
        let mut pt = Pattern { deps: Vec::new(), oper: String::new(), files: Vec::new() };
        match get_child(i, "dependencies") {
            Some(x) => {
                pt.deps = read_deps(x);
                pt.oper = attr(x, "operator");
            },
            None => {},
        }
        match get_child(i, "files") {
            Some(x) => {
                pt.files = read_files(x, src, dest);
            },
            None => {},
        }
        patterns_v.push(pt);
        k = k + 1;
    }
    patterns_v
}

/// The option read from one option element.
fn read_plugin(i: &XmlElement, src: &Path, dest: &Path) -> (r: FomodPlugin)
    requires
        plugin_ok(*i),
    ensures
        plugin_from(r, *i, src@, dest@),
{
    let mut plugin = FomodPlugin {
        name: required_attr(i, "name"),
        image: Path::new(),
        description: String::new(),
        type_desc: String::new(),
        files: Vec::new(),
        c_flags: Vec::new(),
    };
    match get_child(i, "description") {
        Some(x) => {
            plugin.description = text_or_default(x);
        },
        None => {},
    }
    match get_child(i, "image") {
        Some(x) => {
            let path = fix_case(required_attr(x, "path").as_str());
            let mut s = src.clone();
            plugin.image = s.push_p(Path::from(path.as_str()));
        },
        None => {},
    }
    match get_child(i, "typeDescriptor") {
        Some(x) => match get_child(x, "type") {
            Some(z) => {
                plugin.type_desc = required_attr(z, "name");
            },
            None => {},
        },
        None => {},
    }
    match get_child(i, "files") {
        Some(x) => {
            plugin.files = read_files(x, src, dest);
        },
        None => {},
    }
    match get_child(i, "conditionFlags") {
        Some(x) => {
            plugin.c_flags = read_cflags(x);
        },
        None => {},
    }
    plugin
}

/// The options below a group element.
fn read_plugins(group: &XmlElement, src: &Path, dest: &Path) -> (r: Vec<FomodPlugin>)
    requires
        forall|i: int| 0 <= i < xml::descendants_named(*group, "plugin"@).len() ==> plugin_ok(
            #[trigger] xml::descendants_named(*group, "plugin"@)[i],
        ),
    ensures
        r@.len() == xml::descendants_named(*group, "plugin"@).len(),
        forall|i: int| 0 <= i < r@.len() ==> plugin_from(#[trigger] r@[i], xml::descendants_named(*group, "plugin"@)[i], src@, dest@),
{
    let plugins = get_children_r(group, "plugin");
    let ghost els = plugins@.map_values(|x: &XmlElement| *x);
    let mut plugins_v: Vec<FomodPlugin> = Vec::new();
    let mut k: usize = 0;
    while k < plugins.len()
        invariant
            els == plugins@.map_values(|x: &XmlElement| *x),
            els == xml::descendants_named(*group, "plugin"@),
            forall|i: int| 0 <= i < els.len() ==> plugin_ok(#[trigger] els[i]),
            k <= plugins.len(),
            plugins_v@.len() == k,
            forall|i: int| 0 <= i < k ==> plugin_from(#[trigger] plugins_v@[i], els[i], src@, dest@),
        decreases plugins.len() - k,
    {
        assert(*plugins[k as int] == els[k as int]);
        assert(plugin_ok(els[k as int]));
        plugins_v.push(read_plugin(plugins[k], src, dest));
        k = k + 1;
    }
    plugins_v
}

/// The groups below an install step element.
fn read_groups(raw: &XmlElement, src: &Path, dest: &Path) -> (r: Vec<FomodGroup>)
    requires
        forall|i: int| 0 <= i < xml::descendants_named(*raw, "group"@).len() ==> group_ok(
            #[trigger] xml::descendants_named(*raw, "group"@)[i],
        ),
    ensures
        r@.len() == xml::descendants_named(*raw, "group"@).len(),
        forall|i: int| 0 <= i < r@.len() ==> group_from(#[trigger] r@[i], xml::descendants_named(*raw, "group"@)[i], src@, dest@),
{
    let groups = get_children_r(raw, "group");
    let ghost els = groups@.map_values(|x: &XmlElement| *x);
    let mut groups_v: Vec<FomodGroup> = Vec::new();
    let mut k: usize = 0;
    while k < groups.len()
        invariant
            els == groups@.map_values(|x: &XmlElement| *x),
            els == xml::descendants_named(*raw, "group"@),
            forall|i: int| 0 <= i < els.len() ==> group_ok(#[trigger] els[i]),
            k <= groups.len(),
            groups_v@.len() == k,
            forall|i: int| 0 <= i < k ==> group_from(#[trigger] groups_v@[i], els[i], src@, dest@),
        decreases groups.len() - k,
    {
        let i = groups[k];
        assert(*i == els[k as int]);
        assert(group_ok(els[k as int]));
        groups_v.push(
            FomodGroup {
                name: required_attr(i, "name"),
                gtype: required_attr(i, "type"),
                plugins: read_plugins(i, src, dest),
            },
        );
        k = k + 1;
    }
    groups_v
}

/// The install steps below the configuration element.
fn read_install_steps(raw: &XmlElement, src: &Path, dest: &Path) -> (r: Vec<FomodInstallStep>)
    requires
        forall|i: int| 0 <= i < xml::descendants_named(*raw, "installStep"@).len() ==> step_ok(
            #[trigger] xml::descendants_named(*raw, "installStep"@)[i],
        ),
    ensures
        r@.len() == xml::descendants_named(*raw, "installStep"@).len(),
        forall|i: int| 0 <= i < r@.len() ==> step_from(#[trigger] r@[i], xml::descendants_named(*raw, "installStep"@)[i], src@, dest@),
{
    let steps = get_children_r(raw, "installStep");
    let ghost els = steps@.map_values(|x: &XmlElement| *x);
    let mut steps_v: Vec<FomodInstallStep> = Vec::new();
    let mut k: usize = 0;
    while k < steps.len()
        invariant
            els == steps@.map_values(|x: &XmlElement| *x),
            els == xml::descendants_named(*raw, "installStep"@),
            forall|i: int| 0 <= i < els.len() ==> step_ok(#[trigger] els[i]),
            k <= steps.len(),
            steps_v@.len() == k,
            forall|i: int| 0 <= i < k ==> step_from(#[trigger] steps_v@[i], els[i], src@, dest@),
        decreases steps.len() - k,
    {
        let i = steps[k];
        assert(*i == els[k as int]);
        assert(step_ok(els[k as int]));
        let mut step = FomodInstallStep {
            name: required_attr(i, "name"),
            deps: None,
            groups: read_groups(i, src, dest),
        };
        match get_child(i, "visible") {
            Some(x) => {
                step.deps = Some(read_deps(x));
            },
            None => {},
        }
        steps_v.push(step);
        k = k + 1;
    }
    steps_v
}

/// The installer configuration held by a ModuleConfig document.
fn read_mod_config(raw: &XmlElement, src: &Path, dest: &Path) -> (r: FomodConfig)
    requires
        config_ok(*raw),
    ensures
        config_from(r, *raw, src@, dest@),
{
    let root = xml::next(raw);
    let mut mconf = FomodConfig {
        modname: String::new(),
        req_files: None,
        installsteps: Vec::new(),
        conditionals: None,
    };
    match get_child(root, "moduleName") {
        Some(x) => {
            mconf.modname = text_or_default(x);
        },
        None => {},
    }
    match get_child(root, "requiredInstallFiles") {
        Some(x) => {
            mconf.req_files = Some(read_files(x, src, dest));
        },
        None => {},
    }
    match get_child(root, "conditionalFileInstalls") {
        Some(x) => {
            assert(xml::child_named(xml::config_root(*raw), "conditionalFileInstalls"@) == Some(*x));
            mconf.conditionals = Some(read_patterns(x, src, dest));
        },
        None => {},
    }
    mconf.installsteps = read_install_steps(root, src, dest);
    mconf
}

/// The installer configuration of a mod, from its parsed ModuleConfig document; the mod's
/// files are found below `src` and go below `dest`.
pub fn read_install_instructions(raw: &XmlElement, src: &Path, dest: &Path) -> (r: FomodConfig)
    requires
        config_ok(*raw),
    ensures
        config_from(r, *raw, src@, dest@),
{
    read_mod_config(raw, src, dest)
}

/// Reads the installer configuration from the bytes of its ModuleConfig file: `None` when
/// the bytes are no XML document or the document lacks an attribute that the reader needs.
pub fn install_instructions_from(bytes: &[u8], src: &Path, dest: &Path) -> (r: Option<FomodConfig>)
    ensures
        r is Some <==> (parsed_xml(bytes@) matches Some(e) && config_ok(e)),
        r matches Some(c) ==> config_from(c, parsed_xml(bytes@)->0, src@, dest@),
{
    match parse_xml(bytes) {
        Some(raw) => {
            if config_readable(&raw) {
                Some(read_install_instructions(&raw, src, dest))
            } else {
                None
            }
        },
        None => None,
    }
}


// ---------------------------------------------------------------------------
// Checking that a document can be read
// ---------------------------------------------------------------------------

/// Does the element have the attribute `key`?
fn has_attribute(e: &XmlElement, key: &str) -> (r: bool)
    ensures
        r == xml::has_attr(*e, key@),
{
    match attribute(e, key) {
        Some(_) => true,
        None => false,
    }
}

fn files_readable(el: &XmlElement) -> (r: bool)
    ensures
        r == files_ok(*el),
{
    let files = get_children_all(el);
    let ghost els = files@.map_values(|x: &XmlElement| *x);
    let mut k: usize = 0;
    while k < files.len()
        invariant
            els == files@.map_values(|x: &XmlElement| *x),
            els == xml::child_elements(*el),
            k <= files.len(),
            forall|i: int| 0 <= i < k ==> xml::has_attr(#[trigger] els[i], "source"@) && xml::has_attr(els[i], "destination"@),
        decreases files.len() - k,
    {
        assert(*files[k as int] == els[k as int]);
        if !has_attribute(files[k], "source") || !has_attribute(files[k], "destination") {
            return false;
        }
        k = k + 1;
    }
    true
}

fn cflags_readable(el: &XmlElement) -> (r: bool)
    ensures
        r == cflags_ok(*el),
{
    let flags = get_children_all(el);
    let ghost els = flags@.map_values(|x: &XmlElement| *x);
    let mut k: usize = 0;
    while k < flags.len()
        invariant
            els == flags@.map_values(|x: &XmlElement| *x),
            els == xml::child_elements(*el),
            k <= flags.len(),
            forall|i: int| 0 <= i < k ==> xml::has_attr(#[trigger] els[i], "name"@),
        decreases flags.len() - k,
    {
        assert(*flags[k as int] == els[k as int]);
        if !has_attribute(flags[k], "name") {
            return false;
        }
        k = k + 1;
    }
    true
}

fn deps_readable(el: &XmlElement) -> (r: bool)
    ensures
        r == deps_ok(*el),
{
    let deps = get_children_r(el, "flagDependency");
    let ghost els = deps@.map_values(|x: &XmlElement| *x);
    let mut k: usize = 0;
    while k < deps.len()
        invariant
            els == deps@.map_values(|x: &XmlElement| *x),
            els == xml::descendants_named(*el, "flagDependency"@),
            k <= deps.len(),
            forall|i: int| 0 <= i < k ==> xml::has_attr(#[trigger] els[i], "flag"@) && xml::has_attr(els[i], "value"@),
        decreases deps.len() - k,
    {
        assert(*deps[k as int] == els[k as int]);
        if !has_attribute(deps[k], "flag") || !has_attribute(deps[k], "value") {
            return false;
        }
        k = k + 1;
    }
    true
}

fn pattern_readable(el: &XmlElement) -> (r: bool)
    ensures
        r == pattern_ok(*el),
{
    let deps_fine = match get_child(el, "dependencies") {
        Some(d) => deps_readable(d),
        None => true,
    };
    let files_fine = match get_child(el, "files") {
        Some(f) => files_readable(f),
        None => true,
    };
    deps_fine && files_fine
}

fn patterns_readable(el: &XmlElement) -> (r: bool)
    ensures
        r == patterns_ok(*el),
{
    let ps = get_children_r(el, "pattern");
    let ghost els = ps@.map_values(|x: &XmlElement| *x);
    let mut k: usize = 0;
    while k < ps.len()
        invariant
            els == ps@.map_values(|x: &XmlElement| *x),
            els == xml::descendants_named(*el, "pattern"@),
            k <= ps.len(),
            forall|i: int| 0 <= i < k ==> pattern_ok(#[trigger] els[i]),
        decreases ps.len() - k,
    {
        assert(*ps[k as int] == els[k as int]);
        if !pattern_readable(ps[k]) {
            return false;
        }
        k = k + 1;
    }
    true
}

fn plugin_readable(el: &XmlElement) -> (r: bool)
    ensures
        r == plugin_ok(*el),
{
    let name_fine = has_attribute(el, "name");
    let image_fine = match get_child(el, "image") {
        Some(x) => has_attribute(x, "path"),
        None => true,
    };
    let type_fine = match get_child(el, "typeDescriptor") {
        Some(x) => match get_child(x, "type") {
            Some(z) => has_attribute(z, "name"),
            None => true,
        },
        None => true,
    };
    let files_fine = match get_child(el, "files") {
        Some(f) => files_readable(f),
        None => true,
    };
    let flags_fine = match get_child(el, "conditionFlags") {
        Some(f) => cflags_readable(f),
        None => true,
    };
    name_fine && image_fine && type_fine && files_fine && flags_fine
}

fn group_readable(el: &XmlElement) -> (r: bool)
    ensures
        r == group_ok(*el),
{
    if !has_attribute(el, "name") || !has_attribute(el, "type") {
        return false;
    }
    let ps = get_children_r(el, "plugin");
    let ghost els = ps@.map_values(|x: &XmlElement| *x);
    let mut k: usize = 0;
    while k < ps.len()
        invariant
            els == ps@.map_values(|x: &XmlElement| *x),
            els == xml::descendants_named(*el, "plugin"@),
            k <= ps.len(),
            forall|i: int| 0 <= i < k ==> plugin_ok(#[trigger] els[i]),
        decreases ps.len() - k,
    {
        assert(*ps[k as int] == els[k as int]);
        if !plugin_readable(ps[k]) {
            return false;
        }
        k = k + 1;
    }
    true
}

fn step_readable(el: &XmlElement) -> (r: bool)
    ensures
        r == step_ok(*el),
{
    if !has_attribute(el, "name") {
        return false;
    }
    let visible_fine = match get_child(el, "visible") {
        Some(x) => deps_readable(x),
        None => true,
    };
    if !visible_fine {
        return false;
    }
    let gs = get_children_r(el, "group");
    let ghost els = gs@.map_values(|x: &XmlElement| *x);
    let mut k: usize = 0;
    while k < gs.len()
        invariant
            els == gs@.map_values(|x: &XmlElement| *x),
            els == xml::descendants_named(*el, "group"@),
            k <= gs.len(),
            forall|i: int| 0 <= i < k ==> group_ok(#[trigger] els[i]),
        decreases gs.len() - k,
    {
        assert(*gs[k as int] == els[k as int]);
        if !group_readable(gs[k]) {
            return false;
        }
        k = k + 1;
    }
    true
}

/// Can the installer configuration be read from this document? It can when every
/// attribute that the reader looks up is present.
pub fn config_readable(raw: &XmlElement) -> (r: bool)
    ensures
        r == config_ok(*raw),
{
    let root = xml::next(raw);
    let req_fine = match get_child(root, "requiredInstallFiles") {
        Some(x) => files_readable(x),
        None => true,
    };
    let cond_fine = match get_child(root, "conditionalFileInstalls") {
        Some(x) => patterns_readable(x),
        None => true,
    };
    if !req_fine || !cond_fine {
        return false;
    }
    let steps = get_children_r(root, "installStep");
    let ghost els = steps@.map_values(|x: &XmlElement| *x);
    let mut k: usize = 0;
    while k < steps.len()
        invariant
            els == steps@.map_values(|x: &XmlElement| *x),
            els == xml::descendants_named(*root, "installStep"@),
            *root == xml::config_root(*raw),
            k <= steps.len(),
            forall|i: int| 0 <= i < k ==> step_ok(#[trigger] els[i]),
        decreases steps.len() - k,
    {
        assert(*steps[k as int] == els[k as int]);
        if !step_readable(steps[k]) {
            return false;
        }
        k = k + 1;
    }
    true
}


// ---------------------------------------------------------------------------
// Flags, options and what installing them does
// ---------------------------------------------------------------------------

/// A flag with this name and value is among `v`.
pub open spec fn flag_in(v: Seq<ConditionFlag>, f: ConditionFlag) -> bool {
    exists|i: int| 0 <= i < v.len() && (#[trigger] v[i]).name@ == f.name@ && v[i].value@ == f.value@
}

/// Every dependency is among the flags.
pub open spec fn all_in(deps: Seq<ConditionFlag>, flags: Seq<ConditionFlag>) -> bool {
    forall|i: int| 0 <= i < deps.len() ==> flag_in(flags, #[trigger] deps[i])
}

/// Some dependency is among the flags.
pub open spec fn any_in(deps: Seq<ConditionFlag>, flags: Seq<ConditionFlag>) -> bool {
    exists|i: int| 0 <= i < deps.len() && flag_in(flags, #[trigger] deps[i])
}

/// The pattern applies under `flags`: all its dependencies for the `And` operator, any of
/// them otherwise.
pub open spec fn pattern_holds(p: Pattern, flags: Seq<ConditionFlag>) -> bool {
    if p.oper@ == "And"@ || p.oper@ == "and"@ {
        all_in(p.deps@, flags)
    } else {
        any_in(p.deps@, flags)
    }
}

/// When a non-empty list of dependencies is all among the flags, some of it is.
pub proof fn law_all_implies_any(deps: Seq<ConditionFlag>, flags: Seq<ConditionFlag>)
    requires
        deps.len() > 0,
        all_in(deps, flags),
    ensures
        any_in(deps, flags),
{
    assert(flag_in(flags, deps[0]));
}

/// After the flags of the selected options are added (what `FomodGroup::get_flags` does),
/// every flag of every selected option is among the flags, so a pattern that depends on all
/// the flags of one selected option applies.
pub proof fn law_selected_flags_found(
    plugins: Seq<FomodPlugin>,
    index: Seq<usize>,
    before: Seq<ConditionFlag>,
    after: Seq<ConditionFlag>,
)
    requires
        forall|j: int| 0 <= j < index.len() ==> (#[trigger] index[j]) < plugins.len(),
        after.map_values(|f: ConditionFlag| flag_view(f)) == before.map_values(
            |f: ConditionFlag| flag_view(f),
        ) + selected_flags(plugins, index),
    ensures
        forall|j: int| 0 <= j < index.len() ==> all_in(plugins[#[trigger] index[j] as int].c_flags@, after),
{
    let va = after.map_values(|f: ConditionFlag| flag_view(f));
    let vb = before.map_values(|f: ConditionFlag| flag_view(f));
    let sel = selected_flags(plugins, index);
    assert(va.len() == after.len() && vb.len() == before.len());
    assert forall|j: int| 0 <= j < index.len() implies all_in(plugins[#[trigger] index[j] as int].c_flags@, after) by {
        let cf = plugins[index[j] as int].c_flags@;
        assert forall|k: int| 0 <= k < cf.len() implies flag_in(after, #[trigger] cf[k]) by {
            lemma_selected_holds(plugins, index, j, k);
            let q = choose|q: int| 0 <= q < sel.len() && sel[q] == flag_view(cf[k]);
            let pos = before.len() + q;
            assert(va[pos] == (vb + sel)[pos]);
            assert(va[pos] == flag_view(after[pos]));
            assert(after[pos].name@ == cf[k].name@ && after[pos].value@ == cf[k].value@);
        }
    }
}

proof fn lemma_selected_holds(plugins: Seq<FomodPlugin>, index: Seq<usize>, j: int, k: int)
    requires
        forall|i: int| 0 <= i < index.len() ==> (#[trigger] index[i]) < plugins.len(),
        0 <= j < index.len(),
        0 <= k < plugins[index[j] as int].c_flags@.len(),
    ensures
        exists|q: int|
            0 <= q < selected_flags(plugins, index).len() && selected_flags(plugins, index)[q]
                == flag_view(plugins[index[j] as int].c_flags@[k]),
    decreases index.len(),
{
    let prev = selected_flags(plugins, index.drop_last());
    let blk = plugins[index.last() as int].c_flags@.map_values(|f: ConditionFlag| flag_view(f));
    let sel = selected_flags(plugins, index);
    assert(sel == prev + blk);
    if j == index.len() - 1 {
        let q = prev.len() + k;
        assert(sel[q] == blk[k]);
    } else {
        assert(index.drop_last()[j] == index[j]);
        lemma_selected_holds(plugins, index.drop_last(), j, k);
        let q = choose|q: int| 0 <= q < prev.len() && prev[q] == flag_view(plugins[index[j] as int].c_flags@[k]);
        assert(sel[q] == prev[q]);
    }
}

/// A flag as its name and value.
pub open spec fn flag_view(f: ConditionFlag) -> (Seq<char>, Seq<char>) {
    (f.name@, f.value@)
}

/// What installing a file does: a file move (`true`) or a folder move (`false`), from and to.
pub open spec fn op_view(o: FileOp) -> (bool, Seq<char>, Seq<char>) {
    match o {
        FileOp::File { source, destination } => (true, source@, destination@),
        FileOp::Folder { source, destination } => (false, source@, destination@),
    }
}

/// The moves that installing the files `v` makes, in order; entries that are neither a
/// `file` nor a `folder` make none.
pub open spec fn file_ops(v: Seq<FomodFile>) -> Seq<(bool, Seq<char>, Seq<char>)>
    decreases v.len(),
{
    if v.len() == 0 {
        Seq::empty()
    } else {
        let f = v.last();
        if f.ftype@ == "file"@ {
            file_ops(v.drop_last()).push((true, f.source@, f.destination@))
        } else if f.ftype@ == "folder"@ {
            file_ops(v.drop_last()).push((false, f.source@, f.destination@))
        } else {
            file_ops(v.drop_last())
        }
    }
}

/// The moves for the options at the positions `index`, in that order.
pub open spec fn selected_ops(plugins: Seq<FomodPlugin>, index: Seq<usize>) -> Seq<(bool, Seq<char>, Seq<char>)>
    decreases index.len(),
{
    if index.len() == 0 {
        Seq::empty()
    } else {
        selected_ops(plugins, index.drop_last()) + file_ops(plugins[index.last() as int].files@)
    }
}

/// The moves for the patterns that apply under `flags`, in order.
pub open spec fn pattern_ops(v: Seq<Pattern>, flags: Seq<ConditionFlag>) -> Seq<(bool, Seq<char>, Seq<char>)>
    decreases v.len(),
{
    if v.len() == 0 {
        Seq::empty()
    } else if pattern_holds(v.last(), flags) {
        pattern_ops(v.drop_last(), flags) + file_ops(v.last().files@)
    } else {
        pattern_ops(v.drop_last(), flags)
    }
}

/// The flags set by the options at the positions `index`, in that order.
pub open spec fn selected_flags(plugins: Seq<FomodPlugin>, index: Seq<usize>) -> Seq<(Seq<char>, Seq<char>)>
    decreases index.len(),
{
    if index.len() == 0 {
        Seq::empty()
    } else {
        selected_flags(plugins, index.drop_last()) + plugins[index.last() as int].c_flags@.map_values(
            |f: ConditionFlag| flag_view(f),
        )
    }
}

/// `s` with a space before every ASCII capital.
pub open spec fn spaced(s: Seq<char>) -> Seq<char>
    decreases s.len(),
{
    if s.len() == 0 {
        s
    } else if 'A' <= s.last() && s.last() <= 'Z' {
        spaced(s.drop_last()) + seq![' ', s.last()]
    } else {
        spaced(s.drop_last()).push(s.last())
    }
}

fn ops_of_files(files: &Vec<FomodFile>, out: &mut Vec<FileOp>)
    ensures
        final(out)@.map_values(|o: FileOp| op_view(o)) == old(out)@.map_values(|o: FileOp| op_view(o))
            + file_ops(files@),
{
    let ghost start = out@.map_values(|o: FileOp| op_view(o));
    let mut k: usize = 0;
    while k < files.len()
        invariant
            k <= files.len(),
            out@.map_values(|o: FileOp| op_view(o)) == start + file_ops(files@.take(k as int)),
        decreases files.len() - k,
    {
        assert(files@.take(k + 1).drop_last() =~= files@.take(k as int));
        let f = &files[k];
        let ghost before = out@.map_values(|o: FileOp| op_view(o));
        assert(files@.take(k + 1).last() == files@[k as int]);
        if str_eq(f.ftype.as_str(), "file") {
            let op = FileOp::File { source: f.source.clone(), destination: f.destination.clone() };
            assert(op_view(op) == (true, f.source@, f.destination@));
            out.push(op);
            assert(out@.map_values(|o: FileOp| op_view(o)) =~= before.push(op_view(op)));
        } else if str_eq(f.ftype.as_str(), "folder") {
            let op = FileOp::Folder { source: f.source.clone(), destination: f.destination.clone() };
            assert(op_view(op) == (false, f.source@, f.destination@));
            out.push(op);
            assert(out@.map_values(|o: FileOp| op_view(o)) =~= before.push(op_view(op)));
        }
        assert(out@.map_values(|o: FileOp| op_view(o)) =~= start + file_ops(files@.take(k + 1)));
        k = k + 1;
    }
    assert(files@.take(files.len() as int) =~= files@);
}

impl ConditionFlag {
    /// An unnamed flag without value.
    pub fn new() -> (r: Self)
        ensures
            r.name@.len() == 0 && r.value@.len() == 0,
    {
        ConditionFlag { name: String::new(), value: String::new() }
    }

    /// A flag with the name and value of `flag` is among `vec`.
    pub fn check_fvec(vec: &Vec<Self>, flag: &Self) -> (r: bool)
        ensures
            r == flag_in(vec@, *flag),
    {
        let mut k: usize = 0;
        while k < vec.len()
            invariant
                k <= vec.len(),
                forall|i: int| 0 <= i < k ==> !((#[trigger] vec@[i]).name@ == flag.name@ && vec@[i].value@ == flag.value@),
            decreases vec.len() - k,
        {
            if vec[k].name == flag.name && vec[k].value == flag.value {
                return true;
            }
            k = k + 1;
        }
        false
    }

    /// Every dependency is among the flags.
    pub fn check_all(deps: &Vec<Self>, flags: &Vec<Self>) -> (r: bool)
        ensures
            r == all_in(deps@, flags@),
    {
        let mut k: usize = 0;
        while k < deps.len()
            invariant
                k <= deps.len(),
                forall|i: int| 0 <= i < k ==> flag_in(flags@, #[trigger] deps@[i]),
            decreases deps.len() - k,
        {
            if !Self::check_fvec(flags, &deps[k]) {
                return false;
            }
            k = k + 1;
        }
        true
    }

    /// Some dependency is among the flags.
    pub fn check_one(deps: &Vec<Self>, flags: &Vec<Self>) -> (r: bool)
        ensures
            r == any_in(deps@, flags@),
    {
        let mut k: usize = 0;
        while k < deps.len()
            invariant
                k <= deps.len(),
                forall|i: int| 0 <= i < k ==> !flag_in(flags@, #[trigger] deps@[i]),
            decreases deps.len() - k,
        {
            if Self::check_fvec(flags, &deps[k]) {
                return true;
            }
            k = k + 1;
        }
        false
    }
}

impl Pattern {
    /// A pattern without dependencies or files.
    pub fn new() -> (r: Self)
        ensures
            r.deps@.len() == 0 && r.oper@.len() == 0 && r.files@.len() == 0,
    {
        Pattern { deps: Vec::new(), oper: String::new(), files: Vec::new() }
    }

    /// Does the pattern apply under `flags`?
    pub fn check(&self, flags: &Vec<ConditionFlag>) -> (r: bool)
        ensures
            r == pattern_holds(*self, flags@),
    {
        if str_eq(self.oper.as_str(), "And") || str_eq(self.oper.as_str(), "and") {
            ConditionFlag::check_all(&self.deps, flags)
        } else {
            ConditionFlag::check_one(&self.deps, flags)
        }
    }

    /// The moves that installing the pattern's files makes.
    pub fn install_files(&self) -> (r: Vec<FileOp>)
        ensures
            r@.map_values(|o: FileOp| op_view(o)) == file_ops(self.files@),
    {
        let mut out: Vec<FileOp> = Vec::new();
        ops_of_files(&self.files, &mut out);
        assert(Seq::<(bool, Seq<char>, Seq<char>)>::empty() + file_ops(self.files@) =~= file_ops(self.files@));
        assert(out@.map_values(|o: FileOp| op_view(o)) =~= file_ops(self.files@));
        out
    }
}

impl FomodFile {
    /// The move that installing this entry makes, if it is a file or a folder.
    pub fn install(&self) -> (r: Option<FileOp>)
        ensures
            r is None <==> file_ops(seq![*self]).len() == 0,
            r matches Some(o) ==> file_ops(seq![*self]) == seq![op_view(o)],
    {
        assert(seq![*self].drop_last() =~= Seq::<FomodFile>::empty());
        assert(seq![*self].last() == *self);
        assert(file_ops(Seq::<FomodFile>::empty()) == Seq::<(bool, Seq<char>, Seq<char>)>::empty());
        if str_eq(self.ftype.as_str(), "file") {
            Some(FileOp::File { source: self.source.clone(), destination: self.destination.clone() })
        } else if str_eq(self.ftype.as_str(), "folder") {
            Some(FileOp::Folder { source: self.source.clone(), destination: self.destination.clone() })
        } else {
            None
        }
    }
}

impl FomodPlugin {
    /// An option without name, picture, description, files or flags.
    pub fn new() -> (r: Self)
        ensures
            r.name@.len() == 0,
            r.image@.len() == 0,
            r.description@.len() == 0,
            r.type_desc@.len() == 0,
            r.files@.len() == 0,
            r.c_flags@.len() == 0,
    {
        FomodPlugin {
            name: String::new(),
            image: Path::new(),
            description: String::new(),
            type_desc: String::new(),
            files: Vec::new(),
            c_flags: Vec::new(),
        }
    }

    /// The moves that installing this option makes.
    pub fn install_files(&self) -> (r: Vec<FileOp>)
        ensures
            r@.map_values(|o: FileOp| op_view(o)) == file_ops(self.files@),
    {
        let mut out: Vec<FileOp> = Vec::new();
        ops_of_files(&self.files, &mut out);
        assert(Seq::<(bool, Seq<char>, Seq<char>)>::empty() + file_ops(self.files@) =~= file_ops(self.files@));
        assert(out@.map_values(|o: FileOp| op_view(o)) =~= file_ops(self.files@));
        out
    }
}

impl FomodConfig {
    /// An empty configuration.
    pub fn new() -> (r: Self)
        ensures
            r.modname@.len() == 0,
            r.req_files is None,
            r.installsteps@.len() == 0,
            r.conditionals is None,
    {
        FomodConfig { modname: String::new(), req_files: None, installsteps: Vec::new(), conditionals: None }
    }

    /// The moves that installing the required files makes.
    pub fn install_req_files(&self) -> (r: Vec<FileOp>)
        ensures
            r@.map_values(|o: FileOp| op_view(o)) == match self.req_files {
                Some(x) => file_ops(x@),
                None => Seq::empty(),
            },
    {
        let mut out: Vec<FileOp> = Vec::new();
        match &self.req_files {
            Some(x) => {
                ops_of_files(x, &mut out);
                assert(Seq::<(bool, Seq<char>, Seq<char>)>::empty() + file_ops(x@) =~= file_ops(x@));
            },
            None => {},
        }
        assert(out@.map_values(|o: FileOp| op_view(o)) =~= match self.req_files {
            Some(x) => file_ops(x@),
            None => Seq::empty(),
        });
        out
    }

    /// The moves that installing the conditional files makes under `flags`: those of every
    /// pattern that applies, in order.
    pub fn install_conditionals(&self, flags: Vec<ConditionFlag>) -> (r: Vec<FileOp>)
        ensures
            r@.map_values(|o: FileOp| op_view(o)) == match self.conditionals {
                Some(x) => pattern_ops(x@, flags@),
                None => Seq::empty(),
            },
    {
        let mut out: Vec<FileOp> = Vec::new();
        match &self.conditionals {
            Some(x) => {
                let mut k: usize = 0;
                while k < x.len()
                    invariant
                        k <= x.len(),
                        out@.map_values(|o: FileOp| op_view(o)) == pattern_ops(x@.take(k as int), flags@),
                    decreases x.len() - k,
                {
                    assert(x@.take(k + 1).drop_last() =~= x@.take(k as int));
                    if x[k].check(&flags) {
                        ops_of_files(&x[k].files, &mut out);
                    }
                    k = k + 1;
                }
                assert(x@.take(x.len() as int) =~= x@);
            },
            None => {
                assert(out@.map_values(|o: FileOp| op_view(o)) =~= Seq::empty());
            },
        }
        out
    }
}

impl FomodInstallStep {
    /// An unnamed step without groups, always shown.
    pub fn new() -> (r: Self)
        ensures
            r.name@.len() == 0 && r.deps is None && r.groups@.len() == 0,
    {
        FomodInstallStep { name: String::new(), deps: None, groups: Vec::new() }
    }

    /// Is the step shown under `flags`? It is when it has no visibility condition or all of
    /// its dependencies are among the flags.
    pub fn check(&self, flags: &Vec<ConditionFlag>) -> (r: bool)
        ensures
            r == match self.deps {
                Some(x) => all_in(x@, flags@),
                None => true,
            },
    {
        match &self.deps {
            Some(x) => {
                return ConditionFlag::check_all(&x, flags);
            },
            None => {
                return true;
            },
        }
    }
}

impl FomodGroup {
    /// The names of the group's options, in order.
    pub fn plugins(&self) -> (r: Vec<String>)
        ensures
            r.len() == self.plugins.len(),
            forall|i: int| 0 <= i < r.len() ==> (#[trigger] r[i])@ == self.plugins@[i].name@,
    {
        let mut v: Vec<String> = Vec::new();
        let mut k: usize = 0;
        while k < self.plugins.len()
            invariant
                k <= self.plugins.len(),
                v.len() == k,
                forall|i: int| 0 <= i < k ==> (#[trigger] v[i])@ == self.plugins@[i].name@,
            decreases self.plugins.len() - k,
        {
            v.push(self.plugins[k].name.clone());
            k = k + 1;
        }
        v
    }

    /// The type and description of an option, separated by a blank line.
    pub fn showinfo(&self, index: usize) -> (r: String)
        requires
            index < self.plugins.len(),
        ensures
            r@ == self.plugins@[index as int].type_desc@ + "\n\n"@ + self.plugins@[index as int].description@,
    {
        let mut s = String::new();
        push_all(&mut s, self.plugins[index].type_desc.as_str());
        push_all(&mut s, "\n\n");
        push_all(&mut s, self.plugins[index].description.as_str());
        s
    }

    /// The heading of the group: its name and its rule, words of the rule spaced apart.
    pub fn title(&self) -> (r: String)
        ensures
            r@ == "  "@ + self.name@ + ", "@ + spaced(self.gtype@) + "  "@,
    {
        let g = chars_of(self.gtype.as_str());
        let mut sp = String::new();
        let mut k: usize = 0;
        while k < g.len()
            invariant
                g@ == self.gtype@,
                k <= g.len(),
                sp@ == spaced(self.gtype@.take(k as int)),
            decreases g.len() - k,
        {
            assert(self.gtype@.take(k + 1).drop_last() =~= self.gtype@.take(k as int));
            if 'A' <= g[k] && g[k] <= 'Z' {
                push_char(&mut sp, ' ');
            }
            push_char(&mut sp, g[k]);
            assert(sp@ =~= spaced(self.gtype@.take(k + 1)));
            k = k + 1;
        }
        assert(self.gtype@.take(g.len() as int) =~= self.gtype@);
        let mut s = String::new();
        push_all(&mut s, "  ");
        push_all(&mut s, self.name.as_str());
        push_all(&mut s, ", ");
        push_all(&mut s, sp.as_str());
        push_all(&mut s, "  ");
        s
    }

    /// The picture of an option.
    pub fn image(&self, index: usize) -> (r: String)
        requires
            index < self.plugins.len(),
        ensures
            r@ == self.plugins@[index as int].image@,
    {
        self.plugins[index].image.as_str()
    }

    /// The moves that installing the options at the positions `index` makes, in that order.
    pub fn install_plugins(&self, index: &Vec<usize>) -> (r: Vec<FileOp>)
        requires
            forall|j: int| 0 <= j < index.len() ==> (#[trigger] index@[j]) < self.plugins.len(),
        ensures
            r@.map_values(|o: FileOp| op_view(o)) == selected_ops(self.plugins@, index@),
    {
        let mut out: Vec<FileOp> = Vec::new();
        let mut k: usize = 0;
        while k < index.len()
            invariant
                k <= index.len(),
                forall|j: int| 0 <= j < index.len() ==> (#[trigger] index@[j]) < self.plugins.len(),
                out@.map_values(|o: FileOp| op_view(o)) == selected_ops(self.plugins@, index@.take(k as int)),
            decreases index.len() - k,
        {
            assert(index@.take(k + 1).drop_last() =~= index@.take(k as int));
            let i = index[k];
            ops_of_files(&self.plugins[i].files, &mut out);
            k = k + 1;
        }
        assert(index@.take(index.len() as int) =~= index@);
        out
    }

    /// Adds the flags that the options at the positions `index` set, in that order.
    pub fn get_flags(&self, index: &Vec<usize>, flags_v: &mut Vec<ConditionFlag>)
        requires
            forall|j: int| 0 <= j < index.len() ==> (#[trigger] index@[j]) < self.plugins.len(),
        ensures
            final(flags_v)@.map_values(|f: ConditionFlag| flag_view(f)) == old(flags_v)@.map_values(
                |f: ConditionFlag| flag_view(f),
            ) + selected_flags(self.plugins@, index@),
    {
        let ghost start = flags_v@.map_values(|f: ConditionFlag| flag_view(f));
        let mut k: usize = 0;
        while k < index.len()
            invariant
                k <= index.len(),
                forall|j: int| 0 <= j < index.len() ==> (#[trigger] index@[j]) < self.plugins.len(),
                flags_v@.map_values(|f: ConditionFlag| flag_view(f)) == start + selected_flags(
                    self.plugins@,
                    index@.take(k as int),
                ),
            decreases index.len() - k,
        {
            assert(index@.take(k + 1).drop_last() =~= index@.take(k as int));
            let i = index[k];
            let flags = &self.plugins[i].c_flags;
            let ghost before = flags_v@.map_values(|f: ConditionFlag| flag_view(f));
            let mut j: usize = 0;
            while j < flags.len()
                invariant
                    j <= flags.len(),
                    flags_v@.map_values(|f: ConditionFlag| flag_view(f)) == before + flags@.take(j as int).map_values(
                        |f: ConditionFlag| flag_view(f),
                    ),
                decreases flags.len() - j,
            {
                let ghost inner = flags_v@.map_values(|f: ConditionFlag| flag_view(f));
                let nf = ConditionFlag { name: flags[j].name.clone(), value: flags[j].value.clone() };
                assert(flag_view(nf) == flag_view(flags@[j as int]));
                flags_v.push(nf);
                assert(flags_v@.map_values(|f: ConditionFlag| flag_view(f)) =~= inner.push(flag_view(nf)));
                assert(flags@.take(j + 1).map_values(|f: ConditionFlag| flag_view(f)) =~= flags@.take(j as int).map_values(
                    |f: ConditionFlag| flag_view(f),
                ).push(flag_view(flags@[j as int])));
                assert(flags_v@.map_values(|f: ConditionFlag| flag_view(f)) =~= before + flags@.take(j + 1).map_values(
                    |f: ConditionFlag| flag_view(f),
                ));
                j = j + 1;
            }
            assert(flags@.take(flags.len() as int) =~= flags@);
            assert(flags_v@.map_values(|f: ConditionFlag| flag_view(f)) =~= start + selected_flags(
                self.plugins@,
                index@.take(k + 1),
            ));
            k = k + 1;
        }
        assert(index@.take(index.len() as int) =~= index@);
    }
}

} // verus!
