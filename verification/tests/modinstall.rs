use rmm2::modinstall::utils::xml::{XmlElement, XmlNode};
use rmm2::modinstall::utils::FileOp;
use rmm2::modinstall::{
    check_if_fomod, fix_case, fix_case_path, install_fomod_files, install_order, parse_usize, picks_valid,
    read_fomod_plugin, read_install_step, select_kind, selection, step_ops, FomodGroup, FomodPlugin, SelectKind,
};
use rmm2::paths::Path;

fn el(name: &str, attrs: &[(&str, &str)], children: Vec<XmlNode>) -> XmlElement {
    XmlElement {
        name: name.to_string(),
        attributes: attrs.iter().map(|(k, v)| (k.to_string(), v.to_string())).collect(),
        children,
    }
}

#[test]
fn fix_case_capitalizes() {
    assert_eq!(fix_case("tEXTURES"), "Textures");
    assert_eq!(fix_case(""), "");
    assert_eq!(fix_case("a"), "A");
}

#[test]
fn fix_case_path_capitalizes_each_item() {
    let p = fix_case_path(Path::from("textures/ARMOR//iron"));
    assert_eq!(p.as_str(), "/Textures/Armor/Iron");
}

#[test]
fn check_if_fomod_looks_into_candidates() {
    let contents = vec!["fomod".to_string(), "Data".to_string()];
    let yes = vec![Some(vec!["info.xml".to_string(), "ModuleConfig.xml".to_string()]), None];
    assert!(check_if_fomod(&contents, &yes));
    let no = vec![Some(vec!["info.xml".to_string()]), None];
    assert!(!check_if_fomod(&contents, &no));
}

#[test]
fn reads_option_with_later_children_winning() {
    let plugin = el(
        "plugin",
        &[("name", "Opt")],
        vec![
            XmlNode::Element(el("description", &[], vec![XmlNode::Text("first".to_string())])),
            XmlNode::Element(el("description", &[], vec![])),
            XmlNode::Element(el("image", &[("path", "a.png")], vec![])),
            XmlNode::Element(el("image", &[("path", "b.png")], vec![])),
            XmlNode::Element(el(
                "files",
                &[],
                vec![XmlNode::Element(el("file", &[("source", "x\\y.esp"), ("destination", "data/MESHES")], vec![]))],
            )),
        ],
    );
    let p = read_fomod_plugin(&plugin);
    assert_eq!(p.name, "Opt");
    assert_eq!(p.description, "first");
    assert_eq!(p.image, "b.png");
    assert_eq!(p.type_desc, "");
    assert_eq!(p.files.len(), 1);
    assert_eq!(p.files[0].source.as_str(), "x/y.esp");
    assert_eq!(p.files[0].destination.as_str(), "/Data/Meshes");
    assert_eq!(p.files[0].ftype, "file");
}

#[test]
fn reads_groups_of_a_step() {
    let step = el(
        "installStep",
        &[("name", "S")],
        vec![XmlNode::Element(el(
            "optionalFileGroups",
            &[],
            vec![XmlNode::Element(el(
                "group",
                &[("name", "G"), ("type", "SelectAny")],
                vec![XmlNode::Element(el(
                    "plugins",
                    &[],
                    vec![
                        XmlNode::Element(el("plugin", &[("name", "One")], vec![])),
                        XmlNode::Element(el("plugin", &[("name", "Two")], vec![])),
                    ],
                ))],
            ))],
        ))],
    );
    let groups = read_install_step(&step);
    assert_eq!(groups.len(), 1);
    assert_eq!(groups[0].name, "G");
    assert_eq!(groups[0].gtype, "SelectAny");
    assert_eq!(groups[0].plugins.len(), 2);
    assert_eq!(groups[0].plugins[1].name, "Two");
}

#[test]
fn select_kinds() {
    assert_eq!(select_kind("SelectExactlyOne"), SelectKind::ExactlyOne);
    assert_eq!(select_kind("selectany"), SelectKind::Any);
    assert_eq!(select_kind("SelectAtLeastOne"), SelectKind::AtLeastOne);
    assert_eq!(select_kind("SelectAll"), SelectKind::All);
}

#[test]
fn install_order_by_kind() {
    assert_eq!(install_order(SelectKind::ExactlyOne, &vec![2, 0], 3), vec![2]);
    assert_eq!(install_order(SelectKind::Any, &vec![2, 0], 3), vec![2, 0]);
    assert_eq!(install_order(SelectKind::All, &vec![], 3), vec![0, 1, 2]);
}

#[test]
fn install_fomod_files_plans_moves() {
    let mut plugin = FomodPlugin::new();
    plugin.files.push(rmm2::modinstall::FomodFile {
        source: Path::from("a.esp"),
        destination: Path::from("/A.esp"),
        ftype: "file".to_string(),
    });
    plugin.files.push(rmm2::modinstall::FomodFile {
        source: Path::from("tex"),
        destination: Path::from("/Textures"),
        ftype: "folder".to_string(),
    });
    plugin.files.push(rmm2::modinstall::FomodFile {
        source: Path::from("z"),
        destination: Path::from("/Z"),
        ftype: "other".to_string(),
    });
    let ops = install_fomod_files(&plugin, &Path::from("/src"), &Path::from("/dst"));
    assert_eq!(ops.len(), 2);
    match &ops[0] {
        FileOp::File { source, destination } => {
            assert_eq!(source.as_str(), "/src/a.esp");
            assert_eq!(destination.as_str(), "/dst/A.esp");
        }
        _ => panic!("expected a file"),
    }
    match &ops[1] {
        FileOp::Folder { source, destination } => {
            assert_eq!(source.as_str(), "/src/tex");
            assert_eq!(destination.as_str(), "/dst/Textures");
        }
        _ => panic!("expected a folder"),
    }
    let g = FomodGroup::new();
    assert!(g.plugins.is_empty());
}

#[test]
fn parse_usize_values() {
    assert_eq!(parse_usize("42"), Some(42));
    assert_eq!(parse_usize("+7"), Some(7));
    assert_eq!(parse_usize("0"), Some(0));
    assert_eq!(parse_usize(""), None);
    assert_eq!(parse_usize("+"), None);
    assert_eq!(parse_usize("4a"), None);
    assert_eq!(parse_usize("-1"), None);
    assert_eq!(parse_usize("99999999999999999999999"), None);
    assert_eq!(parse_usize(&usize::MAX.to_string()), Some(usize::MAX));
}

#[test]
fn selection_counts_from_zero() {
    assert!(picks_valid(" 1  3\n2 "));
    assert_eq!(selection(" 1  3\n2 "), vec![0, 2, 1]);
    assert!(!picks_valid("0"));
    assert!(!picks_valid("x"));
    assert!(picks_valid(""));
    assert_eq!(selection(""), Vec::<usize>::new());
}

fn one_file_option(name: &str) -> FomodPlugin {
    let mut plugin = FomodPlugin::new();
    plugin.files.push(rmm2::modinstall::FomodFile {
        source: Path::from(name),
        destination: Path::from(name),
        ftype: "file".to_string(),
    });
    plugin
}

fn target_of(op: &FileOp) -> String {
    match op {
        FileOp::File { destination, .. } => destination.as_str(),
        FileOp::Folder { destination, .. } => destination.as_str(),
    }
}

#[test]
fn step_ops_follow_the_selection_rule() {
    let mut group = FomodGroup { name: "g".to_string(), gtype: "SelectAny".to_string(), plugins: Vec::new() };
    for n in ["a", "b", "c"] {
        group.plugins.push(one_file_option(n));
    }
    let ops = step_ops(&group, &vec![2, 0], &Path::from("/src"), &Path::from("/dst"));
    assert_eq!(ops.iter().map(target_of).collect::<Vec<_>>(), vec!["/dst/c", "/dst/a"]);
    group.gtype = "SelectExactlyOne".to_string();
    let ops = step_ops(&group, &vec![1, 2], &Path::from("/src"), &Path::from("/dst"));
    assert_eq!(ops.iter().map(target_of).collect::<Vec<_>>(), vec!["/dst/b"]);
    group.gtype = "SelectAll".to_string();
    let ops = step_ops(&group, &vec![], &Path::from("/src"), &Path::from("/dst"));
    assert_eq!(ops.iter().map(target_of).collect::<Vec<_>>(), vec!["/dst/a", "/dst/b", "/dst/c"]);
}
