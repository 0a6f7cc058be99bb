use rmm2::modinstall::utils::install_instructions_from;
use rmm2::modinstall::utils::xml::parse_xml;
use rmm2::modinstall::utils::dir::{check_if_fomod, find_installfile, fix_case, mod_root_step};
use rmm2::modinstall::utils::xml::{XmlElement, XmlNode};
use rmm2::modinstall::utils::{config_readable, read_install_instructions, ConditionFlag, FileOp, Pattern};
use rmm2::paths::Path;

fn el(name: &str, attrs: &[(&str, &str)], children: Vec<XmlNode>) -> XmlElement {
    XmlElement {
        name: name.to_string(),
        attributes: attrs.iter().map(|(k, v)| (k.to_string(), v.to_string())).collect(),
        children,
    }
}

fn node(e: XmlElement) -> XmlNode {
    XmlNode::Element(e)
}

fn txt(s: &str) -> XmlNode {
    XmlNode::Text(s.to_string())
}

fn flag(n: &str, v: &str) -> ConditionFlag {
    ConditionFlag { name: n.to_string(), value: v.to_string() }
}

fn sample() -> XmlElement {
    el(
        "config",
        &[],
        vec![
            node(el("moduleName", &[], vec![txt("Cool "), XmlNode::CData("Mod".to_string())])),
            node(el(
                "requiredInstallFiles",
                &[],
                vec![node(el("file", &[("source", "Core\\Main.esp"), ("destination", "Main.esp")], vec![]))],
            )),
            node(el(
                "installSteps",
                &[],
                vec![node(el(
                    "installStep",
                    &[("name", "Options")],
                    vec![node(el(
                        "optionalFileGroups",
                        &[],
                        vec![node(el(
                            "group",
                            &[("name", "Textures"), ("type", "SelectExactlyOne")],
                            vec![node(el(
                                "plugins",
                                &[],
                                vec![
                                    node(el(
                                        "plugin",
                                        &[("name", "High")],
                                        vec![
                                            node(el("description", &[], vec![txt("Big textures")])),
                                            node(el("image", &[("path", "Images\\High.PNG")], vec![])),
                                            node(el(
                                                "files",
                                                &[],
                                                vec![node(el(
                                                    "folder",
                                                    &[("source", "High"), ("destination", "Textures")],
                                                    vec![],
                                                ))],
                                            )),
                                            node(el(
                                                "conditionFlags",
                                                &[],
                                                vec![node(el("flag", &[("name", "tex")], vec![txt("high")]))],
                                            )),
                                            node(el(
                                                "typeDescriptor",
                                                &[],
                                                vec![node(el("type", &[("name", "Recommended")], vec![]))],
                                            )),
                                        ],
                                    )),
                                    node(el("plugin", &[("name", "Low")], vec![])),
                                ],
                            ))],
                        ))],
                    ))],
                ))],
            )),
            node(el(
                "conditionalFileInstalls",
                &[],
                vec![node(el(
                    "patterns",
                    &[],
                    vec![node(el(
                        "pattern",
                        &[],
                        vec![
                            node(el(
                                "dependencies",
                                &[("operator", "And")],
                                vec![node(el("flagDependency", &[("flag", "tex"), ("value", "high")], vec![]))],
                            )),
                            node(el(
                                "files",
                                &[],
                                vec![node(el("file", &[("source", "Extra.esp"), ("destination", "Extra.esp")], vec![]))],
                            )),
                        ],
                    ))],
                ))],
            )),
        ],
    )
}

#[test]
fn reads_module_name_and_steps() {
    let raw = sample();
    assert!(config_readable(&raw));
    let cfg = read_install_instructions(&raw, &Path::from("/mods/cool"), &Path::from("/game/Data"));
    assert_eq!(cfg.modname, "Cool Mod");
    assert_eq!(cfg.installsteps.len(), 1);
    assert_eq!(cfg.installsteps[0].name, "Options");
    let group = &cfg.installsteps[0].groups[0];
    assert_eq!(group.plugins(), vec!["High".to_string(), "Low".to_string()]);
    assert_eq!(group.title(), "  Textures,  Select Exactly One  ");
    assert_eq!(group.showinfo(0), "Recommended\n\nBig textures");
    assert_eq!(group.image(0), "/mods/cool/images/high.png");
    assert_eq!(group.image(1), "");
}

#[test]
fn required_files_are_lower_cased_below_roots() {
    let cfg = read_install_instructions(&sample(), &Path::from("/mods/cool"), &Path::from("/game/Data"));
    let ops = cfg.install_req_files();
    assert_eq!(ops.len(), 1);
    match &ops[0] {
        FileOp::File { source, destination } => {
            assert_eq!(source.as_str(), "/mods/cool/core/main.esp");
            assert_eq!(destination.as_str(), "/game/Data/main.esp");
        }
        _ => panic!("expected a file move"),
    }
}

#[test]
fn selected_options_install_and_set_flags() {
    let cfg = read_install_instructions(&sample(), &Path::from("/m"), &Path::from("/g"));
    let group = &cfg.installsteps[0].groups[0];
    let ops = group.install_plugins(&vec![0]);
    assert_eq!(ops.len(), 1);
    match &ops[0] {
        FileOp::Folder { source, destination } => {
            assert_eq!(source.as_str(), "/m/high");
            assert_eq!(destination.as_str(), "/g/textures");
        }
        _ => panic!("expected a folder move"),
    }
    let mut flags = Vec::new();
    group.get_flags(&vec![0, 1], &mut flags);
    assert_eq!(flags.len(), 1);
    assert_eq!(flags[0].name, "tex");
    assert_eq!(flags[0].value, "high");
    let cond = cfg.install_conditionals(flags);
    assert_eq!(cond.len(), 1);
    let none = cfg.install_conditionals(vec![flag("tex", "low")]);
    assert!(none.is_empty());
}

#[test]
fn missing_attribute_is_not_readable() {
    let raw = el(
        "config",
        &[],
        vec![node(el("installStep", &[], vec![]))],
    );
    assert!(!config_readable(&raw));
}

#[test]
fn config_inside_document_wrapper_is_found() {
    let raw = el("document", &[], vec![node(sample())]);
    assert!(config_readable(&raw));
    let cfg = read_install_instructions(&raw, &Path::from("/m"), &Path::from("/g"));
    assert_eq!(cfg.modname, "Cool Mod");
}

#[test]
fn flag_checks() {
    let flags = vec![flag("a", "1"), flag("b", "2")];
    assert!(ConditionFlag::check_fvec(&flags, &flag("b", "2")));
    assert!(!ConditionFlag::check_fvec(&flags, &flag("b", "3")));
    assert!(ConditionFlag::check_all(&vec![flag("a", "1"), flag("b", "2")], &flags));
    assert!(!ConditionFlag::check_all(&vec![flag("a", "1"), flag("c", "2")], &flags));
    assert!(ConditionFlag::check_one(&vec![flag("x", "1"), flag("b", "2")], &flags));
    assert!(!ConditionFlag::check_one(&vec![], &flags));
    assert!(ConditionFlag::check_all(&vec![], &flags));
}

#[test]
fn pattern_operator_decides() {
    let flags = vec![flag("a", "1")];
    let mut p = Pattern::new();
    p.deps = vec![flag("a", "1"), flag("b", "1")];
    p.oper = "And".to_string();
    assert!(!p.check(&flags));
    p.oper = "Or".to_string();
    assert!(p.check(&flags));
}

#[test]
fn dir_fix_case_lowers() {
    assert_eq!(fix_case("TeXtures/ABC.dds"), "textures/abc.dds");
}

#[test]
fn dir_check_if_fomod_and_installfile() {
    let list = vec!["/m/readme.txt".to_string(), "/m/FOMod/ModuleConfig.xml".to_string()];
    assert!(check_if_fomod(&list));
    assert_eq!(find_installfile(&list).as_str(), "/m/FOMod/ModuleConfig.xml");
    let plain = vec!["/m/textures/a.dds".to_string()];
    assert!(!check_if_fomod(&plain));
    assert_eq!(find_installfile(&plain).as_str(), "");
}

#[test]
fn mod_root_steps() {
    let p = Path::from("/mods/x");
    let (q, done) = mod_root_step(&p, &vec!["a".to_string(), "b".to_string()]);
    assert!(done);
    assert_eq!(q.as_str(), "/mods/x");
    let (q2, done2) = mod_root_step(&p, &vec!["Wrapper".to_string()]);
    assert!(!done2);
    assert_eq!(q2.as_str(), "/mods/x/Wrapper");
    let (q3, done3) = mod_root_step(&q2, &vec!["Textures".to_string()]);
    assert!(done3);
    assert_eq!(q3.as_str(), "/mods/x/Wrapper/Textures");
}

#[test]
fn selected_option_flags_satisfy_their_own_and_pattern() {
    let cfg = read_install_instructions(&sample(), &Path::from("/m"), &Path::from("/g"));
    let group = &cfg.installsteps[0].groups[0];
    let mut flags = vec![flag("other", "x")];
    group.get_flags(&vec![0], &mut flags);
    assert!(!group.plugins[0].c_flags.is_empty());
    assert!(ConditionFlag::check_all(&group.plugins[0].c_flags, &flags));
}

#[test]
fn instructions_from_bytes() {
    let doc = br#"<config><moduleName>Demo</moduleName><requiredInstallFiles><file source="A.esp" destination="A.esp"/></requiredInstallFiles></config>"#;
    let e = parse_xml(doc).expect("well formed");
    assert_eq!(e.name, "config");
    assert_eq!(e.children.len(), 2);
    let c = install_instructions_from(doc, &Path::from("/m"), &Path::from("/g")).expect("readable");
    assert_eq!(c.modname, "Demo");
    assert!(parse_xml(b"<config><open></config>").is_none());
    assert!(install_instructions_from(b"no xml at all", &Path::from("/m"), &Path::from("/g")).is_none());
    let missing = br#"<config><requiredInstallFiles><file destination="A.esp"/></requiredInstallFiles></config>"#;
    assert!(install_instructions_from(missing, &Path::from("/m"), &Path::from("/g")).is_none());
}
