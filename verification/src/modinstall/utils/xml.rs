use vstd::prelude::*;
use crate::text::{push_all, str_eq, string_from_str};

verus! {

broadcast use vstd::string::group_string_axioms;

/// An element of an XML document: its name, attributes and children.
#[derive(Debug)]
pub struct XmlElement {
    pub name: String,
    pub attributes: Vec<(String, String)>,
    pub children: Vec<XmlNode>,
}

/// A node below an XML element.
#[derive(Debug)]
pub enum XmlNode {
    Element(XmlElement),
    Text(String),
    CData(String),
    Comment(String),
    ProcessingInstruction(String, Option<String>),
}

/// The element type of the xmltree crate, which `parse_xml` converts.
#[verifier::external_type_specification]
#[verifier::external_body]
pub struct ExXmltreeElement(xmltree::Element);

/// The document that xmltree reads from the bytes of an XML file, as the library's element,
/// or `None` when they are not a well-formed document.
pub uninterp spec fn parsed_xml(bytes: Seq<u8>) -> Option<XmlElement>;

/// Parses an XML document with `xmltree::Element::parse` (comments kept, attributes in
/// document order) and converts its root element one for one: `None` when xmltree reports
/// an error. The contract names the result `parsed_xml` of the bytes.
#[verifier::external_body]
pub fn parse_xml(bytes: &[u8]) -> (r: Option<XmlElement>)
    ensures
        r == parsed_xml(bytes@),
{
    match xmltree::Element::parse(bytes) {
        Ok(e) => Some(element_of(&e)),
        Err(_) => None,
    }
}

/// An xmltree element as the library's: its name, its attributes and its children, each
/// child converted the same way, one arm per kind of node. Only `parse_xml` calls it.
#[verifier::external_body]
fn element_of(e: &xmltree::Element) -> XmlElement {
    XmlElement {
        name: e.name.clone(),
        attributes: e.attributes.iter().map(|(k, v)| (k.clone(), v.clone())).collect(),
        children: e.children.iter().map(|n| match n {
            xmltree::XMLNode::Element(c) => XmlNode::Element(element_of(c)),
            xmltree::XMLNode::Text(t) => XmlNode::Text(t.clone()),
            xmltree::XMLNode::CData(t) => XmlNode::CData(t.clone()),
            xmltree::XMLNode::Comment(t) => XmlNode::Comment(t.clone()),
            xmltree::XMLNode::ProcessingInstruction(a, b) => XmlNode::ProcessingInstruction(a.clone(), b.clone()),
        }).collect(),
    }
}

/// The value of the first attribute named `key`, if any.
pub open spec fn attr_lookup(attrs: Seq<(String, String)>, key: Seq<char>) -> Option<Seq<char>>
    decreases attrs.len(),
{
    if attrs.len() == 0 {
        None
    } else if attrs[0].0@ == key {
        Some(attrs[0].1@)
    } else {
        attr_lookup(attrs.drop_first(), key)
    }
}

/// The element has an attribute named `key`.
pub open spec fn has_attr(e: XmlElement, key: Seq<char>) -> bool {
    attr_lookup(e.attributes@, key) is Some
}

/// The value of attribute `key` of `e`, or the empty text when it has none.
pub open spec fn attr_or_empty(e: XmlElement, key: Seq<char>) -> Seq<char> {
    match attr_lookup(e.attributes@, key) {
        Some(v) => v,
        None => Seq::<char>::empty(),
    }
}

/// The elements among `nodes`, in order.
pub open spec fn elements_of(nodes: Seq<XmlNode>) -> Seq<XmlElement>
    decreases nodes.len(),
{
    if nodes.len() == 0 {
        Seq::empty()
    } else {
        match nodes.last() {
            XmlNode::Element(c) => elements_of(nodes.drop_last()).push(c),
            _ => elements_of(nodes.drop_last()),
        }
    }
}

/// The child elements of `e`, in order.
pub open spec fn child_elements(e: XmlElement) -> Seq<XmlElement> {
    elements_of(e.children@)
}

/// The first element of `v` named `name`.
pub open spec fn first_named(v: Seq<XmlElement>, name: Seq<char>) -> Option<XmlElement>
    decreases v.len(),
{
    if v.len() == 0 {
        None
    } else if v[0].name@ == name {
        Some(v[0])
    } else {
        first_named(v.drop_first(), name)
    }
}

/// The first child element of `e` named `name` (`Element::get_child`).
pub open spec fn child_named(e: XmlElement, name: Seq<char>) -> Option<XmlElement> {
    first_named(child_elements(e), name)
}

/// The text and CDATA pieces among `nodes`, in order.
pub open spec fn text_pieces(nodes: Seq<XmlNode>) -> Seq<Seq<char>>
    decreases nodes.len(),
{
    if nodes.len() == 0 {
        Seq::empty()
    } else {
        match nodes.last() {
            XmlNode::Text(t) => text_pieces(nodes.drop_last()).push(t@),
            XmlNode::CData(t) => text_pieces(nodes.drop_last()).push(t@),
            _ => text_pieces(nodes.drop_last()),
        }
    }
}

/// The text of `e`: its text and CDATA children concatenated, or `None` when it has none
/// (`Element::get_text`).
pub open spec fn text_of(e: XmlElement) -> Option<Seq<char>> {
    let p = text_pieces(e.children@);
    if p.len() == 0 {
        None
    } else {
        Some(p.flatten())
    }
}

/// The text of `e`, or the empty text when it has none.
pub open spec fn text_or_empty(e: XmlElement) -> Seq<char> {
    match text_of(e) {
        Some(t) => t,
        None => Seq::<char>::empty(),
    }
}

/// The elements named `name` below `e` (not `e` itself), in document order.
pub open spec fn descendants_named(e: XmlElement, name: Seq<char>) -> Seq<XmlElement>
    decreases e,
{
    descendants_in(e.children@, name)
}

/// The elements named `name` among and below `nodes`, in document order.
pub open spec fn descendants_in(nodes: Seq<XmlNode>, name: Seq<char>) -> Seq<XmlElement>
    decreases nodes,
{
    if nodes.len() == 0 {
        Seq::empty()
    } else {
        descendants_in(nodes.drop_last(), name) + match nodes.last() {
            XmlNode::Element(c) => (if c.name@ == name {
                seq![c]
            } else {
                Seq::empty()
            }) + descendants_named(c, name),
            _ => Seq::empty(),
        }
    }
}

/// The element that holds an installer configuration: the first `config` child of `e`
/// when it has one, `e` itself otherwise.
pub open spec fn config_root(e: XmlElement) -> XmlElement {
    match child_named(e, "config"@) {
        Some(c) => c,
        None => e,
    }
}

/// The value of attribute `key`, if the element has one.
pub fn attribute(e: &XmlElement, key: &str) -> (r: Option<String>)
    ensures
        r matches Some(v) ==> attr_lookup(e.attributes@, key@) == Some(v@),
        r is None ==> attr_lookup(e.attributes@, key@) is None,
{
    let mut k: usize = 0;
    assert(e.attributes@.skip(0) =~= e.attributes@);
    while k < e.attributes.len()
        invariant
            k <= e.attributes.len(),
            attr_lookup(e.attributes@, key@) == attr_lookup(e.attributes@.skip(k as int), key@),
        decreases e.attributes.len() - k,
    {
        let ghost rest = e.attributes@.skip(k as int);
        assert(rest[0] == e.attributes@[k as int]);
        assert(rest.drop_first() =~= e.attributes@.skip(k + 1));
        if str_eq(e.attributes[k].0.as_str(), key) {
            return Some(e.attributes[k].1.clone());
        }
        k = k + 1;
    }
    None
}

/// The value of attribute `key`, or the empty text when the element has none.
pub fn attr(e: &XmlElement, key: &str) -> (r: String)
    ensures
        r@ == attr_or_empty(*e, key@),
{
    match attribute(e, key) {
        Some(v) => v,
        None => String::new(),
    }
}

/// The value of attribute `key`, which the element must have.
pub fn required_attr(e: &XmlElement, key: &str) -> (r: String)
    requires
        has_attr(*e, key@),
    ensures
        attr_lookup(e.attributes@, key@) == Some(r@),
{
    match attribute(e, key) {
        Some(v) => v,
        None => String::new(),
    }
}

/// The child elements of `e`, in order.
pub fn get_children_all(e: &XmlElement) -> (r: Vec<&XmlElement>)
    ensures
        r@.map_values(|x: &XmlElement| *x) == child_elements(*e),
{
    let mut v: Vec<&XmlElement> = Vec::new();
    let mut k: usize = 0;
    while k < e.children.len()
        invariant
            k <= e.children.len(),
            v@.map_values(|x: &XmlElement| *x) == elements_of(e.children@.take(k as int)),
        decreases e.children.len() - k,
    {
        assert(e.children@.take(k + 1).drop_last() =~= e.children@.take(k as int));
        match &e.children[k] {
            XmlNode::Element(c) => {
                v.push(c);
                assert(v@.map_values(|x: &XmlElement| *x) =~= elements_of(e.children@.take(k as int)).push(*c));
            },
            _ => {},
        }
        k = k + 1;
    }
    assert(e.children@.take(e.children.len() as int) =~= e.children@);
    v
}

/// The first child element of `e` named `name` (`Element::get_child`).
pub fn get_child<'a>(e: &'a XmlElement, name: &str) -> (r: Option<&'a XmlElement>)
    ensures
        r matches Some(c) ==> child_named(*e, name@) == Some(*c),
        r is None ==> child_named(*e, name@) is None,
{
    let all = get_children_all(e);
    let ghost s = all@.map_values(|x: &XmlElement| *x);
    let mut k: usize = 0;
    assert(s.skip(0) =~= s);
    while k < all.len()
        invariant
            k <= all.len(),
            s == all@.map_values(|x: &XmlElement| *x),
            s == child_elements(*e),
            first_named(s, name@) == first_named(s.skip(k as int), name@),
        decreases all.len() - k,
    {
        let ghost rest = s.skip(k as int);
        assert(rest[0] == *all@[k as int]);
        assert(rest.drop_first() =~= s.skip(k + 1));
        if str_eq(all[k].name.as_str(), name) {
            return Some(all[k]);
        }
        k = k + 1;
    }
    None
}

/// The text of `e`: its text and CDATA children concatenated, if it has any
/// (`Element::get_text`).
pub fn get_text(e: &XmlElement) -> (r: Option<String>)
    ensures
        r matches Some(t) ==> text_of(*e) == Some(t@),
        r is None ==> text_of(*e) is None,
{
    let mut s = String::new();
    let mut found = false;
    let mut k: usize = 0;
    while k < e.children.len()
        invariant
            k <= e.children.len(),
            found == (text_pieces(e.children@.take(k as int)).len() > 0),
            s@ == text_pieces(e.children@.take(k as int)).flatten(),
        decreases e.children.len() - k,
    {
        let ghost before = text_pieces(e.children@.take(k as int));
        assert(e.children@.take(k + 1).drop_last() =~= e.children@.take(k as int));
        match &e.children[k] {
            XmlNode::Text(t) => {
                push_all(&mut s, t.as_str());
                found = true;
                proof {
                    before.lemma_flatten_push(t@);
                }
            },
            XmlNode::CData(t) => {
                push_all(&mut s, t.as_str());
                found = true;
                proof {
                    before.lemma_flatten_push(t@);
                }
            },
            _ => {},
        }
        k = k + 1;
    }
    assert(e.children@.take(e.children.len() as int) =~= e.children@);
    if found {
        Some(s)
    } else {
        None
    }
}

/// The text of `e`, or the empty text when it has none.
pub fn text_or_default(e: &XmlElement) -> (r: String)
    ensures
        r@ == text_or_empty(*e),
{
    match get_text(e) {
        Some(t) => t,
        None => String::new(),
    }
}

/// Appends the elements named `name` below `e` to `out`, in document order.
fn collect_named<'a>(e: &'a XmlElement, name: &str, out: &mut Vec<&'a XmlElement>)
    ensures
        final(out)@.map_values(|x: &XmlElement| *x) == old(out)@.map_values(|x: &XmlElement| *x)
            + descendants_named(*e, name@),
    decreases e,
{
    let ghost start = out@.map_values(|x: &XmlElement| *x);
    let mut k: usize = 0;
    while k < e.children.len()
        invariant
            k <= e.children.len(),
            out@.map_values(|x: &XmlElement| *x) == start + descendants_in(
                e.children@.take(k as int),
                name@,
            ),
        decreases e.children.len() - k,
    {
        let ghost before = out@.map_values(|x: &XmlElement| *x);
        assert(e.children@.take(k + 1).drop_last() =~= e.children@.take(k as int));
        match &e.children[k] {
            XmlNode::Element(c) => {
                assert(decreases_to!(e => e.children@[k as int]));
                let ghost mid_start = before;
                if str_eq(c.name.as_str(), name) {
                    out.push(c);
                    assert(out@.map_values(|x: &XmlElement| *x) =~= before + seq![*c]);
                } else {
                    assert(out@.map_values(|x: &XmlElement| *x) =~= before + Seq::<XmlElement>::empty());
                }
                let ghost mid = out@.map_values(|x: &XmlElement| *x);
                collect_named(c, name, out);
                assert(out@.map_values(|x: &XmlElement| *x) =~= start + descendants_in(
                    e.children@.take(k + 1),
                    name@,
                ));
            },
            _ => {
                assert(descendants_in(e.children@.take(k + 1), name@) =~= descendants_in(
                    e.children@.take(k as int),
                    name@,
                ));
            },
        }
        k = k + 1;
    }
    assert(e.children@.take(e.children.len() as int) =~= e.children@);
}

/// The elements named `name` below `e` (not `e` itself), in document order.
pub fn get_children_r<'a>(e: &'a XmlElement, name: &str) -> (r: Vec<&'a XmlElement>)
    ensures
        r@.map_values(|x: &XmlElement| *x) == descendants_named(*e, name@),
{
    let mut v: Vec<&XmlElement> = Vec::new();
    collect_named(e, name, &mut v);
    assert(Seq::<XmlElement>::empty() + descendants_named(*e, name@) =~= descendants_named(*e, name@));
    assert(v@.map_values(|x: &XmlElement| *x) =~= descendants_named(*e, name@));
    v
}

/// The element that holds the installer configuration of a document.
pub fn next(e: &XmlElement) -> (r: &XmlElement)
    ensures
        *r == config_root(*e),
{
    match get_child(e, "config") {
        Some(c) => c,
        None => e,
    }
}

} // verus!
