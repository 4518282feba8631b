//! RSS feeds as JSON: an XML element tree turned into nested JSON objects,
//! with the items of the feed's channel listed under `feeds`.
use vstd::prelude::*;
use crate::json::{JsonValue, find_key};
use crate::json;
use crate::patches::pairs_to_json;
use crate::patches;
use crate::request;
use crate::text;

verus! {

/// An XML element: its name, its attributes and its child nodes.
pub struct XmlElement {
    pub name: String,
    pub attributes: Vec<(String, String)>,
    pub children: Vec<XmlNode>,
}

/// A child node of an XML element. Comments and processing instructions are
/// `Other`.
pub enum XmlNode {
    Element(XmlElement),
    Text(String),
    CData(String),
    Other,
}

/// The text of the text and CDATA nodes among `children`, joined in order, or
/// `None` when there is none.
pub open spec fn nodes_text(children: Seq<XmlNode>) -> Option<Seq<char>>
    decreases children.len(),
{
    if children.len() == 0 {
        None
    } else {
        let before = nodes_text(children.drop_last());
        let piece = match children.last() {
            XmlNode::Text(t) => Some(t@),
            XmlNode::CData(t) => Some(t@),
            _ => None,
        };
        match piece {
            Some(p) => match before {
                Some(b) => Some(b + p),
                None => Some(p),
            },
            None => before,
        }
    }
}

/// Whether an element has text that is not all white space.
pub open spec fn has_text(e: XmlElement) -> bool {
    match nodes_text(e.children@) {
        Some(t) => text::trim(t).len() > 0,
        None => false,
    }
}

/// Whether an element has a child element.
pub open spec fn has_child_elements(e: XmlElement) -> bool {
    exists|i: int| 0 <= i < e.children@.len() && (#[trigger] e.children@[i]) is Element
}

/// The JSON form of an element. An element with neither attributes nor child
/// elements, but with text, is that text. Otherwise it is an object holding
/// its attributes under `@attributes`, each child element under the child's
/// name (children of the same name gathered into an array, in order), and its
/// text under `text`.
pub open spec fn xml_json(e: XmlElement) -> json::Json
    decreases e,
{
    if e.attributes@.len() == 0 && !has_child_elements(e) && has_text(e) {
        json::Json::Str(nodes_text(e.children@)->Some_0)
    } else {
        let with_attrs = if e.attributes@.len() > 0 {
            seq![("@attributes"@, patches::pairs_json(patches::pairs_view(e.attributes@)))]
        } else {
            Seq::empty()
        };
        let with_children = group_children(with_attrs, e.children@);
        if has_text(e) {
            json::Json::Object(json::obj_insert(with_children, "text"@, json::Json::Str(nodes_text(e.children@)->Some_0)))
        } else {
            json::Json::Object(with_children)
        }
    }
}

/// The entries `m` after adding each child element of `children`, in order,
/// under its name: the first under a name stands alone, later ones gather
/// with it into an array.
pub open spec fn group_children(m: Seq<(Seq<char>, json::Json)>, children: Seq<XmlNode>) -> Seq<(Seq<char>, json::Json)>
    decreases children,
{
    if children.len() == 0 {
        m
    } else {
        let acc = group_children(m, children.drop_last());
        match children[children.len() - 1] {
            XmlNode::Element(c) => {
                let cj = xml_json(c);
                let j = json::key_pos(acc, c.name@);
                if j < acc.len() {
                    match acc[j as int].1 {
                        json::Json::Array(a) => acc.update(j as int, (acc[j as int].0, json::Json::Array(a.push(cj)))),
                        v => acc.update(j as int, (acc[j as int].0, json::Json::Array(seq![v, cj]))),
                    }
                } else {
                    acc.push((c.name@, cj))
                }
            },
            _ => acc,
        }
    }
}

/// The text of an element's text and CDATA children, joined.
pub fn element_text(e: &XmlElement) -> (r: Option<String>)
    ensures
        match r {
            Some(t) => nodes_text(e.children@) == Some(t@),
            None => nodes_text(e.children@) is None,
        },
{
    let mut r: Option<String> = None;
    let mut i: usize = 0;
    while i < e.children.len()
        invariant
            i <= e.children.len(),
            match r {
                Some(t) => nodes_text(e.children@.take(i as int)) == Some(t@),
                None => nodes_text(e.children@.take(i as int)) is None,
            },
        decreases e.children.len() - i,
    {
        assert(e.children@.take(i + 1).drop_last() =~= e.children@.take(i as int));
        let piece = match &e.children[i] {
            XmlNode::Text(t) => Some(t),
            XmlNode::CData(t) => Some(t),
            _ => None,
        };
        match piece {
            Some(p) => {
                match r {
                    Some(mut t) => {
                        t.append(p.as_str());
                        r = Some(t);
                    },
                    None => {
                        r = Some(p.clone());
                    },
                }
            },
            None => {},
        }
        i = i + 1;
    }
    assert(e.children@.take(e.children.len() as int) =~= e.children@);
    r
}

/// Whether the text has a character that is not white space.
fn has_visible_text(t: &String) -> (r: bool)
    ensures
        r == (text::trim(t@).len() > 0),
{
    let c = text::chars_of(t.as_str());
    let (a, b) = text::trim_bounds(&c, 0, c.len());
    assert(c@.subrange(0, c.len() as int) =~= t@);
    a < b
}

/// Adds the JSON form `cj` of a child element named `name` to `m`.
fn add_child(m: &mut Vec<(String, JsonValue)>, name: &String, cj: JsonValue)
    ensures
        json::entries_view(final(m)@) == ({
            let acc = json::entries_view(old(m)@);
            let j = json::key_pos(acc, name@);
            if j < acc.len() {
                match acc[j as int].1 {
                    json::Json::Array(a) => acc.update(j as int, (acc[j as int].0, json::Json::Array(a.push(cj@)))),
                    v => acc.update(j as int, (acc[j as int].0, json::Json::Array(seq![v, cj@]))),
                }
            } else {
                acc.push((name@, cj@))
            }
        }),
{
    let ghost acc = json::entries_view(m@);
    let ghost cv = cj@;
    let j = find_key(m, name.as_str());
    if j < m.len() {
        let (k, v) = m.remove(j);
        match v {
            JsonValue::Array(a0) => {
                let mut a = a0;
                let ghost av = json::values_view(a@);
                a.push(cj);
                assert(json::values_view(a@) =~= av.push(cv));
                let ghost nv = (k@, JsonValue::Array(a)@);
                m.insert(j, (k, JsonValue::Array(a)));
                assert(json::entries_view(m@) =~= acc.update(j as int, nv));
            },
            other => {
                let ghost ov = other@;
                let mut a: Vec<JsonValue> = Vec::new();
                a.push(other);
                a.push(cj);
                assert(json::values_view(a@) =~= seq![ov, cv]);
                let ghost nv = (k@, JsonValue::Array(a)@);
                m.insert(j, (k, JsonValue::Array(a)));
                assert(json::entries_view(m@) =~= acc.update(j as int, nv));
            },
        }
    } else {
        m.push((name.clone(), cj));
        assert(json::entries_view(m@) =~= acc.push((name@, cv)));
    }
}

/// The JSON form of an element (see `xml_json`).
pub fn xml_to_json(e: &XmlElement) -> (r: JsonValue)
    ensures
        r@ == xml_json(*e),
    decreases e,
{
    let t = element_text(e);
    let text_shown = match &t {
        Some(s) => has_visible_text(s),
        None => false,
    };
    let has_attrs = e.attributes.len() > 0;
    let mut has_children = false;
    let mut i: usize = 0;
    while i < e.children.len()
        invariant
            i <= e.children.len(),
            has_children == exists|k: int| 0 <= k < i && (#[trigger] e.children@[k]) is Element,
        decreases e.children.len() - i,
    {
        match &e.children[i] {
            XmlNode::Element(_) => {
                has_children = true;
            },
            _ => {},
        }
        i = i + 1;
    }
    if !has_attrs && !has_children && text_shown {
        match t {
            Some(s) => {
                return JsonValue::Str(s);
            },
            None => {},
        }
    }
    let mut m: Vec<(String, JsonValue)> = Vec::new();
    if has_attrs {
        m.push(("@attributes".to_owned(), pairs_to_json(&e.attributes)));
    }
    let ghost start = json::entries_view(m@);
    assert(start =~= (if e.attributes@.len() > 0 {
        seq![("@attributes"@, patches::pairs_json(patches::pairs_view(e.attributes@)))]
    } else {
        Seq::empty()
    }));
    let mut n: usize = 0;
    assert(e.children@.take(0) =~= Seq::<XmlNode>::empty());
    while n < e.children.len()
        invariant
            n <= e.children.len(),
            json::entries_view(m@) == group_children(start, e.children@.take(n as int)),
        decreases e.children.len() - n,
    {
        assert(e.children@.take(n + 1).drop_last() =~= e.children@.take(n as int));
        assert(e.children@.take(n + 1)[n as int] == e.children@[n as int]);
        match &e.children[n] {
            XmlNode::Element(c) => {
                proof {
                    assert(decreases_to!(*e => e.children));
                    assert(decreases_to!(*e => e.children@));
                    assert(decreases_to!(*e => e.children@[n as int]));
                    assert(decreases_to!(*e => e.children@[n as int]->Element_0));
                }
                let cj = xml_to_json(c);
                add_child(&mut m, &c.name, cj);
            },
            _ => {},
        }
        n = n + 1;
    }
    assert(e.children@.take(e.children.len() as int) =~= e.children@);
    if text_shown {
        match t {
            Some(s) => {
                let ghost before = json::entries_view(m@);
                let j = find_key(&m, "text");
                let sv = JsonValue::Str(s);
                let ghost nv = sv@;
                if j < m.len() {
                    m.remove(j);
                    m.insert(j, ("text".to_owned(), sv));
                    assert(json::entries_view(m@) =~= before.update(j as int, ("text"@, nv)));
                } else {
                    m.push(("text".to_owned(), sv));
                    assert(json::entries_view(m@) =~= before.push(("text"@, nv)));
                }
            },
            None => {},
        }
    }
    JsonValue::Object(m)
}


/// The first child element of `children` named `name`.
pub open spec fn first_child_named(children: Seq<XmlNode>, name: Seq<char>) -> Option<XmlElement>
    decreases children.len(),
{
    if children.len() == 0 {
        None
    } else {
        match children[0] {
            XmlNode::Element(c) => if c.name@ == name {
                Some(c)
            } else {
                first_child_named(children.drop_first(), name)
            },
            _ => first_child_named(children.drop_first(), name),
        }
    }
}

/// The JSON forms of the child elements named `item`, in order.
pub open spec fn item_jsons(children: Seq<XmlNode>) -> Seq<json::Json>
    decreases children.len(),
{
    if children.len() == 0 {
        Seq::empty()
    } else {
        let before = item_jsons(children.drop_last());
        match children.last() {
            XmlNode::Element(c) => if c.name@ == "item"@ {
                before.push(xml_json(c))
            } else {
                before
            },
            _ => before,
        }
    }
}

/// The items of a feed: those of the root's first `channel` child, or none.
pub open spec fn feed_items(root: XmlElement) -> Seq<json::Json> {
    match first_child_named(root.children@, "channel"@) {
        Some(c) => item_jsons(c.children@),
        None => Seq::empty(),
    }
}

/// The JSON form of a feed: the JSON form of its root element, with the feed's
/// items as an array under `feeds` when that form is an object.
pub open spec fn channel_json(root: XmlElement) -> json::Json {
    match xml_json(root) {
        json::Json::Object(m) => json::Json::Object(json::obj_insert(m, "feeds"@, json::Json::Array(feed_items(root)))),
        other => other,
    }
}

/// The first child element of `children` named `name`.
fn find_child<'a>(children: &'a Vec<XmlNode>, name: &str) -> (r: Option<&'a XmlElement>)
    ensures
        match r {
            Some(c) => first_child_named(children@, name@) == Some(*c),
            None => first_child_named(children@, name@) is None,
        },
{
    let key = name.to_owned();
    let mut i: usize = 0;
    assert(children@.skip(0) =~= children@);
    while i < children.len()
        invariant
            i <= children.len(),
            key@ == name@,
            first_child_named(children@, name@) == first_child_named(children@.skip(i as int), name@),
        decreases children.len() - i,
    {
        assert(children@.skip(i as int)[0] == children@[i as int]);
        assert(children@.skip(i as int).drop_first() =~= children@.skip(i + 1));
        match &children[i] {
            XmlNode::Element(c) => {
                if c.name == key {
                    return Some(c);
                }
            },
            _ => {},
        }
        i = i + 1;
    }
    None
}

/// The JSON forms of the child elements named `item`.
fn items_to_json(children: &Vec<XmlNode>) -> (r: Vec<JsonValue>)
    ensures
        json::values_view(r@) == item_jsons(children@),
{
    let item = "item".to_owned();
    let mut out: Vec<JsonValue> = Vec::new();
    let mut i: usize = 0;
    assert(children@.take(0) =~= Seq::<XmlNode>::empty());
    assert(json::values_view(out@) =~= Seq::<json::Json>::empty());
    while i < children.len()
        invariant
            i <= children.len(),
            item@ == "item"@,
            json::values_view(out@) == item_jsons(children@.take(i as int)),
        decreases children.len() - i,
    {
        assert(children@.take(i + 1).drop_last() =~= children@.take(i as int));
        assert(children@.take(i + 1).last() == children@[i as int]);
        match &children[i] {
            XmlNode::Element(c) => {
                if c.name == item {
                    let ghost before = json::values_view(out@);
                    let cj = xml_to_json(c);
                    let ghost cv = cj@;
                    out.push(cj);
                    assert(json::values_view(out@) =~= before.push(cv));
                }
            },
            _ => {},
        }
        i = i + 1;
    }
    assert(children@.take(children.len() as int) =~= children@);
    out
}

/// Turns a parsed feed into JSON (see `channel_json`): the root element's JSON
/// form, with the items of its `channel` under `feeds`.
pub fn channel_to_json(root: &XmlElement) -> (r: JsonValue)
    ensures
        r@ == channel_json(*root),
{
    let root_json = xml_to_json(root);
    let feeds = match find_child(&root.children, "channel") {
        Some(c) => items_to_json(&c.children),
        None => {
            let e: Vec<JsonValue> = Vec::new();
            assert(json::values_view(e@) =~= Seq::<json::Json>::empty());
            e
        },
    };
    match root_json {
        JsonValue::Object(m0) => {
            let mut m = m0;
            let ghost before = json::entries_view(m@);
            let fv = JsonValue::Array(feeds);
            let ghost nv = fv@;
            let j = find_key(&m, "feeds");
            if j < m.len() {
                m.remove(j);
                m.insert(j, ("feeds".to_owned(), fv));
                assert(json::entries_view(m@) =~= before.update(j as int, ("feeds"@, nv)));
            } else {
                m.push(("feeds".to_owned(), fv));
                assert(json::entries_view(m@) =~= before.push(("feeds"@, nv)));
            }
            JsonValue::Object(m)
        },
        other => other,
    }
}

/// `xmltree::Element`, a parsed XML element.
#[verifier::external_type_specification]
#[verifier::external_body]
pub struct ExXmlTreeElement(xmltree::Element);

/// The XML that the `rss` crate writes out for the channel it reads from a
/// feed text (`rss::Channel::read_from`, then the channel's `Display`);
/// `None` when it cannot read the text.
pub uninterp spec fn rss_xml(content: Seq<char>) -> Option<Seq<char>>;

/// The element tree that `xmltree::Element::parse` reads from an XML text, as
/// this crate's element; `None` when it cannot parse the text.
pub uninterp spec fn xml_element_tree(xml: Seq<char>) -> Option<XmlElement>;

/// An `xmltree` element as this crate's element, node for node: name,
/// attributes (in the key order of the crate's sorted attribute map), and
/// children, with comments and processing instructions as `Other`.
#[verifier::external_body]
fn tree_element(e: &xmltree::Element) -> XmlElement {
    XmlElement {
        name: e.name.clone(),
        attributes: e.attributes.iter().map(|(k, v)| (k.clone(), v.clone())).collect(),
        children: e.children.iter().map(|n| match n {
            xmltree::XMLNode::Element(c) => XmlNode::Element(tree_element(c)),
            xmltree::XMLNode::Text(t) => XmlNode::Text(t.clone()),
            xmltree::XMLNode::CData(t) => XmlNode::CData(t.clone()),
            xmltree::XMLNode::Comment(_) => XmlNode::Other,
            xmltree::XMLNode::ProcessingInstruction(_, _) => XmlNode::Other,
        }).collect(),
    }
}

/// Calls `rss::Channel::read_from` on the feed text and writes the channel
/// out (`Display`). Claimed: it succeeds exactly when `rss_xml` of the text
/// is some text, and then gives that text (both steps depend on their input
/// alone). The error message, the crate's own, is not stated.
#[verifier::external_body]
fn rss_channel_xml(content: &str) -> (r: Result<String, String>)
    ensures
        r is Ok == rss_xml(content@) is Some,
        r matches Ok(x) ==> rss_xml(content@) == Some(x@),
{
    match rss::Channel::read_from(content.as_bytes()) {
        Ok(channel) => Ok(channel.to_string()),
        Err(e) => Err(e.to_string()),
    }
}

/// Calls `xmltree::Element::parse` on an XML text and converts the tree
/// (`tree_element`). Claimed: it succeeds exactly when `xml_element_tree` of
/// the text is some element, and then gives that element (the parse depends
/// on its input alone, and attributes are kept in a sorted map). The error
/// message, the crate's own, is not stated.
#[verifier::external_body]
fn parse_xml_tree(xml: &str) -> (r: Result<XmlElement, String>)
    ensures
        r is Ok == xml_element_tree(xml@) is Some,
        r matches Ok(t) ==> xml_element_tree(xml@) == Some(t),
{
    match xmltree::Element::parse(xml.as_bytes()) {
        Ok(root) => Ok(tree_element(&root)),
        Err(e) => Err(e.to_string()),
    }
}

/// The JSON of a fetched RSS feed, from the answer's status (and its text, as
/// written in messages) and body: a failed status is refused with the body; a
/// body that `rss` cannot read is refused; otherwise the XML of the channel is
/// parsed and turned into JSON (see `channel_json`), or refused when it
/// cannot be parsed.
pub fn rss_feed_json(status: u16, status_text: &str, content: &str) -> (r: Result<JsonValue, String>)
    ensures
        !request::is_success(status) ==> (r matches Err(m) && m@ == "Request failed with status "@ + status_text@
            + ". Response body:\n"@ + content@),
        request::is_success(status) ==> match rss_xml(content@) {
            None => (r matches Err(m) && "Failed to parse RSS feed: "@.is_prefix_of(m@)),
            Some(x) => match xml_element_tree(x) {
                Some(t) => (r matches Ok(v) && v@ == channel_json(t)),
                None => (r matches Err(m) && "Failed to convert to JSON: Failed to parse XML: "@.is_prefix_of(m@)),
            },
        },
{
    if !(200 <= status && status <= 299) {
        let a = text::concat("Request failed with status ", status_text);
        let b = text::concat(a.as_str(), ". Response body:\n");
        return Err(text::concat(b.as_str(), content));
    }
    match rss_channel_xml(content) {
        Err(e) => Err(text::concat("Failed to parse RSS feed: ", e.as_str())),
        Ok(xml) => match parse_xml_tree(xml.as_str()) {
            Ok(root) => Ok(channel_to_json(&root)),
            Err(e) => Err(text::concat("Failed to convert to JSON: Failed to parse XML: ", e.as_str())),
        },
    }
}

/// An element with visible text that becomes an object (it has attributes or
/// child elements) keeps its text under `text`; an element with visible text
/// and neither is that text.
pub proof fn law_element_text_is_kept(e: XmlElement)
    requires
        has_text(e),
    ensures
        e.attributes@.len() > 0 || has_child_elements(e) ==> (xml_json(e) is Object && json::lookup(
            xml_json(e)->Object_0,
            "text"@,
        ) == Some(json::Json::Str(nodes_text(e.children@)->Some_0))),
        e.attributes@.len() == 0 && !has_child_elements(e) ==> xml_json(e) == json::Json::Str(
            nodes_text(e.children@)->Some_0,
        ),
{
    if e.attributes@.len() > 0 || has_child_elements(e) {
        let with_attrs = if e.attributes@.len() > 0 {
            seq![("@attributes"@, patches::pairs_json(patches::pairs_view(e.attributes@)))]
        } else {
            Seq::empty()
        };
        let with_children = group_children(with_attrs, e.children@);
        json::lemma_lookup_obj_insert(
            with_children,
            "text"@,
            json::Json::Str(nodes_text(e.children@)->Some_0),
            "text"@,
        );
    }
}

} // verus!
