use crate::chars::{norm, normalize, push_all};
use vstd::prelude::*;

verus! {

// --- the document arena ----------------------------------------------------

#[derive(PartialEq, Eq, Structural, Clone, Copy)]
pub enum NodeKind {
    Element,
    Text,
    Other,
}

/// One attribute of an element, as plain characters.
pub struct Attr {
    pub name: Vec<char>,
    pub value: Vec<char>,
}

/// One node of a parsed document.  A document is a `Vec<HtmlNode>` in which
/// every node's children stand at smaller indices than the node itself; the
/// root is the last entry.
pub struct HtmlNode {
    pub kind: NodeKind,
    pub tag: Vec<char>,
    pub attrs: Vec<Attr>,
    pub text: Vec<char>,
    pub children: Vec<usize>,
}

pub open spec fn wf_node(doc: Seq<HtmlNode>, i: int) -> bool {
    forall|k: int|
        0 <= k < doc[i].children@.len() ==> (#[trigger] doc[i].children@[k] as int) < i
}

pub open spec fn wf_doc(doc: Seq<HtmlNode>) -> bool {
    forall|i: int| 0 <= i < doc.len() ==> #[trigger] wf_node(doc, i)
}

pub fn element_node(tag: Vec<char>, attrs: Vec<Attr>, children: Vec<usize>) -> (n: HtmlNode)
    ensures
        n.kind == NodeKind::Element,
        n.tag == tag,
        n.attrs == attrs,
        n.text@.len() == 0,
        n.children == children,
{
    HtmlNode { kind: NodeKind::Element, tag, attrs, text: Vec::new(), children }
}

pub fn text_node(text: Vec<char>) -> (n: HtmlNode)
    ensures
        n.kind == NodeKind::Text,
        n.text == text,
        n.children@.len() == 0,
{
    HtmlNode { kind: NodeKind::Text, tag: Vec::new(), attrs: Vec::new(), text, children: Vec::new() }
}

pub fn attr_pair(name: Vec<char>, value: Vec<char>) -> (a: Attr)
    ensures
        a.name == name,
        a.value == value,
{
    Attr { name, value }
}

pub fn other_node(children: Vec<usize>) -> (n: HtmlNode)
    ensures
        n.kind == NodeKind::Other,
        n.children == children,
        n.text@.len() == 0,
{
    HtmlNode { kind: NodeKind::Other, tag: Vec::new(), attrs: Vec::new(), text: Vec::new(), children }
}

// --- the trusted boundary to the HTML parser --------------------------------

/// Declares `scraper::Node`, one parsed node, for use in signatures.
#[verifier::external_type_specification]
#[verifier::external_body]
pub struct ExScraperNode(scraper::Node);

/// Declares `ego_tree::NodeRef`, a handle on one tree node, for use in
/// signatures.
#[verifier::external_type_specification]
#[verifier::external_body]
#[verifier::reject_recursive_types(T)]
pub struct ExNodeRef<'a, T: 'a>(ego_tree::NodeRef<'a, T>);

/// The arena of plain nodes that parsing an HTML document yields: parsing is
/// a function of the input text alone (html5ever's lenient parse is
/// deterministic, and scraper keeps element attributes in a sorted list), and
/// so is the arena conversion below.
pub uninterp spec fn dom_of(html: Seq<char>) -> Seq<HtmlNode>;

/// Relies on `ego_tree::NodeRef::children` and `value`, and on `scraper`'s
/// `Node`, `Element::name` and `Element::attrs`: appends the node's subtree to
/// the arena, children before parents, so every child index is smaller than
/// its parent's, and returns the node's own index, the largest so far.  The
/// recursive helper of `parse_html`'s body.
#[verifier::external_body]
fn convert_node(node: ego_tree::NodeRef<'_, scraper::Node>, arena: &mut Vec<HtmlNode>) -> (r:
    usize)
    ensures
        old(arena)@.len() < final(arena)@.len(),
        r == final(arena)@.len() - 1,
        final(arena)@.subrange(0, old(arena)@.len() as int) == old(arena)@,
        forall|i: int|
            old(arena)@.len() <= i < final(arena)@.len() ==> wf_node(final(arena)@, i),
{
    let kids: Vec<usize> = node.children().map(|c| convert_node(c, arena)).collect();
    let item = match node.value() {
        scraper::Node::Element(e) => element_node(
            e.name().chars().collect(),
            e.attrs().map(|(k, v)| attr_pair(k.chars().collect(), v.chars().collect())).collect(),
            kids,
        ),
        scraper::Node::Text(t) => text_node(t.text.chars().collect()),
        _ => other_node(kids),
    };
    arena.push(item);
    arena.len() - 1
}

/// Parse an HTML document into an arena of plain nodes; the root of the
/// parsed tree is the arena's last entry.  Relies on
/// `scraper::Html::parse_document` (lenient parsing that never fails) and on
/// `ego_tree::Tree::root` through `scraper::Html`'s public `tree` field; the
/// conversion is `convert_node` above, whose child-before-parent shape this
/// contract repeats.
#[verifier::external_body]
pub fn parse_html(html: &str) -> (doc: Vec<HtmlNode>)
    ensures
        doc@ == dom_of(html@),
        wf_doc(doc@),
        doc@.len() >= 1,
{
    let parsed = scraper::Html::parse_document(html);
    let mut arena: Vec<HtmlNode> = Vec::new();
    convert_node(parsed.tree.root(), &mut arena);
    arena
}

// --- text extraction ----------------------------------------------------------

/// The concatenated text below node `i`, counting the first `k` children:
/// text children contribute their text, element children their own subtree
/// text, other children nothing.
pub open spec fn text_of_upto(doc: Seq<HtmlNode>, i: int, k: int) -> Seq<char>
    decreases i, k,
{
    if k <= 0 || i <= 0 {
        Seq::empty()
    } else {
        let prev = text_of_upto(doc, i, k - 1);
        let c = doc[i].children@[k - 1] as int;
        if 0 <= c < i {
            prev + (if doc[c].kind == NodeKind::Text {
                doc[c].text@
            } else if doc[c].kind == NodeKind::Element {
                text_of_upto(doc, c, doc[c].children@.len() as int)
            } else {
                Seq::empty()
            })
        } else {
            prev
        }
    }
}

/// The raw text below node `i`, whitespace preserved.
pub open spec fn text_of(doc: Seq<HtmlNode>, i: int) -> Seq<char> {
    text_of_upto(doc, i, doc[i].children@.len() as int)
}

#[verifier::loop_isolation(false)]
pub fn collect_text(doc: &Vec<HtmlNode>, i: usize, out: &mut Vec<char>)
    requires
        wf_doc(doc@),
        i < doc@.len(),
    ensures
        final(out)@ == old(out)@ + text_of(doc@, i as int),
    decreases i,
{
    let ghost orig = out@;
    let n = doc[i].children.len();
    proof {
        assert(wf_node(doc@, i as int));
    }
    for k in 0..n
        invariant
            out@ == orig + text_of_upto(doc@, i as int, k as int),
    {
        let c = doc[i].children[k];
        match doc[c].kind {
            NodeKind::Text => {
                let t = &doc[c].text;
                push_all(out, t);
            },
            NodeKind::Element => {
                collect_text(doc, c, out);
            },
            NodeKind::Other => {},
        }
    }
}

/// The raw text below node `i` (used for `pre` blocks).
pub fn get_raw_text(doc: &Vec<HtmlNode>, i: usize) -> (r: Vec<char>)
    requires
        wf_doc(doc@),
        i < doc@.len(),
    ensures
        r@ == text_of(doc@, i as int),
{
    let mut out: Vec<char> = Vec::new();
    collect_text(doc, i, &mut out);
    out
}

/// The whitespace-normalized text below node `i`.
pub fn get_text_content(doc: &Vec<HtmlNode>, i: usize) -> (r: Vec<char>)
    requires
        wf_doc(doc@),
        i < doc@.len(),
    ensures
        r@ == norm(text_of(doc@, i as int)),
{
    let raw = get_raw_text(doc, i);
    normalize(&raw)
}

// --- attribute lookup -----------------------------------------------------------

/// The value of the first attribute named `name`, if any.
pub open spec fn attr_of(attrs: Seq<Attr>, name: Seq<char>) -> Option<Seq<char>>
    decreases attrs.len(),
{
    if attrs.len() == 0 {
        None
    } else if attrs[0].name@ == name {
        Some(attrs[0].value@)
    } else {
        attr_of(attrs.skip(1), name)
    }
}

#[verifier::loop_isolation(false)]
pub fn get_attr<'a>(attrs: &'a Vec<Attr>, name: &Vec<char>) -> (r: Option<&'a Vec<char>>)
    ensures
        match r {
            Some(v) => attr_of(attrs@, name@) == Some(v@),
            None => attr_of(attrs@, name@) is None,
        },
{
    let n = attrs.len();
    proof {
        assert(attrs@.skip(0) =~= attrs@);
    }
    for j in 0..n
        invariant
            attr_of(attrs@, name@) == attr_of(attrs@.skip(j as int), name@),
    {
        proof {
            assert(attrs@.skip(j as int)[0] == attrs@[j as int]);
            assert(attrs@.skip(j as int).skip(1) =~= attrs@.skip(j + 1));
        }
        if crate::chars::eq_chars(&attrs[j].name, name) {
            return Some(&attrs[j].value);
        }
    }
    proof {
        assert(attrs@.skip(n as int).len() == 0);
    }
    None
}

} // verus!
