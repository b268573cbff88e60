use crate::chars::{contains_word, eq_lit, has_word, str_to_chars};
use crate::dom::{attr_of, get_attr, wf_doc, wf_node, HtmlNode, NodeKind};
use vstd::prelude::*;

verus! {

// --- the fixed tag and class lists ------------------------------------------

/// Tags whose whole subtree is never content.
pub open spec fn is_skip_tag(t: Seq<char>) -> bool {
    t == "script"@ || t == "style"@ || t == "noscript"@ || t == "iframe"@ || t == "object"@ || t
        == "embed"@ || t == "form"@ || t == "input"@ || t == "button"@ || t == "select"@ || t
        == "textarea"@
}

pub fn is_skip_tag_c(t: &Vec<char>) -> (b: bool)
    ensures
        b == is_skip_tag(t@),
{
    eq_lit(t, "script") || eq_lit(t, "style") || eq_lit(t, "noscript") || eq_lit(t, "iframe")
        || eq_lit(t, "object") || eq_lit(t, "embed") || eq_lit(t, "form") || eq_lit(t, "input")
        || eq_lit(t, "button") || eq_lit(t, "select") || eq_lit(t, "textarea")
}

/// Navigation and chrome tags removed before main-content detection.
pub open spec fn is_nav_tag(t: Seq<char>) -> bool {
    t == "nav"@ || t == "header"@ || t == "footer"@ || t == "aside"@
}

pub fn is_nav_tag_c(t: &Vec<char>) -> (b: bool)
    ensures
        b == is_nav_tag(t@),
{
    eq_lit(t, "nav") || eq_lit(t, "header") || eq_lit(t, "footer") || eq_lit(t, "aside")
}

/// Class words that mark hidden or accessibility-only content.
pub open spec fn has_hidden_class(cls: Seq<char>) -> bool {
    has_word(cls, "sr-only"@) || has_word(cls, "sr_only"@) || has_word(cls, "srOnly"@) || has_word(
        cls,
        "visually-hidden"@,
    ) || has_word(cls, "visually_hidden"@) || has_word(cls, "screen-reader-only"@) || has_word(
        cls,
        "screen_reader_only"@,
    ) || has_word(cls, "a11y-only"@) || has_word(cls, "a11y_only"@)
}

pub fn has_hidden_class_c(cls: &Vec<char>) -> (b: bool)
    ensures
        b == has_hidden_class(cls@),
{
    contains_word(cls, "sr-only") || contains_word(cls, "sr_only") || contains_word(cls, "srOnly")
        || contains_word(cls, "visually-hidden") || contains_word(cls, "visually_hidden")
        || contains_word(cls, "screen-reader-only") || contains_word(cls, "screen_reader_only")
        || contains_word(cls, "a11y-only") || contains_word(cls, "a11y_only")
}

/// Class words that mark navigation, advertising, social or modal chrome.
pub open spec fn has_nav_class(cls: Seq<char>) -> bool {
    has_word(cls, "nav"@) || has_word(cls, "navigation"@) || has_word(cls, "sidebar"@) || has_word(
        cls,
        "menu"@,
    ) || has_word(cls, "ads"@) || has_word(cls, "advertisement"@) || has_word(cls, "social"@)
        || has_word(cls, "share"@) || has_word(cls, "comments"@) || has_word(cls, "related"@)
        || has_word(cls, "popup"@) || has_word(cls, "modal"@)
}

pub fn has_nav_class_c(cls: &Vec<char>) -> (b: bool)
    ensures
        b == has_nav_class(cls@),
{
    contains_word(cls, "nav") || contains_word(cls, "navigation") || contains_word(cls, "sidebar")
        || contains_word(cls, "menu") || contains_word(cls, "ads") || contains_word(
        cls,
        "advertisement",
    ) || contains_word(cls, "social") || contains_word(cls, "share") || contains_word(
        cls,
        "comments",
    ) || contains_word(cls, "related") || contains_word(cls, "popup") || contains_word(cls, "modal")
}

// --- the two skip predicates ---------------------------------------------------

/// Hard skip: a non-content tag, a `hidden` attribute, or a hidden class.
pub open spec fn spec_should_skip(n: HtmlNode) -> bool {
    is_skip_tag(n.tag@) || attr_of(n.attrs@, "hidden"@) is Some || match attr_of(
        n.attrs@,
        "class"@,
    ) {
        Some(cls) => has_hidden_class(cls),
        None => false,
    }
}

pub fn should_skip(n: &HtmlNode) -> (b: bool)
    ensures
        b == spec_should_skip(*n),
{
    if is_skip_tag_c(&n.tag) {
        return true;
    }
    let hidden_name = str_to_chars("hidden");
    if get_attr(&n.attrs, &hidden_name).is_some() {
        return true;
    }
    let class_name = str_to_chars("class");
    match get_attr(&n.attrs, &class_name) {
        Some(cls) => has_hidden_class_c(cls),
        None => false,
    }
}

/// Navigation clutter: a nav tag or a nav class.
pub open spec fn spec_is_nav_clutter(n: HtmlNode) -> bool {
    is_nav_tag(n.tag@) || match attr_of(n.attrs@, "class"@) {
        Some(cls) => has_nav_class(cls),
        None => false,
    }
}

pub fn is_nav_clutter(n: &HtmlNode) -> (b: bool)
    ensures
        b == spec_is_nav_clutter(*n),
{
    if is_nav_tag_c(&n.tag) {
        return true;
    }
    let class_name = str_to_chars("class");
    match get_attr(&n.attrs, &class_name) {
        Some(cls) => has_nav_class_c(cls),
        None => false,
    }
}

// --- the skip-set ------------------------------------------------------------------

/// The indices marked inside the subtree of element `i`: the whole subtree
/// when an ancestor, or `i` itself, is clutter or hard-skipped, otherwise
/// whatever the children mark.  Only element nodes carry marks.
pub open spec fn marks_of(doc: Seq<HtmlNode>, i: int, forced: bool) -> Set<int>
    decreases i, doc[i].children@.len() + 1,
{
    if !(0 <= i < doc.len()) || doc[i].kind != NodeKind::Element {
        Set::empty()
    } else {
        let f2 = forced || spec_should_skip(doc[i]) || spec_is_nav_clutter(doc[i]);
        (if f2 {
            Set::empty().insert(i)
        } else {
            Set::empty()
        }) + marks_of_children(doc, i, doc[i].children@.len() as int, f2)
    }
}

/// The union of the marks of the first `k` children subtrees of node `i`.
pub open spec fn marks_of_children(doc: Seq<HtmlNode>, i: int, k: int, forced: bool) -> Set<int>
    decreases i, k,
{
    if k <= 0 || !(0 <= i < doc.len()) {
        Set::empty()
    } else {
        let c = doc[i].children@[k - 1] as int;
        marks_of_children(doc, i, k - 1, forced) + (if 0 <= c < i {
            marks_of(doc, c, forced)
        } else {
            Set::empty()
        })
    }
}

/// The skip-set of a document whose root element is `root`: what the root
/// element's children subtrees mark.  The root element itself is never marked.
pub open spec fn spec_skip_set(doc: Seq<HtmlNode>, root: int) -> Set<int> {
    marks_of_children(doc, root, doc[root].children@.len() as int, false)
}

#[verifier::loop_isolation(false)]
fn mark_rec(doc: &Vec<HtmlNode>, i: usize, forced: bool, skip: Vec<bool>) -> (out: Vec<bool>)
    requires
        wf_doc(doc@),
        i < doc@.len(),
        skip@.len() == doc@.len(),
    ensures
        out@.len() == doc@.len(),
        forall|j: int|
            0 <= j < doc@.len() ==> out@[j] == (skip@[j] || marks_of(doc@, i as int, forced).contains(
                j,
            )),
    decreases i,
{
    let ghost orig = skip@;
    let mut skip = skip;
    if !matches!(doc[i].kind, NodeKind::Element) {
        proof {
            assert(marks_of(doc@, i as int, forced) =~= Set::<int>::empty());
        }
        return skip;
    }
    let f2 = forced || should_skip(&doc[i]) || is_nav_clutter(&doc[i]);
    if f2 {
        skip.set(i, true);
    }
    let ghost mid = skip@;
    let n = doc[i].children.len();
    proof {
        assert(wf_node(doc@, i as int));
    }
    let mut k: usize = 0;
    while k < n
        invariant
            k <= n,
            skip@.len() == doc@.len(),
            forall|j: int|
                0 <= j < doc@.len() ==> #[trigger] skip@[j] == (mid[j] || marks_of_children(
                    doc@,
                    i as int,
                    k as int,
                    f2,
                ).contains(j)),
        decreases n - k,
    {
        let c = doc[i].children[k];
        let ghost pre = skip@;
        skip = mark_rec(doc, c, f2, skip);
        proof {
            assert(marks_of_children(doc@, i as int, k + 1, f2) == marks_of_children(
                doc@,
                i as int,
                k as int,
                f2,
            ) + marks_of(doc@, c as int, f2));
            assert forall|j: int| 0 <= j < doc@.len() implies skip@[j] == (mid[j]
                || marks_of_children(doc@, i as int, k + 1, f2).contains(j)) by {
                assert(skip@[j] == (pre[j] || marks_of(doc@, c as int, f2).contains(j)));
                assert(pre[j] == (mid[j] || marks_of_children(doc@, i as int, k as int, f2).contains(
                    j,
                )));
            }
        }
        k += 1;
    }
    proof {
        assert(marks_of(doc@, i as int, forced) =~= (if f2 {
            Set::<int>::empty().insert(i as int)
        } else {
            Set::<int>::empty()
        }) + marks_of_children(doc@, i as int, n as int, f2));
    }
    skip
}

/// Build the skip-set: a mark for every element inside a clutter or hidden
/// subtree below the root element, and nothing else.
#[verifier::loop_isolation(false)]
pub fn build_skip_set(doc: &Vec<HtmlNode>, root: usize) -> (skip: Vec<bool>)
    requires
        wf_doc(doc@),
        root < doc@.len(),
    ensures
        skip@.len() == doc@.len(),
        forall|j: int|
            0 <= j < doc@.len() ==> skip@[j] == spec_skip_set(doc@, root as int).contains(j),
{
    let n = doc.len();
    let mut skip: Vec<bool> = Vec::new();
    let mut z: usize = 0;
    while z < n
        invariant
            z <= n,
            skip@.len() == z,
            forall|j: int| 0 <= j < z ==> !skip@[j],
        decreases n - z,
    {
        skip.push(false);
        z += 1;
    }
    let ghost mid = skip@;
    let m = doc[root].children.len();
    proof {
        assert(wf_node(doc@, root as int));
    }
    for k in 0..m
        invariant
            skip@.len() == doc@.len(),
            forall|j: int|
                0 <= j < doc@.len() ==> skip@[j] == marks_of_children(
                    doc@,
                    root as int,
                    k as int,
                    false,
                ).contains(j),
    {
        let c = doc[root].children[k];
        skip = mark_rec(doc, c, false, skip);
        proof {
            assert(wf_node(doc@, root as int));
            assert(marks_of_children(doc@, root as int, k + 1, false) == marks_of_children(
                doc@,
                root as int,
                k as int,
                false,
            ) + marks_of(doc@, c as int, false));
        }
    }
    skip
}

/// Subtree closure: whatever node the skip-set holds, it holds the node's
/// element children too, down the whole subtree.
pub proof fn lemma_skip_set_closed(doc: Seq<HtmlNode>, i: int, forced: bool)
    requires
        wf_doc(doc),
    ensures
        forall|j: int, k: int|
            marks_of(doc, i, forced).contains(j) && 0 <= k < doc[j].children@.len() && doc[(
            #[trigger] doc[j].children@[k] as int)].kind == NodeKind::Element ==> marks_of(
                doc,
                i,
                forced,
            ).contains(doc[j].children@[k] as int),
    decreases i, doc[i].children@.len() + 1,
{
    if 0 <= i < doc.len() && doc[i].kind == NodeKind::Element {
        let f2 = forced || spec_should_skip(doc[i]) || spec_is_nav_clutter(doc[i]);
        lemma_marks_children_closed(doc, i, doc[i].children@.len() as int, f2);
        if f2 {
            lemma_marks_children_all(doc, i, doc[i].children@.len() as int, f2);
        }
    }
}

/// With `forced` set, every element child subtree root is itself marked.
proof fn lemma_marks_children_all(doc: Seq<HtmlNode>, i: int, k: int, forced: bool)
    requires
        wf_doc(doc),
        forced,
        0 <= i < doc.len(),
    ensures
        forall|q: int|
            0 <= q < k && q < doc[i].children@.len() && doc[(#[trigger] doc[i].children@[q] as int)].kind
                == NodeKind::Element ==> marks_of_children(doc, i, k, forced).contains(
                doc[i].children@[q] as int,
            ),
    decreases i, k,
{
    if k > 0 {
        lemma_marks_children_all(doc, i, k - 1, forced);
        let c = doc[i].children@[k - 1] as int;
        assert(wf_node(doc, i));
        if 0 <= c < i && doc[c].kind == NodeKind::Element {
            assert(marks_of(doc, c, forced).contains(c));
        }
    }
}

proof fn lemma_marks_children_closed(doc: Seq<HtmlNode>, i: int, k: int, forced: bool)
    requires
        wf_doc(doc),
        0 <= i < doc.len(),
    ensures
        forall|j: int, q: int|
            marks_of_children(doc, i, k, forced).contains(j) && 0 <= q < doc[j].children@.len()
                && doc[(#[trigger] doc[j].children@[q] as int)].kind == NodeKind::Element
                ==> marks_of_children(doc, i, k, forced).contains(doc[j].children@[q] as int),
    decreases i, k,
{
    if k > 0 {
        lemma_marks_children_closed(doc, i, k - 1, forced);
        let c = doc[i].children@[k - 1] as int;
        assert(wf_node(doc, i));
        if 0 <= c < i {
            lemma_skip_set_closed(doc, c, forced);
        }
    }
}

} // verus!
