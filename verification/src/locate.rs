use crate::chars::{contains_word, eq_lit, has_word, str_to_chars};
use crate::dom::{attr_of, get_attr, wf_doc, wf_node, HtmlNode, NodeKind};
use vstd::prelude::*;

verus! {

pub open spec fn cls_has(n: HtmlNode, w: Seq<char>) -> bool {
    match attr_of(n.attrs@, "class"@) {
        Some(c) => has_word(c, w),
        None => false,
    }
}

pub open spec fn id_is(n: HtmlNode, w: Seq<char>) -> bool {
    match attr_of(n.attrs@, "id"@) {
        Some(v) => v == w,
        None => false,
    }
}

/// Does element `i` match content-root selector number `s`?  The selectors,
/// in priority order: `main`, `article`, `.content`, `.main-content`,
/// `.post-content`, `.entry-content`, `#content`, `#main`, `body`.
pub open spec fn matches_sel(doc: Seq<HtmlNode>, i: int, s: int) -> bool {
    doc[i].kind == NodeKind::Element && {
        let n = doc[i];
        if s == 0 {
            n.tag@ == "main"@
        } else if s == 1 {
            n.tag@ == "article"@
        } else if s == 2 {
            cls_has(n, "content"@)
        } else if s == 3 {
            cls_has(n, "main-content"@)
        } else if s == 4 {
            cls_has(n, "post-content"@)
        } else if s == 5 {
            cls_has(n, "entry-content"@)
        } else if s == 6 {
            id_is(n, "content"@)
        } else if s == 7 {
            id_is(n, "main"@)
        } else if s == 8 {
            n.tag@ == "body"@
        } else {
            false
        }
    }
}

fn cls_has_c(n: &HtmlNode, w: &str) -> (b: bool)
    ensures
        b == cls_has(*n, w@),
{
    let class_name = str_to_chars("class");
    match get_attr(&n.attrs, &class_name) {
        Some(c) => contains_word(c, w),
        None => false,
    }
}

fn id_is_c(n: &HtmlNode, w: &str) -> (b: bool)
    ensures
        b == id_is(*n, w@),
{
    let id_name = str_to_chars("id");
    match get_attr(&n.attrs, &id_name) {
        Some(v) => eq_lit(v, w),
        None => false,
    }
}

fn matches_sel_c(doc: &Vec<HtmlNode>, i: usize, s: usize) -> (b: bool)
    requires
        i < doc@.len(),
    ensures
        b == matches_sel(doc@, i as int, s as int),
{
    let n = &doc[i];
    if !matches!(n.kind, NodeKind::Element) {
        return false;
    }
    if s == 0 {
        eq_lit(&n.tag, "main")
    } else if s == 1 {
        eq_lit(&n.tag, "article")
    } else if s == 2 {
        cls_has_c(n, "content")
    } else if s == 3 {
        cls_has_c(n, "main-content")
    } else if s == 4 {
        cls_has_c(n, "post-content")
    } else if s == 5 {
        cls_has_c(n, "entry-content")
    } else if s == 6 {
        id_is_c(n, "content")
    } else if s == 7 {
        id_is_c(n, "main")
    } else if s == 8 {
        eq_lit(&n.tag, "body")
    } else {
        false
    }
}

/// The first node of the subtree of `i`, in document order, that matches
/// selector `s` and is not in the skip-set.
pub open spec fn find_in(doc: Seq<HtmlNode>, skipv: Seq<bool>, i: int, s: int) -> Option<int>
    decreases i, doc[i].children@.len() + 1,
{
    if !(0 <= i < doc.len()) {
        None
    } else if matches_sel(doc, i, s) && !(0 <= i < skipv.len() && skipv[i]) {
        Some(i)
    } else {
        find_in_children(doc, skipv, i, doc[i].children@.len() as int, s)
    }
}

pub open spec fn find_in_children(
    doc: Seq<HtmlNode>,
    skipv: Seq<bool>,
    i: int,
    k: int,
    s: int,
) -> Option<int>
    decreases i, k,
{
    if k <= 0 || !(0 <= i < doc.len()) {
        None
    } else {
        match find_in_children(doc, skipv, i, k - 1, s) {
            Some(x) => Some(x),
            None => {
                let c = doc[i].children@[k - 1] as int;
                if 0 <= c < i {
                    find_in(doc, skipv, c, s)
                } else {
                    None
                }
            },
        }
    }
}

#[verifier::loop_isolation(false)]
fn find_in_c(doc: &Vec<HtmlNode>, skipv: &Vec<bool>, i: usize, s: usize) -> (r: Option<usize>)
    requires
        wf_doc(doc@),
        i < doc@.len(),
        skipv@.len() == doc@.len(),
    ensures
        match r {
            Some(x) => find_in(doc@, skipv@, i as int, s as int) == Some(x as int) && x
                < doc@.len() && doc@[x as int].kind == NodeKind::Element,
            None => find_in(doc@, skipv@, i as int, s as int) is None,
        },
    decreases i,
{
    if matches_sel_c(doc, i, s) && !skipv[i] {
        return Some(i);
    }
    let n = doc[i].children.len();
    proof {
        assert(wf_node(doc@, i as int));
    }
    let mut k: usize = 0;
    while k < n
        invariant
            k <= n,
            find_in_children(doc@, skipv@, i as int, k as int, s as int) is None,
        decreases n - k,
    {
        let c = doc[i].children[k];
        let sub = find_in_c(doc, skipv, c, s);
        if sub.is_some() {
            proof {
                assert(find_in_children(doc@, skipv@, i as int, k + 1, s as int) == find_in(
                    doc@,
                    skipv@,
                    c as int,
                    s as int,
                ));
                lemma_children_found(doc@, skipv@, i as int, k + 1, n as int, s as int);
            }
            return sub;
        }
        k += 1;
    }
    None
}

proof fn lemma_children_found(doc: Seq<HtmlNode>, skipv: Seq<bool>, i: int, k: int, m: int, s: int)
    requires
        0 <= k <= m,
        find_in_children(doc, skipv, i, k, s) is Some,
    ensures
        find_in_children(doc, skipv, i, m, s) == find_in_children(doc, skipv, i, k, s),
    decreases m,
{
    if m > k {
        lemma_children_found(doc, skipv, i, k, m - 1, s);
    }
}

/// The main-content root: the first document-order match of the highest-
/// priority selector, from `s` on, that is not skip-marked.
pub open spec fn find_main(doc: Seq<HtmlNode>, skipv: Seq<bool>, root: int, s: int) -> Option<int>
    decreases 9 - s,
{
    if !(0 <= s < 9) {
        None
    } else {
        match find_in(doc, skipv, root, s) {
            Some(x) => Some(x),
            None => find_main(doc, skipv, root, s + 1),
        }
    }
}

#[verifier::loop_isolation(false)]
pub fn find_main_content(doc: &Vec<HtmlNode>, skipv: &Vec<bool>, root: usize) -> (r: Option<
    usize,
>)
    requires
        wf_doc(doc@),
        root < doc@.len(),
        skipv@.len() == doc@.len(),
    ensures
        match r {
            Some(x) => find_main(doc@, skipv@, root as int, 0) == Some(x as int) && x
                < doc@.len() && doc@[x as int].kind == NodeKind::Element,
            None => find_main(doc@, skipv@, root as int, 0) is None,
        },
{
    let mut s: usize = 0;
    while s < 9
        invariant
            s <= 9,
            find_main(doc@, skipv@, root as int, 0) == find_main(
                doc@,
                skipv@,
                root as int,
                s as int,
            ),
        decreases 9 - s,
    {
        let r = find_in_c(doc, skipv, root, s);
        if let Some(x) = r {
            return Some(x);
        }
        s += 1;
    }
    None
}

} // verus!
