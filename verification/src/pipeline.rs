use crate::chars::{chars_to_string, contains_lit, copy_range, has_sub, str_to_chars};
use crate::cite::{
    cite_links, cite_text, extract_links_and_citations, extract_images, generate_references,
    link_view, scan_imgs, scan_links, spec_references, strip_links, ImageInfo, LinkInfo,
};
use crate::clean::{clean_markdown, clean_markdown_readable, spec_clean_readable};
use crate::cite::spec_strip;
use crate::dom::{dom_of, parse_html, wf_doc, HtmlNode, NodeKind};
use crate::clean::spec_clean;
use crate::locate::{find_main, find_main_content};
use crate::skipset::{build_skip_set, spec_skip_set};
use crate::walker::{cfg_of, spec_walk, walk, WalkCfg, WalkState};
use vstd::prelude::*;

verus! {

/// Everything one conversion yields.
pub struct PipelineResult {
    pub raw_markdown: String,
    pub clean_markdown: String,
    pub markdown_with_citations: String,
    pub references_markdown: String,
    pub markdown_references: String,
    pub markdown_plain: String,
    pub links: Vec<LinkInfo>,
    pub images: Vec<ImageInfo>,
    pub urls: Vec<String>,
}

/// The fallback decision, checked in order: an empty rendering always falls
/// back; small documents never do; otherwise a short rendering, a rendering
/// tiny relative to the input, or a known discussion-forum base URL whose
/// rendering lacks its permalink marker, falls back.  Lengths are in bytes.
pub open spec fn spec_should_fallback(
    html_len: int,
    md_len: int,
    base: Seq<char>,
    md: Seq<char>,
) -> bool {
    if md_len == 0 {
        true
    } else if html_len < 5000 {
        false
    } else if md_len < 400 {
        true
    } else if md_len * 100 < html_len {
        true
    } else if has_sub(base, "news.ycombinator.com"@) && !has_sub(md, "item?id="@) {
        true
    } else {
        false
    }
}

pub fn should_fallback(html_len: usize, md_len: usize, base: &Vec<char>, md: &Vec<char>) -> (b:
    bool)
    ensures
        b == spec_should_fallback(html_len as int, md_len as int, base@, md@),
{
    if md_len == 0 {
        return true;
    }
    if html_len < 5000 {
        return false;
    }
    if md_len < 400 {
        return true;
    }
    if (md_len as u128) * 100 < (html_len as u128) {
        return true;
    }
    if contains_lit(base, "news.ycombinator.com") && !contains_lit(md, "item?id=") {
        return true;
    }
    false
}

/// Pick the final raw text: the full-document rendering exactly when the
/// fallback decision fires on the primary rendering, the primary rendering
/// otherwise.
pub fn choose_output(
    html_len: usize,
    primary_len: usize,
    primary: Vec<char>,
    full: Vec<char>,
    base: &Vec<char>,
) -> (r: Vec<char>)
    ensures
        r@ == if spec_should_fallback(html_len as int, primary_len as int, base@, primary@) {
            full@
        } else {
            primary@
        },
{
    if should_fallback(html_len, primary_len, base, &primary) {
        full
    } else {
        primary
    }
}

/// The first element among the first `k` children of node `i`.
pub open spec fn first_el_child(doc: Seq<HtmlNode>, i: int, k: int) -> Option<int>
    decreases k,
{
    if k <= 0 || !(0 <= i < doc.len()) {
        None
    } else {
        match first_el_child(doc, i, k - 1) {
            Some(x) => Some(x),
            None => {
                let c = doc[i].children@[k - 1] as int;
                if 0 <= c < doc.len() && doc[c].kind == NodeKind::Element {
                    Some(c)
                } else {
                    None
                }
            },
        }
    }
}

/// The document's root element: the first element child of the parse tree's
/// root, which stands last in the arena.
pub open spec fn spec_root_el(doc: Seq<HtmlNode>) -> Option<int> {
    first_el_child(doc, doc.len() - 1, doc[doc.len() - 1].children@.len() as int)
}

proof fn lemma_first_el_found(doc: Seq<HtmlNode>, i: int, k: int, m: int)
    requires
        0 <= k <= m,
        first_el_child(doc, i, k) is Some,
    ensures
        first_el_child(doc, i, m) == first_el_child(doc, i, k),
    decreases m,
{
    if m > k {
        lemma_first_el_found(doc, i, k, m - 1);
    }
}

#[verifier::loop_isolation(false)]
fn root_element(doc: &Vec<HtmlNode>) -> (r: Option<usize>)
    requires
        wf_doc(doc@),
        doc@.len() >= 1,
    ensures
        match r {
            Some(x) => spec_root_el(doc@) == Some(x as int) && x < doc@.len() && doc@[x as int].kind
                == NodeKind::Element,
            None => spec_root_el(doc@) is None,
        },
{
    let root = doc.len() - 1;
    let n = doc[root].children.len();
    proof {
        assert(crate::dom::wf_node(doc@, root as int));
    }
    for k in 0..n
        invariant
            root == doc@.len() - 1,
            first_el_child(doc@, root as int, k as int) is None,
    {
        let c = doc[root].children[k];
        if matches!(doc[c].kind, NodeKind::Element) {
            proof {
                assert(first_el_child(doc@, root as int, k + 1) == Some(c as int));
                lemma_first_el_found(doc@, root as int, k + 1, n as int);
            }
            return Some(c);
        }
        proof {
            assert(first_el_child(doc@, root as int, k + 1) is None);
        }
    }
    None
}

fn byte_len(v: &Vec<char>) -> (r: (String, usize))
    ensures
        r.0@ == v@,
        r.1 == vstd::utf8::encode_utf8(v@).len() as usize,
{
    let s = chars_to_string(v);
    let l = s.as_str().len();
    (s, l)
}

fn all_false(n: usize) -> (r: Vec<bool>)
    ensures
        r@.len() == n,
        forall|j: int| 0 <= j < n ==> !r@[j],
{
    let mut r: Vec<bool> = Vec::new();
    let mut z: usize = 0;
    while z < n
        invariant
            z <= n,
            r@.len() == z,
            forall|j: int| 0 <= j < z ==> !r@[j],
        decreases n - z,
    {
        r.push(false);
        z += 1;
    }
    r
}

/// The nearest arena parent of node `m`, looking from `p` on: the first
/// later node that lists `m` among its children (parents stand after their
/// children in the arena).
pub open spec fn parent_from(doc: Seq<HtmlNode>, m: int, p: int) -> Option<int>
    decreases doc.len() - p,
{
    if p < 0 || p >= doc.len() {
        None
    } else if doc[p].children@.contains(m as usize) {
        Some(p)
    } else {
        parent_from(doc, m, p + 1)
    }
}

/// Is node `m`'s parent a `pre` element?  The walk's inline-code rendering
/// depends on this at its entry node.
pub open spec fn pre_parent_of(doc: Seq<HtmlNode>, m: int) -> bool {
    match parent_from(doc, m, m + 1) {
        Some(p) => doc[p].kind == NodeKind::Element && doc[p].tag@ == "pre"@,
        None => false,
    }
}

#[verifier::loop_isolation(false)]
fn contains_idx(v: &Vec<usize>, x: usize) -> (b: bool)
    ensures
        b == v@.contains(x),
{
    let n = v.len();
    for k in 0..n
        invariant
            forall|q: int| 0 <= q < k ==> v@[q] != x,
    {
        if v[k] == x {
            return true;
        }
    }
    proof {
        assert(forall|q: int| 0 <= q < v@.len() ==> v@[q] != x);
    }
    false
}

#[verifier::loop_isolation(false)]
fn pre_parent_c(doc: &Vec<HtmlNode>, m: usize) -> (b: bool)
    requires
        m < doc@.len(),
    ensures
        b == pre_parent_of(doc@, m as int),
{
    let n = doc.len();
    let mut p: usize = m + 1;
    while p < n
        invariant
            m + 1 <= p <= n,
            parent_from(doc@, m as int, m + 1) == parent_from(doc@, m as int, p as int),
        decreases n - p,
    {
        if contains_idx(&doc[p].children, m) {
            return matches!(doc[p].kind, NodeKind::Element) && crate::chars::eq_lit(
                &doc[p].tag,
                "pre",
            );
        }
        p += 1;
    }
    false
}

/// The final raw text of one conversion: the cleaned walk from the located
/// main-content root under the skip-set, or, when the fallback decision fires
/// on it, the cleaned walk of the whole document under an empty skip-set.
pub open spec fn spec_pipeline_raw(html: Seq<char>, base: Seq<char>, dedupe: bool) -> Seq<char> {
    let doc = dom_of(html);
    let root = doc.len() - 1;
    let skipv = Seq::new(doc.len(), |j: int| spec_skip_set(doc, root as int).contains(j));
    let cfg = WalkCfg { base, dedupe, skipv };
    let primary_buf = match find_main(doc, skipv, root as int, 0) {
        Some(m) => spec_walk(doc, m, pre_parent_of(doc, m), false, cfg),
        None => Seq::empty(),
    };
    let primary = spec_clean(primary_buf);
    let noskip = Seq::new(doc.len(), |j: int| false);
    let full_buf = match spec_root_el(doc) {
        Some(re) => spec_walk(doc, re, false, false, WalkCfg { base, dedupe, skipv: noskip }),
        None => Seq::empty(),
    };
    let full = spec_clean(full_buf);
    let html_len = vstd::utf8::encode_utf8(html).len() as usize;
    let md_len = vstd::utf8::encode_utf8(primary).len() as usize;
    if spec_should_fallback(html_len as int, md_len as int, base, primary) {
        full
    } else {
        primary
    }
}

/// Convert an HTML document into its Markdown representations: parse, build
/// the skip-set, render from the main-content root, clean, fall back to a
/// full-document rendering when the result is too sparse, and derive the
/// citation, reference, plain and readable variants with the link and image
/// lists.
pub fn convert(html: &str, base_url: &str, dedupe_tables: bool) -> (r: PipelineResult)
    ensures
        ({
            let raw = r.raw_markdown@;
            let links = r.links@.map_values(|l: LinkInfo| link_view(l));
            &&& raw == spec_pipeline_raw(html@, base_url@, dedupe_tables)
            &&& links == cite_links(scan_links(raw, 0), base_url@, 1)
            &&& r.markdown_with_citations@ == cite_text(raw, raw, scan_links(raw, 0), 1)
            &&& r.references_markdown@ == spec_references(links)
            &&& r.markdown_references@ == if spec_references(links).len() == 0 {
                r.markdown_with_citations@
            } else {
                r.markdown_with_citations@ + "\n\n"@ + spec_references(links)
            }
            &&& r.markdown_plain@ == spec_strip(raw)
            &&& r.clean_markdown@ == spec_clean_readable(raw)
            &&& forall|k: int|
                0 <= k < r.links@.len() ==> (#[trigger] r.links@[k]).citation_number == k + 1
            &&& r.urls@.len() == r.links@.len()
            &&& forall|k: int|
                0 <= k < r.urls@.len() ==> (#[trigger] r.urls@[k])@ == r.links@[k].url@
            &&& r.images@.len() == scan_imgs(raw, 0).len()
            &&& forall|k: int|
                0 <= k < r.images@.len() ==> (#[trigger] r.images@[k]).alt@ == scan_imgs(
                    raw,
                    0,
                )[k].text && r.images@[k].url@ == scan_imgs(raw, 0)[k].url && r.images@[k].title@
                    == scan_imgs(raw, 0)[k].title
        }),
{
    let doc = parse_html(html);
    let html_len = html.len();
    let base_c = str_to_chars(base_url);
    let tree_root = doc.len() - 1;
    let skipv = build_skip_set(&doc, tree_root);
    proof {
        assert(skipv@ =~= Seq::new(
            doc@.len(),
            |j: int| spec_skip_set(doc@, tree_root as int).contains(j),
        ));
    }
    let main = find_main_content(&doc, &skipv, tree_root);
    let mut st = WalkState {
        base_url: base_c,
        dedupe_tables,
        layout_table_depth: 0,
        skip: skipv,
    };
    let ghost cfg = WalkCfg { base: base_url@, dedupe: dedupe_tables, skipv: st.skip@ };
    proof {
        assert(cfg_of(st) == cfg);
    }
    let mut buf: Vec<char> = Vec::new();
    match main {
        Some(m) => {
            let pp = pre_parent_c(&doc, m);
            walk(&doc, m, pp, &mut st, &mut buf);
            proof {
                assert(buf@ =~= spec_walk(doc@, m as int, pre_parent_of(doc@, m as int), false, cfg));
            }
        },
        None => {},
    }
    let primary = clean_markdown(&buf);
    let (_primary_s, primary_len) = byte_len(&primary);
    let mut full_buf: Vec<char> = Vec::new();
    let mut st2 = WalkState {
        base_url: copy_range(&st.base_url, 0, st.base_url.len()),
        dedupe_tables,
        layout_table_depth: 0,
        skip: all_false(doc.len()),
    };
    let ghost cfg2 = WalkCfg {
        base: base_url@,
        dedupe: dedupe_tables,
        skipv: Seq::new(doc@.len(), |j: int| false),
    };
    proof {
        assert(st2.skip@ =~= Seq::new(doc@.len(), |j: int| false));
        assert(st2.base_url@ =~= base_url@);
        assert(cfg_of(st2) == cfg2);
    }
    match root_element(&doc) {
        Some(re) => {
            walk(&doc, re, false, &mut st2, &mut full_buf);
            proof {
                assert(full_buf@ =~= spec_walk(doc@, re as int, false, false, cfg2));
            }
        },
        None => {},
    }
    let full = clean_markdown(&full_buf);
    let base_c = st.base_url;
    let raw = choose_output(html_len, primary_len, primary, full, &base_c);
    proof {
        assert(raw@ =~= spec_pipeline_raw(html@, base_url@, dedupe_tables));
    }
    let (links, cited) = extract_links_and_citations(&raw, &base_c);
    let references = generate_references(&links);
    let readable = clean_markdown_readable(&raw);
    let plain = strip_links(&raw);
    let images = extract_images(&raw);
    let mut urls: Vec<String> = Vec::new();
    let nl = links.len();
    #[verifier::loop_isolation(false)]
    for k in 0..nl
        invariant
            urls@.len() == k,
            forall|q: int| 0 <= q < k ==> (#[trigger] urls@[q])@ == links@[q].url@,
    {
        urls.push(links[k].url.clone());
    }
    let cited_s = chars_to_string(&cited);
    let refs_s = chars_to_string(&references);
    let md_references = if references.len() == 0 {
        let mut m = copy_range(&cited, 0, cited.len());
        proof {
            assert(m@ =~= cited@);
        }
        chars_to_string(&m)
    } else {
        let mut m = copy_range(&cited, 0, cited.len());
        crate::chars::push_lit(&mut m, "\n\n");
        crate::chars::push_all(&mut m, &references);
        proof {
            assert(m@ =~= cited@ + "\n\n"@ + references@);
        }
        chars_to_string(&m)
    };
    PipelineResult {
        raw_markdown: chars_to_string(&raw),
        clean_markdown: chars_to_string(&readable),
        markdown_with_citations: cited_s,
        references_markdown: refs_s,
        markdown_references: md_references,
        markdown_plain: chars_to_string(&plain),
        links,
        images,
        urls,
    }
}

} // verus!

