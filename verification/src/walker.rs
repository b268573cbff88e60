use crate::chars::{
    count_ne, dec_of, eq_lit, norm, normalize, push_all, push_lit, spec_trim, to_decimal,
    trim_chars,
};
use crate::clean::nonnl_run;
use crate::dom::{
    attr_of, get_attr, get_raw_text, get_text_content, text_of, wf_doc, wf_node, HtmlNode,
    NodeKind,
};
use crate::skipset::{should_skip, spec_should_skip};
use crate::urlres::{resolve_url, spec_resolve};
use vstd::prelude::*;

verus! {

// --- walker state ---------------------------------------------------------

/// Per-walk state: the base URL, the layout-table options, and the active
/// skip-set (one flag per arena node).
pub struct WalkState {
    pub base_url: Vec<char>,
    pub dedupe_tables: bool,
    pub layout_table_depth: usize,
    pub skip: Vec<bool>,
}

pub open spec fn st_wf(st: WalkState, doc: Seq<HtmlNode>) -> bool {
    st.skip@.len() == doc.len()
}

// --- tag classes -------------------------------------------------------------

pub open spec fn is_cell_node(doc: Seq<HtmlNode>, c: usize) -> bool {
    (c as int) < doc.len() && doc[c as int].kind == NodeKind::Element && (doc[c as int].tag@
        == "td"@ || doc[c as int].tag@ == "th"@)
}

pub open spec fn is_row_node(doc: Seq<HtmlNode>, c: usize) -> bool {
    (c as int) < doc.len() && doc[c as int].kind == NodeKind::Element && doc[c as int].tag@ == "tr"@
}

pub open spec fn is_section_node(doc: Seq<HtmlNode>, c: usize) -> bool {
    (c as int) < doc.len() && doc[c as int].kind == NodeKind::Element && (doc[c as int].tag@
        == "thead"@ || doc[c as int].tag@ == "tbody"@ || doc[c as int].tag@ == "tfoot"@)
}

pub open spec fn is_li_node(doc: Seq<HtmlNode>, c: usize) -> bool {
    (c as int) < doc.len() && doc[c as int].kind == NodeKind::Element && doc[c as int].tag@ == "li"@
}

/// Which direct children a caller asks for: table cells, table rows, table
/// sections, or list items.
pub open spec fn child_sel_match(doc: Seq<HtmlNode>, c: usize, which: int) -> bool {
    if which == 0 {
        is_cell_node(doc, c)
    } else if which == 1 {
        is_row_node(doc, c)
    } else if which == 2 {
        is_section_node(doc, c)
    } else {
        is_li_node(doc, c)
    }
}

/// The direct children of node `i` among its first `k` that fall in class
/// `which`, in document order.
pub open spec fn sel_children_upto(doc: Seq<HtmlNode>, i: int, k: int, which: int) -> Seq<usize>
    decreases k,
{
    if k <= 0 || !(0 <= i < doc.len()) {
        Seq::empty()
    } else {
        let c = doc[i].children@[k - 1];
        sel_children_upto(doc, i, k - 1, which) + (if child_sel_match(doc, c, which) {
            seq![c]
        } else {
            Seq::empty()
        })
    }
}

pub open spec fn sel_children(doc: Seq<HtmlNode>, i: int, which: int) -> Seq<usize> {
    sel_children_upto(doc, i, doc[i].children@.len() as int, which)
}

pub open spec fn cells_of(doc: Seq<HtmlNode>, i: int) -> Seq<usize> {
    sel_children(doc, i, 0)
}

pub open spec fn trs_of(doc: Seq<HtmlNode>, i: int) -> Seq<usize> {
    sel_children(doc, i, 1)
}

pub open spec fn secs_of(doc: Seq<HtmlNode>, i: int) -> Seq<usize> {
    sel_children(doc, i, 2)
}

fn tag_matches(doc: &Vec<HtmlNode>, c: usize, which: usize) -> (b: bool)
    requires
        which <= 3,
    ensures
        b == child_sel_match(doc@, c, which as int),
{
    if c >= doc.len() {
        return false;
    }
    let n = &doc[c];
    if !matches!(n.kind, NodeKind::Element) {
        return false;
    }
    if which == 0 {
        eq_lit(&n.tag, "td") || eq_lit(&n.tag, "th")
    } else if which == 1 {
        eq_lit(&n.tag, "tr")
    } else if which == 2 {
        eq_lit(&n.tag, "thead") || eq_lit(&n.tag, "tbody") || eq_lit(&n.tag, "tfoot")
    } else {
        eq_lit(&n.tag, "li")
    }
}

/// The direct children of node `i` in class `which`.
#[verifier::loop_isolation(false)]
pub fn direct_children(doc: &Vec<HtmlNode>, i: usize, which: usize) -> (r: Vec<usize>)
    requires
        wf_doc(doc@),
        i < doc@.len(),
        which <= 3,
    ensures
        r@ == sel_children(doc@, i as int, which as int),
        forall|q: int| 0 <= q < r@.len() ==> (#[trigger] r@[q] as int) < i,
{
    let mut out: Vec<usize> = Vec::new();
    let n = doc[i].children.len();
    proof {
        assert(wf_node(doc@, i as int));
    }
    for k in 0..n
        invariant
            out@ == sel_children_upto(doc@, i as int, k as int, which as int),
            forall|q: int| 0 <= q < out@.len() ==> (#[trigger] out@[q] as int) < i,
    {
        let c = doc[i].children[k];
        if tag_matches(doc, c, which) {
            out.push(c);
        }
        proof {
            assert(sel_children_upto(doc@, i as int, k + 1, which as int)
                == sel_children_upto(doc@, i as int, k as int, which as int) + (if child_sel_match(
                doc@,
                c,
                which as int,
            ) {
                seq![c]
            } else {
                Seq::<usize>::empty()
            }));
            assert(out@ =~= sel_children_upto(doc@, i as int, k + 1, which as int));
        }
    }
    out
}

/// The rows of a table: its direct `tr` children; when there are none, the
/// direct `tr` children of its direct `thead`/`tbody`/`tfoot` children.
pub open spec fn rows_under(doc: Seq<HtmlNode>, secs: Seq<usize>) -> Seq<usize>
    decreases secs.len(),
{
    if secs.len() == 0 {
        Seq::empty()
    } else {
        rows_under(doc, secs.drop_last()) + trs_of(doc, secs.last() as int)
    }
}

pub open spec fn rows_of(doc: Seq<HtmlNode>, i: int) -> Seq<usize> {
    if trs_of(doc, i).len() > 0 {
        trs_of(doc, i)
    } else {
        rows_under(doc, secs_of(doc, i))
    }
}

#[verifier::loop_isolation(false)]
pub fn collect_rows(doc: &Vec<HtmlNode>, i: usize) -> (r: Vec<usize>)
    requires
        wf_doc(doc@),
        i < doc@.len(),
    ensures
        r@ == rows_of(doc@, i as int),
        forall|q: int| 0 <= q < r@.len() ==> (#[trigger] r@[q] as int) < i,
{
    let direct = direct_children(doc, i, 1);
    if direct.len() > 0 {
        return direct;
    }
    let secs = direct_children(doc, i, 2);
    let mut rows: Vec<usize> = Vec::new();
    let m = secs.len();
    proof {
        assert(secs@.take(0) =~= Seq::<usize>::empty());
    }
    for k in 0..m
        invariant
            rows@ == rows_under(doc@, secs@.take(k as int)),
            forall|q: int| 0 <= q < rows@.len() ==> (#[trigger] rows@[q] as int) < i,
    {
        let sec = secs[k];
        let sub = direct_children(doc, sec, 1);
        let mut sub = sub;
        let ghost pre = rows@;
        rows.append(&mut sub);
        proof {
            assert(secs@.take(k + 1).drop_last() =~= secs@.take(k as int));
            assert(secs@.take(k + 1).last() == secs@[k as int]);
            assert(rows@ =~= rows_under(doc@, secs@.take(k + 1)));
        }
    }
    proof {
        assert(secs@.take(m as int) =~= secs@);
    }
    rows
}

// --- layout detection -----------------------------------------------------------

/// Is there a `table` element anywhere below the first `k` children of `i`?
pub open spec fn htb_upto(doc: Seq<HtmlNode>, i: int, k: int) -> bool
    decreases i, k,
{
    if k <= 0 || !(0 <= i < doc.len()) {
        false
    } else {
        let c = doc[i].children@[k - 1] as int;
        htb_upto(doc, i, k - 1) || (0 <= c < i && ((doc[c].kind == NodeKind::Element && doc[c].tag@
            == "table"@) || htb_upto(doc, c, doc[c].children@.len() as int)))
    }
}

pub open spec fn has_table_below(doc: Seq<HtmlNode>, i: int) -> bool {
    htb_upto(doc, i, doc[i].children@.len() as int)
}

#[verifier::loop_isolation(false)]
pub fn has_table_below_c(doc: &Vec<HtmlNode>, i: usize) -> (b: bool)
    requires
        wf_doc(doc@),
        i < doc@.len(),
    ensures
        b == has_table_below(doc@, i as int),
    decreases i,
{
    let n = doc[i].children.len();
    proof {
        assert(wf_node(doc@, i as int));
    }
    let mut k: usize = 0;
    while k < n
        invariant
            k <= n,
            !htb_upto(doc@, i as int, k as int),
        decreases n - k,
    {
        let c = doc[i].children[k];
        let hit = if matches!(doc[c].kind, NodeKind::Element) && eq_lit(&doc[c].tag, "table") {
            true
        } else {
            has_table_below_c(doc, c)
        };
        if hit {
            proof {
                assert(htb_upto(doc@, i as int, k + 1));
                lemma_htb_monotone(doc@, i as int, k + 1, n as int);
            }
            return true;
        }
        k += 1;
    }
    false
}

proof fn lemma_htb_monotone(doc: Seq<HtmlNode>, i: int, k: int, m: int)
    requires
        0 <= k <= m,
        htb_upto(doc, i, k),
    ensures
        htb_upto(doc, i, m),
    decreases m,
{
    if m > k {
        lemma_htb_monotone(doc, i, k, m - 1);
    }
}

/// Does cell `c` have a direct element child with a block-level tag?
pub open spec fn is_block_tag(t: Seq<char>) -> bool {
    t == "div"@ || t == "p"@ || t == "ul"@ || t == "ol"@ || t == "table"@ || t == "article"@ || t
        == "section"@ || t == "header"@ || t == "footer"@ || t == "nav"@ || t == "aside"@
}

fn is_block_tag_c(t: &Vec<char>) -> (b: bool)
    ensures
        b == is_block_tag(t@),
{
    eq_lit(t, "div") || eq_lit(t, "p") || eq_lit(t, "ul") || eq_lit(t, "ol") || eq_lit(t, "table")
        || eq_lit(t, "article") || eq_lit(t, "section") || eq_lit(t, "header") || eq_lit(
        t,
        "footer",
    ) || eq_lit(t, "nav") || eq_lit(t, "aside")
}

pub open spec fn cell_has_block(doc: Seq<HtmlNode>, c: int) -> bool {
    exists|r: int|
        0 <= r < doc[c].children@.len() && {
            let ch = #[trigger] doc[c].children@[r] as int;
            0 <= ch < doc.len() && doc[ch].kind == NodeKind::Element && is_block_tag(doc[ch].tag@)
        }
}

#[verifier::loop_isolation(false)]
fn cell_has_block_c(doc: &Vec<HtmlNode>, c: usize) -> (b: bool)
    requires
        wf_doc(doc@),
        c < doc@.len(),
    ensures
        b == cell_has_block(doc@, c as int),
{
    let n = doc[c].children.len();
    proof {
        assert(wf_node(doc@, c as int));
    }
    for r in 0..n
        invariant
            forall|q: int|
                0 <= q < r ==> !{
                    let ch = #[trigger] doc@[c as int].children@[q] as int;
                    0 <= ch < doc@.len() && doc@[ch].kind == NodeKind::Element && is_block_tag(
                        doc@[ch].tag@,
                    )
                },
    {
        let ch = doc[c].children[r];
        if matches!(doc[ch].kind, NodeKind::Element) && is_block_tag_c(&doc[ch].tag) {
            return true;
        }
    }
    false
}

/// Does any cell of the first row have a direct block-level element child?
pub open spec fn first_row_block(doc: Seq<HtmlNode>, cells: Seq<usize>) -> bool {
    exists|q: int| 0 <= q < cells.len() && cell_has_block(doc, #[trigger] cells[q] as int)
}

#[verifier::loop_isolation(false)]
fn first_row_block_c(doc: &Vec<HtmlNode>, cells: &Vec<usize>) -> (b: bool)
    requires
        wf_doc(doc@),
        forall|q: int| 0 <= q < cells@.len() ==> (#[trigger] cells@[q] as int) < doc@.len(),
    ensures
        b == first_row_block(doc@, cells@),
{
    let n = cells.len();
    for q in 0..n
        invariant
            forall|p: int| 0 <= p < q ==> !cell_has_block(doc@, #[trigger] cells@[p] as int),
    {
        if cell_has_block_c(doc, cells[q]) {
            return true;
        }
    }
    false
}

// --- table rendering -------------------------------------------------------------

/// A header cell among the given cells?
pub open spec fn has_th(doc: Seq<HtmlNode>, cells: Seq<usize>) -> bool {
    exists|q: int| 0 <= q < cells.len() && doc[#[trigger] cells[q] as int].tag@ == "th"@
}

#[verifier::loop_isolation(false)]
fn has_th_c(doc: &Vec<HtmlNode>, cells: &Vec<usize>) -> (b: bool)
    requires
        forall|q: int| 0 <= q < cells@.len() ==> (#[trigger] cells@[q] as int) < doc@.len(),
    ensures
        b == has_th(doc@, cells@),
{
    let n = cells.len();
    for q in 0..n
        invariant
            forall|p: int| 0 <= p < q ==> doc@[#[trigger] cells@[p] as int].tag@ != "th"@,
    {
        if eq_lit(&doc[cells[q]].tag, "th") {
            return true;
        }
    }
    false
}

/// The cells' normalized texts joined with ` | `.
pub open spec fn cells_join(doc: Seq<HtmlNode>, cells: Seq<usize>) -> Seq<char>
    decreases cells.len(),
{
    if cells.len() == 0 {
        Seq::empty()
    } else if cells.len() == 1 {
        norm(text_of(doc, cells[0] as int))
    } else {
        cells_join(doc, cells.drop_last()) + " | "@ + norm(text_of(doc, cells.last() as int))
    }
}

/// One table row: `| a | b |` and a newline; nothing for a row without cells.
pub open spec fn spec_row_md(doc: Seq<HtmlNode>, cells: Seq<usize>) -> Seq<char> {
    if cells.len() == 0 {
        Seq::empty()
    } else {
        "| "@ + cells_join(doc, cells) + " |\n"@
    }
}

#[verifier::loop_isolation(false)]
pub fn emit_row(doc: &Vec<HtmlNode>, cells: &Vec<usize>, buf: &mut Vec<char>)
    requires
        wf_doc(doc@),
        forall|q: int| 0 <= q < cells@.len() ==> (#[trigger] cells@[q] as int) < doc@.len(),
    ensures
        final(buf)@ == old(buf)@ + spec_row_md(doc@, cells@),
{
    let ghost orig = buf@;
    let n = cells.len();
    if n == 0 {
        proof {
            assert(buf@ =~= orig + spec_row_md(doc@, cells@));
        }
        return ;
    }
    push_lit(buf, "| ");
    proof {
        assert(cells@.take(0) =~= Seq::<usize>::empty());
        assert(buf@ =~= orig + "| "@ + cells_join(doc@, cells@.take(0)));
    }
    for q in 0..n
        invariant
            1 <= n == cells@.len(),
            buf@ == orig + "| "@ + cells_join(doc@, cells@.take(q as int)),
        decreases n - q,
    {
        if q > 0 {
            push_lit(buf, " | ");
        }
        let t = get_text_content(doc, cells[q]);
        push_all(buf, &t);
        proof {
            assert(cells@.take(q + 1).drop_last() =~= cells@.take(q as int));
            assert(cells@.take(q + 1).last() == cells@[q as int]);
            if q == 0 {
                assert(cells@.take(1).len() == 1);
            }
        }
    }
    push_lit(buf, " |\n");
    proof {
        assert(cells@.take(n as int) =~= cells@);
        assert(buf@ =~= orig + spec_row_md(doc@, cells@));
    }
}

/// `k` dash cells joined with ` | `.
pub open spec fn dashes_join(k: int) -> Seq<char>
    decreases k,
{
    if k <= 1 {
        "---"@
    } else {
        dashes_join(k - 1) + " | "@ + "---"@
    }
}

/// The separator row under a header row of `k` cells.
pub open spec fn sep_row_md(k: int) -> Seq<char> {
    "| "@ + dashes_join(k) + " |\n"@
}

#[verifier::loop_isolation(false)]
pub fn emit_sep(k: usize, buf: &mut Vec<char>)
    requires
        k >= 1,
    ensures
        final(buf)@ == old(buf)@ + sep_row_md(k as int),
{
    let ghost orig = buf@;
    push_lit(buf, "| ");
    push_lit(buf, "---");
    let mut j: usize = 1;
    while j < k
        invariant
            1 <= j <= k,
            buf@ == orig + "| "@ + dashes_join(j as int),
        decreases k - j,
    {
        push_lit(buf, " | ");
        push_lit(buf, "---");
        j += 1;
    }
    push_lit(buf, " |\n");
    proof {
        assert(buf@ =~= orig + sep_row_md(k as int));
    }
}

/// All rows rendered in order, rows without cells contributing nothing.
pub open spec fn table_rows_md(doc: Seq<HtmlNode>, rows: Seq<usize>) -> Seq<char>
    decreases rows.len(),
{
    if rows.len() == 0 {
        Seq::empty()
    } else {
        table_rows_md(doc, rows.drop_last()) + spec_row_md(doc, cells_of(doc, rows.last() as int))
    }
}

/// A data table's whole rendering: the rows in order; when the first row has
/// cells and one of them is a header cell, the separator row directly after
/// the first row's line; a trailing blank line unless nothing was rendered.
pub open spec fn spec_data_table_md(doc: Seq<HtmlNode>, rows: Seq<usize>) -> Seq<char> {
    let body = table_rows_md(doc, rows);
    if body.len() == 0 {
        Seq::empty()
    } else {
        let first = cells_of(doc, rows[0] as int);
        if first.len() > 0 && has_th(doc, first) {
            spec_row_md(doc, first) + sep_row_md(first.len() as int) + table_rows_md(
                doc,
                rows.skip(1),
            ) + seq!['\n']
        } else {
            body + seq!['\n']
        }
    }
}

proof fn lemma_rows_md_cons(doc: Seq<HtmlNode>, rows: Seq<usize>)
    requires
        rows.len() >= 1,
    ensures
        table_rows_md(doc, rows) == spec_row_md(doc, cells_of(doc, rows[0] as int))
            + table_rows_md(doc, rows.skip(1)),
    decreases rows.len(),
{
    if rows.len() == 1 {
        assert(rows.drop_last() =~= Seq::<usize>::empty());
        assert(rows.skip(1) =~= Seq::<usize>::empty());
        assert(rows.last() == rows[0]);
        assert(table_rows_md(doc, Seq::<usize>::empty()) =~= Seq::<char>::empty());
        assert(table_rows_md(doc, rows) == table_rows_md(doc, rows.drop_last()) + spec_row_md(
            doc,
            cells_of(doc, rows.last() as int),
        ));
        assert(table_rows_md(doc, rows) =~= spec_row_md(doc, cells_of(doc, rows[0] as int))
            + table_rows_md(doc, rows.skip(1)));
    } else {
        lemma_rows_md_cons(doc, rows.drop_last());
        assert(rows.drop_last()[0] == rows[0]);
        assert(rows.skip(1).drop_last() =~= rows.drop_last().skip(1));
        assert(rows.skip(1).last() == rows.last());
        assert(table_rows_md(doc, rows.skip(1)) == table_rows_md(doc, rows.skip(1).drop_last())
            + spec_row_md(doc, cells_of(doc, rows.skip(1).last() as int)));
    }
}

#[verifier::loop_isolation(false)]
#[verifier::rlimit(100)]
pub fn emit_data_table(doc: &Vec<HtmlNode>, rows: &Vec<usize>, buf: &mut Vec<char>)
    requires
        wf_doc(doc@),
        rows@.len() >= 1,
        forall|q: int| 0 <= q < rows@.len() ==> (#[trigger] rows@[q] as int) < doc@.len(),
    ensures
        final(buf)@ == old(buf)@ + spec_data_table_md(doc@, rows@),
{
    let ghost orig = buf@;
    let start = buf.len();
    proof {
        assert(start == orig.len());
    }
    let first_cells = direct_children(doc, rows[0], 0);
    let n = rows.len();
    if first_cells.len() > 0 && has_th_c(doc, &first_cells) {
        emit_row(doc, &first_cells, buf);
        emit_sep(first_cells.len(), buf);
        let ghost mid = buf@;
        proof {
            assert(rows@.subrange(1, 1) =~= Seq::<usize>::empty());
            assert(mid + table_rows_md(doc@, rows@.subrange(1, 1)) =~= mid);
        }
        for q in 1..n
            invariant
                buf@ == mid + table_rows_md(doc@, rows@.subrange(1, q as int)),
            decreases n - q,
        {
            let cells = direct_children(doc, rows[q], 0);
            emit_row(doc, &cells, buf);
            proof {
                assert(rows@.subrange(1, q + 1).drop_last() =~= rows@.subrange(1, q as int));
                assert(rows@.subrange(1, q + 1).last() == rows@[q as int]);
            }
        }
        buf.push('\n');
        proof {
            reveal_strlit("| ");
            assert(rows@.subrange(1, n as int) =~= rows@.skip(1));
            lemma_rows_md_cons(doc@, rows@);
            assert(spec_row_md(doc@, cells_of(doc@, rows@[0] as int)).len() > 0);
            assert(buf@ =~= orig + spec_data_table_md(doc@, rows@));
        }
    } else {
        proof {
            assert(rows@.subrange(0, 0) =~= Seq::<usize>::empty());
            assert(orig + table_rows_md(doc@, rows@.subrange(0, 0)) =~= orig);
        }
        for q in 0..n
            invariant
                buf@ == orig + table_rows_md(doc@, rows@.subrange(0, q as int)),
            decreases n - q,
        {
            let cells = direct_children(doc, rows[q], 0);
            emit_row(doc, &cells, buf);
            proof {
                assert(rows@.subrange(0, q + 1).drop_last() =~= rows@.subrange(0, q as int));
                assert(rows@.subrange(0, q + 1).last() == rows@[q as int]);
            }
        }
        proof {
            assert(rows@.subrange(0, n as int) =~= rows@);
        }
        if buf.len() > start {
            buf.push('\n');
        }
        proof {
            assert(buf@ =~= orig + spec_data_table_md(doc@, rows@));
        }
    }
}

// --- per-tag renderings -----------------------------------------------------------

pub open spec fn heading_level(t: Seq<char>) -> int {
    if t == "h1"@ {
        1
    } else if t == "h2"@ {
        2
    } else if t == "h3"@ {
        3
    } else if t == "h4"@ {
        4
    } else if t == "h5"@ {
        5
    } else if t == "h6"@ {
        6
    } else {
        0
    }
}

pub open spec fn hashes(k: int) -> Seq<char>
    decreases k,
{
    if k <= 0 {
        Seq::empty()
    } else {
        hashes(k - 1) + seq!['#']
    }
}

/// A heading: blank line, the marks, a space, the flattened text, blank line;
/// nothing when the text is empty.
pub open spec fn spec_heading_md(level: int, t: Seq<char>) -> Seq<char> {
    if t.len() == 0 {
        Seq::empty()
    } else {
        seq!['\n'] + hashes(level) + seq![' '] + t + "\n\n"@
    }
}

pub open spec fn attr_or(n: HtmlNode, name: Seq<char>, dflt: Seq<char>) -> Seq<char> {
    match attr_of(n.attrs@, name) {
        Some(v) => v,
        None => dflt,
    }
}

/// A link: `[text](resolved)`; just the text when either part is empty.
pub open spec fn spec_link_md(t: Seq<char>, href: Seq<char>, base: Seq<char>) -> Seq<char> {
    if t.len() == 0 && href.len() == 0 {
        Seq::empty()
    } else if t.len() == 0 || href.len() == 0 {
        t
    } else {
        "["@ + t + "]("@ + spec_resolve(href, base) + ")"@
    }
}

/// An image: `![alt](resolved "title")`, the alt defaulting to `Image`, the
/// title only when non-empty; nothing without a `src`.
pub open spec fn spec_img_md(n: HtmlNode, base: Seq<char>) -> Seq<char> {
    let src = attr_or(n, "src"@, Seq::empty());
    if src.len() == 0 {
        Seq::empty()
    } else {
        let alt = attr_or(n, "alt"@, "Image"@);
        let title = attr_or(n, "title"@, Seq::empty());
        "!["@ + alt + "]("@ + spec_resolve(src, base) + (if title.len() > 0 {
            " \""@ + title + "\""@
        } else {
            Seq::empty()
        }) + ")"@
    }
}

/// A preformatted block: fenced, the raw text trimmed; nothing when blank.
pub open spec fn spec_pre_md(raw: Seq<char>) -> Seq<char> {
    let t = spec_trim(raw);
    if t.len() == 0 {
        Seq::empty()
    } else {
        "```\n"@ + t + "\n```\n\n"@
    }
}

/// Inline code: the backtick-wrapped normalized text; directly inside `pre`,
/// the raw whitespace-preserving text with no backticks (the enclosing `pre`
/// supplies the fencing).
pub open spec fn spec_code_md(raw: Seq<char>, pre_parent: bool) -> Seq<char> {
    if pre_parent {
        raw
    } else {
        let t = norm(raw);
        if t.len() == 0 {
            Seq::empty()
        } else {
            "`"@ + t + "`"@
        }
    }
}

/// A table is laid out, not data: a nested table below it, a block-level
/// element inside a first-row cell, or a narrow first row over many rows.
pub open spec fn is_layout_table(doc: Seq<HtmlNode>, i: int) -> bool {
    let rows = rows_of(doc, i);
    let fc = cells_of(doc, rows[0] as int);
    has_table_below(doc, i) || first_row_block(doc, fc) || (fc.len() >= 1 && fc.len() <= 2
        && rows.len() >= 15)
}

/// Ghost configuration of one walk: the base URL, the table-deduplication
/// option, and the active skip-set.  The layout-table context travels
/// separately, since it changes below layout tables.
pub struct WalkCfg {
    pub base: Seq<char>,
    pub dedupe: bool,
    pub skipv: Seq<bool>,
}

pub open spec fn cfg_of(st: WalkState) -> WalkCfg {
    WalkCfg { base: st.base_url@, dedupe: st.dedupe_tables, skipv: st.skip@ }
}

/// A blockquote body: every line trimmed, non-blank lines prefixed with `> `.
pub open spec fn spec_quote_md(content: Seq<char>) -> Seq<char>
    decreases content.len(),
{
    if content.len() == 0 {
        Seq::empty()
    } else {
        let r = nonnl_run(content) as int;
        let line = spec_trim(content.subrange(0, r));
        (if line.len() > 0 {
            "> "@ + line + seq!['\n']
        } else {
            Seq::empty()
        }) + (if r < content.len() {
            spec_quote_md(content.skip(r + 1))
        } else {
            Seq::empty()
        })
    }
}

/// What the walk renders for element `i`: nothing for a hard-skipped or
/// skip-set element; otherwise the tag's own rendering, and for container
/// tags the children's renderings in order.
pub open spec fn spec_walk(
    doc: Seq<HtmlNode>,
    i: int,
    pre_parent: bool,
    in_layout: bool,
    cfg: WalkCfg,
) -> Seq<char>
    decreases i, 2int, 0int,
{
    if !(0 <= i < doc.len()) {
        Seq::empty()
    } else if spec_should_skip(doc[i]) || (0 <= i < cfg.skipv.len() && cfg.skipv[i]) {
        Seq::empty()
    } else {
        let t = doc[i].tag@;
        let n_ch = doc[i].children@.len() as int;
        if heading_level(t) >= 1 {
            spec_heading_md(heading_level(t), norm(text_of(doc, i)))
        } else if t == "p"@ {
            let inner = spec_children_md(doc, i, n_ch, in_layout, cfg);
            if inner.len() > 0 {
                inner + "\n\n"@
            } else {
                Seq::empty()
            }
        } else if t == "br"@ {
            seq!['\n']
        } else if t == "strong"@ || t == "b"@ {
            let inner = spec_children_md(doc, i, n_ch, in_layout, cfg);
            if inner.len() > 0 {
                "**"@ + inner + "**"@
            } else {
                Seq::empty()
            }
        } else if t == "em"@ || t == "i"@ {
            let inner = spec_children_md(doc, i, n_ch, in_layout, cfg);
            if inner.len() > 0 {
                "*"@ + inner + "*"@
            } else {
                Seq::empty()
            }
        } else if t == "a"@ {
            spec_link_md(norm(text_of(doc, i)), attr_or(doc[i], "href"@, Seq::empty()), cfg.base)
        } else if t == "img"@ {
            spec_img_md(doc[i], cfg.base)
        } else if t == "ul"@ {
            spec_list_items(doc, i, sel_children(doc, i, 3), false, 1, in_layout, cfg) + seq!['\n']
        } else if t == "ol"@ {
            spec_list_items(doc, i, sel_children(doc, i, 3), true, 1, in_layout, cfg) + seq!['\n']
        } else if t == "li"@ {
            let inner = spec_trim(spec_children_md(doc, i, n_ch, in_layout, cfg));
            if inner.len() > 0 {
                "- "@ + inner + seq!['\n']
            } else {
                Seq::empty()
            }
        } else if t == "blockquote"@ {
            spec_quote_md(spec_children_md(doc, i, n_ch, in_layout, cfg)) + seq!['\n']
        } else if t == "code"@ || t == "tt"@ {
            spec_code_md(text_of(doc, i), pre_parent)
        } else if t == "pre"@ {
            spec_pre_md(text_of(doc, i))
        } else if t == "table"@ || t == "thead"@ || t == "tbody"@ || t == "tfoot"@ {
            spec_table_walk(doc, i, in_layout, cfg)
        } else if t == "tr"@ {
            if cfg.dedupe && in_layout {
                spec_children_md(doc, i, n_ch, in_layout, cfg)
            } else {
                spec_row_md(doc, cells_of(doc, i))
            }
        } else {
            spec_children_md(doc, i, n_ch, in_layout, cfg)
        }
    }
}

/// The renderings of the first `k` children of node `i`, in order: element
/// children recursively, text children whitespace-normalized, other children
/// nothing.
pub open spec fn spec_children_md(
    doc: Seq<HtmlNode>,
    i: int,
    k: int,
    in_layout: bool,
    cfg: WalkCfg,
) -> Seq<char>
    decreases i, 0int, k,
{
    if k <= 0 || !(0 <= i < doc.len()) {
        Seq::empty()
    } else {
        let c = doc[i].children@[k - 1] as int;
        spec_children_md(doc, i, k - 1, in_layout, cfg) + (if 0 <= c < i {
            if doc[c].kind == NodeKind::Element {
                spec_walk(
                    doc,
                    c,
                    doc[i].kind == NodeKind::Element && doc[i].tag@ == "pre"@,
                    in_layout,
                    cfg,
                )
            } else if doc[c].kind == NodeKind::Text {
                norm(doc[c].text@)
            } else {
                Seq::empty()
            }
        } else {
            Seq::empty()
        })
    }
}

/// The list items' lines: each direct `li` child's children rendered and
/// trimmed; a non-empty item emits its `- ` bullet or its running number and
/// advances the counter, an empty one emits nothing.
pub open spec fn spec_list_items(
    doc: Seq<HtmlNode>,
    i: int,
    items: Seq<usize>,
    ordered: bool,
    counter: int,
    in_layout: bool,
    cfg: WalkCfg,
) -> Seq<char>
    decreases i, 1int, items.len(),
{
    if items.len() == 0 {
        Seq::empty()
    } else {
        let li = items[0] as int;
        if 0 <= li < i {
            let inner = spec_trim(
                spec_children_md(doc, li, doc[li].children@.len() as int, in_layout, cfg),
            );
            if inner.len() > 0 {
                (if ordered {
                    dec_of(counter as nat) + ". "@
                } else {
                    "- "@
                }) + inner + seq!['\n'] + spec_list_items(
                    doc,
                    i,
                    items.skip(1),
                    ordered,
                    counter + 1,
                    in_layout,
                    cfg,
                )
            } else {
                spec_list_items(doc, i, items.skip(1), ordered, counter, in_layout, cfg)
            }
        } else {
            spec_list_items(doc, i, items.skip(1), ordered, counter, in_layout, cfg)
        }
    }
}

/// What the table dispatcher renders: `thead`/`tbody`/`tfoot` recurse into
/// their children; a rowless table renders nothing unless a nested table
/// hides below, in which case it recurses; a layout table recurses, inside
/// layout-table context when deduplication is on; a data table renders as a
/// pipe grid.
pub open spec fn spec_table_walk(doc: Seq<HtmlNode>, i: int, in_layout: bool, cfg: WalkCfg) -> Seq<
    char,
>
    decreases i, 1int, 0int,
{
    if !(0 <= i < doc.len()) {
        Seq::empty()
    } else if doc[i].tag@ != "table"@ {
        spec_children_md(doc, i, doc[i].children@.len() as int, in_layout, cfg)
    } else {
        let rows = rows_of(doc, i);
        if rows.len() == 0 {
            if has_table_below(doc, i) {
                spec_children_md(doc, i, doc[i].children@.len() as int, in_layout, cfg)
            } else {
                Seq::empty()
            }
        } else if is_layout_table(doc, i) {
            spec_children_md(
                doc,
                i,
                doc[i].children@.len() as int,
                if cfg.dedupe {
                    true
                } else {
                    in_layout
                },
                cfg,
            )
        } else {
            spec_data_table_md(doc, rows)
        }
    }
}

#[verifier::loop_isolation(false)]
fn push_hashes(buf: &mut Vec<char>, k: usize)
    ensures
        final(buf)@ == old(buf)@ + hashes(k as int),
{
    let ghost orig = buf@;
    proof {
        assert(orig + hashes(0) =~= orig);
    }
    for j in 0..k
        invariant
            buf@ == orig + hashes(j as int),
    {
        buf.push('#');
        proof {
            assert(buf@ =~= orig + hashes(j + 1));
        }
    }
}

// --- the walk ----------------------------------------------------------------------

/// The dispatch tag names are pairwise distinct strings.
proof fn lemma_tag_facts()
    ensures
        "h1"@ != "h2"@,
        "h1"@ != "h3"@,
        "h1"@ != "h4"@,
        "h1"@ != "h5"@,
        "h1"@ != "h6"@,
        "h1"@ != "p"@,
        "h1"@ != "br"@,
        "h1"@ != "strong"@,
        "h1"@ != "b"@,
        "h1"@ != "em"@,
        "h1"@ != "i"@,
        "h1"@ != "a"@,
        "h1"@ != "img"@,
        "h1"@ != "ul"@,
        "h1"@ != "ol"@,
        "h1"@ != "li"@,
        "h1"@ != "blockquote"@,
        "h1"@ != "code"@,
        "h1"@ != "tt"@,
        "h1"@ != "pre"@,
        "h1"@ != "table"@,
        "h1"@ != "thead"@,
        "h1"@ != "tbody"@,
        "h1"@ != "tfoot"@,
        "h1"@ != "tr"@,
        "h2"@ != "h3"@,
        "h2"@ != "h4"@,
        "h2"@ != "h5"@,
        "h2"@ != "h6"@,
        "h2"@ != "p"@,
        "h2"@ != "br"@,
        "h2"@ != "strong"@,
        "h2"@ != "b"@,
        "h2"@ != "em"@,
        "h2"@ != "i"@,
        "h2"@ != "a"@,
        "h2"@ != "img"@,
        "h2"@ != "ul"@,
        "h2"@ != "ol"@,
        "h2"@ != "li"@,
        "h2"@ != "blockquote"@,
        "h2"@ != "code"@,
        "h2"@ != "tt"@,
        "h2"@ != "pre"@,
        "h2"@ != "table"@,
        "h2"@ != "thead"@,
        "h2"@ != "tbody"@,
        "h2"@ != "tfoot"@,
        "h2"@ != "tr"@,
        "h3"@ != "h4"@,
        "h3"@ != "h5"@,
        "h3"@ != "h6"@,
        "h3"@ != "p"@,
        "h3"@ != "br"@,
        "h3"@ != "strong"@,
        "h3"@ != "b"@,
        "h3"@ != "em"@,
        "h3"@ != "i"@,
        "h3"@ != "a"@,
        "h3"@ != "img"@,
        "h3"@ != "ul"@,
        "h3"@ != "ol"@,
        "h3"@ != "li"@,
        "h3"@ != "blockquote"@,
        "h3"@ != "code"@,
        "h3"@ != "tt"@,
        "h3"@ != "pre"@,
        "h3"@ != "table"@,
        "h3"@ != "thead"@,
        "h3"@ != "tbody"@,
        "h3"@ != "tfoot"@,
        "h3"@ != "tr"@,
        "h4"@ != "h5"@,
        "h4"@ != "h6"@,
        "h4"@ != "p"@,
        "h4"@ != "br"@,
        "h4"@ != "strong"@,
        "h4"@ != "b"@,
        "h4"@ != "em"@,
        "h4"@ != "i"@,
        "h4"@ != "a"@,
        "h4"@ != "img"@,
        "h4"@ != "ul"@,
        "h4"@ != "ol"@,
        "h4"@ != "li"@,
        "h4"@ != "blockquote"@,
        "h4"@ != "code"@,
        "h4"@ != "tt"@,
        "h4"@ != "pre"@,
        "h4"@ != "table"@,
        "h4"@ != "thead"@,
        "h4"@ != "tbody"@,
        "h4"@ != "tfoot"@,
        "h4"@ != "tr"@,
        "h5"@ != "h6"@,
        "h5"@ != "p"@,
        "h5"@ != "br"@,
        "h5"@ != "strong"@,
        "h5"@ != "b"@,
        "h5"@ != "em"@,
        "h5"@ != "i"@,
        "h5"@ != "a"@,
        "h5"@ != "img"@,
        "h5"@ != "ul"@,
        "h5"@ != "ol"@,
        "h5"@ != "li"@,
        "h5"@ != "blockquote"@,
        "h5"@ != "code"@,
        "h5"@ != "tt"@,
        "h5"@ != "pre"@,
        "h5"@ != "table"@,
        "h5"@ != "thead"@,
        "h5"@ != "tbody"@,
        "h5"@ != "tfoot"@,
        "h5"@ != "tr"@,
        "h6"@ != "p"@,
        "h6"@ != "br"@,
        "h6"@ != "strong"@,
        "h6"@ != "b"@,
        "h6"@ != "em"@,
        "h6"@ != "i"@,
        "h6"@ != "a"@,
        "h6"@ != "img"@,
        "h6"@ != "ul"@,
        "h6"@ != "ol"@,
        "h6"@ != "li"@,
        "h6"@ != "blockquote"@,
        "h6"@ != "code"@,
        "h6"@ != "tt"@,
        "h6"@ != "pre"@,
        "h6"@ != "table"@,
        "h6"@ != "thead"@,
        "h6"@ != "tbody"@,
        "h6"@ != "tfoot"@,
        "h6"@ != "tr"@,
        "p"@ != "br"@,
        "p"@ != "strong"@,
        "p"@ != "b"@,
        "p"@ != "em"@,
        "p"@ != "i"@,
        "p"@ != "a"@,
        "p"@ != "img"@,
        "p"@ != "ul"@,
        "p"@ != "ol"@,
        "p"@ != "li"@,
        "p"@ != "blockquote"@,
        "p"@ != "code"@,
        "p"@ != "tt"@,
        "p"@ != "pre"@,
        "p"@ != "table"@,
        "p"@ != "thead"@,
        "p"@ != "tbody"@,
        "p"@ != "tfoot"@,
        "p"@ != "tr"@,
        "br"@ != "strong"@,
        "br"@ != "b"@,
        "br"@ != "em"@,
        "br"@ != "i"@,
        "br"@ != "a"@,
        "br"@ != "img"@,
        "br"@ != "ul"@,
        "br"@ != "ol"@,
        "br"@ != "li"@,
        "br"@ != "blockquote"@,
        "br"@ != "code"@,
        "br"@ != "tt"@,
        "br"@ != "pre"@,
        "br"@ != "table"@,
        "br"@ != "thead"@,
        "br"@ != "tbody"@,
        "br"@ != "tfoot"@,
        "br"@ != "tr"@,
        "strong"@ != "b"@,
        "strong"@ != "em"@,
        "strong"@ != "i"@,
        "strong"@ != "a"@,
        "strong"@ != "img"@,
        "strong"@ != "ul"@,
        "strong"@ != "ol"@,
        "strong"@ != "li"@,
        "strong"@ != "blockquote"@,
        "strong"@ != "code"@,
        "strong"@ != "tt"@,
        "strong"@ != "pre"@,
        "strong"@ != "table"@,
        "strong"@ != "thead"@,
        "strong"@ != "tbody"@,
        "strong"@ != "tfoot"@,
        "strong"@ != "tr"@,
        "b"@ != "em"@,
        "b"@ != "i"@,
        "b"@ != "a"@,
        "b"@ != "img"@,
        "b"@ != "ul"@,
        "b"@ != "ol"@,
        "b"@ != "li"@,
        "b"@ != "blockquote"@,
        "b"@ != "code"@,
        "b"@ != "tt"@,
        "b"@ != "pre"@,
        "b"@ != "table"@,
        "b"@ != "thead"@,
        "b"@ != "tbody"@,
        "b"@ != "tfoot"@,
        "b"@ != "tr"@,
        "em"@ != "i"@,
        "em"@ != "a"@,
        "em"@ != "img"@,
        "em"@ != "ul"@,
        "em"@ != "ol"@,
        "em"@ != "li"@,
        "em"@ != "blockquote"@,
        "em"@ != "code"@,
        "em"@ != "tt"@,
        "em"@ != "pre"@,
        "em"@ != "table"@,
        "em"@ != "thead"@,
        "em"@ != "tbody"@,
        "em"@ != "tfoot"@,
        "em"@ != "tr"@,
        "i"@ != "a"@,
        "i"@ != "img"@,
        "i"@ != "ul"@,
        "i"@ != "ol"@,
        "i"@ != "li"@,
        "i"@ != "blockquote"@,
        "i"@ != "code"@,
        "i"@ != "tt"@,
        "i"@ != "pre"@,
        "i"@ != "table"@,
        "i"@ != "thead"@,
        "i"@ != "tbody"@,
        "i"@ != "tfoot"@,
        "i"@ != "tr"@,
        "a"@ != "img"@,
        "a"@ != "ul"@,
        "a"@ != "ol"@,
        "a"@ != "li"@,
        "a"@ != "blockquote"@,
        "a"@ != "code"@,
        "a"@ != "tt"@,
        "a"@ != "pre"@,
        "a"@ != "table"@,
        "a"@ != "thead"@,
        "a"@ != "tbody"@,
        "a"@ != "tfoot"@,
        "a"@ != "tr"@,
        "img"@ != "ul"@,
        "img"@ != "ol"@,
        "img"@ != "li"@,
        "img"@ != "blockquote"@,
        "img"@ != "code"@,
        "img"@ != "tt"@,
        "img"@ != "pre"@,
        "img"@ != "table"@,
        "img"@ != "thead"@,
        "img"@ != "tbody"@,
        "img"@ != "tfoot"@,
        "img"@ != "tr"@,
        "ul"@ != "ol"@,
        "ul"@ != "li"@,
        "ul"@ != "blockquote"@,
        "ul"@ != "code"@,
        "ul"@ != "tt"@,
        "ul"@ != "pre"@,
        "ul"@ != "table"@,
        "ul"@ != "thead"@,
        "ul"@ != "tbody"@,
        "ul"@ != "tfoot"@,
        "ul"@ != "tr"@,
        "ol"@ != "li"@,
        "ol"@ != "blockquote"@,
        "ol"@ != "code"@,
        "ol"@ != "tt"@,
        "ol"@ != "pre"@,
        "ol"@ != "table"@,
        "ol"@ != "thead"@,
        "ol"@ != "tbody"@,
        "ol"@ != "tfoot"@,
        "ol"@ != "tr"@,
        "li"@ != "blockquote"@,
        "li"@ != "code"@,
        "li"@ != "tt"@,
        "li"@ != "pre"@,
        "li"@ != "table"@,
        "li"@ != "thead"@,
        "li"@ != "tbody"@,
        "li"@ != "tfoot"@,
        "li"@ != "tr"@,
        "blockquote"@ != "code"@,
        "blockquote"@ != "tt"@,
        "blockquote"@ != "pre"@,
        "blockquote"@ != "table"@,
        "blockquote"@ != "thead"@,
        "blockquote"@ != "tbody"@,
        "blockquote"@ != "tfoot"@,
        "blockquote"@ != "tr"@,
        "code"@ != "tt"@,
        "code"@ != "pre"@,
        "code"@ != "table"@,
        "code"@ != "thead"@,
        "code"@ != "tbody"@,
        "code"@ != "tfoot"@,
        "code"@ != "tr"@,
        "tt"@ != "pre"@,
        "tt"@ != "table"@,
        "tt"@ != "thead"@,
        "tt"@ != "tbody"@,
        "tt"@ != "tfoot"@,
        "tt"@ != "tr"@,
        "pre"@ != "table"@,
        "pre"@ != "thead"@,
        "pre"@ != "tbody"@,
        "pre"@ != "tfoot"@,
        "pre"@ != "tr"@,
        "table"@ != "thead"@,
        "table"@ != "tbody"@,
        "table"@ != "tfoot"@,
        "table"@ != "tr"@,
        "thead"@ != "tbody"@,
        "thead"@ != "tfoot"@,
        "thead"@ != "tr"@,
        "tbody"@ != "tfoot"@,
        "tbody"@ != "tr"@,
        "tfoot"@ != "tr"@,
{
    reveal_strlit("h1");
    reveal_strlit("h2");
    reveal_strlit("h3");
    reveal_strlit("h4");
    reveal_strlit("h5");
    reveal_strlit("h6");
    reveal_strlit("p");
    reveal_strlit("br");
    reveal_strlit("strong");
    reveal_strlit("b");
    reveal_strlit("em");
    reveal_strlit("i");
    reveal_strlit("a");
    reveal_strlit("img");
    reveal_strlit("ul");
    reveal_strlit("ol");
    reveal_strlit("li");
    reveal_strlit("blockquote");
    reveal_strlit("code");
    reveal_strlit("tt");
    reveal_strlit("pre");
    reveal_strlit("table");
    reveal_strlit("thead");
    reveal_strlit("tbody");
    reveal_strlit("tfoot");
    reveal_strlit("tr");
    assert("h1"@[1] != "h2"@[1]);
    assert("h1"@[1] != "h3"@[1]);
    assert("h1"@[1] != "h4"@[1]);
    assert("h1"@[1] != "h5"@[1]);
    assert("h1"@[1] != "h6"@[1]);
    assert("h1"@.len() != "p"@.len());
    assert("h1"@[0] != "br"@[0]);
    assert("h1"@.len() != "strong"@.len());
    assert("h1"@.len() != "b"@.len());
    assert("h1"@[0] != "em"@[0]);
    assert("h1"@.len() != "i"@.len());
    assert("h1"@.len() != "a"@.len());
    assert("h1"@.len() != "img"@.len());
    assert("h1"@[0] != "ul"@[0]);
    assert("h1"@[0] != "ol"@[0]);
    assert("h1"@[0] != "li"@[0]);
    assert("h1"@.len() != "blockquote"@.len());
    assert("h1"@.len() != "code"@.len());
    assert("h1"@[0] != "tt"@[0]);
    assert("h1"@.len() != "pre"@.len());
    assert("h1"@.len() != "table"@.len());
    assert("h1"@.len() != "thead"@.len());
    assert("h1"@.len() != "tbody"@.len());
    assert("h1"@.len() != "tfoot"@.len());
    assert("h1"@[0] != "tr"@[0]);
    assert("h2"@[1] != "h3"@[1]);
    assert("h2"@[1] != "h4"@[1]);
    assert("h2"@[1] != "h5"@[1]);
    assert("h2"@[1] != "h6"@[1]);
    assert("h2"@.len() != "p"@.len());
    assert("h2"@[0] != "br"@[0]);
    assert("h2"@.len() != "strong"@.len());
    assert("h2"@.len() != "b"@.len());
    assert("h2"@[0] != "em"@[0]);
    assert("h2"@.len() != "i"@.len());
    assert("h2"@.len() != "a"@.len());
    assert("h2"@.len() != "img"@.len());
    assert("h2"@[0] != "ul"@[0]);
    assert("h2"@[0] != "ol"@[0]);
    assert("h2"@[0] != "li"@[0]);
    assert("h2"@.len() != "blockquote"@.len());
    assert("h2"@.len() != "code"@.len());
    assert("h2"@[0] != "tt"@[0]);
    assert("h2"@.len() != "pre"@.len());
    assert("h2"@.len() != "table"@.len());
    assert("h2"@.len() != "thead"@.len());
    assert("h2"@.len() != "tbody"@.len());
    assert("h2"@.len() != "tfoot"@.len());
    assert("h2"@[0] != "tr"@[0]);
    assert("h3"@[1] != "h4"@[1]);
    assert("h3"@[1] != "h5"@[1]);
    assert("h3"@[1] != "h6"@[1]);
    assert("h3"@.len() != "p"@.len());
    assert("h3"@[0] != "br"@[0]);
    assert("h3"@.len() != "strong"@.len());
    assert("h3"@.len() != "b"@.len());
    assert("h3"@[0] != "em"@[0]);
    assert("h3"@.len() != "i"@.len());
    assert("h3"@.len() != "a"@.len());
    assert("h3"@.len() != "img"@.len());
    assert("h3"@[0] != "ul"@[0]);
    assert("h3"@[0] != "ol"@[0]);
    assert("h3"@[0] != "li"@[0]);
    assert("h3"@.len() != "blockquote"@.len());
    assert("h3"@.len() != "code"@.len());
    assert("h3"@[0] != "tt"@[0]);
    assert("h3"@.len() != "pre"@.len());
    assert("h3"@.len() != "table"@.len());
    assert("h3"@.len() != "thead"@.len());
    assert("h3"@.len() != "tbody"@.len());
    assert("h3"@.len() != "tfoot"@.len());
    assert("h3"@[0] != "tr"@[0]);
    assert("h4"@[1] != "h5"@[1]);
    assert("h4"@[1] != "h6"@[1]);
    assert("h4"@.len() != "p"@.len());
    assert("h4"@[0] != "br"@[0]);
    assert("h4"@.len() != "strong"@.len());
    assert("h4"@.len() != "b"@.len());
    assert("h4"@[0] != "em"@[0]);
    assert("h4"@.len() != "i"@.len());
    assert("h4"@.len() != "a"@.len());
    assert("h4"@.len() != "img"@.len());
    assert("h4"@[0] != "ul"@[0]);
    assert("h4"@[0] != "ol"@[0]);
    assert("h4"@[0] != "li"@[0]);
    assert("h4"@.len() != "blockquote"@.len());
    assert("h4"@.len() != "code"@.len());
    assert("h4"@[0] != "tt"@[0]);
    assert("h4"@.len() != "pre"@.len());
    assert("h4"@.len() != "table"@.len());
    assert("h4"@.len() != "thead"@.len());
    assert("h4"@.len() != "tbody"@.len());
    assert("h4"@.len() != "tfoot"@.len());
    assert("h4"@[0] != "tr"@[0]);
    assert("h5"@[1] != "h6"@[1]);
    assert("h5"@.len() != "p"@.len());
    assert("h5"@[0] != "br"@[0]);
    assert("h5"@.len() != "strong"@.len());
    assert("h5"@.len() != "b"@.len());
    assert("h5"@[0] != "em"@[0]);
    assert("h5"@.len() != "i"@.len());
    assert("h5"@.len() != "a"@.len());
    assert("h5"@.len() != "img"@.len());
    assert("h5"@[0] != "ul"@[0]);
    assert("h5"@[0] != "ol"@[0]);
    assert("h5"@[0] != "li"@[0]);
    assert("h5"@.len() != "blockquote"@.len());
    assert("h5"@.len() != "code"@.len());
    assert("h5"@[0] != "tt"@[0]);
    assert("h5"@.len() != "pre"@.len());
    assert("h5"@.len() != "table"@.len());
    assert("h5"@.len() != "thead"@.len());
    assert("h5"@.len() != "tbody"@.len());
    assert("h5"@.len() != "tfoot"@.len());
    assert("h5"@[0] != "tr"@[0]);
    assert("h6"@.len() != "p"@.len());
    assert("h6"@[0] != "br"@[0]);
    assert("h6"@.len() != "strong"@.len());
    assert("h6"@.len() != "b"@.len());
    assert("h6"@[0] != "em"@[0]);
    assert("h6"@.len() != "i"@.len());
    assert("h6"@.len() != "a"@.len());
    assert("h6"@.len() != "img"@.len());
    assert("h6"@[0] != "ul"@[0]);
    assert("h6"@[0] != "ol"@[0]);
    assert("h6"@[0] != "li"@[0]);
    assert("h6"@.len() != "blockquote"@.len());
    assert("h6"@.len() != "code"@.len());
    assert("h6"@[0] != "tt"@[0]);
    assert("h6"@.len() != "pre"@.len());
    assert("h6"@.len() != "table"@.len());
    assert("h6"@.len() != "thead"@.len());
    assert("h6"@.len() != "tbody"@.len());
    assert("h6"@.len() != "tfoot"@.len());
    assert("h6"@[0] != "tr"@[0]);
    assert("p"@.len() != "br"@.len());
    assert("p"@.len() != "strong"@.len());
    assert("p"@[0] != "b"@[0]);
    assert("p"@.len() != "em"@.len());
    assert("p"@[0] != "i"@[0]);
    assert("p"@[0] != "a"@[0]);
    assert("p"@.len() != "img"@.len());
    assert("p"@.len() != "ul"@.len());
    assert("p"@.len() != "ol"@.len());
    assert("p"@.len() != "li"@.len());
    assert("p"@.len() != "blockquote"@.len());
    assert("p"@.len() != "code"@.len());
    assert("p"@.len() != "tt"@.len());
    assert("p"@.len() != "pre"@.len());
    assert("p"@.len() != "table"@.len());
    assert("p"@.len() != "thead"@.len());
    assert("p"@.len() != "tbody"@.len());
    assert("p"@.len() != "tfoot"@.len());
    assert("p"@.len() != "tr"@.len());
    assert("br"@.len() != "strong"@.len());
    assert("br"@.len() != "b"@.len());
    assert("br"@[0] != "em"@[0]);
    assert("br"@.len() != "i"@.len());
    assert("br"@.len() != "a"@.len());
    assert("br"@.len() != "img"@.len());
    assert("br"@[0] != "ul"@[0]);
    assert("br"@[0] != "ol"@[0]);
    assert("br"@[0] != "li"@[0]);
    assert("br"@.len() != "blockquote"@.len());
    assert("br"@.len() != "code"@.len());
    assert("br"@[0] != "tt"@[0]);
    assert("br"@.len() != "pre"@.len());
    assert("br"@.len() != "table"@.len());
    assert("br"@.len() != "thead"@.len());
    assert("br"@.len() != "tbody"@.len());
    assert("br"@.len() != "tfoot"@.len());
    assert("br"@[0] != "tr"@[0]);
    assert("strong"@.len() != "b"@.len());
    assert("strong"@.len() != "em"@.len());
    assert("strong"@.len() != "i"@.len());
    assert("strong"@.len() != "a"@.len());
    assert("strong"@.len() != "img"@.len());
    assert("strong"@.len() != "ul"@.len());
    assert("strong"@.len() != "ol"@.len());
    assert("strong"@.len() != "li"@.len());
    assert("strong"@.len() != "blockquote"@.len());
    assert("strong"@.len() != "code"@.len());
    assert("strong"@.len() != "tt"@.len());
    assert("strong"@.len() != "pre"@.len());
    assert("strong"@.len() != "table"@.len());
    assert("strong"@.len() != "thead"@.len());
    assert("strong"@.len() != "tbody"@.len());
    assert("strong"@.len() != "tfoot"@.len());
    assert("strong"@.len() != "tr"@.len());
    assert("b"@.len() != "em"@.len());
    assert("b"@[0] != "i"@[0]);
    assert("b"@[0] != "a"@[0]);
    assert("b"@.len() != "img"@.len());
    assert("b"@.len() != "ul"@.len());
    assert("b"@.len() != "ol"@.len());
    assert("b"@.len() != "li"@.len());
    assert("b"@.len() != "blockquote"@.len());
    assert("b"@.len() != "code"@.len());
    assert("b"@.len() != "tt"@.len());
    assert("b"@.len() != "pre"@.len());
    assert("b"@.len() != "table"@.len());
    assert("b"@.len() != "thead"@.len());
    assert("b"@.len() != "tbody"@.len());
    assert("b"@.len() != "tfoot"@.len());
    assert("b"@.len() != "tr"@.len());
    assert("em"@.len() != "i"@.len());
    assert("em"@.len() != "a"@.len());
    assert("em"@.len() != "img"@.len());
    assert("em"@[0] != "ul"@[0]);
    assert("em"@[0] != "ol"@[0]);
    assert("em"@[0] != "li"@[0]);
    assert("em"@.len() != "blockquote"@.len());
    assert("em"@.len() != "code"@.len());
    assert("em"@[0] != "tt"@[0]);
    assert("em"@.len() != "pre"@.len());
    assert("em"@.len() != "table"@.len());
    assert("em"@.len() != "thead"@.len());
    assert("em"@.len() != "tbody"@.len());
    assert("em"@.len() != "tfoot"@.len());
    assert("em"@[0] != "tr"@[0]);
    assert("i"@[0] != "a"@[0]);
    assert("i"@.len() != "img"@.len());
    assert("i"@.len() != "ul"@.len());
    assert("i"@.len() != "ol"@.len());
    assert("i"@.len() != "li"@.len());
    assert("i"@.len() != "blockquote"@.len());
    assert("i"@.len() != "code"@.len());
    assert("i"@.len() != "tt"@.len());
    assert("i"@.len() != "pre"@.len());
    assert("i"@.len() != "table"@.len());
    assert("i"@.len() != "thead"@.len());
    assert("i"@.len() != "tbody"@.len());
    assert("i"@.len() != "tfoot"@.len());
    assert("i"@.len() != "tr"@.len());
    assert("a"@.len() != "img"@.len());
    assert("a"@.len() != "ul"@.len());
    assert("a"@.len() != "ol"@.len());
    assert("a"@.len() != "li"@.len());
    assert("a"@.len() != "blockquote"@.len());
    assert("a"@.len() != "code"@.len());
    assert("a"@.len() != "tt"@.len());
    assert("a"@.len() != "pre"@.len());
    assert("a"@.len() != "table"@.len());
    assert("a"@.len() != "thead"@.len());
    assert("a"@.len() != "tbody"@.len());
    assert("a"@.len() != "tfoot"@.len());
    assert("a"@.len() != "tr"@.len());
    assert("img"@.len() != "ul"@.len());
    assert("img"@.len() != "ol"@.len());
    assert("img"@.len() != "li"@.len());
    assert("img"@.len() != "blockquote"@.len());
    assert("img"@.len() != "code"@.len());
    assert("img"@.len() != "tt"@.len());
    assert("img"@[0] != "pre"@[0]);
    assert("img"@.len() != "table"@.len());
    assert("img"@.len() != "thead"@.len());
    assert("img"@.len() != "tbody"@.len());
    assert("img"@.len() != "tfoot"@.len());
    assert("img"@.len() != "tr"@.len());
    assert("ul"@[0] != "ol"@[0]);
    assert("ul"@[0] != "li"@[0]);
    assert("ul"@.len() != "blockquote"@.len());
    assert("ul"@.len() != "code"@.len());
    assert("ul"@[0] != "tt"@[0]);
    assert("ul"@.len() != "pre"@.len());
    assert("ul"@.len() != "table"@.len());
    assert("ul"@.len() != "thead"@.len());
    assert("ul"@.len() != "tbody"@.len());
    assert("ul"@.len() != "tfoot"@.len());
    assert("ul"@[0] != "tr"@[0]);
    assert("ol"@[0] != "li"@[0]);
    assert("ol"@.len() != "blockquote"@.len());
    assert("ol"@.len() != "code"@.len());
    assert("ol"@[0] != "tt"@[0]);
    assert("ol"@.len() != "pre"@.len());
    assert("ol"@.len() != "table"@.len());
    assert("ol"@.len() != "thead"@.len());
    assert("ol"@.len() != "tbody"@.len());
    assert("ol"@.len() != "tfoot"@.len());
    assert("ol"@[0] != "tr"@[0]);
    assert("li"@.len() != "blockquote"@.len());
    assert("li"@.len() != "code"@.len());
    assert("li"@[0] != "tt"@[0]);
    assert("li"@.len() != "pre"@.len());
    assert("li"@.len() != "table"@.len());
    assert("li"@.len() != "thead"@.len());
    assert("li"@.len() != "tbody"@.len());
    assert("li"@.len() != "tfoot"@.len());
    assert("li"@[0] != "tr"@[0]);
    assert("blockquote"@.len() != "code"@.len());
    assert("blockquote"@.len() != "tt"@.len());
    assert("blockquote"@.len() != "pre"@.len());
    assert("blockquote"@.len() != "table"@.len());
    assert("blockquote"@.len() != "thead"@.len());
    assert("blockquote"@.len() != "tbody"@.len());
    assert("blockquote"@.len() != "tfoot"@.len());
    assert("blockquote"@.len() != "tr"@.len());
    assert("code"@.len() != "tt"@.len());
    assert("code"@.len() != "pre"@.len());
    assert("code"@.len() != "table"@.len());
    assert("code"@.len() != "thead"@.len());
    assert("code"@.len() != "tbody"@.len());
    assert("code"@.len() != "tfoot"@.len());
    assert("code"@.len() != "tr"@.len());
    assert("tt"@.len() != "pre"@.len());
    assert("tt"@.len() != "table"@.len());
    assert("tt"@.len() != "thead"@.len());
    assert("tt"@.len() != "tbody"@.len());
    assert("tt"@.len() != "tfoot"@.len());
    assert("tt"@[1] != "tr"@[1]);
    assert("pre"@.len() != "table"@.len());
    assert("pre"@.len() != "thead"@.len());
    assert("pre"@.len() != "tbody"@.len());
    assert("pre"@.len() != "tfoot"@.len());
    assert("pre"@.len() != "tr"@.len());
    assert("table"@[1] != "thead"@[1]);
    assert("table"@[1] != "tbody"@[1]);
    assert("table"@[1] != "tfoot"@[1]);
    assert("table"@.len() != "tr"@.len());
    assert("thead"@[1] != "tbody"@[1]);
    assert("thead"@[1] != "tfoot"@[1]);
    assert("thead"@.len() != "tr"@.len());
    assert("tbody"@[1] != "tfoot"@[1]);
    assert("tbody"@.len() != "tr"@.len());
    assert("tfoot"@.len() != "tr"@.len());
}

/// Render the link element `i` into the buffer.
pub fn handle_link(doc: &Vec<HtmlNode>, i: usize, base: &Vec<char>, buf: &mut Vec<char>)
    requires
        wf_doc(doc@),
        i < doc@.len(),
    ensures
        final(buf)@ == old(buf)@ + spec_link_md(
            norm(text_of(doc@, i as int)),
            attr_or(doc@[i as int], "href"@, Seq::empty()),
            base@,
        ),
{
    let ghost orig = buf@;
    let text = get_text_content(doc, i);
    let href_name = crate::chars::str_to_chars("href");
    let href: Vec<char> = match get_attr(&doc[i].attrs, &href_name) {
        Some(v) => crate::chars::copy_range(v, 0, v.len()),
        None => Vec::new(),
    };
    proof {
        assert(href@ =~= attr_or(doc@[i as int], "href"@, Seq::empty()));
    }
    if text.len() == 0 && href.len() == 0 {
        proof {
            assert(buf@ =~= orig + spec_link_md(norm(text_of(doc@, i as int)), href@, base@));
        }
        return ;
    }
    if text.len() == 0 || href.len() == 0 {
        push_all(buf, &text);
        proof {
            assert(buf@ =~= orig + spec_link_md(norm(text_of(doc@, i as int)), href@, base@));
        }
        return ;
    }
    let resolved = resolve_url(&href, base);
    push_lit(buf, "[");
    push_all(buf, &text);
    push_lit(buf, "](");
    push_all(buf, &resolved);
    push_lit(buf, ")");
    proof {
        assert(buf@ =~= orig + spec_link_md(norm(text_of(doc@, i as int)), href@, base@));
    }
}

/// Render the image element `i` into the buffer.
pub fn handle_image(doc: &Vec<HtmlNode>, i: usize, base: &Vec<char>, buf: &mut Vec<char>)
    requires
        wf_doc(doc@),
        i < doc@.len(),
    ensures
        final(buf)@ == old(buf)@ + spec_img_md(doc@[i as int], base@),
{
    let ghost orig = buf@;
    let src_name = crate::chars::str_to_chars("src");
    let src: Vec<char> = match get_attr(&doc[i].attrs, &src_name) {
        Some(v) => crate::chars::copy_range(v, 0, v.len()),
        None => Vec::new(),
    };
    proof {
        assert(src@ =~= attr_or(doc@[i as int], "src"@, Seq::empty()));
    }
    if src.len() == 0 {
        proof {
            assert(buf@ =~= orig + spec_img_md(doc@[i as int], base@));
        }
        return ;
    }
    let alt_name = crate::chars::str_to_chars("alt");
    let alt: Vec<char> = match get_attr(&doc[i].attrs, &alt_name) {
        Some(v) => crate::chars::copy_range(v, 0, v.len()),
        None => crate::chars::str_to_chars("Image"),
    };
    let title_name = crate::chars::str_to_chars("title");
    let title: Vec<char> = match get_attr(&doc[i].attrs, &title_name) {
        Some(v) => crate::chars::copy_range(v, 0, v.len()),
        None => Vec::new(),
    };
    proof {
        assert(alt@ =~= attr_or(doc@[i as int], "alt"@, "Image"@));
        assert(title@ =~= attr_or(doc@[i as int], "title"@, Seq::empty()));
    }
    let resolved = resolve_url(&src, base);
    push_lit(buf, "![");
    push_all(buf, &alt);
    push_lit(buf, "](");
    push_all(buf, &resolved);
    if title.len() > 0 {
        push_lit(buf, " \"");
        push_all(buf, &title);
        push_lit(buf, "\"");
    }
    push_lit(buf, ")");
    proof {
        assert(buf@ =~= orig + spec_img_md(doc@[i as int], base@));
    }
}

/// Render the children of node `i` in order: elements recursively, text
/// children whitespace-normalized, other children not at all.
#[verifier::loop_isolation(false)]
#[verifier::rlimit(100)]
pub fn walk_children(doc: &Vec<HtmlNode>, i: usize, st: &mut WalkState, buf: &mut Vec<char>)
    requires
        wf_doc(doc@),
        i < doc@.len(),
        st_wf(*old(st), doc@),
    ensures
        *final(st) == *old(st),
        final(buf)@ == old(buf)@ + spec_children_md(
            doc@,
            i as int,
            doc@[i as int].children@.len() as int,
            old(st).layout_table_depth > 0,
            cfg_of(*old(st)),
        ),
    decreases i, 0int, 0int,
{
    let ghost orig = buf@;
    let ghost st0 = *st;
    let ghost cfg = cfg_of(*st);
    let ghost flag = st.layout_table_depth > 0;
    let pp = matches!(doc[i].kind, NodeKind::Element) && eq_lit(&doc[i].tag, "pre");
    let n = doc[i].children.len();
    proof {
        assert(wf_node(doc@, i as int));
        assert(orig + spec_children_md(doc@, i as int, 0, flag, cfg) =~= orig);
    }
    for k in 0..n
        invariant
            *st == st0,
            buf@ == orig + spec_children_md(doc@, i as int, k as int, flag, cfg),
    {
        let c = doc[i].children[k];
        match doc[c].kind {
            NodeKind::Element => {
                walk(doc, c, pp, st, buf);
            },
            NodeKind::Text => {
                let t = normalize(&doc[c].text);
                if t.len() > 0 {
                    push_all(buf, &t);
                }
            },
            NodeKind::Other => {},
        }
        proof {
            assert(buf@ =~= orig + spec_children_md(doc@, i as int, k + 1, flag, cfg));
        }
    }
}

/// Render the children of node `i` into a fresh buffer.
pub fn children_to_string(doc: &Vec<HtmlNode>, i: usize, st: &mut WalkState) -> (r: Vec<char>)
    requires
        wf_doc(doc@),
        i < doc@.len(),
        st_wf(*old(st), doc@),
    ensures
        *final(st) == *old(st),
        r@ == spec_children_md(
            doc@,
            i as int,
            doc@[i as int].children@.len() as int,
            old(st).layout_table_depth > 0,
            cfg_of(*old(st)),
        ),
    decreases i, 0int, 1int,
{
    let mut tmp: Vec<char> = Vec::new();
    walk_children(doc, i, st, &mut tmp);
    proof {
        assert(tmp@ =~= Seq::<char>::empty() + spec_children_md(
            doc@,
            i as int,
            doc@[i as int].children@.len() as int,
            old(st).layout_table_depth > 0,
            cfg_of(*old(st)),
        ));
    }
    tmp
}

/// Render a list: one line per non-empty item, `- ` or a running number, and
/// a trailing blank line.
#[verifier::loop_isolation(false)]
#[verifier::rlimit(100)]
pub fn handle_list(
    doc: &Vec<HtmlNode>,
    i: usize,
    ordered: bool,
    st: &mut WalkState,
    buf: &mut Vec<char>,
)
    requires
        wf_doc(doc@),
        i < doc@.len(),
        st_wf(*old(st), doc@),
    ensures
        *final(st) == *old(st),
        final(buf)@ == old(buf)@ + spec_list_items(
            doc@,
            i as int,
            sel_children(doc@, i as int, 3),
            ordered,
            1,
            old(st).layout_table_depth > 0,
            cfg_of(*old(st)),
        ) + seq!['\n'],
    decreases i, 1int, 0int,
{
    let ghost orig = buf@;
    let ghost st0 = *st;
    let ghost cfg = cfg_of(*st);
    let ghost flag = st.layout_table_depth > 0;
    let items = direct_children(doc, i, 3);
    let ghost its = items@;
    let n = items.len();
    let mut counter: usize = 1;
    proof {
        assert(its.skip(0) =~= its);
    }
    for k in 0..n
        invariant
            *st == st0,
            1 <= counter,
            orig.len() <= buf@.len(),
            2 * (counter - 1) <= buf@.len() - orig.len(),
            orig + spec_list_items(doc@, i as int, its, ordered, 1, flag, cfg) == buf@
                + spec_list_items(doc@, i as int, its.skip(k as int), ordered, counter as int, flag, cfg),
    {
        let li = items[k];
        proof {
            assert(its.skip(k as int)[0] == its[k as int]);
            assert(its.skip(k as int).skip(1) =~= its.skip(k + 1));
        }
        let inner = children_to_string(doc, li, st);
        let trimmed = trim_chars(&inner);
        let ghost oldc = counter as int;
        if trimmed.len() > 0 {
            let ghost pre = buf@;
            if ordered {
                let num = to_decimal(counter);
                push_all(buf, &num);
                push_lit(buf, ". ");
            } else {
                push_lit(buf, "- ");
            }
            push_all(buf, &trimmed);
            buf.push('\n');
            let bl = buf.len();
            proof {
                assert(buf@ =~= pre + (if ordered {
                    dec_of(oldc as nat) + ". "@
                } else {
                    "- "@
                }) + trimmed@ + seq!['\n']);
                assert(2 * counter <= buf@.len() - orig.len());
                assert(counter < usize::MAX);
            }
            counter += 1;
            proof {
                assert(spec_list_items(doc@, i as int, its.skip(k as int), ordered, oldc, flag, cfg)
                    =~= (if ordered {
                    dec_of(oldc as nat) + ". "@
                } else {
                    "- "@
                }) + trimmed@ + seq!['\n'] + spec_list_items(
                    doc@,
                    i as int,
                    its.skip(k + 1),
                    ordered,
                    oldc + 1,
                    flag,
                    cfg,
                ));
                assert(orig + spec_list_items(doc@, i as int, its, ordered, 1, flag, cfg) =~= buf@
                    + spec_list_items(
                    doc@,
                    i as int,
                    its.skip(k + 1),
                    ordered,
                    counter as int,
                    flag,
                    cfg,
                ));
            }
        } else {
            proof {
                assert(spec_list_items(doc@, i as int, its.skip(k as int), ordered, oldc, flag, cfg)
                    == spec_list_items(doc@, i as int, its.skip(k + 1), ordered, oldc, flag, cfg));
            }
        }
    }
    proof {
        assert(its.skip(n as int).len() == 0);
        assert(buf@ =~= orig + spec_list_items(doc@, i as int, its, ordered, 1, flag, cfg));
    }
    buf.push('\n');
    proof {
        assert(buf@ =~= orig + spec_list_items(doc@, i as int, its, ordered, 1, flag, cfg)
            + seq!['\n']);
    }
}

/// Render a blockquote body: every non-blank line trimmed and prefixed with
/// `> `.
#[verifier::loop_isolation(false)]
#[verifier::rlimit(100)]
fn emit_quote(content: &Vec<char>, buf: &mut Vec<char>)
    ensures
        final(buf)@ == old(buf)@ + spec_quote_md(content@),
{
    let ghost orig = buf@;
    let n = content.len();
    let mut i: usize = 0;
    proof {
        assert(content@.skip(0) =~= content@);
        assert(orig + spec_quote_md(content@) =~= buf@ + spec_quote_md(content@.skip(0)));
    }
    while i < n
        invariant
            i <= n,
            orig + spec_quote_md(content@) == buf@ + spec_quote_md(content@.skip(i as int)),
        decreases n - i,
    {
        let r = count_ne(content, i, '\n');
        let line = crate::chars::copy_range(content, i, i + r);
        let trimmed = trim_chars(&line);
        let ghost suf = content@.skip(i as int);
        proof {
            assert(suf.subrange(0, r as int) =~= content@.subrange(i as int, i + r));
            assert(trimmed@ == spec_trim(suf.subrange(0, r as int)));
        }
        if trimmed.len() > 0 {
            push_lit(buf, "> ");
            push_all(buf, &trimmed);
            buf.push('\n');
        }
        if i + r < n {
            proof {
                assert(suf.skip(r + 1) =~= content@.skip(i + r + 1));
                assert(spec_quote_md(suf) =~= (if spec_trim(suf.subrange(0, r as int)).len() > 0 {
                    "> "@ + spec_trim(suf.subrange(0, r as int)) + seq!['\n']
                } else {
                    Seq::<char>::empty()
                }) + spec_quote_md(content@.skip(i + r + 1)));
            }
            i = i + r + 1;
        } else {
            proof {
                assert(spec_quote_md(suf) =~= (if spec_trim(suf.subrange(0, r as int)).len() > 0 {
                    "> "@ + spec_trim(suf.subrange(0, r as int)) + seq!['\n']
                } else {
                    Seq::<char>::empty()
                }) + Seq::<char>::empty());
                assert(content@.skip(n as int).len() == 0);
            }
            i = n;
        }
        proof {
            assert(orig + spec_quote_md(content@) =~= buf@ + spec_quote_md(
                content@.skip(i as int),
            ));
        }
    }
    proof {
        assert(content@.skip(n as int).len() == 0);
        assert(buf@ =~= orig + spec_quote_md(content@));
    }
}

/// For a data table whose first row has cells and a header cell among them,
/// the rendering is the header row's line, then a separator row of exactly as
/// many `---` cells as the header row has cells, then the remaining rows.
pub proof fn lemma_table_separator(doc: Seq<HtmlNode>, rows: Seq<usize>)
    requires
        rows.len() >= 1,
        cells_of(doc, rows[0] as int).len() >= 1,
        has_th(doc, cells_of(doc, rows[0] as int)),
    ensures
        spec_data_table_md(doc, rows) == spec_row_md(doc, cells_of(doc, rows[0] as int))
            + sep_row_md(cells_of(doc, rows[0] as int).len() as int) + table_rows_md(
            doc,
            rows.skip(1),
        ) + seq!['\n'],
{
    reveal_strlit("| ");
    lemma_rows_md_cons(doc, rows);
    assert(spec_row_md(doc, cells_of(doc, rows[0] as int)).len() > 0);
}

/// The table dispatcher: sections recurse, layout tables recurse (counting
/// depth when deduplication is on), data tables are rendered as a grid.
#[verifier::rlimit(100)]
pub fn handle_table(doc: &Vec<HtmlNode>, i: usize, st: &mut WalkState, buf: &mut Vec<char>)
    requires
        wf_doc(doc@),
        i < doc@.len(),
        st_wf(*old(st), doc@),
        doc@[i as int].kind == NodeKind::Element,
    ensures
        *final(st) == *old(st),
        final(buf)@ == old(buf)@ + spec_table_walk(
            doc@,
            i as int,
            old(st).layout_table_depth > 0,
            cfg_of(*old(st)),
        ),
    decreases i, 1int, 0int,
{
    let ghost orig = buf@;
    let ghost cfg = cfg_of(*st);
    let ghost flag = st.layout_table_depth > 0;
    if !eq_lit(&doc[i].tag, "table") {
        walk_children(doc, i, st, buf);
        proof {
            assert(buf@ =~= orig + spec_table_walk(doc@, i as int, flag, cfg));
        }
        return ;
    }
    let nested = has_table_below_c(doc, i);
    let rows = collect_rows(doc, i);
    if rows.len() == 0 {
        if nested {
            walk_children(doc, i, st, buf);
        }
        proof {
            assert(buf@ =~= orig + spec_table_walk(doc@, i as int, flag, cfg));
        }
        return ;
    }
    let first_cells = direct_children(doc, rows[0], 0);
    let has_block = first_row_block_c(doc, &first_cells);
    let looks = first_cells.len() >= 1 && first_cells.len() <= 2 && rows.len() >= 15;
    if nested || has_block || looks {
        proof {
            assert(is_layout_table(doc@, i as int));
        }
        if st.dedupe_tables {
            let prev = st.layout_table_depth;
            st.layout_table_depth = if prev < usize::MAX {
                prev + 1
            } else {
                prev
            };
            proof {
                assert(st.layout_table_depth > 0);
                assert(cfg_of(*st) == cfg);
            }
            walk_children(doc, i, st, buf);
            st.layout_table_depth = prev;
            proof {
                assert(buf@ =~= orig + spec_table_walk(doc@, i as int, flag, cfg));
            }
        } else {
            walk_children(doc, i, st, buf);
            proof {
                assert(buf@ =~= orig + spec_table_walk(doc@, i as int, flag, cfg));
            }
        }
        return ;
    }
    proof {
        assert(!is_layout_table(doc@, i as int));
    }
    emit_data_table(doc, &rows, buf);
    proof {
        assert(buf@ =~= orig + spec_table_walk(doc@, i as int, flag, cfg));
    }
}

/// Render one element and everything below it into the buffer, tag by tag:
/// exactly `spec_walk` of the element.
#[verifier::loop_isolation(false)]
#[verifier::rlimit(100)]
pub fn walk(doc: &Vec<HtmlNode>, i: usize, pre_parent: bool, st: &mut WalkState, buf: &mut Vec<
    char,
>)
    requires
        wf_doc(doc@),
        i < doc@.len(),
        st_wf(*old(st), doc@),
        doc@[i as int].kind == NodeKind::Element,
    ensures
        *final(st) == *old(st),
        final(buf)@ == old(buf)@ + spec_walk(
            doc@,
            i as int,
            pre_parent,
            old(st).layout_table_depth > 0,
            cfg_of(*old(st)),
        ),
    decreases i, 2int, 0int,
{
    let ghost orig = buf@;
    let ghost cfg = cfg_of(*st);
    let ghost flag = st.layout_table_depth > 0;
    proof {
        lemma_tag_facts();
    }
    if should_skip(&doc[i]) {
        proof {
            assert(buf@ =~= orig + spec_walk(doc@, i as int, pre_parent, flag, cfg));
        }
        return ;
    }
    if st.skip[i] {
        proof {
            assert(buf@ =~= orig + spec_walk(doc@, i as int, pre_parent, flag, cfg));
        }
        return ;
    }
    let tag = &doc[i].tag;
    let lvl: usize = if eq_lit(tag, "h1") {
        1
    } else if eq_lit(tag, "h2") {
        2
    } else if eq_lit(tag, "h3") {
        3
    } else if eq_lit(tag, "h4") {
        4
    } else if eq_lit(tag, "h5") {
        5
    } else if eq_lit(tag, "h6") {
        6
    } else {
        0
    };
    if lvl >= 1 {
        let text = get_text_content(doc, i);
        if text.len() > 0 {
            buf.push('\n');
            push_hashes(buf, lvl);
            buf.push(' ');
            push_all(buf, &text);
            push_lit(buf, "\n\n");
        }
        proof {
            assert(buf@ =~= orig + spec_walk(doc@, i as int, pre_parent, flag, cfg));
        }
        return ;
    }
    if eq_lit(tag, "p") {
        let start = buf.len();
        walk_children(doc, i, st, buf);
        if buf.len() > start {
            push_lit(buf, "\n\n");
        }
        proof {
            assert(buf@ =~= orig + spec_walk(doc@, i as int, pre_parent, flag, cfg));
        }
        return ;
    }
    if eq_lit(tag, "br") {
        buf.push('\n');
        proof {
            assert(buf@ =~= orig + spec_walk(doc@, i as int, pre_parent, flag, cfg));
        }
        return ;
    }
    if eq_lit(tag, "strong") || eq_lit(tag, "b") {
        let inner = children_to_string(doc, i, st);
        if inner.len() > 0 {
            push_lit(buf, "**");
            push_all(buf, &inner);
            push_lit(buf, "**");
        }
        proof {
            assert(buf@ =~= orig + spec_walk(doc@, i as int, pre_parent, flag, cfg));
        }
        return ;
    }
    if eq_lit(tag, "em") || eq_lit(tag, "i") {
        let inner = children_to_string(doc, i, st);
        if inner.len() > 0 {
            push_lit(buf, "*");
            push_all(buf, &inner);
            push_lit(buf, "*");
        }
        proof {
            assert(buf@ =~= orig + spec_walk(doc@, i as int, pre_parent, flag, cfg));
        }
        return ;
    }
    if eq_lit(tag, "a") {
        let base = crate::chars::copy_range(&st.base_url, 0, st.base_url.len());
        proof {
            assert(base@ =~= cfg.base);
        }
        handle_link(doc, i, &base, buf);
        proof {
            assert(buf@ =~= orig + spec_walk(doc@, i as int, pre_parent, flag, cfg));
        }
        return ;
    }
    if eq_lit(tag, "img") {
        let base = crate::chars::copy_range(&st.base_url, 0, st.base_url.len());
        proof {
            assert(base@ =~= cfg.base);
        }
        handle_image(doc, i, &base, buf);
        proof {
            assert(buf@ =~= orig + spec_walk(doc@, i as int, pre_parent, flag, cfg));
        }
        return ;
    }
    if eq_lit(tag, "ul") {
        handle_list(doc, i, false, st, buf);
        proof {
            assert(buf@ =~= orig + spec_walk(doc@, i as int, pre_parent, flag, cfg));
        }
        return ;
    }
    if eq_lit(tag, "ol") {
        handle_list(doc, i, true, st, buf);
        proof {
            assert(buf@ =~= orig + spec_walk(doc@, i as int, pre_parent, flag, cfg));
        }
        return ;
    }
    if eq_lit(tag, "li") {
        let inner = children_to_string(doc, i, st);
        let trimmed = trim_chars(&inner);
        if trimmed.len() > 0 {
            push_lit(buf, "- ");
            push_all(buf, &trimmed);
            buf.push('\n');
        }
        proof {
            assert(buf@ =~= orig + spec_walk(doc@, i as int, pre_parent, flag, cfg));
        }
        return ;
    }
    if eq_lit(tag, "blockquote") {
        let inner = children_to_string(doc, i, st);
        emit_quote(&inner, buf);
        buf.push('\n');
        proof {
            assert(buf@ =~= orig + spec_walk(doc@, i as int, pre_parent, flag, cfg));
        }
        return ;
    }
    if eq_lit(tag, "code") || eq_lit(tag, "tt") {
        if pre_parent {
            let raw = get_raw_text(doc, i);
            push_all(buf, &raw);
        } else {
            let text = get_text_content(doc, i);
            if text.len() > 0 {
                push_lit(buf, "`");
                push_all(buf, &text);
                push_lit(buf, "`");
            }
        }
        proof {
            assert(buf@ =~= orig + spec_walk(doc@, i as int, pre_parent, flag, cfg));
        }
        return ;
    }
    if eq_lit(tag, "pre") {
        let raw = get_raw_text(doc, i);
        let trimmed = trim_chars(&raw);
        if trimmed.len() > 0 {
            push_lit(buf, "```\n");
            push_all(buf, &trimmed);
            push_lit(buf, "\n```\n\n");
        }
        proof {
            assert(buf@ =~= orig + spec_walk(doc@, i as int, pre_parent, flag, cfg));
        }
        return ;
    }
    if eq_lit(tag, "table") || eq_lit(tag, "thead") || eq_lit(tag, "tbody") || eq_lit(
        tag,
        "tfoot",
    ) {
        handle_table(doc, i, st, buf);
        proof {
            assert(buf@ =~= orig + spec_walk(doc@, i as int, pre_parent, flag, cfg));
        }
        return ;
    }
    if eq_lit(tag, "tr") {
        if st.dedupe_tables && st.layout_table_depth > 0 {
            walk_children(doc, i, st, buf);
        } else {
            let cells = direct_children(doc, i, 0);
            emit_row(doc, &cells, buf);
        }
        proof {
            assert(buf@ =~= orig + spec_walk(doc@, i as int, pre_parent, flag, cfg));
        }
        return ;
    }
    walk_children(doc, i, st, buf);
    proof {
        assert(buf@ =~= orig + spec_walk(doc@, i as int, pre_parent, flag, cfg));
    }
}

} // verus!
