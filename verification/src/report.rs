//! The report engine: renders a rooted-tree store as an indented text
//! diagram, one node per line, with connector glyphs that adapt to the
//! width of the parent label above them.

use vstd::prelude::*;
use vstd::string::StringExecFns;
use vstd::string::StringSliceAdditionalSpecFns;

use crate::implementation::NodeImplementation;
use crate::node::NodeView;
use crate::report::lvl_string::decimal_chars;
use crate::report::lvl_string::glyph_chars;
use crate::report::lvl_string::glyph_width;
use crate::report::lvl_string::lemma_decimal_chars_ascii_digits;
use crate::report::lvl_string::lemma_decimal_chars_len_u64;
use crate::report::lvl_string::u64_str;
use crate::report::lvl_string::LvlChar;
use crate::rooted_tree::spec_ancestors;
use crate::rooted_tree::spec_descendants;
use crate::rooted_tree::RootedTree;
use crate::rooted_tree::TreeView;
use crate::store_clone::clone_from_spec;

pub mod lvl_string;

verus! {

/// The renderer's error kind.  The verified renderer builds its output
/// in memory and cannot fail, so this value is never produced; it remains
/// part of the interface for callers that match on it.
#[derive(Debug, Clone, Copy, PartialEq, Eq)]
pub enum Error {
    /// The output sink rejected a write.
    Formatting,
}

/// Where the child-count budget cuts a wide fan-out: `Top` keeps the
/// most recently added children, `Bottom` keeps the leading children
/// and drops the tail behind an elision marker.
#[derive(Debug, Clone, Copy, PartialEq, Eq, Structural)]
pub enum ChildWrap {
    Top,
    Bottom,
}

impl Default for ChildWrap {
    /// The default placement keeps the leading children.
    fn default() -> (r: Self)
        ensures
            r == ChildWrap::Bottom,
    {
        ChildWrap::Bottom
    }
}

/// One rendering request: an optional cap on visible children per node,
/// the truncation placement, and an optional selection: a target node
/// plus a radius bounding how far the rendered window extends around it.
#[derive(Debug, Clone, PartialEq, Eq)]
pub struct Config {
    pub max_children: Option<u32>,
    pub child_wrap: ChildWrap,
    pub select_node: Option<(u64, u32)>,
}

impl Default for Config {
    /// No cap, bottom truncation, no selection.
    fn default() -> (r: Self)
        ensures
            r == (Config { max_children: None, child_wrap: ChildWrap::Bottom, select_node: None }),
    {
        Config { max_children: None, child_wrap: ChildWrap::Bottom, select_node: None }
    }
}

/// Rendering metadata derived for a selection-centered window: the path
/// of identifiers from the target up to the window's root, target first.
/// It only biases truncation toward keeping the target visible.
#[derive(Debug, Clone, PartialEq, Eq)]
pub struct Meta {
    pub select_nodes: Vec<u64>,
}

impl Default for Meta {
    /// No selection path.
    fn default() -> (r: Self)
        ensures
            r.select_nodes@ == Seq::<u64>::empty(),
    {
        Meta { select_nodes: Vec::new() }
    }
}

/// The displayed width of a string of characters, as the terminal shows
/// it.  Its value is fixed by the Unicode width tables.
pub uninterp spec fn display_width(s: Seq<char>) -> nat;

/// Relies on unicode_width's `UnicodeWidthStr::width`: the displayed
/// width of a string, a pure function of its characters; by the crate's
/// width rules every ASCII digit occupies exactly one column and forms
/// no wider sequence, so a string of digits is as wide as it is long.
#[verifier::external_body]
fn text_width(s: &str) -> (r: usize)
    ensures
        r as nat == display_width(s@),
        (forall|i: int| 0 <= i < s@.len() ==> '0' <= #[trigger] s@[i] <= '9') ==> r as nat
            == s@.len(),
{
    unicode_width::UnicodeWidthStr::width(s)
}

/// The width of the label that a parent identifier prints as: the
/// number of its decimal digits, or zero without a parent.
pub open spec fn parent_label_width(parent: Option<u64>) -> nat {
    match parent {
        Some(p) => decimal_chars(p as nat).len(),
        None => 0,
    }
}

/// A node's recorded parent identifier together with the displayed
/// width of that identifier's label.
fn get_parent_id_and_len(node: &NodeImplementation) -> (r: (Option<u64>, u32))
    ensures
        r.0 == node@.parent,
        r.1 as nat == parent_label_width(node@.parent),
        r.1 <= 20,
{
    if let Some(parent_id) = node.parent_id() {
        let label = u64_str(parent_id);
        proof {
            lemma_decimal_chars_ascii_digits(parent_id as nat);
            lemma_decimal_chars_len_u64(parent_id);
        }
        let len = text_width(label.as_str());
        (Some(parent_id), len as u32)
    } else {
        (None, 0)
    }
}

/// The glyphs `prefixes[i..]` printed one after the other.
pub open spec fn glyphs_concat(prefixes: Seq<LvlChar>, i: int) -> Seq<char>
    decreases prefixes.len() - i,
{
    if i < 0 || i >= prefixes.len() {
        Seq::empty()
    } else {
        glyph_chars(prefixes[i]) + glyphs_concat(prefixes, i + 1)
    }
}

/// The connector region of one line: every glyph of the stack printed
/// except the last position, which the terminal suffix replaces.
pub open spec fn spec_prefixes(prefixes: Seq<LvlChar>, suffix: Seq<char>) -> Seq<char> {
    if prefixes.len() == 0 {
        suffix
    } else {
        glyphs_concat(prefixes.take(prefixes.len() - 1), 0) + suffix
    }
}

/// Whether every glyph of the stack was built from a label width the
/// renderer can pad against: room is left for the widest shift a
/// glyph adds, so every padded width fits an allocation.
pub open spec fn prefixes_ok(prefixes: Seq<LvlChar>) -> bool {
    forall|j: int|
        0 <= j < prefixes.len() ==> glyph_width(#[trigger] prefixes[j]) as int + 3
            <= usize::MAX as int
}

/// Prints the glyph stack with `suffix` in place of its last position.
fn compute_prefixes(lvl_prefixes: &Vec<LvlChar>, suffix: String) -> (r: String)
    requires
        prefixes_ok(lvl_prefixes@),
    ensures
        r@ == spec_prefixes(lvl_prefixes@, suffix@),
{
    let mut result = String::new();
    if lvl_prefixes.len() == 0 {
        result.append(suffix.as_str());
        return result;
    }
    let ghost shown = lvl_prefixes@.take(lvl_prefixes@.len() - 1);
    let mut i: usize = 0;
    while i < lvl_prefixes.len() - 1
        invariant
            prefixes_ok(lvl_prefixes@),
            lvl_prefixes@.len() >= 1,
            i <= lvl_prefixes@.len() - 1,
            shown == lvl_prefixes@.take(lvl_prefixes@.len() - 1),
            result@ + glyphs_concat(shown, i as int) == glyphs_concat(shown, 0),
        decreases lvl_prefixes.len() - i,
    {
        let ghost prev = result@;
        let piece = lvl_prefixes[i].render();
        result.append(piece.as_str());
        proof {
            assert(shown[i as int] == lvl_prefixes@[i as int]);
            assert(result@ + glyphs_concat(shown, i + 1) =~= prev + glyphs_concat(shown, i as int));
        }
        i = i + 1;
    }
    result.append(suffix.as_str());
    proof {
        assert(glyphs_concat(shown, shown.len() as int) == Seq::<char>::empty());
        assert(result@ =~= glyphs_concat(shown, 0) + suffix@);
    }
    result
}

/// What one rendering pass produces: the text, and the identifiers of
/// the nodes that got a line of their own, in the order printed.
pub ghost struct RenderOut {
    pub text: Seq<char>,
    pub ids: Seq<u64>,
}

impl RenderOut {
    /// Nothing printed.
    pub open spec fn nothing() -> RenderOut {
        RenderOut { text: Seq::empty(), ids: Seq::empty() }
    }

    /// `self` printed, then `o`.
    pub open spec fn cat(self, o: RenderOut) -> RenderOut {
        RenderOut { text: self.text + o.text, ids: self.ids + o.ids }
    }
}

/// The index in `ids` of the first occurrence of `x`, scanning from
/// `j`.
pub open spec fn first_index_of(ids: Seq<u64>, x: u64, j: int) -> Option<int>
    decreases ids.len() - j,
{
    if j < 0 || j >= ids.len() {
        None
    } else if ids[j] == x {
        Some(j)
    } else {
        first_index_of(ids, x, j + 1)
    }
}

/// The position in `ids` of the first selection-path entry (scanning
/// the path from `k`, target first) that occurs in `ids` at all.
pub open spec fn first_sel_match(meta: Seq<u64>, ids: Seq<u64>, k: int) -> Option<int>
    decreases meta.len() - k,
{
    if k < 0 || k >= meta.len() {
        None
    } else {
        match first_index_of(ids, meta[k], 0) {
            Some(p) => Some(p),
            None => first_sel_match(meta, ids, k + 1),
        }
    }
}

/// The child-count budget applied from the top: which children stay,
/// whether a leading elision marker is owed, and whether the later
/// walk cuts the tail at the budget.  When a selection path member
/// occurs among the children, the window is recentered on the nearest
/// one and the tail is then cut as `Bottom` placement would; in every
/// other case the configured placement decides.
pub open spec fn spec_wrap_top(cfg: Config, meta: Seq<u64>, ids: Seq<u64>) -> (Seq<u64>, bool, bool) {
    match cfg.max_children {
        None => (ids, false, false),
        Some(mc) => if ids.len() <= mc as int {
            (ids, false, false)
        } else {
            if meta.len() > 0 {
                match first_sel_match(meta, ids, 0) {
                    Some(k) => {
                        let start = if k > mc as int / 2 {
                            k - mc as int / 2
                        } else {
                            0
                        };
                        if start == 0 {
                            (ids, false, true)
                        } else {
                            (ids.skip(start), true, true)
                        }
                    },
                    None => spec_wrap_plain(cfg, ids, mc),
                }
            } else {
                spec_wrap_plain(cfg, ids, mc)
            }
        },
    }
}

/// The non-selection truncation: `Top` placement keeps the most
/// recently added children within the budget, with no marker;
/// `Bottom` keeps the leading children and leaves the rest to the
/// tail cut.
pub open spec fn spec_wrap_plain(cfg: Config, ids: Seq<u64>, mc: u32) -> (Seq<u64>, bool, bool) {
    if cfg.child_wrap is Top {
        (ids.skip(ids.len() - mc as int), false, false)
    } else {
        (ids, false, true)
    }
}

/// The elision-marker line emitted beside children of a node whose
/// parent label is `plen` wide, under the glyph stack `prefixes`.
pub open spec fn marker_line(prefixes: Seq<LvlChar>, plen: u32) -> Seq<char> {
    "\n"@ + spec_prefixes(
        prefixes + seq![LvlChar::DashBar(plen), LvlChar::Empty],
        Seq::empty(),
    )
}

/// One node's whole rendering: its own line, the optional leading
/// elision marker, then its children, each through one more hop of the
/// budget.
pub open spec fn spec_format(
    t: TreeView,
    cfg: Config,
    meta: Seq<u64>,
    n: NodeView,
    prefixes: Seq<LvlChar>,
    suffix: Seq<char>,
    budget: nat,
) -> RenderOut
    decreases budget, 1int, 0int,
{
    let plen = parent_label_width(n.parent) as u32;
    let head = "\n"@ + spec_prefixes(prefixes, suffix) + " "@ + (match n.parent {
        Some(p) => decimal_chars(p as nat) + " ↜ "@,
        None => Seq::empty(),
    }) + decimal_chars(n.id as nat);
    let wrapped = spec_wrap_top(cfg, meta, n.children);
    let marker = if wrapped.1 {
        marker_line(prefixes, plen)
    } else {
        Seq::empty()
    };
    let body = spec_format_children(t, cfg, meta, wrapped.0, 0, prefixes, plen, wrapped.2, budget);
    RenderOut { text: head + marker + body.text, ids: seq![n.id] + body.ids }
}

/// The children `ids[i..]` rendered in order.  When the tail cut is on
/// and the budget index is reached, a single elision marker stands for
/// the rest.  A child absent from the store prints one dashed line and
/// is not entered.
pub open spec fn spec_format_children(
    t: TreeView,
    cfg: Config,
    meta: Seq<u64>,
    ids: Seq<u64>,
    i: int,
    prefixes: Seq<LvlChar>,
    plen: u32,
    cut: bool,
    budget: nat,
) -> RenderOut
    decreases budget, 0int, ids.len() - i,
{
    if i < 0 || i >= ids.len() {
        RenderOut::nothing()
    } else if cfg.max_children is Some && cut && i == cfg.max_children->0 as int {
        RenderOut { text: marker_line(prefixes, plen), ids: Seq::empty() }
    } else {
        let is_end = i == ids.len() - 1;
        let walk_glyph = if is_end {
            LvlChar::Space(plen)
        } else {
            LvlChar::SolidBar(plen)
        };
        let c = ids[i];
        let this = match t.lookup(c) {
            Some(child) => if budget == 0 {
                RenderOut::nothing()
            } else {
                spec_format(
                    t,
                    cfg,
                    meta,
                    child,
                    prefixes.push(walk_glyph),
                    glyph_chars(
                        if is_end {
                            LvlChar::SolidAngle(plen)
                        } else {
                            LvlChar::SolidCross(plen)
                        },
                    ),
                    (budget - 1) as nat,
                )
            },
            None => RenderOut {
                text: "\n"@ + spec_prefixes(
                    prefixes.push(walk_glyph),
                    glyph_chars(
                        if is_end {
                            LvlChar::SolidDashAngle(plen)
                        } else {
                            LvlChar::SolidDashCross(plen)
                        },
                    ),
                ) + " "@ + decimal_chars(c as nat),
                ids: Seq::empty(),
            },
        };
        this.cat(spec_format_children(t, cfg, meta, ids, i + 1, prefixes, plen, cut, budget))
    }
}

/// The depth budget a whole render starts with: one more than the
/// store can be deep.
pub open spec fn report_budget(t: TreeView) -> nat {
    t.nodes.len() + 1
}

/// A whole report over one store: the root's rendering between the
/// surrounding newlines, with the dashed lead-in when the store is a
/// detached sub-tree; an empty store prints the closing newline alone.
pub open spec fn spec_report_with(t: TreeView, cfg: Config, meta: Seq<u64>) -> Seq<char> {
    (match t.root {
        Some(root) => match root.parent {
            Some(_) => "\n"@ + glyph_chars(LvlChar::DashBar(0)) + spec_format(
                t,
                cfg,
                meta,
                root,
                seq![LvlChar::DashBar(parent_label_width(root.parent) as u32)],
                Seq::empty(),
                report_budget(t),
            ).text,
            None => spec_format(
                t,
                cfg,
                meta,
                root,
                Seq::empty(),
                Seq::empty(),
                report_budget(t),
            ).text,
        },
        None => Seq::empty(),
    }) + "\n"@
}

/// Whether `ids` holds `x`, and where it first occurs.
fn position_of(ids: &Vec<u64>, x: u64) -> (r: Option<usize>)
    ensures
        match r {
            Some(p) => first_index_of(ids@, x, 0) == Some(p as int) && p < ids@.len(),
            None => first_index_of(ids@, x, 0) is None,
        },
{
    let mut j: usize = 0;
    while j < ids.len()
        invariant
            j <= ids.len(),
            first_index_of(ids@, x, 0) == first_index_of(ids@, x, j as int),
        decreases ids.len() - j,
    {
        if ids[j] == x {
            return Some(j);
        }
        j = j + 1;
    }
    None
}

/// The position in `ids` of the first selection-path entry found
/// there, scanning the path target first.
fn first_sel_match_exec(select_nodes: &Vec<u64>, ids: &Vec<u64>) -> (r: Option<usize>)
    ensures
        match r {
            Some(p) => first_sel_match(select_nodes@, ids@, 0) == Some(p as int) && p < ids@.len(),
            None => first_sel_match(select_nodes@, ids@, 0) is None,
        },
{
    let mut k: usize = 0;
    while k < select_nodes.len()
        invariant
            k <= select_nodes.len(),
            first_sel_match(select_nodes@, ids@, 0) == first_sel_match(
                select_nodes@,
                ids@,
                k as int,
            ),
        decreases select_nodes.len() - k,
    {
        match position_of(ids, select_nodes[k]) {
            Some(p) => {
                return Some(p);
            },
            None => {},
        }
        k = k + 1;
    }
    None
}

/// The elements of `v` from `start` on, as a new vector.
fn vec_skip(v: &Vec<u64>, start: usize) -> (r: Vec<u64>)
    requires
        start <= v@.len(),
    ensures
        r@ == v@.skip(start as int),
{
    let mut out: Vec<u64> = Vec::new();
    let mut i: usize = start;
    while i < v.len()
        invariant
            start <= i <= v@.len(),
            out@ == v@.subrange(start as int, i as int),
        decreases v.len() - i,
    {
        out.push(v[i]);
        proof {
            assert(out@ =~= v@.subrange(start as int, i + 1));
        }
        i = i + 1;
    }
    proof {
        assert(v@.subrange(start as int, v@.len() as int) =~= v@.skip(start as int));
    }
    out
}

/// An element-for-element copy of a glyph stack.
fn clone_prefixes(v: &Vec<LvlChar>) -> (r: Vec<LvlChar>)
    ensures
        r@ == v@,
{
    let mut out: Vec<LvlChar> = Vec::new();
    let mut i: usize = 0;
    while i < v.len()
        invariant
            i <= v@.len(),
            out@ == v@.take(i as int),
        decreases v.len() - i,
    {
        out.push(v[i]);
        proof {
            assert(out@ =~= v@.take(i + 1));
        }
        i = i + 1;
    }
    proof {
        assert(v@.take(v@.len() as int) =~= v@);
    }
    out
}

impl RootedTree {
    /// Renders one node as one line, then its children beneath it,
    /// honouring the child-count budget and the selection path.
    fn format_node(
        &self,
        config: &Config,
        node: &NodeImplementation,
        lvl_prefixes: Vec<LvlChar>,
        suffix: String,
        meta: &Meta,
        budget: usize,
    ) -> (r: String)
        requires
            prefixes_ok(lvl_prefixes@),
        ensures
            r@ == spec_format(
                self@,
                *config,
                meta.select_nodes@,
                node@,
                lvl_prefixes@,
                suffix@,
                budget as nat,
            ).text,
        decreases budget,
    {
        let ghost target = spec_format(
            self@,
            *config,
            meta.select_nodes@,
            node@,
            lvl_prefixes@,
            suffix@,
            budget as nat,
        );
        let prefix = compute_prefixes(&lvl_prefixes, suffix);
        let mut result = String::new();
        result.append("\n");
        result.append(prefix.as_str());
        result.append(" ");
        let (popt, parent_len) = get_parent_id_and_len(node);
        if let Some(parent_id) = popt {
            let label = u64_str(parent_id);
            result.append(label.as_str());
            result.append(" ↜ ");
        }
        let own = u64_str(node.id());
        result.append(own.as_str());
        let ghost head = result@;

        let mut vec_ids = node.child_ids_vec();
        let ghost all_ids = vec_ids@;
        let mut add_wrap_top = false;
        let mut cut_tail = false;
        if let Some(mc) = config.max_children {
            if vec_ids.len() > mc as usize {
                let mut plain = meta.select_nodes.len() == 0;
                if meta.select_nodes.len() > 0 {
                    match first_sel_match_exec(&meta.select_nodes, &vec_ids) {
                        Some(k) => {
                            cut_tail = true;
                            let half = (mc / 2) as usize;
                            if k > half {
                                vec_ids = vec_skip(&vec_ids, k - half);
                                add_wrap_top = true;
                            }
                        },
                        None => {
                            plain = true;
                        },
                    }
                }
                if plain {
                    match config.child_wrap {
                        ChildWrap::Top => {
                            let start = vec_ids.len() - mc as usize;
                            vec_ids = vec_skip(&vec_ids, start);
                        },
                        ChildWrap::Bottom => {
                            cut_tail = true;
                        },
                    }
                }
            }
        }
        proof {
            assert(vec_ids@ == spec_wrap_top(*config, meta.select_nodes@, all_ids).0);
            assert(add_wrap_top == spec_wrap_top(*config, meta.select_nodes@, all_ids).1);
            assert(cut_tail == spec_wrap_top(*config, meta.select_nodes@, all_ids).2);
        }
        if add_wrap_top {
            let mut marker_prefixes = clone_prefixes(&lvl_prefixes);
            marker_prefixes.push(LvlChar::DashBar(parent_len));
            marker_prefixes.push(LvlChar::Empty);
            let marker_prefix = compute_prefixes(&marker_prefixes, String::new());
            result.append("\n");
            result.append(marker_prefix.as_str());
            proof {
                assert(marker_prefixes@ =~= lvl_prefixes@ + seq![
                    LvlChar::DashBar(parent_len),
                    LvlChar::Empty,
                ]);
                assert(result@ =~= head + marker_line(lvl_prefixes@, parent_len));
            }
        }
        let ghost kept = vec_ids@;
        let ghost opening = result@;
        proof {
            assert(target.text =~= opening + spec_format_children(
                self@,
                *config,
                meta.select_nodes@,
                kept,
                0,
                lvl_prefixes@,
                parent_len,
                cut_tail,
                budget as nat,
            ).text);
        }

        let vec_ids_len = vec_ids.len();
        let mut cut: Option<usize> = None;
        if cut_tail {
            if let Some(mc) = config.max_children {
                if (mc as usize) < vec_ids.len() {
                    cut = Some(mc as usize);
                }
            }
        }
        let end = match cut {
            Some(c) => c,
            None => vec_ids.len(),
        };
        let mut index: usize = 0;
        while index < end
            invariant
                index <= end,
                prefixes_ok(lvl_prefixes@),
                parent_len as nat == parent_label_width(node@.parent),
                parent_len <= 20,
                vec_ids@ == kept,
                vec_ids_len == kept.len(),
                end <= kept.len(),
                match cut {
                    Some(c) => end == c && c == config.max_children->0 as int && cut_tail
                        && c < kept.len(),
                    None => end == kept.len() && (config.max_children is Some && cut_tail
                        ==> kept.len() <= config.max_children->0 as int),
                },
                target.text == result@ + spec_format_children(
                    self@,
                    *config,
                    meta.select_nodes@,
                    kept,
                    index as int,
                    lvl_prefixes@,
                    parent_len,
                    cut_tail,
                    budget as nat,
                ).text,
            decreases end - index,
        {
            let ghost before = result@;
            let c = vec_ids[index];
            let is_end = index == vec_ids_len - 1;
            let walk_glyph = if is_end {
                LvlChar::Space(parent_len)
            } else {
                LvlChar::SolidBar(parent_len)
            };
            let mut child_prefixes = clone_prefixes(&lvl_prefixes);
            child_prefixes.push(walk_glyph);
            match self.get_node(&c) {
                Some(child) => {
                    if budget > 0 {
                        let corner = if is_end {
                            LvlChar::SolidAngle(parent_len)
                        } else {
                            LvlChar::SolidCross(parent_len)
                        };
                        let child_suffix = corner.render();
                        let sub = self.format_node(
                            config,
                            child,
                            child_prefixes,
                            child_suffix,
                            meta,
                            budget - 1,
                        );
                        result.append(sub.as_str());
                    }
                },
                None => {
                    let dash = if is_end {
                        LvlChar::SolidDashAngle(parent_len)
                    } else {
                        LvlChar::SolidDashCross(parent_len)
                    };
                    let dash_suffix = dash.render();
                    let line_prefix = compute_prefixes(&child_prefixes, dash_suffix);
                    result.append("\n");
                    result.append(line_prefix.as_str());
                    result.append(" ");
                    let label = u64_str(c);
                    result.append(label.as_str());
                },
            }
            proof {
                assert(result@ + spec_format_children(
                    self@,
                    *config,
                    meta.select_nodes@,
                    kept,
                    index + 1,
                    lvl_prefixes@,
                    parent_len,
                    cut_tail,
                    budget as nat,
                ).text =~= before + spec_format_children(
                    self@,
                    *config,
                    meta.select_nodes@,
                    kept,
                    index as int,
                    lvl_prefixes@,
                    parent_len,
                    cut_tail,
                    budget as nat,
                ).text);
            }
            index = index + 1;
        }
        if cut.is_some() {
            let mut marker_prefixes = clone_prefixes(&lvl_prefixes);
            marker_prefixes.push(LvlChar::DashBar(parent_len));
            marker_prefixes.push(LvlChar::Empty);
            let marker_prefix = compute_prefixes(&marker_prefixes, String::new());
            let ghost before = result@;
            result.append("\n");
            result.append(marker_prefix.as_str());
            proof {
                assert(marker_prefixes@ =~= lvl_prefixes@ + seq![
                    LvlChar::DashBar(parent_len),
                    LvlChar::Empty,
                ]);
                assert(result@ =~= before + marker_line(lvl_prefixes@, parent_len));
            }
        }
        proof {
            assert(result@ =~= target.text);
        }
        result
    }

    /// Renders one store whole, between the report's surrounding
    /// newlines, with the dashed lead-in for a detached sub-tree.
    fn _report(rooted_tree: &RootedTree, config: &Config, meta: &Meta) -> (r: Result<
        String,
        Error,
    >)
        requires
            rooted_tree@.nodes.len() < usize::MAX,
        ensures
            r is Ok && r->Ok_0@ == spec_report_with(rooted_tree@, *config, meta.select_nodes@),
    {
        let budget = rooted_tree.child_count() + 1;
        let mut out = String::new();
        if let Some(root) = rooted_tree.root_ref() {
            let (popt, len) = get_parent_id_and_len(root);
            if popt.is_some() {
                out.append("\n");
                let lead = LvlChar::DashBar(0).render();
                out.append(lead.as_str());
                let mut prefixes: Vec<LvlChar> = Vec::new();
                prefixes.push(LvlChar::DashBar(len));
                let body = rooted_tree.format_node(
                    config,
                    root,
                    prefixes,
                    String::new(),
                    meta,
                    budget,
                );
                out.append(body.as_str());
            } else {
                let body = rooted_tree.format_node(
                    config,
                    root,
                    Vec::new(),
                    String::new(),
                    meta,
                    budget,
                );
                out.append(body.as_str());
            }
        }
        out.append("\n");
        proof {
            assert(out@ =~= spec_report_with(rooted_tree@, *config, meta.select_nodes@));
        }
        Ok(out)
    }

    /// Renders the store under `config`: whole, or as a window centered
    /// on the selected node.
    pub fn report(&self, config: &Config) -> (r: Result<String, Error>)
        requires
            self@.nodes.len() < usize::MAX,
        ensures
            r is Ok && r->Ok_0@ == spec_report(self@, *config),
    {
        if let Some((node_id, lvl)) = config.select_node {
            let sub_lvl = lvl / 2;
            let parent_ids = self.list_parent_ids_with_lvl(&node_id, Some(sub_lvl));
            let root_id = if parent_ids.len() > 0 {
                parent_ids[parent_ids.len() - 1]
            } else {
                node_id
            };
            if let Some(temp_rooted_tree) = self.clone_from_with_lvl(root_id, Some(sub_lvl)) {
                proof {
                    crate::rooted_tree::lemma_nodes_finite(self);
                    assert(temp_rooted_tree@.nodes.dom() <= self@.nodes.dom());
                    vstd::set_lib::lemma_len_subset(
                        temp_rooted_tree@.nodes.dom(),
                        self@.nodes.dom(),
                    );
                }
                let mut select_nodes: Vec<u64> = Vec::new();
                select_nodes.push(node_id);
                let mut i: usize = 0;
                while i < parent_ids.len()
                    invariant
                        i <= parent_ids@.len(),
                        select_nodes@ == seq![node_id] + parent_ids@.take(i as int),
                    decreases parent_ids.len() - i,
                {
                    select_nodes.push(parent_ids[i]);
                    proof {
                        assert(select_nodes@ =~= seq![node_id] + parent_ids@.take(i + 1));
                    }
                    i = i + 1;
                }
                proof {
                    assert(parent_ids@.take(parent_ids@.len() as int) =~= parent_ids@);
                }
                let meta = Meta { select_nodes };
                return Self::_report(&temp_rooted_tree, config, &meta);
            }
        }
        Self::_report(self, config, &Meta::default())
    }
}

/// The recorded parent of the node answering to `id`, if any.
pub open spec fn recorded_parent(t: TreeView, id: u64) -> Option<u64> {
    match t.lookup(id) {
        Some(n) => n.parent,
        None => None,
    }
}

/// Whether `chain` is a recorded-parent chain from `x`: its first
/// element is `x`'s recorded parent, and each later element is the
/// recorded parent of the one before it.
pub open spec fn parent_chain(t: TreeView, x: u64, chain: Seq<u64>) -> bool
    decreases chain.len(),
{
    chain.len() == 0 || (recorded_parent(t, x) == Some(chain[0]) && parent_chain(
        t,
        chain[0],
        chain.drop_first(),
    ))
}

/// Law: on a store whose root identifier is not reused in the child
/// map, the upward traversal yields a recorded-parent chain of at most
/// the allowed number of hops.
pub proof fn lemma_ancestors_chain(t: TreeView, x: u64, budget: nat)
    requires
        t.root is Some ==> !t.nodes.contains_key(t.root->0.id),
    ensures
        parent_chain(t, x, crate::rooted_tree::ancestors_upto(t, x, budget)),
        crate::rooted_tree::ancestors_upto(t, x, budget).len() <= budget,
    decreases budget,
{
    let chain = crate::rooted_tree::ancestors_upto(t, x, budget);
    if budget > 0 {
        if t.nodes.contains_key(x) && t.nodes[x].parent is Some {
            let p = t.nodes[x].parent->0;
            lemma_ancestors_chain(t, p, (budget - 1) as nat);
            let rest = crate::rooted_tree::ancestors_upto(t, p, (budget - 1) as nat);
            assert(t.root is Some && t.root->0.id == x ==> false);
            assert(chain == seq![p] + rest);
            assert(chain[0] == p);
            assert(chain.drop_first() =~= rest);
        } else if t.root is Some && t.root->0.id == x {
            match t.root->0.parent {
                Some(q) => {
                    assert(chain =~= seq![q]);
                    assert(chain[0] == q);
                    assert(chain.drop_first() =~= Seq::<u64>::empty());
                    assert(recorded_parent(t, x) == Some(q));
                    assert(parent_chain(t, q, chain.drop_first()));
                },
                None => {
                    assert(chain =~= Seq::<u64>::empty());
                },
            }
        }
    }
}

/// Law: the window root of a selection render is the end of a
/// recorded-parent chain of at most half the radius rising from the
/// target, or the target itself when no ancestor is found within that
/// bound.
pub proof fn lemma_window_root_is_ancestor(t: TreeView, target: u64, radius: u32)
    requires
        t.root is Some ==> !t.nodes.contains_key(t.root->0.id),
    ensures
        ({
            let chain = spec_ancestors(t, target, Some(radius / 2));
            &&& parent_chain(t, target, chain)
            &&& chain.len() <= radius / 2
        }),
{
    lemma_ancestors_chain(t, target, (radius / 2) as nat);
}

/// Where scanning from `j` first finds `x`: at the first index holding
/// `x`, found exactly when some index from `j` on holds `x`.
proof fn lemma_first_index_of_finds(ids: Seq<u64>, x: u64, j: int)
    requires
        0 <= j <= ids.len(),
    ensures
        first_index_of(ids, x, j) is Some <==> exists|p: int| j <= p < ids.len() && ids[p] == x,
        first_index_of(ids, x, j) is Some ==> ({
            let k = first_index_of(ids, x, j)->0;
            &&& j <= k < ids.len()
            &&& ids[k] == x
            &&& forall|q: int| j <= q < k ==> ids[q] != x
        }),
    decreases ids.len() - j,
{
    if j < ids.len() {
        if ids[j] == x {
            assert(j <= j < ids.len() && ids[j] == x);
        } else {
            lemma_first_index_of_finds(ids, x, j + 1);
        }
    }
}

/// When the selection path's entries before `i0` are absent from the
/// children and `meta[i0]` is present, the scan settles on the first
/// occurrence of `meta[i0]`.
proof fn lemma_first_sel_match_settles(meta: Seq<u64>, ids: Seq<u64>, s: int, i0: int)
    requires
        0 <= s <= i0 < meta.len(),
        forall|i: int| s <= i < i0 ==> !ids.contains(#[trigger] meta[i]),
        ids.contains(meta[i0]),
    ensures
        first_sel_match(meta, ids, s) == first_index_of(ids, meta[i0], 0),
        first_sel_match(meta, ids, s) is Some,
    decreases i0 - s,
{
    lemma_first_index_of_finds(ids, meta[s], 0);
    if s < i0 {
        assert(!(exists|p: int| 0 <= p < ids.len() && ids[p] == meta[s]));
        lemma_first_sel_match_settles(meta, ids, s + 1, i0);
    } else {
        let p = choose|p: int| 0 <= p < ids.len() && ids[p] == meta[i0];
        assert(0 <= p < ids.len() && ids[p] == meta[i0]);
    }
}

/// Whether every answer the store gives carries the identifier it was
/// asked for.
pub open spec fn ids_consistent(t: TreeView) -> bool {
    forall|k: u64| #[trigger] t.lookup(k) is Some ==> t.lookup(k)->0.id == k
}

/// Whether every registered node that records a parent which resolves
/// is listed among that parent's children.
pub open spec fn linked_down(t: TreeView) -> bool {
    forall|c: u64|
        #[trigger] t.nodes.contains_key(c) && t.nodes[c].parent is Some && t.lookup(
            t.nodes[c].parent->0,
        ) is Some ==> t.lookup(t.nodes[c].parent->0)->0.children.contains(c)
}

/// Whether every registered node listed among some resolvable node's
/// children records that node as its parent.
pub open spec fn linked_up(t: TreeView) -> bool {
    forall|p: u64, c: u64|
        #[trigger] t.lookup(p) is Some && t.lookup(p)->0.children.contains(c)
            && #[trigger] t.nodes.contains_key(c) ==> t.nodes[c].parent == Some(p)
}

/// A render walk over the children `ids[i..]` lists everything the
/// walk from a later index `idx` lists, as long as the tail cut does
/// not strike before `idx`.
proof fn lemma_children_walk_super(
    t: TreeView,
    cfg: Config,
    meta: Seq<u64>,
    ids: Seq<u64>,
    i: int,
    idx: int,
    prefixes: Seq<LvlChar>,
    plen: u32,
    cut: bool,
    budget: nat,
)
    requires
        0 <= i <= idx < ids.len(),
        cfg.max_children is Some && cut ==> idx < cfg.max_children->0 as int,
    ensures
        forall|y: u64|
            spec_format_children(t, cfg, meta, ids, idx, prefixes, plen, cut, budget).ids.contains(
                y,
            ) ==> spec_format_children(
                t,
                cfg,
                meta,
                ids,
                i,
                prefixes,
                plen,
                cut,
                budget,
            ).ids.contains(y),
    decreases idx - i,
{
    broadcast use vstd::seq_lib::group_seq_properties;

    if i < idx {
        lemma_children_walk_super(t, cfg, meta, ids, i + 1, idx, prefixes, plen, cut, budget);
    }
}

/// The walk from the selection target upward: at each step `i` below
/// `j`, the node answering to `meta[i]` records `meta[i + 1]` as its
/// parent.
pub open spec fn path_up_to(t: TreeView, meta: Seq<u64>, j: int) -> bool {
    &&& forall|i: int| 0 <= i <= j ==> t.lookup(#[trigger] meta[i]) is Some
    &&& forall|i: int| 0 <= i < j ==> t.lookup(#[trigger] meta[i])->0.parent == Some(meta[i + 1])
}

/// A well-formed render never drops the selection path: the rendering
/// of the node answering to `meta[j]` lists the target `meta[0]`,
/// whatever glyph stack and suffix it is drawn under.
proof fn lemma_format_keeps_path(
    t: TreeView,
    cfg: Config,
    meta: Seq<u64>,
    j: int,
    v: NodeView,
    prefixes: Seq<LvlChar>,
    suffix: Seq<char>,
    budget: nat,
)
    requires
        ids_consistent(t),
        linked_down(t),
        linked_up(t),
        cfg.select_node is Some,
        cfg.max_children is Some ==> cfg.max_children->0 >= 1,
        t.root is Some,
        t.root->0.id == meta.last(),
        meta.no_duplicates(),
        0 <= j < meta.len(),
        path_up_to(t, meta, j),
        v == t.lookup(meta[j])->0,
        budget >= j,
    ensures
        spec_format(t, cfg, meta, v, prefixes, suffix, budget).ids.contains(meta[0]),
    decreases j,
{
    broadcast use vstd::seq_lib::group_seq_properties;

    let out = spec_format(t, cfg, meta, v, prefixes, suffix, budget);
    if j == 0 {
        assert(v.id == meta[0]);
        assert(out.ids[0] == meta[0]);
    } else {
        let c = meta[j - 1];
        let cn = t.lookup(c)->0;
        let last = meta.len() - 1;
        // path members below the top are registered in the child map:
        // only the root resolves outside it, and it stands at the top
        // of the path
        assert forall|i: int| 0 <= i < j implies t.nodes.contains_key(#[trigger] meta[i]) by {
            if !t.nodes.contains_key(meta[i]) {
                assert(t.lookup(meta[i]) is Some);
                assert(meta[i] == t.root->0.id);
                assert(meta[i] == meta[last]);
                assert(i < last);
            }
        }
        // the path child is listed among this node's children
        assert(cn.parent == Some(meta[j]));
        assert(t.nodes.contains_key(c));
        assert(v.children.contains(c));
        // no earlier path entry is listed there
        assert forall|i: int| 0 <= i < j - 1 implies !v.children.contains(#[trigger] meta[i]) by {
            if v.children.contains(meta[i]) {
                assert(t.nodes.contains_key(meta[i]));
                assert(t.lookup(meta[j]) is Some && t.lookup(meta[j])->0.children.contains(
                    meta[i],
                ));
                assert(t.nodes[meta[i]].parent == Some(meta[j]));
                assert(t.lookup(meta[i])->0 == t.nodes[meta[i]]);
                assert(meta[i + 1] == meta[j]);
            }
        }
        // where the truncated child list keeps the path child
        let wrapped = spec_wrap_top(cfg, meta, v.children);
        let kept = wrapped.0;
        let cut = wrapped.2;
        let idx: int = match cfg.max_children {
            Some(mc) => {
                if v.children.len() <= mc as int {
                    lemma_first_index_of_finds(v.children, c, 0);
                    let k = choose|k: int| 0 <= k < v.children.len() && v.children[k] == c;
                    assert(v.children[k] == c);
                    k
                } else {
                    lemma_first_sel_match_settles(meta, v.children, 0, j - 1);
                    lemma_first_index_of_finds(v.children, c, 0);
                    let k = first_index_of(v.children, c, 0)->0;
                    let start: int = if k > mc as int / 2 {
                        k - mc as int / 2
                    } else {
                        0
                    };
                    assert(mc as int / 2 < mc as int);
                    if start == 0 {
                        assert(kept == v.children);
                        k
                    } else {
                        assert(kept == v.children.skip(start));
                        assert(kept[k - start] == c);
                        k - start
                    }
                }
            },
            None => {
                lemma_first_index_of_finds(v.children, c, 0);
                let k = choose|k: int| 0 <= k < v.children.len() && v.children[k] == c;
                assert(v.children[k] == c);
                k
            },
        };
        assert(0 <= idx < kept.len());
        assert(kept[idx] == c);
        assert(cfg.max_children is Some && cut ==> idx < cfg.max_children->0 as int);
        // the walk reaches the path child and renders below it
        let inner = spec_format_children(t, cfg, meta, kept, idx, prefixes,
            parent_label_width(v.parent) as u32, cut, budget);
        let is_end = idx == kept.len() - 1;
        let plen = parent_label_width(v.parent) as u32;
        let sub = spec_format(
            t,
            cfg,
            meta,
            cn,
            prefixes.push(
                if is_end {
                    LvlChar::Space(plen)
                } else {
                    LvlChar::SolidBar(plen)
                },
            ),
            glyph_chars(
                if is_end {
                    LvlChar::SolidAngle(plen)
                } else {
                    LvlChar::SolidCross(plen)
                },
            ),
            (budget - 1) as nat,
        );
        assert(meta.take(j).no_duplicates()) by {
            assert(forall|p: int, q: int|
                0 <= p < q < j ==> meta.take(j)[p] == meta[p] && meta.take(j)[q] == meta[q]);
        }
        lemma_format_keeps_path(
            t,
            cfg,
            meta,
            j - 1,
            cn,
            prefixes.push(
                if is_end {
                    LvlChar::Space(plen)
                } else {
                    LvlChar::SolidBar(plen)
                },
            ),
            glyph_chars(
                if is_end {
                    LvlChar::SolidAngle(plen)
                } else {
                    LvlChar::SolidCross(plen)
                },
            ),
            (budget - 1) as nat,
        );
        assert(sub.ids.contains(meta[0]));
        assert(inner.ids.contains(meta[0]));
        lemma_children_walk_super(t, cfg, meta, kept, 0, idx, prefixes, plen, cut, budget);
        assert(spec_format_children(t, cfg, meta, kept, 0, prefixes, plen, cut, budget).ids.contains(
            meta[0],
        ));
        assert(out.ids.contains(meta[0]));
    }
}

/// A parent chain read entry by entry: from the walk's start, each
/// entry is the recorded parent of the one before it.
proof fn lemma_parent_chain_indexed(t: TreeView, x: u64, chain: Seq<u64>)
    requires
        parent_chain(t, x, chain),
    ensures
        forall|i: int|
            0 <= i < chain.len() ==> recorded_parent(t, (seq![x] + chain)[i]) == Some(
                #[trigger] (seq![x] + chain)[i + 1],
            ),
    decreases chain.len(),
{
    if chain.len() > 0 {
        lemma_parent_chain_indexed(t, chain[0], chain.drop_first());
        let meta = seq![x] + chain;
        let inner = seq![chain[0]] + chain.drop_first();
        assert(inner =~= chain);
        assert forall|i: int| 0 <= i < chain.len() implies recorded_parent(t, meta[i]) == Some(
            #[trigger] meta[i + 1],
        ) by {
            if i == 0 {
                assert(meta[0] == x && meta[1] == chain[0]);
            } else {
                assert(inner[i - 1] == meta[i] && inner[i] == meta[i + 1]);
                assert(recorded_parent(t, inner[i - 1]) == Some(inner[i]));
            }
        }
    }
}

/// Every node on the selection path below position `j` appears in the
/// bounded downward traversal from the path's node at `j`.
proof fn lemma_path_in_descendants(t: TreeView, meta: Seq<u64>, j: int, b: nat)
    requires
        linked_down(t),
        0 <= j < meta.len(),
        path_up_to(t, meta, j),
        forall|i: int| 0 <= i < j ==> t.nodes.contains_key(#[trigger] meta[i]),
        b >= j,
    ensures
        forall|i: int|
            0 <= i < j ==> crate::rooted_tree::descendants_upto(t, meta[j], b).contains(
                #[trigger] meta[i],
            ),
    decreases j,
{
    if j > 0 {
        let c = meta[j - 1];
        assert(t.nodes[c].parent == Some(meta[j]));
        assert(t.lookup(c)->0 == t.nodes[c]);
        assert(t.lookup(meta[j])->0.children.contains(c));
        crate::rooted_tree::lemma_descendants_reach_child(t, meta[j], c, b);
        lemma_path_in_descendants(t, meta, j - 1, (b - 1) as nat);
    }
}

/// A finite domain that holds every entry of a duplicate-free sequence
/// is at least as large as the sequence.
proof fn lemma_distinct_members_bound(s: Seq<u64>, dom: Set<u64>)
    requires
        s.no_duplicates(),
        forall|i: int| 0 <= i < s.len() ==> dom.contains(#[trigger] s[i]),
        dom.finite(),
    ensures
        dom.len() >= s.len(),
{
    s.unique_seq_to_set();
    assert forall|x: u64| s.to_set().contains(x) implies dom.contains(x) by {
        let i = choose|i: int| 0 <= i < s.len() && s[i] == x;
        assert(dom.contains(s[i]));
    }
    vstd::set_lib::lemma_len_subset(s.to_set(), dom);
}

/// A structurally sound store: every answer carries the identifier it
/// was asked for, the root's identifier is not reused in the child
/// map, parent/child linkage round-trips both ways, every recorded
/// parent of a registered node resolves, the root is not a detached
/// view, and the store is finite.
pub open spec fn store_well_formed(t: TreeView) -> bool {
    &&& ids_consistent(t)
    &&& linked_down(t)
    &&& linked_up(t)
    &&& (t.root is Some ==> !t.nodes.contains_key(t.root->0.id))
    &&& (forall|c: u64|
        #[trigger] t.nodes.contains_key(c) && t.nodes[c].parent is Some ==> t.contains_id(
            t.nodes[c].parent->0,
        ))
    &&& (t.root is Some ==> t.root->0.parent is None)
    &&& t.nodes.dom().finite()
}

/// The identifiers of the nodes that a whole report gives a line of
/// their own, in the order printed.
pub open spec fn spec_report_with_ids(t: TreeView, cfg: Config, meta: Seq<u64>) -> Seq<u64> {
    match t.root {
        Some(root) => match root.parent {
            Some(_) => spec_format(
                t,
                cfg,
                meta,
                root,
                seq![LvlChar::DashBar(parent_label_width(root.parent) as u32)],
                Seq::empty(),
                report_budget(t),
            ).ids,
            None => spec_format(
                t,
                cfg,
                meta,
                root,
                Seq::empty(),
                Seq::empty(),
                report_budget(t),
            ).ids,
        },
        None => Seq::empty(),
    }
}

/// The identifiers of the nodes that `report` gives a line of their
/// own.
pub open spec fn spec_report_ids(t: TreeView, cfg: Config) -> Seq<u64> {
    match cfg.select_node {
        Some((node_id, lvl)) => {
            let sub_lvl = lvl / 2;
            let parent_ids = spec_ancestors(t, node_id, Some(sub_lvl));
            let root_id = if parent_ids.len() > 0 {
                parent_ids.last()
            } else {
                node_id
            };
            let temp = clone_from_spec(t, root_id, Some(sub_lvl));
            spec_report_with_ids(temp, cfg, seq![node_id] + parent_ids)
        },
        None => spec_report_with_ids(t, cfg, Seq::empty()),
    }
}

/// Law: a selection-centered render never omits the target's own
/// line.  The store must be well formed, the target registered, the
/// ancestor walk free of repeats, and any child budget at least one;
/// on a detached sub-tree whose external parent falls inside the
/// radius the window can leave the store entirely, so such stores are
/// excluded by the well-formedness condition.
#[verifier::rlimit(60)]
pub proof fn lemma_windowed_report_keeps_target(t: TreeView, cfg: Config, target: u64, radius: u32)
    requires
        store_well_formed(t),
        cfg.select_node == Some((target, radius)),
        cfg.max_children is Some ==> cfg.max_children->0 >= 1,
        t.contains_id(target),
        (seq![target] + spec_ancestors(t, target, Some(radius / 2))).no_duplicates(),
    ensures
        spec_report_ids(t, cfg).contains(target),
{
    broadcast use vstd::seq_lib::group_seq_properties;
    broadcast use vstd::set::group_set_axioms;

    let h = radius / 2;
    let a = spec_ancestors(t, target, Some(h));
    lemma_ancestors_chain(t, target, h as nat);
    let meta = seq![target] + a;
    let m = a.len() as int;
    lemma_parent_chain_indexed(t, target, a);
    assert(meta[0] == target);
    assert(meta.last() == if m > 0 {
        a.last()
    } else {
        target
    });

    // every path entry resolves, and all but the last in the child map
    assert forall|i: int| 0 <= i < m implies t.lookup(#[trigger] meta[i]) is Some
        && t.lookup(meta[i])->0.parent == Some(meta[i + 1]) && t.nodes.contains_key(meta[i]) by {
        assert(recorded_parent(t, meta[i]) == Some(meta[i + 1]));
        if !t.nodes.contains_key(meta[i]) {
            // only the root resolves outside the child map, and the
            // root of a sound store records no parent
            assert(t.root is Some && t.root->0.id == meta[i]);
            assert(t.lookup(meta[i])->0.parent is None);
        }
    }
    assert(t.lookup(meta[m]) is Some) by {
        if m > 0 {
            assert(t.nodes.contains_key(meta[m - 1]));
            assert(t.nodes[meta[m - 1]].parent == Some(meta[m]));
            assert(t.contains_id(meta[m]));
        }
    }

    let w = meta.last();
    let wn = t.lookup(w)->0;
    let temp = clone_from_spec(t, w, Some(h));

    // the window's root is the node answering to `w`
    assert(temp.root == Some(wn)) by {
        if t.root is Some && t.root->0.id == w {
            assert(!t.nodes.contains_key(w));
        } else {
            assert(t.nodes.contains_key(w));
        }
    }

    // the path below the window root survives the extraction
    lemma_path_in_descendants(t, meta, m, h as nat);
    let kept = spec_descendants(t, w, Some(h)).to_set();
    assert forall|i: int| 0 <= i < m implies temp.nodes.contains_key(#[trigger] meta[i])
        && temp.nodes[meta[i]] == t.nodes[meta[i]] by {
        assert(kept.contains(meta[i]));
    }

    // answers in the window agree with answers in the store
    assert forall|p: u64| #[trigger] temp.lookup(p) is Some implies temp.lookup(p) == t.lookup(
        p,
    ) by {
        if temp.nodes.contains_key(p) {
            assert(t.nodes.contains_key(p));
        } else {
            assert(temp.root is Some && temp.root->0.id == p);
            assert(wn.id == w);
        }
    }

    // the window inherits the store's soundness
    assert(ids_consistent(temp));
    assert(linked_down(temp)) by {
        assert forall|c: u64|
            #[trigger] temp.nodes.contains_key(c) && temp.nodes[c].parent is Some && temp.lookup(
                temp.nodes[c].parent->0,
            ) is Some implies temp.lookup(temp.nodes[c].parent->0)->0.children.contains(c) by {
            assert(t.nodes.contains_key(c));
            assert(temp.nodes[c] == t.nodes[c]);
        }
    }
    assert(linked_up(temp)) by {
        assert forall|p: u64, c: u64|
            #[trigger] temp.lookup(p) is Some && temp.lookup(p)->0.children.contains(c)
                && #[trigger] temp.nodes.contains_key(c) implies temp.nodes[c].parent == Some(
            p,
        ) by {
            assert(t.lookup(p) == temp.lookup(p));
            assert(t.nodes.contains_key(c));
        }
    }

    // the path climbs through the window exactly as through the store
    assert(path_up_to(temp, meta, m)) by {
        assert forall|i: int| 0 <= i <= m implies temp.lookup(#[trigger] meta[i]) is Some by {
            if i < m {
                assert(temp.nodes.contains_key(meta[i]));
            } else {
                if temp.nodes.contains_key(meta[m]) {
                } else {
                    assert(temp.root is Some && temp.root->0.id == w);
                }
            }
        }
        assert forall|i: int| 0 <= i < m implies temp.lookup(#[trigger] meta[i])->0.parent == Some(
            meta[i + 1],
        ) by {
            assert(temp.nodes.contains_key(meta[i]));
        }
    }

    // the window holds at least the path, so its budget covers it
    assert(report_budget(temp) >= m + 1) by {
        assert(temp.nodes.dom().finite()) by {
            vstd::set_lib::lemma_len_subset(temp.nodes.dom(), t.nodes.dom());
        }
        let front = meta.take(m);
        assert(front.no_duplicates()) by {
            assert(forall|p: int| 0 <= p < m ==> front[p] == meta[p]);
        }
        assert forall|i: int| 0 <= i < front.len() implies temp.nodes.dom().contains(
            #[trigger] front[i],
        ) by {
            assert(front[i] == meta[i]);
        }
        lemma_distinct_members_bound(front, temp.nodes.dom());
    }

    // the rendering of the window root keeps the target's line
    assert(temp.root->0 == wn);
    assert(wn.id == w && w == meta.last());
    match wn.parent {
        Some(_) => {
            lemma_format_keeps_path(
                temp,
                cfg,
                meta,
                m,
                wn,
                seq![LvlChar::DashBar(parent_label_width(wn.parent) as u32)],
                Seq::empty(),
                report_budget(temp),
            );
        },
        None => {
            lemma_format_keeps_path(
                temp,
                cfg,
                meta,
                m,
                wn,
                Seq::empty(),
                Seq::empty(),
                report_budget(temp),
            );
        },
    }
    assert(spec_report_with_ids(temp, cfg, meta).contains(target));
}

/// The rest of a string after its leading newline.
fn strip_leading_newline(s: &str) -> (r: String)
    requires
        s@.len() >= 1,
        s@[0] == '\n',
    ensures
        r@ == s@.skip(1),
{
    proof {
        broadcast use vstd::utf8::encode_utf8_valid_utf8;
        broadcast use vstd::utf8::encode_utf8_decode_utf8;

        let bytes = s.spec_bytes();
        assert(bytes == vstd::utf8::encode_utf8(s@));
        vstd::utf8::encode_utf8_first_scalar(s@);
        assert(vstd::utf8::encode_scalar('\n' as u32).len() == 1);
        assert(vstd::utf8::is_char_boundary(bytes, 1)) by {
            assert(vstd::utf8::is_char_boundary(vstd::utf8::pop_first_scalar(bytes), 0));
        }
    }
    let pieces = s.split_at(1);
    let rest = pieces.1;
    proof {
        broadcast use vstd::utf8::encode_utf8_valid_utf8;
        broadcast use vstd::utf8::encode_utf8_decode_utf8;

        let bytes = s.spec_bytes();
        assert(bytes == vstd::utf8::encode_scalar(s@[0] as u32) + vstd::utf8::encode_utf8(
            s@.drop_first(),
        ));
        assert(rest.spec_bytes() =~= vstd::utf8::encode_utf8(s@.drop_first()));
        assert(vstd::utf8::decode_utf8(vstd::utf8::encode_utf8(rest@)) == rest@);
        assert(vstd::utf8::decode_utf8(vstd::utf8::encode_utf8(s@.drop_first()))
            == s@.drop_first());
        assert(rest@ == s@.drop_first());
        assert(s@.drop_first() =~= s@.skip(1));
    }
    rest.to_owned()
}

impl RootedTree {
    /// The diagram in its plain textual form: the default report
    /// without its leading newline.
    pub fn to_display_string(&self) -> (r: String)
        requires
            self@.nodes.len() < usize::MAX,
        ensures
            r@ == spec_report(
                self@,
                Config { max_children: None, child_wrap: ChildWrap::Bottom, select_node: None },
            ).skip(1),
    {
        let config = Config::default();
        let text = match self.report(&config) {
            Ok(t) => t,
            Err(_) => {
                proof {
                    assert(false);
                }
                String::new()
            },
        };
        proof {
            reveal_strlit("\n");
            assert(text@[0] == '\n');
        }
        strip_leading_newline(text.as_str())
    }
}

/// What `report` prints.  Without a selection the store is rendered
/// whole.  With one, the window root is the farthest ancestor within
/// half the radius (the target itself failing that); the sub-tree
/// extracted there to the same depth is rendered with the selection
/// path, target first, biasing truncation.
pub open spec fn spec_report(t: TreeView, cfg: Config) -> Seq<char> {
    match cfg.select_node {
        Some((node_id, lvl)) => {
            let sub_lvl = lvl / 2;
            let parent_ids = spec_ancestors(t, node_id, Some(sub_lvl));
            let root_id = if parent_ids.len() > 0 {
                parent_ids.last()
            } else {
                node_id
            };
            let temp = clone_from_spec(t, root_id, Some(sub_lvl));
            spec_report_with(temp, cfg, seq![node_id] + parent_ids)
        },
        None => spec_report_with(t, cfg, Seq::empty()),
    }
}

} // verus!
