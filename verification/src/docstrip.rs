//! The documentation stripper: drops documentation entries from an item's
//! metadata and removes the missing-documentation lints from the entry
//! lists of `warn`, `deny` and `forbid` directives, keeping the directives
//! themselves, even when their lists become empty.

use vstd::prelude::*;
use vstd::string::*;

verus! {

/// The level of a lint directive.
#[derive(Clone, Copy, PartialEq, Eq, Structural, Debug)]
pub enum LintLevel {
    Warn,
    Deny,
    Forbid,
}

/// One entry of a lint directive's list: one of the two
/// missing-documentation lints, or any other entry, which is kept.
#[derive(Clone, Copy, PartialEq, Eq, Structural, Debug)]
pub enum LintEntry {
    MissingDocs,
    MissingCrateDocs,
    Other,
}

/// What the stripper reads of one metadata entry: a documentation entry, a
/// lint directive with its entry list, or anything else, left untouched.
pub enum AttrModel {
    Doc,
    Lint(LintLevel, Vec<LintEntry>),
    Other,
}

/// The specification-level value of a metadata entry.
pub enum AttrView {
    Doc,
    Lint(LintLevel, Seq<LintEntry>),
    Other,
}

/// The specification-level value of an `AttrModel`.
pub open spec fn attr_view(a: AttrModel) -> AttrView {
    match a {
        AttrModel::Doc => AttrView::Doc,
        AttrModel::Lint(l, es) => AttrView::Lint(l, es@),
        AttrModel::Other => AttrView::Other,
    }
}

/// The specification-level value of a metadata entry list.
pub open spec fn attrs_view(s: Seq<AttrModel>) -> Seq<AttrView> {
    s.map_values(|a: AttrModel| attr_view(a))
}

/// Whether a lint-list entry survives the stripper.
pub open spec fn entry_kept(e: LintEntry) -> bool {
    !(e is MissingDocs || e is MissingCrateDocs)
}

/// The entry list of a lint directive after stripping: the entries that are
/// not missing-documentation lints, in their original order.
pub open spec fn strip_entries(es: Seq<LintEntry>) -> Seq<LintEntry>
    decreases es,
{
    if es.len() == 0 {
        Seq::<LintEntry>::empty()
    } else {
        let rest = strip_entries(es.subrange(1, es.len() as int));
        if entry_kept(es[0]) {
            seq![es[0]] + rest
        } else {
            rest
        }
    }
}

/// One metadata entry after stripping: a lint directive keeps its level and
/// its stripped entry list; everything else is unchanged.
pub open spec fn strip_attr(a: AttrView) -> AttrView {
    match a {
        AttrView::Lint(l, es) => AttrView::Lint(l, strip_entries(es)),
        x => x,
    }
}

/// A metadata entry list after stripping: documentation entries are gone,
/// and each surviving entry is stripped in place.
pub open spec fn strip_attrs_spec(s: Seq<AttrView>) -> Seq<AttrView>
    decreases s,
{
    if s.len() == 0 {
        Seq::<AttrView>::empty()
    } else {
        let rest = strip_attrs_spec(s.subrange(1, s.len() as int));
        if s[0] is Doc {
            rest
        } else {
            seq![strip_attr(s[0])] + rest
        }
    }
}

/// Every entry of a stripped lint list survives another strip.
proof fn lemma_strip_entries_kept(es: Seq<LintEntry>)
    ensures
        forall|i: int| 0 <= i < strip_entries(es).len() ==> entry_kept(#[trigger] strip_entries(es)[i]),
    decreases es,
{
    if es.len() > 0 {
        let rest = es.subrange(1, es.len() as int);
        lemma_strip_entries_kept(rest);
        if entry_kept(es[0]) {
            assert(strip_entries(es) == seq![es[0]] + strip_entries(rest));
            assert forall|i: int| 0 <= i < strip_entries(es).len()
                implies entry_kept(#[trigger] strip_entries(es)[i]) by {
                if i > 0 {
                    assert(strip_entries(es)[i] == strip_entries(rest)[i - 1]);
                }
            }
        } else {
            assert(strip_entries(es) == strip_entries(rest));
        }
    }
}

/// A list whose entries are all kept is left as it is.
proof fn lemma_strip_entries_noop(es: Seq<LintEntry>)
    requires
        forall|i: int| 0 <= i < es.len() ==> entry_kept(#[trigger] es[i]),
    ensures
        strip_entries(es) == es,
    decreases es,
{
    if es.len() == 0 {
        assert(strip_entries(es) =~= es);
    } else {
        let rest = es.subrange(1, es.len() as int);
        lemma_strip_entries_noop(rest);
        assert(seq![es[0]] + rest =~= es);
    }
}

/// Stripping a lint list twice is the same as stripping it once.
pub proof fn lemma_strip_entries_idempotent(es: Seq<LintEntry>)
    ensures
        strip_entries(strip_entries(es)) == strip_entries(es),
{
    lemma_strip_entries_kept(es);
    lemma_strip_entries_noop(strip_entries(es));
}

/// No documentation entry survives stripping, and every survivor is
/// already fully stripped.
proof fn lemma_strip_attrs_shape(s: Seq<AttrView>)
    ensures
        forall|i: int| 0 <= i < strip_attrs_spec(s).len()
            ==> !(#[trigger] strip_attrs_spec(s)[i] is Doc),
        forall|i: int| 0 <= i < strip_attrs_spec(s).len()
            ==> strip_attr(#[trigger] strip_attrs_spec(s)[i]) == strip_attrs_spec(s)[i],
    decreases s,
{
    if s.len() > 0 {
        lemma_strip_attrs_shape(s.subrange(1, s.len() as int));
        if !(s[0] is Doc) {
            match s[0] {
                AttrView::Lint(l, es) => {
                    lemma_strip_entries_idempotent(es);
                },
                _ => {},
            }
        }
    }
}

/// A list without documentation entries whose entries are already stripped
/// is left as it is.
proof fn lemma_strip_attrs_noop(s: Seq<AttrView>)
    requires
        forall|i: int| 0 <= i < s.len() ==> !(#[trigger] s[i] is Doc),
        forall|i: int| 0 <= i < s.len() ==> strip_attr(#[trigger] s[i]) == s[i],
    ensures
        strip_attrs_spec(s) == s,
    decreases s,
{
    if s.len() == 0 {
        assert(strip_attrs_spec(s) =~= s);
    } else {
        let rest = s.subrange(1, s.len() as int);
        lemma_strip_attrs_noop(rest);
        assert(seq![strip_attr(s[0])] + rest =~= s);
    }
}

/// Stripping documentation metadata is idempotent: a second pass changes
/// nothing.
pub proof fn lemma_strip_docs_idempotent(attrs: Seq<AttrView>)
    ensures
        strip_attrs_spec(strip_attrs_spec(attrs)) == strip_attrs_spec(attrs),
{
    lemma_strip_attrs_shape(attrs);
    lemma_strip_attrs_noop(strip_attrs_spec(attrs));
}

/// The stripper introduces no documentation entries: none is left in its
/// output.
pub proof fn lemma_strip_docs_none_left(attrs: Seq<AttrView>)
    ensures
        forall|i: int| 0 <= i < strip_attrs_spec(attrs).len()
            ==> !(#[trigger] strip_attrs_spec(attrs)[i] is Doc),
{
    lemma_strip_attrs_shape(attrs);
}

/// Extending an entry list by one entry extends its stripped list by that
/// entry, when the entry is kept, and by nothing otherwise.
proof fn lemma_strip_entries_snoc(es: Seq<LintEntry>, e: LintEntry)
    ensures
        entry_kept(e) ==> strip_entries(es.push(e)) == strip_entries(es) + seq![e],
        !entry_kept(e) ==> strip_entries(es.push(e)) == strip_entries(es),
    decreases es,
{
    reveal_with_fuel(strip_entries, 2);
    let s = es.push(e);
    if es.len() == 0 {
        assert(s.subrange(1, s.len() as int) =~= Seq::<LintEntry>::empty());
        assert(s[0] == e);
        if entry_kept(e) {
            assert(seq![e] + Seq::<LintEntry>::empty() =~= Seq::<LintEntry>::empty() + seq![e]);
        }
    } else {
        assert(s[0] == es[0]);
        assert(s.subrange(1, s.len() as int) =~= es.subrange(1, es.len() as int).push(e));
        lemma_strip_entries_snoc(es.subrange(1, es.len() as int), e);
        if entry_kept(e) && entry_kept(es[0]) {
            assert(seq![es[0]] + (strip_entries(es.subrange(1, es.len() as int)) + seq![e])
                =~= (seq![es[0]] + strip_entries(es.subrange(1, es.len() as int))) + seq![e]);
        }
    }
}

/// Extending a metadata list by one entry extends its stripped list by
/// that entry's stripped form, unless it is a documentation entry.
proof fn lemma_strip_attrs_snoc(s: Seq<AttrView>, a: AttrView)
    ensures
        !(a is Doc) ==> strip_attrs_spec(s.push(a)) == strip_attrs_spec(s) + seq![strip_attr(a)],
        a is Doc ==> strip_attrs_spec(s.push(a)) == strip_attrs_spec(s),
    decreases s,
{
    reveal_with_fuel(strip_attrs_spec, 2);
    let t = s.push(a);
    if s.len() == 0 {
        assert(t.subrange(1, t.len() as int) =~= Seq::<AttrView>::empty());
        assert(t[0] == a);
        if !(a is Doc) {
            assert(seq![strip_attr(a)] + Seq::<AttrView>::empty()
                =~= Seq::<AttrView>::empty() + seq![strip_attr(a)]);
        }
    } else {
        assert(t[0] == s[0]);
        assert(t.subrange(1, t.len() as int) =~= s.subrange(1, s.len() as int).push(a));
        lemma_strip_attrs_snoc(s.subrange(1, s.len() as int), a);
        if !(a is Doc) && !(s[0] is Doc) {
            assert(seq![strip_attr(s[0])] + (strip_attrs_spec(s.subrange(1, s.len() as int)) + seq![strip_attr(a)])
                =~= (seq![strip_attr(s[0])] + strip_attrs_spec(s.subrange(1, s.len() as int))) + seq![strip_attr(a)]);
        }
    }
}

/// Whether a lint-list entry survives the stripper.
pub fn lint_entry_kept(e: &LintEntry) -> (r: bool)
    ensures
        r == entry_kept(*e),
{
    match e {
        LintEntry::MissingDocs => false,
        LintEntry::MissingCrateDocs => false,
        LintEntry::Other => true,
    }
}

/// Strips one lint directive's entry list.
fn strip_entry_list(es: &Vec<LintEntry>) -> (r: Vec<LintEntry>)
    ensures
        r@ == strip_entries(es@),
{
    let mut out: Vec<LintEntry> = Vec::new();
    let mut i: usize = 0;
    proof {
        assert(es@.subrange(0, 0) =~= Seq::<LintEntry>::empty());
    }
    while i < es.len()
        invariant
            0 <= i <= es.len(),
            out@ == strip_entries(es@.subrange(0, i as int)),
        decreases es.len() - i,
    {
        proof {
            assert(es@.subrange(0, i as int + 1) =~= es@.subrange(0, i as int).push(es@[i as int]));
            lemma_strip_entries_snoc(es@.subrange(0, i as int), es@[i as int]);
        }
        if lint_entry_kept(&es[i]) {
            out.push(es[i]);
        }
        i += 1;
    }
    proof {
        assert(es@.subrange(0, es@.len() as int) =~= es@);
    }
    out
}

/// Strips a metadata entry list: documentation entries are dropped, lint
/// directives keep their level with the missing-documentation lints
/// removed from their lists, everything else is kept as it is.
pub fn strip_doc_attrs(attrs: &Vec<AttrModel>) -> (r: Vec<AttrModel>)
    ensures
        attrs_view(r@) == strip_attrs_spec(attrs_view(attrs@)),
{
    let mut out: Vec<AttrModel> = Vec::new();
    let mut i: usize = 0;
    proof {
        assert(attrs_view(attrs@.subrange(0, 0)) =~= Seq::<AttrView>::empty());
        assert(attrs_view(out@) =~= Seq::<AttrView>::empty());
    }
    while i < attrs.len()
        invariant
            0 <= i <= attrs.len(),
            attrs_view(out@) == strip_attrs_spec(attrs_view(attrs@.subrange(0, i as int))),
        decreases attrs.len() - i,
    {
        let ghost prev = attrs_view(attrs@.subrange(0, i as int));
        proof {
            assert(attrs_view(attrs@.subrange(0, i as int + 1))
                =~= prev.push(attr_view(attrs@[i as int])));
            lemma_strip_attrs_snoc(prev, attr_view(attrs@[i as int]));
        }
        match &attrs[i] {
            AttrModel::Doc => {},
            AttrModel::Lint(l, es) => {
                let stripped = strip_entry_list(es);
                out.push(AttrModel::Lint(*l, stripped));
                proof {
                    assert(attrs_view(out@)
                        =~= strip_attrs_spec(prev) + seq![strip_attr(attr_view(attrs@[i as int]))]);
                }
            },
            AttrModel::Other => {
                out.push(AttrModel::Other);
                proof {
                    assert(attrs_view(out@)
                        =~= strip_attrs_spec(prev) + seq![strip_attr(attr_view(attrs@[i as int]))]);
                }
            },
        }
        i += 1;
    }
    proof {
        assert(attrs@.subrange(0, attrs@.len() as int) =~= attrs@);
    }
    out
}

/// The specification-level value of an optional identifier.
pub open spec fn opt_view(o: Option<String>) -> Option<Seq<char>> {
    match o {
        Some(s) => Some(s@),
        None => None,
    }
}

/// Classification of one lint-list entry from its path identifier, where
/// the entry is a plain path with a single identifier.
pub open spec fn classify_entry_spec(e: Option<Seq<char>>) -> LintEntry {
    if e == Some("missing_docs"@) {
        LintEntry::MissingDocs
    } else if e == Some("missing_crate_level_docs"@) {
        LintEntry::MissingCrateDocs
    } else {
        LintEntry::Other
    }
}

/// Classification of one metadata entry from what the parser reports of
/// it: whether its meta form parsed, the single identifier of its path if
/// it has one, whether it is a list, and each list entry's own single-path
/// identifier.  Any entry whose path is `doc` is documentation; a parsed
/// list at one of the three lint levels is a lint directive; everything
/// else is left untouched.
pub open spec fn classify_spec(parsed: bool, path: Option<Seq<char>>, is_list: bool,
    entries: Seq<Option<Seq<char>>>) -> AttrView {
    if !parsed {
        AttrView::Other
    } else if path == Some("doc"@) {
        AttrView::Doc
    } else if is_list && path == Some("warn"@) {
        AttrView::Lint(LintLevel::Warn, entries.map_values(|e: Option<Seq<char>>| classify_entry_spec(e)))
    } else if is_list && path == Some("deny"@) {
        AttrView::Lint(LintLevel::Deny, entries.map_values(|e: Option<Seq<char>>| classify_entry_spec(e)))
    } else if is_list && path == Some("forbid"@) {
        AttrView::Lint(LintLevel::Forbid, entries.map_values(|e: Option<Seq<char>>| classify_entry_spec(e)))
    } else {
        AttrView::Other
    }
}

/// Compares a string with a literal.
fn str_is(s: &String, t: &str) -> (r: bool)
    ensures
        r == (s@ == t@),
{
    let u = String::from_str(t);
    s.eq(&u)
}

/// Classifies one lint-list entry.
pub fn classify_entry(e: &Option<String>) -> (r: LintEntry)
    ensures
        r == classify_entry_spec(opt_view(*e)),
{
    match e {
        Some(s) => if str_is(s, "missing_docs") {
            LintEntry::MissingDocs
        } else if str_is(s, "missing_crate_level_docs") {
            LintEntry::MissingCrateDocs
        } else {
            LintEntry::Other
        },
        None => LintEntry::Other,
    }
}

/// Classifies one metadata entry from what the parser reports of it.
pub fn classify_attr(parsed: bool, path: &Option<String>, is_list: bool,
    entries: &Vec<Option<String>>) -> (r: AttrModel)
    ensures
        attr_view(r) == classify_spec(parsed, opt_view(*path), is_list,
            entries@.map_values(|e: Option<String>| opt_view(e))),
{
    let ghost especs = entries@.map_values(|e: Option<String>| opt_view(e));
    if !parsed {
        return AttrModel::Other;
    }
    match path {
        Some(p) => {
            if str_is(p, "doc") {
                AttrModel::Doc
            } else if is_list && (str_is(p, "warn") || str_is(p, "deny") || str_is(p, "forbid")) {
                let level = if str_is(p, "warn") {
                    LintLevel::Warn
                } else if str_is(p, "deny") {
                    LintLevel::Deny
                } else {
                    LintLevel::Forbid
                };
                let mut es: Vec<LintEntry> = Vec::new();
                let mut i: usize = 0;
                while i < entries.len()
                    invariant
                        0 <= i <= entries.len(),
                        especs == entries@.map_values(|e: Option<String>| opt_view(e)),
                        es@ == especs.subrange(0, i as int).map_values(
                            |e: Option<Seq<char>>| classify_entry_spec(e)),
                    decreases entries.len() - i,
                {
                    es.push(classify_entry(&entries[i]));
                    proof {
                        assert(es@ =~= especs.subrange(0, i as int + 1).map_values(
                            |e: Option<Seq<char>>| classify_entry_spec(e)));
                    }
                    i += 1;
                }
                proof {
                    assert(especs.subrange(0, especs.len() as int) =~= especs);
                }
                AttrModel::Lint(level, es)
            } else {
                AttrModel::Other
            }
        },
        None => AttrModel::Other,
    }
}

/// One node of a syntax tree, as the stripper sees it: the metadata
/// entries attached to it, and its child nodes.  Every node category that
/// can carry metadata is rewritten the same way, so one node shape models
/// the whole closed set.
pub struct MetaNode {
    pub attrs: Vec<AttrModel>,
    pub children: Vec<MetaNode>,
}

/// The specification-level value of a tree node.
pub struct NodeView {
    pub attrs: Seq<AttrView>,
    pub children: Seq<NodeView>,
}

/// The specification-level value of a node sequence.
pub open spec fn nodes_view(s: Seq<MetaNode>) -> Seq<NodeView>
    decreases s, 0int,
{
    if s.len() == 0 {
        Seq::<NodeView>::empty()
    } else {
        seq![node_view(s[0])] + nodes_view(s.subrange(1, s.len() as int))
    }
}

/// The specification-level value of a `MetaNode`.
pub open spec fn node_view(n: MetaNode) -> NodeView
    decreases n, 1int,
{
    proof {
        assert(decreases_to!(n => n.children));
        assert(decreases_to!(n.children => n.children@));
    }
    NodeView { attrs: attrs_view(n.attrs@), children: nodes_view(n.children@) }
}

/// A node after stripping: its metadata stripped, its children stripped in
/// order, nothing else changed.
pub open spec fn strip_node_spec(n: NodeView) -> NodeView
    decreases n, 1int,
{
    proof {
        assert(decreases_to!(n => n.children));
    }
    NodeView { attrs: strip_attrs_spec(n.attrs), children: strip_nodes_spec(n.children) }
}

/// A node sequence after stripping, node by node.
pub open spec fn strip_nodes_spec(s: Seq<NodeView>) -> Seq<NodeView>
    decreases s, 0int,
{
    if s.len() == 0 {
        Seq::<NodeView>::empty()
    } else {
        seq![strip_node_spec(s[0])] + strip_nodes_spec(s.subrange(1, s.len() as int))
    }
}

/// Whether a documentation entry occurs anywhere in a tree.
pub open spec fn node_has_doc(n: NodeView) -> bool
    decreases n, 1int,
{
    proof {
        assert(decreases_to!(n => n.children));
    }
    (exists|i: int| 0 <= i < n.attrs.len() && (#[trigger] n.attrs[i]) is Doc)
        || nodes_have_doc(n.children)
}

/// Whether a documentation entry occurs anywhere under a node sequence.
pub open spec fn nodes_have_doc(s: Seq<NodeView>) -> bool
    decreases s, 0int,
{
    exists|i: int| 0 <= i < s.len() && node_has_doc(#[trigger] s[i])
}

/// Stripping a whole tree is idempotent: a second pass changes nothing.
pub proof fn lemma_strip_node_idempotent(n: NodeView)
    ensures
        strip_node_spec(strip_node_spec(n)) == strip_node_spec(n),
    decreases n, 1int,
{
    lemma_strip_docs_idempotent(n.attrs);
    lemma_strip_nodes_idempotent(n.children);
}

/// Stripping a node sequence is idempotent.
pub proof fn lemma_strip_nodes_idempotent(s: Seq<NodeView>)
    ensures
        strip_nodes_spec(strip_nodes_spec(s)) == strip_nodes_spec(s),
    decreases s, 0int,
{
    if s.len() > 0 {
        let rest = s.subrange(1, s.len() as int);
        assert(decreases_to!(s => s[0]));
        lemma_strip_node_idempotent(s[0]);
        lemma_strip_nodes_idempotent(rest);
        let t = strip_nodes_spec(s);
        assert(t[0] == strip_node_spec(s[0]));
        assert(t.subrange(1, t.len() as int) =~= strip_nodes_spec(rest));
        assert(strip_nodes_spec(t)
            =~= seq![strip_node_spec(t[0])] + strip_nodes_spec(strip_nodes_spec(rest)));
    }
}

/// The stripper leaves no documentation entry anywhere in a tree.
pub proof fn lemma_strip_node_no_docs(n: NodeView)
    ensures
        !node_has_doc(strip_node_spec(n)),
    decreases n, 1int,
{
    lemma_strip_docs_none_left(n.attrs);
    lemma_strip_nodes_no_docs(n.children);
}

/// The stripper leaves no documentation entry anywhere under a node
/// sequence.
pub proof fn lemma_strip_nodes_no_docs(s: Seq<NodeView>)
    ensures
        !nodes_have_doc(strip_nodes_spec(s)),
    decreases s, 0int,
{
    if s.len() > 0 {
        let rest = s.subrange(1, s.len() as int);
        assert(decreases_to!(s => s[0]));
        lemma_strip_node_no_docs(s[0]);
        lemma_strip_nodes_no_docs(rest);
        let t = strip_nodes_spec(s);
        assert forall|i: int| 0 <= i < t.len() implies !node_has_doc(#[trigger] t[i]) by {
            if i > 0 {
                assert(t[i] == strip_nodes_spec(rest)[i - 1]);
            }
        }
    }
}

/// Strips documentation metadata from a whole tree: depth first, a node's
/// own metadata before its children's; one node's rewrite never touches
/// its siblings.
pub fn strip_docs(node: &MetaNode) -> (r: MetaNode)
    ensures
        node_view(r) == strip_node_spec(node_view(*node)),
    decreases *node,
{
    let attrs = strip_doc_attrs(&node.attrs);
    let mut children: Vec<MetaNode> = Vec::new();
    let mut i: usize = 0;
    proof {
        assert(node.children@.subrange(0, 0) =~= Seq::<MetaNode>::empty());
    }
    while i < node.children.len()
        invariant
            0 <= i <= node.children.len(),
            attrs_view(attrs@) == strip_attrs_spec(attrs_view(node.attrs@)),
            nodes_view(children@)
                == strip_nodes_spec(nodes_view(node.children@.subrange(0, i as int))),
        decreases node.children.len() - i,
    {
        proof {
            assert(decreases_to!(*node => node.children));
            assert(decreases_to!(node.children => node.children@));
            assert(decreases_to!(node.children@ => node.children@[i as int]));
        }
        let ghost pre = node.children@.subrange(0, i as int);
        let c = strip_docs(&node.children[i]);
        proof {
            assert(node.children@.subrange(0, i as int + 1)
                =~= pre.push(node.children@[i as int]));
            lemma_nodes_view_snoc(pre, node.children@[i as int]);
            lemma_strip_nodes_snoc(nodes_view(pre), node_view(node.children@[i as int]));
        }
        let ghost kids = children@;
        children.push(c);
        proof {
            assert(children@ == kids.push(c));
            lemma_nodes_view_snoc(kids, c);
        }
        i += 1;
    }
    proof {
        assert(node.children@.subrange(0, node.children@.len() as int) =~= node.children@);
    }
    MetaNode { attrs, children }
}

/// The view of a node sequence extended by one node.
proof fn lemma_nodes_view_snoc(s: Seq<MetaNode>, n: MetaNode)
    ensures
        nodes_view(s.push(n)) == nodes_view(s).push(node_view(n)),
    decreases s,
{
    reveal_with_fuel(nodes_view, 2);
    let t = s.push(n);
    if s.len() == 0 {
        assert(t.subrange(1, t.len() as int) =~= Seq::<MetaNode>::empty());
        assert(t[0] == n);
        assert(seq![node_view(n)] + Seq::<NodeView>::empty()
            =~= Seq::<NodeView>::empty().push(node_view(n)));
    } else {
        assert(t[0] == s[0]);
        assert(t.subrange(1, t.len() as int) =~= s.subrange(1, s.len() as int).push(n));
        lemma_nodes_view_snoc(s.subrange(1, s.len() as int), n);
        assert(seq![node_view(s[0])]
            + nodes_view(s.subrange(1, s.len() as int)).push(node_view(n))
            =~= (seq![node_view(s[0])] + nodes_view(s.subrange(1, s.len() as int)))
                .push(node_view(n)));
    }
}

/// A stripped node sequence extended by one stripped node.
proof fn lemma_strip_nodes_snoc(s: Seq<NodeView>, n: NodeView)
    ensures
        strip_nodes_spec(s.push(n)) == strip_nodes_spec(s).push(strip_node_spec(n)),
    decreases s,
{
    reveal_with_fuel(strip_nodes_spec, 2);
    let t = s.push(n);
    if s.len() == 0 {
        assert(t.subrange(1, t.len() as int) =~= Seq::<NodeView>::empty());
        assert(t[0] == n);
        assert(seq![strip_node_spec(n)] + Seq::<NodeView>::empty()
            =~= Seq::<NodeView>::empty().push(strip_node_spec(n)));
    } else {
        assert(t[0] == s[0]);
        assert(t.subrange(1, t.len() as int) =~= s.subrange(1, s.len() as int).push(n));
        lemma_strip_nodes_snoc(s.subrange(1, s.len() as int), n);
        assert(seq![strip_node_spec(s[0])]
            + strip_nodes_spec(s.subrange(1, s.len() as int)).push(strip_node_spec(n))
            =~= (seq![strip_node_spec(s[0])] + strip_nodes_spec(s.subrange(1, s.len() as int)))
                .push(strip_node_spec(n)));
    }
}

} // verus!
