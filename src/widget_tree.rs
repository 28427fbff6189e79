use vstd::prelude::*;

use crate::geometry::{contains, contains_spec, Cursor, Point, Size};
use crate::image::Renderer;
use crate::input::Event;
use crate::theme::{id_seq, Theme, ThemeKind, ThemeSet};
use crate::tree_lemmas::{extends, lemma_attach, lemma_attach_at, lemma_draw_order_each_once};
use crate::widget::{EmptyWidget, Label, Widget, WidgetKind, WidgetView};

verus! {

/// One slot of the arena: the widget and its place in the tree.
struct Node {
    widget: Widget,
    parent: usize,
    children: Vec<usize>,
}

/// The model of one slot: its parent's handle, its children's handles in
/// traversal order, and what its widget shows.
pub struct NodeView {
    pub parent: usize,
    pub children: Seq<usize>,
    pub widget: WidgetView,
}

impl Node {
    spec fn view(&self) -> NodeView {
        NodeView { parent: self.parent, children: self.children@, widget: self.widget.view() }
    }
}

spec fn view_of(nodes: Seq<Node>) -> Seq<NodeView> {
    nodes.map_values(|n: Node| n.view())
}

/// The topology invariant of a tree model: the root is its own parent,
/// every other handle has an earlier handle as parent, each child list holds
/// later handles whose parent is the list's owner, no list holds a handle
/// twice, and every non-root handle is in its parent's list.
pub open spec fn topology_wf(t: Seq<NodeView>) -> bool {
    &&& t.len() > 0 ==> t[0].parent == 0
    &&& forall|h: int| 0 < h < t.len() ==> (#[trigger] t[h].parent) < h
    &&& forall|h: int, i: int|
        0 <= h < t.len() && 0 <= i < t[h].children.len() ==> h < (#[trigger] t[h].children[i])
            < t.len() && t[t[h].children[i] as int].parent == h
    &&& forall|h: int, i: int, j: int|
        0 <= h < t.len() && 0 <= i < t[h].children.len() && 0 <= j < t[h].children.len() && i
            != j ==> #[trigger] t[h].children[i] != #[trigger] t[h].children[j]
    &&& forall|c: int| 0 < c < t.len() ==> t[(#[trigger] t[c].parent) as int].children.contains(c as usize)
}

spec fn nodes_wf(nodes: Seq<Node>) -> bool {
    &&& topology_wf(view_of(nodes))
    &&& forall|h: int| 0 <= h < nodes.len() ==> (#[trigger] nodes[h]).widget.state_spec().index == h
    &&& forall|h: int| 0 <= h < nodes.len() ==> (#[trigger] nodes[h]).widget.pending().len() == 0
}

/// Appends a node for `w` with parent `q` and adds it to the end of `q`'s
/// child list; the first node, the root, is its own parent and in no list.
pub open spec fn link(t: Seq<NodeView>, q: usize, w: WidgetView) -> Seq<NodeView> {
    let h = t.len();
    let t1 = if q < h {
        t.update(
            q as int,
            NodeView {
                parent: t[q as int].parent,
                children: t[q as int].children.push(h as usize),
                widget: t[q as int].widget,
            },
        )
    } else {
        t
    };
    t1.push(NodeView { parent: q, children: Seq::empty(), widget: w })
}

proof fn lemma_link_wf(t: Seq<NodeView>, q: usize, w: WidgetView)
    requires
        topology_wf(t),
        q < t.len() || (q == 0 && t.len() == 0),
        t.len() <= usize::MAX,
    ensures
        topology_wf(link(t, q, w)),
{
    let t2 = link(t, q, w);
    let h = t.len() as int;
    assert forall|x: int, i: int| 0 <= x < t2.len() && 0 <= i < t2[x].children.len() implies x
        < (#[trigger] t2[x].children[i]) < t2.len() && t2[t2[x].children[i] as int].parent == x by {
        if x == q && x < h && i == t[x].children.len() {
        } else {
            assert(t2[x].children[i] == t[x].children[i]);
        }
    }
    assert forall|x: int, i: int, j: int|
        0 <= x < t2.len() && 0 <= i < t2[x].children.len() && 0 <= j < t2[x].children.len() && i
            != j implies #[trigger] t2[x].children[i] != #[trigger] t2[x].children[j] by {
        if x == q && x < h && i == t[x].children.len() {
            assert(t2[x].children[j] == t[x].children[j]);
        } else if x == q && x < h && j == t[x].children.len() {
            assert(t2[x].children[i] == t[x].children[i]);
        } else {
            assert(t2[x].children[i] == t[x].children[i]);
            assert(t2[x].children[j] == t[x].children[j]);
        }
    }
    assert forall|c: int| 0 < c < t2.len() implies t2[(#[trigger] t2[c].parent) as int].children.contains(
        c as usize,
    ) by {
        if c == h {
            assert(t2[q as int].children.last() == h as usize);
        } else {
            let p = t[c].parent as int;
            let k = choose|k: int| 0 <= k < t[p].children.len() && t[p].children[k] == c as usize;
            assert(t2[p].children[k] == c as usize);
        }
    }
}

/// The view a theme-declared child gets: a widget of `kind` whose partial
/// and cascaded theme ids are both `id`, with nothing else set.
pub open spec fn theme_widget(kind: WidgetKind, id: Seq<char>) -> WidgetView {
    WidgetView {
        kind,
        text: Seq::empty(),
        partial: id,
        full: id,
        position: Point { x: 0, y: 0 },
        size: Size { width: 0, height: 0 },
        background: None,
        foreground: None,
    }
}

/// Materializes the theme-declared child `id` under `q`, then its own
/// declared children, also under `q`.
pub open spec fn expand_one(
    themes: ThemeSet,
    t: Seq<NodeView>,
    q: usize,
    id: Seq<char>,
    fuel: nat,
) -> Seq<NodeView>
    decreases fuel, 1nat, 0nat,
{
    let th = themes.get(id);
    match th.kind {
        ThemeKind::Reference => t,
        ThemeKind::Label => expand_list(
            themes,
            link(t, q, theme_widget(WidgetKind::Label, th.id@)),
            q,
            themes.child_ids(th.id@),
            fuel,
        ),
        ThemeKind::Container => expand_list(
            themes,
            link(t, q, theme_widget(WidgetKind::Empty, th.id@)),
            q,
            themes.child_ids(th.id@),
            fuel,
        ),
    }
}

/// Materializes the theme-declared children `ids` under `q`, in order.
/// Each level of nesting spends one unit of `fuel`, so that a catalog whose
/// declarations form a cycle cannot expand forever; a catalog without one
/// never runs out when `fuel` is its size.
pub open spec fn expand_list(
    themes: ThemeSet,
    t: Seq<NodeView>,
    q: usize,
    ids: Seq<Seq<char>>,
    fuel: nat,
) -> Seq<NodeView>
    decreases fuel, 0nat, ids.len(),
{
    if fuel == 0 || ids.len() == 0 {
        t
    } else {
        expand_list(
            themes,
            expand_one(themes, t, q, ids[0], (fuel - 1) as nat),
            q,
            ids.subrange(1, ids.len() as int),
            fuel,
        )
    }
}

/// The theme id a child with partial id `partial` would get under `h`.
pub open spec fn candidate(t: Seq<NodeView>, h: usize, partial: Seq<char>) -> Seq<char> {
    t[h as int].widget.full + "."@ + partial
}

/// The first handle, depth-first from `h` (itself, then each child's
/// subtree in order), whose cascaded id extended by `partial` names a theme.
pub open spec fn find_from(
    themes: ThemeSet,
    t: Seq<NodeView>,
    h: usize,
    partial: Seq<char>,
) -> Option<usize>
    decreases t.len() - h, 1nat, 0nat,
{
    if h >= t.len() {
        None
    } else if themes.has(candidate(t, h, partial)) {
        Some(h)
    } else {
        find_children(themes, t, h, 0, partial)
    }
}

/// The first match in the subtrees of the children of `h` from the `i`-th on.
pub open spec fn find_children(
    themes: ThemeSet,
    t: Seq<NodeView>,
    h: usize,
    i: nat,
    partial: Seq<char>,
) -> Option<usize>
    decreases t.len() - h, 0nat, t[h as int].children.len() - i,
{
    if h >= t.len() || i >= t[h as int].children.len() {
        None
    } else {
        let c = t[h as int].children[i as int];
        let r = if h < c && c < t.len() {
            find_from(themes, t, c, partial)
        } else {
            None
        };
        if r is Some {
            r
        } else {
            find_children(themes, t, h, i + 1, partial)
        }
    }
}

/// Where a child with partial id `partial` asked for under `p` goes, and the
/// cascaded id it gets there; with no match it stays under `p` with its
/// partial id.
pub open spec fn resolve(themes: ThemeSet, t: Seq<NodeView>, p: usize, partial: Seq<char>) -> (
    usize,
    Seq<char>,
) {
    match find_from(themes, t, p, partial) {
        Some(q) => (q, candidate(t, q, partial)),
        None => (p, partial),
    }
}

/// The attachment protocol for an explicit child: resolve where it goes,
/// then attach it there.
pub open spec fn attach(
    themes: ThemeSet,
    t: Seq<NodeView>,
    p: usize,
    w: Widget,
    fuel: nat,
) -> Seq<NodeView>
    decreases w, 2nat,
{
    let (q, full) = resolve(themes, t, p, w.view().partial);
    attach_at(themes, t, q, w, full, fuel)
}

/// The tree after the node for `w` (with cascaded id `full`) is linked under
/// `q`, and before its theme-declared children are.
pub open spec fn attach_explicit(
    themes: ThemeSet,
    t: Seq<NodeView>,
    q: usize,
    w: Widget,
    full: Seq<char>,
    fuel: nat,
) -> Seq<NodeView>
    decreases w, 0nat,
{
    let h = t.len() as usize;
    let t1 = link(t, q, WidgetView { full, ..w.view() });
    match w {
        Widget::Empty(x) => attach_pending(themes, t1, h, x.state.to_add@, fuel),
        Widget::Label(x) => attach_pending(themes, t1, h, x.state.to_add@, fuel),
        Widget::Button(x) => attach_pending(themes, t1, h, x.state.to_add@, fuel),
    }
}

/// Links `w` under `q` with cascaded id `full`, attaches its pending
/// children under it, then materializes the children its theme declares
/// under `q`.
pub open spec fn attach_at(
    themes: ThemeSet,
    t: Seq<NodeView>,
    q: usize,
    w: Widget,
    full: Seq<char>,
    fuel: nat,
) -> Seq<NodeView>
    decreases w, 1nat,
{
    expand_list(
        themes,
        attach_explicit(themes, t, q, w, full, fuel),
        q,
        themes.child_ids(full),
        fuel,
    )
}

/// Attaches the widgets `ws` one after the other under `p`.
pub open spec fn attach_pending(
    themes: ThemeSet,
    t: Seq<NodeView>,
    p: usize,
    ws: Seq<Widget>,
    fuel: nat,
) -> Seq<NodeView>
    decreases ws, 0nat,
{
    if ws.len() == 0 {
        t
    } else {
        attach_pending(
            themes,
            attach(themes, t, p, ws[0], fuel),
            p,
            ws.subrange(1, ws.len() as int),
            fuel,
        )
    }
}

proof fn lemma_pending_decreases(w: Widget, i: int)
    requires
        0 <= i < w.pending().len(),
    ensures
        decreases_to!(w => w.pending()[i]),
{
    match w {
        Widget::Empty(x) => {
            assert(decreases_to!(w => x.state.to_add@[i]));
        },
        Widget::Label(x) => {
            assert(decreases_to!(w => x.state.to_add@[i]));
        },
        Widget::Button(x) => {
            assert(decreases_to!(w => x.state.to_add@[i]));
        },
    }
}

fn link_node(nodes: &mut Vec<Node>, q: usize, w: Widget)
    requires
        nodes_wf(old(nodes)@),
        q < old(nodes)@.len() || (q == 0 && old(nodes)@.len() == 0),
        w.pending().len() == 0,
        w.state_spec().index == old(nodes)@.len(),
    ensures
        nodes_wf(final(nodes)@),
        view_of(final(nodes)@) == link(view_of(old(nodes)@), q, w.view()),
        final(nodes)@.len() == old(nodes)@.len() + 1,
{
    let ghost t0 = view_of(nodes@);
    let h = nodes.len();
    proof {
        lemma_link_wf(t0, q, w.view());
    }
    if q < h {
        nodes[q].children.push(h);
    }
    nodes.push(Node { widget: w, parent: q, children: Vec::new() });
    assert(view_of(nodes@) =~= link(t0, q, w.view()));
    assert forall|x: int| 0 <= x < nodes@.len() implies (#[trigger] nodes@[x]).widget.state_spec().index
        == x && nodes@[x].widget.pending().len() == 0 by {
        if x < h {
            assert(nodes@[x].widget == old(nodes)@[x].widget);
        }
    }
}

fn candidate_id(nodes: &Vec<Node>, h: usize, partial: &String) -> (r: String)
    requires
        h < nodes@.len(),
    ensures
        r@ == candidate(view_of(nodes@), h, partial@),
{
    let mut s = nodes[h].widget.state().theme_full_id.clone();
    s.append(".");
    s.append(partial.as_str());
    s
}

fn find_theme_parent(nodes: &Vec<Node>, themes: &ThemeSet, h: usize, partial: &String) -> (r:
    Option<usize>)
    requires
        nodes_wf(nodes@),
        h < nodes@.len(),
    ensures
        r == find_from(*themes, view_of(nodes@), h, partial@),
        r matches Some(x) ==> x < nodes@.len(),
    decreases nodes@.len() - h,
{
    let ghost t = view_of(nodes@);
    let cand = candidate_id(nodes, h, partial);
    if themes.contains(&cand) {
        return Some(h);
    }
    let n = nodes[h].children.len();
    let mut i: usize = 0;
    while i < n
        invariant
            nodes_wf(nodes@),
            t == view_of(nodes@),
            h < nodes@.len(),
            n == t[h as int].children.len(),
            i <= n,
            find_children(*themes, t, h, i as nat, partial@) == find_from(*themes, t, h, partial@),
        decreases n - i,
    {
        let c = nodes[h].children[i];
        assert(c == t[h as int].children[i as int]);
        match find_theme_parent(nodes, themes, c, partial) {
            Some(x) => {
                return Some(x);
            },
            None => {},
        }
        i = i + 1;
    }
    None
}

fn expand_list_exec(
    nodes: &mut Vec<Node>,
    themes: &ThemeSet,
    q: usize,
    ids: &Vec<String>,
    fuel: usize,
)
    requires
        nodes_wf(old(nodes)@),
        q < old(nodes)@.len(),
    ensures
        nodes_wf(final(nodes)@),
        final(nodes)@.len() >= old(nodes)@.len(),
        view_of(final(nodes)@) == expand_list(
            *themes,
            view_of(old(nodes)@),
            q,
            id_seq(ids@),
            fuel as nat,
        ),
    decreases fuel, 0nat,
{
    let ghost all = id_seq(ids@);
    let ghost t0 = view_of(nodes@);
    let ghost len0 = nodes@.len();
    if fuel == 0 {
        return;
    }
    let n = ids.len();
    let mut i: usize = 0;
    assert(all.subrange(0, n as int) =~= all);
    while i < n
        invariant
            nodes_wf(nodes@),
            q < nodes@.len(),
            n == ids@.len(),
            fuel > 0,
            nodes@.len() >= len0,
            all == id_seq(ids@),
            i <= n,
            expand_list(*themes, view_of(nodes@), q, all.subrange(i as int, n as int), fuel as nat)
                == expand_list(*themes, t0, q, all, fuel as nat),
        decreases n - i,
    {
        let ghost rest = all.subrange(i as int, n as int);
        expand_one_exec(nodes, themes, q, &ids[i], fuel - 1);
        assert(rest[0] == ids@[i as int]@);
        assert(rest.subrange(1, rest.len() as int) =~= all.subrange(i + 1, n as int));
        i = i + 1;
    }
    assert(all.subrange(n as int, n as int) =~= Seq::<Seq<char>>::empty());
}

fn expand_one_exec(nodes: &mut Vec<Node>, themes: &ThemeSet, q: usize, id: &String, fuel: usize)
    requires
        nodes_wf(old(nodes)@),
        q < old(nodes)@.len(),
    ensures
        nodes_wf(final(nodes)@),
        final(nodes)@.len() >= old(nodes)@.len(),
        view_of(final(nodes)@) == expand_one(*themes, view_of(old(nodes)@), q, id@, fuel as nat),
    decreases fuel, 1nat,
{
    let th: &Theme = themes.lookup(id);
    let mut w = match th.kind {
        ThemeKind::Reference => {
            return;
        },
        ThemeKind::Label => Widget::Label(Label::new(String::new())),
        ThemeKind::Container => Widget::Empty(EmptyWidget::new()),
    };
    w.set_theme(th.id.clone());
    w.set_index(nodes.len());
    let ghost kind = if th.kind == ThemeKind::Label {
        WidgetKind::Label
    } else {
        WidgetKind::Empty
    };
    assert(w.view() == theme_widget(kind, th.id@));
    link_node(nodes, q, w);
    let declared = themes.lookup(&th.id);
    expand_list_exec(nodes, themes, q, &declared.children, fuel);
}

fn attach_exec(nodes: &mut Vec<Node>, themes: &ThemeSet, p: usize, w: Widget, fuel: usize) -> (r:
    bool)
    requires
        nodes_wf(old(nodes)@),
        p < old(nodes)@.len(),
    ensures
        nodes_wf(final(nodes)@),
        final(nodes)@.len() > old(nodes)@.len(),
        view_of(final(nodes)@) == attach(*themes, view_of(old(nodes)@), p, w, fuel as nat),
        r == find_from(*themes, view_of(old(nodes)@), p, w.view().partial) is Some,
    decreases w, 2nat,
{
    let partial = w.state().theme_partial_id.clone();
    match find_theme_parent(nodes, themes, p, &partial) {
        Some(q) => {
            let full = candidate_id(nodes, q, &partial);
            attach_at_exec(nodes, themes, q, w, full, fuel);
            true
        },
        None => {
            attach_at_exec(nodes, themes, p, w, partial, fuel);
            false
        },
    }
}

fn attach_at_exec(
    nodes: &mut Vec<Node>,
    themes: &ThemeSet,
    q: usize,
    w: Widget,
    full: String,
    fuel: usize,
)
    requires
        nodes_wf(old(nodes)@),
        q < old(nodes)@.len() || (q == 0 && old(nodes)@.len() == 0),
    ensures
        nodes_wf(final(nodes)@),
        final(nodes)@.len() > old(nodes)@.len(),
        view_of(final(nodes)@) == attach_at(
            *themes,
            view_of(old(nodes)@),
            q,
            w,
            full@,
            fuel as nat,
        ),
    decreases w, 1nat,
{
    let ghost w0 = w;
    let ghost t0 = view_of(nodes@);
    let h = nodes.len();
    let mut node_widget = w;
    let mut pending = node_widget.take_pending();
    node_widget.set_full_theme_id(full.clone());
    node_widget.set_index(h);
    link_node(nodes, q, node_widget);
    let ghost t1 = view_of(nodes@);
    let ghost all = pending@;
    assert(t1 == link(t0, q, WidgetView { full: full@, ..w0.view() }));
    assert(attach_explicit(*themes, t0, q, w0, full@, fuel as nat) == attach_pending(
        *themes,
        t1,
        h,
        all,
        fuel as nat,
    ));
    while pending.len() > 0
        invariant
            nodes_wf(nodes@),
            h < nodes@.len(),
            q < nodes@.len(),
            all == w0.pending(),
            w0 == w,
            pending@.len() <= all.len(),
            pending@ == all.subrange(all.len() - pending@.len(), all.len() as int),
            attach_pending(*themes, view_of(nodes@), h, pending@, fuel as nat) == attach_pending(
                *themes,
                t1,
                h,
                all,
                fuel as nat,
            ),
        decreases pending@.len(),
    {
        let ghost k = all.len() - pending@.len();
        let ghost rest = pending@;
        let c = pending.remove(0);
        proof {
            lemma_pending_decreases(w0, k);
            assert(c == w0.pending()[k]);
            assert(decreases_to!(w0 => c));
            assert(decreases_to!(w0, 1nat => c, 2nat));
        }
        attach_exec(nodes, themes, h, c, fuel);
        assert(pending@ =~= rest.subrange(1, rest.len() as int));
        assert(pending@ =~= all.subrange(all.len() - pending@.len(), all.len() as int));
    }
    let th = themes.lookup(&full);
    expand_list_exec(nodes, themes, q, &th.children, fuel);
}

/// The handles of the subtree at `h` in pre-order: `h`, then each child's
/// subtree in child-list order. This is the drawing order.
pub open spec fn preorder(t: Seq<NodeView>, h: usize) -> Seq<usize>
    decreases t.len() - h, 1nat, 0nat,
{
    if h >= t.len() {
        Seq::empty()
    } else {
        seq![h] + preorder_children(t, h, 0)
    }
}

/// The pre-order of the subtrees of the children of `h` from the `i`-th on.
pub open spec fn preorder_children(t: Seq<NodeView>, h: usize, i: nat) -> Seq<usize>
    decreases t.len() - h, 0nat, t[h as int].children.len() - i,
{
    if h >= t.len() || i >= t[h as int].children.len() {
        Seq::empty()
    } else {
        let c = t[h as int].children[i as int];
        (if h < c && c < t.len() {
            preorder(t, c)
        } else {
            Seq::empty()
        }) + preorder_children(t, h, i + 1)
    }
}

/// Whether the cursor hits the widget at `h`.
pub open spec fn hit(t: Seq<NodeView>, h: usize, cursor: Cursor) -> bool {
    contains_spec(t[h as int].widget.position, t[h as int].widget.size, cursor)
}

/// The handles that are offered an event at `cursor` when it is dispatched
/// from `h`, in the order they are offered: a widget the cursor misses is
/// skipped with its whole subtree; one it hits first offers the event to
/// each child in order, then takes its own turn.
pub open spec fn offered(t: Seq<NodeView>, h: usize, cursor: Cursor) -> Seq<usize>
    decreases t.len() - h, 1nat, 0nat,
{
    if h >= t.len() || !hit(t, h, cursor) {
        Seq::empty()
    } else {
        offered_children(t, h, 0, cursor) + seq![h]
    }
}

/// What the children of `h` from the `i`-th on are offered, in order.
pub open spec fn offered_children(t: Seq<NodeView>, h: usize, i: nat, cursor: Cursor) -> Seq<
    usize,
>
    decreases t.len() - h, 0nat, t[h as int].children.len() - i,
{
    if h >= t.len() || i >= t[h as int].children.len() {
        Seq::empty()
    } else {
        let c = t[h as int].children[i as int];
        (if h < c && c < t.len() {
            offered(t, c, cursor)
        } else {
            Seq::empty()
        }) + offered_children(t, h, i + 1, cursor)
    }
}

/// The nearest widget of `kind` on the parent chain above `p`, starting at
/// `p` itself and ending at the root.
pub open spec fn search_up(t: Seq<NodeView>, p: usize, kind: WidgetKind) -> Option<usize>
    decreases p,
{
    if p >= t.len() {
        None
    } else if t[p as int].widget.kind == kind {
        Some(p)
    } else if p == 0 || t[p as int].parent >= p {
        None
    } else {
        search_up(t, t[p as int].parent, kind)
    }
}

fn collect_preorder(nodes: &Vec<Node>, h: usize, out: &mut Vec<usize>)
    requires
        nodes_wf(nodes@),
        h < nodes@.len(),
    ensures
        final(out)@ == old(out)@ + preorder(view_of(nodes@), h),
    decreases nodes@.len() - h,
{
    let ghost t = view_of(nodes@);
    let ghost start = old(out)@;
    out.push(h);
    let n = nodes[h].children.len();
    let mut i: usize = 0;
    assert(start + preorder(t, h) =~= out@ + preorder_children(t, h, 0));
    while i < n
        invariant
            nodes_wf(nodes@),
            t == view_of(nodes@),
            h < nodes@.len(),
            n == t[h as int].children.len(),
            i <= n,
            start + preorder(t, h) == out@ + preorder_children(t, h, i as nat),
        decreases n - i,
    {
        let c = nodes[h].children[i];
        assert(c == t[h as int].children[i as int]);
        let ghost before = out@;
        collect_preorder(nodes, c, out);
        assert(before + preorder_children(t, h, i as nat) =~= out@ + preorder_children(
            t,
            h,
            (i + 1) as nat,
        ));
        i = i + 1;
    }
    assert(out@ + preorder_children(t, h, n as nat) =~= out@);
}

fn collect_offered(nodes: &Vec<Node>, h: usize, cursor: &Cursor, out: &mut Vec<usize>)
    requires
        nodes_wf(nodes@),
        h < nodes@.len(),
    ensures
        final(out)@ == old(out)@ + offered(view_of(nodes@), h, *cursor),
    decreases nodes@.len() - h,
{
    let ghost t = view_of(nodes@);
    let ghost start = old(out)@;
    let w = &nodes[h].widget;
    if !contains(w.position(), w.size(), cursor) {
        assert(start + offered(t, h, *cursor) =~= start);
        return;
    }
    let n = nodes[h].children.len();
    let mut i: usize = 0;
    assert(start + offered(t, h, *cursor) =~= out@ + offered_children(t, h, 0, *cursor) + seq![
        h,
    ]);
    while i < n
        invariant
            nodes_wf(nodes@),
            t == view_of(nodes@),
            h < nodes@.len(),
            n == t[h as int].children.len(),
            i <= n,
            start + offered(t, h, *cursor) == out@ + offered_children(t, h, i as nat, *cursor)
                + seq![h],
        decreases n - i,
    {
        let c = nodes[h].children[i];
        assert(c == t[h as int].children[i as int]);
        let ghost before = out@;
        collect_offered(nodes, c, cursor, out);
        assert(before + offered_children(t, h, i as nat, *cursor) + seq![h] =~= out@
            + offered_children(t, h, (i + 1) as nat, *cursor) + seq![h]);
        i = i + 1;
    }
    out.push(h);
    assert(start + offered(t, h, *cursor) =~= out@);
}

/// What `add_child` reports: the handle the child got, and whether its
/// theme id found an attachment point (when it did not, the child was
/// attached under the requested parent with its partial id).
#[derive(Clone, Copy, Debug, PartialEq, Eq, Structural)]
pub struct Attached {
    pub handle: usize,
    pub resolved: bool,
}

/// The arena of widgets: each attached widget has a stable handle, its slot
/// in the arena; handle 0 is the root, which is its own parent.
pub struct WidgetTree {
    nodes: Vec<Node>,
    themes: ThemeSet,
}

impl WidgetTree {
    /// The tree model: one node per handle.
    pub closed spec fn view(&self) -> Seq<NodeView> {
        view_of(self.nodes@)
    }

    /// The tree holds its root, meets the topology invariant, and each
    /// widget records its own handle.
    pub closed spec fn wf(&self) -> bool {
        &&& nodes_wf(self.nodes@)
        &&& self.nodes@.len() > 0
    }

    pub closed spec fn catalog(&self) -> ThemeSet {
        self.themes
    }

    /// The most levels of theme-declared structure one attachment expands.
    pub open spec fn fuel(&self) -> nat {
        self.catalog().size()
    }

    /// A tree whose root is `root`, with the root's pending children and
    /// theme-declared children attached.
    pub fn new(root: Widget, themes: ThemeSet) -> (r: WidgetTree)
        ensures
            r.wf(),
            r.catalog() == themes,
            r@ == attach_at(themes, Seq::empty(), 0, root, root.view().full, themes.size()),
            r@[0].parent == 0,
            r@[0].widget == root.view(),
    {
        let fuel = themes.len();
        let full = root.state().theme_full_id.clone();
        let mut nodes: Vec<Node> = Vec::new();
        assert(view_of(nodes@) =~= Seq::<NodeView>::empty());
        proof {
            lemma_attach_at(themes, Seq::empty(), 0, root, full@, fuel as nat);
            assert(WidgetView { full: full@, ..root.view() } == root.view());
        }
        attach_at_exec(&mut nodes, &themes, 0, root, full, fuel);
        WidgetTree { nodes, themes }
    }

    /// Attaches `child` where its theme id resolves within the subtree of
    /// `parent`, then its pending children, then its theme-declared
    /// children.
    pub fn add_child(&mut self, parent: usize, child: Widget) -> (r: Attached)
        requires
            old(self).wf(),
            parent < old(self)@.len(),
        ensures
            final(self).wf(),
            final(self).catalog() == old(self).catalog(),
            final(self)@ == attach(old(self).catalog(), old(self)@, parent, child, old(self).fuel()),
            extends(old(self)@, final(self)@),
            r.handle == old(self)@.len(),
            final(self)@[r.handle as int].parent == resolve(
                old(self).catalog(),
                old(self)@,
                parent,
                child.view().partial,
            ).0,
            final(self)@[r.handle as int].widget == (WidgetView {
                full: resolve(old(self).catalog(), old(self)@, parent, child.view().partial).1,
                ..child.view()
            }),
            r.resolved == find_from(
                old(self).catalog(),
                old(self)@,
                parent,
                child.view().partial,
            ) is Some,
    {
        let fuel = self.themes.len();
        let handle = self.nodes.len();
        proof {
            lemma_attach(self.themes, self@, parent, child, fuel as nat);
        }
        let resolved = attach_exec(&mut self.nodes, &self.themes, parent, child, fuel);
        Attached { handle, resolved }
    }

    /// The number of attached widgets.
    pub fn len(&self) -> (r: usize)
        ensures
            r == self@.len(),
    {
        self.nodes.len()
    }

    /// The theme that `id` names in the tree's catalog.
    pub fn theme(&self, id: &String) -> (r: &Theme)
        ensures
            *r == self.catalog().get(id@),
    {
        self.themes.lookup(id)
    }

    pub fn root(&self) -> (r: &Widget)
        requires
            self.wf(),
        ensures
            r.view() == self@[0].widget,
            r.state_spec().index == 0,
    {
        &self.nodes[0].widget
    }

    /// The widget with handle `index`.
    pub fn widget(&self, index: usize) -> (r: &Widget)
        requires
            self.wf(),
            index < self@.len(),
        ensures
            r.view() == self@[index as int].widget,
            r.state_spec().index == index,
    {
        &self.nodes[index].widget
    }

    /// Moves the widget `index`; nothing else changes.
    pub fn set_position(&mut self, index: usize, position: Point)
        requires
            old(self).wf(),
            index < old(self)@.len(),
        ensures
            final(self).wf(),
            final(self).catalog() == old(self).catalog(),
            final(self)@ == old(self)@.update(
                index as int,
                NodeView {
                    widget: WidgetView { position, ..old(self)@[index as int].widget },
                    ..old(self)@[index as int]
                },
            ),
    {
        let ghost before = self.nodes@;
        self.nodes[index].widget.set_position(position);
        proof {
            assert(view_of(self.nodes@) =~= view_of(before).update(
                index as int,
                NodeView {
                    widget: WidgetView { position, ..view_of(before)[index as int].widget },
                    ..view_of(before)[index as int]
                },
            ));
            assert forall|h: int| 0 <= h < self.nodes@.len() implies (#[trigger] self.nodes@[h]).widget.state_spec().index
                == h && self.nodes@[h].widget.pending().len() == 0 by {
                if h != index {
                    assert(self.nodes@[h] == before[h]);
                }
            }
        }
    }

    /// Resizes the widget `index`; nothing else changes.
    pub fn set_size(&mut self, index: usize, size: Size)
        requires
            old(self).wf(),
            index < old(self)@.len(),
        ensures
            final(self).wf(),
            final(self).catalog() == old(self).catalog(),
            final(self)@ == old(self)@.update(
                index as int,
                NodeView {
                    widget: WidgetView { size, ..old(self)@[index as int].widget },
                    ..old(self)@[index as int]
                },
            ),
    {
        let ghost before = self.nodes@;
        self.nodes[index].widget.set_size(size);
        proof {
            assert(view_of(self.nodes@) =~= view_of(before).update(
                index as int,
                NodeView {
                    widget: WidgetView { size, ..view_of(before)[index as int].widget },
                    ..view_of(before)[index as int]
                },
            ));
            assert forall|h: int| 0 <= h < self.nodes@.len() implies (#[trigger] self.nodes@[h]).widget.state_spec().index
                == h && self.nodes@[h].widget.pending().len() == 0 by {
                if h != index {
                    assert(self.nodes@[h] == before[h]);
                }
            }
        }
    }

    /// The handle of the parent of `index`; the root's is 0.
    pub fn parent_index(&self, index: usize) -> (r: usize)
        requires
            self.wf(),
            index < self@.len(),
        ensures
            r == self@[index as int].parent,
    {
        self.nodes[index].parent
    }

    /// The handles of the children of `index`, in traversal order.
    pub fn children(&self, index: usize) -> (r: &Vec<usize>)
        requires
            self.wf(),
            index < self@.len(),
        ensures
            r@ == self@[index as int].children,
    {
        &self.nodes[index].children
    }

    /// The nearest widget of `kind` among the ancestors of `index`, from its
    /// parent up to the root.
    pub fn parent(&self, index: usize, kind: WidgetKind) -> (r: Option<usize>)
        requires
            self.wf(),
            index < self@.len(),
        ensures
            r == search_up(self@, self@[index as int].parent, kind),
    {
        let ghost t = self@;
        let mut p = self.nodes[index].parent;
        assert(t[index as int].parent == p);
        assert(p < t.len());
        let ghost target = search_up(t, p, kind);
        loop
            invariant
                self.wf(),
                t == self@,
                p < t.len(),
                search_up(t, p, kind) == target,
                target == search_up(t, t[index as int].parent, kind),
            decreases p,
        {
            assert(t[p as int] == self.nodes@[p as int].view());
            if self.nodes[p].widget.kind() == kind {
                return Some(p);
            }
            let next = self.nodes[p].parent;
            if p == 0 {
                return None;
            }
            assert(t[p as int].parent == next);
            assert(next < p);
            p = next;
        }
    }

    /// The handles of the subtree at `root` in drawing order.
    pub fn iter(&self, root: usize) -> (r: Vec<usize>)
        requires
            self.wf(),
            root < self@.len(),
        ensures
            r@ == preorder(self@, root),
    {
        let mut out: Vec<usize> = Vec::new();
        collect_preorder(&self.nodes, root, &mut out);
        assert(out@ =~= preorder(self@, root));
        out
    }

    /// Draws every widget in drawing order.
    pub fn draw<R: Renderer>(&self, renderer: &mut R)
        requires
            self.wf(),
    {
        let order = self.iter(0);
        let len = self.nodes.len();
        assert(self@.len() == len);
        proof {
            lemma_draw_order_each_once(self@);
        }
        let n = order.len();
        let mut i: usize = 0;
        while i < n
            invariant
                self.wf(),
                n == order@.len(),
                forall|j: int| 0 <= j < n ==> #[trigger] order@[j] < self@.len(),
            decreases n - i,
        {
            let h = order[i];
            self.nodes[h].widget.draw(renderer);
            i = i + 1;
        }
    }

    /// Starts dispatching `event` from `start`: the handles are offered the
    /// event in the order `offered` gives, until one consumes it.
    pub fn begin_dispatch(&self, event: &Event, start: usize) -> (r: Dispatch)
        requires
            self.wf(),
            start < self@.len(),
        ensures
            r.order() == offered(self@, start, event.cursor),
            r.position() == 0,
            !r.consumed(),
    {
        let mut out: Vec<usize> = Vec::new();
        collect_offered(&self.nodes, start, &event.cursor, &mut out);
        assert(out@ =~= offered(self@, start, event.cursor));
        Dispatch { order: out, next: 0, consumed: false }
    }
}

/// The child list that `c`'s recorded parent holds.
pub open spec fn siblings(t: Seq<NodeView>, c: usize) -> Seq<usize> {
    t[t[c as int].parent as int].children
}

/// Topology: in a well-formed tree every handle but the root's stands in
/// exactly one child list, the one of its recorded parent, and only once
/// there.
pub proof fn lemma_topology(tree: WidgetTree, c: usize)
    requires
        tree.wf(),
        0 < c < tree@.len(),
    ensures
        forall|p: int|
            0 <= p < tree@.len() ==> (#[trigger] tree@[p].children.contains(c) <==> p
                == tree@[c as int].parent),
        forall|i: int, j: int|
            0 <= i < siblings(tree@, c).len() && 0 <= j < siblings(tree@, c).len()
                && #[trigger] siblings(tree@, c)[i] == c && #[trigger] siblings(tree@, c)[j] == c
                ==> i == j,
{
    let t = tree@;
    assert forall|p: int| 0 <= p < t.len() implies (#[trigger] t[p].children.contains(c) <==> p
        == t[c as int].parent) by {
        if t[p].children.contains(c) {
            let i = choose|i: int| 0 <= i < t[p].children.len() && t[p].children[i] == c;
            assert(t[t[p].children[i] as int].parent == p);
        }
        if p == t[c as int].parent {
            assert(t[(t[c as int].parent) as int].children.contains(c as usize));
        }
    }
    let pa = t[c as int].parent as int;
    assert(t[pa].children.contains(c as usize));
}

/// The decisions of one event dispatch. The caller fires the callback of
/// each target in turn and reports whether it consumed the event; the
/// first that does ends the dispatch.
pub struct Dispatch {
    order: Vec<usize>,
    next: usize,
    consumed: bool,
}

impl Dispatch {
    /// The handles that may be offered the event, in order.
    pub closed spec fn order(&self) -> Seq<usize> {
        self.order@
    }

    /// How many of them have had their turn.
    pub closed spec fn position(&self) -> nat {
        self.next as nat
    }

    pub closed spec fn consumed(&self) -> bool {
        self.consumed
    }

    /// The handle whose callback fires next, if any.
    pub open spec fn target_spec(&self) -> Option<usize> {
        if self.consumed() || self.position() >= self.order().len() {
            None
        } else {
            Some(self.order()[self.position() as int])
        }
    }

    pub fn target(&self) -> (r: Option<usize>)
        ensures
            r == self.target_spec(),
    {
        if self.consumed || self.next >= self.order.len() {
            None
        } else {
            Some(self.order[self.next])
        }
    }

    /// Records what the current target's callback returned.
    pub fn report(&mut self, consumed: bool)
        requires
            old(self).target_spec() is Some,
        ensures
            final(self).order() == old(self).order(),
            final(self).position() == old(self).position() + 1,
            final(self).consumed() == consumed,
    {
        let n = self.order.len();
        assert(self.next < n);
        self.next = self.next + 1;
        self.consumed = consumed;
    }

    /// Whether a callback consumed the event.
    pub fn is_consumed(&self) -> (r: bool)
        ensures
            r == self.consumed(),
    {
        self.consumed
    }
}

} // verus!
