use vstd::prelude::*;

use crate::geometry::Cursor;
use crate::theme::ThemeSet;
use crate::widget::{Widget, WidgetKind, WidgetView};
use crate::widget_tree::{
    attach, attach_at, attach_explicit, attach_pending, expand_list, expand_one, hit, link,
    offered, offered_children, preorder, preorder_children, resolve, topology_wf, NodeView,
};

verus! {

/// `u` grows out of `t`: every handle of `t` keeps its parent and its
/// widget in `u`, and its child list only gains entries at the end.
pub open spec fn extends(t: Seq<NodeView>, u: Seq<NodeView>) -> bool {
    &&& t.len() <= u.len()
    &&& forall|h: int|
        0 <= h < t.len() ==> {
            &&& (#[trigger] u[h]).parent == t[h].parent
            &&& u[h].widget == t[h].widget
            &&& t[h].children.len() <= u[h].children.len()
            &&& u[h].children.subrange(0, t[h].children.len() as int) == t[h].children
        }
}

/// A node that a theme declared, rather than one the application built.
pub open spec fn theme_made(v: WidgetView) -> bool {
    &&& v.kind != WidgetKind::Button
    &&& v.text.len() == 0
    &&& v.partial == v.full
}

proof fn lemma_extends_refl(t: Seq<NodeView>)
    ensures
        extends(t, t),
{
    assert forall|h: int| 0 <= h < t.len() implies t[h].children.subrange(
        0,
        t[h].children.len() as int,
    ) == t[h].children by {
        assert(t[h].children.subrange(0, t[h].children.len() as int) =~= t[h].children);
    }
}

proof fn lemma_extends_trans(a: Seq<NodeView>, b: Seq<NodeView>, c: Seq<NodeView>)
    requires
        extends(a, b),
        extends(b, c),
    ensures
        extends(a, c),
{
    assert forall|h: int| 0 <= h < a.len() implies {
        &&& (#[trigger] c[h]).parent == a[h].parent
        &&& c[h].widget == a[h].widget
        &&& a[h].children.len() <= c[h].children.len()
        &&& c[h].children.subrange(0, a[h].children.len() as int) == a[h].children
    } by {
        let _ = b[h];
        assert(c[h].children.subrange(0, a[h].children.len() as int) =~= c[h].children.subrange(
            0,
            b[h].children.len() as int,
        ).subrange(0, a[h].children.len() as int));
    }
}

proof fn lemma_link_extends(t: Seq<NodeView>, q: usize, w: WidgetView)
    ensures
        extends(t, link(t, q, w)),
        link(t, q, w).len() == t.len() + 1,
        link(t, q, w)[t.len() as int].parent == q,
        link(t, q, w)[t.len() as int].widget == w,
{
    let u = link(t, q, w);
    assert forall|h: int| 0 <= h < t.len() implies {
        &&& (#[trigger] u[h]).parent == t[h].parent
        &&& u[h].widget == t[h].widget
        &&& t[h].children.len() <= u[h].children.len()
        &&& u[h].children.subrange(0, t[h].children.len() as int) == t[h].children
    } by {
        assert(u[h].children.subrange(0, t[h].children.len() as int) =~= t[h].children);
    }
}

proof fn lemma_expand_one(themes: ThemeSet, t: Seq<NodeView>, q: usize, id: Seq<char>, fuel: nat)
    ensures
        extends(t, expand_one(themes, t, q, id, fuel)),
        forall|d: int|
            t.len() <= d < expand_one(themes, t, q, id, fuel).len() ==> (#[trigger] expand_one(
                themes,
                t,
                q,
                id,
                fuel,
            )[d]).parent == q && theme_made(expand_one(themes, t, q, id, fuel)[d].widget),
    decreases fuel, 1nat, 0nat,
{
    let th = themes.get(id);
    let kind = if th.kind == crate::theme::ThemeKind::Label {
        WidgetKind::Label
    } else {
        WidgetKind::Empty
    };
    if th.kind == crate::theme::ThemeKind::Reference {
        lemma_extends_refl(t);
    } else {
        let t1 = link(t, q, crate::widget_tree::theme_widget(kind, th.id@));
        lemma_link_extends(t, q, crate::widget_tree::theme_widget(kind, th.id@));
        lemma_expand_list(themes, t1, q, themes.child_ids(th.id@), fuel);
        let u = expand_one(themes, t, q, id, fuel);
        lemma_extends_trans(t, t1, u);
        assert forall|d: int| t.len() <= d < u.len() implies (#[trigger] u[d]).parent == q
            && theme_made(u[d].widget) by {
            if d == t.len() {
                assert(u[d].parent == t1[d].parent && u[d].widget == t1[d].widget);
            }
        }
    }
}

proof fn lemma_expand_list(
    themes: ThemeSet,
    t: Seq<NodeView>,
    q: usize,
    ids: Seq<Seq<char>>,
    fuel: nat,
)
    ensures
        extends(t, expand_list(themes, t, q, ids, fuel)),
        forall|d: int|
            t.len() <= d < expand_list(themes, t, q, ids, fuel).len() ==> (#[trigger] expand_list(
                themes,
                t,
                q,
                ids,
                fuel,
            )[d]).parent == q && theme_made(expand_list(themes, t, q, ids, fuel)[d].widget),
    decreases fuel, 0nat, ids.len(),
{
    if fuel == 0 || ids.len() == 0 {
        lemma_extends_refl(t);
    } else {
        let t1 = expand_one(themes, t, q, ids[0], (fuel - 1) as nat);
        lemma_expand_one(themes, t, q, ids[0], (fuel - 1) as nat);
        lemma_expand_list(themes, t1, q, ids.subrange(1, ids.len() as int), fuel);
        let u = expand_list(themes, t, q, ids, fuel);
        lemma_extends_trans(t, t1, u);
        assert forall|d: int| t.len() <= d < u.len() implies (#[trigger] u[d]).parent == q
            && theme_made(u[d].widget) by {
            if d < t1.len() {
                assert(u[d].parent == t1[d].parent && u[d].widget == t1[d].widget);
            }
        }
    }
}

/// Attaching a widget never moves or replaces an attached one: every
/// existing handle keeps its widget and its parent and its child list only
/// grows at the end; the new widgets take the handles after the existing
/// ones, the attached child the first of them, under the parent and with
/// the cascaded id that resolution chose.
pub proof fn lemma_attach(themes: ThemeSet, t: Seq<NodeView>, p: usize, w: Widget, fuel: nat)
    ensures
        extends(t, attach(themes, t, p, w, fuel)),
        attach(themes, t, p, w, fuel).len() > t.len(),
        attach(themes, t, p, w, fuel)[t.len() as int].parent == resolve(
            themes,
            t,
            p,
            w.view().partial,
        ).0,
        attach(themes, t, p, w, fuel)[t.len() as int].widget == (WidgetView {
            full: resolve(themes, t, p, w.view().partial).1,
            ..w.view()
        }),
    decreases w, 2nat,
{
    let (q, full) = resolve(themes, t, p, w.view().partial);
    lemma_attach_at(themes, t, q, w, full, fuel);
    lemma_extends_trans(
        t,
        attach_explicit(themes, t, q, w, full, fuel),
        attach_at(themes, t, q, w, full, fuel),
    );
}

/// Explicit children come first: when a widget is attached, the widgets
/// attached for its pending children (with everything they bring) take the
/// handles below `attach_explicit(..).len()`, at least one each, and every
/// widget its theme declares takes a handle at or above it, as a
/// theme-made child of the widget's own parent.
pub proof fn lemma_attach_at(
    themes: ThemeSet,
    t: Seq<NodeView>,
    q: usize,
    w: Widget,
    full: Seq<char>,
    fuel: nat,
)
    ensures
        extends(t, attach_explicit(themes, t, q, w, full, fuel)),
        attach_explicit(themes, t, q, w, full, fuel).len() >= t.len() + 1 + w.pending().len(),
        extends(attach_explicit(themes, t, q, w, full, fuel), attach_at(themes, t, q, w, full, fuel)),
        attach_at(themes, t, q, w, full, fuel)[t.len() as int].parent == q,
        attach_at(themes, t, q, w, full, fuel)[t.len() as int].widget == (WidgetView {
            full,
            ..w.view()
        }),
        forall|d: int|
            attach_explicit(themes, t, q, w, full, fuel).len() <= d < attach_at(
                themes,
                t,
                q,
                w,
                full,
                fuel,
            ).len() ==> (#[trigger] attach_at(themes, t, q, w, full, fuel)[d]).parent == q
                && theme_made(attach_at(themes, t, q, w, full, fuel)[d].widget),
    decreases w, 1nat,
{
    let h = t.len() as usize;
    let v = WidgetView { full, ..w.view() };
    let t1 = link(t, q, v);
    lemma_link_extends(t, q, v);
    let ws = w.pending();
    match w {
        Widget::Empty(x) => {
            assert(ws == x.state.to_add@);
        },
        Widget::Label(x) => {
            assert(ws == x.state.to_add@);
        },
        Widget::Button(x) => {
            assert(ws == x.state.to_add@);
        },
    }
    assert forall|i: int| 0 <= i < ws.len() implies decreases_to!(w => #[trigger] ws[i]) by {
        match w {
            Widget::Empty(x) => {
                assert(decreases_to!(w => x.state.to_add@[i]));
            },
            Widget::Label(x) => {
                assert(decreases_to!(w => x.state.to_add@[i]));
            },
            Widget::Button(x) => {
                assert(decreases_to!(w => x.state.to_add@[i]));
            },
        }
    }
    lemma_attach_pending(themes, t1, h, ws, fuel, w);
    let t2 = attach_explicit(themes, t, q, w, full, fuel);
    assert(t2 == attach_pending(themes, t1, h, ws, fuel));
    lemma_extends_trans(t, t1, t2);
    lemma_expand_list(themes, t2, q, themes.child_ids(full), fuel);
    let u = attach_at(themes, t, q, w, full, fuel);
    assert(t2[t.len() as int].parent == t1[t.len() as int].parent);
    assert(u[t.len() as int].parent == t2[t.len() as int].parent);
    assert(u[t.len() as int].widget == t2[t.len() as int].widget);
}

proof fn lemma_attach_pending(
    themes: ThemeSet,
    t: Seq<NodeView>,
    p: usize,
    ws: Seq<Widget>,
    fuel: nat,
    owner: Widget,
)
    requires
        forall|i: int| 0 <= i < ws.len() ==> decreases_to!(owner => #[trigger] ws[i]),
    ensures
        extends(t, attach_pending(themes, t, p, ws, fuel)),
        attach_pending(themes, t, p, ws, fuel).len() >= t.len() + ws.len(),
    decreases owner, 0nat, ws.len(),
{
    if ws.len() == 0 {
        lemma_extends_refl(t);
    } else {
        let t1 = attach(themes, t, p, ws[0], fuel);
        assert(decreases_to!(owner => ws[0]));
        lemma_attach(themes, t, p, ws[0], fuel);
        let rest = ws.subrange(1, ws.len() as int);
        assert forall|i: int| 0 <= i < rest.len() implies decreases_to!(owner => #[trigger] rest[i]) by {
            assert(rest[i] == ws[i + 1]);
        }
        lemma_attach_pending(themes, t1, p, rest, fuel, owner);
        lemma_extends_trans(t, t1, attach_pending(themes, t, p, ws, fuel));
    }
}

proof fn lemma_offered_bounds(t: Seq<NodeView>, h: usize, cursor: Cursor)
    requires
        topology_wf(t),
        h < t.len(),
    ensures
        forall|i: int|
            0 <= i < offered(t, h, cursor).len() ==> h <= #[trigger] offered(t, h, cursor)[i]
                < t.len(),
    decreases t.len() - h, 1nat,
{
    if hit(t, h, cursor) {
        lemma_offered_children_bounds(t, h, 0, cursor);
        let kids = offered_children(t, h, 0, cursor);
        let o = offered(t, h, cursor);
        assert(o == kids + seq![h]);
        assert forall|i: int| 0 <= i < o.len() implies h <= #[trigger] o[i] < t.len() by {
            if i < kids.len() {
                assert(o[i] == kids[i]);
            }
        }
    }
}

proof fn lemma_offered_children_bounds(t: Seq<NodeView>, h: usize, i: nat, cursor: Cursor)
    requires
        topology_wf(t),
        h < t.len(),
    ensures
        forall|k: int|
            0 <= k < offered_children(t, h, i, cursor).len() ==> h < #[trigger] offered_children(
                t,
                h,
                i,
                cursor,
            )[k] < t.len(),
    decreases t.len() - h, 0nat, t[h as int].children.len() - i,
{
    if i < t[h as int].children.len() {
        let c = t[h as int].children[i as int];
        lemma_offered_children_bounds(t, h, i + 1, cursor);
        if h < c && c < t.len() {
            lemma_offered_bounds(t, c, cursor);
        }
        let head = if h < c && c < t.len() {
            offered(t, c, cursor)
        } else {
            Seq::empty()
        };
        let rest = offered_children(t, h, i + 1, cursor);
        let o = offered_children(t, h, i, cursor);
        assert(o == head + rest);
        assert(h < c < t.len());
        assert forall|k: int| 0 <= k < o.len() implies h < #[trigger] o[k] < t.len() by {
            if k < head.len() {
                assert(o[k] == head[k]);
            } else {
                assert(o[k] == rest[k - head.len()]);
            }
        }
    }
}

proof fn lemma_offered_children_has(t: Seq<NodeView>, p: usize, i: nat, k: int, cursor: Cursor)
    requires
        topology_wf(t),
        p < t.len(),
        i <= k < t[p as int].children.len(),
        hit(t, t[p as int].children[k], cursor),
    ensures
        offered_children(t, p, i, cursor).contains(t[p as int].children[k]),
    decreases k - i,
{
    let c = t[p as int].children[i as int];
    let head = if p < c && c < t.len() {
        offered(t, c, cursor)
    } else {
        Seq::empty()
    };
    let rest = offered_children(t, p, i + 1, cursor);
    assert(offered_children(t, p, i, cursor) == head + rest);
    if i == k {
        let o = offered(t, c, cursor);
        assert(o.last() == c);
        assert((head + rest)[o.len() - 1] == c);
    } else {
        lemma_offered_children_has(t, p, i + 1, k, cursor);
        let j = choose|j: int| 0 <= j < rest.len() && rest[j] == t[p as int].children[k];
        assert((head + rest)[head.len() + j] == rest[j]);
    }
}

/// Dispatch short-circuit: when the cursor hits a widget and one of its
/// children, dispatching from the widget offers the event to the child
/// before the widget, whose own turn comes last and only once; so a child
/// that consumes the event ends the dispatch before the parent's callback
/// can fire.
pub proof fn lemma_child_before_parent(t: Seq<NodeView>, p: usize, k: int, cursor: Cursor)
    requires
        topology_wf(t),
        p < t.len(),
        0 <= k < t[p as int].children.len(),
        hit(t, p, cursor),
        hit(t, t[p as int].children[k], cursor),
    ensures
        offered(t, p, cursor).len() >= 2,
        offered(t, p, cursor).last() == p,
        forall|i: int| 0 <= i < offered(t, p, cursor).len() - 1 ==> #[trigger] offered(t, p, cursor)[i] != p,
        exists|i: int|
            0 <= i < offered(t, p, cursor).len() - 1 && #[trigger] offered(t, p, cursor)[i]
                == t[p as int].children[k],
{
    let kids = offered_children(t, p, 0, cursor);
    let o = offered(t, p, cursor);
    assert(o == kids + seq![p]);
    lemma_offered_children_has(t, p, 0, k, cursor);
    lemma_offered_children_bounds(t, p, 0, cursor);
    let j = choose|j: int| 0 <= j < kids.len() && kids[j] == t[p as int].children[k];
    assert(o[j] == kids[j]);
    assert forall|i: int| 0 <= i < o.len() - 1 implies #[trigger] o[i] != p by {
        assert(o[i] == kids[i]);
    }
}

/// `x` lies in the subtree of `c`: following parents from `x` reaches `c`.
pub open spec fn descends(t: Seq<NodeView>, x: usize, c: usize) -> bool
    decreases x,
{
    x == c || (c < x && x < t.len() && t[x as int].parent < x && descends(
        t,
        t[x as int].parent,
        c,
    ))
}

proof fn lemma_descends_ge(t: Seq<NodeView>, x: usize, c: usize)
    requires
        descends(t, x, c),
    ensures
        c <= x,
{
}

proof fn lemma_descends_child(t: Seq<NodeView>, x: usize, c: usize, h: usize)
    requires
        topology_wf(t),
        0 < c < t.len(),
        t[c as int].parent == h,
        descends(t, x, c),
    ensures
        descends(t, x, h),
    decreases x,
{
    assert(t[c as int].parent < c);
    if x != c {
        lemma_descends_child(t, t[x as int].parent, c, h);
        lemma_descends_ge(t, x, c);
    } else {
        assert(descends(t, h, h));
    }
}

proof fn lemma_siblings_disjoint(t: Seq<NodeView>, x: usize, c1: usize, c2: usize)
    requires
        topology_wf(t),
        0 < c1 < t.len(),
        0 < c2 < t.len(),
        c1 != c2,
        t[c1 as int].parent == t[c2 as int].parent,
        descends(t, x, c1),
    ensures
        !descends(t, x, c2),
    decreases x,
{
    let p = t[c1 as int].parent;
    if descends(t, x, c2) {
        if x == c1 {
            lemma_descends_ge(t, p, c2);
        } else if x == c2 {
            lemma_descends_ge(t, p, c1);
        } else {
            lemma_siblings_disjoint(t, t[x as int].parent, c1, c2);
        }
    }
}

proof fn lemma_preorder_shape(t: Seq<NodeView>, h: usize)
    requires
        topology_wf(t),
        h < t.len(),
    ensures
        preorder(t, h).no_duplicates(),
        forall|i: int|
            0 <= i < preorder(t, h).len() ==> #[trigger] preorder(t, h)[i] < t.len() && descends(
                t,
                preorder(t, h)[i],
                h,
            ),
        preorder(t, h)[0] == h,
    decreases t.len() - h, 1nat,
{
    lemma_preorder_children_shape(t, h, 0);
    let kids = preorder_children(t, h, 0);
    let o = preorder(t, h);
    assert(o == seq![h] + kids);
    assert forall|i: int| 0 <= i < o.len() implies #[trigger] o[i] < t.len() && descends(t, o[i], h) by {
        if i > 0 {
            assert(o[i] == kids[i - 1]);
        }
    }
    assert forall|i: int, j: int| 0 <= i < o.len() && 0 <= j < o.len() && i != j implies o[i]
        != o[j] by {
        if i > 0 && j > 0 {
            assert(o[i] == kids[i - 1] && o[j] == kids[j - 1]);
        } else if i == 0 {
            assert(o[j] == kids[j - 1]);
        } else {
            assert(o[i] == kids[i - 1]);
        }
    }
}

proof fn lemma_preorder_children_shape(t: Seq<NodeView>, h: usize, i: nat)
    requires
        topology_wf(t),
        h < t.len(),
    ensures
        preorder_children(t, h, i).no_duplicates(),
        forall|k: int|
            0 <= k < preorder_children(t, h, i).len() ==> h < #[trigger] preorder_children(
                t,
                h,
                i,
            )[k] < t.len() && descends(t, preorder_children(t, h, i)[k], h),
        forall|k: int, j: int|
            0 <= k < preorder_children(t, h, i).len() && 0 <= j < i && j
                < t[h as int].children.len() ==> !descends(
                t,
                #[trigger] preorder_children(t, h, i)[k],
                #[trigger] t[h as int].children[j],
            ),
    decreases t.len() - h, 0nat, t[h as int].children.len() - i,
{
    let kids = t[h as int].children;
    if i < kids.len() {
        let c = kids[i as int];
        assert(h < c < t.len());
        lemma_preorder_shape(t, c);
        lemma_preorder_children_shape(t, h, i + 1);
        let b = preorder(t, c);
        let r = preorder_children(t, h, i + 1);
        let o = preorder_children(t, h, i);
        assert(o == b + r);
        assert forall|k: int| 0 <= k < b.len() implies descends(t, #[trigger] b[k], h) by {
            lemma_descends_child(t, b[k], c, h);
        }
        assert forall|k: int| 0 <= k < o.len() implies h < #[trigger] o[k] < t.len() && descends(
            t,
            o[k],
            h,
        ) by {
            if k < b.len() {
                assert(o[k] == b[k]);
                lemma_descends_ge(t, b[k], c);
            } else {
                assert(o[k] == r[k - b.len()]);
            }
        }
        assert forall|k: int, j: int|
            0 <= k < o.len() && 0 <= j < i && j < kids.len() implies !descends(
            t,
            #[trigger] o[k],
            #[trigger] t[h as int].children[j],
        ) by {
            if k < b.len() {
                assert(o[k] == b[k]);
                assert(kids[j] != c);
                lemma_siblings_disjoint(t, b[k], c, kids[j]);
            } else {
                assert(o[k] == r[k - b.len()]);
            }
        }
        assert forall|x: int, y: int| 0 <= x < o.len() && 0 <= y < o.len() && x != y implies o[x]
            != o[y] by {
            if x < b.len() && y >= b.len() {
                assert(o[x] == b[x] && o[y] == r[y - b.len()]);
                assert(!descends(t, r[y - b.len()], kids[i as int]));
            } else if y < b.len() && x >= b.len() {
                assert(o[y] == b[y] && o[x] == r[x - b.len()]);
                assert(!descends(t, r[x - b.len()], kids[i as int]));
            } else if x < b.len() {
                assert(o[x] == b[x] && o[y] == b[y]);
            } else {
                assert(o[x] == r[x - b.len()] && o[y] == r[y - b.len()]);
            }
        }
    }
}

proof fn lemma_toward(t: Seq<NodeView>, x: usize, h: usize) -> (c: usize)
    requires
        topology_wf(t),
        descends(t, x, h),
        x != h,
    ensures
        0 < c < t.len(),
        t[c as int].parent == h,
        descends(t, x, c),
    decreases x,
{
    let p = t[x as int].parent;
    if p == h {
        x
    } else {
        let c = lemma_toward(t, p, h);
        lemma_descends_ge(t, p, c);
        c
    }
}

proof fn lemma_preorder_children_has(t: Seq<NodeView>, h: usize, i: nat, k: int, x: usize)
    requires
        topology_wf(t),
        h < t.len(),
        i <= k < t[h as int].children.len(),
        preorder(t, t[h as int].children[k]).contains(x),
    ensures
        preorder_children(t, h, i).contains(x),
    decreases k - i,
{
    let c = t[h as int].children[i as int];
    let b = preorder(t, c);
    let r = preorder_children(t, h, i + 1);
    assert(h < c < t.len());
    assert(preorder_children(t, h, i) == b + r);
    if i == k {
        let j = choose|j: int| 0 <= j < b.len() && b[j] == x;
        assert((b + r)[j] == x);
    } else {
        lemma_preorder_children_has(t, h, i + 1, k, x);
        let j = choose|j: int| 0 <= j < r.len() && r[j] == x;
        assert((b + r)[b.len() + j] == x);
    }
}

proof fn lemma_preorder_has(t: Seq<NodeView>, x: usize, h: usize)
    requires
        topology_wf(t),
        h < t.len(),
        descends(t, x, h),
    ensures
        preorder(t, h).contains(x),
    decreases t.len() - h,
{
    lemma_preorder_shape(t, h);
    if x == h {
        assert(preorder(t, h)[0] == h);
    } else {
        let c = lemma_toward(t, x, h);
        assert(t[h as int].children.contains(c));
        let k = choose|k: int| 0 <= k < t[h as int].children.len() && t[h as int].children[k] == c;
        lemma_preorder_has(t, x, c);
        lemma_preorder_children_has(t, h, 0, k, x);
        let kids = preorder_children(t, h, 0);
        let j = choose|j: int| 0 <= j < kids.len() && kids[j] == x;
        assert(preorder(t, h) == seq![h] + kids);
        assert(preorder(t, h)[j + 1] == x);
    }
}

proof fn lemma_descends_root(t: Seq<NodeView>, x: usize)
    requires
        topology_wf(t),
        x < t.len(),
    ensures
        descends(t, x, 0),
    decreases x,
{
    if x != 0 {
        lemma_descends_root(t, t[x as int].parent);
    }
}

/// Drawing order visits every widget exactly once: the pre-order from the
/// root of a well-formed tree holds each of its handles, and none twice.
pub proof fn lemma_draw_order_each_once(t: Seq<NodeView>)
    requires
        topology_wf(t),
        0 < t.len() <= usize::MAX,
    ensures
        preorder(t, 0).no_duplicates(),
        preorder(t, 0).len() == t.len(),
        forall|i: int| 0 <= i < preorder(t, 0).len() ==> #[trigger] preorder(t, 0)[i] < t.len(),
        forall|x: usize| x < t.len() ==> #[trigger] preorder(t, 0).contains(x),
{
    lemma_preorder_shape(t, 0);
    assert forall|x: usize| x < t.len() implies #[trigger] preorder(t, 0).contains(x) by {
        lemma_descends_root(t, x);
        lemma_preorder_has(t, x, 0);
    }
    let o = preorder(t, 0);
    let handles = Set::new(|x: usize| x < t.len());
    let seen = o.to_set();
    assert(seen =~= handles);
    o.unique_seq_to_set();
    assert(handles =~= <usize as vstd::set_lib::FiniteRange>::range_set(0usize, t.len() as usize));
    <usize as vstd::set_lib::FiniteRange>::range_properties(0usize, t.len() as usize);
}

} // verus!
