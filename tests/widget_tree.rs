use thrust_ui::geometry::{Cursor, Point, Size};
use thrust_ui::image::{Image, Renderer};
use thrust_ui::input::{Event, EventKind, MouseButton};
use thrust_ui::theme::{Theme, ThemeError, ThemeKind, ThemeSet};
use thrust_ui::widget::{Button, EmptyWidget, Label, Widget, WidgetKind};
use thrust_ui::widget_tree::WidgetTree;

fn theme(id: &str, kind: ThemeKind, children: &[&str]) -> Theme {
    let mut t = Theme::new(id.to_string());
    t.kind = kind;
    for c in children {
        t.children.push(c.to_string());
    }
    t
}

fn container(theme_id: &str) -> Widget {
    let mut w = Widget::Empty(EmptyWidget::new());
    w.set_theme(theme_id.to_string());
    w
}

fn cursor_at(x: f32, y: f32) -> Cursor {
    Cursor::new(x as i32, y as i32, x.ceil() as i32, y.ceil() as i32)
}

fn press_at(x: f32, y: f32) -> Event {
    Event { kind: EventKind::MousePressed { button: MouseButton::Left }, cursor: cursor_at(x, y) }
}

#[test]
fn resolution_attaches_directly_when_id_matches() {
    let themes = ThemeSet::new(vec![
        theme("root", ThemeKind::Container, &[]),
        theme("root.panel", ThemeKind::Container, &[]),
        theme("root.panel.button", ThemeKind::Container, &[]),
    ])
    .unwrap();
    let mut tree = WidgetTree::new(container("root"), themes);
    let panel = tree.add_child(0, container("panel"));
    assert!(panel.resolved);
    assert_eq!(tree.widget(panel.handle).theme_id(), "root.panel");

    let mut button = Widget::Button(Button::new("ok".to_string()));
    button.set_theme("button".to_string());
    let b = tree.add_child(panel.handle, button);
    assert!(b.resolved);
    assert_eq!(tree.widget(b.handle).theme_id(), "root.panel.button");
    assert_eq!(tree.widget(b.handle).theme_partial_id(), "button");
    assert_eq!(tree.parent_index(b.handle), panel.handle);
}

#[test]
fn resolution_descends_to_theme_declared_container() {
    let themes = ThemeSet::new(vec![
        theme("root", ThemeKind::Container, &["root.panel"]),
        theme("root.panel", ThemeKind::Container, &[]),
        theme("root.panel.button", ThemeKind::Container, &[]),
    ])
    .unwrap();
    let mut tree = WidgetTree::new(container("root"), themes);
    // the root's theme declares the panel, so it exists already
    assert_eq!(tree.len(), 2);
    assert_eq!(tree.widget(1).theme_id(), "root.panel");
    assert_eq!(tree.widget(1).kind(), WidgetKind::Empty);
    assert_eq!(tree.parent_index(1), 0);

    let mut button = Widget::Button(Button::new("ok".to_string()));
    button.set_theme("button".to_string());
    let b = tree.add_child(0, button);
    assert!(b.resolved);
    assert_eq!(b.handle, 2);
    assert_eq!(tree.parent_index(2), 1);
    assert_eq!(tree.widget(2).theme_id(), "root.panel.button");
    assert_eq!(tree.children(0), &vec![1]);
    assert_eq!(tree.children(1), &vec![2]);
}

#[test]
fn unresolved_child_stays_under_requested_parent() {
    let themes = ThemeSet::new(vec![theme("root", ThemeKind::Container, &[])]).unwrap();
    let mut tree = WidgetTree::new(container("root"), themes);
    let a = tree.add_child(0, container("nowhere"));
    assert!(!a.resolved);
    assert_eq!(a.handle, 1);
    assert_eq!(tree.parent_index(1), 0);
    assert_eq!(tree.widget(1).theme_id(), "nowhere");
}

#[test]
fn explicit_children_precede_theme_declared_ones() {
    let themes = ThemeSet::new(vec![
        theme("root", ThemeKind::Container, &[]),
        theme("root.box", ThemeKind::Container, &["root.box.caption"]),
        theme("root.box.caption", ThemeKind::Label, &[]),
        theme("root.box.inner", ThemeKind::Container, &[]),
    ])
    .unwrap();
    let mut tree = WidgetTree::new(container("root"), themes);
    let mut boxed = container("box");
    boxed.add_child(container("inner"));
    let b = tree.add_child(0, boxed);
    assert_eq!(b.handle, 1);
    assert_eq!(tree.len(), 4);
    // the pending child is attached first, under the box
    assert_eq!(tree.widget(2).theme_id(), "root.box.inner");
    assert_eq!(tree.parent_index(2), 1);
    // the theme-declared caption comes after it, under the box's parent
    assert_eq!(tree.widget(3).theme_id(), "root.box.caption");
    assert_eq!(tree.widget(3).kind(), WidgetKind::Label);
    assert_eq!(tree.parent_index(3), 0);
    assert_eq!(tree.children(0), &vec![1, 3]);
}

#[test]
fn reference_children_create_nothing() {
    let themes = ThemeSet::new(vec![
        theme("root", ThemeKind::Container, &["root.slot", "root.title"]),
        theme("root.slot", ThemeKind::Reference, &[]),
        theme("root.title", ThemeKind::Label, &[]),
    ])
    .unwrap();
    let tree = WidgetTree::new(container("root"), themes);
    assert_eq!(tree.len(), 2);
    assert_eq!(tree.widget(1).theme_id(), "root.title");
    assert_eq!(tree.widget(1).as_label().unwrap().text(), "");
}

#[test]
fn cyclic_declarations_expand_a_bounded_depth() {
    let themes = ThemeSet::new(vec![
        theme("root", ThemeKind::Container, &["loop"]),
        theme("loop", ThemeKind::Container, &["loop"]),
    ])
    .unwrap();
    let tree = WidgetTree::new(container("root"), themes);
    assert_eq!(tree.len(), 3);
}

#[test]
fn handles_are_stable_and_recorded() {
    let themes = ThemeSet::new(vec![theme("root", ThemeKind::Container, &[])]).unwrap();
    let mut tree = WidgetTree::new(container("root"), themes);
    let a = tree.add_child(0, Widget::Label(Label::new("a".to_string())));
    let b = tree.add_child(a.handle, Widget::Label(Label::new("b".to_string())));
    let c = tree.add_child(0, Widget::Button(Button::new("c".to_string())));
    assert_eq!((a.handle, b.handle, c.handle), (1, 2, 3));
    for h in 0..tree.len() {
        assert_eq!(tree.widget(h).index(), h);
    }
    assert_eq!(tree.widget(1).as_label().unwrap().text(), "a");
    assert_eq!(tree.widget(2).as_label().unwrap().text(), "b");
    assert_eq!(tree.widget(3).as_button().unwrap().text(), "c");
    assert!(tree.widget(3).as_label().is_none());
    assert_eq!(tree.root().index(), 0);
    assert_eq!(tree.parent_index(0), 0);
}

#[test]
fn every_child_is_in_its_parents_list_once() {
    let themes = ThemeSet::new(vec![
        theme("root", ThemeKind::Container, &["root.header"]),
        theme("root.header", ThemeKind::Label, &[]),
    ])
    .unwrap();
    let mut tree = WidgetTree::new(container("root"), themes);
    let a = tree.add_child(0, container("a"));
    tree.add_child(a.handle, container("b"));
    tree.add_child(0, container("c"));
    for c in 1..tree.len() {
        let p = tree.parent_index(c);
        for q in 0..tree.len() {
            let n = tree.children(q).iter().filter(|&&x| x == c).count();
            assert_eq!(n, if q == p { 1 } else { 0 });
        }
    }
}

#[test]
fn draw_order_is_preorder() {
    let themes = ThemeSet::new(vec![theme("root", ThemeKind::Container, &[])]).unwrap();
    let mut tree = WidgetTree::new(container("root"), themes);
    let a = tree.add_child(0, container("a")).handle;
    let b = tree.add_child(0, container("b")).handle;
    let a1 = tree.add_child(a, container("a1")).handle;
    assert_eq!(tree.iter(0), vec![0, a, a1, b]);
    assert_eq!(tree.iter(a), vec![a, a1]);
}

struct Recorder {
    calls: Vec<(Point, Size, String)>,
}

impl Renderer for Recorder {
    fn render(&mut self, position: Point, size: Size, image: &str) {
        self.calls.push((position, size, image.to_string()));
    }
}

#[test]
fn draw_renders_layers_in_order() {
    let themes = ThemeSet::new(vec![theme("root", ThemeKind::Container, &[])]).unwrap();
    let mut root = container("root");
    let mut state = thrust_ui::widget::WidgetState::with_theme("root".to_string());
    state.background = Image::new("bg".to_string());
    state.foreground = Image::new("fg".to_string());
    state.size = Size { width: 4, height: 5 };
    root.set_state(state);
    let mut tree = WidgetTree::new(root, themes);
    let mut child = container("child");
    child.set_position(Point { x: 1, y: 2 });
    let mut s = thrust_ui::widget::WidgetState::with_theme("child".to_string());
    s.position = Point { x: 1, y: 2 };
    s.background = Image::new("child_bg".to_string());
    child.set_state(s);
    tree.add_child(0, child);
    let mut r = Recorder { calls: Vec::new() };
    tree.draw(&mut r);
    let names: Vec<&str> = r.calls.iter().map(|c| c.2.as_str()).collect();
    assert_eq!(names, vec!["bg", "fg", "child_bg"]);
    assert_eq!(r.calls[0].1, Size { width: 4, height: 5 });
    assert_eq!(r.calls[2].0, Point { x: 1, y: 2 });
}

fn sized(theme_id: &str, x: i32, y: i32, w: u32, h: u32) -> Widget {
    let mut widget = container(theme_id);
    widget.set_position(Point { x, y });
    widget.set_size(Size { width: w, height: h });
    widget
}

#[test]
fn dispatch_stops_at_consuming_child() {
    let themes = ThemeSet::new(vec![theme("root", ThemeKind::Container, &[])]).unwrap();
    let mut tree = WidgetTree::new(sized("root", 0, 0, 100, 100), themes);
    let child = tree.add_child(0, sized("child", 10, 10, 20, 20)).handle;
    let mut d = tree.begin_dispatch(&press_at(15.0, 15.0), 0);
    assert_eq!(d.target(), Some(child));
    d.report(true);
    assert!(d.is_consumed());
    assert_eq!(d.target(), None);
}

#[test]
fn dispatch_bubbles_to_parent_when_not_consumed() {
    let themes = ThemeSet::new(vec![theme("root", ThemeKind::Container, &[])]).unwrap();
    let mut tree = WidgetTree::new(sized("root", 0, 0, 100, 100), themes);
    let a = tree.add_child(0, sized("a", 0, 0, 50, 50)).handle;
    let a1 = tree.add_child(a, sized("a1", 0, 0, 10, 10)).handle;
    let b = tree.add_child(0, sized("b", 60, 60, 10, 10)).handle;
    let mut d = tree.begin_dispatch(&press_at(5.0, 5.0), 0);
    let mut seen = Vec::new();
    while let Some(h) = d.target() {
        seen.push(h);
        d.report(false);
    }
    assert_eq!(seen, vec![a1, a, 0]);
    assert!(!seen.contains(&b));
}

#[test]
fn dispatch_outside_everything_offers_nothing() {
    let themes = ThemeSet::new(vec![theme("root", ThemeKind::Container, &[])]).unwrap();
    let tree = WidgetTree::new(sized("root", 0, 0, 10, 10), themes);
    let d = tree.begin_dispatch(&press_at(50.0, 50.0), 0);
    assert_eq!(d.target(), None);
}

#[test]
fn hit_test_edge_through_dispatch() {
    let themes = ThemeSet::new(vec![theme("root", ThemeKind::Container, &[])]).unwrap();
    let tree = WidgetTree::new(sized("root", 0, 0, 10, 10), themes);
    assert_eq!(tree.begin_dispatch(&press_at(10.0, 10.0), 0).target(), Some(0));
    assert_eq!(tree.begin_dispatch(&press_at(10.1, 5.0), 0).target(), None);
}

#[test]
fn parent_of_kind_walks_up() {
    let themes = ThemeSet::new(vec![theme("root", ThemeKind::Container, &[])]).unwrap();
    let mut tree = WidgetTree::new(container("root"), themes);
    let l = tree.add_child(0, Widget::Label(Label::new("l".to_string()))).handle;
    let e = tree.add_child(l, container("e")).handle;
    let b = tree.add_child(e, Widget::Button(Button::new("b".to_string()))).handle;
    assert_eq!(tree.parent(b, WidgetKind::Empty), Some(e));
    assert_eq!(tree.parent(b, WidgetKind::Label), Some(l));
    assert_eq!(tree.parent(l, WidgetKind::Empty), Some(0));
    assert_eq!(tree.parent(b, WidgetKind::Button), None);
    assert_eq!(tree.parent(0, WidgetKind::Label), None);
}

#[test]
fn duplicate_theme_ids_are_refused() {
    let r = ThemeSet::new(vec![
        theme("a", ThemeKind::Container, &[]),
        theme("a", ThemeKind::Label, &[]),
    ]);
    assert_eq!(r.err(), Some(ThemeError::DuplicateId));
}

#[test]
fn unknown_theme_lookup_gives_default() {
    let themes = ThemeSet::new(vec![theme("root", ThemeKind::Label, &["x"])]).unwrap();
    assert!(themes.contains(&"root".to_string()));
    assert!(!themes.contains(&"nope".to_string()));
    assert_eq!(themes.lookup(&"nope".to_string()).id, "default");
    assert_eq!(themes.lookup(&"root".to_string()).kind, ThemeKind::Label);
    assert_eq!(themes.len(), 1);
    let tree = WidgetTree::new(container("other"), themes);
    assert_eq!(tree.theme(&"root".to_string()).children, vec!["x".to_string()]);
}

#[test]
fn widget_constructors() {
    let l = Label::new("hi".to_string());
    assert_eq!(l.text(), "hi");
    assert_eq!(l.state.theme_partial_id, "label");
    let b = Button::new("go".to_string());
    assert_eq!(b.text(), "go");
    assert_eq!(b.state.theme_full_id, "default");
    let e = EmptyWidget::new();
    assert_eq!(e.state.theme_partial_id, "default");
    let mut w = Widget::Empty(e);
    w.set_theme("x".to_string());
    assert_eq!(w.theme_id(), "x");
    assert_eq!(w.theme_partial_id(), "x");
    assert_eq!(w.position(), Point { x: 0, y: 0 });
    assert_eq!(w.size(), Size { width: 0, height: 0 });
}

#[test]
fn children_of_lists_declared_ids_with_kinds() {
    let themes = ThemeSet::new(vec![
        theme("root", ThemeKind::Container, &["root.a", "root.b", "root.c"]),
        theme("root.a", ThemeKind::Label, &[]),
        theme("root.b", ThemeKind::Reference, &[]),
    ])
    .unwrap();
    let kids = themes.children_of(&"root".to_string());
    assert_eq!(
        kids,
        vec![
            ("root.a".to_string(), ThemeKind::Label),
            ("root.b".to_string(), ThemeKind::Reference),
            ("root.c".to_string(), ThemeKind::Container),
        ]
    );
    assert!(themes.children_of(&"root.a".to_string()).is_empty());
    assert!(themes.children_of(&"missing".to_string()).is_empty());
}

#[test]
fn empty_widget_and_state_hit_test() {
    let w = Widget::empty();
    assert_eq!(w.kind(), WidgetKind::Empty);
    assert_eq!(w.theme_id(), "default");
    let mut s = thrust_ui::widget::WidgetState::with_theme("x".to_string());
    s.size = Size { width: 10, height: 10 };
    assert!(s.is_inside(&cursor_at(10.0, 10.0)));
    assert!(!s.is_inside(&cursor_at(10.1, 5.0)));
}

#[test]
fn moving_a_widget_changes_what_it_hits() {
    let themes = ThemeSet::new(vec![theme("root", ThemeKind::Container, &[])]).unwrap();
    let mut tree = WidgetTree::new(sized("root", 0, 0, 100, 100), themes);
    let a = tree.add_child(0, sized("a", 0, 0, 10, 10)).handle;
    assert_eq!(tree.begin_dispatch(&press_at(55.0, 55.0), 0).target(), Some(0));
    tree.set_position(a, Point { x: 50, y: 50 });
    assert_eq!(tree.begin_dispatch(&press_at(55.0, 55.0), 0).target(), Some(a));
    tree.set_size(a, Size { width: 1, height: 1 });
    assert_eq!(tree.begin_dispatch(&press_at(55.0, 55.0), 0).target(), Some(0));
    assert_eq!(tree.widget(a).position(), Point { x: 50, y: 50 });
    assert_eq!(tree.widget(a).size(), Size { width: 1, height: 1 });
}
