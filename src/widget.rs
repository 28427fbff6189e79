use vstd::prelude::*;

use crate::geometry::{contains, contains_spec, Cursor, Point, Size};
use crate::image::{Image, Renderer};
use crate::theme::DEFAULT_THEME_ID;

verus! {

/// The concrete kind of a widget, for reflection and safe downcasting.
#[derive(Clone, Copy, Debug, PartialEq, Eq, Structural)]
pub enum WidgetKind {
    Empty,
    Label,
    Button,
}

/// The state every widget carries.
pub struct WidgetState {
    /// The short theme id given to the widget.
    pub theme_partial_id: String,
    /// The cascaded theme id, settled when the widget is attached.
    pub theme_full_id: String,
    pub position: Point,
    pub size: Size,
    pub background: Image,
    pub foreground: Image,
    /// The handle of the widget once it is attached.
    pub index: usize,
    /// Children waiting to be attached right after this widget is.
    pub to_add: Vec<Widget>,
}

pub struct EmptyWidget {
    pub state: WidgetState,
}

pub struct Label {
    pub state: WidgetState,
    pub text: String,
}

pub struct Button {
    pub state: WidgetState,
    pub text: String,
}

/// A widget of one of the toolkit's kinds.
pub enum Widget {
    Empty(EmptyWidget),
    Label(Label),
    Button(Button),
}

/// What a widget shows and where, leaving out its handle and its pending
/// children.
pub struct WidgetView {
    pub kind: WidgetKind,
    pub text: Seq<char>,
    pub partial: Seq<char>,
    pub full: Seq<char>,
    pub position: Point,
    pub size: Size,
    pub background: Option<Seq<char>>,
    pub foreground: Option<Seq<char>>,
}

impl WidgetState {
    /// A state with theme id `id` and everything else at its default.
    pub fn with_theme(id: String) -> (r: WidgetState)
        ensures
            r.theme_partial_id == id,
            r.theme_full_id == id,
            r.position == (Point { x: 0, y: 0 }),
            r.size == (Size { width: 0, height: 0 }),
            r.background.source is None,
            r.foreground.source is None,
            r.index == 0,
            r.to_add@.len() == 0,
    {
        WidgetState {
            theme_partial_id: id.clone(),
            theme_full_id: id,
            position: Point::default(),
            size: Size::default(),
            background: Image::default(),
            foreground: Image::default(),
            index: 0,
            to_add: Vec::new(),
        }
    }
}

impl WidgetState {
    /// The hit-test of this widget's rectangle.
    pub fn is_inside(&self, cursor: &Cursor) -> (r: bool)
        ensures
            r == contains_spec(self.position, self.size, *cursor),
    {
        contains(self.position, self.size, cursor)
    }
}

impl Default for WidgetState {
    fn default() -> (r: WidgetState)
        ensures
            r.theme_partial_id@ == DEFAULT_THEME_ID@,
            r.theme_full_id@ == DEFAULT_THEME_ID@,
            r.position == (Point { x: 0, y: 0 }),
            r.size == (Size { width: 0, height: 0 }),
            r.background.source is None,
            r.foreground.source is None,
            r.index == 0,
            r.to_add@.len() == 0,
    {
        WidgetState::with_theme(String::from_str(DEFAULT_THEME_ID))
    }
}

impl EmptyWidget {
    /// A container with the default theme.
    pub fn new() -> (r: EmptyWidget)
        ensures
            r.state.theme_partial_id@ == DEFAULT_THEME_ID@,
            r.state.theme_full_id@ == DEFAULT_THEME_ID@,
            r.state.position == (Point { x: 0, y: 0 }),
            r.state.size == (Size { width: 0, height: 0 }),
            r.state.background.source is None,
            r.state.foreground.source is None,
            r.state.to_add@.len() == 0,
    {
        EmptyWidget { state: WidgetState::default() }
    }
}

impl Label {
    /// A label showing `text`, with theme id `label`.
    pub fn new(text: String) -> (r: Label)
        ensures
            r.text == text,
            r.state.theme_partial_id@ == "label"@,
            r.state.theme_full_id@ == "label"@,
            r.state.position == (Point { x: 0, y: 0 }),
            r.state.size == (Size { width: 0, height: 0 }),
            r.state.background.source is None,
            r.state.foreground.source is None,
            r.state.to_add@.len() == 0,
    {
        Label { state: WidgetState::with_theme(String::from_str("label")), text }
    }

    pub fn text(&self) -> (r: &str)
        ensures
            r@ == self.text@,
    {
        self.text.as_str()
    }
}

impl Button {
    /// A button showing `text`, with the default theme.
    pub fn new(text: String) -> (r: Button)
        ensures
            r.text == text,
            r.state.theme_partial_id@ == DEFAULT_THEME_ID@,
            r.state.theme_full_id@ == DEFAULT_THEME_ID@,
            r.state.position == (Point { x: 0, y: 0 }),
            r.state.size == (Size { width: 0, height: 0 }),
            r.state.background.source is None,
            r.state.foreground.source is None,
            r.state.to_add@.len() == 0,
    {
        Button { state: WidgetState::default(), text }
    }

    pub fn text(&self) -> (r: &str)
        ensures
            r@ == self.text@,
    {
        self.text.as_str()
    }
}

impl Widget {
    pub open spec fn state_spec(&self) -> WidgetState {
        match self {
            Widget::Empty(w) => w.state,
            Widget::Label(w) => w.state,
            Widget::Button(w) => w.state,
        }
    }

    /// The same widget with its state replaced.
    pub open spec fn with_state(self, s: WidgetState) -> Widget {
        match self {
            Widget::Empty(w) => Widget::Empty(EmptyWidget { state: s }),
            Widget::Label(w) => Widget::Label(Label { state: s, text: w.text }),
            Widget::Button(w) => Widget::Button(Button { state: s, text: w.text }),
        }
    }

    pub open spec fn kind_spec(&self) -> WidgetKind {
        match self {
            Widget::Empty(_) => WidgetKind::Empty,
            Widget::Label(_) => WidgetKind::Label,
            Widget::Button(_) => WidgetKind::Button,
        }
    }

    pub open spec fn text_spec(&self) -> Seq<char> {
        match self {
            Widget::Empty(_) => Seq::empty(),
            Widget::Label(w) => w.text@,
            Widget::Button(w) => w.text@,
        }
    }

    pub open spec fn view(&self) -> WidgetView {
        let s = self.state_spec();
        WidgetView {
            kind: self.kind_spec(),
            text: self.text_spec(),
            partial: s.theme_partial_id@,
            full: s.theme_full_id@,
            position: s.position,
            size: s.size,
            background: s.background@,
            foreground: s.foreground@,
        }
    }

    /// The children waiting to be attached with this widget.
    pub open spec fn pending(&self) -> Seq<Widget> {
        self.state_spec().to_add@
    }

    /// An empty container with the default theme.
    pub fn empty() -> (r: Widget)
        ensures
            r is Empty,
            r.view().partial == DEFAULT_THEME_ID@,
            r.view().full == DEFAULT_THEME_ID@,
            r.view().position == (Point { x: 0, y: 0 }),
            r.view().size == (Size { width: 0, height: 0 }),
            r.pending().len() == 0,
    {
        Widget::Empty(EmptyWidget::new())
    }

    pub fn state(&self) -> (r: &WidgetState)
        ensures
            *r == self.state_spec(),
    {
        match self {
            Widget::Empty(w) => &w.state,
            Widget::Label(w) => &w.state,
            Widget::Button(w) => &w.state,
        }
    }

    pub fn kind(&self) -> (r: WidgetKind)
        ensures
            r == self.kind_spec(),
    {
        match self {
            Widget::Empty(_) => WidgetKind::Empty,
            Widget::Label(_) => WidgetKind::Label,
            Widget::Button(_) => WidgetKind::Button,
        }
    }

    pub fn index(&self) -> (r: usize)
        ensures
            r == self.state_spec().index,
    {
        self.state().index
    }

    pub fn position(&self) -> (r: Point)
        ensures
            r == self.state_spec().position,
    {
        self.state().position
    }

    pub fn size(&self) -> (r: Size)
        ensures
            r == self.state_spec().size,
    {
        self.state().size
    }

    /// The cascaded theme id.
    pub fn theme_id(&self) -> (r: &str)
        ensures
            r@ == self.view().full,
    {
        self.state().theme_full_id.as_str()
    }

    pub fn theme_partial_id(&self) -> (r: &str)
        ensures
            r@ == self.view().partial,
    {
        self.state().theme_partial_id.as_str()
    }

    /// The label inside, if this widget is one.
    pub fn as_label(&self) -> (r: Option<&Label>)
        ensures
            r is Some <==> self is Label,
            r matches Some(l) ==> self == Widget::Label(*l),
    {
        match self {
            Widget::Label(l) => Some(l),
            _ => None,
        }
    }

    /// The button inside, if this widget is one.
    pub fn as_button(&self) -> (r: Option<&Button>)
        ensures
            r is Some <==> self is Button,
            r matches Some(b) ==> self == Widget::Button(*b),
    {
        match self {
            Widget::Button(b) => Some(b),
            _ => None,
        }
    }

    /// Replaces the state, keeping the kind and the text.
    pub fn set_state(&mut self, s: WidgetState)
        ensures
            *final(self) == old(self).with_state(s),
    {
        match self {
            Widget::Empty(w) => w.state = s,
            Widget::Label(w) => w.state = s,
            Widget::Button(w) => w.state = s,
        }
    }

    /// Gives the widget the theme id `id`, both as its partial and its
    /// cascaded id.
    pub fn set_theme(&mut self, id: String)
        ensures
            *final(self) == old(self).with_state(
                WidgetState {
                    theme_partial_id: id,
                    theme_full_id: id,
                    ..old(self).state_spec()
                },
            ),
    {
        match self {
            Widget::Empty(w) => {
                w.state.theme_partial_id = id.clone();
                w.state.theme_full_id = id;
            },
            Widget::Label(w) => {
                w.state.theme_partial_id = id.clone();
                w.state.theme_full_id = id;
            },
            Widget::Button(w) => {
                w.state.theme_partial_id = id.clone();
                w.state.theme_full_id = id;
            },
        }
    }

    pub fn set_position(&mut self, position: Point)
        ensures
            *final(self) == old(self).with_state(
                WidgetState { position, ..old(self).state_spec() },
            ),
    {
        match self {
            Widget::Empty(w) => w.state.position = position,
            Widget::Label(w) => w.state.position = position,
            Widget::Button(w) => w.state.position = position,
        }
    }

    pub fn set_size(&mut self, size: Size)
        ensures
            *final(self) == old(self).with_state(WidgetState { size, ..old(self).state_spec() }),
    {
        match self {
            Widget::Empty(w) => w.state.size = size,
            Widget::Label(w) => w.state.size = size,
            Widget::Button(w) => w.state.size = size,
        }
    }

    /// Queues `child` to be attached right after this widget is.
    pub fn add_child(&mut self, child: Widget)
        ensures
            final(self).view() == old(self).view(),
            final(self).kind_spec() == old(self).kind_spec(),
            final(self).state_spec().index == old(self).state_spec().index,
            final(self).pending() == old(self).pending().push(child),
    {
        match self {
            Widget::Empty(w) => w.state.to_add.push(child),
            Widget::Label(w) => w.state.to_add.push(child),
            Widget::Button(w) => w.state.to_add.push(child),
        }
    }

    /// Sets the cascaded theme id alone.
    pub(crate) fn set_full_theme_id(&mut self, id: String)
        ensures
            *final(self) == old(self).with_state(
                WidgetState { theme_full_id: id, ..old(self).state_spec() },
            ),
    {
        match self {
            Widget::Empty(w) => w.state.theme_full_id = id,
            Widget::Label(w) => w.state.theme_full_id = id,
            Widget::Button(w) => w.state.theme_full_id = id,
        }
    }

    pub(crate) fn set_index(&mut self, index: usize)
        ensures
            *final(self) == old(self).with_state(WidgetState { index, ..old(self).state_spec() }),
    {
        match self {
            Widget::Empty(w) => w.state.index = index,
            Widget::Label(w) => w.state.index = index,
            Widget::Button(w) => w.state.index = index,
        }
    }

    /// Takes the queue of pending children out of the widget.
    pub(crate) fn take_pending(&mut self) -> (r: Vec<Widget>)
        ensures
            r@ == old(self).pending(),
            final(self).view() == old(self).view(),
            final(self).kind_spec() == old(self).kind_spec(),
            final(self).state_spec().index == old(self).state_spec().index,
            final(self).pending().len() == 0,
    {
        let mut r: Vec<Widget> = Vec::new();
        match self {
            Widget::Empty(w) => std::mem::swap(&mut w.state.to_add, &mut r),
            Widget::Label(w) => std::mem::swap(&mut w.state.to_add, &mut r),
            Widget::Button(w) => std::mem::swap(&mut w.state.to_add, &mut r),
        }
        r
    }

    /// Draws the background, then the foreground, at the widget's place.
    pub fn draw<R: Renderer>(&self, renderer: &mut R) {
        let s = self.state();
        s.background.draw(renderer, s.position, s.size);
        s.foreground.draw(renderer, s.position, s.size);
    }
}

} // verus!
