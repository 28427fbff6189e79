use vstd::prelude::*;

use crate::color::Color;
use crate::geometry::{Point, Size};

verus! {

#[derive(Clone, Copy, Debug, PartialEq, Eq, Structural)]
pub enum HorizontalAlignment {
    Left,
    Center,
    Right,
}

impl Default for HorizontalAlignment {
    fn default() -> (r: HorizontalAlignment)
        ensures
            r == HorizontalAlignment::Left,
    {
        HorizontalAlignment::Left
    }
}

#[derive(Clone, Copy, Debug, PartialEq, Eq, Structural)]
pub enum VerticalAlignment {
    Top,
    Center,
    Bottom,
}

impl Default for VerticalAlignment {
    fn default() -> (r: VerticalAlignment)
        ensures
            r == VerticalAlignment::Center,
    {
        VerticalAlignment::Center
    }
}

/// How a widget's size is resolved against its parent and children.
#[derive(Clone, Copy, Debug, PartialEq, Eq, Structural)]
pub enum SizeRelative {
    Zero,
    Parent,
    ChildMax,
    ChildSum,
    Custom,
}

impl Default for SizeRelative {
    fn default() -> (r: SizeRelative)
        ensures
            r == SizeRelative::Zero,
    {
        SizeRelative::Zero
    }
}

/// How a widget's position is resolved against its parent.
#[derive(Clone, Copy, Debug, PartialEq, Eq, Structural)]
pub enum PositionRelative {
    Zero,
    Center,
    Max,
    Custom,
}

impl Default for PositionRelative {
    fn default() -> (r: PositionRelative)
        ensures
            r == PositionRelative::Zero,
    {
        PositionRelative::Zero
    }
}

#[derive(Clone, Copy, Debug, PartialEq, Eq, Structural)]
pub enum LayoutKind {
    Normal,
    BoxVertical,
    BoxHorizontal,
    Grid,
}

impl Default for LayoutKind {
    fn default() -> (r: LayoutKind)
        ensures
            r == LayoutKind::Normal,
    {
        LayoutKind::Normal
    }
}

/// What a theme-declared child becomes when its parent is attached.
#[derive(Clone, Copy, Debug, PartialEq, Eq, Structural)]
pub enum ThemeKind {
    /// A text label is created for it.
    Label,
    /// An empty container widget is created for it.
    Container,
    /// A slot that application code fills; nothing is created for it.
    Reference,
}

impl Default for ThemeKind {
    fn default() -> (r: ThemeKind)
        ensures
            r == ThemeKind::Container,
    {
        ThemeKind::Container
    }
}

#[derive(Clone, Copy, Debug, PartialEq, Eq, Structural)]
pub struct Relative {
    pub x: PositionRelative,
    pub y: PositionRelative,
    pub width: SizeRelative,
    pub height: SizeRelative,
}

impl Default for Relative {
    fn default() -> (r: Relative)
        ensures
            r == (Relative {
                x: PositionRelative::Zero,
                y: PositionRelative::Zero,
                width: SizeRelative::Zero,
                height: SizeRelative::Zero,
            }),
    {
        Relative {
            x: PositionRelative::Zero,
            y: PositionRelative::Zero,
            width: SizeRelative::Zero,
            height: SizeRelative::Zero,
        }
    }
}

#[derive(Clone, Copy, Debug, PartialEq, Eq, Structural)]
pub struct Border {
    pub top: u32,
    pub bottom: u32,
    pub left: u32,
    pub right: u32,
}

impl Default for Border {
    fn default() -> (r: Border)
        ensures
            r == (Border { top: 0, bottom: 0, left: 0, right: 0 }),
    {
        Border { top: 0, bottom: 0, left: 0, right: 0 }
    }
}

/// How text is laid out and drawn. The scale is in hundredths.
#[derive(Clone, Debug)]
pub struct TextParams {
    pub horizontal_alignment: HorizontalAlignment,
    pub vertical_alignment: VerticalAlignment,
    pub color: Color,
    pub scale_percent: u32,
    pub font: String,
}

impl Default for TextParams {
    fn default() -> (r: TextParams)
        ensures
            r.horizontal_alignment == HorizontalAlignment::Left,
            r.vertical_alignment == VerticalAlignment::Center,
            r.color == (Color { r: 255, g: 255, b: 255, a: 255 }),
            r.scale_percent == 100,
            r.font@ == "Default"@,
    {
        TextParams {
            horizontal_alignment: HorizontalAlignment::Left,
            vertical_alignment: VerticalAlignment::Center,
            color: Color::default(),
            scale_percent: 100,
            font: String::from_str("Default"),
        }
    }
}

/// The id of the theme that stands in for every id a catalog does not hold.
pub const DEFAULT_THEME_ID: &'static str = "default";

/// One record of a theme catalog.
#[derive(Clone, Debug)]
pub struct Theme {
    pub id: String,
    pub kind: ThemeKind,
    pub layout: LayoutKind,
    pub layout_spacing: Border,
    pub border: Border,
    pub size: Size,
    pub position: Point,
    pub relative: Relative,
    pub text: Option<String>,
    pub text_params: TextParams,
    pub background: Option<String>,
    pub foreground: Option<String>,
    pub custom: Vec<(String, String)>,
    /// The fully qualified ids of the children this theme declares, in order.
    pub children: Vec<String>,
}

impl Theme {
    /// A theme with the given id and every other field at its default.
    pub fn new(id: String) -> (r: Theme)
        ensures
            r.id == id,
            r.kind == ThemeKind::Container,
            r.layout == LayoutKind::Normal,
            r.size == (Size { width: 0, height: 0 }),
            r.position == (Point { x: 0, y: 0 }),
            r.text is None,
            r.background is None,
            r.foreground is None,
            r.custom@.len() == 0,
            r.children@.len() == 0,
    {
        Theme {
            id,
            kind: ThemeKind::default(),
            layout: LayoutKind::default(),
            layout_spacing: Border::default(),
            border: Border::default(),
            size: Size::default(),
            position: Point::default(),
            relative: Relative::default(),
            text: None,
            text_params: TextParams::default(),
            background: None,
            foreground: None,
            custom: Vec::new(),
            children: Vec::new(),
        }
    }
}

impl Default for Theme {
    fn default() -> (r: Theme)
        ensures
            r.id@ == DEFAULT_THEME_ID@,
            r.kind == ThemeKind::Container,
            r.children@.len() == 0,
    {
        Theme::new(String::from_str(DEFAULT_THEME_ID))
    }
}

#[derive(Clone, Copy, Debug, PartialEq, Eq, Structural)]
pub enum ThemeError {
    /// Two records of the catalog share an id.
    DuplicateId,
}

pub open spec fn ids_unique(themes: Seq<Theme>) -> bool {
    forall|i: int, j: int|
        0 <= i < themes.len() && 0 <= j < themes.len() && i != j ==> themes[i].id@
            != themes[j].id@
}

/// The text of each id in `v`.
pub open spec fn id_seq(v: Seq<String>) -> Seq<Seq<char>> {
    v.map_values(|s: String| s@)
}

/// An immutable, id-indexed catalog of themes. Looking up an id that it
/// does not hold gives the default theme.
pub struct ThemeSet {
    themes: Vec<Theme>,
    fallback: Theme,
}

impl ThemeSet {
    #[verifier::type_invariant]
    spec fn inv(self) -> bool {
        &&& ids_unique(self.themes@)
        &&& self.fallback.id@ == DEFAULT_THEME_ID@
        &&& self.fallback.children@.len() == 0
    }

    /// The records of the catalog.
    pub closed spec fn records(&self) -> Seq<Theme> {
        self.themes@
    }

    /// The number of records.
    pub closed spec fn size(&self) -> nat {
        self.themes@.len()
    }

    pub closed spec fn has(&self, id: Seq<char>) -> bool {
        exists|i: int| 0 <= i < self.themes@.len() && self.themes@[i].id@ == id
    }

    /// The theme that `id` names: the record with that id, or the default
    /// theme when there is none.
    pub closed spec fn get(&self, id: Seq<char>) -> Theme {
        if self.has(id) {
            self.themes@[choose|i: int| 0 <= i < self.themes@.len() && self.themes@[i].id@ == id]
        } else {
            self.fallback
        }
    }

    /// The ids of the children declared by the theme that `id` names.
    pub open spec fn child_ids(&self, id: Seq<char>) -> Seq<Seq<char>> {
        id_seq(self.get(id).children@)
    }

    /// Builds a catalog; ids must be unique.
    pub fn new(themes: Vec<Theme>) -> (r: Result<ThemeSet, ThemeError>)
        ensures
            r is Ok <==> ids_unique(themes@),
            r matches Ok(set) ==> set.records() == themes@,
            r matches Err(e) ==> e == ThemeError::DuplicateId,
    {
        let n = themes.len();
        let mut i: usize = 0;
        while i < n
            invariant
                n == themes@.len(),
                i <= n,
                forall|a: int, b: int|
                    0 <= a < i && 0 <= b < n && a != b ==> themes@[a].id@ != themes@[b].id@,
            decreases n - i,
        {
            let mut j: usize = 0;
            while j < n
                invariant
                    n == themes@.len(),
                    i < n,
                    j <= n,
                    forall|a: int, b: int|
                        0 <= a < i && 0 <= b < n && a != b ==> themes@[a].id@ != themes@[b].id@,
                    forall|b: int| 0 <= b < j && b != i ==> themes@[i as int].id@ != themes@[b].id@,
                decreases n - j,
            {
                if j != i && themes[i].id == themes[j].id {
                    return Err(ThemeError::DuplicateId);
                }
                j = j + 1;
            }
            i = i + 1;
        }
        Ok(ThemeSet { themes, fallback: Theme::default() })
    }

    /// The number of records.
    pub fn len(&self) -> (r: usize)
        ensures
            r == self.size(),
    {
        self.themes.len()
    }

    pub fn contains(&self, id: &String) -> (r: bool)
        ensures
            r == self.has(id@),
    {
        match self.position_of(id) {
            Some(_) => true,
            None => false,
        }
    }

    fn position_of(&self, id: &String) -> (r: Option<usize>)
        ensures
            r matches Some(i) ==> i < self.themes@.len() && self.themes@[i as int].id@ == id@,
            r is None <==> !self.has(id@),
    {
        let n = self.themes.len();
        let mut i: usize = 0;
        while i < n
            invariant
                n == self.themes@.len(),
                i <= n,
                forall|j: int| 0 <= j < i ==> self.themes@[j].id@ != id@,
            decreases n - i,
        {
            if self.themes[i].id == *id {
                return Some(i);
            }
            i = i + 1;
        }
        None
    }

    /// The children that the theme `id` names declares, in order, each with
    /// the kind of its own theme.
    pub fn children_of(&self, id: &String) -> (r: Vec<(String, ThemeKind)>)
        ensures
            r@.len() == self.child_ids(id@).len(),
            forall|i: int|
                0 <= i < r@.len() ==> (#[trigger] r@[i]).0@ == self.child_ids(id@)[i] && r@[i].1
                    == self.get(self.child_ids(id@)[i]).kind,
    {
        let th = self.lookup(id);
        let n = th.children.len();
        let mut r: Vec<(String, ThemeKind)> = Vec::new();
        let mut i: usize = 0;
        while i < n
            invariant
                *th == self.get(id@),
                n == th.children@.len(),
                i <= n,
                r@.len() == i,
                forall|j: int|
                    0 <= j < i ==> (#[trigger] r@[j]).0@ == th.children@[j]@ && r@[j].1 == self.get(
                        th.children@[j]@,
                    ).kind,
            decreases n - i,
        {
            let c = &th.children[i];
            let kind = self.lookup(c).kind;
            r.push((c.clone(), kind));
            i = i + 1;
        }
        r
    }

    /// The theme that `id` names, or the default theme.
    pub fn lookup(&self, id: &String) -> (r: &Theme)
        ensures
            *r == self.get(id@),
    {
        proof {
            use_type_invariant(self);
        }
        match self.position_of(id) {
            Some(i) => {
                let ghost c = choose|k: int|
                    0 <= k < self.themes@.len() && self.themes@[k].id@ == id@;
                assert(c == i);
                &self.themes[i]
            },
            None => &self.fallback,
        }
    }
}

} // verus!
