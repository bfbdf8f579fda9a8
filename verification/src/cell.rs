//! The cells of a screen and the attributes that they are drawn with.
use vstd::prelude::*;
use vstd::std_specs::cmp::PartialEqSpecImpl;
use crate::color::ColorAttribute;

verus! {

/// How strongly text is drawn.
#[derive(Debug, Clone, Copy, PartialEq, Eq, Structural)]
pub enum Intensity {
    Normal,
    Bold,
    Half,
}

/// How text is underlined.
#[derive(Debug, Clone, Copy, PartialEq, Eq, Structural)]
pub enum Underline {
    Off,
    Single,
    Double,
}

/// Whether text blinks.
#[derive(Debug, Clone, Copy, PartialEq, Eq, Structural)]
pub enum Blink {
    Off,
    Slow,
    Rapid,
}

/// A link that a cell leads to.
#[derive(Debug)]
pub struct Hyperlink {
    pub uri: String,
}

impl View for Hyperlink {
    type V = Seq<char>;

    open spec fn view(&self) -> Seq<char> {
        self.uri@
    }
}

impl Clone for Hyperlink {
    fn clone(&self) -> (copy: Hyperlink)
        ensures
            copy == *self,
    {
        Hyperlink { uri: self.uri.clone() }
    }
}

impl PartialEq for Hyperlink {
    fn eq(&self, other: &Hyperlink) -> (same: bool) {
        self.uri == other.uri
    }
}

impl PartialEqSpecImpl for Hyperlink {
    open spec fn obeys_eq_spec() -> bool {
        true
    }

    open spec fn eq_spec(&self, other: &Hyperlink) -> bool {
        self@ == other@
    }
}

impl Eq for Hyperlink {
}

/// What a set of cell attributes holds.
#[verifier::ext_equal]
pub struct AttributesView {
    pub intensity: Intensity,
    pub underline: Underline,
    pub blink: Blink,
    pub italic: bool,
    pub reverse: bool,
    pub strikethrough: bool,
    pub invisible: bool,
    pub foreground: ColorAttribute,
    pub background: ColorAttribute,
    /// The target of the link, if the cell is part of one.
    pub hyperlink: Option<Seq<char>>,
}

/// The attributes that a cell is drawn with.
#[derive(Debug)]
pub struct CellAttributes {
    pub intensity: Intensity,
    pub underline: Underline,
    pub blink: Blink,
    pub italic: bool,
    pub reverse: bool,
    pub strikethrough: bool,
    pub invisible: bool,
    pub foreground: ColorAttribute,
    pub background: ColorAttribute,
    pub hyperlink: Option<Hyperlink>,
}

/// The target of an optional link.
pub open spec fn link_view(link: Option<Hyperlink>) -> Option<Seq<char>> {
    match link {
        Some(link) => Some(link@),
        None => None,
    }
}

/// The attributes of plain text.
pub open spec fn plain() -> AttributesView {
    AttributesView {
        intensity: Intensity::Normal,
        underline: Underline::Off,
        blink: Blink::Off,
        italic: false,
        reverse: false,
        strikethrough: false,
        invisible: false,
        foreground: ColorAttribute::Default,
        background: ColorAttribute::Default,
        hyperlink: None,
    }
}

impl View for CellAttributes {
    type V = AttributesView;

    open spec fn view(&self) -> AttributesView {
        AttributesView {
            intensity: self.intensity,
            underline: self.underline,
            blink: self.blink,
            italic: self.italic,
            reverse: self.reverse,
            strikethrough: self.strikethrough,
            invisible: self.invisible,
            foreground: self.foreground,
            background: self.background,
            hyperlink: link_view(self.hyperlink),
        }
    }
}

impl Default for CellAttributes {
    fn default() -> (attrs: CellAttributes)
        ensures
            attrs@ == plain(),
            attrs.intensity == Intensity::Normal,
            attrs.underline == Underline::Off,
            attrs.blink == Blink::Off,
            !attrs.italic,
            !attrs.reverse,
            !attrs.strikethrough,
            !attrs.invisible,
            attrs.foreground == ColorAttribute::Default,
            attrs.background == ColorAttribute::Default,
            attrs.hyperlink is None,
    {
        CellAttributes {
            intensity: Intensity::Normal,
            underline: Underline::Off,
            blink: Blink::Off,
            italic: false,
            reverse: false,
            strikethrough: false,
            invisible: false,
            foreground: ColorAttribute::Default,
            background: ColorAttribute::Default,
            hyperlink: None,
        }
    }
}

/// A copy of an optional link.
pub(crate) fn clone_link(link: &Option<Hyperlink>) -> (copy: Option<Hyperlink>)
    ensures
        copy == *link,
{
    match link {
        Some(link) => Some(link.clone()),
        None => None,
    }
}

impl Clone for CellAttributes {
    fn clone(&self) -> (copy: CellAttributes)
        ensures
            copy == *self,
    {
        CellAttributes {
            intensity: self.intensity,
            underline: self.underline,
            blink: self.blink,
            italic: self.italic,
            reverse: self.reverse,
            strikethrough: self.strikethrough,
            invisible: self.invisible,
            foreground: self.foreground,
            background: self.background,
            hyperlink: clone_link(&self.hyperlink),
        }
    }
}

impl PartialEq for CellAttributes {
    fn eq(&self, other: &CellAttributes) -> (same: bool) {
        self.intensity == other.intensity && self.underline == other.underline && self.blink
            == other.blink && self.italic == other.italic && self.reverse == other.reverse
            && self.strikethrough == other.strikethrough && self.invisible == other.invisible
            && self.foreground == other.foreground && self.background == other.background
            && self.hyperlink == other.hyperlink
    }
}

impl PartialEqSpecImpl for CellAttributes {
    open spec fn obeys_eq_spec() -> bool {
        true
    }

    open spec fn eq_spec(&self, other: &CellAttributes) -> bool {
        self@ == other@
    }
}

impl Eq for CellAttributes {
}

impl CellAttributes {
    /// Sets how strongly text is drawn.
    pub fn set_intensity(&mut self, value: Intensity) -> (changed: &mut CellAttributes)
        ensures
            *changed == (CellAttributes { intensity: value, ..*old(self) }),
            *final(self) == *final(changed),
    {
        self.intensity = value;
        self
    }

    /// Sets how text is underlined.
    pub fn set_underline(&mut self, value: Underline) -> (changed: &mut CellAttributes)
        ensures
            *changed == (CellAttributes { underline: value, ..*old(self) }),
            *final(self) == *final(changed),
    {
        self.underline = value;
        self
    }

    /// Sets whether text blinks.
    pub fn set_blink(&mut self, value: Blink) -> (changed: &mut CellAttributes)
        ensures
            *changed == (CellAttributes { blink: value, ..*old(self) }),
            *final(self) == *final(changed),
    {
        self.blink = value;
        self
    }

    /// Sets whether text is italic.
    pub fn set_italic(&mut self, value: bool) -> (changed: &mut CellAttributes)
        ensures
            *changed == (CellAttributes { italic: value, ..*old(self) }),
            *final(self) == *final(changed),
    {
        self.italic = value;
        self
    }

    /// Sets whether text and background colors are swapped.
    pub fn set_reverse(&mut self, value: bool) -> (changed: &mut CellAttributes)
        ensures
            *changed == (CellAttributes { reverse: value, ..*old(self) }),
            *final(self) == *final(changed),
    {
        self.reverse = value;
        self
    }

    /// Sets whether text is struck through.
    pub fn set_strikethrough(&mut self, value: bool) -> (changed: &mut CellAttributes)
        ensures
            *changed == (CellAttributes { strikethrough: value, ..*old(self) }),
            *final(self) == *final(changed),
    {
        self.strikethrough = value;
        self
    }

    /// Sets whether text is invisible.
    pub fn set_invisible(&mut self, value: bool) -> (changed: &mut CellAttributes)
        ensures
            *changed == (CellAttributes { invisible: value, ..*old(self) }),
            *final(self) == *final(changed),
    {
        self.invisible = value;
        self
    }

    /// Sets the color of text.
    pub fn set_foreground<C: Into<ColorAttribute>>(&mut self, foreground: C) -> (changed: &mut CellAttributes)
        ensures
            exists|color: ColorAttribute|
                {
                    &&& call_ensures(<C as Into<ColorAttribute>>::into, (foreground,), color)
                    &&& *changed == (CellAttributes { foreground: color, ..*old(self) })
                },
            *final(self) == *final(changed),
    {
        self.foreground = foreground.into();
        self
    }
}

/// A change of one attribute; the variant names the attribute and holds its
/// new value.
#[derive(Debug, PartialEq, Eq)]
pub enum AttributeChange {
    Intensity(Intensity),
    Underline(Underline),
    Italic(bool),
    Blink(Blink),
    Reverse(bool),
    StrikeThrough(bool),
    Invisible(bool),
    Foreground(ColorAttribute),
    Background(ColorAttribute),
    Hyperlink(Option<Hyperlink>),
}

/// What a change of one attribute holds.
#[verifier::ext_equal]
pub enum AttributeChangeView {
    Intensity(Intensity),
    Underline(Underline),
    Italic(bool),
    Blink(Blink),
    Reverse(bool),
    StrikeThrough(bool),
    Invisible(bool),
    Foreground(ColorAttribute),
    Background(ColorAttribute),
    Hyperlink(Option<Seq<char>>),
}

impl View for AttributeChange {
    type V = AttributeChangeView;

    open spec fn view(&self) -> AttributeChangeView {
        match *self {
            AttributeChange::Intensity(value) => AttributeChangeView::Intensity(value),
            AttributeChange::Underline(value) => AttributeChangeView::Underline(value),
            AttributeChange::Italic(value) => AttributeChangeView::Italic(value),
            AttributeChange::Blink(value) => AttributeChangeView::Blink(value),
            AttributeChange::Reverse(value) => AttributeChangeView::Reverse(value),
            AttributeChange::StrikeThrough(value) => AttributeChangeView::StrikeThrough(value),
            AttributeChange::Invisible(value) => AttributeChangeView::Invisible(value),
            AttributeChange::Foreground(value) => AttributeChangeView::Foreground(value),
            AttributeChange::Background(value) => AttributeChangeView::Background(value),
            AttributeChange::Hyperlink(value) => AttributeChangeView::Hyperlink(link_view(value)),
        }
    }
}

impl Clone for AttributeChange {
    fn clone(&self) -> (copy: AttributeChange)
        ensures
            copy == *self,
    {
        match self {
            AttributeChange::Intensity(value) => AttributeChange::Intensity(*value),
            AttributeChange::Underline(value) => AttributeChange::Underline(*value),
            AttributeChange::Italic(value) => AttributeChange::Italic(*value),
            AttributeChange::Blink(value) => AttributeChange::Blink(*value),
            AttributeChange::Reverse(value) => AttributeChange::Reverse(*value),
            AttributeChange::StrikeThrough(value) => AttributeChange::StrikeThrough(*value),
            AttributeChange::Invisible(value) => AttributeChange::Invisible(*value),
            AttributeChange::Foreground(value) => AttributeChange::Foreground(*value),
            AttributeChange::Background(value) => AttributeChange::Background(*value),
            AttributeChange::Hyperlink(value) => AttributeChange::Hyperlink(clone_link(value)),
        }
    }
}

impl AttributesView {
    /// The attributes after one of them has changed.
    pub open spec fn changed(self, change: AttributeChangeView) -> AttributesView {
        match change {
            AttributeChangeView::Intensity(value) => AttributesView { intensity: value, ..self },
            AttributeChangeView::Underline(value) => AttributesView { underline: value, ..self },
            AttributeChangeView::Italic(value) => AttributesView { italic: value, ..self },
            AttributeChangeView::Blink(value) => AttributesView { blink: value, ..self },
            AttributeChangeView::Reverse(value) => AttributesView { reverse: value, ..self },
            AttributeChangeView::StrikeThrough(value) => AttributesView {
                strikethrough: value,
                ..self
            },
            AttributeChangeView::Invisible(value) => AttributesView { invisible: value, ..self },
            AttributeChangeView::Foreground(value) => AttributesView { foreground: value, ..self },
            AttributeChangeView::Background(value) => AttributesView { background: value, ..self },
            AttributeChangeView::Hyperlink(value) => AttributesView { hyperlink: value, ..self },
        }
    }
}

/// What a cell holds.
#[verifier::ext_equal]
pub struct CellView {
    pub ch: char,
    pub attrs: AttributesView,
}

/// The control characters: those that a terminal acts on instead of drawing
/// them.
pub open spec fn is_control(c: char) -> bool {
    c < '\u{20}' || '\u{7f}' <= c <= '\u{9f}'
}

/// The character that a cell shows when `c` is written to it: control
/// characters become a space.
pub open spec fn inert(c: char) -> char {
    if is_control(c) {
        ' '
    } else {
        c
    }
}

/// The cell that writing `c` with the attributes `attrs` gives.
pub open spec fn written(c: char, attrs: AttributesView) -> CellView {
    CellView { ch: inert(c), attrs }
}

/// A cell that nothing was written to.
pub open spec fn blank() -> CellView {
    CellView { ch: ' ', attrs: plain() }
}

/// One position of a screen: a character and the attributes to draw it with.
#[derive(Debug)]
pub struct Cell {
    text: char,
    attrs: CellAttributes,
}

impl View for Cell {
    type V = CellView;

    closed spec fn view(&self) -> CellView {
        CellView { ch: self.text, attrs: self.attrs@ }
    }
}

impl Cell {
    /// A cell that shows `text` with the attributes `attrs`.
    /// Control characters are replaced by a space.
    pub fn new(text: char, attrs: CellAttributes) -> (cell: Cell)
        ensures
            cell@ == written(text, attrs@),
            cell@.attrs == attrs@,
            0x20 <= text as int <= 0x7e || text as int >= 0xa0 ==> cell@.ch == text,
            text as int <= 0x1f || 0x7f <= text as int <= 0x9f ==> cell@.ch == ' ',
    {
        let text = if text < '\u{20}' || (text >= '\u{7f}' && text <= '\u{9f}') {
            ' '
        } else {
            text
        };
        Cell { text, attrs }
    }

    /// The character that the cell shows.
    pub fn char(&self) -> (c: char)
        ensures
            c == self@.ch,
    {
        self.text
    }

    /// The attributes that the cell is drawn with.
    pub fn attrs(&self) -> (attrs: &CellAttributes)
        ensures
            attrs@ == self@.attrs,
    {
        &self.attrs
    }
}

/// What a run of cells holds.
pub open spec fn cells_view(cells: Seq<Cell>) -> Seq<CellView> {
    Seq::new(cells.len(), |i: int| cells[i]@)
}

impl Default for Cell {
    fn default() -> (cell: Cell)
        ensures
            cell@ == blank(),
            cell@.ch == ' ',
            cell@.attrs.intensity == Intensity::Normal,
            cell@.attrs.underline == Underline::Off,
            cell@.attrs.blink == Blink::Off,
            !cell@.attrs.italic,
            !cell@.attrs.reverse,
            !cell@.attrs.strikethrough,
            !cell@.attrs.invisible,
            cell@.attrs.foreground == ColorAttribute::Default,
            cell@.attrs.background == ColorAttribute::Default,
            cell@.attrs.hyperlink is None,
    {
        Cell::new(' ', CellAttributes::default())
    }
}

impl Clone for Cell {
    fn clone(&self) -> (copy: Cell)
        ensures
            copy == *self,
    {
        Cell { text: self.text, attrs: self.attrs.clone() }
    }
}

impl PartialEq for Cell {
    fn eq(&self, other: &Cell) -> (same: bool) {
        self.text == other.text && self.attrs == other.attrs
    }
}

impl PartialEqSpecImpl for Cell {
    open spec fn obeys_eq_spec() -> bool {
        true
    }

    open spec fn eq_spec(&self, other: &Cell) -> bool {
        self@ == other@
    }
}

impl Eq for Cell {
}

} // verus!
