//! The changes that edit a screen.
use vstd::prelude::*;
use vstd::std_specs::convert::{FromSpec, FromSpecImpl, IntoSpec};
use crate::cell::{AttributeChange, AttributeChangeView, AttributesView, CellAttributes};

verus! {

/// Position holds 0-based positioning information, where
/// Absolute(0) is the start of the line or column,
/// Relative(0) is the current position in the line or
/// column and EndRelative(0) is the end position in the
/// line or column.
#[derive(Debug, Clone, Copy, PartialEq, Eq, Structural)]
pub enum Position {
    NoChange,
    /// Negative values move up, positive values down
    Relative(isize),
    /// Relative to the start of the line or top of the screen
    Absolute(usize),
    /// Relative to the end of line or bottom of screen
    EndRelative(usize),
}

impl Position {
    /// Where the position leads from `current` in a line or column of `limit`
    /// places, which may be outside of it.
    pub open spec fn target(self, current: int, limit: int) -> int {
        match self {
            Position::NoChange => current,
            Position::Relative(delta) => current + delta,
            Position::Absolute(place) => place as int,
            Position::EndRelative(delta) => limit - delta,
        }
    }

    /// Where the cursor goes from `current` in a line or column of `limit`
    /// places: to the target, or to the place nearest to it.
    pub open spec fn resolve(self, current: int, limit: int) -> int {
        let target = self.target(current, limit);
        if target < 0 {
            0
        } else if target >= limit {
            limit - 1
        } else {
            target
        }
    }
}

/// Applies a Position update to either the x or y position.
/// The value is clamped to be in the range: 0..limit
pub fn compute_position_change(current: usize, pos: &Position, limit: usize) -> (place: usize)
    requires
        limit > 0,
    ensures
        place == pos.resolve(current as int, limit as int),
        place < limit,
        *pos == Position::NoChange ==> place == if current < limit {
            current as int
        } else {
            limit - 1
        },
        *pos matches Position::Relative(delta) ==> {
            &&& 0 <= current + delta < limit ==> place == current + delta
            &&& current + delta < 0 ==> place == 0
            &&& current + delta >= limit ==> place == limit - 1
        },
        *pos matches Position::Absolute(to) ==> place == if to < limit {
            to as int
        } else {
            limit - 1
        },
        *pos matches Position::EndRelative(delta) ==> {
            &&& delta == 0 ==> place == limit - 1
            &&& 0 < delta <= limit ==> place + delta == limit
            &&& delta > limit ==> place == 0
        },
{
    let target = match *pos {
        Position::NoChange => current,
        Position::Relative(delta) => {
            if delta > 0 {
                current.saturating_add(delta as usize)
            } else if delta == isize::MIN {
                current.saturating_sub(isize::MAX as usize).saturating_sub(1)
            } else {
                current.saturating_sub((-delta) as usize)
            }
        },
        Position::Absolute(place) => place,
        Position::EndRelative(delta) => limit.saturating_sub(delta),
    };
    if target < limit {
        target
    } else {
        limit - 1
    }
}

/// One step of an edit.
#[derive(Debug, PartialEq, Eq)]
pub enum Change {
    /// Change one attribute of the text that follows.
    Attribute(AttributeChange),
    /// Change all attributes of the text that follows.
    AllAttributes(CellAttributes),
    /// Add printable text.
    /// Control characters are rendered inert by transforming them
    /// to space.  CR and LF characters are interpreted by moving
    /// the cursor position.  CR moves the cursor to the start of
    /// the line and LF moves the cursor down to the next line.
    /// You typically want to use both together when sending in
    /// a line break.
    Text(String),
    /// Move the cursor.
    CursorPosition { x: Position, y: Position },
}

/// What a change holds.
#[verifier::ext_equal]
pub enum ChangeView {
    Attribute(AttributeChangeView),
    AllAttributes(AttributesView),
    Text(Seq<char>),
    CursorPosition { x: Position, y: Position },
}

impl View for Change {
    type V = ChangeView;

    open spec fn view(&self) -> ChangeView {
        match *self {
            Change::Attribute(change) => ChangeView::Attribute(change@),
            Change::AllAttributes(attrs) => ChangeView::AllAttributes(attrs@),
            Change::Text(text) => ChangeView::Text(text@),
            Change::CursorPosition { x, y } => ChangeView::CursorPosition { x, y },
        }
    }
}

/// What a run of changes holds.
pub open spec fn changes_view(changes: Seq<Change>) -> Seq<ChangeView> {
    Seq::new(changes.len(), |i: int| changes[i]@)
}

impl Clone for Change {
    fn clone(&self) -> (copy: Change)
        ensures
            copy == *self,
    {
        match self {
            Change::Attribute(change) => Change::Attribute(change.clone()),
            Change::AllAttributes(attrs) => Change::AllAttributes(attrs.clone()),
            Change::Text(text) => Change::Text(text.clone()),
            Change::CursorPosition { x, y } => Change::CursorPosition { x: *x, y: *y },
        }
    }
}

impl Change {
    /// Whether this change adds text.
    pub fn is_text(&self) -> (result: bool)
        ensures
            result == (self@ is Text),
    {
        match self {
            Change::Text(_) => true,
            _ => false,
        }
    }

    /// The text that this change adds.
    pub fn text(&self) -> (text: &str)
        requires
            self@ is Text,
        ensures
            self@ == ChangeView::Text(text@),
    {
        match self {
            Change::Text(text) => text.as_str(),
            _ => vstd::pervasive::unreached(),
        }
    }
}

/// `String::push`: the character is added at the end of the string.
pub assume_specification[ String::push ](s: &mut String, c: char)
    ensures
        final(s)@ == old(s)@.push(c),
;

/// `String::from` on a string slice: the new string holds the characters of the
/// slice.
pub assume_specification<'a>[ <String as From<&'a str>>::from ](s: &str) -> (r: String)
    ensures
        r@ == s@,
;

/// `From::from` of a type into itself: the argument is returned unchanged.
pub assume_specification<T>[ <T as From<T>>::from ](t: T) -> (r: T)
    ensures
        r == t,
;

/// The types that turn into a text.
pub trait TextSource {
    /// Whether a value of this type turns into a text.
    spec fn makes_text() -> bool;
}

impl<S: Into<String>> TextSource for S {
    open spec fn makes_text() -> bool {
        true
    }
}

impl<S: Into<String>> From<S> for Change {
    /// The change that adds the text.  The clause holds of the types that turn
    /// into a text alone: the other conversions into a change have their own.
    fn from(s: S) -> (change: Change)
        ensures
            <S as TextSource>::makes_text() ==> exists|text: String|
                {
                    &&& call_ensures(<S as Into<String>>::into, (s,), text)
                    &&& change == Change::Text(text)
                },
    {
        Change::Text(s.into())
    }
}

impl<S: Into<String>> FromSpecImpl<S> for Change {
    open spec fn obeys_from_spec() -> bool {
        <S as IntoSpec<String>>::obeys_into_spec()
    }

    open spec fn from_spec(s: S) -> Change {
        Change::Text(<S as IntoSpec<String>>::into_spec(s))
    }
}

impl From<AttributeChange> for Change {
    fn from(c: AttributeChange) -> (change: Change)
        ensures
            change == Change::Attribute(c),
    {
        Change::Attribute(c)
    }
}

impl FromSpecImpl<AttributeChange> for Change {
    open spec fn obeys_from_spec() -> bool {
        true
    }

    open spec fn from_spec(c: AttributeChange) -> Change {
        Change::Attribute(c)
    }
}

/// Whatever turns into a text turns into the change that adds just that text.
pub proof fn law_texts_become_changes<S: Into<String>>(s: S)
    ensures
        <S as TextSource>::makes_text(),
        <S as IntoSpec<String>>::obeys_into_spec() ==> <Change as FromSpec<S>>::obeys_from_spec(),
        <Change as FromSpec<S>>::from_spec(s) == Change::Text(
            <S as IntoSpec<String>>::into_spec(s),
        ),
{
}

/// A change of one attribute turns into the change that makes just that one.
pub proof fn law_attribute_changes_become_changes(c: AttributeChange)
    ensures
        <Change as FromSpec<AttributeChange>>::obeys_from_spec(),
        <Change as FromSpec<AttributeChange>>::from_spec(c) == Change::Attribute(c),
{
}

} // verus!
