//! Text widgets.

use crate::data::{Core, CoreData, WidgetId};
use crate::geom::{Rect, Size};
use crate::layout::size_rules::SizeRules;
use crate::layout::AxisInfo;
use core::fmt::Display;
use vstd::prelude::*;
use vstd::std_specs::convert::{FromSpec, FromSpecImpl, IntoSpec};
use vstd::std_specs::iter::IteratorSpec;
use vstd::std_specs::ops::{AddSpec, SubSpec};
use vstd::string::{axiom_spec_iter, next_postcondition, to_string_from_display_ensures};

verus! {

/// A simple text label.
#[derive(Clone, Debug)]
pub struct Label {
    core: CoreData,
    text: String,
}

impl Label {
    /// The text that the label shows.
    pub closed spec fn text(&self) -> String {
        self.text
    }

    /// A label showing `text` as `to_string` writes it.
    pub fn new<T: Display>(text: T) -> (label: Self)
        ensures
            to_string_from_display_ensures(&text, label.text()),
            label.core_spec() == CoreData::default_spec(),
    {
        Label { core: Default::default(), text: text.to_string() }
    }

    /// The text that the label shows.
    pub fn get_text(&self) -> (text: &str)
        ensures
            text@ == self.text()@,
    {
        self.text.as_str()
    }

    /// Replaces the text of the label. Returns the identifier of the widget
    /// that has to be drawn again: the label.
    pub fn set_string(&mut self, text: String) -> (redraw: WidgetId)
        ensures
            final(self).text() == text,
            final(self).core_spec() == old(self).core_spec(),
            redraw == old(self).core_spec().id,
    {
        self.text = text;
        self.core.id
    }
}

impl Default for Label {
    /// A label without text.
    fn default() -> (label: Self)
        ensures
            label.text()@ == Seq::<char>::empty(),
            label.core_spec() == CoreData::default_spec(),
    {
        Label { core: Default::default(), text: String::new() }
    }
}

impl<T> FromSpecImpl<T> for Label where String: From<T> {
    open spec fn obeys_from_spec() -> bool {
        <String as FromSpec<T>>::obeys_from_spec()
    }

    closed spec fn from_spec(text: T) -> Label {
        Label { core: CoreData::default_spec(), text: <String as FromSpec<T>>::from_spec(text) }
    }
}

impl<T> From<T> for Label where String: From<T> {
    /// A label showing `text`, made into a string.
    fn from(text: T) -> (label: Self)
        ensures
            label.core_spec() == CoreData::default_spec(),
            <String as FromSpec<T>>::obeys_from_spec() ==> label.text() == <String as FromSpec<
                T,
            >>::from_spec(text),
    {
        Label { core: Default::default(), text: String::from(text) }
    }
}

impl Core for Label {
    closed spec fn core_spec(&self) -> CoreData {
        self.core
    }

    fn core_data(&self) -> (data: &CoreData) {
        &self.core
    }

    fn core_data_mut(&mut self) -> (data: &mut CoreData)
        ensures
            final(self).text() == old(self).text(),
    {
        &mut self.core
    }
}

/// `String::push` appends the character to the end of the string.
pub assume_specification[ String::push ](s: &mut String, ch: char)
    ensures
        final(s)@ == old(s)@.push(ch),
;

/// `String::pop` removes the last character and returns it; from an empty
/// string it removes nothing and returns `None`.
pub assume_specification[ String::pop ](s: &mut String) -> (ch: Option<char>)
    ensures
        old(s)@.len() > 0 ==> ch == Some(old(s)@.last()) && final(s)@ == old(s)@.drop_last(),
        old(s)@.len() == 0 ==> ch == None::<char> && final(s)@ == old(s)@,
;

/// `String::clear` removes all contents of the string.
pub assume_specification[ String::clear ](s: &mut String)
    ensures
        final(s)@ == Seq::<char>::empty(),
;

/// The kind of the edit made last, by which edits of one kind in a row are
/// undone together.
#[derive(Clone, Copy, Debug, PartialEq, Eq, Structural)]
pub enum LastEdit {
    NoEdit,
    Insert,
    Backspace,
    Clear,
    Paste,
}

impl Default for LastEdit {
    fn default() -> (r: Self)
        ensures
            r == LastEdit::NoEdit,
    {
        LastEdit::NoEdit
    }
}

/// What an edit box holds, as far as editing goes.
pub struct EditState {
    /// Whether the text can be edited.
    pub editable: bool,
    /// Whether the box shows several lines.
    pub multi_line: bool,
    /// The text.
    pub text: Seq<char>,
    /// The text as it was before the last run of edits, where there was one.
    pub saved: Option<Seq<char>>,
    /// The kind of the edit made last.
    pub last_edit: LastEdit,
}

/// Whether `c` is a control character: one that an edit box never inserts.
pub open spec fn is_control(c: char) -> bool {
    (c as u32) < 0x20 || (0x7f <= (c as u32) && (c as u32) <= 0x9f)
}

/// Whether `c` is a control character.
pub fn is_control_char(c: char) -> (b: bool)
    ensures
        b == is_control(c),
{
    c < '\u{20}' || (c >= '\u{7f}' && c <= '\u{9f}')
}

/// The character that stands for "copy".
pub const CHAR_COPY: char = '\u{03}';

/// The character that stands for "backspace".
pub const CHAR_BACKSPACE: char = '\u{08}';

/// The character that stands for "carriage return", which activates the box.
pub const CHAR_RETURN: char = '\u{0D}';

/// The character that stands for "paste".
pub const CHAR_PASTE: char = '\u{16}';

/// The character that stands for both "undo" and "redo".
pub const CHAR_UNDO: char = '\u{1A}';

/// The character that stands for "delete", which clears the box.
pub const CHAR_DELETE: char = '\u{7f}';

impl EditState {
    /// The state as an edit of kind `kind` begins: where the last edit was of
    /// another kind, the text is saved first.
    pub open spec fn begin(self, kind: LastEdit) -> EditState {
        if self.last_edit == kind {
            self
        } else {
            EditState { saved: Some(self.text), last_edit: kind, ..self }
        }
    }

    /// The state with another text.
    pub open spec fn with_text(self, text: Seq<char>) -> EditState {
        EditState { text, ..self }
    }

    /// The state after the box has received the character `c`.
    ///
    /// A box that is not editable ignores it. A character that is no control
    /// character is appended. Backspace removes the last character, and
    /// delete all of them. Paste only begins here: what is pasted arrives
    /// later. Undo swaps the text with the saved one, where there is one.
    /// Every other control character leaves the state as it is.
    pub open spec fn after_char(self, c: char) -> EditState {
        if !self.editable {
            self
        } else if !is_control(c) {
            let s = self.begin(LastEdit::Insert);
            s.with_text(s.text.push(c))
        } else if c == CHAR_BACKSPACE {
            let s = self.begin(LastEdit::Backspace);
            if s.text.len() > 0 {
                s.with_text(s.text.drop_last())
            } else {
                s
            }
        } else if c == CHAR_PASTE {
            self.begin(LastEdit::Paste)
        } else if c == CHAR_UNDO {
            match self.saved {
                Some(saved) => EditState {
                    text: saved,
                    saved: Some(self.text),
                    last_edit: LastEdit::NoEdit,
                    ..self
                },
                None => self,
            }
        } else if c == CHAR_DELETE {
            self.begin(LastEdit::Clear).with_text(Seq::empty())
        } else {
            self
        }
    }
}

/// The part of `content` before its first control character: all of it,
/// where it has none.
pub open spec fn clean_prefix(content: Seq<char>) -> Seq<char>
    decreases content.len(),
{
    if content.len() == 0 || is_control(content[0]) {
        Seq::empty()
    } else {
        seq![content[0]] + clean_prefix(content.drop_first())
    }
}

/// What the owner of an edit box has to do after the box has received a
/// character.
#[derive(Clone, Debug, PartialEq, Eq)]
pub enum CharResponse {
    /// The box is not editable: nothing changed, and there is nothing to do.
    Ignored,
    /// The box was activated. Nothing changed.
    Activated,
    /// The box has to be drawn again.
    Redraw,
    /// The text given goes to the clipboard, and the box has to be drawn
    /// again.
    Copy(String),
    /// What the clipboard holds, if anything, goes to `paste`, and the box has
    /// to be drawn again.
    Paste,
}

/// An editable, single-line text box.
#[derive(Clone, Debug)]
pub struct EditBox<H> {
    core: CoreData,
    text_rect: Rect,
    editable: bool,
    multi_line: bool,
    text: String,
    old_state: Option<String>,
    last_edit: LastEdit,
    on_activate: H,
}

impl<H> View for EditBox<H> {
    type V = EditState;

    closed spec fn view(&self) -> EditState {
        EditState {
            editable: self.editable,
            multi_line: self.multi_line,
            text: self.text@,
            saved: match self.old_state {
                Some(s) => Some(s@),
                None => None,
            },
            last_edit: self.last_edit,
        }
    }
}

impl<H: Default> Default for EditBox<H> {
    /// An edit box without text that is not editable.
    fn default() -> (r: Self)
        ensures
            r@ == (EditState {
                editable: false,
                multi_line: false,
                text: Seq::empty(),
                saved: None,
                last_edit: LastEdit::NoEdit,
            }),
            r.core_spec() == CoreData::default_spec(),
            r.text_rect() == Rect::default_spec(),
    {
        EditBox {
            core: Default::default(),
            text_rect: Default::default(),
            editable: false,
            multi_line: false,
            text: String::new(),
            old_state: None,
            last_edit: LastEdit::NoEdit,
            on_activate: H::default(),
        }
    }
}

impl<H> Core for EditBox<H> {
    closed spec fn core_spec(&self) -> CoreData {
        self.core
    }

    fn core_data(&self) -> (data: &CoreData) {
        &self.core
    }

    fn core_data_mut(&mut self) -> (data: &mut CoreData)
        ensures
            final(self)@ == old(self)@,
            final(self).text_rect() == old(self).text_rect(),
            final(self).handler_spec() == old(self).handler_spec(),
    {
        &mut self.core
    }
}

impl EditBox<()> {
    /// An edit box with the given initial `text`: editable, showing one line,
    /// with nothing to undo and nothing called on activation.
    pub fn new<S: Into<String>>(text: S) -> (r: Self)
        ensures
            r@.editable,
            !r@.multi_line,
            r@.saved is None,
            r@.last_edit == LastEdit::NoEdit,
            r.core_spec() == CoreData::default_spec(),
            r.text_rect() == Rect::default_spec(),
            <S as IntoSpec<String>>::obeys_into_spec() ==> r@.text == text.into_spec()@,
    {
        let text: String = text.into();
        EditBox {
            core: Default::default(),
            text_rect: Default::default(),
            editable: true,
            multi_line: false,
            text,
            old_state: None,
            last_edit: LastEdit::NoEdit,
            on_activate: (),
        }
    }

    /// Sets the handler to be called on activation: `f` is called with the
    /// text when the box is activated. This builds another box with all else
    /// unchanged.
    pub fn on_activate<R, H: Fn(&str) -> R>(self, f: H) -> (r: EditBox<H>)
        ensures
            r@ == self@,
            r.core_spec() == self.core_spec(),
            r.text_rect() == self.text_rect(),
            *r.handler_spec() == f,
    {
        EditBox {
            core: self.core,
            text_rect: self.text_rect,
            editable: self.editable,
            multi_line: self.multi_line,
            text: self.text,
            old_state: self.old_state,
            last_edit: self.last_edit,
            on_activate: f,
        }
    }
}

impl<H> EditBox<H> {
    /// The rectangle that the text is drawn in.
    pub closed spec fn text_rect(&self) -> Rect {
        self.text_rect
    }

    /// The handler called on activation.
    pub closed spec fn handler_spec(&self) -> &H {
        &self.on_activate
    }

    /// Sets whether this box is editable.
    pub fn editable(self, editable: bool) -> (r: Self)
        ensures
            r@ == (EditState { editable, ..self@ }),
            r.core_spec() == self.core_spec(),
            r.text_rect() == self.text_rect(),
            r.handler_spec() == self.handler_spec(),
    {
        let mut r = self;
        r.editable = editable;
        r
    }

    /// Sets whether this box shows multiple text lines.
    pub fn multi_line(self, multi_line: bool) -> (r: Self)
        ensures
            r@ == (EditState { multi_line, ..self@ }),
            r.core_spec() == self.core_spec(),
            r.text_rect() == self.text_rect(),
            r.handler_spec() == self.handler_spec(),
    {
        let mut r = self;
        r.multi_line = multi_line;
        r
    }

    /// Whether this box is editable.
    pub fn is_editable(&self) -> (e: bool)
        ensures
            e == self@.editable,
    {
        self.editable
    }

    /// Sets whether this box is editable.
    pub fn set_editable(&mut self, editable: bool)
        ensures
            final(self)@ == (EditState { editable, ..old(self)@ }),
            final(self).core_spec() == old(self).core_spec(),
            final(self).text_rect() == old(self).text_rect(),
            final(self).handler_spec() == old(self).handler_spec(),
    {
        self.editable = editable;
    }

    /// The rectangle that the text is drawn in.
    pub fn text_area(&self) -> (rect: Rect)
        ensures
            rect == self.text_rect(),
    {
        self.text_rect
    }

    /// Whether this box shows multiple text lines.
    pub fn is_multi_line(&self) -> (m: bool)
        ensures
            m == self@.multi_line,
    {
        self.multi_line
    }

    /// The text of the box.
    pub fn get_text(&self) -> (text: &str)
        ensures
            text@ == self@.text,
    {
        self.text.as_str()
    }

    /// The handler called on activation.
    pub fn handler(&self) -> (h: &H)
        ensures
            h == self.handler_spec(),
    {
        &self.on_activate
    }

    /// Replaces the text of the box; what there is to undo stays. Returns the
    /// identifier of the widget that has to be drawn again: the box.
    pub fn set_string(&mut self, text: String) -> (redraw: WidgetId)
        ensures
            final(self)@ == old(self)@.with_text(text@),
            final(self).core_spec() == old(self).core_spec(),
            final(self).text_rect() == old(self).text_rect(),
            final(self).handler_spec() == old(self).handler_spec(),
            redraw == old(self).core_spec().id,
    {
        self.text = text;
        self.core.id
    }

    /// The rules of the box along the axis of `axis`: those of its text,
    /// `text_bound`, and the frame around it, whose top-left part is
    /// `sides.0` and whose bottom-right part is `sides.1`.
    pub fn size_rules(&self, sides: (Size, Size), text_bound: SizeRules, axis: AxisInfo) -> (r:
        SizeRules)
        requires
            sides.0.add_req(sides.1),
            axis.along(sides.0.add_spec(sides.1)) + text_bound.min() <= u32::MAX,
            axis.along(sides.0.add_spec(sides.1)) + text_bound.pref() <= u32::MAX,
        ensures
            r.min() == axis.along(sides.0.add_spec(sides.1)) + text_bound.min(),
            r.pref() == axis.along(sides.0.add_spec(sides.1)) + text_bound.pref(),
            text_bound.valid() ==> r.valid(),
    {
        SizeRules::fixed(axis.extract_size(sides.0 + sides.1)) + text_bound
    }

    /// Places the box in `rect`, and its text inside the frame, whose
    /// top-left part is `sides.0` and whose bottom-right part is `sides.1`.
    pub fn set_rect(&mut self, sides: (Size, Size), rect: Rect)
        requires
            sides.0.add_req(sides.1),
            rect.pos.add_req(sides.0),
            rect.size.sub_req(sides.0.add_spec(sides.1)),
        ensures
            final(self).core_spec() == (CoreData { rect, ..old(self).core_spec() }),
            final(self).text_rect() == (Rect {
                pos: rect.pos.add_spec(sides.0),
                size: rect.size.sub_spec(sides.0.add_spec(sides.1)),
            }),
            final(self)@ == old(self)@,
            final(self).handler_spec() == old(self).handler_spec(),
    {
        self.text_rect = Rect { pos: rect.pos + sides.0, size: rect.size - (sides.0 + sides.1) };
        self.core.rect = rect;
    }

    /// The text as the box shows it: followed by a cursor where the box has
    /// the character focus.
    pub fn shown_text(&self, char_focus: bool) -> (shown: String)
        ensures
            shown@ == if char_focus {
                self@.text.push('|')
            } else {
                self@.text
            },
    {
        let mut shown = self.text.clone();
        if char_focus {
            shown.push('|');
        }
        shown
    }

    /// Saves the text before an edit of kind `kind`, unless the last edit was
    /// of that kind too.
    fn begin_edit(&mut self, kind: LastEdit)
        ensures
            final(self)@ == old(self)@.begin(kind),
            final(self).core_spec() == old(self).core_spec(),
            final(self).text_rect() == old(self).text_rect(),
            final(self).handler_spec() == old(self).handler_spec(),
    {
        if self.last_edit != kind {
            self.old_state = Some(self.text.clone());
            self.last_edit = kind;
        }
    }

    /// Takes in a character that the box has received, and tells what there
    /// is to do for it.
    pub fn received_char(&mut self, c: char) -> (r: CharResponse)
        ensures
            final(self)@ == old(self)@.after_char(c),
            final(self).core_spec() == old(self).core_spec(),
            final(self).text_rect() == old(self).text_rect(),
            final(self).handler_spec() == old(self).handler_spec(),
            !old(self)@.editable ==> r == CharResponse::Ignored,
            old(self)@.editable && c == CHAR_RETURN ==> r == CharResponse::Activated,
            old(self)@.editable && c == CHAR_COPY ==> (r matches CharResponse::Copy(t) && t@
                == old(self)@.text),
            old(self)@.editable && c == CHAR_PASTE ==> r == CharResponse::Paste,
            old(self)@.editable && c != CHAR_RETURN && c != CHAR_COPY && c != CHAR_PASTE ==> r
                == CharResponse::Redraw,
    {
        if !self.editable {
            return CharResponse::Ignored;
        }
        if is_control_char(c) {
            if c == CHAR_COPY {
                return CharResponse::Copy(self.text.clone());
            } else if c == CHAR_BACKSPACE {
                self.begin_edit(LastEdit::Backspace);
                self.text.pop();
            } else if c == CHAR_RETURN {
                return CharResponse::Activated;
            } else if c == CHAR_PASTE {
                self.begin_edit(LastEdit::Paste);
                return CharResponse::Paste;
            } else if c == CHAR_UNDO {
                match self.old_state.take() {
                    Some(saved) => {
                        let mut state: String = saved;
                        core::mem::swap(&mut state, &mut self.text);
                        self.old_state = Some(state);
                        self.last_edit = LastEdit::NoEdit;
                    },
                    None => {},
                }
            } else if c == CHAR_DELETE {
                self.begin_edit(LastEdit::Clear);
                self.text.clear();
            }
        } else {
            self.begin_edit(LastEdit::Insert);
            self.text.push(c);
        }
        CharResponse::Redraw
    }

    /// Appends what was pasted: `content` up to its first control character,
    /// so that a paste breaks no line and starts nothing. This follows a
    /// response of `Paste`.
    pub fn paste(&mut self, content: &str)
        ensures
            final(self)@ == old(self)@.with_text(old(self)@.text + clean_prefix(content@)),
            final(self).core_spec() == old(self).core_spec(),
            final(self).text_rect() == old(self).text_rect(),
            final(self).handler_spec() == old(self).handler_spec(),
    {
        broadcast use {axiom_spec_iter, next_postcondition};

        let ghost all = content@;
        let ghost before = self.text@;
        let ghost mut taken: int = 0;
        let mut chars = content.chars();
        loop
            invariant_except_break
                0 <= taken <= all.len(),
                chars.remaining() == all.skip(taken),
                clean_prefix(all) == all.take(taken) + clean_prefix(all.skip(taken)),
                self.text@ == before + all.take(taken),
            invariant
                self@ == old(self)@.with_text(self.text@),
                self.core_spec() == old(self).core_spec(),
                self.text_rect() == old(self).text_rect(),
                self.handler_spec() == old(self).handler_spec(),
            ensures
                self.text@ == before + clean_prefix(all),
            decreases all.len() - taken,
        {
            let ghost rest = all.skip(taken);
            match chars.next() {
                None => {
                    assert(rest.len() == 0);
                    assert(all.take(taken) + clean_prefix(rest) =~= all.take(taken));
                    break ;
                },
                Some(c) => {
                    assert(rest.len() > 0 && c == rest[0]);
                    if is_control_char(c) {
                        assert(clean_prefix(rest) =~= Seq::empty());
                        assert(all.take(taken) + clean_prefix(rest) =~= all.take(taken));
                        break ;
                    }
                    self.text.push(c);
                    proof {
                        assert(rest.drop_first() =~= all.skip(taken + 1));
                        assert(all.take(taken + 1) =~= all.take(taken).push(c));
                        assert(all.take(taken) + (seq![c] + clean_prefix(all.skip(taken + 1)))
                            =~= all.take(taken + 1) + clean_prefix(all.skip(taken + 1)));
                        assert(before + all.take(taken + 1) =~= (before + all.take(taken)).push(c));
                        taken = taken + 1;
                    }
                },
            }
        }
    }
}

} // verus!
