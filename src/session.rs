use vstd::prelude::*;
use crate::item::{is_last_separator, Item};
use crate::selection::{
    hex_char, hex_char_spec, hex_value, hex_value_spec, resolve, resolve_spec, Slot, KEY_SPACE,
};
use crate::store::AppState;

verus! {

/// The key that quits without a selection, besides Esc.
pub const QUIT_KEY: char = 'q';

/// A key that was pressed.
#[derive(PartialEq, Eq, Structural, Clone, Copy, Debug)]
pub enum Key {
    Esc,
    Char(char),
    Other,
}

/// What one wait for input brought.
#[derive(PartialEq, Eq, Structural, Clone, Copy, Debug)]
pub enum Input {
    /// The tick passed with no event.
    Timeout,
    /// A key was pressed.
    Press(Key),
    /// Any other event: a release, the mouse, a resize.
    Other,
}

/// Where the interactive loop stands after an input.
pub enum Session {
    Running,
    /// The loop ends, with the path to open if one was chosen.
    Exiting(Option<String>),
}

impl View for Session {
    /// `None` while running; `Some` of the chosen path, if any, once exiting.
    type V = Option<Option<Seq<char>>>;

    open spec fn view(&self) -> Option<Option<Seq<char>>> {
        match self {
            Session::Running => None,
            Session::Exiting(None) => Some(None),
            Session::Exiting(Some(p)) => Some(Some(p@)),
        }
    }
}

/// The outcome of `input` on lists `v`, as `Session`'s view gives it.
pub open spec fn step_spec(v: (Seq<Seq<char>>, Seq<Seq<char>>), input: Input) -> Option<
    Option<Seq<char>>,
> {
    match input {
        Input::Press(Key::Esc) => Some(None),
        Input::Press(Key::Char(c)) => if c == QUIT_KEY {
            Some(None)
        } else {
            match hex_value_spec(c) {
                Some(d) => match resolve_spec(v.0.len() as int, v.1.len() as int, d) {
                    Slot::Recent(i) => Some(Some(v.0[i as int])),
                    Slot::Bookmark(j) => Some(Some(v.1[j as int])),
                    Slot::Vacant => None,
                },
                None => None,
            }
        },
        _ => None,
    }
}

/// Decides what one input does to the interactive loop; the lists are only read.
pub fn step(state: &AppState, input: Input) -> (s: Session)
    requires
        state.wf(),
    ensures
        s@ == step_spec(state@, input),
{
    match input {
        Input::Press(Key::Esc) => Session::Exiting(None),
        Input::Press(Key::Char(c)) => {
            if c == QUIT_KEY {
                return Session::Exiting(None);
            }
            match hex_value(c) {
                Some(d) => match resolve(state.recents.len(), state.bookmarks.len(), d) {
                    Slot::Recent(i) => Session::Exiting(Some(state.recents[i].path().clone())),
                    Slot::Bookmark(j) => Session::Exiting(Some(state.bookmarks[j].path().clone())),
                    Slot::Vacant => Session::Running,
                },
                None => Session::Running,
            }
        },
        _ => Session::Running,
    }
}

/// One line of the launcher screen.
pub enum Line {
    /// The logo block.
    Logo,
    /// The heading above the recents.
    RecentsHeading,
    /// The heading above the bookmarks.
    BookmarksHeading,
    Blank,
    /// An entry: its key, its directory with the trailing separator, its name.
    Entry { label: char, dir: String, name: String },
}

/// `line` shows `path` under the key `label`.
pub open spec fn shows(line: Line, label: char, path: Seq<char>) -> bool {
    match line {
        Line::Entry { label: l, dir, name } => l == label && exists|k: int|
            is_last_separator(path, k) && dir@ == path.take(k + 1) && name@ == path.skip(k + 1),
        _ => false,
    }
}

/// The entry line of `item` under key `d`.
fn entry(item: &Item, d: usize) -> (line: Line)
    requires
        d < KEY_SPACE,
        crate::item::has_separator(item@),
    ensures
        shows(line, hex_char_spec(d as int), item@),
{
    let (dir, name) = item.split();
    Line::Entry { label: hex_char(d), dir, name }
}

/// The lines of the screen, in order: the logo, the recents heading, one line
/// per recent labelled from 0, a blank line, the bookmarks heading, and one
/// line per bookmark labelled after the recents.
pub fn render(state: &AppState) -> (lines: Vec<Line>)
    requires
        state.wf(),
    ensures
        ({
            let r = state@.0.len() as int;
            let b = state@.1.len() as int;
            &&& lines@.len() == r + b + 4
            &&& lines@[0] is Logo
            &&& lines@[1] is RecentsHeading
            &&& forall|i: int| 0 <= i < r ==> shows(#[trigger] lines@[2 + i], hex_char_spec(i), state@.0[i])
            &&& lines@[2 + r] is Blank
            &&& lines@[3 + r] is BookmarksHeading
            &&& forall|j: int|
                0 <= j < b ==> shows(#[trigger] lines@[4 + r + j], hex_char_spec(r + j), state@.1[j])
        }),
{
    let ghost v = state@;
    let mut lines: Vec<Line> = Vec::new();
    lines.push(Line::Logo);
    lines.push(Line::RecentsHeading);
    let r = state.recents.len();
    let mut i: usize = 0;
    while i < r
        invariant
            state.wf(),
            r == v.0.len(),
            v == state@,
            i <= r,
            lines@.len() == 2 + i,
            lines@[0] is Logo,
            lines@[1] is RecentsHeading,
            forall|k: int| 0 <= k < i ==> shows(#[trigger] lines@[2 + k], hex_char_spec(k), v.0[k]),
        decreases r - i,
    {
        assert(state.recents@[i as int]@ == v.0[i as int]);
        lines.push(entry(&state.recents[i], i));
        i = i + 1;
    }
    lines.push(Line::Blank);
    lines.push(Line::BookmarksHeading);
    let b = state.bookmarks.len();
    let mut j: usize = 0;
    while j < b
        invariant
            state.wf(),
            r == v.0.len(),
            b == v.1.len(),
            v == state@,
            j <= b,
            lines@.len() == 4 + r + j,
            lines@[0] is Logo,
            lines@[1] is RecentsHeading,
            forall|k: int| 0 <= k < r ==> shows(#[trigger] lines@[2 + k], hex_char_spec(k), v.0[k]),
            lines@[2 + r] is Blank,
            lines@[3 + r] is BookmarksHeading,
            forall|k: int|
                0 <= k < j ==> shows(#[trigger] lines@[4 + r + k], hex_char_spec(r + k), v.1[k]),
        decreases b - j,
    {
        assert(state.bookmarks@[j as int]@ == v.1[j as int]);
        lines.push(entry(&state.bookmarks[j], r + j));
        j = j + 1;
    }
    lines
}

} // verus!
