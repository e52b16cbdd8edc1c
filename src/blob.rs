use vstd::prelude::*;
use crate::item::{has_separator, last_separator, Item};
use crate::store::{all_separated, paths, valid_lists, AppState};

verus! {

/// serde_json's error, carried through as an opaque value.
#[verifier::external_type_specification]
#[verifier::external_body]
pub struct ExJsonError(serde_json::Error);

/// The two lists that a JSON text holds as an array of two arrays of strings,
/// or `None` when it holds no such thing.
pub uninterp spec fn json_lists(text: Seq<char>) -> Option<(Seq<Seq<char>>, Seq<Seq<char>>)>;

/// The characters of each string, in order.
pub open spec fn strings(v: Seq<String>) -> Seq<Seq<char>> {
    v.map_values(|s: String| s@)
}

/// The state that a persisted text holds: its lists where they parse and are
/// valid, both lists empty otherwise.
pub open spec fn load_spec(text: Seq<char>) -> (Seq<Seq<char>>, Seq<Seq<char>>) {
    match json_lists(text) {
        Some((r, b)) => if valid_lists(r, b) {
            (r, b)
        } else {
            (Seq::empty(), Seq::empty())
        },
        None => (Seq::empty(), Seq::empty()),
    }
}

/// Why a state could not be written out.
#[derive(PartialEq, Eq, Structural, Clone, Copy, Debug)]
pub enum SaveError {
    /// The encoder refused the lists.
    Encode,
}

/// Relies on serde_json::from_str for `(Vec<String>, Vec<String>)`: the lists
/// that the text holds, depending on the text alone.
#[verifier::external_body]
fn parse_lists(text: &str) -> (r: Option<(Vec<String>, Vec<String>)>)
    ensures
        r matches Some((a, b)) ==> json_lists(text@) == Some((strings(a@), strings(b@))),
        r is None ==> json_lists(text@) is None,
{
    serde_json::from_str::<(Vec<String>, Vec<String>)>(text).ok()
}

/// Relies on serde_json::to_string for a pair of string lists: it succeeds,
/// since strings serialize without error and hold no map keys, and the text it
/// writes is read back by serde_json::from_str as the same two lists.
#[verifier::external_body]
fn write_lists(recents: &Vec<String>, bookmarks: &Vec<String>) -> (r: Result<
    String,
    serde_json::Error,
>)
    ensures
        r is Ok,
        r matches Ok(text) ==> json_lists(text@) == Some((strings(recents@), strings(bookmarks@))),
{
    serde_json::to_string(&(recents, bookmarks))
}

/// The paths of `items` as strings.
fn path_strings(items: &Vec<Item>) -> (r: Vec<String>)
    ensures
        strings(r@) == paths(items@),
{
    let mut r: Vec<String> = Vec::new();
    let mut i: usize = 0;
    while i < items.len()
        invariant
            i <= items@.len(),
            strings(r@) == paths(items@).take(i as int),
        decreases items.len() - i,
    {
        let ghost before = r@;
        r.push(items[i].path().clone());
        assert(strings(r@) =~= strings(before).push(items@[i as int]@));
        assert(paths(items@).take(i as int + 1) =~= paths(items@).take(i as int).push(
            items@[i as int]@,
        ));
        i = i + 1;
    }
    assert(paths(items@).take(items@.len() as int) =~= paths(items@));
    r
}

/// The items for `v`, or `None` when one of its paths has no separator.
fn items_of(v: Vec<String>) -> (r: Option<Vec<Item>>)
    ensures
        r is Some <==> all_separated(strings(v@)),
        r matches Some(items) ==> paths(items@) == strings(v@),
{
    let mut r: Vec<Item> = Vec::new();
    let mut i: usize = 0;
    while i < v.len()
        invariant
            i <= v@.len(),
            paths(r@) == strings(v@).take(i as int),
            all_separated(strings(v@).take(i as int)),
        decreases v.len() - i,
    {
        let s = v[i].clone();
        if last_separator(s.as_str()).is_none() {
            assert(!has_separator(strings(v@)[i as int]));
            return None;
        }
        let ghost before = r@;
        r.push(Item(s));
        assert(paths(r@) =~= paths(before).push(v@[i as int]@));
        assert(strings(v@).take(i as int + 1) =~= strings(v@).take(i as int).push(v@[i as int]@));
        i = i + 1;
    }
    assert(strings(v@).take(v@.len() as int) =~= strings(v@));
    Some(r)
}

/// Whether no two items share a path.
fn distinct(items: &Vec<Item>) -> (r: bool)
    ensures
        r == paths(items@).no_duplicates(),
{
    let n = items.len();
    let mut i: usize = 0;
    while i < n
        invariant
            n == items@.len(),
            i <= n,
            forall|a: int, b: int|
                0 <= a < b < n && a < i ==> #[trigger] paths(items@)[a] != #[trigger] paths(
                    items@,
                )[b],
        decreases n - i,
    {
        let mut j: usize = i + 1;
        while j < n
            invariant
                n == items@.len(),
                i < n,
                i + 1 <= j <= n,
                forall|a: int, b: int|
                    0 <= a < b < n && a < i ==> #[trigger] paths(items@)[a] != #[trigger] paths(
                        items@,
                    )[b],
                forall|b: int| i < b < j ==> paths(items@)[i as int] != #[trigger] paths(items@)[b],
            decreases n - j,
        {
            assert(paths(items@)[i as int] == items@[i as int]@);
            assert(paths(items@)[j as int] == items@[j as int]@);
            if items[i].0 == items[j].0 {
                return false;
            }
            j = j + 1;
        }
        i = i + 1;
    }
    true
}

impl AppState {
    /// The persisted text of this state. Encoding two lists of paths always
    /// succeeds; writing the text out is left to the caller.
    pub fn save(&self) -> (r: Result<String, SaveError>)
        requires
            self.wf(),
        ensures
            r is Ok,
            r matches Ok(text) ==> json_lists(text@) == Some(self@),
            r matches Ok(text) ==> load_spec(text@) == self@,
    {
        let recents = path_strings(&self.recents);
        let bookmarks = path_strings(&self.bookmarks);
        match write_lists(&recents, &bookmarks) {
            Ok(text) => Ok(text),
            Err(_) => Err(SaveError::Encode),
        }
    }

    /// The state that a persisted text holds; a text that does not parse, or
    /// holds lists that break the state's bounds, gives two empty lists.
    pub fn load(text: &str) -> (s: AppState)
        ensures
            s.wf(),
            s@ == load_spec(text@),
    {
        match parse_lists(text) {
            Some((r, b)) => {
                if r.len() > crate::store::MAX_RECENTS || b.len() > crate::store::MAX_BOOKMARKS {
                    return AppState::new();
                }
                let recents = match items_of(r) {
                    Some(items) => items,
                    None => return AppState::new(),
                };
                let bookmarks = match items_of(b) {
                    Some(items) => items,
                    None => return AppState::new(),
                };
                if !distinct(&recents) {
                    return AppState::new();
                }
                AppState { recents, bookmarks }
            },
            None => AppState::new(),
        }
    }
}

/// Loading what a valid state saved gives that state back, order and contents.
pub proof fn lemma_save_load(state: (Seq<Seq<char>>, Seq<Seq<char>>), text: Seq<char>)
    requires
        valid_lists(state.0, state.1),
        json_lists(text) == Some(state),
    ensures
        load_spec(text) == state,
{
}

/// A text that does not parse loads as two empty lists.
pub proof fn lemma_malformed_loads_empty(text: Seq<char>)
    requires
        json_lists(text) is None,
    ensures
        load_spec(text).0.len() == 0,
        load_spec(text).1.len() == 0,
{
}

} // verus!
