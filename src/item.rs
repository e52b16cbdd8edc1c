use vstd::prelude::*;
use vstd::string::*;

verus! {

/// The character that separates a directory prefix from a file name.
pub const SEPARATOR: char = '/';

/// A path holds a separator when it can be split into a directory and a name.
pub open spec fn has_separator(p: Seq<char>) -> bool {
    exists|i: int| 0 <= i < p.len() && p[i] == SEPARATOR
}

/// `k` is the position of the last separator of `p`.
pub open spec fn is_last_separator(p: Seq<char>, k: int) -> bool {
    &&& 0 <= k < p.len()
    &&& p[k] == SEPARATOR
    &&& forall|i: int| k < i < p.len() ==> p[i] != SEPARATOR
}

/// One tracked filesystem path. Two items are equal when their paths are.
pub struct Item(pub String);

impl View for Item {
    type V = Seq<char>;

    open spec fn view(&self) -> Seq<char> {
        self.0@
    }
}

impl Item {
    /// An item for `path`, or `None` when the path has no separator.
    pub fn new(path: String) -> (r: Option<Item>)
        ensures
            r is Some <==> has_separator(path@),
            r matches Some(it) ==> it@ == path@,
    {
        match last_separator(path.as_str()) {
            Some(_) => Some(Item(path)),
            None => None,
        }
    }

    /// A copy of this item.
    pub fn duplicate(&self) -> (r: Item)
        ensures
            r@ == self@,
    {
        Item(self.0.clone())
    }

    /// The path of this item.
    pub fn path(&self) -> (r: &String)
        ensures
            r@ == self@,
    {
        &self.0
    }

    /// Splits the path after its last separator: the directory prefix keeps
    /// the separator, the name is what follows it.
    pub fn split(&self) -> (r: (String, String))
        requires
            has_separator(self@),
        ensures
            exists|k: int|
                is_last_separator(self@, k) && r.0@ == self@.take(k + 1) && r.1@ == self@.skip(
                    k + 1,
                ),
    {
        let s = self.0.as_str();
        let k = last_separator(s).unwrap();
        let n = s.unicode_len();
        let dir = s.substring_char(0, k + 1).to_owned();
        let name = s.substring_char(k + 1, n).to_owned();
        assert(self@.skip(k + 1) =~= self@.subrange(k + 1, n as int));
        (dir, name)
    }
}

/// The position of the last separator of `s`, if it holds one.
pub fn last_separator(s: &str) -> (r: Option<usize>)
    ensures
        r is Some <==> has_separator(s@),
        r matches Some(k) ==> is_last_separator(s@, k as int),
{
    let n = s.unicode_len();
    let mut i: usize = n;
    while i > 0
        invariant
            i <= n,
            n == s@.len(),
            forall|j: int| i <= j < n ==> s@[j] != SEPARATOR,
        decreases i,
    {
        let c = s.get_char(i - 1);
        if c == SEPARATOR {
            return Some(i - 1);
        }
        i = i - 1;
    }
    None
}

} // verus!
