use vstd::prelude::*;
use vstd::seq_lib::*;
use crate::item::{has_separator, Item};
use crate::selection::{hex_value, hex_value_spec, resolve, resolve_spec, Slot};

verus! {

broadcast use group_filter_ensures;

/// The most recents kept; the oldest goes first.
pub const MAX_RECENTS: usize = 10;

/// The most bookmarks kept; further ones are refused.
pub const MAX_BOOKMARKS: usize = 6;

/// The paths of a list of items, in order.
pub open spec fn paths(v: Seq<Item>) -> Seq<Seq<char>> {
    v.map_values(|it: Item| it@)
}

/// Every path of `v` holds a separator.
pub open spec fn all_separated(v: Seq<Seq<char>>) -> bool {
    forall|i: int| 0 <= i < v.len() ==> has_separator(#[trigger] v[i])
}

/// The lists that a state may hold: both bounded, recents without repeats,
/// and every path splittable.
pub open spec fn valid_lists(recents: Seq<Seq<char>>, bookmarks: Seq<Seq<char>>) -> bool {
    &&& recents.len() <= MAX_RECENTS
    &&& bookmarks.len() <= MAX_BOOKMARKS
    &&& recents.no_duplicates()
    &&& all_separated(recents)
    &&& all_separated(bookmarks)
}

/// Keeps every path but `p`.
pub open spec fn other_than(p: Seq<char>) -> spec_fn(Seq<char>) -> bool {
    |x: Seq<char>| x != p
}

/// Recents after opening `p`: `p` in front, its earlier occurrence gone, and
/// at most the bound kept.
pub open spec fn record_spec(recents: Seq<Seq<char>>, p: Seq<char>) -> Seq<Seq<char>> {
    let full = seq![p] + recents.filter(other_than(p));
    if full.len() > MAX_RECENTS {
        full.take(MAX_RECENTS as int)
    } else {
        full
    }
}

/// Bookmarks after asking to add `p`: appended while there is room.
pub open spec fn bookmark_spec(bookmarks: Seq<Seq<char>>, p: Seq<char>) -> Seq<Seq<char>> {
    if bookmarks.len() < MAX_BOOKMARKS {
        bookmarks.push(p)
    } else {
        bookmarks
    }
}

/// Recents after opening each path of `ps` in turn.
pub open spec fn record_all(recents: Seq<Seq<char>>, ps: Seq<Seq<char>>) -> Seq<Seq<char>>
    decreases ps.len(),
{
    if ps.len() == 0 {
        recents
    } else {
        record_spec(record_all(recents, ps.drop_last()), ps.last())
    }
}

/// Bookmarks after asking to add each path of `ps` in turn.
pub open spec fn bookmark_all(bookmarks: Seq<Seq<char>>, ps: Seq<Seq<char>>) -> Seq<Seq<char>>
    decreases ps.len(),
{
    if ps.len() == 0 {
        bookmarks
    } else {
        bookmark_spec(bookmark_all(bookmarks, ps.drop_last()), ps.last())
    }
}

/// Filtering a list that holds nothing to remove leaves it as it is.
pub proof fn lemma_filter_keeps_all(s: Seq<Seq<char>>, f: spec_fn(Seq<char>) -> bool)
    requires
        forall|i: int| 0 <= i < s.len() ==> f(#[trigger] s[i]),
    ensures
        s.filter(f) == s,
    decreases s.len(),
{
    if s.len() > 0 {
        lemma_filter_keeps_all(s.drop_last(), f);
        s.drop_last().lemma_filter_push(s.last(), f);
        assert(s.drop_last().push(s.last()) =~= s);
    }
}

/// Every path after the front of the recents differs from the path just opened.
pub proof fn lemma_record_front(recents: Seq<Seq<char>>, p: Seq<char>)
    ensures
        record_spec(recents, p).len() >= 1,
        record_spec(recents, p)[0] == p,
        forall|i: int| 1 <= i < record_spec(recents, p).len() ==> #[trigger] record_spec(recents, p)[i] != p,
{
    let f = recents.filter(other_than(p));
    let full = seq![p] + f;
    assert forall|i: int| 1 <= i < record_spec(recents, p).len() implies #[trigger] record_spec(recents, p)[i] != p by {
        assert(record_spec(recents, p)[i] == f[i - 1]);
        assert(other_than(p)(f[i - 1]));
    }
}

/// However many paths are opened, the recents never exceed their bound.
pub proof fn lemma_recents_bounded(recents: Seq<Seq<char>>, ps: Seq<Seq<char>>)
    requires
        recents.len() <= MAX_RECENTS,
    ensures
        record_all(recents, ps).len() <= MAX_RECENTS,
    decreases ps.len(),
{
    if ps.len() > 0 {
        lemma_recents_bounded(recents, ps.drop_last());
    }
}

/// However many bookmarks are asked for, the bookmarks never exceed their
/// bound, and once full an addition changes nothing.
pub proof fn lemma_bookmarks_bounded(bookmarks: Seq<Seq<char>>, ps: Seq<Seq<char>>, q: Seq<char>)
    requires
        bookmarks.len() <= MAX_BOOKMARKS,
    ensures
        bookmark_all(bookmarks, ps).len() <= MAX_BOOKMARKS,
        bookmark_all(bookmarks, ps).len() == MAX_BOOKMARKS ==> bookmark_spec(
            bookmark_all(bookmarks, ps),
            q,
        ) == bookmark_all(bookmarks, ps),
    decreases ps.len(),
{
    if ps.len() > 0 {
        lemma_bookmarks_bounded(bookmarks, ps.drop_last(), q);
    }
}

/// Opening the same path twice in a row is the same as opening it once: the
/// length stays and the path stays in front.
pub proof fn lemma_record_twice(recents: Seq<Seq<char>>, p: Seq<char>)
    ensures
        record_spec(record_spec(recents, p), p) == record_spec(recents, p),
{
    let s = record_spec(recents, p);
    lemma_record_front(recents, p);
    let t = s.skip(1);
    assert forall|i: int| 0 <= i < t.len() implies other_than(p)(#[trigger] t[i]) by {
        assert(t[i] == s[i + 1]);
    }
    lemma_filter_keeps_all(t, other_than(p));
    assert(seq![p] + t =~= s);
    t.lemma_filter_prepend(p, other_than(p));
    assert(s.filter(other_than(p)) =~= t);
    assert(seq![p] + s.filter(other_than(p)) =~= s);
}

/// Opening A, then B, then A again puts A first and B second, with A nowhere
/// else; from empty recents the result is exactly A, B.
pub proof fn lemma_record_alternate(recents: Seq<Seq<char>>, a: Seq<char>, b: Seq<char>)
    requires
        a != b,
    ensures
        ({
            let r = record_spec(record_spec(record_spec(recents, a), b), a);
            &&& r.len() >= 2
            &&& r[0] == a
            &&& r[1] == b
            &&& forall|i: int| 1 <= i < r.len() ==> #[trigger] r[i] != a
        }),
        recents.len() == 0 ==> record_spec(record_spec(record_spec(recents, a), b), a) == seq![a, b],
{
    let s1 = record_spec(recents, a);
    let s2 = record_spec(s1, b);
    lemma_record_front(recents, a);
    lemma_record_front(s1, b);
    lemma_record_front(s2, a);
    let t = s2.skip(1);
    assert(seq![b] + t =~= s2);
    t.lemma_filter_prepend(b, other_than(a));
    assert(s2.filter(other_than(a))[0] == b);
    if recents.len() == 0 {
        assert(recents.filter(other_than(a)) =~= Seq::<Seq<char>>::empty()) by {
            reveal(Seq::filter);
        }
        assert(s1 =~= seq![a]);
        Seq::<Seq<char>>::empty().lemma_filter_prepend(a, other_than(b));
        assert(Seq::<Seq<char>>::empty().filter(other_than(b)) =~= Seq::<Seq<char>>::empty()) by {
            reveal(Seq::filter);
        }
        assert(seq![a] =~= seq![a] + Seq::<Seq<char>>::empty());
        assert(s1.filter(other_than(b)) =~= seq![a]);
        assert(s2 =~= seq![b, a]);
        assert(t =~= seq![a]);
        Seq::<Seq<char>>::empty().lemma_filter_prepend(a, other_than(a));
        assert(t.filter(other_than(a)) =~= Seq::<Seq<char>>::empty());
        assert(s2.filter(other_than(a)) =~= seq![b]);
        assert(record_spec(s2, a) =~= seq![a, b]);
    }
}

/// Opening a path that already stands at position `k` of valid recents moves
/// it to the front and shifts those before it down by one; the length stays.
pub proof fn lemma_record_existing(recents: Seq<Seq<char>>, k: int)
    requires
        recents.len() <= MAX_RECENTS,
        recents.no_duplicates(),
        0 <= k < recents.len(),
    ensures
        record_spec(recents, recents[k]) == seq![recents[k]] + recents.remove(k),
        record_spec(recents, recents[k]).len() == recents.len(),
{
    let p = recents[k];
    let pre = recents.take(k);
    let post = recents.skip(k + 1);
    assert(recents =~= pre + (seq![p] + post));
    assert forall|i: int| 0 <= i < pre.len() implies other_than(p)(#[trigger] pre[i]) by {
        assert(pre[i] == recents[i]);
    }
    assert forall|i: int| 0 <= i < post.len() implies other_than(p)(#[trigger] post[i]) by {
        assert(post[i] == recents[k + 1 + i]);
    }
    lemma_filter_keeps_all(pre, other_than(p));
    lemma_filter_keeps_all(post, other_than(p));
    Seq::filter_distributes_over_add(pre, seq![p] + post, other_than(p));
    post.lemma_filter_prepend(p, other_than(p));
    assert(seq![p] + post =~= seq![p] + post);
    assert(recents.filter(other_than(p)) =~= pre + post);
    assert(recents.remove(k) =~= pre + post);
}

/// Why an entry could not be deleted.
#[derive(PartialEq, Eq, Structural, Clone, Copy, Debug)]
pub enum DeleteError {
    /// The key is not a hex digit.
    NotAKey,
    /// The key addresses no entry.
    OutOfRange,
}

/// The recents and bookmarks of one user: the unit that is persisted.
pub struct AppState {
    pub recents: Vec<Item>,
    pub bookmarks: Vec<Item>,
}

impl View for AppState {
    type V = (Seq<Seq<char>>, Seq<Seq<char>>);

    open spec fn view(&self) -> (Seq<Seq<char>>, Seq<Seq<char>>) {
        (paths(self.recents@), paths(self.bookmarks@))
    }
}

impl AppState {
    pub open spec fn wf(&self) -> bool {
        valid_lists(self@.0, self@.1)
    }

    /// A state with both lists empty.
    pub fn new() -> (s: AppState)
        ensures
            s.wf(),
            s@.0 =~= Seq::<Seq<char>>::empty(),
            s@.1 =~= Seq::<Seq<char>>::empty(),
    {
        AppState { recents: Vec::new(), bookmarks: Vec::new() }
    }

    /// Records `item` as the most recently opened path.
    pub fn record_recent(&mut self, item: Item)
        requires
            old(self).wf(),
            has_separator(item@),
        ensures
            final(self).wf(),
            final(self)@.0 == record_spec(old(self)@.0, item@),
            final(self)@.1 == old(self)@.1,
            final(self)@.0.len() <= MAX_RECENTS,
            final(self)@.0[0] == item@,
    {
        let ghost p = item@;
        let ghost old_r = self@.0;
        let mut kept: Vec<Item> = Vec::new();
        kept.push(item);
        assert(paths(kept@) =~= seq![p] + old_r.take(0).filter(other_than(p)));
        let mut i: usize = 0;
        while i < self.recents.len()
            invariant
                self@.0 == old_r,
                valid_lists(old_r, self@.1),
                kept@.len() >= 1,
                kept@[0]@ == p,
                has_separator(p),
                i <= old_r.len(),
                paths(kept@) == seq![p] + old_r.take(i as int).filter(other_than(p)),
                paths(kept@).no_duplicates(),
                all_separated(paths(kept@)),
            decreases self.recents.len() - i,
        {
            let ghost before = paths(kept@);
            let ghost x = old_r[i as int];
            assert(old_r.take(i as int + 1) =~= old_r.take(i as int).push(x));
            proof { old_r.take(i as int).lemma_filter_push(x, other_than(p)); }
            assert((seq![p] + old_r.take(i as int).filter(other_than(p))).push(x) =~= seq![p] + old_r.take(
                i as int,
            ).filter(other_than(p)).push(x));
            if self.recents[i].0 != kept[0].0 {
                kept.push(self.recents[i].duplicate());
                assert(paths(kept@) =~= before.push(x));
                assert forall|k: int| 0 <= k < before.len() implies before[k] != x by {
                    if k >= 1 {
                        let f = old_r.take(i as int).filter(other_than(p));
                        assert(before[k] == f[k - 1]);
                        assert(f.contains(before[k]));
                        old_r.take(i as int).lemma_filter_contains_rev(other_than(p), before[k]);
                        let j = choose|j: int| 0 <= j < i && old_r.take(i as int)[j] == before[k];
                        assert(old_r[j] == before[k]);
                    }
                }
            } else {
                assert(x == p);
            }
            i = i + 1;
        }
        assert(old_r.take(old_r.len() as int) =~= old_r);
        let ghost full = paths(kept@);
        kept.truncate(MAX_RECENTS);
        assert(paths(kept@) =~= (if full.len() > MAX_RECENTS {
            full.take(MAX_RECENTS as int)
        } else {
            full
        }));
        self.recents = kept;
    }

    /// Appends a bookmark while fewer than the bound are kept; says whether it did.
    pub fn add_bookmark(&mut self, item: Item) -> (added: bool)
        requires
            old(self).wf(),
            has_separator(item@),
        ensures
            final(self).wf(),
            added == (old(self)@.1.len() < MAX_BOOKMARKS),
            final(self)@.1 == bookmark_spec(old(self)@.1, item@),
            final(self)@.0 == old(self)@.0,
    {
        if self.bookmarks.len() < MAX_BOOKMARKS {
            let ghost before = self.bookmarks@;
            self.bookmarks.push(item);
            assert(paths(self.bookmarks@) =~= paths(before).push(item@));
            true
        } else {
            false
        }
    }

    /// Deletes the entry that the hex key `key` addresses in the combined index.
    pub fn delete(&mut self, key: char) -> (r: Result<(), DeleteError>)
        requires
            old(self).wf(),
        ensures
            final(self).wf(),
            hex_value_spec(key) is None ==> r == Err::<(), DeleteError>(DeleteError::NotAKey)
                && final(self)@ == old(self)@,
            hex_value_spec(key) matches Some(d) ==> match resolve_spec(
                old(self)@.0.len() as int,
                old(self)@.1.len() as int,
                d,
            ) {
                Slot::Recent(i) => r is Ok && final(self)@.0 == old(self)@.0.remove(i as int)
                    && final(self)@.1 == old(self)@.1,
                Slot::Bookmark(j) => r is Ok && final(self)@.1 == old(self)@.1.remove(j as int)
                    && final(self)@.0 == old(self)@.0,
                Slot::Vacant => r == Err::<(), DeleteError>(DeleteError::OutOfRange)
                    && final(self)@ == old(self)@,
            },
    {
        let d = match hex_value(key) {
            Some(d) => d,
            None => return Err(DeleteError::NotAKey),
        };
        match resolve(self.recents.len(), self.bookmarks.len(), d) {
            Slot::Recent(i) => {
                let ghost before = self@.0;
                self.recents.remove(i);
                assert(self@.0 =~= before.remove(i as int));
                assert forall|a: int, b: int|
                    0 <= a < b < self@.0.len() implies self@.0[a] != self@.0[b] by {
                    let a2 = if a < i { a } else { a + 1 };
                    let b2 = if b < i { b } else { b + 1 };
                    assert(self@.0[a] == before[a2] && self@.0[b] == before[b2]);
                }
                assert forall|k: int| 0 <= k < self@.0.len() implies has_separator(
                    #[trigger] self@.0[k],
                ) by {
                    if k >= i {
                        assert(self@.0[k] == before[k + 1]);
                    }
                }
                Ok(())
            },
            Slot::Bookmark(j) => {
                let ghost before = self@.1;
                self.bookmarks.remove(j);
                assert(self@.1 =~= before.remove(j as int));
                assert forall|k: int| 0 <= k < self@.1.len() implies has_separator(
                    #[trigger] self@.1[k],
                ) by {
                    if k >= j {
                        assert(self@.1[k] == before[k + 1]);
                    }
                }
                Ok(())
            },
            Slot::Vacant => Err(DeleteError::OutOfRange),
        }
    }

    /// Empties both lists.
    pub fn clear(&mut self)
        ensures
            final(self).wf(),
            final(self)@.0 =~= Seq::<Seq<char>>::empty(),
            final(self)@.1 =~= Seq::<Seq<char>>::empty(),
    {
        self.recents.clear();
        self.bookmarks.clear();
    }
}

} // verus!
