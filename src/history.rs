use vstd::prelude::*;

use crate::error::StoreError;
use crate::index::{resolve_index, resolve_spec, resolved_position};
use crate::preview::{lossy_text, preview, preview_of};

verus! {

/// One stored clipboard payload.
pub struct Entry {
    /// Identity assigned by the store on insertion.
    pub id: u64,
    /// The clipboard payload.
    pub content: Vec<u8>,
    /// When the entry was inserted.
    pub created_at: u64,
}

/// What an entry is, as the contracts see it.
pub ghost struct EntryView {
    pub id: u64,
    pub content: Seq<u8>,
    pub created_at: u64,
}

impl View for Entry {
    type V = EntryView;

    open spec fn view(&self) -> EntryView {
        EntryView { id: self.id, content: self.content@, created_at: self.created_at }
    }
}

/// One line of a listing: the recency index and the preview of the content.
pub struct ListedEntry {
    pub index: usize,
    pub preview: String,
}

impl View for ListedEntry {
    type V = (int, Seq<char>);

    open spec fn view(&self) -> (int, Seq<char>) {
        (self.index as int, self.preview@)
    }
}

/// Whether entries `s`, newest first, form a valid history that holds at
/// most `capacity` entries, no two with the same content or id, and all ids
/// below `next_id`, the id the next insertion gets.
pub open spec fn history_wf(s: Seq<EntryView>, capacity: nat, next_id: nat) -> bool {
    &&& capacity > 0
    &&& s.len() <= capacity
    &&& forall|i: int, j: int|
        0 <= i < s.len() && 0 <= j < s.len() && i != j ==> #[trigger] s[i].content != #[trigger] s[j].content
    &&& forall|i: int, j: int|
        0 <= i < s.len() && 0 <= j < s.len() && i != j ==> #[trigger] s[i].id != #[trigger] s[j].id
    &&& forall|i: int| 0 <= i < s.len() ==> #[trigger] s[i].id < next_id
}

/// Whether some entry of `s` holds `content`.
pub open spec fn holds_content(s: Seq<EntryView>, content: Seq<u8>) -> bool {
    exists|i: int| 0 <= i < s.len() && #[trigger] s[i].content == content
}

/// The position of the entry of `s` that holds `content`, where there is one.
pub open spec fn position_of(s: Seq<EntryView>, content: Seq<u8>) -> int {
    choose|i: int| 0 <= i < s.len() && #[trigger] s[i].content == content
}

/// The listing of `s`: each position with the preview of its content.
pub open spec fn listed(s: Seq<EntryView>, width: nat) -> Seq<(int, Seq<char>)> {
    Seq::new(s.len(), |i: int| (i, preview_of(lossy_text(s[i].content), width)))
}

/// What `get(index)` gives on entries `s`.
pub open spec fn get_spec(s: Seq<EntryView>, index: int) -> Result<Seq<u8>, StoreError> {
    match resolve_spec(index, s.len() as int) {
        Ok(p) => Ok(s[p].content),
        Err(e) => Err(e),
    }
}

/// Entries `s` after storing `content` at time `created_at`: an entry that
/// already holds it moves to the front; otherwise a new entry with id
/// `next_id` goes in front, and the oldest entry leaves where `s` is full.
pub open spec fn stored(
    s: Seq<EntryView>,
    capacity: nat,
    next_id: u64,
    content: Seq<u8>,
    created_at: u64,
) -> Seq<EntryView> {
    if holds_content(s, content) {
        let p = position_of(s, content);
        seq![s[p]] + s.remove(p)
    } else {
        let fresh = EntryView { id: next_id, content, created_at };
        if s.len() < capacity {
            seq![fresh] + s
        } else {
            seq![fresh] + s.drop_last()
        }
    }
}

/// The ids that storing `content` into entries `s` evicts: the oldest entry
/// where new content arrives at a full history, none otherwise.
pub open spec fn evicted_by_store(s: Seq<EntryView>, capacity: nat, content: Seq<u8>) -> Seq<u64> {
    if !holds_content(s, content) && s.len() >= capacity && s.len() > 0 {
        seq![s.last().id]
    } else {
        Seq::empty()
    }
}

/// What storing content reports: the id of the entry that now holds it,
/// whether that entry existed already, and the ids of evicted entries.
pub struct StoreOutcome {
    pub id: u64,
    pub refreshed: bool,
    pub evicted: Vec<u64>,
}

/// Storing keeps a history valid, so that no sequence of stores takes it
/// beyond its capacity; where new content arrives at a full history, the
/// one entry that leaves is the oldest, that is the least recently stored
/// or refreshed, and every other entry stays, one place further back.
pub proof fn lemma_store_keeps_history_valid(
    s: Seq<EntryView>,
    capacity: nat,
    next_id: u64,
    content: Seq<u8>,
    created_at: u64,
)
    requires
        history_wf(s, capacity, next_id as nat),
        next_id < u64::MAX,
    ensures
        history_wf(
            stored(s, capacity, next_id, content, created_at),
            capacity,
            (if holds_content(s, content) { next_id as nat } else { (next_id + 1) as nat }),
        ),
        stored(s, capacity, next_id, content, created_at).len() <= capacity,
        !holds_content(s, content) && s.len() == capacity ==> {
            &&& stored(s, capacity, next_id, content, created_at).len() == capacity
            &&& forall|k: int|
                0 <= k < s.len() - 1 ==> #[trigger] stored(s, capacity, next_id, content, created_at)[k
                    + 1] == s[k]
            &&& evicted_by_store(s, capacity, content) == seq![s[s.len() - 1].id]
        },
{
    let t = stored(s, capacity, next_id, content, created_at);
    if holds_content(s, content) {
        let p = position_of(s, content);
        // where each entry of `t` came from in `s`
        let from = |k: int|
            if k == 0 {
                p
            } else if k - 1 < p {
                k - 1
            } else {
                k
            };
        assert forall|k: int| 0 <= k < t.len() implies t[k] == s[from(k)] && 0 <= from(k) < s.len() by {}
        assert forall|i: int, j: int|
            0 <= i < t.len() && 0 <= j < t.len() && i != j implies #[trigger] t[i].content
            != #[trigger] t[j].content && t[i].id != t[j].id by {
            assert(t[i] == s[from(i)]);
            assert(t[j] == s[from(j)]);
        }
        assert forall|i: int| 0 <= i < t.len() implies #[trigger] t[i].id < next_id by {
            assert(t[i] == s[from(i)]);
        }
    } else {
        let kept = if s.len() < capacity { s } else { s.drop_last() };
        assert(t =~= seq![EntryView { id: next_id, content, created_at }] + kept);
        assert forall|k: int| 0 <= k < kept.len() implies kept[k] == s[k] by {}
        assert forall|i: int, j: int|
            0 <= i < t.len() && 0 <= j < t.len() && i != j implies #[trigger] t[i].content
            != #[trigger] t[j].content && t[i].id != t[j].id by {
            if i > 0 {
                assert(t[i] == s[i - 1]);
            }
            if j > 0 {
                assert(t[j] == s[j - 1]);
            }
        }
        assert forall|i: int| 0 <= i < t.len() implies #[trigger] t[i].id < next_id + 1 by {
            if i > 0 {
                assert(t[i] == s[i - 1]);
            }
        }
    }
}

/// Storing content that an entry already holds leaves the number of
/// entries as it was, and that entry, with its id, comes first in the next
/// listing.
pub proof fn lemma_duplicate_store_moves_to_front(
    s: Seq<EntryView>,
    capacity: nat,
    next_id: u64,
    content: Seq<u8>,
    created_at: u64,
    width: nat,
)
    requires
        history_wf(s, capacity, next_id as nat),
        holds_content(s, content),
    ensures
        stored(s, capacity, next_id, content, created_at).len() == s.len(),
        stored(s, capacity, next_id, content, created_at)[0] == s[position_of(s, content)],
        stored(s, capacity, next_id, content, created_at)[0].content == content,
        listed(stored(s, capacity, next_id, content, created_at), width)[0] == (
        0int,
        preview_of(lossy_text(content), width),
        ),
{
    let p = position_of(s, content);
    assert(0 <= p < s.len() && s[p].content == content);
}

/// For every index in `[-n, n-1]` over `n` entries, `get` gives the content
/// of the entry that the listing shows at the position the index resolves
/// to: the index itself where it is not negative, `n + index` where it is.
pub proof fn lemma_get_matches_listing(s: Seq<EntryView>, index: int, width: nat)
    requires
        -(s.len() as int) <= index < s.len(),
    ensures
        ({
            let p = resolved_position(index, s.len() as int);
            &&& 0 <= p < s.len()
            &&& index >= 0 ==> p == index
            &&& index < 0 ==> p == s.len() + index
            &&& get_spec(s, index) == Ok::<Seq<u8>, StoreError>(s[p].content)
            &&& listed(s, width)[p] == (p, preview_of(lossy_text(s[p].content), width))
        }),
{
}

/// `get` refuses the index just past each end of a non-empty history as out
/// of range, and every index of an empty one as an empty store.
pub proof fn lemma_get_outside_range(s: Seq<EntryView>)
    ensures
        s.len() > 0 ==> get_spec(s, s.len() as int) == Err::<Seq<u8>, StoreError>(
            StoreError::IndexOutOfRange,
        ),
        s.len() > 0 ==> get_spec(s, -(s.len() + 1)) == Err::<Seq<u8>, StoreError>(
            StoreError::IndexOutOfRange,
        ),
        s.len() == 0 ==> forall|index: int|
            #[trigger] get_spec(s, index) == Err::<Seq<u8>, StoreError>(StoreError::EmptyStore),
{
}

/// Removing the entry at position `p` keeps a history valid.
proof fn lemma_remove_keeps_history_valid(s: Seq<EntryView>, capacity: nat, next_id: nat, p: int)
    requires
        history_wf(s, capacity, next_id),
        0 <= p < s.len(),
    ensures
        history_wf(s.remove(p), capacity, next_id),
{
    let t = s.remove(p);
    assert forall|k: int| 0 <= k < t.len() implies #[trigger] t[k] == s[if k < p { k } else { k + 1 }] by {}
    assert forall|i: int, j: int|
        0 <= i < t.len() && 0 <= j < t.len() && i != j implies #[trigger] t[i].content
        != #[trigger] t[j].content && t[i].id != t[j].id by {
        assert(t[i] == s[if i < p { i } else { i + 1 }]);
        assert(t[j] == s[if j < p { j } else { j + 1 }]);
    }
    assert forall|i: int| 0 <= i < t.len() implies #[trigger] t[i].id < next_id by {
        assert(t[i] == s[if i < p { i } else { i + 1 }]);
    }
}

/// The recency-ordered, bounded and deduplicated history of clipboard
/// entries, newest first.
pub struct History {
    entries: Vec<Entry>,
    next_id: u64,
    capacity: usize,
}

impl View for History {
    type V = Seq<EntryView>;

    closed spec fn view(&self) -> Seq<EntryView> {
        self.entries@.map_values(|e: Entry| e@)
    }
}

impl History {
    /// The most entries the history keeps.
    pub closed spec fn capacity_spec(&self) -> nat {
        self.capacity as nat
    }

    /// The id that the next inserted entry gets.
    pub closed spec fn next_id_spec(&self) -> u64 {
        self.next_id
    }

    /// Whether the history is valid: see `history_wf`.
    pub open spec fn wf(&self) -> bool {
        history_wf(self@, self.capacity_spec(), self.next_id_spec() as nat)
    }

    /// A history made of `rows`, newest first, whose next insertion gets
    /// id `next_id`; nothing where the rows do not form a valid history of
    /// at most `capacity` entries.
    pub fn from_rows(rows: Vec<Entry>, next_id: u64, capacity: usize) -> (r: Option<History>)
        ensures
            match r {
                Some(h) => {
                    &&& h.wf()
                    &&& h@ == rows@.map_values(|e: Entry| e@)
                    &&& h.capacity_spec() == capacity
                    &&& h.next_id_spec() == next_id
                },
                None => !history_wf(rows@.map_values(|e: Entry| e@), capacity as nat, next_id as nat),
            },
    {
        let ghost s = rows@.map_values(|e: Entry| e@);
        if capacity == 0 || rows.len() > capacity {
            return None;
        }
        let mut i: usize = 0;
        while i < rows.len()
            invariant
                s == rows@.map_values(|e: Entry| e@),
                i <= rows@.len(),
                forall|k: int| 0 <= k < i ==> #[trigger] s[k].id < next_id,
                forall|a: int, b: int|
                    0 <= a < i && 0 <= b < i && a != b ==> #[trigger] s[a].content
                        != #[trigger] s[b].content,
                forall|a: int, b: int|
                    0 <= a < i && 0 <= b < i && a != b ==> #[trigger] s[a].id != #[trigger] s[b].id,
            decreases rows.len() - i,
        {
            assert(s[i as int] == rows@[i as int]@);
            if rows[i].id >= next_id {
                assert(!(s[i as int].id < next_id));
                return None;
            }
            let mut j: usize = 0;
            while j < i
                invariant
                    s == rows@.map_values(|e: Entry| e@),
                    j <= i < rows@.len(),
                    forall|b: int| 0 <= b < j ==> #[trigger] s[b].content != s[i as int].content,
                    forall|b: int| 0 <= b < j ==> #[trigger] s[b].id != s[i as int].id,
                decreases i - j,
            {
                assert(s[j as int] == rows@[j as int]@);
                if rows[j].id == rows[i].id || bytes_equal(
                    rows[j].content.as_slice(),
                    rows[i].content.as_slice(),
                ) {
                    assert(s[j as int].id == s[i as int].id || s[j as int].content == s[i as int].content);
                    return None;
                }
                j = j + 1;
            }
            i = i + 1;
        }
        let h = History { entries: rows, next_id, capacity };
        assert(h@ == s);
        Some(h)
    }

    /// An empty history that keeps at most `capacity` entries.
    pub fn new(capacity: usize) -> (r: History)
        requires
            capacity > 0,
        ensures
            r.wf(),
            r@ == Seq::<EntryView>::empty(),
            r.capacity_spec() == capacity,
            r.next_id_spec() == 1,
    {
        let r = History { entries: Vec::new(), next_id: 1, capacity };
        assert(r@ =~= Seq::<EntryView>::empty());
        r
    }

    /// The number of entries held.
    pub fn len(&self) -> (r: usize)
        ensures
            r == self@.len(),
    {
        self.entries.len()
    }

    /// The most entries the history keeps.
    pub fn capacity(&self) -> (r: usize)
        ensures
            r == self.capacity_spec(),
    {
        self.capacity
    }

    /// The id that the next inserted entry gets.
    pub fn next_id(&self) -> (r: u64)
        ensures
            r == self.next_id_spec(),
    {
        self.next_id
    }

    /// The entry at `position`, counted from the newest.
    pub fn entry(&self, position: usize) -> (r: &Entry)
        requires
            position < self@.len(),
        ensures
            r@ == self@[position as int],
    {
        &self.entries[position]
    }

    /// The position of the entry that holds `content`, if one does.
    pub fn find(&self, content: &[u8]) -> (r: Option<usize>)
        requires
            self.wf(),
        ensures
            match r {
                Some(p) => p < self@.len() && self@[p as int].content == content@ && p == position_of(
                    self@,
                    content@,
                ),
                None => !holds_content(self@, content@),
            },
    {
        let mut i: usize = 0;
        while i < self.entries.len()
            invariant
                self.wf(),
                i <= self@.len(),
                self@.len() == self.entries@.len(),
                forall|k: int| 0 <= k < i ==> #[trigger] self@[k].content != content@,
            decreases self.entries.len() - i,
        {
            if bytes_equal(self.entries[i].content.as_slice(), content) {
                assert(self@[i as int].content == content@);
                let ghost p = position_of(self@, content@);
                assert(p == i as int) by {
                    assert(self@[p].content == content@);
                    if p != i as int {
                        assert(self@[p].content != self@[i as int].content);
                    }
                }
                return Some(i);
            }
            i = i + 1;
        }
        None
    }

    /// Stores `content`, inserted at `created_at`: content that an entry
    /// holds already moves that entry to the front; new content becomes the
    /// newest entry, and the oldest leaves where the history is full.
    pub fn store(&mut self, content: Vec<u8>, created_at: u64) -> (r: StoreOutcome)
        requires
            old(self).wf(),
            old(self).next_id_spec() < u64::MAX,
        ensures
            final(self).wf(),
            final(self)@ == stored(
                old(self)@,
                old(self).capacity_spec(),
                old(self).next_id_spec(),
                content@,
                created_at,
            ),
            final(self).capacity_spec() == old(self).capacity_spec(),
            r.refreshed == holds_content(old(self)@, content@),
            r.refreshed ==> {
                &&& r.id == old(self)@[position_of(old(self)@, content@)].id
                &&& final(self).next_id_spec() == old(self).next_id_spec()
            },
            !r.refreshed ==> {
                &&& r.id == old(self).next_id_spec()
                &&& final(self).next_id_spec() == old(self).next_id_spec() + 1
            },
            r.evicted@ == evicted_by_store(old(self)@, old(self).capacity_spec(), content@),
    {
        let ghost s = self@;
        proof {
            lemma_store_keeps_history_valid(
                s,
                self.capacity_spec(),
                self.next_id,
                content@,
                created_at,
            );
        }
        match self.find(content.as_slice()) {
            Some(p) => {
                let e = self.entries.remove(p);
                let id = e.id;
                self.entries.insert(0, e);
                assert(self@ =~= seq![s[p as int]] + s.remove(p as int));
                StoreOutcome { id, refreshed: true, evicted: Vec::new() }
            },
            None => {
                let id = self.next_id;
                let mut evicted: Vec<u64> = Vec::new();
                if self.entries.len() >= self.capacity {
                    let oldest = self.entries.pop();
                    match oldest {
                        Some(e) => evicted.push(e.id),
                        None => {},
                    }
                    assert(self@ =~= s.drop_last());
                }
                let ghost kept = self@;
                self.entries.insert(0, Entry { id, content, created_at });
                self.next_id = id + 1;
                assert(self@ =~= seq![(EntryView { id, content: content@, created_at })] + kept);
                assert(evicted@ =~= evicted_by_store(s, self.capacity_spec(), content@));
                StoreOutcome { id, refreshed: false, evicted }
            },
        }
    }

    /// The content at recency `index`: `0` is the newest entry, `-1` the
    /// oldest.
    pub fn get(&self, index: isize) -> (r: Result<&Vec<u8>, StoreError>)
        ensures
            match r {
                Ok(c) => get_spec(self@, index as int) == Ok::<Seq<u8>, StoreError>(c@),
                Err(e) => get_spec(self@, index as int) == Err::<Seq<u8>, StoreError>(e),
            },
    {
        match resolve_index(index, self.entries.len()) {
            Ok(p) => Ok(&self.entries[p].content),
            Err(e) => Err(e),
        }
    }

    /// Deletes the entry at recency `index` and gives its id.
    pub fn delete_index(&mut self, index: isize) -> (r: Result<u64, StoreError>)
        requires
            old(self).wf(),
        ensures
            final(self).wf(),
            final(self).capacity_spec() == old(self).capacity_spec(),
            final(self).next_id_spec() == old(self).next_id_spec(),
            match r {
                Ok(id) => {
                    let p = resolve_spec(index as int, old(self)@.len() as int)->Ok_0;
                    &&& resolve_spec(index as int, old(self)@.len() as int) is Ok
                    &&& id == old(self)@[p].id
                    &&& final(self)@ == old(self)@.remove(p)
                },
                Err(e) => {
                    &&& resolve_spec(index as int, old(self)@.len() as int) == Err::<int, StoreError>(e)
                    &&& final(self)@ == old(self)@
                },
            },
    {
        let ghost s = self@;
        match resolve_index(index, self.entries.len()) {
            Ok(p) => {
                let e = self.entries.remove(p);
                proof {
                    lemma_remove_keeps_history_valid(s, self.capacity_spec(), self.next_id as nat, p as int);
                }
                assert(self@ =~= s.remove(p as int));
                Ok(e.id)
            },
            Err(e) => Err(e),
        }
    }

    /// Deletes the entry that holds `content` and gives its id; nothing
    /// changes where no entry holds it.
    pub fn delete_content(&mut self, content: &[u8]) -> (r: Option<u64>)
        requires
            old(self).wf(),
        ensures
            final(self).wf(),
            final(self).capacity_spec() == old(self).capacity_spec(),
            final(self).next_id_spec() == old(self).next_id_spec(),
            r is Some == holds_content(old(self)@, content@),
            match r {
                Some(id) => {
                    let p = position_of(old(self)@, content@);
                    &&& id == old(self)@[p].id
                    &&& final(self)@ == old(self)@.remove(p)
                },
                None => final(self)@ == old(self)@,
            },
    {
        let ghost s = self@;
        match self.find(content) {
            Some(p) => {
                let e = self.entries.remove(p);
                proof {
                    lemma_remove_keeps_history_valid(s, self.capacity_spec(), self.next_id as nat, p as int);
                }
                assert(self@ =~= s.remove(p as int));
                Some(e.id)
            },
            None => None,
        }
    }

    /// Every entry, newest first, with its index and its content's preview
    /// cut to `max_preview_width` characters.
    pub fn list(&self, max_preview_width: usize) -> (r: Vec<ListedEntry>)
        ensures
            r@.map_values(|l: ListedEntry| l@) == listed(self@, max_preview_width as nat),
    {
        let mut out: Vec<ListedEntry> = Vec::new();
        let mut i: usize = 0;
        while i < self.entries.len()
            invariant
                i <= self@.len(),
                self@.len() == self.entries@.len(),
                out@.map_values(|l: ListedEntry| l@) == listed(self@, max_preview_width as nat).take(
                    i as int,
                ),
            decreases self.entries.len() - i,
        {
            let text = preview(self.entries[i].content.as_slice(), max_preview_width);
            assert(self@[i as int] == self.entries@[i as int]@);
            let ghost before = out@;
            out.push(ListedEntry { index: i, preview: text });
            assert(out@.map_values(|l: ListedEntry| l@) =~= before.map_values(|l: ListedEntry| l@).push(
                (i as int, preview_of(lossy_text(self@[i as int].content), max_preview_width as nat)),
            ));
            i = i + 1;
            assert(out@.map_values(|l: ListedEntry| l@) =~= listed(
                self@,
                max_preview_width as nat,
            ).take(i as int));
        }
        assert(listed(self@, max_preview_width as nat).take(i as int) =~= listed(
            self@,
            max_preview_width as nat,
        ));
        out
    }
}

/// Whether two byte strings are equal.
pub fn bytes_equal(a: &[u8], b: &[u8]) -> (r: bool)
    ensures
        r == (a@ == b@),
{
    if a.len() != b.len() {
        return false;
    }
    let mut i: usize = 0;
    while i < a.len()
        invariant
            a@.len() == b@.len(),
            i <= a@.len(),
            forall|k: int| 0 <= k < i ==> a@[k] == b@[k],
        decreases a.len() - i,
    {
        if a[i] != b[i] {
            return false;
        }
        i = i + 1;
    }
    assert(a@ =~= b@);
    true
}

} // verus!
