//! The history store: a bounded, deduplicated, most-recent-first sequence of
//! clipboard entries.

use vstd::prelude::*;
use crate::entry::{EntryModel, HistoryEntry, entries_view};
use crate::text::{folded_match, lowercase, matches_folded};

verus! {

/// Capacity used when the configuration names none.
pub const DEFAULT_CAPACITY: usize = 500;

/// What a [`HistoryStore`] stands for.
pub ghost struct HistoryModel {
    /// Most recent first.
    pub entries: Seq<EntryModel>,
    pub capacity: nat,
    /// The id the next new entry receives.
    pub next_id: u64,
    /// The content most recently handed to `observe`.
    pub last_observed: Option<Seq<char>>,
}

/// `s[i]` with its timestamp set to `now`, moved to the front.
pub open spec fn move_to_front(s: Seq<EntryModel>, i: int, now: i64) -> Seq<EntryModel> {
    seq![EntryModel { timestamp: now, ..s[i] }] + s.remove(i)
}

/// The first `cap` entries of `s` (all of them when there are no more).
pub open spec fn keep_newest(s: Seq<EntryModel>, cap: nat) -> Seq<EntryModel> {
    if s.len() > cap {
        s.take(cap as int)
    } else {
        s
    }
}

/// Some entry of `s` holds `c`.
pub open spec fn holds_content(s: Seq<EntryModel>, c: Seq<char>) -> bool {
    exists|i: int| 0 <= i < s.len() && s[i].content == c
}

/// Position of the entry of `s` that holds `c`.
pub open spec fn content_position(s: Seq<EntryModel>, c: Seq<char>) -> int {
    choose|i: int| 0 <= i < s.len() && s[i].content == c
}

/// Some entry of `s` has id `id`.
pub open spec fn holds_id(s: Seq<EntryModel>, id: u64) -> bool {
    exists|i: int| 0 <= i < s.len() && s[i].id == id
}

/// Position of the entry of `s` with id `id`.
pub open spec fn id_position(s: Seq<EntryModel>, id: u64) -> int {
    choose|i: int| 0 <= i < s.len() && s[i].id == id
}

/// No two entries of `s` hold equal content.
pub open spec fn contents_distinct(s: Seq<EntryModel>) -> bool {
    forall|i: int, j: int| 0 <= i < j < s.len() ==> s[i].content != s[j].content
}

/// No two entries of `s` share an id.
pub open spec fn ids_distinct(s: Seq<EntryModel>) -> bool {
    forall|i: int, j: int| 0 <= i < j < s.len() ==> s[i].id != s[j].id
}


/// Where each entry of `move_to_front(s, i, now)` comes from.
pub proof fn lemma_move_to_front_layout(s: Seq<EntryModel>, i: int, now: i64)
    requires
        0 <= i < s.len(),
    ensures
        move_to_front(s, i, now).len() == s.len(),
        move_to_front(s, i, now)[0] == (EntryModel { timestamp: now, ..s[i] }),
        forall|k: int| 0 < k <= i ==> #[trigger] move_to_front(s, i, now)[k] == s[k - 1],
        forall|k: int| i < k < s.len() ==> #[trigger] move_to_front(s, i, now)[k] == s[k],
{
}

proof fn lemma_move_to_front_wf(m: HistoryModel, i: int, now: i64)
    requires
        m.wf(),
        0 <= i < m.entries.len(),
    ensures
        (HistoryModel { entries: move_to_front(m.entries, i, now), ..m }).wf(),
{
    lemma_move_to_front_layout(m.entries, i, now);
    let s = m.entries;
    let r = move_to_front(s, i, now);
    // index in `s` of the entry found at index `k` of `r`
    let src = |k: int|
        if k == 0 {
            i
        } else if k <= i {
            k - 1
        } else {
            k
        };
    assert forall|k: int| 0 <= k < r.len() implies 0 <= src(k) < s.len() && r[k].content == s[src(
        k,
    )].content && r[k].id == s[src(k)].id by {}
    assert forall|a: int, b: int| 0 <= a < b < r.len() implies r[a].content != r[b].content
        && r[a].id != r[b].id by {
        assert(src(a) != src(b));
        if src(a) < src(b) {
        } else {
        }
    }
}

/// A new entry for `c` at the front, then truncation to capacity, keeps the
/// store well formed.
proof fn lemma_insert_new_wf(m: HistoryModel, c: Seq<char>, now: i64)
    requires
        m.wf(),
        m.next_id < u64::MAX,
        !holds_content(m.entries, c),
    ensures
        m.observe(c, now).wf() || m.last_observed == Some(c),
{
    if m.last_observed != Some(c) {
        let full = seq![EntryModel { content: c, timestamp: now, id: m.next_id }] + m.entries;
        assert forall|a: int, b: int| 0 <= a < b < full.len() implies full[a].content
            != full[b].content && full[a].id != full[b].id by {
            if a == 0 {
                assert(full[b] == m.entries[b - 1]);
            }
        }
        let r = keep_newest(full, m.capacity);
        assert forall|k: int| 0 <= k < r.len() implies r[k] == full[k] by {}
    }
}

proof fn lemma_remove_wf(m: HistoryModel, i: int)
    requires
        m.wf(),
        0 <= i < m.entries.len(),
    ensures
        (HistoryModel { entries: m.entries.remove(i), ..m }).wf(),
{
    let s = m.entries;
    let r = s.remove(i);
    assert forall|k: int| 0 <= k < r.len() implies r[k] == s[if k < i {
        k
    } else {
        k + 1
    }] by {}
    assert forall|a: int, b: int| 0 <= a < b < r.len() implies r[a].content != r[b].content
        && r[a].id != r[b].id by {
        let sa = if a < i {
            a
        } else {
            a + 1
        };
        let sb = if b < i {
            b
        } else {
            b + 1
        };
        assert(r[a] == s[sa] && r[b] == s[sb] && sa < sb);
    }
}

proof fn lemma_keep_newest_wf(m: HistoryModel, cap: nat)
    requires
        m.wf(),
    ensures
        (HistoryModel { entries: keep_newest(m.entries, cap), capacity: cap, ..m }).wf(),
{
    let r = keep_newest(m.entries, cap);
    assert forall|k: int| 0 <= k < r.len() implies r[k] == m.entries[k] by {}
}

/// Observing any content keeps the store well formed.
pub proof fn lemma_observe_wf(m: HistoryModel, c: Seq<char>, now: i64)
    requires
        m.wf(),
        m.next_id < u64::MAX,
    ensures
        m.observe(c, now).wf(),
{
    if m.last_observed == Some(c) {
    } else if holds_content(m.entries, c) {
        let i = content_position(m.entries, c);
        lemma_move_to_front_wf(m, i, now);
    } else {
        lemma_insert_new_wf(m, c, now);
    }
}

/// Position in `v` of the entry holding `c`, if any.
pub(crate) fn find_content_in(v: &Vec<HistoryEntry>, c: &String) -> (r: Option<usize>)
    ensures
        match r {
            Some(i) => i < v@.len() && entries_view(v@)[i as int].content == c@,
            None => !holds_content(entries_view(v@), c@),
        },
{
    let mut i: usize = 0;
    while i < v.len()
        invariant
            i <= v@.len(),
            forall|k: int| 0 <= k < i ==> entries_view(v@)[k].content != c@,
        decreases v@.len() - i,
    {
        if v[i].content == *c {
            return Some(i);
        }
        i = i + 1;
    }
    None
}

/// Position in `v` of the entry with id `id`, if any.
pub(crate) fn find_id_in(v: &Vec<HistoryEntry>, id: u64) -> (r: Option<usize>)
    ensures
        match r {
            Some(i) => i < v@.len() && entries_view(v@)[i as int].id == id,
            None => !holds_id(entries_view(v@), id),
        },
{
    let mut i: usize = 0;
    while i < v.len()
        invariant
            i <= v@.len(),
            forall|k: int| 0 <= k < i ==> entries_view(v@)[k].id != id,
        decreases v@.len() - i,
    {
        if v[i].id == id {
            return Some(i);
        }
        i = i + 1;
    }
    None
}

/// `e` may join the already kept entries `kept` of a store with capacity
/// `cap`: there is room, its content and id are not taken, and its id leaves
/// room for a successor.
pub open spec fn admissible(kept: Seq<EntryModel>, e: EntryModel, cap: nat) -> bool {
    &&& kept.len() < cap
    &&& !holds_content(kept, e.content)
    &&& !holds_id(kept, e.id)
    &&& e.id < u64::MAX
}

/// The entries of `s`, front to back, that are admissible when their turn
/// comes.
pub open spec fn admitted(s: Seq<EntryModel>, cap: nat) -> Seq<EntryModel>
    decreases s.len(),
{
    if s.len() == 0 {
        s
    } else {
        let kept = admitted(s.drop_last(), cap);
        if admissible(kept, s.last(), cap) {
            kept.push(s.last())
        } else {
            kept
        }
    }
}

/// One more than the largest id in `s`, or `u64::MAX` when that largest id
/// is `u64::MAX` itself; 1 when `s` is empty.
pub open spec fn seed_id(s: Seq<EntryModel>) -> u64
    decreases s.len(),
{
    if s.len() == 0 {
        1
    } else {
        let p = seed_id(s.drop_last());
        if s.last().id >= p {
            if s.last().id < u64::MAX {
                (s.last().id + 1) as u64
            } else {
                u64::MAX
            }
        } else {
            p
        }
    }
}

/// A sequence that a well-formed store of capacity `cap` could hold is
/// admitted whole.
pub proof fn lemma_admitted_keeps_well_formed(s: Seq<EntryModel>, cap: nat)
    requires
        s.len() <= cap,
        contents_distinct(s),
        ids_distinct(s),
        forall|i: int| 0 <= i < s.len() ==> s[i].id < u64::MAX,
    ensures
        admitted(s, cap) == s,
    decreases s.len(),
{
    if s.len() > 0 {
        let p = s.drop_last();
        assert forall|i: int| 0 <= i < p.len() implies p[i] == s[i] by {}
        lemma_admitted_keeps_well_formed(p, cap);
        assert(!holds_content(p, s.last().content)) by {
            if holds_content(p, s.last().content) {
                let i = content_position(p, s.last().content);
                assert(s[i].content == s[s.len() - 1].content);
            }
        }
        assert(!holds_id(p, s.last().id)) by {
            if holds_id(p, s.last().id) {
                let i = id_position(p, s.last().id);
                assert(s[i].id == s[s.len() - 1].id);
            }
        }
        assert(p.push(s.last()) =~= s);
    }
}

/// Positions, in increasing order, of the entries of `s` whose content
/// matches `query` ignoring case: the filtered view of `s`.
pub open spec fn matching_positions(s: Seq<EntryModel>, query: Seq<char>) -> Seq<int>
    decreases s.len(),
{
    if s.len() == 0 {
        Seq::empty()
    } else {
        let p = matching_positions(s.drop_last(), query);
        if folded_match(s.last().content, query) {
            p.push(s.len() - 1)
        } else {
            p
        }
    }
}

/// The filtered view lists exactly the matching positions, each once, in
/// store order.
pub proof fn lemma_matching_positions(s: Seq<EntryModel>, query: Seq<char>)
    ensures
        forall|k: int|
            0 <= k < matching_positions(s, query).len() ==> 0 <= #[trigger] matching_positions(
                s,
                query,
            )[k] < s.len() && folded_match(s[matching_positions(s, query)[k]].content, query),
        forall|a: int, b: int|
            0 <= a < b < matching_positions(s, query).len() ==> matching_positions(s, query)[a]
                < matching_positions(s, query)[b],
        forall|i: int|
            0 <= i < s.len() && folded_match(#[trigger] s[i].content, query) ==> exists|k: int|
                0 <= k < matching_positions(s, query).len() && matching_positions(s, query)[k]
                    == i,
    decreases s.len(),
{
    if s.len() > 0 {
        let d = s.drop_last();
        lemma_matching_positions(d, query);
        assert forall|i: int| 0 <= i < d.len() implies d[i] == s[i] by {}
        let p = matching_positions(d, query);
        assert forall|i: int|
            0 <= i < s.len() && folded_match(#[trigger] s[i].content, query) implies exists|k: int|
            0 <= k < matching_positions(s, query).len() && matching_positions(s, query)[k]
                == i by {
            if i == s.len() - 1 {
                assert(matching_positions(s, query)[p.len() as int] == i);
            } else {
                assert(folded_match(d[i].content, query));
                let k = choose|k: int| 0 <= k < p.len() && p[k] == i;
                assert(matching_positions(s, query)[k] == i);
            }
        }
    }
}

impl HistoryModel {
    pub open spec fn wf(self) -> bool {
        &&& self.entries.len() <= self.capacity
        &&& contents_distinct(self.entries)
        &&& ids_distinct(self.entries)
        &&& forall|i: int| 0 <= i < self.entries.len() ==> self.entries[i].id < self.next_id
    }

    /// The store after `c` is observed at time `now`.
    pub open spec fn observe(self, c: Seq<char>, now: i64) -> HistoryModel {
        if self.last_observed == Some(c) {
            self
        } else if holds_content(self.entries, c) {
            HistoryModel {
                entries: move_to_front(self.entries, content_position(self.entries, c), now),
                last_observed: Some(c),
                ..self
            }
        } else {
            HistoryModel {
                entries: keep_newest(
                    seq![EntryModel { content: c, timestamp: now, id: self.next_id }]
                        + self.entries,
                    self.capacity,
                ),
                next_id: (self.next_id + 1) as u64,
                last_observed: Some(c),
                ..self
            }
        }
    }

    /// The store after the entry at position `i` is committed at time `now`.
    pub open spec fn commit(self, i: int, now: i64) -> HistoryModel {
        if 0 <= i < self.entries.len() {
            HistoryModel { entries: move_to_front(self.entries, i, now), ..self }
        } else {
            self
        }
    }

    /// The store after the entry at position `i` is deleted.
    pub open spec fn delete(self, i: int) -> HistoryModel {
        if 0 <= i < self.entries.len() {
            HistoryModel { entries: self.entries.remove(i), ..self }
        } else {
            self
        }
    }
}

/// The clipboard history.
pub struct HistoryStore {
    entries: Vec<HistoryEntry>,
    capacity: usize,
    next_id: u64,
    last_observed: Option<String>,
}

impl View for HistoryStore {
    type V = HistoryModel;

    closed spec fn view(&self) -> HistoryModel {
        HistoryModel {
            entries: entries_view(self.entries@),
            capacity: self.capacity as nat,
            next_id: self.next_id,
            last_observed: match self.last_observed {
                Some(s) => Some(s@),
                None => None,
            },
        }
    }
}

impl HistoryStore {
    pub open spec fn wf(&self) -> bool {
        self@.wf()
    }

    /// An empty store holding at most `capacity` entries; the first id is 1.
    pub fn new(capacity: usize) -> (r: HistoryStore)
        ensures
            r.wf(),
            r@ == (HistoryModel {
                entries: Seq::empty(),
                capacity: capacity as nat,
                next_id: 1,
                last_observed: None,
            }),
    {
        let r = HistoryStore { entries: Vec::new(), capacity, next_id: 1, last_observed: None };
        assert(r@.entries =~= Seq::<EntryModel>::empty());
        r
    }

    /// A store of capacity `capacity` holding the entries of `loaded`, front
    /// to back, that are admissible when their turn comes; later duplicates,
    /// entries past capacity and entries whose id is `u64::MAX` are dropped.
    /// The next id is one more than the largest id loaded, kept or not
    /// (`u64::MAX` when that is the largest). Nothing counts as observed yet.
    pub fn from_entries(loaded: Vec<HistoryEntry>, capacity: usize) -> (r: HistoryStore)
        ensures
            r.wf(),
            r@.entries == admitted(entries_view(loaded@), capacity as nat),
            r@.capacity == capacity,
            r@.next_id == seed_id(entries_view(loaded@)),
            r@.last_observed is None,
    {
        let ghost src = entries_view(loaded@);
        let mut kept: Vec<HistoryEntry> = Vec::new();
        let mut next: u64 = 1;
        let mut i: usize = 0;
        while i < loaded.len()
            invariant
                i <= loaded@.len(),
                src == entries_view(loaded@),
                entries_view(kept@) == admitted(src.take(i as int), capacity as nat),
                next == seed_id(src.take(i as int)),
                forall|k: int| 0 <= k < kept@.len() ==> entries_view(kept@)[k].id < next,
                entries_view(kept@).len() <= capacity,
                contents_distinct(entries_view(kept@)),
                ids_distinct(entries_view(kept@)),
                forall|k: int| 0 <= k < kept@.len() ==> entries_view(kept@)[k].id < u64::MAX,
            decreases loaded@.len() - i,
        {
            let ghost before = entries_view(kept@);
            assert(src.take(i + 1).drop_last() =~= src.take(i as int));
            assert(src.take(i + 1).last() == src[i as int]);
            let e = &loaded[i];
            if e.id >= next {
                next = if e.id < u64::MAX {
                    e.id + 1
                } else {
                    u64::MAX
                };
            }
            if kept.len() < capacity && e.id < u64::MAX {
                let fc = find_content_in(&kept, &e.content);
                let fi = find_id_in(&kept, e.id);
                if fc.is_none() && fi.is_none() {
                    kept.push(e.duplicate());
                    proof {
                        let after = entries_view(kept@);
                        assert(after =~= before.push(src[i as int]));
                        assert(after.drop_last() =~= before);
                        assert forall|a: int, b: int| 0 <= a < b < after.len() implies after[a].content
                            != after[b].content && after[a].id != after[b].id by {
                            if b == after.len() - 1 {
                                assert(after[a] == before[a]);
                            } else {
                                assert(after[a] == before[a] && after[b] == before[b]);
                            }
                        }
                    }
                }
            }
            i = i + 1;
        }
        assert(src.take(loaded@.len() as int) =~= src);
        HistoryStore { entries: kept, capacity, next_id: next, last_observed: None }
    }

    pub fn len(&self) -> (r: usize)
        ensures
            r == self@.entries.len(),
    {
        self.entries.len()
    }

    pub fn capacity(&self) -> (r: usize)
        ensures
            r == self@.capacity,
    {
        self.capacity
    }

    pub fn next_id(&self) -> (r: u64)
        ensures
            r == self@.next_id,
    {
        self.next_id
    }

    /// The entries, most recent first.
    pub fn entries(&self) -> (r: &Vec<HistoryEntry>)
        ensures
            entries_view(r@) == self@.entries,
    {
        &self.entries
    }


    /// Records that the clipboard now holds `content`, at time `now`.
    ///
    /// Nothing changes when `content` is what was observed last. Otherwise an
    /// entry already holding `content` moves to the front with timestamp
    /// `now` and keeps its id; new content gets the next id and goes to the
    /// front, and the oldest entries beyond capacity are dropped. Returns
    /// whether the store changed.
    pub fn observe_at(&mut self, content: String, now: i64) -> (changed: bool)
        requires
            old(self).wf(),
            old(self)@.next_id < u64::MAX,
        ensures
            final(self).wf(),
            final(self)@ == old(self)@.observe(content@, now),
            changed == (old(self)@.last_observed != Some(content@)),
    {
        proof {
            lemma_observe_wf(self@, content@, now);
        }
        if let Some(last) = &self.last_observed {
            if *last == content {
                return false;
            }
        }
        match self.find_content(&content) {
            Some(i) => {
                assert(content_position(self@.entries, content@) == i);
                self.move_to_front_at(i, now);
            },
            None => {
                let id = self.next_id;
                let e = HistoryEntry::new(content.clone(), now, id);
                self.entries.insert(0, e);
                self.next_id = id + 1;
                self.entries.truncate(self.capacity);
                proof {
                    let full = seq![EntryModel { content: content@, timestamp: now, id }]
                        + old(self)@.entries;
                    assert(entries_view(self.entries@) =~= keep_newest(full, self.capacity as nat));
                }
            },
        }
        self.last_observed = Some(content);
        true
    }

    /// Moves the entry at position `pos` to the front with timestamp `now`,
    /// keeping its id, and returns its content; `None`, with nothing changed,
    /// when there is no such position.
    pub fn commit_at(&mut self, pos: usize, now: i64) -> (r: Option<String>)
        requires
            old(self).wf(),
        ensures
            final(self).wf(),
            final(self)@ == old(self)@.commit(pos as int, now),
            match r {
                Some(c) => pos < old(self)@.entries.len() && c@ == old(
                    self,
                )@.entries[pos as int].content,
                None => pos >= old(self)@.entries.len(),
            },
    {
        if pos >= self.entries.len() {
            return None;
        }
        proof {
            lemma_move_to_front_wf(self@, pos as int, now);
        }
        let c = self.entries[pos].content.clone();
        self.move_to_front_at(pos, now);
        Some(c)
    }

    /// Commits the entry with id `id`, wherever it stands; `None`, with
    /// nothing changed, when no entry has that id.
    pub fn commit_id_at(&mut self, id: u64, now: i64) -> (r: Option<String>)
        requires
            old(self).wf(),
        ensures
            final(self).wf(),
            holds_id(old(self)@.entries, id) ==> final(self)@ == old(self)@.commit(
                id_position(old(self)@.entries, id),
                now,
            ) && r is Some && r->0@ == old(self)@.entries[id_position(
                old(self)@.entries,
                id,
            )].content,
            !holds_id(old(self)@.entries, id) ==> final(self)@ == old(self)@ && r is None,
    {
        match self.position_of_id(id) {
            Some(i) => {
                assert(id_position(self@.entries, id) == i);
                self.commit_at(i, now)
            },
            None => None,
        }
    }

    /// Removes the entry at position `pos`; returns whether there was one.
    /// Ids of removed entries are never handed out again.
    pub fn delete(&mut self, pos: usize) -> (r: bool)
        requires
            old(self).wf(),
        ensures
            final(self).wf(),
            final(self)@ == old(self)@.delete(pos as int),
            r == (pos < old(self)@.entries.len()),
    {
        if pos >= self.entries.len() {
            return false;
        }
        proof {
            lemma_remove_wf(self@, pos as int);
        }
        self.entries.remove(pos);
        assert(entries_view(self.entries@) =~= old(self)@.entries.remove(pos as int));
        true
    }

    /// Sets a new capacity, dropping the oldest entries beyond it.
    pub fn set_capacity(&mut self, capacity: usize)
        requires
            old(self).wf(),
        ensures
            final(self).wf(),
            final(self)@ == (HistoryModel {
                entries: keep_newest(old(self)@.entries, capacity as nat),
                capacity: capacity as nat,
                ..old(self)@
            }),
    {
        proof {
            lemma_keep_newest_wf(self@, capacity as nat);
        }
        self.entries.truncate(capacity);
        self.capacity = capacity;
        assert(entries_view(self.entries@) =~= keep_newest(
            old(self)@.entries,
            capacity as nat,
        ));
    }

    /// The filtered view for `query`: positions of the entries whose content
    /// contains `query` ignoring case, in store order.
    pub fn filtered_positions(&self, query: &str) -> (r: Vec<usize>)
        ensures
            r@.map_values(|x: usize| x as int) == matching_positions(self@.entries, query@),
    {
        let q = lowercase(query);
        let mut out: Vec<usize> = Vec::new();
        let mut i: usize = 0;
        while i < self.entries.len()
            invariant
                i <= self@.entries.len(),
                q@ == crate::text::lower_of(query@),
                out@.map_values(|x: usize| x as int) == matching_positions(
                    self@.entries.take(i as int),
                    query@,
                ),
            decreases self@.entries.len() - i,
        {
            let ghost before = out@;
            assert(self@.entries.take(i + 1).drop_last() =~= self@.entries.take(i as int));
            assert(self@.entries.take(i + 1).last() == self@.entries[i as int]);
            let c = lowercase(self.entries[i].content.as_str());
            if matches_folded(c.as_str(), q.as_str()) {
                out.push(i);
                assert(out@.map_values(|x: usize| x as int) =~= before.map_values(
                    |x: usize| x as int,
                ).push(i as int));
            }
            i = i + 1;
        }
        assert(self@.entries.take(i as int) =~= self@.entries);
        out
    }

    /// Id of the entry at position `fpos` of the filtered view for `query`.
    pub fn resolve_filtered(&self, query: &str, fpos: usize) -> (r: Option<u64>)
        ensures
            fpos < matching_positions(self@.entries, query@).len() ==> r == Some(
                self@.entries[matching_positions(self@.entries, query@)[fpos as int]].id,
            ),
            fpos >= matching_positions(self@.entries, query@).len() ==> r is None,
    {
        let view = self.filtered_positions(query);
        proof {
            lemma_matching_positions(self@.entries, query@);
        }
        if fpos < view.len() {
            assert(view@.map_values(|x: usize| x as int)[fpos as int] == view@[fpos as int]);
            Some(self.entries[view[fpos]].id)
        } else {
            None
        }
    }

    /// Commits the entry at position `fpos` of the filtered view for
    /// `query`. The position is turned into the entry's id before the store
    /// changes.
    pub fn commit_filtered_at(&mut self, query: &str, fpos: usize, now: i64) -> (r: Option<
        String,
    >)
        requires
            old(self).wf(),
        ensures
            final(self).wf(),
            ({
                let mp = matching_positions(old(self)@.entries, query@);
                &&& fpos < mp.len() ==> final(self)@ == old(self)@.commit(mp[fpos as int], now)
                    && r is Some && r->0@ == old(self)@.entries[mp[fpos as int]].content
                &&& fpos >= mp.len() ==> final(self)@ == old(self)@ && r is None
            }),
    {
        proof {
            lemma_matching_positions(self@.entries, query@);
        }
        match self.resolve_filtered(query, fpos) {
            Some(id) => {
                let ghost p = matching_positions(self@.entries, query@)[fpos as int];
                assert(holds_id(self@.entries, id));
                assert(id_position(self@.entries, id) == p);
                self.commit_id_at(id, now)
            },
            None => None,
        }
    }

    /// Position of the entry holding `c`, if any.
    fn find_content(&self, c: &String) -> (r: Option<usize>)
        ensures
            match r {
                Some(i) => i < self@.entries.len() && self@.entries[i as int].content == c@,
                None => !holds_content(self@.entries, c@),
            },
    {
        find_content_in(&self.entries, c)
    }

    /// Position of the entry with id `id`, if any.
    pub fn position_of_id(&self, id: u64) -> (r: Option<usize>)
        ensures
            match r {
                Some(i) => i < self@.entries.len() && self@.entries[i as int].id == id,
                None => !holds_id(self@.entries, id),
            },
    {
        find_id_in(&self.entries, id)
    }

    /// Moves the entry at `i` to the front with timestamp `now`.
    fn move_to_front_at(&mut self, i: usize, now: i64)
        requires
            i < old(self)@.entries.len(),
        ensures
            final(self)@ == (HistoryModel {
                entries: move_to_front(old(self)@.entries, i as int, now),
                ..old(self)@
            }),
    {
        let mut e = self.entries.remove(i);
        e.timestamp = now;
        self.entries.insert(0, e);
        assert(entries_view(self.entries@) =~= move_to_front(
            entries_view(old(self).entries@),
            i as int,
            now,
        ));
    }
}


/// The store after observing each `(content, time)` of `steps` in turn.
pub open spec fn observe_all(m: HistoryModel, steps: Seq<(Seq<char>, i64)>) -> HistoryModel
    decreases steps.len(),
{
    if steps.len() == 0 {
        m
    } else {
        observe_all(m.observe(steps[0].0, steps[0].1), steps.drop_first())
    }
}

proof fn lemma_observe_step_distinct(m: HistoryModel, c: Seq<char>, now: i64)
    requires
        m.entries.len() <= m.capacity,
        contents_distinct(m.entries),
    ensures
        m.observe(c, now).entries.len() <= m.capacity,
        contents_distinct(m.observe(c, now).entries),
        m.observe(c, now).capacity == m.capacity,
{
    let s = m.entries;
    if m.last_observed == Some(c) {
    } else if holds_content(s, c) {
        let i = content_position(s, c);
        lemma_move_to_front_layout(s, i, now);
        let r = move_to_front(s, i, now);
        assert forall|a: int, b: int| 0 <= a < b < r.len() implies r[a].content
            != r[b].content by {
            let sa = if a == 0 {
                i
            } else if a <= i {
                a - 1
            } else {
                a
            };
            let sb = if b <= i {
                b - 1
            } else {
                b
            };
            assert(r[a].content == s[sa].content && r[b].content == s[sb].content);
            assert(sa != sb);
            if sa > sb {
            }
        }
    } else {
        let full = seq![EntryModel { content: c, timestamp: now, id: m.next_id }] + s;
        assert forall|a: int, b: int| 0 <= a < b < full.len() implies full[a].content
            != full[b].content by {
            if a == 0 {
                assert(full[b] == s[b - 1]);
            }
        }
        let r = keep_newest(full, m.capacity);
        assert forall|k: int| 0 <= k < r.len() implies r[k] == full[k] by {}
    }
}

/// However many contents are observed, and in whatever order, the store
/// never holds two entries with equal content and never exceeds capacity.
pub proof fn law_observe_keeps_contents_distinct(m: HistoryModel, steps: Seq<(Seq<char>, i64)>)
    requires
        m.wf(),
    ensures
        contents_distinct(observe_all(m, steps).entries),
        observe_all(m, steps).entries.len() <= m.capacity,
{
    lemma_observe_distinct_from(m, steps);
}

proof fn lemma_observe_distinct_from(m: HistoryModel, steps: Seq<(Seq<char>, i64)>)
    requires
        m.entries.len() <= m.capacity,
        contents_distinct(m.entries),
    ensures
        contents_distinct(observe_all(m, steps).entries),
        observe_all(m, steps).entries.len() <= m.capacity,
    decreases steps.len(),
{
    if steps.len() > 0 {
        lemma_observe_step_distinct(m, steps[0].0, steps[0].1);
        lemma_observe_distinct_from(m.observe(steps[0].0, steps[0].1), steps.drop_first());
    }
}

/// Observing content that the store does not hold (and that was not the
/// last observed) puts a new entry for it at the front. Below capacity the
/// store grows by one; at capacity its length stays and the oldest entry is
/// dropped.
pub proof fn law_observe_new_content(m: HistoryModel, c: Seq<char>, now: i64)
    requires
        m.wf(),
        m.capacity > 0,
        !holds_content(m.entries, c),
        m.last_observed != Some(c),
    ensures
        ({
            let r = m.observe(c, now).entries;
            &&& r[0] == (EntryModel { content: c, timestamp: now, id: m.next_id })
            &&& m.entries.len() < m.capacity ==> r.len() == m.entries.len() + 1
                && r.drop_first() == m.entries
            &&& m.entries.len() == m.capacity ==> r.len() == m.entries.len()
                && r.drop_first() == m.entries.drop_last()
        }),
{
    let r = m.observe(c, now).entries;
    let full = seq![EntryModel { content: c, timestamp: now, id: m.next_id }] + m.entries;
    if m.entries.len() < m.capacity {
        assert(r.drop_first() =~= m.entries);
    } else {
        assert(r.drop_first() =~= m.entries.drop_last());
    }
}

/// Observing the same content again right away changes nothing.
pub proof fn law_observe_repeat_is_idempotent(m: HistoryModel, c: Seq<char>, t1: i64, t2: i64)
    ensures
        m.observe(c, t1).observe(c, t2) == m.observe(c, t1),
{
}

/// Committing position `i` puts that entry at position 0, with its content
/// and id unchanged and its timestamp refreshed; the entries before it move
/// down one place and those after it stay, all of them untouched.
pub proof fn law_commit_moves_to_front(m: HistoryModel, i: int, now: i64)
    requires
        m.wf(),
        0 <= i < m.entries.len(),
    ensures
        m.commit(i, now).entries.len() == m.entries.len(),
        m.commit(i, now).entries[0].id == m.entries[i].id,
        m.commit(i, now).entries[0].content == m.entries[i].content,
        m.commit(i, now).entries[0].timestamp == now,
        forall|k: int| 0 < k <= i ==> #[trigger] m.commit(i, now).entries[k] == m.entries[k - 1],
        forall|k: int| i < k < m.entries.len() ==> #[trigger] m.commit(i, now).entries[k]
            == m.entries[k],
{
    lemma_move_to_front_layout(m.entries, i, now);
}


/// Reloading the entries of a well-formed store, with its capacity, gives
/// them all back in the same order.
pub proof fn law_reload_keeps_entries(m: HistoryModel)
    requires
        m.wf(),
    ensures
        admitted(m.entries, m.capacity) == m.entries,
{
    lemma_admitted_keeps_well_formed(m.entries, m.capacity);
}

} // verus!
