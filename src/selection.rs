//! Selection addressing: a cursor over the active view (the whole history,
//! or its filtered view), the filter session, and the two-press "go to
//! first" gesture.

use vstd::prelude::*;
use vstd::string::StrSliceExecFns;
use crate::history::{HistoryModel, HistoryStore, holds_id, id_position, matching_positions};

verus! {

/// A navigation key.
#[derive(Debug, Clone, Copy, PartialEq, Eq)]
pub enum NavKey {
    /// One entry down.
    Down,
    /// One entry up.
    Up,
    /// Half of the two-press "go to first" gesture.
    First,
    /// To the last entry.
    Last,
    /// Any other key.
    Other,
}

/// Positions `0..n`.
pub open spec fn all_positions(n: nat) -> Seq<int> {
    Seq::new(n, |i: int| i)
}

/// The cursor and filter session of the history view.
#[derive(Debug, Clone)]
pub struct Selection {
    /// Position in the active view.
    pub selected: usize,
    /// The first press of "go to first" has been seen.
    pub armed: bool,
    /// A query is being typed.
    pub editing: bool,
    pub query: String,
    /// A typed query has been applied.
    pub applied: bool,
    /// The selection when filtering began.
    pub saved: usize,
}

impl Selection {
    /// The filtered view is in use.
    pub open spec fn filtering(&self) -> bool {
        self.editing || self.applied
    }

    /// The active view over `entries`: store positions, in order, that the
    /// cursor ranges over.
    pub open spec fn active_view(&self, m: HistoryModel) -> Seq<int> {
        if self.filtering() {
            matching_positions(m.entries, self.query@)
        } else {
            all_positions(m.entries.len())
        }
    }

    /// Nothing selected but the first entry, no filter.
    pub fn new() -> (r: Selection)
        ensures
            r.selected == 0 && !r.armed && !r.editing && !r.applied && r.saved == 0,
            r.query@.len() == 0,
    {
        Selection {
            selected: 0,
            armed: false,
            editing: false,
            query: String::new(),
            applied: false,
            saved: 0,
        }
    }

    /// Handles a navigation key over an active view of `len` entries.
    ///
    /// Down, Up and Last move within the view and stay put at its ends; a
    /// first press of First arms the gesture and a second one, with no other
    /// key between, jumps to the first entry and disarms; every other key
    /// disarms without further effect.
    pub fn press(&mut self, key: NavKey, len: usize)
        ensures
            final(self).editing == old(self).editing,
            final(self).query@ == old(self).query@,
            final(self).applied == old(self).applied,
            final(self).saved == old(self).saved,
            key != NavKey::First ==> !final(self).armed,
            match key {
                NavKey::Down => final(self).selected == if old(self).selected + 1 < len {
                    old(self).selected + 1
                } else {
                    old(self).selected as int
                },
                NavKey::Up => final(self).selected == if old(self).selected > 0 && len > 0 {
                    old(self).selected - 1
                } else {
                    old(self).selected as int
                },
                NavKey::Last => final(self).selected == if len > 0 {
                    len - 1
                } else {
                    old(self).selected as int
                },
                NavKey::First => if old(self).armed {
                    final(self).selected == 0 && !final(self).armed
                } else {
                    final(self).selected == old(self).selected && final(self).armed
                },
                NavKey::Other => final(self).selected == old(self).selected,
            },
    {
        match key {
            NavKey::Down => {
                if len > 0 && self.selected < len - 1 {
                    self.selected = self.selected + 1;
                }
                self.armed = false;
            },
            NavKey::Up => {
                if len > 0 && self.selected > 0 {
                    self.selected = self.selected - 1;
                }
                self.armed = false;
            },
            NavKey::Last => {
                if len > 0 {
                    self.selected = len - 1;
                }
                self.armed = false;
            },
            NavKey::First => {
                if self.armed {
                    self.selected = 0;
                    self.armed = false;
                } else {
                    self.armed = true;
                }
            },
            NavKey::Other => {
                self.armed = false;
            },
        }
    }

    /// Keeps the selection inside an active view of `len` entries, as after
    /// a deletion.
    pub fn clamp(&mut self, len: usize)
        ensures
            final(self).selected == if len == 0 {
                0
            } else if old(self).selected >= len {
                len - 1
            } else {
                old(self).selected as int
            },
            final(self).armed == old(self).armed,
            final(self).editing == old(self).editing,
            final(self).query@ == old(self).query@,
            final(self).applied == old(self).applied,
            final(self).saved == old(self).saved,
    {
        if len == 0 {
            self.selected = 0;
        } else if self.selected >= len {
            self.selected = len - 1;
        }
    }

    /// Begins typing a query: the current selection is saved, the query
    /// starts empty, and the cursor goes to the top of the filtered view.
    pub fn start_filter(&mut self)
        ensures
            final(self).editing && !final(self).applied && !final(self).armed,
            final(self).query@.len() == 0,
            final(self).saved == old(self).selected,
            final(self).selected == 0,
    {
        self.saved = self.selected;
        self.selected = 0;
        self.editing = true;
        self.applied = false;
        self.armed = false;
        self.query = String::new();
    }

    /// Appends typed text to the query.
    pub fn push_query(&mut self, text: &str)
        ensures
            final(self).query@ == old(self).query@ + text@,
            final(self).selected == old(self).selected,
            final(self).armed == old(self).armed,
            final(self).editing == old(self).editing,
            final(self).applied == old(self).applied,
            final(self).saved == old(self).saved,
    {
        self.query.append(text);
    }

    /// Removes the last character of the query, if any.
    pub fn pop_query(&mut self)
        ensures
            old(self).query@.len() > 0 ==> final(self).query@ == old(self).query@.drop_last(),
            old(self).query@.len() == 0 ==> final(self).query@ == old(self).query@,
            final(self).selected == old(self).selected,
            final(self).armed == old(self).armed,
            final(self).editing == old(self).editing,
            final(self).applied == old(self).applied,
            final(self).saved == old(self).saved,
    {
        let n = self.query.as_str().unicode_len();
        if n > 0 {
            let kept = String::from_str(self.query.as_str().substring_char(0, n - 1));
            assert(kept@ =~= old(self).query@.drop_last());
            self.query = kept;
        }
    }

    /// Ends typing and keeps the query applied.
    pub fn apply_filter(&mut self)
        ensures
            !final(self).editing,
            final(self).applied == (old(self).editing || old(self).applied),
            final(self).query@ == old(self).query@,
            final(self).selected == old(self).selected,
            final(self).armed == old(self).armed,
            final(self).saved == old(self).saved,
    {
        if self.editing {
            self.editing = false;
            self.applied = true;
        }
    }

    /// Handles Escape. While a query is typed, filtering is cancelled and the
    /// selection saved when it began comes back; when a query is applied, it
    /// is cleared and the cursor goes to the first entry. Returns whether
    /// either happened; otherwise nothing changes.
    pub fn escape(&mut self) -> (r: bool)
        ensures
            r == old(self).filtering(),
            old(self).editing ==> final(self).selected == old(self).saved,
            !old(self).editing && old(self).applied ==> final(self).selected == 0,
            r ==> !final(self).filtering() && final(self).query@.len() == 0
                && final(self).saved == old(self).saved && final(self).armed == old(self).armed,
            !r ==> *final(self) == *old(self),
    {
        if self.editing {
            self.editing = false;
            self.applied = false;
            self.query = String::new();
            self.selected = self.saved;
            true
        } else if self.applied {
            self.applied = false;
            self.query = String::new();
            self.selected = 0;
            true
        } else {
            false
        }
    }

    /// The active view over `store`.
    pub fn active_positions(&self, store: &HistoryStore) -> (r: Vec<usize>)
        ensures
            r@.map_values(|x: usize| x as int) == self.active_view(store@),
    {
        if self.editing || self.applied {
            store.filtered_positions(self.query.as_str())
        } else {
            let n = store.len();
            let mut out: Vec<usize> = Vec::new();
            let mut i: usize = 0;
            while i < n
                invariant
                    i <= n,
                    n == store@.entries.len(),
                    out@.len() == i,
                    forall|k: int| 0 <= k < i ==> out@[k] == k,
                decreases n - i,
            {
                out.push(i);
                i = i + 1;
            }
            assert(out@.map_values(|x: usize| x as int) =~= all_positions(n as nat));
            out
        }
    }

    /// Id of the selected entry of `store`, if the selection is inside the
    /// active view.
    pub fn selected_id(&self, store: &HistoryStore) -> (r: Option<u64>)
        ensures
            ({
                let v = self.active_view(store@);
                &&& self.selected < v.len() ==> 0 <= v[self.selected as int]
                    < store@.entries.len() && r == Some(
                    store@.entries[v[self.selected as int]].id,
                )
                &&& self.selected >= v.len() ==> r is None
            }),
    {
        let view = self.active_positions(store);
        proof {
            crate::history::lemma_matching_positions(store@.entries, self.query@);
        }
        if self.selected < view.len() {
            assert(view@.map_values(|x: usize| x as int)[self.selected as int]
                == view@[self.selected as int]);
            assert(self.active_view(store@)[self.selected as int] == view@[self.selected as int]);
            assert(self.selected < self.active_view(store@).len());
            if !(self.editing || self.applied) {
                assert(self.active_view(store@) == all_positions(store@.entries.len()));
                assert(self.selected < store@.entries.len());
                assert(all_positions(store@.entries.len())[self.selected as int]
                    == self.selected);
            }
            assert(view@[self.selected as int] < store@.entries.len());
            Some(store.entries()[view[self.selected]].id)
        } else {
            None
        }
    }

    /// Commits the selected entry of `store` at time `now` and returns its
    /// content. The selection is turned into the entry's id before the store
    /// changes. Afterwards the filter is cleared and the cursor is on the
    /// first entry, where the committed entry now stands. With nothing
    /// selected, nothing changes and `None` comes back.
    pub fn commit_selected_at(&mut self, store: &mut HistoryStore, now: i64) -> (r: Option<String>)
        requires
            old(store).wf(),
        ensures
            final(store).wf(),
            ({
                let v = old(self).active_view(old(store)@);
                let s = old(self).selected as int;
                &&& s < v.len() ==> final(store)@ == old(store)@.commit(v[s], now) && r is Some
                    && r->0@ == old(store)@.entries[v[s]].content && final(self).selected == 0
                    && !final(self).filtering() && final(self).query@.len() == 0
                &&& s >= v.len() ==> final(store)@ == old(store)@ && r is None && *final(self)
                    == *old(self)
            }),
    {
        proof {
            crate::history::lemma_matching_positions(store@.entries, self.query@);
        }
        match self.selected_id(store) {
            Some(id) => {
                let ghost p = self.active_view(store@)[self.selected as int];
                assert(holds_id(store@.entries, id));
                assert(id_position(store@.entries, id) == p);
                let r = store.commit_id_at(id, now);
                self.selected = 0;
                self.editing = false;
                self.applied = false;
                self.armed = false;
                self.query = String::new();
                r
            },
            None => None,
        }
    }
}

} // verus!
