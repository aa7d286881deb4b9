//! Bookmark groups: named, persisted collections of independent copies of
//! history entries.

use vstd::prelude::*;
use crate::entry::{EntryModel, HistoryEntry, entries_view};
use crate::history::{find_id_in, holds_id, ids_distinct};
use crate::text::{folded_match, lowercase, matches_folded};

verus! {

/// A named group of clips.
#[derive(Debug, Clone)]
pub struct BookmarkGroup {
    pub name: String,
    /// Milliseconds since the Unix epoch.
    pub created_at: i64,
    pub clips: Vec<HistoryEntry>,
}

/// A group as stored before groups held clips.
#[derive(Debug, Clone)]
pub struct LegacyGroup {
    pub name: String,
    pub created_at: i64,
}

/// What a [`BookmarkGroup`] stands for.
pub ghost struct GroupModel {
    pub name: Seq<char>,
    pub created_at: i64,
    pub clips: Seq<EntryModel>,
}

impl View for BookmarkGroup {
    type V = GroupModel;

    open spec fn view(&self) -> GroupModel {
        GroupModel { name: self.name@, created_at: self.created_at, clips: entries_view(self.clips@) }
    }
}

/// The models of a sequence of groups.
pub open spec fn groups_view(v: Seq<BookmarkGroup>) -> Seq<GroupModel> {
    v.map_values(|g: BookmarkGroup| g@)
}

/// Some group of `s` is named `name`.
pub open spec fn holds_name(s: Seq<GroupModel>, name: Seq<char>) -> bool {
    exists|i: int| 0 <= i < s.len() && s[i].name == name
}

/// Position of the group of `s` named `name`.
pub open spec fn name_position(s: Seq<GroupModel>, name: Seq<char>) -> int {
    choose|i: int| 0 <= i < s.len() && s[i].name == name
}

/// Groups are unique by name, and no group holds two clips with one id.
pub open spec fn groups_wf(s: Seq<GroupModel>) -> bool {
    &&& forall|i: int, j: int| 0 <= i < j < s.len() ==> s[i].name != s[j].name
    &&& forall|i: int| 0 <= i < s.len() ==> ids_distinct(#[trigger] s[i].clips)
}

/// `s` with `clip` appended to the clips of group `g`, unless that group
/// already holds a clip with the same id.
pub open spec fn with_clip(s: Seq<GroupModel>, g: int, clip: EntryModel) -> Seq<GroupModel> {
    if 0 <= g < s.len() && !holds_id(s[g].clips, clip.id) {
        s.update(g, GroupModel { clips: s[g].clips.push(clip), ..s[g] })
    } else {
        s
    }
}

/// `s` with clip `c` of group `g` removed.
pub open spec fn without_clip(s: Seq<GroupModel>, g: int, c: int) -> Seq<GroupModel> {
    if 0 <= g < s.len() && 0 <= c < s[g].clips.len() {
        s.update(g, GroupModel { clips: s[g].clips.remove(c), ..s[g] })
    } else {
        s
    }
}

/// The group for a legacy record: same name and time, no clips.
pub open spec fn upgraded(g: LegacyGroup) -> GroupModel {
    GroupModel { name: g.name@, created_at: g.created_at, clips: Seq::empty() }
}

/// Turns legacy records into groups, in order, each with an empty clip list
/// and its name and creation time kept.
pub fn upgrade_legacy(old: Vec<LegacyGroup>) -> (r: Vec<BookmarkGroup>)
    ensures
        r@.len() == old@.len(),
        forall|i: int| 0 <= i < r@.len() ==> #[trigger] r@[i]@ == upgraded(old@[i]),
{
    let mut out: Vec<BookmarkGroup> = Vec::new();
    let mut i: usize = 0;
    while i < old.len()
        invariant
            i <= old@.len(),
            out@.len() == i,
            forall|k: int| 0 <= k < i ==> #[trigger] out@[k]@ == upgraded(old@[k]),
        decreases old@.len() - i,
    {
        let g = &old[i];
        let clips: Vec<HistoryEntry> = Vec::new();
        assert(entries_view(clips@) =~= Seq::<EntryModel>::empty());
        out.push(BookmarkGroup { name: g.name.clone(), created_at: g.created_at, clips });
        i = i + 1;
    }
    out
}

/// Loading a legacy file gives groups with no clips whose names and creation
/// times are those of the records, in order.
pub proof fn law_legacy_upgrade(old: Seq<LegacyGroup>, groups: Seq<GroupModel>)
    requires
        groups.len() == old.len(),
        forall|i: int| 0 <= i < groups.len() ==> #[trigger] groups[i] == upgraded(old[i]),
    ensures
        forall|i: int|
            0 <= i < groups.len() ==> (#[trigger] groups[i]).clips.len() == 0 && groups[i].name
                == old[i].name@ && groups[i].created_at == old[i].created_at,
{
}

/// The clips of `s`, front to back, whose id has not come before.
pub open spec fn unique_clips(s: Seq<EntryModel>) -> Seq<EntryModel>
    decreases s.len(),
{
    if s.len() == 0 {
        s
    } else {
        let kept = unique_clips(s.drop_last());
        if holds_id(kept, s.last().id) {
            kept
        } else {
            kept.push(s.last())
        }
    }
}

/// The groups of `s`, front to back, whose name has not come before, each
/// with its clips made unique by id.
pub open spec fn admitted_groups(s: Seq<GroupModel>) -> Seq<GroupModel>
    decreases s.len(),
{
    if s.len() == 0 {
        s
    } else {
        let kept = admitted_groups(s.drop_last());
        if holds_name(kept, s.last().name) {
            kept
        } else {
            kept.push(GroupModel { clips: unique_clips(s.last().clips), ..s.last() })
        }
    }
}

/// Clips whose ids are already distinct are kept whole.
pub proof fn lemma_unique_clips_keeps_distinct(s: Seq<EntryModel>)
    requires
        ids_distinct(s),
    ensures
        unique_clips(s) == s,
    decreases s.len(),
{
    if s.len() > 0 {
        let p = s.drop_last();
        assert forall|a: int, b: int| 0 <= a < b < p.len() implies p[a].id != p[b].id by {
            assert(p[a] == s[a] && p[b] == s[b]);
        }
        lemma_unique_clips_keeps_distinct(p);
        assert(!holds_id(p, s.last().id)) by {
            if holds_id(p, s.last().id) {
                let i = choose|i: int| 0 <= i < p.len() && p[i].id == s.last().id;
                assert(s[i].id == s[s.len() - 1].id);
            }
        }
        assert(p.push(s.last()) =~= s);
    }
}

/// Groups that a well-formed index could hold are admitted whole, so
/// reloading saved groups gives them back unchanged.
pub proof fn lemma_admitted_groups_keeps_well_formed(s: Seq<GroupModel>)
    requires
        groups_wf(s),
    ensures
        admitted_groups(s) == s,
    decreases s.len(),
{
    if s.len() > 0 {
        let p = s.drop_last();
        assert forall|i: int| 0 <= i < p.len() implies p[i] == s[i] by {}
        assert forall|i: int| 0 <= i < p.len() implies ids_distinct(#[trigger] p[i].clips) by {
            assert(p[i] == s[i]);
        }
        lemma_admitted_groups_keeps_well_formed(p);
        assert(!holds_name(p, s.last().name)) by {
            if holds_name(p, s.last().name) {
                let i = choose|i: int| 0 <= i < p.len() && p[i].name == s.last().name;
                assert(s[i].name == s[s.len() - 1].name);
            }
        }
        assert(ids_distinct(s[s.len() - 1].clips));
        lemma_unique_clips_keeps_distinct(s.last().clips);
        assert(p.push(s.last()) =~= s);
    }
}

/// Positions, in increasing order, of the groups of `s` whose name contains
/// `filter` ignoring case.
pub open spec fn matching_groups(s: Seq<GroupModel>, filter: Seq<char>) -> Seq<int>
    decreases s.len(),
{
    if s.len() == 0 {
        Seq::empty()
    } else {
        let p = matching_groups(s.drop_last(), filter);
        if folded_match(s.last().name, filter) {
            p.push(s.len() - 1)
        } else {
            p
        }
    }
}

/// Adding a clip whose id the group already holds, as happens when the same
/// entry is added twice, leaves the group's clip count unchanged.
pub proof fn law_add_clip_twice(s: Seq<GroupModel>, g: int, e: EntryModel, again: EntryModel)
    requires
        0 <= g < s.len(),
        again.id == e.id,
    ensures
        with_clip(with_clip(s, g, e), g, again) == with_clip(s, g, e),
        with_clip(with_clip(s, g, e), g, again)[g].clips.len() == with_clip(s, g, e)[g].clips.len(),
{
    let once = with_clip(s, g, e);
    if !holds_id(s[g].clips, e.id) {
        assert(once[g].clips.last() == e);
        assert(holds_id(once[g].clips, e.id));
    }
}

/// The clips of `v`, front to back, whose id has not come before, copied.
fn unique_clips_of(v: &Vec<HistoryEntry>) -> (r: Vec<HistoryEntry>)
    ensures
        entries_view(r@) == unique_clips(entries_view(v@)),
        ids_distinct(entries_view(r@)),
{
    let ghost src = entries_view(v@);
    let mut out: Vec<HistoryEntry> = Vec::new();
    let mut i: usize = 0;
    while i < v.len()
        invariant
            i <= v@.len(),
            src == entries_view(v@),
            entries_view(out@) == unique_clips(src.take(i as int)),
            ids_distinct(entries_view(out@)),
        decreases v@.len() - i,
    {
        assert(src.take(i + 1).drop_last() =~= src.take(i as int));
        assert(src.take(i + 1).last() == src[i as int]);
        let e = &v[i];
        if find_id_in(&out, e.id).is_none() {
            let ghost before = entries_view(out@);
            out.push(e.duplicate());
            proof {
                let after = entries_view(out@);
                assert(after =~= before.push(src[i as int]));
                assert forall|a: int, b: int| 0 <= a < b < after.len() implies after[a].id
                    != after[b].id by {
                    if b < after.len() - 1 {
                        assert(after[a] == before[a] && after[b] == before[b]);
                    } else {
                        assert(after[a] == before[a]);
                    }
                }
            }
        }
        i = i + 1;
    }
    assert(src.take(v@.len() as int) =~= src);
    out
}

/// The bookmark groups, in creation order.
pub struct BookmarkIndex {
    groups: Vec<BookmarkGroup>,
}

impl View for BookmarkIndex {
    type V = Seq<GroupModel>;

    closed spec fn view(&self) -> Seq<GroupModel> {
        groups_view(self.groups@)
    }
}

impl BookmarkIndex {
    pub open spec fn wf(&self) -> bool {
        groups_wf(self@)
    }

    pub fn new() -> (r: BookmarkIndex)
        ensures
            r.wf(),
            r@ == Seq::<GroupModel>::empty(),
    {
        let r = BookmarkIndex { groups: Vec::new() };
        assert(r@ =~= Seq::<GroupModel>::empty());
        r
    }

    /// An index of the groups of `loaded`, front to back, whose name has not
    /// come before, each keeping only the first clip with a given id.
    pub fn from_groups(loaded: Vec<BookmarkGroup>) -> (r: BookmarkIndex)
        ensures
            r.wf(),
            r@ == admitted_groups(groups_view(loaded@)),
    {
        let ghost src = groups_view(loaded@);
        let mut index = BookmarkIndex::new();
        let mut i: usize = 0;
        while i < loaded.len()
            invariant
                i <= loaded@.len(),
                src == groups_view(loaded@),
                index.wf(),
                index@ == admitted_groups(src.take(i as int)),
            decreases loaded@.len() - i,
        {
            assert(src.take(i + 1).drop_last() =~= src.take(i as int));
            assert(src.take(i + 1).last() == src[i as int]);
            let g = &loaded[i];
            if index.find_group(&g.name).is_none() {
                let clips = unique_clips_of(&g.clips);
                let ghost before = index@;
                index.groups.push(BookmarkGroup { name: g.name.clone(), created_at: g.created_at, clips });
                proof {
                    let s = index@;
                    assert(s =~= before.push(s.last()));
                    assert forall|a: int, b: int| 0 <= a < b < s.len() implies s[a].name
                        != s[b].name by {
                        if b < s.len() - 1 {
                            assert(s[a] == before[a] && s[b] == before[b]);
                        } else {
                            assert(s[a] == before[a]);
                        }
                    }
                    assert forall|k: int| 0 <= k < s.len() implies ids_distinct(
                        #[trigger] s[k].clips,
                    ) by {
                        if k < s.len() - 1 {
                            assert(s[k] == before[k]);
                        }
                    }
                }
            }
            i = i + 1;
        }
        assert(src.take(loaded@.len() as int) =~= src);
        index
    }

    /// Positions of the groups whose name contains `filter` ignoring case, in
    /// creation order. Calling it again gives the same listing until the
    /// index changes.
    pub fn list_groups(&self, filter: &str) -> (r: Vec<usize>)
        ensures
            r@.map_values(|x: usize| x as int) == matching_groups(self@, filter@),
    {
        let f = lowercase(filter);
        let mut out: Vec<usize> = Vec::new();
        let mut i: usize = 0;
        while i < self.groups.len()
            invariant
                i <= self@.len(),
                self@ == groups_view(self.groups@),
                f@ == crate::text::lower_of(filter@),
                out@.map_values(|x: usize| x as int) == matching_groups(self@.take(i as int), filter@),
            decreases self@.len() - i,
        {
            let ghost before = out@;
            assert(self@.take(i + 1).drop_last() =~= self@.take(i as int));
            assert(self@.take(i + 1).last() == self@[i as int]);
            let n = lowercase(self.groups[i].name.as_str());
            if matches_folded(n.as_str(), f.as_str()) {
                out.push(i);
                assert(out@.map_values(|x: usize| x as int) =~= before.map_values(
                    |x: usize| x as int,
                ).push(i as int));
            }
            i = i + 1;
        }
        assert(self@.take(i as int) =~= self@);
        out
    }

    pub fn len(&self) -> (r: usize)
        ensures
            r == self@.len(),
    {
        self.groups.len()
    }

    /// The groups, in creation order.
    pub fn groups(&self) -> (r: &Vec<BookmarkGroup>)
        ensures
            groups_view(r@) == self@,
    {
        &self.groups
    }

    /// Position of the group named `name`, if any.
    pub fn find_group(&self, name: &String) -> (r: Option<usize>)
        ensures
            match r {
                Some(i) => i < self@.len() && self@[i as int].name == name@,
                None => !holds_name(self@, name@),
            },
    {
        let mut i: usize = 0;
        while i < self.groups.len()
            invariant
                i <= self@.len(),
                self@ == groups_view(self.groups@),
                forall|k: int| 0 <= k < i ==> self@[k].name != name@,
            decreases self@.len() - i,
        {
            if self.groups[i].name == *name {
                return Some(i);
            }
            i = i + 1;
        }
        None
    }

    /// Adds an empty group named `name`, created at `now`, after the others.
    /// Nothing changes when the name is empty or already taken. Returns
    /// whether a group was added.
    pub fn create_group_at(&mut self, name: String, now: i64) -> (r: bool)
        requires
            old(self).wf(),
        ensures
            final(self).wf(),
            r == (name@.len() > 0 && !holds_name(old(self)@, name@)),
            r ==> final(self)@ == old(self)@.push(
                GroupModel { name: name@, created_at: now, clips: Seq::empty() },
            ),
            !r ==> final(self)@ == old(self)@,
    {
        if name.as_str().is_empty() {
            return false;
        }
        if self.find_group(&name).is_some() {
            return false;
        }
        let clips: Vec<HistoryEntry> = Vec::new();
        assert(entries_view(clips@) =~= Seq::<EntryModel>::empty());
        self.groups.push(BookmarkGroup { name, created_at: now, clips });
        let ghost new_group = GroupModel { name: name@, created_at: now, clips: Seq::empty() };
        assert(self@ =~= old(self)@.push(new_group));
        proof {
            let s = self@;
            assert forall|i: int| 0 <= i < s.len() implies ids_distinct(#[trigger] s[i].clips) by {
                if i < old(self)@.len() {
                    assert(s[i] == old(self)@[i]);
                }
            }
        }
        true
    }

    /// Whether group `g` holds a clip with id `id`.
    fn group_holds_id(&self, g: usize, id: u64) -> (r: bool)
        requires
            g < self@.len(),
        ensures
            r == holds_id(self@[g as int].clips, id),
    {
        let clips = &self.groups[g].clips;
        let mut k: usize = 0;
        while k < clips.len()
            invariant
                g < self@.len(),
                entries_view(clips@) == self@[g as int].clips,
                k <= clips@.len(),
                forall|j: int| 0 <= j < k ==> self@[g as int].clips[j].id != id,
            decreases clips@.len() - k,
        {
            if clips[k].id == id {
                assert(entries_view(clips@)[k as int].id == id);
                return true;
            }
            k = k + 1;
        }
        false
    }

    /// Appends an independent copy of `entry` to group `g`, unless the group
    /// already holds a clip with the same id. Returns whether it was added.
    pub fn add_clip(&mut self, g: usize, entry: &HistoryEntry) -> (r: bool)
        requires
            old(self).wf(),
        ensures
            final(self).wf(),
            final(self)@ == with_clip(old(self)@, g as int, entry@),
            r == (g < old(self)@.len() && !holds_id(old(self)@[g as int].clips, entry.id)),
    {
        if g >= self.groups.len() {
            return false;
        }
        if self.group_holds_id(g, entry.id) {
            return false;
        }
        let mut group = self.groups.remove(g);
        let ghost before = entries_view(group.clips@);
        group.clips.push(entry.duplicate());
        assert(entries_view(group.clips@) =~= before.push(entry@));
        self.groups.insert(g, group);
        proof {
            let s = self@;
            let o = old(self)@;
            assert(s =~= with_clip(o, g as int, entry@));
            assert forall|i: int| 0 <= i < s.len() implies ids_distinct(#[trigger] s[i].clips) by {
                if i == g {
                    let c = s[i].clips;
                    assert(c =~= o[i].clips.push(entry@));
                    assert forall|a: int, b: int| 0 <= a < b < c.len() implies c[a].id
                        != c[b].id by {
                        if b == c.len() - 1 {
                            assert(c[a] == o[i].clips[a]);
                        } else {
                            assert(c[a] == o[i].clips[a] && c[b] == o[i].clips[b]);
                        }
                    }
                } else {
                    assert(s[i] == o[i]);
                }
            }
        }
        true
    }

    /// Removes clip `c` of group `g`. Returns whether there was one.
    pub fn remove_clip(&mut self, g: usize, c: usize) -> (r: bool)
        requires
            old(self).wf(),
        ensures
            final(self).wf(),
            final(self)@ == without_clip(old(self)@, g as int, c as int),
            r == (g < old(self)@.len() && c < old(self)@[g as int].clips.len()),
    {
        if g >= self.groups.len() || c >= self.groups[g].clips.len() {
            return false;
        }
        let mut group = self.groups.remove(g);
        let ghost before = entries_view(group.clips@);
        group.clips.remove(c);
        assert(entries_view(group.clips@) =~= before.remove(c as int));
        self.groups.insert(g, group);
        proof {
            let s = self@;
            let o = old(self)@;
            assert(s =~= without_clip(o, g as int, c as int));
            assert forall|i: int| 0 <= i < s.len() implies ids_distinct(#[trigger] s[i].clips) by {
                if i == g {
                    let cl = s[i].clips;
                    let oc = o[i].clips;
                    assert(cl =~= oc.remove(c as int));
                    assert forall|a: int, b: int| 0 <= a < b < cl.len() implies cl[a].id
                        != cl[b].id by {
                        let sa = if a < c {
                            a
                        } else {
                            a + 1
                        };
                        let sb = if b < c {
                            b
                        } else {
                            b + 1
                        };
                        assert(cl[a] == oc[sa] && cl[b] == oc[sb]);
                    }
                } else {
                    assert(s[i] == o[i]);
                }
            }
        }
        true
    }

    /// Removes the group named `name`. Returns whether there was one.
    pub fn delete_group(&mut self, name: &String) -> (r: bool)
        requires
            old(self).wf(),
        ensures
            final(self).wf(),
            r == holds_name(old(self)@, name@),
            r ==> final(self)@ == old(self)@.remove(name_position(old(self)@, name@)),
            !r ==> final(self)@ == old(self)@,
    {
        match self.find_group(name) {
            Some(i) => {
                assert(name_position(self@, name@) == i);
                self.groups.remove(i);
                proof {
                    let s = self@;
                    let o = old(self)@;
                    assert(s =~= o.remove(i as int));
                    assert forall|k: int| 0 <= k < s.len() implies s[k] == o[if k < i {
                        k
                    } else {
                        k + 1
                    }] by {}
                    assert forall|a: int, b: int| 0 <= a < b < s.len() implies s[a].name
                        != s[b].name by {
                        let sa = if a < i {
                            a
                        } else {
                            a + 1
                        };
                        let sb = if b < i {
                            b
                        } else {
                            b + 1
                        };
                        assert(s[a] == o[sa] && s[b] == o[sb]);
                    }
                    assert forall|k: int| 0 <= k < s.len() implies ids_distinct(
                        #[trigger] s[k].clips,
                    ) by {
                        let sk = if k < i {
                            k
                        } else {
                            k + 1
                        };
                        assert(s[k] == o[sk]);
                    }
                }
                true
            },
            None => false,
        }
    }
}

} // verus!
