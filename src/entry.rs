//! A captured clipboard entry and its mathematical model.

use vstd::prelude::*;
use vstd::string::StrSliceExecFns;
use crate::text::chars_of;

verus! {

/// One captured clipboard snapshot: its text, when it was last captured or
/// committed (milliseconds since the Unix epoch), and its stable id.
#[derive(Debug, Clone)]
pub struct HistoryEntry {
    pub content: String,
    pub timestamp: i64,
    pub id: u64,
}

/// What a [`HistoryEntry`] stands for.
pub ghost struct EntryModel {
    pub content: Seq<char>,
    pub timestamp: i64,
    pub id: u64,
}

impl View for HistoryEntry {
    type V = EntryModel;

    open spec fn view(&self) -> EntryModel {
        EntryModel { content: self.content@, timestamp: self.timestamp, id: self.id }
    }
}

/// The models of a sequence of entries.
pub open spec fn entries_view(v: Seq<HistoryEntry>) -> Seq<EntryModel> {
    v.map_values(|e: HistoryEntry| e@)
}

/// Bytes that `c` takes in UTF-8.
pub open spec fn char_width(c: char) -> nat {
    if (c as u32) < 0x80 {
        1
    } else if (c as u32) < 0x800 {
        2
    } else if (c as u32) < 0x10000 {
        3
    } else {
        4
    }
}

/// Bytes that `s` takes in UTF-8.
pub open spec fn byte_len(s: Seq<char>) -> nat
    decreases s.len(),
{
    if s.len() == 0 {
        0
    } else {
        byte_len(s.drop_last()) + char_width(s.last())
    }
}

/// Where the first line of `s` ends: at its first newline, or at its end.
pub open spec fn is_line_end(s: Seq<char>, k: int) -> bool {
    &&& 0 <= k <= s.len()
    &&& k < s.len() ==> s[k] == '\n'
    &&& forall|j: int| 0 <= j < k ==> s[j] != '\n'
}

/// The first line of `s` when it ends at `k`: a carriage return before the
/// newline is not part of it.
pub open spec fn line_before(s: Seq<char>, k: int) -> Seq<char> {
    if k < s.len() && k > 0 && s[k - 1] == '\r' {
        s.take(k - 1)
    } else {
        s.take(k)
    }
}

/// `s.take(k)` is the longest prefix of `s` that fits in `budget` bytes.
pub open spec fn longest_fit(s: Seq<char>, budget: nat, k: int) -> bool {
    &&& 0 <= k <= s.len()
    &&& byte_len(s.take(k)) <= budget
    &&& k < s.len() ==> byte_len(s.take(k + 1)) > budget
}

/// A one-line summary of `content`: its first line, and when that is longer
/// than 50 bytes, as much of it as fits in 47 bytes followed by `...`.
pub open spec fn is_preview(content: Seq<char>, r: Seq<char>) -> bool {
    exists|k: int|
        is_line_end(content, k) && ({
            let line = line_before(content, k);
            if byte_len(line) > 50 {
                exists|f: int| longest_fit(line, 47, f) && r == line.take(f) + "..."@
            } else {
                r == line
            }
        })
}

proof fn lemma_byte_len_grows(s: Seq<char>, i: int, j: int)
    requires
        0 <= i <= j <= s.len(),
    ensures
        byte_len(s.take(i)) <= byte_len(s.take(j)),
    decreases j - i,
{
    if i < j {
        assert(s.take(j).drop_last() =~= s.take(j - 1));
        lemma_byte_len_grows(s, i, j - 1);
    }
}

fn width(c: char) -> (r: usize)
    ensures
        r == char_width(c),
{
    if (c as u32) < 0x80 {
        1
    } else if (c as u32) < 0x800 {
        2
    } else if (c as u32) < 0x10000 {
        3
    } else {
        4
    }
}

impl HistoryEntry {
    pub fn new(content: String, timestamp: i64, id: u64) -> (r: HistoryEntry)
        ensures
            r@ == (EntryModel { content: content@, timestamp, id }),
    {
        HistoryEntry { content, timestamp, id }
    }

    /// A one-line summary of the content, as [`is_preview`] describes.
    pub fn preview(&self) -> (r: String)
        ensures
            is_preview(self.content@, r@),
    {
        let text = self.content.as_str();
        let cs = chars_of(text);
        let mut end: usize = 0;
        while end < cs.len() && cs[end] != '\n'
            invariant
                cs@ == text@,
                end <= cs@.len(),
                forall|j: int| 0 <= j < end ==> cs@[j] != '\n',
            decreases cs@.len() - end,
        {
            end = end + 1;
        }
        assert(is_line_end(cs@, end as int));
        let line_len: usize = if end < cs.len() && end > 0 && cs[end - 1] == '\r' {
            end - 1
        } else {
            end
        };
        let ghost line = line_before(cs@, end as int);
        assert(line =~= cs@.take(line_len as int));
        let mut i: usize = 0;
        let mut bytes: usize = 0;
        while i < line_len && bytes <= 50
            invariant
                line == cs@.take(line_len as int),
                line_len <= cs@.len(),
                i <= line_len,
                bytes == byte_len(line.take(i as int)),
                i > 0 ==> bytes <= 54,
                bytes <= 54,
            decreases line_len - i,
        {
            assert(line.take(i + 1).drop_last() =~= line.take(i as int));
            bytes = bytes + width(cs[i]);
            i = i + 1;
        }
        if bytes > 50 {
            proof {
                lemma_byte_len_grows(line, i as int, line.len() as int);
                assert(line.take(line.len() as int) =~= line);
            }
            let mut f: usize = 0;
            let mut used: usize = 0;
            while f < line_len && used + width(cs[f]) <= 47
                invariant
                    line == cs@.take(line_len as int),
                    line_len <= cs@.len(),
                    f <= line_len,
                    used == byte_len(line.take(f as int)),
                    used <= 47,
                decreases line_len - f,
            {
                assert(line.take(f + 1).drop_last() =~= line.take(f as int));
                used = used + width(cs[f]);
                f = f + 1;
            }
            proof {
                if f < line_len {
                    assert(line.take(f + 1).drop_last() =~= line.take(f as int));
                }
            }
            let mut r = String::from_str(text.substring_char(0, f));
            r.append("...");
            assert(r@ == line.take(f as int) + "..."@);
            assert(longest_fit(line, 47, f as int));
            assert(byte_len(line) > 50);
            assert(is_line_end(self.content@, end as int));
            r
        } else {
            assert(i == line_len);
            assert(line.take(i as int) =~= line);
            assert(byte_len(line) <= 50);
            let r = String::from_str(text.substring_char(0, line_len));
            assert(r@ == line);
            assert(is_line_end(self.content@, end as int));
            r
        }
    }

    /// An independent copy of this entry.
    pub fn duplicate(&self) -> (r: HistoryEntry)
        ensures
            r@ == self@,
    {
        HistoryEntry { content: self.content.clone(), timestamp: self.timestamp, id: self.id }
    }
}

} // verus!
