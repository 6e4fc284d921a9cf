//! The top-ten high-score table (kept in memory; storage is the caller's).

use vstd::prelude::*;

verus! {

/// Entries the table keeps.
pub const MAX_HIGH_SCORES: usize = 10;

/// One finished run.
#[derive(Debug, Clone, Copy, PartialEq, Eq, Structural)]
pub struct ScoreEntry {
    pub score: u32,
    pub bubbles_popped: u32,
}

impl ScoreEntry {
    pub fn new(score: u32, bubbles_popped: u32) -> (e: ScoreEntry)
        ensures
            e.score == score,
            e.bubbles_popped == bubbles_popped,
    {
        ScoreEntry { score, bubbles_popped }
    }
}

/// Scores never increase along `entries`.
pub open spec fn sorted_desc(entries: Seq<ScoreEntry>) -> bool {
    forall|i: int, j: int| 0 <= i < j < entries.len() ==> entries[i].score >= entries[j].score
}

/// `pos` is where `score` goes: after every entry that it does not beat,
/// before the first one that it beats.
pub open spec fn insert_position(entries: Seq<ScoreEntry>, score: u32, pos: int) -> bool {
    &&& 0 <= pos <= entries.len()
    &&& forall|j: int| 0 <= j < pos ==> score <= #[trigger] entries[j].score
    &&& pos < entries.len() ==> score > entries[pos].score
}

/// The high-score table, best first.
#[derive(Debug)]
pub struct HighScores {
    pub entries: Vec<ScoreEntry>,
}

impl HighScores {
    /// An empty table.
    pub fn new() -> (h: HighScores)
        ensures
            h.entries@.len() == 0,
    {
        HighScores { entries: Vec::new() }
    }

    /// Whether `score` would enter the table: it is positive, and the table
    /// has room or its last entry is lower.
    pub fn is_high_score(&self, score: u32) -> (b: bool)
        ensures
            b == (score > 0 && (self.entries@.len() < MAX_HIGH_SCORES || score
                > self.entries@.last().score)),
    {
        if score == 0 {
            return false;
        }
        if self.entries.len() < MAX_HIGH_SCORES {
            return true;
        }
        score > self.entries[self.entries.len() - 1].score
    }

    /// Inserts `entry` after every entry it does not beat, keeping at most
    /// `MAX_HIGH_SCORES`; a zero score, or one that would land past the last
    /// place, is not added. Returns whether it was added.
    pub fn add_score(&mut self, entry: ScoreEntry) -> (added: bool)
        requires
            old(self).entries@.len() <= MAX_HIGH_SCORES,
        ensures
            final(self).entries@.len() <= MAX_HIGH_SCORES,
            added == (entry.score > 0 && exists|pos: int|
                insert_position(old(self).entries@, entry.score, pos) && pos < MAX_HIGH_SCORES),
            added ==> exists|pos: int|
                insert_position(old(self).entries@, entry.score, pos) && final(self).entries@
                    == old(self).entries@.insert(pos, entry).take(
                    if old(self).entries@.len() < MAX_HIGH_SCORES {
                        old(self).entries@.len() + 1int
                    } else {
                        MAX_HIGH_SCORES as int
                    },
                ),
            !added ==> final(self).entries@ == old(self).entries@,
            sorted_desc(old(self).entries@) ==> sorted_desc(final(self).entries@),
    {
        if entry.score == 0 {
            return false;
        }
        let mut pos: usize = 0;
        while pos < self.entries.len() && entry.score <= self.entries[pos].score
            invariant
                pos <= self.entries@.len(),
                forall|j: int| 0 <= j < pos ==> entry.score <= #[trigger] self.entries@[j].score,
            decreases self.entries@.len() - pos,
        {
            pos += 1;
        }
        assert(insert_position(self.entries@, entry.score, pos as int));
        if pos >= MAX_HIGH_SCORES {
            proof {
                assert forall|p: int| insert_position(self.entries@, entry.score, p) implies p
                    >= MAX_HIGH_SCORES by {
                    if p < pos {
                        assert(entry.score <= self.entries@[p].score);
                    }
                }
            }
            return false;
        }
        let ghost before = self.entries@;
        self.entries.insert(pos, entry);
        if self.entries.len() > MAX_HIGH_SCORES {
            self.entries.truncate(MAX_HIGH_SCORES);
        }
        proof {
            let inserted = before.insert(pos as int, entry);
            let n = if before.len() < MAX_HIGH_SCORES {
                before.len() + 1int
            } else {
                MAX_HIGH_SCORES as int
            };
            assert(self.entries@ =~= inserted.take(n));
            if sorted_desc(before) {
                assert forall|i: int, j: int|
                    0 <= i < j < self.entries@.len() implies self.entries@[i].score
                    >= self.entries@[j].score by {
                    assert(self.entries@[i] == inserted[i]);
                    assert(self.entries@[j] == inserted[j]);
                    if i < pos && j > pos {
                        assert(inserted[j] == before[j - 1]);
                    } else if i > pos {
                        assert(inserted[i] == before[i - 1]);
                        assert(inserted[j] == before[j - 1]);
                    } else if i == pos {
                        assert(inserted[j] == before[j - 1]);
                        assert(before[pos as int].score >= before[j - 1].score);
                    }
                }
            }
        }
        true
    }
}

} // verus!
