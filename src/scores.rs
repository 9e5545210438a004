use vstd::prelude::*;

verus! {

/// Number of entries a score store keeps.
pub const MAX_SCORES: usize = 100;

/// Size of the leaderboard shown to players.
pub const TOP_SCORES: usize = 10;

/// Longest player name kept, in characters.
pub const MAX_NAME_CHARS: usize = 20;

/// A player name cut to its first `MAX_NAME_CHARS` characters.
pub open spec fn clipped(name: Seq<char>) -> Seq<char> {
    if name.len() <= MAX_NAME_CHARS {
        name
    } else {
        name.take(MAX_NAME_CHARS as int)
    }
}

/// Keeps the first `MAX_NAME_CHARS` characters of a player name.
pub fn clip_name(name: &str) -> (r: String)
    ensures
        r@ == clipped(name@),
{
    let n = name.unicode_len();
    let end = if n < MAX_NAME_CHARS {
        n
    } else {
        MAX_NAME_CHARS
    };
    let kept = name.substring_char(0, end);
    assert(kept@ =~= clipped(name@));
    kept.to_owned()
}

/// A finished game's record.
#[derive(Debug)]
pub struct Score {
    pub name: String,
    pub score: u32,
    pub level: u32,
    pub lines: u32,
    pub timestamp: u64,
}

/// Index at which an entry scoring `v` joins `s`: after every entry of the
/// leading run that scores at least `v`.
pub open spec fn rank_pos(s: Seq<Score>, v: u32) -> int
    decreases s.len(),
{
    if s.len() == 0 {
        0
    } else if s[0].score < v {
        0
    } else {
        1 + rank_pos(s.drop_first(), v)
    }
}

/// `s` with `e` inserted after the entries that score at least as much.
pub open spec fn insert_ranked(s: Seq<Score>, e: Score) -> Seq<Score> {
    s.insert(rank_pos(s, e.score), e)
}

/// `s` ordered by score, highest first; entries with equal scores keep their
/// relative order.
pub open spec fn ranked(s: Seq<Score>) -> Seq<Score>
    decreases s.len(),
{
    if s.len() == 0 {
        Seq::empty()
    } else {
        insert_ranked(ranked(s.drop_last()), s.last())
    }
}

/// Whether `s` is ordered by score, highest first.
pub open spec fn descending(s: Seq<Score>) -> bool {
    forall|i: int, j: int| 0 <= i < j < s.len() ==> s[i].score >= s[j].score
}

proof fn lemma_rank_pos_bounds(s: Seq<Score>, v: u32)
    ensures
        0 <= rank_pos(s, v) <= s.len(),
    decreases s.len(),
{
    if s.len() > 0 && s[0].score >= v {
        lemma_rank_pos_bounds(s.drop_first(), v);
    }
}

/// The first `j` entries score at least `v` and entry `j`, if any, less:
/// then `j` is where an entry scoring `v` joins.
proof fn lemma_rank_pos_at(s: Seq<Score>, v: u32, j: int)
    requires
        0 <= j <= s.len(),
        forall|k: int| 0 <= k < j ==> s[k].score >= v,
        j < s.len() ==> s[j].score < v,
    ensures
        rank_pos(s, v) == j,
    decreases j,
{
    if j > 0 {
        lemma_rank_pos_at(s.drop_first(), v, j - 1);
    }
}

/// Inserting at the rank position keeps a descending sequence descending.
proof fn lemma_insert_ranked_descending(s: Seq<Score>, e: Score)
    requires
        descending(s),
    ensures
        descending(insert_ranked(s, e)),
        insert_ranked(s, e).len() == s.len() + 1,
    decreases s.len(),
{
    lemma_rank_pos_bounds(s, e.score);
    if s.len() > 0 && s[0].score >= e.score {
        let t = s.drop_first();
        assert(descending(t));
        lemma_rank_pos_bounds(t, e.score);
        lemma_insert_ranked_descending(t, e);
        assert(insert_ranked(s, e) =~= seq![s[0]].add(insert_ranked(t, e)));
        assert forall|k: int| 0 <= k < insert_ranked(t, e).len() implies s[0].score >= #[trigger] insert_ranked(t, e)[k].score by {
            lemma_rank_pos_bounds(t, e.score);
            let p = rank_pos(t, e.score);
            if k < p {
                assert(insert_ranked(t, e)[k] == t[k]);
            } else if k > p {
                assert(insert_ranked(t, e)[k] == t[k - 1]);
            }
        }
    } else {
        assert(insert_ranked(s, e) =~= seq![e].add(s));
    }
}

/// A ranked sequence is descending.
pub proof fn lemma_ranked_descending(s: Seq<Score>)
    ensures
        descending(ranked(s)),
        ranked(s).len() == s.len(),
    decreases s.len(),
{
    if s.len() > 0 {
        lemma_ranked_descending(s.drop_last());
        lemma_insert_ranked_descending(ranked(s.drop_last()), s.last());
    }
}

/// Orders `entries` by score, highest first, keeping the relative order of
/// equal scores.
pub fn rank(entries: Vec<Score>) -> (r: Vec<Score>)
    ensures
        r@ == ranked(entries@),
{
    let ghost orig = entries@;
    let n = entries.len();
    let mut rest = entries;
    let mut out: Vec<Score> = Vec::new();
    let mut i: usize = 0;
    while rest.len() > 0
        invariant
            n == orig.len(),
            i + rest@.len() == orig.len(),
            rest@ == orig.skip(i as int),
            out@ == ranked(orig.take(i as int)),
        decreases rest@.len(),
    {
        let e = rest.remove(0);
        proof {
            lemma_ranked_descending(orig.take(i as int));
        }
        let mut j: usize = 0;
        while j < out.len() && out[j].score >= e.score
            invariant
                j <= out@.len(),
                forall|k: int| 0 <= k < j ==> out@[k].score >= e.score,
            decreases out@.len() - j,
        {
            j = j + 1;
        }
        proof {
            lemma_rank_pos_at(out@, e.score, j as int);
            assert(orig.take(i + 1).drop_last() =~= orig.take(i as int));
            assert(orig.take(i + 1).last() == e);
        }
        out.insert(j, e);
        i = i + 1;
        assert(rest@ =~= orig.skip(i as int));
    }
    assert(orig.take(orig.len() as int) =~= orig);
    out
}

/// The kept scores of a leaderboard.
pub struct ScoreStore {
    pub scores: Vec<Score>,
}

impl ScoreStore {
    pub fn new() -> (r: ScoreStore)
        ensures
            r.scores@.len() == 0,
    {
        ScoreStore { scores: Vec::new() }
    }

    /// Adds a record, orders all records by score (highest first, equal
    /// scores in their earlier order) and keeps the best `MAX_SCORES`.
    pub fn add_score(&mut self, score: Score)
        ensures
            final(self).scores@ == ({
                let all = ranked(old(self).scores@.push(score));
                if all.len() <= MAX_SCORES {
                    all
                } else {
                    all.take(MAX_SCORES as int)
                }
            }),
            descending(final(self).scores@),
    {
        let mut all: Vec<Score> = Vec::new();
        std::mem::swap(&mut all, &mut self.scores);
        all.push(score);
        let mut sorted = rank(all);
        proof {
            lemma_ranked_descending(old(self).scores@.push(score));
        }
        sorted.truncate(MAX_SCORES);
        self.scores = sorted;
    }

    /// The best `TOP_SCORES` records, or all of them if there are fewer.
    pub fn get_top(&self) -> (r: Vec<&Score>)
        ensures
            r@.len() == if self.scores@.len() < TOP_SCORES {
                self.scores@.len()
            } else {
                TOP_SCORES as nat
            },
            forall|i: int| 0 <= i < r@.len() ==> *r@[i] == self.scores@[i],
    {
        let mut top: Vec<&Score> = Vec::new();
        let mut i: usize = 0;
        while i < self.scores.len() && i < TOP_SCORES
            invariant
                i <= self.scores@.len(),
                i <= TOP_SCORES,
                top@.len() == i,
                forall|k: int| 0 <= k < i ==> *top@[k] == self.scores@[k],
            decreases TOP_SCORES - i,
        {
            top.push(&self.scores[i]);
            i = i + 1;
        }
        top
    }

    /// Whether a game scoring `score` enters the top `TOP_SCORES`: there is
    /// still room, or it beats the current last of them.
    pub fn qualifies(&self, score: u32) -> (r: bool)
        ensures
            r == (self.scores@.len() < TOP_SCORES || score > self.scores@[TOP_SCORES - 1].score),
    {
        if self.scores.len() < TOP_SCORES {
            return true;
        }
        score > self.scores[TOP_SCORES - 1].score
    }
}

} // verus!
