use vstd::prelude::*;

verus! {

/// Points gathered by a player in one round.
#[derive(Debug, Copy, Clone, Default, PartialEq, Eq, PartialOrd, Ord, Structural)]
pub struct Score {
    pub score: i32,
}

/// The name a player typed before a round.
#[derive(Debug, Clone, Default)]
pub struct PlayerName(pub String);

impl PlayerName {
    /// Replaces the stored name with a copy of `new_name`.
    pub fn set(&mut self, new_name: &String)
        ensures
            final(self).0@ == new_name@,
    {
        self.0 = new_name.clone();
    }
}

/// Number of slots on the leaderboard.
pub const LEADERBOARD_SIZE: usize = 10;

/// An entry as the contracts see it: the player's name and score.
pub open spec fn entry_view(e: (PlayerName, Score)) -> (Seq<char>, i32) {
    (e.0.0@, e.1.score)
}

/// Entries are ordered from the highest score to the lowest.
pub open spec fn ranked(s: Seq<(Seq<char>, i32)>) -> bool {
    forall|i: int, j: int| 0 <= i < j < s.len() ==> s[i].1 >= s[j].1
}

/// A well-formed board: exactly the fixed number of slots, ranked.
pub open spec fn board_shape(s: Seq<(Seq<char>, i32)>) -> bool {
    s.len() == LEADERBOARD_SIZE && ranked(s)
}

/// Where a new score enters: after every leading entry that scores at least
/// as much, so that among equal scores the earlier one stays ahead.
pub open spec fn slot_for(s: Seq<(Seq<char>, i32)>, score: i32) -> nat
    decreases s.len(),
{
    if s.len() == 0 {
        0
    } else if s[0].1 < score {
        0
    } else {
        1 + slot_for(s.drop_first(), score)
    }
}

/// The board after adding `e`: inserted at its slot, the last entry dropped.
pub open spec fn board_after(s: Seq<(Seq<char>, i32)>, e: (Seq<char>, i32)) -> Seq<
    (Seq<char>, i32),
> {
    s.insert(slot_for(s, e.1) as int, e).drop_last()
}

/// The board after adding each of `calls` in turn.
pub open spec fn replay(s: Seq<(Seq<char>, i32)>, calls: Seq<(Seq<char>, i32)>) -> Seq<
    (Seq<char>, i32),
>
    decreases calls.len(),
{
    if calls.len() == 0 {
        s
    } else {
        replay(board_after(s, calls[0]), calls.drop_first())
    }
}

/// The board a new game starts with: every slot empty-named with score zero.
pub open spec fn empty_board() -> Seq<(Seq<char>, i32)> {
    Seq::new(LEADERBOARD_SIZE as nat, |i: int| (Seq::<char>::empty(), 0i32))
}

proof fn lemma_slot_is_first_lower(s: Seq<(Seq<char>, i32)>, score: i32, i: int)
    requires
        0 <= i <= s.len(),
        forall|k: int| 0 <= k < i ==> s[k].1 >= score,
        i < s.len() ==> s[i].1 < score,
    ensures
        slot_for(s, score) == i,
    decreases i,
{
    if i > 0 {
        lemma_slot_is_first_lower(s.drop_first(), score, i - 1);
    }
}

proof fn lemma_slot_bounds(s: Seq<(Seq<char>, i32)>, score: i32)
    requires
        ranked(s),
    ensures
        slot_for(s, score) <= s.len(),
        forall|k: int| 0 <= k < slot_for(s, score) ==> s[k].1 >= score,
        forall|k: int| slot_for(s, score) <= k < s.len() ==> s[k].1 < score,
    decreases s.len(),
{
    if s.len() > 0 && s[0].1 >= score {
        let t = s.drop_first();
        assert(ranked(t));
        lemma_slot_bounds(t, score);
        assert forall|k: int| 0 <= k < slot_for(s, score) implies s[k].1 >= score by {
            if k > 0 {
                assert(s[k] == t[k - 1]);
            }
        }
        assert forall|k: int| slot_for(s, score) <= k < s.len() implies s[k].1 < score by {
            assert(s[k] == t[k - 1]);
        }
    }
}

proof fn lemma_slot_never_past_end(s: Seq<(Seq<char>, i32)>, score: i32)
    ensures
        slot_for(s, score) <= s.len(),
    decreases s.len(),
{
    if s.len() > 0 && s[0].1 >= score {
        lemma_slot_never_past_end(s.drop_first(), score);
    }
}

proof fn lemma_board_after_len(s: Seq<(Seq<char>, i32)>, e: (Seq<char>, i32))
    requires
        slot_for(s, e.1) <= s.len(),
    ensures
        board_after(s, e).len() == s.len(),
{
    s.insert_ensures(slot_for(s, e.1) as int, e);
}

proof fn lemma_board_after_ranked(s: Seq<(Seq<char>, i32)>, e: (Seq<char>, i32))
    requires
        ranked(s),
    ensures
        ranked(board_after(s, e)),
        board_after(s, e).len() == s.len(),
{
    lemma_slot_bounds(s, e.1);
    let p = slot_for(s, e.1) as int;
    s.insert_ensures(p, e);
    let ins = s.insert(p, e);
    assert forall|i: int, j: int| 0 <= i < j < ins.len() implies ins[i].1 >= ins[j].1 by {
        if j < p {
        } else if j == p {
        } else if i < p {
            assert(ins[j] == s[j - 1]);
        } else if i == p {
            assert(ins[j] == s[j - 1]);
        } else {
            assert(ins[i] == s[i - 1]);
            assert(ins[j] == s[j - 1]);
        }
    }
    lemma_board_after_len(s, e);
}

/// The top scores, best first, always holding a fixed number of slots.
#[derive(Clone, Debug)]
pub struct Leaderboard {
    pub leaderboard: Vec<(PlayerName, Score)>,
}

impl View for Leaderboard {
    type V = Seq<(Seq<char>, i32)>;

    open spec fn view(&self) -> Seq<(Seq<char>, i32)> {
        self.leaderboard@.map_values(|e: (PlayerName, Score)| entry_view(e))
    }
}

impl Leaderboard {
    /// Holds the fixed number of slots, ranked best first.
    pub open spec fn wf(&self) -> bool {
        board_shape(self@)
    }

    /// A board of empty-named entries, all scoring zero.
    pub fn default() -> (r: Self)
        ensures
            r.wf(),
            r@ == empty_board(),
    {
        let mut v: Vec<(PlayerName, Score)> = Vec::new();
        let mut i: usize = 0;
        while i < LEADERBOARD_SIZE
            invariant
                i <= LEADERBOARD_SIZE,
                v@.len() == i,
                forall|k: int|
                    0 <= k < i ==> #[trigger] v@[k].0.0@ == Seq::<char>::empty() && v@[k].1.score
                        == 0,
            decreases LEADERBOARD_SIZE - i,
        {
            v.push((PlayerName(String::new()), Score { score: 0 }));
            i += 1;
        }
        let r = Leaderboard { leaderboard: v };
        assert(r@ =~= empty_board());
        r
    }

    /// Index of the first entry scoring below `score`, or the length.
    fn slot(&self, score: i32) -> (p: usize)
        ensures
            p == slot_for(self@, score),
    {
        let mut i: usize = 0;
        while i < self.leaderboard.len() && self.leaderboard[i].1.score >= score
            invariant
                i <= self.leaderboard@.len(),
                forall|k: int| 0 <= k < i ==> #[trigger] self@[k].1 >= score,
            decreases self.leaderboard@.len() - i,
        {
            i += 1;
        }
        proof {
            lemma_slot_is_first_lower(self@, score, i as int);
        }
        i
    }

    /// Enters `score` for `name` at its ranked place and drops the last
    /// entry, so the board keeps its size and its order.
    pub fn add_score(&mut self, name: String, score: i32)
        requires
            old(self).wf(),
        ensures
            final(self).wf(),
            final(self)@ == board_after(old(self)@, (name@, score)),
    {
        let ghost before = self@;
        let ghost e = (name@, score);
        let pos = self.slot(score);
        proof {
            lemma_slot_bounds(before, score);
        }
        let ghost entries = self.leaderboard@;
        let entry = (PlayerName(name), Score { score });
        self.leaderboard.insert(pos, entry);
        self.leaderboard.pop();
        proof {
            lemma_board_after_ranked(before, e);
            entries.insert_ensures(pos as int, entry);
            before.insert_ensures(pos as int, e);
            assert(self@ =~= board_after(before, e));
        }
    }

    /// Positions of the entries that are shown to players, in board order:
    /// exactly those with a positive score (empty slots stay hidden).
    pub fn shown_slots(&self) -> (r: Vec<usize>)
        ensures
            forall|i: int| 0 <= i < r@.len() ==> r@[i] < self@.len() && self@[r@[i] as int].1 > 0,
            forall|i: int, j: int| 0 <= i < j < r@.len() ==> r@[i] < r@[j],
            forall|k: int| 0 <= k < self@.len() && self@[k].1 > 0 ==> r@.contains(k as usize),
    {
        let mut r: Vec<usize> = Vec::new();
        let mut i: usize = 0;
        while i < self.leaderboard.len()
            invariant
                i <= self.leaderboard@.len(),
                forall|j: int| 0 <= j < r@.len() ==> r@[j] < i && self@[r@[j] as int].1 > 0,
                forall|a: int, b: int| 0 <= a < b < r@.len() ==> r@[a] < r@[b],
                forall|k: int| 0 <= k < i && self@[k].1 > 0 ==> r@.contains(k as usize),
            decreases self.leaderboard@.len() - i,
        {
            if self.leaderboard[i].1.score > 0 {
                let ghost prev = r@;
                r.push(i);
                proof {
                    assert(r@[prev.len() as int] == i);
                    assert forall|k: int| 0 <= k < i && self@[k].1 > 0 implies r@.contains(
                        k as usize,
                    ) by {
                        let j = choose|j: int| 0 <= j < prev.len() && prev[j] == k as usize;
                        assert(r@[j] == k as usize);
                    }
                }
            }
            i += 1;
        }
        r
    }
}

/// Whatever scores are added, a board that starts with the fixed number of
/// slots keeps exactly that many.
pub proof fn lemma_board_keeps_its_size(start: Seq<(Seq<char>, i32)>, calls: Seq<(Seq<char>, i32)>)
    requires
        start.len() == LEADERBOARD_SIZE,
    ensures
        replay(start, calls).len() == LEADERBOARD_SIZE,
    decreases calls.len(),
{
    if calls.len() > 0 {
        let next = board_after(start, calls[0]);
        lemma_slot_never_past_end(start, calls[0].1);
        lemma_board_after_len(start, calls[0]);
        lemma_board_keeps_its_size(next, calls.drop_first());
    }
}

/// Whatever scores are added, a board ranked best first stays ranked.
pub proof fn lemma_board_stays_ranked(start: Seq<(Seq<char>, i32)>, calls: Seq<(Seq<char>, i32)>)
    requires
        ranked(start),
    ensures
        ranked(replay(start, calls)),
    decreases calls.len(),
{
    if calls.len() > 0 {
        lemma_board_after_ranked(start, calls[0]);
        lemma_board_stays_ranked(board_after(start, calls[0]), calls.drop_first());
    }
}

/// On a full ranked board the last entry scores lowest. A new score above it
/// takes its ranked slot and pushes out exactly that last entry: with the
/// new entry taken away again, what remains is the old board without its
/// last entry, in the same order.
pub proof fn lemma_higher_score_evicts_minimum(s: Seq<(Seq<char>, i32)>, e: (Seq<char>, i32))
    requires
        board_shape(s),
        e.1 > s.last().1,
    ensures
        forall|i: int| 0 <= i < s.len() ==> s[i].1 >= s.last().1,
        slot_for(s, e.1) < s.len(),
        board_after(s, e)[slot_for(s, e.1) as int] == e,
        board_after(s, e).remove(slot_for(s, e.1) as int) == s.drop_last(),
{
    lemma_slot_bounds(s, e.1);
    let p = slot_for(s, e.1) as int;
    s.insert_ensures(p, e);
    let r = board_after(s, e);
    assert(r.len() == s.len());
    r.remove_ensures(p);
    assert(r.remove(p) =~= s.drop_last());
}

/// A new score no higher than the last entry's leaves the board as it was.
pub proof fn lemma_low_score_leaves_board(s: Seq<(Seq<char>, i32)>, e: (Seq<char>, i32))
    requires
        board_shape(s),
        e.1 <= s.last().1,
    ensures
        board_after(s, e) == s,
{
    lemma_slot_bounds(s, e.1);
    let p = slot_for(s, e.1) as int;
    assert(p == s.len());
    s.insert_ensures(p, e);
    assert(board_after(s, e) =~= s);
}

} // verus!
