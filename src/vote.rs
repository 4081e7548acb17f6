//! The map ballot: one symbol per map, the tally of reactions and the
//! choice of the winning map.

use vstd::prelude::*;

use crate::maps::{names_of, MapPool};
use crate::trusted::{char_of_code, random_below};

verus! {

/// Code of the first ballot symbol, the regional indicator letter A; the
/// symbol of the map at position `i` of the pool has code `FIRST_SYMBOL + i`.
pub const FIRST_SYMBOL: u32 = 0x1F1E6;

/// One line of the ballot: a map and the symbol that stands for it.
pub struct BallotEntry {
    pub symbol: char,
    pub map: String,
}

/// A reaction on the ballot message, with the number of users who gave it.
pub struct Reaction {
    pub emoji: String,
    pub count: u64,
}

/// Votes received by a map.
pub struct MapCount {
    pub map: String,
    pub count: u64,
}

pub open spec fn ballot_view(b: Seq<BallotEntry>) -> Seq<(char, Seq<char>)> {
    b.map_values(|e: BallotEntry| (e.symbol, e.map@))
}

pub open spec fn reactions_view(r: Seq<Reaction>) -> Seq<(Seq<char>, u64)> {
    r.map_values(|e: Reaction| (e.emoji@, e.count))
}

pub open spec fn counts_view(c: Seq<MapCount>) -> Seq<(Seq<char>, u64)> {
    c.map_values(|e: MapCount| (e.map@, e.count))
}

/// `b` lists the maps of `pool` in order, the map at position `i` under the
/// symbol of code `FIRST_SYMBOL + i`.
pub open spec fn is_ballot_for(b: Seq<(char, Seq<char>)>, pool: Seq<Seq<char>>) -> bool {
    &&& b.len() == pool.len()
    &&& forall|i: int|
        0 <= i < b.len() ==> #[trigger] b[i].1 == pool[i] && b[i].0 as u32 == FIRST_SYMBOL + i
}

/// No symbol stands for two lines of the ballot.
pub open spec fn symbols_distinct(b: Seq<(char, Seq<char>)>) -> bool {
    forall|i: int, j: int| 0 <= i < b.len() && 0 <= j < b.len() && i != j ==> b[i].0 != b[j].0
}

/// The line of the ballot whose symbol is the text `e`, or -1.
pub open spec fn symbol_index(b: Seq<(char, Seq<char>)>, e: Seq<char>) -> int {
    if exists|j: int| 0 <= j < b.len() && e == seq![b[j].0] {
        choose|j: int| 0 <= j < b.len() && e == seq![b[j].0]
    } else {
        -1
    }
}

/// The reactions that are ballot symbols, in order, each read as its map.
pub open spec fn tally_of(b: Seq<(char, Seq<char>)>, rs: Seq<(Seq<char>, u64)>) -> Seq<
    (Seq<char>, u64),
>
    decreases rs.len(),
{
    if rs.len() == 0 {
        Seq::empty()
    } else {
        let prev = tally_of(b, rs.drop_last());
        let j = symbol_index(b, rs.last().0);
        if j >= 0 {
            prev.push((b[j].1, rs.last().1))
        } else {
            prev
        }
    }
}

/// The largest count, 0 for no counts.
pub open spec fn max_count(s: Seq<(Seq<char>, u64)>) -> u64
    decreases s.len(),
{
    if s.len() == 0 {
        0
    } else {
        let m = max_count(s.drop_last());
        if s.last().1 > m {
            s.last().1
        } else {
            m
        }
    }
}

/// The maps with count `m`, in order.
pub open spec fn maps_with_count(s: Seq<(Seq<char>, u64)>, m: u64) -> Seq<Seq<char>>
    decreases s.len(),
{
    if s.len() == 0 {
        Seq::empty()
    } else {
        let p = maps_with_count(s.drop_last(), m);
        if s.last().1 == m {
            p.push(s.last().0)
        } else {
            p
        }
    }
}

/// The maps tied at the largest count.
pub open spec fn top_maps(s: Seq<(Seq<char>, u64)>) -> Seq<Seq<char>> {
    maps_with_count(s, max_count(s))
}

/// The map chosen when the tied maps are `top_maps(s)` and `choice` picks
/// among them.
pub open spec fn winner(s: Seq<(Seq<char>, u64)>, choice: nat) -> Seq<char> {
    top_maps(s)[(choice % top_maps(s).len()) as int]
}

/// The symbol of the map at position `i` of the pool.
fn ballot_symbol(i: usize) -> (c: char)
    requires
        i < 26,
    ensures
        c as u32 == FIRST_SYMBOL + i,
{
    char_of_code(FIRST_SYMBOL + i as u32).unwrap()
}

/// The ballot for `pool`: its maps in order, each under its own symbol.
pub fn ballot_for(pool: &MapPool) -> (r: Vec<BallotEntry>)
    requires
        pool.wf(),
    ensures
        is_ballot_for(ballot_view(r@), pool@),
        symbols_distinct(ballot_view(r@)),
{
    let maps = pool.maps();
    let mut r: Vec<BallotEntry> = Vec::new();
    let mut i: usize = 0;
    while i < maps.len()
        invariant
            names_of(maps@) == pool@,
            pool@.len() <= 26,
            i <= maps@.len(),
            r@.len() == i,
            forall|k: int|
                0 <= k < i ==> #[trigger] r@[k].map@ == pool@[k] && r@[k].symbol as u32
                    == FIRST_SYMBOL + k,
        decreases maps@.len() - i,
    {
        assert(names_of(maps@)[i as int] == maps@[i as int]@);
        let entry = BallotEntry { symbol: ballot_symbol(i), map: maps[i].clone() };
        r.push(entry);
        i = i + 1;
    }
    proof {
        let b = ballot_view(r@);
        assert forall|k: int| 0 <= k < b.len() implies #[trigger] b[k].1 == pool@[k] && b[k].0 as u32
            == FIRST_SYMBOL + k by {
            assert(r@[k].map@ == pool@[k]);
        }
        assert forall|a: int, c: int|
            0 <= a < b.len() && 0 <= c < b.len() && a != c implies b[a].0 != b[c].0 by {
            assert(b[a].1 == pool@[a]);
            assert(b[c].1 == pool@[c]);
        }
    }
    r
}

/// The line of the ballot whose symbol is `emoji`, if any.
fn symbol_position(ballot: &Vec<BallotEntry>, emoji: &String) -> (r: Option<usize>)
    requires
        symbols_distinct(ballot_view(ballot@)),
    ensures
        match r {
            Some(j) => j as int == symbol_index(ballot_view(ballot@), emoji@) && j < ballot@.len(),
            None => symbol_index(ballot_view(ballot@), emoji@) == -1,
        },
{
    let ghost b = ballot_view(ballot@);
    let text = emoji.as_str();
    if text.unicode_len() != 1 {
        proof {
            if exists|j: int| 0 <= j < b.len() && emoji@ == seq![b[j].0] {
                let j = choose|j: int| 0 <= j < b.len() && emoji@ == seq![b[j].0];
                assert(emoji@.len() == 1);
            }
        }
        return None;
    }
    let c = text.get_char(0);
    let mut j: usize = 0;
    while j < ballot.len()
        invariant
            b == ballot_view(ballot@),
            symbols_distinct(b),
            emoji@.len() == 1,
            emoji@[0] == c,
            j <= ballot@.len(),
            forall|k: int| 0 <= k < j ==> b[k].0 != c,
        decreases ballot@.len() - j,
    {
        if ballot[j].symbol == c {
            proof {
                assert(emoji@ =~= seq![b[j as int].0]);
                let k = symbol_index(b, emoji@);
                assert(emoji@ == seq![b[k].0]);
                assert(emoji@[0] == b[k].0);
                assert(b[j as int].0 == c);
                if k != j as int {
                    assert(b[k].0 != b[j as int].0);
                }
            }
            return Some(j);
        }
        j = j + 1;
    }
    proof {
        if exists|k: int| 0 <= k < b.len() && emoji@ == seq![b[k].0] {
            let k = choose|k: int| 0 <= k < b.len() && emoji@ == seq![b[k].0];
            assert(emoji@[0] == b[k].0);
        }
    }
    None
}

/// The reactions that are ballot symbols, in order, each read as its map.
pub fn tally(ballot: &Vec<BallotEntry>, reactions: &Vec<Reaction>) -> (r: Vec<MapCount>)
    requires
        symbols_distinct(ballot_view(ballot@)),
    ensures
        counts_view(r@) == tally_of(ballot_view(ballot@), reactions_view(reactions@)),
{
    let ghost b = ballot_view(ballot@);
    let ghost rs = reactions_view(reactions@);
    let mut r: Vec<MapCount> = Vec::new();
    let mut i: usize = 0;
    while i < reactions.len()
        invariant
            b == ballot_view(ballot@),
            rs == reactions_view(reactions@),
            symbols_distinct(b),
            i <= reactions@.len(),
            counts_view(r@) == tally_of(b, rs.take(i as int)),
        decreases reactions@.len() - i,
    {
        let ghost before = r@;
        assert(rs.take(i + 1).drop_last() =~= rs.take(i as int));
        assert(rs.take(i + 1).last() == rs[i as int]);
        match symbol_position(ballot, &reactions[i].emoji) {
            Some(j) => {
                r.push(MapCount { map: ballot[j].map.clone(), count: reactions[i].count });
                assert(counts_view(r@) =~= counts_view(before).push((b[j as int].1, rs[i as int].1)));
            },
            None => {},
        }
        i = i + 1;
    }
    assert(rs.take(reactions@.len() as int) =~= rs);
    r
}

proof fn lemma_max_count(s: Seq<(Seq<char>, u64)>)
    ensures
        forall|i: int| 0 <= i < s.len() ==> s[i].1 <= max_count(s),
        s.len() > 0 ==> exists|i: int| 0 <= i < s.len() && s[i].1 == max_count(s),
    decreases s.len(),
{
    if s.len() > 0 {
        let p = s.drop_last();
        lemma_max_count(p);
        assert forall|i: int| 0 <= i < s.len() implies s[i].1 <= max_count(s) by {
            if i < p.len() {
                assert(s[i] == p[i]);
            }
        }
        if s.last().1 > max_count(p) || p.len() == 0 {
            assert(s[s.len() - 1].1 == max_count(s));
        } else {
            let i = choose|i: int| 0 <= i < p.len() && p[i].1 == max_count(p);
            assert(s[i] == p[i]);
        }
    }
}

proof fn lemma_maps_with_count(s: Seq<(Seq<char>, u64)>, m: u64)
    ensures
        forall|k: int|
            0 <= k < maps_with_count(s, m).len() ==> exists|i: int|
                0 <= i < s.len() && s[i].0 == #[trigger] maps_with_count(s, m)[k] && s[i].1 == m,
        (exists|i: int| 0 <= i < s.len() && s[i].1 == m) ==> maps_with_count(s, m).len() > 0,
        forall|i: int|
            0 <= i < s.len() && s[i].1 == m && (forall|j: int|
                0 <= j < s.len() && j != i ==> s[j].1 != m) ==> maps_with_count(s, m) == seq![
                s[i].0,
            ],
    decreases s.len(),
{
    if s.len() > 0 {
        let p = s.drop_last();
        lemma_maps_with_count(p, m);
        let w = maps_with_count(s, m);
        let wp = maps_with_count(p, m);
        assert forall|k: int| 0 <= k < w.len() implies exists|i: int|
            0 <= i < s.len() && s[i].0 == #[trigger] w[k] && s[i].1 == m by {
            if k < wp.len() {
                let i = choose|i: int| 0 <= i < p.len() && p[i].0 == wp[k] && p[i].1 == m;
                assert(s[i] == p[i]);
            } else {
                assert(s[s.len() - 1].0 == w[k]);
            }
        }
        if exists|i: int| 0 <= i < s.len() && s[i].1 == m {
            let i = choose|i: int| 0 <= i < s.len() && s[i].1 == m;
            if i < p.len() {
                assert(p[i] == s[i]);
            }
        }
        assert forall|i: int|
            0 <= i < s.len() && s[i].1 == m && (forall|j: int|
                0 <= j < s.len() && j != i ==> s[j].1 != m) implies w == seq![s[i].0] by {
            if i < p.len() {
                assert(p[i] == s[i]);
                assert forall|j: int| 0 <= j < p.len() && j != i implies p[j].1 != m by {
                    assert(p[j] == s[j]);
                }
                assert(s[s.len() - 1].1 != m);
            } else {
                if wp.len() > 0 {
                    let j = choose|j: int| 0 <= j < p.len() && p[j].0 == wp[0] && p[j].1 == m;
                    assert(s[j] == p[j]);
                }
                assert(w =~= seq![s[i].0]);
            }
        }
    }
}

/// Whatever the choice among tied maps, the winner is a map whose count is
/// the largest; and when one map alone has the largest count, it wins.
pub proof fn lemma_winner_has_top_count(s: Seq<(Seq<char>, u64)>, choice: nat)
    requires
        s.len() > 0,
    ensures
        top_maps(s).len() > 0,
        exists|i: int|
            0 <= i < s.len() && s[i].0 == winner(s, choice) && s[i].1 == max_count(s),
        forall|i: int| 0 <= i < s.len() ==> s[i].1 <= max_count(s),
        forall|i: int|
            0 <= i < s.len() && (forall|j: int| 0 <= j < s.len() && j != i ==> s[j].1 < s[i].1)
                ==> winner(s, choice) == s[i].0,
{
    lemma_max_count(s);
    lemma_maps_with_count(s, max_count(s));
    let t = top_maps(s);
    let k = (choice % t.len()) as int;
    assert(0 <= k < t.len());
    assert(t[k] == winner(s, choice));
    assert forall|i: int|
        0 <= i < s.len() && (forall|j: int| 0 <= j < s.len() && j != i ==> s[j].1 < s[i].1)
            implies winner(s, choice) == s[i].0 by {
        let w = choose|w: int| 0 <= w < s.len() && s[w].1 == max_count(s);
        if w != i {
            assert(s[w].1 < s[i].1);
        }
        assert forall|j: int| 0 <= j < s.len() && j != i implies s[j].1 != max_count(s) by {
            assert(s[j].1 < s[i].1);
        }
        assert(t == seq![s[i].0]);
    }
}

/// The maps tied at the largest count, in order.
pub fn top_maps_of(counts: &Vec<MapCount>) -> (r: Vec<String>)
    ensures
        names_of(r@) == top_maps(counts_view(counts@)),
{
    let ghost s = counts_view(counts@);
    let mut m: u64 = 0;
    let mut i: usize = 0;
    while i < counts.len()
        invariant
            s == counts_view(counts@),
            i <= counts@.len(),
            m == max_count(s.take(i as int)),
        decreases counts@.len() - i,
    {
        assert(s.take(i + 1).drop_last() =~= s.take(i as int));
        if counts[i].count > m {
            m = counts[i].count;
        }
        i = i + 1;
    }
    assert(s.take(counts@.len() as int) =~= s);
    let mut r: Vec<String> = Vec::new();
    let mut i: usize = 0;
    while i < counts.len()
        invariant
            s == counts_view(counts@),
            i <= counts@.len(),
            m == max_count(s),
            names_of(r@) == maps_with_count(s.take(i as int), m),
        decreases counts@.len() - i,
    {
        assert(s.take(i + 1).drop_last() =~= s.take(i as int));
        let ghost before = r@;
        if counts[i].count == m {
            r.push(counts[i].map.clone());
            assert(names_of(r@) =~= names_of(before).push(s[i as int].0));
        }
        i = i + 1;
    }
    assert(s.take(counts@.len() as int) =~= s);
    r
}

/// The winner of the vote when `choice` picks among the tied maps; `None`
/// when no map received a reaction.
pub fn choose_winner(counts: &Vec<MapCount>, choice: usize) -> (r: Option<String>)
    ensures
        r is None <==> counts@.len() == 0,
        r matches Some(m) ==> m@ == winner(counts_view(counts@), choice as nat),
{
    let top = top_maps_of(counts);
    if top.len() == 0 {
        proof {
            if counts@.len() > 0 {
                lemma_winner_has_top_count(counts_view(counts@), 0);
            }
        }
        return None;
    }
    proof {
        assert(names_of(top@).len() == top@.len());
        assert(counts_view(counts@).len() == counts@.len());
        if counts@.len() == 0 {
            assert(maps_with_count(counts_view(counts@), max_count(counts_view(counts@))).len()
                == 0);
        }
    }
    let k = choice % top.len();
    assert(names_of(top@)[k as int] == top@[k as int]@);
    Some(top[k].clone())
}

/// Result of the vote.
pub struct VoteOutcome {
    /// The map to be played.
    pub map: String,
    /// Whether several maps were tied and the map was drawn among them.
    pub tied: bool,
}

/// Resolves the vote: the single map with the most votes, or one drawn at
/// random among those tied at the most votes; `None` when no map received a
/// reaction.
pub fn resolve_vote(counts: &Vec<MapCount>) -> (r: Option<VoteOutcome>)
    ensures
        r is None <==> counts@.len() == 0,
        r matches Some(o) ==> top_maps(counts_view(counts@)).contains(o.map@) && o.tied == (
        top_maps(counts_view(counts@)).len() > 1),
{
    let top = top_maps_of(counts);
    let n = top.len();
    let choice = if n > 1 {
        random_below(n)
    } else {
        0
    };
    match choose_winner(counts, choice) {
        None => None,
        Some(map) => {
            proof {
                let t = top_maps(counts_view(counts@));
                assert(t.len() == n);
                lemma_winner_has_top_count(counts_view(counts@), choice as nat);
                assert(t[(choice % n) as int] == map@);
            }
            Some(VoteOutcome { map, tied: n > 1 })
        },
    }
}

} // verus!
