//! Ranks for reciprocal rank fusion, and the byte layout of stored embeddings.

use std::collections::HashMap;
use vstd::prelude::*;

verus! {

broadcast use vstd::std_specs::hash::group_hash_axioms;

/// `ranks` gives each id of `ids` one plus the position of its first occurrence,
/// and nothing else.
pub open spec fn first_ranks(ids: Seq<i64>, ranks: Map<i64, usize>) -> bool {
    &&& forall|id: i64| #[trigger] ranks.contains_key(id) <==> ids.contains(id)
    &&& forall|id: i64|
        #[trigger] ranks.contains_key(id) ==> {
            &&& 1 <= ranks[id] <= ids.len()
            &&& ids[ranks[id] - 1] == id
            &&& forall|j: int| 0 <= j < ranks[id] - 1 ==> ids[j] != id
        }
}

/// Ranks from a list ordered best first: the first occurrence of an id is its rank
/// (1, 2, 3, …); later occurrences are ignored.
pub fn ranks_from_ordered_ids(ids: &[i64]) -> (r: HashMap<i64, usize>)
    ensures
        first_ranks(ids@, r@),
{
    let mut map: HashMap<i64, usize> = HashMap::new();
    let mut i: usize = 0;
    while i < ids.len()
        invariant
            i <= ids.len(),
            first_ranks(ids@.take(i as int), map@),
        decreases ids.len() - i,
    {
        let id = ids[i];
        let ghost pre = ids@.take(i as int);
        let ghost nxt = ids@.take(i + 1);
        assert(nxt =~= pre.push(id));
        if !map.contains_key(&id) {
            map.insert(id, i + 1);
            assert forall|x: i64| #[trigger] map@.contains_key(x) implies {
                &&& 1 <= map@[x] <= nxt.len()
                &&& nxt[map@[x] - 1] == x
                &&& forall|j: int| 0 <= j < map@[x] - 1 ==> nxt[j] != x
            } by {
                if x != id {
                    assert(pre.contains(x));
                } else {
                    assert(!pre.contains(id));
                    assert forall|j: int| 0 <= j < map@[x] - 1 implies nxt[j] != x by {
                        if nxt[j] == x {
                            assert(pre[j] == x);
                        }
                    }
                }
            }
            assert forall|x: i64| nxt.contains(x) implies #[trigger] map@.contains_key(x) by {
                if nxt.contains(x) && x != id {
                    let j = choose|j: int| 0 <= j < nxt.len() && nxt[j] == x;
                    assert(pre[j] == x);
                }
            }
        } else {
            assert forall|x: i64| nxt.contains(x) implies #[trigger] map@.contains_key(x) by {
                if nxt.contains(x) && x != id {
                    let j = choose|j: int| 0 <= j < nxt.len() && nxt[j] == x;
                    assert(pre[j] == x);
                }
            }
        }
        i += 1;
    }
    assert(ids@.take(ids.len() as int) =~= ids@);
    map
}

/// The first id of the list has rank 1.
pub proof fn law_first_id_ranks_first(ids: Seq<i64>, ranks: Map<i64, usize>)
    requires
        first_ranks(ids, ranks),
        ids.len() > 0,
    ensures
        ranks.contains_key(ids[0]) && ranks[ids[0]] == 1,
{
    assert(ids.contains(ids[0]));
    assert(ranks.contains_key(ids[0]));
    let r = ranks[ids[0]];
    assert(forall|j: int| 0 <= j < r - 1 ==> #[trigger] ids[j] != ids[0]);
    if r > 1 {
        assert(ids[0] != ids[0]);
    }
}

/// Different ids get different ranks, and an earlier first occurrence a smaller rank.
pub proof fn law_ranks_follow_order(ids: Seq<i64>, ranks: Map<i64, usize>, i: int, j: int)
    requires
        first_ranks(ids, ranks),
        0 <= i < j < ids.len(),
        forall|k: int| 0 <= k < j ==> ids[k] != ids[j],
    ensures
        ranks[ids[i]] < ranks[ids[j]],
{
    assert(ids.contains(ids[i]));
    assert(ids.contains(ids[j]));
    assert(ranks.contains_key(ids[i]));
    assert(ranks.contains_key(ids[j]));
    let ri = ranks[ids[i]];
    let rj = ranks[ids[j]];
    assert(forall|k: int| 0 <= k < ri - 1 ==> ids[k] != ids[i]);
    assert(ids[rj - 1] == ids[j]);
    if ri - 1 > i {
        assert(ids[i] != ids[i]);
    }
    if rj - 1 < j {
        assert(ids[rj - 1] != ids[j]);
    }
}

/// The little-endian `u32` made of four bytes.
pub open spec fn le_word(b0: u8, b1: u8, b2: u8, b3: u8) -> u32 {
    (b0 + 0x100 * b1 + 0x1_0000 * b2 + 0x100_0000 * b3) as u32
}

/// The words of a blob of at least one complete 4-byte word, with nothing left over.
pub open spec fn blob_words(blob: Seq<u8>) -> Option<Seq<u32>> {
    if blob.len() < 4 || blob.len() % 4 != 0 {
        None
    } else {
        Some(
            Seq::new(
                blob.len() / 4,
                |k: int| le_word(blob[4 * k], blob[4 * k + 1], blob[4 * k + 2], blob[4 * k + 3]),
            ),
        )
    }
}

/// Splits a stored embedding into its little-endian 32-bit words (the bit patterns
/// of its `f32` components); `None` for a blob shorter than one word or of a length
/// that is not a multiple of four.
pub fn blob_to_le_words(blob: &[u8]) -> (r: Option<Vec<u32>>)
    ensures
        match r {
            Some(v) => blob_words(blob@) == Some(v@),
            None => blob_words(blob@) is None,
        },
{
    if blob.len() < 4 || blob.len() % 4 != 0 {
        return None;
    }
    let n = blob.len() / 4;
    let mut v: Vec<u32> = Vec::new();
    let mut k: usize = 0;
    while k < n
        invariant
            k <= n,
            n == blob.len() / 4,
            blob.len() % 4 == 0,
            v@.len() == k,
            forall|m: int|
                0 <= m < k ==> #[trigger] v@[m] == le_word(
                    blob@[4 * m],
                    blob@[4 * m + 1],
                    blob@[4 * m + 2],
                    blob@[4 * m + 3],
                ),
        decreases n - k,
    {
        let b0 = blob[4 * k] as u32;
        let b1 = blob[4 * k + 1] as u32;
        let b2 = blob[4 * k + 2] as u32;
        let b3 = blob[4 * k + 3] as u32;
        let w = b0 + 0x100 * b1 + 0x1_0000 * b2 + 0x100_0000 * b3;
        v.push(w);
        k += 1;
    }
    assert(v@ =~= blob_words(blob@)->0);
    Some(v)
}

/// Byte `j` (0 to 3, least significant first) of `w`.
pub open spec fn le_byte(w: u32, j: int) -> u8 {
    if j == 0 {
        (w & 0xff) as u8
    } else if j == 1 {
        ((w >> 8u32) & 0xff) as u8
    } else if j == 2 {
        ((w >> 16u32) & 0xff) as u8
    } else {
        ((w >> 24u32) & 0xff) as u8
    }
}

/// The little-endian bytes of `words`, four per word, in order.
pub open spec fn le_bytes(words: Seq<u32>) -> Seq<u8> {
    Seq::new(4 * words.len(), |i: int| le_byte(words[i / 4], i % 4))
}

proof fn lemma_le_word_of_bytes(w: u32)
    ensures
        le_word(le_byte(w, 0), le_byte(w, 1), le_byte(w, 2), le_byte(w, 3)) == w,
{
    let b0 = (w & 0xff) as u8;
    let b1 = ((w >> 8u32) & 0xff) as u8;
    let b2 = ((w >> 16u32) & 0xff) as u8;
    let b3 = ((w >> 24u32) & 0xff) as u8;
    assert((b0 + 0x100 * b1 + 0x1_0000 * b2 + 0x100_0000 * b3) as u32 == w) by (bit_vector)
        requires
            b0 == (w & 0xff) as u8,
            b1 == ((w >> 8u32) & 0xff) as u8,
            b2 == ((w >> 16u32) & 0xff) as u8,
            b3 == ((w >> 24u32) & 0xff) as u8,
    ;
}

/// Splitting the little-endian bytes of a non-empty list of words gives the list back.
pub proof fn law_words_round_trip(words: Seq<u32>)
    requires
        words.len() > 0,
    ensures
        blob_words(le_bytes(words)) == Some(words),
{
    let b = le_bytes(words);
    assert(b.len() % 4 == 0) by (nonlinear_arith)
        requires
            b.len() == 4 * words.len(),
    ;
    assert(b.len() / 4 == words.len()) by (nonlinear_arith)
        requires
            b.len() == 4 * words.len(),
    ;
    let got = blob_words(b)->0;
    assert forall|k: int| 0 <= k < words.len() implies #[trigger] got[k] == words[k] by {
        assert((4 * k) / 4 == k && (4 * k) % 4 == 0);
        assert((4 * k + 1) / 4 == k && (4 * k + 1) % 4 == 1);
        assert((4 * k + 2) / 4 == k && (4 * k + 2) % 4 == 2);
        assert((4 * k + 3) / 4 == k && (4 * k + 3) % 4 == 3);
        lemma_le_word_of_bytes(words[k]);
    }
    assert(got =~= words);
}

/// The session and summary of the last row with `id` (later rows win, as when the
/// rows are collected into a map).
pub open spec fn memory_row_of(rows: Seq<(i64, String, String)>, id: i64) -> Option<
    (Seq<char>, Seq<char>),
>
    decreases rows.len(),
{
    if rows.len() == 0 {
        None
    } else if rows.last().0 == id {
        Some((rows.last().1@, rows.last().2@))
    } else {
        memory_row_of(rows.drop_last(), id)
    }
}

/// Among the first `n` ranked ids, those that have a row: their position in the
/// ranking, with the row's session and summary, in order.
pub open spec fn memory_hits(ids: Seq<i64>, rows: Seq<(i64, String, String)>, n: int) -> Seq<
    (int, Seq<char>, Seq<char>),
>
    decreases n,
{
    if n <= 0 {
        seq![]
    } else {
        let r = memory_hits(ids, rows, n - 1);
        match memory_row_of(rows, ids[n - 1]) {
            Some(m) => r.push((n - 1, m.0, m.1)),
            None => r,
        }
    }
}

pub open spec fn hit_view(h: (usize, String, String)) -> (int, Seq<char>, Seq<char>) {
    (h.0 as int, h.1@, h.2@)
}

fn memory_row_lookup(rows: &Vec<(i64, String, String)>, id: i64) -> (r: Option<(String, String)>)
    ensures
        match r {
            Some(m) => memory_row_of(rows@, id) == Some((m.0@, m.1@)),
            None => memory_row_of(rows@, id) is None,
        },
{
    let mut j = rows.len();
    assert(rows@.take(rows.len() as int) =~= rows@);
    while j > 0
        invariant
            j <= rows.len(),
            memory_row_of(rows@, id) == memory_row_of(rows@.take(j as int), id),
        decreases j,
    {
        assert(rows@.take(j as int).drop_last() =~= rows@.take(j - 1));
        assert(rows@.take(j as int).last() == rows@[j - 1]);
        if rows[j - 1].0 == id {
            return Some((rows[j - 1].1.clone(), rows[j - 1].2.clone()));
        }
        j -= 1;
    }
    None
}

/// The memories found for the best `limit` ranked ids: the position of each in
/// the ranking (to find its score), its session and its summary; ids without a row
/// are passed over.
pub fn memory_hits_of(ids: &Vec<i64>, rows: &Vec<(i64, String, String)>, limit: usize) -> (r: Vec<
    (usize, String, String),
>)
    ensures
        r@.map_values(|h: (usize, String, String)| hit_view(h)) == memory_hits(
            ids@,
            rows@,
            if limit < ids.len() {
                limit as int
            } else {
                ids.len() as int
            },
        ),
{
    let n = if limit < ids.len() {
        limit
    } else {
        ids.len()
    };
    let mut out: Vec<(usize, String, String)> = Vec::new();
    let mut i: usize = 0;
    while i < n
        invariant
            i <= n <= ids.len(),
            out@.map_values(|h: (usize, String, String)| hit_view(h)) == memory_hits(
                ids@,
                rows@,
                i as int,
            ),
        decreases n - i,
    {
        let ghost before = out@;
        match memory_row_lookup(rows, ids[i]) {
            Some((sid, summary)) => {
                out.push((i, sid, summary));
                assert(out@.map_values(|h: (usize, String, String)| hit_view(h)) =~= before.map_values(
                    |h: (usize, String, String)| hit_view(h),
                ).push(hit_view(out@.last())));
            },
            None => {},
        }
        i += 1;
    }
    out
}

} // verus!
