//! Character-level text model: whitespace, trimming, searching and UTF-8
//! byte offsets over `Seq<char>`, the view of `str` and `String`.

use vstd::prelude::*;
use vstd::utf8::*;

verus! {

/// `char::is_whitespace`: the Unicode `White_Space` property.
pub open spec fn is_ws(c: char) -> bool {
    let u = c as u32;
    ||| 0x09 <= u <= 0x0D
    ||| u == 0x20
    ||| u == 0x85
    ||| u == 0xA0
    ||| u == 0x1680
    ||| 0x2000 <= u <= 0x200A
    ||| u == 0x2028
    ||| u == 0x2029
    ||| u == 0x202F
    ||| u == 0x205F
    ||| u == 0x3000
}

pub fn is_whitespace(c: char) -> (r: bool)
    ensures
        r == is_ws(c),
{
    let u = c as u32;
    (0x09 <= u && u <= 0x0D) || u == 0x20 || u == 0x85 || u == 0xA0 || u == 0x1680 || (0x2000
        <= u && u <= 0x200A) || u == 0x2028 || u == 0x2029 || u == 0x202F || u == 0x205F || u
        == 0x3000
}

/// Number of bytes in the UTF-8 encoding of `c` (`char::len_utf8`).
pub open spec fn ulen(c: char) -> nat {
    let u = c as u32;
    if u < 0x80 {
        1
    } else if u < 0x800 {
        2
    } else if u < 0x10000 {
        3
    } else {
        4
    }
}

pub fn char_len_utf8(c: char) -> (r: usize)
    ensures
        r == ulen(c),
{
    let u = c as u32;
    if u < 0x80 {
        1
    } else if u < 0x800 {
        2
    } else if u < 0x10000 {
        3
    } else {
        4
    }
}

/// The characters of a string slice, in order.
pub fn to_chars(s: &str) -> (v: Vec<char>)
    ensures
        v@ == s@,
{
    let mut v: Vec<char> = Vec::new();
    for c in it: s.chars()
        invariant
            v@ == it.seq().take(it.index()),
    {
        v.push(c);
    }
    v
}


/// `String::push`: appends one character.
#[verifier::external_body]
pub(crate) fn push_char(s: &mut String, c: char)
    ensures
        final(s)@ == old(s)@.push(c),
{
    s.push(c);
}

/// The string made of the characters `v[from..to]`.
pub fn string_from_chars(v: &Vec<char>, from: usize, to: usize) -> (r: String)
    requires
        from <= to <= v.len(),
    ensures
        r@ == v@.subrange(from as int, to as int),
{
    let mut r = String::new();
    let mut i = from;
    while i < to
        invariant
            from <= i <= to <= v.len(),
            r@ == v@.subrange(from as int, i as int),
        decreases to - i,
    {
        push_char(&mut r, v[i]);
        i += 1;
        assert(r@ =~= v@.subrange(from as int, i as int));
    }
    r
}

/// Number of leading whitespace characters.
pub open spec fn lead_ws(s: Seq<char>) -> nat
    decreases s.len(),
{
    if s.len() > 0 && is_ws(s[0]) {
        1 + lead_ws(s.drop_first())
    } else {
        0
    }
}

/// Number of trailing whitespace characters.
pub open spec fn trail_ws(s: Seq<char>) -> nat
    decreases s.len(),
{
    if s.len() > 0 && is_ws(s.last()) {
        1 + trail_ws(s.drop_last())
    } else {
        0
    }
}

/// `str::trim`: the string without its leading and trailing whitespace.
pub open spec fn trim(s: Seq<char>) -> Seq<char> {
    let t = s.skip(lead_ws(s) as int);
    t.take(t.len() - trail_ws(t))
}

pub proof fn lemma_lead_ws_bound(s: Seq<char>)
    ensures
        lead_ws(s) <= s.len(),
        forall|j: int| 0 <= j < lead_ws(s) ==> is_ws(#[trigger] s[j]),
        lead_ws(s) < s.len() ==> !is_ws(s[lead_ws(s) as int]),
    decreases s.len(),
{
    if s.len() > 0 && is_ws(s[0]) {
        lemma_lead_ws_bound(s.drop_first());
        assert forall|j: int| 0 <= j < lead_ws(s) implies is_ws(#[trigger] s[j]) by {
            if j > 0 {
                assert(s[j] == s.drop_first()[j - 1]);
            }
        }
    }
}

pub proof fn lemma_trail_ws_bound(s: Seq<char>)
    ensures
        trail_ws(s) <= s.len(),
        forall|j: int| s.len() - trail_ws(s) <= j < s.len() ==> is_ws(#[trigger] s[j]),
        trail_ws(s) < s.len() ==> !is_ws(s[s.len() - trail_ws(s) - 1]),
    decreases s.len(),
{
    if s.len() > 0 && is_ws(s.last()) {
        lemma_trail_ws_bound(s.drop_last());
        assert forall|j: int| s.len() - trail_ws(s) <= j < s.len() implies is_ws(
            #[trigger] s[j],
        ) by {
            if j < s.len() - 1 {
                assert(s[j] == s.drop_last()[j]);
            }
        }
    }
}

/// `lead_ws` is the position of the first non-whitespace character.
pub proof fn lemma_lead_ws_unique(s: Seq<char>, k: int)
    requires
        0 <= k <= s.len(),
        forall|j: int| 0 <= j < k ==> is_ws(#[trigger] s[j]),
        k < s.len() ==> !is_ws(s[k]),
    ensures
        lead_ws(s) == k,
    decreases s.len(),
{
    if k > 0 {
        assert(is_ws(s[0]));
        assert forall|j: int| 0 <= j < k - 1 implies is_ws(#[trigger] s.drop_first()[j]) by {
            assert(s.drop_first()[j] == s[j + 1]);
        }
        lemma_lead_ws_unique(s.drop_first(), k - 1);
    }
}

/// `trail_ws` is the number of characters after the last non-whitespace one.
pub proof fn lemma_trail_ws_unique(s: Seq<char>, k: int)
    requires
        0 <= k <= s.len(),
        forall|j: int| s.len() - k <= j < s.len() ==> is_ws(#[trigger] s[j]),
        k < s.len() ==> !is_ws(s[s.len() - k - 1]),
    ensures
        trail_ws(s) == k,
    decreases s.len(),
{
    if k > 0 {
        assert(is_ws(s[s.len() - 1]));
        assert forall|j: int| s.len() - 1 - (k - 1) <= j < s.len() - 1 implies is_ws(
            #[trigger] s.drop_last()[j],
        ) by {
            assert(s.drop_last()[j] == s[j]);
        }
        lemma_trail_ws_unique(s.drop_last(), k - 1);
    }
}

/// Bounds `(a, b)` such that `trim(v[from..to]) == v[a..b]`.
pub fn trim_bounds(v: &Vec<char>, from: usize, to: usize) -> (r: (usize, usize))
    requires
        from <= to <= v.len(),
    ensures
        from <= r.0 <= r.1 <= to,
        v@.subrange(r.0 as int, r.1 as int) == trim(v@.subrange(from as int, to as int)),
{
    let ghost s = v@.subrange(from as int, to as int);
    let mut a = from;
    while a < to && is_whitespace(v[a])
        invariant
            from <= a <= to <= v.len(),
            forall|j: int| from <= j < a ==> is_ws(#[trigger] v@[j]),
        decreases to - a,
    {
        a += 1;
    }
    proof {
        assert forall|j: int| 0 <= j < a - from implies is_ws(#[trigger] s[j]) by {
            assert(s[j] == v@[j + from]);
        }
        if a < to {
            assert(s[a - from] == v@[a as int]);
        }
        lemma_lead_ws_unique(s, a - from);
    }
    let ghost t = s.skip(a - from);
    assert(t =~= v@.subrange(a as int, to as int));
    let mut b = to;
    while b > a && is_whitespace(v[b - 1])
        invariant
            from <= a <= b <= to <= v.len(),
            forall|j: int| b <= j < to ==> is_ws(#[trigger] v@[j]),
        decreases b - a,
    {
        b -= 1;
    }
    proof {
        assert forall|j: int| t.len() - (to - b) <= j < t.len() implies is_ws(#[trigger] t[j]) by {
            assert(t[j] == v@[j + a]);
        }
        if b > a {
            assert(t[t.len() - (to - b) - 1] == v@[b - 1]);
        }
        lemma_trail_ws_unique(t, to - b);
        assert(t.take(t.len() - trail_ws(t)) =~= v@.subrange(a as int, b as int));
    }
    (a, b)
}


/// `needle` occurs in `hay` at position `i`.
pub open spec fn matches_at(hay: Seq<char>, needle: Seq<char>, i: int) -> bool {
    0 <= i && i + needle.len() <= hay.len() && hay.subrange(i, i + needle.len()) == needle
}

/// First position at or after `i` where `needle` occurs in `hay`.
pub open spec fn find_from(hay: Seq<char>, needle: Seq<char>, i: int) -> Option<int>
    decreases hay.len() + 1 - i,
{
    if i < 0 || i + needle.len() > hay.len() {
        None
    } else if matches_at(hay, needle, i) {
        Some(i)
    } else {
        find_from(hay, needle, i + 1)
    }
}

/// `str::find` with a string pattern, as a character index.
pub open spec fn find(hay: Seq<char>, needle: Seq<char>) -> Option<int> {
    find_from(hay, needle, 0)
}

pub proof fn lemma_find_from_skip(hay: Seq<char>, needle: Seq<char>, k: int, i: int)
    requires
        0 <= k <= i,
        forall|j: int| k <= j < i ==> !matches_at(hay, needle, j),
        i + needle.len() <= hay.len() + 1,
    ensures
        find_from(hay, needle, k) == find_from(hay, needle, i),
    decreases i - k,
{
    if k < i {
        assert(!matches_at(hay, needle, k));
        lemma_find_from_skip(hay, needle, k + 1, i);
    }
}

pub proof fn lemma_find_from_result(hay: Seq<char>, needle: Seq<char>, i: int)
    requires
        0 <= i,
    ensures
        find_from(hay, needle, i) matches Some(j) ==> i <= j && matches_at(hay, needle, j) && (
        forall|m: int| i <= m < j ==> !matches_at(hay, needle, m)),
        find_from(hay, needle, i) is None ==> forall|m: int|
            i <= m ==> !matches_at(hay, needle, m),
    decreases hay.len() + 1 - i,
{
    if i + needle.len() > hay.len() {
    } else if matches_at(hay, needle, i) {
    } else {
        lemma_find_from_result(hay, needle, i + 1);
    }
}

/// Whether `needle` occurs in `hay` at position `i` (`i + needle.len() <= hay.len()`).
fn matches_here(hay: &Vec<char>, needle: &Vec<char>, i: usize) -> (r: bool)
    requires
        i + needle.len() <= hay.len(),
    ensures
        r == matches_at(hay@, needle@, i as int),
{
    let mut j: usize = 0;
    while j < needle.len()
        invariant
            j <= needle.len(),
            i + needle.len() <= hay.len(),
            forall|m: int| 0 <= m < j ==> hay@[i + m] == needle@[m],
        decreases needle.len() - j,
    {
        if hay[i + j] != needle[j] {
            assert(hay@.subrange(i as int, i + needle.len())[j as int] != needle@[j as int]);
            return false;
        }
        j += 1;
    }
    assert(hay@.subrange(i as int, i + needle.len()) =~= needle@);
    true
}

/// First character index at which `needle` occurs in `hay`.
pub fn find_chars(hay: &Vec<char>, needle: &Vec<char>) -> (r: Option<usize>)
    ensures
        r matches Some(i) ==> find(hay@, needle@) == Some(i as int),
        r is None ==> find(hay@, needle@) is None,
{
    if needle.len() > hay.len() {
        return None;
    }
    if needle.len() == 0 {
        assert(hay@.subrange(0, 0) =~= needle@);
        return Some(0);
    }
    let last = hay.len() - needle.len();
    let mut i: usize = 0;
    while i <= last
        invariant
            last + needle.len() == hay.len(),
            needle.len() > 0,
            i <= last + 1,
            forall|j: int| 0 <= j < i ==> !matches_at(hay@, needle@, j),
        decreases last + 1 - i,
    {
        if matches_here(hay, needle, i) {
            proof {
                lemma_find_from_skip(hay@, needle@, 0, i as int);
            }
            return Some(i);
        }
        i += 1;
    }
    proof {
        lemma_find_from_skip(hay@, needle@, 0, i as int);
    }
    None
}

/// Number of bytes in the UTF-8 encoding of `s`.
pub open spec fn blen(s: Seq<char>) -> nat
    decreases s.len(),
{
    if s.len() == 0 {
        0
    } else {
        blen(s.drop_last()) + ulen(s.last())
    }
}

/// Byte offset of character index `k` of `s`.
pub open spec fn boff(s: Seq<char>, k: int) -> nat {
    blen(s.take(k))
}

pub proof fn lemma_blen_concat(a: Seq<char>, b: Seq<char>)
    ensures
        blen(a + b) == blen(a) + blen(b),
    decreases b.len(),
{
    if b.len() > 0 {
        assert((a + b).drop_last() =~= a + b.drop_last());
        lemma_blen_concat(a, b.drop_last());
    } else {
        assert(a + b =~= a);
    }
}

/// Byte offsets grow strictly with the character index.
pub proof fn lemma_boff_mono(s: Seq<char>, i: int, j: int)
    requires
        0 <= i <= j <= s.len(),
    ensures
        boff(s, i) + (j - i) <= boff(s, j),
        boff(s, j) <= boff(s, i) + 4 * (j - i),
        boff(s, j) == boff(s, i) + blen(s.subrange(i, j)),
{
    assert(s.take(j) =~= s.take(i) + s.subrange(i, j));
    lemma_blen_concat(s.take(i), s.subrange(i, j));
    lemma_blen_bounds(s.subrange(i, j));
}

pub proof fn lemma_blen_bounds(s: Seq<char>)
    ensures
        s.len() <= blen(s) <= 4 * s.len(),
    decreases s.len(),
{
    if s.len() > 0 {
        lemma_blen_bounds(s.drop_last());
    }
}

/// The byte offsets of all character positions: `r[k] == boff(v, k)` for `k <= v.len()`.
pub fn byte_offsets(v: &Vec<char>) -> (r: Vec<usize>)
    requires
        blen(v@) <= usize::MAX,
    ensures
        r.len() == v.len() + 1,
        forall|k: int| 0 <= k <= v.len() ==> #[trigger] r@[k] == boff(v@, k),
{
    let mut r: Vec<usize> = Vec::new();
    r.push(0);
    let mut acc: usize = 0;
    let mut k: usize = 0;
    assert(v@.take(0) =~= Seq::<char>::empty());
    while k < v.len()
        invariant
            k <= v.len(),
            blen(v@) <= usize::MAX,
            r.len() == k + 1,
            acc == boff(v@, k as int),
            forall|m: int| 0 <= m <= k ==> #[trigger] r@[m] == boff(v@, m),
        decreases v.len() - k,
    {
        proof {
            lemma_boff_mono(v@, k + 1, v.len() as int);
            assert(v@.take(v.len() as int) =~= v@);
            assert(v@.take(k + 1).drop_last() =~= v@.take(k as int));
        }
        acc = acc + char_len_utf8(v[k]);
        k += 1;
        r.push(acc);
    }
    r
}


/// A copy of the characters `v[from..to]`.
pub fn sub_chars(v: &Vec<char>, from: usize, to: usize) -> (r: Vec<char>)
    requires
        from <= to <= v.len(),
    ensures
        r@ == v@.subrange(from as int, to as int),
{
    let mut r: Vec<char> = Vec::new();
    let mut i = from;
    while i < to
        invariant
            from <= i <= to <= v.len(),
            r@ == v@.subrange(from as int, i as int),
        decreases to - i,
    {
        r.push(v[i]);
        i += 1;
        assert(r@ =~= v@.subrange(from as int, i as int));
    }
    r
}

/// Distinct character positions have distinct byte offsets.
pub proof fn lemma_boff_strict(s: Seq<char>, i: int, j: int)
    requires
        0 <= i < j <= s.len(),
    ensures
        boff(s, i) < boff(s, j),
{
    lemma_boff_mono(s, i, j);
}

/// Byte offset `b` is the start of a character, or the end of `s`.
pub open spec fn is_boundary(s: Seq<char>, b: int) -> bool {
    exists|k: int| 0 <= k <= s.len() && boff(s, k) == b
}

/// The character position whose byte offset is `b` (when `is_boundary(s, b)`).
pub open spec fn boundary_index(s: Seq<char>, b: int) -> int {
    choose|k: int| 0 <= k <= s.len() && boff(s, k) == b
}

/// The character position at byte offset `b`, if `b` is a character boundary.
pub fn boundary_of(v: &Vec<char>, offs: &Vec<usize>, b: usize) -> (r: Option<usize>)
    requires
        offs.len() == v.len() + 1,
        forall|k: int| 0 <= k <= v.len() ==> #[trigger] offs@[k] == boff(v@, k),
    ensures
        r matches Some(k) ==> is_boundary(v@, b as int) && boundary_index(v@, b as int) == k
            && k <= v.len(),
        r is None ==> !is_boundary(v@, b as int),
{
    let mut k: usize = 0;
    while k < offs.len()
        invariant
            offs.len() == v.len() + 1,
            k <= offs.len(),
            forall|m: int| 0 <= m <= v.len() ==> #[trigger] offs@[m] == boff(v@, m),
            forall|m: int| 0 <= m < k ==> boff(v@, m) != b,
        decreases offs.len() - k,
    {
        if offs[k] == b {
            proof {
                assert(boff(v@, k as int) == b);
                let c = boundary_index(v@, b as int);
                if c < k {
                    lemma_boff_strict(v@, c, k as int);
                } else if c > k {
                    lemma_boff_strict(v@, k as int, c);
                }
            }
            return Some(k);
        }
        k += 1;
    }
    None
}


/// `s.split(sep)`: the pieces of `s` between occurrences of `sep`.
pub open spec fn split_on(s: Seq<char>, sep: char) -> Seq<Seq<char>>
    decreases s.len(),
{
    if s.len() == 0 {
        seq![seq![]]
    } else {
        let r = split_on(s.drop_last(), sep);
        if s.last() == sep {
            r.push(seq![])
        } else {
            r.update(r.len() - 1, r.last().push(s.last()))
        }
    }
}

pub proof fn lemma_split_on_len(s: Seq<char>, sep: char)
    ensures
        split_on(s, sep).len() >= 1,
    decreases s.len(),
{
    if s.len() > 0 {
        lemma_split_on_len(s.drop_last(), sep);
    }
}

/// The pieces of `v` between occurrences of `sep`.
pub fn split_char(v: &Vec<char>, sep: char) -> (r: Vec<Vec<char>>)
    ensures
        r.len() == split_on(v@, sep).len(),
        forall|j: int| 0 <= j < r.len() ==> #[trigger] r@[j]@ == split_on(v@, sep)[j],
{
    let mut out: Vec<Vec<char>> = Vec::new();
    let mut cur: Vec<char> = Vec::new();
    let mut k: usize = 0;
    assert(v@.take(0) =~= Seq::<char>::empty());
    while k < v.len()
        invariant
            k <= v.len(),
            split_on(v@.take(k as int), sep).len() == out.len() + 1,
            forall|j: int|
                0 <= j < out.len() ==> #[trigger] out@[j]@ == split_on(v@.take(k as int), sep)[j],
            cur@ == split_on(v@.take(k as int), sep).last(),
        decreases v.len() - k,
    {
        assert(v@.take(k + 1).drop_last() =~= v@.take(k as int));
        assert(v@.take(k + 1).last() == v@[k as int]);
        if v[k] == sep {
            out.push(cur);
            cur = Vec::new();
        } else {
            cur.push(v[k]);
        }
        k += 1;
    }
    assert(v@.take(v.len() as int) =~= v@);
    out.push(cur);
    out
}


/// Whether two character sequences are equal.
pub fn chars_eq(a: &Vec<char>, b: &Vec<char>) -> (r: bool)
    ensures
        r == (a@ == b@),
{
    if a.len() != b.len() {
        return false;
    }
    let mut i: usize = 0;
    while i < a.len()
        invariant
            a.len() == b.len(),
            i <= a.len(),
            forall|j: int| 0 <= j < i ==> a@[j] == b@[j],
        decreases a.len() - i,
    {
        if a[i] != b[i] {
            return false;
        }
        i += 1;
    }
    assert(a@ =~= b@);
    true
}

/// `s` begins with `p`.
pub open spec fn starts_with(s: Seq<char>, p: Seq<char>) -> bool {
    p.len() <= s.len() && s.take(p.len() as int) == p
}

pub fn has_prefix(v: &Vec<char>, p: &Vec<char>) -> (r: bool)
    ensures
        r == starts_with(v@, p@),
{
    if p.len() > v.len() {
        return false;
    }
    let mut i: usize = 0;
    while i < p.len()
        invariant
            p.len() <= v.len(),
            i <= p.len(),
            forall|j: int| 0 <= j < i ==> v@[j] == p@[j],
        decreases p.len() - i,
    {
        if v[i] != p[i] {
            assert(v@.take(p.len() as int)[i as int] != p@[i as int]);
            return false;
        }
        i += 1;
    }
    assert(v@.take(p.len() as int) =~= p@);
    true
}

/// `p` without a final `'\r'`.
pub open spec fn strip_cr(p: Seq<char>) -> Seq<char> {
    if p.len() > 0 && p.last() == '\r' {
        p.drop_last()
    } else {
        p
    }
}

/// `str::lines`: pieces ended by `'\n'` lose it and a `'\r'` before it; a last
/// piece without `'\n'` is kept as is unless it is empty.
pub open spec fn str_lines(s: Seq<char>) -> Seq<Seq<char>> {
    let p = split_on(s, '\n');
    let init = Seq::new((p.len() - 1) as nat, |j: int| strip_cr(p[j]));
    if p[p.len() - 1].len() == 0 {
        init
    } else {
        init.push(p[p.len() - 1])
    }
}

/// The lines of `v`, as `str::lines` gives them.
pub fn lines_of(v: &Vec<char>) -> (r: Vec<Vec<char>>)
    ensures
        r.len() == str_lines(v@).len(),
        forall|j: int| 0 <= j < r.len() ==> #[trigger] r@[j]@ == str_lines(v@)[j],
{
    proof {
        lemma_split_on_len(v@, '\n');
    }
    let pieces = split_char(v, '\n');
    let ghost p = split_on(v@, '\n');
    let n = pieces.len();
    let mut out: Vec<Vec<char>> = Vec::new();
    let mut j: usize = 0;
    while j + 1 < n
        invariant
            n == pieces.len() == p.len(),
            n >= 1,
            j + 1 <= n,
            out.len() == j,
            forall|m: int| 0 <= m < pieces.len() ==> #[trigger] pieces@[m]@ == p[m],
            forall|m: int| 0 <= m < j ==> #[trigger] out@[m]@ == strip_cr(p[m]),
        decreases n - j,
    {
        let piece = &pieces[j];
        let len = piece.len();
        if len > 0 && piece[len - 1] == '\r' {
            out.push(sub_chars(piece, 0, len - 1));
        } else {
            out.push(sub_chars(piece, 0, len));
        }
        assert(piece@.subrange(0, len as int) =~= piece@);
        assert(piece@.subrange(0, len - 1) =~= piece@.drop_last());
        j += 1;
    }
    let last = &pieces[n - 1];
    if last.len() > 0 {
        out.push(sub_chars(last, 0, last.len()));
        assert(last@.subrange(0, last.len() as int) =~= last@);
    }
    proof {
        let init = Seq::new((p.len() - 1) as nat, |m: int| strip_cr(p[m]));
        if p[p.len() - 1].len() == 0 {
            assert(out@.map_values(|x: Vec<char>| x@) =~= init);
        } else {
            assert(out@.map_values(|x: Vec<char>| x@) =~= init.push(p[p.len() - 1]));
        }
    }
    out
}

/// `str::split_whitespace`: the maximal runs of non-whitespace characters.
pub open spec fn words(s: Seq<char>) -> Seq<Seq<char>>
    decreases s.len(),
{
    if s.len() == 0 {
        seq![]
    } else {
        let r = words(s.drop_last());
        let c = s.last();
        if is_ws(c) {
            r
        } else if s.len() >= 2 && !is_ws(s[s.len() - 2]) {
            r.update(r.len() - 1, r.last().push(c))
        } else {
            r.push(seq![c])
        }
    }
}

pub proof fn lemma_words_nonempty(s: Seq<char>)
    requires
        s.len() > 0,
        !is_ws(s.last()),
    ensures
        words(s).len() >= 1,
    decreases s.len(),
{
    if s.len() >= 2 && !is_ws(s[s.len() - 2]) {
        assert(s.drop_last().last() == s[s.len() - 2]);
        lemma_words_nonempty(s.drop_last());
    }
}

/// The whitespace-separated words of `v`.
pub fn words_of(v: &Vec<char>) -> (r: Vec<Vec<char>>)
    ensures
        r.len() == words(v@).len(),
        forall|j: int| 0 <= j < r.len() ==> #[trigger] r@[j]@ == words(v@)[j],
{
    let mut out: Vec<Vec<char>> = Vec::new();
    let mut cur: Vec<char> = Vec::new();
    let mut in_word = false;
    let mut k: usize = 0;
    assert(v@.take(0) =~= Seq::<char>::empty());
    while k < v.len()
        invariant
            k <= v.len(),
            in_word == (k > 0 && !is_ws(v@[k - 1])),
            in_word ==> words(v@.take(k as int)).len() == out.len() + 1 && cur@ == words(
                v@.take(k as int),
            ).last(),
            !in_word ==> words(v@.take(k as int)).len() == out.len(),
            forall|j: int|
                0 <= j < out.len() ==> #[trigger] out@[j]@ == words(v@.take(k as int))[j],
        decreases v.len() - k,
    {
        let ghost pre = v@.take(k as int);
        let ghost nxt = v@.take(k + 1);
        assert(nxt.drop_last() =~= pre);
        assert(nxt.last() == v@[k as int]);
        if k > 0 {
            assert(nxt[nxt.len() - 2] == v@[k - 1]);
        }
        if is_whitespace(v[k]) {
            if in_word {
                out.push(cur);
                cur = Vec::new();
            }
            in_word = false;
        } else {
            if !in_word {
                cur = Vec::new();
            }
            cur.push(v[k]);
            in_word = true;
        }
        k += 1;
    }
    if in_word {
        out.push(cur);
    }
    assert(v@.take(v.len() as int) =~= v@);
    out
}


/// `str::trim_start`.
pub open spec fn trim_start(s: Seq<char>) -> Seq<char> {
    s.skip(lead_ws(s) as int)
}

/// Start of `trim_start(v[from..to])` in `v`.
pub fn trim_start_from(v: &Vec<char>, from: usize, to: usize) -> (a: usize)
    requires
        from <= to <= v.len(),
    ensures
        from <= a <= to,
        v@.subrange(a as int, to as int) == trim_start(v@.subrange(from as int, to as int)),
{
    let ghost s = v@.subrange(from as int, to as int);
    let mut a = from;
    while a < to && is_whitespace(v[a])
        invariant
            from <= a <= to <= v.len(),
            forall|j: int| from <= j < a ==> is_ws(#[trigger] v@[j]),
        decreases to - a,
    {
        a += 1;
    }
    proof {
        assert forall|j: int| 0 <= j < a - from implies is_ws(#[trigger] s[j]) by {
            assert(s[j] == v@[j + from]);
        }
        if a < to {
            assert(s[a - from] == v@[a as int]);
        }
        lemma_lead_ws_unique(s, a - from);
        assert(s.skip(a - from) =~= v@.subrange(a as int, to as int));
    }
    a
}

/// `str::trim_start_matches` with a non-empty string pattern: removes every
/// leading copy of `p`.
pub open spec fn strip_all(s: Seq<char>, p: Seq<char>) -> Seq<char>
    decreases s.len(),
{
    if p.len() > 0 && starts_with(s, p) {
        strip_all(s.skip(p.len() as int), p)
    } else {
        s
    }
}

/// Start of `strip_all(v[from..to], p)` in `v`.
pub fn strip_all_from(v: &Vec<char>, from: usize, to: usize, p: &Vec<char>) -> (a: usize)
    requires
        from <= to <= v.len(),
        p.len() > 0,
    ensures
        from <= a <= to,
        v@.subrange(a as int, to as int) == strip_all(v@.subrange(from as int, to as int), p@),
{
    let mut a = from;
    loop
        invariant
            from <= a <= to <= v.len(),
            p.len() > 0,
            strip_all(v@.subrange(from as int, to as int), p@) == strip_all(
                v@.subrange(a as int, to as int),
                p@,
            ),
        decreases to - a,
    {
        let rest = sub_chars(v, a, to);
        if !has_prefix(&rest, p) {
            return a;
        }
        assert(rest@.skip(p.len() as int) =~= v@.subrange(a + p.len(), to as int));
        a = a + p.len();
    }
}

/// At most `n` characters of `s` (`s.chars().take(n)`).
pub open spec fn clip(s: Seq<char>, n: nat) -> Seq<char> {
    if s.len() <= n {
        s
    } else {
        s.take(n as int)
    }
}

/// The first `n` characters of `s` (all of it when shorter).
pub fn clip_chars(s: &str, n: usize) -> (r: String)
    ensures
        r@ == clip(s@, n as nat),
{
    let v = to_chars(s);
    let end = if v.len() <= n {
        v.len()
    } else {
        n
    };
    let r = string_from_chars(&v, 0, end);
    assert(v@.subrange(0, v.len() as int) =~= v@);
    assert(v@.subrange(0, n as int) =~= v@.take(n as int));
    r
}


pub proof fn lemma_ulen_utf8(c: char)
    ensures
        ulen(c) == encode_scalar(c as u32).len(),
{
    char_is_scalar(c);
}

/// `blen` is the length of the UTF-8 encoding.
pub proof fn lemma_blen_utf8(s: Seq<char>)
    ensures
        blen(s) == encode_utf8(s).len(),
    decreases s.len(),
{
    if s.len() > 0 {
        assert(s =~= seq![s[0]] + s.drop_first());
        lemma_blen_concat(seq![s[0]], s.drop_first());
        let one = seq![s[0]];
        assert(one.drop_last() =~= Seq::<char>::empty());
        assert(blen(one.drop_last()) == 0);
        assert(blen(one) == ulen(s[0]));
        lemma_ulen_utf8(s[0]);
        lemma_blen_utf8(s.drop_first());
        assert(encode_utf8(s).len() == encode_scalar(s[0] as u32).len() + encode_utf8(
            s.drop_first(),
        ).len());
    }
}

/// Length in bytes of a string slice (`str::len`).
pub fn str_byte_len(s: &str) -> (r: usize)
    ensures
        r == blen(s@),
{
    proof {
        lemma_blen_utf8(s@);
    }
    s.as_bytes().len()
}


/// Decimal digits of `n` (`format!("{n}")`).
pub open spec fn decimal(n: nat) -> Seq<char>
    decreases n,
{
    if n < 10 {
        seq![(0x30 + n) as char]
    } else {
        decimal(n / 10).push((0x30 + n % 10) as char)
    }
}

/// Decimal form of a signed integer, with `-` when negative.
pub open spec fn signed_decimal(n: int) -> Seq<char> {
    if n < 0 {
        seq!['-'] + decimal((-n) as nat)
    } else {
        decimal(n as nat)
    }
}

/// Appends the decimal digits of `n`.
pub fn push_decimal(s: &mut String, n: u64)
    ensures
        final(s)@ == old(s)@ + decimal(n as nat),
    decreases n,
{
    if n >= 10 {
        push_decimal(s, n / 10);
    }
    let d = (n % 10) as u8;
    push_char(s, (0x30 + d) as char);
    assert(final(s)@ =~= old(s)@ + decimal(n as nat));
}

/// Appends the decimal form of `n`.
pub fn push_signed_decimal(s: &mut String, n: i32)
    ensures
        final(s)@ == old(s)@ + signed_decimal(n as int),
{
    if n < 0 {
        push_char(s, '-');
        let m: u64 = (0 - (n as i64)) as u64;
        push_decimal(s, m);
        assert(final(s)@ =~= old(s)@ + signed_decimal(n as int));
    } else {
        push_decimal(s, n as u64);
    }
}

} // verus!
