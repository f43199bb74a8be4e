//! Locating the LaTeX of a page that corresponds to text selected in the PDF view.
//!
//! Spans are character positions in the page; the context added around a span is
//! counted in characters.

use vstd::prelude::*;

use crate::text::{
    find, find_chars, matches_at, is_whitespace, is_ws, lead_ws, lemma_find_from_result, lemma_lead_ws_bound,
    lemma_lead_ws_unique, lemma_trail_ws_bound, lemma_trail_ws_unique, split_char, split_on,
    string_from_chars, sub_chars, to_chars, trail_ws, trim, trim_bounds,
};

verus! {

/// Character indices of the non-whitespace characters of `s`, in order.
pub open spec fn solid_positions(s: Seq<char>) -> Seq<int>
    decreases s.len(),
{
    if s.len() == 0 {
        seq![]
    } else {
        let r = solid_positions(s.drop_last());
        if is_ws(s.last()) {
            r
        } else {
            r.push(s.len() - 1)
        }
    }
}

/// The non-whitespace characters of `s` (`s.chars().filter(|c| !c.is_whitespace())`).
pub open spec fn solid_chars(s: Seq<char>) -> Seq<char>
    decreases s.len(),
{
    if s.len() == 0 {
        seq![]
    } else {
        let r = solid_chars(s.drop_last());
        if is_ws(s.last()) {
            r
        } else {
            r.push(s.last())
        }
    }
}

/// The selection located while ignoring whitespace, as a span of characters of `lat`.
///
/// `sel` is the trimmed selection. Its non-whitespace characters are looked up in
/// the non-whitespace characters of the page; the span runs from the page position
/// of the first matched character to just after that of the last.
pub open spec fn ws_span(lat: Seq<char>, sel: Seq<char>) -> Option<(int, int)> {
    let sel_ns = solid_chars(sel);
    let pos = solid_positions(lat);
    if sel_ns.len() < 2 {
        None
    } else {
        match find(solid_chars(lat), sel_ns) {
            None => None,
            Some(ci) => Some((pos[ci], pos[ci + sel_ns.len() - 1] + 1)),
        }
    }
}

/// The pieces, trimmed, that keep at least two characters.
///
/// Over the pieces of `split_on(_, '\n')` this is `lines().map(str::trim).filter(|l| l.chars().count() >= 2)`:
/// `lines` also drops a `'\r'` before each `'\n'` and an empty last piece, which
/// trimming (`'\r'` is whitespace) and the length filter drop here.
pub open spec fn kept_lines(pieces: Seq<Seq<char>>) -> Seq<Seq<char>>
    decreases pieces.len(),
{
    if pieces.len() == 0 {
        seq![]
    } else {
        let r = kept_lines(pieces.drop_last());
        let t = trim(pieces.last());
        if t.len() >= 2 {
            r.push(t)
        } else {
            r
        }
    }
}

/// Smallest start and largest end of the lines that occur in `lat`, as character positions.
pub open spec fn lines_extent(lat: Seq<char>, lines: Seq<Seq<char>>) -> Option<(int, int)>
    decreases lines.len(),
{
    if lines.len() == 0 {
        None
    } else {
        let prev = lines_extent(lat, lines.drop_last());
        let line = lines.last();
        match find(lat, line) {
            None => prev,
            Some(a) => {
                let b = a + line.len();
                match prev {
                    None => Some((a, b)),
                    Some(xy) => Some(
                        (
                            if xy.0 <= a {
                                xy.0
                            } else {
                                a
                            },
                            if xy.1 >= b {
                                xy.1
                            } else {
                                b
                            },
                        ),
                    ),
                }
            },
        }
    }
}

/// The selection located line by line, as a span of characters of `lat`.
pub open spec fn lines_span(lat: Seq<char>, selection: Seq<char>) -> Option<(int, int)> {
    let lines = kept_lines(split_on(selection, '\n'));
    if lines.len() == 0 {
        None
    } else {
        match lines_extent(lat, lines) {
            None => None,
            Some(xy) => Some(
                (
                    xy.0,
                    if xy.1 >= xy.0 {
                        xy.1
                    } else {
                        xy.0
                    },
                ),
            ),
        }
    }
}

/// Position `start` moved back by `pad` characters, stopping at 0.
pub open spec fn pad_start(start: int, pad: int) -> int {
    if start >= pad {
        start - pad
    } else {
        0
    }
}

/// Position `end` moved on by `pad` characters, stopping at the end of `lat`.
pub open spec fn pad_end(lat: Seq<char>, end: int, pad: int) -> int {
    if end + pad <= lat.len() {
        end + pad
    } else {
        lat.len() as int
    }
}

/// The characters `start..end` of `lat` with `pad` more characters on each side
/// (as far as the page goes), trimmed.
pub open spec fn clipped(lat: Seq<char>, start: int, end: int, pad: int) -> Seq<char> {
    trim(lat.subrange(pad_start(start, pad), pad_end(lat, end, pad)))
}

/// The excerpt of page `lat` for the selected text `selection`, with `pad`
/// characters of context on each side.
pub open spec fn excerpt(lat: Seq<char>, selection: Seq<char>, pad: int) -> Option<Seq<char>> {
    let sel = trim(selection);
    if sel.len() == 0 {
        None
    } else if find(lat, sel) is Some {
        let a = find(lat, sel)->0;
        Some(clipped(lat, a, a + sel.len(), pad))
    } else if ws_span(lat, sel) is Some {
        let ab = ws_span(lat, sel)->0;
        Some(clipped(lat, ab.0, ab.1, pad))
    } else if lines_span(lat, selection) is Some {
        let ab = lines_span(lat, selection)->0;
        Some(clipped(lat, ab.0, ab.1, pad))
    } else {
        None
    }
}

pub proof fn lemma_solid(s: Seq<char>)
    ensures
        solid_chars(s).len() == solid_positions(s).len(),
        forall|j: int|
            0 <= j < solid_positions(s).len() ==> 0 <= #[trigger] solid_positions(s)[j] < s.len()
                && solid_chars(s)[j] == s[solid_positions(s)[j]],
        forall|i: int, j: int|
            0 <= i < j < solid_positions(s).len() ==> solid_positions(s)[i]
                < solid_positions(s)[j],
    decreases s.len(),
{
    if s.len() > 0 {
        lemma_solid(s.drop_last());
        let r = solid_chars(s.drop_last());
        if !is_ws(s.last()) {
            assert(r.push(s.last()).drop_last() =~= r);
        }
    }
}

/// Positions and characters of the non-whitespace characters of `v`.
fn solid_of(v: &Vec<char>) -> (r: (Vec<usize>, Vec<char>))
    ensures
        r.0.len() == solid_positions(v@).len(),
        forall|j: int| 0 <= j < r.0.len() ==> #[trigger] r.0@[j] as int == solid_positions(v@)[j],
        r.1@ == solid_chars(v@),
{
    let mut pos: Vec<usize> = Vec::new();
    let mut flat: Vec<char> = Vec::new();
    let mut k: usize = 0;
    assert(v@.take(0) =~= Seq::<char>::empty());
    while k < v.len()
        invariant
            k <= v.len(),
            pos.len() == solid_positions(v@.take(k as int)).len(),
            forall|j: int|
                0 <= j < pos.len() ==> #[trigger] pos@[j] as int == solid_positions(
                    v@.take(k as int),
                )[j],
            flat@ == solid_chars(v@.take(k as int)),
        decreases v.len() - k,
    {
        assert(v@.take(k + 1).drop_last() =~= v@.take(k as int));
        assert(v@.take(k + 1).last() == v@[k as int]);
        if !is_whitespace(v[k]) {
            pos.push(k);
            flat.push(v[k]);
        }
        k += 1;
    }
    assert(v@.take(v.len() as int) =~= v@);
    (pos, flat)
}


/// The selection located while ignoring whitespace.
fn find_span_no_whitespace(lat: &Vec<char>, sel: &Vec<char>) -> (r: Option<(usize, usize)>)
    ensures
        r matches Some(ab) ==> ws_span(lat@, sel@) == Some((ab.0 as int, ab.1 as int)),
        r is None ==> ws_span(lat@, sel@) is None,
{
    let (_, sel_ns) = solid_of(sel);
    if sel_ns.len() < 2 {
        return None;
    }
    let (pos, flat) = solid_of(lat);
    let ci = match find_chars(&flat, &sel_ns) {
        Some(c) => c,
        None => {
            return None;
        },
    };
    proof {
        lemma_solid(lat@);
        lemma_find_from_result(flat@, sel_ns@, 0);
    }
    let last = pos[ci + sel_ns.len() - 1];
    assert(last < lat.len()) by {
        assert(last as int == solid_positions(lat@)[ci + sel_ns.len() - 1]);
    }
    Some((pos[ci], last + 1))
}

/// The trimmed pieces that keep at least two characters.
fn keep_lines(pieces: &Vec<Vec<char>>) -> (r: Vec<Vec<char>>)
    ensures
        r.len() == kept_lines(pieces@.map_values(|p: Vec<char>| p@)).len(),
        forall|j: int|
            0 <= j < r.len() ==> #[trigger] r@[j]@ == kept_lines(
                pieces@.map_values(|p: Vec<char>| p@),
            )[j],
{
    let ghost views = pieces@.map_values(|p: Vec<char>| p@);
    let mut out: Vec<Vec<char>> = Vec::new();
    let mut j: usize = 0;
    assert(views.take(0) =~= Seq::<Seq<char>>::empty());
    while j < pieces.len()
        invariant
            j <= pieces.len(),
            views == pieces@.map_values(|p: Vec<char>| p@),
            out.len() == kept_lines(views.take(j as int)).len(),
            forall|m: int|
                0 <= m < out.len() ==> #[trigger] out@[m]@ == kept_lines(views.take(j as int))[m],
        decreases pieces.len() - j,
    {
        assert(views.take(j + 1).drop_last() =~= views.take(j as int));
        assert(views.take(j + 1).last() == pieces@[j as int]@);
        let piece = &pieces[j];
        let (a, b) = trim_bounds(piece, 0, piece.len());
        assert(piece@.subrange(0, piece.len() as int) =~= piece@);
        if b - a >= 2 {
            out.push(sub_chars(piece, a, b));
        }
        j += 1;
    }
    assert(views.take(pieces.len() as int) =~= views);
    out
}

/// The selection located line by line.
fn find_span_by_nonempty_lines(lat: &Vec<char>, selection: &Vec<char>) -> (r: Option<(usize, usize)>)
    ensures
        r matches Some(ab) ==> lines_span(lat@, selection@) == Some((ab.0 as int, ab.1 as int)),
        r is None ==> lines_span(lat@, selection@) is None,
{
    let pieces = split_char(selection, '\n');
    let lines = keep_lines(&pieces);
    let ghost pviews = pieces@.map_values(|p: Vec<char>| p@);
    assert(pviews =~= split_on(selection@, '\n'));
    let ghost lviews = lines@.map_values(|p: Vec<char>| p@);
    assert(lviews =~= kept_lines(split_on(selection@, '\n')));
    if lines.len() == 0 {
        return None;
    }
    let mut min_c: usize = 0;
    let mut max_c: usize = 0;
    let mut any = false;
    let mut j: usize = 0;
    assert(lviews.take(0) =~= Seq::<Seq<char>>::empty());
    while j < lines.len()
        invariant
            j <= lines.len(),
            lviews == lines@.map_values(|p: Vec<char>| p@),
            any <==> lines_extent(lat@, lviews.take(j as int)) is Some,
            any ==> lines_extent(lat@, lviews.take(j as int)) == Some(
                (min_c as int, max_c as int),
            ),
        decreases lines.len() - j,
    {
        assert(lviews.take(j + 1).drop_last() =~= lviews.take(j as int));
        assert(lviews.take(j + 1).last() == lines@[j as int]@);
        let line = &lines[j];
        if let Some(a) = find_chars(lat, line) {
            proof {
                lemma_find_from_result(lat@, line@, 0);
                assert(matches_at(lat@, line@, a as int));
                assert(a + line@.len() <= lat@.len());
                assert(line@.len() == line.len());
                assert(lat@.len() == lat.len());
            }
            let b = a + line.len();
            if !any {
                min_c = a;
                max_c = b;
            } else {
                if a < min_c {
                    min_c = a;
                }
                if b > max_c {
                    max_c = b;
                }
            }
            any = true;
        }
        j += 1;
    }
    assert(lviews.take(lines.len() as int) =~= lviews);
    if any {
        let hi = if max_c >= min_c {
            max_c
        } else {
            min_c
        };
        Some((min_c, hi))
    } else {
        None
    }
}

/// The trimmed characters of `lat` from `pad` before `start` to `pad` after `end`.
fn extract(lat: &Vec<char>, start: usize, end: usize, pad: usize) -> (r: String)
    requires
        start <= end <= lat.len(),
    ensures
        r@ == clipped(lat@, start as int, end as int, pad as int),
{
    let s = if start >= pad {
        start - pad
    } else {
        0
    };
    let e = if pad <= lat.len() - end {
        end + pad
    } else {
        lat.len()
    };
    let (a, b) = trim_bounds(lat, s, e);
    string_from_chars(lat, a, b)
}

/// Maps a selection in the PDF view to the matching LaTeX of the page, with `pad_chars`
/// characters of context on each side.
///
/// The trimmed selection is looked up as is; failing that, with whitespace ignored;
/// failing that, line by line (the span from the first to the last line found).
pub fn map_selection_to_excerpt(page_latex: &str, selection: &str, pad_chars: usize) -> (r:
    Option<String>)
    ensures
        match r {
            Some(x) => excerpt(page_latex@, selection@, pad_chars as int) == Some(x@),
            None => excerpt(page_latex@, selection@, pad_chars as int) is None,
        },
{
    let selv = to_chars(selection);
    let (sa, sb) = trim_bounds(&selv, 0, selv.len());
    assert(selv@.subrange(0, selv.len() as int) =~= selv@);
    if sa == sb {
        return None;
    }
    let sel = sub_chars(&selv, sa, sb);
    let lat = to_chars(page_latex);
    if let Some(i) = find_chars(&lat, &sel) {
        proof {
            lemma_find_from_result(lat@, sel@, 0);
            assert(matches_at(lat@, sel@, i as int));
            assert(lat@.len() == lat.len());
        }
        return Some(extract(&lat, i, i + sel.len(), pad_chars));
    }
    if let Some((a, b)) = find_span_no_whitespace(&lat, &sel) {
        proof {
            lemma_ws_span_bounds(lat@, sel@);
        }
        return Some(extract(&lat, a, b, pad_chars));
    }
    match find_span_by_nonempty_lines(&lat, &selv) {
        Some((a, b)) => {
            proof {
                lemma_lines_span_bounds(lat@, selv@);
            }
            Some(extract(&lat, a, b, pad_chars))
        },
        None => None,
    }
}

/// The whitespace-free span lies inside the page, non-empty.
pub proof fn lemma_ws_span_bounds(lat: Seq<char>, sel: Seq<char>)
    ensures
        ws_span(lat, sel) matches Some(ab) ==> 0 <= ab.0 < ab.1 <= lat.len(),
{
    lemma_solid(lat);
    lemma_find_from_result(solid_chars(lat), solid_chars(sel), 0);
    if ws_span(lat, sel) is Some {
        let ci = find(solid_chars(lat), solid_chars(sel))->0;
        let n = solid_chars(sel).len() as int;
        let pos = solid_positions(lat);
        if n > 1 {
            assert(pos[ci] < pos[ci + n - 1]);
        }
    }
}

/// The extent of the lines found lies inside the page, in order, and is not
/// empty when the lines are not.
pub proof fn lemma_lines_extent_bounds(lat: Seq<char>, lines: Seq<Seq<char>>)
    requires
        forall|j: int| 0 <= j < lines.len() ==> (#[trigger] lines[j]).len() > 0,
    ensures
        lines_extent(lat, lines) matches Some(ab) ==> 0 <= ab.0 < ab.1 <= lat.len(),
    decreases lines.len(),
{
    if lines.len() > 0 {
        let init = lines.drop_last();
        assert forall|j: int| 0 <= j < init.len() implies (#[trigger] init[j]).len() > 0 by {
            assert(init[j] == lines[j]);
        }
        lemma_lines_extent_bounds(lat, init);
        lemma_find_from_result(lat, lines.last(), 0);
        assert(lines.last() == lines[lines.len() - 1]);
    }
}

/// Every kept line has at least two characters.
proof fn lemma_kept_lines_long(pieces: Seq<Seq<char>>)
    ensures
        forall|j: int| 0 <= j < kept_lines(pieces).len() ==> (#[trigger] kept_lines(pieces)[j]).len()
            >= 2,
    decreases pieces.len(),
{
    if pieces.len() > 0 {
        let r = kept_lines(pieces.drop_last());
        lemma_kept_lines_long(pieces.drop_last());
        let t = trim(pieces.last());
        if t.len() >= 2 {
            assert forall|j: int| 0 <= j < r.push(t).len() implies (#[trigger] r.push(t)[j]).len()
                >= 2 by {
                if j < r.len() {
                    assert(r.push(t)[j] == r[j]);
                }
            }
        }
    }
}

/// The line-by-line span lies inside the page, in order, and is not empty.
pub proof fn lemma_lines_span_bounds(lat: Seq<char>, selection: Seq<char>)
    ensures
        lines_span(lat, selection) matches Some(ab) ==> 0 <= ab.0 < ab.1 <= lat.len(),
{
    lemma_kept_lines_long(split_on(selection, '\n'));
    lemma_lines_extent_bounds(lat, kept_lines(split_on(selection, '\n')));
}

/// The span that the excerpt is cut around lies inside the page, in order.
proof fn lemma_span_bounds(lat: Seq<char>, selection: Seq<char>)
    requires
        excerpt(lat, selection, 0) is Some,
    ensures
        ({
            let sel = trim(selection);
            let ab = if find(lat, sel) is Some {
                (find(lat, sel)->0, find(lat, sel)->0 + sel.len())
            } else if ws_span(lat, sel) is Some {
                ws_span(lat, sel)->0
            } else {
                lines_span(lat, selection)->0
            };
            0 <= ab.0 <= ab.1 <= lat.len()
        }),
{
    lemma_find_from_result(lat, trim(selection), 0);
    lemma_ws_span_bounds(lat, trim(selection));
    lemma_lines_span_bounds(lat, selection);
}

/// `trim(s)` is a contiguous piece of `s`.
pub proof fn lemma_trim_is_piece(s: Seq<char>)
    ensures
        exists|a: int, b: int| 0 <= a <= b <= s.len() && trim(s) == s.subrange(a, b),
{
    lemma_lead_ws_bound(s);
    let l = lead_ws(s) as int;
    let t = s.skip(l);
    lemma_trail_ws_bound(t);
    let n = t.len() - trail_ws(t);
    assert(trim(s) =~= s.subrange(l, l + n));
}

/// Trimming twice is trimming once.
pub proof fn lemma_trim_idempotent(s: Seq<char>)
    ensures
        trim(trim(s)) == trim(s),
{
    lemma_lead_ws_bound(s);
    let t = s.skip(lead_ws(s) as int);
    lemma_trail_ws_bound(t);
    let u = trim(s);
    let n = t.len() - trail_ws(t);
    assert(u =~= t.take(n));
    if u.len() > 0 {
        assert(u[0] == t[0]);
        assert(t[0] == s[lead_ws(s) as int]);
        lemma_lead_ws_unique(u, 0);
        assert(u.skip(0) =~= u);
        assert(u.last() == t[n - 1]);
        lemma_trail_ws_unique(u, 0);
        assert(u.take(u.len() as int) =~= u);
    } else {
        assert(u.skip(lead_ws(u) as int) =~= u);
    }
}

/// The first and last characters of a non-empty trimmed string are not whitespace.
pub proof fn lemma_trim_ends(s: Seq<char>)
    ensures
        trim(s).len() > 0 ==> !is_ws(trim(s)[0]) && !is_ws(trim(s).last()),
{
    lemma_lead_ws_bound(s);
    let l = lead_ws(s) as int;
    let t = s.skip(l);
    lemma_trail_ws_bound(t);
    let n = t.len() - trail_ws(t);
    if n > 0 {
        assert(trim(s)[0] == s[l]);
        assert(trim(s).last() == t[n - 1]);
    }
}

/// Trimming a piece of text keeps any part of it that begins and ends with a
/// character that is not whitespace.
pub proof fn lemma_trim_keeps_inner(p: Seq<char>, d: int, sel: Seq<char>)
    requires
        0 <= d,
        d + sel.len() <= p.len(),
        sel.len() > 0,
        p.subrange(d, d + sel.len()) == sel,
        !is_ws(sel[0]),
        !is_ws(sel.last()),
    ensures
        exists|u: int, v: int| 0 <= u <= v <= trim(p).len() && trim(p).subrange(u, v) == sel,
{
    let n = sel.len() as int;
    lemma_lead_ws_bound(p);
    let l = lead_ws(p) as int;
    assert(p[d] == sel[0]);
    if l > d {
        assert(is_ws(p[d]));
    }
    let t = p.skip(l);
    lemma_trail_ws_bound(t);
    let m = t.len() - trail_ws(t);
    assert(t[d - l + n - 1] == p[d + n - 1]);
    assert(p[d + n - 1] == sel[n - 1]);
    if d - l + n - 1 >= m {
        assert(is_ws(t[d - l + n - 1]));
    }
    assert(trim(p) == t.take(m));
    assert(trim(p).subrange(d - l, d - l + n) =~= sel);
}

/// The excerpt is always a contiguous piece of the page's LaTeX.
pub proof fn law_excerpt_is_piece_of_page(lat: Seq<char>, selection: Seq<char>, pad: int)
    requires
        pad >= 0,
        excerpt(lat, selection, pad) is Some,
    ensures
        exists|a: int, b: int|
            0 <= a <= b <= lat.len() && excerpt(lat, selection, pad)->0 == lat.subrange(a, b),
{
    lemma_span_bounds(lat, selection);
    let sel = trim(selection);
    let ab = if find(lat, sel) is Some {
        (find(lat, sel)->0, find(lat, sel)->0 + sel.len())
    } else if ws_span(lat, sel) is Some {
        ws_span(lat, sel)->0
    } else {
        lines_span(lat, selection)->0
    };
    let s = pad_start(ab.0, pad);
    let e = pad_end(lat, ab.1, pad);
    let piece = lat.subrange(s, e);
    assert(excerpt(lat, selection, pad)->0 == trim(piece));
    lemma_trim_is_piece(piece);
    let (u, v) = choose|u: int, v: int| 0 <= u <= v <= piece.len() && trim(piece) == piece.subrange(u, v);
    assert(piece.subrange(u, v) =~= lat.subrange(s + u, s + v));
}

/// Without padding, a selection that occurs in the page as it is (once trimmed)
/// comes back exactly, trimmed.
pub proof fn law_unpadded_exact_match(lat: Seq<char>, selection: Seq<char>)
    requires
        trim(selection).len() > 0,
        find(lat, trim(selection)) is Some,
    ensures
        excerpt(lat, selection, 0) == Some(trim(selection)),
{
    let sel = trim(selection);
    let i = find(lat, sel)->0;
    lemma_find_from_result(lat, sel, 0);
    assert(lat.subrange(i, i + sel.len()) == sel);
    lemma_trim_idempotent(selection);
}

/// A selection found as it is in the page comes back inside its excerpt, whatever
/// the padding.
pub proof fn law_raw_match_stays_in_excerpt(lat: Seq<char>, selection: Seq<char>, pad: int)
    requires
        pad >= 0,
        trim(selection).len() > 0,
        find(lat, trim(selection)) is Some,
    ensures
        excerpt(lat, selection, pad) matches Some(x) && exists|u: int, v: int|
            0 <= u <= v <= x.len() && x.subrange(u, v) == trim(selection),
{
    let sel = trim(selection);
    let i = find(lat, sel)->0;
    let n = sel.len() as int;
    lemma_find_from_result(lat, sel, 0);
    let s = pad_start(i, pad);
    let e = pad_end(lat, i + n, pad);
    let piece = lat.subrange(s, e);
    assert(piece.subrange(i - s, i - s + n) =~= lat.subrange(i, i + n));
    lemma_trim_ends(selection);
    lemma_trim_keeps_inner(piece, i - s, sel);
    assert(excerpt(lat, selection, pad) == Some(trim(piece)));
    let (u, v) = choose|u: int, v: int|
        0 <= u <= v <= trim(piece).len() && trim(piece).subrange(u, v) == sel;
    assert(excerpt(lat, selection, pad)->0.subrange(u, v) == trim(selection));
}

/// Ignoring whitespace, the selection is found exactly when its whitespace-free text
/// (of at least two characters) occurs in the whitespace-free page; the span then
/// lies inside the page and starts and ends on characters that are not whitespace.
pub proof fn law_ws_span_found(lat: Seq<char>, sel: Seq<char>)
    ensures
        ws_span(lat, sel) is Some <==> (solid_chars(sel).len() >= 2 && find(
            solid_chars(lat),
            solid_chars(sel),
        ) is Some),
        ws_span(lat, sel) matches Some(ab) ==> 0 <= ab.0 < ab.1 <= lat.len() && !is_ws(lat[ab.0])
            && !is_ws(lat[ab.1 - 1]),
{
    lemma_solid(lat);
    lemma_ws_span_bounds(lat, sel);
    lemma_find_from_result(solid_chars(lat), solid_chars(sel), 0);
    if ws_span(lat, sel) is Some {
        let ci = find(solid_chars(lat), solid_chars(sel))->0;
        let n = solid_chars(sel).len() as int;
        lemma_solid_not_ws(lat, ci);
        lemma_solid_not_ws(lat, ci + n - 1);
    }
}

/// The characters at the non-whitespace positions are not whitespace.
proof fn lemma_solid_not_ws(s: Seq<char>, j: int)
    requires
        0 <= j < solid_positions(s).len(),
    ensures
        !is_ws(s[solid_positions(s)[j]]),
    decreases s.len(),
{
    if s.len() > 0 {
        let r = solid_positions(s.drop_last());
        if j < r.len() {
            lemma_solid(s.drop_last());
            lemma_solid_not_ws(s.drop_last(), j);
            assert(solid_positions(s)[j] == r[j]);
        }
    }
}

/// Line by line, the selection is found exactly when one of its kept lines occurs
/// in the page; the span then lies inside the page and is not empty.
pub proof fn law_lines_span_found(lat: Seq<char>, selection: Seq<char>)
    ensures
        lines_span(lat, selection) is Some <==> exists|j: int|
            0 <= j < kept_lines(split_on(selection, '\n')).len() && find(
                lat,
                #[trigger] kept_lines(split_on(selection, '\n'))[j],
            ) is Some,
        lines_span(lat, selection) matches Some(ab) ==> 0 <= ab.0 < ab.1 <= lat.len(),
{
    lemma_lines_span_bounds(lat, selection);
    lemma_lines_extent_found(lat, kept_lines(split_on(selection, '\n')));
}

proof fn lemma_lines_extent_found(lat: Seq<char>, lines: Seq<Seq<char>>)
    ensures
        lines_extent(lat, lines) is Some <==> exists|j: int|
            0 <= j < lines.len() && find(lat, #[trigger] lines[j]) is Some,
    decreases lines.len(),
{
    if lines.len() > 0 {
        let init = lines.drop_last();
        lemma_lines_extent_found(lat, init);
        if lines_extent(lat, init) is Some {
            let j = choose|j: int| 0 <= j < init.len() && find(lat, #[trigger] init[j]) is Some;
            assert(lines[j] == init[j]);
        }
        if find(lat, lines.last()) is Some {
            assert(lines[lines.len() - 1] == lines.last());
        }
        assert forall|j: int| 0 <= j < lines.len() && find(lat, #[trigger] lines[j]) is Some
            implies lines_extent(lat, lines) is Some by {
            if j < init.len() {
                assert(init[j] == lines[j]);
            }
        }
    }
}

/// The non-whitespace characters of a prefix are a prefix of those of the whole.
proof fn lemma_solid_prefix(s: Seq<char>, k: int)
    requires
        0 <= k <= s.len(),
    ensures
        solid_positions(s.take(k)) == solid_positions(s).take(
            solid_positions(s.take(k)).len() as int,
        ),
        solid_chars(s.take(k)) == solid_chars(s).take(solid_chars(s.take(k)).len() as int),
        solid_positions(s.take(k)).len() <= solid_positions(s).len(),
    decreases s.len(),
{
    lemma_solid(s);
    lemma_solid(s.take(k));
    if k == s.len() {
        assert(s.take(k) =~= s);
        assert(solid_positions(s).take(solid_positions(s).len() as int) =~= solid_positions(s));
        assert(solid_chars(s).take(solid_chars(s).len() as int) =~= solid_chars(s));
    } else {
        let d = s.drop_last();
        lemma_solid_prefix(d, k);
        assert(d.take(k) =~= s.take(k));
        lemma_solid(d);
        let n = solid_positions(s.take(k)).len() as int;
        assert(solid_positions(s).take(n) =~= solid_positions(d).take(n));
        assert(solid_chars(s).take(n) =~= solid_chars(d).take(n));
    }
}

/// Number of non-whitespace characters before position `k`.
pub open spec fn solid_count(s: Seq<char>, k: int) -> int {
    solid_positions(s.take(k)).len() as int
}

/// One more character: the count grows by one exactly when it is not whitespace,
/// and the character then sits at that place among the non-whitespace ones.
proof fn lemma_solid_step(s: Seq<char>, k: int)
    requires
        0 <= k < s.len(),
    ensures
        solid_count(s, k + 1) == solid_count(s, k) + (if is_ws(s[k]) {
            0int
        } else {
            1int
        }),
        !is_ws(s[k]) ==> solid_positions(s)[solid_count(s, k)] == k && solid_chars(s)[solid_count(
            s,
            k,
        )] == s[k],
{
    let t = s.take(k + 1);
    assert(t.drop_last() =~= s.take(k));
    assert(t.last() == s[k]);
    lemma_solid_prefix(s, k + 1);
    lemma_solid(t);
    lemma_solid(s);
    if !is_ws(s[k]) {
        let c = solid_count(s, k);
        assert(solid_positions(t)[c] == k);
        assert(solid_chars(t)[c] == s[k]);
    }
}

/// The non-whitespace characters of a piece of `s` are those counted between its ends.
proof fn lemma_solid_subrange(s: Seq<char>, x: int, y: int)
    requires
        0 <= x <= y <= s.len(),
    ensures
        0 <= solid_count(s, x) <= solid_count(s, y) <= solid_chars(s).len(),
        solid_chars(s.subrange(x, y)) == solid_chars(s).subrange(solid_count(s, x), solid_count(s, y)),
    decreases y - x,
{
    lemma_solid(s);
    lemma_solid_prefix(s, y);
    lemma_solid(s.take(y));
    if y == x {
        assert(s.subrange(x, y) =~= Seq::<char>::empty());
    } else {
        lemma_solid_subrange(s, x, y - 1);
        lemma_solid_step(s, y - 1);
        assert(s.subrange(x, y).drop_last() =~= s.subrange(x, y - 1));
        assert(s.subrange(x, y).last() == s[y - 1]);
        let a = solid_count(s, x);
        let b = solid_count(s, y - 1);
        if !is_ws(s[y - 1]) {
            assert(solid_chars(s).subrange(a, b + 1) =~= solid_chars(s).subrange(a, b).push(
                s[y - 1],
            ));
        }
    }
}

/// The count before a non-whitespace position is its place among them.
proof fn lemma_count_at_position(s: Seq<char>, j: int)
    requires
        0 <= j < solid_positions(s).len(),
    ensures
        solid_count(s, solid_positions(s)[j]) == j,
        solid_count(s, solid_positions(s)[j] + 1) == j + 1,
{
    lemma_solid(s);
    let p = solid_positions(s)[j];
    lemma_solid_not_ws(s, j);
    lemma_solid_step(s, p);
    let c = solid_count(s, p);
    lemma_solid_prefix(s, p + 1);
    lemma_solid(s.take(p + 1));
    assert(c < solid_positions(s).len());
    if c < j {
        assert(solid_positions(s)[c] < solid_positions(s)[j]);
    } else if c > j {
        assert(solid_positions(s)[j] < solid_positions(s)[c]);
    }
}

/// Ignoring whitespace, the span found holds exactly the selection's
/// non-whitespace characters.
pub proof fn law_ws_span_content(lat: Seq<char>, sel: Seq<char>)
    ensures
        ws_span(lat, sel) matches Some(ab) ==> solid_chars(lat.subrange(ab.0, ab.1)) == solid_chars(
            sel,
        ),
{
    if ws_span(lat, sel) is Some {
        lemma_solid(lat);
        lemma_ws_span_bounds(lat, sel);
        let flat = solid_chars(lat);
        let sn = solid_chars(sel);
        lemma_find_from_result(flat, sn, 0);
        let ci = find(flat, sn)->0;
        let cj = ci + sn.len() - 1;
        let pos = solid_positions(lat);
        lemma_count_at_position(lat, ci);
        lemma_count_at_position(lat, cj);
        lemma_solid_subrange(lat, pos[ci], pos[cj] + 1);
        assert(flat.subrange(ci, cj + 1) =~= sn);
    }
}

/// The extent covers every line found, and its ends are the start and the end of
/// lines found.
proof fn lemma_extent_covers(lat: Seq<char>, lines: Seq<Seq<char>>)
    ensures
        forall|j: int|
            0 <= j < lines.len() && find(lat, #[trigger] lines[j]) is Some ==> (lines_extent(
                lat,
                lines,
            ) matches Some(xy) && xy.0 <= find(lat, lines[j])->0 && find(lat, lines[j])->0
                + lines[j].len() <= xy.1),
        lines_extent(lat, lines) matches Some(xy) ==> (exists|i: int|
            0 <= i < lines.len() && find(lat, #[trigger] lines[i]) == Some(xy.0)) && (exists|k: int|
            0 <= k < lines.len() && find(lat, #[trigger] lines[k]) is Some && xy.1 == find(
                lat,
                lines[k],
            )->0 + lines[k].len()),
    decreases lines.len(),
{
    if lines.len() > 0 {
        let init = lines.drop_last();
        lemma_extent_covers(lat, init);
        let n = lines.len() - 1;
        assert(lines[n] == lines.last());
        assert forall|j: int|
            0 <= j < lines.len() && find(lat, #[trigger] lines[j]) is Some implies (lines_extent(
                lat,
                lines,
            ) matches Some(xy) && xy.0 <= find(lat, lines[j])->0 && find(lat, lines[j])->0
                + lines[j].len() <= xy.1) by {
            if j < n {
                assert(init[j] == lines[j]);
            }
        }
        if lines_extent(lat, lines) is Some {
            let xy = lines_extent(lat, lines)->0;
            if lines_extent(lat, init) is Some {
                let pxy = lines_extent(lat, init)->0;
                let i0 = choose|i: int| 0 <= i < init.len() && find(lat, #[trigger] init[i]) == Some(pxy.0);
                let k0 = choose|k: int|
                    0 <= k < init.len() && find(lat, #[trigger] init[k]) is Some && pxy.1 == find(
                        lat,
                        init[k],
                    )->0 + init[k].len();
                assert(lines[i0] == init[i0]);
                assert(lines[k0] == init[k0]);
                if find(lat, lines.last()) is Some {
                    assert(find(lat, lines[n]) is Some);
                }
            } else {
                assert(find(lat, lines[n]) is Some);
            }
        }
    }
}

/// On the line-by-line path, the span covers every kept line of the selection that
/// occurs in the page: it starts at the smallest start of those lines and ends at the
/// largest end.
pub proof fn law_lines_span_covers_found_lines(lat: Seq<char>, selection: Seq<char>)
    ensures
        forall|j: int|
            0 <= j < kept_lines(split_on(selection, '\n')).len() && find(
                lat,
                #[trigger] kept_lines(split_on(selection, '\n'))[j],
            ) is Some ==> (lines_span(lat, selection) matches Some(xy) && xy.0 <= find(
                lat,
                kept_lines(split_on(selection, '\n'))[j],
            )->0 && find(lat, kept_lines(split_on(selection, '\n'))[j])->0 + kept_lines(
                split_on(selection, '\n'),
            )[j].len() <= xy.1),
        lines_span(lat, selection) matches Some(xy) ==> (exists|i: int|
            0 <= i < kept_lines(split_on(selection, '\n')).len() && find(
                lat,
                #[trigger] kept_lines(split_on(selection, '\n'))[i],
            ) == Some(xy.0)) && (exists|k: int|
            0 <= k < kept_lines(split_on(selection, '\n')).len() && find(
                lat,
                #[trigger] kept_lines(split_on(selection, '\n'))[k],
            ) is Some && xy.1 == find(lat, kept_lines(split_on(selection, '\n'))[k])->0 + kept_lines(
                split_on(selection, '\n'),
            )[k].len()),
{
    let lines = kept_lines(split_on(selection, '\n'));
    lemma_extent_covers(lat, lines);
    lemma_kept_lines_long(split_on(selection, '\n'));
    lemma_lines_extent_bounds(lat, lines);
}

} // verus!
