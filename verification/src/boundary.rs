//! The boundary pattern that opens a summary section: a line terminator, a
//! separator line of ten or more dashes (optionally CR-terminated), and a
//! heading line that starts with one or more spaces or tabs followed by the
//! word "Summary" as a whole word.

use vstd::prelude::*;

verus! {

/// Line feed.
pub open spec fn lf() -> u8 {
    10
}

/// Carriage return.
pub open spec fn cr() -> u8 {
    13
}

/// The dash character of the separator line.
pub open spec fn dash() -> u8 {
    45
}

/// Horizontal whitespace admitted before the heading word: space or tab.
pub open spec fn is_line_ws(b: u8) -> bool {
    b == 32 || b == 9
}

/// A word byte: ASCII letter, digit, or underscore. The heading word must not
/// continue into such a byte, so that "Summary" is matched as a whole word.
pub open spec fn is_word_byte(b: u8) -> bool {
    ||| 48 <= b <= 57
    ||| 65 <= b <= 90
    ||| 97 <= b <= 122
    ||| b == 95
}

/// The bytes of the heading word "Summary".
pub open spec fn summary_word() -> Seq<u8> {
    seq![83u8, 117u8, 109u8, 109u8, 97u8, 114u8, 121u8]
}

/// Every byte of `t` in `[a, b)` is a dash.
pub open spec fn all_dashes(t: Seq<u8>, a: int, b: int) -> bool {
    forall|k: int| a <= k < b ==> t[k] == dash()
}

/// Every byte of `t` in `[a, b)` is a space or tab.
pub open spec fn all_line_ws(t: Seq<u8>, a: int, b: int) -> bool {
    forall|k: int| a <= k < b ==> is_line_ws(t[k])
}

/// The heading line begins at `h`: spaces or tabs up to `w`, then "Summary",
/// then the end of the text or a byte that does not continue the word.
pub open spec fn heading_with(t: Seq<u8>, h: int, w: int) -> bool {
    &&& 0 <= h < w
    &&& w + 7 <= t.len()
    &&& all_line_ws(t, h, w)
    &&& t.subrange(w, w + 7) == summary_word()
    &&& w + 7 == t.len() || !is_word_byte(t[w + 7])
}

/// A heading line begins at `h`.
pub open spec fn heading_at(t: Seq<u8>, h: int) -> bool {
    exists|w: int| heading_with(t, h, w)
}

/// The separator part of the boundary: a line feed at `i`, at least ten
/// dashes up to `j`, then the separator line's own terminator (`\n` or
/// `\r\n`), after which the heading line begins at `h`.
pub open spec fn sep_with(t: Seq<u8>, i: int, j: int, h: int) -> bool {
    &&& 0 <= i
    &&& i + 11 <= j < t.len()
    &&& t[i] == lf()
    &&& all_dashes(t, i + 1, j)
    &&& {
        ||| t[j] == lf() && h == j + 1
        ||| t[j] == cr() && j + 1 < t.len() && t[j + 1] == lf() && h == j + 2
    }
}

/// A full boundary: the separator beginning with the line feed at `i`, and
/// the heading line beginning at `h`.
pub open spec fn boundary_spans(t: Seq<u8>, i: int, h: int) -> bool {
    &&& exists|j: int| sep_with(t, i, j, h)
    &&& heading_at(t, h)
}

/// A boundary whose leading line feed stands at `i`.
pub open spec fn boundary_at(t: Seq<u8>, i: int) -> bool {
    exists|h: int| boundary_spans(t, i, h)
}

/// The heading position of the boundary at `i`; meaningful when
/// `boundary_at(t, i)` holds, in which case it is unique.
pub open spec fn heading_of(t: Seq<u8>, i: int) -> int {
    choose|h: int| boundary_spans(t, i, h)
}

/// The end of the dash run is pinned: any separator starting at `i` must end
/// its dashes exactly where the maximal dash run after `i` ends.
proof fn lemma_sep_forces_j(t: Seq<u8>, i: int, j: int, j2: int, h2: int)
    requires
        i + 1 <= j <= t.len(),
        all_dashes(t, i + 1, j),
        j == t.len() || t[j] != dash(),
        sep_with(t, i, j2, h2),
    ensures
        j2 == j,
{
    if j2 < j {
        assert(t[j2] == dash());
        assert(t[j2] == lf() || t[j2] == cr());
        assert(false);
    }
    if j2 > j {
        assert(i + 1 <= j < j2);
        assert(t[j] == dash());
        assert(false);
    }
}

/// A boundary at a given start has exactly one heading position.
pub proof fn lemma_heading_unique(t: Seq<u8>, i: int, h1: int, h2: int)
    requires
        boundary_spans(t, i, h1),
        boundary_spans(t, i, h2),
    ensures
        h1 == h2,
{
    let j1 = choose|j: int| sep_with(t, i, j, h1);
    let j2 = choose|j: int| sep_with(t, i, j, h2);
    if j1 < j2 {
        assert(t[j1] == dash());
        assert(false);
    }
    if j2 < j1 {
        assert(t[j2] == dash());
        assert(false);
    }
}

/// A boundary fits inside the text: its line feed, separator, heading
/// whitespace and heading word all lie within bounds.
pub proof fn lemma_spans_bounds(t: Seq<u8>, i: int, h: int)
    requires
        boundary_spans(t, i, h),
    ensures
        0 <= i,
        i + 12 <= h,
        h + 8 <= t.len(),
{
    let j = choose|j: int| sep_with(t, i, j, h);
    let w = choose|w: int| heading_with(t, h, w);
}

/// A boundary start lies strictly inside the text, with room for the whole
/// pattern after it.
pub proof fn lemma_boundary_bounds(t: Seq<u8>, i: int)
    requires
        boundary_at(t, i),
    ensures
        0 <= i,
        i + 20 <= t.len(),
{
    let h = choose|h: int| boundary_spans(t, i, h);
    lemma_spans_bounds(t, i, h);
}

/// Whether `b` is a word byte.
fn is_word_byte_exec(b: u8) -> (r: bool)
    ensures
        r == is_word_byte(b),
{
    (48 <= b && b <= 57) || (65 <= b && b <= 90) || (97 <= b && b <= 122) || b == 95
}

/// Decide whether a heading line begins at `h`.
fn check_heading(t: &Vec<u8>, h: usize) -> (r: bool)
    requires
        h <= t@.len(),
    ensures
        r == heading_at(t@, h as int),
{
    let n = t.len();
    let mut w = h;
    while w < n && (t[w] == 32 || t[w] == 9)
        invariant
            h <= w <= n == t@.len(),
            all_line_ws(t@, h as int, w as int),
        decreases n - w,
    {
        w = w + 1;
    }
    // `w` is the end of the maximal run of spaces and tabs after `h`; any
    // heading starting at `h` must place its word exactly there.
    assert forall|w2: int| heading_with(t@, h as int, w2) implies w2 == w as int by {
        assert(t@.subrange(w2, w2 + 7)[0] == t@[w2]);
        assert(t@[w2] == 83);
        if w2 < w as int {
            assert(is_line_ws(t@[w2]));
            assert(false);
        }
        if w2 > w as int {
            assert((h as int) <= (w as int) && (w as int) < w2);
            assert(is_line_ws(t@[w as int]));
            assert(false);
        }
    }
    if w == h {
        assert(!heading_at(t@, h as int)) by {
            if heading_at(t@, h as int) {
                let w2 = choose|w2: int| heading_with(t@, h as int, w2);
            }
        }
        return false;
    }
    if n - w < 7 {
        assert(!heading_at(t@, h as int)) by {
            if heading_at(t@, h as int) {
                let w2 = choose|w2: int| heading_with(t@, h as int, w2);
            }
        }
        return false;
    }
    let word_ok = t[w] == 83 && t[w + 1] == 117 && t[w + 2] == 109 && t[w + 3] == 109
        && t[w + 4] == 97 && t[w + 5] == 114 && t[w + 6] == 121;
    if !word_ok {
        assert(!heading_at(t@, h as int)) by {
            if heading_at(t@, h as int) {
                let w2 = choose|w2: int| heading_with(t@, h as int, w2);
                assert(w2 == w as int);
                assert forall|k: int| 0 <= k < 7 implies t@[w as int + k] == summary_word()[k] by {
                    assert(t@.subrange(w as int, w as int + 7)[k] == t@[w as int + k]);
                }
                assert(t@[w as int] == 83);
                assert(t@[w as int + 1] == 117);
                assert(t@[w as int + 2] == 109);
                assert(t@[w as int + 3] == 109);
                assert(t@[w as int + 4] == 97);
                assert(t@[w as int + 5] == 114);
                assert(t@[w as int + 6] == 121);
            }
        }
        return false;
    }
    if w + 7 < n && is_word_byte_exec(t[w + 7]) {
        assert(!heading_at(t@, h as int)) by {
            if heading_at(t@, h as int) {
                let w2 = choose|w2: int| heading_with(t@, h as int, w2);
            }
        }
        return false;
    }
    assert(heading_with(t@, h as int, w as int)) by {
        assert(t@.subrange(w as int, w as int + 7) =~= summary_word());
    }
    true
}

/// Decide whether a boundary starts at `i`, returning its heading position.
fn check_boundary(t: &Vec<u8>, i: usize) -> (r: Option<usize>)
    requires
        i < t@.len(),
    ensures
        match r {
            Some(h) => boundary_spans(t@, i as int, h as int) && i < h <= t@.len(),
            None => !boundary_at(t@, i as int),
        },
{
    let n = t.len();
    if t[i] != 10 {
        assert(!boundary_at(t@, i as int)) by {
            if boundary_at(t@, i as int) {
                let h2 = choose|h2: int| boundary_spans(t@, i as int, h2);
                let j2 = choose|j2: int| sep_with(t@, i as int, j2, h2);
            }
        }
        return None;
    }
    let mut j = i + 1;
    while j < n && t[j] == 45
        invariant
            i < j <= n == t@.len(),
            all_dashes(t@, i as int + 1, j as int),
        decreases n - j,
    {
        j = j + 1;
    }
    if j - (i + 1) < 10 {
        assert(!boundary_at(t@, i as int)) by {
            if boundary_at(t@, i as int) {
                let h2 = choose|h2: int| boundary_spans(t@, i as int, h2);
                let j2 = choose|j2: int| sep_with(t@, i as int, j2, h2);
                lemma_sep_forces_j(t@, i as int, j as int, j2, h2);
            }
        }
        return None;
    }
    let h: usize;
    if j < n && t[j] == 10 {
        h = j + 1;
    } else if j < n && t[j] == 13 && j + 1 < n && t[j + 1] == 10 {
        h = j + 2;
    } else {
        assert(!boundary_at(t@, i as int)) by {
            if boundary_at(t@, i as int) {
                let h2 = choose|h2: int| boundary_spans(t@, i as int, h2);
                let j2 = choose|j2: int| sep_with(t@, i as int, j2, h2);
                lemma_sep_forces_j(t@, i as int, j as int, j2, h2);
            }
        }
        return None;
    }
    assert(exists|j2: int| sep_with(t@, i as int, j2, h as int)) by {
        assert(sep_with(t@, i as int, j as int, h as int));
    }
    if check_heading(t, h) {
        Some(h)
    } else {
        assert(!boundary_at(t@, i as int)) by {
            if boundary_at(t@, i as int) {
                let h2 = choose|h2: int| boundary_spans(t@, i as int, h2);
                let j2 = choose|j2: int| sep_with(t@, i as int, j2, h2);
                lemma_sep_forces_j(t@, i as int, j as int, j2, h2);
                assert(h2 == h as int);
            }
        }
        None
    }
}

/// Find the first boundary at or after `from`: its line feed position and
/// its heading position.
pub fn find_boundary(t: &Vec<u8>, from: usize) -> (r: Option<(usize, usize)>)
    requires
        from <= t@.len(),
    ensures
        match r {
            Some(p) => {
                &&& from <= p.0 < p.1 <= t@.len()
                &&& boundary_spans(t@, p.0 as int, p.1 as int)
                &&& forall|i2: int| from <= i2 < p.0 ==> !boundary_at(t@, i2)
            },
            None => forall|i2: int| from <= i2 ==> !boundary_at(t@, i2),
        },
{
    let n = t.len();
    let mut i = from;
    while i < n
        invariant
            from <= i <= n == t@.len(),
            forall|i2: int| from <= i2 < i ==> !boundary_at(t@, i2),
        decreases n - i,
    {
        match check_boundary(t, i) {
            Some(h) => {
                return Some((i, h));
            },
            None => {},
        }
        i = i + 1;
    }
    assert forall|i2: int| from <= i2 implies !boundary_at(t@, i2) by {
        if boundary_at(t@, i2) {
            lemma_boundary_bounds(t@, i2);
        }
    }
    None
}

} // verus!
