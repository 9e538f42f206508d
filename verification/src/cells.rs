//! Cell-width measurement of Unicode text: how many fixed-width terminal
//! columns a codepoint or a string occupies.

use unicode_segmentation::UnicodeSegmentation;
use vstd::prelude::*;

use crate::cache::MeasurementCache;
use crate::cell_widths::{cell_width_table, lemma_table_sorted, table_entry, width_table};

verus! {

/// Does the inclusive range `e` contain the codepoint `cp`?
pub open spec fn covers(e: (u32, u32, u32), cp: u32) -> bool {
    e.0 <= cp && cp <= e.1
}

/// Some range of the table contains `cp`.
pub open spec fn covering_exists(t: Seq<(u32, u32, u32)>, cp: u32) -> bool {
    exists|i: int| 0 <= i < t.len() && covers(#[trigger] t[i], cp)
}

/// A well-formed width table: every range is non-empty, ranges are sorted
/// and pairwise disjoint (each ends strictly before the next begins), and
/// every width is at most 2.
pub open spec fn table_wf(t: Seq<(u32, u32, u32)>) -> bool {
    &&& forall|i: int| 0 <= i < t.len() ==> (#[trigger] t[i]).0 <= t[i].1
    &&& forall|i: int| 0 <= i && i + 1 < t.len() ==> (#[trigger] t[i]).1 < t[i + 1].0
    &&& forall|i: int| 0 <= i < t.len() ==> (#[trigger] t[i]).2 <= 2
}

/// The linear-scan reference lookup: the width of the range containing `cp`,
/// or 1 if no range does.
pub open spec fn table_lookup(t: Seq<(u32, u32, u32)>, cp: u32) -> u32 {
    if covering_exists(t, cp) {
        let i = choose|i: int| 0 <= i < t.len() && covers(#[trigger] t[i], cp);
        t[i].2
    } else {
        1
    }
}

/// The number of cells the codepoint `cp` occupies on screen.
pub open spec fn char_width(cp: u32) -> u32 {
    table_lookup(cell_width_table(), cp)
}

/// The number of cells a string occupies: the sum of the widths of its
/// Unicode scalar values.
pub open spec fn cell_len_spec(s: Seq<char>) -> int
    decreases s.len(),
{
    if s.len() == 0 {
        0
    } else {
        char_width(s[0] as u32) + cell_len_spec(s.drop_first())
    }
}

/// In a sorted, disjoint table an earlier range ends before a later one
/// begins.
proof fn lemma_wf_ranges_ordered(t: Seq<(u32, u32, u32)>, i: int, j: int)
    requires
        table_wf(t),
        0 <= i < j < t.len(),
    ensures
        t[i].1 < t[j].0,
    decreases j - i,
{
    if j == i + 1 {
    } else {
        lemma_wf_ranges_ordered(t, i, j - 1);
        assert(t[j - 1].1 < t[j].0);
    }
}

/// In a well-formed table at most one range contains `cp`, so the lookup
/// returns the width of whichever range is known to contain it.
proof fn lemma_lookup_covered(t: Seq<(u32, u32, u32)>, cp: u32, j: int)
    requires
        table_wf(t),
        0 <= j < t.len(),
        covers(t[j], cp),
    ensures
        table_lookup(t, cp) == t[j].2,
{
    assert(covering_exists(t, cp));
    let i = choose|i: int| 0 <= i < t.len() && covers(#[trigger] t[i], cp);
    if i < j {
        lemma_wf_ranges_ordered(t, i, j);
        assert(false);
    } else if j < i {
        lemma_wf_ranges_ordered(t, j, i);
        assert(false);
    }
}

/// The codepoint-width table is well formed.
pub proof fn lemma_cell_width_table_wf()
    ensures
        table_wf(cell_width_table()),
{
    lemma_table_sorted();
    assert forall|i: int| 0 <= i < cell_width_table().len() implies (
        #[trigger] cell_width_table()[i]).0 <= cell_width_table()[i].1 by {
        assert(cell_width_table()[i] == table_entry(i));
    }
    assert forall|i: int| 0 <= i && i + 1 < cell_width_table().len() implies (
        #[trigger] cell_width_table()[i]).1 < cell_width_table()[i + 1].0 by {
        assert(cell_width_table()[i] == table_entry(i));
        assert(cell_width_table()[i + 1] == table_entry(i + 1));
    }
    assert forall|i: int| 0 <= i < cell_width_table().len() implies (
        #[trigger] cell_width_table()[i]).2 <= 2 by {
        assert(cell_width_table()[i] == table_entry(i));
    }
}

/// Every codepoint occupies at most two cells.
pub proof fn lemma_char_width_le_2(cp: u32)
    ensures
        0 <= char_width(cp) <= 2,
{
    lemma_cell_width_table_wf();
}

/// The width of a string is between zero and twice its length.
pub proof fn lemma_cell_len_bounds(s: Seq<char>)
    ensures
        0 <= cell_len_spec(s) <= 2 * s.len(),
    decreases s.len(),
{
    if s.len() == 0 {
    } else {
        lemma_char_width_le_2(s[0] as u32);
        lemma_cell_len_bounds(s.drop_first());
    }
}

/// String width is additive over concatenation.
pub proof fn lemma_cell_len_add(a: Seq<char>, b: Seq<char>)
    ensures
        cell_len_spec(a + b) == cell_len_spec(a) + cell_len_spec(b),
    decreases a.len(),
{
    if a.len() == 0 {
        assert(a + b =~= b);
    } else {
        assert((a + b).drop_first() =~= a.drop_first() + b);
        lemma_cell_len_add(a.drop_first(), b);
    }
}

/// Appending one character adds that character's width.
pub proof fn lemma_cell_len_push(s: Seq<char>, c: char)
    ensures
        cell_len_spec(s.push(c)) == cell_len_spec(s) + char_width(c as u32),
{
    assert(s.push(c) =~= s + seq![c]);
    lemma_cell_len_add(s, seq![c]);
    assert(cell_len_spec(seq![c]) == char_width(c as u32) + cell_len_spec(
        seq![c].drop_first(),
    ));
    assert(seq![c].drop_first() =~= Seq::<char>::empty());
}

/// Binary search for the range containing `cp` over a sorted, disjoint
/// table; a codepoint in no range occupies one cell.
pub fn table_lookup_binary(t: &Vec<(u32, u32, u32)>, cp: u32) -> (w: u32)
    requires
        table_wf(t@),
    ensures
        w == table_lookup(t@, cp),
{
    let mut lo: usize = 0;
    let mut hi: usize = t.len();
    while lo < hi
        invariant
            table_wf(t@),
            lo <= hi <= t@.len(),
            forall|j: int| 0 <= j < lo ==> (#[trigger] t@[j]).1 < cp,
            forall|j: int| hi <= j < t@.len() ==> cp < (#[trigger] t@[j]).0,
        decreases hi - lo,
    {
        let mid = lo + (hi - lo) / 2;
        let e = t[mid];
        if cp < e.0 {
            proof {
                assert forall|j: int| mid <= j < t@.len() implies cp < (#[trigger] t@[j]).0 by {
                    if mid < j {
                        lemma_wf_ranges_ordered(t@, mid as int, j);
                    }
                }
            }
            hi = mid;
        } else if cp > e.1 {
            proof {
                assert forall|j: int| 0 <= j < mid + 1 implies (#[trigger] t@[j]).1 < cp by {
                    if j < mid {
                        lemma_wf_ranges_ordered(t@, j, mid as int);
                    }
                }
            }
            lo = mid + 1;
        } else {
            proof {
                lemma_lookup_covered(t@, cp, mid as int);
            }
            return e.2;
        }
    }
    proof {
        assert forall|i: int| 0 <= i < t@.len() implies !covers(#[trigger] t@[i], cp) by {
            if i < lo {
                assert(t@[i].1 < cp);
            } else {
                assert(cp < t@[i].0);
            }
        }
        assert(!covering_exists(t@, cp));
    }
    1
}

/// Scan the whole table in order for the range containing `cp`; a codepoint
/// in no range occupies one cell.
pub fn table_lookup_linear(t: &Vec<(u32, u32, u32)>, cp: u32) -> (w: u32)
    requires
        table_wf(t@),
    ensures
        w == table_lookup(t@, cp),
{
    let mut i: usize = 0;
    while i < t.len()
        invariant
            table_wf(t@),
            i <= t@.len(),
            forall|j: int| 0 <= j < i ==> !covers(#[trigger] t@[j], cp),
        decreases t@.len() - i,
    {
        let e = t[i];
        if e.0 <= cp && cp <= e.1 {
            proof {
                lemma_lookup_covered(t@, cp, i as int);
            }
            return e.2;
        }
        i = i + 1;
    }
    assert(!covering_exists(t@, cp));
    1
}

/// Get the cell size of a codepoint: 0, 1 or 2 columns.
pub fn get_codepoint_cell_size(codepoint: u32) -> (w: u32)
    ensures
        w == char_width(codepoint),
        w <= 2,
{
    let table = width_table();
    proof {
        lemma_cell_width_table_wf();
        lemma_char_width_le_2(codepoint);
    }
    table_lookup_binary(&table, codepoint)
}

/// Get the cell size of a character: 0, 1 or 2 columns.
pub fn get_character_cell_size(character: char) -> (w: u32)
    ensures
        w == char_width(character as u32),
        w <= 2,
{
    get_codepoint_cell_size(character as u32)
}

/// The characters of `text`, in order.
pub fn str_to_chars(text: &str) -> (v: Vec<char>)
    ensures
        v@ == text@,
{
    let n = text.unicode_len();
    let mut v: Vec<char> = Vec::new();
    let mut i: usize = 0;
    while i < n
        invariant
            n == text@.len(),
            i <= n,
            v@ =~= text@.subrange(0, i as int),
        decreases n - i,
    {
        v.push(text.get_char(i));
        proof {
            assert(v@ =~= text@.subrange(0, i + 1));
        }
        i = i + 1;
    }
    proof {
        assert(v@ =~= text@);
    }
    v
}

/// Sum the cell widths of every character of `text`, reading the width
/// table directly.
pub(crate) fn measure_width(text: &str) -> (r: u32)
    requires
        cell_len_spec(text@) <= u32::MAX,
    ensures
        r == cell_len_spec(text@),
{
    let chars = str_to_chars(text);
    let table = width_table();
    proof {
        lemma_cell_width_table_wf();
    }
    let n = chars.len();
    let mut total: u32 = 0;
    let mut i: usize = 0;
    while i < n
        invariant
            table_wf(table@),
            table@ == cell_width_table(),
            n == chars@.len(),
            chars@ == text@,
            i <= n,
            cell_len_spec(text@) <= u32::MAX,
            total == cell_len_spec(text@.subrange(0, i as int)),
        decreases n - i,
    {
        let w = table_lookup_binary(&table, chars[i] as u32);
        proof {
            let pre = text@.subrange(0, i as int);
            lemma_cell_len_push(pre, text@[i as int]);
            assert(pre.push(text@[i as int]) =~= text@.subrange(0, i + 1));
            lemma_cell_len_prefix_bound(text@, i + 1);
        }
        total = total + w;
        i = i + 1;
    }
    proof {
        assert(text@.subrange(0, n as int) =~= text@);
    }
    total
}

/// The width of a prefix never exceeds the width of the whole string.
pub proof fn lemma_cell_len_prefix_bound(s: Seq<char>, k: int)
    requires
        0 <= k <= s.len(),
    ensures
        cell_len_spec(s.subrange(0, k)) <= cell_len_spec(s),
{
    assert(s =~= s.subrange(0, k) + s.subrange(k, s.len() as int));
    lemma_cell_len_add(s.subrange(0, k), s.subrange(k, s.len() as int));
    lemma_cell_len_bounds(s.subrange(k, s.len() as int));
}

/// A codepoint from the most common single-cell ranges: printable ASCII and
/// a few Latin-adjacent stretches, none of which the width table covers.
pub open spec fn is_plain_cp(cp: u32) -> bool {
    (0x20 <= cp && cp <= 0x6f) || cp == 0xa0 || cp == 0x2ff || (0x370 <= cp && cp <= 0x482)
}

/// Every character of the string lies in the plain single-cell ranges.
pub open spec fn all_plain(s: Seq<char>) -> bool {
    forall|i: int| 0 <= i < s.len() ==> is_plain_cp((#[trigger] s[i]) as u32)
}

/// No range of the width table covers a plain codepoint, so a plain
/// codepoint occupies exactly one cell.
pub proof fn lemma_plain_char_width(cp: u32)
    requires
        is_plain_cp(cp),
    ensures
        char_width(cp) == 1,
{
    assert forall|i: int| 0 <= i < cell_width_table().len() implies !covers(
        #[trigger] cell_width_table()[i],
        cp,
    ) by {
        assert(cell_width_table()[i] == table_entry(i));
    }
    assert(!covering_exists(cell_width_table(), cp));
}

/// A string of plain characters occupies one cell per character.
pub proof fn lemma_plain_width(s: Seq<char>)
    requires
        all_plain(s),
    ensures
        cell_len_spec(s) == s.len(),
    decreases s.len(),
{
    if s.len() == 0 {
    } else {
        lemma_plain_char_width(s[0] as u32);
        assert(all_plain(s.drop_first()));
        lemma_plain_width(s.drop_first());
    }
}

/// Does every character of `text` lie in the plain single-cell ranges?
fn is_plain(text: &str) -> (r: bool)
    ensures
        r == all_plain(text@),
{
    let n = text.unicode_len();
    let mut i: usize = 0;
    while i < n
        invariant
            n == text@.len(),
            i <= n,
            forall|j: int| 0 <= j < i ==> is_plain_cp((#[trigger] text@[j]) as u32),
        decreases n - i,
    {
        let cp = text.get_char(i) as u32;
        if !((0x20 <= cp && cp <= 0x6f) || cp == 0xa0 || cp == 0x2ff || (0x370 <= cp && cp
            <= 0x482)) {
            return false;
        }
        i = i + 1;
    }
    true
}

/// A run of `n` space characters.
pub open spec fn spaces(n: int) -> Seq<char> {
    Seq::new(n as nat, |i: int| ' ')
}

/// A run of spaces is one cell per space.
pub proof fn lemma_spaces_width(n: int)
    requires
        n >= 0,
    ensures
        cell_len_spec(spaces(n)) == n,
    decreases n,
{
    if n == 0 {
        assert(spaces(0) =~= Seq::<char>::empty());
    } else {
        lemma_plain_char_width(' ' as u32);
        assert(spaces(n).drop_first() =~= spaces(n - 1));
        lemma_spaces_width(n - 1);
        assert(cell_len_spec(spaces(n)) == char_width(spaces(n)[0] as u32) + cell_len_spec(
            spaces(n).drop_first(),
        ));
    }
}

/// Append `n` space characters to a string.
fn append_spaces(out: &mut String, n: u32)
    ensures
        final(out)@ == old(out)@ + spaces(n as int),
{
    let mut i: u32 = 0;
    proof {
        reveal_strlit(" ");
    }
    while i < n
        invariant
            i <= n,
            out@ == old(out)@ + spaces(i as int),
        decreases n - i,
    {
        out.append(" ");
        proof {
            reveal_strlit(" ");
            assert(" "@ =~= seq![' ']);
            assert((old(out)@ + spaces(i as int)) + seq![' '] =~= old(out)@ + spaces(i + 1));
        }
        i = i + 1;
    }
}

/// The concatenation of a sequence of strings, in order.
pub open spec fn concat_all(ss: Seq<Seq<char>>) -> Seq<char>
    decreases ss.len(),
{
    if ss.len() == 0 {
        Seq::empty()
    } else {
        ss[0] + concat_all(ss.drop_first())
    }
}

/// Concatenating one more piece appends it at the end.
pub proof fn lemma_concat_take_step(ss: Seq<Seq<char>>, k: int)
    requires
        0 <= k < ss.len(),
    ensures
        concat_all(ss.take(k + 1)) == concat_all(ss.take(k)) + ss[k],
    decreases ss.len(),
{
    if k == 0 {
        assert(ss.take(1).drop_first() =~= Seq::<Seq<char>>::empty());
        assert(ss.take(0) =~= Seq::<Seq<char>>::empty());
        assert(ss.take(1)[0] == ss[0]);
        assert(concat_all(ss.take(1)) == ss.take(1)[0] + concat_all(ss.take(1).drop_first()));
        assert(concat_all(ss.take(1)) =~= ss[0]);
        assert(concat_all(ss.take(0)) + ss[0] =~= ss[0]);
    } else {
        lemma_concat_take_step(ss.drop_first(), k - 1);
        assert(ss.drop_first().take(k) =~= ss.take(k + 1).drop_first());
        assert(ss.drop_first().take(k - 1) =~= ss.take(k).drop_first());
        assert(ss.take(k + 1)[0] == ss[0]);
        assert(ss.take(k)[0] == ss[0]);
        assert(ss.drop_first()[k - 1] == ss[k]);
        assert(concat_all(ss.take(k + 1)) == ss[0] + concat_all(ss.take(k + 1).drop_first()));
        assert(concat_all(ss.take(k)) == ss[0] + concat_all(ss.take(k).drop_first()));
        assert((ss[0] + concat_all(ss.take(k).drop_first())) + ss[k] =~= ss[0] + (concat_all(
            ss.take(k).drop_first(),
        ) + ss[k]));
    }
}

/// Taking every piece concatenates to the whole.
pub proof fn lemma_concat_take_all(ss: Seq<Seq<char>>)
    ensures
        concat_all(ss.take(ss.len() as int)) == concat_all(ss),
{
    assert(ss.take(ss.len() as int) =~= ss);
}

/// A concatenation splits at any piece boundary.
pub proof fn lemma_concat_split(ss: Seq<Seq<char>>, k: int)
    requires
        0 <= k <= ss.len(),
    ensures
        concat_all(ss) == concat_all(ss.take(k)) + concat_all(ss.skip(k)),
    decreases k,
{
    if k == 0 {
        assert(ss.take(0) =~= Seq::<Seq<char>>::empty());
        assert(ss.skip(0) =~= ss);
        assert(concat_all(ss.take(0)) + concat_all(ss) =~= concat_all(ss));
    } else {
        let rest = ss.drop_first();
        lemma_concat_split(rest, k - 1);
        assert(ss.take(k).drop_first() =~= rest.take(k - 1));
        assert(ss.skip(k) =~= rest.skip(k - 1));
        assert(ss.take(k)[0] == ss[0]);
        assert(concat_all(ss.take(k)) == ss[0] + concat_all(rest.take(k - 1)));
        assert((ss[0] + concat_all(rest.take(k - 1))) + concat_all(rest.skip(k - 1)) =~= ss[0]
            + (concat_all(rest.take(k - 1)) + concat_all(rest.skip(k - 1))));
    }
}

/// The cell width of the first `k` pieces of a segmentation.
pub open spec fn prefix_width(ss: Seq<Seq<char>>, k: int) -> int {
    cell_len_spec(concat_all(ss.take(k)))
}

/// A prefix of a segmentation is never wider than the whole.
pub proof fn lemma_prefix_width_le(ss: Seq<Seq<char>>, k: int)
    requires
        0 <= k <= ss.len(),
    ensures
        prefix_width(ss, k) <= cell_len_spec(concat_all(ss)),
{
    lemma_concat_split(ss, k);
    lemma_cell_len_add(concat_all(ss.take(k)), concat_all(ss.skip(k)));
    lemma_cell_len_bounds(concat_all(ss.skip(k)));
}

/// Adding the next piece adds that piece's width.
pub proof fn lemma_prefix_width_step(ss: Seq<Seq<char>>, k: int)
    requires
        0 <= k < ss.len(),
    ensures
        prefix_width(ss, k + 1) == prefix_width(ss, k) + cell_len_spec(ss[k]),
{
    lemma_concat_take_step(ss, k);
    lemma_cell_len_add(concat_all(ss.take(k)), ss[k]);
}

/// The number of leading pieces of the segmentation `ss` that fit within
/// `total` cells: the largest prefix whose width does not exceed `total`.
pub open spec fn widest_fit(ss: Seq<Seq<char>>, total: int) -> int
    decreases ss.len(),
{
    if ss.len() == 0 {
        0
    } else if cell_len_spec(concat_all(ss)) <= total {
        ss.len() as int
    } else {
        widest_fit(ss.drop_last(), total)
    }
}

/// The grapheme clusters of a string, in order: the user-perceived
/// characters of Unicode text segmentation. Each cluster is a non-empty run
/// of consecutive characters, and together they partition the string.
pub uninterp spec fn graphemes_of(s: Seq<char>) -> Seq<Seq<char>>;

/// Relies on unicode_segmentation's UnicodeSegmentation::graphemes: it
/// yields the extended grapheme clusters of the string, consecutive
/// non-empty sub-slices that together cover the whole string.
#[verifier::external_body]
fn graphemes(text: &str) -> (r: Vec<String>)
    ensures
        r.deep_view() == graphemes_of(text@),
        concat_all(r.deep_view()) == text@,
        forall|i: int| 0 <= i < r.deep_view().len() ==> (#[trigger] r.deep_view()[i]).len() > 0,
{
    UnicodeSegmentation::graphemes(text, true).map(|g| g.to_string()).collect()
}

/// The widest fitting prefix is exactly the point where the running width
/// first exceeds the bound.
pub proof fn lemma_widest_fit_at(ss: Seq<Seq<char>>, total: int, j: int)
    requires
        total >= 0,
        0 <= j <= ss.len(),
        prefix_width(ss, j) <= total,
        j < ss.len() ==> prefix_width(ss, j + 1) > total,
    ensures
        widest_fit(ss, total) == j,
    decreases ss.len(),
{
    if ss.len() == 0 {
    } else if cell_len_spec(concat_all(ss)) <= total {
        if j < ss.len() {
            lemma_prefix_width_le(ss, j + 1);
            assert(false);
        }
    } else {
        lemma_concat_take_all(ss);
        assert(j < ss.len());
        let front = ss.drop_last();
        assert(front.take(j) =~= ss.take(j));
        if j < front.len() {
            assert(front.take(j + 1) =~= ss.take(j + 1));
        }
        lemma_widest_fit_at(front, total, j);
    }
}

/// Strings of more grapheme clusters than this are measured but not cached.
pub const MAX_CACHED_GRAPHEMES: usize = 512;

/// Get the number of cells required to display `text`: the sum of the cell
/// widths of its Unicode scalar values. The measurement is looked up in,
/// and recorded into, the given bounded cache; because the width is a pure
/// function of the text, a cached measurement always equals a fresh one.
pub fn cell_len(text: &str, cache: &mut MeasurementCache) -> (r: u32)
    requires
        old(cache).wf(),
        cell_len_spec(text@) <= u32::MAX,
    ensures
        r == cell_len_spec(text@),
        final(cache).wf(),
{
    if let Some(cached_result) = cache.lookup(text) {
        return cached_result;
    }
    let total_size = measure_width(text);
    let clusters = graphemes(text);
    if clusters.len() <= MAX_CACHED_GRAPHEMES {
        cache.store(text, total_size);
    }
    total_size
}

/// What `set_cell_size` returns. Text narrower than `total` is padded on
/// the right with spaces. Text wider than `total` is cut back to its widest
/// grapheme-cluster prefix that fits, then padded up to `total`; the padding
/// is empty when the prefix fits exactly, and otherwise stands in for the
/// cluster that straddled the bound, which is dropped whole rather than
/// split.
pub open spec fn set_cell_size_spec(s: Seq<char>, total: u32) -> Seq<char> {
    let w = cell_len_spec(s);
    if total == 0 {
        Seq::empty()
    } else if w <= total {
        s + spaces(total - w)
    } else {
        let gs = graphemes_of(s);
        let k = widest_fit(gs, total as int);
        let p = concat_all(gs.take(k));
        p + spaces(total - cell_len_spec(p))
    }
}

/// Set the length of `text` to fit within the given number of cells, padding
/// with spaces or dropping whole grapheme clusters as needed. The result
/// occupies exactly `total` cells.
pub fn set_cell_size(text: String, total: u32) -> (r: String)
    requires
        cell_len_spec(text@) <= u32::MAX,
    ensures
        r@ == set_cell_size_spec(text@, total),
        cell_len_spec(r@) == total,
{
    proof {
        lemma_cell_len_bounds(text@);
    }
    // Fast path for the most common ranges: every character is one cell, so
    // padding needs no table lookups at all.
    if is_plain(text.as_str()) {
        proof {
            lemma_plain_width(text@);
        }
        let size = text.unicode_len();
        if (size as u64) < (total as u64) {
            let ghost t0 = text@;
            let pad_n = total - (size as u32);
            let mut out = text;
            append_spaces(&mut out, pad_n);
            proof {
                lemma_cell_len_add(t0, spaces(pad_n as int));
                lemma_spaces_width(pad_n as int);
            }
            return out;
        }
        // The text is at least as wide as `total`: the general path below
        // settles it.
    }
    if total == 0 {
        let out = String::new();
        return out;
    }
    let w = measure_width(text.as_str());
    if w == total {
        proof {
            assert(text@ + spaces(0) =~= text@);
        }
        return text;
    }
    if w < total {
        let ghost t0 = text@;
        let pad_n = total - w;
        let mut out = text;
        append_spaces(&mut out, pad_n);
        proof {
            lemma_cell_len_add(t0, spaces(pad_n as int));
            lemma_spaces_width(pad_n as int);
        }
        return out;
    }
    // The text is wider than `total`: find the widest grapheme-cluster
    // prefix that still fits.
    let gs = graphemes(text.as_str());
    let ghost gsv = gs.deep_view();
    let n = gs.len();
    let mut k: usize = 0;
    let mut wk: u32 = 0;
    while k < n
        invariant_except_break
            gsv == gs.deep_view(),
            gsv.len() == n,
            concat_all(gsv) == text@,
            cell_len_spec(text@) <= u32::MAX,
            k <= n,
            wk == prefix_width(gsv, k as int),
            wk <= total,
        ensures
            gsv == gs.deep_view(),
            k <= n,
            wk == prefix_width(gsv, k as int),
            wk <= total,
            k == n || prefix_width(gsv, k as int + 1) > total,
        decreases n - k,
    {
        proof {
            lemma_prefix_width_le(gsv, k as int + 1);
            lemma_prefix_width_step(gsv, k as int);
            lemma_cell_len_bounds(gsv[k as int]);
        }
        let gw = measure_width(gs[k].as_str());
        if (wk as u64) + (gw as u64) <= (total as u64) {
            wk = wk + gw;
            k = k + 1;
        } else {
            break;
        }
    }
    proof {
        if k == n {
            lemma_concat_take_all(gsv);
            assert(prefix_width(gsv, n as int) == cell_len_spec(text@));
            assert(false);
        }
        lemma_widest_fit_at(gsv, total as int, k as int);
    }
    let mut out = String::new();
    let mut j: usize = 0;
    while j < k
        invariant
            gsv == gs.deep_view(),
            gsv.len() == n,
            k < n,
            j <= k,
            out@ == concat_all(gsv.take(j as int)),
        decreases k - j,
    {
        proof {
            lemma_concat_take_step(gsv, j as int);
        }
        out.append(gs[j].as_str());
        j = j + 1;
    }
    let pad_n = total - wk;
    append_spaces(&mut out, pad_n);
    proof {
        lemma_cell_len_add(concat_all(gsv.take(k as int)), spaces(pad_n as int));
        lemma_spaces_width(pad_n as int);
    }
    out
}

/// Relies on std's String::push: appends exactly one character.
#[verifier::external_body]
fn push_char(s: &mut String, c: char)
    ensures
        final(s)@ == old(s)@.push(c),
{
    s.push(c);
}

/// The characters of `v`, as a string.
fn chars_to_string(v: &Vec<char>) -> (s: String)
    ensures
        s@ == v@,
{
    let mut s = String::new();
    let mut i: usize = 0;
    while i < v.len()
        invariant
            i <= v@.len(),
            s@ == v@.subrange(0, i as int),
        decreases v@.len() - i,
    {
        push_char(&mut s, v[i]);
        proof {
            assert(v@.subrange(0, i as int).push(v@[i as int]) =~= v@.subrange(0, i + 1));
        }
        i = i + 1;
    }
    proof {
        assert(v@.subrange(0, v@.len() as int) =~= v@);
    }
    s
}

/// Appending one more piece appends its characters.
pub proof fn lemma_concat_push(ss: Seq<Seq<char>>, x: Seq<char>)
    ensures
        concat_all(ss.push(x)) == concat_all(ss) + x,
    decreases ss.len(),
{
    if ss.len() == 0 {
        assert(ss.push(x).drop_first() =~= Seq::<Seq<char>>::empty());
        assert(ss.push(x)[0] == x);
        assert(concat_all(Seq::<Seq<char>>::empty()) =~= Seq::<char>::empty());
        assert(concat_all(ss.push(x)) == ss.push(x)[0] + concat_all(ss.push(x).drop_first()));
        assert(concat_all(ss.push(x)) =~= x);
        assert(concat_all(ss) + x =~= x);
    } else {
        assert(ss.push(x).drop_first() =~= ss.drop_first().push(x));
        lemma_concat_push(ss.drop_first(), x);
        assert(ss.push(x)[0] == ss[0]);
        assert((ss[0] + concat_all(ss.drop_first())) + x =~= ss[0] + (concat_all(ss.drop_first())
            + x));
    }
}

/// A zero value in place of an absent starting offset.
pub open spec fn or_zero(position: Option<u32>) -> u32 {
    match position {
        Some(p) => p,
        None => 0,
    }
}

/// One step of the reverse chunker: consuming the character `c`. The state
/// is the chunks built so far, the last of them still open, and the open
/// chunk's running width. A character that fits within `max_size` joins the
/// open chunk; one that does not closes it and opens a new chunk of its own,
/// even if that single character is by itself wider than `max_size`.
pub open spec fn chop_step(acc: (Seq<Seq<char>>, int), c: char, max_size: int) -> (
    Seq<Seq<char>>,
    int,
) {
    let w = char_width(c as u32) as int;
    if acc.1 + w > max_size {
        (acc.0.push(seq![c]), w)
    } else {
        (acc.0.update(acc.0.len() - 1, acc.0.last().push(c)), acc.1 + w)
    }
}

/// The chunker's state after consuming the characters of `s` from last to
/// first, starting from one empty open chunk whose running width is seeded
/// with `position`.
pub open spec fn chop_state(s: Seq<char>, max_size: int, position: int) -> (Seq<Seq<char>>, int)
    decreases s.len(),
{
    if s.len() == 0 {
        (seq![Seq::<char>::empty()], position)
    } else {
        chop_step(chop_state(s.drop_first(), max_size, position), s[0], max_size)
    }
}

/// What `chop_cells` returns: the chunks left after consuming the whole
/// string.
pub open spec fn chop_cells_spec(s: Seq<char>, max_size: u32, position: u32) -> Seq<Seq<char>> {
    chop_state(s, max_size as int, position as int).0
}

/// The chunker always leaves at least one chunk open.
pub proof fn lemma_chop_state_nonempty(s: Seq<char>, max_size: int, position: int)
    ensures
        chop_state(s, max_size, position).0.len() >= 1,
    decreases s.len(),
{
    if s.len() == 0 {
    } else {
        lemma_chop_state_nonempty(s.drop_first(), max_size, position);
    }
}

/// No character is dropped or duplicated: the chunks concatenate to the
/// reversed source string.
pub proof fn lemma_chop_concat(s: Seq<char>, max_size: int, position: int)
    ensures
        concat_all(chop_state(s, max_size, position).0) == s.reverse(),
    decreases s.len(),
{
    if s.len() == 0 {
        let st = chop_state(s, max_size, position);
        assert(st.0 =~= seq![Seq::<char>::empty()]);
        assert(st.0.drop_first() =~= Seq::<Seq<char>>::empty());
        assert(concat_all(Seq::<Seq<char>>::empty()) =~= Seq::<char>::empty());
        assert(concat_all(st.0) == st.0[0] + concat_all(st.0.drop_first()));
        assert(concat_all(st.0) =~= Seq::<char>::empty());
        assert(s.reverse() =~= Seq::<char>::empty());
    } else {
        let prev = chop_state(s.drop_first(), max_size, position);
        lemma_chop_concat(s.drop_first(), max_size, position);
        let st = chop_step(prev, s[0], max_size);
        let w = char_width(s[0] as u32) as int;
        lemma_chop_state_nonempty(s.drop_first(), max_size, position);
        if prev.1 + w > max_size {
            lemma_concat_push(prev.0, seq![s[0]]);
        } else {
            let closed = prev.0.take(prev.0.len() - 1);
            assert(prev.0 =~= closed.push(prev.0.last()));
            lemma_concat_push(closed, prev.0.last());
            assert(st.0 =~= closed.push(prev.0.last().push(s[0])));
            lemma_concat_push(closed, prev.0.last().push(s[0]));
            assert(prev.0.last().push(s[0]) =~= prev.0.last() + seq![s[0]]);
            assert(concat_all(closed) + (prev.0.last() + seq![s[0]]) =~= (concat_all(closed)
                + prev.0.last()) + seq![s[0]]);
        }
        assert(s.drop_first().reverse() + seq![s[0]] =~= s.reverse());
    }
}

/// Every chunk the chunker builds respects the width bound, except that a
/// chunk of a single character may exceed it (no character is ever dropped
/// or split, even one wider than the bound); the first chunk's width is
/// measured together with the starting offset that seeded it. The running
/// width is always the open chunk's width, seeded with the offset while the
/// first chunk is still open.
pub proof fn lemma_chop_bounds(s: Seq<char>, max_size: int, position: int)
    ensures
        chop_state(s, max_size, position).0.len() >= 1,
        chop_state(s, max_size, position).1 == (if chop_state(s, max_size, position).0.len()
            == 1 {
            position
        } else {
            0
        }) + cell_len_spec(chop_state(s, max_size, position).0.last()),
        position + cell_len_spec(chop_state(s, max_size, position).0[0]) <= max_size
            || chop_state(s, max_size, position).0[0].len() <= 1,
        forall|k: int|
            1 <= k < chop_state(s, max_size, position).0.len() ==> cell_len_spec(
                #[trigger] chop_state(s, max_size, position).0[k],
            ) <= max_size || chop_state(s, max_size, position).0[k].len() == 1,
    decreases s.len(),
{
    if s.len() == 0 {
        let st = chop_state(s, max_size, position);
        assert(st.0 =~= seq![Seq::<char>::empty()]);
    } else {
        lemma_chop_bounds(s.drop_first(), max_size, position);
        let prev = chop_state(s.drop_first(), max_size, position);
        let st = chop_state(s, max_size, position);
        let c = s[0];
        let w = char_width(c as u32) as int;
        lemma_cell_len_push(prev.0.last(), c);
        if prev.1 + w > max_size {
            assert(st.0 == prev.0.push(seq![c]));
            assert(cell_len_spec(seq![c]) == w) by {
                assert(seq![c] =~= Seq::<char>::empty().push(c));
                lemma_cell_len_push(Seq::<char>::empty(), c);
            }
            assert(st.0.last() == seq![c]);
            assert(st.0[0] == prev.0[0]);
            assert forall|k: int|
                1 <= k < st.0.len() implies cell_len_spec(#[trigger] st.0[k]) <= max_size
                || st.0[k].len() == 1 by {
                if k < prev.0.len() {
                    assert(st.0[k] == prev.0[k]);
                    if k == prev.0.len() - 1 && prev.0.len() == 1 {
                        assert(cell_len_spec(prev.0[0]) >= 0) by {
                            lemma_cell_len_bounds(prev.0[0]);
                        }
                    }
                } else {
                    assert(st.0[k] == seq![c]);
                }
            }
        } else {
            assert(st.0 == prev.0.update(prev.0.len() - 1, prev.0.last().push(c)));
            assert(st.0.last() == prev.0.last().push(c));
            assert forall|k: int|
                1 <= k < st.0.len() implies cell_len_spec(#[trigger] st.0[k]) <= max_size
                || st.0[k].len() == 1 by {
                if k < prev.0.len() - 1 {
                    assert(st.0[k] == prev.0[k]);
                }
            }
        }
    }
}

/// Break `text` into chunks of at most `max_size` cells, walking its
/// characters from last to first, so that each chunk holds its characters in
/// reverse order and the first chunk corresponds to the tail of the text.
/// `position` seeds the first chunk's running width, modelling a partially
/// filled line. A single character wider than `max_size` still forms its own
/// chunk: no character is ever dropped or split.
pub fn chop_cells(text: &str, max_size: u32, position: Option<u32>) -> (r: Vec<String>)
    ensures
        r.deep_view() == chop_cells_spec(text@, max_size, or_zero(position)),
        concat_all(r.deep_view()) == text@.reverse(),
        r@.len() >= 1,
        or_zero(position) + cell_len_spec(r.deep_view()[0]) <= max_size || r.deep_view()[0].len()
            <= 1,
        forall|k: int|
            1 <= k < r.deep_view().len() ==> cell_len_spec(#[trigger] r.deep_view()[k])
                <= max_size || r.deep_view()[k].len() == 1,
{
    let pos = match position {
        Some(p) => p,
        None => 0,
    };
    let ghost maxi = max_size as int;
    let ghost posi = pos as int;
    let chars = str_to_chars(text);
    let table = width_table();
    proof {
        lemma_cell_width_table_wf();
    }
    let n = chars.len();
    let mut done: Vec<String> = Vec::new();
    let mut cur: Vec<char> = Vec::new();
    let mut cur_w: u32 = pos;
    let mut i: usize = n;
    while i > 0
        invariant
            table_wf(table@),
            table@ == cell_width_table(),
            n == chars@.len(),
            chars@ == text@,
            maxi == max_size as int,
            posi == pos as int,
            i <= n,
            chop_state(text@.skip(i as int), maxi, posi).0 == done.deep_view().push(cur@),
            chop_state(text@.skip(i as int), maxi, posi).1 == cur_w as int,
        decreases i,
    {
        let c = chars[i - 1];
        let w = table_lookup_binary(&table, c as u32);
        let ghost prev = chop_state(text@.skip(i as int), maxi, posi);
        let ghost s1 = text@.skip(i - 1);
        proof {
            lemma_char_width_le_2(c as u32);
            assert(s1.drop_first() =~= text@.skip(i as int));
            assert(s1[0] == c);
            assert(chop_state(s1, maxi, posi) == chop_step(prev, c, maxi));
        }
        if (cur_w as u64) + (w as u64) > (max_size as u64) {
            done.push(chars_to_string(&cur));
            let mut fresh: Vec<char> = Vec::new();
            fresh.push(c);
            cur = fresh;
            cur_w = w;
            proof {
                assert(prev.1 + char_width(c as u32) > maxi);
                assert(chop_step(prev, c, maxi).0 == prev.0.push(seq![c]));
                assert(chop_state(s1, maxi, posi).0 == prev.0.push(seq![c]));
                assert(done.deep_view().push(cur@) =~= prev.0.push(seq![c]));
            }
        } else {
            cur.push(c);
            cur_w = cur_w + w;
            proof {
                assert(prev.1 + char_width(c as u32) <= maxi);
                assert(chop_step(prev, c, maxi).0 == prev.0.update(
                    prev.0.len() - 1,
                    prev.0.last().push(c),
                ));
                assert(chop_state(s1, maxi, posi).0 == prev.0.update(
                    prev.0.len() - 1,
                    prev.0.last().push(c),
                ));
                assert(done.deep_view().push(cur@) =~= prev.0.update(
                    prev.0.len() - 1,
                    prev.0.last().push(c),
                ));
            }
        }
        i = i - 1;
    }
    done.push(chars_to_string(&cur));
    proof {
        assert(text@.skip(0) =~= text@);
        assert(done.deep_view() =~= chop_cells_spec(text@, max_size, or_zero(position)));
        lemma_chop_concat(text@, maxi, posi);
        lemma_chop_bounds(text@, maxi, posi);
    }
    done
}

} // verus!
