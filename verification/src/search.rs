//! Case-insensitive substring search over the table's rows: in whole-row
//! mode any cell may match; in column-scoped mode only the cell at the
//! configured column index is considered.

use vstd::prelude::*;

verus! {

/// The lower-case folding of a character sequence, as `str::to_lowercase`
/// computes it; the folding depends on the characters alone.
pub uninterp spec fn lower_of(s: Seq<char>) -> Seq<char>;

/// True when `needle` occurs contiguously inside `hay`; every string
/// contains the empty string.
pub open spec fn contains_seq(hay: Seq<char>, needle: Seq<char>) -> bool {
    exists|i: int|
        0 <= i <= hay.len() - needle.len() && #[trigger] hay.subrange(i, i + needle.len())
            == needle
}

/// Relies on `str::to_lowercase`: returns the lower-case equivalent of the
/// characters, a function of the characters alone.
#[verifier::external_body]
pub fn lowercase(s: &str) -> (r: String)
    ensures
        r@ == lower_of(s@),
{
    s.to_lowercase()
}

/// Relies on `str::contains`: true exactly when the pattern string occurs
/// as a substring of the text.
#[verifier::external_body]
pub fn str_contains(hay: &str, needle: &str) -> (r: bool)
    ensures
        r == contains_seq(hay@, needle@),
{
    hay.contains(needle)
}

/// True when a cell, lower-cased, contains the already lower-cased query.
pub open spec fn cell_matches(cell: Seq<char>, query_lower: Seq<char>) -> bool {
    contains_seq(lower_of(cell), query_lower)
}

/// Whole-row match: at least one cell of the row matches.
pub open spec fn row_matches_any(row: Seq<Seq<char>>, query_lower: Seq<char>) -> bool {
    exists|i: int| 0 <= i < row.len() && cell_matches(#[trigger] row[i], query_lower)
}

/// Column-scoped match: the row has a cell at `col` and that cell matches.
pub open spec fn row_matches_at(row: Seq<Seq<char>>, col: int, query_lower: Seq<char>) -> bool {
    0 <= col < row.len() && cell_matches(row[col], query_lower)
}

/// The rows among the first `n` of `data` that match in whole-row mode, in
/// table order.
pub open spec fn filter_any(data: Seq<Seq<Seq<char>>>, query_lower: Seq<char>, n: int) -> Seq<
    Seq<Seq<char>>,
>
    recommends
        n <= data.len(),
    decreases n,
{
    if n <= 0 {
        Seq::empty()
    } else {
        let pre = filter_any(data, query_lower, n - 1);
        if row_matches_any(data[n - 1], query_lower) {
            pre.push(data[n - 1])
        } else {
            pre
        }
    }
}

/// The rows among the first `n` of `data` whose cell at `col` matches, in
/// table order.
pub open spec fn filter_at(data: Seq<Seq<Seq<char>>>, col: int, query_lower: Seq<char>, n: int) -> Seq<
    Seq<Seq<char>>,
>
    recommends
        n <= data.len(),
    decreases n,
{
    if n <= 0 {
        Seq::empty()
    } else {
        let pre = filter_at(data, col, query_lower, n - 1);
        if row_matches_at(data[n - 1], col, query_lower) {
            pre.push(data[n - 1])
        } else {
            pre
        }
    }
}

/// Law: a row value is in the whole-row search result over the first `n`
/// data rows exactly when it stands among them and at least one of its
/// cells, lower-cased, contains the lower-cased query.
pub proof fn lemma_filter_any_membership(
    data: Seq<Seq<Seq<char>>>,
    query_lower: Seq<char>,
    n: int,
    row: Seq<Seq<char>>,
)
    requires
        0 <= n <= data.len(),
    ensures
        filter_any(data, query_lower, n).contains(row) <==> (exists|i: int|
            0 <= i < n && data[i] == row && row_matches_any(row, query_lower)),
    decreases n,
{
    if n > 0 {
        lemma_filter_any_membership(data, query_lower, n - 1, row);
        let pre = filter_any(data, query_lower, n - 1);
        if row_matches_any(data[n - 1], query_lower) {
            vstd::seq_lib::lemma_seq_contains_after_push(pre, data[n - 1], row);
        }
    }
}

/// True when `cell`, lower-cased, contains the already lower-cased query.
pub fn cell_contains_query(cell: &str, query_lower: &str) -> (r: bool)
    ensures
        r == cell_matches(cell@, query_lower@),
{
    let low = lowercase(cell);
    str_contains(low.as_str(), query_lower)
}

/// True when at least one cell of the row, lower-cased, contains the
/// already lower-cased query.
pub fn row_has_match(row: &Vec<String>, query_lower: &str) -> (r: bool)
    ensures
        r == row_matches_any(row.deep_view(), query_lower@),
{
    let mut j: usize = 0;
    while j < row.len()
        invariant
            j <= row@.len(),
            forall|k: int| 0 <= k < j ==> !cell_matches(#[trigger] row.deep_view()[k], query_lower@),
        decreases row@.len() - j,
    {
        if cell_contains_query(row[j].as_str(), query_lower) {
            assert(row.deep_view()[j as int] == row@[j as int]@);
            return true;
        }
        j += 1;
    }
    false
}

} // verus!
