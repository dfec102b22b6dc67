//! The in-memory table and the view state of a browsing session, with the
//! functions that derive what is displayed and the handlers of the user's
//! actions: paging, search, row lookup, and column visibility.

use crate::search::{
    cell_contains_query, filter_any, filter_at, lower_of, lowercase, row_has_match, row_matches_at,
};
use vstd::arithmetic::div_mod::lemma_fundamental_div_mod_converse;
use vstd::arithmetic::mul::lemma_mul_inequality;
use vstd::prelude::*;

verus! {

/// The loaded table together with the view state of the session.
///
/// The table is the header row plus the data rows, each row a vector of cell
/// strings; rows may be ragged and are kept as loaded. At most one of the
/// selection and the search results drives the display; when neither is
/// present the paged view does.
pub struct MyApp {
    /// Column names: the first row of the loaded file.
    pub csv_header: Vec<String>,
    /// Data rows, in file order.
    pub csv_data: Vec<Vec<String>>,
    /// Page index of the paged view.
    pub current_page: usize,
    /// Rows shown per page; positive.
    pub rows_per_page: usize,
    /// Search query text.
    pub search_query: String,
    /// Column index the search is scoped to.
    pub search_header: u8,
    /// Rows matched by the last search, if a search is active.
    pub search_results: Option<Vec<Vec<String>>>,
    /// Row-number lookup text.
    pub row_number_input: String,
    /// The row selected by number lookup, if one is active.
    pub selected_row: Option<Vec<String>>,
    /// Per-column visibility mask, one flag per header column.
    pub visible_columns: Vec<bool>,
    /// Whether the column controls are unfolded.
    pub show_column_controls: bool,
}

/// How many pages `len` data rows make at `rpp` rows per page: the count
/// rounded up, and one page at least, even for an empty table.
pub open spec fn spec_pages(len: int, rpp: int) -> int
    recommends
        rpp >= 1,
{
    if len == 0 {
        1
    } else {
        (len + rpp - 1) / rpp
    }
}

/// The page count is the least number of pages that covers every data row:
/// it is positive, `spec_pages * rpp` rows reach the end of the data, and
/// one page fewer would not.
pub proof fn lemma_pages_bounds(len: int, rpp: int)
    requires
        rpp >= 1,
        len >= 0,
    ensures
        spec_pages(len, rpp) >= 1,
        len <= spec_pages(len, rpp) * rpp,
        len >= 1 ==> (spec_pages(len, rpp) - 1) * rpp < len,
        len >= 1 ==> spec_pages(len, rpp) == (len - 1) / rpp + 1,
{
    if len == 0 {
        assert(spec_pages(len, rpp) * rpp == rpp) by (nonlinear_arith)
            requires
                spec_pages(len, rpp) == 1,
        ;
    } else {
        let q = (len - 1) / rpp;
        let r = (len - 1) % rpp;
        vstd::arithmetic::div_mod::lemma_fundamental_div_mod(len - 1, rpp);
        assert(len - 1 == q * rpp + r);
        assert(q >= 0 && 0 <= r < rpp) by {
            vstd::arithmetic::div_mod::lemma_div_basics(rpp);
            if q < 0 {
                assert(q * rpp <= -rpp) by (nonlinear_arith)
                    requires
                        q <= -1,
                        rpp >= 1,
                ;
            }
        }
        assert(len + rpp - 1 == (q + 1) * rpp + r) by (nonlinear_arith)
            requires
                len - 1 == q * rpp + r,
        ;
        lemma_fundamental_div_mod_converse(len + rpp - 1, rpp, q + 1, r);
        assert(spec_pages(len, rpp) == q + 1);
        assert(len <= (q + 1) * rpp && q * rpp < len) by (nonlinear_arith)
            requires
                len - 1 == q * rpp + r,
                0 <= r < rpp,
        ;
    }
}

/// The data rows of page `p`: the `p`-th slice of `rpp` rows, cut short at
/// the end of the data.
pub open spec fn spec_page_rows(data: Seq<Seq<Seq<char>>>, rpp: int, p: int) -> Seq<Seq<Seq<char>>>
    recommends
        rpp >= 1,
        p >= 0,
{
    let len = data.len() as int;
    let start = if p * rpp <= len {
        p * rpp
    } else {
        len
    };
    let end = if p * rpp + rpp <= len {
        p * rpp + rpp
    } else {
        len
    };
    data.subrange(start, end)
}

/// The data rows of pages `p` and onward, concatenated in page order.
pub open spec fn spec_pages_concat(data: Seq<Seq<Seq<char>>>, rpp: int, p: int) -> Seq<
    Seq<Seq<char>>,
>
    decreases spec_pages(data.len() as int, rpp) - p,
{
    if rpp < 1 || p < 0 || p >= spec_pages(data.len() as int, rpp) {
        Seq::empty()
    } else {
        spec_page_rows(data, rpp, p) + spec_pages_concat(data, rpp, p + 1)
    }
}

proof fn lemma_pages_concat_suffix(data: Seq<Seq<Seq<char>>>, rpp: int, p: int)
    requires
        rpp >= 1,
        0 <= p <= spec_pages(data.len() as int, rpp),
    ensures
        spec_pages_concat(data, rpp, p) == data.subrange(
            if p * rpp <= data.len() as int {
                p * rpp
            } else {
                data.len() as int
            },
            data.len() as int,
        ),
    decreases spec_pages(data.len() as int, rpp) - p,
{
    let len = data.len() as int;
    let total = spec_pages(len, rpp);
    lemma_pages_bounds(len, rpp);
    if p >= total {
        assert(p * rpp >= total * rpp) by (nonlinear_arith)
            requires
                p >= total,
                rpp >= 1,
        ;
        assert(spec_pages_concat(data, rpp, p) =~= data.subrange(len, len));
    } else {
        lemma_pages_concat_suffix(data, rpp, p + 1);
        assert((p + 1) * rpp == p * rpp + rpp) by (nonlinear_arith);
        if len >= 1 {
            lemma_mul_inequality(p, total - 1, rpp);
        } else {
            assert(p == 0 && p * rpp == 0) by (nonlinear_arith)
                requires
                    0 <= p < total,
                    total == 1,
            ;
        }
        assert(p * rpp <= len);
        let start = p * rpp;
        let mid = if start + rpp <= len {
            start + rpp
        } else {
            len
        };
        assert(spec_pages_concat(data, rpp, p + 1) == data.subrange(mid, len));
        assert(data.subrange(start, mid) + data.subrange(mid, len) =~= data.subrange(start, len));
    }
}

/// Law: concatenating all pages' data rows in page order reproduces the
/// table's data rows exactly, for any positive page size.
pub proof fn lemma_pages_cover_table(data: Seq<Seq<Seq<char>>>, rpp: int)
    requires
        rpp >= 1,
    ensures
        spec_pages_concat(data, rpp, 0) == data,
{
    lemma_pages_bounds(data.len() as int, rpp);
    lemma_pages_concat_suffix(data, rpp, 0);
    assert(spec_pages_concat(data, rpp, 0) =~= data);
}

/// The cells of `row` among the first `n` that the mask leaves visible, in
/// column order; a cell past the mask's end has no flag and is hidden.
pub open spec fn mask_cells(row: Seq<Seq<char>>, mask: Seq<bool>, n: int) -> Seq<Seq<char>>
    recommends
        n <= row.len(),
    decreases n,
{
    if n <= 0 {
        Seq::empty()
    } else {
        let pre = mask_cells(row, mask, n - 1);
        if n - 1 < mask.len() && mask[n - 1] {
            pre.push(row[n - 1])
        } else {
            pre
        }
    }
}

/// How many flags among the first `n` of the mask are set.
pub open spec fn count_true(mask: Seq<bool>, n: int) -> int
    decreases n,
{
    if n <= 0 {
        0
    } else {
        count_true(mask, n - 1) + if mask[n - 1] {
            1int
        } else {
            0int
        }
    }
}

proof fn lemma_mask_cells_all_hidden(row: Seq<Seq<char>>, mask: Seq<bool>, n: int)
    requires
        forall|k: int| 0 <= k < n && k < mask.len() ==> !mask[k],
    ensures
        mask_cells(row, mask, n) == Seq::<Seq<char>>::empty(),
    decreases n,
{
    if n > 0 {
        lemma_mask_cells_all_hidden(row, mask, n - 1);
    }
}

/// Law: under a mask with exactly one column `j` visible — what "Hide All"
/// followed by checking column `j` back on produces — a row displays exactly
/// its cell `j`, alone, for any `n >= j + 1` cells considered.
pub proof fn lemma_single_visible_column(row: Seq<Seq<char>>, mask: Seq<bool>, j: int, n: int)
    requires
        0 <= j < mask.len(),
        forall|k: int| 0 <= k < mask.len() ==> mask[k] == (k == j),
        j < n,
    ensures
        mask_cells(row, mask, n) == seq![row[j]],
    decreases n,
{
    if n - 1 == j {
        lemma_mask_cells_all_hidden(row, mask, j);
        assert(mask_cells(row, mask, n) =~= seq![row[j]]);
    } else {
        lemma_single_visible_column(row, mask, j, n - 1);
    }
}

/// What the row-number text denotes: the value of its digits, surrounding
/// ASCII whitespace ignored; `None` for any other text.
pub open spec fn spec_lookup_request(input: Seq<char>) -> Option<usize> {
    crate::text::spec_parse_usize(
        crate::text::spec_trim_spaces(vstd::utf8::encode_utf8(input)),
    )
}

/// Which row a 1-based row number names: number 1 is the header, number
/// `n >= 2` is data row `n - 2`, and any other number names no row.
pub open spec fn spec_row_lookup(
    header: Seq<Seq<char>>,
    data: Seq<Seq<Seq<char>>>,
    row_num: usize,
) -> Option<Seq<Seq<char>>> {
    if row_num == 1 {
        Some(header)
    } else if row_num >= 2 && row_num - 2 < data.len() {
        Some(data[row_num - 2])
    } else {
        None
    }
}

/// True exactly when two rows hold the same cells.
pub fn rows_equal(a: &Vec<String>, b: &Vec<String>) -> (r: bool)
    ensures
        r == (a.deep_view() == b.deep_view()),
{
    if a.len() != b.len() {
        assert(a.deep_view().len() == a@.len() && b.deep_view().len() == b@.len());
        return false;
    }
    let mut i: usize = 0;
    while i < a.len()
        invariant
            a@.len() == b@.len(),
            i <= a@.len(),
            forall|k: int| 0 <= k < i ==> a.deep_view()[k] == b.deep_view()[k],
        decreases a@.len() - i,
    {
        if !(a[i] == b[i]) {
            assert(a.deep_view()[i as int] != b.deep_view()[i as int]);
            return false;
        }
        i += 1;
    }
    proof {
        assert(a.deep_view() =~= b.deep_view());
    }
    true
}

/// Copy of a row; the cell values are preserved exactly.
pub fn clone_row(row: &Vec<String>) -> (r: Vec<String>)
    ensures
        r@ == row@,
        r.deep_view() == row.deep_view(),
{
    let mut out: Vec<String> = Vec::new();
    let mut i: usize = 0;
    while i < row.len()
        invariant
            i <= row@.len(),
            out@ == row@.subrange(0, i as int),
        decreases row@.len() - i,
    {
        out.push(row[i].clone());
        proof {
            assert(out@ =~= row@.subrange(0, i + 1));
        }
        i += 1;
    }
    proof {
        assert(row@.subrange(0, row@.len() as int) =~= row@);
    }
    out
}

impl MyApp {
    /// The header as a sequence of cell character sequences.
    pub open spec fn header_view(&self) -> Seq<Seq<char>> {
        self.csv_header.deep_view()
    }

    /// The data rows as a sequence of rows of cell character sequences.
    pub open spec fn data_view(&self) -> Seq<Seq<Seq<char>>> {
        self.csv_data.deep_view()
    }

    /// The number of pages of the paged view.
    pub open spec fn spec_total_pages(&self) -> int {
        spec_pages(self.csv_data.len() as int, self.rows_per_page as int)
    }

    /// The paging fields are well formed: a positive page size and a page
    /// index within the page count. Every handler keeps this.
    pub open spec fn pages_wf(&self) -> bool {
        &&& self.rows_per_page >= 1
        &&& (self.current_page as int) < self.spec_total_pages()
    }

    /// A fresh viewer with no table loaded and the given page size.
    pub fn new(rows_per_page: usize) -> (r: MyApp)
        requires
            rows_per_page >= 1,
        ensures
            r.csv_header@.len() == 0,
            r.csv_data@.len() == 0,
            r.current_page == 0,
            r.rows_per_page == rows_per_page,
            r.search_query@.len() == 0,
            r.search_header == 0,
            r.search_results is None,
            r.row_number_input@.len() == 0,
            r.selected_row is None,
            r.visible_columns@.len() == 0,
            r.show_column_controls == false,
            r.pages_wf(),
    {
        MyApp {
            csv_header: Vec::new(),
            csv_data: Vec::new(),
            current_page: 0,
            rows_per_page,
            search_query: String::new(),
            search_header: 0,
            search_results: None,
            row_number_input: String::new(),
            selected_row: None,
            visible_columns: Vec::new(),
            show_column_controls: false,
        }
    }

    /// Number of pages: the data rows divided into pages of `rows_per_page`,
    /// rounded up; at least one page, even for an empty table.
    pub fn total_pages(&self) -> (r: usize)
        requires
            self.rows_per_page >= 1,
        ensures
            r == self.spec_total_pages(),
            r >= 1,
    {
        proof {
            lemma_pages_bounds(self.csv_data.len() as int, self.rows_per_page as int);
        }
        if self.csv_data.is_empty() {
            1
        } else {
            (self.csv_data.len() - 1) / self.rows_per_page + 1
        }
    }

    /// The Previous button: steps one page back, and is a no-op at the first
    /// page.
    pub fn previous_page(&mut self)
        ensures
            old(self).current_page == 0 ==> *final(self) == *old(self),
            old(self).current_page > 0 ==> *final(self) == (MyApp {
                current_page: (old(self).current_page - 1) as usize,
                ..*old(self)
            }),
            old(self).pages_wf() ==> final(self).pages_wf(),
    {
        if self.current_page > 0 {
            self.current_page = self.current_page - 1;
        }
    }

    /// The Next button: steps one page forward, and is a no-op at the last
    /// page.
    pub fn next_page(&mut self)
        requires
            old(self).rows_per_page >= 1,
        ensures
            old(self).current_page + 1 < old(self).spec_total_pages() ==> *final(self) == (MyApp {
                current_page: (old(self).current_page + 1) as usize,
                ..*old(self)
            }),
            old(self).current_page + 1 >= old(self).spec_total_pages() ==> *final(self) == *old(
                self,
            ),
            old(self).pages_wf() ==> final(self).pages_wf(),
    {
        proof {
            lemma_pages_bounds(self.csv_data.len() as int, self.rows_per_page as int);
        }
        let total = self.total_pages();
        if self.current_page < total - 1 {
            self.current_page = self.current_page + 1;
        }
    }

    /// The cells of `row` in visible columns, in original column order.
    pub fn filter_visible_columns(&self, row: &Vec<String>) -> (r: Vec<String>)
        ensures
            r.deep_view() == mask_cells(row.deep_view(), self.visible_columns@, row@.len() as int),
    {
        let mut out: Vec<String> = Vec::new();
        let mut i: usize = 0;
        while i < row.len()
            invariant
                i <= row@.len(),
                out.deep_view() == mask_cells(row.deep_view(), self.visible_columns@, i as int),
            decreases row@.len() - i,
        {
            if i < self.visible_columns.len() && self.visible_columns[i] {
                out.push(row[i].clone());
            }
            proof {
                assert(out.deep_view() =~= mask_cells(
                    row.deep_view(),
                    self.visible_columns@,
                    i + 1,
                ));
            }
            i += 1;
        }
        out
    }

    /// The header cells of visible columns, in original column order.
    pub fn get_visible_headers(&self) -> (r: Vec<String>)
        ensures
            r.deep_view() == mask_cells(
                self.header_view(),
                self.visible_columns@,
                self.csv_header@.len() as int,
            ),
    {
        self.filter_visible_columns(&self.csv_header)
    }

    /// Resets the visibility mask to one flag per header column, all set:
    /// every column of a freshly loaded table is visible.
    pub fn initialize_visible_columns(&mut self)
        ensures
            final(self).visible_columns@ == Seq::new(old(self).csv_header@.len(), |i: int| true),
            *final(self) == (MyApp { visible_columns: final(self).visible_columns, ..*old(self) }),
    {
        let n = self.csv_header.len();
        let mut mask: Vec<bool> = Vec::new();
        let mut i: usize = 0;
        while i < n
            invariant
                i <= n,
                mask@ == Seq::new(i as nat, |k: int| true),
            decreases n - i,
        {
            mask.push(true);
            proof {
                assert(mask@ =~= Seq::new((i + 1) as nat, |k: int| true));
            }
            i += 1;
        }
        self.visible_columns = mask;
    }

    /// The Show All / Hide All buttons: sets every column's flag to
    /// `visible`, one flag per header column.
    pub fn toggle_all_columns(&mut self, visible: bool)
        ensures
            final(self).visible_columns@ == Seq::new(
                old(self).csv_header@.len(),
                |i: int| visible,
            ),
            *final(self) == (MyApp { visible_columns: final(self).visible_columns, ..*old(self) }),
    {
        let n = self.csv_header.len();
        let mut mask: Vec<bool> = Vec::new();
        let mut i: usize = 0;
        while i < n
            invariant
                i <= n,
                mask@ == Seq::new(i as nat, |k: int| visible),
            decreases n - i,
        {
            mask.push(visible);
            proof {
                assert(mask@ =~= Seq::new((i + 1) as nat, |k: int| visible));
            }
            i += 1;
        }
        self.visible_columns = mask;
    }

    /// One column checkbox: sets the flag of column `idx` to `visible`.
    pub fn set_column_visible(&mut self, idx: usize, visible: bool)
        requires
            idx < old(self).visible_columns@.len(),
        ensures
            final(self).visible_columns@ == old(self).visible_columns@.update(
                idx as int,
                visible,
            ),
            *final(self) == (MyApp { visible_columns: final(self).visible_columns, ..*old(self) }),
    {
        self.visible_columns.set(idx, visible);
    }

    /// Number of visible columns.
    pub fn visible_column_count(&self) -> (r: usize)
        ensures
            r == count_true(self.visible_columns@, self.visible_columns@.len() as int),
    {
        let mut c: usize = 0;
        let mut i: usize = 0;
        let n = self.visible_columns.len();
        while i < n
            invariant
                i <= n == self.visible_columns@.len(),
                c == count_true(self.visible_columns@, i as int),
                0 <= c <= i,
            decreases n - i,
        {
            if self.visible_columns[i] {
                c = c + 1;
            }
            i += 1;
        }
        c
    }

    /// Column-scoped search: the data rows whose cell at column
    /// `search_header`, lower-cased, contains the lower-cased query, in
    /// table order. A row with no cell at that column does not match.
    pub fn perform_search(&self) -> (r: Vec<Vec<String>>)
        ensures
            r.deep_view() == filter_at(
                self.data_view(),
                self.search_header as int,
                lower_of(self.search_query@),
                self.data_view().len() as int,
            ),
    {
        let query = lowercase(self.search_query.as_str());
        let col = self.search_header as usize;
        let mut out: Vec<Vec<String>> = Vec::new();
        let mut i: usize = 0;
        while i < self.csv_data.len()
            invariant
                i <= self.csv_data@.len(),
                query@ == lower_of(self.search_query@),
                col == self.search_header as usize,
                out.deep_view() == filter_at(
                    self.data_view(),
                    self.search_header as int,
                    lower_of(self.search_query@),
                    i as int,
                ),
            decreases self.csv_data@.len() - i,
        {
            let row = &self.csv_data[i];
            proof {
                assert(row.deep_view() == self.data_view()[i as int]);
            }
            let matched = if col < row.len() {
                proof {
                    assert(row.deep_view()[col as int] == row@[col as int]@);
                }
                cell_contains_query(row[col].as_str(), query.as_str())
            } else {
                false
            };
            assert(matched == row_matches_at(
                self.data_view()[i as int],
                self.search_header as int,
                lower_of(self.search_query@),
            ));
            if matched {
                out.push(clone_row(row));
            }
            proof {
                assert(out.deep_view() =~= filter_at(
                    self.data_view(),
                    self.search_header as int,
                    lower_of(self.search_query@),
                    i + 1,
                ));
            }
            i += 1;
        }
        out
    }

    /// Whole-row search: the data rows with at least one cell that,
    /// lower-cased, contains the lower-cased query, in table order.
    pub fn perform_search_all_columns(&self) -> (r: Vec<Vec<String>>)
        ensures
            r.deep_view() == filter_any(
                self.data_view(),
                lower_of(self.search_query@),
                self.data_view().len() as int,
            ),
    {
        let query = lowercase(self.search_query.as_str());
        let mut out: Vec<Vec<String>> = Vec::new();
        let mut i: usize = 0;
        while i < self.csv_data.len()
            invariant
                i <= self.csv_data@.len(),
                query@ == lower_of(self.search_query@),
                out.deep_view() == filter_any(
                    self.data_view(),
                    lower_of(self.search_query@),
                    i as int,
                ),
            decreases self.csv_data@.len() - i,
        {
            let row = &self.csv_data[i];
            proof {
                assert(row.deep_view() == self.data_view()[i as int]);
            }
            if row_has_match(row, query.as_str()) {
                out.push(clone_row(row));
            }
            proof {
                assert(out.deep_view() =~= filter_any(
                    self.data_view(),
                    lower_of(self.search_query@),
                    i + 1,
                ));
            }
            i += 1;
        }
        out
    }

    /// The row a 1-based row number names: 1 is the header, `n >= 2` is data
    /// row `n - 2`; an out-of-range number names none.
    pub fn get_row_by_number(&self, row_num: usize) -> (r: Option<Vec<String>>)
        ensures
            r.deep_view() == spec_row_lookup(self.header_view(), self.data_view(), row_num),
    {
        if row_num == 1 {
            Some(clone_row(&self.csv_header))
        } else if row_num > 1 && row_num - 2 < self.csv_data.len() {
            Some(clone_row(&self.csv_data[row_num - 2]))
        } else {
            None
        }
    }

    /// The rows the view shows, before column masking: a selection takes
    /// precedence, then search results, then the current page; the header
    /// leads unless the selection is the header itself; with no table loaded
    /// nothing is shown.
    pub open spec fn spec_rows_to_display(&self) -> Seq<Seq<Seq<char>>> {
        if self.header_view().len() == 0 {
            Seq::empty()
        } else {
            match self.selected_row {
                Some(sel) => if sel.deep_view() != self.header_view() {
                    seq![self.header_view(), sel.deep_view()]
                } else {
                    seq![self.header_view()]
                },
                None => match self.search_results {
                    Some(rs) => seq![self.header_view()] + rs.deep_view(),
                    None => seq![self.header_view()] + spec_page_rows(
                        self.data_view(),
                        self.rows_per_page as int,
                        self.current_page as int,
                    ),
                },
            }
        }
    }

    /// The rows to display, before column masking, per the precedence rule
    /// of `spec_rows_to_display`.
    pub fn compute_rows_to_display(&self) -> (r: Vec<Vec<String>>)
        requires
            self.pages_wf(),
        ensures
            r.deep_view() == self.spec_rows_to_display(),
    {
        let mut out: Vec<Vec<String>> = Vec::new();
        if self.csv_header.len() == 0 {
            proof {
                assert(out.deep_view() =~= self.spec_rows_to_display());
            }
            return out;
        }
        out.push(clone_row(&self.csv_header));
        proof {
            assert(out.deep_view() =~= seq![self.header_view()]);
        }
        match &self.selected_row {
            Some(sel) => {
                if !rows_equal(sel, &self.csv_header) {
                    out.push(clone_row(sel));
                    proof {
                        assert(out.deep_view() =~= seq![self.header_view(), sel.deep_view()]);
                    }
                }
            },
            None => {
                match &self.search_results {
                    Some(rs) => {
                        let mut i: usize = 0;
                        proof {
                            assert(out.deep_view() =~= seq![self.header_view()]
                                + rs.deep_view().subrange(0, 0));
                        }
                        while i < rs.len()
                            invariant
                                i <= rs@.len(),
                                out.deep_view() == seq![self.header_view()]
                                    + rs.deep_view().subrange(0, i as int),
                            decreases rs@.len() - i,
                        {
                            let ghost pre = out.deep_view();
                            out.push(clone_row(&rs[i]));
                            proof {
                                assert(forall|k: int|
                                    0 <= k < pre.len() ==> #[trigger] out.deep_view()[k] == pre[k]);
                                assert(out.deep_view()[pre.len() as int] == rs@[
                                    i as int
                                ].deep_view());
                                assert(rs.deep_view()[i as int] == rs@[i as int].deep_view());
                                assert(out.deep_view() =~= seq![self.header_view()]
                                    + rs.deep_view().subrange(0, i + 1));
                            }
                            i += 1;
                        }
                        proof {
                            assert(rs.deep_view().subrange(0, rs@.len() as int) =~= rs.deep_view());
                        }
                    },
                    None => {
                        proof {
                            lemma_pages_bounds(
                                self.csv_data.len() as int,
                                self.rows_per_page as int,
                            );
                            if self.csv_data.len() > 0 {
                                lemma_mul_inequality(
                                    self.current_page as int,
                                    self.spec_total_pages() - 1,
                                    self.rows_per_page as int,
                                );
                            } else {
                                assert(self.current_page as int * self.rows_per_page as int
                                    == 0) by (nonlinear_arith)
                                    requires
                                        self.current_page == 0,
                                ;
                            }
                        }
                        let start = self.current_page * self.rows_per_page;
                        let end = if self.csv_data.len() - start >= self.rows_per_page {
                            start + self.rows_per_page
                        } else {
                            self.csv_data.len()
                        };
                        let ghost pg = spec_page_rows(
                            self.data_view(),
                            self.rows_per_page as int,
                            self.current_page as int,
                        );
                        proof {
                            assert(pg =~= self.data_view().subrange(start as int, end as int));
                        }
                        let mut i: usize = start;
                        proof {
                            assert(out.deep_view() =~= seq![self.header_view()]
                                + self.data_view().subrange(start as int, start as int));
                        }
                        while i < end
                            invariant
                                start <= i <= end <= self.csv_data@.len(),
                                out.deep_view() == seq![self.header_view()]
                                    + self.data_view().subrange(start as int, i as int),
                            decreases end - i,
                        {
                            let ghost pre = out.deep_view();
                            out.push(clone_row(&self.csv_data[i]));
                            proof {
                                assert(forall|k: int|
                                    0 <= k < pre.len() ==> #[trigger] out.deep_view()[k] == pre[k]);
                                assert(out.deep_view()[pre.len() as int] == self.csv_data@[
                                    i as int
                                ].deep_view());
                                assert(self.data_view()[i as int] == self.csv_data@[
                                    i as int
                                ].deep_view());
                                assert(out.deep_view() =~= seq![self.header_view()]
                                    + self.data_view().subrange(start as int, i + 1));
                            }
                            i += 1;
                        }
                    },
                }
            },
        }
        out
    }

    /// Load: installs a freshly parsed table and resets the view state —
    /// first page, empty query, no results, empty lookup text, no selection,
    /// every column visible.
    pub fn load_table(&mut self, header: Vec<String>, data: Vec<Vec<String>>)
        requires
            old(self).rows_per_page >= 1,
        ensures
            final(self).csv_header == header,
            final(self).csv_data == data,
            final(self).current_page == 0,
            final(self).search_query@ == Seq::<char>::empty(),
            final(self).search_results is None,
            final(self).row_number_input@ == Seq::<char>::empty(),
            final(self).selected_row is None,
            final(self).visible_columns@ == Seq::new(header@.len(), |i: int| true),
            final(self).rows_per_page == old(self).rows_per_page,
            final(self).search_header == old(self).search_header,
            final(self).show_column_controls == old(self).show_column_controls,
            final(self).pages_wf(),
    {
        proof {
            lemma_pages_bounds(data@.len() as int, self.rows_per_page as int);
        }
        self.csv_header = header;
        self.csv_data = data;
        self.current_page = 0;
        self.search_query = String::new();
        self.search_results = None;
        self.row_number_input = String::new();
        self.selected_row = None;
        self.initialize_visible_columns();
    }

    /// The Search button: stores the column-scoped matches as the active
    /// results and clears the selection; between search and selection the
    /// last action wins.
    pub fn submit_search(&mut self)
        ensures
            final(self).search_results matches Some(rs) && rs.deep_view() == filter_at(
                old(self).data_view(),
                old(self).search_header as int,
                lower_of(old(self).search_query@),
                old(self).data_view().len() as int,
            ),
            *final(self) == (MyApp {
                search_results: final(self).search_results,
                selected_row: None,
                ..*old(self)
            }),
    {
        let results = self.perform_search();
        self.search_results = Some(results);
        self.selected_row = None;
    }

    /// The Clear Search button: empties the query text and drops the
    /// results, returning the display to the paged view.
    pub fn clear_search(&mut self)
        ensures
            final(self).search_query@ == Seq::<char>::empty(),
            final(self).search_results is None,
            *final(self) == (MyApp {
                search_query: final(self).search_query,
                search_results: None,
                ..*old(self)
            }),
    {
        self.search_query = String::new();
        self.search_results = None;
    }

    /// The Go button: reads the row-number text and makes it the selection.
    /// A well-formed number selects the row it names; a number out of range,
    /// or text that is no number at all, falls back to no selection. The
    /// search results are dropped either way.
    pub fn submit_row_lookup(&mut self)
        ensures
            spec_lookup_request(old(self).row_number_input@) matches Some(n)
                ==> final(self).selected_row.deep_view() == spec_row_lookup(
                old(self).header_view(),
                old(self).data_view(),
                n,
            ),
            spec_lookup_request(old(self).row_number_input@) is None ==> final(self).selected_row
                is None,
            final(self).search_results is None,
            *final(self) == (MyApp {
                selected_row: final(self).selected_row,
                search_results: None,
                ..*old(self)
            }),
    {
        self.selected_row = match crate::text::parse_row_number(self.row_number_input.as_str()) {
            Some(n) => self.get_row_by_number(n),
            None => None,
        };
        self.search_results = None;
    }
}

} // verus!
