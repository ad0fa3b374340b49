//! Page extraction heuristics: from table cells, already split out of the
//! markup, to raw string rows.
//!
//! Both extraction tasks degrade gracefully against layout drift: a listing
//! row with too few cells is skipped, a history table's column positions
//! are derived from its header text when headers exist and fall back to
//! fixed positions gated by a looks-like-a-date check otherwise, and a page
//! that yields nothing is simply empty, never an error.

use vstd::prelude::*;

use crate::models::RawEquityRow;
use crate::models::RawEquityRowModel;
use crate::models::RawHistoricalRow;
use crate::models::RawHistoricalRowModel;
use crate::text::contains_chars;
use crate::text::contains_seq;
use crate::text::lower_seq;
use crate::text::lower_char;
use crate::text::to_chars;
use crate::text::trim_chars;
use crate::text::trim_seq;
use crate::text::upper_chars;
use crate::text::upper_seq;
use crate::text::string_from_chars;
use crate::loader::field_of;

verus! {

/// A next listing page is advertised: a page query together with a "Next"
/// label, any "next" text, or a forward angle quote.
pub open spec fn spec_has_next_page(s: Seq<char>) -> bool {
    (contains_seq(s, seq!['?', 'p', 'a', 'g', 'e', '=']) && contains_seq(
        s,
        seq!['N', 'e', 'x', 't'],
    )) || contains_seq(s, seq!['n', 'e', 'x', 't']) || contains_seq(s, seq!['\u{203a}'])
}

/// Whether the markup advertises a next listing page.
pub fn has_next_page(html: &str) -> (r: bool)
    ensures
        r == spec_has_next_page(html@),
{
    let cs = to_chars(html);
    let page_q: Vec<char> = vec!['?', 'p', 'a', 'g', 'e', '='];
    let next_cap: Vec<char> = vec!['N', 'e', 'x', 't'];
    let next_low: Vec<char> = vec!['n', 'e', 'x', 't'];
    let angle: Vec<char> = vec!['\u{203a}'];
    proof {
        assert(page_q@ =~= seq!['?', 'p', 'a', 'g', 'e', '=']);
        assert(next_cap@ =~= seq!['N', 'e', 'x', 't']);
        assert(next_low@ =~= seq!['n', 'e', 'x', 't']);
        assert(angle@ =~= seq!['\u{203a}']);
    }
    (contains_chars(&cs, &page_q) && contains_chars(&cs, &next_cap)) || contains_chars(
        &cs,
        &next_low,
    ) || contains_chars(&cs, &angle)
}

/// The first cell looks like a date: it holds a '-' or '/' separator, or is
/// at least eight characters long.
pub open spec fn spec_looks_like_date(s: Seq<char>) -> bool {
    contains_seq(s, seq!['-']) || contains_seq(s, seq!['/']) || s.len() >= 8
}

/// Whether a cell's text looks like a date.
pub fn looks_like_date(s: &str) -> (r: bool)
    ensures
        r == spec_looks_like_date(s@),
{
    let cs = to_chars(s);
    let dash: Vec<char> = vec!['-'];
    let slash: Vec<char> = vec!['/'];
    proof {
        assert(dash@ =~= seq!['-']);
        assert(slash@ =~= seq!['/']);
    }
    contains_chars(&cs, &dash) || contains_chars(&cs, &slash) || cs.len() >= 8
}

// ── Listing rows ────────────────────────────────────────────────────────────
/// A listing row read from its cells: symbol from the first cell (trimmed,
/// uppercased), then name, price, change, change percent, volume and deals
/// positionally.  Rows with fewer than two cells yield nothing.
pub open spec fn spec_listing_row(cells: Seq<Seq<char>>) -> Option<RawEquityRowModel> {
    if cells.len() < 2 {
        None
    } else {
        Some(
            RawEquityRowModel {
                symbol: Some(upper_seq(trim_seq(cells[0]))),
                name: field_of(cells, 1),
                price: field_of(cells, 2),
                change: field_of(cells, 3),
                change_pct: field_of(cells, 4),
                volume: field_of(cells, 5),
                deals: field_of(cells, 6),
                sector: None,
            },
        )
    }
}

/// The listing rows kept from a page's cell matrix.
pub open spec fn spec_listing_rows(table: Seq<Seq<Seq<char>>>) -> Seq<RawEquityRowModel>
    decreases table.len(),
{
    if table.len() == 0 {
        Seq::empty()
    } else {
        spec_listing_rows(table.drop_last()) + (
        match spec_listing_row(table.last()) {
            Some(r) => seq![r],
            None => Seq::empty(),
        })
    }
}

/// The cell matrix as ghost text.
pub open spec fn cells_view(table: Seq<Vec<String>>) -> Seq<Seq<Seq<char>>> {
    table.map_values(|row: Vec<String>| row.deep_view())
}

fn field(cells: &Vec<String>, i: usize) -> (r: Option<String>)
    ensures
        crate::models::opt_str_view(r) == field_of(cells.deep_view(), i as int),
{
    if i < cells.len() {
        proof {
            assert(cells.deep_view()[i as int] == cells@[i as int]@);
        }
        Some(cells[i].clone())
    } else {
        proof {
            assert(cells.deep_view().len() == cells@.len());
        }
        None
    }
}

/// Turn a listing page's cell matrix into raw listing rows; rows with fewer
/// than two cells are skipped.
pub fn listing_cells_to_rows(table: &Vec<Vec<String>>) -> (r: Vec<RawEquityRow>)
    ensures
        crate::cleaner::equity_row_models(r@) == spec_listing_rows(cells_view(table@)),
{
    let ghost tv = cells_view(table@);
    let mut out: Vec<RawEquityRow> = Vec::new();
    let mut i: usize = 0;
    proof {
        assert(tv.take(0) =~= Seq::<Seq<Seq<char>>>::empty());
        assert(crate::cleaner::equity_row_models(out@) =~= spec_listing_rows(tv.take(0)));
    }
    while i < table.len()
        invariant
            i <= table@.len(),
            tv == cells_view(table@),
            tv.len() == table@.len(),
            crate::cleaner::equity_row_models(out@) == spec_listing_rows(tv.take(i as int)),
        decreases table@.len() - i,
    {
        let ghost pre = tv.take(i as int);
        let ghost post = tv.take(i + 1);
        proof {
            assert(post.drop_last() =~= pre);
            assert(post.last() == tv[i as int]);
            assert(tv[i as int] == table@[i as int].deep_view());
        }
        let cells = &table[i];
        if cells.len() >= 2 {
            let cs = to_chars(cells[0].as_str());
            let t = trim_chars(&cs);
            let u = upper_chars(&t);
            let row = RawEquityRow {
                symbol: Some(string_from_chars(&u)),
                name: field(cells, 1),
                price: field(cells, 2),
                change: field(cells, 3),
                change_pct: field(cells, 4),
                volume: field(cells, 5),
                deals: field(cells, 6),
                sector: None,
            };
            proof {
                assert(cells.deep_view()[0] == cells@[0]@);
                assert(cells.deep_view().len() == cells@.len());
                assert(row@ == spec_listing_row(tv[i as int])->0);
            }
            out.push(row);
            proof {
                assert(crate::cleaner::equity_row_models(out@)
                    =~= crate::cleaner::equity_row_models(out@.drop_last()).push(out@.last()@));
                assert(crate::cleaner::equity_row_models(out@) =~= spec_listing_rows(post));
            }
        } else {
            proof {
                assert(cells.deep_view().len() == cells@.len());
                assert(spec_listing_rows(post) =~= spec_listing_rows(pre));
            }
        }
        i = i + 1;
    }
    proof {
        assert(tv.take(table@.len() as int) =~= tv);
    }
    out
}

// ── History rows ────────────────────────────────────────────────────────────
/// What a history-table column header can mean.
#[derive(Clone, Copy)]
pub enum ColumnKind {
    DateCol,
    CloseCol,
    ChangeCol,
    VolumeCol,
    DealsCol,
}

/// Whether a lowercased header labels a column of this kind.
pub open spec fn col_matches(kind: ColumnKind, h: Seq<char>) -> bool {
    match kind {
        ColumnKind::DateCol => contains_seq(h, seq!['d', 'a', 't', 'e']),
        ColumnKind::CloseCol => contains_seq(h, seq!['c', 'l', 'o', 's', 'e']) || contains_seq(
            h,
            seq!['p', 'r', 'i', 'c', 'e'],
        ) || contains_seq(h, seq!['l', 'a', 's', 't']),
        ColumnKind::ChangeCol => h == seq!['c', 'h', 'a', 'n', 'g', 'e'] || contains_seq(
            h,
            seq!['c', 'h', 'g'],
        ),
        ColumnKind::VolumeCol => contains_seq(h, seq!['v', 'o', 'l']),
        ColumnKind::DealsCol => contains_seq(h, seq!['d', 'e', 'a', 'l']),
    }
}

/// The first header, lowercased, that labels a column of this kind.
pub open spec fn spec_find_col(kind: ColumnKind, hs: Seq<Seq<char>>, i: int) -> Option<int>
    decreases hs.len() - i,
{
    if i < 0 || i >= hs.len() {
        None
    } else if col_matches(kind, lower_seq(hs[i])) {
        Some(i)
    } else {
        spec_find_col(kind, hs, i + 1)
    }
}

fn col_matches_exec(kind: ColumnKind, h: &Vec<char>) -> (r: bool)
    ensures
        r == col_matches(kind, h@),
{
    match kind {
        ColumnKind::DateCol => {
            let w: Vec<char> = vec!['d', 'a', 't', 'e'];
            proof {
                assert(w@ =~= seq!['d', 'a', 't', 'e']);
            }
            contains_chars(h, &w)
        },
        ColumnKind::CloseCol => {
            let w1: Vec<char> = vec!['c', 'l', 'o', 's', 'e'];
            let w2: Vec<char> = vec!['p', 'r', 'i', 'c', 'e'];
            let w3: Vec<char> = vec!['l', 'a', 's', 't'];
            proof {
                assert(w1@ =~= seq!['c', 'l', 'o', 's', 'e']);
                assert(w2@ =~= seq!['p', 'r', 'i', 'c', 'e']);
                assert(w3@ =~= seq!['l', 'a', 's', 't']);
            }
            contains_chars(h, &w1) || contains_chars(h, &w2) || contains_chars(h, &w3)
        },
        ColumnKind::ChangeCol => {
            let w1: Vec<char> = vec!['c', 'h', 'a', 'n', 'g', 'e'];
            let w2: Vec<char> = vec!['c', 'h', 'g'];
            proof {
                assert(w1@ =~= seq!['c', 'h', 'a', 'n', 'g', 'e']);
                assert(w2@ =~= seq!['c', 'h', 'g']);
            }
            chars_eq(h, &w1) || contains_chars(h, &w2)
        },
        ColumnKind::VolumeCol => {
            let w: Vec<char> = vec!['v', 'o', 'l'];
            proof {
                assert(w@ =~= seq!['v', 'o', 'l']);
            }
            contains_chars(h, &w)
        },
        ColumnKind::DealsCol => {
            let w: Vec<char> = vec!['d', 'e', 'a', 'l'];
            proof {
                assert(w@ =~= seq!['d', 'e', 'a', 'l']);
            }
            contains_chars(h, &w)
        },
    }
}

/// Equality of two character vectors.
fn chars_eq(a: &Vec<char>, b: &Vec<char>) -> (r: bool)
    ensures
        r == (a@ == b@),
{
    if a.len() != b.len() {
        proof {
            if a@ == b@ {
                assert(a@.len() == b@.len());
            }
        }
        return false;
    }
    let mut i: usize = 0;
    while i < a.len()
        invariant
            a@.len() == b@.len(),
            i <= a@.len(),
            forall|j: int| 0 <= j < i ==> a@[j] == b@[j],
        decreases a@.len() - i,
    {
        if a[i] != b[i] {
            return false;
        }
        i = i + 1;
    }
    proof {
        assert(a@ =~= b@);
    }
    true
}

/// Find the first header labelling a column of this kind.
pub fn find_col(kind: ColumnKind, headers: &Vec<String>) -> (r: Option<usize>)
    ensures
        match r {
            Some(i) => spec_find_col(kind, headers.deep_view(), 0) == Some(i as int),
            None => spec_find_col(kind, headers.deep_view(), 0) is None,
        },
{
    let ghost hs = headers.deep_view();
    proof {
        assert(hs.len() == headers@.len());
    }
    let mut i: usize = 0;
    while i < headers.len()
        invariant
            i <= headers@.len(),
            hs == headers.deep_view(),
            hs.len() == headers@.len(),
            spec_find_col(kind, hs, 0) == spec_find_col(kind, hs, i as int),
        decreases headers@.len() - i,
    {
        let cs = to_chars(headers[i].as_str());
        let mut low: Vec<char> = Vec::new();
        let mut j: usize = 0;
        while j < cs.len()
            invariant
                j <= cs@.len(),
                low@ == lower_seq(cs@.take(j as int)),
            decreases cs@.len() - j,
        {
            low.push(lower_char(cs[j]));
            j = j + 1;
            proof {
                assert(low@ =~= lower_seq(cs@.take(j as int)));
            }
        }
        proof {
            assert(cs@.take(cs@.len() as int) =~= cs@);
            assert(hs[i as int] == headers@[i as int]@);
        }
        if col_matches_exec(kind, &low) {
            return Some(i);
        }
        i = i + 1;
    }
    None
}

/// The history-table column positions: date and close fall back to the
/// first and second columns when no header names them.
pub struct HistoryColumns {
    pub date_idx: usize,
    pub close_idx: usize,
    pub change_idx: Option<usize>,
    pub vol_idx: Option<usize>,
    pub deals_idx: Option<usize>,
}

/// Derive column positions from a table's header texts, with the fixed
/// default positions where a label is missing.
pub fn history_columns(headers: &Vec<String>) -> (r: HistoryColumns)
    ensures
        r.date_idx as int == (match spec_find_col(ColumnKind::DateCol, headers.deep_view(), 0) {
            Some(i) => i,
            None => 0,
        }),
        r.close_idx as int == (match spec_find_col(ColumnKind::CloseCol, headers.deep_view(), 0) {
            Some(i) => i,
            None => 1,
        }),
        (match r.change_idx {
            Some(i) => spec_find_col(ColumnKind::ChangeCol, headers.deep_view(), 0) == Some(
                i as int,
            ),
            None => spec_find_col(ColumnKind::ChangeCol, headers.deep_view(), 0) is None,
        }),
        (match r.vol_idx {
            Some(i) => spec_find_col(ColumnKind::VolumeCol, headers.deep_view(), 0) == Some(
                i as int,
            ),
            None => spec_find_col(ColumnKind::VolumeCol, headers.deep_view(), 0) is None,
        }),
        (match r.deals_idx {
            Some(i) => spec_find_col(ColumnKind::DealsCol, headers.deep_view(), 0) == Some(
                i as int,
            ),
            None => spec_find_col(ColumnKind::DealsCol, headers.deep_view(), 0) is None,
        }),
{
    let date_idx = match find_col(ColumnKind::DateCol, headers) {
        Some(i) => i,
        None => 0,
    };
    let close_idx = match find_col(ColumnKind::CloseCol, headers) {
        Some(i) => i,
        None => 1,
    };
    HistoryColumns {
        date_idx,
        close_idx,
        change_idx: find_col(ColumnKind::ChangeCol, headers),
        vol_idx: find_col(ColumnKind::VolumeCol, headers),
        deals_idx: find_col(ColumnKind::DealsCol, headers),
    }
}

/// Whether the headers name a date or a close-like column at all; a table
/// without either signal is not a price-history table.
pub fn has_history_signal(headers: &Vec<String>) -> (r: bool)
    ensures
        r == (spec_find_col(ColumnKind::DateCol, headers.deep_view(), 0) is Some || spec_find_col(
            ColumnKind::CloseCol,
            headers.deep_view(),
            0,
        ) is Some),
{
    let d = find_col(ColumnKind::DateCol, headers);
    let c = find_col(ColumnKind::CloseCol, headers);
    d.is_some() || c.is_some()
}

/// Every cell of the row is empty (or there are none).
pub open spec fn row_is_blank(cells: Seq<Seq<char>>) -> bool {
    forall|i: int| 0 <= i < cells.len() ==> (#[trigger] cells[i]).len() == 0
}

/// A history row read at the given column positions.  History pages carry
/// no open/high/low columns.
pub open spec fn spec_history_row(
    cells: Seq<Seq<char>>,
    date_idx: int,
    close_idx: int,
    change_idx: Option<int>,
    vol_idx: Option<int>,
) -> RawHistoricalRowModel {
    RawHistoricalRowModel {
        date: field_of(cells, date_idx),
        open: None,
        high: None,
        low: None,
        close: field_of(cells, close_idx),
        change: match change_idx {
            Some(i) => field_of(cells, i),
            None => None,
        },
        volume: match vol_idx {
            Some(i) => field_of(cells, i),
            None => None,
        },
        deals: None,
    }
}

/// The history rows kept from a table's cell matrix at the given column
/// positions: every non-blank row.
pub open spec fn spec_history_rows(
    table: Seq<Seq<Seq<char>>>,
    date_idx: int,
    close_idx: int,
    change_idx: Option<int>,
    vol_idx: Option<int>,
) -> Seq<RawHistoricalRowModel>
    decreases table.len(),
{
    if table.len() == 0 {
        Seq::empty()
    } else {
        spec_history_rows(table.drop_last(), date_idx, close_idx, change_idx, vol_idx) + (
        if row_is_blank(table.last()) {
            Seq::empty()
        } else {
            seq![spec_history_row(table.last(), date_idx, close_idx, change_idx, vol_idx)]
        })
    }
}

fn row_blank(cells: &Vec<String>) -> (r: bool)
    ensures
        r == row_is_blank(cells.deep_view()),
{
    let mut i: usize = 0;
    proof {
        assert(cells.deep_view().len() == cells@.len());
    }
    while i < cells.len()
        invariant
            i <= cells@.len(),
            cells.deep_view().len() == cells@.len(),
            forall|j: int| 0 <= j < i ==> (#[trigger] cells.deep_view()[j]).len() == 0,
        decreases cells@.len() - i,
    {
        if cells[i].as_str().unicode_len() != 0 {
            proof {
                assert(cells.deep_view()[i as int] == cells@[i as int]@);
            }
            return false;
        }
        proof {
            assert(cells.deep_view()[i as int] == cells@[i as int]@);
        }
        i = i + 1;
    }
    true
}

/// Turn a history table's cell matrix into raw history rows at the given
/// column positions; blank rows are skipped.
pub fn history_cells_to_rows(table: &Vec<Vec<String>>, cols: &HistoryColumns) -> (r: Vec<
    RawHistoricalRow,
>)
    ensures
        crate::cleaner::hist_row_models(r@) == spec_history_rows(
            cells_view(table@),
            cols.date_idx as int,
            cols.close_idx as int,
            match cols.change_idx {
                Some(i) => Some(i as int),
                None => None,
            },
            match cols.vol_idx {
                Some(i) => Some(i as int),
                None => None,
            },
        ),
{
    let ghost tv = cells_view(table@);
    let ghost ci = match cols.change_idx {
        Some(i) => Some(i as int),
        None => None::<int>,
    };
    let ghost vi = match cols.vol_idx {
        Some(i) => Some(i as int),
        None => None::<int>,
    };
    let mut out: Vec<RawHistoricalRow> = Vec::new();
    let mut i: usize = 0;
    proof {
        assert(tv.take(0) =~= Seq::<Seq<Seq<char>>>::empty());
        assert(crate::cleaner::hist_row_models(out@) =~= spec_history_rows(
            tv.take(0),
            cols.date_idx as int,
            cols.close_idx as int,
            ci,
            vi,
        ));
    }
    while i < table.len()
        invariant
            i <= table@.len(),
            tv == cells_view(table@),
            tv.len() == table@.len(),
            ci == (match cols.change_idx {
                Some(i2) => Some(i2 as int),
                None => None::<int>,
            }),
            vi == (match cols.vol_idx {
                Some(i2) => Some(i2 as int),
                None => None::<int>,
            }),
            crate::cleaner::hist_row_models(out@) == spec_history_rows(
                tv.take(i as int),
                cols.date_idx as int,
                cols.close_idx as int,
                ci,
                vi,
            ),
        decreases table@.len() - i,
    {
        let ghost pre = tv.take(i as int);
        let ghost post = tv.take(i + 1);
        proof {
            assert(post.drop_last() =~= pre);
            assert(post.last() == tv[i as int]);
            assert(tv[i as int] == table@[i as int].deep_view());
        }
        let cells = &table[i];
        if !row_blank(cells) {
            let row = RawHistoricalRow {
                date: field(cells, cols.date_idx),
                open: None,
                high: None,
                low: None,
                close: field(cells, cols.close_idx),
                change: match cols.change_idx {
                    Some(ix) => field(cells, ix),
                    None => None,
                },
                volume: match cols.vol_idx {
                    Some(ix) => field(cells, ix),
                    None => None,
                },
                deals: None,
            };
            proof {
                assert(row@ == spec_history_row(
                    tv[i as int],
                    cols.date_idx as int,
                    cols.close_idx as int,
                    ci,
                    vi,
                ));
            }
            out.push(row);
            proof {
                assert(crate::cleaner::hist_row_models(out@) =~= crate::cleaner::hist_row_models(
                    out@.drop_last(),
                ).push(out@.last()@));
                assert(crate::cleaner::hist_row_models(out@) =~= spec_history_rows(
                    post,
                    cols.date_idx as int,
                    cols.close_idx as int,
                    ci,
                    vi,
                ));
            }
        } else {
            proof {
                assert(spec_history_rows(post, cols.date_idx as int, cols.close_idx as int, ci, vi)
                    =~= spec_history_rows(
                    pre,
                    cols.date_idx as int,
                    cols.close_idx as int,
                    ci,
                    vi,
                ));
            }
        }
        i = i + 1;
    }
    proof {
        assert(tv.take(table@.len() as int) =~= tv);
    }
    out
}

/// The positional fallback for a table without headers: date, open, high,
/// low, close, change, volume in order, kept only for rows of at least two
/// cells whose first cell looks like a date.
pub open spec fn spec_positional_row(cells: Seq<Seq<char>>) -> Option<RawHistoricalRowModel> {
    if cells.len() < 2 || !spec_looks_like_date(cells[0]) {
        None
    } else {
        Some(
            RawHistoricalRowModel {
                date: field_of(cells, 0),
                open: field_of(cells, 1),
                high: field_of(cells, 2),
                low: field_of(cells, 3),
                close: field_of(cells, 4),
                change: field_of(cells, 5),
                volume: field_of(cells, 6),
                deals: None,
            },
        )
    }
}

/// The history rows the positional fallback keeps.
pub open spec fn spec_positional_rows(table: Seq<Seq<Seq<char>>>) -> Seq<RawHistoricalRowModel>
    decreases table.len(),
{
    if table.len() == 0 {
        Seq::empty()
    } else {
        spec_positional_rows(table.drop_last()) + (
        match spec_positional_row(table.last()) {
            Some(r) => seq![r],
            None => Seq::empty(),
        })
    }
}

/// Read a headerless table positionally, keeping rows whose first cell
/// looks like a date.
pub fn history_cells_positional(table: &Vec<Vec<String>>) -> (r: Vec<RawHistoricalRow>)
    ensures
        crate::cleaner::hist_row_models(r@) == spec_positional_rows(cells_view(table@)),
{
    let ghost tv = cells_view(table@);
    let mut out: Vec<RawHistoricalRow> = Vec::new();
    let mut i: usize = 0;
    proof {
        assert(tv.take(0) =~= Seq::<Seq<Seq<char>>>::empty());
        assert(crate::cleaner::hist_row_models(out@) =~= spec_positional_rows(tv.take(0)));
    }
    while i < table.len()
        invariant
            i <= table@.len(),
            tv == cells_view(table@),
            tv.len() == table@.len(),
            crate::cleaner::hist_row_models(out@) == spec_positional_rows(tv.take(i as int)),
        decreases table@.len() - i,
    {
        let ghost pre = tv.take(i as int);
        let ghost post = tv.take(i + 1);
        proof {
            assert(post.drop_last() =~= pre);
            assert(post.last() == tv[i as int]);
            assert(tv[i as int] == table@[i as int].deep_view());
        }
        let cells = &table[i];
        proof {
            assert(cells.deep_view().len() == cells@.len());
        }
        if cells.len() >= 2 && looks_like_date(cells[0].as_str()) {
            proof {
                assert(cells.deep_view()[0] == cells@[0]@);
            }
            let row = RawHistoricalRow {
                date: field(cells, 0),
                open: field(cells, 1),
                high: field(cells, 2),
                low: field(cells, 3),
                close: field(cells, 4),
                change: field(cells, 5),
                volume: field(cells, 6),
                deals: None,
            };
            proof {
                assert(row@ == spec_positional_row(tv[i as int])->0);
            }
            out.push(row);
            proof {
                assert(crate::cleaner::hist_row_models(out@) =~= crate::cleaner::hist_row_models(
                    out@.drop_last(),
                ).push(out@.last()@));
                assert(crate::cleaner::hist_row_models(out@) =~= spec_positional_rows(post));
            }
        } else {
            proof {
                if cells@.len() >= 2 {
                    assert(cells.deep_view()[0] == cells@[0]@);
                }
                assert(spec_positional_rows(post) =~= spec_positional_rows(pre));
            }
        }
        i = i + 1;
    }
    proof {
        assert(tv.take(table@.len() as int) =~= tv);
    }
    out
}

// ── Ticker metadata ─────────────────────────────────────────────────────────
/// Opportunistically extracted ticker metadata; any field not found stays
/// absent.
#[derive(Debug, Clone, Default)]
pub struct TickerMeta {
    pub name: Option<String>,
    pub sector: Option<String>,
    pub isin: Option<String>,
    pub board: Option<String>,
}

/// Ghost model of a [`TickerMeta`].
pub ghost struct TickerMetaModel {
    pub name: Option<Seq<char>>,
    pub sector: Option<Seq<char>>,
    pub isin: Option<Seq<char>>,
    pub board: Option<Seq<char>>,
}

impl View for TickerMeta {
    type V = TickerMetaModel;

    open spec fn view(&self) -> TickerMetaModel {
        TickerMetaModel {
            name: crate::models::opt_str_view(self.name),
            sector: crate::models::opt_str_view(self.sector),
            isin: crate::models::opt_str_view(self.isin),
            board: crate::models::opt_str_view(self.board),
        }
    }
}

/// A heading usable as the company name: non-empty once trimmed, and not
/// the site's own name.
pub open spec fn usable_heading(h: Seq<char>) -> bool {
    trim_seq(h).len() > 0 && !contains_seq(
        lower_seq(h),
        seq!['k', 'w', 'a', 'y', 'i', 's', 'i'],
    )
}

/// The first usable heading, trimmed.
pub open spec fn spec_meta_name(headings: Seq<Seq<char>>, i: int) -> Option<Seq<char>>
    decreases headings.len() - i,
{
    if i < 0 || i >= headings.len() {
        None
    } else if usable_heading(headings[i]) {
        Some(trim_seq(headings[i]))
    } else {
        spec_meta_name(headings, i + 1)
    }
}

/// What a definition-list pair contributes: matched by case-insensitive
/// substring on the key; a later pair overwrites an earlier one.
pub open spec fn spec_meta_fold(
    m: TickerMetaModel,
    key: Seq<char>,
    value: Seq<char>,
) -> TickerMetaModel {
    let k = lower_seq(key);
    if contains_seq(k, seq!['i', 's', 'i', 'n']) {
        TickerMetaModel { isin: Some(trim_seq(value)), ..m }
    } else if contains_seq(k, seq!['s', 'e', 'c', 't', 'o', 'r']) || contains_seq(
        k,
        seq!['i', 'n', 'd', 'u', 's', 't', 'r', 'y'],
    ) {
        TickerMetaModel { sector: Some(trim_seq(value)), ..m }
    } else if contains_seq(k, seq!['b', 'o', 'a', 'r', 'd']) || contains_seq(
        k,
        seq!['s', 'e', 'g', 'm', 'e', 'n', 't'],
    ) {
        TickerMetaModel { board: Some(trim_seq(value)), ..m }
    } else {
        m
    }
}

/// The metadata read from the headings and the definition-list pairs.
pub open spec fn spec_ticker_meta(
    headings: Seq<Seq<char>>,
    pairs: Seq<(Seq<char>, Seq<char>)>,
) -> TickerMetaModel
    decreases pairs.len(),
{
    if pairs.len() == 0 {
        TickerMetaModel { name: spec_meta_name(headings, 0), sector: None, isin: None, board: None }
    } else {
        spec_meta_fold(
            spec_ticker_meta(headings, pairs.drop_last()),
            pairs.last().0,
            pairs.last().1,
        )
    }
}

/// View of string pairs.
pub open spec fn pairs_view(ps: Seq<(String, String)>) -> Seq<(Seq<char>, Seq<char>)> {
    ps.map_values(|p: (String, String)| (p.0@, p.1@))
}

fn lower_of(s: &str) -> (r: Vec<char>)
    ensures
        r@ == lower_seq(s@),
{
    let cs = to_chars(s);
    let mut low: Vec<char> = Vec::new();
    let mut i: usize = 0;
    while i < cs.len()
        invariant
            i <= cs@.len(),
            low@ == lower_seq(cs@.take(i as int)),
        decreases cs@.len() - i,
    {
        low.push(lower_char(cs[i]));
        i = i + 1;
        proof {
            assert(low@ =~= lower_seq(cs@.take(i as int)));
        }
    }
    proof {
        assert(cs@.take(cs@.len() as int) =~= cs@);
    }
    low
}

fn trimmed_string(s: &str) -> (r: String)
    ensures
        r@ == trim_seq(s@),
{
    let cs = to_chars(s);
    let t = trim_chars(&cs);
    string_from_chars(&t)
}

/// Read ticker metadata from candidate heading texts and definition-list
/// key/value pairs: the name is the first usable heading; ISIN, sector and
/// board come from pairs whose key holds the matching word, later pairs
/// overwriting earlier ones.
pub fn ticker_meta_from_page(headings: &Vec<String>, pairs: &Vec<(String, String)>) -> (r:
    TickerMeta)
    ensures
        r@ == spec_ticker_meta(
            headings@.map_values(|h: String| h@),
            pairs_view(pairs@),
        ),
{
    let ghost hv = headings@.map_values(|h: String| h@);
    let mut name: Option<String> = None;
    let mut i: usize = 0;
    proof {
        assert(hv.len() == headings@.len());
    }
    while i < headings.len() && name.is_none()
        invariant
            i <= headings@.len(),
            hv == headings@.map_values(|h: String| h@),
            hv.len() == headings@.len(),
            match name {
                None => spec_meta_name(hv, 0) == spec_meta_name(hv, i as int),
                Some(n) => spec_meta_name(hv, 0) == Some(n@),
            },
        decreases headings@.len() - i + (if name is None { 1int } else { 0int }),
    {
        let h = &headings[i];
        let t = trimmed_string(h.as_str());
        let low = lower_of(h.as_str());
        let site: Vec<char> = vec!['k', 'w', 'a', 'y', 'i', 's', 'i'];
        proof {
            assert(site@ =~= seq!['k', 'w', 'a', 'y', 'i', 's', 'i']);
            assert(hv[i as int] == headings@[i as int]@);
        }
        if t.as_str().unicode_len() > 0 && !contains_chars(&low, &site) {
            proof {
                assert(usable_heading(hv[i as int]));
            }
            name = Some(t);
        } else {
            proof {
                assert(!usable_heading(hv[i as int]));
            }
            i = i + 1;
        }
    }
    let ghost pv = pairs_view(pairs@);
    let mut meta = TickerMeta { name, sector: None, isin: None, board: None };
    let mut j: usize = 0;
    proof {
        assert(pv.len() == pairs@.len());
        assert(pv.take(0) =~= Seq::<(Seq<char>, Seq<char>)>::empty());
        match meta.name {
            None => {
                assert(spec_meta_name(hv, hv.len() as int) is None);
            },
            Some(_) => {},
        }
        assert(meta@ == spec_ticker_meta(hv, pv.take(0)));
    }
    while j < pairs.len()
        invariant
            j <= pairs@.len(),
            hv == headings@.map_values(|h: String| h@),
            pv == pairs_view(pairs@),
            pv.len() == pairs@.len(),
            meta@ == spec_ticker_meta(hv, pv.take(j as int)),
        decreases pairs@.len() - j,
    {
        let ghost pre = pv.take(j as int);
        let ghost post = pv.take(j + 1);
        proof {
            assert(post.drop_last() =~= pre);
            assert(post.last() == pv[j as int]);
            assert(pv[j as int] == (pairs@[j as int].0@, pairs@[j as int].1@));
        }
        let key = &pairs[j].0;
        let value = &pairs[j].1;
        let low = lower_of(key.as_str());
        let w_isin: Vec<char> = vec!['i', 's', 'i', 'n'];
        let w_sector: Vec<char> = vec!['s', 'e', 'c', 't', 'o', 'r'];
        let w_industry: Vec<char> = vec!['i', 'n', 'd', 'u', 's', 't', 'r', 'y'];
        let w_board: Vec<char> = vec!['b', 'o', 'a', 'r', 'd'];
        let w_segment: Vec<char> = vec!['s', 'e', 'g', 'm', 'e', 'n', 't'];
        proof {
            assert(w_isin@ =~= seq!['i', 's', 'i', 'n']);
            assert(w_sector@ =~= seq!['s', 'e', 'c', 't', 'o', 'r']);
            assert(w_industry@ =~= seq!['i', 'n', 'd', 'u', 's', 't', 'r', 'y']);
            assert(w_board@ =~= seq!['b', 'o', 'a', 'r', 'd']);
            assert(w_segment@ =~= seq!['s', 'e', 'g', 'm', 'e', 'n', 't']);
        }
        if contains_chars(&low, &w_isin) {
            meta.isin = Some(trimmed_string(value.as_str()));
        } else if contains_chars(&low, &w_sector) || contains_chars(&low, &w_industry) {
            meta.sector = Some(trimmed_string(value.as_str()));
        } else if contains_chars(&low, &w_board) || contains_chars(&low, &w_segment) {
            meta.board = Some(trimmed_string(value.as_str()));
        }
        proof {
            assert(meta@ == spec_meta_fold(
                spec_ticker_meta(hv, pre),
                pv[j as int].0,
                pv[j as int].1,
            ));
            assert(meta@ == spec_ticker_meta(hv, post));
        }
        j = j + 1;
    }
    proof {
        assert(pv.take(pairs@.len() as int) =~= pv);
    }
    meta
}

} // verus!
