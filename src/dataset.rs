//! The dataset text: a header line with two column labels, then one row of
//! two fields per non-empty line, the fields separated by commas.
//!
//! This module cuts the text into labels and field texts; reading the fields
//! as numbers is left to the caller.
use vstd::prelude::*;

use crate::error::TrainError;
use crate::text::{
    chars_of,
    find_char,
    lemma_pieces_found,
    lemma_pieces_none,
    pieces,
    string_of,
    trim_spec,
    two_fields,
};

verus! {

/// How far the reading of the lines has come.
pub enum Scan {
    /// No non-empty line yet.
    Start,
    /// The two labels, and the rows so far as (line index, x field, y field).
    Header(Seq<char>, Seq<char>, Seq<(nat, Seq<char>, Seq<char>)>),
    /// The line at this index has fewer than two fields.
    Failed(nat),
}

/// A line that is empty once a trailing `'\r'` is dropped, as `str::lines`
/// leaves it.
pub open spec fn is_empty_line(line: Seq<char>) -> bool {
    line.len() == 0 || (line.len() == 1 && line[0] == '\r')
}

/// Reads the line at index `k`: an empty line changes nothing, the first
/// other line gives the labels, each later one a row; the first line
/// with fewer than two fields ends the reading.
pub open spec fn scan_line(st: Scan, k: nat, line: Seq<char>) -> Scan {
    if st is Failed || is_empty_line(line) {
        st
    } else {
        let ps = pieces(line, ',');
        if ps.len() < 2 {
            Scan::Failed(k)
        } else {
            let f0 = trim_spec(ps[0]);
            let f1 = trim_spec(ps[1]);
            match st {
                Scan::Header(a, b, rows) => Scan::Header(a, b, rows.push((k, f0, f1))),
                _ => Scan::Header(f0, f1, Seq::empty()),
            }
        }
    }
}

/// The reading of the first `k` lines.
pub open spec fn scan(lines: Seq<Seq<char>>, k: nat) -> Scan
    decreases k,
{
    if k == 0 {
        Scan::Start
    } else {
        scan_line(scan(lines, (k - 1) as nat), (k - 1) as nat, lines[k - 1])
    }
}

/// The reading of a whole text.
pub open spec fn dataset_spec(text: Seq<char>) -> Scan {
    scan(pieces(text, '\n'), pieces(text, '\n').len())
}

/// One row of the dataset, its fields not yet read as numbers.
pub struct RawRow {
    /// Index of the row's line in the text, counted from zero.
    pub line: usize,
    pub x: String,
    pub y: String,
}

impl View for RawRow {
    type V = (nat, Seq<char>, Seq<char>);

    open spec fn view(&self) -> (nat, Seq<char>, Seq<char>) {
        (self.line as nat, self.x@, self.y@)
    }
}

/// The labels and rows of a dataset text.
pub struct Table {
    /// The labels of the input column and of the estimated column.
    pub labels: [String; 2],
    pub rows: Vec<RawRow>,
}

impl Table {
    pub open spec fn rows_view(&self) -> Seq<(nat, Seq<char>, Seq<char>)> {
        self.rows@.map_values(|r: RawRow| r@)
    }
}

proof fn lemma_failed_stays(lines: Seq<Seq<char>>, k: nat, m: nat, l: nat)
    requires
        k <= m,
        scan(lines, k) == Scan::Failed(l),
    ensures
        scan(lines, m) == Scan::Failed(l),
    decreases m - k,
{
    if k < m {
        lemma_failed_stays(lines, k, (m - 1) as nat, l);
    }
}

/// Cuts a dataset text into its labels and rows. Lines are separated by
/// `'\n'`; a line that is empty, or holds only `'\r'`, is skipped; the first
/// other line gives the two labels and each later one a row; fields are
/// separated by commas, trimmed, and fields after the second are ignored.
/// Fails on the first line that has no comma, or when no line is left for
/// the labels.
pub fn parse_dataset(text: &str) -> (r: Result<Table, TrainError>)
    requires
        text@.len() < usize::MAX,
    ensures
        match dataset_spec(text@) {
            Scan::Start => r is Err && r->Err_0 is MissingHeader,
            Scan::Failed(l) => r is Err && r->Err_0 == (TrainError::MissingField { line: l as usize }),
            Scan::Header(a, b, rows) => r is Ok && r->Ok_0.labels@[0]@ == a && r->Ok_0.labels@[1]@
                == b && r->Ok_0.rows_view() == rows,
        },
{
    let cs = chars_of(text);
    let n = cs.len();
    let ghost s = cs@;
    let ghost ls = pieces(s, '\n');
    let mut have_header = false;
    let mut label_x = String::new();
    let mut label_y = String::new();
    let mut rows: Vec<RawRow> = Vec::new();
    let mut pos: usize = 0;
    let mut k: usize = 0;
    let mut more = true;
    proof {
        assert(s.skip(0) =~= s);
    }
    while more
        invariant
            n == cs@.len() == s.len() < usize::MAX,
            s == text@,
            s == cs@,
            ls == pieces(s, '\n'),
            pos <= n,
            more ==> k <= pos,
            more ==> pieces(s.skip(pos as int), '\n') == ls.skip(k as int) && k < ls.len(),
            !more ==> k == ls.len(),
            scan(ls, k as nat) == (if have_header {
                Scan::Header(label_x@, label_y@, rows@.map_values(|r: RawRow| r@))
            } else {
                Scan::Start
            }),
            !have_header ==> rows@.len() == 0,
        decreases n - pos + (if more { 1int } else { 0 }),
    {
        let ghost rest = s.skip(pos as int);
        proof {
            assert(cs@.subrange(pos as int, n as int) =~= rest);
        }
        let found = find_char(&cs, pos, n, '\n');
        let end = match found {
            Some(p) => p,
            None => n,
        };
        proof {
            match found {
                Some(p) => {
                    lemma_pieces_found(rest, '\n', p - pos);
                    assert(rest.take(p - pos) =~= cs@.subrange(pos as int, p as int));
                    assert(rest.skip(p - pos + 1) =~= s.skip(p + 1));
                    assert(ls.skip(k as int)[0] == ls[k as int]);
                    assert(ls.skip(k + 1) =~= ls.skip(k as int).skip(1));
                    assert(pieces(rest, '\n').skip(1) =~= pieces(s.skip(p + 1), '\n'));
                },
                None => {
                    lemma_pieces_none(rest, '\n');
                    assert(ls.skip(k as int)[0] == ls[k as int]);
                    assert(ls.skip(k as int).len() == 1);
                },
            }
            assert(ls[k as int] == cs@.subrange(pos as int, end as int));
        }
        let ghost line = cs@.subrange(pos as int, end as int);
        let ghost before = scan(ls, k as nat);
        if !(end == pos || (end - pos == 1 && cs[pos] == '\r')) {
            match two_fields(&cs, pos, end, ',') {
                None => {
                    proof {
                        assert(scan(ls, (k + 1) as nat) == Scan::Failed(k as nat));
                        lemma_failed_stays(ls, (k + 1) as nat, ls.len(), k as nat);
                    }
                    return Err(TrainError::MissingField { line: k });
                },
                Some(f) => {
                    let x = string_of(&cs, f.0.0, f.0.1);
                    let y = string_of(&cs, f.1.0, f.1.1);
                    if have_header {
                        let ghost old_rows = rows@;
                        rows.push(RawRow { line: k, x, y });
                        proof {
                            assert(rows@.map_values(|r: RawRow| r@) =~= old_rows.map_values(
                                |r: RawRow| r@,
                            ).push((k as nat, x@, y@)));
                        }
                    } else {
                        label_x = x;
                        label_y = y;
                        have_header = true;
                        proof {
                            assert(rows@.map_values(|r: RawRow| r@) =~= Seq::empty());
                        }
                    }
                },
            }
        } else {
            proof {
                assert(is_empty_line(line));
            }
        }
        match found {
            Some(p) => {
                pos = p + 1;
            },
            None => {
                more = false;
            },
        }
        k = k + 1;
    }
    if have_header {
        Ok(Table { labels: [label_x, label_y], rows })
    } else {
        Err(TrainError::MissingHeader)
    }
}

} // verus!
