//! Rendering for people: aligned columns, one row per line. Scripts get the
//! API's JSON unreshaped instead, so nothing here decides what a caller sees
//! in JSON mode.

use vstd::prelude::*;
use vstd::string::*;

use crate::text::{chars_cut, chars_of, cut, string_of, trim_end_ws, views};

verus! {

broadcast use vstd::string::group_string_axioms;

/// How a command prints what it got.
#[derive(Debug, Clone, Copy, PartialEq, Eq, Structural)]
pub enum Format {
    /// Aligned columns for reading.
    Table,
    /// The API's JSON, pretty-printed.
    Json,
    /// The API's JSON as YAML.
    Yaml,
}

/// Longest cell printed in a table before eliding.
pub const MAX_CELL: usize = 64;

/// A character as a table cell shows it: line breaks and tabs become spaces.
pub open spec fn flat_char(c: char) -> char {
    if c == '\n' || c == '\r' || c == '\t' {
        ' '
    } else {
        c
    }
}

/// `s` on one line, cut to `max` characters with `…` marking the cut.
pub open spec fn elide_spec(s: Seq<char>, max: nat) -> Seq<char> {
    cut(s.map_values(|c: char| flat_char(c)), max)
}

/// Character count, not byte count.
pub fn display_len(s: &str) -> (n: usize)
    ensures
        n == s@.len(),
{
    s.unicode_len()
}

/// Truncate on a character boundary, marking that something was cut; line
/// breaks and tabs become spaces.
pub fn elide(s: &str, max: usize) -> (r: String)
    ensures
        r@ == elide_spec(s@, max as nat),
{
    let v = chars_of(s);
    let mut flat: Vec<char> = Vec::new();
    let mut i: usize = 0;
    while i < v.len()
        invariant
            i <= v.len(),
            flat@ == v@.take(i as int).map_values(|c: char| flat_char(c)),
        decreases v.len() - i,
    {
        let c = v[i];
        let f = if c == '\n' || c == '\r' || c == '\t' { ' ' } else { c };
        flat.push(f);
        assert(v@.take(i + 1).map_values(|c: char| flat_char(c)) =~= v@.take(i as int).map_values(|c: char| flat_char(c)).push(flat_char(c)));
        i = i + 1;
    }
    assert(v@.take(v.len() as int) =~= v@);
    string_of(&chars_cut(&flat, max))
}

/// A cell never spans lines, and never runs past its width (given room for
/// at least one character); what fits is kept whole.
pub proof fn law_elided_cells_are_one_bounded_line(s: Seq<char>, max: nat)
    ensures
        forall|i: int| 0 <= i < elide_spec(s, max).len() ==> #[trigger] elide_spec(s, max)[i] != '\n',
        max > 0 ==> elide_spec(s, max).len() <= max,
        s.len() <= max ==> elide_spec(s, max).len() == s.len(),
{
    let flat = s.map_values(|c: char| flat_char(c));
    assert forall|i: int| 0 <= i < elide_spec(s, max).len() implies #[trigger] elide_spec(s, max)[i] != '\n' by {
        if flat.len() > max {
            let k = if max == 0 { 0 } else { max - 1 };
            if i < k {
                assert(elide_spec(s, max)[i] == flat[i]);
            }
        }
    }
}

/// A table: upper-cased headers, rows of cells, and what to print when there
/// are no rows.
#[derive(Debug)]
pub struct Table {
    pub headers: Vec<String>,
    pub rows: Vec<Vec<String>>,
    /// Printed instead of the table when there are no rows.
    pub empty: String,
}

/// What `str::to_uppercase` makes of `s` (full Unicode case mapping, which
/// does not depend on the locale).
pub uninterp spec fn upper(s: Seq<char>) -> Seq<char>;

/// Every character of `s` is ASCII.
pub open spec fn is_ascii_text(s: Seq<char>) -> bool {
    forall|i: int| 0 <= i < s.len() ==> (#[trigger] s[i] as u32) < 128
}

/// An ASCII character upper-cased: `a`–`z` become `A`–`Z`, others stay.
pub open spec fn ascii_upper(c: char) -> char {
    if 'a' <= c <= 'z' {
        ((c as u32) - 32) as char
    } else {
        c
    }
}

/// `str::to_uppercase`: the Unicode upper-case mapping of `s`, a function of
/// `s` alone, named here rather than spelled out. Stated: on ASCII text it is
/// the ASCII mapping, character for character; the rest of Unicode is left
/// to the name.
#[verifier::external_body]
fn to_upper(s: &str) -> (r: String)
    ensures
        r@ == upper(s@),
        is_ascii_text(s@) ==> r@ == s@.map_values(
            |c: char| ascii_upper(c),
        ),
{
    s.to_uppercase()
}

/// The spaces that pad a cell of `len` characters to `width`, plus two
/// between columns.
pub open spec fn gap(width: nat, len: nat) -> nat {
    if width > len {
        (width - len + 2) as nat
    } else {
        2
    }
}

/// The first `k` cells of a row, each but the last padded to its column.
pub open spec fn padded(cells: Seq<Seq<char>>, width: Seq<nat>, k: int) -> Seq<char>
    decreases k,
{
    if k <= 0 {
        Seq::<char>::empty()
    } else if k == cells.len() {
        padded(cells, width, k - 1) + cells[k - 1]
    } else {
        padded(cells, width, k - 1) + cells[k - 1] + Seq::new(gap(width[k - 1], cells[k - 1].len()), |_j: int| ' ')
    }
}

/// One printed row: its cells padded, trailing blanks trimmed.
pub open spec fn row_line(cells: Seq<Seq<char>>, width: Seq<nat>) -> Seq<char> {
    trim_end_ws(padded(cells, width, cells.len() as int))
}

/// How wide column `i` is: its header, or its widest elided cell.
pub open spec fn col_width(header: Seq<char>, rows: Seq<Seq<Seq<char>>>, i: int) -> nat
    decreases rows.len(),
{
    if rows.len() == 0 {
        header.len()
    } else {
        let w = col_width(header, rows.drop_last(), i);
        let last = rows.last();
        if i < last.len() && elide_spec(last[i], MAX_CELL as nat).len() > w {
            elide_spec(last[i], MAX_CELL as nat).len()
        } else {
            w
        }
    }
}

pub open spec fn widths(headers: Seq<Seq<char>>, rows: Seq<Seq<Seq<char>>>) -> Seq<nat> {
    Seq::new(headers.len(), |i: int| col_width(headers[i], rows, i))
}

/// What `print` writes, line by line: the empty note when there are no rows,
/// else the header line and one line per row, cells elided.
pub open spec fn table_lines(headers: Seq<Seq<char>>, rows: Seq<Seq<Seq<char>>>, empty: Seq<char>) -> Seq<Seq<char>> {
    if rows.len() == 0 {
        seq![empty]
    } else {
        let w = widths(headers, rows);
        seq![row_line(headers, w)] + rows.map_values(
            |r: Seq<Seq<char>>| row_line(r.map_values(|c: Seq<char>| elide_spec(c, MAX_CELL as nat)), w),
        )
    }
}

/// Rows fit the columns: a row may carry one cell past the headers, which is
/// printed unpadded.
pub open spec fn rows_fit(headers: Seq<Seq<char>>, rows: Seq<Seq<Seq<char>>>) -> bool {
    forall|r: int| 0 <= r < rows.len() ==> #[trigger] rows[r].len() <= headers.len() + 1
}

impl Table {
    pub open spec fn headers_view(&self) -> Seq<Seq<char>> {
        self.headers@.map_values(|h: String| h@)
    }

    pub open spec fn rows_view(&self) -> Seq<Seq<Seq<char>>> {
        self.rows@.map_values(|r: Vec<String>| r@.map_values(|c: String| c@))
    }

    /// A table with these headers, upper-cased, no rows, and `(none)` for
    /// when it stays empty.
    pub fn new(headers: &[&str]) -> (t: Table)
        ensures
            t.headers_view() == headers@.map_values(|h: &str| upper(h@)),
            forall|k: int| 0 <= k < headers@.len() && is_ascii_text(#[trigger] headers@[k]@) ==> upper(headers@[k]@)
                == headers@[k]@.map_values(|c: char| ascii_upper(c)),
            t.rows@.len() == 0,
            t.empty@ == "(none)"@,
    {
        let mut hs: Vec<String> = Vec::new();
        let mut i: usize = 0;
        while i < headers.len()
            invariant
                i <= headers.len(),
                hs@.map_values(|h: String| h@) == headers@.take(i as int).map_values(|h: &str| upper(h@)),
                forall|k: int| 0 <= k < i && is_ascii_text(#[trigger] headers@[k]@) ==> upper(headers@[k]@)
                    == headers@[k]@.map_values(|c: char| ascii_upper(c)),
            decreases headers.len() - i,
        {
            let ghost before = hs@.map_values(|h: String| h@);
            hs.push(to_upper(headers[i]));
            assert(hs@.map_values(|h: String| h@) =~= before.push(upper(headers@[i as int]@)));
            assert(headers@.take(i + 1).map_values(|h: &str| upper(h@)) =~= headers@.take(i as int).map_values(|h: &str| upper(h@)).push(upper(headers@[i as int]@)));
            i = i + 1;
        }
        assert(headers@.take(headers.len() as int) =~= headers@);
        Table { headers: hs, rows: Vec::new(), empty: "(none)".to_string() }
    }

    /// The same table with another note for when it has no rows.
    pub fn empty_note(self, note: &str) -> (t: Table)
        ensures
            t.headers_view() == self.headers_view(),
            t.rows_view() == self.rows_view(),
            t.empty@ == note@,
    {
        Table { headers: self.headers, rows: self.rows, empty: note.to_string() }
    }

    /// Add a row.
    pub fn push(&mut self, row: Vec<String>)
        ensures
            final(self).headers_view() == old(self).headers_view(),
            final(self).rows_view() == old(self).rows_view().push(row@.map_values(|c: String| c@)),
            final(self).empty@ == old(self).empty@,
    {
        let ghost before = self.rows_view();
        self.rows.push(row);
        assert(self.rows_view() =~= before.push(row@.map_values(|c: String| c@)));
    }

    /// The number of rows.
    pub fn len(&self) -> (n: usize)
        ensures
            n == self.rows@.len(),
    {
        self.rows.len()
    }
}

pub open spec fn nat_widths(w: Seq<usize>) -> Seq<nat> {
    w.map_values(|x: usize| x as nat)
}

/// Cells of one row, padded and trimmed.
fn render_row(cells: &Vec<Vec<char>>, width: &Vec<usize>) -> (out: Vec<char>)
    requires
        cells.len() <= width.len() + 1,
    ensures
        out@ == row_line(views(cells@), nat_widths(width@)),
{
    let ghost cs = views(cells@);
    let ghost w = nat_widths(width@);
    let mut line: Vec<char> = Vec::new();
    let mut k: usize = 0;
    while k < cells.len()
        invariant
            cells.len() <= width.len() + 1,
            cs == views(cells@),
            w == nat_widths(width@),
            k <= cells.len(),
            line@ == padded(cs, w, k as int),
        decreases cells.len() - k,
    {
        let cell = &cells[k];
        assert(cell@ == cs[k as int]);
        crate::text::push_chars(&mut line, cell);
        if k + 1 < cells.len() {
            let wk = width[k];
            let pad: usize = if wk > cell.len() { wk - cell.len() } else { 0 };
            let ghost start = line@;
            let mut j: usize = 0;
            while j < pad
                invariant
                    j <= pad,
                    line@ == start + Seq::new(j as nat, |_j: int| ' '),
                decreases pad - j,
            {
                line.push(' ');
                assert(start + Seq::new((j + 1) as nat, |_j: int| ' ') =~= (start + Seq::new(j as nat, |_j: int| ' ')).push(' '));
                j = j + 1;
            }
            line.push(' ');
            line.push(' ');
            assert(line@ =~= start + Seq::new((pad + 2) as nat, |_j: int| ' '));
            assert(gap(w[k as int], cs[k as int].len()) == pad + 2);
            assert(line@ =~= padded(cs, w, k + 1));
        }
        k = k + 1;
    }
    crate::text::chars_trim_end(&line)
}

/// The cells of `row`, elided for a table.
fn elided_row(row: &Vec<String>) -> (out: Vec<Vec<char>>)
    ensures
        views(out@) == row@.map_values(|c: String| elide_spec(c@, MAX_CELL as nat)),
{
    let mut out: Vec<Vec<char>> = Vec::new();
    let mut i: usize = 0;
    while i < row.len()
        invariant
            i <= row.len(),
            views(out@) == row@.take(i as int).map_values(|c: String| elide_spec(c@, MAX_CELL as nat)),
        decreases row.len() - i,
    {
        let ghost before = views(out@);
        out.push(chars_of(elide(row[i].as_str(), MAX_CELL).as_str()));
        assert(views(out@) =~= before.push(elide_spec(row@[i as int]@, MAX_CELL as nat)));
        assert(row@.take(i + 1).map_values(|c: String| elide_spec(c@, MAX_CELL as nat)) =~= row@.take(i as int).map_values(|c: String| elide_spec(c@, MAX_CELL as nat)).push(elide_spec(row@[i as int]@, MAX_CELL as nat)));
        i = i + 1;
    }
    assert(row@.take(row.len() as int) =~= row@);
    out
}

impl Table {
    /// The column widths: each header's, widened to its widest elided cell.
    fn widths_exec(&self) -> (w: Vec<usize>)
        ensures
            w@.len() == self.headers@.len(),
            nat_widths(w@) == widths(self.headers_view(), self.rows_view()),
    {
        let ghost hv = self.headers_view();
        let ghost rv = self.rows_view();
        let mut w: Vec<usize> = Vec::new();
        let mut i: usize = 0;
        while i < self.headers.len()
            invariant
                i <= self.headers.len(),
                hv == self.headers_view(),
                w.len() == i,
                forall|k: int| 0 <= k < i ==> #[trigger] w@[k] as nat == hv[k].len(),
            decreases self.headers.len() - i,
        {
            w.push(display_len(self.headers[i].as_str()));
            i = i + 1;
        }
        assert(rv.len() == self.rows@.len());
        assert forall|k: int| 0 <= k < w.len() implies #[trigger] w@[k] as nat == col_width(hv[k], rv.take(0), k) by {
            assert(rv.take(0).len() == 0);
        }
        let mut r: usize = 0;
        while r < self.rows.len()
            invariant
                r <= self.rows.len(),
                hv == self.headers_view(),
                rv == self.rows_view(),
                rv.len() == self.rows@.len(),
                w.len() == hv.len(),
                forall|k: int| 0 <= k < w.len() ==> #[trigger] w@[k] as nat == col_width(hv[k], rv.take(r as int), k),
            decreases self.rows.len() - r,
        {
            let row = &self.rows[r];
            assert(rv[r as int] == row@.map_values(|c: String| c@));
            assert(rv.take(r + 1).drop_last() =~= rv.take(r as int));
            assert(rv.take(r + 1).last() == rv[r as int]);
            let ghost prev = w@;
            let mut i: usize = 0;
            while i < w.len()
                invariant
                    i <= w.len(),
                    w.len() == prev.len(),
                    w.len() == hv.len(),
                    r < rv.len(),
                    row@.map_values(|c: String| c@) == rv[r as int],
                    rv.take(r + 1).drop_last() == rv.take(r as int),
                    rv.take(r + 1).last() == rv[r as int],
                    forall|k: int| 0 <= k < w.len() ==> #[trigger] prev[k] as nat == col_width(hv[k], rv.take(r as int), k),
                    forall|k: int| 0 <= k < i ==> #[trigger] w@[k] as nat == col_width(hv[k], rv.take(r + 1), k),
                    forall|k: int| i <= k < w.len() ==> #[trigger] w@[k] == prev[k],
                decreases w.len() - i,
            {
                let ghost rows1 = rv.take(r + 1);
                let ghost w0 = col_width(hv[i as int], rows1.drop_last(), i as int);
                assert(w0 == prev[i as int] as nat);
                assert(rows1.last().len() == row.len());
                assert(rows1.len() == r + 1);
                assert(col_width(hv[i as int], rows1, i as int) == (if (i as int) < rows1.last().len()
                    && elide_spec(rows1.last()[i as int], MAX_CELL as nat).len() > w0 {
                    elide_spec(rows1.last()[i as int], MAX_CELL as nat).len()
                } else {
                    w0
                }));
                if i < row.len() {
                    let e = elide(row[i].as_str(), MAX_CELL);
                    let n = display_len(e.as_str());
                    assert(rows1.last()[i as int] == row@[i as int]@);
                    assert(n == elide_spec(rows1.last()[i as int], MAX_CELL as nat).len());
                    if n > w[i] {
                        w.set(i, n);
                    }
                }
                assert(w@[i as int] as nat == col_width(hv[i as int], rows1, i as int));
                i = i + 1;
            }
            r = r + 1;
        }
        assert(rv.take(self.rows.len() as int) =~= rv);
        assert(nat_widths(w@) =~= widths(hv, rv));
        w
    }

    /// The lines `print` writes.
    pub fn lines(&self) -> (out: Vec<String>)
        requires
            rows_fit(self.headers_view(), self.rows_view()),
        ensures
            out@.map_values(|l: String| l@) == table_lines(self.headers_view(), self.rows_view(), self.empty@),
    {
        let ghost hv = self.headers_view();
        let ghost rv = self.rows_view();
        let mut out: Vec<String> = Vec::new();
        if self.rows.len() == 0 {
            out.push(self.empty.clone());
            assert(out@.map_values(|l: String| l@) =~= seq![self.empty@]);
            return out;
        }
        let w = self.widths_exec();
        let mut hc: Vec<Vec<char>> = Vec::new();
        let mut i: usize = 0;
        while i < self.headers.len()
            invariant
                i <= self.headers.len(),
                hv == self.headers_view(),
                views(hc@) == hv.take(i as int),
            decreases self.headers.len() - i,
        {
            let ghost before = views(hc@);
            hc.push(chars_of(self.headers[i].as_str()));
            assert(views(hc@) =~= before.push(hv[i as int]));
            assert(hv.take(i + 1) =~= hv.take(i as int).push(hv[i as int]));
            i = i + 1;
        }
        assert(hv.take(self.headers.len() as int) =~= hv);
        out.push(string_of(&render_row(&hc, &w)));
        let ghost ws = nat_widths(w@);
        let ghost rl = rv.map_values(
            |r: Seq<Seq<char>>| row_line(r.map_values(|c: Seq<char>| elide_spec(c, MAX_CELL as nat)), ws),
        );
        assert(out@.map_values(|l: String| l@) =~= seq![row_line(hv, ws)] + rl.take(0));
        let mut r: usize = 0;
        while r < self.rows.len()
            invariant
                r <= self.rows.len(),
                rv == self.rows_view(),
                hv == self.headers_view(),
                ws == nat_widths(w@),
                w.len() == hv.len(),
                rows_fit(hv, rv),
                rl == rv.map_values(
                    |r: Seq<Seq<char>>| row_line(r.map_values(|c: Seq<char>| elide_spec(c, MAX_CELL as nat)), ws),
                ),
                out@.map_values(|l: String| l@) == seq![row_line(hv, ws)] + rl.take(r as int),
            decreases self.rows.len() - r,
        {
            let cells = elided_row(&self.rows[r]);
            assert(rv[r as int] == self.rows@[r as int]@.map_values(|c: String| c@));
            assert(views(cells@) =~= rv[r as int].map_values(|c: Seq<char>| elide_spec(c, MAX_CELL as nat)));
            assert(rv[r as int].len() <= hv.len() + 1);
            let ghost before = out@.map_values(|l: String| l@);
            out.push(string_of(&render_row(&cells, &w)));
            assert(out@.map_values(|l: String| l@) =~= before.push(rl[r as int]));
            assert(rl.take(r + 1) =~= rl.take(r as int).push(rl[r as int]));
            r = r + 1;
        }
        assert(rl.take(self.rows.len() as int) =~= rl);
        out
    }
}

} // verus!
