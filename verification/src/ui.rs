//! The command line's text: truncation, byte sizes and speeds, timestamps,
//! and tables with columns sized to their widest cell.
use vstd::prelude::*;

use crate::text::{
    chars_of, join_strings, join_with, lemma_texts_push, push_char, push_repeat, push_str, repeat_char,
    string_from_range, texts_view,
};
use crate::units::{decimal_text, fixed_text, nat_text, push_decimal, push_fixed};

verus! {

// ---------------------------------------------------------------------
// Short texts

/// `s` cut to `max_width` characters: unchanged when it fits; otherwise
/// its first characters followed by `ellipsis`, or only its first
/// `max_width` characters when the ellipsis alone does not fit.
pub open spec fn truncated_text(s: Seq<char>, max_width: nat, ellipsis: Seq<char>) -> Seq<char> {
    if s.len() <= max_width {
        s
    } else if max_width <= ellipsis.len() {
        s.subrange(0, max_width as int)
    } else {
        s.subrange(0, max_width - ellipsis.len()) + ellipsis
    }
}

/// Truncates a string to a number of characters, marking the cut.
pub fn truncate_to_width(s: &str, max_width: usize, ellipsis: &str) -> (r: String)
    ensures
        r@ == truncated_text(s@, max_width as nat, ellipsis@),
{
    let v = chars_of(s);
    if v.len() <= max_width {
        return string_from_range(&v, 0, v.len());
    }
    let ellipsis_len = ellipsis.unicode_len();
    if max_width <= ellipsis_len {
        return string_from_range(&v, 0, max_width);
    }
    let mut r = string_from_range(&v, 0, max_width - ellipsis_len);
    push_str(&mut r, ellipsis);
    r
}

pub open spec fn kib() -> nat {
    1024
}

/// A byte count in the largest unit it reaches, two decimals.
pub open spec fn bytes_text(b: nat) -> Seq<char> {
    if b >= kib() * kib() * kib() * kib() {
        fixed_text(b, kib() * kib() * kib() * kib(), 2) + " TB"@
    } else if b >= kib() * kib() * kib() {
        fixed_text(b, kib() * kib() * kib(), 2) + " GB"@
    } else if b >= kib() * kib() {
        fixed_text(b, kib() * kib(), 2) + " MB"@
    } else if b >= kib() {
        fixed_text(b, kib(), 2) + " KB"@
    } else {
        nat_text(b) + " B"@
    }
}

/// A byte count in B, KB, MB, GB or TB (powers of 1024), with two
/// decimals rounded ties to even past bytes, such as `1.50 KB`.
pub fn format_bytes(bytes: u64) -> (r: String)
    ensures
        r@ == bytes_text(bytes as nat),
{
    let kb: u64 = 1024;
    let mb: u64 = 1024 * kb;
    let gb: u64 = 1024 * mb;
    let tb: u64 = 1024 * gb;
    let mut r = String::new();
    if bytes >= tb {
        push_fixed(&mut r, bytes as u128, tb as u128, 2);
        push_str(&mut r, " TB");
    } else if bytes >= gb {
        push_fixed(&mut r, bytes as u128, gb as u128, 2);
        push_str(&mut r, " GB");
    } else if bytes >= mb {
        push_fixed(&mut r, bytes as u128, mb as u128, 2);
        push_str(&mut r, " MB");
    } else if bytes >= kb {
        push_fixed(&mut r, bytes as u128, kb as u128, 2);
        push_str(&mut r, " KB");
    } else {
        push_decimal(&mut r, bytes as u128);
        push_str(&mut r, " B");
    }
    proof {
        assert(r@ =~= bytes_text(bytes as nat));
    }
    r
}

/// A transfer rate in bytes per second, such as `1.23 MB/s`.
pub fn format_speed(bps: u64) -> (r: String)
    ensures
        r@ == bytes_text(bps as nat) + "/s"@,
{
    let mut r = format_bytes(bps);
    push_str(&mut r, "/s");
    r
}

/// The local date and time of a Unix timestamp as `%Y-%m-%d %H:%M:%S`
/// (jiff: `Timestamp::from_second`, `to_zoned` in `TimeZone::system()`,
/// `strftime`), or `None` where jiff refuses the timestamp. The text depends
/// on the machine's time zone: nothing is promised of it.
#[verifier::external_body]
fn local_time_text(secs: i64) -> (r: Option<String>) {
    match jiff::Timestamp::from_second(secs) {
        Ok(ts) => Some(ts.to_zoned(jiff::tz::TimeZone::system()).strftime("%Y-%m-%d %H:%M:%S").to_string()),
        Err(_) => None,
    }
}

/// The text of a timestamp given its local rendering: `-` for the zero
/// timestamp, the rendering when there is one, else the seconds.
pub fn timestamp_text(epoch_secs: u64, local: Option<String>) -> (r: String)
    ensures
        r@ == (if epoch_secs == 0 {
            "-"@
        } else {
            match local {
                Some(t) => t@,
                None => nat_text(epoch_secs as nat),
            }
        }),
{
    if epoch_secs == 0 {
        return String::from_str("-");
    }
    match local {
        Some(t) => t,
        None => decimal_text(epoch_secs as u128),
    }
}

/// A Unix timestamp as local date and time, `-` for zero.
pub fn format_timestamp(epoch_secs: u64) -> (r: String)
    ensures
        epoch_secs == 0 ==> r@ == "-"@,
{
    if epoch_secs == 0 {
        return timestamp_text(0, None);
    }
    let local = local_time_text(epoch_secs as i64);
    timestamp_text(epoch_secs, local)
}

// ---------------------------------------------------------------------
// Tables

/// How a column's cells line up.
#[derive(Debug, Clone, Copy, PartialEq, Eq, Structural)]
pub enum Alignment {
    Left,
    Right,
}

/// A column: its header and alignment.
#[derive(Debug, Clone)]
pub struct Column {
    pub name: String,
    pub align: Alignment,
}

pub struct ColumnView {
    pub name: Seq<char>,
    pub align: Alignment,
}

impl View for Column {
    type V = ColumnView;

    open spec fn view(&self) -> ColumnView {
        ColumnView { name: self.name@, align: self.align }
    }
}

impl Column {
    /// A left-aligned column.
    pub fn new(name: &str) -> (r: Self)
        ensures
            r@ == (ColumnView { name: name@, align: Alignment::Left }),
    {
        Column { name: String::from_str(name), align: Alignment::Left }
    }

    /// A right-aligned column.
    pub fn right_aligned(name: &str) -> (r: Self)
        ensures
            r@ == (ColumnView { name: name@, align: Alignment::Right }),
    {
        Column { name: String::from_str(name), align: Alignment::Right }
    }
}

/// A table: columns and rows of cells.
#[derive(Debug)]
pub struct Table {
    columns: Vec<Column>,
    rows: Vec<Vec<String>>,
}

pub struct TableView {
    pub columns: Seq<ColumnView>,
    pub rows: Seq<Seq<Seq<char>>>,
}

pub open spec fn columns_view(v: Seq<Column>) -> Seq<ColumnView> {
    v.map_values(|c: Column| c@)
}

pub open spec fn rows_view(v: Seq<Vec<String>>) -> Seq<Seq<Seq<char>>> {
    v.map_values(|r: Vec<String>| texts_view(r@))
}

impl View for Table {
    type V = TableView;

    closed spec fn view(&self) -> TableView {
        TableView { columns: columns_view(self.columns@), rows: rows_view(self.rows@) }
    }
}

/// The width of a cell as the table measures it: its length in UTF-8
/// bytes.
pub open spec fn cell_width(s: Seq<char>) -> nat {
    (vstd::utf8::encode_utf8(s).len() as usize) as nat
}

/// The width of column `i` counting its header and the first `k` rows.
pub open spec fn width_upto(t: TableView, i: int, k: int) -> nat
    decreases k,
{
    if k <= 0 {
        cell_width(t.columns[i].name)
    } else {
        let w = width_upto(t, i, k - 1);
        let row = t.rows[k - 1];
        if i < row.len() && cell_width(row[i]) > w {
            cell_width(row[i])
        } else {
            w
        }
    }
}

/// The width of column `i`: its widest cell or header.
pub open spec fn column_width(t: TableView, i: int) -> nat {
    width_upto(t, i, t.rows.len() as int)
}

/// A cell padded with spaces to `width` characters on the side its
/// alignment leaves open.
pub open spec fn pad_cell(s: Seq<char>, width: nat, align: Alignment) -> Seq<char> {
    if width > s.len() {
        match align {
            Alignment::Left => s + repeat_char(' ', (width - s.len()) as nat),
            Alignment::Right => repeat_char(' ', (width - s.len()) as nat) + s,
        }
    } else {
        s
    }
}

pub open spec fn header_parts(t: TableView) -> Seq<Seq<char>> {
    Seq::new(
        t.columns.len(),
        |i: int| pad_cell(t.columns[i].name, column_width(t, i), t.columns[i].align),
    )
}

pub open spec fn divider_parts(t: TableView) -> Seq<Seq<char>> {
    Seq::new(t.columns.len(), |i: int| repeat_char('-', column_width(t, i)))
}

/// The cells of a row, padded; a cell past the last column is measured by
/// its own width and aligned left.
pub open spec fn row_parts(t: TableView, row: Seq<Seq<char>>) -> Seq<Seq<char>> {
    Seq::new(
        row.len(),
        |i: int|
            if i < t.columns.len() {
                pad_cell(row[i], column_width(t, i), t.columns[i].align)
            } else {
                pad_cell(row[i], cell_width(row[i]), Alignment::Left)
            },
    )
}

pub open spec fn row_line(t: TableView, row: Seq<Seq<char>>) -> Seq<char> {
    join_with(row_parts(t, row), "  "@) + seq!['\n']
}

/// The lines of the first `k` rows.
pub open spec fn rows_text(t: TableView, k: int) -> Seq<char>
    decreases k,
{
    if k <= 0 {
        Seq::empty()
    } else {
        rows_text(t, k - 1) + row_line(t, t.rows[k - 1])
    }
}

/// A table as text: the header line, a line of dashes under each column,
/// then one line per row; cells are separated by two spaces. A table
/// without columns is empty.
pub open spec fn table_text(t: TableView) -> Seq<char> {
    if t.columns.len() == 0 {
        Seq::empty()
    } else {
        join_with(header_parts(t), "  "@) + seq!['\n'] + join_with(divider_parts(t), "  "@) + seq!['\n']
            + rows_text(t, t.rows.len() as int)
    }
}

fn byte_width(s: &String) -> (r: usize)
    ensures
        r == cell_width(s@),
{
    s.as_str().len()
}

fn pad(s: &String, width: usize, align: Alignment) -> (r: String)
    ensures
        r@ == pad_cell(s@, width as nat, align),
{
    let n = s.as_str().unicode_len();
    if width > n {
        match align {
            Alignment::Left => {
                let mut r = s.clone();
                push_repeat(&mut r, ' ', width - n);
                r
            },
            Alignment::Right => {
                let mut r = String::new();
                push_repeat(&mut r, ' ', width - n);
                push_str(&mut r, s.as_str());
                proof {
                    assert(r@ =~= repeat_char(' ', (width - n) as nat) + s@);
                }
                r
            },
        }
    } else {
        s.clone()
    }
}

impl Table {
    /// A table with left-aligned columns named by `headers` and no rows.
    pub fn new(headers: &[&str]) -> (r: Self)
        ensures
            r@.columns.len() == headers@.len(),
            forall|i: int|
                0 <= i < headers@.len() ==> #[trigger] r@.columns[i] == (ColumnView {
                    name: headers@[i]@,
                    align: Alignment::Left,
                }),
            r@.rows.len() == 0,
    {
        let mut columns: Vec<Column> = Vec::new();
        let mut i: usize = 0;
        while i < headers.len()
            invariant
                0 <= i <= headers@.len(),
                columns@.len() == i,
                forall|j: int|
                    0 <= j < i ==> #[trigger] columns@[j]@ == (ColumnView {
                        name: headers@[j]@,
                        align: Alignment::Left,
                    }),
            decreases headers@.len() - i,
        {
            columns.push(Column::new(headers[i]));
            i = i + 1;
        }
        Table { columns, rows: Vec::new() }
    }

    /// A table with the given columns and no rows.
    pub fn with_columns(columns: Vec<Column>) -> (r: Self)
        ensures
            r@.columns == columns_view(columns@),
            r@.rows.len() == 0,
    {
        Table { columns, rows: Vec::new() }
    }

    /// Appends a row of cells.
    pub fn add_row(&mut self, row: Vec<String>)
        ensures
            final(self)@.columns == old(self)@.columns,
            final(self)@.rows == old(self)@.rows.push(texts_view(row@)),
    {
        let ghost pre = self.rows@;
        self.rows.push(row);
        proof {
            assert(rows_view(self.rows@) =~= rows_view(pre).push(texts_view(self.rows@.last()@)));
        }
    }

    fn column_widths(&self) -> (r: Vec<usize>)
        ensures
            r@.len() == self@.columns.len(),
            forall|i: int| 0 <= i < r@.len() ==> r@[i] == column_width(self@, i),
    {
        let ghost t = self@;
        let mut widths: Vec<usize> = Vec::new();
        let mut i: usize = 0;
        while i < self.columns.len()
            invariant
                t == self@,
                0 <= i <= self.columns@.len(),
                widths@.len() == i,
                forall|j: int| 0 <= j < i ==> widths@[j] == column_width(t, j),
            decreases self.columns@.len() - i,
        {
            let mut w = byte_width(&self.columns[i].name);
            let mut k: usize = 0;
            while k < self.rows.len()
                invariant
                    t == self@,
                    0 <= i < self.columns@.len(),
                    0 <= k <= self.rows@.len(),
                    w == width_upto(t, i as int, k as int),
                decreases self.rows@.len() - k,
            {
                let row = &self.rows[k];
                proof {
                    assert(t.rows[k as int] == texts_view(row@));
                }
                if i < row.len() {
                    let cw = byte_width(&row[i]);
                    if cw > w {
                        w = cw;
                    }
                }
                k = k + 1;
            }
            widths.push(w);
            i = i + 1;
        }
        widths
    }

    fn render_row(&self, widths: &Vec<usize>, row: &Vec<String>) -> (r: String)
        requires
            widths@.len() == self@.columns.len(),
            forall|i: int| 0 <= i < widths@.len() ==> widths@[i] == column_width(self@, i),
        ensures
            r@ == row_line(self@, texts_view(row@)),
    {
        let ghost t = self@;
        let ghost rv = texts_view(row@);
        let mut parts: Vec<String> = Vec::new();
        let mut i: usize = 0;
        while i < row.len()
            invariant
                t == self@,
                rv == texts_view(row@),
                widths@.len() == t.columns.len(),
                forall|j: int| 0 <= j < widths@.len() ==> widths@[j] == column_width(t, j),
                0 <= i <= row@.len(),
                texts_view(parts@) == row_parts(t, rv).subrange(0, i as int),
            decreases row@.len() - i,
        {
            let cell = &row[i];
            let p = if i < self.columns.len() {
                pad(cell, widths[i], self.columns[i].align)
            } else {
                pad(cell, byte_width(cell), Alignment::Left)
            };
            let ghost pre = parts@;
            parts.push(p);
            proof {
                lemma_texts_push(pre, parts@.last());
                assert(rv[i as int] == cell@);
                if i < self.columns.len() {
                    assert(t.columns[i as int] == self.columns@[i as int]@);
                }
                assert(row_parts(t, rv).subrange(0, i + 1) =~= row_parts(t, rv).subrange(0, i as int).push(
                    row_parts(t, rv)[i as int],
                ));
            }
            i = i + 1;
        }
        proof {
            assert(row_parts(t, rv).subrange(0, row@.len() as int) =~= row_parts(t, rv));
            reveal_strlit("  ");
        }
        let mut line = join_strings(&parts, "  ");
        push_char(&mut line, '\n');
        line
    }

    /// The table as text.
    pub fn render(&self) -> (r: String)
        ensures
            r@ == table_text(self@),
    {
        let ghost t = self@;
        if self.columns.len() == 0 {
            return String::new();
        }
        let widths = self.column_widths();
        let mut header: Vec<String> = Vec::new();
        let mut divider: Vec<String> = Vec::new();
        let mut i: usize = 0;
        while i < self.columns.len()
            invariant
                t == self@,
                widths@.len() == t.columns.len(),
                forall|j: int| 0 <= j < widths@.len() ==> widths@[j] == column_width(t, j),
                0 <= i <= t.columns.len(),
                texts_view(header@) == header_parts(t).subrange(0, i as int),
                texts_view(divider@) == divider_parts(t).subrange(0, i as int),
            decreases t.columns.len() - i,
        {
            let h = pad(&self.columns[i].name, widths[i], self.columns[i].align);
            let ghost hpre = header@;
            header.push(h);
            let mut d = String::new();
            push_repeat(&mut d, '-', widths[i]);
            proof {
                assert(d@ =~= repeat_char('-', widths@[i as int] as nat));
            }
            let ghost dpre = divider@;
            divider.push(d);
            proof {
                lemma_texts_push(hpre, header@.last());
                lemma_texts_push(dpre, divider@.last());
                assert(t.columns[i as int] == self.columns@[i as int]@);
                assert(header_parts(t).subrange(0, i + 1) =~= header_parts(t).subrange(0, i as int).push(
                    header_parts(t)[i as int],
                ));
                assert(divider_parts(t).subrange(0, i + 1) =~= divider_parts(t).subrange(0, i as int).push(
                    divider_parts(t)[i as int],
                ));
            }
            i = i + 1;
        }
        proof {
            assert(header_parts(t).subrange(0, t.columns.len() as int) =~= header_parts(t));
            assert(divider_parts(t).subrange(0, t.columns.len() as int) =~= divider_parts(t));
            reveal_strlit("  ");
        }
        let mut out = join_strings(&header, "  ");
        push_char(&mut out, '\n');
        let div = join_strings(&divider, "  ");
        push_str(&mut out, div.as_str());
        push_char(&mut out, '\n');
        let ghost head = out@;
        let mut k: usize = 0;
        while k < self.rows.len()
            invariant
                t == self@,
                widths@.len() == t.columns.len(),
                forall|j: int| 0 <= j < widths@.len() ==> widths@[j] == column_width(t, j),
                0 <= k <= t.rows.len(),
                out@ == head + rows_text(t, k as int),
            decreases t.rows.len() - k,
        {
            let line = self.render_row(&widths, &self.rows[k]);
            proof {
                assert(t.rows[k as int] == texts_view(self.rows@[k as int]@));
            }
            push_str(&mut out, line.as_str());
            proof {
                assert(out@ =~= head + rows_text(t, k + 1));
            }
            k = k + 1;
        }
        proof {
            assert(out@ =~= table_text(t));
        }
        out
    }
}

/// A table of left-aligned columns as text: what the command line prints.
pub fn render_table(headers: &[&str], rows: &[Vec<String>]) -> (r: String)
    ensures
        ({
            let t = TableView {
                columns: Seq::new(
                    headers@.len(),
                    |i: int| ColumnView { name: headers@[i]@, align: Alignment::Left },
                ),
                rows: rows_view(rows@),
            };
            r@ == table_text(t)
        }),
{
    let mut table = Table::new(headers);
    let mut k: usize = 0;
    while k < rows.len()
        invariant
            0 <= k <= rows@.len(),
            table@.columns.len() == headers@.len(),
            forall|i: int|
                0 <= i < headers@.len() ==> #[trigger] table@.columns[i] == (ColumnView {
                    name: headers@[i]@,
                    align: Alignment::Left,
                }),
            table@.rows == rows_view(rows@).subrange(0, k as int),
        decreases rows@.len() - k,
    {
        let mut row: Vec<String> = Vec::new();
        let src = &rows[k];
        let mut j: usize = 0;
        while j < src.len()
            invariant
                0 <= j <= src@.len(),
                texts_view(row@) == texts_view(src@).subrange(0, j as int),
            decreases src@.len() - j,
        {
            let ghost pre = row@;
            row.push(src[j].clone());
            proof {
                lemma_texts_push(pre, row@.last());
                assert(texts_view(src@).subrange(0, j + 1) =~= texts_view(src@).subrange(0, j as int).push(
                    src@[j as int]@,
                ));
            }
            j = j + 1;
        }
        proof {
            assert(texts_view(src@).subrange(0, src@.len() as int) =~= texts_view(src@));
        }
        table.add_row(row);
        proof {
            assert(table@.rows =~= rows_view(rows@).subrange(0, k + 1));
        }
        k = k + 1;
    }
    proof {
        assert(rows_view(rows@).subrange(0, rows@.len() as int) =~= rows_view(rows@));
        let t = TableView {
            columns: Seq::new(
                headers@.len(),
                |i: int| ColumnView { name: headers@[i]@, align: Alignment::Left },
            ),
            rows: rows_view(rows@),
        };
        assert(table@.columns =~= t.columns);
        assert(table@ == t);
    }
    table.render()
}

// ---------------------------------------------------------------------
// Headers and key-value lists

/// A view header: a blank line, `▌ ` and the title, a blank line.
pub open spec fn view_header_text(title: Seq<char>) -> Seq<char> {
    "\n\u{258c} "@ + title + "\n\n"@
}

/// The text of a view header.
pub fn render_view_header(title: &str) -> (r: String)
    ensures
        r@ == view_header_text(title@),
{
    let mut r = String::from_str("\n\u{258c} ");
    push_str(&mut r, title);
    push_str(&mut r, "\n\n");
    r
}

/// A section header: a blank line, then the title between dashes.
pub open spec fn section_header_text(title: Seq<char>) -> Seq<char> {
    "\n--- "@ + title + " ---\n"@
}

/// The text of a section header.
pub fn render_section_header(title: &str) -> (r: String)
    ensures
        r@ == section_header_text(title@),
{
    let mut r = String::from_str("\n--- ");
    push_str(&mut r, title);
    push_str(&mut r, " ---\n");
    r
}

/// The widest key of the first `k` items, in bytes.
pub open spec fn key_width_upto(keys: Seq<Seq<char>>, k: int) -> nat
    decreases k,
{
    if k <= 0 {
        0
    } else {
        let w = key_width_upto(keys, k - 1);
        if cell_width(keys[k - 1]) > w {
            cell_width(keys[k - 1])
        } else {
            w
        }
    }
}

/// One line of a key-value list: the key and a colon, padded to one more
/// than the widest key, two spaces, then the value.
pub open spec fn key_value_line(key: Seq<char>, value: Seq<char>, width: nat) -> Seq<char> {
    pad_cell(key + seq![':'], width + 1, Alignment::Left) + "  "@ + value + seq!['\n']
}

pub open spec fn key_values_upto(keys: Seq<Seq<char>>, values: Seq<Seq<char>>, width: nat, k: int) -> Seq<char>
    decreases k,
{
    if k <= 0 {
        Seq::empty()
    } else {
        key_values_upto(keys, values, width, k - 1) + key_value_line(keys[k - 1], values[k - 1], width)
    }
}

pub open spec fn item_keys(items: Seq<(&str, String)>) -> Seq<Seq<char>> {
    items.map_values(|it: (&str, String)| it.0@)
}

pub open spec fn item_values(items: Seq<(&str, String)>) -> Seq<Seq<char>> {
    items.map_values(|it: (&str, String)| it.1@)
}

/// A key-value list with its keys aligned.
pub open spec fn key_values_text(items: Seq<(&str, String)>) -> Seq<char> {
    let keys = item_keys(items);
    key_values_upto(keys, item_values(items), key_width_upto(keys, keys.len() as int), keys.len() as int)
}

/// The text of a key-value list, one line per item.
pub fn render_key_values(items: &[(&str, String)]) -> (r: String)
    requires
        forall|i: int| 0 <= i < items@.len() ==> cell_width(#[trigger] items@[i].0@) < usize::MAX,
    ensures
        r@ == key_values_text(items@),
{
    let ghost keys = item_keys(items@);
    let ghost values = item_values(items@);
    let mut width: usize = 0;
    let mut i: usize = 0;
    while i < items.len()
        invariant
            keys == item_keys(items@),
            0 <= i <= items@.len(),
            width == key_width_upto(keys, i as int),
            width < usize::MAX,
            forall|j: int| 0 <= j < items@.len() ==> cell_width(#[trigger] items@[j].0@) < usize::MAX,
        decreases items@.len() - i,
    {
        let w = items[i].0.len();
        proof {
            assert(keys[i as int] == items@[i as int].0@);
            assert(cell_width(items@[i as int].0@) < usize::MAX);
        }
        if w > width {
            width = w;
        }
        i = i + 1;
    }
    let mut r = String::new();
    let mut k: usize = 0;
    while k < items.len()
        invariant
            keys == item_keys(items@),
            values == item_values(items@),
            width == key_width_upto(keys, keys.len() as int),
            width < usize::MAX,
            0 <= k <= items@.len(),
            r@ == key_values_upto(keys, values, width as nat, k as int),
        decreases items@.len() - k,
    {
        let mut key = String::from_str(items[k].0);
        push_char(&mut key, ':');
        let mut line = pad(&key, width + 1, Alignment::Left);
        push_str(&mut line, "  ");
        push_str(&mut line, items[k].1.as_str());
        push_char(&mut line, '\n');
        proof {
            assert(keys[k as int] == items@[k as int].0@);
            assert(values[k as int] == items@[k as int].1@);
            reveal_strlit("  ");
        }
        push_str(&mut r, line.as_str());
        proof {
            assert(r@ =~= key_values_upto(keys, values, width as nat, k + 1));
        }
        k = k + 1;
    }
    r
}

} // verus!
