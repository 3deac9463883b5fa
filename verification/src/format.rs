//! Output formats (LaTeX, HTML, RTF, CSV): cell escaping, star markers,
//! legends, and the generic `Table` with its four renderers.
use crate::helpers::{push_table_open, table_close, table_open, wrap_table_end};
use crate::text::{
    chars_of, decimal, join_seq, push_char, push_chars, push_decimal, push_joined, same_text,
    texts,
};
use vstd::prelude::*;
use vstd::string::*;

verus! {

broadcast use vstd::string::group_string_axioms;

/// Output format.
#[derive(Clone, Copy, PartialEq, Eq, Structural, Debug)]
pub enum Format {
    Latex,
    Html,
    Rtf,
    Csv,
}

/// `c` with ASCII upper-case letters mapped to lower case.
pub open spec fn ascii_lower(c: char) -> char {
    if 'A' <= c && c <= 'Z' {
        ((c as u32) + 32) as char
    } else {
        c
    }
}

/// `s` with ASCII upper-case letters mapped to lower case.
pub open spec fn lower_seq(s: Seq<char>) -> Seq<char> {
    s.map_values(|c: char| ascii_lower(c))
}

/// The format that a name selects: `html`, `rtf` and `csv` in any case
/// select their format; every other name selects LaTeX.
pub open spec fn format_named(s: Seq<char>) -> Format {
    let l = lower_seq(s);
    if l == "html"@ {
        Format::Html
    } else if l == "rtf"@ {
        Format::Rtf
    } else if l == "csv"@ {
        Format::Csv
    } else {
        Format::Latex
    }
}

/// How one character of a cell is written in a format.
pub open spec fn cell_char(fmt: Format, c: char) -> Seq<char> {
    match fmt {
        Format::Latex => if c == '&' || c == '%' || c == '_' || c == '#' {
            seq!['\\', c]
        } else {
            seq![c]
        },
        Format::Html => if c == '&' {
            seq!['&', 'a', 'm', 'p', ';']
        } else if c == '<' {
            seq!['&', 'l', 't', ';']
        } else if c == '>' {
            seq!['&', 'g', 't', ';']
        } else {
            seq![c]
        },
        Format::Rtf => if c == '\\' || c == '{' || c == '}' {
            seq!['\\', c]
        } else {
            seq![c]
        },
        Format::Csv => if c == '"' {
            seq!['"', '"']
        } else {
            seq![c]
        },
    }
}

/// `s` escaped for a cell in format `fmt`, character by character.
pub open spec fn escape_cell(fmt: Format, s: Seq<char>) -> Seq<char>
    decreases s.len(),
{
    if s.len() == 0 {
        Seq::empty()
    } else {
        escape_cell(fmt, s.drop_last()) + cell_char(fmt, s.last())
    }
}

/// Escaping distributes over concatenation.
pub proof fn lemma_escape_concat(fmt: Format, a: Seq<char>, b: Seq<char>)
    ensures
        escape_cell(fmt, a + b) == escape_cell(fmt, a) + escape_cell(fmt, b),
    decreases b.len(),
{
    if b.len() == 0 {
        assert(a + b == a);
    } else {
        lemma_escape_concat(fmt, a, b.drop_last());
        assert((a + b).drop_last() == a + b.drop_last());
    }
}

fn push_cell_char(out: &mut String, fmt: Format, c: char)
    ensures
        final(out)@ == old(out)@ + cell_char(fmt, c),
{
    match fmt {
        Format::Latex => {
            if c == '&' || c == '%' || c == '_' || c == '#' {
                push_char(out, '\\');
            }
            push_char(out, c);
        },
        Format::Html => {
            if c == '&' {
                push_char(out, '&');
                push_char(out, 'a');
                push_char(out, 'm');
                push_char(out, 'p');
                push_char(out, ';');
            } else if c == '<' {
                push_char(out, '&');
                push_char(out, 'l');
                push_char(out, 't');
                push_char(out, ';');
            } else if c == '>' {
                push_char(out, '&');
                push_char(out, 'g');
                push_char(out, 't');
                push_char(out, ';');
            } else {
                push_char(out, c);
            }
        },
        Format::Rtf => {
            if c == '\\' || c == '{' || c == '}' {
                push_char(out, '\\');
            }
            push_char(out, c);
        },
        Format::Csv => {
            if c == '"' {
                push_char(out, '"');
            }
            push_char(out, c);
        },
    }
    proof {
        assert(old(out)@.push(c) == old(out)@ + seq![c]);
    }
}

/// Appends `v[lo..hi]`, escaped for `fmt`, to `out`.
pub(crate) fn push_escaped_range(out: &mut String, fmt: Format, v: &Vec<char>, lo: usize, hi: usize)
    requires
        lo <= hi <= v@.len(),
    ensures
        final(out)@ == old(out)@ + escape_cell(fmt, v@.subrange(lo as int, hi as int)),
{
    let mut i = lo;
    while i < hi
        invariant
            lo <= i <= hi <= v@.len(),
            out@ == old(out)@ + escape_cell(fmt, v@.subrange(lo as int, i as int)),
        decreases hi - i,
    {
        proof {
            assert(v@.subrange(lo as int, i + 1).drop_last() == v@.subrange(lo as int, i as int));
        }
        push_cell_char(out, fmt, v[i]);
        i += 1;
    }
}

/// Appends `s`, escaped for `fmt`, to `out`.
pub(crate) fn push_escaped(out: &mut String, fmt: Format, s: &str)
    ensures
        final(out)@ == old(out)@ + escape_cell(fmt, s@),
{
    let v = chars_of(s);
    push_escaped_range(out, fmt, &v, 0, v.len());
    proof {
        assert(v@.subrange(0, v@.len() as int) == s@);
    }
}

/// The opening marker of a superscript in HTML.
pub open spec fn sup_open() -> Seq<char> {
    seq!['<', 's', 'u', 'p', '>']
}

/// The closing marker of a superscript in HTML.
pub open spec fn sup_close() -> Seq<char> {
    seq!['<', '/', 's', 'u', 'p', '>']
}

/// The first position at or after `from` where `p` occurs in `s`.
pub open spec fn find_seq(s: Seq<char>, p: Seq<char>, from: int) -> Option<int>
    decreases s.len() + 1 - from,
{
    if from < 0 || from + p.len() > s.len() {
        None
    } else if s.subrange(from, from + p.len()) == p {
        Some(from)
    } else {
        find_seq(s, p, from + 1)
    }
}

pub proof fn lemma_find_seq(s: Seq<char>, p: Seq<char>, from: int)
    ensures
        find_seq(s, p, from) matches Some(i) ==> {
            &&& from <= i
            &&& i + p.len() <= s.len()
            &&& s.subrange(i, i + p.len()) == p
            &&& forall|j: int| from <= j < i ==> #[trigger] s.subrange(j, j + p.len()) != p
        },
        find_seq(s, p, from) is None && 0 <= from ==> forall|j: int|
            from <= j && j + p.len() <= s.len() ==> #[trigger] s.subrange(j, j + p.len()) != p,
    decreases s.len() + 1 - from,
{
    if from < 0 || from + p.len() > s.len() {
    } else if s.subrange(from, from + p.len()) == p {
    } else {
        lemma_find_seq(s, p, from + 1);
    }
}

/// HTML escaping of `s[pos..]` that copies each `<sup>`…`</sup>` span unchanged.
pub open spec fn html_cell_from(s: Seq<char>, pos: int) -> Seq<char>
    decreases s.len() - pos,
{
    if pos < 0 || pos > s.len() {
        Seq::empty()
    } else {
        match find_seq(s, sup_open(), pos) {
            None => escape_cell(Format::Html, s.subrange(pos, s.len() as int)),
            Some(a) => match find_seq(s, sup_close(), a) {
                None => escape_cell(Format::Html, s.subrange(pos, a)) + escape_cell(
                    Format::Html,
                    s.subrange(a, s.len() as int),
                ),
                Some(b) => {
                    proof {
                        lemma_find_seq(s, sup_open(), pos);
                        lemma_find_seq(s, sup_close(), a);
                    }
                    escape_cell(Format::Html, s.subrange(pos, a)) + s.subrange(a, b + 6)
                        + html_cell_from(s, b + 6)
                },
            },
        }
    }
}

/// HTML escaping of a whole cell that keeps star superscripts.
pub open spec fn html_cell(s: Seq<char>) -> Seq<char> {
    html_cell_from(s, 0)
}

/// The first position at or after `from` where `p` occurs in `v`.
fn find_chars(v: &Vec<char>, p: &Vec<char>, from: usize) -> (res: Option<usize>)
    requires
        from <= v@.len(),
    ensures
        res matches Some(i) ==> find_seq(v@, p@, from as int) == Some(i as int),
        res is None ==> find_seq(v@, p@, from as int) is None,
{
    let mut i = from;
    while i <= v.len() && p.len() <= v.len() - i
        invariant
            from <= i,
            find_seq(v@, p@, from as int) == find_seq(v@, p@, i as int),
        decreases v@.len() - i,
    {
        let mut k: usize = 0;
        let mut same = true;
        while k < p.len()
            invariant
                i + p@.len() <= v@.len(),
                v@.len() <= usize::MAX,
                k <= p@.len(),
                same == (forall|j: int| 0 <= j < k ==> v@[i + j] == p@[j]),
            decreases p@.len() - k,
        {
            if v[i + k] != p[k] {
                same = false;
            }
            k += 1;
        }
        if same {
            proof {
                assert(v@.subrange(i as int, i + p@.len()) =~= p@);
            }
            return Some(i);
        }
        proof {
            if v@.subrange(i as int, i + p@.len()) == p@ {
                assert(forall|j: int| 0 <= j < p@.len() ==> v@[i + j] == #[trigger] p@[j]) by {
                    assert forall|j: int| 0 <= j < p@.len() implies v@[i + j] == #[trigger] p@[j] by {
                        assert(v@.subrange(i as int, i + p@.len())[j] == v@[i + j]);
                    }
                }
            }
        }
        i += 1;
    }
    None
}

impl Format {
    /// The format named by `s`, compared without regard to ASCII case;
    /// names other than `html`, `rtf` and `csv` give LaTeX.
    pub fn from_str(s: &str) -> (res: Format)
        ensures
            res == format_named(s@),
    {
        let v = chars_of(s);
        let mut lowered = String::new();
        let mut i: usize = 0;
        while i < v.len()
            invariant
                v@ == s@,
                i <= v@.len(),
                lowered@ == lower_seq(v@.take(i as int)),
            decreases v@.len() - i,
        {
            let c = v[i];
            let l = if 'A' <= c && c <= 'Z' {
                ((c as u8) + 32) as char
            } else {
                c
            };
            proof {
                assert(lower_seq(v@.take(i + 1)) == lower_seq(v@.take(i as int)).push(l));
            }
            push_char(&mut lowered, l);
            i += 1;
        }
        proof {
            assert(v@.take(v@.len() as int) == v@);
        }
        if same_text(lowered.as_str(), "html") {
            Format::Html
        } else if same_text(lowered.as_str(), "rtf") {
            Format::Rtf
        } else if same_text(lowered.as_str(), "csv") {
            Format::Csv
        } else {
            Format::Latex
        }
    }
}


/// The star marker written after a coefficient: nothing when `show` is off,
/// the stars wrapped in a superscript for HTML (when there are any),
/// the stars unchanged otherwise.
pub open spec fn star_mark(fmt: Format, stars: Seq<char>, show: bool) -> Seq<char> {
    if !show {
        Seq::empty()
    } else {
        match fmt {
            Format::Html => if stars.len() == 0 {
                Seq::empty()
            } else {
                sup_open() + stars + sup_close()
            },
            _ => stars,
        }
    }
}

/// The note that explains the star levels, in each format.
pub open spec fn legend_text(fmt: Format) -> Seq<char> {
    match fmt {
        Format::Latex => "\\par\\vspace{2pt}\n\\footnotesize \\*** p<0.01, ** p<0.05, * p<0.1\n"@,
        Format::Html => "<p style=\"font-size:0.8em\">*** p&lt;0.01, ** p&lt;0.05, * p&lt;0.1</p>\n"@,
        Format::Rtf => "\\par *** p<0.01, ** p<0.05, * p<0.1\\par\n"@,
        Format::Csv => "*** p<0.01, ** p<0.05, * p<0.1\n"@,
    }
}

/// The legend as one line: its text without the closing newline (all that
/// trimming removes, since no legend starts with white space).
pub open spec fn legend_line(fmt: Format) -> Seq<char> {
    match fmt {
        Format::Latex => "\\par\\vspace{2pt}\n\\footnotesize \\*** p<0.01, ** p<0.05, * p<0.1"@,
        Format::Html => "<p style=\"font-size:0.8em\">*** p&lt;0.01, ** p&lt;0.05, * p&lt;0.1</p>"@,
        Format::Rtf => "\\par *** p<0.01, ** p<0.05, * p<0.1\\par"@,
        Format::Csv => "*** p<0.01, ** p<0.05, * p<0.1"@,
    }
}

fn push_sup_open(out: &mut String)
    ensures
        final(out)@ == old(out)@ + sup_open(),
{
    push_char(out, '<');
    push_char(out, 's');
    push_char(out, 'u');
    push_char(out, 'p');
    push_char(out, '>');
}

fn push_sup_close(out: &mut String)
    ensures
        final(out)@ == old(out)@ + sup_close(),
{
    push_char(out, '<');
    push_char(out, '/');
    push_char(out, 's');
    push_char(out, 'u');
    push_char(out, 'p');
    push_char(out, '>');
}

impl Format {
    /// Escape a cell value for this format.
    pub fn esc_cell(&self, s: &str) -> (res: String)
        ensures
            res@ == escape_cell(*self, s@),
    {
        let mut out = String::new();
        push_escaped(&mut out, *self, s);
        out
    }

    /// Escape a cell for HTML, copying each `<sup>`…`</sup>` span (the star
    /// markers) unchanged; an unclosed `<sup>` is escaped like the rest. The
    /// result is the same whichever format this is called on.
    pub fn esc_cell_html(&self, s: &str) -> (res: String)
        ensures
            res@ == html_cell(s@),
    {
        let v = chars_of(s);
        let open = vec!['<', 's', 'u', 'p', '>'];
        let close = vec!['<', '/', 's', 'u', 'p', '>'];
        proof {
            assert(open@ == sup_open());
            assert(close@ == sup_close());
        }
        let mut out = String::new();
        let mut pos: usize = 0;
        let vlen = v.len();
        loop
            invariant
                vlen == v@.len(),
                v@ == s@,
                open@ == sup_open(),
                close@ == sup_close(),
                pos <= v@.len(),
                html_cell(s@) == out@ + html_cell_from(v@, pos as int),
            decreases v@.len() - pos,
        {
            match find_chars(&v, &open, pos) {
                None => {
                    push_escaped_range(&mut out, Format::Html, &v, pos, v.len());
                    return out;
                },
                Some(a) => {
                    proof {
                        lemma_find_seq(v@, sup_open(), pos as int);
                    }
                    match find_chars(&v, &close, a) {
                        None => {
                            push_escaped_range(&mut out, Format::Html, &v, pos, a);
                            push_escaped_range(&mut out, Format::Html, &v, a, v.len());
                            return out;
                        },
                        Some(b) => {
                            proof {
                                lemma_find_seq(v@, sup_close(), a as int);
                                assert(sup_close().len() == 6);
                                assert(b + 6 <= v@.len());
                            }
                            push_escaped_range(&mut out, Format::Html, &v, pos, a);
                            push_chars(&mut out, &v, a, b + 6);
                            pos = b + 6;
                        },
                    }
                },
            }
        }
    }

    /// The star marker for this format; `stars` is the star text of a
    /// p-value (`***`, `**`, `*` or empty).
    pub fn fmt_stars(&self, stars: &str, show: bool) -> (res: String)
        ensures
            res@ == star_mark(*self, stars@, show),
    {
        let mut out = String::new();
        if !show {
            return out;
        }
        match self {
            Format::Html => {
                if stars.unicode_len() == 0 {
                    return out;
                }
                push_sup_open(&mut out);
                out.append(stars);
                push_sup_close(&mut out);
                out
            },
            _ => {
                out.append(stars);
                out
            },
        }
    }

    /// Star legend footer for this format.
    pub fn star_legend(&self) -> (res: String)
        ensures
            res@ == legend_text(*self),
    {
        let mut out = String::new();
        match self {
            Format::Latex => out.append(
                "\\par\\vspace{2pt}\n\\footnotesize \\*** p<0.01, ** p<0.05, * p<0.1\n",
            ),
            Format::Html => out.append(
                "<p style=\"font-size:0.8em\">*** p&lt;0.01, ** p&lt;0.05, * p&lt;0.1</p>\n",
            ),
            Format::Rtf => out.append("\\par *** p<0.01, ** p<0.05, * p<0.1\\par\n"),
            Format::Csv => out.append("*** p<0.01, ** p<0.05, * p<0.1\n"),
        }
        out
    }
}


/// Generic table structure that all renderers consume.
pub struct Table {
    /// Column alignment: 'l', 'c', 'r' for each column.
    pub align: Vec<char>,
    /// Header rows (each is a Vec of cells).
    pub headers: Vec<Vec<String>>,
    /// Body rows (each is a Vec of cells).
    pub body: Vec<Vec<String>>,
    /// Footer rows (e.g. fit statistics), separated from body by a midrule.
    pub footer: Vec<Vec<String>>,
    /// Optional caption/title.
    pub caption: String,
    /// Optional label (LaTeX only).
    pub label: String,
    /// Whether to show star legend after the table.
    pub show_stars: bool,
}

/// The cell texts of each row.
pub open spec fn row_texts(rows: Seq<Vec<String>>) -> Seq<Seq<Seq<char>>> {
    rows.map_values(|r: Vec<String>| texts(r@))
}

/// A LaTeX tabular line: the cells joined by ` & `, then ` \\` and a newline.
pub open spec fn tex_line(cells: Seq<Seq<char>>) -> Seq<char> {
    join_seq(cells, " & "@) + " \\\\\n"@
}

pub open spec fn tex_lines(rows: Seq<Seq<Seq<char>>>) -> Seq<char>
    decreases rows.len(),
{
    if rows.len() == 0 {
        Seq::empty()
    } else {
        tex_lines(rows.drop_last()) + tex_line(rows.last())
    }
}

/// HTML cells, each escaped (keeping star superscripts) inside the given tags.
pub open spec fn html_cells(cells: Seq<Seq<char>>, open: Seq<char>, close: Seq<char>) -> Seq<char>
    decreases cells.len(),
{
    if cells.len() == 0 {
        Seq::empty()
    } else {
        html_cells(cells.drop_last(), open, close) + open + html_cell(cells.last()) + close
    }
}

pub open spec fn html_lines(rows: Seq<Seq<Seq<char>>>, open: Seq<char>, close: Seq<char>) -> Seq<char>
    decreases rows.len(),
{
    if rows.len() == 0 {
        Seq::empty()
    } else {
        html_lines(rows.drop_last(), open, close) + "<tr>"@ + html_cells(rows.last(), open, close)
            + "</tr>\n"@
    }
}

pub open spec fn rtf_cells(fmt: Format, cells: Seq<Seq<char>>) -> Seq<char>
    decreases cells.len(),
{
    if cells.len() == 0 {
        Seq::empty()
    } else {
        rtf_cells(fmt, cells.drop_last()) + "\\intbl "@ + escape_cell(fmt, cells.last())
            + " \\cell"@
    }
}

pub open spec fn rtf_lines(fmt: Format, rows: Seq<Seq<Seq<char>>>, row_def: Seq<char>) -> Seq<
    char,
>
    decreases rows.len(),
{
    if rows.len() == 0 {
        Seq::empty()
    } else {
        rtf_lines(fmt, rows.drop_last(), row_def) + "\\trowd "@ + row_def + " "@ + rtf_cells(
            fmt,
            rows.last(),
        )
            + "\\row\n"@
    }
}

/// The cell widths of an RTF row: `\cellx w`, `\cellx 2w`, … for the
/// `n` columns, where `w` is 9000 divided by `n`, separated by spaces.
pub open spec fn rtf_row_def(n: nat) -> Seq<char> {
    join_seq(
        Seq::new(n, |i: int| "\\cellx "@ + decimal(((9000int / (n as int)) * (i + 1)) as nat)),
        " "@,
    )
}

/// A CSV cell: escaped and quoted.
pub open spec fn csv_cell(fmt: Format, c: Seq<char>) -> Seq<char> {
    "\""@ + escape_cell(fmt, c) + "\""@
}

pub open spec fn csv_lines(fmt: Format, rows: Seq<Seq<Seq<char>>>) -> Seq<char>
    decreases rows.len(),
{
    if rows.len() == 0 {
        Seq::empty()
    } else {
        csv_lines(fmt, rows.drop_last()) + join_seq(
            rows.last().map_values(|c: Seq<char>| csv_cell(fmt, c)),
            ","@,
        )
            + "\n"@
    }
}

/// `s` when `b` holds, nothing otherwise.
pub open spec fn shown_if(b: bool, s: Seq<char>) -> Seq<char> {
    if b {
        s
    } else {
        Seq::empty()
    }
}

/// What a table holds, as text: the alignment characters, the cell texts of
/// each header, body and footer row, the caption, the label and the star flag.
pub struct TableView {
    pub align: Seq<char>,
    pub headers: Seq<Seq<Seq<char>>>,
    pub body: Seq<Seq<Seq<char>>>,
    pub footer: Seq<Seq<Seq<char>>>,
    pub caption: Seq<char>,
    pub label: Seq<char>,
    pub show_stars: bool,
}

impl View for Table {
    type V = TableView;

    open spec fn view(&self) -> TableView {
        TableView {
            align: self.align@,
            headers: row_texts(self.headers@),
            body: row_texts(self.body@),
            footer: row_texts(self.footer@),
            caption: self.caption@,
            label: self.label@,
            show_stars: self.show_stars,
        }
    }
}

impl TableView {
    /// The LaTeX rendering, with the legend of `fmt`.
    pub open spec fn latex_text(self, fmt: Format) -> Seq<char> {
        table_open(self.caption, self.label) + "\\begin{tabular}{"@ + self.align + "}\n\\toprule\n"@
            + tex_lines(self.headers) + shown_if(self.headers.len() > 0, "\\midrule\n"@) + tex_lines(
            self.body,
        ) + shown_if(self.footer.len() > 0, "\\midrule\n"@ + tex_lines(self.footer))
            + "\\bottomrule\n\\end{tabular}\n"@ + table_close(self.caption) + shown_if(
            self.show_stars,
            legend_text(fmt),
        )
    }

    /// The HTML rendering, with the caption escaped and the legend written
    /// for `fmt` (cells are always escaped for HTML).
    pub open spec fn html_text(self, fmt: Format) -> Seq<char> {
        "<table>\n"@ + shown_if(
            self.caption.len() > 0,
            "<caption>"@ + escape_cell(fmt, self.caption) + "</caption>\n"@,
        ) + shown_if(
            self.headers.len() > 0,
            "<thead>\n"@ + html_lines(self.headers, "<th>"@, "</th>"@) + "</thead>\n"@,
        ) + "<tbody>\n"@ + html_lines(self.body, "<td>"@, "</td>"@) + shown_if(
            self.footer.len() > 0,
            "</tbody>\n<tbody>\n"@ + html_lines(self.footer, "<td>"@, "</td>"@),
        ) + "</tbody>\n</table>\n"@ + shown_if(self.show_stars, legend_text(fmt))
    }

    /// The RTF rendering: every row, header, body and footer alike, in one
    /// grid with equal column widths; caption and cells escaped for `fmt`.
    pub open spec fn rtf_text(self, fmt: Format) -> Seq<char> {
        let def = rtf_row_def(self.align.len());
        "{\\rtf1\\ansi\n"@ + shown_if(
            self.caption.len() > 0,
            "\\par\\b "@ + escape_cell(fmt, self.caption) + "\\b0\\par\n"@,
        ) + rtf_lines(fmt, self.headers, def) + rtf_lines(fmt, self.body, def) + rtf_lines(
            fmt,
            self.footer,
            def,
        ) + "}\n"@ + shown_if(self.show_stars, legend_text(fmt))
    }

    /// The CSV rendering: every row as quoted cells escaped for `fmt`, then
    /// the legend of `fmt` as a quoted line of its own.
    pub open spec fn csv_text(self, fmt: Format) -> Seq<char> {
        csv_lines(fmt, self.headers) + csv_lines(fmt, self.body) + csv_lines(fmt, self.footer)
            + shown_if(self.show_stars, "\""@ + legend_line(fmt) + "\"\n"@)
    }

    /// The rendering in a format.
    pub open spec fn rendered(self, fmt: Format) -> Seq<char> {
        match fmt {
            Format::Latex => self.latex_text(fmt),
            Format::Html => self.html_text(fmt),
            Format::Rtf => self.rtf_text(fmt),
            Format::Csv => self.csv_text(fmt),
        }
    }
}

/// Appends one LaTeX tabular line.
pub(crate) fn push_tex_line(out: &mut String, cells: &[String])
    ensures
        final(out)@ == old(out)@ + tex_line(texts(cells@)),
{
    push_joined(out, cells, " & ");
    out.append(" \\\\\n");
}

fn push_tex_lines(out: &mut String, rows: &Vec<Vec<String>>)
    ensures
        final(out)@ == old(out)@ + tex_lines(row_texts(rows@)),
{
    let n = rows.len();
    let mut i: usize = 0;
    while i < n
        invariant
            n == rows@.len(),
            i <= n,
            out@ == old(out)@ + tex_lines(row_texts(rows@.take(i as int))),
        decreases n - i,
    {
        proof {
            assert(row_texts(rows@.take(i + 1)).drop_last() == row_texts(rows@.take(i as int)));
        }
        push_joined(out, rows[i].as_slice(), " & ");
        out.append(" \\\\\n");
        i += 1;
    }
    proof {
        assert(rows@.take(n as int) == rows@);
    }
}

fn push_html_cells(out: &mut String, cells: &Vec<String>, open: &str, close: &str)
    ensures
        final(out)@ == old(out)@ + html_cells(texts(cells@), open@, close@),
{
    let n = cells.len();
    let mut i: usize = 0;
    while i < n
        invariant
            n == cells@.len(),
            i <= n,
            out@ == old(out)@ + html_cells(texts(cells@.take(i as int)), open@, close@),
        decreases n - i,
    {
        proof {
            assert(texts(cells@.take(i + 1)).drop_last() == texts(cells@.take(i as int)));
        }
        out.append(open);
        let e = Format::Html.esc_cell_html(cells[i].as_str());
        out.append(e.as_str());
        out.append(close);
        i += 1;
    }
    proof {
        assert(cells@.take(n as int) == cells@);
    }
}

fn push_html_lines(out: &mut String, rows: &Vec<Vec<String>>, open: &str, close: &str)
    ensures
        final(out)@ == old(out)@ + html_lines(row_texts(rows@), open@, close@),
{
    let n = rows.len();
    let mut i: usize = 0;
    while i < n
        invariant
            n == rows@.len(),
            i <= n,
            out@ == old(out)@ + html_lines(row_texts(rows@.take(i as int)), open@, close@),
        decreases n - i,
    {
        proof {
            assert(row_texts(rows@.take(i + 1)).drop_last() == row_texts(rows@.take(i as int)));
        }
        out.append("<tr>");
        push_html_cells(out, &rows[i], open, close);
        out.append("</tr>\n");
        i += 1;
    }
    proof {
        assert(rows@.take(n as int) == rows@);
    }
}

fn push_rtf_lines(out: &mut String, fmt: Format, rows: &Vec<Vec<String>>, row_def: &str)
    ensures
        final(out)@ == old(out)@ + rtf_lines(fmt, row_texts(rows@), row_def@),
{
    let n = rows.len();
    let mut i: usize = 0;
    while i < n
        invariant
            n == rows@.len(),
            i <= n,
            out@ == old(out)@ + rtf_lines(fmt, row_texts(rows@.take(i as int)), row_def@),
        decreases n - i,
    {
        proof {
            assert(row_texts(rows@.take(i + 1)).drop_last() == row_texts(rows@.take(i as int)));
        }
        out.append("\\trowd ");
        out.append(row_def);
        out.append(" ");
        let row = &rows[i];
        let m = row.len();
        let mut k: usize = 0;
        let ghost before = out@;
        while k < m
            invariant
                m == row@.len(),
                k <= m,
                out@ == before + rtf_cells(fmt, texts(row@.take(k as int))),
            decreases m - k,
        {
            proof {
                assert(texts(row@.take(k + 1)).drop_last() == texts(row@.take(k as int)));
            }
            out.append("\\intbl ");
            push_escaped(out, fmt, row[k].as_str());
            out.append(" \\cell");
            k += 1;
        }
        proof {
            assert(row@.take(m as int) == row@);
        }
        out.append("\\row\n");
        i += 1;
    }
    proof {
        assert(rows@.take(n as int) == rows@);
    }
}

fn push_csv_lines(out: &mut String, fmt: Format, rows: &Vec<Vec<String>>)
    ensures
        final(out)@ == old(out)@ + csv_lines(fmt, row_texts(rows@)),
{
    let n = rows.len();
    let mut i: usize = 0;
    while i < n
        invariant
            n == rows@.len(),
            i <= n,
            out@ == old(out)@ + csv_lines(fmt, row_texts(rows@.take(i as int))),
        decreases n - i,
    {
        proof {
            assert(row_texts(rows@.take(i + 1)).drop_last() == row_texts(rows@.take(i as int)));
        }
        let row = &rows[i];
        let m = row.len();
        let mut cells: Vec<String> = Vec::new();
        let mut k: usize = 0;
        while k < m
            invariant
                m == row@.len(),
                k <= m,
                cells@.len() == k,
                forall|j: int| 0 <= j < k ==> #[trigger] cells@[j]@ == csv_cell(fmt, row@[j]@),
            decreases m - k,
        {
            let mut c = String::new();
            c.append("\"");
            push_escaped(&mut c, fmt, row[k].as_str());
            c.append("\"");
            cells.push(c);
            k += 1;
        }
        proof {
            assert(texts(cells@) == texts(row@).map_values(|c: Seq<char>| csv_cell(fmt, c)));
        }
        push_joined(out, cells.as_slice(), ",");
        out.append("\n");
        i += 1;
    }
    proof {
        assert(rows@.take(n as int) == rows@);
    }
}

impl Table {
    /// A table with `ncols` columns aligned `default_align`, and nothing else.
    pub fn new(ncols: usize, default_align: char) -> (res: Table)
        ensures
            res.align@ == Seq::new(ncols as nat, |i: int| default_align),
            res.headers@.len() == 0,
            res.body@.len() == 0,
            res.footer@.len() == 0,
            res.caption@.len() == 0,
            res.label@.len() == 0,
            !res.show_stars,
    {
        let mut align: Vec<char> = Vec::new();
        let mut i: usize = 0;
        while i < ncols
            invariant
                i <= ncols,
                align@ == Seq::new(i as nat, |j: int| default_align),
            decreases ncols - i,
        {
            align.push(default_align);
            i += 1;
        }
        Table {
            align,
            headers: Vec::new(),
            body: Vec::new(),
            footer: Vec::new(),
            caption: String::new(),
            label: String::new(),
            show_stars: false,
        }
    }

    /// Render the table in the given format. RTF divides the page width among
    /// the columns, so it needs at least one column.
    pub fn render(&self, fmt: Format) -> (res: String)
        requires
            fmt == Format::Rtf ==> 0 < self.align@.len() <= i32::MAX,
        ensures
            res@ == self@.rendered(fmt),
    {
        match fmt {
            Format::Latex => self.render_latex(fmt),
            Format::Html => self.render_html(fmt),
            Format::Rtf => self.render_rtf(fmt),
            Format::Csv => self.render_csv(fmt),
        }
    }

    fn render_latex(&self, fmt: Format) -> (res: String)
        ensures
            res@ == self@.latex_text(fmt),
    {
        let mut s = String::new();
        push_table_open(&mut s, self.caption.as_str(), self.label.as_str());
        s.append("\\begin{tabular}{");
        push_chars(&mut s, &self.align, 0, self.align.len());
        proof {
            assert(self.align@.subrange(0, self.align@.len() as int) == self.align@);
        }
        s.append("}\n\\toprule\n");
        push_tex_lines(&mut s, &self.headers);
        if self.headers.len() != 0 {
            s.append("\\midrule\n");
        }
        push_tex_lines(&mut s, &self.body);
        if self.footer.len() != 0 {
            s.append("\\midrule\n");
            push_tex_lines(&mut s, &self.footer);
        }
        s.append("\\bottomrule\n\\end{tabular}\n");
        s.append(wrap_table_end(self.caption.as_str()));
        if self.show_stars {
            let l = fmt.star_legend();
            s.append(l.as_str());
        }
        s
    }

    fn render_html(&self, fmt: Format) -> (res: String)
        ensures
            res@ == self@.html_text(fmt),
    {
        let ghost v = self@;
        let mut s = String::new();
        s.append("<table>\n");
        if self.caption.as_str().unicode_len() != 0 {
            s.append("<caption>");
            push_escaped(&mut s, fmt, self.caption.as_str());
            s.append("</caption>\n");
        }
        let ghost a = s@;
        assert(a == "<table>\n"@ + shown_if(
            v.caption.len() > 0,
            "<caption>"@ + escape_cell(fmt, v.caption) + "</caption>\n"@,
        ));
        if self.headers.len() != 0 {
            s.append("<thead>\n");
            push_html_lines(&mut s, &self.headers, "<th>", "</th>");
            s.append("</thead>\n");
        }
        let ghost b = s@;
        assert(b == a + shown_if(
            v.headers.len() > 0,
            "<thead>\n"@ + html_lines(v.headers, "<th>"@, "</th>"@) + "</thead>\n"@,
        ));
        s.append("<tbody>\n");
        push_html_lines(&mut s, &self.body, "<td>", "</td>");
        if self.footer.len() != 0 {
            s.append("</tbody>\n<tbody>\n");
            push_html_lines(&mut s, &self.footer, "<td>", "</td>");
        }
        let ghost c = s@;
        assert(c == b + "<tbody>\n"@ + html_lines(v.body, "<td>"@, "</td>"@) + shown_if(
            v.footer.len() > 0,
            "</tbody>\n<tbody>\n"@ + html_lines(v.footer, "<td>"@, "</td>"@),
        ));
        s.append("</tbody>\n</table>\n");
        if self.show_stars {
            let l = fmt.star_legend();
            s.append(l.as_str());
        }
        s
    }

    fn render_rtf(&self, fmt: Format) -> (res: String)
        requires
            0 < self.align@.len() <= i32::MAX,
        ensures
            res@ == self@.rtf_text(fmt),
    {
        let mut s = String::new();
        s.append("{\\rtf1\\ansi\n");
        if self.caption.as_str().unicode_len() != 0 {
            s.append("\\par\\b ");
            push_escaped(&mut s, fmt, self.caption.as_str());
            s.append("\\b0\\par\n");
        }
        let ncols = self.align.len();
        let col_w: u64 = 9000 / (ncols as u64);
        let mut defs: Vec<String> = Vec::new();
        let mut i: usize = 0;
        while i < ncols
            invariant
                ncols == self.align@.len(),
                0 < ncols <= i32::MAX,
                col_w == 9000int / (ncols as int),
                i <= ncols,
                defs@.len() == i,
                forall|j: int|
                    0 <= j < i ==> #[trigger] defs@[j]@ == "\\cellx "@ + decimal(
                        ((9000int / (ncols as int)) * (j + 1)) as nat,
                    ),
            decreases ncols - i,
        {
            assert(col_w * (i as u64 + 1) <= 9000) by (nonlinear_arith)
                requires
                    col_w == 9000int / (ncols as int),
                    i < ncols,
                    0 < ncols,
            ;
            let mut d = String::new();
            d.append("\\cellx ");
            push_decimal(&mut d, col_w * (i as u64 + 1));
            defs.push(d);
            i += 1;
        }
        let row_def = crate::helpers::join(defs.as_slice(), " ");
        proof {
            assert(texts(defs@) == Seq::new(
                ncols as nat,
                |j: int| "\\cellx "@ + decimal(((9000int / (ncols as int)) * (j + 1)) as nat),
            ));
        }
        push_rtf_lines(&mut s, fmt, &self.headers, row_def.as_str());
        push_rtf_lines(&mut s, fmt, &self.body, row_def.as_str());
        push_rtf_lines(&mut s, fmt, &self.footer, row_def.as_str());
        s.append("}\n");
        if self.show_stars {
            let l = fmt.star_legend();
            s.append(l.as_str());
        }
        s
    }

    fn render_csv(&self, fmt: Format) -> (res: String)
        ensures
            res@ == self@.csv_text(fmt),
    {
        let mut s = String::new();
        push_csv_lines(&mut s, fmt, &self.headers);
        push_csv_lines(&mut s, fmt, &self.body);
        push_csv_lines(&mut s, fmt, &self.footer);
        if self.show_stars {
            s.append("\"");
            let line = match fmt {
                Format::Latex => "\\par\\vspace{2pt}\n\\footnotesize \\*** p<0.01, ** p<0.05, * p<0.1",
                Format::Html => "<p style=\"font-size:0.8em\">*** p&lt;0.01, ** p&lt;0.05, * p&lt;0.1</p>",
                Format::Rtf => "\\par *** p<0.01, ** p<0.05, * p<0.1\\par",
                Format::Csv => "*** p<0.01, ** p<0.05, * p<0.1",
            };
            s.append(line);
            s.append("\"\n");
        }
        s
    }
}


/// The name of a format, as `Format::from_str` reads it.
pub open spec fn format_name_text(fmt: Format) -> Seq<char> {
    match fmt {
        Format::Latex => "latex"@,
        Format::Html => "html"@,
        Format::Rtf => "rtf"@,
        Format::Csv => "csv"@,
    }
}

/// The name of a format.
pub fn format_name(fmt: Format) -> (res: &'static str)
    ensures
        res@ == format_name_text(fmt),
{
    match fmt {
        Format::Latex => "latex",
        Format::Html => "html",
        Format::Rtf => "rtf",
        Format::Csv => "csv",
    }
}

/// A coefficient written as text followed by its star marker in a format.
pub fn fmt_coef(coef: &str, stars: &str, fmt: Format, show_stars: bool) -> (res: String)
    ensures
        res@ == coef@ + star_mark(fmt, stars@, show_stars),
{
    let star = fmt.fmt_stars(stars, show_stars);
    let mut out = String::from_str(coef);
    out.append(star.as_str());
    out
}

/// A standard error written as text, in parentheses.
pub fn fmt_se(se: &str) -> (res: String)
    ensures
        res@ == "("@ + se@ + ")"@,
{
    let mut out = String::from_str("(");
    out.append(se);
    out.append(")");
    out
}


/// Reading the name of a format gives that format back.
pub proof fn lemma_format_name_round_trip(fmt: Format)
    ensures
        format_named(format_name_text(fmt)) == fmt,
{
    reveal_strlit("latex");
    reveal_strlit("html");
    reveal_strlit("rtf");
    reveal_strlit("csv");
    let n = format_name_text(fmt);
    assert(lower_seq(n) =~= n);
    assert("html"@.len() == 4);
    assert("rtf"@.len() == 3);
    assert("csv"@.len() == 3);
    assert("latex"@.len() == 5);
    match fmt {
        Format::Csv => {
            assert(n[0] != "rtf"@[0]);
        },
        _ => {},
    }
}

/// Format names are read without regard to ASCII case: lowering a name
/// first selects the same format.
pub proof fn lemma_format_named_ignores_case(s: Seq<char>)
    ensures
        format_named(lower_seq(s)) == format_named(s),
{
    assert forall|i: int| 0 <= i < s.len() implies #[trigger] ascii_lower(ascii_lower(s[i]))
        == ascii_lower(s[i]) by {
        let c = s[i];
        if 'A' <= c && c <= 'Z' {
            assert(((c as u32) + 32) as char as u32 == (c as u32) + 32);
        }
    }
    assert(lower_seq(lower_seq(s)) =~= lower_seq(s));
}

/// `find_seq` finds the first occurrence: an occurrence at `k` with none
/// between `from` and `k` is the one found.
pub proof fn lemma_find_seq_at(s: Seq<char>, p: Seq<char>, from: int, k: int)
    requires
        0 <= from <= k,
        k + p.len() <= s.len(),
        s.subrange(k, k + p.len()) == p,
        forall|j: int| from <= j < k ==> #[trigger] s.subrange(j, j + p.len()) != p,
    ensures
        find_seq(s, p, from) == Some(k),
    decreases k - from,
{
    if from < k {
        assert(s.subrange(from, from + p.len()) != p);
        lemma_find_seq_at(s, p, from + 1, k);
    }
}

/// Without a `<sup>` in it, a cell is escaped for HTML like any other text.
pub proof fn lemma_html_cell_plain(s: Seq<char>)
    requires
        find_seq(s, sup_open(), 0) is None,
    ensures
        html_cell(s) == escape_cell(Format::Html, s),
{
    assert(s.subrange(0, s.len() as int) == s);
}

/// Where `p` occurs nowhere at or after `from`, `find_seq` finds nothing.
pub proof fn lemma_find_seq_none(s: Seq<char>, p: Seq<char>, from: int)
    requires
        0 <= from,
        forall|j: int| from <= j && j + p.len() <= s.len() ==> #[trigger] s.subrange(j, j + p.len()) != p,
    ensures
        find_seq(s, p, from) is None,
    decreases s.len() + 1 - from,
{
    if from + p.len() <= s.len() {
        assert(s.subrange(from, from + p.len()) != p);
        lemma_find_seq_none(s, p, from + 1);
    }
}

/// Whether `p` occurs somewhere in `s`.
pub open spec fn occurs(s: Seq<char>, p: Seq<char>) -> bool {
    exists|j: int| 0 <= j && j + p.len() <= s.len() && #[trigger] s.subrange(j, j + p.len()) == p
}

proof fn lemma_find_seq_shift(s: Seq<char>, p: Seq<char>, pos: int, from: int)
    requires
        0 <= pos <= from,
        pos <= s.len(),
    ensures
        find_seq(s, p, from) == (match find_seq(s.subrange(pos, s.len() as int), p, from - pos) {
            Some(i) => Some(i + pos),
            None => None,
        }),
    decreases s.len() + 1 - from,
{
    let t = s.subrange(pos, s.len() as int);
    if from + p.len() <= s.len() {
        assert(s.subrange(from, from + p.len()) =~= t.subrange(from - pos, from - pos + p.len()));
        if s.subrange(from, from + p.len()) != p {
            lemma_find_seq_shift(s, p, pos, from + 1);
        }
    }
}

proof fn lemma_html_cell_from_shift(s: Seq<char>, pos: int, q: int)
    requires
        0 <= pos <= q <= s.len(),
    ensures
        html_cell_from(s, q) == html_cell_from(s.subrange(pos, s.len() as int), q - pos),
    decreases s.len() - q,
{
    let t = s.subrange(pos, s.len() as int);
    lemma_find_seq_shift(s, sup_open(), pos, q);
    match find_seq(s, sup_open(), q) {
        None => {
            assert(s.subrange(q, s.len() as int) =~= t.subrange(q - pos, t.len() as int));
        },
        Some(a) => {
            lemma_find_seq(s, sup_open(), q);
            lemma_find_seq_shift(s, sup_close(), pos, a);
            assert(s.subrange(q, a) =~= t.subrange(q - pos, a - pos));
            match find_seq(s, sup_close(), a) {
                None => {
                    assert(s.subrange(a, s.len() as int) =~= t.subrange(a - pos, t.len() as int));
                },
                Some(b) => {
                    lemma_find_seq(s, sup_close(), a);
                    assert(s.subrange(a, b + 6) =~= t.subrange(a - pos, b - pos + 6));
                    lemma_html_cell_from_shift(s, pos, b + 6);
                },
            }
        },
    }
}

/// In `w`, where `a` is followed by `<sup>` and `<sup>` does not occur in
/// `a`, the first `<sup>` is the one right after `a`.
proof fn lemma_open_first(a: Seq<char>, w: Seq<char>)
    requires
        !occurs(a, sup_open()),
        a.len() + 5 <= w.len(),
        w.subrange(0, a.len() as int) == a,
        w.subrange(a.len() as int, a.len() as int + 5) == sup_open(),
    ensures
        find_seq(w, sup_open(), 0) == Some(a.len() as int),
{
    let n = a.len() as int;
    assert forall|j: int| 0 <= j < n implies #[trigger] w.subrange(j, j + sup_open().len())
        != sup_open() by {
        if w.subrange(j, j + sup_open().len()) == sup_open() {
            if j + 5 <= n {
                assert(a.subrange(j, j + sup_open().len()) =~= w.subrange(
                    j,
                    j + sup_open().len(),
                ));
                assert(occurs(a, sup_open()));
            } else {
                assert(w[n] == w.subrange(n, n + 5)[0]);
                assert(w[n] == w.subrange(j, j + 5)[n - j]);
            }
        }
    }
    lemma_find_seq_at(w, sup_open(), 0, n);
}

/// After a `<sup>` at `n` of `w`, no `</sup>` starts inside that marker;
/// one starting after it at `j` makes `</sup>` occur in any text `m` that
/// follows the marker and covers the occurrence.
proof fn lemma_close_not_in_marker(w: Seq<char>, n: int, m: Seq<char>, j: int)
    requires
        0 <= n <= j,
        j + 6 <= w.len(),
        n + 5 <= w.len(),
        w.subrange(n, n + 5) == sup_open(),
        n + 5 + m.len() <= w.len(),
        w.subrange(n + 5, n + 5 + m.len()) == m,
        j + 6 <= n + 5 + m.len(),
        !occurs(m, sup_close()),
    ensures
        w.subrange(j, j + sup_close().len()) != sup_close(),
{
    if w.subrange(j, j + sup_close().len()) == sup_close() {
        if j == n {
            assert(w[n + 1] == w.subrange(n, n + 5)[1]);
            assert(w[n + 1] == w.subrange(j, j + 6)[1]);
        } else if j < n + 5 {
            assert(w[j] == w.subrange(n, n + 5)[j - n]);
            assert(w[j] == w.subrange(j, j + 6)[0]);
        } else {
            let k = j - n - 5;
            assert(m.subrange(k, k + sup_close().len()) =~= w.subrange(j, j + sup_close().len()))
                by {
                assert forall|i: int| 0 <= i < 6 implies #[trigger] m.subrange(k, k + 6)[i]
                    == w.subrange(j, j + 6)[i] by {
                    assert(m[k + i] == w.subrange(n + 5, n + 5 + m.len())[k + i]);
                }
            }
            assert(occurs(m, sup_close()));
        }
    }
}

/// Without `<sup>` in it, a cell is escaped for HTML like any other text.
pub proof fn lemma_html_cell_without_marker(x: Seq<char>)
    requires
        !occurs(x, sup_open()),
    ensures
        html_cell(x) == escape_cell(Format::Html, x),
{
    assert forall|j: int| 0 <= j && j + sup_open().len() <= x.len() implies #[trigger] x.subrange(
        j,
        j + sup_open().len(),
    ) != sup_open() by {
        if x.subrange(j, j + sup_open().len()) == sup_open() {
            assert(occurs(x, sup_open()));
        }
    }
    lemma_find_seq_none(x, sup_open(), 0);
    lemma_html_cell_plain(x);
}

/// After a `<sup>` at `n` of `w` followed by `m` and `</sup>`, with no
/// `</sup>` in `m`, the first `</sup>` is the one right after `m`.
proof fn lemma_close_after(w: Seq<char>, n: int, m: Seq<char>)
    requires
        0 <= n,
        n + 5 + m.len() + 6 <= w.len(),
        w.subrange(n, n + 5) == sup_open(),
        w.subrange(n + 5, n + 5 + m.len()) == m,
        w.subrange(n + 5 + m.len(), n + 5 + m.len() + 6) == sup_close(),
        !occurs(m, sup_close()),
    ensures
        find_seq(w, sup_close(), n) == Some(n + 5 + m.len()),
{
    let e = n + 5 + m.len();
    assert forall|j: int| n <= j < e implies #[trigger] w.subrange(j, j + sup_close().len())
        != sup_close() by {
        if j + 6 <= e {
            lemma_close_not_in_marker(w, n, m, j);
        } else if w.subrange(j, j + sup_close().len()) == sup_close() {
            assert(w[e] == w.subrange(e, e + 6)[0]);
            assert(w[e] == w.subrange(j, j + 6)[e - j]);
        }
    }
    lemma_find_seq_at(w, sup_close(), n, e);
}

/// A closed superscript span is copied unchanged: when `<sup>` does not
/// occur in `a` nor `</sup>` in `m`, the cell `a<sup>m</sup>b` comes out as
/// `a` escaped, the span as it is, then `b` treated the same way.
pub proof fn lemma_html_cell_closed_span(a: Seq<char>, m: Seq<char>, b: Seq<char>)
    requires
        !occurs(a, sup_open()),
        !occurs(m, sup_close()),
    ensures
        html_cell(a + sup_open() + m + sup_close() + b) == escape_cell(Format::Html, a)
            + sup_open() + m + sup_close() + html_cell(b),
{
    let w = a + sup_open() + m + sup_close() + b;
    let n = a.len() as int;
    let e = n + 5 + m.len();
    assert(w.subrange(0, n) =~= a);
    assert(w.subrange(n, n + 5) =~= sup_open());
    assert(w.subrange(n + 5, n + 5 + m.len()) =~= m);
    assert(w.subrange(e, e + 6) =~= sup_close());
    lemma_open_first(a, w);
    lemma_close_after(w, n, m);
    assert(w.subrange(n, e + 6) =~= sup_open() + m + sup_close());
    lemma_html_cell_from_shift(w, e + 6, e + 6);
    assert(w.subrange(e + 6, w.len() as int) =~= b);
}

/// An unclosed `<sup>` is escaped with the rest: when `<sup>` does not occur
/// in `a` nor `</sup>` in `m`, the cell `a<sup>m` is escaped whole.
pub proof fn lemma_html_cell_unclosed_span(a: Seq<char>, m: Seq<char>)
    requires
        !occurs(a, sup_open()),
        !occurs(m, sup_close()),
    ensures
        html_cell(a + sup_open() + m) == escape_cell(Format::Html, a + sup_open() + m),
{
    let w = a + sup_open() + m;
    let n = a.len() as int;
    assert(w.subrange(0, n) =~= a);
    assert(w.subrange(n, n + 5) =~= sup_open());
    assert(w.subrange(n + 5, n + 5 + m.len()) =~= m);
    lemma_open_first(a, w);
    assert forall|j: int| n <= j && j + sup_close().len() <= w.len() implies #[trigger] w.subrange(
        j,
        j + sup_close().len(),
    ) != sup_close() by {
        lemma_close_not_in_marker(w, n, m, j);
    }
    lemma_find_seq_none(w, sup_close(), n);
    lemma_escape_concat(Format::Html, w.subrange(0, n), w.subrange(n, w.len() as int));
    assert(w.subrange(0, n) + w.subrange(n, w.len() as int) =~= w);
}

/// HTML cells keep star markers: a value without `<`, followed by the HTML
/// star marker of stars without `<`, comes out as the escaped value followed
/// by the unchanged marker.
pub proof fn lemma_html_cell_keeps_stars(x: Seq<char>, stars: Seq<char>)
    requires
        !x.contains('<'),
        !stars.contains('<'),
    ensures
        html_cell(x + star_mark(Format::Html, stars, true)) == escape_cell(Format::Html, x)
            + star_mark(Format::Html, stars, true),
{
    assert(!occurs(x, sup_open())) by {
        if occurs(x, sup_open()) {
            let j = choose|j: int|
                0 <= j && j + sup_open().len() <= x.len() && #[trigger] x.subrange(
                    j,
                    j + sup_open().len(),
                ) == sup_open();
            assert(x[j] == x.subrange(j, j + 5)[0]);
        }
    }
    if stars.len() == 0 {
        assert(x + star_mark(Format::Html, stars, true) =~= x);
        lemma_html_cell_without_marker(x);
    } else {
        assert(!occurs(stars, sup_close())) by {
            if occurs(stars, sup_close()) {
                let j = choose|j: int|
                    0 <= j && j + sup_close().len() <= stars.len() && #[trigger] stars.subrange(
                        j,
                        j + sup_close().len(),
                    ) == sup_close();
                assert(stars[j] == stars.subrange(j, j + 6)[0]);
            }
        }
        lemma_html_cell_closed_span(x, stars, Seq::empty());
        assert(x + sup_open() + stars + sup_close() + Seq::<char>::empty() =~= x + star_mark(
            Format::Html,
            stars,
            true,
        ));
        assert(html_cell(Seq::<char>::empty()) == Seq::<char>::empty());
        assert(escape_cell(Format::Html, x) + sup_open() + stars + sup_close()
            + Seq::<char>::empty() =~= escape_cell(Format::Html, x) + star_mark(
            Format::Html,
            stars,
            true,
        ));
    }
}

} // verus!
