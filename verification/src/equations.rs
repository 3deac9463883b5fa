//! The equation and matrix generators, and the marginal-effects and
//! forecast tables. Numbers reach them already written as text.
use crate::format::{push_tex_line, Format, Table, TableView};
use crate::helpers::spec_esc;
use crate::models::{constant_index, names, ModelData};
use crate::options::{opt_bool, opt_bool_value, opt_str, opt_str_value, Opts};
use crate::text::{concat_all, decimal, join_seq, push_decimal, push_joined, same_text, texts};
use vstd::prelude::*;
use vstd::string::*;

verus! {

broadcast use vstd::string::group_string_axioms;

/// One estimated coefficient, written as text: its value, its absolute
/// value, whether it is below zero, and the stars of its p-value.
pub struct CoefText {
    pub value: String,
    pub magnitude: String,
    pub negative: bool,
    pub stars: String,
}

/// The stars written right after a coefficient (nothing when stars are off).
pub open spec fn star_suffix(stars: Seq<char>, show: bool) -> Seq<char> {
    if show {
        stars
    } else {
        Seq::empty()
    }
}

/// How many terms other than the constant come before coefficient `i`.
pub open spec fn terms_before(ci: Option<int>, i: int) -> int {
    match ci {
        Some(c) => if c < i {
            i - 1
        } else {
            i
        },
        None => i,
    }
}

/// The text of one term: with estimates, the signed value (a leading term
/// carries its own sign) and stars; without, `\beta_k`; then the variable.
pub open spec fn term_text(
    v: Seq<char>,
    c: CoefText,
    first: bool,
    beta: int,
    estimated: bool,
    show_stars: bool,
) -> Seq<char> {
    let st = star_suffix(c.stars@, show_stars);
    if estimated {
        (if first {
            if c.negative {
                "- "@ + c.magnitude@ + st
            } else {
                c.value@ + st
            }
        } else {
            if c.negative {
                " - "@ + c.magnitude@ + st
            } else {
                " + "@ + c.value@ + st
            }
        }) + " "@ + spec_esc(v)
    } else {
        (if first {
            Seq::empty()
        } else {
            " + "@
        }) + "\\beta_"@ + decimal(beta as nat) + " "@ + spec_esc(v)
    }
}

/// The term of coefficient `i`; nothing for the constant, which leads. The
/// first term is leading when there is no constant; terms are numbered from
/// 1, skipping the constant.
pub open spec fn eq_term(
    vars: Seq<Seq<char>>,
    coefs: Seq<CoefText>,
    ci: Option<int>,
    estimated: bool,
    show_stars: bool,
    i: int,
) -> Seq<char> {
    if ci == Some(i) {
        Seq::empty()
    } else {
        term_text(
            vars[i],
            coefs[i],
            ci is None && i == 0,
            terms_before(ci, i) + 1,
            estimated,
            show_stars,
        )
    }
}

pub open spec fn eq_terms(
    vars: Seq<Seq<char>>,
    coefs: Seq<CoefText>,
    ci: Option<int>,
    estimated: bool,
    show_stars: bool,
    k: int,
) -> Seq<char>
    decreases k,
{
    if k <= 0 {
        Seq::empty()
    } else {
        eq_terms(vars, coefs, ci, estimated, show_stars, k - 1) + eq_term(
            vars,
            coefs,
            ci,
            estimated,
            show_stars,
            k - 1,
        )
    }
}

/// The fitted equation of a model with variables `vars` and coefficients
/// `coefs`: `\hat{y} = ` the constant term, the other terms, `+ \varepsilon`.
pub open spec fn equation_text(
    vars: Seq<Seq<char>>,
    coefs: Seq<CoefText>,
    estimated: bool,
    numbered: bool,
    show_stars: bool,
) -> Seq<char> {
    let ci = constant_index(vars);
    let env = if numbered {
        "equation"@
    } else {
        "equation*"@
    };
    let constant = match ci {
        Some(i) => if estimated {
            coefs[i].value@ + star_suffix(coefs[i].stars@, show_stars)
        } else {
            "\\beta_0"@
        },
        None => Seq::empty(),
    };
    "\\begin{"@ + env + "}\n"@ + "\\hat{y} = "@ + constant + eq_terms(
        vars,
        coefs,
        ci,
        estimated,
        show_stars,
        coefs.len() as int,
    ) + " + \\varepsilon"@ + "\n\\end{"@ + env + "}\n"@
}

/// The equation can be written: every coefficient has a variable, and with
/// estimates the constant has a coefficient.
pub open spec fn equation_ok(vars: Seq<Seq<char>>, coefs: Seq<CoefText>, estimated: bool) -> bool {
    &&& coefs.len() <= vars.len()
    &&& estimated ==> (constant_index(vars) matches Some(i) ==> i < coefs.len())
}

fn push_star_suffix(out: &mut String, stars: &str, show: bool)
    ensures
        final(out)@ == old(out)@ + star_suffix(stars@, show),
{
    if show {
        out.append(stars);
    }
}

fn push_term(
    out: &mut String,
    vname: &str,
    c: &CoefText,
    first: bool,
    beta_idx: usize,
    estimated: bool,
    show_stars: bool,
)
    requires
        beta_idx < u64::MAX,
    ensures
        final(out)@ == old(out)@ + term_text(
            vname@,
            *c,
            first,
            beta_idx + 1,
            estimated,
            show_stars,
        ),
{
    if estimated {
        if c.negative {
            if first {
                out.append("- ");
            } else {
                out.append(" - ");
            }
            out.append(c.magnitude.as_str());
        } else {
            if !first {
                out.append(" + ");
            }
            out.append(c.value.as_str());
        }
        push_star_suffix(out, c.stars.as_str(), show_stars);
        out.append(" ");
        let e = crate::helpers::esc(vname);
        out.append(e.as_str());
    } else {
        if !first {
            out.append(" + ");
        }
        out.append("\\beta_");
        push_decimal(out, beta_idx as u64 + 1);
        out.append(" ");
        let e = crate::helpers::esc(vname);
        out.append(e.as_str());
    }
}

fn push_terms(
    out: &mut String,
    variables: &Vec<String>,
    coefs: &Vec<CoefText>,
    const_idx: Option<usize>,
    estimated: bool,
    show_stars: bool,
)
    requires
        coefs@.len() <= variables@.len(),
    ensures
        final(out)@ == old(out)@ + eq_terms(
            names(variables@),
            coefs@,
            match const_idx {
                Some(c) => Some(c as int),
                None => None,
            },
            estimated,
            show_stars,
            coefs@.len() as int,
        ),
{
    let ghost vars = names(variables@);
    let ghost ci: Option<int> = match const_idx {
        Some(c) => Some(c as int),
        None => None,
    };
    let mut first = const_idx.is_none();
    let n = coefs.len();
    let mut beta_idx: usize = 0;
    let mut i: usize = 0;
    while i < n
        invariant
            n == coefs@.len(),
            n <= variables@.len(),
            vars == names(variables@),
            i <= n,
            ci == match const_idx {
                Some(c) => Some(c as int),
                None => None,
            },
            first == (ci is None && i == 0),
            beta_idx == terms_before(ci, i as int),
            beta_idx <= i,
            out@ == old(out)@ + eq_terms(vars, coefs@, ci, estimated, show_stars, i as int),
        decreases n - i,
    {
        proof {
            assert(vars[i as int] == variables@[i as int]@);
        }
        let is_const = match const_idx {
            Some(c) => c == i,
            None => false,
        };
        if !is_const {
            push_term(out, variables[i].as_str(), &coefs[i], first, beta_idx, estimated, show_stars);
            beta_idx += 1;
            first = false;
        }
        i += 1;
    }
}

/// Formula → LaTeX equation; with estimates, the coefficients with stars.
/// Options: estimated (default false), numbered (default true), stars
/// (default true).
pub fn equation(md: &ModelData, coefs: &Vec<CoefText>, opts: &Opts) -> (res: String)
    requires
        equation_ok(names(md.variables@), coefs@, opt_bool_value(*opts, "estimated"@, false)),
    ensures
        res@ == equation_text(
            names(md.variables@),
            coefs@,
            opt_bool_value(*opts, "estimated"@, false),
            opt_bool_value(*opts, "numbered"@, true),
            opt_bool_value(*opts, "stars"@, true),
        ),
{
    let estimated = opt_bool(opts, "estimated", false);
    let numbered = opt_bool(opts, "numbered", true);
    let show_stars = opt_bool(opts, "stars", true);
    let ghost vars = names(md.variables@);
    let const_idx = md.has_constant();
    proof {
        if let Some(c) = const_idx {
            crate::models::lemma_first_match_from(vars, "_cons"@, 0);
            crate::models::lemma_first_match_from(vars, "const"@, 0);
            crate::models::lemma_first_match_from(vars, "intercept"@, 0);
        }
    }
    let env = if numbered {
        "equation"
    } else {
        "equation*"
    };
    let mut s = String::new();
    s.append("\\begin{");
    s.append(env);
    s.append("}\n");
    s.append("\\hat{y} = ");
    match const_idx {
        Some(idx) => {
            if estimated {
                s.append(coefs[idx].value.as_str());
                push_star_suffix(&mut s, coefs[idx].stars.as_str(), show_stars);
            } else {
                s.append("\\beta_0");
            }
        },
        None => {},
    }
    push_terms(&mut s, &md.variables, coefs, const_idx, estimated, show_stars);
    s.append(" + \\varepsilon");
    s.append("\n\\end{");
    s.append(env);
    s.append("}\n");
    s
}

/// Alias for `equation`.
pub fn formula(md: &ModelData, coefs: &Vec<CoefText>, opts: &Opts) -> (res: String)
    requires
        equation_ok(names(md.variables@), coefs@, opt_bool_value(*opts, "estimated"@, false)),
    ensures
        res@ == equation_text(
            names(md.variables@),
            coefs@,
            opt_bool_value(*opts, "estimated"@, false),
            opt_bool_value(*opts, "numbered"@, true),
            opt_bool_value(*opts, "stars"@, true),
        ),
{
    equation(md, coefs, opts)
}


/// The matrix environment with the given cells: each row cut to the length
/// of the first, cells joined by ` & `, rows ended by ` \\` except the last.
pub open spec fn matrix_text(cells: Seq<Seq<Seq<char>>>, brackets: Seq<char>) -> Seq<char> {
    let env = brackets + "matrix"@;
    if cells.len() == 0 {
        "\\begin{"@ + env + "}\n"@ + "\\end{"@ + env + "}\n"@
    } else {
        "\\begin{"@ + env + "}\n"@ + matrix_lines(cells, cells[0].len() as int, cells.len() as int)
            + "\\end{"@ + env + "}\n"@
    }
}

pub open spec fn matrix_lines(cells: Seq<Seq<Seq<char>>>, ncols: int, k: int) -> Seq<char>
    decreases k,
{
    if k <= 0 {
        Seq::empty()
    } else {
        matrix_lines(cells, ncols, k - 1) + join_seq(cells[k - 1].take(ncols), " & "@) + if k - 1
            < cells.len() - 1 {
            " \\\\\n"@
        } else {
            "\n"@
        }
    }
}

/// The first `ncols` cells of `row`.
fn cut_row(row: &Vec<String>, ncols: usize) -> (res: Vec<String>)
    requires
        ncols <= row@.len(),
    ensures
        texts(res@) == texts(row@).take(ncols as int),
{
    let mut cut: Vec<String> = Vec::new();
    let mut j: usize = 0;
    while j < ncols
        invariant
            ncols <= row@.len(),
            j <= ncols,
            cut@.len() == j,
            forall|q: int| 0 <= q < j ==> #[trigger] cut@[q]@ == row@[q]@,
        decreases ncols - j,
    {
        cut.push(row[j].clone());
        j += 1;
    }
    proof {
        assert(texts(cut@) =~= texts(row@).take(ncols as int));
    }
    cut
}

/// Matrix → `bmatrix`/`pmatrix`; `cells` holds the entries written as text,
/// and no row is shorter than the first.
/// Options: brackets (default "b").
pub fn matrix(cells: &Vec<Vec<String>>, opts: &Opts) -> (res: String)
    requires
        cells@.len() > 0 ==> forall|i: int|
            0 <= i < cells@.len() ==> (#[trigger] cells@[i])@.len() >= cells@[0]@.len(),
    ensures
        res@ == matrix_text(
            cells@.map_values(|r: Vec<String>| texts(r@)),
            opt_str_value(*opts, "brackets"@, "b"@),
        ),
{
    let brackets = opt_str(opts, "brackets", "b");
    let mut env = brackets.clone();
    env.append("matrix");
    let ghost rows = cells@.map_values(|r: Vec<String>| texts(r@));
    let nrows = cells.len();
    let mut s = String::new();
    s.append("\\begin{");
    s.append(env.as_str());
    s.append("}\n");
    if nrows == 0 {
        s.append("\\end{");
        s.append(env.as_str());
        s.append("}\n");
        return s;
    }
    let ncols = cells[0].len();
    let ghost start = s@;
    let mut i: usize = 0;
    while i < nrows
        invariant
            nrows == cells@.len(),
            0 < nrows,
            ncols == cells@[0]@.len(),
            rows == cells@.map_values(|r: Vec<String>| texts(r@)),
            forall|q: int| 0 <= q < cells@.len() ==> (#[trigger] cells@[q])@.len() >= cells@[0]@.len(),
            i <= nrows,
            s@ == start + matrix_lines(rows, ncols as int, i as int),
        decreases nrows - i,
    {
        proof {
            assert(cells@[i as int]@.len() >= ncols);
            assert(rows[i as int] == texts(cells@[i as int]@));
        }
        let cut = cut_row(&cells[i], ncols);
        push_joined(&mut s, cut.as_slice(), " & ");
        if i < nrows - 1 {
            s.append(" \\\\\n");
        } else {
            s.append("\n");
        }
        i += 1;
    }
    s.append("\\end{");
    s.append(env.as_str());
    s.append("}\n");
    s
}

/// The figures of one marginal effect, written as text.
pub struct MarginCells {
    pub me: String,
    pub stars: String,
    pub se: String,
    pub z: String,
    pub p: String,
}

/// Whether a variable name names the constant term.
pub open spec fn constant_name(v: Seq<char>) -> bool {
    v == "_cons"@ || v == "const"@ || v == "intercept"@
}

pub open spec fn margin_row(v: Seq<char>, c: MarginCells) -> Seq<Seq<char>> {
    seq![spec_esc(v), c.me@ + c.stars@, c.se@, c.z@, c.p@]
}

pub open spec fn margin_rows(vars: Seq<Seq<char>>, cells: Seq<MarginCells>, k: int) -> Seq<
    Seq<Seq<char>>,
>
    decreases k,
{
    if k <= 0 {
        Seq::empty()
    } else if constant_name(vars[k - 1]) {
        margin_rows(vars, cells, k - 1)
    } else {
        margin_rows(vars, cells, k - 1).push(margin_row(vars[k - 1], cells[k - 1]))
    }
}

/// The marginal-effects table: one row per coefficient other than the
/// constant, with the star legend.
pub open spec fn margins_view(
    vars: Seq<Seq<char>>,
    cells: Seq<MarginCells>,
    title: Seq<char>,
    label: Seq<char>,
) -> TableView {
    TableView {
        align: Seq::new(5, |i: int| 'l'),
        headers: seq![seq!["Variable"@, "dy/dx"@, "Std.~Err."@, "z"@, "p"@]],
        body: margin_rows(vars, cells, cells.len() as int),
        footer: Seq::empty(),
        caption: title,
        label: label,
        show_stars: true,
    }
}

fn str_vec5(a: &str, b: &str, c: &str, d: &str, e: &str) -> (res: Vec<String>)
    ensures
        texts(res@) == seq![a@, b@, c@, d@, e@],
{
    let v = vec![
        String::from_str(a),
        String::from_str(b),
        String::from_str(c),
        String::from_str(d),
        String::from_str(e),
    ];
    proof {
        assert(texts(v@) =~= seq![a@, b@, c@, d@, e@]);
    }
    v
}

/// Marginal effects table; `cells[i]` holds the effect of coefficient `i`.
/// Options: title (default empty: no caption), label, format (default
/// "latex").
pub fn margins(md: &ModelData, cells: &Vec<MarginCells>, opts: &Opts) -> (res: String)
    requires
        cells@.len() <= md.variables@.len(),
    ensures
        res@ == margins_view(
            names(md.variables@),
            cells@,
            opt_str_value(*opts, "title"@, ""@),
            opt_str_value(*opts, "label"@, ""@),
        ).rendered(crate::format::format_named(opt_str_value(*opts, "format"@, "latex"@))),
{
    let title = opt_str(opts, "title", "");
    let label = opt_str(opts, "label", "");
    let fname = opt_str(opts, "format", "latex");
    let fmt = Format::from_str(fname.as_str());
    let ghost vars = names(md.variables@);
    let mut tbl = Table::new(5, 'l');
    let hdr = str_vec5("Variable", "dy/dx", "Std.~Err.", "z", "p");
    tbl.headers.push(hdr);
    proof {
        assert(crate::format::row_texts(tbl.headers@) =~= seq![
            seq!["Variable"@, "dy/dx"@, "Std.~Err."@, "z"@, "p"@],
        ]);
        assert(crate::format::row_texts(tbl.body@) =~= margin_rows(vars, cells@, 0));
    }
    let n = cells.len();
    let mut i: usize = 0;
    while i < n
        invariant
            n == cells@.len(),
            n <= md.variables@.len(),
            vars == names(md.variables@),
            i <= n,
            tbl.align@ == Seq::new(5, |q: int| 'l'),
            tbl.footer@.len() == 0,
            crate::format::row_texts(tbl.headers@) == seq![
                seq!["Variable"@, "dy/dx"@, "Std.~Err."@, "z"@, "p"@],
            ],
            crate::format::row_texts(tbl.body@) == margin_rows(vars, cells@, i as int),
        decreases n - i,
    {
        let vname = md.variables[i].as_str();
        if !(same_text(vname, "_cons") || same_text(vname, "const") || same_text(vname, "intercept")) {
            let c = &cells[i];
            let mut me = c.me.clone();
            me.append(c.stars.as_str());
            let row = vec![
                crate::helpers::esc(vname),
                me,
                c.se.clone(),
                c.z.clone(),
                c.p.clone(),
            ];
            proof {
                assert(texts(row@) =~= margin_row(vars[i as int], cells@[i as int]));
            }
            let ghost before = tbl.body@;
            tbl.body.push(row);
            proof {
                assert(crate::format::row_texts(tbl.body@) =~= crate::format::row_texts(before).push(
                    texts(row@),
                ));
            }
        }
        i += 1;
    }
    tbl.caption = title;
    tbl.label = label;
    tbl.show_stars = true;
    proof {
        assert(tbl.align@ =~= Seq::new(5, |i: int| 'l'));
        assert(crate::format::row_texts(tbl.footer@) =~= Seq::<Seq<Seq<char>>>::empty());
        assert(tbl@ =~= margins_view(vars, cells@, title@, label@));
    }
    tbl.render(fmt)
}

/// The forecast figures, written as text: the point forecast and the
/// bounds of its interval, the same for every period.
pub struct ForecastCells {
    pub f: String,
    pub lo: String,
    pub hi: String,
}

/// The forecast table for `h` periods.
pub open spec fn forecast_view(h: nat, c: ForecastCells, title: Seq<char>, label: Seq<char>) -> TableView {
    TableView {
        align: Seq::new(4, |i: int| 'r'),
        headers: seq![seq!["Period"@, "Forecast"@, "Lower"@, "Upper"@]],
        body: Seq::new(h, |t: int| seq![decimal((t + 1) as nat), c.f@, c.lo@, c.hi@]),
        footer: Seq::empty(),
        caption: title,
        label: label,
        show_stars: false,
    }
}

/// Forecast table for periods 1 to `h`, with the interval bounds.
/// Options: title (default "Forecasts"), label, format (default "latex").
pub fn forecast(h: i64, cells: &ForecastCells, opts: &Opts) -> (res: String)
    requires
        0 <= h <= usize::MAX,
    ensures
        res@ == forecast_view(
            h as nat,
            *cells,
            opt_str_value(*opts, "title"@, "Forecasts"@),
            opt_str_value(*opts, "label"@, ""@),
        ).rendered(crate::format::format_named(opt_str_value(*opts, "format"@, "latex"@))),
{
    let title = opt_str(opts, "title", "Forecasts");
    let label = opt_str(opts, "label", "");
    let fname = opt_str(opts, "format", "latex");
    let fmt = Format::from_str(fname.as_str());
    let mut tbl = Table::new(4, 'r');
    let hdr = vec![
        String::from_str("Period"),
        String::from_str("Forecast"),
        String::from_str("Lower"),
        String::from_str("Upper"),
    ];
    proof {
        assert(texts(hdr@) =~= seq!["Period"@, "Forecast"@, "Lower"@, "Upper"@]);
    }
    tbl.headers.push(hdr);
    proof {
        assert(crate::format::row_texts(tbl.headers@) =~= seq![
            seq!["Period"@, "Forecast"@, "Lower"@, "Upper"@],
        ]);
    }
    let n = h as usize;
    let mut t: usize = 0;
    proof {
        assert(crate::format::row_texts(tbl.body@) =~= Seq::new(
            0,
            |q: int| seq![decimal((q + 1) as nat), cells.f@, cells.lo@, cells.hi@],
        ));
    }
    while t < n
        invariant
            n == h,
            t <= n,
            tbl.align@ == Seq::new(4, |q: int| 'r'),
            tbl.footer@.len() == 0,
            !tbl.show_stars,
            crate::format::row_texts(tbl.headers@) == seq![
                seq!["Period"@, "Forecast"@, "Lower"@, "Upper"@],
            ],
            crate::format::row_texts(tbl.body@) == Seq::new(
                t as nat,
                |q: int| seq![decimal((q + 1) as nat), cells.f@, cells.lo@, cells.hi@],
            ),
        decreases n - t,
    {
        let row = vec![
            crate::text::usize_text(t + 1),
            cells.f.clone(),
            cells.lo.clone(),
            cells.hi.clone(),
        ];
        proof {
            assert(texts(row@) =~= seq![decimal((t + 1) as nat), cells.f@, cells.lo@, cells.hi@]);
        }
        let ghost before = tbl.body@;
        let ghost rv = texts(row@);
        tbl.body.push(row);
        proof {
            assert(crate::format::row_texts(tbl.body@) =~= crate::format::row_texts(before).push(rv));
            assert(crate::format::row_texts(tbl.body@) =~= Seq::new(
                (t + 1) as nat,
                |q: int| seq![decimal((q + 1) as nat), cells.f@, cells.lo@, cells.hi@],
            ));
        }
        t += 1;
    }
    tbl.caption = title;
    tbl.label = label;
    proof {
        assert(tbl.align@ =~= Seq::new(4, |i: int| 'r'));
        assert(crate::format::row_texts(tbl.footer@) =~= Seq::<Seq<Seq<char>>>::empty());
        assert(tbl@ =~= forecast_view(n as nat, *cells, title@, label@));
    }
    tbl.render(fmt)
}


/// The rows of a matrix as LaTeX writes them: each cut to `ncols` cells,
/// the cells joined by ` & `.
pub open spec fn matrix_rows(cells: Seq<Seq<Seq<char>>>, ncols: int) -> Seq<Seq<char>> {
    Seq::new(cells.len(), |i: int| join_seq(cells[i].take(ncols), " & "@))
}

proof fn lemma_matrix_lines_prefix(cells: Seq<Seq<Seq<char>>>, ncols: int, k: int)
    requires
        1 <= k <= cells.len(),
    ensures
        matrix_lines(cells, ncols, k) == join_seq(matrix_rows(cells, ncols).take(k), " \\\\\n"@) + if k
            < cells.len() {
            " \\\\\n"@
        } else {
            "\n"@
        },
    decreases k,
{
    let rows = matrix_rows(cells, ncols);
    if k == 1 {
        assert(matrix_lines(cells, ncols, 0) == Seq::<char>::empty());
        assert(join_seq(rows.take(1), " \\\\\n"@) == rows[0]);
        assert(Seq::<char>::empty() + rows[0] == rows[0]);
    } else {
        lemma_matrix_lines_prefix(cells, ncols, k - 1);
        assert(rows.take(k).drop_last() =~= rows.take(k - 1));
        assert(rows.take(k).last() == rows[k - 1]);
    }
}

/// A matrix with rows is its rows (each cut to the length of the first, its
/// cells joined by ` & `) separated by ` \\` line breaks, so that every row
/// but the last ends with a break, and the last with a newline.
pub proof fn lemma_matrix_rows_separated(cells: Seq<Seq<Seq<char>>>, brackets: Seq<char>)
    requires
        cells.len() > 0,
    ensures
        matrix_text(cells, brackets) == "\\begin{"@ + brackets + "matrix"@ + "}\n"@ + join_seq(
            matrix_rows(cells, cells[0].len() as int),
            " \\\\\n"@,
        ) + "\n"@ + "\\end{"@ + brackets + "matrix"@ + "}\n"@,
{
    let n = cells.len() as int;
    let ncols = cells[0].len() as int;
    lemma_matrix_lines_prefix(cells, ncols, n);
    assert(matrix_rows(cells, ncols).take(n) =~= matrix_rows(cells, ncols));
    assert("\\begin{"@ + (brackets + "matrix"@) =~= "\\begin{"@ + brackets + "matrix"@);
    assert("\\end{"@ + (brackets + "matrix"@) =~= "\\end{"@ + brackets + "matrix"@);
}


/// The column heads of the marginal-effects table.
pub open spec fn margin_heads() -> Seq<Seq<char>> {
    seq!["Variable"@, "dy/dx"@, "Std.~Err."@, "z"@, "p"@]
}

/// The figure of a marginal effect that a column head names.
pub open spec fn margin_field(v: Seq<char>, c: MarginCells, head: Seq<char>) -> Seq<char> {
    if head == "Variable"@ {
        spec_esc(v)
    } else if head == "dy/dx"@ {
        c.me@ + c.stars@
    } else if head == "Std.~Err."@ {
        c.se@
    } else if head == "z"@ {
        c.z@
    } else if head == "p"@ {
        c.p@
    } else {
        Seq::empty()
    }
}

/// The marginal-effects table has the heads Variable, dy/dx, Std. Err., z,
/// p, and each row's cells are the figures those heads name; its rows are
/// those of the coefficients other than the constant, in order.
pub proof fn lemma_margins_layout(vars: Seq<Seq<char>>, cells: Seq<MarginCells>, k: int)
    requires
        0 <= k <= cells.len(),
    ensures
        margin_heads() == seq!["Variable"@, "dy/dx"@, "Std.~Err."@, "z"@, "p"@],
        forall|v: Seq<char>, c: MarginCells| #[trigger] margin_row(v, c) == margin_heads().map_values(
            |h: Seq<char>| margin_field(v, c, h),
        ),
        margin_rows(vars, cells, k) == Seq::new(k as nat, |i: int| i).filter(
            |i: int| !constant_name(vars[i]),
        ).map_values(|i: int| margin_row(vars[i], cells[i])),
    decreases k,
{
    reveal_strlit("Variable");
    reveal_strlit("dy/dx");
    reveal_strlit("Std.~Err.");
    reveal_strlit("z");
    reveal_strlit("p");
    assert("Variable"@.len() == 8 && "dy/dx"@.len() == 5 && "Std.~Err."@.len() == 9);
    assert("z"@.len() == 1 && "p"@.len() == 1 && "p"@[0] != "z"@[0]);
    assert forall|v: Seq<char>, c: MarginCells| #[trigger] margin_row(v, c) == margin_heads().map_values(
        |h: Seq<char>| margin_field(v, c, h),
    ) by {
        assert(margin_field(v, c, "Variable"@) == spec_esc(v));
        assert(margin_field(v, c, "dy/dx"@) == c.me@ + c.stars@);
        assert(margin_field(v, c, "Std.~Err."@) == c.se@);
        assert(margin_field(v, c, "z"@) == c.z@);
        assert(margin_field(v, c, "p"@) == c.p@);
        assert(margin_row(v, c) =~= margin_heads().map_values(|h: Seq<char>| margin_field(v, c, h)));
    }
    let f = |i: int| !constant_name(vars[i]);
    let g = |i: int| margin_row(vars[i], cells[i]);
    let idx = Seq::new(k as nat, |i: int| i);
    if k == 0 {
        reveal(vstd::seq::Seq::filter);
        assert(idx.filter(f) =~= Seq::<int>::empty());
        assert(idx.filter(f).map_values(g) =~= Seq::<Seq<Seq<char>>>::empty());
    } else {
        lemma_margins_layout(vars, cells, k - 1);
        let prev = Seq::new((k - 1) as nat, |i: int| i);
        assert(idx =~= prev.push(k - 1));
        prev.lemma_filter_push(k - 1, f);
        if f(k - 1) {
            assert(prev.filter(f).push(k - 1).map_values(g) =~= prev.filter(f).map_values(g).push(
                g(k - 1),
            ));
        }
    }
}

/// The forecast table has one row per period, numbered from 1, each with the
/// same forecast and interval bounds, under the heads Period, Forecast,
/// Lower, Upper, and no legend.
pub proof fn lemma_forecast_rows(h: nat, c: ForecastCells, title: Seq<char>, label: Seq<char>, t: int)
    requires
        0 <= t < h,
    ensures
        forecast_view(h, c, title, label).body.len() == h,
        forecast_view(h, c, title, label).body[t] == seq![decimal((t + 1) as nat), c.f@, c.lo@, c.hi@],
        forecast_view(h, c, title, label).headers == seq![
            seq!["Period"@, "Forecast"@, "Lower"@, "Upper"@],
        ],
        !forecast_view(h, c, title, label).show_stars,
{
}


/// The symbolic term of the `j`-th variable other than the constant.
pub open spec fn beta_term(j: int, v: Seq<char>) -> Seq<char> {
    "\\beta_"@ + decimal((j + 1) as nat) + " "@ + spec_esc(v)
}

/// Without estimates and without a constant, the terms are `\beta_1 v_1`,
/// `\beta_2 v_2`, … for the variables in order, joined by ` + `.
pub proof fn lemma_symbolic_terms_without_constant(
    vars: Seq<Seq<char>>,
    coefs: Seq<CoefText>,
    show_stars: bool,
    k: int,
)
    requires
        0 <= k,
    ensures
        eq_terms(vars, coefs, None, false, show_stars, k) == join_seq(
            Seq::new(k as nat, |j: int| beta_term(j, vars[j])),
            " + "@,
        ),
    decreases k,
{
    let t = Seq::new(k as nat, |j: int| beta_term(j, vars[j]));
    if k == 1 {
        assert(eq_terms(vars, coefs, None, false, show_stars, 0) == Seq::<char>::empty());
        assert(Seq::<char>::empty() + beta_term(0, vars[0]) =~= beta_term(0, vars[0]));
    } else if k > 1 {
        lemma_symbolic_terms_without_constant(vars, coefs, show_stars, k - 1);
        assert(t.drop_last() =~= Seq::new((k - 1) as nat, |j: int| beta_term(j, vars[j])));
        assert(" + "@ + beta_term(k - 1, vars[k - 1]) =~= " + "@ + "\\beta_"@ + decimal(k as nat)
            + " "@ + spec_esc(vars[k - 1]));
    }
}

/// Without estimates and with the constant at `c`, the constant is left to
/// `\beta_0` and the other variables follow in order, each as
/// ` + \beta_j v` with `j` counting from 1 and skipping the constant.
pub proof fn lemma_symbolic_terms_with_constant(
    vars: Seq<Seq<char>>,
    coefs: Seq<CoefText>,
    c: int,
    show_stars: bool,
    k: int,
)
    requires
        0 <= c,
        0 <= k,
    ensures
        ({
            let rest = Seq::new(k as nat, |i: int| i).filter(|i: int| i != c);
            &&& rest.len() == if c < k {
                k - 1
            } else {
                k
            }
            &&& eq_terms(vars, coefs, Some(c), false, show_stars, k) == concat_all(
                Seq::new(rest.len(), |j: int| " + "@ + beta_term(j, vars[rest[j]])),
            )
        }),
    decreases k,
{
    let f = |i: int| i != c;
    let rest = Seq::new(k as nat, |i: int| i).filter(f);
    if k == 0 {
        reveal(vstd::seq::Seq::filter);
        assert(rest =~= Seq::<int>::empty());
        assert(Seq::new(rest.len(), |j: int| " + "@ + beta_term(j, vars[rest[j]]))
            =~= Seq::<Seq<char>>::empty());
    } else {
        lemma_symbolic_terms_with_constant(vars, coefs, c, show_stars, k - 1);
        let prev = Seq::new((k - 1) as nat, |i: int| i);
        let pr = prev.filter(f);
        assert(Seq::new(k as nat, |i: int| i) =~= prev.push(k - 1));
        prev.lemma_filter_push(k - 1, f);
        let old_parts = Seq::new(pr.len(), |j: int| " + "@ + beta_term(j, vars[pr[j]]));
        let parts = Seq::new(rest.len(), |j: int| " + "@ + beta_term(j, vars[rest[j]]));
        if k - 1 == c {
            assert(rest == pr);
            assert(parts =~= old_parts);
        } else {
            assert(rest =~= pr.push(k - 1));
            assert(parts.drop_last() =~= old_parts);
            assert(terms_before(Some(c), k - 1) == pr.len());
            assert(parts.last() =~= " + "@ + "\\beta_"@ + decimal((pr.len() + 1) as nat) + " "@
                + spec_esc(vars[k - 1]));
        }
    }
}

} // verus!
