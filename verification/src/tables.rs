//! The LaTeX table generators: data frame listing, regression table,
//! descriptive statistics, correlation matrix, codebook, ANOVA, test table
//! and diagnostics template. Numbers reach them already written as text.
use crate::format::{push_tex_line, tex_line, shown_if};
use crate::models::{find_in, first_match, names};
use crate::helpers::{latex_legend, push_table_open, spec_esc, table_close, table_open, wrap_table_end};
use crate::options::{
    label_of, opt_bool, opt_int, opt_int_value, opt_bool_value, opt_labels, opt_labels_value, opt_str, opt_str_value,
    Labels, OptValue, Opts,
};
use crate::text::{
    decimal, int_decimal, join_seq, push_decimal, push_int, push_joined, repeat_seq, same_text,
    texts,
};
use vstd::prelude::*;
use vstd::string::*;

verus! {

broadcast use vstd::string::group_string_axioms;

/// The display label of a fit statistic; unknown names are shown as they are.
pub open spec fn stat_label_text(name: Seq<char>) -> Seq<char> {
    if name == "n"@ {
        "Observations"@
    } else if name == "r2"@ {
        "$R^2$"@
    } else if name == "adj_r2"@ {
        "Adj. $R^2$"@
    } else if name == "pseudo_r2"@ {
        "Pseudo $R^2$"@
    } else if name == "aic"@ {
        "AIC"@
    } else if name == "bic"@ {
        "BIC"@
    } else if name == "log_lik"@ {
        "Log Likelihood"@
    } else if name == "f_stat"@ {
        "F-statistic"@
    } else if name == "sigma"@ {
        "$\\sigma$"@
    } else if name == "j_stat"@ {
        "Hansen J"@
    } else if name == "j_p_value"@ {
        "J p-value"@
    } else if name == "df_overid"@ {
        "Over-id. df"@
    } else if name == "sigma_u"@ {
        "$\\sigma_u$"@
    } else if name == "sigma_e"@ {
        "$\\sigma_e$"@
    } else if name == "theta"@ {
        "$\\theta$"@
    } else if name == "tau"@ {
        "$\\tau$"@
    } else if name == "alpha"@ {
        "$\\alpha$"@
    } else if name == "rho"@ {
        "$\\rho$"@
    } else if name == "delta"@ {
        "$\\delta$"@
    } else if name == "deviance"@ {
        "Deviance"@
    } else if name == "qic"@ {
        "QIC"@
    } else if name == "n_entities"@ {
        "Entities"@
    } else if name == "n_groups"@ {
        "Groups"@
    } else if name == "n_censored"@ {
        "Censored"@
    } else if name == "sigma2"@ {
        "$\\sigma^2$"@
    } else {
        name
    }
}

/// The display label of a fit statistic.
pub fn stat_label(name: &str) -> (res: String)
    ensures
        res@ == stat_label_text(name@),
{
    let l = if same_text(name, "n") {
        "Observations"
    } else if same_text(name, "r2") {
        "$R^2$"
    } else if same_text(name, "adj_r2") {
        "Adj. $R^2$"
    } else if same_text(name, "pseudo_r2") {
        "Pseudo $R^2$"
    } else if same_text(name, "aic") {
        "AIC"
    } else if same_text(name, "bic") {
        "BIC"
    } else if same_text(name, "log_lik") {
        "Log Likelihood"
    } else if same_text(name, "f_stat") {
        "F-statistic"
    } else if same_text(name, "sigma") {
        "$\\sigma$"
    } else if same_text(name, "j_stat") {
        "Hansen J"
    } else if same_text(name, "j_p_value") {
        "J p-value"
    } else if same_text(name, "df_overid") {
        "Over-id. df"
    } else if same_text(name, "sigma_u") {
        "$\\sigma_u$"
    } else if same_text(name, "sigma_e") {
        "$\\sigma_e$"
    } else if same_text(name, "theta") {
        "$\\theta$"
    } else if same_text(name, "tau") {
        "$\\tau$"
    } else if same_text(name, "alpha") {
        "$\\alpha$"
    } else if same_text(name, "rho") {
        "$\\rho$"
    } else if same_text(name, "delta") {
        "$\\delta$"
    } else if same_text(name, "deviance") {
        "Deviance"
    } else if same_text(name, "qic") {
        "QIC"
    } else if same_text(name, "n_entities") {
        "Entities"
    } else if same_text(name, "n_groups") {
        "Groups"
    } else if same_text(name, "n_censored") {
        "Censored"
    } else if same_text(name, "sigma2") {
        "$\\sigma^2$"
    } else {
        name
    };
    String::from_str(l)
}

/// Opening of a tabular inside an optional `table` environment.
pub open spec fn tabular_open(title: Seq<char>, label: Seq<char>, cols: Seq<char>) -> Seq<char> {
    table_open(title, label) + "\\begin{tabular}{"@ + cols + "}\n\\toprule\n"@
}

/// Closing of a tabular inside an optional `table` environment.
pub open spec fn tabular_close(title: Seq<char>) -> Seq<char> {
    "\\bottomrule\n\\end{tabular}\n"@ + table_close(title)
}

/// The rows of the diagnostics template.
pub open spec fn diagnostics_rows() -> Seq<char> {
    "VIF (max) & --- & --- & Check \\\\\n"@ + "Durbin-Watson & --- & --- & Check \\\\\n"@
        + "Breusch-Pagan & --- & --- & Check \\\\\n"@ + "RESET & --- & --- & Check \\\\\n"@
        + "White & --- & --- & Check \\\\\n"@ + "Jarque-Bera & --- & --- & Check \\\\\n"@
}

/// The diagnostics template for given title and label.
pub open spec fn diagnostics_text(title: Seq<char>, label: Seq<char>) -> Seq<char> {
    tabular_open(title, label, "lrrl"@) + "Test & Statistic & p-value & Result \\\\\n\\midrule\n"@
        + diagnostics_rows() + tabular_close(title)
}

/// Diagnostic tests template (VIF, Durbin-Watson, Breusch-Pagan, RESET,
/// White, Jarque-Bera) with placeholder values.
/// Options: title (default empty: no `table` environment), label.
pub fn diagnostics(opts: &Opts) -> (res: String)
    ensures
        res@ == diagnostics_text(
            opt_str_value(*opts, "title"@, ""@),
            opt_str_value(*opts, "label"@, ""@),
        ),
{
    let title = opt_str(opts, "title", "");
    let label = opt_str(opts, "label", "");
    let mut s = String::new();
    push_table_open(&mut s, title.as_str(), label.as_str());
    s.append("\\begin{tabular}{");
    s.append("lrrl");
    s.append("}\n\\toprule\n");
    s.append("Test & Statistic & p-value & Result \\\\\n\\midrule\n");
    s.append("VIF (max) & --- & --- & Check \\\\\n");
    s.append("Durbin-Watson & --- & --- & Check \\\\\n");
    s.append("Breusch-Pagan & --- & --- & Check \\\\\n");
    s.append("RESET & --- & --- & Check \\\\\n");
    s.append("White & --- & --- & Check \\\\\n");
    s.append("Jarque-Bera & --- & --- & Check \\\\\n");
    s.append("\\bottomrule\n\\end{tabular}\n");
    s.append(wrap_table_end(title.as_str()));
    s
}

/// One hypothesis test as the test table reads it.
pub struct TestRow {
    /// The `name` entry (a string is shown escaped, anything else as `---`).
    pub name: OptValue,
    /// The statistic, written as text.
    pub stat: String,
    /// The `df` entry (an integer, or a floating-point value held truncated).
    pub df: OptValue,
    /// The p-value, written as text.
    pub p: String,
    /// The stars of the p-value.
    pub stars: String,
}

/// How a test's name is shown.
pub open spec fn test_name_text(v: OptValue) -> Seq<char> {
    match v {
        OptValue::Str(s) => spec_esc(s@),
        _ => "---"@,
    }
}

/// How a test's degrees of freedom are shown.
pub open spec fn test_df_text(v: OptValue) -> Seq<char> {
    match v {
        OptValue::Int(i) => int_decimal(i as int),
        OptValue::Float(t) => int_decimal(t as int),
        _ => Seq::empty(),
    }
}

/// The line of one test.
pub open spec fn test_line(t: TestRow) -> Seq<char> {
    tex_line(seq![test_name_text(t.name), t.stat@, test_df_text(t.df), t.p@ + t.stars@])
}

/// The lines of the tests, skipping the entries that are not dictionaries.
pub open spec fn test_lines(rows: Seq<Option<TestRow>>) -> Seq<char>
    decreases rows.len(),
{
    if rows.len() == 0 {
        Seq::empty()
    } else {
        test_lines(rows.drop_last()) + match rows.last() {
            Some(t) => test_line(t),
            None => Seq::empty(),
        }
    }
}

/// The test table.
pub open spec fn tests_text(rows: Seq<Option<TestRow>>, title: Seq<char>, label: Seq<char>) -> Seq<
    char,
> {
    tabular_open(title, label, "lrll"@) + "Test & Statistic & df & p-value \\\\\n\\midrule\n"@
        + test_lines(rows) + tabular_close(title) + latex_legend()
}

/// Generic hypothesis test table; `None` stands for an entry that is not a
/// dictionary, which is left out.
/// Options: title (default empty: no `table` environment), label.
pub fn tests(rows: &Vec<Option<TestRow>>, opts: &Opts) -> (res: String)
    ensures
        res@ == tests_text(
            rows@,
            opt_str_value(*opts, "title"@, ""@),
            opt_str_value(*opts, "label"@, ""@),
        ),
{
    let title = opt_str(opts, "title", "");
    let label = opt_str(opts, "label", "");
    let mut s = String::new();
    push_table_open(&mut s, title.as_str(), label.as_str());
    s.append("\\begin{tabular}{");
    s.append("lrll");
    s.append("}\n\\toprule\n");
    s.append("Test & Statistic & df & p-value \\\\\n\\midrule\n");
    let ghost start = s@;
    let n = rows.len();
    let mut i: usize = 0;
    while i < n
        invariant
            n == rows@.len(),
            i <= n,
            s@ == start + test_lines(rows@.take(i as int)),
        decreases n - i,
    {
        proof {
            assert(rows@.take(i + 1).drop_last() == rows@.take(i as int));
        }
        match &rows[i] {
            Some(t) => {
                let name = match &t.name {
                    OptValue::Str(x) => crate::helpers::esc(x.as_str()),
                    _ => String::from_str("---"),
                };
                let mut df = String::new();
                match &t.df {
                    OptValue::Int(v) => push_int(&mut df, *v),
                    OptValue::Float(v) => push_int(&mut df, *v),
                    _ => {},
                }
                let mut p = t.p.clone();
                p.append(t.stars.as_str());
                let cells = vec![name, t.stat.clone(), df, p];
                proof {
                    assert(texts(cells@) =~= seq![
                        test_name_text(t.name),
                        t.stat@,
                        test_df_text(t.df),
                        t.p@ + t.stars@,
                    ]);
                }
                push_tex_line(&mut s, cells.as_slice());
            },
            None => {},
        }
        i += 1;
    }
    proof {
        assert(rows@.take(n as int) == rows@);
    }
    s.append("\\bottomrule\n\\end{tabular}\n");
    s.append(wrap_table_end(title.as_str()));
    s.append(crate::helpers::star_legend());
    s
}

/// The analysis-of-variance figures, written as text.
pub struct AnovaCells {
    pub ss_model: String,
    pub ms_model: String,
    pub f_stat: String,
    pub prob_f: String,
    pub ss_resid: String,
    pub ms_resid: String,
    pub ss_total: String,
}

/// The ANOVA table for `n` observations and `k` coefficients: the model has
/// `k - 1` degrees of freedom, the residual `n - k`, the total `n - 1`.
pub open spec fn anova_text(
    n: int,
    k: int,
    c: AnovaCells,
    title: Seq<char>,
    label: Seq<char>,
) -> Seq<char> {
    tabular_open(title, label, "lrrrrr"@) + "Source & SS & df & MS & F & p \\\\\n\\midrule\n"@
        + tex_line(seq!["Model"@, c.ss_model@, int_decimal(k - 1), c.ms_model@, c.f_stat@, c.prob_f@])
        + "Residual & "@ + c.ss_resid@ + " & "@ + int_decimal(n - k) + " & "@ + c.ms_resid@
        + " & & \\\\\n"@ + "\\midrule\n"@ + "Total & "@ + c.ss_total@ + " & "@ + int_decimal(n - 1)
        + " & & & \\\\\n"@ + tabular_close(title)
}

/// ANOVA table: Source, SS, df, MS, F, p.
/// Options: title (default empty: no `table` environment), label.
pub fn anova(n: i64, k: usize, cells: &AnovaCells, opts: &Opts) -> (res: String)
    requires
        k <= i64::MAX,
        n - k >= i64::MIN,
        n > i64::MIN,
    ensures
        res@ == anova_text(
            n as int,
            k as int,
            *cells,
            opt_str_value(*opts, "title"@, ""@),
            opt_str_value(*opts, "label"@, ""@),
        ),
{
    let title = opt_str(opts, "title", "");
    let label = opt_str(opts, "label", "");
    let k = k as i64;
    let df_model = k - 1;
    let df_resid = n - k;
    let mut s = String::new();
    push_table_open(&mut s, title.as_str(), label.as_str());
    s.append("\\begin{tabular}{");
    s.append("lrrrrr");
    s.append("}\n\\toprule\n");
    s.append("Source & SS & df & MS & F & p \\\\\n\\midrule\n");
    let mut dfm = String::new();
    push_int(&mut dfm, df_model);
    let row = vec![
        String::from_str("Model"),
        cells.ss_model.clone(),
        dfm,
        cells.ms_model.clone(),
        cells.f_stat.clone(),
        cells.prob_f.clone(),
    ];
    proof {
        assert(texts(row@) =~= seq![
            "Model"@,
            cells.ss_model@,
            int_decimal(k - 1),
            cells.ms_model@,
            cells.f_stat@,
            cells.prob_f@,
        ]);
    }
    push_tex_line(&mut s, row.as_slice());
    s.append("Residual & ");
    s.append(cells.ss_resid.as_str());
    s.append(" & ");
    push_int(&mut s, df_resid);
    s.append(" & ");
    s.append(cells.ms_resid.as_str());
    s.append(" & & \\\\\n");
    s.append("\\midrule\n");
    s.append("Total & ");
    s.append(cells.ss_total.as_str());
    s.append(" & ");
    push_int(&mut s, n - 1);
    s.append(" & & & \\\\\n");
    s.append("\\bottomrule\n\\end{tabular}\n");
    s.append(wrap_table_end(title.as_str()));
    s
}


/// One estimated model as the regression table reads it: its variables and,
/// for each, the coefficient, its standard error and its stars, written as
/// text; and its fit statistics by name, written as text.
pub struct RegModel {
    pub variables: Vec<String>,
    pub coef: Vec<String>,
    pub se: Vec<String>,
    pub stars: Vec<String>,
    pub stats: Vec<(String, String)>,
}

impl RegModel {
    /// The variable the model finds for `v`, if any, has its coefficient,
    /// standard error and stars.
    pub open spec fn covers(self, v: Seq<char>) -> bool {
        first_match(names(self.variables@), v) matches Some(i) ==> {
            &&& i < self.coef@.len()
            &&& i < self.se@.len()
            &&& i < self.stars@.len()
        }
    }
}

/// The names of all variables of all models, model after model.
pub open spec fn all_names(models: Seq<RegModel>) -> Seq<Seq<char>>
    decreases models.len(),
{
    if models.len() == 0 {
        Seq::empty()
    } else {
        all_names(models.drop_last()) + names(models.last().variables@)
    }
}

/// Every model has the figures of each variable it finds among the
/// variables of all models.
pub open spec fn lookups_in_range(models: Seq<RegModel>) -> bool {
    forall|j: int, v: Seq<char>|
        0 <= j < models.len() && all_names(models).contains(v) ==> #[trigger] models[j].covers(v)
}

/// `s` with each item kept only where it occurs first.
pub open spec fn first_occurrences(s: Seq<Seq<char>>) -> Seq<Seq<char>>
    decreases s.len(),
{
    if s.len() == 0 {
        Seq::empty()
    } else {
        let d = first_occurrences(s.drop_last());
        if d.contains(s.last()) {
            d
        } else {
            d.push(s.last())
        }
    }
}

/// How a variable is named in the table: `Constant` for the constant, else
/// its label when it has one, else its own name; labels and names escaped.
pub open spec fn display_name(v: Seq<char>, labels: Seq<(Seq<char>, Seq<char>)>) -> Seq<char> {
    if v == "_cons"@ || v == "const"@ {
        "Constant"@
    } else {
        match label_of(labels, v) {
            Some(l) => spec_esc(l),
            None => spec_esc(v),
        }
    }
}

/// The coefficient cell of a model for variable `v` (empty when the model
/// has no such variable).
pub open spec fn coef_cell(md: RegModel, v: Seq<char>, show_stars: bool) -> Seq<char> {
    match first_match(names(md.variables@), v) {
        Some(i) => md.coef@[i]@ + shown_if(show_stars, md.stars@[i]@),
        None => Seq::empty(),
    }
}

/// The standard-error cell of a model for variable `v`, in parentheses.
pub open spec fn se_cell(md: RegModel, v: Seq<char>) -> Seq<char> {
    match first_match(names(md.variables@), v) {
        Some(i) => "("@ + md.se@[i]@ + ")"@,
        None => Seq::empty(),
    }
}

/// The lines of one variable: its coefficients, then (when shown) its
/// standard errors.
pub open spec fn var_block(
    models: Seq<RegModel>,
    labels: Seq<(Seq<char>, Seq<char>)>,
    v: Seq<char>,
    show_stars: bool,
    show_se: bool,
) -> Seq<char> {
    display_name(v, labels) + " & "@ + join_seq(
        Seq::new(models.len(), |j: int| coef_cell(models[j], v, show_stars)),
        " & "@,
    ) + " \\\\\n"@ + shown_if(
        show_se,
        " & "@ + join_seq(Seq::new(models.len(), |j: int| se_cell(models[j], v)), " & "@)
            + " \\\\\n"@,
    )
}

pub open spec fn var_blocks(
    models: Seq<RegModel>,
    labels: Seq<(Seq<char>, Seq<char>)>,
    vars: Seq<Seq<char>>,
    show_stars: bool,
    show_se: bool,
) -> Seq<char>
    decreases vars.len(),
{
    if vars.len() == 0 {
        Seq::empty()
    } else {
        var_blocks(models, labels, vars.drop_last(), show_stars, show_se) + var_block(
            models,
            labels,
            vars.last(),
            show_stars,
            show_se,
        )
    }
}

/// The text of the first statistic named `key`.
pub open spec fn stat_of(stats: Seq<(String, String)>, key: Seq<char>) -> Option<Seq<char>>
    decreases stats.len(),
{
    if stats.len() == 0 {
        None
    } else if stats[0].0@ == key {
        Some(stats[0].1@)
    } else {
        stat_of(stats.drop_first(), key)
    }
}

/// The cell of a model for a statistic (empty when the model lacks it).
pub open spec fn stat_cell(md: RegModel, st: Seq<char>) -> Seq<char> {
    match stat_of(md.stats@, st) {
        Some(t) => t,
        None => Seq::empty(),
    }
}

pub open spec fn stat_line(models: Seq<RegModel>, st: Seq<char>) -> Seq<char> {
    stat_label_text(st) + " & "@ + join_seq(
        Seq::new(models.len(), |j: int| stat_cell(models[j], st)),
        " & "@,
    ) + " \\\\\n"@
}

pub open spec fn stat_lines(models: Seq<RegModel>, stats: Seq<Seq<char>>) -> Seq<char>
    decreases stats.len(),
{
    if stats.len() == 0 {
        Seq::empty()
    } else {
        stat_lines(models, stats.drop_last()) + stat_line(models, stats.last())
    }
}

/// The column heads `(1)`, `(2)`, … for `n` models.
pub open spec fn model_heads(n: nat) -> Seq<Seq<char>> {
    Seq::new(n, |i: int| "("@ + decimal((i + 1) as nat) + ")"@)
}

/// The statistics shown: those asked for, else observations and R².
pub open spec fn stats_shown(stats: Option<Seq<Seq<char>>>) -> Seq<Seq<char>> {
    match stats {
        Some(s) => s,
        None => seq!["n"@, "r2"@],
    }
}

/// The regression table.
pub open spec fn regression_text(
    models: Seq<RegModel>,
    stats: Seq<Seq<char>>,
    labels: Seq<(Seq<char>, Seq<char>)>,
    title: Seq<char>,
    label: Seq<char>,
    show_stars: bool,
    show_se: bool,
) -> Seq<char> {
    if models.len() == 0 {
        "% Error: no valid models"@
    } else {
        tabular_open(title, label, "l"@ + repeat_seq("c"@, models.len())) + " & "@ + join_seq(
            model_heads(models.len()),
            " & "@,
        ) + " \\\\\n\\midrule\n"@ + var_blocks(
            models,
            labels,
            first_occurrences(all_names(models)),
            show_stars,
            show_se,
        ) + "\\midrule\n"@ + stat_lines(models, stats) + tabular_close(title) + shown_if(
            show_stars,
            latex_legend(),
        )
    }
}

/// Whether `v` is among `seen`.
fn seen_before(seen: &Vec<String>, v: &str) -> (res: bool)
    ensures
        res == texts(seen@).contains(v@),
{
    let n = seen.len();
    let mut i: usize = 0;
    while i < n
        invariant
            n == seen@.len(),
            i <= n,
            forall|j: int| 0 <= j < i ==> seen@[j]@ != v@,
        decreases n - i,
    {
        if same_text(seen[i].as_str(), v) {
            proof {
                assert(texts(seen@)[i as int] == v@);
            }
            return true;
        }
        i += 1;
    }
    false
}

/// The variables of all models, each once, in the order of first appearance.
fn collect_vars(models: &Vec<RegModel>) -> (res: Vec<String>)
    ensures
        texts(res@) == first_occurrences(all_names(models@)),
{
    let mut seen: Vec<String> = Vec::new();
    let m = models.len();
    let mut k: usize = 0;
    while k < m
        invariant
            m == models@.len(),
            k <= m,
            texts(seen@) == first_occurrences(all_names(models@.take(k as int))),
        decreases m - k,
    {
        let vars = &models[k].variables;
        let n = vars.len();
        let mut i: usize = 0;
        proof {
            assert(all_names(models@.take(k as int)) + names(vars@.take(0)) == all_names(
                models@.take(k as int),
            ));
        }
        while i < n
            invariant
                m == models@.len(),
                k < m,
                vars == models@[k as int].variables,
                n == vars@.len(),
                i <= n,
                texts(seen@) == first_occurrences(
                    all_names(models@.take(k as int)) + names(vars@.take(i as int)),
                ),
            decreases n - i,
        {
            let ghost pre = all_names(models@.take(k as int)) + names(vars@.take(i as int));
            proof {
                assert((all_names(models@.take(k as int)) + names(vars@.take(i + 1))).drop_last()
                    == pre);
                assert((all_names(models@.take(k as int)) + names(vars@.take(i + 1))).last()
                    == vars@[i as int]@);
            }
            if !seen_before(&seen, vars[i].as_str()) {
                seen.push(vars[i].clone());
                proof {
                    assert(texts(seen@) =~= first_occurrences(pre).push(vars@[i as int]@));
                }
            }
            i += 1;
        }
        proof {
            assert(vars@.take(n as int) == vars@);
            assert(models@.take(k + 1).drop_last() == models@.take(k as int));
        }
        k += 1;
    }
    proof {
        assert(models@.take(m as int) == models@);
    }
    seen
}

fn display_name_of(v: &str, labels: &Labels) -> (res: String)
    ensures
        res@ == display_name(v@, labels@),
{
    if same_text(v, "_cons") || same_text(v, "const") {
        String::from_str("Constant")
    } else {
        match labels.get(v) {
            Some(l) => crate::helpers::esc(l.as_str()),
            None => crate::helpers::esc(v),
        }
    }
}

fn push_var_block(
    out: &mut String,
    models: &Vec<RegModel>,
    labels: &Labels,
    v: &str,
    show_stars: bool,
    show_se: bool,
)
    requires
        forall|j: int| 0 <= j < models@.len() ==> (#[trigger] models@[j]).covers(v@),
    ensures
        final(out)@ == old(out)@ + var_block(models@, labels@, v@, show_stars, show_se),
{
    let m = models.len();
    let mut coef_row: Vec<String> = Vec::new();
    let mut se_row: Vec<String> = Vec::new();
    let mut j: usize = 0;
    while j < m
        invariant
            m == models@.len(),
            j <= m,
            forall|q: int| 0 <= q < models@.len() ==> (#[trigger] models@[q]).covers(v@),
            coef_row@.len() == j,
            se_row@.len() == j,
            forall|q: int|
                0 <= q < j ==> #[trigger] coef_row@[q]@ == coef_cell(models@[q], v@, show_stars),
            forall|q: int| 0 <= q < j ==> #[trigger] se_row@[q]@ == se_cell(models@[q], v@),
        decreases m - j,
    {
        let md = &models[j];
        proof {
            assert(md.covers(v@));
        }
        match find_in(&md.variables, v) {
            Some(idx) => {
                proof {
                    crate::models::lemma_first_match_from(names(md.variables@), v@, 0);
                }
                let mut c = md.coef[idx].clone();
                if show_stars {
                    c.append(md.stars[idx].as_str());
                }
                coef_row.push(c);
                let mut e = String::new();
                e.append("(");
                e.append(md.se[idx].as_str());
                e.append(")");
                se_row.push(e);
            },
            None => {
                coef_row.push(String::new());
                se_row.push(String::new());
            },
        }
        j += 1;
    }
    proof {
        assert(texts(coef_row@) =~= Seq::new(
            models@.len(),
            |q: int| coef_cell(models@[q], v@, show_stars),
        ));
        assert(texts(se_row@) =~= Seq::new(models@.len(), |q: int| se_cell(models@[q], v@)));
    }
    let d = display_name_of(v, labels);
    out.append(d.as_str());
    out.append(" & ");
    push_joined(out, coef_row.as_slice(), " & ");
    out.append(" \\\\\n");
    if show_se {
        out.append(" & ");
        push_joined(out, se_row.as_slice(), " & ");
        out.append(" \\\\\n");
    }
}

fn find_stat(stats: &Vec<(String, String)>, key: &str) -> (res: Option<usize>)
    ensures
        match res {
            Some(i) => i < stats@.len() && stat_of(stats@, key@) == Some(stats@[i as int].1@),
            None => stat_of(stats@, key@) is None,
        },
{
    let n = stats.len();
    let mut i: usize = 0;
    proof {
        assert(stats@.skip(0) == stats@);
    }
    while i < n
        invariant
            n == stats@.len(),
            i <= n,
            stat_of(stats@, key@) == stat_of(stats@.skip(i as int), key@),
        decreases n - i,
    {
        proof {
            assert(stats@.skip(i as int).drop_first() == stats@.skip(i + 1));
            assert(stats@.skip(i as int)[0] == stats@[i as int]);
        }
        if same_text(stats[i].0.as_str(), key) {
            return Some(i);
        }
        i += 1;
    }
    None
}

fn push_stat_line(out: &mut String, models: &Vec<RegModel>, st: &str)
    ensures
        final(out)@ == old(out)@ + stat_line(models@, st@),
{
    let m = models.len();
    let mut row: Vec<String> = Vec::new();
    let mut j: usize = 0;
    while j < m
        invariant
            m == models@.len(),
            j <= m,
            row@.len() == j,
            forall|q: int| 0 <= q < j ==> #[trigger] row@[q]@ == stat_cell(models@[q], st@),
        decreases m - j,
    {
        match find_stat(&models[j].stats, st) {
            Some(i) => row.push(models[j].stats[i].1.clone()),
            None => row.push(String::new()),
        }
        j += 1;
    }
    proof {
        assert(texts(row@) =~= Seq::new(models@.len(), |q: int| stat_cell(models@[q], st@)));
    }
    let l = stat_label(st);
    out.append(l.as_str());
    out.append(" & ");
    push_joined(out, row.as_slice(), " & ");
    out.append(" \\\\\n");
}

fn push_var_blocks(
    out: &mut String,
    models: &Vec<RegModel>,
    labels: &Labels,
    vars: &Vec<String>,
    show_stars: bool,
    show_se: bool,
)
    requires
        forall|j: int, k: int|
            0 <= j < models@.len() && 0 <= k < vars@.len() ==> #[trigger] models@[j].covers(
                #[trigger] vars@[k]@,
            ),
    ensures
        final(out)@ == old(out)@ + var_blocks(models@, labels@, texts(vars@), show_stars, show_se),
{
    let nv = vars.len();
    let mut k: usize = 0;
    while k < nv
        invariant
            nv == vars@.len(),
            k <= nv,
            forall|j: int, q: int|
                0 <= j < models@.len() && 0 <= q < vars@.len() ==> #[trigger] models@[j].covers(
                    #[trigger] vars@[q]@,
                ),
            out@ == old(out)@ + var_blocks(
                models@,
                labels@,
                texts(vars@.take(k as int)),
                show_stars,
                show_se,
            ),
        decreases nv - k,
    {
        proof {
            assert(texts(vars@.take(k + 1)).drop_last() == texts(vars@.take(k as int)));
            assert forall|j: int| 0 <= j < models@.len() implies (#[trigger] models@[j]).covers(
                vars@[k as int]@,
            ) by {}
        }
        push_var_block(out, models, labels, vars[k].as_str(), show_stars, show_se);
        k += 1;
    }
    proof {
        assert(vars@.take(nv as int) == vars@);
    }
}

fn push_stat_lines(out: &mut String, models: &Vec<RegModel>, stats: &Vec<String>)
    ensures
        final(out)@ == old(out)@ + stat_lines(models@, texts(stats@)),
{
    let ns = stats.len();
    let mut k: usize = 0;
    while k < ns
        invariant
            ns == stats@.len(),
            k <= ns,
            out@ == old(out)@ + stat_lines(models@, texts(stats@.take(k as int))),
        decreases ns - k,
    {
        proof {
            assert(texts(stats@.take(k + 1)).drop_last() == texts(stats@.take(k as int)));
        }
        push_stat_line(out, models, stats[k].as_str());
        k += 1;
    }
    proof {
        assert(stats@.take(ns as int) == stats@);
    }
}

fn model_heads_of(n: usize) -> (res: Vec<String>)
    ensures
        texts(res@) == model_heads(n as nat),
{
    let mut heads: Vec<String> = Vec::new();
    let mut i: usize = 0;
    while i < n
        invariant
            i <= n,
            heads@.len() == i,
            forall|q: int|
                0 <= q < i ==> #[trigger] heads@[q]@ == "("@ + decimal((q + 1) as nat) + ")"@,
        decreases n - i,
    {
        let mut h = String::new();
        h.append("(");
        push_decimal(&mut h, i as u64 + 1);
        h.append(")");
        heads.push(h);
        i += 1;
    }
    proof {
        assert(texts(heads@) =~= model_heads(n as nat));
    }
    heads
}

fn render_regression(
    models: &Vec<RegModel>,
    stats: &Vec<String>,
    labels: &Labels,
    title: &str,
    label: &str,
    show_stars: bool,
    show_se: bool,
) -> (res: String)
    requires
        lookups_in_range(models@),
    ensures
        res@ == regression_text(
            models@,
            texts(stats@),
            labels@,
            title@,
            label@,
            show_stars,
            show_se,
        ),
{
    let nmodels = models.len();
    if nmodels == 0 {
        return String::from_str("% Error: no valid models");
    }
    let all_vars = collect_vars(models);
    proof {
        lemma_first_occurrences(all_names(models@));
        assert forall|j: int, k: int|
            0 <= j < models@.len() && 0 <= k < all_vars@.len() implies #[trigger] models@[j].covers(
            #[trigger] all_vars@[k]@,
        ) by {
            assert(texts(all_vars@)[k] == all_vars@[k]@);
            assert(first_occurrences(all_names(models@)).contains(all_vars@[k]@));
        }
    }
    let mut s = String::new();
    push_table_open(&mut s, title, label);
    s.append("\\begin{tabular}{");
    let mut cols = String::from_str("l");
    let cs = crate::helpers::repeat("c", nmodels);
    cols.append(cs.as_str());
    s.append(cols.as_str());
    s.append("}\n\\toprule\n");
    let heads = model_heads_of(nmodels);
    s.append(" & ");
    push_joined(&mut s, heads.as_slice(), " & ");
    s.append(" \\\\\n\\midrule\n");
    push_var_blocks(&mut s, models, labels, &all_vars, show_stars, show_se);
    s.append("\\midrule\n");
    push_stat_lines(&mut s, models, stats);
    s.append("\\bottomrule\n\\end{tabular}\n");
    s.append(wrap_table_end(title));
    if show_stars {
        s.append(crate::helpers::star_legend());
    }
    s
}

/// Multiple models side by side: coefficients with stars, standard errors in
/// parentheses, and fit statistics (`stats`, by default observations and R²).
/// Options: title, label, labels (variable → display label), stars (default
/// true), se (default true).
pub fn regression(models: &Vec<RegModel>, stats: Option<Vec<String>>, opts: &Opts) -> (res: String)
    requires
        lookups_in_range(models@),
    ensures
        res@ == regression_text(
            models@,
            stats_shown(
                match stats {
                    Some(v) => Some(texts(v@)),
                    None => None,
                },
            ),
            opt_labels_value(*opts, "labels"@),
            opt_str_value(*opts, "title"@, ""@),
            opt_str_value(*opts, "label"@, ""@),
            opt_bool_value(*opts, "stars"@, true),
            opt_bool_value(*opts, "se"@, true),
        ),
{
    let show_stars = opt_bool(opts, "stars", true);
    let show_se = opt_bool(opts, "se", true);
    let title = opt_str(opts, "title", "");
    let label = opt_str(opts, "label", "");
    let var_labels = opt_labels(opts, "labels");
    let stats_list = match stats {
        Some(v) => v,
        None => vec![String::from_str("n"), String::from_str("r2")],
    };
    proof {
        assert(texts(stats_list@) =~= stats_shown(
            match stats {
                Some(v) => Some(texts(v@)),
                None => None,
            },
        ));
    }
    render_regression(
        models,
        &stats_list,
        &var_labels,
        title.as_str(),
        label.as_str(),
        show_stars,
        show_se,
    )
}


/// The figures of a correlation matrix, written as text: `r[i][j]` is the
/// coefficient of variables `i` and `j`, `tstars[i][j]` the stars of its
/// t-statistic, and `n` the number of observations.
pub struct CorCells {
    pub r: Vec<Vec<String>>,
    pub tstars: Vec<Vec<String>>,
    pub n: usize,
}

impl CorCells {
    /// Both matrices hold at least `k` rows of at least `k` cells.
    pub open spec fn covers(self, k: nat) -> bool {
        &&& self.r@.len() >= k
        &&& self.tstars@.len() >= k
        &&& forall|i: int| 0 <= i < k ==> #[trigger] self.r@[i]@.len() >= k
        &&& forall|i: int| 0 <= i < k ==> #[trigger] self.tstars@[i]@.len() >= k
    }
}

/// A cell of the lower triangle: empty above the diagonal; below it the
/// coefficient with its stars when there are more than two observations.
pub open spec fn cor_cell(c: CorCells, i: int, j: int) -> Seq<char> {
    if j > i {
        Seq::empty()
    } else {
        c.r@[i]@[j]@ + shown_if(i != j && c.n > 2, c.tstars@[i]@[j]@)
    }
}

pub open spec fn cor_row(c: CorCells, vars: Seq<Seq<char>>, i: int) -> Seq<Seq<char>> {
    seq!["("@ + decimal((i + 1) as nat) + ") "@ + spec_esc(vars[i])] + Seq::new(
        vars.len(),
        |j: int| cor_cell(c, i, j),
    )
}

pub open spec fn cor_lines(c: CorCells, vars: Seq<Seq<char>>, k: int) -> Seq<char>
    decreases k,
{
    if k <= 0 {
        Seq::empty()
    } else {
        cor_lines(c, vars, k - 1) + tex_line(cor_row(c, vars, k - 1))
    }
}

/// The correlation table, or the error when not every column was found.
pub open spec fn correlation_text(
    vars: Seq<Seq<char>>,
    cells: Option<CorCells>,
    title: Seq<char>,
    label: Seq<char>,
) -> Seq<char> {
    match cells {
        None => "% Error: could not extract all "@ + decimal(vars.len()) + " columns"@,
        Some(c) => tabular_open(title, label, "l"@ + repeat_seq("c"@, vars.len())) + tex_line(
            seq![Seq::<char>::empty()] + model_heads(vars.len()),
        ) + "\\midrule\n"@ + cor_lines(c, vars, vars.len() as int) + tabular_close(title)
            + latex_legend(),
    }
}

fn cor_row_of(c: &CorCells, vars: &Vec<String>, i: usize) -> (res: Vec<String>)
    requires
        i < vars@.len(),
        c.covers(vars@.len()),
    ensures
        texts(res@) == cor_row(*c, texts(vars@), i as int),
{
    let nv = vars.len();
    let mut first = String::from_str("(");
    push_decimal(&mut first, i as u64 + 1);
    first.append(") ");
    let e = crate::helpers::esc(vars[i].as_str());
    first.append(e.as_str());
    let mut row: Vec<String> = vec![first];
    let mut j: usize = 0;
    while j < nv
        invariant
            nv == vars@.len(),
            i < nv,
            c.covers(nv as nat),
            j <= nv,
            row@.len() == j + 1,
            row@[0]@ == "("@ + decimal((i + 1) as nat) + ") "@ + spec_esc(vars@[i as int]@),
            forall|q: int| 0 <= q < j ==> #[trigger] row@[q + 1]@ == cor_cell(*c, i as int, q),
        decreases nv - j,
    {
        proof {
            assert(c.r@[i as int]@.len() >= nv);
            assert(c.tstars@[i as int]@.len() >= nv);
        }
        if j > i {
            row.push(String::new());
        } else {
            let mut cell = c.r[i][j].clone();
            if i != j && c.n > 2 {
                cell.append(c.tstars[i][j].as_str());
            }
            row.push(cell);
        }
        j += 1;
    }
    proof {
        let want = cor_row(*c, texts(vars@), i as int);
        assert forall|k: int| 0 <= k < row@.len() implies #[trigger] texts(row@)[k] == want[k] by {
            if k > 0 {
                let q = k - 1;
                assert(row@[q + 1]@ == cor_cell(*c, i as int, q));
            }
        }
        assert(texts(row@) =~= want);
    }
    row
}

/// Lower-triangular correlation matrix with significance stars; `cells` is
/// `None` when some of `vars` is not a numeric column.
/// Options: title, label.
pub fn correlation(vars: &Vec<String>, cells: Option<CorCells>, opts: &Opts) -> (res: String)
    requires
        cells matches Some(c) ==> vars@.len() > 0 && c.covers(vars@.len()),
    ensures
        res@ == correlation_text(
            texts(vars@),
            cells,
            opt_str_value(*opts, "title"@, ""@),
            opt_str_value(*opts, "label"@, ""@),
        ),
{
    let title = opt_str(opts, "title", "");
    let label = opt_str(opts, "label", "");
    let nvars = vars.len();
    match cells {
        None => {
            let mut s = String::from_str("% Error: could not extract all ");
            push_decimal(&mut s, nvars as u64);
            s.append(" columns");
            s
        },
        Some(c) => {
            let mut s = String::new();
            push_table_open(&mut s, title.as_str(), label.as_str());
            s.append("\\begin{tabular}{");
            let mut cols = String::from_str("l");
            let cs = crate::helpers::repeat("c", nvars);
            cols.append(cs.as_str());
            s.append(cols.as_str());
            s.append("}\n\\toprule\n");
            let mut hdr = vec![String::new()];
            let mut heads = model_heads_of(nvars);
            hdr.append(&mut heads);
            proof {
                assert(texts(hdr@) =~= seq![Seq::<char>::empty()] + model_heads(nvars as nat));
            }
            push_tex_line(&mut s, hdr.as_slice());
            s.append("\\midrule\n");
            let ghost start = s@;
            let mut i: usize = 0;
            while i < nvars
                invariant
                    nvars == vars@.len(),
                    c.covers(nvars as nat),
                    i <= nvars,
                    s@ == start + cor_lines(c, texts(vars@), i as int),
                decreases nvars - i,
            {
                let row = cor_row_of(&c, vars, i);
                push_tex_line(&mut s, row.as_slice());
                i += 1;
            }
            s.append("\\bottomrule\n\\end{tabular}\n");
            s.append(wrap_table_end(title.as_str()));
            s.append(crate::helpers::star_legend());
            s
        },
    }
}

/// The descriptive statistics of one column, written as text; `n` counts
/// its values that are not missing.
pub struct ColumnSummary {
    pub n: usize,
    pub mean: String,
    pub sd: String,
    pub min: String,
    pub p25: String,
    pub p50: String,
    pub max: String,
}

/// The line of one variable: an error comment when it is not a numeric
/// column, dashes when it has no values, else its statistics.
pub open spec fn summary_line(v: Seq<char>, c: Option<ColumnSummary>) -> Seq<char> {
    match c {
        None => "% Error: column '"@ + v + "' not found or not numeric\n"@,
        Some(c) => if c.n == 0 {
            spec_esc(v) + " & 0 & --- & --- & --- & --- & --- & --- \\\\\n"@
        } else {
            tex_line(
                seq![
                    spec_esc(v),
                    decimal(c.n as nat),
                    c.mean@,
                    c.sd@,
                    c.min@,
                    c.p25@,
                    c.p50@,
                    c.max@,
                ],
            )
        },
    }
}

pub open spec fn summary_lines(vars: Seq<Seq<char>>, cols: Seq<Option<ColumnSummary>>, k: int) -> Seq<
    char,
>
    decreases k,
{
    if k <= 0 {
        Seq::empty()
    } else {
        summary_lines(vars, cols, k - 1) + summary_line(vars[k - 1], cols[k - 1])
    }
}

/// The descriptive statistics table.
pub open spec fn summary_text(
    vars: Seq<Seq<char>>,
    cols: Seq<Option<ColumnSummary>>,
    title: Seq<char>,
    label: Seq<char>,
) -> Seq<char> {
    tabular_open(title, label, "lrrrrrrr"@)
        + "Variable & N & Mean & Std.~Dev. & Min & p25 & p50 & Max \\\\\n\\midrule\n"@
        + summary_lines(vars, cols, vars.len() as int) + tabular_close(title)
}

fn push_summary_line(out: &mut String, v: &str, c: &Option<ColumnSummary>)
    ensures
        final(out)@ == old(out)@ + summary_line(v@, *c),
{
    match c {
        None => {
            out.append("% Error: column '");
            out.append(v);
            out.append("' not found or not numeric\n");
        },
        Some(c) => {
            if c.n == 0 {
                let e = crate::helpers::esc(v);
                out.append(e.as_str());
                out.append(" & 0 & --- & --- & --- & --- & --- & --- \\\\\n");
            } else {
                let cells = vec![
                    crate::helpers::esc(v),
                    crate::text::usize_text(c.n),
                    c.mean.clone(),
                    c.sd.clone(),
                    c.min.clone(),
                    c.p25.clone(),
                    c.p50.clone(),
                    c.max.clone(),
                ];
                proof {
                    assert(texts(cells@) =~= seq![
                        spec_esc(v@),
                        decimal(c.n as nat),
                        c.mean@,
                        c.sd@,
                        c.min@,
                        c.p25@,
                        c.p50@,
                        c.max@,
                    ]);
                }
                push_tex_line(out, cells.as_slice());
            }
        },
    }
}

/// Descriptive statistics table (N, Mean, Std. Dev., Min, p25, p50, Max);
/// `cols[i]` holds the statistics of `vars[i]`, `None` when it is not a
/// numeric column.
/// Options: title, label.
pub fn summary(vars: &Vec<String>, cols: &Vec<Option<ColumnSummary>>, opts: &Opts) -> (res: String)
    requires
        cols@.len() >= vars@.len(),
    ensures
        res@ == summary_text(
            texts(vars@),
            cols@,
            opt_str_value(*opts, "title"@, ""@),
            opt_str_value(*opts, "label"@, ""@),
        ),
{
    let title = opt_str(opts, "title", "");
    let label = opt_str(opts, "label", "");
    let mut s = String::new();
    push_table_open(&mut s, title.as_str(), label.as_str());
    s.append("\\begin{tabular}{");
    s.append("lrrrrrrr");
    s.append("}\n\\toprule\n");
    s.append("Variable & N & Mean & Std.~Dev. & Min & p25 & p50 & Max \\\\\n\\midrule\n");
    let ghost start = s@;
    let n = vars.len();
    let mut i: usize = 0;
    while i < n
        invariant
            n == vars@.len(),
            cols@.len() >= n,
            i <= n,
            s@ == start + summary_lines(texts(vars@), cols@, i as int),
        decreases n - i,
    {
        push_summary_line(&mut s, vars[i].as_str(), &cols[i]);
        i += 1;
    }
    s.append("\\bottomrule\n\\end{tabular}\n");
    s.append(wrap_table_end(title.as_str()));
    s
}


/// The cells of one data-frame column: numbers already written as text,
/// strings as they are, or nothing for a column that holds neither.
pub enum ColumnCells {
    Numeric(Vec<String>),
    Text(Vec<String>),
    Absent,
}

/// A named data-frame column.
pub struct FrameColumn {
    pub name: String,
    pub cells: ColumnCells,
}

impl FrameColumn {
    /// The column has a cell in each of the first `n` rows.
    pub open spec fn covers(self, n: nat) -> bool {
        match self.cells {
            ColumnCells::Numeric(v) => v@.len() >= n,
            ColumnCells::Text(v) => v@.len() >= n,
            ColumnCells::Absent => true,
        }
    }
}

/// The cell of a column in row `i`: numbers as written, strings escaped,
/// `---` for a column that holds neither.
pub open spec fn frame_cell(c: FrameColumn, i: int) -> Seq<char> {
    match c.cells {
        ColumnCells::Numeric(v) => v@[i]@,
        ColumnCells::Text(v) => spec_esc(v@[i]@),
        ColumnCells::Absent => "---"@,
    }
}

pub open spec fn frame_lines(cols: Seq<FrameColumn>, k: int) -> Seq<char>
    decreases k,
{
    if k <= 0 {
        Seq::empty()
    } else {
        frame_lines(cols, k - 1) + tex_line(Seq::new(cols.len(), |j: int| frame_cell(cols[j], k - 1)))
    }
}

/// The listing of a data frame with `nrows` rows: a left-aligned first
/// column and right-aligned others, in a `longtable` or a `tabular`.
pub open spec fn frame_text(
    cols: Seq<FrameColumn>,
    nrows: nat,
    caption: Seq<char>,
    label: Seq<char>,
    longtable: bool,
) -> Seq<char> {
    let env = if longtable {
        "longtable"@
    } else {
        "tabular"@
    };
    let ncols = cols.len();
    table_open(caption, label) + "\\begin{"@ + env + "}{"@ + "l"@ + repeat_seq(
        "r"@,
        if ncols > 0 {
            (ncols - 1) as nat
        } else {
            0
        },
    ) + "}\n\\toprule\n"@ + tex_line(Seq::new(ncols, |j: int| spec_esc(cols[j].name@)))
        + "\\midrule\n"@ + frame_lines(cols, nrows as int) + "\\bottomrule\n"@ + "\\end{"@ + env
        + "}\n"@ + table_close(caption)
}

fn frame_row(cols: &Vec<FrameColumn>, i: usize) -> (res: Vec<String>)
    requires
        forall|j: int| 0 <= j < cols@.len() ==> (#[trigger] cols@[j]).covers((i + 1) as nat),
    ensures
        texts(res@) == Seq::new(cols@.len(), |j: int| frame_cell(cols@[j], i as int)),
{
    let n = cols.len();
    let mut row: Vec<String> = Vec::new();
    let mut j: usize = 0;
    while j < n
        invariant
            n == cols@.len(),
            j <= n,
            forall|q: int| 0 <= q < cols@.len() ==> (#[trigger] cols@[q]).covers((i + 1) as nat),
            row@.len() == j,
            forall|q: int| 0 <= q < j ==> #[trigger] row@[q]@ == frame_cell(cols@[q], i as int),
        decreases n - j,
    {
        proof {
            assert(cols@[j as int].covers((i + 1) as nat));
        }
        let cell = match &cols[j].cells {
            ColumnCells::Numeric(v) => v[i].clone(),
            ColumnCells::Text(v) => crate::helpers::esc(v[i].as_str()),
            ColumnCells::Absent => String::from_str("---"),
        };
        row.push(cell);
        j += 1;
    }
    proof {
        assert(texts(row@) =~= Seq::new(cols@.len(), |q: int| frame_cell(cols@[q], i as int)));
    }
    row
}

/// A data frame as a `booktabs` table; `columns` in the order shown, each
/// with at least `nrows` cells.
/// Options: caption, label, longtable (default false).
pub fn table(columns: &Vec<FrameColumn>, nrows: usize, opts: &Opts) -> (res: String)
    requires
        forall|j: int| 0 <= j < columns@.len() ==> (#[trigger] columns@[j]).covers(nrows as nat),
    ensures
        res@ == frame_text(
            columns@,
            nrows as nat,
            opt_str_value(*opts, "caption"@, ""@),
            opt_str_value(*opts, "label"@, ""@),
            opt_bool_value(*opts, "longtable"@, false),
        ),
{
    let caption = opt_str(opts, "caption", "");
    let label = opt_str(opts, "label", "");
    let longtable = opt_bool(opts, "longtable", false);
    let ncols = columns.len();
    let env = if longtable {
        "longtable"
    } else {
        "tabular"
    };
    let mut s = String::new();
    push_table_open(&mut s, caption.as_str(), label.as_str());
    s.append("\\begin{");
    s.append(env);
    s.append("}{");
    s.append("l");
    let rs = crate::helpers::repeat("r", if ncols > 0 { ncols - 1 } else { 0 });
    s.append(rs.as_str());
    s.append("}\n\\toprule\n");
    let mut hdr: Vec<String> = Vec::new();
    let mut j: usize = 0;
    while j < ncols
        invariant
            ncols == columns@.len(),
            j <= ncols,
            hdr@.len() == j,
            forall|q: int| 0 <= q < j ==> #[trigger] hdr@[q]@ == spec_esc(columns@[q].name@),
        decreases ncols - j,
    {
        hdr.push(crate::helpers::esc(columns[j].name.as_str()));
        j += 1;
    }
    proof {
        assert(texts(hdr@) =~= Seq::new(ncols as nat, |q: int| spec_esc(columns@[q].name@)));
    }
    push_tex_line(&mut s, hdr.as_slice());
    s.append("\\midrule\n");
    let ghost start = s@;
    let mut i: usize = 0;
    while i < nrows
        invariant
            i <= nrows,
            forall|q: int| 0 <= q < columns@.len() ==> (#[trigger] columns@[q]).covers(nrows as nat),
            s@ == start + frame_lines(columns@, i as int),
        decreases nrows - i,
    {
        proof {
            assert forall|q: int| 0 <= q < columns@.len() implies (#[trigger] columns@[q]).covers(
                (i + 1) as nat,
            ) by {
                assert(columns@[q].covers(nrows as nat));
            }
        }
        let row = frame_row(columns, i);
        push_tex_line(&mut s, row.as_slice());
        i += 1;
    }
    s.append("\\bottomrule\n");
    s.append("\\end{");
    s.append(env);
    s.append("}\n");
    s.append(wrap_table_end(caption.as_str()));
    s
}

/// The values of one data-frame column as the codebook counts them: the bit
/// patterns of numbers (`None` for a missing number), strings (the empty
/// string is missing), or nothing for a column that holds neither.
pub enum ColumnValues {
    Numeric(Vec<Option<u64>>),
    Text(Vec<String>),
    Absent,
}

/// A named data-frame column for the codebook.
pub struct CodebookColumn {
    pub name: String,
    pub values: ColumnValues,
}

/// How many numbers are missing.
pub open spec fn count_missing_num(s: Seq<Option<u64>>) -> nat
    decreases s.len(),
{
    if s.len() == 0 {
        0
    } else {
        count_missing_num(s.drop_last()) + if s.last() is None {
            1nat
        } else {
            0nat
        }
    }
}

/// How many distinct numbers there are among those not missing.
pub open spec fn distinct_num(s: Seq<Option<u64>>) -> nat
    decreases s.len(),
{
    if s.len() == 0 {
        0
    } else {
        distinct_num(s.drop_last()) + if s.last() is Some && !s.drop_last().contains(s.last()) {
            1nat
        } else {
            0nat
        }
    }
}

/// How many strings are empty.
pub open spec fn count_missing_text(s: Seq<Seq<char>>) -> nat
    decreases s.len(),
{
    if s.len() == 0 {
        0
    } else {
        count_missing_text(s.drop_last()) + if s.last().len() == 0 {
            1nat
        } else {
            0nat
        }
    }
}

/// How many distinct strings there are among those not empty.
pub open spec fn distinct_text(s: Seq<Seq<char>>) -> nat
    decreases s.len(),
{
    if s.len() == 0 {
        0
    } else {
        distinct_text(s.drop_last()) + if s.last().len() > 0 && !s.drop_last().contains(s.last()) {
            1nat
        } else {
            0nat
        }
    }
}

/// The codebook line of a column in a frame of `nrow` rows: name, type,
/// rows, distinct values, missing values.
pub open spec fn codebook_line(c: CodebookColumn, nrow: nat) -> Seq<char> {
    let (unique, missing, kind) = match c.values {
        ColumnValues::Numeric(v) => (distinct_num(v@), count_missing_num(v@), "numeric"@),
        ColumnValues::Text(v) => (distinct_text(texts(v@)), count_missing_text(texts(v@)), "string"@),
        ColumnValues::Absent => (0nat, 0nat, "unknown"@),
    };
    tex_line(seq![spec_esc(c.name@), kind, decimal(nrow), decimal(unique), decimal(missing)])
}

pub open spec fn codebook_lines(cols: Seq<CodebookColumn>, nrow: nat) -> Seq<char>
    decreases cols.len(),
{
    if cols.len() == 0 {
        Seq::empty()
    } else {
        codebook_lines(cols.drop_last(), nrow) + codebook_line(cols.last(), nrow)
    }
}

/// The codebook table.
pub open spec fn codebook_text(
    cols: Seq<CodebookColumn>,
    nrow: nat,
    title: Seq<char>,
    label: Seq<char>,
) -> Seq<char> {
    tabular_open(title, label, "llrrr"@) + "Variable & Type & N & Unique & Missing \\\\\n\\midrule\n"@
        + codebook_lines(cols, nrow) + tabular_close(title)
}

proof fn lemma_contains_push<T>(s: Seq<T>, a: T, x: T)
    ensures
        s.push(a).contains(x) == (s.contains(x) || a == x),
{
    let t = s.push(a);
    if s.contains(x) {
        let k = choose|k: int| 0 <= k < s.len() && s[k] == x;
        assert(t[k] == x);
    }
    if a == x {
        assert(t[s.len() as int] == x);
    }
    if t.contains(x) {
        let k = choose|k: int| 0 <= k < t.len() && t[k] == x;
        if k < s.len() {
            assert(s[k] == x);
        }
    }
}

fn numeric_counts(v: &Vec<Option<u64>>) -> (res: (usize, usize))
    ensures
        res.0 == distinct_num(v@),
        res.1 == count_missing_num(v@),
{
    let n = v.len();
    let mut unique: usize = 0;
    let mut missing: usize = 0;
    let mut i: usize = 0;
    while i < n
        invariant
            n == v@.len(),
            i <= n,
            unique == distinct_num(v@.take(i as int)),
            missing == count_missing_num(v@.take(i as int)),
            unique <= i,
            missing <= i,
        decreases n - i,
    {
        proof {
            assert(v@.take(i + 1).drop_last() == v@.take(i as int));
        }
        match v[i] {
            None => {
                missing += 1;
            },
            Some(x) => {
                let mut seen = false;
                let mut j: usize = 0;
                while j < i
                    invariant
                        i < n == v@.len(),
                        j <= i,
                        seen == v@.take(j as int).contains(Some(x)),
                    decreases i - j,
                {
                    proof {
                        lemma_contains_push(v@.take(j as int), v@[j as int], Some(x));
                        assert(v@.take(j + 1) == v@.take(j as int).push(v@[j as int]));
                    }
                    if v[j] == Some(x) {
                        seen = true;
                    }
                    j += 1;
                }
                if !seen {
                    unique += 1;
                }
            },
        }
        i += 1;
    }
    proof {
        assert(v@.take(n as int) == v@);
    }
    (unique, missing)
}

fn text_counts(v: &Vec<String>) -> (res: (usize, usize))
    ensures
        res.0 == distinct_text(texts(v@)),
        res.1 == count_missing_text(texts(v@)),
{
    let n = v.len();
    let mut unique: usize = 0;
    let mut missing: usize = 0;
    let mut i: usize = 0;
    while i < n
        invariant
            n == v@.len(),
            i <= n,
            unique == distinct_text(texts(v@.take(i as int))),
            missing == count_missing_text(texts(v@.take(i as int))),
            unique <= i,
            missing <= i,
        decreases n - i,
    {
        proof {
            assert(texts(v@.take(i + 1)).drop_last() == texts(v@.take(i as int)));
            assert(texts(v@.take(i + 1)).last() == v@[i as int]@);
        }
        if v[i].as_str().unicode_len() == 0 {
            missing += 1;
        } else {
            let mut seen = false;
            let mut j: usize = 0;
            while j < i
                invariant
                    i < n == v@.len(),
                    j <= i,
                    seen == texts(v@.take(j as int)).contains(v@[i as int]@),
                decreases i - j,
            {
                proof {
                    lemma_contains_push(texts(v@.take(j as int)), v@[j as int]@, v@[i as int]@);
                    assert(texts(v@.take(j + 1)) == texts(v@.take(j as int)).push(v@[j as int]@));
                }
                if same_text(v[j].as_str(), v[i].as_str()) {
                    seen = true;
                }
                j += 1;
            }
            if !seen {
                unique += 1;
            }
        }
        i += 1;
    }
    proof {
        assert(v@.take(n as int) == v@);
    }
    (unique, missing)
}

fn push_codebook_line(out: &mut String, c: &CodebookColumn, nrow: usize)
    ensures
        final(out)@ == old(out)@ + codebook_line(*c, nrow as nat),
{
    let (unique, missing, kind) = match &c.values {
        ColumnValues::Numeric(v) => {
            let (u, m) = numeric_counts(v);
            (u, m, "numeric")
        },
        ColumnValues::Text(v) => {
            let (u, m) = text_counts(v);
            (u, m, "string")
        },
        ColumnValues::Absent => (0, 0, "unknown"),
    };
    let cells = vec![
        crate::helpers::esc(c.name.as_str()),
        String::from_str(kind),
        crate::text::usize_text(nrow),
        crate::text::usize_text(unique),
        crate::text::usize_text(missing),
    ];
    proof {
        let (u, m, k) = match &c.values {
            ColumnValues::Numeric(v) => (distinct_num(v@), count_missing_num(v@), "numeric"@),
            ColumnValues::Text(v) => (
                distinct_text(texts(v@)),
                count_missing_text(texts(v@)),
                "string"@,
            ),
            ColumnValues::Absent => (0nat, 0nat, "unknown"@),
        };
        assert(texts(cells@) =~= seq![spec_esc(c.name@), k, decimal(nrow as nat), decimal(u), decimal(m)]);
    }
    push_tex_line(out, cells.as_slice());
}

/// Variable description table: name, type, rows, distinct values, missing
/// values; `nrow` is the number of rows of the frame.
/// Options: title (default empty: no `table` environment), label.
pub fn codebook(columns: &Vec<CodebookColumn>, nrow: usize, opts: &Opts) -> (res: String)
    ensures
        res@ == codebook_text(
            columns@,
            nrow as nat,
            opt_str_value(*opts, "title"@, ""@),
            opt_str_value(*opts, "label"@, ""@),
        ),
{
    let title = opt_str(opts, "title", "");
    let label = opt_str(opts, "label", "");
    let mut s = String::new();
    push_table_open(&mut s, title.as_str(), label.as_str());
    s.append("\\begin{tabular}{");
    s.append("llrrr");
    s.append("}\n\\toprule\n");
    s.append("Variable & Type & N & Unique & Missing \\\\\n\\midrule\n");
    let ghost start = s@;
    let n = columns.len();
    let mut i: usize = 0;
    while i < n
        invariant
            n == columns@.len(),
            i <= n,
            s@ == start + codebook_lines(columns@.take(i as int), nrow as nat),
        decreases n - i,
    {
        proof {
            assert(columns@.take(i + 1).drop_last() == columns@.take(i as int));
        }
        push_codebook_line(&mut s, &columns[i], nrow);
        i += 1;
    }
    proof {
        assert(columns@.take(n as int) == columns@);
    }
    s.append("\\bottomrule\n\\end{tabular}\n");
    s.append(wrap_table_end(title.as_str()));
    s
}


/// The variables of a regression table: each name of any model appears, and
/// appears once.
pub proof fn lemma_first_occurrences(s: Seq<Seq<char>>)
    ensures
        forall|x: Seq<char>| first_occurrences(s).contains(x) <==> s.contains(x),
        first_occurrences(s).no_duplicates(),
    decreases s.len(),
{
    if s.len() > 0 {
        let p = s.drop_last();
        lemma_first_occurrences(p);
        let d = first_occurrences(p);
        assert forall|x: Seq<char>| first_occurrences(s).contains(x) <==> s.contains(x) by {
            lemma_contains_push(d, s.last(), x);
            lemma_contains_push(p, s.last(), x);
            assert(p.push(s.last()) =~= s);
        }
        if !d.contains(s.last()) {
            assert forall|i: int, j: int|
                0 <= i < d.len() + 1 && 0 <= j < d.len() + 1 && i != j implies d.push(s.last())[i]
                != d.push(s.last())[j] by {
                if i == d.len() as int {
                    assert(d.contains(d[j]));
                } else if j == d.len() as int {
                    assert(d.contains(d[i]));
                }
            }
        }
    }
}

/// The number of distinct values the codebook reports for strings is the
/// number of distinct non-empty strings.
pub proof fn lemma_distinct_text_is_set_size(s: Seq<Seq<char>>)
    ensures
        distinct_text(s) == s.filter(|x: Seq<char>| x.len() > 0).to_set().len(),
    decreases s.len(),
{
    let f = |x: Seq<char>| x.len() > 0;
    if s.len() == 0 {
        reveal(vstd::seq::Seq::filter);
        assert(s.filter(f) =~= Seq::<Seq<char>>::empty());
        assert(s.filter(f).to_set() =~= Set::<Seq<char>>::empty());
    } else {
        let p = s.drop_last();
        let x = s.last();
        lemma_distinct_text_is_set_size(p);
        assert(s =~= p.push(x));
        p.lemma_filter_push(x, f);
        let fp = p.filter(f);
        vstd::seq_lib::seq_to_set_is_finite(fp);
        if f(x) {
            Seq::lemma_to_set_insert_commutes(fp, x);
            assert(fp + seq![x] =~= fp.push(x));
            assert(fp.contains(x) == p.contains(x)) by {
                if p.contains(x) {
                    let k = choose|k: int| 0 <= k < p.len() && p[k] == x;
                    p.lemma_filter_contains(f, k);
                }
                if fp.contains(x) {
                    p.lemma_filter_contains_rev(f, x);
                }
            }
            assert(fp.to_set().contains(x) == fp.contains(x));
            vstd::set::axiom_set_insert_len(fp.to_set(), x);
        }
    }
}


/// The number of distinct values the codebook reports for numbers is the
/// number of distinct numbers that are not missing.
pub proof fn lemma_distinct_num_is_set_size(s: Seq<Option<u64>>)
    ensures
        distinct_num(s) == s.filter(|x: Option<u64>| x is Some).to_set().len(),
    decreases s.len(),
{
    let f = |x: Option<u64>| x is Some;
    if s.len() == 0 {
        reveal(vstd::seq::Seq::filter);
        assert(s.filter(f) =~= Seq::<Option<u64>>::empty());
        assert(s.filter(f).to_set() =~= Set::<Option<u64>>::empty());
    } else {
        let p = s.drop_last();
        let x = s.last();
        lemma_distinct_num_is_set_size(p);
        assert(s =~= p.push(x));
        p.lemma_filter_push(x, f);
        let fp = p.filter(f);
        vstd::seq_lib::seq_to_set_is_finite(fp);
        if f(x) {
            Seq::lemma_to_set_insert_commutes(fp, x);
            assert(fp + seq![x] =~= fp.push(x));
            assert(fp.contains(x) == p.contains(x)) by {
                if p.contains(x) {
                    let k = choose|k: int| 0 <= k < p.len() && p[k] == x;
                    p.lemma_filter_contains(f, k);
                }
                if fp.contains(x) {
                    p.lemma_filter_contains_rev(f, x);
                }
            }
            assert(fp.to_set().contains(x) == fp.contains(x));
            vstd::set::axiom_set_insert_len(fp.to_set(), x);
        }
    }
}

/// The correlation matrix is lower-triangular: every cell above the
/// diagonal is empty, a diagonal cell is the coefficient alone (no stars),
/// and a cell below the diagonal is the coefficient followed by its stars
/// when there are more than two observations.
pub proof fn lemma_correlation_lower_triangular(c: CorCells, i: int, j: int)
    ensures
        j > i ==> cor_cell(c, i, j) == Seq::<char>::empty(),
        j <= i ==> c.r@[i]@[j]@.is_prefix_of(cor_cell(c, i, j)),
        j == i ==> cor_cell(c, i, j) == c.r@[i]@[i]@,
        j < i && c.n > 2 ==> cor_cell(c, i, j) == c.r@[i]@[j]@ + c.tstars@[i]@[j]@,
        j < i && c.n <= 2 ==> cor_cell(c, i, j) == c.r@[i]@[j]@,
{
    if j <= i {
        assert(c.r@[i]@[j]@ =~= cor_cell(c, i, j).subrange(0, c.r@[i]@[j]@.len() as int));
    }
    if j <= i && (j == i || c.n <= 2) {
        assert(cor_cell(c, i, j) =~= c.r@[i]@[j]@);
    }
}

/// Row `i` of the correlation table: the numbered, escaped name of variable
/// `i`, then one cell per variable `j`, empty above the diagonal, the bare
/// coefficient on it, and below it the coefficient with its stars when
/// there are more than two observations.
pub proof fn lemma_correlation_row(c: CorCells, vars: Seq<Seq<char>>, i: int, j: int)
    requires
        0 <= i < vars.len(),
        0 <= j < vars.len(),
    ensures
        cor_row(c, vars, i).len() == vars.len() + 1,
        cor_row(c, vars, i)[0] == "("@ + decimal((i + 1) as nat) + ") "@ + spec_esc(vars[i]),
        j > i ==> cor_row(c, vars, i)[j + 1] == Seq::<char>::empty(),
        j == i ==> cor_row(c, vars, i)[j + 1] == c.r@[i]@[i]@,
        j < i ==> cor_row(c, vars, i)[j + 1] == c.r@[i]@[j]@ + if c.n > 2 {
            c.tstars@[i]@[j]@
        } else {
            Seq::<char>::empty()
        },
{
    lemma_correlation_lower_triangular(c, i, j);
    assert(cor_row(c, vars, i)[j + 1] == cor_cell(c, i, j));
    if j < i && c.n <= 2 {
        assert(c.r@[i]@[j]@ + Seq::<char>::empty() =~= c.r@[i]@[j]@);
    }
}


/// The column heads of the summary table.
pub open spec fn summary_heads() -> Seq<Seq<char>> {
    seq!["Variable"@, "N"@, "Mean"@, "Std.~Dev."@, "Min"@, "p25"@, "p50"@, "Max"@]
}

/// The figure of a column's summary that a column head names.
pub open spec fn summary_field(v: Seq<char>, c: ColumnSummary, head: Seq<char>) -> Seq<char> {
    if head == "Variable"@ {
        spec_esc(v)
    } else if head == "N"@ {
        decimal(c.n as nat)
    } else if head == "Mean"@ {
        c.mean@
    } else if head == "Std.~Dev."@ {
        c.sd@
    } else if head == "Min"@ {
        c.min@
    } else if head == "p25"@ {
        c.p25@
    } else if head == "p50"@ {
        c.p50@
    } else if head == "Max"@ {
        c.max@
    } else {
        Seq::empty()
    }
}

/// Each cell of a summary line is the figure its column head names: the
/// table's head line is the line of the heads, and the line of a column with
/// values holds, head by head, the escaped name, N, the mean, the standard
/// deviation, the minimum, the quartiles p25 and p50, and the maximum.
pub proof fn lemma_summary_line_follows_heads(v: Seq<char>, c: ColumnSummary)
    requires
        c.n > 0,
    ensures
        summary_line(v, Some(c)) == tex_line(
            summary_heads().map_values(|h: Seq<char>| summary_field(v, c, h)),
        ),
        "Variable & N & Mean & Std.~Dev. & Min & p25 & p50 & Max \\\\\n"@ == tex_line(summary_heads()),
{
    reveal_strlit("Variable");
    reveal_strlit("N");
    reveal_strlit("Mean");
    reveal_strlit("Std.~Dev.");
    reveal_strlit("Min");
    reveal_strlit("p25");
    reveal_strlit("p50");
    reveal_strlit("Max");
    reveal_strlit(" & ");
    reveal_strlit(" \\\\\n");
    reveal_strlit("Variable & N & Mean & Std.~Dev. & Min & p25 & p50 & Max \\\\\n");
    let heads = summary_heads();
    let cells = heads.map_values(|h: Seq<char>| summary_field(v, c, h));
    assert("N"@.len() != "Variable"@.len());
    assert("Mean"@.len() != "Variable"@.len() && "Mean"@.len() != "N"@.len());
    assert("Std.~Dev."@.len() != "Variable"@.len());
    assert("Min"@[0] != "Mean"@[0] || "Min"@.len() != "Mean"@.len());
    assert("p25"@[0] != "Min"@[0] && "p50"@[0] != "Min"@[0] && "p50"@[1] != "p25"@[1]);
    assert("Max"@[1] != "Min"@[1] && "Max"@[0] != "p25"@[0] && "Max"@[0] != "p50"@[0]);
    assert(summary_field(v, c, "Variable"@) == spec_esc(v));
    assert(summary_field(v, c, "N"@) == decimal(c.n as nat));
    assert(summary_field(v, c, "Mean"@) == c.mean@);
    assert(summary_field(v, c, "Std.~Dev."@) == c.sd@);
    assert(summary_field(v, c, "Min"@) == c.min@);
    assert(summary_field(v, c, "p25"@) == c.p25@);
    assert(summary_field(v, c, "p50"@) == c.p50@);
    assert(summary_field(v, c, "Max"@) == c.max@);
    assert(cells =~= seq![
        spec_esc(v),
        decimal(c.n as nat),
        c.mean@,
        c.sd@,
        c.min@,
        c.p25@,
        c.p50@,
        c.max@,
    ]);
    reveal_with_fuel(join_seq, 9);
    assert(join_seq(heads, " & "@) + " \\\\\n"@
        =~= "Variable & N & Mean & Std.~Dev. & Min & p25 & p50 & Max \\\\\n"@);
}


/// The codebook's Missing count of numbers is the number of missing entries.
pub proof fn lemma_missing_num_count(s: Seq<Option<u64>>)
    ensures
        count_missing_num(s) == s.filter(|x: Option<u64>| x is None).len(),
    decreases s.len(),
{
    let f = |x: Option<u64>| x is None;
    if s.len() == 0 {
        reveal(vstd::seq::Seq::filter);
        assert(s.filter(f) =~= Seq::<Option<u64>>::empty());
    } else {
        let p = s.drop_last();
        lemma_missing_num_count(p);
        assert(s =~= p.push(s.last()));
        p.lemma_filter_push(s.last(), f);
    }
}

/// The codebook's Missing count of strings is the number of empty strings.
pub proof fn lemma_missing_text_count(s: Seq<Seq<char>>)
    ensures
        count_missing_text(s) == s.filter(|x: Seq<char>| x.len() == 0).len(),
    decreases s.len(),
{
    let f = |x: Seq<char>| x.len() == 0;
    if s.len() == 0 {
        reveal(vstd::seq::Seq::filter);
        assert(s.filter(f) =~= Seq::<Seq<char>>::empty());
    } else {
        let p = s.drop_last();
        lemma_missing_text_count(p);
        assert(s =~= p.push(s.last()));
        p.lemma_filter_push(s.last(), f);
    }
}

/// A codebook line reports, for a numeric column, the rows of the frame, the
/// number of distinct values that are not missing, and the number of missing
/// values; for a string column the same with empty strings as missing.
pub proof fn lemma_codebook_line_counts(c: CodebookColumn, nrow: nat)
    ensures
        c.values matches ColumnValues::Numeric(v) ==> codebook_line(c, nrow) == tex_line(
            seq![
                spec_esc(c.name@),
                "numeric"@,
                decimal(nrow),
                decimal(v@.filter(|x: Option<u64>| x is Some).to_set().len()),
                decimal(v@.filter(|x: Option<u64>| x is None).len()),
            ],
        ),
        c.values matches ColumnValues::Text(v) ==> codebook_line(c, nrow) == tex_line(
            seq![
                spec_esc(c.name@),
                "string"@,
                decimal(nrow),
                decimal(texts(v@).filter(|x: Seq<char>| x.len() > 0).to_set().len()),
                decimal(texts(v@).filter(|x: Seq<char>| x.len() == 0).len()),
            ],
        ),
{
    match c.values {
        ColumnValues::Numeric(v) => {
            lemma_distinct_num_is_set_size(v@);
            lemma_missing_num_count(v@);
        },
        ColumnValues::Text(v) => {
            lemma_distinct_text_is_set_size(texts(v@));
            lemma_missing_text_count(texts(v@));
        },
        ColumnValues::Absent => {},
    }
}


/// The statistic keys that have a label of their own, in the order the
/// regression options list them.
pub open spec fn labelled_stats() -> Seq<Seq<char>> {
    seq![
        "n"@,
        "r2"@,
        "adj_r2"@,
        "pseudo_r2"@,
        "aic"@,
        "bic"@,
        "log_lik"@,
        "f_stat"@,
        "sigma"@,
        "j_stat"@,
        "j_p_value"@,
        "df_overid"@,
        "sigma_u"@,
        "sigma_e"@,
        "theta"@,
        "tau"@,
        "alpha"@,
        "rho"@,
        "delta"@,
        "deviance"@,
        "qic"@,
        "n_entities"@,
        "n_groups"@,
        "n_censored"@,
        "sigma2"@,
    ]
}

/// The labels of `labelled_stats`, key by key.
pub open spec fn stat_labels() -> Seq<Seq<char>> {
    seq![
        "Observations"@,
        "$R^2$"@,
        "Adj. $R^2$"@,
        "Pseudo $R^2$"@,
        "AIC"@,
        "BIC"@,
        "Log Likelihood"@,
        "F-statistic"@,
        "$\\sigma$"@,
        "Hansen J"@,
        "J p-value"@,
        "Over-id. df"@,
        "$\\sigma_u$"@,
        "$\\sigma_e$"@,
        "$\\theta$"@,
        "$\\tau$"@,
        "$\\alpha$"@,
        "$\\rho$"@,
        "$\\delta$"@,
        "Deviance"@,
        "QIC"@,
        "Entities"@,
        "Groups"@,
        "Censored"@,
        "$\\sigma^2$"@,
    ]
}

/// Each labelled statistic is shown with its own label.
pub proof fn lemma_stat_label_table(i: int)
    requires
        0 <= i < labelled_stats().len(),
    ensures
        stat_label_text(labelled_stats()[i]) == stat_labels()[i],
{
    reveal_strlit("n");
    reveal_strlit("r2");
    reveal_strlit("adj_r2");
    reveal_strlit("pseudo_r2");
    reveal_strlit("aic");
    reveal_strlit("bic");
    reveal_strlit("log_lik");
    reveal_strlit("f_stat");
    reveal_strlit("sigma");
    reveal_strlit("j_stat");
    reveal_strlit("j_p_value");
    reveal_strlit("df_overid");
    reveal_strlit("sigma_u");
    reveal_strlit("sigma_e");
    reveal_strlit("theta");
    reveal_strlit("tau");
    reveal_strlit("alpha");
    reveal_strlit("rho");
    reveal_strlit("delta");
    reveal_strlit("deviance");
    reveal_strlit("qic");
    reveal_strlit("n_entities");
    reveal_strlit("n_groups");
    reveal_strlit("n_censored");
    reveal_strlit("sigma2");
    assert(labelled_stats()[0].len() == 1);
    assert(labelled_stats()[1].len() == 2);
    assert(labelled_stats()[2].len() == 6);
    assert(labelled_stats()[3].len() == 9);
    assert(labelled_stats()[4].len() == 3);
    assert(labelled_stats()[5].len() == 3);
    assert(labelled_stats()[6].len() == 7);
    assert(labelled_stats()[7].len() == 6);
    assert(labelled_stats()[8].len() == 5);
    assert(labelled_stats()[9].len() == 6);
    assert(labelled_stats()[10].len() == 9);
    assert(labelled_stats()[11].len() == 9);
    assert(labelled_stats()[12].len() == 7);
    assert(labelled_stats()[13].len() == 7);
    assert(labelled_stats()[14].len() == 5);
    assert(labelled_stats()[15].len() == 3);
    assert(labelled_stats()[16].len() == 5);
    assert(labelled_stats()[17].len() == 3);
    assert(labelled_stats()[18].len() == 5);
    assert(labelled_stats()[19].len() == 8);
    assert(labelled_stats()[20].len() == 3);
    assert(labelled_stats()[21].len() == 10);
    assert(labelled_stats()[22].len() == 8);
    assert(labelled_stats()[23].len() == 10);
    assert(labelled_stats()[24].len() == 6);
    if i == 0 {

        assert(stat_label_text(labelled_stats()[0]) == stat_labels()[0]);
    }
    if i == 1 {

        assert(stat_label_text(labelled_stats()[1]) == stat_labels()[1]);
    }
    if i == 2 {

        assert(stat_label_text(labelled_stats()[2]) == stat_labels()[2]);
    }
    if i == 3 {

        assert(stat_label_text(labelled_stats()[3]) == stat_labels()[3]);
    }
    if i == 4 {

        assert(stat_label_text(labelled_stats()[4]) == stat_labels()[4]);
    }
    if i == 5 {
        assert(labelled_stats()[5][0] != labelled_stats()[4][0]);
        assert(stat_label_text(labelled_stats()[5]) == stat_labels()[5]);
    }
    if i == 6 {

        assert(stat_label_text(labelled_stats()[6]) == stat_labels()[6]);
    }
    if i == 7 {
        assert(labelled_stats()[7][0] != labelled_stats()[2][0]);
        assert(stat_label_text(labelled_stats()[7]) == stat_labels()[7]);
    }
    if i == 8 {

        assert(stat_label_text(labelled_stats()[8]) == stat_labels()[8]);
    }
    if i == 9 {
        assert(labelled_stats()[9][0] != labelled_stats()[2][0]);
        assert(labelled_stats()[9][0] != labelled_stats()[7][0]);
        assert(stat_label_text(labelled_stats()[9]) == stat_labels()[9]);
    }
    if i == 10 {
        assert(labelled_stats()[10][0] != labelled_stats()[3][0]);
        assert(stat_label_text(labelled_stats()[10]) == stat_labels()[10]);
    }
    if i == 11 {
        assert(labelled_stats()[11][0] != labelled_stats()[3][0]);
        assert(labelled_stats()[11][0] != labelled_stats()[10][0]);
        assert(stat_label_text(labelled_stats()[11]) == stat_labels()[11]);
    }
    if i == 12 {
        assert(labelled_stats()[12][0] != labelled_stats()[6][0]);
        assert(stat_label_text(labelled_stats()[12]) == stat_labels()[12]);
    }
    if i == 13 {
        assert(labelled_stats()[13][0] != labelled_stats()[6][0]);
        assert(labelled_stats()[13][6] != labelled_stats()[12][6]);
        assert(stat_label_text(labelled_stats()[13]) == stat_labels()[13]);
    }
    if i == 14 {
        assert(labelled_stats()[14][0] != labelled_stats()[8][0]);
        assert(stat_label_text(labelled_stats()[14]) == stat_labels()[14]);
    }
    if i == 15 {
        assert(labelled_stats()[15][0] != labelled_stats()[4][0]);
        assert(labelled_stats()[15][0] != labelled_stats()[5][0]);
        assert(stat_label_text(labelled_stats()[15]) == stat_labels()[15]);
    }
    if i == 16 {
        assert(labelled_stats()[16][0] != labelled_stats()[8][0]);
        assert(labelled_stats()[16][0] != labelled_stats()[14][0]);
        assert(stat_label_text(labelled_stats()[16]) == stat_labels()[16]);
    }
    if i == 17 {
        assert(labelled_stats()[17][0] != labelled_stats()[4][0]);
        assert(labelled_stats()[17][0] != labelled_stats()[5][0]);
        assert(labelled_stats()[17][0] != labelled_stats()[15][0]);
        assert(stat_label_text(labelled_stats()[17]) == stat_labels()[17]);
    }
    if i == 18 {
        assert(labelled_stats()[18][0] != labelled_stats()[8][0]);
        assert(labelled_stats()[18][0] != labelled_stats()[14][0]);
        assert(labelled_stats()[18][0] != labelled_stats()[16][0]);
        assert(stat_label_text(labelled_stats()[18]) == stat_labels()[18]);
    }
    if i == 19 {

        assert(stat_label_text(labelled_stats()[19]) == stat_labels()[19]);
    }
    if i == 20 {
        assert(labelled_stats()[20][0] != labelled_stats()[4][0]);
        assert(labelled_stats()[20][0] != labelled_stats()[5][0]);
        assert(labelled_stats()[20][0] != labelled_stats()[15][0]);
        assert(labelled_stats()[20][0] != labelled_stats()[17][0]);
        assert(stat_label_text(labelled_stats()[20]) == stat_labels()[20]);
    }
    if i == 21 {

        assert(stat_label_text(labelled_stats()[21]) == stat_labels()[21]);
    }
    if i == 22 {
        assert(labelled_stats()[22][0] != labelled_stats()[19][0]);
        assert(stat_label_text(labelled_stats()[22]) == stat_labels()[22]);
    }
    if i == 23 {
        assert(labelled_stats()[23][2] != labelled_stats()[21][2]);
        assert(stat_label_text(labelled_stats()[23]) == stat_labels()[23]);
    }
    if i == 24 {
        assert(labelled_stats()[24][0] != labelled_stats()[2][0]);
        assert(labelled_stats()[24][0] != labelled_stats()[7][0]);
        assert(labelled_stats()[24][0] != labelled_stats()[9][0]);
        assert(stat_label_text(labelled_stats()[24]) == stat_labels()[24]);
    }
}

/// The place of a label among `stat_labels` (-1 for any other text).
pub open spec fn label_rank(l: Seq<char>) -> int {
    if l == stat_labels()[0] {
        0
    } else if l == stat_labels()[1] {
        1
    } else if l == stat_labels()[2] {
        2
    } else if l == stat_labels()[3] {
        3
    } else if l == stat_labels()[4] {
        4
    } else if l == stat_labels()[5] {
        5
    } else if l == stat_labels()[6] {
        6
    } else if l == stat_labels()[7] {
        7
    } else if l == stat_labels()[8] {
        8
    } else if l == stat_labels()[9] {
        9
    } else if l == stat_labels()[10] {
        10
    } else if l == stat_labels()[11] {
        11
    } else if l == stat_labels()[12] {
        12
    } else if l == stat_labels()[13] {
        13
    } else if l == stat_labels()[14] {
        14
    } else if l == stat_labels()[15] {
        15
    } else if l == stat_labels()[16] {
        16
    } else if l == stat_labels()[17] {
        17
    } else if l == stat_labels()[18] {
        18
    } else if l == stat_labels()[19] {
        19
    } else if l == stat_labels()[20] {
        20
    } else if l == stat_labels()[21] {
        21
    } else if l == stat_labels()[22] {
        22
    } else if l == stat_labels()[23] {
        23
    } else if l == stat_labels()[24] {
        24
    } else {
        -1
    }
}

proof fn lemma_label_rank(k: int)
    requires
        0 <= k < stat_labels().len(),
    ensures
        label_rank(stat_labels()[k]) == k,
{
    reveal_strlit("Observations");
    reveal_strlit("$R^2$");
    reveal_strlit("Adj. $R^2$");
    reveal_strlit("Pseudo $R^2$");
    reveal_strlit("AIC");
    reveal_strlit("BIC");
    reveal_strlit("Log Likelihood");
    reveal_strlit("F-statistic");
    reveal_strlit("$\\sigma$");
    reveal_strlit("Hansen J");
    reveal_strlit("J p-value");
    reveal_strlit("Over-id. df");
    reveal_strlit("$\\sigma_u$");
    reveal_strlit("$\\sigma_e$");
    reveal_strlit("$\\theta$");
    reveal_strlit("$\\tau$");
    reveal_strlit("$\\alpha$");
    reveal_strlit("$\\rho$");
    reveal_strlit("$\\delta$");
    reveal_strlit("Deviance");
    reveal_strlit("QIC");
    reveal_strlit("Entities");
    reveal_strlit("Groups");
    reveal_strlit("Censored");
    reveal_strlit("$\\sigma^2$");
    assert(stat_labels()[0].len() == 12);
    assert(stat_labels()[1].len() == 5);
    assert(stat_labels()[2].len() == 10);
    assert(stat_labels()[3].len() == 12);
    assert(stat_labels()[4].len() == 3);
    assert(stat_labels()[5].len() == 3);
    assert(stat_labels()[6].len() == 14);
    assert(stat_labels()[7].len() == 11);
    assert(stat_labels()[8].len() == 8);
    assert(stat_labels()[9].len() == 8);
    assert(stat_labels()[10].len() == 9);
    assert(stat_labels()[11].len() == 11);
    assert(stat_labels()[12].len() == 10);
    assert(stat_labels()[13].len() == 10);
    assert(stat_labels()[14].len() == 8);
    assert(stat_labels()[15].len() == 6);
    assert(stat_labels()[16].len() == 8);
    assert(stat_labels()[17].len() == 6);
    assert(stat_labels()[18].len() == 8);
    assert(stat_labels()[19].len() == 8);
    assert(stat_labels()[20].len() == 3);
    assert(stat_labels()[21].len() == 8);
    assert(stat_labels()[22].len() == 6);
    assert(stat_labels()[23].len() == 8);
    assert(stat_labels()[24].len() == 10);
    if k == 0 {
        assert(label_rank(stat_labels()[0]) == 0);
    }
    if k == 1 {
        assert(label_rank(stat_labels()[1]) == 1);
    }
    if k == 2 {
        assert(label_rank(stat_labels()[2]) == 2);
    }
    if k == 3 {
        assert(stat_labels()[3][0] != stat_labels()[0][0]);
        assert(label_rank(stat_labels()[3]) == 3);
    }
    if k == 4 {
        assert(label_rank(stat_labels()[4]) == 4);
    }
    if k == 5 {
        assert(stat_labels()[5][0] != stat_labels()[4][0]);
        assert(label_rank(stat_labels()[5]) == 5);
    }
    if k == 6 {
        assert(label_rank(stat_labels()[6]) == 6);
    }
    if k == 7 {
        assert(label_rank(stat_labels()[7]) == 7);
    }
    if k == 8 {
        assert(label_rank(stat_labels()[8]) == 8);
    }
    if k == 9 {
        assert(stat_labels()[9][0] != stat_labels()[8][0]);
        assert(label_rank(stat_labels()[9]) == 9);
    }
    if k == 10 {
        assert(label_rank(stat_labels()[10]) == 10);
    }
    if k == 11 {
        assert(stat_labels()[11][0] != stat_labels()[7][0]);
        assert(label_rank(stat_labels()[11]) == 11);
    }
    if k == 12 {
        assert(stat_labels()[12][0] != stat_labels()[2][0]);
        assert(label_rank(stat_labels()[12]) == 12);
    }
    if k == 13 {
        assert(stat_labels()[13][0] != stat_labels()[2][0]);
        assert(stat_labels()[13][8] != stat_labels()[12][8]);
        assert(label_rank(stat_labels()[13]) == 13);
    }
    if k == 14 {
        assert(stat_labels()[14][2] != stat_labels()[8][2]);
        assert(stat_labels()[14][0] != stat_labels()[9][0]);
        assert(label_rank(stat_labels()[14]) == 14);
    }
    if k == 15 {
        assert(label_rank(stat_labels()[15]) == 15);
    }
    if k == 16 {
        assert(stat_labels()[16][2] != stat_labels()[8][2]);
        assert(stat_labels()[16][0] != stat_labels()[9][0]);
        assert(stat_labels()[16][2] != stat_labels()[14][2]);
        assert(label_rank(stat_labels()[16]) == 16);
    }
    if k == 17 {
        assert(stat_labels()[17][2] != stat_labels()[15][2]);
        assert(label_rank(stat_labels()[17]) == 17);
    }
    if k == 18 {
        assert(stat_labels()[18][2] != stat_labels()[8][2]);
        assert(stat_labels()[18][0] != stat_labels()[9][0]);
        assert(stat_labels()[18][2] != stat_labels()[14][2]);
        assert(stat_labels()[18][2] != stat_labels()[16][2]);
        assert(label_rank(stat_labels()[18]) == 18);
    }
    if k == 19 {
        assert(stat_labels()[19][0] != stat_labels()[8][0]);
        assert(stat_labels()[19][0] != stat_labels()[9][0]);
        assert(stat_labels()[19][0] != stat_labels()[14][0]);
        assert(stat_labels()[19][0] != stat_labels()[16][0]);
        assert(stat_labels()[19][0] != stat_labels()[18][0]);
        assert(label_rank(stat_labels()[19]) == 19);
    }
    if k == 20 {
        assert(stat_labels()[20][0] != stat_labels()[4][0]);
        assert(stat_labels()[20][0] != stat_labels()[5][0]);
        assert(label_rank(stat_labels()[20]) == 20);
    }
    if k == 21 {
        assert(stat_labels()[21][0] != stat_labels()[8][0]);
        assert(stat_labels()[21][0] != stat_labels()[9][0]);
        assert(stat_labels()[21][0] != stat_labels()[14][0]);
        assert(stat_labels()[21][0] != stat_labels()[16][0]);
        assert(stat_labels()[21][0] != stat_labels()[18][0]);
        assert(stat_labels()[21][0] != stat_labels()[19][0]);
        assert(label_rank(stat_labels()[21]) == 21);
    }
    if k == 22 {
        assert(stat_labels()[22][0] != stat_labels()[15][0]);
        assert(stat_labels()[22][0] != stat_labels()[17][0]);
        assert(label_rank(stat_labels()[22]) == 22);
    }
    if k == 23 {
        assert(stat_labels()[23][0] != stat_labels()[8][0]);
        assert(stat_labels()[23][0] != stat_labels()[9][0]);
        assert(stat_labels()[23][0] != stat_labels()[14][0]);
        assert(stat_labels()[23][0] != stat_labels()[16][0]);
        assert(stat_labels()[23][0] != stat_labels()[18][0]);
        assert(stat_labels()[23][0] != stat_labels()[19][0]);
        assert(stat_labels()[23][0] != stat_labels()[21][0]);
        assert(label_rank(stat_labels()[23]) == 23);
    }
    if k == 24 {
        assert(stat_labels()[24][0] != stat_labels()[2][0]);
        assert(stat_labels()[24][7] != stat_labels()[12][7]);
        assert(stat_labels()[24][7] != stat_labels()[13][7]);
        assert(label_rank(stat_labels()[24]) == 24);
    }
}

/// No two labelled statistics share a label, so every statistic row of a
/// regression table says which statistic it holds.
pub proof fn lemma_stat_labels_distinct(i: int, j: int)
    requires
        0 <= i < j < labelled_stats().len(),
    ensures
        stat_label_text(labelled_stats()[i]) != stat_label_text(labelled_stats()[j]),
{
    lemma_stat_label_table(i);
    lemma_stat_label_table(j);
    lemma_label_rank(i);
    lemma_label_rank(j);
}

/// A statistic without a label of its own is shown by its key.
pub proof fn lemma_stat_label_other(name: Seq<char>)
    requires
        !labelled_stats().contains(name),
    ensures
        stat_label_text(name) == name,
{
    if stat_label_text(name) != name {
        assert(exists|i: int| 0 <= i < labelled_stats().len() && labelled_stats()[i] == name) by {
            assert(name != labelled_stats()[0] || labelled_stats()[0] == name);
            assert(name != labelled_stats()[1] || labelled_stats()[1] == name);
            assert(name != labelled_stats()[2] || labelled_stats()[2] == name);
            assert(name != labelled_stats()[3] || labelled_stats()[3] == name);
            assert(name != labelled_stats()[4] || labelled_stats()[4] == name);
            assert(name != labelled_stats()[5] || labelled_stats()[5] == name);
            assert(name != labelled_stats()[6] || labelled_stats()[6] == name);
            assert(name != labelled_stats()[7] || labelled_stats()[7] == name);
            assert(name != labelled_stats()[8] || labelled_stats()[8] == name);
            assert(name != labelled_stats()[9] || labelled_stats()[9] == name);
            assert(name != labelled_stats()[10] || labelled_stats()[10] == name);
            assert(name != labelled_stats()[11] || labelled_stats()[11] == name);
            assert(name != labelled_stats()[12] || labelled_stats()[12] == name);
            assert(name != labelled_stats()[13] || labelled_stats()[13] == name);
            assert(name != labelled_stats()[14] || labelled_stats()[14] == name);
            assert(name != labelled_stats()[15] || labelled_stats()[15] == name);
            assert(name != labelled_stats()[16] || labelled_stats()[16] == name);
            assert(name != labelled_stats()[17] || labelled_stats()[17] == name);
            assert(name != labelled_stats()[18] || labelled_stats()[18] == name);
            assert(name != labelled_stats()[19] || labelled_stats()[19] == name);
            assert(name != labelled_stats()[20] || labelled_stats()[20] == name);
            assert(name != labelled_stats()[21] || labelled_stats()[21] == name);
            assert(name != labelled_stats()[22] || labelled_stats()[22] == name);
            assert(name != labelled_stats()[23] || labelled_stats()[23] == name);
            assert(name != labelled_stats()[24] || labelled_stats()[24] == name);
        }
    }
}


/// The column heads of the test table.
pub open spec fn test_heads() -> Seq<Seq<char>> {
    seq!["Test"@, "Statistic"@, "df"@, "p-value"@]
}

/// The figure of a test that a column head names.
pub open spec fn test_field(t: TestRow, head: Seq<char>) -> Seq<char> {
    if head == "Test"@ {
        test_name_text(t.name)
    } else if head == "Statistic"@ {
        t.stat@
    } else if head == "df"@ {
        test_df_text(t.df)
    } else if head == "p-value"@ {
        t.p@ + t.stars@
    } else {
        Seq::empty()
    }
}

/// Each cell of a test's line is the figure its column head names: the
/// name, the statistic, the degrees of freedom, the p-value with its stars.
pub proof fn lemma_test_line_follows_heads(t: TestRow)
    ensures
        test_line(t) == tex_line(test_heads().map_values(|h: Seq<char>| test_field(t, h))),
        "Test & Statistic & df & p-value \\\\\n"@ == tex_line(test_heads()),
{
    reveal_strlit("Test");
    reveal_strlit("Statistic");
    reveal_strlit("df");
    reveal_strlit("p-value");
    reveal_strlit(" & ");
    reveal_strlit(" \\\\\n");
    reveal_strlit("Test & Statistic & df & p-value \\\\\n");
    assert("Test"@.len() == 4 && "Statistic"@.len() == 9 && "df"@.len() == 2);
    assert("p-value"@.len() == 7);
    assert(test_field(t, "Test"@) == test_name_text(t.name));
    assert(test_field(t, "Statistic"@) == t.stat@);
    assert(test_field(t, "df"@) == test_df_text(t.df));
    assert(test_field(t, "p-value"@) == t.p@ + t.stars@);
    assert(test_heads().map_values(|h: Seq<char>| test_field(t, h)) =~= seq![
        test_name_text(t.name),
        t.stat@,
        test_df_text(t.df),
        t.p@ + t.stars@,
    ]);
    reveal_with_fuel(join_seq, 5);
    assert(join_seq(test_heads(), " & "@) + " \\\\\n"@ =~= "Test & Statistic & df & p-value \\\\\n"@);
}

/// The column heads of the ANOVA table.
pub open spec fn anova_heads() -> Seq<Seq<char>> {
    seq!["Source"@, "SS"@, "df"@, "MS"@, "F"@, "p"@]
}

/// The figure of the model line that a column head names, for `k`
/// coefficients.
pub open spec fn anova_model_field(k: int, c: AnovaCells, head: Seq<char>) -> Seq<char> {
    if head == "Source"@ {
        "Model"@
    } else if head == "SS"@ {
        c.ss_model@
    } else if head == "df"@ {
        int_decimal(k - 1)
    } else if head == "MS"@ {
        c.ms_model@
    } else if head == "F"@ {
        c.f_stat@
    } else if head == "p"@ {
        c.prob_f@
    } else {
        Seq::empty()
    }
}

/// The ANOVA table: the model line's cells follow the heads; the residual
/// line has `n - k` degrees of freedom and the total `n - 1`, the sum of the
/// model's `k - 1` and the residual's.
pub proof fn lemma_anova_layout(n: int, k: int, c: AnovaCells, title: Seq<char>, label: Seq<char>)
    ensures
        anova_text(n, k, c, title, label) == tabular_open(title, label, "lrrrrr"@) + tex_line(
            anova_heads(),
        ) + "\\midrule\n"@ + tex_line(anova_heads().map_values(|h: Seq<char>| anova_model_field(k, c, h)))
            + "Residual & "@ + c.ss_resid@ + " & "@ + int_decimal(n - k) + " & "@ + c.ms_resid@
            + " & & \\\\\n"@ + "\\midrule\n"@ + "Total & "@ + c.ss_total@ + " & "@ + int_decimal(
            (k - 1) + (n - k),
        ) + " & & & \\\\\n"@ + tabular_close(title),
{
    reveal_strlit("Source");
    reveal_strlit("SS");
    reveal_strlit("df");
    reveal_strlit("MS");
    reveal_strlit("F");
    reveal_strlit("p");
    reveal_strlit(" & ");
    reveal_strlit(" \\\\\n");
    reveal_strlit("\\midrule\n");
    reveal_strlit("Source & SS & df & MS & F & p \\\\\n\\midrule\n");
    assert("Source"@.len() == 6 && "SS"@.len() == 2 && "df"@.len() == 2 && "MS"@.len() == 2);
    assert("F"@.len() == 1 && "p"@.len() == 1);
    assert("df"@[0] != "SS"@[0] && "MS"@[0] != "SS"@[0] && "MS"@[0] != "df"@[0]);
    assert("p"@[0] != "F"@[0]);
    assert(anova_model_field(k, c, "Source"@) == "Model"@);
    assert(anova_model_field(k, c, "SS"@) == c.ss_model@);
    assert(anova_model_field(k, c, "df"@) == int_decimal(k - 1));
    assert(anova_model_field(k, c, "MS"@) == c.ms_model@);
    assert(anova_model_field(k, c, "F"@) == c.f_stat@);
    assert(anova_model_field(k, c, "p"@) == c.prob_f@);
    assert(anova_heads().map_values(|h: Seq<char>| anova_model_field(k, c, h)) =~= seq![
        "Model"@,
        c.ss_model@,
        int_decimal(k - 1),
        c.ms_model@,
        c.f_stat@,
        c.prob_f@,
    ]);
    reveal_with_fuel(join_seq, 7);
    assert(tex_line(anova_heads()) + "\\midrule\n"@ =~= "Source & SS & df & MS & F & p \\\\\n\\midrule\n"@);
    assert((k - 1) + (n - k) == n - 1);
}

/// The cells of a model in the row of variable `v`: with the variable the
/// model finds for `v` at `i`, its coefficient (followed by its stars when
/// they are shown) and its standard error in parentheses; both empty when
/// the model has no such variable.
pub proof fn lemma_regression_cells(md: RegModel, v: Seq<char>, show_stars: bool)
    ensures
        first_match(names(md.variables@), v) matches Some(i) ==> {
            &&& show_stars ==> coef_cell(md, v, show_stars) == md.coef@[i]@ + md.stars@[i]@
            &&& !show_stars ==> coef_cell(md, v, show_stars) == md.coef@[i]@
            &&& se_cell(md, v) == "("@ + md.se@[i]@ + ")"@
        },
        first_match(names(md.variables@), v) is None ==> coef_cell(md, v, show_stars)
            == Seq::<char>::empty() && se_cell(md, v) == Seq::<char>::empty(),
{
    if let Some(i) = first_match(names(md.variables@), v) {
        if !show_stars {
            assert(md.coef@[i]@ + Seq::<char>::empty() =~= md.coef@[i]@);
        }
    }
}

} // verus!
