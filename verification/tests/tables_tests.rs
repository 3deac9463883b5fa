use haytex::options::{OptValue, Opts};
use haytex::tables::{
    anova, codebook, correlation, diagnostics, regression, stat_label, summary, table, tests,
    AnovaCells, CodebookColumn, ColumnCells, ColumnSummary, ColumnValues, CorCells, FrameColumn,
    RegModel, TestRow,
};

const LEGEND: &str = "\\par\\vspace{2pt}\n\\footnotesize \\*** p<0.01, ** p<0.05, * p<0.1\n";

fn opts(entries: Vec<(&str, OptValue)>) -> Opts {
    Opts { entries: entries.into_iter().map(|(k, v)| (k.to_string(), v)).collect() }
}

fn strs(v: &[&str]) -> Vec<String> {
    v.iter().map(|s| s.to_string()).collect()
}

#[test]
fn stat_labels_known_and_unknown() {
    assert_eq!(stat_label("n"), "Observations");
    assert_eq!(stat_label("r2"), "$R^2$");
    assert_eq!(stat_label("adj_r2"), "Adj. $R^2$");
    assert_eq!(stat_label("sigma2"), "$\\sigma^2$");
    assert_eq!(stat_label("n_groups"), "Groups");
    assert_eq!(stat_label("foo"), "foo");
    assert_eq!(stat_label(""), "");
}

#[test]
fn diagnostics_default_untitled() {
    let expected = "\\begin{tabular}{lrrl}\n\\toprule\nTest & Statistic & p-value & Result \\\\\n\\midrule\n\
VIF (max) & --- & --- & Check \\\\\nDurbin-Watson & --- & --- & Check \\\\\n\
Breusch-Pagan & --- & --- & Check \\\\\nRESET & --- & --- & Check \\\\\n\
White & --- & --- & Check \\\\\nJarque-Bera & --- & --- & Check \\\\\n\
\\bottomrule\n\\end{tabular}\n";
    assert_eq!(diagnostics(&opts(vec![])), expected);
}

#[test]
fn diagnostics_with_title_is_wrapped() {
    let out = diagnostics(&opts(vec![("title", OptValue::Str("Diagnostic Tests".into()))]));
    assert!(out.starts_with(
        "\\begin{table}[htbp]\n\\centering\n\\caption{Diagnostic Tests}\n\\begin{tabular}{lrrl}\n"
    ));
    assert!(out.ends_with("\\bottomrule\n\\end{tabular}\n\\end{table}\n"));
}

#[test]
fn tests_table_rows_and_skips() {
    let rows = vec![
        Some(TestRow {
            name: OptValue::Str("Wald_1".into()),
            stat: "12.5".into(),
            df: OptValue::Int(2),
            p: "0.0019".into(),
            stars: "***".into(),
        }),
        None,
        Some(TestRow {
            name: OptValue::Int(3),
            stat: "---".into(),
            df: OptValue::Float(4),
            p: "0.2".into(),
            stars: "".into(),
        }),
        Some(TestRow {
            name: OptValue::Str("LM".into()),
            stat: "1".into(),
            df: OptValue::Nil,
            p: "0.5".into(),
            stars: "".into(),
        }),
    ];
    let out = tests(&rows, &opts(vec![("title", OptValue::Str(String::new()))]));
    let expected = format!(
        "\\begin{{tabular}}{{lrll}}\n\\toprule\nTest & Statistic & df & p-value \\\\\n\\midrule\n\
Wald\\_1 & 12.5 & 2 & 0.0019*** \\\\\n--- & --- & 4 & 0.2 \\\\\nLM & 1 &  & 0.5 \\\\\n\
\\bottomrule\n\\end{{tabular}}\n{LEGEND}"
    );
    assert_eq!(out, expected);
}

#[test]
fn tests_default_untitled_ignores_label() {
    let out = tests(&vec![], &opts(vec![("label", OptValue::Str("tab:t".into()))]));
    let expected = format!(
        "\\begin{{tabular}}{{lrll}}\n\\toprule\nTest & Statistic & df & p-value \\\\\n\\midrule\n\
\\bottomrule\n\\end{{tabular}}\n{LEGEND}"
    );
    assert_eq!(out, expected);
    let titled = tests(
        &vec![],
        &opts(vec![
            ("title", OptValue::Str("Specification Tests".into())),
            ("label", OptValue::Str("tab:t".into())),
        ]),
    );
    assert!(titled.starts_with(
        "\\begin{table}[htbp]\n\\centering\n\\caption{Specification Tests}\n\\label{tab:t}\n"
    ));
}

fn anova_cells() -> AnovaCells {
    AnovaCells {
        ss_model: "100".into(),
        ms_model: "50".into(),
        f_stat: "5".into(),
        prob_f: "0.0091".into(),
        ss_resid: "710".into(),
        ms_resid: "10".into(),
        ss_total: "810".into(),
    }
}

#[test]
fn anova_degrees_of_freedom() {
    let out = anova(74, 3, &anova_cells(), &opts(vec![("title", OptValue::Str("ANOVA".into()))]));
    let expected = "\\begin{table}[htbp]\n\\centering\n\\caption{ANOVA}\n\
\\begin{tabular}{lrrrrr}\n\\toprule\nSource & SS & df & MS & F & p \\\\\n\\midrule\n\
Model & 100 & 2 & 50 & 5 & 0.0091 \\\\\nResidual & 710 & 71 & 10 & & \\\\\n\\midrule\n\
Total & 810 & 73 & & & \\\\\n\\bottomrule\n\\end{tabular}\n\\end{table}\n";
    assert_eq!(out, expected);
    let untitled = anova(74, 3, &anova_cells(), &opts(vec![]));
    assert!(untitled.starts_with("\\begin{tabular}{lrrrrr}\n"));
    assert!(untitled.ends_with("\\bottomrule\n\\end{tabular}\n"));
}

#[test]
fn anova_without_observations() {
    let out = anova(0, 0, &anova_cells(), &opts(vec![("title", OptValue::Str(String::new()))]));
    assert!(out.contains("Model & 100 & -1 & 50"));
    assert!(out.contains("Residual & 710 & 0 & 10"));
    assert!(out.contains("Total & 810 & -1 & & &"));
}

fn model_a() -> RegModel {
    RegModel {
        variables: strs(&["x_1", "_cons"]),
        coef: strs(&["1.5", "2"]),
        se: strs(&["0.5", "1"]),
        stars: strs(&["***", ""]),
        stats: vec![("n".into(), "74".into()), ("r2".into(), "0.25".into())],
    }
}

fn model_b() -> RegModel {
    RegModel {
        variables: strs(&["const", "z"]),
        coef: strs(&["3", "-0.1"]),
        se: strs(&["1.2", "0.05"]),
        stars: strs(&["*", "**"]),
        stats: vec![("n".into(), "50".into())],
    }
}

#[test]
fn regression_two_models_default_stats() {
    let o = opts(vec![(
        "labels",
        OptValue::Dict(vec![("z".into(), OptValue::Str("Zed_lbl".into()))]),
    )]);
    let out = regression(&vec![model_a(), model_b()], None, &o);
    let expected = format!(
        "\\begin{{tabular}}{{lcc}}\n\\toprule\n & (1) & (2) \\\\\n\\midrule\n\
x\\_1 & 1.5*** &  \\\\\n & (0.5) &  \\\\\n\
Constant & 2 & 3* \\\\\n & (1) & (1.2) \\\\\n\
Constant & 2 & 3* \\\\\n & (1) & (1.2) \\\\\n\
Zed\\_lbl &  & -0.1** \\\\\n &  & (0.05) \\\\\n\
\\midrule\nObservations & 74 & 50 \\\\\n$R^2$ & 0.25 &  \\\\\n\
\\bottomrule\n\\end{{tabular}}\n{LEGEND}"
    );
    assert_eq!(out, expected);
}

#[test]
fn regression_no_stars_no_se_custom_stats() {
    let o = opts(vec![
        ("stars", OptValue::Bool(false)),
        ("se", OptValue::Int(0)),
        ("title", OptValue::Str("T".into())),
        ("label", OptValue::Str("tab:r".into())),
    ]);
    let out = regression(&vec![model_a()], Some(strs(&["aic"])), &o);
    let expected = "\\begin{table}[htbp]\n\\centering\n\\caption{T}\n\\label{tab:r}\n\
\\begin{tabular}{lc}\n\\toprule\n & (1) \\\\\n\\midrule\n\
x\\_1 & 1.5 \\\\\nConstant & 2 \\\\\n\\midrule\nAIC &  \\\\\n\
\\bottomrule\n\\end{tabular}\n\\end{table}\n";
    assert_eq!(out, expected);
}

#[test]
fn regression_without_models() {
    assert_eq!(regression(&vec![], None, &opts(vec![])), "% Error: no valid models");
}

fn cor_cells(n: usize) -> CorCells {
    CorCells {
        r: vec![strs(&["1", "0.5"]), strs(&["0.5", "1"])],
        tstars: vec![strs(&["", ""]), strs(&["**", ""])],
        n,
    }
}

#[test]
fn correlation_lower_triangle() {
    let vars = strs(&["a", "b_c"]);
    let out = correlation(&vars, Some(cor_cells(10)), &opts(vec![]));
    let expected = format!(
        "\\begin{{tabular}}{{lcc}}\n\\toprule\n & (1) & (2) \\\\\n\\midrule\n\
(1) a & 1 &  \\\\\n(2) b\\_c & 0.5** & 1 \\\\\n\\bottomrule\n\\end{{tabular}}\n{LEGEND}"
    );
    assert_eq!(out, expected);
}

#[test]
fn correlation_two_observations_no_stars() {
    let vars = strs(&["a", "b_c"]);
    let out = correlation(&vars, Some(cor_cells(2)), &opts(vec![]));
    assert!(out.contains("(2) b\\_c & 0.5 & 1 \\\\\n"));
}

#[test]
fn correlation_missing_column() {
    let vars = strs(&["a", "b"]);
    assert_eq!(
        correlation(&vars, None, &opts(vec![])),
        "% Error: could not extract all 2 columns"
    );
}

#[test]
fn summary_lines_each_case() {
    let vars = strs(&["price", "missing_col", "empty"]);
    let cols = vec![
        Some(ColumnSummary {
            n: 3,
            mean: "2".into(),
            sd: "1".into(),
            min: "1".into(),
            p25: "1".into(),
            p50: "2".into(),
            max: "3".into(),
        }),
        None,
        Some(ColumnSummary {
            n: 0,
            mean: "".into(),
            sd: "".into(),
            min: "".into(),
            p25: "".into(),
            p50: "".into(),
            max: "".into(),
        }),
    ];
    let out = summary(&vars, &cols, &opts(vec![]));
    let expected = "\\begin{tabular}{lrrrrrrr}\n\\toprule\n\
Variable & N & Mean & Std.~Dev. & Min & p25 & p50 & Max \\\\\n\\midrule\n\
price & 3 & 2 & 1 & 1 & 1 & 2 & 3 \\\\\n\
% Error: column 'missing_col' not found or not numeric\n\
empty & 0 & --- & --- & --- & --- & --- & --- \\\\\n\
\\bottomrule\n\\end{tabular}\n";
    assert_eq!(out, expected);
}

#[test]
fn table_longtable_with_caption() {
    let cols = vec![
        FrameColumn { name: "name".into(), cells: ColumnCells::Text(strs(&["A&B", "C"])) },
        FrameColumn { name: "x_val".into(), cells: ColumnCells::Numeric(strs(&["1.5", "2"])) },
        FrameColumn { name: "weird".into(), cells: ColumnCells::Absent },
    ];
    let o = opts(vec![
        ("caption", OptValue::Str("Data".into())),
        ("longtable", OptValue::Bool(true)),
    ]);
    let expected = "\\begin{table}[htbp]\n\\centering\n\\caption{Data}\n\
\\begin{longtable}{lrr}\n\\toprule\nname & x\\_val & weird \\\\\n\\midrule\n\
A\\&B & 1.5 & --- \\\\\nC & 2 & --- \\\\\n\\bottomrule\n\\end{longtable}\n\\end{table}\n";
    assert_eq!(table(&cols, 2, &o), expected);
}

#[test]
fn table_without_columns() {
    assert_eq!(
        table(&vec![], 0, &opts(vec![])),
        "\\begin{tabular}{l}\n\\toprule\n \\\\\n\\midrule\n\\bottomrule\n\\end{tabular}\n"
    );
}

#[test]
fn codebook_counts() {
    let cols = vec![
        CodebookColumn {
            name: "price".into(),
            values: ColumnValues::Numeric(vec![Some(1), Some(2), Some(1), None]),
        },
        CodebookColumn {
            name: "make_name".into(),
            values: ColumnValues::Text(strs(&["a", "", "b", "a"])),
        },
        CodebookColumn { name: "other".into(), values: ColumnValues::Absent },
    ];
    let expected = "\\begin{tabular}{llrrr}\n\\toprule\nVariable & Type & N & Unique & Missing \\\\\n\\midrule\n\
price & numeric & 4 & 2 & 1 \\\\\nmake\\_name & string & 4 & 2 & 1 \\\\\n\
other & unknown & 4 & 0 & 0 \\\\\n\\bottomrule\n\\end{tabular}\n";
    assert_eq!(codebook(&cols, 4, &opts(vec![])), expected);
}

#[test]
fn codebook_distinct_count_equals_set_size() {
    let values = strs(&["x", "y", "x", "", "z", "y", ""]);
    let cols = vec![CodebookColumn { name: "v".into(), values: ColumnValues::Text(values) }];
    let out = codebook(&cols, 7, &opts(vec![("title", OptValue::Str(String::new()))]));
    assert!(out.contains("v & string & 7 & 3 & 2 \\\\\n"));
}

#[test]
fn regression_repeated_variable_reads_first_figures() {
    let m = RegModel {
        variables: strs(&["x", "x"]),
        coef: strs(&["1"]),
        se: strs(&["0.1"]),
        stars: strs(&[""]),
        stats: vec![],
    };
    let out = regression(&vec![m], Some(vec![]), &opts(vec![("stars", OptValue::Bool(false))]));
    assert_eq!(
        out,
        "\\begin{tabular}{lc}\n\\toprule\n & (1) \\\\\n\\midrule\nx & 1 \\\\\n & (0.1) \\\\\n\\midrule\n\\bottomrule\n\\end{tabular}\n"
    );
}
