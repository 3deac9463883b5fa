use haytex::equations::{
    equation, forecast, formula, margins, matrix, CoefText, ForecastCells, MarginCells,
};
use haytex::models::ModelData;
use haytex::options::{OptValue, Opts};

const LEGEND: &str = "\\par\\vspace{2pt}\n\\footnotesize \\*** p<0.01, ** p<0.05, * p<0.1\n";

fn opts(entries: Vec<(&str, OptValue)>) -> Opts {
    Opts { entries: entries.into_iter().map(|(k, v)| (k.to_string(), v)).collect() }
}

fn model(vars: &[&str]) -> ModelData {
    ModelData {
        model_type: "ols".into(),
        variables: vars.iter().map(|s| s.to_string()).collect(),
    }
}

fn coef(value: &str, magnitude: &str, negative: bool, stars: &str) -> CoefText {
    CoefText {
        value: value.into(),
        magnitude: magnitude.into(),
        negative,
        stars: stars.into(),
    }
}

fn with_constant() -> (ModelData, Vec<CoefText>) {
    (
        model(&["mpg", "_cons", "weight"]),
        vec![
            coef("-0.5", "0.5", true, "**"),
            coef("10", "10", false, "***"),
            coef("0.002", "0.002", false, ""),
        ],
    )
}

#[test]
fn equation_symbolic_with_constant() {
    let (md, c) = with_constant();
    assert_eq!(
        equation(&md, &c, &opts(vec![])),
        "\\begin{equation}\n\\hat{y} = \\beta_0 + \\beta_1 mpg + \\beta_2 weight + \\varepsilon\n\\end{equation}\n"
    );
}

#[test]
fn equation_estimated_with_stars() {
    let (md, c) = with_constant();
    assert_eq!(
        equation(&md, &c, &opts(vec![("estimated", OptValue::Bool(true))])),
        "\\begin{equation}\n\\hat{y} = 10*** - 0.5** mpg + 0.002 weight + \\varepsilon\n\\end{equation}\n"
    );
}

#[test]
fn equation_estimated_unnumbered_without_stars() {
    let (md, c) = with_constant();
    let o = opts(vec![
        ("estimated", OptValue::Int(1)),
        ("numbered", OptValue::Bool(false)),
        ("stars", OptValue::Bool(false)),
    ]);
    assert_eq!(
        equation(&md, &c, &o),
        "\\begin{equation*}\n\\hat{y} = 10 - 0.5 mpg + 0.002 weight + \\varepsilon\n\\end{equation*}\n"
    );
}

#[test]
fn equation_without_constant() {
    let md = model(&["x_1", "y"]);
    let c = vec![coef("-1", "1", true, "*"), coef("2", "2", false, "")];
    assert_eq!(
        equation(&md, &c, &opts(vec![("estimated", OptValue::Bool(true))])),
        "\\begin{equation}\n\\hat{y} = - 1* x\\_1 + 2 y + \\varepsilon\n\\end{equation}\n"
    );
    assert_eq!(
        equation(&md, &c, &opts(vec![])),
        "\\begin{equation}\n\\hat{y} = \\beta_1 x\\_1 + \\beta_2 y + \\varepsilon\n\\end{equation}\n"
    );
}

#[test]
fn equation_constant_named_intercept() {
    let md = model(&["intercept", "x"]);
    let c = vec![coef("1", "1", false, ""), coef("3", "3", false, "")];
    assert_eq!(
        equation(&md, &c, &opts(vec![("estimated", OptValue::Bool(true))])),
        "\\begin{equation}\n\\hat{y} = 1 + 3 x + \\varepsilon\n\\end{equation}\n"
    );
}

#[test]
fn formula_is_equation() {
    let (md, c) = with_constant();
    let o = opts(vec![("estimated", OptValue::Bool(true))]);
    assert_eq!(formula(&md, &c, &o), equation(&md, &c, &o));
}

#[test]
fn matrix_rows_cut_to_first() {
    let cells = vec![
        vec!["1".to_string(), "2".to_string()],
        vec!["3".to_string(), "4".to_string(), "5".to_string()],
    ];
    assert_eq!(
        matrix(&cells, &opts(vec![])),
        "\\begin{bmatrix}\n1 & 2 \\\\\n3 & 4\n\\end{bmatrix}\n"
    );
}

#[test]
fn matrix_empty_with_parentheses() {
    let cells: Vec<Vec<String>> = vec![];
    assert_eq!(
        matrix(&cells, &opts(vec![("brackets", OptValue::Str("p".into()))])),
        "\\begin{pmatrix}\n\\end{pmatrix}\n"
    );
}

fn margin(me: &str, stars: &str) -> MarginCells {
    MarginCells {
        me: me.into(),
        stars: stars.into(),
        se: "0.1".into(),
        z: "2.5".into(),
        p: "0.012".into(),
    }
}

#[test]
fn margins_skip_constant_latex() {
    let md = model(&["x", "_cons"]);
    let cells = vec![margin("0.25", "***"), margin("1", "")];
    let expected = format!(
        "\\begin{{tabular}}{{lllll}}\n\\toprule\nVariable & dy/dx & Std.~Err. & z & p \\\\\n\\midrule\n\
x & 0.25*** & 0.1 & 2.5 & 0.012 \\\\\n\\bottomrule\n\\end{{tabular}}\n{LEGEND}"
    );
    assert_eq!(margins(&md, &cells, &opts(vec![])), expected);
}

#[test]
fn margins_csv() {
    let md = model(&["const", "x_2"]);
    let cells = vec![margin("1", ""), margin("0.25", "*")];
    let o = opts(vec![("format", OptValue::Str("CSV".into()))]);
    assert_eq!(
        margins(&md, &cells, &o),
        "\"Variable\",\"dy/dx\",\"Std.~Err.\",\"z\",\"p\"\n\"x\\_2\",\"0.25*\",\"0.1\",\"2.5\",\"0.012\"\n\"*** p<0.01, ** p<0.05, * p<0.1\"\n"
    );
}

fn fc() -> ForecastCells {
    ForecastCells { f: "10".into(), lo: "8".into(), hi: "12".into() }
}

#[test]
fn forecast_two_periods() {
    let expected = "\\begin{table}[htbp]\n\\centering\n\\caption{Forecasts}\n\
\\begin{tabular}{rrrr}\n\\toprule\nPeriod & Forecast & Lower & Upper \\\\\n\\midrule\n\
1 & 10 & 8 & 12 \\\\\n2 & 10 & 8 & 12 \\\\\n\\bottomrule\n\\end{tabular}\n\\end{table}\n";
    assert_eq!(forecast(2, &fc(), &opts(vec![])), expected);
}

#[test]
fn forecast_no_periods() {
    let o = opts(vec![("title", OptValue::Str(String::new()))]);
    assert_eq!(
        forecast(0, &fc(), &o),
        "\\begin{tabular}{rrrr}\n\\toprule\nPeriod & Forecast & Lower & Upper \\\\\n\\midrule\n\\bottomrule\n\\end{tabular}\n"
    );
}

#[test]
fn forecast_html() {
    let o = opts(vec![
        ("format", OptValue::Str("html".into())),
        ("title", OptValue::Str("F<1>".into())),
    ]);
    assert_eq!(
        forecast(1, &fc(), &o),
        "<table>\n<caption>F&lt;1&gt;</caption>\n<thead>\n<tr><th>Period</th><th>Forecast</th><th>Lower</th><th>Upper</th></tr>\n</thead>\n<tbody>\n<tr><td>1</td><td>10</td><td>8</td><td>12</td></tr>\n</tbody>\n</table>\n"
    );
}

#[test]
fn equation_readme_example() {
    let md = model(&["mpg", "weight", "_cons"]);
    let c = vec![
        coef("-49.512", "49.512", true, ""),
        coef("1.747", "1.747", false, "***"),
        coef("1946.069", "1946.069", false, ""),
    ];
    assert_eq!(
        equation(&md, &c, &opts(vec![("estimated", OptValue::Bool(true))])),
        "\\begin{equation}\n\\hat{y} = 1946.069 - 49.512 mpg + 1.747*** weight + \\varepsilon\n\\end{equation}\n"
    );
    assert_eq!(
        equation(&model(&["_cons", "mpg", "weight"]), &vec![], &opts(vec![])),
        "\\begin{equation}\n\\hat{y} = \\beta_0 + \\varepsilon\n\\end{equation}\n"
    );
}

#[test]
fn margins_with_title() {
    let md = model(&["x"]);
    let cells = vec![margin("0.25", "")];
    let o = opts(vec![("title", OptValue::Str("ME".into()))]);
    let expected = format!(
        "\\begin{{table}}[htbp]\n\\centering\n\\caption{{ME}}\n\\begin{{tabular}}{{lllll}}\n\\toprule\n\
Variable & dy/dx & Std.~Err. & z & p \\\\\n\\midrule\nx & 0.25 & 0.1 & 2.5 & 0.012 \\\\\n\
\\bottomrule\n\\end{{tabular}}\n\\end{{table}}\n{LEGEND}"
    );
    assert_eq!(margins(&md, &cells, &o), expected);
}
