use haytex::format::{Format, Table};

#[test]
fn from_str_names() {
    assert_eq!(Format::from_str("html"), Format::Html);
    assert_eq!(Format::from_str("HTML"), Format::Html);
    assert_eq!(Format::from_str("Rtf"), Format::Rtf);
    assert_eq!(Format::from_str("csv"), Format::Csv);
    assert_eq!(Format::from_str("latex"), Format::Latex);
    assert_eq!(Format::from_str("pdf"), Format::Latex);
    assert_eq!(Format::from_str(""), Format::Latex);
}

#[test]
fn esc_cell_per_format() {
    assert_eq!(Format::Latex.esc_cell("a&b_c"), "a\\&b\\_c");
    assert_eq!(Format::Html.esc_cell("a<b>&c"), "a&lt;b&gt;&amp;c");
    assert_eq!(Format::Rtf.esc_cell("{a\\b}"), "\\{a\\\\b\\}");
    assert_eq!(Format::Csv.esc_cell("say \"hi\""), "say \"\"hi\"\"");
}

#[test]
fn esc_cell_html_keeps_sup() {
    let f = Format::Html;
    assert_eq!(f.esc_cell_html("1.5<sup>***</sup>"), "1.5<sup>***</sup>");
    assert_eq!(f.esc_cell_html("a<b"), "a&lt;b");
    assert_eq!(f.esc_cell_html("x & y<sup>*</sup> < z"), "x &amp; y<sup>*</sup> &lt; z");
    assert_eq!(f.esc_cell_html("<sup>open"), "&lt;sup&gt;open");
    assert_eq!(
        f.esc_cell_html("<sup>a</sup><sup>b</sup>&"),
        "<sup>a</sup><sup>b</sup>&amp;"
    );
}

#[test]
fn fmt_stars_per_format() {
    assert_eq!(Format::Html.fmt_stars("**", true), "<sup>**</sup>");
    assert_eq!(Format::Html.fmt_stars("", true), "");
    assert_eq!(Format::Latex.fmt_stars("***", true), "***");
    assert_eq!(Format::Csv.fmt_stars("*", true), "*");
    assert_eq!(Format::Rtf.fmt_stars("*", false), "");
}

fn sample() -> Table {
    let mut t = Table::new(2, 'l');
    t.headers.push(vec!["Var".into(), "Coef".into()]);
    t.body.push(vec!["x_1".into(), "1.5".into()]);
    t.footer.push(vec!["N".into(), "10".into()]);
    t
}

#[test]
fn table_new_is_empty() {
    let t = Table::new(3, 'r');
    assert_eq!(t.align, vec!['r', 'r', 'r']);
    assert!(t.headers.is_empty() && t.body.is_empty() && t.footer.is_empty());
    assert_eq!(t.caption, "");
    assert!(!t.show_stars);
}

#[test]
fn render_latex_exact() {
    let mut t = sample();
    t.caption = "Cap".into();
    t.label = "tab:a".into();
    assert_eq!(
        t.render(Format::Latex),
        "\\begin{table}[htbp]\n\\centering\n\\caption{Cap}\n\\label{tab:a}\n\\begin{tabular}{ll}\n\\toprule\nVar & Coef \\\\\n\\midrule\nx_1 & 1.5 \\\\\n\\midrule\nN & 10 \\\\\n\\bottomrule\n\\end{tabular}\n\\end{table}\n"
    );
}

#[test]
fn render_html_exact() {
    let mut t = sample();
    t.show_stars = true;
    assert_eq!(
        t.render(Format::Html),
        "<table>\n<thead>\n<tr><th>Var</th><th>Coef</th></tr>\n</thead>\n<tbody>\n<tr><td>x_1</td><td>1.5</td></tr>\n</tbody>\n<tbody>\n<tr><td>N</td><td>10</td></tr>\n</tbody>\n</table>\n<p style=\"font-size:0.8em\">*** p&lt;0.01, ** p&lt;0.05, * p&lt;0.1</p>\n"
    );
}

#[test]
fn render_rtf_exact() {
    let t = sample();
    let row = "\\trowd \\cellx 4500 \\cellx 9000 ";
    let expected = format!(
        "{{\\rtf1\\ansi\n{row}\\intbl Var \\cell\\intbl Coef \\cell\\row\n{row}\\intbl x_1 \\cell\\intbl 1.5 \\cell\\row\n{row}\\intbl N \\cell\\intbl 10 \\cell\\row\n}}\n"
    );
    assert_eq!(t.render(Format::Rtf), expected);
}

#[test]
fn render_csv_exact() {
    let mut t = sample();
    t.show_stars = true;
    assert_eq!(
        t.render(Format::Csv),
        "\"Var\",\"Coef\"\n\"x_1\",\"1.5\"\n\"N\",\"10\"\n\"*** p<0.01, ** p<0.05, * p<0.1\"\n"
    );
}

#[test]
fn render_latex_no_headers_no_footer() {
    let mut t = Table::new(1, 'c');
    t.body.push(vec!["a".into()]);
    assert_eq!(
        t.render(Format::Latex),
        "\\begin{tabular}{c}\n\\toprule\na \\\\\n\\bottomrule\n\\end{tabular}\n"
    );
}
