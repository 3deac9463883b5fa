use haytex::format::{fmt_coef, fmt_se, format_name, Format};
use haytex::models::{
    all_numeric, find_in, is_arrow_pointer_key, is_model_field, matches_name, ItemKind, ModelData,
};
use haytex::text::{same_text, sort_texts, text_less};

fn model(vars: &[&str]) -> ModelData {
    ModelData {
        model_type: "logit".into(),
        variables: vars.iter().map(|s| s.to_string()).collect(),
    }
}

#[test]
fn find_var_constant_aliases() {
    let md = model(&["x", "intercept"]);
    assert_eq!(md.find_var("x"), Some(0));
    assert_eq!(md.find_var("_cons"), Some(1));
    assert_eq!(md.find_var("const"), Some(1));
    assert_eq!(md.find_var("intercept"), Some(1));
    assert_eq!(md.find_var("y"), None);
    assert_eq!(md.has_constant(), Some(1));
}

#[test]
fn find_var_first_match_wins() {
    let md = model(&["const", "_cons"]);
    assert_eq!(md.find_var("_cons"), Some(0));
    assert_eq!(md.find_var("const"), Some(0));
    assert_eq!(md.has_constant(), Some(0));
    assert_eq!(model(&["x", "z"]).has_constant(), None);
    assert_eq!(model(&[]).find_var("x"), None);
}

#[test]
fn intercept_finds_any_constant_name() {
    assert!(matches_name("_cons", "intercept"));
    assert!(matches_name("const", "intercept"));
    assert!(matches_name("intercept", "_cons"));
    assert!(!matches_name("x", "intercept"));
    let vars: Vec<String> = vec!["_cons".into()];
    assert_eq!(find_in(&vars, "intercept"), Some(0));
    let md = model(&["_cons", "x"]);
    assert_eq!(md.find_var("_cons"), Some(0));
    assert_eq!(md.find_var("const"), Some(0));
    assert_eq!(md.find_var("intercept"), Some(0));
    assert_eq!(md.find_var("x"), Some(1));
    assert_eq!(md.find_var("y"), None);
}

#[test]
fn sort_texts_orders_by_code_point() {
    let mut v: Vec<String> = vec!["b".into(), "a".into(), "ab".into(), "B".into(), "".into(), "a".into()];
    sort_texts(&mut v);
    assert_eq!(v, vec!["", "B", "a", "a", "ab", "b"]);
    let mut e: Vec<String> = vec![];
    sort_texts(&mut e);
    assert!(e.is_empty());
}

#[test]
fn text_less_is_strict_order() {
    assert!(text_less("a", "ab"));
    assert!(!text_less("ab", "a"));
    assert!(!text_less("a", "a"));
    assert!(text_less("", "a"));
    assert!(text_less("Z", "a"));
    assert!(same_text("abc", "abc"));
    assert!(!same_text("abc", "abd"));
}

#[test]
fn format_name_round_trip() {
    for f in [Format::Latex, Format::Html, Format::Rtf, Format::Csv] {
        assert_eq!(Format::from_str(format_name(f)), f);
    }
    assert_eq!(format_name(Format::Html), "html");
    assert_eq!(format_name(Format::Latex), "latex");
}

#[test]
fn coef_and_se_cells() {
    assert_eq!(fmt_coef("1.5", "***", Format::Html, true), "1.5<sup>***</sup>");
    assert_eq!(fmt_coef("1.5", "***", Format::Latex, true), "1.5***");
    assert_eq!(fmt_coef("1.5", "***", Format::Rtf, false), "1.5");
    assert_eq!(fmt_se("0.25"), "(0.25)");
}

#[test]
fn star_legend_per_format() {
    assert_eq!(Format::Csv.star_legend(), "*** p<0.01, ** p<0.05, * p<0.1\n");
    assert_eq!(Format::Rtf.star_legend(), "\\par *** p<0.01, ** p<0.05, * p<0.1\\par\n");
    assert_eq!(
        Format::Latex.star_legend(),
        "\\par\\vspace{2pt}\n\\footnotesize \\*** p<0.01, ** p<0.05, * p<0.1\n"
    );
}

#[test]
fn html_cell_spans() {
    let f = Format::Html;
    assert_eq!(f.esc_cell_html("a&b<sup>x<y</sup>c>d"), "a&amp;b<sup>x<y</sup>c&gt;d");
    assert_eq!(f.esc_cell_html("a&<sup>m"), "a&amp;&lt;sup&gt;m");
    for g in [Format::Latex, Format::Rtf, Format::Csv] {
        assert_eq!(g.esc_cell_html("a&b<sup>*</sup>"), f.esc_cell_html("a&b<sup>*</sup>"));
    }
}

#[test]
fn html_cell_keeps_star_superscript() {
    let f = Format::Html;
    let cell = format!("{}{}", "a&b", f.fmt_stars("**", true));
    assert_eq!(f.esc_cell_html(&cell), "a&amp;b<sup>**</sup>");
    assert_eq!(f.esc_cell_html("plain text"), "plain text");
}

#[test]
fn model_fields_are_not_fit_statistics() {
    for k in ["__model_type__", "variable", "coef", "std_err", "t", "z", "p_value", "conf_low", "conf_high"] {
        assert!(is_model_field(k), "{k}");
    }
    for k in ["r2", "n", "sigma", "coefs", "T", ""] {
        assert!(!is_model_field(k), "{k}");
    }
    assert!(is_arrow_pointer_key("__arrow_array_ptr__"));
    assert!(is_arrow_pointer_key("__arrow_schema_ptr__"));
    assert!(!is_arrow_pointer_key("price"));
}

#[test]
fn numeric_columns() {
    assert!(all_numeric(&vec![ItemKind::Float, ItemKind::Int, ItemKind::Nil]));
    assert!(all_numeric(&vec![]));
    assert!(!all_numeric(&vec![ItemKind::Float, ItemKind::Str]));
    assert!(!all_numeric(&vec![ItemKind::Other]));
}
