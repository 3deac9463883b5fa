use haytex::format::Format;
use haytex::helpers::{
    esc, join, repeat, star_legend, trim_decimal, wrap_table, wrap_table_end, wrap_table_start,
};
use haytex::options::{opt_bool, opt_int, opt_labels, opt_str, opt_str_list, OptValue, Opts};
use haytex::text::{int_text, usize_text};

#[test]
fn test_esc_special_chars() {
    assert_eq!(esc("a & b"), "a \\& b");
    assert_eq!(esc("50%"), "50\\%");
    assert_eq!(esc("a_b"), "a\\_b");
    assert_eq!(esc("a#b"), "a\\#b");
    assert_eq!(esc("plain"), "plain");
}

#[test]
fn test_repeat() {
    assert_eq!(repeat("r", 3), "rrr");
    assert_eq!(repeat("x", 0), "");
}

#[test]
fn test_join() {
    let v: Vec<String> = vec!["a".into(), "b".into(), "c".into()];
    assert_eq!(join(&v, " & "), "a & b & c");
    assert_eq!(join(&v, ""), "abc");
}

#[test]
fn test_opt_helpers() {
    let opts = Opts {
        entries: vec![
            ("cap".to_string(), OptValue::Str("My Table".into())),
            ("dec".to_string(), OptValue::Int(4)),
            ("long".to_string(), OptValue::Bool(true)),
            ("alpha".to_string(), OptValue::Float(0.05f64 as i64)),
        ],
    };
    assert_eq!(opt_str(&opts, "cap", "default"), "My Table");
    assert_eq!(opt_str(&opts, "missing", "default"), "default");
    assert_eq!(opt_int(&opts, "dec", 3), 4);
    assert_eq!(opt_int(&opts, "missing", 3), 3);
    assert_eq!(opt_bool(&opts, "long", false), true);
    assert_eq!(opt_bool(&opts, "missing", false), false);
}

#[test]
fn esc_multiple_and_backslash_untouched() {
    assert_eq!(esc("a_b_c & 100% #1"), "a\\_b\\_c \\& 100\\% \\#1");
    assert_eq!(esc("\\alpha"), "\\alpha");
    assert_eq!(esc(""), "");
}

#[test]
fn join_edges() {
    let empty: Vec<String> = vec![];
    assert_eq!(join(&empty, ", "), "");
    let one: Vec<String> = vec!["x".into()];
    assert_eq!(join(&one, ", "), "x");
}

#[test]
fn repeat_multichar() {
    assert_eq!(repeat("ab", 3), "ababab");
}

#[test]
fn wrap_table_with_and_without_caption() {
    assert_eq!(wrap_table("BODY\n", "", "tab:x"), "BODY\n");
    assert_eq!(
        wrap_table("BODY\n", "My_Cap", ""),
        "\\begin{table}[htbp]\n\\centering\n\\caption{My\\_Cap}\nBODY\n\\end{table}\n"
    );
    assert_eq!(
        wrap_table("BODY\n", "Cap", "tab:x"),
        "\\begin{table}[htbp]\n\\centering\n\\caption{Cap}\n\\label{tab:x}\nBODY\n\\end{table}\n"
    );
    assert_eq!(wrap_table_start("", "l"), "");
    assert_eq!(wrap_table_end(""), "");
    assert_eq!(wrap_table_end("c"), "\\end{table}\n");
}

#[test]
fn star_legend_text() {
    assert_eq!(
        star_legend(),
        "\\par\\vspace{2pt}\n\\footnotesize \\*** p<0.01, ** p<0.05, * p<0.1\n"
    );
    assert_eq!(Format::Latex.star_legend(), star_legend());
}

#[test]
fn trim_decimal_cases() {
    assert_eq!(trim_decimal("1.5000"), "1.5");
    assert_eq!(trim_decimal("-3.14"), "-3.14");
    assert_eq!(trim_decimal("-0.100"), "-0.1");
    assert_eq!(trim_decimal("2.000"), "2");
    assert_eq!(trim_decimal("-0.000"), "-0");
    assert_eq!(trim_decimal("-.0"), "0");
    assert_eq!(trim_decimal("0.000"), "0");
    assert_eq!(trim_decimal("100"), "100");
    assert_eq!(trim_decimal("1200.00"), "1200");
}

#[test]
fn number_text() {
    assert_eq!(usize_text(0), "0");
    assert_eq!(usize_text(9000), "9000");
    assert_eq!(int_text(-42), "-42");
    assert_eq!(int_text(i64::MIN), "-9223372036854775808");
    assert_eq!(int_text(i64::MAX), "9223372036854775807");
}

#[test]
fn opt_values_by_kind() {
    let opts = Opts {
        entries: vec![
            ("f".to_string(), OptValue::Float(2)),
            ("i".to_string(), OptValue::Int(0)),
            ("s".to_string(), OptValue::Str("x".into())),
            ("l".to_string(), OptValue::List(vec!["n".into(), "r2".into()])),
            (
                "d".to_string(),
                OptValue::Dict(vec![
                    ("mpg".to_string(), OptValue::Str("MPG".into())),
                    ("w".to_string(), OptValue::Int(3)),
                ]),
            ),
        ],
    };
    assert_eq!(opt_int(&opts, "f", 7), 2);
    assert_eq!(opt_int(&opts, "s", 7), 7);
    assert_eq!(opt_bool(&opts, "i", true), false);
    assert_eq!(opt_bool(&opts, "s", true), true);
    assert_eq!(opt_str(&opts, "i", "dflt"), "dflt");
    assert_eq!(opt_str_list(&opts, "l"), vec!["n".to_string(), "r2".to_string()]);
    assert!(opt_str_list(&opts, "s").is_empty());
    let labels = opt_labels(&opts, "d");
    assert_eq!(labels.get("mpg"), Some("MPG".to_string()));
    assert_eq!(labels.get("w"), None);
    assert_eq!(opt_labels(&opts, "l").entries.len(), 0);
}
