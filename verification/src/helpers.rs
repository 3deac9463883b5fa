//! Helpers for LaTeX text: escaping, repeating and joining strings, the
//! `table` environment wrapper, the star legend, and the trimming of
//! trailing zeros in decimal numbers.
use crate::format::{escape_cell, push_escaped, Format};
use crate::format::cell_char;
use crate::text::{
    chars_of, concat_all, has_char, join_seq, push_chars, push_joined, repeat_seq, texts,
};
use vstd::prelude::*;
use vstd::string::*;

verus! {

broadcast use vstd::string::group_string_axioms;

/// `s` with `&`, `%`, `_` and `#` each preceded by a backslash.
pub open spec fn spec_esc(s: Seq<char>) -> Seq<char> {
    escape_cell(Format::Latex, s)
}

/// Escape special LaTeX characters in a string.
pub fn esc(s: &str) -> (res: String)
    ensures
        res@ == spec_esc(s@),
{
    let mut out = String::new();
    push_escaped(&mut out, Format::Latex, s);
    out
}

/// Repeat a string n times.
pub fn repeat(s: &str, n: usize) -> (res: String)
    ensures
        res@ == repeat_seq(s@, n as nat),
{
    let mut out = String::new();
    let mut i: usize = 0;
    while i < n
        invariant
            i <= n,
            out@ == repeat_seq(s@, i as nat),
        decreases n - i,
    {
        out.append(s);
        i += 1;
    }
    out
}

/// Join a slice of strings with a separator.
pub fn join(lst: &[String], sep: &str) -> (res: String)
    ensures
        res@ == join_seq(texts(lst@), sep@),
{
    let mut out = String::new();
    push_joined(&mut out, lst, sep);
    out
}

/// What opens a captioned `table` environment: nothing without a caption;
/// otherwise `\begin{table}[htbp]`, `\centering`, the escaped caption, and the
/// label when there is one.
pub open spec fn table_open(caption: Seq<char>, label: Seq<char>) -> Seq<char> {
    if caption.len() == 0 {
        Seq::empty()
    } else {
        "\\begin{table}[htbp]\n\\centering\n"@ + "\\caption{"@ + spec_esc(caption) + "}\n"@ + (
        if label.len() == 0 {
            Seq::empty()
        } else {
            "\\label{"@ + label + "}\n"@
        })
    }
}

/// What closes a captioned `table` environment: nothing without a caption.
pub open spec fn table_close(caption: Seq<char>) -> Seq<char> {
    if caption.len() == 0 {
        Seq::empty()
    } else {
        "\\end{table}\n"@
    }
}

/// Appends the opening of a captioned `table` environment.
pub(crate) fn push_table_open(out: &mut String, caption: &str, label: &str)
    ensures
        final(out)@ == old(out)@ + table_open(caption@, label@),
{
    if caption.unicode_len() != 0 {
        out.append("\\begin{table}[htbp]\n\\centering\n");
        out.append("\\caption{");
        push_escaped(out, Format::Latex, caption);
        out.append("}\n");
        if label.unicode_len() != 0 {
            out.append("\\label{");
            out.append(label);
            out.append("}\n");
        }
    }
}

/// Opening of a captioned `table` environment (empty without a caption).
pub fn wrap_table_start(caption: &str, label: &str) -> (res: String)
    ensures
        res@ == table_open(caption@, label@),
{
    let mut out = String::new();
    push_table_open(&mut out, caption, label);
    out
}

/// Closing of a captioned `table` environment (empty without a caption).
pub fn wrap_table_end(caption: &str) -> (res: &'static str)
    ensures
        res@ == table_close(caption@),
{
    if caption.unicode_len() == 0 {
        proof {
            reveal_strlit("");
        }
        ""
    } else {
        "\\end{table}\n"
    }
}

/// Wrap content in a table environment with optional caption and label.
pub fn wrap_table(content: &str, caption: &str, label: &str) -> (res: String)
    ensures
        res@ == table_open(caption@, label@) + content@ + table_close(caption@),
{
    let mut out = String::new();
    push_table_open(&mut out, caption, label);
    out.append(content);
    out.append(wrap_table_end(caption));
    out
}

/// The LaTeX star legend.
pub open spec fn latex_legend() -> Seq<char> {
    "\\par\\vspace{2pt}\n\\footnotesize \\*** p<0.01, ** p<0.05, * p<0.1\n"@
}

/// Star legend footer.
pub fn star_legend() -> (res: &'static str)
    ensures
        res@ == latex_legend(),
{
    "\\par\\vspace{2pt}\n\\footnotesize \\*** p<0.01, ** p<0.05, * p<0.1\n"
}

/// `s` without the copies of `c` at its end.
pub open spec fn trim_end_char(s: Seq<char>, c: char) -> Seq<char>
    decreases s.len(),
{
    if s.len() > 0 && s.last() == c {
        trim_end_char(s.drop_last(), c)
    } else {
        s
    }
}

/// A number written with a fixed count of decimals, shortened: when it has
/// a decimal point, trailing zeros and then a trailing point are removed, and
/// what would be empty or a lone minus sign becomes `0`.
pub open spec fn trimmed_decimal(s: Seq<char>) -> Seq<char> {
    if s.contains('.') {
        let t = trim_end_char(trim_end_char(s, '0'), '.');
        if t.len() == 0 || t == seq!['-'] {
            seq!['0']
        } else {
            t
        }
    } else {
        s
    }
}

proof fn lemma_trim_end_prefix(s: Seq<char>, c: char, n: int)
    requires
        0 <= n <= s.len(),
        forall|j: int| n <= j < s.len() ==> s[j] == c,
        n == 0 || s[n - 1] != c,
    ensures
        trim_end_char(s, c) == s.take(n),
    decreases s.len(),
{
    if s.len() > n {
        lemma_trim_end_prefix(s.drop_last(), c, n);
        assert(s.drop_last().take(n) == s.take(n));
    } else {
        assert(s.take(n) == s);
    }
}

/// The length of `v[..hi]` once the copies of `c` at its end are dropped.
fn trimmed_len(v: &Vec<char>, hi: usize, c: char) -> (n: usize)
    requires
        hi <= v@.len(),
    ensures
        n <= hi,
        trim_end_char(v@.take(hi as int), c) == v@.take(n as int),
{
    let mut n = hi;
    while n > 0 && v[n - 1] == c
        invariant
            n <= hi <= v@.len(),
            forall|j: int| n <= j < hi ==> v@[j] == c,
        decreases n,
    {
        n -= 1;
    }
    proof {
        lemma_trim_end_prefix(v@.take(hi as int), c, n as int);
        assert(v@.take(hi as int).take(n as int) == v@.take(n as int));
    }
    n
}

/// Shortens a number written with fixed decimals (see `trimmed_decimal`).
pub fn trim_decimal(s: &str) -> (res: String)
    ensures
        res@ == trimmed_decimal(s@),
{
    let v = chars_of(s);
    if !has_char(s, '.') {
        let mut out = String::new();
        push_chars(&mut out, &v, 0, v.len());
        proof {
            assert(v@.subrange(0, v@.len() as int) == s@);
        }
        return out;
    }
    proof {
        assert(v@.take(v@.len() as int) == v@);
    }
    let n1 = trimmed_len(&v, v.len(), '0');
    let n2 = trimmed_len(&v, n1, '.');
    let mut out = String::new();
    if n2 == 0 || (n2 == 1 && v[0] == '-') {
        out.append("0");
        proof {
            reveal_strlit("0");
            if n2 == 1 {
                assert(v@.take(1) == seq!['-']);
            }
        }
    } else {
        push_chars(&mut out, &v, 0, n2);
        proof {
            assert(v@.subrange(0, n2 as int) == v@.take(n2 as int));
            if v@.take(n2 as int) == seq!['-'] {
                assert(v@[0] == v@.take(n2 as int)[0]);
            }
        }
    }
    out
}


/// Whether `c` is one of the characters that LaTeX escaping changes.
pub open spec fn latex_special(c: char) -> bool {
    c == '&' || c == '%' || c == '_' || c == '#'
}

/// Text without special characters is left as it is by escaping.
pub proof fn lemma_esc_plain(s: Seq<char>)
    requires
        forall|i: int| 0 <= i < s.len() ==> !latex_special(#[trigger] s[i]),
    ensures
        spec_esc(s) == s,
    decreases s.len(),
{
    if s.len() > 0 {
        lemma_esc_plain(s.drop_last());
        assert(cell_char(Format::Latex, s.last()) =~= seq![s.last()]);
        assert(s.drop_last().push(s.last()) =~= s);
    }
}

/// Escaping puts a backslash before each special character and keeps every
/// other character: the escaped text is one character longer per special.
pub open spec fn count_special(s: Seq<char>) -> nat
    decreases s.len(),
{
    if s.len() == 0 {
        0
    } else {
        count_special(s.drop_last()) + if latex_special(s.last()) {
            1nat
        } else {
            0nat
        }
    }
}

/// The escaped text is longer than the text by the number of specials.
pub proof fn lemma_esc_len(s: Seq<char>)
    ensures
        spec_esc(s).len() == s.len() + count_special(s),
    decreases s.len(),
{
    if s.len() > 0 {
        lemma_esc_len(s.drop_last());
    }
}

/// Joining with an empty separator concatenates.
pub proof fn lemma_join_empty_sep(parts: Seq<Seq<char>>)
    ensures
        join_seq(parts, Seq::empty()) == concat_all(parts),
    decreases parts.len(),
{
    if parts.len() == 1 {
        assert(parts.drop_last() =~= Seq::<Seq<char>>::empty());
        assert(concat_all(parts.drop_last()) =~= Seq::<char>::empty());
        assert(Seq::<char>::empty() + parts.last() =~= parts[0]);
    } else if parts.len() > 1 {
        lemma_join_empty_sep(parts.drop_last());
        assert(join_seq(parts.drop_last(), Seq::empty()) + Seq::empty() =~= join_seq(
            parts.drop_last(),
            Seq::empty(),
        ));
    }
}

/// Repeating `n` times makes a text `n` times as long.
pub proof fn lemma_repeat_len(s: Seq<char>, n: nat)
    ensures
        repeat_seq(s, n).len() == n * s.len(),
    decreases n,
{
    if n > 0 {
        let m: nat = (n - 1) as nat;
        lemma_repeat_len(s, m);
        let l: nat = s.len();
        assert(m * l + l == n * l) by (nonlinear_arith)
            requires
                m + 1 == n,
        ;
        assert(repeat_seq(s, n) == repeat_seq(s, m) + s);
        assert(repeat_seq(s, n).len() == m * l + l);
    } else {
        let l: nat = s.len();
        assert(n * l == 0) by (nonlinear_arith)
            requires
                n == 0,
        ;
    }
}

/// How many times `c` occurs in `s`.
pub open spec fn count_char(s: Seq<char>, c: char) -> nat
    decreases s.len(),
{
    if s.len() == 0 {
        0
    } else {
        count_char(s.drop_last(), c) + if s.last() == c {
            1nat
        } else {
            0nat
        }
    }
}

proof fn lemma_trim_end_is_prefix(s: Seq<char>, c: char)
    ensures
        trim_end_char(s, c).len() <= s.len(),
        trim_end_char(s, c) == s.take(trim_end_char(s, c).len() as int),
        trim_end_char(s, c).len() > 0 ==> trim_end_char(s, c).last() != c,
        forall|j: int| trim_end_char(s, c).len() <= j < s.len() ==> s[j] == c,
    decreases s.len(),
{
    if s.len() > 0 && s.last() == c {
        lemma_trim_end_is_prefix(s.drop_last(), c);
        let t = trim_end_char(s.drop_last(), c);
        assert(s.drop_last().take(t.len() as int) =~= s.take(t.len() as int));
        assert forall|j: int| t.len() <= j < s.len() implies s[j] == c by {
            if j < s.len() - 1 {
                assert(s.drop_last()[j] == s[j]);
            }
        }
    } else {
        assert(s.take(s.len() as int) =~= s);
    }
}

proof fn lemma_count_char_prefix(s: Seq<char>, c: char, n: int)
    requires
        0 <= n <= s.len(),
    ensures
        count_char(s.take(n), c) <= count_char(s, c),
        forall|j: int| n <= j < s.len() ==> s[j] == c ==> count_char(s.take(n), c) < count_char(
            s,
            c,
        ),
    decreases s.len(),
{
    if n < s.len() {
        lemma_count_char_prefix(s.drop_last(), c, n);
        assert(s.drop_last().take(n) =~= s.take(n));
        assert forall|j: int| n <= j < s.len() && s[j] == c implies count_char(s.take(n), c)
            < count_char(s, c) by {
            if j < s.len() - 1 {
                assert(s.drop_last()[j] == c);
            }
        }
    } else {
        assert(s.take(n) =~= s);
    }
}

proof fn lemma_count_char_contains(s: Seq<char>, c: char)
    ensures
        s.contains(c) <==> count_char(s, c) > 0,
    decreases s.len(),
{
    if s.len() > 0 {
        lemma_count_char_contains(s.drop_last(), c);
        if s.drop_last().contains(c) {
            let k = choose|k: int| 0 <= k < s.drop_last().len() && s.drop_last()[k] == c;
            assert(s[k] == c);
        }
        if s.contains(c) && s.last() != c {
            let k = choose|k: int| 0 <= k < s.len() && s[k] == c;
            assert(s.drop_last()[k] == c);
        }
        if s.last() == c {
            assert(s[s.len() - 1] == c);
        }
    }
}

/// Shortening a number written with at most one decimal point twice changes
/// nothing more than shortening it once.
pub proof fn lemma_trim_decimal_idempotent(s: Seq<char>)
    requires
        count_char(s, '.') <= 1,
    ensures
        trimmed_decimal(trimmed_decimal(s)) == trimmed_decimal(s),
{
    lemma_count_char_contains(s, '.');
    if s.contains('.') {
        let z = trim_end_char(s, '0');
        let t = trim_end_char(z, '.');
        lemma_trim_end_is_prefix(s, '0');
        lemma_trim_end_is_prefix(z, '.');
        if t.len() == 0 || t == seq!['-'] {
            reveal_strlit("0");
            assert(!seq!['0'].contains('.')) by {
                lemma_count_char_contains(seq!['0'], '.');
                assert(seq!['0'].drop_last() =~= Seq::<char>::empty());
            }
        } else {
            assert(t == s.take(t.len() as int)) by {
                assert(z.take(t.len() as int) =~= s.take(t.len() as int));
            }
            if t.contains('.') {
                lemma_count_char_contains(t, '.');
                lemma_count_char_prefix(s, '.', t.len() as int);
                // the only point of `s` lies inside `t`, so `z` did not end in
                // a point and `t` is `z`, which ends in neither `0` nor a point
                if z.len() > t.len() {
                    assert(z[z.len() - 1] == '.');
                    assert(s[z.len() - 1] == '.') by {
                        assert(z == s.take(z.len() as int));
                    }
                    assert(false);
                }
                assert(t.last() != '0');
                assert(trim_end_char(t, '0') == t);
                assert(trim_end_char(t, '.') == t);
            }
        }
    }
}


/// Without a caption, wrapping leaves the content as it is (the label is
/// ignored); with one, the content stands between the opening and closing.
pub proof fn lemma_wrap_table_without_caption(content: Seq<char>, label: Seq<char>)
    ensures
        table_open(Seq::empty(), label) + content + table_close(Seq::empty()) == content,
{
    assert(table_open(Seq::empty(), label) + content + table_close(Seq::empty()) =~= content);
}

} // verus!
