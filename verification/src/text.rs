//! Character-level building blocks: appending characters, decimal digits,
//! joining and repeating strings, and comparing string contents.
use vstd::prelude::*;
use vstd::string::*;
use vstd::multiset::Multiset;

verus! {

broadcast use vstd::string::group_string_axioms;

/// Appends one character to a `String` (std's `String::push`).
/// Claims that the new contents are the old contents followed by `c`.
#[verifier::external_body]
pub(crate) fn push_char(s: &mut String, c: char)
    ensures
        final(s)@ == old(s)@.push(c),
{
    s.push(c);
}

/// The characters of `s`, in order.
pub fn chars_of(s: &str) -> (res: Vec<char>)
    ensures
        res@ == s@,
{
    let mut out: Vec<char> = Vec::new();
    for c in it: s.chars()
        invariant
            it.seq() == s@,
            out@ == s@.take(it.index() as int),
    {
        proof {
            assert(c == s@[it.index()]);
            assert(s@.take(it.index() + 1) == s@.take(it.index() as int).push(c));
        }
        out.push(c);
    }
    proof {
        assert(s@.take(s@.len() as int) == s@);
    }
    out
}

/// Appends the characters `v[lo..hi]` to `out`.
pub fn push_chars(out: &mut String, v: &Vec<char>, lo: usize, hi: usize)
    requires
        lo <= hi <= v@.len(),
    ensures
        final(out)@ == old(out)@ + v@.subrange(lo as int, hi as int),
{
    let mut i = lo;
    while i < hi
        invariant
            lo <= i <= hi <= v@.len(),
            out@ == old(out)@ + v@.subrange(lo as int, i as int),
        decreases hi - i,
    {
        proof {
            assert(v@.subrange(lo as int, i + 1) == v@.subrange(lo as int, i as int).push(v@[i as int]));
        }
        push_char(out, v[i]);
        i += 1;
    }
}

/// A `String` holding exactly the characters of `v`.
pub fn string_of(v: &Vec<char>) -> (res: String)
    ensures
        res@ == v@,
{
    let mut out = String::new();
    push_chars(&mut out, v, 0, v.len());
    proof {
        assert(v@.subrange(0, v@.len() as int) == v@);
    }
    out
}

/// Whether two strings hold the same characters.
pub fn same_text(a: &str, b: &str) -> (res: bool)
    ensures
        res == (a@ == b@),
{
    let va = chars_of(a);
    let vb = chars_of(b);
    if va.len() != vb.len() {
        return false;
    }
    let mut i: usize = 0;
    while i < va.len()
        invariant
            va@ == a@,
            vb@ == b@,
            va@.len() == vb@.len(),
            i <= va@.len(),
            forall|j: int| 0 <= j < i ==> va@[j] == vb@[j],
        decreases va@.len() - i,
    {
        if va[i] != vb[i] {
            return false;
        }
        i += 1;
    }
    proof {
        assert(va@ =~= vb@);
    }
    true
}

/// Whether `c` occurs in `s`.
pub fn has_char(s: &str, c: char) -> (res: bool)
    ensures
        res == s@.contains(c),
{
    let v = chars_of(s);
    let mut i: usize = 0;
    while i < v.len()
        invariant
            v@ == s@,
            i <= v@.len(),
            forall|j: int| 0 <= j < i ==> v@[j] != c,
        decreases v@.len() - i,
    {
        if v[i] == c {
            proof {
                assert(s@[i as int] == c);
            }
            return true;
        }
        i += 1;
    }
    false
}

/// The decimal digit for `d`, which is below ten.
pub open spec fn digit_char(d: nat) -> char {
    seq!['0', '1', '2', '3', '4', '5', '6', '7', '8', '9'][d as int]
}

/// The decimal notation of a natural number, without leading zeros.
pub open spec fn decimal(n: nat) -> Seq<char>
    decreases n,
{
    if n < 10 {
        seq![digit_char(n)]
    } else {
        decimal(n / 10).push(digit_char(n % 10))
    }
}

/// The decimal notation of an integer, with a leading `-` when it is negative.
pub open spec fn int_decimal(n: int) -> Seq<char> {
    if n < 0 {
        seq!['-'] + decimal((-n) as nat)
    } else {
        decimal(n as nat)
    }
}

fn digit(d: u64) -> (c: char)
    requires
        d < 10,
    ensures
        c == digit_char(d as nat),
{
    if d == 0 {
        '0'
    } else if d == 1 {
        '1'
    } else if d == 2 {
        '2'
    } else if d == 3 {
        '3'
    } else if d == 4 {
        '4'
    } else if d == 5 {
        '5'
    } else if d == 6 {
        '6'
    } else if d == 7 {
        '7'
    } else if d == 8 {
        '8'
    } else {
        '9'
    }
}

/// Appends the decimal notation of `n` to `out`.
pub fn push_decimal(out: &mut String, n: u64)
    ensures
        final(out)@ == old(out)@ + decimal(n as nat),
    decreases n,
{
    if n >= 10 {
        push_decimal(out, n / 10);
    }
    push_char(out, digit(n % 10));
}

/// Appends the decimal notation of the signed `n` to `out`.
pub fn push_int(out: &mut String, n: i64)
    ensures
        final(out)@ == old(out)@ + int_decimal(n as int),
{
    if n < 0 {
        push_char(out, '-');
        let m: u64 = (0i128 - n as i128) as u64;
        push_decimal(out, m);
    } else {
        push_decimal(out, n as u64);
    }
}

/// The decimal notation of `n` as a `String`.
pub fn usize_text(n: usize) -> (res: String)
    ensures
        res@ == decimal(n as nat),
{
    let mut out = String::new();
    push_decimal(&mut out, n as u64);
    out
}

/// The decimal notation of `n` as a `String`.
pub fn int_text(n: i64) -> (res: String)
    ensures
        res@ == int_decimal(n as int),
{
    let mut out = String::new();
    push_int(&mut out, n);
    out
}

/// The views of a sequence of strings.
pub open spec fn texts(v: Seq<String>) -> Seq<Seq<char>> {
    v.map_values(|s: String| s@)
}

/// `parts` joined with `sep` between consecutive parts.
pub open spec fn join_seq(parts: Seq<Seq<char>>, sep: Seq<char>) -> Seq<char>
    decreases parts.len(),
{
    if parts.len() == 0 {
        Seq::empty()
    } else if parts.len() == 1 {
        parts[0]
    } else {
        join_seq(parts.drop_last(), sep) + sep + parts.last()
    }
}

/// `s` written `n` times in a row.
pub open spec fn repeat_seq(s: Seq<char>, n: nat) -> Seq<char>
    decreases n,
{
    if n == 0 {
        Seq::empty()
    } else {
        repeat_seq(s, (n - 1) as nat) + s
    }
}

/// The concatenation of all `parts`, in order.
pub open spec fn concat_all(parts: Seq<Seq<char>>) -> Seq<char>
    decreases parts.len(),
{
    if parts.len() == 0 {
        Seq::empty()
    } else {
        concat_all(parts.drop_last()) + parts.last()
    }
}

/// Appends `lst` joined with `sep` to `out`.
pub fn push_joined(out: &mut String, lst: &[String], sep: &str)
    ensures
        final(out)@ == old(out)@ + join_seq(texts(lst@), sep@),
{
    let n = lst.len();
    let mut i: usize = 0;
    while i < n
        invariant
            n == lst@.len(),
            i <= n,
            out@ == old(out)@ + join_seq(texts(lst@.take(i as int)), sep@),
        decreases n - i,
    {
        proof {
            assert(texts(lst@.take(i + 1)).drop_last() == texts(lst@.take(i as int)));
            assert(texts(lst@.take(i + 1)).last() == lst@[i as int]@);
        }
        if i > 0 {
            out.append(sep);
        }
        out.append(lst[i].as_str());
        i += 1;
    }
    proof {
        assert(lst@.take(n as int) == lst@);
    }
}


/// `a` comes strictly before `b` in the order of strings: at the first
/// position where they differ the character of `a` is smaller, or `a` is a
/// proper prefix of `b`.
pub open spec fn text_lt(a: Seq<char>, b: Seq<char>) -> bool
    decreases a.len(),
{
    if a.len() == 0 {
        b.len() > 0
    } else if b.len() == 0 {
        false
    } else if a[0] != b[0] {
        a[0] < b[0]
    } else {
        text_lt(a.drop_first(), b.drop_first())
    }
}

/// `a` comes before `b` or is `b`.
pub open spec fn text_le(a: Seq<char>, b: Seq<char>) -> bool {
    a == b || text_lt(a, b)
}

/// Every string comes before or is each later one.
pub open spec fn texts_sorted(s: Seq<Seq<char>>) -> bool {
    forall|i: int, j: int| 0 <= i < j < s.len() ==> text_le(#[trigger] s[i], #[trigger] s[j])
}

/// No string comes strictly before itself.
pub proof fn lemma_text_lt_irreflexive(a: Seq<char>)
    ensures
        !text_lt(a, a),
    decreases a.len(),
{
    if a.len() > 0 {
        lemma_text_lt_irreflexive(a.drop_first());
    }
}

/// Of two strings that come before one another, neither comes first.
pub proof fn lemma_text_lt_asymmetric(a: Seq<char>, b: Seq<char>)
    ensures
        !(text_lt(a, b) && text_lt(b, a)),
    decreases a.len(),
{
    if a.len() > 0 && b.len() > 0 && a[0] == b[0] {
        lemma_text_lt_asymmetric(a.drop_first(), b.drop_first());
    }
}

/// The order of strings is transitive.
pub proof fn lemma_text_lt_transitive(a: Seq<char>, b: Seq<char>, c: Seq<char>)
    requires
        text_lt(a, b),
        text_lt(b, c),
    ensures
        text_lt(a, c),
    decreases a.len(),
{
    if a.len() > 0 && b.len() > 0 && c.len() > 0 && a[0] == b[0] && b[0] == c[0] {
        lemma_text_lt_transitive(a.drop_first(), b.drop_first(), c.drop_first());
    }
}

/// Any two different strings are ordered one way or the other.
pub proof fn lemma_text_lt_total(a: Seq<char>, b: Seq<char>)
    ensures
        a == b || text_lt(a, b) || text_lt(b, a),
    decreases a.len(),
{
    if a.len() > 0 && b.len() > 0 && a[0] == b[0] {
        lemma_text_lt_total(a.drop_first(), b.drop_first());
        if a.drop_first() == b.drop_first() {
            assert(a =~= seq![a[0]] + a.drop_first());
            assert(b =~= seq![b[0]] + b.drop_first());
        }
    } else if a.len() == 0 && b.len() == 0 {
        assert(a =~= b);
    }
}

/// Whether `a` comes strictly before `b` in the order of strings.
pub fn text_less(a: &str, b: &str) -> (res: bool)
    ensures
        res == text_lt(a@, b@),
{
    let va = chars_of(a);
    let vb = chars_of(b);
    let mut i: usize = 0;
    proof {
        assert(a@.skip(0) == a@);
        assert(b@.skip(0) == b@);
    }
    while i < va.len() && i < vb.len()
        invariant
            va@ == a@,
            vb@ == b@,
            i <= va@.len(),
            i <= vb@.len(),
            text_lt(a@, b@) == text_lt(a@.skip(i as int), b@.skip(i as int)),
        decreases va@.len() - i,
    {
        proof {
            assert(a@.skip(i as int)[0] == va@[i as int]);
            assert(b@.skip(i as int)[0] == vb@[i as int]);
            assert(a@.skip(i as int).drop_first() == a@.skip(i + 1));
            assert(b@.skip(i as int).drop_first() == b@.skip(i + 1));
        }
        if va[i] != vb[i] {
            return va[i] < vb[i];
        }
        i += 1;
    }
    va.len() - i == 0 && vb.len() - i > 0
}

proof fn lemma_insert_multiset<T>(s: Seq<T>, k: int, a: T)
    requires
        0 <= k <= s.len(),
    ensures
        s.insert(k, a).to_multiset() =~= s.to_multiset().insert(a),
{
    broadcast use vstd::seq_lib::group_to_multiset_ensures;
    broadcast use vstd::multiset::group_multiset_axioms;

    let t = s.insert(k, a);
    assert(t.remove(k) =~= s);
    t.to_multiset_ensures();
    assert(t[k] == a);
    assert(t.contains(a));
}

/// Where `x` goes among the sorted `out`: after every string that comes
/// before it or is it.
fn insert_position(out: &Vec<String>, x: &str) -> (k: usize)
    requires
        texts_sorted(texts(out@)),
    ensures
        k <= out@.len(),
        forall|j: int| 0 <= j < k ==> text_le(#[trigger] out@[j]@, x@),
        k < out@.len() ==> text_lt(x@, out@[k as int]@),
{
    let n = out.len();
    let mut k: usize = 0;
    while k < n && !text_less(x, out[k].as_str())
        invariant
            n == out@.len(),
            k <= n,
            forall|j: int| 0 <= j < k ==> text_le(#[trigger] out@[j]@, x@),
        decreases n - k,
    {
        proof {
            lemma_text_lt_total(out@[k as int]@, x@);
        }
        k += 1;
    }
    k
}

/// Sorts strings in place, in the order of `text_lt` (the order of Rust
/// strings: by code points, a prefix first).
pub fn sort_texts(v: &mut Vec<String>)
    ensures
        final(v)@.to_multiset() == old(v)@.to_multiset(),
        texts_sorted(texts(final(v)@)),
{
    broadcast use vstd::seq_lib::group_to_multiset_ensures;
    broadcast use vstd::multiset::group_multiset_axioms;

    let ghost orig = v@;
    let mut out: Vec<String> = Vec::new();
    proof {
        assert(out@.to_multiset() =~= Multiset::<String>::empty());
        assert(v@.to_multiset().add(out@.to_multiset()) =~= orig.to_multiset());
    }
    while v.len() > 0
        invariant
            v@.to_multiset().add(out@.to_multiset()) == orig.to_multiset(),
            texts_sorted(texts(out@)),
        decreases v@.len(),
    {
        let ghost before = v@;
        let x = v.pop().unwrap();
        proof {
            assert(before =~= v@.push(x));
        }
        let k = insert_position(&out, x.as_str());
        let ghost old_out = out@;
        out.insert(k, x);
        proof {
            lemma_insert_multiset(old_out, k as int, x);
            v@.to_multiset_ensures();
            assert(before.to_multiset() =~= v@.to_multiset().insert(x));
            assert(out@.to_multiset() =~= old_out.to_multiset().insert(x));
            assert(v@.to_multiset().add(out@.to_multiset()) =~= orig.to_multiset());
            let t = texts(out@);
            let o = texts(old_out);
            assert forall|i: int, j: int| 0 <= i < j < t.len() implies text_le(
                #[trigger] t[i],
                #[trigger] t[j],
            ) by {
                if j < k {
                    assert(t[i] == o[i] && t[j] == o[j]);
                } else if j == k {
                    assert(t[i] == o[i]);
                    assert(t[j] == x@);
                } else if i > k {
                    assert(t[i] == o[i - 1] && t[j] == o[j - 1]);
                } else if i == k {
                    assert(t[i] == x@);
                    assert(t[j] == o[j - 1]);
                    assert(text_le(o[k as int], o[j - 1]));
                    if o[k as int] != o[j - 1] {
                        lemma_text_lt_transitive(x@, o[k as int], o[j - 1]);
                    }
                } else {
                    assert(t[i] == o[i] && t[j] == o[j - 1]);
                }
            }
        }
    }
    proof {
        assert(v@.to_multiset() =~= Multiset::<String>::empty());
        assert(out@.to_multiset() =~= orig.to_multiset());
    }
    *v = out;
}

} // verus!
