//! Options handed to the generators as key/value pairs, and the lookups
//! with defaults that read them.
use crate::text::same_text;
use vstd::prelude::*;
use vstd::string::*;

verus! {

broadcast use vstd::string::group_string_axioms;

/// One option value, as the generators read it.
pub enum OptValue {
    Nil,
    Bool(bool),
    Int(i64),
    /// A floating-point value, held as the integer that `as i64` makes of it
    /// (truncated towards zero, saturating at the `i64` bounds).
    Float(i64),
    Str(String),
    /// A list, each item written as text.
    List(Vec<String>),
    /// A dictionary of named values.
    Dict(Vec<(String, OptValue)>),
    /// Any other kind of value.
    Other,
}

/// A set of options: named values; a name given twice is read at its first
/// entry.
pub struct Opts {
    pub entries: Vec<(String, OptValue)>,
}

/// The value of the first entry named `key`.
pub open spec fn lookup(entries: Seq<(String, OptValue)>, key: Seq<char>) -> Option<OptValue>
    decreases entries.len(),
{
    if entries.len() == 0 {
        None
    } else if entries[0].0@ == key {
        Some(entries[0].1)
    } else {
        lookup(entries.drop_first(), key)
    }
}

/// The index of the first entry named `key`.
fn find_entry(entries: &Vec<(String, OptValue)>, key: &str) -> (res: Option<usize>)
    ensures
        match res {
            Some(i) => i < entries@.len() && lookup(entries@, key@) == Some(entries@[i as int].1),
            None => lookup(entries@, key@) is None,
        },
{
    let n = entries.len();
    let mut i: usize = 0;
    proof {
        assert(entries@.skip(0) == entries@);
    }
    while i < n
        invariant
            n == entries@.len(),
            i <= n,
            lookup(entries@, key@) == lookup(entries@.skip(i as int), key@),
        decreases n - i,
    {
        proof {
            assert(entries@.skip(i as int).drop_first() == entries@.skip(i + 1));
            assert(entries@.skip(i as int)[0] == entries@[i as int]);
        }
        if same_text(entries[i].0.as_str(), key) {
            return Some(i);
        }
        i += 1;
    }
    None
}

/// The text option `key`: its value when that is a string, else `default`.
pub open spec fn opt_str_value(opts: Opts, key: Seq<char>, default: Seq<char>) -> Seq<char> {
    match lookup(opts.entries@, key) {
        Some(OptValue::Str(s)) => s@,
        _ => default,
    }
}

/// The integer option `key`: an integer as it is, a floating-point value
/// truncated, anything else `default`.
pub open spec fn opt_int_value(opts: Opts, key: Seq<char>, default: i64) -> i64 {
    match lookup(opts.entries@, key) {
        Some(OptValue::Int(i)) => i,
        Some(OptValue::Float(t)) => t,
        _ => default,
    }
}

/// The flag option `key`: a boolean as it is, an integer as "is not zero",
/// anything else `default`.
pub open spec fn opt_bool_value(opts: Opts, key: Seq<char>, default: bool) -> bool {
    match lookup(opts.entries@, key) {
        Some(OptValue::Bool(b)) => b,
        Some(OptValue::Int(i)) => i != 0,
        _ => default,
    }
}

/// The list option `key`: the items' texts when it is a list, else nothing.
pub open spec fn opt_list_value(opts: Opts, key: Seq<char>) -> Seq<Seq<char>> {
    match lookup(opts.entries@, key) {
        Some(OptValue::List(l)) => l@.map_values(|s: String| s@),
        _ => Seq::empty(),
    }
}

/// The string-valued entries of a dictionary, in order.
pub open spec fn string_entries(d: Seq<(String, OptValue)>) -> Seq<(Seq<char>, Seq<char>)>
    decreases d.len(),
{
    if d.len() == 0 {
        Seq::empty()
    } else {
        let rest = string_entries(d.drop_last());
        match d.last().1 {
            OptValue::Str(s) => rest.push((d.last().0@, s@)),
            _ => rest,
        }
    }
}

/// The label option `key`: the string-valued entries of the dictionary
/// there, else nothing.
pub open spec fn opt_labels_value(opts: Opts, key: Seq<char>) -> Seq<(Seq<char>, Seq<char>)> {
    match lookup(opts.entries@, key) {
        Some(OptValue::Dict(d)) => string_entries(d@),
        _ => Seq::empty(),
    }
}

/// Names paired with their display labels.
pub struct Labels {
    pub entries: Vec<(String, String)>,
}

impl View for Labels {
    type V = Seq<(Seq<char>, Seq<char>)>;

    open spec fn view(&self) -> Seq<(Seq<char>, Seq<char>)> {
        self.entries@.map_values(|e: (String, String)| (e.0@, e.1@))
    }
}

/// The label of the first pair named `key`.
pub open spec fn label_of(labels: Seq<(Seq<char>, Seq<char>)>, key: Seq<char>) -> Option<Seq<char>>
    decreases labels.len(),
{
    if labels.len() == 0 {
        None
    } else if labels[0].0 == key {
        Some(labels[0].1)
    } else {
        label_of(labels.drop_first(), key)
    }
}

impl Labels {
    /// The label given to `key`, if any.
    pub fn get(&self, key: &str) -> (res: Option<String>)
        ensures
            match res {
                Some(s) => label_of(self@, key@) == Some(s@),
                None => label_of(self@, key@) is None,
            },
    {
        let n = self.entries.len();
        let mut i: usize = 0;
        proof {
            assert(self@.skip(0) == self@);
        }
        while i < n
            invariant
                n == self.entries@.len(),
                i <= n,
                label_of(self@, key@) == label_of(self@.skip(i as int), key@),
            decreases n - i,
        {
            proof {
                assert(self@.skip(i as int).drop_first() == self@.skip(i + 1));
                assert(self@.skip(i as int)[0] == self@[i as int]);
            }
            if same_text(self.entries[i].0.as_str(), key) {
                return Some(self.entries[i].1.clone());
            }
            i += 1;
        }
        None
    }
}

/// Get an optional string field from the options, with default.
pub fn opt_str(opts: &Opts, key: &str, default: &str) -> (res: String)
    ensures
        res@ == opt_str_value(*opts, key@, default@),
{
    match find_entry(&opts.entries, key) {
        Some(i) => match &opts.entries[i].1 {
            OptValue::Str(s) => s.clone(),
            _ => String::from_str(default),
        },
        None => String::from_str(default),
    }
}

/// Get an optional integer field from the options, with default.
pub fn opt_int(opts: &Opts, key: &str, default: i64) -> (res: i64)
    ensures
        res == opt_int_value(*opts, key@, default),
{
    match find_entry(&opts.entries, key) {
        Some(i) => match &opts.entries[i].1 {
            OptValue::Int(v) => *v,
            OptValue::Float(t) => *t,
            _ => default,
        },
        None => default,
    }
}

/// Get an optional bool field from the options, with default.
pub fn opt_bool(opts: &Opts, key: &str, default: bool) -> (res: bool)
    ensures
        res == opt_bool_value(*opts, key@, default),
{
    match find_entry(&opts.entries, key) {
        Some(i) => match &opts.entries[i].1 {
            OptValue::Bool(b) => *b,
            OptValue::Int(v) => *v != 0,
            _ => default,
        },
        None => default,
    }
}

/// Get a list of strings from an option field (empty unless it is a list).
pub fn opt_str_list(opts: &Opts, key: &str) -> (res: Vec<String>)
    ensures
        res@.map_values(|s: String| s@) == opt_list_value(*opts, key@),
{
    let mut out: Vec<String> = Vec::new();
    match find_entry(&opts.entries, key) {
        Some(i) => match &opts.entries[i].1 {
            OptValue::List(l) => {
                let n = l.len();
                let mut k: usize = 0;
                while k < n
                    invariant
                        n == l@.len(),
                        k <= n,
                        out@.len() == k,
                        forall|j: int| 0 <= j < k ==> #[trigger] out@[j]@ == l@[j]@,
                    decreases n - k,
                {
                    let c = l[k].clone();
                    out.push(c);
                    k += 1;
                }
                proof {
                    assert(out@.map_values(|s: String| s@) =~= l@.map_values(|s: String| s@));
                }
                out
            },
            _ => out,
        },
        None => {
            proof {
                assert(out@.map_values(|s: String| s@) =~= Seq::<Seq<char>>::empty());
            }
            out
        },
    }
}

/// Get the string-valued entries of a dictionary option as labels.
pub fn opt_labels(opts: &Opts, key: &str) -> (res: Labels)
    ensures
        res@ == opt_labels_value(*opts, key@),
{
    let mut out: Vec<(String, String)> = Vec::new();
    match find_entry(&opts.entries, key) {
        Some(i) => match &opts.entries[i].1 {
            OptValue::Dict(d) => {
                let n = d.len();
                let mut k: usize = 0;
                while k < n
                    invariant
                        n == d@.len(),
                        k <= n,
                        (Labels { entries: out })@ == string_entries(d@.take(k as int)),
                    decreases n - k,
                {
                    proof {
                        assert(d@.take(k + 1).drop_last() == d@.take(k as int));
                    }
                    match &d[k].1 {
                        OptValue::Str(s) => {
                            out.push((d[k].0.clone(), s.clone()));
                            proof {
                                assert((Labels { entries: out })@ =~= string_entries(
                                    d@.take(k as int),
                                ).push((d@[k as int].0@, s@)));
                            }
                        },
                        _ => {},
                    }
                    k += 1;
                }
                proof {
                    assert(d@.take(n as int) == d@);
                }
                Labels { entries: out }
            },
            _ => {
                proof {
                    assert((Labels { entries: out })@ =~= Seq::<(Seq<char>, Seq<char>)>::empty());
                }
                Labels { entries: out }
            },
        },
        None => {
            proof {
                assert((Labels { entries: out })@ =~= Seq::<(Seq<char>, Seq<char>)>::empty());
            }
            Labels { entries: out }
        },
    }
}

} // verus!
