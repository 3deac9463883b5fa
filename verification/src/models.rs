//! What the generators read of an estimated model's variables: finding a
//! variable by name, with the names of the constant term treated alike.
use crate::text::same_text;
use vstd::prelude::*;
use vstd::string::*;

verus! {

broadcast use vstd::string::group_string_axioms;

/// The variable names of an estimated model, and its kind.
pub struct ModelData {
    pub model_type: String,
    pub variables: Vec<String>,
}

/// Whether `name` is one of the names of the constant term.
pub open spec fn constant_alias(name: Seq<char>) -> bool {
    name == "_cons"@ || name == "const"@ || name == "intercept"@
}

/// Whether variable `v` answers to `name`: the same name, or both are names
/// of the constant term (`_cons`, `const`, `intercept`).
pub open spec fn var_matches(v: Seq<char>, name: Seq<char>) -> bool {
    ||| v == name
    ||| constant_alias(name) && constant_alias(v)
}

/// The first index at or after `i` whose variable answers to `name`.
pub open spec fn first_match_from(vars: Seq<Seq<char>>, name: Seq<char>, i: int) -> Option<int>
    decreases vars.len() - i,
{
    if i < 0 || i >= vars.len() {
        None
    } else if var_matches(vars[i], name) {
        Some(i)
    } else {
        first_match_from(vars, name, i + 1)
    }
}

/// The first index whose variable answers to `name`.
pub open spec fn first_match(vars: Seq<Seq<char>>, name: Seq<char>) -> Option<int> {
    first_match_from(vars, name, 0)
}

/// The index of the constant term: the first variable answering to `_cons`,
/// else to `const`, else to `intercept`.
pub open spec fn constant_index(vars: Seq<Seq<char>>) -> Option<int> {
    match first_match(vars, "_cons"@) {
        Some(i) => Some(i),
        None => match first_match(vars, "const"@) {
            Some(i) => Some(i),
            None => first_match(vars, "intercept"@),
        },
    }
}

pub proof fn lemma_first_match_from(vars: Seq<Seq<char>>, name: Seq<char>, i: int)
    requires
        0 <= i,
    ensures
        first_match_from(vars, name, i) matches Some(k) ==> i <= k < vars.len() && var_matches(
            vars[k],
            name,
        ),
    decreases vars.len() - i,
{
    if i < vars.len() && !var_matches(vars[i], name) {
        lemma_first_match_from(vars, name, i + 1);
    }
}

/// Whether `v` answers to `name` (see `var_matches`).
pub fn matches_name(v: &str, name: &str) -> (res: bool)
    ensures
        res == var_matches(v@, name@),
{
    let name_is_constant = same_text(name, "_cons") || same_text(name, "const") || same_text(
        name,
        "intercept",
    );
    let v_is_constant = same_text(v, "_cons") || same_text(v, "const") || same_text(v, "intercept");
    same_text(v, name) || (name_is_constant && v_is_constant)
}

/// The names of a list of variables.
pub open spec fn names(vars: Seq<String>) -> Seq<Seq<char>> {
    vars.map_values(|s: String| s@)
}

/// The index of the first of `vars` answering to `name`.
pub fn find_in(vars: &Vec<String>, name: &str) -> (res: Option<usize>)
    ensures
        res matches Some(i) ==> first_match(names(vars@), name@) == Some(i as int),
        res is None ==> first_match(names(vars@), name@) is None,
{
    let n = vars.len();
    let mut i: usize = 0;
    while i < n
        invariant
            n == vars@.len(),
            i <= n,
            first_match(names(vars@), name@) == first_match_from(names(vars@), name@, i as int),
        decreases n - i,
    {
        if matches_name(vars[i].as_str(), name) {
            return Some(i);
        }
        i += 1;
    }
    None
}

/// Whether an entry of a serialized model is one of its own fields (its kind,
/// its variables, or a per-coefficient list) rather than a fit statistic.
pub open spec fn model_field(k: Seq<char>) -> bool {
    ||| k == "__model_type__"@
    ||| k == "variable"@
    ||| k == "coef"@
    ||| k == "std_err"@
    ||| k == "t"@
    ||| k == "z"@
    ||| k == "p_value"@
    ||| k == "conf_low"@
    ||| k == "conf_high"@
}

/// Whether `k` names one of a serialized model's own fields (see
/// `model_field`); every other numeric entry is a fit statistic.
pub fn is_model_field(k: &str) -> (res: bool)
    ensures
        res == model_field(k@),
{
    same_text(k, "__model_type__") || same_text(k, "variable") || same_text(k, "coef")
        || same_text(k, "std_err") || same_text(k, "t") || same_text(k, "z") || same_text(
        k,
        "p_value",
    ) || same_text(k, "conf_low") || same_text(k, "conf_high")
}

/// Whether `k` is one of the entries by which a data frame passes its Arrow
/// buffers; they are no columns.
pub fn is_arrow_pointer_key(k: &str) -> (res: bool)
    ensures
        res == (k@ == "__arrow_array_ptr__"@ || k@ == "__arrow_schema_ptr__"@),
{
    same_text(k, "__arrow_array_ptr__") || same_text(k, "__arrow_schema_ptr__")
}

/// The kind of one item of a data-frame column given as a list.
pub enum ItemKind {
    Float,
    Int,
    Nil,
    Str,
    Other,
}

/// A column is numeric when each of its items is a number or missing.
pub open spec fn numeric_item(k: ItemKind) -> bool {
    k is Float || k is Int || k is Nil
}

/// Whether a column with items of these kinds is numeric (an empty column is).
pub fn all_numeric(items: &Vec<ItemKind>) -> (res: bool)
    ensures
        res == (forall|i: int| 0 <= i < items@.len() ==> numeric_item(#[trigger] items@[i])),
{
    let n = items.len();
    let mut i: usize = 0;
    while i < n
        invariant
            n == items@.len(),
            i <= n,
            forall|j: int| 0 <= j < i ==> numeric_item(#[trigger] items@[j]),
        decreases n - i,
    {
        match items[i] {
            ItemKind::Float | ItemKind::Int | ItemKind::Nil => {},
            _ => {
                return false;
            },
        }
        i += 1;
    }
    true
}

impl ModelData {
    /// Find index of a variable by name (handles _cons, const, intercept).
    pub fn find_var(&self, name: &str) -> (res: Option<usize>)
        ensures
            res matches Some(i) ==> first_match(names(self.variables@), name@) == Some(i as int),
            res is None ==> first_match(names(self.variables@), name@) is None,
    {
        find_in(&self.variables, name)
    }

    /// Check if model has a constant term.
    pub fn has_constant(&self) -> (res: Option<usize>)
        ensures
            res matches Some(i) ==> constant_index(names(self.variables@)) == Some(i as int),
            res is None ==> constant_index(names(self.variables@)) is None,
    {
        match self.find_var("_cons") {
            Some(i) => Some(i),
            None => match self.find_var("const") {
                Some(i) => Some(i),
                None => self.find_var("intercept"),
            },
        }
    }

}

} // verus!
