# haytex

LaTeX (and HTML, RTF, CSV) snippets for econometric results: regression
tables, descriptive statistics, correlation matrices, codebooks, ANOVA and
test tables, fitted equations, matrices, marginal effects and forecasts.

The layout of every snippet is written and proved in Verus: each public
function states, over sequences of characters, exactly the text it returns.

## Layout

- `src/` — the verified library.
  - `text.rs`: characters, decimal digits, joining, repeating, the order of
    strings and an in-place sort.
  - `format.rs`: the output formats, cell escaping (HTML keeps star
    superscripts) and the generic `Table` with its four renderings.
  - `helpers.rs`: LaTeX escaping, the `table` wrapper, the star legend and
    the trimming of trailing zeros in decimal numbers.
  - `options.rs`: option lookups with defaults.
  - `models.rs`: variables of an estimated model and the names of its
    constant term.
  - `tables.rs`, `equations.rs`: the generators.
- `tests/` — tests on concrete values.
- `app/` — the Hayashi plugin: it reads the values Hayashi hands over, does
  the floating-point work (statistics, number formatting, significance
  levels) and hands the library plain text.

Numbers reach the library already written as text; the library decides where
each piece of text goes.
