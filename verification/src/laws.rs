//! Laws of the parser, each proved against [`crate::parser::spec_parse`]
//! and its building blocks: which text an accepted query's fields come
//! from, that column order is declaration order, and that changing the
//! letter case of the input never changes what is accepted.

use vstd::prelude::*;

use crate::ast::{ColumnDefV, CreateTableQueryV, DataTypeV, NumeralError, ParseErrorV};
use crate::grammar::{
    char_eq_ci, is_digit_char, is_ident_start_char, is_word_char, is_ws_char,
    lemma_skip_ws_bounds, lemma_word_end_bounds, lemma_word_end_chars, seq_eq_ci, skip_ws,
    word_end,
};
use crate::parser::{
    all_digits, digits_val, lemma_sp_column_definition_progress, lemma_sp_column_list_progress,
    lemma_sp_data_type_progress, sp_column_definition, sp_column_list, sp_data_type, sp_query,
    sp_varchar_args, spec_parse,
};

verus! {

/// Characters equal up to case fall in the same lexical classes, and any
/// character other than a letter is equal up to case only to itself.
pub proof fn lemma_char_eq_ci_classes(a: char, b: char)
    requires
        char_eq_ci(a, b),
    ensures
        is_ws_char(a) == is_ws_char(b),
        is_digit_char(a) == is_digit_char(b),
        is_ident_start_char(a) == is_ident_start_char(b),
        is_word_char(a) == is_word_char(b),
        !(65 <= a as int && a as int <= 90) && !(97 <= a as int && a as int <= 122) ==> a == b,
{
}

/// Equality up to case of sequences is symmetric.
pub proof fn lemma_seq_eq_ci_symm(a: Seq<char>, b: Seq<char>)
    requires
        seq_eq_ci(a, b),
    ensures
        seq_eq_ci(b, a),
{
}

/// Equality up to case of sequences is transitive.
pub proof fn lemma_seq_eq_ci_trans(a: Seq<char>, b: Seq<char>, c: Seq<char>)
    requires
        seq_eq_ci(a, b),
        seq_eq_ci(b, c),
    ensures
        seq_eq_ci(a, c),
{
}

/// Words equal up to case match the same keywords.
pub proof fn lemma_ci_same_kw(w1: Seq<char>, w2: Seq<char>, kw: Seq<char>)
    requires
        seq_eq_ci(w1, w2),
    ensures
        seq_eq_ci(w1, kw) == seq_eq_ci(w2, kw),
{
    if seq_eq_ci(w1, kw) {
        lemma_seq_eq_ci_symm(w1, w2);
        lemma_seq_eq_ci_trans(w2, w1, kw);
    }
    if seq_eq_ci(w2, kw) {
        lemma_seq_eq_ci_trans(w1, w2, kw);
    }
}

/// Inputs equal up to case agree on where whitespace ends.
pub proof fn lemma_skip_ws_ci(s1: Seq<char>, s2: Seq<char>, i: int)
    requires
        seq_eq_ci(s1, s2),
    ensures
        skip_ws(s1, i) == skip_ws(s2, i),
    decreases s1.len() - i,
{
    if 0 <= i < s1.len() {
        assert(char_eq_ci(s1[i], s2[i]));
        lemma_char_eq_ci_classes(s1[i], s2[i]);
        if is_ws_char(s1[i]) {
            lemma_skip_ws_ci(s1, s2, i + 1);
        }
    }
}

/// Inputs equal up to case agree on where each word token ends.
pub proof fn lemma_word_end_ci(s1: Seq<char>, s2: Seq<char>, i: int)
    requires
        seq_eq_ci(s1, s2),
    ensures
        word_end(s1, i) == word_end(s2, i),
    decreases s1.len() - i,
{
    if 0 <= i < s1.len() {
        assert(char_eq_ci(s1[i], s2[i]));
        lemma_char_eq_ci_classes(s1[i], s2[i]);
        if is_word_char(s1[i]) {
            lemma_word_end_ci(s1, s2, i + 1);
        }
    }
}

/// Matching subranges of inputs equal up to case are equal up to case.
pub proof fn lemma_subrange_ci(s1: Seq<char>, s2: Seq<char>, a: int, b: int)
    requires
        seq_eq_ci(s1, s2),
        0 <= a <= b <= s1.len(),
    ensures
        seq_eq_ci(s1.subrange(a, b), s2.subrange(a, b)),
{
    assert forall|k: int| 0 <= k < b - a implies char_eq_ci(
        s1.subrange(a, b)[k],
        s2.subrange(a, b)[k],
    ) by {
        assert(char_eq_ci(s1[a + k], s2[a + k]));
    }
}

/// A numeral is equal up to case only to itself: words equal up to case
/// agree on being numeric, and numeric ones are identical.
pub proof fn lemma_ci_digits(w1: Seq<char>, w2: Seq<char>)
    requires
        seq_eq_ci(w1, w2),
    ensures
        all_digits(w1) == all_digits(w2),
        all_digits(w1) ==> w1 == w2,
{
    assert forall|i: int| 0 <= i < w1.len() implies is_digit_char(w1[i]) == is_digit_char(w2[i])
        && (is_digit_char(w1[i]) ==> w1[i] == w2[i]) by {
        assert(char_eq_ci(w1[i], w2[i]));
        lemma_char_eq_ci_classes(w1[i], w2[i]);
    }
    if all_digits(w1) {
        assert(w1 =~= w2);
    }
    if all_digits(w2) {
        assert(w1 =~= w2);
    }
}

/// Two characters equal up to case agree on being any given non-letter
/// character, such as a parenthesis, comma or semicolon.
proof fn lemma_ci_punct(a: char, b: char, p: char)
    requires
        char_eq_ci(a, b),
        !(65 <= p as int && p as int <= 90),
        !(97 <= p as int && p as int <= 122),
    ensures
        (a == p) == (b == p),
{
    lemma_char_eq_ci_classes(a, b);
    lemma_char_eq_ci_classes(b, a);
}

/// The parenthesized `VARCHAR` length is read the same from inputs equal
/// up to case.
pub proof fn lemma_sp_varchar_args_ci(s1: Seq<char>, s2: Seq<char>, i: int)
    requires
        seq_eq_ci(s1, s2),
        0 <= i <= s1.len(),
    ensures
        sp_varchar_args(s1, i) == sp_varchar_args(s2, i),
{
    lemma_skip_ws_ci(s1, s2, i);
    lemma_skip_ws_bounds(s1, i);
    let p = skip_ws(s1, i);
    if p < s1.len() {
        assert(char_eq_ci(s1[p], s2[p]));
        lemma_ci_punct(s1[p], s2[p], '(');
    }
    if p < s1.len() && s1[p] == '(' {
        lemma_skip_ws_ci(s1, s2, p + 1);
        lemma_skip_ws_bounds(s1, p + 1);
        let q0 = skip_ws(s1, p + 1);
        lemma_word_end_ci(s1, s2, q0);
        lemma_word_end_bounds(s1, q0);
        let q1 = word_end(s1, q0);
        if q1 != q0 {
            lemma_skip_ws_ci(s1, s2, q1);
            lemma_skip_ws_bounds(s1, q1);
            let p2 = skip_ws(s1, q1);
            if p2 < s1.len() {
                assert(char_eq_ci(s1[p2], s2[p2]));
                lemma_ci_punct(s1[p2], s2[p2], ')');
            }
            if p2 < s1.len() && s1[p2] == ')' {
                lemma_subrange_ci(s1, s2, q0, q1);
                lemma_ci_digits(s1.subrange(q0, q1), s2.subrange(q0, q1));
            }
        }
    }
}

/// The data type is read identically, normalization included, from inputs
/// equal up to case.
pub proof fn lemma_sp_data_type_ci(s1: Seq<char>, s2: Seq<char>, i: int)
    requires
        seq_eq_ci(s1, s2),
        0 <= i <= s1.len(),
    ensures
        sp_data_type(s1, i) == sp_data_type(s2, i),
{
    lemma_skip_ws_ci(s1, s2, i);
    lemma_skip_ws_bounds(s1, i);
    let j = skip_ws(s1, i);
    lemma_word_end_ci(s1, s2, j);
    lemma_word_end_bounds(s1, j);
    let k = word_end(s1, j);
    if k != j {
        lemma_subrange_ci(s1, s2, j, k);
        let w1 = s1.subrange(j, k);
        let w2 = s2.subrange(j, k);
        lemma_ci_same_kw(w1, w2, "VARCHAR"@);
        lemma_ci_same_kw(w1, w2, "INT"@);
        lemma_ci_same_kw(w1, w2, "TEXT"@);
        lemma_ci_same_kw(w1, w2, "BOOLEAN"@);
        lemma_ci_same_kw(w1, w2, "DATE"@);
        lemma_sp_varchar_args_ci(s1, s2, k);
    }
}

/// How two columns read from inputs equal up to case relate: names equal
/// up to case, identical data types and nullability.
pub open spec fn col_ci_related(c1: ColumnDefV, c2: ColumnDefV) -> bool {
    seq_eq_ci(c1.name, c2.name) && c1.data_type == c2.data_type && c1.not_null == c2.not_null
}

/// [`col_ci_related`], columnwise over two column lists of equal length.
pub open spec fn cols_ci_related(cs1: Seq<ColumnDefV>, cs2: Seq<ColumnDefV>) -> bool {
    cs1.len() == cs2.len() && (forall|k: int|
        0 <= k < cs1.len() ==> col_ci_related(#[trigger] cs1[k], #[trigger] cs2[k]))
}

/// How two queries read from inputs equal up to case relate: table names
/// equal up to case and related column lists.
pub open spec fn query_ci_related(q1: CreateTableQueryV, q2: CreateTableQueryV) -> bool {
    seq_eq_ci(q1.table_name, q2.table_name) && cols_ci_related(q1.columns, q2.columns)
}

/// A column definition is read equivalently from inputs equal up to case:
/// the same verdict, the same end position, the same error, and related
/// columns.
pub proof fn lemma_sp_column_definition_ci(s1: Seq<char>, s2: Seq<char>, i: int)
    requires
        seq_eq_ci(s1, s2),
        0 <= i <= s1.len(),
    ensures
        match (sp_column_definition(s1, i), sp_column_definition(s2, i)) {
            (Ok(r1), Ok(r2)) => col_ci_related(r1.0, r2.0) && r1.1 == r2.1,
            (Err(e1), Err(e2)) => e1 == e2,
            _ => false,
        },
{
    lemma_skip_ws_ci(s1, s2, i);
    lemma_skip_ws_bounds(s1, i);
    let j = skip_ws(s1, i);
    lemma_word_end_ci(s1, s2, j);
    lemma_word_end_bounds(s1, j);
    let k = word_end(s1, j);
    if k != j {
        assert(char_eq_ci(s1[j], s2[j]));
        lemma_char_eq_ci_classes(s1[j], s2[j]);
        if is_ident_start_char(s1[j]) {
            lemma_subrange_ci(s1, s2, j, k);
            lemma_sp_data_type_ci(s1, s2, k);
            lemma_sp_data_type_progress(s1, k);
            if let Ok((dt, m)) = sp_data_type(s1, k) {
                lemma_skip_ws_ci(s1, s2, m);
                lemma_skip_ws_bounds(s1, m);
                let a = skip_ws(s1, m);
                lemma_word_end_ci(s1, s2, a);
                lemma_word_end_bounds(s1, a);
                let b = word_end(s1, a);
                if b > a {
                    lemma_subrange_ci(s1, s2, a, b);
                    lemma_ci_same_kw(s1.subrange(a, b), s2.subrange(a, b), "NOT"@);
                }
                if b > a && seq_eq_ci(s1.subrange(a, b), "NOT"@) {
                    lemma_skip_ws_ci(s1, s2, b);
                    lemma_skip_ws_bounds(s1, b);
                    let c0 = skip_ws(s1, b);
                    lemma_word_end_ci(s1, s2, c0);
                    lemma_word_end_bounds(s1, c0);
                    let d = word_end(s1, c0);
                    if d > c0 {
                        lemma_subrange_ci(s1, s2, c0, d);
                        lemma_ci_same_kw(s1.subrange(c0, d), s2.subrange(c0, d), "NULL"@);
                    }
                }
            }
        }
    }
}

/// The whole column list is read equivalently from inputs equal up to
/// case.
pub proof fn lemma_sp_column_list_ci(s1: Seq<char>, s2: Seq<char>, i: int)
    requires
        seq_eq_ci(s1, s2),
        0 <= i <= s1.len(),
    ensures
        match (sp_column_list(s1, i), sp_column_list(s2, i)) {
            (Ok(r1), Ok(r2)) => cols_ci_related(r1.0, r2.0) && r1.1 == r2.1,
            (Err(e1), Err(e2)) => e1 == e2,
            _ => false,
        },
    decreases s1.len() - i,
{
    lemma_sp_column_definition_ci(s1, s2, i);
    lemma_sp_column_definition_progress(s1, i);
    if let Ok((c, j)) = sp_column_definition(s1, i) {
        lemma_skip_ws_ci(s1, s2, j);
        lemma_skip_ws_bounds(s1, j);
        let p = skip_ws(s1, j);
        if p < s1.len() {
            assert(char_eq_ci(s1[p], s2[p]));
            lemma_ci_punct(s1[p], s2[p], ',');
        }
        if p < s1.len() && s1[p] == ',' {
            lemma_sp_column_list_ci(s1, s2, p + 1);
        }
    }
}

/// The whole statement is read equivalently from inputs equal up to case.
pub proof fn lemma_sp_query_ci(s1: Seq<char>, s2: Seq<char>)
    requires
        seq_eq_ci(s1, s2),
    ensures
        match (sp_query(s1), sp_query(s2)) {
            (Ok(q1), Ok(q2)) => query_ci_related(q1, q2),
            (Err(e1), Err(e2)) => e1 == e2,
            _ => false,
        },
{
    lemma_skip_ws_ci(s1, s2, 0);
    lemma_skip_ws_bounds(s1, 0);
    let j0 = skip_ws(s1, 0);
    lemma_word_end_ci(s1, s2, j0);
    lemma_word_end_bounds(s1, j0);
    let k0 = word_end(s1, j0);
    if k0 > j0 {
        lemma_subrange_ci(s1, s2, j0, k0);
        lemma_ci_same_kw(s1.subrange(j0, k0), s2.subrange(j0, k0), "CREATE"@);
    }
    if k0 > j0 && seq_eq_ci(s1.subrange(j0, k0), "CREATE"@) {
        lemma_skip_ws_ci(s1, s2, k0);
        lemma_skip_ws_bounds(s1, k0);
        let j1 = skip_ws(s1, k0);
        lemma_word_end_ci(s1, s2, j1);
        lemma_word_end_bounds(s1, j1);
        let k1 = word_end(s1, j1);
        if k1 > j1 {
            lemma_subrange_ci(s1, s2, j1, k1);
            lemma_ci_same_kw(s1.subrange(j1, k1), s2.subrange(j1, k1), "TABLE"@);
        }
        if k1 > j1 && seq_eq_ci(s1.subrange(j1, k1), "TABLE"@) {
            lemma_skip_ws_ci(s1, s2, k1);
            lemma_skip_ws_bounds(s1, k1);
            let j2 = skip_ws(s1, k1);
            lemma_word_end_ci(s1, s2, j2);
            lemma_word_end_bounds(s1, j2);
            let k2 = word_end(s1, j2);
            if k2 > j2 {
                assert(char_eq_ci(s1[j2], s2[j2]));
                lemma_char_eq_ci_classes(s1[j2], s2[j2]);
            }
            if k2 > j2 && is_ident_start_char(s1[j2]) {
                lemma_subrange_ci(s1, s2, j2, k2);
                lemma_skip_ws_ci(s1, s2, k2);
                lemma_skip_ws_bounds(s1, k2);
                let p0 = skip_ws(s1, k2);
                if p0 < s1.len() {
                    assert(char_eq_ci(s1[p0], s2[p0]));
                    lemma_ci_punct(s1[p0], s2[p0], '(');
                }
                if p0 < s1.len() && s1[p0] == '(' {
                    lemma_sp_column_list_ci(s1, s2, p0 + 1);
                    lemma_sp_column_list_progress(s1, p0 + 1);
                    if let Ok((cols, m)) = sp_column_list(s1, p0 + 1) {
                        lemma_skip_ws_ci(s1, s2, m);
                        lemma_skip_ws_bounds(s1, m);
                        let p1 = skip_ws(s1, m);
                        if p1 < s1.len() {
                            assert(char_eq_ci(s1[p1], s2[p1]));
                            lemma_ci_punct(s1[p1], s2[p1], ')');
                        }
                        if p1 < s1.len() && s1[p1] == ')' {
                            lemma_skip_ws_ci(s1, s2, p1 + 1);
                            lemma_skip_ws_bounds(s1, p1 + 1);
                            let p2 = skip_ws(s1, p1 + 1);
                            if p2 < s1.len() {
                                assert(char_eq_ci(s1[p2], s2[p2]));
                                lemma_ci_punct(s1[p2], s2[p2], ';');
                            }
                            if p2 < s1.len() && s1[p2] == ';' {
                                lemma_skip_ws_ci(s1, s2, p2 + 1);
                            }
                        }
                    }
                }
            }
        }
    }
}

/// Case insensitivity: inputs that differ only in letter case are accepted
/// or rejected together, with the same error; accepted ones yield the same
/// column count, identical (normalized) data types and nullability, and
/// identifiers that differ only in case.
pub proof fn lemma_parse_case_insensitive(s1: Seq<char>, s2: Seq<char>)
    requires
        seq_eq_ci(s1, s2),
    ensures
        match (spec_parse(s1), spec_parse(s2)) {
            (Ok(q1), Ok(q2)) => query_ci_related(q1, q2),
            (Err(e1), Err(e2)) => e1 == e2,
            _ => false,
        },
{
    lemma_skip_ws_ci(s1, s2, 0);
    if skip_ws(s1, 0) != s1.len() {
        lemma_sp_query_ci(s1, s2);
    }
}

/// For every accepted input, the table name is the exact text of the
/// maximal identifier token after the `TABLE` keyword, case preserved.
pub proof fn lemma_table_name_is_source_text(s: Seq<char>)
    requires
        spec_parse(s) is Ok,
    ensures
        ({
            let j2 = skip_ws(s, word_end(s, skip_ws(s, word_end(s, skip_ws(s, 0)))));
            let k2 = word_end(s, j2);
            &&& spec_parse(s)->Ok_0.table_name == s.subrange(j2, k2)
            &&& is_ident_start_char(s[j2])
            &&& j2 < k2
            &&& forall|t: int| j2 <= t < k2 ==> #[trigger] is_word_char(s[t])
            &&& k2 < s.len() ==> !is_word_char(s[k2])
        }),
{
    let j2 = skip_ws(s, word_end(s, skip_ws(s, word_end(s, skip_ws(s, 0)))));
    lemma_skip_ws_bounds(s, 0);
    lemma_word_end_bounds(s, skip_ws(s, 0));
    lemma_skip_ws_bounds(s, word_end(s, skip_ws(s, 0)));
    lemma_word_end_bounds(s, skip_ws(s, word_end(s, skip_ws(s, 0))));
    lemma_skip_ws_bounds(s, word_end(s, skip_ws(s, word_end(s, skip_ws(s, 0)))));
    lemma_word_end_chars(s, j2);
}

/// Column name start positions: each column's name is the maximal word
/// token at its own position, and the positions strictly increase, so the
/// result order is the declaration order of the input.
pub open spec fn col_name_starts(s: Seq<char>, cols: Seq<ColumnDefV>, ps: Seq<int>) -> bool {
    &&& ps.len() == cols.len()
    &&& forall|k: int|
        0 <= k < ps.len() ==> (#[trigger] cols[k].name) == s.subrange(
            ps[k],
            word_end(s, ps[k]),
        )
    &&& forall|k: int| 0 <= k < ps.len() - 1 ==> #[trigger] ps[k] < ps[k + 1]
}

proof fn lemma_sp_column_list_order(s: Seq<char>, i: int)
    requires
        0 <= i <= s.len(),
    ensures
        sp_column_list(s, i) matches Ok(r) ==> exists|ps: Seq<int>|
            col_name_starts(s, r.0, ps) && (forall|k: int|
                0 <= k < ps.len() ==> i <= #[trigger] ps[k] <= s.len()),
    decreases s.len() - i,
{
    lemma_sp_column_definition_progress(s, i);
    if let Ok((c, j)) = sp_column_definition(s, i) {
        let jj = skip_ws(s, i);
        lemma_skip_ws_bounds(s, i);
        lemma_word_end_bounds(s, jj);
        assert(c.name == s.subrange(jj, word_end(s, jj)));
        let p = skip_ws(s, j);
        lemma_skip_ws_bounds(s, j);
        if p < s.len() && s[p] == ',' {
            lemma_sp_column_list_order(s, p + 1);
            if let Ok((rest, m)) = sp_column_list(s, p + 1) {
                let ps0 = choose|ps: Seq<int>|
                    col_name_starts(s, rest, ps) && (forall|k: int|
                        0 <= k < ps.len() ==> p + 1 <= #[trigger] ps[k] <= s.len());
                let ps = seq![jj] + ps0;
                let cols = seq![c] + rest;
                assert(ps[0] == jj);
                assert(cols[0] == c);
                assert(jj < p + 1);
                assert forall|k: int| 0 <= k < ps.len() implies (#[trigger] cols[k].name)
                    == s.subrange(ps[k], word_end(s, ps[k])) && i <= ps[k] <= s.len() by {
                    if k > 0 {
                        assert(cols[k] == rest[k - 1]);
                        assert(ps[k] == ps0[k - 1]);
                        assert(p + 1 <= ps0[k - 1] <= s.len());
                    }
                }
                assert forall|k: int| 0 <= k < ps.len() - 1 implies #[trigger] ps[k] < ps[k
                    + 1] by {
                    if k == 0 {
                        assert(ps[1] == ps0[0]);
                        assert(p + 1 <= ps0[0]);
                    } else {
                        assert(ps[k] == ps0[k - 1]);
                        assert(ps[k + 1] == ps0[k]);
                        assert(ps0[k - 1] < ps0[k]);
                    }
                }
                assert(col_name_starts(s, cols, ps));
                assert(forall|k: int| 0 <= k < ps.len() ==> i <= #[trigger] ps[k] <= s.len());
                assert(sp_column_list(s, i) matches Ok(r) && r.0 == cols);
                assert(exists|w: Seq<int>|
                    col_name_starts(s, cols, w) && (forall|k: int|
                        0 <= k < w.len() ==> i <= #[trigger] w[k] <= s.len()));
            }
        } else {
            let ps = seq![jj];
            assert(ps[0] == jj);
            assert(col_name_starts(s, seq![c], ps));
            assert(forall|k: int| 0 <= k < ps.len() ==> i <= #[trigger] ps[k] <= s.len());
            assert(sp_column_list(s, i) matches Ok(r) && r.0 == seq![c]);
            assert(exists|w: Seq<int>|
                col_name_starts(s, seq![c], w) && (forall|k: int|
                    0 <= k < w.len() ==> i <= #[trigger] w[k] <= s.len()));
        }
    }
}

/// Column order in the result equals declaration order in the input: each
/// accepted query's columns are named by strictly increasing positions of
/// the input text, in sequence order, with nothing reordered or dropped.
pub proof fn lemma_columns_in_declaration_order(s: Seq<char>)
    requires
        spec_parse(s) is Ok,
    ensures
        exists|ps: Seq<int>| col_name_starts(s, spec_parse(s)->Ok_0.columns, ps),
        spec_parse(s)->Ok_0.columns.len() >= 1,
{
    let j0 = skip_ws(s, 0);
    lemma_skip_ws_bounds(s, 0);
    let k0 = word_end(s, j0);
    lemma_word_end_bounds(s, j0);
    let j1 = skip_ws(s, k0);
    lemma_skip_ws_bounds(s, k0);
    let k1 = word_end(s, j1);
    lemma_word_end_bounds(s, j1);
    let j2 = skip_ws(s, k1);
    lemma_skip_ws_bounds(s, k1);
    let k2 = word_end(s, j2);
    lemma_word_end_bounds(s, j2);
    let p0 = skip_ws(s, k2);
    lemma_skip_ws_bounds(s, k2);
    lemma_sp_column_list_order(s, p0 + 1);
    lemma_sp_column_list_progress(s, p0 + 1);
    assert(spec_parse(s)->Ok_0.columns == sp_column_list(s, p0 + 1)->Ok_0.0);
}

/// Type normalization: a column type written as any case variant of `INT`
/// is read as exactly `Simple("INT")`.
pub proof fn lemma_simple_type_normalized(s: Seq<char>, i: int)
    requires
        0 <= i <= s.len(),
        ({
            let j = skip_ws(s, i);
            let k = word_end(s, j);
            k > j && seq_eq_ci(s.subrange(j, k), "INT"@)
        }),
    ensures
        sp_data_type(s, i) == Ok::<(DataTypeV, int), ParseErrorV>(
            (DataTypeV::Simple("INT"@), word_end(s, skip_ws(s, i))),
        ),
{
    let j = skip_ws(s, i);
    let k = word_end(s, j);
    let w = s.subrange(j, k);
    reveal_strlit("INT");
    reveal_strlit("VARCHAR");
    assert(w.len() == 3);
    assert(!seq_eq_ci(w, "VARCHAR"@));
}

/// The `VARCHAR` length argument, when the surrounding shape
/// `VARCHAR ( <word> )` is present, decides the outcome alone: a numeral
/// yields `Varchar` of exactly its value, a word with a non-digit yields
/// the length error, and a numeral too large for `u64` the overflow error.
pub proof fn lemma_varchar_length(s: Seq<char>, i: int)
    requires
        0 <= i <= s.len(),
    ensures
        ({
            let p = skip_ws(s, i);
            let q0 = skip_ws(s, p + 1);
            let q1 = word_end(s, q0);
            let p2 = skip_ws(s, q1);
            let w = s.subrange(q0, q1);
            (p < s.len() && s[p] == '(' && q1 > q0 && p2 < s.len() && s[p2] == ')') ==> {
                if !all_digits(w) {
                    sp_varchar_args(s, i) == Err::<(DataTypeV, int), ParseErrorV>(
                        ParseErrorV::InvalidVarcharLength(NumeralError::NonDigit),
                    )
                } else if digits_val(w) > u64::MAX {
                    sp_varchar_args(s, i) == Err::<(DataTypeV, int), ParseErrorV>(
                        ParseErrorV::InvalidVarcharLength(NumeralError::Overflow),
                    )
                } else {
                    sp_varchar_args(s, i) == Ok::<(DataTypeV, int), ParseErrorV>(
                        (DataTypeV::Varchar(digits_val(w) as u64), p2 + 1),
                    )
                }
            }
        }),
{
}

/// A `NOT NULL` constraint after the type sets `not_null` and nothing
/// else: an accepted column's name is the identifier text, its type is
/// exactly what the data-type rule reads, and `not_null` holds if and only
/// if a word spelled `NOT` (in any case) follows the type.
pub proof fn lemma_not_null_constraint(s: Seq<char>, i: int)
    requires
        0 <= i <= s.len(),
    ensures
        sp_column_definition(s, i) matches Ok(r) ==> ({
            let j = skip_ws(s, i);
            let k = word_end(s, j);
            &&& r.0.name == s.subrange(j, k)
            &&& sp_data_type(s, k) matches Ok(dr) && r.0.data_type == dr.0 && (r.0.not_null <==> ({
                let a = skip_ws(s, dr.1);
                let b = word_end(s, a);
                b > a && seq_eq_ci(s.subrange(a, b), "NOT"@)
            }))
        }),
{
}

proof fn lemma_sp_column_list_not_no_query(s: Seq<char>, i: int)
    requires
        0 <= i <= s.len(),
    ensures
        sp_column_list(s, i) matches Err(e) ==> !(e is NoQueryFound),
    decreases s.len() - i,
{
    lemma_sp_column_definition_progress(s, i);
    if let Ok((c, j)) = sp_column_definition(s, i) {
        let p = skip_ws(s, j);
        lemma_skip_ws_bounds(s, j);
        if p < s.len() && s[p] == ',' {
            lemma_sp_column_list_not_no_query(s, p + 1);
        }
    }
}

/// The no-query error comes exactly on empty or whitespace-only input: no
/// other failure is ever reported as it.
pub proof fn lemma_no_query_found(s: Seq<char>)
    ensures
        (spec_parse(s) == Err::<CreateTableQueryV, ParseErrorV>(ParseErrorV::NoQueryFound)) <==> (
        skip_ws(s, 0) == s.len()),
{
    lemma_skip_ws_bounds(s, 0);
    if skip_ws(s, 0) != s.len() {
        let j0 = skip_ws(s, 0);
        let k0 = word_end(s, j0);
        lemma_word_end_bounds(s, j0);
        let j1 = skip_ws(s, k0);
        lemma_skip_ws_bounds(s, k0);
        let k1 = word_end(s, j1);
        lemma_word_end_bounds(s, j1);
        let j2 = skip_ws(s, k1);
        lemma_skip_ws_bounds(s, k1);
        let k2 = word_end(s, j2);
        lemma_word_end_bounds(s, j2);
        let p0 = skip_ws(s, k2);
        lemma_skip_ws_bounds(s, k2);
        if p0 < s.len() && s[p0] == '(' {
            lemma_sp_column_list_not_no_query(s, p0 + 1);
        }
    }
}

/// An unrecognized bare type keyword is rejected, as the invalid-data-type
/// error: parsing neither drops nor substitutes it.
pub proof fn lemma_unknown_type_rejected(s: Seq<char>, i: int)
    requires
        0 <= i <= s.len(),
        ({
            let j = skip_ws(s, i);
            let k = word_end(s, j);
            &&& k > j
            &&& !seq_eq_ci(s.subrange(j, k), "VARCHAR"@)
            &&& !seq_eq_ci(s.subrange(j, k), "INT"@)
            &&& !seq_eq_ci(s.subrange(j, k), "TEXT"@)
            &&& !seq_eq_ci(s.subrange(j, k), "BOOLEAN"@)
            &&& !seq_eq_ci(s.subrange(j, k), "DATE"@)
        }),
    ensures
        sp_data_type(s, i) == Err::<(DataTypeV, int), ParseErrorV>(ParseErrorV::InvalidDataType),
{
}

} // verus!
