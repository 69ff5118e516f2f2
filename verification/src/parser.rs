//! The statement parser: a specification function `spec_parse` that fixes
//! the outcome of parsing for every input, and the verified executable
//! parser whose result is proved equal to it.

use vstd::prelude::*;
use vstd::string::StringExecFns;

use crate::ast::{
    ColumnDef, ColumnDefV, CreateTableQuery, CreateTableQueryV, DataType, DataTypeV, NumeralError,
    ParseError, ParseErrorV,
};
use crate::grammar::{
    is_digit_char, is_ident_start_char, lemma_skip_ws_bounds, lemma_word_end_bounds, seq_eq_ci,
    skip_ws, word_end, SQLParser,
};

verus! {

/// The numeric value of a digit character.
pub open spec fn digit_val(c: char) -> int {
    c as int - 48
}

/// Every character of `s` is a decimal digit.
pub open spec fn all_digits(s: Seq<char>) -> bool {
    forall|i: int| 0 <= i < s.len() ==> is_digit_char(#[trigger] s[i])
}

/// The value of `s` read as a decimal numeral.
pub open spec fn digits_val(s: Seq<char>) -> int
    decreases s.len(),
{
    if s.len() == 0 {
        0
    } else {
        digits_val(s.drop_last()) * 10 + digit_val(s.last())
    }
}

pub proof fn lemma_digits_val_nonneg(s: Seq<char>)
    requires
        all_digits(s),
    ensures
        digits_val(s) >= 0,
    decreases s.len(),
{
    if s.len() > 0 {
        assert(forall|i: int| 0 <= i < s.drop_last().len() ==> is_digit_char(
            #[trigger] s.drop_last()[i],
        ));
        lemma_digits_val_nonneg(s.drop_last());
    }
}

/// Extending a numeral by one digit multiplies its value by ten and adds
/// the digit.
pub proof fn lemma_digits_val_extend(s: Seq<char>, k: int)
    requires
        0 <= k < s.len(),
    ensures
        digits_val(s.subrange(0, k + 1)) == digits_val(s.subrange(0, k)) * 10 + digit_val(s[k]),
{
    assert(s.subrange(0, k + 1).drop_last() =~= s.subrange(0, k));
    assert(s.subrange(0, k + 1).last() == s[k]);
}

/// A numeral is worth at least as much as any of its prefixes.
pub proof fn lemma_digits_val_prefix_le(s: Seq<char>, k: int)
    requires
        all_digits(s),
        0 <= k <= s.len(),
    ensures
        digits_val(s.subrange(0, k)) <= digits_val(s),
    decreases s.len() - k,
{
    if k == s.len() {
        assert(s.subrange(0, k) =~= s);
    } else {
        lemma_digits_val_extend(s, k);
        assert(forall|i: int| 0 <= i < s.subrange(0, k).len() ==> is_digit_char(
            #[trigger] s.subrange(0, k)[i],
        ));
        lemma_digits_val_nonneg(s.subrange(0, k));
        lemma_digits_val_prefix_le(s, k + 1);
    }
}

/// The character for one decimal digit.
pub open spec fn dec_digit_char(d: int) -> char {
    ((48 + d) as u8) as char
}

/// The decimal numeral for `n`, most significant digit first.
pub open spec fn dec_rep(n: int) -> Seq<char>
    decreases n,
    via dec_rep_decreases
{
    if n < 10 {
        seq![dec_digit_char(n)]
    } else {
        dec_rep(n / 10) + seq![dec_digit_char(n % 10)]
    }
}

#[via_fn]
proof fn dec_rep_decreases(n: int) {
    assert(n >= 10 ==> n / 10 < n) by (nonlinear_arith);
}

/// The text of a syntax error: what was expected, and at which character
/// of the input recognition diverged.
pub open spec fn expected_msg(what: Seq<char>, pos: int) -> Seq<char> {
    "expected "@ + what + " at character "@ + dec_rep(pos)
}

/// What parsing the data-type position `i` of `s` yields: the recognized
/// type and the index just past it, or the error.
pub open spec fn sp_data_type(s: Seq<char>, i: int) -> Result<(DataTypeV, int), ParseErrorV> {
    let j = skip_ws(s, i);
    let k = word_end(s, j);
    if k == j {
        Err(ParseErrorV::ParsingError(expected_msg("a data type"@, j)))
    } else {
        let w = s.subrange(j, k);
        if seq_eq_ci(w, "VARCHAR"@) {
            sp_varchar_args(s, k)
        } else if seq_eq_ci(w, "INT"@) {
            Ok((DataTypeV::Simple("INT"@), k))
        } else if seq_eq_ci(w, "TEXT"@) {
            Ok((DataTypeV::Simple("TEXT"@), k))
        } else if seq_eq_ci(w, "BOOLEAN"@) {
            Ok((DataTypeV::Simple("BOOLEAN"@), k))
        } else if seq_eq_ci(w, "DATE"@) {
            Ok((DataTypeV::Simple("DATE"@), k))
        } else {
            Err(ParseErrorV::InvalidDataType)
        }
    }
}

/// What parsing the parenthesized length after a `VARCHAR` keyword ending
/// at `i` yields.
pub open spec fn sp_varchar_args(s: Seq<char>, i: int) -> Result<(DataTypeV, int), ParseErrorV> {
    let p = skip_ws(s, i);
    if !(p < s.len() && s[p] == '(') {
        Err(ParseErrorV::ParsingError(expected_msg("( after VARCHAR"@, p)))
    } else {
        let q0 = skip_ws(s, p + 1);
        let q1 = word_end(s, q0);
        if q1 == q0 {
            Err(ParseErrorV::ParsingError(expected_msg("a VARCHAR length"@, q0)))
        } else {
            let p2 = skip_ws(s, q1);
            if !(p2 < s.len() && s[p2] == ')') {
                Err(ParseErrorV::ParsingError(expected_msg(") after the VARCHAR length"@, p2)))
            } else {
                let w = s.subrange(q0, q1);
                if !all_digits(w) {
                    Err(ParseErrorV::InvalidVarcharLength(NumeralError::NonDigit))
                } else if digits_val(w) > u64::MAX {
                    Err(ParseErrorV::InvalidVarcharLength(NumeralError::Overflow))
                } else {
                    Ok((DataTypeV::Varchar(digits_val(w) as u64), p2 + 1))
                }
            }
        }
    }
}

/// What parsing one column definition at position `i` yields: the column
/// and the index just past it, or the error.
pub open spec fn sp_column_definition(s: Seq<char>, i: int) -> Result<
    (ColumnDefV, int),
    ParseErrorV,
> {
    let j = skip_ws(s, i);
    let k = word_end(s, j);
    if k == j || !is_ident_start_char(s[j]) {
        Err(ParseErrorV::ParsingError(expected_msg("a column name"@, j)))
    } else {
        let name = s.subrange(j, k);
        match sp_data_type(s, k) {
            Err(e) => Err(e),
            Ok((dt, m)) => {
                let a = skip_ws(s, m);
                let b = word_end(s, a);
                if b > a && seq_eq_ci(s.subrange(a, b), "NOT"@) {
                    let c0 = skip_ws(s, b);
                    let d = word_end(s, c0);
                    if d > c0 && seq_eq_ci(s.subrange(c0, d), "NULL"@) {
                        Ok((ColumnDefV { name, data_type: dt, not_null: true }, d))
                    } else {
                        Err(ParseErrorV::ParsingError(expected_msg("NULL after NOT"@, c0)))
                    }
                } else {
                    Ok((ColumnDefV { name, data_type: dt, not_null: false }, m))
                }
            },
        }
    }
}

/// On success, a data type ends strictly after the position it started at
/// and within the input.
pub proof fn lemma_sp_data_type_progress(s: Seq<char>, i: int)
    ensures
        sp_data_type(s, i) matches Ok(r) ==> i < r.1 <= s.len(),
{
    if 0 <= i <= s.len() {
        let j = skip_ws(s, i);
        lemma_skip_ws_bounds(s, i);
        let k = word_end(s, j);
        lemma_word_end_bounds(s, j);
        if k != j {
            let p = skip_ws(s, k);
            lemma_skip_ws_bounds(s, k);
            if p < s.len() && s[p] == '(' {
                let q0 = skip_ws(s, p + 1);
                lemma_skip_ws_bounds(s, p + 1);
                let q1 = word_end(s, q0);
                lemma_word_end_bounds(s, q0);
                lemma_skip_ws_bounds(s, q1);
            }
        }
    }
}

/// On success, a column definition ends strictly after the position it
/// started at and within the input; its name token ends before its end.
pub proof fn lemma_sp_column_definition_progress(s: Seq<char>, i: int)
    ensures
        sp_column_definition(s, i) matches Ok(r) ==> i < r.1 <= s.len() && word_end(
            s,
            skip_ws(s, i),
        ) < r.1,
{
    if 0 <= i <= s.len() {
        let j = skip_ws(s, i);
        lemma_skip_ws_bounds(s, i);
        let k = word_end(s, j);
        lemma_word_end_bounds(s, j);
        if k != j && is_ident_start_char(s[j]) {
            lemma_sp_data_type_progress(s, k);
            if let Ok((dt, m)) = sp_data_type(s, k) {
                let a = skip_ws(s, m);
                lemma_skip_ws_bounds(s, m);
                let b = word_end(s, a);
                lemma_word_end_bounds(s, a);
                if b > a && seq_eq_ci(s.subrange(a, b), "NOT"@) {
                    let c0 = skip_ws(s, b);
                    lemma_skip_ws_bounds(s, b);
                    let d = word_end(s, c0);
                    lemma_word_end_bounds(s, c0);
                }
            }
        }
    }
}

/// What parsing the comma-separated column list at position `i` yields:
/// the columns in declaration order and the index just past the last one,
/// or the first error.
pub open spec fn sp_column_list(s: Seq<char>, i: int) -> Result<
    (Seq<ColumnDefV>, int),
    ParseErrorV,
>
    decreases s.len() - i,
    via sp_column_list_decreases
{
    match sp_column_definition(s, i) {
        Err(e) => Err(e),
        Ok((c, j)) => {
            let p = skip_ws(s, j);
            if p < s.len() && s[p] == ',' {
                match sp_column_list(s, p + 1) {
                    Err(e) => Err(e),
                    Ok((rest, m)) => Ok((seq![c] + rest, m)),
                }
            } else {
                Ok((seq![c], j))
            }
        },
    }
}

#[via_fn]
proof fn sp_column_list_decreases(s: Seq<char>, i: int) {
    lemma_sp_column_definition_progress(s, i);
    if let Ok((c, j)) = sp_column_definition(s, i) {
        lemma_skip_ws_bounds(s, j);
    }
}

/// On success, the column list holds at least one column and ends within
/// the input, strictly after where it started.
pub proof fn lemma_sp_column_list_progress(s: Seq<char>, i: int)
    ensures
        sp_column_list(s, i) matches Ok(r) ==> i < r.1 <= s.len() && r.0.len() >= 1,
    decreases s.len() - i,
{
    lemma_sp_column_definition_progress(s, i);
    if let Ok((c, j)) = sp_column_definition(s, i) {
        let p = skip_ws(s, j);
        lemma_skip_ws_bounds(s, j);
        if p < s.len() && s[p] == ',' {
            lemma_sp_column_list_progress(s, p + 1);
        }
    }
}

/// What parsing the whole statement yields, once the input is known not to
/// be empty or all whitespace.
pub open spec fn sp_query(s: Seq<char>) -> Result<CreateTableQueryV, ParseErrorV> {
    let j0 = skip_ws(s, 0);
    let k0 = word_end(s, j0);
    if !(k0 > j0 && seq_eq_ci(s.subrange(j0, k0), "CREATE"@)) {
        Err(ParseErrorV::ParsingError(expected_msg("CREATE keyword"@, j0)))
    } else {
        let j1 = skip_ws(s, k0);
        let k1 = word_end(s, j1);
        if !(k1 > j1 && seq_eq_ci(s.subrange(j1, k1), "TABLE"@)) {
            Err(ParseErrorV::ParsingError(expected_msg("TABLE keyword"@, j1)))
        } else {
            let j2 = skip_ws(s, k1);
            let k2 = word_end(s, j2);
            if !(k2 > j2 && is_ident_start_char(s[j2])) {
                Err(ParseErrorV::ParsingError(expected_msg("a table name"@, j2)))
            } else {
                let name = s.subrange(j2, k2);
                let p0 = skip_ws(s, k2);
                if !(p0 < s.len() && s[p0] == '(') {
                    Err(ParseErrorV::ParsingError(expected_msg("( before the column list"@, p0)))
                } else {
                    match sp_column_list(s, p0 + 1) {
                        Err(e) => Err(e),
                        Ok((cols, m)) => {
                            let p1 = skip_ws(s, m);
                            if !(p1 < s.len() && s[p1] == ')') {
                                Err(ParseErrorV::ParsingError(expected_msg(", or ) in the column list"@, p1)))
                            } else {
                                let p2 = skip_ws(s, p1 + 1);
                                let p3 = if p2 < s.len() && s[p2] == ';' {
                                    skip_ws(s, p2 + 1)
                                } else {
                                    p2
                                };
                                if p3 < s.len() {
                                    Err(ParseErrorV::ParsingError(expected_msg("end of input"@, p3)))
                                } else {
                                    Ok(CreateTableQueryV { table_name: name, columns: cols })
                                }
                            }
                        },
                    }
                }
            }
        }
    }
}

/// The outcome of parsing `s`: empty or whitespace-only input is
/// `NoQueryFound`; anything else is decided by [`sp_query`].
pub open spec fn spec_parse(s: Seq<char>) -> Result<CreateTableQueryV, ParseErrorV> {
    if skip_ws(s, 0) == s.len() {
        Err(ParseErrorV::NoQueryFound)
    } else {
        sp_query(s)
    }
}

/// The view of a `Vec` of columns: each column's view, in order.
pub open spec fn cols_view(v: Vec<ColumnDef>) -> Seq<ColumnDefV> {
    Seq::new(v@.len(), |i: int| v@[i]@)
}

/// Spec-level reading of a data-type parse result.
pub open spec fn dt_res_view(r: Result<(DataType, usize), ParseError>) -> Result<
    (DataTypeV, int),
    ParseErrorV,
> {
    match r {
        Ok((d, p)) => Ok((d@, p as int)),
        Err(e) => Err(e@),
    }
}

/// Spec-level reading of a column-definition parse result.
pub open spec fn col_res_view(r: Result<(ColumnDef, usize), ParseError>) -> Result<
    (ColumnDefV, int),
    ParseErrorV,
> {
    match r {
        Ok((c, p)) => Ok((c@, p as int)),
        Err(e) => Err(e@),
    }
}

/// Spec-level reading of a column-list parse result.
pub open spec fn list_res_view(r: Result<(Vec<ColumnDef>, usize), ParseError>) -> Result<
    (Seq<ColumnDefV>, int),
    ParseErrorV,
> {
    match r {
        Ok((v, p)) => Ok((cols_view(v), p as int)),
        Err(e) => Err(e@),
    }
}

/// Spec-level reading of a whole-statement parse result.
pub open spec fn query_res_view(r: Result<CreateTableQuery, ParseError>) -> Result<
    CreateTableQueryV,
    ParseErrorV,
> {
    match r {
        Ok(q) => Ok(q@),
        Err(e) => Err(e@),
    }
}

/// The one-character string for a decimal digit.
fn digit_str(d: u64) -> (r: &'static str)
    requires
        d < 10,
    ensures
        r@ == seq![dec_digit_char(d as int)],
{
    let r: &'static str = if d == 0 {
        "0"
    } else if d == 1 {
        "1"
    } else if d == 2 {
        "2"
    } else if d == 3 {
        "3"
    } else if d == 4 {
        "4"
    } else if d == 5 {
        "5"
    } else if d == 6 {
        "6"
    } else if d == 7 {
        "7"
    } else if d == 8 {
        "8"
    } else {
        "9"
    };
    proof {
        reveal_strlit("0");
        reveal_strlit("1");
        reveal_strlit("2");
        reveal_strlit("3");
        reveal_strlit("4");
        reveal_strlit("5");
        reveal_strlit("6");
        reveal_strlit("7");
        reveal_strlit("8");
        reveal_strlit("9");
        assert(r@ =~= seq![dec_digit_char(d as int)]);
    }
    r
}

/// Appends the decimal numeral for `n` to `out`.
fn push_dec(n: u64, out: &mut String)
    ensures
        final(out)@ == old(out)@ + dec_rep(n as int),
    decreases n,
{
    if n >= 10 {
        proof {
            assert(n / 10 < n) by (nonlinear_arith)
                requires
                    n >= 10,
            ;
        }
        push_dec(n / 10, out);
    }
    let d = n % 10;
    out.append(digit_str(d));
    proof {
        assert(final(out)@ =~= old(out)@ + dec_rep(n as int));
    }
}

/// Builds the syntax error for a missing `what` at character `pos`.
fn expected_err(what: &str, pos: usize) -> (e: ParseError)
    ensures
        e@ == ParseErrorV::ParsingError(expected_msg(what@, pos as int)),
{
    let mut msg = "expected ".to_owned();
    msg.append(what);
    msg.append(" at character ");
    push_dec(pos as u64, &mut msg);
    proof {
        assert(msg@ =~= expected_msg(what@, pos as int));
    }
    ParseError::ParsingError(msg)
}

/// Converts the numeral `w` to a `u64`, telling a non-digit character
/// apart from a value too large for the type.
fn parse_numeral(w: &str) -> (r: Result<u64, NumeralError>)
    ensures
        match r {
            Ok(v) => all_digits(w@) && v as int == digits_val(w@),
            Err(NumeralError::NonDigit) => !all_digits(w@),
            Err(NumeralError::Overflow) => all_digits(w@) && digits_val(w@) > u64::MAX,
        },
{
    let n = w.unicode_len();
    let mut k: usize = 0;
    while k < n
        invariant
            0 <= k <= n,
            n == w@.len(),
            forall|i: int| 0 <= i < k ==> is_digit_char(#[trigger] w@[i]),
        decreases n - k,
    {
        if !SQLParser::is_digit_char(w.get_char(k)) {
            proof {
                assert(!is_digit_char(w@[k as int]));
            }
            return Err(NumeralError::NonDigit);
        }
        k = k + 1;
    }
    assert(all_digits(w@));
    let mut acc: u64 = 0;
    let mut m: usize = 0;
    while m < n
        invariant
            0 <= m <= n,
            n == w@.len(),
            all_digits(w@),
            acc as int == digits_val(w@.subrange(0, m as int)),
        decreases n - m,
    {
        let c = w.get_char(m);
        proof {
            assert(is_digit_char(w@[m as int]));
        }
        let d: u64 = ((c as u32) - 48) as u64;
        if acc > (u64::MAX - d) / 10 {
            proof {
                lemma_digits_val_extend(w@, m as int);
                assert(acc * 10 + d > u64::MAX) by (nonlinear_arith)
                    requires
                        acc > (u64::MAX - d) / 10,
                        d <= 9,
                ;
                lemma_digits_val_prefix_le(w@, m as int + 1);
            }
            return Err(NumeralError::Overflow);
        }
        proof {
            lemma_digits_val_extend(w@, m as int);
            assert(acc * 10 + d <= u64::MAX) by (nonlinear_arith)
                requires
                    acc <= (u64::MAX - d) / 10,
                    d <= 9,
            ;
        }
        acc = acc * 10 + d;
        m = m + 1;
    }
    proof {
        assert(w@.subrange(0, n as int) =~= w@);
    }
    Ok(acc)
}

/// Parses the data type of a column at `pos`.
pub(crate) fn parse_data_type(s: &str, pos: usize) -> (r: Result<(DataType, usize), ParseError>)
    requires
        pos <= s@.len(),
    ensures
        dt_res_view(r) == sp_data_type(s@, pos as int),
        r matches Ok(v) ==> pos < v.1 <= s@.len(),
{
    proof {
        lemma_sp_data_type_progress(s@, pos as int);
    }
    let n = s.unicode_len();
    let j = SQLParser::skip_ws(s, pos);
    let k = SQLParser::word_end(s, j);
    if k == j {
        return Err(expected_err("a data type", j));
    }
    let w = s.substring_char(j, k);
    if SQLParser::str_eq_ci(w, "VARCHAR") {
        let p = SQLParser::skip_ws(s, k);
        if !(p < n && s.get_char(p) == '(') {
            return Err(expected_err("( after VARCHAR", p));
        }
        let q0 = SQLParser::skip_ws(s, p + 1);
        let q1 = SQLParser::word_end(s, q0);
        if q1 == q0 {
            return Err(expected_err("a VARCHAR length", q0));
        }
        let p2 = SQLParser::skip_ws(s, q1);
        if !(p2 < n && s.get_char(p2) == ')') {
            return Err(expected_err(") after the VARCHAR length", p2));
        }
        let num = s.substring_char(q0, q1);
        match parse_numeral(num) {
            Ok(len) => Ok((DataType::Varchar(len), p2 + 1)),
            Err(why) => Err(ParseError::InvalidVarcharLength(why)),
        }
    } else if SQLParser::str_eq_ci(w, "INT") {
        Ok((DataType::Simple("INT".to_owned()), k))
    } else if SQLParser::str_eq_ci(w, "TEXT") {
        Ok((DataType::Simple("TEXT".to_owned()), k))
    } else if SQLParser::str_eq_ci(w, "BOOLEAN") {
        Ok((DataType::Simple("BOOLEAN".to_owned()), k))
    } else if SQLParser::str_eq_ci(w, "DATE") {
        Ok((DataType::Simple("DATE".to_owned()), k))
    } else {
        Err(ParseError::InvalidDataType)
    }
}

/// Parses one column definition at `pos`: name, data type, and an optional
/// `NOT NULL` constraint.
pub(crate) fn parse_column_definition(s: &str, pos: usize) -> (r: Result<
    (ColumnDef, usize),
    ParseError,
>)
    requires
        pos <= s@.len(),
    ensures
        col_res_view(r) == sp_column_definition(s@, pos as int),
        r matches Ok(v) ==> pos < v.1 <= s@.len(),
{
    proof {
        lemma_sp_column_definition_progress(s@, pos as int);
    }
    let j = SQLParser::skip_ws(s, pos);
    let k = SQLParser::word_end(s, j);
    if k == j || !SQLParser::is_ident_start_char(s.get_char(j)) {
        return Err(expected_err("a column name", j));
    }
    let name = s.substring_char(j, k);
    let (data_type, m) = match parse_data_type(s, k) {
        Err(e) => {
            return Err(e);
        },
        Ok(v) => v,
    };
    let a = SQLParser::skip_ws(s, m);
    let b = SQLParser::word_end(s, a);
    if b > a && SQLParser::str_eq_ci(s.substring_char(a, b), "NOT") {
        let c0 = SQLParser::skip_ws(s, b);
        let d = SQLParser::word_end(s, c0);
        if d > c0 && SQLParser::str_eq_ci(s.substring_char(c0, d), "NULL") {
            Ok((ColumnDef { name: name.to_owned(), data_type, not_null: true }, d))
        } else {
            Err(expected_err("NULL after NOT", c0))
        }
    } else {
        Ok((ColumnDef { name: name.to_owned(), data_type, not_null: false }, m))
    }
}

/// Parses the comma-separated list of column definitions at `pos`,
/// collecting the columns in declaration order; any single failure aborts
/// the whole list.
pub(crate) fn parse_column_list(s: &str, pos: usize) -> (r: Result<
    (Vec<ColumnDef>, usize),
    ParseError,
>)
    requires
        pos <= s@.len(),
    ensures
        list_res_view(r) == sp_column_list(s@, pos as int),
        r matches Ok(v) ==> pos < v.1 <= s@.len(),
    decreases s@.len() - pos,
{
    proof {
        lemma_sp_column_list_progress(s@, pos as int);
    }
    let n = s.unicode_len();
    let (first, j) = match parse_column_definition(s, pos) {
        Err(e) => {
            return Err(e);
        },
        Ok(v) => v,
    };
    let p = SQLParser::skip_ws(s, j);
    if p < n && s.get_char(p) == ',' {
        match parse_column_list(s, p + 1) {
            Err(e) => Err(e),
            Ok((mut rest, m)) => {
                rest.insert(0, first);
                proof {
                    let spec_rest = sp_column_list(s@, p + 1 as int)->Ok_0.0;
                    assert(cols_view(rest) =~= seq![first@] + spec_rest);
                }
                Ok((rest, m))
            },
        }
    } else {
        let mut one: Vec<ColumnDef> = Vec::new();
        one.push(first);
        proof {
            assert(cols_view(one) =~= seq![first@]);
        }
        Ok((one, j))
    }
}

/// Builds the `CreateTableQuery` for the whole statement: the `CREATE` and
/// `TABLE` keywords, the table name, the parenthesized column list, and an
/// optional trailing `;` before the end of the input.
pub(crate) fn build_query_structure(s: &str) -> (r: Result<CreateTableQuery, ParseError>)
    ensures
        query_res_view(r) == sp_query(s@),
{
    let n = s.unicode_len();
    let j0 = SQLParser::skip_ws(s, 0);
    let k0 = SQLParser::word_end(s, j0);
    if !(k0 > j0 && SQLParser::str_eq_ci(s.substring_char(j0, k0), "CREATE")) {
        return Err(expected_err("CREATE keyword", j0));
    }
    let j1 = SQLParser::skip_ws(s, k0);
    let k1 = SQLParser::word_end(s, j1);
    if !(k1 > j1 && SQLParser::str_eq_ci(s.substring_char(j1, k1), "TABLE")) {
        return Err(expected_err("TABLE keyword", j1));
    }
    let j2 = SQLParser::skip_ws(s, k1);
    let k2 = SQLParser::word_end(s, j2);
    if !(k2 > j2 && SQLParser::is_ident_start_char(s.get_char(j2))) {
        return Err(expected_err("a table name", j2));
    }
    let name = s.substring_char(j2, k2);
    let p0 = SQLParser::skip_ws(s, k2);
    if !(p0 < n && s.get_char(p0) == '(') {
        return Err(expected_err("( before the column list", p0));
    }
    let (columns, m) = match parse_column_list(s, p0 + 1) {
        Err(e) => {
            return Err(e);
        },
        Ok(v) => v,
    };
    let p1 = SQLParser::skip_ws(s, m);
    if !(p1 < n && s.get_char(p1) == ')') {
        return Err(expected_err(", or ) in the column list", p1));
    }
    let p2 = SQLParser::skip_ws(s, p1 + 1);
    let p3 = if p2 < n && s.get_char(p2) == ';' {
        SQLParser::skip_ws(s, p2 + 1)
    } else {
        p2
    };
    if p3 < n {
        return Err(expected_err("end of input", p3));
    }
    Ok(CreateTableQuery { table_name: name.to_owned(), columns })
}

/// Parses a SQL `CREATE TABLE` statement into its abstract syntax tree.
///
/// The result is exactly what [`spec_parse`] assigns to the input's
/// character sequence: the structured query on success, and on failure the
/// error naming the first point of divergence from the grammar.
pub fn parse_query(input: &str) -> (r: Result<CreateTableQuery, ParseError>)
    ensures
        query_res_view(r) == spec_parse(input@),
        r is Ok <==> spec_parse(input@) is Ok,
{
    let n = input.unicode_len();
    let j = SQLParser::skip_ws(input, 0);
    if j == n {
        Err(ParseError::NoQueryFound)
    } else {
        build_query_structure(input)
    }
}

} // verus!
