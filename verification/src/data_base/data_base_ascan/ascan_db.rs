//! The production lines and what is made of their answers.
//!
//! Each line (KPC line 1, KPC line 2, bay 6) is read on its own: when one
//! cannot be reached, the others still give their data, and the line that
//! failed is answered with the text of its error.
use vstd::prelude::*;
use vstd::string::*;
use crate::structures::ascan_struct::{DataAscan, LineResult, WheelLineData, WheelPlace};
use crate::utils::ordered::{
    compare_texts, lemma_text_less_irreflexive, strictly_ordered, text_less, texts_of, TextOrder, TextSet,
};
use crate::utils::text::{
    law_trim_idempotent, law_parse_undoes_decimal_text, is_white_space, trim_start_spec, trim_end_spec, chars_of, decimal_text, opt_text, parse_u64, parse_u64_spec, text_of, trim_text, trimmed, u64_text,
};

verus! {

/// A production line.
#[derive(Debug, Clone, Copy, PartialEq, Eq, Structural)]
pub enum Line {
    One,
    Two,
    Pr6,
}

/// The key of a line in answers.
pub open spec fn line_key(line: Line) -> Seq<char> {
    match line {
        Line::One => "line_one"@,
        Line::Two => "line_two"@,
        Line::Pr6 => "pr_6"@,
    }
}

/// The name of a line shown to users.
pub open spec fn line_title(line: Line) -> Seq<char> {
    match line {
        Line::One => "КПЦ, линия №1"@,
        Line::Two => "КПЦ, линия №2"@,
        Line::Pr6 => "Пролёт №6"@,
    }
}

/// The environment variable that names the line's table.
pub open spec fn line_table_var(line: Line) -> Seq<char> {
    match line {
        Line::One => "NAME_TABLE_ONE_LINE"@,
        Line::Two => "NAME_TABLE_TWO_LINE"@,
        Line::Pr6 => "NAME_TABLE_6PR"@,
    }
}

/// The environment variable that names the line's image folder.
pub open spec fn line_img_dir_var(line: Line) -> Seq<char> {
    match line {
        Line::One => "ASCAN_ONE_LINE_DIR"@,
        Line::Two => "ASCAN_TWO_LINE_DIR"@,
        Line::Pr6 => "ASCAN_6PR_DIR"@,
    }
}

/// The column that holds the batch number.
pub open spec fn line_batch_col(line: Line) -> Seq<char> {
    match line {
        Line::Pr6 => "Batch_number"@,
        _ => "DocNumber"@,
    }
}

/// The column that holds the heat number.
pub open spec fn line_malting_col(line: Line) -> Seq<char> {
    match line {
        Line::Pr6 => "Treatment_number"@,
        _ => "BatchNumber"@,
    }
}

impl Line {
    /// The key of the line in answers.
    pub fn key(self) -> (r: &'static str)
        ensures
            r@ == line_key(self),
    {
        match self {
            Line::One => "line_one",
            Line::Two => "line_two",
            Line::Pr6 => "pr_6",
        }
    }

    /// The name of the line in messages to users.
    pub fn title(self) -> (r: &'static str)
        ensures
            r@ == line_title(self),
    {
        match self {
            Line::One => "КПЦ, линия №1",
            Line::Two => "КПЦ, линия №2",
            Line::Pr6 => "Пролёт №6",
        }
    }

    /// The environment variable that names the line's table.
    pub fn table_var(self) -> (r: &'static str)
        ensures
            r@ == line_table_var(self),
    {
        match self {
            Line::One => "NAME_TABLE_ONE_LINE",
            Line::Two => "NAME_TABLE_TWO_LINE",
            Line::Pr6 => "NAME_TABLE_6PR",
        }
    }

    /// The environment variable that names the line's image folder.
    pub fn img_dir_var(self) -> (r: &'static str)
        ensures
            r@ == line_img_dir_var(self),
    {
        match self {
            Line::One => "ASCAN_ONE_LINE_DIR",
            Line::Two => "ASCAN_TWO_LINE_DIR",
            Line::Pr6 => "ASCAN_6PR_DIR",
        }
    }

    /// The column with the batch number.
    pub fn batch_col(self) -> (r: &'static str)
        ensures
            r@ == line_batch_col(self),
    {
        match self {
            Line::Pr6 => "Batch_number",
            _ => "DocNumber",
        }
    }

    /// The column with the heat number.
    pub fn malting_col(self) -> (r: &'static str)
        ensures
            r@ == line_malting_col(self),
    {
        match self {
            Line::Pr6 => "Treatment_number",
            _ => "BatchNumber",
        }
    }
}

/// Distinct lines have distinct keys, so the keys can name the lines in a
/// map.
pub proof fn law_line_keys_distinct(a: Line, b: Line)
    ensures
        a != b ==> line_key(a) != line_key(b),
{
    reveal_strlit("line_one");
    reveal_strlit("line_two");
    reveal_strlit("pr_6");
    if a != b && line_key(a) == line_key(b) {
        assert(line_key(a).len() == line_key(b).len());
        assert(line_key(a)[5] == line_key(b)[5]);
    }
}

// ---------------------------------------------------------------------------
// Messages
// ---------------------------------------------------------------------------

/// The message for a line that could not be reached.
pub open spec fn no_connection_text(line: Line, err: Seq<char>) -> Seq<char> {
    line_title(line) + ": нет связи ("@ + err + ")"@
}

/// The message for a line whose rows were read but whose images were not.
pub open spec fn images_unavailable_text(line: Line, err: Seq<char>) -> Seq<char> {
    line_title(line) + ": картинки недоступны ("@ + err + ")"@
}

/// The message for an environment variable that is not set.
pub open spec fn missing_variable_text(name: Seq<char>) -> Seq<char> {
    "не задана переменная "@ + name
}

/// The message for an operation that did not finish in `secs` seconds.
pub open spec fn timeout_text(secs: u64) -> Seq<char> {
    "нет ответа за "@ + decimal_text(secs as nat) + " с"@
}

/// `line` could not be reached; `err` describes why.
pub fn no_connection(line: Line, err: &str) -> (r: String)
    ensures
        r@ == no_connection_text(line, err@),
{
    let mut r = String::from_str(line.title());
    r.append(": нет связи (");
    r.append(err);
    r.append(")");
    r
}

/// The images of `line` could not be looked up; `err` describes why.
pub fn images_unavailable(line: Line, err: &str) -> (r: String)
    ensures
        r@ == images_unavailable_text(line, err@),
{
    let mut r = String::from_str(line.title());
    r.append(": картинки недоступны (");
    r.append(err);
    r.append(")");
    r
}

/// The environment variable `name` is not set.
pub fn missing_variable(name: &str) -> (r: String)
    ensures
        r@ == missing_variable_text(name@),
{
    let mut r = String::from_str("не задана переменная ");
    r.append(name);
    r
}

/// Nothing came back within `secs` seconds.
pub fn timeout_message(secs: u64) -> (r: String)
    ensures
        r@ == timeout_text(secs),
{
    let mut r = String::from_str("нет ответа за ");
    let digits = u64_text(secs);
    r.append(digits.as_str());
    r.append(" с");
    r
}


// ---------------------------------------------------------------------------
// Time limits
// ---------------------------------------------------------------------------

/// The number of seconds that a setting gives: the raw value, without
/// surrounding white space, read as a `u64`; `default` when the setting is
/// absent or is no such number.
pub open spec fn secs_setting(raw: Option<Seq<char>>, default: u64) -> u64 {
    match raw {
        Some(v) => match parse_u64_spec(trimmed(v)) {
            Some(n) => n,
            None => default,
        },
        None => default,
    }
}

/// The seconds that the setting `raw` (the value of an environment
/// variable, if set) gives, or `default`.
pub fn secs_or_default(raw: Option<&str>, default: u64) -> (r: u64)
    ensures
        r == secs_setting(
            match raw {
                Some(v) => Some(v@),
                None => None,
            },
            default,
        ),
{
    match raw {
        Some(v) => {
            let t = trim_text(v);
            match parse_u64(t.as_str()) {
                Some(n) => n,
                None => default,
            }
        },
        None => default,
    }
}

/// How long to wait for the database of one line (connection and query),
/// in seconds: the setting `DB_TIMEOUT_SECS` (`raw`), 10 by default.
pub fn db_timeout(raw: Option<&str>) -> (r: u64)
    ensures
        r == secs_setting(
            match raw {
                Some(v) => Some(v@),
                None => None,
            },
            10,
        ),
{
    secs_or_default(raw, 10)
}

/// How long to wait for the image search in a line's folder, in seconds:
/// the setting `IMG_TIMEOUT_SECS` (`raw`), 10 by default.
pub fn img_timeout(raw: Option<&str>) -> (r: u64)
    ensures
        r == secs_setting(
            match raw {
                Some(v) => Some(v@),
                None => None,
            },
            10,
        ),
{
    secs_or_default(raw, 10)
}

// ---------------------------------------------------------------------------
// Queries
// ---------------------------------------------------------------------------

/// The query for the distinct values of a column.
pub open spec fn distinct_query_text(col: Seq<char>, table: Seq<char>) -> Seq<char> {
    "select distinct "@ + col + " from "@ + table
}

/// The columns selected for the wheels of a line, in order.
pub open spec fn wheel_columns(line: Line) -> Seq<char> {
    match line {
        Line::Pr6 => "Barcode, Treatment_number, Path, Batch_number"@,
        _ => "WheelHotNumber, BatchNumber, TaskNumber, DATACODE, DATE_AND_TIME, DocNumber"@,
    }
}

/// The column that a search by heat (`by_malting`) or by batch looks in.
pub open spec fn search_col(line: Line, by_malting: bool) -> Seq<char> {
    if by_malting {
        line_malting_col(line)
    } else {
        line_batch_col(line)
    }
}

/// The query for the wheels of a line whose search column is like the
/// pattern bound to `@P1`.
pub open spec fn wheel_query_text(line: Line, by_malting: bool, table: Seq<char>) -> Seq<char> {
    "select "@ + wheel_columns(line) + " from "@ + table + " where "@ + search_col(line, by_malting)
        + " like @P1"@
}

/// The `like` pattern that finds `value` anywhere in a column.
pub open spec fn like_pattern_text(value: Seq<char>) -> Seq<char> {
    "%"@ + value + "%"@
}

/// The query for the distinct values of `col` in `table`.
pub fn distinct_query(col: &str, table: &str) -> (r: String)
    ensures
        r@ == distinct_query_text(col@, table@),
{
    let mut r = String::from_str("select distinct ");
    r.append(col);
    r.append(" from ");
    r.append(table);
    r
}

/// The query for the wheels of `line` in `table`, searched by heat when
/// `by_malting`, else by batch.
pub fn wheel_query(line: Line, by_malting: bool, table: &str) -> (r: String)
    ensures
        r@ == wheel_query_text(line, by_malting, table@),
{
    let columns = match line {
        Line::Pr6 => "Barcode, Treatment_number, Path, Batch_number",
        _ => "WheelHotNumber, BatchNumber, TaskNumber, DATACODE, DATE_AND_TIME, DocNumber",
    };
    let col = if by_malting {
        line.malting_col()
    } else {
        line.batch_col()
    };
    let mut r = String::from_str("select ");
    r.append(columns);
    r.append(" from ");
    r.append(table);
    r.append(" where ");
    r.append(col);
    r.append(" like @P1");
    r
}

/// The pattern that finds `value` anywhere in a column.
pub fn like_pattern(value: &str) -> (r: String)
    ensures
        r@ == like_pattern_text(value@),
{
    let mut r = String::from_str("%");
    r.append(value);
    r.append("%");
    r
}

/// How many columns [`wheel_query`] selects for `line`.
pub open spec fn wheel_width(line: Line) -> nat {
    match line {
        Line::Pr6 => 4,
        _ => 6,
    }
}

/// How many columns [`wheel_query`] selects for `line`.
pub fn wheel_column_count(line: Line) -> (r: usize)
    ensures
        r == wheel_width(line),
{
    match line {
        Line::Pr6 => 4,
        _ => 6,
    }
}


/// A setting that parses (after trimming) as a number gives that number,
/// whatever the number; an absent or unreadable setting gives the default.
pub proof fn law_setting_gives_its_number(raw: Option<Seq<char>>, default: u64)
    ensures
        raw is Some && parse_u64_spec(trimmed(raw->0)) is Some ==> secs_setting(raw, default)
            == parse_u64_spec(trimmed(raw->0))->0,
        raw is None ==> secs_setting(raw, default) == default,
        raw is Some && parse_u64_spec(trimmed(raw->0)) is None ==> secs_setting(raw, default)
            == default,
{
}

/// A setting written as the decimal number `n`, with or without white
/// space around it, gives `n` seconds.
pub proof fn law_setting_reads_written_number(n: u64, default: u64)
    ensures
        secs_setting(Some(decimal_text(n as nat)), default) == n,
        secs_setting(Some(seq![' '] + decimal_text(n as nat) + seq!['\n']), default) == n,
{
    let d = decimal_text(n as nat);
    law_parse_undoes_decimal_text(n);
    lemma_decimal_text_trimmed(n as nat);
    let padded = seq![' '] + d + seq!['\n'];
    assert(is_white_space(' '));
    assert(is_white_space('\n'));
    assert(padded.drop_first() =~= d + seq!['\n']);
    lemma_trimmed_of_padded(d);
}

/// A number's decimal notation has no white space at either end.
proof fn lemma_decimal_text_trimmed(n: nat)
    ensures
        trimmed(decimal_text(n)) == decimal_text(n),
        decimal_text(n).len() > 0,
        !is_white_space(decimal_text(n)[0]),
        !is_white_space(decimal_text(n).last()),
{
    lemma_decimal_text_digit_ends(n);
    let d = decimal_text(n);
    assert(trim_start_spec(d) == d);
    assert(trim_end_spec(d) == d);
}

proof fn lemma_decimal_text_digit_ends(n: nat)
    ensures
        decimal_text(n).len() > 0,
        0x30 <= (decimal_text(n)[0] as u32) <= 0x39,
        0x30 <= (decimal_text(n).last() as u32) <= 0x39,
    decreases n,
{
    let k = (n % 10) as int;
    assert(((k + 0x30) as char) as u32 == k + 0x30);
    if n >= 10 {
        lemma_decimal_text_digit_ends(n / 10);
        assert(decimal_text(n)[0] == decimal_text(n / 10)[0]);
    }
}

/// Trimming one white space character off each end of a text that has no
/// white space at its ends gives the text.
proof fn lemma_trimmed_of_padded(d: Seq<char>)
    requires
        d.len() > 0,
        !is_white_space(d[0]),
        !is_white_space(d.last()),
    ensures
        trimmed(seq![' '] + d + seq!['\n']) == d,
{
    let p = seq![' '] + d + seq!['\n'];
    let q = d + seq!['\n'];
    assert(is_white_space(' '));
    assert(is_white_space('\n'));
    assert(p[0] == ' ');
    assert(p.drop_first() =~= q);
    assert(q[0] == d[0]);
    assert(trim_start_spec(q) == q);
    assert(trim_start_spec(p) == q);
    assert(q.last() == '\n');
    assert(q.drop_last() =~= d);
    assert(trim_end_spec(d) == d);
    assert(trim_end_spec(q) == d);
}

/// A search by batch number looks in the line's batch column and a search
/// by heat number in its heat column: `DocNumber` and `BatchNumber` on the
/// KPC lines, `Batch_number` and `Treatment_number` on bay 6. The two
/// searches of a line never give the same query.
pub proof fn law_wheel_query_searches_chosen_column(line: Line, by_malting: bool, table: Seq<char>)
    ensures
        wheel_query_text(line, by_malting, table) == "select "@ + wheel_columns(line) + " from "@
            + table + " where "@ + (match (line, by_malting) {
            (Line::Pr6, true) => "Treatment_number"@,
            (Line::Pr6, false) => "Batch_number"@,
            (_, true) => "BatchNumber"@,
            (_, false) => "DocNumber"@,
        }) + " like @P1"@,
        wheel_query_text(line, true, table) != wheel_query_text(line, false, table),
{
    reveal_strlit("Treatment_number");
    reveal_strlit("Batch_number");
    reveal_strlit("BatchNumber");
    reveal_strlit("DocNumber");
    assert(wheel_query_text(line, true, table).len() != wheel_query_text(line, false, table).len());
}

// ---------------------------------------------------------------------------
// File names
// ---------------------------------------------------------------------------

/// The length of `p` up to and including its last `/`; 0 when it has none.
pub open spec fn last_slash_end(p: Seq<char>) -> int
    decreases p.len(),
{
    if p.len() == 0 {
        0
    } else if p.last() == '/' {
        p.len() as int
    } else {
        last_slash_end(p.drop_last())
    }
}

/// Where the last `/` of `p` stands.
pub proof fn lemma_last_slash_end_bounds(p: Seq<char>)
    ensures
        0 <= last_slash_end(p) <= p.len(),
        p.len() > 0 && p.last() != '/' ==> last_slash_end(p) < p.len(),
        forall|i: int| last_slash_end(p) <= i < p.len() ==> p[i] != '/',
    decreases p.len(),
{
    if p.len() > 0 && p.last() != '/' {
        lemma_last_slash_end_bounds(p.drop_last());
        assert forall|i: int| last_slash_end(p) <= i < p.len() implies p[i] != '/' by {
            if i < p.len() - 1 {
                assert(p[i] == p.drop_last()[i]);
            }
        }
    }
}

/// The last component of the Unix path `p`, as `Path::file_name` gives
/// it: trailing `/` and `.` components are passed over; there is none when
/// the path is empty, is the root, or ends in `..` or in a leading `.`.
pub open spec fn file_name_spec(p: Seq<char>) -> Option<Seq<char>>
    decreases p.len(),
{
    if p.len() == 0 {
        None
    } else if p.last() == '/' {
        file_name_spec(p.drop_last())
    } else {
        let k = last_slash_end(p);
        let seg = p.subrange(k, p.len() as int);
        if seg == seq!['.'] {
            if k == 0 {
                None
            } else {
                proof {
                    lemma_last_slash_end_bounds(p);
                }
                file_name_spec(p.subrange(0, k - 1))
            }
        } else if seg == seq!['.', '.'] {
            None
        } else {
            Some(seg)
        }
    }
}

/// A file name found at the end of a path is one whole component: not
/// empty, without `/`, and neither `.` nor `..`.
pub proof fn law_file_name_is_component(p: Seq<char>)
    ensures
        file_name_spec(p) matches Some(n) ==> {
            &&& n.len() > 0
            &&& forall|i: int| 0 <= i < n.len() ==> n[i] != '/'
            &&& n != seq!['.']
            &&& n != seq!['.', '.']
        },
    decreases p.len(),
{
    if p.len() == 0 {
    } else if p.last() == '/' {
        law_file_name_is_component(p.drop_last());
    } else {
        lemma_last_slash_end_bounds(p);
        let k = last_slash_end(p);
        let seg = p.subrange(k, p.len() as int);
        if seg == seq!['.'] {
            if k > 0 {
                law_file_name_is_component(p.subrange(0, k - 1));
            }
        } else if seg != seq!['.', '.'] {
            assert forall|i: int| 0 <= i < seg.len() implies seg[i] != '/' by {
                assert(seg[i] == p[k + i]);
            }
        }
    }
}

/// The file name at the end of `path` (see [`file_name_spec`]).
pub fn file_name_of(path: &str) -> (r: Option<String>)
    ensures
        opt_text(r) == file_name_spec(path@),
{
    let c = chars_of(path);
    let mut j: usize = c.len();
    assert(c@.subrange(0, j as int) =~= c@);
    loop
        invariant
            j <= c.len(),
            c@ == path@,
            file_name_spec(c@) == file_name_spec(c@.subrange(0, j as int)),
        decreases j,
    {
        let ghost p = c@.subrange(0, j as int);
        if j == 0 {
            return None;
        }
        if c[j - 1] == '/' {
            assert(p.drop_last() =~= c@.subrange(0, j - 1));
            j = j - 1;
            continue;
        }
        let mut k: usize = j;
        while k > 0 && c[k - 1] != '/'
            invariant
                k <= j <= c.len(),
                p == c@.subrange(0, j as int),
                last_slash_end(p) == last_slash_end(c@.subrange(0, k as int)),
            decreases k,
        {
            assert(c@.subrange(0, k as int).drop_last() =~= c@.subrange(0, k - 1));
            k = k - 1;
        }
        proof {
            if k > 0 {
                assert(c@.subrange(0, k as int).last() == '/');
            }
            assert(last_slash_end(p) == k);
            assert(p.subrange(k as int, j as int) =~= c@.subrange(k as int, j as int));
        }
        if j - k == 1 && c[k] == '.' {
            assert(p.subrange(k as int, j as int) =~= seq!['.']);
            if k == 0 {
                return None;
            }
            assert(p.subrange(0, k - 1) =~= c@.subrange(0, k - 1));
            j = k - 1;
            continue;
        }
        if j - k == 2 && c[k] == '.' && c[k + 1] == '.' {
            assert(p.subrange(k as int, j as int) =~= seq!['.', '.']);
            return None;
        }
        proof {
            let seg = p.subrange(k as int, j as int);
            assert(p.len() > 0 && p.last() == c@[j - 1]);
            if j - k >= 1 {
                assert(seg[0] == c@[k as int]);
            }
            if j - k >= 2 {
                assert(seg[1] == c@[k + 1]);
            }
            assert(seg != seq!['.']) by {
                if seg == seq!['.'] {
                    assert(seg.len() == 1);
                    assert(seg[0] == '.');
                }
            }
            assert(seg != seq!['.', '.']) by {
                if seg == seq!['.', '.'] {
                    assert(seg.len() == 2);
                    assert(seg[0] == '.' && seg[1] == '.');
                }
            }
        }
        return Some(text_of(&c, k, j));
    }
}


// ---------------------------------------------------------------------------
// Batch and heat lists
// ---------------------------------------------------------------------------

/// A value fit to be offered for selection: not empty, and without
/// surrounding white space.
pub open spec fn clean_text(t: Seq<char>) -> bool {
    t.len() > 0 && trimmed(t) == t
}

/// Every string of `v` is fit to be offered.
pub open spec fn all_clean(v: Seq<String>) -> bool {
    forall|i: int| 0 <= i < v.len() ==> clean_text(#[trigger] v[i]@)
}

/// The values of `cells`, trimmed, without the missing and the blank ones,
/// in order.
pub open spec fn present_texts(cells: Seq<Option<String>>) -> Seq<Seq<char>>
    decreases cells.len(),
{
    if cells.len() == 0 {
        seq![]
    } else {
        let rest = present_texts(cells.drop_last());
        match cells.last() {
            Some(v) => if trimmed(v@).len() > 0 {
                rest.push(trimmed(v@))
            } else {
                rest
            },
            None => rest,
        }
    }
}

/// The values of a column read from a line, trimmed, without the missing
/// and the blank ones: each value is fit to be offered.
pub fn non_empty_values(cells: Vec<Option<String>>) -> (r: Vec<String>)
    ensures
        texts_of(r@) == present_texts(cells@),
        texts_of(r@) == cells@.filter(
            |c: Option<String>| c matches Some(v) && trimmed(v@).len() > 0,
        ).map_values(|c: Option<String>| trimmed(c->0@)),
        all_clean(r@),
{
    proof {
        law_offered_values_are_nonblank_cells(cells@);
    }
    let mut r: Vec<String> = Vec::new();
    let mut i: usize = 0;
    while i < cells.len()
        invariant
            i <= cells.len(),
            texts_of(r@) == present_texts(cells@.take(i as int)),
            all_clean(r@),
        decreases cells.len() - i,
    {
        let ghost before = r@;
        match &cells[i] {
            Some(v) => {
                let t = trim_text(v.as_str());
                if !t.as_str().is_empty() {
                    proof {
                        law_trim_idempotent(v@);
                    }
                    r.push(t);
                }
            },
            None => {},
        }
        proof {
            assert(cells@.take(i + 1).drop_last() =~= cells@.take(i as int));
            assert(cells@.take(i + 1).last() == cells@[i as int]);
            if r@.len() > before.len() {
                assert(r@.drop_last() =~= before);
                assert(texts_of(r@) =~= texts_of(before).push(r@.last()@));
                assert forall|k: int| 0 <= k < r@.len() implies clean_text(#[trigger] r@[k]@) by {
                    if k < before.len() {
                        assert(r@[k] == before[k]);
                    }
                }
            } else {
                assert(r@ =~= before);
            }
        }
        i = i + 1;
    }
    assert(cells@.take(cells.len() as int) =~= cells@);
    r
}

/// The values offered from a column are exactly the cells that hold
/// something besides white space, each trimmed, in the order of the cells:
/// whatever characters a value holds, it is kept.
pub proof fn law_offered_values_are_nonblank_cells(cells: Seq<Option<String>>)
    ensures
        present_texts(cells) == cells.filter(
            |c: Option<String>| c matches Some(v) && trimmed(v@).len() > 0,
        ).map_values(|c: Option<String>| trimmed(c->0@)),
    decreases cells.len(),
{
    reveal(Seq::filter);
    let pred = |c: Option<String>| c matches Some(v) && trimmed(v@).len() > 0;
    let f = |c: Option<String>| trimmed(c->0@);
    if cells.len() > 0 {
        let rest = cells.drop_last();
        law_offered_values_are_nonblank_cells(rest);
        if pred(cells.last()) {
            assert(cells.filter(pred) == rest.filter(pred).push(cells.last()));
            assert(cells.filter(pred).map_values(f) =~= rest.filter(pred).map_values(f).push(
                f(cells.last()),
            ));
        } else {
            assert(cells.filter(pred) == rest.filter(pred));
        }
    } else {
        assert(cells.filter(pred).map_values(f) =~= Seq::<Seq<char>>::empty());
    }
}

/// The batch numbers and heat numbers read from one line.
pub struct LineLists {
    pub batches: Vec<String>,
    pub maltings: Vec<String>,
}

/// The lists of a line's outcome hold only values fit to be offered (as
/// [`non_empty_values`] gives them); a failed line has none.
pub open spec fn lists_clean(res: Result<LineLists, String>) -> bool {
    match res {
        Ok(l) => all_clean(l.batches@) && all_clean(l.maltings@),
        Err(_) => true,
    }
}

/// Every string of `v` whose text lies in `s` is fit to be offered when
/// every text of `s` is.
proof fn lemma_all_clean_from_set(v: Seq<String>, s: Set<Seq<char>>)
    requires
        texts_of(v).to_set() == s,
        forall|t: Seq<char>| #[trigger] s.contains(t) ==> clean_text(t),
    ensures
        all_clean(v),
{
    assert forall|i: int| 0 <= i < v.len() implies clean_text(#[trigger] v[i]@) by {
        assert(texts_of(v)[i] == v[i]@);
        assert(texts_of(v).to_set().contains(v[i]@));
    }
}

/// The texts of clean strings are clean.
proof fn lemma_clean_texts(v: Seq<String>)
    requires
        all_clean(v),
    ensures
        forall|t: Seq<char>| #[trigger] texts_of(v).to_set().contains(t) ==> clean_text(t),
{
    assert forall|t: Seq<char>| #[trigger] texts_of(v).to_set().contains(t) implies clean_text(t) by {
        let i = choose|i: int| 0 <= i < texts_of(v).len() && texts_of(v)[i] == t;
        assert(clean_text(v[i]@));
    }
}

/// The batch numbers (`batches`) or heat numbers that a line's outcome
/// offers: none when the line failed.
pub open spec fn listed(res: Result<LineLists, String>, batches: bool) -> Set<Seq<char>> {
    match res {
        Ok(l) => if batches {
            texts_of(l.batches@).to_set()
        } else {
            texts_of(l.maltings@).to_set()
        },
        Err(_) => Set::empty(),
    }
}

/// The error entry of a line's outcome: `(key, message)` when it failed.
pub open spec fn failure_entries(line: Line, res: Result<LineLists, String>) -> Seq<
    (Seq<char>, Seq<char>),
> {
    match res {
        Ok(_) => seq![],
        Err(e) => seq![(line_key(line), no_connection_text(line, e@))],
    }
}

/// The error entries of the three lines, in the order of their keys.
pub open spec fn error_entries(
    one: Result<LineLists, String>,
    two: Result<LineLists, String>,
    pr6: Result<LineLists, String>,
) -> Seq<(Seq<char>, Seq<char>)> {
    failure_entries(Line::One, one) + failure_entries(Line::Two, two) + failure_entries(
        Line::Pr6,
        pr6,
    )
}

/// The texts of a list of `(key, message)` pairs.
pub open spec fn entry_texts(v: Seq<(String, String)>) -> Seq<(Seq<char>, Seq<char>)> {
    v.map_values(|e: (String, String)| (e.0@, e.1@))
}

/// Adds the lists of a line that answered to the two sets, or records
/// the failure of a line that did not.
fn gather_line(
    line: Line,
    res: &Result<LineLists, String>,
    batches: &mut TextSet,
    maltings: &mut TextSet,
    errors: &mut Vec<(String, String)>,
)
    requires
        old(batches).wf(),
        old(maltings).wf(),
    ensures
        final(batches).wf(),
        final(maltings).wf(),
        final(batches)@.to_set() == old(batches)@.to_set() + listed(*res, true),
        final(maltings)@.to_set() == old(maltings)@.to_set() + listed(*res, false),
        entry_texts(final(errors)@) == entry_texts(old(errors)@) + failure_entries(line, *res),
{
    match res {
        Ok(l) => {
            batches.extend(&l.batches);
            maltings.extend(&l.maltings);
            assert(entry_texts(errors@) =~= entry_texts(errors@) + failure_entries(line, *res));
        },
        Err(e) => {
            let ghost before = errors@;
            errors.push((String::from_str(line.key()), no_connection(line, e.as_str())));
            assert(batches@.to_set() + Set::empty() =~= batches@.to_set());
            assert(maltings@.to_set() + Set::empty() =~= maltings@.to_set());
            assert(entry_texts(errors@) =~= entry_texts(before) + failure_entries(line, *res));
        },
    }
}

/// The lists offered for selection, made from what each line gave.
///
/// The KPC lists hold the values of lines 1 and 2, the bay 6 lists those of
/// bay 6; each in ascending order without repeats (as a `BTreeSet` yields
/// them). A line that failed adds nothing to the lists and one entry,
/// under its key, to `errors`.
pub fn collect_source_lists(
    one: Result<LineLists, String>,
    two: Result<LineLists, String>,
    pr6: Result<LineLists, String>,
) -> (r: DataAscan)
    ensures
        strictly_ordered(texts_of(r.batch_number_kpc@)),
        texts_of(r.batch_number_kpc@).to_set() == listed(one, true) + listed(two, true),
        strictly_ordered(texts_of(r.malting_for_kpc@)),
        texts_of(r.malting_for_kpc@).to_set() == listed(one, false) + listed(two, false),
        strictly_ordered(texts_of(r.batch_number_6pr@)),
        texts_of(r.batch_number_6pr@).to_set() == listed(pr6, true),
        strictly_ordered(texts_of(r.malting_for_6pr@)),
        texts_of(r.malting_for_6pr@).to_set() == listed(pr6, false),
        entry_texts(r.errors@) == error_entries(one, two, pr6),
        lists_clean(one) && lists_clean(two) ==> all_clean(r.batch_number_kpc@) && all_clean(
            r.malting_for_kpc@,
        ),
        lists_clean(pr6) ==> all_clean(r.batch_number_6pr@) && all_clean(r.malting_for_6pr@),
{
    let mut errors: Vec<(String, String)> = Vec::new();
    let mut kpc_batches = TextSet::new();
    let mut kpc_maltings = TextSet::new();
    gather_line(Line::One, &one, &mut kpc_batches, &mut kpc_maltings, &mut errors);
    gather_line(Line::Two, &two, &mut kpc_batches, &mut kpc_maltings, &mut errors);
    let mut pr6_batches = TextSet::new();
    let mut pr6_maltings = TextSet::new();
    gather_line(Line::Pr6, &pr6, &mut pr6_batches, &mut pr6_maltings, &mut errors);
    proof {
        assert(Seq::<Seq<char>>::empty().to_set() =~= Set::<Seq<char>>::empty());
        assert(entry_texts(Seq::<(String, String)>::empty()) =~= Seq::empty());
        assert(Set::<Seq<char>>::empty() + listed(one, true) + listed(two, true) =~= listed(one, true)
            + listed(two, true));
        assert(Set::<Seq<char>>::empty() + listed(one, false) + listed(two, false) =~= listed(
            one,
            false,
        ) + listed(two, false));
        assert(Set::<Seq<char>>::empty() + listed(pr6, true) =~= listed(pr6, true));
        assert(Set::<Seq<char>>::empty() + listed(pr6, false) =~= listed(pr6, false));
        assert(Seq::<(Seq<char>, Seq<char>)>::empty() + failure_entries(Line::One, one)
            + failure_entries(Line::Two, two) + failure_entries(Line::Pr6, pr6) =~= error_entries(
            one,
            two,
            pr6,
        ));
    }
    let r = DataAscan {
        batch_number_kpc: kpc_batches.into_strings(),
        batch_number_6pr: pr6_batches.into_strings(),
        malting_for_kpc: kpc_maltings.into_strings(),
        malting_for_6pr: pr6_maltings.into_strings(),
        errors,
    };
    proof {
        lemma_lists_clean_carry(one, true, two, r.batch_number_kpc@);
        lemma_lists_clean_carry(one, false, two, r.malting_for_kpc@);
        let none: Result<LineLists, String> = Err(arbitrary());
        assert(listed(pr6, true) + listed(none, true) =~= listed(pr6, true));
        assert(listed(pr6, false) + listed(none, false) =~= listed(pr6, false));
        lemma_lists_clean_carry(pr6, true, none, r.batch_number_6pr@);
        lemma_lists_clean_carry(pr6, false, none, r.malting_for_6pr@);
    }
    r
}

/// A list made of the values of two outcomes holds only values fit to be
/// offered when both outcomes do.
proof fn lemma_lists_clean_carry(
    a: Result<LineLists, String>,
    batches: bool,
    b: Result<LineLists, String>,
    v: Seq<String>,
)
    requires
        texts_of(v).to_set() == listed(a, batches) + listed(b, batches),
    ensures
        lists_clean(a) && lists_clean(b) ==> all_clean(v),
{
    if lists_clean(a) && lists_clean(b) {
        match a {
            Ok(l) => {
                lemma_clean_texts(l.batches@);
                lemma_clean_texts(l.maltings@);
            },
            Err(_) => {},
        }
        match b {
            Ok(l) => {
                lemma_clean_texts(l.batches@);
                lemma_clean_texts(l.maltings@);
            },
            Err(_) => {},
        }
        lemma_all_clean_from_set(v, listed(a, batches) + listed(b, batches));
    }
}


/// A line that answered has all its values in the KPC lists, whatever
/// happened to the other KPC line; a line that failed adds nothing.
pub proof fn law_answering_line_is_listed(
    one: Result<LineLists, String>,
    two: Result<LineLists, String>,
    batches: bool,
)
    ensures
        listed(one, batches).subset_of(listed(one, batches) + listed(two, batches)),
        listed(two, batches).subset_of(listed(one, batches) + listed(two, batches)),
        one is Err ==> listed(one, batches) + listed(two, batches) == listed(two, batches),
        two is Err ==> listed(one, batches) + listed(two, batches) == listed(one, batches),
{
    assert(Set::<Seq<char>>::empty() + listed(two, batches) =~= listed(two, batches));
    assert(listed(one, batches) + Set::<Seq<char>>::empty() =~= listed(one, batches));
}

/// The error entries are keyed in ascending key order, each key at most
/// once, and a line's key is among them exactly when that line failed:
/// they form the map of unavailable lines.
pub proof fn law_error_entries_form_key_map(
    one: Result<LineLists, String>,
    two: Result<LineLists, String>,
    pr6: Result<LineLists, String>,
)
    ensures
        ({
            let e = error_entries(one, two, pr6);
            &&& forall|i: int, j: int|
                0 <= i < j < e.len() ==> text_less(#[trigger] e[i].0, #[trigger] e[j].0)
            &&& (exists|i: int| 0 <= i < e.len() && #[trigger] e[i].0 == line_key(Line::One)) <==> one is Err
            &&& (exists|i: int| 0 <= i < e.len() && #[trigger] e[i].0 == line_key(Line::Two)) <==> two is Err
            &&& (exists|i: int| 0 <= i < e.len() && #[trigger] e[i].0 == line_key(Line::Pr6)) <==> pr6 is Err
        }),
{
    let e = error_entries(one, two, pr6);
    let k1 = line_key(Line::One);
    let k2 = line_key(Line::Two);
    let k3 = line_key(Line::Pr6);
    reveal_strlit("line_one");
    reveal_strlit("line_two");
    reveal_strlit("pr_6");
    assert(text_less(k1, k2)) by {
        reveal_with_fuel(text_less, 7);
    }
    assert(text_less(k1, k3));
    assert(text_less(k2, k3));
    law_line_keys_distinct(Line::One, Line::Two);
    law_line_keys_distinct(Line::One, Line::Pr6);
    law_line_keys_distinct(Line::Two, Line::Pr6);
    let f1 = failure_entries(Line::One, one);
    let f2 = failure_entries(Line::Two, two);
    let f3 = failure_entries(Line::Pr6, pr6);
    assert forall|i: int| 0 <= i < e.len() implies #[trigger] e[i].0 == k1 || e[i].0 == k2 || e[i].0 == k3 by {
        if i < f1.len() {
        } else if i < f1.len() + f2.len() {
        } else {
        }
    }
    assert forall|i: int| 0 <= i < e.len() implies (#[trigger] e[i].0 == k1 <==> (i == 0 && one is Err))
        && (e[i].0 == k2 <==> (i == f1.len() && two is Err))
        && (e[i].0 == k3 <==> (i == f1.len() + f2.len() && pr6 is Err)) by {
        if i < f1.len() {
        } else if i < f1.len() + f2.len() {
        } else {
        }
    }
    if one is Err {
        assert(e[0].0 == k1);
    }
    if two is Err {
        assert(e[f1.len() as int].0 == k2);
    }
    if pr6 is Err {
        assert(e[(f1.len() + f2.len()) as int].0 == k3);
    }
}

// ---------------------------------------------------------------------------
// Wheels
// ---------------------------------------------------------------------------

/// One row of a line's wheel table, before its image is looked up.
pub struct RawWheel {
    pub hot_number: Option<String>,
    pub malting: Option<String>,
    pub batch: Option<String>,
    pub task: Option<String>,
    pub date_time: Option<String>,
    pub file_name: Option<String>,
}

/// The file name at the end of a stored path.
pub open spec fn path_file_name(path: Option<String>) -> Option<Seq<char>> {
    match path {
        Some(p) => file_name_spec(p@),
        None => None,
    }
}

/// The file name of a stored image path that lacks its `.png` extension.
pub open spec fn png_file_name(path: Option<String>) -> Option<Seq<char>> {
    match path {
        Some(p) => file_name_spec(p@ + ".png"@),
        None => None,
    }
}

/// A copy of an optional string.
fn copy_opt(o: &Option<String>) -> (r: Option<String>)
    ensures
        r == *o,
{
    match o {
        Some(s) => Some(s.clone()),
        None => None,
    }
}

/// The file name at the end of a stored image path, with `.png` added first
/// where `add_png`.
fn stored_file_name(path: &Option<String>, add_png: bool) -> (r: Option<String>)
    ensures
        opt_text(r) == if add_png {
            png_file_name(*path)
        } else {
            path_file_name(*path)
        },
{
    match path {
        Some(p) => {
            if add_png {
                let mut full = p.clone();
                full.append(".png");
                file_name_of(full.as_str())
            } else {
                file_name_of(p.as_str())
            }
        },
        None => None,
    }
}

/// Builds a wheel from the cells of a row selected by [`wheel_query`].
///
/// KPC lines: hot number, heat, task, image path, date and time, batch.
/// Bay 6: barcode (hot number), heat, the image path without `.png` (which
/// stands as the date and time too), batch; no task.
pub fn raw_wheel_from_cells(line: Line, cells: &Vec<Option<String>>) -> (r: RawWheel)
    requires
        cells@.len() >= wheel_width(line),
    ensures
        match line {
            Line::Pr6 => {
                &&& r.hot_number == cells@[0]
                &&& r.malting == cells@[1]
                &&& r.task is None
                &&& opt_text(r.file_name) == png_file_name(cells@[2])
                &&& r.date_time == cells@[2]
                &&& r.batch == cells@[3]
            },
            _ => {
                &&& r.hot_number == cells@[0]
                &&& r.malting == cells@[1]
                &&& r.task == cells@[2]
                &&& opt_text(r.file_name) == path_file_name(cells@[3])
                &&& r.date_time == cells@[4]
                &&& r.batch == cells@[5]
            },
        },
{
    match line {
        Line::Pr6 => RawWheel {
            hot_number: copy_opt(&cells[0]),
            malting: copy_opt(&cells[1]),
            task: None,
            file_name: stored_file_name(&cells[2], true),
            date_time: copy_opt(&cells[2]),
            batch: copy_opt(&cells[3]),
        },
        _ => RawWheel {
            hot_number: copy_opt(&cells[0]),
            malting: copy_opt(&cells[1]),
            task: copy_opt(&cells[2]),
            file_name: stored_file_name(&cells[3], false),
            date_time: copy_opt(&cells[4]),
            batch: copy_opt(&cells[5]),
        },
    }
}

/// The image file names of the rows, in order.
pub fn file_names(rows: &Vec<RawWheel>) -> (r: Vec<Option<String>>)
    ensures
        r@.len() == rows@.len(),
        forall|i: int| 0 <= i < rows@.len() ==> #[trigger] r@[i] == rows@[i].file_name,
{
    let mut r: Vec<Option<String>> = Vec::new();
    let mut i: usize = 0;
    while i < rows.len()
        invariant
            i <= rows.len(),
            r@.len() == i,
            forall|k: int| 0 <= k < i ==> #[trigger] r@[k] == rows@[k].file_name,
        decreases rows.len() - i,
    {
        r.push(copy_opt(&rows[i].file_name));
        i = i + 1;
    }
    r
}

/// The outcome for a line that could not be read: no data, and the reason.
pub fn line_failure(line: Line, err: &str) -> (r: LineResult)
    ensures
        r.data is None,
        opt_text(r.error) == Some(no_connection_text(line, err@)),
{
    LineResult { data: None, error: Some(no_connection(line, err)) }
}

/// How many wheels a line's data holds: one per row that has its image
/// entry, every row when the images could not be looked up.
pub open spec fn wheel_total(rows: Seq<RawWheel>, images: Result<Vec<Option<String>>, String>) -> nat {
    match images {
        Ok(p) => if p@.len() < rows.len() {
            p@.len()
        } else {
            rows.len()
        },
        Err(_) => rows.len(),
    }
}

/// The image entry of the `i`-th wheel: none when the images could not be
/// looked up.
pub open spec fn image_entry(images: Result<Vec<Option<String>>, String>, i: int) -> Option<String> {
    match images {
        Ok(p) => p@[i],
        Err(_) => None,
    }
}

/// The columns of a line's data hold, at each index, the fields of the row
/// at that index and its image entry.
pub open spec fn data_matches_rows(
    d: WheelLineData,
    rows: Seq<RawWheel>,
    images: Result<Vec<Option<String>>, String>,
) -> bool {
    &&& d.has_wheels(wheel_total(rows, images))
    &&& forall|i: int|
        0 <= i < wheel_total(rows, images) ==> {
            &&& #[trigger] d.hot_number@[i] == rows[i].hot_number
            &&& d.malting_namber@[i] == rows[i].malting
            &&& d.batch_number@[i] == rows[i].batch
            &&& d.task_number@[i] == rows[i].task
            &&& d.date_time@[i] == rows[i].date_time
            &&& d.path_img@[i] == image_entry(images, i)
        }
}

/// The outcome for a line whose rows were read: the wheels, each with its
/// image path; when the images could not be looked up, no image paths and
/// the reason as the error.
pub fn assemble_line_result(
    line: Line,
    rows: Vec<RawWheel>,
    images: Result<Vec<Option<String>>, String>,
) -> (r: LineResult)
    ensures
        r.data matches Some(d) && data_matches_rows(d, rows@, images),
        opt_text(r.error) == match images {
            Ok(_) => None,
            Err(e) => Some(images_unavailable_text(line, e@)),
        },
{
    let n: usize = match &images {
        Ok(p) => if p.len() < rows.len() {
            p.len()
        } else {
            rows.len()
        },
        Err(_) => rows.len(),
    };
    let mut data = WheelLineData::default();
    let mut i: usize = 0;
    while i < n
        invariant
            i <= n,
            n == wheel_total(rows@, images),
            n <= rows@.len(),
            images matches Ok(p) ==> n <= p@.len(),
            data.hot_number@ == rows@.take(i as int).map_values(|w: RawWheel| w.hot_number),
            data.malting_namber@ == rows@.take(i as int).map_values(|w: RawWheel| w.malting),
            data.batch_number@ == rows@.take(i as int).map_values(|w: RawWheel| w.batch),
            data.task_number@ == rows@.take(i as int).map_values(|w: RawWheel| w.task),
            data.date_time@ == rows@.take(i as int).map_values(|w: RawWheel| w.date_time),
            data.path_img@ == Seq::new(i as nat, |k: int| image_entry(images, k)),
        decreases n - i,
    {
        let ghost t = rows@.take(i as int);
        let ghost u = rows@.take(i + 1);
        proof {
            assert(u =~= t.push(rows@[i as int]));
        }
        let w = &rows[i];
        data.hot_number.push(copy_opt(&w.hot_number));
        data.malting_namber.push(copy_opt(&w.malting));
        data.batch_number.push(copy_opt(&w.batch));
        data.task_number.push(copy_opt(&w.task));
        data.date_time.push(copy_opt(&w.date_time));
        let img = match &images {
            Ok(p) => copy_opt(&p[i]),
            Err(_) => None,
        };
        data.path_img.push(img);
        proof {
            assert(data.hot_number@ =~= u.map_values(|w: RawWheel| w.hot_number));
            assert(data.malting_namber@ =~= u.map_values(|w: RawWheel| w.malting));
            assert(data.batch_number@ =~= u.map_values(|w: RawWheel| w.batch));
            assert(data.task_number@ =~= u.map_values(|w: RawWheel| w.task));
            assert(data.date_time@ =~= u.map_values(|w: RawWheel| w.date_time));
            assert(data.path_img@ =~= Seq::new((i + 1) as nat, |k: int| image_entry(images, k)));
        }
        i = i + 1;
    }
    proof {
        assert(data.has_wheels(n as nat));
        assert forall|k: int| 0 <= k < n implies {
            &&& #[trigger] data.hot_number@[k] == rows@[k].hot_number
            &&& data.malting_namber@[k] == rows@[k].malting
            &&& data.batch_number@[k] == rows@[k].batch
            &&& data.task_number@[k] == rows@[k].task
            &&& data.date_time@[k] == rows@[k].date_time
            &&& data.path_img@[k] == image_entry(images, k)
        } by {
            assert(rows@.take(n as int)[k] == rows@[k]);
        }
        assert(data_matches_rows(data, rows@, images));
    }
    let error = match &images {
        Ok(_) => None,
        Err(e) => Some(images_unavailable(line, e.as_str())),
    };
    LineResult { data: Some(data), error }
}

// ---------------------------------------------------------------------------
// Places
// ---------------------------------------------------------------------------

/// The place name of the KPC shop, whose lines are 1 and 2; any other
/// place means bay 6.
pub open spec fn is_kpc(place: Seq<char>) -> bool {
    place == "КПЦ"@
}

/// Whether `place` names the KPC shop.
pub fn is_kpc_place(place: &str) -> (r: bool)
    ensures
        r == is_kpc(place@),
{
    let a = chars_of(place);
    let b = chars_of("КПЦ");
    match compare_texts(&a, &b) {
        TextOrder::Equal => true,
        TextOrder::Less => {
            proof {
                lemma_text_less_irreflexive(a@);
            }
            false
        },
        TextOrder::Greater => {
            proof {
                lemma_text_less_irreflexive(a@);
            }
            false
        },
    }
}

/// The lines searched for a place: lines 1 and 2 for the KPC shop, bay 6
/// otherwise.
pub open spec fn place_lines(place: Seq<char>) -> Seq<Line> {
    if is_kpc(place) {
        seq![Line::One, Line::Two]
    } else {
        seq![Line::Pr6]
    }
}

/// The lines to search for `place`, in order.
pub fn wheel_lines(place: &str) -> (r: Vec<Line>)
    ensures
        r@ == place_lines(place@),
{
    let mut r: Vec<Line> = Vec::new();
    if is_kpc_place(place) {
        r.push(Line::One);
        r.push(Line::Two);
    } else {
        r.push(Line::Pr6);
    }
    assert(r@ =~= place_lines(place@));
    r
}

/// The answer for `place` from the outcomes of its lines, given in the
/// order of [`wheel_lines`]; the lines of the other place are left `None`.
pub fn wheel_place(place: &str, results: Vec<LineResult>) -> (r: WheelPlace)
    requires
        results@.len() == place_lines(place@).len(),
    ensures
        is_kpc(place@) ==> r.line_one == Some(results@[0]) && r.line_two == Some(results@[1])
            && r.pr_6 is None,
        !is_kpc(place@) ==> r.pr_6 == Some(results@[0]) && r.line_one is None && r.line_two is None,
{
    let ghost given = results@;
    let mut results = results;
    if is_kpc_place(place) {
        let one = results.remove(0);
        let two = results.remove(0);
        WheelPlace { pr_6: None, line_one: Some(one), line_two: Some(two) }
    } else {
        let pr6 = results.remove(0);
        WheelPlace { pr_6: Some(pr6), line_one: None, line_two: None }
    }
}

} // verus!
