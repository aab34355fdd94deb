use vstd::prelude::*;

verus! {

use crate::store::{columns_view, cells_view, cell_view, rows_view, row_view, Row};

// The archive entry format: one table is stored as a JSON array of row
// objects whose keys are the table's column names and whose values are
// strings or null. The encoder writes the canonical compact form; the
// parser also accepts surrounding whitespace, short escapes, `\uOOXX`
// escapes up to 255, keys in any order, and repeated keys (the last
// occurrence wins), and rejects everything else.

/// The hexadecimal digit for `n`.
pub open spec fn hex_digit(n: int) -> char {
    if n == 0 {
        '0'
    } else if n == 1 {
        '1'
    } else if n == 2 {
        '2'
    } else if n == 3 {
        '3'
    } else if n == 4 {
        '4'
    } else if n == 5 {
        '5'
    } else if n == 6 {
        '6'
    } else if n == 7 {
        '7'
    } else if n == 8 {
        '8'
    } else if n == 9 {
        '9'
    } else if n == 10 {
        'a'
    } else if n == 11 {
        'b'
    } else if n == 12 {
        'c'
    } else if n == 13 {
        'd'
    } else if n == 14 {
        'e'
    } else if n == 15 {
        'f'
    } else {
        '0'
    }
}

/// The value of a hexadecimal digit, or -1.
pub open spec fn hex_val(c: char) -> int {
    if c == '0' {
        0
    } else if c == '1' {
        1
    } else if c == '2' {
        2
    } else if c == '3' {
        3
    } else if c == '4' {
        4
    } else if c == '5' {
        5
    } else if c == '6' {
        6
    } else if c == '7' {
        7
    } else if c == '8' {
        8
    } else if c == '9' {
        9
    } else if c == 'a' || c == 'A' {
        10
    } else if c == 'b' || c == 'B' {
        11
    } else if c == 'c' || c == 'C' {
        12
    } else if c == 'd' || c == 'D' {
        13
    } else if c == 'e' || c == 'E' {
        14
    } else if c == 'f' || c == 'F' {
        15
    } else {
        -1
    }
}

/// How one character is written inside a JSON string: quotes and
/// backslashes are escaped, control characters take the `\u00XX` form,
/// and everything else stands for itself.
pub open spec fn esc_char(c: char) -> Seq<char> {
    if c == '"' {
        seq!['\\', '"']
    } else if c == '\\' {
        seq!['\\', '\\']
    } else if (c as u32) < 32 {
        seq!['\\', 'u', '0', '0', hex_digit(c as u32 as int / 16), hex_digit(c as u32 as int % 16)]
    } else {
        seq![c]
    }
}

/// A whole string's characters, escaped.
pub open spec fn esc_str(s: Seq<char>) -> Seq<char>
    decreases s.len(),
{
    if s.len() == 0 {
        Seq::empty()
    } else {
        esc_char(s[0]) + esc_str(s.drop_first())
    }
}

pub proof fn lemma_esc_str_concat(a: Seq<char>, b: Seq<char>)
    ensures
        esc_str(a + b) == esc_str(a) + esc_str(b),
    decreases a.len(),
{
    if a.len() == 0 {
        assert(a + b =~= b);
        assert(esc_str(a) + esc_str(b) =~= esc_str(b));
    } else {
        lemma_esc_str_concat(a.drop_first(), b);
        assert((a + b).drop_first() =~= a.drop_first() + b);
        assert(esc_char(a[0]) + (esc_str(a.drop_first()) + esc_str(b)) =~= (esc_char(a[0])
            + esc_str(a.drop_first())) + esc_str(b));
    }
}

/// A string as the format writes it, quotes included.
pub open spec fn enc_string(s: Seq<char>) -> Seq<char> {
    seq!['"'] + esc_str(s) + seq!['"']
}

/// A cell as the format writes it: a string, or the word null.
pub open spec fn enc_cell(c: Option<Seq<char>>) -> Seq<char> {
    match c {
        Some(s) => enc_string(s),
        None => seq!['n', 'u', 'l', 'l'],
    }
}

/// The short escapes the parser accepts after a backslash.
pub open spec fn esc_decode(e: char) -> Option<char> {
    if e == '"' {
        Some('"')
    } else if e == '\\' {
        Some('\\')
    } else if e == '/' {
        Some('/')
    } else if e == 'n' {
        Some('\n')
    } else if e == 't' {
        Some('\t')
    } else if e == 'r' {
        Some('\r')
    } else if e == 'b' {
        Some(8 as u8 as char)
    } else if e == 'f' {
        Some(12 as u8 as char)
    } else {
        None
    }
}

/// The character with code `h`, for codes up to 255.
pub open spec fn latin1_char(h: int) -> char
    recommends
        0 <= h < 256,
{
    (h as u8) as char
}

/// The string content and the index just past its closing quote, read
/// from the position after the opening quote; absent when the text is
/// not a string in the accepted form.
pub open spec fn p_string_body(s: Seq<char>, i: int) -> Option<(Seq<char>, int)>
    decreases s.len() - i,
    when 0 <= i <= s.len()
{
    if i >= s.len() {
        None
    } else if s[i] == '"' {
        Some((Seq::empty(), i + 1))
    } else if s[i] == '\\' {
        if i + 1 >= s.len() {
            None
        } else if s[i + 1] == 'u' {
            if i + 5 >= s.len() {
                None
            } else {
                let h = hex_val(s[i + 2]) * 4096 + hex_val(s[i + 3]) * 256 + hex_val(s[i + 4]) * 16
                    + hex_val(s[i + 5]);
                if hex_val(s[i + 2]) < 0 || hex_val(s[i + 3]) < 0 || hex_val(s[i + 4]) < 0
                    || hex_val(s[i + 5]) < 0 || h > 255 {
                    None
                } else {
                    match p_string_body(s, i + 6) {
                        Some((rest, j)) => Some((seq![latin1_char(h)] + rest, j)),
                        None => None,
                    }
                }
            }
        } else {
            match esc_decode(s[i + 1]) {
                Some(c) => match p_string_body(s, i + 2) {
                    Some((rest, j)) => Some((seq![c] + rest, j)),
                    None => None,
                },
                None => None,
            }
        }
    } else if (s[i] as u32) < 32 {
        None
    } else {
        match p_string_body(s, i + 1) {
            Some((rest, j)) => Some((seq![s[i]] + rest, j)),
            None => None,
        }
    }
}

/// A successful string parse always moves the position forward, at most
/// to the end.
pub proof fn lemma_p_string_body_bounds(s: Seq<char>, i: int)
    requires
        0 <= i <= s.len(),
    ensures
        match p_string_body(s, i) {
            Some((_, j)) => i < j <= s.len(),
            None => true,
        },
    decreases s.len() - i,
{
    if i < s.len() {
        if s[i] == '\\' {
            if i + 1 < s.len() && s[i + 1] == 'u' && i + 5 < s.len() {
                lemma_p_string_body_bounds(s, i + 6);
            } else if i + 1 < s.len() {
                lemma_p_string_body_bounds(s, i + 2);
            }
        } else if s[i] != '"' && (s[i] as u32) >= 32 {
            lemma_p_string_body_bounds(s, i + 1);
        }
    }
}

/// The first position at or after `i` that holds no whitespace.
pub open spec fn skip_ws(s: Seq<char>, i: int) -> int
    decreases s.len() - i,
    when 0 <= i <= s.len()
{
    if i >= s.len() {
        i
    } else if s[i] == ' ' || s[i] == '\t' || s[i] == '\n' || s[i] == '\r' {
        skip_ws(s, i + 1)
    } else {
        i
    }
}

pub proof fn lemma_skip_ws_bounds(s: Seq<char>, i: int)
    requires
        0 <= i <= s.len(),
    ensures
        i <= skip_ws(s, i) <= s.len(),
        skip_ws(s, i) < s.len() ==> !(s[skip_ws(s, i)] == ' ' || s[skip_ws(s, i)] == '\t'
            || s[skip_ws(s, i)] == '\n' || s[skip_ws(s, i)] == '\r'),
    decreases s.len() - i,
{
    if i < s.len() && (s[i] == ' ' || s[i] == '\t' || s[i] == '\n' || s[i] == '\r') {
        lemma_skip_ws_bounds(s, i + 1);
    }
}

/// One cell and the position after it: a string or the word null.
pub open spec fn p_cell(s: Seq<char>, i: int) -> Option<(Option<Seq<char>>, int)>
    recommends
        0 <= i <= s.len(),
{
    if i < s.len() && s[i] == '"' {
        match p_string_body(s, i + 1) {
            Some((content, j)) => Some((Some(content), j)),
            None => None,
        }
    } else if i + 3 < s.len() && s[i] == 'n' && s[i + 1] == 'u' && s[i + 2] == 'l' && s[i + 3]
        == 'l' {
        Some((None, i + 4))
    } else {
        None
    }
}

pub proof fn lemma_p_cell_bounds(s: Seq<char>, i: int)
    requires
        0 <= i <= s.len(),
    ensures
        match p_cell(s, i) {
            Some((_, j)) => i < j <= s.len(),
            None => true,
        },
{
    if i < s.len() && s[i] == '"' {
        lemma_p_string_body_bounds(s, i + 1);
    }
}

/// A row of all-null cells, one per column.
pub open spec fn blank_row(n: nat) -> Seq<Option<Seq<char>>> {
    Seq::new(n, |k: int| None)
}

/// The remaining key-value pairs of a row object, read into `acc`: each
/// key must name a column, whose cell takes the value; the object ends at
/// `}`. Returns the finished row and the position after the brace.
pub open spec fn p_row_items(
    cols: Seq<Seq<char>>,
    s: Seq<char>,
    i: int,
    acc: Seq<Option<Seq<char>>>,
) -> Option<(Seq<Option<Seq<char>>>, int)>
    decreases s.len() - i,
    when 0 <= i <= s.len()
{
    let i0 = skip_ws(s, i);
    proof {
        lemma_skip_ws_bounds(s, i);
    }
    if i0 < s.len() && s[i0] == '"' {
        match p_string_body(s, i0 + 1) {
            Some((key, j)) => {
                proof {
                    lemma_p_string_body_bounds(s, i0 + 1);
                }
                let k = crate::store::find_col_idx(cols, key);
                if k < 0 {
                    None
                } else {
                    let j0 = skip_ws(s, j);
                    proof {
                        lemma_skip_ws_bounds(s, j);
                    }
                    if j0 < s.len() && s[j0] == ':' {
                        let j1 = skip_ws(s, j0 + 1);
                        proof {
                            lemma_skip_ws_bounds(s, j0 + 1);
                        }
                        match p_cell(s, j1) {
                            Some((c, m)) => {
                                proof {
                                    lemma_p_cell_bounds(s, j1);
                                }
                                let acc2 = acc.update(k, c);
                                let m0 = skip_ws(s, m);
                                proof {
                                    lemma_skip_ws_bounds(s, m);
                                }
                                if m0 < s.len() && s[m0] == ',' {
                                    p_row_items(cols, s, m0 + 1, acc2)
                                } else if m0 < s.len() && s[m0] == '}' {
                                    Some((acc2, m0 + 1))
                                } else {
                                    None
                                }
                            },
                            None => None,
                        }
                    } else {
                        None
                    }
                }
            },
            None => None,
        }
    } else {
        None
    }
}

pub proof fn lemma_p_row_items_bounds(
    cols: Seq<Seq<char>>,
    s: Seq<char>,
    i: int,
    acc: Seq<Option<Seq<char>>>,
)
    requires
        0 <= i <= s.len(),
    ensures
        match p_row_items(cols, s, i, acc) {
            Some((r, j)) => i < j <= s.len() && (acc.len() == cols.len() ==> r.len()
                == cols.len()),
            None => true,
        },
    decreases s.len() - i,
{
    let i0 = skip_ws(s, i);
    lemma_skip_ws_bounds(s, i);
    if i0 < s.len() && s[i0] == '"' {
        match p_string_body(s, i0 + 1) {
            Some((key, j)) => {
                lemma_p_string_body_bounds(s, i0 + 1);
                let k = crate::store::find_col_idx(cols, key);
                if k >= 0 {
                    crate::store::lemma_find_col_idx(cols, key);
                    let j0 = skip_ws(s, j);
                    lemma_skip_ws_bounds(s, j);
                    if j0 < s.len() && s[j0] == ':' {
                        let j1 = skip_ws(s, j0 + 1);
                        lemma_skip_ws_bounds(s, j0 + 1);
                        match p_cell(s, j1) {
                            Some((c, m)) => {
                                lemma_p_cell_bounds(s, j1);
                                let acc2 = acc.update(k, c);
                                let m0 = skip_ws(s, m);
                                lemma_skip_ws_bounds(s, m);
                                if m0 < s.len() && s[m0] == ',' {
                                    lemma_p_row_items_bounds(cols, s, m0 + 1, acc2);
                                }
                            },
                            None => {},
                        }
                    }
                }
            },
            None => {},
        }
    }
}

/// One row object and the position after its closing brace.
pub open spec fn p_row(cols: Seq<Seq<char>>, s: Seq<char>, i: int) -> Option<(
    Seq<Option<Seq<char>>>,
    int,
)>
    recommends
        0 <= i <= s.len(),
{
    if i < s.len() && s[i] == '{' {
        let i1 = skip_ws(s, i + 1);
        if i1 < s.len() && s[i1] == '}' {
            Some((blank_row(cols.len()), i1 + 1))
        } else {
            p_row_items(cols, s, i + 1, blank_row(cols.len()))
        }
    } else {
        None
    }
}

pub proof fn lemma_p_row_bounds(cols: Seq<Seq<char>>, s: Seq<char>, i: int)
    requires
        0 <= i <= s.len(),
    ensures
        match p_row(cols, s, i) {
            Some((r, j)) => i < j <= s.len() && r.len() == cols.len(),
            None => true,
        },
{
    if i < s.len() && s[i] == '{' {
        lemma_skip_ws_bounds(s, i + 1);
        lemma_p_row_items_bounds(cols, s, i + 1, blank_row(cols.len()));
    }
}

/// The remaining row objects of the array, appended to `acc`; the array
/// ends at `]`. Returns all rows and the position after the bracket.
pub open spec fn p_table_items(
    cols: Seq<Seq<char>>,
    s: Seq<char>,
    i: int,
    acc: Seq<Seq<Option<Seq<char>>>>,
) -> Option<(Seq<Seq<Option<Seq<char>>>>, int)>
    decreases s.len() - i,
    when 0 <= i <= s.len()
{
    let i0 = skip_ws(s, i);
    proof {
        lemma_skip_ws_bounds(s, i);
    }
    match p_row(cols, s, i0) {
        Some((row, j)) => {
            proof {
                lemma_p_row_bounds(cols, s, i0);
            }
            let j0 = skip_ws(s, j);
            proof {
                lemma_skip_ws_bounds(s, j);
            }
            if j0 < s.len() && s[j0] == ',' {
                p_table_items(cols, s, j0 + 1, acc.push(row))
            } else if j0 < s.len() && s[j0] == ']' {
                Some((acc.push(row), j0 + 1))
            } else {
                None
            }
        },
        None => None,
    }
}

pub proof fn lemma_p_table_items_bounds(
    cols: Seq<Seq<char>>,
    s: Seq<char>,
    i: int,
    acc: Seq<Seq<Option<Seq<char>>>>,
)
    requires
        0 <= i <= s.len(),
    ensures
        match p_table_items(cols, s, i, acc) {
            Some((_, j)) => i <= j <= s.len(),
            None => true,
        },
    decreases s.len() - i,
{
    let i0 = skip_ws(s, i);
    lemma_skip_ws_bounds(s, i);
    match p_row(cols, s, i0) {
        Some((row, j)) => {
            lemma_p_row_bounds(cols, s, i0);
            let j0 = skip_ws(s, j);
            lemma_skip_ws_bounds(s, j);
            if j0 < s.len() && s[j0] == ',' {
                lemma_p_table_items_bounds(cols, s, j0 + 1, acc.push(row));
            }
        },
        None => {},
    }
}

/// A whole table document: a JSON array of row objects, with nothing but
/// whitespace after it. Absent when the text is not in the accepted
/// form.
pub open spec fn spec_parse_table(cols: Seq<Seq<char>>, s: Seq<char>) -> Option<
    Seq<Seq<Option<Seq<char>>>>,
> {
    let i0 = skip_ws(s, 0);
    if i0 < s.len() && s[i0] == '[' {
        let i1 = skip_ws(s, i0 + 1);
        if i1 < s.len() && s[i1] == ']' {
            if skip_ws(s, i1 + 1) == s.len() {
                Some(Seq::empty())
            } else {
                None
            }
        } else {
            match p_table_items(cols, s, i0 + 1, Seq::empty()) {
                Some((rows, j)) => {
                    if skip_ws(s, j) == s.len() {
                        Some(rows)
                    } else {
                        None
                    }
                },
                None => None,
            }
        }
    } else {
        None
    }
}

/// The pairs of one row object, canonically: every column in order,
/// separated by commas.
pub open spec fn enc_pair(col: Seq<char>, c: Option<Seq<char>>) -> Seq<char> {
    enc_string(col) + seq![':'] + enc_cell(c)
}

pub open spec fn enc_obj_items(
    cols: Seq<Seq<char>>,
    row: Seq<Option<Seq<char>>>,
    i: int,
) -> Seq<char>
    decreases cols.len() - i,
    when 0 <= i <= cols.len() && cols.len() == row.len()
{
    if i >= cols.len() {
        Seq::empty()
    } else if i == cols.len() - 1 {
        enc_pair(cols[i], row[i])
    } else {
        enc_pair(cols[i], row[i]) + seq![','] + enc_obj_items(cols, row, i + 1)
    }
}

/// One row, canonically encoded.
pub open spec fn enc_row(cols: Seq<Seq<char>>, row: Seq<Option<Seq<char>>>) -> Seq<char> {
    seq!['{'] + enc_obj_items(cols, row, 0) + seq!['}']
}

pub open spec fn enc_table_items(
    cols: Seq<Seq<char>>,
    rows: Seq<Seq<Option<Seq<char>>>>,
    i: int,
) -> Seq<char>
    decreases rows.len() - i,
    when 0 <= i <= rows.len()
{
    if i >= rows.len() {
        Seq::empty()
    } else if i == rows.len() - 1 {
        enc_row(cols, rows[i])
    } else {
        enc_row(cols, rows[i]) + seq![','] + enc_table_items(cols, rows, i + 1)
    }
}

/// A whole table, canonically encoded.
pub open spec fn enc_table(cols: Seq<Seq<char>>, rows: Seq<Seq<Option<Seq<char>>>>) -> Seq<char> {
    seq!['['] + enc_table_items(cols, rows, 0) + seq![']']
}

/// Column names must be pairwise distinct for a row object's keys to
/// address columns unambiguously.
pub open spec fn cols_distinct(cols: Seq<Seq<char>>) -> bool {
    forall|a: int, b: int| 0 <= a < b < cols.len() ==> cols[a] != cols[b]
}

pub proof fn lemma_latin1_roundtrip(c: char)
    requires
        (c as u32) < 256,
    ensures
        latin1_char(c as u32 as int) == c,
{
}

pub proof fn lemma_hex_roundtrip(n: int)
    requires
        0 <= n < 16,
    ensures
        hex_val(hex_digit(n)) == n,
{
}

/// Parsing an escaped string embedded in `s` recovers the original
/// characters and stops just past the closing quote.
pub proof fn lemma_p_string_of_enc(x: Seq<char>, s: Seq<char>, i: int)
    requires
        0 <= i,
        i + esc_str(x).len() + 1 <= s.len(),
        s.subrange(i, i + esc_str(x).len() + 1) == esc_str(x) + seq!['"'],
    ensures
        p_string_body(s, i) == Some((x, i + esc_str(x).len() + 1)),
    decreases x.len(),
{
    let l = esc_str(x).len() as int;
    if x.len() == 0 {
        assert(esc_str(x) =~= Seq::<char>::empty());
        assert(s[i] == (esc_str(x) + seq!['"'])[0]);
        assert(s[i] == '"');
    } else {
        let c = x[0];
        let xs = x.drop_first();
        let e = esc_char(c);
        let le = e.len() as int;
        assert(esc_str(x) == e + esc_str(xs));
        assert(esc_str(x) + seq!['"'] =~= e + (esc_str(xs) + seq!['"']));
        assert forall|k: int| 0 <= k < le implies s[i + k] == e[k] by {
            assert(s[i + k] == s.subrange(i, i + l + 1)[k]);
        }
        let i2 = i + le;
        assert(s.subrange(i2, i2 + esc_str(xs).len() + 1) =~= esc_str(xs) + seq!['"']) by {
            assert forall|k: int| 0 <= k < esc_str(xs).len() + 1 implies s[i2 + k] == (esc_str(xs)
                + seq!['"'])[k] by {
                assert(s[i2 + k] == s.subrange(i, i + l + 1)[le + k]);
                assert((e + (esc_str(xs) + seq!['"']))[le + k] == (esc_str(xs) + seq!['"'])[k]);
            }
        }
        lemma_p_string_of_enc(xs, s, i2);
        if c == '"' {
            assert(e[0] == '\\' && e[1] == '"');
            assert(s[i + 0] == e[0] && s[i + 1] == e[1]);
            assert(esc_decode(s[i + 1]) == Some('"'));
            assert(seq![c] + xs =~= x);
        } else if c == '\\' {
            assert(e[0] == '\\' && e[1] == '\\');
            assert(s[i + 0] == e[0] && s[i + 1] == e[1]);
            assert(esc_decode(s[i + 1]) == Some('\\'));
            assert(seq![c] + xs =~= x);
        } else if (c as u32) < 32 {
            assert(e[0] == '\\' && e[1] == 'u' && e[2] == '0' && e[3] == '0');
            assert(e[4] == hex_digit(c as u32 as int / 16));
            assert(e[5] == hex_digit(c as u32 as int % 16));
            assert(s[i + 0] == e[0] && s[i + 1] == e[1] && s[i + 2] == e[2] && s[i + 3] == e[3]
                && s[i + 4] == e[4] && s[i + 5] == e[5]);
            lemma_hex_roundtrip(c as u32 as int / 16);
            lemma_hex_roundtrip(c as u32 as int % 16);
            assert(hex_val(s[i + 2]) == 0 && hex_val(s[i + 3]) == 0);
            let h = hex_val(s[i + 2]) * 4096 + hex_val(s[i + 3]) * 256 + hex_val(s[i + 4]) * 16
                + hex_val(s[i + 5]);
            assert(h == c as u32 as int);
            lemma_latin1_roundtrip(c);
            assert(latin1_char(h) == c);
            assert(i + 5 < s.len());
            assert(s[i + 0] == '\\' && s[i + 0] != '"');
            assert(seq![c] + xs =~= x);
        } else {
            assert(e[0] == c);
            assert(s[i + 0] == e[0]);
            assert(s[i] == c);
            assert(seq![c] + xs =~= x);
        }
    }
}

/// Parsing an encoded cell embedded in `s` recovers the cell.
pub proof fn lemma_p_cell_of_enc(c: Option<Seq<char>>, s: Seq<char>, i: int)
    requires
        0 <= i,
        i + enc_cell(c).len() <= s.len(),
        s.subrange(i, i + enc_cell(c).len()) == enc_cell(c),
    ensures
        p_cell(s, i) == Some((c, i + enc_cell(c).len())),
{
    let l = enc_cell(c).len() as int;
    assert forall|k: int| 0 <= k < l implies s[i + k] == enc_cell(c)[k] by {
        assert(s[i + k] == s.subrange(i, i + l)[k]);
    }
    match c {
        Some(x) => {
            assert(enc_cell(c)[0] == '"');
            assert(s[i + 0] == enc_cell(c)[0]);
            assert(s[i] == '"');
            assert(enc_cell(c) =~= seq!['"'] + (esc_str(x) + seq!['"']));
            assert(s.subrange(i + 1, i + 1 + esc_str(x).len() + 1) =~= esc_str(x) + seq!['"'])
                by {
                assert forall|k: int| 0 <= k < esc_str(x).len() + 1 implies s[i + 1 + k] == (
                esc_str(x) + seq!['"'])[k] by {
                    assert(s[i + 1 + k] == s.subrange(i, i + l)[1 + k]);
                }
            }
            lemma_p_string_of_enc(x, s, i + 1);
        },
        None => {
            assert(enc_cell(c)[0] == 'n' && enc_cell(c)[1] == 'u' && enc_cell(c)[2] == 'l'
                && enc_cell(c)[3] == 'l');
            assert(s[i + 0] == enc_cell(c)[0] && s[i + 1] == enc_cell(c)[1] && s[i + 2]
                == enc_cell(c)[2] && s[i + 3] == enc_cell(c)[3]);
        },
    }
}

/// `acc` with the cells from `ci` on replaced by the row's values.
pub open spec fn write_from(
    acc: Seq<Option<Seq<char>>>,
    row: Seq<Option<Seq<char>>>,
    ci: int,
) -> Seq<Option<Seq<char>>>
    decreases row.len() - ci,
    when 0 <= ci <= row.len()
{
    if ci >= row.len() {
        acc
    } else {
        write_from(acc.update(ci, row[ci]), row, ci + 1)
    }
}

pub proof fn lemma_write_from(acc: Seq<Option<Seq<char>>>, row: Seq<Option<Seq<char>>>, ci: int)
    requires
        0 <= ci <= row.len(),
        acc.len() == row.len(),
    ensures
        write_from(acc, row, ci).len() == row.len(),
        forall|k: int|
            0 <= k < row.len() ==> write_from(acc, row, ci)[k] == if k >= ci {
                row[k]
            } else {
                acc[k]
            },
    decreases row.len() - ci,
{
    if ci < row.len() {
        lemma_write_from(acc.update(ci, row[ci]), row, ci + 1);
    }
}
/// Parsing the canonical pair list of a row object, embedded in `s`,
/// fills exactly the row's cells from position `ci` on and stops just
/// past the closing brace.
pub proof fn lemma_p_row_items_of_enc(
    cols: Seq<Seq<char>>,
    row: Seq<Option<Seq<char>>>,
    s: Seq<char>,
    i: int,
    ci: int,
    acc: Seq<Option<Seq<char>>>,
)
    requires
        cols_distinct(cols),
        row.len() == cols.len(),
        acc.len() == cols.len(),
        0 <= ci < cols.len(),
        0 <= i,
        i + enc_obj_items(cols, row, ci).len() + 1 <= s.len(),
        s.subrange(i, i + enc_obj_items(cols, row, ci).len() + 1) == enc_obj_items(cols, row, ci)
            + seq!['}'],
    ensures
        p_row_items(cols, s, i, acc) == Some((write_from(acc, row, ci), i + enc_obj_items(
            cols,
            row,
            ci,
        ).len() + 1)),
    decreases cols.len() - ci,
{
    let items = enc_obj_items(cols, row, ci);
    let ll = items.len() as int;
    let pair = enc_pair(cols[ci], row[ci]);
    let ks = enc_string(cols[ci]);
    let lk = ks.len() as int;
    let cc = enc_cell(row[ci]);
    let lc = cc.len() as int;
    let lp = pair.len() as int;
    assert(pair =~= ks + seq![':'] + cc);
    assert(lp == lk + 1 + lc);

    assert forall|k: int| 0 <= k < ll + 1 implies s[i + k] == (items + seq!['}'])[k] by {
        assert(s[i + k] == s.subrange(i, i + ll + 1)[k]);
    }

    let last = ci == cols.len() - 1;
    let rest = enc_obj_items(cols, row, ci + 1);
    if last {
        assert(items == pair);
    } else {
        assert(items == pair + seq![','] + rest);
        assert(ll == lp + 1 + rest.len());
    }
    // every position of the pair itself
    assert forall|k: int| 0 <= k < lp implies (items + seq!['}'])[k] == pair[k] by {}
    assert(ks[0] == '"');
    assert(pair[0] == ks[0]);
    assert(s[i + 0] == pair[0]);
    assert(skip_ws(s, i) == i);

    // the key string
    assert(s.subrange(i + 1, i + 1 + esc_str(cols[ci]).len() + 1) =~= esc_str(cols[ci])
        + seq!['"']) by {
        assert(ks =~= seq!['"'] + (esc_str(cols[ci]) + seq!['"']));
        assert forall|k: int| 0 <= k < esc_str(cols[ci]).len() + 1 implies s[i + 1 + k] == (
        esc_str(cols[ci]) + seq!['"'])[k] by {
            assert(s[i + (1 + k)] == (items + seq!['}'])[1 + k]);
            assert((items + seq!['}'])[1 + k] == pair[1 + k]);
            assert(pair[1 + k] == ks[1 + k]);
        }
    }
    lemma_p_string_of_enc(cols[ci], s, i + 1);
    assert(p_string_body(s, i + 1) == Some((cols[ci], i + lk)));

    assert forall|a: int| 0 <= a < ci implies cols[a] != cols[ci] by {}
    crate::store::lemma_find_col_idx_unique(cols, cols[ci], ci);
    assert(crate::store::find_col_idx(cols, cols[ci]) == ci);

    assert(pair[lk] == ':');
    assert(s[i + lk] == ':');
    assert(skip_ws(s, i + lk) == i + lk);

    // the cell
    assert(s.subrange(i + lk + 1, i + lk + 1 + lc) =~= cc) by {
        assert forall|k: int| 0 <= k < lc implies s[i + lk + 1 + k] == cc[k] by {
            assert(s[i + (lk + 1 + k)] == (items + seq!['}'])[lk + 1 + k]);
            assert((items + seq!['}'])[lk + 1 + k] == pair[lk + 1 + k]);
            assert(pair[lk + 1 + k] == cc[k]);
        }
    }
    assert(cc[0] == '"' || cc[0] == 'n') by {
        match row[ci] {
            Some(_) => assert(cc[0] == '"'),
            None => assert(cc[0] == 'n'),
        }
    }
    assert(s[i + lk + 1] == cc[0]);
    assert(skip_ws(s, i + lk + 1) == i + lk + 1);
    lemma_p_cell_of_enc(row[ci], s, i + lk + 1);
    assert(p_cell(s, i + lk + 1) == Some((row[ci], i + lp)));

    if last {
        assert((items + seq!['}'])[lp] == '}');
        assert(s[i + lp] == '}');
        assert(skip_ws(s, i + lp) == i + lp);
        assert(p_row_items(cols, s, i, acc) == Some((acc.update(ci, row[ci]), i + lp + 1)));
        assert(write_from(acc.update(ci, row[ci]), row, ci + 1) == acc.update(ci, row[ci]));
        assert(write_from(acc, row, ci) == acc.update(ci, row[ci]));
    } else {
        assert((items + seq!['}'])[lp] == items[lp]);
        assert(items[lp] == ',');
        assert(s[i + lp] == ',');
        assert(skip_ws(s, i + lp) == i + lp);
        let i2 = i + lp + 1;
        assert(s.subrange(i2, i2 + rest.len() + 1) =~= rest + seq!['}']) by {
            assert forall|k: int| 0 <= k < rest.len() + 1 implies s[i2 + k] == (rest
                + seq!['}'])[k] by {
                assert(s[i + (lp + 1 + k)] == (items + seq!['}'])[lp + 1 + k]);
                if k < rest.len() {
                    assert((items + seq!['}'])[lp + 1 + k] == items[lp + 1 + k]);
                    assert(items[lp + 1 + k] == rest[k]);
                } else {
                    assert((items + seq!['}'])[lp + 1 + k] == '}');
                }
            }
        }
        lemma_p_row_items_of_enc(cols, row, s, i2, ci + 1, acc.update(ci, row[ci]));
        assert(p_row_items(cols, s, i, acc) == Some((write_from(
            acc.update(ci, row[ci]),
            row,
            ci + 1,
        ), i2 + rest.len() + 1)));
        assert(write_from(acc, row, ci) == write_from(acc.update(ci, row[ci]), row, ci + 1));
        assert(i2 + rest.len() + 1 == i + ll + 1);
    }
}
/// Parsing a canonically encoded row object embedded in `s` recovers the
/// row.
pub proof fn lemma_p_row_of_enc(
    cols: Seq<Seq<char>>,
    row: Seq<Option<Seq<char>>>,
    s: Seq<char>,
    i: int,
)
    requires
        cols_distinct(cols),
        row.len() == cols.len(),
        0 <= i,
        i + enc_row(cols, row).len() <= s.len(),
        s.subrange(i, i + enc_row(cols, row).len()) == enc_row(cols, row),
    ensures
        p_row(cols, s, i) == Some((row, i + enc_row(cols, row).len())),
{
    let er = enc_row(cols, row);
    let ll = er.len() as int;
    let items = enc_obj_items(cols, row, 0);
    assert forall|k: int| 0 <= k < ll implies s[i + k] == er[k] by {
        assert(s[i + k] == s.subrange(i, i + ll)[k]);
    }
    assert(er[0] == '{');
    assert(s[i + 0] == er[0]);
    if cols.len() == 0 {
        assert(items == Seq::<char>::empty());
        assert(er =~= seq!['{', '}']);
        assert(er[1] == '}');
        assert(s[i + 1] == '}');
        assert(skip_ws(s, i + 1) == i + 1);
        assert(blank_row(0) =~= row);
    } else {
        assert(er =~= seq!['{'] + (items + seq!['}']));
        assert(s.subrange(i + 1, i + 1 + items.len() + 1) =~= items + seq!['}']) by {
            assert forall|k: int| 0 <= k < items.len() + 1 implies s[i + 1 + k] == (items
                + seq!['}'])[k] by {
                assert(s[i + (1 + k)] == er[1 + k]);
            }
        }
        let pair = enc_pair(cols[0], row[0]);
        assert(items[0] == pair[0]) by {
            if cols.len() == 1 {
                assert(items == pair);
            } else {
                assert(items == pair + seq![','] + enc_obj_items(cols, row, 1));
            }
        }
        assert(pair[0] == '"') by {
            assert(pair =~= enc_string(cols[0]) + seq![':'] + enc_cell(row[0]));
            assert(enc_string(cols[0])[0] == '"');
        }
        assert(s[i + 1] == (items + seq!['}'])[0]);
        assert(s[i + 1] == '"');
        assert(skip_ws(s, i + 1) == i + 1);
        lemma_p_row_items_of_enc(cols, row, s, i + 1, 0, blank_row(cols.len()));
        lemma_write_from(blank_row(cols.len()), row, 0);
        assert(write_from(blank_row(cols.len()), row, 0) =~= row);
        assert(i + 1 + items.len() + 1 == i + ll);
    }
}

/// Parsing the canonical row list of a table array embedded in `s`
/// appends exactly the rows from `ri` on and stops just past the closing
/// bracket.
pub proof fn lemma_p_table_items_of_enc(
    cols: Seq<Seq<char>>,
    rows: Seq<Seq<Option<Seq<char>>>>,
    s: Seq<char>,
    i: int,
    ri: int,
    acc: Seq<Seq<Option<Seq<char>>>>,
)
    requires
        cols_distinct(cols),
        forall|k: int| 0 <= k < rows.len() ==> rows[k].len() == cols.len(),
        0 <= ri < rows.len(),
        0 <= i,
        i + enc_table_items(cols, rows, ri).len() + 1 <= s.len(),
        s.subrange(i, i + enc_table_items(cols, rows, ri).len() + 1) == enc_table_items(
            cols,
            rows,
            ri,
        ) + seq![']'],
    ensures
        p_table_items(cols, s, i, acc) == Some((acc + rows.skip(ri), i + enc_table_items(
            cols,
            rows,
            ri,
        ).len() + 1)),
    decreases rows.len() - ri,
{
    let items = enc_table_items(cols, rows, ri);
    let ll = items.len() as int;
    let er = enc_row(cols, rows[ri]);
    let lr = er.len() as int;
    let last = ri == rows.len() - 1;
    let rest = enc_table_items(cols, rows, ri + 1);
    if last {
        assert(items == er);
    } else {
        assert(items == er + seq![','] + rest);
        assert(ll == lr + 1 + rest.len());
    }
    assert forall|k: int| 0 <= k < ll + 1 implies s[i + k] == (items + seq![']'])[k] by {
        assert(s[i + k] == s.subrange(i, i + ll + 1)[k]);
    }
    assert forall|k: int| 0 <= k < lr implies (items + seq![']'])[k] == er[k] by {}
    assert(er[0] == '{');
    assert(s[i + 0] == er[0]);
    assert(skip_ws(s, i) == i);
    assert(s.subrange(i, i + lr) =~= er) by {
        assert forall|k: int| 0 <= k < lr implies s[i + k] == er[k] by {}
    }
    lemma_p_row_of_enc(cols, rows[ri], s, i);
    assert(p_row(cols, s, i) == Some((rows[ri], i + lr)));
    if last {
        assert((items + seq![']'])[lr] == ']');
        assert(s[i + lr] == ']');
        assert(skip_ws(s, i + lr) == i + lr);
        assert(p_table_items(cols, s, i, acc) == Some((acc.push(rows[ri]), i + lr + 1)));
        assert(acc.push(rows[ri]) =~= acc + rows.skip(ri));
    } else {
        assert((items + seq![']'])[lr] == items[lr]);
        assert(items[lr] == ',');
        assert(s[i + lr] == ',');
        assert(skip_ws(s, i + lr) == i + lr);
        let i2 = i + lr + 1;
        assert(s.subrange(i2, i2 + rest.len() + 1) =~= rest + seq![']']) by {
            assert forall|k: int| 0 <= k < rest.len() + 1 implies s[i2 + k] == (rest
                + seq![']'])[k] by {
                assert(s[i + (lr + 1 + k)] == (items + seq![']'])[lr + 1 + k]);
                if k < rest.len() {
                    assert((items + seq![']'])[lr + 1 + k] == items[lr + 1 + k]);
                    assert(items[lr + 1 + k] == rest[k]);
                } else {
                    assert((items + seq![']'])[lr + 1 + k] == ']');
                }
            }
        }
        lemma_p_table_items_of_enc(cols, rows, s, i2, ri + 1, acc.push(rows[ri]));
        assert(acc.push(rows[ri]) + rows.skip(ri + 1) =~= acc + rows.skip(ri));
        assert(i2 + rest.len() + 1 == i + ll + 1);
    }
}

/// The round trip: a canonically encoded table parses back to exactly
/// its rows.
pub proof fn lemma_parse_of_enc_table(cols: Seq<Seq<char>>, rows: Seq<Seq<Option<Seq<char>>>>)
    requires
        cols_distinct(cols),
        forall|k: int| 0 <= k < rows.len() ==> rows[k].len() == cols.len(),
    ensures
        spec_parse_table(cols, enc_table(cols, rows)) == Some(rows),
{
    let s = enc_table(cols, rows);
    let items = enc_table_items(cols, rows, 0);
    let ll = items.len() as int;
    assert(s =~= seq!['['] + (items + seq![']']));
    assert(s[0] == '[');
    assert(skip_ws(s, 0) == 0);
    if rows.len() == 0 {
        assert(items == Seq::<char>::empty());
        assert(s =~= seq!['[', ']']);
        assert(s[1] == ']');
        assert(skip_ws(s, 1) == 1);
        assert(skip_ws(s, 2) == 2);
        assert(spec_parse_table(cols, s) == Some(Seq::<Seq<Option<Seq<char>>>>::empty()));
        assert(rows =~= Seq::<Seq<Option<Seq<char>>>>::empty());
    } else {
        assert(s.subrange(1, 1 + ll + 1) =~= items + seq![']']) by {
            assert forall|k: int| 0 <= k < ll + 1 implies s[1 + k] == (items + seq![']'])[k] by {
                assert(s[1 + k] == (seq!['['] + (items + seq![']']))[1 + k]);
            }
        }
        let er = enc_row(cols, rows[0]);
        assert(items[0] == er[0]) by {
            if rows.len() == 1 {
                assert(items == er);
            } else {
                assert(items == er + seq![','] + enc_table_items(cols, rows, 1));
            }
        }
        assert(er[0] == '{');
        assert(s[1] == (items + seq![']'])[0]);
        assert(s[1] == '{');
        assert(skip_ws(s, 1) == 1);
        lemma_p_table_items_of_enc(cols, rows, s, 1, 0, Seq::empty());
        assert(Seq::<Seq<Option<Seq<char>>>>::empty() + rows.skip(0) =~= rows);
        assert(1 + ll + 1 == s.len());
        assert(skip_ws(s, s.len() as int) == s.len());
    }
}
fn hex_digit_exec(n: u32) -> (r: char)
    requires
        n < 16,
    ensures
        r == hex_digit(n as int),
{
    if n == 0 {
        '0'
    } else if n == 1 {
        '1'
    } else if n == 2 {
        '2'
    } else if n == 3 {
        '3'
    } else if n == 4 {
        '4'
    } else if n == 5 {
        '5'
    } else if n == 6 {
        '6'
    } else if n == 7 {
        '7'
    } else if n == 8 {
        '8'
    } else if n == 9 {
        '9'
    } else if n == 10 {
        'a'
    } else if n == 11 {
        'b'
    } else if n == 12 {
        'c'
    } else if n == 13 {
        'd'
    } else if n == 14 {
        'e'
    } else {
        'f'
    }
}

fn hex_val_exec(c: char) -> (r: i32)
    ensures
        r as int == hex_val(c),
{
    let u = c as u32;
    if '0' as u32 <= u && u <= '9' as u32 {
        proof {
            assert(c == '0' || c == '1' || c == '2' || c == '3' || c == '4' || c == '5' || c == '6'
                || c == '7' || c == '8' || c == '9');
        }
        (u - '0' as u32) as i32
    } else if 'a' as u32 <= u && u <= 'f' as u32 {
        proof {
            assert(c == 'a' || c == 'b' || c == 'c' || c == 'd' || c == 'e' || c == 'f');
        }
        (u - 'a' as u32) as i32 + 10
    } else if 'A' as u32 <= u && u <= 'F' as u32 {
        proof {
            assert(c == 'A' || c == 'B' || c == 'C' || c == 'D' || c == 'E' || c == 'F');
        }
        (u - 'A' as u32) as i32 + 10
    } else {
        proof {
            assert(hex_val(c) == -1);
        }
        -1
    }
}

fn esc_char_exec(c: char, out: &mut Vec<char>)
    ensures
        final(out)@ == old(out)@ + esc_char(c),
{
    let ghost out0 = out@;
    if c == '"' {
        out.push('\\');
        out.push('"');
        proof {
            assert(out@ =~= out0 + esc_char(c));
        }
    } else if c == '\\' {
        out.push('\\');
        out.push('\\');
        proof {
            assert(out@ =~= out0 + esc_char(c));
        }
    } else if (c as u32) < 32 {
        let u = c as u32;
        out.push('\\');
        out.push('u');
        out.push('0');
        out.push('0');
        out.push(hex_digit_exec(u / 16));
        out.push(hex_digit_exec(u % 16));
        proof {
            assert(out@ =~= out0 + esc_char(c));
        }
    } else {
        out.push(c);
        proof {
            assert(out@ =~= out0 + esc_char(c));
        }
    }
}

fn enc_string_exec(x: &Vec<char>, out: &mut Vec<char>)
    ensures
        final(out)@ == old(out)@ + enc_string(x@),
{
    let ghost out0 = out@;
    out.push('"');
    let n = x.len();
    let mut i: usize = 0;
    while i < n
        invariant
            n == x@.len(),
            i <= n,
            out@ == out0 + seq!['"'] + esc_str(x@.subrange(0, i as int)),
        decreases n - i,
    {
        esc_char_exec(x[i], out);
        proof {
            assert(x@.subrange(0, i + 1 as int) =~= x@.subrange(0, i as int) + seq![x@[i as int]]);
            lemma_esc_str_concat(x@.subrange(0, i as int), seq![x@[i as int]]);
            assert(seq![x@[i as int]].drop_first() =~= Seq::<char>::empty());
            assert(esc_str(Seq::<char>::empty()) == Seq::<char>::empty());
            assert(esc_str(seq![x@[i as int]]) =~= esc_char(x@[i as int]));
            assert(out@ =~= out0 + seq!['"'] + esc_str(x@.subrange(0, i + 1 as int)));
        }
        i = i + 1;
    }
    out.push('"');
    proof {
        assert(x@.subrange(0, n as int) =~= x@);
        assert(out@ =~= out0 + enc_string(x@));
    }
}

fn enc_cell_exec(c: &Option<String>, out: &mut Vec<char>)
    ensures
        final(out)@ == old(out)@ + enc_cell(cell_view(*c)),
{
    let ghost out0 = out@;
    match c {
        Some(x) => {
            let xv = crate::chars::chars_of(x.as_str());
            enc_string_exec(&xv, out);
        },
        None => {
            out.push('n');
            out.push('u');
            out.push('l');
            out.push('l');
            proof {
                assert(out@ =~= out0 + enc_cell(cell_view(*c)));
            }
        },
    }
}

fn enc_obj_items_exec(cols: &Vec<String>, row: &Vec<Option<String>>, i: usize, out: &mut Vec<char>)
    requires
        i < cols@.len(),
        row@.len() == cols@.len(),
    ensures
        final(out)@ == old(out)@ + enc_obj_items(
            columns_view(cols@),
            cells_view(row@),
            i as int,
        ),
    decreases cols@.len() - i,
{
    let ghost out0 = out@;
    let ghost cv = columns_view(cols@);
    let ghost rv = cells_view(row@);
    let kc = crate::chars::chars_of(cols[i].as_str());
    enc_string_exec(&kc, out);
    out.push(':');
    enc_cell_exec(&row[i], out);
    proof {
        assert(out@ =~= out0 + enc_pair(cv[i as int], rv[i as int]));
    }
    if i < cols.len() - 1 {
        out.push(',');
        enc_obj_items_exec(cols, row, i + 1, out);
        proof {
            assert(out@ =~= out0 + enc_obj_items(cv, rv, i as int));
        }
    } else {
        proof {
            assert(out@ =~= out0 + enc_obj_items(cv, rv, i as int));
        }
    }
}

fn enc_row_exec(cols: &Vec<String>, row: &Vec<Option<String>>, out: &mut Vec<char>)
    requires
        row@.len() == cols@.len(),
    ensures
        final(out)@ == old(out)@ + enc_row(columns_view(cols@), cells_view(row@)),
{
    let ghost out0 = out@;
    out.push('{');
    if cols.len() > 0 {
        enc_obj_items_exec(cols, row, 0, out);
    }
    out.push('}');
    proof {
        if cols@.len() == 0 {
            assert(enc_obj_items(columns_view(cols@), cells_view(row@), 0)
                == Seq::<char>::empty());
        }
        assert(out@ =~= out0 + enc_row(columns_view(cols@), cells_view(row@)));
    }
}

fn enc_table_items_exec(cols: &Vec<String>, rows: &Vec<Row>, i: usize, out: &mut Vec<char>)
    requires
        i < rows@.len(),
        forall|k: int| 0 <= k < rows@.len() ==> rows@[k].cells@.len() == cols@.len(),
    ensures
        final(out)@ == old(out)@ + enc_table_items(
            columns_view(cols@),
            rows_view(rows@),
            i as int,
        ),
    decreases rows@.len() - i,
{
    let ghost out0 = out@;
    let ghost cv = columns_view(cols@);
    let ghost rsv = rows_view(rows@);
    enc_row_exec(cols, &rows[i].cells, out);
    proof {
        assert(row_view(rows@[i as int]) == cells_view(rows@[i as int].cells@));
        assert(out@ =~= out0 + enc_row(cv, rsv[i as int]));
    }
    if i < rows.len() - 1 {
        out.push(',');
        enc_table_items_exec(cols, rows, i + 1, out);
        proof {
            assert(out@ =~= out0 + enc_table_items(cv, rsv, i as int));
        }
    } else {
        proof {
            assert(out@ =~= out0 + enc_table_items(cv, rsv, i as int));
        }
    }
}

/// Writes the table's rows as the canonical archive document.
pub fn encode_table(cols: &Vec<String>, rows: &Vec<Row>) -> (r: String)
    requires
        forall|k: int| 0 <= k < rows@.len() ==> rows@[k].cells@.len() == cols@.len(),
    ensures
        r@ == enc_table(columns_view(cols@), rows_view(rows@)),
{
    let mut out: Vec<char> = Vec::new();
    out.push('[');
    if rows.len() > 0 {
        enc_table_items_exec(cols, rows, 0, &mut out);
    }
    out.push(']');
    proof {
        if rows@.len() == 0 {
            assert(enc_table_items(columns_view(cols@), rows_view(rows@), 0)
                == Seq::<char>::empty());
        }
        assert(out@ =~= enc_table(columns_view(cols@), rows_view(rows@)));
    }
    crate::chars::string_from_chars(&out)
}
fn skip_ws_exec(s: &Vec<char>, i: usize) -> (r: usize)
    requires
        i <= s@.len(),
    ensures
        r as int == skip_ws(s@, i as int),
        i <= r <= s@.len(),
    decreases s@.len() - i,
{
    if i < s.len() {
        let c = s[i];
        if c == ' ' || c == '\t' || c == '\n' || c == '\r' {
            return skip_ws_exec(s, i + 1);
        }
    }
    i
}

fn px_string_body(s: &Vec<char>, i: usize) -> (r: Option<(Vec<char>, usize)>)
    requires
        i <= s@.len(),
    ensures
        match r {
            Some((v, j)) => p_string_body(s@, i as int) == Some((v@, j as int)) && i < j
                <= s@.len(),
            None => p_string_body(s@, i as int) is None,
        },
    decreases s@.len() - i,
{
    proof {
        lemma_p_string_body_bounds(s@, i as int);
    }
    if i >= s.len() {
        return None;
    }
    let c = s[i];
    if c == '"' {
        return Some((Vec::new(), i + 1));
    }
    if c == '\\' {
        if i + 1 >= s.len() {
            return None;
        }
        let e = s[i + 1];
        if e == 'u' {
            if s.len() - i <= 5 {
                proof {
                    assert(i + 5 >= s@.len());
                }
                return None;
            }
            proof {
                assert(i + 5 < s@.len());
            }
            let h2 = hex_val_exec(s[i + 2]);
            let h3 = hex_val_exec(s[i + 3]);
            let h4 = hex_val_exec(s[i + 4]);
            let h5 = hex_val_exec(s[i + 5]);
            if h2 < 0 || h3 < 0 || h4 < 0 || h5 < 0 {
                return None;
            }
            let h: i32 = h2 * 4096 + h3 * 256 + h4 * 16 + h5;
            if h > 255 {
                return None;
            }
            match px_string_body(s, i + 6) {
                Some((mut rest, j)) => {
                    let ghost rest0 = rest@;
                    let ch = (h as u8) as char;
                    rest.insert(0, ch);
                    proof {
                        assert(ch == latin1_char(h as int));
                        assert(rest@ =~= seq![latin1_char(h as int)] + rest0);
                    }
                    Some((rest, j))
                },
                None => None,
            }
        } else {
            let dec: Option<char> = if e == '"' {
                Some('"')
            } else if e == '\\' {
                Some('\\')
            } else if e == '/' {
                Some('/')
            } else if e == 'n' {
                Some('\n')
            } else if e == 't' {
                Some('\t')
            } else if e == 'r' {
                Some('\r')
            } else if e == 'b' {
                Some(8u8 as char)
            } else if e == 'f' {
                Some(12u8 as char)
            } else {
                None
            };
            proof {
                assert(dec == esc_decode(e));
            }
            match dec {
                Some(d) => {
                    match px_string_body(s, i + 2) {
                        Some((mut rest, j)) => {
                            let ghost rest0 = rest@;
                            rest.insert(0, d);
                            proof {
                                assert(rest@ =~= seq![d] + rest0);
                            }
                            Some((rest, j))
                        },
                        None => None,
                    }
                },
                None => None,
            }
        }
    } else if (c as u32) < 32 {
        None
    } else {
        match px_string_body(s, i + 1) {
            Some((mut rest, j)) => {
                let ghost rest0 = rest@;
                rest.insert(0, c);
                proof {
                    assert(rest@ =~= seq![c] + rest0);
                }
                Some((rest, j))
            },
            None => None,
        }
    }
}

fn px_cell(s: &Vec<char>, i: usize) -> (r: Option<(Option<String>, usize)>)
    requires
        i <= s@.len(),
    ensures
        match r {
            Some((c, j)) => p_cell(s@, i as int) == Some((cell_view(c), j as int)) && i < j
                <= s@.len(),
            None => p_cell(s@, i as int) is None,
        },
{
    if i < s.len() && s[i] == '"' {
        match px_string_body(s, i + 1) {
            Some((content, j)) => Some((Some(crate::chars::string_from_chars(&content)), j)),
            None => None,
        }
    } else if s.len() >= 4 && i <= s.len() - 4 && s[i] == 'n' && s[i + 1] == 'u' && s[i + 2]
        == 'l' && s[i + 3] == 'l' {
        proof {
            assert(i + 3 < s@.len());
        }
        Some((None, i + 4))
    } else {
        None
    }
}

fn find_col(cols: &Vec<String>, key: &Vec<char>) -> (r: Option<usize>)
    ensures
        match r {
            Some(k) => k < cols@.len() && crate::store::find_col_idx(columns_view(cols@), key@)
                == k,
            None => crate::store::find_col_idx(columns_view(cols@), key@) == -1,
        },
{
    let n = cols.len();
    let mut k: usize = 0;
    while k < n
        invariant
            n == cols@.len(),
            k <= n,
            forall|m: int| 0 <= m < k ==> cols@[m]@ != key@,
        decreases n - k,
    {
        let cc = crate::chars::chars_of(cols[k].as_str());
        if crate::chars::char_vecs_eq(&cc, key) {
            proof {
                crate::store::lemma_find_col_idx_unique(columns_view(cols@), key@, k as int);
            }
            return Some(k);
        }
        k = k + 1;
    }
    proof {
        crate::store::lemma_find_col_idx_unique(columns_view(cols@), key@, n as int);
    }
    None
}

fn px_row_items(cols: &Vec<String>, s: &Vec<char>, i: usize, acc: Vec<Option<String>>) -> (r:
    Option<(Vec<Option<String>>, usize)>)
    requires
        i <= s@.len(),
        acc@.len() == cols@.len(),
    ensures
        match r {
            Some((v, j)) => p_row_items(columns_view(cols@), s@, i as int, cells_view(acc@))
                == Some((cells_view(v@), j as int)) && i < j <= s@.len() && v@.len()
                == cols@.len(),
            None => p_row_items(columns_view(cols@), s@, i as int, cells_view(acc@)) is None,
        },
    decreases s@.len() - i,
{
    proof {
        lemma_p_row_items_bounds(columns_view(cols@), s@, i as int, cells_view(acc@));
    }
    let i0 = skip_ws_exec(s, i);
    if !(i0 < s.len() && s[i0] == '"') {
        return None;
    }
    let (key, j) = match px_string_body(s, i0 + 1) {
        Some(p) => p,
        None => {
            return None;
        },
    };
    let k = match find_col(cols, &key) {
        Some(k) => k,
        None => {
            return None;
        },
    };
    let j0 = skip_ws_exec(s, j);
    if !(j0 < s.len() && s[j0] == ':') {
        return None;
    }
    let j1 = skip_ws_exec(s, j0 + 1);
    let (c, m) = match px_cell(s, j1) {
        Some(p) => p,
        None => {
            return None;
        },
    };
    let mut acc2 = acc;
    let ghost araw = acc2@;
    let ghost accv = cells_view(acc2@);
    acc2.remove(k);
    acc2.insert(k, c);
    proof {
        assert(acc2@ =~= araw.update(k as int, c));
        assert(cells_view(acc2@) =~= accv.update(k as int, cell_view(c)));
    }
    let m0 = skip_ws_exec(s, m);
    if m0 < s.len() {
        let cm = s[m0];
        if cm == ',' {
            return px_row_items(cols, s, m0 + 1, acc2);
        }
        if cm == '}' {
            return Some((acc2, m0 + 1));
        }
    }
    None
}

fn px_row(cols: &Vec<String>, s: &Vec<char>, i: usize) -> (r: Option<(Vec<Option<String>>, usize)>)
    requires
        i <= s@.len(),
    ensures
        match r {
            Some((v, j)) => p_row(columns_view(cols@), s@, i as int) == Some((cells_view(v@), j
                as int)) && i < j <= s@.len() && v@.len() == cols@.len(),
            None => p_row(columns_view(cols@), s@, i as int) is None,
        },
{
    proof {
        lemma_p_row_bounds(columns_view(cols@), s@, i as int);
    }
    if !(i < s.len() && s[i] == '{') {
        return None;
    }
    let mut blank: Vec<Option<String>> = Vec::new();
    let n = cols.len();
    let mut k: usize = 0;
    while k < n
        invariant
            k <= n,
            blank@.len() == k,
            forall|m: int| 0 <= m < k ==> blank@[m] is None,
        decreases n - k,
    {
        blank.push(None);
        k = k + 1;
    }
    proof {
        assert(cells_view(blank@) =~= blank_row(cols@.len() as nat));
    }
    let i1 = skip_ws_exec(s, i + 1);
    if i1 < s.len() && s[i1] == '}' {
        return Some((blank, i1 + 1));
    }
    px_row_items(cols, s, i + 1, blank)
}

fn px_table_items(cols: &Vec<String>, s: &Vec<char>, i: usize, acc: Vec<Row>) -> (r: Option<(
    Vec<Row>,
    usize,
)>)
    requires
        i <= s@.len(),
    ensures
        match r {
            Some((v, j)) => p_table_items(columns_view(cols@), s@, i as int, rows_view(acc@))
                == Some((rows_view(v@), j as int)) && i <= j <= s@.len() && ((forall|m: int|
                0 <= m < acc@.len() ==> acc@[m].cells@.len() == cols@.len()) ==> (forall|m: int|
                0 <= m < v@.len() ==> v@[m].cells@.len() == cols@.len())),
            None => p_table_items(columns_view(cols@), s@, i as int, rows_view(acc@)) is None,
        },
    decreases s@.len() - i,
{
    proof {
        lemma_p_table_items_bounds(columns_view(cols@), s@, i as int, rows_view(acc@));
    }
    let i0 = skip_ws_exec(s, i);
    let (rowcells, j) = match px_row(cols, s, i0) {
        Some(p) => p,
        None => {
            return None;
        },
    };
    let j0 = skip_ws_exec(s, j);
    let mut acc2 = acc;
    let ghost accv = rows_view(acc2@);
    let newrow = Row { cells: rowcells };
    proof {
        assert(row_view(newrow) == cells_view(newrow.cells@));
    }
    acc2.push(newrow);
    proof {
        assert(rows_view(acc2@) =~= accv.push(row_view(newrow)));
    }
    if j0 < s.len() {
        let cm = s[j0];
        if cm == ',' {
            return px_table_items(cols, s, j0 + 1, acc2);
        }
        if cm == ']' {
            return Some((acc2, j0 + 1));
        }
    }
    None
}

/// Reads a table document back into rows, strictly: text that is not an
/// array of row objects in the accepted form is a codec error.
pub fn decode_table(cols: &Vec<String>, text: &str) -> (r: Result<Vec<Row>, crate::StoreError>)
    ensures
        ({
            let parsed = spec_parse_table(columns_view(cols@), text@);
            match r {
                Ok(rows) => parsed == Some(rows_view(rows@)) && (forall|m: int|
                    0 <= m < rows@.len() ==> rows@[m].cells@.len() == cols@.len()),
                Err(e) => parsed is None && e == crate::StoreError::Codec,
            }
        }),
{
    let s = crate::chars::chars_of(text);
    let i0 = skip_ws_exec(&s, 0);
    if !(i0 < s.len() && s[i0] == '[') {
        return Err(crate::StoreError::Codec);
    }
    let i1 = skip_ws_exec(&s, i0 + 1);
    if i1 < s.len() && s[i1] == ']' {
        if skip_ws_exec(&s, i1 + 1) == s.len() {
            let empty: Vec<Row> = Vec::new();
            proof {
                assert(rows_view(Seq::<Row>::empty()) =~= Seq::<Seq<Option<Seq<char>>>>::empty());
            }
            return Ok(empty);
        }
        return Err(crate::StoreError::Codec);
    }
    let parsed_items = px_table_items(cols, &s, i0 + 1, Vec::new());
    proof {
        assert(rows_view(Seq::<Row>::empty()) =~= Seq::<Seq<Option<Seq<char>>>>::empty());
        assert(p_table_items(columns_view(cols@), s@, i0 + 1, rows_view(Seq::<Row>::empty()))
            == p_table_items(columns_view(cols@), s@, i0 + 1, Seq::empty()));
    }
    match parsed_items {
        Some((rows, j)) => {
            proof {
                assert(p_table_items(columns_view(cols@), s@, i0 + 1, Seq::empty()) == Some((
                    rows_view(rows@),
                    j as int,
                )));
            }
            if skip_ws_exec(&s, j) == s.len() {
                proof {
                    assert(spec_parse_table(columns_view(cols@), text@) == Some(rows_view(
                        rows@,
                    )));
                }
                Ok(rows)
            } else {
                proof {
                    assert(spec_parse_table(columns_view(cols@), text@) is None);
                }
                Err(crate::StoreError::Codec)
            }
        },
        None => Err(crate::StoreError::Codec),
    }
}
} // verus!
