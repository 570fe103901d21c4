//! The persistence codec: the task collection written as a compact JSON
//! array of records, and read back. Reading the written text reproduces
//! the collection exactly.
use vstd::prelude::*;

use crate::date::Date;
use crate::date::spec_date_chars;
use crate::date::spec_is_digit;
use crate::date::spec_digit_val;
use crate::date::spec_parse_date;
use crate::date::spec_valid_date;
use crate::task::Task;
use crate::task::TaskV;
use crate::task::spec_views_of;
use crate::text::dec_string;
use crate::text::digit_str;
use crate::text::spec_dec;
use crate::text::spec_digit_char;
use vstd::string::StrSliceExecFns;
use vstd::string::StringExecFns;

verus! {

/// The lower-case hexadecimal digit for a value below 16.
pub open spec fn spec_hex_char(v: int) -> char {
    if v < 10 {
        spec_digit_char(v)
    } else {
        (v + 87) as char
    }
}

/// True when `c` is a hexadecimal digit.
pub open spec fn spec_is_hex(c: char) -> bool {
    ('0' <= c && c <= '9') || ('a' <= c && c <= 'f') || ('A' <= c && c <= 'F')
}

/// The value of a hexadecimal digit character.
pub open spec fn spec_hex_val(c: char) -> int {
    if '0' <= c && c <= '9' {
        c as int - 48
    } else if 'a' <= c && c <= 'f' {
        c as int - 87
    } else {
        c as int - 55
    }
}

/// The written form of one description character: quotes and backslashes
/// escaped, control characters written as four-digit escapes, everything
/// else written as itself.
pub open spec fn spec_escape_char(c: char) -> Seq<char> {
    if c == '"' {
        seq!['\\', '"']
    } else if c == '\\' {
        seq!['\\', '\\']
    } else if (c as int) < 32 {
        seq!['\\', 'u', '0', '0', spec_hex_char(c as int / 16), spec_hex_char(c as int % 16)]
    } else {
        seq![c]
    }
}

/// The written form of a description.
pub open spec fn spec_escape(s: Seq<char>) -> Seq<char>
    decreases s.len(),
{
    if s.len() == 0 {
        Seq::<char>::empty()
    } else {
        spec_escape_char(s[0]) + spec_escape(s.skip(1))
    }
}

/// Escaping one more character appends its written form.
proof fn lemma_escape_snoc(s: Seq<char>, c: char)
    ensures
        spec_escape(s.push(c)) == spec_escape(s) + spec_escape_char(c),
    decreases s.len(),
{
    reveal_with_fuel(spec_escape, 3);
    if s.len() == 0 {
        assert(s.push(c)[s.len() as int] == c);
        assert(s.push(c).skip(1) =~= Seq::<char>::empty());
        assert(spec_escape(s.push(c)) =~= spec_escape(s) + spec_escape_char(c));
    } else {
        lemma_escape_snoc(s.skip(1), c);
        assert(s.push(c).skip(1) =~= s.skip(1).push(c));
        assert(s.push(c)[0] == s[0]);
        assert(spec_escape(s.push(c)) =~= spec_escape(s) + spec_escape_char(c));
    }
}

/// The one-character string for a hexadecimal digit value.
fn hex_str(v: u32) -> (r: &'static str)
    requires
        v < 16,
    ensures
        r@ == seq![spec_hex_char(v as int)],
{
    if v < 10 {
        digit_str(v as usize)
    } else {
        proof {
            reveal_strlit("a");
            reveal_strlit("b");
            reveal_strlit("c");
            reveal_strlit("d");
            reveal_strlit("e");
            reveal_strlit("f");
        }
        match v {
            10 => "a",
            11 => "b",
            12 => "c",
            13 => "d",
            14 => "e",
            _ => "f",
        }
    }
}

/// Writes a description in its escaped form.
fn escape_str(s: &str) -> (r: String)
    ensures
        r@ == spec_escape(s@),
{
    proof {
        reveal_strlit("\\\"");
        reveal_strlit("\\\\");
        reveal_strlit("\\u00");
    }
    let n = s.unicode_len();
    let mut out = String::new();
    let mut i: usize = 0;
    while i < n
        invariant
            i <= n,
            n == s@.len(),
            out@ == spec_escape(s@.take(i as int)),
        decreases n - i,
    {
        proof {
            reveal_strlit("\\\"");
            reveal_strlit("\\\\");
            reveal_strlit("\\u00");
            lemma_escape_snoc(s@.take(i as int), s@[i as int]);
            assert(s@.take(i as int + 1) =~= s@.take(i as int).push(s@[i as int]));
        }
        let c = s.get_char(i);
        if c == '"' {
            out.append("\\\"");
        } else if c == '\\' {
            out.append("\\\\");
        } else if (c as u32) < 32 {
            out.append("\\u00");
            out.append(hex_str((c as u32) / 16));
            out.append(hex_str((c as u32) % 16));
        } else {
            out.append(s.substring_char(i, i + 1));
            proof {
                assert(s@.subrange(i as int, i as int + 1) =~= seq![s@[i as int]]);
            }
        }
        i = i + 1;
        proof {
            assert(out@ =~= spec_escape(s@.take(i as int)));
        }
    }
    proof {
        assert(s@.take(n as int) =~= s@);
    }
    out
}

/// The written form of one record: its fields in a fixed order, the
/// back-reference written as `null` when absent.
pub open spec fn spec_encode_task(v: TaskV) -> Seq<char> {
    "{\"id\":"@ + spec_dec(v.id) + ",\"task\":\""@ + spec_escape(v.task) + "\",\"date\":\""@
        + spec_date_chars(v.date) + "\",\"done\":"@ + (if v.done {
        "true"@
    } else {
        "false"@
    }) + ",\"reuse_by\":"@ + (match v.reuse_by {
        Some(r) => spec_dec(r),
        None => "null"@,
    }) + "}"@
}

/// The written form of the records of a non-empty collection, separated
/// by commas.
pub open spec fn spec_encode_items(vs: Seq<TaskV>) -> Seq<char>
    decreases vs.len(),
{
    if vs.len() <= 1 {
        spec_encode_task(vs[0])
    } else {
        spec_encode_items(vs.drop_last()) + ","@ + spec_encode_task(vs.last())
    }
}

/// The written form of a whole collection.
pub open spec fn spec_encode_tasks(vs: Seq<TaskV>) -> Seq<char> {
    if vs.len() == 0 {
        "[]"@
    } else {
        "["@ + spec_encode_items(vs) + "]"@
    }
}

/// Writes one record.
fn encode_task(t: &Task) -> (r: String)
    requires
        spec_valid_date(t.date),
    ensures
        r@ == spec_encode_task(t@),
{
    proof {
        reveal_strlit("{\"id\":");
        reveal_strlit(",\"task\":\"");
        reveal_strlit("\",\"date\":\"");
        reveal_strlit("\",\"done\":");
        reveal_strlit("true");
        reveal_strlit("false");
        reveal_strlit(",\"reuse_by\":");
        reveal_strlit("null");
        reveal_strlit("}");
    }
    let mut out = String::from_str("{\"id\":");
    let id_str = dec_string(t.id);
    out.append(id_str.as_str());
    out.append(",\"task\":\"");
    let esc = escape_str(t.task.as_str());
    out.append(esc.as_str());
    out.append("\",\"date\":\"");
    let date_str = t.date.format_date();
    out.append(date_str.as_str());
    out.append("\",\"done\":");
    if t.done {
        out.append("true");
    } else {
        out.append("false");
    }
    out.append(",\"reuse_by\":");
    match t.reuse_by {
        Some(r) => {
            let r_str = dec_string(r);
            out.append(r_str.as_str());
        },
        None => {
            out.append("null");
        },
    }
    out.append("}");
    proof {
        assert(out@ =~= spec_encode_task(t@));
    }
    out
}

/// Writes the whole collection in the form the store persists.
pub fn encode_tasks(tasks: &Vec<Task>) -> (r: String)
    requires
        crate::task::spec_valid_dates(tasks@),
    ensures
        r@ == spec_encode_tasks(spec_views_of(tasks@)),
{
    proof {
        reveal_strlit("[]");
        reveal_strlit("[");
        reveal_strlit("]");
        reveal_strlit(",");
    }
    let n = tasks.len();
    if n == 0 {
        return String::from_str("[]");
    }
    let mut out = String::from_str("[");
    let mut i: usize = 0;
    while i < n
        invariant
            i <= n,
            n == tasks@.len(),
            n > 0,
            crate::task::spec_valid_dates(tasks@),
            i > 0 ==> out@ == "["@ + spec_encode_items(spec_views_of(tasks@.take(i as int))),
            i == 0 ==> out@ == "["@,
        decreases n - i,
    {
        proof {
            reveal_strlit(",");
        }
        if i > 0 {
            out.append(",");
        }
        let item = encode_task(&tasks[i]);
        out.append(item.as_str());
        i = i + 1;
        proof {
            let vs = spec_views_of(tasks@.take(i as int));
            assert(vs.drop_last() =~= spec_views_of(tasks@.take(i as int - 1)));
            assert(vs.last() == tasks@[i as int - 1]@);
            assert(out@ =~= "["@ + spec_encode_items(vs));
        }
    }
    out.append("]");
    proof {
        assert(spec_views_of(tasks@.take(n as int)) =~= spec_views_of(tasks@));
        assert(out@ =~= spec_encode_tasks(spec_views_of(tasks@)));
    }
    out
}

/// The position after the literal `lit` read at `i`, when it is there.
pub open spec fn spec_expect_lit(s: Seq<char>, i: int, lit: Seq<char>) -> Option<int> {
    if 0 <= i && i + lit.len() <= s.len() && s.subrange(i, i + lit.len() as int) == lit {
        Some(i + lit.len() as int)
    } else {
        None
    }
}

/// The end of the run of digits starting at `i`.
pub open spec fn spec_digits_end(s: Seq<char>, i: int) -> int
    decreases s.len() - i,
{
    if 0 <= i < s.len() && spec_is_digit(s[i]) {
        spec_digits_end(s, i + 1)
    } else {
        i
    }
}

/// The value of the digits from `i` up to `j`, most significant first.
pub open spec fn spec_digits_value(s: Seq<char>, i: int, j: int) -> int
    decreases j - i,
{
    if i < j {
        spec_digits_value(s, i, j - 1) * 10 + spec_digit_val(s[j - 1])
    } else {
        0
    }
}

/// A number: a single zero, or a run of digits with no leading zero,
/// whose value fits the machine word.
pub open spec fn spec_parse_number(s: Seq<char>, i: int) -> Option<(int, int)> {
    if 0 <= i < s.len() && spec_is_digit(s[i]) {
        if s[i] == '0' {
            Some((0, i + 1))
        } else {
            let j = spec_digits_end(s, i);
            let v = spec_digits_value(s, i, j);
            if v <= usize::MAX {
                Some((v, j))
            } else {
                None
            }
        }
    } else {
        None
    }
}

/// A parsed character put before a parsed tail.
pub open spec fn spec_cons_char(c: char, rest: Option<(Seq<char>, int)>) -> Option<
    (Seq<char>, int),
> {
    match rest {
        Some((t, j)) => Some((seq![c] + t, j)),
        None => None,
    }
}

/// The body of a quoted string read from `i` up to and over its closing
/// quote: plain characters as themselves, escapes decoded, four-digit
/// escapes accepted for control characters only.
pub open spec fn spec_parse_string_body(s: Seq<char>, i: int) -> Option<(Seq<char>, int)>
    decreases s.len() - i,
{
    if !(0 <= i < s.len()) {
        None
    } else if s[i] == '"' {
        Some((Seq::<char>::empty(), i + 1))
    } else if s[i] == '\\' {
        if i + 1 < s.len() {
            let e = s[i + 1];
            if e == '"' || e == '\\' || e == '/' {
                spec_cons_char(e, spec_parse_string_body(s, i + 2))
            } else if e == 'n' {
                spec_cons_char('\n', spec_parse_string_body(s, i + 2))
            } else if e == 't' {
                spec_cons_char('\t', spec_parse_string_body(s, i + 2))
            } else if e == 'r' {
                spec_cons_char('\r', spec_parse_string_body(s, i + 2))
            } else if e == 'b' {
                spec_cons_char(8 as char, spec_parse_string_body(s, i + 2))
            } else if e == 'f' {
                spec_cons_char(12 as char, spec_parse_string_body(s, i + 2))
            } else if e == 'u' {
                if i + 5 < s.len() && spec_is_hex(s[i + 2]) && spec_is_hex(s[i + 3]) && spec_is_hex(
                    s[i + 4],
                ) && spec_is_hex(s[i + 5]) {
                    let v = spec_hex_val(s[i + 2]) * 4096 + spec_hex_val(s[i + 3]) * 256
                        + spec_hex_val(s[i + 4]) * 16 + spec_hex_val(s[i + 5]);
                    if v < 32 {
                        spec_cons_char(v as char, spec_parse_string_body(s, i + 6))
                    } else {
                        None
                    }
                } else {
                    None
                }
            } else {
                None
            }
        } else {
            None
        }
    } else {
        spec_cons_char(s[i], spec_parse_string_body(s, i + 1))
    }
}

/// One record, its fields read in the order they are written; the
/// back-reference may be `null`, a number, or missing altogether.
pub open spec fn spec_parse_task(s: Seq<char>, i: int) -> Option<(TaskV, int)> {
    match spec_expect_lit(s, i, "{\"id\":"@) {
        None => None,
        Some(i1) => match spec_parse_number(s, i1) {
            None => None,
            Some((id, i2)) => match spec_expect_lit(s, i2, ",\"task\":\""@) {
                None => None,
                Some(i3) => match spec_parse_string_body(s, i3) {
                    None => None,
                    Some((desc, i4)) => match spec_expect_lit(s, i4, ",\"date\":\""@) {
                        None => None,
                        Some(i5) => match spec_parse_string_body(s, i5) {
                            None => None,
                            Some((ds, i6)) => match spec_parse_date(ds) {
                                None => None,
                                Some(date) => match spec_expect_lit(s, i6, ",\"done\":"@) {
                                    None => None,
                                    Some(i7) => match spec_parse_bool(s, i7) {
                                        None => None,
                                        Some((done, i8)) => spec_parse_reuse_and_close(
                                            s,
                                            i8,
                                            id,
                                            desc,
                                            date,
                                            done,
                                        ),
                                    },
                                },
                            },
                        },
                    },
                },
            },
        },
    }
}

/// `true` or `false`.
pub open spec fn spec_parse_bool(s: Seq<char>, i: int) -> Option<(bool, int)> {
    match spec_expect_lit(s, i, "true"@) {
        Some(j) => Some((true, j)),
        None => match spec_expect_lit(s, i, "false"@) {
            Some(j) => Some((false, j)),
            None => None,
        },
    }
}

/// The tail of a record: either it closes at once (no back-reference
/// field, for records written before the field existed), or the field
/// follows with `null` or a number, and then the record closes.
pub open spec fn spec_parse_reuse_and_close(
    s: Seq<char>,
    i: int,
    id: int,
    desc: Seq<char>,
    date: Date,
    done: bool,
) -> Option<(TaskV, int)> {
    match spec_expect_lit(s, i, "}"@) {
        Some(j) => Some((TaskV { id, task: desc, date, done, reuse_by: None }, j)),
        None => match spec_expect_lit(s, i, ",\"reuse_by\":"@) {
            None => None,
            Some(i9) => match spec_expect_lit(s, i9, "null"@) {
                Some(i10) => match spec_expect_lit(s, i10, "}"@) {
                    Some(j) => Some((TaskV { id, task: desc, date, done, reuse_by: None }, j)),
                    None => None,
                },
                None => match spec_parse_number(s, i9) {
                    None => None,
                    Some((r, i10)) => match spec_expect_lit(s, i10, "}"@) {
                        Some(j) => Some(
                            (TaskV { id, task: desc, date, done, reuse_by: Some(r) }, j),
                        ),
                        None => None,
                    },
                },
            },
        },
    }
}

/// The records of a non-empty collection: each followed by a comma and
/// another record, or by the closing bracket.
pub open spec fn spec_parse_items(s: Seq<char>, i: int) -> Option<(Seq<TaskV>, int)>
    decreases s.len() - i,
{
    match spec_parse_task(s, i) {
        None => None,
        Some((v, j)) => if !(i < j && j < s.len()) {
            None
        } else if s[j] == ',' {
            match spec_parse_items(s, j + 1) {
                None => None,
                Some((vs, k)) => Some((seq![v] + vs, k)),
            }
        } else if s[j] == ']' {
            Some((seq![v], j + 1))
        } else {
            None
        },
    }
}

/// A whole collection: an empty pair of brackets, or a bracketed,
/// comma-separated run of records, with nothing after the close.
pub open spec fn spec_parse_tasks(s: Seq<char>) -> Option<Seq<TaskV>> {
    if s.len() >= 2 && s[0] == '[' && s[1] == ']' {
        if s.len() == 2 {
            Some(Seq::<TaskV>::empty())
        } else {
            None
        }
    } else if s.len() >= 1 && s[0] == '[' {
        match spec_parse_items(s, 1) {
            None => None,
            Some((vs, j)) => if j == s.len() {
                Some(vs)
            } else {
                None
            },
        }
    } else {
        None
    }
}

/// The one-character string for a control character code.
fn control_str(v: u32) -> (r: &'static str)
    requires
        v < 32,
    ensures
        r@ == seq![v as char],
{
    proof {
        reveal_strlit("\u{0}");
        reveal_strlit("\u{1}");
        reveal_strlit("\u{2}");
        reveal_strlit("\u{3}");
        reveal_strlit("\u{4}");
        reveal_strlit("\u{5}");
        reveal_strlit("\u{6}");
        reveal_strlit("\u{7}");
        reveal_strlit("\u{8}");
        reveal_strlit("\u{9}");
        reveal_strlit("\u{a}");
        reveal_strlit("\u{b}");
        reveal_strlit("\u{c}");
        reveal_strlit("\u{d}");
        reveal_strlit("\u{e}");
        reveal_strlit("\u{f}");
        reveal_strlit("\u{10}");
        reveal_strlit("\u{11}");
        reveal_strlit("\u{12}");
        reveal_strlit("\u{13}");
        reveal_strlit("\u{14}");
        reveal_strlit("\u{15}");
        reveal_strlit("\u{16}");
        reveal_strlit("\u{17}");
        reveal_strlit("\u{18}");
        reveal_strlit("\u{19}");
        reveal_strlit("\u{1a}");
        reveal_strlit("\u{1b}");
        reveal_strlit("\u{1c}");
        reveal_strlit("\u{1d}");
        reveal_strlit("\u{1e}");
        reveal_strlit("\u{1f}");
    }
    let r = match v {
        0 => "\u{0}",
        1 => "\u{1}",
        2 => "\u{2}",
        3 => "\u{3}",
        4 => "\u{4}",
        5 => "\u{5}",
        6 => "\u{6}",
        7 => "\u{7}",
        8 => "\u{8}",
        9 => "\u{9}",
        10 => "\u{a}",
        11 => "\u{b}",
        12 => "\u{c}",
        13 => "\u{d}",
        14 => "\u{e}",
        15 => "\u{f}",
        16 => "\u{10}",
        17 => "\u{11}",
        18 => "\u{12}",
        19 => "\u{13}",
        20 => "\u{14}",
        21 => "\u{15}",
        22 => "\u{16}",
        23 => "\u{17}",
        24 => "\u{18}",
        25 => "\u{19}",
        26 => "\u{1a}",
        27 => "\u{1b}",
        28 => "\u{1c}",
        29 => "\u{1d}",
        30 => "\u{1e}",
        _ => "\u{1f}",
    };
    proof {
        assert(r@ =~= seq![v as char]);
    }
    r
}

/// The value of a hexadecimal digit character, when it is one.
fn hex_val_of(c: char) -> (r: Option<u32>)
    ensures
        (r is Some) == spec_is_hex(c),
        r matches Some(v) ==> v == spec_hex_val(c),
{
    if '0' <= c && c <= '9' {
        Some(c as u32 - 48)
    } else if 'a' <= c && c <= 'f' {
        Some(c as u32 - 87)
    } else if 'A' <= c && c <= 'F' {
        Some(c as u32 - 55)
    } else {
        None
    }
}

/// Reads the literal `lit` at `i`.
fn expect_lit(s: &str, i: usize, lit: &str) -> (r: Option<usize>)
    requires
        i <= s@.len(),
    ensures
        (r is Some) == (spec_expect_lit(s@, i as int, lit@) is Some),
        r matches Some(j) ==> spec_expect_lit(s@, i as int, lit@) == Some(j as int),
{
    let n = s.unicode_len();
    let ll = lit.unicode_len();
    if ll > n - i {
        return None;
    }
    let mut k: usize = 0;
    while k < ll
        invariant
            k <= ll,
            i + ll <= n,
            n == s@.len(),
            ll == lit@.len(),
            forall|k2: int| 0 <= k2 < k ==> s@[i + k2] == lit@[k2],
        decreases ll - k,
    {
        if s.get_char(i + k) != lit.get_char(k) {
            proof {
                assert(s@.subrange(i as int, i + lit@.len() as int)[k as int] == s@[i + k]);
            }
            return None;
        }
        k = k + 1;
    }
    proof {
        assert(s@.subrange(i as int, i + lit@.len() as int) =~= lit@);
    }
    Some(i + ll)
}

/// The value of the digits from `i` up to `j` is non-negative and grows
/// with the run.
proof fn lemma_digits_value_mono(s: Seq<char>, i: int, k: int, j: int)
    requires
        i <= k <= j,
        forall|m: int| i <= m < j ==> spec_is_digit(#[trigger] s[m]),
    ensures
        spec_digits_value(s, i, j) >= spec_digits_value(s, i, k),
        spec_digits_value(s, i, k) >= 0,
    decreases j - k, k - i,
{
    if k == j {
        if i < k {
            lemma_digits_value_mono(s, i, k - 1, k - 1);
        }
    } else {
        lemma_digits_value_mono(s, i, k, j - 1);
        lemma_digits_value_mono(s, i, k, k);
    }
}

/// Reads a number at `i`.
fn parse_number(s: &str, i: usize) -> (r: Option<(usize, usize)>)
    requires
        i <= s@.len(),
    ensures
        (r is Some) == (spec_parse_number(s@, i as int) is Some),
        r matches Some(p) ==> spec_parse_number(s@, i as int) == Some((p.0 as int, p.1 as int)),
        r matches Some(p) ==> i <= p.1 <= s@.len(),
{
    let n = s.unicode_len();
    if i >= n {
        return None;
    }
    let c0 = s.get_char(i);
    if !('0' <= c0 && c0 <= '9') {
        return None;
    }
    if c0 == '0' {
        return Some((0, i + 1));
    }
    let mut j = i;
    let mut scanning = true;
    while scanning
        invariant
            i <= j <= n,
            n == s@.len(),
            spec_digits_end(s@, i as int) == spec_digits_end(s@, j as int),
            forall|m: int| i <= m < j ==> spec_is_digit(#[trigger] s@[m]),
            !scanning ==> (j == n || !spec_is_digit(s@[j as int])),
        decreases n - j + (if scanning {
            1int
        } else {
            0int
        }),
    {
        if j < n {
            let c = s.get_char(j);
            if '0' <= c && c <= '9' {
                j = j + 1;
            } else {
                scanning = false;
            }
        } else {
            scanning = false;
        }
    }
    proof {
        assert(spec_digits_end(s@, j as int) == j);
    }
    let mut acc: usize = 0;
    let mut m = i;
    while m < j
        invariant
            i <= m <= j <= n,
            i < n,
            n == s@.len(),
            spec_is_digit(s@[i as int]),
            s@[i as int] != '0',
            spec_digits_end(s@, i as int) == j,
            forall|k: int| i <= k < j ==> spec_is_digit(#[trigger] s@[k]),
            acc == spec_digits_value(s@, i as int, m as int),
        decreases j - m,
    {
        let c = s.get_char(m);
        proof {
            assert(spec_is_digit(s@[m as int]));
        }
        let d = (c as u32 - 48) as usize;
        if acc > (usize::MAX - d) / 10 {
            proof {
                assert(acc * 10 + d > usize::MAX) by (nonlinear_arith)
                    requires
                        acc > (usize::MAX - d) / 10,
                        d <= 9,
                        acc >= 0,
                ;
                assert(spec_digits_value(s@, i as int, m as int + 1) == acc * 10 + d);
                lemma_digits_value_mono(s@, i as int, m as int + 1, j as int);
            }
            return None;
        }
        proof {
            assert(acc * 10 + d <= usize::MAX) by (nonlinear_arith)
                requires
                    acc <= (usize::MAX - d) / 10,
                    d <= 9,
                    acc >= 0,
            ;
        }
        acc = acc * 10 + d;
        m = m + 1;
    }
    Some((acc, j))
}

/// Reads a quoted string's body at `i`, building the decoded text.
fn parse_string_body(s: &str, i: usize) -> (r: Option<(String, usize)>)
    requires
        i <= s@.len(),
    ensures
        (r is Some) == (spec_parse_string_body(s@, i as int) is Some),
        r matches Some(p) ==> spec_parse_string_body(s@, i as int) == Some((p.0@, p.1 as int)),
        r matches Some(p) ==> i <= p.1 <= s@.len(),
{
    proof {
        reveal_strlit("\"");
        reveal_strlit("\\");
        reveal_strlit("/");
        reveal_strlit("\n");
        reveal_strlit("\t");
        reveal_strlit("\r");
    }
    let n = s.unicode_len();
    let mut out = String::new();
    let mut cur = i;
    loop
        invariant
            i <= cur <= n,
            n == s@.len(),
            spec_parse_string_body(s@, i as int) == (match spec_parse_string_body(
                s@,
                cur as int,
            ) {
                Some((t, j)) => Some((out@ + t, j)),
                None => None::<(Seq<char>, int)>,
            }),
        decreases n - cur,
    {
        proof {
            reveal_strlit("\"");
            reveal_strlit("\\");
            reveal_strlit("/");
            reveal_strlit("\n");
            reveal_strlit("\t");
            reveal_strlit("\r");
        }
        if cur >= n {
            return None;
        }
        let c = s.get_char(cur);
        if c == '"' {
            proof {
                assert(out@ + Seq::<char>::empty() =~= out@);
            }
            return Some((out, cur + 1));
        }
        let ghost prev = out@;
        let ghost cur0 = cur as int;
        if c == '\\' {
            if cur + 1 >= n {
                return None;
            }
            let e = s.get_char(cur + 1);
            if e == '"' {
                out.append("\"");
                cur = cur + 2;
            } else if e == '\\' {
                out.append("\\");
                cur = cur + 2;
            } else if e == '/' {
                out.append("/");
                cur = cur + 2;
            } else if e == 'n' {
                out.append("\n");
                cur = cur + 2;
            } else if e == 't' {
                out.append("\t");
                cur = cur + 2;
            } else if e == 'r' {
                out.append("\r");
                cur = cur + 2;
            } else if e == 'b' {
                let cs = control_str(8);
                out.append(cs);
                cur = cur + 2;
            } else if e == 'f' {
                let cs = control_str(12);
                out.append(cs);
                cur = cur + 2;
            } else if e == 'u' {
                if n - cur < 6 {
                    return None;
                }
                let h2 = hex_val_of(s.get_char(cur + 2));
                let h3 = hex_val_of(s.get_char(cur + 3));
                let h4 = hex_val_of(s.get_char(cur + 4));
                let h5 = hex_val_of(s.get_char(cur + 5));
                match (h2, h3, h4, h5) {
                    (Some(v2), Some(v3), Some(v4), Some(v5)) => {
                        let v = v2 * 4096 + v3 * 256 + v4 * 16 + v5;
                        if v >= 32 {
                            return None;
                        }
                        let cs = control_str(v);
                        out.append(cs);
                        cur = cur + 6;
                    },
                    _ => {
                        return None;
                    },
                }
            } else {
                return None;
            }
        } else {
            out.append(s.substring_char(cur, cur + 1));
            proof {
                assert(s@.subrange(cur as int, cur as int + 1) =~= seq![s@[cur as int]]);
            }
            cur = cur + 1;
        }
        proof {
            assert(spec_parse_string_body(s@, cur0) == spec_cons_char(
                out@[prev.len() as int],
                spec_parse_string_body(s@, cur as int),
            ));
            assert(out@ =~= prev.push(out@[prev.len() as int]));
            match spec_parse_string_body(s@, cur as int) {
                Some((t, j)) => {
                    assert(prev + (seq![out@[prev.len() as int]] + t) =~= out@ + t);
                },
                None => {},
            }
        }
    }
}

/// Reads one record at `i`.
fn parse_task(s: &str, i: usize) -> (r: Option<(Task, usize)>)
    requires
        i <= s@.len(),
    ensures
        (r is Some) == (spec_parse_task(s@, i as int) is Some),
        r matches Some(p) ==> spec_parse_task(s@, i as int) == Some((p.0@, p.1 as int)),
        r matches Some(p) ==> spec_valid_date(p.0.date),
        r matches Some(p) ==> i <= p.1 <= s@.len(),
{
    let i1 = match expect_lit(s, i, "{\"id\":") {
        Some(j) => j,
        None => {
            return None;
        },
    };
    let (id, i2) = match parse_number(s, i1) {
        Some(p) => p,
        None => {
            return None;
        },
    };
    let i3 = match expect_lit(s, i2, ",\"task\":\"") {
        Some(j) => j,
        None => {
            return None;
        },
    };
    let (desc, i4) = match parse_string_body(s, i3) {
        Some(p) => p,
        None => {
            return None;
        },
    };
    let i5 = match expect_lit(s, i4, ",\"date\":\"") {
        Some(j) => j,
        None => {
            return None;
        },
    };
    let (ds, i6) = match parse_string_body(s, i5) {
        Some(p) => p,
        None => {
            return None;
        },
    };
    let date = match Date::parse_date_str(ds.as_str()) {
        Ok(d) => d,
        Err(_) => {
            return None;
        },
    };
    let i7 = match expect_lit(s, i6, ",\"done\":") {
        Some(j) => j,
        None => {
            return None;
        },
    };
    let (done, i8) = match expect_lit(s, i7, "true") {
        Some(j) => (true, j),
        None => match expect_lit(s, i7, "false") {
            Some(j) => (false, j),
            None => {
                return None;
            },
        },
    };
    match expect_lit(s, i8, "}") {
        Some(j) => {
            let t = Task { id, task: desc, date, done, reuse_by: None };
            return Some((t, j));
        },
        None => {},
    }
    let i9 = match expect_lit(s, i8, ",\"reuse_by\":") {
        Some(j) => j,
        None => {
            return None;
        },
    };
    match expect_lit(s, i9, "null") {
        Some(i10) => {
            match expect_lit(s, i10, "}") {
                Some(j) => {
                    let t = Task { id, task: desc, date, done, reuse_by: None };
                    Some((t, j))
                },
                None => None,
            }
        },
        None => {
            let (rb, i10) = match parse_number(s, i9) {
                Some(p) => p,
                None => {
                    return None;
                },
            };
            match expect_lit(s, i10, "}") {
                Some(j) => {
                    let t = Task { id, task: desc, date, done, reuse_by: Some(rb) };
                    Some((t, j))
                },
                None => None,
            }
        },
    }
}

/// Reads a whole collection, or reports it malformed.
pub fn parse_tasks(s: &str) -> (r: Option<Vec<Task>>)
    ensures
        (r is Some) == (spec_parse_tasks(s@) is Some),
        r matches Some(v) ==> spec_parse_tasks(s@) == Some(spec_views_of(v@)),
        r matches Some(v) ==> crate::task::spec_valid_dates(v@),
{
    proof {
        reveal_strlit("[");
        reveal_strlit("]");
    }
    let n = s.unicode_len();
    if n == 0 {
        return None;
    }
    if s.get_char(0) != '[' {
        return None;
    }
    if n >= 2 && s.get_char(1) == ']' {
        if n == 2 {
            let empty: Vec<Task> = Vec::new();
            proof {
                assert(spec_views_of(empty@) =~= Seq::<TaskV>::empty());
            }
            return Some(empty);
        } else {
            return None;
        }
    }
    let mut tasks: Vec<Task> = Vec::new();
    let mut cur: usize = 1;
    loop
        invariant
            1 <= cur <= n,
            n == s@.len(),
            n >= 1,
            s@[0] == '[',
            !(n >= 2 && s@[1] == ']'),
            crate::task::spec_valid_dates(tasks@),
            spec_parse_items(s@, 1) == (match spec_parse_items(s@, cur as int) {
                Some((vs, k)) => Some((spec_views_of(tasks@) + vs, k)),
                None => None::<(Seq<TaskV>, int)>,
            }),
        decreases n - cur,
    {
        let (t, j) = match parse_task(s, cur) {
            Some(p) => p,
            None => {
                return None;
            },
        };
        if !(cur < j && j < n) {
            return None;
        }
        let ghost prev = tasks@;
        let ghost tv = t@;
        tasks.push(t);
        proof {
            assert(spec_views_of(tasks@) =~= spec_views_of(prev).push(tv));
        }
        let cj = s.get_char(j);
        if cj == ',' {
            cur = j + 1;
            proof {
                match spec_parse_items(s@, cur as int) {
                    Some((vs, k)) => {
                        assert(spec_views_of(prev) + (seq![tv] + vs) =~= spec_views_of(tasks@)
                            + vs);
                    },
                    None => {},
                }
            }
        } else if cj == ']' {
            if j + 1 == n {
                proof {
                    assert(spec_views_of(prev) + seq![tv] =~= spec_views_of(tasks@));
                }
                return Some(tasks);
            } else {
                return None;
            }
        } else {
            return None;
        }
    }
}

/// The decimal numeral of a number is all digits, at least one, and has
/// no leading zero unless it is the numeral of zero itself.
proof fn lemma_dec_props(n: int)
    requires
        n >= 0,
    ensures
        spec_dec(n).len() >= 1,
        forall|k: int| 0 <= k < spec_dec(n).len() ==> spec_is_digit(#[trigger] spec_dec(n)[k]),
        n >= 1 ==> spec_dec(n)[0] != '0',
        n == 0 ==> spec_dec(n) == seq!['0'],
    decreases n,
{
    if n < 10 {
        assert(spec_dec(n) == seq![spec_digit_char(n)]);
    } else {
        lemma_dec_props(n / 10);
        let d = spec_dec(n);
        assert(d == spec_dec(n / 10).push(spec_digit_char(n % 10)));
        assert forall|k: int| 0 <= k < d.len() implies spec_is_digit(#[trigger] d[k]) by {
            if k < d.len() - 1 {
                assert(d[k] == spec_dec(n / 10)[k]);
            }
        }
        assert(d[0] == spec_dec(n / 10)[0]);
    }
}

/// Reading the digits of a numeral between `i` and `j` yields the number.
proof fn lemma_value_of_dec(s: Seq<char>, i: int, j: int, n: int)
    requires
        n >= 0,
        0 <= i <= j <= s.len(),
        s.subrange(i, j) == spec_dec(n),
    ensures
        spec_digits_value(s, i, j) == n,
    decreases n,
{
    lemma_dec_props(n);
    if n < 10 {
        assert(j - i == 1);
        assert(s[i] == s.subrange(i, j)[0]);
        assert(s[i] == spec_digit_char(n));
        assert(spec_digit_char(n) as int == n + 48);
        assert(spec_digit_val(s[i]) == n);
        assert(spec_digits_value(s, i, j) == spec_digits_value(s, i, i) * 10 + spec_digit_val(
            s[j - 1],
        ));
    } else {
        assert(spec_dec(n) == spec_dec(n / 10).push(spec_digit_char(n % 10)));
        lemma_dec_props(n / 10);
        assert(j - i == spec_dec(n).len());
        assert(s.subrange(i, j - 1) =~= spec_dec(n / 10)) by {
            assert forall|k: int| 0 <= k < j - 1 - i implies #[trigger] s.subrange(i, j - 1)[k]
                == spec_dec(n / 10)[k] by {
                assert(s.subrange(i, j)[k] == spec_dec(n)[k]);
            }
        }
        lemma_value_of_dec(s, i, j - 1, n / 10);
        assert(s[j - 1] == s.subrange(i, j)[j - 1 - i]);
        assert(s[j - 1] == spec_digit_char(n % 10));
        assert(spec_digits_value(s, i, j) == spec_digits_value(s, i, j - 1) * 10
            + spec_digit_val(s[j - 1]));
    }
}

/// A run of digits bounded by a non-digit (or the end) is exactly the run
/// the scanner finds.
proof fn lemma_digits_end_run(s: Seq<char>, i: int, j: int)
    requires
        0 <= i <= j <= s.len(),
        forall|k: int| i <= k < j ==> spec_is_digit(#[trigger] s[k]),
        j == s.len() || !spec_is_digit(s[j]),
    ensures
        spec_digits_end(s, i) == j,
    decreases j - i,
{
    if i < j {
        lemma_digits_end_run(s, i + 1, j);
    }
}

/// Reading a number at the start of a written numeral, with no digit
/// following it, yields the number and stops right after it.
proof fn lemma_parse_number_of_dec(s: Seq<char>, i: int, n: int)
    requires
        0 <= n <= usize::MAX,
        0 <= i,
        i + spec_dec(n).len() <= s.len(),
        s.subrange(i, i + spec_dec(n).len() as int) == spec_dec(n),
        i + spec_dec(n).len() == s.len() || !spec_is_digit(s[i + spec_dec(n).len()]),
    ensures
        spec_parse_number(s, i) == Some((n, i + spec_dec(n).len() as int)),
{
    lemma_dec_props(n);
    let l = spec_dec(n).len() as int;
    assert forall|k: int| i <= k < i + l implies spec_is_digit(#[trigger] s[k]) by {
        assert(s[k] == s.subrange(i, i + l)[k - i]);
    }
    assert(s[i] == s.subrange(i, i + l)[0]);
    if n == 0 {
        assert(s[i] == '0');
    } else {
        assert(s[i] != '0');
        lemma_digits_end_run(s, i, i + l);
        lemma_value_of_dec(s, i, i + l, n);
    }
}

/// Escaping leaves a text without quotes, backslashes or control
/// characters unchanged.
proof fn lemma_escape_plain(cs: Seq<char>)
    requires
        forall|k: int|
            0 <= k < cs.len() ==> (#[trigger] cs[k]) != '"' && cs[k] != '\\' && cs[k] as int
                >= 32,
    ensures
        spec_escape(cs) == cs,
    decreases cs.len(),
{
    if cs.len() > 0 {
        lemma_escape_plain(cs.skip(1));
        assert(spec_escape_char(cs[0]) == seq![cs[0]]);
        assert(spec_escape(cs) =~= cs);
    }
}

/// Reading a string body over an escaped text followed by a closing quote
/// yields the text and stops right after the quote.
proof fn lemma_parse_string_of_escape(s: Seq<char>, i: int, cs: Seq<char>)
    requires
        0 <= i,
        i + spec_escape(cs).len() + 1 <= s.len(),
        s.subrange(i, i + spec_escape(cs).len() as int) == spec_escape(cs),
        s[i + spec_escape(cs).len()] == '"',
    ensures
        spec_parse_string_body(s, i) == Some(
            (cs, i + spec_escape(cs).len() + 1),
        ),
    decreases cs.len(),
{
    let e = spec_escape(cs);
    if cs.len() == 0 {
        assert(s[i] == '"');
    } else {
        let c = cs[0];
        let e0 = spec_escape_char(c);
        let rest = cs.skip(1);
        let er = spec_escape(rest);
        assert(e == e0 + er);
        assert forall|k: int| 0 <= k < e0.len() implies s[i + k] == e0[k] by {
            assert(s[i + k] == s.subrange(i, i + e.len() as int)[k]);
        }
        let i2 = i + e0.len() as int;
        assert(s.subrange(i2, i2 + er.len() as int) =~= er) by {
            assert forall|k: int| 0 <= k < er.len() implies #[trigger] s.subrange(
                i2,
                i2 + er.len() as int,
            )[k] == er[k] by {
                assert(s[i2 + k] == s.subrange(i, i + e.len() as int)[e0.len() + k]);
            }
        }
        lemma_parse_string_of_escape(s, i2, rest);
        assert(seq![c] + rest =~= cs);
        if c == '"' {
            assert(s[i] == '\\' && s[i + 1] == '"');
        } else if c == '\\' {
            assert(s[i] == '\\' && s[i + 1] == '\\');
        } else if (c as int) < 32 {
            let hi = c as int / 16;
            let lo = c as int % 16;
            assert(e0 =~= seq!['\\', 'u', '0', '0', spec_hex_char(hi), spec_hex_char(lo)]);
            assert(e0.len() == 6);
            assert(s[i] == e0[0] && s[i + 1] == e0[1] && s[i + 2] == e0[2] && s[i + 3] == e0[3]
                && s[i + 4] == e0[4] && s[i + 5] == e0[5]);
            assert(s[i] == '\\' && s[i + 1] == 'u' && s[i + 2] == '0' && s[i + 3] == '0');
            assert(s[i + 4] == spec_hex_char(hi) && s[i + 5] == spec_hex_char(lo));
            lemma_char_bounds(c);
            assert(0 <= hi && hi < 2 && 0 <= lo && lo < 16) by (nonlinear_arith)
                requires
                    0 <= (c as int) && (c as int) < 32,
                    hi == c as int / 16,
                    lo == c as int % 16,
            ;
            assert(0 <= hi + 48 <= 57 && 0 <= lo + 48 && lo + 87 <= 102);
            assert(spec_hex_char(hi) as int == hi + 48);
            assert(lo < 10 ==> spec_hex_char(lo) as int == lo + 48);
            assert(lo >= 10 ==> spec_hex_char(lo) as int == lo + 87);
            assert(spec_is_hex('0') && spec_hex_val('0') == 0);
            assert(spec_is_hex(spec_hex_char(hi)) && spec_hex_val(spec_hex_char(hi)) == hi);
            assert(spec_is_hex(spec_hex_char(lo)) && spec_hex_val(spec_hex_char(lo)) == lo);
            assert(0 * 4096 + 0 * 256 + hi * 16 + lo == c as int);
            assert((c as int) as char == c);
        } else {
            assert(s[i] == c);
        }
    }
}

/// A subrange of a known subrange of `s` is the matching subrange of the
/// known text.
proof fn lemma_subrange_extract(s: Seq<char>, i: int, e: Seq<char>, a: int, b: int)
    requires
        0 <= i,
        i + e.len() <= s.len(),
        s.subrange(i, i + e.len() as int) == e,
        0 <= a <= b <= e.len(),
    ensures
        s.subrange(i + a, i + b) == e.subrange(a, b),
{
    assert forall|k: int| 0 <= k < b - a implies #[trigger] s.subrange(i + a, i + b)[k]
        == e.subrange(a, b)[k] by {
        assert(s[i + a + k] == s.subrange(i, i + e.len() as int)[a + k]);
    }
    assert(s.subrange(i + a, i + b) =~= e.subrange(a, b));
}

/// The requirements under which a task value can be written: its date is
/// a calendar date and its numbers fit the machine word.
pub open spec fn spec_encodable(v: TaskV) -> bool {
    spec_valid_date(v.date) && 0 <= v.id <= usize::MAX && (match v.reuse_by {
        Some(r) => 0 <= r <= usize::MAX,
        None => true,
    })
}

/// Reading a record at the start of its written form yields the record
/// back and stops right after it.
#[verifier::spinoff_prover]
#[verifier::rlimit(100)]
proof fn lemma_parse_task_of_encode(s: Seq<char>, i: int, v: TaskV)
    requires
        spec_encodable(v),
        0 <= i,
        i + spec_encode_task(v).len() <= s.len(),
        s.subrange(i, i + spec_encode_task(v).len() as int) == spec_encode_task(v),
    ensures
        spec_parse_task(s, i) == Some((v, i + spec_encode_task(v).len() as int)),
{
    reveal_strlit("{\"id\":");
    reveal_strlit(",\"task\":\"");
    reveal_strlit("\",\"date\":\"");
    reveal_strlit(",\"date\":\"");
    reveal_strlit("\",\"done\":");
    reveal_strlit(",\"done\":");
    reveal_strlit("true");
    reveal_strlit("false");
    reveal_strlit(",\"reuse_by\":");
    reveal_strlit("null");
    reveal_strlit("}");
    let e = spec_encode_task(v);
    let p1 = "{\"id\":"@;
    let d1 = spec_dec(v.id);
    let p2 = ",\"task\":\""@;
    let d2 = spec_escape(v.task);
    let p3 = "\",\"date\":\""@;
    let d3 = spec_date_chars(v.date);
    let p4 = "\",\"done\":"@;
    let d4: Seq<char> = if v.done {
        "true"@
    } else {
        "false"@
    };
    let p5 = ",\"reuse_by\":"@;
    let d5: Seq<char> = match v.reuse_by {
        Some(r) => spec_dec(r),
        None => "null"@,
    };
    let p6 = "}"@;
    assert(e == p1 + d1 + p2 + d2 + p3 + d3 + p4 + d4 + p5 + d5 + p6);
    lemma_dec_props(v.id);
    match v.reuse_by {
        Some(r) => {
            lemma_dec_props(r);
        },
        None => {},
    }
    let o1 = p1.len() as int;
    let o2 = o1 + d1.len();
    let o3 = o2 + p2.len();
    let o4 = o3 + d2.len();
    let o5 = o4 + p3.len();
    let o6 = o5 + d3.len();
    let o7 = o6 + p4.len();
    let o8 = o7 + d4.len();
    let o9 = o8 + p5.len();
    let o10 = o9 + d5.len();
    let o11 = o10 + p6.len();
    assert(e.len() == o11);
    assert forall|k: int| 0 <= k < e.len() implies s[i + k] == #[trigger] e[k] by {
        assert(s.subrange(i, i + e.len() as int)[k] == s[i + k]);
    }
    // the identifier
    lemma_subrange_extract(s, i, e, 0, o1);
    assert(e.subrange(0, o1) =~= p1);
    assert(spec_expect_lit(s, i, p1) == Some(i + o1));
    lemma_subrange_extract(s, i, e, o1, o2);
    assert(e.subrange(o1, o2) =~= d1);
    assert(s[i + o2] == e[o2] && e[o2] == p2[0] && p2[0] == ',');
    assert(!spec_is_digit(s[i + o2]));
    lemma_parse_number_of_dec(s, i + o1, v.id);
    // the description
    lemma_subrange_extract(s, i, e, o2, o3);
    assert(e.subrange(o2, o3) =~= p2);
    assert(spec_expect_lit(s, i + o2, p2) == Some(i + o3));
    lemma_subrange_extract(s, i, e, o3, o4);
    assert(e.subrange(o3, o4) =~= d2);
    assert(s[i + o4] == e[o4] && e[o4] == p3[0] && p3[0] == '"');
    lemma_parse_string_of_escape(s, i + o3, v.task);
    // the date, behind the comma that follows the closing quote
    lemma_subrange_extract(s, i, e, o4 + 1, o5);
    assert(e.subrange(o4 + 1, o5) =~= ",\"date\":\""@) by {
        assert forall|k: int| 0 <= k < o5 - o4 - 1 implies #[trigger] e.subrange(
            o4 + 1,
            o5,
        )[k] == ",\"date\":\""@[k] by {
            assert(e.subrange(o4 + 1, o5)[k] == p3[k + 1]);
        }
    }
    assert(spec_expect_lit(s, i + o4 + 1, ",\"date\":\""@) == Some(i + o5));
    lemma_subrange_extract(s, i, e, o5, o6);
    assert(e.subrange(o5, o6) =~= d3);
    assert forall|k: int|
        0 <= k < d3.len() implies (#[trigger] d3[k]) != '"' && d3[k] != '\\' && d3[k] as int
        >= 32 by {
        crate::date::lemma_date_chars_digits(v.date, k);
    }
    lemma_escape_plain(d3);
    assert(s[i + o6] == e[o6] && e[o6] == p4[0] && p4[0] == '"');
    lemma_parse_string_of_escape(s, i + o5, d3);
    crate::date::lemma_date_chars_parse(v.date);
    // the completion flag, behind the comma that follows the closing quote
    lemma_subrange_extract(s, i, e, o6 + 1, o7);
    assert(e.subrange(o6 + 1, o7) =~= ",\"done\":"@) by {
        assert forall|k: int| 0 <= k < o7 - o6 - 1 implies #[trigger] e.subrange(
            o6 + 1,
            o7,
        )[k] == ",\"done\":"@[k] by {
            assert(e.subrange(o6 + 1, o7)[k] == p4[k + 1]);
        }
    }
    assert(spec_expect_lit(s, i + o6 + 1, ",\"done\":"@) == Some(i + o7));
    lemma_subrange_extract(s, i, e, o7, o8);
    assert(e.subrange(o7, o8) =~= d4);
    if v.done {
        assert(spec_expect_lit(s, i + o7, "true"@) == Some(i + o8));
    } else {
        assert(spec_expect_lit(s, i + o7, "true"@) is None) by {
            if i + o7 + 4 <= s.len() {
                if s.subrange(i + o7, i + o7 + 4) == "true"@ {
                    assert(s.subrange(i + o7, i + o7 + 4)[0] == s[i + o7]);
                    assert(s[i + o7] == e[o7] && e[o7] == d4[0] && d4[0] == 'f');
                }
            }
        }
        assert(spec_expect_lit(s, i + o7, "false"@) == Some(i + o8));
    }
    assert(spec_parse_bool(s, i + o7) == Some((v.done, i + o8)));
    // the back-reference and the closing brace
    assert(s[i + o8] == e[o8] && e[o8] == p5[0] && p5[0] == ',');
    assert(spec_expect_lit(s, i + o8, "}"@) is None) by {
        if s.subrange(i + o8, i + o8 + 1) == "}"@ {
            assert(s.subrange(i + o8, i + o8 + 1)[0] == s[i + o8]);
        }
    }
    lemma_subrange_extract(s, i, e, o8, o9);
    assert(e.subrange(o8, o9) =~= p5);
    assert(spec_expect_lit(s, i + o8, p5) == Some(i + o9));
    lemma_subrange_extract(s, i, e, o9, o10);
    assert(e.subrange(o9, o10) =~= d5);
    lemma_subrange_extract(s, i, e, o10, o11);
    assert(e.subrange(o10, o11) =~= p6);
    assert(s[i + o10] == e[o10] && e[o10] == p6[0] && p6[0] == '}');
    assert(spec_expect_lit(s, i + o10, "}"@) == Some(i + o11));
    match v.reuse_by {
        Some(r) => {
            assert(spec_expect_lit(s, i + o9, "null"@) is None) by {
                if i + o9 + 4 <= s.len() {
                    if s.subrange(i + o9, i + o9 + 4) == "null"@ {
                        assert(s.subrange(i + o9, i + o9 + 4)[0] == s[i + o9]);
                        assert(s[i + o9] == e[o9] && e[o9] == d5[0]);
                        assert(spec_is_digit(d5[0]));
                    }
                }
            }
            assert(s[i + o10] == '}');
            assert(!spec_is_digit(s[i + o10]));
            lemma_parse_number_of_dec(s, i + o9, r);
            assert(spec_parse_reuse_and_close(s, i + o8, v.id, v.task, v.date, v.done)
                == Some((v, i + o11)));
        },
        None => {
            assert(spec_expect_lit(s, i + o9, "null"@) == Some(i + o10));
            assert(spec_parse_reuse_and_close(s, i + o8, v.id, v.task, v.date, v.done)
                == Some((v, i + o11)));
        },
    }
}

/// Every character value is a Unicode scalar, hence non-negative.
proof fn lemma_char_bounds(c: char)
    ensures
        0 <= c as int <= 0x10FFFF,
{
}


/// A written record is never empty and opens with its brace.
proof fn lemma_encode_task_starts(v: TaskV)
    ensures
        spec_encode_task(v).len() >= 1,
        spec_encode_task(v)[0] == '{',
{
    reveal_strlit("{\"id\":");
    let e = spec_encode_task(v);
    assert(e == "{\"id\":"@ + spec_dec(v.id) + ",\"task\":\""@ + spec_escape(v.task)
        + "\",\"date\":\""@ + spec_date_chars(v.date) + "\",\"done\":"@ + (if v.done {
        "true"@
    } else {
        "false"@
    }) + ",\"reuse_by\":"@ + (match v.reuse_by {
        Some(r) => spec_dec(r),
        None => "null"@,
    }) + "}"@);
    assert(e[0] == "{\"id\":"@[0]);
}

/// The written form of a collection decomposes at its first record.
#[verifier::spinoff_prover]
#[verifier::rlimit(100)]
proof fn lemma_encode_items_front(vs: Seq<TaskV>)
    requires
        vs.len() >= 2,
    ensures
        spec_encode_items(vs) == spec_encode_task(vs[0]) + ","@ + spec_encode_items(vs.skip(1)),
    decreases vs.len(),
{
    reveal_with_fuel(spec_encode_items, 3);
    if vs.len() == 2 {
        assert(vs.drop_last() =~= seq![vs[0]]);
        assert(vs.skip(1) =~= seq![vs[1]]);
        assert(vs.drop_last()[0] == vs[0]);
        assert(vs.skip(1)[0] == vs[1]);
        assert(spec_encode_items(vs) =~= spec_encode_task(vs[0]) + ","@ + spec_encode_items(
            vs.skip(1),
        ));
    } else {
        lemma_encode_items_front(vs.drop_last());
        assert(vs.drop_last().skip(1) =~= vs.skip(1).drop_last());
        assert(vs.drop_last()[0] == vs[0]);
        assert(vs.skip(1).last() == vs.last());
        assert(spec_encode_items(vs.skip(1)) == spec_encode_items(vs.skip(1).drop_last()) + ","@
            + spec_encode_task(vs.skip(1).last()));
        assert(spec_encode_items(vs) =~= spec_encode_task(vs[0]) + ","@ + spec_encode_items(
            vs.skip(1),
        ));
    }
}

/// Every task value of a collection can be written.
pub open spec fn spec_all_encodable(vs: Seq<TaskV>) -> bool {
    forall|k: int| 0 <= k < vs.len() ==> spec_encodable(#[trigger] vs[k])
}

/// Reading the records of a written collection, up to the closing
/// bracket that follows them, yields the collection back.
#[verifier::spinoff_prover]
proof fn lemma_parse_items_of_encode(s: Seq<char>, i: int, vs: Seq<TaskV>)
    requires
        vs.len() >= 1,
        spec_all_encodable(vs),
        0 <= i,
        i + spec_encode_items(vs).len() < s.len(),
        s.subrange(i, i + spec_encode_items(vs).len() as int) == spec_encode_items(vs),
        s[i + spec_encode_items(vs).len()] == ']',
    ensures
        spec_parse_items(s, i) == Some((vs, i + spec_encode_items(vs).len() + 1)),
    decreases vs.len(),
{
    reveal_strlit("{\"id\":");
    reveal_strlit(",");
    reveal_strlit("]");
    let e = spec_encode_items(vs);
    let e0 = spec_encode_task(vs[0]);
    assert forall|k: int| 0 <= k < e.len() implies s[i + k] == #[trigger] e[k] by {
        assert(s.subrange(i, i + e.len() as int)[k] == s[i + k]);
    }
    if vs.len() == 1 {
        assert(e == e0);
        lemma_parse_task_of_encode(s, i, vs[0]);
        let j = i + e0.len() as int;
        lemma_encode_task_starts(vs[0]);
        assert(s[j] == ']');
        assert(seq![vs[0]] =~= vs);
    } else {
        lemma_encode_items_front(vs);
        let er = spec_encode_items(vs.skip(1));
        assert(e == e0 + ","@ + er);
        lemma_subrange_extract(s, i, e, 0, e0.len() as int);
        assert(e.subrange(0, e0.len() as int) =~= e0);
        lemma_parse_task_of_encode(s, i, vs[0]);
        let j = i + e0.len() as int;
        assert(s[j] == e[e0.len() as int]);
        assert(e[e0.len() as int] == ","@[0]);
        lemma_encode_task_starts(vs[0]);
        lemma_subrange_extract(s, i, e, e0.len() as int + 1, e.len() as int);
        assert(e.subrange(e0.len() as int + 1, e.len() as int) =~= er);
        assert forall|k: int|
            0 <= k < vs.skip(1).len() implies spec_encodable(#[trigger] vs.skip(1)[k]) by {
            assert(vs.skip(1)[k] == vs[k + 1]);
        }
        lemma_parse_items_of_encode(s, j + 1, vs.skip(1));
        assert(seq![vs[0]] + vs.skip(1) =~= vs);
    }
}

/// Law: writing a collection and reading the text back reproduces the
/// collection exactly, absent back-references included, for collections
/// of any size whose records can be written at all.
pub proof fn lemma_encode_parse_round_trip(vs: Seq<TaskV>)
    requires
        spec_all_encodable(vs),
    ensures
        spec_parse_tasks(spec_encode_tasks(vs)) == Some(vs),
{
    reveal_strlit("[]");
    reveal_strlit("[");
    reveal_strlit("]");
    reveal_strlit("{\"id\":");
    let s = spec_encode_tasks(vs);
    if vs.len() == 0 {
        assert(s.len() == 2 && s[0] == '[' && s[1] == ']');
    } else {
        let items = spec_encode_items(vs);
        assert(s == "["@ + items + "]"@);
        assert(s[0] == '[');
        assert(items.len() >= 1) by {
            let e0 = spec_encode_task(vs[0]);
            if vs.len() == 1 {
                assert(items == e0);
            }
            lemma_encode_task_starts(vs[0]);
            if vs.len() >= 2 {
                lemma_encode_items_front(vs);
            }
        }
        assert(s[1] == items[0]);
        assert(items[0] == '{') by {
            let e0 = spec_encode_task(vs[0]);
            if vs.len() >= 2 {
                lemma_encode_items_front(vs);
            }
            assert(items[0] == e0[0]);
            assert(e0[0] == "{\"id\":"@[0]);
        }
        assert(s[1] != ']');
        assert(s.subrange(1, 1 + items.len() as int) =~= items);
        assert(s[1 + items.len() as int] == ']');
        lemma_parse_items_of_encode(s, 1, vs);
        assert(1 + items.len() + 1 == s.len());
    }
}

} // verus!
