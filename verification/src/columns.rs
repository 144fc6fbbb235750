//! What a query hands out of a JSON value: as a text, and as an integer.

use crate::json::{
    Json, JsonV, Member, MemberV, array_view, lemma_array, lemma_object, object_view,
};
use crate::names::{hex_char, hex_digit};
use crate::text::{char_code, chars_of, decimal, decimal_text, is_digit};
use vstd::prelude::*;

verus! {

/// A character as it stands in a JSON string.
pub open spec fn escaped(c: char) -> Seq<char> {
    if c == '"' {
        seq!['\\', '"']
    } else if c == '\\' {
        seq!['\\', '\\']
    } else if c == '\u{8}' {
        seq!['\\', 'b']
    } else if c == '\u{c}' {
        seq!['\\', 'f']
    } else if c == '\n' {
        seq!['\\', 'n']
    } else if c == '\r' {
        seq!['\\', 'r']
    } else if c == '\t' {
        seq!['\\', 't']
    } else if (c as int) < 32 {
        seq!['\\', 'u', '0', '0', hex_char(c as int / 16), hex_char(c as int % 16)]
    } else {
        seq![c]
    }
}

/// The characters of a text as they stand in a JSON string.
pub open spec fn all_escaped(s: Seq<char>) -> Seq<char>
    decreases s.len(),
{
    if s.len() == 0 {
        Seq::empty()
    } else {
        all_escaped(s.drop_last()) + escaped(s.last())
    }
}

/// A text as a JSON string.
pub open spec fn quoted(s: Seq<char>) -> Seq<char> {
    seq!['"'] + all_escaped(s) + seq!['"']
}

/// The first `n` values of an array, with commas between them.
pub open spec fn values_text(s: Seq<JsonV>, n: int) -> Seq<char>
    decreases s, n,
{
    if n <= 0 || n > s.len() {
        Seq::empty()
    } else if n == 1 {
        json_text(s[0])
    } else {
        values_text(s, n - 1) + seq![','] + json_text(s[n - 1])
    }
}

/// The first `n` members of an object, with commas between them.
pub open spec fn members_text(s: Seq<MemberV>, n: int) -> Seq<char>
    decreases s, n,
{
    if n <= 0 || n > s.len() {
        Seq::empty()
    } else if n == 1 {
        quoted(s[0].key) + seq![':'] + json_text(s[0].value)
    } else {
        members_text(s, n - 1) + seq![','] + (quoted(s[n - 1].key) + seq![':'] + json_text(
            s[n - 1].value,
        ))
    }
}

/// A value as JSON, without spaces.
pub open spec fn json_text(j: JsonV) -> Seq<char>
    decreases j, 0int,
{
    match j {
        JsonV::Null => "null"@,
        JsonV::Bool(b) => if b {
            "true"@
        } else {
            "false"@
        },
        JsonV::Int(n) => decimal(n),
        JsonV::Real(s) => s,
        JsonV::Text(s) => quoted(s),
        JsonV::Array(s) => seq!['['] + values_text(s, s.len() as int) + seq![']'],
        JsonV::Object(s) => seq!['{'] + members_text(s, s.len() as int) + seq!['}'],
    }
}

fn push_escaped(out: &mut String, c: char)
    ensures
        final(out)@ == old(out)@ + escaped(c),
{
    let ghost start = out@;
    let code: u32 = char_code(c);
    if c == '"' || c == '\\' {
        out.push('\\');
        out.push(c);
    } else if c == '\u{8}' {
        out.push('\\');
        out.push('b');
    } else if c == '\u{c}' {
        out.push('\\');
        out.push('f');
    } else if c == '\n' {
        out.push('\\');
        out.push('n');
    } else if c == '\r' {
        out.push('\\');
        out.push('r');
    } else if c == '\t' {
        out.push('\\');
        out.push('t');
    } else if code < 32 {
        let b: u8 = code as u8;
        out.push('\\');
        out.push('u');
        out.push('0');
        out.push('0');
        out.push(hex_digit(b / 16));
        out.push(hex_digit(b % 16));
    } else {
        out.push(c);
    }
    assert(out@ =~= start + escaped(c));
}

fn push_quoted(out: &mut String, s: &str)
    ensures
        final(out)@ == old(out)@ + quoted(s@),
{
    let ghost start = out@;
    let v: Vec<char> = chars_of(s);
    out.push('"');
    let mut i: usize = 0;
    assert(v@.take(0) =~= Seq::<char>::empty());
    assert(out@ =~= start + (seq!['"'] + all_escaped(v@.take(0))));
    while i < v.len()
        invariant
            i <= v@.len(),
            v@ == s@,
            out@ == start + (seq!['"'] + all_escaped(v@.take(i as int))),
        decreases v.len() - i,
    {
        let ghost t = v@.take(i as int + 1);
        assert(t.drop_last() =~= v@.take(i as int));
        push_escaped(out, v[i]);
        assert(out@ =~= start + (seq!['"'] + all_escaped(t)));
        i += 1;
    }
    assert(v@.take(v@.len() as int) =~= v@);
    out.push('"');
    assert(out@ =~= start + quoted(s@));
}

fn push_values(out: &mut String, v: &Vec<Json>)
    ensures
        final(out)@ == old(out)@ + values_text(array_view(v@), v@.len() as int),
    decreases v,
{
    let ghost start = out@;
    let ghost s = array_view(v@);
    assert(out@ =~= start + values_text(s, 0));
    for i in 0..v.len()
        invariant
            s == array_view(v@),
            out@ == start + values_text(s, i as int),
    {
        proof {
            assert(decreases_to!(v => v@[i as int]));
        }
        if i > 0 {
            out.push(',');
        }
        let ghost before = out@;
        push_json(out, &v[i]);
        assert(s[i as int] == v@[i as int]@);
        assert(out@ =~= start + values_text(s, i as int + 1));
    }
}

fn push_members(out: &mut String, v: &Vec<Member>)
    ensures
        final(out)@ == old(out)@ + members_text(object_view(v@), v@.len() as int),
    decreases v,
{
    let ghost start = out@;
    let ghost s = object_view(v@);
    assert(out@ =~= start + members_text(s, 0));
    for i in 0..v.len()
        invariant
            s == object_view(v@),
            out@ == start + members_text(s, i as int),
    {
        proof {
            assert(decreases_to!(v => v@[i as int]));
            assert(decreases_to!(v@[i as int] => v@[i as int].value));
        }
        if i > 0 {
            out.push(',');
        }
        push_quoted(out, v[i].key.as_str());
        out.push(':');
        push_json(out, &v[i].value);
        assert(s[i as int].key == v@[i as int].key@ && s[i as int].value == v@[i as int].value@);
        assert(out@ =~= start + members_text(s, i as int + 1));
    }
}

fn push_json(out: &mut String, j: &Json)
    ensures
        final(out)@ == old(out)@ + json_text(j@),
    decreases j,
{
    let ghost start = out@;
    match j {
        Json::Null => {
            out.append("null");
        },
        Json::Bool(b) => {
            if *b {
                out.append("true");
            } else {
                out.append("false");
            }
        },
        Json::Int(n) => {
            let s: String = decimal_text(*n);
            out.append(s.as_str());
        },
        Json::Real(s) => {
            out.append(s.as_str());
        },
        Json::Text(s) => {
            push_quoted(out, s.as_str());
        },
        Json::Array(v) => {
            proof {
                lemma_array(*v);
            }
            out.push('[');
            push_values(out, v);
            out.push(']');
        },
        Json::Object(v) => {
            proof {
                lemma_object(*v);
            }
            out.push('{');
            push_members(out, v);
            out.push('}');
        },
    }
    assert(out@ =~= start + json_text(j@));
}

/// Writes a value as JSON, without spaces.
pub fn write_json(j: &Json) -> (r: String)
    ensures
        r@ == json_text(j@),
{
    let mut out: String = String::new();
    push_json(&mut out, j);
    assert(out@ =~= json_text(j@));
    out
}

/// What a query that extracts a value as a text gives.
pub enum ColumnV {
    /// There is no value, or it is null.
    Absent,
    /// The value is a text, or an array or an object, which is given as JSON.
    Text(Seq<char>),
    /// The value is a number or a boolean.
    NotText,
}

/// What a query that extracts a value as a text gives.
pub open spec fn column(o: Option<JsonV>) -> ColumnV {
    match o {
        None => ColumnV::Absent,
        Some(JsonV::Null) => ColumnV::Absent,
        Some(JsonV::Text(s)) => ColumnV::Text(s),
        Some(JsonV::Array(s)) => ColumnV::Text(json_text(JsonV::Array(s))),
        Some(JsonV::Object(s)) => ColumnV::Text(json_text(JsonV::Object(s))),
        _ => ColumnV::NotText,
    }
}

/// What a query that extracts a value as a text gives.
#[derive(Debug)]
pub enum Column {
    Absent,
    Text(String),
    NotText,
}

impl View for Column {
    type V = ColumnV;

    open spec fn view(&self) -> ColumnV {
        match self {
            Column::Absent => ColumnV::Absent,
            Column::Text(s) => ColumnV::Text(s@),
            Column::NotText => ColumnV::NotText,
        }
    }
}

/// Reads a value as a query for a text does.
pub fn read_column(o: Option<&Json>) -> (r: Column)
    ensures
        r@ == column(
            match o {
                Some(j) => Some(j@),
                None => None,
            },
        ),
{
    match o {
        None => Column::Absent,
        Some(Json::Null) => Column::Absent,
        Some(Json::Text(s)) => Column::Text(s.clone()),
        Some(Json::Array(v)) => {
            proof {
                lemma_array(*v);
            }
            Column::Text(write_json(o.unwrap()))
        },
        Some(Json::Object(v)) => {
            proof {
                lemma_object(*v);
            }
            Column::Text(write_json(o.unwrap()))
        },
        _ => Column::NotText,
    }
}

/// Whether a query passes over a character before a number.
pub open spec fn is_blank(c: char) -> bool {
    c == ' ' || 9 <= c as int <= 13
}

/// A text without what a query passes over before a number.
pub open spec fn past_blanks(s: Seq<char>) -> Seq<char>
    decreases s.len(),
{
    if s.len() > 0 && is_blank(s[0]) {
        past_blanks(s.drop_first())
    } else {
        s
    }
}

/// A number with the digits that a text begins with appended to it.
pub open spec fn digits_appended(n: int, s: Seq<char>) -> int
    decreases s.len(),
{
    if s.len() > 0 && is_digit(s[0]) {
        digits_appended(n * 10 + (s[0] as int - 48), s.drop_first())
    } else {
        n
    }
}

/// The 64-bit integer that is nearest to a number.
pub open spec fn clamped(n: int) -> int {
    if n > i64::MAX {
        i64::MAX as int
    } else if n < i64::MIN {
        i64::MIN as int
    } else {
        n
    }
}

/// The integer that a text begins with, after blanks and a sign; zero where it begins with none.
pub open spec fn leading_integer(s: Seq<char>) -> int {
    let t = past_blanks(s);
    if t.len() > 0 && t[0] == '-' {
        clamped(-digits_appended(0, t.drop_first()))
    } else if t.len() > 0 && t[0] == '+' {
        clamped(digits_appended(0, t.drop_first()))
    } else {
        clamped(digits_appended(0, t))
    }
}

/// How many digits a text begins with.
pub open spec fn run(s: Seq<char>) -> int
    decreases s.len(),
{
    if s.len() > 0 && is_digit(s[0]) {
        1 + run(s.drop_first())
    } else {
        0
    }
}

/// An exponent, of which no more counts than a number that is kept can have.
pub open spec fn bounded_exponent(n: int) -> int {
    if n > 400 {
        400
    } else {
        n
    }
}

/// The exponent that a text begins with; zero where it begins with none.
pub open spec fn exponent(s: Seq<char>) -> int {
    if s.len() > 0 && (s[0] == 'e' || s[0] == 'E') {
        let t = s.drop_first();
        if t.len() > 0 && t[0] == '-' {
            -bounded_exponent(digits_appended(0, t.drop_first()))
        } else if t.len() > 0 && t[0] == '+' {
            bounded_exponent(digits_appended(0, t.drop_first()))
        } else {
            bounded_exponent(digits_appended(0, t))
        }
    } else {
        0
    }
}

/// The digits before the decimal point, once it has been moved to the right by some places.
pub open spec fn shifted(whole: Seq<char>, fraction: Seq<char>, places: int) -> Seq<char> {
    let n = whole.len() + places;
    Seq::new(
        if n <= 0 {
            0
        } else {
            n as nat
        },
        |i: int|
            if i < whole.len() {
                whole[i]
            } else if i < whole.len() + fraction.len() {
                fraction[i - whole.len()]
            } else {
                '0'
            },
    )
}

/// The integer part of a decimal number without a sign.
pub open spec fn integer_part(s: Seq<char>) -> int {
    let whole = s.take(run(s));
    let rest = s.skip(run(s));
    if rest.len() > 0 && rest[0] == '.' {
        let t = rest.drop_first();
        digits_appended(0, shifted(whole, t.take(run(t)), exponent(t.skip(run(t)))))
    } else {
        digits_appended(0, shifted(whole, Seq::empty(), exponent(rest)))
    }
}

/// The distance between doubles around a number below 2^63.
pub open spec fn double_step(n: int) -> int {
    if n < 0x20_0000_0000_0000 {
        1
    } else if n < 0x40_0000_0000_0000 {
        2
    } else if n < 0x80_0000_0000_0000 {
        4
    } else if n < 0x100_0000_0000_0000 {
        8
    } else if n < 0x200_0000_0000_0000 {
        16
    } else if n < 0x400_0000_0000_0000 {
        32
    } else if n < 0x800_0000_0000_0000 {
        64
    } else if n < 0x1000_0000_0000_0000 {
        128
    } else if n < 0x2000_0000_0000_0000 {
        256
    } else if n < 0x4000_0000_0000_0000 {
        512
    } else {
        1024
    }
}

/// The double that is nearest to a number below 2^63; of two, the even one.
pub open spec fn nearest_double(n: int) -> int {
    let step = double_step(n);
    let over = n % step;
    if 2 * over < step || (2 * over == step && n / step % 2 == 0) {
        n - over
    } else {
        n - over + step
    }
}

/// The 64-bit integer that a number in decimal notation is cast to: it is read as a double, and what
/// follows the decimal point is cut off.
pub open spec fn real_integer(s: Seq<char>) -> int {
    let minus = s.len() > 0 && s[0] == '-';
    let n = integer_part(
        if minus {
            s.drop_first()
        } else {
            s
        },
    );
    let m = if n < 0x8000_0000_0000_0000 {
        nearest_double(n)
    } else {
        n
    };
    clamped(
        if minus {
            -m
        } else {
            m
        },
    )
}

/// What a query that extracts a value and casts it to an integer gives: nothing where there is no
/// value.
pub open spec fn integer_column(o: Option<JsonV>) -> Option<int> {
    match o {
        None => None,
        Some(JsonV::Null) => None,
        Some(JsonV::Bool(b)) => if b {
            Some(1)
        } else {
            Some(0)
        },
        Some(JsonV::Int(n)) => Some(n),
        Some(JsonV::Real(s)) => Some(real_integer(s)),
        Some(JsonV::Text(s)) => Some(leading_integer(s)),
        Some(JsonV::Array(_)) => Some(0),
        Some(JsonV::Object(_)) => Some(0),
    }
}

proof fn lemma_appended_grows(n: int, s: Seq<char>)
    requires
        n >= 0,
    ensures
        digits_appended(n, s) >= n,
    decreases s.len(),
{
    if s.len() > 0 && is_digit(s[0]) {
        lemma_appended_grows(n * 10 + (s[0] as int - 48), s.drop_first());
    }
}

/// Reads the digits from a position on as a number. One that is too large is only told to be so.
fn read_digits(v: &Vec<char>, from: usize) -> (r: u64)
    requires
        from <= v@.len(),
    ensures
        r <= 0x8000_0000_0000_0000 ==> r == digits_appended(0, v@.skip(from as int)),
        r > 0x8000_0000_0000_0000 ==> digits_appended(0, v@.skip(from as int))
            > 0x8000_0000_0000_0000,
{
    let ghost whole = digits_appended(0, v@.skip(from as int));
    let mut n: u64 = 0;
    let mut i: usize = from;
    while i < v.len()
        invariant
            from <= i <= v@.len(),
            n <= 0x8000_0000_0000_0000,
            digits_appended(n as int, v@.skip(i as int)) == whole,
            whole == digits_appended(0, v@.skip(from as int)),
        decreases v.len() - i,
    {
        let ghost t = v@.skip(i as int);
        let code: u32 = char_code(v[i]);
        assert(t[0] == v@[i as int]);
        assert(t.drop_first() =~= v@.skip(i as int + 1));
        if code < 48 || code > 57 {
            return n;
        }
        let d: u64 = (code - 48) as u64;
        if n > 922337203685477580 || n * 10 + d > 0x8000_0000_0000_0000 {
            proof {
                lemma_appended_grows(n * 10 + d, t.drop_first());
            }
            return 0x8000_0000_0000_0001;
        }
        n = n * 10 + d;
        i += 1;
    }
    assert(v@.skip(i as int) =~= Seq::<char>::empty());
    n
}

/// Reads the integer that a text begins with.
pub fn read_leading_integer(s: &str) -> (r: i64)
    ensures
        r == leading_integer(s@),
{
    let v: Vec<char> = chars_of(s);
    let mut i: usize = 0;
    assert(v@.skip(0) =~= v@);
    while i < v.len() && (v[i] == ' ' || (9 <= char_code(v[i]) && char_code(v[i]) <= 13))
        invariant
            i <= v@.len(),
            v@ == s@,
            past_blanks(v@.skip(i as int)) == past_blanks(s@),
        decreases v.len() - i,
    {
        assert(v@.skip(i as int).drop_first() =~= v@.skip(i as int + 1));
        i += 1;
    }
    let ghost t = v@.skip(i as int);
    assert(t == past_blanks(s@));
    let minus: bool = i < v.len() && v[i] == '-';
    let plus: bool = i < v.len() && v[i] == '+';
    if minus || plus {
        assert(t.drop_first() =~= v@.skip(i as int + 1));
        i += 1;
    }
    let n: u64 = read_digits(&v, i);
    if minus {
        if n >= 0x8000_0000_0000_0000 {
            i64::MIN
        } else {
            -(n as i64)
        }
    } else if n >= 0x8000_0000_0000_0000 {
        i64::MAX
    } else {
        n as i64
    }
}

fn end_of_run(v: &Vec<char>, from: usize) -> (r: usize)
    requires
        from <= v@.len(),
    ensures
        from <= r <= v@.len(),
        r - from == run(v@.skip(from as int)),
{
    let ghost whole = run(v@.skip(from as int));
    let mut i: usize = from;
    while i < v.len()
        invariant
            from <= i <= v@.len(),
            i - from + run(v@.skip(i as int)) == whole,
            whole == run(v@.skip(from as int)),
        decreases v.len() - i,
    {
        let ghost t = v@.skip(i as int);
        let code: u32 = char_code(v[i]);
        assert(t[0] == v@[i as int]);
        assert(t.drop_first() =~= v@.skip(i as int + 1));
        if code < 48 || code > 57 {
            return i;
        }
        i += 1;
    }
    assert(v@.skip(i as int) =~= Seq::<char>::empty());
    i
}

fn read_exponent(v: &Vec<char>, from: usize) -> (r: i128)
    requires
        from <= v@.len(),
    ensures
        r == exponent(v@.skip(from as int)),
        r <= 400,
        r >= -400,
{
    let ghost s = v@.skip(from as int);
    if from >= v.len() || (v[from] != 'e' && v[from] != 'E') {
        return 0;
    }
    let mut i: usize = from + 1;
    assert(s.drop_first() =~= v@.skip(i as int));
    let minus: bool = i < v.len() && v[i] == '-';
    let plus: bool = i < v.len() && v[i] == '+';
    if minus || plus {
        assert(v@.skip(i as int).drop_first() =~= v@.skip(i as int + 1));
        i += 1;
    }
    proof {
        lemma_appended_grows(0, v@.skip(i as int));
    }
    let n: u64 = read_digits(v, i);
    let m: i128 = if n > 400 {
        400
    } else {
        n as i128
    };
    if minus {
        -m
    } else {
        m
    }
}

fn shift_digits(v: &Vec<char>, whole: usize, whole_end: usize, part: usize, part_end: usize, places: i128) -> (r:
    Vec<char>)
    requires
        whole <= whole_end <= v@.len(),
        part <= part_end <= v@.len(),
        -400 <= places <= 400,
    ensures
        r@ == shifted(
            v@.subrange(whole as int, whole_end as int),
            v@.subrange(part as int, part_end as int),
            places as int,
        ),
{
    let ghost a = v@.subrange(whole as int, whole_end as int);
    let ghost b = v@.subrange(part as int, part_end as int);
    let ghost want = shifted(a, b, places as int);
    let n: i128 = (whole_end - whole) as i128 + places;
    let first: i128 = (whole_end - whole) as i128;
    let second: i128 = first + (part_end - part) as i128;
    let mut out: Vec<char> = Vec::new();
    let mut i: i128 = 0;
    while i < n
        invariant
            whole <= whole_end <= v@.len(),
            part <= part_end <= v@.len(),
            a == v@.subrange(whole as int, whole_end as int),
            b == v@.subrange(part as int, part_end as int),
            want == shifted(a, b, places as int),
            first == whole_end - whole,
            second == first + part_end - part,
            n == first + places,
            0 <= i,
            i <= n || n < 0,
            i > 0 ==> i <= n,
            out@.len() == i,
            forall|k: int| 0 <= k < i ==> #[trigger] out@[k] == want[k],
        decreases n - i,
    {
        let c: char = if i < first {
            v[whole + i as usize]
        } else if i < second {
            v[part + (i - first) as usize]
        } else {
            '0'
        };
        assert(c == want[i as int]);
        out.push(c);
        i += 1;
    }
    assert(out@ =~= want);
    out
}

fn step_around(n: u64) -> (r: u64)
    ensures
        r == double_step(n as int),
        1 <= r <= 1024,
{
    if n < 0x20_0000_0000_0000 {
        1
    } else if n < 0x40_0000_0000_0000 {
        2
    } else if n < 0x80_0000_0000_0000 {
        4
    } else if n < 0x100_0000_0000_0000 {
        8
    } else if n < 0x200_0000_0000_0000 {
        16
    } else if n < 0x400_0000_0000_0000 {
        32
    } else if n < 0x800_0000_0000_0000 {
        64
    } else if n < 0x1000_0000_0000_0000 {
        128
    } else if n < 0x2000_0000_0000_0000 {
        256
    } else if n < 0x4000_0000_0000_0000 {
        512
    } else {
        1024
    }
}

/// Reads the 64-bit integer that a number in decimal notation is cast to.
pub fn read_real_integer(s: &str) -> (r: i64)
    ensures
        r == real_integer(s@),
{
    let v: Vec<char> = chars_of(s);
    let minus: bool = v.len() > 0 && v[0] == '-';
    let from: usize = if minus {
        1
    } else {
        0
    };
    let ghost t = v@.skip(from as int);
    proof {
        assert(v@.skip(0) =~= v@);
        if minus {
            assert(t =~= s@.drop_first());
        }
    }
    let end: usize = end_of_run(&v, from);
    assert(t.take(run(t)) =~= v@.subrange(from as int, end as int));
    assert(t.skip(run(t)) =~= v@.skip(end as int));
    let digits: Vec<char> = if end < v.len() && v[end] == '.' {
        let part: usize = end + 1;
        let part_end: usize = end_of_run(&v, part);
        let places: i128 = read_exponent(&v, part_end);
        let out: Vec<char> = shift_digits(&v, from, end, part, part_end, places);
        proof {
            let u = t.skip(run(t)).drop_first();
            assert(u =~= v@.skip(part as int));
            assert(u.take(run(u)) =~= v@.subrange(part as int, part_end as int));
            assert(u.skip(run(u)) =~= v@.skip(part_end as int));
        }
        out
    } else {
        let places: i128 = read_exponent(&v, end);
        let out: Vec<char> = shift_digits(&v, from, end, end, end, places);
        assert(v@.subrange(end as int, end as int) =~= Seq::<char>::empty());
        out
    };
    assert(digits@.skip(0) =~= digits@);
    proof {
        lemma_appended_grows(0, digits@);
    }
    let n: u64 = read_digits(&digits, 0);
    assert(n <= 0x8000_0000_0000_0000 ==> n == integer_part(t));
    if n >= 0x8000_0000_0000_0000 {
        return if minus {
            i64::MIN
        } else {
            i64::MAX
        };
    }
    let step: u64 = step_around(n);
    let over: u64 = n % step;
    let m: u64 = if 2 * over < step || (2 * over == step && n / step % 2 == 0) {
        n - over
    } else {
        n - over + step
    };
    assert(m == nearest_double(n as int));
    if minus {
        if m >= 0x8000_0000_0000_0000 {
            i64::MIN
        } else {
            -(m as i64)
        }
    } else if m >= 0x8000_0000_0000_0000 {
        i64::MAX
    } else {
        m as i64
    }
}

/// Reads a value as a query that casts it to an integer does.
pub fn read_integer_column(o: Option<&Json>) -> (r: Option<i64>)
    ensures
        crate::store::opt_id(r) == integer_column(
            match o {
                Some(j) => Some(j@),
                None => None,
            },
        ),
{
    match o {
        None => None,
        Some(Json::Null) => None,
        Some(Json::Bool(b)) => if *b {
            Some(1)
        } else {
            Some(0)
        },
        Some(Json::Int(n)) => Some(*n),
        Some(Json::Real(s)) => Some(read_real_integer(s.as_str())),
        Some(Json::Text(s)) => Some(read_leading_integer(s.as_str())),
        Some(Json::Array(_)) => Some(0),
        Some(Json::Object(_)) => Some(0),
    }
}

/// Whether a character stands for itself in a JSON string.
pub open spec fn stands_for_itself(c: char) -> bool {
    c as int >= 32 && c != '"' && c != '\\'
}

proof fn lemma_plain(s: Seq<char>)
    requires
        forall|i: int| 0 <= i < s.len() ==> stands_for_itself(#[trigger] s[i]),
    ensures
        all_escaped(s) == s,
    decreases s.len(),
{
    if s.len() > 0 {
        assert forall|i: int| 0 <= i < s.drop_last().len() implies stands_for_itself(#[trigger] s.drop_last()[i]) by {
            assert(stands_for_itself(s[i]));
        }
        lemma_plain(s.drop_last());
        assert(stands_for_itself(s[s.len() - 1]));
        assert(s =~= s.drop_last() + seq![s.last()]);
    } else {
        assert(all_escaped(s) =~= s);
    }
}

/// Values are written as JSON has them: the words for null and the booleans, numbers in decimal, texts
/// in quotes with what needs it escaped.
pub proof fn values_are_written_as_json(j: Json, r: String)
    requires
        call_ensures(write_json, (&j,), r),
    ensures
        j is Null ==> r@ == "null"@,
        j == Json::Bool(true) ==> r@ == "true"@,
        j == Json::Bool(false) ==> r@ == "false"@,
        j matches Json::Int(n) ==> r@ == decimal(n as int),
        j matches Json::Real(s) ==> r@ == s@,
        j matches Json::Text(s) ==> ((forall|i: int| 0 <= i < s@.len() ==> stands_for_itself(#[trigger] s@[i])) ==> r@ == seq!['"'] + s@ + seq!['"']),
        j matches Json::Text(s) ==> r@.len() >= 2 && r@[0] == '"' && r@.last() == '"',
        j matches Json::Array(v) ==> (v@.len() == 0 ==> r@ == seq!['[', ']']),
        j matches Json::Object(v) ==> (v@.len() == 0 ==> r@ == seq!['{', '}']),
{
    if let Json::Text(s) = j {
        if forall|i: int| 0 <= i < s@.len() ==> stands_for_itself(#[trigger] s@[i]) {
            lemma_plain(s@);
        }
    }
    if let Json::Array(v) = j {
        lemma_array(v);
        if v@.len() == 0 {
            assert(r@ =~= seq!['[', ']']);
        }
    }
    if let Json::Object(v) = j {
        lemma_object(v);
        if v@.len() == 0 {
            assert(r@ =~= seq!['{', '}']);
        }
    }
}

/// The characters that JSON cannot hold as they are stand behind a backslash.
pub proof fn special_characters_are_escaped(j: Json, r: String, c: char)
    requires
        call_ensures(write_json, (&j,), r),
        j matches Json::Text(s) && s@ == seq![c],
    ensures
        c == '"' ==> r@ == seq!['"', '\\', '"', '"'],
        c == '\\' ==> r@ == seq!['"', '\\', '\\', '"'],
        c == '\n' ==> r@ == seq!['"', '\\', 'n', '"'],
        c == '\r' ==> r@ == seq!['"', '\\', 'r', '"'],
        c == '\t' ==> r@ == seq!['"', '\\', 't', '"'],
        c == '\u{8}' ==> r@ == seq!['"', '\\', 'b', '"'],
        c == '\u{c}' ==> r@ == seq!['"', '\\', 'f', '"'],
        (c as int) < 32 && c != '\n' && c != '\r' && c != '\t' && c != '\u{8}' && c != '\u{c}' ==> r@ == seq!['"', '\\', 'u', '0', '0', hex_char(c as int / 16), hex_char(c as int % 16), '"'],
        stands_for_itself(c) ==> r@ == seq!['"', c, '"'],
{
    let s = seq![c];
    assert(s.drop_last() =~= Seq::<char>::empty());
    reveal_with_fuel(all_escaped, 2);
    assert(all_escaped(s) =~= escaped(c));
    assert(r@ =~= seq!['"'] + escaped(c) + seq!['"']);
}

/// A list and an object are written with what they hold, with commas between and a colon behind each key.
pub proof fn lists_are_written_with_commas(a: Json, b: Json, wa: String, wb: String, pair: Vec<Json>, wp: String, ms: Vec<Member>, wo: String)
    requires
        call_ensures(write_json, (&a,), wa),
        call_ensures(write_json, (&b,), wb),
        pair@ == seq![a, b],
        call_ensures(write_json, (&Json::Array(pair),), wp),
        ms@.len() == 1 && ms@[0].value == a && (forall|i: int| 0 <= i < ms@[0].key@.len() ==> stands_for_itself(#[trigger] ms@[0].key@[i])),
        call_ensures(write_json, (&Json::Object(ms),), wo),
    ensures
        wp@ == seq!['['] + wa@ + seq![','] + wb@ + seq![']'],
        wo@ == seq!['{', '"'] + ms@[0].key@ + seq!['"', ':'] + wa@ + seq!['}'],
{
    lemma_array(pair);
    lemma_object(ms);
    let vs = array_view(pair@);
    assert(vs.len() == 2 && vs[0] == a@ && vs[1] == b@);
    assert(values_text(vs, 1) == json_text(vs[0]));
    assert(values_text(vs, 2) == values_text(vs, 1) + seq![','] + json_text(vs[1]));
    assert(wp@ =~= seq!['['] + wa@ + seq![','] + wb@ + seq![']']);
    let os = object_view(ms@);
    assert(os.len() == 1 && os[0].key == ms@[0].key@ && os[0].value == a@);
    lemma_plain(ms@[0].key@);
    assert(members_text(os, 1) == quoted(os[0].key) + seq![':'] + json_text(os[0].value));
    assert(wo@ =~= seq!['{', '"'] + ms@[0].key@ + seq!['"', ':'] + wa@ + seq!['}']);
}

/// As a text, a query gives a text as it is, a list or an object as it is written, nothing for null, and
/// no text for a number or a boolean; as a number, it gives a number, one or zero for a boolean, zero for
/// a list or an object, and nothing for null.
pub proof fn queries_give_what_is_there(j: Json, r: Column, none: Column, n: Option<i64>, written: String)
    requires
        call_ensures(read_column, (Some(&j),), r),
        call_ensures(read_column, (None::<&Json>,), none),
        call_ensures(read_integer_column, (Some(&j),), n),
        call_ensures(write_json, (&j,), written),
    ensures
        none is Absent,
        r is Absent <==> j is Null,
        j matches Json::Text(s) ==> (r matches Column::Text(t) && t@ == s@),
        j is Array || j is Object ==> (r matches Column::Text(t) && t@ == written@),
        j is Bool || j is Int || j is Real ==> r is NotText,
        j is Null ==> n is None,
        j matches Json::Int(k) ==> n == Some(k),
        j matches Json::Bool(b) ==> n == Some(if b { 1i64 } else { 0i64 }),
        j is Array || j is Object ==> n == Some(0i64),
{
    if let Json::Array(v) = j {
        lemma_array(v);
    }
    if let Json::Object(v) = j {
        lemma_object(v);
    }
}

proof fn lemma_blanks(s: Seq<char>, blanks: Seq<char>)
    requires
        forall|i: int| 0 <= i < blanks.len() ==> (#[trigger] blanks[i]) == ' ',
        s.len() > 0 && !is_blank(s[0]),
    ensures
        past_blanks(blanks + s) == s,
    decreases blanks.len(),
{
    if blanks.len() > 0 {
        assert((blanks + s)[0] == blanks[0]);
        assert((blanks + s).drop_first() =~= blanks.drop_first() + s);
        lemma_blanks(s, blanks.drop_first());
    } else {
        assert(blanks + s =~= s);
    }
}

/// A text that begins with a number stands for it, after blanks, and whatever follows; one that does not
/// stands for zero.
pub proof fn texts_stand_for_the_number_they_begin_with(s: &str, r: i64, blanks: Seq<char>, d: char, rest: Seq<char>)
    requires
        call_ensures(read_leading_integer, (s,), r),
        forall|i: int| 0 <= i < blanks.len() ==> (#[trigger] blanks[i]) == ' ',
        is_digit(d),
        rest.len() == 0 || !is_digit(rest[0]),
    ensures
        s@ == blanks + seq![d] + rest ==> r == d as int - 48,
        s@ == blanks + seq!['-', d] + rest ==> r == -(d as int - 48),
        s@ == blanks + seq!['+', d] + rest ==> r == d as int - 48,
        s@.len() == 0 ==> r == 0,
        s@.len() > 0 && !is_blank(s@[0]) && !is_digit(s@[0]) && s@[0] != '-' && s@[0] != '+' ==> r == 0,
{
    reveal_with_fuel(digits_appended, 3);
    let plain = seq![d] + rest;
    assert(plain.drop_first() =~= rest);
    lemma_blanks(plain, blanks);
    assert(blanks + seq![d] + rest =~= blanks + plain);
    let minus = seq!['-', d] + rest;
    assert(minus.drop_first() =~= plain);
    lemma_blanks(minus, blanks);
    assert(blanks + seq!['-', d] + rest =~= blanks + minus);
    let plus = seq!['+', d] + rest;
    assert(plus.drop_first() =~= plain);
    lemma_blanks(plus, blanks);
    assert(blanks + seq!['+', d] + rest =~= blanks + plus);
    assert(digits_appended(0, plain) == digits_appended(d as int - 48, rest));
}

} // verus!
