//! Character-level helpers over `str` and `String`, specified by `Seq<char>`.

use vstd::prelude::*;

verus! {

broadcast use vstd::string::group_string_axioms;

/// `std::string::String::push`: appends one character.
pub assume_specification[ String::push ](s: &mut String, c: char)
    ensures
        final(s)@ == old(s)@.push(c),
;

/// The characters of an optional text.
pub open spec fn opt_text(o: Option<String>) -> Option<Seq<char>> {
    match o {
        Some(s) => Some(s@),
        None => None,
    }
}

/// The characters of an optional borrowed text.
pub open spec fn opt_str(o: Option<&str>) -> Option<Seq<char>> {
    match o {
        Some(s) => Some(s@),
        None => None,
    }
}

/// The characters of each text of a list.
pub open spec fn texts(v: Seq<String>) -> Seq<Seq<char>> {
    Seq::new(v.len(), |i: int| v[i]@)
}

/// Extending a list of texts extends its view.
pub proof fn lemma_texts_push(v: Seq<String>, s: String)
    ensures
        texts(v.push(s)) == texts(v).push(s@),
{
    assert(texts(v.push(s)) =~= texts(v).push(s@));
}

/// Whether two strings hold the same characters.
pub fn same(a: &str, b: &str) -> (r: bool)
    ensures
        r == (a@ == b@),
{
    let x: String = a.to_owned();
    let y: String = b.to_owned();
    x == y
}

/// Whether an optional text is present and equal to `b`.
pub fn same_opt(a: Option<&str>, b: &str) -> (r: bool)
    ensures
        r == (opt_str(a) == Some(b@)),
{
    match a {
        Some(s) => same(s, b),
        None => false,
    }
}

/// The borrowed form of an optional text.
pub fn as_opt_str(o: &Option<String>) -> (r: Option<&str>)
    ensures
        opt_str(r) == opt_text(*o),
{
    match o {
        Some(s) => Some(s.as_str()),
        None => None,
    }
}

/// An owned copy of an optional text.
pub fn own_opt(o: Option<&str>) -> (r: Option<String>)
    ensures
        opt_text(r) == opt_str(o),
{
    match o {
        Some(s) => Some(s.to_owned()),
        None => None,
    }
}

/// A copy of an optional text.
pub fn copy_opt(o: &Option<String>) -> (r: Option<String>)
    ensures
        opt_text(r) == opt_text(*o),
{
    match o {
        Some(s) => Some(s.clone()),
        None => None,
    }
}

/// A copy of a list of texts.
pub fn copy_texts(v: &Vec<String>) -> (r: Vec<String>)
    ensures
        texts(r@) == texts(v@),
{
    let mut out: Vec<String> = Vec::new();
    let mut i: usize = 0;
    while i < v.len()
        invariant
            i <= v@.len(),
            texts(out@) == texts(v@).take(i as int),
        decreases v.len() - i,
    {
        proof {
            assert(texts(v@).take(i as int + 1) =~= texts(v@).take(i as int).push(v@[i as int]@));
        }
        let s: String = v[i].clone();
        proof {
            lemma_texts_push(out@, s);
        }
        out.push(s);
        i += 1;
    }
    proof {
        assert(texts(v@).take(v@.len() as int) =~= texts(v@));
    }
    out
}

/// Whether a list of texts holds `s`.
pub fn holds_text(v: &Vec<String>, s: &str) -> (r: bool)
    ensures
        r == texts(v@).contains(s@),
{
    let mut i: usize = 0;
    while i < v.len()
        invariant
            i <= v@.len(),
            forall|j: int| 0 <= j < i ==> (#[trigger] texts(v@)[j]) != s@,
        decreases v.len() - i,
    {
        if same(v[i].as_str(), s) {
            assert(texts(v@)[i as int] == s@);
            return true;
        }
        i += 1;
    }
    false
}

/// The code point of a character.
pub fn char_code(c: char) -> (r: u32)
    ensures
        r == c as int,
{
    c as u32
}

/// The characters of a string, in order.
pub fn chars_of(s: &str) -> (v: Vec<char>)
    ensures
        v@ == s@,
{
    let mut v: Vec<char> = Vec::new();
    for c in it: s.chars()
        invariant
            v@ == s@.take(it.index() as int),
            it.seq() == s@,
    {
        proof {
            assert(s@.take(it.index() as int + 1) =~= s@.take(it.index() as int).push(c));
        }
        v.push(c);
    }
    assert(s@.take(s@.len() as int) =~= s@);
    v
}

/// The string made of the characters `from..to` of `v`.
pub fn text_of(v: &Vec<char>, from: usize, to: usize) -> (s: String)
    requires
        from <= to <= v@.len(),
    ensures
        s@ == v@.subrange(from as int, to as int),
{
    let mut s: String = String::new();
    let mut i: usize = from;
    assert(v@.subrange(from as int, from as int) =~= Seq::<char>::empty());
    while i < to
        invariant
            from <= i <= to <= v@.len(),
            s@ == v@.subrange(from as int, i as int),
        decreases to - i,
    {
        proof {
            assert(v@.subrange(from as int, i as int + 1) =~= v@.subrange(
                from as int,
                i as int,
            ).push(v@[i as int]));
        }
        s.push(v[i]);
        i += 1;
    }
    s
}

/// Two strings one after the other.
pub fn cat(a: &str, b: &str) -> (r: String)
    ensures
        r@ == a@ + b@,
{
    let mut r: String = a.to_owned();
    r.append(b);
    r
}

/// Three strings one after the other.
pub fn cat3(a: &str, b: &str, c: &str) -> (r: String)
    ensures
        r@ == a@ + b@ + c@,
{
    let mut r: String = a.to_owned();
    r.append(b);
    r.append(c);
    r
}

/// Whether `s` begins with `p`.
pub fn starts_with(s: &str, p: &str) -> (r: bool)
    ensures
        r == p@.is_prefix_of(s@),
{
    let n: usize = p.unicode_len();
    if s.unicode_len() < n {
        return false;
    }
    let head: &str = s.substring_char(0, n);
    same(head, p)
}

/// What follows the prefix `p` of `s`, where `s` begins with `p`.
pub open spec fn after_prefix(s: Seq<char>, p: Seq<char>) -> Option<Seq<char>> {
    if p.is_prefix_of(s) {
        Some(s.skip(p.len() as int))
    } else {
        None
    }
}

/// What follows the prefix `p` of `s`, where `s` begins with `p`.
pub fn strip_prefix(s: &str, p: &str) -> (r: Option<String>)
    ensures
        opt_text(r) == after_prefix(s@, p@),
{
    if starts_with(s, p) {
        let n: usize = p.unicode_len();
        let m: usize = s.unicode_len();
        let tail: &str = s.substring_char(n, m);
        assert(s@.subrange(n as int, m as int) =~= s@.skip(n as int));
        Some(tail.to_owned())
    } else {
        None
    }
}

/// What is left of a text after the prefix `p` is taken off as often as it occurs.
pub open spec fn after_prefixes(s: Seq<char>, p: Seq<char>) -> Seq<char>
    decreases s.len(),
{
    if p.len() > 0 && p.is_prefix_of(s) {
        after_prefixes(s.skip(p.len() as int), p)
    } else {
        s
    }
}

/// What is left of a text after the prefix `p` is taken off as often as it occurs.
pub fn trim_prefixes(s: &str, p: &str) -> (r: String)
    ensures
        r@ == after_prefixes(s@, p@),
{
    let mut rest: String = s.to_owned();
    let n: usize = p.unicode_len();
    while n > 0 && starts_with(rest.as_str(), p)
        invariant
            n == p@.len(),
            after_prefixes(rest@, p@) == after_prefixes(s@, p@),
        decreases rest@.len(),
    {
        let m: usize = rest.as_str().unicode_len();
        let tail: String = rest.as_str().substring_char(n, m).to_owned();
        assert(rest@.subrange(n as int, m as int) =~= rest@.skip(n as int));
        rest = tail;
    }
    rest
}

/// Whether `a` comes before `b` when compared character by character.
pub open spec fn text_lt(a: Seq<char>, b: Seq<char>) -> bool
    decreases a.len(),
{
    if b.len() == 0 {
        false
    } else if a.len() == 0 {
        true
    } else if a[0] == b[0] {
        text_lt(a.skip(1), b.skip(1))
    } else {
        (a[0] as int) < (b[0] as int)
    }
}

/// Whether `a` comes before `b` when compared character by character.
pub fn text_less(a: &str, b: &str) -> (r: bool)
    ensures
        r == text_lt(a@, b@),
{
    let x: Vec<char> = chars_of(a);
    let y: Vec<char> = chars_of(b);
    let mut i: usize = 0;
    assert(a@.skip(0) =~= a@);
    assert(b@.skip(0) =~= b@);
    while i < x.len() && i < y.len() && x[i] == y[i]
        invariant
            x@ == a@,
            y@ == b@,
            i <= x@.len(),
            i <= y@.len(),
            text_lt(a@, b@) == text_lt(a@.skip(i as int), b@.skip(i as int)),
        decreases x.len() - i,
    {
        proof {
            assert(a@.skip(i as int).skip(1) =~= a@.skip(i as int + 1));
            assert(b@.skip(i as int).skip(1) =~= b@.skip(i as int + 1));
        }
        i += 1;
    }
    if i == y.len() {
        false
    } else if i == x.len() {
        true
    } else {
        char_code(x[i]) < char_code(y[i])
    }
}

/// The order on texts is total: of two different texts one comes first.
pub proof fn lemma_text_lt_total(a: Seq<char>, b: Seq<char>)
    ensures
        a != b ==> text_lt(a, b) || text_lt(b, a),
    decreases a.len(),
{
    if a.len() > 0 && b.len() > 0 && a[0] == b[0] {
        lemma_text_lt_total(a.skip(1), b.skip(1));
        if a.skip(1) == b.skip(1) {
            assert(a =~= seq![a[0]] + a.skip(1));
            assert(b =~= seq![b[0]] + b.skip(1));
        }
    } else if a.len() == 0 && b.len() == 0 {
        assert(a =~= b);
    }
}

/// The order on texts is transitive.
pub proof fn lemma_text_lt_transitive(a: Seq<char>, b: Seq<char>, c: Seq<char>)
    requires
        text_lt(a, b),
        text_lt(b, c),
    ensures
        text_lt(a, c),
    decreases a.len(),
{
    if a.len() > 0 && b.len() > 0 && c.len() > 0 && a[0] == b[0] && b[0] == c[0] {
        lemma_text_lt_transitive(a.skip(1), b.skip(1), c.skip(1));
    }
}

/// No text comes before itself.
pub proof fn lemma_text_lt_irreflexive(a: Seq<char>)
    ensures
        !text_lt(a, a),
    decreases a.len(),
{
    if a.len() > 0 {
        lemma_text_lt_irreflexive(a.skip(1));
    }
}

/// The character of a decimal digit.
pub open spec fn digit_char(d: int) -> char {
    (48 + d) as char
}

/// Whether a character is a decimal digit.
pub open spec fn is_digit(c: char) -> bool {
    48 <= c as int <= 57
}

/// The decimal digits of a number.
pub open spec fn digits(n: nat) -> Seq<char>
    decreases n,
{
    if n < 10 {
        seq![digit_char(n as int)]
    } else {
        digits(n / 10).push(digit_char((n % 10) as int))
    }
}

/// The decimal text of a number, with a sign where it is negative.
pub open spec fn decimal(n: int) -> Seq<char> {
    if n < 0 {
        seq!['-'] + digits((-n) as nat)
    } else {
        digits(n as nat)
    }
}

/// The number that a run of digits stands for.
pub open spec fn digits_value(s: Seq<char>) -> nat
    decreases s.len(),
{
    if s.len() == 0 {
        0
    } else {
        digits_value(s.drop_last()) * 10 + (s.last() as int - 48) as nat
    }
}

/// Whether a text is a nonempty run of decimal digits.
pub open spec fn all_digits(s: Seq<char>) -> bool {
    s.len() > 0 && forall|i: int| 0 <= i < s.len() ==> is_digit(#[trigger] s[i])
}

/// The number a run of digits stands for, where it is at most `limit`.
pub open spec fn parse_magnitude(s: Seq<char>, limit: int) -> Option<int> {
    if all_digits(s) && digits_value(s) <= limit {
        Some(digits_value(s) as int)
    } else {
        None
    }
}

/// The number that a decimal text with an optional sign stands for, where it fits in 64 bits.
pub open spec fn parse_signed(s: Seq<char>) -> Option<int> {
    if s.len() > 0 && s[0] == '-' {
        match parse_magnitude(s.skip(1), 0x8000_0000_0000_0000) {
            Some(n) => Some(-n),
            None => None,
        }
    } else if s.len() > 0 && s[0] == '+' {
        parse_magnitude(s.skip(1), 0x7fff_ffff_ffff_ffff)
    } else {
        parse_magnitude(s, 0x7fff_ffff_ffff_ffff)
    }
}

/// The number that a decimal text with an optional plus sign stands for, where it is at most
/// `limit`.
pub open spec fn parse_unsigned(s: Seq<char>, limit: int) -> Option<int> {
    if s.len() > 0 && s[0] == '+' {
        parse_magnitude(s.skip(1), limit)
    } else {
        parse_magnitude(s, limit)
    }
}

proof fn lemma_digits_value_monotone(s: Seq<char>, i: int)
    requires
        all_digits(s),
        0 <= i <= s.len(),
    ensures
        digits_value(s.take(i)) <= digits_value(s),
    decreases s.len(),
{
    if i == s.len() {
        assert(s.take(i) =~= s);
    } else {
        assert(s.drop_last().take(i) =~= s.take(i));
        if s.len() > 1 {
            assert forall|j: int| 0 <= j < s.drop_last().len() implies is_digit(
                #[trigger] s.drop_last()[j],
            ) by {
                assert(s.drop_last()[j] == s[j]);
            }
            lemma_digits_value_monotone(s.drop_last(), i);
        } else {
            assert(s.take(i).len() == 0);
        }
    }
}

fn magnitude(v: &Vec<char>, from: usize, limit: u64) -> (r: Option<u64>)
    requires
        from <= v@.len(),
    ensures
        match r {
            Some(n) => parse_magnitude(v@.skip(from as int), limit as int) == Some(n as int),
            None => parse_magnitude(v@.skip(from as int), limit as int) is None,
        },
{
    let ghost s = v@.skip(from as int);
    if from == v.len() {
        return None;
    }
    let mut i: usize = from;
    let mut n: u64 = 0;
    while i < v.len()
        invariant
            from <= i <= v@.len(),
            from < v@.len(),
            s == v@.skip(from as int),
            n <= limit,
            n == digits_value(s.take(i - from)),
            forall|j: int| 0 <= j < i - from ==> is_digit(#[trigger] s[j]),
        decreases v.len() - i,
    {
        let c: char = v[i];
        let ghost k = i - from;
        assert(s[k] == c);
        let code: u32 = char_code(c);
        if code < 48 || code > 57 {
            assert(!is_digit(s[k]));
            return None;
        }
        let d: u64 = (code - 48) as u64;
        proof {
            assert(s.take(k + 1).drop_last() =~= s.take(k));
            assert(s.take(k + 1).last() == c);
        }
        if n > limit / 10 || d > limit - n * 10 {
            proof {
                assert(digits_value(s.take(k + 1)) > limit);
                if all_digits(s) {
                    lemma_digits_value_monotone(s, k + 1);
                }
            }
            return None;
        }
        n = n * 10 + d;
        i += 1;
    }
    proof {
        assert(s.take(s.len() as int) =~= s);
    }
    Some(n)
}

/// Reads a decimal text with an optional sign.
pub fn parse_i64(s: &str) -> (r: Option<i64>)
    ensures
        match r {
            Some(n) => parse_signed(s@) == Some(n as int),
            None => parse_signed(s@) is None,
        },
{
    let v: Vec<char> = chars_of(s);
    if v.len() > 0 && v[0] == '-' {
        match magnitude(&v, 1, 0x8000_0000_0000_0000) {
            Some(n) => {
                if n == 0x8000_0000_0000_0000 {
                    Some(i64::MIN)
                } else {
                    Some(-(n as i64))
                }
            },
            None => None,
        }
    } else if v.len() > 0 && v[0] == '+' {
        match magnitude(&v, 1, 0x7fff_ffff_ffff_ffff) {
            Some(n) => Some(n as i64),
            None => None,
        }
    } else {
        assert(v@.skip(0) =~= v@);
        match magnitude(&v, 0, 0x7fff_ffff_ffff_ffff) {
            Some(n) => Some(n as i64),
            None => None,
        }
    }
}

/// Reads a decimal text with an optional plus sign, at most `limit`.
pub fn parse_up_to(s: &str, limit: u64) -> (r: Option<u64>)
    ensures
        match r {
            Some(n) => parse_unsigned(s@, limit as int) == Some(n as int),
            None => parse_unsigned(s@, limit as int) is None,
        },
{
    let v: Vec<char> = chars_of(s);
    if v.len() > 0 && v[0] == '+' {
        magnitude(&v, 1, limit)
    } else {
        assert(v@.skip(0) =~= v@);
        magnitude(&v, 0, limit)
    }
}

fn push_digits(n: u64, out: &mut String)
    ensures
        final(out)@ == old(out)@ + digits(n as nat),
    decreases n,
{
    if n >= 10 {
        push_digits(n / 10, out);
    }
    let d: u8 = (n % 10) as u8;
    out.push((48 + d) as char);
    proof {
        let c = digit_char((n % 10) as int);
        if n >= 10 {
            assert(out@ =~= old(out)@ + digits((n / 10) as nat).push(c));
        } else {
            assert(out@ =~= old(out)@ + seq![c]);
        }
    }
}

/// Writes a number in decimal.
pub fn decimal_text(n: i64) -> (s: String)
    ensures
        s@ == decimal(n as int),
{
    let mut out: String = String::new();
    if n < 0 {
        out.push('-');
        let m: u64 = if n == i64::MIN {
            0x8000_0000_0000_0000
        } else {
            (-n) as u64
        };
        assert(out@ =~= seq!['-']);
        push_digits(m, &mut out);
    } else {
        push_digits(n as u64, &mut out);
        assert(out@ =~= digits(n as nat));
    }
    out
}

/// Writes an unsigned number in decimal.
pub fn decimal_text_u64(n: u64) -> (s: String)
    ensures
        s@ == decimal(n as int),
{
    let mut out: String = String::new();
    push_digits(n, &mut out);
    assert(out@ =~= digits(n as nat));
    out
}

proof fn lemma_digits(n: nat)
    ensures
        all_digits(digits(n)),
        digits_value(digits(n)) == n,
    decreases n,
{
    if n < 10 {
        let s = digits(n);
        assert(s.drop_last() =~= Seq::<char>::empty());
        assert(digits_value(s.drop_last()) == 0);
    } else {
        lemma_digits(n / 10);
        let s = digits(n);
        assert(s.drop_last() =~= digits(n / 10));
        assert forall|i: int| 0 <= i < s.len() implies is_digit(#[trigger] s[i]) by {
            if i < digits(n / 10).len() {
                assert(s[i] == digits(n / 10)[i]);
            }
        }
    }
}

/// Reading what was written without a sign gives the number back.
pub proof fn unsigned_round_trip(n: int, limit: int)
    requires
        0 <= n <= limit,
    ensures
        parse_unsigned(decimal(n), limit) == Some(n),
{
    lemma_digits(n as nat);
    assert(is_digit(digits(n as nat)[0]));
}

/// Reading what was written gives the number back.
pub proof fn decimal_round_trip(n: int)
    requires
        i64::MIN <= n <= i64::MAX,
    ensures
        parse_signed(decimal(n)) == Some(n),
{
    if n < 0 {
        lemma_digits((-n) as nat);
        assert(decimal(n).skip(1) =~= digits((-n) as nat));
    } else {
        lemma_digits(n as nat);
        assert(is_digit(digits(n as nat)[0]));
    }
}

/// Two numbers with the same decimal text are the same number.
pub proof fn decimal_injective(m: int, n: int)
    requires
        i64::MIN <= m <= i64::MAX,
        i64::MIN <= n <= i64::MAX,
        decimal(m) == decimal(n),
    ensures
        m == n,
{
    decimal_round_trip(m);
    decimal_round_trip(n);
}

/// Whether the first `n` texts of a list hold some texts one behind the other.
pub open spec fn holds_part(list: Seq<Seq<char>>, n: int, part: Seq<Seq<char>>) -> bool {
    exists|i: int| 0 <= i && i + part.len() <= n && #[trigger] list.subrange(i, i + part.len()) == part
}

/// Texts that stand at a position of a list are held by it.
pub proof fn lemma_holds_part(list: Seq<Seq<char>>, n: int, part: Seq<Seq<char>>, i: int)
    requires
        0 <= i,
        i + part.len() <= n <= list.len(),
        forall|k: int| 0 <= k < part.len() ==> list[i + k] == #[trigger] part[k],
    ensures
        holds_part(list, n, part),
{
    assert(list.subrange(i, i + part.len()) =~= part);
}

/// What follows a prefix is what makes the text together with it; a text without the prefix has nothing
/// that follows it.
pub proof fn prefixes_are_taken_off(s: &str, p: &str, r: Option<String>, begins: bool, t: Seq<char>)
    requires
        call_ensures(strip_prefix, (s, p), r),
        call_ensures(starts_with, (s, p), begins),
    ensures
        r is Some <==> begins,
        s@ == p@ + t ==> (r matches Some(x) && x@ == t),
        r matches Some(x) ==> s@ == p@ + x@,
{
    if s@ == p@ + t {
        assert(p@.is_prefix_of(s@));
        assert(s@.skip(p@.len() as int) =~= t);
    }
    if p@.is_prefix_of(s@) {
        assert(s@ =~= p@ + s@.skip(p@.len() as int));
    }
}

/// A prefix is taken off as often as it stands at the start.
pub proof fn repeated_prefixes_are_taken_off(s: &str, more: &str, p: &str, r: String, again: String)
    requires
        call_ensures(trim_prefixes, (s, p), r),
        call_ensures(trim_prefixes, (more, p), again),
        p@.len() > 0,
        more@ == p@ + s@,
    ensures
        again@ == r@,
        !p@.is_prefix_of(r@),
        !p@.is_prefix_of(s@) ==> r@ == s@,
{
    assert(more@.skip(p@.len() as int) =~= s@);
    assert(p@.is_prefix_of(more@));
    lemma_prefix_gone(s@, p@);
}

proof fn lemma_prefix_gone(s: Seq<char>, p: Seq<char>)
    requires
        p.len() > 0,
    ensures
        !p.is_prefix_of(after_prefixes(s, p)),
    decreases s.len(),
{
    if p.is_prefix_of(s) {
        lemma_prefix_gone(s.skip(p.len() as int), p);
    }
}

/// A number that was written is read back, signed and unsigned; its text has a minus sign where it is
/// negative, and is its digit where it has one.
pub proof fn written_numbers_are_read_back(n: i64, s: String, t: &str, r: Option<i64>, m: u64, us: String, ut: &str, limit: u64, u: Option<u64>)
    requires
        call_ensures(decimal_text, (n,), s),
        t@ == s@,
        call_ensures(parse_i64, (t,), r),
        call_ensures(decimal_text_u64, (m,), us),
        ut@ == us@,
        call_ensures(parse_up_to, (ut, limit), u),
    ensures
        r == Some(n),
        m <= limit ==> u == Some(m),
        m > limit ==> u is None,
        n < 0 <==> s@[0] == '-',
        0 <= n <= 9 ==> s@ == seq![(48 + n) as char],
{
    decimal_round_trip(n as int);
    if m <= limit {
        unsigned_round_trip(m as int, limit as int);
    } else {
        unsigned_round_trip(m as int, m as int);
        lemma_digits(m as nat);
        assert(is_digit(digits(m as nat)[0]));
    }
    if n >= 0 {
        lemma_digits(n as nat);
        assert(is_digit(digits(n as nat)[0]));
    }
}

/// A digit behind a number makes it ten times as large and adds the digit; a sign before it keeps or
/// turns it; what holds another character is no number.
pub proof fn numbers_are_read_digit_by_digit(s: &str, longer: &str, r: Option<i64>, next: Option<i64>, c: char, i: int)
    requires
        call_ensures(parse_i64, (s,), r),
        call_ensures(parse_i64, (longer,), next),
        longer@ == s@.push(c),
    ensures
        r is Some && r->0 >= 0 && is_digit(c) && s@[0] != '-' && r->0 * 10 + (c as int - 48) <= i64::MAX ==> (next matches Some(n) && n == r->0 * 10 + (c as int - 48)),
        !is_digit(c) && s@.len() > 0 ==> next is None,
        s@.len() == 0 ==> r is None,
        0 < i < s@.len() && !is_digit(s@[i]) ==> r is None,
{
    let t: Seq<char> = if s@.len() > 0 && (s@[0] == '-' || s@[0] == '+') { s@.skip(1) } else { s@ };
    let u: Seq<char> = if longer@.len() > 0 && (longer@[0] == '-' || longer@[0] == '+') { longer@.skip(1) } else { longer@ };
    if s@.len() > 0 {
        assert(longer@[0] == s@[0]);
        assert(u =~= t.push(c));
        assert(u.drop_last() =~= t);
        assert(u.last() == c);
        if all_digits(t) && is_digit(c) {
            assert(all_digits(u)) by {
                assert forall|k: int| 0 <= k < u.len() implies is_digit(#[trigger] u[k]) by {
                    if k < t.len() {
                        assert(u[k] == t[k]);
                    }
                }
            }
            assert(digits_value(u) == digits_value(t) * 10 + (c as int - 48) as nat);
        }
        if !is_digit(c) {
            assert(!is_digit(u[u.len() - 1]));
        }
        if 0 < i < s@.len() && !is_digit(s@[i]) {
            let k: int = if t.len() < s@.len() { i - 1 } else { i };
            assert(t[k] == s@[i]);
        }
    }
}

/// Of two texts the one comes first that has the earlier character where they first differ, or that ends
/// there.
pub proof fn texts_are_ordered_where_they_differ(a: &str, b: &str, r: bool, i: int)
    requires
        call_ensures(text_less, (a, b), r),
        0 <= i <= a@.len() && i <= b@.len(),
        forall|k: int| 0 <= k < i ==> (#[trigger] a@[k]) == b@[k],
    ensures
        i < a@.len() && i < b@.len() && a@[i] != b@[i] ==> r == ((a@[i] as int) < (b@[i] as int)),
        i == a@.len() && i < b@.len() ==> r,
        i == b@.len() ==> !r,
{
    lemma_ordered(a@, b@, i);
}

proof fn lemma_ordered(a: Seq<char>, b: Seq<char>, i: int)
    requires
        0 <= i <= a.len() && i <= b.len(),
        forall|k: int| 0 <= k < i ==> (#[trigger] a[k]) == b[k],
    ensures
        i < a.len() && i < b.len() && a[i] != b[i] ==> text_lt(a, b) == ((a[i] as int) < (b[i] as int)),
        i == a.len() && i < b.len() ==> text_lt(a, b),
        i == b.len() ==> !text_lt(a, b),
    decreases i,
{
    if i > 0 {
        assert(a[0] == b[0]);
        assert forall|k: int| 0 <= k < i - 1 implies (#[trigger] a.skip(1)[k]) == b.skip(1)[k] by {
            assert(a[k + 1] == b[k + 1]);
        }
        lemma_ordered(a.skip(1), b.skip(1), i - 1);
    }
}

} // verus!
