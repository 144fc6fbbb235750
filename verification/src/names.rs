//! Names across devices, stable identities, and digests.

use crate::columns::{json_text, write_json};
use crate::json::{Json, JsonV};
use crate::text::{cat, cat3, char_code, chars_of, same, text_of};
use vstd::prelude::*;
use vstd::utf8::encode_utf8;

verus! {

broadcast use vstd::string::group_string_axioms;

/// A name with the short id of its device behind it.
pub open spec fn suffixed(name: Seq<char>, short_id: Seq<char>) -> Seq<char> {
    name + ":"@ + short_id
}

/// A name with the short id of its device behind it.
pub fn add_device_suffix(name: &str, short_id: &str) -> (r: String)
    ensures
        r@ == suffixed(name@, short_id@),
{
    cat3(name, ":", short_id)
}

/// The code of a character, with ASCII capitals taken as small letters.
pub open spec fn folded(c: char) -> int {
    if 65 <= c as int <= 90 {
        c as int + 32
    } else {
        c as int
    }
}

fn fold(c: char) -> (r: u32)
    ensures
        r == folded(c),
{
    let n: u32 = char_code(c);
    if n >= 65 && n <= 90 {
        n + 32
    } else {
        n
    }
}

/// Whether a name ends in a suffix, ASCII case aside.
pub open spec fn ends_folded(name: Seq<char>, suffix: Seq<char>) -> bool {
    name.len() >= suffix.len() && forall|i: int|
        0 <= i < suffix.len() ==> folded(#[trigger] name[name.len() - suffix.len() + i]) == folded(
            suffix[i],
        )
}

fn ends_with_folded(name: &Vec<char>, suffix: &Vec<char>) -> (r: bool)
    ensures
        r == ends_folded(name@, suffix@),
{
    if name.len() < suffix.len() {
        return false;
    }
    let start: usize = name.len() - suffix.len();
    let mut i: usize = 0;
    while i < suffix.len()
        invariant
            i <= suffix@.len(),
            start == name.len() - suffix.len(),
            suffix.len() <= name.len(),
            forall|k: int|
                0 <= k < i ==> folded(#[trigger] name@[name@.len() - suffix@.len() + k]) == folded(
                    suffix@[k],
                ),
        decreases suffix.len() - i,
    {
        if fold(name[start + i]) != fold(suffix[i]) {
            assert(folded(name@[name@.len() - suffix@.len() + i]) != folded(suffix@[i as int]));
            return false;
        }
        i += 1;
    }
    true
}

/// Whether two texts are the same, ASCII case aside.
pub open spec fn same_folded(a: Seq<char>, b: Seq<char>) -> bool {
    a.len() == b.len() && ends_folded(a, b)
}

/// Whether two texts are the same, ASCII case aside.
pub fn is_same_folded(a: &str, b: &str) -> (r: bool)
    ensures
        r == same_folded(a@, b@),
{
    let x: Vec<char> = chars_of(a);
    let y: Vec<char> = chars_of(b);
    x.len() == y.len() && ends_with_folded(&x, &y)
}

/// Whether a name stands on the device with the short id.
pub open spec fn on_device(name: Seq<char>, short_id: Seq<char>) -> bool {
    name.len() > short_id.len() + 1 && ends_folded(name, ":"@ + short_id)
}

/// A name without the suffix of a device, where it has it.
pub open spec fn stripped(name: Seq<char>, own_short_id: Seq<char>) -> Seq<char> {
    if on_device(name, own_short_id) {
        name.take(name.len() - (":"@ + own_short_id).len())
    } else {
        name
    }
}

/// Whether a name stands on the device with the short id, ASCII case aside.
pub fn is_on_device(name: &str, short_id: &str) -> (r: bool)
    ensures
        r == on_device(name@, short_id@),
{
    let suffix: Vec<char> = chars_of(cat(":", short_id).as_str());
    let chars: Vec<char> = chars_of(name);
    proof {
        reveal_strlit(":");
        assert(suffix@.len() == short_id@.len() + 1);
    }
    chars.len() > suffix.len() && ends_with_folded(&chars, &suffix)
}

/// A name without the suffix of the own device, ASCII case aside, where it has it.
pub fn strip_device_suffix(name: &str, own_short_id: &str) -> (r: String)
    ensures
        r@ == stripped(name@, own_short_id@),
{
    if is_on_device(name, own_short_id) {
        let chars: Vec<char> = chars_of(name);
        let suffix: Vec<char> = chars_of(cat(":", own_short_id).as_str());
        proof {
            reveal_strlit(":");
            assert(suffix@.len() == own_short_id@.len() + 1);
            let n = chars@.len() - suffix@.len();
            assert(chars@.subrange(0, n) =~= chars@.take(n));
        }
        text_of(&chars, 0, chars.len() - suffix.len())
    } else {
        name.to_owned()
    }
}

/// A name as it is known here, of a participant that the device with the source short id names:
/// without the suffix of the own device, with that of the source where it has none.
pub open spec fn mapped(name: Seq<char>, source_short: Seq<char>, own_short: Seq<char>) -> Seq<char> {
    if stripped(name, own_short) != name {
        stripped(name, own_short)
    } else if name.contains(':') {
        name
    } else {
        suffixed(name, source_short)
    }
}

/// Whether a text holds a character.
pub fn has_char(s: &str, c: char) -> (r: bool)
    ensures
        r == s@.contains(c),
{
    let v: Vec<char> = chars_of(s);
    let mut i: usize = 0;
    while i < v.len()
        invariant
            i <= v@.len(),
            v@ == s@,
            forall|k: int| 0 <= k < i ==> #[trigger] v@[k] != c,
        decreases v.len() - i,
    {
        if v[i] == c {
            assert(s@[i as int] == c);
            return true;
        }
        i += 1;
    }
    false
}

/// A name as it is known here.
pub fn map_v1_remote_name(name: &str, source_short: &str, own_short: &str) -> (r: String)
    ensures
        r@ == mapped(name@, source_short@, own_short@),
{
    let local: String = strip_device_suffix(name, own_short);
    if !same(local.as_str(), name) {
        local
    } else if has_char(name, ':') {
        name.to_owned()
    } else {
        add_device_suffix(name, source_short)
    }
}

/// A name that is sent from here and mapped back by the device it is sent to comes home: what was
/// suffixed for this device loses the suffix.
pub proof fn suffix_round_trip(name: Seq<char>, short_id: Seq<char>, other: Seq<char>)
    requires
        name.len() > 0,
    ensures
        stripped(suffixed(name, short_id), short_id) == name,
        mapped(suffixed(name, short_id), other, short_id) == name,
{
    reveal_strlit(":");
    let full = suffixed(name, short_id);
    let suffix = ":"@ + short_id;
    assert(full =~= name + suffix);
    assert forall|i: int| 0 <= i < suffix.len() implies folded(
        #[trigger] full[full.len() - suffix.len() + i],
    ) == folded(suffix[i]) by {
        assert(full[full.len() - suffix.len() + i] == suffix[i]);
    }
    assert(full.take(full.len() - suffix.len()) =~= name);
    assert(stripped(full, short_id).len() != full.len());
}

/// Whether a character is a control character.
pub open spec fn is_control(c: char) -> bool {
    c as int <= 0x1f || 0x7f <= c as int <= 0x9f
}

/// Whether a text can be a stable identity: not empty, at most 256 bytes, no control characters.
pub open spec fn stable_id(s: Seq<char>) -> bool {
    &&& s.len() > 0
    &&& encode_utf8(s).len() <= 256
    &&& forall|i: int| 0 <= i < s.len() ==> !is_control(#[trigger] s[i])
}

/// Whether a text can be a stable identity.
pub fn valid_stable_id(value: &str) -> (r: bool)
    ensures
        r == stable_id(value@),
{
    let v: Vec<char> = chars_of(value);
    if v.len() == 0 {
        return false;
    }
    if value.as_bytes().len() > 256 {
        return false;
    }
    let mut i: usize = 0;
    while i < v.len()
        invariant
            i <= v@.len(),
            v@ == value@,
            forall|k: int| 0 <= k < i ==> !is_control(#[trigger] v@[k]),
        decreases v.len() - i,
    {
        let n: u32 = char_code(v[i]);
        if n <= 0x1f || (n >= 0x7f && n <= 0x9f) {
            assert(is_control(value@[i as int]));
            return false;
        }
        i += 1;
    }
    true
}

/// The SHA-256 digest of some bytes, 32 bytes long.
pub uninterp spec fn sha256(bytes: Seq<u8>) -> Seq<u8>;

/// `sha2::Sha256::digest`: the SHA-256 digest of the bytes, which is 32 bytes long and depends on
/// the bytes alone.
#[verifier::external_body]
fn sha256_digest(bytes: &[u8]) -> (r: Vec<u8>)
    ensures
        r@ == sha256(bytes@),
        r@.len() == 32,
{
    <sha2::Sha256 as sha2::Digest>::digest(bytes).to_vec()
}

/// The character of a hexadecimal digit.
pub open spec fn hex_char(n: int) -> char {
    if n < 10 {
        (48 + n) as char
    } else {
        (87 + n) as char
    }
}

/// The character of a hexadecimal digit.
pub fn hex_digit(n: u8) -> (c: char)
    requires
        n < 16,
    ensures
        c == hex_char(n as int),
{
    if n < 10 {
        (48 + n) as char
    } else {
        (87 + n) as char
    }
}

/// The hexadecimal text of some bytes, two small digits each.
pub open spec fn hex(bytes: Seq<u8>) -> Seq<char>
    decreases bytes.len(),
{
    if bytes.len() == 0 {
        Seq::empty()
    } else {
        let b = bytes.last() as int;
        hex(bytes.drop_last()).push(hex_char(b / 16)).push(hex_char(b % 16))
    }
}

/// The hexadecimal text of the first `n` bytes.
pub fn hex_text(bytes: &Vec<u8>, n: usize) -> (r: String)
    requires
        n <= bytes@.len(),
    ensures
        r@ == hex(bytes@.take(n as int)),
{
    let mut out: String = String::new();
    let mut i: usize = 0;
    assert(out@ =~= hex(bytes@.take(0)));
    while i < n
        invariant
            i <= n <= bytes@.len(),
            out@ == hex(bytes@.take(i as int)),
        decreases n - i,
    {
        let b: u8 = bytes[i];
        proof {
            assert(bytes@.take(i as int + 1).drop_last() =~= bytes@.take(i as int));
            assert(bytes@.take(i as int + 1).last() == b);
        }
        out.push(hex_digit(b / 16));
        out.push(hex_digit(b % 16));
        i += 1;
    }
    out
}

/// The hexadecimal text of some bytes is twice as long as they are.
pub proof fn hex_length(bytes: Seq<u8>)
    ensures
        hex(bytes).len() == 2 * bytes.len(),
    decreases bytes.len(),
{
    if bytes.len() > 0 {
        hex_length(bytes.drop_last());
    }
}

/// Different bytes have different hexadecimal texts.
pub proof fn hex_injective(a: Seq<u8>, b: Seq<u8>)
    requires
        hex(a) == hex(b),
    ensures
        a == b,
    decreases a.len(),
{
    hex_length(a);
    hex_length(b);
    if a.len() > 0 {
        let x = hex(a);
        let y = hex(b);
        assert(x.drop_last().drop_last() =~= hex(a.drop_last()));
        assert(y.drop_last().drop_last() =~= hex(b.drop_last()));
        hex_injective(a.drop_last(), b.drop_last());
        assert(x[x.len() - 1] == hex_char(a.last() as int % 16));
        assert(y[y.len() - 1] == hex_char(b.last() as int % 16));
        assert(x[x.len() - 2] == hex_char(a.last() as int / 16));
        assert(y[y.len() - 2] == hex_char(b.last() as int / 16));
        assert(a =~= a.drop_last().push(a.last()));
        assert(b =~= b.drop_last().push(b.last()));
    } else {
        assert(a =~= b);
    }
}

/// The digest of a relayed event: that of its JSON text in UTF-8, in hexadecimal.
pub open spec fn source_digest(event: JsonV) -> Seq<char> {
    hex(sha256(encode_utf8(json_text(event))))
}

/// The digest by which a relayed event is told from another with the same id.
pub fn relay_source_digest(event: &Json) -> (r: String)
    ensures
        r@ == source_digest(event@),
        r@.len() == 64,
{
    let text: String = write_json(event);
    let digest: Vec<u8> = sha256_digest(text.as_str().as_bytes());
    proof {
        assert(digest@.take(32) =~= digest@);
        hex_length(digest@);
    }
    hex_text(&digest, digest.len())
}

/// The hexadecimal text of the first `n` bytes of the digest of some bytes.
pub fn short_digest(bytes: &Vec<u8>, n: usize) -> (r: String)
    requires
        n <= 32,
    ensures
        r@ == hex(sha256(bytes@).take(n as int)),
{
    let digest: Vec<u8> = sha256_digest(bytes.as_slice());
    hex_text(&digest, n)
}

/// A name with the short id of a device behind it is a name of that device: there it goes by its own
/// name again, whatever the case of the letters, and elsewhere it stays as it is.
pub proof fn names_come_home(name: &str, own: &str, bare: Seq<char>, short: Seq<char>, r: String)
    requires
        call_ensures(strip_device_suffix, (name, own), r),
        name@ == bare + ":"@ + short,
        forall|i: int| 0 <= i < short.len() ==> #[trigger] short[i] != ':',
        forall|i: int| 0 <= i < own@.len() ==> #[trigger] own@[i] != ':',
    ensures
        bare.len() > 0 && short == own@ ==> r@ == bare,
        bare.len() == 0 ==> r@ == name@,
        short.len() != own@.len() ==> r@ == name@,
        bare.len() > 0 && short.len() == own@.len() && (forall|i: int| 0 <= i < short.len() ==> same_letter(#[trigger] short[i], own@[i])) ==> r@ == bare,
        (exists|i: int| 0 <= i < short.len() && short.len() == own@.len() && !same_letter(#[trigger] short[i], own@[i])) ==> r@ == name@,
{
    reveal_strlit(":");
    let suffix = ":"@ + own@;
    let n = name@.len() as int;
    let at = n - suffix.len();
    if short.len() == own@.len() {
        assert forall|i: int| 0 <= i < suffix.len() implies #[trigger] name@[at + i] == (if i == 0 { ':' } else { short[i - 1] }) by {}
        if forall|i: int| 0 <= i < short.len() ==> same_letter(#[trigger] short[i], own@[i]) {
            assert forall|i: int| 0 <= i < suffix.len() implies folded(#[trigger] name@[at + i]) == folded(suffix[i]) by {
                if i > 0 {
                    assert(same_letter(short[i - 1], own@[i - 1]));
                }
            }
            assert(name@.take(at) =~= bare);
        }
        if exists|i: int| 0 <= i < short.len() && !same_letter(#[trigger] short[i], own@[i]) {
            let i = choose|i: int| 0 <= i < short.len() && !same_letter(#[trigger] short[i], own@[i]);
            assert(name@[at + (i + 1)] == short[i]);
            assert(suffix[i + 1] == own@[i]);
        }
    } else if own@.len() < short.len() {
        if on_device(name@, own@) {
            assert(folded(name@[at + 0]) == folded(suffix[0]));
            let k = at - bare.len() - 1;
            assert(short[k] == name@[at]);
        }
    } else {
        if on_device(name@, own@) {
            let k = bare.len() - at;
            assert(0 < k < suffix.len());
            assert(name@[at + k] == ':');
            assert(folded(name@[at + k]) == folded(suffix[k]));
            assert(suffix[k] == own@[k - 1]);
        }
    }
}

/// Whether two characters are the same, or the same ASCII letter in two cases.
pub open spec fn same_letter(a: char, b: char) -> bool {
    ||| a == b
    ||| 'a' <= a && a <= 'z' && a as int == b as int + 32 && 'A' <= b && b <= 'Z'
    ||| 'a' <= b && b <= 'z' && b as int == a as int + 32 && 'A' <= a && a <= 'Z'
}

/// A name that another device gives stands for one of ours where it bears our short id, for one of
/// its own where it bears none, and else for one of a third device.
pub proof fn names_are_mapped_between_devices(name: &str, source: &str, own: &str, bare: Seq<char>, r: String, stripped_name: String, marked: String)
    requires
        call_ensures(map_v1_remote_name, (name, source, own), r),
        call_ensures(strip_device_suffix, (name, own), stripped_name),
        call_ensures(add_device_suffix, (name, source), marked),
    ensures
        marked@ == name@ + ":"@ + source@,
        bare.len() > 0 && name@ == bare + ":"@ + own@ ==> r@ == bare,
        !name@.contains(':') ==> r@ == name@ + ":"@ + source@,
        name@.contains(':') ==> r@ == stripped_name@,
{
    reveal_strlit(":");
    if !name@.contains(':') && on_device(name@, own@) {
        let suffix = ":"@ + own@;
        let at = name@.len() - suffix.len();
        assert(folded(name@[at + 0]) == folded(suffix[0]));
        assert(name@.contains(name@[at]));
    }
    if bare.len() > 0 && name@ == bare + ":"@ + own@ {
        suffix_round_trip(bare, own@, source@);
    }
}

/// An identity is a text that is not empty, has at most 256 bytes, and no control characters.
pub proof fn identities_are_bounded(value: &str, r: bool)
    requires
        call_ensures(valid_stable_id, (value,), r),
    ensures
        value@.len() == 0 ==> !r,
        encode_utf8(value@).len() > 256 ==> !r,
        (exists|i: int| 0 <= i < value@.len() && ((#[trigger] value@[i]) as int <= 31 || 127 <= value@[i] as int <= 159)) ==> !r,
        value@.len() > 0 && encode_utf8(value@).len() <= 256 && (forall|i: int| 0 <= i < value@.len() ==> 32 <= (#[trigger] value@[i]) as int && (value@[i] as int) < 127 || value@[i] as int > 159) ==> r,
{
}

/// The digits of a byte are its high and its low half, in small letters.
pub proof fn bytes_have_two_digits(bytes: Vec<u8>, n: usize, r: String, i: int)
    requires
        call_ensures(hex_text, (&bytes, n), r),
        0 <= i < n <= bytes@.len(),
    ensures
        r@.len() == 2 * n,
        hex_value(r@[2 * i]) * 16 + hex_value(r@[2 * i + 1]) == bytes@[i],
{
    lemma_hex_at(bytes@.take(n as int), i);
}

/// What a hexadecimal digit stands for.
pub open spec fn hex_value(c: char) -> int {
    if '0' <= c && c <= '9' {
        c as int - '0' as int
    } else if 'a' <= c && c <= 'f' {
        c as int - 'a' as int + 10
    } else {
        -1000
    }
}

proof fn lemma_hex_at(bytes: Seq<u8>, i: int)
    requires
        0 <= i < bytes.len(),
    ensures
        hex(bytes).len() == 2 * bytes.len(),
        hex_value(hex(bytes)[2 * i]) * 16 + hex_value(hex(bytes)[2 * i + 1]) == bytes[i],
    decreases bytes.len(),
{
    hex_length(bytes);
    hex_length(bytes.drop_last());
    if i < bytes.len() - 1 {
        lemma_hex_at(bytes.drop_last(), i);
        assert(hex(bytes)[2 * i] == hex(bytes.drop_last())[2 * i]);
        assert(hex(bytes)[2 * i + 1] == hex(bytes.drop_last())[2 * i + 1]);
    } else {
        let b = bytes.last() as int;
        assert(hex_value(hex_char(b / 16)) == b / 16);
        assert(hex_value(hex_char(b % 16)) == b % 16);
    }
}

} // verus!
