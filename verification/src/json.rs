//! JSON values as plain data.

use crate::search::{
    first_where, first_where_agrees, first_where_found, first_where_is_least, position,
};
use crate::text::{same, text_less, text_lt};
use vstd::prelude::*;

verus! {

/// A JSON value. A number is an `Int` where it fits in a signed 64-bit integer; any other number
/// is kept by the text that it is written as.
#[derive(Debug)]
pub enum Json {
    Null,
    Bool(bool),
    Int(i64),
    Real(String),
    Text(String),
    Array(Vec<Json>),
    Object(Vec<Member>),
}

/// One member of a JSON object.
#[derive(Debug)]
pub struct Member {
    pub key: String,
    pub value: Json,
}

/// A JSON value as a mathematical value.
pub enum JsonV {
    Null,
    Bool(bool),
    Int(int),
    Real(Seq<char>),
    Text(Seq<char>),
    Array(Seq<JsonV>),
    Object(Seq<MemberV>),
}

/// One member of a JSON object as a mathematical value.
pub struct MemberV {
    pub key: Seq<char>,
    pub value: JsonV,
}

impl View for Json {
    type V = JsonV;

    open spec fn view(&self) -> JsonV
        decreases self,
    {
        match self {
            Json::Null => JsonV::Null,
            Json::Bool(b) => JsonV::Bool(*b),
            Json::Int(i) => JsonV::Int(*i as int),
            Json::Real(s) => JsonV::Real(s@),
            Json::Text(s) => JsonV::Text(s@),
            Json::Array(v) => JsonV::Array(
                Seq::new(
                    v@.len(),
                    |i: int|
                        if 0 <= i < v@.len() {
                            v@[i].view()
                        } else {
                            JsonV::Null
                        },
                ),
            ),
            Json::Object(v) => JsonV::Object(
                Seq::new(
                    v@.len(),
                    |i: int|
                        if 0 <= i < v@.len() {
                            MemberV { key: v@[i].key@, value: v@[i].value.view() }
                        } else {
                            arbitrary()
                        },
                ),
            ),
        }
    }
}

/// The values of an array.
pub open spec fn array_view(v: Seq<Json>) -> Seq<JsonV> {
    Seq::new(v.len(), |i: int| v[i]@)
}

/// The members of an object.
pub open spec fn object_view(v: Seq<Member>) -> Seq<MemberV> {
    Seq::new(v.len(), |i: int| MemberV { key: v[i].key@, value: v[i].value@ })
}

/// The view of an object is made of the views of its members.
pub proof fn lemma_object(v: Vec<Member>)
    ensures
        Json::Object(v)@ == JsonV::Object(object_view(v@)),
{
    let j = Json::Object(v);
    assert forall|i: int| 0 <= i < v@.len() implies j@->Object_0[i] == object_view(v@)[i] by {
        assert(j@->Object_0[i].key == v@[i].key@);
        assert(j@->Object_0[i].value == v@[i].value@);
    }
    assert(j@->Object_0 =~= object_view(v@));
}

/// The view of an array is made of the views of its values.
pub proof fn lemma_array(v: Vec<Json>)
    ensures
        Json::Array(v)@ == JsonV::Array(array_view(v@)),
{
    assert(Json::Array(v)@->Array_0 =~= array_view(v@));
}

/// Extending an object extends its view.
pub proof fn lemma_object_push(v: Seq<Member>, m: Member)
    ensures
        object_view(v.push(m)) == object_view(v).push(MemberV { key: m.key@, value: m.value@ }),
{
    assert(object_view(v.push(m)) =~= object_view(v).push(
        MemberV { key: m.key@, value: m.value@ },
    ));
}

/// The condition that the member at a position has the key.
pub open spec fn has_key(ms: Seq<MemberV>, key: Seq<char>) -> spec_fn(int) -> bool {
    |i: int| ms[i].key == key
}

/// The value of the first member with the key.
pub open spec fn lookup(ms: Seq<MemberV>, key: Seq<char>) -> Option<JsonV> {
    match first_where(ms.len() as int, has_key(ms, key)) {
        Some(i) => Some(ms[i].value),
        None => None,
    }
}

/// The value of the member with the key, where the value is an object that has one.
pub open spec fn member(j: JsonV, key: Seq<char>) -> Option<JsonV> {
    match j {
        JsonV::Object(ms) => lookup(ms, key),
        _ => None,
    }
}

/// The text under the key, where there is one and it is a string.
pub open spec fn member_text(j: JsonV, key: Seq<char>) -> Option<Seq<char>> {
    match member(j, key) {
        Some(JsonV::Text(s)) => Some(s),
        _ => None,
    }
}

/// The integer under the key, where there is one.
pub open spec fn member_int(j: JsonV, key: Seq<char>) -> Option<int> {
    match member(j, key) {
        Some(JsonV::Int(n)) => Some(n),
        _ => None,
    }
}

/// The boolean under the key, where there is one.
pub open spec fn member_bool(j: JsonV, key: Seq<char>) -> Option<bool> {
    match member(j, key) {
        Some(JsonV::Bool(b)) => Some(b),
        _ => None,
    }
}

/// The condition that the member at a position has a later key.
pub open spec fn has_later_key(ms: Seq<MemberV>, key: Seq<char>) -> spec_fn(int) -> bool {
    |i: int| text_lt(key, ms[i].key)
}

/// The place of a new key: before the first later one.
pub open spec fn place_of(ms: Seq<MemberV>, key: Seq<char>) -> int {
    match first_where(ms.len() as int, has_later_key(ms, key)) {
        Some(i) => i,
        None => ms.len() as int,
    }
}

/// The members with the key set to a value: the first member with the key is replaced, and where
/// there is none a new one comes before the first with a later key.
pub open spec fn with_member(ms: Seq<MemberV>, key: Seq<char>, value: JsonV) -> Seq<MemberV> {
    match first_where(ms.len() as int, has_key(ms, key)) {
        Some(i) => ms.update(i, MemberV { key, value }),
        None => ms.insert(place_of(ms, key), MemberV { key, value }),
    }
}

/// What was set under a key is what is found under it, and every other key keeps its value.
pub proof fn with_member_reads_back(ms: Seq<MemberV>, key: Seq<char>, value: JsonV, other: Seq<char>)
    ensures
        lookup(with_member(ms, key, value), key) == Some(value),
        other != key ==> lookup(with_member(ms, key, value), other) == lookup(ms, other),
{
    let r = with_member(ms, key, value);
    let n = ms.len() as int;
    first_where_is_least(n, has_key(ms, key));
    first_where_is_least(n, has_key(ms, other));
    first_where_is_least(n, has_later_key(ms, key));
    match first_where(n, has_key(ms, key)) {
        Some(i) => {
            assert forall|j: int| 0 <= j < i implies !#[trigger] has_key(r, key)(j) by {
                assert(!has_key(ms, key)(j));
            }
            assert(has_key(r, key)(i));
            first_where_found(n, has_key(r, key), i);
            if other != key {
                assert forall|j: int| 0 <= j < n implies #[trigger] has_key(r, other)(j) == has_key(
                    ms,
                    other,
                )(j) by {
                    if j == i {
                        assert(has_key(ms, key)(i));
                    }
                }
                first_where_agrees(n, has_key(r, other), has_key(ms, other));
                match first_where(n, has_key(ms, other)) {
                    Some(k) => {
                        assert(has_key(ms, other)(k));
                        assert(has_key(ms, key)(i));
                        assert(r[k] == ms[k]);
                    },
                    None => {},
                }
            }
        },
        None => {
            let p = place_of(ms, key);
            assert(0 <= p <= n);
            assert forall|j: int| 0 <= j < p implies !#[trigger] has_key(r, key)(j) by {
                assert(!has_key(ms, key)(j));
                assert(r[j] == ms[j]);
            }
            assert(has_key(r, key)(p));
            first_where_found(n + 1, has_key(r, key), p);
            if other != key {
                match first_where(n, has_key(ms, other)) {
                    Some(k) => {
                        let q = if k < p {
                            k
                        } else {
                            k + 1
                        };
                        assert(has_key(ms, other)(k));
                        assert(r[q] == ms[k]);
                        assert(has_key(r, other)(q));
                        assert forall|j: int| 0 <= j < q implies !#[trigger] has_key(r, other)(j) by {
                            if j < p {
                                assert(!has_key(ms, other)(j));
                                assert(r[j] == ms[j]);
                            } else if j > p {
                                assert(!has_key(ms, other)(j - 1));
                                assert(r[j] == ms[j - 1]);
                            }
                        }
                        first_where_found(n + 1, has_key(r, other), q);
                    },
                    None => {
                        first_where_is_least(n + 1, has_key(r, other));
                        match first_where(n + 1, has_key(r, other)) {
                            Some(q) => {
                                assert(has_key(r, other)(q));
                                if q < p {
                                    assert(r[q] == ms[q]);
                                    assert(has_key(ms, other)(q));
                                } else if q > p {
                                    assert(r[q] == ms[q - 1]);
                                    assert(has_key(ms, other)(q - 1));
                                }
                            },
                            None => {},
                        }
                    },
                }
            }
        },
    }
}

/// The value of an optional text, null where it is absent.
pub open spec fn text_or_null(o: Option<Seq<char>>) -> JsonV {
    match o {
        Some(s) => JsonV::Text(s),
        None => JsonV::Null,
    }
}

/// A copy of the values of an array.
pub fn duplicate_array(v: &Vec<Json>) -> (r: Vec<Json>)
    ensures
        array_view(r@) == array_view(v@),
    decreases v,
{
    let mut out: Vec<Json> = Vec::new();
    for i in 0..v.len()
        invariant
            out@.len() == i,
            forall|k: int| 0 <= k < i ==> (#[trigger] out@[k])@ == v@[k]@,
    {
        proof {
            assert(decreases_to!(v => v@[i as int]));
        }
        let e: Json = v[i].duplicate();
        out.push(e);
    }
    assert(array_view(out@) =~= array_view(v@));
    out
}

/// A copy of the members of an object.
pub fn duplicate_object(v: &Vec<Member>) -> (r: Vec<Member>)
    ensures
        object_view(r@) == object_view(v@),
    decreases v,
{
    let mut out: Vec<Member> = Vec::new();
    for i in 0..v.len()
        invariant
            out@.len() == i,
            forall|k: int|
                0 <= k < i ==> (#[trigger] out@[k]).key@ == v@[k].key@ && out@[k].value@
                    == v@[k].value@,
    {
        proof {
            assert(decreases_to!(v => v@[i as int]));
            assert(decreases_to!(v@[i as int] => v@[i as int].value));
        }
        let e: Member = Member { key: v[i].key.clone(), value: v[i].value.duplicate() };
        out.push(e);
    }
    assert(object_view(out@) =~= object_view(v@));
    out
}

/// The position of the first member with the key.
pub fn find_member(v: &Vec<Member>, key: &str) -> (r: Option<usize>)
    ensures
        position(r) == first_where(v@.len() as int, has_key(object_view(v@), key@)),
        r matches Some(i) ==> i < v@.len() && v@[i as int].key@ == key@,
{
    let mut found: Option<usize> = None;
    let mut i: usize = 0;
    let ghost p = has_key(object_view(v@), key@);
    while i < v.len()
        invariant
            i <= v@.len(),
            p == has_key(object_view(v@), key@),
            position(found) == first_where(i as int, p),
            found matches Some(k) ==> k < i && v@[k as int].key@ == key@,
        decreases v.len() - i,
    {
        if found.is_none() && same(v[i].key.as_str(), key) {
            found = Some(i);
        }
        i += 1;
    }
    found
}

/// The value of the first member with the key.
pub fn find_value<'a>(v: &'a Vec<Member>, key: &str) -> (r: Option<&'a Json>)
    ensures
        (match r {
            Some(j) => Some(j@),
            None => None,
        }) == lookup(object_view(v@), key@),
{
    match find_member(v, key) {
        Some(i) => Some(&v[i].value),
        None => None,
    }
}

/// The text under a key, where there is one and it is a string.
pub open spec fn lookup_text(ms: Seq<MemberV>, key: Seq<char>) -> Option<Seq<char>> {
    match lookup(ms, key) {
        Some(JsonV::Text(s)) => Some(s),
        _ => None,
    }
}

/// The text under a key, where there is one and it is a string.
pub fn find_text(v: &Vec<Member>, key: &str) -> (r: Option<String>)
    ensures
        crate::text::opt_text(r) == lookup_text(object_view(v@), key@),
{
    match find_value(v, key) {
        Some(Json::Text(s)) => Some(s.clone()),
        _ => None,
    }
}

/// Sets the value under a key.
pub fn set_member(v: &mut Vec<Member>, key: &str, value: Json)
    ensures
        object_view(final(v)@) == with_member(object_view(old(v)@), key@, value@),
{
    let m: Member = Member { key: key.to_owned(), value };
    match find_member(v, key) {
        Some(i) => {
            v.set(i, m);
            assert(object_view(v@) =~= object_view(old(v)@).update(
                i as int,
                MemberV { key: key@, value: value@ },
            ));
        },
        None => {
            let ghost ms = object_view(v@);
            let ghost p = has_later_key(ms, key@);
            let mut found: Option<usize> = None;
            let mut i: usize = 0;
            while i < v.len()
                invariant
                    i <= v@.len(),
                    ms == object_view(v@),
                    p == has_later_key(ms, key@),
                    position(found) == first_where(i as int, p),
                    found matches Some(k) ==> k < i,
                decreases v.len() - i,
            {
                if found.is_none() && text_less(key, v[i].key.as_str()) {
                    found = Some(i);
                }
                i += 1;
            }
            let place: usize = match found {
                Some(k) => k,
                None => v.len(),
            };
            v.insert(place, m);
            assert(object_view(v@) =~= ms.insert(
                place as int,
                MemberV { key: key@, value: value@ },
            ));
        },
    }
}

/// Appends a member.
pub fn push_member(v: &mut Vec<Member>, key: &str, value: Json)
    ensures
        object_view(final(v)@) == object_view(old(v)@).push(MemberV { key: key@, value: value@ }),
{
    let m: Member = Member { key: key.to_owned(), value };
    v.push(m);
    proof {
        lemma_object_push(old(v)@, m);
    }
}

fn same_array(a: &Vec<Json>, b: &Vec<Json>) -> (r: bool)
    ensures
        r == (array_view(a@) == array_view(b@)),
    decreases a,
{
    if a.len() != b.len() {
        assert(array_view(a@).len() != array_view(b@).len());
        return false;
    }
    for i in 0..a.len()
        invariant
            a@.len() == b@.len(),
            forall|k: int| 0 <= k < i ==> (#[trigger] a@[k])@ == b@[k]@,
    {
        proof {
            assert(decreases_to!(a => a@[i as int]));
        }
        if !a[i].same(&b[i]) {
            assert(array_view(a@)[i as int] != array_view(b@)[i as int]);
            return false;
        }
    }
    assert(array_view(a@) =~= array_view(b@));
    true
}

fn same_object(a: &Vec<Member>, b: &Vec<Member>) -> (r: bool)
    ensures
        r == (object_view(a@) == object_view(b@)),
    decreases a,
{
    if a.len() != b.len() {
        assert(object_view(a@).len() != object_view(b@).len());
        return false;
    }
    for i in 0..a.len()
        invariant
            a@.len() == b@.len(),
            forall|k: int|
                0 <= k < i ==> (#[trigger] a@[k]).key@ == b@[k].key@ && a@[k].value@ == b@[k].value@,
    {
        proof {
            assert(decreases_to!(a => a@[i as int]));
            assert(decreases_to!(a@[i as int] => a@[i as int].value));
        }
        if !same(a[i].key.as_str(), b[i].key.as_str()) || !a[i].value.same(&b[i].value) {
            assert(object_view(a@)[i as int] != object_view(b@)[i as int]);
            return false;
        }
    }
    assert(object_view(a@) =~= object_view(b@));
    true
}

impl Json {
    /// Whether two values are equal, members in the same order.
    pub fn same(&self, other: &Json) -> (r: bool)
        ensures
            r == (self@ == other@),
        decreases self,
    {
        match (self, other) {
            (Json::Null, Json::Null) => true,
            (Json::Bool(a), Json::Bool(b)) => *a == *b,
            (Json::Int(a), Json::Int(b)) => *a == *b,
            (Json::Real(a), Json::Real(b)) => same(a.as_str(), b.as_str()),
            (Json::Text(a), Json::Text(b)) => same(a.as_str(), b.as_str()),
            (Json::Array(a), Json::Array(b)) => {
                proof {
                    lemma_array(*a);
                    lemma_array(*b);
                }
                same_array(a, b)
            },
            (Json::Object(a), Json::Object(b)) => {
                proof {
                    lemma_object(*a);
                    lemma_object(*b);
                }
                same_object(a, b)
            },
            _ => false,
        }
    }

    /// A copy of the value.
    pub fn duplicate(&self) -> (r: Json)
        ensures
            r@ == self@,
        decreases self,
    {
        match self {
            Json::Null => Json::Null,
            Json::Bool(b) => Json::Bool(*b),
            Json::Int(i) => Json::Int(*i),
            Json::Real(s) => Json::Real(s.clone()),
            Json::Text(s) => Json::Text(s.clone()),
            Json::Array(v) => {
                let w: Vec<Json> = duplicate_array(v);
                proof {
                    lemma_array(w);
                    lemma_array(*v);
                }
                Json::Array(w)
            },
            Json::Object(v) => {
                let w: Vec<Member> = duplicate_object(v);
                proof {
                    lemma_object(w);
                    lemma_object(*v);
                }
                Json::Object(w)
            },
        }
    }

    /// The value under a key of an object.
    pub fn get(&self, key: &str) -> (r: Option<&Json>)
        ensures
            match r {
                Some(j) => member(self@, key@) == Some(j@),
                None => member(self@, key@) is None,
            },
    {
        match self {
            Json::Object(v) => {
                proof {
                    lemma_object(*v);
                }
                match find_member(v, key) {
                    Some(i) => Some(&v[i].value),
                    None => None,
                }
            },
            _ => None,
        }
    }

    /// The text under a key of an object.
    pub fn get_text(&self, key: &str) -> (r: Option<&str>)
        ensures
            crate::text::opt_str(r) == member_text(self@, key@),
    {
        match self.get(key) {
            Some(Json::Text(s)) => Some(s.as_str()),
            _ => None,
        }
    }

    /// The integer under a key of an object.
    pub fn get_int(&self, key: &str) -> (r: Option<i64>)
        ensures
            match r {
                Some(n) => member_int(self@, key@) == Some(n as int),
                None => member_int(self@, key@) is None,
            },
    {
        match self.get(key) {
            Some(Json::Int(n)) => Some(*n),
            _ => None,
        }
    }

    /// The boolean under a key of an object.
    pub fn get_bool(&self, key: &str) -> (r: Option<bool>)
        ensures
            r == member_bool(self@, key@),
    {
        match self.get(key) {
            Some(Json::Bool(b)) => Some(*b),
            _ => None,
        }
    }

    /// A text value.
    pub fn text(s: &str) -> (r: Json)
        ensures
            r@ == JsonV::Text(s@),
    {
        Json::Text(s.to_owned())
    }

    /// An optional text value, null where it is absent.
    pub fn opt_text(o: Option<&str>) -> (r: Json)
        ensures
            r@ == text_or_null(crate::text::opt_str(o)),
    {
        match o {
            Some(s) => Json::Text(s.to_owned()),
            None => Json::Null,
        }
    }
}

/// The first member with a key is the one that is read.
pub proof fn lemma_member_at(ms: Seq<MemberV>, i: int)
    requires
        0 <= i < ms.len(),
        forall|k: int| 0 <= k < i ==> (#[trigger] ms[k]).key != ms[i].key,
    ensures
        member(JsonV::Object(ms), ms[i].key) == Some(ms[i].value),
{
    let p = has_key(ms, ms[i].key);
    assert forall|k: int| 0 <= k < i implies !#[trigger] p(k) by {
        assert(ms[k].key != ms[i].key);
    }
    assert(p(i));
    crate::search::first_where_found(ms.len() as int, p, i);
}


/// What an object has under a key is the value of its first member with the key; a text, a number and a
/// boolean are read where the value is one; what is no object has nothing under any key.
pub proof fn members_are_read_by_key(ms: Vec<Member>, key: &str, r: Option<&Json>, text: Option<&str>, number: Option<i64>, flag: Option<bool>, i: int)
    requires
        call_ensures(Json::get, (&Json::Object(ms), key), r),
        call_ensures(Json::get_text, (&Json::Object(ms), key), text),
        call_ensures(Json::get_int, (&Json::Object(ms), key), number),
        call_ensures(Json::get_bool, (&Json::Object(ms), key), flag),
        0 <= i < ms@.len(),
        forall|k: int| 0 <= k < i ==> (#[trigger] ms@[k]).key@ != key@,
    ensures
        ms@[i].key@ == key@ ==> (r matches Some(j) && j@ == ms@[i].value@),
        ms@[i].key@ != key@ && i == ms@.len() - 1 ==> r is None && text is None && number is None && flag is None,
        ms@[i].key@ == key@ ==> (text is Some <==> ms@[i].value is Text) && (number is Some <==> ms@[i].value is Int) && (flag is Some <==> ms@[i].value is Bool),
        ms@[i].key@ == key@ ==> (ms@[i].value matches Json::Text(s) ==> (text matches Some(t) && t@ == s@)),
        ms@[i].key@ == key@ ==> (ms@[i].value matches Json::Int(n) ==> number == Some(n)),
        ms@[i].key@ == key@ ==> (ms@[i].value matches Json::Bool(b) ==> flag == Some(b)),
{
    lemma_object(ms);
    let vs = object_view(ms@);
    assert(vs[i].key == ms@[i].key@ && vs[i].value == ms@[i].value@);
    let p = has_key(vs, key@);
    let n = vs.len() as int;
    assert forall|k: int| 0 <= k < i implies !#[trigger] p(k) by {
        assert(ms@[k].key@ != key@);
    }
    first_where_is_least(n, p);
    if ms@[i].key@ == key@ {
        assert(p(i));
        crate::search::first_where_found(n, p, i);
        assert(Json::Object(ms)@ == JsonV::Object(vs));
    } else if i == n - 1 {
        if let Some(k) = first_where(n, p) {
            assert(p(k));
        }
    }
}

/// A value that is no object has nothing under any key.
pub proof fn only_objects_have_members(j: Json, key: &str, r: Option<&Json>)
    requires
        call_ensures(Json::get, (&j, key), r),
        !(j is Object),
    ensures
        r is None,
{
}

/// A value that was set under a key is found there, and what is under other keys stays.
pub proof fn set_values_are_found(ms: &mut Vec<Member>, key: &str, value: Json, found: Option<&Json>, other: &str, before: Option<&Json>, after: Option<&Json>)
    requires
        call_ensures(set_member, (ms, key, value), ()),
        call_ensures(find_value, (&*final(ms), key), found),
        call_ensures(find_value, (&*old(ms), other), before),
        call_ensures(find_value, (&*final(ms), other), after),
    ensures
        found matches Some(j) && j@ == value@,
        other@ != key@ ==> (after is Some <==> before is Some),
        other@ != key@ && before is Some ==> after->0@ == before->0@,
{
    with_member_reads_back(object_view(old(ms)@), key@, value@, other@);
    with_member_reads_back(object_view(old(ms)@), key@, value@, key@);
}

/// A text is a value, and what is absent is null.
pub proof fn texts_are_values(s: &str, r: Json, o: Option<&str>, q: Json)
    requires
        call_ensures(Json::text, (s,), r),
        call_ensures(Json::opt_text, (o,), q),
    ensures
        r@ == JsonV::Text(s@),
        o matches Some(t) ==> q@ == JsonV::Text(t@),
        o is None ==> q@ == JsonV::Null,
{
}

} // verus!
