//! JSON documents as plain values, parsed by `serde_json`, and the lookups that
//! the recorded browsing sessions need: members by name, and the decimal names
//! of numbers.
use vstd::prelude::*;
use vstd::string::StrSliceExecFns;

verus! {

/// A JSON value. A number is held as the `u64` it denotes, when it denotes one.
pub enum Json {
    Null,
    Bool(bool),
    Number(Option<u64>),
    Str(String),
    Array(Vec<Json>),
    /// The members of an object, in the order the parser keeps them; no name
    /// occurs twice.
    Object(Vec<(String, Json)>),
}

#[verifier::external_type_specification]
#[verifier::external_body]
pub struct ExJsonValue(serde_json::Value);

/// The document that `serde_json` parses from `bytes`, when they hold one.
pub uninterp spec fn json_of(bytes: Seq<u8>) -> Option<Json>;

/// Parses `bytes` as one JSON document with `serde_json::from_slice`.
///
/// Trusted: the result is the name `json_of` applied to the bytes; nothing
/// more is claimed of the grammar `serde_json` accepts.
#[verifier::external_body]
pub fn parse_json(bytes: &[u8]) -> (res: Option<Json>)
    ensures
        res == json_of(bytes@),
{
    serde_json::from_slice::<serde_json::Value>(bytes).ok().map(json_from_value)
}

/// Converts a parsed `serde_json::Value` into a [`Json`], variant for variant
/// (a number through `Number::as_u64`); used by [`parse_json`] alone.
#[verifier::external_body]
fn json_from_value(v: serde_json::Value) -> Json {
    match v {
        serde_json::Value::Null => Json::Null,
        serde_json::Value::Bool(b) => Json::Bool(b),
        serde_json::Value::Number(n) => Json::Number(n.as_u64()),
        serde_json::Value::String(s) => Json::Str(s),
        serde_json::Value::Array(a) => Json::Array(a.into_iter().map(json_from_value).collect()),
        serde_json::Value::Object(m) => Json::Object(m.into_iter().map(|(k, x)| (k, json_from_value(x))).collect()),
    }
}

/// The character of a decimal digit.
pub open spec fn digit_char(d: nat) -> char {
    (48 + d) as char
}

/// The decimal name of `n`, without leading zeros.
pub open spec fn decimal(n: nat) -> Seq<char>
    decreases n,
{
    if n < 10 {
        seq![digit_char(n)]
    } else {
        decimal(n / 10).push(digit_char(n % 10))
    }
}

/// Whether `c` is one of the digits `'0'` to `'9'`.
pub open spec fn is_digit(c: char) -> bool {
    '0' <= c && c <= '9'
}

/// The number that a string of decimal digits reads as: each digit, from the
/// most significant to the least, weighted by its power of ten.
pub open spec fn digits_value(s: Seq<char>) -> int
    decreases s.len(),
{
    if s.len() == 0 {
        0
    } else {
        digits_value(s.drop_last()) * 10 + (s.last() as int - 48)
    }
}

/// The decimal name of `n` is its standard base-10 writing: it is made of
/// digits alone, reads back as `n`, and has no leading zero (so it is as long
/// as `n` has decimal digits).
pub proof fn lemma_decimal_reads_back(n: nat)
    ensures
        decimal(n).len() >= 1,
        forall|i: int| 0 <= i < decimal(n).len() ==> is_digit(#[trigger] decimal(n)[i]),
        digits_value(decimal(n)) == n,
        decimal(n)[0] == '0' ==> n == 0,
        n >= 10 ==> decimal(n).len() == decimal(n / 10).len() + 1,
    decreases n,
{
    if n < 10 {
        let s = decimal(n);
        assert(s.drop_last() =~= Seq::<char>::empty());
        assert(digits_value(s.drop_last()) == 0);
        assert((48 + n) as char as int == 48 + n);
    } else {
        lemma_decimal_reads_back(n / 10);
        let s = decimal(n);
        let c = digit_char(n % 10);
        assert(s.drop_last() =~= decimal(n / 10));
        assert(s.last() == c);
        assert(c as int == 48 + n % 10);
        assert forall|i: int| 0 <= i < s.len() implies is_digit(#[trigger] s[i]) by {
            if i < s.len() - 1 {
                assert(s[i] == decimal(n / 10)[i]);
            }
        }
        assert(s[0] == decimal(n / 10)[0]);
    }
}

/// The characters of the decimal name of `n`.
pub fn decimal_chars(n: usize) -> (v: Vec<char>)
    ensures
        v@ == decimal(n as nat),
        digits_value(v@) == n,
        forall|i: int| 0 <= i < v@.len() ==> is_digit(#[trigger] v@[i]),
        v@.len() >= 1 && (v@[0] == '0' ==> n == 0),
    decreases n,
{
    proof {
        lemma_decimal_reads_back(n as nat);
    }
    let d: u8 = (n % 10) as u8;
    let c: char = (48u8 + d) as char;
    if n < 10 {
        let mut v: Vec<char> = Vec::new();
        v.push(c);
        v
    } else {
        let mut v = decimal_chars(n / 10);
        v.push(c);
        v
    }
}

/// Whether `s` holds exactly the characters `cs`.
pub fn str_is(s: &String, cs: &Vec<char>) -> (res: bool)
    ensures
        res == (s@ == cs@),
{
    let t = s.as_str();
    let n: usize = t.unicode_len();
    if n != cs.len() {
        return false;
    }
    let mut i: usize = 0;
    while i < n
        invariant
            n == t@.len() == cs@.len(),
            t@ == s@,
            i <= n,
            forall|j: int| 0 <= j < i ==> t@[j] == cs@[j],
        decreases n - i,
    {
        if t.get_char(i) != cs[i] {
            return false;
        }
        i = i + 1;
    }
    assert(t@ =~= cs@);
    true
}

/// The value of the first member of `entries` named `name`.
pub open spec fn member_of(entries: Seq<(String, Json)>, name: Seq<char>) -> Option<Json>
    decreases entries.len(),
{
    if entries.len() == 0 {
        None
    } else if entries[0].0@ == name {
        Some(entries[0].1)
    } else {
        member_of(entries.drop_first(), name)
    }
}

/// The member of `j` named `name`: none unless `j` is an object with such a member.
pub open spec fn json_get(j: Json, name: Seq<char>) -> Option<Json> {
    match j {
        Json::Object(entries) => member_of(entries@, name),
        _ => None,
    }
}

/// The member of `j` named `name`, if `j` is an object that has one.
pub fn json_member<'a>(j: &'a Json, name: &Vec<char>) -> (res: Option<&'a Json>)
    ensures
        match res {
            Some(r) => json_get(*j, name@) == Some(*r),
            None => json_get(*j, name@) is None,
        },
{
    match j {
        Json::Object(entries) => {
            let mut i: usize = 0;
            assert(entries@.skip(0) =~= entries@);
            while i < entries.len()
                invariant
                    i <= entries@.len(),
                    json_get(*j, name@) == member_of(entries@, name@),
                    member_of(entries@, name@) == member_of(entries@.skip(i as int), name@),
                decreases entries.len() - i,
            {
                assert(entries@.skip(i as int).drop_first() =~= entries@.skip(i + 1));
                if str_is(&entries[i].0, name) {
                    assert(entries@.skip(i as int)[0] == entries@[i as int]);
                    return Some(&entries[i].1);
                }
                i = i + 1;
            }
            assert(entries@.skip(i as int) =~= Seq::<(String, Json)>::empty());
            None
        },
        _ => None,
    }
}

} // verus!
