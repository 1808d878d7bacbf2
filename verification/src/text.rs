//! Comparison and assembly of strings, stated over their character sequences.

use vstd::prelude::*;
use vstd::utf8::*;

verus! {

/// The characters of an optional string.
pub open spec fn text(value: Option<&str>) -> Option<Seq<char>> {
    match value {
        Some(s) => Some(s@),
        None => None,
    }
}

/// A result whose message is read as its characters.
pub open spec fn outcome<T>(r: Result<T, String>) -> Result<T, Seq<char>> {
    match r {
        Ok(v) => Ok(v),
        Err(e) => Err(e@),
    }
}

/// The message for a capability name outside the closed set.
pub open spec fn unknown_trait(name: Seq<char>) -> Seq<char> {
    "unknown trait \""@ + name + "\""@
}

/// The message for an option key that a capability does not know.
pub open spec fn unknown_attribute(key: Seq<char>) -> Seq<char> {
    "unknown attribute \""@ + key + "\""@
}

/// The message for an option that must carry a value and was given bare.
pub open spec fn needs_value(option: Seq<char>) -> Seq<char> {
    option + " needs a value"@
}

/// The message for a boolean option whose value is neither `"true"` nor `"false"`.
pub open spec fn invalid_value(option: Seq<char>) -> Seq<char> {
    "Invalid value for `"@ + option + "`"@
}

/// Whether `name` stands somewhere in `message`, character for character.
pub open spec fn names(message: Seq<char>, name: Seq<char>) -> bool {
    exists|from: int, to: int|
        0 <= from && to == from + name.len() && to <= message.len() && #[trigger] message.subrange(
            from,
            to,
        ) == name
}

/// Each message holds the name that it was made for.
pub proof fn lemma_messages_name(name: Seq<char>)
    ensures
        names(unknown_trait(name), name),
        names(unknown_attribute(name), name),
        names(needs_value(name), name),
        names(invalid_value(name), name),
{
    let n = name.len() as int;
    let a = "unknown trait \""@.len() as int;
    assert(unknown_trait(name).subrange(a, a + n) =~= name);
    let b = "unknown attribute \""@.len() as int;
    assert(unknown_attribute(name).subrange(b, b + n) =~= name);
    assert(needs_value(name).subrange(0, n) =~= name);
    let c = "Invalid value for `"@.len() as int;
    assert(invalid_value(name).subrange(c, c + n) =~= name);
}

/// Two strings with the same UTF-8 bytes hold the same characters.
pub proof fn lemma_same_bytes_same_chars(a: Seq<char>, b: Seq<char>)
    requires
        encode_utf8(a) == encode_utf8(b),
    ensures
        a == b,
{
    encode_utf8_decode_utf8(a);
    encode_utf8_decode_utf8(b);
}

/// Whether two strings hold the same characters.
pub fn str_eq(a: &str, b: &str) -> (same: bool)
    ensures
        same == (a@ == b@),
{
    let x = a.as_bytes();
    let y = b.as_bytes();
    if x.len() != y.len() {
        return false;
    }
    let mut i: usize = 0;
    while i < x.len()
        invariant
            i <= x.len(),
            x.len() == y.len(),
            x@ == encode_utf8(a@),
            y@ == encode_utf8(b@),
            forall|j: int| 0 <= j < i ==> x@[j] == y@[j],
        decreases x.len() - i,
    {
        if x[i] != y[i] {
            return false;
        }
        i += 1;
    }
    proof {
        assert(x@ =~= y@);
        lemma_same_bytes_same_chars(a@, b@);
    }
    true
}

/// The two strings one after another.
pub fn prefixed(head: &str, tail: &str) -> (joined: String)
    ensures
        joined@ == head@ + tail@,
{
    let mut joined = String::from_str(head);
    joined.append(tail);
    joined
}

/// The three strings one after another.
pub fn join(head: &str, middle: &str, tail: &str) -> (joined: String)
    ensures
        joined@ == head@ + middle@ + tail@,
{
    let mut joined = String::from_str(head);
    joined.append(middle);
    joined.append(tail);
    joined
}

} // verus!
