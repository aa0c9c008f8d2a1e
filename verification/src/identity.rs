//! The identity of a request, a client or a member: a 128-bit universally
//! unique value, kept together with the text under which the board files it.

use vstd::prelude::*;

verus! {

/// The lower-case digit of a value below sixteen.
pub open spec fn hex_digit(n: int) -> char {
    seq!['0', '1', '2', '3', '4', '5', '6', '7', '8', '9', 'a', 'b', 'c', 'd', 'e', 'f'][n]
}

/// The lowest `count` hexadecimal digits of `value`, the most significant first.
pub open spec fn hex_digits(value: nat, count: nat) -> Seq<char>
    decreases count,
{
    if count == 0 {
        Seq::empty()
    } else {
        hex_digits(value / 16, (count - 1) as nat).push(hex_digit((value % 16) as int))
    }
}

/// The canonical text of an identity: its thirty-two lower-case hexadecimal
/// digits in groups of eight, four, four, four and twelve, with a hyphen
/// between the groups.
pub open spec fn canonical_text(value: u128) -> Seq<char> {
    let digits = hex_digits(value as nat, 32);
    digits.subrange(0, 8) + seq!['-'] + digits.subrange(8, 12) + seq!['-'] + digits.subrange(12, 16)
        + seq!['-'] + digits.subrange(16, 20) + seq!['-'] + digits.subrange(20, 32)
}

/// The identity that `uuid::Uuid::parse_str` reads from a text, or `None`
/// where it rejects the text.
pub uninterp spec fn uuid_parsed(text: Seq<char>) -> Option<u128>;

/// `uuid::Uuid::to_string` on the identity with the given value: the
/// hyphenated lower-case form, which `uuid::Uuid::parse_str` reads back as
/// the same value.
#[verifier::external_body]
fn uuid_text(value: u128) -> (text: String)
    ensures
        text@ == canonical_text(value),
        uuid_parsed(text@) == Some(value),
{
    uuid::Uuid::from_u128(value).to_string()
}

/// `uuid::Error`: why `uuid::Uuid::parse_str` rejected a text. Nothing is
/// read from it.
#[verifier::external_type_specification]
#[verifier::external_body]
pub struct ExUuidError(uuid::Error);

/// `uuid::Uuid::parse_str`: the value of the identity that the text denotes,
/// or the error with which the text is rejected.
#[verifier::external_body]
fn uuid_parse(text: &str) -> (read: Result<u128, uuid::Error>)
    ensures
        match read {
            Ok(value) => uuid_parsed(text@) == Some(value),
            Err(_) => uuid_parsed(text@) is None,
        },
{
    match uuid::Uuid::parse_str(text) {
        Ok(id) => Ok(id.as_u128()),
        Err(error) => Err(error),
    }
}

/// `uuid::Uuid::new_v4`: the value of a random identity. Nothing is claimed
/// of which value comes back.
#[verifier::external_body]
fn uuid_random() -> (value: u128)
{
    uuid::Uuid::new_v4().as_u128()
}

/// A universally unique identity together with its canonical text.
#[derive(Debug, PartialEq, Eq, Hash)]
pub struct Identifier {
    value: u128,
    text: String,
}

impl View for Identifier {
    type V = u128;

    closed spec fn view(&self) -> u128 {
        self.value
    }
}

impl Identifier {
    /// The text under which the board files this identity.
    pub closed spec fn text(&self) -> Seq<char> {
        self.text@
    }

    /// The text is the canonical one, and reading it gives the value back.
    pub open spec fn wf(&self) -> bool {
        &&& self.text() == canonical_text(self@)
        &&& uuid_parsed(self.text()) == Some(self@)
    }

    /// The identity with the given value.
    pub fn from_u128(value: u128) -> (id: Identifier)
        ensures
            id@ == value,
            id.wf(),
    {
        Identifier { value, text: uuid_text(value) }
    }

    /// A fresh random identity.
    pub fn generate() -> (id: Identifier)
        ensures
            id.wf(),
    {
        Identifier::from_u128(uuid_random())
    }

    /// Reads an identity from a text, in any of the forms that the `uuid`
    /// crate reads; `None` where the text denotes none.
    pub fn parse(text: &str) -> (id: Option<Identifier>)
        ensures
            match id {
                Some(id) => uuid_parsed(text@) == Some(id@) && id.wf(),
                None => uuid_parsed(text@) is None,
            },
    {
        match uuid_parse(text) {
            Ok(value) => Some(Identifier::from_u128(value)),
            Err(_) => None,
        }
    }

    /// The 128-bit value.
    pub fn as_u128(&self) -> (value: u128)
        ensures
            value == self@,
    {
        self.value
    }

    /// The canonical text.
    pub fn as_str(&self) -> (text: &str)
        ensures
            text@ == self.text(),
    {
        self.text.as_str()
    }

    /// A copy of this identity.
    pub fn duplicate(&self) -> (id: Identifier)
        ensures
            id == *self,
    {
        Identifier { value: self.value, text: self.text.clone() }
    }
}

} // verus!
