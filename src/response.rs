//! What a request hands back to the host: payout instructions for the
//! settlement side and event attributes.
use vstd::prelude::*;

verus! {

/// One key/value attribute of an event.
#[derive(Clone, Debug, PartialEq, Eq)]
pub struct Attribute {
    pub key: String,
    pub value: String,
}

/// An instruction to send `amount` of `denom` to `to_address`.
#[derive(Clone, Debug, PartialEq, Eq)]
pub struct BankSend {
    pub to_address: String,
    pub amount: u128,
    pub denom: String,
}

/// The outcome of a successful request.
#[derive(Clone, Debug, PartialEq, Eq)]
pub struct Response {
    pub messages: Vec<BankSend>,
    pub attributes: Vec<Attribute>,
}

/// The character of a decimal digit.
pub open spec fn digit_char(d: nat) -> char {
    if d == 0 {
        '0'
    } else if d == 1 {
        '1'
    } else if d == 2 {
        '2'
    } else if d == 3 {
        '3'
    } else if d == 4 {
        '4'
    } else if d == 5 {
        '5'
    } else if d == 6 {
        '6'
    } else if d == 7 {
        '7'
    } else if d == 8 {
        '8'
    } else {
        '9'
    }
}

/// The decimal digits of `n`, most significant first, without leading zeros.
pub open spec fn decimal_chars(n: nat) -> Seq<char>
    decreases n,
{
    if n < 10 {
        seq![digit_char(n)]
    } else {
        decimal_chars(n / 10).push(digit_char(n % 10))
    }
}

/// Relies on `u128`'s `Display` (through `ToString`): it writes the number in
/// decimal digits, without sign, padding or leading zeros.
#[verifier::external_body]
pub(crate) fn decimal(n: u128) -> (r: String)
    ensures
        r@ == decimal_chars(n as nat),
{
    n.to_string()
}

/// The attributes as pairs of key and value.
pub open spec fn attrs_view(v: Seq<Attribute>) -> Seq<(Seq<char>, Seq<char>)> {
    v.map_values(|a: Attribute| (a.key@, a.value@))
}

/// The payout instructions as triples of recipient, amount and denomination.
pub open spec fn sends_view(v: Seq<BankSend>) -> Seq<(Seq<char>, nat, Seq<char>)> {
    v.map_values(|m: BankSend| (m.to_address@, m.amount as nat, m.denom@))
}

/// An attribute from a key and a value.
pub fn attr(key: &str, value: String) -> (r: Attribute)
    ensures
        r.key@ == key@,
        r.value == value,
{
    Attribute { key: key.to_owned(), value }
}

impl Response {
    /// A response with no instruction and no attribute.
    pub fn new() -> (r: Response)
        ensures
            r.messages@.len() == 0,
            r.attributes@.len() == 0,
    {
        Response { messages: Vec::new(), attributes: Vec::new() }
    }

    /// Appends one attribute.
    pub fn add_attribute(&mut self, key: &str, value: String)
        ensures
            final(self).messages == old(self).messages,
            attrs_view(final(self).attributes@) == attrs_view(old(self).attributes@).push(
                (key@, value@),
            ),
    {
        self.attributes.push(attr(key, value));
        assert(attrs_view(self.attributes@) =~= attrs_view(old(self).attributes@).push((key@, value@)));
    }

    /// Appends one payout instruction.
    pub fn add_message(&mut self, msg: BankSend)
        ensures
            final(self).attributes == old(self).attributes,
            final(self).messages@ == old(self).messages@.push(msg),
    {
        self.messages.push(msg);
    }
}

} // verus!
