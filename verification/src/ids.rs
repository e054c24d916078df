//! Identifiers of tasks, nodes, leases and events.

use crate::text::{opt_text, reads, unread};
use vstd::prelude::*;

verus! {

/// A 128-bit universally unique identifier.
#[derive(Debug, Clone, Copy, PartialEq, Eq, Structural, Hash)]
pub struct Uuid {
    pub bits: u128,
}

/// `uuid::Error`, carried unopened.
#[verifier::external_type_specification]
#[verifier::external_body]
pub struct ExUuidError(uuid::Error);

/// The lower-case hexadecimal digit for `d`.
pub open spec fn hex_digit(d: nat) -> char {
    if d < 10 {
        (48 + d) as char
    } else {
        (87 + d) as char
    }
}

/// The last `count` hexadecimal digits of `n`.
pub open spec fn hex_digits(n: nat, count: nat) -> Seq<char>
    decreases count,
{
    if count == 0 {
        Seq::empty()
    } else {
        hex_digits(n / 16, (count - 1) as nat).push(hex_digit(n % 16))
    }
}

/// The canonical text of an identifier: its digits in groups of 8, 4, 4, 4 and 12.
pub open spec fn hyphenated(bits: u128) -> Seq<char> {
    let d = hex_digits(bits as nat, 32);
    d.subrange(0, 8) + seq!['-'] + d.subrange(8, 12) + seq!['-'] + d.subrange(12, 16) + seq!['-']
        + d.subrange(16, 20) + seq!['-'] + d.subrange(20, 32)
}

/// The version digit is 4 and the variant is the standard one.
pub open spec fn is_v4(id: Uuid) -> bool {
    (id.bits >> 76) & 0xf == 4 && (id.bits >> 62) & 0x3 == 2
}

/// What `uuid::Uuid::parse_str` reads out of a text: the identifier, or what its error prints as.
pub uninterp spec fn parsed_uuid(text: Seq<char>) -> Result<Uuid, Seq<char>>;

/// What `uuid::Error` prints as.
pub uninterp spec fn uuid_error_text(err: uuid::Error) -> Seq<char>;

impl View for Uuid {
    type V = Seq<char>;

    open spec fn view(&self) -> Seq<char> {
        hyphenated(self.bits)
    }
}

/// A fresh random identifier, from `uuid::Uuid::new_v4`.
///
/// The version digit is 4 and the variant is the standard one; nothing else is known of it, not
/// even that it differs from those drawn before.
#[verifier::external_body]
fn drawn_uuid() -> (id: Uuid)
    ensures
        is_v4(id),
{
    Uuid { bits: uuid::Uuid::new_v4().as_u128() }
}

/// Reads an identifier with `uuid::Uuid::parse_str`, which takes the canonical text of any.
///
/// Which other spellings the function takes is left unsaid here.
#[verifier::external_body]
fn uuid_from(text: &str) -> (res: Result<Uuid, uuid::Error>)
    ensures
        match res {
            Ok(id) => parsed_uuid(text@) == reads(id),
            Err(err) => parsed_uuid(text@) == unread::<Uuid>(uuid_error_text(err)),
        },
        forall|id: Uuid| text@ == #[trigger] id@ ==> res is Ok && res->Ok_0 == id,
{
    uuid::Uuid::parse_str(text).map(|id| Uuid { bits: id.as_u128() })
}

/// The canonical text of an identifier, from the `Display` of `uuid::Uuid`; reading it gives the
/// identifier back.
#[verifier::external_body]
fn uuid_text(id: &Uuid) -> (text: String)
    ensures
        text@ == id@,
        parsed_uuid(text@) == reads(*id),
{
    uuid::Uuid::from_u128(id.bits).to_string()
}

impl Uuid {
    /// A fresh random identifier: one of version 4 and of the standard variant.
    pub fn new_v4() -> (id: Uuid)
        ensures
            is_v4(id),
    {
        drawn_uuid()
    }

    /// Reads an identifier.
    pub fn parse_str(text: &str) -> (res: Result<Uuid, uuid::Error>)
        ensures
            match res {
                Ok(id) => parsed_uuid(text@) == reads(id),
                Err(err) => parsed_uuid(text@) == unread::<Uuid>(uuid_error_text(err)),
            },
            forall|id: Uuid| text@ == #[trigger] id@ ==> res is Ok && res->Ok_0 == id,
    {
        uuid_from(text)
    }

    /// The canonical text; reading it gives the identifier back.
    pub fn to_string(&self) -> (text: String)
        ensures
            text@ == self@,
            parsed_uuid(text@) == reads(*self),
    {
        uuid_text(self)
    }
}

/// The text of a `uuid::Error`, from its `Display`.
#[verifier::external_body]
pub(crate) fn uuid_error_message(err: &uuid::Error) -> (text: String)
    ensures
        text@ == uuid_error_text(*err),
{
    err.to_string()
}

/// The characters inside an optional identifier.
pub open spec fn opt_id(id: Option<Uuid>) -> Option<Seq<char>> {
    match id {
        Some(id) => Some(id@),
        None => None,
    }
}

/// The text of an optional identifier.
pub fn opt_to_string(id: Option<Uuid>) -> (text: Option<String>)
    ensures
        opt_text(text) == opt_id(id),
        id matches Some(id) ==> parsed_uuid(id@) == reads(id),
{
    match id {
        Some(id) => Some(id.to_string()),
        None => None,
    }
}

spec fn pow16(count: nat) -> nat
    decreases count,
{
    if count == 0 {
        1
    } else {
        16 * pow16((count - 1) as nat)
    }
}

proof fn lemma_hex_digits_len(n: nat, count: nat)
    ensures
        hex_digits(n, count).len() == count,
    decreases count,
{
    if count > 0 {
        lemma_hex_digits_len(n / 16, (count - 1) as nat);
    }
}

proof fn lemma_hex_digits_injective(a: nat, b: nat, count: nat)
    requires
        a < pow16(count),
        b < pow16(count),
        hex_digits(a, count) == hex_digits(b, count),
    ensures
        a == b,
    decreases count,
{
    if count > 0 {
        let less = (count - 1) as nat;
        lemma_hex_digits_len(a / 16, less);
        lemma_hex_digits_len(b / 16, less);
        assert(hex_digits(a, count).drop_last() == hex_digits(a / 16, less));
        assert(hex_digits(b, count).drop_last() == hex_digits(b / 16, less));
        assert(hex_digits(a, count).last() == hex_digit(a % 16));
        assert(hex_digits(b, count).last() == hex_digit(b % 16));
        lemma_hex_digits_injective(a / 16, b / 16, less);
    }
}

/// Two identifiers with the same canonical text are one.
pub proof fn identifiers_differ_in_text(a: Uuid, b: Uuid)
    ensures
        a@ == b@ ==> a == b,
{
    if a@ == b@ {
        let x = hex_digits(a.bits as nat, 32);
        let y = hex_digits(b.bits as nat, 32);
        lemma_hex_digits_len(a.bits as nat, 32);
        lemma_hex_digits_len(b.bits as nat, 32);
        assert(x =~= a@.subrange(0, 8) + a@.subrange(9, 13) + a@.subrange(14, 18) + a@.subrange(
            19,
            23,
        ) + a@.subrange(24, 36));
        assert(y =~= b@.subrange(0, 8) + b@.subrange(9, 13) + b@.subrange(14, 18) + b@.subrange(
            19,
            23,
        ) + b@.subrange(24, 36));
        assert(pow16(32) == 0x1_0000_0000_0000_0000_0000_0000_0000_0000) by {
            reveal_with_fuel(pow16, 33);
        }
        lemma_hex_digits_injective(a.bits as nat, b.bits as nat, 32);
    }
}

} // verus!
