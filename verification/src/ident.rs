//! Identifiers: 128-bit UUIDs and their text.
use vstd::prelude::*;

verus! {

/// A UUID, by its 128 bits with the first byte most significant.
#[derive(Clone, Copy, Debug, PartialEq, Eq, Structural, Hash)]
pub struct Uuid(pub u128);

/// The last `width` hexadecimal digits of `n`.
pub open spec fn hex_digits(n: nat, width: nat) -> Seq<char>
    decreases width,
{
    if width == 0 {
        seq![]
    } else {
        hex_digits(n / 16, (width - 1) as nat).push(crate::text::hex_char(n % 16))
    }
}

/// The hyphenated text of a UUID: 8, 4, 4, 4 and 12 lower-case digits.
pub open spec fn hyphenated(n: u128) -> Seq<char> {
    let d = hex_digits(n as nat, 32);
    let dash = seq!['-'];
    d.subrange(0, 8) + dash + d.subrange(8, 12) + dash + d.subrange(12, 16) + dash + d.subrange(
        16,
        20,
    ) + dash + d.subrange(20, 32)
}

/// A random UUID: version 4 in the standard variant.
pub open spec fn is_version_4(n: u128) -> bool {
    &&& (n / 0x1000_0000_0000_0000_0000) % 16 == 4
    &&& (n / 0x4000_0000_0000_0000) % 4 == 2
}

/// What `uuid::Uuid::parse_str` makes of a text: the bits, or the message of its error.
pub uninterp spec fn uuid_parse(s: Seq<char>) -> Result<u128, Seq<char>>;

/// `uuid::Uuid::new_v4`. Chance decides the bits, but for the version and variant,
/// which the crate masks in.
#[verifier::external_body]
fn random_bits() -> (r: u128)
    ensures
        is_version_4(r),
{
    uuid::Uuid::new_v4().as_u128()
}

/// The `Display` text of `uuid::Uuid`, which is the hyphenated lower-case form.
#[verifier::external_body]
fn format_bits(n: u128) -> (r: String)
    ensures
        r@ == hyphenated(n),
{
    uuid::Uuid::from_u128(n).to_string()
}

/// `uuid::Uuid::parse_str`. It accepts several notations, the hyphenated one among
/// them, which it reads back as the bits it was written from.
#[verifier::external_body]
fn parse_bits(s: &str) -> (r: Result<u128, String>)
    ensures
        match r {
            Ok(n) => uuid_parse(s@) == Ok::<u128, Seq<char>>(n),
            Err(e) => uuid_parse(s@) == Err::<u128, Seq<char>>(e@),
        },
        forall|n: u128| #[trigger] hyphenated(n) == s@ ==> r is Ok && r->Ok_0 == n,
{
    uuid::Uuid::parse_str(s).map(|u| u.as_u128()).map_err(|e| e.to_string())
}

impl Uuid {
    /// A fresh random UUID.
    pub fn new_v4() -> (r: Self)
        ensures
            is_version_4(r.0),
    {
        Uuid(random_bits())
    }

    /// The UUID of all zeros.
    pub fn nil() -> (r: Self)
        ensures
            r.0 == 0,
    {
        Uuid(0)
    }

    /// Reads a UUID; the error is the message of the parser.
    pub fn parse_str(s: &str) -> (r: Result<Self, String>)
        ensures
            match r {
                Ok(u) => uuid_parse(s@) == Ok::<u128, Seq<char>>(u.0),
                Err(e) => uuid_parse(s@) == Err::<u128, Seq<char>>(e@),
            },
            forall|n: u128| #[trigger] hyphenated(n) == s@ ==> r == Ok::<Uuid, String>(Uuid(n)),
    {
        match parse_bits(s) {
            Ok(n) => Ok(Uuid(n)),
            Err(e) => Err(e),
        }
    }

    /// The hyphenated text.
    pub fn to_text(&self) -> (r: String)
        ensures
            r@ == hyphenated(self.0),
    {
        format_bits(self.0)
    }
}

} // verus!
