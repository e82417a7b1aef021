//! Identifiers of media and libraries, and the one spelling in which they are stored.
use vstd::prelude::*;

use crate::text::{copy_text, is_white, trimmed};

verus! {

/// The number that `uuid::Uuid::parse_str` reads from a text, if it accepts the text.
pub uninterp spec fn uuid_number(text: Seq<char>) -> Option<u128>;

/// The character of a hexadecimal digit, letters small.
pub open spec fn hex_char(d: nat) -> char {
    if d < 10 {
        ((d + 48) as u8) as char
    } else {
        ((d + 87) as u8) as char
    }
}

/// The last `count` hexadecimal digits of `n`, the highest first.
pub open spec fn hex_digits(n: nat, count: nat) -> Seq<char>
    decreases count,
{
    if count == 0 {
        Seq::<char>::empty()
    } else {
        hex_digits(n / 16, (count - 1) as nat).push(hex_char(n % 16))
    }
}

/// The spelling of a UUID as 32 hexadecimal digits without hyphens.
pub open spec fn simple_form(n: u128) -> Seq<char> {
    hex_digits(n as nat, 32)
}

/// The stored spelling of an identifier: a UUID in its simple form, anything else as it is.
pub open spec fn normalized_id(text: Seq<char>) -> Seq<char> {
    match uuid_number(text) {
        Some(n) => simple_form(n),
        None => text,
    }
}

/// `uuid::Uuid::parse_str`, with the parsed UUID as its number. What it returns is a
/// function of the text alone, which `uuid_number` names.
#[verifier::external_body]
fn parse_uuid(text: &str) -> (r: Option<u128>)
    ensures
        r == uuid_number(text@),
{
    uuid::Uuid::parse_str(text).ok().map(|id| id.as_u128())
}

/// `uuid::Uuid::simple` and its display: the 32 hexadecimal digits of the number in small
/// letters. `uuid::Uuid::parse_str` accepts that text and reads the same number from it.
#[verifier::external_body]
fn write_simple_uuid(n: u128) -> (r: String)
    ensures
        r@ == simple_form(n),
        uuid_number(r@) == Some(n),
{
    uuid::Uuid::from_u128(n).simple().to_string()
}

/// The stored spelling of `text`, of which `parsed` is the UUID, if it is one.
pub fn spell_id(parsed: Option<u128>, text: &str) -> (r: String)
    ensures
        match parsed {
            Some(n) => r@ == simple_form(n) && uuid_number(r@) == Some(n),
            None => r@ == text@,
        },
{
    match parsed {
        Some(n) => write_simple_uuid(n),
        None => copy_text(text),
    }
}

/// The stored spelling of an identifier. Spelling it again changes nothing.
pub fn normalize_id(text: &str) -> (r: String)
    ensures
        r@ == normalized_id(text@),
        normalized_id(r@) == r@,
        uuid_number(r@) == uuid_number(text@),
{
    let parsed: Option<u128> = parse_uuid(text);
    spell_id(parsed, text)
}

/// Two spellings of one UUID are stored alike.
pub proof fn spellings_of_one_uuid_are_stored_alike(a: Seq<char>, b: Seq<char>)
    requires
        uuid_number(a) is Some,
        uuid_number(a) == uuid_number(b),
    ensures
        normalized_id(a) == normalized_id(b),
{
}

/// Different UUIDs are stored differently.
pub proof fn different_uuids_are_stored_differently(a: Seq<char>, b: Seq<char>)
    requires
        uuid_number(a) is Some,
        uuid_number(b) is Some,
        uuid_number(a) != uuid_number(b),
    ensures
        normalized_id(a) != normalized_id(b),
{
    let left = uuid_number(a)->0;
    let right = uuid_number(b)->0;
    if normalized_id(a) == normalized_id(b) {
        assert(sixteen_to(32) == 0x1_0000_0000_0000_0000_0000_0000_0000_0000) by {
            reveal_with_fuel(sixteen_to, 33);
        }
        lemma_hex_digits_injective(left as nat, right as nat, 32);
    }
}

spec fn sixteen_to(count: nat) -> nat
    decreases count,
{
    if count == 0 {
        1
    } else {
        16 * sixteen_to((count - 1) as nat)
    }
}

proof fn lemma_hex_digits_injective(a: nat, b: nat, count: nat)
    requires
        hex_digits(a, count) == hex_digits(b, count),
        a < sixteen_to(count),
        b < sixteen_to(count),
    ensures
        a == b,
    decreases count,
{
    if count > 0 {
        let less = (count - 1) as nat;
        assert(hex_digits(a, count).drop_last() =~= hex_digits(a / 16, less));
        assert(hex_digits(b, count).drop_last() =~= hex_digits(b / 16, less));
        lemma_hex_digits_injective(a / 16, b / 16, less);
        assert(hex_digits(a, count).last() == hex_char(a % 16));
        assert(hex_digits(b, count).last() == hex_char(b % 16));
        assert(hex_char(a % 16) as u32 == hex_char(b % 16) as u32);
        assert(forall|d: nat| d < 16 ==> (#[trigger] hex_char(d)) as u32 == if d < 10 { d + 48 } else { d + 87 });
    }
}

/// The simple form holds no whitespace, so trimming leaves it alone.
pub proof fn simple_form_needs_no_trimming(n: u128)
    ensures
        simple_form(n).len() == 32,
        trimmed(simple_form(n)) == simple_form(n),
{
    lemma_hex_digits_not_white(n as nat, 32);
    assert(!is_white(simple_form(n)[0]));
    assert(!is_white(simple_form(n).last()));
}

proof fn lemma_hex_digits_not_white(n: nat, count: nat)
    ensures
        hex_digits(n, count).len() == count,
        forall|i: int| 0 <= i < count ==> !is_white(#[trigger] hex_digits(n, count)[i]),
    decreases count,
{
    if count > 0 {
        lemma_hex_digits_not_white(n / 16, (count - 1) as nat);
        let d = n % 16;
        assert(hex_char(d) as u32 == if d < 10 { d + 48 } else { d + 87 });
    }
}

/// An identifier that is no UUID is stored as it is, and a UUID as 32 hexadecimal digits with small
/// letters, each of which is the digit of the number at its place.
pub proof fn identifiers_are_stored_in_one_spelling(text: Seq<char>)
    ensures
        uuid_number(text) is None ==> normalized_id(text) == text,
        uuid_number(text) is Some ==> {
            &&& normalized_id(text).len() == 32
            &&& normalized_id(text) == digits_of(uuid_number(text)->0 as nat, 32)
        },
{
    if uuid_number(text) is Some {
        lemma_hex_digits_not_white(uuid_number(text)->0 as nat, 32);
        lemma_digits_by_place(uuid_number(text)->0 as nat, 32);
    }
}

/// The last `count` hexadecimal digits of a number by their places, each one a character of the
/// sixteen.
pub open spec fn digits_of(n: nat, count: nat) -> Seq<char> {
    Seq::new(
        count,
        |i: int|
            seq![
                '0', '1', '2', '3', '4', '5', '6', '7', '8', '9', 'a', 'b', 'c', 'd', 'e', 'f',
            ][digit_at(n, (count - 1 - i) as nat) as int],
    )
}

/// The hexadecimal digit of a number that has `place` digits behind it.
pub open spec fn digit_at(n: nat, place: nat) -> nat
    decreases place,
{
    if place == 0 {
        n % 16
    } else {
        digit_at(n / 16, (place - 1) as nat)
    }
}

proof fn lemma_digit_range(n: nat, place: nat)
    ensures
        digit_at(n, place) < 16,
    decreases place,
{
    if place > 0 {
        lemma_digit_range(n / 16, (place - 1) as nat);
    }
}

proof fn lemma_digits_by_place(n: nat, count: nat)
    ensures
        hex_digits(n, count) == digits_of(n, count),
    decreases count,
{
    if count > 0 {
        let less = (count - 1) as nat;
        lemma_digits_by_place(n / 16, less);
        let sixteen = seq![
            '0', '1', '2', '3', '4', '5', '6', '7', '8', '9', 'a', 'b', 'c', 'd', 'e', 'f',
        ];
        let d = n % 16;
        assert(hex_char(d) as u32 == if d < 10 { d + 48 } else { d + 87 });
        assert(sixteen[d as int] == hex_char(d));
        assert forall|i: int| 0 <= i < count implies #[trigger] hex_digits(n, count)[i]
            == digits_of(n, count)[i] by {
            if i < less {
                assert(digits_of(n / 16, less)[i] == sixteen[digit_at(
                    n / 16,
                    (less - 1 - i) as nat,
                ) as int]);
                assert(digit_at(n, (count - 1 - i) as nat) == digit_at(
                    n / 16,
                    (less - 1 - i) as nat,
                ));
            }
        }
        assert(hex_digits(n, count) =~= digits_of(n, count));
    } else {
        assert(hex_digits(n, count) =~= digits_of(n, count));
    }
}

} // verus!
