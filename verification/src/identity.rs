//! Identities of scenes and scene objects: a random version-4 UUID in its
//! hyphenated form, a hyphen, and the creation time in milliseconds since the
//! Unix epoch, zero-padded to fifteen digits.

use crate::text::{pad_decimal, zero_padded};
use vstd::prelude::*;
use vstd::string::StringExecFns;

verus! {

/// The textual identity of a scene or of a scene object.
pub type Uuid = String;

/// The lower-case character of a hexadecimal digit.
pub open spec fn hex_char(nibble: int) -> char {
    seq!['0', '1', '2', '3', '4', '5', '6', '7', '8', '9', 'a', 'b', 'c', 'd', 'e', 'f'][nibble]
}

/// Sixteen to the power `e`.
pub open spec fn sixteen_to(e: nat) -> nat
    decreases e,
{
    if e == 0 {
        1
    } else {
        16 * sixteen_to((e - 1) as nat)
    }
}

/// The `k`-th of the 32 hexadecimal digits of `bits`, counted from the most
/// significant one.
pub open spec fn nibble_of(bits: u128, k: int) -> int {
    (bits as int / sixteen_to((31 - k) as nat) as int) % 16
}

/// Whether position `i` of the hyphenated form holds a hyphen.
pub open spec fn is_hyphen_position(i: int) -> bool {
    i == 8 || i == 13 || i == 18 || i == 23
}

/// How many hyphens stand before position `i` of the hyphenated form.
pub open spec fn hyphens_before(i: int) -> int {
    (if i > 8 { 1int } else { 0 }) + (if i > 13 { 1int } else { 0 }) + (if i > 18 { 1int } else { 0 })
        + (if i > 23 { 1int } else { 0 })
}

/// The hyphenated form of a 128-bit UUID: its 32 lower-case hexadecimal
/// digits, most significant first, in groups of 8, 4, 4, 4 and 12 with a
/// hyphen between the groups.
pub open spec fn hyphenated_text(bits: u128) -> Seq<char> {
    Seq::new(
        36,
        |i: int|
            if is_hyphen_position(i) {
                '-'
            } else {
                hex_char(nibble_of(bits, i - hyphens_before(i)))
            },
    )
}

/// Whether `bits` carries the marks of a version-4 UUID: version digit 4 and
/// a variant digit of 8, 9, a or b.
pub open spec fn is_version_4(bits: u128) -> bool {
    nibble_of(bits, 12) == 4 && 8 <= nibble_of(bits, 16) <= 11
}

/// The text of an identity made of the UUID `bits` and the time `millis`.
pub open spec fn uuid_text(bits: u128, millis: u128) -> Seq<char> {
    hyphenated_text(bits) + seq!['-'] + zero_padded(millis as nat, 15)
}

/// Whether `text` is the identity of some version-4 UUID and some time.
pub open spec fn is_fresh_uuid_text(text: Seq<char>) -> bool {
    exists|bits: u128, millis: u128| is_version_4(bits) && text == #[trigger] uuid_text(bits, millis)
}

/// `uuid::Uuid::new_v4`, read as a 128-bit number by `as_u128`: random bits
/// from the operating system with the version and variant digits of a
/// version-4 UUID set. Nothing else is known of the result. The call panics
/// if the operating system cannot supply random bytes.
#[verifier::external_body]
fn random_uuid_bits() -> (bits: u128)
    ensures
        is_version_4(bits),
{
    uuid::Uuid::new_v4().as_u128()
}

/// `uuid::Uuid::nil`, read as a 128-bit number by `as_u128`: all bits zero.
#[verifier::external_body]
fn nil_uuid_bits() -> (bits: u128)
    ensures
        bits == 0,
{
    uuid::Uuid::nil().as_u128()
}

/// `Display` of `uuid::Uuid`, on the UUID that `from_u128` makes of `bits`:
/// the lower-case hyphenated form.
#[verifier::external_body]
fn hyphenated(bits: u128) -> (text: String)
    ensures
        text@ == hyphenated_text(bits),
{
    uuid::Uuid::from_u128(bits).to_string()
}

/// `std::time::SystemTime`, a reading of the system clock. Nothing is known
/// of what a value holds.
#[verifier::external_type_specification]
#[verifier::external_body]
pub struct ExSystemTime(std::time::SystemTime);

/// `std::time::SystemTimeError`, the error of a time that lies the other
/// way round. Nothing is known of what a value holds.
#[verifier::external_type_specification]
#[verifier::external_body]
pub struct ExSystemTimeError(std::time::SystemTimeError);

/// `SystemTime::now` reads the system clock; nothing is known of the result.
pub assume_specification[ std::time::SystemTime::now ]() -> std::time::SystemTime;

/// `SystemTime::duration_since` gives the time elapsed since `earlier`, or an
/// error when `earlier` is the later of the two.
pub assume_specification[ std::time::SystemTime::duration_since ](
    time: &std::time::SystemTime,
    earlier: std::time::SystemTime,
) -> Result<core::time::Duration, std::time::SystemTimeError>;

/// `Duration::as_millis` gives the whole milliseconds of a duration.
pub assume_specification[ core::time::Duration::as_millis ](
    duration: &core::time::Duration,
) -> u128;

/// `std::time::UNIX_EPOCH`, the start of 1970 in UTC.
#[verifier::external_body]
fn unix_epoch() -> std::time::SystemTime {
    std::time::UNIX_EPOCH
}

/// The milliseconds elapsed since the Unix epoch, or zero when the system
/// clock stands before it.
fn unix_millis() -> u128 {
    let now = std::time::SystemTime::now();
    match now.duration_since(unix_epoch()) {
        Ok(elapsed) => elapsed.as_millis(),
        Err(_) => 0,
    }
}

/// Writes the identity of the UUID `bits` created at `millis`.
pub fn format_uuid(bits: u128, millis: u128) -> (id: Uuid)
    ensures
        id@ == uuid_text(bits, millis),
{
    let mut id = hyphenated(bits);
    id.push('-');
    let suffix = pad_decimal(millis, 15);
    id.append(suffix.as_str());
    id
}

/// A fresh identity: a random version-4 UUID and the current time.
pub fn new_uuid() -> (id: Uuid)
    ensures
        is_fresh_uuid_text(id@),
{
    let bits = random_uuid_bits();
    let millis = unix_millis();
    format_uuid(bits, millis)
}

/// The identity of the nil UUID at time zero.
pub fn empty() -> (id: Uuid)
    ensures
        id@ == uuid_text(0, 0),
{
    format_uuid(nil_uuid_bits(), 0)
}

} // verus!
