//! Object identifiers: a row number as a UUID and back.
use vstd::prelude::*;

verus! {

/// The lower-case hexadecimal digit of `d`, for `d` below sixteen.
pub open spec fn hex_char(d: int) -> char {
    if d < 10 {
        (('0' as int) + d) as char
    } else {
        (('a' as int) + d - 10) as char
    }
}

/// The hexadecimal digit of `value` at place `k` of thirty-two, the highest first.
pub open spec fn hex_digit(value: u128, k: int) -> char {
    hex_char((value as int / vstd::arithmetic::power::pow(16, (31 - k) as nat)) % 16)
}

/// `value` in the notation of a UUID: groups of eight, four, four, four and twelve digits with
/// hyphens between them.
pub open spec fn uuid_text(value: u128) -> Seq<char> {
    Seq::new(
        36,
        |i: int|
            if i == 8 || i == 13 || i == 18 || i == 23 {
                '-'
            } else if i < 8 {
                hex_digit(value, i)
            } else if i < 13 {
                hex_digit(value, i - 1)
            } else if i < 18 {
                hex_digit(value, i - 2)
            } else if i < 23 {
                hex_digit(value, i - 3)
            } else {
                hex_digit(value, i - 4)
            },
    )
}

/// The 128 bits that the `uuid` crate reads out of a text, or what it says of a text it cannot read.
pub uninterp spec fn uuid_value(text: Seq<char>) -> Result<u128, Seq<char>>;

/// `Uuid::from_u128` and its `to_string`: the value in hyphenated notation, which `Uuid::parse_str`
/// reads as the same value.
#[verifier::external_body]
fn hyphenated(value: u128) -> (text: String)
    ensures
        text@ == uuid_text(value),
        uuid_value(text@) is Ok,
        uuid_value(text@)->Ok_0 == value,
{
    uuid::Uuid::from_u128(value).to_string()
}

/// `Uuid::parse_str`: the 128 bits that the text writes in one of the notations of a UUID, or the
/// text of the error. Both depend on the text alone.
#[verifier::external_body]
fn parse_uuid(text: &str) -> (r: Result<u128, String>)
    ensures
        r is Ok == uuid_value(text@) is Ok,
        r matches Ok(v) ==> uuid_value(text@)->Ok_0 == v,
        r matches Err(e) ==> uuid_value(text@)->Err_0 == e@,
{
    uuid::Uuid::parse_str(text).map(|u| u.as_u128()).map_err(|e| e.to_string())
}

/// The row number that a value of 128 bits stands for: its low 64 bits, as a signed number.
pub open spec fn row_of(value: u128) -> i64 {
    value as i64
}

/// The value of 128 bits that stands for a row number: the number with its sign extended.
pub open spec fn value_of(id: i64) -> u128 {
    id as u128
}

/// The row number that the text of an identifier stands for, or why it stands for none.
pub open spec fn read_id(read: Result<u128, Seq<char>>, text: Seq<char>) -> Result<i64, Seq<char>> {
    match read {
        Ok(v) => Ok(row_of(v)),
        Err(e) => Err("Invalid UUID '"@ + text + "': "@ + e),
    }
}

/// A row number comes back from the value that stands for it.
pub proof fn row_numbers_come_back(id: i64)
    ensures
        row_of(value_of(id)) == id,
{
    assert(((id as u128) as i64) == id) by (bit_vector);
}

/// The identifier of a row: the number as a UUID. [`uuid_to_int`] reads it back as the same number.
pub fn id_to_uuid(id: i64) -> (text: String)
    ensures
        text@ == uuid_text(value_of(id)),
        read_id(uuid_value(text@), text@) matches Ok(row) && row == id,
{
    proof {
        row_numbers_come_back(id);
    }
    hyphenated(id as u128)
}

/// The row number that what was read out of an identifier stands for.
pub fn row_number(read: Result<u128, String>, text: &str) -> (r: Result<i64, String>)
    ensures
        read matches Ok(v) ==> (r matches Ok(id) && id == row_of(v)),
        read matches Err(e) ==> (r matches Err(m) && m@ == "Invalid UUID '"@ + text@ + "': "@ + e@),
{
    match read {
        Ok(v) => Ok(
            #[verifier::truncate]
            (v as i64),
        ),
        Err(e) => {
            let mut m: String = "Invalid UUID '".to_owned();
            m.append(text);
            m.append("': ");
            m.append(e.as_str());
            Err(m)
        },
    }
}

/// The row number that the identifier of an object stands for.
pub fn uuid_to_int(uuid_str: &str) -> (r: Result<i64, String>)
    ensures
        r is Ok == read_id(uuid_value(uuid_str@), uuid_str@) is Ok,
        r matches Ok(id) ==> read_id(uuid_value(uuid_str@), uuid_str@)->Ok_0 == id,
        r matches Err(m) ==> read_id(uuid_value(uuid_str@), uuid_str@)->Err_0 == m@,
{
    row_number(parse_uuid(uuid_str), uuid_str)
}

} // verus!
