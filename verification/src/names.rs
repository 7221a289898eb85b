//! Names of hosts and zones, and types of records, as DNS has them.

use std::str::FromStr;

use hickory_client::proto::rr::{Name, RecordType};
use hickory_client::proto::ProtoError;
use hickory_client::ClientError;

use vstd::prelude::*;

use crate::error::BlastDNSError;
use crate::text::{
    ascii_upper, chars_of, is_white_space, law_only_small_letters_are_raised, to_ascii_upper,
    trim_bounds, trimmed, without_back, without_front,
};
use crate::utils::lemma_core_is_left;

verus! {

/// A domain name.
#[verifier::external_type_specification]
#[verifier::external_body]
pub struct ExName(hickory_client::proto::rr::Name);

/// An error of the DNS protocol layer.
#[verifier::external_type_specification]
#[verifier::external_body]
pub struct ExProtoError(hickory_client::proto::ProtoError);

/// An error of a request to a server.
#[verifier::external_type_specification]
#[verifier::external_body]
pub struct ExClientError(hickory_client::ClientError);

/// What [`Name::from_ascii`] makes of a text.
pub uninterp spec fn ascii_name(host: Seq<char>) -> Result<Name, ProtoError>;

/// What [`Name::from_str`] makes of a text.
pub uninterp spec fn relaxed_name(zone: Seq<char>) -> Result<Name, ProtoError>;

/// The code of the record type that [`RecordType::from_str`] knows under a
/// mnemonic, if it knows one.
pub uninterp spec fn record_type_code(mnemonic: Seq<char>) -> Option<u16>;

/// Whether the [`ClientError::kind`] of an error is
/// [`Timeout`](hickory_client::ClientErrorKind::Timeout).
pub uninterp spec fn is_request_timeout(error: ClientError) -> bool;

/// Calls [`Name::from_ascii`]. Nothing is claimed of its result but that the text
/// alone decides it.
#[verifier::external_body]
fn name_from_ascii(host: &str) -> (name: Result<Name, ProtoError>)
    ensures
        name == ascii_name(host@),
{
    Name::from_ascii(host)
}

/// Calls [`Name::from_str`]. Nothing is claimed of its result but that the text
/// alone decides it.
#[verifier::external_body]
fn name_from_str(zone: &str) -> (name: Result<Name, ProtoError>)
    ensures
        name == relaxed_name(zone@),
{
    Name::from_str(zone)
}

/// Calls [`RecordType::from_str`], and gives the type that it finds as its code. It
/// is only to be asked about texts without lower-case ASCII letters. Nothing is
/// claimed of its result but that the text alone decides it.
#[verifier::external_body]
fn record_type_from_str(mnemonic: &str) -> (code: Option<u16>)
    requires
        forall|i: int| 0 <= i < mnemonic@.len() ==> !('a' <= #[trigger] mnemonic@[i] <= 'z'),
    ensures
        code == record_type_code(mnemonic@),
{
    RecordType::from_str(mnemonic).ok().map(u16::from)
}

/// Calls [`ClientError::kind`], and tells whether the kind is
/// [`Timeout`](hickory_client::ClientErrorKind::Timeout). Nothing is claimed of the
/// answer but that the error alone decides it.
#[verifier::external_body]
pub(crate) fn request_timeout(error: &ClientError) -> (timeout: bool)
    ensures
        timeout == is_request_timeout(*error),
{
    matches!(error.kind(), hickory_client::ClientErrorKind::Timeout)
}

/// The name to ask for `host`. Hostnames that are not usable are rejected.
pub fn host_name(host: String) -> (name: Result<Name, BlastDNSError>)
    ensures
        match ascii_name(host@) {
            Ok(asked) => name == Ok::<Name, BlastDNSError>(asked),
            Err(source) => name == Err::<Name, BlastDNSError>(
                BlastDNSError::InvalidHostname { name: host, source },
            ),
        },
{
    match name_from_ascii(host.as_str()) {
        Ok(name) => Ok(name),
        Err(source) => Err(BlastDNSError::InvalidHostname { name: host, source }),
    }
}

/// The code of the record type that is asked for where none is given: A.
pub const DEFAULT_RECORD_TYPE: u16 = 1;

/// `text` with its ASCII letters in upper case.
pub open spec fn in_upper(text: Seq<char>) -> Seq<char> {
    text.map_values(|c: char| ascii_upper(c))
}

/// The code of the record type that `value` stands for: white space around it does not
/// count, nor does the case of its letters.
pub open spec fn record_type_read(value: Seq<char>) -> Option<u16> {
    record_type_code(in_upper(trimmed(value)))
}

/// What is said of a value that stands for no record type.
pub open spec fn unknown_record_type_text(value: Seq<char>) -> Seq<char> {
    "invalid record type `"@ + value + "`"@
}

/// The code of the record type that `value` stands for.
pub fn parse_record_type(value: &str) -> (code: Result<u16, String>)
    ensures
        match record_type_read(value@) {
            Some(known) => code == Ok::<u16, String>(known),
            None => code matches Err(said) && said@ == unknown_record_type_text(value@),
        },
{
    let chars: Vec<char> = chars_of(value);
    assert(chars@.subrange(0, chars@.len() as int) =~= value@);
    let (from, to): (usize, usize) = trim_bounds(&chars, 0, chars.len());
    let ghost part = chars@.subrange(from as int, to as int);
    let mut upper: String = String::new();
    let mut i: usize = from;
    while i < to
        invariant
            from <= i <= to <= chars@.len(),
            part == chars@.subrange(from as int, to as int),
            upper@ == in_upper(part.take(i - from)),
        decreases to - i,
    {
        upper.push(to_ascii_upper(chars[i]));
        assert(part.take(i - from + 1) =~= part.take(i - from).push(chars@[i as int]));
        assert(upper@ =~= in_upper(part.take(i - from + 1)));
        i += 1;
    }
    assert(part.take(to - from) =~= part);
    match record_type_from_str(upper.as_str()) {
        Some(code) => Ok(code),
        None => {
            let mut said: String = "invalid record type `".to_owned();
            said.append(value);
            said.append("`");
            Err(said)
        },
    }
}

/// The code of the record type that `input` stands for, or that of A where it is
/// missing or blank.
pub fn parse_optional_record_type(input: Option<&str>) -> (code: Result<u16, String>)
    ensures
        match input {
            None => code == Ok::<u16, String>(DEFAULT_RECORD_TYPE) && code->Ok_0 == 1,
            Some(value) => if trimmed(value@).len() == 0 {
                code == Ok::<u16, String>(DEFAULT_RECORD_TYPE)
            } else {
                match record_type_read(value@) {
                    Some(known) => code == Ok::<u16, String>(known),
                    None => code matches Err(said) && said@ == unknown_record_type_text(value@),
                }
            },
        },
{
    match input {
        None => Ok(DEFAULT_RECORD_TYPE),
        Some(value) => {
            let chars: Vec<char> = chars_of(value);
            assert(chars@.subrange(0, chars@.len() as int) =~= value@);
            let (from, to): (usize, usize) = trim_bounds(&chars, 0, chars.len());
            if from == to {
                return Ok(DEFAULT_RECORD_TYPE);
            }
            parse_record_type(value)
        },
    }
}

/// The name of a zone, with the dot that ends it where it has none.
pub open spec fn qualified(zone: Seq<char>) -> Seq<char> {
    if zone.len() > 0 && zone.last() == '.' {
        zone
    } else {
        zone.push('.')
    }
}

/// The name of the zone `zone`. Names that are not usable are rejected.
pub fn zone_name(zone: &str) -> (name: Result<Name, BlastDNSError>)
    ensures
        match relaxed_name(qualified(zone@)) {
            Ok(named) => name == Ok::<Name, BlastDNSError>(named),
            Err(cause) => {
                &&& name matches Err(BlastDNSError::InvalidHostname { name: given, source })
                &&& given@ == zone@
                &&& source == cause
            },
        },
{
    let chars: Vec<char> = chars_of(zone);
    let mut full: String = zone.to_owned();
    if chars.len() == 0 || chars[chars.len() - 1] != '.' {
        full.push('.');
    }
    match name_from_str(full.as_str()) {
        Ok(name) => Ok(name),
        Err(source) => Err(BlastDNSError::InvalidHostname { name: zone.to_owned(), source }),
    }
}

/// A zone may be given with the dot that ends its name or without: both mean the same.
pub proof fn law_the_last_dot_is_optional(zone: Seq<char>)
    requires
        zone.len() == 0 || zone.last() != '.',
    ensures
        qualified(zone.push('.')) == qualified(zone),
        qualified(qualified(zone)) == qualified(zone),
{
}

/// Upper case changes neither what is white space at the front nor what is left.
proof fn lemma_upper_without_front(text: Seq<char>)
    ensures
        in_upper(without_front(text, |c: char| is_white_space(c))) == without_front(
            in_upper(text),
            |c: char| is_white_space(c),
        ),
    decreases text.len(),
{
    if text.len() > 0 && is_white_space(text[0]) {
        lemma_upper_without_front(text.drop_first());
        assert(in_upper(text).drop_first() =~= in_upper(text.drop_first()));
    }
}

/// Upper case changes neither what is white space at the back nor what is left.
proof fn lemma_upper_without_back(text: Seq<char>)
    ensures
        in_upper(without_back(text, |c: char| is_white_space(c))) == without_back(
            in_upper(text),
            |c: char| is_white_space(c),
        ),
    decreases text.len(),
{
    if text.len() > 0 && is_white_space(text.last()) {
        lemma_upper_without_back(text.drop_last());
        assert(in_upper(text).drop_last() =~= in_upper(text.drop_last()));
    }
}

/// A record type may be given in either case: values that differ in the case of their
/// ASCII letters alone stand for the same type.
pub proof fn law_record_types_ignore_case(value: Seq<char>, other: Seq<char>)
    requires
        in_upper(value) == in_upper(other),
    ensures
        record_type_read(value) == record_type_read(other),
{
    let p = |c: char| is_white_space(c);
    lemma_upper_without_front(value);
    lemma_upper_without_back(without_front(value, p));
    lemma_upper_without_front(other);
    lemma_upper_without_back(without_front(other, p));
}

/// A record type is read as it is written: white space around it does not count, small
/// letters count as the capitals, and what is left is what is looked up.
pub proof fn law_a_record_type_is_looked_up_in_capitals(
    before: Seq<char>,
    value: Seq<char>,
    after: Seq<char>,
    capitals: Seq<char>,
)
    requires
        value.len() > 0,
        !is_white_space(value[0]),
        !is_white_space(value.last()),
        forall|i: int| 0 <= i < before.len() ==> is_white_space(#[trigger] before[i]),
        forall|i: int| 0 <= i < after.len() ==> is_white_space(#[trigger] after[i]),
        capitals.len() == value.len(),
        forall|i: int|
            0 <= i < value.len() ==> #[trigger] capitals[i] == (if 'a' <= value[i] <= 'z' {
                (value[i] as u32 - 'a' as u32 + 'A' as u32) as char
            } else {
                value[i]
            }),
    ensures
        record_type_read(before + value + after) == record_type_code(capitals),
        trimmed(before + value + after) == value,
{
    lemma_core_is_left(before, value, after, |c: char| is_white_space(c));
    assert forall|i: int| 0 <= i < value.len() implies in_upper(value)[i] == capitals[i] by {
        law_only_small_letters_are_raised(value[i]);
        assert(capitals[i] == capitals[i]);
    }
    assert(in_upper(value) =~= capitals);
}

/// A zone is asked for by its whole name: what was given, with one dot at its end, which
/// is added where there is none.
pub proof fn law_a_zone_ends_with_a_dot(zone: Seq<char>)
    ensures
        qualified(zone).len() > 0,
        qualified(zone).last() == '.',
        qualified(zone).take(zone.len() as int) == zone,
        zone.len() > 0 && zone.last() == '.' ==> qualified(zone).len() == zone.len(),
        zone.len() == 0 || zone.last() != '.' ==> qualified(zone).len() == zone.len() + 1,
{
    assert(qualified(zone).take(zone.len() as int) =~= zone);
}

/// A value that stands for no record type is told as it was given.
pub proof fn law_an_unknown_record_type_is_told_whole(value: Seq<char>)
    ensures
        "invalid record type `"@.is_prefix_of(unknown_record_type_text(value)),
        unknown_record_type_text(value).skip("invalid record type `"@.len() as int) == value
            + "`"@,
{
    let head = "invalid record type `"@;
    assert(unknown_record_type_text(value).take(head.len() as int) =~= head);
    assert(unknown_record_type_text(value).skip(head.len() as int) =~= value + "`"@);
}

} // verus!
