//! The identity of a monitor, taken from the EDID block that the report
//! prints in hexadecimal.
//!
//! The hexadecimal text is decoded by the `hex` crate and the block by the
//! `edid` crate. The library reads the block's descriptors only: the
//! product name is the identity, the serial number is kept for display.

use crate::model::ParseError;
use vstd::prelude::*;

verus! {

/// Number of bytes in the EDID block of a report.
pub const EDID_BYTES: usize = 256;

/// The number that a hexadecimal digit stands for, in either case.
pub open spec fn hex_digit_value(c: char) -> Option<nat> {
    let u = c as u32;
    if 0x30 <= u <= 0x39 {
        Some((u - 0x30) as nat)
    } else if 0x41 <= u <= 0x46 {
        Some((u - 0x41 + 10) as nat)
    } else if 0x61 <= u <= 0x66 {
        Some((u - 0x61 + 10) as nat)
    } else {
        None
    }
}

/// The text is an even number of hexadecimal digits.
pub open spec fn is_hex_text(text: Seq<char>) -> bool {
    &&& text.len() % 2 == 0
    &&& forall|i: int| 0 <= i < text.len() ==> hex_digit_value(#[trigger] text[i]).is_some()
}

/// The bytes that a hexadecimal text denotes: each pair of digits is one
/// byte, the first digit its upper half.
pub open spec fn hex_bytes(text: Seq<char>) -> Seq<u8> {
    Seq::new(
        text.len() / 2,
        |i: int|
            (16 * hex_digit_value(text[2 * i]).unwrap() + hex_digit_value(
                text[2 * i + 1],
            ).unwrap()) as u8,
    )
}

/// The error of `hex::decode`, `hex::FromHexError`. Nothing is read from
/// it.
#[verifier::external_type_specification]
#[verifier::external_body]
pub struct ExFromHexError(hex::FromHexError);

/// Calls `hex::decode` on the bytes of `text`. That function fails on an
/// odd number of bytes and on any byte that is no hexadecimal digit;
/// otherwise it returns one byte for each pair of digits, sixteen times the
/// first digit's value plus the second's.
#[verifier::external_body]
fn hex_decode(text: &str) -> (r: Result<Vec<u8>, hex::FromHexError>)
    ensures
        r.is_ok() == is_hex_text(text@),
        r.is_ok() ==> r.unwrap()@ == hex_bytes(text@),
{
    hex::decode(text)
}

/// The bytes that a hexadecimal text denotes.
pub fn decode_hex(text: &str) -> (r: Result<Vec<u8>, ParseError>)
    ensures
        match r {
            Ok(bytes) => is_hex_text(text@) && bytes@ == hex_bytes(text@),
            Err(e) => !is_hex_text(text@) && e == ParseError::EdidHex,
        },
{
    match hex_decode(text) {
        Ok(bytes) => Ok(bytes),
        Err(_) => Err(ParseError::EdidHex),
    }
}

/// One descriptor of an EDID block, as far as the library reads it.
#[derive(Debug)]
pub enum Descriptor {
    ProductName(String),
    SerialNumber(String),
    Other,
}

/// What a [`Descriptor`] holds, as plain values.
pub enum DescriptorView {
    ProductName(Seq<char>),
    SerialNumber(Seq<char>),
    Other,
}

impl View for Descriptor {
    type V = DescriptorView;

    open spec fn view(&self) -> DescriptorView {
        match self {
            Descriptor::ProductName(text) => DescriptorView::ProductName(text@),
            Descriptor::SerialNumber(text) => DescriptorView::SerialNumber(text@),
            Descriptor::Other => DescriptorView::Other,
        }
    }
}

/// The views of a list of descriptors.
pub open spec fn descriptors_view(descriptors: Seq<Descriptor>) -> Seq<DescriptorView> {
    Seq::new(descriptors.len(), |i: int| descriptors[i]@)
}

/// The descriptors that the `edid` crate reads from a block of bytes, or
/// nothing where it does not accept the block.
pub uninterp spec fn edid_descriptors(data: Seq<u8>) -> Option<Seq<DescriptorView>>;

/// Calls `edid::parse` and hands out the descriptors of the block it read,
/// product names and serial numbers with their text, every other kind as
/// `Other`. The contract says only that the outcome is a function of the
/// bytes.
#[verifier::external_body]
fn parse_descriptors(data: &[u8]) -> (r: Option<Vec<Descriptor>>)
    ensures
        match r {
            Some(descriptors) => edid_descriptors(data@) == Some(descriptors_view(descriptors@)),
            None => edid_descriptors(data@).is_none(),
        },
{
    let block = edid::parse(data).to_full_result().ok()?;
    let descriptors = block.descriptors.into_iter().map(
        |d| match d {
            edid::Descriptor::ProductName(text) => Descriptor::ProductName(text),
            edid::Descriptor::SerialNumber(text) => Descriptor::SerialNumber(text),
            _ => Descriptor::Other,
        },
    );
    Some(descriptors.collect())
}

/// The text of the first product name among the descriptors.
pub open spec fn first_product_name(descriptors: Seq<DescriptorView>) -> Option<Seq<char>>
    decreases descriptors.len(),
{
    if descriptors.len() == 0 {
        None
    } else {
        match descriptors[0] {
            DescriptorView::ProductName(text) => Some(text),
            _ => first_product_name(descriptors.skip(1)),
        }
    }
}

/// The text of the first serial number among the descriptors.
pub open spec fn first_serial_number(descriptors: Seq<DescriptorView>) -> Option<Seq<char>>
    decreases descriptors.len(),
{
    if descriptors.len() == 0 {
        None
    } else {
        match descriptors[0] {
            DescriptorView::SerialNumber(text) => Some(text),
            _ => first_serial_number(descriptors.skip(1)),
        }
    }
}

/// What identifies a monitor: its product name, and its serial number for
/// display where the block holds one.
#[derive(Debug)]
pub struct MonitorIdentity {
    pub product_name: String,
    pub serial_number: Option<String>,
}

/// What a [`MonitorIdentity`] holds, as plain values.
pub struct MonitorIdentityView {
    pub product_name: Seq<char>,
    pub serial_number: Option<Seq<char>>,
}

impl View for MonitorIdentity {
    type V = MonitorIdentityView;

    open spec fn view(&self) -> MonitorIdentityView {
        MonitorIdentityView {
            product_name: self.product_name@,
            serial_number: match self.serial_number {
                Some(text) => Some(text@),
                None => None,
            },
        }
    }
}

/// The identity that a list of descriptors gives. The product name is
/// mandatory.
pub open spec fn identity_of(descriptors: Seq<DescriptorView>) -> Result<
    MonitorIdentityView,
    ParseError,
> {
    match first_product_name(descriptors) {
        Some(name) => Ok(
            MonitorIdentityView {
                product_name: name,
                serial_number: first_serial_number(descriptors),
            },
        ),
        None => Err(ParseError::MissingProductName),
    }
}

/// The identity of the monitor whose EDID block is `data`.
pub open spec fn edid_identity(data: Seq<u8>) -> Result<MonitorIdentityView, ParseError> {
    if data.len() != EDID_BYTES {
        Err(ParseError::EdidLength)
    } else {
        match edid_descriptors(data) {
            Some(descriptors) => identity_of(descriptors),
            None => Err(ParseError::EdidDecode),
        }
    }
}

/// A result of reading an identity, by its view.
pub open spec fn identity_result_view(r: Result<MonitorIdentity, ParseError>) -> Result<
    MonitorIdentityView,
    ParseError,
> {
    match r {
        Ok(identity) => Ok(identity@),
        Err(e) => Err(e),
    }
}

/// The text of the first product name among the descriptors.
fn find_product_name(descriptors: &Vec<Descriptor>) -> (r: Option<String>)
    ensures
        match r {
            Some(text) => first_product_name(descriptors_view(descriptors@)) == Some(text@),
            None => first_product_name(descriptors_view(descriptors@)).is_none(),
        },
{
    let ghost all = descriptors_view(descriptors@);
    let mut i: usize = 0;
    assert(all.skip(0) =~= all);
    while i < descriptors.len()
        invariant
            i <= descriptors@.len(),
            all == descriptors_view(descriptors@),
            first_product_name(all) == first_product_name(all.skip(i as int)),
        decreases descriptors@.len() - i,
    {
        assert(all.skip(i as int)[0] == descriptors@[i as int]@);
        assert(all.skip(i as int).skip(1) =~= all.skip(i + 1));
        match &descriptors[i] {
            Descriptor::ProductName(text) => {
                return Some(text.clone());
            },
            _ => {},
        }
        i += 1;
    }
    None
}

/// The text of the first serial number among the descriptors.
fn find_serial_number(descriptors: &Vec<Descriptor>) -> (r: Option<String>)
    ensures
        match r {
            Some(text) => first_serial_number(descriptors_view(descriptors@)) == Some(text@),
            None => first_serial_number(descriptors_view(descriptors@)).is_none(),
        },
{
    let ghost all = descriptors_view(descriptors@);
    let mut i: usize = 0;
    assert(all.skip(0) =~= all);
    while i < descriptors.len()
        invariant
            i <= descriptors@.len(),
            all == descriptors_view(descriptors@),
            first_serial_number(all) == first_serial_number(all.skip(i as int)),
        decreases descriptors@.len() - i,
    {
        assert(all.skip(i as int)[0] == descriptors@[i as int]@);
        assert(all.skip(i as int).skip(1) =~= all.skip(i + 1));
        match &descriptors[i] {
            Descriptor::SerialNumber(text) => {
                return Some(text.clone());
            },
            _ => {},
        }
        i += 1;
    }
    None
}

/// The identity that a block's descriptors give: the first product name,
/// without which there is none, and the first serial number.
pub fn identity_from_descriptors(descriptors: &Vec<Descriptor>) -> (r: Result<
    MonitorIdentity,
    ParseError,
>)
    ensures
        identity_result_view(r) == identity_of(descriptors_view(descriptors@)),
{
    match find_product_name(descriptors) {
        Some(product_name) => {
            let serial_number = find_serial_number(descriptors);
            Ok(MonitorIdentity { product_name, serial_number })
        },
        None => Err(ParseError::MissingProductName),
    }
}

/// Reads the identity of a monitor from its EDID block of 256 bytes.
pub fn read_identity(data: &[u8]) -> (r: Result<MonitorIdentity, ParseError>)
    ensures
        identity_result_view(r) == edid_identity(data@),
{
    if data.len() != EDID_BYTES {
        return Err(ParseError::EdidLength);
    }
    match parse_descriptors(data) {
        Some(descriptors) => identity_from_descriptors(&descriptors),
        None => Err(ParseError::EdidDecode),
    }
}

} // verus!
