//! The responses that a device sends.

use super::error::{ProtocolError, ProtocolErrorView};
use super::frame::Frame;
use super::items::{
    counted_strings, nul_string, numbers16, parse_counted_strings, parse_nul_string,
    parse_numbers16,
};
use super::request::CONNECTION_OID;
use crate::bytes::{be16, be32, read16, read32, tail_of};
use crate::model::{OidView, ParameterOid};
use crate::views::{option_view, result_view, views};
use vstd::prelude::*;

verus! {

/// What the return code at the start of a response says is wrong.
pub open spec fn failure_of(content: Seq<u8>) -> Option<ProtocolErrorView> {
    if content.len() == 0 {
        Some(ProtocolErrorView::InvalidResponse("missing return code"@))
    } else if content[0] != 0 {
        Some(ProtocolErrorView::Remote(content[0]))
    } else {
        None
    }
}

/// What a response holds, where its return code is that of success.
pub open spec fn checked<T>(content: Seq<u8>, value: Result<T, ProtocolErrorView>) -> Result<
    T,
    ProtocolErrorView,
> {
    match failure_of(content) {
        Some(error) => Err(error),
        None => value,
    }
}

/// A response that does not have the form it should.
pub open spec fn invalid<T>(text: Seq<char>) -> Result<T, ProtocolErrorView> {
    Err(ProtocolErrorView::InvalidResponse(text))
}

/// Whether the return code of a response is that of success.
pub fn ensure_success(frame: &Frame) -> (r: Result<(), ProtocolError>)
    ensures
        result_view(r) == checked(frame@.content, Ok(())),
{
    if frame.content.len() == 0 {
        Err(ProtocolError::InvalidResponse("missing return code"))
    } else if frame.content[0] != 0 {
        Err(ProtocolError::Remote(frame.content[0]))
    } else {
        Ok(())
    }
}

/// How many parameters there are with numeric and with string OIDs.
#[derive(Debug, Clone, Copy, PartialEq, Eq, Structural)]
pub struct ParameterCounts {
    pub numeric: u16,
    pub string: u32,
}

impl View for ParameterCounts {
    type V = ParameterCounts;

    open spec fn view(&self) -> ParameterCounts {
        *self
    }
}

/// The counts in a response: the 16-bit count of numeric OIDs and, where more follows, a URL
/// behind its length and the 32-bit count of string OIDs.
pub open spec fn parsed_counts(content: Seq<u8>) -> Result<ParameterCounts, ProtocolErrorView> {
    checked(
        content,
        if content.len() < 3 {
            invalid("parameter count is shorter than 3 bytes"@)
        } else if content.len() == 3 {
            Ok(ParameterCounts { numeric: be16(content, 1), string: 0 })
        } else if content.len() < 8 + content[3] {
            invalid("extended parameter count is truncated"@)
        } else {
            Ok(
                ParameterCounts {
                    numeric: be16(content, 1),
                    string: be32(content, 4 + content[3]),
                },
            )
        },
    )
}

impl ParameterCounts {
    pub fn parse(frame: &Frame) -> (r: Result<Self, ProtocolError>)
        ensures
            result_view(r) == parsed_counts(frame@.content),
    {
        if let Err(error) = ensure_success(frame) {
            return Err(error);
        }
        let content = &frame.content;
        if content.len() < 3 {
            return Err(ProtocolError::InvalidResponse("parameter count is shorter than 3 bytes"));
        }
        let numeric: u16 = read16(content, 1);
        if content.len() == 3 {
            return Ok(ParameterCounts { numeric, string: 0 });
        }
        let offset: usize = 4 + content[3] as usize;
        if content.len() < offset + 4 {
            return Err(ProtocolError::InvalidResponse("extended parameter count is truncated"));
        }
        Ok(ParameterCounts { numeric, string: read32(content, offset) })
    }
}

/// The name of a menu group.
#[derive(Debug, Clone, PartialEq, Eq)]
pub struct MenuGroupName {
    pub group: u8,
    pub name: String,
}

/// The value of a `MenuGroupName`.
pub struct MenuGroupNameView {
    pub group: u8,
    pub name: Seq<char>,
}

impl View for MenuGroupName {
    type V = MenuGroupNameView;

    open spec fn view(&self) -> MenuGroupNameView {
        MenuGroupNameView { group: self.group, name: self.name@ }
    }
}

/// The name of a menu group in a response: the group, a byte that is passed over, and the name
/// behind its length.
pub open spec fn parsed_group_name(content: Seq<u8>) -> Result<
    MenuGroupNameView,
    ProtocolErrorView,
> {
    checked(
        content,
        if content.len() < 5 {
            invalid("menu group name response is too short"@)
        } else if content.len() != 4 + content[3] {
            invalid("menu group name length does not match"@)
        } else {
            match nul_string(content.skip(4), "menu group name"@) {
                Ok(name) => Ok(MenuGroupNameView { group: content[1], name }),
                Err(error) => Err(error),
            }
        },
    )
}

impl MenuGroupName {
    pub fn parse(frame: &Frame) -> (r: Result<Self, ProtocolError>)
        ensures
            result_view(r) == parsed_group_name(frame@.content),
    {
        if let Err(error) = ensure_success(frame) {
            return Err(error);
        }
        let content = frame.content.as_slice();
        if content.len() < 5 {
            return Err(ProtocolError::InvalidResponse("menu group name response is too short"));
        }
        if content.len() != 4 + content[3] as usize {
            return Err(ProtocolError::InvalidResponse("menu group name length does not match"));
        }
        let text = &content[4..content.len()];
        assert(text@ =~= content@.skip(4));
        match parse_nul_string(text, "menu group name") {
            Ok(name) => Ok(MenuGroupName { group: content[1], name }),
            Err(error) => Err(error),
        }
    }
}

/// How many menus a group has.
#[derive(Debug, Clone, Copy, PartialEq, Eq, Structural)]
pub struct MenuCount {
    pub group: u8,
    pub count: u8,
}

impl View for MenuCount {
    type V = MenuCount;

    open spec fn view(&self) -> MenuCount {
        *self
    }
}

/// The count of menus in a response: the group and the count.
pub open spec fn parsed_menu_count(content: Seq<u8>) -> Result<MenuCount, ProtocolErrorView> {
    checked(
        content,
        if content.len() != 3 {
            invalid("menu count response must contain 3 bytes"@)
        } else {
            Ok(MenuCount { group: content[1], count: content[2] })
        },
    )
}

impl MenuCount {
    pub fn parse(frame: &Frame) -> (r: Result<Self, ProtocolError>)
        ensures
            result_view(r) == parsed_menu_count(frame@.content),
    {
        if let Err(error) = ensure_success(frame) {
            return Err(error);
        }
        if frame.content.len() != 3 {
            return Err(ProtocolError::InvalidResponse("menu count response must contain 3 bytes"));
        }
        Ok(MenuCount { group: frame.content[1], count: frame.content[2] })
    }
}

/// What a menu is.
#[derive(Debug, Clone, PartialEq, Eq)]
pub struct MenuDescription {
    pub group: u8,
    pub menu: u8,
    pub name: String,
    pub stable_id: Option<u16>,
    pub layout_url: Option<String>,
    pub string_oid_count: Option<u16>,
}

/// The value of a `MenuDescription`.
pub struct MenuDescriptionView {
    pub group: u8,
    pub menu: u8,
    pub name: Seq<char>,
    pub stable_id: Option<u16>,
    pub layout_url: Option<Seq<char>>,
    pub string_oid_count: Option<u16>,
}

impl View for MenuDescription {
    type V = MenuDescriptionView;

    open spec fn view(&self) -> MenuDescriptionView {
        MenuDescriptionView {
            group: self.group,
            menu: self.menu,
            name: self.name@,
            stable_id: self.stable_id,
            layout_url: option_view(self.layout_url),
            string_oid_count: self.string_oid_count,
        }
    }
}

/// The 16-bit number at `at`, where two bytes are left.
pub open spec fn optional16(content: Seq<u8>, at: int) -> Option<u16> {
    if content.len() >= at + 2 {
        Some(be16(content, at))
    } else {
        None
    }
}

/// The layout URL at `at`, behind its length, which may be zero.
pub open spec fn layout_at(content: Seq<u8>, at: int) -> Result<
    Option<Seq<char>>,
    ProtocolErrorView,
> {
    let end = at + 1 + content[at];
    if end > content.len() {
        invalid("menu layout URL is truncated"@)
    } else if content[at] == 0 {
        Ok(None)
    } else {
        match nul_string(content.subrange(at + 1, end), "menu layout URL"@) {
            Ok(url) => Ok(Some(url)),
            Err(error) => Err(error),
        }
    }
}

/// A menu in a response: group, menu, and the name behind its length. A 16-bit identifier can
/// follow, then the layout URL behind its length, then the 16-bit count of string OIDs.
pub open spec fn parsed_menu(content: Seq<u8>) -> Result<MenuDescriptionView, ProtocolErrorView> {
    checked(
        content,
        if content.len() < 5 {
            invalid("menu name response is too short"@)
        } else if content.len() < 4 + content[3] {
            invalid("menu name is truncated"@)
        } else {
            let end = 4 + content[3] as int;
            match nul_string(content.subrange(4, end), "menu name"@) {
                Err(error) => Err(error),
                Ok(name) => {
                    let stable_id = optional16(content, end);
                    let layout = if stable_id is Some {
                        end + 2
                    } else {
                        end
                    };
                    if layout == content.len() {
                        Ok(
                            MenuDescriptionView {
                                group: content[1],
                                menu: content[2],
                                name,
                                stable_id,
                                layout_url: None,
                                string_oid_count: None,
                            },
                        )
                    } else {
                        match layout_at(content, layout) {
                            Err(error) => Err(error),
                            Ok(layout_url) => {
                                let tail = layout + 1 + content[layout];
                                if content.len() != tail && content.len() != tail + 2 {
                                    invalid("menu name response has an invalid optional tail"@)
                                } else {
                                    Ok(
                                        MenuDescriptionView {
                                            group: content[1],
                                            menu: content[2],
                                            name,
                                            stable_id,
                                            layout_url,
                                            string_oid_count: optional16(content, tail),
                                        },
                                    )
                                }
                            },
                        }
                    }
                },
            }
        },
    )
}

impl MenuDescription {
    pub fn parse(frame: &Frame) -> (r: Result<Self, ProtocolError>)
        ensures
            result_view(r) == parsed_menu(frame@.content),
    {
        if let Err(error) = ensure_success(frame) {
            return Err(error);
        }
        let content = frame.content.as_slice();
        if content.len() < 5 {
            return Err(ProtocolError::InvalidResponse("menu name response is too short"));
        }
        let mut offset: usize = 4 + content[3] as usize;
        if offset > content.len() {
            return Err(ProtocolError::InvalidResponse("menu name is truncated"));
        }
        let name = match parse_nul_string(&content[4..offset], "menu name") {
            Ok(name) => name,
            Err(error) => return Err(error),
        };
        let mut stable_id: Option<u16> = None;
        if content.len() - offset >= 2 {
            stable_id = Some(read16(content, offset));
            offset += 2;
        }
        let mut layout_url: Option<String> = None;
        let mut string_oid_count: Option<u16> = None;
        if offset < content.len() {
            let length: usize = content[offset] as usize;
            offset += 1;
            if length > content.len() - offset {
                return Err(ProtocolError::InvalidResponse("menu layout URL is truncated"));
            }
            if length != 0 {
                layout_url = match parse_nul_string(
                    &content[offset..offset + length],
                    "menu layout URL",
                ) {
                    Ok(url) => Some(url),
                    Err(error) => return Err(error),
                };
            }
            offset += length;
            if content.len() - offset >= 2 {
                string_oid_count = Some(read16(content, offset));
                offset += 2;
            }
        }
        if offset != content.len() {
            return Err(
                ProtocolError::InvalidResponse("menu name response has an invalid optional tail"),
            );
        }
        Ok(
            MenuDescription {
                group: content[1],
                menu: content[2],
                name,
                stable_id,
                layout_url,
                string_oid_count,
            },
        )
    }
}

/// The numeric OIDs of a menu.
#[derive(Debug, Clone, PartialEq, Eq)]
pub struct MenuNumericOids {
    pub group: u8,
    pub menu: u8,
    pub oids: Vec<u16>,
}

/// The value of a `MenuNumericOids`.
pub struct MenuNumericOidsView {
    pub group: u8,
    pub menu: u8,
    pub oids: Seq<u16>,
}

impl View for MenuNumericOids {
    type V = MenuNumericOidsView;

    open spec fn view(&self) -> MenuNumericOidsView {
        MenuNumericOidsView { group: self.group, menu: self.menu, oids: self.oids@ }
    }
}

/// The numeric OIDs of a menu in a response: group, menu, how many, and the OIDs.
pub open spec fn parsed_menu_oids(content: Seq<u8>) -> Result<
    MenuNumericOidsView,
    ProtocolErrorView,
> {
    checked(
        content,
        if content.len() < 4 {
            invalid("menu OID response is too short"@)
        } else if content[3] > 128 || content.len() != 4 + 2 * content[3] {
            invalid("menu OID response has an invalid length"@)
        } else {
            Ok(
                MenuNumericOidsView {
                    group: content[1],
                    menu: content[2],
                    oids: numbers16(content, 4, content[3] as nat),
                },
            )
        },
    )
}

impl MenuNumericOids {
    pub fn parse(frame: &Frame) -> (r: Result<Self, ProtocolError>)
        ensures
            result_view(r) == parsed_menu_oids(frame@.content),
    {
        if let Err(error) = ensure_success(frame) {
            return Err(error);
        }
        let content = frame.content.as_slice();
        if content.len() < 4 {
            return Err(ProtocolError::InvalidResponse("menu OID response is too short"));
        }
        let count: usize = content[3] as usize;
        if count > 128 || content.len() != 4 + count * 2 {
            return Err(ProtocolError::InvalidResponse("menu OID response has an invalid length"));
        }
        Ok(
            MenuNumericOids {
                group: content[1],
                menu: content[2],
                oids: parse_numbers16(content, 4, count),
            },
        )
    }
}

/// Some of the string OIDs of a menu, from the one with the index `first` on.
#[derive(Debug, Clone, PartialEq, Eq)]
pub struct MenuStringOidPage {
    pub group: u8,
    pub menu: u8,
    pub first: u16,
    pub oids: Vec<String>,
}

/// The value of a `MenuStringOidPage`.
pub struct MenuStringOidPageView {
    pub group: u8,
    pub menu: u8,
    pub first: u16,
    pub oids: Seq<Seq<char>>,
}

impl View for MenuStringOidPage {
    type V = MenuStringOidPageView;

    open spec fn view(&self) -> MenuStringOidPageView {
        MenuStringOidPageView {
            group: self.group,
            menu: self.menu,
            first: self.first,
            oids: views(self.oids@),
        }
    }
}

/// The string OIDs of a menu in a response: group, menu, the index of the first, how many, and
/// each behind its length.
pub open spec fn parsed_menu_string_page(content: Seq<u8>) -> Result<
    MenuStringOidPageView,
    ProtocolErrorView,
> {
    checked(
        content,
        if content.len() < 7 {
            invalid("menu string OID response is too short"@)
        } else if be16(content, 5) > 128 {
            invalid("menu string OID response exceeds 128 entries"@)
        } else {
            match counted_strings(content, 7, be16(content, 5) as nat, "menu string OID"@) {
                Err(error) => Err(error),
                Ok((oids, end)) => if end != content.len() {
                    invalid("menu string OID response has trailing bytes"@)
                } else {
                    Ok(
                        MenuStringOidPageView {
                            group: content[1],
                            menu: content[2],
                            first: be16(content, 3),
                            oids,
                        },
                    )
                },
            }
        },
    )
}

impl MenuStringOidPage {
    pub fn parse(frame: &Frame) -> (r: Result<Self, ProtocolError>)
        ensures
            result_view(r) == parsed_menu_string_page(frame@.content),
    {
        if let Err(error) = ensure_success(frame) {
            return Err(error);
        }
        let content = frame.content.as_slice();
        if content.len() < 7 {
            return Err(ProtocolError::InvalidResponse("menu string OID response is too short"));
        }
        let count: usize = read16(content, 5) as usize;
        if count > 128 {
            return Err(
                ProtocolError::InvalidResponse("menu string OID response exceeds 128 entries"),
            );
        }
        match parse_counted_strings(content, 7, count, "menu string OID") {
            Err(error) => Err(error),
            Ok((oids, end)) => if end != content.len() {
                Err(ProtocolError::InvalidResponse("menu string OID response has trailing bytes"))
            } else {
                Ok(
                    MenuStringOidPage {
                        group: content[1],
                        menu: content[2],
                        first: read16(content, 3),
                        oids,
                    },
                )
            },
        }
    }
}

/// Some of the numeric OIDs of a device, from the one with the index `first` on.
#[derive(Debug, Clone, PartialEq, Eq)]
pub struct NumericOidPage {
    pub first: u16,
    pub oids: Vec<u16>,
}

/// The value of a `NumericOidPage`.
pub struct NumericOidPageView {
    pub first: u16,
    pub oids: Seq<u16>,
}

impl View for NumericOidPage {
    type V = NumericOidPageView;

    open spec fn view(&self) -> NumericOidPageView {
        NumericOidPageView { first: self.first, oids: self.oids@ }
    }
}

/// The numeric OIDs in a response: the index of the first, how many, and the OIDs.
pub open spec fn parsed_numeric_page(content: Seq<u8>) -> Result<
    NumericOidPageView,
    ProtocolErrorView,
> {
    checked(
        content,
        if content.len() < 4 {
            invalid("numeric OID page is shorter than 4 bytes"@)
        } else if content[3] > 128 || content.len() != 4 + 2 * content[3] {
            invalid("numeric OID page has an invalid length"@)
        } else {
            Ok(
                NumericOidPageView {
                    first: be16(content, 1),
                    oids: numbers16(content, 4, content[3] as nat),
                },
            )
        },
    )
}

impl NumericOidPage {
    pub fn parse(frame: &Frame) -> (r: Result<Self, ProtocolError>)
        ensures
            result_view(r) == parsed_numeric_page(frame@.content),
    {
        if let Err(error) = ensure_success(frame) {
            return Err(error);
        }
        let content = frame.content.as_slice();
        if content.len() < 4 {
            return Err(ProtocolError::InvalidResponse("numeric OID page is shorter than 4 bytes"));
        }
        let count: usize = content[3] as usize;
        if count > 128 || content.len() != 4 + count * 2 {
            return Err(ProtocolError::InvalidResponse("numeric OID page has an invalid length"));
        }
        Ok(NumericOidPage { first: read16(content, 1), oids: parse_numbers16(content, 4, count) })
    }
}

/// Some of the string OIDs of a device, from the one with the index `first` on.
#[derive(Debug, Clone, PartialEq, Eq)]
pub struct StringOidPage {
    pub first: u32,
    pub oids: Vec<String>,
}

/// The value of a `StringOidPage`.
pub struct StringOidPageView {
    pub first: u32,
    pub oids: Seq<Seq<char>>,
}

impl View for StringOidPage {
    type V = StringOidPageView;

    open spec fn view(&self) -> StringOidPageView {
        StringOidPageView { first: self.first, oids: views(self.oids@) }
    }
}

/// The string OIDs in a response: the index of the first, how many, and each behind its length.
pub open spec fn parsed_string_page(content: Seq<u8>) -> Result<
    StringOidPageView,
    ProtocolErrorView,
> {
    checked(
        content,
        if content.len() < 7 {
            invalid("string OID page is shorter than 7 bytes"@)
        } else if be16(content, 5) > 128 {
            invalid("string OID page exceeds 128 entries"@)
        } else {
            match counted_strings(content, 7, be16(content, 5) as nat, "string OID"@) {
                Err(error) => Err(error),
                Ok((oids, end)) => if end != content.len() {
                    invalid("string OID page has trailing bytes"@)
                } else {
                    Ok(StringOidPageView { first: be32(content, 1), oids })
                },
            }
        },
    )
}

impl StringOidPage {
    pub fn parse(frame: &Frame) -> (r: Result<Self, ProtocolError>)
        ensures
            result_view(r) == parsed_string_page(frame@.content),
    {
        if let Err(error) = ensure_success(frame) {
            return Err(error);
        }
        let content = frame.content.as_slice();
        if content.len() < 7 {
            return Err(ProtocolError::InvalidResponse("string OID page is shorter than 7 bytes"));
        }
        let count: usize = read16(content, 5) as usize;
        if count > 128 {
            return Err(ProtocolError::InvalidResponse("string OID page exceeds 128 entries"));
        }
        match parse_counted_strings(content, 7, count, "string OID") {
            Err(error) => Err(error),
            Ok((oids, end)) => if end != content.len() {
                Err(ProtocolError::InvalidResponse("string OID page has trailing bytes"))
            } else {
                Ok(StringOidPage { first: read32(content, 1), oids })
            },
        }
    }
}

/// The value of a parameter, as bytes.
#[derive(Debug, Clone, PartialEq, Eq)]
pub struct ParameterResponse {
    pub oid: ParameterOid,
    pub value: Vec<u8>,
}

/// The value of a `ParameterResponse`.
pub struct ParameterResponseView {
    pub oid: OidView,
    pub value: Seq<u8>,
}

impl View for ParameterResponse {
    type V = ParameterResponseView;

    open spec fn view(&self) -> ParameterResponseView {
        ParameterResponseView { oid: self.oid@, value: self.value@ }
    }
}

/// The value in a response about a numeric OID: the OID, and the value behind its length.
pub open spec fn numeric_value(content: Seq<u8>) -> Result<
    ParameterResponseView,
    ProtocolErrorView,
> {
    if content.len() < 4 {
        invalid("numeric value response is too short"@)
    } else if content.len() != 4 + content[3] {
        invalid("numeric value length does not match"@)
    } else {
        Ok(
            ParameterResponseView {
                oid: OidView::Numeric(be16(content, 1)),
                value: content.skip(4),
            },
        )
    }
}

/// The value in a response about a string OID: the OID behind its length, and the value behind
/// its length, which is zero for any length.
pub open spec fn string_value(content: Seq<u8>) -> Result<
    ParameterResponseView,
    ProtocolErrorView,
> {
    if content.len() < 4 {
        invalid("string-OID value response is too short"@)
    } else if content.len() < 3 + content[1] {
        invalid("string-OID value response is truncated"@)
    } else {
        let end = 2 + content[1] as int;
        match nul_string(content.subrange(2, end), "string OID"@) {
            Err(error) => Err(error),
            Ok(oid) => if content[end] != 0 && content[end] != content.len() - end - 1 {
                invalid("string-OID value length does not match"@)
            } else {
                Ok(
                    ParameterResponseView {
                        oid: OidView::String(oid),
                        value: content.skip(end + 1),
                    },
                )
            },
        }
    }
}

/// The value in a response that must be about the expected OID.
pub open spec fn parsed_value(content: Seq<u8>, expected: OidView) -> Result<
    ParameterResponseView,
    ProtocolErrorView,
> {
    let response = match expected {
        OidView::Numeric(_) => numeric_value(content),
        OidView::String(_) => string_value(content),
    };
    checked(
        content,
        match response {
            Ok(value) => if value.oid == expected {
                Ok(value)
            } else {
                Err(ProtocolErrorView::UnexpectedOid { expected, actual: value.oid })
            },
            Err(error) => Err(error),
        },
    )
}

impl ParameterResponse {
    pub fn parse(frame: &Frame, expected_oid: &ParameterOid) -> (r: Result<Self, ProtocolError>)
        ensures
            result_view(r) == parsed_value(frame@.content, expected_oid@),
    {
        if let Err(error) = ensure_success(frame) {
            return Err(error);
        }
        let content = frame.content.as_slice();
        let parsed = match expected_oid {
            ParameterOid::Numeric(_) => parse_numeric_value(content),
            ParameterOid::String(_) => parse_string_value(content),
        };
        match parsed {
            Ok(response) => if response.oid.same(expected_oid) {
                Ok(response)
            } else {
                Err(
                    ProtocolError::UnexpectedOid {
                        expected: expected_oid.clone(),
                        actual: response.oid,
                    },
                )
            },
            Err(error) => Err(error),
        }
    }
}

fn parse_numeric_value(content: &[u8]) -> (r: Result<ParameterResponse, ProtocolError>)
    ensures
        result_view(r) == numeric_value(content@),
{
    if content.len() < 4 {
        return Err(ProtocolError::InvalidResponse("numeric value response is too short"));
    }
    if content.len() != 4 + content[3] as usize {
        return Err(ProtocolError::InvalidResponse("numeric value length does not match"));
    }
    Ok(
        ParameterResponse {
            oid: ParameterOid::Numeric(read16(content, 1)),
            value: tail_of(content, 4),
        },
    )
}

fn parse_string_value(content: &[u8]) -> (r: Result<ParameterResponse, ProtocolError>)
    ensures
        result_view(r) == string_value(content@),
{
    if content.len() < 4 {
        return Err(ProtocolError::InvalidResponse("string-OID value response is too short"));
    }
    let end: usize = 2 + content[1] as usize;
    if end + 1 > content.len() {
        return Err(ProtocolError::InvalidResponse("string-OID value response is truncated"));
    }
    let oid = match parse_nul_string(&content[2..end], "string OID") {
        Ok(oid) => oid,
        Err(error) => return Err(error),
    };
    let declared: usize = content[end] as usize;
    if declared != 0 && declared != content.len() - end - 1 {
        return Err(ProtocolError::InvalidResponse("string-OID value length does not match"));
    }
    Ok(ParameterResponse { oid: ParameterOid::String(oid), value: tail_of(content, end + 1) })
}

/// A part of an external object, and the number of the next one.
#[derive(Debug, Clone, PartialEq, Eq)]
pub struct ExternalObjectFragment {
    pub oid: u16,
    pub fragment: u16,
    pub next: u16,
    pub data: Vec<u8>,
}

/// The value of an `ExternalObjectFragment`.
pub struct FragmentView {
    pub oid: u16,
    pub fragment: u16,
    pub next: u16,
    pub data: Seq<u8>,
}

impl View for ExternalObjectFragment {
    type V = FragmentView;

    open spec fn view(&self) -> FragmentView {
        FragmentView {
            oid: self.oid,
            fragment: self.fragment,
            next: self.next,
            data: self.data@,
        }
    }
}

/// A fragment in a response: the object, the fragment, the next one, and the data behind its
/// length.
pub open spec fn parsed_fragment(content: Seq<u8>) -> Result<FragmentView, ProtocolErrorView> {
    checked(
        content,
        if content.len() < 8 {
            invalid("external object fragment is too short"@)
        } else if content.len() != 8 + content[7] {
            invalid("external object fragment length does not match"@)
        } else {
            Ok(
                FragmentView {
                    oid: be16(content, 1),
                    fragment: be16(content, 3),
                    next: be16(content, 5),
                    data: content.skip(8),
                },
            )
        },
    )
}

impl ExternalObjectFragment {
    pub fn parse(frame: &Frame) -> (r: Result<Self, ProtocolError>)
        ensures
            result_view(r) == parsed_fragment(frame@.content),
    {
        if let Err(error) = ensure_success(frame) {
            return Err(error);
        }
        let content = frame.content.as_slice();
        if content.len() < 8 {
            return Err(ProtocolError::InvalidResponse("external object fragment is too short"));
        }
        if content.len() != 8 + content[7] as usize {
            return Err(
                ProtocolError::InvalidResponse("external object fragment length does not match"),
            );
        }
        Ok(
            ExternalObjectFragment {
                oid: read16(content, 1),
                fragment: read16(content, 3),
                next: read16(content, 5),
                data: tail_of(content, 8),
            },
        )
    }
}

/// The answer of a frame controller to the request for a connection.
#[derive(Debug, Clone, Copy, PartialEq, Eq, Structural)]
pub struct HandshakeResponse {
    pub allowed: bool,
    pub urm_state: Option<u16>,
    pub refusal_reason: Option<u16>,
}

impl View for HandshakeResponse {
    type V = HandshakeResponse;

    open spec fn view(&self) -> HandshakeResponse {
        *self
    }
}

/// The answer in the value of the connection parameter: 16-bit numbers, of which the second and
/// the third can be missing.
pub open spec fn parsed_handshake(content: Seq<u8>) -> Result<
    HandshakeResponse,
    ProtocolErrorView,
> {
    match parsed_value(content, OidView::Numeric(CONNECTION_OID)) {
        Err(error) => Err(error),
        Ok(response) => {
            let value = response.value;
            if value.len() < 2 || value.len() % 2 != 0 {
                invalid("handshake value must contain 16-bit fields"@)
            } else {
                Ok(
                    HandshakeResponse {
                        allowed: be16(value, 0) != 0,
                        urm_state: optional16(value, 2),
                        refusal_reason: optional16(value, 4),
                    },
                )
            }
        },
    }
}

impl HandshakeResponse {
    pub fn parse(frame: &Frame) -> (r: Result<Self, ProtocolError>)
        ensures
            result_view(r) == parsed_handshake(frame@.content),
    {
        let value = match ParameterResponse::parse(frame, &ParameterOid::Numeric(CONNECTION_OID)) {
            Ok(response) => response.value,
            Err(error) => return Err(error),
        };
        if value.len() < 2 || value.len() % 2 != 0 {
            return Err(ProtocolError::InvalidResponse("handshake value must contain 16-bit fields"));
        }
        Ok(
            HandshakeResponse {
                allowed: read16(&value, 0) != 0,
                urm_state: if value.len() >= 4 {
                    Some(read16(&value, 2))
                } else {
                    None
                },
                refusal_reason: if value.len() >= 6 {
                    Some(read16(&value, 4))
                } else {
                    None
                },
            },
        )
    }
}

} // verus!
