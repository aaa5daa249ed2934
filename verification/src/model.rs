//! Parameters, their types, values and constraints, and the names by which they are selected.

use crate::number::{
    float_number, integer_number, is_same_number, number_of_float, number_of_integer, same_number,
    Float32, Float64, Number, Real,
};
use crate::text::{
    after_prefix, chars_of, contains_text, fold, hex, parse_unsigned, push_hex, same, same_fold,
    starts_with, strip_prefix, trim, trimmed, unsigned_value,
};
use crate::views::{clone_all, clone_option, option_view, result_view, views};
use vstd::prelude::*;
use vstd::string::*;

pub use crate::catalog::{
    CatalogError, DeviceCatalog, Menu, MenuGroup, MenuGroupIdentity, MenuIdentity, MenuPath,
    ParameterCandidate, ResolveError,
};

verus! {

/// Version of the JSON documents.
pub const SCHEMA_VERSION: u32 = 6;

/// The object identifier of a parameter.
#[derive(Debug, PartialEq, Eq, Hash, PartialOrd, Ord)]
pub enum ParameterOid {
    Numeric(u16),
    String(String),
}

/// The value of a `ParameterOid`.
pub enum OidView {
    Numeric(u16),
    String(Seq<char>),
}

impl View for ParameterOid {
    type V = OidView;

    open spec fn view(&self) -> OidView {
        match *self {
            ParameterOid::Numeric(value) => OidView::Numeric(value),
            ParameterOid::String(value) => OidView::String(value@),
        }
    }
}

impl Clone for ParameterOid {
    fn clone(&self) -> (r: Self)
        ensures
            r@ == self@,
    {
        match self {
            ParameterOid::Numeric(value) => ParameterOid::Numeric(*value),
            ParameterOid::String(value) => ParameterOid::String(value.clone()),
        }
    }
}

/// The digits of a hexadecimal number: what follows `0x` or `0X`.
pub open spec fn hex_digits(text: Seq<char>) -> Option<Seq<char>> {
    match after_prefix(text, "0x"@) {
        Some(digits) => Some(digits),
        None => after_prefix(text, "0X"@),
    }
}

/// The digits of a hexadecimal number: what follows `0x` or `0X`.
pub fn strip_hex(text: &str) -> (r: Option<String>)
    ensures
        option_view(r) == hex_digits(text@),
{
    match strip_prefix(text, "0x") {
        Some(digits) => Some(digits),
        None => strip_prefix(text, "0X"),
    }
}

pub open spec fn is_digit(c: char) -> bool {
    '0' <= c <= '9'
}

pub open spec fn is_alphabetic(c: char) -> bool {
    'a' <= c <= 'z' || 'A' <= c <= 'Z'
}

/// Whether a character may stand in a string OID.
pub open spec fn is_oid_char(c: char) -> bool {
    is_alphabetic(c) || is_digit(c) || c == '.' || c == '_' || c == '-'
}

/// Whether the digits after the dot at `dot` end the text.
pub open spec fn digits_after(text: Seq<char>, dot: int) -> bool {
    &&& 0 <= dot < text.len() - 1
    &&& text[dot] == '.'
    &&& forall|i: int| dot < i < text.len() ==> is_digit(#[trigger] text[i])
}

/// Whether a text is a string OID: at most 254 letters, digits, dots, underscores and hyphens,
/// which start with a letter or an underscore and do not end in a dot and a number.
pub open spec fn is_string_oid(text: Seq<char>) -> bool {
    &&& 0 < text.len() < 255
    &&& forall|i: int| 0 <= i < text.len() ==> is_oid_char(#[trigger] text[i])
    &&& is_alphabetic(text[0]) || text[0] == '_'
    &&& !exists|dot: int| digits_after(text, dot)
}

/// The OID that a text names: a hexadecimal or decimal number of 16 bits, or else a string OID.
pub open spec fn parsed_oid(text: Seq<char>) -> Result<OidView, Seq<char>> {
    let input = trimmed(text);
    match hex_digits(input) {
        Some(digits) => match unsigned_value(digits, 16) {
            Some(value) if value <= 0xFFFF => Ok(OidView::Numeric(value as u16)),
            _ => Err(input),
        },
        None => match unsigned_value(input, 10) {
            Some(value) if value <= 0xFFFF => Ok(OidView::Numeric(value as u16)),
            _ => if is_string_oid(input) {
                Ok(OidView::String(input))
            } else {
                Err(input)
            },
        },
    }
}

/// How an OID is written: four hexadecimal digits, or the text itself.
pub open spec fn oid_text(oid: OidView) -> Seq<char> {
    match oid {
        OidView::Numeric(value) => "0x"@ + hex(value as nat, 4, true),
        OidView::String(value) => value,
    }
}

/// The text is not an OID.
#[derive(Debug)]
pub struct ParseOidError(pub String);

impl View for ParseOidError {
    type V = Seq<char>;

    open spec fn view(&self) -> Seq<char> {
        self.0@
    }
}

impl ParseOidError {
    pub fn to_string(&self) -> (r: String)
        ensures
            r@ == "invalid OID: "@ + self@,
    {
        let mut text = "invalid OID: ".to_owned();
        text.append(&self.0);
        text
    }
}

impl ParameterOid {
    pub fn as_numeric(&self) -> (r: Option<u16>)
        ensures
            r == (match self@ {
                OidView::Numeric(value) => Some(value),
                OidView::String(_) => None,
            }),
    {
        match self {
            Self::Numeric(value) => Some(*value),
            Self::String(_) => None,
        }
    }

    /// Whether two OIDs are the same.
    pub fn same(&self, other: &ParameterOid) -> (r: bool)
        ensures
            r == (self@ == other@),
    {
        match (self, other) {
            (Self::Numeric(left), Self::Numeric(right)) => *left == *right,
            (Self::String(left), Self::String(right)) => same(left, right),
            _ => false,
        }
    }

    /// How the OID is written.
    pub fn to_string(&self) -> (r: String)
        ensures
            r@ == oid_text(self@),
    {
        match self {
            Self::Numeric(value) => {
                let mut text = "0x".to_owned();
                push_hex(&mut text, *value as u64, 4, true);
                text
            },
            Self::String(value) => value.clone(),
        }
    }

    /// The OID that a text names.
    pub fn from_str(input: &str) -> (r: Result<Self, ParseOidError>)
        ensures
            result_view(r) == parsed_oid(input@),
    {
        let input = trim(input);
        if let Some(digits) = strip_hex(&input) {
            return match parse_unsigned(&digits, 16, 0xFFFF) {
                Some(value) => Ok(Self::Numeric(value as u16)),
                None => Err(ParseOidError(input)),
            };
        }
        if let Some(value) = parse_unsigned(&input, 10, 0xFFFF) {
            return Ok(Self::Numeric(value as u16));
        }
        if string_oid(&input) {
            Ok(Self::String(input))
        } else {
            Err(ParseOidError(input))
        }
    }
}

/// Whether a text is a string OID.
fn string_oid(text: &str) -> (r: bool)
    ensures
        r == is_string_oid(text@),
{
    let chars = chars_of(text);
    if chars.len() == 0 || chars.len() >= 255 {
        return false;
    }
    let first = chars[0];
    if !(('a' <= first && first <= 'z') || ('A' <= first && first <= 'Z') || first == '_') {
        return false;
    }
    let mut i: usize = 0;
    // The text ends in a dot and digits, or in digits alone, from here on.
    let mut dot: usize = 0;
    let mut dotted = false;
    while i < chars.len()
        invariant
            i <= chars.len(),
            chars@ == text@,
            forall|k: int| 0 <= k < i ==> is_oid_char(#[trigger] text@[k]),
            dotted ==> dot < i && text@[dot as int] == '.' && forall|k: int|
                dot < k < i ==> is_digit(#[trigger] text@[k]),
            !dotted ==> forall|d: int| 0 <= d < i && text@[d] == '.' ==> exists|k: int|
                d < k < i && !is_digit(#[trigger] text@[k]),
            dotted ==> forall|d: int| 0 <= d < dot && text@[d] == '.' ==> exists|k: int|
                d < k < i && !is_digit(#[trigger] text@[k]),
        decreases chars.len() - i,
    {
        let c = chars[i];
        if c == '.' {
            assert(!is_digit(text@[i as int]));
            dotted = true;
            dot = i;
        } else if '0' <= c && c <= '9' {
        } else if ('a' <= c && c <= 'z') || ('A' <= c && c <= 'Z') || c == '_' || c == '-' {
            assert(!is_digit(text@[i as int]));
            dotted = false;
        } else {
            assert(!is_oid_char(text@[i as int]));
            return false;
        }
        i += 1;
    }
    let r = !dotted || dot == chars.len() - 1;
    proof {
        if !r {
            assert(digits_after(text@, dot as int));
        } else {
            assert forall|d: int| !digits_after(text@, d) by {
                if digits_after(text@, d) {
                    if dotted && d == dot {
                    } else {
                        let k = choose|k: int| d < k < i && !is_digit(#[trigger] text@[k]);
                        assert(is_digit(text@[k]));
                    }
                }
            }
        }
    }
    r
}

/// A way to name a parameter.
#[derive(Debug, PartialEq, Eq)]
pub enum ParameterSelector {
    Oid(ParameterOid),
    DisplayName(String),
    Auto(String),
}

/// The value of a `ParameterSelector`.
pub enum SelectorView {
    Oid(OidView),
    DisplayName(Seq<char>),
    Auto(Seq<char>),
}

impl View for ParameterSelector {
    type V = SelectorView;

    open spec fn view(&self) -> SelectorView {
        match *self {
            ParameterSelector::Oid(oid) => SelectorView::Oid(oid@),
            ParameterSelector::DisplayName(name) => SelectorView::DisplayName(name@),
            ParameterSelector::Auto(value) => SelectorView::Auto(value@),
        }
    }
}

impl Clone for ParameterSelector {
    fn clone(&self) -> (r: Self)
        ensures
            r@ == self@,
    {
        match self {
            ParameterSelector::Oid(oid) => ParameterSelector::Oid(oid.clone()),
            ParameterSelector::DisplayName(name) => ParameterSelector::DisplayName(name.clone()),
            ParameterSelector::Auto(value) => ParameterSelector::Auto(value.clone()),
        }
    }
}

/// The text does not select a parameter.
#[derive(Debug)]
pub struct ParseSelectorError(pub String);

impl View for ParseSelectorError {
    type V = Seq<char>;

    open spec fn view(&self) -> Seq<char> {
        self.0@
    }
}

impl ParseSelectorError {
    pub fn to_string(&self) -> (r: String)
        ensures
            r@ == self@,
    {
        self.0.clone()
    }
}

/// How a selector is written.
pub open spec fn selector_text(selector: SelectorView) -> Seq<char> {
    match selector {
        SelectorView::Oid(oid) => "oid:"@ + oid_text(oid),
        SelectorView::DisplayName(name) => "name:"@ + name,
        SelectorView::Auto(value) => value,
    }
}

/// What is said of a text that selects nothing.
pub open spec fn invalid_selector(input: Seq<char>) -> Seq<char> {
    "invalid parameter selector: "@ + input
}

/// The selector that a text stands for: an OID after `oid:`, a display name after `name:`, and
/// either where neither stands in front.
pub open spec fn parsed_selector(input: Seq<char>) -> Result<SelectorView, Seq<char>> {
    if starts_with(input, "symbol:"@) {
        Err("symbol selectors are not supported; use an OID or display name"@)
    } else {
        match after_prefix(input, "oid:"@) {
            Some(value) => match parsed_oid(value) {
                Ok(oid) => Ok(SelectorView::Oid(oid)),
                Err(_) => Err(invalid_selector(input)),
            },
            None => match after_prefix(input, "name:"@) {
                Some(value) => if value.len() == 0 {
                    Err(invalid_selector(input))
                } else {
                    Ok(SelectorView::DisplayName(value))
                },
                None => if input.len() == 0 {
                    Err(invalid_selector(input))
                } else {
                    Ok(SelectorView::Auto(input))
                },
            },
        }
    }
}

impl ParameterSelector {
    /// How the selector is written.
    pub fn to_string(&self) -> (r: String)
        ensures
            r@ == selector_text(self@),
    {
        match self {
            Self::Oid(oid) => {
                let mut text = "oid:".to_owned();
                text.append(&oid.to_string());
                text
            },
            Self::DisplayName(name) => {
                let mut text = "name:".to_owned();
                text.append(name);
                text
            },
            Self::Auto(value) => value.clone(),
        }
    }

    /// The selector that a text stands for.
    pub fn from_str(input: &str) -> (r: Result<Self, ParseSelectorError>)
        ensures
            result_view(r) == parsed_selector(input@),
    {
        if strip_prefix(input, "symbol:").is_some() {
            return Err(
                ParseSelectorError(
                    "symbol selectors are not supported; use an OID or display name".to_owned(),
                ),
            );
        }
        if let Some(value) = strip_prefix(input, "oid:") {
            return match ParameterOid::from_str(&value) {
                Ok(oid) => Ok(Self::Oid(oid)),
                Err(_) => Err(rejected_selector(input)),
            };
        }
        if let Some(value) = strip_prefix(input, "name:") {
            return match nonempty(&value, input) {
                Ok(name) => Ok(Self::DisplayName(name)),
                Err(error) => Err(error),
            };
        }
        match nonempty(input, input) {
            Ok(value) => Ok(Self::Auto(value)),
            Err(error) => Err(error),
        }
    }
}

fn rejected_selector(input: &str) -> (r: ParseSelectorError)
    ensures
        r@ == invalid_selector(input@),
{
    let mut text = "invalid parameter selector: ".to_owned();
    text.append(input);
    ParseSelectorError(text)
}

fn nonempty(value: &str, original: &str) -> (r: Result<String, ParseSelectorError>)
    ensures
        result_view(r) == (if value@.len() == 0 {
            Err(invalid_selector(original@))
        } else {
            Ok(value@)
        }),
{
    if value.unicode_len() == 0 {
        Err(rejected_selector(original))
    } else {
        Ok(value.to_owned())
    }
}

/// Whether two labels are the same but for the case of ASCII letters.
pub fn label_eq(left: &str, right: &str) -> (r: bool)
    ensures
        r == (fold(left@) == fold(right@)),
{
    same_fold(left, right)
}

/// The type of a parameter's value.
#[derive(Debug, Clone, Copy, PartialEq, Eq, Structural)]
pub enum ParameterType {
    Int16,
    Int32,
    Float32,
    String { max_bytes: Option<u8> },
    Int16Array { length: Option<u16> },
    Int32Array { length: Option<u16> },
    Float32Array { length: Option<u16> },
    StringArray { length: Option<u16>, max_element_bytes: Option<u8> },
    Binary,
    Unsupported { type_id: u8 },
}

/// Whether a parameter of this type can hold the value.
pub open spec fn type_accepts(parameter_type: ParameterType, value: ValueView) -> bool {
    match (parameter_type, value) {
        (ParameterType::Int16, ValueView::Int16 { .. }) => true,
        (ParameterType::Int32, ValueView::Int32 { .. }) => true,
        (ParameterType::Float32, ValueView::Float32 { .. }) => true,
        (ParameterType::String { .. }, ValueView::String { .. }) => true,
        _ => false,
    }
}

impl ParameterType {
    pub fn accepts(&self, value: &ParameterValue) -> (r: bool)
        ensures
            r == type_accepts(*self, value@),
    {
        match (self, value) {
            (Self::Int16, ParameterValue::Int16 { .. }) => true,
            (Self::Int32, ParameterValue::Int32 { .. }) => true,
            (Self::Float32, ParameterValue::Float32 { .. }) => true,
            (Self::String { .. }, ParameterValue::String { .. }) => true,
            _ => false,
        }
    }
}

#[derive(Debug, Clone, Copy, PartialEq, Eq, Structural)]
pub enum Access {
    ReadOnly,
    ReadWrite,
}

/// The widget that shows a parameter: its number, and its kind where that is known.
#[derive(Debug, Clone, Copy, PartialEq, Eq, Structural)]
pub struct Widget {
    pub value: u8,
    pub known_kind: Option<KnownWidget>,
}

#[derive(Debug, Clone, Copy, PartialEq, Eq, Structural)]
pub enum KnownWidget {
    Button,
    Choice,
    Text,
    Checkbox,
    Spinner,
    Slider,
    Alarm,
    Hidden,
    Title,
    RichLabel,
}

#[derive(Debug, Clone, Copy, PartialEq, Eq, Structural)]
pub enum ParameterRole {
    Operational,
    Layout,
}

/// What writing a parameter does: it stores a value, or sets off an action.
#[derive(Debug, Clone, Copy, PartialEq, Eq, Structural)]
pub enum SetSemantics {
    Value,
    Trigger,
}

/// The value of a parameter.
#[derive(Debug, PartialEq)]
pub enum ParameterValue {
    Int16 { value: i16 },
    Int32 { value: i32 },
    Float32 { value: Float32 },
    String { value: String },
}

/// The value of a `ParameterValue`.
pub enum ValueView {
    Int16 { value: i16 },
    Int32 { value: i32 },
    Float32 { value: Float32 },
    String { value: Seq<char> },
}

impl View for ParameterValue {
    type V = ValueView;

    open spec fn view(&self) -> ValueView {
        match *self {
            ParameterValue::Int16 { value } => ValueView::Int16 { value },
            ParameterValue::Int32 { value } => ValueView::Int32 { value },
            ParameterValue::Float32 { value } => ValueView::Float32 { value },
            ParameterValue::String { value } => ValueView::String { value: value@ },
        }
    }
}

impl Clone for ParameterValue {
    fn clone(&self) -> (r: Self)
        ensures
            r@ == self@,
    {
        match self {
            ParameterValue::Int16 { value } => ParameterValue::Int16 { value: *value },
            ParameterValue::Int32 { value } => ParameterValue::Int32 { value: *value },
            ParameterValue::Float32 { value } => ParameterValue::Float32 { value: *value },
            ParameterValue::String { value } => ParameterValue::String { value: value.clone() },
        }
    }
}

/// The number that a value is.
pub open spec fn value_number(value: ValueView) -> Option<Real> {
    match value {
        ValueView::Int16 { value } => Some(integer_number(value as int)),
        ValueView::Int32 { value } => Some(integer_number(value as int)),
        ValueView::Float32 { value } => Some(float_number(value.bits)),
        ValueView::String { .. } => None,
    }
}

/// Whether two values are equal: of one type and the same, floats compared as numbers.
pub open spec fn same_value(left: ValueView, right: ValueView) -> bool {
    match (left, right) {
        (ValueView::Int16 { value: l }, ValueView::Int16 { value: r }) => l == r,
        (ValueView::Int32 { value: l }, ValueView::Int32 { value: r }) => l == r,
        (ValueView::Float32 { value: l }, ValueView::Float32 { value: r }) => same_number(
            float_number(l.bits),
            float_number(r.bits),
        ),
        (ValueView::String { value: l }, ValueView::String { value: r }) => l == r,
        _ => false,
    }
}

impl ParameterValue {
    /// The number that the value is.
    pub fn number(&self) -> (r: Option<Number>)
        ensures
            option_view(r) == value_number(self@),
            r matches Some(number) ==> number.wf(),
    {
        match self {
            Self::Int16 { value } => Some(number_of_integer(*value as i32)),
            Self::Int32 { value } => Some(number_of_integer(*value)),
            Self::Float32 { value } => Some(number_of_float(value.bits)),
            Self::String { .. } => None,
        }
    }

    /// The bits of an integer, in two's complement.
    pub fn integer_bits(&self) -> (r: Option<u32>)
        ensures
            r == value_bits(self@),
    {
        match self {
            Self::Int16 { value } => Some(
                if *value < 0 {
                    (*value as i32 + 0x1_0000) as u32
                } else {
                    *value as u32
                },
            ),
            Self::Int32 { value } => Some(
                if *value < 0 {
                    (*value as i64 + 0x1_0000_0000) as u32
                } else {
                    *value as u32
                },
            ),
            _ => None,
        }
    }

    /// Whether two values are equal.
    pub fn same(&self, other: &ParameterValue) -> (r: bool)
        ensures
            r == same_value(self@, other@),
    {
        match (self, other) {
            (Self::Int16 { value: left }, Self::Int16 { value: right }) => *left == *right,
            (Self::Int32 { value: left }, Self::Int32 { value: right }) => *left == *right,
            (Self::Float32 { value: left }, Self::Float32 { value: right }) => is_same_number(
                number_of_float(left.bits),
                number_of_float(right.bits),
            ),
            (Self::String { value: left }, Self::String { value: right }) => same(left, right),
            _ => false,
        }
    }
}

/// A value that a parameter can have, and its label.
#[derive(Debug, PartialEq)]
pub struct Choice {
    pub value: ParameterValue,
    pub display_name: String,
}

/// The value of a `Choice`.
pub struct ChoiceView {
    pub value: ValueView,
    pub display_name: Seq<char>,
}

impl View for Choice {
    type V = ChoiceView;

    open spec fn view(&self) -> ChoiceView {
        ChoiceView { value: self.value@, display_name: self.display_name@ }
    }
}

impl Clone for Choice {
    fn clone(&self) -> (r: Self)
        ensures
            r@ == self@,
    {
        Choice { value: self.value.clone(), display_name: self.display_name.clone() }
    }
}

/// What a bit of an alarm value means.
#[derive(Debug, PartialEq, Eq)]
pub struct AlarmDefinition {
    pub bit: u8,
    pub name: String,
    pub severity_value: u8,
}

/// The value of an `AlarmDefinition`.
pub struct AlarmView {
    pub bit: u8,
    pub name: Seq<char>,
    pub severity_value: u8,
}

impl View for AlarmDefinition {
    type V = AlarmView;

    open spec fn view(&self) -> AlarmView {
        AlarmView { bit: self.bit, name: self.name@, severity_value: self.severity_value }
    }
}

impl Clone for AlarmDefinition {
    fn clone(&self) -> (r: Self)
        ensures
            r@ == self@,
    {
        AlarmDefinition {
            bit: self.bit,
            name: self.name.clone(),
            severity_value: self.severity_value,
        }
    }
}

/// What restricts the values of a parameter.
#[derive(Debug, PartialEq)]
pub enum Constraint {
    Unconstrained,
    Choice { choices: Vec<Choice> },
    StringChoice { choices: Vec<String>, arbitrary_values_allowed: bool },
    Range {
        minimum: ParameterValue,
        maximum: ParameterValue,
        display_minimum: Option<ParameterValue>,
        display_maximum: Option<ParameterValue>,
        step: Option<ParameterValue>,
    },
    AlarmTable { alarms: Vec<AlarmDefinition> },
    External { object_id: u16, resolved: Box<Constraint> },
    Unsupported { type_id: u8 },
}

/// The value of a `Constraint`.
pub enum ConstraintView {
    Unconstrained,
    Choice { choices: Seq<ChoiceView> },
    StringChoice { choices: Seq<Seq<char>>, arbitrary_values_allowed: bool },
    Range {
        minimum: ValueView,
        maximum: ValueView,
        display_minimum: Option<ValueView>,
        display_maximum: Option<ValueView>,
        step: Option<ValueView>,
    },
    AlarmTable { alarms: Seq<AlarmView> },
    External { object_id: u16, resolved: Box<ConstraintView> },
    Unsupported { type_id: u8 },
}

pub open spec fn constraint_view(constraint: Constraint) -> ConstraintView
    decreases constraint,
{
    match constraint {
        Constraint::Unconstrained => ConstraintView::Unconstrained,
        Constraint::Choice { choices } => ConstraintView::Choice { choices: views(choices@) },
        Constraint::StringChoice { choices, arbitrary_values_allowed } =>
            ConstraintView::StringChoice { choices: views(choices@), arbitrary_values_allowed },
        Constraint::Range { minimum, maximum, display_minimum, display_maximum, step } =>
            ConstraintView::Range {
            minimum: minimum@,
            maximum: maximum@,
            display_minimum: option_view(display_minimum),
            display_maximum: option_view(display_maximum),
            step: option_view(step),
        },
        Constraint::AlarmTable { alarms } => ConstraintView::AlarmTable { alarms: views(alarms@) },
        Constraint::External { object_id, resolved } => ConstraintView::External {
            object_id,
            resolved: Box::new(constraint_view(*resolved)),
        },
        Constraint::Unsupported { type_id } => ConstraintView::Unsupported { type_id },
    }
}

impl View for Constraint {
    type V = ConstraintView;

    open spec fn view(&self) -> ConstraintView {
        constraint_view(*self)
    }
}

impl Clone for Constraint {
    fn clone(&self) -> (r: Self)
        ensures
            r@ == self@,
    {
        clone_constraint(self)
    }
}

fn clone_constraint(constraint: &Constraint) -> (r: Constraint)
    ensures
        r@ == constraint@,
    decreases *constraint,
{
    match constraint {
        Constraint::Unconstrained => Constraint::Unconstrained,
        Constraint::Choice { choices } => Constraint::Choice { choices: clone_all(choices) },
        Constraint::StringChoice { choices, arbitrary_values_allowed } => Constraint::StringChoice {
            choices: clone_all(choices),
            arbitrary_values_allowed: *arbitrary_values_allowed,
        },
        Constraint::Range { minimum, maximum, display_minimum, display_maximum, step } =>
            Constraint::Range {
            minimum: minimum.clone(),
            maximum: maximum.clone(),
            display_minimum: clone_option(display_minimum),
            display_maximum: clone_option(display_maximum),
            step: clone_option(step),
        },
        Constraint::AlarmTable { alarms } => Constraint::AlarmTable { alarms: clone_all(alarms) },
        Constraint::External { object_id, resolved } => Constraint::External {
            object_id: *object_id,
            resolved: Box::new(clone_constraint(resolved)),
        },
        Constraint::Unsupported { type_id } => Constraint::Unsupported { type_id: *type_id },
    }
}

/// A parameter of a device.
#[derive(Debug, PartialEq)]
pub struct Parameter {
    pub oid: ParameterOid,
    pub display_name: String,
    pub parameter_type: ParameterType,
    pub access: Access,
    pub precision: Option<u8>,
    pub widget: Widget,
    pub role: ParameterRole,
    pub set_semantics: SetSemantics,
    pub constraint: Constraint,
}

/// The value of a `Parameter`.
pub struct ParameterView {
    pub oid: OidView,
    pub display_name: Seq<char>,
    pub parameter_type: ParameterType,
    pub access: Access,
    pub precision: Option<u8>,
    pub widget: Widget,
    pub role: ParameterRole,
    pub set_semantics: SetSemantics,
    pub constraint: ConstraintView,
}

impl View for Parameter {
    type V = ParameterView;

    open spec fn view(&self) -> ParameterView {
        ParameterView {
            oid: self.oid@,
            display_name: self.display_name@,
            parameter_type: self.parameter_type,
            access: self.access,
            precision: self.precision,
            widget: self.widget,
            role: self.role,
            set_semantics: self.set_semantics,
            constraint: self.constraint@,
        }
    }
}

impl Clone for Parameter {
    fn clone(&self) -> (r: Self)
        ensures
            r@ == self@,
    {
        Parameter {
            oid: self.oid.clone(),
            display_name: self.display_name.clone(),
            parameter_type: self.parameter_type,
            access: self.access,
            precision: self.precision,
            widget: self.widget,
            role: self.role,
            set_semantics: self.set_semantics,
            constraint: self.constraint.clone(),
        }
    }
}

/// The OID and the display name of a parameter.
#[derive(Debug, Clone, PartialEq, Eq)]
pub struct ParameterIdentity {
    pub oid: ParameterOid,
    pub display_name: String,
}

/// The value of a `ParameterIdentity`.
pub struct IdentityView {
    pub oid: OidView,
    pub display_name: Seq<char>,
}

impl View for ParameterIdentity {
    type V = IdentityView;

    open spec fn view(&self) -> IdentityView {
        IdentityView { oid: self.oid@, display_name: self.display_name@ }
    }
}

/// An alarm whose bit is set.
#[derive(Debug, Clone, PartialEq, Eq)]
pub struct ActiveAlarm {
    pub bit: u8,
    pub mask: u32,
    pub name: String,
    pub severity_value: u8,
}

/// The value of an `ActiveAlarm`.
pub struct ActiveAlarmView {
    pub bit: u8,
    pub mask: u32,
    pub name: Seq<char>,
    pub severity_value: u8,
}

impl View for ActiveAlarm {
    type V = ActiveAlarmView;

    open spec fn view(&self) -> ActiveAlarmView {
        ActiveAlarmView {
            bit: self.bit,
            mask: self.mask,
            name: self.name@,
            severity_value: self.severity_value,
        }
    }
}

/// The alarms of a value whose bits are set, and the bits that are set with no alarm.
#[derive(Debug, Clone, PartialEq, Eq)]
pub struct AlarmDisplay {
    pub active: Vec<ActiveAlarm>,
    pub unknown_mask: u32,
}

/// The value of an `AlarmDisplay`.
pub struct AlarmDisplayView {
    pub active: Seq<ActiveAlarmView>,
    pub unknown_mask: u32,
}

impl View for AlarmDisplay {
    type V = AlarmDisplayView;

    open spec fn view(&self) -> AlarmDisplayView {
        AlarmDisplayView { active: views(self.active@), unknown_mask: self.unknown_mask }
    }
}

/// How a value is shown.
#[derive(Debug, Clone, PartialEq)]
pub enum DisplayValue {
    Label { value: String },
    Aliases { values: Vec<String> },
    Alarms { value: AlarmDisplay },
    Numeric { value: Float64, formatted: String },
}

/// The value of a `DisplayValue`.
pub enum DisplayView {
    Label { value: Seq<char> },
    Aliases { values: Seq<Seq<char>> },
    Alarms { value: AlarmDisplayView },
    Numeric { value: Float64, formatted: Seq<char> },
}

impl View for DisplayValue {
    type V = DisplayView;

    open spec fn view(&self) -> DisplayView {
        match *self {
            DisplayValue::Label { value } => DisplayView::Label { value: value@ },
            DisplayValue::Aliases { values } => DisplayView::Aliases { values: views(values@) },
            DisplayValue::Alarms { value } => DisplayView::Alarms { value: value@ },
            DisplayValue::Numeric { value, formatted } => DisplayView::Numeric {
                value,
                formatted: formatted@,
            },
        }
    }
}

/// A number on the display scale of a parameter, and its text.
#[derive(Debug, Clone, PartialEq)]
pub struct DisplayNumber {
    pub value: Float64,
    pub formatted: String,
}

/// The value of a `DisplayNumber`.
pub struct DisplayNumberView {
    pub value: Float64,
    pub formatted: Seq<char>,
}

impl View for DisplayNumber {
    type V = DisplayNumberView;

    open spec fn view(&self) -> DisplayNumberView {
        DisplayNumberView { value: self.value, formatted: self.formatted@ }
    }
}

/// A value with the ends of its range and of its display scale: what its place on the display
/// scale, `display_minimum + (value - minimum) * (display_maximum - display_minimum) / (maximum -
/// minimum)`, is computed from, and how many decimals show it.
#[derive(Debug)]
pub struct DisplayMapping<'a> {
    pub value: &'a ParameterValue,
    pub minimum: &'a ParameterValue,
    pub maximum: &'a ParameterValue,
    pub display_minimum: &'a ParameterValue,
    pub display_maximum: &'a ParameterValue,
    pub decimals: u8,
}

/// The value of a `DisplayMapping`.
pub struct MappingView {
    pub value: ValueView,
    pub minimum: ValueView,
    pub maximum: ValueView,
    pub display_minimum: ValueView,
    pub display_maximum: ValueView,
    pub decimals: u8,
}

impl<'a> View for DisplayMapping<'a> {
    type V = MappingView;

    open spec fn view(&self) -> MappingView {
        MappingView {
            value: self.value@,
            minimum: self.minimum@,
            maximum: self.maximum@,
            display_minimum: self.display_minimum@,
            display_maximum: self.display_maximum@,
            decimals: self.decimals,
        }
    }
}

/// The constraint itself, or the one that an external object holds.
pub open spec fn resolved(constraint: ConstraintView) -> ConstraintView {
    match constraint {
        ConstraintView::External { resolved, .. } => *resolved,
        _ => constraint,
    }
}

/// The labels of the choices that have the value, each once, in the order of the choices.
pub open spec fn labels_of(choices: Seq<ChoiceView>, value: ValueView) -> Seq<Seq<char>>
    decreases choices.len(),
{
    if choices.len() == 0 {
        seq![]
    } else {
        let labels = labels_of(choices.drop_last(), value);
        let last = choices.last();
        if same_value(last.value, value) && !labels.contains(last.display_name) {
            labels.push(last.display_name)
        } else {
            labels
        }
    }
}

/// The number whose one bit is `bit`.
pub open spec fn bit_mask(bit: u8) -> u32 {
    1u32 << (bit as u32)
}

/// The alarms whose bits are set, in the order of the table.
pub open spec fn active_alarms(bits: u32, alarms: Seq<AlarmView>) -> Seq<ActiveAlarmView>
    decreases alarms.len(),
{
    if alarms.len() == 0 {
        seq![]
    } else {
        let active = active_alarms(bits, alarms.drop_last());
        let last = alarms.last();
        if bits & bit_mask(last.bit) != 0 {
            active.push(
                ActiveAlarmView {
                    bit: last.bit,
                    mask: bit_mask(last.bit),
                    name: last.name,
                    severity_value: last.severity_value,
                },
            )
        } else {
            active
        }
    }
}

/// The bits that are left when the bit of each alarm is cleared.
pub open spec fn unknown_bits(bits: u32, alarms: Seq<AlarmView>) -> u32
    decreases alarms.len(),
{
    if alarms.len() == 0 {
        bits
    } else {
        unknown_bits(bits, alarms.drop_last()) & !bit_mask(alarms.last().bit)
    }
}

/// The bits of an integer value, in two's complement.
pub open spec fn value_bits(value: ValueView) -> Option<u32> {
    match value {
        ValueView::Int16 { value } => Some((value as int % 0x1_0000) as u32),
        ValueView::Int32 { value } => Some((value as int % 0x1_0000_0000) as u32),
        _ => None,
    }
}

/// What the place of a value on the display scale is computed from. There is such a place where
/// the parameter has a range with a display scale, all the values are numbers and the ends of the
/// range differ.
pub open spec fn mapping_of(parameter: ParameterView, value: ValueView) -> Option<MappingView> {
    match resolved(parameter.constraint) {
        ConstraintView::Range {
            minimum,
            maximum,
            display_minimum: Some(display_minimum),
            display_maximum: Some(display_maximum),
            ..
        } => match (value_number(minimum), value_number(maximum)) {
            (Some(low), Some(high)) => if value_number(value) is Some && value_number(
                display_minimum,
            ) is Some && value_number(display_maximum) is Some && !same_number(high, low) {
                Some(
                    MappingView {
                        value,
                        minimum,
                        maximum,
                        display_minimum,
                        display_maximum,
                        decimals: match parameter.precision {
                            Some(precision) => precision,
                            None => 0,
                        },
                    },
                )
            } else {
                None
            },
            _ => None,
        },
        _ => None,
    }
}

/// How a value of a parameter is shown, where it is shown in another way than as it is. `number`
/// is its place on the display scale.
pub open spec fn interpreted(
    parameter: ParameterView,
    value: ValueView,
    number: Option<DisplayNumberView>,
) -> Option<DisplayView> {
    match resolved(parameter.constraint) {
        ConstraintView::Choice { choices } => {
            let labels = labels_of(choices, value);
            if labels.len() == 0 {
                None
            } else if labels.len() == 1 {
                Some(DisplayView::Label { value: labels[0] })
            } else {
                Some(DisplayView::Aliases { values: labels })
            }
        },
        ConstraintView::StringChoice { choices, .. } => match value {
            ValueView::String { value } => if choices.contains(value) {
                Some(DisplayView::Label { value })
            } else {
                None
            },
            _ => None,
        },
        ConstraintView::AlarmTable { alarms } => match value_bits(value) {
            Some(bits) => Some(
                DisplayView::Alarms {
                    value: AlarmDisplayView {
                        active: active_alarms(bits, alarms),
                        unknown_mask: unknown_bits(bits, alarms),
                    },
                },
            ),
            None => None,
        },
        _ => match (mapping_of(parameter, value), number) {
            (Some(_), Some(number)) => Some(
                DisplayView::Numeric { value: number.value, formatted: number.formatted },
            ),
            _ => None,
        },
    }
}

/// Whether every alarm of a table has a bit of a 32-bit number.
pub open spec fn alarms_fit(constraint: ConstraintView) -> bool {
    match constraint {
        ConstraintView::AlarmTable { alarms } => forall|i: int|
            0 <= i < alarms.len() ==> (#[trigger] alarms[i]).bit < 32,
        _ => true,
    }
}

impl Parameter {
    pub fn identity(&self) -> (r: ParameterIdentity)
        ensures
            r@ == (IdentityView { oid: self@.oid, display_name: self@.display_name }),
    {
        ParameterIdentity { oid: self.oid.clone(), display_name: self.display_name.clone() }
    }

    /// Whether values of the parameter can be read and written.
    pub fn is_runtime_supported(&self) -> (r: bool)
        ensures
            r == (match self.parameter_type {
                ParameterType::Int16 => true,
                ParameterType::Int32 => true,
                ParameterType::Float32 => true,
                ParameterType::String { .. } => true,
                _ => false,
            }),
    {
        match self.parameter_type {
            ParameterType::Int16 => true,
            ParameterType::Int32 => true,
            ParameterType::Float32 => true,
            ParameterType::String { .. } => true,
            _ => false,
        }
    }

    /// The constraint itself, or the one that an external object holds.
    pub fn resolved_constraint(&self) -> (r: &Constraint)
        ensures
            r@ == resolved(self@.constraint),
    {
        match &self.constraint {
            Constraint::External { resolved, .. } => resolved,
            constraint => constraint,
        }
    }

    /// What the place of a value on the display scale is computed from.
    pub fn display_mapping<'a>(&'a self, value: &'a ParameterValue) -> (r: Option<
        DisplayMapping<'a>,
    >)
        ensures
            option_view(r) == mapping_of(self@, value@),
    {
        if let Constraint::Range {
            minimum,
            maximum,
            display_minimum: Some(display_minimum),
            display_maximum: Some(display_maximum),
            ..
        } = self.resolved_constraint() {
            if let (Some(low), Some(high)) = (minimum.number(), maximum.number()) {
                if value.number().is_some() && display_minimum.number().is_some()
                    && display_maximum.number().is_some() && !is_same_number(high, low) {
                    return Some(
                        DisplayMapping {
                            value,
                            minimum,
                            maximum,
                            display_minimum,
                            display_maximum,
                            decimals: match self.precision {
                                Some(precision) => precision,
                                None => 0,
                            },
                        },
                    );
                }
            }
        }
        None
    }

    /// How a value is shown, where it is shown in another way than as it is. `number` is its
    /// place on the display scale, computed from `display_mapping`.
    pub fn interpret(&self, value: &ParameterValue, number: Option<DisplayNumber>) -> (r: Option<
        DisplayValue,
    >)
        requires
            value_bits(value@) is Some ==> alarms_fit(resolved(self@.constraint)),
        ensures
            option_view(r) == interpreted(self@, value@, option_view(number)),
    {
        match self.resolved_constraint() {
            Constraint::Choice { choices } => {
                let mut labels = choice_labels(choices, value);
                if labels.len() == 0 {
                    None
                } else if labels.len() == 1 {
                    Some(DisplayValue::Label { value: labels.pop().unwrap() })
                } else {
                    Some(DisplayValue::Aliases { values: labels })
                }
            },
            Constraint::StringChoice { choices, .. } => match value {
                ParameterValue::String { value } => if contains_text(choices, value) {
                    Some(DisplayValue::Label { value: value.clone() })
                } else {
                    None
                },
                _ => None,
            },
            Constraint::AlarmTable { alarms } => match value.integer_bits() {
                Some(bits) => Some(DisplayValue::Alarms { value: decode_alarms(bits, alarms) }),
                None => None,
            },
            _ => match (self.display_mapping(value), number) {
                (Some(_), Some(number)) => Some(
                    DisplayValue::Numeric { value: number.value, formatted: number.formatted },
                ),
                _ => None,
            },
        }
    }
}

fn choice_labels(choices: &Vec<Choice>, value: &ParameterValue) -> (labels: Vec<String>)
    ensures
        views(labels@) == labels_of(views(choices@), value@),
{
    let mut labels: Vec<String> = Vec::new();
    let mut i: usize = 0;
    assert(views(labels@) =~= seq![]);
    while i < choices.len()
        invariant
            i <= choices@.len(),
            views(labels@) == labels_of(views(choices@).take(i as int), value@),
        decreases choices@.len() - i,
    {
        let ghost all = views(choices@);
        let ghost before = labels@;
        assert(all.take(i + 1).drop_last() =~= all.take(i as int));
        if choices[i].value.same(value) && !contains_text(&labels, &choices[i].display_name) {
            labels.push(choices[i].display_name.clone());
            assert(views(labels@) =~= views(before).push(all[i as int].display_name));
        }
        i += 1;
    }
    assert(views(choices@).take(i as int) =~= views(choices@));
    labels
}

fn decode_alarms(bits: u32, alarms: &Vec<AlarmDefinition>) -> (r: AlarmDisplay)
    requires
        forall|i: int| 0 <= i < alarms@.len() ==> (#[trigger] views(alarms@)[i]).bit < 32,
    ensures
        r@ == (AlarmDisplayView {
            active: active_alarms(bits, views(alarms@)),
            unknown_mask: unknown_bits(bits, views(alarms@)),
        }),
{
    let mut active: Vec<ActiveAlarm> = Vec::new();
    let mut unknown: u32 = bits;
    let mut i: usize = 0;
    assert(views(active@) =~= seq![]);
    while i < alarms.len()
        invariant
            i <= alarms@.len(),
            forall|k: int| 0 <= k < alarms@.len() ==> (#[trigger] views(alarms@)[k]).bit < 32,
            views(active@) == active_alarms(bits, views(alarms@).take(i as int)),
            unknown == unknown_bits(bits, views(alarms@).take(i as int)),
        decreases alarms@.len() - i,
    {
        let ghost all = views(alarms@);
        let ghost before = active@;
        assert(all.take(i + 1).drop_last() =~= all.take(i as int));
        assert(all[i as int].bit < 32);
        let alarm = &alarms[i];
        let mask: u32 = 1u32 << (alarm.bit as u32);
        if bits & mask != 0 {
            active.push(
                ActiveAlarm {
                    bit: alarm.bit,
                    mask,
                    name: alarm.name.clone(),
                    severity_value: alarm.severity_value,
                },
            );
            assert(views(active@) =~= views(before).push(active@.last()@));
        }
        unknown = unknown & !mask;
        i += 1;
    }
    assert(views(alarms@).take(i as int) =~= views(alarms@));
    AlarmDisplay { active, unknown_mask: unknown }
}

} // verus!
