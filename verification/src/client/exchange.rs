//! One request and its answer, over a connection that also carries reports and late answers.

use super::error::{ClientError, ClientErrorView};
use crate::bytes::{be16, be32, read16, read32};
use crate::model::{OidView, ParameterOid};
use crate::protocol::frame::{Frame, FrameView};
use crate::protocol::request::{CLIENT_ADDRESS, REPORT_PARAM, REPORT_STRING, RESPONSE_BIT};
use crate::views::option_view;
use vstd::prelude::*;
use vstd::string::*;
use vstd::utf8::*;

verus! {

/// How often a request is sent before the device is given up.
pub const ATTEMPTS: usize = 3;

/// How often a request is sent that sets off an action: sending it again might repeat the action.
pub const TRIGGER_SET_ATTEMPTS: usize = 1;

/// A slot of a frame: 1 to 20.
#[derive(Debug, Clone, Copy, PartialEq, Eq)]
pub struct Slot(u8);

impl View for Slot {
    type V = u8;

    closed spec fn view(&self) -> u8 {
        self.0
    }
}

/// The slot that was asked for does not exist.
#[derive(Debug, Clone, Copy, PartialEq, Eq)]
pub struct InvalidSlot(pub u8);

impl View for InvalidSlot {
    type V = u8;

    open spec fn view(&self) -> u8 {
        self.0
    }
}

/// The address of a slot.
pub open spec fn slot_address(slot: u8) -> u8 {
    (0x10 + slot) as u8
}

impl Slot {
    #[verifier::type_invariant]
    spec fn exists_in_frame(self) -> bool {
        1 <= self.0 <= 20
    }

    pub fn new(value: u8) -> (r: Result<Self, InvalidSlot>)
        ensures
            crate::views::result_view(r) == (if 1 <= value <= 20 {
                Ok(value)
            } else {
                Err(value)
            }),
    {
        if 1 <= value && value <= 20 {
            Ok(Self(value))
        } else {
            Err(InvalidSlot(value))
        }
    }

    pub fn get(self) -> (r: u8)
        ensures
            r == self@,
            1 <= r <= 20,
    {
        proof {
            use_type_invariant(self);
        }
        self.0
    }

    /// The address of the slot.
    pub fn address(self) -> (r: u8)
        ensures
            r == slot_address(self@),
            0x11 <= r <= 0x24,
    {
        proof {
            use_type_invariant(self);
        }
        0x10 + self.0
    }
}

impl InvalidSlot {
    /// What is said of the error.
    pub fn to_string(&self) -> (r: String)
        ensures
            r@ == "slot must be between 1 and 20, received "@ + crate::text::decimal(self@ as nat),
    {
        crate::text::concat(
            "slot must be between 1 and 20, received ",
            &crate::text::decimal_text(self.0 as u64),
        )
    }
}

/// What tells the answer to a request from the answers to others.
#[derive(Debug)]
pub enum Correlation {
    Any,
    Parameter(ParameterOid),
    NumericPage(u16),
    StringPage(u32),
    ExternalObject { oid: u16, fragment: u16 },
    MenuGroup(u8),
    Menu(u8, u8),
    MenuStringPage { group: u8, menu: u8, first: u16 },
}

/// The value of a `Correlation`.
pub enum CorrelationView {
    Any,
    Parameter(OidView),
    NumericPage(u16),
    StringPage(u32),
    ExternalObject { oid: u16, fragment: u16 },
    MenuGroup(u8),
    Menu(u8, u8),
    MenuStringPage { group: u8, menu: u8, first: u16 },
}

impl View for Correlation {
    type V = CorrelationView;

    open spec fn view(&self) -> CorrelationView {
        match *self {
            Correlation::Any => CorrelationView::Any,
            Correlation::Parameter(oid) => CorrelationView::Parameter(oid@),
            Correlation::NumericPage(first) => CorrelationView::NumericPage(first),
            Correlation::StringPage(first) => CorrelationView::StringPage(first),
            Correlation::ExternalObject { oid, fragment } => CorrelationView::ExternalObject {
                oid,
                fragment,
            },
            Correlation::MenuGroup(group) => CorrelationView::MenuGroup(group),
            Correlation::Menu(group, menu) => CorrelationView::Menu(group, menu),
            Correlation::MenuStringPage { group, menu, first } => CorrelationView::MenuStringPage {
                group,
                menu,
                first,
            },
        }
    }
}

/// Whether the 16-bit number at `at` is the expected one.
pub open spec fn has16(content: Seq<u8>, at: int, expected: u16) -> bool {
    content.len() >= at + 2 && be16(content, at) == expected
}

/// Whether the byte at `at` is the expected one.
pub open spec fn has8(content: Seq<u8>, at: int, expected: u8) -> bool {
    content.len() > at && content[at] == expected
}

/// Whether a text with its final NUL stands at the second byte, behind its length.
pub open spec fn has_text(content: Seq<u8>, expected: Seq<char>) -> bool {
    let bytes = encode_utf8(expected);
    &&& content.len() >= 2
    &&& content[1] == bytes.len() + 1
    &&& content.len() >= 3 + bytes.len()
    &&& content.subrange(2, 2 + bytes.len() as int) == bytes
    &&& content[2 + bytes.len() as int] == 0
}

/// Whether a response repeats what the request was about. A response about a menu that holds a
/// return code of failure need not.
pub open spec fn correlates(correlation: CorrelationView, content: Seq<u8>) -> bool {
    let failed = content.len() > 0 && content[0] != 0;
    match correlation {
        CorrelationView::Any => true,
        CorrelationView::Parameter(OidView::Numeric(oid)) => has16(content, 1, oid),
        CorrelationView::Parameter(OidView::String(oid)) => has_text(content, oid),
        CorrelationView::NumericPage(first) => has16(content, 1, first),
        CorrelationView::StringPage(first) => content.len() >= 5 && be32(content, 1) == first,
        CorrelationView::ExternalObject { oid, fragment } => has16(content, 1, oid) && has16(
            content,
            3,
            fragment,
        ),
        CorrelationView::MenuGroup(group) => failed || has8(content, 1, group),
        CorrelationView::Menu(group, menu) => failed || (has8(content, 1, group) && has8(
            content,
            2,
            menu,
        )),
        CorrelationView::MenuStringPage { group, menu, first } => failed || (has8(
            content,
            1,
            group,
        ) && has8(content, 2, menu) && has16(content, 3, first)),
    }
}

fn is16(content: &[u8], at: usize, expected: u16) -> (r: bool)
    requires
        at <= 16,
    ensures
        r == has16(content@, at as int, expected),
{
    content.len() >= at + 2 && read16(content, at) == expected
}

fn is8(content: &[u8], at: usize, expected: u8) -> (r: bool)
    ensures
        r == has8(content@, at as int, expected),
{
    content.len() > at && content[at] == expected
}

fn is_text(content: &[u8], expected: &str) -> (r: bool)
    ensures
        r == has_text(content@, expected@),
{
    let bytes = expected.as_bytes();
    if bytes.len() > 254 || content.len() < 3 + bytes.len() {
        return false;
    }
    if content[1] as usize != bytes.len() + 1 {
        return false;
    }
    let mut i: usize = 0;
    let ghost part = content@.subrange(2, 2 + bytes@.len() as int);
    while i < bytes.len()
        invariant
            i <= bytes@.len() <= 254,
            bytes@ == encode_utf8(expected@),
            content@.len() >= 3 + bytes@.len(),
            part == content@.subrange(2, 2 + bytes@.len() as int),
            forall|k: int| 0 <= k < i ==> #[trigger] part[k] == bytes@[k],
        decreases bytes@.len() - i,
    {
        if content[2 + i] != bytes[i] {
            assert(part[i as int] != bytes@[i as int]);
            return false;
        }
        assert(part[i as int] == bytes@[i as int]);
        i += 1;
    }
    assert(part =~= bytes@);
    content[2 + bytes.len()] == 0
}

impl Correlation {
    /// Whether a frame repeats what the request was about.
    pub fn matches(&self, frame: &Frame) -> (r: bool)
        ensures
            r == correlates(self@, frame@.content),
    {
        let content = frame.content.as_slice();
        let failed = content.len() > 0 && content[0] != 0;
        match self {
            Self::Any => true,
            Self::Parameter(ParameterOid::Numeric(oid)) => is16(content, 1, *oid),
            Self::Parameter(ParameterOid::String(oid)) => is_text(content, oid),
            Self::NumericPage(first) => is16(content, 1, *first),
            Self::StringPage(first) => content.len() >= 5 && read32(content, 1) == *first,
            Self::ExternalObject { oid, fragment } => is16(content, 1, *oid) && is16(
                content,
                3,
                *fragment,
            ),
            Self::MenuGroup(group) => failed || is8(content, 1, *group),
            Self::Menu(group, menu) => failed || (is8(content, 1, *group) && is8(
                content,
                2,
                *menu,
            )),
            Self::MenuStringPage { group, menu, first } => failed || (is8(content, 1, *group)
                && is8(content, 2, *menu) && is16(content, 3, *first)),
        }
    }
}

/// A request, how often it may be sent, and what its answer repeats.
#[derive(Debug)]
pub struct Ask {
    pub request: Frame,
    pub attempts: usize,
    pub correlation: Correlation,
}

/// The value of an `Ask`.
pub struct AskView {
    pub request: FrameView,
    pub attempts: usize,
    pub correlation: CorrelationView,
}

impl View for Ask {
    type V = AskView;

    open spec fn view(&self) -> AskView {
        AskView {
            request: self.request@,
            attempts: self.attempts,
            correlation: self.correlation@,
        }
    }
}

/// Whether a frame is the answer to a request: it is no report, comes from where the request
/// went, is for the client, is of the type that answers the request, and repeats what it was
/// about.
pub open spec fn is_answer(ask: AskView, frame: FrameView) -> bool {
    &&& frame.message_type != REPORT_PARAM
    &&& frame.message_type != REPORT_STRING
    &&& frame.source == ask.request.destination
    &&& frame.destination == CLIENT_ADDRESS
    &&& frame.message_type == ask.request.message_type | RESPONSE_BIT
    &&& correlates(ask.correlation, frame.content)
}

impl Ask {
    /// Whether a frame is the answer to the request.
    pub fn is_answered_by(&self, frame: &Frame) -> (r: bool)
        ensures
            r == is_answer(self@, frame@),
    {
        if frame.message_type == REPORT_PARAM || frame.message_type == REPORT_STRING {
            return false;
        }
        frame.source == self.request.destination && frame.destination == CLIENT_ADDRESS
            && frame.message_type == self.request.message_type | RESPONSE_BIT
            && self.correlation.matches(frame)
    }
}

/// An exchange under way: how often the request may still be sent, and whether it waits for an
/// answer.
#[derive(Debug)]
pub struct Exchange {
    pub ask: Ask,
    pub remaining: usize,
    pub waiting: bool,
}

/// The value of an `Exchange`.
pub struct ExchangeView {
    pub ask: AskView,
    pub remaining: nat,
    pub waiting: bool,
}

impl View for Exchange {
    type V = ExchangeView;

    open spec fn view(&self) -> ExchangeView {
        ExchangeView {
            ask: self.ask@,
            remaining: self.remaining as nat,
            waiting: self.waiting,
        }
    }
}

/// What an exchange does next.
#[derive(Debug, Clone, Copy, PartialEq, Eq, Structural)]
pub enum ExchangeAction {
    /// Send the request.
    Send,
    /// Wait for a frame, until the time for one attempt is over.
    Receive,
    /// The request was sent as often as it may be.
    GiveUp,
}

/// An exchange whose request was not sent yet.
pub open spec fn new_exchange(ask: AskView) -> ExchangeView {
    ExchangeView { ask, remaining: ask.attempts as nat, waiting: false }
}

/// What an exchange does next.
pub open spec fn due_action(exchange: ExchangeView) -> ExchangeAction {
    if exchange.waiting {
        ExchangeAction::Receive
    } else if exchange.remaining > 0 {
        ExchangeAction::Send
    } else {
        ExchangeAction::GiveUp
    }
}

/// The exchange after its request was sent.
pub open spec fn after_sent(exchange: ExchangeView) -> ExchangeView {
    ExchangeView {
        ask: exchange.ask,
        remaining: (exchange.remaining - 1) as nat,
        waiting: true,
    }
}

/// The exchange after the time for one attempt was over.
pub open spec fn after_timeout(exchange: ExchangeView) -> ExchangeView {
    ExchangeView { waiting: false, ..exchange }
}

/// The answer, where a frame that was received is it.
pub open spec fn answer_in(exchange: ExchangeView, frame: FrameView) -> Option<FrameView> {
    if is_answer(exchange.ask, frame) {
        Some(frame)
    } else {
        None
    }
}

impl Exchange {
    pub fn new(ask: Ask) -> (r: Self)
        ensures
            r@ == new_exchange(ask@),
    {
        let remaining: usize = ask.attempts;
        Exchange { ask, remaining, waiting: false }
    }

    /// What the exchange does next.
    pub fn action(&self) -> (r: ExchangeAction)
        ensures
            r == due_action(self@),
    {
        if self.waiting {
            ExchangeAction::Receive
        } else if self.remaining > 0 {
            ExchangeAction::Send
        } else {
            ExchangeAction::GiveUp
        }
    }

    /// The request was sent.
    pub fn sent(&mut self)
        requires
            !old(self)@.waiting,
            old(self)@.remaining > 0,
        ensures
            final(self)@ == after_sent(old(self)@),
    {
        self.remaining = self.remaining - 1;
        self.waiting = true;
    }

    /// A frame was received: the answer, or one that is passed over.
    pub fn received(&self, frame: Frame) -> (r: Option<Frame>)
        ensures
            option_view(r) == answer_in(self@, frame@),
    {
        if self.ask.is_answered_by(&frame) {
            Some(frame)
        } else {
            None
        }
    }

    /// The time for one attempt is over.
    pub fn timed_out(&mut self)
        ensures
            final(self)@ == after_timeout(old(self)@),
    {
        self.waiting = false;
    }

    /// What an exchange that was given up ends with.
    pub fn failure(&self) -> (r: ClientError)
        ensures
            r@ == (ClientErrorView::Timeout { phase: "request"@ }),
    {
        ClientError::Timeout { phase: "request" }
    }
}

/// What happens to an exchange: its request is sent, or the time for an attempt is over.
pub enum ExchangeEvent {
    Sent,
    TimedOut,
}

/// The exchange after what happened to it. The request is sent only where it is due.
pub open spec fn exchange_after(exchange: ExchangeView, events: Seq<ExchangeEvent>) -> Option<
    ExchangeView,
>
    decreases events.len(),
{
    if events.len() == 0 {
        Some(exchange)
    } else {
        match (exchange_after(exchange, events.drop_last()), events.last()) {
            (Some(before), ExchangeEvent::Sent) => if due_action(before) == ExchangeAction::Send {
                Some(after_sent(before))
            } else {
                None
            },
            (Some(before), ExchangeEvent::TimedOut) => Some(after_timeout(before)),
            (None, _) => None,
        }
    }
}

/// How often the request was sent.
pub open spec fn sent_count(events: Seq<ExchangeEvent>) -> nat
    decreases events.len(),
{
    if events.len() == 0 {
        0
    } else {
        sent_count(events.drop_last()) + if events.last() is Sent {
            1nat
        } else {
            0nat
        }
    }
}

/// Whatever happens, a request is sent no more often than it may be.
pub proof fn law_request_is_sent_within_its_attempts(ask: AskView, events: Seq<ExchangeEvent>)
    requires
        exchange_after(new_exchange(ask), events) is Some,
    ensures
        sent_count(events) <= ask.attempts,
        sent_count(events) + exchange_after(new_exchange(ask), events)->0.remaining
            == ask.attempts,
        exchange_after(new_exchange(ask), events)->0.ask == ask,
    decreases events.len(),
{
    if events.len() > 0 {
        law_request_is_sent_within_its_attempts(ask, events.drop_last());
    }
}

/// What happens where no answer comes in time: the request is sent and the time is over, so many
/// times.
pub open spec fn unanswered(times: nat) -> Seq<ExchangeEvent>
    decreases times,
{
    if times == 0 {
        seq![]
    } else {
        unanswered((times - 1) as nat).push(ExchangeEvent::Sent).push(ExchangeEvent::TimedOut)
    }
}

/// A request is sent, then an answer is waited for, and where none comes in time the request is
/// sent again, until it was sent as often as it may be. The exchange is given up only then.
pub proof fn law_request_is_sent_until_it_is_answered(ask: AskView, times: nat)
    requires
        times <= ask.attempts,
    ensures
        sent_count(unanswered(times)) == times,
        exchange_after(new_exchange(ask), unanswered(times)) matches Some(exchange) && exchange.ask
            == ask && exchange.remaining == ask.attempts - times && (if times < ask.attempts {
            due_action(exchange) == ExchangeAction::Send && due_action(after_sent(exchange))
                == ExchangeAction::Receive
        } else {
            due_action(exchange) == ExchangeAction::GiveUp
        }),
    decreases times,
{
    let events = unanswered(times);
    if times > 0 {
        let earlier = (times - 1) as nat;
        law_request_is_sent_until_it_is_answered(ask, earlier);
        let sent = unanswered(earlier).push(ExchangeEvent::Sent);
        assert(sent.drop_last() =~= unanswered(earlier));
        assert(events.drop_last() =~= sent);
        assert(sent_count(sent) == times);
        assert(exchange_after(new_exchange(ask), sent) is Some);
    }
}

/// A frame that is received is handed on whole where it is the answer, and passed over elsewhere.
pub proof fn law_answer_is_handed_on(exchange: ExchangeView, frame: FrameView)
    ensures
        is_answer(exchange.ask, frame) ==> answer_in(exchange, frame) == Some(frame),
        !is_answer(exchange.ask, frame) ==> answer_in(exchange, frame) is None,
{
}

} // verus!
