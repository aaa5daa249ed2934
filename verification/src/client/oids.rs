//! The OIDs of a device or a menu, asked for page by page.

use super::error::{answered, unusable, ClientError, ClientErrorView};
use super::exchange::{Ask, AskView, Correlation, CorrelationView, ATTEMPTS};
use crate::bytes::{be16_bytes, be32_bytes};
use crate::model::{parsed_oid, OidView, ParameterOid};
use crate::protocol::frame::Frame;
use crate::protocol::request::{
    menu_string_oid_page_request, numeric_oid_page_request, request_of, string_oid_page_request,
    GET_MENU_STRING_OIDS, GET_PARAM_OIDS, GET_STRING_OIDS,
};
use crate::protocol::response::{
    parsed_menu_string_page, parsed_numeric_page, parsed_string_page, MenuStringOidPage,
    NumericOidPage, StringOidPage,
};
use crate::views::{option_view, result_view, views};
use vstd::prelude::*;
use vstd::string::*;

verus! {

/// How many OIDs a page holds at most.
pub const OID_PAGE_SIZE: usize = 128;

/// How many OIDs are asked for next: all that are missing, or as many as a page holds.
pub open spec fn page_size(count: nat, found: nat) -> nat {
    if count - found < OID_PAGE_SIZE {
        (count - found) as nat
    } else {
        OID_PAGE_SIZE as nat
    }
}

/// Whether a page is the one that was asked for: it starts where it should and holds at least
/// one OID and no more than were asked for.
pub open spec fn page_fits(count: nat, found: nat, first: nat, length: nat) -> bool {
    first == found && 0 < length <= page_size(count, found)
}

/// Numbers as OIDs.
pub fn numeric_oids(oids: &Vec<u16>) -> (r: Vec<ParameterOid>)
    ensures
        views(r@) == oids@.map_values(|oid: u16| OidView::Numeric(oid)),
{
    let mut r: Vec<ParameterOid> = Vec::new();
    let mut i: usize = 0;
    let ghost all = oids@.map_values(|oid: u16| OidView::Numeric(oid));
    while i < oids.len()
        invariant
            i <= oids@.len(),
            all == oids@.map_values(|oid: u16| OidView::Numeric(oid)),
            views(r@) =~= all.take(i as int),
        decreases oids@.len() - i,
    {
        let ghost before = r@;
        r.push(ParameterOid::Numeric(oids[i]));
        assert(views(r@) =~= views(before).push(all[i as int]));
        i += 1;
    }
    assert(views(r@) =~= all);
    r
}

/// The numeric OIDs of a device, as far as they are known.
#[derive(Debug)]
pub struct NumericOids {
    count: u16,
    found: Vec<u16>,
}

/// The value of a `NumericOids`.
pub struct NumericOidsView {
    pub count: nat,
    pub found: Seq<u16>,
}

impl View for NumericOids {
    type V = NumericOidsView;

    closed spec fn view(&self) -> NumericOidsView {
        NumericOidsView { count: self.count as nat, found: self.found@ }
    }
}

/// The request for the page after those that were found; none where all were.
pub open spec fn numeric_ask(oids: NumericOidsView, address: u8) -> Option<AskView> {
    let first = oids.found.len();
    if first >= oids.count {
        None
    } else {
        Some(
            AskView {
                request: request_of(
                    address,
                    GET_PARAM_OIDS,
                    seq![0u8] + be16_bytes(first as u16) + seq![page_size(oids.count, first) as u8],
                ),
                attempts: ATTEMPTS,
                correlation: CorrelationView::NumericPage(first as u16),
            },
        )
    }
}

/// The OIDs with those of a page.
pub open spec fn numeric_reply(oids: NumericOidsView, content: Seq<u8>) -> Result<
    NumericOidsView,
    ClientErrorView,
> {
    match answered(parsed_numeric_page(content)) {
        Err(error) => Err(error),
        Ok(page) => if page_fits(
            oids.count,
            oids.found.len(),
            page.first as nat,
            page.oids.len(),
        ) {
            Ok(NumericOidsView { count: oids.count, found: oids.found + page.oids })
        } else {
            unusable("device returned an invalid numeric OID page"@)
        },
    }
}

impl NumericOids {
    #[verifier::type_invariant]
    spec fn within_count(self) -> bool {
        self.found@.len() <= self.count
    }

    pub fn new(count: u16) -> (r: Self)
        ensures
            r@ == (NumericOidsView { count: count as nat, found: seq![] }),
    {
        let r = NumericOids { count, found: Vec::new() };
        assert(r@.found =~= seq![]);
        r
    }

    /// The next request; none where all OIDs are known.
    pub fn ask(&self, address: u8) -> (r: Option<Ask>)
        ensures
            option_view(r) == numeric_ask(self@, address),
            self@.found.len() <= self@.count <= 0xFFFF,
    {
        proof {
            use_type_invariant(self);
        }
        let first: usize = self.found.len();
        if first >= self.count as usize {
            return None;
        }
        let missing: usize = self.count as usize - first;
        let requested: u8 = if missing < OID_PAGE_SIZE {
            missing as u8
        } else {
            OID_PAGE_SIZE as u8
        };
        Some(
            Ask {
                request: numeric_oid_page_request(address, first as u16, requested),
                attempts: ATTEMPTS,
                correlation: Correlation::NumericPage(first as u16),
            },
        )
    }

    /// Takes a page.
    pub fn reply(self, frame: &Frame) -> (r: Result<Self, ClientError>)
        ensures
            result_view(r) == numeric_reply(self@, frame@.content),
    {
        proof {
            use_type_invariant(&self);
        }
        let mut page = match NumericOidPage::parse(frame) {
            Ok(page) => page,
            Err(error) => return Err(ClientError::from_protocol(error)),
        };
        let first: usize = self.found.len();
        let missing: usize = self.count as usize - first;
        if page.first as usize != first || page.oids.len() == 0 || page.oids.len() > missing
            || page.oids.len() > OID_PAGE_SIZE {
            return Err(
                ClientError::InvalidDiscovery("device returned an invalid numeric OID page"),
            );
        }
        let mut found: Vec<u16> = Vec::new();
        let count: u16 = self.count;
        let mut oids = self.found;
        found.append(&mut oids);
        found.append(&mut page.oids);
        Ok(NumericOids { count, found })
    }

    /// Whether all OIDs are known.
    pub fn is_complete(&self) -> (r: bool)
        ensures
            r == (self@.found.len() >= self@.count),
    {
        self.found.len() >= self.count as usize
    }

    /// The OIDs that were found.
    pub fn into_oids(self) -> (r: Vec<ParameterOid>)
        ensures
            views(r@) == self@.found.map_values(|oid: u16| OidView::Numeric(oid)),
    {
        numeric_oids(&self.found)
    }
}

/// The string OIDs that texts name. Each must name one: `invalid` is said of one that names none,
/// `numeric` of one that names a numeric OID.
pub open spec fn string_oids_of(
    texts: Seq<Seq<char>>,
    invalid: Seq<char>,
    numeric: Seq<char>,
) -> Result<Seq<OidView>, ClientErrorView>
    decreases texts.len(),
{
    if texts.len() == 0 {
        Ok(seq![])
    } else {
        match string_oids_of(texts.drop_last(), invalid, numeric) {
            Err(error) => Err(error),
            Ok(oids) => match parsed_oid(texts.last()) {
                Err(_) => unusable(invalid),
                Ok(OidView::Numeric(_)) => unusable(numeric),
                Ok(oid) => Ok(oids.push(oid)),
            },
        }
    }
}

proof fn lemma_string_oids_stop(
    texts: Seq<Seq<char>>,
    count: int,
    invalid: Seq<char>,
    numeric: Seq<char>,
)
    requires
        0 <= count <= texts.len(),
        string_oids_of(texts.take(count), invalid, numeric) is Err,
    ensures
        string_oids_of(texts, invalid, numeric) == string_oids_of(
            texts.take(count),
            invalid,
            numeric,
        ),
    decreases texts.len() - count,
{
    if count < texts.len() {
        assert(texts.take(count + 1).drop_last() =~= texts.take(count));
        lemma_string_oids_stop(texts, count + 1, invalid, numeric);
    } else {
        assert(texts.take(count) =~= texts);
    }
}

/// Appends the string OIDs that texts name.
fn push_string_oids(
    oids: Vec<ParameterOid>,
    texts: &Vec<String>,
    invalid: &'static str,
    numeric: &'static str,
) -> (r: Result<Vec<ParameterOid>, ClientError>)
    ensures
        match r {
            Ok(list) => match string_oids_of(views(texts@), invalid@, numeric@) {
                Ok(more) => views(list@) == views(oids@) + more && list@.len() == oids@.len()
                    + texts@.len(),
                Err(_) => false,
            },
            Err(error) => string_oids_of(views(texts@), invalid@, numeric@) == Err::<
                Seq<OidView>,
                _,
            >(error@),
        },
{
    let mut list = oids;
    let mut i: usize = 0;
    let ghost all = views(texts@);
    let ghost start = views(oids@);
    assert(all.take(0) =~= seq![]);
    assert(views(list@) =~= start + Seq::<OidView>::empty());
    while i < texts.len()
        invariant
            i <= texts@.len(),
            all == views(texts@),
            list@.len() == oids@.len() + i,
            string_oids_of(all.take(i as int), invalid@, numeric@) is Ok,
            views(list@) == start + string_oids_of(all.take(i as int), invalid@, numeric@)->Ok_0,
        decreases texts@.len() - i,
    {
        let ghost before = list@;
        let ghost found = string_oids_of(all.take(i as int), invalid@, numeric@)->Ok_0;
        proof {
            assert(all.take(i + 1).drop_last() =~= all.take(i as int));
            assert(all.take(i + 1).last() == texts@[i as int]@);
        }
        match ParameterOid::from_str(&texts[i]) {
            Ok(ParameterOid::String(oid)) => {
                let oid = ParameterOid::String(oid);
                let ghost view = oid@;
                list.push(oid);
                assert(views(list@) =~= views(before).push(view));
                assert(views(list@) =~= start + found.push(view));
            },
            Ok(ParameterOid::Numeric(_)) => {
                proof {
                    lemma_string_oids_stop(all, i + 1, invalid@, numeric@);
                }
                return Err(ClientError::InvalidDiscovery(numeric));
            },
            Err(_) => {
                proof {
                    lemma_string_oids_stop(all, i + 1, invalid@, numeric@);
                }
                return Err(ClientError::InvalidDiscovery(invalid));
            },
        }
        i += 1;
    }
    assert(all.take(i as int) =~= all);
    Ok(list)
}

/// The string OIDs of a device, as far as they are known.
#[derive(Debug)]
pub struct StringOids {
    count: u32,
    found: Vec<ParameterOid>,
}

/// The value of a `StringOids`.
pub struct StringOidsView {
    pub count: nat,
    pub found: Seq<OidView>,
}

impl View for StringOids {
    type V = StringOidsView;

    closed spec fn view(&self) -> StringOidsView {
        StringOidsView { count: self.count as nat, found: views(self.found@) }
    }
}

/// The request for the page after those that were found; none where all were.
pub open spec fn string_ask(oids: StringOidsView, address: u8) -> Option<AskView> {
    let first = oids.found.len();
    if first >= oids.count {
        None
    } else {
        Some(
            AskView {
                request: request_of(
                    address,
                    GET_STRING_OIDS,
                    seq![0u8] + be32_bytes(first as u32) + be16_bytes(
                        page_size(oids.count, first) as u16,
                    ),
                ),
                attempts: ATTEMPTS,
                correlation: CorrelationView::StringPage(first as u32),
            },
        )
    }
}

/// The OIDs with those of a page.
pub open spec fn string_reply(oids: StringOidsView, content: Seq<u8>) -> Result<
    StringOidsView,
    ClientErrorView,
> {
    match answered(parsed_string_page(content)) {
        Err(error) => Err(error),
        Ok(page) => if page_fits(
            oids.count,
            oids.found.len(),
            page.first as nat,
            page.oids.len(),
        ) {
            match string_oids_of(
                page.oids,
                "device returned an invalid string OID"@,
                "device returned a numeric value in its string OID table"@,
            ) {
                Err(error) => Err(error),
                Ok(more) => Ok(StringOidsView { count: oids.count, found: oids.found + more }),
            }
        } else {
            unusable("device returned an invalid string OID page"@)
        },
    }
}

impl StringOids {
    #[verifier::type_invariant]
    spec fn within_count(self) -> bool {
        self.found@.len() <= self.count
    }

    pub fn new(count: u32) -> (r: Self)
        ensures
            r@ == (StringOidsView { count: count as nat, found: seq![] }),
    {
        let r = StringOids { count, found: Vec::new() };
        assert(r@.found =~= seq![]);
        r
    }

    /// The next request; none where all OIDs are known.
    pub fn ask(&self, address: u8) -> (r: Option<Ask>)
        ensures
            option_view(r) == string_ask(self@, address),
            self@.found.len() <= self@.count <= 0xFFFF_FFFF,
    {
        proof {
            use_type_invariant(self);
        }
        let first: u32 = self.found.len() as u32;
        if first >= self.count {
            return None;
        }
        let missing: u32 = self.count - first;
        let requested: u16 = if missing < OID_PAGE_SIZE as u32 {
            missing as u16
        } else {
            OID_PAGE_SIZE as u16
        };
        Some(
            Ask {
                request: string_oid_page_request(address, first, requested),
                attempts: ATTEMPTS,
                correlation: Correlation::StringPage(first),
            },
        )
    }

    /// Takes a page.
    pub fn reply(self, frame: &Frame) -> (r: Result<Self, ClientError>)
        ensures
            result_view(r) == string_reply(self@, frame@.content),
    {
        proof {
            use_type_invariant(&self);
        }
        let page = match StringOidPage::parse(frame) {
            Ok(page) => page,
            Err(error) => return Err(ClientError::from_protocol(error)),
        };
        let count: u32 = self.count;
        let first: u32 = self.found.len() as u32;
        let missing: u32 = count - first;
        if page.first != first || page.oids.len() == 0 || page.oids.len() > missing as usize
            || page.oids.len() > OID_PAGE_SIZE {
            return Err(
                ClientError::InvalidDiscovery("device returned an invalid string OID page"),
            );
        }
        match push_string_oids(
            self.found,
            &page.oids,
            "device returned an invalid string OID",
            "device returned a numeric value in its string OID table",
        ) {
            Ok(found) => Ok(StringOids { count, found }),
            Err(error) => Err(error),
        }
    }

    /// Whether all OIDs are known.
    pub fn is_complete(&self) -> (r: bool)
        ensures
            r == (self@.found.len() >= self@.count),
    {
        self.found.len() >= self.count as usize
    }

    /// The OIDs that were found.
    pub fn into_oids(self) -> (r: Vec<ParameterOid>)
        ensures
            views(r@) == self@.found,
    {
        self.found
    }
}

/// The string OIDs of a menu, as far as they are known.
#[derive(Debug)]
pub struct MenuStringOids {
    group: u8,
    menu: u8,
    count: u16,
    found: Vec<ParameterOid>,
}

/// The value of a `MenuStringOids`.
pub struct MenuStringOidsView {
    pub group: u8,
    pub menu: u8,
    pub count: nat,
    pub found: Seq<OidView>,
}

impl View for MenuStringOids {
    type V = MenuStringOidsView;

    closed spec fn view(&self) -> MenuStringOidsView {
        MenuStringOidsView {
            group: self.group,
            menu: self.menu,
            count: self.count as nat,
            found: views(self.found@),
        }
    }
}

/// The request for the page after those that were found; none where all were.
pub open spec fn menu_string_ask(oids: MenuStringOidsView, address: u8) -> Option<AskView> {
    let first = oids.found.len();
    if first >= oids.count {
        None
    } else {
        Some(
            AskView {
                request: request_of(
                    address,
                    GET_MENU_STRING_OIDS,
                    seq![0u8, oids.group, oids.menu] + be16_bytes(first as u16) + be16_bytes(
                        page_size(oids.count, first) as u16,
                    ),
                ),
                attempts: ATTEMPTS,
                correlation: CorrelationView::MenuStringPage {
                    group: oids.group,
                    menu: oids.menu,
                    first: first as u16,
                },
            },
        )
    }
}

/// The OIDs with those of a page.
pub open spec fn menu_string_reply(oids: MenuStringOidsView, content: Seq<u8>) -> Result<
    MenuStringOidsView,
    ClientErrorView,
> {
    match answered(parsed_menu_string_page(content)) {
        Err(error) => Err(error),
        Ok(page) => if page.group == oids.group && page.menu == oids.menu && page_fits(
            oids.count,
            oids.found.len(),
            page.first as nat,
            page.oids.len(),
        ) {
            match string_oids_of(
                page.oids,
                "device returned an invalid menu string OID"@,
                "device returned a numeric OID in a string menu"@,
            ) {
                Err(error) => Err(error),
                Ok(more) => Ok(MenuStringOidsView { found: oids.found + more, ..oids }),
            }
        } else {
            unusable("menu string OID page does not match its request"@)
        },
    }
}

impl MenuStringOids {
    #[verifier::type_invariant]
    spec fn within_count(self) -> bool {
        self.found@.len() <= self.count
    }

    pub fn new(group: u8, menu: u8, count: u16) -> (r: Self)
        ensures
            r@ == (MenuStringOidsView { group, menu, count: count as nat, found: seq![] }),
    {
        let r = MenuStringOids { group, menu, count, found: Vec::new() };
        assert(r@.found =~= seq![]);
        r
    }

    /// The next request; none where all OIDs are known.
    pub fn ask(&self, address: u8) -> (r: Option<Ask>)
        ensures
            option_view(r) == menu_string_ask(self@, address),
            self@.found.len() <= self@.count <= 0xFFFF,
    {
        proof {
            use_type_invariant(self);
        }
        let first: u16 = self.found.len() as u16;
        if first >= self.count {
            return None;
        }
        let missing: u16 = self.count - first;
        let requested: u16 = if missing < OID_PAGE_SIZE as u16 {
            missing
        } else {
            OID_PAGE_SIZE as u16
        };
        Some(
            Ask {
                request: menu_string_oid_page_request(
                    address,
                    self.group,
                    self.menu,
                    first,
                    requested,
                ),
                attempts: ATTEMPTS,
                correlation: Correlation::MenuStringPage {
                    group: self.group,
                    menu: self.menu,
                    first,
                },
            },
        )
    }

    /// Takes a page.
    pub fn reply(self, frame: &Frame) -> (r: Result<Self, ClientError>)
        ensures
            result_view(r) == menu_string_reply(self@, frame@.content),
    {
        proof {
            use_type_invariant(&self);
        }
        let page = match MenuStringOidPage::parse(frame) {
            Ok(page) => page,
            Err(error) => return Err(ClientError::from_protocol(error)),
        };
        let group: u8 = self.group;
        let menu: u8 = self.menu;
        let count: u16 = self.count;
        let first: u16 = self.found.len() as u16;
        let missing: u16 = count - first;
        if page.group != group || page.menu != menu || page.first != first || page.oids.len() == 0
            || page.oids.len() > missing as usize || page.oids.len() > OID_PAGE_SIZE {
            return Err(
                ClientError::InvalidDiscovery("menu string OID page does not match its request"),
            );
        }
        match push_string_oids(
            self.found,
            &page.oids,
            "device returned an invalid menu string OID",
            "device returned a numeric OID in a string menu",
        ) {
            Ok(found) => Ok(MenuStringOids { group, menu, count, found }),
            Err(error) => Err(error),
        }
    }

    /// Whether all OIDs are known.
    pub fn is_complete(&self) -> (r: bool)
        ensures
            r == (self@.found.len() >= self@.count),
    {
        self.found.len() >= self.count as usize
    }

    /// The OIDs that were found.
    pub fn into_oids(self) -> (r: Vec<ParameterOid>)
        ensures
            views(r@) == self@.found,
    {
        self.found
    }
}

} // verus!
