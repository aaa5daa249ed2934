//! How each response is laid out, and that it is read as it was written.

use super::descriptor::{
    numeric_descriptor, parsed_descriptor, string_descriptor, DescriptorView,
};
use super::error::ProtocolErrorView;
use super::items::{
    counted_bytes, counted_list, countable, law_counted_strings_are_their_bytes,
    law_counted_strings_round_trip, law_nul_string_is_its_bytes, law_nul_string_round_trip,
    law_numbers16_are_their_bytes, law_numbers16_round_trip, lemma_counted_place, list16,
    nul_bytes, nul_string,
};
use super::request::{set_request_of, CONNECTION_OID};
use super::response::{
    layout_at, optional16, parsed_counts, parsed_fragment, parsed_group_name, parsed_handshake,
    parsed_menu, parsed_menu_count, parsed_menu_oids, parsed_menu_string_page, parsed_numeric_page,
    parsed_string_page, parsed_value, FragmentView, HandshakeResponse, MenuCount,
    MenuDescriptionView, MenuGroupNameView, MenuNumericOidsView, MenuStringOidPageView,
    NumericOidPageView, ParameterCounts, ParameterResponseView, StringOidPageView,
};
use crate::bytes::{be16, be16_bytes, be32, be32_bytes, law_be16_round_trip, law_be32_round_trip};
use crate::model::OidView;
use vstd::prelude::*;
use vstd::utf8::*;

verus! {

/// Counts with a URL.
pub open spec fn counts_bytes(counts: ParameterCounts, url: Seq<u8>) -> Seq<u8> {
    seq![0u8] + be16_bytes(counts.numeric) + seq![url.len() as u8] + url + be32_bytes(counts.string)
}

/// Counts are read as they were written, whatever URL stands between them.
pub proof fn law_counts_round_trip(counts: ParameterCounts, url: Seq<u8>)
    requires
        url.len() <= 255,
    ensures
        parsed_counts(counts_bytes(counts, url)) == Ok::<_, ProtocolErrorView>(counts),
{
    let content = counts_bytes(counts, url);
    let before = seq![0u8] + be16_bytes(counts.numeric) + seq![url.len() as u8] + url;
    assert(content =~= before + be32_bytes(counts.string) + seq![]);
    law_be32_round_trip(counts.string, before, seq![]);
    assert(content[1] == counts.numeric / 0x100 && content[2] == counts.numeric % 0x100);
    assert(content[3] == url.len());
}

/// A count of numeric OIDs alone is read as it was written.
pub proof fn law_short_counts_round_trip(numeric: u16)
    ensures
        parsed_counts(seq![0u8] + be16_bytes(numeric)) == Ok::<_, ProtocolErrorView>(
            ParameterCounts { numeric, string: 0 },
        ),
{
    let content = seq![0u8] + be16_bytes(numeric);
    assert(content[1] == numeric / 0x100 && content[2] == numeric % 0x100);
}

/// The name of a menu group; `unused` is passed over.
pub open spec fn group_name_bytes(group: MenuGroupNameView, unused: u8) -> Seq<u8> {
    seq![0u8, group.group, unused] + counted_bytes(group.name)
}

/// The name of a menu group is read as it was written.
pub proof fn law_group_name_round_trip(group: MenuGroupNameView, unused: u8)
    requires
        countable(group.name),
    ensures
        parsed_group_name(group_name_bytes(group, unused)) == Ok::<_, ProtocolErrorView>(group),
{
    let content = group_name_bytes(group, unused);
    let start = seq![0u8, group.group, unused];
    let body = nul_bytes(group.name);
    lemma_counted_place(start, body, seq![]);
    assert(content =~= start + (seq![body.len() as u8] + body) + seq![]);
    assert(content.skip(4) =~= content.subrange(4, 4 + body.len() as int));
    law_nul_string_round_trip(group.name, "menu group name"@);
}

/// A count of menus is read as it was written.
pub proof fn law_menu_count_round_trip(count: MenuCount)
    ensures
        parsed_menu_count(seq![0u8, count.group, count.count]) == Ok::<_, ProtocolErrorView>(count),
{
}

/// What follows the name of a menu: nothing, the identifier, or the identifier, the layout URL,
/// for which a zero stands where there is none, and the count of string OIDs where there is one.
pub open spec fn menu_tail(menu: MenuDescriptionView) -> Seq<u8> {
    match menu.stable_id {
        None => seq![],
        Some(id) => be16_bytes(id) + if menu.layout_url is None && menu.string_oid_count is None {
            seq![]
        } else {
            (match menu.layout_url {
                Some(url) => counted_bytes(url),
                None => seq![0u8],
            }) + match menu.string_oid_count {
                Some(count) => be16_bytes(count),
                None => seq![],
            }
        },
    }
}

/// A menu.
pub open spec fn menu_bytes(menu: MenuDescriptionView) -> Seq<u8> {
    seq![0u8, menu.group, menu.menu] + counted_bytes(menu.name) + menu_tail(menu)
}

/// A menu is read as it was written. A layout URL or a count of string OIDs only ever follows an
/// identifier.
pub proof fn law_menu_round_trip(menu: MenuDescriptionView)
    requires
        countable(menu.name),
        menu.layout_url matches Some(url) ==> countable(url),
        menu.stable_id is None ==> menu.layout_url is None && menu.string_oid_count is None,
    ensures
        parsed_menu(menu_bytes(menu)) == Ok::<_, ProtocolErrorView>(menu),
{
    let body = nul_bytes(menu.name);
    let front = seq![0u8, menu.group, menu.menu] + (seq![body.len() as u8] + body);
    if let Some(id) = menu.stable_id {
        let counted = match menu.string_oid_count {
            Some(count) => be16_bytes(count),
            None => seq![],
        };
        if menu.layout_url is None && menu.string_oid_count is None {
            lemma_menu_start(menu, id, seq![]);
        } else if let Some(url) = menu.layout_url {
            lemma_menu_start(menu, id, counted_bytes(url) + counted);
            lemma_menu_layout(front + be16_bytes(id), url, counted);
        } else {
            lemma_menu_start(menu, id, seq![0u8] + counted);
            lemma_menu_end(front + be16_bytes(id) + seq![0u8], counted);
        }
    } else {
        lemma_counted_place(seq![0u8, menu.group, menu.menu], body, seq![]);
        law_nul_string_round_trip(menu.name, "menu name"@);
        assert(menu_bytes(menu) =~= front + seq![]);
    }
}

proof fn lemma_menu_start(menu: MenuDescriptionView, id: u16, rest: Seq<u8>)
    requires
        countable(menu.name),
        menu_tail(menu) == be16_bytes(id) + rest,
    ensures
        ({
            let content = menu_bytes(menu);
            let body = nul_bytes(menu.name);
            let front = seq![0u8, menu.group, menu.menu] + (seq![body.len() as u8] + body);
            let end = 4 + body.len() as int;
            &&& content == front + be16_bytes(id) + rest
            &&& content.len() == end + 2 + rest.len()
            &&& content[0] == 0 && content[1] == menu.group && content[2] == menu.menu
            &&& content[3] == body.len()
            &&& nul_string(content.subrange(4, end), "menu name"@) == Ok::<_, ProtocolErrorView>(
                menu.name,
            )
            &&& optional16(content, end) == Some(id)
        }),
{
    let body = nul_bytes(menu.name);
    let start = seq![0u8, menu.group, menu.menu];
    let front = start + (seq![body.len() as u8] + body);
    lemma_counted_place(start, body, be16_bytes(id) + rest);
    law_nul_string_round_trip(menu.name, "menu name"@);
    assert(menu_bytes(menu) =~= front + be16_bytes(id) + rest);
    law_be16_round_trip(id, front, rest);
}

proof fn lemma_menu_end(before: Seq<u8>, counted: Seq<u8>)
    ensures
        before.len() > 0 ==> (before + counted)[before.len() - 1] == before.last(),
        forall|count: u16|
            counted == be16_bytes(count) ==> optional16(before + counted, before.len() as int) == Some(
                count,
            ),
        counted.len() == 0 ==> optional16(before + counted, before.len() as int) is None,
{
    assert forall|count: u16| counted == be16_bytes(count) implies optional16(
        before + counted,
        before.len() as int,
    ) == Some(count) by {
        assert(before + counted =~= before + be16_bytes(count) + seq![]);
        law_be16_round_trip(count, before, seq![]);
    }
}

proof fn lemma_menu_layout(before: Seq<u8>, url: Seq<char>, counted: Seq<u8>)
    requires
        countable(url),
        counted.len() == 0 || exists|count: u16| counted == be16_bytes(count),
    ensures
        ({
            let content = before + (counted_bytes(url) + counted);
            let at = before.len() as int;
            let tail = at + 1 + content[at];
            &&& content[at] == nul_bytes(url).len()
            &&& content.len() == tail + counted.len()
            &&& layout_at(content, at) == Ok::<_, ProtocolErrorView>(Some(url))
            &&& forall|count: u16|
                counted == be16_bytes(count) ==> optional16(content, tail) == Some(count)
            &&& counted.len() == 0 ==> optional16(content, tail) is None
        }),
{
    let text = nul_bytes(url);
    let content = before + (counted_bytes(url) + counted);
    lemma_counted_place(before, text, counted);
    law_nul_string_round_trip(url, "menu layout URL"@);
    let head = before + (seq![text.len() as u8] + text);
    assert(content =~= head + counted);
    lemma_menu_end(head, counted);
}

/// A menu without a layout URL and a count of string OIDs is read with a zero behind it as well.
pub proof fn law_menu_with_zero_round_trip(menu: MenuDescriptionView)
    requires
        countable(menu.name),
        menu.layout_url is None,
        menu.string_oid_count is None,
    ensures
        parsed_menu(menu_bytes(menu).push(0)) == Ok::<_, ProtocolErrorView>(menu),
{
    let body = nul_bytes(menu.name);
    let start = seq![0u8, menu.group, menu.menu];
    let front = start + (seq![body.len() as u8] + body);
    let content = menu_bytes(menu).push(0);
    law_nul_string_round_trip(menu.name, "menu name"@);
    let end = 4 + body.len() as int;
    if let Some(id) = menu.stable_id {
        lemma_counted_place(start, body, be16_bytes(id) + seq![0u8]);
        assert(content =~= front + be16_bytes(id) + seq![0u8]);
        assert(front + be16_bytes(id) + seq![0u8] =~= front + (be16_bytes(id) + seq![0u8]));
        law_be16_round_trip(id, front, seq![0u8]);
        assert(content[end + 2] == 0);
    } else {
        lemma_counted_place(start, body, seq![0u8]);
        assert(content =~= front + seq![0u8]);
        assert(content[end] == 0);
    }
}

/// A menu that is read is that of a response, and nothing else is accepted but a zero behind it
/// where it has neither a layout URL nor a count of string OIDs.
pub proof fn law_menu_is_its_bytes(content: Seq<u8>)
    requires
        parsed_menu(content) is Ok,
    ensures
        ({
            let menu = parsed_menu(content)->Ok_0;
            content == menu_bytes(menu) || (menu.layout_url is None && menu.string_oid_count is None
                && content == menu_bytes(menu).push(0))
        }),
{
    let menu = parsed_menu(content)->Ok_0;
    let end = 4 + content[3] as int;
    let body = content.subrange(4, end);
    law_nul_string_is_its_bytes(body, "menu name"@);
    assert(content.take(end) =~= seq![0u8, menu.group, menu.menu] + counted_bytes(menu.name));
    assert(content =~= content.take(end) + content.skip(end));
    lemma_menu_tail_bytes(content, menu, end);
    let tail = menu_tail(menu);
    if content.skip(end) == tail.push(0) {
        assert(content =~= menu_bytes(menu).push(0));
    }
}

proof fn lemma_menu_tail_bytes(content: Seq<u8>, menu: MenuDescriptionView, end: int)
    requires
        parsed_menu(content) == Ok::<_, ProtocolErrorView>(menu),
        end == 4 + content[3],
    ensures
        content.skip(end) == menu_tail(menu) || (menu.layout_url is None && menu.string_oid_count is None
            && content.skip(end) == menu_tail(menu).push(0)),
{
    let rest = content.skip(end);
    if menu.stable_id is None {
        if content.len() == end {
            assert(rest =~= menu_tail(menu));
        } else {
            assert(content[end] == 0);
            assert(rest =~= menu_tail(menu).push(0));
        }
    } else {
        lemma_be16_bytes(content, end);
        let id = be16_bytes(menu.stable_id->0);
        let layout = end + 2;
        if content.len() == layout {
            assert(rest =~= id + Seq::<u8>::empty());
        } else {
            let tail = layout + 1 + content[layout];
            let counted = match menu.string_oid_count {
                Some(count) => be16_bytes(count),
                None => seq![],
            };
            lemma_be16_bytes(content, tail);
            assert(content.skip(tail) =~= counted);
            if content[layout] == 0 {
                assert(rest =~= id + (seq![0u8] + counted));
                if menu.string_oid_count is None {
                    assert(rest =~= menu_tail(menu).push(0));
                }
            } else {
                let url = content.subrange(layout + 1, tail);
                law_nul_string_is_its_bytes(url, "menu layout URL"@);
                assert(seq![content[layout]] + url =~= counted_bytes(menu.layout_url->0));
                assert(rest =~= id + (seq![content[layout]] + url + counted));
            }
        }
    }
}

/// The numeric OIDs of a menu.
pub open spec fn menu_oids_bytes(oids: MenuNumericOidsView) -> Seq<u8> {
    seq![0u8, oids.group, oids.menu, oids.oids.len() as u8] + list16(oids.oids)
}

/// The numeric OIDs of a menu are read as they were written.
pub proof fn law_menu_oids_round_trip(oids: MenuNumericOidsView)
    requires
        oids.oids.len() <= 128,
    ensures
        parsed_menu_oids(menu_oids_bytes(oids)) == Ok::<_, ProtocolErrorView>(oids),
{
    let start = seq![0u8, oids.group, oids.menu, oids.oids.len() as u8];
    law_numbers16_round_trip(start, oids.oids, seq![]);
    assert(menu_oids_bytes(oids) =~= start + list16(oids.oids) + seq![]);
}

/// Some of the string OIDs of a menu.
pub open spec fn menu_string_page_bytes(page: MenuStringOidPageView) -> Seq<u8> {
    seq![0u8, page.group, page.menu] + be16_bytes(page.first) + be16_bytes(page.oids.len() as u16)
        + counted_list(page.oids)
}

/// The string OIDs of a menu are read as they were written.
pub proof fn law_menu_string_page_round_trip(page: MenuStringOidPageView)
    requires
        page.oids.len() <= 128,
        forall|i: int| 0 <= i < page.oids.len() ==> countable(#[trigger] page.oids[i]),
    ensures
        parsed_menu_string_page(menu_string_page_bytes(page)) == Ok::<_, ProtocolErrorView>(page),
{
    let content = menu_string_page_bytes(page);
    let start = seq![0u8, page.group, page.menu] + be16_bytes(page.first) + be16_bytes(
        page.oids.len() as u16,
    );
    law_counted_strings_round_trip(start, page.oids, seq![], "menu string OID"@);
    assert(content =~= start + counted_list(page.oids) + seq![]);
    assert(content[3] == page.first / 0x100 && content[4] == page.first % 0x100);
    assert(content[5] == 0 && content[6] == page.oids.len());
}

/// Some of the numeric OIDs of a device.
pub open spec fn numeric_page_bytes(page: NumericOidPageView) -> Seq<u8> {
    seq![0u8] + be16_bytes(page.first) + seq![page.oids.len() as u8] + list16(page.oids)
}

/// The numeric OIDs of a device are read as they were written.
pub proof fn law_numeric_page_round_trip(page: NumericOidPageView)
    requires
        page.oids.len() <= 128,
    ensures
        parsed_numeric_page(numeric_page_bytes(page)) == Ok::<_, ProtocolErrorView>(page),
{
    let content = numeric_page_bytes(page);
    let start = seq![0u8] + be16_bytes(page.first) + seq![page.oids.len() as u8];
    law_numbers16_round_trip(start, page.oids, seq![]);
    assert(content =~= start + list16(page.oids) + seq![]);
    assert(content[1] == page.first / 0x100 && content[2] == page.first % 0x100);
}

/// Some of the string OIDs of a device.
pub open spec fn string_page_bytes(page: StringOidPageView) -> Seq<u8> {
    seq![0u8] + be32_bytes(page.first) + be16_bytes(page.oids.len() as u16) + counted_list(
        page.oids,
    )
}

/// The string OIDs of a device are read as they were written.
pub proof fn law_string_page_round_trip(page: StringOidPageView)
    requires
        page.oids.len() <= 128,
        forall|i: int| 0 <= i < page.oids.len() ==> countable(#[trigger] page.oids[i]),
    ensures
        parsed_string_page(string_page_bytes(page)) == Ok::<_, ProtocolErrorView>(page),
{
    let content = string_page_bytes(page);
    let start = seq![0u8] + be32_bytes(page.first) + be16_bytes(page.oids.len() as u16);
    law_counted_strings_round_trip(start, page.oids, seq![], "string OID"@);
    assert(content =~= start + counted_list(page.oids) + seq![]);
    let rest = be16_bytes(page.oids.len() as u16) + counted_list(page.oids);
    assert(content =~= seq![0u8] + be32_bytes(page.first) + rest);
    law_be32_round_trip(page.first, seq![0u8], rest);
    assert(content[5] == 0 && content[6] == page.oids.len());
}

/// The numeric OIDs of a device that are read are those of a page, and nothing else is accepted.
pub proof fn law_numeric_page_is_its_bytes(content: Seq<u8>)
    requires
        parsed_numeric_page(content) is Ok,
    ensures
        content == numeric_page_bytes(parsed_numeric_page(content)->Ok_0),
{
    let page = parsed_numeric_page(content)->Ok_0;
    law_numbers16_are_their_bytes(content, 4, content[3] as nat);
    assert(content =~= seq![content[0], content[1], content[2], content[3]] + content.subrange(
        4,
        content.len() as int,
    ));
    assert(content =~= numeric_page_bytes(page));
}

/// The numeric OIDs of a menu that are read are those of a response, and nothing else is accepted.
pub proof fn law_menu_oids_are_their_bytes(content: Seq<u8>)
    requires
        parsed_menu_oids(content) is Ok,
    ensures
        content == menu_oids_bytes(parsed_menu_oids(content)->Ok_0),
{
    let oids = parsed_menu_oids(content)->Ok_0;
    law_numbers16_are_their_bytes(content, 4, content[3] as nat);
    assert(content =~= seq![content[0], content[1], content[2], content[3]] + content.subrange(
        4,
        content.len() as int,
    ));
    assert(content =~= menu_oids_bytes(oids));
}

/// The string OIDs of a device that are read are those of a page, and nothing else is accepted.
pub proof fn law_string_page_is_its_bytes(content: Seq<u8>)
    requires
        parsed_string_page(content) is Ok,
    ensures
        content == string_page_bytes(parsed_string_page(content)->Ok_0),
{
    let page = parsed_string_page(content)->Ok_0;
    let count = be16(content, 5);
    law_counted_strings_are_their_bytes(content, 7, count as nat, "string OID"@);
    let head = content.take(7);
    assert(content =~= head + content.subrange(7, content.len() as int));
    lemma_page_head(head, page.first, count);
    assert(be32(head, 1) == be32(content, 1) && be16(head, 5) == be16(content, 5));
}

proof fn lemma_page_head(head: Seq<u8>, first: u32, count: u16)
    requires
        head.len() == 7,
        head[0] == 0,
        first == be32(head, 1),
        count == be16(head, 5),
    ensures
        head == seq![0u8] + be32_bytes(first) + be16_bytes(count),
{
    lemma_be32_bytes(head, 1);
    lemma_be16_bytes(head, 5);
    assert(head =~= seq![0u8] + be32_bytes(first) + be16_bytes(count));
}

pub(crate) proof fn lemma_be16_bytes(data: Seq<u8>, at: int)
    ensures
        be16_bytes(be16(data, at)) == seq![data[at], data[at + 1]],
{
    let n = be16(data, at);
    assert(n / 0x100 == data[at] && n % 0x100 == data[at + 1]);
    assert(be16_bytes(n) =~= seq![data[at], data[at + 1]]);
}

proof fn lemma_digits_of_256(a: int, b: int, c: int, d: int)
    requires
        0 <= a < 0x100,
        0 <= b < 0x100,
        0 <= c < 0x100,
        0 <= d < 0x100,
    ensures
        ({
            let n = a * 0x100_0000 + b * 0x1_0000 + c * 0x100 + d;
            &&& n / 0x100_0000 == a
            &&& n / 0x1_0000 % 0x100 == b
            &&& n / 0x100 % 0x100 == c
            &&& n % 0x100 == d
        }),
{
    let n = a * 0x100_0000 + b * 0x1_0000 + c * 0x100 + d;
    assert(n / 0x100 == a * 0x1_0000 + b * 0x100 + c);
    assert(n / 0x1_0000 == a * 0x100 + b);
}

pub(crate) proof fn lemma_be32_bytes(data: Seq<u8>, at: int)
    ensures
        be32_bytes(be32(data, at)) == seq![data[at], data[at + 1], data[at + 2], data[at + 3]],
{
    lemma_digits_of_256(
        data[at] as int,
        data[at + 1] as int,
        data[at + 2] as int,
        data[at + 3] as int,
    );
    assert(be32_bytes(be32(data, at)) =~= seq![
        data[at],
        data[at + 1],
        data[at + 2],
        data[at + 3],
    ]);
}

/// The string OIDs of a menu that are read are those of a page, and nothing else is accepted.
pub proof fn law_menu_string_page_is_its_bytes(content: Seq<u8>)
    requires
        parsed_menu_string_page(content) is Ok,
    ensures
        content == menu_string_page_bytes(parsed_menu_string_page(content)->Ok_0),
{
    let page = parsed_menu_string_page(content)->Ok_0;
    let count = be16(content, 5);
    law_counted_strings_are_their_bytes(content, 7, count as nat, "menu string OID"@);
    let head = content.take(7);
    assert(content =~= head + content.subrange(7, content.len() as int));
    lemma_be16_bytes(content, 3);
    lemma_be16_bytes(content, 5);
    assert(head =~= seq![0u8, page.group, page.menu] + be16_bytes(page.first) + be16_bytes(count));
}

/// The name of a menu group that is read is that of a response, and nothing else is accepted.
pub proof fn law_group_name_is_its_bytes(content: Seq<u8>)
    requires
        parsed_group_name(content) is Ok,
    ensures
        content == group_name_bytes(parsed_group_name(content)->Ok_0, content[2]),
{
    let group = parsed_group_name(content)->Ok_0;
    law_nul_string_is_its_bytes(content.skip(4), "menu group name"@);
    let body = nul_bytes(group.name);
    assert(content =~= seq![content[0], content[1], content[2]] + (seq![content[3]]
        + content.skip(4)));
}

/// A fragment of an external object.
pub open spec fn fragment_bytes(fragment: FragmentView) -> Seq<u8> {
    seq![0u8] + be16_bytes(fragment.oid) + be16_bytes(fragment.fragment) + be16_bytes(fragment.next)
        + seq![fragment.data.len() as u8] + fragment.data
}

/// A fragment of an external object is read as it was written.
pub proof fn law_fragment_round_trip(fragment: FragmentView)
    requires
        fragment.data.len() <= 255,
    ensures
        parsed_fragment(fragment_bytes(fragment)) == Ok::<_, ProtocolErrorView>(fragment),
{
    let content = fragment_bytes(fragment);
    assert(content.skip(8) =~= fragment.data);
    assert(content[1] == fragment.oid / 0x100 && content[2] == fragment.oid % 0x100);
    assert(content[3] == fragment.fragment / 0x100 && content[4] == fragment.fragment % 0x100);
    assert(content[5] == fragment.next / 0x100 && content[6] == fragment.next % 0x100);
}

/// A fragment that is read is that of a response, and nothing else is accepted.
pub proof fn law_fragment_is_its_bytes(content: Seq<u8>)
    requires
        parsed_fragment(content) is Ok,
    ensures
        content == fragment_bytes(parsed_fragment(content)->Ok_0),
{
    let fragment = parsed_fragment(content)->Ok_0;
    lemma_be16_bytes(content, 1);
    lemma_be16_bytes(content, 3);
    lemma_be16_bytes(content, 5);
    assert(content =~= content.take(8) + content.skip(8));
    assert(content.take(8) =~= seq![0u8] + be16_bytes(fragment.oid) + be16_bytes(fragment.fragment)
        + be16_bytes(fragment.next) + seq![fragment.data.len() as u8]);
}

/// A value that is sent to a parameter comes back as it was where the device answers with the
/// content of the request.
pub proof fn law_echoed_value_round_trip(destination: u8, oid: OidView, value: Seq<u8>)
    requires
        set_request_of(destination, oid, value) is Ok,
    ensures
        parsed_value(set_request_of(destination, oid, value)->Ok_0.content, oid) == Ok::<
            _,
            ProtocolErrorView,
        >(ParameterResponseView { oid, value }),
{
    let content = set_request_of(destination, oid, value)->Ok_0.content;
    match oid {
        OidView::Numeric(number) => {
            assert(content.skip(4) =~= value);
            assert(content[1] == number / 0x100 && content[2] == number % 0x100);
        },
        OidView::String(text) => {
            let bytes = encode_utf8(text);
            let body = nul_bytes(text);
            let length = if value.len() > 255 {
                0u8
            } else {
                value.len() as u8
            };
            let rest = seq![length] + value;
            lemma_counted_place(seq![0u8], body, rest);
            assert(content =~= seq![0u8] + (seq![body.len() as u8] + body) + rest);
            law_nul_string_round_trip(text, "string OID"@);
            let end = 2 + body.len() as int;
            assert(content[end] == length);
            assert(content.skip(end + 1) =~= value);
        },
    }
}

/// What a frame controller answers: the 16-bit numbers as the value of the connection parameter.
pub open spec fn handshake_bytes(value: Seq<u8>) -> Seq<u8> {
    seq![0u8] + be16_bytes(CONNECTION_OID) + seq![value.len() as u8] + value
}

/// The answer of a frame controller is read as it was written.
pub proof fn law_handshake_round_trip(allowed: bool, urm_state: u16, reason: u16)
    ensures
        ({
            let answer = be16_bytes(
                if allowed {
                    1
                } else {
                    0
                },
            );
            let with_state = answer + be16_bytes(urm_state);
            let with_reason = with_state + be16_bytes(reason);
            &&& parsed_handshake(handshake_bytes(answer)) == Ok::<_, ProtocolErrorView>(
                HandshakeResponse { allowed, urm_state: None, refusal_reason: None },
            )
            &&& parsed_handshake(handshake_bytes(with_state)) == Ok::<_, ProtocolErrorView>(
                HandshakeResponse { allowed, urm_state: Some(urm_state), refusal_reason: None },
            )
            &&& parsed_handshake(handshake_bytes(with_reason)) == Ok::<_, ProtocolErrorView>(
                HandshakeResponse {
                    allowed,
                    urm_state: Some(urm_state),
                    refusal_reason: Some(reason),
                },
            )
        }),
{
    let answer = be16_bytes(
        if allowed {
            1
        } else {
            0
        },
    );
    let with_state = answer + be16_bytes(urm_state);
    let with_reason = with_state + be16_bytes(reason);
    lemma_handshake_value(answer);
    lemma_handshake_value(with_state);
    lemma_handshake_value(with_reason);
}

proof fn lemma_handshake_value(value: Seq<u8>)
    requires
        value.len() <= 255,
    ensures
        parsed_value(handshake_bytes(value), OidView::Numeric(CONNECTION_OID)) == Ok::<
            _,
            ProtocolErrorView,
        >(ParameterResponseView { oid: OidView::Numeric(CONNECTION_OID), value }),
{
    let content = handshake_bytes(value);
    assert(content.skip(4) =~= value);
}

/// The six bytes of a descriptor that stand before the name.
pub open spec fn descriptor_head(descriptor: DescriptorView) -> Seq<u8> {
    seq![
        descriptor.version,
        descriptor.type_id,
        descriptor.size,
        descriptor.access,
        descriptor.precision,
        descriptor.widget,
    ]
}

/// A descriptor of a numeric or a string OID.
pub open spec fn descriptor_bytes(descriptor: DescriptorView) -> Seq<u8> {
    let head = descriptor_head(descriptor);
    let data = descriptor.constraint_data;
    match descriptor.oid {
        OidView::Numeric(oid) => {
            let body = head + counted_bytes(descriptor.display_name) + seq![
                descriptor.constraint_type,
                data.len() as u8,
            ] + data;
            seq![0u8] + be16_bytes(oid) + seq![body.len() as u8] + body
        },
        OidView::String(oid) => seq![0u8] + counted_bytes(oid) + head + counted_bytes(
            descriptor.display_name,
        ) + seq![descriptor.constraint_type] + be16_bytes(data.len() as u16) + data,
    }
}

/// Whether the lengths of a descriptor can be written.
pub open spec fn describable(descriptor: DescriptorView) -> bool {
    let data = descriptor.constraint_data;
    &&& countable(descriptor.display_name)
    &&& match descriptor.oid {
        OidView::Numeric(_) => counted_bytes(descriptor.display_name).len() + data.len() + 8 <= 255,
        OidView::String(oid) => countable(oid) && data.len() <= 0xFFFF,
    }
}

/// A descriptor of a known version is read as it was written.
pub proof fn law_descriptor_round_trip(descriptor: DescriptorView)
    requires
        describable(descriptor),
        descriptor.version <= 2,
    ensures
        parsed_descriptor(descriptor_bytes(descriptor), descriptor.oid) == Ok::<
            _,
            ProtocolErrorView,
        >(descriptor),
{
    match descriptor.oid {
        OidView::Numeric(oid) => lemma_numeric_descriptor(descriptor, oid),
        OidView::String(oid) => lemma_string_descriptor(descriptor, oid),
    }
}

proof fn lemma_numeric_descriptor(descriptor: DescriptorView, oid: u16)
    requires
        describable(descriptor),
        descriptor.oid == OidView::Numeric(oid),
    ensures
        descriptor_bytes(descriptor)[0] == 0,
        numeric_descriptor(descriptor_bytes(descriptor)) == Ok::<_, ProtocolErrorView>(descriptor),
{
    let content = descriptor_bytes(descriptor);
    let head = descriptor_head(descriptor);
    let data = descriptor.constraint_data;
    let name = nul_bytes(descriptor.display_name);
    law_nul_string_round_trip(descriptor.display_name, "parameter name"@);
    let length = (head.len() + 1 + name.len() + 2 + data.len()) as u8;
    let start = seq![0u8] + be16_bytes(oid) + seq![length] + head;
    let rest = seq![descriptor.constraint_type, data.len() as u8] + data;
    lemma_counted_place(start, name, rest);
    assert(content =~= start + (seq![name.len() as u8] + name) + rest);
    assert(content[1] == oid / 0x100 && content[2] == oid % 0x100);
    assert(content[4] == head[0] && content[5] == head[1] && content[6] == head[2] && content[7]
        == head[3] && content[8] == head[4] && content[9] == head[5]);
    let end = 11 + name.len() as int;
    assert(content[end] == rest[0] && content[end + 1] == rest[1]);
    assert(content.skip(end + 2) =~= data);
}

proof fn lemma_string_descriptor(descriptor: DescriptorView, oid: Seq<char>)
    requires
        describable(descriptor),
        descriptor.oid == OidView::String(oid),
    ensures
        descriptor_bytes(descriptor)[0] == 0,
        string_descriptor(descriptor_bytes(descriptor)) == Ok::<_, ProtocolErrorView>(descriptor),
{
    let head = descriptor_head(descriptor);
    let name = nul_bytes(descriptor.display_name);
    let text = nul_bytes(oid);
    law_nul_string_round_trip(descriptor.display_name, "parameter name"@);
    law_nul_string_round_trip(oid, "string OID"@);
    lemma_string_descriptor_place(
        text,
        head,
        name,
        descriptor.constraint_type,
        descriptor.constraint_data,
    );
}

proof fn lemma_string_descriptor_place(
    text: Seq<u8>,
    head: Seq<u8>,
    name: Seq<u8>,
    constraint_type: u8,
    data: Seq<u8>,
)
    requires
        text.len() <= 255,
        head.len() == 6,
        name.len() <= 255,
        data.len() <= 0xFFFF,
    ensures
        ({
            let content = seq![0u8] + (seq![text.len() as u8] + text) + head + (seq![
                name.len() as u8,
            ] + name) + seq![constraint_type] + be16_bytes(data.len() as u16) + data;
            let start = 2 + text.len() as int;
            let end = start + 7 + name.len() as int;
            &&& content.len() == end + 3 + data.len()
            &&& content[0] == 0 && content[1] == text.len()
            &&& content.subrange(2, start) == text
            &&& content[start] == head[0] && content[start + 1] == head[1]
            &&& content[start + 2] == head[2] && content[start + 3] == head[3]
            &&& content[start + 4] == head[4] && content[start + 5] == head[5]
            &&& content[start + 6] == name.len()
            &&& content.subrange(start + 7, end) == name
            &&& content[end] == constraint_type
            &&& be16(content, end + 1) == data.len()
            &&& content.skip(end + 3) == data
        }),
{
    let content = seq![0u8] + (seq![text.len() as u8] + text) + head + (seq![name.len() as u8]
        + name) + seq![constraint_type] + be16_bytes(data.len() as u16) + data;
    let start = 2 + text.len() as int;
    let end = start + 7 + name.len() as int;
    assert(content.subrange(2, start) =~= text);
    assert(content.subrange(start + 7, end) =~= name);
    assert(content[end + 1] == data.len() / 0x100 && content[end + 2] == data.len() % 0x100);
    assert(content.skip(end + 3) =~= data);
}

/// A descriptor that is read is that of a response, and nothing else is accepted.
pub proof fn law_descriptor_is_its_bytes(content: Seq<u8>, oid: OidView)
    requires
        parsed_descriptor(content, oid) is Ok,
    ensures
        content == descriptor_bytes(parsed_descriptor(content, oid)->Ok_0),
        describable(parsed_descriptor(content, oid)->Ok_0),
{
    match oid {
        OidView::Numeric(_) => lemma_numeric_descriptor_bytes(content),
        OidView::String(_) => lemma_string_descriptor_bytes(content),
    }
}

proof fn lemma_numeric_descriptor_bytes(content: Seq<u8>)
    requires
        content.len() > 0,
        content[0] == 0,
        numeric_descriptor(content) is Ok,
    ensures
        content == descriptor_bytes(numeric_descriptor(content)->Ok_0),
        describable(numeric_descriptor(content)->Ok_0),
{
    let descriptor = numeric_descriptor(content)->Ok_0;
    let end = 11 + content[10] as int;
    let name = content.subrange(11, end);
    let data = content.skip(end + 2);
    law_nul_string_is_its_bytes(name, "parameter name"@);
    lemma_be16_bytes(content, 1);
    let counted = seq![content[10]] + name;
    assert(counted_bytes(descriptor.display_name) =~= counted);
    let body = descriptor_head(descriptor) + counted + seq![content[end], content[end + 1]] + data;
    assert(content.skip(4) =~= body);
    assert(content =~= seq![content[0], content[1], content[2], content[3]] + content.skip(4));
    assert(content =~= seq![0u8] + seq![content[1], content[2]] + seq![content[3]] + body);
}

proof fn lemma_string_descriptor_bytes(content: Seq<u8>)
    requires
        content.len() > 0,
        content[0] == 0,
        string_descriptor(content) is Ok,
    ensures
        content == descriptor_bytes(string_descriptor(content)->Ok_0),
        describable(string_descriptor(content)->Ok_0),
{
    let descriptor = string_descriptor(content)->Ok_0;
    let start = 2 + content[1] as int;
    let end = start + 7 + content[start + 6] as int;
    let text = content.subrange(2, start);
    let name = content.subrange(start + 7, end);
    let data = content.skip(end + 3);
    law_nul_string_is_its_bytes(text, "string OID"@);
    law_nul_string_is_its_bytes(name, "parameter name"@);
    lemma_be16_bytes(content, end + 1);
    let oid = descriptor.oid->String_0;
    let first = seq![content[1]] + text;
    let second = seq![content[start + 6]] + name;
    assert(counted_bytes(oid) =~= first);
    assert(counted_bytes(descriptor.display_name) =~= second);
    let head = descriptor_head(descriptor);
    let tail = seq![content[end]] + seq![content[end + 1], content[end + 2]] + data;
    assert(content.skip(end) =~= tail);
    assert(content.subrange(start + 6, end) =~= second);
    assert(content.subrange(start, start + 6) =~= head);
    assert(content.subrange(1, start) =~= first);
    assert(content =~= seq![0u8] + content.subrange(1, start) + content.subrange(start, start + 6)
        + content.subrange(start + 6, end) + content.skip(end));
    assert(content =~= seq![0u8] + first + head + second + seq![content[end]] + seq![
        content[end + 1],
        content[end + 2],
    ] + data);
}

} // verus!
