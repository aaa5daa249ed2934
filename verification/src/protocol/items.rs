//! Texts and lists of items inside the content of a message.

use super::error::{ProtocolError, ProtocolErrorView};
use crate::bytes::{be16, contains_byte, decode_text, law_utf8_round_trip, read16, utf8_text};
use crate::views::{result_view, views};
use vstd::prelude::*;
use vstd::utf8::*;

verus! {

/// The text that ends with the last byte, which is NUL; no other byte is.
pub open spec fn nul_string(data: Seq<u8>, field: Seq<char>) -> Result<
    Seq<char>,
    ProtocolErrorView,
> {
    if data.len() == 0 || data.last() != 0 || data.drop_last().contains(0) {
        Err(ProtocolErrorView::InvalidString(field))
    } else {
        match utf8_text(data.drop_last()) {
            Ok(text) => Ok(text),
            Err(failure) => Err(ProtocolErrorView::Utf8(failure)),
        }
    }
}

/// The text at `at`, behind a byte that holds its length with the final NUL, and where it ends.
pub open spec fn counted_string(data: Seq<u8>, at: int, field: Seq<char>) -> Result<
    (Seq<char>, int),
    ProtocolErrorView,
> {
    if at >= data.len() || at + 1 + data[at] > data.len() {
        Err(ProtocolErrorView::InvalidString(field))
    } else {
        match nul_string(data.subrange(at + 1, at + 1 + data[at]), field) {
            Ok(text) => Ok((text, at + 1 + data[at])),
            Err(error) => Err(error),
        }
    }
}

/// `count` items one behind the other from `at` on, and where they end. `item` gives the item that
/// starts at an offset, and where it ends.
pub open spec fn items<T>(
    item: spec_fn(int) -> Result<(T, int), ProtocolErrorView>,
    at: int,
    count: nat,
) -> Result<(Seq<T>, int), ProtocolErrorView>
    decreases count,
{
    if count == 0 {
        Ok((seq![], at))
    } else {
        match items(item, at, (count - 1) as nat) {
            Ok((list, end)) => match item(end) {
                Ok((value, end)) => Ok((list.push(value), end)),
                Err(error) => Err(error),
            },
            Err(error) => Err(error),
        }
    }
}

/// A list stops at its first bad item.
pub proof fn lemma_items_stop<T>(
    item: spec_fn(int) -> Result<(T, int), ProtocolErrorView>,
    at: int,
    count: nat,
    total: nat,
)
    requires
        items(item, at, count) is Err,
        count <= total,
    ensures
        items(item, at, total) == items(item, at, count),
    decreases total,
{
    if count < total {
        lemma_items_stop(item, at, count, (total - 1) as nat);
    }
}

/// The counted text at an offset, as an item of a list.
pub open spec fn string_item(data: Seq<u8>, field: Seq<char>) -> spec_fn(int) -> Result<
    (Seq<char>, int),
    ProtocolErrorView,
> {
    |at: int| counted_string(data, at, field)
}

/// `count` counted texts from `at` on, and where they end.
pub open spec fn counted_strings(data: Seq<u8>, at: int, count: nat, field: Seq<char>) -> Result<
    (Seq<Seq<char>>, int),
    ProtocolErrorView,
> {
    items(string_item(data, field), at, count)
}

/// `count` 16-bit numbers from `at` on.
pub open spec fn numbers16(data: Seq<u8>, at: int, count: nat) -> Seq<u16> {
    Seq::new(count, |i: int| be16(data, at + 2 * i))
}

/// The text that ends with the last byte.
pub fn parse_nul_string(data: &[u8], field: &'static str) -> (r: Result<String, ProtocolError>)
    ensures
        result_view(r) == nul_string(data@, field@),
{
    let length: usize = data.len();
    if length == 0 || data[length - 1] != 0 {
        return Err(ProtocolError::InvalidString(field));
    }
    let text = &data[0..length - 1];
    assert(text@ =~= data@.drop_last());
    if contains_byte(text, 0) {
        return Err(ProtocolError::InvalidString(field));
    }
    match decode_text(text) {
        Ok(text) => Ok(text),
        Err(failure) => Err(ProtocolError::Utf8(failure)),
    }
}

/// The counted text at `at`, and where it ends.
pub fn parse_counted_string(data: &[u8], at: usize, field: &'static str) -> (r: Result<
    (String, usize),
    ProtocolError,
>)
    requires
        at <= data@.len(),
    ensures
        match r {
            Ok((text, end)) => counted_string(data@, at as int, field@) == Ok::<
                _,
                ProtocolErrorView,
            >((text@, end as int)) && end <= data@.len(),
            Err(error) => counted_string(data@, at as int, field@) == Err::<(Seq<char>, int), _>(
                error@,
            ),
        },
{
    if at >= data.len() || (data[at] as usize) > data.len() - at - 1 {
        return Err(ProtocolError::InvalidString(field));
    }
    let end: usize = at + 1 + data[at] as usize;
    match parse_nul_string(&data[at + 1..end], field) {
        Ok(text) => Ok((text, end)),
        Err(error) => Err(error),
    }
}

/// `count` counted texts from `at` on, and where they end.
pub fn parse_counted_strings(
    data: &[u8],
    at: usize,
    count: usize,
    field: &'static str,
) -> (r: Result<(Vec<String>, usize), ProtocolError>)
    requires
        at <= data@.len(),
    ensures
        match r {
            Ok((list, end)) => counted_strings(data@, at as int, count as nat, field@) == Ok::<
                _,
                ProtocolErrorView,
            >((views(list@), end as int)) && end <= data@.len(),
            Err(error) => counted_strings(data@, at as int, count as nat, field@) == Err::<
                (Seq<Seq<char>>, int),
                _,
            >(error@),
        },
{
    let mut list: Vec<String> = Vec::new();
    let mut end: usize = at;
    let mut i: usize = 0;
    let ghost item = string_item(data@, field@);
    assert(views(list@) =~= seq![]);
    while i < count
        invariant
            i <= count,
            at <= end <= data@.len(),
            item == string_item(data@, field@),
            items(item, at as int, i as nat) == Ok::<_, ProtocolErrorView>(
                (views(list@), end as int),
            ),
        decreases count - i,
    {
        match parse_counted_string(data, end, field) {
            Ok((text, next)) => {
                let ghost before = list@;
                list.push(text);
                end = next;
                assert(views(list@) =~= views(before).push(text@));
            },
            Err(error) => {
                proof {
                    assert(items(item, at as int, (i + 1) as nat) == Err::<(Seq<Seq<char>>, int), _>(
                        error@,
                    ));
                    lemma_items_stop(item, at as int, (i + 1) as nat, count as nat);
                }
                return Err(error);
            },
        }
        i += 1;
    }
    Ok((list, end))
}

/// `count` 16-bit numbers from `at` on.
pub fn parse_numbers16(data: &[u8], at: usize, count: usize) -> (r: Vec<u16>)
    requires
        at + 2 * count <= data@.len(),
    ensures
        r@ == numbers16(data@, at as int, count as nat),
{
    let mut list: Vec<u16> = Vec::new();
    let mut i: usize = 0;
    let length: usize = data.len();
    while i < count
        invariant
            i <= count,
            at + 2 * count <= length,
            length == data@.len(),
            list@ =~= numbers16(data@, at as int, i as nat),
        decreases count - i,
    {
        list.push(read16(data, at + 2 * i));
        i += 1;
    }
    list
}

/// Whether a text can stand in a message behind its length: its bytes, none of which is NUL, and
/// the final NUL fit in 255.
pub open spec fn countable(text: Seq<char>) -> bool {
    !encode_utf8(text).contains(0) && encode_utf8(text).len() <= 254
}

/// A text with its final NUL.
pub open spec fn nul_bytes(text: Seq<char>) -> Seq<u8> {
    encode_utf8(text).push(0)
}

/// A text behind its length.
pub open spec fn counted_bytes(text: Seq<char>) -> Seq<u8> {
    seq![(encode_utf8(text).len() + 1) as u8] + nul_bytes(text)
}

/// Texts one behind the other, each behind its length.
pub open spec fn counted_list(texts: Seq<Seq<char>>) -> Seq<u8>
    decreases texts.len(),
{
    if texts.len() == 0 {
        seq![]
    } else {
        counted_list(texts.drop_last()) + counted_bytes(texts.last())
    }
}

/// 16-bit numbers one behind the other.
pub open spec fn list16(numbers: Seq<u16>) -> Seq<u8> {
    Seq::new(
        2 * numbers.len(),
        |i: int|
            if i % 2 == 0 {
                (numbers[i / 2] / 0x100) as u8
            } else {
                (numbers[i / 2] % 0x100) as u8
            },
    )
}

/// A text that is written with its final NUL is read as it was.
pub proof fn law_nul_string_round_trip(text: Seq<char>, field: Seq<char>)
    requires
        !encode_utf8(text).contains(0),
    ensures
        nul_string(nul_bytes(text), field) == Ok::<_, ProtocolErrorView>(text),
{
    law_utf8_round_trip(text);
    assert(nul_bytes(text).drop_last() =~= encode_utf8(text));
}

/// A text that is written behind its length is read as it was.
pub proof fn law_counted_string_round_trip(
    before: Seq<u8>,
    text: Seq<char>,
    after: Seq<u8>,
    field: Seq<char>,
)
    requires
        countable(text),
    ensures
        counted_string(before + counted_bytes(text) + after, before.len() as int, field) == Ok::<
            _,
            ProtocolErrorView,
        >((text, (before.len() + counted_bytes(text).len()) as int)),
{
    let body = nul_bytes(text);
    lemma_counted_place(before, body, after);
    law_nul_string_round_trip(text, field);
}

/// Where a body that stands behind its length is found.
pub proof fn lemma_counted_place(before: Seq<u8>, body: Seq<u8>, after: Seq<u8>)
    requires
        body.len() <= 255,
    ensures
        ({
            let data = before + (seq![body.len() as u8] + body) + after;
            let at = before.len() as int;
            &&& data.len() == before.len() + 1 + body.len() + after.len()
            &&& data[at] == body.len()
            &&& data.subrange(at + 1, at + 1 + body.len()) == body
        }),
{
    let data = before + (seq![body.len() as u8] + body) + after;
    let at = before.len() as int;
    assert(data.subrange(at + 1, at + 1 + body.len()) =~= body);
}

/// Texts that are written one behind the other are read as they were.
pub proof fn law_counted_strings_round_trip(
    before: Seq<u8>,
    texts: Seq<Seq<char>>,
    after: Seq<u8>,
    field: Seq<char>,
)
    requires
        forall|i: int| 0 <= i < texts.len() ==> countable(#[trigger] texts[i]),
    ensures
        counted_strings(
            before + counted_list(texts) + after,
            before.len() as int,
            texts.len(),
            field,
        ) == Ok::<_, ProtocolErrorView>((texts, (before.len() + counted_list(texts).len()) as int)),
    decreases texts.len(),
{
    let data = before + counted_list(texts) + after;
    if texts.len() == 0 {
        assert(texts =~= seq![]);
    } else {
        let front = texts.drop_last();
        let tail = counted_bytes(texts.last()) + after;
        assert forall|i: int| 0 <= i < front.len() implies countable(#[trigger] front[i]) by {
            assert(front[i] == texts[i]);
        }
        law_counted_strings_round_trip(before, front, tail, field);
        assert(before + counted_list(front) + tail =~= data);
        assert(countable(texts[texts.len() - 1]));
        law_counted_string_round_trip(before + counted_list(front), texts.last(), after, field);
        assert((before + counted_list(front)) + counted_bytes(texts.last()) + after =~= data);
        assert(front.push(texts.last()) =~= texts);
    }
}

/// 16-bit numbers that are written one behind the other are read as they were.
pub proof fn law_numbers16_round_trip(before: Seq<u8>, numbers: Seq<u16>, after: Seq<u8>)
    ensures
        numbers16(before + list16(numbers) + after, before.len() as int, numbers.len()) == numbers,
{
    let data = before + list16(numbers) + after;
    assert forall|i: int| 0 <= i < numbers.len() implies be16(data, before.len() + 2 * i)
        == numbers[i] by {
        assert(data[before.len() + 2 * i] == list16(numbers)[2 * i]);
        assert(data[before.len() + 2 * i + 1] == list16(numbers)[2 * i + 1]);
    }
    assert(numbers16(data, before.len() as int, numbers.len()) =~= numbers);
}

/// A text that is read was written with its final NUL and no other.
pub proof fn law_nul_string_is_its_bytes(data: Seq<u8>, field: Seq<char>)
    requires
        nul_string(data, field) is Ok,
    ensures
        data == nul_bytes(nul_string(data, field)->Ok_0),
        !encode_utf8(nul_string(data, field)->Ok_0).contains(0),
{
    decode_utf8_encode_utf8(data.drop_last());
    assert(data =~= data.drop_last().push(0));
}

/// A counted text that is read was written behind its length.
pub proof fn law_counted_string_is_its_bytes(data: Seq<u8>, at: int, field: Seq<char>)
    requires
        0 <= at,
        counted_string(data, at, field) is Ok,
    ensures
        ({
            let (text, end) = counted_string(data, at, field)->Ok_0;
            &&& countable(text)
            &&& at < end <= data.len()
            &&& data.subrange(at, end) == counted_bytes(text)
        }),
{
    let (text, end) = counted_string(data, at, field)->Ok_0;
    let body = data.subrange(at + 1, end);
    law_nul_string_is_its_bytes(body, field);
    let bytes = encode_utf8(text);
    assert(body.len() == bytes.len() + 1);
    assert(data.subrange(at, end) =~= seq![data[at]] + body);
}

/// Texts that are read were written one behind the other.
pub proof fn law_counted_strings_are_their_bytes(
    data: Seq<u8>,
    at: int,
    count: nat,
    field: Seq<char>,
)
    requires
        0 <= at <= data.len(),
        counted_strings(data, at, count, field) is Ok,
    ensures
        ({
            let (texts, end) = counted_strings(data, at, count, field)->Ok_0;
            &&& texts.len() == count
            &&& at <= end <= data.len()
            &&& data.subrange(at, end) == counted_list(texts)
            &&& forall|i: int| 0 <= i < texts.len() ==> countable(#[trigger] texts[i])
        }),
    decreases count,
{
    let (texts, end) = counted_strings(data, at, count, field)->Ok_0;
    if count == 0 {
        assert(data.subrange(at, end) =~= seq![]);
    } else {
        law_counted_strings_are_their_bytes(data, at, (count - 1) as nat, field);
        let (front, middle) = counted_strings(data, at, (count - 1) as nat, field)->Ok_0;
        law_counted_string_is_its_bytes(data, middle, field);
        assert(texts.drop_last() =~= front);
        assert(data.subrange(at, end) =~= data.subrange(at, middle) + data.subrange(middle, end));
        assert forall|i: int| 0 <= i < texts.len() implies countable(#[trigger] texts[i]) by {
            if i < front.len() {
                assert(texts[i] == front[i]);
            }
        }
    }
}

/// 16-bit numbers that are read were written one behind the other.
pub proof fn law_numbers16_are_their_bytes(data: Seq<u8>, at: int, count: nat)
    requires
        0 <= at,
        at + 2 * count <= data.len(),
    ensures
        data.subrange(at, at + 2 * count) == list16(numbers16(data, at, count)),
{
    let numbers = numbers16(data, at, count);
    let bytes = data.subrange(at, at + 2 * count);
    assert forall|i: int| 0 <= i < bytes.len() implies bytes[i] == list16(numbers)[i] by {
        let k = i / 2;
        assert(numbers[k] == be16(data, at + 2 * k));
        assert(bytes[i] == data[at + i]);
    }
    assert(bytes =~= list16(numbers));
}

} // verus!
