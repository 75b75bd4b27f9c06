//! The pieces of a scene description that say where meshes are: nested braces,
//! bracketed lists, lists of numbers and of quoted names.

use crate::asset_import::scan::{
    copy_range, find, find_byte, lemma_find_byte, matches_at, occurs_at, spec_find,
    spec_find_byte,
};
use crate::types::{RegionsType, RegionsTypeMask};
use vstd::prelude::*;

verus! {

/// How many more `open` than `close` bytes `text` holds from `from` up to `to`.
pub open spec fn nesting(text: Seq<u8>, open: u8, close: u8, from: int, to: int) -> int
    decreases to - from,
{
    if to <= from {
        0
    } else if text[to - 1] == open {
        nesting(text, open, close, from, to - 1) + 1
    } else if text[to - 1] == close {
        nesting(text, open, close, from, to - 1) - 1
    } else {
        nesting(text, open, close, from, to - 1)
    }
}

/// Whether the byte at `at` is a `close` that leaves nothing open of what was opened
/// from `from` on.
pub open spec fn closes_at(text: Seq<u8>, open: u8, close: u8, from: int, at: int) -> bool {
    &&& from <= at < text.len()
    &&& text[at] == close
    &&& text[at] != open
    &&& nesting(text, open, close, from, at + 1) <= 0
}

/// Whether `at` is where the nesting that starts at `from` ends: the first `close`
/// that leaves nothing open, and it closes what was opened, no more.
pub open spec fn matched_at(text: Seq<u8>, open: u8, close: u8, from: int, at: int) -> bool {
    &&& closes_at(text, open, close, from, at)
    &&& nesting(text, open, close, from, at + 1) == 0
    &&& forall|earlier: int| from <= earlier < at ==> !closes_at(text, open, close, from, earlier)
}

/// Where the nesting that starts at `from` ends, if it does.
pub open spec fn spec_find_matching(text: Seq<u8>, open: u8, close: u8, from: int) -> Option<int> {
    if exists|at: int| matched_at(text, open, close, from, at) {
        Some(choose|at: int| matched_at(text, open, close, from, at))
    } else {
        None
    }
}

/// The index of the `close` that ends the nesting which starts at `from`. `None` when
/// a `close` comes before any `open`, and when the text ends with something open.
pub fn find_matching(text: &[u8], open: u8, close: u8, from: usize) -> (found: Option<usize>)
    ensures
        found is Some <==> spec_find_matching(text@, open, close, from as int) is Some,
        found is Some ==> found.unwrap() == spec_find_matching(
            text@,
            open,
            close,
            from as int,
        ).unwrap(),
        found is Some ==> from <= found.unwrap() < text@.len() && matched_at(
            text@,
            open,
            close,
            from as int,
            found.unwrap() as int,
        ),
{
    let mut depth: usize = 0;
    let mut at: usize = from;
    while at < text.len()
        invariant
            from <= at,
            depth == nesting(text@, open, close, from as int, at as int),
            depth <= at - from,
            forall|earlier: int| from <= earlier < at ==> !closes_at(text@, open, close, from as int, earlier),
        decreases text@.len() - at,
    {
        if text[at] == open {
            depth += 1;
        } else if text[at] == close {
            if depth == 0 {
                proof {
                    assert(closes_at(text@, open, close, from as int, at as int));
                    assert forall|other: int| !matched_at(
                        text@,
                        open,
                        close,
                        from as int,
                        other,
                    ) by {}
                }
                return None;
            }
            depth -= 1;
            if depth == 0 {
                proof {
                    assert(matched_at(text@, open, close, from as int, at as int));
                    let chosen = choose|other: int| matched_at(text@, open, close, from as int, other);
                    assert(closes_at(text@, open, close, from as int, at as int));
                    assert(closes_at(text@, open, close, from as int, chosen));
                }
                return Some(at);
            }
        }
        at += 1;
    }
    proof {
        assert forall|other: int| !matched_at(text@, open, close, from as int, other) by {}
    }
    None
}

/// The index of the `}` that closes the `{` at `open_idx`. `None` when a `}` comes
/// before any `{`, and when the text ends with a brace open.
pub fn find_matching_brace(text: &[u8], open_idx: usize) -> (found: Option<usize>)
    ensures
        found is Some <==> spec_find_matching(text@, 0x7b, 0x7d, open_idx as int) is Some,
        found is Some ==> found.unwrap() == spec_find_matching(
            text@,
            0x7b,
            0x7d,
            open_idx as int,
        ).unwrap(),
        found is Some ==> open_idx <= found.unwrap() < text@.len() && matched_at(
            text@,
            0x7b,
            0x7d,
            open_idx as int,
            found.unwrap() as int,
        ),
{
    find_matching(text, 0x7b, 0x7d, open_idx)
}

/// The texts between the first and the second `"` from `from` on, between the third
/// and the fourth, and so on. A last `"` without a partner starts no text.
pub open spec fn spec_string_list(text: Seq<u8>, from: int) -> Seq<Seq<u8>>
    decreases text.len() - from,
{
    match spec_find_byte(text, 0x22, from) {
        None => Seq::empty(),
        Some(start) => match spec_find_byte(text, 0x22, start + 1) {
            None => Seq::empty(),
            Some(end) => if from <= start < end < text.len() {
                seq![text.subrange(start + 1, end)] + spec_string_list(text, end + 1)
            } else {
                Seq::empty()
            },
        },
    }
}

/// The views of byte strings, in the same order.
pub open spec fn byte_views(strings: Seq<Vec<u8>>) -> Seq<Seq<u8>> {
    Seq::new(strings.len(), |i: int| strings[i]@)
}

/// The quoted texts of a list, without their quotes, in their order.
pub fn parse_string_list(src: &[u8]) -> (strings: Vec<Vec<u8>>)
    ensures
        byte_views(strings@) == spec_string_list(src@, 0),
{
    let mut strings: Vec<Vec<u8>> = Vec::new();
    let mut cursor: usize = 0;
    let total: usize = src.len();
    loop
        invariant
            cursor <= src@.len() == total,
            spec_string_list(src@, 0) == byte_views(strings@) + spec_string_list(
                src@,
                cursor as int,
            ),
        decreases src@.len() - cursor,
    {
        proof {
            lemma_find_byte(src@, 0x22, cursor as int);
        }
        let start: usize = match find_byte(src, 0x22, cursor) {
            None => {
                assert(byte_views(strings@) + Seq::<Seq<u8>>::empty() =~= byte_views(strings@));
                return strings;
            },
            Some(quote) => quote,
        };
        proof {
            lemma_find_byte(src@, 0x22, start + 1);
        }
        let end: usize = match find_byte(src, 0x22, start + 1) {
            None => {
                assert(byte_views(strings@) + Seq::<Seq<u8>>::empty() =~= byte_views(strings@));
                return strings;
            },
            Some(quote) => quote,
        };
        let ghost before = byte_views(strings@);
        strings.push(copy_range(src, start + 1, end));
        assert(byte_views(strings@) =~= before + seq![src@.subrange(start + 1, end as int)]);
        cursor = end + 1;
    }
}

/// Whether `byte` starts a character in text encoded as UTF-8.
pub open spec fn is_char_start(byte: u8) -> bool {
    byte < 0x80 || byte >= 0xc0
}

/// The index of the first byte of the character that comes `chars` characters after
/// the one that starts at `at`; the length of `text` when there is no such character.
pub open spec fn spec_skip_chars(text: Seq<u8>, at: int, chars: int) -> int
    decreases text.len() - at,
{
    if at < 0 || at >= text.len() {
        text.len() as int
    } else if is_char_start(text[at]) && chars <= 0 {
        at
    } else if is_char_start(text[at]) {
        spec_skip_chars(text, at + 1, chars - 1)
    } else {
        spec_skip_chars(text, at + 1, chars)
    }
}

/// Skipping characters moves at least one byte for each, as far as the text reaches.
pub proof fn lemma_skip_chars(text: Seq<u8>, at: int, chars: int)
    requires
        0 <= at <= text.len(),
        0 <= chars,
    ensures
        at <= spec_skip_chars(text, at, chars) <= text.len(),
        at + chars <= spec_skip_chars(text, at, chars) || spec_skip_chars(text, at, chars)
            == text.len(),
    decreases text.len() - at,
{
    if at < text.len() {
        if is_char_start(text[at]) && chars <= 0 {
        } else if is_char_start(text[at]) {
            lemma_skip_chars(text, at + 1, chars - 1);
        } else {
            lemma_skip_chars(text, at + 1, chars);
        }
    }
}

/// The index of the first byte of the character that comes `chars` characters after
/// the one that starts at `from`.
pub fn skip_chars(text: &[u8], from: usize, chars: usize) -> (at: usize)
    ensures
        at == spec_skip_chars(text@, from as int, chars as int),
{
    let total: usize = text.len();
    let mut at: usize = from;
    let mut left: usize = chars;
    while at < total
        invariant
            total == text@.len(),
            from <= at,
            spec_skip_chars(text@, at as int, left as int) == spec_skip_chars(
                text@,
                from as int,
                chars as int,
            ),
        decreases total - at,
    {
        let byte: u8 = text[at];
        if byte < 0x80 || byte >= 0xc0 {
            if left == 0 {
                return at;
            }
            left -= 1;
        }
        at += 1;
    }
    total
}

/// What stands between the first `[` after the first `=` after the first `needle`
/// and the `]` that closes it. The search for the `]` starts as many characters after
/// the `=` as the `[` stands bytes after it.
pub open spec fn spec_extract_bracketed_after(haystack: Seq<u8>, needle: Seq<u8>) -> Option<Seq<u8>> {
    match spec_find(haystack, needle, 0) {
        None => None,
        Some(start) => match spec_find_byte(haystack, 0x3d, start + needle.len()) {
            None => None,
            Some(eq) => match spec_find_byte(haystack, 0x5b, eq + 1) {
                None => None,
                Some(open) => match spec_find_matching(
                    haystack,
                    0x5b,
                    0x5d,
                    spec_skip_chars(haystack, eq + 1, open - (eq + 1)),
                ) {
                    None => None,
                    Some(end) => Some(haystack.subrange(open + 1, end)),
                },
            },
        },
    }
}

/// The inside of the bracketed list that is assigned to the first `needle` in
/// `haystack`, without the outer brackets. `None` when `needle`, the `=`, the `[` or
/// the closing `]` is missing.
pub fn extract_bracketed_after(haystack: &[u8], needle: &[u8]) -> (inside: Option<Vec<u8>>)
    ensures
        inside is Some <==> spec_extract_bracketed_after(haystack@, needle@) is Some,
        inside is Some ==> inside.unwrap()@ == spec_extract_bracketed_after(
            haystack@,
            needle@,
        ).unwrap(),
{
    let total: usize = haystack.len();
    proof {
        crate::asset_import::scan::lemma_find(haystack@, needle@, 0);
    }
    let start: usize = match find(haystack, needle, 0) {
        None => {
            return None;
        },
        Some(start) => start,
    };
    let after: usize = start + needle.len();
    proof {
        lemma_find_byte(haystack@, 0x3d, after as int);
    }
    let eq: usize = match find_byte(haystack, 0x3d, after) {
        None => {
            return None;
        },
        Some(eq) => eq,
    };
    proof {
        lemma_find_byte(haystack@, 0x5b, eq + 1);
    }
    let open: usize = match find_byte(haystack, 0x5b, eq + 1) {
        None => {
            return None;
        },
        Some(open) => open,
    };
    proof {
        lemma_skip_chars(haystack@, eq + 1, open - (eq + 1));
    }
    let scan: usize = skip_chars(haystack, eq + 1, open - (eq + 1));
    let end: usize = match find_matching(haystack, 0x5b, 0x5d, scan) {
        None => {
            return None;
        },
        Some(end) => end,
    };
    Some(copy_range(haystack, open + 1, end))
}

/// Whether `byte` parts the numbers of a list: a comma, a space, a tab, a line feed,
/// a form feed or a carriage return.
pub open spec fn is_separator(byte: u8) -> bool {
    byte == 0x2c || byte == 0x20 || byte == 0x09 || byte == 0x0a || byte == 0x0c || byte == 0x0d
}

/// Whether `byte` is one of the digits `0` to `9`.
pub open spec fn is_digit(byte: u8) -> bool {
    0x30 <= byte <= 0x39
}

/// Whether every byte is a digit.
pub open spec fn all_digits(digits: Seq<u8>) -> bool {
    forall|i: int| 0 <= i < digits.len() ==> is_digit(#[trigger] digits[i])
}

/// The number that decimal digits spell.
pub open spec fn digits_value(digits: Seq<u8>) -> int
    decreases digits.len(),
{
    if digits.len() == 0 {
        0
    } else {
        digits_value(digits.drop_last()) * 10 + (digits.last() - 0x30)
    }
}

/// The number that digits spell is at least the number that any of their beginnings
/// spells.
pub proof fn lemma_digits_value_grows(digits: Seq<u8>, upto: int)
    requires
        all_digits(digits),
        0 <= upto <= digits.len(),
    ensures
        0 <= digits_value(digits.take(upto)) <= digits_value(digits),
    decreases digits.len() - upto,
{
    if upto == digits.len() {
        assert(digits.take(upto) =~= digits);
        lemma_digits_value_nonnegative(digits);
    } else {
        lemma_digits_value_grows(digits, upto + 1);
        assert(digits.take(upto + 1).drop_last() =~= digits.take(upto));
        assert(is_digit(digits[upto]));
        lemma_digits_value_nonnegative(digits.take(upto));
    }
}

/// Digits spell no negative number.
pub proof fn lemma_digits_value_nonnegative(digits: Seq<u8>)
    requires
        all_digits(digits),
    ensures
        0 <= digits_value(digits),
    decreases digits.len(),
{
    if digits.len() > 0 {
        lemma_digits_value_nonnegative(digits.drop_last());
        assert(is_digit(digits[digits.len() - 1]));
    }
}

/// Why a list of numbers could not be read.
#[derive(Debug, Clone, Copy, PartialEq, Eq, Structural)]
pub enum ListError {
    /// The bytes from `start` up to `end` are not a number of the machine's signed
    /// word size: an optional sign and at least one digit.
    InvalidInteger { start: usize, end: usize },
    /// A number is below zero.
    Negative { value: isize },
}

/// Where the run of bytes that are no separators, which starts at `from`, ends.
pub open spec fn spec_token_end(text: Seq<u8>, from: int) -> int
    decreases text.len() - from,
{
    if from < 0 || from >= text.len() || is_separator(text[from]) {
        from
    } else {
        spec_token_end(text, from + 1)
    }
}

/// The digits of the token from `start` up to `end`: what follows its sign.
pub open spec fn token_digits(text: Seq<u8>, start: int, end: int) -> Seq<u8> {
    if text[start] == 0x2d || text[start] == 0x2b {
        text.subrange(start + 1, end)
    } else {
        text.subrange(start, end)
    }
}

/// The number that the token from `start` up to `end` spells.
pub open spec fn token_value(text: Seq<u8>, start: int, end: int) -> int {
    if text[start] == 0x2d {
        -digits_value(token_digits(text, start, end))
    } else {
        digits_value(token_digits(text, start, end))
    }
}

/// The number that the token from `start` up to `end` stands for, or why it stands
/// for none.
pub open spec fn spec_parse_token(text: Seq<u8>, start: int, end: int) -> Result<usize, ListError> {
    let digits = token_digits(text, start, end);
    let value = token_value(text, start, end);
    if digits.len() == 0 || !all_digits(digits) || value < isize::MIN || value > isize::MAX {
        Err(ListError::InvalidInteger { start: start as usize, end: end as usize })
    } else if value < 0 {
        Err(ListError::Negative { value: value as isize })
    } else {
        Ok(value as usize)
    }
}

/// The numbers of the list from `from` on, or the fault of the first token that is
/// none.
pub open spec fn spec_usize_list(text: Seq<u8>, from: int) -> Result<Seq<usize>, ListError>
    decreases text.len() - from,
{
    if from < 0 || from >= text.len() {
        Ok(Seq::empty())
    } else if is_separator(text[from]) {
        spec_usize_list(text, from + 1)
    } else {
        let end = spec_token_end(text, from);
        if end <= from || end > text.len() {
            Ok(Seq::empty())
        } else {
            match spec_parse_token(text, from, end) {
                Err(fault) => Err(fault),
                Ok(value) => match spec_usize_list(text, end) {
                    Err(fault) => Err(fault),
                    Ok(rest) => Ok(seq![value] + rest),
                },
            }
        }
    }
}

/// The number that the token from `start` up to `end` stands for.
pub(crate) fn parse_token(text: &[u8], start: usize, end: usize) -> (result: Result<usize, ListError>)
    requires
        start < end <= text@.len(),
    ensures
        result == spec_parse_token(text@, start as int, end as int),
{
    let negative: bool = text[start] == 0x2d;
    let signed: bool = negative || text[start] == 0x2b;
    let first: usize = if signed { start + 1 } else { start };
    let ghost digits = token_digits(text@, start as int, end as int);
    let invalid = ListError::InvalidInteger { start, end };
    if first == end {
        return Err(invalid);
    }
    let most: usize = isize::MAX as usize;
    let limit: usize = if negative { most + 1 } else { most };
    let mut value: usize = 0;
    let mut at: usize = first;
    while at < end
        invariant
            first <= at <= end <= text@.len(),
            digits == text@.subrange(first as int, end as int),
            digits == token_digits(text@, start as int, end as int),
            all_digits(digits.take(at - first)),
            value == digits_value(digits.take(at - first)),
            value <= limit,
            limit == if negative { isize::MAX + 1 } else { isize::MAX as int },
            invalid == (ListError::InvalidInteger { start, end }),
            negative == (text@[start as int] == 0x2d),
        decreases end - at,
    {
        let byte: u8 = text[at];
        proof {
            assert(digits.take(at - first + 1).drop_last() =~= digits.take(at - first));
            assert(digits.take(at - first + 1).last() == byte);
        }
        if byte < 0x30 || byte > 0x39 {
            assert(!is_digit(digits[at - first]));
            return Err(invalid);
        }
        let digit: usize = (byte - 0x30) as usize;
        if value > limit / 10 || digit > limit - value * 10 {
            proof {
                if all_digits(digits) {
                    lemma_digits_value_grows(digits, at - first + 1);
                }
            }
            return Err(invalid);
        }
        value = value * 10 + digit;
        proof {
            assert forall|i: int| 0 <= i < at - first + 1 implies is_digit(
                #[trigger] digits.take(at - first + 1)[i],
            ) by {
                if i < at - first {
                    assert(digits.take(at - first + 1)[i] == digits.take(at - first)[i]);
                }
            }
        }
        at += 1;
    }
    proof {
        assert(digits.take(end - first) =~= digits);
    }
    if negative {
        if value == 0 {
            Ok(0)
        } else if value == limit {
            Err(ListError::Negative { value: isize::MIN })
        } else {
            Err(ListError::Negative { value: -(value as isize) })
        }
    } else {
        Ok(value)
    }
}

/// The end of the token that starts at `from`.
pub(crate) fn token_end(text: &[u8], from: usize) -> (end: usize)
    requires
        from <= text@.len(),
    ensures
        end == spec_token_end(text@, from as int),
        from <= end <= text@.len(),
{
    let mut end: usize = from;
    while end < text.len()
        invariant
            from <= end <= text@.len(),
            spec_token_end(text@, end as int) == spec_token_end(text@, from as int),
        decreases text@.len() - end,
    {
        let byte: u8 = text[end];
        if byte == 0x2c || byte == 0x20 || byte == 0x09 || byte == 0x0a || byte == 0x0c || byte
            == 0x0d {
            return end;
        }
        end += 1;
    }
    end
}

/// `found` in front of what `rest` gives, or the fault of `rest`.
pub open spec fn after_found(found: Seq<usize>, rest: Result<Seq<usize>, ListError>) -> Result<
    Seq<usize>,
    ListError,
> {
    match rest {
        Err(fault) => Err(fault),
        Ok(values) => Ok(found + values),
    }
}

/// The numbers of a list in which commas and white space part the numbers. A number
/// is an optional sign and digits, and must fit the machine's signed word; a number
/// below zero is refused. The first token that is no such number decides the fault.
pub fn parse_usize_list(src: &[u8]) -> (result: Result<Vec<usize>, ListError>)
    ensures
        result is Ok <==> spec_usize_list(src@, 0) is Ok,
        result is Ok ==> result->Ok_0@ == spec_usize_list(src@, 0)->Ok_0,
        result is Err ==> result->Err_0 == spec_usize_list(src@, 0)->Err_0,
{
    let mut values: Vec<usize> = Vec::new();
    let total: usize = src.len();
    let mut at: usize = 0;
    while at < total
        invariant
            at <= total == src@.len(),
            spec_usize_list(src@, 0) == after_found(values@, spec_usize_list(src@, at as int)),
        decreases total - at,
    {
        let byte: u8 = src[at];
        if byte == 0x2c || byte == 0x20 || byte == 0x09 || byte == 0x0a || byte == 0x0c || byte
            == 0x0d {
            at += 1;
        } else {
            let end: usize = token_end(src, at);
            assert(end > at) by {
                assert(spec_token_end(src@, at as int) == spec_token_end(src@, at + 1));
                lemma_token_end(src@, at + 1);
            }
            match parse_token(src, at, end) {
                Err(fault) => {
                    return Err(fault);
                },
                Ok(value) => {
                    let ghost before = values@;
                    values.push(value);
                    proof {
                        let rest = spec_usize_list(src@, end as int);
                        if rest is Ok {
                            assert(before + (seq![value] + rest->Ok_0) =~= values@ + rest->Ok_0);
                        }
                    }
                },
            }
            at = end;
        }
    }
    proof {
        assert(values@ + Seq::<usize>::empty() =~= values@);
    }
    Ok(values)
}

/// A token ends at or after its start, within the text.
pub proof fn lemma_token_end(text: Seq<u8>, from: int)
    requires
        0 <= from <= text.len(),
    ensures
        from <= spec_token_end(text, from) <= text.len(),
    decreases text.len() - from,
{
    if from < text.len() && !is_separator(text[from]) {
        lemma_token_end(text, from + 1);
    }
}

/// The bytes of `def Mesh "`, which open the declaration of a mesh.
pub open spec fn spec_def_mesh() -> Seq<u8> {
    seq![0x64, 0x65, 0x66, 0x20, 0x4d, 0x65, 0x73, 0x68, 0x20, 0x22]
}

/// The bytes of `def Mesh "`, which open the declaration of a mesh.
pub fn def_mesh() -> (bytes: Vec<u8>)
    ensures
        bytes@ == spec_def_mesh(),
{
    let bytes: Vec<u8> = vec![0x64, 0x65, 0x66, 0x20, 0x4d, 0x65, 0x73, 0x68, 0x20, 0x22];
    assert(bytes@ =~= spec_def_mesh());
    bytes
}

/// The bytes of `point3f[] points`.
pub open spec fn spec_points_key() -> Seq<u8> {
    seq![0x70, 0x6f, 0x69, 0x6e, 0x74, 0x33, 0x66, 0x5b, 0x5d, 0x20, 0x70, 0x6f, 0x69, 0x6e, 0x74, 0x73]
}

/// The bytes of `point3f[] points`.
pub fn points_key() -> (bytes: Vec<u8>)
    ensures
        bytes@ == spec_points_key(),
{
    let bytes: Vec<u8> = vec![0x70, 0x6f, 0x69, 0x6e, 0x74, 0x33, 0x66, 0x5b, 0x5d, 0x20, 0x70, 0x6f, 0x69, 0x6e, 0x74, 0x73];
    assert(bytes@ =~= spec_points_key());
    bytes
}

/// The bytes of `int[] faceVertexCounts`.
pub open spec fn spec_counts_key() -> Seq<u8> {
    seq![0x69, 0x6e, 0x74, 0x5b, 0x5d, 0x20, 0x66, 0x61, 0x63, 0x65, 0x56, 0x65, 0x72, 0x74, 0x65, 0x78, 0x43, 0x6f, 0x75, 0x6e, 0x74, 0x73]
}

/// The bytes of `int[] faceVertexCounts`.
pub fn counts_key() -> (bytes: Vec<u8>)
    ensures
        bytes@ == spec_counts_key(),
{
    let bytes: Vec<u8> = vec![0x69, 0x6e, 0x74, 0x5b, 0x5d, 0x20, 0x66, 0x61, 0x63, 0x65, 0x56, 0x65, 0x72, 0x74, 0x65, 0x78, 0x43, 0x6f, 0x75, 0x6e, 0x74, 0x73];
    assert(bytes@ =~= spec_counts_key());
    bytes
}

/// The bytes of `int[] faceVertexIndices`.
pub open spec fn spec_indices_key() -> Seq<u8> {
    seq![0x69, 0x6e, 0x74, 0x5b, 0x5d, 0x20, 0x66, 0x61, 0x63, 0x65, 0x56, 0x65, 0x72, 0x74, 0x65, 0x78, 0x49, 0x6e, 0x64, 0x69, 0x63, 0x65, 0x73]
}

/// The bytes of `int[] faceVertexIndices`.
pub fn indices_key() -> (bytes: Vec<u8>)
    ensures
        bytes@ == spec_indices_key(),
{
    let bytes: Vec<u8> = vec![0x69, 0x6e, 0x74, 0x5b, 0x5d, 0x20, 0x66, 0x61, 0x63, 0x65, 0x56, 0x65, 0x72, 0x74, 0x65, 0x78, 0x49, 0x6e, 0x64, 0x69, 0x63, 0x65, 0x73];
    assert(bytes@ =~= spec_indices_key());
    bytes
}

/// The bytes of `custom string[] regionsTypeMask`.
pub open spec fn spec_mask_key() -> Seq<u8> {
    seq![0x63, 0x75, 0x73, 0x74, 0x6f, 0x6d, 0x20, 0x73, 0x74, 0x72, 0x69, 0x6e, 0x67, 0x5b, 0x5d, 0x20, 0x72, 0x65, 0x67, 0x69, 0x6f, 0x6e, 0x73, 0x54, 0x79, 0x70, 0x65, 0x4d, 0x61, 0x73, 0x6b]
}

/// The bytes of `custom string[] regionsTypeMask`.
pub fn mask_key() -> (bytes: Vec<u8>)
    ensures
        bytes@ == spec_mask_key(),
{
    let bytes: Vec<u8> = vec![0x63, 0x75, 0x73, 0x74, 0x6f, 0x6d, 0x20, 0x73, 0x74, 0x72, 0x69, 0x6e, 0x67, 0x5b, 0x5d, 0x20, 0x72, 0x65, 0x67, 0x69, 0x6f, 0x6e, 0x73, 0x54, 0x79, 0x70, 0x65, 0x4d, 0x61, 0x73, 0x6b];
    assert(bytes@ =~= spec_mask_key());
    bytes
}

/// One name of a placement category and the identifier it stands for.
#[derive(Debug, Clone)]
pub struct RegistryEntry {
    pub name: Vec<u8>,
    pub id: RegionsType,
}

/// Why names could not be turned into a mask.
#[derive(Debug, Clone, Copy, PartialEq, Eq, Structural)]
pub enum MaskError {
    /// The name at `index` is not in the registry.
    UnknownName { index: usize },
    /// A name stands for an identifier that no mask can hold.
    IdOutOfRange { id: RegionsType },
}

/// Whether the two slices hold the same bytes.
pub fn same_bytes(left: &[u8], right: &[u8]) -> (same: bool)
    ensures
        same == (left@ == right@),
{
    if left.len() != right.len() {
        return false;
    }
    let mut at: usize = 0;
    while at < left.len()
        invariant
            left@.len() == right@.len(),
            at <= left@.len(),
            forall|i: int| 0 <= i < at ==> left@[i] == right@[i],
        decreases left@.len() - at,
    {
        if left[at] != right[at] {
            return false;
        }
        at += 1;
    }
    assert(left@ =~= right@);
    true
}

/// The identifier that `name` stands for in the first `upto` entries: that of the
/// last of them with this name.
pub open spec fn spec_lookup(registry: Seq<RegistryEntry>, name: Seq<u8>, upto: int) -> Option<
    RegionsType,
>
    decreases upto,
{
    if upto <= 0 {
        None
    } else if registry[upto - 1].name@ == name {
        Some(registry[upto - 1].id)
    } else {
        spec_lookup(registry, name, upto - 1)
    }
}

/// The identifier that `name` stands for. Where the registry has the name more than
/// once, the last entry counts.
pub fn lookup(registry: &[RegistryEntry], name: &[u8]) -> (id: Option<RegionsType>)
    ensures
        id == spec_lookup(registry@, name@, registry@.len() as int),
{
    let mut upto: usize = registry.len();
    while upto > 0
        invariant
            upto <= registry@.len(),
            spec_lookup(registry@, name@, upto as int) == spec_lookup(
                registry@,
                name@,
                registry@.len() as int,
            ),
        decreases upto,
    {
        if same_bytes(registry[upto - 1].name.as_slice(), name) {
            return Some(registry[upto - 1].id);
        }
        upto -= 1;
    }
    None
}

/// The categories that the first `upto` names stand for, or the fault of the first
/// name that stands for none.
pub open spec fn spec_mask_from_names(
    names: Seq<Vec<u8>>,
    registry: Seq<RegistryEntry>,
    upto: int,
) -> Result<Set<RegionsType>, MaskError>
    decreases upto,
{
    if upto <= 0 {
        Ok(Set::empty())
    } else {
        match spec_mask_from_names(names, registry, upto - 1) {
            Err(fault) => Err(fault),
            Ok(categories) => match spec_lookup(
                registry,
                names[upto - 1]@,
                registry.len() as int,
            ) {
                None => Err(MaskError::UnknownName { index: (upto - 1) as usize }),
                Some(id) => if id >= 32 {
                    Err(MaskError::IdOutOfRange { id })
                } else {
                    Ok(categories.insert(id))
                },
            },
        }
    }
}

/// The mask of the categories that `names` stand for in `registry`. A name that the
/// registry does not have, and an identifier that no mask can hold, are faults; the
/// first name with a fault decides.
pub fn mask_from_names(names: &[Vec<u8>], registry: &[RegistryEntry]) -> (result: Result<
    RegionsTypeMask,
    MaskError,
>)
    ensures
        result is Ok <==> spec_mask_from_names(names@, registry@, names@.len() as int) is Ok,
        result is Ok ==> result->Ok_0@ == spec_mask_from_names(
            names@,
            registry@,
            names@.len() as int,
        )->Ok_0,
        result is Err ==> result->Err_0 == spec_mask_from_names(
            names@,
            registry@,
            names@.len() as int,
        )->Err_0,
{
    let mut mask = RegionsTypeMask::none();
    let mut index: usize = 0;
    while index < names.len()
        invariant
            index <= names@.len(),
            spec_mask_from_names(names@, registry@, index as int) == Ok::<
                Set<RegionsType>,
                MaskError,
            >(mask@),
        decreases names@.len() - index,
    {
        let id: RegionsType = match lookup(registry, names[index].as_slice()) {
            None => {
                proof {
                    lemma_mask_fault_stays(names@, registry@, index + 1, names@.len() as int);
                }
                return Err(MaskError::UnknownName { index });
            },
            Some(id) => id,
        };
        if !mask.insert_id(id) {
            proof {
                lemma_mask_fault_stays(names@, registry@, index + 1, names@.len() as int);
            }
            return Err(MaskError::IdOutOfRange { id });
        }
        index += 1;
    }
    Ok(mask)
}

/// Once a name has a fault, the fault stays whatever names follow.
pub proof fn lemma_mask_fault_stays(
    names: Seq<Vec<u8>>,
    registry: Seq<RegistryEntry>,
    failed: int,
    later: int,
)
    requires
        spec_mask_from_names(names, registry, failed) is Err,
        failed <= later,
    ensures
        spec_mask_from_names(names, registry, later) == spec_mask_from_names(
            names,
            registry,
            failed,
        ),
    decreases later - failed,
{
    if failed < later {
        lemma_mask_fault_stays(names, registry, failed, later - 1);
    }
}

/// What the declaration of one mesh holds, as it stands in the text.
pub struct MeshText {
    /// The name of the mesh.
    pub name: Seq<u8>,
    /// The inside of the list of points.
    pub points: Seq<u8>,
    /// The inside of the list that gives each face its number of corners.
    pub face_vertex_counts: Seq<u8>,
    /// The inside of the list that gives each corner its vertex.
    pub face_vertex_indices: Seq<u8>,
    /// The inside of the list of category names, where the mesh has one.
    pub regions_type_mask: Option<Seq<u8>>,
    /// The index after the brace that closes the declaration.
    pub end: int,
}

/// What the declaration of one mesh holds, as it stands in the text.
#[derive(Debug, Clone)]
pub struct MeshBlock {
    /// The name of the mesh.
    pub name: Vec<u8>,
    /// The inside of the list of points.
    pub points: Vec<u8>,
    /// The inside of the list that gives each face its number of corners.
    pub face_vertex_counts: Vec<u8>,
    /// The inside of the list that gives each corner its vertex.
    pub face_vertex_indices: Vec<u8>,
    /// The inside of the list of category names, where the mesh has one.
    pub regions_type_mask: Option<Vec<u8>>,
    /// The index after the brace that closes the declaration.
    pub end: usize,
}

impl View for MeshBlock {
    type V = MeshText;

    open spec fn view(&self) -> MeshText {
        MeshText {
            name: self.name@,
            points: self.points@,
            face_vertex_counts: self.face_vertex_counts@,
            face_vertex_indices: self.face_vertex_indices@,
            regions_type_mask: match self.regions_type_mask {
                None => None,
                Some(names) => Some(names@),
            },
            end: self.end as int,
        }
    }
}

/// Why the declaration of a mesh could not be read. The name of the mesh stands in
/// the text from `name_start` up to `name_end`.
#[derive(Debug, Clone, Copy, PartialEq, Eq, Structural)]
pub enum UsdaError {
    /// The name of a mesh is not closed by a `"`.
    MalformedDeclaration,
    /// No `{` follows the name.
    NoOpeningBrace { name_start: usize, name_end: usize },
    /// The `{` after the name is never closed.
    UnclosedBrace { name_start: usize, name_end: usize },
    /// The declaration has no list of points.
    MissingPoints { name_start: usize, name_end: usize },
    /// The declaration has no list of corner counts.
    MissingFaceVertexCounts { name_start: usize, name_end: usize },
    /// The declaration has no list of corner vertices.
    MissingFaceVertexIndices { name_start: usize, name_end: usize },
}

/// What the body of a mesh declaration holds. The body is `block`; the name stands in
/// the whole text from `name_start` up to `name_end`, and the declaration ends before
/// `end`.
pub open spec fn spec_mesh_body(
    block: Seq<u8>,
    name: Seq<u8>,
    name_start: int,
    name_end: int,
    end: int,
) -> Result<MeshText, UsdaError> {
    match spec_extract_bracketed_after(block, spec_points_key()) {
        None => Err(
            UsdaError::MissingPoints {
                name_start: name_start as usize,
                name_end: name_end as usize,
            },
        ),
        Some(points) => match spec_extract_bracketed_after(block, spec_counts_key()) {
            None => Err(
                UsdaError::MissingFaceVertexCounts {
                    name_start: name_start as usize,
                    name_end: name_end as usize,
                },
            ),
            Some(face_vertex_counts) => match spec_extract_bracketed_after(
                block,
                spec_indices_key(),
            ) {
                None => Err(
                    UsdaError::MissingFaceVertexIndices {
                        name_start: name_start as usize,
                        name_end: name_end as usize,
                    },
                ),
                Some(face_vertex_indices) => Ok(
                    MeshText {
                        name,
                        points,
                        face_vertex_counts,
                        face_vertex_indices,
                        regions_type_mask: spec_extract_bracketed_after(block, spec_mask_key()),
                        end,
                    },
                ),
            },
        },
    }
}

/// The first mesh declared in `content` from `cursor` on: `Ok(None)` when none is
/// declared, and a fault when the first declaration cannot be read.
pub open spec fn spec_next_mesh(content: Seq<u8>, cursor: int) -> Result<Option<MeshText>, UsdaError> {
    match spec_find(content, spec_def_mesh(), cursor) {
        None => Ok(None),
        Some(declaration) => {
            let name_start = declaration + spec_def_mesh().len();
            match spec_find_byte(content, 0x22, name_start) {
                None => Err(UsdaError::MalformedDeclaration),
                Some(name_end) => match spec_find_byte(content, 0x7b, name_end) {
                    None => Err(
                        UsdaError::NoOpeningBrace {
                            name_start: name_start as usize,
                            name_end: name_end as usize,
                        },
                    ),
                    Some(brace_start) => match spec_find_matching(
                        content,
                        0x7b,
                        0x7d,
                        brace_start,
                    ) {
                        None => Err(
                            UsdaError::UnclosedBrace {
                                name_start: name_start as usize,
                                name_end: name_end as usize,
                            },
                        ),
                        Some(brace_end) => match spec_mesh_body(
                            content.subrange(brace_start + 1, brace_end),
                            content.subrange(name_start, name_end),
                            name_start,
                            name_end,
                            brace_end + 1,
                        ) {
                            Err(fault) => Err(fault),
                            Ok(mesh) => Ok(Some(mesh)),
                        },
                    },
                },
            }
        },
    }
}

/// Reads the first mesh declared in `content` from `cursor` on. The texts of its
/// lists are handed out as they stand; the next declaration is looked for from the
/// `end` of this one.
pub fn next_mesh(content: &[u8], cursor: usize) -> (result: Result<Option<MeshBlock>, UsdaError>)
    ensures
        result is Err <==> spec_next_mesh(content@, cursor as int) is Err,
        result is Err ==> result->Err_0 == spec_next_mesh(content@, cursor as int)->Err_0,
        result is Ok ==> (result->Ok_0 is None <==> spec_next_mesh(
            content@,
            cursor as int,
        )->Ok_0 is None),
        result is Ok && result->Ok_0 is Some ==> result->Ok_0->Some_0@ == spec_next_mesh(
            content@,
            cursor as int,
        )->Ok_0->Some_0 && cursor < result->Ok_0->Some_0.end <= content@.len(),
{
    let total: usize = content.len();
    let def_mesh = def_mesh();
    proof {
        crate::asset_import::scan::lemma_find(content@, spec_def_mesh(), cursor as int);
    }
    let declaration: usize = match find(content, def_mesh.as_slice(), cursor) {
        None => {
            return Ok(None);
        },
        Some(declaration) => declaration,
    };
    let name_start: usize = declaration + def_mesh.len();
    proof {
        lemma_find_byte(content@, 0x22, name_start as int);
    }
    let name_end: usize = match find_byte(content, 0x22, name_start) {
        None => {
            return Err(UsdaError::MalformedDeclaration);
        },
        Some(name_end) => name_end,
    };
    proof {
        lemma_find_byte(content@, 0x7b, name_end as int);
    }
    let brace_start: usize = match find_byte(content, 0x7b, name_end) {
        None => {
            return Err(UsdaError::NoOpeningBrace { name_start, name_end });
        },
        Some(brace_start) => brace_start,
    };
    let brace_end: usize = match find_matching_brace(content, brace_start) {
        None => {
            return Err(UsdaError::UnclosedBrace { name_start, name_end });
        },
        Some(brace_end) => brace_end,
    };
    assert(brace_start < brace_end) by {
        assert(content@[brace_start as int] == 0x7b);
    }
    let block: Vec<u8> = copy_range(content, brace_start + 1, brace_end);
    let points_key = points_key();
    let points: Vec<u8> = match extract_bracketed_after(block.as_slice(), points_key.as_slice()) {
        None => {
            return Err(UsdaError::MissingPoints { name_start, name_end });
        },
        Some(points) => points,
    };
    let counts_key = counts_key();
    let face_vertex_counts: Vec<u8> = match extract_bracketed_after(
        block.as_slice(),
        counts_key.as_slice(),
    ) {
        None => {
            return Err(UsdaError::MissingFaceVertexCounts { name_start, name_end });
        },
        Some(counts) => counts,
    };
    let indices_key = indices_key();
    let face_vertex_indices: Vec<u8> = match extract_bracketed_after(
        block.as_slice(),
        indices_key.as_slice(),
    ) {
        None => {
            return Err(UsdaError::MissingFaceVertexIndices { name_start, name_end });
        },
        Some(indices) => indices,
    };
    let mask_key = mask_key();
    let regions_type_mask: Option<Vec<u8>> = extract_bracketed_after(
        block.as_slice(),
        mask_key.as_slice(),
    );
    let name: Vec<u8> = copy_range(content, name_start, name_end);
    Ok(
        Some(
            MeshBlock {
                name,
                points,
                face_vertex_counts,
                face_vertex_indices,
                regions_type_mask,
                end: brace_end + 1,
            },
        ),
    )
}

/// The bytes of `def Xform `, which open the declaration of a transform.
pub open spec fn spec_def_xform() -> Seq<u8> {
    seq![0x64, 0x65, 0x66, 0x20, 0x58, 0x66, 0x6f, 0x72, 0x6d, 0x20]
}

/// The bytes of `def Xform `, which open the declaration of a transform.
pub fn def_xform() -> (bytes: Vec<u8>)
    ensures
        bytes@ == spec_def_xform(),
{
    let bytes: Vec<u8> = vec![0x64, 0x65, 0x66, 0x20, 0x58, 0x66, 0x6f, 0x72, 0x6d, 0x20];
    assert(bytes@ =~= spec_def_xform());
    bytes
}

/// The bytes of `HoudiniLayerInfo`, the name of a transform that describes the file and not the scene.
pub open spec fn spec_layer_info() -> Seq<u8> {
    seq![0x48, 0x6f, 0x75, 0x64, 0x69, 0x6e, 0x69, 0x4c, 0x61, 0x79, 0x65, 0x72, 0x49, 0x6e, 0x66, 0x6f]
}

/// The bytes of `HoudiniLayerInfo`, the name of a transform that describes the file and not the scene.
pub fn layer_info() -> (bytes: Vec<u8>)
    ensures
        bytes@ == spec_layer_info(),
{
    let bytes: Vec<u8> = vec![0x48, 0x6f, 0x75, 0x64, 0x69, 0x6e, 0x69, 0x4c, 0x61, 0x79, 0x65, 0x72, 0x49, 0x6e, 0x66, 0x6f];
    assert(bytes@ =~= spec_layer_info());
    bytes
}

/// The number of bytes of the white space character that starts at `at`; 0 when none
/// starts there. White space is what Unicode gives the property `White_Space`, in
/// UTF-8: the control characters from tab to carriage return, the space, the next
/// line control, and the spaces of fixed width, the line and paragraph separators and
/// the other spaces beyond ASCII.
pub open spec fn space_len(text: Seq<u8>, at: int) -> int {
    if at < 0 || at >= text.len() {
        0
    } else if text[at] == 0x20 || 0x09 <= text[at] <= 0x0d {
        1
    } else if at + 1 < text.len() && text[at] == 0xc2 && (text[at + 1] == 0x85 || text[at + 1]
        == 0xa0) {
        2
    } else if at + 2 < text.len() && text[at] == 0xe1 && text[at + 1] == 0x9a && text[at + 2]
        == 0x80 {
        3
    } else if at + 2 < text.len() && text[at] == 0xe2 && text[at + 1] == 0x80 && (0x80 <= text[at
        + 2] <= 0x8a || text[at + 2] == 0xa8 || text[at + 2] == 0xa9 || text[at + 2] == 0xaf) {
        3
    } else if at + 2 < text.len() && text[at] == 0xe2 && text[at + 1] == 0x81 && text[at + 2]
        == 0x9f {
        3
    } else if at + 2 < text.len() && text[at] == 0xe3 && text[at + 1] == 0x80 && text[at + 2]
        == 0x80 {
        3
    } else {
        0
    }
}

/// The number of bytes of the white space character that starts at `at`.
pub fn space_at(text: &[u8], at: usize) -> (bytes: usize)
    ensures
        bytes == space_len(text@, at as int),
        at + bytes <= text@.len() || bytes == 0,
{
    let total: usize = text.len();
    if at >= total {
        return 0;
    }
    let first: u8 = text[at];
    if first == 0x20 || (0x09 <= first && first <= 0x0d) {
        return 1;
    }
    if total - at < 2 {
        return 0;
    }
    let second: u8 = text[at + 1];
    if first == 0xc2 && (second == 0x85 || second == 0xa0) {
        return 2;
    }
    if total - at < 3 {
        return 0;
    }
    let third: u8 = text[at + 2];
    if first == 0xe1 && second == 0x9a && third == 0x80 {
        return 3;
    }
    if first == 0xe2 && second == 0x80 && ((0x80 <= third && third <= 0x8a) || third == 0xa8
        || third == 0xa9 || third == 0xaf) {
        return 3;
    }
    if first == 0xe2 && second == 0x81 && third == 0x9f {
        return 3;
    }
    if first == 0xe3 && second == 0x80 && third == 0x80 {
        return 3;
    }
    0
}

/// Where the white space that starts at `at` ends, at `end` at the latest.
pub open spec fn spec_trim_start(text: Seq<u8>, at: int, end: int) -> int
    decreases end - at,
{
    if at < end && space_len(text, at) > 0 && at + space_len(text, at) <= end {
        spec_trim_start(text, at + space_len(text, at), end)
    } else {
        at
    }
}

/// Where the white space that starts at `start` ends, at `end` at the latest.
pub(crate) fn trim_start(text: &[u8], start: usize, end: usize) -> (at: usize)
    requires
        start <= end <= text@.len(),
    ensures
        at == spec_trim_start(text@, start as int, end as int),
        start <= at <= end,
{
    let mut at: usize = start;
    loop
        invariant
            start <= at <= end <= text@.len(),
            spec_trim_start(text@, at as int, end as int) == spec_trim_start(
                text@,
                start as int,
                end as int,
            ),
        decreases end - at,
    {
        if at >= end {
            return at;
        }
        let bytes: usize = space_at(text, at);
        if bytes == 0 || bytes > end - at {
            return at;
        }
        at += bytes;
    }
}

/// Where the line that holds the byte at `from` ends: at the next line feed, or at
/// the end of the text.
pub open spec fn spec_line_end(text: Seq<u8>, from: int) -> int {
    match spec_find_byte(text, 0x0a, from) {
        Some(at) => at,
        None => text.len() as int,
    }
}

/// The first index from `from` on and before `end` at which `text` holds `byte`.
pub open spec fn spec_find_byte_before(text: Seq<u8>, byte: u8, from: int, end: int) -> Option<int> {
    match spec_find_byte(text, byte, from) {
        Some(at) => if at < end {
            Some(at)
        } else {
            None
        },
        None => None,
    }
}

/// The name that the line from `start` up to `end` gives a transform: what stands
/// between the first two `"` of a line that starts, after white space, with
/// `def Xform `. The outer `None` says that the line declares no transform; the inner
/// one that it declares one and does not close its name.
pub open spec fn spec_xform_in_line(text: Seq<u8>, start: int, end: int) -> Option<Option<Seq<u8>>> {
    let trimmed = spec_trim_start(text, start, end);
    if occurs_at(text, spec_def_xform(), trimmed) && trimmed + spec_def_xform().len() <= end {
        match spec_find_byte_before(text, 0x22, trimmed, end) {
            None => Some(None),
            Some(open) => match spec_find_byte_before(text, 0x22, open + 1, end) {
                None => Some(None),
                Some(close) => Some(Some(text.subrange(open + 1, close))),
            },
        }
    } else {
        None
    }
}

/// The name of the first transform declared from the line that starts at
/// `line_start` on, leaving out transforms named `HoudiniLayerInfo`. `None` when
/// there is none, and when a declaration before it does not close its name.
pub open spec fn spec_first_xform_name(text: Seq<u8>, line_start: int) -> Option<Seq<u8>>
    decreases text.len() - line_start,
{
    if line_start < 0 || line_start >= text.len() {
        None
    } else {
        let end = spec_line_end(text, line_start);
        match spec_xform_in_line(text, line_start, end) {
            Some(None) => None,
            Some(Some(name)) if name != spec_layer_info() => Some(name),
            _ => if line_start <= end < text.len() {
                spec_first_xform_name(text, end + 1)
            } else {
                None
            },
        }
    }
}

/// The name of the first transform that `content` declares, leaving out transforms
/// named `HoudiniLayerInfo`.
pub fn extract_first_xform_name(content: &[u8]) -> (name: Option<Vec<u8>>)
    ensures
        name is Some <==> spec_first_xform_name(content@, 0) is Some,
        name is Some ==> name.unwrap()@ == spec_first_xform_name(content@, 0).unwrap(),
{
    let total: usize = content.len();
    let def_xform = def_xform();
    let layer_info = layer_info();
    let mut line_start: usize = 0;
    while line_start < total
        invariant
            total == content@.len(),
            def_xform@ == spec_def_xform(),
            layer_info@ == spec_layer_info(),
            spec_first_xform_name(content@, line_start as int) == spec_first_xform_name(
                content@,
                0,
            ),
        decreases total - line_start,
    {
        proof {
            lemma_find_byte(content@, 0x0a, line_start as int);
        }
        let end: usize = match find_byte(content, 0x0a, line_start) {
            Some(at) => at,
            None => total,
        };
        let trimmed: usize = trim_start(content, line_start, end);
        if matches_at(content, def_xform.as_slice(), trimmed) && def_xform.len() <= end - trimmed {
            proof {
                lemma_find_byte(content@, 0x22, trimmed as int);
            }
            let open: usize = match find_byte(content, 0x22, trimmed) {
                Some(at) if at < end => at,
                _ => {
                    return None;
                },
            };
            proof {
                lemma_find_byte(content@, 0x22, open + 1);
            }
            let close: usize = match find_byte(content, 0x22, open + 1) {
                Some(at) if at < end => at,
                _ => {
                    return None;
                },
            };
            let name: Vec<u8> = copy_range(content, open + 1, close);
            if !same_bytes(name.as_slice(), layer_info.as_slice()) {
                return Some(name);
            }
        }
        if end >= total {
            return None;
        }
        line_start = end + 1;
    }
    None
}

} // verus!
