//! Searching in bytes.

use vstd::prelude::*;

verus! {

/// The first index from `from` on at which `text` holds `byte`.
pub open spec fn spec_find_byte(text: Seq<u8>, byte: u8, from: int) -> Option<int>
    decreases text.len() - from,
{
    if from < 0 || from >= text.len() {
        None
    } else if text[from] == byte {
        Some(from)
    } else {
        spec_find_byte(text, byte, from + 1)
    }
}

/// What `spec_find_byte` finds is the first `byte` from `from` on, and it finds
/// nothing only when there is none.
pub proof fn lemma_find_byte(text: Seq<u8>, byte: u8, from: int)
    requires
        0 <= from,
    ensures
        match spec_find_byte(text, byte, from) {
            Some(at) => from <= at < text.len() && text[at] == byte && forall|i: int|
                from <= i < at ==> text[i] != byte,
            None => forall|i: int| from <= i < text.len() ==> text[i] != byte,
        },
    decreases text.len() - from,
{
    if from < text.len() && text[from] != byte {
        lemma_find_byte(text, byte, from + 1);
    }
}

/// The first index from `from` on at which `text` holds `byte`.
pub fn find_byte(text: &[u8], byte: u8, from: usize) -> (found: Option<usize>)
    ensures
        found is Some <==> spec_find_byte(text@, byte, from as int) is Some,
        found is Some ==> found.unwrap() == spec_find_byte(text@, byte, from as int).unwrap(),
{
    let mut at: usize = from;
    while at < text.len()
        invariant
            from <= at,
            spec_find_byte(text@, byte, at as int) == spec_find_byte(text@, byte, from as int),
        decreases text@.len() - at,
    {
        if text[at] == byte {
            return Some(at);
        }
        at += 1;
    }
    None
}

/// Whether `needle` stands in `text` at index `at`.
pub open spec fn occurs_at(text: Seq<u8>, needle: Seq<u8>, at: int) -> bool {
    &&& 0 <= at
    &&& at + needle.len() <= text.len()
    &&& text.subrange(at, at + needle.len()) == needle
}

/// The first index from `from` on at which `needle` stands in `text`.
pub open spec fn spec_find(text: Seq<u8>, needle: Seq<u8>, from: int) -> Option<int>
    decreases text.len() - from + 1,
{
    if from < 0 || from + needle.len() > text.len() {
        None
    } else if occurs_at(text, needle, from) {
        Some(from)
    } else {
        spec_find(text, needle, from + 1)
    }
}

/// What `spec_find` finds is the first place from `from` on where `needle` stands,
/// and it finds nothing only when there is none.
pub proof fn lemma_find(text: Seq<u8>, needle: Seq<u8>, from: int)
    requires
        0 <= from,
    ensures
        match spec_find(text, needle, from) {
            Some(at) => from <= at && occurs_at(text, needle, at) && forall|i: int|
                from <= i < at ==> !occurs_at(text, needle, i),
            None => forall|i: int| from <= i ==> !occurs_at(text, needle, i),
        },
    decreases text.len() - from + 1,
{
    if from + needle.len() <= text.len() && !occurs_at(text, needle, from) {
        lemma_find(text, needle, from + 1);
    }
}

/// Whether `needle` stands in `text` at index `at`.
pub fn matches_at(text: &[u8], needle: &[u8], at: usize) -> (found: bool)
    ensures
        found == occurs_at(text@, needle@, at as int),
{
    if needle.len() > text.len() || at > text.len() - needle.len() {
        return false;
    }
    let mut offset: usize = 0;
    while offset < needle.len()
        invariant
            at + needle@.len() <= text@.len() <= usize::MAX,
            offset <= needle@.len(),
            forall|i: int| 0 <= i < offset ==> text@[at + i] == needle@[i],
        decreases needle@.len() - offset,
    {
        if text[at + offset] != needle[offset] {
            assert(text@.subrange(at as int, at + needle@.len())[offset as int] != needle@[offset as int]);
            return false;
        }
        offset += 1;
    }
    assert(text@.subrange(at as int, at + needle@.len()) =~= needle@);
    true
}

/// The first index from `from` on at which `needle` stands in `text`.
pub fn find(text: &[u8], needle: &[u8], from: usize) -> (found: Option<usize>)
    ensures
        found is Some <==> spec_find(text@, needle@, from as int) is Some,
        found is Some ==> found.unwrap() == spec_find(text@, needle@, from as int).unwrap(),
{
    if needle.len() > text.len() {
        return None;
    }
    let last: usize = text.len() - needle.len();
    if from > last {
        return None;
    }
    let mut at: usize = from;
    loop
        invariant
            from <= at <= last,
            last == text@.len() - needle@.len(),
            spec_find(text@, needle@, at as int) == spec_find(text@, needle@, from as int),
        decreases last - at,
    {
        if matches_at(text, needle, at) {
            return Some(at);
        }
        if at == last {
            assert(spec_find(text@, needle@, at + 1) is None);
            return None;
        }
        at += 1;
    }
}

/// The bytes of `text` from `from` up to `to`.
pub(crate) fn copy_range(text: &[u8], from: usize, to: usize) -> (copy: Vec<u8>)
    requires
        from <= to <= text@.len(),
    ensures
        copy@ == text@.subrange(from as int, to as int),
{
    let mut copy: Vec<u8> = Vec::new();
    let mut at: usize = from;
    while at < to
        invariant
            from <= at <= to <= text@.len(),
            copy@ == text@.subrange(from as int, at as int),
        decreases to - at,
    {
        copy.push(text[at]);
        assert(copy@ =~= text@.subrange(from as int, at + 1));
        at += 1;
    }
    copy
}

} // verus!
