//! Strings as sequences of characters: the few operations that the protocol
//! needs.

use vstd::prelude::*;
use vstd::string::*;

verus! {

/// The views of a sequence of strings.
pub open spec fn string_views(strings: Seq<String>) -> Seq<Seq<char>> {
    Seq::new(strings.len(), |i: int| strings[i]@)
}

/// Whether `i` is where the first colon of `text` stands.
pub open spec fn is_first_colon(text: Seq<char>, i: int) -> bool {
    &&& 0 <= i < text.len()
    &&& text[i] == ':'
    &&& forall|k: int| 0 <= k < i ==> text[k] != ':'
}

/// `text` cut at its first colon: what stands before it and what stands
/// after it. `None` if `text` holds no colon.
pub open spec fn split_at_colon(text: Seq<char>) -> Option<(Seq<char>, Seq<char>)> {
    if exists|i: int| is_first_colon(text, i) {
        let i = choose|i: int| is_first_colon(text, i);
        Some((text.take(i), text.skip(i + 1)))
    } else {
        None
    }
}

/// `parts` with `separator` between each two neighbours.
pub open spec fn joined_strings(parts: Seq<Seq<char>>, separator: Seq<char>) -> Seq<char>
    decreases parts.len(),
{
    if parts.len() == 0 {
        Seq::empty()
    } else if parts.len() == 1 {
        parts[0]
    } else {
        joined_strings(parts.drop_last(), separator) + separator + parts.last()
    }
}

/// A text has one first colon at most.
pub proof fn lemma_first_colon_is_unique(text: Seq<char>, i: int, j: int)
    requires
        is_first_colon(text, i),
        is_first_colon(text, j),
    ensures
        i == j,
{
}

/// A text without a colon cannot be cut; one with a colon is cut at the
/// first.
pub proof fn lemma_split_at_colon(text: Seq<char>)
    ensures
        (forall|k: int| 0 <= k < text.len() ==> text[k] != ':') ==> split_at_colon(text) is None,
        forall|i: int|
            is_first_colon(text, i) ==> split_at_colon(text) == Some(
                (text.take(i), text.skip(i + 1)),
            ),
{
    assert forall|i: int| is_first_colon(text, i) implies split_at_colon(text) == Some(
        (text.take(i), text.skip(i + 1)),
    ) by {
        let chosen = choose|i: int| is_first_colon(text, i);
        lemma_first_colon_is_unique(text, i, chosen);
    }
}

/// How many colons `text` holds.
pub open spec fn colon_count(text: Seq<char>) -> nat
    decreases text.len(),
{
    if text.len() == 0 {
        0
    } else {
        colon_count(text.drop_last()) + if text.last() == ':' {
            1nat
        } else {
            0nat
        }
    }
}

/// The colons of two texts put together are those of the one and those of
/// the other.
pub proof fn lemma_colon_count_add(left: Seq<char>, right: Seq<char>)
    ensures
        colon_count(left + right) == colon_count(left) + colon_count(right),
    decreases right.len(),
{
    if right.len() == 0 {
        assert(left + right =~= left);
    } else {
        lemma_colon_count_add(left, right.drop_last());
        assert((left + right).drop_last() =~= left + right.drop_last());
    }
}

/// A text holds no colon exactly when its count of colons is zero.
pub proof fn lemma_colon_count_zero(text: Seq<char>)
    ensures
        colon_count(text) == 0 <==> (forall|k: int| 0 <= k < text.len() ==> text[k] != ':'),
    decreases text.len(),
{
    if text.len() > 0 {
        lemma_colon_count_zero(text.drop_last());
        if colon_count(text) == 0 {
            assert forall|k: int| 0 <= k < text.len() implies text[k] != ':' by {
                if k < text.len() - 1 {
                    assert(text.drop_last()[k] == text[k]);
                }
            }
        } else if text.last() != ':' {
            let k = choose|k: int| 0 <= k < text.drop_last().len() && text.drop_last()[k] == ':';
            assert(text[k] == ':');
        }
    }
}

/// Cutting a text at its first colon takes one colon away and leaves the
/// others behind the cut.
pub proof fn lemma_colon_count_split(text: Seq<char>)
    ensures
        match split_at_colon(text) {
            Some((before, after)) => colon_count(before) == 0 && colon_count(text) == 1
                + colon_count(after),
            None => colon_count(text) == 0,
        },
{
    lemma_colon_count_zero(text);
    lemma_split_at_colon(text);
    if exists|i: int| is_first_colon(text, i) {
        let i = choose|i: int| is_first_colon(text, i);
        let before = text.take(i);
        let after = text.skip(i + 1);
        lemma_colon_count_zero(before);
        assert(text =~= before + seq![':'] + after);
        lemma_colon_count_add(before + seq![':'], after);
        lemma_colon_count_add(before, seq![':']);
        assert(seq![':'].drop_last() =~= Seq::<char>::empty());
        assert(colon_count(seq![':']) == 1) by {
            reveal_with_fuel(colon_count, 2);
        }
    } else {
        assert forall|k: int| 0 <= k < text.len() implies text[k] != ':' by {
            if text[k] == ':' {
                lemma_has_first_colon(text, k);
            }
        }
    }
}

/// A text with a colon has a first colon.
pub proof fn lemma_has_first_colon(text: Seq<char>, k: int)
    requires
        0 <= k < text.len(),
        text[k] == ':',
    ensures
        exists|i: int| is_first_colon(text, i),
    decreases k,
{
    if exists|j: int| 0 <= j < k && text[j] == ':' {
        let j = choose|j: int| 0 <= j < k && text[j] == ':';
        lemma_has_first_colon(text, j);
    } else {
        assert(is_first_colon(text, k));
    }
}

/// The characters of `text`, in order.
pub fn chars_of(text: &str) -> (chars: Vec<char>)
    ensures
        chars@ == text@,
{
    let mut chars: Vec<char> = Vec::new();
    for c in it: text.chars()
        invariant
            it.seq() == text@,
            chars@ == text@.take(it.index() as int),
    {
        chars.push(c);
        assert(text@.take(it.index() + 1) =~= text@.take(it.index() as int).push(c));
    }
    assert(text@.take(text@.len() as int) =~= text@);
    chars
}

/// Whether `chars` begins with `prefix`.
pub fn starts_with(chars: &Vec<char>, prefix: &Vec<char>) -> (begins: bool)
    ensures
        begins == prefix@.is_prefix_of(chars@),
{
    if prefix.len() > chars.len() {
        return false;
    }
    let mut i: usize = 0;
    while i < prefix.len()
        invariant
            i <= prefix.len() <= chars.len(),
            forall|k: int| 0 <= k < i ==> prefix@[k] == chars@[k],
        decreases prefix.len() - i,
    {
        if prefix[i] != chars[i] {
            assert(chars@.subrange(0, prefix@.len() as int)[i as int] != prefix@[i as int]);
            return false;
        }
        i += 1;
    }
    assert(prefix@ =~= chars@.subrange(0, prefix@.len() as int));
    true
}

/// Where the first colon of `chars` at or after `from` stands.
pub fn find_colon(chars: &Vec<char>, from: usize) -> (found: Option<usize>)
    ensures
        match found {
            Some(i) => {
                &&& from <= i < chars.len()
                &&& chars@[i as int] == ':'
                &&& forall|k: int| from <= k < i ==> chars@[k] != ':'
            },
            None => forall|k: int| from <= k < chars.len() ==> chars@[k] != ':',
        },
{
    let mut i: usize = from;
    while i < chars.len()
        invariant
            from <= i,
            forall|k: int| from <= k < i ==> chars@[k] != ':',
        decreases chars.len() - i,
    {
        if chars[i] == ':' {
            return Some(i);
        }
        i += 1;
    }
    None
}

/// The characters of `text` from `from` up to `to`, as a string of their own.
pub fn substring(text: &str, from: usize, to: usize) -> (part: String)
    requires
        from <= to <= text@.len(),
    ensures
        part@ == text@.subrange(from as int, to as int),
{
    text.substring_char(from, to).to_owned()
}

/// `parts` with `separator` between each two neighbours.
pub fn join_strings(parts: &Vec<String>, separator: &str) -> (text: String)
    ensures
        text@ == joined_strings(string_views(parts@), separator@),
{
    let ghost views = string_views(parts@);
    let mut text = String::new();
    let mut i: usize = 0;
    while i < parts.len()
        invariant
            i <= parts.len(),
            views == string_views(parts@),
            text@ == joined_strings(views.take(i as int), separator@),
        decreases parts.len() - i,
    {
        assert(views.take(i + 1).drop_last() =~= views.take(i as int));
        if i > 0 {
            text.append(separator);
        }
        text.append(parts[i].as_str());
        i += 1;
    }
    assert(views.take(parts.len() as int) =~= views);
    text
}

} // verus!
