use vstd::prelude::*;
use vstd::seq_lib::*;
use vstd::string::*;

verus! {

/// The texts of a sequence of strings.
pub open spec fn texts(strings: Seq<String>) -> Seq<Seq<char>> {
    strings.map_values(|string: String| string@)
}

/// The text that a sequence of bytes spells when each byte is read as one
/// character.
pub open spec fn spelled(bytes: Seq<u8>) -> Seq<char> {
    bytes.map_values(|byte: u8| byte as char)
}

/// Whether `text` and `expected` hold the same characters.
pub fn text_is(text: &str, expected: &str) -> (same: bool)
    ensures
        same == (text@ == expected@),
{
    let length = text.unicode_len();
    if length != expected.unicode_len() {
        return false;
    }
    let mut i: usize = 0;
    while i < length
        invariant
            length == text@.len(),
            length == expected@.len(),
            i <= length,
            forall|j: int| 0 <= j < i ==> text@[j] == expected@[j],
        decreases length - i,
    {
        if text.get_char(i) != expected.get_char(i) {
            return false;
        }
        i += 1;
    }
    assert(text@ =~= expected@);
    true
}

/// Whether `bytes` spell `expected`.
pub fn bytes_spell(bytes: &[u8], expected: &str) -> (same: bool)
    ensures
        same == (spelled(bytes@) == expected@),
{
    let length = bytes.len();
    if length != expected.unicode_len() {
        return false;
    }
    let mut i: usize = 0;
    while i < length
        invariant
            length == bytes@.len(),
            length == expected@.len(),
            i <= length,
            forall|j: int| 0 <= j < i ==> spelled(bytes@)[j] == expected@[j],
        decreases length - i,
    {
        if bytes[i] as char != expected.get_char(i) {
            return false;
        }
        i += 1;
    }
    assert(spelled(bytes@) =~= expected@);
    true
}


/// Whether `text` comes before `other` as in a dictionary: the first
/// character in which they differ is the smaller one in `text`, or `text`
/// ends where `other` goes on.
pub open spec fn comes_before(text: Seq<char>, other: Seq<char>) -> bool
    decreases text.len(),
{
    if other.len() == 0 {
        false
    } else if text.len() == 0 {
        true
    } else if text[0] != other[0] {
        text[0] < other[0]
    } else {
        comes_before(text.drop_first(), other.drop_first())
    }
}

/// No text comes before a text that comes before it.
pub proof fn lemma_comes_before_one_way(text: Seq<char>, other: Seq<char>)
    requires
        comes_before(text, other),
    ensures
        !comes_before(other, text),
    decreases text.len(),
{
    if text.len() > 0 && other.len() > 0 && text[0] == other[0] {
        lemma_comes_before_one_way(text.drop_first(), other.drop_first());
    }
}

/// What comes before a text comes before all that the text comes before.
pub proof fn lemma_comes_before_goes_on(first: Seq<char>, second: Seq<char>, third: Seq<char>)
    requires
        comes_before(first, second),
        comes_before(second, third),
    ensures
        comes_before(first, third),
    decreases first.len(),
{
    if first.len() > 0 && second.len() > 0 && third.len() > 0 && first[0] == second[0]
        && second[0] == third[0] {
        lemma_comes_before_goes_on(
            first.drop_first(),
            second.drop_first(),
            third.drop_first(),
        );
    }
}

/// Whether the texts are in the order of a dictionary: none comes before
/// one that stands before it.
pub open spec fn in_order(texts: Seq<Seq<char>>) -> bool {
    forall|i: int, j: int|
        0 <= i < j < texts.len() ==> !comes_before(#[trigger] texts[j], #[trigger] texts[i])
}

/// Whether `text` comes before `other` as in a dictionary.
pub fn text_before(text: &str, other: &str) -> (before: bool)
    ensures
        before == comes_before(text@, other@),
{
    let length = text.unicode_len();
    let other_length = other.unicode_len();
    let mut i: usize = 0;
    proof {
        assert(text@.skip(0) =~= text@);
        assert(other@.skip(0) =~= other@);
    }
    loop
        invariant
            length == text@.len(),
            other_length == other@.len(),
            i <= length,
            i <= other_length,
            comes_before(text@, other@) == comes_before(
                text@.skip(i as int),
                other@.skip(i as int),
            ),
        decreases length - i,
    {
        if i == other_length {
            return false;
        }
        if i == length {
            return true;
        }
        proof {
            assert(text@.skip(i as int).drop_first() =~= text@.skip(i + 1));
            assert(other@.skip(i as int).drop_first() =~= other@.skip(i + 1));
        }
        let symbol = text.get_char(i);
        let other_symbol = other.get_char(i);
        if symbol != other_symbol {
            return symbol < other_symbol;
        }
        i += 1;
    }
}

/// Puts `strings` in the order of a dictionary.
pub fn sort(strings: Vec<String>) -> (sorted: Vec<String>)
    ensures
        in_order(texts(sorted@)),
        texts(sorted@).to_multiset() == texts(strings@).to_multiset(),
{
    let ghost all = texts(strings@);
    let mut sorted: Vec<String> = Vec::new();
    let mut i: usize = 0;
    assert(texts(sorted@) =~= all.take(0));
    while i < strings.len()
        invariant
            i <= strings.len(),
            all == texts(strings@),
            in_order(texts(sorted@)),
            texts(sorted@).to_multiset() == all.take(i as int).to_multiset(),
        decreases strings.len() - i,
    {
        let string = strings[i].clone();
        let ghost before = texts(sorted@);
        let mut place: usize = 0;
        while place < sorted.len() && !text_before(string.as_str(), sorted[place].as_str())
            invariant
                place <= sorted.len(),
                before == texts(sorted@),
                forall|j: int| 0 <= j < place ==> !comes_before(string@, #[trigger] before[j]),
            decreases sorted.len() - place,
        {
            place += 1;
        }
        sorted.insert(place, string);
        proof {
            let after = texts(sorted@);
            assert(after =~= before.insert(place as int, string@));
            to_multiset_insert(before, place as int, string@);
            assert(all.take(i + 1) =~= all.take(i as int).push(string@));
            to_multiset_build(all.take(i as int), string@);
            assert forall|j: int, k: int| 0 <= j < k < after.len() implies !comes_before(
                #[trigger] after[k],
                #[trigger] after[j],
            ) by {
                if j == place {
                    // What stands behind the new text did not come before it.
                    let behind = before[k - 1];
                    if comes_before(behind, string@) {
                        lemma_comes_before_goes_on(behind, string@, before[place as int]);
                        lemma_comes_before_one_way(behind, before[place as int]);
                    }
                } else if k != place {
                    let low = if j < place { j } else { j - 1 };
                    let high = if k < place { k } else { k - 1 };
                    assert(after[j] == before[low]);
                    assert(after[k] == before[high]);
                }
            }
        }
        i += 1;
    }
    assert(all.take(strings.len() as int) =~= all);
    sorted
}

} // verus!
