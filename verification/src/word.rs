//! Words of a reply sentence: tag words such as `!re`, and attribute words of
//! the form `=key=value`.

use vstd::prelude::*;
use vstd::std_specs::iter::IteratorSpec;

verus! {

/// Index of the first `mark` in `text` at or after `from`, or `text.len()`
/// where `text` holds none from there on.
pub open spec fn first_at<T>(text: Seq<T>, mark: T, from: int) -> int
    recommends
        0 <= from,
    decreases text.len() - from,
{
    if from >= text.len() {
        text.len() as int
    } else if text[from] == mark {
        from
    } else {
        first_at(text, mark, from + 1)
    }
}

/// `first_at` is the least index from `from` on that holds `mark`.
pub proof fn lemma_first_at<T>(text: Seq<T>, mark: T, from: int)
    requires
        0 <= from <= text.len(),
    ensures
        from <= first_at(text, mark, from) <= text.len(),
        first_at(text, mark, from) < text.len() ==> text[first_at(text, mark, from)] == mark,
        forall|k: int| from <= k < first_at(text, mark, from) ==> text[k] != mark,
    decreases text.len() - from,
{
    if from < text.len() && text[from] != mark {
        lemma_first_at(text, mark, from + 1);
    }
}

/// Any index that is the least one holding `mark` is `first_at`.
pub proof fn lemma_first_at_is<T>(text: Seq<T>, mark: T, from: int, at: int)
    requires
        0 <= from <= at <= text.len(),
        at < text.len() ==> text[at] == mark,
        forall|k: int| from <= k < at ==> text[k] != mark,
    ensures
        first_at(text, mark, from) == at,
    decreases at - from,
{
    if from < at {
        lemma_first_at_is(text, mark, from + 1, at);
    }
}

/// Finds the first `mark` in `text` at or after the character index `from`.
pub fn find_char(text: &str, mark: char, from: usize) -> (at: usize)
    ensures
        at == first_at(text@, mark, from as int),
{
    let total: usize = text.unicode_len();
    let mut chars = text.chars();
    let mut index: usize = 0;
    loop
        invariant
            chars.obeys_prophetic_iter_laws(),
            index <= total == text@.len(),
            chars.remaining() == text@.skip(index as int),
            forall|k: int| from <= k < index ==> text@[k] != mark,
        decreases total - index,
    {
        match chars.next() {
            None => {
                proof {
                    if from <= total {
                        lemma_first_at_is(text@, mark, from as int, total as int);
                    }
                }
                return total;
            },
            Some(c) => {
                if index >= from && c == mark {
                    proof {
                        lemma_first_at_is(text@, mark, from as int, index as int);
                    }
                    return index;
                }
                index = index + 1;
            },
        }
    }
}

/// Whether two strings hold the same characters.
pub fn same_text(left: &str, right: &str) -> (same: bool)
    ensures
        same == (left@ == right@),
{
    let mut ours = left.chars();
    let mut theirs = right.chars();
    let ghost mut index: int = 0;
    loop
        invariant
            ours.obeys_prophetic_iter_laws(),
            theirs.obeys_prophetic_iter_laws(),
            0 <= index <= left@.len(),
            index <= right@.len(),
            ours.remaining() == left@.skip(index),
            theirs.remaining() == right@.skip(index),
            left@.take(index) == right@.take(index),
        decreases left@.len() - index,
    {
        match ours.next() {
            None => {
                let ended = theirs.next().is_none();
                proof {
                    assert(left@.take(index) == left@);
                    if ended {
                        assert(right@.take(index) == right@);
                    }
                }
                return ended;
            },
            Some(mine) => {
                match theirs.next() {
                    None => {
                        return false;
                    },
                    Some(other) => {
                        if mine != other {
                            assert(left@[index] != right@[index]);
                            return false;
                        }
                        proof {
                            assert(left@.take(index + 1) == left@.take(index).push(
                                left@[index],
                            ));
                            assert(right@.take(index + 1) == right@.take(index).push(
                                right@[index],
                            ));
                            index = index + 1;
                        }
                    },
                }
            },
        }
    }
}

/// An attribute word begins with `=` and holds a second `=` that ends its key.
pub open spec fn is_attribute(word: Seq<char>) -> bool {
    word.len() > 0 && word[0] == '=' && first_at(word, '=', 1) < word.len()
}

/// The key of an attribute word: what stands between its first two `=`.
pub open spec fn attribute_key(word: Seq<char>) -> Seq<char> {
    word.subrange(1, first_at(word, '=', 1))
}

/// The value of an attribute word: all that follows its second `=`, further
/// `=` included.
pub open spec fn attribute_value(word: Seq<char>) -> Seq<char> {
    word.subrange(first_at(word, '=', 1) + 1, word.len() as int)
}

/// The attribute word that carries `key` and `value`.
pub open spec fn attribute_word(key: Seq<char>, value: Seq<char>) -> Seq<char> {
    seq!['='] + key + seq!['='] + value
}

/// An attribute word is its key and value behind one `=` each, and its key
/// holds no `=`.
pub proof fn lemma_attribute_parts(word: Seq<char>)
    requires
        is_attribute(word),
    ensures
        word == attribute_word(attribute_key(word), attribute_value(word)),
        !attribute_key(word).contains('='),
{
    lemma_first_at(word, '=', 1);
    assert(word =~= attribute_word(attribute_key(word), attribute_value(word)));
}

/// A key without `=` and any value make an attribute word that splits back
/// into that key and that value.
pub proof fn lemma_attribute_word(key: Seq<char>, value: Seq<char>)
    requires
        !key.contains('='),
    ensures
        is_attribute(attribute_word(key, value)),
        attribute_key(attribute_word(key, value)) == key,
        attribute_value(attribute_word(key, value)) == value,
{
    let word = attribute_word(key, value);
    assert forall|k: int| 1 <= k < 1 + key.len() implies word[k] != '=' by {
        assert(word[k] == key[k - 1]);
    }
    lemma_first_at_is(word, '=', 1, 1 + key.len() as int);
    assert(attribute_key(word) =~= key);
    assert(attribute_value(word) =~= value);
}

/// Splits an attribute word into its key and value; `None` for any other word.
pub fn split_attribute(word: &str) -> (parts: Option<(String, String)>)
    ensures
        parts is Some <==> is_attribute(word@),
        parts matches Some((key, value)) ==> key@ == attribute_key(word@) && value@
            == attribute_value(word@),
{
    let total: usize = word.unicode_len();
    if total == 0 || word.get_char(0) != '=' {
        return None;
    }
    let end: usize = find_char(word, '=', 1);
    proof {
        lemma_first_at(word@, '=', 1);
    }
    if end == total {
        return None;
    }
    let key = word.substring_char(1, end).to_owned();
    let value = word.substring_char(end + 1, total).to_owned();
    Some((key, value))
}

/// The strict boolean of the protocol: the text `true` is true, and any
/// other text, the empty one too, is false.
pub open spec fn is_true(text: Seq<char>) -> bool {
    text == "true"@
}

/// Reads a boolean of the protocol.
pub fn parse_boolean(val: &str) -> (flag: bool)
    ensures
        flag == is_true(val@),
{
    same_text(val, "true")
}

} // verus!
