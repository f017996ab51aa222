//! Facts about UTF-8 and UTF-16 lengths of char sequences.

use vstd::prelude::*;
use vstd::utf8::{encode_utf8, encode_scalar};
use crate::rope::{utf8_len, utf16_len, utf16_units, char_of_unit};

verus! {

/// Encoding a concatenation encodes each part in turn.
pub proof fn lemma_encode_utf8_concat(a: Seq<char>, b: Seq<char>)
    ensures
        encode_utf8(a + b) == encode_utf8(a) + encode_utf8(b),
    decreases a.len(),
{
    if a.len() == 0 {
        assert(a + b =~= b);
        assert(encode_utf8(a) =~= Seq::<u8>::empty());
        assert(encode_utf8(a) + encode_utf8(b) =~= encode_utf8(b));
    } else {
        assert((a + b).drop_first() =~= a.drop_first() + b);
        assert((a + b)[0] == a[0]);
        lemma_encode_utf8_concat(a.drop_first(), b);
        assert(encode_utf8(a + b) =~= encode_scalar(a[0] as u32) + encode_utf8(a.drop_first() + b));
        assert(encode_utf8(a) + encode_utf8(b) =~= encode_scalar(a[0] as u32) + (encode_utf8(
            a.drop_first(),
        ) + encode_utf8(b)));
    }
}

/// The UTF-8 length of one char.
pub proof fn lemma_utf8_len_single(c: char)
    ensures
        1 <= utf8_len(seq![c]) <= 4,
        utf8_len(seq![c]) == encode_scalar(c as u32).len(),
{
    assert(seq![c].drop_first() =~= Seq::<char>::empty());
    assert(encode_utf8(seq![c]) =~= encode_scalar(c as u32) + encode_utf8(Seq::<char>::empty()));
    assert(encode_utf8(Seq::<char>::empty()) =~= Seq::<u8>::empty());
}

/// UTF-8 lengths add up over concatenation.
pub proof fn lemma_utf8_len_concat(a: Seq<char>, b: Seq<char>)
    ensures
        utf8_len(a + b) == utf8_len(a) + utf8_len(b),
{
    lemma_encode_utf8_concat(a, b);
}

/// One more char adds one to four bytes.
pub proof fn lemma_utf8_len_take_step(s: Seq<char>, k: int)
    requires
        0 <= k < s.len(),
    ensures
        utf8_len(s.take(k + 1)) == utf8_len(s.take(k)) + utf8_len(seq![s[k]]),
        utf8_len(s.take(k)) < utf8_len(s.take(k + 1)) <= utf8_len(s.take(k)) + 4,
{
    assert(s.take(k + 1) =~= s.take(k) + seq![s[k]]);
    lemma_utf8_len_concat(s.take(k), seq![s[k]]);
    lemma_utf8_len_single(s[k]);
}

/// The byte offset of a char index grows strictly with the index.
pub proof fn lemma_utf8_len_take_strict(s: Seq<char>, j: int, k: int)
    requires
        0 <= j < k <= s.len(),
    ensures
        utf8_len(s.take(j)) < utf8_len(s.take(k)),
    decreases k - j,
{
    lemma_utf8_len_take_step(s, k - 1);
    if j < k - 1 {
        lemma_utf8_len_take_strict(s, j, k - 1);
    }
}

/// The byte offset of a char index is at least the index.
pub proof fn lemma_utf8_len_take_ge(s: Seq<char>, k: int)
    requires
        0 <= k <= s.len(),
    ensures
        k <= utf8_len(s.take(k)) <= utf8_len(s),
    decreases k,
{
    if k > 0 {
        lemma_utf8_len_take_step(s, k - 1);
        lemma_utf8_len_take_ge(s, k - 1);
    }
    if k < s.len() {
        lemma_utf8_len_take_strict(s, k, s.len() as int);
    }
    assert(s.take(s.len() as int) =~= s);
}


/// One more char adds one or two UTF-16 units.
pub proof fn lemma_utf16_len_take_step(s: Seq<char>, k: int)
    requires
        0 <= k < s.len(),
    ensures
        utf16_len(s.take(k + 1)) == utf16_len(s.take(k)) + utf16_units(s[k]),
        utf16_len(s.take(k)) < utf16_len(s.take(k + 1)),
{
    assert(s.take(k + 1).drop_last() =~= s.take(k));
}

/// The UTF-16 offset of a char index grows strictly with the index, and
/// the whole text has the largest.
pub proof fn lemma_utf16_len_take_strict(s: Seq<char>, j: int, k: int)
    requires
        0 <= j < k <= s.len(),
    ensures
        utf16_len(s.take(j)) < utf16_len(s.take(k)),
    decreases k - j,
{
    lemma_utf16_len_take_step(s, k - 1);
    if j < k - 1 {
        lemma_utf16_len_take_strict(s, j, k - 1);
    }
}

/// A text has as many UTF-16 units as its whole prefix, and no fewer than
/// chars.
pub proof fn lemma_utf16_len_bounds(s: Seq<char>)
    ensures
        utf16_len(s.take(s.len() as int)) == utf16_len(s),
        s.len() <= utf16_len(s),
    decreases s.len(),
{
    assert(s.take(s.len() as int) =~= s);
    if s.len() > 0 {
        lemma_utf16_len_bounds(s.drop_last());
    }
}

/// The char that holds a unit: `char_of_unit` is the last char index whose
/// prefix fits in the units (for units within the text).
pub proof fn lemma_char_of_unit(s: Seq<char>, u: int)
    requires
        0 <= u,
    ensures
        0 <= char_of_unit(s, u) <= s.len(),
        utf16_len(s.take(char_of_unit(s, u))) <= u,
        char_of_unit(s, u) < s.len() ==> u < utf16_len(s.take(char_of_unit(s, u) + 1)),
        (char_of_unit(s, u) == s.len()) == (utf16_len(s) <= u),
    decreases s.len(),
{
    lemma_utf16_len_bounds(s);
    if s.len() == 0 || utf16_len(s) <= u {
    } else {
        let d = s.drop_last();
        lemma_char_of_unit(d, u);
        let r = char_of_unit(d, u);
        assert(d.take(r) =~= s.take(r));
        if r < d.len() {
            assert(d.take(r + 1) =~= s.take(r + 1));
        } else {
            assert(d =~= s.take(r));
            assert(s.take(r + 1) =~= s);
        }
    }
}

/// The char index at which a char starts is found again from its UTF-16
/// offset.
pub proof fn lemma_char_of_unit_start(s: Seq<char>, j: int)
    requires
        0 <= j <= s.len(),
    ensures
        char_of_unit(s, utf16_len(s.take(j))) == j,
{
    let u = utf16_len(s.take(j));
    lemma_utf16_len_bounds(s);
    if j > 0 {
        lemma_utf16_len_take_strict(s, 0, j);
    }
    assert(s.take(0) =~= Seq::<char>::empty());
    lemma_char_of_unit(s, u);
    let r = char_of_unit(s, u);
    if r < j {
        if r + 1 < j {
            lemma_utf16_len_take_strict(s, r + 1, j);
        }
    } else if r > j {
        lemma_utf16_len_take_strict(s, j, r);
    }
}

/// A char takes no more UTF-16 units than UTF-8 bytes.
pub proof fn lemma_utf16_units_le_utf8(c: char)
    ensures
        utf16_units(c) <= utf8_len(seq![c]),
{
    lemma_utf8_len_single(c);
}

/// A prefix takes no more UTF-16 units than UTF-8 bytes.
pub proof fn lemma_utf16_len_take_le_utf8(s: Seq<char>, k: int)
    requires
        0 <= k <= s.len(),
    ensures
        utf16_len(s.take(k)) <= utf8_len(s.take(k)),
    decreases k,
{
    if k > 0 {
        lemma_utf16_len_take_le_utf8(s, k - 1);
        lemma_utf16_len_take_step(s, k - 1);
        lemma_utf8_len_take_step(s, k - 1);
        lemma_utf16_units_le_utf8(s[k - 1]);
    } else {
        assert(s.take(0) =~= Seq::<char>::empty());
    }
}

} // verus!
