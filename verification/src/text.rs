//! Widths of characters, on screen and in storage, and the two ways of
//! measuring a run of text that follow from them.
//!
//! A position inside a line is known by two numbers: the screen column at
//! which it is drawn, and the offset in bytes at which it would be found if
//! the line were stored as UTF-8. Both are sums over the characters that
//! precede the position, and this module defines those sums.

use vstd::prelude::*;


verus! {

/// Columns that a tab occupies on screen.
pub const TAB_SIZE: usize = 4;

/// The longest line that the library holds, in characters. Every character is
/// at most four columns wide and four bytes long, so that both measures of a
/// line of this length fit a machine word.
pub const MAX_LINE_LEN: usize = usize::MAX / 4;

/// Columns that `c` occupies on screen: a tab takes `TAB_SIZE`, any other
/// character one.
pub open spec fn char_width(c: char) -> nat {
    if c == '\t' {
        4
    } else {
        1
    }
}

/// Bytes that `c` occupies when written as UTF-8.
pub open spec fn char_len(c: char) -> nat {
    let v = c as u32;
    if v < 0x80 {
        1
    } else if v < 0x800 {
        2
    } else if v < 0x1_0000 {
        3
    } else {
        4
    }
}

/// Columns that the characters of `s` occupy together.
pub open spec fn display_width(s: Seq<char>) -> nat
    decreases s.len(),
{
    if s.len() == 0 {
        0
    } else {
        display_width(s.drop_last()) + char_width(s.last())
    }
}

/// Bytes that the characters of `s` occupy together when written as UTF-8.
pub open spec fn byte_len(s: Seq<char>) -> nat
    decreases s.len(),
{
    if s.len() == 0 {
        0
    } else {
        byte_len(s.drop_last()) + char_len(s.last())
    }
}

/// The character position that a byte offset stands for: the number of
/// leading characters of `s` that fit into `byte` bytes. An offset past the
/// end of `s` stands for its end, and one that falls inside a character stands
/// for the start of that character.
pub open spec fn char_pos(s: Seq<char>, byte: nat) -> nat
    decreases s.len(),
{
    if s.len() == 0 {
        0
    } else if byte_len(s) <= byte {
        s.len()
    } else {
        char_pos(s.drop_last(), byte)
    }
}

/// The character position that a screen column stands for: the number of
/// leading characters of `s` that fit into `display` columns. A column past
/// the end of `s` stands for its end, and one that falls inside a tab stands
/// for the start of that tab.
pub open spec fn column_pos(s: Seq<char>, display: nat) -> nat
    decreases s.len(),
{
    if s.len() == 0 {
        0
    } else if display_width(s) <= display {
        s.len()
    } else {
        column_pos(s.drop_last(), display)
    }
}

/// Whether `s` holds no newline.
pub open spec fn newline_free(s: Seq<char>) -> bool {
    forall|i: int| 0 <= i < s.len() ==> s[i] != '\n'
}

/// Whether `s` can be a line: it holds no newline and is no longer than
/// `MAX_LINE_LEN`.
pub open spec fn is_line(s: Seq<char>) -> bool {
    newline_free(s) && s.len() <= MAX_LINE_LEN
}

/// A text without newlines stays without them when a character other than a
/// newline is put into it.
pub proof fn lemma_newline_free_insert(s: Seq<char>, k: int, c: char)
    requires
        newline_free(s),
        c != '\n',
        0 <= k <= s.len(),
    ensures
        newline_free(s.insert(k, c)),
{
    assert forall|i: int| 0 <= i < s.insert(k, c).len() implies s.insert(k, c)[i] != '\n' by {
        if i < k {
            assert(s.insert(k, c)[i] == s[i]);
        } else if i > k {
            assert(s.insert(k, c)[i] == s[i - 1]);
        }
    }
}

/// What is cut out of a text without newlines, and what is left of it, is
/// without newlines too.
pub proof fn lemma_newline_free_parts(s: Seq<char>, i: int, j: int)
    requires
        newline_free(s),
        0 <= i <= j <= s.len(),
    ensures
        newline_free(s.take(i)),
        newline_free(s.skip(j)),
        newline_free(s.subrange(i, j)),
        newline_free(s.take(i) + s.skip(j)),
{
    assert forall|n: int| 0 <= n < (s.take(i) + s.skip(j)).len() implies (s.take(i) + s.skip(
        j,
    ))[n] != '\n' by {
        if n < i {
            assert((s.take(i) + s.skip(j))[n] == s[n]);
        } else {
            assert((s.take(i) + s.skip(j))[n] == s[n - i + j]);
        }
    }
}

/// Two texts without newlines, set side by side, are without newlines.
pub proof fn lemma_newline_free_concat(a: Seq<char>, b: Seq<char>)
    requires
        newline_free(a),
        newline_free(b),
    ensures
        newline_free(a + b),
{
    assert forall|n: int| 0 <= n < (a + b).len() implies (a + b)[n] != '\n' by {
        if n < a.len() {
            assert((a + b)[n] == a[n]);
        } else {
            assert((a + b)[n] == b[n - a.len()]);
        }
    }
}

/// Measuring one more character adds its width.
pub proof fn lemma_display_width_step(s: Seq<char>, k: int)
    requires
        0 <= k < s.len(),
    ensures
        display_width(s.take(k + 1)) == display_width(s.take(k)) + char_width(s[k]),
{
    assert(s.take(k + 1).drop_last() =~= s.take(k));
}

/// Measuring one more character adds its length.
pub proof fn lemma_byte_len_step(s: Seq<char>, k: int)
    requires
        0 <= k < s.len(),
    ensures
        byte_len(s.take(k + 1)) == byte_len(s.take(k)) + char_len(s[k]),
{
    assert(s.take(k + 1).drop_last() =~= s.take(k));
}

/// The length of two runs of text set side by side is the sum of their lengths.
pub proof fn lemma_byte_len_concat(a: Seq<char>, b: Seq<char>)
    ensures
        byte_len(a + b) == byte_len(a) + byte_len(b),
    decreases b.len(),
{
    if b.len() == 0 {
        assert(a + b =~= a);
    } else {
        assert((a + b).drop_last() =~= a + b.drop_last());
        lemma_byte_len_concat(a, b.drop_last());
    }
}

/// Every character is between one and four columns wide, and between one and
/// four bytes long.
pub proof fn lemma_measures_bounded(s: Seq<char>)
    ensures
        s.len() <= display_width(s) <= 4 * s.len(),
        s.len() <= byte_len(s) <= 4 * s.len(),
    decreases s.len(),
{
    if s.len() > 0 {
        lemma_measures_bounded(s.drop_last());
    }
}

/// A longer prefix measures strictly more, in columns and in bytes.
pub proof fn lemma_measures_increase(s: Seq<char>, i: int, j: int)
    requires
        0 <= i < j <= s.len(),
    ensures
        display_width(s.take(i)) < display_width(s.take(j)),
        byte_len(s.take(i)) < byte_len(s.take(j)),
    decreases j - i,
{
    lemma_display_width_step(s, j - 1);
    lemma_byte_len_step(s, j - 1);
    if i < j - 1 {
        lemma_measures_increase(s, i, j - 1);
    }
}

/// What `char_pos` picks: the one position whose prefix fits into `byte`
/// bytes while the prefix one character longer does not.
pub proof fn lemma_char_pos(s: Seq<char>, byte: nat, k: int)
    requires
        0 <= k <= s.len(),
        byte_len(s.take(k)) <= byte,
        k < s.len() ==> byte < byte_len(s.take(k + 1)),
    ensures
        char_pos(s, byte) == k,
    decreases s.len(),
{
    if s.len() == 0 {
    } else if k == s.len() {
        assert(s.take(k) =~= s);
    } else {
        if k + 1 < s.len() {
            lemma_measures_increase(s, k + 1, s.len() as int);
        }
        assert(s.take(s.len() as int) =~= s);
        let t = s.drop_last();
        assert(t.take(k) =~= s.take(k));
        if k < t.len() {
            assert(t.take(k + 1) =~= s.take(k + 1));
        }
        lemma_char_pos(t, byte, k);
    }
}

/// What `column_pos` picks: the one position whose prefix fits into
/// `display` columns while the prefix one character longer does not.
pub proof fn lemma_column_pos(s: Seq<char>, display: nat, k: int)
    requires
        0 <= k <= s.len(),
        display_width(s.take(k)) <= display,
        k < s.len() ==> display < display_width(s.take(k + 1)),
    ensures
        column_pos(s, display) == k,
    decreases s.len(),
{
    if s.len() == 0 {
    } else if k == s.len() {
        assert(s.take(k) =~= s);
    } else {
        if k + 1 < s.len() {
            lemma_measures_increase(s, k + 1, s.len() as int);
        }
        assert(s.take(s.len() as int) =~= s);
        let t = s.drop_last();
        assert(t.take(k) =~= s.take(k));
        if k < t.len() {
            assert(t.take(k + 1) =~= s.take(k + 1));
        }
        lemma_column_pos(t, display, k);
    }
}

/// `char_pos` lies inside the text; its prefix fits into the offset, and no
/// longer prefix does.
pub proof fn lemma_char_pos_fits(s: Seq<char>, byte: nat)
    ensures
        char_pos(s, byte) <= s.len(),
        byte_len(s.take(char_pos(s, byte) as int)) <= byte,
        char_pos(s, byte) < s.len() ==> byte < byte_len(s.take(char_pos(s, byte) as int + 1)),
    decreases s.len(),
{
    if s.len() == 0 {
        assert(s.take(0) =~= s);
    } else if byte_len(s) <= byte {
        assert(s.take(s.len() as int) =~= s);
    } else {
        let t = s.drop_last();
        let k = char_pos(t, byte) as int;
        lemma_char_pos_fits(t, byte);
        assert(t.take(k) =~= s.take(k));
        if k < t.len() {
            assert(t.take(k + 1) =~= s.take(k + 1));
        } else {
            assert(s.take(k + 1) =~= s);
        }
    }
}

/// `column_pos` lies inside the text; its prefix fits into the column, and no
/// longer prefix does.
pub proof fn lemma_column_pos_fits(s: Seq<char>, display: nat)
    ensures
        column_pos(s, display) <= s.len(),
        display_width(s.take(column_pos(s, display) as int)) <= display,
        column_pos(s, display) < s.len() ==> display < display_width(
            s.take(column_pos(s, display) as int + 1),
        ),
    decreases s.len(),
{
    if s.len() == 0 {
        assert(s.take(0) =~= s);
    } else if display_width(s) <= display {
        assert(s.take(s.len() as int) =~= s);
    } else {
        let t = s.drop_last();
        let k = column_pos(t, display) as int;
        lemma_column_pos_fits(t, display);
        assert(t.take(k) =~= s.take(k));
        if k < t.len() {
            assert(t.take(k + 1) =~= s.take(k + 1));
        } else {
            assert(s.take(k + 1) =~= s);
        }
    }
}

/// Columns that `c` occupies on screen.
pub fn width_of(c: char) -> (w: usize)
    ensures
        w == char_width(c),
{
    if c == '\t' {
        TAB_SIZE
    } else {
        1
    }
}

/// Bytes that `c` occupies when written as UTF-8.
pub fn len_of(c: char) -> (n: usize)
    ensures
        n == char_len(c),
{
    let v: u32 = c as u32;
    if v < 0x80 {
        1
    } else if v < 0x800 {
        2
    } else if v < 0x1_0000 {
        3
    } else {
        4
    }
}

/// Whether `c` is a letter or a digit, as Unicode classes them.
pub uninterp spec fn is_alphanumeric(c: char) -> bool;

/// Calls `char::is_alphanumeric`. The answer depends on the character alone;
/// which characters Unicode counts as letters and digits is not restated
/// here, so the contract only names the answer.
#[verifier::external_body]
pub(crate) fn alphanumeric(c: char) -> (b: bool)
    ensures
        b == is_alphanumeric(c),
{
    c.is_alphanumeric()
}

/// Calls `String::push`, which appends one character to the end of a string.
#[verifier::external_body]
pub(crate) fn string_push(s: &mut String, c: char)
    ensures
        final(s)@ == old(s)@.push(c),
{
    s.push(c)
}

/// The characters of `text`, in order.
pub fn to_chars(text: &str) -> (chars: Vec<char>)
    ensures
        chars@ == text@,
{
    let mut chars: Vec<char> = Vec::new();
    let iter = text.chars();
    for c in it: iter
        invariant
            chars@ == it.seq().take(it.index@),
    {
        chars.push(c);
    }
    chars
}

/// A string made of `chars`, in order.
pub fn to_text(chars: &Vec<char>) -> (text: String)
    ensures
        text@ == chars@,
{
    let mut text = String::new();
    let mut i: usize = 0;
    while i < chars.len()
        invariant
            0 <= i <= chars.len(),
            text@ == chars@.take(i as int),
        decreases chars.len() - i,
    {
        string_push(&mut text, chars[i]);
        assert(chars@.take(i + 1) =~= chars@.take(i as int).push(chars@[i as int]));
        i += 1;
    }
    assert(chars@.take(chars.len() as int) =~= chars@);
    text
}

} // verus!
