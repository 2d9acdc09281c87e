//! The lines of a file.

use crate::line::Line;
use crate::reservoir::{
    lemma_segments, lemma_segments_push_char, lemma_segments_push_newline, segments,
};
use crate::text::{newline_free, to_chars, MAX_LINE_LEN};
use vstd::prelude::*;
use vstd::string::StringSliceAdditionalSpecFns;
use vstd::utf8::{decode_utf8, encode_utf8_decode_utf8, valid_utf8};

verus! {

/// Calls `core::str::from_utf8`, which reads bytes as text. It gives the
/// text exactly if the bytes are well-formed UTF-8, and the text is then made
/// of those very bytes.
#[verifier::external_body]
pub(crate) fn decode(bytes: &[u8]) -> (text: Option<&str>)
    ensures
        text is Some <==> valid_utf8(bytes@),
        text is Some ==> text->0.spec_bytes() == bytes@,
{
    match core::str::from_utf8(bytes) {
        Ok(text) => Some(text),
        Err(_) => None,
    }
}

/// Reads the bytes of a file as text. Gives nothing if they are not
/// well-formed UTF-8.
pub fn read_text(bytes: &[u8]) -> (text: Option<&str>)
    ensures
        text is Some <==> valid_utf8(bytes@),
        text is Some ==> text->0@ == decode_utf8(bytes@),
{
    let text = decode(bytes);
    proof {
        if text is Some {
            encode_utf8_decode_utf8(text->0@);
        }
    }
    text
}

/// A line as it is read from a file that ends its lines with a carriage
/// return and a newline: without the carriage return.
pub open spec fn strip_cr(s: Seq<char>) -> Seq<char> {
    if s.len() > 0 && s.last() == '\r' {
        s.drop_last()
    } else {
        s
    }
}

/// The lines of a file that holds `text`. Every newline ends a line, and a
/// carriage return just before it belongs to the line end. What stands after
/// the last newline is a line too, unless nothing stands there.
pub open spec fn file_lines(text: Seq<char>) -> Seq<Seq<char>> {
    let pieces = segments(text);
    let ended = Seq::new((pieces.len() - 1) as nat, |i: int| strip_cr(pieces[i]));
    if pieces.last().len() > 0 {
        ended.push(pieces.last())
    } else {
        ended
    }
}

/// Whether no line of a file that holds `text` is longer than `MAX_LINE_LEN`.
pub open spec fn lines_fit(text: Seq<char>) -> bool {
    forall|i: int|
        0 <= i < file_lines(text).len() ==> (#[trigger] file_lines(text)[i]).len() <= MAX_LINE_LEN
}

/// The texts of a run of lines.
pub open spec fn texts(lines: Seq<Line>) -> Seq<Seq<char>> {
    lines.map_values(|line: Line| line@)
}

/// A run of things from which one is taken out and another put in its place
/// is the run with the one replaced by the other.
pub proof fn lemma_replaced<A>(s: Seq<A>, i: int, a: A)
    requires
        0 <= i < s.len(),
    ensures
        s.remove(i).insert(i, a) == s.update(i, a),
        s.remove(i).insert(i, s[i]) == s,
{
    assert(s.remove(i).insert(i, a) =~= s.update(i, a));
    assert(s.remove(i).insert(i, s[i]) =~= s);
}

/// The pieces of the start of a text, but for the last of them, are pieces of
/// the whole text.
pub proof fn lemma_segments_prefix(s: Seq<char>, n: int)
    requires
        0 <= n <= s.len(),
    ensures
        segments(s.take(n)).len() <= segments(s).len(),
        forall|j: int|
            0 <= j < segments(s.take(n)).len() - 1 ==> segments(s)[j] == #[trigger] segments(
                s.take(n),
            )[j],
    decreases s.len() - n,
{
    lemma_segments(s.take(n));
    if n == s.len() {
        assert(s.take(n) =~= s);
    } else {
        lemma_segments_prefix(s, n + 1);
        lemma_segments(s.take(n + 1));
        assert(s.take(n + 1).drop_last() =~= s.take(n));
        assert forall|j: int| 0 <= j < segments(s.take(n)).len() - 1 implies segments(s)[j]
            == #[trigger] segments(s.take(n))[j] by {
            assert(segments(s.take(n + 1))[j] == segments(s.take(n))[j]);
        }
    }
}

/// Cuts `text` into the lines of a file. Gives nothing if one of the lines
/// is longer than `MAX_LINE_LEN`.
pub fn read_lines(text: &str) -> (read: Option<Vec<Line>>)
    ensures
        read is Some <==> lines_fit(text@),
        read is Some ==> {
            &&& texts(read->0@) == file_lines(text@)
            &&& forall|i: int|
                0 <= i < read->0@.len() ==> (#[trigger] read->0@[i]).wf()
        },
{
    let chars = to_chars(text);
    let mut lines: Vec<Line> = Vec::new();
    let mut current: Vec<char> = Vec::new();
    let mut i: usize = 0;
    proof {
        assert(chars@.take(0) =~= Seq::<char>::empty());
        assert(texts(lines@) =~= Seq::new(0, |j: int| strip_cr(segments(chars@.take(0))[j])));
    }
    while i < chars.len()
        invariant
            chars@ == text@,
            0 <= i <= chars@.len(),
            current@ == segments(chars@.take(i as int)).last(),
            texts(lines@) == Seq::new(
                (segments(chars@.take(i as int)).len() - 1) as nat,
                |j: int| strip_cr(segments(chars@.take(i as int))[j]),
            ),
            forall|j: int|
                0 <= j < lines@.len() ==> (#[trigger] lines@[j]).wf(),
        decreases chars@.len() - i,
    {
        let c = chars[i];
        let ghost before = chars@.take(i as int);
        let ghost after = chars@.take(i + 1);
        proof {
            assert(after =~= before.push(c));
            lemma_segments(before);
            lemma_segments(after);
            lemma_segments_prefix(chars@, i + 1);
        }
        if c == '\n' {
            let len = current.len();
            if len > 0 && current[len - 1] == '\r' {
                current.pop();
            }
            proof {
                lemma_segments_push_newline(before);
                assert(current@ =~= strip_cr(segments(before).last()));
                assert(newline_free(segments(before).last()));
                assert(newline_free(current@));
            }
            let ghost piece = current@;
            let ghost prior = lines@;
            match Line::from_chars(current) {
                Some(line) => {
                    lines.push(line);
                    proof {
                        assert(texts(lines@) =~= texts(prior).push(piece));
                    }
                },
                None => {
                    proof {
                        let at = segments(before).len() - 1;
                        assert(segments(after)[at] == segments(before).last());
                        assert(segments(chars@)[at] == segments(after)[at]);
                        assert(file_lines(chars@)[at] == piece);
                    }
                    return None;
                },
            }
            current = Vec::new();
            proof {
                let old_pieces = segments(before);
                let pieces = segments(after);
                assert(pieces == old_pieces.push(Seq::<char>::empty()));
                assert(texts(lines@) == texts(prior).push(piece));
                assert(texts(lines@) =~= Seq::new(
                    (pieces.len() - 1) as nat,
                    |j: int| strip_cr(pieces[j]),
                ));
            }
        } else {
            current.push(c);
            proof {
                lemma_segments_push_char(before, c);
                let old_pieces = segments(before);
                let pieces = segments(after);
                assert(texts(lines@) =~= Seq::new(
                    (pieces.len() - 1) as nat,
                    |j: int| strip_cr(pieces[j]),
                ));
            }
        }
        i = i + 1;
    }
    proof {
        assert(chars@.take(i as int) =~= chars@);
        lemma_segments(chars@);
    }
    if current.len() > 0 {
        let ghost piece = current@;
        let ghost prior = lines@;
        match Line::from_chars(current) {
            Some(line) => {
                lines.push(line);
                proof {
                    assert(texts(lines@) =~= texts(prior).push(piece));
                    assert(texts(lines@) =~= file_lines(chars@));
                }
            },
            None => {
                proof {
                    let at = segments(chars@).len() - 1;
                    assert(file_lines(chars@)[at] == piece);
                }
                return None;
            },
        }
    }
    proof {
        assert(texts(lines@) =~= file_lines(chars@));
        assert forall|j: int| 0 <= j < file_lines(text@).len() implies (#[trigger] file_lines(
            text@,
        )[j]).len() <= MAX_LINE_LEN by {
            assert(file_lines(text@)[j] == lines@[j]@);
        }
    }
    Some(lines)
}

/// The number of digits of `n`, written in base ten.
pub open spec fn digits(n: nat) -> nat
    decreases n,
{
    if n < 10 {
        1
    } else {
        1 + digits(n / 10)
    }
}

/// The number of digits of `n`, written in base ten.
pub fn count_digits(n: usize) -> (count: u16)
    ensures
        count == digits(n as nat),
        1 <= count <= 20,
{
    let mut rest: usize = n;
    let mut count: u16 = 1;
    proof {
        assert(pow10(0) == 1);
        assert(rest as nat * pow10(0) == rest) by (nonlinear_arith)
            requires
                pow10(0) == 1,
        ;
    }
    while rest >= 10
        invariant
            1 <= count <= 20,
            digits(n as nat) == count - 1 + digits(rest as nat),
            rest as nat * pow10((count - 1) as nat) <= n,
        decreases rest,
    {
        proof {
            lemma_pow10_grows((count - 1) as nat);
            assert(rest as nat * pow10((count - 1) as nat) >= 10 * pow10((count - 1) as nat))
                by (nonlinear_arith)
                requires
                    rest >= 10,
            ;
            assert((rest / 10) as nat * pow10(count as nat) <= rest as nat * pow10(
                (count - 1) as nat,
            )) by (nonlinear_arith)
                requires
                    pow10(count as nat) == 10 * pow10((count - 1) as nat),
            ;
            lemma_pow10_large();
        }
        rest = rest / 10;
        count = count + 1;
    }
    count
}

/// Ten to the power of `e`.
pub open spec fn pow10(e: nat) -> nat
    decreases e,
{
    if e == 0 {
        1
    } else {
        10 * pow10((e - 1) as nat)
    }
}

/// Each power of ten is ten times the one before, and none is zero.
pub proof fn lemma_pow10_grows(e: nat)
    ensures
        pow10(e + 1) == 10 * pow10(e),
        pow10(e) >= 1,
    decreases e,
{
    if e > 0 {
        lemma_pow10_grows((e - 1) as nat);
    }
}

/// Ten to the power of twenty is more than a machine word holds.
pub proof fn lemma_pow10_large()
    ensures
        pow10(20) > usize::MAX,
{
    reveal_with_fuel(pow10, 21);
    assert(pow10(20) == 100_000_000_000_000_000_000nat);
}

} // verus!
