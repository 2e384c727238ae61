//! The count reporter: lines, words and bytes of a text.
use vstd::prelude::*;
use vstd::utf8::encode_utf8;

use crate::text::{
    chars_of, decimal, is_space, is_space_char, lemma_pieces_nonempty, lines_of, pieces, push_all,
    push_decimal, split_lines, string_of,
};

verus! {

/// The number of words of `s`: maximal runs of characters that are not
/// white space.
pub open spec fn word_count(s: Seq<char>) -> nat
    decreases s.len(),
{
    if s.len() == 0 {
        0
    } else {
        let w = word_count(s.drop_last());
        if !is_space(s.last()) && (s.len() == 1 || is_space(s[s.len() - 2])) {
            w + 1
        } else {
            w
        }
    }
}

/// The number of bytes of `s` in UTF-8.
pub open spec fn byte_count(s: Seq<char>) -> nat {
    encode_utf8(s).len()
}

/// The number of words of `cs`.
pub fn count_words(cs: &Vec<char>) -> (r: usize)
    ensures
        r == word_count(cs@),
{
    let mut n: usize = 0;
    let mut i: usize = 0;
    while i < cs.len()
        invariant
            i <= cs.len(),
            n == word_count(cs@.take(i as int)),
            n <= i,
        decreases cs.len() - i,
    {
        proof {
            let t = cs@.take(i + 1);
            assert(t.drop_last() =~= cs@.take(i as int));
            assert(t.last() == cs@[i as int]);
            if i > 0 {
                assert(t[t.len() - 2] == cs@[i - 1]);
            }
        }
        if !is_space_char(cs[i]) && (i == 0 || is_space_char(cs[i - 1])) {
            n += 1;
        }
        i += 1;
    }
    assert(cs@.take(cs@.len() as int) =~= cs@);
    n
}

/// The number of lines, of words and of bytes of `content`.
pub fn get_file_counts(content: String) -> (r: (usize, usize, usize))
    ensures
        r.0 == lines_of(content@).len(),
        r.1 == word_count(content@),
        r.2 == byte_count(content@),
{
    if content.as_str().is_empty() {
        assert(pieces(content@) =~= seq![Seq::<char>::empty()]);
        assert(lines_of(content@).len() == 0);
        assert(encode_utf8(content@).len() == 0);
        return (0, 0, 0);
    }
    let cs = chars_of(content.as_str());
    let line_count = split_lines(&cs).len();
    let word_count = count_words(&cs);
    let byte_count = content.as_str().as_bytes().len();
    (line_count, word_count, byte_count)
}

/// The counts that are shown: those selected, in the order lines, words,
/// bytes; all three when none is selected.
pub open spec fn shown(
    counts: (usize, usize, usize),
    lines: bool,
    words: bool,
    bytes: bool,
) -> Seq<nat> {
    if !lines && !words && !bytes {
        seq![counts.0 as nat, counts.1 as nat, counts.2 as nat]
    } else {
        (if lines {
            seq![counts.0 as nat]
        } else {
            Seq::empty()
        }) + (if words {
            seq![counts.1 as nat]
        } else {
            Seq::empty()
        }) + (if bytes {
            seq![counts.2 as nat]
        } else {
            Seq::empty()
        })
    }
}

/// The decimal numerals of `ns`, separated by single spaces.
pub open spec fn spaced(ns: Seq<nat>) -> Seq<char>
    decreases ns.len(),
{
    if ns.len() == 0 {
        Seq::empty()
    } else if ns.len() == 1 {
        decimal(ns[0])
    } else {
        spaced(ns.drop_last()).push(' ') + decimal(ns.last())
    }
}

/// The report line: the counts shown, a space, `label`, and a newline.
pub fn report(
    counts: (usize, usize, usize),
    lines: bool,
    words: bool,
    bytes: bool,
    label: &str,
) -> (r: String)
    ensures
        r@ == (spaced(shown(counts, lines, words, bytes)).push(' ') + label@).push('\n'),
{
    let mut picked: Vec<usize> = Vec::new();
    if !lines && !words && !bytes {
        picked.push(counts.0);
        picked.push(counts.1);
        picked.push(counts.2);
    } else {
        if lines {
            picked.push(counts.0);
        }
        if words {
            picked.push(counts.1);
        }
        if bytes {
            picked.push(counts.2);
        }
    }
    let ghost ns = shown(counts, lines, words, bytes);
    assert(picked@.map_values(|n: usize| n as nat) =~= ns);
    let mut out: Vec<char> = Vec::new();
    let mut i: usize = 0;
    while i < picked.len()
        invariant
            i <= picked.len(),
            picked@.map_values(|n: usize| n as nat) == ns,
            out@ == spaced(ns.take(i as int)),
        decreases picked.len() - i,
    {
        proof {
            assert(ns.take(i + 1).drop_last() =~= ns.take(i as int));
        }
        if i > 0 {
            out.push(' ');
        }
        push_decimal(&mut out, picked[i]);
        i += 1;
        proof {
            if i == 1 {
                assert(out@ =~= spaced(ns.take(i as int)));
            } else {
                assert(out@ =~= spaced(ns.take(i as int)));
            }
        }
    }
    assert(ns.take(ns.len() as int) =~= ns);
    out.push(' ');
    let label_chars = chars_of(label);
    push_all(&mut out, &label_chars);
    out.push('\n');
    string_of(&out)
}

proof fn lemma_lines_push(s: Seq<char>, c: char)
    ensures
        lines_of(s.push(c)).len() >= lines_of(s).len(),
{
    lemma_pieces_nonempty(s);
    assert(s.push(c).drop_last() =~= s);
}

proof fn lemma_encode_concat(s: Seq<char>, t: Seq<char>)
    ensures
        encode_utf8(s + t) == encode_utf8(s) + encode_utf8(t),
    decreases s.len(),
{
    if s.len() == 0 {
        assert(s + t =~= t);
        assert(encode_utf8(s) + encode_utf8(t) =~= encode_utf8(t));
    } else {
        lemma_encode_concat(s.drop_first(), t);
        assert((s + t).drop_first() =~= s.drop_first() + t);
        assert((s + t)[0] == s[0]);
        assert(encode_utf8(s + t) =~= encode_utf8(s) + encode_utf8(t));
    }
}

/// Appending text to a file never lowers its line, word or byte count.
pub proof fn lemma_counts_grow(s: Seq<char>, t: Seq<char>)
    ensures
        lines_of(s + t).len() >= lines_of(s).len(),
        word_count(s + t) >= word_count(s),
        byte_count(s + t) >= byte_count(s),
    decreases t.len(),
{
    lemma_encode_concat(s, t);
    if t.len() == 0 {
        assert(s + t =~= s);
    } else {
        let u = t.drop_last();
        lemma_counts_grow(s, u);
        assert(s + t =~= (s + u).push(t.last()));
        assert((s + u).push(t.last()).drop_last() =~= s + u);
        lemma_lines_push(s + u, t.last());
    }
}

} // verus!
