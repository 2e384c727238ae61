//! The line viewer: a text as it is, or with its lines numbered.
use vstd::prelude::*;

use crate::text::{
    chars_of, decimal, lines_of, push_all, push_decimal, push_terminated, rows, split_lines,
    string_of, strings_of, terminated, texts,
};

verus! {

/// Line `l` under number `n`: the numeral, a colon, a space, the line.
pub open spec fn numbered(n: nat, l: Seq<char>) -> Seq<char> {
    decimal(n) + seq![':', ' '] + l
}

/// Every line under its position, counted from one.
pub open spec fn number_all(ls: Seq<Seq<char>>) -> Seq<Seq<char>> {
    Seq::new(ls.len(), |i: int| numbered((i + 1) as nat, ls[i]))
}

/// How many lines of `ls` are not empty.
pub open spec fn non_blank_count(ls: Seq<Seq<char>>) -> nat
    decreases ls.len(),
{
    if ls.len() == 0 {
        0
    } else if ls.last().len() == 0 {
        non_blank_count(ls.drop_last())
    } else {
        non_blank_count(ls.drop_last()) + 1
    }
}

/// Empty lines as they are; every other line under a number that counts
/// the non-empty lines only, from one.
pub open spec fn number_non_blank(ls: Seq<Seq<char>>) -> Seq<Seq<char>> {
    Seq::new(
        ls.len(),
        |i: int|
            if ls[i].len() == 0 {
                ls[i]
            } else {
                numbered(non_blank_count(ls.take(i)) + 1, ls[i])
            },
    )
}

/// How the viewer shows a text.
#[derive(Clone, Copy, Debug, PartialEq, Eq, Structural)]
pub enum Numbering {
    /// The text as it is.
    Plain,
    /// Every line numbered.
    All,
    /// Non-empty lines numbered.
    NonBlank,
}

impl Numbering {
    /// The mode that the two flags ask for; numbering every line wins.
    pub fn from_flags(number: bool, non_blank: bool) -> (r: Numbering)
        ensures
            number ==> r == Numbering::All,
            !number && non_blank ==> r == Numbering::NonBlank,
            !number && !non_blank ==> r == Numbering::Plain,
    {
        if number {
            Numbering::All
        } else if non_blank {
            Numbering::NonBlank
        } else {
            Numbering::Plain
        }
    }
}

fn numbered_row(n: usize, l: &Vec<char>) -> (r: Vec<char>)
    ensures
        r@ == numbered(n as nat, l@),
{
    let mut r: Vec<char> = Vec::new();
    push_decimal(&mut r, n);
    r.push(':');
    r.push(' ');
    push_all(&mut r, l);
    assert(r@ =~= numbered(n as nat, l@));
    r
}

fn number_all_rows(ls: &Vec<Vec<char>>) -> (r: Vec<Vec<char>>)
    ensures
        rows(r@) == number_all(rows(ls@)),
{
    let mut r: Vec<Vec<char>> = Vec::new();
    let mut i: usize = 0;
    while i < ls.len()
        invariant
            i <= ls.len(),
            rows(r@) == number_all(rows(ls@)).take(i as int),
        decreases ls.len() - i,
    {
        let row = numbered_row(i + 1, &ls[i]);
        let ghost before = r@;
        r.push(row);
        i += 1;
        assert(rows(r@) =~= rows(before).push(row@));
        assert(rows(r@) =~= number_all(rows(ls@)).take(i as int));
    }
    assert(number_all(rows(ls@)).take(ls@.len() as int) =~= number_all(rows(ls@)));
    r
}

fn number_non_blank_rows(ls: &Vec<Vec<char>>) -> (r: Vec<Vec<char>>)
    ensures
        rows(r@) == number_non_blank(rows(ls@)),
{
    let ghost all = rows(ls@);
    let mut r: Vec<Vec<char>> = Vec::new();
    let mut count: usize = 0;
    let mut i: usize = 0;
    assert(all.take(0) =~= Seq::<Seq<char>>::empty());
    while i < ls.len()
        invariant
            i <= ls.len(),
            all == rows(ls@),
            count <= i,
            count == non_blank_count(all.take(i as int)),
            rows(r@) == number_non_blank(all).take(i as int),
        decreases ls.len() - i,
    {
        let ghost before = r@;
        assert(all.take(i + 1).drop_last() =~= all.take(i as int));
        if ls[i].len() == 0 {
            let row: Vec<char> = Vec::new();
            assert(row@ =~= all[i as int]);
            r.push(row);
            assert(rows(r@) =~= rows(before).push(row@));
        } else {
            let row = numbered_row(count + 1, &ls[i]);
            r.push(row);
            assert(rows(r@) =~= rows(before).push(row@));
            count += 1;
        }
        i += 1;
        assert(rows(r@) =~= number_non_blank(all).take(i as int));
    }
    assert(number_non_blank(all).take(ls@.len() as int) =~= number_non_blank(all));
    r
}

/// The lines of `content`, each under its position counted from one.
/// There are as many as `content` has lines.
pub fn number_lines(content: &str) -> (r: Vec<String>)
    ensures
        r.len() == lines_of(content@).len(),
        texts(r@) == number_all(lines_of(content@)),
{
    let cs = chars_of(content);
    let ls = split_lines(&cs);
    let numbered = number_all_rows(&ls);
    let r = strings_of(&numbered);
    assert(texts(r@).len() == r@.len());
    r
}

/// The lines of `content`, the non-empty ones numbered among themselves.
pub fn number_non_blank_lines(content: &str) -> (r: Vec<String>)
    ensures
        r.len() == lines_of(content@).len(),
        texts(r@) == number_non_blank(lines_of(content@)),
{
    let cs = chars_of(content);
    let ls = split_lines(&cs);
    let numbered = number_non_blank_rows(&ls);
    let r = strings_of(&numbered);
    assert(texts(r@).len() == r@.len());
    r
}

/// The whole output of the viewer on `content`: the text and a newline, or
/// the numbered lines, each followed by a newline.
pub fn render(content: &str, mode: Numbering) -> (r: String)
    ensures
        mode == Numbering::Plain ==> r@ == content@.push('\n'),
        mode == Numbering::All ==> r@ == terminated(number_all(lines_of(content@))),
        mode == Numbering::NonBlank ==> r@ == terminated(number_non_blank(lines_of(content@))),
{
    let cs = chars_of(content);
    let mut out: Vec<char> = Vec::new();
    match mode {
        Numbering::Plain => {
            push_all(&mut out, &cs);
            out.push('\n');
            assert(out@ =~= content@.push('\n'));
        },
        Numbering::All => {
            let ls = split_lines(&cs);
            push_terminated(&mut out, &number_all_rows(&ls));
            assert(out@ =~= terminated(number_all(lines_of(content@))));
        },
        Numbering::NonBlank => {
            let ls = split_lines(&cs);
            push_terminated(&mut out, &number_non_blank_rows(&ls));
            assert(out@ =~= terminated(number_non_blank(lines_of(content@))));
        },
    }
    string_of(&out)
}

} // verus!
