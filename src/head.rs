//! The line limiter: the first lines of a text, or its first bytes.
use vstd::prelude::*;
use vstd::utf8::encode_utf8;

use crate::text::{
    chars_of, decimal, lines_of, push_decimal, push_terminated, rows, split_lines, string_of,
    strings_of, terminated, texts,
};

verus! {

/// Whether `c` is an ASCII decimal digit.
pub open spec fn is_digit(c: char) -> bool {
    0x30 <= c as u32 <= 0x39
}

/// The value of the decimal digits `ds`.
pub open spec fn digits_value(ds: Seq<char>) -> nat
    decreases ds.len(),
{
    if ds.len() == 0 {
        0
    } else {
        digits_value(ds.drop_last()) * 10 + (ds.last() as u32 - 0x30) as nat
    }
}

/// Whether every character of `ds` is a decimal digit.
pub open spec fn all_digits(ds: Seq<char>) -> bool {
    forall|i: int| 0 <= i < ds.len() ==> is_digit(#[trigger] ds[i])
}

/// `s` without a leading `+` or `-`.
pub open spec fn unsigned_part(s: Seq<char>) -> Seq<char> {
    if s.len() > 0 && (s[0] == '-' || s[0] == '+') {
        s.drop_first()
    } else {
        s
    }
}

/// The `i32` that `s` writes: an optional `+` or `-`, then one or more
/// decimal digits, of a value in range; `None` for any other text.
pub open spec fn parse_int(s: Seq<char>) -> Option<int> {
    let body = unsigned_part(s);
    let v = if s.len() > 0 && s[0] == '-' {
        -digits_value(body)
    } else {
        digits_value(body) as int
    };
    if body.len() > 0 && all_digits(body) && i32::MIN <= v <= i32::MAX {
        Some(v)
    } else {
        None
    }
}

/// The value of `c` when it is a decimal digit.
fn digit_value(c: char) -> (r: Option<u64>)
    ensures
        r matches Some(d) ==> is_digit(c) && d == c as u32 - 0x30,
        r is None ==> !is_digit(c),
{
    if c == '0' {
        Some(0)
    } else if c == '1' {
        Some(1)
    } else if c == '2' {
        Some(2)
    } else if c == '3' {
        Some(3)
    } else if c == '4' {
        Some(4)
    } else if c == '5' {
        Some(5)
    } else if c == '6' {
        Some(6)
    } else if c == '7' {
        Some(7)
    } else if c == '8' {
        Some(8)
    } else if c == '9' {
        Some(9)
    } else {
        None
    }
}

proof fn lemma_digits_grow(ds: Seq<char>, k: int)
    requires
        0 <= k <= ds.len(),
        forall|i: int| 0 <= i < ds.len() ==> is_digit(#[trigger] ds[i]),
    ensures
        digits_value(ds.take(k)) <= digits_value(ds),
    decreases ds.len() - k,
{
    if k < ds.len() {
        lemma_digits_grow(ds, k + 1);
        assert(ds.take(k + 1).drop_last() =~= ds.take(k));
        assert(is_digit(ds[k]));
    } else {
        assert(ds.take(k) =~= ds);
    }
}

/// Reads the `i32` that `cs` writes, as [`parse_int`] describes it.
fn parse_i32(cs: &Vec<char>) -> (r: Option<i32>)
    ensures
        r matches Some(n) ==> parse_int(cs@) == Some(n as int),
        r is None ==> parse_int(cs@) is None,
{
    let ghost s = cs@;
    let neg = cs.len() > 0 && cs[0] == '-';
    let start: usize = if cs.len() > 0 && (cs[0] == '-' || cs[0] == '+') {
        1
    } else {
        0
    };
    let ghost body = unsigned_part(s);
    assert(body =~= s.subrange(start as int, s.len() as int));
    if start >= cs.len() {
        return None;
    }
    let limit: u64 = 2147483648;
    let mut acc: u64 = 0;
    let mut i: usize = start;
    assert(body.take(0) =~= Seq::<char>::empty());
    while i < cs.len()
        invariant
            start <= i <= cs.len(),
            body == s.subrange(start as int, s.len() as int),
            body == unsigned_part(s),
            neg == (s.len() > 0 && s[0] == '-'),
            s == cs@,
            limit == 2147483648,
            acc <= limit,
            acc == digits_value(body.take(i - start)),
            forall|j: int| 0 <= j < i - start ==> is_digit(#[trigger] body[j]),
        decreases cs.len() - i,
    {
        let c = cs[i];
        assert(body[i - start] == c);
        let d = match digit_value(c) {
            Some(d) => d,
            None => {
                assert(!is_digit(body[i - start]));
                return None;
            },
        };
        let ghost t = body.take(i - start + 1);
        assert(t.drop_last() =~= body.take(i - start));
        assert(t.last() == c);
        acc = acc * 10 + d;
        i += 1;
        if acc > limit {
            proof {
                if all_digits(body) {
                    lemma_digits_grow(body, i - start);
                }
            }
            return None;
        }
    }
    assert(body.take(i - start) =~= body);
    if neg {
        Some((0 - acc as i64) as i32)
    } else if acc <= 2147483647 {
        Some(acc as i32)
    } else {
        None
    }
}

/// Reads a strictly positive count from `val`; on any other text the
/// error hands `val` back.
pub fn parse_positive_int(val: String) -> (r: Result<i32, String>)
    ensures
        r is Ok <==> (parse_int(val@) matches Some(n) && n > 0),
        r matches Ok(n) ==> parse_int(val@) == Some(n as int),
        r matches Err(e) ==> e@ == val@,
{
    let cs = chars_of(val.as_str());
    match parse_i32(&cs) {
        Some(n) => {
            if n > 0 {
                Ok(n)
            } else {
                Err(val)
            }
        },
        None => Err(val),
    }
}

/// The first `n` items of `s`, or all of them when there are fewer.
pub open spec fn first<T>(s: Seq<T>, n: nat) -> Seq<T> {
    if n < s.len() {
        s.take(n as int)
    } else {
        s
    }
}

fn first_rows(ls: &Vec<Vec<char>>, n: usize) -> (r: Vec<Vec<char>>)
    ensures
        rows(r@) == first(rows(ls@), n as nat),
{
    let mut r: Vec<Vec<char>> = Vec::new();
    let mut i: usize = 0;
    let end = if n < ls.len() {
        n
    } else {
        ls.len()
    };
    while i < end
        invariant
            i <= end,
            end <= ls.len(),
            end == if n < ls.len() { n as int } else { ls.len() as int },
            rows(r@) == rows(ls@).take(i as int),
        decreases end - i,
    {
        let mut row: Vec<char> = Vec::new();
        crate::text::push_all(&mut row, &ls[i]);
        let ghost before = r@;
        r.push(row);
        i += 1;
        assert(rows(r@) =~= rows(before).push(row@));
        assert(rows(r@) =~= rows(ls@).take(i as int));
    }
    assert(rows(ls@).take(ls@.len() as int) =~= rows(ls@));
    r
}

/// The first `n` lines of `content`, or all of them when it has fewer.
pub fn head_lines(content: &str, n: usize) -> (r: Vec<String>)
    ensures
        texts(r@) == first(lines_of(content@), n as nat),
{
    let cs = chars_of(content);
    let ls = split_lines(&cs);
    let kept = first_rows(&ls, n);
    strings_of(&kept)
}

/// The first `n` bytes of `content` in UTF-8, or all of them when it has
/// fewer.
pub fn head_bytes(content: &str, n: usize) -> (r: Vec<u8>)
    ensures
        r@ == first(encode_utf8(content@), n as nat),
{
    let bytes = content.as_bytes();
    let end = if n < bytes.len() {
        n
    } else {
        bytes.len()
    };
    let mut r: Vec<u8> = Vec::new();
    let mut i: usize = 0;
    while i < end
        invariant
            i <= end,
            end <= bytes@.len(),
            end == if n < bytes@.len() { n as int } else { bytes@.len() as int },
            r@ == bytes@.take(i as int),
        decreases end - i,
    {
        r.push(bytes[i]);
        i += 1;
        assert(r@ =~= bytes@.take(i as int));
    }
    assert(bytes@.take(bytes@.len() as int) =~= bytes@);
    r
}

/// Each byte as its decimal numeral.
pub open spec fn byte_numerals(bs: Seq<u8>) -> Seq<Seq<char>> {
    Seq::new(bs.len(), |i: int| decimal(bs[i] as nat))
}

fn numeral_rows(bs: &Vec<u8>) -> (r: Vec<Vec<char>>)
    ensures
        rows(r@) == byte_numerals(bs@),
{
    let mut r: Vec<Vec<char>> = Vec::new();
    let mut i: usize = 0;
    while i < bs.len()
        invariant
            i <= bs.len(),
            rows(r@) == byte_numerals(bs@).take(i as int),
        decreases bs.len() - i,
    {
        let mut row: Vec<char> = Vec::new();
        push_decimal(&mut row, bs[i] as usize);
        let ghost before = r@;
        r.push(row);
        i += 1;
        assert(rows(r@) =~= rows(before).push(row@));
        assert(rows(r@) =~= byte_numerals(bs@).take(i as int));
    }
    assert(byte_numerals(bs@).take(bs@.len() as int) =~= byte_numerals(bs@));
    r
}

/// The whole output of the limiter on `content`. With `bytes` given, its
/// count of the first bytes, each as a decimal numeral on a line of its
/// own; else `count`'s number of first lines, each followed by a newline.
/// A count that is no positive number is handed back as the error.
pub fn head_output(content: &str, count: String, bytes: Option<String>) -> (r: Result<
    String,
    String,
>)
    ensures
        bytes matches Some(b) ==> match parse_int(b@) {
            Some(n) if n > 0 => r matches Ok(out) && out@ == terminated(
                byte_numerals(first(encode_utf8(content@), n as nat)),
            ),
            _ => r matches Err(e) && e@ == b@,
        },
        bytes is None ==> match parse_int(count@) {
            Some(n) if n > 0 => r matches Ok(out) && out@ == terminated(
                first(lines_of(content@), n as nat),
            ),
            _ => r matches Err(e) && e@ == count@,
        },
{
    let mut out: Vec<char> = Vec::new();
    match bytes {
        Some(b) => {
            match parse_positive_int(b) {
                Ok(n) => {
                    let taken = head_bytes(content, n as usize);
                    push_terminated(&mut out, &numeral_rows(&taken));
                    assert(out@ =~= terminated(
                        byte_numerals(first(encode_utf8(content@), n as nat)),
                    ));
                },
                Err(e) => {
                    return Err(e);
                },
            }
        },
        None => {
            match parse_positive_int(count) {
                Ok(n) => {
                    let cs = chars_of(content);
                    let ls = split_lines(&cs);
                    push_terminated(&mut out, &first_rows(&ls, n as usize));
                },
                Err(e) => {
                    return Err(e);
                },
            }
        },
    }
    Ok(string_of(&out))
}

} // verus!
