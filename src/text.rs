//! Character-level helpers shared by the line-oriented parsers.

use vstd::prelude::*;

verus! {

/// The pieces of `s` between occurrences of `sep`, built up one character at a
/// time: a separator opens a new, empty piece; any other character extends the
/// last one. There is always at least one piece.
pub open spec fn split_spec(s: Seq<char>, sep: char) -> Seq<Seq<char>>
    decreases s.len(),
{
    if s.len() == 0 {
        seq![Seq::<char>::empty()]
    } else {
        let prev = split_spec(s.drop_last(), sep);
        if s.last() == sep {
            prev.push(Seq::<char>::empty())
        } else {
            prev.update(prev.len() - 1, prev.last().push(s.last()))
        }
    }
}

/// The characters of `s`, in order.
pub fn chars_of(s: &str) -> (r: Vec<char>)
    ensures
        r@ == s@,
{
    let mut r: Vec<char> = Vec::new();
    for c in it: s.chars()
        invariant
            it.seq() == s@,
            r@ == it.seq().subrange(0, it.index() as int),
    {
        r.push(c);
    }
    r
}

/// The views of a sequence of character vectors.
pub open spec fn views(v: Seq<Vec<char>>) -> Seq<Seq<char>> {
    v.map_values(|p: Vec<char>| p@)
}

/// Splits `cs` at every occurrence of `sep`.
pub fn split_chars(cs: &Vec<char>, sep: char) -> (r: Vec<Vec<char>>)
    ensures
        views(r@) == split_spec(cs@, sep),
{
    let mut pieces: Vec<Vec<char>> = Vec::new();
    let mut cur: Vec<char> = Vec::new();
    for i in 0..cs.len()
        invariant
            views(pieces@).push(cur@) == split_spec(cs@.subrange(0, i as int), sep),
    {
        let c = cs[i];
        let ghost before = cs@.subrange(0, i as int);
        let ghost after = cs@.subrange(0, i + 1);
        assert(after.drop_last() =~= before);
        assert(after.last() == c);
        if c == sep {
            pieces.push(cur);
            cur = Vec::new();
            assert(views(pieces@).push(cur@) =~= split_spec(after, sep));
        } else {
            let ghost old_cur = cur@;
            cur.push(c);
            assert(views(pieces@).push(cur@) =~= views(pieces@).push(old_cur).update(
                views(pieces@).len() as int,
                old_cur.push(c),
            ));
        }
    }
    assert(cs@.subrange(0, cs@.len() as int) =~= cs@);
    pieces.push(cur);
    assert(views(pieces@) =~= split_spec(cs@, sep));
    pieces
}

/// A line with one trailing carriage return removed, so that both `\n` and
/// `\r\n` line endings are accepted.
pub open spec fn strip_cr(line: Seq<char>) -> Seq<char> {
    if line.len() > 0 && line.last() == '\r' {
        line.drop_last()
    } else {
        line
    }
}

/// The lines of `text`, split at `\n`, each without its trailing `\r`.
pub open spec fn lines_spec(text: Seq<char>) -> Seq<Seq<char>> {
    split_spec(text, '\n').map_values(|l: Seq<char>| strip_cr(l))
}

/// Splits `cs` into lines.
pub fn split_lines(cs: &Vec<char>) -> (r: Vec<Vec<char>>)
    ensures
        views(r@) == lines_spec(cs@),
{
    let raw = split_chars(cs, '\n');
    let mut lines: Vec<Vec<char>> = Vec::new();
    for i in 0..raw.len()
        invariant
            views(raw@) == split_spec(cs@, '\n'),
            views(lines@) == lines_spec(cs@).subrange(0, i as int),
    {
        let mut line = raw[i].clone();
        assert(line@ == raw@[i as int]@);
        let n = line.len();
        if n > 0 && line[n - 1] == '\r' {
            line.pop();
        }
        assert(views(raw@)[i as int] == raw@[i as int]@);
        assert(line@ == strip_cr(raw@[i as int]@));
        assert(lines_spec(cs@)[i as int] == strip_cr(split_spec(cs@, '\n')[i as int]));
        let ghost prev = views(lines@);
        lines.push(line);
        assert(views(lines@) =~= prev.push(strip_cr(raw@[i as int]@)));
        assert(views(lines@) =~= lines_spec(cs@).subrange(0, i + 1));
    }
    assert(lines_spec(cs@).subrange(0, raw@.len() as int) =~= lines_spec(cs@));
    lines
}

pub open spec fn is_digit(c: char) -> bool {
    '0' <= c && c <= '9'
}

/// The value of a string of decimal digits.
pub open spec fn digits_value(s: Seq<char>) -> nat
    decreases s.len(),
{
    if s.len() == 0 {
        0
    } else {
        digits_value(s.drop_last()) * 10 + ((s.last() as nat) - ('0' as nat)) as nat
    }
}

/// `s` read as a decimal `u32`: one or more ASCII digits whose value fits.
pub open spec fn decimal_u32(s: Seq<char>) -> Option<u32> {
    if s.len() > 0 && (forall|i: int| 0 <= i < s.len() ==> is_digit(#[trigger] s[i]))
        && digits_value(s) <= u32::MAX {
        Some(digits_value(s) as u32)
    } else {
        None
    }
}

proof fn lemma_digits_value_grows(s: Seq<char>, j: int)
    requires
        0 <= j <= s.len(),
        forall|i: int| 0 <= i < s.len() ==> is_digit(#[trigger] s[i]),
    ensures
        digits_value(s.subrange(0, j)) <= digits_value(s),
    decreases s.len(),
{
    if j < s.len() {
        let p = s.drop_last();
        assert(p.subrange(0, j) =~= s.subrange(0, j));
        lemma_digits_value_grows(p, j);
    } else {
        assert(s.subrange(0, j) =~= s);
    }
}

/// Reads `cs` as a decimal `u32`.
pub fn parse_u32(cs: &Vec<char>) -> (r: Option<u32>)
    ensures
        r == decimal_u32(cs@),
{
    if cs.len() == 0 {
        return None;
    }
    let mut value: u64 = 0;
    for i in 0..cs.len()
        invariant
            value <= u32::MAX,
            value == digits_value(cs@.subrange(0, i as int)),
            forall|k: int| 0 <= k < i ==> is_digit(#[trigger] cs@[k]),
    {
        let c = cs[i];
        let ghost pre = cs@.subrange(0, i + 1);
        assert(pre.drop_last() =~= cs@.subrange(0, i as int));
        if !('0' <= c && c <= '9') {
            return None;
        }
        assert(is_digit(c));
        value = value * 10 + ((c as u64) - ('0' as u64));
        if value > 4294967295u64 {
            proof {
                if forall|k: int| 0 <= k < cs@.len() ==> is_digit(#[trigger] cs@[k]) {
                    lemma_digits_value_grows(cs@, i + 1);
                }
            }
            return None;
        }
    }
    assert(cs@.subrange(0, cs@.len() as int) =~= cs@);
    Some(value as u32)
}

/// Relies on `String::from_iter` over `char`s: the string holding exactly the
/// characters of `cs`, in order.
#[verifier::external_body]
pub(crate) fn string_from_chars(cs: &Vec<char>) -> (r: String)
    ensures
        r@ == cs@,
{
    String::from_iter(cs.iter())
}

} // verus!
