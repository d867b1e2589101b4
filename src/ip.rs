//! The IP range table: numeric IPv4 ranges mapped to region codes.

use vstd::prelude::*;
use crate::text::{
    chars_of, decimal_u32, lines_spec, parse_u32, split_chars, split_lines,
    split_spec, string_from_chars, views,
};

verus! {

/// One row of the table: the inclusive range `low..=high` lies in `region`.
pub struct Ip {
    pub low: u32,
    pub high: u32,
    pub region: String,
}

impl View for Ip {
    type V = (u32, u32, Seq<char>);

    open spec fn view(&self) -> (u32, u32, Seq<char>) {
        (self.low, self.high, self.region@)
    }
}

/// The table of ranges, in the order in which they were loaded.
pub struct Ips {
    pub ip_list: Vec<Ip>,
}

/// The region reported for an address that no row covers.
pub open spec fn unknown_region() -> Seq<char> {
    seq!['u', 'n', 'k', 'n', 'o', 'w', 'n']
}

pub open spec fn covers(row: (u32, u32, Seq<char>), ip: u32) -> bool {
    row.0 <= ip && ip <= row.1
}

/// The region of the first row that covers `ip`, or `"unknown"`.
pub open spec fn resolve(rows: Seq<(u32, u32, Seq<char>)>, ip: u32) -> Seq<char>
    decreases rows.len(),
{
    if rows.len() == 0 {
        unknown_region()
    } else if covers(rows[0], ip) {
        rows[0].2
    } else {
        resolve(rows.drop_first(), ip)
    }
}

/// No address is covered by two rows.
pub open spec fn disjoint(rows: Seq<(u32, u32, Seq<char>)>) -> bool {
    forall|i: int, j: int, ip: u32|
        0 <= i < rows.len() && 0 <= j < rows.len() && i != j && #[trigger] covers(rows[i], ip)
            ==> !#[trigger] covers(rows[j], ip)
}

/// With disjoint ranges, an address inside the bounds of a row resolves to
/// that row's region.
pub proof fn lemma_resolve_covering_row(rows: Seq<(u32, u32, Seq<char>)>, ip: u32, i: int)
    requires
        disjoint(rows),
        0 <= i < rows.len(),
        covers(rows[i], ip),
    ensures
        resolve(rows, ip) == rows[i].2,
    decreases rows.len(),
{
    if i > 0 {
        assert(!covers(rows[0], ip));
        let rest = rows.drop_first();
        assert(rest[i - 1] == rows[i]);
        assert forall|a: int, b: int, x: u32|
            0 <= a < rest.len() && 0 <= b < rest.len() && a != b && #[trigger] covers(rest[a], x)
                implies !#[trigger] covers(rest[b], x) by {
            assert(rest[a] == rows[a + 1] && rest[b] == rows[b + 1]);
        };
        lemma_resolve_covering_row(rest, ip, i - 1);
    }
}

/// An address outside the bounds of every row resolves to `"unknown"`.
pub proof fn lemma_resolve_uncovered(rows: Seq<(u32, u32, Seq<char>)>, ip: u32)
    requires
        forall|i: int| 0 <= i < rows.len() ==> !#[trigger] covers(rows[i], ip),
    ensures
        resolve(rows, ip) == unknown_region(),
    decreases rows.len(),
{
    if rows.len() > 0 {
        let rest = rows.drop_first();
        assert forall|i: int| 0 <= i < rest.len() implies !#[trigger] covers(rest[i], ip) by {
            assert(rest[i] == rows[i + 1]);
        };
        lemma_resolve_uncovered(rest, ip);
    }
}

/// A line of the range list read as a row: three comma-separated fields, the
/// first two decimal `u32` bounds. Any other line gives no row.
pub open spec fn row_spec(line: Seq<char>) -> Option<(u32, u32, Seq<char>)> {
    let f = split_spec(line, ',');
    if f.len() == 3 && decimal_u32(f[0]) is Some && decimal_u32(f[1]) is Some {
        Some((decimal_u32(f[0])->0, decimal_u32(f[1])->0, f[2]))
    } else {
        None
    }
}

/// The rows of the well-formed lines, in order; malformed lines are skipped.
pub open spec fn rows_spec(lines: Seq<Seq<char>>) -> Seq<(u32, u32, Seq<char>)>
    decreases lines.len(),
{
    if lines.len() == 0 {
        Seq::empty()
    } else {
        let prev = rows_spec(lines.drop_last());
        match row_spec(lines.last()) {
            Some(row) => prev.push(row),
            None => prev,
        }
    }
}

/// The table that a range list in text form describes.
pub open spec fn table_spec(text: Seq<char>) -> Seq<(u32, u32, Seq<char>)> {
    rows_spec(lines_spec(text))
}

/// Reads one line of the range list.
fn parse_row(line: &Vec<char>) -> (r: Option<Ip>)
    ensures
        match r {
            Some(ip) => row_spec(line@) == Some(ip@),
            None => row_spec(line@) is None,
        },
{
    let fields = split_chars(line, ',');
    if fields.len() != 3 {
        return None;
    }
    assert(views(fields@)[0] == fields@[0]@);
    assert(views(fields@)[1] == fields@[1]@);
    assert(views(fields@)[2] == fields@[2]@);
    let low = match parse_u32(&fields[0]) {
        Some(v) => v,
        None => return None,
    };
    let high = match parse_u32(&fields[1]) {
        Some(v) => v,
        None => return None,
    };
    let region = string_from_chars(&fields[2]);
    Some(Ip { low, high, region })
}

impl Ips {
    pub open spec fn rows(&self) -> Seq<(u32, u32, Seq<char>)> {
        self.ip_list@.map_values(|r: Ip| r@)
    }

    /// Builds the table from its text form: one `low,high,region` record per
    /// line. Lines that are not such a record are skipped.
    pub fn parse(text: &str) -> (r: Ips)
        ensures
            r.rows() == table_spec(text@),
    {
        let cs = chars_of(text);
        let lines = split_lines(&cs);
        let mut ip_list: Vec<Ip> = Vec::new();
        for i in 0..lines.len()
            invariant
                views(lines@) == lines_spec(text@),
                ip_list@.map_values(|r: Ip| r@) == rows_spec(lines_spec(text@).subrange(0, i as int)),
        {
            let ghost pre = lines_spec(text@).subrange(0, i + 1);
            assert(pre.drop_last() =~= lines_spec(text@).subrange(0, i as int));
            assert(pre.last() == lines@[i as int]@);
            let ghost before = ip_list@.map_values(|r: Ip| r@);
            match parse_row(&lines[i]) {
                Some(row) => {
                    ip_list.push(row);
                    assert(ip_list@.map_values(|r: Ip| r@) =~= before.push(row@));
                },
                None => {},
            }
        }
        assert(lines_spec(text@).subrange(0, lines@.len() as int) =~= lines_spec(text@));
        Ips { ip_list }
    }

    /// The region of the first row whose range holds `ip`; `"unknown"` when no
    /// row does.
    pub fn get_region(&self, ip: u32) -> (r: String)
        ensures
            r@ == resolve(self.rows(), ip),
    {
        let n = self.ip_list.len();
        assert(self.rows().subrange(0, n as int) =~= self.rows());
        for i in 0..n
            invariant
                n == self.ip_list@.len(),
                resolve(self.rows(), ip) == resolve(self.rows().subrange(i as int, n as int), ip),
        {
            let ghost rest = self.rows().subrange(i as int, n as int);
            assert(rest[0] == self.ip_list@[i as int]@);
            assert(rest.drop_first() =~= self.rows().subrange(i + 1, n as int));
            if ip >= self.ip_list[i].low && ip <= self.ip_list[i].high {
                return self.ip_list[i].region.clone();
            }
        }
        let r = String::from_str("unknown");
        proof {
            reveal_strlit("unknown");
        }
        assert(r@ =~= unknown_region());
        r
    }
}

} // verus!
