//! Listing sessions: which candidate paths are looked at, and the table that
//! is printed.

use vstd::prelude::*;

use crate::session::{paths_equal, same_path};
use crate::text::{decimal, push_decimal, string_push, strings_view};

verus! {

/// Whether `paths[i]` names a path that no earlier candidate named.
pub open spec fn first_visit(paths: Seq<Seq<char>>, i: int) -> bool {
    forall|j: int| 0 <= j < i ==> !same_path(#[trigger] paths[j], paths[i])
}

/// Marks each candidate path that no earlier candidate named; a session is
/// looked at once however often its path comes up.
pub fn first_visits(paths: &Vec<String>) -> (r: Vec<bool>)
    ensures
        r@.len() == paths@.len(),
        forall|i: int| 0 <= i < r@.len() ==> #[trigger] r@[i] == first_visit(strings_view(paths@), i),
{
    let ghost ps = strings_view(paths@);
    let mut r: Vec<bool> = Vec::new();
    let mut i: usize = 0;
    while i < paths.len()
        invariant
            i <= paths.len(),
            ps == strings_view(paths@),
            ps.len() == paths.len(),
            r@.len() == i,
            forall|k: int| 0 <= k < i ==> #[trigger] r@[k] == first_visit(ps, k),
        decreases paths.len() - i,
    {
        let mut fresh = true;
        let mut j: usize = 0;
        while j < i
            invariant
                j <= i,
                i < paths.len(),
                ps == strings_view(paths@),
                ps.len() == paths.len(),
                fresh == (forall|k: int| 0 <= k < j ==> !same_path(#[trigger] ps[k], ps[i as int])),
            decreases i - j,
        {
            assert(ps[j as int] == paths@[j as int]@ && ps[i as int] == paths@[i as int]@);
            if paths_equal(paths[j].as_str(), paths[i].as_str()) {
                fresh = false;
            }
            j += 1;
        }
        r.push(fresh);
        i += 1;
    }
    r
}

/// A live session as the list shows it.
pub struct SessionRow {
    pub pid: u32,
    pub port: u16,
    pub path: String,
}

/// `s` followed by spaces up to `width` characters.
pub open spec fn pad_right(s: Seq<char>, width: nat) -> Seq<char> {
    if s.len() >= width {
        s
    } else {
        s + Seq::new((width - s.len()) as nat, |i: int| ' ')
    }
}

/// The line of one session: the pid and the port, each left-aligned in
/// seven columns, then the path.
pub open spec fn row_line(pid: u32, port: u16, path: Seq<char>) -> Seq<char> {
    pad_right(decimal(pid as nat), 7) + " "@ + pad_right(decimal(port as nat), 7) + " "@ + path
        + "\n"@
}

/// The lines of the sessions, in order.
pub open spec fn rows_text(rows: Seq<(u32, u16, Seq<char>)>) -> Seq<char>
    decreases rows.len(),
{
    if rows.len() == 0 {
        Seq::empty()
    } else {
        rows_text(rows.drop_last()) + row_line(rows.last().0, rows.last().1, rows.last().2)
    }
}

/// The session list: a notice when there is no session, else a header and
/// one line per session.
pub open spec fn session_table_text(rows: Seq<(u32, u16, Seq<char>)>) -> Seq<char> {
    if rows.len() == 0 {
        "No active dtach-rs sessions.\n"@
    } else {
        "PID     PORT    PATH\n"@ + rows_text(rows)
    }
}

/// A row as plain values.
pub open spec fn row_view(r: SessionRow) -> (u32, u16, Seq<char>) {
    (r.pid, r.port, r.path@)
}

/// Appends `n` in decimal, left-aligned in seven columns.
fn push_padded(s: &mut String, n: u64)
    ensures
        final(s)@ == old(s)@ + pad_right(decimal(n as nat), 7),
{
    let ghost start = s@;
    let mut number = String::new();
    push_decimal(&mut number, n);
    let ghost digits = decimal(n as nat);
    assert(number@ =~= digits);
    let mut len: usize = number.as_str().unicode_len();
    s.append(number.as_str());
    let ghost base = s@;
    while len < 7
        invariant
            digits.len() <= len <= 7 || (digits.len() > 7 && len == digits.len()),
            base == start + digits,
            s@ == base + Seq::new((len - digits.len()) as nat, |i: int| ' '),
        decreases 7 - len,
    {
        string_push(s, ' ');
        assert(s@ =~= base + Seq::new((len + 1 - digits.len()) as nat, |i: int| ' '));
        len += 1;
    }
    assert(final(s)@ =~= start + pad_right(digits, 7));
}

/// Writes the session list.
pub fn session_table(rows: &Vec<SessionRow>) -> (r: String)
    ensures
        r@ == session_table_text(rows@.map_values(|x: SessionRow| row_view(x))),
{
    let ghost rv = rows@.map_values(|x: SessionRow| row_view(x));
    if rows.len() == 0 {
        return String::from_str("No active dtach-rs sessions.\n");
    }
    let mut r = String::from_str("PID     PORT    PATH\n");
    let ghost header = r@;
    let mut i: usize = 0;
    assert(rv.take(0) =~= Seq::<(u32, u16, Seq<char>)>::empty());
    assert(r@ =~= header + rows_text(rv.take(0)));
    while i < rows.len()
        invariant
            i <= rows.len(),
            rv == rows@.map_values(|x: SessionRow| row_view(x)),
            rv.len() == rows.len(),
            header == "PID     PORT    PATH\n"@,
            r@ == header + rows_text(rv.take(i as int)),
        decreases rows.len() - i,
    {
        let row = &rows[i];
        assert(rv[i as int] == row_view(*row));
        let ghost before = r@;
        push_padded(&mut r, row.pid as u64);
        r.append(" ");
        push_padded(&mut r, row.port as u64);
        r.append(" ");
        r.append(row.path.as_str());
        r.append("\n");
        assert(rv.take(i + 1).drop_last() =~= rv.take(i as int));
        assert(r@ =~= before + row_line(row.pid, row.port, row.path@));
        i += 1;
    }
    assert(rv.take(i as int) =~= rv);
    r
}

} // verus!
