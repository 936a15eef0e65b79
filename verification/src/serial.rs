//! The serial updater: rewrites the single serial-number line of a zone
//! configuration file.  The first line that holds both a `;` comment marker
//! and the token `serial` is replaced; its first whitespace-delimited token is
//! read as the current serial.  When that serial is a decimal number that
//! starts with today's date stamp, it is incremented by one; otherwise the
//! serial resets to the date stamp followed by `00`.  Every other line is
//! kept verbatim, and the whole text is rejoined with `'\n'` and one trailing
//! `'\n'`.

use vstd::prelude::*;

use crate::text::contains_seq;
use crate::text::dec_digits;
use crate::text::digits_val;
use crate::text::first_token;
use crate::text::first_token_of;
use crate::text::is_digits;
use crate::text::join_nl;
use crate::text::join_with;
use crate::text::lines_of;
use crate::text::parse_u32;
use crate::text::split_lines;
use crate::text::starts_with;
use crate::text::str_contains;
use crate::text::str_starts_with;
use crate::text::u32_to_string;
use crate::text::views_of;

verus! {

/// A serial-marker line: one that holds both a `;` and the token `serial`.
pub open spec fn is_serial_line(l: Seq<char>) -> bool {
    contains_seq(l, ";"@) && contains_seq(l, "serial"@)
}

pub fn line_is_serial(l: &str) -> (r: bool)
    ensures
        r == is_serial_line(l@),
{
    str_contains(l, ";") && str_contains(l, "serial")
}

/// The index of the first serial-marker line, if any: the scan stops at the
/// first qualifying line and never rewrites a later one.
pub open spec fn first_serial_idx(ls: Seq<Seq<char>>) -> Option<int>
    decreases ls.len(),
{
    if ls.len() == 0 {
        None
    } else if is_serial_line(ls[0]) {
        Some(0int)
    } else {
        match first_serial_idx(ls.drop_first()) {
            Some(j) => Some(j + 1),
            None => None,
        }
    }
}

pub proof fn lemma_first_serial_idx(ls: Seq<Seq<char>>)
    ensures
        match first_serial_idx(ls) {
            Some(i) => 0 <= i < ls.len() && is_serial_line(ls[i]) && forall|j: int|
                0 <= j < i ==> !is_serial_line(#[trigger] ls[j]),
            None => forall|j: int| 0 <= j < ls.len() ==> !is_serial_line(#[trigger] ls[j]),
        },
    decreases ls.len(),
{
    if ls.len() > 0 && !is_serial_line(ls[0]) {
        lemma_first_serial_idx(ls.drop_first());
        assert forall|j: int| 1 <= j < ls.len() implies ls.drop_first()[j - 1] == ls[j] by {}
    }
}

/// The new serial for a matched line, given today's date stamp: the current
/// first token incremented when it is a decimal number starting with the
/// stamp, the stamp followed by `00` otherwise.  A serial at the top of the
/// `u32` range resets rather than overflowing.
pub open spec fn new_serial_for(l: Seq<char>, today: Seq<char>) -> Seq<char> {
    let tok = first_token(l);
    if starts_with(tok, today) && is_digits(tok) && digits_val(tok) < u32::MAX as nat {
        dec_digits(digits_val(tok) + 1)
    } else {
        today + "00"@
    }
}

/// The replacement for a matched line: tab, the new serial, tab, `; serial`.
pub open spec fn replacement_line(l: Seq<char>, today: Seq<char>) -> Seq<char> {
    seq!['\t'] + new_serial_for(l, today) + seq!['\t'] + "; serial"@
}

/// The lines after the update: only the first serial-marker line changes.
pub open spec fn bump_lines(ls: Seq<Seq<char>>, today: Seq<char>) -> Seq<Seq<char>> {
    match first_serial_idx(ls) {
        Some(i) => ls.update(i, replacement_line(ls[i], today)),
        None => ls,
    }
}

/// The full text after the update: the updated lines rejoined with `'\n'`
/// plus a single forced trailing `'\n'`.
pub open spec fn bump_text(content: Seq<char>, today: Seq<char>) -> Seq<char> {
    join_nl(bump_lines(lines_of(content), today)) + seq!['\n']
}

fn replace_serial_line(l: &str, today: &str) -> (r: String)
    ensures
        r@ == replacement_line(l@, today@),
{
    let tok = first_token_of(l);
    let bumped: Option<u32> = if str_starts_with(tok.as_str(), today) {
        match parse_u32(tok.as_str()) {
            Some(v) => if v < u32::MAX {
                Some(v + 1)
            } else {
                None
            },
            None => None,
        }
    } else {
        None
    };
    let serial: String = match bumped {
        Some(v) => u32_to_string(v),
        None => {
            let mut t = today.to_owned();
            t.append("00");
            t
        },
    };
    let mut out = String::new();
    out.append("\t");
    out.append(serial.as_str());
    out.append("\t; serial");
    proof {
        reveal_strlit("\t");
        reveal_strlit("\t; serial");
        reveal_strlit("; serial");
        assert(("\t")@ =~= seq!['\t']);
        assert(("\t; serial")@ =~= seq!['\t'] + ("; serial")@);
        assert(out@ =~= replacement_line(l@, today@));
    }
    out
}

/// Rewrites the first serial-marker line of `contents` against the given date
/// stamp and returns the whole new text; all other lines are preserved and a
/// single trailing newline is forced.  A text without a serial-marker line
/// comes back unchanged but for that newline normalization.
pub fn bump_serial_text(contents: &str, today: &str) -> (r: String)
    ensures
        r@ == bump_text(contents@, today@),
{
    let mut ls = split_lines(contents);
    let ghost lsv = views_of(ls@);
    let n = ls.len();
    let mut i: usize = 0;
    while i < n && !line_is_serial(ls[i].as_str())
        invariant
            n == ls@.len(),
            views_of(ls@) == lsv,
            i <= n,
            forall|j: int| 0 <= j < i ==> !is_serial_line(#[trigger] lsv[j]),
        decreases n - i,
    {
        i += 1;
    }
    proof {
        lemma_first_serial_idx(lsv);
        if i < n {
            assert(is_serial_line(lsv[i as int]));
            match first_serial_idx(lsv) {
                Some(fi) => {
                    assert(fi == i as int);
                },
                None => {
                    assert(is_serial_line(lsv[i as int]));
                },
            }
        } else {
            if first_serial_idx(lsv) is Some {
                let fi = first_serial_idx(lsv).unwrap();
                assert(!is_serial_line(lsv[fi]));
            }
        }
    }
    if i < n {
        let newline = replace_serial_line(ls[i].as_str(), today);
        let ghost nlv = newline@;
        ls.remove(i);
        ls.insert(i, newline);
        proof {
            assert(views_of(ls@) =~= lsv.update(i as int, nlv));
            assert(views_of(ls@) == bump_lines(lsv, today@));
        }
    }
    let mut out = join_with(&ls, "\n");
    out.append("\n");
    proof {
        reveal_strlit("\n");
        assert(("\n")@ =~= seq!['\n']);
    }
    out
}

/// Relies on chrono's `Local::now` and `%Y%m%d` formatting for today's date
/// stamp in the local time zone.  The result depends on the clock, so nothing
/// is promised of it; every caller handles an arbitrary stamp.
#[verifier::external_body]
fn today_stamp() -> (r: String) {
    chrono::Local::now().format("%Y%m%d").to_string()
}

/// `bump_serial_text` against today's date stamp, read from the local clock.
pub fn bump_serial_today(contents: &str) -> (r: String)
    ensures
        exists|t: Seq<char>| r@ == bump_text(contents@, t),
{
    let today = today_stamp();
    let r = bump_serial_text(contents, today.as_str());
    proof {
        assert(r@ == bump_text(contents@, today@));
    }
    r
}

/// The update never alters any line other than the first serial-marker line:
/// the line count is kept, every line but that one is kept verbatim, and a
/// text without a serial-marker line keeps all its lines.
pub proof fn lemma_bump_preserves_other_lines(content: Seq<char>, today: Seq<char>)
    ensures
        bump_lines(lines_of(content), today).len() == lines_of(content).len(),
        forall|j: int|
            0 <= j < lines_of(content).len() && first_serial_idx(lines_of(content)) != Some(j)
                ==> #[trigger] bump_lines(lines_of(content), today)[j] == lines_of(content)[j],
        first_serial_idx(lines_of(content)) is None ==> bump_lines(lines_of(content), today)
            == lines_of(content),
{
    let ls = lines_of(content);
    lemma_first_serial_idx(ls);
}

/// The replacement line is itself a serial-marker line: it holds a `;` and
/// the token `serial`.
pub proof fn lemma_replacement_is_serial_line(l: Seq<char>, today: Seq<char>)
    ensures
        is_serial_line(replacement_line(l, today)),
{
    reveal_strlit(";");
    reveal_strlit("serial");
    reveal_strlit("; serial");
    let r = replacement_line(l, today);
    let ns = new_serial_for(l, today);
    let semi = ns.len() + 2;
    assert(r.subrange(semi as int, semi + (";"@).len() as int) =~= ";"@);
    let word = ns.len() + 4;
    assert(r.subrange(word as int, word + ("serial"@).len() as int) =~= "serial"@);
}

/// Re-running the update finds the same line again: the first serial-marker
/// line of the updated lines is the one that was just rewritten, so repeated
/// runs keep rewriting one and the same line.
pub proof fn lemma_rerun_hits_same_line(ls: Seq<Seq<char>>, t1: Seq<char>, t2: Seq<char>)
    requires
        first_serial_idx(ls) is Some,
    ensures
        first_serial_idx(bump_lines(ls, t1)) == first_serial_idx(ls),
        forall|j: int|
            0 <= j < ls.len() && first_serial_idx(ls) != Some(j) ==> #[trigger] bump_lines(
                bump_lines(ls, t1),
                t2,
            )[j] == ls[j],
{
    let i = first_serial_idx(ls).unwrap();
    lemma_first_serial_idx(ls);
    let ls1 = bump_lines(ls, t1);
    lemma_replacement_is_serial_line(ls[i], t1);
    lemma_first_serial_idx(ls1);
    match first_serial_idx(ls1) {
        Some(i1) => {
            if i1 < i {
                assert(ls1[i1] == ls[i1]);
            }
            if i1 > i {
                assert(is_serial_line(ls1[i]));
            }
            assert(i1 == i);
        },
        None => {
            assert(is_serial_line(ls1[i]));
        },
    }
}

/// A serial whose first token does not carry today's date stamp — one that
/// predates today, or garbage — resets to the stamp followed by `00`,
/// regardless of its prior value.
pub proof fn lemma_stale_serial_resets(l: Seq<char>, today: Seq<char>)
    requires
        !starts_with(first_token(l), today),
    ensures
        new_serial_for(l, today) == today + "00"@,
{
}

/// A serial that already carries today's date stamp and is a decimal number
/// below the `u32` maximum advances by exactly one.
pub proof fn lemma_same_day_serial_increments(l: Seq<char>, today: Seq<char>)
    requires
        starts_with(first_token(l), today),
        is_digits(first_token(l)),
        digits_val(first_token(l)) < u32::MAX as nat,
    ensures
        new_serial_for(l, today) == dec_digits(digits_val(first_token(l)) + 1),
{
}

} // verus!
