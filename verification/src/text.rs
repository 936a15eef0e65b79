//! Small verified text utilities: prefix tests, substring search, line
//! splitting and joining, token extraction, and decimal parsing/printing.
//! Everything here works on `&str`/`String` values whose views are `Seq<char>`.

use vstd::prelude::*;

verus! {

/// ASCII whitespace, the delimiters used when extracting the first token of a
/// line (space, tab, line feed, vertical tab, form feed, carriage return).
pub open spec fn is_space_char(c: char) -> bool {
    c == ' ' || c == '\t' || c == '\n' || c == '\x0b' || c == '\x0c' || c == '\r'
}

pub fn is_space(c: char) -> (r: bool)
    ensures
        r == is_space_char(c),
{
    c == ' ' || c == '\t' || c == '\n' || c == '\x0b' || c == '\x0c' || c == '\r'
}

pub open spec fn is_digit_char(c: char) -> bool {
    '0' <= c && c <= '9'
}

/// The numeric value of a decimal digit character.
pub open spec fn digit_val(c: char) -> nat
    recommends
        is_digit_char(c),
{
    (c as nat - '0' as nat) as nat
}

/// The decimal digit character for a value below ten.
pub open spec fn digit_char(d: nat) -> char
    recommends
        d < 10,
{
    if d == 0 {
        '0'
    } else if d == 1 {
        '1'
    } else if d == 2 {
        '2'
    } else if d == 3 {
        '3'
    } else if d == 4 {
        '4'
    } else if d == 5 {
        '5'
    } else if d == 6 {
        '6'
    } else if d == 7 {
        '7'
    } else if d == 8 {
        '8'
    } else {
        '9'
    }
}

/// `p` is a textual prefix of `s`.
pub open spec fn starts_with(s: Seq<char>, p: Seq<char>) -> bool {
    p.len() <= s.len() && s.subrange(0, p.len() as int) == p
}

pub fn str_starts_with(s: &str, p: &str) -> (r: bool)
    ensures
        r == starts_with(s@, p@),
{
    let sl = s.unicode_len();
    let pl = p.unicode_len();
    if pl > sl {
        return false;
    }
    let mut i: usize = 0;
    while i < pl
        invariant
            sl == s@.len(),
            pl == p@.len(),
            pl <= sl,
            i <= pl,
            forall|j: int| 0 <= j < i ==> s@[j] == p@[j],
        decreases pl - i,
    {
        if s.get_char(i) != p.get_char(i) {
            proof {
                assert(s@.subrange(0, pl as int)[i as int] != p@[i as int]);
            }
            return false;
        }
        i += 1;
    }
    proof {
        assert(s@.subrange(0, pl as int) =~= p@);
    }
    true
}

/// `n` occurs as a contiguous subsequence of `h`.
pub open spec fn contains_seq(h: Seq<char>, n: Seq<char>) -> bool {
    exists|i: int| 0 <= i && i + n.len() <= h.len() && #[trigger] h.subrange(i, i + n.len() as int) == n
}

pub fn str_contains(h: &str, n: &str) -> (r: bool)
    ensures
        r == contains_seq(h@, n@),
{
    let hl = h.unicode_len();
    let nl = n.unicode_len();
    if nl == 0 {
        proof {
            assert(h@.subrange(0, 0 + n@.len() as int) =~= n@);
        }
        return true;
    }
    if nl > hl {
        return false;
    }
    let mut i: usize = 0;
    while i <= hl - nl
        invariant
            hl == h@.len(),
            nl == n@.len(),
            1 <= nl <= hl,
            i <= hl - nl + 1,
            forall|ii: int| 0 <= ii < i ==> #[trigger] h@.subrange(ii, ii + n@.len() as int) != n@,
        decreases hl - i,
    {
        let mut j: usize = 0;
        let mut mismatch = false;
        while j < nl
            invariant
                hl == h@.len(),
                nl == n@.len(),
                nl <= hl,
                i <= hl - nl,
                j <= nl,
                !mismatch ==> forall|k: int| 0 <= k < j ==> h@[i + k] == n@[k],
                mismatch ==> h@.subrange(i as int, i + n@.len() as int) != n@,
            decreases nl - j,
        {
            if h.get_char(i + j) != n.get_char(j) {
                proof {
                    assert(h@.subrange(i as int, i + n@.len() as int)[j as int] != n@[j as int]);
                }
                mismatch = true;
                j = nl;
            } else {
                j += 1;
            }
        }
        if !mismatch {
            proof {
                assert(h@.subrange(i as int, i + n@.len() as int) =~= n@);
            }
            return true;
        }
        i += 1;
    }
    false
}

/// Membership of a character sequence in a list of strings, compared by view.
pub open spec fn in_list(l: Seq<String>, x: Seq<char>) -> bool {
    exists|i: int| 0 <= i < l.len() && l[i]@ == x
}

pub fn list_contains(l: &Vec<String>, x: &String) -> (r: bool)
    ensures
        r == in_list(l@, x@),
{
    let mut i: usize = 0;
    while i < l.len()
        invariant
            i <= l@.len(),
            forall|j: int| 0 <= j < i ==> l@[j]@ != x@,
        decreases l@.len() - i,
    {
        if *x == l[i] {
            return true;
        }
        i += 1;
    }
    false
}

/// `n` space characters.
pub open spec fn spaces(n: nat) -> Seq<char>
    decreases n,
{
    if n == 0 {
        Seq::empty()
    } else {
        spaces((n - 1) as nat) + seq![' ']
    }
}

/// `s` padded on the right with spaces up to width `w`; a longer `s` is kept
/// as it is.
pub open spec fn pad_to(s: Seq<char>, w: nat) -> Seq<char> {
    if s.len() >= w {
        s
    } else {
        s + spaces((w - s.len()) as nat)
    }
}

/// A line terminated by a line feed loses one trailing carriage return, so
/// that a `"\r\n"` ending counts as a single line break.
pub open spec fn strip_cr(l: Seq<char>) -> Seq<char> {
    if l.len() > 0 && l.last() == '\r' {
        l.drop_last()
    } else {
        l
    }
}

/// The lines of a text: pieces split at `"\n"` or `"\r\n"`, the terminators
/// dropped, a final terminator optional (so a trailing `"\n"` adds no empty
/// last line).  An unterminated final line keeps a bare trailing `'\r'`.
pub open spec fn lines_of(s: Seq<char>) -> Seq<Seq<char>>
    decreases s.len(),
{
    if s.len() == 0 {
        Seq::empty()
    } else {
        match s.index_of_first('\n') {
            Some(i) => if 0 <= i < s.len() {
                seq![strip_cr(s.subrange(0, i))] + lines_of(s.subrange(i + 1, s.len() as int))
            } else {
                // never taken: a found index lies inside the sequence
                Seq::empty()
            },
            None => seq![s],
        }
    }
}

/// The pieces joined with `sep` between two of them.
pub open spec fn join_sep(ls: Seq<Seq<char>>, sep: Seq<char>) -> Seq<char>
    decreases ls.len(),
{
    if ls.len() == 0 {
        Seq::empty()
    } else if ls.len() == 1 {
        ls[0]
    } else {
        join_sep(ls.drop_last(), sep) + sep + ls.last()
    }
}

/// The lines joined again with a single `'\n'` between two of them.
pub open spec fn join_nl(ls: Seq<Seq<char>>) -> Seq<char> {
    join_sep(ls, seq!['\n'])
}

/// The views of a vector of strings.
pub open spec fn views_of(ls: Seq<String>) -> Seq<Seq<char>> {
    ls.map_values(|l: String| l@)
}

pub fn split_lines(s: &str) -> (r: Vec<String>)
    ensures
        views_of(r@) == lines_of(s@),
{
    let len = s.unicode_len();
    let mut out: Vec<String> = Vec::new();
    let mut start: usize = 0;
    proof {
        assert(s@.subrange(0, len as int) =~= s@);
        assert(views_of(out@) + lines_of(s@) =~= lines_of(s@));
    }
    while start < len
        invariant
            len == s@.len(),
            start <= len,
            lines_of(s@) == views_of(out@) + lines_of(s@.subrange(start as int, len as int)),
        decreases len - start,
    {
        let ghost rest = s@.subrange(start as int, len as int);
        // find the next line feed at or after `start`
        let mut i: usize = start;
        while i < len && s.get_char(i) != '\n'
            invariant
                len == s@.len(),
                start <= i <= len,
                forall|j: int| start <= j < i ==> s@[j] != '\n',
            decreases len - i,
        {
            i += 1;
        }
        let found = i < len;
        proof {
            rest.index_of_first_ensures('\n');
            assert forall|j: int| start <= j < i implies s@[j] != '\n' by {}
            if found {
                assert(rest[i - start] == '\n');
                assert forall|j: int| 0 <= j < i - start implies rest[j] != '\n' by {
                    assert(rest[j] == s@[start + j]);
                }
                assert(rest.index_of_first('\n') == Some(i - start));
            } else {
                assert forall|j: int| 0 <= j < rest.len() implies rest[j] != '\n' by {
                    assert(rest[j] == s@[start + j]);
                }
                if rest.contains('\n') {
                    let w = choose|w: int| 0 <= w < rest.len() && rest[w] == '\n';
                    assert(rest[w] != '\n');
                }
                assert(rest.index_of_first('\n') is None);
            }
        }
        if found {
            let end = if i > start && s.get_char(i - 1) == '\r' {
                i - 1
            } else {
                i
            };
            let piece = s.substring_char(start, end).to_owned();
            proof {
                assert(rest.subrange(0, i - start) =~= s@.subrange(start as int, i as int));
                assert(strip_cr(rest.subrange(0, i - start)) =~= piece@);
                assert(rest.subrange(i - start + 1, rest.len() as int) =~= s@.subrange(
                    i + 1,
                    len as int,
                ));
                assert(lines_of(rest) == seq![piece@] + lines_of(
                    s@.subrange(i + 1, len as int),
                ));
            }
            out.push(piece);
            proof {
                assert(views_of(out@) =~= views_of(out@.drop_last()) + seq![piece@]);
                assert(views_of(out@.drop_last() + seq![out@.last()]) + lines_of(
                    s@.subrange(i + 1, len as int),
                ) =~= lines_of(s@));
            }
            start = i + 1;
        } else {
            let piece = s.substring_char(start, len).to_owned();
            proof {
                assert(piece@ == rest);
                assert(lines_of(rest) == seq![rest]);
            }
            out.push(piece);
            proof {
                assert(views_of(out@) + lines_of(s@.subrange(len as int, len as int)) =~= lines_of(
                    s@,
                ));
            }
            start = len;
        }
    }
    proof {
        assert(s@.subrange(len as int, len as int) =~= Seq::<char>::empty());
        assert(views_of(out@) + lines_of(Seq::<char>::empty()) =~= views_of(out@));
    }
    out
}

pub fn join_with(ls: &Vec<String>, sep: &str) -> (r: String)
    ensures
        r@ == join_sep(views_of(ls@), sep@),
{
    let mut out = String::new();
    let mut i: usize = 0;
    while i < ls.len()
        invariant
            i <= ls@.len(),
            out@ == join_sep(views_of(ls@).take(i as int), sep@),
        decreases ls@.len() - i,
    {
        if i > 0 {
            out.append(sep);
        }
        out.append(ls[i].as_str());
        proof {
            let v = views_of(ls@);
            assert(v.take(i + 1).drop_last() =~= v.take(i as int));
            assert(v.take(i + 1).last() == v[i as int]);
            if i == 0 {
                assert(join_sep(v.take(1), sep@) == v[0]);
            }
        }
        i += 1;
    }
    proof {
        assert(views_of(ls@).take(ls@.len() as int) =~= views_of(ls@));
    }
    out
}

/// `l` without its leading whitespace.
pub open spec fn skip_spaces(l: Seq<char>) -> Seq<char>
    decreases l.len(),
{
    if l.len() == 0 {
        l
    } else if is_space_char(l[0]) {
        skip_spaces(l.drop_first())
    } else {
        l
    }
}

/// The longest whitespace-free prefix of `l`.
pub open spec fn take_until_space(l: Seq<char>) -> Seq<char>
    decreases l.len(),
{
    if l.len() == 0 {
        l
    } else if is_space_char(l[0]) {
        Seq::empty()
    } else {
        seq![l[0]] + take_until_space(l.drop_first())
    }
}

/// The first whitespace-delimited token of a line; empty when the line holds
/// none.
pub open spec fn first_token(l: Seq<char>) -> Seq<char> {
    take_until_space(skip_spaces(l))
}

proof fn lemma_skip_spaces_at(l: Seq<char>, i: int)
    requires
        0 <= i <= l.len(),
        forall|k: int| 0 <= k < i ==> is_space_char(l[k]),
        i == l.len() || !is_space_char(l[i]),
    ensures
        skip_spaces(l) == l.subrange(i, l.len() as int),
    decreases i,
{
    if i == 0 {
        assert(l.subrange(0, l.len() as int) =~= l);
    } else {
        lemma_skip_spaces_at(l.drop_first(), i - 1);
        assert(l.drop_first().subrange(i - 1, l.drop_first().len() as int) =~= l.subrange(
            i,
            l.len() as int,
        ));
    }
}

proof fn lemma_take_until_space_at(l: Seq<char>, j: int)
    requires
        0 <= j <= l.len(),
        forall|k: int| 0 <= k < j ==> !is_space_char(l[k]),
        j == l.len() || is_space_char(l[j]),
    ensures
        take_until_space(l) == l.subrange(0, j),
    decreases j,
{
    if j == 0 {
        assert(l.subrange(0, 0) =~= Seq::<char>::empty());
        if l.len() == 0 {
            assert(take_until_space(l) =~= l.subrange(0, 0));
        }
    } else {
        lemma_take_until_space_at(l.drop_first(), j - 1);
        assert(l.drop_first().subrange(0, j - 1) =~= l.subrange(1, j));
        assert(seq![l[0]] + l.subrange(1, j) =~= l.subrange(0, j));
    }
}

pub fn first_token_of(l: &str) -> (r: String)
    ensures
        r@ == first_token(l@),
{
    let len = l.unicode_len();
    let mut i: usize = 0;
    while i < len && is_space(l.get_char(i))
        invariant
            len == l@.len(),
            i <= len,
            forall|k: int| 0 <= k < i ==> is_space_char(l@[k]),
        decreases len - i,
    {
        i += 1;
    }
    let mut j: usize = i;
    while j < len && !is_space(l.get_char(j))
        invariant
            len == l@.len(),
            i <= j <= len,
            forall|k: int| i <= k < j ==> !is_space_char(l@[k]),
        decreases len - j,
    {
        j += 1;
    }
    let r = l.substring_char(i, j).to_owned();
    proof {
        lemma_skip_spaces_at(l@, i as int);
        let rest = l@.subrange(i as int, len as int);
        assert forall|k: int| 0 <= k < j - i implies !is_space_char(rest[k]) by {
            assert(rest[k] == l@[i + k]);
        }
        lemma_take_until_space_at(rest, j - i);
        assert(rest.subrange(0, j - i) =~= l@.subrange(i as int, j as int));
    }
    r
}

/// A non-empty, all-decimal-digit sequence.
pub open spec fn is_digits(s: Seq<char>) -> bool {
    s.len() > 0 && forall|i: int| 0 <= i < s.len() ==> is_digit_char(#[trigger] s[i])
}

/// The value of a digit sequence read as a decimal number.
pub open spec fn digits_val(s: Seq<char>) -> nat
    decreases s.len(),
{
    if s.len() == 0 {
        0
    } else {
        digits_val(s.drop_last()) * 10 + digit_val(s.last())
    }
}

/// The decimal rendering of `n`, without leading zeroes (a lone `'0'` for 0).
pub open spec fn dec_digits(n: nat) -> Seq<char>
    decreases n,
{
    if n < 10 {
        seq![digit_char(n)]
    } else {
        dec_digits(n / 10) + seq![digit_char(n % 10)]
    }
}

/// Parses a decimal unsigned integer, exactly when the whole string is one
/// or more digits and the value fits in a `u32`.
pub fn parse_u32(s: &str) -> (r: Option<u32>)
    ensures
        r is Some <==> is_digits(s@) && digits_val(s@) <= u32::MAX,
        r is Some ==> r.unwrap() as nat == digits_val(s@),
{
    let len = s.unicode_len();
    if len == 0 {
        return None;
    }
    let mut acc: u32 = 0;
    let mut big = false;
    let mut i: usize = 0;
    while i < len
        invariant
            len == s@.len(),
            0 < len,
            i <= len,
            forall|j: int| 0 <= j < i ==> is_digit_char(#[trigger] s@[j]),
            !big ==> acc as nat == digits_val(s@.take(i as int)),
            big ==> digits_val(s@.take(i as int)) > u32::MAX,
        decreases len - i,
    {
        let c = s.get_char(i);
        if !('0' <= c && c <= '9') {
            return None;
        }
        let d: u32 = c as u32 - 48;
        proof {
            assert(s@.take(i + 1).drop_last() =~= s@.take(i as int));
            assert(s@.take(i + 1).last() == s@[i as int]);
            assert(d as nat == digit_val(s@[i as int]));
        }
        if big {
            proof {
                let prev = digits_val(s@.take(i as int));
                assert(prev * 10 >= prev) by (nonlinear_arith)
                    requires prev >= 0;
            }
        } else {
            let m = acc.checked_mul(10);
            match m {
                Some(m10) => {
                    let a = m10.checked_add(d);
                    match a {
                        Some(v) => {
                            acc = v;
                        },
                        None => {
                            big = true;
                        },
                    }
                },
                None => {
                    big = true;
                },
            }
        }
        i += 1;
    }
    proof {
        assert(s@.take(len as int) =~= s@);
    }
    if big {
        None
    } else {
        Some(acc)
    }
}

fn digit_str(d: u32) -> (r: &'static str)
    requires
        d < 10,
    ensures
        r@ == seq![digit_char(d as nat)],
{
    proof {
        reveal_strlit("0");
        reveal_strlit("1");
        reveal_strlit("2");
        reveal_strlit("3");
        reveal_strlit("4");
        reveal_strlit("5");
        reveal_strlit("6");
        reveal_strlit("7");
        reveal_strlit("8");
        reveal_strlit("9");
    }
    let r = if d == 0 {
        "0"
    } else if d == 1 {
        "1"
    } else if d == 2 {
        "2"
    } else if d == 3 {
        "3"
    } else if d == 4 {
        "4"
    } else if d == 5 {
        "5"
    } else if d == 6 {
        "6"
    } else if d == 7 {
        "7"
    } else if d == 8 {
        "8"
    } else {
        "9"
    };
    proof {
        assert(r@ =~= seq![digit_char(d as nat)]);
    }
    r
}

pub fn u32_to_string(n: u32) -> (r: String)
    ensures
        r@ == dec_digits(n as nat),
    decreases n,
{
    if n < 10 {
        digit_str(n).to_owned()
    } else {
        let mut s = u32_to_string(n / 10);
        s.append(digit_str(n % 10));
        s
    }
}

/// `l` without its trailing whitespace.
pub open spec fn skip_spaces_end(l: Seq<char>) -> Seq<char>
    decreases l.len(),
{
    if l.len() == 0 {
        l
    } else if is_space_char(l.last()) {
        skip_spaces_end(l.drop_last())
    } else {
        l
    }
}

/// `l` without leading and trailing whitespace.
pub open spec fn trimmed(l: Seq<char>) -> Seq<char> {
    skip_spaces_end(skip_spaces(l))
}

proof fn lemma_skip_spaces_end_at(l: Seq<char>, j: int)
    requires
        0 <= j <= l.len(),
        forall|k: int| j <= k < l.len() ==> is_space_char(l[k]),
        j == 0 || !is_space_char(l[j - 1]),
    ensures
        skip_spaces_end(l) == l.subrange(0, j),
    decreases l.len(),
{
    if j == l.len() {
        if l.len() == 0 {
            assert(l.subrange(0, 0) =~= l);
        } else {
            assert(l.subrange(0, l.len() as int) =~= l);
        }
    } else {
        lemma_skip_spaces_end_at(l.drop_last(), j);
        assert(l.drop_last().subrange(0, j) =~= l.subrange(0, j));
    }
}

pub fn trim_of(l: &str) -> (r: String)
    ensures
        r@ == trimmed(l@),
{
    let len = l.unicode_len();
    let mut i: usize = 0;
    while i < len && is_space(l.get_char(i))
        invariant
            len == l@.len(),
            i <= len,
            forall|k: int| 0 <= k < i ==> is_space_char(l@[k]),
        decreases len - i,
    {
        i += 1;
    }
    let mut j: usize = len;
    while j > i && is_space(l.get_char(j - 1))
        invariant
            len == l@.len(),
            i <= j <= len,
            i == len || !is_space_char(l@[i as int]),
            forall|k: int| j <= k < len ==> is_space_char(l@[k]),
        decreases j,
    {
        j -= 1;
    }
    let r = l.substring_char(i, j).to_owned();
    proof {
        lemma_skip_spaces_at(l@, i as int);
        let rest = l@.subrange(i as int, len as int);
        assert forall|k: int| j - i <= k < rest.len() implies is_space_char(rest[k]) by {
            assert(rest[k] == l@[i + k]);
        }
        if j > i {
            assert(rest[j - i - 1] == l@[j - 1]);
        }
        lemma_skip_spaces_end_at(rest, j - i);
        assert(rest.subrange(0, j - i) =~= l@.subrange(i as int, j as int));
    }
    r
}

/// `l` without every trailing occurrence of `c`.
pub open spec fn skip_char_end(l: Seq<char>, c: char) -> Seq<char>
    decreases l.len(),
{
    if l.len() == 0 {
        l
    } else if l.last() == c {
        skip_char_end(l.drop_last(), c)
    } else {
        l
    }
}

proof fn lemma_skip_char_end_at(l: Seq<char>, c: char, j: int)
    requires
        0 <= j <= l.len(),
        forall|k: int| j <= k < l.len() ==> l[k] == c,
        j == 0 || l[j - 1] != c,
    ensures
        skip_char_end(l, c) == l.subrange(0, j),
    decreases l.len(),
{
    if j == l.len() {
        assert(l.subrange(0, l.len() as int) =~= l);
    } else {
        lemma_skip_char_end_at(l.drop_last(), c, j);
        assert(l.drop_last().subrange(0, j) =~= l.subrange(0, j));
    }
}

pub fn trim_end_char(s: &str, c: char) -> (r: String)
    ensures
        r@ == skip_char_end(s@, c),
{
    let len = s.unicode_len();
    let mut j: usize = len;
    while j > 0 && s.get_char(j - 1) == c
        invariant
            len == s@.len(),
            j <= len,
            forall|k: int| j <= k < len ==> s@[k] == c,
        decreases j,
    {
        j -= 1;
    }
    let r = s.substring_char(0, j).to_owned();
    proof {
        lemma_skip_char_end_at(s@, c, j as int);
    }
    r
}

/// The pieces of `s` split at every occurrence of `c`; an empty `s` gives one
/// empty piece, as `str::split` does.
pub open spec fn split_char(s: Seq<char>, c: char) -> Seq<Seq<char>>
    decreases s.len(),
{
    match s.index_of_first(c) {
        Some(i) => if 0 <= i < s.len() {
            seq![s.subrange(0, i)] + split_char(s.subrange(i + 1, s.len() as int), c)
        } else {
            // never taken: a found index lies inside the sequence
            Seq::empty()
        },
        None => seq![s],
    }
}

pub fn split_char_str(s: &str, c: char) -> (r: Vec<String>)
    ensures
        views_of(r@) == split_char(s@, c),
{
    let len = s.unicode_len();
    let mut out: Vec<String> = Vec::new();
    let mut start: usize = 0;
    let mut done = false;
    proof {
        assert(s@.subrange(0, len as int) =~= s@);
        assert(views_of(out@) + split_char(s@, c) =~= split_char(s@, c));
    }
    while !done
        invariant
            len == s@.len(),
            start <= len,
            !done ==> split_char(s@, c) == views_of(out@) + split_char(
                s@.subrange(start as int, len as int),
                c,
            ),
            done ==> views_of(out@) == split_char(s@, c),
        decreases len - start, (if done { 0int } else { 1int }),
    {
        let ghost rest = s@.subrange(start as int, len as int);
        let mut i: usize = start;
        while i < len && s.get_char(i) != c
            invariant
                len == s@.len(),
                start <= i <= len,
                forall|j: int| start <= j < i ==> s@[j] != c,
            decreases len - i,
        {
            i += 1;
        }
        proof {
            rest.index_of_first_ensures(c);
            if i < len {
                assert(rest[i - start] == c);
                assert forall|j: int| 0 <= j < i - start implies rest[j] != c by {
                    assert(rest[j] == s@[start + j]);
                }
                assert(rest.index_of_first(c) == Some(i - start));
            } else {
                assert forall|j: int| 0 <= j < rest.len() implies rest[j] != c by {
                    assert(rest[j] == s@[start + j]);
                }
                if rest.contains(c) {
                    let w = choose|w: int| 0 <= w < rest.len() && rest[w] == c;
                    assert(rest[w] != c);
                }
                assert(rest.index_of_first(c) is None);
            }
        }
        if i < len {
            let piece = s.substring_char(start, i).to_owned();
            proof {
                assert(rest.subrange(0, i - start) =~= piece@);
                assert(rest.subrange(i - start + 1, rest.len() as int) =~= s@.subrange(
                    i + 1,
                    len as int,
                ));
            }
            out.push(piece);
            proof {
                assert(views_of(out@) =~= views_of(out@.drop_last()) + seq![piece@]);
                assert(views_of(out@) + split_char(s@.subrange(i + 1, len as int), c) =~=
                    split_char(s@, c));
            }
            start = i + 1;
        } else {
            let piece = s.substring_char(start, len).to_owned();
            proof {
                assert(piece@ == rest);
                assert(split_char(rest, c) == seq![rest]);
            }
            out.push(piece);
            proof {
                assert(views_of(out@) =~= views_of(out@.drop_last()) + seq![piece@]);
                assert(views_of(out@) =~= split_char(s@, c));
            }
            done = true;
        }
    }
    out
}

/// Names the result of `str::to_lowercase`, which depends on the characters
/// of its argument alone.
pub uninterp spec fn lower_of(s: Seq<char>) -> Seq<char>;

/// Relies on `str::to_lowercase`: the lowercased form of a string, a pure
/// function of its characters.
#[verifier::external_body]
pub fn to_lowercase(s: &str) -> (r: String)
    ensures
        r@ == lower_of(s@),
{
    s.to_lowercase()
}

} // verus!
