//! The side channel through which a handler reports response metadata: lines
//! `Name: Value`, where the reserved name `Status` sets the response status.
use vstd::prelude::*;
use crate::{Error, ErrorView};
use crate::request::{find_key, key_position, pairs_view};
use crate::text::{chars_of, split_on, split_once, split_once_at, split_pieces, strings_view, substring, text_eq};

verus! {

/// What `str::trim` leaves of a text.
pub uninterp spec fn trimmed(s: Seq<char>) -> Seq<char>;

/// Relies on `str::trim`: the text without its leading and trailing whitespace.
#[verifier::external_body]
fn trim_text(s: &str) -> (r: String)
    ensures
        r@ == trimmed(s@),
{
    s.trim().to_owned()
}

/// A line as `str::lines` yields it: without its `\n`, and without a `\r`
/// that came just before that `\n`.
pub open spec fn strip_cr(line: Seq<char>) -> Seq<char> {
    if line.len() > 0 && line.last() == '\r' {
        line.drop_last()
    } else {
        line
    }
}

/// The lines of a text, as `str::lines` splits it: on `\n`, with a trailing
/// `\r` removed from each line so ended, and no empty line after a final `\n`.
pub open spec fn text_lines(s: Seq<char>) -> Seq<Seq<char>> {
    let ps = split_on(s, '\n');
    let ended = ps.drop_last().map_values(|l: Seq<char>| strip_cr(l));
    if ps.last().len() == 0 {
        ended
    } else {
        ended.push(ps.last())
    }
}

/// The lines that are not empty, in order.
pub open spec fn nonempty_lines(ls: Seq<Seq<char>>) -> Seq<Seq<char>>
    decreases ls.len(),
{
    if ls.len() == 0 {
        ls
    } else if ls.last().len() == 0 {
        nonempty_lines(ls.drop_last())
    } else {
        nonempty_lines(ls.drop_last()).push(ls.last())
    }
}

/// A line `Name:Value`, split at its first `:`, both sides trimmed.
pub open spec fn parse_header_line(l: Seq<char>) -> Result<(Seq<char>, Seq<char>), ErrorView> {
    match split_once(l, ':') {
        None => Err(ErrorView::InvalidHeader(l)),
        Some((n, v)) => Ok((trimmed(n), trimmed(v))),
    }
}

/// Every line parsed as a header, in order; the first malformed line fails.
pub open spec fn parse_header_lines(ls: Seq<Seq<char>>) -> Result<Seq<(Seq<char>, Seq<char>)>, ErrorView>
    decreases ls.len(),
{
    if ls.len() == 0 {
        Ok(Seq::empty())
    } else {
        match parse_header_lines(ls.drop_last()) {
            Err(e) => Err(e),
            Ok(hs) => match parse_header_line(ls.last()) {
                Err(e) => Err(e),
                Ok(h) => Ok(hs.push(h)),
            },
        }
    }
}

/// The headers that a side-channel text reports, one per non-empty line.
pub open spec fn side_channel_headers(s: Seq<char>) -> Result<Seq<(Seq<char>, Seq<char>)>, ErrorView> {
    parse_header_lines(nonempty_lines(text_lines(s)))
}

/// Parses one side-channel line `Name:Value`.
pub fn parse_header(line: &str) -> (r: Result<(String, String), Error>)
    ensures
        match r {
            Ok((n, v)) => parse_header_line(line@) == Ok::<(Seq<char>, Seq<char>), ErrorView>((n@, v@)),
            Err(e) => parse_header_line(line@) == Err::<(Seq<char>, Seq<char>), ErrorView>(e@),
        },
{
    match split_once_at(line, ':') {
        Some((n, v)) => Ok((trim_text(n.as_str()), trim_text(v.as_str()))),
        None => Err(Error::InvalidHeader(line.to_owned())),
    }
}

/// The lines of a text, as `str::lines` splits it.
pub fn lines_of(s: &str) -> (r: Vec<String>)
    ensures
        strings_view(r@) == text_lines(s@),
{
    let pieces = split_pieces(s, '\n');
    let ghost pv = strings_view(pieces@);
    proof {
        crate::text::lemma_split_on_nonempty(s@, '\n');
    }
    let n = pieces.len();
    let mut out: Vec<String> = Vec::new();
    let mut i: usize = 0;
    while i + 1 < n
        invariant
            pv == strings_view(pieces@),
            n == pieces@.len(),
            n >= 1,
            i + 1 <= n,
            strings_view(out@) == pv.subrange(0, i as int).map_values(|l: Seq<char>| strip_cr(l)),
        decreases n - i,
    {
        let cs = chars_of(pieces[i].as_str());
        let k = cs.len();
        let line = if k > 0 && cs[k - 1] == '\r' {
            substring(pieces[i].as_str(), 0, k - 1)
        } else {
            pieces[i].clone()
        };
        proof {
            if k > 0 && cs@[k - 1] == '\r' {
                assert(pv[i as int].drop_last() =~= pv[i as int].subrange(0, k - 1));
            }
        }
        assert(line@ == strip_cr(pv[i as int]));
        let ghost before = out@;
        out.push(line);
        assert(strings_view(out@) =~= strings_view(before).push(line@));
        assert(pv.subrange(0, i + 1).map_values(|l: Seq<char>| strip_cr(l)) =~= pv.subrange(
            0,
            i as int,
        ).map_values(|l: Seq<char>| strip_cr(l)).push(line@));
        i = i + 1;
    }
    assert(pv.subrange(0, n - 1) =~= pv.drop_last());
    if pieces[n - 1].unicode_len() > 0 {
        let last = pieces[n - 1].clone();
        let ghost before = out@;
        out.push(last);
        assert(strings_view(out@) =~= strings_view(before).push(last@));
    }
    out
}

/// Parses the side-channel text into headers, in order, skipping empty lines.
pub fn parse_headers(text: &str) -> (r: Result<Vec<(String, String)>, Error>)
    ensures
        match r {
            Ok(hs) => side_channel_headers(text@) == Ok::<Seq<(Seq<char>, Seq<char>)>, ErrorView>(
                pairs_view(hs@),
            ),
            Err(e) => side_channel_headers(text@) == Err::<Seq<(Seq<char>, Seq<char>)>, ErrorView>(
                e@,
            ),
        },
{
    let lines = lines_of(text);
    let ghost lv = strings_view(lines@);
    let mut out: Vec<(String, String)> = Vec::new();
    let mut kept: Ghost<Seq<Seq<char>>> = Ghost(Seq::empty());
    let mut i: usize = 0;
    assert(lv.subrange(0, 0) =~= Seq::<Seq<char>>::empty());
    assert(pairs_view(out@) =~= Seq::<(Seq<char>, Seq<char>)>::empty());
    while i < lines.len()
        invariant
            lv == strings_view(lines@),
            lv == text_lines(text@),
            i <= lines@.len(),
            kept@ == nonempty_lines(lv.subrange(0, i as int)),
            parse_header_lines(kept@) == Ok::<Seq<(Seq<char>, Seq<char>)>, ErrorView>(
                pairs_view(out@),
            ),
        decreases lines@.len() - i,
    {
        assert(lv.subrange(0, i + 1).drop_last() =~= lv.subrange(0, i as int));
        if lines[i].unicode_len() > 0 {
            let ghost prev = kept@;
            kept = Ghost(kept@.push(lv[i as int]));
            assert(kept@.drop_last() =~= prev);
            match parse_header(lines[i].as_str()) {
                Ok(h) => {
                    let ghost before = out@;
                    let ghost hv = (h.0@, h.1@);
                    out.push(h);
                    assert(pairs_view(out@) =~= pairs_view(before).push(hv));
                },
                Err(e) => {
                    proof {
                        assert(kept@ == nonempty_lines(lv.subrange(0, i + 1)));
                        assert(parse_header_lines(kept@) == Err::<
                            Seq<(Seq<char>, Seq<char>)>,
                            ErrorView,
                        >(e@));
                        lemma_header_lines_prefix_err(lv, i as int + 1);
                    }
                    return Err(e);
                },
            }
        }
        i = i + 1;
    }
    assert(lv.subrange(0, lines@.len() as int) =~= lv);
    Ok(out)
}

/// A malformed non-empty line in a prefix fails the whole.
proof fn lemma_header_lines_prefix_err(ls: Seq<Seq<char>>, k: int)
    requires
        0 <= k <= ls.len(),
        parse_header_lines(nonempty_lines(ls.subrange(0, k))) is Err,
    ensures
        parse_header_lines(nonempty_lines(ls)) == parse_header_lines(nonempty_lines(ls.subrange(0, k))),
    decreases ls.len() - k,
{
    if k < ls.len() {
        assert(ls.subrange(0, k + 1).drop_last() =~= ls.subrange(0, k));
        let pre = nonempty_lines(ls.subrange(0, k));
        if ls[k].len() > 0 {
            assert(nonempty_lines(ls.subrange(0, k + 1)).drop_last() =~= pre);
        }
        lemma_header_lines_prefix_err(ls, k + 1);
    } else {
        assert(ls.subrange(0, k) =~= ls);
    }
}

/// The value of a decimal digit.
pub open spec fn digit_value(c: char) -> int {
    c as int - '0' as int
}

/// An ASCII decimal digit.
pub open spec fn is_digit(c: char) -> bool {
    '0' <= c <= '9'
}

/// The number that a sequence of decimal digits writes.
pub open spec fn digits_value(s: Seq<char>) -> int
    decreases s.len(),
{
    if s.len() == 0 {
        0
    } else {
        digits_value(s.drop_last()) * 10 + digit_value(s.last())
    }
}

/// The text after a leading `+`, if there is one.
pub open spec fn unsigned_part(s: Seq<char>) -> Seq<char> {
    if s.len() > 0 && s[0] == '+' {
        s.drop_first()
    } else {
        s
    }
}

/// Every character is a decimal digit.
pub open spec fn all_digits(d: Seq<char>) -> bool {
    forall|i: int| 0 <= i < d.len() ==> is_digit(#[trigger] d[i])
}

/// A `u16` written in decimal, as `u16`'s `FromStr` reads it: an optional `+`,
/// then at least one digit, and a value that fits.
pub open spec fn decimal_u16(s: Seq<char>) -> Option<u16> {
    let d = unsigned_part(s);
    if d.len() > 0 && all_digits(d) && digits_value(d) <= u16::MAX {
        Some(digits_value(d) as u16)
    } else {
        None
    }
}

/// A status code written in decimal: a `u16` from 100 to 999, the range an
/// HTTP status code may take.
pub open spec fn status_code_of(s: Seq<char>) -> Option<u16> {
    match decimal_u16(s) {
        Some(c) => if 100 <= c <= 999 {
            Some(c)
        } else {
            None
        },
        None => None,
    }
}

/// Digits write a number that is not negative.
proof fn lemma_digits_value_nonneg(s: Seq<char>)
    requires
        forall|i: int| 0 <= i < s.len() ==> is_digit(#[trigger] s[i]),
    ensures
        digits_value(s) >= 0,
    decreases s.len(),
{
    if s.len() > 0 {
        lemma_digits_value_nonneg(s.drop_last());
    }
}

/// Reads a status code written in decimal.
pub fn parse_status_code(s: &str) -> (r: Option<u16>)
    ensures
        r == status_code_of(s@),
{
    let cs = chars_of(s);
    let n = cs.len();
    let start: usize = if n > 0 && cs[0] == '+' {
        1
    } else {
        0
    };
    let ghost d = cs@.subrange(start as int, n as int);
    assert(d =~= unsigned_part(s@));
    if start == n {
        return None;
    }
    let mut value: u32 = 0;
    let mut i: usize = start;
    assert(d.subrange(0, 0) =~= Seq::<char>::empty());
    while i < n
        invariant
            cs@ == s@,
            n == cs@.len(),
            start <= i <= n,
            d == cs@.subrange(start as int, n as int),
            d == unsigned_part(s@),
            value as int == digits_value(d.subrange(0, i - start)),
            value <= u16::MAX,
            forall|j: int| 0 <= j < i - start ==> is_digit(#[trigger] d[j]),
        decreases n - i,
    {
        let c = cs[i];
        if !('0' <= c && c <= '9') {
            assert(!is_digit(d[i - start]));
            assert(!all_digits(d));
            return None;
        }
        assert(d.subrange(0, i - start + 1).drop_last() =~= d.subrange(0, i - start));
        let next: u32 = value * 10 + (c as u32 - '0' as u32);
        i = i + 1;
        if next > 65535 {
            proof {
                if all_digits(d) {
                    lemma_digits_monotone(d, i - start, d.len() as int);
                    assert(d.subrange(0, d.len() as int) =~= d);
                }
            }
            return None;
        }
        value = next;
    }
    assert(d.subrange(0, n - start) =~= d);
    let code = value as u16;
    if 100 <= code && code <= 999 {
        Some(code)
    } else {
        None
    }
}

/// Digits never make a smaller number when more are appended.
proof fn lemma_digits_monotone(d: Seq<char>, k: int, m: int)
    requires
        0 <= k <= m <= d.len(),
        forall|i: int| 0 <= i < m ==> is_digit(#[trigger] d[i]),
    ensures
        digits_value(d.subrange(0, m)) >= digits_value(d.subrange(0, k)),
    decreases m - k,
{
    if k < m {
        lemma_digits_monotone(d, k, m - 1);
        assert(d.subrange(0, m).drop_last() =~= d.subrange(0, m - 1));
        lemma_digits_value_nonneg(d.subrange(0, m - 1));
    }
}

/// The reserved header name that sets the response status.
pub open spec fn status_name() -> Seq<char> {
    seq!['S', 't', 'a', 't', 'u', 's']
}

/// The status: that of the first `Status` header, which must be a valid code;
/// without one, 200 when the handler succeeded and 500 when it did not.
pub open spec fn response_status(hs: Seq<(Seq<char>, Seq<char>)>, success: bool) -> Result<u16, ErrorView> {
    match key_position(hs, status_name()) {
        Some(i) => match status_code_of(hs[i].1) {
            Some(c) => Ok(c),
            None => Err(ErrorView::InvalidStatus(hs[i].1)),
        },
        None => Ok(
            if success {
                200
            } else {
                500
            },
        ),
    }
}

/// The headers other than `Status`, in order.
pub open spec fn without_status(hs: Seq<(Seq<char>, Seq<char>)>) -> Seq<(Seq<char>, Seq<char>)>
    decreases hs.len(),
{
    if hs.len() == 0 {
        hs
    } else if hs.last().0 == status_name() {
        without_status(hs.drop_last())
    } else {
        without_status(hs.drop_last()).push(hs.last())
    }
}

/// The status and headers of the response, from the side-channel text and
/// whether the handler exited successfully.
pub open spec fn response_head_of(text: Seq<char>, success: bool) -> Result<(u16, Seq<(Seq<char>, Seq<char>)>), ErrorView> {
    match side_channel_headers(text) {
        Err(e) => Err(e),
        Ok(hs) => match response_status(hs, success) {
            Err(e) => Err(e),
            Ok(c) => Ok((c, without_status(hs))),
        },
    }
}

/// A response's status and headers, before its body.
#[derive(Debug, Clone, PartialEq, Eq)]
pub struct ResponseHead {
    pub status: u16,
    pub headers: Vec<(String, String)>,
}

/// The response's status and headers, from the headers the handler reported
/// and whether it exited successfully.
pub fn head_from_headers(hs: Vec<(String, String)>, exit_success: bool) -> (r: Result<ResponseHead, Error>)
    ensures
        match r {
            Ok(h) => response_status(pairs_view(hs@), exit_success) == Ok::<u16, ErrorView>(h.status)
                && pairs_view(h.headers@) == without_status(pairs_view(hs@)),
            Err(e) => response_status(pairs_view(hs@), exit_success) == Err::<u16, ErrorView>(e@),
        },
{
    let ghost hv = pairs_view(hs@);
    proof {
        reveal_strlit("Status");
        assert("Status"@ =~= status_name());
    }
    let status = match find_key(&hs, "Status") {
        Some(i) => match parse_status_code(hs[i].1.as_str()) {
            Some(c) => c,
            None => {
                return Err(Error::InvalidStatus(hs[i].1.clone()));
            },
        },
        None => if exit_success {
            200
        } else {
            500
        },
    };
    let mut headers: Vec<(String, String)> = Vec::new();
    let mut i: usize = 0;
    assert(hv.subrange(0, 0) =~= Seq::<(Seq<char>, Seq<char>)>::empty());
    assert(pairs_view(headers@) =~= Seq::<(Seq<char>, Seq<char>)>::empty());
    while i < hs.len()
        invariant
            hv == pairs_view(hs@),
            i <= hs@.len(),
            "Status"@ == status_name(),
            pairs_view(headers@) == without_status(hv.subrange(0, i as int)),
        decreases hs@.len() - i,
    {
        assert(hv.subrange(0, i + 1).drop_last() =~= hv.subrange(0, i as int));
        if !text_eq(hs[i].0.as_str(), "Status") {
            let a = hs[i].0.clone();
            let b = hs[i].1.clone();
            let ghost before = headers@;
            headers.push((a, b));
            assert(pairs_view(headers@) =~= pairs_view(before).push(hv[i as int]));
        }
        i = i + 1;
    }
    assert(hv.subrange(0, hs@.len() as int) =~= hv);
    Ok(ResponseHead { status, headers })
}

/// The response's status and headers, from what the handler wrote to the side
/// channel and whether it exited successfully.
pub fn response_head(side_channel: &str, exit_success: bool) -> (r: Result<ResponseHead, Error>)
    ensures
        match r {
            Ok(h) => response_head_of(side_channel@, exit_success) == Ok::<
                (u16, Seq<(Seq<char>, Seq<char>)>),
                ErrorView,
            >((h.status, pairs_view(h.headers@))),
            Err(e) => response_head_of(side_channel@, exit_success) == Err::<
                (u16, Seq<(Seq<char>, Seq<char>)>),
                ErrorView,
            >(e@),
        },
{
    match parse_headers(side_channel) {
        Ok(hs) => head_from_headers(hs, exit_success),
        Err(e) => Err(e),
    }
}

} // verus!
