//! Authors of commits: name, e-mail and the time of writing.
use vstd::prelude::*;
use crate::numeral::{decimal, parse_radix_spec};
use chrono::TimeZone;

verus! {

/// Who wrote a commit and when (seconds since the Unix epoch, UTC).
#[derive(Debug, Clone)]
pub struct Author {
    pub name: String,
    pub email: String,
    pub timestamp: i64,
}

/// Decimal text of a signed number.
pub open spec fn signed_decimal(n: int) -> Seq<char> {
    if n < 0 {
        seq!['-'] + decimal((-n) as nat)
    } else {
        decimal(n as nat)
    }
}

/// The line an author prints as: `<name> <<email>> <timestamp> +0000`.
pub open spec fn author_line(name: Seq<char>, email: Seq<char>, timestamp: i64) -> Seq<char> {
    name + " <"@ + email + "> "@ + signed_decimal(timestamp as int) + " +0000"@
}

/// An ASCII digit.
pub open spec fn ascii_digit(c: char) -> bool {
    '0' <= c && c <= '9'
}

/// The line splits as `<name> <<email>> <digits> <rest>` with a name of
/// `p` characters, an e-mail of `q` and `r >= 1` digits: ` <` follows the
/// name, `> ` the e-mail, a space the digits, and no line break occurs.
pub open spec fn author_split_at(l: Seq<char>, p: int, q: int, r: int) -> bool {
    &&& 0 <= p && 0 <= q && 1 <= r
    &&& p + q + r + 5 <= l.len()
    &&& l[p] == ' ' && l[p + 1] == '<'
    &&& l[p + 2 + q] == '>' && l[p + 3 + q] == ' '
    &&& (forall|t: int| p + 4 + q <= t < p + 4 + q + r ==> ascii_digit(#[trigger] l[t]))
    &&& l[p + 4 + q + r] == ' '
    &&& (forall|t: int| 0 <= t < l.len() ==> #[trigger] l[t] != '\n')
}

/// `(p, q, r)` comes no later than `(p2, q2, r2)` in lexicographic order.
pub open spec fn lex_le(p: int, q: int, r: int, p2: int, q2: int, r2: int) -> bool {
    p < p2 || (p == p2 && (q < q2 || (q == q2 && r <= r2)))
}

/// The split that `^(.*) <(.*)> (\d+) (.*)$` makes of a line, read with
/// ASCII digits: among all splits, the one with the longest name, then the
/// longest e-mail, then the most digits (the greedy groups).
pub open spec fn best_split(l: Seq<char>, p: int, q: int, r: int) -> bool {
    &&& author_split_at(l, p, q, r)
    &&& forall|p2: int, q2: int, r2: int| #[trigger] author_split_at(l, p2, q2, r2) ==> lex_le(p2, q2, r2, p, q, r)
}

/// The name, e-mail and digits of an author line, when it splits.
pub open spec fn author_groups(line: Seq<char>) -> Option<(Seq<char>, Seq<char>, Seq<char>)> {
    if exists|p: int, q: int, r: int| #[trigger] best_split(line, p, q, r) {
        let b = best_of(line);
        Some((line.take(b.0), line.subrange(b.0 + 2, b.0 + 2 + b.1), line.subrange(b.0 + 4 + b.1, b.0 + 4 + b.1 + b.2)))
    } else {
        None
    }
}

/// The lengths of the best split of a line, when it has one.
pub open spec fn best_of(line: Seq<char>) -> (int, int, int) {
    choose|p: int, q: int, r: int| #[trigger] best_split(line, p, q, r)
}

/// Whether the characters from `from` to `to` are ASCII digits.
fn ascii_digits(l: &[char], from: usize, to: usize) -> (r: bool)
    requires
        from <= to <= l@.len(),
    ensures
        r == forall|t: int| from <= t < to ==> ascii_digit(#[trigger] l@[t]),
{
    let mut i = from;
    while i < to
        invariant
            from <= i <= to <= l@.len(),
            forall|t: int| from <= t < i ==> ascii_digit(#[trigger] l@[t]),
        decreases to - i,
    {
        if !(l[i] >= '0' && l[i] <= '9') {
            return false;
        }
        i += 1;
    }
    true
}

/// Whether the line holds a line break.
fn has_line_break(l: &[char]) -> (r: bool)
    ensures
        r == exists|t: int| 0 <= t < l@.len() && #[trigger] l@[t] == '\n',
{
    let mut i: usize = 0;
    while i < l.len()
        invariant
            i <= l@.len(),
            forall|t: int| 0 <= t < i ==> #[trigger] l@[t] != '\n',
        decreases l@.len() - i,
    {
        if l[i] == '\n' {
            return true;
        }
        i += 1;
    }
    false
}

/// Splits an author line into its name, e-mail and digits: the greedy
/// split of `^(.*) <(.*)> (\d+) (.*)$`.
fn split_author_line(line: &str) -> (r: Option<(String, String, String)>)
    ensures
        r is Some <==> author_groups(line@) is Some,
        r matches Some(g) ==> (g.0@, g.1@, g.2@) == author_groups(line@)->0,
{
    let l = crate::text::chars_of(line);
    let ghost lv = line@;
    let len = l.len();
    if len < 5 || has_line_break(l.as_slice()) {
        proof {
            assert forall|p: int, q: int, r: int| !#[trigger] author_split_at(lv, p, q, r) by {
                if author_split_at(lv, p, q, r) {
                    let t = choose|t: int| 0 <= t < lv.len() && lv[t] == '\n';
                    if len >= 5 {
                        assert(lv[t] != '\n');
                    }
                }
            }
            assert(!exists|p: int, q: int, r: int| #[trigger] best_split(lv, p, q, r));
        }
        return None;
    }
    let mut p: usize = len - 5 + 1;
    while p > 0
        invariant
            len == l@.len(),
            lv == l@,
            lv == line@,
            len >= 5,
            p <= len - 4,
            forall|t: int| 0 <= t < lv.len() ==> #[trigger] lv[t] != '\n',
            forall|p2: int, q2: int, r2: int| p2 >= p && #[trigger] author_split_at(lv, p2, q2, r2) ==> false,
        decreases p,
    {
        p -= 1;
        if l[p] == ' ' && l[p + 1] == '<' {
            let mut q: usize = len - 5 - p + 1;
            while q > 0
                invariant
                    len == l@.len(),
                    lv == l@,
                    lv == line@,
                    len >= 5,
                    p + 5 <= len,
                    q <= len - 4 - p,
                    lv[p as int] == ' ' && lv[p + 1] == '<',
                    forall|t: int| 0 <= t < lv.len() ==> #[trigger] lv[t] != '\n',
                    forall|p2: int, q2: int, r2: int| p2 > p && #[trigger] author_split_at(lv, p2, q2, r2) ==> false,
                    forall|q2: int, r2: int| q2 >= q && #[trigger] author_split_at(lv, p as int, q2, r2) ==> false,
                decreases q,
            {
                q -= 1;
                let e = p + 2 + q;
                if l[e] == '>' && l[e + 1] == ' ' {
                    let mut r: usize = len - 5 - p - q + 1;
                    while r > 1
                        invariant
                            len == l@.len(),
                            lv == l@,
                            lv == line@,
                            e == p + 2 + q,
                            p + q + 5 <= len,
                            1 <= r <= len - 4 - p - q,
                            lv[p as int] == ' ' && lv[p + 1] == '<',
                            lv[e as int] == '>' && lv[e + 1] == ' ',
                            forall|t: int| 0 <= t < lv.len() ==> #[trigger] lv[t] != '\n',
                            forall|p2: int, q2: int, r2: int| p2 > p && #[trigger] author_split_at(lv, p2, q2, r2) ==> false,
                            forall|q2: int, r2: int| q2 > q && #[trigger] author_split_at(lv, p as int, q2, r2) ==> false,
                            forall|r2: int| r2 >= r && #[trigger] author_split_at(lv, p as int, q as int, r2) ==> false,
                        decreases r,
                    {
                        r -= 1;
                        let d = e + 2;
                        if l[d + r] == ' ' && ascii_digits(l.as_slice(), d, d + r) {
                            proof {
                                assert(author_split_at(lv, p as int, q as int, r as int));
                                assert forall|p2: int, q2: int, r2: int| #[trigger] author_split_at(lv, p2, q2, r2)
                                    implies lex_le(p2, q2, r2, p as int, q as int, r as int) by {
                                    if p2 > p {
                                    } else if p2 == p && q2 > q {
                                    } else if p2 == p && q2 == q && r2 > r {
                                    }
                                }
                                assert(best_split(lv, p as int, q as int, r as int));
                            }
                            let name = crate::text::string_of(crate::text::slice_chars(l.as_slice(), 0, p).as_slice());
                            let email = crate::text::string_of(crate::text::slice_chars(l.as_slice(), p + 2, e).as_slice());
                            let digits = crate::text::string_of(crate::text::slice_chars(l.as_slice(), d, d + r).as_slice());
                            proof {
                                let b = best_of(lv);
                                assert(best_split(lv, b.0, b.1, b.2));
                                assert(lex_le(b.0, b.1, b.2, p as int, q as int, r as int));
                                assert(lex_le(p as int, q as int, r as int, b.0, b.1, b.2));
                                assert(b.0 == p && b.1 == q && b.2 == r);
                                assert(name@ =~= lv.take(p as int));
                            }
                            return Some((name, email, digits));
                        }
                        proof {
                            assert(!author_split_at(lv, p as int, q as int, r as int));
                        }
                    }
                    proof {
                        assert forall|r2: int| #[trigger] author_split_at(lv, p as int, q as int, r2) implies false by {
                            if r2 < 1 {} else {}
                        }
                    }
                } else {
                    proof {
                        assert forall|r2: int| #[trigger] author_split_at(lv, p as int, q as int, r2) implies false by {}
                    }
                }
            }
        } else {
            proof {
                assert forall|q2: int, r2: int| #[trigger] author_split_at(lv, p as int, q2, r2) implies false by {}
            }
        }
    }
    proof {
        assert forall|p2: int, q2: int, r2: int| #[trigger] best_split(lv, p2, q2, r2) implies false by {
            assert(author_split_at(lv, p2, q2, r2));
        }
    }
    None
}

/// Whether `chrono` has a UTC date for a timestamp (`Utc.timestamp_opt(t, 0)` is `Single`).
pub uninterp spec fn utc_representable(timestamp: i64) -> bool;

/// Asks `chrono` whether a UTC date exists for a timestamp (`Utc.timestamp_opt`).
#[verifier::external_body]
fn representable(timestamp: i64) -> (r: bool)
    ensures
        r == utc_representable(timestamp),
{
    match chrono::Utc.timestamp_opt(timestamp, 0) {
        chrono::LocalResult::Single(_) => true,
        _ => false,
    }
}

/// What `Author::parse` makes of the groups of a line: the timestamp group
/// must read as an `i64` that `chrono` can place in time.
pub open spec fn author_from_groups(g: (Seq<char>, Seq<char>, Seq<char>)) -> Option<(Seq<char>, Seq<char>, i64)> {
    match parse_radix_spec(g.2, 10, 0x7fff_ffff_ffff_ffffnat) {
        Some(t) => if utc_representable(t as i64) {
            Some((g.0, g.1, t as i64))
        } else {
            None
        },
        None => None,
    }
}

/// Formats a signed number in decimal.
pub fn format_signed(n: i64) -> (s: String)
    ensures
        s@ == signed_decimal(n as int),
{
    if n < 0 {
        let m: u64 = if n == i64::MIN { 0x8000_0000_0000_0000u64 } else { (-n) as u64 };
        let d = crate::numeral::format_decimal(m);
        proof {
            reveal_strlit("-");
            assert("-"@ =~= seq!['-']);
        }
        crate::text::concat("-", d.as_str())
    } else {
        crate::numeral::format_decimal(n as u64)
    }
}

impl Author {
    /// An author writing now.
    pub fn new(name: String, email: String) -> (a: Self)
        ensures
            a.name@ == name@,
            a.email@ == email@,
    {
        let secs = crate::clock::now_secs();
        let now: i64 = if secs > 0x7fff_ffff_ffff_ffff { 0x7fff_ffff_ffff_ffff } else { secs as i64 };
        Self::new_at(name, email, now)
    }

    /// An author writing at `timestamp`.
    pub fn new_at(name: String, email: String, timestamp: i64) -> (a: Self)
        ensures
            a.name@ == name@,
            a.email@ == email@,
            a.timestamp == timestamp,
    {
        Author { name, email, timestamp }
    }

    /// The author as the line commits record: `<name> <<email>> <timestamp> +0000`.
    pub fn to_line(&self) -> (s: String)
        ensures
            s@ == author_line(self.name@, self.email@, self.timestamp),
    {
        let mut s = crate::text::concat(self.name.as_str(), " <");
        crate::text::push_str(&mut s, self.email.as_str());
        crate::text::push_str(&mut s, "> ");
        let t = format_signed(self.timestamp);
        crate::text::push_str(&mut s, t.as_str());
        crate::text::push_str(&mut s, " +0000");
        s
    }

    /// Reads an author from its line `<name> <<email>> <timestamp> <zone>`.
    pub fn parse(author_str: &str) -> (r: Result<Self, String>)
        ensures
            r is Ok <==> (author_groups(author_str@) is Some
                && author_from_groups(author_groups(author_str@)->0) is Some),
            r matches Ok(a) ==> (a.name@, a.email@, a.timestamp) == author_from_groups(author_groups(author_str@)->0)->0,
    {
        let (name, email, ts) = match split_author_line(author_str) {
            Some(g) => g,
            None => {
                return Err(crate::text::concat("Invalid author format: ", author_str));
            },
        };
        let digits = crate::text::chars_of(ts.as_str());
        let t = match crate::numeral::parse_radix(digits.as_slice(), 10, 0x7fff_ffff_ffff_ffff) {
            Some(v) => v as i64,
            None => {
                return Err(crate::text::concat("Invalid timestamp: ", ts.as_str()));
            },
        };
        if !representable(t) {
            let shown = format_signed(t);
            return Err(crate::text::concat("Invalid timestamp value: ", shown.as_str()));
        }
        Ok(Author { name, email, timestamp: t })
    }
}

} // verus!
