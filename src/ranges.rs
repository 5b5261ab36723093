//! Index lists such as `2,4-6` and their namespaced form `Actors:1,2;Map:5-6`,
//! which select the maps and events to skip.
use vstd::prelude::*;
use crate::text::{
    digits_value, find_char, first_index, int_error_text, is_digit, is_first, is_ws,
    lemma_digit_run_unique, lemma_first_unique, lemma_split_concat, lemma_split_none,
    parse_u16, parse_u16_str, split_seq, split_str, trim, trim_end, trim_start, trim_str,
    is_digit_run, unsigned_body, IntError,
};

verus! {

/// What went wrong in an index list.
#[derive(Clone, Copy, Debug, PartialEq, Eq, Structural)]
pub enum RangeErrorKind {
    /// The part before `-` is no `u16`.
    InvalidStart(IntError),
    /// The part after `-` is no `u16`.
    InvalidEnd(IntError),
    /// A token without `-` is no `u16`.
    InvalidInteger(IntError),
    /// A range whose start lies past its end.
    Reversed,
    /// A namespaced section without `:`.
    MissingColon,
}

/// An index-list error, with the fragment of the input it is about.
#[derive(Clone, Debug)]
pub struct RangeError {
    pub kind: RangeErrorKind,
    pub token: String,
}

/// The text shown for an error of `kind` about `token`.
pub open spec fn range_error_text(kind: RangeErrorKind, token: Seq<char>) -> Seq<char> {
    match kind {
        RangeErrorKind::InvalidStart(e) => "Invalid start of range `"@ + token + "`: "@
            + int_error_text(e),
        RangeErrorKind::InvalidEnd(e) => "Invalid end of range `"@ + token + "`: "@ + int_error_text(
            e,
        ),
        RangeErrorKind::InvalidInteger(e) => "Invalid integer `"@ + token + "`: "@ + int_error_text(
            e,
        ),
        RangeErrorKind::Reversed => "Range `"@ + token + "` is reversed (start > end)"@,
        RangeErrorKind::MissingColon => "Section `"@ + token
            + "` has no `:` between the file name and its indices"@,
    }
}

impl RangeError {
    /// The error as text; it always quotes the offending fragment.
    pub fn message(&self) -> (r: String)
        ensures
            r@ == range_error_text(self.kind, self.token@),
    {
        let (head, tail): (&str, &str) = match self.kind {
            RangeErrorKind::InvalidStart(_) => ("Invalid start of range `", "`: "),
            RangeErrorKind::InvalidEnd(_) => ("Invalid end of range `", "`: "),
            RangeErrorKind::InvalidInteger(_) => ("Invalid integer `", "`: "),
            RangeErrorKind::Reversed => ("Range `", "` is reversed (start > end)"),
            RangeErrorKind::MissingColon => (
                "Section `",
                "` has no `:` between the file name and its indices",
            ),
        };
        let mut r = head.to_owned();
        r.append(self.token.as_str());
        r.append(tail);
        match self.kind {
            RangeErrorKind::InvalidStart(e) | RangeErrorKind::InvalidEnd(e)
            | RangeErrorKind::InvalidInteger(e) => {
                r.append(e.message());
            },
            _ => {},
        }
        r
    }
}

/// `x, x + 1, ..., y`.
pub open spec fn span(x: u16, y: u16) -> Seq<u16> {
    Seq::new((y - x + 1) as nat, |i: int| (x + i) as u16)
}

/// One trimmed, non-empty token of a list: `n` or `start-end`.
pub open spec fn parse_token(t: Seq<char>) -> Result<Seq<u16>, (RangeErrorKind, Seq<char>)> {
    let k = first_index(t, '-');
    if k >= 0 {
        let a = t.take(k);
        let b = t.skip(k + 1);
        match parse_u16(a) {
            Err(e) => Err((RangeErrorKind::InvalidStart(e), a)),
            Ok(x) => match parse_u16(b) {
                Err(e) => Err((RangeErrorKind::InvalidEnd(e), b)),
                Ok(y) => if x > y {
                    Err((RangeErrorKind::Reversed, t))
                } else {
                    Ok(span(x, y))
                },
            },
        }
    } else {
        match parse_u16(t) {
            Err(e) => Err((RangeErrorKind::InvalidInteger(e), t)),
            Ok(v) => Ok(seq![v]),
        }
    }
}

/// The comma-separated pieces `ps`, each trimmed, empty ones skipped, read
/// from the left; the first bad token decides the error.
pub open spec fn parse_pieces(ps: Seq<Seq<char>>) -> Result<Seq<u16>, (RangeErrorKind, Seq<char>)>
    decreases ps.len(),
{
    if ps.len() == 0 {
        Ok(Seq::empty())
    } else {
        match parse_pieces(ps.drop_last()) {
            Err(e) => Err(e),
            Ok(acc) => {
                let t = trim(ps.last());
                if t.len() == 0 {
                    Ok(acc)
                } else {
                    match parse_token(t) {
                        Err(e) => Err(e),
                        Ok(v) => Ok(acc + v),
                    }
                }
            },
        }
    }
}

/// An index list: tokens between commas, in the order written.
pub open spec fn parse_list(s: Seq<char>) -> Result<Seq<u16>, (RangeErrorKind, Seq<char>)> {
    parse_pieces(split_seq(s, ','))
}

/// Once a prefix of the pieces fails, the whole list fails the same way.
proof fn lemma_pieces_err_stays(ps: Seq<Seq<char>>, i: int)
    requires
        0 <= i <= ps.len(),
        parse_pieces(ps.take(i)) is Err,
    ensures
        parse_pieces(ps) == parse_pieces(ps.take(i)),
    decreases ps.len() - i,
{
    if i < ps.len() {
        assert(ps.take(i + 1).drop_last() =~= ps.take(i));
        lemma_pieces_err_stays(ps, i + 1);
    } else {
        assert(ps.take(i) =~= ps);
    }
}

fn range_error(kind: RangeErrorKind, token: &str) -> (e: RangeError)
    ensures
        e.kind == kind,
        e.token@ == token@,
{
    RangeError { kind, token: token.to_owned() }
}

/// Reads one trimmed, non-empty token.
pub fn parse_token_str(t: &str) -> (r: Result<Vec<u16>, RangeError>)
    ensures
        match r {
            Ok(v) => parse_token(t@) == Ok::<Seq<u16>, (RangeErrorKind, Seq<char>)>(v@),
            Err(e) => parse_token(t@) == Err::<Seq<u16>, (RangeErrorKind, Seq<char>)>(
                (e.kind, e.token@),
            ),
        },
{
    match find_char(t, '-') {
        Some(k) => {
            let n = t.unicode_len();
            let a = t.substring_char(0, k);
            let b = t.substring_char(k + 1, n);
            proof {
                assert(a@ =~= t@.take(k as int));
                assert(b@ =~= t@.skip(k + 1));
            }
            let x = match parse_u16_str(a) {
                Ok(x) => x,
                Err(e) => {
                    return Err(range_error(RangeErrorKind::InvalidStart(e), a));
                },
            };
            let y = match parse_u16_str(b) {
                Ok(y) => y,
                Err(e) => {
                    return Err(range_error(RangeErrorKind::InvalidEnd(e), b));
                },
            };
            if x > y {
                return Err(range_error(RangeErrorKind::Reversed, t));
            }
            let mut out: Vec<u16> = Vec::new();
            let mut v: u32 = x as u32;
            while v <= y as u32
                invariant
                    x <= y,
                    x as u32 <= v <= y as u32 + 1,
                    out@ =~= Seq::new((v - x) as nat, |i: int| (x + i) as u16),
                decreases y as u32 + 1 - v,
            {
                out.push(v as u16);
                v = v + 1;
            }
            assert(out@ =~= span(x, y));
            Ok(out)
        },
        None => {
            match parse_u16_str(t) {
                Ok(v) => {
                    let out = vec![v];
                    assert(out@ =~= seq![v]);
                    Ok(out)
                },
                Err(e) => Err(range_error(RangeErrorKind::InvalidInteger(e), t)),
            }
        },
    }
}

/// Reads an index list; fails with the first bad token, adding nothing.
pub fn parse_list_str(s: &str) -> (r: Result<Vec<u16>, RangeError>)
    ensures
        match r {
            Ok(v) => parse_list(s@) == Ok::<Seq<u16>, (RangeErrorKind, Seq<char>)>(v@),
            Err(e) => parse_list(s@) == Err::<Seq<u16>, (RangeErrorKind, Seq<char>)>(
                (e.kind, e.token@),
            ),
        },
{
    let pieces = split_str(s, ',');
    let ghost ps = pieces@.map_values(|p: &str| p@);
    let mut out: Vec<u16> = Vec::new();
    let mut i: usize = 0;
    assert(ps.take(0) =~= Seq::<Seq<char>>::empty());
    while i < pieces.len()
        invariant
            ps == pieces@.map_values(|p: &str| p@),
            ps == split_seq(s@, ','),
            i <= pieces.len(),
            parse_pieces(ps.take(i as int)) == Ok::<Seq<u16>, (RangeErrorKind, Seq<char>)>(out@),
        decreases pieces.len() - i,
    {
        let t = trim_str(pieces[i]);
        proof {
            assert(ps.take(i + 1).drop_last() =~= ps.take(i as int));
            assert(ps.take(i + 1).last() == pieces@[i as int]@);
        }
        if t.unicode_len() > 0 {
            match parse_token_str(t) {
                Ok(v) => {
                    let mut v = v;
                    out.append(&mut v);
                },
                Err(e) => {
                    proof {
                        lemma_pieces_err_stays(ps, i + 1);
                    }
                    return Err(e);
                },
            }
        }
        i = i + 1;
    }
    proof {
        assert(ps.take(pieces.len() as int) =~= ps);
    }
    Ok(out)
}

/// Map indices to skip, in the order the list names them.
#[derive(Debug, Clone)]
pub struct SkipMaps(pub Vec<u16>);

impl SkipMaps {
    /// Reads `s` in the list syntax: comma-separated `n` or inclusive
    /// `start-end` tokens, whitespace around tokens ignored, empty tokens
    /// skipped.
    pub fn parse(s: &str) -> (r: Result<SkipMaps, RangeError>)
        ensures
            match r {
                Ok(m) => parse_list(s@) == Ok::<Seq<u16>, (RangeErrorKind, Seq<char>)>(m.0@),
                Err(e) => parse_list(s@) == Err::<Seq<u16>, (RangeErrorKind, Seq<char>)>(
                    (e.kind, e.token@),
                ),
            },
    {
        match parse_list_str(s) {
            Ok(v) => Ok(SkipMaps(v)),
            Err(e) => Err(e),
        }
    }
}

impl std::str::FromStr for SkipMaps {
    type Err = String;

    fn from_str(s: &str) -> Result<Self, Self::Err> {
        match SkipMaps::parse(s) {
            Ok(m) => Ok(m),
            Err(e) => Err(e.message()),
        }
    }
}

/// One namespaced section, trimmed and non-empty: `name:list`.
pub open spec fn parse_section(t: Seq<char>) -> Result<
    (Seq<char>, Seq<u16>),
    (RangeErrorKind, Seq<char>),
> {
    let k = first_index(t, ':');
    if k < 0 {
        Err((RangeErrorKind::MissingColon, t))
    } else {
        match parse_list(t.skip(k + 1)) {
            Err(e) => Err(e),
            Ok(v) => Ok((t.take(k), v)),
        }
    }
}

/// The `;`-separated sections `ss`, each trimmed, empty ones skipped, read
/// from the left; the first bad section decides the error.
pub open spec fn parse_sections(ss: Seq<Seq<char>>) -> Result<
    Seq<(Seq<char>, Seq<u16>)>,
    (RangeErrorKind, Seq<char>),
>
    decreases ss.len(),
{
    if ss.len() == 0 {
        Ok(Seq::empty())
    } else {
        match parse_sections(ss.drop_last()) {
            Err(e) => Err(e),
            Ok(acc) => {
                let t = trim(ss.last());
                if t.len() == 0 {
                    Ok(acc)
                } else {
                    match parse_section(t) {
                        Err(e) => Err(e),
                        Ok(sec) => Ok(acc.push(sec)),
                    }
                }
            },
        }
    }
}

/// The namespaced syntax: `name:list;name:list`, sections in the order written.
pub open spec fn parse_namespaced(s: Seq<char>) -> Result<
    Seq<(Seq<char>, Seq<u16>)>,
    (RangeErrorKind, Seq<char>),
> {
    parse_sections(split_seq(s, ';'))
}

proof fn lemma_sections_err_stays(ss: Seq<Seq<char>>, i: int)
    requires
        0 <= i <= ss.len(),
        parse_sections(ss.take(i)) is Err,
    ensures
        parse_sections(ss) == parse_sections(ss.take(i)),
    decreases ss.len() - i,
{
    if i < ss.len() {
        assert(ss.take(i + 1).drop_last() =~= ss.take(i));
        lemma_sections_err_stays(ss, i + 1);
    } else {
        assert(ss.take(i) =~= ss);
    }
}

/// Event indices to skip, per file: the file's name as written, and its
/// indices in the order the list names them. A name may come more than once.
#[derive(Debug, Clone)]
pub struct SkipEvents(pub Vec<(String, Vec<u16>)>);

impl SkipEvents {
    pub open spec fn sections(&self) -> Seq<(Seq<char>, Seq<u16>)> {
        self.0@.map_values(|p: (String, Vec<u16>)| (p.0@, p.1@))
    }

    /// Reads `s` in the namespaced syntax: sections split on `;`, trimmed,
    /// empty ones skipped; each holds a name, `:` and an index list.
    pub fn parse(s: &str) -> (r: Result<SkipEvents, RangeError>)
        ensures
            match r {
                Ok(m) => parse_namespaced(s@) == Ok::<
                    Seq<(Seq<char>, Seq<u16>)>,
                    (RangeErrorKind, Seq<char>),
                >(m.sections()),
                Err(e) => parse_namespaced(s@) == Err::<
                    Seq<(Seq<char>, Seq<u16>)>,
                    (RangeErrorKind, Seq<char>),
                >((e.kind, e.token@)),
            },
    {
        let secs = split_str(s, ';');
        let ghost ss = secs@.map_values(|p: &str| p@);
        let mut out: Vec<(String, Vec<u16>)> = Vec::new();
        let mut i: usize = 0;
        assert(ss.take(0) =~= Seq::<Seq<char>>::empty());
        assert(out@.map_values(|p: (String, Vec<u16>)| (p.0@, p.1@)) =~= Seq::<
            (Seq<char>, Seq<u16>),
        >::empty());
        while i < secs.len()
            invariant
                ss == secs@.map_values(|p: &str| p@),
                ss == split_seq(s@, ';'),
                i <= secs.len(),
                parse_sections(ss.take(i as int)) == Ok::<
                    Seq<(Seq<char>, Seq<u16>)>,
                    (RangeErrorKind, Seq<char>),
                >(out@.map_values(|p: (String, Vec<u16>)| (p.0@, p.1@))),
            decreases secs.len() - i,
        {
            let t = trim_str(secs[i]);
            proof {
                assert(ss.take(i + 1).drop_last() =~= ss.take(i as int));
                assert(ss.take(i + 1).last() == secs@[i as int]@);
            }
            if t.unicode_len() > 0 {
                match find_char(t, ':') {
                    None => {
                        proof {
                            lemma_sections_err_stays(ss, i + 1);
                        }
                        return Err(range_error(RangeErrorKind::MissingColon, t));
                    },
                    Some(k) => {
                        let n = t.unicode_len();
                        let name = t.substring_char(0, k);
                        let rest = t.substring_char(k + 1, n);
                        proof {
                            assert(name@ =~= t@.take(k as int));
                            assert(rest@ =~= t@.skip(k + 1));
                        }
                        match parse_list_str(rest) {
                            Ok(v) => {
                                let ghost before = out@;
                                out.push((name.to_owned(), v));
                                proof {
                                    assert(out@.map_values(|p: (String, Vec<u16>)| (p.0@, p.1@))
                                        =~= before.map_values(
                                        |p: (String, Vec<u16>)| (p.0@, p.1@),
                                    ).push((t@.take(k as int), parse_list(rest@)->Ok_0)));
                                }
                            },
                            Err(e) => {
                                proof {
                                    lemma_sections_err_stays(ss, i + 1);
                                }
                                return Err(e);
                            },
                        }
                    },
                }
            }
            i = i + 1;
        }
        proof {
            assert(ss.take(secs.len() as int) =~= ss);
        }
        Ok(SkipEvents(out))
    }
}

impl std::str::FromStr for SkipEvents {
    type Err = String;

    fn from_str(s: &str) -> Result<Self, Self::Err> {
        match SkipEvents::parse(s) {
            Ok(m) => Ok(m),
            Err(e) => Err(e.message()),
        }
    }
}

/// The non-empty pieces of `s` between commas, untrimmed.
pub open spec fn nonempty_pieces(ps: Seq<Seq<char>>) -> Seq<Seq<char>>
    decreases ps.len(),
{
    if ps.len() == 0 {
        Seq::empty()
    } else {
        let acc = nonempty_pieces(ps.drop_last());
        if ps.last().len() == 0 {
            acc
        } else {
            acc.push(ps.last())
        }
    }
}

/// The union of flag bits.
pub open spec fn union_all(bits: Seq<u16>) -> u16
    decreases bits.len(),
{
    if bits.len() == 0 {
        0
    } else {
        union_all(bits.drop_last()) | bits.last()
    }
}

/// File kinds to skip, as `FileFlags` bits.
#[derive(Debug, Clone, Copy)]
pub struct FFlags(pub u16);

impl FFlags {
    /// The flag names of a comma-separated list, empty names skipped.
    pub fn names(s: &str) -> (r: Vec<&str>)
        ensures
            r@.map_values(|p: &str| p@) == nonempty_pieces(split_seq(s@, ',')),
    {
        let pieces = split_str(s, ',');
        let ghost ps = pieces@.map_values(|p: &str| p@);
        let mut out: Vec<&str> = Vec::new();
        let mut i: usize = 0;
        assert(ps.take(0) =~= Seq::<Seq<char>>::empty());
        assert(out@.map_values(|p: &str| p@) =~= Seq::<Seq<char>>::empty());
        while i < pieces.len()
            invariant
                ps == pieces@.map_values(|p: &str| p@),
                i <= pieces.len(),
                out@.map_values(|p: &str| p@) == nonempty_pieces(ps.take(i as int)),
            decreases pieces.len() - i,
        {
            let p = pieces[i];
            proof {
                assert(ps.take(i + 1).drop_last() =~= ps.take(i as int));
                assert(ps.take(i + 1).last() == p@);
            }
            if p.unicode_len() > 0 {
                let ghost before = out@;
                out.push(p);
                assert(out@.map_values(|q: &str| q@) =~= before.map_values(|q: &str| q@).push(
                    p@,
                ));
            }
            i = i + 1;
        }
        assert(ps.take(pieces.len() as int) =~= ps);
        out
    }

    /// The flags named, combined.
    pub fn from_bits_list(bits: &Vec<u16>) -> (r: FFlags)
        ensures
            r.0 == union_all(bits@),
    {
        let mut acc: u16 = 0;
        let mut i: usize = 0;
        assert(bits@.take(0) =~= Seq::<u16>::empty());
        while i < bits.len()
            invariant
                i <= bits.len(),
                acc == union_all(bits@.take(i as int)),
            decreases bits.len() - i,
        {
            assert(bits@.take(i + 1).drop_last() =~= bits@.take(i as int));
            acc = acc | bits[i];
            i = i + 1;
        }
        assert(bits@.take(bits.len() as int) =~= bits@);
        FFlags(acc)
    }
}

/// Two results read one after the other: the first error, or both values
/// joined.
pub open spec fn then_list(
    a: Result<Seq<u16>, (RangeErrorKind, Seq<char>)>,
    b: Result<Seq<u16>, (RangeErrorKind, Seq<char>)>,
) -> Result<Seq<u16>, (RangeErrorKind, Seq<char>)> {
    match a {
        Err(e) => Err(e),
        Ok(x) => match b {
            Err(e) => Err(e),
            Ok(y) => Ok(x + y),
        },
    }
}

proof fn lemma_pieces_concat(a: Seq<Seq<char>>, b: Seq<Seq<char>>)
    ensures
        parse_pieces(a + b) == then_list(parse_pieces(a), parse_pieces(b)),
    decreases b.len(),
{
    if b.len() == 0 {
        assert(a + b =~= a);
        if let Ok(x) = parse_pieces(a) {
            assert(x + Seq::<u16>::empty() =~= x);
        }
    } else {
        assert((a + b).drop_last() =~= a + b.drop_last());
        assert((a + b).last() == b.last());
        lemma_pieces_concat(a, b.drop_last());
        if let Ok(x) = parse_pieces(a) {
            if let Ok(y) = parse_pieces(b.drop_last()) {
                let t = trim(b.last());
                if t.len() > 0 {
                    if let Ok(v) = parse_token(t) {
                        assert(x + y + v =~= x + (y + v));
                    }
                }
            }
        }
    }
}

/// Lists read in the order written: the list `s1,s2` gives the indices of
/// `s1` followed by those of `s2`, and fails where either fails, with the
/// first error.
pub proof fn lemma_list_in_order(s1: Seq<char>, s2: Seq<char>)
    ensures
        parse_list(s1 + seq![','] + s2) == then_list(parse_list(s1), parse_list(s2)),
{
    lemma_split_concat(s1, s2, ',');
    lemma_pieces_concat(split_seq(s1, ','), split_seq(s2, ','));
}

proof fn lemma_digits_not_ws(d: Seq<char>)
    requires
        forall|j: int| 0 <= j < d.len() ==> is_digit(#[trigger] d[j]),
    ensures
        forall|j: int| 0 <= j < d.len() ==> !is_ws(#[trigger] d[j]),
{
    assert forall|j: int| 0 <= j < d.len() implies !is_ws(#[trigger] d[j]) by {
        assert(is_digit(d[j]));
    }
}

proof fn lemma_parse_digits(d: Seq<char>)
    requires
        d.len() > 0,
        forall|j: int| 0 <= j < d.len() ==> is_digit(#[trigger] d[j]),
        digits_value(d) <= 0xffff,
    ensures
        parse_u16(d) == Ok::<u16, IntError>(digits_value(d) as u16),
{
    assert(is_digit(d[0]));
    assert(unsigned_body(d) == d);
    assert(is_digit_run(d, d.len() as int));
    lemma_digit_run_unique(d, d.len() as int);
    assert(d.take(d.len() as int) =~= d);
}

/// A token `start-end` whose start is past its end fails the whole list with
/// a reversed-range error about that token, whose text quotes it.
pub proof fn lemma_reversed_range_fails(a: Seq<char>, b: Seq<char>)
    requires
        a.len() > 0,
        b.len() > 0,
        forall|j: int| 0 <= j < a.len() ==> is_digit(#[trigger] a[j]),
        forall|j: int| 0 <= j < b.len() ==> is_digit(#[trigger] b[j]),
        digits_value(a) <= 0xffff,
        digits_value(b) <= 0xffff,
        digits_value(a) > digits_value(b),
    ensures
        parse_list(a + seq!['-'] + b) == Err::<Seq<u16>, (RangeErrorKind, Seq<char>)>(
            (RangeErrorKind::Reversed, a + seq!['-'] + b),
        ),
        crate::text::contains(
            range_error_text(RangeErrorKind::Reversed, a + seq!['-'] + b),
            a + seq!['-'] + b,
        ),
{
    let t = a + seq!['-'] + b;
    assert forall|j: int| 0 <= j < t.len() implies t[j] != ',' by {
        if j < a.len() {
            assert(is_digit(a[j]));
        } else if j > a.len() {
            assert(t[j] == b[j - a.len() - 1]);
            assert(is_digit(b[j - a.len() - 1]));
        }
    }
    lemma_split_none(t, ',');
    assert(is_digit(a[0]));
    assert(is_digit(b[b.len() - 1]));
    assert(t[0] == a[0]);
    assert(t.last() == b[b.len() - 1]);
    assert(trim_start(t) == t);
    assert(trim_end(t) == t);
    assert(is_first(t, '-', a.len() as int)) by {
        assert forall|j: int| 0 <= j < a.len() implies t[j] != '-' by {
            assert(is_digit(a[j]));
        }
    }
    lemma_first_unique(t, '-', a.len() as int);
    assert(t.take(a.len() as int) =~= a);
    assert(t.skip(a.len() as int + 1) =~= b);
    lemma_parse_digits(a);
    lemma_parse_digits(b);
    crate::text::lemma_digits_value_nonneg(a);
    crate::text::lemma_digits_value_nonneg(b);
    assert(parse_token(t) == Err::<Seq<u16>, (RangeErrorKind, Seq<char>)>(
        (RangeErrorKind::Reversed, t),
    ));
    assert(trim(t) == t);
    assert(seq![t].drop_last() =~= Seq::<Seq<char>>::empty());
    assert(seq![t].last() == t);
    assert(parse_pieces(seq![t].drop_last()) == Ok::<Seq<u16>, (RangeErrorKind, Seq<char>)>(
        Seq::empty(),
    ));
    assert(parse_pieces(seq![t]) == Err::<Seq<u16>, (RangeErrorKind, Seq<char>)>(
        (RangeErrorKind::Reversed, t),
    ));
    let msg = range_error_text(RangeErrorKind::Reversed, t);
    let pre = "Range `"@;
    assert(msg.subrange(pre.len() as int, pre.len() as int + t.len() as int) =~= t);
    assert(crate::text::occurs_at(msg, t, pre.len() as int));
}

/// Two results of section lists read one after the other.
pub open spec fn then_sections(
    a: Result<Seq<(Seq<char>, Seq<u16>)>, (RangeErrorKind, Seq<char>)>,
    b: Result<Seq<(Seq<char>, Seq<u16>)>, (RangeErrorKind, Seq<char>)>,
) -> Result<Seq<(Seq<char>, Seq<u16>)>, (RangeErrorKind, Seq<char>)> {
    match a {
        Err(e) => Err(e),
        Ok(x) => match b {
            Err(e) => Err(e),
            Ok(y) => Ok(x + y),
        },
    }
}

proof fn lemma_sections_concat(a: Seq<Seq<char>>, b: Seq<Seq<char>>)
    ensures
        parse_sections(a + b) == then_sections(parse_sections(a), parse_sections(b)),
    decreases b.len(),
{
    if b.len() == 0 {
        assert(a + b =~= a);
        if let Ok(x) = parse_sections(a) {
            assert(x + Seq::<(Seq<char>, Seq<u16>)>::empty() =~= x);
        }
    } else {
        assert((a + b).drop_last() =~= a + b.drop_last());
        assert((a + b).last() == b.last());
        lemma_sections_concat(a, b.drop_last());
        if let Ok(x) = parse_sections(a) {
            if let Ok(y) = parse_sections(b.drop_last()) {
                let t = trim(b.last());
                if t.len() > 0 {
                    if let Ok(sec) = parse_section(t) {
                        assert((x + y).push(sec) =~= x + y.push(sec));
                    }
                }
            }
        }
    }
}

/// Sections read in the order written, each with its own list: `s1;s2` gives
/// the sections of `s1` followed by those of `s2`; a name may repeat.
pub proof fn lemma_sections_in_order(s1: Seq<char>, s2: Seq<char>)
    ensures
        parse_namespaced(s1 + seq![';'] + s2) == then_sections(
            parse_namespaced(s1),
            parse_namespaced(s2),
        ),
{
    lemma_split_concat(s1, s2, ';');
    lemma_sections_concat(split_seq(s1, ';'), split_seq(s2, ';'));
}

/// A non-empty section without `:` makes the whole input fail.
pub proof fn lemma_missing_colon_fails(s: Seq<char>, i: int)
    requires
        0 <= i < split_seq(s, ';').len(),
        trim(split_seq(s, ';')[i]).len() > 0,
        forall|j: int|
            0 <= j < trim(split_seq(s, ';')[i]).len() ==> trim(split_seq(s, ';')[i])[j] != ':',
    ensures
        parse_namespaced(s) is Err,
{
    let ss = split_seq(s, ';');
    assert(ss.take(i + 1).drop_last() =~= ss.take(i));
    assert(ss.take(i + 1).last() == ss[i]);
    crate::text::lemma_first_absent(trim(ss[i]), ':');
    lemma_sections_err_stays(ss, i + 1);
}

} // verus!
