//! Request-head parsing.
//!
//! The collected bytes form a well-formed request head when they contain
//! the header terminator `\r\n\r\n`; everything up to and including the
//! first terminator is the header block, anything after it would be body
//! bytes and is left untouched. The first line splits at its first two
//! spaces into method, target and version (the version is the nonempty
//! rest of the line). Every following line up to the empty line is a
//! field: a name before the first colon and a value after it, with the
//! value's leading spaces dropped; a field line without a colon, or with
//! nothing after the colon, is malformed. The method is kept verbatim,
//! whatever its value: dispatching on it happens later.

use vstd::prelude::*;

use crate::ascii::{COLON, CR, LF, SP};
use crate::reader::copy_range;

verus! {

/// Why a byte sequence is not a well-formed request head.
#[derive(Clone, Copy, Debug, PartialEq, Eq, Structural)]
pub enum ParseError {
    /// No `\r\n\r\n` anywhere: the head is absent or still incomplete.
    MissingTerminator,
    /// The first line does not split into method, target and a nonempty
    /// version.
    BadRequestLine,
    /// Some field line has no colon, or nothing after its colon.
    BadField,
}

/// The first line of a request head.
pub struct RequestLine {
    /// Method token, kept verbatim.
    pub method: Vec<u8>,
    /// Request target, kept verbatim.
    pub target: Vec<u8>,
    /// Protocol version: the rest of the line after the second space.
    pub version: Vec<u8>,
}

/// One header field.
pub struct Field {
    /// Bytes before the first colon of the field line.
    pub name: Vec<u8>,
    /// Bytes after the colon, leading spaces dropped.
    pub value: Vec<u8>,
}

/// A parsed request head.
pub struct ParsedRequest {
    /// The request line.
    pub line: RequestLine,
    /// The fields, in the order they appear.
    pub fields: Vec<Field>,
    /// Length of the header block: index one past the first terminator.
    pub header_len: usize,
}

/// The fields as pairs of byte sequences.
pub open spec fn fields_view(fs: Seq<Field>) -> Seq<(Seq<u8>, Seq<u8>)> {
    fs.map(|i: int, f: Field| (f.name@, f.value@))
}

/// Index of the first occurrence of `b` at or after `from`.
pub open spec fn find_byte(s: Seq<u8>, from: int, b: u8) -> Option<int>
    decreases s.len() - from,
{
    if from < 0 || from >= s.len() {
        None
    } else if s[from] == b {
        Some(from)
    } else {
        find_byte(s, from + 1, b)
    }
}

/// Index of the first `\r\n` starting at or after `from`.
pub open spec fn find_crlf(s: Seq<u8>, from: int) -> Option<int>
    decreases s.len() - from,
{
    if from < 0 || from + 2 > s.len() {
        None
    } else if s[from] == CR && s[from + 1] == LF {
        Some(from)
    } else {
        find_crlf(s, from + 1)
    }
}

/// Index of the first `\r\n\r\n` starting at or after `from`.
pub open spec fn find_terminator(s: Seq<u8>, from: int) -> Option<int>
    decreases s.len() - from,
{
    if from < 0 || from + 4 > s.len() {
        None
    } else if s[from] == CR && s[from + 1] == LF && s[from + 2] == CR && s[from + 3] == LF {
        Some(from)
    } else {
        find_terminator(s, from + 1)
    }
}

/// `s` without its leading spaces.
pub open spec fn skip_spaces(s: Seq<u8>) -> Seq<u8>
    decreases s.len(),
{
    if s.len() > 0 && s[0] == SP {
        skip_spaces(s.drop_first())
    } else {
        s
    }
}

/// Splits a request line at its first two spaces; the version is the
/// nonempty rest of the line.
pub open spec fn spec_request_line(line: Seq<u8>) -> Option<(Seq<u8>, Seq<u8>, Seq<u8>)> {
    match find_byte(line, 0, SP) {
        None => None,
        Some(sp1) => match find_byte(line, sp1 + 1, SP) {
            None => None,
            Some(sp2) => if sp2 + 1 == line.len() {
                None
            } else {
                Some(
                    (
                        line.subrange(0, sp1),
                        line.subrange(sp1 + 1, sp2),
                        line.subrange(sp2 + 1, line.len() as int),
                    ),
                )
            },
        },
    }
}

/// Splits a field line at its first colon; the value is what follows the
/// colon, which must be nonempty before its leading spaces are dropped.
pub open spec fn spec_field_line(line: Seq<u8>) -> Option<(Seq<u8>, Seq<u8>)> {
    match find_byte(line, 0, COLON) {
        None => None,
        Some(c) => if c + 1 == line.len() {
            None
        } else {
            Some((line.subrange(0, c), skip_spaces(line.subrange(c + 1, line.len() as int))))
        },
    }
}

/// Parses field lines from `from` until the empty line.
pub open spec fn spec_fields(s: Seq<u8>, from: int) -> Option<Seq<(Seq<u8>, Seq<u8>)>>
    decreases s.len() - from,
{
    match find_crlf(s, from) {
        None => None,
        Some(end) => if end == from {
            Some(Seq::empty())
        } else {
            proof {
                lemma_find_crlf_in_range(s, from);
            }
            match spec_field_line(s.subrange(from, end)) {
                None => None,
                Some(f) => match spec_fields(s, end + 2) {
                    None => None,
                    Some(rest) => Some(seq![f] + rest),
                },
            }
        },
    }
}

/// A parsed request head, at the specification level.
pub struct SpecRequest {
    pub method: Seq<u8>,
    pub target: Seq<u8>,
    pub version: Seq<u8>,
    pub fields: Seq<(Seq<u8>, Seq<u8>)>,
    pub header_len: int,
}

/// What parsing a collected byte sequence yields.
pub open spec fn spec_parse(s: Seq<u8>) -> Result<SpecRequest, ParseError> {
    match find_terminator(s, 0) {
        None => Err(ParseError::MissingTerminator),
        Some(t) => match find_crlf(s, 0) {
            None => Err(ParseError::MissingTerminator),
            Some(le) => match spec_request_line(s.subrange(0, le)) {
                None => Err(ParseError::BadRequestLine),
                Some((m, tg, v)) => match spec_fields(s, le + 2) {
                    None => Err(ParseError::BadField),
                    Some(fs) => Ok(
                        SpecRequest {
                            method: m,
                            target: tg,
                            version: v,
                            fields: fs,
                            header_len: t + 4,
                        },
                    ),
                },
            },
        },
    }
}

proof fn lemma_find_byte_hit(s: Seq<u8>, from: int, b: u8, i: int)
    requires
        0 <= from <= i < s.len(),
        s[i] == b,
        forall|j: int| from <= j < i ==> s[j] != b,
    ensures
        find_byte(s, from, b) == Some(i),
    decreases i - from,
{
    if from < i {
        lemma_find_byte_hit(s, from + 1, b, i);
    }
}

proof fn lemma_find_byte_miss(s: Seq<u8>, from: int, b: u8)
    requires
        0 <= from,
        forall|j: int| from <= j < s.len() ==> s[j] != b,
    ensures
        find_byte(s, from, b) is None,
    decreases s.len() - from,
{
    if from < s.len() {
        lemma_find_byte_miss(s, from + 1, b);
    }
}

proof fn lemma_find_crlf_hit(s: Seq<u8>, from: int, i: int)
    requires
        0 <= from <= i,
        i + 2 <= s.len(),
        s[i] == CR && s[i + 1] == LF,
        forall|j: int| from <= j < i ==> !(#[trigger] s[j] == CR && s[j + 1] == LF),
    ensures
        find_crlf(s, from) == Some(i),
    decreases i - from,
{
    if from < i {
        lemma_find_crlf_hit(s, from + 1, i);
    }
}

proof fn lemma_find_crlf_miss(s: Seq<u8>, from: int)
    requires
        0 <= from,
        forall|j: int| from <= j && j + 2 <= s.len() ==> !(#[trigger] s[j] == CR && s[j + 1] == LF),
    ensures
        find_crlf(s, from) is None,
    decreases s.len() - from,
{
    if from + 2 <= s.len() {
        lemma_find_crlf_miss(s, from + 1);
    }
}

/// A found `\r\n` lies at or after `from` and two bytes before the end.
pub proof fn lemma_find_crlf_in_range(s: Seq<u8>, from: int)
    ensures
        match find_crlf(s, from) {
            Some(i) => from <= i && i + 2 <= s.len(),
            None => true,
        },
    decreases s.len() - from,
{
    if !(from < 0 || from + 2 > s.len()) {
        lemma_find_crlf_in_range(s, from + 1);
    }
}

proof fn lemma_find_terminator_hit(s: Seq<u8>, from: int, i: int)
    requires
        0 <= from <= i,
        i + 4 <= s.len(),
        s[i] == CR && s[i + 1] == LF && s[i + 2] == CR && s[i + 3] == LF,
        forall|j: int|
            from <= j < i ==> !(#[trigger] s[j] == CR && s[j + 1] == LF && s[j + 2] == CR && s[j
                + 3] == LF),
    ensures
        find_terminator(s, from) == Some(i),
    decreases i - from,
{
    if from < i {
        lemma_find_terminator_hit(s, from + 1, i);
    }
}

proof fn lemma_find_terminator_miss(s: Seq<u8>, from: int)
    requires
        0 <= from,
        forall|j: int|
            from <= j && j + 4 <= s.len() ==> !(#[trigger] s[j] == CR && s[j + 1] == LF && s[j
                + 2] == CR && s[j + 3] == LF),
    ensures
        find_terminator(s, from) is None,
    decreases s.len() - from,
{
    if from + 4 <= s.len() {
        lemma_find_terminator_miss(s, from + 1);
    }
}

/// Dropping all-space prefixes: if the first `j` bytes are spaces and the
/// byte at `j` (if any) is not, skipping leading spaces keeps exactly the
/// bytes from `j` on.
proof fn lemma_skip_spaces(s: Seq<u8>, j: int)
    requires
        0 <= j <= s.len(),
        forall|k: int| 0 <= k < j ==> s[k] == SP,
        j < s.len() ==> s[j] != SP,
    ensures
        skip_spaces(s) == s.subrange(j, s.len() as int),
    decreases j,
{
    if j == 0 {
        assert(s.subrange(0, s.len() as int) =~= s);
    } else {
        lemma_skip_spaces(s.drop_first(), j - 1);
        assert(s.drop_first().subrange(j - 1, s.drop_first().len() as int) =~= s.subrange(
            j,
            s.len() as int,
        ));
    }
}

/// First occurrence of `b` in `s` at or after `from`, as the grammar's
/// [`find_byte`] defines it.
pub fn find_byte_from(s: &[u8], from: usize, b: u8) -> (r: Option<usize>)
    requires
        from <= s@.len(),
    ensures
        match r {
            Some(i) => from <= i && i < s@.len() && find_byte(s@, from as int, b) == Some(i as int),
            None => find_byte(s@, from as int, b) is None,
        },
{
    let mut i: usize = from;
    while i < s.len()
        invariant
            from <= i <= s@.len(),
            forall|j: int| from <= j < i ==> s@[j] != b,
        decreases s@.len() - i,
    {
        if s[i] == b {
            proof {
                lemma_find_byte_hit(s@, from as int, b, i as int);
            }
            return Some(i);
        }
        i = i + 1;
    }
    proof {
        lemma_find_byte_miss(s@, from as int, b);
    }
    None
}

/// First `\r\n` in `s` at or after `from`, as [`find_crlf`] defines it.
pub fn find_crlf_from(s: &[u8], from: usize) -> (r: Option<usize>)
    requires
        from <= s@.len(),
        s@.len() <= usize::MAX - 2,
    ensures
        match r {
            Some(i) => from <= i && i + 2 <= s@.len() && find_crlf(s@, from as int) == Some(
                i as int,
            ),
            None => find_crlf(s@, from as int) is None,
        },
{
    let mut i: usize = from;
    while i + 2 <= s.len()
        invariant
            from <= i,
            i <= s@.len(),
            s@.len() <= usize::MAX - 2,
            forall|j: int| from <= j < i ==> !(#[trigger] s@[j] == CR && s@[j + 1] == LF),
        decreases s@.len() - i,
    {
        if s[i] == CR && s[i + 1] == LF {
            proof {
                lemma_find_crlf_hit(s@, from as int, i as int);
            }
            return Some(i);
        }
        i = i + 1;
    }
    proof {
        lemma_find_crlf_miss(s@, from as int);
    }
    None
}

/// First `\r\n\r\n` in `s` at or after `from`, as [`find_terminator`]
/// defines it.
pub fn find_terminator_from(s: &[u8], from: usize) -> (r: Option<usize>)
    requires
        from <= s@.len(),
        s@.len() <= usize::MAX - 4,
    ensures
        match r {
            Some(i) => from <= i && i + 4 <= s@.len() && find_terminator(s@, from as int) == Some(
                i as int,
            ),
            None => find_terminator(s@, from as int) is None,
        },
{
    let mut i: usize = from;
    while i + 4 <= s.len()
        invariant
            from <= i,
            i <= s@.len(),
            s@.len() <= usize::MAX - 4,
            forall|j: int|
                from <= j < i ==> !(#[trigger] s@[j] == CR && s@[j + 1] == LF && s@[j + 2] == CR
                    && s@[j + 3] == LF),
        decreases s@.len() - i,
    {
        if s[i] == CR && s[i + 1] == LF && s[i + 2] == CR && s[i + 3] == LF {
            proof {
                lemma_find_terminator_hit(s@, from as int, i as int);
            }
            return Some(i);
        }
        i = i + 1;
    }
    proof {
        lemma_find_terminator_miss(s@, from as int);
    }
    None
}

/// Splits one request line, as [`spec_request_line`] defines it.
fn parse_request_line(line: &[u8]) -> (r: Option<RequestLine>)
    requires
        line@.len() < usize::MAX,
    ensures
        match r {
            Some(rl) => spec_request_line(line@) matches Some(t) && rl.method@ == t.0
                && rl.target@ == t.1 && rl.version@ == t.2,
            None => spec_request_line(line@) is None,
        },
{
    let sp1 = match find_byte_from(line, 0, SP) {
        Some(i) => i,
        None => {
            return None;
        },
    };
    let sp2 = match find_byte_from(line, sp1 + 1, SP) {
        Some(i) => i,
        None => {
            return None;
        },
    };
    if sp2 + 1 == line.len() {
        return None;
    }
    Some(
        RequestLine {
            method: copy_range(line, 0, sp1),
            target: copy_range(line, sp1 + 1, sp2),
            version: copy_range(line, sp2 + 1, line.len()),
        },
    )
}

/// Splits one field line, as [`spec_field_line`] defines it.
fn parse_field_line(line: &[u8]) -> (r: Option<Field>)
    requires
        line@.len() < usize::MAX,
    ensures
        match r {
            Some(f) => spec_field_line(line@) matches Some(t) && f.name@ == t.0 && f.value@ == t.1,
            None => spec_field_line(line@) is None,
        },
{
    let c = match find_byte_from(line, 0, COLON) {
        Some(i) => i,
        None => {
            return None;
        },
    };
    if c + 1 == line.len() {
        return None;
    }
    let mut k: usize = c + 1;
    while k < line.len() && line[k] == SP
        invariant
            c + 1 <= k <= line@.len(),
            forall|j: int| c + 1 <= j < k ==> line@[j] == SP,
        decreases line@.len() - k,
    {
        k = k + 1;
    }
    proof {
        lemma_skip_spaces(line@.subrange(c + 1 as int, line@.len() as int), k - (c + 1));
        assert(line@.subrange(c + 1 as int, line@.len() as int).subrange(
            k - (c + 1),
            line@.len() - (c + 1),
        ) =~= line@.subrange(k as int, line@.len() as int));
    }
    Some(Field { name: copy_range(line, 0, c), value: copy_range(line, k, line.len()) })
}

/// Parses the field lines from `from` on, as [`spec_fields`] defines it.
fn parse_fields_from(s: &[u8], from: usize) -> (r: Option<Vec<Field>>)
    requires
        from <= s@.len(),
        s@.len() <= usize::MAX - 4,
    ensures
        match r {
            Some(fs) => spec_fields(s@, from as int) == Some(fields_view(fs@)),
            None => spec_fields(s@, from as int) is None,
        },
{
    let mut fields: Vec<Field> = Vec::new();
    let mut cur: usize = from;
    loop
        invariant
            from <= cur <= s@.len(),
            s@.len() <= usize::MAX - 4,
            spec_fields(s@, from as int) == match spec_fields(s@, cur as int) {
                Some(rest) => Some(fields_view(fields@) + rest),
                None => None::<Seq<(Seq<u8>, Seq<u8>)>>,
            },
        decreases s@.len() - cur,
    {
        let end = match find_crlf_from(s, cur) {
            Some(e) => e,
            None => {
                return None;
            },
        };
        if end == cur {
            proof {
                assert(fields_view(fields@) + Seq::<(Seq<u8>, Seq<u8>)>::empty() =~= fields_view(
                    fields@,
                ));
            }
            return Some(fields);
        }
        let line = copy_range(s, cur, end);
        let f = match parse_field_line(line.as_slice()) {
            Some(f) => f,
            None => {
                return None;
            },
        };
        proof {
            let fv = (f.name@, f.value@);
            assert(fields_view(fields@.push(f)) =~= fields_view(fields@) + seq![fv]);
            match spec_fields(s@, end + 2 as int) {
                Some(rest) => {
                    assert((fields_view(fields@) + (seq![fv] + rest)) =~= (fields_view(fields@)
                        + seq![fv]) + rest);
                },
                None => {},
            }
        }
        fields.push(f);
        cur = end + 2;
    }
}

/// Parses a collected byte sequence into a request head, exactly as
/// [`spec_parse`] describes: the error says what is wrong, and on success
/// every component and the header-block length are those of the grammar.
pub fn parse_request(s: &[u8]) -> (r: Result<ParsedRequest, ParseError>)
    requires
        s@.len() <= usize::MAX - 4,
    ensures
        match (r, spec_parse(s@)) {
            (Ok(p), Ok(sp)) => p.line.method@ == sp.method && p.line.target@ == sp.target
                && p.line.version@ == sp.version && fields_view(p.fields@) == sp.fields
                && p.header_len == sp.header_len,
            (Err(e), Err(se)) => e == se,
            _ => false,
        },
{
    let t = match find_terminator_from(s, 0) {
        Some(t) => t,
        None => {
            return Err(ParseError::MissingTerminator);
        },
    };
    let le = match find_crlf_from(s, 0) {
        Some(le) => le,
        None => {
            return Err(ParseError::MissingTerminator);
        },
    };
    let line = copy_range(s, 0, le);
    let rl = match parse_request_line(line.as_slice()) {
        Some(rl) => rl,
        None => {
            return Err(ParseError::BadRequestLine);
        },
    };
    let fields = match parse_fields_from(s, le + 2) {
        Some(fs) => fs,
        None => {
            return Err(ParseError::BadField);
        },
    };
    Ok(ParsedRequest { line: rl, fields, header_len: t + 4 })
}

} // verus!
