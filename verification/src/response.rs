//! Response-head serialization.
//!
//! A response head is a version, a numeric status code, a reason phrase
//! and an ordered field list. Serialization emits the status line
//! `<version> <status> <reason>\r\n`, each field as `<name>: <value>\r\n`
//! in the given order, and a final blank line. Tokens pass through
//! verbatim; building fails only when a token would break the line
//! grammar itself (a carriage return or line feed anywhere, or a colon in
//! a field name).

use vstd::prelude::*;

use crate::ascii::{COLON, CR, LF, SP};

verus! {

/// Why a response head cannot be serialized.
#[derive(Clone, Copy, Debug, PartialEq, Eq, Structural)]
pub enum BuildError {
    /// Some token holds a byte that the line grammar reserves.
    InvalidToken,
}

/// One response header field.
pub struct HeaderField {
    pub name: Vec<u8>,
    pub value: Vec<u8>,
}

/// A structured response head; never mutated once serialization begins.
pub struct ResponseHead {
    /// Protocol version token of the status line.
    pub version: Vec<u8>,
    /// Numeric status code.
    pub status: u16,
    /// Reason phrase.
    pub reason: Vec<u8>,
    /// Fields, serialized in insertion order.
    pub fields: Vec<HeaderField>,
}

/// The fields as pairs of byte sequences.
pub open spec fn field_pairs(fs: Seq<HeaderField>) -> Seq<(Seq<u8>, Seq<u8>)> {
    fs.map(|i: int, f: HeaderField| (f.name@, f.value@))
}

/// Decimal digits of `n`, most significant first, no leading zeros.
pub open spec fn dec_digits(n: nat) -> Seq<u8>
    decreases n,
{
    if n < 10 {
        seq![(48 + n) as u8]
    } else {
        dec_digits(n / 10).push((48 + n % 10) as u8)
    }
}

/// One serialized field line.
pub open spec fn ser_field(name: Seq<u8>, value: Seq<u8>) -> Seq<u8> {
    name + seq![COLON, SP] + value + seq![CR, LF]
}

/// The serialized field block, in order.
pub open spec fn ser_fields(fs: Seq<(Seq<u8>, Seq<u8>)>) -> Seq<u8>
    decreases fs.len(),
{
    if fs.len() == 0 {
        Seq::empty()
    } else {
        ser_field(fs[0].0, fs[0].1) + ser_fields(fs.drop_first())
    }
}

/// The serialized head: status line, field block, blank line.
pub open spec fn ser_head(
    version: Seq<u8>,
    status: nat,
    reason: Seq<u8>,
    fields: Seq<(Seq<u8>, Seq<u8>)>,
) -> Seq<u8> {
    version + seq![SP] + dec_digits(status) + seq![SP] + reason + seq![CR, LF] + ser_fields(fields)
        + seq![CR, LF]
}

/// The bytes a response head serializes to.
pub open spec fn head_bytes(h: ResponseHead) -> Seq<u8> {
    ser_head(h.version@, h.status as nat, h.reason@, field_pairs(h.fields@))
}

/// A token that cannot break the line structure.
pub open spec fn token_ok(t: Seq<u8>) -> bool {
    forall|i: int| 0 <= i < t.len() ==> #[trigger] t[i] != CR && t[i] != LF
}

/// A field name additionally may not hold the name/value separator.
pub open spec fn name_ok(t: Seq<u8>) -> bool {
    token_ok(t) && forall|i: int| 0 <= i < t.len() ==> #[trigger] t[i] != COLON
}

/// Whether every token of the head keeps the serialized grammar intact.
pub open spec fn head_ok(h: ResponseHead) -> bool {
    &&& token_ok(h.version@)
    &&& token_ok(h.reason@)
    &&& forall|i: int|
        0 <= i < h.fields@.len() ==> name_ok(#[trigger] h.fields@[i].name@) && token_ok(
            h.fields@[i].value@,
        )
}

/// Every byte of a rendered decimal is an ASCII digit.
pub proof fn lemma_dec_digits_are_digits(n: nat)
    ensures
        forall|i: int| 0 <= i < dec_digits(n).len() ==> 48 <= #[trigger] dec_digits(n)[i] <= 57,
    decreases n,
{
    let d = dec_digits(n);
    if n < 10 {
        assert(d.len() == 1 && d[0] == (48 + n) as u8);
    } else {
        lemma_dec_digits_are_digits(n / 10);
        let p = dec_digits(n / 10);
        assert(d == p.push((48 + n % 10) as u8));
        assert forall|i: int| 0 <= i < d.len() implies 48 <= #[trigger] d[i] <= 57 by {
            if i < p.len() {
                assert(d[i] == p[i]);
            } else {
                assert(d[i] == (48 + n % 10) as u8);
            }
        }
    }
}

/// Renders `n` in decimal.
pub fn render_decimal(n: u64) -> (r: Vec<u8>)
    ensures
        r@ == dec_digits(n as nat),
    decreases n,
{
    if n < 10 {
        let mut v: Vec<u8> = Vec::new();
        v.push(48 + n as u8);
        proof {
            assert(v@ =~= dec_digits(n as nat));
        }
        v
    } else {
        let mut v = render_decimal(n / 10);
        v.push(48 + (n % 10) as u8);
        v
    }
}

/// Appends all of `src` to `dst`.
pub fn append_bytes(dst: &mut Vec<u8>, src: &[u8])
    ensures
        final(dst)@ == old(dst)@ + src@,
{
    let mut i: usize = 0;
    while i < src.len()
        invariant
            i <= src@.len(),
            dst@ == old(dst)@ + src@.subrange(0, i as int),
        decreases src@.len() - i,
    {
        dst.push(src[i]);
        assert(dst@ =~= old(dst)@ + src@.subrange(0, i + 1 as int));
        i = i + 1;
    }
    assert(src@.subrange(0, src@.len() as int) =~= src@);
}

/// Whether `t` is free of carriage returns and line feeds.
fn token_valid(t: &[u8]) -> (r: bool)
    ensures
        r == token_ok(t@),
{
    let mut i: usize = 0;
    while i < t.len()
        invariant
            i <= t@.len(),
            forall|j: int| 0 <= j < i ==> #[trigger] t@[j] != CR && t@[j] != LF,
        decreases t@.len() - i,
    {
        if t[i] == CR || t[i] == LF {
            return false;
        }
        i = i + 1;
    }
    true
}

/// Whether `t` may stand as a field name.
fn name_valid(t: &[u8]) -> (r: bool)
    ensures
        r == name_ok(t@),
{
    if !token_valid(t) {
        return false;
    }
    let mut i: usize = 0;
    while i < t.len()
        invariant
            i <= t@.len(),
            token_ok(t@),
            forall|j: int| 0 <= j < i ==> #[trigger] t@[j] != COLON,
        decreases t@.len() - i,
    {
        if t[i] == COLON {
            return false;
        }
        i = i + 1;
    }
    true
}

/// Serializing one more field appends one more field line.
proof fn lemma_ser_fields_push(fs: Seq<(Seq<u8>, Seq<u8>)>, f: (Seq<u8>, Seq<u8>))
    ensures
        ser_fields(fs.push(f)) == ser_fields(fs) + ser_field(f.0, f.1),
    decreases fs.len(),
{
    let l = fs.push(f);
    assert(l.len() == fs.len() + 1);
    if fs.len() == 0 {
        assert(l[0] == f);
        assert(l.drop_first() =~= Seq::<(Seq<u8>, Seq<u8>)>::empty());
        assert(ser_fields(l.drop_first()) == Seq::<u8>::empty());
        assert(ser_fields(l) == ser_field(f.0, f.1) + Seq::<u8>::empty());
        assert(ser_fields(l) =~= ser_field(f.0, f.1));
        assert(ser_fields(fs) + ser_field(f.0, f.1) =~= ser_field(f.0, f.1));
    } else {
        assert(l[0] == fs[0]);
        assert(l.drop_first() =~= fs.drop_first().push(f));
        lemma_ser_fields_push(fs.drop_first(), f);
        assert(ser_fields(l) == ser_field(fs[0].0, fs[0].1) + (ser_fields(fs.drop_first())
            + ser_field(f.0, f.1)));
        assert(ser_field(fs[0].0, fs[0].1) + (ser_fields(fs.drop_first()) + ser_field(f.0, f.1))
            =~= (ser_field(fs[0].0, fs[0].1) + ser_fields(fs.drop_first())) + ser_field(f.0, f.1));
        assert(ser_fields(fs) == ser_field(fs[0].0, fs[0].1) + ser_fields(fs.drop_first()));
    }
}

/// Serializes a response head, or refuses it when a token would break the
/// grammar. Succeeds exactly on well-formed heads, and then returns
/// exactly the serialized bytes.
pub fn build_head(h: &ResponseHead) -> (r: Result<Vec<u8>, BuildError>)
    ensures
        match r {
            Ok(v) => head_ok(*h) && v@ == head_bytes(*h),
            Err(e) => !head_ok(*h) && e == BuildError::InvalidToken,
        },
{
    if !token_valid(h.version.as_slice()) || !token_valid(h.reason.as_slice()) {
        return Err(BuildError::InvalidToken);
    }
    let mut i: usize = 0;
    while i < h.fields.len()
        invariant
            i <= h.fields@.len(),
            forall|j: int|
                0 <= j < i ==> name_ok(#[trigger] h.fields@[j].name@) && token_ok(
                    h.fields@[j].value@,
                ),
        decreases h.fields@.len() - i,
    {
        if !name_valid(h.fields[i].name.as_slice()) || !token_valid(h.fields[i].value.as_slice()) {
            return Err(BuildError::InvalidToken);
        }
        proof {
            assert(name_ok(h.fields@[i as int].name@));
            assert(token_ok(h.fields@[i as int].value@));
            assert(forall|j: int|
                0 <= j < i + 1 ==> name_ok(#[trigger] h.fields@[j].name@) && token_ok(
                    h.fields@[j].value@,
                ));
        }
        i = i + 1;
    }
    let mut out: Vec<u8> = Vec::new();
    append_bytes(&mut out, h.version.as_slice());
    out.push(SP);
    let dec = render_decimal(h.status as u64);
    append_bytes(&mut out, dec.as_slice());
    out.push(SP);
    append_bytes(&mut out, h.reason.as_slice());
    out.push(CR);
    out.push(LF);
    let ghost status_line = h.version@ + seq![SP] + dec_digits(h.status as nat) + seq![SP]
        + h.reason@ + seq![CR, LF];
    proof {
        assert(out@ =~= status_line);
    }
    let mut k: usize = 0;
    while k < h.fields.len()
        invariant
            k <= h.fields@.len(),
            out@ == status_line + ser_fields(field_pairs(h.fields@).take(k as int)),
        decreases h.fields@.len() - k,
    {
        let ghost pairs = field_pairs(h.fields@);
        append_bytes(&mut out, h.fields[k].name.as_slice());
        out.push(COLON);
        out.push(SP);
        append_bytes(&mut out, h.fields[k].value.as_slice());
        out.push(CR);
        out.push(LF);
        proof {
            lemma_ser_fields_push(pairs.take(k as int), pairs[k as int]);
            assert(pairs.take(k + 1 as int) =~= pairs.take(k as int).push(pairs[k as int]));
            assert(out@ =~= status_line + ser_fields(pairs.take(k + 1 as int)));
        }
        k = k + 1;
    }
    out.push(CR);
    out.push(LF);
    proof {
        assert(field_pairs(h.fields@).take(h.fields@.len() as int) =~= field_pairs(h.fields@));
        assert(out@ =~= head_bytes(*h));
    }
    Ok(out)
}

} // verus!
