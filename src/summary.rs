//! The summary recorded for a fetched resource, and the report line for a
//! stored entry.

use vstd::prelude::*;

verus! {

/// The decimal digits of `n`, as ASCII bytes, without leading zeros.
pub open spec fn decimal(n: nat) -> Seq<u8>
    decreases n,
{
    if n < 10 {
        seq![(48 + n) as u8]
    } else {
        decimal(n / 10).push((48 + n % 10) as u8)
    }
}

/// The ASCII bytes of `Length: `.
pub open spec fn length_prefix() -> Seq<u8> {
    seq![76u8, 101u8, 110u8, 103u8, 116u8, 104u8, 58u8, 32u8]
}

/// The summary of a payload of `len` bytes: `Length: <len>`.
pub open spec fn summary_text(len: nat) -> Seq<u8> {
    length_prefix() + decimal(len)
}

/// The ASCII bytes of ` -> `.
pub open spec fn arrow() -> Seq<u8> {
    seq![32u8, 45u8, 62u8, 32u8]
}

/// The report line of a stored entry: `<identifier> -> <summary>`.
pub open spec fn line_text(key: Seq<u8>, value: Seq<u8>) -> Seq<u8> {
    key + arrow() + value
}

fn push_decimal(out: &mut Vec<u8>, n: usize)
    ensures
        final(out)@ == old(out)@ + decimal(n as nat),
    decreases n,
{
    if n >= 10 {
        push_decimal(out, n / 10);
    }
    let digit: u8 = (n % 10) as u8;
    out.push(48u8 + digit);
    assert(final(out)@ =~= old(out)@ + decimal(n as nat));
}

/// The summary of a successfully fetched payload of `len` bytes.
pub fn summary_of(len: usize) -> (r: Vec<u8>)
    ensures
        r@ == summary_text(len as nat),
{
    let mut out: Vec<u8> = vec![76u8, 101u8, 110u8, 103u8, 116u8, 104u8, 58u8, 32u8];
    assert(out@ =~= length_prefix());
    push_decimal(&mut out, len);
    out
}

fn push_all(out: &mut Vec<u8>, src: &[u8])
    ensures
        final(out)@ == old(out)@ + src@,
{
    let mut i: usize = 0;
    while i < src.len()
        invariant
            i <= src@.len(),
            out@ == old(out)@ + src@.subrange(0, i as int),
        decreases src@.len() - i,
    {
        out.push(src[i]);
        i = i + 1;
        assert(out@ =~= old(out)@ + src@.subrange(0, i as int));
    }
    assert(src@.subrange(0, src@.len() as int) =~= src@);
}

/// The line that reports a stored entry: `<key> -> <value>`.
pub fn report_line(key: &[u8], value: &[u8]) -> (r: Vec<u8>)
    ensures
        r@ == line_text(key@, value@),
{
    let mut out: Vec<u8> = Vec::new();
    push_all(&mut out, key);
    out.push(32u8);
    out.push(45u8);
    out.push(62u8);
    out.push(32u8);
    push_all(&mut out, value);
    assert(out@ =~= line_text(key@, value@));
    out
}

} // verus!
