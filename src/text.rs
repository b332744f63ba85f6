use vstd::prelude::*;
use vstd::string::StringSliceAdditionalSpecFns;

verus! {

/// The bytes of a text constant.
pub open spec fn txt(s: &str) -> Seq<u8> {
    s.spec_bytes()
}

/// `n` copies of the byte `c`.
pub open spec fn repeat(c: u8, n: nat) -> Seq<u8> {
    Seq::new(n, |_i: int| c)
}

/// Lowercase hexadecimal digit for a value below sixteen.
pub open spec fn hex_digit(d: nat) -> u8 {
    if d < 10 { (48 + d) as u8 } else { (87 + d) as u8 }
}

/// Decimal representation of `n`, without leading zeros.
pub open spec fn dec(n: nat) -> Seq<u8>
    decreases n,
{
    if n < 10 { seq![(48 + n) as u8] } else { dec(n / 10).push((48 + n % 10) as u8) }
}

/// Lowercase hexadecimal representation of `n`, without leading zeros.
pub open spec fn hex(n: nat) -> Seq<u8>
    decreases n,
{
    if n < 16 { seq![hex_digit(n)] } else { hex(n / 16).push(hex_digit(n % 16)) }
}

/// `s` right-justified in a field of `width` bytes filled with `c`; never truncated.
pub open spec fn pad_left(s: Seq<u8>, width: nat, c: u8) -> Seq<u8> {
    if s.len() >= width { s } else { repeat(c, (width - s.len()) as nat) + s }
}

pub proof fn lemma_dec_len(n: nat)
    ensures
        1 <= dec(n).len() <= n + 1,
    decreases n,
{
    if n >= 10 {
        lemma_dec_len(n / 10);
    }
}

pub proof fn lemma_hex_len(n: nat)
    ensures
        1 <= hex(n).len() <= n + 1,
    decreases n,
{
    if n >= 16 {
        lemma_hex_len(n / 16);
    }
}

/// Appends the bytes of a text constant.
pub fn push_text(out: &mut Vec<u8>, s: &str)
    ensures
        final(out)@ == old(out)@ + txt(s),
{
    let b = s.as_bytes();
    let ghost o = out@;
    let mut i: usize = 0;
    while i < b.len()
        invariant
            i <= b@.len(),
            b@ == s.spec_bytes(),
            out@ == o + b@.subrange(0, i as int),
        decreases b@.len() - i,
    {
        out.push(b[i]);
        i += 1;
        assert(out@ =~= o + b@.subrange(0, i as int));
    }
    assert(b@.subrange(0, i as int) =~= b@);
}

/// Appends the bytes of a byte sequence.
pub fn push_bytes(out: &mut Vec<u8>, b: &[u8])
    ensures
        final(out)@ == old(out)@ + b@,
{
    let ghost o = out@;
    let mut i: usize = 0;
    while i < b.len()
        invariant
            i <= b@.len(),
            out@ == o + b@.subrange(0, i as int),
        decreases b@.len() - i,
    {
        out.push(b[i]);
        i += 1;
        assert(out@ =~= o + b@.subrange(0, i as int));
    }
    assert(b@.subrange(0, i as int) =~= b@);
}

/// Appends `n` copies of `c`.
pub fn push_repeat(out: &mut Vec<u8>, c: u8, n: u64)
    ensures
        final(out)@ == old(out)@ + repeat(c, n as nat),
{
    let ghost o = out@;
    let mut i: u64 = 0;
    while i < n
        invariant
            i <= n,
            out@ == o + repeat(c, i as nat),
        decreases n - i,
    {
        out.push(c);
        i += 1;
        assert(out@ =~= o + repeat(c, i as nat));
    }
}

/// Number of decimal digits of `n`.
pub fn dec_len(n: u64) -> (r: u64)
    ensures
        r == dec(n as nat).len(),
    decreases n,
{
    proof {
        lemma_dec_len(n as nat);
    }
    if n < 10 {
        1
    } else {
        proof {
            lemma_dec_len((n / 10) as nat);
        }
        1 + dec_len(n / 10)
    }
}

/// Number of hexadecimal digits of `n`.
pub fn hex_len(n: u64) -> (r: u64)
    ensures
        r == hex(n as nat).len(),
    decreases n,
{
    proof {
        lemma_hex_len(n as nat);
    }
    if n < 16 {
        1
    } else {
        proof {
            lemma_hex_len((n / 16) as nat);
        }
        1 + hex_len(n / 16)
    }
}

/// Appends the decimal digits of `n`.
pub fn push_dec(out: &mut Vec<u8>, n: u64)
    ensures
        final(out)@ == old(out)@ + dec(n as nat),
    decreases n,
{
    if n >= 10 {
        push_dec(out, n / 10);
    }
    let d: u8 = (n % 10) as u8;
    out.push(48 + d);
    proof {
        if n >= 10 {
            assert(final(out)@ =~= old(out)@ + dec(n as nat));
        } else {
            assert(final(out)@ =~= old(out)@ + dec(n as nat));
        }
    }
}

/// Appends the lowercase hexadecimal digits of `n`.
pub fn push_hex(out: &mut Vec<u8>, n: u64)
    ensures
        final(out)@ == old(out)@ + hex(n as nat),
    decreases n,
{
    if n >= 16 {
        push_hex(out, n / 16);
    }
    let d: u8 = (n % 16) as u8;
    if d < 10 {
        out.push(48 + d);
    } else {
        out.push(87 + d);
    }
    proof {
        assert(final(out)@ =~= old(out)@ + hex(n as nat));
    }
}

/// Appends `n` in decimal, right-justified with `c` in a field of `width` bytes.
pub fn push_dec_padded(out: &mut Vec<u8>, n: u64, width: u64, c: u8)
    ensures
        final(out)@ == old(out)@ + pad_left(dec(n as nat), width as nat, c),
{
    let len = dec_len(n);
    if len < width {
        push_repeat(out, c, width - len);
    }
    push_dec(out, n);
    assert(final(out)@ =~= old(out)@ + pad_left(dec(n as nat), width as nat, c));
}

/// Appends `n` in lowercase hexadecimal, right-justified with `c` in a field of `width` bytes.
pub fn push_hex_padded(out: &mut Vec<u8>, n: u64, width: u64, c: u8)
    ensures
        final(out)@ == old(out)@ + pad_left(hex(n as nat), width as nat, c),
{
    let len = hex_len(n);
    if len < width {
        push_repeat(out, c, width - len);
    }
    push_hex(out, n);
    assert(final(out)@ =~= old(out)@ + pad_left(hex(n as nat), width as nat, c));
}

/// Appends `s` right-justified with `c` in a field of `width` bytes.
pub fn push_padded(out: &mut Vec<u8>, s: &[u8], width: u64, c: u8)
    ensures
        final(out)@ == old(out)@ + pad_left(s@, width as nat, c),
{
    if (s.len() as u64) < width {
        push_repeat(out, c, width - s.len() as u64);
    }
    push_bytes(out, s);
    assert(final(out)@ =~= old(out)@ + pad_left(s@, width as nat, c));
}

} // verus!
