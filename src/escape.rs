//! Decoding of C-style escaped byte literals, and their re-encoding as Rust
//! byte-string escapes.

use vstd::prelude::*;
use vstd::string::StringSliceAdditionalSpecFns;

verus! {

/// Why an escaped literal could not be decoded.
#[derive(Debug, Clone, Copy, PartialEq, Eq, Structural)]
pub enum EscapeError {
    /// The literal ends with a lone backslash.
    TrailingBackslash,
    /// A `\x` escape is not followed by two characters.
    IncompleteHex,
    /// A `\x` escape is not followed by two hexadecimal digits.
    InvalidHex,
    /// An octal escape names a value above 255.
    OctalOverflow,
    /// A backslash is followed by a character that starts no escape.
    InvalidEscape,
}

/// The byte that a single-character escape `\c` stands for.
pub open spec fn named_escape(c: u8) -> Option<u8> {
    if c == 0x61 { Some(0x07u8) }        // \a
    else if c == 0x62 { Some(0x08u8) }   // \b
    else if c == 0x66 { Some(0x0Cu8) }   // \f
    else if c == 0x6E { Some(0x0Au8) }   // \n
    else if c == 0x72 { Some(0x0Du8) }   // \r
    else if c == 0x74 { Some(0x09u8) }   // \t
    else if c == 0x76 { Some(0x0Bu8) }   // \v
    else if c == 0x5C { Some(0x5Cu8) }   // \\
    else if c == 0x3F { Some(0x3Fu8) }   // \?
    else if c == 0x27 { Some(0x27u8) }   // \'
    else if c == 0x22 { Some(0x22u8) }   // \"
    else { None }
}

pub open spec fn is_octal(c: u8) -> bool {
    0x30 <= c <= 0x37
}

pub open spec fn is_hex(c: u8) -> bool {
    (0x30 <= c <= 0x39) || (0x61 <= c <= 0x66) || (0x41 <= c <= 0x46)
}

pub open spec fn hex_value(c: u8) -> int {
    if 0x30 <= c <= 0x39 {
        c - 0x30
    } else if 0x61 <= c <= 0x66 {
        c - 0x61 + 10
    } else {
        c - 0x41 + 10
    }
}

/// How many octal digits an octal escape takes from `s` (at most three).
pub open spec fn octal_len(s: Seq<u8>) -> int {
    if s.len() >= 3 && is_octal(s[0]) && is_octal(s[1]) && is_octal(s[2]) {
        3
    } else if s.len() >= 2 && is_octal(s[0]) && is_octal(s[1]) {
        2
    } else {
        1
    }
}

/// The value of the first `n` octal digits of `s`.
pub open spec fn octal_value(s: Seq<u8>, n: int) -> int {
    if n == 3 {
        64 * (s[0] - 0x30) + 8 * (s[1] - 0x30) + (s[2] - 0x30)
    } else if n == 2 {
        8 * (s[0] - 0x30) + (s[1] - 0x30)
    } else {
        s[0] - 0x30
    }
}

/// Puts `b` in front of a decoded result.
pub open spec fn cons(b: u8, r: Result<Seq<u8>, EscapeError>) -> Result<Seq<u8>, EscapeError> {
    match r {
        Ok(t) => Ok(seq![b] + t),
        Err(e) => Err(e),
    }
}

/// Puts `d` in front of a decoded result.
pub open spec fn prepend(d: Seq<u8>, r: Result<Seq<u8>, EscapeError>) -> Result<Seq<u8>, EscapeError> {
    match r {
        Ok(t) => Ok(d + t),
        Err(e) => Err(e),
    }
}

/// The bytes that a C-escaped literal stands for: octal `\NNN` (one to three
/// digits), hexadecimal `\xNN`, and the named escapes `\a \b \f \n \r \t \v \\ \? \' \"`.
pub open spec fn unescape(s: Seq<u8>) -> Result<Seq<u8>, EscapeError>
    decreases s.len(),
{
    if s.len() == 0 {
        Ok(Seq::empty())
    } else if s[0] != 0x5C {
        cons(s[0], unescape(s.skip(1)))
    } else if s.len() == 1 {
        Err(EscapeError::TrailingBackslash)
    } else if named_escape(s[1]) is Some {
        cons(named_escape(s[1])->0, unescape(s.skip(2)))
    } else if is_octal(s[1]) {
        let n = octal_len(s.skip(1));
        let v = octal_value(s.skip(1), n);
        if v > 255 {
            Err(EscapeError::OctalOverflow)
        } else {
            cons(v as u8, unescape(s.skip(1 + n)))
        }
    } else if s[1] == 0x78 || s[1] == 0x58 {
        if s.len() < 4 {
            Err(EscapeError::IncompleteHex)
        } else if is_hex(s[2]) && is_hex(s[3]) {
            cons((16 * hex_value(s[2]) + hex_value(s[3])) as u8, unescape(s.skip(4)))
        } else {
            Err(EscapeError::InvalidHex)
        }
    } else {
        Err(EscapeError::InvalidEscape)
    }
}

fn named_escape_exec(c: u8) -> (r: Option<u8>)
    ensures
        r == named_escape(c),
{
    match c {
        0x61 => Some(0x07),
        0x62 => Some(0x08),
        0x66 => Some(0x0C),
        0x6E => Some(0x0A),
        0x72 => Some(0x0D),
        0x74 => Some(0x09),
        0x76 => Some(0x0B),
        0x5C => Some(0x5C),
        0x3F => Some(0x3F),
        0x27 => Some(0x27),
        0x22 => Some(0x22),
        _ => None,
    }
}

fn hex_value_exec(c: u8) -> (r: u8)
    requires
        is_hex(c),
    ensures
        r as int == hex_value(c),
        r < 16,
{
    if 0x30 <= c && c <= 0x39 {
        c - 0x30
    } else if 0x61 <= c && c <= 0x66 {
        c - 0x61 + 10
    } else {
        c - 0x41 + 10
    }
}

#[verifier::rlimit(60)]
/// Decodes a C-escaped default value of a `bytes` field into the bytes it
/// stands for.
pub fn unescape_c_escape_string(s: &str) -> (r: Result<Vec<u8>, EscapeError>)
    ensures
        match r {
            Ok(v) => unescape(s.spec_bytes()) == Ok::<Seq<u8>, EscapeError>(v@),
            Err(e) => unescape(s.spec_bytes()) == Err::<Seq<u8>, EscapeError>(e),
        },
{
    let src = s.as_bytes();
    let len = src.len();
    let mut dst: Vec<u8> = Vec::new();
    let mut p: usize = 0;
    proof {
        assert(src@.skip(0) =~= src@);
        match unescape(src@) {
            Ok(u) => { assert(dst@ + u =~= u); },
            Err(_) => {},
        }
    }
    while p < len
        invariant
            len == src@.len(),
            src@ == s.spec_bytes(),
            0 <= p <= len,
            unescape(src@) == prepend(dst@, unescape(src@.skip(p as int))),
        decreases len - p,
    {
        let ghost t = src@.skip(p as int);
        if src[p] != 0x5C {
            proof {
                assert(t.skip(1) =~= src@.skip(p + 1));
                assert(seq![src@[p as int]] + (dst@ + seq![src@[p as int]]).skip(dst@.len() as int + 1) =~= seq![src@[p as int]] + (dst@ + seq![src@[p as int]]).skip(dst@.len() as int + 1));
            }
            let ghost d0 = dst@;
            dst.push(src[p]);
            proof {
                match unescape(t.skip(1)) {
                    Ok(u) => { assert(d0 + (seq![src@[p as int]] + u) =~= dst@ + u); },
                    Err(_) => {},
                }
            }
            p = p + 1;
        } else {
            p = p + 1;
            if p == len {
                return Err(EscapeError::TrailingBackslash);
            }
            let c = src[p];
            let ghost d0 = dst@;
            match named_escape_exec(c) {
                Some(b) => {
                    dst.push(b);
                    p = p + 1;
                    proof {
                        assert(t.skip(2) =~= src@.skip(p as int));
                        match unescape(t.skip(2)) {
                            Ok(u) => { assert(d0 + (seq![b] + u) =~= dst@ + u); },
                            Err(_) => {},
                        }
                    }
                },
                None => {
                    if 0x30 <= c && c <= 0x37 {
                        let ghost q = p as int;
                        let ghost o = t.skip(1);
                        assert(o =~= src@.skip(q));
                        let mut octal: u32 = 0;
                        let mut k: usize = 0;
                        while k < 3 && p < len && 0x30 <= src[p] && src[p] <= 0x37
                            invariant
                                len == src@.len(),
                                0 <= k <= 3,
                                p <= len,
                                0 <= q < len,
                                p == q + k,
                                o == src@.skip(q),
                                forall|j: int| 0 <= j < k ==> is_octal(o[j]),
                                k == 0 ==> octal == 0,
                                k > 0 ==> octal as int == octal_value(o, k as int),
                                is_octal(src@[q]),
                                octal < 512,
                            decreases 3 - k,
                        {
                            assert(o[k as int] == src@[p as int]);
                            octal = octal * 8 + (src[p] - 0x30) as u32;
                            p = p + 1;
                            k = k + 1;
                        }
                        assert(k as int == octal_len(o));
                        if octal > 255 {
                            return Err(EscapeError::OctalOverflow);
                        }
                        dst.push(octal as u8);
                        proof {
                            assert(t.skip(1 + k) =~= src@.skip(p as int));
                            match unescape(t.skip(1 + k)) {
                                Ok(u) => { assert(d0 + (seq![octal as u8] + u) =~= dst@ + u); },
                                Err(_) => {},
                            }
                        }
                    } else if c == 0x78 || c == 0x58 {
                        if len - p < 3 {
                            return Err(EscapeError::IncompleteHex);
                        }
                        let h1 = src[p + 1];
                        let h2 = src[p + 2];
                        let ok1 = (0x30 <= h1 && h1 <= 0x39) || (0x61 <= h1 && h1 <= 0x66) || (0x41 <= h1 && h1 <= 0x46);
                        let ok2 = (0x30 <= h2 && h2 <= 0x39) || (0x61 <= h2 && h2 <= 0x66) || (0x41 <= h2 && h2 <= 0x46);
                        if !(ok1 && ok2) {
                            return Err(EscapeError::InvalidHex);
                        }
                        let b = hex_value_exec(h1) * 16 + hex_value_exec(h2);
                        dst.push(b);
                        p = p + 3;
                        proof {
                            assert(t.skip(4) =~= src@.skip(p as int));
                            match unescape(t.skip(4)) {
                                Ok(u) => { assert(d0 + (seq![b] + u) =~= dst@ + u); },
                                Err(_) => {},
                            }
                        }
                    } else {
                        return Err(EscapeError::InvalidEscape);
                    }
                },
            }
        }
    }
    proof {
        assert(src@.skip(p as int) =~= Seq::<u8>::empty());
        assert(dst@ + Seq::<u8>::empty() =~= dst@);
    }
    Ok(dst)
}

/// Lowercase hexadecimal digit of a value below 16.
pub open spec fn hex_digit(n: int) -> u8 {
    if n < 10 {
        (0x30 + n) as u8
    } else {
        (0x61 + n - 10) as u8
    }
}

/// The escape of one byte, as `std::ascii::escape_default` documents it:
/// `\t \r \n \' \" \\` for those bytes, other printable ASCII as itself,
/// and `\xNN` with lowercase hexadecimal digits for the rest.
pub open spec fn escape_byte(b: u8) -> Seq<u8> {
    if b == 0x09 {
        seq![0x5Cu8, 0x74u8]
    } else if b == 0x0D {
        seq![0x5Cu8, 0x72u8]
    } else if b == 0x0A {
        seq![0x5Cu8, 0x6Eu8]
    } else if b == 0x27 || b == 0x22 || b == 0x5C {
        seq![0x5Cu8, b]
    } else if 0x20 <= b <= 0x7E {
        seq![b]
    } else {
        seq![0x5Cu8, 0x78u8, hex_digit(b as int / 16), hex_digit(b as int % 16)]
    }
}

/// The escapes of all bytes of `b`, one after another.
pub open spec fn escape_all(b: Seq<u8>) -> Seq<u8>
    decreases b.len(),
{
    if b.len() == 0 {
        Seq::empty()
    } else {
        escape_byte(b[0]) + escape_all(b.skip(1))
    }
}

/// One escaped character as it stands inside a double-quoted Rust string:
/// backslash and quotes get a backslash in front.
pub open spec fn quote_byte(c: u8) -> Seq<char> {
    if c == 0x5C || c == 0x27 || c == 0x22 {
        seq!['\\', c as char]
    } else {
        seq![c as char]
    }
}

/// `quote_byte` over all of `s`.
pub open spec fn quote_all(s: Seq<u8>) -> Seq<char>
    decreases s.len(),
{
    if s.len() == 0 {
        Seq::empty()
    } else {
        quote_byte(s[0]) + quote_all(s.skip(1))
    }
}

proof fn lemma_escape_all_concat(a: Seq<u8>, b: Seq<u8>)
    ensures
        escape_all(a + b) == escape_all(a) + escape_all(b),
    decreases a.len(),
{
    if a.len() == 0 {
        assert(a + b =~= b);
        assert(escape_all(a) + escape_all(b) =~= escape_all(b));
    } else {
        assert((a + b).skip(1) =~= a.skip(1) + b);
        lemma_escape_all_concat(a.skip(1), b);
        assert(escape_byte(a[0]) + (escape_all(a.skip(1)) + escape_all(b))
            =~= (escape_byte(a[0]) + escape_all(a.skip(1))) + escape_all(b));
    }
}

proof fn lemma_quote_all_concat(a: Seq<u8>, b: Seq<u8>)
    ensures
        quote_all(a + b) == quote_all(a) + quote_all(b),
    decreases a.len(),
{
    if a.len() == 0 {
        assert(a + b =~= b);
        assert(quote_all(a) + quote_all(b) =~= quote_all(b));
    } else {
        assert((a + b).skip(1) =~= a.skip(1) + b);
        lemma_quote_all_concat(a.skip(1), b);
        assert(quote_byte(a[0]) + (quote_all(a.skip(1)) + quote_all(b))
            =~= (quote_byte(a[0]) + quote_all(a.skip(1))) + quote_all(b));
    }
}

proof fn lemma_escape_all_one(b: u8)
    ensures
        escape_all(seq![b]) == escape_byte(b),
{
    assert(seq![b].skip(1) =~= Seq::<u8>::empty());
    assert(escape_all(Seq::<u8>::empty()) =~= Seq::<u8>::empty());
    assert(escape_byte(b) + Seq::<u8>::empty() =~= escape_byte(b));
}

proof fn lemma_quote_all_one(b: u8)
    ensures
        quote_all(seq![b]) == quote_byte(b),
{
    assert(seq![b].skip(1) =~= Seq::<u8>::empty());
    assert(quote_all(Seq::<u8>::empty()) =~= Seq::<char>::empty());
    assert(quote_byte(b) + Seq::<char>::empty() =~= quote_byte(b));
}

proof fn lemma_unescape_escape_byte(b: u8, rest: Seq<u8>)
    ensures
        unescape(escape_byte(b) + rest) == cons(b, unescape(rest)),
{
    let e = escape_byte(b) + rest;
    let n = escape_byte(b).len() as int;
    assert(e.skip(n) =~= rest);
    if !(b == 0x09 || b == 0x0D || b == 0x0A || b == 0x27 || b == 0x22 || b == 0x5C)
        && 0x20 <= b <= 0x7E {
        assert(e[0] == b);
    } else if b == 0x09 || b == 0x0D || b == 0x0A || b == 0x27 || b == 0x22 || b == 0x5C {
        assert(e[0] == 0x5C && named_escape(e[1]) == Some(b));
    } else {
        let hi = b / 16;
        let lo = b % 16;
        assert(e[1] == 0x78 && e[2] == hex_digit(hi as int) && e[3] == hex_digit(lo as int));
        assert(hex_value(hex_digit(hi as int)) == hi);
        assert(hex_value(hex_digit(lo as int)) == lo);
        assert((16 * hi + lo) as u8 == b);
    }
}

/// Decoding the escaped form of any byte string gives the bytes back.
pub proof fn lemma_escape_round_trip(b: Seq<u8>)
    ensures
        unescape(escape_all(b)) == Ok::<Seq<u8>, EscapeError>(b),
    decreases b.len(),
{
    if b.len() == 0 {
        assert(unescape(Seq::<u8>::empty()) == Ok::<Seq<u8>, EscapeError>(Seq::<u8>::empty()));
        assert(b =~= Seq::<u8>::empty());
    } else {
        lemma_escape_round_trip(b.skip(1));
        lemma_unescape_escape_byte(b[0], escape_all(b.skip(1)));
        assert(seq![b[0]] + b.skip(1) =~= b);
    }
}

fn escape_byte_exec(out: &mut Vec<u8>, b: u8)
    ensures
        final(out)@ == old(out)@ + escape_byte(b),
{
    let ghost o = out@;
    if b == 0x09 {
        out.push(0x5C);
        out.push(0x74);
    } else if b == 0x0D {
        out.push(0x5C);
        out.push(0x72);
    } else if b == 0x0A {
        out.push(0x5C);
        out.push(0x6E);
    } else if b == 0x27 || b == 0x22 || b == 0x5C {
        out.push(0x5C);
        out.push(b);
    } else if 0x20 <= b && b <= 0x7E {
        out.push(b);
    } else {
        let hi = b / 16;
        let lo = b % 16;
        out.push(0x5C);
        out.push(0x78);
        out.push(if hi < 10 { 0x30 + hi } else { 0x61 + hi - 10 });
        out.push(if lo < 10 { 0x30 + lo } else { 0x61 + lo - 10 });
    }
    assert(out@ =~= o + escape_byte(b));
}

/// Escapes each byte as `std::ascii::escape_default` does.
pub fn escape_bytes(bytes: &[u8]) -> (r: Vec<u8>)
    ensures
        r@ == escape_all(bytes@),
{
    let mut out: Vec<u8> = Vec::new();
    let mut i: usize = 0;
    while i < bytes.len()
        invariant
            0 <= i <= bytes@.len(),
            out@ == escape_all(bytes@.take(i as int)),
        decreases bytes@.len() - i,
    {
        proof {
            assert(bytes@.take(i + 1) =~= bytes@.take(i as int) + seq![bytes@[i as int]]);
            lemma_escape_all_concat(bytes@.take(i as int), seq![bytes@[i as int]]);
            lemma_escape_all_one(bytes@[i as int]);
        }
        escape_byte_exec(&mut out, bytes[i]);
        i = i + 1;
    }
    assert(bytes@.take(i as int) =~= bytes@);
    out
}

/// Writes escaped bytes as the inside of a double-quoted Rust string.
pub fn quote_bytes(s: &[u8]) -> (r: Vec<char>)
    ensures
        r@ == quote_all(s@),
{
    let mut out: Vec<char> = Vec::new();
    let mut i: usize = 0;
    while i < s.len()
        invariant
            0 <= i <= s@.len(),
            out@ == quote_all(s@.take(i as int)),
        decreases s@.len() - i,
    {
        proof {
            assert(s@.take(i + 1) =~= s@.take(i as int) + seq![s@[i as int]]);
            lemma_quote_all_concat(s@.take(i as int), seq![s@[i as int]]);
            lemma_quote_all_one(s@[i as int]);
        }
        let c = s[i];
        let ghost o = out@;
        if c == 0x5C || c == 0x27 || c == 0x22 {
            out.push('\\');
        }
        out.push(c as char);
        assert(out@ =~= o + quote_byte(c));
        i = i + 1;
    }
    assert(s@.take(i as int) =~= s@);
    out
}

} // verus!
