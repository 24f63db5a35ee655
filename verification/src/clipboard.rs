use vstd::prelude::*;
use vstd::string::StringSliceAdditionalSpecFns;

verus! {

broadcast use vstd::string::group_string_axioms;

/// The character for the 6-bit value `v` in the standard base64 alphabet.
pub open spec fn b64_char(v: int) -> char {
    if v < 26 {
        (v + 65) as char
    } else if v < 52 {
        (v + 71) as char
    } else if v < 62 {
        (v - 4) as char
    } else if v == 62 {
        '+'
    } else {
        '/'
    }
}

/// The standard base64 encoding of `b`, padded with `=`.
pub open spec fn base64(b: Seq<u8>) -> Seq<char>
    decreases b.len(),
{
    if b.len() == 0 {
        seq![]
    } else {
        let x: int = b[0] as int;
        let y: int = if b.len() > 1 { b[1] as int } else { 0 };
        let z: int = if b.len() > 2 { b[2] as int } else { 0 };
        if b.len() == 1 {
            seq![b64_char(x / 4), b64_char((x % 4) * 16), '=', '=']
        } else if b.len() == 2 {
            seq![b64_char(x / 4), b64_char((x % 4) * 16 + y / 16), b64_char((y % 16) * 4), '=']
        } else {
            seq![
                b64_char(x / 4),
                b64_char((x % 4) * 16 + y / 16),
                b64_char((y % 16) * 4 + z / 64),
                b64_char(z % 64),
            ] + base64(b.skip(3))
        }
    }
}

fn sextet_char(v: u8) -> (c: char)
    requires
        v < 64,
    ensures
        c == b64_char(v as int),
{
    if v < 26 {
        (v + 65) as char
    } else if v < 52 {
        (v + 71) as char
    } else if v < 62 {
        (v - 4) as char
    } else if v == 62 {
        '+'
    } else {
        '/'
    }
}

/// Appends the base64 encoding of `b[i..]`.
fn encode_from(b: &[u8], out: &mut String)
    ensures
        final(out)@ == old(out)@ + base64(b@),
{
    let mut i: usize = 0;
    let n = b.len();
    assert(b@.skip(0) =~= b@);
    while i < n
        invariant
            n == b@.len(),
            i <= n,
            old(out)@ + base64(b@) == out@ + base64(b@.skip(i as int)),
        decreases n - i,
    {
        let ghost rest = b@.skip(i as int);
        let b0 = b[i];
        let ghost before = out@;
        if n - i == 1 {
            out.push(sextet_char(b0 / 4));
            out.push(sextet_char((b0 % 4) * 16));
            out.push('=');
            out.push('=');
            i = n;
            assert(b@.skip(i as int).len() == 0);
            assert(out@ + base64(b@.skip(i as int)) =~= before + base64(rest));
        } else if n - i == 2 {
            let b1 = b[i + 1];
            out.push(sextet_char(b0 / 4));
            out.push(sextet_char((b0 % 4) * 16 + b1 / 16));
            out.push(sextet_char((b1 % 16) * 4));
            out.push('=');
            i = n;
            assert(b@.skip(i as int).len() == 0);
            assert(out@ + base64(b@.skip(i as int)) =~= before + base64(rest));
        } else {
            let b1 = b[i + 1];
            let b2 = b[i + 2];
            out.push(sextet_char(b0 / 4));
            out.push(sextet_char((b0 % 4) * 16 + b1 / 16));
            out.push(sextet_char((b1 % 16) * 4 + b2 / 64));
            out.push(sextet_char(b2 % 64));
            i = i + 3;
            assert(rest.skip(3) =~= b@.skip(i as int));
            assert(out@ + base64(b@.skip(i as int)) =~= before + base64(rest));
        }
    }
}

/// The standard base64 encoding of `b`.
pub fn base64_encode(b: &[u8]) -> (s: String)
    ensures
        s@ == base64(b@),
{
    let mut s = String::new();
    encode_from(b, &mut s);
    assert(s@ =~= base64(b@));
    s
}

/// The prefix of an OSC 52 sequence that sets the clipboard.
pub open spec fn osc52_start() -> Seq<char> {
    seq!['\u{1b}', ']', '5', '2', ';', 'c', ';']
}

/// The terminal sequence (OSC 52) that puts `text` on the clipboard: the
/// UTF-8 bytes of `text` in base64, between `ESC ] 52 ; c ;` and `BEL`.
pub fn clipboard_sequence(text: &str) -> (s: String)
    ensures
        s@ == osc52_start() + base64(text.spec_bytes()) + seq!['\u{7}'],
{
    let mut s = String::new();
    s.push('\u{1b}');
    s.push(']');
    s.push('5');
    s.push('2');
    s.push(';');
    s.push('c');
    s.push(';');
    assert(s@ =~= osc52_start());
    encode_from(text.as_bytes(), &mut s);
    s.push('\u{7}');
    s
}

} // verus!
