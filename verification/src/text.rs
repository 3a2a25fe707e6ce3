//! JSON string-token primitives: the exact escaping table and the writers
//! that produce quoted string literals into a character buffer.

use vstd::prelude::*;

verus! {

/// Lowercase hexadecimal digit for a value below 16.
pub open spec fn hex_char(n: int) -> char {
    if n == 0 { '0' } else if n == 1 { '1' } else if n == 2 { '2' } else if n == 3 { '3' }
    else if n == 4 { '4' } else if n == 5 { '5' } else if n == 6 { '6' } else if n == 7 { '7' }
    else if n == 8 { '8' } else if n == 9 { '9' } else if n == 10 { 'a' } else if n == 11 { 'b' }
    else if n == 12 { 'c' } else if n == 13 { 'd' } else if n == 14 { 'e' } else { 'f' }
}

/// The control code points (the Unicode `Cc` category): everything here that
/// has no short escape is written as a `\u00xx` sequence.
pub open spec fn is_ctl(c: char) -> bool {
    (c as u32) < 0x20 || (0x7f <= (c as u32) && (c as u32) <= 0x9f)
}

/// The escape table: what one character contributes to a JSON string body.
pub open spec fn esc_char(c: char) -> Seq<char> {
    if c == '"' { seq!['\\', '"'] }
    else if c == '\\' { seq!['\\', '\\'] }
    else if c == '\n' { seq!['\\', 'n'] }
    else if c == '\r' { seq!['\\', 'r'] }
    else if c == '\t' { seq!['\\', 't'] }
    else if c == '\u{08}' { seq!['\\', 'b'] }
    else if c == '\u{0c}' { seq!['\\', 'f'] }
    else if is_ctl(c) {
        seq!['\\', 'u', '0', '0', hex_char((c as u32 / 16) as int), hex_char((c as u32 % 16) as int)]
    } else {
        seq![c]
    }
}

/// The escaped body of a JSON string: each character replaced by its escape.
pub open spec fn esc(s: Seq<char>) -> Seq<char>
    decreases s.len(),
{
    if s.len() == 0 {
        Seq::empty()
    } else {
        esc(s.drop_last()) + esc_char(s.last())
    }
}

/// A complete JSON string token: quote, escaped body, quote.
pub open spec fn jstr(s: Seq<char>) -> Seq<char> {
    seq!['"'] + esc(s) + seq!['"']
}

fn hex_digit(n: u32) -> (c: char)
    requires
        n < 16,
    ensures
        c == hex_char(n as int),
{
    if n == 0 { '0' } else if n == 1 { '1' } else if n == 2 { '2' } else if n == 3 { '3' }
    else if n == 4 { '4' } else if n == 5 { '5' } else if n == 6 { '6' } else if n == 7 { '7' }
    else if n == 8 { '8' } else if n == 9 { '9' } else if n == 10 { 'a' } else if n == 11 { 'b' }
    else if n == 12 { 'c' } else if n == 13 { 'd' } else if n == 14 { 'e' } else { 'f' }
}

/// Writes a single JSON escaped character into the buffer.
pub fn write_json_escaped_char(out: &mut Vec<char>, c: char)
    ensures
        final(out)@ == old(out)@ + esc_char(c),
{
    match c {
        '"' => {
            out.push('\\');
            out.push('"');
            assert(out@ =~= old(out)@ + esc_char(c));
        },
        '\\' => {
            out.push('\\');
            out.push('\\');
            assert(out@ =~= old(out)@ + esc_char(c));
        },
        '\n' => {
            out.push('\\');
            out.push('n');
            assert(out@ =~= old(out)@ + esc_char(c));
        },
        '\r' => {
            out.push('\\');
            out.push('r');
            assert(out@ =~= old(out)@ + esc_char(c));
        },
        '\t' => {
            out.push('\\');
            out.push('t');
            assert(out@ =~= old(out)@ + esc_char(c));
        },
        '\u{08}' => {
            out.push('\\');
            out.push('b');
            assert(out@ =~= old(out)@ + esc_char(c));
        },
        '\u{0c}' => {
            out.push('\\');
            out.push('f');
            assert(out@ =~= old(out)@ + esc_char(c));
        },
        _ => {
            let u = c as u32;
            if u < 0x20 || (0x7f <= u && u <= 0x9f) {
                out.push('\\');
                out.push('u');
                out.push('0');
                out.push('0');
                out.push(hex_digit(u / 16));
                out.push(hex_digit(u % 16));
                assert(out@ =~= old(out)@ + esc_char(c));
            } else {
                out.push(c);
                assert(out@ =~= old(out)@ + esc_char(c));
            }
        },
    }
}

/// Appends the characters of `s` to the buffer unchanged; the number path of
/// the serializer emits its canonical token this way.
pub fn write_raw(out: &mut Vec<char>, s: &Vec<char>)
    ensures
        final(out)@ == old(out)@ + s@,
{
    let n = s.len();
    let mut i: usize = 0;
    while i < n
        invariant
            n == s@.len(),
            i <= n,
            out@ == old(out)@ + s@.take(i as int),
        decreases n - i,
    {
        out.push(s[i]);
        assert(s@.take(i + 1) =~= s@.take(i as int).push(s@[i as int]));
        assert(out@ =~= old(out)@ + s@.take(i + 1));
        i = i + 1;
    }
    assert(s@.take(n as int) =~= s@);
}

/// Properly escapes and writes a complete JSON string token.
pub fn write_json_string(out: &mut Vec<char>, s: &Vec<char>)
    ensures
        final(out)@ == old(out)@ + jstr(s@),
{
    out.push('"');
    let ghost start = out@;
    let n = s.len();
    let mut i: usize = 0;
    while i < n
        invariant
            n == s@.len(),
            i <= n,
            out@ == start + esc(s@.take(i as int)),
        decreases n - i,
    {
        assert(esc(s@.take(0int)) =~= Seq::<char>::empty());
        write_json_escaped_char(out, s[i]);
        proof {
            let t = s@.take(i + 1);
            assert(t.drop_last() =~= s@.take(i as int));
            assert(t.last() == s@[i as int]);
            assert(esc(t) == esc(s@.take(i as int)) + esc_char(s@[i as int]));
            assert(out@ =~= start + esc(t));
        }
        i = i + 1;
    }
    out.push('"');
    proof {
        assert(s@.take(n as int) =~= s@);
        assert(out@ =~= old(out)@ + jstr(s@));
    }
}

/// Appends the literal token `null`.
pub fn write_null(out: &mut Vec<char>)
    ensures
        final(out)@ == old(out)@ + "null"@,
{
    out.push('n');
    out.push('u');
    out.push('l');
    out.push('l');
    proof {
        reveal_strlit("null");
        assert(out@ =~= old(out)@ + "null"@);
    }
}

/// Appends the literal token `true`.
pub fn write_true(out: &mut Vec<char>)
    ensures
        final(out)@ == old(out)@ + "true"@,
{
    out.push('t');
    out.push('r');
    out.push('u');
    out.push('e');
    proof {
        reveal_strlit("true");
        assert(out@ =~= old(out)@ + "true"@);
    }
}

/// Appends the literal token `false`.
pub fn write_false(out: &mut Vec<char>)
    ensures
        final(out)@ == old(out)@ + "false"@,
{
    out.push('f');
    out.push('a');
    out.push('l');
    out.push('s');
    out.push('e');
    proof {
        reveal_strlit("false");
        assert(out@ =~= old(out)@ + "false"@);
    }
}

/// Copies a character buffer; navigation hands out owned text this way.
pub fn copy_chars(s: &Vec<char>) -> (r: Vec<char>)
    ensures
        r@ == s@,
{
    let mut r: Vec<char> = Vec::new();
    write_raw(&mut r, s);
    assert(r@ =~= s@);
    r
}

} // verus!
