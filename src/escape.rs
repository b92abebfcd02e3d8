use vstd::prelude::*;
use vstd::utf8::{decode_utf8, encode_utf8, valid_utf8};

verus! {

broadcast use vstd::string::group_string_axioms;

/// Why the bounded escape wrote nothing.
#[derive(Debug, Clone, Copy, PartialEq, Eq, Structural)]
pub enum EscapeError {
    /// The input bytes are not UTF-8 text.
    InvalidEncoding,
    /// The escaped text and its terminating zero do not fit the destination.
    BufferTooSmall,
}

/// Characters that may not stand raw inside a JSON string: the quote, the
/// backslash and the control characters below U+0020.
pub open spec fn must_escape(c: char) -> bool {
    c == '"' || c == '\\' || (c as u32) < 0x20
}

/// True when some character of `s` must be escaped.
pub open spec fn needs_escape(s: Seq<char>) -> bool {
    exists|i: int| 0 <= i < s.len() && #[trigger] must_escape(s[i])
}

/// The lowercase hexadecimal digit for `n < 16`.
pub open spec fn hex_digit(n: u32) -> char {
    if n < 10 {
        (('0' as u32) + n) as char
    } else {
        (('a' as u32) + n - 10) as char
    }
}

/// What one input character becomes in the escaped text.
pub open spec fn escape_char(c: char) -> Seq<char> {
    if c == '"' {
        seq!['\\', '"']
    } else if c == '\\' {
        seq!['\\', '\\']
    } else if c == '\n' {
        seq!['\\', 'n']
    } else if c == '\r' {
        seq!['\\', 'r']
    } else if c == '\t' {
        seq!['\\', 't']
    } else if (c as u32) == 0x08 {
        seq!['\\', 'b']
    } else if (c as u32) == 0x0c {
        seq!['\\', 'f']
    } else if (c as u32) < 0x20 {
        seq!['\\', 'u', '0', '0', hex_digit((c as u32) / 16), hex_digit((c as u32) % 16)]
    } else {
        seq![c]
    }
}

/// The escaped form of `s`: each character replaced by its escape, in order.
pub open spec fn escaped(s: Seq<char>) -> Seq<char>
    decreases s.len(),
{
    if s.len() == 0 {
        Seq::empty()
    } else {
        escaped(s.drop_last()) + escape_char(s.last())
    }
}

/// The bytes that the bounded escape writes before its terminating zero.
pub open spec fn escaped_bytes(s: Seq<char>) -> Seq<u8> {
    encode_utf8(escaped(s))
}

/// Escaping a character that needs none leaves it as it is.
proof fn lemma_escaped_identity(s: Seq<char>)
    requires
        !needs_escape(s),
    ensures
        escaped(s) == s,
    decreases s.len(),
{
    if s.len() > 0 {
        let init = s.drop_last();
        assert forall|i: int| 0 <= i < init.len() implies !must_escape(init[i]) by {
            assert(init[i] == s[i]);
        }
        assert(!must_escape(s[s.len() - 1]));
        lemma_escaped_identity(init);
        assert(s == init.push(s.last()));
    }
}

/// Escaping text in which nothing needs escaping returns the text unchanged.
pub proof fn lemma_escape_fixes_safe_text(s: Seq<char>)
    requires
        !needs_escape(s),
    ensures
        escaped(s) == s,
        escaped_bytes(s) == encode_utf8(s),
{
    lemma_escaped_identity(s);
}

/// Escaping distributes over concatenation.
pub proof fn lemma_escaped_concat(a: Seq<char>, b: Seq<char>)
    ensures
        escaped(a + b) == escaped(a) + escaped(b),
    decreases b.len(),
{
    if b.len() == 0 {
        assert(a + b == a);
    } else {
        let b0 = b.drop_last();
        assert((a + b).drop_last() == a + b0);
        assert((a + b).last() == b.last());
        lemma_escaped_concat(a, b0);
    }
}

/// Relies on String::with_capacity: the new string is empty.
#[verifier::external_body]
fn string_with_capacity(capacity: usize) -> (r: String)
    requires
        capacity <= isize::MAX,
    ensures
        r@ == Seq::<char>::empty(),
{
    String::with_capacity(capacity)
}

/// Relies on String::push: the character is added at the end.
#[verifier::external_body]
fn push_char(s: &mut String, c: char)
    ensures
        final(s)@ == old(s)@.push(c),
{
    s.push(c)
}

fn hex_char(n: u32) -> (r: char)
    requires
        n < 16,
    ensures
        r == hex_digit(n),
{
    if n < 10 {
        ((48 + n) as u8) as char
    } else {
        ((87 + n) as u8) as char
    }
}

fn push_escaped(out: &mut String, c: char)
    ensures
        final(out)@ == old(out)@ + escape_char(c),
{
    let code = c as u32;
    if c == '"' {
        push_char(out, '\\');
        push_char(out, '"');
    } else if c == '\\' {
        push_char(out, '\\');
        push_char(out, '\\');
    } else if c == '\n' {
        push_char(out, '\\');
        push_char(out, 'n');
    } else if c == '\r' {
        push_char(out, '\\');
        push_char(out, 'r');
    } else if c == '\t' {
        push_char(out, '\\');
        push_char(out, 't');
    } else if code == 0x08 {
        push_char(out, '\\');
        push_char(out, 'b');
    } else if code == 0x0c {
        push_char(out, '\\');
        push_char(out, 'f');
    } else if code < 0x20 {
        push_char(out, '\\');
        push_char(out, 'u');
        push_char(out, '0');
        push_char(out, '0');
        push_char(out, hex_char(code / 16));
        push_char(out, hex_char(code % 16));
    } else {
        push_char(out, c);
    }
    assert(out@ =~= old(out)@ + escape_char(c));
}


/// Reports whether any character of `input` is a quote, a backslash or a
/// control character, so that escaping would change it.
pub fn needs_escaping(input: &str) -> (r: bool)
    ensures
        r == needs_escape(input@),
{
    let chars = input.chars();
    for c in it: chars
        invariant
            it.seq() == input@,
            forall|j: int| 0 <= j < it.index() ==> !#[trigger] must_escape(input@[j]),
    {
        if c == '"' || c == '\\' || (c as u32) < 0x20 {
            assert(must_escape(input@[it.index() as int]));
            return true;
        }
    }
    false
}

/// Appends the escaped form of `input` to `output`.
pub fn escape_into(input: &str, output: &mut String)
    ensures
        final(output)@ == old(output)@ + escaped(input@),
{
    let chars = input.chars();
    for c in it: chars
        invariant
            it.seq() == input@,
            0 <= it.index() <= input@.len(),
            output@ == old(output)@ + escaped(input@.subrange(0, it.index() as int)),
    {
        let ghost k = it.index();
        proof {
            let pre = input@.subrange(0, k as int);
            assert(input@.subrange(0, k + 1) == pre + seq![c]);
            lemma_escaped_concat(pre, seq![c]);
            assert(seq![c].drop_last() == Seq::<char>::empty());
            assert(escaped(seq![c]) == escaped(Seq::<char>::empty()) + escape_char(c));
            assert(escaped(seq![c]) == escape_char(c));
        }
        push_escaped(output, c);
    }
    assert(input@.subrange(0, input@.len() as int) == input@);
}

/// Returns the JSON-escaped form of `input`.
pub fn escape_json_string(input: &str) -> (r: String)
    ensures
        r@ == escaped(input@),
{
    let n = input.len();
    let max_hint = isize::MAX as usize;
    let hint: usize = if n <= max_hint && n / 8 <= max_hint - n {
        n + n / 8
    } else {
        max_hint
    };
    let mut output = string_with_capacity(hint);
    escape_into(input, &mut output);
    output
}

/// Relies on std::str::from_utf8: it accepts exactly the UTF-8 byte
/// sequences, and the text it returns is made of those same bytes.
#[verifier::external_body]
fn text_of_bytes(bytes: &[u8]) -> (r: Option<&str>)
    ensures
        r is Some <==> valid_utf8(bytes@),
        r matches Some(t) ==> encode_utf8(t@) == bytes@,
{
    std::str::from_utf8(bytes).ok()
}

/// Copies `src` to the front of `dest` and writes a zero byte after it.
fn write_terminated(src: &[u8], dest: &mut [u8])
    requires
        src@.len() < old(dest)@.len(),
    ensures
        final(dest)@.len() == old(dest)@.len(),
        final(dest)@.subrange(0, src@.len() as int) == src@,
        final(dest)@[src@.len() as int] == 0,
        final(dest)@.subrange(src@.len() as int + 1, old(dest)@.len() as int)
            == old(dest)@.subrange(src@.len() as int + 1, old(dest)@.len() as int),
{
    let n = src.len();
    let mut i: usize = 0;
    while i < n
        invariant
            n == src@.len(),
            i <= n,
            n < dest@.len(),
            dest@.len() == old(dest)@.len(),
            forall|j: int| 0 <= j < i ==> dest@[j] == src@[j],
            forall|j: int| n < j < dest@.len() ==> dest@[j] == old(dest)@[j],
        decreases n - i,
    {
        dest[i] = src[i];
        i = i + 1;
    }
    dest[n] = 0;
    assert(dest@.subrange(0, n as int) =~= src@);
    assert(dest@.subrange(n + 1, dest@.len() as int) =~= old(dest)@.subrange(
        n + 1,
        old(dest)@.len() as int,
    ));
}

/// Writes the escaped form of `input` into the fixed-size `output`, followed
/// by a zero byte, and returns the number of bytes written before the zero.
/// When text and terminator do not fit, nothing is written.
pub fn escape_json(input: &str, output: &mut [u8]) -> (r: Result<usize, EscapeError>)
    ensures
        final(output)@.len() == old(output)@.len(),
        r is Ok <==> escaped_bytes(input@).len() < old(output)@.len(),
        r matches Ok(n) ==> {
            &&& n == escaped_bytes(input@).len()
            &&& final(output)@.subrange(0, n as int) == escaped_bytes(input@)
            &&& final(output)@[n as int] == 0
            &&& final(output)@.subrange(n + 1, old(output)@.len() as int)
                == old(output)@.subrange(n + 1, old(output)@.len() as int)
        },
        r matches Err(e) ==> e == EscapeError::BufferTooSmall && final(output)@ == old(output)@,
{
    if !needs_escaping(input) {
        proof {
            lemma_escape_fixes_safe_text(input@);
        }
        let bytes = input.as_bytes();
        if bytes.len() >= output.len() {
            return Err(EscapeError::BufferTooSmall);
        }
        write_terminated(bytes, output);
        Ok(bytes.len())
    } else {
        let text = escape_json_string(input);
        let bytes = text.as_str().as_bytes();
        if bytes.len() >= output.len() {
            return Err(EscapeError::BufferTooSmall);
        }
        write_terminated(bytes, output);
        Ok(bytes.len())
    }
}

/// The bounded escape on raw bytes: input that is not UTF-8 is refused with
/// its own error, before anything is written.
pub fn escape_json_bytes(input: &[u8], output: &mut [u8]) -> (r: Result<usize, EscapeError>)
    ensures
        final(output)@.len() == old(output)@.len(),
        !valid_utf8(input@) ==> r == Err::<usize, EscapeError>(EscapeError::InvalidEncoding)
            && final(output)@ == old(output)@,
        valid_utf8(input@) ==> {
            let e = escaped_bytes(decode_utf8(input@));
            &&& r is Ok <==> e.len() < old(output)@.len()
            &&& r matches Ok(n) ==> {
                &&& n == e.len()
                &&& final(output)@.subrange(0, n as int) == e
                &&& final(output)@[n as int] == 0
                &&& final(output)@.subrange(n + 1, old(output)@.len() as int)
                    == old(output)@.subrange(n + 1, old(output)@.len() as int)
            }
            &&& r matches Err(err) ==> err == EscapeError::BufferTooSmall
                && final(output)@ == old(output)@
        },
{
    match text_of_bytes(input) {
        None => Err(EscapeError::InvalidEncoding),
        Some(text) => {
            proof {
                vstd::utf8::encode_utf8_decode_utf8(text@);
            }
            escape_json(text, output)
        },
    }
}

} // verus!
