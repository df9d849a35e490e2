//! Rendering of byte strings that may hold invalid UTF-8: valid runs as
//! text, every invalid byte as a `\xNN` escape.
use vstd::prelude::*;

verus! {

/// The UTF-8 chunks of a byte string: each a run of valid text followed by
/// the invalid bytes that end it, as std's `utf8_chunks` cuts them.
pub uninterp spec fn utf8_chunks_of(b: Seq<u8>) -> Seq<(Seq<char>, Seq<u8>)>;

/// Relies on `<[u8]>::utf8_chunks`: the chunks depend on the bytes alone, and
/// an empty string has none.
#[verifier::external_body]
fn utf8_chunks(b: &[u8]) -> (r: Vec<(String, Vec<u8>)>)
    ensures
        r@.len() == utf8_chunks_of(b@).len(),
        forall|i: int|
            0 <= i < r@.len() ==> (#[trigger] r@[i]).0@ == utf8_chunks_of(b@)[i].0 && r@[i].1@
                == utf8_chunks_of(b@)[i].1,
        b@.len() == 0 ==> r@.len() == 0,
{
    b.utf8_chunks().map(|c| (c.valid().to_string(), c.invalid().to_vec())).collect()
}

/// Relies on `String::push_str`: appends the characters of `t`.
#[verifier::external_body]
fn push_str(s: &mut String, t: &str)
    ensures
        final(s)@ == old(s)@ + t@,
{
    s.push_str(t)
}

/// Relies on `String::push`: appends one character.
#[verifier::external_body]
fn push_char(s: &mut String, c: char)
    ensures
        final(s)@ == old(s)@.push(c),
{
    s.push(c)
}

/// The lower-case hexadecimal digit of a value below sixteen.
pub open spec fn hex_digit(n: u8) -> char
    recommends
        n < 16,
{
    seq!['0', '1', '2', '3', '4', '5', '6', '7', '8', '9', 'a', 'b', 'c', 'd', 'e', 'f'][n as int]
}

/// A byte as two lower-case hexadecimal digits.
pub open spec fn hex2(b: u8) -> Seq<char> {
    seq![hex_digit(b / 16), hex_digit(b % 16)]
}

/// Each byte as `\x` and two lower-case hexadecimal digits.
pub open spec fn escape_bytes(s: Seq<u8>) -> Seq<char>
    decreases s.len(),
{
    if s.len() == 0 {
        seq![]
    } else {
        escape_bytes(s.drop_last()) + seq!['\\', 'x'] + hex2(s.last())
    }
}

/// The chunks, each as its text followed by its escaped bytes.
pub open spec fn render_chunks(c: Seq<(Seq<char>, Seq<u8>)>) -> Seq<char>
    decreases c.len(),
{
    if c.len() == 0 {
        seq![]
    } else {
        render_chunks(c.drop_last()) + c.last().0 + escape_bytes(c.last().1)
    }
}

/// The bytes as two-digit hexadecimal numbers separated by commas.
pub open spec fn hex_list(s: Seq<u8>) -> Seq<char>
    decreases s.len(),
{
    if s.len() == 0 {
        seq![]
    } else if s.len() == 1 {
        hex2(s[0])
    } else {
        hex_list(s.drop_last()) + seq![','] + hex2(s.last())
    }
}

/// What `display_bytes` renders for a byte string.
pub open spec fn display_of(b: Seq<u8>) -> Seq<char> {
    render_chunks(utf8_chunks_of(b))
}

/// What `debug_bytes` renders for a byte string.
pub open spec fn debug_of(b: Seq<u8>, alternate: bool) -> Seq<char> {
    if alternate {
        hex_list(b)
    } else {
        seq!['"'] + display_of(b) + seq!['"']
    }
}

fn hex_char(n: u8) -> (r: char)
    requires
        n < 16,
    ensures
        r == hex_digit(n),
{
    let digits: [char; 16] = [
        '0',
        '1',
        '2',
        '3',
        '4',
        '5',
        '6',
        '7',
        '8',
        '9',
        'a',
        'b',
        'c',
        'd',
        'e',
        'f',
    ];
    proof {
        assert(digits@ =~= seq![
            '0',
            '1',
            '2',
            '3',
            '4',
            '5',
            '6',
            '7',
            '8',
            '9',
            'a',
            'b',
            'c',
            'd',
            'e',
            'f',
        ]);
    }
    digits[n as usize]
}

fn push_hex2(out: &mut String, b: u8)
    ensures
        final(out)@ == old(out)@ + hex2(b),
{
    push_char(out, hex_char(b / 16));
    push_char(out, hex_char(b % 16));
    assert(final(out)@ =~= old(out)@ + hex2(b));
}

/// Renders chunks of a byte string: each chunk's text, then each of its
/// invalid bytes as `\x` and two lower-case hexadecimal digits.
pub fn render_utf8_chunks(chunks: &Vec<(String, Vec<u8>)>) -> (r: String)
    ensures
        r@ == render_chunks(chunks@.map_values(|c: (String, Vec<u8>)| (c.0@, c.1@))),
{
    let ghost spec_chunks = chunks@.map_values(|c: (String, Vec<u8>)| (c.0@, c.1@));
    let mut out = String::new();
    let mut i: usize = 0;
    while i < chunks.len()
        invariant
            i <= chunks@.len(),
            spec_chunks == chunks@.map_values(|c: (String, Vec<u8>)| (c.0@, c.1@)),
            out@ == render_chunks(spec_chunks.subrange(0, i as int)),
        decreases chunks@.len() - i,
    {
        let chunk = &chunks[i];
        let ghost before = out@;
        push_str(&mut out, chunk.0.as_str());
        let bad = &chunk.1;
        let mut j: usize = 0;
        while j < bad.len()
            invariant
                j <= bad@.len(),
                out@ == before + chunk.0@ + escape_bytes(bad@.subrange(0, j as int)),
            decreases bad@.len() - j,
        {
            push_char(&mut out, '\\');
            push_char(&mut out, 'x');
            push_hex2(&mut out, bad[j]);
            proof {
                assert(bad@.subrange(0, j + 1).drop_last() =~= bad@.subrange(0, j as int));
            }
            j = j + 1;
        }
        proof {
            assert(bad@.subrange(0, j as int) =~= bad@);
            assert(spec_chunks.subrange(0, i + 1).drop_last() =~= spec_chunks.subrange(0, i as int));
        }
        i = i + 1;
    }
    proof {
        assert(spec_chunks.subrange(0, i as int) =~= spec_chunks);
    }
    out
}

/// Renders a byte string: valid UTF-8 as text, every invalid byte as `\x`
/// and two lower-case hexadecimal digits.
pub fn display_bytes(bytes: &[u8]) -> (r: String)
    ensures
        r@ == display_of(bytes@),
        bytes@.len() == 0 ==> r@.len() == 0,
{
    let chunks = utf8_chunks(bytes);
    proof {
        assert(chunks@.map_values(|c: (String, Vec<u8>)| (c.0@, c.1@)) =~= utf8_chunks_of(bytes@));
    }
    render_utf8_chunks(&chunks)
}

/// Renders a byte string for debugging: quoted as `display_bytes` renders
/// it, or, in the alternate form, as two-digit hexadecimal numbers separated
/// by commas.
pub fn debug_bytes(bytes: &[u8], alternate: bool) -> (r: String)
    ensures
        r@ == debug_of(bytes@, alternate),
{
    let mut out = String::new();
    if alternate {
        let mut i: usize = 0;
        while i < bytes.len()
            invariant
                i <= bytes@.len(),
                out@ == hex_list(bytes@.subrange(0, i as int)),
            decreases bytes@.len() - i,
        {
            if i > 0 {
                push_char(&mut out, ',');
            }
            push_hex2(&mut out, bytes[i]);
            proof {
                let s = bytes@.subrange(0, i + 1);
                assert(s.drop_last() =~= bytes@.subrange(0, i as int));
                if i == 0 {
                    assert(out@ =~= hex_list(s));
                }
            }
            i = i + 1;
        }
        proof {
            assert(bytes@.subrange(0, i as int) =~= bytes@);
        }
    } else {
        push_char(&mut out, '"');
        let shown = display_bytes(bytes);
        push_str(&mut out, shown.as_str());
        push_char(&mut out, '"');
        assert(out@ =~= seq!['"'] + display_of(bytes@) + seq!['"']);
    }
    out
}

} // verus!
