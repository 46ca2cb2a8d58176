//! The name transcoder: maps native Amiga filename bytes onto host-safe text.
//!
//! Policy, per byte and in priority order: a few legacy codepoints are
//! remapped to lookalike glyphs, the nine bytes that common host filesystems
//! reserve are percent-encoded, and every other byte becomes the Unicode
//! codepoint of the same value.
use vstd::prelude::*;

verus! {

/// The nine bytes that are illegal or reserved on common host filesystems:
/// `%`, `\`, `*`, `?`, `"`, `/`, `|`, `<`, `>`.
pub open spec fn is_reserved_byte(b: u8) -> bool {
    b == 0x25 || b == 0x5c || b == 0x2a || b == 0x3f || b == 0x22 || b == 0x2f || b == 0x7c
        || b == 0x3c || b == 0x3e
}

/// The codepoints the legacy platform used that are remapped to lookalike
/// glyphs instead of being carried over one-to-one.
pub open spec fn is_remapped_byte(b: u8) -> bool {
    b == 0xad || b == 0x7f || b == 0xaa || b == 0xba || b == 0xa4
}

/// What one byte contributes to the transcoded text.
pub open spec fn transcoded_byte(b: u8) -> Seq<char> {
    if b == 0xad {
        seq!['\u{2014}']
    } else if b == 0x7f {
        seq!['\u{2592}']
    } else if b == 0xaa || b == 0xba {
        seq!['\u{fffd}']
    } else if b == 0xa4 {
        seq!['\u{20ac}']
    } else if b == 0x25 {
        seq!['%', '2', '5']
    } else if b == 0x5c {
        seq!['%', '5', 'c']
    } else if b == 0x2a {
        seq!['%', '2', 'a']
    } else if b == 0x3f {
        seq!['%', '3', 'f']
    } else if b == 0x22 {
        seq!['%', '2', '2']
    } else if b == 0x2f {
        seq!['%', '2', 'f']
    } else if b == 0x7c {
        seq!['%', '7', 'c']
    } else if b == 0x3c {
        seq!['%', '3', 'c']
    } else if b == 0x3e {
        seq!['%', '3', 'e']
    } else {
        seq![b as char]
    }
}

/// The transcoded text of a whole byte string.
pub open spec fn transcoded(s: Seq<u8>) -> Seq<char>
    decreases s.len(),
{
    if s.len() == 0 {
        Seq::empty()
    } else {
        transcoded(s.drop_last()) + transcoded_byte(s.last())
    }
}

/// Appends one character to a string.
///
/// Relies on `String::push`, which appends the given `char` to the end of
/// the `String`.
#[verifier::external_body]
pub(crate) fn push_char(s: &mut String, c: char)
    ensures
        final(s)@ == old(s)@.push(c),
{
    s.push(c);
}

/// The simplified mapping used when no metadata recovery is attempted:
/// every byte becomes the Unicode codepoint of the same value, with no
/// percent-encoding and no glyph remapping.
pub open spec fn raw_transcoded(s: Seq<u8>) -> Seq<char> {
    Seq::new(s.len(), |i: int| s[i] as char)
}

/// Maps `A`..`Z` onto `a`..`z` and keeps every other character.
pub open spec fn lower_char(c: char) -> char {
    if 0x41 <= c as u32 && c as u32 <= 0x5a {
        ((c as u32) + 32) as char
    } else {
        c
    }
}

/// Lower-cases a text character by character, ASCII letters only.
pub open spec fn lower_chars(s: Seq<char>) -> Seq<char> {
    Seq::new(s.len(), |i: int| lower_char(s[i]))
}

/// Maps an ASCII uppercase letter byte onto its lowercase letter and keeps
/// every other byte.
pub open spec fn fold_byte(b: u8) -> u8 {
    if 0x41 <= b && b <= 0x5a {
        (b + 32) as u8
    } else {
        b
    }
}

/// Two byte strings that are equal up to ASCII letter case.
pub open spec fn case_equal(x: Seq<u8>, y: Seq<u8>) -> bool {
    x.map_values(|b: u8| fold_byte(b)) == y.map_values(|b: u8| fold_byte(b))
}

/// The nine characters that are illegal or reserved on common host
/// filesystems, as codepoints.
pub open spec fn is_reserved_char(c: char) -> bool {
    c == '%' || c == '\\' || c == '*' || c == '?' || c == '"' || c == '/' || c == '|' || c == '<'
        || c == '>'
}

/// A lowercase hexadecimal digit, as the percent-encoder emits them.
pub open spec fn is_hex_char(c: char) -> bool {
    (48 <= c as u32 && c as u32 <= 57) || (97 <= c as u32 && c as u32 <= 102)
}

/// The value of a lowercase hexadecimal digit.
pub open spec fn hex_char_val(c: char) -> u8 {
    if 48 <= c as u32 && c as u32 <= 57 {
        ((c as u32) - 48) as u8
    } else {
        ((c as u32) - 87) as u8
    }
}

/// The symmetric decoding that the metadata formats rely on to recover the
/// original byte sequence: percent-decoding plus the codepoint-to-byte
/// inverse of the one-to-one mapping.
pub open spec fn decoded(t: Seq<char>) -> Seq<u8>
    decreases t.len(),
{
    if t.len() == 0 {
        Seq::empty()
    } else if t[0] == '%' && t.len() >= 3 && is_hex_char(t[1]) && is_hex_char(t[2]) {
        seq![(16 * hex_char_val(t[1]) + hex_char_val(t[2])) as u8] + decoded(t.skip(3))
    } else {
        seq![((t[0] as u32) as u8)] + decoded(t.skip(1))
    }
}

/// Transcodes one native byte string into host-safe text.
pub fn transcode(slice: &[u8]) -> (r: String)
    ensures
        r@ == transcoded(slice@),
{
    let mut r = String::new();
    let mut i: usize = 0;
    while i < slice.len()
        invariant
            i <= slice@.len(),
            r@ == transcoded(slice@.take(i as int)),
        decreases slice@.len() - i,
    {
        let b = slice[i];
        proof {
            assert(slice@.take(i + 1 as int).drop_last() =~= slice@.take(i as int));
            assert(slice@.take(i + 1 as int).last() == b);
        }
        if b == 0xad {
            push_char(&mut r, '\u{2014}');
        } else if b == 0x7f {
            push_char(&mut r, '\u{2592}');
        } else if b == 0xaa || b == 0xba {
            push_char(&mut r, '\u{fffd}');
        } else if b == 0xa4 {
            push_char(&mut r, '\u{20ac}');
        } else if b == 0x25 {
            push_char(&mut r, '%');
            push_char(&mut r, '2');
            push_char(&mut r, '5');
        } else if b == 0x5c {
            push_char(&mut r, '%');
            push_char(&mut r, '5');
            push_char(&mut r, 'c');
        } else if b == 0x2a {
            push_char(&mut r, '%');
            push_char(&mut r, '2');
            push_char(&mut r, 'a');
        } else if b == 0x3f {
            push_char(&mut r, '%');
            push_char(&mut r, '3');
            push_char(&mut r, 'f');
        } else if b == 0x22 {
            push_char(&mut r, '%');
            push_char(&mut r, '2');
            push_char(&mut r, '2');
        } else if b == 0x2f {
            push_char(&mut r, '%');
            push_char(&mut r, '2');
            push_char(&mut r, 'f');
        } else if b == 0x7c {
            push_char(&mut r, '%');
            push_char(&mut r, '7');
            push_char(&mut r, 'c');
        } else if b == 0x3c {
            push_char(&mut r, '%');
            push_char(&mut r, '3');
            push_char(&mut r, 'c');
        } else if b == 0x3e {
            push_char(&mut r, '%');
            push_char(&mut r, '3');
            push_char(&mut r, 'e');
        } else {
            push_char(&mut r, b as char);
        }
        proof {
            assert(r@ =~= transcoded(slice@.take(i + 1 as int)));
        }
        i = i + 1;
    }
    proof {
        assert(slice@.take(slice@.len() as int) =~= slice@);
    }
    r
}

/// Transcodes one native byte string with the simplified mapping: each byte
/// becomes the codepoint of the same value.
pub fn transcode_raw(slice: &[u8]) -> (r: String)
    ensures
        r@ == raw_transcoded(slice@),
{
    let mut r = String::new();
    let mut i: usize = 0;
    while i < slice.len()
        invariant
            i <= slice@.len(),
            r@ =~= raw_transcoded(slice@.take(i as int)),
        decreases slice@.len() - i,
    {
        push_char(&mut r, slice[i] as char);
        i = i + 1;
        proof {
            assert(r@ =~= raw_transcoded(slice@.take(i as int)));
        }
    }
    proof {
        assert(slice@.take(slice@.len() as int) =~= slice@);
    }
    r
}

/// Lower-cases one character, ASCII letters only.
fn char_lower(c: char) -> (r: char)
    ensures
        r == lower_char(c),
{
    match c {
        'A' => 'a',
        'B' => 'b',
        'C' => 'c',
        'D' => 'd',
        'E' => 'e',
        'F' => 'f',
        'G' => 'g',
        'H' => 'h',
        'I' => 'i',
        'J' => 'j',
        'K' => 'k',
        'L' => 'l',
        'M' => 'm',
        'N' => 'n',
        'O' => 'o',
        'P' => 'p',
        'Q' => 'q',
        'R' => 'r',
        'S' => 's',
        'T' => 't',
        'U' => 'u',
        'V' => 'v',
        'W' => 'w',
        'X' => 'x',
        'Y' => 'y',
        'Z' => 'z',
        _ => c,
    }
}

/// Lower-cases a string, ASCII letters only.
pub fn ascii_lower(s: &str) -> (r: String)
    ensures
        r@ == lower_chars(s@),
{
    let mut r = String::new();
    let n = s.unicode_len();
    let mut i: usize = 0;
    while i < n
        invariant
            n == s@.len(),
            i <= n,
            r@ =~= lower_chars(s@.take(i as int)),
        decreases n - i,
    {
        let c = s.get_char(i);
        push_char(&mut r, char_lower(c));
        i = i + 1;
        proof {
            assert(r@ =~= lower_chars(s@.take(i as int)));
        }
    }
    proof {
        assert(s@.take(s@.len() as int) =~= s@);
    }
    r
}

/// The transcoder's output never contains a filesystem-reserved character
/// literally, except as the opening `%` of a percent-escape: every character
/// other than `%` is unreserved, and every `%` starts the three-character
/// escape of one reserved byte.
pub proof fn lemma_transcode_reserved_free(s: Seq<u8>)
    ensures
        forall|i: int|
            0 <= i < transcoded(s).len() && transcoded(s)[i] != '%' ==> !is_reserved_char(
                transcoded(s)[i],
            ),
        forall|i: int|
            0 <= i < transcoded(s).len() && transcoded(s)[i] == '%' ==> i + 3 <= transcoded(
                s,
            ).len() && (exists|b: u8|
                is_reserved_byte(b) && transcoded(s).subrange(i, i + 3) == transcoded_byte(b)),
    decreases s.len(),
{
    if s.len() == 0 {
    } else {
        let b = s.last();
        let t1 = transcoded(s.drop_last());
        let t = transcoded(s);
        lemma_transcode_reserved_free(s.drop_last());
        assert(t == t1 + transcoded_byte(b));
        assert forall|i: int| 0 <= i < t.len() && t[i] != '%' implies !is_reserved_char(t[i]) by {
            if i >= t1.len() {
                assert(t[i] == transcoded_byte(b)[i - t1.len()]);
            }
        }
        assert forall|i: int| 0 <= i < t.len() && t[i] == '%' implies i + 3 <= t.len() && (
        exists|c: u8|
            is_reserved_byte(c) && t.subrange(i, i + 3) == transcoded_byte(c)) by {
            if i < t1.len() {
                let c = choose|c: u8|
                    is_reserved_byte(c) && t1.subrange(i, i + 3) == transcoded_byte(c);
                assert(t.subrange(i, i + 3) =~= t1.subrange(i, i + 3));
                assert(is_reserved_byte(c) && t.subrange(i, i + 3) == transcoded_byte(c));
            } else {
                assert(t[i] == transcoded_byte(b)[i - t1.len()]);
                if is_reserved_byte(b) {
                    assert(i == t1.len());
                    assert(t.subrange(i, i + 3) =~= transcoded_byte(b));
                } else {
                    assert(false);
                }
            }
        }
    }
}

/// Transcoding a byte string free of remapped and reserved bytes is the
/// plain one-to-one codepoint mapping, and decoding it recovers the
/// original bytes exactly.
pub proof fn lemma_transcode_decode_identity(s: Seq<u8>)
    requires
        forall|i: int| 0 <= i < s.len() ==> !is_reserved_byte(s[i]) && !is_remapped_byte(s[i]),
    ensures
        transcoded(s) == raw_transcoded(s),
        decoded(transcoded(s)) == s,
    decreases s.len(),
{
    lemma_transcode_is_raw(s);
    lemma_decode_raw(s);
}

proof fn lemma_transcode_is_raw(s: Seq<u8>)
    requires
        forall|i: int| 0 <= i < s.len() ==> !is_reserved_byte(s[i]) && !is_remapped_byte(s[i]),
    ensures
        transcoded(s) == raw_transcoded(s),
    decreases s.len(),
{
    if s.len() == 0 {
        assert(transcoded(s) =~= raw_transcoded(s));
    } else {
        lemma_transcode_is_raw(s.drop_last());
        assert(transcoded(s) =~= raw_transcoded(s));
    }
}

proof fn lemma_decode_raw(s: Seq<u8>)
    requires
        forall|i: int| 0 <= i < s.len() ==> !is_reserved_byte(s[i]),
    ensures
        decoded(raw_transcoded(s)) == s,
    decreases s.len(),
{
    let t = raw_transcoded(s);
    if s.len() == 0 {
        assert(decoded(t) =~= s);
    } else {
        assert(t[0] == s[0] as char);
        assert(!is_reserved_byte(s[0]));
        assert(t[0] != '%');
        lemma_decode_raw(s.skip(1));
        assert(t.skip(1) =~= raw_transcoded(s.skip(1)));
        assert(decoded(t) =~= s);
    }
}

proof fn lemma_transcode_front(s: Seq<u8>)
    requires
        s.len() > 0,
    ensures
        transcoded(s) == transcoded_byte(s.first()) + transcoded(s.drop_first()),
    decreases s.len(),
{
    if s.len() == 1 {
        assert(s.drop_last() =~= Seq::<u8>::empty());
        assert(s.drop_first() =~= Seq::<u8>::empty());
        assert(transcoded(s) =~= transcoded_byte(s.first()) + transcoded(s.drop_first()));
    } else {
        lemma_transcode_front(s.drop_last());
        assert(s.drop_last().first() == s.first());
        assert(s.drop_first().drop_last() =~= s.drop_last().drop_first());
        assert(s.drop_first().last() == s.last());
        assert(transcoded(s) =~= transcoded_byte(s.first()) + transcoded(s.drop_first()));
    }
}

/// The transform is reversible for everything but the remapped glyph
/// codepoints: decoding recovers the exact byte sequence, percent-escapes
/// included.
pub proof fn lemma_decode_recovers(s: Seq<u8>)
    requires
        forall|i: int| 0 <= i < s.len() ==> !is_remapped_byte(s[i]),
    ensures
        decoded(transcoded(s)) == s,
    decreases s.len(),
{
    if s.len() == 0 {
    } else {
        lemma_transcode_front(s);
        let t = transcoded(s);
        let b = s.first();
        assert forall|i: int| 0 <= i < s.drop_first().len() implies !is_remapped_byte(
            s.drop_first()[i],
        ) by {
            assert(s.drop_first()[i] == s[i + 1]);
        }
        lemma_decode_recovers(s.drop_first());
        if is_reserved_byte(b) {
            assert(t.skip(3) =~= transcoded(s.drop_first()));
            assert(16 * hex_char_val(t[1]) + hex_char_val(t[2]) == b);
            assert(decoded(t) =~= s);
        } else {
            assert(t[0] == b as char);
            assert(t[0] != '%');
            assert(t.skip(1) =~= transcoded(s.drop_first()));
            assert(decoded(t) =~= s);
        }
    }
}

/// The remapping of rule 1 is lossy: two distinct native bytes transcode to
/// the same text, so no decoder can recover their origin.
pub proof fn lemma_transcode_lossy()
    ensures
        transcoded(seq![0xaau8]) == transcoded(seq![0xbau8]),
        0xaau8 != 0xbau8,
{
    assert(seq![0xaau8].drop_last() =~= Seq::<u8>::empty());
    assert(seq![0xbau8].drop_last() =~= Seq::<u8>::empty());
    assert(transcoded(seq![0xaau8]) =~= transcoded(seq![0xbau8]));
}

proof fn lemma_transcoded_byte_fold(b: u8)
    ensures
        lower_chars(transcoded_byte(b)) == transcoded_byte(fold_byte(b)),
{
    assert(lower_chars(transcoded_byte(b)) =~= transcoded_byte(fold_byte(b)));
}

/// Two byte strings equal up to ASCII letter case transcode to texts that
/// are equal up to ASCII letter case.
pub proof fn lemma_transcode_case_fold(x: Seq<u8>, y: Seq<u8>)
    requires
        case_equal(x, y),
    ensures
        lower_chars(transcoded(x)) == lower_chars(transcoded(y)),
    decreases x.len(),
{
    let fx = x.map_values(|b: u8| fold_byte(b));
    let fy = y.map_values(|b: u8| fold_byte(b));
    assert(fx.len() == x.len() && fy.len() == y.len());
    if x.len() == 0 {
        assert(lower_chars(transcoded(x)) =~= lower_chars(transcoded(y)));
    } else {
        assert(x.drop_last().map_values(|b: u8| fold_byte(b)) =~= fx.drop_last());
        assert(y.drop_last().map_values(|b: u8| fold_byte(b)) =~= fy.drop_last());
        lemma_transcode_case_fold(x.drop_last(), y.drop_last());
        lemma_transcoded_byte_fold(x.last());
        lemma_transcoded_byte_fold(y.last());
        assert(fold_byte(x.last()) == fx.last() && fold_byte(y.last()) == fy.last());
        assert(lower_chars(transcoded(x.drop_last()) + transcoded_byte(x.last())) =~= lower_chars(
            transcoded(x.drop_last()),
        ) + lower_chars(transcoded_byte(x.last())));
        assert(lower_chars(transcoded(y.drop_last()) + transcoded_byte(y.last())) =~= lower_chars(
            transcoded(y.drop_last()),
        ) + lower_chars(transcoded_byte(y.last())));
    }
}

} // verus!
