//! Pitch classes and their names.
//!
//! A pitch class is a number below 12, with 0 for C, 2 for D and so on by
//! semitone.  Note names are written with a capital letter from `A` to `G`,
//! optionally followed by `#` (one semitone up) or `b` (one semitone down).

use vstd::prelude::*;

verus! {

/// Whether `c` is one of the note letters `A` to `G`.
pub open spec fn is_note_letter(c: char) -> bool {
    'A' <= c && c <= 'G'
}

/// The pitch class of a note letter.
pub open spec fn letter_value(c: char) -> u8 {
    if c == 'A' { 9 }
    else if c == 'B' { 11 }
    else if c == 'C' { 0 }
    else if c == 'D' { 2 }
    else if c == 'E' { 4 }
    else if c == 'F' { 5 }
    else { 7 }
}

/// What `tonic_to_u8` gives for a name: the letter's pitch class, raised by
/// a second character `#` or lowered by a second character `b`; `None` when
/// the name does not start with a note letter.
pub open spec fn tonic_value(s: Seq<char>) -> Option<u8> {
    if s.len() == 0 || !is_note_letter(s[0]) {
        None
    } else if s.len() >= 2 && s[1] == '#' {
        Some(((letter_value(s[0]) + 1) % 12) as u8)
    } else if s.len() >= 2 && s[1] == 'b' {
        Some(((letter_value(s[0]) + 11) % 12) as u8)
    } else {
        Some(letter_value(s[0]))
    }
}

fn letter_to_u8(c: char) -> (v: u8)
    requires
        is_note_letter(c),
    ensures
        v == letter_value(c),
{
    if c == 'A' { 9 }
    else if c == 'B' { 11 }
    else if c == 'C' { 0 }
    else if c == 'D' { 2 }
    else if c == 'E' { 4 }
    else if c == 'F' { 5 }
    else { 7 }
}

/// Reads a note name such as `C`, `F#` or `Bb` as a pitch class.
pub fn tonic_to_u8(s: &str) -> (res: Option<u8>)
    ensures
        res == tonic_value(s@),
        res matches Some(v) ==> v < 12,
{
    let len = s.unicode_len();
    if len == 0 {
        return None;
    }
    let ch = s.get_char(0);
    if !(ch >= 'A' && ch <= 'G') {
        return None;
    }
    let mut n = letter_to_u8(ch);
    if len >= 2 {
        let c2 = s.get_char(1);
        if c2 == '#' {
            n = (n + 1) % 12;
        } else if c2 == 'b' {
            n = (n + 11) % 12;
        }
    }
    Some(n)
}

/// The name of pitch class `n` (below 12) spelt with sharps.
pub open spec fn sharp_name(n: int) -> Seq<char> {
    if n == 0 { "C"@ }
    else if n == 1 { "C#"@ }
    else if n == 2 { "D"@ }
    else if n == 3 { "D#"@ }
    else if n == 4 { "E"@ }
    else if n == 5 { "F"@ }
    else if n == 6 { "F#"@ }
    else if n == 7 { "G"@ }
    else if n == 8 { "G#"@ }
    else if n == 9 { "A"@ }
    else if n == 10 { "A#"@ }
    else { "B"@ }
}

/// The name of pitch class `n` (below 12) spelt with flats.
pub open spec fn flat_name(n: int) -> Seq<char> {
    if n == 0 { "C"@ }
    else if n == 1 { "Db"@ }
    else if n == 2 { "D"@ }
    else if n == 3 { "Eb"@ }
    else if n == 4 { "E"@ }
    else if n == 5 { "F"@ }
    else if n == 6 { "Gb"@ }
    else if n == 7 { "G"@ }
    else if n == 8 { "Ab"@ }
    else if n == 9 { "A"@ }
    else if n == 10 { "Bb"@ }
    else { "B"@ }
}

/// The HTML markup of the name of pitch class `n` (below 12) spelt with sharps.
pub open spec fn sharp_name_html(n: int) -> Seq<char> {
    if n == 0 { "C"@ }
    else if n == 1 { "C<sup>#</sup>"@ }
    else if n == 2 { "D"@ }
    else if n == 3 { "D<sup>#</sup>"@ }
    else if n == 4 { "E"@ }
    else if n == 5 { "F"@ }
    else if n == 6 { "F<sup>#</sup>"@ }
    else if n == 7 { "G"@ }
    else if n == 8 { "G<sup>#</sup>"@ }
    else if n == 9 { "A"@ }
    else if n == 10 { "A<sup>#</sup>"@ }
    else { "B"@ }
}

/// The HTML markup of the name of pitch class `n` (below 12) spelt with flats.
pub open spec fn flat_name_html(n: int) -> Seq<char> {
    if n == 0 { "C"@ }
    else if n == 1 { "D<sup>b</sup>"@ }
    else if n == 2 { "D"@ }
    else if n == 3 { "E<sup>b</sup>"@ }
    else if n == 4 { "E"@ }
    else if n == 5 { "F"@ }
    else if n == 6 { "G<sup>b</sup>"@ }
    else if n == 7 { "G"@ }
    else if n == 8 { "A<sup>b</sup>"@ }
    else if n == 9 { "A"@ }
    else if n == 10 { "B<sup>b</sup>"@ }
    else { "B"@ }
}

/// The name of a pitch class, taken modulo 12, spelt with sharps when
/// `sharp` holds and with flats otherwise.
pub fn u8_to_tonic(i: u8, sharp: bool) -> (res: &'static str)
    ensures
        res@ == (if sharp { sharp_name((i % 12) as int) } else { flat_name((i % 12) as int) }),
{
    let norm = i % 12;
    if sharp {
        match norm {
            0 => "C",
            1 => "C#",
            2 => "D",
            3 => "D#",
            4 => "E",
            5 => "F",
            6 => "F#",
            7 => "G",
            8 => "G#",
            9 => "A",
            10 => "A#",
            _ => "B",
        }
    } else {
        match norm {
            0 => "C",
            1 => "Db",
            2 => "D",
            3 => "Eb",
            4 => "E",
            5 => "F",
            6 => "Gb",
            7 => "G",
            8 => "Ab",
            9 => "A",
            10 => "Bb",
            _ => "B",
        }
    }
}

/// The HTML markup of a pitch class name, taken modulo 12, spelt with sharps
/// when `sharp` holds and with flats otherwise; the accidental is a
/// superscript.
pub fn u8_to_tonic_html(i: u8, sharp: bool) -> (res: &'static str)
    ensures
        res@ == (if sharp { sharp_name_html((i % 12) as int) } else { flat_name_html((i % 12) as int) }),
{
    let norm = i % 12;
    if sharp {
        match norm {
            0 => "C",
            1 => "C<sup>#</sup>",
            2 => "D",
            3 => "D<sup>#</sup>",
            4 => "E",
            5 => "F",
            6 => "F<sup>#</sup>",
            7 => "G",
            8 => "G<sup>#</sup>",
            9 => "A",
            10 => "A<sup>#</sup>",
            _ => "B",
        }
    } else {
        match norm {
            0 => "C",
            1 => "D<sup>b</sup>",
            2 => "D",
            3 => "E<sup>b</sup>",
            4 => "E",
            5 => "F",
            6 => "G<sup>b</sup>",
            7 => "G",
            8 => "A<sup>b</sup>",
            9 => "A",
            10 => "B<sup>b</sup>",
            _ => "B",
        }
    }
}


/// ASCII upper case of one character: `a` to `z` become `A` to `Z`, every
/// other character stays.
pub open spec fn ascii_upper(c: char) -> char {
    if 'a' <= c && c <= 'z' {
        ((c as u32) - 32) as char
    } else {
        c
    }
}

/// ASCII upper case of a text, character by character.
pub open spec fn ascii_upper_seq(s: Seq<char>) -> Seq<char> {
    Seq::new(s.len(), |i: int| ascii_upper(s[i]))
}

/// Calls `str::to_ascii_uppercase`, whose documentation says that it maps
/// the ASCII letters `a` to `z` to `A` to `Z` and leaves every other
/// character as it is; the contract states that.
#[verifier::external_body]
fn to_ascii_uppercase(s: &str) -> (res: String)
    ensures
        res@ == ascii_upper_seq(s@),
{
    s.to_ascii_uppercase()
}

/// Whether a tonality name marks the minor mode: an `m` as its first or
/// second character.
pub open spec fn marks_minor(s: Seq<char>) -> bool {
    (s.len() >= 1 && s[0] == 'm') || (s.len() >= 2 && s[1] == 'm')
}

/// What `tonality_to_u8` gives for a name: the pitch class of the name read
/// in upper case, moved up three semitones (to the relative major) when the
/// name marks the minor mode.
pub open spec fn tonality_value(s: Seq<char>) -> Option<u8> {
    match tonic_value(ascii_upper_seq(s)) {
        Some(i) => if marks_minor(s) { Some(((i + 3) % 12) as u8) } else { Some(i) },
        None => None,
    }
}

/// Reads a tonality such as `G`, `f#` or `Am` as the pitch class of its
/// major key.
pub fn tonality_to_u8(s: &str) -> (res: Option<u8>)
    ensures
        res == tonality_value(s@),
        res matches Some(v) ==> v < 12,
{
    let upper = to_ascii_uppercase(s);
    let base = tonic_to_u8(upper.as_str());
    match base {
        Some(i) => {
            let len = s.unicode_len();
            let mut min: bool = false;
            if len >= 1 && s.get_char(0) == 'm' {
                min = true;
            }
            if len >= 2 && s.get_char(1) == 'm' {
                min = true;
            }
            if min {
                Some((i + 3) % 12)
            } else {
                Some(i)
            }
        },
        None => None,
    }
}

/// The tonalities written with flats by default: F, B flat, E flat and
/// A flat.
pub open spec fn default_flat(t: u8) -> bool {
    t == 5 || t == 10 || t == 3 || t == 8
}

/// Whether the tonality `t` is written with sharps by default.
pub fn tonality_default_sharp(t: u8) -> (res: bool)
    ensures
        res == !default_flat(t),
{
    match t {
        5 | 10 | 3 | 8 => false,
        _ => true,
    }
}

/// Reading back the sharp name of a pitch class gives that pitch class.
pub proof fn lemma_sharp_name_roundtrip(n: int)
    requires
        0 <= n < 12,
    ensures
        tonic_value(sharp_name(n)) == Some(n as u8),
{
    reveal_strlit("C");
    reveal_strlit("C#");
    reveal_strlit("D");
    reveal_strlit("D#");
    reveal_strlit("E");
    reveal_strlit("F");
    reveal_strlit("F#");
    reveal_strlit("G");
    reveal_strlit("G#");
    reveal_strlit("A");
    reveal_strlit("A#");
    reveal_strlit("B");
}

/// Reading back the flat name of a pitch class gives that pitch class.
pub proof fn lemma_flat_name_roundtrip(n: int)
    requires
        0 <= n < 12,
    ensures
        tonic_value(flat_name(n)) == Some(n as u8),
{
    reveal_strlit("C");
    reveal_strlit("Db");
    reveal_strlit("D");
    reveal_strlit("Eb");
    reveal_strlit("E");
    reveal_strlit("F");
    reveal_strlit("Gb");
    reveal_strlit("G");
    reveal_strlit("Ab");
    reveal_strlit("A");
    reveal_strlit("Bb");
    reveal_strlit("B");
}


/// The pitch classes of the natural notes, those named by a letter alone.
pub open spec fn is_natural(n: int) -> bool {
    n == 0 || n == 2 || n == 4 || n == 5 || n == 7 || n == 9 || n == 11
}

/// Spelling with sharps: a natural pitch class is named by its letter
/// alone; any other by the letter one semitone below it followed by `#`.
/// A sharp name never holds `b`.
pub proof fn lemma_sharp_spelling(n: int)
    requires
        0 <= n < 12,
    ensures
        is_note_letter(sharp_name(n)[0]),
        is_natural(n) ==> sharp_name(n).len() == 1 && letter_value(sharp_name(n)[0]) == n,
        !is_natural(n) ==> sharp_name(n).len() == 2 && sharp_name(n)[1] == '#'
            && letter_value(sharp_name(n)[0]) == n - 1,
        !sharp_name(n).contains('b'),
{
    reveal_strlit("C");
    reveal_strlit("C#");
    reveal_strlit("D");
    reveal_strlit("D#");
    reveal_strlit("E");
    reveal_strlit("F");
    reveal_strlit("F#");
    reveal_strlit("G");
    reveal_strlit("G#");
    reveal_strlit("A");
    reveal_strlit("A#");
    reveal_strlit("B");
}

/// Spelling with flats: a natural pitch class is named by its letter
/// alone; any other by the letter one semitone above it followed by `b`.
/// A flat name never holds `#`.
pub proof fn lemma_flat_spelling(n: int)
    requires
        0 <= n < 12,
    ensures
        is_note_letter(flat_name(n)[0]),
        is_natural(n) ==> flat_name(n).len() == 1 && letter_value(flat_name(n)[0]) == n,
        !is_natural(n) ==> flat_name(n).len() == 2 && flat_name(n)[1] == 'b'
            && letter_value(flat_name(n)[0]) == n + 1,
        !flat_name(n).contains('#'),
{
    reveal_strlit("C");
    reveal_strlit("Db");
    reveal_strlit("D");
    reveal_strlit("Eb");
    reveal_strlit("E");
    reveal_strlit("F");
    reveal_strlit("Gb");
    reveal_strlit("G");
    reveal_strlit("Ab");
    reveal_strlit("A");
    reveal_strlit("Bb");
    reveal_strlit("B");
}


/// Reading the sharp name of a pitch class as a tonality gives that pitch
/// class.
pub proof fn lemma_sharp_name_tonality(n: int)
    requires
        0 <= n < 12,
    ensures
        tonality_value(sharp_name(n)) == Some(n as u8),
{
    lemma_sharp_name_roundtrip(n);
    reveal_strlit("C");
    reveal_strlit("C#");
    reveal_strlit("D");
    reveal_strlit("D#");
    reveal_strlit("E");
    reveal_strlit("F");
    reveal_strlit("F#");
    reveal_strlit("G");
    reveal_strlit("G#");
    reveal_strlit("A");
    reveal_strlit("A#");
    reveal_strlit("B");
    let s = sharp_name(n);
    assert forall|i: int| 0 <= i < s.len() implies ascii_upper(s[i]) == s[i] by {}
    assert(ascii_upper_seq(s) =~= s);
}

/// A note letter followed by `m` names a minor tonality, read as the pitch
/// class of its relative major, three semitones up.
pub proof fn lemma_minor_tonality(c: char)
    requires
        is_note_letter(c),
    ensures
        tonality_value(seq![c, 'm']) == Some(((letter_value(c) + 3) % 12) as u8),
{
    let s = seq![c, 'm'];
    let u = ascii_upper_seq(s);
    assert(u[0] == c);
    assert(u[1] == 'M');
}


/// The HTML markup of a name: a natural name as it is, a name with an
/// accidental with the accidental as a superscript.
pub open spec fn html_of_name(name: Seq<char>) -> Seq<char> {
    if name.len() < 2 {
        name
    } else {
        seq![name[0]] + "<sup>"@ + name.subrange(1, name.len() as int) + "</sup>"@
    }
}

/// The HTML names of the pitch classes are their names with the accidental
/// set as a superscript.
pub proof fn lemma_html_names(n: int)
    requires
        0 <= n < 12,
    ensures
        sharp_name_html(n) == html_of_name(sharp_name(n)),
        flat_name_html(n) == html_of_name(flat_name(n)),
{
    reveal_strlit("</sup>");
    reveal_strlit("<sup>");
    reveal_strlit("A");
    reveal_strlit("A#");
    reveal_strlit("A<sup>#</sup>");
    reveal_strlit("A<sup>b</sup>");
    reveal_strlit("Ab");
    reveal_strlit("B");
    reveal_strlit("B<sup>b</sup>");
    reveal_strlit("Bb");
    reveal_strlit("C");
    reveal_strlit("C#");
    reveal_strlit("C<sup>#</sup>");
    reveal_strlit("D");
    reveal_strlit("D#");
    reveal_strlit("D<sup>#</sup>");
    reveal_strlit("D<sup>b</sup>");
    reveal_strlit("Db");
    reveal_strlit("E");
    reveal_strlit("E<sup>b</sup>");
    reveal_strlit("Eb");
    reveal_strlit("F");
    reveal_strlit("F#");
    reveal_strlit("F<sup>#</sup>");
    reveal_strlit("G");
    reveal_strlit("G#");
    reveal_strlit("G<sup>#</sup>");
    reveal_strlit("G<sup>b</sup>");
    reveal_strlit("Gb");
    assert(sharp_name_html(n) =~= html_of_name(sharp_name(n)));
    assert(flat_name_html(n) =~= html_of_name(flat_name(n)));
}

} // verus!
