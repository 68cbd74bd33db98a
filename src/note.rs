use vstd::prelude::*;

verus! {

/// Semitones above C of a pitch letter within its octave.
pub open spec fn letter_offset(c: char) -> Option<int> {
    if c == 'C' {
        Some(0)
    } else if c == 'D' {
        Some(2)
    } else if c == 'E' {
        Some(4)
    } else if c == 'F' {
        Some(5)
    } else if c == 'G' {
        Some(7)
    } else if c == 'A' {
        Some(9)
    } else if c == 'B' {
        Some(11)
    } else {
        None
    }
}

/// Semitones an accidental moves a pitch: `#` raises, `b` lowers.
pub open spec fn accidental_shift(c: char) -> Option<int> {
    if c == '#' {
        Some(1)
    } else if c == 'b' {
        Some(-1)
    } else {
        None
    }
}

/// The value of a decimal digit.
pub open spec fn digit_value(c: char) -> Option<int> {
    if '0' <= c && c <= '9' {
        Some(c as int - '0' as int)
    } else {
        None
    }
}

/// The key number of a pitch: twelve per octave, C4 being 60 and A4 being 69.
pub open spec fn key_number(offset: int, shift: int, octave: int) -> int {
    12 * (octave + 1) + offset + shift
}

/// The key number a note token names: a pitch letter `A`..`G`, an optional
/// accidental `#` or `b`, and an octave digit. `None` for any other token.
pub open spec fn note_key_spec(t: Seq<char>) -> Option<u8> {
    if t.len() == 2 && letter_offset(t[0]) is Some && digit_value(t[1]) is Some {
        Some(key_number(letter_offset(t[0])->0, 0, digit_value(t[1])->0) as u8)
    } else if t.len() == 3 && letter_offset(t[0]) is Some && accidental_shift(t[1]) is Some
        && digit_value(t[2]) is Some {
        Some(key_number(letter_offset(t[0])->0, accidental_shift(t[1])->0, digit_value(t[2])->0) as u8)
    } else {
        None
    }
}

/// The letter a whole tone above `c`, for the five letters that have one
/// (`E` and `B` are a semitone below the next letter).
pub open spec fn whole_tone_above(c: char) -> Option<char> {
    if c == 'C' {
        Some('D')
    } else if c == 'D' {
        Some('E')
    } else if c == 'F' {
        Some('G')
    } else if c == 'G' {
        Some('A')
    } else if c == 'A' {
        Some('B')
    } else {
        None
    }
}

/// The key numbers that tokens can name lie in `11..=132`.
proof fn lemma_key_range(offset: int, shift: int, octave: int)
    requires
        0 <= offset <= 11,
        -1 <= shift <= 1,
        0 <= octave <= 9,
    ensures
        11 <= key_number(offset, shift, octave) <= 132,
{
}

fn letter_offset_of(c: char) -> (r: Option<u8>)
    ensures
        r matches Some(v) ==> letter_offset(c) == Some(v as int),
        r is None <==> letter_offset(c) is None,
{
    if c == 'C' {
        Some(0)
    } else if c == 'D' {
        Some(2)
    } else if c == 'E' {
        Some(4)
    } else if c == 'F' {
        Some(5)
    } else if c == 'G' {
        Some(7)
    } else if c == 'A' {
        Some(9)
    } else if c == 'B' {
        Some(11)
    } else {
        None
    }
}

fn digit_value_of(c: char) -> (r: Option<u8>)
    ensures
        r matches Some(v) ==> digit_value(c) == Some(v as int) && v <= 9,
        r is None <==> digit_value(c) is None,
{
    if '0' <= c && c <= '9' {
        Some((c as u32 - '0' as u32) as u8)
    } else {
        None
    }
}

/// The key number named by the characters `s[start..end]`, or `None` when
/// they are no note token.
pub fn note_key_in(s: &str, start: usize, end: usize) -> (r: Option<u8>)
    requires
        start <= end <= s@.len(),
    ensures
        r == note_key_spec(s@.subrange(start as int, end as int)),
{
    let ghost t = s@.subrange(start as int, end as int);
    let n = end - start;
    if n != 2 && n != 3 {
        return None;
    }
    let offset = match letter_offset_of(s.get_char(start)) {
        Some(v) => v,
        None => {
            return None;
        },
    };
    let octave = match digit_value_of(s.get_char(end - 1)) {
        Some(v) => v,
        None => {
            return None;
        },
    };
    if n == 2 {
        proof {
            lemma_key_range(offset as int, 0, octave as int);
        }
        return Some(12 * (octave + 1) + offset);
    }
    let c = s.get_char(start + 1);
    if c == '#' {
        proof {
            lemma_key_range(offset as int, 1, octave as int);
        }
        Some(12 * (octave + 1) + offset + 1)
    } else if c == 'b' {
        proof {
            lemma_key_range(offset as int, -1, octave as int);
        }
        Some(12 * (octave + 1) + offset - 1)
    } else {
        None
    }
}

/// The key number of a note token such as `A4`, `C#3` or `Bb0`: twelve keys per
/// octave, C4 being 60 and A4 being 69. `None` for anything that is no note token.
pub fn note_key(token: &str) -> (r: Option<u8>)
    ensures
        r == note_key_spec(token@),
{
    let n = token.unicode_len();
    assert(token@.subrange(0, n as int) =~= token@);
    note_key_in(token, 0, n)
}

/// Enharmonic spellings name the same key: a sharpened letter and the flattened
/// letter a whole tone above it (`A#0` and `Bb0`), and a natural letter and the
/// sharpened letter below it where the two are a semitone apart (`E#4` and `F4`,
/// `B#3` and `C4`). Frequencies are a function of the key alone, so such tokens
/// sound the same.
pub proof fn lemma_enharmonic(low: char, octave: char)
    requires
        letter_offset(low) is Some,
        digit_value(octave) is Some,
    ensures
        whole_tone_above(low) matches Some(high) ==> note_key_spec(seq![low, '#', octave]) == note_key_spec(
            seq![high, 'b', octave],
        ),
        low == 'E' ==> note_key_spec(seq!['E', '#', octave]) == note_key_spec(seq!['F', octave]),
        low == 'B' && octave != '9' ==> note_key_spec(seq!['B', '#', octave]) == note_key_spec(
            seq!['C', ((octave as u32) + 1) as char],
        ),
        note_key_spec(seq![low, octave]) is Some,
        note_key_spec(seq![low, '#', octave]) is Some,
        note_key_spec(seq![low, 'b', octave]) is Some,
{
}

} // verus!
