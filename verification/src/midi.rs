//! The MIDI note-name codec: bidirectional conversion between a note number
//! (0 to 255) and a human note name such as `C#3`, under the convention that
//! note 24 is named octave 0 (so the octave is `n / 12 - 2`, and parsing
//! adds 24).

use vstd::prelude::*;

use crate::RiffError;

verus! {

/// The name of a pitch class 0 to 11, using sharp spellings.
pub open spec fn spec_pitch_class_chars(pc: int) -> Seq<char> {
    if pc == 0 {
        seq!['C']
    } else if pc == 1 {
        seq!['C', '#']
    } else if pc == 2 {
        seq!['D']
    } else if pc == 3 {
        seq!['D', '#']
    } else if pc == 4 {
        seq!['E']
    } else if pc == 5 {
        seq!['F']
    } else if pc == 6 {
        seq!['F', '#']
    } else if pc == 7 {
        seq!['G']
    } else if pc == 8 {
        seq!['G', '#']
    } else if pc == 9 {
        seq!['A']
    } else if pc == 10 {
        seq!['A', '#']
    } else {
        seq!['B']
    }
}

/// The decimal digit character for 0 to 9.
pub open spec fn spec_digit_char(d: int) -> char {
    if d == 0 {
        '0'
    } else if d == 1 {
        '1'
    } else if d == 2 {
        '2'
    } else if d == 3 {
        '3'
    } else if d == 4 {
        '4'
    } else if d == 5 {
        '5'
    } else if d == 6 {
        '6'
    } else if d == 7 {
        '7'
    } else if d == 8 {
        '8'
    } else {
        '9'
    }
}

/// The characters of an octave number between -9 and 19.
pub open spec fn spec_octave_chars(o: int) -> Seq<char> {
    if o < 0 {
        seq!['-', spec_digit_char(-o)]
    } else if o < 10 {
        seq![spec_digit_char(o)]
    } else {
        seq!['1', spec_digit_char(o - 10)]
    }
}

/// The name of note number `n`: its pitch-class name followed by its octave,
/// where octave 0 starts at note 24.
pub open spec fn spec_note_name(n: int) -> Seq<char> {
    spec_pitch_class_chars(n % 12) + spec_octave_chars(n / 12 - 2)
}

/// The semitone value of a note letter (case-insensitive), or -1 for any
/// other character.
pub open spec fn spec_letter_base(c: char) -> int {
    if c == 'C' || c == 'c' {
        0
    } else if c == 'D' || c == 'd' {
        2
    } else if c == 'E' || c == 'e' {
        4
    } else if c == 'F' || c == 'f' {
        5
    } else if c == 'G' || c == 'g' {
        7
    } else if c == 'A' || c == 'a' {
        9
    } else if c == 'B' || c == 'b' {
        11
    } else {
        -1
    }
}

/// The value of an octave digit character `0` to `8` (the grammar admits no
/// higher octave), or -1 for any other character.
pub open spec fn spec_digit_val(c: char) -> int {
    if c == '0' {
        0
    } else if c == '1' {
        1
    } else if c == '2' {
        2
    } else if c == '3' {
        3
    } else if c == '4' {
        4
    } else if c == '5' {
        5
    } else if c == '6' {
        6
    } else if c == '7' {
        7
    } else if c == '8' {
        8
    } else {
        -1
    }
}

/// The note value of a name matching the grammar
/// `[A-Ga-g] [#bB]? -? [0-8]` at position `i` of `s`, or nothing if the
/// grammar does not match there. The value is the letter's semitone, plus
/// one for a sharp or minus one for a flat, plus twelve times the signed
/// octave, plus 24.
pub open spec fn spec_match_at(s: Seq<char>, i: int) -> Option<int> {
    if i < 0 || i >= s.len() || spec_letter_base(s[i]) < 0 {
        None
    } else {
        let base = spec_letter_base(s[i]);
        let hasacc = i + 1 < s.len() && (s[i + 1] == '#' || s[i + 1] == 'b' || s[i + 1] == 'B');
        let aug = if hasacc {
            if s[i + 1] == '#' {
                1int
            } else {
                -1int
            }
        } else {
            0int
        };
        let j = if hasacc {
            i + 2
        } else {
            i + 1
        };
        if j < s.len() && s[j] == '-' {
            if j + 1 < s.len() && spec_digit_val(s[j + 1]) >= 0 {
                Some(base + aug - spec_digit_val(s[j + 1]) * 12 + 24)
            } else {
                None
            }
        } else if j < s.len() && spec_digit_val(s[j]) >= 0 {
            Some(base + aug + spec_digit_val(s[j]) * 12 + 24)
        } else {
            None
        }
    }
}

/// The value of the leftmost grammar match at or after position `i`.
pub open spec fn spec_find_note(s: Seq<char>, i: int) -> Option<int>
    decreases s.len() - i,
{
    if i < 0 || i >= s.len() {
        None
    } else if spec_match_at(s, i) is Some {
        spec_match_at(s, i)
    } else {
        spec_find_note(s, i + 1)
    }
}

/// The note value denoted by the leftmost grammar match in `s`, if any.
pub open spec fn spec_note_value(s: Seq<char>) -> Option<int> {
    spec_find_note(s, 0)
}

/// Convert a MIDI note number to its name, for example 57 to `A2` and 24 to
/// `C0`.
pub fn note_num_to_name(num: u32) -> (r: String)
    requires
        num <= 255,
    ensures
        r@ == spec_note_name(num as int),
{
    proof {
        reveal_strlit("C");
        reveal_strlit("C#");
        reveal_strlit("D");
        reveal_strlit("D#");
        reveal_strlit("E");
        reveal_strlit("F");
        reveal_strlit("F#");
        reveal_strlit("G");
        reveal_strlit("G#");
        reveal_strlit("A");
        reveal_strlit("A#");
        reveal_strlit("B");
    }
    let pc = num % 12;
    let pitch: &str = if pc == 0 {
        "C"
    } else if pc == 1 {
        "C#"
    } else if pc == 2 {
        "D"
    } else if pc == 3 {
        "D#"
    } else if pc == 4 {
        "E"
    } else if pc == 5 {
        "F"
    } else if pc == 6 {
        "F#"
    } else if pc == 7 {
        "G"
    } else if pc == 8 {
        "G#"
    } else if pc == 9 {
        "A"
    } else if pc == 10 {
        "A#"
    } else {
        "B"
    };
    proof {
        assert(pitch@ =~= spec_pitch_class_chars(num as int % 12));
        reveal_strlit("-2");
        reveal_strlit("-1");
        reveal_strlit("0");
        reveal_strlit("1");
        reveal_strlit("2");
        reveal_strlit("3");
        reveal_strlit("4");
        reveal_strlit("5");
        reveal_strlit("6");
        reveal_strlit("7");
        reveal_strlit("8");
        reveal_strlit("9");
        reveal_strlit("10");
        reveal_strlit("11");
        reveal_strlit("12");
        reveal_strlit("13");
        reveal_strlit("14");
        reveal_strlit("15");
        reveal_strlit("16");
        reveal_strlit("17");
        reveal_strlit("18");
        reveal_strlit("19");
    }
    let ob = num / 12;
    let octave: &str = if ob == 0 {
        "-2"
    } else if ob == 1 {
        "-1"
    } else if ob == 2 {
        "0"
    } else if ob == 3 {
        "1"
    } else if ob == 4 {
        "2"
    } else if ob == 5 {
        "3"
    } else if ob == 6 {
        "4"
    } else if ob == 7 {
        "5"
    } else if ob == 8 {
        "6"
    } else if ob == 9 {
        "7"
    } else if ob == 10 {
        "8"
    } else if ob == 11 {
        "9"
    } else if ob == 12 {
        "10"
    } else if ob == 13 {
        "11"
    } else if ob == 14 {
        "12"
    } else if ob == 15 {
        "13"
    } else if ob == 16 {
        "14"
    } else if ob == 17 {
        "15"
    } else if ob == 18 {
        "16"
    } else if ob == 19 {
        "17"
    } else if ob == 20 {
        "18"
    } else {
        "19"
    };
    proof {
        assert(octave@ =~= spec_octave_chars(num as int / 12 - 2));
    }
    let mut r = String::new();
    r.append(pitch);
    r.append(octave);
    proof {
        assert(r@ =~= spec_note_name(num as int));
    }
    r
}

/// Parse the leftmost note name matching the grammar
/// `[A-Ga-g] [#bB]? -? [0-8]` anywhere in `note_name` into its MIDI note
/// number, reduced modulo 256; fails with `MalformedNoteName` when no
/// substring matches the grammar.
#[verifier::rlimit(100)]
pub fn name_to_note_num(note_name: &str) -> (r: Result<u8, RiffError>)
    ensures
        spec_note_value(note_name@) is None ==> (r matches Err(e) && e
            == RiffError::MalformedNoteName),
        spec_note_value(note_name@) matches Some(v) ==> (r matches Ok(b) && b as int == v % 256),
{
    let ghost s = note_name@;
    let n = note_name.unicode_len();
    let mut i: usize = 0;
    while i < n
        invariant
            0 <= i <= n,
            n == s.len(),
            s == note_name@,
            spec_find_note(s, 0) == spec_find_note(s, i as int),
        decreases n - i,
    {
        let c0 = note_name.get_char(i);
        let base: i32 = if c0 == 'C' || c0 == 'c' {
            0
        } else if c0 == 'D' || c0 == 'd' {
            2
        } else if c0 == 'E' || c0 == 'e' {
            4
        } else if c0 == 'F' || c0 == 'f' {
            5
        } else if c0 == 'G' || c0 == 'g' {
            7
        } else if c0 == 'A' || c0 == 'a' {
            9
        } else if c0 == 'B' || c0 == 'b' {
            11
        } else {
            -1
        };
        proof {
            assert(base == spec_letter_base(s[i as int]));
        }
        if base >= 0 {
            let mut aug: i32 = 0;
            let mut j: usize = i + 1;
            if j < n {
                let c1 = note_name.get_char(j);
                if c1 == '#' {
                    aug = 1;
                    j = j + 1;
                } else if c1 == 'b' || c1 == 'B' {
                    aug = -1;
                    j = j + 1;
                }
            }
            let mut neg = false;
            let mut dpos = j;
            if j < n {
                let c2 = note_name.get_char(j);
                if c2 == '-' {
                    neg = true;
                    dpos = j + 1;
                }
            }
            let mut dv: i32 = -1;
            if dpos < n {
                let cd = note_name.get_char(dpos);
                dv = if cd == '0' {
                    0
                } else if cd == '1' {
                    1
                } else if cd == '2' {
                    2
                } else if cd == '3' {
                    3
                } else if cd == '4' {
                    4
                } else if cd == '5' {
                    5
                } else if cd == '6' {
                    6
                } else if cd == '7' {
                    7
                } else if cd == '8' {
                    8
                } else {
                    -1
                };
                proof {
                    assert(dv == spec_digit_val(s[dpos as int]));
                }
            }
            if dv >= 0 {
                let v: i32 = if neg {
                    base + aug - dv * 12 + 24
                } else {
                    base + aug + dv * 12 + 24
                };
                proof {
                    assert(spec_match_at(s, i as int) == Some(v as int));
                }
                let w: i32 = ((v % 256) + 256) % 256;
                proof {
                    assert(w == (v as int) % 256);
                }
                return Ok(w as u8);
            }
            proof {
                assert(spec_match_at(s, i as int) is None);
            }
        } else {
            proof {
                assert(spec_match_at(s, i as int) is None);
            }
        }
        i = i + 1;
    }
    Err(RiffError::MalformedNoteName)
}

/// An octave digit round-trips through its character.
proof fn lemma_digit_roundtrip(d: int)
    requires
        0 <= d <= 8,
    ensures
        spec_digit_val(spec_digit_char(d)) == d,
{
}

/// Note codec inverse law: for every note value that a grammar-conforming
/// name can denote (0 to 131), the emitted name parses back to exactly that
/// value, so the name denotes the same pitch class and the same octave.
/// Combined with `name_to_note_num`, parsing a valid name `s` and naming the
/// result yields a name equivalent to `s` in pitch class and octave.
pub proof fn lemma_note_codec_inverse(v: int)
    requires
        0 <= v <= 131,
    ensures
        spec_note_value(spec_note_name(v)) == Some(v),
{
    let s = spec_note_name(v);
    let pc = v % 12;
    let o = v / 12 - 2;
    let p = spec_pitch_class_chars(pc);
    let oc = spec_octave_chars(o);
    assert(-2 <= o <= 8);
    lemma_digit_roundtrip(if o < 0 {
        -o
    } else {
        o
    });
    assert(v == 12 * (v / 12) + pc);
    assert(s == p + oc);
    assert(spec_match_at(s, 0) == Some(v));
    assert(spec_find_note(s, 0) == spec_match_at(s, 0));
}

} // verus!
