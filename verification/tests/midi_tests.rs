use wavtag::{name_to_note_num, note_num_to_name, str_to_int, trim, RiffError};

#[test]
fn note_name_concrete_cases() {
    assert_eq!(note_num_to_name(24), "C0");
    assert_eq!(note_num_to_name(57), "A2");
    assert_eq!(note_num_to_name(69), "A3");
    assert_eq!(note_num_to_name(9), "A-2");
    assert_eq!(note_num_to_name(0), "C-2");
    assert_eq!(note_num_to_name(61), "C#3");
    assert_eq!(note_num_to_name(127), "G8");
    assert_eq!(note_num_to_name(255), "D#19");
}

#[test]
fn note_number_concrete_cases() {
    assert_eq!(name_to_note_num("C0"), Ok(24));
    assert_eq!(name_to_note_num("A-2"), Ok(9));
    assert_eq!(name_to_note_num("A2"), Ok(57));
    assert_eq!(name_to_note_num("G8"), Ok(127));
    assert_eq!(name_to_note_num("C#3"), Ok(61));
    assert_eq!(name_to_note_num("c#3"), Ok(61));
}

#[test]
fn sharp_and_flat_spellings_agree() {
    assert_eq!(name_to_note_num("A#5"), name_to_note_num("Bb5"));
    assert_eq!(name_to_note_num("A#5"), Ok(94));
    assert_eq!(name_to_note_num("BB5"), Ok(94));
}

#[test]
fn note_name_is_found_inside_longer_text() {
    assert_eq!(name_to_note_num("Piano C#3"), Ok(61));
    assert_eq!(name_to_note_num("xxA-2yy"), Ok(9));
}

#[test]
fn malformed_note_names_are_rejected() {
    assert_eq!(name_to_note_num(""), Err(RiffError::MalformedNoteName));
    assert_eq!(name_to_note_num("xyz"), Err(RiffError::MalformedNoteName));
    assert_eq!(name_to_note_num("C9"), Err(RiffError::MalformedNoteName));
    assert_eq!(name_to_note_num("H3"), Err(RiffError::MalformedNoteName));
    assert_eq!(name_to_note_num("C#"), Err(RiffError::MalformedNoteName));
}

#[test]
fn note_codec_round_trips_every_value_in_range() {
    for v in 0u32..=131 {
        let name = note_num_to_name(v);
        assert_eq!(name_to_note_num(&name), Ok(v as u8), "value {v} name {name}");
    }
}

#[test]
fn str_to_int_parses_trimmed_digits() {
    assert_eq!(str_to_int("42"), 42);
    assert_eq!(str_to_int("  417 \n"), 417);
    assert_eq!(str_to_int("0"), 0);
    assert_eq!(str_to_int("4294967295"), u32::MAX);
}

#[test]
fn trim_strips_ascii_whitespace() {
    assert_eq!(trim("  a b \t\n"), "a b");
    assert_eq!(trim("abc"), "abc");
    assert_eq!(trim("   "), "");
    assert_eq!(trim(""), "");
}
