use lcd_rus::internal::{str_to_lcd_const, str_to_lcd_runtime};
use lcd_rus::{lcd_encode_runtime, lcd_length};

#[test]
fn ascii_text_keeps_its_bytes() {
    let s = "The quick brown fox, 0123456789 ~!@#$%^&*()_+ \t\r\n\0\u{7F}";
    let mut buf = vec![0xFFu8; s.len()];
    assert_eq!(lcd_encode_runtime(&mut buf, s), Ok(s.len()));
    assert_eq!(buf, s.as_bytes());
}

#[test]
fn the_whole_ascii_range_keeps_its_bytes() {
    let s: String = (0u8..=0x7F).map(|b| b as char).collect();
    let mut buf = [0xFFu8; 128];
    assert_eq!(lcd_encode_runtime(&mut buf, &s), Ok(128));
    for (i, b) in buf.iter().enumerate() {
        assert_eq!(*b as usize, i);
    }
}

#[test]
fn mixed_latin_and_russian() {
    let mut buf = [0u8; 3];
    assert_eq!(lcd_encode_runtime(&mut buf, "AБc"), Ok(3));
    assert_eq!(buf, [0x41, 0xA0, 0x63]);
}

#[test]
fn hello_world_in_two_scripts() {
    let mut buf = [0u8; 16];
    let len = lcd_encode_runtime(&mut buf, "Hello, мир!").unwrap();
    assert_eq!(len, 11);
    assert_eq!(&buf[..len], &[b'H', b'e', b'l', b'l', b'o', b',', b' ', 0xBC, 0xB8, b'p', b'!']);
    assert_eq!(&buf[len..], &[0u8; 5]);
}

#[test]
fn a_buffer_of_the_counted_length_is_enough() {
    for s in ["", "x", "Я", "Hello, мир!", "Съешь ещё этих мягких французских булок, да выпей чаю"] {
        let n = lcd_length(s);
        let mut buf = vec![0u8; n];
        assert_eq!(lcd_encode_runtime(&mut buf, s), Ok(n), "string {:?}", s);
    }
}

#[test]
fn a_short_buffer_is_filled_and_reported() {
    let mut buf = [0u8; 2];
    assert_eq!(lcd_encode_runtime(&mut buf, "АБВ"), Err(2));
    assert_eq!(buf, [0x41, 0xA0]);
}

#[test]
fn a_buffer_one_byte_short_fails() {
    let s = "Hello, мир!";
    let mut buf = [0u8; 10];
    assert_eq!(lcd_encode_runtime(&mut buf, s), Err(10));
    assert_eq!(buf, [b'H', b'e', b'l', b'l', b'o', b',', b' ', 0xBC, 0xB8, b'p']);
}

#[test]
fn an_empty_buffer_takes_nothing() {
    let mut buf = [0u8; 0];
    assert_eq!(lcd_encode_runtime(&mut buf, "a"), Err(0));
    assert_eq!(lcd_encode_runtime(&mut buf, "λ"), Err(0));
}

#[test]
fn the_empty_string_succeeds_with_nothing_written() {
    let mut none = [0u8; 0];
    assert_eq!(lcd_encode_runtime(&mut none, ""), Ok(0));
    let mut buf = [7u8; 3];
    assert_eq!(lcd_encode_runtime(&mut buf, ""), Ok(0));
    assert_eq!(buf, [7, 7, 7]);
}

#[test]
fn stops_at_a_greek_letter() {
    let mut buf = [0xEEu8; 6];
    assert_eq!(lcd_encode_runtime(&mut buf, "AБλcд"), Err(2));
    assert_eq!(buf, [0x41, 0xA0, 0xEE, 0xEE, 0xEE, 0xEE]);
}

#[test]
fn stops_at_an_unmappable_first_character() {
    let mut buf = [0xEEu8; 4];
    assert_eq!(lcd_encode_runtime(&mut buf, "€uro"), Err(0));
    assert_eq!(buf, [0xEE; 4]);
}

#[test]
fn stops_at_an_unmappable_last_character() {
    let mut buf = [0u8; 8];
    assert_eq!(lcd_encode_runtime(&mut buf, "да😀"), Err(2));
    assert_eq!(buf, [0xE3, 0x61, 0, 0, 0, 0, 0, 0]);
}

#[test]
fn substitutes_nothing_for_an_unmappable_character() {
    let mut buf = [0x55u8; 5];
    assert_eq!(lcd_encode_runtime(&mut buf, "aébc"), Err(1));
    assert_eq!(buf, [b'a', 0x55, 0x55, 0x55, 0x55]);
}

#[test]
fn the_full_buffer_is_found_before_the_unmappable_character() {
    let mut buf = [0u8; 2];
    assert_eq!(lcd_encode_runtime(&mut buf, "abλ"), Err(2));
    assert_eq!(buf, [b'a', b'b']);
}

#[test]
fn bytes_behind_the_text_are_left_alone() {
    let mut buf = [0xAAu8; 8];
    assert_eq!(lcd_encode_runtime(&mut buf, "Жук"), Ok(3));
    assert_eq!(buf, [0xA3, 0x79, 0xBA, 0xAA, 0xAA, 0xAA, 0xAA, 0xAA]);
}

#[test]
fn the_inner_pass_is_the_public_one() {
    let s = "Щи да каша";
    let mut a = [0u8; 16];
    let mut b = [0u8; 16];
    assert_eq!(str_to_lcd_runtime(&mut a, s), lcd_encode_runtime(&mut b, s));
    assert_eq!(a, b);
    assert_eq!(str_to_lcd_runtime(&mut a[..4], s), Err(4));
}

#[test]
fn the_array_pass_gives_the_display_bytes() {
    assert_eq!(str_to_lcd_const::<3>("AБc"), [0x41, 0xA0, 0x63]);
    assert_eq!(
        str_to_lcd_const::<11>("Hello, мир!"),
        [b'H', b'e', b'l', b'l', b'o', b',', b' ', 0xBC, 0xB8, b'p', b'!']
    );
    assert_eq!(str_to_lcd_const::<0>(""), []);
}

#[test]
fn the_array_pass_and_the_buffer_pass_agree() {
    const TEXT: &str = "Температура: +23 C, влажность 40%";
    let array = str_to_lcd_const::<33>(TEXT);
    assert_eq!(lcd_length(TEXT), 33);
    let mut buf = [0u8; 33];
    assert_eq!(lcd_encode_runtime(&mut buf, TEXT), Ok(33));
    assert_eq!(array, buf);
}

#[test]
fn the_two_passes_agree_on_every_mappable_character() {
    let mut text = String::new();
    for v in 0u32..0x500 {
        let c = char::from_u32(v).unwrap();
        text.clear();
        text.push(c);
        let mut buf = [0u8; 1];
        if lcd_encode_runtime(&mut buf, &text) == Ok(1) {
            assert_eq!(str_to_lcd_const::<1>(&text), buf);
        }
    }
}
