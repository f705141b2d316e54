use uncap::solver::audio::{detect_format, finish};

#[test]
fn detect_format_by_magic_bytes() {
    assert_eq!(detect_format(b"RIFF\x24\x00\x00\x00WAVEfmt "), ".wav");
    assert_eq!(detect_format(&[0xFF, 0xFB, 0x90, 0x00]), ".mp3");
    assert_eq!(detect_format(&[0xFF, 0xE0, 0x00]), ".mp3");
    assert_eq!(detect_format(b"OggS\x00\x02"), ".ogg");
    assert_eq!(detect_format(b"hello"), ".wav");
    assert_eq!(detect_format(&[]), ".wav");
    // An MPEG sync needs at least three bytes.
    assert_eq!(detect_format(&[0xFF, 0xFB]), ".wav");
    // The top three bits of the second byte must all be set.
    assert_eq!(detect_format(&[0xFF, 0xC0, 0x00]), ".wav");
}

#[test]
fn transcript_is_reduced_to_letters_and_digits() {
    assert_eq!(finish("  7 K 2 b. \n"), "7K2b");
    assert_eq!(finish("x-y_z!"), "xyz");
    assert_eq!(finish("Ünï 9"), "Ünï9");
    assert_eq!(finish(""), "");
}
