use argo::program_id::{format_program_id, parse_program_id, HexError, ProgramIdError};

#[test]
fn format_writes_little_endian_words_in_lower_hex() {
    let id: [u32; 8] = [1, 0x0a0b0c0d, 0, 0, 0, 0, 0, 0xffff_ffff];
    let text = format_program_id(&id);
    assert_eq!(
        text,
        "010000000d0c0b0a0000000000000000000000000000000000000000ffffffff"
    );
}

#[test]
fn format_then_parse_gives_the_id_back() {
    let ids: [[u32; 8]; 3] = [
        [0; 8],
        [1155194347, 1601915833, 802455914, 395287946, 3013651780, 1058916772, 1694453169, 1300607297],
        [4107046892, 3062661010, 1329261408, 143454969, 3861191297, 2985587711, 1721357874, 101925694],
    ];
    for id in ids {
        let text = format_program_id(&id);
        assert_eq!(text.len(), 64);
        assert_eq!(parse_program_id(&text), Ok(id));
    }
}

#[test]
fn parse_trims_and_accepts_upper_case() {
    let text = "  \t0100000002000000030000000400000005000000060000000700000008000000\n";
    assert_eq!(parse_program_id(text), Ok([1, 2, 3, 4, 5, 6, 7, 8]));
    let upper = "FFFFFFFF00000000000000000000000000000000000000000000000000000001";
    assert_eq!(parse_program_id(upper), Ok([u32::MAX, 0, 0, 0, 0, 0, 0, 0x0100_0000]));
}

#[test]
fn parse_rejects_bad_hex() {
    assert_eq!(parse_program_id("xyz"), Err(ProgramIdError::Hex(HexError::OddLength)));
    assert_eq!(parse_program_id("abc"), Err(ProgramIdError::Hex(HexError::OddLength)));
    assert_eq!(
        parse_program_id("0g"),
        Err(ProgramIdError::Hex(HexError::InvalidHexCharacter { c: 'g', index: 1 }))
    );
    assert_eq!(
        parse_program_id(" zz0g "),
        Err(ProgramIdError::Hex(HexError::InvalidHexCharacter { c: 'z', index: 0 }))
    );
    // three UTF-8 bytes: odd
    assert_eq!(parse_program_id("é0"), Err(ProgramIdError::Hex(HexError::OddLength)));
    // two UTF-8 bytes, the first 0xC3, reported as that byte's char
    assert_eq!(
        parse_program_id("é"),
        Err(ProgramIdError::Hex(HexError::InvalidHexCharacter { c: '\u{c3}', index: 0 }))
    );
}

#[test]
fn parse_rejects_wrong_length() {
    assert_eq!(parse_program_id(""), Err(ProgramIdError::WrongLength));
    assert_eq!(parse_program_id("   "), Err(ProgramIdError::WrongLength));
    assert_eq!(parse_program_id("00"), Err(ProgramIdError::WrongLength));
    let long = "00".repeat(33);
    assert_eq!(parse_program_id(&long), Err(ProgramIdError::WrongLength));
}

#[test]
fn parse_then_format_gives_trimmed_lower_case() {
    let text = "\u{3000} 0A0b0C0d00000000000000000000000000000000000000000000000000FFffFF\n";
    let id = parse_program_id(text).expect("accepted");
    assert_eq!(
        format_program_id(&id),
        "0a0b0c0d00000000000000000000000000000000000000000000000000ffffff"
    );
}
