use base85rs::alphabet::{to_x85, ALPHABET, PAD_SYMBOL, SEPARATOR};
use base85rs::decoding::decode_chunk;
use base85rs::encoding::encode_u32_chunk;
use base85rs::{decode, encode};

#[test]
fn alphabet_is_in_order() {
    let table = "0123456789ABCDEFGHIJKLMNOPQRSTUVWXYZabcdefghijklmnopqrstuvwxyz!#$%&()*+-;<=>?@^_`{|}~";
    assert_eq!(table.as_bytes(), &ALPHABET[..]);
    assert_eq!(PAD_SYMBOL, ALPHABET[84]);
    assert_eq!(SEPARATOR, 0x20);
}

#[test]
fn value_of_each_symbol_is_its_position() {
    for (position, symbol) in ALPHABET.iter().enumerate() {
        assert_eq!(to_x85(*symbol), Some(position as u8));
    }
}

#[test]
fn bytes_outside_the_alphabet_have_no_value() {
    let mut valid = 0;
    for c in 0..=255u8 {
        match to_x85(c) {
            Some(v) => {
                assert_eq!(ALPHABET[v as usize], c);
                valid += 1;
            }
            None => assert!(!ALPHABET.contains(&c)),
        }
    }
    assert_eq!(valid, 85);
    for c in "\"',./:[\\] \t\n".bytes() {
        assert_eq!(to_x85(c), None);
    }
}

#[test]
fn chunk_of_each_length_fills_the_buffer() {
    let mut buffer = [0u8; 5];
    assert_eq!(encode_u32_chunk(&[0x61], &mut buffer), 1);
    assert_eq!(&buffer, b"VE_OC");
    assert_eq!(encode_u32_chunk(&[0x61, 0x61], &mut buffer), 2);
    assert_eq!(&buffer[..3], b"VPO");
    assert_eq!(encode_u32_chunk(&[0x61, 0x61, 0x61], &mut buffer), 3);
    assert_eq!(&buffer[..4], b"VPRn");
    assert_eq!(encode_u32_chunk(&[0x61, 0x61, 0x61, 0x61], &mut buffer), 4);
    assert_eq!(&buffer, b"VPRom");
    assert_eq!(encode_u32_chunk(&[0xff, 0xff, 0xff, 0xff], &mut buffer), 4);
    assert_eq!(&buffer, b"|NsC0");
}

#[test]
fn chunk_is_read_as_a_number() {
    assert_eq!(decode_chunk(b"VPRom"), Some([0x61, 0x61, 0x61, 0x61]));
    assert_eq!(decode_chunk(b"00001"), Some([0, 0, 0, 1]));
    assert_eq!(decode_chunk(b"|NsC0"), Some([255, 255, 255, 255]));
    assert_eq!(decode_chunk(b"10"), Some([0, 0, 0, 85]));
    assert_eq!(decode_chunk(b""), Some([0, 0, 0, 0]));
    assert_eq!(decode_chunk(b"VPR]m"), None);
    assert_eq!(decode_chunk(b"VPRo "), None);
}

#[test]
fn chunk_above_thirty_two_bits_keeps_its_low_bits() {
    assert_eq!(decode_chunk(b"|NsC1"), Some([0, 0, 0, 0]));
    assert_eq!(decode_chunk(b"~~~~~"), Some([8, 120, 14, 196]));
    assert_eq!(decode("~~~~~"), Some(vec![8, 120, 14, 196]));
    assert_eq!(decode("~~~~"), Some(vec![8, 120, 14]));
    assert_eq!(decode("~~~"), Some(vec![8, 120]));
    assert_eq!(decode("~~"), Some(vec![8]));
}

#[test]
fn encode_extreme_bytes() {
    assert_eq!(encode(&[0]), "00");
    assert_eq!(encode(&[0, 0, 0, 0]), "00000");
    assert_eq!(encode(&[0xff]), "{{");
    assert_eq!(encode(&[0xff, 0xff]), "|Nj");
    assert_eq!(encode(&[0xff, 0xff, 0xff]), "|Ns9");
    assert_eq!(encode(&[0xff, 0xff, 0xff, 0xff]), "|NsC0");
    assert_eq!(encode(&[0, 1, 2, 3, 4, 5, 6, 7, 8]), "009C61O)~M2m");
}

#[test]
fn encoded_length_follows_the_chunks() {
    let expected = [0usize, 2, 3, 4, 5, 7, 8, 9, 10, 12];
    for (n, len) in expected.iter().enumerate() {
        let data = vec![0x78u8; n];
        assert_eq!(encode(&data).len(), *len);
    }
    for n in 0..200usize {
        let data = vec![0xa5u8; n];
        let tail = if n % 4 == 0 { 0 } else { n % 4 + 1 };
        assert_eq!(encode(&data).len(), 5 * (n / 4) + tail);
    }
}

#[test]
fn encoded_text_holds_symbols_only() {
    let data: Vec<u8> = (0..=255u8).collect();
    let text = encode(&data);
    assert_eq!(text.len(), 320);
    assert!(text.starts_with("009C61O)~M2nh-c3=Iws5D^j+6crX17#SKH9337X"));
    for c in text.bytes() {
        assert!(to_x85(c).is_some());
        assert_ne!(c, SEPARATOR);
    }
}

#[test]
fn decode_gives_back_what_was_encoded() {
    for n in 0..70usize {
        let data: Vec<u8> = (0..n).map(|i| (i * 37 + n * 11) as u8).collect();
        assert_eq!(decode(&encode(&data)), Some(data));
    }
    for b in 0..=255u8 {
        assert_eq!(decode(&encode(&[b])), Some(vec![b]));
        assert_eq!(decode(&encode(&[b, b])), Some(vec![b, b]));
        assert_eq!(decode(&encode(&[255, b, 0])), Some(vec![255, b, 0]));
        assert_eq!(decode(&encode(&[b, 0, 255, b])), Some(vec![b, 0, 255, b]));
    }
}

#[test]
fn empty_in_empty_out() {
    assert_eq!(encode(&[]), "");
    assert_eq!(decode(""), Some(vec![]));
}

#[test]
fn spaces_change_nothing() {
    let text = "a%F63ZE192bZKvH";
    let plain = decode(text);
    assert_eq!(plain, Some("relimitation".as_bytes().to_vec()));
    for i in 0..=text.len() {
        let mut spaced = String::from(text);
        spaced.insert(i, ' ');
        assert_eq!(decode(&spaced), plain);
        spaced.insert(i, ' ');
        assert_eq!(decode(&spaced), plain);
    }
    assert_eq!(decode("   "), Some(vec![]));
    assert_eq!(decode(" V E "), Some(vec![0x61]));
    assert_eq!(decode("] "), None);
}

#[test]
fn other_whitespace_is_rejected() {
    assert_eq!(decode("VE\t"), None);
    assert_eq!(decode("VE\n"), None);
    assert_eq!(decode("V\rE"), None);
}

#[test]
fn symbols_of_other_alphabets_are_rejected() {
    for text in ["\"", "'", ",", ".", "/", ":", "[", "\\", "]"] {
        assert_eq!(decode(text), None);
    }
    assert_eq!(decode("VPRo]"), None);
    assert_eq!(decode("VPRomV]"), None);
    assert_eq!(decode("VPRom]"), None);
    assert_eq!(decode("]PRomVE"), None);
}

#[test]
fn characters_beyond_ascii_are_rejected() {
    assert_eq!(decode("VE\u{e9}"), None);
    assert_eq!(decode("\u{20ac}"), None);
    assert_eq!(decode("VPRom\u{1f600}"), None);
}

#[test]
fn last_group_of_one_symbol_gives_no_byte() {
    assert_eq!(decode("V"), Some(vec![]));
    assert_eq!(decode("~"), Some(vec![]));
    assert_eq!(decode("VPRomV"), Some(vec![0x61, 0x61, 0x61, 0x61]));
    assert_eq!(decode("VPRomV"), decode("VPRom"));
    assert_eq!(decode("VPRom]"), None);
}

#[test]
fn last_group_of_each_length() {
    assert_eq!(decode("00"), Some(vec![0]));
    assert_eq!(decode("000"), Some(vec![0, 0]));
    assert_eq!(decode("0000"), Some(vec![0, 0, 0]));
    assert_eq!(decode("00000"), Some(vec![0, 0, 0, 0]));
    assert_eq!(decode("0000100000"), Some(vec![0, 0, 0, 1, 0, 0, 0, 0]));
    assert_eq!(decode("|NsC0"), Some(vec![255, 255, 255, 255]));
}
