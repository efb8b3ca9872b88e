use base85rs::{decode, encode};

#[test]
fn encode_empty_list() {
    assert_eq!(encode("".as_bytes()), "");
}

#[test]
fn encode_one_char() {
    assert_eq!(encode("a".as_bytes()), "VE");
}

#[test]
fn encode_two_char() {
    assert_eq!(encode("aa".as_bytes()), "VPO");
}

#[test]
fn encode_three_char() {
    assert_eq!(encode("aaa".as_bytes()), "VPRn");
}

#[test]
fn encode_four_char() {
    assert_eq!(encode("aaaa".as_bytes()), "VPRom");
}

#[test]
fn encode_five_char() {
    assert_eq!(encode("aaaaa".as_bytes()), "VPRomVE");
}

#[test]
fn encode_six_char() {
    assert_eq!(encode("aaaaaa".as_bytes()), "VPRomVPO");
}

#[test]
fn encode_seven_char() {
    assert_eq!(encode("aaaaaaa".as_bytes()), "VPRomVPRn");
}

#[test]
fn encode_word_set() {
    let wordlist = [
        ("relimitation", "a%F63ZE192bZKvH"),
        ("pollenless", "aBpmEWo~R`b8`"),
        ("countercompetition", "V{dhCbY*g5Z*6d8bZK;HZ*B"),
        ("toothbrushing", "bZ>8TXkv18b7*O9X8"),
        ("cavekeeper", "V_|k>Yh`6{WpV"),
        ("microsomial", "ZE0h2Z*y;LX<=*"),
    ];
    for (word, res) in wordlist {
        assert_eq!(encode(word.as_bytes()), res);
    }
}

#[test]
fn decode_empty_list() {
    assert_eq!(decode("").unwrap(), "".as_bytes());
}

#[test]
fn decode_one_char() {
    assert_eq!(decode("VE").unwrap(), "a".as_bytes());
}

#[test]
fn decode_two_char() {
    assert_eq!(decode("VPO").unwrap(), "aa".as_bytes());
}

#[test]
fn decode_three_char() {
    assert_eq!(decode("VPRn").unwrap(), "aaa".as_bytes());
}

#[test]
fn decode_four_char() {
    assert_eq!(decode("VPRom").unwrap(), "aaaa".as_bytes());
}

#[test]
fn decode_five_char() {
    assert_eq!(decode("VPRomVE").unwrap(), "aaaaa".as_bytes());
}

#[test]
fn decode_six_char() {
    assert_eq!(decode("VPRomVPO").unwrap(), "aaaaaa".as_bytes());
}

#[test]
fn decode_seven_char() {
    assert_eq!(decode("VPRomVPRn").unwrap(), "aaaaaaa".as_bytes());
}

#[test]
fn decode_word_set() {
    let wordlist = [
        ("relimitation", "a%F63ZE192bZKvH"),
        ("pollenless", "aBpmEWo~R`b8`"),
        ("countercompetition", "V{dhCbY*g5Z*6d8bZK;HZ*B"),
        ("toothbrushing", "bZ>8TXkv18b7*O9X8"),
        ("cavekeeper", "V_|k>Yh`6{WpV"),
        ("microsomial", "ZE0h2Z*y;LX<=*"),
    ];
    for (word, res) in wordlist {
        assert_eq!(decode(res).unwrap(), word.as_bytes());
    }
}

#[test]
fn decode_with_whitespace() {
    let wordlist = [
        ("relimitation", "a%F63ZE1 92bZKvH"),
        ("pollenless", "aBp mEWo~ R`b8`"),
        ("countercompetition", "V{dhCbY *g5Z*6d8bZK ;HZ*B"),
        ("toothbrushing", "bZ>8 TXkv18b7* O9X8"),
        ("cavekeeper", "V_| k>Yh`6{ WpV"),
        ("microsomial", "ZE0h2Z*y ;LX<=*"),
    ];
    for (word, res) in wordlist {
        assert_eq!(decode(res).unwrap(), word.as_bytes());
    }
}

#[test]
fn decode_invalid() {
    assert!(decode("]").is_none())
}
