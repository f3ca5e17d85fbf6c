use lib::encoding::{decode_ascii85, decode_hex, encode_ascii85, encode_hex};
use lib::error::ErrorKind;

const MAN_TEXT: &str = "Man is distinguished, not only by his reason, but by this singular passion \
                from other animals, which is a lust of the mind, that by a perseverance of \
                delight in the continued and indefatigable generation of knowledge, exceeds \
                the short vehemence of any carnal pleasure.";

const MAN_ASCII85: &str = "9jqo^BlbD-BleB1DJ+*+F(f,q/0JhKF<GL>Cj@.4Gp$d7F!,L7@<6@)/0JDEF<G%<+EV:2F!,O<\
                DJ+*.@<*K0@<6L(Df-\\0Ec5e;DffZ(EZee.Bl.9pF\"AGXBPCsi+DGm>@3BB/F*&OCAfu2/AKYi(\
                DIb:@FD,*)+C]U=@3BN#EcYf8ATD3s@q?d$AftVqCh[NqF<G:8+EV:.+Cf>-FD5W8ARlolDIal(\
                DId<j@<?3r@:F%a+D58'ATD4$Bl@l3De:,-DJs`8ARoFb/0JMK@qB4^F!,R<AKZ&-DfTqBG%G>u\
                D.RTpAKYo'+CT/5+Cei#DII?(E,9)oF*2M7/c";

#[test]
fn test_encode_ascii85() {
    let cases = [
        ("", ""),
        (".", "/c"),
        ("sure", "F*2M7"),
        ("this is some text", "FD,B0+DGm>F)Po,+EV1>F8"),
        (MAN_TEXT, MAN_ASCII85),
    ];

    for (input, expect) in cases {
        let received = encode_ascii85(input).unwrap();

        assert_eq!(expect, &received);
    }
}

#[test]
fn test_decode_ascii85() {
    let cases = [
        ("", ""),
        ("/c", "."),
        ("F*2M7", "sure"),
        ("FD,B0+DGm>F)Po,+EV1>F8", "this is some text"),
        (MAN_ASCII85, MAN_TEXT),
    ];

    for (input, expect) in cases {
        let received = decode_ascii85(input).unwrap();

        assert_eq!(expect, &received);
    }
}

#[test]
fn test_encode_hex() {
    let cases = [
        ("", ""),
        (".", "2E"),
        ("this is some text", "7468697320697320736F6D652074657874"),
    ];

    for (input, expect) in cases {
        let received = encode_hex(input).unwrap();

        assert_eq!(expect, &received);
    }
}

#[test]
fn test_decode_hex() {
    let cases = [
        ("", ""),
        ("4", "@"),
        ("2E", "."),
        ("7468697320697320736F6D652074657874", "this is some text"),
    ];

    for (input, expect) in cases {
        let received = decode_hex(input).unwrap();

        assert_eq!(expect, &received);
    }
}

#[test]
fn encoding_hex_lower_case_and_errors() {
    assert_eq!("some", decode_hex("736f6d65").unwrap());
    assert_eq!("pump", decode_hex("70756D7").unwrap());
    let err = decode_hex("7G").unwrap_err();
    assert_eq!(ErrorKind::SyntaxError, err.kind());
}

#[test]
fn encoding_hex_round_trip() {
    let text = "Hello, PostScript!";
    let encoded = encode_hex(text).unwrap();
    assert_eq!("48656C6C6F2C20506F737453637269707421", encoded);
    // a byte below 16 gets a single digit
    assert_eq!("A", encode_hex("\n").unwrap());
    assert_eq!(text, decode_hex(&encoded).unwrap());
}

#[test]
fn encoding_ascii85_round_trip() {
    let text = "round trip";
    let encoded = encode_ascii85(text).unwrap();
    assert_eq!(text, decode_ascii85(&encoded).unwrap());
}
