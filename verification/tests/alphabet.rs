use fsdr_blocks::cw::cw_to_char::CWToCharBuilder;
use fsdr_blocks::cw::shared::get_alphabet;
use fsdr_blocks::cw::shared::CWAlphabet;
use fsdr_blocks::cw::shared::CWAlphabet::{Dash, Dot, LetterSpace, WordSpace};

const TABLE: [(char, &str); 36] = [
    ('A', ".-"), ('B', "-..."), ('C', "-.-."), ('D', "-.."), ('E', "."), ('F', "..-."),
    ('G', "--."), ('H', "...."), ('I', ".."), ('J', ".---"), ('K', "-.-"), ('L', ".-.."),
    ('M', "--"), ('N', "-."), ('O', "---"), ('P', ".--."), ('Q', "--.-"), ('R', ".-."),
    ('S', "..."), ('T', "-"), ('U', "..-"), ('V', "...-"), ('W', ".--"), ('X', "-..-"),
    ('Y', "-.--"), ('Z', "--.."), ('0', "-----"), ('1', ".----"), ('2', "..---"),
    ('3', "...--"), ('4', "....-"), ('5', "....."), ('6', "-...."), ('7', "--..."),
    ('8', "---.."), ('9', "----."),
];

fn code(s: &str) -> Vec<CWAlphabet> {
    s.chars().map(|c| if c == '.' { Dot } else { Dash }).collect()
}

#[test]
fn alphabet_holds_international_morse() {
    let m = get_alphabet();
    assert_eq!(m.len(), 37);
    for (c, s) in TABLE {
        assert_eq!(m.get_by_left(&c), Some(&code(s)));
        assert_eq!(m.get_by_right(&code(s)), Some(&c));
    }
    assert_eq!(m.get_by_left(&' '), Some(&vec![WordSpace]));
}

#[test]
fn every_letter_round_trips_through_the_decoder() {
    let mut cw = vec![];
    let mut expected = vec![];
    for (i, (c, s)) in TABLE.iter().enumerate() {
        cw.extend(code(s));
        cw.push(LetterSpace);
        expected.push(*c as u32);
        if i % 5 == 4 {
            cw.push(WordSpace);
            expected.push(' ' as u32);
        }
    }
    let mut d = CWToCharBuilder::new().build();
    assert_eq!(d.work(&cw, 1024), expected);
}

#[test]
fn decoder_with_a_custom_alphabet() {
    let mut m = bimap::BiMap::new();
    m.insert('x', vec![Dot, Dot]);
    m.insert(' ', vec![WordSpace]);
    let mut d = fsdr_blocks::cw::cw_to_char::CWToChar::new(m);
    let out = d.work(&[Dot, Dot, LetterSpace, Dot, LetterSpace, WordSpace], 8);
    assert_eq!(out, vec!['x' as u32, '_' as u32, ' ' as u32]);
}
