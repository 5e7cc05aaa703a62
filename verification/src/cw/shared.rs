use bimap::BiHashMap;
use vstd::prelude::*;

verus! {

/// The symbols of Morse code.
#[derive(Clone, Copy, Debug, PartialEq, Eq, Hash, Structural)]
pub enum CWAlphabet {
    /// A short pulse.
    Dot,
    /// A long pulse, three dots long.
    Dash,
    /// The pause that ends a letter.
    LetterSpace,
    /// The pause that ends a word.
    WordSpace,
}

#[verifier::external_type_specification]
#[verifier::external_body]
#[verifier::reject_recursive_types(L)]
#[verifier::reject_recursive_types(R)]
#[verifier::reject_recursive_types(LS)]
#[verifier::reject_recursive_types(RS)]
pub struct ExBiHashMap<L, R, LS, RS>(BiHashMap<L, R, LS, RS>);

/// The pairs that a bimap of letters and their codes holds, as a map from each code to its
/// letter.
pub uninterp spec fn alphabet_codes(m: BiHashMap<char, Vec<CWAlphabet>>) -> Map<Seq<CWAlphabet>, char>;

/// The pairs of `m` after the pair (`letter`, `code`) went in: every pair that had the same
/// letter or the same code is gone, and the new pair is there.
pub open spec fn with_pair(m: Map<Seq<CWAlphabet>, char>, letter: char, code: Seq<CWAlphabet>) -> Map<Seq<CWAlphabet>, char> {
    Map::new(|k: Seq<CWAlphabet>| m.dom().contains(k) && k != code && m[k] != letter, |k: Seq<CWAlphabet>| m[k]).insert(code, letter)
}

/// Calls `bimap::BiHashMap::new`: the bimap holds no pair.
#[verifier::external_body]
fn alphabet_new() -> (m: BiHashMap<char, Vec<CWAlphabet>>)
    ensures
        alphabet_codes(m).dom().is_empty(),
{
    BiHashMap::new()
}

/// Calls `bimap::BiHashMap::insert`: it removes the pairs whose letter or code is the given
/// one, then holds the given pair.
#[verifier::external_body]
fn alphabet_insert(m: &mut BiHashMap<char, Vec<CWAlphabet>>, letter: char, code: Vec<CWAlphabet>)
    ensures
        alphabet_codes(*final(m)) == with_pair(alphabet_codes(*old(m)), letter, code@),
{
    m.insert(letter, code);
}

/// Calls `bimap::BiHashMap::get_by_right`: the letter paired with `code`, if there is one.
#[verifier::external_body]
pub(crate) fn alphabet_letter(m: &BiHashMap<char, Vec<CWAlphabet>>, code: &[CWAlphabet]) -> (r: Option<char>)
    ensures
        r == (if alphabet_codes(*m).dom().contains(code@) {
            Some(alphabet_codes(*m)[code@])
        } else {
            None
        }),
{
    m.get_by_right(code).copied()
}

/// The letters that the default alphabet knows, in the order they go into it.
pub open spec fn morse_letters() -> Seq<char> {
    seq!['A', 'B', 'C', 'D', 'E', 'F', 'G', 'H', 'I', 'J', 'K', 'L', 'M', 'N', 'O', 'P', 'Q',
        'R', 'S', 'T', 'U', 'V', 'W', 'X', 'Y', 'Z', '0', '1', '2', '3', '4', '5', '6', '7',
        '8', '9', ' ']
}

/// The International Morse code of a letter; a space is a word space.
pub open spec fn morse_code(c: char) -> Seq<CWAlphabet> {
    match c {
        'A' => seq![CWAlphabet::Dot, CWAlphabet::Dash],
        'B' => seq![CWAlphabet::Dash, CWAlphabet::Dot, CWAlphabet::Dot, CWAlphabet::Dot],
        'C' => seq![CWAlphabet::Dash, CWAlphabet::Dot, CWAlphabet::Dash, CWAlphabet::Dot],
        'D' => seq![CWAlphabet::Dash, CWAlphabet::Dot, CWAlphabet::Dot],
        'E' => seq![CWAlphabet::Dot],
        'F' => seq![CWAlphabet::Dot, CWAlphabet::Dot, CWAlphabet::Dash, CWAlphabet::Dot],
        'G' => seq![CWAlphabet::Dash, CWAlphabet::Dash, CWAlphabet::Dot],
        'H' => seq![CWAlphabet::Dot, CWAlphabet::Dot, CWAlphabet::Dot, CWAlphabet::Dot],
        'I' => seq![CWAlphabet::Dot, CWAlphabet::Dot],
        'J' => seq![CWAlphabet::Dot, CWAlphabet::Dash, CWAlphabet::Dash, CWAlphabet::Dash],
        'K' => seq![CWAlphabet::Dash, CWAlphabet::Dot, CWAlphabet::Dash],
        'L' => seq![CWAlphabet::Dot, CWAlphabet::Dash, CWAlphabet::Dot, CWAlphabet::Dot],
        'M' => seq![CWAlphabet::Dash, CWAlphabet::Dash],
        'N' => seq![CWAlphabet::Dash, CWAlphabet::Dot],
        'O' => seq![CWAlphabet::Dash, CWAlphabet::Dash, CWAlphabet::Dash],
        'P' => seq![CWAlphabet::Dot, CWAlphabet::Dash, CWAlphabet::Dash, CWAlphabet::Dot],
        'Q' => seq![CWAlphabet::Dash, CWAlphabet::Dash, CWAlphabet::Dot, CWAlphabet::Dash],
        'R' => seq![CWAlphabet::Dot, CWAlphabet::Dash, CWAlphabet::Dot],
        'S' => seq![CWAlphabet::Dot, CWAlphabet::Dot, CWAlphabet::Dot],
        'T' => seq![CWAlphabet::Dash],
        'U' => seq![CWAlphabet::Dot, CWAlphabet::Dot, CWAlphabet::Dash],
        'V' => seq![CWAlphabet::Dot, CWAlphabet::Dot, CWAlphabet::Dot, CWAlphabet::Dash],
        'W' => seq![CWAlphabet::Dot, CWAlphabet::Dash, CWAlphabet::Dash],
        'X' => seq![CWAlphabet::Dash, CWAlphabet::Dot, CWAlphabet::Dot, CWAlphabet::Dash],
        'Y' => seq![CWAlphabet::Dash, CWAlphabet::Dot, CWAlphabet::Dash, CWAlphabet::Dash],
        'Z' => seq![CWAlphabet::Dash, CWAlphabet::Dash, CWAlphabet::Dot, CWAlphabet::Dot],
        '0' => seq![CWAlphabet::Dash, CWAlphabet::Dash, CWAlphabet::Dash, CWAlphabet::Dash, CWAlphabet::Dash],
        '1' => seq![CWAlphabet::Dot, CWAlphabet::Dash, CWAlphabet::Dash, CWAlphabet::Dash, CWAlphabet::Dash],
        '2' => seq![CWAlphabet::Dot, CWAlphabet::Dot, CWAlphabet::Dash, CWAlphabet::Dash, CWAlphabet::Dash],
        '3' => seq![CWAlphabet::Dot, CWAlphabet::Dot, CWAlphabet::Dot, CWAlphabet::Dash, CWAlphabet::Dash],
        '4' => seq![CWAlphabet::Dot, CWAlphabet::Dot, CWAlphabet::Dot, CWAlphabet::Dot, CWAlphabet::Dash],
        '5' => seq![CWAlphabet::Dot, CWAlphabet::Dot, CWAlphabet::Dot, CWAlphabet::Dot, CWAlphabet::Dot],
        '6' => seq![CWAlphabet::Dash, CWAlphabet::Dot, CWAlphabet::Dot, CWAlphabet::Dot, CWAlphabet::Dot],
        '7' => seq![CWAlphabet::Dash, CWAlphabet::Dash, CWAlphabet::Dot, CWAlphabet::Dot, CWAlphabet::Dot],
        '8' => seq![CWAlphabet::Dash, CWAlphabet::Dash, CWAlphabet::Dash, CWAlphabet::Dot, CWAlphabet::Dot],
        '9' => seq![CWAlphabet::Dash, CWAlphabet::Dash, CWAlphabet::Dash, CWAlphabet::Dash, CWAlphabet::Dot],
        ' ' => seq![CWAlphabet::WordSpace],
        _ => seq![],
    }
}

/// The pairs of a bimap into which the letters of `letters` went in order, each with its
/// Morse code.
pub open spec fn codes_of(letters: Seq<char>) -> Map<Seq<CWAlphabet>, char>
    decreases letters.len(),
{
    if letters.len() == 0 {
        Map::empty()
    } else {
        with_pair(codes_of(letters.drop_last()), letters.last(), morse_code(letters.last()))
    }
}

/// A symbol as a digit in base five.
pub open spec fn symbol_digit(s: CWAlphabet) -> int {
    match s {
        CWAlphabet::Dot => 1,
        CWAlphabet::Dash => 2,
        CWAlphabet::WordSpace => 3,
        CWAlphabet::LetterSpace => 4,
    }
}

/// A code read as a number in base five, its last symbol the lowest digit.
pub open spec fn code_number(s: Seq<CWAlphabet>) -> int
    decreases s.len(),
{
    if s.len() == 0 {
        0
    } else {
        symbol_digit(s.last()) + 5 * code_number(s.drop_last())
    }
}

/// The letter of the default alphabet whose code has the number `n`.
pub open spec fn number_letter(n: int) -> char {
    if n == 7 {
        'A'
    } else if n == 281 {
        'B'
    } else if n == 286 {
        'C'
    } else if n == 56 {
        'D'
    } else if n == 1 {
        'E'
    } else if n == 161 {
        'F'
    } else if n == 61 {
        'G'
    } else if n == 156 {
        'H'
    } else if n == 6 {
        'I'
    } else if n == 187 {
        'J'
    } else if n == 57 {
        'K'
    } else if n == 181 {
        'L'
    } else if n == 12 {
        'M'
    } else if n == 11 {
        'N'
    } else if n == 62 {
        'O'
    } else if n == 186 {
        'P'
    } else if n == 307 {
        'Q'
    } else if n == 36 {
        'R'
    } else if n == 31 {
        'S'
    } else if n == 2 {
        'T'
    } else if n == 32 {
        'U'
    } else if n == 157 {
        'V'
    } else if n == 37 {
        'W'
    } else if n == 282 {
        'X'
    } else if n == 287 {
        'Y'
    } else if n == 306 {
        'Z'
    } else if n == 1562 {
        '0'
    } else if n == 937 {
        '1'
    } else if n == 812 {
        '2'
    } else if n == 787 {
        '3'
    } else if n == 782 {
        '4'
    } else if n == 781 {
        '5'
    } else if n == 1406 {
        '6'
    } else if n == 1531 {
        '7'
    } else if n == 1556 {
        '8'
    } else if n == 1561 {
        '9'
    } else if n == 3 {
        ' '
    } else {
        '_'
    }
}

/// The codes of the default alphabet tell its letters apart: read as a number, the code of a
/// letter gives the letter back. Only the space has a code with a separator in it.
pub proof fn lemma_code_identifies_letter(c: char)
    requires
        morse_letters().contains(c),
    ensures
        number_letter(code_number(morse_code(c))) == c,
        c != ' ' ==> morse_code(c).len() > 0 && forall|i: int| 0 <= i < morse_code(c).len()
            ==> #[trigger] morse_code(c)[i] == CWAlphabet::Dot || morse_code(c)[i] == CWAlphabet::Dash,
{
    reveal_with_fuel(code_number, 6);
    let i = choose|i: int| 0 <= i < morse_letters().len() && morse_letters()[i] == c;
    assert(0 <= i < 37);
}

/// A bimap into which letters went with their codes, where different letters have different
/// codes, gives each of those codes the letter it came with, and holds no other code.
pub proof fn lemma_codes_of(letters: Seq<char>)
    requires
        forall|a: char, b: char|
            letters.contains(a) && letters.contains(b) && #[trigger] morse_code(a) == #[trigger] morse_code(b) ==> a == b,
    ensures
        forall|i: int| 0 <= i < letters.len() ==> codes_of(letters).dom().contains(#[trigger] morse_code(letters[i]))
            && codes_of(letters)[morse_code(letters[i])] == letters[i],
        forall|k: Seq<CWAlphabet>| #[trigger] codes_of(letters).dom().contains(k) ==> exists|i: int|
            0 <= i < letters.len() && k == morse_code(letters[i]) && codes_of(letters)[k] == letters[i],
    decreases letters.len(),
{
    if letters.len() > 0 {
        let p = letters.drop_last();
        let x = letters.last();
        assert forall|a: char, b: char|
            p.contains(a) && p.contains(b) && #[trigger] morse_code(a) == #[trigger] morse_code(b) implies a == b by {
            let ia = choose|i: int| 0 <= i < p.len() && p[i] == a;
            let ib = choose|i: int| 0 <= i < p.len() && p[i] == b;
            assert(letters[ia] == a);
            assert(letters[ib] == b);
        }
        lemma_codes_of(p);
        let m = codes_of(p);
        let m2 = codes_of(letters);
        assert(m2 == with_pair(m, x, morse_code(x)));
        assert(letters.contains(x)) by {
            assert(letters[letters.len() - 1] == x);
        }
        assert forall|i: int| 0 <= i < letters.len() implies m2.dom().contains(#[trigger] morse_code(letters[i]))
            && m2[morse_code(letters[i])] == letters[i] by {
            if i < letters.len() - 1 {
                assert(letters[i] == p[i]);
                assert(letters.contains(letters[i]));
                if morse_code(letters[i]) != morse_code(x) {
                    assert(m.dom().contains(morse_code(p[i])));
                    assert(m[morse_code(p[i])] != x);
                }
            }
        }
        assert forall|k: Seq<CWAlphabet>| #[trigger] m2.dom().contains(k) implies exists|i: int|
            0 <= i < letters.len() && k == morse_code(letters[i]) && m2[k] == letters[i] by {
            if k == morse_code(x) {
                assert(letters[letters.len() - 1] == x);
            } else {
                assert(m.dom().contains(k));
                let j = choose|j: int| 0 <= j < p.len() && k == morse_code(p[j]) && m[k] == p[j];
                assert(letters[j] == p[j]);
            }
        }
    }
}

/// The default alphabet gives the code of each of its letters that letter.
pub proof fn lemma_morse_alphabet(c: char)
    requires
        morse_letters().contains(c),
    ensures
        codes_of(morse_letters()).dom().contains(morse_code(c)),
        codes_of(morse_letters())[morse_code(c)] == c,
{
    assert forall|a: char, b: char|
        morse_letters().contains(a) && morse_letters().contains(b) && #[trigger] morse_code(a) == #[trigger] morse_code(b) implies a == b by {
        lemma_code_identifies_letter(a);
        lemma_code_identifies_letter(b);
    }
    lemma_codes_of(morse_letters());
    let i = choose|i: int| 0 <= i < morse_letters().len() && morse_letters()[i] == c;
    assert(morse_code(morse_letters()[i]) == morse_code(c));
}

/// The Morse code of a letter, for the letters of [`morse_letters`].
fn code_of(c: char) -> (v: Vec<CWAlphabet>)
    ensures
        v@ == morse_code(c),
{
    match c {
        'A' => vec![CWAlphabet::Dot, CWAlphabet::Dash],
        'B' => vec![CWAlphabet::Dash, CWAlphabet::Dot, CWAlphabet::Dot, CWAlphabet::Dot],
        'C' => vec![CWAlphabet::Dash, CWAlphabet::Dot, CWAlphabet::Dash, CWAlphabet::Dot],
        'D' => vec![CWAlphabet::Dash, CWAlphabet::Dot, CWAlphabet::Dot],
        'E' => vec![CWAlphabet::Dot],
        'F' => vec![CWAlphabet::Dot, CWAlphabet::Dot, CWAlphabet::Dash, CWAlphabet::Dot],
        'G' => vec![CWAlphabet::Dash, CWAlphabet::Dash, CWAlphabet::Dot],
        'H' => vec![CWAlphabet::Dot, CWAlphabet::Dot, CWAlphabet::Dot, CWAlphabet::Dot],
        'I' => vec![CWAlphabet::Dot, CWAlphabet::Dot],
        'J' => vec![CWAlphabet::Dot, CWAlphabet::Dash, CWAlphabet::Dash, CWAlphabet::Dash],
        'K' => vec![CWAlphabet::Dash, CWAlphabet::Dot, CWAlphabet::Dash],
        'L' => vec![CWAlphabet::Dot, CWAlphabet::Dash, CWAlphabet::Dot, CWAlphabet::Dot],
        'M' => vec![CWAlphabet::Dash, CWAlphabet::Dash],
        'N' => vec![CWAlphabet::Dash, CWAlphabet::Dot],
        'O' => vec![CWAlphabet::Dash, CWAlphabet::Dash, CWAlphabet::Dash],
        'P' => vec![CWAlphabet::Dot, CWAlphabet::Dash, CWAlphabet::Dash, CWAlphabet::Dot],
        'Q' => vec![CWAlphabet::Dash, CWAlphabet::Dash, CWAlphabet::Dot, CWAlphabet::Dash],
        'R' => vec![CWAlphabet::Dot, CWAlphabet::Dash, CWAlphabet::Dot],
        'S' => vec![CWAlphabet::Dot, CWAlphabet::Dot, CWAlphabet::Dot],
        'T' => vec![CWAlphabet::Dash],
        'U' => vec![CWAlphabet::Dot, CWAlphabet::Dot, CWAlphabet::Dash],
        'V' => vec![CWAlphabet::Dot, CWAlphabet::Dot, CWAlphabet::Dot, CWAlphabet::Dash],
        'W' => vec![CWAlphabet::Dot, CWAlphabet::Dash, CWAlphabet::Dash],
        'X' => vec![CWAlphabet::Dash, CWAlphabet::Dot, CWAlphabet::Dot, CWAlphabet::Dash],
        'Y' => vec![CWAlphabet::Dash, CWAlphabet::Dot, CWAlphabet::Dash, CWAlphabet::Dash],
        'Z' => vec![CWAlphabet::Dash, CWAlphabet::Dash, CWAlphabet::Dot, CWAlphabet::Dot],
        '0' => vec![CWAlphabet::Dash, CWAlphabet::Dash, CWAlphabet::Dash, CWAlphabet::Dash, CWAlphabet::Dash],
        '1' => vec![CWAlphabet::Dot, CWAlphabet::Dash, CWAlphabet::Dash, CWAlphabet::Dash, CWAlphabet::Dash],
        '2' => vec![CWAlphabet::Dot, CWAlphabet::Dot, CWAlphabet::Dash, CWAlphabet::Dash, CWAlphabet::Dash],
        '3' => vec![CWAlphabet::Dot, CWAlphabet::Dot, CWAlphabet::Dot, CWAlphabet::Dash, CWAlphabet::Dash],
        '4' => vec![CWAlphabet::Dot, CWAlphabet::Dot, CWAlphabet::Dot, CWAlphabet::Dot, CWAlphabet::Dash],
        '5' => vec![CWAlphabet::Dot, CWAlphabet::Dot, CWAlphabet::Dot, CWAlphabet::Dot, CWAlphabet::Dot],
        '6' => vec![CWAlphabet::Dash, CWAlphabet::Dot, CWAlphabet::Dot, CWAlphabet::Dot, CWAlphabet::Dot],
        '7' => vec![CWAlphabet::Dash, CWAlphabet::Dash, CWAlphabet::Dot, CWAlphabet::Dot, CWAlphabet::Dot],
        '8' => vec![CWAlphabet::Dash, CWAlphabet::Dash, CWAlphabet::Dash, CWAlphabet::Dot, CWAlphabet::Dot],
        '9' => vec![CWAlphabet::Dash, CWAlphabet::Dash, CWAlphabet::Dash, CWAlphabet::Dash, CWAlphabet::Dot],
        ' ' => vec![CWAlphabet::WordSpace],
        _ => vec![],
    }
}

/// The International Morse alphabet: each letter, digit and the space with its code.
pub fn get_alphabet() -> (m: BiHashMap<char, Vec<CWAlphabet>>)
    ensures
        alphabet_codes(m) == codes_of(morse_letters()),
{
    let letters: Vec<char> = vec!['A', 'B', 'C', 'D', 'E', 'F', 'G', 'H', 'I', 'J', 'K', 'L',
        'M', 'N', 'O', 'P', 'Q', 'R', 'S', 'T', 'U', 'V', 'W', 'X', 'Y', 'Z', '0', '1', '2',
        '3', '4', '5', '6', '7', '8', '9', ' '];
    assert(letters@ =~= morse_letters());
    let mut m = alphabet_new();
    assert(alphabet_codes(m) =~= codes_of(letters@.take(0)));
    let mut i: usize = 0;
    while i < letters.len()
        invariant
            i <= letters@.len(),
            letters@ == morse_letters(),
            alphabet_codes(m) == codes_of(letters@.take(i as int)),
        decreases letters@.len() - i,
    {
        let c = letters[i];
        let code = code_of(c);
        alphabet_insert(&mut m, c, code);
        assert(letters@.take(i + 1).drop_last() =~= letters@.take(i as int));
        i = i + 1;
    }
    assert(letters@.take(i as int) =~= letters@);
    m
}

/// The error signal of Morse code: eight dots.
pub open spec fn error_signal() -> Seq<CWAlphabet> {
    seq![CWAlphabet::Dot, CWAlphabet::Dot, CWAlphabet::Dot, CWAlphabet::Dot, CWAlphabet::Dot,
        CWAlphabet::Dot, CWAlphabet::Dot, CWAlphabet::Dot]
}

/// The symbols of one character of a message: a word space for a space; the code of a letter
/// or digit closed by a letter space; for a character with no code, the error signal with no
/// letter space after it, so that it runs into the next group, which then reads as no letter.
pub open spec fn char_group(c: char) -> Seq<CWAlphabet> {
    if c == ' ' {
        seq![CWAlphabet::WordSpace]
    } else if morse_code(c).len() > 0 {
        morse_code(c).push(CWAlphabet::LetterSpace)
    } else {
        error_signal()
    }
}

/// The symbols of a message.
pub open spec fn encode_message(msg: Seq<char>) -> Seq<CWAlphabet> {
    msg.map_values(|c: char| char_group(c)).flatten()
}

/// `encode_message` of a message with one more character.
proof fn lemma_encode_push(msg: Seq<char>, c: char)
    ensures
        encode_message(msg.push(c)) == encode_message(msg) + char_group(c),
{
    let f = |x: char| char_group(x);
    let groups = msg.push(c).map_values(f);
    assert(groups.drop_last() =~= msg.map_values(f));
    groups.lemma_flatten_and_flatten_alt_are_equivalent();
    msg.map_values(f).lemma_flatten_and_flatten_alt_are_equivalent();
}

/// The Morse symbols of a message, character by character as `char_group` says: each letter
/// or digit is its code closed by a letter space, each space a word space, and any other
/// character the error signal, which runs into the next group.
pub fn msg_to_cw(msg: &[char]) -> (cw: Vec<CWAlphabet>)
    ensures
        cw@ == encode_message(msg@),
{
    let mut cw: Vec<CWAlphabet> = Vec::new();
    let mut i: usize = 0;
    while i < msg.len()
        invariant
            i <= msg@.len(),
            cw@ == encode_message(msg@.take(i as int)),
        decreases msg@.len() - i,
    {
        let c = msg[i];
        proof {
            lemma_encode_push(msg@.take(i as int), c);
            assert(msg@.take(i + 1) =~= msg@.take(i as int).push(c));
        }
        if c == ' ' {
            cw.push(CWAlphabet::WordSpace);
        } else {
            let mut code = code_of(c);
            if code.len() == 0 {
                let mut error = vec![CWAlphabet::Dot, CWAlphabet::Dot, CWAlphabet::Dot, CWAlphabet::Dot,
                    CWAlphabet::Dot, CWAlphabet::Dot, CWAlphabet::Dot, CWAlphabet::Dot];
                assert(error@ =~= error_signal());
                cw.append(&mut error);
            } else {
                cw.append(&mut code);
                cw.push(CWAlphabet::LetterSpace);
            }
        }
        i = i + 1;
    }
    assert(msg@.take(msg@.len() as int) =~= msg@);
    cw
}

} // verus!
