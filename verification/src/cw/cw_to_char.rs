use bimap::BiHashMap;
use vstd::prelude::*;

use crate::cw::shared::{
    alphabet_codes, alphabet_letter, codes_of, get_alphabet, lemma_code_identifies_letter, lemma_morse_alphabet,
    char_group, encode_message, morse_code, morse_letters, CWAlphabet,
};

verus! {

/// Whether a symbol ends a group of symbols (a letter or a word).
pub open spec fn is_separator(s: CWAlphabet) -> bool {
    s == CWAlphabet::LetterSpace || s == CWAlphabet::WordSpace
}

/// Whether `s` holds a symbol that ends a group.
pub open spec fn has_separator(s: Seq<CWAlphabet>) -> bool {
    exists|i: int| 0 <= i < s.len() && is_separator(#[trigger] s[i])
}

/// The letter that `codes` gives to `code`, or `'_'` where it gives none.
pub open spec fn letter_of(codes: Map<Seq<CWAlphabet>, char>, code: Seq<CWAlphabet>) -> char {
    if codes.dom().contains(code) {
        codes[code]
    } else {
        '_'
    }
}

/// The letter of a non-empty group of symbols: a group that ends with a word space is the
/// letter of a lone word space; any other group is the letter of its symbols but the last.
pub open spec fn group_letter(codes: Map<Seq<CWAlphabet>, char>, g: Seq<CWAlphabet>) -> char {
    if g.last() == CWAlphabet::WordSpace {
        letter_of(codes, seq![CWAlphabet::WordSpace])
    } else {
        letter_of(codes, g.drop_last())
    }
}

/// The letters of the symbols `rest`, where the group being read already holds `cur`.
/// Each separator closes a group; symbols after the last separator make a last group.
pub open spec fn decode_rest(codes: Map<Seq<CWAlphabet>, char>, cur: Seq<CWAlphabet>, rest: Seq<CWAlphabet>) -> Seq<char>
    decreases rest.len(),
{
    if rest.len() == 0 {
        if cur.len() == 0 {
            seq![]
        } else {
            seq![group_letter(codes, cur)]
        }
    } else if is_separator(rest[0]) {
        seq![group_letter(codes, cur.push(rest[0]))] + decode_rest(codes, seq![], rest.drop_first())
    } else {
        decode_rest(codes, cur.push(rest[0]), rest.drop_first())
    }
}

/// The letters of a stream of symbols, one for each group.
pub open spec fn decoded_letters(codes: Map<Seq<CWAlphabet>, char>, s: Seq<CWAlphabet>) -> Seq<char> {
    decode_rest(codes, seq![], s)
}

/// Letters as the code points that the block writes out.
pub open spec fn as_codepoints(cs: Seq<char>) -> Seq<u32> {
    cs.map_values(|c: char| c as u32)
}

/// One call of the decoder: the code points written, and the symbols kept for the next call,
/// given the kept symbols `pending`, the new symbols `input` and the free output places
/// `cap`. Nothing happens on an empty input. Once the symbols hold a separator, all their
/// groups are decoded, as many letters as fit are written, and no symbol is kept; until
/// then, the symbols are kept.
pub open spec fn cw_to_char_step(
    codes: Map<Seq<CWAlphabet>, char>,
    pending: Seq<CWAlphabet>,
    input: Seq<CWAlphabet>,
    cap: nat,
) -> (Seq<u32>, Seq<CWAlphabet>) {
    let buf = pending + input;
    if input.len() == 0 {
        (seq![], pending)
    } else if has_separator(buf) {
        let d = as_codepoints(decoded_letters(codes, buf));
        (d.take(if d.len() <= cap { d.len() as int } else { cap as int }), seq![])
    } else {
        (seq![], buf)
    }
}

/// Symbols that close no group are read ahead: decoding `p + r` with the group `cur` in hand
/// is decoding `r` with the group `cur + p` in hand.
pub proof fn lemma_decode_carry(codes: Map<Seq<CWAlphabet>, char>, cur: Seq<CWAlphabet>, p: Seq<CWAlphabet>, r: Seq<CWAlphabet>)
    requires
        !has_separator(p),
    ensures
        decode_rest(codes, cur, p + r) == decode_rest(codes, cur + p, r),
    decreases p.len(),
{
    if p.len() == 0 {
        assert(p + r =~= r);
        assert(cur + p =~= cur);
    } else {
        assert((p + r)[0] == p[0]);
        assert(!is_separator(p[0]));
        assert((p + r).drop_first() =~= p.drop_first() + r);
        assert(!has_separator(p.drop_first())) by {
            if has_separator(p.drop_first()) {
                let j = choose|j: int| 0 <= j < p.drop_first().len() && is_separator(#[trigger] p.drop_first()[j]);
                assert(p[j + 1] == p.drop_first()[j]);
            }
        }
        lemma_decode_carry(codes, cur.push(p[0]), p.drop_first(), r);
        assert(cur.push(p[0]) + p.drop_first() =~= cur + p);
    }
}

/// Decoding `a + b`, where `a` ends with a separator, decodes `a` and then `b` on their own.
pub proof fn lemma_decode_rest_concat(codes: Map<Seq<CWAlphabet>, char>, cur: Seq<CWAlphabet>, a: Seq<CWAlphabet>, b: Seq<CWAlphabet>)
    requires
        a.len() > 0,
        is_separator(a.last()),
    ensures
        decode_rest(codes, cur, a + b) == decode_rest(codes, cur, a) + decoded_letters(codes, b),
    decreases a.len(),
{
    assert((a + b)[0] == a[0]);
    assert((a + b).drop_first() =~= a.drop_first() + b);
    if is_separator(a[0]) {
        let g = seq![group_letter(codes, cur.push(a[0]))];
        if a.len() == 1 {
            assert(a.drop_first() + b =~= b);
            assert(decode_rest(codes, seq![], a.drop_first()) == Seq::<char>::empty());
            assert(g + Seq::<char>::empty() =~= g);
        } else {
            lemma_decode_rest_concat(codes, seq![], a.drop_first(), b);
            assert(g + (decode_rest(codes, seq![], a.drop_first()) + decoded_letters(codes, b))
                =~= (g + decode_rest(codes, seq![], a.drop_first())) + decoded_letters(codes, b));
        }
    } else {
        lemma_decode_rest_concat(codes, cur.push(a[0]), a.drop_first(), b);
    }
}

/// A group closed by a separator decodes on its own: decoding `a + b`, where `a` ends with a
/// separator, gives the letters of `a` followed by the letters of `b`.
pub proof fn lemma_decode_concat(codes: Map<Seq<CWAlphabet>, char>, a: Seq<CWAlphabet>, b: Seq<CWAlphabet>)
    requires
        a.len() > 0,
        is_separator(a.last()),
    ensures
        decoded_letters(codes, a + b) == decoded_letters(codes, a) + decoded_letters(codes, b),
{
    lemma_decode_rest_concat(codes, seq![], a, b);
}

/// Whether `g` is one closed group: symbols that close nothing, then one separator.
pub open spec fn is_group(g: Seq<CWAlphabet>) -> bool {
    g.len() > 0 && is_separator(g.last()) && !has_separator(g.drop_last())
}

/// One closed group decodes to its letter: a code followed by a letter space to the letter of
/// the code, anything followed by a word space to the letter of a lone word space.
pub proof fn lemma_decode_group(codes: Map<Seq<CWAlphabet>, char>, g: Seq<CWAlphabet>)
    requires
        is_group(g),
    ensures
        decoded_letters(codes, g) == seq![group_letter(codes, g)],
        g.last() == CWAlphabet::LetterSpace ==> group_letter(codes, g) == letter_of(codes, g.drop_last()),
        g.last() == CWAlphabet::WordSpace ==> group_letter(codes, g) == letter_of(codes, seq![CWAlphabet::WordSpace]),
{
    let w = g.drop_last();
    let sep = seq![g.last()];
    assert(w + sep =~= g);
    lemma_decode_carry(codes, seq![], w, sep);
    assert(Seq::<CWAlphabet>::empty() + w =~= w);
    assert(sep[0] == g.last());
    assert(sep.drop_first() =~= Seq::<CWAlphabet>::empty());
    assert(w.push(g.last()) =~= g);
    assert(decode_rest(codes, seq![], sep.drop_first()) == Seq::<char>::empty());
    assert(decode_rest(codes, w, sep) == seq![group_letter(codes, g)] + Seq::<char>::empty());
    assert(seq![group_letter(codes, g)] + Seq::<char>::empty() =~= seq![group_letter(codes, g)]);
    assert(decode_rest(codes, Seq::<CWAlphabet>::empty() + w, sep) == decode_rest(codes, w, sep));
}

/// Round trip: symbols made of closed groups, one after the other, decode to the letters of
/// the groups, one for each group, in order. With the groups being the codes of a message's
/// letters each followed by a letter space, and a word space for each space, this is the
/// message written in the letters that the alphabet gives to those codes.
pub proof fn lemma_decode_groups(codes: Map<Seq<CWAlphabet>, char>, groups: Seq<Seq<CWAlphabet>>)
    requires
        forall|i: int| 0 <= i < groups.len() ==> is_group(#[trigger] groups[i]),
    ensures
        decoded_letters(codes, groups.flatten()) == groups.map_values(|g: Seq<CWAlphabet>| group_letter(codes, g)),
    decreases groups.len(),
{
    let f = |g: Seq<CWAlphabet>| group_letter(codes, g);
    if groups.len() == 0 {
        assert(groups.flatten() =~= Seq::<CWAlphabet>::empty());
        assert(groups.map_values(f) =~= Seq::<char>::empty());
    } else {
        let rest = groups.drop_first();
        assert forall|i: int| 0 <= i < rest.len() implies is_group(#[trigger] rest[i]) by {
            assert(rest[i] == groups[i + 1]);
        }
        lemma_decode_groups(codes, rest);
        assert(is_group(groups[0]));
        lemma_decode_group(codes, groups[0]);
        assert(groups.flatten() == groups[0] + rest.flatten());
        lemma_decode_concat(codes, groups[0], rest.flatten());
        assert(groups.map_values(f) =~= seq![f(groups[0])] + rest.map_values(f));
    }
}

/// Round trip with the International Morse alphabet: the symbols of a message made of its
/// letters, digits and spaces decode to the message.
pub proof fn lemma_message_round_trip(msg: Seq<char>)
    requires
        forall|i: int| 0 <= i < msg.len() ==> morse_letters().contains(#[trigger] msg[i]),
    ensures
        decoded_letters(codes_of(morse_letters()), encode_message(msg)) == msg,
{
    let codes = codes_of(morse_letters());
    let groups = msg.map_values(|c: char| char_group(c));
    assert forall|i: int| 0 <= i < groups.len() implies is_group(#[trigger] groups[i]) by {
        let c = msg[i];
        lemma_code_identifies_letter(c);
        if c == ' ' {
            assert(groups[i].drop_last() =~= Seq::<CWAlphabet>::empty());
        } else {
            assert(groups[i].drop_last() =~= morse_code(c));
            assert forall|j: int| 0 <= j < morse_code(c).len() implies !is_separator(#[trigger] morse_code(c)[j]) by {
                assert(morse_code(c)[j] == CWAlphabet::Dot || morse_code(c)[j] == CWAlphabet::Dash);
            }
        }
    }
    lemma_decode_groups(codes, groups);
    let f = |g: Seq<CWAlphabet>| group_letter(codes, g);
    assert forall|i: int| 0 <= i < msg.len() implies #[trigger] groups.map_values(f)[i] == msg[i] by {
        let c = msg[i];
        lemma_morse_alphabet(c);
        lemma_code_identifies_letter(c);
        if c == ' ' {
            assert(morse_code(' ') =~= seq![CWAlphabet::WordSpace]);
        } else {
            assert(morse_code(c).push(CWAlphabet::LetterSpace).drop_last() =~= morse_code(c));
            assert(morse_code(c).len() > 0);
            assert(morse_code(c)[morse_code(c).len() - 1] == CWAlphabet::Dot || morse_code(c)[morse_code(c).len() - 1] == CWAlphabet::Dash);
        }
    }
    assert(groups.map_values(f) =~= msg);
}

/// A decoder with the International Morse alphabet and no kept symbols, given the symbols of a
/// non-empty message in one call, writes the message, as far as the output has room.
pub proof fn lemma_decoder_round_trip(msg: Seq<char>, cap: nat)
    requires
        msg.len() > 0,
        forall|i: int| 0 <= i < msg.len() ==> morse_letters().contains(#[trigger] msg[i]),
    ensures
        ({
            let out = as_codepoints(msg);
            cw_to_char_step(codes_of(morse_letters()), seq![], encode_message(msg), cap)
                == (out.take(if msg.len() <= cap { msg.len() as int } else { cap as int }), Seq::<CWAlphabet>::empty())
        }),
{
    lemma_message_round_trip(msg);
    let groups = msg.map_values(|c: char| char_group(c));
    let s = encode_message(msg);
    assert(s == groups[0] + groups.drop_first().flatten());
    let g0 = groups[0];
    assert(g0.len() > 0 && is_separator(g0.last())) by {
        lemma_code_identifies_letter(msg[0]);
    }
    assert(s[g0.len() - 1] == g0.last());
    assert(Seq::<CWAlphabet>::empty() + s =~= s);
    assert(has_separator(Seq::<CWAlphabet>::empty() + s)) by {
        assert(is_separator((Seq::<CWAlphabet>::empty() + s)[g0.len() - 1]));
    }
}

/// Symbols may arrive in batches: while the kept and new symbols close no group, nothing is
/// written and all of them are kept; the next batch then gives exactly what one batch holding
/// both would have given.
pub proof fn lemma_batches(
    codes: Map<Seq<CWAlphabet>, char>,
    pending: Seq<CWAlphabet>,
    b1: Seq<CWAlphabet>,
    b2: Seq<CWAlphabet>,
    cap1: nat,
    cap2: nat,
)
    requires
        b1.len() > 0,
        b2.len() > 0,
        !has_separator(pending + b1),
    ensures
        cw_to_char_step(codes, pending, b1, cap1) == (Seq::<u32>::empty(), pending + b1),
        cw_to_char_step(codes, pending + b1, b2, cap2) == cw_to_char_step(codes, pending, b1 + b2, cap2),
{
    assert((pending + b1) + b2 =~= pending + (b1 + b2));
}

/// Turns a stream of Morse symbols into letters, written out as `u32` code points.
pub struct CWToChar {
    /// Symbols received since the last group was decoded.
    symbol_vec: Vec<CWAlphabet>,
    alphabet: BiHashMap<char, Vec<CWAlphabet>>,
}

impl CWToChar {
    /// Symbols are kept only while none of them ends a group.
    #[verifier::type_invariant]
    closed spec fn inv(self) -> bool {
        !has_separator(self.symbol_vec@)
    }

    /// The symbols kept from earlier calls.
    pub closed spec fn pending(&self) -> Seq<CWAlphabet> {
        self.symbol_vec@
    }

    /// The alphabet, as a map from each code to its letter.
    pub closed spec fn codes(&self) -> Map<Seq<CWAlphabet>, char> {
        alphabet_codes(self.alphabet)
    }

    /// A decoder with the given alphabet and no kept symbol.
    pub fn new(alphabet: BiHashMap<char, Vec<CWAlphabet>>) -> (d: Self)
        ensures
            d.pending() == Seq::<CWAlphabet>::empty(),
            d.codes() == alphabet_codes(alphabet),
    {
        CWToChar { symbol_vec: Vec::new(), alphabet }
    }

    /// The letter of `code`, or `'_'`.
    fn letter(&self, code: &[CWAlphabet]) -> (c: char)
        ensures
            c == letter_of(self.codes(), code@),
    {
        match alphabet_letter(&self.alphabet, code) {
            Some(c) => c,
            None => '_',
        }
    }

    /// Takes all of `input`, and returns the code points written to an output with `cap`
    /// free places.
    pub fn work(&mut self, input: &[CWAlphabet], cap: usize) -> (out: Vec<u32>)
        ensures
            (out@, final(self).pending()) == cw_to_char_step(old(self).codes(), old(self).pending(), input@, cap as nat),
            final(self).codes() == old(self).codes(),
    {
        proof { use_type_invariant(&*self); }
        if input.len() == 0 {
            return Vec::new();
        }
        let mut buf: Vec<CWAlphabet> = Vec::new();
        std::mem::swap(&mut buf, &mut self.symbol_vec);
        let ghost old_pending = buf@;
        let mut found = false;
        let mut i: usize = 0;
        while i < input.len()
            invariant
                i <= input@.len(),
                buf@ == old_pending + input@.take(i as int),
                !has_separator(old_pending),
                found == has_separator(buf@),
            decreases input@.len() - i,
        {
            let s = input[i];
            let ghost prev = buf@;
            buf.push(s);
            proof {
                assert(input@.take(i + 1) =~= input@.take(i as int).push(s));
                if found {
                    let j = choose|j: int| 0 <= j < prev.len() && is_separator(#[trigger] prev[j]);
                    assert(is_separator(buf@[j]));
                }
                if is_separator(s) {
                    assert(is_separator(buf@[buf@.len() - 1]));
                }
                if !found && !is_separator(s) {
                    assert forall|j: int| 0 <= j < buf@.len() implies !is_separator(#[trigger] buf@[j]) by {
                        if j < prev.len() {
                            assert(prev[j] == buf@[j]);
                        }
                    }
                }
            }
            if s == CWAlphabet::LetterSpace || s == CWAlphabet::WordSpace {
                found = true;
            }
            i = i + 1;
        }
        assert(input@.take(i as int) =~= input@);
        if !found {
            self.symbol_vec = buf;
            return Vec::new();
        }
        let letters = self.decode(&buf);
        let n = if letters.len() <= cap { letters.len() } else { cap };
        let mut out: Vec<u32> = Vec::new();
        let mut j: usize = 0;
        while j < n
            invariant
                j <= n,
                n <= letters@.len(),
                out@ == as_codepoints(letters@).take(j as int),
            decreases n - j,
        {
            out.push(letters[j] as u32);
            assert(as_codepoints(letters@).take(j + 1) =~= as_codepoints(letters@).take(j as int).push(letters@[j as int] as u32));
            j = j + 1;
        }
        out
    }

    /// The letters of all groups of `buf`.
    fn decode(&self, buf: &Vec<CWAlphabet>) -> (letters: Vec<char>)
        ensures
            letters@ == decoded_letters(self.codes(), buf@),
    {
        let ghost codes = self.codes();
        let mut letters: Vec<char> = Vec::new();
        let mut cur: Vec<CWAlphabet> = Vec::new();
        let mut i: usize = 0;
        assert(buf@.skip(0) =~= buf@);
        while i < buf.len()
            invariant
                i <= buf@.len(),
                codes == self.codes(),
                decoded_letters(codes, buf@) == letters@ + decode_rest(codes, cur@, buf@.skip(i as int)),
            decreases buf@.len() - i,
        {
            let s = buf[i];
            let ghost rest = buf@.skip(i as int);
            assert(rest.drop_first() =~= buf@.skip(i + 1));
            if s == CWAlphabet::LetterSpace || s == CWAlphabet::WordSpace {
                let c = if s == CWAlphabet::WordSpace {
                    let ws = vec![CWAlphabet::WordSpace];
                    assert(ws@ =~= seq![CWAlphabet::WordSpace]);
                    self.letter(ws.as_slice())
                } else {
                    assert(cur@.push(s).drop_last() =~= cur@);
                    self.letter(cur.as_slice())
                };
                let ghost before = letters@;
                letters.push(c);
                assert(before + decode_rest(codes, cur@, rest) =~= letters@ + decode_rest(codes, Seq::<CWAlphabet>::empty(), buf@.skip(i + 1)));
                cur = Vec::new();
            } else {
                cur.push(s);
            }
            i = i + 1;
        }
        if cur.len() > 0 {
            let ghost whole = cur@;
            let last = cur.pop().unwrap();
            let c = if last == CWAlphabet::WordSpace {
                let ws = vec![CWAlphabet::WordSpace];
                assert(ws@ =~= seq![CWAlphabet::WordSpace]);
                self.letter(ws.as_slice())
            } else {
                assert(whole.drop_last() =~= cur@);
                self.letter(cur.as_slice())
            };
            let ghost before = letters@;
            letters.push(c);
            assert(before + seq![c] =~= letters@);
        } else {
            assert(letters@ + Seq::<char>::empty() =~= letters@);
        }
        letters
    }
}

/// Builds a [`CWToChar`] with the International Morse alphabet.
pub struct CWToCharBuilder {
    alphabet: BiHashMap<char, Vec<CWAlphabet>>,
}

impl CWToCharBuilder {
    /// The alphabet the decoder will use.
    pub closed spec fn codes(&self) -> Map<Seq<CWAlphabet>, char> {
        alphabet_codes(self.alphabet)
    }

    /// A builder with the International Morse alphabet.
    pub fn new() -> (b: CWToCharBuilder)
        ensures
            b.codes() == codes_of(morse_letters()),
    {
        CWToCharBuilder::default()
    }

    /// The decoder, with no kept symbol.
    pub fn build(self) -> (d: CWToChar)
        ensures
            d.pending() == Seq::<CWAlphabet>::empty(),
            d.codes() == self.codes(),
    {
        CWToChar::new(self.alphabet)
    }
}

impl Default for CWToCharBuilder {
    fn default() -> (b: Self)
        ensures
            b.codes() == codes_of(morse_letters()),
    {
        CWToCharBuilder { alphabet: get_alphabet() }
    }
}

} // verus!
