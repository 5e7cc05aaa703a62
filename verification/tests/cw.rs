use fsdr_blocks::cw::baseband_to_cw::{BaseBandToCW, SignalLevel};
use fsdr_blocks::cw::cw_to_char::CWToCharBuilder;
use fsdr_blocks::cw::shared::{msg_to_cw, CWAlphabet};
use fsdr_blocks::cw::shared::CWAlphabet::{Dash, Dot, LetterSpace, WordSpace};

/// Baseband samples of a message at `spd` samples per dot: a dot is one dot on and one off, a
/// dash three on and one off, a letter ends with two more dots off, and a space, like a
/// character without code, is four dots off.
fn baseband(msg: &str, spd: usize) -> Vec<f32> {
    let mut bb = vec![];
    let mut on = |bb: &mut Vec<f32>, dots: usize| bb.extend(std::iter::repeat(1.0f32).take(dots * spd));
    let off = |bb: &mut Vec<f32>, dots: usize| bb.extend(std::iter::repeat(0.0f32).take(dots * spd));
    for c in msg.chars() {
        let code: &[CWAlphabet] = match c {
            'S' => &[Dot, Dot, Dot],
            'O' => &[Dash, Dash, Dash],
            _ => &[],
        };
        if code.is_empty() {
            off(&mut bb, 4);
            continue;
        }
        for s in code {
            match s {
                Dot => on(&mut bb, 1),
                _ => on(&mut bb, 3),
            }
            off(&mut bb, 1);
        }
        off(&mut bb, 2);
    }
    bb
}

fn present(bb: &[f32]) -> Vec<SignalLevel> {
    bb.iter()
        .map(|x| {
            if x.abs() > 0.5 {
                SignalLevel::Present
            } else if x.abs() <= 0.5 {
                SignalLevel::Absent
            } else {
                SignalLevel::Undefined
            }
        })
        .collect()
}

fn levels(v: &[bool]) -> Vec<SignalLevel> {
    v.iter().map(|&b| if b { SignalLevel::Present } else { SignalLevel::Absent }).collect()
}

/// A detector with symbol lengths kept to `accuracy` percent, the tolerance computed in single
/// precision floating point.
fn detector(accuracy: usize, samples_per_dot: usize) -> BaseBandToCW {
    let tolerance = (samples_per_dot as f32 - ((accuracy as f32 / 100.) * samples_per_dot as f32)) as usize;
    BaseBandToCW::with_tolerance(samples_per_dot, tolerance)
}

fn as_chars(codepoints: &[u32]) -> Vec<char> {
    codepoints.iter().map(|&c| char::from_u32(c).unwrap_or('_')).collect()
}

#[test]
fn test_baseband_to_cw() {
    let samples_per_dot = 1;
    let message = "S O__S".to_uppercase();
    let bb = baseband(&message, samples_per_dot);

    let mut baseband_to_cw = detector(100, samples_per_dot);
    let input = present(&bb);
    let (consumed, received) = baseband_to_cw.work(&input, 1024);

    assert_eq!(consumed, input.len());
    assert_eq!(
        vec![Dot, Dot, Dot, WordSpace, Dash, Dash, Dash, LetterSpace, WordSpace, Dot, Dot, Dot],
        received
    );
}

#[test]
fn test_cw_to_char_vector() {
    let message = "S O__S  S".to_uppercase().chars().collect::<Vec<char>>();
    let cw = msg_to_cw(message.as_slice());

    let mut cw_to_char = CWToCharBuilder::new().build();
    let received = as_chars(&cw_to_char.work(&cw, 1024));

    assert_eq!(vec!['S', ' ', 'O', '_', ' ', ' ', 'S'], received);
}

#[test]
fn test_cw_to_char_channel() {
    let mut cw_to_char = CWToCharBuilder::new().build();
    let mut received = vec![];
    let batches: [&[char]; 6] = [&['S'], &[' '], &['O'], &['_'], &['_', 'S'], &['S']];
    for batch in batches {
        let c = msg_to_cw(batch);
        received.extend(as_chars(&cw_to_char.work(&c, 1024)));
    }
    assert_eq!(vec!['S', ' ', 'O', '_', 'S'], received);
}

#[test]
fn cw_to_char_decodes_alphabet() {
    let mut d = CWToCharBuilder::new().build();
    let cw = vec![
        Dot, Dash, LetterSpace, // A
        Dash, Dot, Dot, Dot, LetterSpace, // B
        WordSpace, Dash, Dash, Dash, Dash, Dash, LetterSpace, // ' ' 0
        Dot, Dot, Dot, Dot, Dot, LetterSpace, // 5
        Dash, Dash, Dot, Dot, LetterSpace, // Z
    ];
    assert_eq!(as_chars(&d.work(&cw, 64)), vec!['A', 'B', ' ', '0', '5', 'Z']);
}

#[test]
fn cw_to_char_keeps_symbols_until_a_group_closes() {
    let mut d = CWToCharBuilder::new().build();
    assert!(d.work(&[Dash], 8).is_empty());
    assert!(d.work(&[], 8).is_empty());
    assert!(d.work(&[Dot, Dash], 8).is_empty());
    assert_eq!(as_chars(&d.work(&[LetterSpace], 8)), vec!['K']);
}

#[test]
fn cw_to_char_trailing_group_and_capacity() {
    let mut d = CWToCharBuilder::new().build();
    // E closed, then an open group of two dots: its letter is that of all but its last
    // symbol, a single dot, so E again.
    assert_eq!(as_chars(&d.work(&[Dot, LetterSpace, Dot, Dot], 8)), vec!['E', 'E']);
    // Only as many letters as fit are written; the rest are dropped.
    let out = d.work(&[Dash, LetterSpace, Dash, Dash, LetterSpace, Dot, LetterSpace], 2);
    assert_eq!(as_chars(&out), vec!['T', 'M']);
    assert!(d.work(&[LetterSpace], 0).is_empty());
    // An empty group decodes to the unknown letter, and a word space ends any group.
    assert_eq!(as_chars(&d.work(&[LetterSpace, Dot, WordSpace], 8)), vec!['_', ' ']);
}

#[test]
fn baseband_to_cw_default_settings() {
    let mut d2 = detector(90, 60);
    // 60 samples per dot, accuracy 90 %: a tolerance of 6 samples.
    let mut input = vec![false; 10];
    input.extend(vec![true; 54]);
    input.extend(vec![false; 3 * 60 + 6]);
    input.extend(vec![true; 186]);
    input.push(false);
    let (n, out) = d2.work(&levels(&input), 16);
    assert_eq!(n, input.len());
    assert_eq!(out, vec![Dot, LetterSpace, Dash]);
}

#[test]
fn baseband_to_cw_pulses_out_of_tolerance_give_nothing() {
    let mut d = detector(80, 10);
    // tolerance 2: dots are 8..=12 samples, dashes and letter spaces 28..=32.
    let mut input = vec![true; 13];
    input.extend(vec![false; 27]);
    input.extend(vec![true; 8]);
    input.push(false);
    let (_, out) = d.work(&levels(&input), 16);
    assert_eq!(out, vec![Dot]);
}

#[test]
fn baseband_to_cw_end_of_transmission_once_per_call() {
    let mut d = detector(100, 2);
    let mut input = vec![true, true, false];
    input.extend(vec![false; 40]);
    let (n, out) = d.work(&levels(&input), 16);
    assert_eq!(n, input.len());
    assert_eq!(out, vec![Dot, LetterSpace, WordSpace]);
    // Silence goes on: the end was reported already in this call, and a new call does not
    // report it again before a new signal.
    let (_, out) = d.work(&levels(&vec![false; 40]), 16);
    assert!(out.is_empty());
}

#[test]
fn baseband_to_cw_stops_when_output_nearly_full() {
    let mut d = detector(100, 1);
    let input = levels(&[true, false, true, false, true, false, true, false]);
    let (n, out) = d.work(&input, 1);
    assert_eq!((n, out.len()), (0, 0));
    let (n, out) = d.work(&input, 3);
    assert_eq!(n, 2);
    assert_eq!(out, vec![Dot]);
    let (n, out) = d.work(&input[2..], 3);
    assert_eq!(n, 2);
    assert_eq!(out, vec![Dot]);
}

#[test]
fn baseband_to_cw_float_tolerance() {
    // 25 samples per dot at 60 %: the tolerance is 9 samples, so a 15-sample pulse is no dot.
    let mut d = detector(60, 25);
    let mut input = vec![true; 15];
    input.push(false);
    input.extend(vec![true; 16]);
    input.push(false);
    let (_, out) = d.work(&levels(&input), 16);
    assert_eq!(out, vec![Dot]);
}

#[test]
fn baseband_to_cw_undefined_sample_blocks_the_next_change() {
    let mut d = detector(100, 1);
    let mut input = levels(&[true, false, false, false]);
    input.push(SignalLevel::Undefined);
    input.extend(levels(&[true, false]));
    let (n, out) = d.work(&input, 16);
    assert_eq!(n, input.len());
    // The start right after the undefined sample is not seen, so the pulse that follows is
    // measured from the earlier stop and gives no symbol: only the first dot is read.
    assert_eq!(out, vec![Dot]);
}

#[test]
fn baseband_to_cw_long_carrier_reports_end() {
    let mut d = detector(100, 1);
    let mut input = vec![true; 10];
    input.push(false);
    let (_, out) = d.work(&levels(&input), 16);
    assert_eq!(out, vec![LetterSpace, WordSpace]);
}

#[test]
fn msg_to_cw_closes_letters_and_spaces_words() {
    let cw = msg_to_cw(&['S', 'O', 'S', ' ', 'E', '5']);
    assert_eq!(
        vec![
            Dot, Dot, Dot, LetterSpace, Dash, Dash, Dash, LetterSpace, Dot, Dot, Dot, LetterSpace,
            WordSpace, Dot, LetterSpace, Dot, Dot, Dot, Dot, Dot, LetterSpace,
        ],
        cw
    );
    assert!(msg_to_cw(&[]).is_empty());
}

#[test]
fn msg_to_cw_round_trip_through_decoder() {
    let msg: Vec<char> = "CQ CQ DE 9A1XYZ".chars().collect();
    let mut d = CWToCharBuilder::new().build();
    let received = as_chars(&d.work(&msg_to_cw(&msg), 1024));
    assert_eq!(msg, received);
}

#[test]
fn msg_to_cw_sends_error_signal_for_unknown_characters() {
    let cw = msg_to_cw(&['_', 'E']);
    assert_eq!(vec![Dot, Dot, Dot, Dot, Dot, Dot, Dot, Dot, Dot, LetterSpace], cw);
    let mut d = CWToCharBuilder::new().build();
    assert_eq!(vec!['_'], as_chars(&d.work(&cw, 1024)));
}
