# fsdr_blocks

Blocks for FutureSDR flowgraphs whose sample handling is verified with Verus.

- `src/` is the verified library: each block's state and the decisions of one call of its
  `work`, from plain values (input samples, free output places) to plain values (samples taken,
  samples written, the new state).
  - `stream::Deinterleave` deals one stream alternately to two outputs.
  - `cw::baseband_to_cw::BaseBandToCW` reads Morse symbols from the level of a carrier
    (present, absent, or undefined for a sample that is not a number), with its symbol ranges
    built from a tolerance in samples (`BaseBandToCW::with_tolerance`); the tolerance that a
    dot accuracy in percent gives is floating point and is computed in `app/`;
    `cw::cw_to_char::CWToChar` decodes symbols into letters with an alphabet held in a
    `bimap::BiHashMap`; `cw::shared` holds the symbols, the International Morse alphabet and
    `msg_to_cw`, which sends a message as symbols (a character with no code as the error
    signal).
  - `channel::CrossbeamSource`, `channel::CrossbeamSink` and `async_chan::AsyncChannelSource`
    move chunks of samples between a stream and a channel. Each call takes or hands out samples
    without losing or repeating any, and `channel::chunk::lemma_source_run` shows that over many
    calls the samples handed out, followed by those still pending, are the chunks received, in
    the order received. The order in which a channel yields its chunks is the channel crate's;
    the sink records, as ghost state, each chunk it hands to the channel, as the
    send reports it: all the samples of one call, in order.
  - `agc::agc_gain_lock` is the rule that locks the gain of the automatic gain control, and
    `sigmf::annotation_tags` places the annotations of a recording in the samples read.
- `app/` holds the FutureSDR blocks around the library: buffer handling, and the blocks whose
  arithmetic is floating point (automatic gain control, frequency shifter).
- `tests/` runs the library on concrete values.
