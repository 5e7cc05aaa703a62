use fsdr_blocks::agc::agc_gain_lock;

#[test]
fn gain_lock_rule() {
    // A locked gain stays locked, whatever the powers.
    for a in [false, true] {
        for x in [false, true] {
            for y in [false, true] {
                for z in [false, true] {
                    assert!(agc_gain_lock(a, true, x, y, z));
                }
            }
        }
    }
    // Without auto-lock the gain never locks by itself.
    assert!(!agc_gain_lock(false, false, true, true, true));
    // Input above the reference: locks once the output falls below it.
    assert!(agc_gain_lock(true, false, true, true, false));
    assert!(!agc_gain_lock(true, false, true, false, true));
    // Input at or below the reference: locks once the output rises above it.
    assert!(agc_gain_lock(true, false, false, false, true));
    assert!(!agc_gain_lock(true, false, false, true, false));
}
