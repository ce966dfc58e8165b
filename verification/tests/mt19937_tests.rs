use mt19937_lookahead::mt19937::MAX_LOOKAHEAD_SIZE;
use mt19937_lookahead::mt19937::N;
use mt19937_lookahead::DEFAULT_SEED;
use mt19937_lookahead::DEFAULT_SEED_PS2;
use mt19937_lookahead::MT19937;

#[test]
fn test_default() {
    let mut mt = MT19937::default();

    assert_eq!(mt.genrand(), 3499211612);
    assert_eq!(mt.genrand(), 581869302);
    assert_eq!(mt.genrand(), 3890346734);
    assert_eq!(mt.genrand(), 3586334585);
    assert_eq!(mt.genrand(), 545404204);
}

#[test]
fn test_default_seed() {
    let mut mt = MT19937::new_with_seed(DEFAULT_SEED);

    assert_eq!(mt.genrand(), 3499211612);
    assert_eq!(mt.genrand(), 581869302);
    assert_eq!(mt.genrand(), 3890346734);
    assert_eq!(mt.genrand(), 3586334585);
    assert_eq!(mt.genrand(), 545404204);
}

#[test]
fn test_default_seed_ps2() {
    let mut mt = MT19937::new_with_seed(DEFAULT_SEED_PS2);

    assert_eq!(mt.genrand(), 1288459236);
    assert_eq!(mt.genrand(), 2139177191);
    assert_eq!(mt.genrand(), 74803024);
    assert_eq!(mt.genrand(), 3048110697);
    assert_eq!(mt.genrand(), 1213569425);
}

#[test]
fn test_default_peek() {
    let mt = MT19937::default();

    assert_eq!(mt.peek(0), Some(3499211612));
    assert_eq!(mt.peek(1), Some(581869302));
    assert_eq!(mt.peek(2), Some(3890346734));
    assert_eq!(mt.peek(3), Some(3586334585));
    assert_eq!(mt.peek(4), Some(545404204));
}

#[test]
fn test_ps2_peek_next_state() {
    let mt = MT19937::new_with_seed(DEFAULT_SEED_PS2);

    assert_eq!(mt.peek(624), Some(2370195708));
    assert_eq!(mt.peek(624 + 1), Some(1272340656));
    assert_eq!(mt.peek(624 + 2), Some(2451137865));
    assert_eq!(mt.peek(624 + 3), Some(1725072322));
    assert_eq!(mt.peek(624 + 4), Some(781178099));
}

#[test]
fn test_ps2_peek_specific_state() {
    let mt = MT19937::new_with_seed(DEFAULT_SEED_PS2);

    assert_eq!(mt.peek_specific(1, 0), Some(2370195708));
    assert_eq!(mt.peek_specific(1, 1), Some(1272340656));
    assert_eq!(mt.peek_specific(1, 2), Some(2451137865));
    assert_eq!(mt.peek_specific(1, 3), Some(1725072322));
    assert_eq!(mt.peek_specific(1, 4), Some(781178099));

    assert_eq!(mt.peek_specific(2, 0), Some(3776761649));
    assert_eq!(mt.peek_specific(2, 1), Some(4155410904));
    assert_eq!(mt.peek_specific(2, 2), Some(1258679099));
    assert_eq!(mt.peek_specific(2, 3), Some(2085559062));
    assert_eq!(mt.peek_specific(2, 4), Some(2548599404));
}

#[test]
fn test_non_existent_peek() {
    let mt = MT19937::default();

    assert_eq!(mt.peek_specific(MAX_LOOKAHEAD_SIZE + 1, N + 1), None);
    assert_eq!(mt.peek_specific(MAX_LOOKAHEAD_SIZE + 1, N), None);
    assert_eq!(mt.peek_specific(MAX_LOOKAHEAD_SIZE + 1, N - 1), None);
    assert_eq!(mt.peek_specific(MAX_LOOKAHEAD_SIZE, N), None);
    assert_eq!(mt.peek_specific(MAX_LOOKAHEAD_SIZE - 1, N), None);
    assert_eq!(mt.peek(N * MAX_LOOKAHEAD_SIZE), None);
}

#[test]
fn it_works() {
    let result = 2 + 2;
    assert_eq!(result, 4);
}

#[test]
fn determinism_same_seed_same_stream() {
    let mut a = MT19937::new_with_seed(12345);
    let mut b = MT19937::new_with_seed(12345);

    for _ in 0..1500 {
        assert_eq!(a.genrand(), b.genrand());
    }
}

#[test]
fn peek_then_consume_agrees() {
    let mut mt = MT19937::new_with_seed(DEFAULT_SEED_PS2);

    for k in [0usize, 1, 5, 623, 624, 1000] {
        let peeked = mt.peek(k).unwrap();
        let mut other = MT19937::new_with_seed(DEFAULT_SEED_PS2);
        for _ in 0..k {
            other.genrand();
        }
        assert_eq!(other.genrand(), peeked);
    }

    // The peeks above consumed nothing: the stream still starts at word 0.
    assert_eq!(mt.genrand(), 1288459236);
}

#[test]
fn peek_is_pure_observer() {
    let mut mt = MT19937::default();

    let first = mt.peek(0);
    let far = mt.peek(5000);
    assert_eq!(mt.peek(0), first);
    assert_eq!(far, mt.peek(5000));
    assert_eq!(mt.genrand(), 3499211612);
    assert_eq!(mt.genrand(), 581869302);
}

#[test]
fn offset_and_coordinate_peeks_agree() {
    let mt = MT19937::new_with_seed(DEFAULT_SEED_PS2);

    for offset in [0usize, 1, 623, 624, 1247, 1248, 6239] {
        let generation = offset / N;
        let word = offset % N;
        assert_eq!(mt.peek(offset), mt.peek_specific(generation, word));
    }
    assert_eq!(mt.peek(624), mt.peek_specific(1, 0));
}

#[test]
fn peek_state_reports_coordinates_and_raw_word() {
    let mt = MT19937::new_with_seed(DEFAULT_SEED_PS2);

    let st = mt.peek_state(624 + 3).unwrap();
    assert_eq!(st.mti, 3);
    assert_eq!(st.value, 1725072322);

    let same = mt.peek_specific_state(1, 3).unwrap();
    assert_eq!(same.mti, 3);
    assert_eq!(same.mt, st.mt);
    assert_eq!(same.value, st.value);
}

#[test]
fn boundary_peeks_report_absence() {
    let mt = MT19937::default();

    assert_eq!(mt.peek_specific(9, 623), Some(mt.peek(9 * 624 + 623).unwrap()));
    assert_eq!(mt.peek_specific(10, 0), None);
    assert_eq!(mt.peek_specific(9, 624), None);
    assert_eq!(mt.peek(6240), None);
    assert_eq!(mt.peek(6239), mt.peek_specific(9, 623));
    assert_eq!(mt.peek(usize::MAX), None);
}

#[test]
fn load_state_round_trip() {
    let mut donor = MT19937::new_with_seed(987654321);
    for _ in 0..100 {
        donor.genrand();
    }

    // Capture the canonical generation through the raw words that
    // `peek_specific_state` exposes, and the cursor as the number of draws.
    let mut captured = [0u32; 624];
    for (i, slot) in captured.iter_mut().enumerate() {
        *slot = donor.peek_specific_state(0, i).unwrap().mt;
    }

    let mut copy = MT19937::default();
    copy.load_state(&captured, 100);

    for _ in 0..2000 {
        assert_eq!(copy.genrand(), donor.genrand());
    }
}

#[test]
fn load_state_at_exhaustion_twists_first() {
    let arr = [0xdeadbeefu32; 624];

    let mut at_end = MT19937::default();
    at_end.load_state(&arr, 624);

    let mut at_start = MT19937::default();
    at_start.load_state(&arr, 0);
    let horizon = at_start.peek(624).unwrap();

    // With the cursor at the end, the next draw comes from the next twist:
    // the word the fresh-cursor generator sees one whole generation ahead.
    assert_eq!(at_end.genrand(), horizon);
}

#[test]
fn sgenrand_matches_fresh_construction() {
    let mut reseeded = MT19937::new_with_seed(DEFAULT_SEED);
    reseeded.genrand();
    reseeded.sgenrand(DEFAULT_SEED_PS2);

    let mut fresh = MT19937::new_with_seed(DEFAULT_SEED_PS2);
    for _ in 0..700 {
        assert_eq!(reseeded.genrand(), fresh.genrand());
    }
}

#[test]
fn twist_periodicity_after_one_generation() {
    let mut mt = MT19937::new_with_seed(DEFAULT_SEED_PS2);
    let next_generation_first = mt.peek_specific(1, 0).unwrap();
    let last_of_generation = mt.peek(623).unwrap();

    for _ in 0..623 {
        mt.genrand();
    }
    assert_eq!(mt.genrand(), last_of_generation);

    // Exactly one generation consumed: the cursor wraps and the next draw is
    // the first word of the freshly twisted generation.
    assert_eq!(mt.peek(0), Some(next_generation_first));
    assert_eq!(mt.genrand(), next_generation_first);
    assert_eq!(mt.genrand(), 1272340656);
}
