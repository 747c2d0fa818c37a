use lang_items::{Action, CycleLeds, FlashAllLeds, BLINK_MS};

fn flash_take(count: usize, steps: usize) -> Vec<Action> {
    let mut m = FlashAllLeds::new(count);
    let mut out = Vec::new();
    for _ in 0..steps {
        out.push(m.next_action());
    }
    out
}

fn cycle_take(count: usize, steps: usize) -> Vec<Action> {
    let mut m = CycleLeds::new(count);
    let mut out = Vec::new();
    for _ in 0..steps {
        out.push(m.next_action());
    }
    out
}

#[test]
fn hold_is_one_hundred_milliseconds() {
    assert_eq!(BLINK_MS, 100);
}

#[test]
fn stack_overflow_blinks_all_indicators() {
    // The payload ("stack overflow") does not change the pattern.
    let hold = Action::Delay(100);
    let period = vec![
        Action::On(0),
        Action::On(1),
        Action::On(2),
        hold,
        Action::Off(0),
        Action::Off(1),
        Action::Off(2),
        hold,
    ];
    let got = flash_take(3, 3 * period.len());
    for (k, a) in got.iter().enumerate() {
        assert_eq!(*a, period[k % period.len()], "action {}", k);
    }
}

#[test]
fn blink_turns_all_on_before_any_off() {
    let n = 5;
    let got = flash_take(n, 2 * n + 2);
    let last_on = got.iter().rposition(|a| matches!(a, Action::On(_))).unwrap();
    let first_off = got.iter().position(|a| matches!(a, Action::Off(_))).unwrap();
    assert!(last_on < first_off);
    assert_eq!(got[n], Action::Delay(BLINK_MS));
    assert_eq!(got[2 * n + 1], Action::Delay(BLINK_MS));
    for i in 0..n {
        assert_eq!(got[i], Action::On(i));
        assert_eq!(got[n + 1 + i], Action::Off(i));
    }
}

#[test]
fn blink_without_indicators_only_holds() {
    assert_eq!(flash_take(0, 4), vec![Action::Delay(100); 4]);
}

#[test]
fn blink_keeps_going() {
    let n = 2;
    let mut m = FlashAllLeds::new(n);
    let mut rounds = 0u32;
    for k in 0..1_000_000usize {
        let a = m.next_action();
        if k % 6 == 5 {
            assert_eq!(a, Action::Delay(BLINK_MS));
            rounds += 1;
        }
    }
    assert_eq!(rounds, 166_666);
    assert_eq!(m.next_action(), Action::Off(1));
}

#[test]
fn allocation_exhaustion_chases_three_indicators() {
    let hold = Action::Delay(100);
    let period = vec![
        Action::On(0),
        hold,
        Action::Off(0),
        hold,
        Action::On(1),
        hold,
        Action::Off(1),
        hold,
        Action::On(2),
        hold,
        Action::Off(2),
        hold,
    ];
    let got = cycle_take(3, 13);
    assert_eq!(got[..12].to_vec(), period);
    assert_eq!(got[12], Action::On(0));
}

#[test]
fn chase_lights_one_at_a_time() {
    let n = 4;
    let got = cycle_take(n, 3 * 4 * n);
    let mut lit: Vec<usize> = Vec::new();
    let mut order: Vec<usize> = Vec::new();
    for a in got {
        match a {
            Action::On(i) => {
                assert!(lit.is_empty());
                lit.push(i);
                order.push(i);
            }
            Action::Off(i) => {
                assert_eq!(lit, vec![i]);
                lit.clear();
            }
            Action::Delay(ms) => assert_eq!(ms, BLINK_MS),
        }
    }
    assert_eq!(order, vec![0, 1, 2, 3, 0, 1, 2, 3, 0, 1, 2, 3]);
}

#[test]
fn chase_with_one_indicator() {
    let got = cycle_take(1, 8);
    let turn = [Action::On(0), Action::Delay(100), Action::Off(0), Action::Delay(100)];
    assert_eq!(got[..4], turn);
    assert_eq!(got[4..], turn);
}

#[test]
fn chase_without_indicators_waits_forever() {
    let mut m = CycleLeds::new(0);
    for _ in 0..100_000 {
        assert_eq!(m.next_action(), Action::Delay(BLINK_MS));
    }
}
