use corot_rs::for_range::{
    for_range, ForRangeCoroutine, ForRangeCoroutineRehydration, ForRangeLine, SettleValue,
};
use corot_rs::Step;

fn is_pending(r: &Result<Step<()>, ForRangeCoroutineRehydration>) -> bool {
    matches!(r, Ok(Step::Pending))
}

fn is_ready(r: &Result<Step<()>, ForRangeCoroutineRehydration>) -> bool {
    matches!(r, Ok(Step::Ready(())))
}

#[test]
fn for_range_runs_three_iterations() {
    let mut c = for_range();
    let (r, lines) = c.step();
    assert!(is_pending(&r));
    assert_eq!(lines, vec![ForRangeLine::Start]);
    c.settle_wait(SettleValue::Range(0..3));
    for expected_i in 0..3 {
        let (r, lines) = c.step();
        assert!(is_pending(&r));
        let mut want = Vec::new();
        if expected_i > 0 {
            want.push(ForRangeLine::ItemN(expected_i - 1, (expected_i - 1) * 10));
        }
        want.push(ForRangeLine::Item(expected_i));
        assert_eq!(lines, want);
        assert_eq!(c.get_i(), Some(&expected_i));
        c.settle_wait(SettleValue::Int(expected_i * 10));
    }
    let (r, lines) = c.step();
    assert!(is_ready(&r));
    assert_eq!(lines, vec![ForRangeLine::ItemN(2, 20), ForRangeLine::Done]);
    assert_eq!(c.get_i(), None);
    let (r, lines) = c.step();
    assert!(is_ready(&r));
    assert!(lines.is_empty());
}

#[test]
fn for_range_empty_range_finishes_at_once() {
    let mut c = for_range();
    let _ = c.step();
    c.settle_wait(SettleValue::Range(5..5));
    let (r, lines) = c.step();
    assert!(is_ready(&r));
    assert_eq!(lines, vec![ForRangeLine::Done]);
    assert!(matches!(c, ForRangeCoroutine::Finished));
}

#[test]
fn for_range_rehydrate_reports_nothing_missing() {
    let mut c = for_range();
    assert!(matches!(c.rehydrate(), ForRangeCoroutineRehydration::Hydrated));
    let _ = c.step();
    assert!(matches!(c.rehydrate(), ForRangeCoroutineRehydration::Hydrated));
    assert!(matches!(c, ForRangeCoroutine::WaitingIter0 { __wait: None }));
}

#[test]
fn for_range_get_i_only_while_waiting_for_n() {
    let mut c = for_range();
    assert_eq!(c.get_i(), None);
    let _ = c.step();
    assert_eq!(c.get_i(), None);
    c.settle_wait(SettleValue::Range(-2..0));
    let _ = c.step();
    assert_eq!(c.get_i(), Some(&-2));
}

#[test]
fn for_range_range_near_the_top() {
    let mut c = for_range();
    let _ = c.step();
    c.settle_wait(SettleValue::Range(i32::MAX - 1..i32::MAX));
    let (r, lines) = c.step();
    assert!(is_pending(&r));
    assert_eq!(lines, vec![ForRangeLine::Item(i32::MAX - 1)]);
    c.settle_wait(SettleValue::Int(1));
    let (r, lines) = c.step();
    assert!(is_ready(&r));
    assert_eq!(lines, vec![ForRangeLine::ItemN(i32::MAX - 1, 1), ForRangeLine::Done]);
}

#[test]
fn driving_to_the_end_prints_the_loop_in_order() {
    let ns = [7, -1, 42, 5];
    let mut c = for_range();
    let (_, mut all) = c.step();
    c.settle_wait(SettleValue::Range(3..7));
    let mut k = 0;
    loop {
        let (r, lines) = c.step();
        all.extend(lines);
        if is_ready(&r) {
            break;
        }
        assert!(matches!(c, ForRangeCoroutine::WaitingN { __wait: None, .. }));
        c.settle_wait(SettleValue::Int(ns[k]));
        k += 1;
    }
    let mut want = vec![ForRangeLine::Start];
    for (j, i) in (3..7).enumerate() {
        want.push(ForRangeLine::Item(i));
        want.push(ForRangeLine::ItemN(i, ns[j]));
    }
    want.push(ForRangeLine::Done);
    assert_eq!(all, want);
    assert!(matches!(c, ForRangeCoroutine::Finished));
}
