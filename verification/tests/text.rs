use corot_rs::text::{
    after_if_variant, after_loop_variant, after_match_variant, coroutine_name, indexed,
    join_text, loop_head_variant, needs_rehydration_variant, same_text, to_upper_camel_case,
    waiting_iter_variant, waiting_variant,
};

#[test]
fn camel_case_of_snake_case() {
    assert_eq!(to_upper_camel_case("for_range"), "ForRange");
    assert_eq!(to_upper_camel_case("checkout"), "Checkout");
    assert_eq!(to_upper_camel_case("a_b_c"), "ABC");
}

#[test]
fn camel_case_drops_every_underscore() {
    assert_eq!(to_upper_camel_case("__iter"), "Iter");
    assert_eq!(to_upper_camel_case("x__y_"), "XY");
    assert_eq!(to_upper_camel_case("_"), "");
    assert_eq!(to_upper_camel_case(""), "");
}

#[test]
fn camel_case_keeps_inner_case_and_digits() {
    assert_eq!(to_upper_camel_case("scrut0"), "Scrut0");
    assert_eq!(to_upper_camel_case("getHTTP_value"), "GetHTTPValue");
    assert_eq!(to_upper_camel_case("_1st"), "1st");
}

#[test]
fn camel_case_beyond_ascii() {
    assert_eq!(to_upper_camel_case("été_x"), "ÉtéX");
    assert_eq!(to_upper_camel_case("ß_a"), "SSA");
}

#[test]
fn generated_names() {
    assert_eq!(coroutine_name("for_range"), "ForRangeCoroutine");
    assert_eq!(waiting_variant("n"), "WaitingN");
    assert_eq!(waiting_variant("cond3"), "WaitingCond3");
    assert_eq!(needs_rehydration_variant("db"), "NeedsRehydrationDb");
    assert_eq!(waiting_iter_variant(0), "WaitingIter0");
    assert_eq!(after_if_variant(2), "AfterIf2");
    assert_eq!(after_loop_variant(10), "AfterLoop10");
    assert_eq!(after_match_variant(7), "AfterMatch7");
    assert_eq!(loop_head_variant(123), "LoopHead123");
}

#[test]
fn indexed_and_join_text() {
    assert_eq!(indexed("cond", 0), "cond0");
    assert_eq!(indexed("guard", 4096), "guard4096");
    assert_eq!(indexed("x", usize::MAX), format!("x{}", usize::MAX));
    assert_eq!(join_text("__await_", "rows"), "__await_rows");
}

#[test]
fn same_text_compares_characters() {
    assert!(same_text("i64", "i64"));
    assert!(!same_text("i64", "i6"));
    assert!(!same_text("u32", "u64"));
    assert!(same_text("", ""));
}
