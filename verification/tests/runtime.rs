use corot_rs::runtime::SkipSerde;
use corot_rs::{call, iter, iter_fields, val, val_fields};

#[test]
fn skip_serde_new_is_hydrated() {
    let s = SkipSerde::new(5);
    assert!(!s.needs_rehydration());
    assert_eq!(s.get(), Some(&5));
}

#[test]
fn skip_serde_default_needs_rehydration_until_set() {
    let mut s: SkipSerde<String> = SkipSerde::default();
    assert!(s.needs_rehydration());
    assert_eq!(s.get(), None);
    s.set("db".to_string());
    assert!(!s.needs_rehydration());
    assert_eq!(s.get().map(|x| x.as_str()), Some("db"));
    assert_eq!(s.into_inner(), Some("db".to_string()));
}

#[test]
fn skip_serde_get_mut_writes_through() {
    let mut s = SkipSerde::new(1);
    if let Some(v) = s.get_mut() {
        *v = 7;
    }
    assert_eq!(s.get(), Some(&7));
    let mut e: SkipSerde<i32> = SkipSerde::default();
    assert!(e.get_mut().is_none());
    assert!(e.needs_rehydration());
}

#[test]
fn ascription_helpers_are_identities() {
    assert_eq!(iter::<Vec<i32>>(vec![1, 2, 3]), vec![1, 2, 3]);
    assert_eq!(val::<Option<i32>>(Some(4)), Some(4));
    assert_eq!(val_fields::<(i32, bool), (i32, bool)>((1, true)), (1, true));
    assert_eq!(iter_fields::<Vec<(i32, i32)>, (i32, i32)>(vec![(1, 2)]), vec![(1, 2)]);
    assert_eq!(call::<u8>(9), 9);
}

#[test]
fn skip_serde_deref_reads_and_writes_the_held_value() {
    let mut s = SkipSerde::new(vec![1, 2]);
    assert_eq!(s.deref().len(), 2);
    s.deref_mut().push(3);
    assert_eq!(s.deref(), &vec![1, 2, 3]);
    assert_eq!(s.into_inner(), Some(vec![1, 2, 3]));
}
