use ox_shared::error::{PhpError, SharedError};
use ox_shared::once::{
    poisoned_error, pop_once_held, HeldOnces, push_once_held, OnceFactoryError, OnceFailureMode, OnceInner, PoisonInfo, ST_POISONED,
    ST_READY, ST_UNINIT,
};
use ox_shared::value::SharedValue;

fn pi() -> PoisonInfo {
    PoisonInfo { class: "E".into(), message: "boom".into(), code: 7 }
}

#[test]
fn starts_uninitialized() {
    let o = OnceInner::new();
    assert_eq!(o.state(), ST_UNINIT);
    assert!(o.get().is_none());
    assert!(o.poison_info().is_none());
}

#[test]
fn try_set_first_wins_then_ready() {
    let mut o = OnceInner::new();
    assert_eq!(o.try_set(SharedValue::Long(42)), Ok(true));
    assert_eq!(o.state(), ST_READY);
    assert_eq!(o.try_set(SharedValue::Long(99)), Ok(false));
    assert!(matches!(o.get(), Some(SharedValue::Long(42))));
}

#[test]
fn get_or_init_runs_factory_once_and_caches() {
    let mut o = OnceInner::new();
    let v = o.get_or_init(|| Ok(SharedValue::Long(5))).expect("ok");
    assert!(matches!(v, SharedValue::Long(5)));
    let v2 = o.get_or_init(|| panic!("factory must not run again")).expect("cached");
    assert!(matches!(v2, SharedValue::Long(5)));
    assert_eq!(o.state(), ST_READY);
}

#[test]
fn get_or_init_reset_mode_retries_after_throw() {
    let mut o = OnceInner::new();
    let err = o.get_or_init(|| Err(OnceFactoryError::Threw(pi()))).unwrap_err();
    assert_eq!(err, SharedError::Generic);
    assert_eq!(o.state(), ST_UNINIT);
    let v = o.get_or_init(|| Ok(SharedValue::Long(1))).expect("retry ok");
    assert!(matches!(v, SharedValue::Long(1)));
}

#[test]
fn get_or_init_poison_mode_poisons_terminally() {
    let mut o = OnceInner::with_mode(OnceFailureMode::Poison);
    let _ = o.get_or_init(|| Err(OnceFactoryError::Threw(pi()))).unwrap_err();
    assert_eq!(o.state(), ST_POISONED);
    let info = o.poison_info().expect("poison captured");
    assert_eq!(info.message, "boom");
    assert_eq!(o.try_set(SharedValue::Long(1)), Err(SharedError::Poisoned));
    assert_eq!(o.get_or_init(|| Ok(SharedValue::Long(1))).unwrap_err(), SharedError::Poisoned);
    assert!(o.get().is_none());
}

#[test]
fn stored_null_is_ready_not_uninit() {
    let mut o = OnceInner::new();
    assert_eq!(o.try_set(SharedValue::Null), Ok(true));
    assert_eq!(o.state(), ST_READY);
    assert!(matches!(o.get(), Some(SharedValue::Null)));
}

#[test]
fn poisoned_error_carries_original_code_and_message() {
    let mut o = OnceInner::with_mode(OnceFailureMode::Poison);
    let _ = o.get_or_init(|| Err(OnceFactoryError::Threw(pi()))).unwrap_err();
    match poisoned_error(&o) {
        PhpError::Exception { class, message, code } => {
            assert_eq!(class, "OxPHP\\Shared\\PoisonedException");
            assert_eq!(code, 7, "original factory exception code must propagate");
            assert!(message.contains("boom"), "message: {message}");
            assert_eq!(message, "Once poisoned by failed factory: E: boom");
        }
        other => panic!("expected Exception, got {other:?}"),
    }
}

#[test]
fn poisoned_error_on_unpoisoned_cell_has_plain_message() {
    let o = OnceInner::new();
    match poisoned_error(&o) {
        PhpError::Exception { class, message, code } => {
            assert_eq!(class, "OxPHP\\Shared\\PoisonedException");
            assert_eq!(message, "Once poisoned by failed factory");
            assert_eq!(code, 0);
        }
        other => panic!("expected Exception, got {other:?}"),
    }
}

#[test]
fn non_serialisable_return_is_distinct_from_invalid_callable() {
    let mut o = OnceInner::new();
    assert_eq!(o.get_or_init(|| Err(OnceFactoryError::NotSerialisable)).unwrap_err(), SharedError::Type);
    assert_eq!(o.state(), ST_UNINIT);
    assert_eq!(o.get_or_init(|| Err(OnceFactoryError::Invalid)).unwrap_err(), SharedError::Type);
    assert_eq!(o.state(), ST_UNINIT);
}

#[test]
fn non_serialisable_return_under_poison_mode_poisons_terminally() {
    let mut o = OnceInner::with_mode(OnceFailureMode::Poison);
    assert_eq!(o.get_or_init(|| Err(OnceFactoryError::NotSerialisable)).unwrap_err(), SharedError::Type);
    assert_eq!(o.state(), ST_POISONED);
    let info = o.poison_info().expect("poison captured");
    assert_eq!(info.class, "OxPHP\\Shared\\TypeException");
    assert!(info.message.contains("non-serialisable"), "message: {}", info.message);
    assert_eq!(o.get_or_init(|| Ok(SharedValue::Long(1))).unwrap_err(), SharedError::Poisoned);
    assert_eq!(o.try_set(SharedValue::Long(1)), Err(SharedError::Poisoned));
}

#[test]
fn invalid_callable_under_poison_mode_still_resets() {
    let mut o = OnceInner::with_mode(OnceFailureMode::Poison);
    assert_eq!(o.get_or_init(|| Err(OnceFactoryError::Invalid)).unwrap_err(), SharedError::Type);
    assert_eq!(o.state(), ST_UNINIT);
    let v = o.get_or_init(|| Ok(SharedValue::Long(42))).expect("retry after Invalid must succeed even under Poison");
    assert!(matches!(v, SharedValue::Long(42)));
}

#[test]
fn failure_mode_from_code() {
    assert_eq!(OnceFailureMode::from_i64(0), OnceFailureMode::Reset);
    assert_eq!(OnceFailureMode::from_i64(1), OnceFailureMode::Poison);
}

#[test]
fn reentrant_initialisation_is_a_deadlock() {
    let mut held = HeldOnces::new();
    assert_eq!(push_once_held(&mut held, 5), Ok(()));
    assert_eq!(push_once_held(&mut held, 6), Ok(()));
    assert_eq!(push_once_held(&mut held, 5), Err(SharedError::Deadlock));
    pop_once_held(&mut held, 5);
    assert_eq!(push_once_held(&mut held, 5), Ok(()));
}

#[test]
fn once_snapshot_is_value_or_null() {
    let mut o = OnceInner::new();
    assert!(matches!(o.debug_snapshot(), SharedValue::Null));
    o.try_set(SharedValue::Long(8)).unwrap();
    assert!(matches!(o.debug_snapshot(), SharedValue::Long(8)));
}
