use ox_shared::error::{PhpError, SharedError};
use ox_shared::rc::{throw_clone_forbidden, type_error};
use ox_shared::rc::{
    atomic_rc_to_result, counter_rc_to_result, err_to_phperr, map_channel_rc, map_rc_to_result, mutex_rc_to_phperr,
    pool_rc_to_phperr,
};

fn class_of(e: &PhpError) -> String {
    match e {
        PhpError::Exception { class, .. } => class.clone(),
        PhpError::Custom(m) => format!("custom:{m}"),
    }
}

#[test]
fn zero_is_success() {
    assert!(atomic_rc_to_result(0, String::new()).is_ok());
    assert!(counter_rc_to_result(0, String::new()).is_ok());
    assert!(map_rc_to_result(0, String::new()).is_ok());
}

#[test]
fn codes_name_the_exception() {
    assert_eq!(class_of(&atomic_rc_to_result(-10, "m".into()).unwrap_err()), "OxPHP\\Shared\\UninitializedException");
    assert_eq!(class_of(&atomic_rc_to_result(-9, "m".into()).unwrap_err()), "OxPHP\\Shared\\SharedException");
    assert_eq!(class_of(&counter_rc_to_result(-9, "m".into()).unwrap_err()), "OxPHP\\Shared\\CycleException");
    assert_eq!(class_of(&map_rc_to_result(-11, "m".into()).unwrap_err()), "OxPHP\\Shared\\ValueTooLargeException");
    assert_eq!(class_of(&map_channel_rc(-6)), "OxPHP\\Shared\\ClosedException");
    assert_eq!(class_of(&map_channel_rc(-7)), "OxPHP\\Shared\\OperationTimeoutException");
    assert_eq!(class_of(&mutex_rc_to_phperr(-99, "m".into())), "OxPHP\\Shared\\CorruptedMutexException");
    assert_eq!(class_of(&mutex_rc_to_phperr(-8, "m".into())), "OxPHP\\Shared\\DeadlockException");
    assert_eq!(class_of(&pool_rc_to_phperr(-7, "ctx", "m".into())), "OxPHP\\Shared\\TimeoutException");
    assert_eq!(class_of(&err_to_phperr(SharedError::Poisoned, "m".into())), "OxPHP\\Shared\\PoisonedException");
    assert_eq!(class_of(&err_to_phperr(SharedError::Generic, "m".into())), "OxPHP\\Shared\\SharedException");
}

#[test]
fn messages_are_carried() {
    match counter_rc_to_result(-3, "wrong type".into()).unwrap_err() {
        PhpError::Exception { message, code, .. } => {
            assert_eq!(message, "wrong type");
            assert_eq!(code, 0);
        }
        other => panic!("{other:?}"),
    }
}

#[test]
fn pool_generic_code_passes_the_pending_exception_through() {
    match pool_rc_to_phperr(-1, "Shared\\Pool::acquire", "factory threw".into()) {
        PhpError::Custom(m) => assert_eq!(m, "Shared\\Pool::acquire: factory threw"),
        other => panic!("{other:?}"),
    }
}

#[test]
fn error_codes() {
    assert_eq!(SharedError::Generic.code(), -1);
    assert_eq!(SharedError::Closed.code(), -6);
    assert_eq!(SharedError::Timeout.code(), -7);
    assert_eq!(SharedError::ValueTooLarge.code(), -11);
    assert_eq!(SharedError::Panicked.code(), -99);
}

#[test]
fn fixed_exceptions() {
    match type_error("bad arg") {
        PhpError::Exception { class, message, code } => {
            assert_eq!(class, "OxPHP\\Shared\\TypeException");
            assert_eq!(message, "bad arg");
            assert_eq!(code, 0);
        }
        other => panic!("{other:?}"),
    }
    match throw_clone_forbidden() {
        PhpError::Exception { class, message, .. } => {
            assert_eq!(class, "OxPHP\\Shared\\SharedException");
            assert!(message.starts_with("Shared instances cannot be cloned."));
        }
        other => panic!("{other:?}"),
    }
}
