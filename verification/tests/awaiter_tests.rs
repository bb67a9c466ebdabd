use std::sync::atomic::{AtomicBool, Ordering};
use std::sync::Arc;

use broken_pipeline::text::decimal;
use broken_pipeline::{
    CallbackResumer, ConditionalAwaiter, CoroAwaiter, CoroResumer, FutureAwaiter, ScheduleError,
    SingleThreadAwaiter, SingleThreadResumer,
};

/// Registers the awaiter's wake-up token on a resumer; a resumer that already fired hands
/// the token back, and the awaiter counts it at once.
fn register<A: FnMut()>(handed_back: Option<usize>, mut notify: A) {
    if handed_back.is_some() {
        notify();
    }
}

#[test]
fn future_awaiter_resume_first() {
    let mut resumer: CallbackResumer<usize> = CallbackResumer::default();
    assert!(resumer.resume().is_empty());
    let mut awaiter = FutureAwaiter::new(1, vec![0usize]).unwrap();
    assert!(!awaiter.is_ready());
    register(resumer.add_callback(0), || {
        awaiter.notify_ready();
    });
    assert!(awaiter.is_ready());
}

#[test]
fn future_awaiter_becomes_ready_when_its_resumer_fires_later() {
    let mut resumer: CallbackResumer<usize> = CallbackResumer::default();
    let mut awaiter = FutureAwaiter::new(1, vec![0usize]).unwrap();
    assert!(resumer.add_callback(0).is_none());
    assert!(!awaiter.is_ready());
    for _token in resumer.resume() {
        awaiter.notify_ready();
    }
    assert!(awaiter.is_ready());
    assert!(resumer.is_resumed());
}

#[test]
fn callback_resumer_runs_callbacks_immediately_after_resume() {
    let mut resumer: CallbackResumer<Box<dyn Fn()>> = CallbackResumer::default();
    let state = Arc::new(AtomicBool::new(false));
    let state_clone = Arc::clone(&state);
    let handed_back = resumer.add_callback(Box::new(move || {
        state_clone.store(true, Ordering::SeqCst);
    }));
    assert!(handed_back.is_none());

    assert!(!resumer.is_resumed());
    for callback in resumer.resume() {
        callback();
    }
    assert!(resumer.is_resumed());
    assert!(state.load(Ordering::SeqCst));
}

#[test]
fn callback_resumer_hands_back_late_callbacks_and_resumes_once() {
    let mut resumer: CallbackResumer<u32> = CallbackResumer::default();
    assert_eq!(resumer.add_callback(1), None);
    assert_eq!(resumer.add_callback(2), None);
    assert_eq!(resumer.resume(), vec![1, 2]);
    assert_eq!(resumer.add_callback(3), Some(3));
    assert!(resumer.resume().is_empty());
    assert!(resumer.is_resumed());
}

#[test]
fn conditional_awaiter_any_mode_unblocks_after_one_resumer() {
    let mut resumers: Vec<CallbackResumer<usize>> = (0..8).map(|_| CallbackResumer::default()).collect();
    let mut awaiter = ConditionalAwaiter::new(1, (0..8usize).collect()).unwrap();
    for (index, resumer) in resumers.iter_mut().enumerate() {
        assert!(resumer.add_callback(index).is_none());
    }

    for _token in resumers[3].resume() {
        awaiter.notify_ready();
    }

    assert!(awaiter.is_ready());
    assert!(resumers[3].is_resumed());
    assert!(!resumers[0].is_resumed());
    assert_eq!(awaiter.resumers().len(), 8);
}

#[test]
fn coro_resumer_and_awaiter_support_all_ready_mode() {
    let mut resumers: Vec<CoroResumer<usize>> = (0..4).map(|_| CoroResumer::default()).collect();
    let mut awaiter = CoroAwaiter::new(4, (0..4usize).collect()).unwrap();
    for (index, resumer) in resumers.iter_mut().enumerate() {
        assert!(resumer.add_callback(index).is_none());
    }

    for resumer in resumers.iter_mut() {
        assert!(!awaiter.is_ready());
        for _token in resumer.resume() {
            awaiter.notify_ready();
        }
    }

    assert!(awaiter.is_ready());
}

#[test]
fn single_thread_awaiter_waits_for_all_resumers() {
    let mut resumers: Vec<SingleThreadResumer<usize>> =
        (0..3).map(|_| SingleThreadResumer::default()).collect();
    let mut awaiter = SingleThreadAwaiter::new(3, (0..3usize).collect()).unwrap();
    for (index, resumer) in resumers.iter_mut().enumerate() {
        assert!(resumer.add_callback(index).is_none());
    }

    for resumer in resumers.iter_mut() {
        for _token in resumer.resume() {
            awaiter.notify_ready();
        }
    }

    assert!(awaiter.is_ready());
}

#[test]
fn awaiters_reject_empty_resumers_before_bad_counts() {
    let empty: Vec<usize> = Vec::new();
    let err = FutureAwaiter::new(0, empty.clone()).err().unwrap();
    assert_eq!(err, ScheduleError::EmptyResumers { awaiter: "FutureAwaiter" });
    assert_eq!(err.message(), "FutureAwaiter: empty resumers");
    let err = SingleThreadAwaiter::new(2, empty.clone()).err().unwrap();
    assert_eq!(err.message(), "SingleThreadAwaiter: empty resumers");
    let err = ConditionalAwaiter::new(1, empty.clone()).err().unwrap();
    assert_eq!(err.message(), "ConditionalAwaiter: empty resumers");
    let err = CoroAwaiter::new(1, empty).err().unwrap();
    assert_eq!(err.message(), "CoroAwaiter: empty resumers");
}

#[test]
fn awaiters_reject_a_zero_ready_count() {
    let err = CoroAwaiter::new(0, vec![7usize]).err().unwrap();
    assert_eq!(err, ScheduleError::InvalidReadyCount { awaiter: "CoroAwaiter", num_readies: 0 });
    assert_eq!(err.message(), "CoroAwaiter: num_readies must be > 0, got 0");
}

#[test]
fn awaiters_name_the_resumer_they_expect() {
    assert_eq!(
        FutureAwaiter::<usize>::unexpected_resumer().message(),
        "FutureAwaiter: unexpected resumer type, expected CallbackResumer"
    );
    assert_eq!(
        CoroAwaiter::<usize>::unexpected_resumer().message(),
        "CoroAwaiter: unexpected resumer type, expected CoroResumer"
    );
    assert_eq!(
        SingleThreadAwaiter::<usize>::unexpected_resumer().message(),
        "SingleThreadAwaiter: unexpected resumer type, expected SingleThreadResumer"
    );
}

#[test]
fn schedule_error_messages_match_their_variants() {
    assert_eq!(
        ScheduleError::UnexpectedAwaiterType { expected: "FutureAwaiter" }.message(),
        "unexpected awaiter type, expected FutureAwaiter"
    );
    assert_eq!(ScheduleError::TaskGroupThreadPanicked.message(), "task group thread panicked");
}

#[test]
fn decimal_writes_numbers_in_base_ten() {
    assert_eq!(decimal(0), "0");
    assert_eq!(decimal(7), "7");
    assert_eq!(decimal(10), "10");
    assert_eq!(decimal(1203), "1203");
}
