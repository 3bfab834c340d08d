use object_store::connect::{
    ConnectRounds, ConnectStage, GATEWAY_CONNECT_ROUNDS, NODE_CONNECT_ROUNDS,
    REPLICATION_CONNECT_ROUNDS,
};
use object_store::retry::{Backoff, CallStage, CallWithRetryError, RetryCall, RetryConfig};

#[test]
fn pauses_grow() {
    let mut backoff = Backoff::new(5);
    let delays: Vec<Option<u64>> = (0..7).map(|_| backoff.on_failed()).collect();
    assert_eq!(
        delays,
        vec![Some(100), Some(500), Some(2000), Some(2000), Some(2000), None, None]
    );
    assert_eq!(Backoff::new(0).on_failed(), None);
}

/// Makes a call whose attempts end as given: with an error, or a timeout.
fn call(config: RetryConfig, outcomes: &[Option<&str>]) -> (usize, CallWithRetryError<String>) {
    let mut attempts = 0;
    let mut call: RetryCall<String> = RetryCall::start(config);
    loop {
        match call.stage() {
            CallStage::Attempt => {
                match outcomes[attempts] {
                    Some(error) => call.on_error(error.to_string()),
                    None => call.on_timeout(),
                }
                attempts += 1;
            }
            CallStage::Pause => call.on_paused(),
            CallStage::GiveUp => return (attempts, call.into_error()),
        }
    }
}

#[test]
fn calls_are_given_up_after_all_attempts() {
    let config = RetryConfig::default();
    assert_eq!(config.max_attempts, 3);
    assert_eq!(config.timeout_per_attempt, 10_000);
    assert_eq!(config.delay_between_attempts, 2_000);

    let (attempts, error) = call(config, &[Some("a"), Some("b"), Some("c")]);
    assert_eq!((attempts, error.message().as_str()), (3, "operation failed: c"));
    let (attempts, error) = call(config, &[None, None, None]);
    assert_eq!((attempts, error.message().as_str()), (3, "all attempts timed out"));
    let (attempts, error) = call(config, &[None, Some("b"), None]);
    assert_eq!((attempts, error.message().as_str()), (3, "operation failed: b"));
    let none = RetryConfig { max_attempts: 0, ..config };
    let (attempts, error) = call(none, &[]);
    assert_eq!((attempts, error.message().as_str()), (0, "all attempts timed out"));
}

fn search(urls: &[&str], rounds: u32, answers_at: Option<usize>) -> (Vec<String>, u32, bool) {
    let urls = urls.iter().map(|u| u.to_string()).collect();
    let mut search = ConnectRounds::start(urls, rounds);
    let (mut tried, mut pauses) = (Vec::new(), 0);
    loop {
        match search.stage() {
            ConnectStage::Try => {
                tried.push(search.url().to_string());
                if answers_at == Some(tried.len()) {
                    search.on_connected();
                } else {
                    search.on_failed();
                }
            }
            ConnectStage::Pause => {
                pauses += 1;
                search.on_paused();
            }
            ConnectStage::Connected => {
                assert_eq!(search.url(), tried[tried.len() - 1]);
                return (tried, pauses, true);
            }
            ConnectStage::GiveUp => return (tried, pauses, false),
        }
    }
}

#[test]
fn every_address_is_tried_in_every_round() {
    let (tried, pauses, found) = search(&["a", "b"], 3, None);
    assert_eq!(tried, vec!["a", "b", "a", "b", "a", "b"]);
    assert_eq!((pauses, found), (2, false));
    let (tried, pauses, found) = search(&["a", "b"], 3, Some(4));
    assert_eq!(tried, vec!["a", "b", "a", "b"]);
    assert_eq!((pauses, found), (1, true));
    let (tried, pauses, found) = search(&[], 5, None);
    assert!(tried.is_empty());
    assert_eq!((pauses, found), (4, false));
    assert_eq!(
        (GATEWAY_CONNECT_ROUNDS, NODE_CONNECT_ROUNDS, REPLICATION_CONNECT_ROUNDS),
        (6, 6, 5)
    );
}

#[test]
fn calls_keep_their_timeout_and_pause() {
    let config = RetryConfig {
        max_attempts: 3,
        timeout_per_attempt: 5_000,
        delay_between_attempts: 2_000,
    };
    let mut call: RetryCall<String> = RetryCall::start(config);
    let mut pauses = 0;
    while call.stage() != CallStage::GiveUp {
        assert_eq!((call.timeout(), call.delay()), (5_000, 2_000));
        match call.stage() {
            CallStage::Attempt => call.on_timeout(),
            _ => {
                pauses += 1;
                call.on_paused();
            }
        }
    }
    assert_eq!(pauses, 2);
}

#[test]
fn the_first_address_that_answers_is_taken() {
    let urls: Vec<String> = ["a", "b"].iter().map(|s| s.to_string()).collect();
    let mut search = ConnectRounds::start(urls, 3);
    let mut tried = Vec::new();
    loop {
        match search.stage() {
            ConnectStage::Try => {
                tried.push(search.url().to_string());
                if tried.len() == 4 {
                    search.on_connected();
                } else {
                    search.on_failed();
                }
            }
            ConnectStage::Pause => search.on_paused(),
            ConnectStage::Connected | ConnectStage::GiveUp => break,
        }
    }
    assert_eq!(tried, vec!["a", "b", "a", "b"]);
    assert_eq!(search.stage(), ConnectStage::Connected);
    assert_eq!(search.url(), "b");
}
