use lawpub::retry::{fetch_attempts, retry_wait_ms, RetrySource};

#[test]
fn retry_schedules_per_source() {
    assert_eq!(fetch_attempts(RetrySource::Egov), 3);
    assert_eq!(fetch_attempts(RetrySource::Kanpo), 4);
    assert_eq!(fetch_attempts(RetrySource::Kokkai), 5);
    assert_eq!(retry_wait_ms(RetrySource::Egov, 0), 1000);
    assert_eq!(retry_wait_ms(RetrySource::Egov, 2), 4000);
    assert_eq!(retry_wait_ms(RetrySource::Kanpo, 3), 8000);
    assert_eq!(retry_wait_ms(RetrySource::Kokkai, 1), 3000);
    assert_eq!(retry_wait_ms(RetrySource::Kokkai, 4), 24000);
}
