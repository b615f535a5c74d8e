use taskmr::error::UseCaseError;

#[test]
fn test_not_found() {
    assert_eq!(
        UseCaseError::NotFound(2).message(),
        "the task for id `2` is not found".to_owned()
    );
}

#[test]
fn test_already_closed() {
    assert_eq!(
        UseCaseError::AlreadyClosed(3).message(),
        "the task for id `3` has already been closed".to_owned()
    );
}
