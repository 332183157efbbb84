use kce::error::{KceError, MetricError, StorageError};

#[test]
fn kce_error_display_storage() {
    let err = KceError::Storage(StorageError::NotFound);
    assert_eq!(err.message(), "storage: key not found");
}

#[test]
fn kce_error_display_dimension_mismatch() {
    let err = KceError::DimensionMismatch {
        query: 3,
        dataset: 4,
    };
    assert!(err.message().contains("3"));
    assert!(err.message().contains("4"));
}

#[test]
fn storage_error_from_io() {
    let io_err = std::io::Error::new(std::io::ErrorKind::NotFound, "gone");
    let err: StorageError = io_err.into();
    assert!(err.message().contains("gone"));
}

#[test]
fn metric_error_display() {
    let err = MetricError::SinkhornNotConverged { iterations: 100 };
    assert!(err.message().contains("100"));
}

#[test]
fn error_texts_exact() {
    assert_eq!(
        KceError::DimensionMismatch { query: 3, dataset: 4 }.message(),
        "retrieval: dimension mismatch (query=3, dataset=4)"
    );
    assert_eq!(KceError::MrnaExpired { ttl_ms: 5000 }.message(), "mRNA expired (ttl=5000ms)");
    assert_eq!(KceError::CircuitOpen.message(), "circuit breaker open");
    assert_eq!(
        KceError::Storage(StorageError::ChecksumFailure { page_id: 7, expected: 0xdeadbeef, actual: 1 })
            .message(),
        "storage: checksum failure on page 7: expected 0xdeadbeef, got 0x00000001"
    );
    let wrapped = KceError::PipelineFailure {
        stage: "validate",
        source: Box::new(KceError::Validation("query vector is empty".to_string())),
    };
    assert_eq!(
        wrapped.message(),
        "pipeline failed at stage 'validate': validation: query vector is empty"
    );
}

#[test]
fn from_conversions_wrap() {
    let e: KceError = MetricError::SinkhornNotConverged { iterations: 3 }.into();
    assert!(matches!(e, KceError::Metric(MetricError::SinkhornNotConverged { iterations: 3 })));
    let e: KceError = StorageError::NotFound.into();
    assert!(matches!(e, KceError::Storage(StorageError::NotFound)));
}
