use condow_core::{
    AlwaysGetSize, BufferSize, BuffersFullDelay, Config, CondowError, Gibi, Giga, Kibi, Kilo,
    MaxConcurrency, Mebi, Mega, Millis, PartSizeBytes,
};

#[test]
fn config_defaults() {
    let config = Config::default();
    assert_eq!(config.part_size_bytes, PartSizeBytes::new(2 * 1024 * 1024));
    assert_eq!(config.max_concurrency, MaxConcurrency::new(64));
    assert_eq!(config.buffer_size, BufferSize::new(2));
    assert_eq!(config.buffers_full_delay.into_inner(), 10);
    assert_eq!(config.always_get_size, AlwaysGetSize::new(true));
}

#[test]
fn config_builders_replace_fields() {
    let config = Config::default()
        .part_size_bytes(PartSizeBytes::new(1000))
        .max_concurrency(MaxConcurrency::new(4))
        .buffer_size(BufferSize::new(1))
        .buffers_full_delay(BuffersFullDelay::from(Millis(25)))
        .always_get_size(AlwaysGetSize::new(false));
    assert_eq!(config.part_size_bytes, PartSizeBytes::new(1000));
    assert_eq!(config.max_concurrency, MaxConcurrency::new(4));
    assert_eq!(config.buffer_size, BufferSize::new(1));
    assert_eq!(config.buffers_full_delay, BuffersFullDelay(25));
    assert_eq!(config.always_get_size, AlwaysGetSize::new(false));
}

#[test]
fn validated_accepts_default() {
    let config = Config::default();
    assert_eq!(config.validated(), Ok(config));
}

#[test]
fn validated_rejects_zero_part_size() {
    let config = Config::default().part_size_bytes(PartSizeBytes::new(0));
    assert_eq!(config.validated(), Err(CondowError::InvalidConfig));
}

#[test]
fn validated_rejects_zero_concurrency() {
    let config = Config::default().max_concurrency(MaxConcurrency::new(0));
    assert_eq!(config.validated(), Err(CondowError::InvalidConfig));
}

#[test]
fn unit_values() {
    assert_eq!(Kilo(5).value(), 5_000);
    assert_eq!(Mega(5).value(), 5_000_000);
    assert_eq!(Giga(5).value(), 5_000_000_000);
    assert_eq!(Kibi(5).value(), 5 * 1024);
    assert_eq!(Mebi(5).value(), 5 * 1024 * 1024);
    assert_eq!(Gibi(5).value(), 5 * 1024 * 1024 * 1024);
    assert_eq!(PartSizeBytes::from(Mebi(2).value()), PartSizeBytes::new(2097152));
    assert_eq!(u64::from(PartSizeBytes::new(7)), 7);
}

#[test]
fn parse_part_size_plain_bytes() {
    assert_eq!(PartSizeBytes::parse("500"), Ok(PartSizeBytes::new(500)));
    assert_eq!(PartSizeBytes::parse("0"), Ok(PartSizeBytes::new(0)));
}

#[test]
fn parse_part_size_with_units() {
    assert_eq!(PartSizeBytes::parse("64k"), Ok(PartSizeBytes::new(64_000)));
    assert_eq!(PartSizeBytes::parse("3M"), Ok(PartSizeBytes::new(3_000_000)));
    assert_eq!(
        PartSizeBytes::parse("2G"),
        Ok(PartSizeBytes::new(2_000_000_000))
    );
    assert_eq!(PartSizeBytes::parse("64Ki"), Ok(PartSizeBytes::new(65_536)));
    assert_eq!(
        PartSizeBytes::parse("2Mi"),
        Ok(PartSizeBytes::new(2 * 1024 * 1024))
    );
    assert_eq!(
        PartSizeBytes::parse("1Gi"),
        Ok(PartSizeBytes::new(1024 * 1024 * 1024))
    );
}

#[test]
fn parse_part_size_rejects_bad_literals() {
    assert_eq!(PartSizeBytes::parse(""), Err(CondowError::InvalidConfig));
    assert_eq!(PartSizeBytes::parse("Mi"), Err(CondowError::InvalidConfig));
    assert_eq!(PartSizeBytes::parse("5X"), Err(CondowError::InvalidConfig));
    assert_eq!(PartSizeBytes::parse("5kB"), Err(CondowError::InvalidConfig));
    assert_eq!(PartSizeBytes::parse("5 k"), Err(CondowError::InvalidConfig));
    assert_eq!(PartSizeBytes::parse("-5"), Err(CondowError::InvalidConfig));
}

#[test]
fn parse_part_size_rejects_overflow() {
    // one digit past u64::MAX
    assert_eq!(
        PartSizeBytes::parse("184467440737095516160"),
        Err(CondowError::InvalidConfig)
    );
    // fits as digits, overflows with the unit applied
    assert_eq!(
        PartSizeBytes::parse("18446744073709551615k"),
        Err(CondowError::InvalidConfig)
    );
    // the largest plain value is accepted
    assert_eq!(
        PartSizeBytes::parse("18446744073709551615"),
        Ok(PartSizeBytes::new(u64::MAX))
    );
}

#[test]
fn parse_buffers_full_delay() {
    assert_eq!(BuffersFullDelay::parse("10"), Ok(BuffersFullDelay(10)));
    assert_eq!(BuffersFullDelay::parse("0"), Ok(BuffersFullDelay(0)));
    assert_eq!(BuffersFullDelay::parse(""), Err(CondowError::InvalidConfig));
    assert_eq!(
        BuffersFullDelay::parse("10ms"),
        Err(CondowError::InvalidConfig)
    );
    assert_eq!(
        BuffersFullDelay::parse("184467440737095516160"),
        Err(CondowError::InvalidConfig)
    );
}

#[test]
fn error_descriptions_are_distinct() {
    let kinds = [
        CondowError::InvalidRange,
        CondowError::InvalidConfig,
        CondowError::SizeUnavailable,
        CondowError::ClientFetch,
        CondowError::ShortRead,
        CondowError::OverRead,
    ];
    for (i, a) in kinds.iter().enumerate() {
        assert!(!a.describe().is_empty());
        for (j, b) in kinds.iter().enumerate() {
            if i != j {
                assert_ne!(a.describe(), b.describe());
            }
        }
    }
}
