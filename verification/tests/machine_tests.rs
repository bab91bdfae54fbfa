use condow_core::{
    needs_size_request, start_download, BufferSize, ClosedRange, Config, CondowError,
    DownloadRange, MaxConcurrency, OpenRange, PartPayload, PartSizeBytes,
};

const CONTENT: &[u8] = b"abcdefghijklmnopqrstuvwxyz";

/// Drives a download to completion against an in-memory blob, completing
/// fetches in reverse admission order so that reassembly has work to do.
fn run_download(
    range: DownloadRange,
    config: Config,
    content: &[u8],
) -> Result<Option<Vec<u8>>, CondowError> {
    let size = Some(content.len() as u64);
    let mut machine = match start_download(range, size, config)? {
        None => return Ok(None),
        Some(m) => m,
    };
    let mut pending: Vec<PartPayload> = Vec::new();
    let mut out: Vec<u8> = Vec::new();
    loop {
        if machine.is_finished() {
            return Ok(Some(out));
        }
        if let Some(chunk) = machine.next_chunk() {
            out.extend_from_slice(&chunk);
            continue;
        }
        if machine.can_admit() {
            let req = machine.admit_part();
            let bytes = content[req.start as usize..=req.end_incl as usize].to_vec();
            pending.push(PartPayload {
                part: req.part,
                bytes,
            });
            continue;
        }
        // complete the youngest acceptable fetch first, to exercise
        // out-of-order arrival
        let mut accepted = false;
        for idx in (0..pending.len()).rev() {
            if machine.can_accept(pending[idx].part) {
                let payload = pending.remove(idx);
                machine.accept_completion(payload)?;
                accepted = true;
                break;
            }
        }
        if accepted {
            continue;
        }
        if let Some(err) = machine.failure() {
            return Err(err);
        }
        panic!("download stalled");
    }
}

fn small_parts_config() -> Config {
    Config::default()
        .part_size_bytes(PartSizeBytes::new(2))
        .max_concurrency(MaxConcurrency::new(4))
}

#[test]
fn download_full() {
    let data = run_download((..).into(), Config::default(), CONTENT)
        .unwrap()
        .unwrap();
    assert_eq!(&data[..], b"abcdefghijklmnopqrstuvwxyz");
}

#[test]
fn download_to() {
    let data = run_download((..5).into(), Config::default(), CONTENT)
        .unwrap()
        .unwrap();
    assert_eq!(&data[..], b"abcde");
}

#[test]
fn download_to_end() {
    let data = run_download((..=26).into(), Config::default(), CONTENT)
        .unwrap()
        .unwrap();
    assert_eq!(&data[..], b"abcdefghijklmnopqrstuvwxyz");
}

#[test]
fn download_from() {
    let data = run_download((10..).into(), Config::default(), CONTENT)
        .unwrap()
        .unwrap();
    assert_eq!(&data[..], b"klmnopqrstuvwxyz");
}

#[test]
fn download_from_to() {
    let data = run_download((1..11).into(), Config::default(), CONTENT)
        .unwrap()
        .unwrap();
    assert_eq!(&data[..], b"bcdefghijk");
}

#[test]
fn download_single_byte() {
    let data = run_download((25..=25).into(), Config::default(), CONTENT)
        .unwrap()
        .unwrap();
    assert_eq!(&data[..], b"z");
}

#[test]
fn download_full_in_small_parts() {
    let data = run_download((..).into(), small_parts_config(), CONTENT)
        .unwrap()
        .unwrap();
    assert_eq!(&data[..], b"abcdefghijklmnopqrstuvwxyz");
}

#[test]
fn download_empty_range_is_no_download() {
    let result = run_download((4..4).into(), Config::default(), CONTENT).unwrap();
    assert_eq!(result, None);
}

#[test]
fn download_of_empty_blob_is_no_download() {
    let result = run_download((..).into(), Config::default(), b"").unwrap();
    assert_eq!(result, None);
}

#[test]
fn download_rejects_invalid_range() {
    let result = run_download((10..3).into(), Config::default(), CONTENT);
    assert_eq!(result, Err(CondowError::InvalidRange));
}

#[test]
fn download_rejects_invalid_config() {
    let config = Config::default().part_size_bytes(PartSizeBytes::new(0));
    let result = run_download((..).into(), config, CONTENT);
    assert_eq!(result, Err(CondowError::InvalidConfig));
}

#[test]
fn open_range_without_size_is_an_error() {
    match start_download((..).into(), None, Config::default()) {
        Err(e) => assert_eq!(e, CondowError::SizeUnavailable),
        Ok(_) => panic!("an open range without a size must fail"),
    }
}

#[test]
fn closed_range_without_size_resolves_unclamped() {
    let machine = start_download((1..11).into(), None, Config::default())
        .unwrap()
        .unwrap();
    assert_eq!(machine.range.0, 1);
    assert_eq!(machine.range.1, 10);
}

#[test]
fn size_oracle_decides_per_range_kind() {
    let open = DownloadRange::Open(OpenRange::Full);
    let closed = DownloadRange::Closed(ClosedRange::To(10));
    assert!(needs_size_request(&open, true));
    assert!(needs_size_request(&open, false));
    assert!(needs_size_request(&closed, true));
    assert!(!needs_size_request(&closed, false));
}

#[test]
fn concurrency_stays_at_the_cap() {
    // 13 parts of 2 bytes, at most 4 in flight
    let config = small_parts_config();
    let mut machine = start_download((..).into(), Some(26), config).unwrap().unwrap();
    assert_eq!(machine.num_parts, 13);
    while machine.can_admit() {
        machine.admit_part();
        assert!(machine.in_flight_count() <= 4);
    }
    assert_eq!(machine.in_flight_count(), 4);
}

#[test]
fn backpressure_holds_one_unordered_part() {
    // buffer_size 1, max_concurrency 4; part 3 completes before part 0
    let config = small_parts_config().buffer_size(BufferSize::new(1));
    let mut machine = start_download((..).into(), Some(26), config).unwrap().unwrap();
    let r0 = machine.admit_part();
    let r1 = machine.admit_part();
    let _r2 = machine.admit_part();
    let r3 = machine.admit_part();
    assert!(!machine.can_admit());

    // part 3 arrives first and takes the only buffer slot
    assert!(machine.can_accept(r3.part));
    machine
        .accept_completion(PartPayload {
            part: r3.part,
            bytes: CONTENT[6..8].to_vec(),
        })
        .unwrap();
    assert_eq!(machine.buffered_count(), 1);

    // part 1 is done too, but may not be pulled while the buffer is full
    assert!(!machine.can_accept(r1.part));
    // and nothing can be emitted: part 0 has not arrived
    assert_eq!(machine.next_chunk(), None);

    // part 0 may always pass through, and the consumer receives it first
    assert!(machine.can_accept(r0.part));
    machine
        .accept_completion(PartPayload {
            part: r0.part,
            bytes: CONTENT[0..2].to_vec(),
        })
        .unwrap();
    let first = machine.next_chunk().unwrap();
    assert_eq!(&first[..], b"ab");
    // only the completed-unordered part 3 is still held
    assert_eq!(machine.buffered_count(), 1);
}

#[test]
fn failure_delivers_ordered_prefix_then_error() {
    // 5 parts of 2 bytes over 10 bytes; the client fails on part 2
    let config = Config::default()
        .part_size_bytes(PartSizeBytes::new(2))
        .max_concurrency(MaxConcurrency::new(5))
        .buffer_size(BufferSize::new(4));
    let content = &CONTENT[0..10];
    let mut machine = start_download((..).into(), Some(10), config).unwrap().unwrap();
    assert_eq!(machine.num_parts, 5);
    let mut requests = Vec::new();
    while machine.can_admit() {
        requests.push(machine.admit_part());
    }
    assert_eq!(requests.len(), 5);

    // parts 0 and 1 complete
    for req in &requests[0..2] {
        machine
            .accept_completion(PartPayload {
                part: req.part,
                bytes: content[req.start as usize..=req.end_incl as usize].to_vec(),
            })
            .unwrap();
    }
    // part 2 fails; parts 3 and 4 are cancelled
    machine.on_fetch_error();
    assert_eq!(machine.failure(), Some(CondowError::ClientFetch));
    assert_eq!(machine.in_flight_count(), 0);
    assert!(!machine.can_admit());

    // the ordered prefix still comes out, then the stream ends with the error
    assert_eq!(machine.next_chunk().as_deref(), Some(&b"ab"[..]));
    assert_eq!(machine.next_chunk().as_deref(), Some(&b"cd"[..]));
    assert_eq!(machine.next_chunk(), None);
    assert!(!machine.is_finished());
    assert_eq!(machine.failure(), Some(CondowError::ClientFetch));
}

#[test]
fn short_read_fails_the_download() {
    let mut machine = start_download((..).into(), Some(26), Config::default())
        .unwrap()
        .unwrap();
    let req = machine.admit_part();
    let result = machine.accept_completion(PartPayload {
        part: req.part,
        bytes: CONTENT[0..10].to_vec(),
    });
    assert_eq!(result, Err(CondowError::ShortRead));
    assert_eq!(machine.failure(), Some(CondowError::ShortRead));
    assert_eq!(machine.in_flight_count(), 0);
}

#[test]
fn over_read_fails_the_download() {
    let config = Config::default().part_size_bytes(PartSizeBytes::new(2));
    let mut machine = start_download((..).into(), Some(26), config).unwrap().unwrap();
    let req = machine.admit_part();
    let result = machine.accept_completion(PartPayload {
        part: req.part,
        bytes: CONTENT[0..3].to_vec(),
    });
    assert_eq!(result, Err(CondowError::OverRead));
    assert_eq!(machine.failure(), Some(CondowError::OverRead));
}

#[test]
fn cancel_clears_all_work() {
    let config = small_parts_config();
    let mut machine = start_download((..).into(), Some(26), config).unwrap().unwrap();
    let r0 = machine.admit_part();
    machine.admit_part();
    machine
        .accept_completion(PartPayload {
            part: r0.part,
            bytes: CONTENT[0..2].to_vec(),
        })
        .unwrap();
    machine.cancel();
    assert_eq!(machine.in_flight_count(), 0);
    assert_eq!(machine.buffered_count(), 0);
    assert!(!machine.can_admit());
}
