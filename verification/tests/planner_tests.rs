use condow_core::{calc_num_parts, plan_requests, InclusiveRange};
use condow_core::range_stream::request_for;

#[test]
fn test_calc_num_parts() {
    let part_size = 1;
    let start = 0;
    let end_incl = 0;
    assert_eq!(
        calc_num_parts(InclusiveRange(start, end_incl), part_size),
        1,
        "size={} start={}, end_incl={}",
        part_size,
        start,
        end_incl
    );

    let part_size = 1;
    let start = 0;
    let end_incl = 1;
    assert_eq!(
        calc_num_parts(InclusiveRange(start, end_incl), part_size),
        2,
        "size={} start={}, end_incl={}",
        part_size,
        start,
        end_incl
    );

    let part_size = 1;
    let start = 1;
    let end_incl = 3;
    assert_eq!(
        calc_num_parts(InclusiveRange(start, end_incl), part_size),
        3,
        "size={} start={}, end_incl={}",
        part_size,
        start,
        end_incl
    );

    let part_size = 2;
    let start = 1;
    let end_incl = 3;
    assert_eq!(
        calc_num_parts(InclusiveRange(start, end_incl), part_size),
        2,
        "size={} start={}, end_incl={}",
        part_size,
        start,
        end_incl
    );

    let part_size = 3;
    let start = 1;
    let end_incl = 3;
    assert_eq!(
        calc_num_parts(InclusiveRange(start, end_incl), part_size),
        1,
        "size={} start={}, end_incl={}",
        part_size,
        start,
        end_incl
    );

    let part_size = 4;
    let start = 1;
    let end_incl = 3;
    assert_eq!(
        calc_num_parts(InclusiveRange(start, end_incl), part_size),
        1,
        "size={} start={}, end_incl={}",
        part_size,
        start,
        end_incl
    );
}

#[test]
fn test_n_parts_vs_stream_count() {
    for part_size in 1..30 {
        for start in 0..20 {
            for len in 0..20 {
                let end_incl = start + len;
                let range = InclusiveRange(start, end_incl);
                let n_parts = calc_num_parts(range, part_size);
                let items = plan_requests(range, part_size);

                assert_eq!(
                    items.len(),
                    n_parts,
                    "count: size={} start={}, end_incl={}",
                    part_size,
                    start,
                    end_incl
                );
                let total_len: u64 = items.iter().map(|r| r.len()).sum();
                assert_eq!(
                    total_len,
                    len + 1,
                    "len: size={} start={}, end_incl={}",
                    part_size,
                    start,
                    end_incl
                );
                assert_eq!(
                    items[0].part, 0,
                    "len: size={} start={}, end_incl={}",
                    part_size, start, end_incl
                );
                assert_eq!(
                    items[items.len() - 1].part,
                    n_parts - 1,
                    "len: size={} start={}, end_incl={}",
                    part_size,
                    start,
                    end_incl
                );
            }
        }
    }
}

#[test]
fn planner_splits_three_bytes_into_two_parts() {
    // [1, 3] with a part size of 2: two requests, total length 3
    let range = InclusiveRange(1, 3);
    let requests = plan_requests(range, 2);
    assert_eq!(requests.len(), 2);
    assert_eq!(calc_num_parts(range, 2), 2);
    assert_eq!(requests[0].part, 0);
    assert_eq!(requests[0].start, 1);
    assert_eq!(requests[0].end_incl, 2);
    assert_eq!(requests[1].part, 1);
    assert_eq!(requests[1].start, 3);
    assert_eq!(requests[1].end_incl, 3);
    let total: u64 = requests.iter().map(|r| r.len()).sum();
    assert_eq!(total, 3);
}

#[test]
fn planner_with_large_part_size_yields_one_full_part() {
    // a part size at least the interval's length: one part, the whole interval
    let range = InclusiveRange(4, 9);
    for part_size in [6, 7, 100, u64::MAX] {
        let requests = plan_requests(range, part_size);
        assert_eq!(requests.len(), 1);
        assert_eq!(requests[0].part, 0);
        assert_eq!(requests[0].start, 4);
        assert_eq!(requests[0].end_incl, 9);
    }
}

#[test]
fn planner_requests_are_adjacent() {
    let range = InclusiveRange(5, 104);
    let requests = plan_requests(range, 7);
    assert_eq!(requests[0].start, 5);
    assert_eq!(requests[requests.len() - 1].end_incl, 104);
    for k in 1..requests.len() {
        assert_eq!(requests[k].start, requests[k - 1].end_incl + 1);
        assert_eq!(requests[k].part, k);
    }
    for r in &requests {
        assert!(r.len() <= 7);
    }
}

#[test]
fn planner_at_the_top_of_the_address_space() {
    let range = InclusiveRange(u64::MAX - 5, u64::MAX);
    let requests = plan_requests(range, 4);
    assert_eq!(requests.len(), 2);
    assert_eq!(requests[0].start, u64::MAX - 5);
    assert_eq!(requests[0].end_incl, u64::MAX - 2);
    assert_eq!(requests[1].start, u64::MAX - 1);
    assert_eq!(requests[1].end_incl, u64::MAX);
}

#[test]
fn request_for_matches_plan() {
    let range = InclusiveRange(5, 104);
    let requests = plan_requests(range, 7);
    for k in 0..requests.len() {
        assert_eq!(request_for(range, 7, k), requests[k]);
    }
}
