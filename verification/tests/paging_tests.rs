use catgirl_parser::api::paging::{CountStep, CounterPhase, PageCounter};

fn page_len(n: u64, m: u64, p: u64) -> u64 {
    if n >= p * m {
        m
    } else if n > (p - 1) * m {
        n - (p - 1) * m
    } else {
        0
    }
}

fn count(n: u64, m: u64, stop: bool) -> (u64, Vec<u64>) {
    let mut c = PageCounter::new(m, stop);
    let mut pages = vec![c.page()];
    loop {
        let len = page_len(n, m, c.page());
        assert!(c.can_step(len));
        match c.step(len) {
            CountStep::Fetch(p) => pages.push(p),
            CountStep::Finished(total) => return (total, pages),
        }
    }
}

#[test]
fn count_is_exact_for_many_sizes() {
    for m in [1u64, 2, 3, 7, 100, 1000] {
        for n in 0..600u64 {
            let (total, _) = count(n, m, true);
            assert_eq!(total, n, "n={} m={}", n, m);
            if n >= 1 {
                let (total, _) = count(n, m, false);
                assert_eq!(total, n, "n={} m={}", n, m);
            }
        }
    }
}

#[test]
fn count_probe_sequence() {
    assert_eq!(count(250, 100, true).1, vec![1, 2, 4, 3, 4, 3]);
    assert_eq!(count(50, 100, true).1, vec![1]);
    assert_eq!(count(100, 100, true).1, vec![1, 2, 2, 1]);
    assert_eq!(count(0, 100, true).1, vec![1]);
}

#[test]
fn count_of_large_board() {
    let (total, pages) = count(123_456_789, 1000, false);
    assert_eq!(total, 123_456_789);
    // At most 2 * bits(n / page size) + 2 probes: 123_456 has 17 binary digits.
    assert!(pages.len() <= 36);
}

#[test]
fn empty_first_page_without_stop_narrows_to_zero() {
    let mut c = PageCounter::new(1000, false);
    assert_eq!(c.step(0), CountStep::Fetch(1));
    assert_eq!(c.step(0), CountStep::Fetch(0));
    assert_eq!(c.phase, CounterPhase::LastPage);
    assert!(!c.can_step(0));
}

#[test]
fn overflowing_steps_are_refused() {
    let c = PageCounter {
        page_size: 10,
        empty_first_page_means_none: true,
        phase: CounterPhase::Doubling,
        page: u64::MAX / 2 + 1,
        total: 0,
    };
    assert!(!c.can_step(10));
    let done = PageCounter { phase: CounterPhase::Done, ..c };
    assert!(!done.can_step(1));
}

#[test]
fn probe_count_is_logarithmic() {
    for m in [1u64, 10, 1000] {
        for n in [1u64, 2, 1000, 65_535, 1 << 20, (1 << 20) + 1, 999_999_999] {
            let (total, pages) = count(n, m, true);
            assert_eq!(total, n);
            let bits = 64 - (n / m).leading_zeros() as usize;
            assert!(pages.len() <= 2 * bits + 2, "n={} m={}", n, m);
            if n < m {
                assert_eq!(pages.len(), 1);
            }
        }
    }
}
