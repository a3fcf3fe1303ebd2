use bigtea_arch::expert_cache::{slice_key, ExpertCache};

#[test]
fn keys_do_not_collide_across_layers_tensors_or_experts() {
    let a = slice_key(3, 0, 7);
    assert_ne!(a, slice_key(3, 1, 7), "tensor must matter");
    assert_ne!(a, slice_key(4, 0, 7), "layer must matter");
    assert_ne!(a, slice_key(3, 0, 8), "expert must matter");
    assert_ne!(slice_key(42, 2, 255), slice_key(42, 2, 254));
}

#[test]
fn a_miss_then_an_offer_becomes_a_hit() {
    let mut c = ExpertCache::new(1024);
    let k = slice_key(0, 0, 1);
    assert!(c.request(k, 1).is_none());
    c.offer(k, &[7u8; 64]);
    assert_eq!(c.request(k, 1).as_deref(), Some(&[7u8; 64][..]));
    assert_eq!(c.stats().hits, 1);
    assert_eq!(c.stats().misses, 1);
    assert_eq!(c.bytes(), 64);
}

#[test]
fn a_rare_newcomer_cannot_displace_a_frequent_incumbent() {
    let mut c = ExpertCache::new(64);
    let hot = slice_key(0, 0, 1);
    for _ in 0..10 {
        c.request(hot, 1);
    }
    c.offer(hot, &[1u8; 64]);
    assert_eq!(c.bytes(), 64, "cache is now full");

    let cold = slice_key(0, 0, 2);
    c.request(cold, 1);
    c.offer(cold, &[2u8; 64]);

    assert_eq!(c.request(hot, 1).as_deref(), Some(&[1u8; 64][..]));
    assert_eq!(c.stats().evictions, 0, "nothing should have been evicted");
}

#[test]
fn a_frequent_newcomer_does_displace_a_rare_incumbent() {
    let mut c = ExpertCache::new(64);
    let cold = slice_key(0, 0, 1);
    c.request(cold, 1);
    c.offer(cold, &[1u8; 64]);

    let hot = slice_key(0, 0, 2);
    for _ in 0..10 {
        c.request(hot, 1);
    }
    c.offer(hot, &[2u8; 64]);

    assert_eq!(c.request(hot, 1).as_deref(), Some(&[2u8; 64][..]));
    assert_eq!(c.stats().evictions, 1);
}

#[test]
fn a_slice_larger_than_the_budget_is_refused_without_looping() {
    let mut c = ExpertCache::new(16);
    let k = slice_key(1, 1, 1);
    c.request(k, 1);
    c.offer(k, &[0u8; 64]);
    assert_eq!(c.bytes(), 0);
    assert_eq!(c.stats().admissions, 0);
}

#[test]
fn footprint_never_exceeds_the_budget() {
    let mut c = ExpertCache::new(256);
    for e in 0..64u32 {
        let k = slice_key(0, 0, e);
        for _ in 0..=e {
            c.request(k, 1);
        }
        c.offer(k, &[e as u8; 64]);
        assert!(c.bytes() <= c.budget(), "budget exceeded at expert {e}");
    }
    let stats = c.stats();
    let asked = stats.hits + stats.misses;
    assert!(asked > 0);
    assert!(stats.hits as f64 / asked as f64 >= 0.0);
}

#[test]
fn selections_not_requests_decide_who_stays() {
    let mut c = ExpertCache::new(64);
    let first = slice_key(0, 0, 1);
    let hot = slice_key(0, 0, 2);
    c.request(first, 1);
    c.offer(first, &[1u8; 64]);
    c.request(hot, 90);
    c.offer(hot, &[2u8; 64]);
    assert_eq!(
        c.request(hot, 1).as_deref(),
        Some(&[2u8; 64][..]),
        "the expert 90 tokens chose should have displaced the one 1 token chose"
    );
    assert_eq!(c.stats().evictions, 1);
}

#[test]
fn a_zero_weight_still_counts_once() {
    let mut c = ExpertCache::new(64);
    let k = slice_key(0, 0, 1);
    c.request(k, 0);
    c.request(k, 0);
    c.offer(k, &[3u8; 64]);
    assert_eq!(c.request(k, 1).as_deref(), Some(&[3u8; 64][..]));
}

#[test]
fn a_kept_slice_is_a_copy_of_what_was_offered() {
    let mut c = ExpertCache::new(16);
    let k = slice_key(9, 2, 3);
    let mut source = vec![1u8, 2, 3, 4];
    c.request(k, 2);
    c.offer(k, &source);
    source[0] = 99;
    assert_eq!(c.request(k, 1).as_deref(), Some(&[1u8, 2, 3, 4][..]));
    assert_eq!(c.uses(k), 3);
    assert_eq!(c.stats().bytes_saved, 4);
    assert_eq!(c.stats().admissions, 1);
}

#[test]
fn an_empty_budget_keeps_nothing() {
    let mut c = ExpertCache::new(0);
    let k = slice_key(0, 0, 0);
    assert!(c.can_request(k, 5));
    c.request(k, 5);
    c.offer(k, &[1u8]);
    assert_eq!(c.bytes(), 0);
    assert!(c.request(k, 1).is_none());
}

#[test]
fn a_second_offer_takes_the_place_of_the_first() {
    let mut c = ExpertCache::new(8);
    let k = slice_key(0, 1, 0);
    c.request(k, 1);
    c.offer(k, &[1u8; 4]);
    c.offer(k, &[2u8; 4]);
    assert_eq!(c.request(k, 1).as_deref(), Some(&[2u8; 4][..]));
    assert_eq!(c.bytes(), 8);
    assert_eq!(c.stats().admissions, 2);
}

#[test]
fn seeds_do_not_change_what_must_hold() {
    for seed in [1u64, 7, 0xDEAD_BEEF] {
        let mut c = ExpertCache::with_seed(128, seed);
        for e in 0..40u32 {
            let k = slice_key(1, 0, e);
            c.request(k, e + 1);
            c.offer(k, &[e as u8; 32]);
            assert!(c.bytes() <= 128);
        }
        assert!(c.stats().evictions > 0);
    }
}

#[test]
fn the_counts_are_the_whole_account() {
    let mut c = ExpertCache::new(100);
    let mut requests = 0;
    let mut served = 0;
    for round in 0..6u32 {
        for e in 0..12u32 {
            let k = slice_key(2, 1, e);
            requests += 1;
            match c.request(k, e % 5) {
                Some(bytes) => served += bytes.len() as u64,
                None => c.offer(k, &vec![e as u8; 10 + e as usize + round as usize]),
            }
        }
    }
    let s = c.stats();
    assert_eq!(s.hits + s.misses, requests);
    assert_eq!(s.bytes_saved, served);
    let held: Vec<usize> = (0..12)
        .filter_map(|e| c.request(slice_key(2, 1, e), 1).map(|b| b.len()))
        .collect();
    assert_eq!(s.admissions - s.evictions, held.len() as u64);
    assert_eq!(c.bytes(), held.iter().sum::<usize>());
    assert!(s.evictions > 0 && c.budget() == 100);
}

#[test]
fn a_weight_of_nothing_is_a_weight_of_one() {
    let mut zero = ExpertCache::new(64);
    let mut one = ExpertCache::new(64);
    let k = slice_key(0, 0, 1);
    assert_eq!(zero.request(k, 0), one.request(k, 1));
    assert_eq!(zero.uses(k), one.uses(k));
    assert_eq!(zero.uses(k), 1);
    assert_eq!(zero.stats(), one.stats());
}
