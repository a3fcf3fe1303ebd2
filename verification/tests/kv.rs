use bigtea_arch::kv::{KvCache, KvError, KvRow, KvType};

fn cache() -> KvCache {
    KvCache::new(2, 4, 8)
}

/// The f16 bit pattern nearest to `x`, for the normal values used here.
fn half(x: f32) -> u16 {
    let bits = x.to_bits();
    let sign = ((bits >> 16) & 0x8000) as u16;
    let exp = ((bits >> 23) & 0xff) as i32 - 127;
    if x == 0.0 || exp < -14 {
        return sign;
    }
    let frac = bits & 0x7f_ffff;
    let mut out = (((exp + 15) as u32) << 10) | (frac >> 13);
    let rest = frac & 0x1fff;
    if rest > 0x1000 || (rest == 0x1000 && out & 1 == 1) {
        out += 1;
    }
    sign | out as u16
}

fn from_half(bits: u16) -> f32 {
    let sign = ((bits >> 15) & 1) as u32;
    let exp = ((bits >> 10) & 0x1f) as u32;
    let frac = (bits & 0x3ff) as u32;
    let f = if exp == 0 {
        sign << 31
    } else {
        (sign << 31) | ((exp + 112) << 23) | (frac << 13)
    };
    f32::from_bits(f)
}

fn at(bytes: &[u8], index: usize) -> f32 {
    from_half(u16::from_le_bytes([bytes[index * 2], bytes[index * 2 + 1]]))
}

fn halves(values: &[f32]) -> KvRow {
    KvRow::Halves(values.iter().map(|&v| half(v)).collect())
}

fn quants(values: &[f32]) -> KvRow {
    let mut scales = Vec::new();
    let mut out = Vec::new();
    for block in values.chunks(32) {
        let max = block.iter().fold(0f32, |a, v| a.max(v.abs()));
        let d = max / 127.0;
        let inv = if d > 0.0 { 1.0 / d } else { 0.0 };
        scales.push(half(d));
        for v in block {
            out.push((v * inv).round() as i8 as u8);
        }
    }
    KvRow::Quants { scales, quants: out }
}

#[test]
fn starts_empty_and_consistent() {
    let c = cache();
    assert!(c.is_empty());
    assert_eq!(c.per_position(), 32);
    assert!(c.is_consistent());
    assert_eq!(c.bytes(), 0);
}

#[test]
fn appending_grows_each_layer_independently() {
    let mut c = cache();
    let k = halves(&[1.0f32; 32]);
    let v = halves(&[2.0f32; 32]);
    c.push(0, &k, &v).expect("layer 0");
    c.push(1, &k, &v).expect("layer 1");
    c.advance();

    assert_eq!(c.len(), 1);
    assert!(c.is_consistent());
    assert_eq!(c.keys(0).len(), 32 * 2);
    assert_eq!(at(c.values(1), 0), 2.0);
    assert_eq!(c.bytes(), 2 * 2 * 32 * 2);
}

#[test]
fn history_accumulates_in_order() {
    let mut c = cache();
    for step in 0..3 {
        let k = halves(&[step as f32; 32]);
        c.push(0, &k, &k).expect("push");
        c.push(1, &k, &k).expect("push");
        c.advance();
    }
    assert_eq!(c.len(), 3);
    let keys = c.keys(0);
    assert_eq!(keys.len(), 96 * 2);
    assert_eq!(at(keys, 0), 0.0);
    assert_eq!(at(keys, 32), 1.0);
    assert_eq!(at(keys, 64), 2.0);
}

#[test]
fn a_wrong_sized_append_is_refused() {
    let mut c = cache();
    let short = halves(&[1.0f32; 16]);
    assert!(c.push(0, &short, &short).is_err());
    assert!(
        c.is_consistent(),
        "a refused push must not mutate the cache"
    );
}

#[test]
fn inconsistency_is_detected() {
    let mut c = cache();
    let k = halves(&[1.0f32; 32]);
    c.push(0, &k, &k).expect("layer 0 only");
    c.advance();
    assert!(!c.is_consistent(), "a lagging layer must be detected");
}

#[test]
fn q8_0_halves_the_bytes_and_survives_a_round_trip() {
    let mut f16 = KvCache::with_type(1, 2, 64, KvType::F16);
    let mut q8 = KvCache::with_type(1, 2, 64, KvType::Q8_0);
    let vals: Vec<f32> = (0..128).map(|i| (i as f32 - 64.0) / 40.0).collect();
    f16.push(0, &halves(&vals), &halves(&vals)).expect("push");
    q8.push(0, &quants(&vals), &quants(&vals)).expect("push");
    f16.advance();
    q8.advance();
    assert_eq!(f16.bytes(), 128 * 2 * 2, "f16 is two bytes a value");
    assert_eq!(q8.bytes(), 128 / 32 * 34 * 2, "q8_0 is 34 bytes per 32");
    assert!(
        q8.bytes() * 2 < f16.bytes() * 2 - 100,
        "q8_0 must be smaller"
    );
    assert!(f16.is_consistent() && q8.is_consistent());

    let bytes = q8.keys(0);
    let d = from_half(u16::from_le_bytes([bytes[0], bytes[1]]));
    for i in 0..32 {
        let got = (bytes[2 + i] as i8) as f32 * d;
        assert!(
            (got - vals[i]).abs() <= d,
            "value {i}: {got} vs {} (step {d})",
            vals[i]
        );
    }
}

#[test]
fn q8_0_is_refused_when_a_row_is_not_whole_blocks() {
    let c = KvCache::with_type(1, 2, 40, KvType::Q8_0);
    assert_eq!(c.kind(), KvType::F16);
    let c = KvCache::with_type(1, 2, 64, KvType::Q8_0);
    assert_eq!(c.kind(), KvType::Q8_0);
}

#[test]
fn cache_type_names_match_llamacpp() {
    assert_eq!(KvType::parse("q8_0"), Some(KvType::Q8_0));
    assert_eq!(KvType::parse("F16"), Some(KvType::F16));
    assert_eq!(
        KvType::parse("q4_0"),
        None,
        "unsupported must not be guessed"
    );
}

#[test]
fn f16_storage_round_trips_the_values_attention_needs() {
    let mut c = cache();
    let vals: Vec<f32> = (0..32).map(|i| (i as f32 - 16.0) * 0.25).collect();
    c.push(0, &halves(&vals), &halves(&vals)).expect("push");
    c.push(1, &halves(&vals), &halves(&vals)).expect("push");
    c.advance();

    for (i, want) in vals.iter().enumerate() {
        let got = at(c.keys(0), i);
        assert!(
            (got - want).abs() < 1e-3,
            "position {i}: stored {got}, wanted {want}"
        );
    }
}

#[test]
fn clearing_resets_for_a_new_sequence() {
    let mut c = cache();
    let k = halves(&[1.0f32; 32]);
    c.push(0, &k, &k).unwrap();
    c.push(1, &k, &k).unwrap();
    c.advance();
    c.clear();
    assert!(c.is_empty());
    assert!(c.is_consistent());
    assert_eq!(c.bytes(), 0);
}

#[test]
fn shifting_out_keeps_the_head_and_slides_the_tail() {
    let mut c = KvCache::new(1, 1, 2);
    for i in 0..6 {
        let v = i as f32;
        c.push(0, &halves(&[v, v]), &halves(&[v, v])).unwrap();
        c.advance();
    }
    assert_eq!(c.len(), 6);
    c.shift_out(2, 2);
    assert_eq!(c.len(), 4);
    assert!(c.is_consistent());
    let k = c.keys(0);
    assert_eq!(k.len(), 16);
    let first_of = |slot: usize| &k[slot * 4..slot * 4 + 4];
    assert_eq!(first_of(0), first_of(0));
    let mut want = KvCache::new(1, 1, 2);
    for i in [0.0f32, 1.0, 4.0, 5.0] {
        want.push(0, &halves(&[i, i]), &halves(&[i, i])).unwrap();
        want.advance();
    }
    assert_eq!(c.keys(0), want.keys(0));
    assert_eq!(c.values(0), want.values(0));
}

#[test]
fn shifting_more_than_there_is_clamps_rather_than_underflowing() {
    let mut c = KvCache::new(1, 1, 2);
    for i in 0..4 {
        let v = i as f32;
        c.push(0, &halves(&[v, v]), &halves(&[v, v])).unwrap();
        c.advance();
    }
    c.shift_out(1, 100);
    assert_eq!(c.len(), 1);
    assert!(c.is_consistent());
}

#[test]
fn shifting_nothing_is_a_no_op() {
    let mut c = KvCache::new(1, 1, 2);
    c.push(0, &halves(&[7.0, 7.0]), &halves(&[7.0, 7.0])).unwrap();
    c.advance();
    let before = c.keys(0).to_vec();
    c.shift_out(0, 0);
    c.shift_out(5, 3);
    assert_eq!(c.len(), 1);
    assert_eq!(c.keys(0), &before[..]);
}

#[test]
fn names_and_ids_of_storage_types() {
    for kind in [KvType::F16, KvType::Q8_0] {
        assert_eq!(KvType::parse(kind.name()), Some(kind));
    }
    assert_eq!(KvType::parse("  fp16\n"), Some(KvType::F16));
    assert_eq!(KvType::parse("Q8"), Some(KvType::Q8_0));
    assert_eq!(KvType::F16.ggml_type(), 1);
    assert_eq!(KvType::Q8_0.ggml_type(), 8);
    assert_eq!(KvType::Q8_0.bytes_for(64), 68);
    assert_eq!(KvType::F16.bytes_for(64), 128);
}

#[test]
fn a_refused_append_says_what_it_wanted() {
    let mut c = KvCache::new(1, 1, 4);
    let k = halves(&[1.0; 4]);
    let v = halves(&[1.0; 3]);
    match c.push(0, &k, &v) {
        Err(KvError::WrongSize { expected, got_k, got_v }) => {
            assert_eq!((expected, got_k, got_v), (4, 4, 3));
        }
        Ok(()) => panic!("a short row was taken"),
    }
    let text = KvError::WrongSize { expected: 4, got_k: 4, got_v: 3 }.message();
    assert_eq!(text, "kv cache expected 4 floats per position, got k=4 v=3");
}

#[test]
fn truncating_keeps_the_first_positions() {
    let mut c = KvCache::new(1, 1, 2);
    for i in 0..5 {
        let v = i as f32;
        c.push(0, &halves(&[v, v]), &halves(&[-v, v])).unwrap();
        c.advance();
    }
    let keys = c.keys(0).to_vec();
    c.truncate_to(9);
    assert_eq!(c.len(), 5);
    c.truncate_to(2);
    assert_eq!(c.len(), 2);
    assert!(c.is_consistent());
    assert_eq!(c.keys(0), &keys[..8]);
}

#[test]
fn restoring_takes_whole_positions_only() {
    let mut c = KvCache::new(2, 1, 2);
    assert_eq!(c.layers(), 2);
    assert!(c.restore_layer(0, &[1, 2, 3, 4], &[5, 6, 7, 8]).is_ok());
    assert!(c.restore_layer(1, &[1, 2, 3], &[5, 6, 7]).is_err());
    assert!(c.restore_layer(2, &[1, 2, 3, 4], &[5, 6, 7, 8]).is_err());
    assert_eq!(c.keys(0), &[1, 2, 3, 4]);
    assert_eq!(c.values(0), &[5, 6, 7, 8]);
    assert_eq!(c.keys(1).len(), 0);
    c.set_positions(1);
    assert!(!c.is_consistent());
    assert!(c.restore_layer(1, &[0; 4], &[0; 4]).is_ok());
    assert!(c.is_consistent());
}

#[test]
fn a_prompt_is_appended_whole() {
    let mut c = KvCache::new(1, 1, 2);
    for _ in 0..3 {
        c.push(0, &halves(&[1.0, 2.0]), &halves(&[3.0, 4.0])).unwrap();
    }
    c.advance_by(3);
    assert_eq!(c.len(), 3);
    assert!(c.is_consistent());
}

#[test]
fn layers_copied_one_by_one_are_the_source() {
    let mut src = KvCache::new(2, 1, 2);
    let mut dst = KvCache::new(2, 1, 2);
    for i in 0..3u16 {
        for layer in 0..2 {
            let row = KvRow::Halves(vec![i, layer as u16]);
            src.push(layer, &row, &row).unwrap();
        }
        src.advance();
    }
    let other = KvRow::Halves(vec![9, 9]);
    dst.push(0, &other, &other).unwrap();
    for layer in 0..2 {
        dst.restore_layer(layer, src.keys(layer), src.values(layer)).expect("whole positions");
    }
    dst.set_positions(src.len());
    assert!(dst.is_consistent());
    assert_eq!((dst.len(), dst.bytes()), (src.len(), src.bytes()));
    for layer in 0..2 {
        assert_eq!(dst.keys(layer), src.keys(layer));
        assert_eq!(dst.values(layer), src.values(layer));
    }
    dst.shift_out(1, usize::MAX);
    src.truncate_to(1);
    assert_eq!((dst.len(), dst.keys(1)), (1, src.keys(1)));
    assert_eq!(dst.values(0), src.values(0));
}
