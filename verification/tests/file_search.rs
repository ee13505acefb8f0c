use repo_wizard::file_search_service::{
    calculate_fuzzy_score, finish_score, fuzzy_scan, round_to_single, scale_score, score_lowered,
    utf8_length, FuzzyScan,
};

fn reference_score(query: &str, text: &str) -> i32 {
    if query.is_empty() {
        return 0;
    }
    let query_lower = query.to_lowercase();
    let text_lower = text.to_lowercase();
    if query_lower == text_lower {
        return 10000;
    }
    if text_lower.starts_with(&query_lower) {
        return 5000 + (1000 - text.len() as i32);
    }
    if text_lower.contains(&query_lower) {
        let pos = text_lower.find(&query_lower).unwrap_or(text.len()) as i32;
        return 3000 - pos + (1000 - text.len() as i32);
    }
    let query_chars: Vec<char> = query_lower.chars().collect();
    let text_chars: Vec<char> = text_lower.chars().collect();
    if query_chars.len() > text_chars.len() {
        return -100;
    }
    let mut query_idx = 0;
    let mut text_idx = 0;
    let mut score = 0;
    let mut consecutive_matches = 0;
    let mut first_match_idx = None;
    let mut matched_chars = 0;
    while query_idx < query_chars.len() && text_idx < text_chars.len() {
        if query_chars[query_idx] == text_chars[text_idx] {
            if first_match_idx.is_none() {
                first_match_idx = Some(text_idx);
            }
            query_idx += 1;
            matched_chars += 1;
            consecutive_matches += 1;
            score += consecutive_matches * 3;
            if text_idx == 0
                || text_chars[text_idx - 1] == '/'
                || text_chars[text_idx - 1] == '_'
                || text_chars[text_idx - 1] == '-'
                || text_chars[text_idx - 1] == '.'
            {
                score += 15;
            }
        } else {
            consecutive_matches = 0;
        }
        text_idx += 1;
    }
    let match_ratio = matched_chars as f32 / query_chars.len() as f32;
    if query_idx < query_chars.len() {
        if match_ratio >= 0.7 {
            score = (score as f32 * match_ratio) as i32;
        } else {
            return -50;
        }
    }
    if let Some(first_idx) = first_match_idx {
        score -= (first_idx as f32 * 0.5) as i32;
    }
    score += 500 - (text_chars.len() as i32 / 2);
    if score < -10 && match_ratio >= 0.5 {
        score = -5;
    }
    score
}

#[test]
fn test_fuzzy_scoring() {
    // Exact match should score highest
    assert!(calculate_fuzzy_score("test", "test") > calculate_fuzzy_score("test", "testing"));

    // Prefix match should score higher than substring
    assert!(calculate_fuzzy_score("te", "test") > calculate_fuzzy_score("te", "item"));

    // Should not match all characters
    assert_eq!(calculate_fuzzy_score("xyz", "abc"), Some(-50));

    // Empty query should return 0
    assert_eq!(calculate_fuzzy_score("", "anything"), Some(0));
}

#[test]
fn scores_of_the_direct_matches() {
    assert_eq!(calculate_fuzzy_score("Test", "tEST"), Some(10000));
    assert_eq!(calculate_fuzzy_score("te", "test"), Some(5000 + 1000 - 4));
    assert_eq!(calculate_fuzzy_score("te", "item"), Some(3000 - 1 + 1000 - 4));
    assert_eq!(calculate_fuzzy_score("b", "\u{e9}\u{e9}b"), Some(3000 - 4 + 1000 - 5));
    assert_eq!(calculate_fuzzy_score("abcd", "abc"), Some(-100));
    assert_eq!(calculate_fuzzy_score("a", ""), Some(-100));
    assert_eq!(calculate_fuzzy_score("", ""), Some(0));
}

#[test]
fn scores_of_scans() {
    // "mn" in "src/main.rs": m at 4 begins a word, n at 7; all matched
    assert_eq!(calculate_fuzzy_score("mn", "src/main.rs"), Some(18 + 3 - 2 + 500 - 5));
    // 3 of 4 found: scaled by 0.75
    assert_eq!(calculate_fuzzy_score("abcz", "a_b_c"), Some(40 + 500 - 2));
    // 2 of 3 found: below seven tenths
    assert_eq!(calculate_fuzzy_score("abz", "a_b"), Some(-50));
}

#[test]
fn texts_that_are_too_long_get_no_score() {
    let long = "a".repeat(32769);
    assert_eq!(calculate_fuzzy_score("b", &long), None);
    let fits = "a".repeat(32768);
    assert_eq!(calculate_fuzzy_score("b", &fits), Some(-50));
    let wide = "\u{10000}".repeat(32768);
    assert_eq!(calculate_fuzzy_score("b", &wide), Some(-50));
    let too_wide = format!("{}{}", wide, "a");
    assert_eq!(calculate_fuzzy_score("b", &too_wide), None);
}

#[test]
fn scores_agree_with_floating_point_arithmetic() {
    let names = [
        "main.rs", "src/main.rs", "README.md", "Cargo.toml", "src/services/review_service.rs",
        "a_b_c", "abc", "x", "", "file-search_service.test.ts", "\u{c9}t\u{e9}.txt", "\u{130}stanbul",
        "MAKEFILE", "lib/Some_Long-Name.With.Dots/and/segments", "aaaaaaaaaaaaaaaaaaaaaaaaaaaaaa",
        "abcdefghijklmnopqrstuvwxyz", "zyxwvutsrqponmlkjihgfedcba",
    ];
    let queries = [
        "", "a", "m", "rs", "main", "mn", "srv", "review", "rvwsrv", "abcz", "abz", "zzz", "A_B",
        "MAIN.RS", "\u{e9}", "i", "abcdefghij", "abcdefghiz", "abcdefgzzz", "aaaaaaaaaab", "st.ts",
        "c.t", "fsst", "qqqqqqqqqqqqqqqqqqqqqqqqqqqqqqqqqqqqqqqqqqqqqqqq", "xz", "azbzcz",
    ];
    for q in queries {
        for t in names {
            assert_eq!(
                calculate_fuzzy_score(q, t),
                Some(reference_score(q, t)),
                "query {:?}, text {:?}",
                q,
                t
            );
        }
    }
}

#[test]
fn long_scans_agree_with_floating_point_arithmetic() {
    for n in [100usize, 1000, 5000, 20000, 32767] {
        let text = "ab".repeat(n / 2);
        for share in [7usize, 8, 9] {
            let found = "ab".repeat(n / 4);
            let missing = "z".repeat(found.len() * (10 - share) / share);
            let query = format!("{}{}", found, missing);
            assert_eq!(
                calculate_fuzzy_score(&query, &text),
                Some(reference_score(&query, &text)),
                "n {}, share {}",
                n,
                share
            );
        }
        let run = "a".repeat(n);
        let query = format!("{}b", "a".repeat(n - 1));
        assert_eq!(calculate_fuzzy_score(&query, &run), Some(reference_score(&query, &run)));
    }
}

fn float_scale(score: i32, matched: usize, query_len: usize) -> i32 {
    let ratio = matched as f32 / query_len as f32;
    (score as f32 * ratio) as i32
}

#[test]
fn scaling_agrees_with_floating_point_arithmetic() {
    let mut scores: Vec<i32> = (0..3000).collect();
    for k in [
        16_777_215, 16_777_216, 16_777_217, 16_777_218, 16_777_219, 33_554_431, 33_554_433,
        100_000_007, 1_000_000_007, 1_611_153_408, 2_147_483_647, 123_456_789, 999_999_999,
    ] {
        scores.push(k);
    }
    for q in (2usize..=120).chain([1000, 4097, 32767, 32768]) {
        let first = (q + 1) / 2;
        let step = if q > 120 { q / 97 + 1 } else { 1 };
        let mut m = first;
        while m < q {
            for &s in scores.iter() {
                assert_eq!(scale_score(s, m, q), float_scale(s, m, q), "{} * {} / {}", s, m, q);
            }
            m += step;
        }
    }
}

#[test]
fn scaling_of_chosen_values() {
    assert_eq!(scale_score(10, 7, 10), 7);
    assert_eq!(scale_score(54, 3, 4), 40);
    assert_eq!(scale_score(0, 3, 4), 0);
    assert_eq!(scale_score(1, 1, 2), 0);
    assert_eq!(scale_score(3, 2, 3), 2);
}

#[test]
fn rounding_agrees_with_floating_point_arithmetic() {
    let mut x: u64 = 1;
    let mut seed: u64 = 0x9E37_79B9_7F4A_7C15;
    for _ in 0..200_000 {
        seed ^= seed << 13;
        seed ^= seed >> 7;
        seed ^= seed << 17;
        x = seed >> (seed % 64);
        assert_eq!(round_to_single(x as u128), (x as f32) as u128, "{}", x);
    }
    for k in 0..64u32 {
        for d in [0u64, 1, 2, 3] {
            for shift in [0u32, 1, 23, 24, 25, 26] {
                let v = (1u64 << k).wrapping_add(d << shift.min(63)).wrapping_sub(1);
                assert_eq!(round_to_single(v as u128), (v as f32) as u128, "{}", v);
                let w = v.wrapping_add(2);
                assert_eq!(round_to_single(w as u128), (w as f32) as u128, "{}", w);
            }
        }
    }
    assert_eq!(round_to_single(0), 0);
    assert_eq!(round_to_single(16_777_217), 16_777_216);
    assert_eq!(round_to_single(16_777_219), 16_777_220);
    assert_eq!(round_to_single(x as u128), (x as f32) as u128);
}

fn float_finish(scan: FuzzyScan, query_len: usize, text_len: usize) -> i32 {
    let mut score = scan.score;
    let match_ratio = scan.matched as f32 / query_len as f32;
    if scan.matched < query_len {
        if match_ratio >= 0.7 {
            score = (score as f32 * match_ratio) as i32;
        } else {
            return -50;
        }
    }
    if let Some(first_idx) = scan.first_match {
        score -= (first_idx as f32 * 0.5) as i32;
    }
    score += 500 - (text_len as i32 / 2);
    if score < -10 && match_ratio >= 0.5 {
        score = -5;
    }
    score
}

#[test]
fn finishing_agrees_with_floating_point_arithmetic() {
    for query_len in [1usize, 2, 3, 7, 10, 20, 100, 1001] {
        for matched in 0..=query_len.min(40) {
            let matched = matched * query_len / query_len.min(40);
            for score in [0, 1, 18, 54, 300, 5000] {
                for first in [None, Some(0usize), Some(1), Some(7), Some(2000)] {
                    for text_len in [1usize, 2, 11, 1000, 1400, 32768] {
                        let scan = FuzzyScan { matched, score, first_match: first };
                        assert_eq!(
                            finish_score(scan, query_len, text_len),
                            float_finish(scan, query_len, text_len),
                            "{:?} {} {}",
                            scan,
                            query_len,
                            text_len
                        );
                    }
                }
            }
        }
    }
}

#[test]
fn finishing_of_chosen_values() {
    let scan = FuzzyScan { matched: 2, score: 21, first_match: Some(4) };
    assert_eq!(finish_score(scan, 2, 11), 21 - 2 + 500 - 5);
    let scan = FuzzyScan { matched: 1, score: 18, first_match: Some(0) };
    assert_eq!(finish_score(scan, 2, 1400), -50);
    let scan = FuzzyScan { matched: 3, score: 18, first_match: Some(0) };
    assert_eq!(finish_score(scan, 4, 1400), -5);
    let scan = FuzzyScan { matched: 3, score: 18, first_match: Some(0) };
    assert_eq!(finish_score(scan, 4, 1046), -10);
}

#[test]
fn lowered_scores() {
    assert_eq!(score_lowered("abc", "abc", 3), 10000);
    assert_eq!(score_lowered("", "abc", 3), 5000 + 1000 - 3);
    assert_eq!(score_lowered("bc", "abc", 99), 3000 - 1 + 1000 - 99);
    assert_eq!(score_lowered("abcd", "abc", 3), -100);
    assert_eq!(score_lowered("ac", "abc", 3), 18 + 3 + 500 - 1);
    assert_eq!(fuzzy_scan("ac", "abc").score, 21);
}

#[test]
fn utf8_length_is_the_length_in_bytes() {
    for n in (0u32..0x11_0000).step_by(7) {
        if let Some(c) = char::from_u32(n) {
            assert_eq!(utf8_length(&vec![c], 1), c.len_utf8());
        }
    }
    let s = "a\u{e9}\u{20ac}\u{1F600}z";
    let chars: Vec<char> = s.chars().collect();
    assert_eq!(utf8_length(&chars, chars.len()), s.len());
    assert_eq!(utf8_length(&chars, 3), 6);
    assert_eq!(utf8_length(&chars, 0), 0);
}
