use inka::{Base, Find, Section};

fn section_at(addr: usize, data: Vec<u8>) -> Section {
    Section::new(String::from("seg"), Base::new(addr).unwrap(), data)
}

fn naive_find(hay: &[u8], pat: &[u8]) -> Option<usize> {
    if pat.len() > hay.len() {
        return None;
    }
    (0..hay.len() - pat.len() + 1).find(|&i| &hay[i..i + pat.len()] == pat)
}

fn naive_rfind(hay: &[u8], pat: &[u8]) -> Option<usize> {
    if pat.len() > hay.len() {
        return None;
    }
    (0..hay.len() - pat.len() + 1).rev().find(|&i| &hay[i..i + pat.len()] == pat)
}

fn pseudo_random_bytes(len: usize, mut seed: u64) -> Vec<u8> {
    let mut out = Vec::with_capacity(len);
    for _ in 0..len {
        seed = seed.wrapping_mul(6364136223846793005).wrapping_add(1442695040888963407);
        out.push((seed >> 33) as u8);
    }
    out
}

#[test]
fn find_and_rfind_single_occurrence() {
    let data = vec![
        0x7c, 0x73, 0xe1, 0x3d, 0x1a, 0x7d, 0xb3, 0x00, 0xd2, 0x6c, 0x61, 0xf9, 0x5f, 0x00,
        0xf1, 0x10, 0x80, 0x5e, 0x5f, 0xbf,
    ];
    let pattern = [0x7c, 0x73, 0xe1, 0x3d, 0x1a, 0x7d, 0xb3, 0x00, 0xd2];
    let base = 0x1000;
    let s = section_at(base, data);
    assert_eq!(s.find(&pattern).unwrap().addr(), base);
    assert_eq!(s.rfind(&pattern).unwrap().addr(), base);
}

#[test]
fn find_returns_first_and_rfind_last() {
    let base = 0x2000;
    let s = section_at(base, vec![9, 1, 2, 9, 1, 2, 9, 1, 2, 5]);
    let pattern = [1, 2];
    assert_eq!(s.find(&pattern).unwrap().addr(), base + 1);
    assert_eq!(s.rfind(&pattern).unwrap().addr(), base + 7);
}

#[test]
fn find_absent_pattern_is_none() {
    let s = section_at(0x3000, vec![1, 2, 3, 4, 5]);
    assert!(s.find(&[6, 7]).is_none());
    assert!(s.rfind(&[6, 7]).is_none());
}

#[test]
fn find_pattern_longer_than_haystack_is_none() {
    let s = section_at(0x3000, vec![1, 2]);
    assert!(s.find(&[1, 2, 3]).is_none());
    assert!(s.rfind(&[1, 2, 3]).is_none());
}

#[test]
fn contains_reports_presence() {
    let s = section_at(0x4000, vec![10, 20, 30]);
    assert!(s.contains(&[20, 30]));
    assert!(!s.contains(&[30, 20]));
}

#[test]
fn find_agrees_with_naive_scan_on_random_buffers() {
    for seed in 1..6u64 {
        let hay = pseudo_random_bytes(257, seed);
        let base = 0x10000;
        let s = section_at(base, hay.clone());
        let mut patterns: Vec<Vec<u8>> = Vec::new();
        patterns.push(vec![hay[13]]);
        patterns.push(hay.clone());
        patterns.push(hay[..hay.len() - 1].to_vec());
        patterns.push(hay[1..].to_vec());
        patterns.push(hay[100..109].to_vec());
        patterns.push(vec![0xAB, 0xCD, 0xEF, 0x01]);
        for pat in &patterns {
            let expect_first = naive_find(&hay, pat);
            let expect_last = naive_rfind(&hay, pat);
            assert_eq!(
                s.find(pat).map(|b| b.addr()),
                expect_first.map(|o| base + o),
                "find disagrees with the sequential scan"
            );
            assert_eq!(
                s.rfind(pat).map(|b| b.addr()),
                expect_last.map(|o| base + o),
                "rfind disagrees with the sequential scan"
            );
        }
    }
}

#[test]
fn section_accessors() {
    let s = section_at(0x5000, vec![1, 2, 3]);
    assert_eq!(s.name(), "seg");
    assert_eq!(s.base().addr(), 0x5000);
    assert_eq!(s.len(), 3);
    assert_eq!(s.as_slice(), &[1, 2, 3]);
}
