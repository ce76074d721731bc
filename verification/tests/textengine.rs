use siteserve::store::{lex_less, ContentStore};
use siteserve::textops::{contains_sub, last_piece, replace_all, to_lower};

fn rep(s: &[u8], pat: &[u8], r: &[u8]) -> Vec<u8> {
    replace_all(&s.to_vec(), &pat.to_vec(), &r.to_vec())
}

#[test]
fn replace_all_basic() {
    assert_eq!(rep(b"a{{x}}b{{x}}c", b"{{x}}", b"Y"), b"aYbYc".to_vec());
    assert_eq!(rep(b"", b"{{x}}", b"Y"), b"".to_vec());
    assert_eq!(rep(b"{{x}}", b"{{x}}", b""), b"".to_vec());
    assert_eq!(rep(b"no match", b"{{x}}", b"Y"), b"no match".to_vec());
}

#[test]
fn replace_all_leftmost_non_overlapping() {
    assert_eq!(rep(b"aaa", b"aa", b"b"), b"ba".to_vec());
    assert_eq!(rep(b"xax", b"a", b"aa"), b"xaax".to_vec());
    assert_eq!(rep(b"ababa", b"aba", b"-"), b"-ba".to_vec());
}

#[test]
fn contains_and_pieces() {
    assert!(contains_sub(&b"gallery/.tpl".to_vec(), &b"/.".to_vec()));
    assert!(!contains_sub(&b"gallery/img.png".to_vec(), &b"/.".to_vec()));
    assert_eq!(last_piece(&b"a/b/c.png".to_vec(), b'/'), b"c.png".to_vec());
    assert_eq!(last_piece(&b"plain".to_vec(), b'/'), b"plain".to_vec());
    assert_eq!(last_piece(&b"img.JPG".to_vec(), b'.'), b"JPG".to_vec());
    assert_eq!(to_lower(&b"JPeG-9".to_vec()), b"jpeg-9".to_vec());
}

#[test]
fn store_keys_ascend_and_lookups_are_exact() {
    let mut store = ContentStore::new();
    store.insert(b"b".to_vec(), b"2".to_vec());
    store.insert(b"a".to_vec(), b"1".to_vec());
    store.insert(b"c".to_vec(), b"3".to_vec());
    store.insert(b"b".to_vec(), b"22".to_vec());
    assert_eq!(store.len(), 3);
    for i in 0..store.len() - 1 {
        let k1 = store.key_at_idx(i).clone();
        let k2 = store.key_at_idx(i + 1).clone();
        assert!(lex_less(&k1, &k2));
    }
    assert_eq!(store.get(&b"b".to_vec()), Some(&b"22".to_vec()));
    assert_eq!(store.get(&b"missing".to_vec()), None);
}
