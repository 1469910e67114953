use tunnel_hub::correlator::Correlator;

#[test]
fn unanswered_wait_times_out_and_table_shrinks_back() {
    let mut c = Correlator::new();
    c.begin_with("keep".to_string(), 1).ok();
    let before = c.len();
    let id = c.begin(5).ok().unwrap();
    assert_eq!(c.len(), before + 1);
    assert!(c.finish(&id).is_err());
    assert_eq!(c.len(), before);
    assert!(!c.contains(&id));
    assert!(c.contains("keep"));
}

#[test]
fn answer_before_wait_is_delivered() {
    let mut c = Correlator::new();
    let id = c.begin(0).ok().unwrap();
    assert!(c.complete(&id, b"{\"cpu\":1}".to_vec()).is_ok());
    match c.finish(&id) {
        Ok(a) => assert_eq!(a, b"{\"cpu\":1}".to_vec()),
        Err(_) => panic!("answer lost"),
    }
    assert_eq!(c.len(), 0);
}

#[test]
fn complete_unknown_id_fails_without_side_effect() {
    let mut c = Correlator::new();
    c.begin_with("a".to_string(), 0).ok();
    assert!(c.complete("nope", b"1".to_vec()).is_err());
    assert_eq!(c.len(), 1);
    assert!(c.complete("a", b"2".to_vec()).is_ok());
    assert_eq!(c.finish("a").ok(), Some(b"2".to_vec()));
}

#[test]
fn second_answer_is_refused() {
    let mut c = Correlator::new();
    c.begin_with("a".to_string(), 0).ok();
    assert!(c.complete("a", b"1".to_vec()).is_ok());
    assert!(c.complete("a", b"2".to_vec()).is_err());
    assert_eq!(c.finish("a").ok(), Some(b"1".to_vec()));
    assert!(c.complete("a", b"3".to_vec()).is_err());
}

#[test]
fn begin_with_refuses_duplicate() {
    let mut c = Correlator::new();
    assert!(c.begin_with("x".to_string(), 0).is_ok());
    assert!(c.begin_with("x".to_string(), 1).is_err());
    assert_eq!(c.len(), 1);
}

#[test]
fn fresh_ids_are_hyphenated_uuids() {
    let mut c = Correlator::new();
    let a = c.begin(0).ok().unwrap();
    let b = c.begin(0).ok().unwrap();
    assert_ne!(a, b);
    assert_eq!(a.len(), 36);
    for (i, ch) in a.chars().enumerate() {
        if i == 8 || i == 13 || i == 18 || i == 23 {
            assert_eq!(ch, '-');
        } else {
            assert!(ch.is_ascii_hexdigit() && !ch.is_ascii_uppercase());
        }
    }
}

#[test]
fn expire_removes_only_old_entries() {
    let mut c = Correlator::new();
    c.begin_with("old".to_string(), 10).ok();
    c.begin_with("edge".to_string(), 40).ok();
    c.begin_with("new".to_string(), 50).ok();
    c.complete("old", b"1".to_vec()).ok();
    let removed = c.expire(100, 60);
    assert_eq!(removed, 2);
    assert!(!c.contains("old"));
    assert!(!c.contains("edge"));
    assert!(c.contains("new"));
    assert_eq!(c.expire(100, 60), 0);
}
