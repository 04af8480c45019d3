use shootr::util::{clamp, elapsed_ms, IdGen, SeqIdGen};

#[test]
fn one_elapsed_ms() {
    let a = 0;
    let b = 1;
    assert_eq!(1, elapsed_ms(a, b).unwrap());
}

#[test]
fn one_elapsed_second() {
    let a = 0;
    let b = 1000;
    assert_eq!(1000, elapsed_ms(a, b).unwrap());
}

#[test]
fn no_elapsed_time() {
    let a = 1000;
    assert_eq!(0, elapsed_ms(a, a).unwrap());
}

#[test]
fn negative_elapsed_time() {
    let a = 1000;
    let b = 0;
    assert!(elapsed_ms(a, b).is_err());
}

#[test]
fn clamp_in_range() {
    let res = clamp(1, 0, 2);
    assert_eq!(1, res);
}

#[test]
fn clamp_min() {
    let res = clamp(-2, -2, 2);
    assert_eq!(-2, res);
}

#[test]
fn clamp_max() {
    let res = clamp(0, -2, 0);
    assert_eq!(0, res);
}

#[test]
fn clamp_less_than_min() {
    let res = clamp(-1, 0, 2);
    assert_eq!(0, res);
}

#[test]
fn clamp_more_than_max() {
    let res = clamp(999, 9, 10);
    assert_eq!(10, res);
}

#[test]
fn seq_id_gen_sequential() {
    let mut id_gen = SeqIdGen::default();
    let ids_count = 1000;
    for i in 0..ids_count {
        assert_eq!(i + 1, id_gen.gen());
    }
}

#[test]
fn id_gen_unique() {
    let mut id_gen = IdGen::new();
    let mut ids = Vec::new();
    let ids_count = 1000;
    for _ in 0..ids_count {
        ids.push(id_gen.next());
    }
    ids.sort();
    ids.dedup_by_key(|id| *id);
    assert_eq!(ids_count, ids.len());
}
