use lunisolar::series::{moon_terms_len, planet_terms_end};

#[test]
fn planet_bands() {
    assert_eq!(planet_terms_end(8, 0, 1, 301, 300), 25);
    assert_eq!(planet_terms_end(8, 1, 301, 601, 300), 328);
    assert_eq!(planet_terms_end(-1, 1, 301, 601, 300), 601);
    assert_eq!(planet_terms_end(1000, 0, 1, 301, 300), 301);
    assert_eq!(planet_terms_end(0, 2, 601, 700, 300), 604);
    // 3 * 10 / 4 = 7.5 rounds up
    assert_eq!(planet_terms_end(1, 0, 0, 10, 4), 8);
}

#[test]
fn moon_bands() {
    assert_eq!(moon_terms_len(10, 0, 600, 600), 60);
    assert_eq!(moon_terms_len(10, 1, 300, 600), 36);
    assert_eq!(moon_terms_len(-1, 0, 600, 600), 600);
    assert_eq!(moon_terms_len(-1, 1, 300, 600), 300);
    assert_eq!(moon_terms_len(3, 2, 0, 600), 0);
}

#[test]
fn larger_budget_never_fewer_terms() {
    let mut last = 0;
    for n in 0..200 {
        let e = planet_terms_end(n, 1, 100, 400, 250);
        assert!(e >= last);
        last = e;
    }
    assert_eq!(last, planet_terms_end(-1, 1, 100, 400, 250));
}
