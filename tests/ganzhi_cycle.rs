use lunisolar::ganzhi::GanZhi;

#[test]
fn inc_and_dec_step_both_axes() {
    assert_eq!(GanZhi(0, 0).inc(), GanZhi(1, 1));
    assert_eq!(GanZhi(0, 0).dec(), GanZhi(9, 11));
    assert_eq!(GanZhi(9, 11).inc(), GanZhi(0, 0));
}

#[test]
fn inc_dec_are_inverse() {
    for g in 0..10 {
        for z in 0..12 {
            let p = GanZhi(g, z);
            assert_eq!(p.inc().dec(), p);
            assert_eq!(p.dec().inc(), p);
        }
    }
}

#[test]
fn cycles_close() {
    let start = GanZhi(3, 5);
    let mut p = start;
    for i in 1..=60 {
        p = p.inc();
        if i == 10 {
            assert_eq!(p.0, start.0);
        }
        if i == 12 {
            assert_eq!(p.1, start.1);
        }
    }
    assert_eq!(p, start);
}

#[test]
fn sentinel_is_kept() {
    let g = GanZhi(7, -1);
    assert_eq!(g.inc(), GanZhi(8, -1));
    assert_eq!(g.dec(), GanZhi(6, -1));
    let mut z = GanZhi(-1, 4);
    for _ in 0..25 {
        z = z.inc();
        assert_eq!(z.0, -1);
    }
    assert_eq!(g.name(), "辛");
    assert_eq!(GanZhi(-1, 1).name(), "丑");
}

#[test]
fn names() {
    assert_eq!(GanZhi(0, 0).name(), "甲子");
    assert_eq!(GanZhi(0, 0).inc().name(), "乙丑");
    assert_eq!(GanZhi(0, 0).dec().name(), "癸亥");
    assert_eq!(GanZhi(9, 3).gan(), "癸");
    assert_eq!(GanZhi(9, 3).zhi(), "卯");
}

#[test]
fn pairs_of_days_years_months_hours() {
    // 2023-11-11 is day 2460260, a guiyou day
    assert_eq!(GanZhi::of_day(2460260), GanZhi(9, 9));
    assert_eq!(GanZhi::of_year(2023), GanZhi(9, 3));
    assert_eq!(GanZhi::of_year(1984), GanZhi(0, 0));
    assert_eq!(GanZhi::of_year(-1), GanZhi(5, 7));
    assert_eq!(GanZhi::of_month(2023, 12), GanZhi(9, 11));
    assert_eq!(GanZhi(9, 9).of_hour(720), GanZhi(4, 6));
    assert_eq!(GanZhi(9, 9).of_hour(0), GanZhi(8, 0));
    assert_eq!(GanZhi(9, 9).of_hour(1380), GanZhi(8, 0));
    assert_eq!(GanZhi(9, 9).of_hour(1379), GanZhi(9, 11));
}
