use lunisolar::bodies::CelestialBody;
use lunisolar::precession::{coefficient_span, PlutoModel, PlutoParam};

#[test]
fn rows_and_lengths() {
    assert_eq!(PlutoParam::Pfi.index(), 0);
    assert_eq!(PlutoParam::Pz.index(), 11);
    assert_eq!(PlutoModel::IAU1976.terms(), 4);
    assert_eq!(PlutoModel::IAU2000.terms(), 6);
    assert_eq!(PlutoModel::P03.terms(), 6);
}

#[test]
fn coefficient_spans() {
    assert_eq!(coefficient_span(PlutoParam::Pfi, PlutoModel::P03), (0, 6));
    assert_eq!(coefficient_span(PlutoParam::Pw, PlutoModel::P03), (6, 12));
    assert_eq!(coefficient_span(PlutoParam::PE, PlutoModel::IAU1976), (16, 20));
    assert_eq!(coefficient_span(PlutoParam::Pz, PlutoModel::IAU2000), (66, 72));
}

#[test]
fn body_numbers() {
    for n in 0..11 {
        let b = CelestialBody::from_index(n).unwrap();
        assert_eq!(b.index(), n);
    }
    assert_eq!(CelestialBody::from_index(0), Some(CelestialBody::Earth));
    assert_eq!(CelestialBody::from_index(8), Some(CelestialBody::Pluto));
    assert_eq!(CelestialBody::from_index(10), Some(CelestialBody::Moon));
    assert_eq!(CelestialBody::from_index(11), None);
    assert_eq!(CelestialBody::default(), CelestialBody::Moon);
}
