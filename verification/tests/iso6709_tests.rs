use exifinf_rs::iso6709::parse_iso6709;

#[test]
fn apple_example() {
    let (la, lo, al) = parse_iso6709("+37.4221-122.0841+030.000/").unwrap();
    let la: f64 = la.parse().unwrap();
    let lo: f64 = lo.parse().unwrap();
    let al: Option<f64> = al.map(|a| a.parse().unwrap());
    assert!((la - 37.4221).abs() < 1e-6);
    assert!((lo - (-122.0841)).abs() < 1e-6);
    assert!((al.unwrap() - 30.0).abs() < 1e-6);
}
