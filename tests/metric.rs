use mycelium_api::Metric;

#[test]
fn finite_metric_serialization() {
    let metric = Metric::Value(10);
    let s = metric.to_json();

    assert_eq!("10", s);
}

#[test]
fn infinite_metric_serialization() {
    let metric = Metric::Infinite;
    let s = metric.to_json();

    assert_eq!("\"infinite\"", s);
}

#[test]
fn metric_json_edges() {
    assert_eq!("0", Metric::Value(0).to_json());
    assert_eq!("65535", Metric::Value(65535).to_json());
    assert_eq!("100", Metric::Value(100).to_json());
}

#[test]
fn metric_json_round_trip() {
    for v in [0u16, 1, 9, 10, 99, 100, 255, 1000, 65534, 65535] {
        let text = Metric::Value(v).to_json();
        assert_eq!(Some(Metric::Value(v)), Metric::from_json(&text));
    }
    assert_eq!(Some(Metric::Infinite), Metric::from_json(&Metric::Infinite.to_json()));
}

#[test]
fn metric_json_is_valid_json() {
    let v: u16 = serde_json::from_str(&Metric::Value(4242).to_json()).unwrap();
    assert_eq!(4242, v);
    let s: String = serde_json::from_str(&Metric::Infinite.to_json()).unwrap();
    assert_eq!("infinite", s);
}

#[test]
fn metric_from_json_rejects() {
    for text in ["", "010", "65536", "-1", "1 ", "\"Infinite\"", "infinite", "1e3", "é"] {
        assert_eq!(None, Metric::from_json(text), "{}", text);
    }
}
