use chronicle_data_api::metrics::{HistogramCounts, Metrics, HISTOGRAM_BUCKETS};

#[test]
fn counters_accumulate_and_render_sorted() {
    let mut m = Metrics::new();
    m.inc_counter("b_total", 1);
    m.inc_counter("a_total", 2);
    m.inc_counter("b_total", 3);
    m.set_gauge("g", -4);
    m.set_gauge("g", 5);
    assert_eq!(
        m.render(),
        "# TYPE a_total counter\na_total 2\n# TYPE b_total counter\nb_total 4\n# TYPE g gauge\ng 5\n"
    );
}

#[test]
fn counters_wrap_at_u64_max() {
    let mut m = Metrics::new();
    m.inc_counter("c", u64::MAX);
    m.inc_counter("c", 2);
    assert_eq!(m.render(), "# TYPE c counter\nc 1\n");
}

#[test]
fn empty_registry_renders_nothing() {
    assert_eq!(Metrics::new().render(), "");
    let mut m = Metrics::new();
    m.set_gauge("neg", i64::MIN);
    assert_eq!(m.render(), "# TYPE neg gauge\nneg -9223372036854775808\n");
}

#[test]
fn increments_combine() {
    let mut a = Metrics::new();
    a.inc_counter("x", 5);
    a.inc_counter("x", u64::MAX - 1);
    let mut b = Metrics::new();
    b.inc_counter("x", 5u64.wrapping_add(u64::MAX - 1));
    assert_eq!(a.render(), b.render());
}

#[test]
fn histogram_buckets_are_cumulative_once() {
    let mut h = HistogramCounts::new();
    assert_eq!(h.cumulative(), vec![0; HISTOGRAM_BUCKETS]);
    h.observe(Some(0), 1_000_000);
    h.observe(Some(2), 20_000_000);
    h.observe(None, 30_000_000_000);
    h.observe(Some(2), 15_000_000);
    h.observe(Some(10), 9_000_000_000);
    assert_eq!(h.cumulative(), vec![1, 1, 3, 3, 3, 3, 3, 3, 3, 3, 4]);
    assert_eq!(h.count(), 5);
    assert_eq!(h.sum_nanos(), 39_036_000_000);
}

#[test]
fn histogram_counts_wrap_like_fetch_add() {
    let mut h = HistogramCounts::new();
    h.observe(None, u64::MAX);
    h.observe(None, 2);
    assert_eq!(h.sum_nanos(), 1);
    assert_eq!(h.count(), 2);
    assert_eq!(h.cumulative(), vec![0; HISTOGRAM_BUCKETS]);
}
