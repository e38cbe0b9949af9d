use stats::charts::{NewTxnsChart, TotalTxnsChart};
use stats::date::Date;
use stats::resolution::ResolutionKind;
use stats::store::{ChartDataRow, ChartDataStore, ChartsStore, StoreError, upsert_statement};
use stats::telemetry::{
    log_layer_plan, resource_attributes, CompactRootSpanBuilder, LogLayerPlan, OTLPSettings,
    TracingFormat, TracingSettings,
};
use stats::timespans::month::Month;
use stats::timespans::week::Week;
use stats::timestamp::Timestamp;
use stats::traits::{ChartKey, ChartProperties, ChartType, MissingDatePolicy, NamedProperty, Timespan};
use stats::values::{ExtendedTimespanValue, TimespanValue, ZeroTimespanValue};

fn d(y: i32, m: u8, day: u8) -> Date {
    Date::from_ymd_opt(y, m, day).unwrap()
}

fn row(chart_id: i32, date: Date, value: &str) -> ChartDataRow {
    ChartDataRow { chart_id, date, value: value.to_string(), min_blockscout_block: None }
}

#[test]
fn resolution_strings_round_trip() {
    let all = [
        ResolutionKind::Hour,
        ResolutionKind::Day,
        ResolutionKind::Week,
        ResolutionKind::Month,
        ResolutionKind::Year,
    ];
    for r in all {
        let s = r.as_db_str().to_string();
        assert_eq!(ResolutionKind::from_db_str(&s), Some(r));
    }
    assert_eq!(ResolutionKind::Hour.as_db_str(), "HOUR");
    assert_eq!(ResolutionKind::Day.as_db_str(), "DAY");
    assert_eq!(ResolutionKind::Week.as_db_str(), "WEEK");
    assert_eq!(ResolutionKind::Month.as_db_str(), "MONTH");
    assert_eq!(ResolutionKind::Year.as_db_str(), "YEAR");
    assert_eq!(ResolutionKind::from_db_str(&"hour".to_string()), None);
    assert_eq!(ResolutionKind::from_db_str(&"".to_string()), None);
}

#[test]
fn chart_key_string_form() {
    let key = ChartKey::new("newTxns".to_string(), ResolutionKind::Week);
    assert_eq!(key.name(), "newTxns");
    assert_eq!(*key.resolution(), ResolutionKind::Week);
    assert_eq!(key.to_key_string(), "newTxns_WEEK");
    let other = ChartKey::new("newTxns".to_string(), ResolutionKind::Week);
    assert_eq!(key, other);
    let third = ChartKey::new("newTxns".to_string(), ResolutionKind::Day);
    assert_ne!(key, third);
}

#[test]
fn chart_properties_defaults() {
    // A counter has one value, so no trailing point is approximate; a line
    // chart's latest point is approximate until its interval closes.
    assert_eq!(TotalTxnsChart::approximate_trailing_points(), 0);
    assert_eq!(NewTxnsChart::approximate_trailing_points(), 1);
    assert_eq!(NewTxnsChart::missing_date_policy(), MissingDatePolicy::FillZero);
    assert_eq!(TotalTxnsChart::missing_date_policy(), MissingDatePolicy::FillZero);
    assert_eq!(NewTxnsChart::chart_type(), ChartType::Line);
    assert_eq!(TotalTxnsChart::chart_type(), ChartType::Counter);
    assert_eq!(NewTxnsChart::resolution(), ResolutionKind::Day);
    assert_eq!(NewTxnsChart::key().to_key_string(), "newTxns_DAY");
}

#[test]
fn relevant_or_zero_replaces_stale_values() {
    let stale = TimespanValue::<Month, String> {
        timespan: Month::from_date(d(2024, 1, 1)),
        value: "5".to_string(),
    };
    let current = Month::from_date(d(2024, 3, 1));
    let result = stale.relevant_or_zero(current);
    assert_eq!(result.timespan, current);
    assert_eq!(result.value, "0");
}

#[test]
fn relevant_or_zero_keeps_current_values() {
    let current = Month::from_date(d(2024, 3, 1));
    let fresh = TimespanValue::<Month, String> { timespan: current, value: "7".to_string() };
    let result = fresh.clone().relevant_or_zero(Month::from_date(d(2024, 3, 1)));
    assert_eq!(result, fresh);
    let later = TimespanValue::<Month, String> {
        timespan: Month::from_date(d(2024, 5, 1)),
        value: "9".to_string(),
    };
    let result = later.clone().relevant_or_zero(current);
    assert_eq!(result, later);
}

#[test]
fn zero_timespan_value_for_integers() {
    let z = <TimespanValue<Week, i64> as ZeroTimespanValue<Week>>::with_zero_value(Week::new(
        d(2024, 2, 15),
    ));
    assert_eq!(z.value, 0);
    let stale = TimespanValue::<Week, i64> { timespan: Week::new(d(2024, 1, 3)), value: 4 };
    let current = Week::new(d(2024, 2, 15));
    let result = ZeroTimespanValue::relevant_or_zero(stale, current);
    assert_eq!(result.timespan, current);
    assert_eq!(result.value, 0);
}

#[test]
fn extended_values_attach_and_discard_the_flag() {
    let v = TimespanValue::<Month, String> {
        timespan: Month::from_date(d(2024, 1, 1)),
        value: "5".to_string(),
    };
    let e = ExtendedTimespanValue::from_timespan_value(v.clone(), true);
    assert!(e.is_approximate);
    assert_eq!(e.timespan, v.timespan);
    assert_eq!(e.value, v.value);
    let back: TimespanValue<Month, String> = e.into();
    assert_eq!(back, v);
}

#[test]
fn timespan_value_parts() {
    let v = TimespanValue::<Month, String>::from_parts(
        Month::from_date(d(2024, 1, 1)),
        "5".to_string(),
    );
    let (t, s) = v.parts();
    assert_eq!(*t, Month::from_date(d(2024, 1, 1)));
    assert_eq!(s, "5");
    let (t, s) = v.into_parts();
    assert_eq!(t, Month::from_date(d(2024, 1, 1)));
    assert_eq!(s, "5");
}

#[test]
fn active_model_stores_anchor_date() {
    let v = TimespanValue::<Month, String> {
        timespan: Month::from_date(d(2024, 2, 15)),
        value: "10".to_string(),
    };
    let r = v.active_model(7, Some(42));
    assert_eq!(r.chart_id, 7);
    assert_eq!(r.date, d(2024, 2, 1));
    assert_eq!(r.value, "10");
    assert_eq!(r.min_blockscout_block, Some(42));
}

#[test]
fn empty_batch_issues_no_statement() {
    assert!(upsert_statement(Vec::new()).is_none());
    let some = upsert_statement(vec![row(1, d(2024, 1, 1), "10")]);
    assert_eq!(some.unwrap().rows.len(), 1);
}

#[test]
fn empty_batch_leaves_store_untouched() {
    let mut store = ChartDataStore::new();
    store.insert_data_many(&vec![row(1, d(2024, 1, 1), "10")], Timestamp { secs: 100 });
    assert_eq!(store.len(), 1);
    store.insert_data_many(&Vec::new(), Timestamp { secs: 200 });
    assert_eq!(store.len(), 1);
}

#[test]
fn upsert_overwrites_value_and_keeps_created_at() {
    let mut store = ChartDataStore::new();
    store.insert_data_many(&vec![row(1, d(2024, 1, 1), "10")], Timestamp { secs: 100 });
    store.insert_data_many(&vec![row(1, d(2024, 1, 1), "12")], Timestamp { secs: 200 });
    assert_eq!(store.len(), 1);
    let stored = store.get(1, &d(2024, 1, 1)).unwrap();
    assert_eq!(stored.value, "12");
    assert_eq!(stored.created_at, Timestamp { secs: 100 });
}

#[test]
fn upsert_same_row_twice_is_idempotent() {
    let mut store = ChartDataStore::new();
    store.insert_data_many(&vec![row(1, d(2024, 1, 1), "10")], Timestamp { secs: 100 });
    store.insert_data_many(&vec![row(1, d(2024, 1, 1), "10")], Timestamp { secs: 250 });
    assert_eq!(store.len(), 1);
    let stored = store.get(1, &d(2024, 1, 1)).unwrap();
    assert_eq!(stored.value, "10");
    assert_eq!(stored.min_blockscout_block, None);
    assert_eq!(stored.created_at, Timestamp { secs: 100 });
}

#[test]
fn upserts_for_different_charts_are_independent() {
    let mut store = ChartDataStore::new();
    store.insert_data_many(
        &vec![row(1, d(2024, 1, 1), "10"), row(2, d(2024, 1, 1), "20")],
        Timestamp { secs: 100 },
    );
    store.insert_data_many(&vec![row(1, d(2024, 1, 1), "11")], Timestamp { secs: 150 });
    assert_eq!(store.len(), 2);
    assert_eq!(store.get(1, &d(2024, 1, 1)).unwrap().value, "11");
    assert_eq!(store.get(2, &d(2024, 1, 1)).unwrap().value, "20");
    assert!(store.get(3, &d(2024, 1, 1)).is_none());
    assert!(store.get(1, &d(2024, 1, 2)).is_none());
}

#[test]
fn watermark_updates_by_chart_id() {
    let mut charts = ChartsStore::new();
    charts.add_chart(1);
    charts.add_chart(2);
    assert_eq!(charts.last_updated_at(1), Some(None));
    let at = Timestamp { secs: 1_000 };
    assert_eq!(charts.set_last_updated_at(1, at), Ok(()));
    assert_eq!(charts.last_updated_at(1), Some(Some(at)));
    assert_eq!(charts.last_updated_at(2), Some(None));
    let later = Timestamp { secs: 2_000 };
    assert_eq!(charts.set_last_updated_at(1, later), Ok(()));
    assert_eq!(charts.last_updated_at(1), Some(Some(later)));
}

#[test]
fn watermark_update_fails_for_unknown_chart() {
    let mut charts = ChartsStore::new();
    charts.add_chart(1);
    assert_eq!(
        charts.set_last_updated_at(9, Timestamp { secs: 5 }),
        Err(StoreError::RecordNotUpdated)
    );
    assert_eq!(charts.last_updated_at(9), None);
    assert_eq!(charts.last_updated_at(1), Some(None));
}

#[test]
fn tracing_settings_defaults() {
    let t = TracingSettings::default();
    assert!(t.enabled);
    assert_eq!(t.format, TracingFormat::Default);
    let o = OTLPSettings::default();
    assert!(o.enabled);
    assert_eq!(o.service_name, "raas-blockscout-stat");
    assert_eq!(o.agent_endpoint, "127.0.0.1:6831");
}

#[test]
fn span_builder_skip_paths() {
    let mut b = CompactRootSpanBuilder::new();
    assert!(!b.should_skip(&"/health".to_string()));
    b.skip_paths(vec!["/health".to_string(), "/metrics".to_string()]);
    assert!(b.should_skip(&"/health".to_string()));
    assert!(b.should_skip(&"/metrics".to_string()));
    assert!(!b.should_skip(&"/api/v1/stats".to_string()));
    b.all_paths();
    assert!(!b.should_skip(&"/health".to_string()));
}

#[test]
fn span_builder_times_requests() {
    let mut b = CompactRootSpanBuilder::new();
    b.on_request_start(11, 1_000);
    b.on_request_start(12, 1_500);
    assert_eq!(b.on_request_end(11, 4_000), Some(3_000));
    // A span id that was never started, or was already finished, has no timing.
    assert_eq!(b.on_request_end(11, 5_000), None);
    assert_eq!(b.on_request_end(99, 5_000), None);
    assert_eq!(b.on_request_end(12, 1_400), Some(0));
}

#[test]
fn log_layers_follow_the_settings() {
    let disabled = TracingSettings { enabled: false, format: TracingFormat::Json };
    assert_eq!(log_layer_plan(&disabled), LogLayerPlan::NotInitialized);
    let plain = TracingSettings { enabled: true, format: TracingFormat::Default };
    assert_eq!(log_layer_plan(&plain), LogLayerPlan::PlainWithSpanEvents);
    let json = TracingSettings { enabled: true, format: TracingFormat::Json };
    assert_eq!(log_layer_plan(&json), LogLayerPlan::JsonWithRequestId);
}

#[test]
fn resource_attributes_include_pod_data_when_present() {
    let attrs = resource_attributes("svc".to_string(), None, None);
    assert_eq!(attrs, vec![("service.name".to_string(), "svc".to_string())]);
    let attrs = resource_attributes(
        "svc".to_string(),
        Some("pod-1".to_string()),
        Some("prod".to_string()),
    );
    assert_eq!(
        attrs,
        vec![
            ("service.name".to_string(), "svc".to_string()),
            ("k8s.pod.name".to_string(), "pod-1".to_string()),
            ("k8s.namespace.name".to_string(), "prod".to_string()),
        ]
    );
    let attrs = resource_attributes("svc".to_string(), None, Some("prod".to_string()));
    assert_eq!(attrs.len(), 2);
    assert_eq!(attrs[1].0, "k8s.namespace.name");
}
