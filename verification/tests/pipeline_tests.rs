use fstprof::hierarchy::{collect_signals, HierarchyEntry};
use fstprof::profile::{
    join_path, ProfileBuilder, SignalValue, ValueChangeEvent, KEY_MODULE, KEY_SIGNAL, KEY_VALUE,
};

fn scope(name: &str) -> HierarchyEntry {
    HierarchyEntry::Scope { name: name.to_string() }
}

fn var(name: &str, handle: u64) -> HierarchyEntry {
    HierarchyEntry::Var { name: name.to_string(), handle }
}

fn names(list: &[&str]) -> Vec<String> {
    list.iter().map(|s| s.to_string()).collect()
}

fn text_event(time: u64, handle: u64, text: &str) -> ValueChangeEvent {
    ValueChangeEvent { time, handle, value: SignalValue::Text(text.to_string()) }
}

fn label_str(profile: &fstprof::profile::Profile, sample_idx: usize, key: i64) -> String {
    let sample = &profile.sample[sample_idx];
    for label in &sample.label {
        if label.key == key {
            return profile.string_table[label.str_id as usize].clone();
        }
    }
    panic!("label key {key} not found on sample {sample_idx}");
}

#[test]
fn end_to_end_two_signals() {
    let entries = vec![
        scope("top"),
        var("clk", 0),
        scope("sub"),
        var("valid", 1),
        HierarchyEntry::UpScope,
        HierarchyEntry::UpScope,
    ];
    let md = collect_signals(&entries, &names(&["clk", "valid"])).unwrap();
    assert_eq!(md.names, vec!["clk".to_string(), "valid".to_string()]);
    assert_eq!(md.module_paths[0], vec!["top".to_string()]);
    assert_eq!(md.module_paths[1], vec!["top".to_string(), "sub".to_string()]);

    let events = vec![text_event(0, 0, "1"), text_event(5, 1, "0")];
    let mut builder = ProfileBuilder::new(0, 1000);
    builder.collect_samples(&md, &events);
    let profile = builder.finalize();

    assert_eq!(profile.string_table[0], "");
    assert_eq!(profile.sample.len(), 2);
    assert_eq!(label_str(&profile, 0, KEY_SIGNAL), "clk");
    assert_eq!(label_str(&profile, 0, KEY_MODULE), "top");
    assert_eq!(label_str(&profile, 0, KEY_VALUE), "1");
    assert_eq!(label_str(&profile, 1, KEY_SIGNAL), "valid");
    assert_eq!(label_str(&profile, 1, KEY_MODULE), "top.sub");
    assert_eq!(label_str(&profile, 1, KEY_VALUE), "0");
    assert_eq!(profile.sample[0].value, 1);
    assert_eq!(profile.sample[1].value, 1);
}

#[test]
fn absent_name_produces_zero_samples() {
    let entries = vec![scope("top"), var("clk", 0), HierarchyEntry::UpScope];
    let md = collect_signals(&entries, &names(&["missing"])).unwrap();
    let events = vec![text_event(0, 0, "1"), text_event(3, 0, "0")];
    let mut builder = ProfileBuilder::new(0, 100);
    builder.collect_samples(&md, &events);
    let profile = builder.finalize();
    assert!(profile.sample.is_empty());
    assert_eq!(profile.string_table[0], "");
}

#[test]
fn empty_request_still_yields_valid_profile() {
    let entries = vec![scope("top"), var("clk", 0), HierarchyEntry::UpScope];
    let md = collect_signals(&entries, &Vec::new()).unwrap();
    let events = vec![text_event(0, 0, "1")];
    let mut builder = ProfileBuilder::new(0, 100);
    builder.collect_samples(&md, &events);
    let profile = builder.finalize();
    assert!(profile.sample.is_empty());
    assert_eq!(profile.string_table[0], "");
    assert_eq!(profile.period, 1);
    assert!(profile.period_type.is_some());
    assert_eq!(profile.sample_type.len(), 1);
}

#[test]
fn real_valued_event_uses_magnitude() {
    let entries = vec![scope("top"), var("level", 4), HierarchyEntry::UpScope];
    let md = collect_signals(&entries, &names(&["level"])).unwrap();
    let events = vec![ValueChangeEvent {
        time: 2,
        handle: 4,
        value: SignalValue::Real { text: "real: 2.5".to_string(), magnitude: 2 },
    }];
    let mut builder = ProfileBuilder::new(0, 100);
    builder.collect_samples(&md, &events);
    let profile = builder.finalize();
    assert_eq!(profile.sample.len(), 1);
    assert_eq!(profile.sample[0].value, 2);
    assert_eq!(label_str(&profile, 0, KEY_VALUE), "real: 2.5");
}

#[test]
fn sample_order_follows_replay_order() {
    let entries = vec![
        scope("top"),
        var("a", 0),
        var("b", 1),
        HierarchyEntry::UpScope,
    ];
    let md = collect_signals(&entries, &names(&["a", "b"])).unwrap();
    let events = vec![
        text_event(0, 1, "x0"),
        text_event(1, 9, "ignored"),
        text_event(1, 0, "x1"),
        text_event(2, 1, "x2"),
        text_event(2, 1, "x3"),
    ];
    let mut builder = ProfileBuilder::new(0, 10);
    builder.collect_samples(&md, &events);
    let profile = builder.finalize();
    let texts: Vec<String> =
        (0..profile.sample.len()).map(|i| label_str(&profile, i, KEY_VALUE)).collect();
    assert_eq!(texts, vec!["x0", "x1", "x2", "x3"]);
}

#[test]
fn envelope_fields_derived_from_header_times() {
    let builder = ProfileBuilder::new(100, 1100);
    let profile = builder.finalize();
    assert_eq!(profile.duration_nanos, 1000);
    assert_eq!(profile.time_nanos, 10000);
    assert_eq!(profile.period, 1);
    let pt = profile.period_type.unwrap();
    assert_eq!(profile.string_table[pt.kind as usize], "cycle");
    assert_eq!(profile.string_table[pt.unit as usize], "number");
}

#[test]
fn join_path_concatenates_with_dots() {
    assert_eq!(join_path(&names(&["top", "sub"])), "top.sub");
    assert_eq!(join_path(&names(&["top"])), "top");
    assert_eq!(join_path(&Vec::new()), "");
}

#[test]
fn repeated_values_share_string_table_entries() {
    let entries = vec![scope("top"), var("clk", 0), HierarchyEntry::UpScope];
    let md = collect_signals(&entries, &names(&["clk"])).unwrap();
    let events = vec![
        text_event(0, 0, "1"),
        text_event(1, 0, "0"),
        text_event(2, 0, "1"),
    ];
    let mut builder = ProfileBuilder::new(0, 10);
    builder.collect_samples(&md, &events);
    let profile = builder.finalize();
    assert_eq!(profile.sample.len(), 3);
    let count_one = profile.string_table.iter().filter(|s| s.as_str() == "1").count();
    assert_eq!(count_one, 1);
}
