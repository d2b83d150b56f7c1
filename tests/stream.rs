use nmea_filter::filter::StreamFilter;
use nmea_filter::gate::{is_listed, passes_gate, FilterRules};
use nmea_filter::record::Record;
use nmea_filter::text::{field_at, display_vec, same_text, text_lt};
use nmea_filter::time::{time_field_index, TimeOfDay, TimeWindow};
use nmea_filter::uniques::Uniques;

/// Frames a sentence body with `$`, `*` and its checksum.
fn sentence(body: &str) -> String {
    let sum = body.bytes().fold(0u8, |acc, b| acc ^ b);
    format!("${}*{:02X}", body, sum)
}

fn gga(time: &str) -> String {
    sentence(&format!("GPGGA,{},4807.038,N,01131.000,E,1,08,0.9,545.4,M,46.9,M,,", time))
}

fn xdr(talker: &str) -> String {
    sentence(&format!("{}XDR,C,19.52,C,TEMP", talker))
}

fn zda(time: &str) -> String {
    sentence(&format!("GPZDA,{},11,03,2024,00,00", time))
}

fn at(h: u32, m: u32, s: u32) -> TimeOfDay {
    TimeOfDay::from_hms_nano(h, m, s, 0).unwrap()
}

fn window(start: TimeOfDay, end: TimeOfDay) -> TimeWindow {
    TimeWindow { start, end }
}

fn strings(v: &[&str]) -> Vec<String> {
    v.iter().map(|s| s.to_string()).collect()
}

fn run(rules: FilterRules, lines: &[String]) -> Vec<String> {
    let mut f = StreamFilter::new(rules, false, false);
    f.filter_lines(&lines.to_vec())
}

#[test]
fn record_in_window_is_emitted() {
    let mut rules = FilterRules::new();
    rules.window = window(at(11, 0, 0), at(13, 0, 0));
    let line = gga("120000.00");
    assert_eq!(run(rules, &[line.clone()]), vec![line]);
}

#[test]
fn record_after_window_is_dropped() {
    let mut rules = FilterRules::new();
    rules.window = window(at(11, 0, 0), at(10, 0, 0));
    assert!(run(rules, &[gga("120000.00")]).is_empty());
    let mut rules = FilterRules::new();
    rules.window = window(at(0, 0, 0), at(10, 0, 0));
    assert!(run(rules, &[gga("120000.00")]).is_empty());
}

#[test]
fn include_categories_keeps_only_listed() {
    let mut rules = FilterRules::new();
    rules.include_categories = Some(strings(&["GGA"]));
    let a = gga("120000.00");
    let b = xdr("II");
    assert_eq!(run(rules, &[a.clone(), b]), vec![a]);
}

#[test]
fn exclude_senders_drops_listed_sender() {
    let mut rules = FilterRules::new();
    rules.exclude_senders = Some(strings(&["II"]));
    let a = xdr("GP");
    let b = xdr("II");
    let c = xdr("GP");
    assert_eq!(run(rules, &[a.clone(), b, c.clone()]), vec![a, c]);
}

#[test]
fn include_senders_keeps_listed_sender() {
    let mut rules = FilterRules::new();
    rules.include_senders = Some(strings(&["II"]));
    let a = xdr("GP");
    let b = xdr("II");
    assert_eq!(run(rules, &[a, b.clone()]), vec![b]);
}

#[test]
fn unique_categories_report_is_sorted_and_distinct() {
    let mut f = StreamFilter::new(FilterRules::new(), true, false);
    let out = f.filter_lines(&vec![gga("120000.00"), zda("120001.00"), gga("120002.00")]);
    assert!(out.is_empty());
    assert_eq!(f.report_lines(), vec!["GGA,ZDA".to_string()]);
}

#[test]
fn unique_senders_report_comes_before_categories() {
    let mut f = StreamFilter::new(FilterRules::new(), true, true);
    f.filter_lines(&vec![xdr("II"), gga("120000.00"), xdr("GP")]);
    assert_eq!(f.report_lines(), vec!["GP,II".to_string(), "GGA,XDR".to_string()]);
}

#[test]
fn report_does_not_depend_on_input_order() {
    let lines = vec![zda("120001.00"), xdr("II"), gga("120000.00"), xdr("GP")];
    let mut reversed = lines.clone();
    reversed.reverse();
    let mut f = StreamFilter::new(FilterRules::new(), true, true);
    f.filter_lines(&lines);
    let mut g = StreamFilter::new(FilterRules::new(), true, true);
    g.filter_lines(&reversed);
    assert_eq!(f.report_lines(), g.report_lines());
    assert_eq!(f.report_lines(), vec!["GP,II".to_string(), "GGA,XDR,ZDA".to_string()]);
}

#[test]
fn filtering_twice_changes_nothing() {
    let mut rules = FilterRules::new();
    rules.window = TimeWindow::unbounded();
    rules.exclude_categories = Some(strings(&["ZDA"]));
    let lines = vec![gga("120000.00"), zda("120001.00"), "garbage".to_string(), xdr("II")];
    let once = run(rules, &lines);
    assert_eq!(once, vec![lines[0].clone(), lines[3].clone()]);
    let mut rules = FilterRules::new();
    rules.window = TimeWindow::unbounded();
    rules.exclude_categories = Some(strings(&["ZDA"]));
    assert_eq!(run(rules, &once), once);
}

#[test]
fn untimed_category_keeps_current_time() {
    let mut f = StreamFilter::new(FilterRules::new(), false, false);
    f.process_line(&gga("123519.50"));
    assert_eq!(f.now, TimeOfDay { secs: 12 * 3600 + 35 * 60 + 19, frac: 500_000_000 });
    f.process_line(&xdr("II"));
    assert_eq!(f.now, TimeOfDay { secs: 12 * 3600 + 35 * 60 + 19, frac: 500_000_000 });
}

#[test]
fn time_is_carried_forward_into_window_decisions() {
    let mut rules = FilterRules::new();
    rules.window = window(at(11, 0, 0), at(13, 0, 0));
    let mut f = StreamFilter::new(rules, false, false);
    // before any time is known the current time is midnight
    assert!(!f.process_line(&xdr("II")));
    assert!(f.process_line(&gga("120000.00")));
    assert!(f.process_line(&xdr("II")));
    assert!(!f.process_line(&gga("140000.00")));
    assert!(!f.process_line(&xdr("II")));
}

#[test]
fn unreadable_time_field_keeps_time() {
    let mut f = StreamFilter::new(FilterRules::new(), false, false);
    f.process_line(&gga("100000.00"));
    f.process_line(&gga(""));
    assert_eq!(f.now, at(10, 0, 0));
    f.process_line(&gga("99xx00"));
    assert_eq!(f.now, at(10, 0, 0));
}

#[test]
fn begin_source_resets_time_but_keeps_uniques() {
    let mut f = StreamFilter::new(FilterRules::new(), true, false);
    f.process_line(&gga("100000.00"));
    f.begin_source();
    assert_eq!(f.now, TimeOfDay::midnight());
    f.process_line(&zda("110000.00"));
    assert_eq!(f.report_lines(), vec!["GGA,ZDA".to_string()]);
}

#[test]
fn bad_checksum_is_invalid_but_observed() {
    let good = xdr("II");
    let bad = format!("{}00", &good[..good.len() - 2]);
    let bad = if bad == good { format!("{}FF", &good[..good.len() - 2]) } else { bad };
    let r = Record::decode(&bad);
    assert!(r.decoded);
    assert!(!r.valid);
    let mut f = StreamFilter::new(FilterRules::new(), false, true);
    assert!(!f.process_line(&bad));
    assert_eq!(f.report_lines(), vec!["II".to_string()]);
}

#[test]
fn garbage_line_is_invalid_and_not_observed() {
    let r = Record::decode("not a sentence");
    assert!(!r.decoded);
    assert!(!r.valid);
    assert_eq!(r.category, "");
    let mut f = StreamFilter::new(FilterRules::new(), true, true);
    assert!(!f.process_line("not a sentence"));
    assert_eq!(f.report_lines(), vec!["".to_string(), "".to_string()]);
}

#[test]
fn empty_input_emits_nothing() {
    assert!(run(FilterRules::new(), &[]).is_empty());
}

#[test]
fn decode_reads_parts_of_sentence() {
    let line = gga("120000.00");
    let r = Record::decode(&line);
    assert!(r.decoded);
    assert!(r.valid);
    assert_eq!(r.category, "GGA");
    assert_eq!(r.sender, "GP");
    assert_eq!(r.data, "120000.00,4807.038,N,01131.000,E,1,08,0.9,545.4,M,46.9,M,,");
    assert_eq!(r.time_at(0), Some(at(12, 0, 0)));
    assert_eq!(r.time_at(2), None);
    assert_eq!(r.time_at(40), None);
}

#[test]
fn gll_time_is_in_field_four() {
    let line = sentence("GPGLL,4916.45,N,12311.12,W,225444.00,A,A");
    let mut f = StreamFilter::new(FilterRules::new(), false, false);
    assert!(f.process_line(&line));
    assert_eq!(f.now, at(22, 54, 44));
}

#[test]
fn gate_passes_by_default() {
    assert!(passes_gate(&None, &None, "XDR"));
    assert!(passes_gate(&None, &None, ""));
}

#[test]
fn gate_include_wins_over_exclude() {
    let inc = Some(strings(&["GGA"]));
    let exc = Some(strings(&["GGA", "RMC"]));
    assert!(passes_gate(&inc, &exc, "GGA"));
    assert!(!passes_gate(&inc, &exc, "RMC"));
    assert!(!passes_gate(&inc, &None, "RMC"));
    // a category in neither list passes through the exclude list
    assert!(passes_gate(&inc, &exc, "ZDA"));
}

#[test]
fn gate_exclude_alone() {
    let exc = Some(strings(&["XDR"]));
    assert!(!passes_gate(&None, &exc, "XDR"));
    assert!(passes_gate(&None, &exc, "GGA"));
    assert!(is_listed(&strings(&["A", "B"]), "B"));
    assert!(!is_listed(&strings(&["A", "B"]), "C"));
}

#[test]
fn time_field_table() {
    assert_eq!(time_field_index("GGA"), Some(0));
    assert_eq!(time_field_index("RLM"), Some(1));
    assert_eq!(time_field_index("GLL"), Some(4));
    assert_eq!(time_field_index("TLL"), Some(6));
    assert_eq!(time_field_index("TTM"), Some(13));
    assert_eq!(time_field_index("ZTG"), Some(0));
    assert_eq!(time_field_index("XDR"), None);
    assert_eq!(time_field_index(""), None);
}

#[test]
fn time_of_day_construction_and_order() {
    assert_eq!(TimeOfDay::from_hms_nano(23, 59, 59, 999_000_000), Some(TimeOfDay { secs: 86399, frac: 999_000_000 }));
    assert_eq!(TimeOfDay::from_hms_nano(24, 0, 0, 0), None);
    assert_eq!(TimeOfDay::from_hms_nano(1, 60, 0, 0), None);
    assert_eq!(TimeOfDay::from_hms_nano(1, 0, 58, 1_500_000_000), None);
    assert!(TimeOfDay::from_hms_nano(1, 0, 59, 1_500_000_000).is_some());
    assert!(at(1, 0, 0).is_at_or_before(&at(1, 0, 0)));
    assert!(at(1, 0, 0).is_at_or_before(&at(1, 0, 1)));
    assert!(!at(1, 0, 1).is_at_or_before(&at(1, 0, 0)));
    let w = TimeWindow::whole_day();
    assert!(w.admits(&at(0, 0, 0)));
    assert!(w.admits(&at(23, 59, 59)));
    assert!(!w.admits(&TimeOfDay { secs: 86399, frac: 999_500_000 }));
    assert!(!window(at(22, 0, 0), at(2, 0, 0)).admits(&at(23, 0, 0)));
}

#[test]
fn text_helpers() {
    assert!(same_text("GGA", "GGA"));
    assert!(!same_text("GGA", "GG"));
    assert!(text_lt("GGA", "ZDA"));
    assert!(text_lt("GG", "GGA"));
    assert!(!text_lt("GGA", "GGA"));
    assert!(!text_lt("b", "a"));
    assert_eq!(field_at("a,bc,,d", 0), Some("a"));
    assert_eq!(field_at("a,bc,,d", 1), Some("bc"));
    assert_eq!(field_at("a,bc,,d", 2), Some(""));
    assert_eq!(field_at("a,bc,,d", 3), Some("d"));
    assert_eq!(field_at("a,bc,,d", 4), None);
    assert_eq!(field_at("", 0), Some(""));
    assert_eq!(display_vec(&strings(&["x", "y", "z"])), "x,y,z");
    assert_eq!(display_vec(&strings(&[])), "");
}

#[test]
fn uniques_keep_sorted_distinct_values() {
    let mut u = Uniques::new();
    u.observe("ZDA", "II");
    u.observe("GGA", "GP");
    u.observe("ZDA", "");
    u.observe("", "GP");
    assert_eq!(u.categories_report(), "GGA,ZDA");
    assert_eq!(u.senders_report(), "GP,II");
    assert_eq!(u.messages, strings(&["GGA", "ZDA"]));
}
