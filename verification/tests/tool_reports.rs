use ipet::desktop_tools::WeatherLookupArgs;
use ipet::tool_reports::{
    cleanup_scan_continues, cleanup_selection, cleanup_worthy, CleanupCandidate, package_summary, search_abstract, search_results, weather_report, DdgAnswer, DdgLink, DdgTopic,
    PackageManifest, WeatherCurrent, WeatherReading,
};

fn s(v: &str) -> Option<String> {
    Some(v.to_string())
}

fn current() -> WeatherCurrent {
    WeatherCurrent {
        temp_c: s("21"),
        temp_f: s("70"),
        feels_like_c: s("20"),
        feels_like_f: None,
        humidity: s("40"),
        wind_kmph: None,
        description: s("Sunny"),
    }
}

#[test]
fn weather_report_formats_in_the_requested_unit() {
    let req = WeatherLookupArgs { city: "  Hangzhou ".to_string(), units: None }.request().unwrap();
    let r = weather_report(WeatherReading { area_name: None, current: Some(current()) }, &req).unwrap();
    assert_eq!(r.city, "Hangzhou");
    assert_eq!(r.description, "Sunny");
    assert_eq!(r.temperature, "21°C");
    assert_eq!(r.feels_like, "20°C");
    assert_eq!(r.humidity, "40%");
    assert_eq!(r.wind_kmph, "?");
    assert_eq!(r.units, "c");

    let req = WeatherLookupArgs { city: "x".to_string(), units: s("F") }.request().unwrap();
    let r = weather_report(WeatherReading { area_name: s("London"), current: Some(current()) }, &req).unwrap();
    assert_eq!(r.city, "London");
    assert_eq!(r.temperature, "70°F");
    assert_eq!(r.feels_like, "?°F");
    assert_eq!(r.units, "f");
}

#[test]
fn weather_report_needs_current_conditions() {
    let req = WeatherLookupArgs { city: "x".to_string(), units: None }.request().unwrap();
    let err = weather_report(WeatherReading { area_name: None, current: None }, &req).unwrap_err();
    assert_eq!(err, "wttr.in: no current_condition");
}

fn link(text: Option<&str>, url: Option<&str>) -> DdgLink {
    DdgLink { text: text.map(str::to_string), first_url: url.map(str::to_string) }
}

#[test]
fn search_results_flatten_groups_and_stop_at_max() {
    let long = "x".repeat(400);
    let answer = DdgAnswer {
        related_topics: vec![
            DdgTopic { text: s("A"), first_url: s("https://a"), topics: vec![link(Some("ignored"), None)] },
            DdgTopic {
                text: None,
                first_url: None,
                topics: vec![link(Some("B"), None), link(None, Some("https://none")), link(Some(&long), Some("https://c"))],
            },
            DdgTopic { text: s("D"), first_url: None, topics: vec![] },
        ],
        abstract_text: s(""),
    };
    let all = search_results(&answer, 10);
    let titles: Vec<&str> = all.iter().map(|r| r.title.as_str()).collect();
    assert_eq!(all.len(), 4);
    assert_eq!(&titles[..2], &["A", "B"]);
    assert_eq!(all[0].url, "https://a");
    assert_eq!(all[1].url, "");
    assert_eq!(all[2].title, format!("{}\n...[truncated]", "x".repeat(120)));
    assert_eq!(all[2].snippet, format!("{}\n...[truncated]", "x".repeat(300)));
    assert_eq!(all[3].title, "D");
    assert_eq!(search_results(&answer, 2).len(), 2);
    assert_eq!(search_abstract(&answer), None);
    let with_abstract = DdgAnswer { related_topics: vec![], abstract_text: s("About") };
    assert_eq!(search_abstract(&with_abstract).as_deref(), Some("About"));
    assert!(search_results(&with_abstract, 5).is_empty());
}

#[test]
fn package_summary_defaults_missing_fields() {
    let full = package_summary(
        "/p".to_string(),
        PackageManifest { name: s("demo"), version: s("1.2.3"), scripts: s(r#"{"test":"vitest run"}"#) },
    );
    assert_eq!((full.path.as_str(), full.name.as_str(), full.version.as_str()), ("/p", "demo", "1.2.3"));
    assert_eq!(full.scripts, r#"{"test":"vitest run"}"#);
    let bare = package_summary("/q".to_string(), PackageManifest { name: None, version: None, scripts: None });
    assert_eq!((bare.name.as_str(), bare.version.as_str(), bare.scripts.as_str()), ("", "", "{}"));
}

fn cand(path: &str, size: u64) -> CleanupCandidate {
    CleanupCandidate { path: path.to_string(), size_bytes: size, modified_at: None }
}

#[test]
fn cleanup_lists_largest_first_and_totals() {
    let (listed, total) = cleanup_selection(
        vec![cand("a", 70_000), cand("b", 900_000), cand("c", 70_000), cand("d", 500_000)],
        3,
    );
    let paths: Vec<&str> = listed.iter().map(|c| c.path.as_str()).collect();
    assert_eq!(paths, vec!["b", "d", "a"]);
    assert_eq!(total, 1_470_000);
    let (_, saturated) = cleanup_selection(vec![cand("x", u64::MAX), cand("y", 5)], 10);
    assert_eq!(saturated, u64::MAX);
    assert!(cleanup_worthy(true, 65_536));
    assert!(!cleanup_worthy(true, 65_535));
    assert!(!cleanup_worthy(false, 1 << 30));
    assert!(cleanup_scan_continues(50_000, 159, 40));
    assert!(!cleanup_scan_continues(50_000, 160, 40));
    assert!(!cleanup_scan_continues(50_001, 0, 40));
}
