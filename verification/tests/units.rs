//! Unit tests for the exact rate arithmetic, the scanners and the demand
//! engine's delta propagation.

use x4productionplanner::catalog::{
    SingleWare, SingleWareInfo, SingleWareProduction, TranslationPos, Wares,
};
use x4productionplanner::config::check_gamedir;
use x4productionplanner::counts::{
    format_counts_input, format_counts_output, parse_counts_input, parse_counts_output,
    CountsInput, CountsOutput,
};
use x4productionplanner::engine::Fabrics;
use x4productionplanner::errors::{ConfigError, DataError};
use x4productionplanner::rates::{fabrics_count, gcd_u128, rate_add, rate_scale, Rate};
use x4productionplanner::text::{parse_ms, parse_u32, str_to_chars, trim, chars_to_string};

fn method(
    name: &str,
    cicle_milliseconds: u64,
    wares_per_cicle: usize,
    deps: Vec<(&str, usize)>,
) -> (String, SingleWareProduction) {
    (
        name.to_string(),
        SingleWareProduction {
            method: name.to_string(),
            cicle_milliseconds,
            wares_per_cicle,
            wares_dependencies: deps
                .into_iter()
                .map(|(n, q)| (n.to_string(), q))
                .collect(),
            translation: TranslationPos { page: "20206".to_string(), id: "101".to_string() },
        },
    )
}

fn ware(id: &str, methods: Vec<(String, SingleWareProduction)>) -> (String, SingleWare) {
    (
        id.to_string(),
        SingleWare {
            info: SingleWareInfo {
                ware_id: id.to_string(),
                price_min: 1,
                price_max: 2,
                transport: "container".to_string(),
            },
            production_methods: methods,
            translation: None,
        },
    )
}

#[test]
fn per_facility_rate_of_one_minute_cycle() {
    // cycle 60 s, output 175 => 175 per minute
    let (_, m) = method("default", 60_000, 175, vec![]);
    assert_eq!(m.wares_per_minute(), Some(Rate { num: 175, den: 1 }));
}

#[test]
fn per_facility_rate_of_subsecond_cycle() {
    // cycle 1.5 s, output 1 => 40 per minute
    let (_, m) = method("default", 1_500, 1, vec![]);
    assert_eq!(m.wares_per_minute(), Some(Rate { num: 40, den: 1 }));
}

#[test]
fn facility_count_exact_division() {
    // 350 per minute against a 175-per-minute recipe: exactly 2 facilities
    let (_, m) = method("default", 60_000, 175, vec![]);
    assert_eq!(
        m.fabrics_count_from_desired_wares_per_minute(&Rate { num: 350, den: 1 }),
        Some(2)
    );
}

#[test]
fn facility_count_exact_ceiling_boundary() {
    // 36 per minute against a 7.2-per-minute recipe (output 72, cycle 600 s):
    // the ceiling of exactly 5.0 is 5
    let (_, m) = method("default", 600_000, 72, vec![]);
    assert_eq!(m.wares_per_minute(), Some(Rate { num: 36, den: 5 }));
    assert_eq!(
        m.fabrics_count_from_desired_wares_per_minute(&Rate { num: 36, den: 1 }),
        Some(5)
    );
}

#[test]
fn facility_count_rounds_up() {
    let (_, m) = method("default", 60_000, 100, vec![]);
    assert_eq!(
        m.fabrics_count_from_desired_wares_per_minute(&Rate { num: 101, den: 1 }),
        Some(2)
    );
    assert_eq!(
        m.fabrics_count_from_desired_wares_per_minute(&Rate { num: 1, den: 3 }),
        Some(1)
    );
    assert_eq!(
        m.fabrics_count_from_desired_wares_per_minute(&Rate { num: 0, den: 1 }),
        Some(0)
    );
}

#[test]
fn rate_arithmetic_is_exact() {
    assert_eq!(gcd_u128(12, 18), 6);
    assert_eq!(gcd_u128(0, 7), 7);
    let third = Rate { num: 1, den: 3 };
    let sixth = Rate { num: 1, den: 6 };
    assert_eq!(rate_add(&third, &sixth), Some(Rate { num: 1, den: 2 }));
    assert_eq!(rate_scale(&third, 9), Some(Rate { num: 3, den: 1 }));
    assert_eq!(
        fabrics_count(&Rate { num: 115, den: 1 }, &Rate { num: 175, den: 1 }),
        Some(1)
    );
}

#[test]
fn no_propagation_when_count_is_unchanged() {
    // 100-per-minute recipe consuming 30 inputs per cycle: merging demand
    // from 10 to 15 per minute stays within one facility, so the input ware
    // keeps its earlier demand.
    let wares = Wares {
        id_to_dsc: vec![
            ware("thing", vec![method("default", 60_000, 100, vec![("raw", 30)])]),
            ware("raw", vec![]),
        ],
    };
    let mut fabrics = Fabrics::new(&wares);
    let empty: Vec<String> = Vec::new();
    fabrics
        .add_wares(&"thing".to_string(), &Rate { num: 10, den: 1 }, &empty, &empty)
        .unwrap();
    let raw_before = fabrics
        .acc
        .iter()
        .find(|e| e.0 == "raw")
        .map(|e| e.1)
        .unwrap();
    assert_eq!(raw_before, Rate { num: 30, den: 1 });
    fabrics
        .add_wares(&"thing".to_string(), &Rate { num: 5, den: 1 }, &empty, &empty)
        .unwrap();
    let thing = fabrics.acc.iter().find(|e| e.0 == "thing").unwrap();
    assert_eq!(thing.1, Rate { num: 15, den: 1 });
    assert!(matches!(thing.3, Some((1, _))));
    let raw_after = fabrics
        .acc
        .iter()
        .find(|e| e.0 == "raw")
        .map(|e| e.1)
        .unwrap();
    assert_eq!(raw_after, raw_before);
}

#[test]
fn propagation_resumes_when_count_grows() {
    let wares = Wares {
        id_to_dsc: vec![
            ware("thing", vec![method("default", 60_000, 100, vec![("raw", 30)])]),
            ware("raw", vec![]),
        ],
    };
    let mut fabrics = Fabrics::new(&wares);
    let empty: Vec<String> = Vec::new();
    fabrics
        .add_wares(&"thing".to_string(), &Rate { num: 10, den: 1 }, &empty, &empty)
        .unwrap();
    fabrics
        .add_wares(&"thing".to_string(), &Rate { num: 95, den: 1 }, &empty, &empty)
        .unwrap();
    let thing = fabrics.acc.iter().find(|e| e.0 == "thing").unwrap();
    assert!(matches!(thing.3, Some((2, _))));
    let raw = fabrics.acc.iter().find(|e| e.0 == "raw").unwrap();
    assert_eq!(raw.1, Rate { num: 60, den: 1 });
}

#[test]
fn method_selection_priority_wins() {
    let (_, w) = ware(
        "widget",
        vec![
            method("default", 60_000, 10, vec![]),
            method("teladi", 60_000, 12, vec![]),
        ],
    );
    let picked = w
        .find_desired_method(&vec!["teladi".to_string()], &Vec::new())
        .unwrap();
    assert_eq!(picked.method, "teladi");
}

#[test]
fn method_selection_blacklist_skips() {
    let (_, w) = ware(
        "widget",
        vec![
            method("default", 60_000, 10, vec![]),
            method("teladi", 60_000, 12, vec![]),
        ],
    );
    let picked = w
        .find_desired_method(&Vec::new(), &vec!["default".to_string()])
        .unwrap();
    assert_eq!(picked.method, "teladi");
}

#[test]
fn method_selection_all_blacklisted_fails() {
    let (_, w) = ware(
        "widget",
        vec![
            method("default", 60_000, 10, vec![]),
            method("teladi", 60_000, 12, vec![]),
        ],
    );
    let err = w
        .find_desired_method(
            &Vec::new(),
            &vec!["default".to_string(), "teladi".to_string()],
        )
        .unwrap_err();
    assert!(matches!(err, DataError::AllMethodsBlacklisted(id) if id == "widget"));
}

#[test]
fn ware_without_methods_cannot_take_fabrics_demand() {
    let wares = Wares { id_to_dsc: vec![ware("raw", vec![])] };
    let mut fabrics = Fabrics::new(&wares);
    let empty: Vec<String> = Vec::new();
    let err = fabrics
        .add_fabrics(&"raw".to_string(), 1, &empty, &empty)
        .unwrap_err();
    assert!(matches!(err, DataError::NoProductionMethods(id) if id == "raw"));
}

#[test]
fn unknown_ware_demand_fails() {
    let wares = Wares { id_to_dsc: vec![] };
    let mut fabrics = Fabrics::new(&wares);
    let empty: Vec<String> = Vec::new();
    let err = fabrics
        .add_wares(&"ghost".to_string(), &Rate { num: 1, den: 1 }, &empty, &empty)
        .unwrap_err();
    assert!(matches!(err, DataError::UnknownWare(id) if id == "ghost"));
}

#[test]
fn parse_numbers() {
    assert_eq!(parse_u32(&str_to_chars("0")), Some(0));
    assert_eq!(parse_u32(&str_to_chars("4294967295")), Some(u32::MAX));
    assert_eq!(parse_u32(&str_to_chars("4294967296")), None);
    assert_eq!(parse_u32(&str_to_chars("")), None);
    assert_eq!(parse_u32(&str_to_chars("12a")), None);
    assert_eq!(parse_ms(&str_to_chars("60")), Some(60_000));
    assert_eq!(parse_ms(&str_to_chars("1.5")), Some(1_500));
    assert_eq!(parse_ms(&str_to_chars("0.25")), Some(250));
    assert_eq!(parse_ms(&str_to_chars("1.")), None);
    assert_eq!(parse_ms(&str_to_chars("1.0000")), None);
}

#[test]
fn trim_strips_whitespace() {
    let t = trim(&str_to_chars("  hello there \t\n"));
    assert_eq!(chars_to_string(&t), "hello there");
    let all = trim(&str_to_chars(" \t "));
    assert_eq!(chars_to_string(&all), "");
}

#[test]
fn counts_text_round_trip() {
    let fab = CountsInput::Fabrics(17);
    assert_eq!(format_counts_input(&fab), "Fabrics(17)");
    assert_eq!(parse_counts_input("Fabrics(17)"), Some(fab));
    let wpm = CountsInput::WaresPerMinute(Rate { num: 3, den: 2 });
    assert_eq!(format_counts_input(&wpm), "WaresPerMinute(3/2)");
    assert_eq!(parse_counts_input("WaresPerMinute(3/2)"), Some(wpm));
    assert_eq!(
        parse_counts_input("WaresPerMinute(1.5)"),
        Some(CountsInput::WaresPerMinute(Rate { num: 3, den: 2 }))
    );
    assert_eq!(
        parse_counts_input("WaresPerMinute(36)"),
        Some(CountsInput::WaresPerMinute(Rate { num: 36, den: 1 }))
    );
    assert_eq!(parse_counts_input("Fabrics()"), None);
    assert_eq!(parse_counts_input("nonsense"), None);

    let produce = CountsOutput::Produce("teladi".to_string(), 4);
    assert_eq!(format_counts_output(&produce), "Produce(teladi, 4)");
    assert_eq!(parse_counts_output("Produce(teladi,4)"), Some(produce));
    assert_eq!(parse_counts_output("Import"), Some(CountsOutput::Import));
    assert_eq!(format_counts_output(&CountsOutput::Import), "Import");
    assert_eq!(parse_counts_output("Produce(x)"), None);
}

#[test]
fn gamedir_check_names_the_missing_file() {
    assert_eq!(check_gamedir(true, true), Ok(()));
    assert!(matches!(
        check_gamedir(false, true),
        Err(ConfigError::BadGamedir(w)) if w == "translation-file"
    ));
    assert!(matches!(
        check_gamedir(true, false),
        Err(ConfigError::BadGamedir(w)) if w == "production-file"
    ));
}

#[test]
fn dependency_cycle_exhausts_depth() {
    let wares = Wares {
        id_to_dsc: vec![
            ware("a", vec![method("default", 60_000, 1, vec![("b", 10)])]),
            ware("b", vec![method("default", 60_000, 1, vec![("a", 10)])]),
        ],
    };
    let mut fabrics = Fabrics::new(&wares);
    let empty: Vec<String> = Vec::new();
    let err = fabrics
        .add_wares(&"a".to_string(), &Rate { num: 1, den: 1 }, &empty, &empty)
        .unwrap_err();
    assert!(matches!(err, DataError::DependencyDepthExceeded(_)));
}

#[test]
fn overflowing_merge_is_reported() {
    let wares = Wares { id_to_dsc: vec![ware("raw", vec![])] };
    let mut fabrics = Fabrics::new(&wares);
    let empty: Vec<String> = Vec::new();
    let big_a = Rate { num: 1, den: (1u64 << 62) + 1 };
    let big_b = Rate { num: 1, den: (1u64 << 62) - 1 };
    fabrics
        .add_wares(&"raw".to_string(), &big_a, &empty, &empty)
        .unwrap();
    let err = fabrics
        .add_wares(&"raw".to_string(), &big_b, &empty, &empty)
        .unwrap_err();
    assert!(matches!(err, DataError::NumericOverflow(id) if id == "raw"));
}

#[test]
fn zero_rate_demand_is_a_no_op() {
    let wares = Wares { id_to_dsc: vec![ware("raw", vec![])] };
    let mut fabrics = Fabrics::new(&wares);
    let empty: Vec<String> = Vec::new();
    fabrics
        .add_wares(&"raw".to_string(), &Rate { num: 0, den: 1 }, &empty, &empty)
        .unwrap();
    assert!(fabrics.acc.is_empty());
}

#[test]
fn merge_order_does_not_matter() {
    let wares = Wares {
        id_to_dsc: vec![
            ware("thing", vec![method("default", 60_000, 100, vec![("raw", 30)])]),
            ware("raw", vec![]),
        ],
    };
    let empty: Vec<String> = Vec::new();
    let run = |demands: &[Rate]| {
        let mut fabrics = Fabrics::new(&wares);
        for d in demands {
            fabrics
                .add_wares(&"thing".to_string(), d, &empty, &empty)
                .unwrap();
        }
        let thing = fabrics.acc.iter().find(|e| e.0 == "thing").unwrap();
        (thing.1, thing.3.map(|(c, _)| c))
    };
    let r1 = Rate { num: 110, den: 3 };
    let r2 = Rate { num: 40, den: 7 };
    let sum = x4productionplanner::rates::rate_add(&r1, &r2).unwrap();
    let a = run(&[r1, r2]);
    let b = run(&[r2, r1]);
    let c = run(&[sum]);
    assert_eq!(a, b);
    assert_eq!(a, c);
}
