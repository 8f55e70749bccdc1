use mopso_cli::mopso::{cli_report_due, stop_after, AdaptiveInertia, InertiaStep, ProgressGate, StopRule};
use mopso_cli::paths::{add_suffix_to_filename, append_stamp, append_timestamp, chrono_local_now, config_name_from_path};
use mopso_cli::problem::{compile_problem, find_builtin, BuiltinProblem};
use mopso_cli::report::{build_overview_order, csv_header, BenchmarkKey};
use mopso_cli::settings::{
    default_archive_size, default_convergence_json, default_grid_divisions, default_max_iter,
    default_pareto_csv, default_pop_size, fmt_field, AlgorithmSettings, Overrides,
};
use mopso_cli::text::{data_file_rows, list_items, parse_usize, split_commas_trimmed, trim, u64_to_string, usize_to_string};

#[test]
fn suffix_goes_before_the_extension() {
    assert_eq!(add_suffix_to_filename("out.csv", "_merged"), "out_merged.csv");
    assert_eq!(add_suffix_to_filename("out", "_merged"), "out_merged");
    assert_eq!(add_suffix_to_filename("a.b.c", "_x"), "a.b_x.c");
    assert_eq!(add_suffix_to_filename("dir.d/file", "_x"), "dir_x.d/file");
    assert_eq!(add_suffix_to_filename("", "_x"), "_x");
}

#[test]
fn stamp_goes_before_the_extension() {
    assert_eq!(append_stamp("pareto_front.csv", "1700000000"), "pareto_front_1700000000.csv");
    assert_eq!(append_stamp("results", "42"), "results_42");
}

#[test]
fn timestamp_is_decimal_seconds() {
    let now = chrono_local_now();
    assert!(!now.is_empty());
    assert!(now.chars().all(|c| c.is_ascii_digit()));
    let stamped = append_timestamp("out.json");
    assert!(stamped.starts_with("out_"));
    assert!(stamped.ends_with(".json"));
    let middle = &stamped[4..stamped.len() - 5];
    assert!(middle.chars().all(|c| c.is_ascii_digit()));
}

#[test]
fn config_names() {
    assert_eq!(config_name_from_path("configs/Fast.TOML"), "Fast");
    assert_eq!(config_name_from_path("slow.toml"), "slow");
    assert_eq!(config_name_from_path("a/b/notes.txt"), "notes.txt");
    assert_eq!(config_name_from_path("dir/"), "dir");
    assert_eq!(config_name_from_path(".."), "..");
}

#[test]
fn defaults() {
    assert_eq!(default_pop_size(), 100);
    assert_eq!(default_max_iter(), 500);
    assert_eq!(default_archive_size(), 200);
    assert_eq!(default_grid_divisions(), 20);
    assert_eq!(default_pareto_csv(), "pareto_front.csv");
    assert_eq!(default_convergence_json(), "convergence.json");
}

#[test]
fn field_formatting() {
    assert_eq!(fmt_field("100", true), "100 (overridden)");
    assert_eq!(fmt_field("standard", false), "standard");
}

#[test]
fn decimal_rendering() {
    assert_eq!(usize_to_string(0), "0");
    assert_eq!(usize_to_string(1234), "1234");
    assert_eq!(u64_to_string(u64::MAX), u64::MAX.to_string());
}

#[test]
fn usize_parsing() {
    assert_eq!(parse_usize("42"), Some(42));
    assert_eq!(parse_usize("+7"), Some(7));
    assert_eq!(parse_usize("007"), Some(7));
    assert_eq!(parse_usize(""), None);
    assert_eq!(parse_usize("+"), None);
    assert_eq!(parse_usize("-1"), None);
    assert_eq!(parse_usize("12a"), None);
    assert_eq!(parse_usize(" 1"), None);
    assert_eq!(parse_usize("99999999999999999999999"), None);
    assert_eq!(parse_usize(&usize::MAX.to_string()), Some(usize::MAX));
    for n in [0usize, 9, 10, 65535, 123456789] {
        assert_eq!(parse_usize(&usize_to_string(n)), Some(n));
        assert_eq!(parse_usize(&n.to_string()), n.to_string().parse::<usize>().ok());
    }
}

#[test]
fn builtin_problem_names() {
    assert_eq!(find_builtin("ZDT1"), Ok(BuiltinProblem::Zdt1));
    assert_eq!(find_builtin("zdt3"), Ok(BuiltinProblem::Zdt3));
    assert_eq!(find_builtin("Welded_Beam"), Ok(BuiltinProblem::WeldedBeam));
    assert_eq!(find_builtin("weldedbeam"), Ok(BuiltinProblem::WeldedBeam));
    assert_eq!(find_builtin("PressureVessel"), Ok(BuiltinProblem::PressureVessel));
    assert_eq!(
        find_builtin("zdt9"),
        Err("Unknown built-in problem: zdt9. Available: zdt1, zdt2, zdt3, welded_beam, pressure_vessel".to_string())
    );
}

#[test]
fn problem_compilation() {
    let vars = vec!["x".to_string(), "y".to_string()];
    let ok = compile_problem(&vars, &["x + y".to_string(), "x*y".to_string()], &["x - 1".to_string()], &[])
        .ok()
        .unwrap();
    assert_eq!(ok.var_names, vars);
    assert_eq!(ok.objectives.len(), 2);
    assert_eq!(ok.inequality_constraints.len(), 1);
    assert_eq!(ok.equality_constraints.len(), 0);
    let bad = compile_problem(&vars, &["x".to_string()], &["z".to_string()], &["(".to_string()]);
    assert_eq!(
        bad.err(),
        Some("Unknown variable 'z' in expression. Allowed: [\"x\", \"y\"]".to_string())
    );
    let bad2 = compile_problem(&vars, &["x +".to_string()], &[], &[]);
    assert_eq!(bad2.err(), Some("Unexpected token in expression".to_string()));
}

fn key(name: &str, config: Option<&str>) -> BenchmarkKey {
    BenchmarkKey { name: name.to_string(), config_name: config.map(|c| c.to_string()) }
}

#[test]
fn overview_order() {
    let keys = vec![
        key("zdt1", Some("fast")),
        key("zdt2", Some("fast")),
        key("zdt1", Some("slow")),
        key("zdt2", Some("slow")),
        key("zdt1", Some("fast")),
    ];
    assert_eq!(build_overview_order(&keys, false), vec![0, 4, 2, 1, 3]);
    assert_eq!(build_overview_order(&keys, true), vec![0, 1, 2, 3, 4]);
    let unnamed = vec![key("zdt1", None), key("zdt2", None)];
    assert_eq!(build_overview_order(&unnamed, false), Vec::<usize>::new());
}

#[test]
fn stagnation_stops_a_run() {
    let mut rule = StopRule::new(2);
    rule.record(true);
    assert_eq!(rule.stagnation_count, 0);
    rule.record(true);
    assert!(!rule.stagnated());
    rule.record(true);
    assert!(rule.stagnated());
    rule.record(false);
    assert_eq!(rule.stagnation_count, 0);
    assert_eq!(stop_after(4, true, false), None);
    assert_eq!(stop_after(4, true, true), Some(5));
    assert_eq!(stop_after(4, false, false), Some(5));
}

#[test]
fn adaptive_inertia_steps() {
    let mut a = AdaptiveInertia::new();
    for _ in 0..10 {
        assert_eq!(a.record(false), InertiaStep::Lower);
    }
    assert_eq!(a.record(false), InertiaStep::Raise);
    assert_eq!(a.record(true), InertiaStep::Lower);
    assert_eq!(a.no_improve_count, 0);
}

#[test]
fn progress_gate() {
    let mut g = ProgressGate::new();
    assert_eq!(g.on_iteration(1, 100), (false, false));
    assert_eq!(g.on_iteration(5, 100), (true, false));
    assert_eq!(g.on_iteration(7, 100), (false, false));
    assert_eq!(g.on_iteration(10, 100), (true, true));
    assert_eq!(g.on_iteration(15, 100), (true, false));
    assert_eq!(g.on_iteration(100, 100), (true, true));
    assert!(cli_report_due(50, 500, 50));
    assert!(cli_report_due(7, 7, 50));
    assert!(!cli_report_due(7, 500, 50));
}

#[test]
fn overrides_replace_given_settings() {
    let mut s: AlgorithmSettings<f64, &str> = AlgorithmSettings {
        population_size: 100,
        max_iterations: 500,
        archive_size: 200,
        inertia_weight: None,
        c1: 2.0,
        c2: 2.0,
        grid_divisions: 20,
        variant: "standard".to_string(),
        stagnation_limit: 50,
        stagnation_threshold: 1e-6,
    };
    let names = s.apply_overrides(Overrides {
        population_size: Some(40),
        max_iterations: None,
        archive_size: None,
        inertia_weight: Some("fixed 0.5"),
        c1: None,
        c2: Some(1.5),
        grid_divisions: None,
        variant: Some("adaptive".to_string()),
        stagnation_limit: None,
        stagnation_threshold: Some(1e-3),
    });
    assert_eq!(names, vec!["pop", "inertia", "c2", "variant", "stag_thresh"]);
    assert_eq!(s.population_size, 40);
    assert_eq!(s.max_iterations, 500);
    assert_eq!(s.inertia_weight, Some("fixed 0.5"));
    assert_eq!(s.c1, 2.0);
    assert_eq!(s.c2, 1.5);
    assert_eq!(s.variant, "adaptive");
    assert_eq!(s.stagnation_threshold, 1e-3);
}

#[test]
fn trimming_matches_str_trim() {
    let samples = ["  a b \t\n", "\u{3000}x\u{a0}", "", "   ", "x", "\u{85}y z\u{2028}", "\u{200b}q"];
    for s in samples {
        assert_eq!(trim(s), s.trim());
    }
    assert_eq!(trim(" 11.0, 11.0 "), "11.0, 11.0");
}

#[test]
fn comma_lists() {
    assert_eq!(split_commas_trimmed(" 1, 2 ,3"), vec!["1", "2", "3"]);
    assert_eq!(split_commas_trimmed(",x,"), vec!["", "x", ""]);
    assert_eq!(split_commas_trimmed(""), vec![""]);
    assert_eq!(list_items("zdt1, zdt2,,  welded_beam , "), vec!["zdt1", "zdt2", "welded_beam"]);
    assert_eq!(list_items("  "), Vec::<String>::new());
    for s in ["a,b", " a , ,b ", ",,", "x"] {
        let expected: Vec<String> = s.split(',').map(|p| p.trim().to_string()).collect();
        assert_eq!(split_commas_trimmed(s), expected);
        let items: Vec<String> = expected.into_iter().filter(|p| !p.is_empty()).collect();
        assert_eq!(list_items(s), items);
    }
}

#[test]
fn data_file_rows_skip_blanks_and_comments() {
    let content = "# front\n0.0, 1.0\n\n  0.5 0.5\r\n1.0,,0.0\n# end\nx y";
    let rows = data_file_rows(content);
    assert_eq!(
        rows,
        vec![
            vec!["0.0".to_string(), "1.0".to_string()],
            vec!["0.5".to_string(), "0.5".to_string()],
            vec!["1.0".to_string(), "0.0".to_string()],
            vec!["x".to_string(), "y".to_string()],
        ]
    );
    assert_eq!(data_file_rows(""), Vec::<Vec<String>>::new());
}

#[test]
fn csv_headers() {
    let vars = vec!["h".to_string(), "l".to_string()];
    assert_eq!(csv_header(&vars, 2, false), vec!["var_h", "var_l", "obj_0", "obj_1", "constraint_violation"]);
    assert_eq!(csv_header(&[], 1, true), vec!["group_id", "obj_0", "constraint_violation"]);
}
