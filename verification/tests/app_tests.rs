use mopso_cli::tui::app::{App, AppMode, FieldType, FloatTexts, Key, KeyAction, KeyInputs, Panel};

type TestApp = App<f64, u32, &'static str>;

fn new_app() -> TestApp {
    App::new(0.9, 2.0, 2.0, 50, 1e-6)
}

fn texts(app: &TestApp) -> FloatTexts {
    FloatTexts {
        inertia_weight: format!("{:.4}", app.inertia_weight),
        c1: format!("{:.4}", app.c1),
        c2: format!("{:.4}", app.c2),
        stagnation_threshold: format!("{:.2e}", app.stagnation_threshold),
    }
}

fn compare_texts(app: &TestApp) -> FloatTexts {
    FloatTexts {
        inertia_weight: format!("{:.4}", app.compare_dialog_params.inertia_weight),
        c1: format!("{:.4}", app.compare_dialog_params.c1),
        c2: format!("{:.4}", app.compare_dialog_params.c2),
        stagnation_threshold: String::new(),
    }
}

fn buffer(app: &TestApp) -> String {
    app.edit_buffer.iter().collect()
}

fn type_text(app: &mut TestApp, text: &str) {
    for c in text.chars() {
        app.insert_char(c);
    }
}

fn edit_field(app: &mut TestApp, field: usize, text: &str) {
    app.current_panel = Panel::Parameters;
    app.selected_field = field;
    let t = texts(app);
    app.start_editing(&t);
    while app.cursor_pos > 0 {
        app.backspace();
    }
    type_text(app, text);
    let b = buffer(app);
    let number = b.parse::<f64>().ok();
    let point: Option<Vec<f64>> = b.trim().split(',').map(|s| s.trim().parse::<f64>()).collect::<Result<Vec<f64>, _>>().ok();
    app.finish_editing(number, point);
}

#[test]
fn start_up_state() {
    let app = new_app();
    assert_eq!(app.current_panel, Panel::Parameters);
    assert_eq!(app.mode, AppMode::Normal);
    assert_eq!(app.population_size, 100);
    assert_eq!(app.max_iterations, 500);
    assert_eq!(app.archive_size, 200);
    assert_eq!(app.variant, "standard");
    assert_eq!(app.current_problem(), "zdt1");
    assert_eq!(app.export_csv_path, "pareto_front.csv");
    assert_eq!(app.export_json_path, "convergence.json");
}

#[test]
fn panels_cycle() {
    let mut app = new_app();
    let order = [Panel::Status, Panel::Scatter, Panel::Convergence, Panel::Parameters];
    for p in order {
        app.next_panel();
        assert_eq!(app.current_panel, p);
    }
    app.prev_panel();
    assert_eq!(app.current_panel, Panel::Convergence);
    app.next_panel();
    assert_eq!(app.current_panel, Panel::Parameters);
}

#[test]
fn fields_as_shown() {
    let app = new_app();
    let fields = app.get_fields(&texts(&app));
    assert_eq!(fields.len(), 10);
    assert_eq!(fields[0].label, "Population Size");
    assert_eq!(fields[0].value, "100");
    assert_eq!(fields[0].field_type, FieldType::Usize);
    assert_eq!(fields[3].value, "0.9000");
    assert_eq!(fields[3].field_type, FieldType::Float);
    assert_eq!(fields[6].value, "standard");
    assert_eq!(fields[7].value, "(empty = no HV)");
    assert_eq!(fields[8].value, "50");
    assert_eq!(fields[9].value, "1.00e-6");
}

#[test]
fn field_selection_stays_in_range() {
    let mut app = new_app();
    app.prev_field();
    assert_eq!(app.selected_field, 0);
    for _ in 0..20 {
        app.next_field();
    }
    assert_eq!(app.selected_field, 9);
}

#[test]
fn editing_population_size() {
    let mut app = new_app();
    edit_field(&mut app, 0, "250");
    assert_eq!(app.population_size, 250);
    assert_eq!(app.status_message, "Parameter updated");
    assert_eq!(app.mode, AppMode::Normal);
    assert!(app.edit_buffer.is_empty());
    edit_field(&mut app, 0, "0");
    assert_eq!(app.population_size, 250);
    assert_eq!(app.status_message, "Population size must be > 0");
    edit_field(&mut app, 0, "abc");
    assert_eq!(app.status_message, "Invalid population size: 'abc'. Must be a positive integer.");
    edit_field(&mut app, 1, "0");
    assert_eq!(app.status_message, "Max iterations must be > 0");
    edit_field(&mut app, 2, "x");
    assert_eq!(app.status_message, "Invalid archive size: 'x'. Must be a positive integer.");
}

#[test]
fn editing_real_parameters() {
    let mut app = new_app();
    edit_field(&mut app, 3, "0.5");
    assert_eq!(app.inertia_weight, 0.5);
    edit_field(&mut app, 4, "nope");
    assert_eq!(app.status_message, "Invalid value for C1: 'nope'. Must be a number.");
    edit_field(&mut app, 5, "1.5");
    assert_eq!(app.c2, 1.5);
    edit_field(&mut app, 9, "?");
    assert_eq!(app.status_message, "Invalid stagnation threshold: '?'. Must be a number.");
    edit_field(&mut app, 3, "w");
    assert_eq!(app.status_message, "Invalid inertia weight: 'w'. Must be a number.");
}

#[test]
fn editing_variant_and_stagnation_limit() {
    let mut app = new_app();
    edit_field(&mut app, 6, "Adaptive");
    assert_eq!(app.variant, "adaptive");
    edit_field(&mut app, 6, "greedy");
    assert_eq!(app.variant, "adaptive");
    assert_eq!(app.status_message, "Invalid variant: 'greedy'. Must be 'standard' or 'adaptive'.");
    edit_field(&mut app, 8, "0");
    assert_eq!(app.stagnation_limit, 0);
    edit_field(&mut app, 8, "-3");
    assert_eq!(app.status_message, "Invalid stagnation limit: '-3'. Must be a positive integer.");
}

#[test]
fn editing_reference_point() {
    let mut app = new_app();
    edit_field(&mut app, 7, " 11.0, 11.0 ");
    assert_eq!(app.reference_point, Some(vec![11.0, 11.0]));
    assert_eq!(app.reference_point_str, "11.0, 11.0");
    assert_eq!(app.status_message, "Reference point set to [11.0, 11.0]");
    edit_field(&mut app, 7, "1,x");
    assert_eq!(
        app.status_message,
        "Invalid reference point: '1,x'. Use comma-separated numbers (e.g. '11.0,11.0')"
    );
    assert_eq!(app.reference_point, Some(vec![11.0, 11.0]));
    edit_field(&mut app, 7, "   ");
    assert_eq!(app.reference_point, None);
    assert_eq!(app.reference_point_str, "");
    assert_eq!(app.status_message, "Reference point cleared (HV disabled)");
}

#[test]
fn start_editing_reference_point_starts_empty() {
    let mut app = new_app();
    app.selected_field = 7;
    let t = texts(&app);
    app.start_editing(&t);
    assert_eq!(app.mode, AppMode::Editing);
    assert!(app.edit_buffer.is_empty());
    assert_eq!(app.cursor_pos, 0);
}

#[test]
fn no_editing_while_running_or_elsewhere() {
    let mut app = new_app();
    app.is_running = true;
    let t = texts(&app);
    app.start_editing(&t);
    assert_eq!(app.mode, AppMode::Normal);
    app.is_running = false;
    app.current_panel = Panel::Status;
    app.start_editing(&t);
    assert_eq!(app.mode, AppMode::Normal);
}

#[test]
fn cursor_editing() {
    let mut app = new_app();
    app.selected_field = 0;
    let t = texts(&app);
    app.start_editing(&t);
    assert_eq!(buffer(&app), "100");
    assert_eq!(app.cursor_pos, 3);
    app.move_cursor_left();
    app.insert_char('5');
    assert_eq!(buffer(&app), "1050");
    app.backspace();
    assert_eq!(buffer(&app), "100");
    app.move_cursor_right();
    app.move_cursor_right();
    assert_eq!(app.cursor_pos, 3);
    app.cancel_editing();
    assert_eq!(app.mode, AppMode::Normal);
    assert_eq!(app.population_size, 100);
}

#[test]
fn export_dialog() {
    let mut app = new_app();
    app.start_export_dialog();
    assert_eq!(app.mode, AppMode::Normal);
    assert_eq!(app.status_message, "No results to export. Run optimization first.");
    app.archive_members = vec![1];
    app.start_export_dialog();
    assert_eq!(app.mode, AppMode::ExportDialog);
    app.insert_char('x');
    assert_eq!(app.export_csv_path, "pareto_front.csvx");
    app.backspace();
    assert_eq!(app.export_csv_path, "pareto_front.csv");
    app.next_export_field();
    app.next_export_field();
    assert_eq!(app.export_field_idx, 1);
    app.backspace();
    assert_eq!(app.export_json_path, "convergence.jso");
    app.prev_export_field();
    assert_eq!(app.export_field_idx, 0);
    app.cancel_export_dialog();
    assert_eq!(app.mode, AppMode::Normal);
}

#[test]
fn export_with_compare_results_only() {
    let mut app = new_app();
    app.compare_results = vec![None, Some("done")];
    app.start_export_dialog();
    assert_eq!(app.mode, AppMode::ExportDialog);
}

#[test]
fn switching_problems() {
    let mut app = new_app();
    app.archive_members = vec![1, 2];
    app.convergence = vec![1.0];
    app.next_problem();
    assert_eq!(app.current_problem(), "zdt2");
    assert!(app.archive_members.is_empty());
    assert!(app.convergence.is_empty());
    assert_eq!(app.status_message, "Switched to problem: zdt2");
    for _ in 0..4 {
        app.next_problem();
    }
    assert_eq!(app.current_problem(), "zdt1");
    app.is_running = true;
    app.next_problem();
    assert_eq!(app.current_problem(), "zdt1");
}

#[test]
fn compare_groups_add_and_delete() {
    let mut app = new_app();
    for i in 0..4 {
        app.start_compare_dialog();
        assert_eq!(app.mode, AppMode::CompareGroupDialog);
        app.confirm_compare_dialog();
        assert_eq!(app.compare_groups.len(), i + 1);
        assert_eq!(app.selected_compare_group, i);
        assert_eq!(app.status_message, format!("Added compare group {} (total: {})", i + 1, i + 1));
    }
    app.start_compare_dialog();
    assert_eq!(app.status_message, "Maximum 4 compare groups allowed");
    assert_eq!(app.mode, AppMode::Normal);
    app.delete_selected_compare_group();
    assert_eq!(app.compare_groups.len(), 3);
    assert_eq!(app.selected_compare_group, 2);
    assert_eq!(app.status_message, "Deleted compare group. Remaining: 3");
    app.prev_compare_group_selection();
    app.prev_compare_group_selection();
    app.prev_compare_group_selection();
    assert_eq!(app.selected_compare_group, 0);
    app.next_compare_group_selection();
    assert_eq!(app.selected_compare_group, 1);
}

#[test]
fn compare_dialog_typing() {
    let mut app = new_app();
    app.start_compare_dialog();
    app.compare_dialog_insert_char('5', None);
    assert_eq!(app.compare_dialog_params.population_size, 1005);
    app.compare_dialog_insert_char('x', None);
    assert_eq!(app.compare_dialog_params.population_size, 1005);
    app.compare_dialog_backspace(None);
    assert_eq!(app.compare_dialog_params.population_size, 100);
    app.compare_dialog_params.population_size = 7;
    app.compare_dialog_backspace(None);
    assert_eq!(app.compare_dialog_params.population_size, 1);
    app.compare_dialog_params.population_size = usize::MAX / 10 + 1;
    app.compare_dialog_insert_char('0', None);
    assert_eq!(app.compare_dialog_params.population_size, usize::MAX / 10 + 1);
    for _ in 0..6 {
        app.next_compare_dialog_field();
    }
    assert_eq!(app.compare_dialog_field, 6);
    app.next_compare_dialog_field();
    assert_eq!(app.compare_dialog_field, 6);
    app.compare_dialog_params.variant = String::new();
    app.compare_dialog_insert_char('A', None);
    assert_eq!(app.compare_dialog_params.variant, "a");
    app.compare_dialog_insert_char('X', None);
    assert_eq!(app.compare_dialog_params.variant, "aX");
    app.compare_dialog_backspace(None);
    assert_eq!(app.compare_dialog_params.variant, "a");
    app.compare_dialog_params.variant = "abcdefgh".to_string();
    app.compare_dialog_insert_char('i', None);
    assert_eq!(app.compare_dialog_params.variant, "abcdefgh");
    app.compare_dialog_field = 3;
    app.compare_dialog_insert_char('5', Some(0.75));
    assert_eq!(app.compare_dialog_params.inertia_weight, 0.75);
}

#[test]
fn compare_dialog_editing() {
    let mut app = new_app();
    app.start_compare_dialog();
    app.compare_dialog_field = 2;
    let t = compare_texts(&app);
    app.start_editing_compare_dialog(&t);
    assert_eq!(buffer(&app), "200");
    assert!(app.editing_from_compare_dialog);
    app.backspace();
    app.backspace();
    app.backspace();
    type_text(&mut app, "64");
    app.finish_editing_compare_dialog(None);
    assert_eq!(app.compare_dialog_params.archive_size, 64);
    assert_eq!(app.mode, AppMode::CompareGroupDialog);
    app.compare_dialog_field = 6;
    let t = compare_texts(&app);
    app.start_editing_compare_dialog(&t);
    while app.cursor_pos > 0 {
        app.backspace();
    }
    type_text(&mut app, "ADAPTIVE");
    app.finish_editing_compare_dialog(None);
    assert_eq!(app.compare_dialog_params.variant, "adaptive");
    app.cancel_compare_dialog();
    assert_eq!(app.mode, AppMode::Normal);
}

#[test]
fn normal_keys() {
    let mut app = new_app();
    let t = texts(&app);
    assert_eq!(app.handle_normal_key(Key::Char('r'), &t), KeyAction::StartRun);
    assert_eq!(app.handle_normal_key(Key::Tab, &t), KeyAction::Nothing);
    assert_eq!(app.current_panel, Panel::Status);
    app.handle_normal_key(Key::ShiftTab, &t);
    assert_eq!(app.current_panel, Panel::Parameters);
    app.handle_normal_key(Key::Down, &t);
    assert_eq!(app.selected_field, 1);
    app.handle_normal_key(Key::Up, &t);
    assert_eq!(app.selected_field, 0);
    app.handle_normal_key(Key::Enter, &t);
    assert_eq!(app.mode, AppMode::Editing);
    app.cancel_editing();
    app.handle_normal_key(Key::Char('p'), &t);
    assert_eq!(app.current_problem(), "zdt2");
    app.is_running = true;
    assert_eq!(app.handle_normal_key(Key::Char('r'), &t), KeyAction::Nothing);
    assert_eq!(app.handle_normal_key(Key::Char('s'), &t), KeyAction::StopRun);
    assert_eq!(app.mode, AppMode::Stopping);
    assert_eq!(app.status_message, "Stopping... Please wait.");
    app.is_running = false;
    assert_eq!(app.handle_normal_key(Key::Char('Q'), &t), KeyAction::Quit);
}

#[test]
fn single_run_lifecycle() {
    let mut app = new_app();
    app.reference_point = Some(vec![11.0, 11.0]);
    app.begin_run(0.0);
    assert!(app.is_running);
    assert!(!app.is_compare_run);
    assert_eq!(app.current_hv, Some(0.0));
    app.record_progress(0, 2, 7, None, 7.0);
    assert_eq!(app.convergence, vec![7.0]);
    assert_eq!(app.current_generation, 2);
    app.record_progress(0, 3, 8, Some(1.5), 8.0);
    assert_eq!(app.convergence, vec![7.0, 1.5]);
    app.record_snapshot(0, vec![1, 2, 3]);
    assert_eq!(app.archive_members, vec![1, 2, 3]);
    app.finish_single_run(40, vec![5, 6], vec![1.0, 2.0], true, Some(3.0));
    assert!(!app.is_running);
    assert_eq!(app.archive_count, 2);
    assert_eq!(app.current_hv, Some(3.0));
    assert_eq!(app.status_message, "Optimization finished (early stopped at gen 40)");
    app.begin_run(0.0);
    app.finish_single_run(500, vec![5, 6, 7], vec![], false, None);
    assert_eq!(app.status_message, "Optimization finished! 3 solutions found.");
}

#[test]
fn compare_run_lifecycle() {
    let mut app = new_app();
    app.start_compare_dialog();
    app.confirm_compare_dialog();
    app.start_compare_dialog();
    app.confirm_compare_dialog();
    app.begin_run(0.0);
    assert!(app.is_compare_run);
    assert_eq!(app.compare_results, vec![None, None]);
    assert_eq!(app.compare_progress, vec![(0, 0, None), (0, 0, None)]);
    assert_eq!(app.status_message, "Compare run: 2 groups. Running group 1/2... Press S to stop");
    app.record_progress(1, 4, 9, Some(2.0), 9.0);
    assert_eq!(app.compare_progress[1], (4, 9, Some(2.0)));
    assert_eq!(app.current_generation, 0);
    app.record_progress(0, 4, 9, Some(2.0), 9.0);
    assert_eq!(app.current_generation, 4);
    assert!(app.convergence.is_empty());
    let done = app.finish_compare_group(0, "first", vec![1], 0.0);
    assert!(!done);
    assert_eq!(app.archive_members, vec![1]);
    assert_eq!(app.status_message, "Compare run: group 1/2 done. Running group 2/2...");
    assert_eq!(app.compare_current_group, 1);
    let done = app.finish_compare_group(1, "second", vec![2], 0.0);
    assert!(done);
    assert!(!app.is_running);
    assert_eq!(app.compare_results, vec![Some("first"), Some("second")]);
}

#[test]
fn compare_group_markers() {
    assert_eq!(TestApp::compare_group_marker(0), 'x');
    assert_eq!(TestApp::compare_group_marker(1), 'o');
    assert_eq!(TestApp::compare_group_marker(2), '+');
    assert_eq!(TestApp::compare_group_marker(7), '*');
}

#[test]
fn export_outcome_message() {
    let mut app = new_app();
    app.archive_members = vec![3];
    app.start_export_dialog();
    app.finish_export(Ok(()));
    assert_eq!(app.mode, AppMode::Normal);
    assert_eq!(app.status_message, "Exported to pareto_front.csv and convergence.json");
    app.start_export_dialog();
    app.finish_export(Err("disk full".to_string()));
    assert_eq!(app.status_message, "Export failed: disk full");
}

fn press(app: &mut TestApp, key: Key) -> KeyAction {
    let text = buffer(app);
    let selected = match app.compare_dialog_field {
        3 => Some(app.compare_dialog_params.inertia_weight),
        4 => Some(app.compare_dialog_params.c1),
        5 => Some(app.compare_dialog_params.c2),
        _ => None,
    };
    let typed_number = match key {
        Key::Char(c) => selected.and_then(|v| format!("{:.4}{}", v, c).parse::<f64>().ok()),
        _ => None,
    };
    let erased_number = selected.and_then(|v| {
        let s = format!("{:.4}", v);
        s[..s.len() - 1].parse::<f64>().ok()
    });
    let inputs = KeyInputs {
        texts: texts(app),
        number: text.parse::<f64>().ok(),
        point: text.trim().split(',').map(|s| s.trim().parse::<f64>()).collect::<Result<Vec<f64>, _>>().ok(),
        typed_number,
        erased_number,
    };
    app.handle_key(key, inputs)
}

#[test]
fn keys_drive_the_front_end() {
    let mut app = new_app();
    assert_eq!(press(&mut app, Key::Enter), KeyAction::Nothing);
    assert_eq!(app.mode, AppMode::Editing);
    for _ in 0..3 {
        press(&mut app, Key::Backspace);
    }
    press(&mut app, Key::Char('4'));
    press(&mut app, Key::Char('2'));
    press(&mut app, Key::Enter);
    assert_eq!(app.population_size, 42);
    assert_eq!(app.mode, AppMode::Normal);

    press(&mut app, Key::Char('c'));
    assert_eq!(app.mode, AppMode::CompareGroupDialog);
    press(&mut app, Key::Down);
    press(&mut app, Key::Down);
    press(&mut app, Key::Char('5'));
    assert_eq!(app.compare_dialog_params.archive_size, 2005);
    press(&mut app, Key::Backspace);
    assert_eq!(app.compare_dialog_params.archive_size, 200);
    press(&mut app, Key::Down);
    press(&mut app, Key::Char('5'));
    assert_eq!(app.compare_dialog_params.inertia_weight, 0.90005);
    press(&mut app, Key::Backspace);
    assert_eq!(app.compare_dialog_params.inertia_weight, 0.9);
    press(&mut app, Key::Enter);
    assert_eq!(app.compare_groups.len(), 1);
    assert_eq!(app.compare_groups[0].population_size, 42);

    app.archive_members = vec![1];
    press(&mut app, Key::Char('e'));
    assert_eq!(app.mode, AppMode::ExportDialog);
    press(&mut app, Key::Down);
    press(&mut app, Key::Char('x'));
    assert_eq!(app.export_json_path, "convergence.jsonx");
    assert_eq!(press(&mut app, Key::Enter), KeyAction::Export);
    press(&mut app, Key::Esc);
    assert_eq!(app.mode, AppMode::Normal);
    assert_eq!(press(&mut app, Key::Char('q')), KeyAction::Quit);
}

#[test]
fn status_label_follows_the_run() {
    let mut app = new_app();
    assert_eq!(app.status_label(), "Ready");
    app.is_running = true;
    assert_eq!(app.status_label(), "Running");
    for _ in 0..3 {
        app.start_compare_dialog();
        app.confirm_compare_dialog();
    }
    app.compare_current_group = 1;
    assert_eq!(app.status_label(), "Compare Running (2/3)");
    app.is_running = false;
    app.current_generation = 7;
    assert_eq!(app.status_label(), "Completed");
    app.early_stopped = true;
    assert_eq!(app.status_label(), "Early Stopped");
}
