//! The state of the terminal front end and what each key does to it.
//!
//! The state is generic in `F`, the type of the real-valued parameters (inertia
//! weight, learning factors, stagnation threshold, reference point, hypervolume), in
//! `M`, the type of an archive member, and in `R`, the type of a compare group's
//! result: the state carries them and never computes with them. Where a key needs a
//! real number read from text, or written as text, the caller hands it in.

use vstd::prelude::*;
use crate::settings::{default_archive_size, default_max_iter, default_pop_size};
use crate::text::{
    chars_of, decimal, lowercase, parse_usize, parsed_usize, push_char, str_eq, string_of,
    to_lowercase, trim, trimmed, usize_to_string, without_last,
};

verus! {

/// The panels of the screen, in the order Tab visits them.
#[derive(Debug, Clone, Copy, PartialEq, Eq, Structural)]
pub enum Panel {
    Parameters,
    Status,
    Scatter,
    Convergence,
}

/// What the keys currently act on.
#[derive(Debug, Clone, Copy, PartialEq, Eq, Structural)]
pub enum AppMode {
    Normal,
    Editing,
    ExportDialog,
    Stopping,
    CompareGroupDialog,
}

/// The kind of value a parameter holds.
#[derive(Debug, Clone, Copy, PartialEq, Eq, Structural)]
pub enum FieldType {
    Usize,
    Float,
    String,
}

/// A parameter as the parameters panel shows it.
#[derive(Debug, Clone)]
pub struct ParameterField {
    pub label: String,
    pub value: String,
    pub field_type: FieldType,
}

/// The settings of one compare group.
#[derive(Debug, Clone)]
pub struct CompareParams<F> {
    pub population_size: usize,
    pub max_iterations: usize,
    pub archive_size: usize,
    pub inertia_weight: F,
    pub c1: F,
    pub c2: F,
    pub variant: String,
}

/// The real-valued parameters as the parameters panel writes them (`{:.4}` for the
/// inertia weight and the learning factors, `{:.2e}` for the stagnation threshold).
pub struct FloatTexts {
    pub inertia_weight: String,
    pub c1: String,
    pub c2: String,
    pub stagnation_threshold: String,
}

/// The number of parameters on the parameters panel.
pub const FIELD_COUNT: usize = 10;

/// The number of parameters of a compare group.
pub const COMPARE_FIELD_COUNT: usize = 7;

/// The most compare groups there can be.
pub const MAX_COMPARE_GROUPS: usize = 4;

/// What the reference point field shows when no point is set.
pub open spec fn empty_reference_text() -> Seq<char> {
    "(empty = no HV)"@
}

/// The state of the terminal front end.
pub struct App<F, M, R> {
    pub current_panel: Panel,
    pub mode: AppMode,
    pub selected_field: usize,
    /// The text being edited, held as characters.
    pub edit_buffer: Vec<char>,
    /// The cursor's position in `edit_buffer`, counted in characters. Moving over
    /// or deleting a character that takes several bytes in UTF-8 (such as `é`) moves
    /// the cursor by one, where a byte offset into the text would move by that
    /// character's length in bytes; on ASCII text the two agree.
    pub cursor_pos: usize,
    pub editing_from_compare_dialog: bool,
    pub population_size: usize,
    pub max_iterations: usize,
    pub archive_size: usize,
    pub inertia_weight: F,
    pub c1: F,
    pub c2: F,
    pub variant: String,
    pub stagnation_limit: usize,
    pub stagnation_threshold: F,
    pub reference_point_str: String,
    pub is_running: bool,
    pub current_generation: usize,
    pub archive_count: usize,
    pub current_hv: Option<F>,
    pub early_stopped: bool,
    pub archive_members: Vec<M>,
    pub convergence: Vec<F>,
    pub reference_point: Option<Vec<F>>,
    pub compare_groups: Vec<CompareParams<F>>,
    pub selected_compare_group: usize,
    pub compare_dialog_params: CompareParams<F>,
    pub compare_dialog_field: usize,
    pub is_compare_run: bool,
    pub compare_current_group: usize,
    pub compare_results: Vec<Option<R>>,
    pub compare_progress: Vec<(usize, usize, Option<F>)>,
    pub archive_version: u64,
    pub convergence_version: u64,
    pub builtin_problems: Vec<&'static str>,
    pub current_problem_idx: usize,
    pub export_csv_path: String,
    pub export_json_path: String,
    pub export_field_idx: usize,
    pub status_message: String,
}

/// The panel after `p` in the Tab order.
pub open spec fn spec_next_panel(p: Panel) -> Panel {
    match p {
        Panel::Parameters => Panel::Status,
        Panel::Status => Panel::Scatter,
        Panel::Scatter => Panel::Convergence,
        Panel::Convergence => Panel::Parameters,
    }
}

/// The panel before `p` in the Tab order.
pub open spec fn spec_prev_panel(p: Panel) -> Panel {
    match p {
        Panel::Parameters => Panel::Convergence,
        Panel::Status => Panel::Parameters,
        Panel::Scatter => Panel::Status,
        Panel::Convergence => Panel::Scatter,
    }
}

/// Going to the next panel and back, or back and then forward, returns to where one
/// was; four steps forward go round once.
pub proof fn law_panel_cycle(p: Panel)
    ensures
        spec_prev_panel(spec_next_panel(p)) == p,
        spec_next_panel(spec_prev_panel(p)) == p,
        spec_next_panel(spec_next_panel(spec_next_panel(spec_next_panel(p)))) == p,
{
}

/// A copy of a compare group's settings.
pub fn copy_params<F: Copy>(p: &CompareParams<F>) -> (r: CompareParams<F>)
    ensures
        r == *p,
{
    CompareParams {
        population_size: p.population_size,
        max_iterations: p.max_iterations,
        archive_size: p.archive_size,
        inertia_weight: p.inertia_weight,
        c1: p.c1,
        c2: p.c2,
        variant: p.variant.clone(),
    }
}

/// The marker with which the scatter plot draws compare group `idx`.
pub open spec fn spec_group_marker(idx: usize) -> char {
    if idx % 4 == 0 {
        'x'
    } else if idx % 4 == 1 {
        'o'
    } else if idx % 4 == 2 {
        '+'
    } else {
        '*'
    }
}

impl<F: Copy, M, R> App<F, M, R> {
    /// What every key keeps: the cursor stands within the edit buffer, and the problem
    /// index within the problem list, which is not empty.
    pub open spec fn wf(&self) -> bool {
        &&& self.cursor_pos <= self.edit_buffer@.len()
        &&& self.builtin_problems@.len() > 0
        &&& self.current_problem_idx < self.builtin_problems@.len()
    }

    /// The state at start-up: the default algorithm settings, with the real-valued ones
    /// given, the first of the built-in problems, and nothing run yet.
    pub fn new(
        inertia_weight: F,
        c1: F,
        c2: F,
        stagnation_limit: usize,
        stagnation_threshold: F,
    ) -> (a: Self)
        ensures
            a.wf(),
            a.current_panel == Panel::Parameters,
            a.mode == AppMode::Normal,
            a.selected_field == 0,
            a.edit_buffer@.len() == 0,
            a.population_size == 100,
            a.max_iterations == 500,
            a.archive_size == 200,
            a.inertia_weight == inertia_weight,
            a.c1 == c1,
            a.c2 == c2,
            a.variant@ == "standard"@,
            a.stagnation_limit == stagnation_limit,
            a.stagnation_threshold == stagnation_threshold,
            a.reference_point_str@.len() == 0,
            !a.is_running,
            a.reference_point is None,
            a.compare_groups@.len() == 0,
            a.builtin_problems@.len() == 5,
            a.builtin_problems@[0]@ == "zdt1"@,
            a.builtin_problems@[1]@ == "zdt2"@,
            a.builtin_problems@[2]@ == "zdt3"@,
            a.builtin_problems@[3]@ == "welded_beam"@,
            a.builtin_problems@[4]@ == "pressure_vessel"@,
            a.current_problem_idx == 0,
            a.export_csv_path@ == "pareto_front.csv"@,
            a.export_json_path@ == "convergence.json"@,
            a.status_message@ == "按 R 开始运行 | C 添加对比组 | Tab 切换面板 | P 切换问题 | E 导出 | Q 退出"@,
            a.cursor_pos == 0,
            !a.editing_from_compare_dialog,
            a.current_generation == 0,
            a.archive_count == 0,
            a.current_hv is None,
            !a.early_stopped,
            a.archive_members@.len() == 0,
            a.convergence@.len() == 0,
            a.selected_compare_group == 0,
            a.compare_dialog_params.population_size == 100,
            a.compare_dialog_params.max_iterations == 500,
            a.compare_dialog_params.archive_size == 200,
            a.compare_dialog_params.inertia_weight == inertia_weight,
            a.compare_dialog_params.c1 == c1,
            a.compare_dialog_params.c2 == c2,
            a.compare_dialog_params.variant@ == "standard"@,
            a.compare_dialog_field == 0,
            !a.is_compare_run,
            a.compare_current_group == 0,
            a.compare_results@.len() == 0,
            a.compare_progress@.len() == 0,
            a.archive_version == 0,
            a.convergence_version == 0,
            a.export_field_idx == 0,
    {
        let pop = default_pop_size();
        let iters = default_max_iter();
        let arch = default_archive_size();
        let mut problems: Vec<&'static str> = Vec::new();
        problems.push("zdt1");
        problems.push("zdt2");
        problems.push("zdt3");
        problems.push("welded_beam");
        problems.push("pressure_vessel");
        App {
            current_panel: Panel::Parameters,
            mode: AppMode::Normal,
            selected_field: 0,
            edit_buffer: Vec::new(),
            cursor_pos: 0,
            editing_from_compare_dialog: false,
            population_size: pop,
            max_iterations: iters,
            archive_size: arch,
            inertia_weight,
            c1,
            c2,
            variant: String::from_str("standard"),
            stagnation_limit,
            stagnation_threshold,
            reference_point_str: String::new(),
            is_running: false,
            current_generation: 0,
            archive_count: 0,
            current_hv: None,
            early_stopped: false,
            archive_members: Vec::new(),
            convergence: Vec::new(),
            reference_point: None,
            compare_groups: Vec::new(),
            selected_compare_group: 0,
            compare_dialog_params: CompareParams {
                population_size: pop,
                max_iterations: iters,
                archive_size: arch,
                inertia_weight,
                c1,
                c2,
                variant: String::from_str("standard"),
            },
            compare_dialog_field: 0,
            is_compare_run: false,
            compare_current_group: 0,
            compare_results: Vec::new(),
            compare_progress: Vec::new(),
            archive_version: 0,
            convergence_version: 0,
            builtin_problems: problems,
            current_problem_idx: 0,
            export_csv_path: String::from_str("pareto_front.csv"),
            export_json_path: String::from_str("convergence.json"),
            export_field_idx: 0,
            status_message: String::from_str(
                "按 R 开始运行 | C 添加对比组 | Tab 切换面板 | P 切换问题 | E 导出 | Q 退出",
            ),
        }
    }

    /// Moves to the next panel (Tab).
    pub fn next_panel(&mut self)
        ensures
            final(self).current_panel == spec_next_panel(old(self).current_panel),
            *final(self) == (App { current_panel: final(self).current_panel, ..*old(self) }),
    {
        self.current_panel =
        match self.current_panel {
            Panel::Parameters => Panel::Status,
            Panel::Status => Panel::Scatter,
            Panel::Scatter => Panel::Convergence,
            Panel::Convergence => Panel::Parameters,
        };
    }

    /// Moves to the previous panel (Shift-Tab).
    pub fn prev_panel(&mut self)
        ensures
            final(self).current_panel == spec_prev_panel(old(self).current_panel),
            *final(self) == (App { current_panel: final(self).current_panel, ..*old(self) }),
    {
        self.current_panel =
        match self.current_panel {
            Panel::Parameters => Panel::Convergence,
            Panel::Status => Panel::Parameters,
            Panel::Scatter => Panel::Status,
            Panel::Convergence => Panel::Scatter,
        };
    }

    /// Selects the next parameter, staying on the last one.
    pub fn next_field(&mut self)
        ensures
            final(self).selected_field == (if old(self).selected_field < FIELD_COUNT - 1 {
                old(self).selected_field + 1
            } else {
                old(self).selected_field as int
            }),
            *final(self) == (App { selected_field: final(self).selected_field, ..*old(self) }),
    {
        if self.selected_field < FIELD_COUNT - 1 {
            self.selected_field = self.selected_field + 1;
        }
    }

    /// Selects the previous parameter, staying on the first one.
    pub fn prev_field(&mut self)
        ensures
            final(self).selected_field == (if old(self).selected_field > 0 {
                old(self).selected_field - 1
            } else {
                0
            }),
            *final(self) == (App { selected_field: final(self).selected_field, ..*old(self) }),
    {
        if self.selected_field > 0 {
            self.selected_field = self.selected_field - 1;
        }
    }

    /// The marker with which the scatter plot draws compare group `idx`.
    pub fn compare_group_marker(idx: usize) -> (r: char)
        ensures
            r == spec_group_marker(idx),
    {
        let k = idx % 4;
        if k == 0 {
            'x'
        } else if k == 1 {
            'o'
        } else if k == 2 {
            '+'
        } else {
            '*'
        }
    }
}

/// The label of parameter `i`.
pub open spec fn field_label(i: int) -> Seq<char> {
    seq![
        "Population Size"@,
        "Max Iterations"@,
        "Archive Size"@,
        "Inertia Weight"@,
        "C1 (Cognitive)"@,
        "C2 (Social)"@,
        "Variant"@,
        "Reference Point"@,
        "Stagnation Limit"@,
        "Stagnation Threshold"@,
    ][i]
}

/// The kind of parameter `i`.
pub open spec fn field_kind(i: int) -> FieldType {
    if i == 3 || i == 4 || i == 5 || i == 9 {
        FieldType::Float
    } else if i == 6 || i == 7 {
        FieldType::String
    } else {
        FieldType::Usize
    }
}

fn make_field(label: &str, value: String, field_type: FieldType) -> (r: ParameterField)
    ensures
        r.label@ == label@,
        r.value@ == value@,
        r.field_type == field_type,
{
    ParameterField { label: String::from_str(label), value, field_type }
}

impl<F: Copy, M, R> App<F, M, R> {
    /// What parameter `i` shows, the real-valued ones written as in `texts`.
    pub open spec fn field_value(&self, texts: &FloatTexts, i: int) -> Seq<char> {
        seq![
            decimal(self.population_size as nat),
            decimal(self.max_iterations as nat),
            decimal(self.archive_size as nat),
            texts.inertia_weight@,
            texts.c1@,
            texts.c2@,
            self.variant@,
            if self.reference_point_str@.len() == 0 {
                empty_reference_text()
            } else {
                self.reference_point_str@
            },
            decimal(self.stagnation_limit as nat),
            texts.stagnation_threshold@,
        ][i]
    }

    /// The parameters as the parameters panel shows them.
    pub fn get_fields(&self, texts: &FloatTexts) -> (r: Vec<ParameterField>)
        ensures
            r@.len() == FIELD_COUNT,
            forall|i: int|
                0 <= i < FIELD_COUNT ==> (#[trigger] r@[i]).label@ == field_label(i) && r@[i].value@
                    == self.field_value(texts, i) && r@[i].field_type == field_kind(i),
    {
        let mut v: Vec<ParameterField> = Vec::new();
        v.push(make_field("Population Size", usize_to_string(self.population_size), FieldType::Usize));
        v.push(make_field("Max Iterations", usize_to_string(self.max_iterations), FieldType::Usize));
        v.push(make_field("Archive Size", usize_to_string(self.archive_size), FieldType::Usize));
        v.push(make_field("Inertia Weight", texts.inertia_weight.clone(), FieldType::Float));
        v.push(make_field("C1 (Cognitive)", texts.c1.clone(), FieldType::Float));
        v.push(make_field("C2 (Social)", texts.c2.clone(), FieldType::Float));
        v.push(make_field("Variant", self.variant.clone(), FieldType::String));
        let reference = if self.reference_point_str.as_str().unicode_len() == 0 {
            String::from_str("(empty = no HV)")
        } else {
            self.reference_point_str.clone()
        };
        v.push(make_field("Reference Point", reference, FieldType::String));
        v.push(make_field("Stagnation Limit", usize_to_string(self.stagnation_limit), FieldType::Usize));
        v.push(
            make_field("Stagnation Threshold", texts.stagnation_threshold.clone(), FieldType::Float),
        );
        v
    }

    /// The text that editing parameter `i` starts from: what the field shows, except
    /// that an unset reference point starts empty.
    pub open spec fn editing_text(&self, texts: &FloatTexts, i: int) -> Seq<char> {
        if i == 7 && self.field_value(texts, i) == empty_reference_text() {
            seq![]
        } else {
            self.field_value(texts, i)
        }
    }

    /// Starts editing the selected parameter (Enter on the parameters panel), with the
    /// cursor at the end of its text; nothing happens on another panel, while a run is
    /// going on, or when no parameter is selected.
    pub fn start_editing(&mut self, texts: &FloatTexts)
        requires
            old(self).wf(),
        ensures
            final(self).wf(),
            if old(self).current_panel != Panel::Parameters || old(self).is_running
                || old(self).selected_field >= FIELD_COUNT {
                *final(self) == *old(self)
            } else {
                &&& final(self).edit_buffer@ == old(self).editing_text(texts, old(self).selected_field as int)
                &&& final(self).cursor_pos == final(self).edit_buffer@.len()
                &&& !final(self).editing_from_compare_dialog
                &&& final(self).mode == AppMode::Editing
                &&& *final(self) == (App {
                    edit_buffer: final(self).edit_buffer,
                    cursor_pos: final(self).cursor_pos,
                    editing_from_compare_dialog: false,
                    mode: AppMode::Editing,
                    ..*old(self)
                })
            },
    {
        if self.current_panel != Panel::Parameters || self.is_running {
            return;
        }
        let fields = self.get_fields(texts);
        if self.selected_field >= fields.len() {
            return;
        }
        let value = &fields[self.selected_field].value;
        proof {
            reveal_strlit("(empty = no HV)");
        }
        if self.selected_field == 7 && str_eq(value.as_str(), "(empty = no HV)") {
            self.edit_buffer = Vec::new();
        } else {
            self.edit_buffer = chars_of(value.as_str());
        }
        self.cursor_pos = self.edit_buffer.len();
        self.editing_from_compare_dialog = false;
        self.mode = AppMode::Editing;
    }

    /// Leaves editing without a change (Esc).
    pub fn cancel_editing(&mut self)
        ensures
            after_cancel_editing(*old(self), *final(self)),
    {
        self.mode = AppMode::Normal;
        self.edit_buffer = Vec::new();
        self.cursor_pos = 0;
    }

    /// Types `c`: into the edit buffer at the cursor when editing, at the end of the
    /// selected path in the export dialog; otherwise nothing.
    pub fn insert_char(&mut self, c: char)
        requires
            old(self).wf(),
        ensures
            final(self).wf(),
            after_insert_char(*old(self), *final(self), c),
    {
        if self.mode == AppMode::Editing {
            self.edit_buffer.insert(self.cursor_pos, c);
            let n = self.edit_buffer.len();
            assert(self.cursor_pos < n);
            self.cursor_pos = self.cursor_pos + 1;
        } else if self.mode == AppMode::ExportDialog {
            if self.export_field_idx == 0 {
                push_char(&mut self.export_csv_path, c);
            } else {
                push_char(&mut self.export_json_path, c);
            }
        }
    }

    /// Erases: the character before the cursor when editing, the last character of the
    /// selected path in the export dialog; otherwise nothing.
    pub fn backspace(&mut self)
        requires
            old(self).wf(),
        ensures
            final(self).wf(),
            after_backspace(*old(self), *final(self)),
    {
        if self.mode == AppMode::Editing && self.cursor_pos > 0 {
            self.cursor_pos = self.cursor_pos - 1;
            self.edit_buffer.remove(self.cursor_pos);
        } else if self.mode == AppMode::ExportDialog {
            if self.export_field_idx == 0 && self.export_csv_path.as_str().unicode_len() > 0 {
                self.export_csv_path = without_last(&self.export_csv_path);
            } else if self.export_field_idx == 1 && self.export_json_path.as_str().unicode_len()
                > 0 {
                self.export_json_path = without_last(&self.export_json_path);
            }
        }
    }

    /// Moves the editing cursor one character left, if it can.
    pub fn move_cursor_left(&mut self)
        requires
            old(self).wf(),
        ensures
            final(self).wf(),
            after_move_cursor_left(*old(self), *final(self)),
    {
        if self.mode == AppMode::Editing && self.cursor_pos > 0 {
            self.cursor_pos = self.cursor_pos - 1;
        }
    }

    /// Moves the editing cursor one character right, if it can.
    pub fn move_cursor_right(&mut self)
        requires
            old(self).wf(),
        ensures
            final(self).wf(),
            after_move_cursor_right(*old(self), *final(self)),
    {
        if self.mode == AppMode::Editing && self.cursor_pos < self.edit_buffer.len() {
            self.cursor_pos = self.cursor_pos + 1;
        }
    }
}

/// The message for text that is not a positive integer.
pub open spec fn invalid_integer_message(what: Seq<char>, text: Seq<char>) -> Seq<char> {
    "Invalid "@ + what + ": '"@ + text + "'. Must be a positive integer."@
}

/// The message for text that is not a number.
pub open spec fn invalid_number_message(what: Seq<char>, text: Seq<char>) -> Seq<char> {
    "Invalid "@ + what + ": '"@ + text + "'. Must be a number."@
}

/// The message for an unknown algorithm variant.
pub open spec fn invalid_variant_message(text: Seq<char>) -> Seq<char> {
    "Invalid variant: '"@ + text + "'. Must be 'standard' or 'adaptive'."@
}

/// The message for a reference point that is not a list of numbers.
pub open spec fn invalid_point_message(text: Seq<char>) -> Seq<char> {
    "Invalid reference point: '"@ + text + "'. Use comma-separated numbers (e.g. '11.0,11.0')"@
}

/// The variants of the algorithm, in lower case.
pub open spec fn is_variant_name(v: Seq<char>) -> bool {
    v == "standard"@ || v == "adaptive"@
}

/// A positive integer setting after editing: the value read from `text` when it is a
/// positive integer, `old` otherwise.
pub open spec fn positive_setting(text: Seq<char>, old: usize) -> usize {
    match parsed_usize(text) {
        Some(v) => if v > 0 { v as usize } else { old },
        None => old,
    }
}

/// The message after editing a positive integer setting.
pub open spec fn positive_message(text: Seq<char>, zero: Seq<char>, what: Seq<char>) -> Seq<char> {
    match parsed_usize(text) {
        Some(v) => if v > 0 { "Parameter updated"@ } else { zero },
        None => invalid_integer_message(what, text),
    }
}

/// `new` is `old` after Enter ends editing parameter `old.selected_field`, where
/// `number` is the edited text read as a number and `point` the trimmed text read as
/// comma-separated numbers: the parameter takes the value when the text is valid for
/// it, the status line says what happened, and editing ends with an empty buffer.
pub open spec fn finished<F, M, R>(
    old: App<F, M, R>,
    new: App<F, M, R>,
    number: Option<F>,
    point: Option<Vec<F>>,
) -> bool {
    let b = old.edit_buffer@;
    let msg = new.status_message@;
    let base = App {
        mode: AppMode::Normal,
        edit_buffer: new.edit_buffer,
        cursor_pos: 0,
        status_message: new.status_message,
        ..old
    };
    &&& new.edit_buffer@.len() == 0
    &&& if old.selected_field == 0 {
        &&& new == App { population_size: positive_setting(b, old.population_size), ..base }
        &&& msg == positive_message(b, "Population size must be > 0"@, "population size"@)
    } else if old.selected_field == 1 {
        &&& new == App { max_iterations: positive_setting(b, old.max_iterations), ..base }
        &&& msg == positive_message(b, "Max iterations must be > 0"@, "max iterations"@)
    } else if old.selected_field == 2 {
        &&& new == App { archive_size: positive_setting(b, old.archive_size), ..base }
        &&& msg == positive_message(b, "Archive size must be > 0"@, "archive size"@)
    } else if old.selected_field == 3 {
        match number {
            Some(v) => new == App { inertia_weight: v, ..base } && msg == "Parameter updated"@,
            None => new == base && msg == invalid_number_message("inertia weight"@, b),
        }
    } else if old.selected_field == 4 {
        match number {
            Some(v) => new == App { c1: v, ..base } && msg == "Parameter updated"@,
            None => new == base && msg == invalid_number_message("value for C1"@, b),
        }
    } else if old.selected_field == 5 {
        match number {
            Some(v) => new == App { c2: v, ..base } && msg == "Parameter updated"@,
            None => new == base && msg == invalid_number_message("value for C2"@, b),
        }
    } else if old.selected_field == 6 {
        if is_variant_name(lowercase(b)) {
            &&& new == App { variant: new.variant, ..base }
            &&& new.variant@ == lowercase(b)
            &&& msg == "Parameter updated"@
        } else {
            new == base && msg == invalid_variant_message(b)
        }
    } else if old.selected_field == 7 {
        let t = trimmed(b);
        if t.len() == 0 || t == empty_reference_text() {
            &&& new == App {
                reference_point_str: new.reference_point_str,
                reference_point: None,
                ..base
            }
            &&& new.reference_point_str@.len() == 0
            &&& msg == "Reference point cleared (HV disabled)"@
        } else {
            match point {
                Some(rp) => if rp@.len() > 0 {
                    &&& new == App {
                        reference_point_str: new.reference_point_str,
                        reference_point: Some(rp),
                        ..base
                    }
                    &&& new.reference_point_str@ == t
                    &&& msg == "Reference point set to ["@ + t + "]"@
                } else {
                    new == base && msg == "Reference point cannot be empty"@
                },
                None => new == base && msg == invalid_point_message(t),
            }
        }
    } else if old.selected_field == 8 {
        match parsed_usize(b) {
            Some(v) => new == App { stagnation_limit: v as usize, ..base } && msg
                == "Parameter updated"@,
            None => new == base && msg == invalid_integer_message("stagnation limit"@, b),
        }
    } else if old.selected_field == 9 {
        match number {
            Some(v) => new == App { stagnation_threshold: v, ..base } && msg == "Parameter updated"@,
            None => new == base && msg == invalid_number_message("stagnation threshold"@, b),
        }
    } else {
        new == App { status_message: old.status_message, ..base }
    }
}

/// The message for text that is not a positive integer.
fn invalid_integer(what: &str, text: &str) -> (r: String)
    ensures
        r@ == invalid_integer_message(what@, text@),
{
    let mut m = String::from_str("Invalid ");
    m.append(what);
    m.append(": '");
    m.append(text);
    m.append("'. Must be a positive integer.");
    proof {
        reveal_strlit("Invalid ");
        reveal_strlit(": '");
        reveal_strlit("'. Must be a positive integer.");
    }
    assert(m@ =~= invalid_integer_message(what@, text@));
    m
}

/// The message for text that is not a number.
fn invalid_number(what: &str, text: &str) -> (r: String)
    ensures
        r@ == invalid_number_message(what@, text@),
{
    let mut m = String::from_str("Invalid ");
    m.append(what);
    m.append(": '");
    m.append(text);
    m.append("'. Must be a number.");
    proof {
        reveal_strlit("Invalid ");
        reveal_strlit(": '");
        reveal_strlit("'. Must be a number.");
    }
    assert(m@ =~= invalid_number_message(what@, text@));
    m
}

/// Reads a positive integer setting: the new value, if any, and the message.
fn read_positive(text: &str, old: usize, zero: &str, what: &str) -> (r: (usize, String))
    ensures
        r.0 == positive_setting(text@, old),
        r.1@ == positive_message(text@, zero@, what@),
{
    match parse_usize(text) {
        Some(v) => if v > 0 {
            (v, String::from_str("Parameter updated"))
        } else {
            (old, String::from_str(zero))
        },
        None => (old, invalid_integer(what, text)),
    }
}

impl<F: Copy, M, R> App<F, M, R> {
    /// Ends editing a parameter (Enter). `number` is the edited text read as a number
    /// (`str::parse::<f64>`), `point` the trimmed text read as comma-separated numbers;
    /// only the real-valued parameters and the reference point use them. Nothing
    /// happens outside editing.
    pub fn finish_editing(&mut self, number: Option<F>, point: Option<Vec<F>>)
        requires
            old(self).wf(),
        ensures
            final(self).wf(),
            after_finish_editing(*old(self), *final(self), number, point),
    {
        if self.mode != AppMode::Editing {
            return;
        }
        let text = string_of(&self.edit_buffer);
        let b = text.as_str();
        proof {
            reveal_strlit("Parameter updated");
        }
        if self.selected_field == 0 {
            let (v, m) = read_positive(
                b,
                self.population_size,
                "Population size must be > 0",
                "population size",
            );
            self.population_size = v;
            self.status_message = m;
        } else if self.selected_field == 1 {
            let (v, m) = read_positive(
                b,
                self.max_iterations,
                "Max iterations must be > 0",
                "max iterations",
            );
            self.max_iterations = v;
            self.status_message = m;
        } else if self.selected_field == 2 {
            let (v, m) = read_positive(b, self.archive_size, "Archive size must be > 0", "archive size");
            self.archive_size = v;
            self.status_message = m;
        } else if self.selected_field == 3 {
            match number {
                Some(v) => {
                    self.inertia_weight = v;
                    self.status_message = String::from_str("Parameter updated");
                },
                None => {
                    self.status_message = invalid_number("inertia weight", b);
                },
            }
        } else if self.selected_field == 4 {
            match number {
                Some(v) => {
                    self.c1 = v;
                    self.status_message = String::from_str("Parameter updated");
                },
                None => {
                    self.status_message = invalid_number("value for C1", b);
                },
            }
        } else if self.selected_field == 5 {
            match number {
                Some(v) => {
                    self.c2 = v;
                    self.status_message = String::from_str("Parameter updated");
                },
                None => {
                    self.status_message = invalid_number("value for C2", b);
                },
            }
        } else if self.selected_field == 6 {
            let v = to_lowercase(b);
            proof {
                reveal_strlit("standard");
                reveal_strlit("adaptive");
            }
            if str_eq(v.as_str(), "standard") || str_eq(v.as_str(), "adaptive") {
                self.variant = v;
                self.status_message = String::from_str("Parameter updated");
            } else {
                let mut m = String::from_str("Invalid variant: '");
                m.append(b);
                m.append("'. Must be 'standard' or 'adaptive'.");
                proof {
                    reveal_strlit("Invalid variant: '");
                    reveal_strlit("'. Must be 'standard' or 'adaptive'.");
                }
                assert(m@ =~= invalid_variant_message(b@));
                self.status_message = m;
            }
        } else if self.selected_field == 7 {
            let t = trim(b);
            proof {
                reveal_strlit("(empty = no HV)");
            }
            if t.as_str().unicode_len() == 0 || str_eq(t.as_str(), "(empty = no HV)") {
                self.reference_point_str = String::new();
                self.reference_point = None;
                self.status_message = String::from_str("Reference point cleared (HV disabled)");
            } else {
                match point {
                    Some(rp) => {
                        if rp.len() > 0 {
                            let mut m = String::from_str("Reference point set to [");
                            m.append(t.as_str());
                            m.append("]");
                            proof {
                                reveal_strlit("Reference point set to [");
                                reveal_strlit("]");
                            }
                            self.reference_point_str = t;
                            self.reference_point = Some(rp);
                            self.status_message = m;
                        } else {
                            self.status_message = String::from_str("Reference point cannot be empty");
                        }
                    },
                    None => {
                        let mut m = String::from_str("Invalid reference point: '");
                        m.append(t.as_str());
                        m.append("'. Use comma-separated numbers (e.g. '11.0,11.0')");
                        proof {
                            reveal_strlit("Invalid reference point: '");
                            reveal_strlit("'. Use comma-separated numbers (e.g. '11.0,11.0')");
                        }
                        assert(m@ =~= invalid_point_message(t@));
                        self.status_message = m;
                    },
                }
            }
        } else if self.selected_field == 8 {
            match parse_usize(b) {
                Some(v) => {
                    self.stagnation_limit = v;
                    self.status_message = String::from_str("Parameter updated");
                },
                None => {
                    self.status_message = invalid_integer("stagnation limit", b);
                },
            }
        } else if self.selected_field == 9 {
            match number {
                Some(v) => {
                    self.stagnation_threshold = v;
                    self.status_message = String::from_str("Parameter updated");
                },
                None => {
                    self.status_message = invalid_number("stagnation threshold", b);
                },
            }
        }
        self.mode = AppMode::Normal;
        self.edit_buffer = Vec::new();
        self.cursor_pos = 0;
    }
}

/// `n` is `o` after `cancel_editing`.
pub open spec fn after_cancel_editing<F: Copy, M, R>(o: App<F, M, R>, n: App<F, M, R>) -> bool {
    &&& (n.mode == AppMode::Normal)
    &&& (n.edit_buffer@.len() == 0)
    &&& (n.cursor_pos == 0)
    &&& (n == (App {
        mode: AppMode::Normal,
        edit_buffer: n.edit_buffer,
        cursor_pos: 0,
        ..o
    }))
}

/// `n` is `o` after `insert_char`.
pub open spec fn after_insert_char<F: Copy, M, R>(o: App<F, M, R>, n: App<F, M, R>, c: char) -> bool {
    &&& (o.mode == AppMode::Editing ==> n == (App {
        edit_buffer: n.edit_buffer,
        cursor_pos: (o.cursor_pos + 1) as usize,
        ..o
    }) && n.edit_buffer@ == o.edit_buffer@.insert(
        o.cursor_pos as int,
        c,
    ))
    &&& (o.mode == AppMode::ExportDialog && o.export_field_idx == 0
        ==> n == (App { export_csv_path: n.export_csv_path, ..o })
        && n.export_csv_path@ == o.export_csv_path@.push(c))
    &&& (o.mode == AppMode::ExportDialog && o.export_field_idx != 0
        ==> n == (App { export_json_path: n.export_json_path, ..o })
        && n.export_json_path@ == o.export_json_path@.push(c))
    &&& (o.mode != AppMode::Editing && o.mode != AppMode::ExportDialog
        ==> n == o)
}

/// `n` is `o` after `backspace`.
pub open spec fn after_backspace<F: Copy, M, R>(o: App<F, M, R>, n: App<F, M, R>) -> bool {
    &&& (o.mode == AppMode::Editing && o.cursor_pos > 0 ==> n == (App {
        edit_buffer: n.edit_buffer,
        cursor_pos: (o.cursor_pos - 1) as usize,
        ..o
    }) && n.edit_buffer@ == o.edit_buffer@.remove(
        o.cursor_pos - 1,
    ))
    &&& (o.mode == AppMode::ExportDialog && o.export_field_idx == 0
        && o.export_csv_path@.len() > 0 ==> n == (App {
        export_csv_path: n.export_csv_path,
        ..o
    }) && n.export_csv_path@ == o.export_csv_path@.drop_last())
    &&& (o.mode == AppMode::ExportDialog && o.export_field_idx == 1
        && o.export_json_path@.len() > 0 ==> n == (App {
        export_json_path: n.export_json_path,
        ..o
    }) && n.export_json_path@ == o.export_json_path@.drop_last())
    &&& (!(o.mode == AppMode::Editing && o.cursor_pos > 0) && !(o.mode
        == AppMode::ExportDialog && ((o.export_field_idx == 0
        && o.export_csv_path@.len() > 0) || (o.export_field_idx == 1
        && o.export_json_path@.len() > 0))) ==> n == o)
}

/// `n` is `o` after `move_cursor_left`.
pub open spec fn after_move_cursor_left<F: Copy, M, R>(o: App<F, M, R>, n: App<F, M, R>) -> bool {
    &&& (n == (App {
        cursor_pos: if o.mode == AppMode::Editing && o.cursor_pos > 0 {
            (o.cursor_pos - 1) as usize
        } else {
            o.cursor_pos
        },
        ..o
    }))
}

/// `n` is `o` after `move_cursor_right`.
pub open spec fn after_move_cursor_right<F: Copy, M, R>(o: App<F, M, R>, n: App<F, M, R>) -> bool {
    &&& (n == (App {
        cursor_pos: if o.mode == AppMode::Editing && o.cursor_pos
            < o.edit_buffer@.len() {
            (o.cursor_pos + 1) as usize
        } else {
            o.cursor_pos
        },
        ..o
    }))
}

/// `n` is `o` after `finish_editing`.
pub open spec fn after_finish_editing<F: Copy, M, R>(o: App<F, M, R>, n: App<F, M, R>, number: Option<F>, point: Option<Vec<F>>) -> bool {
    &&& (o.mode != AppMode::Editing ==> n == o)
    &&& (o.mode == AppMode::Editing ==> finished(o, n, number, point))
}

/// `n` is `o` after `cancel_compare_dialog`.
pub open spec fn after_cancel_compare_dialog<F: Copy, M, R>(o: App<F, M, R>, n: App<F, M, R>) -> bool {
    &&& (n.edit_buffer@.len() == 0)
    &&& (n == (App {
        mode: AppMode::Normal,
        edit_buffer: n.edit_buffer,
        cursor_pos: 0,
        ..o
    }))
}

/// `n` is `o` after `confirm_compare_dialog`.
pub open spec fn after_confirm_compare_dialog<F: Copy, M, R>(o: App<F, M, R>, n: App<F, M, R>) -> bool {
    &&& (o.compare_groups@.len() >= MAX_COMPARE_GROUPS ==> {
        &&& n == (App {
            status_message: n.status_message,
            mode: AppMode::Normal,
            ..o
        })
        &&& n.status_message@ == "Maximum 4 compare groups allowed"@
    })
    &&& (o.compare_groups@.len() <= MAX_COMPARE_GROUPS ==> n.compare_groups@.len()
        <= MAX_COMPARE_GROUPS)
    &&& (o.compare_groups@.len() < MAX_COMPARE_GROUPS ==> {
        let count = o.compare_groups@.len() + 1;
        &&& n == (App {
            compare_groups: n.compare_groups,
            selected_compare_group: (count - 1) as usize,
            status_message: n.status_message,
            mode: AppMode::Normal,
            ..o
        })
        &&& n.compare_groups@ == o.compare_groups@.push(
            o.compare_dialog_params,
        )
        &&& n.status_message@ == "Added compare group "@ + decimal(count) + " (total: "@
            + decimal(count) + ")"@
    })
}

/// `n` is `o` after `next_compare_dialog_field`.
pub open spec fn after_next_compare_dialog_field<F: Copy, M, R>(o: App<F, M, R>, n: App<F, M, R>) -> bool {
    &&& (n == (App {
        compare_dialog_field: if o.compare_dialog_field < COMPARE_FIELD_COUNT - 1 {
            (o.compare_dialog_field + 1) as usize
        } else {
            o.compare_dialog_field
        },
        ..o
    }))
}

/// `n` is `o` after `prev_compare_dialog_field`.
pub open spec fn after_prev_compare_dialog_field<F: Copy, M, R>(o: App<F, M, R>, n: App<F, M, R>) -> bool {
    &&& (n == (App {
        compare_dialog_field: if o.compare_dialog_field > 0 {
            (o.compare_dialog_field - 1) as usize
        } else {
            o.compare_dialog_field
        },
        ..o
    }))
}

/// `n` is `o` after `finish_editing_compare_dialog`.
pub open spec fn after_finish_editing_compare_dialog<F: Copy, M, R>(o: App<F, M, R>, n: App<F, M, R>, number: Option<F>) -> bool {
    &&& (o.mode != AppMode::Editing ==> n == o)
    &&& (o.mode == AppMode::Editing ==> {
        let b = o.edit_buffer@;
        let p = o.compare_dialog_params;
        let f = o.compare_dialog_field;
        &&& n.edit_buffer@.len() == 0
        &&& n == (App {
            compare_dialog_params: n.compare_dialog_params,
            mode: AppMode::CompareGroupDialog,
            edit_buffer: n.edit_buffer,
            cursor_pos: 0,
            ..o
        })
        &&& n.compare_dialog_params == (if f == 0 {
            CompareParams { population_size: positive_setting(b, p.population_size), ..p }
        } else if f == 1 {
            CompareParams { max_iterations: positive_setting(b, p.max_iterations), ..p }
        } else if f == 2 {
            CompareParams { archive_size: positive_setting(b, p.archive_size), ..p }
        } else if f == 3 && number is Some {
            CompareParams { inertia_weight: number->Some_0, ..p }
        } else if f == 4 && number is Some {
            CompareParams { c1: number->Some_0, ..p }
        } else if f == 5 && number is Some {
            CompareParams { c2: number->Some_0, ..p }
        } else if f == 6 && is_variant_name(lowercase(b)) {
            CompareParams { variant: n.compare_dialog_params.variant, ..p }
        } else {
            p
        })
        &&& (f == 6 && is_variant_name(lowercase(b))) ==> n.compare_dialog_params.variant@
            == lowercase(b)
    })
}

/// `n` is `o` after `compare_dialog_insert_char`.
pub open spec fn after_compare_dialog_insert_char<F: Copy, M, R>(o: App<F, M, R>, n: App<F, M, R>, c: char, number: Option<F>) -> bool {
    &&& (n == (App { compare_dialog_params: n.compare_dialog_params, ..o }))
    &&& (({
        let p = o.compare_dialog_params;
        let f = o.compare_dialog_field;
        let digit = '0' <= c <= '9';
        let val = p.variant@.push(c);
        n.compare_dialog_params == (if f == 0 && digit {
            CompareParams { population_size: with_digit(p.population_size, c as int - 48), ..p }
        } else if f == 1 && digit {
            CompareParams { max_iterations: with_digit(p.max_iterations, c as int - 48), ..p }
        } else if f == 2 && digit {
            CompareParams { archive_size: with_digit(p.archive_size, c as int - 48), ..p }
        } else if (f == 3 || f == 4 || f == 5) && number is Some {
            if f == 3 {
                CompareParams { inertia_weight: number->Some_0, ..p }
            } else if f == 4 {
                CompareParams { c1: number->Some_0, ..p }
            } else {
                CompareParams { c2: number->Some_0, ..p }
            }
        } else if f == 6 && (is_variant_prefix_name(lowercase(val))
            || vstd::utf8::encode_utf8(val).len() <= 8) {
            CompareParams { variant: n.compare_dialog_params.variant, ..p }
        } else {
            p
        }) && (f == 6 ==> (if is_variant_prefix_name(lowercase(val)) {
            n.compare_dialog_params.variant@ == lowercase(val)
        } else if vstd::utf8::encode_utf8(val).len() <= 8 {
            n.compare_dialog_params.variant@ == val
        } else {
            true
        }))
    }))
}

/// `n` is `o` after `compare_dialog_backspace`.
pub open spec fn after_compare_dialog_backspace<F: Copy, M, R>(o: App<F, M, R>, n: App<F, M, R>, number: Option<F>) -> bool {
    &&& (n == (App { compare_dialog_params: n.compare_dialog_params, ..o }))
    &&& (({
        let p = o.compare_dialog_params;
        let f = o.compare_dialog_field;
        n.compare_dialog_params == (if f == 0 {
            CompareParams { population_size: without_digit(p.population_size), ..p }
        } else if f == 1 {
            CompareParams { max_iterations: without_digit(p.max_iterations), ..p }
        } else if f == 2 {
            CompareParams { archive_size: without_digit(p.archive_size), ..p }
        } else if (f == 3 || f == 4 || f == 5) && number is Some {
            if f == 3 {
                CompareParams { inertia_weight: number->Some_0, ..p }
            } else if f == 4 {
                CompareParams { c1: number->Some_0, ..p }
            } else {
                CompareParams { c2: number->Some_0, ..p }
            }
        } else if f == 6 && p.variant@.len() > 0 {
            CompareParams { variant: n.compare_dialog_params.variant, ..p }
        } else {
            p
        }) && (f == 6 && p.variant@.len() > 0 ==> n.compare_dialog_params.variant@
            == p.variant@.drop_last())
    }))
}

/// `n` is `o` after `cancel_export_dialog`.
pub open spec fn after_cancel_export_dialog<F: Copy, M, R>(o: App<F, M, R>, n: App<F, M, R>) -> bool {
    &&& (n == (App { mode: AppMode::Normal, ..o }))
}

/// `n` is `o` after `next_export_field`.
pub open spec fn after_next_export_field<F: Copy, M, R>(o: App<F, M, R>, n: App<F, M, R>) -> bool {
    &&& (n == (App {
        export_field_idx: if o.export_field_idx < 1 { 1 } else { o.export_field_idx },
        ..o
    }))
}

/// `n` is `o` after `prev_export_field`.
pub open spec fn after_prev_export_field<F: Copy, M, R>(o: App<F, M, R>, n: App<F, M, R>) -> bool {
    &&& (n == (App {
        export_field_idx: if o.export_field_idx > 0 {
            (o.export_field_idx - 1) as usize
        } else {
            o.export_field_idx
        },
        ..o
    }))
}

/// A version counter after one more change; it wraps at the end of its range.
pub open spec fn bumped(v: u64) -> u64 {
    if v == u64::MAX { 0 } else { (v + 1) as u64 }
}

fn bump(v: u64) -> (r: u64)
    ensures
        r == bumped(v),
{
    if v == u64::MAX { 0 } else { v + 1 }
}

/// Some compare group has a result.
pub open spec fn has_some_result<R>(results: Seq<Option<R>>) -> bool {
    exists|i: int| 0 <= i < results.len() && results[i] is Some
}

/// `n` is `o` after `next_problem`: nothing changes during a run; otherwise the next
/// problem round the list is selected, the last results are forgotten and the status
/// line names the problem.
pub open spec fn after_next_problem<F, M, R>(o: App<F, M, R>, n: App<F, M, R>) -> bool {
    if o.is_running {
        n == o
    } else {
        let idx = ((o.current_problem_idx + 1) % (o.builtin_problems@.len() as int)) as usize;
        &&& n == (App {
            current_problem_idx: idx,
            archive_members: n.archive_members,
            convergence: n.convergence,
            current_hv: None,
            current_generation: 0,
            archive_count: 0,
            early_stopped: false,
            is_compare_run: false,
            compare_results: n.compare_results,
            compare_progress: n.compare_progress,
            compare_current_group: 0,
            archive_version: bumped(o.archive_version),
            convergence_version: bumped(o.convergence_version),
            status_message: n.status_message,
            ..o
        })
        &&& n.archive_members@.len() == 0
        &&& n.convergence@.len() == 0
        &&& n.compare_results@.len() == 0
        &&& n.compare_progress@.len() == 0
        &&& n.status_message@ == "Switched to problem: "@ + o.builtin_problems@[idx as int]@
    }
}

/// `n` is `o` after `start_export_dialog`: the dialog opens on its first path when
/// there are results, and the status line says there are none otherwise.
pub open spec fn after_start_export_dialog<F, M, R>(o: App<F, M, R>, n: App<F, M, R>) -> bool {
    if o.archive_members@.len() == 0 && !has_some_result(o.compare_results@) {
        &&& n == (App { status_message: n.status_message, ..o })
        &&& n.status_message@ == "No results to export. Run optimization first."@
    } else {
        n == (App { mode: AppMode::ExportDialog, export_field_idx: 0, ..o })
    }
}

/// `n` is `o` after `start_compare_dialog`: nothing changes during a run; with four
/// groups the status line says so; otherwise the dialog opens with the current
/// settings.
pub open spec fn after_start_compare_dialog<F: Copy, M, R>(o: App<F, M, R>, n: App<F, M, R>) -> bool {
    if o.is_running {
        n == o
    } else if o.compare_groups@.len() >= MAX_COMPARE_GROUPS {
        &&& n == (App { status_message: n.status_message, ..o })
        &&& n.status_message@ == "Maximum 4 compare groups allowed"@
    } else {
        n == (App {
            compare_dialog_params: o.params_as_compare(),
            compare_dialog_field: 0,
            mode: AppMode::CompareGroupDialog,
            ..o
        })
    }
}

/// `n` is `o` after `delete_selected_compare_group`: nothing changes during a run or
/// without a selected group; otherwise the selected group goes, the selection stays
/// within the list, and the status line gives the number left.
pub open spec fn after_delete_selected_compare_group<F, M, R>(o: App<F, M, R>, n: App<F, M, R>) -> bool {
    if o.is_running || o.compare_groups@.len() == 0 || o.selected_compare_group
        >= o.compare_groups@.len() {
        n == o
    } else {
        let left = o.compare_groups@.len() - 1;
        let sel = o.selected_compare_group;
        &&& n == (App {
            compare_groups: n.compare_groups,
            selected_compare_group: if sel >= left && left > 0 { (left - 1) as usize } else { sel },
            status_message: n.status_message,
            ..o
        })
        &&& n.compare_groups@ == o.compare_groups@.remove(sel as int)
        &&& n.status_message@ == "Deleted compare group. Remaining: "@ + decimal(left as nat)
    }
}

impl<F: Copy, M, R> App<F, M, R> {
    /// The name of the selected built-in problem.
    pub fn current_problem(&self) -> (r: &str)
        requires
            self.wf(),
        ensures
            r@ == self.builtin_problems@[self.current_problem_idx as int]@,
    {
        self.builtin_problems[self.current_problem_idx]
    }

    /// Switches to the next built-in problem (P), round the list, and forgets the
    /// results of the last run; nothing happens while a run is going on.
    pub fn next_problem(&mut self)
        requires
            old(self).wf(),
        ensures
            final(self).wf(),
            after_next_problem(*old(self), *final(self)),
    {
        if self.is_running {
            return;
        }
        let n = self.builtin_problems.len();
        self.current_problem_idx = (self.current_problem_idx + 1) % n;
        self.archive_members = Vec::new();
        self.convergence = Vec::new();
        self.current_hv = None;
        self.current_generation = 0;
        self.archive_count = 0;
        self.early_stopped = false;
        self.is_compare_run = false;
        self.compare_results = Vec::new();
        self.compare_progress = Vec::new();
        self.compare_current_group = 0;
        self.archive_version = bump(self.archive_version);
        self.convergence_version = bump(self.convergence_version);
        let mut m = String::from_str("Switched to problem: ");
        m.append(self.builtin_problems[self.current_problem_idx]);
        self.status_message = m;
    }

    /// Opens the export dialog (E) on its first path, or says that there is nothing
    /// to export yet.
    pub fn start_export_dialog(&mut self)
        requires
            old(self).wf(),
        ensures
            final(self).wf(),
            after_start_export_dialog(*old(self), *final(self)),
    {
        let mut has_results = false;
        let mut i: usize = 0;
        while i < self.compare_results.len()
            invariant
                i <= self.compare_results@.len(),
                has_results == exists|k: int| 0 <= k < i && self.compare_results@[k] is Some,
            decreases self.compare_results@.len() - i,
        {
            if self.compare_results[i].is_some() {
                has_results = true;
            }
            i = i + 1;
        }
        if self.archive_members.len() == 0 && !has_results {
            self.status_message = String::from_str("No results to export. Run optimization first.");
            return;
        }
        self.mode = AppMode::ExportDialog;
        self.export_field_idx = 0;
    }

    /// Closes the export dialog (Esc).
    pub fn cancel_export_dialog(&mut self)
        ensures
            after_cancel_export_dialog(*old(self), *final(self)),
    {
        self.mode = AppMode::Normal;
    }

    /// Moves to the next path of the export dialog, up to the second one.
    pub fn next_export_field(&mut self)
        requires
            old(self).wf(),
        ensures
            final(self).wf(),
            after_next_export_field(*old(self), *final(self)),
    {
        if self.export_field_idx < 1 {
            self.export_field_idx = self.export_field_idx + 1;
        }
    }

    /// Moves to the previous path of the export dialog.
    pub fn prev_export_field(&mut self)
        requires
            old(self).wf(),
        ensures
            final(self).wf(),
            after_prev_export_field(*old(self), *final(self)),
    {
        if self.export_field_idx > 0 {
            self.export_field_idx = self.export_field_idx - 1;
        }
    }

    /// The current settings as a compare group.
    pub open spec fn params_as_compare(&self) -> CompareParams<F> {
        CompareParams {
            population_size: self.population_size,
            max_iterations: self.max_iterations,
            archive_size: self.archive_size,
            inertia_weight: self.inertia_weight,
            c1: self.c1,
            c2: self.c2,
            variant: self.variant,
        }
    }

    /// The current settings as a compare group.
    pub fn current_params_as_compare(&self) -> (r: CompareParams<F>)
        ensures
            r == self.params_as_compare(),
    {
        CompareParams {
            population_size: self.population_size,
            max_iterations: self.max_iterations,
            archive_size: self.archive_size,
            inertia_weight: self.inertia_weight,
            c1: self.c1,
            c2: self.c2,
            variant: self.variant.clone(),
        }
    }
}

/// The short and full names under which a compare group's variant may be typed.
pub open spec fn is_variant_prefix_name(v: Seq<char>) -> bool {
    v == "standard"@ || v == "adaptive"@ || v == "s"@ || v == "a"@ || v == "st"@ || v == "ad"@
}

/// A positive integer setting after typing digit `d` in the compare dialog: the digit
/// joins the end of its decimal text when the value still fits.
pub open spec fn with_digit(old: usize, d: int) -> usize {
    if old * 10 + d <= usize::MAX { (old * 10 + d) as usize } else { old }
}

/// A positive integer setting after a backspace in the compare dialog: its last digit
/// goes, and a single digit becomes 1.
pub open spec fn without_digit(old: usize) -> usize {
    if old >= 10 { (old / 10) as usize } else { 1 }
}

fn append_digit(old: usize, c: char) -> (r: usize)
    requires
        '0' <= c <= '9',
    ensures
        r == with_digit(old, c as int - 48),
{
    let d: usize = ((c as u32) - 48) as usize;
    match old.checked_mul(10) {
        Some(w) => match w.checked_add(d) {
            Some(x) => x,
            None => old,
        },
        None => old,
    }
}

/// The label of compare group parameter `i`.
pub open spec fn compare_field_label(i: int) -> Seq<char> {
    field_label(i)
}

impl<F: Copy, M, R> App<F, M, R> {
    /// What compare group parameter `i` of the dialog shows, the real-valued ones
    /// written as in `texts`.
    pub open spec fn compare_field_value(&self, texts: &FloatTexts, i: int) -> Seq<char> {
        seq![
            decimal(self.compare_dialog_params.population_size as nat),
            decimal(self.compare_dialog_params.max_iterations as nat),
            decimal(self.compare_dialog_params.archive_size as nat),
            texts.inertia_weight@,
            texts.c1@,
            texts.c2@,
            self.compare_dialog_params.variant@,
        ][i]
    }

    /// The parameters of the compare group dialog, as it shows them; `texts` writes the
    /// dialog's real-valued parameters (its stagnation threshold is not used).
    pub fn get_compare_fields(&self, texts: &FloatTexts) -> (r: Vec<ParameterField>)
        ensures
            r@.len() == COMPARE_FIELD_COUNT,
            forall|i: int|
                0 <= i < COMPARE_FIELD_COUNT ==> (#[trigger] r@[i]).label@ == compare_field_label(i)
                    && r@[i].value@ == self.compare_field_value(texts, i) && r@[i].field_type
                    == field_kind(i),
    {
        let p = &self.compare_dialog_params;
        let mut v: Vec<ParameterField> = Vec::new();
        v.push(make_field("Population Size", usize_to_string(p.population_size), FieldType::Usize));
        v.push(make_field("Max Iterations", usize_to_string(p.max_iterations), FieldType::Usize));
        v.push(make_field("Archive Size", usize_to_string(p.archive_size), FieldType::Usize));
        v.push(make_field("Inertia Weight", texts.inertia_weight.clone(), FieldType::Float));
        v.push(make_field("C1 (Cognitive)", texts.c1.clone(), FieldType::Float));
        v.push(make_field("C2 (Social)", texts.c2.clone(), FieldType::Float));
        v.push(make_field("Variant", p.variant.clone(), FieldType::String));
        v
    }

    /// Opens the compare group dialog (C) with the current settings; at most four
    /// groups, and nothing happens while a run is going on.
    pub fn start_compare_dialog(&mut self)
        requires
            old(self).wf(),
        ensures
            final(self).wf(),
            after_start_compare_dialog(*old(self), *final(self)),
    {
        if self.is_running {
            return;
        }
        if self.compare_groups.len() >= MAX_COMPARE_GROUPS {
            self.status_message = String::from_str("Maximum 4 compare groups allowed");
            return;
        }
        self.compare_dialog_params = self.current_params_as_compare();
        self.compare_dialog_field = 0;
        self.mode = AppMode::CompareGroupDialog;
    }

    /// Closes the compare group dialog without adding a group (Esc).
    pub fn cancel_compare_dialog(&mut self)
        ensures
            after_cancel_compare_dialog(*old(self), *final(self)),
    {
        self.mode = AppMode::Normal;
        self.edit_buffer = Vec::new();
        self.cursor_pos = 0;
    }

    /// Adds the dialog's settings as a new compare group and selects it (Enter); at
    /// most four groups.
    pub fn confirm_compare_dialog(&mut self)
        requires
            old(self).wf(),
        ensures
            final(self).wf(),
            after_confirm_compare_dialog(*old(self), *final(self)),
    {
        if self.compare_groups.len() >= MAX_COMPARE_GROUPS {
            self.status_message = String::from_str("Maximum 4 compare groups allowed");
            self.mode = AppMode::Normal;
            return;
        }
        let p = copy_params(&self.compare_dialog_params);
        self.compare_groups.push(p);
        let n = self.compare_groups.len();
        self.selected_compare_group = n - 1;
        let count = usize_to_string(n);
        let mut m = String::from_str("Added compare group ");
        m.append(count.as_str());
        m.append(" (total: ");
        m.append(count.as_str());
        m.append(")");
        self.status_message = m;
        self.mode = AppMode::Normal;
    }

    /// Deletes the selected compare group (D), keeping a selection within the list;
    /// nothing happens while a run is going on or without groups.
    pub fn delete_selected_compare_group(&mut self)
        requires
            old(self).wf(),
        ensures
            final(self).wf(),
            after_delete_selected_compare_group(*old(self), *final(self)),
    {
        if self.is_running {
            return;
        }
        if self.compare_groups.len() == 0 {
            return;
        }
        if self.selected_compare_group < self.compare_groups.len() {
            self.compare_groups.remove(self.selected_compare_group);
            let n = self.compare_groups.len();
            if self.selected_compare_group >= n && n > 0 {
                self.selected_compare_group = n - 1;
            }
            let count = usize_to_string(n);
            let mut m = String::from_str("Deleted compare group. Remaining: ");
            m.append(count.as_str());
            self.status_message = m;
        }
    }

    /// Selects the next parameter of the compare dialog, staying on the last one.
    pub fn next_compare_dialog_field(&mut self)
        requires
            old(self).wf(),
        ensures
            final(self).wf(),
            after_next_compare_dialog_field(*old(self), *final(self)),
    {
        if self.compare_dialog_field < COMPARE_FIELD_COUNT - 1 {
            self.compare_dialog_field = self.compare_dialog_field + 1;
        }
    }

    /// Selects the previous parameter of the compare dialog, staying on the first one.
    pub fn prev_compare_dialog_field(&mut self)
        requires
            old(self).wf(),
        ensures
            final(self).wf(),
            after_prev_compare_dialog_field(*old(self), *final(self)),
    {
        if self.compare_dialog_field > 0 {
            self.compare_dialog_field = self.compare_dialog_field - 1;
        }
    }

    /// Starts editing the selected parameter of the compare dialog, with the cursor at
    /// the end of its text; nothing happens when no parameter is selected.
    pub fn start_editing_compare_dialog(&mut self, texts: &FloatTexts)
        requires
            old(self).wf(),
        ensures
            final(self).wf(),
            old(self).compare_dialog_field >= COMPARE_FIELD_COUNT ==> *final(self) == *old(self),
            old(self).compare_dialog_field < COMPARE_FIELD_COUNT ==> {
                &&& final(self).edit_buffer@ == old(self).compare_field_value(
                    texts,
                    old(self).compare_dialog_field as int,
                )
                &&& *final(self) == (App {
                    edit_buffer: final(self).edit_buffer,
                    cursor_pos: final(self).edit_buffer@.len() as usize,
                    editing_from_compare_dialog: true,
                    mode: AppMode::Editing,
                    ..*old(self)
                })
            },
    {
        let fields = self.get_compare_fields(texts);
        if self.compare_dialog_field >= fields.len() {
            return;
        }
        self.edit_buffer = chars_of(fields[self.compare_dialog_field].value.as_str());
        self.cursor_pos = self.edit_buffer.len();
        self.editing_from_compare_dialog = true;
        self.mode = AppMode::Editing;
    }

    /// Ends editing a parameter of the compare dialog (Enter): the parameter takes the
    /// edited value when it is valid (a positive integer, a number, a variant name),
    /// and the dialog comes back. `number` is the edited text read as a number.
    pub fn finish_editing_compare_dialog(&mut self, number: Option<F>)
        requires
            old(self).wf(),
        ensures
            final(self).wf(),
            after_finish_editing_compare_dialog(*old(self), *final(self), number),
    {
        if self.mode != AppMode::Editing {
            return;
        }
        let text = string_of(&self.edit_buffer);
        let b = text.as_str();
        let f = self.compare_dialog_field;
        if f == 0 {
            let (v, _m) = read_positive(b, self.compare_dialog_params.population_size, "", "");
            self.compare_dialog_params.population_size = v;
        } else if f == 1 {
            let (v, _m) = read_positive(b, self.compare_dialog_params.max_iterations, "", "");
            self.compare_dialog_params.max_iterations = v;
        } else if f == 2 {
            let (v, _m) = read_positive(b, self.compare_dialog_params.archive_size, "", "");
            self.compare_dialog_params.archive_size = v;
        } else if f == 3 {
            if let Some(v) = number {
                self.compare_dialog_params.inertia_weight = v;
            }
        } else if f == 4 {
            if let Some(v) = number {
                self.compare_dialog_params.c1 = v;
            }
        } else if f == 5 {
            if let Some(v) = number {
                self.compare_dialog_params.c2 = v;
            }
        } else if f == 6 {
            let v = to_lowercase(b);
            proof {
                reveal_strlit("standard");
                reveal_strlit("adaptive");
            }
            if str_eq(v.as_str(), "standard") || str_eq(v.as_str(), "adaptive") {
                self.compare_dialog_params.variant = v;
            }
        }
        self.mode = AppMode::CompareGroupDialog;
        self.edit_buffer = Vec::new();
        self.cursor_pos = 0;
    }

    /// Selects the next compare group, staying on the last one.
    pub fn next_compare_group_selection(&mut self)
        requires
            old(self).wf(),
        ensures
            final(self).wf(),
            *final(self) == (App {
                selected_compare_group: if old(self).compare_groups@.len() > 0
                    && old(self).selected_compare_group < old(self).compare_groups@.len() - 1 {
                    (old(self).selected_compare_group + 1) as usize
                } else {
                    old(self).selected_compare_group
                },
                ..*old(self)
            }),
    {
        if self.compare_groups.len() == 0 {
            return;
        }
        if self.selected_compare_group < self.compare_groups.len() - 1 {
            self.selected_compare_group = self.selected_compare_group + 1;
        }
    }

    /// Selects the previous compare group, staying on the first one.
    pub fn prev_compare_group_selection(&mut self)
        requires
            old(self).wf(),
        ensures
            final(self).wf(),
            *final(self) == (App {
                selected_compare_group: if old(self).selected_compare_group > 0 {
                    (old(self).selected_compare_group - 1) as usize
                } else {
                    old(self).selected_compare_group
                },
                ..*old(self)
            }),
    {
        if self.selected_compare_group > 0 {
            self.selected_compare_group = self.selected_compare_group - 1;
        }
    }

    /// Types `c` into the selected parameter of the compare dialog: a digit joins a
    /// positive integer setting while it fits; a real-valued setting takes `number`,
    /// the parameter's text with `c` at its end read as a number, when there is one; the
    /// variant takes the text with `c` at its end, in lower case when that is one of
    /// the variants' names or their short forms, as typed while at most 8 bytes long.
    pub fn compare_dialog_insert_char(&mut self, c: char, number: Option<F>)
        requires
            old(self).wf(),
        ensures
            final(self).wf(),
            after_compare_dialog_insert_char(*old(self), *final(self), c, number),
    {
        let f = self.compare_dialog_field;
        if f <= 2 {
            if '0' <= c && c <= '9' {
                if f == 0 {
                    self.compare_dialog_params.population_size = append_digit(
                        self.compare_dialog_params.population_size,
                        c,
                    );
                } else if f == 1 {
                    self.compare_dialog_params.max_iterations = append_digit(
                        self.compare_dialog_params.max_iterations,
                        c,
                    );
                } else {
                    self.compare_dialog_params.archive_size = append_digit(
                        self.compare_dialog_params.archive_size,
                        c,
                    );
                }
            }
        } else if f <= 5 {
            if let Some(v) = number {
                if f == 3 {
                    self.compare_dialog_params.inertia_weight = v;
                } else if f == 4 {
                    self.compare_dialog_params.c1 = v;
                } else {
                    self.compare_dialog_params.c2 = v;
                }
            }
        } else if f == 6 {
            let mut val = self.compare_dialog_params.variant.clone();
            push_char(&mut val, c);
            let v = to_lowercase(val.as_str());
            proof {
                reveal_strlit("standard");
                reveal_strlit("adaptive");
                reveal_strlit("s");
                reveal_strlit("a");
                reveal_strlit("st");
                reveal_strlit("ad");
            }
            let vs = v.as_str();
            if str_eq(vs, "standard") || str_eq(vs, "adaptive") || str_eq(vs, "s") || str_eq(vs, "a")
                || str_eq(vs, "st") || str_eq(vs, "ad") {
                self.compare_dialog_params.variant = v;
            } else if val.as_str().as_bytes().len() <= 8 {
                self.compare_dialog_params.variant = val;
            }
        }
    }

    /// Erases in the selected parameter of the compare dialog: a positive integer
    /// setting loses its last digit (a single digit becomes 1); a real-valued setting
    /// takes `number`, its text without the last character read as a number, when
    /// there is one; the variant loses its last character.
    pub fn compare_dialog_backspace(&mut self, number: Option<F>)
        requires
            old(self).wf(),
        ensures
            final(self).wf(),
            after_compare_dialog_backspace(*old(self), *final(self), number),
    {
        let f = self.compare_dialog_field;
        if f == 0 {
            let p = self.compare_dialog_params.population_size;
            self.compare_dialog_params.population_size = if p >= 10 { p / 10 } else { 1 };
        } else if f == 1 {
            let p = self.compare_dialog_params.max_iterations;
            self.compare_dialog_params.max_iterations = if p >= 10 { p / 10 } else { 1 };
        } else if f == 2 {
            let p = self.compare_dialog_params.archive_size;
            self.compare_dialog_params.archive_size = if p >= 10 { p / 10 } else { 1 };
        } else if f <= 5 {
            if let Some(v) = number {
                if f == 3 {
                    self.compare_dialog_params.inertia_weight = v;
                } else if f == 4 {
                    self.compare_dialog_params.c1 = v;
                } else {
                    self.compare_dialog_params.c2 = v;
                }
            }
        } else if f == 6 {
            if self.compare_dialog_params.variant.as_str().unicode_len() > 0 {
                self.compare_dialog_params.variant = without_last(&self.compare_dialog_params.variant);
            }
        }
    }
}

/// A key press, as the front end tells them apart.
#[derive(Debug, Clone, Copy, PartialEq, Eq, Structural)]
pub enum Key {
    Char(char),
    Tab,
    ShiftTab,
    BackTab,
    Up,
    Down,
    Left,
    Right,
    Enter,
    Esc,
    Backspace,
    Other,
}

/// What the front end must do after a key in normal mode, beyond the change of state.
#[derive(Debug, Clone, Copy, PartialEq, Eq, Structural)]
pub enum KeyAction {
    Nothing,
    Quit,
    StartRun,
    StopRun,
    Export,
}

/// `n` is `o` after key `key` in normal mode, which asks the front end for `r`.
pub open spec fn after_normal_key<F: Copy, M, R>(
    o: App<F, M, R>,
    n: App<F, M, R>,
    key: Key,
    texts: &FloatTexts,
    r: KeyAction,
) -> bool {
    match key {
        Key::Char(c) => if c == 'q' || c == 'Q' {
            if o.is_running {
                r == KeyAction::StopRun && n == (App {
                    mode: AppMode::Stopping,
                    status_message: n.status_message,
                    ..o
                }) && n.status_message@ == "Stopping... Please wait."@
            } else {
                r == KeyAction::Quit && n == o
            }
        } else if c == 'r' || c == 'R' {
            n == o && r == (if o.is_running { KeyAction::Nothing } else { KeyAction::StartRun })
        } else if c == 's' || c == 'S' {
            if o.is_running {
                r == KeyAction::StopRun && n == (App {
                    mode: AppMode::Stopping,
                    status_message: n.status_message,
                    ..o
                }) && n.status_message@ == "Stopping... Please wait."@
            } else {
                r == KeyAction::Nothing && n == o
            }
        } else if c == 'e' || c == 'E' {
            r == KeyAction::Nothing && (if o.is_running {
                n == o
            } else {
                after_start_export_dialog(o, n)
            })
        } else if c == 'p' || c == 'P' {
            r == KeyAction::Nothing && after_next_problem(o, n)
        } else if c == 'c' || c == 'C' {
            r == KeyAction::Nothing && (if o.is_running {
                n == o
            } else {
                after_start_compare_dialog(o, n)
            })
        } else if c == 'd' || c == 'D' {
            r == KeyAction::Nothing && (if !o.is_running && o.current_panel
                == Panel::Parameters {
                after_delete_selected_compare_group(o, n)
            } else {
                n == o
            })
        } else {
            r == KeyAction::Nothing && n == o
        },
        Key::Tab => r == KeyAction::Nothing && n == (App {
            current_panel: spec_next_panel(o.current_panel),
            ..o
        }),
        Key::ShiftTab | Key::BackTab => r == KeyAction::Nothing && n == (App {
            current_panel: spec_prev_panel(o.current_panel),
            ..o
        }),
        Key::Up => r == KeyAction::Nothing && (if o.current_panel != Panel::Parameters {
            n == o
        } else if o.selected_field > 0 {
            n == (App { selected_field: (o.selected_field - 1) as usize, ..o })
        } else {
            n == (App {
                selected_compare_group: if o.compare_groups@.len() > 0
                    && o.selected_compare_group > 0 {
                    (o.selected_compare_group - 1) as usize
                } else {
                    o.selected_compare_group
                },
                ..o
            })
        }),
        Key::Down => r == KeyAction::Nothing && (if o.current_panel != Panel::Parameters {
            n == o
        } else if o.selected_field < FIELD_COUNT - 1 {
            n == (App { selected_field: (o.selected_field + 1) as usize, ..o })
        } else {
            n == (App {
                selected_compare_group: if o.compare_groups@.len() > 0
                    && o.selected_compare_group < o.compare_groups@.len() - 1 {
                    (o.selected_compare_group + 1) as usize
                } else {
                    o.selected_compare_group
                },
                ..o
            })
        }),
        Key::Enter => r == KeyAction::Nothing && (if o.current_panel == Panel::Parameters
            && !o.is_running && o.selected_field < FIELD_COUNT {
            n.mode == AppMode::Editing && n.edit_buffer@ == o.editing_text(
                texts,
                o.selected_field as int,
            ) && n == (App {
                edit_buffer: n.edit_buffer,
                cursor_pos: n.edit_buffer@.len() as usize,
                editing_from_compare_dialog: false,
                mode: AppMode::Editing,
                ..o
            })
        } else {
            n == o
        }),
        _ => r == KeyAction::Nothing && n == o,
    }
}

impl<F: Copy, M, R> App<F, M, R> {
    /// The state at the start of a run: running, with no results yet; with compare
    /// groups, a compare run over all of them, from the first. `zero` is the
    /// hypervolume shown before the first one is known, when there is a reference point.
    pub fn begin_run(&mut self, zero: F)
        requires
            old(self).wf(),
        ensures
            final(self).wf(),
            ({
                let n = old(self).compare_groups@.len();
                let compare = n > 0;
                &&& *final(self) == (App {
                    is_compare_run: compare,
                    compare_current_group: if compare { 0 } else { old(self).compare_current_group },
                    compare_results: final(self).compare_results,
                    compare_progress: final(self).compare_progress,
                    status_message: final(self).status_message,
                    is_running: true,
                    current_generation: 0,
                    archive_count: 0,
                    current_hv: if old(self).reference_point is Some { Some(zero) } else { None },
                    archive_members: final(self).archive_members,
                    convergence: final(self).convergence,
                    early_stopped: false,
                    archive_version: bumped(old(self).archive_version),
                    convergence_version: bumped(old(self).convergence_version),
                    ..*old(self)
                })
                &&& final(self).archive_members@.len() == 0
                &&& final(self).convergence@.len() == 0
                &&& compare ==> {
                    &&& final(self).compare_results@.len() == n
                    &&& forall|i: int| 0 <= i < n ==> final(self).compare_results@[i] is None
                    &&& final(self).compare_progress@ == Seq::new(n, |i: int| (0usize, 0usize, None::<F>))
                    &&& final(self).status_message@ == "Compare run: "@ + decimal(n) + " groups. Running group 1/"@
                        + decimal(n) + "... Press S to stop"@
                }
                &&& !compare ==> final(self).compare_results == old(self).compare_results
                    && final(self).compare_progress == old(self).compare_progress
                    && final(self).status_message == old(self).status_message
            }),
    {
        let n = self.compare_groups.len();
        if n > 0 {
            self.is_compare_run = true;
            self.compare_current_group = 0;
            let mut results: Vec<Option<R>> = Vec::new();
            let mut progress: Vec<(usize, usize, Option<F>)> = Vec::new();
            let mut i: usize = 0;
            while i < n
                invariant
                    i <= n,
                    results@.len() == i,
                    forall|k: int| 0 <= k < i ==> results@[k] is None,
                    progress@ == Seq::new(i as nat, |k: int| (0usize, 0usize, None::<F>)),
                decreases n - i,
            {
                results.push(None);
                progress.push((0, 0, None));
                assert(progress@ =~= Seq::new((i + 1) as nat, |k: int| (0usize, 0usize, None::<F>)));
                i = i + 1;
            }
            self.compare_results = results;
            self.compare_progress = progress;
            let count = usize_to_string(n);
            let mut m = String::from_str("Compare run: ");
            m.append(count.as_str());
            m.append(" groups. Running group 1/");
            m.append(count.as_str());
            m.append("... Press S to stop");
            self.status_message = m;
        } else {
            self.is_compare_run = false;
        }
        self.is_running = true;
        self.current_generation = 0;
        self.archive_count = 0;
        self.current_hv = match &self.reference_point {
            Some(_) => Some(zero),
            None => None,
        };
        self.archive_members = Vec::new();
        self.convergence = Vec::new();
        self.early_stopped = false;
        self.archive_version = bump(self.archive_version);
        self.convergence_version = bump(self.convergence_version);
    }

    /// Marks a stop request: the run is told to stop and the status line says so.
    fn request_stop(&mut self)
        ensures
            *final(self) == (App {
                mode: AppMode::Stopping,
                status_message: final(self).status_message,
                ..*old(self)
            }),
            final(self).status_message@ == "Stopping... Please wait."@,
    {
        self.status_message = String::from_str("Stopping... Please wait.");
        self.mode = AppMode::Stopping;
    }

    /// A key in normal mode (or while stopping): `q` quits, or asks a run to stop; `r`
    /// asks for a run; `s` asks a run to stop; `e` opens the export dialog; `p`
    /// switches problem; `c` opens the compare dialog; `d` deletes the selected compare
    /// group; Tab and Shift-Tab move between panels; on the parameters panel the arrows
    /// move through the parameters and then the compare groups, and Enter edits.
    /// `texts` writes the real-valued parameters, for Enter.
    pub fn handle_normal_key(&mut self, key: Key, texts: &FloatTexts) -> (r: KeyAction)
        requires
            old(self).wf(),
        ensures
            final(self).wf(),
            after_normal_key(*old(self), *final(self), key, texts, r),
    {
        match key {
            Key::Char(c) => {
                if c == 'q' || c == 'Q' {
                    if self.is_running {
                        self.request_stop();
                        KeyAction::StopRun
                    } else {
                        KeyAction::Quit
                    }
                } else if c == 'r' || c == 'R' {
                    if self.is_running {
                        KeyAction::Nothing
                    } else {
                        KeyAction::StartRun
                    }
                } else if c == 's' || c == 'S' {
                    if self.is_running {
                        self.request_stop();
                        KeyAction::StopRun
                    } else {
                        KeyAction::Nothing
                    }
                } else if c == 'e' || c == 'E' {
                    if !self.is_running {
                        self.start_export_dialog();
                    }
                    KeyAction::Nothing
                } else if c == 'p' || c == 'P' {
                    self.next_problem();
                    KeyAction::Nothing
                } else if c == 'c' || c == 'C' {
                    if !self.is_running {
                        self.start_compare_dialog();
                    }
                    KeyAction::Nothing
                } else if c == 'd' || c == 'D' {
                    if !self.is_running && self.current_panel == Panel::Parameters {
                        self.delete_selected_compare_group();
                    }
                    KeyAction::Nothing
                } else {
                    KeyAction::Nothing
                }
            },
            Key::Tab => {
                self.next_panel();
                KeyAction::Nothing
            },
            Key::ShiftTab | Key::BackTab => {
                self.prev_panel();
                KeyAction::Nothing
            },
            Key::Up => {
                if self.current_panel == Panel::Parameters {
                    if self.selected_field > 0 {
                        self.prev_field();
                    } else if self.compare_groups.len() > 0 {
                        self.prev_compare_group_selection();
                    }
                }
                KeyAction::Nothing
            },
            Key::Down => {
                if self.current_panel == Panel::Parameters {
                    if self.selected_field < FIELD_COUNT - 1 {
                        self.next_field();
                    } else if self.compare_groups.len() > 0 {
                        self.next_compare_group_selection();
                    }
                }
                KeyAction::Nothing
            },
            Key::Enter => {
                if self.current_panel == Panel::Parameters && !self.is_running {
                    self.start_editing(texts);
                }
                KeyAction::Nothing
            },
            _ => KeyAction::Nothing,
        }
    }
}

impl<F: Copy, M, R> App<F, M, R> {
    /// A run reports its progress: `iteration`, the archive's size and its
    /// hypervolume, if computed; `size_value` is the archive's size as a real number.
    /// In a compare run the group's progress is kept, and the status follows the group
    /// being run; otherwise the status follows the run and the convergence curve grows
    /// by the hypervolume (or the archive size) until it covers `iteration` points.
    pub fn record_progress(
        &mut self,
        group_id: usize,
        iteration: usize,
        archive_size: usize,
        hv: Option<F>,
        size_value: F,
    )
        requires
            old(self).wf(),
        ensures
            final(self).wf(),
            old(self).is_compare_run ==> {
                &&& *final(self) == (App {
                    compare_progress: final(self).compare_progress,
                    current_generation: final(self).current_generation,
                    archive_count: final(self).archive_count,
                    current_hv: final(self).current_hv,
                    ..*old(self)
                })
                &&& final(self).compare_progress@ == (if group_id < old(self).compare_progress@.len() {
                    old(self).compare_progress@.update(group_id as int, (iteration, archive_size, hv))
                } else {
                    old(self).compare_progress@
                })
                &&& if group_id == old(self).compare_current_group {
                    &&& final(self).current_generation == iteration
                    &&& final(self).archive_count == archive_size
                    &&& final(self).current_hv == hv
                } else {
                    &&& final(self).current_generation == old(self).current_generation
                    &&& final(self).archive_count == old(self).archive_count
                    &&& final(self).current_hv == old(self).current_hv
                }
            },
            !old(self).is_compare_run ==> {
                let grow = old(self).convergence@.len() < iteration;
                let point = match hv {
                    Some(v) => v,
                    None => size_value,
                };
                &&& *final(self) == (App {
                    current_generation: iteration,
                    archive_count: archive_size,
                    current_hv: hv,
                    convergence: final(self).convergence,
                    convergence_version: if grow {
                        bumped(old(self).convergence_version)
                    } else {
                        old(self).convergence_version
                    },
                    ..*old(self)
                })
                &&& final(self).convergence@ == (if grow {
                    old(self).convergence@.push(point)
                } else {
                    old(self).convergence@
                })
            },
    {
        if self.is_compare_run {
            if group_id < self.compare_progress.len() {
                self.compare_progress.set(group_id, (iteration, archive_size, hv));
            }
            if group_id == self.compare_current_group {
                self.current_generation = iteration;
                self.archive_count = archive_size;
                self.current_hv = hv;
            }
        } else {
            self.current_generation = iteration;
            self.archive_count = archive_size;
            self.current_hv = hv;
            if self.convergence.len() < iteration {
                match hv {
                    Some(v) => self.convergence.push(v),
                    None => self.convergence.push(size_value),
                }
                self.convergence_version = bump(self.convergence_version);
            }
        }
    }

    /// A run sends a snapshot of its archive: it is shown, in a compare run only when
    /// it comes from the group being run.
    pub fn record_snapshot(&mut self, group_id: usize, archive: Vec<M>)
        requires
            old(self).wf(),
        ensures
            final(self).wf(),
            if !old(self).is_compare_run || group_id == old(self).compare_current_group {
                *final(self) == (App {
                    archive_members: archive,
                    archive_version: bumped(old(self).archive_version),
                    ..*old(self)
                })
            } else {
                *final(self) == *old(self)
            },
    {
        if !self.is_compare_run || group_id == self.compare_current_group {
            self.archive_members = archive;
            self.archive_version = bump(self.archive_version);
        }
    }

    /// A run sends its convergence curve: it is shown outside compare runs.
    pub fn record_convergence(&mut self, convergence: Vec<F>)
        requires
            old(self).wf(),
        ensures
            final(self).wf(),
            if !old(self).is_compare_run {
                *final(self) == (App {
                    convergence: convergence,
                    convergence_version: bumped(old(self).convergence_version),
                    ..*old(self)
                })
            } else {
                *final(self) == *old(self)
            },
    {
        if !self.is_compare_run {
            self.convergence = convergence;
            self.convergence_version = bump(self.convergence_version);
        }
    }

    /// A single run ends after `final_iter` iterations with `archive` and
    /// `convergence`: the front end shows them and is ready for keys again. `hv` is the
    /// final archive's hypervolume, shown when there is a reference point.
    pub fn finish_single_run(
        &mut self,
        final_iter: usize,
        archive: Vec<M>,
        convergence: Vec<F>,
        early_stopped: bool,
        hv: Option<F>,
    )
        requires
            old(self).wf(),
        ensures
            final(self).wf(),
            *final(self) == (App {
                is_running: false,
                mode: AppMode::Normal,
                current_generation: final_iter,
                archive_count: archive@.len() as usize,
                archive_members: archive,
                archive_version: bumped(old(self).archive_version),
                convergence: convergence,
                convergence_version: bumped(old(self).convergence_version),
                early_stopped: early_stopped,
                current_hv: if old(self).reference_point is Some { hv } else { old(self).current_hv },
                status_message: final(self).status_message,
                ..*old(self)
            }),
            final(self).status_message@ == (if early_stopped {
                "Optimization finished (early stopped at gen "@ + decimal(final_iter as nat) + ")"@
            } else {
                "Optimization finished! "@ + decimal(archive@.len()) + " solutions found."@
            }),
    {
        self.is_running = false;
        self.mode = AppMode::Normal;
        self.current_generation = final_iter;
        self.archive_count = archive.len();
        let count = usize_to_string(archive.len());
        self.archive_members = archive;
        self.archive_version = bump(self.archive_version);
        self.convergence = convergence;
        self.convergence_version = bump(self.convergence_version);
        self.early_stopped = early_stopped;
        if self.reference_point.is_some() {
            self.current_hv = hv;
        }
        if early_stopped {
            let mut m = String::from_str("Optimization finished (early stopped at gen ");
            let it = usize_to_string(final_iter);
            m.append(it.as_str());
            m.append(")");
            self.status_message = m;
        } else {
            let mut m = String::from_str("Optimization finished! ");
            m.append(count.as_str());
            m.append(" solutions found.");
            self.status_message = m;
        }
    }

    /// Compare group `group_id` ends with `result` and final archive `archive`: the
    /// result is kept, the archive shown if the group was the one being run, and the
    /// run moves on to the next group. Returns whether all groups are done; then the
    /// run is over and the front end is ready for keys again. Otherwise the status
    /// says which group runs now, and its progress starts from zero (`zero` being the
    /// hypervolume shown when there is a reference point).
    pub fn finish_compare_group(&mut self, group_id: usize, result: R, archive: Vec<M>, zero: F) -> (done: bool)
        requires
            old(self).wf(),
            group_id < usize::MAX,
            old(self).compare_current_group < usize::MAX,
        ensures
            final(self).wf(),
            ({
                let o = *old(self);
                let n = o.compare_groups@.len();
                let next = o.compare_current_group + 1;
                let shown = group_id == o.compare_current_group;
                &&& done == (next >= n)
                &&& final(self).compare_results@ == (if group_id < o.compare_results@.len() {
                    o.compare_results@.update(group_id as int, Some(result))
                } else {
                    o.compare_results@
                })
                &&& final(self).archive_members == (if shown { archive } else { o.archive_members })
                &&& final(self).archive_version == (if shown { bumped(o.archive_version) } else { o.archive_version })
                &&& final(self).compare_current_group == next
                &&& if done {
                    *final(self) == (App {
                        compare_results: final(self).compare_results,
                        archive_members: final(self).archive_members,
                        archive_version: final(self).archive_version,
                        compare_current_group: next as usize,
                        is_running: false,
                        mode: AppMode::Normal,
                        ..o
                    })
                } else {
                    &&& *final(self) == (App {
                        compare_results: final(self).compare_results,
                        archive_members: final(self).archive_members,
                        archive_version: final(self).archive_version,
                        compare_current_group: next as usize,
                        status_message: final(self).status_message,
                        current_generation: 0,
                        archive_count: 0,
                        current_hv: if o.reference_point is Some { Some(zero) } else { None },
                        ..o
                    })
                    &&& final(self).status_message@ == "Compare run: group "@ + decimal((group_id + 1) as nat)
                        + "/"@ + decimal(n) + " done. Running group "@ + decimal((next + 1) as nat) + "/"@
                        + decimal(n) + "..."@
                }
            }),
    {
        if group_id < self.compare_results.len() {
            self.compare_results.set(group_id, Some(result));
        }
        if group_id == self.compare_current_group {
            self.archive_members = archive;
            self.archive_version = bump(self.archive_version);
        }
        let n = self.compare_groups.len();
        self.compare_current_group = self.compare_current_group + 1;
        if self.compare_current_group >= n {
            self.is_running = false;
            self.mode = AppMode::Normal;
            true
        } else {
            let total = usize_to_string(n);
            let g = usize_to_string(group_id + 1);
            let c = usize_to_string(self.compare_current_group + 1);
            let mut m = String::from_str("Compare run: group ");
            m.append(g.as_str());
            m.append("/");
            m.append(total.as_str());
            m.append(" done. Running group ");
            m.append(c.as_str());
            m.append("/");
            m.append(total.as_str());
            m.append("...");
            self.status_message = m;
            self.current_generation = 0;
            self.archive_count = 0;
            self.current_hv = match &self.reference_point {
                Some(_) => Some(zero),
                None => None,
            };
            false
        }
    }
}

/// Typing a digit into a positive integer setting of the compare dialog and erasing
/// it again gives the setting back, when the digit fitted.
pub proof fn law_backspace_undoes_digit(p: usize, d: int)
    requires
        p >= 1,
        0 <= d <= 9,
        p * 10 + d <= usize::MAX,
    ensures
        without_digit(with_digit(p, d)) == p,
{
    assert((p * 10 + d) / 10 == p) by (nonlinear_arith)
        requires
            0 <= d <= 9,
            p >= 1,
    ;
    assert(p * 10 + d >= 10) by (nonlinear_arith)
        requires
            p >= 1,
            d >= 0,
    ;
}

/// Erasing the character just typed at the cursor gives the edit buffer back.
pub proof fn law_backspace_undoes_insert(buffer: Seq<char>, cursor: int, c: char)
    requires
        0 <= cursor <= buffer.len(),
    ensures
        buffer.insert(cursor, c).remove(cursor) == buffer,
{
    assert(buffer.insert(cursor, c).remove(cursor) =~= buffer);
}

impl<F: Copy, M, R> App<F, M, R> {
    /// The export dialog's paths were written (`Ok`) or not (`Err` with the reason):
    /// the status line says so and the dialog closes.
    pub fn finish_export(&mut self, outcome: Result<(), String>)
        requires
            old(self).wf(),
        ensures
            final(self).wf(),
            *final(self) == (App {
                status_message: final(self).status_message,
                mode: AppMode::Normal,
                ..*old(self)
            }),
            final(self).status_message@ == (match outcome {
                Ok(_) => "Exported to "@ + old(self).export_csv_path@ + " and "@
                    + old(self).export_json_path@,
                Err(e) => "Export failed: "@ + e@,
            }),
    {
        let m = match outcome {
            Ok(_) => {
                let mut m = String::from_str("Exported to ");
                m.append(self.export_csv_path.as_str());
                m.append(" and ");
                m.append(self.export_json_path.as_str());
                m
            },
            Err(e) => {
                let mut m = String::from_str("Export failed: ");
                m.append(e.as_str());
                m
            },
        };
        self.status_message = m;
        self.cancel_export_dialog();
    }
}

/// What the front end reads from the text on the screen before it hands a key to the
/// state, where the key may need a real number: the real-valued parameters as the
/// panel writes them; the edited text read as a number, and trimmed and read as
/// comma-separated numbers; and, for the real-valued parameter selected in the compare
/// dialog, its text with the typed character at its end, and its text without its last
/// character, each read as a number.
pub struct KeyInputs<F> {
    pub texts: FloatTexts,
    pub number: Option<F>,
    pub point: Option<Vec<F>>,
    pub typed_number: Option<F>,
    pub erased_number: Option<F>,
}

/// `n` is `o` after key `key` while a parameter is edited (`number` and `point` as
/// for `finish_editing`).
pub open spec fn after_editing_key<F: Copy, M, R>(
    o: App<F, M, R>,
    n: App<F, M, R>,
    key: Key,
    number: Option<F>,
    point: Option<Vec<F>>,
) -> bool {
    match key {
        Key::Enter => after_finish_editing(o, n, number, point),
        Key::Esc => after_cancel_editing(o, n),
        Key::Backspace => after_backspace(o, n),
        Key::Left => after_move_cursor_left(o, n),
        Key::Right => after_move_cursor_right(o, n),
        Key::Char(c) => after_insert_char(o, n, c),
        _ => n == o,
    }
}

/// `n` is `o` after key `key` while a parameter of the compare dialog is edited.
pub open spec fn after_editing_compare_key<F: Copy, M, R>(
    o: App<F, M, R>,
    n: App<F, M, R>,
    key: Key,
    number: Option<F>,
) -> bool {
    match key {
        Key::Enter => after_finish_editing_compare_dialog(o, n, number),
        Key::Esc => after_cancel_compare_dialog(o, n),
        Key::Backspace => after_backspace(o, n),
        Key::Left => after_move_cursor_left(o, n),
        Key::Right => after_move_cursor_right(o, n),
        Key::Char(c) => after_insert_char(o, n, c),
        _ => n == o,
    }
}

/// `n` is `o` after key `key` in the compare dialog.
pub open spec fn after_compare_dialog_key<F: Copy, M, R>(
    o: App<F, M, R>,
    n: App<F, M, R>,
    key: Key,
    typed_number: Option<F>,
    erased_number: Option<F>,
) -> bool {
    match key {
        Key::Esc => after_cancel_compare_dialog(o, n),
        Key::Enter => after_confirm_compare_dialog(o, n),
        Key::Up => after_prev_compare_dialog_field(o, n),
        Key::Down => after_next_compare_dialog_field(o, n),
        Key::Char(c) => after_compare_dialog_insert_char(o, n, c, typed_number),
        Key::Backspace => after_compare_dialog_backspace(o, n, erased_number),
        _ => n == o,
    }
}

/// `n` is `o` after key `key` in the export dialog, which asks the front end for `r`:
/// Enter asks for the export.
pub open spec fn after_export_dialog_key<F: Copy, M, R>(
    o: App<F, M, R>,
    n: App<F, M, R>,
    key: Key,
    r: KeyAction,
) -> bool {
    match key {
        Key::Enter => r == KeyAction::Export && n == o,
        Key::Esc => r == KeyAction::Nothing && after_cancel_export_dialog(o, n),
        Key::Up => r == KeyAction::Nothing && after_prev_export_field(o, n),
        Key::Down => r == KeyAction::Nothing && after_next_export_field(o, n),
        Key::Backspace => r == KeyAction::Nothing && after_backspace(o, n),
        Key::Char(c) => r == KeyAction::Nothing && after_insert_char(o, n, c),
        _ => r == KeyAction::Nothing && n == o,
    }
}

impl<F: Copy, M, R> App<F, M, R> {
    /// A key while a parameter is edited.
    pub fn handle_editing_key(&mut self, key: Key, number: Option<F>, point: Option<Vec<F>>)
        requires
            old(self).wf(),
        ensures
            final(self).wf(),
            after_editing_key(*old(self), *final(self), key, number, point),
    {
        match key {
            Key::Enter => self.finish_editing(number, point),
            Key::Esc => self.cancel_editing(),
            Key::Backspace => self.backspace(),
            Key::Left => self.move_cursor_left(),
            Key::Right => self.move_cursor_right(),
            Key::Char(c) => self.insert_char(c),
            _ => {},
        }
    }

    /// A key while a parameter of the compare dialog is edited.
    pub fn handle_editing_compare_key(&mut self, key: Key, number: Option<F>)
        requires
            old(self).wf(),
        ensures
            final(self).wf(),
            after_editing_compare_key(*old(self), *final(self), key, number),
    {
        match key {
            Key::Enter => self.finish_editing_compare_dialog(number),
            Key::Esc => self.cancel_compare_dialog(),
            Key::Backspace => self.backspace(),
            Key::Left => self.move_cursor_left(),
            Key::Right => self.move_cursor_right(),
            Key::Char(c) => self.insert_char(c),
            _ => {},
        }
    }

    /// A key in the compare dialog.
    pub fn handle_compare_dialog_key(
        &mut self,
        key: Key,
        typed_number: Option<F>,
        erased_number: Option<F>,
    )
        requires
            old(self).wf(),
        ensures
            final(self).wf(),
            after_compare_dialog_key(*old(self), *final(self), key, typed_number, erased_number),
    {
        match key {
            Key::Esc => self.cancel_compare_dialog(),
            Key::Enter => self.confirm_compare_dialog(),
            Key::Up => self.prev_compare_dialog_field(),
            Key::Down => self.next_compare_dialog_field(),
            Key::Char(c) => self.compare_dialog_insert_char(c, typed_number),
            Key::Backspace => self.compare_dialog_backspace(erased_number),
            _ => {},
        }
    }

    /// A key in the export dialog; Enter asks the front end to export.
    pub fn handle_export_dialog_key(&mut self, key: Key) -> (r: KeyAction)
        requires
            old(self).wf(),
        ensures
            final(self).wf(),
            after_export_dialog_key(*old(self), *final(self), key, r),
    {
        match key {
            Key::Enter => KeyAction::Export,
            Key::Esc => {
                self.cancel_export_dialog();
                KeyAction::Nothing
            },
            Key::Up => {
                self.prev_export_field();
                KeyAction::Nothing
            },
            Key::Down => {
                self.next_export_field();
                KeyAction::Nothing
            },
            Key::Backspace => {
                self.backspace();
                KeyAction::Nothing
            },
            Key::Char(c) => {
                self.insert_char(c);
                KeyAction::Nothing
            },
            _ => KeyAction::Nothing,
        }
    }

    /// A key, acted on as the current mode says: while editing (a parameter, or one of
    /// the compare dialog), in the export dialog, in the compare dialog, or in normal
    /// mode (also while stopping). Returns what the front end must do besides.
    pub fn handle_key(&mut self, key: Key, inputs: KeyInputs<F>) -> (r: KeyAction)
        requires
            old(self).wf(),
        ensures
            final(self).wf(),
            ({
                let o = *old(self);
                let n = *final(self);
                match o.mode {
                    AppMode::Editing => r == KeyAction::Nothing && if o.editing_from_compare_dialog {
                        after_editing_compare_key(o, n, key, inputs.number)
                    } else {
                        after_editing_key(o, n, key, inputs.number, inputs.point)
                    },
                    AppMode::ExportDialog => after_export_dialog_key(o, n, key, r),
                    AppMode::CompareGroupDialog => r == KeyAction::Nothing && after_compare_dialog_key(
                        o,
                        n,
                        key,
                        inputs.typed_number,
                        inputs.erased_number,
                    ),
                    _ => after_normal_key(o, n, key, &inputs.texts, r),
                }
            }),
    {
        match self.mode {
            AppMode::Editing => {
                if self.editing_from_compare_dialog {
                    self.handle_editing_compare_key(key, inputs.number);
                } else {
                    self.handle_editing_key(key, inputs.number, inputs.point);
                }
                KeyAction::Nothing
            },
            AppMode::ExportDialog => self.handle_export_dialog_key(key),
            AppMode::CompareGroupDialog => {
                self.handle_compare_dialog_key(key, inputs.typed_number, inputs.erased_number);
                KeyAction::Nothing
            },
            _ => self.handle_normal_key(key, &inputs.texts),
        }
    }
}

impl<F, M, R> App<F, M, R> {
    /// The label of the status panel: while a run goes on, `Running`, or for a
    /// compare run `Compare Running (i/n)` with the group under way counted from 1;
    /// after a run, `Early Stopped` when the stopping rule ended it, else `Completed`
    /// once a generation ran; before any run, `Ready`.
    pub open spec fn status_text(&self) -> Seq<char> {
        if self.is_running {
            if self.compare_groups@.len() > 0 {
                "Compare Running ("@ + decimal((self.compare_current_group + 1) as nat) + "/"@
                    + decimal(self.compare_groups@.len()) + ")"@
            } else {
                "Running"@
            }
        } else if self.early_stopped {
            "Early Stopped"@
        } else if self.current_generation > 0 {
            "Completed"@
        } else {
            "Ready"@
        }
    }

    /// The label that the status panel shows for the state of the run.
    pub fn status_label(&self) -> (r: String)
        requires
            self.is_running && self.compare_groups@.len() > 0 ==> self.compare_current_group
                < usize::MAX,
        ensures
            r@ == self.status_text(),
    {
        proof {
            reveal_strlit("Compare Running (");
            reveal_strlit("/");
            reveal_strlit(")");
            reveal_strlit("Running");
            reveal_strlit("Early Stopped");
            reveal_strlit("Completed");
            reveal_strlit("Ready");
        }
        if self.is_running {
            if self.compare_groups.len() > 0 {
                let current = usize_to_string(self.compare_current_group + 1);
                let total = usize_to_string(self.compare_groups.len());
                let mut s = String::from_str("Compare Running (");
                s.append(current.as_str());
                s.append("/");
                s.append(total.as_str());
                s.append(")");
                s
            } else {
                String::from_str("Running")
            }
        } else if self.early_stopped {
            String::from_str("Early Stopped")
        } else if self.current_generation > 0 {
            String::from_str("Completed")
        } else {
            String::from_str("Ready")
        }
    }
}

/// Finishing the edit of a real-valued parameter with text that reads as the number
/// `v` sets the parameter whose label the selected field shows, and only that one:
/// the other real-valued parameters and every other setting stay as they were.
pub proof fn law_real_parameter_edit<F: Copy, M, R>(
    o: App<F, M, R>,
    n: App<F, M, R>,
    v: F,
    point: Option<Vec<F>>,
)
    requires
        o.mode == AppMode::Editing,
        o.selected_field < FIELD_COUNT,
        field_kind(o.selected_field as int) == FieldType::Float,
        after_finish_editing(o, n, Some(v), point),
    ensures
        n.inertia_weight == (if field_label(o.selected_field as int) == "Inertia Weight"@ {
            v
        } else {
            o.inertia_weight
        }),
        n.c1 == (if field_label(o.selected_field as int) == "C1 (Cognitive)"@ {
            v
        } else {
            o.c1
        }),
        n.c2 == (if field_label(o.selected_field as int) == "C2 (Social)"@ {
            v
        } else {
            o.c2
        }),
        n.stagnation_threshold == (if field_label(o.selected_field as int)
            == "Stagnation Threshold"@ {
            v
        } else {
            o.stagnation_threshold
        }),
        n.population_size == o.population_size,
        n.max_iterations == o.max_iterations,
        n.archive_size == o.archive_size,
        n.stagnation_limit == o.stagnation_limit,
        n.variant == o.variant,
        n.reference_point == o.reference_point,
        n.mode == AppMode::Normal,
        n.status_message@ == "Parameter updated"@,
{
    reveal_strlit("Inertia Weight");
    reveal_strlit("C1 (Cognitive)");
    reveal_strlit("C2 (Social)");
    reveal_strlit("Stagnation Threshold");
    let iw = "Inertia Weight"@;
    let c1 = "C1 (Cognitive)"@;
    let c2 = "C2 (Social)"@;
    let st = "Stagnation Threshold"@;
    assert(iw[0] != c1[0] && iw.len() != c2.len() && iw.len() != st.len());
    assert(c1.len() != c2.len() && c1.len() != st.len() && c2.len() != st.len());
    assert(iw != c1 && iw != c2 && iw != st && c1 != c2 && c1 != st && c2 != st);
}

/// Finishing the edit of an integer parameter whose text reads as a positive
/// integer `v` sets the parameter whose label the selected field shows to `v`, and
/// only that one: the other integer parameters and the real-valued ones stay as they
/// were.
pub proof fn law_integer_parameter_edit<F: Copy, M, R>(
    o: App<F, M, R>,
    n: App<F, M, R>,
    number: Option<F>,
    point: Option<Vec<F>>,
    v: int,
)
    requires
        o.mode == AppMode::Editing,
        o.selected_field < FIELD_COUNT,
        field_kind(o.selected_field as int) == FieldType::Usize,
        parsed_usize(o.edit_buffer@) == Some(v),
        v > 0,
        after_finish_editing(o, n, number, point),
    ensures
        n.population_size == (if field_label(o.selected_field as int) == "Population Size"@ {
            v
        } else {
            o.population_size as int
        }),
        n.max_iterations == (if field_label(o.selected_field as int) == "Max Iterations"@ {
            v
        } else {
            o.max_iterations as int
        }),
        n.archive_size == (if field_label(o.selected_field as int) == "Archive Size"@ {
            v
        } else {
            o.archive_size as int
        }),
        n.stagnation_limit == (if field_label(o.selected_field as int) == "Stagnation Limit"@ {
            v
        } else {
            o.stagnation_limit as int
        }),
        n.inertia_weight == o.inertia_weight,
        n.c1 == o.c1,
        n.c2 == o.c2,
        n.stagnation_threshold == o.stagnation_threshold,
        n.variant == o.variant,
        n.reference_point == o.reference_point,
        n.mode == AppMode::Normal,
        n.status_message@ == "Parameter updated"@,
{
    reveal_strlit("Population Size");
    reveal_strlit("Max Iterations");
    reveal_strlit("Archive Size");
    reveal_strlit("Stagnation Limit");
    let ps = "Population Size"@;
    let mi = "Max Iterations"@;
    let az = "Archive Size"@;
    let sl = "Stagnation Limit"@;
    assert(ps.len() == 15 && mi.len() == 14 && az.len() == 12 && sl.len() == 16);
    assert(ps != mi && ps != az && ps != sl && mi != az && mi != sl && az != sl);
}

} // verus!
