//! The defaults of the algorithm's and the output's settings, and how a setting is
//! shown in a report.

use vstd::prelude::*;

verus! {

/// The number of particles when none is given.
pub fn default_pop_size() -> (r: usize)
    ensures
        r == 100,
{
    100
}

/// The number of iterations when none is given.
pub fn default_max_iter() -> (r: usize)
    ensures
        r == 500,
{
    500
}

/// The capacity of the Pareto archive when none is given.
pub fn default_archive_size() -> (r: usize)
    ensures
        r == 200,
{
    200
}

/// The number of grid divisions per objective for leader selection when none is
/// given.
pub fn default_grid_divisions() -> (r: usize)
    ensures
        r == 20,
{
    20
}

/// The file the Pareto front is written to when none is given.
pub fn default_pareto_csv() -> (r: String)
    ensures
        r@ == "pareto_front.csv"@,
{
    String::from_str("pareto_front.csv")
}

/// The file the convergence curve is written to when none is given.
pub fn default_convergence_json() -> (r: String)
    ensures
        r@ == "convergence.json"@,
{
    String::from_str("convergence.json")
}

/// How a setting is shown in a report: its text, marked when the command line
/// overrode it.
pub open spec fn field_text(value: Seq<char>, overridden: bool) -> Seq<char> {
    if overridden {
        value + " (overridden)"@
    } else {
        value
    }
}

/// The text of a setting in a report, `value` as written, marked `(overridden)` when
/// the command line set it.
pub fn fmt_field(value: &str, overridden: bool) -> (r: String)
    ensures
        r@ == field_text(value@, overridden),
{
    let mut out = String::from_str(value);
    if overridden {
        out.append(" (overridden)");
    }
    out
}

/// The settings of the algorithm that the command line can override. `F` is the type
/// of the real-valued settings and `W` that of the inertia-weight setting.
pub struct AlgorithmSettings<F, W> {
    pub population_size: usize,
    pub max_iterations: usize,
    pub archive_size: usize,
    pub inertia_weight: Option<W>,
    pub c1: F,
    pub c2: F,
    pub grid_divisions: usize,
    pub variant: String,
    pub stagnation_limit: usize,
    pub stagnation_threshold: F,
}

/// The settings given on the command line, if any; a given inertia weight is already
/// the fixed-weight setting.
pub struct Overrides<F, W> {
    pub population_size: Option<usize>,
    pub max_iterations: Option<usize>,
    pub archive_size: Option<usize>,
    pub inertia_weight: Option<W>,
    pub c1: Option<F>,
    pub c2: Option<F>,
    pub grid_divisions: Option<usize>,
    pub variant: Option<String>,
    pub stagnation_limit: Option<usize>,
    pub stagnation_threshold: Option<F>,
}

/// A setting after an override: the given value, or the old one.
pub open spec fn overridden<T>(old: T, given: Option<T>) -> T {
    match given {
        Some(v) => v,
        None => old,
    }
}

/// The short name of setting `i` in a report, in the order of `Overrides`.
pub open spec fn override_name(i: int) -> Seq<char> {
    seq![
        "pop"@,
        "iter"@,
        "archive"@,
        "inertia"@,
        "c1"@,
        "c2"@,
        "grid"@,
        "variant"@,
        "stag_limit"@,
        "stag_thresh"@,
    ][i]
}

/// Which settings `o` gives, in the order of `Overrides`.
pub open spec fn given<F, W>(o: Overrides<F, W>) -> Seq<bool> {
    seq![
        o.population_size is Some,
        o.max_iterations is Some,
        o.archive_size is Some,
        o.inertia_weight is Some,
        o.c1 is Some,
        o.c2 is Some,
        o.grid_divisions is Some,
        o.variant is Some,
        o.stagnation_limit is Some,
        o.stagnation_threshold is Some,
    ]
}

/// The names of the settings that `given` marks, in order.
pub open spec fn given_names(given: Seq<bool>) -> Seq<Seq<char>>
    decreases given.len(),
{
    if given.len() == 0 {
        seq![]
    } else {
        let rest = given_names(given.drop_last());
        if given.last() {
            rest.push(override_name(given.len() - 1))
        } else {
            rest
        }
    }
}

/// Records the name of setting `k` when it was given.
fn note(
    names: &mut Vec<&'static str>,
    marks: Ghost<Seq<bool>>,
    k: usize,
    was_given: bool,
    name: &'static str,
)
    requires
        k < marks@.len(),
        was_given == marks@[k as int],
        name@ == override_name(k as int),
        old(names)@.map_values(|n: &'static str| n@) == given_names(marks@.take(k as int)),
    ensures
        final(names)@.map_values(|n: &'static str| n@) == given_names(marks@.take(k + 1)),
{
    assert(marks@.take(k + 1).drop_last() =~= marks@.take(k as int));
    let ghost before = names@;
    if was_given {
        names.push(name);
        assert(names@.map_values(|n: &'static str| n@) =~= before.map_values(
            |n: &'static str| n@,
        ).push(name@));
    }
}

/// The short names of the settings that `o` gives, in order.
fn override_names<F, W>(o: &Overrides<F, W>) -> (names: Vec<&'static str>)
    ensures
        names@.map_values(|n: &'static str| n@) == given_names(given(*o)),
{
    let ghost g = given(*o);
    let mut names: Vec<&'static str> = Vec::new();
    assert(names@.map_values(|n: &'static str| n@) =~= given_names(g.take(0)));
    note(&mut names, Ghost(g), 0, o.population_size.is_some(), "pop");
    note(&mut names, Ghost(g), 1, o.max_iterations.is_some(), "iter");
    note(&mut names, Ghost(g), 2, o.archive_size.is_some(), "archive");
    note(&mut names, Ghost(g), 3, o.inertia_weight.is_some(), "inertia");
    note(&mut names, Ghost(g), 4, o.c1.is_some(), "c1");
    note(&mut names, Ghost(g), 5, o.c2.is_some(), "c2");
    note(&mut names, Ghost(g), 6, o.grid_divisions.is_some(), "grid");
    note(&mut names, Ghost(g), 7, o.variant.is_some(), "variant");
    note(&mut names, Ghost(g), 8, o.stagnation_limit.is_some(), "stag_limit");
    note(&mut names, Ghost(g), 9, o.stagnation_threshold.is_some(), "stag_thresh");
    assert(g.take(10) =~= g);
    names
}

impl<F: Copy, W> AlgorithmSettings<F, W> {
    /// Applies the command line's settings, each that is given replacing the one of
    /// the configuration, and returns the short names of those given, in order.
    pub fn apply_overrides(&mut self, o: Overrides<F, W>) -> (names: Vec<&'static str>)
        ensures
            final(self).population_size == overridden(old(self).population_size, o.population_size),
            final(self).max_iterations == overridden(old(self).max_iterations, o.max_iterations),
            final(self).archive_size == overridden(old(self).archive_size, o.archive_size),
            final(self).inertia_weight == (match o.inertia_weight {
                Some(w) => Some(w),
                None => old(self).inertia_weight,
            }),
            final(self).c1 == overridden(old(self).c1, o.c1),
            final(self).c2 == overridden(old(self).c2, o.c2),
            final(self).grid_divisions == overridden(old(self).grid_divisions, o.grid_divisions),
            final(self).variant == overridden(old(self).variant, o.variant),
            final(self).stagnation_limit == overridden(old(self).stagnation_limit, o.stagnation_limit),
            final(self).stagnation_threshold == overridden(
                old(self).stagnation_threshold,
                o.stagnation_threshold,
            ),
            names@.map_values(|n: &'static str| n@) == given_names(given(o)),
    {
        let names = override_names(&o);
        if let Some(v) = o.population_size {
            self.population_size = v;
        }
        if let Some(v) = o.max_iterations {
            self.max_iterations = v;
        }
        if let Some(v) = o.archive_size {
            self.archive_size = v;
        }
        if let Some(w) = o.inertia_weight {
            self.inertia_weight = Some(w);
        }
        if let Some(v) = o.c1 {
            self.c1 = v;
        }
        if let Some(v) = o.c2 {
            self.c2 = v;
        }
        if let Some(v) = o.grid_divisions {
            self.grid_divisions = v;
        }
        if let Some(v) = o.variant {
            self.variant = v;
        }
        if let Some(v) = o.stagnation_limit {
            self.stagnation_limit = v;
        }
        if let Some(v) = o.stagnation_threshold {
            self.stagnation_threshold = v;
        }
        names
    }
}

} // verus!
