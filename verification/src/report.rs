//! The order in which a benchmark report lists its results.

use vstd::prelude::*;
use crate::text::{decimal, usize_to_string};

verus! {

/// What the report knows of one benchmark result when it orders them: the problem it
/// ran, and the configuration it ran with, if the benchmark compared several.
pub struct BenchmarkKey {
    pub name: String,
    pub config_name: Option<String>,
}

/// The model of a key: the problem's name and the configuration's name.
pub open spec fn key_view(k: BenchmarkKey) -> (Seq<char>, Option<Seq<char>>) {
    (
        k.name@,
        match k.config_name {
            Some(c) => Some(c@),
            None => None,
        },
    )
}

/// The models of the keys.
pub open spec fn keys_view(ks: Seq<BenchmarkKey>) -> Seq<(Seq<char>, Option<Seq<char>>)> {
    ks.map_values(|k: BenchmarkKey| key_view(k))
}

/// The problem names, each once, in order of first appearance.
pub open spec fn problem_names(ks: Seq<(Seq<char>, Option<Seq<char>>)>) -> Seq<Seq<char>>
    decreases ks.len(),
{
    if ks.len() == 0 {
        seq![]
    } else {
        let p = problem_names(ks.drop_last());
        if p.contains(ks.last().0) {
            p
        } else {
            p.push(ks.last().0)
        }
    }
}

/// The configuration names, each once, in order of first appearance.
pub open spec fn config_names(ks: Seq<(Seq<char>, Option<Seq<char>>)>) -> Seq<Seq<char>>
    decreases ks.len(),
{
    if ks.len() == 0 {
        seq![]
    } else {
        let p = config_names(ks.drop_last());
        match ks.last().1 {
            Some(c) => if p.contains(c) {
                p
            } else {
                p.push(c)
            },
            None => p,
        }
    }
}

/// The indices, in order, of the results of problem `p` with configuration `c`.
pub open spec fn matching(ks: Seq<(Seq<char>, Option<Seq<char>>)>, p: Seq<char>, c: Seq<char>) -> Seq<usize>
    decreases ks.len(),
{
    if ks.len() == 0 {
        seq![]
    } else {
        let rest = matching(ks.drop_last(), p, c);
        if ks.last().0 == p && ks.last().1 == Some(c) {
            rest.push((ks.len() - 1) as usize)
        } else {
            rest
        }
    }
}

/// The results of problem `p`, configuration by configuration in the order `cs`.
pub open spec fn for_problem(
    ks: Seq<(Seq<char>, Option<Seq<char>>)>,
    p: Seq<char>,
    cs: Seq<Seq<char>>,
) -> Seq<usize>
    decreases cs.len(),
{
    if cs.len() == 0 {
        seq![]
    } else {
        for_problem(ks, p, cs.drop_last()) + matching(ks, p, cs.last())
    }
}

/// The results problem by problem in the order `ps`, each configuration by
/// configuration in the order `cs`.
pub open spec fn grouped(
    ks: Seq<(Seq<char>, Option<Seq<char>>)>,
    ps: Seq<Seq<char>>,
    cs: Seq<Seq<char>>,
) -> Seq<usize>
    decreases ps.len(),
{
    if ps.len() == 0 {
        seq![]
    } else {
        grouped(ks, ps.drop_last(), cs) + for_problem(ks, ps.last(), cs)
    }
}

/// The order of the overview table: with a single configuration, the results as they
/// came; otherwise grouped by problem (in order of first appearance) and, within a
/// problem, by configuration (in order of first appearance).
pub open spec fn overview_order(ks: Seq<(Seq<char>, Option<Seq<char>>)>, single_config: bool) -> Seq<usize> {
    if single_config {
        Seq::new(ks.len(), |i: int| i as usize)
    } else {
        grouped(ks, problem_names(ks), config_names(ks))
    }
}

fn contains_text(v: &Vec<String>, s: &String) -> (r: bool)
    ensures
        r == v@.map_values(|x: String| x@).contains(s@),
{
    let ghost sv = v@.map_values(|x: String| x@);
    let mut i: usize = 0;
    while i < v.len()
        invariant
            sv == v@.map_values(|x: String| x@),
            i <= v@.len(),
            forall|k: int| 0 <= k < i ==> v@[k]@ != s@,
        decreases v@.len() - i,
    {
        if v[i] == *s {
            assert(sv[i as int] == s@);
            return true;
        }
        i = i + 1;
    }
    assert(!sv.contains(s@)) by {
        if sv.contains(s@) {
            let k = choose|k: int| 0 <= k < sv.len() && sv[k] == s@;
            assert(v@[k]@ == s@);
        }
    }
    false
}

/// Whether a result has problem `p` and configuration `c`.
fn key_matches(k: &BenchmarkKey, p: &String, c: &String) -> (r: bool)
    ensures
        r == (key_view(*k).0 == p@ && key_view(*k).1 == Some(c@)),
{
    if k.name != *p {
        return false;
    }
    match &k.config_name {
        Some(name) => *name == *c,
        None => false,
    }
}

/// The order in which the overview table lists the results `benchmarks`: as they came
/// with a single configuration, otherwise grouped by problem and then configuration,
/// each in order of first appearance.
pub fn build_overview_order(benchmarks: &[BenchmarkKey], single_config: bool) -> (r: Vec<usize>)
    ensures
        r@ == overview_order(keys_view(benchmarks@), single_config),
{
    let ghost ks = keys_view(benchmarks@);
    let n = benchmarks.len();
    if single_config {
        let mut out: Vec<usize> = Vec::new();
        let mut i: usize = 0;
        while i < n
            invariant
                n == benchmarks@.len(),
                i <= n,
                out@ == Seq::new(i as nat, |k: int| k as usize),
            decreases n - i,
        {
            out.push(i);
            assert(out@ =~= Seq::new((i + 1) as nat, |k: int| k as usize));
            i = i + 1;
        }
        return out;
    }
    let mut problems: Vec<String> = Vec::new();
    let mut configs: Vec<String> = Vec::new();
    let mut i: usize = 0;
    while i < n
        invariant
            n == benchmarks@.len(),
            ks == keys_view(benchmarks@),
            i <= n,
            problems@.map_values(|x: String| x@) == problem_names(ks.take(i as int)),
            configs@.map_values(|x: String| x@) == config_names(ks.take(i as int)),
        decreases n - i,
    {
        assert(ks.take(i + 1).drop_last() =~= ks.take(i as int));
        let bm = &benchmarks[i];
        if !contains_text(&problems, &bm.name) {
            problems.push(bm.name.clone());
            assert(problems@.map_values(|x: String| x@) =~= problem_names(ks.take(i + 1)));
        } else {
            assert(problems@.map_values(|x: String| x@) =~= problem_names(ks.take(i + 1)));
        }
        match &bm.config_name {
            Some(cn) => {
                if !contains_text(&configs, cn) {
                    configs.push(cn.clone());
                    assert(configs@.map_values(|x: String| x@) =~= config_names(ks.take(i + 1)));
                } else {
                    assert(configs@.map_values(|x: String| x@) =~= config_names(ks.take(i + 1)));
                }
            },
            None => {
                assert(configs@.map_values(|x: String| x@) =~= config_names(ks.take(i + 1)));
            },
        }
        i = i + 1;
    }
    assert(ks.take(n as int) =~= ks);
    let ghost ps = problems@.map_values(|x: String| x@);
    let ghost cs = configs@.map_values(|x: String| x@);
    let mut out: Vec<usize> = Vec::new();
    let mut a: usize = 0;
    while a < problems.len()
        invariant
            n == benchmarks@.len(),
            ks == keys_view(benchmarks@),
            ps == problems@.map_values(|x: String| x@),
            cs == configs@.map_values(|x: String| x@),
            a <= problems@.len(),
            out@ == grouped(ks, ps.take(a as int), cs),
        decreases problems@.len() - a,
    {
        let p = &problems[a];
        let ghost before_p = out@;
        let mut b: usize = 0;
        while b < configs.len()
            invariant
                n == benchmarks@.len(),
                ks == keys_view(benchmarks@),
                cs == configs@.map_values(|x: String| x@),
                b <= configs@.len(),
                out@ == before_p + for_problem(ks, p@, cs.take(b as int)),
            decreases configs@.len() - b,
        {
            let c = &configs[b];
            let ghost before_c = out@;
            let mut k: usize = 0;
            while k < n
                invariant
                    n == benchmarks@.len(),
                    ks == keys_view(benchmarks@),
                    k <= n,
                    out@ == before_c + matching(ks.take(k as int), p@, c@),
                decreases n - k,
            {
                assert(ks.take(k + 1).drop_last() =~= ks.take(k as int));
                assert(ks.take(k + 1).last() == key_view(benchmarks@[k as int]));
                if key_matches(&benchmarks[k], p, c) {
                    out.push(k);
                }
                assert(out@ =~= before_c + matching(ks.take(k + 1), p@, c@));
                k = k + 1;
            }
            assert(ks.take(n as int) =~= ks);
            assert(cs.take(b + 1).drop_last() =~= cs.take(b as int));
            assert(out@ =~= before_p + for_problem(ks, p@, cs.take(b + 1)));
            b = b + 1;
        }
        assert(cs.take(configs@.len() as int) =~= cs);
        assert(ps.take(a + 1).drop_last() =~= ps.take(a as int));
        assert(out@ =~= grouped(ks, ps.take(a + 1), cs));
        a = a + 1;
    }
    assert(ps.take(problems@.len() as int) =~= ps);
    out
}

/// The header of a Pareto-front CSV file: a `group_id` column when groups are
/// compared, `var_` and each variable's name, `obj_` and each objective's index, and
/// `constraint_violation`.
pub open spec fn csv_header_spec(var_names: Seq<Seq<char>>, n_objs: nat, with_group: bool) -> Seq<Seq<char>> {
    (if with_group { seq!["group_id"@] } else { seq![] })
        + var_names.map_values(|v: Seq<char>| "var_"@ + v)
        + Seq::new(n_objs, |i: int| "obj_"@ + decimal(i as nat))
        + seq!["constraint_violation"@]
}

/// The header of a Pareto-front CSV file.
pub fn csv_header(var_names: &[String], n_objs: usize, with_group: bool) -> (r: Vec<String>)
    ensures
        r@.map_values(|x: String| x@) == csv_header_spec(
            var_names@.map_values(|x: String| x@),
            n_objs as nat,
            with_group,
        ),
{
    let ghost names = var_names@.map_values(|x: String| x@);
    let mut out: Vec<String> = Vec::new();
    if with_group {
        out.push(String::from_str("group_id"));
    }
    let ghost start = out@.map_values(|x: String| x@);
    assert(start =~= (if with_group { seq!["group_id"@] } else { Seq::<Seq<char>>::empty() }));
    let mut i: usize = 0;
    while i < var_names.len()
        invariant
            i <= var_names@.len(),
            names == var_names@.map_values(|x: String| x@),
            out@.map_values(|x: String| x@) == start + names.take(i as int).map_values(
                |v: Seq<char>| "var_"@ + v,
            ),
        decreases var_names@.len() - i,
    {
        let ghost before = out@.map_values(|x: String| x@);
        let mut h = String::from_str("var_");
        h.append(var_names[i].as_str());
        out.push(h);
        assert(names.take(i + 1).map_values(|v: Seq<char>| "var_"@ + v) =~= names.take(
            i as int,
        ).map_values(|v: Seq<char>| "var_"@ + v).push("var_"@ + names[i as int]));
        assert(out@.map_values(|x: String| x@) =~= before.push("var_"@ + names[i as int]));
        i = i + 1;
    }
    assert(names.take(var_names@.len() as int) =~= names);
    let ghost mid = out@.map_values(|x: String| x@);
    let mut k: usize = 0;
    while k < n_objs
        invariant
            k <= n_objs,
            out@.map_values(|x: String| x@) == mid + Seq::new(k as nat, |j: int| "obj_"@ + decimal(j as nat)),
        decreases n_objs - k,
    {
        let ghost before = out@.map_values(|x: String| x@);
        let mut h = String::from_str("obj_");
        let d = usize_to_string(k);
        h.append(d.as_str());
        out.push(h);
        assert(out@.map_values(|x: String| x@) =~= before.push("obj_"@ + decimal(k as nat)));
        assert(mid + Seq::new((k + 1) as nat, |j: int| "obj_"@ + decimal(j as nat)) =~= (mid + Seq::new(
            k as nat,
            |j: int| "obj_"@ + decimal(j as nat),
        )).push("obj_"@ + decimal(k as nat)));
        k = k + 1;
    }
    let ghost before = out@.map_values(|x: String| x@);
    out.push(String::from_str("constraint_violation"));
    assert(out@.map_values(|x: String| x@) =~= before.push("constraint_violation"@));
    out
}

/// The columns of a Pareto-front CSV file, position by position, in the order in
/// which each row writes its values: with groups, column 0 is `group_id` and the
/// other columns move one place right; then one `var_` column per variable, in the
/// variables' order, one `obj_` column per objective, numbered from 0, and
/// `constraint_violation` last.
pub proof fn law_csv_columns(var_names: Seq<Seq<char>>, n_objs: nat, with_group: bool)
    ensures
        ({
            let h = csv_header_spec(var_names, n_objs, with_group);
            let g: int = if with_group { 1 } else { 0 };
            &&& h.len() == g + var_names.len() + n_objs + 1
            &&& with_group ==> h[0] == "group_id"@
            &&& forall|i: int| 0 <= i < var_names.len() ==> #[trigger] h[g + i] == "var_"@ + var_names[i]
            &&& forall|k: int| 0 <= k < n_objs ==> #[trigger] h[g + var_names.len() + k] == "obj_"@ + decimal(k as nat)
            &&& h[h.len() - 1] == "constraint_violation"@
        }),
{
    let h = csv_header_spec(var_names, n_objs, with_group);
    let g: int = if with_group { 1 } else { 0 };
    let front: Seq<Seq<char>> = if with_group { seq!["group_id"@] } else { seq![] };
    let vars = var_names.map_values(|v: Seq<char>| "var_"@ + v);
    let objs = Seq::new(n_objs, |i: int| "obj_"@ + decimal(i as nat));
    assert(front.len() == g);
    assert forall|i: int| 0 <= i < var_names.len() implies #[trigger] h[g + i] == "var_"@ + var_names[i] by {
        assert(h[g + i] == (front + vars)[g + i]);
        assert((front + vars)[g + i] == vars[i]);
    }
    assert forall|k: int| 0 <= k < n_objs implies #[trigger] h[g + var_names.len() + k] == "obj_"@ + decimal(k as nat) by {
        assert(h[g + var_names.len() + k] == (front + vars + objs)[g + var_names.len() + k]);
        assert((front + vars + objs)[g + var_names.len() + k] == objs[k]);
    }
    if with_group {
        assert(h[0] == (front + vars + objs)[0]);
        assert((front + vars + objs)[0] == (front + vars)[0]);
        assert((front + vars)[0] == front[0]);
    }
}

} // verus!
