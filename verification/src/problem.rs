//! Problems: which built-in problem a name asks for, and the compilation of a
//! problem written in a configuration file.

use vstd::prelude::*;
use crate::expr::{binds, compile_result, strings_view, variables_of, CompiledExpr, SpecExpr};
use crate::text::{lowercase, str_eq, to_lowercase};

verus! {

/// The built-in benchmark problems.
#[derive(Debug, Clone, Copy, PartialEq, Eq, Structural)]
pub enum BuiltinProblem {
    Zdt1,
    Zdt2,
    Zdt3,
    WeldedBeam,
    PressureVessel,
}

/// The built-in problem that a lower-case name stands for.
pub open spec fn builtin_named(name: Seq<char>) -> Option<BuiltinProblem> {
    if name == "zdt1"@ {
        Some(BuiltinProblem::Zdt1)
    } else if name == "zdt2"@ {
        Some(BuiltinProblem::Zdt2)
    } else if name == "zdt3"@ {
        Some(BuiltinProblem::Zdt3)
    } else if name == "welded_beam"@ || name == "weldedbeam"@ {
        Some(BuiltinProblem::WeldedBeam)
    } else if name == "pressure_vessel"@ || name == "pressurevessel"@ {
        Some(BuiltinProblem::PressureVessel)
    } else {
        None
    }
}

/// The name under which a built-in problem is listed (the list in the message for an
/// unknown name).
pub open spec fn listed_name(p: BuiltinProblem) -> Seq<char> {
    match p {
        BuiltinProblem::Zdt1 => "zdt1"@,
        BuiltinProblem::Zdt2 => "zdt2"@,
        BuiltinProblem::Zdt3 => "zdt3"@,
        BuiltinProblem::WeldedBeam => "welded_beam"@,
        BuiltinProblem::PressureVessel => "pressure_vessel"@,
    }
}

/// The listed name of a problem with its underscore left out.
pub open spec fn joined_name(p: BuiltinProblem) -> Seq<char> {
    match p {
        BuiltinProblem::Zdt1 => "zdt1"@,
        BuiltinProblem::Zdt2 => "zdt2"@,
        BuiltinProblem::Zdt3 => "zdt3"@,
        BuiltinProblem::WeldedBeam => "weldedbeam"@,
        BuiltinProblem::PressureVessel => "pressurevessel"@,
    }
}

/// Each built-in problem is found under its listed name, and a name finds a problem
/// only when it is that problem's listed name or that name without its underscore.
/// So distinct problems are found under distinct names: no name finds another
/// problem than its own.
pub proof fn law_builtin_names(p: BuiltinProblem, name: Seq<char>)
    ensures
        builtin_named(listed_name(p)) == Some(p),
        builtin_named(joined_name(p)) == Some(p),
        builtin_named(name) == Some(p) ==> name == listed_name(p) || name == joined_name(p),
{
    reveal_strlit("zdt1");
    reveal_strlit("zdt2");
    reveal_strlit("zdt3");
    reveal_strlit("welded_beam");
    reveal_strlit("weldedbeam");
    reveal_strlit("pressure_vessel");
    reveal_strlit("pressurevessel");
    let names = seq![
        "zdt1"@,
        "zdt2"@,
        "zdt3"@,
        "welded_beam"@,
        "weldedbeam"@,
        "pressure_vessel"@,
        "pressurevessel"@,
    ];
    assert("zdt1"@[3] != "zdt2"@[3] && "zdt1"@[3] != "zdt3"@[3] && "zdt2"@[3] != "zdt3"@[3]);
    assert(forall|i: int, j: int|
        0 <= i < 3 && 3 <= j < 7 ==> #[trigger] names[i].len() != #[trigger] names[j].len());
    assert(forall|i: int, j: int|
        3 <= i < 5 && 5 <= j < 7 ==> #[trigger] names[i][0] != #[trigger] names[j][0]);
    assert(names[3].len() != names[4].len() && names[5].len() != names[6].len());
}

/// The message for a name that no built-in problem has.
pub open spec fn unknown_problem_message(name: Seq<char>) -> Seq<char> {
    "Unknown built-in problem: "@ + name
        + ". Available: zdt1, zdt2, zdt3, welded_beam, pressure_vessel"@
}

/// The built-in problem that `name` asks for, in any letter case; an unknown name is
/// an error that lists the known ones.
pub fn find_builtin(name: &str) -> (r: Result<BuiltinProblem, String>)
    ensures
        match builtin_named(lowercase(name@)) {
            Some(p) => r == Ok::<BuiltinProblem, String>(p),
            None => r is Err && r->Err_0@ == unknown_problem_message(name@),
        },
{
    let lower = to_lowercase(name);
    let l = lower.as_str();
    proof {
        reveal_strlit("zdt1");
        reveal_strlit("zdt2");
        reveal_strlit("zdt3");
        reveal_strlit("welded_beam");
        reveal_strlit("weldedbeam");
        reveal_strlit("pressure_vessel");
        reveal_strlit("pressurevessel");
    }
    if str_eq(l, "zdt1") {
        Ok(BuiltinProblem::Zdt1)
    } else if str_eq(l, "zdt2") {
        Ok(BuiltinProblem::Zdt2)
    } else if str_eq(l, "zdt3") {
        Ok(BuiltinProblem::Zdt3)
    } else if str_eq(l, "welded_beam") || str_eq(l, "weldedbeam") {
        Ok(BuiltinProblem::WeldedBeam)
    } else if str_eq(l, "pressure_vessel") || str_eq(l, "pressurevessel") {
        Ok(BuiltinProblem::PressureVessel)
    } else {
        let mut m = String::from_str("Unknown built-in problem: ");
        m.append(name);
        m.append(". Available: zdt1, zdt2, zdt3, welded_beam, pressure_vessel");
        Err(m)
    }
}

/// The index of the first text of `inputs` that does not compile against `allowed`.
pub open spec fn first_failure(inputs: Seq<Seq<char>>, allowed: Seq<Seq<char>>) -> Option<int> {
    if exists|i: int| 0 <= i < inputs.len() && compile_result(inputs[i], allowed) is Err {
        Some(
            choose|i: int|
                0 <= i < inputs.len() && compile_result(inputs[i], allowed) is Err && forall|j: int|
                    0 <= j < i ==> compile_result(inputs[j], allowed) is Ok,
        )
    } else {
        None
    }
}

/// `out` holds, in order, the compilation of each text of `inputs` against `allowed`.
pub open spec fn compiled_all(
    out: Seq<CompiledExpr>,
    inputs: Seq<Seq<char>>,
    allowed: Seq<Seq<char>>,
) -> bool {
    &&& out.len() == inputs.len()
    &&& forall|i: int|
        0 <= i < inputs.len() ==> {
            &&& compile_result(inputs[i], allowed) == Ok::<SpecExpr, Seq<char>>(#[trigger] out[i].tree())
            &&& binds(out[i].bindings(), variables_of(out[i].tree()), allowed)
        }
}

/// What compiling a list gives: the message of its first failure, or the compiled
/// expressions.
pub open spec fn list_outcome(
    r: Result<Vec<CompiledExpr>, String>,
    inputs: Seq<Seq<char>>,
    allowed: Seq<Seq<char>>,
) -> bool {
    match first_failure(inputs, allowed) {
        Some(k) => r is Err && Err::<SpecExpr, Seq<char>>(r->Err_0@) == compile_result(
            inputs[k],
            allowed,
        ),
        None => r is Ok && compiled_all(r->Ok_0@, inputs, allowed),
    }
}

/// Compiles each text against the variable names; the first failure ends it.
pub fn compile_list(inputs: &[String], allowed: &[String]) -> (r: Result<Vec<CompiledExpr>, String>)
    ensures
        list_outcome(r, strings_view(inputs@), strings_view(allowed@)),
{
    let ghost ins = strings_view(inputs@);
    let ghost al = strings_view(allowed@);
    let mut out: Vec<CompiledExpr> = Vec::new();
    let mut i: usize = 0;
    while i < inputs.len()
        invariant
            ins == strings_view(inputs@),
            al == strings_view(allowed@),
            i <= inputs@.len(),
            compiled_all(out@, ins.take(i as int), al),
            forall|j: int| 0 <= j < i ==> compile_result(ins[j], al) is Ok,
        decreases inputs@.len() - i,
    {
        match CompiledExpr::new(inputs[i].as_str(), allowed) {
            Ok(e) => {
                let ghost before = out@;
                out.push(e);
                assert forall|j: int| 0 <= j < i + 1 implies {
                    &&& compile_result(ins.take(i + 1)[j], al) == Ok::<SpecExpr, Seq<char>>(
                        #[trigger] out@[j].tree(),
                    )
                    &&& binds(out@[j].bindings(), variables_of(out@[j].tree()), al)
                } by {
                    if j < i {
                        assert(ins.take(i as int)[j] == ins.take(i + 1)[j]);
                        assert(before[j] == out@[j]);
                    }
                }
            },
            Err(m) => {
                proof {
                    assert(compile_result(ins[i as int], al) is Err);
                    let k = choose|k: int|
                        0 <= k < ins.len() && compile_result(ins[k], al) is Err && forall|j: int|
                            0 <= j < k ==> compile_result(ins[j], al) is Ok;
                    if k < i {
                    } else if k > i {
                        assert(compile_result(ins[i as int], al) is Ok);
                    }
                    assert(k == i);
                }
                return Err(m);
            },
        }
        i = i + 1;
    }
    assert(ins.take(i as int) =~= ins);
    Ok(out)
}

/// A problem written as expressions: its variable names, and its objectives and
/// constraints compiled against them.
pub struct CompiledProblem {
    pub var_names: Vec<String>,
    pub objectives: Vec<CompiledExpr>,
    pub inequality_constraints: Vec<CompiledExpr>,
    pub equality_constraints: Vec<CompiledExpr>,
}

/// Compiles a problem: its objectives, then its inequality constraints, then its
/// equality constraints, each against the variable names; the first text that fails
/// gives the error.
pub fn compile_problem(
    var_names: &[String],
    objectives: &[String],
    inequality_constraints: &[String],
    equality_constraints: &[String],
) -> (r: Result<CompiledProblem, String>)
    ensures
        ({
            let al = strings_view(var_names@);
            let o = strings_view(objectives@);
            let ic = strings_view(inequality_constraints@);
            let ec = strings_view(equality_constraints@);
            match first_failure(o, al) {
                Some(k) => r is Err && Err::<SpecExpr, Seq<char>>(r->Err_0@) == compile_result(o[k], al),
                None => match first_failure(ic, al) {
                    Some(k) => r is Err && Err::<SpecExpr, Seq<char>>(r->Err_0@) == compile_result(ic[k], al),
                    None => match first_failure(ec, al) {
                        Some(k) => r is Err && Err::<SpecExpr, Seq<char>>(r->Err_0@) == compile_result(ec[k], al),
                        None => r is Ok && strings_view(r->Ok_0.var_names@) == al
                            && compiled_all(r->Ok_0.objectives@, o, al)
                            && compiled_all(r->Ok_0.inequality_constraints@, ic, al)
                            && compiled_all(r->Ok_0.equality_constraints@, ec, al),
                    },
                },
            }
        }),
{
    let objectives = compile_list(objectives, var_names)?;
    let inequality_constraints = compile_list(inequality_constraints, var_names)?;
    let equality_constraints = compile_list(equality_constraints, var_names)?;
    let mut names: Vec<String> = Vec::new();
    let mut i: usize = 0;
    while i < var_names.len()
        invariant
            i <= var_names@.len(),
            strings_view(names@) == strings_view(var_names@).take(i as int),
        decreases var_names@.len() - i,
    {
        let ghost before = names@;
        names.push(var_names[i].clone());
        assert(strings_view(names@) =~= strings_view(var_names@).take(i + 1)) by {
            assert(strings_view(var_names@).take(i + 1) =~= strings_view(var_names@).take(i as int).push(
                var_names@[i as int]@,
            ));
            assert(strings_view(names@) =~= strings_view(before).push(var_names@[i as int]@));
        }
        i = i + 1;
    }
    assert(strings_view(var_names@).take(i as int) =~= strings_view(var_names@));
    Ok(CompiledProblem { var_names: names, objectives, inequality_constraints, equality_constraints })
}

} // verus!
