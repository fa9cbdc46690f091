use vstd::prelude::*;
use crate::polyfill::FuncPolyfill;
use crate::polyfill::FuncPolyfillView;
use crate::polyfill::ModulePolyfill;
use crate::polyfill::ModulePolyfillView;
use crate::polyfill::ParamPolyfill;
use crate::polyfill::ParamUnknown;
use crate::polyfill::Polyfill;
use crate::polyfill::func_full_compat_spec;
use crate::polyfill::param_full_compat_spec;
use crate::polyfill::param_of_spec;
use crate::polyfill::which_spec;
use crate::representation::RepEquality;

verus! {

/// The given pieces of text joined by the given separator, in order.
pub open spec fn join_with(items: Seq<Seq<char>>, sep: Seq<char>) -> Seq<char>
    decreases items.len(),
{
    if items.len() == 0 {
        Seq::empty()
    } else if items.len() == 1 {
        items[0]
    } else {
        join_with(items.drop_last(), sep) + sep + items.last()
    }
}

/// Joins the parts with the separator.
fn join_lines(parts: &Vec<String>, sep: &str) -> (r: String)
    ensures
        r@ == join_with(parts@.map_values(|s: String| s@), sep@),
{
    let ghost items = parts@.map_values(|s: String| s@);
    let mut r = String::new();
    let mut i: usize = 0;
    while i < parts.len()
        invariant
            0 <= i <= items.len(),
            items == parts@.map_values(|s: String| s@),
            items.len() == parts@.len(),
            r@ == join_with(items.take(i as int), sep@),
        decreases items.len() - i,
    {
        proof {
            assert(items.take(i + 1).drop_last() =~= items.take(i as int));
            assert(items.take(i + 1).last() == items[i as int]);
        }
        if i > 0 {
            r.append(sep);
        }
        r.append(parts[i].as_str());
        proof {
            if i == 0 {
                assert(r@ =~= join_with(items.take(1), sep@));
            }
        }
        i = i + 1;
    }
    proof {
        assert(items.take(items.len() as int) =~= items);
    }
    r
}

/// The renamed-or-bare name heading of a matched pair.
pub open spec fn param_heading_spec(p: ParamPolyfill) -> Seq<char> {
    if p.new.name@ != p.old.name@ {
        p.old.name@ + " => "@ + p.new.name@
    } else {
        p.new.name@
    }
}

/// The classification text of a matched pair's verdict.
pub open spec fn param_verdict_spec(p: ParamPolyfill) -> Seq<char> {
    match p.repeq {
        RepEquality::Eq => "compatible types"@,
        RepEquality::Superset => p.old.tref.name@ + " is superset-compatible with "@
            + p.new.tref.name@,
        RepEquality::NotEq => p.old.tref.name@ + " is incompatible with new "@ + p.new.tref.name@,
    }
}

/// One matched pair's report line body: name (or rename), then the
/// classification.
pub open spec fn param_report_spec(p: ParamPolyfill) -> Seq<char> {
    param_heading_spec(p) + ": "@ + param_verdict_spec(p)
}

impl ParamPolyfill {
    /// Renders this matched pair: its name or rename, and its classification.
    pub fn report(&self) -> (r: String)
        ensures
            r@ == param_report_spec(*self),
    {
        let mut s: String;
        if !self.new.name.eq_id(&self.old.name) {
            s = self.old.name.as_str().to_owned();
            s.append(" => ");
            s.append(self.new.name.as_str());
        } else {
            s = self.new.name.as_str().to_owned();
        }
        s.append(": ");
        match self.repeq {
            RepEquality::Eq => {
                s.append("compatible types");
            },
            RepEquality::Superset => {
                s.append(self.old.tref.ty_name());
                s.append(" is superset-compatible with ");
                s.append(self.new.tref.ty_name());
            },
            RepEquality::NotEq => {
                s.append(self.old.tref.ty_name());
                s.append(" is incompatible with new ");
                s.append(self.new.tref.ty_name());
            },
        }
        proof {
            assert(s@ =~= param_report_spec(*self));
        }
        s
    }
}

/// The line a mapped parameter contributes to its function's report.
pub open spec fn mapped_param_line(p: ParamPolyfill) -> Seq<char> {
    if !param_full_compat_spec(p) {
        "param "@ + param_report_spec(p)
    } else {
        "param "@ + p.new.name@ + ": compatible"@
    }
}

/// The line an unmatched parameter contributes to its function's report.
pub open spec fn unknown_param_line(u: ParamUnknown) -> Seq<char> {
    which_spec(u) + " param "@ + param_of_spec(u).name@ + ": no corresponding result!"@
}

/// The line a mapped result contributes to its function's report.
pub open spec fn mapped_result_line(p: ParamPolyfill) -> Seq<char> {
    if !param_full_compat_spec(p) {
        "result "@ + param_report_spec(p)
    } else {
        "result "@ + p.new.name@ + ": compatible"@
    }
}

/// The line an unmatched result contributes to its function's report.
pub open spec fn unknown_result_line(u: ParamUnknown) -> Seq<char> {
    which_spec(u) + " result "@ + param_of_spec(u).name@ + ": no corresponding result!"@
}

/// Every line of a function's report body: mapped then unmatched parameters,
/// then mapped then unmatched results.
pub open spec fn func_contents_spec(f: FuncPolyfillView) -> Seq<Seq<char>> {
    f.mapped_params.map_values(|p: ParamPolyfill| mapped_param_line(p)) + f.unknown_params.map_values(
        |u: ParamUnknown| unknown_param_line(u),
    ) + f.mapped_results.map_values(|p: ParamPolyfill| mapped_result_line(p))
        + f.unknown_results.map_values(|u: ParamUnknown| unknown_result_line(u))
}

/// The function report's heading: the bare name, or old and new name when the
/// function was renamed.
pub open spec fn func_heading_spec(f: FuncPolyfillView) -> Seq<char> {
    if f.new.name != f.old.name {
        f.old.name + " => "@ + f.new.name
    } else {
        f.new.name
    }
}

/// A fully compatible function reports one fixed line; any other function
/// reports its heading and one indented line per mapped or unmatched
/// parameter and result.
pub open spec fn func_report_spec(f: FuncPolyfillView) -> Seq<char> {
    if func_full_compat_spec(f) {
        f.new.name + ": full compatibility"@
    } else {
        let contents = func_contents_spec(f);
        if contents.len() == 0 {
            func_heading_spec(f)
        } else {
            func_heading_spec(f) + ":\n\t\t"@ + join_with(contents, "\n\t\t"@)
        }
    }
}

impl FuncPolyfill {
    /// Renders this function match.
    pub fn report(&self) -> (r: String)
        ensures
            r@ == func_report_spec(self@),
    {
        if self.full_compat() {
            let mut s = self.new.name.as_str().to_owned();
            s.append(": full compatibility");
            proof {
                assert(s@ =~= func_report_spec(self@));
            }
            return s;
        }
        let mut name: String;
        if !self.new.name.eq_id(&self.old.name) {
            name = self.old.name.as_str().to_owned();
            name.append(" => ");
            name.append(self.new.name.as_str());
        } else {
            name = self.new.name.as_str().to_owned();
        }
        proof {
            assert(name@ =~= func_heading_spec(self@));
        }

        let ghost l1 = self@.mapped_params.map_values(|p: ParamPolyfill| mapped_param_line(p));
        let ghost l2 = self@.unknown_params.map_values(|u: ParamUnknown| unknown_param_line(u));
        let ghost l3 = self@.mapped_results.map_values(|p: ParamPolyfill| mapped_result_line(p));
        let ghost l4 = self@.unknown_results.map_values(|u: ParamUnknown| unknown_result_line(u));

        let mut contents: Vec<String> = Vec::new();
        let mut i: usize = 0;
        while i < self.mapped_params.len()
            invariant
                0 <= i <= l1.len(),
                l1 == self@.mapped_params.map_values(|p: ParamPolyfill| mapped_param_line(p)),
                l1.len() == self.mapped_params@.len(),
                contents@.map_values(|s: String| s@) == l1.take(i as int),
            decreases l1.len() - i,
        {
            let p = &self.mapped_params[i];
            let mut line = "param ".to_owned();
            if !p.full_compat() {
                let body = p.report();
                line.append(body.as_str());
            } else {
                line.append(p.new.name.as_str());
                line.append(": compatible");
            }
            proof {
                assert(line@ =~= mapped_param_line(self@.mapped_params[i as int]));
                assert(l1.take(i + 1) =~= l1.take(i as int).push(l1[i as int]));
            }
            contents.push(line);
            proof {
                assert(contents@.map_values(|s: String| s@) =~= l1.take(i + 1));
            }
            i = i + 1;
        }
        proof {
            assert(l1.take(l1.len() as int) =~= l1);
        }

        let mut i: usize = 0;
        while i < self.unknown_params.len()
            invariant
                0 <= i <= l2.len(),
                l1 == self@.mapped_params.map_values(|p: ParamPolyfill| mapped_param_line(p)),
                l2 == self@.unknown_params.map_values(|u: ParamUnknown| unknown_param_line(u)),
                l2.len() == self.unknown_params@.len(),
                contents@.map_values(|s: String| s@) == l1 + l2.take(i as int),
            decreases l2.len() - i,
        {
            let u = &self.unknown_params[i];
            let mut line = u.which().to_owned();
            line.append(" param ");
            line.append(u.param().name.as_str());
            line.append(": no corresponding result!");
            proof {
                assert(line@ =~= unknown_param_line(self@.unknown_params[i as int]));
                assert(l2.take(i + 1) =~= l2.take(i as int).push(l2[i as int]));
            }
            contents.push(line);
            proof {
                assert(l2[i as int] == unknown_param_line(self@.unknown_params[i as int]));
                assert(contents@.map_values(|s: String| s@) =~= (l1 + l2.take(i as int)).push(
                    line@,
                ));
                assert((l1 + l2.take(i as int)).push(line@) =~= l1 + l2.take(i + 1));
            }
            i = i + 1;
        }
        proof {
            assert(l2.take(l2.len() as int) =~= l2);
        }

        let mut i: usize = 0;
        while i < self.mapped_results.len()
            invariant
                0 <= i <= l3.len(),
                l1 == self@.mapped_params.map_values(|p: ParamPolyfill| mapped_param_line(p)),
                l2 == self@.unknown_params.map_values(|u: ParamUnknown| unknown_param_line(u)),
                l3 == self@.mapped_results.map_values(|p: ParamPolyfill| mapped_result_line(p)),
                l3.len() == self.mapped_results@.len(),
                contents@.map_values(|s: String| s@) == l1 + l2 + l3.take(i as int),
            decreases l3.len() - i,
        {
            let p = &self.mapped_results[i];
            let mut line = "result ".to_owned();
            if !p.full_compat() {
                let body = p.report();
                line.append(body.as_str());
            } else {
                line.append(p.new.name.as_str());
                line.append(": compatible");
            }
            proof {
                assert(line@ =~= mapped_result_line(self@.mapped_results[i as int]));
                assert(l3.take(i + 1) =~= l3.take(i as int).push(l3[i as int]));
            }
            contents.push(line);
            proof {
                assert(l3[i as int] == mapped_result_line(self@.mapped_results[i as int]));
                assert(contents@.map_values(|s: String| s@) =~= (l1 + l2 + l3.take(i as int)).push(
                    line@,
                ));
                assert((l1 + l2 + l3.take(i as int)).push(line@) =~= l1 + l2 + l3.take(i + 1));
            }
            i = i + 1;
        }
        proof {
            assert(l3.take(l3.len() as int) =~= l3);
        }

        let mut i: usize = 0;
        while i < self.unknown_results.len()
            invariant
                0 <= i <= l4.len(),
                l1 == self@.mapped_params.map_values(|p: ParamPolyfill| mapped_param_line(p)),
                l2 == self@.unknown_params.map_values(|u: ParamUnknown| unknown_param_line(u)),
                l3 == self@.mapped_results.map_values(|p: ParamPolyfill| mapped_result_line(p)),
                l4 == self@.unknown_results.map_values(|u: ParamUnknown| unknown_result_line(u)),
                l4.len() == self.unknown_results@.len(),
                contents@.map_values(|s: String| s@) == l1 + l2 + l3 + l4.take(i as int),
            decreases l4.len() - i,
        {
            let u = &self.unknown_results[i];
            let mut line = u.which().to_owned();
            line.append(" result ");
            line.append(u.param().name.as_str());
            line.append(": no corresponding result!");
            proof {
                assert(line@ =~= unknown_result_line(self@.unknown_results[i as int]));
                assert(l4.take(i + 1) =~= l4.take(i as int).push(l4[i as int]));
            }
            contents.push(line);
            proof {
                assert(l4[i as int] == unknown_result_line(self@.unknown_results[i as int]));
                assert(contents@.map_values(|s: String| s@) =~= (l1 + l2 + l3 + l4.take(
                    i as int,
                )).push(line@));
                assert((l1 + l2 + l3 + l4.take(i as int)).push(line@) =~= l1 + l2 + l3 + l4.take(
                    i + 1,
                ));
            }
            i = i + 1;
        }
        proof {
            assert(l4.take(l4.len() as int) =~= l4);
            assert(contents@.map_values(|s: String| s@) == func_contents_spec(self@));
        }

        if contents.len() == 0 {
            proof {
                assert(name@ == func_report_spec(self@));
            }
            name
        } else {
            let joined = join_lines(&contents, "\n\t\t");
            name.append(":\n\t\t");
            name.append(joined.as_str());
            proof {
                assert(name@ =~= func_report_spec(self@));
            }
            name
        }
    }
}

/// A module's report: the fixed heading naming the new and old module, then
/// each function's report, indented, in construction order.
pub open spec fn module_report_spec(m: ModulePolyfillView) -> Seq<char> {
    "Implement module "@ + m.new.name + " in terms of "@ + m.old.name + ":\n\t"@ + join_with(
        m.funcs.map_values(|f: FuncPolyfillView| func_report_spec(f)),
        "\n\t"@,
    )
}

impl ModulePolyfill {
    /// Renders this module match: its heading and each function's report.
    pub fn report(&self) -> (r: String)
        ensures
            r@ == module_report_spec(self@),
    {
        let ghost items = self@.funcs.map_values(|f: FuncPolyfillView| func_report_spec(f));
        let mut parts: Vec<String> = Vec::new();
        let mut i: usize = 0;
        while i < self.funcs.len()
            invariant
                0 <= i <= items.len(),
                items == self@.funcs.map_values(|f: FuncPolyfillView| func_report_spec(f)),
                items.len() == self.funcs@.len(),
                self@.funcs.len() == self.funcs@.len(),
                forall|j: int| 0 <= j < self.funcs@.len() ==> self@.funcs[j] == self.funcs@[j]@,
                parts@.map_values(|s: String| s@) == items.take(i as int),
            decreases items.len() - i,
        {
            let rep = self.funcs[i].report();
            proof {
                assert(items.take(i + 1) =~= items.take(i as int).push(items[i as int]));
            }
            parts.push(rep);
            proof {
                assert(parts@.map_values(|s: String| s@) =~= items.take(i + 1));
            }
            i = i + 1;
        }
        proof {
            assert(items.take(items.len() as int) =~= items);
        }
        let joined = join_lines(&parts, "\n\t");
        let mut s = "Implement module ".to_owned();
        s.append(self.new.name.as_str());
        s.append(" in terms of ");
        s.append(self.old.name.as_str());
        s.append(":\n\t");
        s.append(joined.as_str());
        proof {
            assert(s@ =~= module_report_spec(self@));
        }
        s
    }
}

/// The whole report: each module's report in construction order, joined by
/// newlines.
pub open spec fn polyfill_report_spec(mods: Seq<ModulePolyfillView>) -> Seq<char> {
    join_with(mods.map_values(|m: ModulePolyfillView| module_report_spec(m)), "\n"@)
}

impl Polyfill {
    /// Renders every module match, in construction order, joined by newlines.
    /// The text is a pure function of the finished value: two calls on the
    /// same value produce identical text.
    pub fn report(&self) -> (r: String)
        ensures
            r@ == polyfill_report_spec(self@),
    {
        let ghost items = self@.map_values(|m: ModulePolyfillView| module_report_spec(m));
        let mut parts: Vec<String> = Vec::new();
        let mut i: usize = 0;
        while i < self.modules.len()
            invariant
                0 <= i <= items.len(),
                items == self@.map_values(|m: ModulePolyfillView| module_report_spec(m)),
                items.len() == self.modules@.len(),
                self@.len() == self.modules@.len(),
                forall|j: int| 0 <= j < self.modules@.len() ==> self@[j] == self.modules@[j]@,
                parts@.map_values(|s: String| s@) == items.take(i as int),
            decreases items.len() - i,
        {
            let rep = self.modules[i].report();
            proof {
                assert(items.take(i + 1) =~= items.take(i as int).push(items[i as int]));
            }
            parts.push(rep);
            proof {
                assert(parts@.map_values(|s: String| s@) =~= items.take(i + 1));
            }
            i = i + 1;
        }
        proof {
            assert(items.take(items.len() as int) =~= items);
        }
        join_lines(&parts, "\n")
    }
}

} // verus!
