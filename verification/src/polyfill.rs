use vstd::prelude::*;
use crate::ast::Document;
use crate::ast::FuncView;
use crate::ast::InterfaceFunc;
use crate::ast::InterfaceFuncParam;
use crate::ast::Module;
use crate::ast::ModuleView;
use crate::ast::find_func;
use crate::ast::find_module;
use crate::ast::find_param;
use crate::id::Id;
use crate::representation::RepEquality;
use crate::representation::representable_spec;

verus! {

// ---------------------------------------------------------------------------
// Errors
// ---------------------------------------------------------------------------
/// The mathematical shape of a construction error.
pub ghost enum ErrorView {
    ModuleNotPresent { name: Seq<char> },
    FuncNotPresent { name: Seq<char> },
}

/// The two ways construction can fail: a module named by the mapping is
/// missing from its document, or a function declared by an old module has no
/// same-named counterpart in the mapped new module.
#[derive(Debug)]
pub enum PolyfillError {
    ModuleNotPresent { name: Id },
    FuncNotPresent { name: Id },
}

impl View for PolyfillError {
    type V = ErrorView;

    open spec fn view(&self) -> ErrorView {
        match self {
            PolyfillError::ModuleNotPresent { name } => ErrorView::ModuleNotPresent {
                name: name@,
            },
            PolyfillError::FuncNotPresent { name } => ErrorView::FuncNotPresent { name: name@ },
        }
    }
}

/// The fixed human-readable rendering of each error kind.
pub open spec fn error_message_spec(e: ErrorView) -> Seq<char> {
    match e {
        ErrorView::ModuleNotPresent { name } => "Module not present: "@ + name,
        ErrorView::FuncNotPresent { name } => "Function not present: "@ + name,
    }
}

impl PolyfillError {
    /// Renders the error in its fixed human-readable form.
    pub fn message(&self) -> (r: String)
        ensures
            r@ == error_message_spec(self@),
    {
        let mut s = String::new();
        match self {
            PolyfillError::ModuleNotPresent { name } => {
                s.append("Module not present: ");
                s.append(name.as_str());
                proof {
                    assert(s@ =~= error_message_spec(self@));
                }
            },
            PolyfillError::FuncNotPresent { name } => {
                s.append("Function not present: ");
                s.append(name.as_str());
                proof {
                    assert(s@ =~= error_message_spec(self@));
                }
            },
        }
        s
    }
}

// ---------------------------------------------------------------------------
// Matched and unmatched parameters
// ---------------------------------------------------------------------------
/// A matched (new, old) parameter-or-result pair together with the
/// representability verdict for the direction the match was made in.
#[derive(Debug)]
pub struct ParamPolyfill {
    pub new: InterfaceFuncParam,
    pub old: InterfaceFuncParam,
    pub repeq: RepEquality,
}

/// A parameter or result with no same-named counterpart on the other side,
/// tagged by the side it exists on.
#[derive(Debug)]
pub enum ParamUnknown {
    Old(InterfaceFuncParam),
    New(InterfaceFuncParam),
}

/// The side tag of an unmatched parameter, as printable text.
pub open spec fn which_spec(u: ParamUnknown) -> Seq<char> {
    match u {
        ParamUnknown::Old(_) => "old"@,
        ParamUnknown::New(_) => "new"@,
    }
}

/// The wrapped parameter descriptor, whichever side it is tagged with.
pub open spec fn param_of_spec(u: ParamUnknown) -> InterfaceFuncParam {
    match u {
        ParamUnknown::Old(p) => p,
        ParamUnknown::New(p) => p,
    }
}

impl ParamUnknown {
    /// Which side of the match this parameter exists on.
    pub fn which(&self) -> (r: &'static str)
        ensures
            r@ == which_spec(*self),
    {
        match self {
            ParamUnknown::Old(_) => "old",
            ParamUnknown::New(_) => "new",
        }
    }

    /// The parameter descriptor, regardless of variant.
    pub fn param(&self) -> (r: &InterfaceFuncParam)
        ensures
            *r == param_of_spec(*self),
    {
        match self {
            ParamUnknown::Old(p) => p,
            ParamUnknown::New(p) => p,
        }
    }
}

/// A matched pair keeps its name unchanged and its types identically
/// representable.
pub open spec fn param_full_compat_spec(p: ParamPolyfill) -> bool {
    p.new.name@ == p.old.name@ && p.repeq == RepEquality::Eq
}

impl ParamPolyfill {
    /// True exactly when the name is unchanged and the verdict is `Eq`.
    pub fn full_compat(&self) -> (r: bool)
        ensures
            r == param_full_compat_spec(*self),
    {
        self.new.name.eq_id(&self.old.name) && self.repeq == RepEquality::Eq
    }
}

// ---------------------------------------------------------------------------
// The name-matching passes
// ---------------------------------------------------------------------------
/// One matching pass, driver side: for each element of `drive`, in order, the
/// pair of it and the first same-named element of `other`, when one exists.
pub open spec fn matched_pairs(drive: Seq<InterfaceFuncParam>, other: Seq<InterfaceFuncParam>) -> Seq<
    (InterfaceFuncParam, InterfaceFuncParam),
>
    decreases drive.len(),
{
    if drive.len() == 0 {
        Seq::empty()
    } else {
        let prev = matched_pairs(drive.drop_last(), other);
        match find_param(other, drive.last().name@) {
            Some(f) => prev.push((drive.last(), f)),
            None => prev,
        }
    }
}

/// The elements of `drive`, in order, that have no same-named counterpart in
/// `other`.
pub open spec fn unmatched_drivers(drive: Seq<InterfaceFuncParam>, other: Seq<InterfaceFuncParam>) -> Seq<
    InterfaceFuncParam,
>
    decreases drive.len(),
{
    if drive.len() == 0 {
        Seq::empty()
    } else {
        let prev = unmatched_drivers(drive.drop_last(), other);
        match find_param(other, drive.last().name@) {
            Some(f) => prev,
            None => prev.push(drive.last()),
        }
    }
}

/// Whether some pair's found-side element carries the given name.
pub open spec fn pairs_cover_name(
    pairs: Seq<(InterfaceFuncParam, InterfaceFuncParam)>,
    name: Seq<char>,
) -> bool {
    exists|i: int| 0 <= i < pairs.len() && pairs[i].1.name@ == name
}

/// The elements of `other`, in order, whose names no matched pair claimed.
pub open spec fn unclaimed(
    other: Seq<InterfaceFuncParam>,
    pairs: Seq<(InterfaceFuncParam, InterfaceFuncParam)>,
) -> Seq<InterfaceFuncParam>
    decreases other.len(),
{
    if other.len() == 0 {
        Seq::empty()
    } else {
        let prev = unclaimed(other.drop_last(), pairs);
        if pairs_cover_name(pairs, other.last().name@) {
            prev
        } else {
            prev.push(other.last())
        }
    }
}

// ---------------------------------------------------------------------------
// FuncPolyfill
// ---------------------------------------------------------------------------
/// The mathematical shape of a function match.
pub ghost struct FuncPolyfillView {
    pub new: FuncView,
    pub old: FuncView,
    pub mapped_params: Seq<ParamPolyfill>,
    pub unknown_params: Seq<ParamUnknown>,
    pub mapped_results: Seq<ParamPolyfill>,
    pub unknown_results: Seq<ParamUnknown>,
}

/// The parameter pass: the old caller supplies arguments and the new function
/// receives them, so each old parameter's type must be representable by the
/// same-named new parameter's type.
pub open spec fn mapped_params_spec(nf: FuncView, of: FuncView) -> Seq<ParamPolyfill> {
    matched_pairs(of.params, nf.params).map_values(
        |pr: (InterfaceFuncParam, InterfaceFuncParam)|
            ParamPolyfill {
                new: pr.1,
                old: pr.0,
                repeq: representable_spec(pr.0.tref.ty, pr.1.tref.ty),
            },
    )
}

/// Old-side misses first (arguments the old caller supplies that the new
/// signature has no place for), then new-side misses (arguments the new
/// signature requires that the old caller never supplies).
pub open spec fn unknown_params_spec(nf: FuncView, of: FuncView) -> Seq<ParamUnknown> {
    unmatched_drivers(of.params, nf.params).map_values(|p: InterfaceFuncParam| ParamUnknown::Old(p))
        + unclaimed(nf.params, matched_pairs(of.params, nf.params)).map_values(
        |p: InterfaceFuncParam| ParamUnknown::New(p),
    )
}

/// The result pass, direction reversed: the new function returns and its
/// results must satisfy the old caller, so each new result's type must be
/// representable as the same-named old result's type.
pub open spec fn mapped_results_spec(nf: FuncView, of: FuncView) -> Seq<ParamPolyfill> {
    matched_pairs(nf.results, of.results).map_values(
        |pr: (InterfaceFuncParam, InterfaceFuncParam)|
            ParamPolyfill {
                new: pr.0,
                old: pr.1,
                repeq: representable_spec(pr.0.tref.ty, pr.1.tref.ty),
            },
    )
}

/// New-side misses first (results the new function produces that no old
/// caller reads; harmless), then old-side misses (results the old caller
/// expects that the new function never produces).
pub open spec fn unknown_results_spec(nf: FuncView, of: FuncView) -> Seq<ParamUnknown> {
    unmatched_drivers(nf.results, of.results).map_values(
        |p: InterfaceFuncParam| ParamUnknown::New(p),
    ) + unclaimed(of.results, matched_pairs(nf.results, of.results)).map_values(
        |p: InterfaceFuncParam| ParamUnknown::Old(p),
    )
}

/// The complete match of one old function against one new function.
pub open spec fn func_polyfill_spec(nf: FuncView, of: FuncView) -> FuncPolyfillView {
    FuncPolyfillView {
        new: nf,
        old: of,
        mapped_params: mapped_params_spec(nf, of),
        unknown_params: unknown_params_spec(nf, of),
        mapped_results: mapped_results_spec(nf, of),
        unknown_results: unknown_results_spec(nf, of),
    }
}

/// Matches one old function against one same-named new function: mapped and
/// unmatched parameter lists, and mapped and unmatched result lists.
#[derive(Debug)]
pub struct FuncPolyfill {
    pub new: InterfaceFunc,
    pub old: InterfaceFunc,
    pub mapped_params: Vec<ParamPolyfill>,
    pub unknown_params: Vec<ParamUnknown>,
    pub mapped_results: Vec<ParamPolyfill>,
    pub unknown_results: Vec<ParamUnknown>,
}

impl View for FuncPolyfill {
    type V = FuncPolyfillView;

    open spec fn view(&self) -> FuncPolyfillView {
        FuncPolyfillView {
            new: self.new@,
            old: self.old@,
            mapped_params: self.mapped_params@,
            unknown_params: self.unknown_params@,
            mapped_results: self.mapped_results@,
            unknown_results: self.unknown_results@,
        }
    }
}

/// Whether some already-mapped pair's new side carries the given name.
fn mapped_covers_new_name(mapped: &Vec<ParamPolyfill>, name: &Id) -> (r: bool)
    ensures
        r == exists|i: int| 0 <= i < mapped@.len() && mapped@[i].new.name@ == name@,
{
    let mut i: usize = 0;
    while i < mapped.len()
        invariant
            0 <= i <= mapped@.len(),
            forall|j: int| 0 <= j < i ==> mapped@[j].new.name@ != name@,
        decreases mapped@.len() - i,
    {
        if mapped[i].new.name.eq_id(name) {
            return true;
        }
        i = i + 1;
    }
    false
}

/// Whether some already-mapped pair's old side carries the given name.
fn mapped_covers_old_name(mapped: &Vec<ParamPolyfill>, name: &Id) -> (r: bool)
    ensures
        r == exists|i: int| 0 <= i < mapped@.len() && mapped@[i].old.name@ == name@,
{
    let mut i: usize = 0;
    while i < mapped.len()
        invariant
            0 <= i <= mapped@.len(),
            forall|j: int| 0 <= j < i ==> mapped@[j].old.name@ != name@,
        decreases mapped@.len() - i,
    {
        if mapped[i].old.name.eq_id(name) {
            return true;
        }
        i = i + 1;
    }
    false
}

impl FuncPolyfill {
    /// Matches the two functions' parameters and results by name. Total:
    /// never fails, whatever the two signatures declare.
    pub fn new(new: &InterfaceFunc, old: &InterfaceFunc) -> (r: FuncPolyfill)
        ensures
            r@ == func_polyfill_spec(new@, old@),
    {
        let ghost nf = new@;
        let ghost of = old@;
        let mut mapped_params: Vec<ParamPolyfill> = Vec::new();
        let mut unknown_params: Vec<ParamUnknown> = Vec::new();

        // The old function is called: map each of its parameters to the new
        // function.
        let mut i: usize = 0;
        while i < old.params.len()
            invariant
                0 <= i <= of.params.len(),
                old@ == of,
                new@ == nf,
                mapped_params@ == matched_pairs(of.params.take(i as int), nf.params).map_values(
                    |pr: (InterfaceFuncParam, InterfaceFuncParam)|
                        ParamPolyfill {
                            new: pr.1,
                            old: pr.0,
                            repeq: representable_spec(pr.0.tref.ty, pr.1.tref.ty),
                        },
                ),
                unknown_params@ == unmatched_drivers(
                    of.params.take(i as int),
                    nf.params,
                ).map_values(|p: InterfaceFuncParam| ParamUnknown::Old(p)),
            decreases of.params.len() - i,
        {
            let old_param = &old.params[i];
            proof {
                assert(of.params.take(i + 1).drop_last() =~= of.params.take(i as int));
                assert(of.params.take(i + 1).last() == of.params[i as int]);
            }
            match InterfaceFunc::find_named(&new.params, &old_param.name) {
                Some(new_param) => {
                    mapped_params.push(
                        ParamPolyfill {
                            new: new_param.clone(),
                            old: old_param.clone(),
                            // Call the new parameter's type with the old
                            // caller's value:
                            repeq: old_param.tref.type_().representable(&new_param.tref.type_()),
                        },
                    );
                    proof {
                        assert(mapped_params@ =~= matched_pairs(
                            of.params.take(i + 1),
                            nf.params,
                        ).map_values(
                            |pr: (InterfaceFuncParam, InterfaceFuncParam)|
                                ParamPolyfill {
                                    new: pr.1,
                                    old: pr.0,
                                    repeq: representable_spec(pr.0.tref.ty, pr.1.tref.ty),
                                },
                        ));
                        assert(unknown_params@ =~= unmatched_drivers(
                            of.params.take(i + 1),
                            nf.params,
                        ).map_values(|p: InterfaceFuncParam| ParamUnknown::Old(p)));
                    }
                },
                None => {
                    unknown_params.push(ParamUnknown::Old(old_param.clone()));
                    proof {
                        assert(mapped_params@ =~= matched_pairs(
                            of.params.take(i + 1),
                            nf.params,
                        ).map_values(
                            |pr: (InterfaceFuncParam, InterfaceFuncParam)|
                                ParamPolyfill {
                                    new: pr.1,
                                    old: pr.0,
                                    repeq: representable_spec(pr.0.tref.ty, pr.1.tref.ty),
                                },
                        ));
                        assert(unknown_params@ =~= unmatched_drivers(
                            of.params.take(i + 1),
                            nf.params,
                        ).map_values(|p: InterfaceFuncParam| ParamUnknown::Old(p)));
                    }
                },
            }
            i = i + 1;
        }
        proof {
            assert(of.params.take(of.params.len() as int) =~= of.params);
        }
        let ghost pairs = matched_pairs(of.params, nf.params);

        // Are any new parameters not covered by the old parameters?
        let mut i: usize = 0;
        while i < new.params.len()
            invariant
                0 <= i <= nf.params.len(),
                old@ == of,
                new@ == nf,
                pairs == matched_pairs(of.params, nf.params),
                mapped_params@ == mapped_params_spec(nf, of),
                unknown_params@ == unmatched_drivers(of.params, nf.params).map_values(
                    |p: InterfaceFuncParam| ParamUnknown::Old(p),
                ) + unclaimed(nf.params.take(i as int), pairs).map_values(
                    |p: InterfaceFuncParam| ParamUnknown::New(p),
                ),
            decreases nf.params.len() - i,
        {
            let new_param = &new.params[i];
            let covered = mapped_covers_new_name(&mapped_params, &new_param.name);
            proof {
                assert(nf.params.take(i + 1).drop_last() =~= nf.params.take(i as int));
                assert(nf.params.take(i + 1).last() == nf.params[i as int]);
                if covered {
                    let j = choose|j: int|
                        0 <= j < mapped_params@.len() && mapped_params@[j].new.name@
                            == new_param.name@;
                    assert(mapped_params@[j] == mapped_params_spec(nf, of)[j]);
                    assert(pairs[j].1 == mapped_params@[j].new);
                    assert(pairs_cover_name(pairs, new_param.name@));
                } else {
                    if pairs_cover_name(pairs, new_param.name@) {
                        let j = choose|j: int|
                            0 <= j < pairs.len() && pairs[j].1.name@ == new_param.name@;
                        assert(mapped_params@[j].new == pairs[j].1);
                        assert(false);
                    }
                }
            }
            if !covered {
                unknown_params.push(ParamUnknown::New(new_param.clone()));
            }
            proof {
                assert(unknown_params@ =~= unmatched_drivers(of.params, nf.params).map_values(
                    |p: InterfaceFuncParam| ParamUnknown::Old(p),
                ) + unclaimed(nf.params.take(i + 1), pairs).map_values(
                    |p: InterfaceFuncParam| ParamUnknown::New(p),
                ));
            }
            i = i + 1;
        }
        proof {
            assert(nf.params.take(nf.params.len() as int) =~= nf.params);
            assert(unknown_params@ == unknown_params_spec(nf, of));
        }

        let mut mapped_results: Vec<ParamPolyfill> = Vec::new();
        let mut unknown_results: Vec<ParamUnknown> = Vec::new();

        // The new function has returned: map each of its results to the old
        // function.
        let mut i: usize = 0;
        while i < new.results.len()
            invariant
                0 <= i <= nf.results.len(),
                old@ == of,
                new@ == nf,
                mapped_results@ == matched_pairs(nf.results.take(i as int), of.results).map_values(
                    |pr: (InterfaceFuncParam, InterfaceFuncParam)|
                        ParamPolyfill {
                            new: pr.0,
                            old: pr.1,
                            repeq: representable_spec(pr.0.tref.ty, pr.1.tref.ty),
                        },
                ),
                unknown_results@ == unmatched_drivers(
                    nf.results.take(i as int),
                    of.results,
                ).map_values(|p: InterfaceFuncParam| ParamUnknown::New(p)),
            decreases nf.results.len() - i,
        {
            let new_result = &new.results[i];
            proof {
                assert(nf.results.take(i + 1).drop_last() =~= nf.results.take(i as int));
                assert(nf.results.take(i + 1).last() == nf.results[i as int]);
            }
            match InterfaceFunc::find_named(&old.results, &new_result.name) {
                Some(old_result) => {
                    mapped_results.push(
                        ParamPolyfill {
                            new: new_result.clone(),
                            old: old_result.clone(),
                            // Return the new result's value as the old
                            // caller's type:
                            repeq: new_result.tref.type_().representable(&old_result.tref.type_()),
                        },
                    );
                    proof {
                        assert(mapped_results@ =~= matched_pairs(
                            nf.results.take(i + 1),
                            of.results,
                        ).map_values(
                            |pr: (InterfaceFuncParam, InterfaceFuncParam)|
                                ParamPolyfill {
                                    new: pr.0,
                                    old: pr.1,
                                    repeq: representable_spec(pr.0.tref.ty, pr.1.tref.ty),
                                },
                        ));
                        assert(unknown_results@ =~= unmatched_drivers(
                            nf.results.take(i + 1),
                            of.results,
                        ).map_values(|p: InterfaceFuncParam| ParamUnknown::New(p)));
                    }
                },
                None => {
                    unknown_results.push(ParamUnknown::New(new_result.clone()));
                    proof {
                        assert(mapped_results@ =~= matched_pairs(
                            nf.results.take(i + 1),
                            of.results,
                        ).map_values(
                            |pr: (InterfaceFuncParam, InterfaceFuncParam)|
                                ParamPolyfill {
                                    new: pr.0,
                                    old: pr.1,
                                    repeq: representable_spec(pr.0.tref.ty, pr.1.tref.ty),
                                },
                        ));
                        assert(unknown_results@ =~= unmatched_drivers(
                            nf.results.take(i + 1),
                            of.results,
                        ).map_values(|p: InterfaceFuncParam| ParamUnknown::New(p)));
                    }
                },
            }
            i = i + 1;
        }
        proof {
            assert(nf.results.take(nf.results.len() as int) =~= nf.results);
        }
        let ghost rpairs = matched_pairs(nf.results, of.results);

        // Are any old results not covered by the new results?
        let mut i: usize = 0;
        while i < old.results.len()
            invariant
                0 <= i <= of.results.len(),
                old@ == of,
                new@ == nf,
                rpairs == matched_pairs(nf.results, of.results),
                mapped_results@ == mapped_results_spec(nf, of),
                unknown_results@ == unmatched_drivers(nf.results, of.results).map_values(
                    |p: InterfaceFuncParam| ParamUnknown::New(p),
                ) + unclaimed(of.results.take(i as int), rpairs).map_values(
                    |p: InterfaceFuncParam| ParamUnknown::Old(p),
                ),
            decreases of.results.len() - i,
        {
            let old_result = &old.results[i];
            let covered = mapped_covers_old_name(&mapped_results, &old_result.name);
            proof {
                assert(of.results.take(i + 1).drop_last() =~= of.results.take(i as int));
                assert(of.results.take(i + 1).last() == of.results[i as int]);
                if covered {
                    let j = choose|j: int|
                        0 <= j < mapped_results@.len() && mapped_results@[j].old.name@
                            == old_result.name@;
                    assert(mapped_results@[j] == mapped_results_spec(nf, of)[j]);
                    assert(rpairs[j].1 == mapped_results@[j].old);
                    assert(pairs_cover_name(rpairs, old_result.name@));
                } else {
                    if pairs_cover_name(rpairs, old_result.name@) {
                        let j = choose|j: int|
                            0 <= j < rpairs.len() && rpairs[j].1.name@ == old_result.name@;
                        assert(mapped_results@[j].old == rpairs[j].1);
                        assert(false);
                    }
                }
            }
            if !covered {
                unknown_results.push(ParamUnknown::Old(old_result.clone()));
            }
            proof {
                assert(unknown_results@ =~= unmatched_drivers(nf.results, of.results).map_values(
                    |p: InterfaceFuncParam| ParamUnknown::New(p),
                ) + unclaimed(of.results.take(i + 1), rpairs).map_values(
                    |p: InterfaceFuncParam| ParamUnknown::Old(p),
                ));
            }
            i = i + 1;
        }
        proof {
            assert(of.results.take(of.results.len() as int) =~= of.results);
            assert(unknown_results@ == unknown_results_spec(nf, of));
        }

        FuncPolyfill {
            new: new.clone(),
            old: old.clone(),
            mapped_params,
            unknown_params,
            mapped_results,
            unknown_results,
        }
    }
}

/// Exact substitutability of the new function for the old one: same name,
/// every mapped pair fully compatible, and nothing unmatched on either side,
/// for parameters and results alike.
pub open spec fn func_full_compat_spec(f: FuncPolyfillView) -> bool {
    &&& f.new.name == f.old.name
    &&& forall|i: int| 0 <= i < f.mapped_params.len() ==> param_full_compat_spec(
        f.mapped_params[i],
    )
    &&& f.unknown_params.len() == 0
    &&& forall|i: int| 0 <= i < f.mapped_results.len() ==> param_full_compat_spec(
        f.mapped_results[i],
    )
    &&& f.unknown_results.len() == 0
}

impl FuncPolyfill {
    /// The exact-substitutability predicate.
    pub fn full_compat(&self) -> (r: bool)
        ensures
            r == func_full_compat_spec(self@),
    {
        if !self.new.name.eq_id(&self.old.name) {
            return false;
        }
        if self.unknown_params.len() != 0 || self.unknown_results.len() != 0 {
            return false;
        }
        let mut i: usize = 0;
        while i < self.mapped_params.len()
            invariant
                0 <= i <= self.mapped_params@.len(),
                forall|j: int| 0 <= j < i ==> param_full_compat_spec(self.mapped_params@[j]),
            decreases self.mapped_params@.len() - i,
        {
            if !self.mapped_params[i].full_compat() {
                proof {
                    assert(!param_full_compat_spec(self@.mapped_params[i as int]));
                }
                return false;
            }
            i = i + 1;
        }
        let mut i: usize = 0;
        while i < self.mapped_results.len()
            invariant
                0 <= i <= self.mapped_results@.len(),
                forall|j: int| 0 <= j < i ==> param_full_compat_spec(self.mapped_results@[j]),
            decreases self.mapped_results@.len() - i,
        {
            if !self.mapped_results[i].full_compat() {
                proof {
                    assert(!param_full_compat_spec(self@.mapped_results[i as int]));
                }
                return false;
            }
            i = i + 1;
        }
        true
    }
}

// ---------------------------------------------------------------------------
// ModulePolyfill
// ---------------------------------------------------------------------------
/// The mathematical shape of a module match.
pub ghost struct ModulePolyfillView {
    pub new: ModuleView,
    pub old: ModuleView,
    pub funcs: Seq<FuncPolyfillView>,
}

/// One function match per old-module function, in the old module's
/// declaration order; the first old function with no same-named new
/// counterpart aborts the whole module with `FuncNotPresent`.
pub open spec fn module_funcs_spec(nm: ModuleView, oldfuncs: Seq<FuncView>) -> Result<
    Seq<FuncPolyfillView>,
    ErrorView,
>
    decreases oldfuncs.len(),
{
    if oldfuncs.len() == 0 {
        Ok(Seq::empty())
    } else {
        match module_funcs_spec(nm, oldfuncs.drop_last()) {
            Ok(prev) => match find_func(nm.funcs, oldfuncs.last().name) {
                Some(nf) => Ok(prev.push(func_polyfill_spec(nf, oldfuncs.last()))),
                None => Err(ErrorView::FuncNotPresent { name: oldfuncs.last().name }),
            },
            Err(e) => Err(e),
        }
    }
}

/// The whole match of an old module against a new module.
pub open spec fn module_polyfill_spec(nm: ModuleView, om: ModuleView) -> Result<
    ModulePolyfillView,
    ErrorView,
> {
    match module_funcs_spec(nm, om.funcs) {
        Ok(fs) => Ok(ModulePolyfillView { new: nm, old: om, funcs: fs }),
        Err(e) => Err(e),
    }
}

/// Matches every function declared by an old module against a same-named
/// function of a new module, in the old module's declaration order.
#[derive(Debug)]
pub struct ModulePolyfill {
    pub new: Module,
    pub old: Module,
    pub funcs: Vec<FuncPolyfill>,
}

impl View for ModulePolyfill {
    type V = ModulePolyfillView;

    open spec fn view(&self) -> ModulePolyfillView {
        ModulePolyfillView {
            new: self.new@,
            old: self.old@,
            funcs: self.funcs@.map_values(|f: FuncPolyfill| f@),
        }
    }
}

/// Once a prefix of the old functions fails, every longer prefix fails the
/// same way: the first miss decides.
proof fn lemma_module_funcs_err_persists(nm: ModuleView, oldfuncs: Seq<FuncView>, k: int)
    requires
        0 <= k <= oldfuncs.len(),
        module_funcs_spec(nm, oldfuncs.take(k)) is Err,
    ensures
        module_funcs_spec(nm, oldfuncs) == module_funcs_spec(nm, oldfuncs.take(k)),
    decreases oldfuncs.len() - k,
{
    if k < oldfuncs.len() {
        assert(oldfuncs.take(k + 1).drop_last() =~= oldfuncs.take(k));
        lemma_module_funcs_err_persists(nm, oldfuncs, k + 1);
    } else {
        assert(oldfuncs.take(k) =~= oldfuncs);
    }
}

impl ModulePolyfill {
    /// Matches every old-module function against a same-named new-module
    /// function; fails with `FuncNotPresent` at the first old function that
    /// has none, checking no function after it.
    pub fn new(new: &Module, old: &Module) -> (r: Result<ModulePolyfill, PolyfillError>)
        ensures
            match r {
                Ok(m) => module_polyfill_spec(new@, old@) == Ok::<ModulePolyfillView, ErrorView>(
                    m@,
                ),
                Err(e) => module_polyfill_spec(new@, old@) == Err::<ModulePolyfillView, ErrorView>(
                    e@,
                ),
            },
    {
        let ghost nm = new@;
        let ghost om = old@;
        let mut funcs: Vec<FuncPolyfill> = Vec::new();
        proof {
            assert(om.funcs.take(0) =~= Seq::<FuncView>::empty());
            assert(funcs@.map_values(|f: FuncPolyfill| f@) =~= Seq::<FuncPolyfillView>::empty());
        }
        let mut i: usize = 0;
        while i < old.funcs.len()
            invariant
                0 <= i <= om.funcs.len(),
                old@ == om,
                new@ == nm,
                om.funcs.len() == old.funcs@.len(),
                forall|j: int| 0 <= j < om.funcs.len() ==> om.funcs[j] == old.funcs@[j]@,
                module_funcs_spec(nm, om.funcs.take(i as int)) == Ok::<
                    Seq<FuncPolyfillView>,
                    ErrorView,
                >(funcs@.map_values(|f: FuncPolyfill| f@)),
            decreases om.funcs.len() - i,
        {
            let oldfunc = &old.funcs[i];
            proof {
                assert(om.funcs.take(i + 1).drop_last() =~= om.funcs.take(i as int));
                assert(om.funcs.take(i + 1).last() == om.funcs[i as int]);
            }
            match new.func(&oldfunc.name) {
                Some(newfunc) => {
                    let fp = FuncPolyfill::new(newfunc, oldfunc);
                    funcs.push(fp);
                    proof {
                        assert(funcs@.map_values(|f: FuncPolyfill| f@) =~= module_funcs_spec(
                            nm,
                            om.funcs.take(i + 1),
                        )->Ok_0);
                    }
                },
                None => {
                    proof {
                        assert(module_funcs_spec(nm, om.funcs.take(i + 1))
                            == Err::<Seq<FuncPolyfillView>, ErrorView>(
                            ErrorView::FuncNotPresent { name: om.funcs[i as int].name },
                        ));
                        lemma_module_funcs_err_persists(nm, om.funcs, i + 1);
                    }
                    return Err(PolyfillError::FuncNotPresent { name: oldfunc.name.clone() });
                },
            }
            i = i + 1;
        }
        proof {
            assert(om.funcs.take(om.funcs.len() as int) =~= om.funcs);
        }
        let r = ModulePolyfill { new: new.clone(), old: old.clone(), funcs };
        proof {
            assert(module_polyfill_spec(nm, om) == Ok::<ModulePolyfillView, ErrorView>(r@));
        }
        Ok(r)
    }
}

// ---------------------------------------------------------------------------
// Polyfill
// ---------------------------------------------------------------------------
/// The view of the mapping: pairs of (new-module name, old-module name).
pub open spec fn mapping_view(mm: Seq<(String, String)>) -> Seq<(Seq<char>, Seq<char>)> {
    mm.map_values(|p: (String, String)| (p.0@, p.1@))
}

/// One module match per mapping entry, in mapping order; the first name that
/// resolves to no module, on either side, aborts the whole construction with
/// `ModuleNotPresent`, and a failing module match aborts it with that
/// failure.
pub open spec fn polyfill_spec(
    newd: Seq<ModuleView>,
    oldd: Seq<ModuleView>,
    mm: Seq<(Seq<char>, Seq<char>)>,
) -> Result<Seq<ModulePolyfillView>, ErrorView>
    decreases mm.len(),
{
    if mm.len() == 0 {
        Ok(Seq::empty())
    } else {
        match polyfill_spec(newd, oldd, mm.drop_last()) {
            Ok(prev) => match find_module(newd, mm.last().0) {
                Some(nm) => match find_module(oldd, mm.last().1) {
                    Some(om) => match module_polyfill_spec(nm, om) {
                        Ok(mp) => Ok(prev.push(mp)),
                        Err(e) => Err(e),
                    },
                    None => Err(ErrorView::ModuleNotPresent { name: mm.last().1 }),
                },
                None => Err(ErrorView::ModuleNotPresent { name: mm.last().0 }),
            },
            Err(e) => Err(e),
        }
    }
}

/// The top-level analysis result: one module match per entry of the
/// caller-supplied module-name mapping, in mapping order. Immutable once
/// built.
#[derive(Debug)]
pub struct Polyfill {
    pub modules: Vec<ModulePolyfill>,
}

impl View for Polyfill {
    type V = Seq<ModulePolyfillView>;

    open spec fn view(&self) -> Seq<ModulePolyfillView> {
        self.modules@.map_values(|m: ModulePolyfill| m@)
    }
}

/// Once a prefix of the mapping fails, every longer prefix fails the same
/// way: the first miss decides.
proof fn lemma_polyfill_err_persists(
    newd: Seq<ModuleView>,
    oldd: Seq<ModuleView>,
    mm: Seq<(Seq<char>, Seq<char>)>,
    k: int,
)
    requires
        0 <= k <= mm.len(),
        polyfill_spec(newd, oldd, mm.take(k)) is Err,
    ensures
        polyfill_spec(newd, oldd, mm) == polyfill_spec(newd, oldd, mm.take(k)),
    decreases mm.len() - k,
{
    if k < mm.len() {
        assert(mm.take(k + 1).drop_last() =~= mm.take(k));
        lemma_polyfill_err_persists(newd, oldd, mm, k + 1);
    } else {
        assert(mm.take(k) =~= mm);
    }
}

impl Polyfill {
    /// Resolves each mapping entry's new-side and old-side module and matches
    /// them; the first missing module aborts the whole construction, and no
    /// partial value is returned.
    pub fn new(new: &Document, old: &Document, module_mapping: &Vec<(String, String)>) -> (r:
        Result<Polyfill, PolyfillError>)
        ensures
            match r {
                Ok(p) => polyfill_spec(new@, old@, mapping_view(module_mapping@)) == Ok::<
                    Seq<ModulePolyfillView>,
                    ErrorView,
                >(p@),
                Err(e) => polyfill_spec(new@, old@, mapping_view(module_mapping@)) == Err::<
                    Seq<ModulePolyfillView>,
                    ErrorView,
                >(e@),
            },
    {
        let ghost nd = new@;
        let ghost od = old@;
        let ghost mv = mapping_view(module_mapping@);
        let mut modules: Vec<ModulePolyfill> = Vec::new();
        proof {
            assert(mv.take(0) =~= Seq::<(Seq<char>, Seq<char>)>::empty());
            assert(modules@.map_values(|m: ModulePolyfill| m@) =~= Seq::<
                ModulePolyfillView,
            >::empty());
        }
        let mut i: usize = 0;
        while i < module_mapping.len()
            invariant
                0 <= i <= mv.len(),
                new@ == nd,
                old@ == od,
                mv == mapping_view(module_mapping@),
                mv.len() == module_mapping@.len(),
                forall|j: int| 0 <= j < mv.len() ==> mv[j] == (
                    module_mapping@[j].0@,
                    module_mapping@[j].1@,
                ),
                polyfill_spec(nd, od, mv.take(i as int)) == Ok::<
                    Seq<ModulePolyfillView>,
                    ErrorView,
                >(modules@.map_values(|m: ModulePolyfill| m@)),
            decreases mv.len() - i,
        {
            proof {
                assert(mv.take(i + 1).drop_last() =~= mv.take(i as int));
                assert(mv.take(i + 1).last() == mv[i as int]);
            }
            let newname = Id::new(module_mapping[i].0.as_str());
            let oldname = Id::new(module_mapping[i].1.as_str());
            let newmod = match new.module(&newname) {
                Some(m) => m,
                None => {
                    proof {
                        lemma_polyfill_err_persists(nd, od, mv, i + 1);
                    }
                    return Err(PolyfillError::ModuleNotPresent { name: newname });
                },
            };
            let oldmod = match old.module(&oldname) {
                Some(m) => m,
                None => {
                    proof {
                        lemma_polyfill_err_persists(nd, od, mv, i + 1);
                    }
                    return Err(PolyfillError::ModuleNotPresent { name: oldname });
                },
            };
            match ModulePolyfill::new(newmod, oldmod) {
                Ok(mp) => {
                    modules.push(mp);
                    proof {
                        assert(modules@.map_values(|m: ModulePolyfill| m@) =~= polyfill_spec(
                            nd,
                            od,
                            mv.take(i + 1),
                        )->Ok_0);
                    }
                },
                Err(e) => {
                    proof {
                        lemma_polyfill_err_persists(nd, od, mv, i + 1);
                    }
                    return Err(e);
                },
            }
            i = i + 1;
        }
        proof {
            assert(mv.take(mv.len() as int) =~= mv);
        }
        Ok(Polyfill { modules })
    }
}

} // verus!
