use vstd::prelude::*;
use vstd::multiset::Multiset;
use crate::ast::FuncView;
use crate::ast::InterfaceFuncParam;
use crate::ast::ModuleView;
use crate::ast::find_func;
use crate::ast::find_param;
use crate::ast::lemma_find_param;
use crate::id::is_id_char;
use crate::id::valid_id;
use crate::polyfill::ErrorView;
use crate::polyfill::FuncPolyfillView;
use crate::polyfill::ParamPolyfill;
use crate::polyfill::ParamUnknown;
use crate::polyfill::ModulePolyfillView;
use crate::polyfill::func_full_compat_spec;
use crate::polyfill::func_polyfill_spec;
use crate::polyfill::matched_pairs;
use crate::polyfill::module_funcs_spec;
use crate::polyfill::module_polyfill_spec;
use crate::polyfill::pairs_cover_name;
use crate::polyfill::unclaimed;
use crate::polyfill::unmatched_drivers;
use crate::report::func_contents_spec;
use crate::report::func_heading_spec;
use crate::report::func_report_spec;
use crate::report::polyfill_report_spec;

verus! {

// ---------------------------------------------------------------------------
// Counting occurrences
// ---------------------------------------------------------------------------
/// How many times `x` occurs in `s`.
pub open spec fn occurrences(s: Seq<InterfaceFuncParam>, x: InterfaceFuncParam) -> nat
    decreases s.len(),
{
    if s.len() == 0 {
        0nat
    } else {
        occurrences(s.drop_last(), x) + if s.last() == x {
            1nat
        } else {
            0nat
        }
    }
}

/// Whether some element of `ps` carries the name `n`.
pub open spec fn has_param_name(ps: Seq<InterfaceFuncParam>, n: Seq<char>) -> bool {
    exists|i: int| 0 <= i < ps.len() && ps[i].name@ == n
}

/// No two elements of `ps` share a name.
pub open spec fn distinct_param_names(ps: Seq<InterfaceFuncParam>) -> bool {
    forall|i: int, j: int| 0 <= i < j < ps.len() ==> ps[i].name@ != ps[j].name@
}

/// No two functions of `fs` share a name.
pub open spec fn distinct_func_names(fs: Seq<FuncView>) -> bool {
    forall|i: int, j: int| 0 <= i < j < fs.len() ==> fs[i].name != fs[j].name
}

proof fn lemma_occ_push(s: Seq<InterfaceFuncParam>, y: InterfaceFuncParam, x: InterfaceFuncParam)
    ensures
        occurrences(s.push(y), x) == occurrences(s, x) + if y == x {
            1nat
        } else {
            0nat
        },
{
    assert(s.push(y).drop_last() =~= s);
    assert(s.push(y).last() == y);
}

proof fn lemma_occ_zero(s: Seq<InterfaceFuncParam>, x: InterfaceFuncParam)
    ensures
        (occurrences(s, x) == 0) <==> (forall|i: int| 0 <= i < s.len() ==> s[i] != x),
    decreases s.len(),
{
    if s.len() > 0 {
        lemma_occ_zero(s.drop_last(), x);
        if occurrences(s, x) == 0 {
            assert forall|i: int| 0 <= i < s.len() implies s[i] != x by {
                if i < s.len() - 1 {
                    assert(s.drop_last()[i] == s[i]);
                }
            }
        } else {
            if s.last() != x {
                let i = choose|i: int| 0 <= i < s.drop_last().len() && s.drop_last()[i] == x;
                assert(s[i] == x);
            }
        }
    }
}

proof fn lemma_occ_concat(s: Seq<InterfaceFuncParam>, t: Seq<InterfaceFuncParam>, x: InterfaceFuncParam)
    ensures
        occurrences(s + t, x) == occurrences(s, x) + occurrences(t, x),
    decreases t.len(),
{
    if t.len() == 0 {
        assert(s + t =~= s);
    } else {
        assert((s + t).drop_last() =~= s + t.drop_last());
        assert((s + t).last() == t.last());
        lemma_occ_concat(s, t.drop_last(), x);
    }
}

proof fn lemma_occ_multiset(s: Seq<InterfaceFuncParam>, x: InterfaceFuncParam)
    ensures
        occurrences(s, x) == s.to_multiset().count(x),
    decreases s.len(),
{
    broadcast use vstd::seq_lib::group_to_multiset_ensures;

    if s.len() == 0 {
        assert(s.to_multiset() =~= Multiset::<InterfaceFuncParam>::empty());
    } else {
        lemma_occ_multiset(s.drop_last(), x);
        assert(s =~= s.drop_last().push(s.last()));
        assert(s.to_multiset() =~= s.drop_last().to_multiset().insert(s.last()));
    }
}

// ---------------------------------------------------------------------------
// Projections of the match results
// ---------------------------------------------------------------------------
/// The driver-side elements of a pass's matched pairs.
pub open spec fn drivers_of(pairs: Seq<(InterfaceFuncParam, InterfaceFuncParam)>) -> Seq<
    InterfaceFuncParam,
> {
    pairs.map_values(|pr: (InterfaceFuncParam, InterfaceFuncParam)| pr.0)
}

/// The found-side elements of a pass's matched pairs.
pub open spec fn founds_of(pairs: Seq<(InterfaceFuncParam, InterfaceFuncParam)>) -> Seq<
    InterfaceFuncParam,
> {
    pairs.map_values(|pr: (InterfaceFuncParam, InterfaceFuncParam)| pr.1)
}

/// The old sides of a list of matched pairs.
pub open spec fn mapped_olds(ms: Seq<ParamPolyfill>) -> Seq<InterfaceFuncParam> {
    ms.map_values(|m: ParamPolyfill| m.old)
}

/// The new sides of a list of matched pairs.
pub open spec fn mapped_news(ms: Seq<ParamPolyfill>) -> Seq<InterfaceFuncParam> {
    ms.map_values(|m: ParamPolyfill| m.new)
}

/// The parameters of the `Old`-tagged entries, in order.
pub open spec fn old_entries(us: Seq<ParamUnknown>) -> Seq<InterfaceFuncParam>
    decreases us.len(),
{
    if us.len() == 0 {
        Seq::empty()
    } else {
        let prev = old_entries(us.drop_last());
        match us.last() {
            ParamUnknown::Old(p) => prev.push(p),
            ParamUnknown::New(_) => prev,
        }
    }
}

/// The parameters of the `New`-tagged entries, in order.
pub open spec fn new_entries(us: Seq<ParamUnknown>) -> Seq<InterfaceFuncParam>
    decreases us.len(),
{
    if us.len() == 0 {
        Seq::empty()
    } else {
        let prev = new_entries(us.drop_last());
        match us.last() {
            ParamUnknown::Old(_) => prev,
            ParamUnknown::New(p) => prev.push(p),
        }
    }
}

proof fn lemma_entries_concat(s: Seq<ParamUnknown>, t: Seq<ParamUnknown>)
    ensures
        old_entries(s + t) == old_entries(s) + old_entries(t),
        new_entries(s + t) == new_entries(s) + new_entries(t),
    decreases t.len(),
{
    if t.len() == 0 {
        assert(s + t =~= s);
        assert(old_entries(s) + old_entries(t) =~= old_entries(s));
        assert(new_entries(s) + new_entries(t) =~= new_entries(s));
    } else {
        assert((s + t).drop_last() =~= s + t.drop_last());
        assert((s + t).last() == t.last());
        lemma_entries_concat(s, t.drop_last());
        match t.last() {
            ParamUnknown::Old(p) => {
                assert(old_entries(s) + old_entries(t) =~= (old_entries(s) + old_entries(
                    t.drop_last(),
                )).push(p));
            },
            ParamUnknown::New(p) => {
                assert(new_entries(s) + new_entries(t) =~= (new_entries(s) + new_entries(
                    t.drop_last(),
                )).push(p));
            },
        }
    }
}

proof fn lemma_entries_of_olds(a: Seq<InterfaceFuncParam>)
    ensures
        old_entries(a.map_values(|p: InterfaceFuncParam| ParamUnknown::Old(p))) == a,
        new_entries(a.map_values(|p: InterfaceFuncParam| ParamUnknown::Old(p))) == Seq::<
            InterfaceFuncParam,
        >::empty(),
    decreases a.len(),
{
    let tagged = a.map_values(|p: InterfaceFuncParam| ParamUnknown::Old(p));
    if a.len() == 0 {
        assert(tagged =~= Seq::<ParamUnknown>::empty());
    } else {
        lemma_entries_of_olds(a.drop_last());
        assert(tagged.drop_last() =~= a.drop_last().map_values(
            |p: InterfaceFuncParam| ParamUnknown::Old(p),
        ));
        assert(tagged.last() == ParamUnknown::Old(a.last()));
        assert(old_entries(tagged) =~= a);
    }
}

proof fn lemma_entries_of_news(b: Seq<InterfaceFuncParam>)
    ensures
        new_entries(b.map_values(|p: InterfaceFuncParam| ParamUnknown::New(p))) == b,
        old_entries(b.map_values(|p: InterfaceFuncParam| ParamUnknown::New(p))) == Seq::<
            InterfaceFuncParam,
        >::empty(),
    decreases b.len(),
{
    let tagged = b.map_values(|p: InterfaceFuncParam| ParamUnknown::New(p));
    if b.len() == 0 {
        assert(tagged =~= Seq::<ParamUnknown>::empty());
    } else {
        lemma_entries_of_news(b.drop_last());
        assert(tagged.drop_last() =~= b.drop_last().map_values(
            |p: InterfaceFuncParam| ParamUnknown::New(p),
        ));
        assert(tagged.last() == ParamUnknown::New(b.last()));
        assert(new_entries(tagged) =~= b);
    }
}

// ---------------------------------------------------------------------------
// The driver side of a pass
// ---------------------------------------------------------------------------
proof fn lemma_pass_drive(drive: Seq<InterfaceFuncParam>, other: Seq<InterfaceFuncParam>)
    ensures
        matched_pairs(drive, other).len() + unmatched_drivers(drive, other).len() == drive.len(),
        forall|x: InterfaceFuncParam| #[trigger]
            occurrences(drive, x) == occurrences(drivers_of(matched_pairs(drive, other)), x)
                + occurrences(unmatched_drivers(drive, other), x),
    decreases drive.len(),
{
    if drive.len() > 0 {
        let prev = drive.drop_last();
        lemma_pass_drive(prev, other);
        let mp = matched_pairs(drive, other);
        let pp = matched_pairs(prev, other);
        match find_param(other, drive.last().name@) {
            Some(fnd) => {
                assert(drivers_of(mp) =~= drivers_of(pp).push(drive.last()));
                assert forall|x: InterfaceFuncParam| #[trigger]
                    occurrences(drive, x) == occurrences(drivers_of(mp), x) + occurrences(
                        unmatched_drivers(drive, other),
                        x,
                    ) by {
                    lemma_occ_push(drivers_of(pp), drive.last(), x);
                    assert(occurrences(drive, x) == occurrences(prev, x) + if drive.last() == x {
                        1nat
                    } else {
                        0nat
                    });
                    assert(occurrences(prev, x) == occurrences(drivers_of(pp), x) + occurrences(
                        unmatched_drivers(prev, other),
                        x,
                    ));
                    assert(unmatched_drivers(drive, other) == unmatched_drivers(prev, other));
                }
            },
            None => {
                assert(drivers_of(mp) == drivers_of(pp));
                assert forall|x: InterfaceFuncParam| #[trigger]
                    occurrences(drive, x) == occurrences(drivers_of(mp), x) + occurrences(
                        unmatched_drivers(drive, other),
                        x,
                    ) by {
                    lemma_occ_push(unmatched_drivers(prev, other), drive.last(), x);
                    assert(occurrences(drive, x) == occurrences(prev, x) + if drive.last() == x {
                        1nat
                    } else {
                        0nat
                    });
                    assert(occurrences(prev, x) == occurrences(drivers_of(pp), x) + occurrences(
                        unmatched_drivers(prev, other),
                        x,
                    ));
                }
            },
        }
    }
}

// ---------------------------------------------------------------------------
// The shape of the matched pairs
// ---------------------------------------------------------------------------
proof fn lemma_pairs_shape(drive: Seq<InterfaceFuncParam>, other: Seq<InterfaceFuncParam>)
    ensures
        forall|k: int| 0 <= k < matched_pairs(drive, other).len() ==> {
            let pr = #[trigger] matched_pairs(drive, other)[k];
            pr.1.name@ == pr.0.name@ && find_param(other, pr.0.name@) == Some(pr.1) && exists|
                i: int,
            | 0 <= i < drive.len() && drive[i] == pr.0
        },
    decreases drive.len(),
{
    if drive.len() > 0 {
        let prev = drive.drop_last();
        lemma_pairs_shape(prev, other);
        lemma_find_param(other, drive.last().name@);
        let mp = matched_pairs(drive, other);
        let pp = matched_pairs(prev, other);
        assert forall|k: int| 0 <= k < mp.len() implies {
            let pr = #[trigger] mp[k];
            pr.1.name@ == pr.0.name@ && find_param(other, pr.0.name@) == Some(pr.1) && exists|
                i: int,
            | 0 <= i < drive.len() && drive[i] == pr.0
        } by {
            if k < pp.len() {
                assert(mp[k] == pp[k]);
                let i = choose|i: int| 0 <= i < prev.len() && prev[i] == pp[k].0;
                assert(drive[i] == mp[k].0);
            } else {
                assert(drive[drive.len() - 1] == mp[k].0);
            }
        }
    }
}

proof fn lemma_pairs_complete(drive: Seq<InterfaceFuncParam>, other: Seq<InterfaceFuncParam>, i: int)
    requires
        0 <= i < drive.len(),
        find_param(other, drive[i].name@) is Some,
    ensures
        pairs_cover_name(matched_pairs(drive, other), drive[i].name@),
    decreases drive.len(),
{
    let mp = matched_pairs(drive, other);
    let pp = matched_pairs(drive.drop_last(), other);
    if i == drive.len() - 1 {
        lemma_find_param(other, drive.last().name@);
        assert(mp[pp.len() as int].1.name@ == drive[i].name@);
    } else {
        assert(drive.drop_last()[i] == drive[i]);
        lemma_pairs_complete(drive.drop_last(), other, i);
        let k = choose|k: int| 0 <= k < pp.len() && pp[k].1.name@ == drive[i].name@;
        assert(mp[k] == pp[k]);
    }
}

proof fn lemma_pairs_cover(drive: Seq<InterfaceFuncParam>, other: Seq<InterfaceFuncParam>)
    ensures
        forall|n: Seq<char>| #[trigger]
            pairs_cover_name(matched_pairs(drive, other), n) <==> (has_param_name(drive, n)
                && find_param(other, n) is Some),
{
    lemma_pairs_shape(drive, other);
    assert forall|n: Seq<char>| #[trigger]
        pairs_cover_name(matched_pairs(drive, other), n) <==> (has_param_name(drive, n)
            && find_param(other, n) is Some) by {
        if pairs_cover_name(matched_pairs(drive, other), n) {
            let mp = matched_pairs(drive, other);
            let k = choose|k: int| 0 <= k < mp.len() && mp[k].1.name@ == n;
            assert(mp[k].0.name@ == n);
            let i = choose|i: int| 0 <= i < drive.len() && drive[i] == mp[k].0;
            assert(has_param_name(drive, n));
        }
        if has_param_name(drive, n) && find_param(other, n) is Some {
            let i = choose|i: int| 0 <= i < drive.len() && drive[i].name@ == n;
            lemma_pairs_complete(drive, other, i);
        }
    }
}

// ---------------------------------------------------------------------------
// The other side of a pass
// ---------------------------------------------------------------------------
proof fn lemma_unclaimed_occ(
    other: Seq<InterfaceFuncParam>,
    pairs: Seq<(InterfaceFuncParam, InterfaceFuncParam)>,
    x: InterfaceFuncParam,
)
    ensures
        occurrences(unclaimed(other, pairs), x) == if pairs_cover_name(pairs, x.name@) {
            0nat
        } else {
            occurrences(other, x)
        },
    decreases other.len(),
{
    if other.len() > 0 {
        lemma_unclaimed_occ(other.drop_last(), pairs, x);
        if !pairs_cover_name(pairs, other.last().name@) {
            lemma_occ_push(unclaimed(other.drop_last(), pairs), other.last(), x);
        }
    }
}

proof fn lemma_occ_by_name(other: Seq<InterfaceFuncParam>, x: InterfaceFuncParam)
    requires
        distinct_param_names(other),
    ensures
        occurrences(other, x) == if find_param(other, x.name@) == Some(x) {
            1nat
        } else {
            0nat
        },
    decreases other.len(),
{
    if other.len() > 0 {
        let first = other[0];
        let rest = other.subrange(1, other.len() as int);
        assert(other =~= seq![first] + rest);
        lemma_occ_concat(seq![first], rest, x);
        assert(seq![first].drop_last() =~= Seq::<InterfaceFuncParam>::empty());
        assert(seq![first].last() == first);
        assert(occurrences(Seq::<InterfaceFuncParam>::empty(), x) == 0);
        assert(occurrences(seq![first], x) == if first == x {
            1nat
        } else {
            0nat
        });
        assert(distinct_param_names(rest)) by {
            assert forall|i: int, j: int| 0 <= i < j < rest.len() implies rest[i].name@
                != rest[j].name@ by {
                assert(rest[i] == other[i + 1]);
                assert(rest[j] == other[j + 1]);
            }
        }
        lemma_occ_by_name(rest, x);
        if first.name@ == x.name@ {
            // the first element is the unique bearer of this name
            assert(find_param(other, x.name@) == Some(first));
            assert(occurrences(rest, x) == 0) by {
                lemma_occ_zero(rest, x);
                if exists|i: int| 0 <= i < rest.len() && rest[i] == x {
                    let i = choose|i: int| 0 <= i < rest.len() && rest[i] == x;
                    assert(other[i + 1].name@ == other[0].name@);
                    assert(false);
                }
                if find_param(rest, x.name@) == Some(x) {
                    lemma_find_param(rest, x.name@);
                }
            }
        } else {
            assert(first != x);
            assert(find_param(other, x.name@) == find_param(rest, x.name@));
        }
    }
}

proof fn lemma_found_occ(
    drive: Seq<InterfaceFuncParam>,
    other: Seq<InterfaceFuncParam>,
    x: InterfaceFuncParam,
)
    requires
        distinct_param_names(drive),
        distinct_param_names(other),
    ensures
        occurrences(founds_of(matched_pairs(drive, other)), x) == if has_param_name(drive, x.name@)
            && find_param(other, x.name@) == Some(x) {
            1nat
        } else {
            0nat
        },
    decreases drive.len(),
{
    if drive.len() == 0 {
        assert(!has_param_name(drive, x.name@));
    } else {
        let prev = drive.drop_last();
        let last = drive.last();
        assert(distinct_param_names(prev)) by {
            assert forall|i: int, j: int| 0 <= i < j < prev.len() implies prev[i].name@
                != prev[j].name@ by {
                assert(prev[i] == drive[i]);
                assert(prev[j] == drive[j]);
            }
        }
        lemma_found_occ(prev, other, x);
        lemma_find_param(other, last.name@);
        let mp = matched_pairs(drive, other);
        let pp = matched_pairs(prev, other);
        match find_param(other, last.name@) {
            Some(fnd) => {
                assert(founds_of(mp) =~= founds_of(pp).push(fnd));
                lemma_occ_push(founds_of(pp), fnd, x);
                if fnd == x {
                    assert(fnd.name@ == last.name@);
                    assert(has_param_name(drive, x.name@)) by {
                        assert(drive[drive.len() - 1].name@ == x.name@);
                    }
                    assert(!has_param_name(prev, x.name@)) by {
                        if exists|i: int| 0 <= i < prev.len() && prev[i].name@ == x.name@ {
                            let i = choose|i: int| 0 <= i < prev.len() && prev[i].name@ == x.name@;
                            assert(drive[i].name@ == drive[drive.len() - 1].name@);
                            assert(false);
                        }
                    }
                } else {
                    if has_param_name(drive, x.name@) && find_param(other, x.name@) == Some(x) {
                        let i = choose|i: int| 0 <= i < drive.len() && drive[i].name@ == x.name@;
                        if i == drive.len() - 1 {
                            assert(find_param(other, last.name@) == Some(x));
                            assert(false);
                        } else {
                            assert(prev[i] == drive[i]);
                            assert(has_param_name(prev, x.name@));
                        }
                    } else {
                        if has_param_name(prev, x.name@) {
                            let i = choose|i: int| 0 <= i < prev.len() && prev[i].name@ == x.name@;
                            assert(drive[i].name@ == x.name@);
                            assert(has_param_name(drive, x.name@));
                        }
                    }
                }
            },
            None => {
                assert(founds_of(mp) == founds_of(pp));
                if has_param_name(drive, x.name@) && find_param(other, x.name@) == Some(x) {
                    let i = choose|i: int| 0 <= i < drive.len() && drive[i].name@ == x.name@;
                    assert(i < drive.len() - 1) by {
                        if i == drive.len() - 1 {
                            assert(find_param(other, x.name@) is None);
                        }
                    }
                    assert(prev[i] == drive[i]);
                    assert(has_param_name(prev, x.name@));
                } else {
                    if has_param_name(prev, x.name@) {
                        let i = choose|i: int| 0 <= i < prev.len() && prev[i].name@ == x.name@;
                        assert(drive[i].name@ == x.name@);
                        assert(has_param_name(drive, x.name@));
                    }
                }
            },
        }
    }
}

proof fn lemma_pass_other(drive: Seq<InterfaceFuncParam>, other: Seq<InterfaceFuncParam>)
    requires
        distinct_param_names(drive),
        distinct_param_names(other),
    ensures
        forall|x: InterfaceFuncParam| #[trigger]
            occurrences(other, x) == occurrences(founds_of(matched_pairs(drive, other)), x)
                + occurrences(unclaimed(other, matched_pairs(drive, other)), x),
        matched_pairs(drive, other).len() + unclaimed(other, matched_pairs(drive, other)).len()
            == other.len(),
{
    broadcast use vstd::seq_lib::group_to_multiset_ensures;

    let pairs = matched_pairs(drive, other);
    lemma_pairs_cover(drive, other);
    assert forall|x: InterfaceFuncParam| #[trigger]
        occurrences(other, x) == occurrences(founds_of(pairs), x) + occurrences(
            unclaimed(other, pairs),
            x,
        ) by {
        lemma_unclaimed_occ(other, pairs, x);
        lemma_found_occ(drive, other, x);
        lemma_occ_by_name(other, x);
    }
    let fs = founds_of(pairs);
    let uc = unclaimed(other, pairs);
    assert(fs.to_multiset().add(uc.to_multiset()) =~= other.to_multiset()) by {
        assert forall|x: InterfaceFuncParam|
            fs.to_multiset().add(uc.to_multiset()).count(x) == other.to_multiset().count(x) by {
            lemma_occ_multiset(fs, x);
            lemma_occ_multiset(uc, x);
            lemma_occ_multiset(other, x);
        }
    }
    assert(fs.to_multiset().len() + uc.to_multiset().len() == other.to_multiset().len()) by {
        vstd::multiset::axiom_len_add::<InterfaceFuncParam>(fs.to_multiset(), uc.to_multiset());
    }
}

// ---------------------------------------------------------------------------
// Partition laws
// ---------------------------------------------------------------------------
/// Partition law for the parameter pass: the mapped pairs and the `Old`-tagged
/// unknowns together account for every old parameter exactly once, and the
/// mapped pairs and the `New`-tagged unknowns together account for every new
/// parameter exactly once.
pub proof fn lemma_params_partition(nf: FuncView, of: FuncView)
    requires
        distinct_param_names(of.params),
        distinct_param_names(nf.params),
    ensures
        func_polyfill_spec(nf, of).mapped_params.len() + old_entries(
            func_polyfill_spec(nf, of).unknown_params,
        ).len() == of.params.len(),
        func_polyfill_spec(nf, of).mapped_params.len() + new_entries(
            func_polyfill_spec(nf, of).unknown_params,
        ).len() == nf.params.len(),
        forall|x: InterfaceFuncParam| #[trigger]
            occurrences(of.params, x) == occurrences(
                mapped_olds(func_polyfill_spec(nf, of).mapped_params),
                x,
            ) + occurrences(old_entries(func_polyfill_spec(nf, of).unknown_params), x),
        forall|x: InterfaceFuncParam| #[trigger]
            occurrences(nf.params, x) == occurrences(
                mapped_news(func_polyfill_spec(nf, of).mapped_params),
                x,
            ) + occurrences(new_entries(func_polyfill_spec(nf, of).unknown_params), x),
{
    let f = func_polyfill_spec(nf, of);
    let pairs = matched_pairs(of.params, nf.params);
    assert(mapped_olds(f.mapped_params) =~= drivers_of(pairs));
    assert(mapped_news(f.mapped_params) =~= founds_of(pairs));
    let drv_miss = unmatched_drivers(of.params, nf.params);
    let oth_miss = unclaimed(nf.params, pairs);
    lemma_entries_concat(
        drv_miss.map_values(|p: InterfaceFuncParam| ParamUnknown::Old(p)),
        oth_miss.map_values(|p: InterfaceFuncParam| ParamUnknown::New(p)),
    );
    lemma_entries_of_olds(drv_miss);
    lemma_entries_of_news(oth_miss);
    assert(old_entries(f.unknown_params) =~= drv_miss);
    assert(new_entries(f.unknown_params) =~= oth_miss);
    lemma_pass_drive(of.params, nf.params);
    lemma_pass_other(of.params, nf.params);
    assert(f.mapped_params.len() == pairs.len());
}

/// Partition law for the result pass, the matching direction reversed: the
/// mapped pairs and the `New`-tagged unknowns together account for every new
/// result exactly once, and the mapped pairs and the `Old`-tagged unknowns
/// together account for every old result exactly once.
pub proof fn lemma_results_partition(nf: FuncView, of: FuncView)
    requires
        distinct_param_names(nf.results),
        distinct_param_names(of.results),
    ensures
        func_polyfill_spec(nf, of).mapped_results.len() + new_entries(
            func_polyfill_spec(nf, of).unknown_results,
        ).len() == nf.results.len(),
        func_polyfill_spec(nf, of).mapped_results.len() + old_entries(
            func_polyfill_spec(nf, of).unknown_results,
        ).len() == of.results.len(),
        forall|x: InterfaceFuncParam| #[trigger]
            occurrences(nf.results, x) == occurrences(
                mapped_news(func_polyfill_spec(nf, of).mapped_results),
                x,
            ) + occurrences(new_entries(func_polyfill_spec(nf, of).unknown_results), x),
        forall|x: InterfaceFuncParam| #[trigger]
            occurrences(of.results, x) == occurrences(
                mapped_olds(func_polyfill_spec(nf, of).mapped_results),
                x,
            ) + occurrences(old_entries(func_polyfill_spec(nf, of).unknown_results), x),
{
    let f = func_polyfill_spec(nf, of);
    let pairs = matched_pairs(nf.results, of.results);
    assert(mapped_news(f.mapped_results) =~= drivers_of(pairs));
    assert(mapped_olds(f.mapped_results) =~= founds_of(pairs));
    let drv_miss = unmatched_drivers(nf.results, of.results);
    let oth_miss = unclaimed(of.results, pairs);
    lemma_entries_concat(
        drv_miss.map_values(|p: InterfaceFuncParam| ParamUnknown::New(p)),
        oth_miss.map_values(|p: InterfaceFuncParam| ParamUnknown::Old(p)),
    );
    lemma_entries_of_news(drv_miss);
    lemma_entries_of_olds(oth_miss);
    assert(new_entries(f.unknown_results) =~= drv_miss);
    assert(old_entries(f.unknown_results) =~= oth_miss);
    lemma_pass_drive(nf.results, of.results);
    lemma_pass_other(nf.results, of.results);
    assert(f.mapped_results.len() == pairs.len());
}

// ---------------------------------------------------------------------------
// Module construction law
// ---------------------------------------------------------------------------
proof fn lemma_module_funcs_shape(nm: ModuleView, ofs: Seq<FuncView>)
    ensures
        module_funcs_spec(nm, ofs) matches Ok(fs) ==> fs.len() == ofs.len() && (forall|j: int|
            0 <= j < ofs.len() ==> find_func(nm.funcs, ofs[j].name) is Some && #[trigger] fs[j]
                == func_polyfill_spec(find_func(nm.funcs, ofs[j].name)->Some_0, ofs[j])),
        module_funcs_spec(nm, ofs) is Ok <==> (forall|j: int|
            0 <= j < ofs.len() ==> #[trigger] find_func(nm.funcs, ofs[j].name) is Some),
        module_funcs_spec(nm, ofs) matches Err(e) ==> e matches ErrorView::FuncNotPresent { name }
            && (exists|j: int|
            0 <= j < ofs.len() && #[trigger] ofs[j].name == name && find_func(nm.funcs, name) is None),
    decreases ofs.len(),
{
    if ofs.len() > 0 {
        let prev = ofs.drop_last();
        lemma_module_funcs_shape(nm, prev);
        assert(forall|j: int| 0 <= j < prev.len() ==> prev[j] == ofs[j]);
        if module_funcs_spec(nm, ofs) is Ok {
            let fs = module_funcs_spec(nm, ofs)->Ok_0;
            let ps = module_funcs_spec(nm, prev)->Ok_0;
            assert forall|j: int| 0 <= j < ofs.len() implies find_func(nm.funcs, ofs[j].name) is Some
                && #[trigger] fs[j] == func_polyfill_spec(
                find_func(nm.funcs, ofs[j].name)->Some_0,
                ofs[j],
            ) by {
                if j < ofs.len() - 1 {
                    assert(ps[j] == func_polyfill_spec(
                        find_func(nm.funcs, prev[j].name)->Some_0,
                        prev[j],
                    ));
                }
            }
        }
    }
}

/// Law: a successfully built module match holds exactly one function match
/// per old-module function, carrying that function as its old side in
/// declaration order; the match exists exactly when every old function has a
/// same-named new function, and otherwise construction fails with
/// `FuncNotPresent` naming an old function that has none.
pub proof fn lemma_module_polyfill_law(nm: ModuleView, om: ModuleView)
    requires
        distinct_func_names(om.funcs),
    ensures
        module_polyfill_spec(nm, om) is Ok <==> (forall|j: int|
            0 <= j < om.funcs.len() ==> #[trigger] find_func(nm.funcs, om.funcs[j].name) is Some),
        module_polyfill_spec(nm, om) matches Ok(m) ==> m.funcs.len() == om.funcs.len() && (forall|
            j: int,
        |
            0 <= j < om.funcs.len() ==> (#[trigger] m.funcs[j]).old == om.funcs[j]) && (forall|
            i: int,
            j: int,
        |
            0 <= i < om.funcs.len() && 0 <= j < om.funcs.len() ==> ((#[trigger] m.funcs[i].old.name
                == #[trigger] om.funcs[j].name) <==> i == j)),
        module_polyfill_spec(nm, om) matches Err(e) ==> e matches ErrorView::FuncNotPresent { name }
            && (exists|j: int|
            0 <= j < om.funcs.len() && #[trigger] om.funcs[j].name == name && find_func(
                nm.funcs,
                name,
            ) is None),
{
    lemma_module_funcs_shape(nm, om.funcs);
    if module_polyfill_spec(nm, om) is Ok {
        let m = module_polyfill_spec(nm, om)->Ok_0;
        assert forall|i: int, j: int|
            0 <= i < om.funcs.len() && 0 <= j < om.funcs.len() implies ((#[trigger] m.funcs[i].old.name
            == #[trigger] om.funcs[j].name) <==> i == j) by {
            assert(m.funcs[i].old == om.funcs[i]);
            if i != j && m.funcs[i].old.name == om.funcs[j].name {
                assert(om.funcs[i].name == om.funcs[j].name);
                assert(false);
            }
        }
    }
}

// ---------------------------------------------------------------------------
// Reporting laws
// ---------------------------------------------------------------------------
/// Law: a function match is fully compatible exactly when its report is the
/// single line `<name>: full compatibility`.
pub proof fn lemma_full_compat_report(f: FuncPolyfillView)
    requires
        valid_id(f.new.name),
        valid_id(f.old.name),
    ensures
        func_full_compat_spec(f) <==> func_report_spec(f) == f.new.name + ": full compatibility"@,
{
    reveal_strlit(": full compatibility");
    reveal_strlit(":\n\t\t");
    reveal_strlit(" => ");
    let fc = ": full compatibility"@;
    let full_line = f.new.name + fc;
    if !func_full_compat_spec(f) {
        let hd = func_heading_spec(f);
        let contents = func_contents_spec(f);
        if f.new.name == f.old.name {
            if contents.len() == 0 {
                // every list is empty, so the match was fully compatible
                // after all: contradiction
                assert(f.mapped_params.len() == 0 && f.unknown_params.len() == 0
                    && f.mapped_results.len() == 0 && f.unknown_results.len() == 0);
                assert(func_full_compat_spec(f));
            } else {
                let rep = func_report_spec(f);
                if rep == full_line {
                    assert(rep[hd.len() as int + 1] == (":\n\t\t"@)[1]);
                    assert(full_line[f.new.name.len() as int + 1] == fc[1]);
                    assert(false);
                }
            }
        } else {
            let rep = func_report_spec(f);
            if rep == full_line {
                let k = f.new.name.len() as int;
                assert(full_line[k] == fc[0]);
                assert(hd.len() == f.old.name.len() + 4 + f.new.name.len());
                assert(rep[k] == hd[k]);
                assert(!is_id_char(':'));
                if k < f.old.name.len() {
                    assert(hd[k] == f.old.name[k]);
                    assert(is_id_char(f.old.name[k]));
                } else if k < f.old.name.len() + 4 {
                    assert(hd[k] == (" => "@)[k - f.old.name.len()]);
                    assert((" => "@)[0] == ' ' && (" => "@)[1] == '=' && (" => "@)[2] == '>' && (
                    " => "@)[3] == ' ');
                } else {
                    assert(hd[k] == f.new.name[k - f.old.name.len() - 4]);
                    assert(is_id_char(f.new.name[k - f.old.name.len() - 4]));
                }
                assert(false);
            }
        }
    }
}

/// Law: a report is a pure function of the already-built value; two
/// renderings of the same value tree are identical text.
pub proof fn lemma_report_deterministic(
    mods: Seq<ModulePolyfillView>,
    r1: Seq<char>,
    r2: Seq<char>,
)
    requires
        r1 == polyfill_report_spec(mods),
        r2 == polyfill_report_spec(mods),
    ensures
        r1 == r2,
{
}

} // verus!
