//! The dependency orderer: computes a linear emission order in which every
//! message precedes all messages that directly nest it, by repeatedly
//! draining the frontier of types whose dependencies are all emitted. An
//! empty frontier with types left over is a genuine dependency cycle and is
//! reported with the names of the types involved.

use vstd::prelude::*;
use crate::error::CompileError;
use crate::hir::{Hir, Type};
use crate::symbols::SymbolId;

verus! {

/// The id maps to a user-declared type: a message or a bitfield.
pub open spec fn is_user_type(h: Hir, i: int) -> bool {
    h.types.has(i) && (h.types.at(i) is Message || h.types.at(i) is Bitfield)
}

/// Type `a` must precede type `b`: `b` is a message with a field whose
/// resolved type entry is the message `a`. Only direct message nesting
/// orders; arrays and bitfield fields do not.
pub open spec fn dep_edge(h: Hir, a: int, b: int) -> bool {
    &&& h.types.has(b)
    &&& h.types.at(b) matches Type::Message(mt) && exists|j: int|
        0 <= j < mt.fields@.len() && (#[trigger] mt.fields@[j]).ty.0 as int == a
    &&& h.types.has(a)
    &&& h.types.at(a) is Message
}


/// A correct emission order: it lists exactly the user-declared types, each
/// once, and every type follows all of its dependencies.
pub open spec fn valid_order(h: Hir, order: Seq<SymbolId>) -> bool {
    &&& forall|k: int|
        0 <= k < order.len() ==> is_user_type(h, (#[trigger] order[k]).0 as int)
    &&& forall|k1: int, k2: int| 0 <= k1 < k2 < order.len() ==> order[k1].0 != order[k2].0
    &&& forall|i: int|
        #![trigger is_user_type(h, i)]
        is_user_type(h, i) ==> exists|k: int|
            0 <= k < order.len() && (#[trigger] order[k]).0 as int == i
    &&& forall|k: int, a: int|
        #![trigger dep_edge(h, a, order[k].0 as int)]
        0 <= k < order.len() && dep_edge(h, a, order[k].0 as int) ==> exists|kk: int|
            0 <= kk < k && (#[trigger] order[kk]).0 as int == a
}

/// A correct cycle report: the names belong to a nonempty remainder of
/// user-declared types that could not be scheduled.
pub open spec fn cycle_report_ok(h: Hir, names: Seq<String>) -> bool {
    names.len() > 0 && exists|rem: Seq<int>| cyclic_remainder(h, rem, names)
}

/// The non-emitted types named by a cycle report: a nonempty set of
/// user-declared types, listed in ascending symbol order, none of which
/// could be scheduled.
pub open spec fn cyclic_remainder(h: Hir, rem: Seq<int>, names: Seq<String>) -> bool {
    &&& rem.len() == names.len()
    &&& rem.len() > 0
    &&& forall|x: int| 0 <= x < rem.len() ==> is_user_type(h, #[trigger] rem[x])
    &&& forall|x: int, y: int| 0 <= x < y < rem.len() ==> rem[x] < rem[y]
    &&& forall|x: int| 0 <= x < rem.len() ==> (#[trigger] names[x])@ == h.symbols@[rem[x]]
    &&& remainder_waits(h, rem)
}

/// Every non-emitted user type below the bound is listed in the remainder.
/// Held opaque so that its quantifier does not feed the membership facts of
/// the remainder in an endless instantiation chain.
#[verifier::opaque]
pub open spec fn remainder_complete(h: Hir, emitted: Seq<bool>, rem: Seq<int>, upto: int) -> bool {
    forall|ii: int|
        #![trigger is_user_type(h, ii)]
        0 <= ii < upto && is_user_type(h, ii) && !emitted[ii] ==> exists|x: int|
            0 <= x < rem.len() && rem[x] == ii
}

/// Some type of the remainder must precede the remainder's `x`-th type.
pub open spec fn waits_on_some(h: Hir, rem: Seq<int>, x: int) -> bool {
    exists|y: int| 0 <= y < rem.len() && dep_edge(h, rem[y], rem[x])
}

/// Every type of the remainder waits on another type of the remainder.
pub open spec fn remainder_waits(h: Hir, rem: Seq<int>) -> bool {
    forall|x: int| 0 <= x < rem.len() ==> #[trigger] waits_on_some(h, rem, x)
}

/// Every not-yet-emitted user type waits on another not-yet-emitted type:
/// what an empty frontier means.
pub open spec fn frontier_stalled(h: Hir, emitted: Seq<bool>) -> bool {
    forall|ii: int|
        #![trigger is_user_type(h, ii)]
        0 <= ii < emitted.len() && is_user_type(h, ii) && !emitted[ii] ==> exists|a: int|
            0 <= a < emitted.len() && dep_edge(h, a, ii) && !emitted[a]
}

/// How many cells of the mask are set.
pub open spec fn count_true(s: Seq<bool>) -> int
    decreases s.len(),
{
    if s.len() == 0 {
        0
    } else {
        count_true(s.drop_last()) + if s.last() {
            1int
        } else {
            0int
        }
    }
}

proof fn lemma_count_true_le(s: Seq<bool>)
    ensures
        0 <= count_true(s) <= s.len(),
    decreases s.len(),
{
    if s.len() > 0 {
        lemma_count_true_le(s.drop_last());
    }
}

proof fn lemma_count_true_update(s: Seq<bool>, i: int)
    requires
        0 <= i < s.len(),
        !s[i],
    ensures
        count_true(s.update(i, true)) == count_true(s) + 1,
    decreases s.len(),
{
    let s1 = s.update(i, true);
    if i == s.len() - 1 {
        assert(s1.drop_last() =~= s.drop_last());
        assert(s1.last());
    } else {
        assert(s1.drop_last() =~= s.drop_last().update(i, true));
        assert(s1.last() == s.last());
        lemma_count_true_update(s.drop_last(), i);
    }
}

/// Whether every type this entry depends on is already emitted.
fn deps_emitted(hir: &Hir, i: usize, emitted: &Vec<bool>) -> (r: bool)
    requires
        hir.wf(),
        hir.symbols@.len() < 0xFFFF_FFFEusize,
        is_user_type(*hir, i as int),
        emitted@.len() == hir.types.entries@.len(),
    ensures
        r == (forall|a: int| dep_edge(*hir, a, i as int) ==> emitted@[a]),
{
    let entry = match hir.types.get(SymbolId(i as u32)) {
        Some(t) => t,
        None => {
            proof {
                assert(false);
            }
            return true;
        },
    };
    match entry {
        Type::Message(mt) => {
            let mut j: usize = 0;
            while j < mt.fields.len()
                invariant
                    hir.wf(),
                    is_user_type(*hir, i as int),
                    emitted@.len() == hir.types.entries@.len(),
                    hir.types.at(i as int) matches Type::Message(mt2) && mt2 == mt,
                    0 <= j <= mt.fields@.len(),
                    forall|a: int|
                        (hir.types.has(a) && hir.types.at(a) is Message && exists|jj: int|
                            0 <= jj < j && (#[trigger] mt.fields@[jj]).ty.0 as int == a)
                            ==> emitted@[a],
                decreases mt.fields@.len() - j,
            {
                let dep = mt.fields[j].ty;
                let dep_is_message = match hir.types.get(dep) {
                    Some(t) => t.is_message(),
                    None => false,
                };
                if dep_is_message {
                    proof {
                        assert(dep.0 < hir.types.entries@.len());
                    }
                    if !emitted[dep.0 as usize] {
                        proof {
                            assert(dep_edge(*hir, dep.0 as int, i as int)) by {
                                assert(mt.fields@[j as int].ty.0 as int == dep.0 as int);
                            }
                        }
                        return false;
                    }
                }
                j = j + 1;
            }
            proof {
                assert forall|a: int| dep_edge(*hir, a, i as int) implies emitted@[a] by {
                    let jj = choose|jj: int|
                        0 <= jj < mt.fields@.len() && (#[trigger] mt.fields@[jj]).ty.0 as int == a;
                }
            }
            true
        },
        _ => {
            proof {
                assert forall|a: int| dep_edge(*hir, a, i as int) implies emitted@[a] by {
                    assert(hir.types.at(i as int) is Message);
                }
            }
            true
        },
    }
}

/// Orders every user-declared type so that each message follows the
/// messages its fields nest, draining frontiers of ready types; within one
/// frontier, higher symbol ids come first. Reports a cycle with the names
/// of the types left unordered.
#[verifier::rlimit(100)]
pub fn topological_sort(hir: &Hir) -> (r: Result<Vec<SymbolId>, CompileError>)
    requires
        hir.wf(),
        hir.symbols@.len() < 0xFFFF_FFFEusize,
    ensures
        r matches Ok(order) ==> valid_order(*hir, order@),
        (r is Ok) == exists|order: Seq<SymbolId>| valid_order(*hir, order),
        r matches Err(e) ==> e matches CompileError::CyclicDependency(names) && cycle_report_ok(
            *hir,
            names@,
        ),
{
    let n = hir.types.entries.len();
    let mut emitted: Vec<bool> = Vec::new();
    let mut z: usize = 0;
    while z < n
        invariant
            0 <= z <= n,
            emitted@.len() == z,
            forall|i: int| 0 <= i < z ==> !emitted@[i],
        decreases n - z,
    {
        emitted.push(false);
        z = z + 1;
    }
    let mut order: Vec<SymbolId> = Vec::new();
    proof {
        lemma_count_true_le(emitted@);
    }
    loop
        invariant
            hir.wf(),
            hir.symbols@.len() < 0xFFFF_FFFEusize,
            n == hir.types.entries@.len(),
            emitted@.len() == n,
            forall|i: int|
                0 <= i < n ==> ((#[trigger] emitted@[i]) == exists|k: int|
                    0 <= k < order@.len() && (#[trigger] order@[k]).0 as int == i),
            forall|k: int|
                0 <= k < order@.len() ==> is_user_type(*hir, (#[trigger] order@[k]).0 as int) && (
                order@[k].0 as int) < n,
            forall|k1: int, k2: int| 0 <= k1 < k2 < order@.len() ==> order@[k1].0 != order@[k2].0,
            forall|k: int, a: int|
                #![trigger dep_edge(*hir, a, order@[k].0 as int)]
                0 <= k < order@.len() && dep_edge(*hir, a, order@[k].0 as int)
                    ==> exists|kk: int| 0 <= kk < k && (#[trigger] order@[kk]).0 as int == a,
        ensures
            emitted@.len() == n,
            frontier_stalled(*hir, emitted@),
            forall|i: int|
                0 <= i < n ==> ((#[trigger] emitted@[i]) == exists|k: int|
                    0 <= k < order@.len() && (#[trigger] order@[k]).0 as int == i),
            forall|k: int|
                0 <= k < order@.len() ==> is_user_type(*hir, (#[trigger] order@[k]).0 as int) && (
                order@[k].0 as int) < n,
            forall|k1: int, k2: int| 0 <= k1 < k2 < order@.len() ==> order@[k1].0 != order@[k2].0,
            forall|k: int, a: int|
                #![trigger dep_edge(*hir, a, order@[k].0 as int)]
                0 <= k < order@.len() && dep_edge(*hir, a, order@[k].0 as int)
                    ==> exists|kk: int| 0 <= kk < k && (#[trigger] order@[kk]).0 as int == a,
        decreases emitted@.len() - count_true(emitted@),
    {
        proof {
            lemma_count_true_le(emitted@);
        }
        let ghost emitted0 = emitted@;
        let ghost order0 = order@;
        let mut frontier: Vec<u32> = Vec::new();
        let mut i: usize = 0;
        while i < n
            invariant
                hir.wf(),
                hir.symbols@.len() < 0xFFFF_FFFEusize,
                n == hir.types.entries@.len(),
                emitted@.len() == n,
                emitted@ == emitted0,
                0 <= i <= n,
                forall|x: int|
                    0 <= x < frontier@.len() ==> (((#[trigger] frontier@[x]) as int) < n
                        && is_user_type(*hir, frontier@[x] as int) && !emitted0[frontier@[x] as int]
                        && (forall|a: int| dep_edge(*hir, a, frontier@[x] as int) ==> emitted0[a])),
                forall|x: int, y: int|
                    0 <= x < y < frontier@.len() ==> frontier@[x] < frontier@[y],
                forall|x: int| 0 <= x < frontier@.len() ==> ((#[trigger] frontier@[x]) as int) < i,
                forall|ii: int|
                    0 <= ii < i && is_user_type(*hir, ii) && !emitted0[ii] && (forall|a: int|
                        dep_edge(*hir, a, ii) ==> emitted0[a]) ==> exists|x: int|
                        0 <= x < frontier@.len() && (#[trigger] frontier@[x]) as int == ii,
            decreases n - i,
        {
            let ghost f_pre = frontier@;
            if !emitted[i] {
                let is_user = match hir.types.get(SymbolId(i as u32)) {
                    Some(t) => t.is_message() || t.is_bitfield(),
                    None => false,
                };
                let ready = if is_user {
                    deps_emitted(hir, i, &emitted)
                } else {
                    false
                };
                if ready {
                    frontier.push(i as u32);
                }
                proof {
                    if is_user_type(*hir, i as int) && (forall|a: int|
                        dep_edge(*hir, a, i as int) ==> emitted0[a]) {
                        assert(is_user);
                        assert(ready);
                        assert(frontier@[frontier@.len() - 1] as int == i);
                    }
                }
            }
            proof {
                assert forall|ii: int|
                    0 <= ii < i + 1 && is_user_type(*hir, ii) && !emitted0[ii] && (forall|a: int|
                        dep_edge(*hir, a, ii) ==> emitted0[a]) implies exists|x: int|
                    0 <= x < frontier@.len() && (#[trigger] frontier@[x]) as int == ii by {
                    if ii < i {
                        let x = choose|x: int|
                            0 <= x < f_pre.len() && (#[trigger] f_pre[x]) as int == ii;
                        assert(frontier@[x] as int == ii);
                    }
                }
            }
            i = i + 1;
        }
        if frontier.len() == 0 {
            proof {
                assert forall|ii: int|
                    #![trigger is_user_type(*hir, ii)]
                    0 <= ii < emitted@.len() && is_user_type(*hir, ii) && !emitted@[ii]
                    implies exists|a: int|
                    0 <= a < emitted@.len() && dep_edge(*hir, a, ii) && !emitted@[a] by {
                    if forall|a: int| dep_edge(*hir, a, ii) ==> emitted0[a] {
                        assert(exists|x: int|
                            0 <= x < frontier@.len() && (#[trigger] frontier@[x]) as int == ii);
                        assert(false);
                    } else {
                        let a = choose|a: int| dep_edge(*hir, a, ii) && !emitted0[a];
                        assert(0 <= a < emitted@.len()) by {
                            assert(hir.types.has(a));
                        }
                        assert(dep_edge(*hir, a, ii) && !emitted@[a]);
                    }
                }
                assert(frontier_stalled(*hir, emitted@));
            }
            break;
        }
        let ghost fseq = frontier@;
        let mut fj: usize = frontier.len();
        while fj > 0
            invariant
                hir.wf(),
                hir.symbols@.len() < 0xFFFF_FFFEusize,
                n == hir.types.entries@.len(),
                emitted@.len() == n,
                0 <= fj <= fseq.len(),
                frontier@ == fseq,
                fseq.len() > 0,
                forall|x: int|
                    0 <= x < fseq.len() ==> (((#[trigger] fseq[x]) as int) < n
                        && is_user_type(*hir, fseq[x] as int) && !emitted0[fseq[x] as int]
                        && (forall|a: int| dep_edge(*hir, a, fseq[x] as int) ==> emitted0[a])),
                forall|x: int, y: int| 0 <= x < y < fseq.len() ==> fseq[x] < fseq[y],
                order@.len() == order0.len() + (fseq.len() - fj),
                forall|k: int| 0 <= k < order0.len() ==> order@[k] == order0[k],
                forall|k: int|
                    order0.len() <= k < order@.len() ==> (#[trigger] order@[k]).0 == fseq[
                        order0.len() + fseq.len() - 1 - k],
                forall|i2: int|
                    0 <= i2 < n ==> ((#[trigger] emitted@[i2]) == (emitted0[i2] || exists|x: int|
                        fj <= x < fseq.len() && (#[trigger] fseq[x]) as int == i2)),
                forall|k: int|
                    0 <= k < order@.len() ==> is_user_type(*hir, (#[trigger] order@[k]).0 as int)
                        && (order@[k].0 as int) < n,
                forall|k1: int, k2: int|
                    0 <= k1 < k2 < order@.len() ==> order@[k1].0 != order@[k2].0,
                forall|k: int, a: int|
                    #![trigger dep_edge(*hir, a, order@[k].0 as int)]
                    0 <= k < order@.len() && dep_edge(*hir, a, order@[k].0 as int)
                        ==> exists|kk: int| 0 <= kk < k && (#[trigger] order@[kk]).0 as int == a,
                forall|i2: int|
                    0 <= i2 < n ==> ((#[trigger] emitted0[i2]) == exists|k: int|
                        0 <= k < order0.len() && (#[trigger] order0[k]).0 as int == i2),
                count_true(emitted@) == count_true(emitted0) + (fseq.len() - fj),
            decreases fj,
        {
            fj = fj - 1;
            let id = frontier[fj];
            let ghost em_pre = emitted@;
            let ghost ord_pre = order@;
            proof {
                assert(!emitted@[id as int]) by {
                    assert(!emitted0[id as int]);
                    if exists|x: int| fj + 1 <= x < fseq.len() && (#[trigger] fseq[x]) as int == id as int {
                        let x = choose|x: int|
                            fj + 1 <= x < fseq.len() && (#[trigger] fseq[x]) as int == id as int;
                        assert(fseq[fj as int] < fseq[x]);
                    }
                }
            }
            order.push(SymbolId(id));
            emitted.set(id as usize, true);
            proof {
                lemma_count_true_update(em_pre, id as int);
                assert forall|k1: int, k2: int|
                    0 <= k1 < k2 < order@.len() implies order@[k1].0 != order@[k2].0 by {
                    if k2 == order@.len() - 1 {
                        if k1 < order0.len() {
                            assert(emitted0[order0[k1].0 as int]);
                        } else {
                            assert(order@[k1].0 == fseq[order0.len() + fseq.len() - 1 - k1]);
                            assert(order0.len() + fseq.len() - 1 - k1 > fj);
                        }
                    }
                }
                assert forall|k: int, a: int|
                    #![trigger dep_edge(*hir, a, order@[k].0 as int)]
                    0 <= k < order@.len() && dep_edge(*hir, a, order@[k].0 as int)
                        implies exists|kk: int| 0 <= kk < k && (#[trigger] order@[kk]).0 as int
                    == a by {
                    if k < ord_pre.len() {
                        assert(order@[k] == ord_pre[k]);
                        assert(dep_edge(*hir, a, ord_pre[k].0 as int));
                        let kk = choose|kk: int|
                            0 <= kk < k && (#[trigger] ord_pre[kk]).0 as int == a;
                        assert(order@[kk].0 as int == a);
                    } else {
                        assert(order@[k].0 == id);
                        assert(order@[k].0 as int == fseq[fj as int] as int);
                        assert(dep_edge(*hir, a, fseq[fj as int] as int));
                        assert(emitted0[a]);
                        assert(0 <= a < n) by {
                            assert(hir.types.has(a));
                        }
                        let kk = choose|kk: int|
                            0 <= kk < order0.len() && (#[trigger] order0[kk]).0 as int == a;
                        assert(order@[kk].0 as int == a);
                    }
                }
            }
        }
        proof {
            lemma_count_true_le(emitted@);
            assert(count_true(emitted@) == count_true(emitted0) + fseq.len());
            assert forall|i2: int|
                0 <= i2 < n implies ((#[trigger] emitted@[i2]) == exists|k: int|
                0 <= k < order@.len() && (#[trigger] order@[k]).0 as int == i2) by {
                if emitted@[i2] {
                    if emitted0[i2] {
                        let k = choose|k: int|
                            0 <= k < order0.len() && (#[trigger] order0[k]).0 as int == i2;
                        assert(order@[k].0 as int == i2);
                    } else {
                        let x = choose|x: int|
                            0 <= x < fseq.len() && (#[trigger] fseq[x]) as int == i2;
                        let k = order0.len() + fseq.len() - 1 - x;
                        assert(order@[k].0 == fseq[order0.len() + fseq.len() - 1 - k]);
                        assert(order@[k].0 as int == i2);
                    }
                }
                if exists|k: int| 0 <= k < order@.len() && (#[trigger] order@[k]).0 as int == i2 {
                    let k = choose|k: int|
                        0 <= k < order@.len() && (#[trigger] order@[k]).0 as int == i2;
                    if k < order0.len() {
                        assert(order0[k].0 as int == i2);
                        assert(emitted0[i2]);
                    } else {
                        assert(order@[k].0 == fseq[order0.len() + fseq.len() - 1 - k]);
                    }
                }
            }
        }
    }
    // every user-declared type must have been scheduled; anything left sits
    // on a cycle
    let mut names: Vec<String> = Vec::new();
    let ghost mut rem: Seq<int> = Seq::empty();
    let mut mi: usize = 0;
    proof {
        reveal(remainder_complete);
        assert(remainder_complete(*hir, emitted@, rem, 0));
    }
    while mi < n
        invariant
            hir.wf(),
            hir.symbols@.len() < 0xFFFF_FFFEusize,
            n == hir.types.entries@.len(),
            emitted@.len() == n,
            0 <= mi <= n,
            rem.len() == names@.len(),
            forall|x: int| 0 <= x < rem.len() ==> 0 <= #[trigger] rem[x] < mi,
            forall|x: int| 0 <= x < rem.len() ==> is_user_type(*hir, #[trigger] rem[x]),
            forall|x: int| 0 <= x < rem.len() ==> !emitted@[#[trigger] rem[x]],
            forall|x: int, y: int| 0 <= x < y < rem.len() ==> rem[x] < rem[y],
            forall|x: int| 0 <= x < rem.len() ==> (#[trigger] names@[x])@ == hir.symbols@[rem[x]],
            remainder_complete(*hir, emitted@, rem, mi as int),
        decreases n - mi,
    {
        let ghost rem_pre = rem;
        if !emitted[mi] {
            let is_user = match hir.types.get(SymbolId(mi as u32)) {
                Some(t) => t.is_message() || t.is_bitfield(),
                None => false,
            };
            if is_user {
                let name = match hir.symbols.get(SymbolId(mi as u32)) {
                    Some(s) => s.to_owned(),
                    None => {
                        proof {
                            assert(hir.types.has(mi as int));
                            assert(false);
                        }
                        String::new()
                    },
                };
                names.push(name);
                proof {
                    rem = rem.push(mi as int);
                }
            }
            proof {
                if is_user_type(*hir, mi as int) {
                    assert(is_user);
                    assert(rem[rem.len() - 1] == mi as int);
                }
            }
        }
        proof {
            reveal(remainder_complete);
            assert forall|ii: int|
                0 <= ii < mi + 1 && is_user_type(*hir, ii) && !emitted@[ii] implies exists|x: int|
                0 <= x < rem.len() && rem[x] == ii by {
                if ii < mi {
                    let x = choose|x: int| 0 <= x < rem_pre.len() && rem_pre[x] == ii;
                    assert(rem[x] == ii);
                }
            }
            assert(remainder_complete(*hir, emitted@, rem, mi + 1));
        }
        mi = mi + 1;
    }
    if names.len() == 0 {
        proof {
            lemma_order_complete(*hir, order@, emitted@, rem);
            assert(valid_order(*hir, order@));
            assert(exists|o: Seq<SymbolId>| valid_order(*hir, o));
            assert(forall|k: int|
                0 <= k < order@.len() ==> is_user_type(*hir, (#[trigger] order@[k]).0 as int));
            assert(forall|k1: int, k2: int|
                0 <= k1 < k2 < order@.len() ==> order@[k1].0 != order@[k2].0);
            assert(forall|i: int|
                is_user_type(*hir, i) ==> exists|k: int|
                    0 <= k < order@.len() && (#[trigger] order@[k]).0 as int == i);
            assert(forall|k: int, a: int|
                #![trigger dep_edge(*hir, a, order@[k].0 as int)]
                0 <= k < order@.len() && dep_edge(*hir, a, order@[k].0 as int) ==> exists|kk: int|
                    0 <= kk < k && (#[trigger] order@[kk]).0 as int == a);
        }
        Ok(order)
    } else {
        proof {
            lemma_order_cyclic(*hir, emitted@, rem, names@);
            assert(cycle_report_ok(*hir, names@));
            assert(!exists|o: Seq<SymbolId>| valid_order(*hir, o)) by {
                if exists|o: Seq<SymbolId>| valid_order(*hir, o) {
                    let o = choose|o: Seq<SymbolId>| valid_order(*hir, o);
                    lemma_cycle_blocks_order(*hir, rem, names@, o);
                }
            }
        }
        Err(CompileError::CyclicDependency(names))
    }
}



/// A nonempty leftover of a stalled frontier is a genuine cycle report:
/// every type in it waits on another type in it.
#[verifier::rlimit(100)]
proof fn lemma_order_cyclic(h: Hir, emitted: Seq<bool>, rem: Seq<int>, names: Seq<String>)
    requires
        emitted.len() == h.types.entries@.len(),
        frontier_stalled(h, emitted),
        rem.len() == names.len(),
        rem.len() > 0,
        forall|x: int| 0 <= x < rem.len() ==> 0 <= #[trigger] rem[x] < emitted.len(),
        forall|x: int| 0 <= x < rem.len() ==> is_user_type(h, #[trigger] rem[x]),
        forall|x: int| 0 <= x < rem.len() ==> !emitted[#[trigger] rem[x]],
        forall|x: int, y: int| 0 <= x < y < rem.len() ==> rem[x] < rem[y],
        forall|x: int| 0 <= x < rem.len() ==> (#[trigger] names[x])@ == h.symbols@[rem[x]],
        remainder_complete(h, emitted, rem, emitted.len() as int),
    ensures
        cyclic_remainder(h, rem, names),
{
    assert forall|x: int| 0 <= x < rem.len() implies #[trigger] waits_on_some(h, rem, x) by {
        assert(is_user_type(h, rem[x]));
        assert(exists|a: int|
            0 <= a < emitted.len() && dep_edge(h, a, rem[x]) && !emitted[a]);
        let a = choose|a: int| 0 <= a < emitted.len() && dep_edge(h, a, rem[x]) && !emitted[a];
        assert(is_user_type(h, a));
        assert(exists|y: int| 0 <= y < rem.len() && rem[y] == a) by {
            reveal(remainder_complete);
        }
        let y = choose|y: int| 0 <= y < rem.len() && rem[y] == a;
        assert(dep_edge(h, rem[y], rem[x]));
    }
    assert(remainder_waits(h, rem));
}


/// No valid order can schedule a type of a waiting remainder: its
/// dependency inside the remainder would need an ever-earlier position.
proof fn lemma_blocked_at(h: Hir, rem: Seq<int>, ord: Seq<SymbolId>, k: int)
    requires
        forall|x: int| 0 <= x < rem.len() ==> is_user_type(h, #[trigger] rem[x]),
        remainder_waits(h, rem),
        0 <= k < ord.len(),
    ensures
        !(valid_order(h, ord) && exists|x: int|
            0 <= x < rem.len() && #[trigger] rem[x] == ord[k].0 as int),
    decreases k,
{
    if valid_order(h, ord) && (exists|x: int|
        0 <= x < rem.len() && #[trigger] rem[x] == ord[k].0 as int) {
        let x = choose|x: int| 0 <= x < rem.len() && #[trigger] rem[x] == ord[k].0 as int;
        assert(waits_on_some(h, rem, x));
        let y = choose|y: int| 0 <= y < rem.len() && dep_edge(h, rem[y], rem[x]);
        assert(dep_edge(h, rem[y], ord[k].0 as int));
        let kk = choose|kk: int| 0 <= kk < k && (#[trigger] ord[kk]).0 as int == rem[y];
        assert(rem[y] == ord[kk].0 as int);
        lemma_blocked_at(h, rem, ord, kk);
        assert(exists|x2: int| 0 <= x2 < rem.len() && #[trigger] rem[x2] == ord[kk].0 as int)
            by {
            assert(rem[y] == ord[kk].0 as int);
        }
    }
}

/// A cycle report refutes every candidate order: the remainder's types can
/// never all be scheduled.
pub proof fn lemma_cycle_blocks_order(h: Hir, rem: Seq<int>, names: Seq<String>, ord: Seq<
    SymbolId,
>)
    requires
        cyclic_remainder(h, rem, names),
    ensures
        !valid_order(h, ord),
{
    if valid_order(h, ord) {
        assert(is_user_type(h, rem[0]));
        let k = choose|k: int| 0 <= k < ord.len() && (#[trigger] ord[k]).0 as int == rem[0];
        lemma_blocked_at(h, rem, ord, k);
        assert(exists|x: int| 0 <= x < rem.len() && #[trigger] rem[x] == ord[k].0 as int) by {
            assert(rem[0] == ord[k].0 as int);
        }
    }
}

/// With nothing left over, the order holds every user-declared type.
proof fn lemma_order_complete(h: Hir, order: Seq<SymbolId>, emitted: Seq<bool>, rem: Seq<int>)
    requires
        emitted.len() == h.types.entries@.len(),
        forall|i: int|
            0 <= i < emitted.len() ==> ((#[trigger] emitted[i]) == exists|k: int|
                0 <= k < order.len() && (#[trigger] order[k]).0 as int == i),
        remainder_complete(h, emitted, rem, emitted.len() as int),
        rem.len() == 0,
    ensures
        forall|i: int|
            #![trigger is_user_type(h, i)]
            is_user_type(h, i) ==> exists|k: int|
                0 <= k < order.len() && (#[trigger] order[k]).0 as int == i,
{
    assert forall|i: int| is_user_type(h, i) implies exists|k: int|
        0 <= k < order.len() && (#[trigger] order[k]).0 as int == i by {
        assert(0 <= i < emitted.len()) by {
            assert(h.types.has(i));
        }
        if !emitted[i] {
            assert(exists|x: int| 0 <= x < rem.len() && rem[x] == i) by {
                reveal(remainder_complete);
            }
            let x = choose|x: int| 0 <= x < rem.len() && rem[x] == i;
            assert(false);
        }
    }
}

} // verus!
