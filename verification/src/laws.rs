use vstd::prelude::*;

use crate::alphabet::{lemma_name_of_injective, name_of};
use crate::error::LambdaError;
use crate::hygiene::{alpha_opt, alpha_v, hygiene_tables, set_map_v, tables_bounded};
use crate::parse::{
    collect_items_v, fold_apps_v, fold_items_v, items_of_tokens, parse_level_v, parse_symbols,
    run_len, scan_v, ItemV, ScanStV, TokenV,
};
use crate::reduce::{can_step, evaluate_v, run_v};
use crate::term::{no_marks, plain_params, term_size, LambdaV};

verus! {

/// Every entry of `m` is kept in `big`, scope by scope.
spec fn sub_tables(m: Seq<Map<Seq<char>, nat>>, big: Seq<Map<Seq<char>, nat>>) -> bool {
    &&& m.len() <= big.len()
    &&& forall|j: int, k: Seq<char>|
        0 <= j < m.len() && (#[trigger] m[j].contains_key(k)) ==> big[j].contains_key(k)
            && big[j][k] == m[j][k]
}

/// No two entries, in any scopes, share an index.
spec fn tables_inj(m: Seq<Map<Seq<char>, nat>>) -> bool {
    forall|j1: int, k1: Seq<char>, j2: int, k2: Seq<char>|
        0 <= j1 < m.len() && 0 <= j2 < m.len() && (#[trigger] m[j1].contains_key(k1)) && (
        #[trigger] m[j2].contains_key(k2)) && (j1 != j2 || k1 != k2) ==> m[j1][k1] != m[j2][k2]
}

/// The single table of the repeated pass holds exactly the canonical name
/// of each index the first pass assigned, mapped back to that index.
spec fn table_coupled(m: Seq<Map<Seq<char>, nat>>, m1: Map<Seq<char>, nat>) -> bool {
    &&& forall|j: int, k: Seq<char>|
        0 <= j < m.len() && (#[trigger] m[j].contains_key(k)) ==> m1.contains_key(
            name_of(m[j][k]),
        ) && m1[name_of(m[j][k])] == m[j][k]
    &&& forall|k2: Seq<char>|
        (#[trigger] m1.contains_key(k2)) ==> exists|j: int, k: Seq<char>|
            0 <= j < m.len() && (#[trigger] m[j].contains_key(k)) && name_of(m[j][k]) == k2
                && m1[k2] == m[j][k]
}

/// The index-assignment pass keeps every existing entry, adds only entries
/// with indices at or above its counter, and so preserves injectivity.
proof fn lemma_set_map_extends(t: LambdaV, m: Seq<Map<Seq<char>, nat>>, i: nat, al: int, al_in: nat)
    requires
        0 <= al < m.len(),
        m.len() == al_in + 1,
    ensures
        ({
            let r = set_map_v(t, m, i, al, al_in);
            &&& sub_tables(m, r.0)
            &&& forall|j: int, k: Seq<char>|
                0 <= j < r.0.len() && (#[trigger] r.0[j].contains_key(k)) && !(j < m.len()
                    && m[j].contains_key(k)) ==> i <= r.0[j][k] < r.1
            &&& (tables_inj(m) && tables_bounded(m, i) ==> tables_inj(r.0))
        }),
    decreases t,
{
    crate::hygiene::lemma_set_map_v_growth(t, m, i, al, al_in);
    match t {
        LambdaV::Variable(a) => {
            if !m[al].contains_key(a) {
                let m2 = m.update(al, m[al].insert(a, i));
                assert(sub_tables(m, m2));
                if tables_inj(m) && tables_bounded(m, i) {
                    assert forall|j1: int, k1: Seq<char>, j2: int, k2: Seq<char>|
                        0 <= j1 < m2.len() && 0 <= j2 < m2.len() && (#[trigger] m2[j1].contains_key(k1)) && (#[trigger] m2[j2].contains_key(k2)) && (j1 != j2
                        || k1 != k2) implies m2[j1][k1] != m2[j2][k2] by {
                        if j1 == al && k1 == a {
                            if !(j2 == al && k2 == a) {
                                assert(m[j2].contains_key(k2));
                            }
                        } else {
                            assert(m[j1].contains_key(k1));
                            if !(j2 == al && k2 == a) {
                                assert(m[j2].contains_key(k2));
                            }
                        }
                    }
                }
            }
        },
        LambdaV::Func(a, b) => {
            let m1 = match *a {
                LambdaV::Variable(c) => if m[al].contains_key(c) {
                    m
                } else {
                    m.update(al, m[al].insert(c, i))
                },
                _ => m,
            };
            assert(sub_tables(m, m1));
            lemma_set_map_extends(*b, m1, i + 1, al, al_in);
            if tables_inj(m) && tables_bounded(m, i) {
                assert(tables_inj(m1)) by {
                    assert forall|j1: int, k1: Seq<char>, j2: int, k2: Seq<char>|
                        0 <= j1 < m1.len() && 0 <= j2 < m1.len() && (#[trigger] m1[j1].contains_key(k1)) && (#[trigger] m1[j2].contains_key(k2)) && (j1 != j2
                        || k1 != k2) implies m1[j1][k1] != m1[j2][k2] by {
                        match *a {
                            LambdaV::Variable(c) => {
                                if !m[al].contains_key(c) {
                                    if !(j1 == al && k1 == c) {
                                        assert(m[j1].contains_key(k1));
                                    }
                                    if !(j2 == al && k2 == c) {
                                        assert(m[j2].contains_key(k2));
                                    }
                                }
                            },
                            _ => {},
                        }
                    }
                }
                assert(tables_bounded(m1, i + 1)) by {
                    assert forall|j: int, k: Seq<char>|
                        0 <= j < m1.len() && (#[trigger] m1[j].contains_key(k)) implies m1[j][k]
                        < i + 1 by {
                        if m[j].contains_key(k) {
                        }
                    }
                }
            }
            let r = set_map_v(t, m, i, al, al_in);
            crate::hygiene::lemma_set_map_v_growth(*b, m1, i + 1, al, al_in);
            assert(r == set_map_v(*b, m1, i + 1, al, al_in));
            assert(sub_tables(m, r.0)) by {
                assert forall|j: int, k: Seq<char>|
                    0 <= j < m.len() && (#[trigger] m[j].contains_key(k)) implies r.0[
                    j].contains_key(k) && r.0[j][k] == m[j][k] by {
                    assert(m1[j].contains_key(k));
                }
            }
            assert forall|j: int, k: Seq<char>|
                0 <= j < r.0.len() && (#[trigger] r.0[j].contains_key(k)) && !(j < m.len() && m[
                j].contains_key(k)) implies i <= r.0[j][k] < r.1 by {
                if j < m1.len() && m1[j].contains_key(k) {
                    assert(r.0[j][k] == m1[j][k]);
                }
            }
        },
        LambdaV::Reducible(a, b) => {
            lemma_set_map_extends(*a, m, i, al, al_in);
            crate::hygiene::lemma_set_map_v_growth(*a, m, i, al, al_in);
            let r1 = set_map_v(*a, m, i, al, al_in);
            if tables_inj(m) && tables_bounded(m, i) {
                crate::hygiene::lemma_set_map_v_bounded(*a, m, i, al, al_in);
            }
            lemma_set_map_extends(*b, r1.0, r1.1, al, r1.2);
            let r = set_map_v(t, m, i, al, al_in);
            crate::hygiene::lemma_set_map_v_growth(*b, r1.0, r1.1, al, r1.2);
            assert(r == set_map_v(*b, r1.0, r1.1, al, r1.2));
            assert(sub_tables(m, r.0)) by {
                assert forall|j: int, k: Seq<char>|
                    0 <= j < m.len() && (#[trigger] m[j].contains_key(k)) implies r.0[
                    j].contains_key(k) && r.0[j][k] == m[j][k] by {
                    assert(r1.0[j].contains_key(k));
                }
            }
            assert forall|j: int, k: Seq<char>|
                0 <= j < r.0.len() && (#[trigger] r.0[j].contains_key(k)) && !(j < m.len() && m[
                j].contains_key(k)) implies i <= r.0[j][k] < r.1 by {
                if j < r1.0.len() && r1.0[j].contains_key(k) {
                    assert(r.0[j][k] == r1.0[j][k]);
                }
            }
        },
        LambdaV::AlphaMark(a) => {
            let m2 = m.push(Map::<Seq<char>, nat>::empty());
            assert(sub_tables(m, m2));
            lemma_set_map_extends(*a, m2, i, al_in + 1 as int, al_in + 1);
            if tables_inj(m) && tables_bounded(m, i) {
                assert(tables_inj(m2)) by {
                    assert forall|j1: int, k1: Seq<char>, j2: int, k2: Seq<char>|
                        0 <= j1 < m2.len() && 0 <= j2 < m2.len() && (#[trigger] m2[j1].contains_key(k1)) && (#[trigger] m2[j2].contains_key(k2)) && (j1 != j2
                        || k1 != k2) implies m2[j1][k1] != m2[j2][k2] by {
                        assert(j1 < m.len() && j2 < m.len());
                    }
                }
                assert(tables_bounded(m2, i)) by {
                    assert forall|j: int, k: Seq<char>|
                        0 <= j < m2.len() && (#[trigger] m2[j].contains_key(k)) implies m2[j][k]
                        < i by {
                        assert(j < m.len());
                    }
                }
            }
            let r = set_map_v(t, m, i, al, al_in);
            assert(r == set_map_v(*a, m2, i, al_in + 1 as int, al_in + 1));
            assert(sub_tables(m, r.0)) by {
                assert forall|j: int, k: Seq<char>|
                    0 <= j < m.len() && (#[trigger] m[j].contains_key(k)) implies r.0[
                    j].contains_key(k) && r.0[j][k] == m[j][k] by {
                    assert(m2[j].contains_key(k));
                }
            }
            assert forall|j: int, k: Seq<char>|
                0 <= j < r.0.len() && (#[trigger] r.0[j].contains_key(k)) && !(j < m.len() && m[
                j].contains_key(k)) implies i <= r.0[j][k] < r.1 by {
                if j < m2.len() && m2[j].contains_key(k) {
                    assert(j == m.len());
                    assert(false);
                }
            }
        },
    }
}

/// Containment of entries is transitive across three table stacks.
proof fn lemma_sub_trans(
    a: Seq<Map<Seq<char>, nat>>,
    b: Seq<Map<Seq<char>, nat>>,
    c: Seq<Map<Seq<char>, nat>>,
)
    requires
        sub_tables(a, b),
        sub_tables(b, c),
    ensures
        sub_tables(a, c),
{
    assert forall|j: int, k: Seq<char>|
        0 <= j < a.len() && (#[trigger] a[j].contains_key(k)) implies c[j].contains_key(k)
        && c[j][k] == a[j][k] by {
        assert(b[j].contains_key(k));
    }
}

/// A fresh index inserted on both sides keeps the two passes' tables
/// coupled.
proof fn lemma_coupled_insert(
    m: Seq<Map<Seq<char>, nat>>,
    m1: Map<Seq<char>, nat>,
    al: int,
    a: Seq<char>,
    i: nat,
)
    requires
        0 <= al < m.len(),
        tables_bounded(m, i),
        table_coupled(m, m1),
        !m[al].contains_key(a),
    ensures
        !m1.contains_key(name_of(i)),
        table_coupled(m.update(al, m[al].insert(a, i)), m1.insert(name_of(i), i)),
{
    if m1.contains_key(name_of(i)) {
        let (j, k): (int, Seq<char>) = choose|j: int, k: Seq<char>|
            0 <= j < m.len() && (#[trigger] m[j].contains_key(k)) && name_of(m[j][k]) == name_of(i)
                && m1[name_of(i)] == m[j][k];
        lemma_name_of_injective(m[j][k], i);
    }
    let m2 = m.update(al, m[al].insert(a, i));
    let m3 = m1.insert(name_of(i), i);
    assert forall|j: int, k: Seq<char>|
        0 <= j < m2.len() && (#[trigger] m2[j].contains_key(k)) implies m3.contains_key(
        name_of(m2[j][k]),
    ) && m3[name_of(m2[j][k])] == m2[j][k] by {
        if j == al && k == a {
        } else {
            assert(m[j].contains_key(k));
            assert(m2[j][k] == m[j][k]);
            if name_of(m[j][k]) == name_of(i) {
                lemma_name_of_injective(m[j][k], i);
            }
        }
    }
    assert forall|k2: Seq<char>| #[trigger] m3.contains_key(k2) implies exists|j: int, k: Seq<char>|
        0 <= j < m2.len() && (#[trigger] m2[j].contains_key(k)) && name_of(m2[j][k]) == k2
            && m3[k2] == m2[j][k] by {
        if k2 == name_of(i) {
            assert(m2[al].contains_key(a) && name_of(m2[al][a]) == k2 && m3[k2] == m2[al][a]);
        } else {
            let (j, k): (int, Seq<char>) = choose|j: int, k: Seq<char>|
                0 <= j < m.len() && (#[trigger] m[j].contains_key(k)) && name_of(m[j][k]) == k2
                    && m1[k2] == m[j][k];
            if j == al && k == a {
                assert(false);
            }
            assert(m2[j].contains_key(k) && m2[j][k] == m[j][k]);
        }
    }
}

/// A fresh empty scope changes no coupling.
proof fn lemma_coupled_push(m: Seq<Map<Seq<char>, nat>>, m1: Map<Seq<char>, nat>)
    requires
        table_coupled(m, m1),
    ensures
        table_coupled(m.push(Map::empty()), m1),
{
    let m2 = m.push(Map::<Seq<char>, nat>::empty());
    assert forall|j: int, k: Seq<char>|
        0 <= j < m2.len() && (#[trigger] m2[j].contains_key(k)) implies m1.contains_key(
        name_of(m2[j][k]),
    ) && m1[name_of(m2[j][k])] == m2[j][k] by {
        if j < m.len() {
            assert(m[j].contains_key(k));
        } else {
            assert(m2[j] == Map::<Seq<char>, nat>::empty());
        }
    }
    assert forall|k2: Seq<char>| #[trigger] m1.contains_key(k2) implies exists|j: int, k: Seq<char>|
        0 <= j < m2.len() && (#[trigger] m2[j].contains_key(k)) && name_of(m2[j][k]) == k2
            && m1[k2] == m2[j][k] by {
        let (j, k): (int, Seq<char>) = choose|j: int, k: Seq<char>|
            0 <= j < m.len() && (#[trigger] m[j].contains_key(k)) && name_of(m[j][k]) == k2
                && m1[k2] == m[j][k];
        assert(m2[j].contains_key(k) && m2[j][k] == m[j][k]);
    }
}

/// The coupling between the first hygiene pass and a repeated pass on its
/// output: walking the renamed term assigns every name the same index in
/// lockstep, and leaves the tables coupled.
proof fn lemma_pass_coupled(
    t: LambdaV,
    m: Seq<Map<Seq<char>, nat>>,
    i: nat,
    al: int,
    al_in: nat,
    big: Seq<Map<Seq<char>, nat>>,
    m1: Map<Seq<char>, nat>,
)
    requires
        plain_params(t),
        0 <= al < m.len(),
        m.len() == al_in + 1,
        tables_inj(m),
        tables_bounded(m, i),
        table_coupled(m, m1),
        sub_tables(set_map_v(t, m, i, al, al_in).0, big),
        alpha_v(t, big, al, al_in) is Some,
    ensures
        ({
            let r = set_map_v(t, m, i, al, al_in);
            match alpha_v(t, big, al, al_in) {
                Some(p) => {
                    let r1 = set_map_v(p.0, seq![m1], i, 0, 0);
                    &&& no_marks(p.0)
                    &&& plain_params(p.0)
                    &&& p.1 == r.2
                    &&& r1.1 == r.1
                    &&& r1.2 == 0
                    &&& r1.0 =~= seq![r1.0[0]]
                    &&& table_coupled(r.0, r1.0[0])
                },
                None => false,
            }
        }),
    decreases t,
{
    lemma_set_map_extends(t, m, i, al, al_in);
    crate::hygiene::lemma_set_map_v_growth(t, m, i, al, al_in);
    lemma_sub_trans(m, set_map_v(t, m, i, al, al_in).0, big);
    let r = set_map_v(t, m, i, al, al_in);
    match t {
        LambdaV::Variable(a) => {
            let u = LambdaV::Variable(name_of(big[al][a]));
            if m[al].contains_key(a) {
                let v = m[al][a];
                assert(big[al][a] == v);
                assert(m1.contains_key(name_of(v)));
                assert(set_map_v(u, seq![m1], i, 0, 0) == (seq![m1], i, 0nat)) by {
                    assert(seq![m1][0] == m1);
                }
            } else {
                assert(r.0[al].contains_key(a) && r.0[al][a] == i);
                assert(big[al].contains_key(a) && big[al][a] == i);
                lemma_coupled_insert(m, m1, al, a, i);
                assert(seq![m1][0] == m1);
                let m3 = m1.insert(name_of(i), i);
                assert(seq![m1].update(0, m3) =~= seq![m3]);
            }
        },
        LambdaV::Func(a, b) => {
            let c = (*a)->Variable_0;
            assert(*a == LambdaV::Variable(c));
            let pa = alpha_v(*a, big, al, al_in)->Some_0;
            assert(big[al].contains_key(c));
            assert(pa == (LambdaV::Variable(name_of(big[al][c])), al_in));
            if m[al].contains_key(c) {
                let v = m[al][c];
                assert(big[al][c] == v);
                assert(m1.contains_key(name_of(v)));
                lemma_pass_coupled(*b, m, i + 1, al, al_in, big, m1);
                let pb = alpha_v(*b, big, al, al_in)->Some_0;
                let u = LambdaV::Func(
                    Box::new(LambdaV::Variable(name_of(big[al][c]))),
                    Box::new(pb.0),
                );
                assert(alpha_v(t, big, al, al_in)->Some_0.0 == u);
                assert(no_marks(LambdaV::Variable(name_of(big[al][c]))));
                assert(no_marks(u));
                assert(plain_params(u));
                assert(set_map_v(u, seq![m1], i, 0, 0) == set_map_v(pb.0, seq![m1], i + 1, 0, 0))
                    by {
                    assert(seq![m1][0] == m1);
                }
            } else {
                let m2 = m.update(al, m[al].insert(c, i));
                assert(r == set_map_v(*b, m2, i + 1, al, al_in));
                lemma_set_map_extends(*b, m2, i + 1, al, al_in);
                lemma_sub_trans(m2, set_map_v(*b, m2, i + 1, al, al_in).0, big);
                assert(m2[al].contains_key(c) && m2[al][c] == i);
                assert(big[al].contains_key(c) && big[al][c] == i);
                lemma_coupled_insert(m, m1, al, c, i);
                let m3 = m1.insert(name_of(i), i);
                assert(tables_inj(m2)) by {
                    assert forall|j1: int, k1: Seq<char>, j2: int, k2: Seq<char>|
                        0 <= j1 < m2.len() && 0 <= j2 < m2.len() && (#[trigger] m2[j1].contains_key(
                            k1,
                        )) && (#[trigger] m2[j2].contains_key(k2)) && (j1 != j2 || k1 != k2)
                        implies m2[j1][k1] != m2[j2][k2] by {
                        if !(j1 == al && k1 == c) {
                            assert(m[j1].contains_key(k1));
                        }
                        if !(j2 == al && k2 == c) {
                            assert(m[j2].contains_key(k2));
                        }
                    }
                }
                assert(tables_bounded(m2, i + 1)) by {
                    assert forall|j: int, k: Seq<char>|
                        0 <= j < m2.len() && (#[trigger] m2[j].contains_key(k)) implies m2[j][k] < i
                        + 1 by {
                        if !(j == al && k == c) {
                            assert(m[j].contains_key(k));
                        }
                    }
                }
                lemma_pass_coupled(*b, m2, i + 1, al, al_in, big, m3);
                let pb = alpha_v(*b, big, al, al_in)->Some_0;
                let u = LambdaV::Func(
                    Box::new(LambdaV::Variable(name_of(big[al][c]))),
                    Box::new(pb.0),
                );
                assert(alpha_v(t, big, al, al_in)->Some_0.0 == u);
                assert(no_marks(LambdaV::Variable(name_of(big[al][c]))));
                assert(no_marks(u));
                assert(plain_params(u));
                assert(seq![m1][0] == m1);
                assert(seq![m1].update(0, m3) =~= seq![m3]);
                assert(set_map_v(u, seq![m1], i, 0, 0) == set_map_v(pb.0, seq![m3], i + 1, 0, 0));
            }
        },
        LambdaV::Reducible(a, b) => {
            let ra = set_map_v(*a, m, i, al, al_in);
            lemma_set_map_extends(*a, m, i, al, al_in);
            crate::hygiene::lemma_set_map_v_growth(*a, m, i, al, al_in);
            crate::hygiene::lemma_set_map_v_bounded(*a, m, i, al, al_in);
            lemma_set_map_extends(*b, ra.0, ra.1, al, ra.2);
            lemma_sub_trans(ra.0, set_map_v(*b, ra.0, ra.1, al, ra.2).0, big);
            lemma_pass_coupled(*a, m, i, al, al_in, big, m1);
            let pa = alpha_v(*a, big, al, al_in)->Some_0;
            let r1a = set_map_v(pa.0, seq![m1], i, 0, 0);
            let m1a = r1a.0[0];
            lemma_pass_coupled(*b, ra.0, ra.1, al, ra.2, big, m1a);
            let pb = alpha_v(*b, big, al, pa.1)->Some_0;
            assert(r1a.0 =~= seq![m1a]);
            let u = LambdaV::Reducible(Box::new(pa.0), Box::new(pb.0));
            assert(alpha_v(t, big, al, al_in)->Some_0.0 == u);
            assert(no_marks(u));
            assert(plain_params(u));
            assert(set_map_v(u, seq![m1], i, 0, 0) == set_map_v(pb.0, seq![m1a], ra.1, 0, 0)) by {
                assert(set_map_v(pa.0, seq![m1], i, 0, 0).0 == seq![m1a]);
            }
        },
        LambdaV::AlphaMark(a) => {
            let m2 = m.push(Map::<Seq<char>, nat>::empty());
            assert(tables_inj(m2)) by {
                assert forall|j1: int, k1: Seq<char>, j2: int, k2: Seq<char>|
                    0 <= j1 < m2.len() && 0 <= j2 < m2.len() && (#[trigger] m2[j1].contains_key(k1))
                    && (#[trigger] m2[j2].contains_key(k2)) && (j1 != j2 || k1 != k2) implies m2[j1][k1]
                    != m2[j2][k2] by {
                    assert(j1 < m.len() && j2 < m.len());
                }
            }
            assert(tables_bounded(m2, i)) by {
                assert forall|j: int, k: Seq<char>|
                    0 <= j < m2.len() && (#[trigger] m2[j].contains_key(k)) implies m2[j][k]
                    < i by {
                    assert(j < m.len());
                }
            }
            lemma_coupled_push(m, m1);
            lemma_pass_coupled(*a, m2, i, al_in + 1 as int, al_in + 1, big, m1);
        },
    }
}

/// Renaming a renamed term through a coupled table changes nothing: every
/// canonical name maps back to the index it spells.
proof fn lemma_rename_coupled(
    t: LambdaV,
    big: Seq<Map<Seq<char>, nat>>,
    al: int,
    al_in: nat,
    m1: Map<Seq<char>, nat>,
    z: nat,
)
    requires
        alpha_v(t, big, al, al_in) is Some,
        table_coupled(big, m1),
    ensures
        match alpha_v(t, big, al, al_in) {
            Some(p) => alpha_v(p.0, seq![m1], 0, z) == Some((p.0, z)),
            None => true,
        },
    decreases t,
{
    let p = alpha_v(t, big, al, al_in)->Some_0;
    assert(seq![m1][0] == m1);
    match t {
        LambdaV::Variable(a) => {
            let v = big[al][a];
            assert(big[al].contains_key(a));
            assert(m1.contains_key(name_of(v)) && m1[name_of(v)] == v);
            assert(p.0 == LambdaV::Variable(name_of(v)));
        },
        LambdaV::Func(a, b) => {
            let pa = alpha_v(*a, big, al, al_in)->Some_0;
            let pb = alpha_v(*b, big, al, pa.1)->Some_0;
            lemma_rename_coupled(*a, big, al, al_in, m1, z);
            lemma_rename_coupled(*b, big, al, pa.1, m1, z);
            assert(p.0 == LambdaV::Func(Box::new(pa.0), Box::new(pb.0)));
        },
        LambdaV::Reducible(a, b) => {
            let pa = alpha_v(*a, big, al, al_in)->Some_0;
            let pb = alpha_v(*b, big, al, pa.1)->Some_0;
            lemma_rename_coupled(*a, big, al, al_in, m1, z);
            lemma_rename_coupled(*b, big, al, pa.1, m1, z);
            assert(p.0 == LambdaV::Reducible(Box::new(pa.0), Box::new(pb.0)));
        },
        LambdaV::AlphaMark(a) => {
            lemma_rename_coupled(*a, big, al_in + 1 as int, al_in + 1, m1, z);
        },
    }
}

/// The hygiene pass is deterministic and stable: renaming a term it has
/// already renamed yields that term again, names and all, for every term
/// whose abstractions bind plain variables, as all parsed terms do.
pub proof fn lemma_hygiene_idempotent(t: LambdaV)
    requires
        plain_params(t),
    ensures
        match alpha_opt(t) {
            Some(u) => alpha_opt(u) == Some(u),
            None => true,
        },
{
    if alpha_opt(t) is Some {
        let m0 = seq![Map::<Seq<char>, nat>::empty()];
        let big = hygiene_tables(t);
        let empty1 = Map::<Seq<char>, nat>::empty();
        assert(tables_inj(m0)) by {
            assert forall|j1: int, k1: Seq<char>, j2: int, k2: Seq<char>|
                0 <= j1 < m0.len() && 0 <= j2 < m0.len() && (#[trigger] m0[j1].contains_key(k1))
                && (#[trigger] m0[j2].contains_key(k2)) && (j1 != j2 || k1 != k2) implies m0[j1][k1]
                != m0[j2][k2] by {
                assert(false);
            }
        }
        assert(tables_bounded(m0, 0));
        assert(table_coupled(m0, empty1)) by {
            assert forall|j: int, k: Seq<char>|
                0 <= j < m0.len() && (#[trigger] m0[j].contains_key(k)) implies empty1.contains_key(
                name_of(m0[j][k]),
            ) && empty1[name_of(m0[j][k])] == m0[j][k] by {
                assert(false);
            }
        }
        assert(sub_tables(set_map_v(t, m0, 0, 0, 0).0, big));
        lemma_pass_coupled(t, m0, 0, 0, 0, big, empty1);
        let p = alpha_v(t, big, 0, 0)->Some_0;
        let r1 = set_map_v(p.0, seq![empty1], 0, 0, 0);
        assert(hygiene_tables(p.0) == r1.0);
        lemma_rename_coupled(t, big, 0, 0, r1.0[0], 0);
        assert(alpha_v(p.0, seq![r1.0[0]], 0, 0) == Some((p.0, 0nat)));
        assert(alpha_v(p.0, hygiene_tables(p.0), 0, 0) == Some((p.0, 0nat)));
    }
}

/// The hygiene pass keeps a term's shape: its output carries no marks,
/// binds plain variables, and is no larger than its input.
proof fn lemma_alpha_output_props(t: LambdaV, big: Seq<Map<Seq<char>, nat>>, al: int, al_in: nat)
    requires
        plain_params(t),
        alpha_v(t, big, al, al_in) is Some,
    ensures
        ({
            let p = alpha_v(t, big, al, al_in)->Some_0;
            &&& no_marks(p.0)
            &&& plain_params(p.0)
            &&& term_size(p.0) <= term_size(t)
            &&& (no_marks(t) ==> can_step(p.0) == can_step(t))
        }),
    decreases t,
{
    let p = alpha_v(t, big, al, al_in)->Some_0;
    match t {
        LambdaV::Variable(a) => {
            assert(p.0 == LambdaV::Variable(name_of(big[al][a])));
            assert(term_size(p.0) == 1);
            assert(!can_step(p.0));
        },
        LambdaV::Func(a, b) => {
            let pa = alpha_v(*a, big, al, al_in)->Some_0;
            let pb = alpha_v(*b, big, al, pa.1)->Some_0;
            let c = (*a)->Variable_0;
            assert(plain_params(*a));
            lemma_alpha_output_props(*a, big, al, al_in);
            lemma_alpha_output_props(*b, big, al, pa.1);
            assert(pa.0 == LambdaV::Variable(name_of(big[al][c])));
            assert(p.0 == LambdaV::Func(Box::new(pa.0), Box::new(pb.0)));
            assert(term_size(p.0) == 1 + term_size(pa.0) + term_size(pb.0));
            assert(term_size(pa.0) == 1 && term_size(*a) == 1);
            assert(!can_step(p.0));
        },
        LambdaV::Reducible(a, b) => {
            let pa = alpha_v(*a, big, al, al_in)->Some_0;
            let pb = alpha_v(*b, big, al, pa.1)->Some_0;
            lemma_alpha_output_props(*a, big, al, al_in);
            lemma_alpha_output_props(*b, big, al, pa.1);
            assert(p.0 == LambdaV::Reducible(Box::new(pa.0), Box::new(pb.0)));
            assert(term_size(p.0) == 1 + term_size(pa.0) + term_size(pb.0));
            if no_marks(t) {
                assert(no_marks(*a) && no_marks(*b));
                match *a {
                    LambdaV::Func(_, _) => {
                        assert(pa.0 is Func);
                    },
                    LambdaV::Reducible(_, _) => {
                        assert(pa.0 is Reducible);
                        assert(can_step(pa.0) == can_step(*a));
                        assert(can_step(p.0) == can_step(pa.0));
                        assert(can_step(t) == can_step(*a));
                    },
                    LambdaV::Variable(_) => {
                        assert(pa.0 is Variable);
                        assert(!can_step(p.0) && !can_step(t));
                    },
                    LambdaV::AlphaMark(_) => {},
                }
            }
        },
        LambdaV::AlphaMark(a) => {
            lemma_alpha_output_props(*a, big, al_in + 1 as int, al_in + 1);
        },
    }
}

/// Substitution neither introduces marks nor bends a binder.
proof fn lemma_subst_preserves(b: LambdaV, a: LambdaV, sub: LambdaV)
    requires
        no_marks(b),
        no_marks(sub),
        plain_params(b),
        plain_params(sub),
    ensures
        no_marks(crate::reduce::subst_v(b, a, sub)),
        plain_params(crate::reduce::subst_v(b, a, sub)),
    decreases b,
{
    match b {
        LambdaV::Func(c, d) => {
            if a != *d {
                lemma_subst_preserves(*d, a, sub);
            }
        },
        LambdaV::Reducible(c, d) => {
            lemma_subst_preserves(*c, a, sub);
            lemma_subst_preserves(*d, a, sub);
        },
        _ => {},
    }
}

/// One reduction step neither introduces marks nor bends a binder.
proof fn lemma_step_preserves(t: LambdaV)
    requires
        no_marks(t),
        plain_params(t),
    ensures
        no_marks(crate::reduce::step_v(t)),
        plain_params(crate::reduce::step_v(t)),
    decreases t,
{
    match t {
        LambdaV::Reducible(a, b) => {
            assert(no_marks(*a) && plain_params(*a));
            assert(no_marks(*b) && plain_params(*b));
            match *a {
                LambdaV::Func(c, d) => {
                    assert(no_marks(*d) && plain_params(*d));
                    lemma_subst_preserves(*d, *c, *b);
                },
                LambdaV::Reducible(_, _) => {
                    lemma_step_preserves(*a);
                },
                _ => {},
            }
        },
        _ => {},
    }
}

/// Repeated stepping keeps those properties and halts only on a term with
/// no redex.
proof fn lemma_run_preserves(t: LambdaV, fuel: nat)
    requires
        no_marks(t),
        plain_params(t),
    ensures
        match run_v(t, fuel) {
            Some(v) => no_marks(v) && plain_params(v) && !can_step(v),
            None => true,
        },
    decreases fuel,
{
    if can_step(t) && fuel > 0 {
        lemma_step_preserves(t);
        lemma_run_preserves(crate::reduce::step_v(t), (fuel - 1) as nat);
    }
}

/// Evaluation is idempotent: whatever normal form `evaluate` returns,
/// evaluating it again returns it unchanged, under any step budget, for
/// every term whose abstractions bind plain variables.
pub proof fn lemma_evaluate_idempotent(t: LambdaV, fuel: nat, fuel2: nat)
    requires
        plain_params(t),
    ensures
        match evaluate_v(t, fuel) {
            Ok(w) => evaluate_v(w, fuel2) == Ok::<LambdaV, LambdaError>(w),
            Err(_) => true,
        },
{
    if evaluate_v(t, fuel) is Ok {
        let h1 = alpha_opt(t)->Some_0;
        let big0 = hygiene_tables(t);
        lemma_alpha_output_props(t, big0, 0, 0);
        let v = run_v(h1, fuel)->Some_0;
        lemma_run_preserves(h1, fuel);
        let w = alpha_opt(v)->Some_0;
        let big1 = hygiene_tables(v);
        lemma_alpha_output_props(v, big1, 0, 0);
        lemma_hygiene_idempotent(v);
        assert(!can_step(w));
        assert(run_v(w, fuel2) == Some(w));
        assert(alpha_opt(w) == Some(w));
        assert(term_size(w) <= term_size(v));
    }
}


/// On a term whose binders are plain variables, the renaming pass finds
/// every name the index pass recorded: its lookups cannot fail, and its
/// scope counter moves in step with the index pass's.
proof fn lemma_alpha_covered(
    t: LambdaV,
    m: Seq<Map<Seq<char>, nat>>,
    i: nat,
    al: int,
    al_in: nat,
    big: Seq<Map<Seq<char>, nat>>,
)
    requires
        plain_params(t),
        0 <= al < m.len(),
        m.len() == al_in + 1,
        sub_tables(set_map_v(t, m, i, al, al_in).0, big),
    ensures
        ({
            let r = set_map_v(t, m, i, al, al_in);
            match alpha_v(t, big, al, al_in) {
                Some(p) => p.1 == r.2,
                None => false,
            }
        }),
    decreases t,
{
    lemma_set_map_extends(t, m, i, al, al_in);
    crate::hygiene::lemma_set_map_v_growth(t, m, i, al, al_in);
    let r = set_map_v(t, m, i, al, al_in);
    assert(big.len() >= r.0.len() >= m.len());
    assert(al < big.len());
    match t {
        LambdaV::Variable(a) => {
            assert(r.0[al].contains_key(a));
            assert(big[al].contains_key(a));
        },
        LambdaV::Func(a, b) => {
            let c = (*a)->Variable_0;
            assert(*a == LambdaV::Variable(c));
            let m2 = match *a {
                LambdaV::Variable(cc) => if m[al].contains_key(cc) {
                    m
                } else {
                    m.update(al, m[al].insert(cc, i))
                },
                _ => m,
            };
            assert(r == set_map_v(*b, m2, i + 1, al, al_in));
            lemma_set_map_extends(*b, m2, i + 1, al, al_in);
            lemma_sub_trans(m2, set_map_v(*b, m2, i + 1, al, al_in).0, big);
            assert(m2[al].contains_key(c));
            assert(big[al].contains_key(c));
            lemma_alpha_covered(*b, m2, i + 1, al, al_in, big);
            assert(alpha_v(*a, big, al, al_in) == Some(
                (LambdaV::Variable(name_of(big[al][c])), al_in),
            ));
            let pb = alpha_v(*b, big, al, al_in)->Some_0;
            assert(alpha_v(t, big, al, al_in) == Some(
                (LambdaV::Func(Box::new(LambdaV::Variable(name_of(big[al][c]))), Box::new(pb.0)),
                pb.1),
            ));
        },
        LambdaV::Reducible(a, b) => {
            let ra = set_map_v(*a, m, i, al, al_in);
            lemma_set_map_extends(*a, m, i, al, al_in);
            crate::hygiene::lemma_set_map_v_growth(*a, m, i, al, al_in);
            lemma_set_map_extends(*b, ra.0, ra.1, al, ra.2);
            lemma_sub_trans(ra.0, set_map_v(*b, ra.0, ra.1, al, ra.2).0, big);
            assert(r == set_map_v(*b, ra.0, ra.1, al, ra.2));
            lemma_alpha_covered(*a, m, i, al, al_in, big);
            let pa = alpha_v(*a, big, al, al_in)->Some_0;
            assert(pa.1 == ra.2);
            lemma_alpha_covered(*b, ra.0, ra.1, al, ra.2, big);
            let pb = alpha_v(*b, big, al, ra.2)->Some_0;
            assert(alpha_v(t, big, al, al_in) == Some(
                (LambdaV::Reducible(Box::new(pa.0), Box::new(pb.0)), pb.1),
            ));
        },
        LambdaV::AlphaMark(a) => {
            let m2 = m.push(Map::<Seq<char>, nat>::empty());
            assert(r == set_map_v(*a, m2, i, al_in + 1 as int, al_in + 1));
            lemma_alpha_covered(*a, m2, i, al_in + 1 as int, al_in + 1, big);
        },
    }
}

/// The hygiene pass succeeds on every term whose abstractions bind plain
/// variables, as every parsed term does: a lookup failure cannot occur.
pub proof fn lemma_hygiene_total(t: LambdaV)
    requires
        plain_params(t),
    ensures
        alpha_opt(t) is Some,
{
    let m0 = seq![Map::<Seq<char>, nat>::empty()];
    let big = hygiene_tables(t);
    assert(sub_tables(set_map_v(t, m0, 0, 0, 0).0, big));
    lemma_alpha_covered(t, m0, 0, 0, 0, big);
}

/// Evaluation of a term whose abstractions bind plain variables never
/// reports a lookup failure: it returns the normal form, or reports that
/// the term or an intermediate form outgrew the machine counters, or that
/// the step budget ran out.
pub proof fn lemma_evaluate_no_lookup_failure(t: LambdaV, fuel: nat)
    requires
        plain_params(t),
    ensures
        evaluate_v(t, fuel) != Err::<LambdaV, LambdaError>(LambdaError::MapLookupFailure),
{
    lemma_hygiene_total(t);
    if term_size(t) <= usize::MAX {
        let h1 = alpha_opt(t)->Some_0;
        lemma_alpha_output_props(t, hygiene_tables(t), 0, 0);
        match run_v(h1, fuel) {
            Some(v) => {
                lemma_run_preserves(h1, fuel);
                lemma_hygiene_total(v);
            },
            None => {},
        }
    }
}

/// Splice-slot substitution is purely syntactic and order-preserving: the
/// source `{} {}` over the arguments `a`, `b` parses to exactly the
/// application of `a` to `b`, whatever terms `a` and `b` are.
pub proof fn lemma_splice_substitution(a: LambdaV, b: LambdaV)
    ensures
        parse_symbols(seq!['{', '}', ' ', '{', '}'], seq![a, b]) == Ok::<LambdaV, LambdaError>(
            LambdaV::Reducible(Box::new(a), Box::new(b)),
        ),
{
    let s = seq!['{', '}', ' ', '{', '}'];
    let args = seq![a, b];
    // The tokenizer turns the run into splice, placeholder, splice.
    assert(scan_v(s, 5, 5, ScanStV::Normal) == Ok::<Seq<TokenV>, LambdaError>(Seq::empty()));
    assert(seq![TokenV::TSplice] + Seq::<TokenV>::empty() =~= seq![TokenV::TSplice]);
    assert(scan_v(s, 4, 5, ScanStV::SawBrace) == Ok::<Seq<TokenV>, LambdaError>(
        seq![TokenV::TSplice],
    ));
    assert(scan_v(s, 3, 5, ScanStV::Normal) == Ok::<Seq<TokenV>, LambdaError>(
        seq![TokenV::TSplice],
    ));
    assert(seq![TokenV::TApp] + seq![TokenV::TSplice] =~= seq![TokenV::TApp, TokenV::TSplice]);
    assert(scan_v(s, 2, 5, ScanStV::Normal) == Ok::<Seq<TokenV>, LambdaError>(
        seq![TokenV::TApp, TokenV::TSplice],
    ));
    assert(seq![TokenV::TSplice] + seq![TokenV::TApp, TokenV::TSplice] =~= seq![
        TokenV::TSplice,
        TokenV::TApp,
        TokenV::TSplice,
    ]);
    assert(scan_v(s, 1, 5, ScanStV::SawBrace) == Ok::<Seq<TokenV>, LambdaError>(
        seq![TokenV::TSplice, TokenV::TApp, TokenV::TSplice],
    ));
    let toks = seq![TokenV::TSplice, TokenV::TApp, TokenV::TSplice];
    assert(scan_v(s, 0, 5, ScanStV::Normal) == Ok::<Seq<TokenV>, LambdaError>(toks));
    // The splices bind to the supplied arguments in order.
    let items = seq![ItemV::Term(a), ItemV::App, ItemV::Term(b)];
    assert(toks.drop_first() =~= seq![TokenV::TApp, TokenV::TSplice]);
    assert(seq![TokenV::TApp, TokenV::TSplice].drop_first() =~= seq![TokenV::TSplice]);
    assert(seq![TokenV::TSplice].drop_first() =~= Seq::<TokenV>::empty());
    assert(items_of_tokens(Seq::empty(), args, 2) == Ok::<(Seq<ItemV>, nat), LambdaError>(
        (Seq::empty(), 2),
    ));
    assert(seq![ItemV::Term(b)] + Seq::<ItemV>::empty() =~= seq![ItemV::Term(b)]);
    assert(items_of_tokens(seq![TokenV::TSplice], args, 1) == Ok::<
        (Seq<ItemV>, nat),
        LambdaError,
    >((seq![ItemV::Term(b)], 2)));
    assert(seq![ItemV::App] + seq![ItemV::Term(b)] =~= seq![ItemV::App, ItemV::Term(b)]);
    assert(items_of_tokens(seq![TokenV::TApp, TokenV::TSplice], args, 1) == Ok::<
        (Seq<ItemV>, nat),
        LambdaError,
    >((seq![ItemV::App, ItemV::Term(b)], 2)));
    assert(seq![ItemV::Term(a)] + seq![ItemV::App, ItemV::Term(b)] =~= items);
    assert(items_of_tokens(toks, args, 0) == Ok::<(Seq<ItemV>, nat), LambdaError>((items, 2)));
    // The segmenter sees one flat run.
    assert(run_len(s, 5, 5) == 0);
    assert(run_len(s, 4, 5) == 1);
    assert(run_len(s, 3, 5) == 2);
    assert(run_len(s, 2, 5) == 3);
    assert(run_len(s, 1, 5) == 4);
    assert(run_len(s, 0, 5) == 5);
    assert(collect_items_v(s, 5, 5, args, 2) == Ok::<(Seq<ItemV>, nat), LambdaError>(
        (Seq::empty(), 2),
    ));
    assert(items + Seq::<ItemV>::empty() =~= items);
    assert(collect_items_v(s, 0, 5, args, 0) == Ok::<(Seq<ItemV>, nat), LambdaError>((items, 2)));
    // The fold builds the application of `a` to `b`, left to right.
    assert(fold_apps_v(items, 3, Some(LambdaV::Reducible(Box::new(a), Box::new(b))), false)
        == Ok::<LambdaV, LambdaError>(LambdaV::Reducible(Box::new(a), Box::new(b))));
    assert(fold_apps_v(items, 2, Some(a), true) == Ok::<LambdaV, LambdaError>(
        LambdaV::Reducible(Box::new(a), Box::new(b)),
    ));
    assert(fold_apps_v(items, 1, Some(a), false) == Ok::<LambdaV, LambdaError>(
        LambdaV::Reducible(Box::new(a), Box::new(b)),
    ));
    assert(fold_apps_v(items, 0, Option::None, false) == Ok::<LambdaV, LambdaError>(
        LambdaV::Reducible(Box::new(a), Box::new(b)),
    ));
    assert(fold_items_v(items) == Ok::<LambdaV, LambdaError>(
        LambdaV::Reducible(Box::new(a), Box::new(b)),
    ));
    assert(parse_level_v(s, 0, 5, args, 0) == Ok::<(LambdaV, nat), LambdaError>(
        (LambdaV::Reducible(Box::new(a), Box::new(b)), 2),
    ));
}

/// A term that is in normal form and already canonically named evaluates
/// to itself, for any step budget.
pub proof fn lemma_evaluate_fixed_point(t: LambdaV, fuel: nat)
    requires
        !can_step(t),
        alpha_opt(t) == Some(t),
        term_size(t) <= usize::MAX,
    ensures
        evaluate_v(t, fuel) == Ok::<LambdaV, LambdaError>(t),
{
    assert(run_v(t, fuel) == Some(t));
}

} // verus!
