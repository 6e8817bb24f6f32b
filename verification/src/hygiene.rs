use vstd::prelude::*;

use crate::alphabet::{alph_char, alph_char_at, name_digits, name_of};
use crate::error::LambdaError;
use crate::outside::push_char;
use crate::term::{term_size, Lambda, LambdaV};

verus! {

/// One hygiene scope's table, mapping each raw variable name seen in the
/// scope to its assigned index.
pub struct NameTable {
    entries: Vec<(String, usize)>,
}

/// The map read off an entry list, later entries winning; the pass only
/// ever inserts absent names, so entries never collide.
spec fn entries_map(s: Seq<(String, usize)>) -> Map<Seq<char>, nat>
    decreases s.len(),
{
    if s.len() == 0 {
        Map::empty()
    } else {
        entries_map(s.drop_last()).insert(s.last().0@, s.last().1 as nat)
    }
}

/// The index recorded for `k`, scanning entries from the newest backwards.
spec fn find_entry(s: Seq<(String, usize)>, k: Seq<char>) -> Option<usize>
    decreases s.len(),
{
    if s.len() == 0 {
        None
    } else if s.last().0@ == k {
        Some(s.last().1)
    } else {
        find_entry(s.drop_last(), k)
    }
}

/// Scanning backwards finds exactly the entries the map holds.
proof fn lemma_find_entry(s: Seq<(String, usize)>, k: Seq<char>)
    ensures
        match find_entry(s, k) {
            Some(v) => entries_map(s).contains_key(k) && entries_map(s)[k] == v as nat,
            None => !entries_map(s).contains_key(k),
        },
    decreases s.len(),
{
    if s.len() > 0 {
        lemma_find_entry(s.drop_last(), k);
    }
}

impl View for NameTable {
    type V = Map<Seq<char>, nat>;

    closed spec fn view(&self) -> Map<Seq<char>, nat> {
        entries_map(self.entries@)
    }
}

impl NameTable {
    /// An empty table.
    pub fn new() -> (r: NameTable)
        ensures
            r@ == Map::<Seq<char>, nat>::empty(),
    {
        NameTable { entries: Vec::new() }
    }

    fn lookup_rec(&self, name: &String, j: usize) -> (r: Option<usize>)
        requires
            j <= self.entries@.len(),
        ensures
            r == find_entry(self.entries@.take(j as int), name@),
        decreases j,
    {
        if j == 0 {
            proof {
                assert(self.entries@.take(0) =~= Seq::<(String, usize)>::empty());
            }
            None
        } else {
            proof {
                assert(self.entries@.take(j as int).last() == self.entries@[j - 1]);
                assert(self.entries@.take(j as int).drop_last() =~= self.entries@.take(j - 1));
            }
            if self.entries[j - 1].0 == *name {
                Some(self.entries[j - 1].1)
            } else {
                self.lookup_rec(name, j - 1)
            }
        }
    }

    /// The index assigned to `name`, if the scope has seen it.
    pub fn lookup(&self, name: &String) -> (r: Option<usize>)
        ensures
            match r {
                Some(v) => self@.contains_key(name@) && self@[name@] == v as nat,
                None => !self@.contains_key(name@),
            },
    {
        proof {
            assert(self.entries@.take(self.entries@.len() as int) =~= self.entries@);
            lemma_find_entry(self.entries@, name@);
        }
        self.lookup_rec(name, self.entries.len())
    }

    /// Records an index for a name.
    pub fn insert(&mut self, name: String, v: usize)
        ensures
            final (self)@ == old(self)@.insert(name@, v as nat),
    {
        let ghost before = self.entries@;
        self.entries.push((name, v));
        proof {
            assert(self.entries@.drop_last() =~= before);
        }
    }
}

/// The scope tables read as maps.
pub open spec fn tables_view(m: Seq<NameTable>) -> Seq<Map<Seq<char>, nat>> {
    m.map_values(|t: NameTable| t@)
}

/// Every index in every table is below `bound`.
pub open spec fn tables_bounded(m: Seq<Map<Seq<char>, nat>>, bound: nat) -> bool {
    forall|j: int, k: Seq<char>|
        0 <= j < m.len() && (#[trigger] m[j].contains_key(k)) ==> m[j][k] < bound
}

/// The index-assignment pass.  Walking `t` with scope tables `m`, next free
/// index `i`, current scope `al` and scope counter `al_in`: a fresh variable
/// or binder name is given the next index in the current scope's table, and
/// each hygiene mark opens a brand-new table.
pub open spec fn set_map_v(
    t: LambdaV,
    m: Seq<Map<Seq<char>, nat>>,
    i: nat,
    al: int,
    al_in: nat,
) -> (Seq<Map<Seq<char>, nat>>, nat, nat)
    decreases t,
{
    match t {
        LambdaV::Variable(a) => if m[al].contains_key(a) {
            (m, i, al_in)
        } else {
            (m.update(al, m[al].insert(a, i)), i + 1, al_in)
        },
        LambdaV::Func(a, b) => {
            let m1 = match *a {
                LambdaV::Variable(c) => if m[al].contains_key(c) {
                    m
                } else {
                    m.update(al, m[al].insert(c, i))
                },
                _ => m,
            };
            set_map_v(*b, m1, i + 1, al, al_in)
        },
        LambdaV::Reducible(a, b) => {
            let r1 = set_map_v(*a, m, i, al, al_in);
            set_map_v(*b, r1.0, r1.1, al, r1.2)
        },
        LambdaV::AlphaMark(a) => set_map_v(*a, m.push(Map::empty()), i, al_in + 1 as int, al_in + 1),
    }
}

/// The index-assignment pass grows its counters by at most the term's size
/// and keeps one table per seen scope.
pub proof fn lemma_set_map_v_growth(
    t: LambdaV,
    m: Seq<Map<Seq<char>, nat>>,
    i: nat,
    al: int,
    al_in: nat,
)
    requires
        0 <= al < m.len(),
        m.len() == al_in + 1,
    ensures
        ({
            let r = set_map_v(t, m, i, al, al_in);
            &&& i <= r.1 <= i + term_size(t)
            &&& al_in <= r.2 <= al_in + term_size(t)
            &&& r.0.len() == r.2 + 1
        }),
    decreases t,
{
    match t {
        LambdaV::Variable(a) => {},
        LambdaV::Func(a, b) => {
            let m1 = match *a {
                LambdaV::Variable(c) => if m[al].contains_key(c) {
                    m
                } else {
                    m.update(al, m[al].insert(c, i))
                },
                _ => m,
            };
            lemma_set_map_v_growth(*b, m1, i + 1, al, al_in);
        },
        LambdaV::Reducible(a, b) => {
            lemma_set_map_v_growth(*a, m, i, al, al_in);
            let r1 = set_map_v(*a, m, i, al, al_in);
            lemma_set_map_v_growth(*b, r1.0, r1.1, al, r1.2);
        },
        LambdaV::AlphaMark(a) => {
            let m2 = m.push(Map::<Seq<char>, nat>::empty());
            lemma_set_map_v_growth(*a, m2, i, al_in + 1 as int, al_in + 1);
        },
    }
}

/// The index-assignment pass keeps every recorded index below its counter.
pub proof fn lemma_set_map_v_bounded(
    t: LambdaV,
    m: Seq<Map<Seq<char>, nat>>,
    i: nat,
    al: int,
    al_in: nat,
)
    requires
        0 <= al < m.len(),
        m.len() == al_in + 1,
        tables_bounded(m, i),
    ensures
        tables_bounded(set_map_v(t, m, i, al, al_in).0, set_map_v(t, m, i, al, al_in).1),
    decreases t,
{
    match t {
        LambdaV::Variable(a) => {
            if !m[al].contains_key(a) {
                let m2 = m.update(al, m[al].insert(a, i));
                assert forall|j: int, k: Seq<char>|
                    0 <= j < m2.len() && (#[trigger] m2[j].contains_key(k)) implies m2[j][k] < i
                    + 1 by {
                    if !(j == al && k == a) {
                        assert(m[j].contains_key(k));
                    }
                }
            }
        },
        LambdaV::Func(a, b) => {
            let m1 = match *a {
                LambdaV::Variable(c) => if m[al].contains_key(c) {
                    m
                } else {
                    m.update(al, m[al].insert(c, i))
                },
                _ => m,
            };
            assert(tables_bounded(m1, i + 1)) by {
                assert forall|j: int, k: Seq<char>|
                    0 <= j < m1.len() && (#[trigger] m1[j].contains_key(k)) implies m1[j][k] < i
                    + 1 by {
                    if m[j].contains_key(k) {
                    }
                }
            }
            lemma_set_map_v_bounded(*b, m1, i + 1, al, al_in);
        },
        LambdaV::Reducible(a, b) => {
            lemma_set_map_v_bounded(*a, m, i, al, al_in);
            lemma_set_map_v_growth(*a, m, i, al, al_in);
            let r1 = set_map_v(*a, m, i, al, al_in);
            lemma_set_map_v_bounded(*b, r1.0, r1.1, al, r1.2);
        },
        LambdaV::AlphaMark(a) => {
            let m2 = m.push(Map::<Seq<char>, nat>::empty());
            assert(tables_bounded(m2, i)) by {
                assert forall|j: int, k: Seq<char>|
                    0 <= j < m2.len() && (#[trigger] m2[j].contains_key(k)) implies m2[j][k]
                    < i by {
                    if j < m.len() {
                        assert(m[j].contains_key(k));
                    } else {
                        assert(m2[j] == Map::<Seq<char>, nat>::empty());
                        assert(false);
                    }
                }
            }
            lemma_set_map_v_bounded(*a, m2, i, al_in + 1 as int, al_in + 1);
        },
    }
}

/// The renaming pass.  Every variable and binder occurrence is replaced by
/// the canonical name of its assigned index; hygiene marks select their
/// scope's table and are erased.  `None` marks a name with no index or a
/// scope with no table.
pub open spec fn alpha_v(
    t: LambdaV,
    m: Seq<Map<Seq<char>, nat>>,
    al: int,
    al_in: nat,
) -> Option<(LambdaV, nat)>
    decreases t,
{
    if al < 0 || al >= m.len() {
        None
    } else {
        match t {
            LambdaV::Variable(a) => if m[al].contains_key(a) {
                Some((LambdaV::Variable(name_of(m[al][a])), al_in))
            } else {
                None
            },
            LambdaV::Func(a, b) => match alpha_v(*a, m, al, al_in) {
                None => None,
                Some((c, k1)) => match alpha_v(*b, m, al, k1) {
                    None => None,
                    Some((d, k2)) => Some((LambdaV::Func(Box::new(c), Box::new(d)), k2)),
                },
            },
            LambdaV::Reducible(a, b) => match alpha_v(*a, m, al, al_in) {
                None => None,
                Some((c, k1)) => match alpha_v(*b, m, al, k1) {
                    None => None,
                    Some((d, k2)) => Some((LambdaV::Reducible(Box::new(c), Box::new(d)), k2)),
                },
            },
            LambdaV::AlphaMark(a) => alpha_v(*a, m, al_in + 1 as int, al_in + 1),
        }
    }
}

/// The renaming pass's scope counter grows by at most the term's size.
pub proof fn lemma_alpha_v_growth(t: LambdaV, m: Seq<Map<Seq<char>, nat>>, al: int, al_in: nat)
    ensures
        match alpha_v(t, m, al, al_in) {
            Some(p) => al_in <= p.1 <= al_in + term_size(t),
            None => true,
        },
    decreases t,
{
    match t {
        LambdaV::Func(a, b) => {
            lemma_alpha_v_growth(*a, m, al, al_in);
            match alpha_v(*a, m, al, al_in) {
                Some((c, k1)) => {
                    lemma_alpha_v_growth(*b, m, al, k1);
                },
                None => {},
            }
        },
        LambdaV::Reducible(a, b) => {
            lemma_alpha_v_growth(*a, m, al, al_in);
            match alpha_v(*a, m, al, al_in) {
                Some((c, k1)) => {
                    lemma_alpha_v_growth(*b, m, al, k1);
                },
                None => {},
            }
        },
        LambdaV::AlphaMark(a) => {
            lemma_alpha_v_growth(*a, m, al_in + 1 as int, al_in + 1);
        },
        _ => {},
    }
}

/// The scope tables the hygiene pass assigns to `t`, starting from one
/// empty table.
pub open spec fn hygiene_tables(t: LambdaV) -> Seq<Map<Seq<char>, nat>> {
    set_map_v(t, seq![Map::empty()], 0, 0, 0).0
}

/// The hygiene pass as a whole: index assignment, then renaming; `None`
/// where the renaming pass meets a name with no assigned index.
pub open spec fn alpha_opt(t: LambdaV) -> Option<LambdaV> {
    match alpha_v(t, hygiene_tables(t), 0, 0) {
        None => None,
        Some((u, _)) => Some(u),
    }
}

impl Lambda {
    /// The canonical variable name for index `n`: the digits of `n + 1` in
    /// bijective base 26 over the naming alphabet.
    pub fn get_name(n: usize) -> (out: String)
        requires
            n < usize::MAX,
        ensures
            out@ == name_of(n as nat),
    {
        let mut digits: Vec<char> = Vec::new();
        let mut m: usize = n + 1;
        while m != 0
            invariant
                name_digits((n + 1) as nat) == name_digits(m as nat) + digits@.reverse(),
            decreases m,
        {
            let ghost dig_old = digits@;
            let ghost m_old = m as nat;
            let d = (m - 1) % 26;
            digits.push(alph_char_at(d));
            m = (m - 1) / 26;
            proof {
                assert(digits@.reverse() =~= seq![alph_char(d as int)] + dig_old.reverse());
                assert(name_digits(m_old) == name_digits(m as nat) + seq![alph_char(d as int)]);
                assert(name_digits(m as nat) + seq![alph_char(d as int)] + dig_old.reverse()
                    =~= name_digits(m as nat) + (seq![alph_char(d as int)] + dig_old.reverse()));
            }
        }
        proof {
            assert(name_digits((n + 1) as nat) =~= digits@.reverse());
        }
        let mut out = String::new();
        let mut j = digits.len();
        while j != 0
            invariant
                j <= digits@.len(),
                out@ == digits@.subrange(j as int, digits@.len() as int).reverse(),
            decreases j,
        {
            let ghost out_old = out@;
            j = j - 1;
            push_char(&mut out, digits[j]);
            proof {
                assert(digits@.subrange(j as int, digits@.len() as int).reverse() =~= out_old.push(
                    digits@[j as int],
                ));
            }
        }
        proof {
            assert(digits@.subrange(0, digits@.len() as int) =~= digits@);
        }
        out
    }

    /// The index-assignment pass over concrete tables; the contract is the
    /// ghost pass [`set_map_v`] exactly.
    pub fn set_map(l: Lambda, m: Vec<NameTable>, i: usize, al: usize, al_in: usize) -> (r: (
        Vec<NameTable>,
        usize,
        usize,
    ))
        requires
            al < m@.len(),
            m@.len() == al_in + 1,
            i + term_size(l@) <= usize::MAX,
            al_in + term_size(l@) <= usize::MAX,
        ensures
            ({
                let s = set_map_v(l@, tables_view(m@), i as nat, al as int, al_in as nat);
                &&& tables_view(r.0@) == s.0
                &&& r.1 as nat == s.1
                &&& r.2 as nat == s.2
            }),
        decreases l,
    {
        let ghost m0 = tables_view(m@);
        match l {
            Lambda::Variable(a) => {
                let mut m = m;
                let ghost mseq = m@;
                let mut tbl = m.remove(al);
                match tbl.lookup(&a) {
                    Some(_) => {
                        m.insert(al, tbl);
                        proof {
                            assert(m@ =~= mseq);
                            assert(m0[al as int] == mseq[al as int]@);
                        }
                        (m, i, al_in)
                    },
                    None => {
                        let ghost aname = a@;
                        tbl.insert(a, i);
                        m.insert(al, tbl);
                        proof {
                            assert(m0[al as int] == mseq[al as int]@);
                            assert(tables_view(m@) =~= m0.update(
                                al as int,
                                m0[al as int].insert(aname, i as nat),
                            ));
                        }
                        (m, i + 1, al_in)
                    },
                }
            },
            Lambda::Func(a, b) => {
                let ghost av = (*a)@;
                let ghost bv = (*b)@;
                proof {
                    assert(l@ == LambdaV::Func(Box::new(av), Box::new(bv)));
                }
                let mut m = m;
                match &*a {
                    Lambda::Variable(c) => {
                        let ghost mseq = m@;
                        let mut tbl = m.remove(al);
                        match tbl.lookup(c) {
                            Some(_) => {
                                m.insert(al, tbl);
                                proof {
                                    assert(m@ =~= mseq);
                                    assert(m0[al as int] == mseq[al as int]@);
                                }
                            },
                            None => {
                                tbl.insert(c.clone(), i);
                                m.insert(al, tbl);
                                proof {
                                    assert(m0[al as int] == mseq[al as int]@);
                                    assert(tables_view(m@) =~= m0.update(
                                        al as int,
                                        m0[al as int].insert(c@, i as nat),
                                    ));
                                }
                            },
                        }
                    },
                    _ => {},
                }
                Self::set_map(*b, m, i + 1, al, al_in)
            },
            Lambda::Reducible(a, b) => {
                let ghost av = (*a)@;
                let ghost bv = (*b)@;
                proof {
                    assert(l@ == LambdaV::Reducible(Box::new(av), Box::new(bv)));
                    lemma_set_map_v_growth(av, m0, i as nat, al as int, al_in as nat);
                }
                let r1 = Self::set_map(*a, m, i, al, al_in);
                Self::set_map(*b, r1.0, r1.1, al, r1.2)
            },
            Lambda::AlphaMark(a) => {
                let ghost av = (*a)@;
                proof {
                    assert(l@ == LambdaV::AlphaMark(Box::new(av)));
                }
                let mut m = m;
                m.push(NameTable::new());
                proof {
                    assert(tables_view(m@) =~= m0.push(Map::<Seq<char>, nat>::empty()));
                }
                Self::set_map(*a, m, i, al_in + 1, al_in + 1)
            },
        }
    }

    /// The renaming pass over concrete tables; the contract is the ghost
    /// pass [`alpha_v`] exactly, with `MapLookupFailure` for its `None`.
    fn recursive_alpha(l: &Lambda, m: &Vec<NameTable>, al: usize, al_in: usize) -> (r: Result<
        (Lambda, usize),
        LambdaError,
    >)
        requires
            al < m@.len(),
            al_in + term_size(l@) <= usize::MAX,
            tables_bounded(tables_view(m@), usize::MAX as nat),
        ensures
            ({
                let s = alpha_v(l@, tables_view(m@), al as int, al_in as nat);
                match r {
                    Ok(p) => s == Some((p.0@, p.1 as nat)) && al_in <= p.1,
                    Err(e) => s is None && e == LambdaError::MapLookupFailure,
                }
            }),
        decreases l,
    {
        match l {
            Lambda::Variable(a) => {
                let ghost mv = tables_view(m@);
                let tbl = &m[al];
                proof {
                    assert(mv[al as int] == m@[al as int]@);
                }
                match tbl.lookup(a) {
                    Some(v) => Ok((Lambda::Variable(Self::get_name(v)), al_in)),
                    None => Err(LambdaError::MapLookupFailure),
                }
            },
            Lambda::Func(a, b) => {
                proof {
                    assert(l@ == LambdaV::Func(Box::new((*a)@), Box::new((*b)@)));
                    lemma_alpha_v_growth((*a)@, tables_view(m@), al as int, al_in as nat);
                }
                match Self::recursive_alpha(a, m, al, al_in) {
                    Err(e) => Err(e),
                    Ok((c, k1)) => match Self::recursive_alpha(b, m, al, k1) {
                        Err(e) => Err(e),
                        Ok((d, k2)) => Ok((Lambda::Func(Box::new(c), Box::new(d)), k2)),
                    },
                }
            },
            Lambda::Reducible(a, b) => {
                proof {
                    assert(l@ == LambdaV::Reducible(Box::new((*a)@), Box::new((*b)@)));
                    lemma_alpha_v_growth((*a)@, tables_view(m@), al as int, al_in as nat);
                }
                match Self::recursive_alpha(a, m, al, al_in) {
                    Err(e) => Err(e),
                    Ok((c, k1)) => match Self::recursive_alpha(b, m, al, k1) {
                        Err(e) => Err(e),
                        Ok((d, k2)) => Ok((Lambda::Reducible(Box::new(c), Box::new(d)), k2)),
                    },
                }
            },
            Lambda::AlphaMark(a) => {
                proof {
                    assert(l@ == LambdaV::AlphaMark(Box::new((*a)@)));
                }
                if al_in + 1 < m.len() {
                    match Self::recursive_alpha(a, m, al_in + 1, al_in + 1) {
                        Err(e) => Err(e),
                        Ok((c, k)) => Ok((c, k)),
                    }
                } else {
                    Err(LambdaError::MapLookupFailure)
                }
            },
        }
    }

    /// Renames every bound and free variable of `self` to a canonical,
    /// collision-free name: indices are assigned left to right, one fresh
    /// numbering space per hygiene scope, and the scope markers are erased.
    pub fn alpha_reduce(self) -> (r: Result<Lambda, LambdaError>)
        ensures
            if term_size(self@) > usize::MAX {
                r == Err::<Lambda, LambdaError>(LambdaError::TermTooLarge)
            } else {
                match alpha_opt(self@) {
                    Some(u) => match r {
                        Ok(out) => out@ == u,
                        Err(_) => false,
                    },
                    None => r == Err::<Lambda, LambdaError>(LambdaError::MapLookupFailure),
                }
            },
    {
        match self.size_checked() {
            None => Err(LambdaError::TermTooLarge),
            Some(_) => {
                let mut start: Vec<NameTable> = Vec::new();
                start.push(NameTable::new());
                proof {
                    assert(tables_view(start@) =~= seq![Map::<Seq<char>, nat>::empty()]);
                    lemma_set_map_v_growth(self@, tables_view(start@), 0, 0, 0);
                    lemma_set_map_v_bounded(self@, tables_view(start@), 0, 0, 0);
                }
                let (m, _, _) = Self::set_map(self.clone(), start, 0, 0, 0);
                match Self::recursive_alpha(&self, &m, 0, 0) {
                    Ok(p) => Ok(p.0),
                    Err(e) => Err(e),
                }
            },
        }
    }
}

} // verus!
