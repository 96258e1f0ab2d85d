//! The category collector: per-column sets of distinct values discovered in
//! the data, kept sorted, and the size guard for dropdown lists.

use vstd::prelude::*;
use vstd::string::*;
use crate::text::{
    lex_lt, lemma_lex_connex, lemma_lex_trans, str_eq, str_lt, trimmed,
    u8_from_decimal,
};
use crate::sheet::{esc_len, joined_list_len, LIST_TEXT_LIMIT};

verus! {

/// Strictly ascending lexicographic order; such a list is deduplicated.
pub open spec fn strictly_sorted(l: Seq<Seq<char>>) -> bool {
    forall|i: int, j: int| 0 <= i < j < l.len() ==> lex_lt(l[i], l[j])
}

/// No empty text anywhere in the list.
pub open spec fn all_nonempty(l: Seq<Seq<char>>) -> bool {
    forall|i: int| 0 <= i < l.len() ==> l[i].len() > 0
}

/// Per category column, the set of distinct non-empty values seen so far in
/// data rows, kept in ascending order.
pub struct CategoryAccumulator {
    pub cols: Vec<Vec<String>>,
}

impl CategoryAccumulator {
    /// The distinct values gathered for one column, ascending.
    pub open spec fn col_values(self, c: int) -> Seq<Seq<char>> {
        self.cols.deep_view()[c]
    }

    pub open spec fn num_cols(self) -> int {
        self.cols.len() as int
    }

    /// Every column's list is sorted, deduplicated and free of empty values.
    pub open spec fn wf(self) -> bool {
        forall|c: int|
            0 <= c < self.num_cols() ==> strictly_sorted(#[trigger] self.col_values(c))
                && all_nonempty(self.col_values(c))
    }

    /// One empty value set per column.
    pub fn new(n: usize) -> (acc: CategoryAccumulator)
        ensures
            acc.wf(),
            acc.num_cols() == n,
            forall|c: int| 0 <= c < n ==> (#[trigger] acc.col_values(c)).len() == 0,
    {
        let mut cols: Vec<Vec<String>> = Vec::new();
        while cols.len() < n
            invariant
                cols.len() <= n,
                forall|c: int| 0 <= c < cols@.len() ==> (#[trigger] cols@[c])@.len() == 0,
            decreases n - cols.len(),
        {
            cols.push(Vec::new());
        }
        proof {
            assert forall|c: int| 0 <= c < n implies (#[trigger] cols.deep_view()[c]).len()
                == 0 by {
                assert(cols.deep_view()[c] == cols@[c].deep_view());
            }
        }
        CategoryAccumulator { cols }
    }

    /// Registers one non-empty value for a column: idempotent, keeps the
    /// column's list sorted and deduplicated, leaves other columns alone.
    pub fn insert_value(&mut self, col: usize, field: &str)
        requires
            old(self).wf(),
            col < old(self).num_cols(),
            field@.len() > 0,
        ensures
            final(self).wf(),
            final(self).num_cols() == old(self).num_cols(),
            forall|c: int|
                0 <= c < old(self).num_cols() && c != col ==> #[trigger] final(self).col_values(c)
                    == old(self).col_values(c),
            forall|v: Seq<char>|
                final(self).col_values(col as int).contains(v) <==> (old(self).col_values(
                    col as int,
                ).contains(v) || v == field@),
    {
        let ghost old_cols: Seq<Seq<Seq<char>>> = self.cols.deep_view();
        let mut v: Vec<String> = self.cols.remove(col);
        let ghost vals: Seq<Seq<char>> = v.deep_view();
        proof {
            assert(vals == old_cols[col as int]);
            assert(old(self).col_values(col as int) == old_cols[col as int]);
            assert(strictly_sorted(vals) && all_nonempty(vals)) by {
                assert(strictly_sorted(old(self).col_values(col as int)));
                assert(all_nonempty(old(self).col_values(col as int)));
            }
        }
        let mut i: usize = 0;
        while i < v.len() && str_lt(v[i].as_str(), field)
            invariant
                i <= v.len(),
                v.deep_view() == vals,
                forall|k: int| 0 <= k < i ==> lex_lt(#[trigger] vals[k], field@),
            decreases v.len() - i,
        {
            i += 1;
        }
        let present: bool = i < v.len() && str_eq(v[i].as_str(), field);
        proof {
            if i < vals.len() {
                assert(!lex_lt(vals[i as int], field@));
            }
        }
        if !present {
            let owned: String = field.to_owned();
            v.insert(i, owned);
            proof {
                let nv = v.deep_view();
                assert(nv =~= vals.insert(i as int, field@)) by {
                    vals.insert_ensures(i as int, field@);
                    assert(nv.len() == vals.len() + 1);
                    assert forall|k: int| 0 <= k < nv.len() implies nv[k] == vals.insert(
                        i as int,
                        field@,
                    )[k] by {
                        vals.insert_ensures(i as int, field@);
                    }
                };
                vals.insert_ensures(i as int, field@);
                assert(strictly_sorted(vals));
                if i < vals.len() {
                    assert(vals[i as int] != field@);
                    lemma_lex_connex(vals[i as int], field@);
                    assert(lex_lt(field@, vals[i as int]));
                }
                assert forall|p: int, q: int| 0 <= p < q < nv.len() implies lex_lt(
                    nv[p],
                    nv[q],
                ) by {
                    let f = field@;
                    let ii = i as int;
                    if q < ii {
                        assert(nv[p] == vals[p] && nv[q] == vals[q]);
                    } else if p < ii && q == ii {
                        assert(nv[p] == vals[p] && nv[q] == f);
                        assert(lex_lt(vals[p], f));
                    } else if p < ii && q > ii {
                        assert(nv[p] == vals[p] && nv[q] == vals[q - 1]);
                        assert(p < q - 1 || p == q - 1);
                        assert(p < q - 1);
                        assert(lex_lt(vals[p], vals[q - 1]));
                    } else if p == ii {
                        assert(nv[p] == f && nv[q] == vals[q - 1]);
                        assert(q - 1 >= ii && q - 1 < vals.len());
                        if q - 1 == ii {
                            assert(lex_lt(f, vals[q - 1]));
                        } else {
                            assert(lex_lt(vals[ii], vals[q - 1]));
                            lemma_lex_trans(f, vals[ii], vals[q - 1]);
                        }
                    } else {
                        assert(nv[p] == vals[p - 1] && nv[q] == vals[q - 1]);
                        assert(lex_lt(vals[p - 1], vals[q - 1]));
                    }
                }
                assert forall|w: Seq<char>|
                    nv.contains(w) <==> (vals.contains(w) || w == field@) by {
                    if nv.contains(w) {
                        let k = choose|k: int| 0 <= k < nv.len() && nv[k] == w;
                        if k < i {
                            assert(vals[k] == w);
                        } else if k > i {
                            assert(vals[k - 1] == w);
                        }
                    }
                    if vals.contains(w) {
                        let k = choose|k: int| 0 <= k < vals.len() && vals[k] == w;
                        if k < i {
                            assert(nv[k] == w);
                        } else {
                            assert(nv[k + 1] == w);
                        }
                    }
                    if w == field@ {
                        assert(nv[i as int] == w);
                    }
                }
            }
        } else {
            proof {
                assert(vals[i as int] == field@);
                assert(vals.contains(field@));
            }
        }
        let ghost nvals: Seq<Seq<char>> = v.deep_view();
        let ghost velem: Vec<String> = v;
        self.cols.insert(col, v);
        proof {
            let ov = old(self).cols@;
            let mid = ov.remove(col as int);
            let fc = self.cols.deep_view();
            assert(self.cols@ == mid.insert(col as int, velem));
            assert(fc =~= old_cols.update(col as int, nvals)) by {
                mid.insert_ensures(col as int, velem);
                ov.remove_ensures(col as int);
                assert forall|c: int|
                    0 <= c < fc.len() implies fc[c] == old_cols.update(col as int, nvals)[c] by {
                    mid.insert_ensures(col as int, velem);
                    ov.remove_ensures(col as int);
                    assert(fc[c] == self.cols@[c].deep_view());
                    assert(old_cols[c] == ov[c].deep_view());
                    if c < col {
                        assert(self.cols@[c] == mid[c]);
                        assert(mid[c] == ov[c]);
                    } else if c == col {
                        assert(self.cols@[c] == velem);
                    } else {
                        assert(self.cols@[c] == mid[c - 1]);
                        assert(mid[c - 1] == ov[c]);
                    }
                };
            };
            assert(final(self).col_values(col as int) == nvals);
            if !present {
                assert forall|k: int| 0 <= k < nvals.len() implies #[trigger] nvals[k].len()
                    > 0 by {
                    vals.insert_ensures(i as int, field@);
                    if k < i {
                        assert(nvals[k] == vals[k]);
                    } else if k > i {
                        assert(nvals[k] == vals[k - 1]);
                    }
                }
                assert(all_nonempty(nvals));
            }
            assert forall|c: int|
                0 <= c < final(self).num_cols() implies strictly_sorted(
                    #[trigger] final(self).col_values(c),
                ) && all_nonempty(final(self).col_values(c)) by {
                if c != col {
                    assert(final(self).col_values(c) == old_cols[c]);
                    assert(old(self).col_values(c) == old_cols[c]);
                    assert(strictly_sorted(old(self).col_values(c)));
                    assert(all_nonempty(old(self).col_values(c)));
                } else {
                    assert(final(self).col_values(c) == nvals);
                }
            }
            assert forall|c: int|
                0 <= c < old(self).num_cols() && c != col implies #[trigger] final(self)
                    .col_values(c) == old(self).col_values(c) by {
                assert(final(self).col_values(c) == old_cols[c]);
                assert(old(self).col_values(c) == old_cols[c]);
            }
        }
    }
}

/// Step of the serialized dropdown length: one more value adds its escaped
/// length plus a separator after the first.
proof fn lemma_joined_step(l: Seq<Seq<char>>, i: int)
    requires
        0 <= i < l.len(),
    ensures
        joined_list_len(l.take(i + 1)) == joined_list_len(l.take(i)) + (if i > 0 {
            1int
        } else {
            0int
        }) + esc_len(l[i]),
{
    let t = l.take(i + 1);
    assert(t.drop_last() =~= l.take(i));
    assert(t.last() == l[i]);
    if i == 0 {
        assert(t.len() == 1);
        assert(t[0] == l[0]);
    }
}

/// A prefix of the list never serializes longer than the whole.
proof fn lemma_joined_prefix_le(l: Seq<Seq<char>>, i: int)
    requires
        0 <= i <= l.len(),
    ensures
        joined_list_len(l.take(i)) <= joined_list_len(l),
    decreases l.len() - i,
{
    if i == l.len() {
        assert(l.take(i) =~= l);
    } else {
        lemma_joined_step(l, i);
        lemma_joined_prefix_le(l, i + 1);
    }
}

/// Counts the double quotes in a string.
fn count_quotes(s: &str) -> (q: usize)
    ensures
        q == s@.filter(|c: char| c == '"').len(),
        q <= s@.len(),
{
    let len: usize = s.unicode_len();
    let mut q: usize = 0;
    let mut i: usize = 0;
    proof {
        reveal(Seq::filter);
        assert(s@.take(0) =~= Seq::<char>::empty());
        assert(s@.take(0).filter(|c: char| c == '"').len() == 0);
    }
    while i < len
        invariant
            i <= len,
            len == s@.len(),
            q == s@.take(i as int).filter(|c: char| c == '"').len(),
            q <= i,
        decreases len - i,
    {
        let c: char = s.get_char(i);
        proof {
            reveal(Seq::filter);
            let pred = |c: char| c == '"';
            let t = s@.take(i + 1);
            assert(t.drop_last() =~= s@.take(i as int));
            assert(t.last() == s@[i as int]);
            assert(t.len() == i + 1);
            assert(t.filter(pred) == if pred(t.last()) {
                t.drop_last().filter(pred).push(t.last())
            } else {
                t.drop_last().filter(pred)
            });
        }
        if c == '"' {
            q += 1;
        }
        i += 1;
    }
    proof {
        assert(s@.take(len as int) =~= s@);
    }
    q
}

/// Decides whether the dropdown list for these values fits the sheet's
/// serialized-length limit.
pub fn fits_list_limit(items: &Vec<String>) -> (r: bool)
    ensures
        r == (joined_list_len(items.deep_view()) <= LIST_TEXT_LIMIT),
{
    let l: usize = items.len();
    let mut acc: usize = 0;
    let mut idx: usize = 0;
    proof {
        assert(items.deep_view().take(0) =~= Seq::<Seq<char>>::empty());
    }
    while idx < l
        invariant
            idx <= l,
            l == items.deep_view().len(),
            acc == joined_list_len(items.deep_view().take(idx as int)),
            acc <= LIST_TEXT_LIMIT,
        decreases l - idx,
    {
        let ghost dl = items.deep_view();
        let s: &String = &items[idx];
        let slen: usize = s.as_str().unicode_len();
        proof {
            lemma_joined_step(dl, idx as int);
            lemma_joined_prefix_le(dl, idx + 1);
        }
        if slen > LIST_TEXT_LIMIT {
            return false;
        }
        let quotes: usize = count_quotes(s.as_str());
        let sep: usize = if idx > 0 { 1 } else { 0 };
        let add: usize = slen + quotes + sep;
        if acc + add > LIST_TEXT_LIMIT {
            return false;
        }
        acc = acc + add;
        idx += 1;
    }
    proof {
        assert(items.deep_view().take(l as int) =~= items.deep_view());
    }
    true
}

/// The category numeral a field denotes under a fixed domain: its trimmed
/// decimal value when that lies in the domain, else the zero sentinel.
pub open spec fn kbn_cell_value(field: Seq<char>, domain: Seq<u8>) -> u8 {
    match u8_from_decimal(trimmed(field)) {
        Option::Some(v) => if domain.contains(v) {
            v
        } else {
            0
        },
        Option::None => 0,
    }
}

/// A fixed-domain category cell always holds a domain value or the zero
/// sentinel.
pub proof fn lemma_kbn_value_in_domain(field: Seq<char>, domain: Seq<u8>)
    ensures
        domain.contains(kbn_cell_value(field, domain)) || kbn_cell_value(field, domain) == 0,
{
}

/// Whether a small numeral lies in a fixed domain.
pub fn domain_contains(domain: &Vec<u8>, v: u8) -> (r: bool)
    ensures
        r == domain@.contains(v),
{
    let mut i: usize = 0;
    while i < domain.len()
        invariant
            i <= domain@.len(),
            forall|k: int| 0 <= k < i ==> domain@[k] != v,
        decreases domain@.len() - i,
    {
        if domain[i] == v {
            return true;
        }
        i += 1;
    }
    false
}

/// Strictly ascending numeric order; such a list is deduplicated.
pub open spec fn u8_strictly_sorted(l: Seq<u8>) -> bool {
    forall|i: int, j: int| 0 <= i < j < l.len() ==> l[i] < l[j]
}

/// The fixed domain as a sorted, deduplicated list of numerals.
pub fn normalized_domain(domain: &Vec<u8>) -> (r: Vec<u8>)
    ensures
        u8_strictly_sorted(r@),
        forall|v: u8| r@.contains(v) <==> domain@.contains(v),
{
    let mut r: Vec<u8> = Vec::new();
    let mut idx: usize = 0;
    while idx < domain.len()
        invariant
            idx <= domain@.len(),
            u8_strictly_sorted(r@),
            forall|v: u8| r@.contains(v) <==> domain@.take(idx as int).contains(v),
        decreases domain@.len() - idx,
    {
        let x: u8 = domain[idx];
        let ghost rv = r@;
        let mut i: usize = 0;
        while i < r.len() && r[i] < x
            invariant
                i <= r.len(),
                r@ == rv,
                forall|k: int| 0 <= k < i ==> rv[k] < x,
            decreases r.len() - i,
        {
            i += 1;
        }
        let present: bool = i < r.len() && r[i] == x;
        if !present {
            r.insert(i, x);
            proof {
                rv.insert_ensures(i as int, x);
                assert forall|p: int, q: int| 0 <= p < q < r@.len() implies r@[p] < r@[q] by {
                    rv.insert_ensures(i as int, x);
                }
                assert forall|v: u8| r@.contains(v) <==> (rv.contains(v) || v == x) by {
                    rv.insert_ensures(i as int, x);
                    if r@.contains(v) {
                        let k = choose|k: int| 0 <= k < r@.len() && r@[k] == v;
                        if k < i {
                            assert(rv[k] == v);
                        } else if k > i {
                            assert(rv[k - 1] == v);
                        }
                    }
                    if rv.contains(v) {
                        let k = choose|k: int| 0 <= k < rv.len() && rv[k] == v;
                        if k < i {
                            assert(r@[k] == v);
                        } else {
                            assert(r@[k + 1] == v);
                        }
                    }
                    if v == x {
                        assert(r@[i as int] == v);
                    }
                }
            }
        } else {
            proof {
                assert(rv[i as int] == x);
                assert(rv.contains(x));
            }
        }
        proof {
            assert(domain@.take(idx + 1).drop_last() =~= domain@.take(idx as int));
            assert(domain@.take(idx + 1).last() == domain@[idx as int]);
            assert forall|v: u8|
                domain@.take(idx + 1).contains(v) <==> (domain@.take(idx as int).contains(v) || v
                    == x) by {
                let t = domain@.take(idx + 1);
                if t.contains(v) {
                    let k = choose|k: int| 0 <= k < t.len() && t[k] == v;
                    if k < idx {
                        assert(domain@.take(idx as int)[k] == v);
                    }
                }
                if domain@.take(idx as int).contains(v) {
                    let k = choose|k: int|
                        0 <= k < domain@.take(idx as int).len() && domain@.take(idx as int)[k]
                            == v;
                    assert(t[k] == v);
                }
                if v == x {
                    assert(t[idx as int] == v);
                }
            }
            assert forall|v: u8| r@.contains(v) <==> domain@.take(idx + 1).contains(v) by {
                assert(r@.contains(v) <==> (rv.contains(v) || v == x));
                assert(rv.contains(v) <==> domain@.take(idx as int).contains(v));
            }
        }
        idx += 1;
    }
    proof {
        assert(domain@.take(domain@.len() as int) =~= domain@);
    }
    r
}

} // verus!
