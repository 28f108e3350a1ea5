//! The canonical operations on resource tables, evaluated directly.
use vstd::prelude::*;
use crate::resource::{Resource, Triple, Row, rows, triple_rows};
use crate::text::{chars_of, lex_lt, str_lt};

verus! {

/// Some row of `b` has key `k`.
pub open spec fn has_key(b: Seq<Row>, k: Seq<char>) -> bool {
    exists|j: int| 0 <= j < b.len() && (#[trigger] b[j]).0 == k
}

/// The text that the last row of `b` with key `k` carries, as a map built
/// from `b` in order keeps it.
pub open spec fn last_value(b: Seq<Row>, k: Seq<char>) -> Option<Seq<char>>
    decreases b.len(),
{
    if b.len() == 0 {
        None
    } else if b.last().0 == k {
        Some(b.last().1)
    } else {
        last_value(b.drop_last(), k)
    }
}

/// How many rows of `b` have key `k`.
pub open spec fn count_key(b: Seq<Row>, k: Seq<char>) -> nat
    decreases b.len(),
{
    if b.len() == 0 {
        0
    } else {
        count_key(b.drop_last(), k) + if b.last().0 == k { 1nat } else { 0nat }
    }
}

/// How many rows of `a` have the key of `r` and a text other than that of `r`.
pub open spec fn count_changed(a: Seq<Row>, r: Row) -> nat
    decreases a.len(),
{
    if a.len() == 0 {
        0
    } else {
        count_changed(a.drop_last(), r) + if a.last().0 == r.0 && a.last().1 != r.1 {
            1nat
        } else {
            0nat
        }
    }
}

/// The rows of `s` that satisfy `keep`, in their order.
pub open spec fn keep_rows(s: Seq<Row>, keep: spec_fn(Row) -> bool) -> Seq<Row>
    decreases s.len(),
{
    if s.len() == 0 {
        seq![]
    } else if keep(s.last()) {
        keep_rows(s.drop_last(), keep).push(s.last())
    } else {
        keep_rows(s.drop_last(), keep)
    }
}

/// `s` with every row after the first of its kind left out.
pub open spec fn dedupe(s: Seq<Row>) -> Seq<Row>
    decreases s.len(),
{
    if s.len() == 0 {
        seq![]
    } else if dedupe(s.drop_last()).contains(s.last()) {
        dedupe(s.drop_last())
    } else {
        dedupe(s.drop_last()).push(s.last())
    }
}

/// The rows of `a` whose key no row of `b` has.
pub open spec fn diff_rows(a: Seq<Row>, b: Seq<Row>) -> Seq<Row> {
    keep_rows(a, |r: Row| !has_key(b, r.0))
}

/// The rows of `a` whose key is absent from `b`, or whose text differs from
/// the text that `b` gives that key.
pub open spec fn change_rows(a: Seq<Row>, b: Seq<Row>) -> Seq<Row> {
    keep_rows(a, |r: Row| last_value(b, r.0) != Some(r.1))
}

/// A row of `a` with the text that `b` gives its key, if `b` has it.
pub open spec fn overridden(r: Row, b: Seq<Row>) -> Row {
    match last_value(b, r.0) {
        Some(v) => (r.0, v),
        None => r,
    }
}

/// Each row of `a` with `b`'s text where `b` has its key, then the rows of `b`
/// whose key `a` lacks, with repeated rows left out.
pub open spec fn merge_rows(a: Seq<Row>, b: Seq<Row>) -> Seq<Row> {
    dedupe(a.map_values(|r: Row| overridden(r, b)) + keep_rows(b, |r: Row| !has_key(a, r.0)))
}

/// The rows of `a` that `b` holds too, with repeated rows left out.
pub open spec fn intersect_rows(a: Seq<Row>, b: Seq<Row>) -> Seq<Row> {
    dedupe(keep_rows(a, |r: Row| b.contains(r)))
}

/// `n` copies of `r`.
pub open spec fn repeat(r: Row, n: nat) -> Seq<Row> {
    Seq::new(n, |i: int| r)
}

/// Each row of `a`, once for each row of `b` with its key, or once if there is none.
pub open spec fn left_join_rows(a: Seq<Row>, b: Seq<Row>) -> Seq<Row>
    decreases a.len(),
{
    if a.len() == 0 {
        seq![]
    } else {
        let n = count_key(b, a.last().0);
        left_join_rows(a.drop_last(), b) + repeat(a.last(), if n == 0 { 1 } else { n })
    }
}

/// Each row of `b`, once for each row of `a` with its key and another text.
pub open spec fn changed_values_rows(a: Seq<Row>, b: Seq<Row>) -> Seq<Row>
    decreases b.len(),
{
    if b.len() == 0 {
        seq![]
    } else {
        changed_values_rows(a, b.drop_last()) + repeat(b.last(), count_changed(a, b.last()))
    }
}

/// For each row of `new` whose key `old` lacks and `base` has: its key, its
/// text, and the text of that key in `base`.
pub open spec fn diff_with_base_rows(old: Seq<Row>, new: Seq<Row>, base: Seq<Row>) -> Seq<
    (Seq<char>, Seq<char>, Seq<char>),
>
    decreases new.len(),
{
    if new.len() == 0 {
        seq![]
    } else {
        let prev = diff_with_base_rows(old, new.drop_last(), base);
        let r = new.last();
        if !has_key(old, r.0) && last_value(base, r.0) is Some {
            prev.push((r.0, r.1, last_value(base, r.0)->0))
        } else {
            prev
        }
    }
}

/// `r` placed into `s` after every row whose key is not greater than its own.
pub open spec fn insert_by_key(s: Seq<Row>, r: Row) -> Seq<Row>
    decreases s.len(),
{
    if s.len() == 0 {
        seq![r]
    } else if lex_lt(r.0, s[0].0) {
        seq![r] + s
    } else {
        seq![s[0]] + insert_by_key(s.drop_first(), r)
    }
}

/// The rows of `a` in the order of their keys; rows with equal keys keep their order.
pub open spec fn sort_rows(a: Seq<Row>) -> Seq<Row>
    decreases a.len(),
{
    if a.len() == 0 {
        seq![]
    } else {
        insert_by_key(sort_rows(a.drop_last()), a.last())
    }
}

proof fn lemma_rows_push(v: Seq<Resource>, r: Resource)
    ensures
        rows(v.push(r)) == rows(v).push(r@),
{
    assert(rows(v.push(r)) =~= rows(v).push(r@));
}

proof fn lemma_take_step(s: Seq<Row>, i: int)
    requires
        0 <= i < s.len(),
    ensures
        s.take(i + 1).drop_last() == s.take(i),
        s.take(i + 1).last() == s[i],
        s.take(i + 1).len() == i + 1,
{
    assert(s.take(i + 1).drop_last() =~= s.take(i));
}

proof fn lemma_take_all(s: Seq<Row>)
    ensures
        s.take(s.len() as int) == s,
{
    assert(s.take(s.len() as int) =~= s);
}

/// Whether some resource of `b` has key `k`.
pub fn contains_key(b: &Vec<Resource>, k: &String) -> (r: bool)
    ensures
        r == has_key(rows(b@), k@),
{
    let mut i: usize = 0;
    while i < b.len()
        invariant
            i <= b.len(),
            forall|j: int| 0 <= j < i ==> (#[trigger] b@[j]).name@ != k@,
        decreases b.len() - i,
    {
        if b[i].name == *k {
            assert(rows(b@)[i as int].0 == k@);
            return true;
        }
        i = i + 1;
    }
    assert forall|j: int| 0 <= j < rows(b@).len() implies (#[trigger] rows(b@)[j]).0 != k@ by {
        assert(b@[j].name@ != k@);
    }
    false
}

/// Whether `v` holds a resource equal to `x`.
pub fn contains_row(v: &Vec<Resource>, x: &Resource) -> (r: bool)
    ensures
        r == rows(v@).contains(x@),
{
    let mut i: usize = 0;
    while i < v.len()
        invariant
            i <= v.len(),
            forall|j: int| 0 <= j < i ==> (#[trigger] v@[j])@ != x@,
        decreases v.len() - i,
    {
        if v[i].name == x.name && v[i].value == x.value {
            assert(rows(v@)[i as int] == x@);
            return true;
        }
        i = i + 1;
    }
    assert forall|j: int| 0 <= j < rows(v@).len() implies (#[trigger] rows(v@)[j]) != x@ by {
        assert(v@[j]@ != x@);
    }
    false
}

/// The index of the last resource of `b` with key `k`.
pub fn last_index_of_key(b: &Vec<Resource>, k: &String) -> (r: Option<usize>)
    ensures
        match r {
            Some(j) => j < b.len() && last_value(rows(b@), k@) == Some(b@[j as int].value@),
            None => last_value(rows(b@), k@) is None,
        },
{
    let mut found: Option<usize> = None;
    let mut i: usize = 0;
    while i < b.len()
        invariant
            i <= b.len(),
            match found {
                Some(j) => j < i && last_value(rows(b@).take(i as int), k@) == Some(
                    b@[j as int].value@,
                ),
                None => last_value(rows(b@).take(i as int), k@) is None,
            },
        decreases b.len() - i,
    {
        proof {
            lemma_take_step(rows(b@), i as int);
        }
        if b[i].name == *k {
            found = Some(i);
        }
        i = i + 1;
    }
    proof {
        lemma_take_all(rows(b@));
    }
    found
}

/// How many resources of `b` have key `k`.
pub fn count_of_key(b: &Vec<Resource>, k: &String) -> (r: usize)
    ensures
        r == count_key(rows(b@), k@),
{
    let mut n: usize = 0;
    let mut i: usize = 0;
    while i < b.len()
        invariant
            i <= b.len(),
            n == count_key(rows(b@).take(i as int), k@),
            n <= i,
        decreases b.len() - i,
    {
        proof {
            lemma_take_step(rows(b@), i as int);
        }
        if b[i].name == *k {
            n = n + 1;
        }
        i = i + 1;
    }
    proof {
        lemma_take_all(rows(b@));
    }
    n
}

/// How many resources of `a` have the key of `x` and another text.
pub fn count_of_changed(a: &Vec<Resource>, x: &Resource) -> (r: usize)
    ensures
        r == count_changed(rows(a@), x@),
{
    let mut n: usize = 0;
    let mut i: usize = 0;
    while i < a.len()
        invariant
            i <= a.len(),
            n == count_changed(rows(a@).take(i as int), x@),
            n <= i,
        decreases a.len() - i,
    {
        proof {
            lemma_take_step(rows(a@), i as int);
        }
        if a[i].name == x.name && a[i].value != x.value {
            n = n + 1;
        }
        i = i + 1;
    }
    proof {
        lemma_take_all(rows(a@));
    }
    n
}

/// Every resource of `a`, in its order.
pub fn print(a: &Vec<Resource>) -> (r: Vec<Resource>)
    ensures
        rows(r@) == rows(a@),
{
    let mut out: Vec<Resource> = Vec::new();
    let mut i: usize = 0;
    while i < a.len()
        invariant
            i <= a.len(),
            rows(out@) == rows(a@).take(i as int),
        decreases a.len() - i,
    {
        proof {
            lemma_take_step(rows(a@), i as int);
            lemma_rows_push(out@, a@[i as int]);
        }
        out.push(a[i].clone());
        assert(rows(out@) =~= rows(a@).take(i + 1));
        i = i + 1;
    }
    proof {
        lemma_take_all(rows(a@));
    }
    out
}

/// The resources of `a` sorted by key; resources with equal keys keep their order.
pub fn sort(a: &Vec<Resource>) -> (r: Vec<Resource>)
    ensures
        rows(r@) == sort_rows(rows(a@)),
{
    let mut out: Vec<Resource> = Vec::new();
    let mut keys: Vec<Vec<char>> = Vec::new();
    let mut i: usize = 0;
    while i < a.len()
        invariant
            i <= a.len(),
            rows(out@) == sort_rows(rows(a@).take(i as int)),
            keys@.len() == out@.len(),
            forall|j: int| 0 <= j < keys@.len() ==> (#[trigger] keys@[j])@ == out@[j].name@,
        decreases a.len() - i,
    {
        proof {
            lemma_take_step(rows(a@), i as int);
        }
        let key = chars_of(a[i].name.as_str());
        let mut p: usize = 0;
        while p < out.len() && !str_lt(&key, &keys[p])
            invariant
                p <= out.len(),
                keys@.len() == out@.len(),
                forall|j: int| 0 <= j < keys@.len() ==> (#[trigger] keys@[j])@ == out@[j].name@,
                forall|j: int| 0 <= j < p ==> !lex_lt(key@, (#[trigger] rows(out@)[j]).0),
            decreases out.len() - p,
        {
            p = p + 1;
        }
        proof {
            lemma_insert_by_key_at(rows(out@), a@[i as int]@, p as int);
        }
        let ghost old_out = out@;
        let ghost old_keys = keys@;
        out.insert(p, a[i].clone());
        keys.insert(p, key);
        assert(rows(out@) =~= rows(old_out).insert(p as int, a@[i as int]@));
        assert forall|j: int| 0 <= j < keys@.len() implies (#[trigger] keys@[j])@ == out@[j].name@ by {
            if j < p {
                assert(keys@[j] == old_keys[j]);
            } else if j > p {
                assert(keys@[j] == old_keys[j - 1]);
            }
        }
        i = i + 1;
    }
    proof {
        lemma_take_all(rows(a@));
    }
    out
}

proof fn lemma_insert_by_key_at(s: Seq<Row>, r: Row, p: int)
    requires
        0 <= p <= s.len(),
        forall|j: int| 0 <= j < p ==> !lex_lt(r.0, (#[trigger] s[j]).0),
        p < s.len() ==> lex_lt(r.0, s[p].0),
    ensures
        insert_by_key(s, r) == s.insert(p, r),
    decreases p,
{
    if s.len() == 0 {
        assert(s.insert(p, r) =~= seq![r]);
    } else if p == 0 {
        assert(s.insert(p, r) =~= seq![r] + s);
    } else {
        let t = s.drop_first();
        assert forall|j: int| 0 <= j < p - 1 implies !lex_lt(r.0, (#[trigger] t[j]).0) by {
            assert(t[j] == s[j + 1]);
        }
        assert(!lex_lt(r.0, s[0].0));
        lemma_insert_by_key_at(t, r, p - 1);
        assert(s.insert(p, r) =~= seq![s[0]] + t.insert(p - 1, r));
    }
}

/// The resources of `a` whose key `b` lacks.
pub fn diff(a: &Vec<Resource>, b: &Vec<Resource>) -> (r: Vec<Resource>)
    ensures
        rows(r@) == diff_rows(rows(a@), rows(b@)),
{
    let ghost keep = |r: Row| !has_key(rows(b@), r.0);
    let mut out: Vec<Resource> = Vec::new();
    let mut i: usize = 0;
    while i < a.len()
        invariant
            i <= a.len(),
            keep == (|r: Row| !has_key(rows(b@), r.0)),
            rows(out@) == keep_rows(rows(a@).take(i as int), keep),
        decreases a.len() - i,
    {
        proof {
            lemma_take_step(rows(a@), i as int);
            lemma_rows_push(out@, a@[i as int]);
        }
        if !contains_key(b, &a[i].name) {
            out.push(a[i].clone());
        }
        i = i + 1;
    }
    proof {
        lemma_take_all(rows(a@));
    }
    out
}

/// The resources of `a` whose key `b` lacks, or to which `b` gives another text.
pub fn change(a: &Vec<Resource>, b: &Vec<Resource>) -> (r: Vec<Resource>)
    ensures
        rows(r@) == change_rows(rows(a@), rows(b@)),
{
    let ghost keep = |r: Row| last_value(rows(b@), r.0) != Some(r.1);
    let mut out: Vec<Resource> = Vec::new();
    let mut i: usize = 0;
    while i < a.len()
        invariant
            i <= a.len(),
            keep == (|r: Row| last_value(rows(b@), r.0) != Some(r.1)),
            rows(out@) == keep_rows(rows(a@).take(i as int), keep),
        decreases a.len() - i,
    {
        proof {
            lemma_take_step(rows(a@), i as int);
            lemma_rows_push(out@, a@[i as int]);
        }
        let changed = match last_index_of_key(b, &a[i].name) {
            Some(j) => b[j].value != a[i].value,
            None => true,
        };
        if changed {
            out.push(a[i].clone());
        }
        i = i + 1;
    }
    proof {
        lemma_take_all(rows(a@));
    }
    out
}

/// The resources of `a` whose key `b` lacks: the same rows as `diff`.
pub fn subtract(a: &Vec<Resource>, b: &Vec<Resource>) -> (r: Vec<Resource>)
    ensures
        rows(r@) == diff_rows(rows(a@), rows(b@)),
{
    diff(a, b)
}

proof fn lemma_dedupe_push(s: Seq<Row>, x: Row)
    ensures
        dedupe(s.push(x)) == if dedupe(s).contains(x) {
            dedupe(s)
        } else {
            dedupe(s).push(x)
        },
{
    assert(s.push(x).drop_last() =~= s);
}

/// Pushes `x` onto `out` unless `out` already holds it.
fn push_unique(out: &mut Vec<Resource>, x: Resource)
    ensures
        rows(final(out)@) == if rows(old(out)@).contains(x@) {
            rows(old(out)@)
        } else {
            rows(old(out)@).push(x@)
        },
{
    if !contains_row(out, &x) {
        proof {
            lemma_rows_push(out@, x);
        }
        out.push(x);
    }
}

/// Each resource of `a` with the text of `b` where `b` has its key, then the
/// resources of `b` whose key `a` lacks; a row already given is not repeated.
pub fn merge(a: &Vec<Resource>, b: &Vec<Resource>) -> (r: Vec<Resource>)
    ensures
        rows(r@) == merge_rows(rows(a@), rows(b@)),
{
    let ghost ov = |r: Row| overridden(r, rows(b@));
    let ghost keep = |r: Row| !has_key(rows(a@), r.0);
    let ghost left = rows(a@).map_values(ov);
    let mut out: Vec<Resource> = Vec::new();
    let mut i: usize = 0;
    while i < a.len()
        invariant
            i <= a.len(),
            ov == (|r: Row| overridden(r, rows(b@))),
            rows(out@) == dedupe(rows(a@).take(i as int).map_values(ov)),
        decreases a.len() - i,
    {
        let ghost pre = rows(a@).take(i as int);
        assert(rows(a@).take(i + 1).map_values(ov) =~= pre.map_values(ov).push(ov(a@[i as int]@)));
        let merged = match last_index_of_key(b, &a[i].name) {
            Some(j) => Resource { name: a[i].name.clone(), value: b[j].value.clone() },
            None => a[i].clone(),
        };
        assert(merged@ == ov(a@[i as int]@));
        proof {
            lemma_dedupe_push(pre.map_values(ov), merged@);
        }
        push_unique(&mut out, merged);
        i = i + 1;
    }
    proof {
        lemma_take_all(rows(a@));
        assert(left + keep_rows(seq![], keep) =~= left);
        assert(rows(b@).take(0) =~= seq![]);
    }
    let mut k: usize = 0;
    while k < b.len()
        invariant
            k <= b.len(),
            keep == (|r: Row| !has_key(rows(a@), r.0)),
            rows(out@) == dedupe(left + keep_rows(rows(b@).take(k as int), keep)),
        decreases b.len() - k,
    {
        proof {
            lemma_take_step(rows(b@), k as int);
        }
        let ghost kept = keep_rows(rows(b@).take(k as int), keep);
        if !contains_key(a, &b[k].name) {
            assert(left + kept.push(b@[k as int]@) =~= (left + kept).push(b@[k as int]@));
            proof {
                lemma_dedupe_push(left + kept, b@[k as int]@);
            }
            push_unique(&mut out, b[k].clone());
        }
        k = k + 1;
    }
    proof {
        lemma_take_all(rows(b@));
    }
    out
}

/// The resources of `a` that `b` holds too, each row once.
pub fn intersect(a: &Vec<Resource>, b: &Vec<Resource>) -> (r: Vec<Resource>)
    ensures
        rows(r@) == intersect_rows(rows(a@), rows(b@)),
{
    let ghost keep = |r: Row| rows(b@).contains(r);
    let mut out: Vec<Resource> = Vec::new();
    let mut i: usize = 0;
    while i < a.len()
        invariant
            i <= a.len(),
            keep == (|r: Row| rows(b@).contains(r)),
            rows(out@) == dedupe(keep_rows(rows(a@).take(i as int), keep)),
        decreases a.len() - i,
    {
        proof {
            lemma_take_step(rows(a@), i as int);
        }
        if contains_row(b, &a[i]) {
            proof {
                lemma_dedupe_push(keep_rows(rows(a@).take(i as int), keep), a@[i as int]@);
            }
            push_unique(&mut out, a[i].clone());
        }
        i = i + 1;
    }
    proof {
        lemma_take_all(rows(a@));
    }
    out
}

/// Pushes `n` copies of `x` onto `out`.
fn push_copies(out: &mut Vec<Resource>, x: &Resource, n: usize)
    ensures
        rows(final(out)@) == rows(old(out)@) + repeat(x@, n as nat),
{
    let mut m: usize = 0;
    assert(rows(out@) + repeat(x@, 0) =~= rows(out@));
    while m < n
        invariant
            m <= n,
            rows(out@) == rows(old(out)@) + repeat(x@, m as nat),
        decreases n - m,
    {
        proof {
            lemma_rows_push(out@, *x);
        }
        out.push(x.clone());
        assert(rows(old(out)@) + repeat(x@, (m + 1) as nat) =~= (rows(old(out)@) + repeat(x@, m as nat)).push(x@));
        m = m + 1;
    }
}

/// Each resource of `a`, once for each resource of `b` with its key, or once
/// if there is none: the rows of a left outer join on the key.
pub fn left_join(a: &Vec<Resource>, b: &Vec<Resource>) -> (r: Vec<Resource>)
    ensures
        rows(r@) == left_join_rows(rows(a@), rows(b@)),
{
    let mut out: Vec<Resource> = Vec::new();
    let mut i: usize = 0;
    while i < a.len()
        invariant
            i <= a.len(),
            rows(out@) == left_join_rows(rows(a@).take(i as int), rows(b@)),
        decreases a.len() - i,
    {
        proof {
            lemma_take_step(rows(a@), i as int);
        }
        let n = count_of_key(b, &a[i].name);
        let n = if n == 0 { 1 } else { n };
        push_copies(&mut out, &a[i], n);
        i = i + 1;
    }
    proof {
        lemma_take_all(rows(a@));
    }
    out
}

/// Each resource of `b`, once for each resource of `a` with its key and
/// another text: the rows of `b` in an inner join on the key where the texts differ.
pub fn changed_values(a: &Vec<Resource>, b: &Vec<Resource>) -> (r: Vec<Resource>)
    ensures
        rows(r@) == changed_values_rows(rows(a@), rows(b@)),
{
    let mut out: Vec<Resource> = Vec::new();
    let mut k: usize = 0;
    while k < b.len()
        invariant
            k <= b.len(),
            rows(out@) == changed_values_rows(rows(a@), rows(b@).take(k as int)),
        decreases b.len() - k,
    {
        proof {
            lemma_take_step(rows(b@), k as int);
        }
        let n = count_of_changed(a, &b[k]);
        push_copies(&mut out, &b[k], n);
        k = k + 1;
    }
    proof {
        lemma_take_all(rows(b@));
    }
    out
}

/// For each resource of `new` whose key `old` lacks and `base` has: a triple
/// of its key, its text and the text that `base` gives the key.
pub fn diff_with_base(old: &Vec<Resource>, new: &Vec<Resource>, base: &Vec<Resource>) -> (r: Vec<Triple>)
    ensures
        triple_rows(r@) == diff_with_base_rows(rows(old@), rows(new@), rows(base@)),
{
    let mut out: Vec<Triple> = Vec::new();
    let mut k: usize = 0;
    while k < new.len()
        invariant
            k <= new.len(),
            triple_rows(out@) == diff_with_base_rows(rows(old@), rows(new@).take(k as int), rows(base@)),
        decreases new.len() - k,
    {
        proof {
            lemma_take_step(rows(new@), k as int);
        }
        if !contains_key(old, &new[k].name) {
            match last_index_of_key(base, &new[k].name) {
                Some(j) => {
                    let t = Triple {
                        name: new[k].name.clone(),
                        value: new[k].value.clone(),
                        base: base[j].value.clone(),
                    };
                    let ghost prev = out@;
                    out.push(t);
                    assert(triple_rows(out@) =~= triple_rows(prev).push(t@));
                },
                None => {},
            }
        }
        k = k + 1;
    }
    proof {
        lemma_take_all(rows(new@));
    }
    out
}

} // verus!
