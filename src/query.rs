//! The canonical query corpus: each operation's fixed SQL text, and how an
//! input query is recognised as one of them.
use vstd::prelude::*;
use crate::text::{chars_of, string_of, is_white_space, white_space, to_lower_ascii, lower_ascii};

verus! {

/// The operations of the corpus; each has exactly one SQL text.
#[derive(PartialEq, Eq, Structural, Clone, Copy, Debug)]
pub enum CanonicalQuery {
    SelectAll,
    SortByKey,
    Diff,
    Change,
    Merge,
    Intersect,
    Subtract,
    PullLeftJoin,
    PushChangedValues,
    DiffWithBase,
}

/// The SQL text of each operation, in canonical form.
pub open spec fn canonical_text(q: CanonicalQuery) -> Seq<char> {
    match q {
        CanonicalQuery::SelectAll => "select * from a"@,
        CanonicalQuery::SortByKey => "select * from a order by a.key"@,
        CanonicalQuery::Diff => "select a.key, a.val, b.val from a left outer join b on a.key = b.key where (b.val is null)"@,
        CanonicalQuery::Change => "select a.key, a.val, b.val from a left outer join b on a.key = b.key where (b.val is null) or (a.val <> b.val)"@,
        CanonicalQuery::Merge => "select a.key, case when b.val is not null then b.val else a.val end from a left outer join b on a.key = b.key union select b.key, b.val from b left outer join a on a.key = b.key where (a.key is null)"@,
        CanonicalQuery::Intersect => "select * from a intersect select * from b"@,
        CanonicalQuery::Subtract => "select * from a where a.key not in (select b.key from b)"@,
        CanonicalQuery::PullLeftJoin => "select a.key, a.val from a left outer join b on a.key = b.key"@,
        CanonicalQuery::PushChangedValues => "select b.key, b.val from b inner join a on (a.key = b.key) and (a.val <> b.val)"@,
        CanonicalQuery::DiffWithBase => "select b.key, b.val, c.val from b left outer join a on b.key = a.key inner join c on b.key = c.key where (a.val is null)"@,
    }
}

/// Whether the operation returns triples rather than resources.
pub open spec fn returns_triples(q: CanonicalQuery) -> bool {
    q == CanonicalQuery::DiffWithBase
}

impl CanonicalQuery {
    /// The SQL text of the operation, in canonical form.
    pub fn sql(&self) -> (s: &'static str)
        ensures
            s@ == canonical_text(*self),
    {
        match self {
            CanonicalQuery::SelectAll => "select * from a",
            CanonicalQuery::SortByKey => "select * from a order by a.key",
            CanonicalQuery::Diff => "select a.key, a.val, b.val from a left outer join b on a.key = b.key where (b.val is null)",
            CanonicalQuery::Change => "select a.key, a.val, b.val from a left outer join b on a.key = b.key where (b.val is null) or (a.val <> b.val)",
            CanonicalQuery::Merge => "select a.key, case when b.val is not null then b.val else a.val end from a left outer join b on a.key = b.key union select b.key, b.val from b left outer join a on a.key = b.key where (a.key is null)",
            CanonicalQuery::Intersect => "select * from a intersect select * from b",
            CanonicalQuery::Subtract => "select * from a where a.key not in (select b.key from b)",
            CanonicalQuery::PullLeftJoin => "select a.key, a.val from a left outer join b on a.key = b.key",
            CanonicalQuery::PushChangedValues => "select b.key, b.val from b inner join a on (a.key = b.key) and (a.val <> b.val)",
            CanonicalQuery::DiffWithBase => "select b.key, b.val, c.val from b left outer join a on b.key = a.key inner join c on b.key = c.key where (a.val is null)",
        }
    }

    /// Whether the operation returns triples rather than resources.
    pub fn is_triple(&self) -> (r: bool)
        ensures
            r == returns_triples(*self),
    {
        match self {
            CanonicalQuery::DiffWithBase => true,
            _ => false,
        }
    }
}

/// The canonical form of `s` so far, and whether white space is pending
/// after the last word.
pub open spec fn canonical_state(s: Seq<char>) -> (Seq<char>, bool)
    decreases s.len(),
{
    if s.len() == 0 {
        (seq![], false)
    } else {
        let (out, pending) = canonical_state(s.drop_last());
        let c = s.last();
        if white_space(c) {
            (out, true)
        } else if pending && out.len() > 0 {
            (out.push(' ').push(lower_ascii(c)), false)
        } else {
            (out.push(lower_ascii(c)), false)
        }
    }
}

/// `s` with its words joined by single spaces, leading and trailing white
/// space dropped, and ASCII capitals lowered.
pub open spec fn canonical(s: Seq<char>) -> Seq<char> {
    canonical_state(s).0
}

/// The operation whose canonical text is that of `s`, if any.
pub open spec fn recognised(s: Seq<char>) -> Option<CanonicalQuery> {
    let c = canonical(s);
    if c == canonical_text(CanonicalQuery::SelectAll) {
        Some(CanonicalQuery::SelectAll)
    } else if c == canonical_text(CanonicalQuery::SortByKey) {
        Some(CanonicalQuery::SortByKey)
    } else if c == canonical_text(CanonicalQuery::Diff) {
        Some(CanonicalQuery::Diff)
    } else if c == canonical_text(CanonicalQuery::Change) {
        Some(CanonicalQuery::Change)
    } else if c == canonical_text(CanonicalQuery::Merge) {
        Some(CanonicalQuery::Merge)
    } else if c == canonical_text(CanonicalQuery::Intersect) {
        Some(CanonicalQuery::Intersect)
    } else if c == canonical_text(CanonicalQuery::Subtract) {
        Some(CanonicalQuery::Subtract)
    } else if c == canonical_text(CanonicalQuery::PullLeftJoin) {
        Some(CanonicalQuery::PullLeftJoin)
    } else if c == canonical_text(CanonicalQuery::PushChangedValues) {
        Some(CanonicalQuery::PushChangedValues)
    } else if c == canonical_text(CanonicalQuery::DiffWithBase) {
        Some(CanonicalQuery::DiffWithBase)
    } else {
        None
    }
}

/// The canonical form of a query: words joined by single spaces, ASCII lowercase.
pub fn canonical_sql(input: &str) -> (r: String)
    ensures
        r@ == canonical(input@),
{
    let cs = chars_of(input);
    let mut out: Vec<char> = Vec::new();
    let mut pending = false;
    let mut i: usize = 0;
    while i < cs.len()
        invariant
            i <= cs.len(),
            cs@ == input@,
            canonical_state(cs@.take(i as int)) == (out@, pending),
        decreases cs.len() - i,
    {
        assert(cs@.take(i + 1).drop_last() =~= cs@.take(i as int));
        let c = cs[i];
        if is_white_space(c) {
            pending = true;
        } else {
            if pending && out.len() > 0 {
                out.push(' ');
            }
            out.push(to_lower_ascii(c));
            pending = false;
        }
        i = i + 1;
    }
    assert(cs@.take(cs@.len() as int) =~= cs@);
    string_of(out.as_slice())
}

/// Whether two strings hold the same characters.
pub fn same_text(a: &str, b: &str) -> (r: bool)
    ensures
        r == (a@ == b@),
{
    let x = chars_of(a);
    let y = chars_of(b);
    if x.len() != y.len() {
        return false;
    }
    let mut i: usize = 0;
    while i < x.len()
        invariant
            i <= x.len(),
            x.len() == y.len(),
            x@ == a@,
            y@ == b@,
            forall|j: int| 0 <= j < i ==> x@[j] == y@[j],
        decreases x.len() - i,
    {
        if x[i] != y[i] {
            assert(x@[i as int] != y@[i as int]);
            return false;
        }
        i = i + 1;
    }
    assert(x@ =~= y@);
    true
}

/// The operation that `query` names once put in canonical form, if any.
pub fn recognise(query: &str) -> (r: Option<CanonicalQuery>)
    ensures
        r == recognised(query@),
{
    let c = canonical_sql(query);
    let c = c.as_str();
    if same_text(c, CanonicalQuery::SelectAll.sql()) {
        Some(CanonicalQuery::SelectAll)
    } else if same_text(c, CanonicalQuery::SortByKey.sql()) {
        Some(CanonicalQuery::SortByKey)
    } else if same_text(c, CanonicalQuery::Diff.sql()) {
        Some(CanonicalQuery::Diff)
    } else if same_text(c, CanonicalQuery::Change.sql()) {
        Some(CanonicalQuery::Change)
    } else if same_text(c, CanonicalQuery::Merge.sql()) {
        Some(CanonicalQuery::Merge)
    } else if same_text(c, CanonicalQuery::Intersect.sql()) {
        Some(CanonicalQuery::Intersect)
    } else if same_text(c, CanonicalQuery::Subtract.sql()) {
        Some(CanonicalQuery::Subtract)
    } else if same_text(c, CanonicalQuery::PullLeftJoin.sql()) {
        Some(CanonicalQuery::PullLeftJoin)
    } else if same_text(c, CanonicalQuery::PushChangedValues.sql()) {
        Some(CanonicalQuery::PushChangedValues)
    } else if same_text(c, CanonicalQuery::DiffWithBase.sql()) {
        Some(CanonicalQuery::DiffWithBase)
    } else {
        None
    }
}

} // verus!
