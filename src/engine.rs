//! The query engine: a registry of named tables and the evaluation of the
//! canonical queries over them.
use vstd::prelude::*;
use crate::error::CirupError;
use crate::ops;
use crate::ops::{
    changed_values_rows, diff_rows, change_rows, diff_with_base_rows, intersect_rows,
    left_join_rows, merge_rows, sort_rows,
};
use crate::query::{CanonicalQuery, canonical_text, recognise, recognised};
use crate::resource::{Resource, Triple, Row, rows, triple_rows};
use crate::sql::{is_identifier, valid_table_name};
use crate::file::{VirtualFiles, vfile_set, vfile_get, load_resource_file, format_of_file, format_rows};

verus! {

/// The rows of the last table in `ts` named `name`.
pub open spec fn lookup(ts: Seq<(Seq<char>, Seq<Row>)>, name: Seq<char>) -> Option<Seq<Row>>
    decreases ts.len(),
{
    if ts.len() == 0 {
        None
    } else if ts.last().0 == name {
        Some(ts.last().1)
    } else {
        lookup(ts.drop_last(), name)
    }
}

/// The rows that a canonical resource query gives over tables `a` and `b`,
/// or `None` where the query is not one or a table it reads is missing.
pub open spec fn resource_result(
    q: Option<CanonicalQuery>,
    a: Option<Seq<Row>>,
    b: Option<Seq<Row>>,
) -> Option<Seq<Row>> {
    match q {
        Some(CanonicalQuery::SelectAll) => a,
        Some(CanonicalQuery::SortByKey) => match a {
            Some(x) => Some(sort_rows(x)),
            None => None,
        },
        Some(k) => if a is Some && b is Some && k != CanonicalQuery::DiffWithBase {
            let (x, y) = (a->0, b->0);
            Some(
                match k {
                    CanonicalQuery::Diff => diff_rows(x, y),
                    CanonicalQuery::Subtract => diff_rows(x, y),
                    CanonicalQuery::Change => change_rows(x, y),
                    CanonicalQuery::Merge => merge_rows(x, y),
                    CanonicalQuery::Intersect => intersect_rows(x, y),
                    CanonicalQuery::PullLeftJoin => left_join_rows(x, y),
                    _ => changed_values_rows(x, y),
                },
            )
        } else {
            None
        },
        None => None,
    }
}

/// The triples that a canonical triple query gives over tables `a`, `b` and
/// `c`, or `None` where the query is not one or a table is missing.
pub open spec fn triple_result(
    q: Option<CanonicalQuery>,
    a: Option<Seq<Row>>,
    b: Option<Seq<Row>>,
    c: Option<Seq<Row>>,
) -> Option<Seq<(Seq<char>, Seq<char>, Seq<char>)>> {
    if q == Some(CanonicalQuery::DiffWithBase) && a is Some && b is Some && c is Some {
        Some(diff_with_base_rows(a->0, b->0, c->0))
    } else {
        None
    }
}

proof fn lemma_lookup_update(ts: Seq<(Seq<char>, Seq<Row>)>, i: int, name: Seq<char>, x: Seq<Row>, other: Seq<char>)
    requires
        0 <= i < ts.len(),
        ts[i].0 == name,
        forall|j: int| i < j < ts.len() ==> (#[trigger] ts[j]).0 != name,
    ensures
        lookup(ts.update(i, (name, x)), other) == if other == name {
            Some(x)
        } else {
            lookup(ts, other)
        },
    decreases ts.len(),
{
    let u = ts.update(i, (name, x));
    if i == ts.len() - 1 {
        assert(u.drop_last() =~= ts.drop_last());
    } else {
        assert(u.drop_last() =~= ts.drop_last().update(i, (name, x)));
        lemma_lookup_update(ts.drop_last(), i, name, x, other);
    }
}

proof fn lemma_lookup_absent(ts: Seq<(Seq<char>, Seq<Row>)>, name: Seq<char>)
    requires
        forall|j: int| 0 <= j < ts.len() ==> (#[trigger] ts[j]).0 != name,
    ensures
        lookup(ts, name) is None,
    decreases ts.len(),
{
    if ts.len() > 0 {
        lemma_lookup_absent(ts.drop_last(), name);
    }
}

/// What registering `rows` as table `table` does to an engine's tables.
pub open spec fn registered(before: CirupEngine, after: CirupEngine, table: Seq<char>, rows: Seq<Row>) -> bool {
    forall|n: Seq<char>|
        #[trigger] after.table_rows(n) == if n == table {
            Some(rows)
        } else {
            before.table_rows(n)
        }
}

/// Registering a table twice replaces the first content: the tables read
/// afterwards hold only the second, and every query answers over it.
pub proof fn lemma_table_replacement(
    e0: CirupEngine,
    e1: CirupEngine,
    e2: CirupEngine,
    table: Seq<char>,
    first: Seq<Row>,
    second: Seq<Row>,
    query: Seq<char>,
)
    requires
        registered(e0, e1, table, first),
        registered(e1, e2, table, second),
    ensures
        e2.table_rows(table) == Some(second),
        table == "A"@ ==> resource_result(recognised(query), e2.table_rows("A"@), e2.table_rows("B"@))
            == resource_result(recognised(query), Some(second), e0.table_rows("B"@)),
        forall|n: Seq<char>| n != table ==> #[trigger] e2.table_rows(n) == e0.table_rows(n),
{
    assert(e2.table_rows(table) == Some(second));
    assert forall|n: Seq<char>| n != table implies #[trigger] e2.table_rows(n) == e0.table_rows(n) by {
        assert(e2.table_rows(n) == e1.table_rows(n));
    }
    reveal_strlit("A");
    reveal_strlit("B");
    if table == "A"@ {
        assert("A"@[0] != "B"@[0]);
        assert("A"@ != "B"@);
        assert(e2.table_rows("B"@) == e0.table_rows("B"@));
    }
}

/// Owns the registered tables and answers the canonical queries over them.
pub struct CirupEngine {
    tables: Vec<(String, Vec<Resource>)>,
}

impl CirupEngine {
    /// The registered tables: each name with its rows, in order of registration.
    pub closed spec fn entries(&self) -> Seq<(Seq<char>, Seq<Row>)> {
        self.tables@.map_values(|e: (String, Vec<Resource>)| (e.0@, rows(e.1@)))
    }

    /// The rows of the table registered under `name`, if any.
    pub open spec fn table_rows(&self, name: Seq<char>) -> Option<Seq<Row>> {
        lookup(self.entries(), name)
    }

    /// An engine with no tables.
    pub fn new() -> (e: CirupEngine)
        ensures
            forall|n: Seq<char>| (#[trigger] e.table_rows(n)) is None,
    {
        let e = CirupEngine { tables: Vec::new() };
        assert(e.entries() =~= seq![]);
        e
    }

    /// Registers `resources` as the table `table`, replacing what was
    /// registered under that name before.  A name that is no identifier is
    /// refused and nothing changes.
    pub fn register_table_with_resources(&mut self, table: &str, resources: Vec<Resource>) -> (r:
        Result<(), CirupError>)
        ensures
            r is Ok <==> is_identifier(table@),
            r is Ok ==> registered(*old(self), *final(self), table@, rows(resources@)),
            r is Err ==> r->Err_0 is Validation && forall|n: Seq<char>|
                #[trigger] final(self).table_rows(n) == old(self).table_rows(n),
    {
        if !valid_table_name(table) {
            let mut m = String::new();
            m.append("invalid table name: ");
            m.append(table);
            return Err(CirupError::Validation(m));
        }
        let name = table.to_owned();
        let mut found: Option<usize> = None;
        let mut i: usize = 0;
        while i < self.tables.len()
            invariant
                i <= self.tables.len(),
                name@ == table@,
                self.entries().len() == self.tables@.len(),
                match found {
                    Some(j) => j < i && self.entries()[j as int].0 == name@ && forall|k: int|
                        j < k < i ==> (#[trigger] self.entries()[k]).0 != name@,
                    None => forall|k: int| 0 <= k < i ==> (#[trigger] self.entries()[k]).0 != name@,
                },
            decreases self.tables.len() - i,
        {
            if self.tables[i].0 == name {
                found = Some(i);
            }
            i = i + 1;
        }
        let ghost before = self.entries();
        let ghost entry = (name@, rows(resources@));
        match found {
            Some(j) => {
                self.tables.set(j, (name, resources));
                assert(self.entries() =~= before.update(j as int, entry));
                assert forall|n: Seq<char>|
                    #[trigger] self.table_rows(n) == if n == table@ {
                        Some(entry.1)
                    } else {
                        old(self).table_rows(n)
                    } by {
                    lemma_lookup_update(before, j as int, table@, entry.1, n);
                }
            },
            None => {
                self.tables.push((name, resources));
                assert(self.entries() =~= before.push(entry));
                assert(self.entries().drop_last() =~= before);
            },
        }
        Ok(())
    }

    /// Stores `data` in `files` under the nominal `filename`, reads it back
    /// from there in the format that the name's extension selects, and
    /// registers its resources as table `table`.
    pub fn register_table_from_str(
        &mut self,
        files: &mut VirtualFiles,
        table: &str,
        filename: &str,
        data: &str,
    ) -> (r: Result<(), CirupError>)
        ensures
            final(files).text_of(filename@) == Some(data@),
            forall|n: Seq<char>| n != filename@ ==> #[trigger] final(files).text_of(n) == old(files).text_of(n),
            !is_identifier(table@) ==> r is Err,
            format_rows(format_of_file(filename@), data@) is None ==> r is Err && r->Err_0 is Parse,
            (is_identifier(table@) && format_rows(format_of_file(filename@), data@) is Some) ==> r is Ok,
            r is Ok ==> registered(*old(self), *final(self), table@, format_rows(format_of_file(filename@), data@)->0),
            r is Err ==> forall|n: Seq<char>| #[trigger] final(self).table_rows(n) == old(self).table_rows(n),
    {
        vfile_set(files, filename, data);
        let text = match vfile_get(files, filename) {
            Some(t) => t,
            None => String::new(),
        };
        let resources = match load_resource_file(filename, text.as_str()) {
            Ok(v) => v,
            Err(e) => return Err(e),
        };
        self.register_table_with_resources(table, resources)
    }

    /// The table registered under `name`, if any.
    pub fn table(&self, name: &str) -> (r: Option<&Vec<Resource>>)
        ensures
            match r {
                Some(v) => self.table_rows(name@) == Some(rows(v@)),
                None => self.table_rows(name@) is None,
            },
    {
        let key = name.to_owned();
        let mut found: Option<usize> = None;
        let mut i: usize = 0;
        while i < self.tables.len()
            invariant
                i <= self.tables.len(),
                key@ == name@,
                self.entries().len() == self.tables@.len(),
                match found {
                    Some(j) => j < i && lookup(self.entries().take(i as int), name@) == Some(
                        self.entries()[j as int].1,
                    ),
                    None => lookup(self.entries().take(i as int), name@) is None,
                },
            decreases self.tables.len() - i,
        {
            assert(self.entries().take(i + 1).drop_last() =~= self.entries().take(i as int));
            if self.tables[i].0 == key {
                found = Some(i);
            }
            i = i + 1;
        }
        assert(self.entries().take(i as int) =~= self.entries());
        match found {
            Some(j) => Some(&self.tables[j].1),
            None => None,
        }
    }

    /// The resources that operation `k` gives over tables A and B, if it is
    /// a resource operation and the tables it reads are registered.
    pub fn evaluate(&self, k: CanonicalQuery) -> (r: Option<Vec<Resource>>)
        ensures
            match r {
                Some(v) => resource_result(Some(k), self.table_rows("A"@), self.table_rows("B"@))
                    == Some(rows(v@)),
                None => resource_result(Some(k), self.table_rows("A"@), self.table_rows("B"@)) is None,
            },
    {
        let a = self.table("A");
        let b = self.table("B");
        match k {
            CanonicalQuery::SelectAll => match a {
                Some(x) => Some(ops::print(x)),
                None => None,
            },
            CanonicalQuery::SortByKey => match a {
                Some(x) => Some(ops::sort(x)),
                None => None,
            },
            CanonicalQuery::DiffWithBase => None,
            _ => match (a, b) {
                (Some(x), Some(y)) => Some(
                    match k {
                        CanonicalQuery::Diff => ops::diff(x, y),
                        CanonicalQuery::Subtract => ops::subtract(x, y),
                        CanonicalQuery::Change => ops::change(x, y),
                        CanonicalQuery::Merge => ops::merge(x, y),
                        CanonicalQuery::Intersect => ops::intersect(x, y),
                        CanonicalQuery::PullLeftJoin => ops::left_join(x, y),
                        _ => ops::changed_values(x, y),
                    },
                ),
                _ => None,
            },
        }
    }

    /// The triples that operation `k` gives over tables A, B and C, if it is
    /// the three-way diff and the tables are registered.
    pub fn evaluate_triple(&self, k: CanonicalQuery) -> (r: Option<Vec<Triple>>)
        ensures
            match r {
                Some(v) => triple_result(
                    Some(k),
                    self.table_rows("A"@),
                    self.table_rows("B"@),
                    self.table_rows("C"@),
                ) == Some(triple_rows(v@)),
                None => triple_result(
                    Some(k),
                    self.table_rows("A"@),
                    self.table_rows("B"@),
                    self.table_rows("C"@),
                ) is None,
            },
    {
        match k {
            CanonicalQuery::DiffWithBase => {
                match (self.table("A"), self.table("B"), self.table("C")) {
                    (Some(a), Some(b), Some(c)) => Some(ops::diff_with_base(a, b, c)),
                    _ => None,
                }
            },
            _ => None,
        }
    }

    /// Evaluates `query` directly when, in canonical form, it is one of the
    /// canonical resource queries and the tables it reads are registered.
    pub fn query_resource_fast(&self, query: &str) -> (r: Option<Vec<Resource>>)
        ensures
            match r {
                Some(v) => resource_result(
                    recognised(query@),
                    self.table_rows("A"@),
                    self.table_rows("B"@),
                ) == Some(rows(v@)),
                None => resource_result(
                    recognised(query@),
                    self.table_rows("A"@),
                    self.table_rows("B"@),
                ) is None,
            },
    {
        match recognise(query) {
            Some(k) => self.evaluate(k),
            None => None,
        }
    }

    /// Evaluates `query` directly when, in canonical form, it is the
    /// three-way diff and tables A, B and C are registered.
    pub fn query_triple_fast(&self, query: &str) -> (r: Option<Vec<Triple>>)
        ensures
            match r {
                Some(v) => triple_result(
                    recognised(query@),
                    self.table_rows("A"@),
                    self.table_rows("B"@),
                    self.table_rows("C"@),
                ) == Some(triple_rows(v@)),
                None => triple_result(
                    recognised(query@),
                    self.table_rows("A"@),
                    self.table_rows("B"@),
                    self.table_rows("C"@),
                ) is None,
            },
    {
        match recognise(query) {
            Some(k) => self.evaluate_triple(k),
            None => None,
        }
    }

    /// The resources that `query` gives; none where it is not a canonical
    /// resource query over registered tables.
    pub fn query_resource(&self, query: &str) -> (r: Vec<Resource>)
        ensures
            rows(r@) == match resource_result(
                recognised(query@),
                self.table_rows("A"@),
                self.table_rows("B"@),
            ) {
                Some(x) => x,
                None => seq![],
            },
    {
        match self.query_resource_fast(query) {
            Some(v) => v,
            None => {
                let v: Vec<Resource> = Vec::new();
                assert(rows(v@) =~= seq![]);
                v
            },
        }
    }

    /// The triples that `query` gives; none where it is not the three-way
    /// diff over registered tables.
    pub fn query_triple(&self, query: &str) -> (r: Vec<Triple>)
        ensures
            triple_rows(r@) == match triple_result(
                recognised(query@),
                self.table_rows("A"@),
                self.table_rows("B"@),
                self.table_rows("C"@),
            ) {
                Some(x) => x,
                None => seq![],
            },
    {
        match self.query_triple_fast(query) {
            Some(v) => v,
            None => {
                let v: Vec<Triple> = Vec::new();
                assert(triple_rows(v@) =~= seq![]);
                v
            },
        }
    }
}

/// A canonical operation bound to the tables it reads, registered as A, B and C.
pub struct CirupQuery {
    engine: CirupEngine,
    query: CanonicalQuery,
}

impl CirupQuery {
    pub closed spec fn engine(&self) -> CirupEngine {
        self.engine
    }

    pub closed spec fn kind(&self) -> CanonicalQuery {
        self.query
    }

    /// The rows of the table registered under `name`.
    pub open spec fn table_rows(&self, name: Seq<char>) -> Option<Seq<Row>> {
        self.engine().table_rows(name)
    }

    /// Registers `a`, and `b` and `c` where given, as tables A, B and C of a
    /// new engine, for operation `query`.
    pub fn new(
        query: CanonicalQuery,
        a: Vec<Resource>,
        b: Option<Vec<Resource>>,
        c: Option<Vec<Resource>>,
    ) -> (q: CirupQuery)
        ensures
            q.kind() == query,
            q.table_rows("A"@) == Some(rows(a@)),
            q.table_rows("B"@) == match b {
                Some(x) => Some(rows(x@)),
                None => None,
            },
            q.table_rows("C"@) == match c {
                Some(x) => Some(rows(x@)),
                None => None,
            },
    {
        proof {
            reveal_strlit("A");
            reveal_strlit("B");
            reveal_strlit("C");
        }
        let mut engine = CirupEngine::new();
        let ghost ra = rows(a@);
        let _ = engine.register_table_with_resources("A", a);
        match b {
            Some(x) => {
                let _ = engine.register_table_with_resources("B", x);
            },
            None => {},
        }
        match c {
            Some(x) => {
                let _ = engine.register_table_with_resources("C", x);
            },
            None => {},
        }
        CirupQuery { engine, query }
    }

    /// The canonical SQL text of the operation.
    pub fn sql(&self) -> (s: &'static str)
        ensures
            s@ == canonical_text(self.kind()),
    {
        self.query.sql()
    }

    /// The resources that the operation gives; none for the three-way diff.
    pub fn run(&self) -> (r: Vec<Resource>)
        ensures
            rows(r@) == match resource_result(
                Some(self.kind()),
                self.table_rows("A"@),
                self.table_rows("B"@),
            ) {
                Some(x) => x,
                None => seq![],
            },
    {
        match self.engine.evaluate(self.query) {
            Some(v) => v,
            None => {
                let v: Vec<Resource> = Vec::new();
                assert(rows(v@) =~= seq![]);
                v
            },
        }
    }

    /// The triples that the operation gives; none but for the three-way diff.
    pub fn run_triple(&self) -> (r: Vec<Triple>)
        ensures
            triple_rows(r@) == match triple_result(
                Some(self.kind()),
                self.table_rows("A"@),
                self.table_rows("B"@),
                self.table_rows("C"@),
            ) {
                Some(x) => x,
                None => seq![],
            },
    {
        match self.engine.evaluate_triple(self.query) {
            Some(v) => v,
            None => {
                let v: Vec<Triple> = Vec::new();
                assert(triple_rows(v@) =~= seq![]);
                v
            },
        }
    }
}

/// Every resource of `a`.
pub fn query_print(a: Vec<Resource>) -> (q: CirupQuery)
    ensures
        q.table_rows("A"@) == Some(rows(a@)),
        q.kind() == CanonicalQuery::SelectAll,
{
    CirupQuery::new(CanonicalQuery::SelectAll, a, None, None)
}

/// Every resource of `a`, to be written in another format.
pub fn query_convert(a: Vec<Resource>) -> (q: CirupQuery)
    ensures
        q.table_rows("A"@) == Some(rows(a@)),
        q.kind() == CanonicalQuery::SelectAll,
{
    CirupQuery::new(CanonicalQuery::SelectAll, a, None, None)
}

/// The resources of `a` sorted by key.
pub fn query_sort(a: Vec<Resource>) -> (q: CirupQuery)
    ensures
        q.table_rows("A"@) == Some(rows(a@)),
        q.kind() == CanonicalQuery::SortByKey,
{
    CirupQuery::new(CanonicalQuery::SortByKey, a, None, None)
}

/// Operation `k` over `a` and `b` as tables A and B.
pub fn query_pair(k: CanonicalQuery, a: Vec<Resource>, b: Vec<Resource>) -> (q: CirupQuery)
    ensures
        q.table_rows("A"@) == Some(rows(a@)),
        q.table_rows("B"@) == Some(rows(b@)),
        q.kind() == k,
{
    CirupQuery::new(k, a, Some(b), None)
}

/// The resources of `a` whose key `b` lacks.
pub fn query_diff(a: Vec<Resource>, b: Vec<Resource>) -> (q: CirupQuery)
    ensures
        q.table_rows("A"@) == Some(rows(a@)),
        q.table_rows("B"@) == Some(rows(b@)),
        q.kind() == CanonicalQuery::Diff,
{
    query_pair(CanonicalQuery::Diff, a, b)
}

/// The resources of `a` that `b` lacks or changes.
pub fn query_change(a: Vec<Resource>, b: Vec<Resource>) -> (q: CirupQuery)
    ensures
        q.table_rows("A"@) == Some(rows(a@)),
        q.table_rows("B"@) == Some(rows(b@)),
        q.kind() == CanonicalQuery::Change,
{
    query_pair(CanonicalQuery::Change, a, b)
}

/// `a` with the texts of `b`, and the resources of `b` that `a` lacks.
pub fn query_merge(a: Vec<Resource>, b: Vec<Resource>) -> (q: CirupQuery)
    ensures
        q.table_rows("A"@) == Some(rows(a@)),
        q.table_rows("B"@) == Some(rows(b@)),
        q.kind() == CanonicalQuery::Merge,
{
    query_pair(CanonicalQuery::Merge, a, b)
}

/// The resources that `a` and `b` share.
pub fn query_intersect(a: Vec<Resource>, b: Vec<Resource>) -> (q: CirupQuery)
    ensures
        q.table_rows("A"@) == Some(rows(a@)),
        q.table_rows("B"@) == Some(rows(b@)),
        q.kind() == CanonicalQuery::Intersect,
{
    query_pair(CanonicalQuery::Intersect, a, b)
}

/// The resources of `a` whose key `b` lacks.
pub fn query_subtract(a: Vec<Resource>, b: Vec<Resource>) -> (q: CirupQuery)
    ensures
        q.table_rows("A"@) == Some(rows(a@)),
        q.table_rows("B"@) == Some(rows(b@)),
        q.kind() == CanonicalQuery::Subtract,
{
    query_pair(CanonicalQuery::Subtract, a, b)
}

/// The three-way diff of `old`, `new` and `base` as tables A, B and C.
pub fn query_diff_with_base(old: Vec<Resource>, new: Vec<Resource>, base: Vec<Resource>) -> (q:
    CirupQuery)
    ensures
        q.table_rows("A"@) == Some(rows(old@)),
        q.table_rows("B"@) == Some(rows(new@)),
        q.table_rows("C"@) == Some(rows(base@)),
        q.kind() == CanonicalQuery::DiffWithBase,
{
    CirupQuery::new(CanonicalQuery::DiffWithBase, old, Some(new), Some(base))
}

} // verus!
