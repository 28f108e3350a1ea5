//! SQL text that the library builds: identifier checks, quoted literals and
//! the statements that materialise a table.
use vstd::prelude::*;
use crate::resource::{Resource, Row, rows};
use crate::error::CirupError;
use crate::text::{chars_of, push_char};

verus! {

pub open spec fn ascii_letter(c: char) -> bool {
    ('a' <= c && c <= 'z') || ('A' <= c && c <= 'Z')
}

pub open spec fn ascii_digit(c: char) -> bool {
    '0' <= c && c <= '9'
}

/// `s` matches `[A-Za-z_][A-Za-z0-9_]*`.
pub open spec fn is_identifier(s: Seq<char>) -> bool {
    &&& s.len() > 0
    &&& (ascii_letter(s[0]) || s[0] == '_')
    &&& forall|i: int|
        1 <= i < s.len() ==> ascii_letter(#[trigger] s[i]) || ascii_digit(s[i]) || s[i] == '_'
}

/// Whether `table` may be interpolated into DDL as a table name.
pub fn valid_table_name(table: &str) -> (r: bool)
    ensures
        r == is_identifier(table@),
{
    let cs = chars_of(table);
    if cs.len() == 0 {
        return false;
    }
    let first = cs[0];
    if !(('a' <= first && first <= 'z') || ('A' <= first && first <= 'Z') || first == '_') {
        return false;
    }
    let mut i: usize = 1;
    while i < cs.len()
        invariant
            1 <= i <= cs.len(),
            cs@ == table@,
            forall|j: int|
                1 <= j < i ==> ascii_letter(#[trigger] cs@[j]) || ascii_digit(cs@[j]) || cs@[j]
                    == '_',
        decreases cs.len() - i,
    {
        let c = cs[i];
        if !(('a' <= c && c <= 'z') || ('A' <= c && c <= 'Z') || ('0' <= c && c <= '9') || c
            == '_') {
            return false;
        }
        i = i + 1;
    }
    true
}

/// `s` with every single quote doubled.
pub open spec fn quote_body(s: Seq<char>) -> Seq<char>
    decreases s.len(),
{
    if s.len() == 0 {
        seq![]
    } else if s.last() == '\'' {
        quote_body(s.drop_last()) + seq!['\'', '\'']
    } else {
        quote_body(s.drop_last()).push(s.last())
    }
}

/// `s` as an SQL string literal.
pub open spec fn sql_quoted(s: Seq<char>) -> Seq<char> {
    seq!['\''] + quote_body(s) + seq!['\'']
}

/// Appends `value` to `out` as an SQL string literal.
pub fn append_sql_quoted(out: &mut String, value: &str)
    ensures
        final(out)@ == old(out)@ + sql_quoted(value@),
{
    let cs = chars_of(value);
    push_char(out, '\'');
    let mut i: usize = 0;
    while i < cs.len()
        invariant
            i <= cs.len(),
            cs@ == value@,
            out@ == old(out)@ + seq!['\''] + quote_body(cs@.take(i as int)),
        decreases cs.len() - i,
    {
        assert(cs@.take(i + 1).drop_last() =~= cs@.take(i as int));
        let c = cs[i];
        if c == '\'' {
            push_char(out, '\'');
            push_char(out, '\'');
        } else {
            push_char(out, c);
        }
        i = i + 1;
    }
    assert(cs@.take(cs@.len() as int) =~= cs@);
    push_char(out, '\'');
}

/// The `(key,val)` tuple of one row.
pub open spec fn sql_tuple(r: Row) -> Seq<char> {
    seq!['('] + sql_quoted(r.0) + seq![','] + sql_quoted(r.1) + seq![')']
}

/// The tuples of `rs`, separated by commas.
pub open spec fn sql_tuples(rs: Seq<Row>) -> Seq<char>
    decreases rs.len(),
{
    if rs.len() == 0 {
        seq![]
    } else if rs.len() == 1 {
        sql_tuple(rs[0])
    } else {
        sql_tuples(rs.drop_last()) + seq![','] + sql_tuple(rs.last())
    }
}

/// `INSERT INTO <table> (key, val) VALUES <tuples>;`
pub open spec fn multi_insert_sql(table: Seq<char>, rs: Seq<Row>) -> Seq<char> {
    "INSERT INTO "@ + table + " (key, val) VALUES "@ + sql_tuples(rs) + seq![';']
}

/// Replaces the contents of `out` with one statement that inserts every
/// resource of `resources` into `table`.
pub fn build_multi_insert_sql(table: &str, resources: &[Resource], out: &mut String)
    ensures
        final(out)@ == multi_insert_sql(table@, rows(resources@)),
{
    *out = String::new();
    out.append("INSERT INTO ");
    out.append(table);
    out.append(" (key, val) VALUES ");
    let ghost head = out@;
    let mut i: usize = 0;
    while i < resources.len()
        invariant
            i <= resources.len(),
            out@ == head + sql_tuples(rows(resources@).take(i as int)),
        decreases resources.len() - i,
    {
        let ghost rs = rows(resources@);
        assert(rs.take(i + 1).drop_last() =~= rs.take(i as int));
        assert(rs.take(i + 1).last() == resources@[i as int]@);
        if i > 0 {
            push_char(out, ',');
        } else {
            assert(rs.take(i + 1) =~= seq![rs[0]]);
            assert(rs.take(i as int) =~= seq![]);
        }
        push_char(out, '(');
        append_sql_quoted(out, resources[i].name.as_str());
        push_char(out, ',');
        append_sql_quoted(out, resources[i].value.as_str());
        push_char(out, ')');
        proof {
            reveal_with_fuel(sql_tuples, 2);
        }
        assert(out@ =~= head + sql_tuples(rs.take(i + 1)));
        i = i + 1;
    }
    assert(rows(resources@).take(resources.len() as int) =~= rows(resources@));
    push_char(out, ';');
    proof {
        reveal_strlit("INSERT INTO ");
        reveal_strlit(" (key, val) VALUES ");
    }
}

/// `CREATE INDEX IF NOT EXISTS idx_<table>_key ON <table> (key);`
pub open spec fn key_index_sql(table: Seq<char>) -> Seq<char> {
    "CREATE INDEX IF NOT EXISTS idx_"@ + table + "_key ON "@ + table + " (key);"@
}

/// The statement that indexes `table` by key.
pub fn build_key_index_sql(table: &str) -> (r: String)
    ensures
        r@ == key_index_sql(table@),
{
    let mut s = String::new();
    s.append("CREATE INDEX IF NOT EXISTS idx_");
    s.append(table);
    s.append("_key ON ");
    s.append(table);
    s.append(" (key);");
    s
}

/// `DROP TABLE IF EXISTS <table>; CREATE TABLE <table> (key TEXT, val TEXT);`
pub open spec fn create_table_sql(table: Seq<char>) -> Seq<char> {
    "DROP TABLE IF EXISTS "@ + table + "; CREATE TABLE "@ + table + " (key TEXT, val TEXT);"@
}

/// The statements that replace `table` with an empty two-column table.
pub fn build_create_table_sql(table: &str) -> (r: String)
    ensures
        r@ == create_table_sql(table@),
{
    let mut s = String::new();
    s.append("DROP TABLE IF EXISTS ");
    s.append(table);
    s.append("; CREATE TABLE ");
    s.append(table);
    s.append(" (key TEXT, val TEXT);");
    s
}

/// The largest number of rows that one insert statement carries.
pub const INSERT_CHUNK_SIZE: usize = 2000;

/// One insert statement for each run of at most `INSERT_CHUNK_SIZE` rows, in order.
pub open spec fn insert_statements(table: Seq<char>, rs: Seq<Row>) -> Seq<Seq<char>>
    decreases rs.len(),
{
    if rs.len() == 0 {
        seq![]
    } else if rs.len() <= INSERT_CHUNK_SIZE {
        seq![multi_insert_sql(table, rs)]
    } else {
        seq![multi_insert_sql(table, rs.take(INSERT_CHUNK_SIZE as int))] + insert_statements(
            table,
            rs.skip(INSERT_CHUNK_SIZE as int),
        )
    }
}

/// The statements that materialise `rs` as table `table`: the table is
/// replaced, and rows are inserted and indexed inside one transaction.
pub open spec fn materialize_sql(table: Seq<char>, rs: Seq<Row>) -> Seq<Seq<char>> {
    if rs.len() == 0 {
        seq![create_table_sql(table)]
    } else {
        seq![create_table_sql(table), "BEGIN"@] + insert_statements(table, rs) + seq![
            key_index_sql(table),
            "COMMIT"@,
        ]
    }
}

pub open spec fn texts(v: Seq<String>) -> Seq<Seq<char>> {
    v.map_values(|s: String| s@)
}

/// The statements that materialise `resources` as table `table`; a name
/// that is no identifier is refused before any statement is built.
pub fn materialize_statements(table: &str, resources: &Vec<Resource>) -> (r: Result<Vec<String>, CirupError>)
    ensures
        match r {
            Ok(v) => is_identifier(table@) && texts(v@) == materialize_sql(table@, rows(resources@)),
            Err(e) => !is_identifier(table@) && e is Validation,
        },
{
    if !valid_table_name(table) {
        let mut m = String::new();
        m.append("invalid table name: ");
        m.append(table);
        return Err(CirupError::Validation(m));
    }
    let mut out: Vec<String> = Vec::new();
    out.push(build_create_table_sql(table));
    if resources.len() == 0 {
        assert(texts(out@) =~= materialize_sql(table@, rows(resources@)));
        return Ok(out);
    }
    out.push(String::from_str("BEGIN"));
    let ghost rs = rows(resources@);
    let ghost head = texts(out@);
    let mut start: usize = 0;
    assert(rs.skip(0) =~= rs);
    assert(head + seq![] =~= head);
    while start < resources.len()
        invariant
            start <= resources.len(),
            rs == rows(resources@),
            texts(out@) + insert_statements(table@, rs.skip(start as int)) == head + insert_statements(table@, rs),
        decreases resources.len() - start,
    {
        let end = if resources.len() - start <= INSERT_CHUNK_SIZE { resources.len() } else { start + INSERT_CHUNK_SIZE };
        let mut chunk: Vec<Resource> = Vec::new();
        let mut i: usize = start;
        while i < end
            invariant
                start <= i <= end <= resources.len(),
                rows(chunk@) == rs.subrange(start as int, i as int),
                rs == rows(resources@),
            decreases end - i,
        {
            let ghost before = chunk@;
            chunk.push(resources[i].clone());
            assert(rows(chunk@) =~= rows(before).push(resources@[i as int]@));
            i = i + 1;
            assert(rows(chunk@) =~= rs.subrange(start as int, i as int));
        }
        let mut stmt = String::new();
        build_multi_insert_sql(table, chunk.as_slice(), &mut stmt);
        let ghost rest = rs.skip(start as int);
        let ghost before = texts(out@);
        out.push(stmt);
        assert(texts(out@) =~= before.push(stmt@));
        if end == resources.len() {
            assert(rest =~= rs.subrange(start as int, end as int));
            assert(rs.skip(end as int) =~= seq![]);
            assert(insert_statements(table@, rest) == seq![stmt@]);
        } else {
            assert(rest.take(INSERT_CHUNK_SIZE as int) =~= rs.subrange(start as int, end as int));
            assert(rest.skip(INSERT_CHUNK_SIZE as int) =~= rs.skip(end as int));
        }
        assert(before.push(stmt@) + insert_statements(table@, rs.skip(end as int)) =~= before + insert_statements(table@, rest));
        start = end;
    }
    assert(rs.skip(resources.len() as int) =~= seq![]);
    assert(texts(out@) + seq![] =~= texts(out@));
    let ghost before = texts(out@);
    out.push(build_key_index_sql(table));
    out.push(String::from_str("COMMIT"));
    assert(texts(out@) =~= before + seq![key_index_sql(table@), "COMMIT"@]);
    assert(texts(out@) =~= materialize_sql(table@, rs));
    Ok(out)
}

} // verus!
