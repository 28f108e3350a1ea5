//! The JSON format: nested objects whose string leaves are the resources,
//! keyed by their dot path.
use vstd::prelude::*;
use crate::error::CirupError;
use crate::resource::{Resource, Row, rows};
use crate::revision::{first_index, join_dots, first_index_of, slice_of};
use crate::text::{chars_of, string_of};

verus! {

/// A JSON value as the library reads it: a string, an object with its
/// entries in document order, or anything else.
pub enum JsonTree {
    Text(String),
    Object(Vec<(String, JsonTree)>),
    Other,
}

/// The mathematical content of a `JsonTree`.
pub enum JsonView {
    Text(Seq<char>),
    Object(Seq<(Seq<char>, JsonView)>),
    Other,
}

pub open spec fn tree_view(t: JsonTree) -> JsonView
    decreases t,
{
    match t {
        JsonTree::Text(s) => JsonView::Text(s@),
        JsonTree::Object(es) => JsonView::Object(
            Seq::new(
                es@.len(),
                |i: int|
                    (es@[i].0@, if 0 <= i < es@.len() {
                        tree_view(es@[i].1)
                    } else {
                        JsonView::Other
                    }),
            ),
        ),
        JsonTree::Other => JsonView::Other,
    }
}

/// The content of a list of object entries.
pub open spec fn entries_view(es: Seq<(String, JsonTree)>) -> Seq<(Seq<char>, JsonView)> {
    Seq::new(es.len(), |i: int| (es[i].0@, tree_view(es[i].1)))
}

/// The leaves of `v` under `path` that are strings, each with its dot path, in document order.
pub open spec fn flatten_view(v: JsonView, path: Seq<Seq<char>>) -> Seq<Row>
    decreases v, 0nat,
{
    match v {
        JsonView::Text(s) => seq![(join_dots(path), s)],
        JsonView::Object(es) => flatten_entries(es, path, es.len()),
        JsonView::Other => seq![],
    }
}

/// The string leaves of the first `n` entries under `path`.
pub open spec fn flatten_entries(es: Seq<(Seq<char>, JsonView)>, path: Seq<Seq<char>>, n: nat) -> Seq<Row>
    decreases es, n,
{
    if n == 0 || n > es.len() {
        seq![]
    } else {
        flatten_entries(es, path, (n - 1) as nat) + flatten_view(es[n - 1].1, path.push(es[n - 1].0))
    }
}

/// Whether an entry has key `k`.
pub open spec fn has_entry(es: Seq<(Seq<char>, JsonView)>, k: Seq<char>) -> bool {
    exists|i: int| 0 <= i < es.len() && (#[trigger] es[i]).0 == k
}

/// The index of the first entry with key `k`.
pub open spec fn entry_index(es: Seq<(Seq<char>, JsonView)>, k: Seq<char>) -> int {
    choose|i: int| 0 <= i < es.len() && (#[trigger] es[i]).0 == k && forall|j: int| 0 <= j < i ==> es[j].0 != k
}

/// `es` with the string `value` placed at the dot path `name`, split at its
/// first `.`: an existing string is replaced in place, a missing key is
/// added last.  `None` where a string and an object would share a key.
pub open spec fn insert_path(es: Seq<(Seq<char>, JsonView)>, name: Seq<char>, value: Seq<char>) -> Option<
    Seq<(Seq<char>, JsonView)>,
>
    decreases name.len(),
{
    let k = first_index(name, '.');
    if k < 0 || k >= name.len() {
        if !has_entry(es, name) {
            Some(es.push((name, JsonView::Text(value))))
        } else if es[entry_index(es, name)].1 is Text {
            Some(es.update(entry_index(es, name), (name, JsonView::Text(value))))
        } else {
            None
        }
    } else {
        let root = name.take(k);
        let rest = name.skip(k + 1);
        if !has_entry(es, root) {
            match insert_path(seq![], rest, value) {
                Some(c) => Some(es.push((root, JsonView::Object(c)))),
                None => None,
            }
        } else {
            match es[entry_index(es, root)].1 {
                JsonView::Object(c) => match insert_path(c, rest, value) {
                    Some(c2) => Some(es.update(entry_index(es, root), (root, JsonView::Object(c2)))),
                    None => None,
                },
                _ => None,
            }
        }
    }
}

/// The entries of the root object that hold every resource in turn.
pub open spec fn build_entries(rs: Seq<Row>) -> Option<Seq<(Seq<char>, JsonView)>>
    decreases rs.len(),
{
    if rs.len() == 0 {
        Some(seq![])
    } else {
        match build_entries(rs.drop_last()) {
            Some(es) => insert_path(es, rs.last().0, rs.last().1),
            None => None,
        }
    }
}

/// One entry's value in a parsed JSON object: a string, an object as its
/// compact JSON text, or another kind.
pub enum JsonPiece {
    Text(String),
    Object(String),
    Other,
}

/// The content of a `JsonPiece`.
pub enum PieceView {
    Text(Seq<char>),
    Object(Seq<char>),
    Other,
}

pub open spec fn piece_view(p: JsonPiece) -> PieceView {
    match p {
        JsonPiece::Text(s) => PieceView::Text(s@),
        JsonPiece::Object(t) => PieceView::Object(t@),
        JsonPiece::Other => PieceView::Other,
    }
}

pub open spec fn pieces_view(es: Seq<(String, JsonPiece)>) -> Seq<(Seq<char>, PieceView)> {
    Seq::new(es.len(), |i: int| (es[i].0@, piece_view(es[i].1)))
}

/// What `serde_json` reads in `text`, where it is a JSON document whose root
/// is an object: the root's entries in document order (the `preserve_order`
/// feature keeps it), each object given as its compact JSON text.
pub uninterp spec fn json_object_entries(text: Seq<char>) -> Option<Seq<(Seq<char>, PieceView)>>;

/// Relies on `serde_json::from_str` and on `Display` of `serde_json::Value`:
/// the entries of the root object of `text`; `Ok(None)` where the root is
/// no object, and the parser's message where `text` is no JSON.
#[verifier::external_body]
fn parse_object_entries(text: &str) -> (r: Result<Option<Vec<(String, JsonPiece)>>, String>)
    ensures
        match r {
            Ok(Some(v)) => json_object_entries(text@) == Some(pieces_view(v@)),
            _ => json_object_entries(text@) is None,
        },
{
    match serde_json::from_str::<serde_json::Value>(text) {
        Err(e) => Err(e.to_string()),
        Ok(serde_json::Value::Object(m)) => Ok(Some(m.into_iter().map(|(k, v)| (k, match v {
            serde_json::Value::String(s) => JsonPiece::Text(s),
            serde_json::Value::Object(o) => JsonPiece::Object(serde_json::Value::Object(o).to_string()),
            _ => JsonPiece::Other,
        })).collect())),
        Ok(_) => Ok(None),
    }
}

/// Nesting deeper than this is refused by `serde_json`'s parser, so a tree
/// read from parsed text is never cut short.
pub const MAX_DEPTH: usize = 128;

/// The tree of one entry's value, reading objects to depth `depth`.
pub open spec fn piece_tree(p: PieceView, depth: nat) -> JsonView
    decreases depth, 0nat,
{
    match p {
        PieceView::Text(s) => JsonView::Text(s),
        PieceView::Object(t) => if depth == 0 {
            JsonView::Other
        } else {
            match json_object_entries(t) {
                Some(es) => JsonView::Object(entries_tree(es, (depth - 1) as nat)),
                None => JsonView::Other,
            }
        },
        PieceView::Other => JsonView::Other,
    }
}

/// The trees of a list of entries.
pub open spec fn entries_tree(es: Seq<(Seq<char>, PieceView)>, depth: nat) -> Seq<(Seq<char>, JsonView)>
    decreases depth, 1nat,
{
    Seq::new(es.len(), |i: int| (es[i].0, if 0 <= i < es.len() { piece_tree(es[i].1, depth) } else { JsonView::Other }))
}

/// The JSON document of `text`, where its root is an object.
pub open spec fn json_document(text: Seq<char>) -> Option<JsonView> {
    match json_object_entries(text) {
        Some(es) => Some(JsonView::Object(entries_tree(es, MAX_DEPTH as nat))),
        None => None,
    }
}

/// The resources of a JSON text, where it is a JSON object.
pub open spec fn json_text_rows(text: Seq<char>) -> Option<Seq<Row>> {
    match json_document(text) {
        Some(d) => json_rows(d),
        None => None,
    }
}

fn piece_to_tree(p: JsonPiece, depth: usize) -> (r: JsonTree)
    ensures
        tree_view(r) == piece_tree(piece_view(p), depth as nat),
    decreases depth, 0nat,
{
    match p {
        JsonPiece::Text(s) => JsonTree::Text(s),
        JsonPiece::Object(t) => {
            if depth == 0 {
                JsonTree::Other
            } else {
                match parse_object_entries(t.as_str()) {
                    Ok(Some(es)) => {
                        let v = entries_to_tree(es, depth - 1);
                        proof {
                            lemma_object_view(v);
                        }
                        JsonTree::Object(v)
                    },
                    _ => JsonTree::Other,
                }
            }
        },
        JsonPiece::Other => JsonTree::Other,
    }
}

fn entries_to_tree(es: Vec<(String, JsonPiece)>, depth: usize) -> (r: Vec<(String, JsonTree)>)
    ensures
        entries_view(r@) == entries_tree(pieces_view(es@), depth as nat),
    decreases depth, 1nat,
{
    let ghost pv = pieces_view(es@);
    let mut rest = es;
    let mut out: Vec<(String, JsonTree)> = Vec::new();
    let mut i: usize = 0;
    let n = rest.len();
    assert(entries_view(out@) =~= entries_tree(pv, depth as nat).take(0));
    assert(pieces_view(rest@) =~= pv.skip(0));
    while rest.len() > 0
        invariant
            n == pv.len(),
            i + rest@.len() == n,
            pieces_view(rest@) == pv.skip(i as int),
            entries_view(out@) == entries_tree(pv, depth as nat).take(i as int),
        decreases rest.len(),
    {
        let ghost before_rest = rest@;
        let (key, piece) = rest.remove(0);
        assert(pieces_view(before_rest)[0] == pv[i as int]);
        assert((key@, piece_view(piece)) == pv[i as int]);
        assert forall|j: int| 0 <= j < rest@.len() implies #[trigger] pieces_view(rest@)[j] == pv.skip(i + 1)[j] by {
            assert(rest@[j] == before_rest[j + 1]);
            assert(pieces_view(before_rest)[j + 1] == pv.skip(i as int)[j + 1]);
        }
        assert(pieces_view(rest@) =~= pv.skip(i + 1));
        let t = piece_to_tree(piece, depth);
        let ghost before_out = out@;
        let ghost kv = key@;
        out.push((key, t));
        let ghost tree = entries_tree(pv, depth as nat);
        assert(tree[i as int] == (kv, tree_view(t)));
        assert(entries_view(out@) =~= entries_view(before_out).push((kv, tree_view(t))));
        i = i + 1;
        assert(entries_view(out@) =~= tree.take(i as int));
    }
    assert(entries_tree(pv, depth as nat).take(n as int) =~= entries_tree(pv, depth as nat));
    out
}

/// The quoted JSON string of `s`, as `serde_json` writes it.
pub uninterp spec fn json_quoted(s: Seq<char>) -> Seq<char>;

/// Relies on `serde_json::to_string` of a string: its quoted, escaped JSON form.
#[verifier::external_body]
fn json_quote(s: &str) -> (r: String)
    ensures
        r@ == json_quoted(s@),
{
    serde_json::to_string(s).unwrap_or_default()
}

/// `compact` pretty-printed by `serde_json` with four spaces of indentation
/// and no final newline; a text that is no JSON is given back as it is.
pub uninterp spec fn pretty_json(compact: Seq<char>) -> Seq<char>;

/// Relies on `serde_json::from_str` and `serde_json::ser::PrettyFormatter::with_indent`:
/// the document re-printed with four spaces of indentation.
#[verifier::external_body]
fn json_pretty(compact: &str) -> (r: String)
    ensures
        r@ == pretty_json(compact@),
{
    let v: serde_json::Value = match serde_json::from_str(compact) {
        Ok(v) => v,
        Err(_) => return compact.to_string(),
    };
    let formatter = serde_json::ser::PrettyFormatter::with_indent(b"    ");
    let mut ser = serde_json::Serializer::with_formatter(Vec::new(), formatter);
    match serde::Serialize::serialize(&v, &mut ser) {
        Ok(()) => String::from_utf8(ser.into_inner()).unwrap_or_else(|_| compact.to_string()),
        Err(_) => compact.to_string(),
    }
}

/// The compact JSON text of a value.
pub open spec fn compact_view(v: JsonView) -> Seq<char>
    decreases v, 0nat,
{
    match v {
        JsonView::Text(s) => json_quoted(s),
        JsonView::Object(es) => seq!['{'] + compact_entries(es, es.len()) + seq!['}'],
        JsonView::Other => seq!['n', 'u', 'l', 'l'],
    }
}

/// The compact text of the first `n` entries, separated by commas.
pub open spec fn compact_entries(es: Seq<(Seq<char>, JsonView)>, n: nat) -> Seq<char>
    decreases es, n,
{
    if n == 0 || n > es.len() {
        seq![]
    } else if n == 1 {
        json_quoted(es[0].0) + seq![':'] + compact_view(es[0].1)
    } else {
        compact_entries(es, (n - 1) as nat) + seq![','] + json_quoted(es[n - 1].0) + seq![':'] + compact_view(es[n - 1].1)
    }
}

fn path_name(path: &Vec<String>) -> (r: String)
    ensures
        r@ == join_dots(path@.map_values(|s: String| s@)),
{
    let ghost ps = path@.map_values(|s: String| s@);
    let mut out = String::new();
    let mut i: usize = 0;
    while i < path.len()
        invariant
            i <= path.len(),
            ps == path@.map_values(|s: String| s@),
            out@ == join_dots(ps.take(i as int)),
        decreases path.len() - i,
    {
        assert(ps.take(i + 1).drop_last() =~= ps.take(i as int));
        if i > 0 {
            out.append(".");
        } else {
            assert(ps.take(1) =~= seq![ps[0]]);
            assert(ps.take(0) =~= seq![]);
        }
        out.append(path[i].as_str());
        proof {
            reveal_strlit(".");
        }
        i = i + 1;
        assert(out@ =~= join_dots(ps.take(i as int)));
    }
    assert(ps.take(path.len() as int) =~= ps);
    out
}

fn flatten_into(t: &JsonTree, path: &mut Vec<String>, out: &mut Vec<Resource>)
    ensures
        final(path)@ == old(path)@,
        rows(final(out)@) == rows(old(out)@) + flatten_view(
            tree_view(*t),
            old(path)@.map_values(|s: String| s@),
        ),
    decreases t, 0nat,
{
    match t {
        JsonTree::Text(s) => {
            let name = path_name(path);
            let ghost before = out@;
            out.push(Resource { name, value: s.clone() });
            assert(rows(out@) =~= rows(before) + seq![out@.last()@]);
        },
        JsonTree::Object(es) => {
            flatten_entries_into(es, path, out);
            assert(entries_view(es@) =~= match tree_view(*t) {
                JsonView::Object(v) => v,
                _ => seq![],
            });
        },
        JsonTree::Other => {
            assert(rows(out@) + seq![] =~= rows(out@));
        },
    }
}

fn flatten_entries_into(es: &Vec<(String, JsonTree)>, path: &mut Vec<String>, out: &mut Vec<Resource>)
    ensures
        final(path)@ == old(path)@,
        rows(final(out)@) == rows(old(out)@) + flatten_entries(
            entries_view(es@),
            old(path)@.map_values(|s: String| s@),
            es@.len(),
        ),
    decreases es, 1nat,
{
    let ghost ps = path@.map_values(|s: String| s@);
    let ghost ev = entries_view(es@);
    let ghost start = rows(out@);
    let mut i: usize = 0;
    assert(start + seq![] =~= start);
    while i < es.len()
        invariant
            i <= es.len(),
            path@ == old(path)@,
            ps == path@.map_values(|s: String| s@),
            ev == entries_view(es@),
            rows(out@) == start + flatten_entries(ev, ps, i as nat),
        decreases es.len() - i,
    {
        let ghost prev = rows(out@);
        path.push(es[i].0.clone());
        assert(path@.map_values(|s: String| s@) =~= ps.push(ev[i as int].0));
        flatten_into(&es[i].1, path, out);
        path.pop();
        assert(path@ =~= old(path)@);
        i = i + 1;
        assert(rows(out@) =~= start + flatten_entries(ev, ps, i as nat));
    }
}

/// The resources of a JSON tree: its string leaves, keyed by dot path, in
/// document order; `None` where the root is no object.
pub open spec fn json_rows(t: JsonView) -> Option<Seq<Row>> {
    match t {
        JsonView::Object(es) => Some(flatten_entries(es, seq![], es.len())),
        _ => None,
    }
}

/// The resources that a parsed JSON document holds.
pub fn resources_from_tree(t: &JsonTree) -> (r: Result<Vec<Resource>, CirupError>)
    ensures
        match r {
            Ok(v) => json_rows(tree_view(*t)) == Some(rows(v@)),
            Err(e) => json_rows(tree_view(*t)) is None && e is Parse,
        },
{
    match t {
        JsonTree::Object(es) => {
            let mut path: Vec<String> = Vec::new();
            let mut out: Vec<Resource> = Vec::new();
            assert(rows(out@) =~= seq![]);
            assert(path@.map_values(|s: String| s@) =~= seq![]);
            flatten_entries_into(es, &mut path, &mut out);
            assert(entries_view(es@) =~= match tree_view(*t) {
                JsonView::Object(v) => v,
                _ => seq![],
            });
            Ok(out)
        },
        _ => Err(CirupError::Parse(String::from_str("the document is not a JSON object"))),
    }
}

proof fn lemma_object_view(es: Vec<(String, JsonTree)>)
    ensures
        tree_view(JsonTree::Object(es)) == JsonView::Object(entries_view(es@)),
{
    assert(match tree_view(JsonTree::Object(es)) {
        JsonView::Object(v) => v =~= entries_view(es@),
        _ => false,
    });
}

/// The index of the first entry of `es` with key `k`.
fn find_entry(es: &Vec<(String, JsonTree)>, k: &String) -> (r: Option<usize>)
    ensures
        match r {
            Some(i) => i < es@.len() && entries_view(es@)[i as int].0 == k@ && has_entry(entries_view(es@), k@) && i == entry_index(
                entries_view(es@),
                k@,
            ),
            None => !has_entry(entries_view(es@), k@),
        },
{
    let ghost ev = entries_view(es@);
    let mut i: usize = 0;
    while i < es.len()
        invariant
            i <= es.len(),
            ev == entries_view(es@),
            forall|j: int| 0 <= j < i ==> ev[j].0 != k@,
        decreases es.len() - i,
    {
        if es[i].0 == *k {
            assert(ev[i as int].0 == k@);
            let ghost c = entry_index(ev, k@);
            assert(0 <= c < ev.len() && ev[c].0 == k@ && forall|j: int| 0 <= j < c ==> ev[j].0 != k@);
            assert(c == i) by {
                if c < i {
                    assert(ev[c].0 != k@);
                } else if c > i {
                    assert(ev[i as int].0 != k@);
                }
            }
            return Some(i);
        }
        i = i + 1;
    }
    assert forall|j: int| 0 <= j < ev.len() implies (#[trigger] ev[j]).0 != k@ by {}
    None
}

/// Places the string `value` under key `name`, which holds no dot.
fn insert_leaf_into(es: &mut Vec<(String, JsonTree)>, name: &Vec<char>, value: &String) -> (ok: bool)
    requires
        first_index(name@, '.') < 0,
    ensures
        ok == insert_path(entries_view(old(es)@), name@, value@) is Some,
        ok ==> entries_view(final(es)@) == insert_path(entries_view(old(es)@), name@, value@)->0,
{
    let ghost ev = entries_view(es@);
    let key = string_of(name.as_slice());
    match find_entry(es, &key) {
        None => {
            es.push((key, JsonTree::Text(value.clone())));
            assert(entries_view(es@) =~= ev.push((name@, JsonView::Text(value@))));
            true
        },
        Some(i) => {
            let is_text = match &es[i].1 {
                JsonTree::Text(_) => true,
                _ => false,
            };
            if is_text {
                es.set(i, (key, JsonTree::Text(value.clone())));
                assert(entries_view(es@) =~= ev.update(i as int, (name@, JsonView::Text(value@))));
                true
            } else {
                false
            }
        },
    }
}

/// Adds key `key` holding an object with `value` at the dot path `rest`.
fn insert_under_new_key(es: &mut Vec<(String, JsonTree)>, key: String, rest: &Vec<char>, value: &String) -> (ok: bool)
    ensures
        ok == insert_path(seq![], rest@, value@) is Some,
        ok ==> entries_view(final(es)@) == entries_view(old(es)@).push(
            (key@, JsonView::Object(insert_path(seq![], rest@, value@)->0)),
        ),
    decreases rest@.len() + 1, 0nat,
{
    let ghost ev = entries_view(es@);
    let mut c: Vec<(String, JsonTree)> = Vec::new();
    assert(entries_view(c@) =~= seq![]);
    if insert_path_into(&mut c, rest, value) {
        let ghost cv = entries_view(c@);
        proof {
            lemma_object_view(c);
        }
        let ghost kv = key@;
        es.push((key, JsonTree::Object(c)));
        assert(entries_view(es@) =~= ev.push((kv, JsonView::Object(cv))));
        true
    } else {
        false
    }
}

/// Places `value` at the dot path `rest` inside the object held by entry `i`.
fn insert_under_entry(es: &mut Vec<(String, JsonTree)>, i: usize, rest: &Vec<char>, value: &String) -> (ok: bool)
    requires
        i < old(es)@.len(),
    ensures
        ok == match entries_view(old(es)@)[i as int].1 {
            JsonView::Object(c) => insert_path(c, rest@, value@) is Some,
            _ => false,
        },
        ok ==> entries_view(final(es)@) == entries_view(old(es)@).update(
            i as int,
            (
                entries_view(old(es)@)[i as int].0,
                JsonView::Object(insert_path(entries_view(old(es)@)[i as int].1->Object_0, rest@, value@)->0),
            ),
        ),
    decreases rest@.len() + 1, 0nat,
{
    let ghost ev = entries_view(es@);
    let ghost before = es@;
    let (old_key, child) = es.remove(i);
    match child {
        JsonTree::Object(mut c) => {
            proof {
                lemma_object_view(c);
            }
            let ok = insert_path_into(&mut c, rest, value);
            let ghost cv = entries_view(c@);
            proof {
                lemma_object_view(c);
            }
            es.insert(i, (old_key, JsonTree::Object(c)));
            assert(es@ =~= before.update(i as int, es@[i as int]));
            if ok {
                assert(entries_view(es@) =~= ev.update(i as int, (ev[i as int].0, JsonView::Object(cv))));
            }
            ok
        },
        other => {
            es.insert(i, (old_key, other));
            false
        },
    }
}

/// Places the string `value` at the dot path `name`, whose first dot is at `k`.
#[verifier::rlimit(40)]
fn insert_nested_into(es: &mut Vec<(String, JsonTree)>, name: &Vec<char>, k: usize, value: &String) -> (ok: bool)
    requires
        k < name@.len(),
        first_index(name@, '.') == k,
    ensures
        ok == insert_path(entries_view(old(es)@), name@, value@) is Some,
        ok ==> entries_view(final(es)@) == insert_path(entries_view(old(es)@), name@, value@)->0,
    decreases name@.len(), 1nat,
{
    assert(k + 1 <= name.len());
    let root = slice_of(name, 0, k);
    let rest = slice_of(name, k + 1, name.len());
    assert(root@ =~= name@.take(k as int));
    assert(rest@ =~= name@.skip(k + 1));
    let key = string_of(root.as_slice());
    match find_entry(es, &key) {
        None => insert_under_new_key(es, key, &rest, value),
        Some(i) => insert_under_entry(es, i, &rest, value),
    }
}

/// Places the string `value` at the dot path `name` in `es`; false where a
/// string and an object would share a key.
fn insert_path_into(es: &mut Vec<(String, JsonTree)>, name: &Vec<char>, value: &String) -> (ok: bool)
    ensures
        ok == insert_path(entries_view(old(es)@), name@, value@) is Some,
        ok ==> entries_view(final(es)@) == insert_path(entries_view(old(es)@), name@, value@)->0,
    decreases name@.len(), 2nat,
{
    match first_index_of(name, '.') {
        None => insert_leaf_into(es, name, value),
        Some(k) => insert_nested_into(es, name, k, value),
    }
}

/// The entries of the root object that holds every resource, nested by the
/// dots of their keys; an error where a string and an object would share a key.
pub fn build_tree(resources: &Vec<Resource>) -> (r: Result<Vec<(String, JsonTree)>, CirupError>)
    ensures
        match r {
            Ok(es) => build_entries(rows(resources@)) == Some(entries_view(es@)),
            Err(e) => build_entries(rows(resources@)) is None && e is Validation,
        },
{
    let mut es: Vec<(String, JsonTree)> = Vec::new();
    assert(entries_view(es@) =~= seq![]);
    let mut i: usize = 0;
    while i < resources.len()
        invariant
            i <= resources.len(),
            build_entries(rows(resources@).take(i as int)) == Some(entries_view(es@)),
        decreases resources.len() - i,
    {
        let ghost rs = rows(resources@);
        assert(rs.take(i + 1).drop_last() =~= rs.take(i as int));
        assert(rs.take(i + 1).last() == resources@[i as int]@);
        let name = chars_of(resources[i].name.as_str());
        if !insert_path_into(&mut es, &name, &resources[i].value) {
            proof {
                lemma_build_entries_none(rs, i as int + 1);
            }
            let mut m = String::new();
            m.append("a key is both a string and an object: ");
            m.append(resources[i].name.as_str());
            return Err(CirupError::Validation(m));
        }
        i = i + 1;
    }
    assert(rows(resources@).take(resources.len() as int) =~= rows(resources@));
    Ok(es)
}

proof fn lemma_build_entries_none(rs: Seq<Row>, n: int)
    requires
        0 <= n <= rs.len(),
        build_entries(rs.take(n)) is None,
    ensures
        build_entries(rs) is None,
    decreases rs.len() - n,
{
    if n < rs.len() {
        assert(rs.take(n + 1).drop_last() =~= rs.take(n));
        lemma_build_entries_none(rs, n + 1);
    } else {
        assert(rs.take(n) =~= rs);
    }
}

fn push_str(out: &mut Vec<char>, s: &str)
    ensures
        final(out)@ == old(out)@ + s@,
{
    let cs = chars_of(s);
    let mut i: usize = 0;
    while i < cs.len()
        invariant
            i <= cs.len(),
            cs@ == s@,
            out@ == old(out)@ + cs@.take(i as int),
        decreases cs.len() - i,
    {
        out.push(cs[i]);
        i = i + 1;
        assert(out@ =~= old(out)@ + cs@.take(i as int));
    }
    assert(cs@.take(cs@.len() as int) =~= cs@);
}

/// Appends the compact JSON text of `t`.
fn value_text(t: &JsonTree, out: &mut Vec<char>)
    ensures
        final(out)@ == old(out)@ + compact_view(tree_view(*t)),
    decreases t, 0nat,
{
    match t {
        JsonTree::Text(s) => push_str(out, json_quote(s.as_str()).as_str()),
        JsonTree::Object(es) => {
            proof {
                lemma_object_view(*es);
            }
            out.push('{');
            entries_text(es, out);
            out.push('}');
            assert(out@ =~= old(out)@ + compact_view(tree_view(*t)));
        },
        JsonTree::Other => {
            out.push('n');
            out.push('u');
            out.push('l');
            out.push('l');
            assert(out@ =~= old(out)@ + compact_view(tree_view(*t)));
        },
    }
}

/// Appends the compact text of a list of entries, separated by commas.
fn entries_text(es: &Vec<(String, JsonTree)>, out: &mut Vec<char>)
    ensures
        final(out)@ == old(out)@ + compact_entries(entries_view(es@), es@.len()),
    decreases es, 1nat,
{
    let ghost ev = entries_view(es@);
    let mut i: usize = 0;
    assert(old(out)@ + seq![] =~= old(out)@);
    while i < es.len()
        invariant
            i <= es.len(),
            ev == entries_view(es@),
            out@ == old(out)@ + compact_entries(ev, i as nat),
        decreases es.len() - i,
    {
        let ghost before = out@;
        if i > 0 {
            out.push(',');
        }
        push_str(out, json_quote(es[i].0.as_str()).as_str());
        out.push(':');
        value_text(&es[i].1, out);
        i = i + 1;
        assert(out@ =~= old(out)@ + compact_entries(ev, i as nat));
    }
}

/// The JSON format.
pub struct JsonFileFormat {}

impl JsonFileFormat {
    pub const EXTENSION: &'static str = "json";

    /// The resources of a JSON text: the string leaves of its root object,
    /// keyed by dot path, in document order.  A text that is no JSON object
    /// is a parse error.
    pub fn parse_from_str(&self, text: &str) -> (r: Result<Vec<Resource>, CirupError>)
        ensures
            match r {
                Ok(v) => json_text_rows(text@) == Some(rows(v@)),
                Err(e) => json_text_rows(text@) is None && e is Parse,
            },
    {
        match parse_object_entries(text) {
            Err(m) => Err(CirupError::Parse(m)),
            Ok(None) => Err(CirupError::Parse(String::from_str("the document is not a JSON object"))),
            Ok(Some(es)) => {
                let v = entries_to_tree(es, MAX_DEPTH);
                proof {
                    lemma_object_view(v);
                }
                resources_from_tree(&JsonTree::Object(v))
            },
        }
    }

    /// The JSON text of `resources`: objects nested by the dots of the keys,
    /// siblings in order of first appearance, pretty-printed with four
    /// spaces of indentation; an error where a key is both a string and an object.
    pub fn write_to_str(&self, resources: &Vec<Resource>) -> (r: Result<String, CirupError>)
        ensures
            match build_entries(rows(resources@)) {
                Some(es) => r is Ok && r->Ok_0@ == pretty_json(compact_view(JsonView::Object(es))),
                None => r is Err && r->Err_0 is Validation,
            },
    {
        let es = match build_tree(resources) {
            Ok(es) => es,
            Err(e) => return Err(e),
        };
        let mut out: Vec<char> = Vec::new();
        out.push('{');
        entries_text(&es, &mut out);
        out.push('}');
        assert(out@ =~= compact_view(JsonView::Object(entries_view(es@))));
        let compact = string_of(out.as_slice());
        Ok(json_pretty(compact.as_str()))
    }
}


proof fn lemma_flatten_prefix(s1: Seq<(Seq<char>, JsonView)>, s2: Seq<(Seq<char>, JsonView)>, path: Seq<Seq<char>>, n: nat)
    requires
        n <= s1.len(),
        n <= s2.len(),
        s1.take(n as int) == s2.take(n as int),
    ensures
        flatten_entries(s1, path, n) == flatten_entries(s2, path, n),
    decreases n,
{
    if n > 0 {
        assert(s1.take(n - 1) =~= s1.take(n as int).take(n - 1));
        assert(s2.take(n - 1) =~= s2.take(n as int).take(n - 1));
        assert(s1[n - 1] == s1.take(n as int)[n - 1]);
        assert(s2[n - 1] == s2.take(n as int)[n - 1]);
        lemma_flatten_prefix(s1, s2, path, (n - 1) as nat);
    }
}

/// Each resource as a string entry of the root object.
pub open spec fn flat_entries(rs: Seq<Row>) -> Seq<(Seq<char>, JsonView)> {
    rs.map_values(|r: Row| (r.0, JsonView::Text(r.1)))
}

proof fn lemma_no_dot(name: Seq<char>)
    requires
        forall|i: int| 0 <= i < name.len() ==> name[i] != '.',
    ensures
        first_index(name, '.') < 0,
    decreases name.len(),
{
    if name.len() > 0 {
        lemma_no_dot(name.drop_first());
    }
}

/// Resources whose keys are distinct and hold no dot become the string
/// entries of a flat root object, and reading that object back gives the
/// same resources in the same order.
pub proof fn lemma_json_flat_round_trip(rs: Seq<Row>)
    requires
        forall|k: int, i: int| 0 <= k < rs.len() && 0 <= i < rs[k].0.len() ==> (#[trigger] rs[k].0[i]) != '.',
        forall|j: int, k: int| 0 <= j < k < rs.len() ==> (#[trigger] rs[j]).0 != (#[trigger] rs[k]).0,
    ensures
        build_entries(rs) == Some(flat_entries(rs)),
        json_rows(JsonView::Object(flat_entries(rs))) == Some(rs),
    decreases rs.len(),
{
    if rs.len() > 0 {
        let prev = rs.drop_last();
        assert forall|k: int, i: int| 0 <= k < prev.len() && 0 <= i < prev[k].0.len() implies (#[trigger] prev[k].0[i]) != '.' by {
            assert(prev[k] == rs[k]);
        }
        assert forall|j: int, k: int| 0 <= j < k < prev.len() implies (#[trigger] prev[j]).0 != (#[trigger] prev[k]).0 by {
            assert(prev[j] == rs[j] && prev[k] == rs[k]);
        }
        lemma_json_flat_round_trip(prev);
        let r = rs.last();
        let es = flat_entries(prev);
        assert forall|i: int| 0 <= i < r.0.len() implies r.0[i] != '.' by {
            assert(rs[rs.len() - 1].0[i] != '.');
        }
        lemma_no_dot(r.0);
        assert(!has_entry(es, r.0)) by {
            if has_entry(es, r.0) {
                let w = choose|i: int| 0 <= i < es.len() && (#[trigger] es[i]).0 == r.0;
                assert(es[w].0 == prev[w].0);
                assert(rs[w].0 != rs[rs.len() - 1].0);
            }
        }
        assert(flat_entries(rs) =~= es.push((r.0, JsonView::Text(r.1))));
        let all = flat_entries(rs);
        let root: Seq<Seq<char>> = seq![];
        let n = prev.len();
        assert(all.take(n as int) =~= es.take(n as int));
        lemma_flatten_prefix(all, es, root, n);
        assert(all[n as int] == (r.0, JsonView::Text(r.1)));
        let p1 = root.push(r.0);
        assert(p1 =~= seq![r.0]);
        assert(join_dots(p1) == r.0);
        assert(flatten_view(JsonView::Text(r.1), p1) == seq![(r.0, r.1)]);
        assert(flatten_entries(all, root, (n + 1) as nat) == flatten_entries(all, root, n) + seq![(r.0, r.1)]);
        assert(flatten_entries(es, root, n) == prev);
        assert(prev + seq![(r.0, r.1)] =~= rs);
    } else {
        assert(flat_entries(rs) =~= seq![]);
    }
}

} // verus!
